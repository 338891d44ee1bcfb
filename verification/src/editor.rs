//! The editor: its mode, its caret, and what a key or a commit does to them.

use crate::cell::Cell;
use crate::model::etype::EType;
use crate::model::function_declaration::FunctionDeclaration;
use crate::model::node::{self, ENode, NodeKind};
use crate::model::term_graph::TermGraph;
use crate::panel;
use crate::prompt::{InsertPrompt, InsertPromptView};
use crate::suggest::{
    self,
    AddKind,
    AddKindView,
    CaretPlace,
    PromptAction,
    PromptActionView,
    Suggestion,
    TypeChoice,
};
use crate::target::{EditTarget, InsertTarget};
use std::collections::HashMap;
use vstd::prelude::*;

verus! {

broadcast use vstd::std_specs::hash::group_hash_axioms;

/// Editor mode, vim style. NORMAL navigates the caret; INSERT freezes it and
/// turns the keys into edits.
#[derive(Clone, Copy, Debug, PartialEq, Eq, Structural)]
pub enum EditorMode {
    Normal,
    Insert,
}

/// A node the prompt has built whose one mandatory property has not been given
/// yet. It stands in the graph while it is being answered, but Escape unmakes it
/// rather than leaving behind a placeholder nobody chose.
#[derive(Clone, Copy, Debug, PartialEq, Eq, Structural)]
pub struct PendingEdit {
    /// Removed whole on Escape. For a Match this is its one `Pattern`, which
    /// takes the Match with it.
    pub node: node::Id,
    /// Where the caret goes back to, so a cancelled insert leaves no trace.
    pub caret_before: Cell,
}

/// What building a node left behind.
#[derive(Clone, Copy, Debug, PartialEq, Eq, Structural)]
pub enum Inserted {
    /// The node is finished; nothing is owed.
    Done,
    /// The caret has been moved onto the cell that names the missing property,
    /// and INSERT stays on to collect it.
    Pending(PendingEdit),
}

/// Everything about the editor that a key can change.
pub struct Editor {
    pub mode: EditorMode,
    pub prompt: InsertPrompt,
    pub pending: Option<PendingEdit>,
    /// The cell the caret stands on, as a global address.
    pub caret: Cell,
    /// What is drawn no longer shows what is.
    pub rebuild: bool,
}

/// The mathematical value of an [`Editor`].
#[verifier::ext_equal]
pub struct EditorView {
    pub mode: EditorMode,
    pub prompt: InsertPromptView,
    pub pending: Option<PendingEdit>,
    pub caret: Cell,
    pub rebuild: bool,
}

impl View for Editor {
    type V = EditorView;

    open spec fn view(&self) -> EditorView {
        EditorView {
            mode: self.mode,
            prompt: self.prompt@,
            pending: self.pending,
            caret: self.caret,
            rebuild: self.rebuild,
        }
    }
}

// ── Building nodes ──

/// What is to be built, with what only the caller's commit knows of it.
#[derive(Debug)]
pub enum Build {
    Constant(EType),
    Source,
    Tunnel,
    /// A call of the function with this row, with one input for each parameter.
    FunctionCall { function: usize, inputs: usize },
    TypeCast,
    Match,
    /// Another arm below the one the caret stands on.
    PatternBelow,
}

/// `build` is what a node of the given kind is built from.
pub open spec fn builds(
    build: Build,
    kind: AddKindView,
    functions: Map<usize, FunctionDeclaration>,
) -> bool {
    match kind {
        AddKindView::Constant(choice, value) => build matches Build::Constant(t) && t@
            == suggest::declared_type(choice, value),
        AddKindView::Source => build is Source,
        AddKindView::Tunnel => build is Tunnel,
        AddKindView::FunctionCall(id) => build matches Build::FunctionCall { function, inputs }
            && function == id.0 && inputs == functions[id.0]@.inputs.len(),
        AddKindView::TypeCast => build is TypeCast,
        AddKindView::Match => build is Match,
        AddKindView::Pattern => build is PatternBelow,
    }
}

/// A node of the given kind can be built: it may stand at `place`, and a call
/// names a function that is declared.
pub open spec fn can_build(
    place: CaretPlace,
    kind: AddKindView,
    functions: Map<usize, FunctionDeclaration>,
) -> bool {
    &&& suggest::is_allowed(place, kind)
    &&& kind matches AddKindView::FunctionCall(id) ==> functions.contains_key(id.0)
}

/// What to build for a node of this kind at `place`; `None` when nothing is
/// built. A kind naming a function the catalogue does not hold builds nothing.
pub fn plan_insert(
    place: &Option<CaretPlace>,
    functions: &HashMap<usize, FunctionDeclaration>,
    kind: &AddKind,
) -> (build: Option<Build>)
    ensures
        match build {
            Some(build) => *place matches Some(at) && can_build(at, kind@, functions@) && builds(
                build,
                kind@,
                functions@,
            ),
            None => *place matches Some(at) ==> !can_build(at, kind@, functions@),
        },
{
    let place = match place {
        Some(place) => place,
        None => return None,
    };
    if !suggest::kind_allowed(place, kind) {
        return None;
    }
    match kind {
        AddKind::Constant(choice, value) => Some(
            Build::Constant(
                suggest::make_etype(
                    *choice,
                    match value {
                        Some(value) => Some(value.clone()),
                        None => None,
                    },
                ),
            ),
        ),
        AddKind::Source => Some(Build::Source),
        AddKind::Tunnel => Some(Build::Tunnel),
        AddKind::FunctionCall(id) => match functions.get(&id.0) {
            Some(declaration) => Some(
                Build::FunctionCall { function: id.0, inputs: declaration.inputs.len() },
            ),
            None => None,
        },
        AddKind::TypeCast => Some(Build::TypeCast),
        AddKind::Match => Some(Build::Match),
        AddKind::Pattern => Some(Build::PatternBelow),
    }
}

/// The way from the cell a node was built on to the cell that names what it
/// still owes; `None` for a kind that owes nothing.
pub open spec fn owed_at(kind: AddKindView) -> Option<Cell> {
    match kind {
        AddKindView::TypeCast => Some(Cell { x: 0, y: 0, z: 2 }),
        AddKindView::Match => Some(Cell { x: 0, y: 0, z: 2 }),
        AddKindView::Pattern => Some(Cell { x: 0, y: 1, z: 1 }),
        AddKindView::Source => Some(Cell { x: 0, y: 0, z: 0 }),
        AddKindView::Tunnel => Some(Cell { x: 0, y: 0, z: 0 }),
        _ => None,
    }
}

/// Where the property that is still missing is edited, relative to the cell the
/// node was built on.
///
/// A TypeCast and a Match hold a gap open after their input anchor, so what
/// names the type is the second cell behind it. A new Pattern goes one row below
/// the gap the caret was standing on, and one cell further back again to reach
/// its own type. A Source and a Tunnel are built on the very cell that declares
/// their type.
pub fn insert_step(kind: &AddKind) -> (step: Option<Cell>)
    ensures
        step == owed_at(kind@),
{
    match kind {
        AddKind::TypeCast | AddKind::Match => Some(Cell::new(0, 0, 2)),
        AddKind::Pattern => Some(Cell::new(0, 1, 1)),
        AddKind::Source | AddKind::Tunnel => Some(Cell::new(0, 0, 0)),
        AddKind::Constant(..) | AddKind::FunctionCall(..) => None,
    }
}

/// What a built node leaves behind, and where the caret stands then: `clamped`
/// is the cell the step leads to, kept inside the volume, and `standing` the
/// node that stands there.
pub open spec fn left_behind(
    kind: AddKindView,
    caret: Cell,
    clamped: Cell,
    standing: Option<node::Id>,
) -> (Inserted, Cell) {
    if owed_at(kind) is None {
        (Inserted::Done, caret)
    } else {
        match standing {
            Some(node) => (Inserted::Pending(PendingEdit { node, caret_before: caret }), clamped),
            None => (Inserted::Done, clamped),
        }
    }
}

impl Editor {
    /// The prompt's cursor stands on a character boundary.
    pub open spec fn well_formed(&self) -> bool {
        self.prompt.well_formed()
    }

    /// An editor in NORMAL, with the caret on the first cell.
    pub fn new() -> (editor: Self)
        ensures
            editor.well_formed(),
            editor@ == (EditorView {
                mode: EditorMode::Normal,
                prompt: InsertPromptView::empty(),
                pending: None,
                caret: Cell { x: 0, y: 0, z: 0 },
                rebuild: false,
            }),
    {
        Editor {
            mode: EditorMode::Normal,
            prompt: InsertPrompt::new(),
            pending: None,
            caret: Cell::new(0, 0, 0),
            rebuild: false,
        }
    }

    /// The caret after a node of this kind was built under it, and what the
    /// commit has to go on with.
    ///
    /// For most kinds the caret does not follow. The five kinds that come into
    /// the world unfinished are the exception: the caret ends up on the cell
    /// that names the missing property. If no node can be found there, only the
    /// offer to unmake it is lost.
    pub fn insert_node_kind(
        &mut self,
        kind: &AddKind,
        clamped: Cell,
        standing: Option<node::Id>,
    ) -> (outcome: Inserted)
        requires
            old(self).well_formed(),
        ensures
            final(self).well_formed(),
            outcome == left_behind(kind@, old(self).caret, clamped, standing).0,
            final(self)@ == (EditorView {
                caret: left_behind(kind@, old(self).caret, clamped, standing).1,
                ..old(self)@
            }),
    {
        if insert_step(kind).is_none() {
            return Inserted::Done;
        }
        let caret_before = self.caret;
        self.caret = clamped;
        match standing {
            Some(node) => Inserted::Pending(PendingEdit { node, caret_before }),
            None => Inserted::Done,
        }
    }
}

// ── Setting properties ──

/// The node with another type; `None` for a node that carries none.
pub open spec fn retyped(node: ENode, t: EType) -> Option<ENode> {
    match node {
        ENode::Constant { output_anchor, .. } => Some(
            ENode::Constant { etype: t, output_anchor },
        ),
        ENode::Source { name, output_anchor, .. } => Some(
            ENode::Source { name, etype: Some(t), output_anchor },
        ),
        ENode::TypeCast { input_anchor, output_anchor, .. } => Some(
            ENode::TypeCast { etype: Some(t), input_anchor, output_anchor },
        ),
        ENode::Pattern { parent_match, sink_node_id, .. } => Some(
            ENode::Pattern { parent_match, etype: Some(t), sink_node_id },
        ),
        ENode::Tunnel { input_anchor, output_anchor, .. } => Some(
            ENode::Tunnel { etype: Some(t), input_anchor, output_anchor },
        ),
        _ => None,
    }
}

/// The kinds of node that carry a type.
pub open spec fn carries_type(kind: NodeKind) -> bool {
    kind == NodeKind::Constant || kind == NodeKind::Source || kind == NodeKind::TypeCast || kind
        == NodeKind::Pattern || kind == NodeKind::Tunnel
}

fn with_type(node: &ENode, t: EType) -> (res: Option<ENode>)
    ensures
        res == retyped(*node, t),
{
    match node {
        ENode::Constant { output_anchor, .. } => Some(
            ENode::Constant { etype: t, output_anchor: *output_anchor },
        ),
        ENode::Source { name, output_anchor, .. } => Some(
            ENode::Source { name: name.clone(), etype: Some(t), output_anchor: *output_anchor },
        ),
        ENode::TypeCast { input_anchor, output_anchor, .. } => Some(
            ENode::TypeCast {
                etype: Some(t),
                input_anchor: *input_anchor,
                output_anchor: *output_anchor,
            },
        ),
        ENode::Pattern { parent_match, sink_node_id, .. } => Some(
            ENode::Pattern {
                parent_match: *parent_match,
                etype: Some(t),
                sink_node_id: *sink_node_id,
            },
        ),
        ENode::Tunnel { input_anchor, output_anchor, .. } => Some(
            ENode::Tunnel {
                etype: Some(t),
                input_anchor: *input_anchor,
                output_anchor: *output_anchor,
            },
        ),
        _ => None,
    }
}

/// Declare a new type, and, where the row named a literal, that literal, on
/// whichever node carries one. Says whether the graph changed.
///
/// Type and literal are written together, which is what lets one keystroke say
/// both: `42` on a TypeCast makes it produce the integer 42, `Integer` makes it
/// cast to integers.
pub fn set_node_type(
    graph: &mut TermGraph,
    node_id: &node::Id,
    choice: TypeChoice,
    value: Option<String>,
) -> (changed: bool)
    ensures
        changed == (old(graph)@.nodes.contains_key(*node_id) && carries_type(
            old(graph)@.nodes[*node_id].kind_of(),
        )),
        !changed ==> final(graph)@ == old(graph)@,
        changed ==> exists|t: EType|
            #![trigger retyped(old(graph)@.nodes[*node_id], t)]
            t@ == suggest::declared_type(choice, crate::text::opt_text(value))
                && final(graph)@ == old(graph)@.with_node_replaced(
                *node_id,
                retyped(old(graph)@.nodes[*node_id], t)->0,
            ),
{
    let t = suggest::make_etype(choice, value);
    let node = match graph.nodes.get(&node_id.0) {
        Some(node) => node,
        None => return false,
    };
    let ghost new_type = t;
    match with_type(node, t) {
        Some(node) => {
            assert(retyped(old(graph)@.nodes[*node_id], new_type) == Some(node));
            let replaced = graph.with_node_replaced(node_id, node);
            *graph = replaced;
            true
        },
        None => false,
    }
}

/// The node with another name; `None` for a node that carries none.
pub open spec fn renamed(node: ENode, name: String) -> Option<ENode> {
    match node {
        ENode::Source { etype, output_anchor, .. } => Some(
            ENode::Source { name, etype, output_anchor },
        ),
        _ => None,
    }
}

/// Rename a Source. Says whether the graph changed.
pub fn set_source_name(graph: &mut TermGraph, node_id: &node::Id, name: &str) -> (changed: bool)
    ensures
        changed == (old(graph)@.nodes.contains_key(*node_id) && old(graph)@.nodes[*node_id].kind_of()
            == NodeKind::Source),
        !changed ==> final(graph)@ == old(graph)@,
        changed ==> exists|new_name: String|
            #![trigger renamed(old(graph)@.nodes[*node_id], new_name)]
            new_name@ == name@ && final(graph)@ == old(graph)@.with_node_replaced(
                *node_id,
                renamed(old(graph)@.nodes[*node_id], new_name)->0,
            ),
{
    let node = match graph.nodes.get(&node_id.0) {
        Some(ENode::Source { etype, output_anchor, .. }) => {
            let new_name = name.to_owned();
            let ghost given = new_name;
            let node = ENode::Source {
                name: new_name,
                etype: match etype {
                    Some(t) => Some(t.clone()),
                    None => None,
                },
                output_anchor: *output_anchor,
            };
            assert(renamed(old(graph)@.nodes[*node_id], given) == Some(node));
            node
        },
        _ => return false,
    };
    let replaced = graph.with_node_replaced(node_id, node);
    *graph = replaced;
    true
}

/// Reading a property gives back what was written: the type as it is spelled on
/// a constant, a cast and an arm, and its base type on a Source and a Tunnel.
/// The node keeps its anchors and its kind.
pub proof fn law_type_reads_back(node: ENode, t: EType)
    requires
        carries_type(node.kind_of()),
    ensures
        retyped(node, t) matches Some(now) && now.kind_of() == node.kind_of() && now.anchor_list()
            == node.anchor_list() && match node.kind_of() {
            NodeKind::Constant => panel::property_spelling(now, EditTarget::ConstantValue)
                == t@.spelling(),
            NodeKind::TypeCast => panel::property_spelling(now, EditTarget::CastType)
                == t@.spelling(),
            NodeKind::Pattern => panel::property_spelling(now, EditTarget::PatternType)
                == t@.spelling(),
            NodeKind::Source => panel::property_spelling(now, EditTarget::SourceType)
                == suggest::choice_label(suggest::choice_of(t@)) && panel::property_spelling(
                now,
                EditTarget::SourceName,
            ) == panel::property_spelling(node, EditTarget::SourceName),
            NodeKind::Tunnel => panel::property_spelling(now, EditTarget::TunnelType)
                == suggest::choice_label(suggest::choice_of(t@)),
            _ => true,
        },
{
}

/// Reading a Source's name gives back what was written, and its type and anchors
/// stay.
pub proof fn law_name_reads_back(node: ENode, name: String)
    requires
        node.kind_of() == NodeKind::Source,
    ensures
        renamed(node, name) matches Some(now) && now.kind_of() == NodeKind::Source
            && now.anchor_list() == node.anchor_list() && panel::property_spelling(
            now,
            EditTarget::SourceName,
        ) == name@ && panel::property_spelling(now, EditTarget::SourceType)
            == panel::property_spelling(node, EditTarget::SourceType),
{
}

/// What a commit asks of the graph.
#[derive(Debug)]
pub enum Commit {
    /// The row does not fit the cell the caret stands on.
    Nothing,
    Build(AddKind),
    Rename(node::Id, String),
    Retype(node::Id, TypeChoice, Option<String>),
}

/// The mathematical value of a [`Commit`].
pub enum CommitView {
    Nothing,
    Build(AddKindView),
    Rename(node::Id, Seq<char>),
    Retype(node::Id, TypeChoice, Option<Seq<char>>),
}

impl View for Commit {
    type V = CommitView;

    open spec fn view(&self) -> CommitView {
        match self {
            Commit::Nothing => CommitView::Nothing,
            Commit::Build(kind) => CommitView::Build(kind@),
            Commit::Rename(id, name) => CommitView::Rename(*id, name@),
            Commit::Retype(id, choice, value) => CommitView::Retype(
                *id,
                *choice,
                crate::text::opt_text(*value),
            ),
        }
    }
}

/// What committing `action` does where the caret addresses `target`: every
/// setter takes the node from the caret, not from the row.
pub open spec fn commit_of(action: PromptActionView, target: InsertTarget) -> CommitView {
    match (action, target) {
        (PromptActionView::Create(kind), _) => CommitView::Build(kind),
        (
            PromptActionView::SetName(name),
            InsertTarget::Edit(id, EditTarget::SourceName),
        ) => CommitView::Rename(id, name),
        (PromptActionView::SetType(choice, value), InsertTarget::Edit(id, property)) => if property
            == EditTarget::SourceName {
            CommitView::Nothing
        } else {
            CommitView::Retype(id, choice, value)
        },
        _ => CommitView::Nothing,
    }
}

/// Commit a prompt row: what is asked of the graph. The caret is what the prompt
/// is about, so a row can never point at something that has moved on since it
/// was drawn.
pub fn apply_prompt_action(action: &PromptAction, target: InsertTarget) -> (commit: Commit)
    ensures
        commit@ == commit_of(action@, target),
{
    match (action, target) {
        (PromptAction::Create(kind), _) => Commit::Build(kind.clone()),
        (
            PromptAction::SetName(name),
            InsertTarget::Edit(id, EditTarget::SourceName),
        ) => Commit::Rename(id, name.clone()),
        (PromptAction::SetType(choice, value), InsertTarget::Edit(id, property)) => match property {
            EditTarget::SourceName => Commit::Nothing,
            EditTarget::SourceType
            | EditTarget::ConstantValue
            | EditTarget::CastType
            | EditTarget::PatternType
            | EditTarget::TunnelType => Commit::Retype(
                id,
                *choice,
                match value {
                    Some(value) => Some(value.clone()),
                    None => None,
                },
            ),
        },
        _ => Commit::Nothing,
    }
}

/// Sink and BranchSource are constitutive parts of their scope: neither can be
/// deleted. Everything else can.
pub open spec fn is_deletable(kind: NodeKind) -> bool {
    kind != NodeKind::Sink && kind != NodeKind::BranchSource
}

/// Whether what the caret stands on may go; nothing may where it stands on
/// nothing.
pub fn deletable_at_caret(standing: Option<&ENode>) -> (res: bool)
    ensures
        res == (standing matches Some(node) && is_deletable(node.kind_of())),
{
    match standing {
        Some(ENode::Sink { .. }) => false,
        Some(ENode::BranchSource { .. }) => false,
        Some(_) => true,
        None => false,
    }
}

/// A commit asks for exactly what the row carries, of the node the caret is on: a
/// row that builds is built wherever it is, a row that sets a type on a property
/// that takes one sets that type with that literal, and a row that sets a name on a
/// name sets that name. A row that does not fit the cell asks for nothing.
pub proof fn law_a_commit_asks_for_what_the_row_carries(
    action: PromptActionView,
    target: InsertTarget,
)
    ensures
        action matches PromptActionView::Create(kind) ==> commit_of(action, target)
            == CommitView::Build(kind),
        action matches PromptActionView::SetType(choice, value) ==> {
            &&& target matches InsertTarget::Edit(id, property) ==> property
                != EditTarget::SourceName ==> commit_of(action, target) == CommitView::Retype(
                id,
                choice,
                value,
            )
            &&& target matches InsertTarget::Edit(_, EditTarget::SourceName) ==> commit_of(
                action,
                target,
            ) is Nothing
            &&& target is Create ==> commit_of(action, target) is Nothing
        },
        action matches PromptActionView::SetName(name) ==> {
            &&& target matches InsertTarget::Edit(id, EditTarget::SourceName) ==> commit_of(
                action,
                target,
            ) == CommitView::Rename(id, name)
            &&& target matches InsertTarget::Edit(_, property) ==> property
                != EditTarget::SourceName ==> commit_of(action, target) is Nothing
            &&& target is Create ==> commit_of(action, target) is Nothing
        },
{
}

/// The node has the property.
pub open spec fn has_property(kind: NodeKind, property: EditTarget) -> bool {
    match property {
        EditTarget::SourceName => kind == NodeKind::Source,
        EditTarget::SourceType => kind == NodeKind::Source,
        EditTarget::ConstantValue => kind == NodeKind::Constant,
        EditTarget::CastType => kind == NodeKind::TypeCast,
        EditTarget::PatternType => kind == NodeKind::Pattern,
        EditTarget::TunnelType => kind == NodeKind::Tunnel,
    }
}

/// What a committed row has set reads back as the row was called. The node named
/// is the one the caret is on; `t` is the type that the commit asks for. The word
/// for the absence of a value is the one row that reads back otherwise: as the
/// name of its type.
pub proof fn law_a_committed_row_reads_back(
    node: ENode,
    property: EditTarget,
    id: node::Id,
    functions: Map<usize, FunctionDeclaration>,
    place: Option<CaretPlace>,
    text: Seq<char>,
    i: int,
    t: EType,
)
    requires
        property != EditTarget::SourceName,
        has_property(node.kind_of(), property),
        0 <= i < suggest::candidates_for(
            InsertTarget::Edit(id, property),
            functions,
            place,
            text,
            true,
        ).len(),
        ({
            let row = suggest::candidates_for(
                InsertTarget::Edit(id, property),
                functions,
                place,
                text,
                true,
            )[i];
            commit_of(row.action, InsertTarget::Edit(id, property)) matches CommitView::Retype(
                asked,
                choice,
                value,
            ) ==> t@ == suggest::declared_type(choice, value)
        }),
    ensures
        ({
            let row = suggest::candidates_for(
                InsertTarget::Edit(id, property),
                functions,
                place,
                text,
                true,
            )[i];
            let commit = commit_of(row.action, InsertTarget::Edit(id, property));
            &&& commit matches CommitView::Retype(asked, _, _)
            &&& asked == id
            &&& retyped(node, t) matches Some(now)
            &&& panel::property_spelling(now, property) == row.label || (row.label
                == seq!['n', 'o', 'n', 'e'] && t@ is NoneType)
        }),
{
    suggest::law_a_property_row_does_what_it_says(
        property,
        id,
        functions,
        place,
        text,
        true,
        i,
    );
    let row = suggest::candidates_for(
        InsertTarget::Edit(id, property),
        functions,
        place,
        text,
        true,
    )[i];
    if let PromptActionView::SetType(choice, value) = row.action {
        suggest::law_choice_and_type_agree(choice, value);
        suggest::law_choice_and_type_agree(choice, None);
    }
}

/// A typed name reads back as it was typed, on the Source the caret is on.
pub proof fn law_a_committed_name_reads_back(
    node: ENode,
    id: node::Id,
    functions: Map<usize, FunctionDeclaration>,
    place: Option<CaretPlace>,
    text: Seq<char>,
    parses: bool,
    name: String,
)
    requires
        node.kind_of() == NodeKind::Source,
        ({
            let rows = suggest::candidates_for(
                InsertTarget::Edit(id, EditTarget::SourceName),
                functions,
                place,
                text,
                parses,
            );
            commit_of(
                rows[0].action,
                InsertTarget::Edit(id, EditTarget::SourceName),
            ) matches CommitView::Rename(_, asked) ==> name@ == asked
        }),
    ensures
        ({
            let rows = suggest::candidates_for(
                InsertTarget::Edit(id, EditTarget::SourceName),
                functions,
                place,
                text,
                parses,
            );
            let commit = commit_of(
                rows[0].action,
                InsertTarget::Edit(id, EditTarget::SourceName),
            );
            &&& rows.len() == 1
            &&& commit matches CommitView::Rename(asked, _)
            &&& asked == id
            &&& renamed(node, name) matches Some(now)
            &&& panel::property_spelling(now, EditTarget::SourceName) == text
        }),
{
}

/// A node without the property is not changed by an answer to it: only what
/// carries a type can be given another, and only a Source another name.
pub proof fn law_what_can_be_changed(node: ENode, t: EType, name: String)
    ensures
        retyped(node, t) is Some <==> node is Constant || node is Source || node is TypeCast
            || node is Pattern || node is Tunnel,
        renamed(node, name) is Some <==> node is Source,
        carries_type(node.kind_of()) <==> retyped(node, t) is Some,
        node matches ENode::Pattern { parent_match, sink_node_id, .. } ==> retyped(node, t) == Some(
            ENode::Pattern { parent_match, etype: Some(t), sink_node_id },
        ),
        node matches ENode::Source { etype, output_anchor, .. } ==> renamed(node, name) == Some(
            ENode::Source { name, etype, output_anchor },
        ),
        node matches ENode::Source { name: called, output_anchor, .. } ==> retyped(node, t) == Some(
            ENode::Source { name: called, etype: Some(t), output_anchor },
        ),
{
}

/// What is built is what the row offered: a constant of the type and the literal
/// it carries, a call of the function it names with an input for every parameter,
/// and every other kind itself.
pub proof fn law_what_is_built(
    build: Build,
    kind: AddKindView,
    functions: Map<usize, FunctionDeclaration>,
)
    requires
        builds(build, kind, functions),
    ensures
        kind matches AddKindView::Constant(choice, value) ==> {
            &&& build matches Build::Constant(t)
            &&& suggest::choice_of(t@) == choice
            &&& choice != TypeChoice::NoneType ==> crate::infer::carried(t@).literal() == value
        },
        kind matches AddKindView::FunctionCall(id) ==> {
            &&& build matches Build::FunctionCall { function, inputs }
            &&& function == id.0
            &&& inputs == functions[id.0]@.inputs.len()
        },
        kind is Source <==> build is Source,
        kind is Tunnel <==> build is Tunnel,
        kind is TypeCast <==> build is TypeCast,
        kind is Match <==> build is Match,
        kind is Pattern <==> build is PatternBelow,
{
}

/// A node that comes into the world unfinished leaves the caret on the cell that
/// names what it owes: for a cast that is the cell its type is drawn on, and for
/// another arm the cell its type is drawn on, one row further down. A Source and a
/// Tunnel owe on their own cell. What is finished owes nothing and the caret stays.
pub proof fn law_where_a_new_node_owes(
    kind: AddKindView,
    caret: Cell,
    clamped: Cell,
    standing: Option<node::Id>,
)
    ensures
        kind is Constant || kind is FunctionCall <==> owed_at(kind) is None,
        kind is TypeCast ==> owed_at(kind) == Some(
            Cell { x: 0, y: 0, z: crate::render::node::CAST_TYPE_Z },
        ),
        kind is Match ==> owed_at(kind) == Some(Cell { x: 0, y: 0, z: 2 }),
        kind is Pattern ==> owed_at(kind) == Some(
            Cell { x: 0, y: 1, z: crate::render::node::PATTERN_TYPE_LOCAL_Z },
        ),
        kind is Source || kind is Tunnel ==> owed_at(kind) == Some(Cell { x: 0, y: 0, z: 0 }),
        owed_at(kind) is None ==> left_behind(kind, caret, clamped, standing) == (
            Inserted::Done,
            caret,
        ),
        owed_at(kind) is Some ==> {
            let (left, at) = left_behind(kind, caret, clamped, standing);
            &&& at == clamped
            &&& standing is None ==> left == Inserted::Done
            &&& standing matches Some(node) ==> left == Inserted::Pending(
                PendingEdit { node, caret_before: caret },
            )
        },
{
}

/// Everything can be deleted but the ends of a scope.
pub proof fn law_what_can_be_deleted(node: ENode)
    ensures
        is_deletable(node.kind_of()) <==> !(node is Sink || node is BranchSource),
{
}

} // verus!
