//! The panel beside the caret: the node the caret stands on, and what can be
//! answered about it.

use crate::cell::{Cell, CellRole, Placement};
use crate::model::etype::{EType, ETypeView};
use crate::model::function_declaration::FunctionDeclaration;
use crate::model::node::{self, ENode, NodeKind};
use crate::suggest;
use crate::target::{self, EditTarget, InsertTarget};
use crate::text;
use std::collections::HashMap;
use vstd::prelude::*;

verus! {

broadcast use vstd::std_specs::hash::group_hash_axioms;

/// The value of an optional declared type.
pub open spec fn opt_type(t: Option<EType>) -> Option<ETypeView> {
    match t {
        Some(t) => Some(t@),
        None => None,
    }
}

/// A declared base type, by name. Nothing declared is nothing to write.
pub open spec fn base_type_text(t: Option<ETypeView>) -> Seq<char> {
    match t {
        Some(t) => suggest::choice_label(suggest::choice_of(t)),
        None => Seq::empty(),
    }
}

/// A declared type or literal, as it is spelled. Nothing chosen yet is nothing
/// to write.
pub open spec fn type_text(t: Option<ETypeView>) -> Seq<char> {
    match t {
        Some(t) => t.spelling(),
        None => Seq::empty(),
    }
}

/// The property of a node that `target` names, spelled the way it would be
/// typed; empty where the node has no such property.
pub open spec fn property_spelling(node: ENode, target: EditTarget) -> Seq<char> {
    match (target, node) {
        (EditTarget::SourceName, ENode::Source { name, .. }) => name@,
        (EditTarget::SourceType, ENode::Source { etype, .. }) => base_type_text(opt_type(etype)),
        (EditTarget::TunnelType, ENode::Tunnel { etype, .. }) => base_type_text(opt_type(etype)),
        (EditTarget::ConstantValue, ENode::Constant { etype, .. }) => etype@.spelling(),
        (EditTarget::CastType, ENode::TypeCast { etype, .. }) => type_text(opt_type(etype)),
        (EditTarget::PatternType, ENode::Pattern { etype, .. }) => type_text(opt_type(etype)),
        _ => Seq::empty(),
    }
}

/// The property the target names on the node `node_id`; empty where there is no
/// such node.
pub open spec fn property_in(
    nodes: Map<usize, ENode>,
    node_id: node::Id,
    target: EditTarget,
) -> Seq<char> {
    if nodes.contains_key(node_id.0) {
        property_spelling(nodes[node_id.0], target)
    } else {
        Seq::empty()
    }
}

fn base_type_spelled(t: &Option<EType>) -> (text: String)
    ensures
        text@ == base_type_text(opt_type(*t)),
{
    match t {
        Some(t) => suggest::type_choice_label(suggest::type_choice_of(t)).to_owned(),
        None => String::new(),
    }
}

fn type_spelled(t: &Option<EType>) -> (text: String)
    ensures
        text@ == type_text(opt_type(*t)),
{
    match t {
        Some(t) => t.spelled(),
        None => String::new(),
    }
}

/// The property the target names, spelled the way it would be typed, which is
/// what the prompt opens on, so that changing a value starts from the value.
pub fn property_text(
    nodes: &HashMap<usize, ENode>,
    node_id: &node::Id,
    target: EditTarget,
) -> (text: String)
    ensures
        text@ == property_in(nodes@, *node_id, target),
{
    let node = match nodes.get(&node_id.0) {
        Some(node) => node,
        None => return String::new(),
    };
    match (target, node) {
        (EditTarget::SourceName, ENode::Source { name, .. }) => name.clone(),
        (EditTarget::SourceType, ENode::Source { etype, .. }) => base_type_spelled(etype),
        (EditTarget::TunnelType, ENode::Tunnel { etype, .. }) => base_type_spelled(etype),
        (EditTarget::ConstantValue, ENode::Constant { etype, .. }) => etype.spelled(),
        (EditTarget::CastType, ENode::TypeCast { etype, .. }) => type_spelled(etype),
        (EditTarget::PatternType, ENode::Pattern { etype, .. }) => type_spelled(etype),
        _ => String::new(),
    }
}

/// What a row of the panel addresses, and what the caret is turned into, so that
/// finding the row it stands on is a comparison and not a second decision.
#[derive(Clone, Copy, Debug, PartialEq, Eq, Structural)]
pub enum RowAddress {
    /// A property of a node: the pair `insert_target` answers with.
    Property(node::Id, EditTarget),
    /// The cell a new arm would be built at. Named by its cell, because there is
    /// no node there yet.
    ArmGap(Cell),
}

/// One row of the panel: what it says, and the cell the caret stands on to
/// address it.
#[derive(Debug)]
pub struct PanelRow {
    pub address: RowAddress,
    /// Global. This is where `TAB` puts the caret.
    pub cell: Cell,
    /// Left column. A gap row has none: it is a line, not a property.
    pub label: String,
    /// Right column. A gap row has none.
    pub value: String,
}

/// What the panel is about: one node, and everything about it that can be
/// answered.
#[derive(Debug)]
pub struct PanelSubject {
    pub heading: String,
    pub rows: Vec<PanelRow>,
}

/// The mathematical value of a [`PanelRow`].
pub struct PanelRowView {
    pub address: RowAddress,
    pub cell: Cell,
    pub label: Seq<char>,
    pub value: Seq<char>,
}

/// The mathematical value of a [`PanelSubject`].
#[verifier::ext_equal]
pub struct PanelSubjectView {
    pub heading: Seq<char>,
    pub rows: Seq<PanelRowView>,
}

impl View for PanelRow {
    type V = PanelRowView;

    open spec fn view(&self) -> PanelRowView {
        PanelRowView {
            address: self.address,
            cell: self.cell,
            label: self.label@,
            value: self.value@,
        }
    }
}

/// The values of a list of rows.
pub open spec fn row_views(rows: Seq<PanelRow>) -> Seq<PanelRowView> {
    rows.map_values(|row: PanelRow| row@)
}

impl View for PanelSubject {
    type V = PanelSubjectView;

    open spec fn view(&self) -> PanelSubjectView {
        PanelSubjectView { heading: self.heading@, rows: row_views(self.rows@) }
    }
}

/// The value of what the panel may be about.
pub open spec fn opt_subject(subject: Option<PanelSubject>) -> Option<PanelSubjectView> {
    match subject {
        Some(subject) => Some(subject@),
        None => None,
    }
}

/// What the panel calls a node.
pub open spec fn heading_of(functions: Map<usize, FunctionDeclaration>, node: ENode) -> Seq<char> {
    match node {
        ENode::Source { .. } => "Source"@,
        ENode::Constant { .. } => "Constant"@,
        ENode::TypeCast { .. } => "TypeCast"@,
        ENode::Tunnel { .. } => "Tunnel"@,
        ENode::Match { .. } => "Match"@,
        ENode::Pattern { .. } => "Pattern"@,
        ENode::Sink { .. } => "Sink"@,
        ENode::BranchSource { .. } => "Branch source"@,
        ENode::Root {} => "Root"@,
        ENode::FunctionCall { function_declaration_id, .. } => if functions.contains_key(
            function_declaration_id.0,
        ) {
            functions[function_declaration_id.0]@.name
        } else {
            "Call"@
        },
    }
}

/// What the panel calls the node it is about: the kind and not the node. A call
/// is the exception: which function it calls is the one thing about a call that
/// cannot be changed.
pub fn panel_heading(
    functions: &HashMap<usize, FunctionDeclaration>,
    node: &ENode,
) -> (heading: String)
    ensures
        heading@ == heading_of(functions@, *node),
{
    match node {
        ENode::Source { .. } => "Source".to_owned(),
        ENode::Constant { .. } => "Constant".to_owned(),
        ENode::TypeCast { .. } => "TypeCast".to_owned(),
        ENode::Tunnel { .. } => "Tunnel".to_owned(),
        ENode::Match { .. } => "Match".to_owned(),
        ENode::Pattern { .. } => "Pattern".to_owned(),
        ENode::Sink { .. } => "Sink".to_owned(),
        ENode::BranchSource { .. } => "Branch source".to_owned(),
        ENode::Root {} => "Root".to_owned(),
        ENode::FunctionCall { function_declaration_id, .. } => match functions.get(
            &function_declaration_id.0,
        ) {
            Some(declaration) => declaration.name.clone(),
            None => "Call".to_owned(),
        },
    }
}

/// What the panel calls a property.
pub open spec fn label_of(target: EditTarget) -> Seq<char> {
    match target {
        EditTarget::SourceName => "Name"@,
        EditTarget::ConstantValue => "Value"@,
        _ => "Type"@,
    }
}

/// What the panel calls a property. One word, because the node's own name is
/// already the heading above it.
pub fn property_label(target: EditTarget) -> (label: &'static str)
    ensures
        label@ == label_of(target),
{
    match target {
        EditTarget::SourceName => "Name",
        EditTarget::SourceType
        | EditTarget::CastType
        | EditTarget::PatternType
        | EditTarget::TunnelType => "Type",
        EditTarget::ConstantValue => "Value",
    }
}

/// The caret, said the way a row says it.
pub open spec fn address_of(target: InsertTarget, caret: Cell) -> RowAddress {
    match target {
        InsertTarget::Edit(id, property) => RowAddress::Property(id, property),
        InsertTarget::Create => RowAddress::ArmGap(caret),
    }
}

/// The caret, said the way a row says it.
pub fn caret_row_address(target: InsertTarget, caret: Cell) -> (address: RowAddress)
    ensures
        address == address_of(target, caret),
{
    match target {
        InsertTarget::Edit(id, property) => RowAddress::Property(id, property),
        InsertTarget::Create => RowAddress::ArmGap(caret),
    }
}

/// One of `cells` names `property` on a node of the given kind.
pub open spec fn is_named(
    kind: NodeKind,
    cells: Seq<(Cell, CellRole)>,
    property: EditTarget,
) -> bool {
    exists|i: int|
        0 <= i < cells.len() && target::property_of(kind, (#[trigger] cells[i]).1) == Some(property)
}

/// The row of a property.
pub open spec fn property_row(
    nodes: Map<usize, ENode>,
    id: node::Id,
    property: EditTarget,
    cell: Cell,
) -> PanelRowView {
    PanelRowView {
        address: RowAddress::Property(id, property),
        cell,
        label: label_of(property),
        value: property_in(nodes, id, property),
    }
}

/// The rows of a node's properties, in the order its cells run. Cells that name
/// the same property answer one question between them, so the first is the row.
pub open spec fn property_rows(
    nodes: Map<usize, ENode>,
    id: node::Id,
    kind: NodeKind,
    cells: Seq<(Cell, CellRole)>,
    origin: Cell,
) -> Seq<PanelRowView>
    decreases cells.len(),
{
    if cells.len() == 0 {
        Seq::empty()
    } else {
        let before = property_rows(nodes, id, kind, cells.drop_last(), origin);
        match target::property_of(kind, cells.last().1) {
            Some(property) => if is_named(kind, cells.drop_last(), property) {
                before
            } else {
                before.push(property_row(nodes, id, property, cells.last().0.sum(origin)))
            },
            None => before,
        }
    }
}

/// The cells of a placement can be written as global addresses.
pub open spec fn can_lift(placement: Placement, origin: Cell) -> bool {
    &&& placement.pos.can_add(origin)
    &&& forall|i: int|
        0 <= i < placement.cells.len() ==> (#[trigger] placement.cells[i]).0.can_add(
            placement.pos.sum(origin),
        )
}

/// Whether one of the first `upto` cells names `property`.
fn named_before(
    node: &ENode,
    cells: &Vec<(Cell, CellRole)>,
    upto: usize,
    property: EditTarget,
) -> (res: bool)
    requires
        upto <= cells.len(),
    ensures
        res == is_named(node.kind_of(), cells@.take(upto as int), property),
{
    let mut i: usize = 0;
    while i < upto
        invariant
            i <= upto <= cells.len(),
            forall|j: int|
                0 <= j < i ==> target::property_of(node.kind_of(), (#[trigger] cells@[j]).1)
                    != Some(property),
        decreases upto - i,
    {
        if let Some(named) = target::edit_target_of(node, cells[i].1) {
            if named == property {
                assert(cells@.take(upto as int)[i as int] == cells@[i as int]);
                return true;
            }
        }
        i = i + 1;
    }
    assert forall|j: int| 0 <= j < upto implies target::property_of(
        node.kind_of(),
        (#[trigger] cells@.take(upto as int)[j]).1,
    ) != Some(property) by {
        assert(cells@.take(upto as int)[j] == cells@[j]);
    }
    false
}

proof fn lemma_row_pushed(rows: Seq<PanelRow>, row: PanelRow)
    ensures
        row_views(rows.push(row)) == row_views(rows).push(row@),
{
    assert(row_views(rows.push(row)) =~= row_views(rows).push(row@));
}

/// A node and its properties, in the order its cells run, which is the order the
/// caret walks them in. `origin` is where the node's scope begins.
pub fn node_subject(
    nodes: &HashMap<usize, ENode>,
    functions: &HashMap<usize, FunctionDeclaration>,
    placement: &Placement,
    origin: Cell,
    id: &node::Id,
    node: &ENode,
) -> (subject: PanelSubject)
    requires
        can_lift(*placement, origin),
    ensures
        subject@ == (PanelSubjectView {
            heading: heading_of(functions@, *node),
            rows: property_rows(
                nodes@,
                *id,
                node.kind_of(),
                placement.cells@,
                placement.pos.sum(origin),
            ),
        }),
{
    let node_origin = placement.pos.plus(origin);
    let mut rows: Vec<PanelRow> = Vec::new();
    let mut i: usize = 0;
    while i < placement.cells.len()
        invariant
            i <= placement.cells.len(),
            can_lift(*placement, origin),
            node_origin == placement.pos.sum(origin),
            row_views(rows@) == property_rows(
                nodes@,
                *id,
                node.kind_of(),
                placement.cells@.take(i as int),
                node_origin,
            ),
        decreases placement.cells.len() - i,
    {
        let (local, role) = placement.cells[i];
        assert(placement.cells@.take(i + 1).drop_last() == placement.cells@.take(i as int));
        if let Some(property) = target::edit_target_of(node, role) {
            if !named_before(node, &placement.cells, i, property) {
                let row = PanelRow {
                    label: property_label(property).to_owned(),
                    value: property_text(nodes, id, property),
                    address: RowAddress::Property(*id, property),
                    cell: local.plus(node_origin),
                };
                proof {
                    lemma_row_pushed(rows@, row);
                }
                rows.push(row);
            }
        }
        i = i + 1;
    }
    assert(placement.cells@.take(i as int) == placement.cells@);
    PanelSubject { heading: panel_heading(functions, node), rows }
}

/// The address of the first of `cells` that is in the given role.
pub open spec fn cell_in_role(
    cells: Seq<(Cell, CellRole)>,
    wanted: CellRole,
    origin: Cell,
) -> Option<Cell>
    decreases cells.len(),
{
    if cells.len() == 0 {
        None
    } else if cells[0].1 == wanted {
        Some(cells[0].0.sum(origin))
    } else {
        cell_in_role(cells.drop_first(), wanted, origin)
    }
}

fn first_cell_in_role(placement: &Placement, origin: Cell, wanted: CellRole) -> (cell: Option<Cell>)
    requires
        can_lift(*placement, origin),
    ensures
        cell == cell_in_role(placement.cells@, wanted, placement.pos.sum(origin)),
{
    let node_origin = placement.pos.plus(origin);
    let mut i: usize = 0;
    assert(placement.cells@.skip(0) == placement.cells@);
    while i < placement.cells.len()
        invariant
            i <= placement.cells.len(),
            can_lift(*placement, origin),
            node_origin == placement.pos.sum(origin),
            cell_in_role(placement.cells@, wanted, node_origin) == cell_in_role(
                placement.cells@.skip(i as int),
                wanted,
                node_origin,
            ),
        decreases placement.cells.len() - i,
    {
        assert(placement.cells@.skip(i as int).drop_first() == placement.cells@.skip(i + 1));
        if placement.cells[i].1 == wanted {
            return Some(placement.cells[i].0.plus(node_origin));
        }
        i = i + 1;
    }
    None
}

/// The row of an arm.
pub open spec fn arm_row(
    nodes: Map<usize, ENode>,
    pattern: node::Id,
    number: nat,
    cell: Cell,
) -> PanelRowView {
    PanelRowView {
        address: RowAddress::Property(pattern, EditTarget::PatternType),
        cell,
        label: "Pattern "@ + text::decimal_of(number),
        value: property_in(nodes, pattern, EditTarget::PatternType),
    }
}

/// The row of the place below an arm.
pub open spec fn gap_row(cell: Cell) -> PanelRowView {
    PanelRowView {
        address: RowAddress::ArmGap(cell),
        cell,
        label: Seq::empty(),
        value: Seq::empty(),
    }
}

/// The rows of one arm: the arm itself and the place the next one would go, as
/// far as the arm has a place at all.
pub open spec fn rows_of_arm(
    nodes: Map<usize, ENode>,
    placements: Map<usize, Placement>,
    origin: Cell,
    pattern: node::Id,
    number: nat,
) -> Seq<PanelRowView> {
    if placements.contains_key(pattern.0) {
        let placement = placements[pattern.0];
        let base = placement.pos.sum(origin);
        (match cell_in_role(placement.cells@, CellRole::Body, base) {
            Some(cell) => seq![arm_row(nodes, pattern, number, cell)],
            None => Seq::empty(),
        }) + (match cell_in_role(placement.cells@, CellRole::Gap, base) {
            Some(cell) => seq![gap_row(cell)],
            None => Seq::empty(),
        })
    } else {
        Seq::empty()
    }
}

/// The rows of the arms, in the order they are checked.
pub open spec fn arm_rows(
    nodes: Map<usize, ENode>,
    placements: Map<usize, Placement>,
    origin: Cell,
    patterns: Seq<node::Id>,
) -> Seq<PanelRowView>
    decreases patterns.len(),
{
    if patterns.len() == 0 {
        Seq::empty()
    } else {
        arm_rows(nodes, placements, origin, patterns.drop_last()) + rows_of_arm(
            nodes,
            placements,
            origin,
            patterns.last(),
            patterns.len(),
        )
    }
}

/// What the panel says of the Match `match_id`; nothing where there is none.
pub open spec fn match_panel(
    nodes: Map<usize, ENode>,
    placements: Map<usize, Placement>,
    origin: Cell,
    match_id: node::Id,
) -> Option<PanelSubjectView> {
    if nodes.contains_key(match_id.0) {
        match nodes[match_id.0] {
            ENode::Match { patterns, .. } => Some(
                PanelSubjectView {
                    heading: "Match"@,
                    rows: arm_rows(nodes, placements, origin, patterns@),
                },
            ),
            _ => None,
        }
    } else {
        None
    }
}

/// The places of a scope can be written as global addresses.
pub open spec fn can_lift_all(placements: Map<usize, Placement>, origin: Cell) -> bool {
    forall|key: usize| #[trigger]
        placements.contains_key(key) ==> can_lift(placements[key], origin)
}

/// A Match and its arms, each followed by the place the next one would go.
///
/// The order is the order of the Match's `patterns` and nothing else. There is
/// no place above the first arm: there is no arm to be below.
pub fn match_subject(
    nodes: &HashMap<usize, ENode>,
    placements: &HashMap<usize, Placement>,
    origin: Cell,
    match_id: &node::Id,
) -> (subject: Option<PanelSubject>)
    requires
        can_lift_all(placements@, origin),
    ensures
        opt_subject(subject) == match_panel(nodes@, placements@, origin, *match_id),
{
    let patterns = match nodes.get(&match_id.0) {
        Some(ENode::Match { patterns, .. }) => patterns,
        _ => return None,
    };
    let mut rows: Vec<PanelRow> = Vec::new();
    let mut index: usize = 0;
    while index < patterns.len()
        invariant
            index <= patterns.len(),
            can_lift_all(placements@, origin),
            row_views(rows@) == arm_rows(
                nodes@,
                placements@,
                origin,
                patterns@.take(index as int),
            ),
        decreases patterns.len() - index,
    {
        let pattern = patterns[index];
        let ghost before = row_views(rows@);
        assert(patterns@.take(index + 1).drop_last() == patterns@.take(index as int));
        if let Some(placement) = placements.get(&pattern.0) {
            assert(placements@.contains_key(pattern.0));
            if let Some(cell) = first_cell_in_role(placement, origin, CellRole::Body) {
                let number: u64 = index as u64 + 1;
                let row = PanelRow {
                    address: RowAddress::Property(pattern, EditTarget::PatternType),
                    cell,
                    label: "Pattern ".to_owned().concat(text::decimal(number).as_str()),
                    value: property_text(nodes, &pattern, EditTarget::PatternType),
                };
                proof {
                    lemma_row_pushed(rows@, row);
                }
                rows.push(row);
            }
            if let Some(cell) = first_cell_in_role(placement, origin, CellRole::Gap) {
                let row = PanelRow {
                    address: RowAddress::ArmGap(cell),
                    cell,
                    label: String::new(),
                    value: String::new(),
                };
                proof {
                    lemma_row_pushed(rows@, row);
                }
                rows.push(row);
            }
        }
        assert(row_views(rows@) =~= before + rows_of_arm(
            nodes@,
            placements@,
            origin,
            pattern,
            (index + 1) as nat,
        ));
        index = index + 1;
    }
    assert(patterns@.take(index as int) == patterns@);
    Some(PanelSubject { heading: "Match".to_owned(), rows })
}

/// What the cell of the node `standing` makes the panel about.
pub open spec fn panel_about(
    nodes: Map<usize, ENode>,
    functions: Map<usize, FunctionDeclaration>,
    placements: Map<usize, Placement>,
    origin: Cell,
    standing: Option<node::Id>,
) -> Option<PanelSubjectView> {
    match standing {
        Some(id) => if nodes.contains_key(id.0) {
            match nodes[id.0] {
                ENode::Pattern { parent_match, .. } => match_panel(
                    nodes,
                    placements,
                    origin,
                    parent_match,
                ),
                node => if placements.contains_key(id.0) {
                    Some(
                        PanelSubjectView {
                            heading: heading_of(functions, node),
                            rows: property_rows(
                                nodes,
                                id,
                                node.kind_of(),
                                placements[id.0].cells@,
                                placements[id.0].pos.sum(origin),
                            ),
                        },
                    )
                } else {
                    None
                },
            }
        } else {
            None
        },
        None => None,
    }
}

/// What the caret's cell makes the panel about: the node it stands on and all of
/// that node's properties, or, where it stands on an arm of a Match, the Match
/// and all of its arms. `None` where the caret stands on no node at all.
///
/// `standing` is the node that claims the caret's cell, and `origin` is where
/// the caret's scope begins.
pub fn panel_subject(
    nodes: &HashMap<usize, ENode>,
    functions: &HashMap<usize, FunctionDeclaration>,
    placements: &HashMap<usize, Placement>,
    origin: Cell,
    standing: Option<node::Id>,
) -> (subject: Option<PanelSubject>)
    requires
        can_lift_all(placements@, origin),
    ensures
        opt_subject(subject) == panel_about(nodes@, functions@, placements@, origin, standing),
{
    let id = standing?;
    let node = match nodes.get(&id.0) {
        Some(node) => node,
        None => return None,
    };
    match node {
        ENode::Pattern { parent_match, .. } => match_subject(
            nodes,
            placements,
            origin,
            parent_match,
        ),
        _ => match placements.get(&id.0) {
            Some(placement) => {
                assert(placements@.contains_key(id.0));
                Some(node_subject(nodes, functions, placement, origin, &id, node))
            },
            None => None,
        },
    }
}

/// The first row with the given address.
pub open spec fn row_at(rows: Seq<PanelRowView>, here: RowAddress) -> Option<nat>
    decreases rows.len(),
{
    if rows.len() == 0 {
        None
    } else if rows[0].address == here {
        Some(0)
    } else {
        match row_at(rows.drop_first(), here) {
            Some(index) => Some(index + 1),
            None => None,
        }
    }
}

/// What `row_at` finds: a row with that address, and none before it.
pub proof fn lemma_row_at(rows: Seq<PanelRowView>, here: RowAddress)
    ensures
        match row_at(rows, here) {
            Some(index) => index < rows.len() && rows[index as int].address == here && forall|i:
                int| 0 <= i < index ==> (#[trigger] rows[i]).address != here,
            None => forall|i: int| 0 <= i < rows.len() ==> (#[trigger] rows[i]).address != here,
        },
    decreases rows.len(),
{
    if rows.len() > 0 && rows[0].address != here {
        let rest = rows.drop_first();
        lemma_row_at(rest, here);
        assert forall|i: int| 0 < i < rows.len() implies #[trigger] rows[i] == rest[i - 1] by {}
    }
}

/// The row the caret stands on.
pub fn focused_row(subject: &PanelSubject, here: RowAddress) -> (index: Option<usize>)
    ensures
        match index {
            Some(index) => row_at(subject@.rows, here) == Some(index as nat),
            None => row_at(subject@.rows, here) is None,
        },
{
    let mut i: usize = 0;
    proof {
        lemma_row_at(subject@.rows, here);
    }
    while i < subject.rows.len()
        invariant
            i <= subject.rows.len(),
            forall|j: int| 0 <= j < i ==> (#[trigger] subject@.rows[j]).address != here,
        decreases subject.rows.len() - i,
    {
        assert(subject@.rows[i as int].address == subject.rows@[i as int].address);
        if subject.rows[i].address == here {
            proof {
                lemma_row_at(subject@.rows, here);
            }
            return Some(i);
        }
        i = i + 1;
    }
    proof {
        lemma_row_at(subject@.rows, here);
    }
    None
}

/// The row `TAB` goes to from the row `from`, or from outside the list.
pub open spec fn tab_target(len: nat, from: Option<nat>, back: bool) -> int
    recommends
        len > 0,
{
    match from {
        Some(index) => if back {
            if index == 0 {
                len - 1
            } else {
                index - 1
            }
        } else if index + 1 == len {
            0
        } else {
            (index + 1) as int
        },
        None => 0,
    }
}

/// The cell of the row `TAB` moves to, wrapping at both ends. Standing on no row
/// at all, the first one is next: that is the way into a panel the caret is
/// beside rather than on.
pub fn tab_step(subject: &PanelSubject, here: RowAddress, back: bool) -> (cell: Option<Cell>)
    ensures
        cell == if subject@.rows.len() == 0 {
            None
        } else {
            Some(
                subject@.rows[tab_target(
                    subject@.rows.len(),
                    row_at(subject@.rows, here),
                    back,
                )].cell,
            )
        },
{
    let len: usize = subject.rows.len();
    if len == 0 {
        return None;
    }
    proof {
        lemma_row_at(subject@.rows, here);
    }
    let next: usize = match focused_row(subject, here) {
        Some(index) => if back {
            if index == 0 {
                len - 1
            } else {
                index - 1
            }
        } else if index + 1 == len {
            0
        } else {
            index + 1
        },
        None => 0,
    };
    assert(subject@.rows[next as int].cell == subject.rows@[next as int].cell);
    Some(subject.rows[next].cell)
}

/// `TAB` and the way back undo each other, and as many steps as there are rows
/// come round.
pub proof fn law_tab_goes_round(len: nat, index: nat)
    requires
        index < len,
    ensures
        0 <= tab_target(len, Some(index), false) < len,
        0 <= tab_target(len, Some(index), true) < len,
        tab_target(len, Some(tab_target(len, Some(index), false) as nat), true) == index,
        tab_target(len, Some(tab_target(len, Some(index), true) as nat), false) == index,
        tab_target(len, Some(index), false) == (index + 1) % len,
        tab_target(len, Some(index), true) == (index + len - 1) % (len as int),
{
    if index + 1 == len {
        assert((index + 1) % len == 0) by (nonlinear_arith)
            requires
                index + 1 == len,
                len > 0,
        ;
    } else {
        assert((index + 1) % len == index + 1) by (nonlinear_arith)
            requires
                0 <= index + 1 < len,
        ;
    }
    if index == 0 {
        assert((index + len - 1) % (len as int) == len - 1) by (nonlinear_arith)
            requires
                index == 0,
                len > 0,
        ;
    } else {
        assert((index + len - 1) % (len as int) == index - 1) by (nonlinear_arith)
            requires
                0 < index < len,
        ;
    }
}

/// The first row from `start` on that is a property.
pub open spec fn property_from(rows: Seq<PanelRowView>, start: int) -> Option<Cell>
    decreases rows.len() - start,
{
    if start < 0 || start >= rows.len() {
        None
    } else if rows[start].address is Property {
        Some(rows[start].cell)
    } else {
        property_from(rows, start + 1)
    }
}

/// The next property of the panel after the row with the address `here`.
pub open spec fn property_after(subject: Option<PanelSubjectView>, here: RowAddress) -> Option<
    Cell,
> {
    match subject {
        Some(subject) => match row_at(subject.rows, here) {
            Some(index) => property_from(subject.rows, (index + 1) as int),
            None => None,
        },
        None => None,
    }
}

/// The next property of the panel after the one the caret stands on, and nothing
/// else: gaps are skipped, and there is no wrap. What is left to answer after an
/// answer.
pub fn next_property_cell(subject: &Option<PanelSubject>, here: RowAddress) -> (cell: Option<Cell>)
    ensures
        cell == property_after(opt_subject(*subject), here),
{
    let panel = match subject {
        Some(panel) => panel,
        None => return None,
    };
    let index = match focused_row(panel, here) {
        Some(index) => index,
        None => return None,
    };
    proof {
        lemma_row_at(panel@.rows, here);
    }
    assert(index < panel.rows.len());
    let mut i: usize = index + 1;
    while i < panel.rows.len()
        invariant
            i <= panel.rows.len(),
            property_after(opt_subject(*subject), here) == property_from(panel@.rows, i as int),
        decreases panel.rows.len() - i,
    {
        assert(panel@.rows[i as int] == panel.rows@[i as int]@);
        if let RowAddress::Property(..) = panel.rows[i].address {
            return Some(panel.rows[i].cell);
        }
        i = i + 1;
    }
    None
}

/// How the panel stands: which row the caret is on, whether the panel is shown,
/// whether something is being typed, and whether the create prompt stands on its
/// own at the foot of the panel instead of inside a row.
#[derive(Clone, Copy, Debug, PartialEq, Eq, Structural)]
pub struct PanelState {
    pub focus: Option<usize>,
    pub loose_prompt: bool,
    pub visible: bool,
    pub editing: bool,
}

/// The panel with the caret at `here`. `insert` says that INSERT is on, and
/// `busy` that a modal, a run or a screenshot has the screen.
pub open spec fn panel_stands(
    subject: Option<PanelSubjectView>,
    here: RowAddress,
    insert: bool,
    busy: bool,
) -> PanelState {
    let focus = match subject {
        Some(subject) => match row_at(subject.rows, here) {
            Some(index) => Some(index as usize),
            None => None,
        },
        None => None,
    };
    let loose_prompt = insert && focus is None && here is ArmGap;
    let visible = (subject is Some || loose_prompt) && !busy;
    PanelState { focus, loose_prompt, visible, editing: visible && insert }
}

/// How the panel stands. Where the caret's cell is not a row the panel drew, the
/// create prompt stands on its own at the foot of the panel.
pub fn panel_state(
    subject: &Option<PanelSubject>,
    here: RowAddress,
    insert: bool,
    busy: bool,
) -> (state: PanelState)
    ensures
        state == panel_stands(opt_subject(*subject), here, insert, busy),
{
    let focus = match subject {
        Some(subject) => focused_row(subject, here),
        None => None,
    };
    let gap = match here {
        RowAddress::ArmGap(_) => true,
        RowAddress::Property(..) => false,
    };
    let loose_prompt = insert && focus.is_none() && gap;
    let visible = (subject.is_some() || loose_prompt) && !busy;
    PanelState { focus, loose_prompt, visible, editing: visible && insert }
}

/// How one row of the panel is drawn.
#[derive(Clone, Copy, Debug, PartialEq, Eq, Structural)]
pub enum RowDrawing {
    /// A gap the caret does not stand in. It is a row for `TAB`'s sake only.
    Unseen,
    /// The line a new arm would open on, with the prompt below it while
    /// something is being typed.
    Gap { prompt: bool },
    /// The prompt in the row's place.
    Prompt,
    /// The value in a box: the row the caret stands on.
    Boxed,
    /// The value, to be read.
    Plain,
}

/// How the row at `index` is drawn.
pub open spec fn drawing_of(row: PanelRowView, focused: bool, editing: bool) -> RowDrawing {
    match row.address {
        RowAddress::ArmGap(_) => if focused {
            RowDrawing::Gap { prompt: editing }
        } else {
            RowDrawing::Unseen
        },
        RowAddress::Property(..) => if focused && editing {
            RowDrawing::Prompt
        } else if focused {
            RowDrawing::Boxed
        } else {
            RowDrawing::Plain
        },
    }
}

/// How every row of the panel is drawn.
pub fn row_drawings(subject: &PanelSubject, state: &PanelState) -> (drawings: Vec<RowDrawing>)
    ensures
        drawings@ == Seq::new(
            subject@.rows.len(),
            |i: int|
                drawing_of(subject@.rows[i], state.focus == Some(i as usize), state.editing),
        ),
{
    let mut drawings: Vec<RowDrawing> = Vec::new();
    let mut i: usize = 0;
    while i < subject.rows.len()
        invariant
            i <= subject.rows.len(),
            drawings@ == Seq::new(
                i as nat,
                |i: int|
                    drawing_of(subject@.rows[i], state.focus == Some(i as usize), state.editing),
            ),
        decreases subject.rows.len() - i,
    {
        let focused = match state.focus {
            Some(focus) => focus == i,
            None => false,
        };
        assert(subject@.rows[i as int] == subject.rows@[i as int]@);
        let drawing = match subject.rows[i].address {
            RowAddress::ArmGap(_) => if focused {
                RowDrawing::Gap { prompt: state.editing }
            } else {
                RowDrawing::Unseen
            },
            RowAddress::Property(..) => if focused && state.editing {
                RowDrawing::Prompt
            } else if focused {
                RowDrawing::Boxed
            } else {
                RowDrawing::Plain
            },
        };
        drawings.push(drawing);
        i = i + 1;
    }
    drawings
}

/// While something is being typed there is exactly one place it is typed into:
/// the row the caret stands on, or the loose prompt where it stands on none.
pub proof fn law_one_prompt(
    subject: PanelSubjectView,
    here: RowAddress,
    i: int,
)
    requires
        subject.rows.len() <= usize::MAX,
        0 <= i < subject.rows.len(),
    ensures
        ({
            let state = panel_stands(Some(subject), here, true, false);
            let drawing = drawing_of(
                subject.rows[i],
                state.focus == Some(i as usize),
                state.editing,
            );
            &&& (drawing == RowDrawing::Prompt || drawing == RowDrawing::Gap { prompt: true })
                <==> state.focus == Some(i as usize)
            &&& state.loose_prompt ==> state.focus is None
        }),
{
}

/// A property reads as it would be typed: a name as it is, what a constant, a cast
/// and an arm hold as it is spelled, and what a Source and a Tunnel declare by the
/// name of its type alone. What has not been answered yet, and what the node does
/// not have, reads as nothing.
pub proof fn law_how_a_property_reads(node: ENode, target: EditTarget)
    ensures
        node matches ENode::Source { name, etype, .. } ==> {
            &&& property_spelling(node, EditTarget::SourceName) == name@
            &&& etype matches Some(t) ==> property_spelling(node, EditTarget::SourceType)
                == suggest::declared_type(suggest::choice_of(t@), None).spelling()
            &&& etype is None ==> property_spelling(node, EditTarget::SourceType).len() == 0
        },
        node matches ENode::Tunnel { etype, .. } ==> {
            &&& etype matches Some(t) ==> property_spelling(node, EditTarget::TunnelType)
                == suggest::declared_type(suggest::choice_of(t@), None).spelling()
            &&& etype is None ==> property_spelling(node, EditTarget::TunnelType).len() == 0
        },
        node matches ENode::Constant { etype, .. } ==> property_spelling(
            node,
            EditTarget::ConstantValue,
        ) == etype@.spelling(),
        node matches ENode::TypeCast { etype, .. } ==> {
            &&& etype matches Some(t) ==> property_spelling(node, EditTarget::CastType)
                == t@.spelling()
            &&& etype is None ==> property_spelling(node, EditTarget::CastType).len() == 0
        },
        node matches ENode::Pattern { etype, .. } ==> {
            &&& etype matches Some(t) ==> property_spelling(node, EditTarget::PatternType)
                == t@.spelling()
            &&& etype is None ==> property_spelling(node, EditTarget::PatternType).len() == 0
        },
        (target == EditTarget::SourceName || target == EditTarget::SourceType) && !(node is Source)
            ==> property_spelling(node, target).len() == 0,
        target == EditTarget::ConstantValue && !(node is Constant) ==> property_spelling(
            node,
            target,
        ).len() == 0,
{
    if let ENode::Source { etype: Some(t), .. } = node {
        suggest::law_choice_and_type_agree(suggest::choice_of(t@), None);
    }
    if let ENode::Tunnel { etype: Some(t), .. } = node {
        suggest::law_choice_and_type_agree(suggest::choice_of(t@), None);
    }
}

/// The panel is headed by the kind of its node, and by the function where the node
/// is a call; no two kinds share a heading.
pub proof fn law_what_the_panel_is_headed_by(
    functions: Map<usize, FunctionDeclaration>,
    one: ENode,
    other: ENode,
)
    ensures
        one matches ENode::FunctionCall { function_declaration_id, .. } ==> functions.contains_key(
            function_declaration_id.0,
        ) ==> heading_of(functions, one) == functions[function_declaration_id.0]@.name,
        !(one is FunctionCall) && !(other is FunctionCall) ==> (heading_of(functions, one)
            == heading_of(functions, other) <==> one.kind_of() == other.kind_of()),
{
    reveal_strlit("Source");
    reveal_strlit("Constant");
    reveal_strlit("TypeCast");
    reveal_strlit("Tunnel");
    reveal_strlit("Match");
    reveal_strlit("Pattern");
    reveal_strlit("Sink");
    reveal_strlit("Branch source");
    reveal_strlit("Root");
    if !(one is FunctionCall) && !(other is FunctionCall) && one.kind_of() != other.kind_of() {
        let a = heading_of(functions, one);
        let b = heading_of(functions, other);
        assert(a.len() != b.len() || a[0] != b[0] || a[1] != b[1]);
    }
}

/// A name, a value and a type are called by three different words.
pub proof fn law_what_a_property_is_called(target: EditTarget)
    ensures
        label_of(target)[0] == 'N' <==> target == EditTarget::SourceName,
        label_of(target)[0] == 'V' <==> target == EditTarget::ConstantValue,
        label_of(target)[0] == 'T' <==> target != EditTarget::SourceName && target
            != EditTarget::ConstantValue,
{
    reveal_strlit("Name");
    reveal_strlit("Value");
    reveal_strlit("Type");
}

/// Every row of a node stands on the first of its cells that names the row's
/// property, in the order of the cells; it says what the property is called and
/// how it reads, and addresses it on that node. So no property has two rows. `from`
/// names the cells the rows stand on.
pub proof fn law_where_a_property_has_its_row(
    nodes: Map<usize, ENode>,
    id: node::Id,
    kind: NodeKind,
    cells: Seq<(Cell, CellRole)>,
    origin: Cell,
) -> (from: Seq<int>)
    requires
        nodes.contains_key(id.0),
    ensures
        from.len() == property_rows(nodes, id, kind, cells, origin).len(),
        forall|k: int, l: int| 0 <= k < l < from.len() ==> from[k] < from[l],
        forall|k: int|
            0 <= k < from.len() ==> {
                let row = property_rows(nodes, id, kind, cells, origin)[k];
                &&& 0 <= #[trigger] from[k] < cells.len()
                &&& target::property_of(kind, cells[from[k]].1) matches Some(property)
                &&& row.address == RowAddress::Property(id, property)
                &&& row.cell == cells[from[k]].0.sum(origin)
                &&& row.label == label_of(property)
                &&& row.value == property_spelling(nodes[id.0], property)
                &&& forall|j: int|
                    0 <= j < from[k] ==> target::property_of(kind, (#[trigger] cells[j]).1) != Some(
                        property,
                    )
            },
    decreases cells.len(),
{
    if cells.len() == 0 {
        Seq::empty()
    } else {
        let shorter = cells.drop_last();
        let last = cells.len() - 1;
        let before = law_where_a_property_has_its_row(nodes, id, kind, shorter, origin);
        let named = target::property_of(kind, cells[last].1);
        let is_new = named is Some && !is_named(kind, shorter, named->0);
        let from = if is_new {
            before.push(last)
        } else {
            before
        };
        let rows = property_rows(nodes, id, kind, cells, origin);
        assert forall|k: int| 0 <= k < from.len() implies {
            let row = rows[k];
            &&& 0 <= #[trigger] from[k] < cells.len()
            &&& target::property_of(kind, cells[from[k]].1) matches Some(property)
            &&& row.address == RowAddress::Property(id, property)
            &&& row.cell == cells[from[k]].0.sum(origin)
            &&& row.label == label_of(property)
            &&& row.value == property_spelling(nodes[id.0], property)
            &&& forall|j: int|
                0 <= j < from[k] ==> target::property_of(kind, (#[trigger] cells[j]).1) != Some(
                    property,
                )
        } by {
            if k < before.len() {
                assert(from[k] == before[k]);
                assert(shorter[before[k]] == cells[before[k]]);
                assert(rows[k] == property_rows(nodes, id, kind, shorter, origin)[k]);
                let property = target::property_of(kind, cells[from[k]].1)->0;
                assert forall|j: int| 0 <= j < from[k] implies target::property_of(
                    kind,
                    (#[trigger] cells[j]).1,
                ) != Some(property) by {
                    assert(shorter[j] == cells[j]);
                }
            } else {
                assert forall|j: int| 0 <= j < last implies target::property_of(
                    kind,
                    (#[trigger] cells[j]).1,
                ) != named by {
                    assert(shorter[j] == cells[j]);
                }
            }
        }
        from
    }
}

/// No property that one of a node's cells names is left without a row.
pub proof fn law_no_property_is_left_out(
    nodes: Map<usize, ENode>,
    id: node::Id,
    kind: NodeKind,
    cells: Seq<(Cell, CellRole)>,
    origin: Cell,
    i: int,
    property: EditTarget,
)
    requires
        0 <= i < cells.len(),
        target::property_of(kind, cells[i].1) == Some(property),
    ensures
        exists|k: int|
            0 <= k < property_rows(nodes, id, kind, cells, origin).len() && (
            #[trigger] property_rows(nodes, id, kind, cells, origin)[k]).address
                == RowAddress::Property(id, property),
    decreases cells.len(),
{
    let shorter = cells.drop_last();
    let last = cells.len() - 1;
    let before = property_rows(nodes, id, kind, shorter, origin);
    let rows = property_rows(nodes, id, kind, cells, origin);
    if i < last || is_named(kind, shorter, property) {
        let at = if i < last {
            i
        } else {
            choose|j: int|
                0 <= j < shorter.len() && target::property_of(kind, (#[trigger] shorter[j]).1)
                    == Some(property)
        };
        assert(shorter[at] == cells[at]);
        law_no_property_is_left_out(nodes, id, kind, shorter, origin, at, property);
        let k = choose|k: int|
            0 <= k < before.len() && (#[trigger] before[k]).address == RowAddress::Property(
                id,
                property,
            );
        assert(rows[k] == before[k]);
    } else {
        assert(rows[before.len() as int].address == RowAddress::Property(id, property));
    }
}

/// The first cell of a role is one of the cells, in that role, and none before it
/// is.
pub proof fn law_the_first_cell_of_a_role(
    cells: Seq<(Cell, CellRole)>,
    wanted: CellRole,
    origin: Cell,
)
    ensures
        cell_in_role(cells, wanted, origin) matches Some(cell) ==> exists|i: int|
            {
                &&& 0 <= i < cells.len()
                &&& (#[trigger] cells[i]).1 == wanted
                &&& cell == cells[i].0.sum(origin)
                &&& forall|j: int| 0 <= j < i ==> (#[trigger] cells[j]).1 != wanted
            },
        cell_in_role(cells, wanted, origin) is None <==> forall|i: int|
            0 <= i < cells.len() ==> (#[trigger] cells[i]).1 != wanted,
    decreases cells.len(),
{
    if cells.len() > 0 && cells[0].1 != wanted {
        let rest = cells.drop_first();
        law_the_first_cell_of_a_role(rest, wanted, origin);
        assert forall|i: int| 0 <= i < rest.len() implies cells[i + 1] == #[trigger] rest[i] by {}
        if let Some(cell) = cell_in_role(cells, wanted, origin) {
            let at = choose|at: int|
                {
                    &&& 0 <= at < rest.len()
                    &&& (#[trigger] rest[at]).1 == wanted
                    &&& cell == rest[at].0.sum(origin)
                    &&& forall|j: int| 0 <= j < at ==> (#[trigger] rest[j]).1 != wanted
                };
            assert(cells[at + 1] == rest[at]);
            assert forall|j: int| 0 <= j < at + 1 implies (#[trigger] cells[j]).1 != wanted by {
                if j > 0 {
                    assert(cells[j] == rest[j - 1]);
                }
            }
        } else {
            assert forall|i: int| 0 <= i < cells.len() implies (#[trigger] cells[i]).1 != wanted by {
                if i > 0 {
                    assert(cells[i] == rest[i - 1]);
                }
            }
        }
    } else if cells.len() > 0 {
        assert(cells[0].1 == wanted);
    }
}

/// The arms of a Match follow each other in the order in which they are checked,
/// each with its number from one on, on its own body, reading the type it matches,
/// and behind it the place below it where the next would go. An arm without a place
/// has no row, and still counts.
pub proof fn law_every_arm_has_a_row(
    nodes: Map<usize, ENode>,
    placements: Map<usize, Placement>,
    origin: Cell,
    patterns: Seq<node::Id>,
    pattern: node::Id,
)
    ensures
        ({
            let rows = rows_of_arm(nodes, placements, origin, pattern, patterns.len() + 1);
            let base = placements[pattern.0].pos.sum(origin);
            let body = cell_in_role(placements[pattern.0].cells@, CellRole::Body, base);
            let gap = cell_in_role(placements[pattern.0].cells@, CellRole::Gap, base);
            &&& arm_rows(nodes, placements, origin, patterns.push(pattern)) == arm_rows(
                nodes,
                placements,
                origin,
                patterns,
            ) + rows
            &&& !placements.contains_key(pattern.0) ==> rows.len() == 0
            &&& placements.contains_key(pattern.0) && body is Some ==> rows.len() > 0 && {
                &&& rows[0].address == RowAddress::Property(pattern, EditTarget::PatternType)
                &&& rows[0].cell == body->0
                &&& rows[0].label == "Pattern "@ + text::decimal_of(patterns.len() + 1)
                &&& nodes.contains_key(pattern.0) ==> rows[0].value == property_spelling(
                    nodes[pattern.0],
                    EditTarget::PatternType,
                )
            }
            &&& placements.contains_key(pattern.0) && gap is Some ==> rows.len() > 0 && {
                &&& rows.last().address == RowAddress::ArmGap(gap->0)
                &&& rows.last().cell == gap->0
                &&& rows.last().label.len() == 0 && rows.last().value.len() == 0
            }
            &&& placements.contains_key(pattern.0) ==> rows.len() == (if body is Some {
                1int
            } else {
                0
            }) + (if gap is Some {
                1int
            } else {
                0
            })
        }),
        arm_rows(nodes, placements, origin, Seq::empty()).len() == 0,
{
    assert(patterns.push(pattern).drop_last() =~= patterns);
}

/// On an arm the panel is about its whole Match, and on any other node that has a
/// place about that node alone; where nothing stands there is no panel.
pub proof fn law_what_the_panel_is_about(
    nodes: Map<usize, ENode>,
    functions: Map<usize, FunctionDeclaration>,
    placements: Map<usize, Placement>,
    origin: Cell,
    id: node::Id,
)
    ensures
        panel_about(nodes, functions, placements, origin, None) is None,
        !nodes.contains_key(id.0) ==> panel_about(nodes, functions, placements, origin, Some(id))
            is None,
        nodes.contains_key(id.0) ==> {
            let subject = panel_about(nodes, functions, placements, origin, Some(id));
            &&& nodes[id.0] matches ENode::Pattern { parent_match, .. } ==> {
                &&& subject is Some <==> nodes.contains_key(parent_match.0)
                    && nodes[parent_match.0] is Match
                &&& subject matches Some(panel) ==> panel.heading == "Match"@ && panel.rows
                    == arm_rows(nodes, placements, origin, nodes[parent_match.0]->patterns@)
            }
            &&& !(nodes[id.0] is Pattern) ==> {
                &&& subject is Some <==> placements.contains_key(id.0)
                &&& subject matches Some(panel) ==> panel.heading == heading_of(
                    functions,
                    nodes[id.0],
                ) && panel.rows == property_rows(
                    nodes,
                    id,
                    nodes[id.0].kind_of(),
                    placements[id.0].cells@,
                    placements[id.0].pos.sum(origin),
                )
            }
        },
{
}

/// The caret addresses a row by what it would change, and where it would change
/// nothing by its own cell.
pub proof fn law_how_the_caret_addresses_a_row(id: node::Id, property: EditTarget, caret: Cell)
    ensures
        address_of(InsertTarget::Edit(id, property), caret) == RowAddress::Property(id, property),
        address_of(InsertTarget::Create, caret) == RowAddress::ArmGap(caret),
{
}

/// `TAB` from outside the rows goes to the first, whichever way it goes.
pub proof fn law_tab_enters_at_the_first_row(len: nat, back: bool)
    ensures
        tab_target(len, None, back) == 0,
{
}

proof fn lemma_property_from(rows: Seq<PanelRowView>, start: int)
    requires
        0 <= start,
    ensures
        property_from(rows, start) matches Some(cell) ==> exists|i: int|
            {
                &&& start <= i < rows.len()
                &&& (#[trigger] rows[i]).address is Property
                &&& rows[i].cell == cell
                &&& forall|j: int| start <= j < i ==> !((#[trigger] rows[j]).address is Property)
            },
        property_from(rows, start) is None ==> forall|i: int|
            start <= i < rows.len() ==> !((#[trigger] rows[i]).address is Property),
    decreases rows.len() - start,
{
    if start < rows.len() {
        if rows[start].address is Property {
            assert(rows[start].cell == property_from(rows, start)->0);
        } else {
            lemma_property_from(rows, start + 1);
        }
    }
}

/// What is next to answer is the first property behind the row the caret is on;
/// places between arms are passed over, and the end of the list is the end.
pub proof fn law_what_is_next_to_answer(subject: PanelSubjectView, here: RowAddress, index: nat)
    requires
        index < subject.rows.len(),
        subject.rows[index as int].address == here,
        forall|i: int| 0 <= i < index ==> (#[trigger] subject.rows[i]).address != here,
    ensures
        property_after(Some(subject), here) matches Some(cell) ==> exists|i: int|
            {
                &&& index < i < subject.rows.len()
                &&& (#[trigger] subject.rows[i]).address is Property
                &&& subject.rows[i].cell == cell
                &&& forall|j: int|
                    index < j < i ==> !((#[trigger] subject.rows[j]).address is Property)
            },
        property_after(Some(subject), here) is None ==> forall|i: int|
            index < i < subject.rows.len() ==> !((#[trigger] subject.rows[i]).address is Property),
        property_after(None, here) is None,
{
    lemma_row_at(subject.rows, here);
    let found = row_at(subject.rows, here);
    assert(found is Some) by {
        if found is None {
            assert(subject.rows[index as int].address != here);
        }
    }
    assert(found->0 == index) by {
        if found->0 < index {
            assert(subject.rows[found->0 as int].address != here);
        } else if index < found->0 {
            assert(subject.rows[index as int].address != here);
        }
    }
    lemma_property_from(subject.rows, (index + 1) as int);
    if let Some(cell) = property_after(Some(subject), here) {
        let i = choose|i: int|
            {
                &&& index + 1 <= i < subject.rows.len()
                &&& (#[trigger] subject.rows[i]).address is Property
                &&& subject.rows[i].cell == cell
                &&& forall|j: int|
                    index + 1 <= j < i ==> !((#[trigger] subject.rows[j]).address is Property)
            };
        assert(subject.rows[i].cell == cell);
    }
}

/// The panel is shown while it is about something and nothing else has the screen,
/// and it is typed into while it is shown in INSERT. Its prompt stands on its own
/// where INSERT builds and the caret is on no row.
pub proof fn law_how_the_panel_stands(
    subject: Option<PanelSubjectView>,
    here: RowAddress,
    insert: bool,
    busy: bool,
)
    requires
        subject matches Some(panel) ==> panel.rows.len() <= usize::MAX,
    ensures
        ({
            let state = panel_stands(subject, here, insert, busy);
            &&& busy ==> !state.visible && !state.editing
            &&& subject is Some && !busy ==> state.visible
            &&& state.editing <==> state.visible && insert
            &&& subject is None ==> state.focus is None
            &&& state.focus matches Some(index) ==> index < subject->0.rows.len()
                && subject->0.rows[index as int].address == here
            &&& state.focus is None && subject is Some ==> forall|i: int|
                0 <= i < subject->0.rows.len() ==> (#[trigger] subject->0.rows[i]).address != here
            &&& state.loose_prompt <==> insert && state.focus is None && here is ArmGap
            &&& subject is None && !state.loose_prompt ==> !state.visible
            &&& state.loose_prompt && !busy ==> state.visible
        }),
{
    if let Some(panel) = subject {
        lemma_row_at(panel.rows, here);
    }
}

/// A place between arms is seen only under the caret, with the prompt in it while
/// something is typed; a property is always seen, in a box under the caret and as
/// the prompt while something is typed there.
pub proof fn law_how_a_row_is_drawn(row: PanelRowView, focused: bool, editing: bool)
    ensures
        row.address is ArmGap && !focused ==> drawing_of(row, focused, editing)
            == RowDrawing::Unseen,
        row.address is ArmGap && focused ==> drawing_of(row, focused, editing) == (
        RowDrawing::Gap { prompt: editing }),
        row.address is Property && !focused ==> drawing_of(row, focused, editing)
            == RowDrawing::Plain,
        row.address is Property && focused && editing ==> drawing_of(row, focused, editing)
            == RowDrawing::Prompt,
        row.address is Property && focused && !editing ==> drawing_of(row, focused, editing)
            == RowDrawing::Boxed,
{
}

/// The row that has the focus is the first one with the caret's address; where no row
/// has it, none has the focus.
pub proof fn law_which_row_has_the_focus(rows: Seq<PanelRowView>, here: RowAddress, i: int)
    requires
        0 <= i < rows.len(),
    ensures
        rows[i].address == here ==> row_at(rows, here) is Some && row_at(rows, here)->0 <= i,
        row_at(rows, here) == Some(i as nat) ==> rows[i].address == here,
        row_at(rows, here) is Some ==> row_at(rows, here)->0 < rows.len(),
{
    lemma_row_at(rows, here);
}

/// The panel of a Match is headed by its kind, and there is none of what is no Match.
pub proof fn law_whose_arms_are_listed(
    nodes: Map<usize, ENode>,
    placements: Map<usize, Placement>,
    origin: Cell,
    match_id: node::Id,
    functions: Map<usize, FunctionDeclaration>,
)
    ensures
        match_panel(nodes, placements, origin, match_id) is Some <==> nodes.contains_key(
            match_id.0,
        ) && nodes[match_id.0] is Match,
        match_panel(nodes, placements, origin, match_id) matches Some(panel) ==> {
            &&& panel.heading == heading_of(functions, nodes[match_id.0])
            &&& panel.rows == arm_rows(
                nodes,
                placements,
                origin,
                nodes[match_id.0]->patterns@,
            )
        },
{
}

} // verus!
