//! How one node is drawn: its body, its anchors, and what is written beside it.
//!
//! Every part of a node lives in a cell of its own. Cells are counted from the
//! node's own cell, so that a node is drawn alike wherever it stands.

use crate::cell::Cell;
use crate::infer::{self, EType, ETypeView};
use crate::model::anchor;
use crate::model::etype;
use crate::model::function_declaration::{FunctionDeclaration, FunctionDeclarationView};
use crate::model::node::ENode;
use crate::render::{self, Lettering, RenderAnchor, RenderAnchorView, StrandColor};
use crate::suggest;
use crate::text;
use std::collections::HashMap;
use vstd::prelude::*;

verus! {

broadcast use vstd::std_specs::hash::group_hash_axioms;

/// Where a cast names the type it converts to: behind its input and a gap.
pub const CAST_TYPE_Z: i32 = 2;

/// Where a cast hands its value out.
pub const CAST_OUTPUT_Z: i32 = 3;

/// Where a Pattern names the type its arm matches: behind the gap it holds open.
pub const PATTERN_TYPE_LOCAL_Z: i32 = 1;

/// What is known of one anchor.
pub struct AnchorFacts {
    /// The type the anchor itself has.
    pub anchor_type: Option<EType>,
    /// The type that arrives at it along its edge.
    pub incoming_type: Option<EType>,
    /// The literal the anchor itself carries.
    pub anchor_literal: Option<String>,
    /// The literal that arrives at it.
    pub incoming_literal: Option<String>,
    /// The row that a run settled the anchor on, read as an input.
    pub at_input: Option<EType>,
    /// The row that a run settled the anchor on, read as an output.
    pub at_output: Option<EType>,
    /// How many rows the layout keeps for it.
    pub rows: usize,
}

/// The mathematical value of an [`AnchorFacts`].
pub struct AnchorFactsView {
    pub anchor_type: Option<ETypeView>,
    pub incoming_type: Option<ETypeView>,
    pub anchor_literal: Option<Seq<char>>,
    pub incoming_literal: Option<Seq<char>>,
    pub at_input: Option<ETypeView>,
    pub at_output: Option<ETypeView>,
    pub rows: nat,
}

impl View for AnchorFacts {
    type V = AnchorFactsView;

    open spec fn view(&self) -> AnchorFactsView {
        AnchorFactsView {
            anchor_type: render::opt_type(self.anchor_type),
            incoming_type: render::opt_type(self.incoming_type),
            anchor_literal: text::opt_text(self.anchor_literal),
            incoming_literal: text::opt_text(self.incoming_literal),
            at_input: render::opt_type(self.at_input),
            at_output: render::opt_type(self.at_output),
            rows: self.rows as nat,
        }
    }
}

impl AnchorFacts {
    /// Nothing is known of the anchor: it is one row of undecided type.
    pub fn nothing() -> (facts: Self)
        ensures
            facts@ == nothing_known(),
    {
        AnchorFacts {
            anchor_type: None,
            incoming_type: None,
            anchor_literal: None,
            incoming_literal: None,
            at_input: None,
            at_output: None,
            rows: 1,
        }
    }
}

/// Nothing is known of an anchor.
pub open spec fn nothing_known() -> AnchorFactsView {
    AnchorFactsView {
        anchor_type: None,
        incoming_type: None,
        anchor_literal: None,
        incoming_literal: None,
        at_input: None,
        at_output: None,
        rows: 1,
    }
}

/// What is known of the anchor `id`.
pub open spec fn known_of(facts: Map<usize, AnchorFacts>, id: anchor::Id) -> AnchorFactsView {
    if facts.contains_key(id.0) {
        facts[id.0]@
    } else {
        nothing_known()
    }
}

/// What is known of a node beyond its anchors.
pub struct NodeFacts {
    /// How many cells long the body is that carries the node's name.
    pub name_cells: i32,
    /// The value that the world offers a Source, before it is read.
    pub offered: Option<EType>,
    /// The index a Source is asked by.
    pub source_index: Option<usize>,
    /// How far behind its own cell a Match hands its value out.
    pub output_z: i32,
    /// The node is the Sink the program ends in.
    pub is_program_sink: bool,
}

/// The half of its cell that an anchor fills: the one facing the node's body.
#[derive(Clone, Copy, Debug, PartialEq, Eq, Structural)]
pub enum Side {
    Input,
    Output,
}

/// An anchor, or something drawn like one, in its cell.
pub struct Placed {
    pub cell: Cell,
    pub side: Side,
    pub drawn: RenderAnchor,
}

/// The mathematical value of a [`Placed`].
pub struct PlacedView {
    pub cell: Cell,
    pub side: Side,
    pub drawn: RenderAnchorView,
}

impl View for Placed {
    type V = PlacedView;

    open spec fn view(&self) -> PlacedView {
        PlacedView { cell: self.cell, side: self.side, drawn: self.drawn@ }
    }
}

/// The body of a node.
#[derive(Clone, Copy, Debug, PartialEq, Eq, Structural)]
pub enum RenderBody {
    /// The node is drawn by its strands alone.
    NoBody,
    /// A bar over the cells `z = 0` to `z = cells - 1`, in the colour of a type.
    Bar { cells: i32, color: StrandColor },
    /// The point a constant's value starts at, and the line it leaves on.
    Point { color: StrandColor },
    /// A frustum from the inputs to the output, over the cells `z = 1` to
    /// `z = cells`. The near face covers every input, the far face the output;
    /// both are aligned at their upper edge.
    Frustum { width: i32, cells: i32, input_rows: usize, output_rows: usize },
}

/// Where a label stands at the anchor it names.
#[derive(Clone, Copy, Debug, PartialEq, Eq, Structural)]
pub enum LabelPlace {
    /// Clear of the type letter, to its right.
    BesideLetter,
    /// Under the type letter.
    UnderLetter,
}

/// Text that floats beside a node.
pub struct RenderLabel {
    pub text: String,
    pub cell: Cell,
    pub place: LabelPlace,
}

/// The mathematical value of a [`RenderLabel`].
pub struct RenderLabelView {
    pub text: Seq<char>,
    pub cell: Cell,
    pub place: LabelPlace,
}

impl View for RenderLabel {
    type V = RenderLabelView;

    open spec fn view(&self) -> RenderLabelView {
        RenderLabelView { text: self.text@, cell: self.cell, place: self.place }
    }
}

/// Text that is printed on the upper face of a body, over the cells
/// `z = first_z` to `z = first_z + cells - 1` of its first column.
pub struct RenderTextFace {
    pub text: String,
    pub first_z: i32,
    pub cells: i32,
}

/// The mathematical value of a [`RenderTextFace`].
pub struct RenderTextFaceView {
    pub text: Seq<char>,
    pub first_z: i32,
    pub cells: i32,
}

impl View for RenderTextFace {
    type V = RenderTextFaceView;

    open spec fn view(&self) -> RenderTextFaceView {
        RenderTextFaceView { text: self.text@, first_z: self.first_z, cells: self.cells }
    }
}

/// A node as it is drawn.
pub struct RenderNode {
    pub body: RenderBody,
    pub anchors: Vec<(anchor::Id, Placed)>,
    /// What is drawn like an anchor and is none: no edge can end there, and the
    /// pointer cannot pick it.
    pub own: Option<Placed>,
    pub labels: Vec<RenderLabel>,
    pub text_face: Option<RenderTextFace>,
}

/// The mathematical value of a [`RenderNode`].
pub struct RenderNodeView {
    pub body: RenderBody,
    pub anchors: Seq<(anchor::Id, PlacedView)>,
    pub own: Option<PlacedView>,
    pub labels: Seq<RenderLabelView>,
    pub text_face: Option<RenderTextFaceView>,
}

/// The values of a list of anchors.
pub open spec fn placed_views(anchors: Seq<(anchor::Id, Placed)>) -> Seq<(anchor::Id, PlacedView)> {
    anchors.map_values(|entry: (anchor::Id, Placed)| (entry.0, entry.1@))
}

/// The values of a list of labels.
pub open spec fn label_views(labels: Seq<RenderLabel>) -> Seq<RenderLabelView> {
    labels.map_values(|label: RenderLabel| label@)
}

impl View for RenderNode {
    type V = RenderNodeView;

    open spec fn view(&self) -> RenderNodeView {
        RenderNodeView {
            body: self.body,
            anchors: placed_views(self.anchors@),
            own: match self.own {
                Some(own) => Some(own@),
                None => None,
            },
            labels: label_views(self.labels@),
            text_face: match self.text_face {
                Some(face) => Some(face@),
                None => None,
            },
        }
    }
}

/// A cell on the axis of a node.
pub open spec fn on_axis(z: i32) -> Cell {
    Cell { x: 0, y: 0, z }
}

/// An input in the cell `z`.
pub open spec fn input_at(z: i32, drawn: RenderAnchorView) -> PlacedView {
    PlacedView { cell: on_axis(z), side: Side::Input, drawn }
}

/// An output in the cell `z`.
pub open spec fn output_at(z: i32, drawn: RenderAnchorView) -> PlacedView {
    PlacedView { cell: on_axis(z), side: Side::Output, drawn }
}

/// The type a node declares, without the literal it may be narrowed to.
pub open spec fn base_of(t: Option<etype::ETypeView>) -> ETypeView {
    match t {
        Some(etype::ETypeView::Bool(_)) => ETypeView::Bool(None),
        Some(etype::ETypeView::Int(_)) => ETypeView::Int(None),
        Some(etype::ETypeView::String(_)) => ETypeView::String(None),
        Some(etype::ETypeView::Char(_)) => ETypeView::Char(None),
        Some(etype::ETypeView::NoneType(_)) => ETypeView::NoneType,
        None => ETypeView::Pending,
    }
}

/// A type, undecided where there is none.
pub open spec fn or_pending(t: Option<ETypeView>) -> ETypeView {
    match t {
        Some(t) => t,
        None => ETypeView::Pending,
    }
}

/// The literal of a type, where there is a type.
pub open spec fn literal_in(t: Option<ETypeView>) -> Option<Seq<char>> {
    match t {
        Some(t) => t.literal(),
        None => None,
    }
}

/// An output that shows its own type and the literal it carries.
pub open spec fn own_output(facts: AnchorFactsView) -> RenderAnchorView {
    render::anchor_of(
        or_pending(facts.anchor_type),
        facts.anchor_literal,
        facts.at_output,
        Lettering::Spelled,
    )
}

/// An input that constrains nothing shows what arrives, with the literal of the
/// row that a run settled on.
pub open spec fn arriving_input(t: Option<ETypeView>, taken: Option<ETypeView>) -> RenderAnchorView {
    render::shown_anchor(t, literal_in(taken), taken, Lettering::Spelled)
}

/// An input where a value comes to rest: it shows what arrives, with the literal
/// that arrives.
pub open spec fn resting_input(facts: AnchorFactsView, lettering: Lettering) -> RenderAnchorView {
    render::shown_anchor(facts.incoming_type, facts.incoming_literal, facts.at_input, lettering)
}

/// Strands, and no sheet where there are none.
pub open spec fn bare(strands: Seq<render::RenderStrandView>) -> RenderAnchorView {
    RenderAnchorView { strands, plain_body: false }
}

/// A named declaration: a body in the colour of its type, as long as its name
/// needs, with the name printed on it and the output behind it. In front of it
/// stands what the world offers, and the index it is asked by.
pub open spec fn source_drawn(
    name: Seq<char>,
    t: Option<etype::ETypeView>,
    output: anchor::Id,
    facts: Map<usize, AnchorFacts>,
    node: NodeFacts,
) -> RenderNodeView {
    let base = base_of(t);
    let offered = render::opt_type(node.offered);
    RenderNodeView {
        body: RenderBody::Bar { cells: node.name_cells, color: render::color_of(base) },
        anchors: seq![
            (
                output,
                output_at(
                    node.name_cells,
                    bare(
                        render::strands_of(
                            base,
                            known_of(facts, output).anchor_literal,
                            None,
                            Lettering::Spelled,
                        ),
                    ),
                ),
            ),
        ],
        own: Some(
            input_at(
                -1i32,
                bare(
                    render::strands_of(base, literal_in(offered), offered, Lettering::Spelled),
                ),
            ),
        ),
        labels: match node.source_index {
            Some(index) => seq![
                RenderLabelView {
                    text: "["@ + text::decimal_of(index as nat) + "]"@,
                    cell: on_axis(-1i32),
                    place: LabelPlace::BesideLetter,
                },
            ],
            None => Seq::empty(),
        },
        text_face: Some(RenderTextFaceView { text: name, first_z: 0, cells: node.name_cells }),
    }
}

/// A literal: the point its value starts at, and the line it leaves on.
pub open spec fn constant_drawn(t: etype::ETypeView, output: anchor::Id) -> RenderNodeView {
    let carried = infer::carried(t);
    RenderNodeView {
        body: RenderBody::Point { color: render::color_of(carried) },
        anchors: seq![
            (
                output,
                output_at(
                    1,
                    bare(
                        render::strands_of(carried, carried.literal(), None, Lettering::Spelled),
                    ),
                ),
            ),
        ],
        own: None,
        labels: Seq::empty(),
        text_face: None,
    }
}

/// A cast: what arrives, the type it is cast to, and what comes out. The cell
/// that names the type speaks exactly as long as the output does not.
pub open spec fn cast_drawn(
    t: Option<etype::ETypeView>,
    input: anchor::Id,
    output: anchor::Id,
    facts: Map<usize, AnchorFacts>,
) -> RenderNodeView {
    let incoming = known_of(facts, input);
    let outgoing = known_of(facts, output);
    let out = render::anchor_of(
        or_pending(outgoing.anchor_type),
        render::declared_literal(t),
        outgoing.at_output,
        Lettering::Spelled,
    );
    RenderNodeView {
        body: RenderBody::NoBody,
        anchors: seq![
            (input, input_at(0, arriving_input(incoming.incoming_type, incoming.at_input))),
            (output, output_at(CAST_OUTPUT_Z, out)),
        ],
        own: Some(
            input_at(
                CAST_TYPE_Z,
                render::anchor_of(
                    render::declared_as(t),
                    render::declared_literal(t),
                    None,
                    if out.strands.len() == 0 {
                        Lettering::Spelled
                    } else {
                        Lettering::Silent
                    },
                ),
            ),
        ),
        labels: Seq::empty(),
        text_face: None,
    }
}

/// The type a parameter takes.
pub open spec fn parameter_type(declaration: FunctionDeclarationView, i: int) -> Option<ETypeView> {
    if i < declaration.inputs.len() {
        declaration.inputs[i].etype
    } else {
        None
    }
}

/// An input of a call: the type its parameter takes, and where it takes any,
/// whatever arrives.
pub open spec fn call_input(
    declaration: FunctionDeclarationView,
    input: anchor::Id,
    i: int,
    facts: Map<usize, AnchorFacts>,
) -> (anchor::Id, PlacedView) {
    let known = known_of(facts, input);
    let shown = match parameter_type(declaration, i) {
        Some(t) => Some(t),
        None => known.incoming_type,
    };
    (
        input,
        PlacedView {
            cell: Cell { x: i as i32, y: 0, z: 0 },
            side: Side::Input,
            drawn: arriving_input(shown, known.at_input),
        },
    )
}

/// The rows of the tallest input of a call; a call without inputs is one row
/// tall.
pub open spec fn tallest(inputs: Seq<anchor::Id>, facts: Map<usize, AnchorFacts>) -> nat
    decreases inputs.len(),
{
    if inputs.len() == 0 {
        1
    } else {
        let rows = known_of(facts, inputs.last()).rows;
        let before = tallest(inputs.drop_last(), facts);
        if inputs.len() == 1 || rows > before {
            rows
        } else {
            before
        }
    }
}

/// The names of a call's parameters, each at its input.
pub open spec fn parameter_labels(declaration: FunctionDeclarationView, len: nat) -> Seq<
    RenderLabelView,
> {
    let named = if len < declaration.inputs.len() {
        len
    } else {
        declaration.inputs.len()
    };
    Seq::new(
        named,
        |i: int|
            RenderLabelView {
                text: declaration.inputs[i].name,
                cell: Cell { x: i as i32, y: 0, z: 0 },
                place: LabelPlace::UnderLetter,
            },
    )
}

/// A call: the inputs side by side, a body that tapers to the output, and the
/// function's name along its first column.
pub open spec fn call_drawn(
    declaration: FunctionDeclarationView,
    inputs: Seq<anchor::Id>,
    output: anchor::Id,
    facts: Map<usize, AnchorFacts>,
    node: NodeFacts,
) -> RenderNodeView {
    let outgoing = known_of(facts, output);
    RenderNodeView {
        body: RenderBody::Frustum {
            width: if inputs.len() == 0 {
                1
            } else {
                inputs.len() as i32
            },
            cells: node.name_cells,
            input_rows: tallest(inputs, facts) as usize,
            output_rows: outgoing.rows as usize,
        },
        anchors: Seq::new(
            inputs.len(),
            |i: int| call_input(declaration, inputs[i], i, facts),
        ).push(
            (
                output,
                output_at(
                    (node.name_cells + 1) as i32,
                    render::anchor_of(
                        declaration.output_type,
                        outgoing.anchor_literal,
                        outgoing.at_output,
                        Lettering::Spelled,
                    ),
                ),
            ),
        ),
        own: None,
        labels: parameter_labels(declaration, inputs.len()),
        text_face: Some(
            RenderTextFaceView { text: declaration.name, first_z: 1, cells: node.name_cells },
        ),
    }
}

/// The end of a scope: it takes the shape of what arrives, silently. Behind the
/// program's Sink stands the result once more, and says its piece there; it is
/// drawn grey as long as there is nothing to say.
pub open spec fn sink_drawn(
    input: anchor::Id,
    facts: Map<usize, AnchorFacts>,
    node: NodeFacts,
) -> RenderNodeView {
    let known = known_of(facts, input);
    RenderNodeView {
        body: RenderBody::NoBody,
        anchors: seq![(input, input_at(0, resting_input(known, Lettering::Silent)))],
        own: if node.is_program_sink {
            Some(output_at(1, resting_input(known, Lettering::Spelled)))
        } else {
            None
        },
        labels: Seq::empty(),
        text_face: None,
    }
}

/// An arm of a Match: the type it matches, silently, because the BranchSource
/// behind it names it.
pub open spec fn pattern_drawn(t: Option<etype::ETypeView>) -> RenderNodeView {
    RenderNodeView {
        body: RenderBody::NoBody,
        anchors: Seq::empty(),
        own: Some(
            input_at(
                PATTERN_TYPE_LOCAL_Z,
                render::anchor_of(
                    render::declared_as(t),
                    render::declared_literal(t),
                    None,
                    Lettering::Silent,
                ),
            ),
        ),
        labels: Seq::empty(),
        text_face: None,
    }
}

/// A node that is nothing but anchors.
pub open spec fn anchors_alone(anchors: Seq<(anchor::Id, PlacedView)>) -> RenderNodeView {
    RenderNodeView {
        body: RenderBody::NoBody,
        anchors,
        own: None,
        labels: Seq::empty(),
        text_face: None,
    }
}

/// A node as it is drawn.
pub open spec fn node_drawn(
    node: ENode,
    functions: Map<usize, FunctionDeclaration>,
    facts: Map<usize, AnchorFacts>,
    about: NodeFacts,
) -> RenderNodeView {
    match node {
        ENode::Source { name, etype, output_anchor } => source_drawn(
            name@,
            render::opt_declared(etype),
            output_anchor,
            facts,
            about,
        ),
        ENode::Constant { etype, output_anchor } => constant_drawn(etype@, output_anchor),
        ENode::TypeCast { etype, input_anchor, output_anchor } => cast_drawn(
            render::opt_declared(etype),
            input_anchor,
            output_anchor,
            facts,
        ),
        ENode::FunctionCall { function_declaration_id, input_anchors, output_anchor } => call_drawn(
            functions[function_declaration_id.0]@,
            input_anchors@,
            output_anchor,
            facts,
            about,
        ),
        ENode::Sink { input_anchor } => sink_drawn(input_anchor, facts, about),
        ENode::Pattern { etype, .. } => pattern_drawn(render::opt_declared(etype)),
        ENode::BranchSource { output_anchor, .. } => anchors_alone(
            seq![(output_anchor, output_at(0, own_output(known_of(facts, output_anchor))))],
        ),
        // One type for both ends: what arrives is handed on unchanged.
        ENode::Tunnel { input_anchor, output_anchor, .. } => anchors_alone(
            seq![
                (input_anchor, input_at(-1i32, own_output(known_of(facts, output_anchor)))),
                (output_anchor, output_at(0, own_output(known_of(facts, output_anchor)))),
            ],
        ),
        ENode::Match { input_anchor, output_anchor, .. } => anchors_alone(
            seq![
                (
                    input_anchor,
                    input_at(0, resting_input(known_of(facts, input_anchor), Lettering::Spelled)),
                ),
                (
                    output_anchor,
                    output_at(about.output_z, own_output(known_of(facts, output_anchor))),
                ),
            ],
        ),
        ENode::Root {  } => anchors_alone(Seq::empty()),
    }
}

/// A node can be drawn: it has a place of its own, and a call names a function
/// that is declared and has cells that can be counted.
pub open spec fn can_be_drawn(
    node: ENode,
    functions: Map<usize, FunctionDeclaration>,
    about: NodeFacts,
) -> bool {
    &&& node !is Root
    &&& node matches ENode::FunctionCall { function_declaration_id, input_anchors, .. }
        ==> functions.contains_key(function_declaration_id.0) && input_anchors.len() <= i32::MAX
        && about.name_cells < i32::MAX
}

fn facts_of<'a>(
    facts: &'a HashMap<usize, AnchorFacts>,
    id: anchor::Id,
    none: &'a AnchorFacts,
) -> (known: &'a AnchorFacts)
    requires
        none@ == nothing_known(),
    ensures
        known@ == known_of(facts@, id),
{
    match facts.get(&id.0) {
        Some(known) => known,
        None => none,
    }
}

fn literal_of<'a>(t: Option<&'a EType>) -> (literal: Option<&'a String>)
    ensures
        render::opt_text_ref(literal) == literal_in(render::opt_type_ref(t)),
{
    match t {
        Some(t) => infer::leaf_literal(t),
        None => None,
    }
}

/// The type a node declares, without the literal it may be narrowed to.
pub fn declared_base(t: &Option<etype::EType>) -> (base: EType)
    ensures
        base@ == base_of(render::opt_declared(*t)),
{
    match t {
        Some(etype::EType::Bool { .. }) => EType::Bool(None),
        Some(etype::EType::Int { .. }) => EType::Int(None),
        Some(etype::EType::String { .. }) => EType::String(None),
        Some(etype::EType::Char { .. }) => EType::Char(None),
        Some(etype::EType::NoneType { .. }) => EType::NoneType,
        None => EType::Pending,
    }
}

fn draw_own_output(known: &AnchorFacts) -> (drawn: RenderAnchor)
    ensures
        drawn@ == own_output(known@),
{
    let literal = known.anchor_literal.as_ref();
    let taken = known.at_output.as_ref();
    match &known.anchor_type {
        Some(t) => render::typed_anchor(t, literal, taken, Lettering::Spelled),
        None => render::typed_anchor(&EType::Pending, literal, taken, Lettering::Spelled),
    }
}

fn draw_resting_input(known: &AnchorFacts, lettering: Lettering) -> (drawn: RenderAnchor)
    ensures
        drawn@ == resting_input(known@, lettering),
{
    render::anchor_showing(
        known.incoming_type.as_ref(),
        known.incoming_literal.as_ref(),
        known.at_input.as_ref(),
        lettering,
    )
}

fn draw_arriving_input(t: Option<&EType>, taken: Option<&EType>) -> (drawn: RenderAnchor)
    ensures
        drawn@ == arriving_input(render::opt_type_ref(t), render::opt_type_ref(taken)),
{
    render::anchor_showing(t, literal_of(taken), taken, Lettering::Spelled)
}

fn place(z: i32, side: Side, drawn: RenderAnchor) -> (placed: Placed)
    ensures
        placed@ == (PlacedView { cell: on_axis(z), side, drawn: drawn@ }),
{
    Placed { cell: Cell::new(0, 0, z), side, drawn }
}

fn only(id: anchor::Id, placed: Placed) -> (anchors: Vec<(anchor::Id, Placed)>)
    ensures
        placed_views(anchors@) == seq![(id, placed@)],
{
    let mut anchors: Vec<(anchor::Id, Placed)> = Vec::new();
    anchors.push((id, placed));
    assert(placed_views(anchors@) =~= seq![(id, placed@)]);
    anchors
}

fn both(
    input: anchor::Id,
    incoming: Placed,
    output: anchor::Id,
    outgoing: Placed,
) -> (anchors: Vec<(anchor::Id, Placed)>)
    ensures
        placed_views(anchors@) == seq![(input, incoming@), (output, outgoing@)],
{
    let mut anchors: Vec<(anchor::Id, Placed)> = Vec::new();
    anchors.push((input, incoming));
    anchors.push((output, outgoing));
    assert(placed_views(anchors@) =~= seq![(input, incoming@), (output, outgoing@)]);
    anchors
}

fn no_labels() -> (labels: Vec<RenderLabel>)
    ensures
        label_views(labels@) == Seq::<RenderLabelView>::empty(),
{
    let labels: Vec<RenderLabel> = Vec::new();
    assert(label_views(labels@) =~= Seq::<RenderLabelView>::empty());
    labels
}

fn draw_anchors_alone(anchors: Vec<(anchor::Id, Placed)>) -> (res: RenderNode)
    ensures
        res@ == anchors_alone(placed_views(anchors@)),
{
    RenderNode {
        body: RenderBody::NoBody,
        anchors,
        own: None,
        labels: no_labels(),
        text_face: None,
    }
}

fn draw_source(
    name: &String,
    t: &Option<etype::EType>,
    output: anchor::Id,
    facts: &HashMap<usize, AnchorFacts>,
    about: &NodeFacts,
) -> (res: RenderNode)
    ensures
        res@ == source_drawn(name@, render::opt_declared(*t), output, facts@, *about),
{
    let none = AnchorFacts::nothing();
    let known = facts_of(facts, output, &none);
    let base = declared_base(t);
    let strands = render::build_anchor_strands(
        &base,
        known.anchor_literal.as_ref(),
        None,
        Lettering::Spelled,
    );
    let offered = about.offered.as_ref();
    let waiting = render::build_anchor_strands(
        &base,
        literal_of(offered),
        offered,
        Lettering::Spelled,
    );
    let mut labels = no_labels();
    if let Some(index) = about.source_index {
        let label = RenderLabel {
            text: "[".to_owned().concat(text::decimal(index as u64).as_str()).concat("]"),
            cell: Cell::new(0, 0, -1),
            place: LabelPlace::BesideLetter,
        };
        labels.push(label);
        assert(label_views(labels@) =~= seq![label@]);
    }
    RenderNode {
        body: RenderBody::Bar { cells: about.name_cells, color: render::strand_color(&base) },
        anchors: only(
            output,
            place(about.name_cells, Side::Output, RenderAnchor { strands, plain_body: false }),
        ),
        own: Some(
            place(-1, Side::Input, RenderAnchor { strands: waiting, plain_body: false }),
        ),
        labels,
        text_face: Some(
            RenderTextFace { text: name.clone(), first_z: 0, cells: about.name_cells },
        ),
    }
}

fn draw_constant(t: &etype::EType, output: anchor::Id) -> (res: RenderNode)
    ensures
        res@ == constant_drawn(t@, output),
{
    let carried = infer::graph_type_to_eval_type(t);
    let strands = render::build_anchor_strands(
        &carried,
        infer::leaf_literal(&carried),
        None,
        Lettering::Spelled,
    );
    RenderNode {
        body: RenderBody::Point { color: render::strand_color(&carried) },
        anchors: only(
            output,
            place(1, Side::Output, RenderAnchor { strands, plain_body: false }),
        ),
        own: None,
        labels: no_labels(),
        text_face: None,
    }
}

fn draw_cast(
    t: &Option<etype::EType>,
    input: anchor::Id,
    output: anchor::Id,
    facts: &HashMap<usize, AnchorFacts>,
) -> (res: RenderNode)
    ensures
        res@ == cast_drawn(render::opt_declared(*t), input, output, facts@),
{
    let none = AnchorFacts::nothing();
    let incoming = facts_of(facts, input, &none);
    let outgoing = facts_of(facts, output, &none);
    let declared = render::declared_type(t);
    let literal = infer::leaf_literal(&declared);
    let taken = outgoing.at_output.as_ref();
    // Built before the cell that names the type, because whether that cell
    // speaks depends on whether this one does.
    let out = match &outgoing.anchor_type {
        Some(t) => render::typed_anchor(t, literal, taken, Lettering::Spelled),
        None => render::typed_anchor(&EType::Pending, literal, taken, Lettering::Spelled),
    };
    let lettering = if out.strands.len() == 0 {
        Lettering::Spelled
    } else {
        Lettering::Silent
    };
    let target = render::declared_type_cell(t, lettering);
    RenderNode {
        body: RenderBody::NoBody,
        anchors: both(
            input,
            place(
                0,
                Side::Input,
                draw_arriving_input(incoming.incoming_type.as_ref(), incoming.at_input.as_ref()),
            ),
            output,
            place(CAST_OUTPUT_Z, Side::Output, out),
        ),
        own: Some(place(CAST_TYPE_Z, Side::Input, target)),
        labels: no_labels(),
        text_face: None,
    }
}

fn draw_call_input(
    declaration: &FunctionDeclaration,
    input: anchor::Id,
    i: usize,
    facts: &HashMap<usize, AnchorFacts>,
) -> (placed: Placed)
    requires
        i <= i32::MAX,
    ensures
        (input, placed@) == call_input(declaration@, input, i as int, facts@),
{
    let none = AnchorFacts::nothing();
    let known = facts_of(facts, input, &none);
    let declared: Option<&EType> = if i < declaration.inputs.len() {
        assert(declaration@.inputs[i as int] == declaration.inputs@[i as int]@);
        declaration.inputs[i].etype.as_ref()
    } else {
        None
    };
    let shown = match declared {
        Some(t) => Some(t),
        None => known.incoming_type.as_ref(),
    };
    Placed {
        cell: Cell::new(i as i32, 0, 0),
        side: Side::Input,
        drawn: draw_arriving_input(shown, known.at_input.as_ref()),
    }
}

fn rows_of_tallest(inputs: &Vec<anchor::Id>, facts: &HashMap<usize, AnchorFacts>) -> (rows: usize)
    ensures
        rows == tallest(inputs@, facts@),
{
    let none = AnchorFacts::nothing();
    let mut rows: usize = 1;
    let mut i: usize = 0;
    assert(inputs@.take(0).len() == 0);
    while i < inputs.len()
        invariant
            i <= inputs.len(),
            none@ == nothing_known(),
            rows == tallest(inputs@.take(i as int), facts@),
        decreases inputs.len() - i,
    {
        assert(inputs@.take(i + 1).drop_last() =~= inputs@.take(i as int));
        let here = facts_of(facts, inputs[i], &none);
        if i == 0 || here.rows > rows {
            rows = here.rows;
        }
        i = i + 1;
    }
    assert(inputs@.take(i as int) =~= inputs@);
    rows
}

fn draw_parameter_labels(declaration: &FunctionDeclaration, len: usize) -> (labels: Vec<
    RenderLabel,
>)
    requires
        len <= i32::MAX,
    ensures
        label_views(labels@) == parameter_labels(declaration@, len as nat),
{
    let ghost planned = parameter_labels(declaration@, len as nat);
    let mut labels = no_labels();
    assert(planned.take(0) =~= Seq::<RenderLabelView>::empty());
    let mut i: usize = 0;
    while i < len && i < declaration.inputs.len()
        invariant
            i <= len <= i32::MAX,
            i <= declaration.inputs.len(),
            planned == parameter_labels(declaration@, len as nat),
            label_views(labels@) =~= planned.take(i as int),
        decreases len - i,
    {
        let ghost before = labels@;
        let label = RenderLabel {
            text: declaration.inputs[i].name.clone(),
            cell: Cell::new(i as i32, 0, 0),
            place: LabelPlace::UnderLetter,
        };
        proof {
            assert(declaration@.inputs[i as int] == declaration.inputs@[i as int]@);
            assert(label_views(before.push(label)) =~= label_views(before).push(label@));
            assert(planned[i as int] == label@);
        }
        labels.push(label);
        i = i + 1;
    }
    assert(planned.take(i as int) =~= planned);
    labels
}

fn draw_call(
    declaration: &FunctionDeclaration,
    inputs: &Vec<anchor::Id>,
    output: anchor::Id,
    facts: &HashMap<usize, AnchorFacts>,
    about: &NodeFacts,
) -> (res: RenderNode)
    requires
        inputs.len() <= i32::MAX,
        about.name_cells < i32::MAX,
    ensures
        res@ == call_drawn(declaration@, inputs@, output, facts@, *about),
{
    let none = AnchorFacts::nothing();
    let outgoing = facts_of(facts, output, &none);
    let ghost planned = call_drawn(declaration@, inputs@, output, facts@, *about);
    let mut anchors: Vec<(anchor::Id, Placed)> = Vec::new();
    let mut i: usize = 0;
    while i < inputs.len()
        invariant
            i <= inputs.len() <= i32::MAX,
            planned == call_drawn(declaration@, inputs@, output, facts@, *about),
            placed_views(anchors@) =~= planned.anchors.take(i as int),
        decreases inputs.len() - i,
    {
        let ghost before = anchors@;
        let placed = draw_call_input(declaration, inputs[i], i, facts);
        let entry = (inputs[i], placed);
        proof {
            assert(placed_views(before.push(entry)) =~= placed_views(before).push(
                (entry.0, placed@),
            ));
            assert(planned.anchors[i as int] == (entry.0, placed@));
        }
        anchors.push(entry);
        i = i + 1;
    }
    let ghost before = anchors@;
    let out = place(
        about.name_cells + 1,
        Side::Output,
        render::typed_anchor(
            &declaration.output_type,
            outgoing.anchor_literal.as_ref(),
            outgoing.at_output.as_ref(),
            Lettering::Spelled,
        ),
    );
    anchors.push((output, out));
    proof {
        assert(placed_views(anchors@) =~= placed_views(before).push((output, out@)));
        assert(placed_views(anchors@) =~= planned.anchors);
    }
    let width: i32 = if inputs.len() == 0 {
        1
    } else {
        inputs.len() as i32
    };
    RenderNode {
        body: RenderBody::Frustum {
            width,
            cells: about.name_cells,
            input_rows: rows_of_tallest(inputs, facts),
            output_rows: outgoing.rows,
        },
        anchors,
        own: None,
        labels: draw_parameter_labels(declaration, inputs.len()),
        text_face: Some(
            RenderTextFace {
                text: declaration.name.clone(),
                first_z: 1,
                cells: about.name_cells,
            },
        ),
    }
}

fn draw_sink(
    input: anchor::Id,
    facts: &HashMap<usize, AnchorFacts>,
    about: &NodeFacts,
) -> (res: RenderNode)
    ensures
        res@ == sink_drawn(input, facts@, *about),
{
    let none = AnchorFacts::nothing();
    let known = facts_of(facts, input, &none);
    let own = if about.is_program_sink {
        Some(place(1, Side::Output, draw_resting_input(known, Lettering::Spelled)))
    } else {
        None
    };
    RenderNode {
        body: RenderBody::NoBody,
        anchors: only(input, place(0, Side::Input, draw_resting_input(known, Lettering::Silent))),
        own,
        labels: no_labels(),
        text_face: None,
    }
}

fn draw_pattern(t: &Option<etype::EType>) -> (res: RenderNode)
    ensures
        res@ == pattern_drawn(render::opt_declared(*t)),
{
    let anchors: Vec<(anchor::Id, Placed)> = Vec::new();
    assert(placed_views(anchors@) =~= Seq::<(anchor::Id, PlacedView)>::empty());
    RenderNode {
        body: RenderBody::NoBody,
        anchors,
        own: Some(
            place(
                PATTERN_TYPE_LOCAL_Z,
                Side::Input,
                render::declared_type_cell(t, Lettering::Silent),
            ),
        ),
        labels: no_labels(),
        text_face: None,
    }
}

/// How a node is drawn: its body, its anchors with what each of them shows, what
/// is drawn like an anchor beside them, and what is written.
///
/// `facts` is what the inferer and a run say of the anchors, `about` what the
/// layout and a run say of the node. An anchor's rows are the ones its declared
/// type reserved, evaluated or not, so the node keeps its footprint.
pub fn layoutnode_to_rendernode(
    node: &ENode,
    functions: &HashMap<usize, FunctionDeclaration>,
    facts: &HashMap<usize, AnchorFacts>,
    about: &NodeFacts,
) -> (res: RenderNode)
    requires
        can_be_drawn(*node, functions@, *about),
    ensures
        res@ == node_drawn(*node, functions@, facts@, *about),
{
    let none = AnchorFacts::nothing();
    match node {
        ENode::Source { name, etype, output_anchor } => {
            draw_source(name, etype, *output_anchor, facts, about)
        },
        ENode::Constant { etype, output_anchor } => draw_constant(etype, *output_anchor),
        ENode::TypeCast { etype, input_anchor, output_anchor } => {
            draw_cast(etype, *input_anchor, *output_anchor, facts)
        },
        ENode::FunctionCall { function_declaration_id, input_anchors, output_anchor } => {
            match functions.get(&function_declaration_id.0) {
                Some(declaration) => {
                    draw_call(declaration, input_anchors, *output_anchor, facts, about)
                },
                None => draw_anchors_alone(Vec::new()),
            }
        },
        ENode::Sink { input_anchor } => draw_sink(*input_anchor, facts, about),
        ENode::Pattern { etype, .. } => draw_pattern(etype),
        ENode::BranchSource { output_anchor, .. } => {
            let known = facts_of(facts, *output_anchor, &none);
            draw_anchors_alone(
                only(*output_anchor, place(0, Side::Output, draw_own_output(known))),
            )
        },
        ENode::Tunnel { input_anchor, output_anchor, .. } => {
            let known = facts_of(facts, *output_anchor, &none);
            draw_anchors_alone(
                both(
                    *input_anchor,
                    place(-1, Side::Input, draw_own_output(known)),
                    *output_anchor,
                    place(0, Side::Output, draw_own_output(known)),
                ),
            )
        },
        ENode::Match { input_anchor, output_anchor, .. } => {
            let incoming = facts_of(facts, *input_anchor, &none);
            let outgoing = facts_of(facts, *output_anchor, &none);
            draw_anchors_alone(
                both(
                    *input_anchor,
                    place(0, Side::Input, draw_resting_input(incoming, Lettering::Spelled)),
                    *output_anchor,
                    place(about.output_z, Side::Output, draw_own_output(outgoing)),
                ),
            )
        },
        ENode::Root {  } => draw_anchors_alone(Vec::new()),
    }
}

/// What is drawn of a node has an anchor for each of the node's anchors, and for
/// nothing else: a Source's arrival and the program's exit are drawn, and no
/// edge can end there.
pub proof fn law_anchors_are_the_nodes_own(
    node: ENode,
    functions: Map<usize, FunctionDeclaration>,
    facts: Map<usize, AnchorFacts>,
    about: NodeFacts,
)
    requires
        can_be_drawn(node, functions, about),
    ensures
        node_drawn(node, functions, facts, about).anchors.len() == node.anchor_list().len(),
        forall|i: int|
            0 <= i < node.anchor_list().len() ==> {
                let drawn = node_drawn(node, functions, facts, about).anchors[i];
                &&& drawn.0 == (#[trigger] node.anchor_list()[i]).0
                &&& drawn.1.side == Side::Input <==> node.anchor_list()[i].1 is Input
            },
{
}

/// Where the anchors of a node stand.
pub open spec fn footprint(node: ENode, name_cells: i32, output_z: i32) -> Seq<
    (anchor::Id, Cell, Side),
> {
    match node {
        ENode::Source { output_anchor, .. } => seq![
            (output_anchor, on_axis(name_cells), Side::Output),
        ],
        ENode::Constant { output_anchor, .. } => seq![(output_anchor, on_axis(1), Side::Output)],
        ENode::TypeCast { input_anchor, output_anchor, .. } => seq![
            (input_anchor, on_axis(0), Side::Input),
            (output_anchor, on_axis(CAST_OUTPUT_Z), Side::Output),
        ],
        ENode::FunctionCall { input_anchors, output_anchor, .. } => Seq::new(
            input_anchors@.len(),
            |i: int| (input_anchors@[i], Cell { x: i as i32, y: 0, z: 0 }, Side::Input),
        ).push((output_anchor, on_axis((name_cells + 1) as i32), Side::Output)),
        ENode::Sink { input_anchor } => seq![(input_anchor, on_axis(0), Side::Input)],
        ENode::BranchSource { output_anchor, .. } => seq![
            (output_anchor, on_axis(0), Side::Output),
        ],
        ENode::Tunnel { input_anchor, output_anchor, .. } => seq![
            (input_anchor, on_axis(-1i32), Side::Input),
            (output_anchor, on_axis(0), Side::Output),
        ],
        ENode::Match { input_anchor, output_anchor, .. } => seq![
            (input_anchor, on_axis(0), Side::Input),
            (output_anchor, on_axis(output_z), Side::Output),
        ],
        _ => Seq::empty(),
    }
}

/// A run changes what is shown and never where: the cells of a node's anchors
/// follow from the node, the length of its name and the depth of its arms alone.
pub proof fn law_a_run_keeps_the_footprint(
    node: ENode,
    functions: Map<usize, FunctionDeclaration>,
    facts: Map<usize, AnchorFacts>,
    about: NodeFacts,
)
    requires
        can_be_drawn(node, functions, about),
    ensures
        node_drawn(node, functions, facts, about).anchors.len() == footprint(
            node,
            about.name_cells,
            about.output_z,
        ).len(),
        forall|i: int|
            0 <= i < footprint(node, about.name_cells, about.output_z).len() ==> {
                let drawn = node_drawn(node, functions, facts, about).anchors[i];
                (drawn.0, drawn.1.cell, drawn.1.side) == #[trigger] footprint(
                    node,
                    about.name_cells,
                    about.output_z,
                )[i]
            },
{
}

/// A cast that nothing flows into still says which type it converts to, and one
/// whose output speaks leaves it to the output.
pub proof fn law_a_cast_speaks_once(
    t: Option<etype::ETypeView>,
    input: anchor::Id,
    output: anchor::Id,
    facts: Map<usize, AnchorFacts>,
)
    ensures
        ({
            let drawn = cast_drawn(t, input, output, facts);
            let target = drawn.own->0.drawn;
            let out = drawn.anchors[1].1.drawn;
            forall|i: int|
                0 <= i < target.strands.len() ==> ((#[trigger] target.strands[i]).label is Some
                    <==> out.strands.len() == 0)
        }),
{
}

/// What is known of an anchor is what is filed under its number; of an anchor
/// that nothing is filed under, nothing is known, and it is one row tall.
pub proof fn law_what_is_known_of_an_anchor(facts: Map<usize, AnchorFacts>, id: anchor::Id)
    ensures
        facts.contains_key(id.0) ==> known_of(facts, id) == facts[id.0]@,
        !facts.contains_key(id.0) ==> {
            let known = known_of(facts, id);
            &&& known.anchor_type is None && known.incoming_type is None
            &&& known.anchor_literal is None && known.incoming_literal is None
            &&& known.at_input is None && known.at_output is None
            &&& known.rows == 1
        },
{
}

/// An input of a call whose parameter declares a type shows the rows of that
/// type, whatever arrives at it and even if nothing does; a run only settles
/// which of them stays. Where the parameter declares none, the input shows what
/// arrives, and the neutral sheet while nothing does.
pub proof fn law_a_call_shows_what_its_parameters_take(
    node: ENode,
    functions: Map<usize, FunctionDeclaration>,
    facts: Map<usize, AnchorFacts>,
    about: NodeFacts,
    i: int,
)
    requires
        can_be_drawn(node, functions, about),
        node is FunctionCall,
        0 <= i < node->input_anchors@.len(),
    ensures
        ({
            let declaration = functions[node->function_declaration_id.0]@;
            let input = node->input_anchors@[i];
            let known = known_of(facts, input);
            let drawn = node_drawn(node, functions, facts, about).anchors[i];
            let declared = if i < declaration.inputs.len() {
                declaration.inputs[i].etype
            } else {
                None
            };
            &&& drawn.0 == input
            &&& drawn.1.side == Side::Input
            &&& drawn.1.cell == (Cell { x: i as i32, y: 0, z: 0 })
            &&& declared matches Some(t) ==> drawn.1.drawn == render::anchor_of(
                t,
                literal_in(known.at_input),
                known.at_input,
                Lettering::Spelled,
            )
            &&& declared matches Some(t) ==> known.at_input is None ==> {
                &&& drawn.1.drawn.strands.len() == t.leaves().len()
                &&& forall|r: int|
                    0 <= r < t.leaves().len() ==> {
                        let strand = #[trigger] drawn.1.drawn.strands[r];
                        &&& strand.row == r
                        &&& strand.color == render::color_of(render::stacked(t.leaves())[r])
                    }
            }
            &&& declared is None && known.incoming_type is Some ==> drawn.1.drawn
                == render::anchor_of(
                known.incoming_type->0,
                literal_in(known.at_input),
                known.at_input,
                Lettering::Spelled,
            )
            &&& declared is None && known.incoming_type is None ==> drawn.1.drawn.plain_body
                && drawn.1.drawn.strands.len() == 0
        }),
{
    let declaration = functions[node->function_declaration_id.0]@;
    if i < declaration.inputs.len() {
        if let Some(t) = declaration.inputs[i].etype {
            render::law_stacking_keeps_every_leaf(t);
        }
    }
}

/// What arrives at a call changes nothing about an input whose parameter declares
/// a type.
pub proof fn law_a_declared_parameter_ignores_what_arrives(
    node: ENode,
    functions: Map<usize, FunctionDeclaration>,
    one: Map<usize, AnchorFacts>,
    other: Map<usize, AnchorFacts>,
    about: NodeFacts,
    i: int,
)
    requires
        can_be_drawn(node, functions, about),
        node is FunctionCall,
        0 <= i < node->input_anchors@.len(),
        i < functions[node->function_declaration_id.0]@.inputs.len(),
        functions[node->function_declaration_id.0]@.inputs[i].etype is Some,
        known_of(one, node->input_anchors@[i]).at_input == known_of(
            other,
            node->input_anchors@[i],
        ).at_input,
    ensures
        node_drawn(node, functions, one, about).anchors[i] == node_drawn(
            node,
            functions,
            other,
            about,
        ).anchors[i],
{
}

proof fn lemma_tallest(inputs: Seq<anchor::Id>, facts: Map<usize, AnchorFacts>)
    ensures
        inputs.len() == 0 ==> tallest(inputs, facts) == 1,
        forall|i: int|
            0 <= i < inputs.len() ==> known_of(facts, #[trigger] inputs[i]).rows <= tallest(
                inputs,
                facts,
            ),
        inputs.len() > 0 ==> exists|i: int|
            0 <= i < inputs.len() && known_of(facts, #[trigger] inputs[i]).rows == tallest(
                inputs,
                facts,
            ),
    decreases inputs.len(),
{
    if inputs.len() > 0 {
        let shorter = inputs.drop_last();
        lemma_tallest(shorter, facts);
        assert forall|i: int| 0 <= i < inputs.len() implies known_of(
            facts,
            #[trigger] inputs[i],
        ).rows <= tallest(inputs, facts) by {
            if i < shorter.len() {
                assert(shorter[i] == inputs[i]);
            }
        }
        if tallest(inputs, facts) == known_of(facts, inputs.last()).rows {
            assert(known_of(facts, inputs[inputs.len() - 1]).rows == tallest(inputs, facts));
        } else {
            let i = choose|i: int|
                0 <= i < shorter.len() && known_of(facts, #[trigger] shorter[i]).rows == tallest(
                    shorter,
                    facts,
                );
            assert(inputs[i] == shorter[i]);
        }
    }
}

/// The rest of a call: its output shows the type the function gives back, its name
/// runs along its body, every parameter is named at its own input, and the body is
/// as wide as there are inputs, as long as the name needs and as tall as the
/// tallest input on the one side and as the output on the other.
pub proof fn law_a_call_shows_its_function(
    node: ENode,
    functions: Map<usize, FunctionDeclaration>,
    facts: Map<usize, AnchorFacts>,
    about: NodeFacts,
)
    requires
        can_be_drawn(node, functions, about),
        node is FunctionCall,
    ensures
        ({
            let declaration = functions[node->function_declaration_id.0]@;
            let inputs = node->input_anchors@;
            let output = node->FunctionCall_output_anchor;
            let known = known_of(facts, output);
            let drawn = node_drawn(node, functions, facts, about);
            let out = drawn.anchors[inputs.len() as int];
            &&& drawn.anchors.len() == inputs.len() + 1
            &&& out.0 == output
            &&& out.1.side == Side::Output
            &&& out.1.cell == (Cell { x: 0, y: 0, z: (about.name_cells + 1) as i32 })
            &&& out.1.drawn == render::anchor_of(
                declaration.output_type,
                known.anchor_literal,
                known.at_output,
                Lettering::Spelled,
            )
            &&& drawn.own is None
            &&& drawn.text_face matches Some(face)
            &&& face.text == declaration.name
            &&& face.first_z == 1
            &&& face.cells == about.name_cells
            &&& drawn.labels.len() <= inputs.len()
            &&& drawn.labels.len() <= declaration.inputs.len()
            &&& drawn.labels.len() == inputs.len() || drawn.labels.len()
                == declaration.inputs.len()
            &&& forall|i: int|
                0 <= i < drawn.labels.len() ==> {
                    &&& (#[trigger] drawn.labels[i]).text == declaration.inputs[i].name
                    &&& drawn.labels[i].cell == drawn.anchors[i].1.cell
                    &&& drawn.labels[i].place == LabelPlace::UnderLetter
                }
            &&& drawn.body matches RenderBody::Frustum { width, cells, input_rows, output_rows }
            &&& inputs.len() == 0 ==> width == 1 && input_rows == 1
            &&& inputs.len() > 0 ==> width == inputs.len()
            &&& cells == about.name_cells
            &&& output_rows == known.rows
            &&& forall|i: int|
                0 <= i < inputs.len() ==> known_of(facts, #[trigger] inputs[i]).rows <= input_rows
            &&& inputs.len() > 0 ==> exists|i: int|
                0 <= i < inputs.len() && known_of(facts, #[trigger] inputs[i]).rows == input_rows
        }),
{
    lemma_tallest(node->input_anchors@, facts);
}

/// A Source is a bar in the colour of the type it declares, with its name on it.
/// Behind the bar it hands its type out, and before it stands what the world offers
/// it, with the index it is asked by. The type is shown whole: a Source is never
/// narrowed by its own declaration.
pub proof fn law_what_a_source_shows(
    node: ENode,
    functions: Map<usize, FunctionDeclaration>,
    facts: Map<usize, AnchorFacts>,
    about: NodeFacts,
)
    requires
        node is Source,
    ensures
        ({
            let drawn = node_drawn(node, functions, facts, about);
            let output = node->Source_output_anchor;
            let base = match render::opt_declared(node->Source_etype) {
                Some(t) => infer::carried(suggest::declared_type(suggest::choice_of(t), None)),
                None => ETypeView::Pending,
            };
            &&& drawn.body == (RenderBody::Bar {
                cells: about.name_cells,
                color: render::color_of(base),
            })
            &&& drawn.text_face == Some(
                RenderTextFaceView {
                    text: node->name@,
                    first_z: 0,
                    cells: about.name_cells,
                },
            )
            &&& drawn.anchors.len() == 1
            &&& drawn.anchors[0].0 == output
            &&& drawn.anchors[0].1.drawn.strands == render::anchor_of(
                base,
                known_of(facts, output).anchor_literal,
                None,
                Lettering::Spelled,
            ).strands
            &&& drawn.own matches Some(waiting)
            &&& waiting.cell == (Cell { x: 0, y: 0, z: -1i32 })
            &&& waiting.side == Side::Input
            &&& waiting.drawn.strands == render::anchor_of(
                base,
                match about.offered {
                    Some(t) => t@.literal(),
                    None => None,
                },
                render::opt_type(about.offered),
                Lettering::Spelled,
            ).strands
            &&& !drawn.anchors[0].1.drawn.plain_body && !waiting.drawn.plain_body
            &&& about.source_index is None ==> drawn.labels.len() == 0
            &&& about.source_index matches Some(index) ==> drawn.labels.len() == 1
                && drawn.labels[0].text == seq!['['] + text::decimal_of(index as nat) + seq![']']
                && drawn.labels[0].cell == waiting.cell && drawn.labels[0].place
                == LabelPlace::BesideLetter
        }),
{
    reveal_strlit("[");
    reveal_strlit("]");
    assert("["@ =~= seq!['[']);
    assert("]"@ =~= seq![']']);
}

/// A constant is a point in the colour of what it holds, and one line that leaves
/// it with the literal written past its tip.
pub proof fn law_what_a_constant_shows(
    node: ENode,
    functions: Map<usize, FunctionDeclaration>,
    facts: Map<usize, AnchorFacts>,
    about: NodeFacts,
)
    requires
        node is Constant,
    ensures
        ({
            let drawn = node_drawn(node, functions, facts, about);
            let held = node->Constant_etype@;
            let strands = drawn.anchors[0].1.drawn.strands;
            &&& drawn.body == (RenderBody::Point { color: render::color_of(infer::carried(held)) })
            &&& drawn.anchors.len() == 1
            &&& drawn.anchors[0].0 == node->Constant_output_anchor
            &&& strands.len() == 1
            &&& strands[0].row == 0
            &&& strands[0].color == render::color_of(infer::carried(held))
            &&& infer::carried(held).literal() matches Some(value) ==> strands[0].shape
                == render::StrandShape::Line && strands[0].label == Some(
                (value, render::StrandText::PastTip),
            )
            &&& held is NoneType ==> strands[0].shape == render::StrandShape::Line
                && strands[0].label == Some(
                (render::letter_of(ETypeView::NoneType), render::StrandText::Middle),
            )
            &&& !drawn.anchors[0].1.drawn.plain_body
            &&& drawn.own is None && drawn.labels.len() == 0 && drawn.text_face is None
        }),
{
    let carried = infer::carried(node->Constant_etype@);
    render::law_stacking_keeps_every_leaf(carried);
    render::law_what_stands_above_what(carried.leaves());
    let kind = carried.kind()->0;
    reveal_with_fuel(render::of_kind, 2);
    assert(carried.leaves() == seq![carried]);
    assert(seq![carried].drop_last().len() == 0);
    assert(render::of_kind(seq![carried], kind) =~= seq![carried]);
    assert(render::stacked(carried.leaves()) =~= seq![carried]);
}

/// A cast shows at its input what arrives, at its cell the type it names and at
/// its output what comes out, with the literal it may be narrowed to.
pub proof fn law_what_a_cast_shows(
    node: ENode,
    functions: Map<usize, FunctionDeclaration>,
    facts: Map<usize, AnchorFacts>,
    about: NodeFacts,
)
    requires
        node is TypeCast,
    ensures
        ({
            let drawn = node_drawn(node, functions, facts, about);
            let incoming = known_of(facts, node->TypeCast_input_anchor);
            let outgoing = known_of(facts, node->TypeCast_output_anchor);
            let declared = render::opt_declared(node->TypeCast_etype);
            let literal = match declared {
                Some(t) => infer::carried(t).literal(),
                None => None,
            };
            let out = drawn.anchors[1].1.drawn;
            &&& drawn.body == RenderBody::NoBody
            &&& drawn.anchors.len() == 2
            &&& drawn.anchors[0].0 == node->TypeCast_input_anchor
            &&& drawn.anchors[1].0 == node->TypeCast_output_anchor
            &&& drawn.anchors[0].1.drawn == render::shown_anchor(
                incoming.incoming_type,
                literal_in(incoming.at_input),
                incoming.at_input,
                Lettering::Spelled,
            )
            &&& outgoing.anchor_type matches Some(t) ==> out == render::anchor_of(
                t,
                literal,
                outgoing.at_output,
                Lettering::Spelled,
            )
            &&& outgoing.anchor_type is None ==> out == render::anchor_of(
                ETypeView::Pending,
                literal,
                outgoing.at_output,
                Lettering::Spelled,
            )
            &&& drawn.own matches Some(cell)
            &&& cell.cell == (Cell { x: 0, y: 0, z: 2 })
            &&& cell.side == Side::Input
            &&& declared matches Some(t) ==> out.strands.len() == 0 ==> cell.drawn
                == render::anchor_of(infer::carried(t), literal, None, Lettering::Spelled)
            &&& declared matches Some(t) ==> out.strands.len() > 0 ==> cell.drawn
                == render::anchor_of(infer::carried(t), literal, None, Lettering::Silent)
            &&& declared is None ==> cell.drawn.plain_body && cell.drawn.strands.len() == 0
            &&& drawn.labels.len() == 0 && drawn.text_face is None
        }),
{
    render::law_stacking_keeps_every_leaf(ETypeView::Pending);
}

/// A Sink shows what arrives, with the literal that arrives, and says nothing of
/// it; the program's own Sink has it once more behind it, in words.
pub proof fn law_what_a_sink_shows(
    node: ENode,
    functions: Map<usize, FunctionDeclaration>,
    facts: Map<usize, AnchorFacts>,
    about: NodeFacts,
)
    requires
        node is Sink,
    ensures
        ({
            let drawn = node_drawn(node, functions, facts, about);
            let known = known_of(facts, node->Sink_input_anchor);
            &&& drawn.body == RenderBody::NoBody
            &&& drawn.anchors.len() == 1
            &&& drawn.anchors[0].0 == node->Sink_input_anchor
            &&& drawn.anchors[0].1.drawn == render::shown_anchor(
                known.incoming_type,
                known.incoming_literal,
                known.at_input,
                Lettering::Silent,
            )
            &&& drawn.own is Some <==> about.is_program_sink
            &&& drawn.own matches Some(exit) ==> {
                &&& exit.cell == (Cell { x: 0, y: 0, z: 1 })
                &&& exit.side == Side::Output
                &&& exit.drawn == render::shown_anchor(
                    known.incoming_type,
                    known.incoming_literal,
                    known.at_input,
                    Lettering::Spelled,
                )
            }
            &&& drawn.labels.len() == 0 && drawn.text_face is None
        }),
{
}

/// An arm shows the type it matches, silently, and has no anchor of its own; a
/// BranchSource shows the type it hands out; a Tunnel shows one and the same at
/// both of its ends; and a Match shows what arrives with the literal that arrives,
/// and behind its arms what it hands out.
pub proof fn law_what_the_parts_of_a_match_show(
    node: ENode,
    functions: Map<usize, FunctionDeclaration>,
    facts: Map<usize, AnchorFacts>,
    about: NodeFacts,
)
    ensures
        ({
            let drawn = node_drawn(node, functions, facts, about);
            &&& node matches ENode::Pattern { etype, .. } ==> {
                &&& drawn.anchors.len() == 0
                &&& drawn.own matches Some(cell)
                &&& cell.cell == (Cell { x: 0, y: 0, z: 1 })
                &&& cell.side == Side::Input
                &&& etype matches Some(t) ==> cell.drawn == render::anchor_of(
                    infer::carried(t@),
                    infer::carried(t@).literal(),
                    None,
                    Lettering::Silent,
                )
                &&& etype is None ==> cell.drawn.plain_body && cell.drawn.strands.len() == 0
            }
            &&& node matches ENode::BranchSource { output_anchor, .. } ==> {
                let known = known_of(facts, output_anchor);
                &&& drawn.anchors.len() == 1
                &&& drawn.anchors[0].0 == output_anchor
                &&& drawn.anchors[0].1.drawn == render::anchor_of(
                    or_pending(known.anchor_type),
                    known.anchor_literal,
                    known.at_output,
                    Lettering::Spelled,
                )
            }
            &&& node matches ENode::Tunnel { input_anchor, output_anchor, .. } ==> {
                let known = known_of(facts, output_anchor);
                &&& drawn.anchors.len() == 2
                &&& drawn.anchors[0].0 == input_anchor
                &&& drawn.anchors[1].0 == output_anchor
                &&& drawn.anchors[0].1.drawn == drawn.anchors[1].1.drawn
                &&& drawn.anchors[1].1.drawn == render::anchor_of(
                    or_pending(known.anchor_type),
                    known.anchor_literal,
                    known.at_output,
                    Lettering::Spelled,
                )
            }
            &&& node matches ENode::Match { input_anchor, output_anchor, .. } ==> {
                let incoming = known_of(facts, input_anchor);
                let outgoing = known_of(facts, output_anchor);
                &&& drawn.anchors.len() == 2
                &&& drawn.anchors[0].0 == input_anchor
                &&& drawn.anchors[1].0 == output_anchor
                &&& drawn.anchors[0].1.drawn == render::shown_anchor(
                    incoming.incoming_type,
                    incoming.incoming_literal,
                    incoming.at_input,
                    Lettering::Spelled,
                )
                &&& drawn.anchors[1].1.drawn == render::anchor_of(
                    or_pending(outgoing.anchor_type),
                    outgoing.anchor_literal,
                    outgoing.at_output,
                    Lettering::Spelled,
                )
            }
            &&& node is Pattern || node is BranchSource || node is Tunnel || node is Match ==> {
                &&& drawn.body == RenderBody::NoBody
                &&& drawn.labels.len() == 0
                &&& drawn.text_face is None
                &&& node !is Pattern ==> drawn.own is None
            }
        }),
        or_pending(None) == ETypeView::Pending,
        forall|t: ETypeView| #[trigger] or_pending(Some(t)) == t,
{
    render::law_stacking_keeps_every_leaf(ETypeView::Pending);
}

} // verus!
