//! How a program is drawn: the strands that an anchor shows, and what is written
//! on them.

use crate::infer::{self, EType, ETypeView, Kind};
use crate::model::etype;
use crate::model::function_declaration::FunctionDeclaration;
use crate::model::node::ENode;
use crate::text;
use std::collections::HashMap;
use vstd::prelude::*;

pub mod links;
pub mod node;
pub mod shell;
pub mod surfaces;


verus! {

broadcast use vstd::std_specs::hash::group_hash_axioms;

/// What a function gives for the numbers below `n`, one after the other.
pub open spec fn gathered<A>(f: spec_fn(int) -> Seq<A>, n: nat) -> Seq<A>
    decreases n,
{
    if n == 0 {
        Seq::empty()
    } else {
        gathered(f, (n - 1) as nat) + f(n - 1)
    }
}

/// The colour of a strand: the palette's bytes, or the neutral grey of what has
/// not been decided.
#[derive(Clone, Copy, Debug, PartialEq, Eq, Structural)]
pub enum StrandColor {
    Rgb(u8, u8, u8),
    Grey,
}

/// The place of a kind in the stack of a sum type: the highest stands at the
/// top, and nothing at the bottom. A sum type reads as "one of these, or else
/// nothing", and the "or else" is the last thing said.
pub open spec fn order_of(kind: Kind) -> u8 {
    match kind {
        Kind::NoneType => 0,
        Kind::Bool => 1,
        Kind::Char => 2,
        Kind::Int => 3,
        Kind::String => 4,
    }
}

/// Sort key that fixes the vertical order of the rows of a sum type; `None` for
/// types that claim no row.
pub fn type_order(t: &EType) -> (order: Option<u8>)
    ensures
        order == match t@.kind() {
            Some(kind) => Some(order_of(kind)),
            None => None,
        },
{
    match t {
        EType::NoneType => Some(0),
        EType::Bool(_) => Some(1),
        EType::Char(_) => Some(2),
        EType::Int(_) => Some(3),
        EType::String(_) => Some(4),
        _ => None,
    }
}

/// The letter of a type.
pub open spec fn letter_of(t: ETypeView) -> Seq<char> {
    match t.kind() {
        Some(Kind::Bool) => "b"@,
        Some(Kind::Char) => "c"@,
        Some(Kind::Int) => "i"@,
        Some(Kind::String) => "s"@,
        Some(Kind::NoneType) => "n"@,
        None => "?"@,
    }
}

/// The letter a type is written with, on the middle of the strand carrying it.
pub fn type_letter(t: &EType) -> (letter: &'static str)
    ensures
        letter@ == letter_of(t@),
{
    match t {
        EType::Bool(_) => "b",
        EType::Char(_) => "c",
        EType::Int(_) => "i",
        EType::String(_) => "s",
        EType::NoneType => "n",
        _ => "?",
    }
}

/// The colour of a type.
pub open spec fn color_of(t: ETypeView) -> StrandColor {
    match t.kind() {
        // reddish purple
        Some(Kind::Bool) => StrandColor::Rgb(204, 121, 167),
        // bluish green
        Some(Kind::Char) => StrandColor::Rgb(0, 158, 115),
        // blue
        Some(Kind::Int) => StrandColor::Rgb(0, 114, 178),
        // orange
        Some(Kind::String) => StrandColor::Rgb(230, 159, 0),
        // vermillion, the nearest neighbour to the orange
        Some(Kind::NoneType) => StrandColor::Rgb(213, 94, 0),
        None => StrandColor::Grey,
    }
}

/// The colour a strand of type `t` is drawn in, wherever it appears: the segment
/// inside an anchor, the strand running between two of them, and the body of a
/// node that declares it. The palette is Okabe-Ito, whose hues stay apart under
/// the common forms of colour blindness: colour is the only thing that says
/// which type a strand carries.
pub fn strand_color(t: &EType) -> (color: StrandColor)
    ensures
        color == color_of(t@),
{
    match t {
        EType::Bool(_) => StrandColor::Rgb(204, 121, 167),
        EType::Char(_) => StrandColor::Rgb(0, 158, 115),
        EType::Int(_) => StrandColor::Rgb(0, 114, 178),
        EType::String(_) => StrandColor::Rgb(230, 159, 0),
        EType::NoneType => StrandColor::Rgb(213, 94, 0),
        _ => StrandColor::Grey,
    }
}

/// Strands of different kinds have different colours and different letters.
pub proof fn law_colour_tells_the_kind(a: ETypeView, b: ETypeView)
    ensures
        color_of(a) == color_of(b) <==> a.kind() == b.kind(),
        letter_of(a) == letter_of(b) <==> a.kind() == b.kind(),
{
    reveal_strlit("b");
    reveal_strlit("c");
    reveal_strlit("i");
    reveal_strlit("s");
    reveal_strlit("n");
    reveal_strlit("?");
    assert(letter_of(a)[0] == letter_of(b)[0] ==> a.kind() == b.kind());
}

/// The leaves of one kind, in the order they stand in.
pub open spec fn of_kind(leaves: Seq<ETypeView>, kind: Kind) -> Seq<ETypeView>
    decreases leaves.len(),
{
    if leaves.len() == 0 {
        Seq::empty()
    } else {
        let before = of_kind(leaves.drop_last(), kind);
        if leaves.last().kind() == Some(kind) {
            before.push(leaves.last())
        } else {
            before
        }
    }
}

/// The leaves in the order they are stacked: kind by kind, strings at the top
/// and nothing at the bottom; leaves of one kind keep their order.
pub open spec fn stacked(leaves: Seq<ETypeView>) -> Seq<ETypeView> {
    of_kind(leaves, Kind::String) + of_kind(leaves, Kind::Int) + of_kind(leaves, Kind::Char)
        + of_kind(leaves, Kind::Bool) + of_kind(leaves, Kind::NoneType)
}

fn push_of_kind(leaves: &Vec<EType>, kind: Kind, out: &mut Vec<EType>)
    ensures
        infer::views(final(out)@) == infer::views(old(out)@) + of_kind(
            infer::views(leaves@),
            kind,
        ),
{
    let ghost before = infer::views(out@);
    let ghost all = infer::views(leaves@);
    let mut i: usize = 0;
    proof {
        infer::lemma_views(leaves@);
        assert(all.take(0) =~= Seq::<ETypeView>::empty());
        assert(before + of_kind(all.take(0), kind) =~= before);
    }
    while i < leaves.len()
        invariant
            i <= leaves.len(),
            all == infer::views(leaves@),
            all.len() == leaves.len(),
            infer::views(out@) == before + of_kind(all.take(i as int), kind),
        decreases leaves.len() - i,
    {
        proof {
            infer::lemma_views(leaves@);
            assert(all.take(i + 1).drop_last() =~= all.take(i as int));
        }
        match infer::kind_of(&leaves[i]) {
            Some(found) => if found == kind {
                let leaf = leaves[i].clone();
                proof {
                    infer::lemma_views_push(out@, leaf);
                    assert((before + of_kind(all.take(i as int), kind)).push(leaf@) =~= before
                        + of_kind(all.take(i as int), kind).push(leaf@));
                }
                out.push(leaf);
            },
            None => {},
        }
        i = i + 1;
    }
    assert(all.take(i as int) =~= all);
}

/// The row-claiming leaves of `t`, in the order they are stacked. Which leaves
/// claim a row is decided elsewhere; this only fixes their order. Both the
/// strand stack and the edge ribbons read it, which is what keeps a strand
/// meeting the row it belongs to.
pub fn ordered_supported_leaves(t: &EType) -> (leaves: Vec<EType>)
    ensures
        infer::views(leaves@) == stacked(t@.leaves()),
{
    let all = infer::row_leaves(t);
    let mut leaves: Vec<EType> = Vec::new();
    assert(infer::views(leaves@) =~= Seq::<ETypeView>::empty());
    push_of_kind(&all, Kind::String, &mut leaves);
    assert(infer::views(leaves@) =~= of_kind(infer::views(all@), Kind::String));
    push_of_kind(&all, Kind::Int, &mut leaves);
    push_of_kind(&all, Kind::Char, &mut leaves);
    push_of_kind(&all, Kind::Bool, &mut leaves);
    push_of_kind(&all, Kind::NoneType, &mut leaves);
    leaves
}

proof fn lemma_of_kind(leaves: Seq<ETypeView>, kind: Kind)
    ensures
        forall|i: int|
            0 <= i < of_kind(leaves, kind).len() ==> (#[trigger] of_kind(leaves, kind)[i]).kind()
                == Some(kind),
    decreases leaves.len(),
{
    if leaves.len() > 0 {
        lemma_of_kind(leaves.drop_last(), kind);
    }
}

/// Every row of a stack is of a kind that stands no higher than the row above.
pub proof fn law_rows_are_in_order(leaves: Seq<ETypeView>)
    ensures
        forall|i: int|
            0 <= i < stacked(leaves).len() ==> (#[trigger] stacked(leaves)[i]).kind() is Some,
        forall|i: int, j: int|
            0 <= i < j < stacked(leaves).len() ==> order_of(
                (#[trigger] stacked(leaves)[i]).kind()->0,
            ) >= order_of((#[trigger] stacked(leaves)[j]).kind()->0),
{
    lemma_of_kind(leaves, Kind::String);
    lemma_of_kind(leaves, Kind::Int);
    lemma_of_kind(leaves, Kind::Char);
    lemma_of_kind(leaves, Kind::Bool);
    lemma_of_kind(leaves, Kind::NoneType);
}

proof fn lemma_stacked_multiset(leaves: Seq<ETypeView>)
    ensures
        stacked(leaves).to_multiset() == of_kind(leaves, Kind::String).to_multiset().add(
            of_kind(leaves, Kind::Int).to_multiset(),
        ).add(of_kind(leaves, Kind::Char).to_multiset()).add(
            of_kind(leaves, Kind::Bool).to_multiset(),
        ).add(of_kind(leaves, Kind::NoneType).to_multiset()),
{
    let s = of_kind(leaves, Kind::String);
    let i = of_kind(leaves, Kind::Int);
    let c = of_kind(leaves, Kind::Char);
    let b = of_kind(leaves, Kind::Bool);
    let n = of_kind(leaves, Kind::NoneType);
    vstd::seq_lib::lemma_multiset_commutative(s, i);
    vstd::seq_lib::lemma_multiset_commutative(s + i, c);
    vstd::seq_lib::lemma_multiset_commutative(s + i + c, b);
    vstd::seq_lib::lemma_multiset_commutative(s + i + c + b, n);
}

proof fn lemma_stacking_keeps(leaves: Seq<ETypeView>)
    requires
        forall|i: int| 0 <= i < leaves.len() ==> (#[trigger] leaves[i]).kind() is Some,
    ensures
        stacked(leaves).to_multiset() == leaves.to_multiset(),
    decreases leaves.len(),
{
    broadcast use vstd::seq_lib::group_to_multiset_ensures;

    lemma_stacked_multiset(leaves);
    if leaves.len() == 0 {
        assert(stacked(leaves) =~= leaves);
    } else {
        let rest = leaves.drop_last();
        let last = leaves.last();
        assert forall|i: int| 0 <= i < rest.len() implies (#[trigger] rest[i]).kind() is Some by {
            assert(leaves[i].kind() is Some);
        }
        lemma_stacking_keeps(rest);
        lemma_stacked_multiset(rest);
        assert(leaves =~= rest.push(last));
        assert(leaves.to_multiset() =~= rest.to_multiset().insert(last));
        assert(last.kind() is Some);
        assert(stacked(leaves).to_multiset() =~= stacked(rest).to_multiset().insert(last));
    }
}

/// Stacking neither drops a leaf nor adds one: an anchor is as tall as its type
/// has leaves.
pub proof fn law_stacking_keeps_every_leaf(t: ETypeView)
    ensures
        stacked(t.leaves()).to_multiset() == t.leaves().to_multiset(),
        stacked(t.leaves()).len() == t.leaves().len(),
{
    broadcast use vstd::seq_lib::group_to_multiset_ensures;

    infer::lemma_leaves_have_a_kind(t);
    lemma_stacking_keeps(t.leaves());
    assert(stacked(t.leaves()).to_multiset().len() == stacked(t.leaves()).len());
    assert(t.leaves().to_multiset().len() == t.leaves().len());
}

/// The first row of the kind of `taken`.
pub open spec fn landing(rows: Seq<ETypeView>, taken: ETypeView) -> Option<nat>
    decreases rows.len(),
{
    if rows.len() == 0 {
        None
    } else {
        match landing(rows.drop_last(), taken) {
            Some(row) => Some(row),
            None => if rows.last().kind() is Some && rows.last().kind() == taken.kind() {
                Some((rows.len() - 1) as nat)
            } else {
                None
            },
        }
    }
}

/// Rows, each with its own place.
pub open spec fn enumerated(rows: Seq<ETypeView>) -> Seq<(nat, ETypeView)> {
    Seq::new(rows.len(), |i: int| (i as nat, rows[i]))
}

/// The rows an anchor of type `declared` draws once a run has taken `taken`.
pub open spec fn rows_drawn(declared: ETypeView, taken: Option<ETypeView>) -> Seq<
    (nat, ETypeView),
> {
    let rows = stacked(declared.leaves());
    match taken {
        Some(taken) => match landing(rows, taken) {
            Some(row) => seq![(row, taken)],
            None => enumerated(rows),
        },
        None => enumerated(rows),
    }
}

/// The values of a list of rows.
pub open spec fn row_views(rows: Seq<(usize, EType)>) -> Seq<(nat, ETypeView)> {
    rows.map_values(|row: (usize, EType)| (row.0 as nat, row.1@))
}

/// A type, where there is one.
pub open spec fn opt_type(t: Option<EType>) -> Option<ETypeView> {
    match t {
        Some(t) => Some(t@),
        None => None,
    }
}

/// A type that is looked at, where there is one.
pub open spec fn opt_type_ref(t: Option<&EType>) -> Option<ETypeView> {
    match t {
        Some(t) => Some(t@),
        None => None,
    }
}

/// A text that is looked at, where there is one.
pub open spec fn opt_text_ref(text: Option<&String>) -> Option<Seq<char>> {
    match text {
        Some(text) => Some(text@),
        None => None,
    }
}

fn position_of(rows: &Vec<EType>, taken: &EType) -> (at: Option<usize>)
    ensures
        match at {
            Some(at) => landing(infer::views(rows@), taken@) == Some(at as nat),
            None => landing(infer::views(rows@), taken@) is None,
        },
{
    let ghost all = infer::views(rows@);
    let mut i: usize = 0;
    proof {
        infer::lemma_views(rows@);
        assert(all.take(0).len() == 0);
    }
    while i < rows.len()
        invariant
            i <= rows.len(),
            all == infer::views(rows@),
            all.len() == rows.len(),
            landing(all.take(i as int), taken@) is None,
        decreases rows.len() - i,
    {
        proof {
            infer::lemma_views(rows@);
            assert(all.take(i + 1).drop_last() =~= all.take(i as int));
        }
        if infer::types_match(&rows[i], taken) {
            proof {
                lemma_landing_stays(all, taken@, i + 1);
            }
            return Some(i);
        }
        i = i + 1;
    }
    assert(all.take(i as int) =~= all);
    None
}

proof fn lemma_landing_stays(rows: Seq<ETypeView>, taken: ETypeView, len: int)
    requires
        0 <= len <= rows.len(),
        landing(rows.take(len), taken) is Some,
    ensures
        landing(rows, taken) == landing(rows.take(len), taken),
    decreases rows.len(),
{
    if len == rows.len() {
        assert(rows.take(len) =~= rows);
    } else {
        assert(rows.drop_last().take(len) =~= rows.take(len));
        lemma_landing_stays(rows.drop_last(), taken, len);
    }
}

/// The rows an anchor draws, each paired with the row index it owns.
///
/// Without a run these are the leaves of the declared type in stacking order. A
/// run that has reached this anchor drops the rows it did not take: what stays is
/// the row the value landed on, narrowed to the value. The index travels with it
/// rather than being recounted, because the layout reserved the cells for the
/// declared type. A value matching no declared row keeps every row.
pub fn drawn_rows(declared: &EType, taken: Option<&EType>) -> (rows: Vec<(usize, EType)>)
    ensures
        row_views(rows@) == rows_drawn(declared@, opt_type_ref(taken)),
{
    let leaves = ordered_supported_leaves(declared);
    let ghost all = infer::views(leaves@);
    proof {
        infer::lemma_views(leaves@);
    }
    if let Some(taken) = taken {
        if let Some(at) = position_of(&leaves, taken) {
            let mut rows: Vec<(usize, EType)> = Vec::new();
            rows.push((at, taken.clone()));
            assert(row_views(rows@) =~= seq![(at as nat, taken@)]);
            return rows;
        }
    }
    let mut rows: Vec<(usize, EType)> = Vec::new();
    let mut i: usize = 0;
    while i < leaves.len()
        invariant
            i <= leaves.len(),
            all == infer::views(leaves@),
            all.len() == leaves.len(),
            row_views(rows@) =~= enumerated(all).take(i as int),
        decreases leaves.len() - i,
    {
        proof {
            infer::lemma_views(leaves@);
        }
        let ghost before = rows@;
        rows.push((i, leaves[i].clone()));
        assert(row_views(rows@) =~= row_views(before).push((i as nat, all[i as int])));
        i = i + 1;
    }
    assert(enumerated(all).take(i as int) =~= enumerated(all));
    rows
}

proof fn lemma_landing(rows: Seq<ETypeView>, taken: ETypeView)
    ensures
        match landing(rows, taken) {
            Some(row) => {
                &&& row < rows.len()
                &&& rows[row as int].kind() is Some
                &&& rows[row as int].kind() == taken.kind()
                &&& forall|i: int|
                    0 <= i < row ==> (#[trigger] rows[i]).kind() is None || rows[i].kind()
                        != taken.kind()
            },
            None => forall|i: int|
                0 <= i < rows.len() ==> (#[trigger] rows[i]).kind() is None || rows[i].kind()
                    != taken.kind(),
        },
    decreases rows.len(),
{
    if rows.len() > 0 {
        let rest = rows.drop_last();
        lemma_landing(rest, taken);
        assert forall|i: int| 0 <= i < rest.len() implies #[trigger] rows[i] == rest[i] by {}
    }
}

/// A row that stays keeps its place: every drawn row stands where the declared
/// type has a row, and is of that row's kind.
pub proof fn law_rows_keep_their_places(declared: ETypeView, taken: Option<ETypeView>)
    ensures
        forall|i: int|
            0 <= i < rows_drawn(declared, taken).len() ==> {
                let row = #[trigger] rows_drawn(declared, taken)[i];
                &&& row.0 < stacked(declared.leaves()).len()
                &&& row.1.kind() is Some
                &&& row.1.kind() == stacked(declared.leaves())[row.0 as int].kind()
            },
        stacked(declared.leaves()).len() > 0 ==> rows_drawn(declared, taken).len() > 0,
        taken is Some && stacked(declared.leaves()).len() > 0 ==> rows_drawn(declared, taken).len()
            == 1 || rows_drawn(declared, taken) == enumerated(stacked(declared.leaves())),
{
    law_rows_are_in_order(declared.leaves());
    if let Some(taken) = taken {
        lemma_landing(stacked(declared.leaves()), taken);
    }
}

/// The literal a leaf carries: the one it is itself narrowed to, or the one
/// pinned to its anchor. Nothing carries none, because its value is its type.
pub open spec fn value_of(leaf: ETypeView, graph_value: Option<Seq<char>>) -> Option<Seq<char>> {
    if leaf is NoneType {
        None
    } else {
        match leaf.literal() {
            Some(value) => Some(value),
            None => graph_value,
        }
    }
}

/// The literal a leaf carries, if it carries one: the one the leaf itself is
/// narrowed to, or the one pinned to its anchor.
pub fn leaf_value_text(leaf: &EType, graph_value: Option<&String>) -> (value: Option<String>)
    ensures
        text::opt_text(value) == value_of(leaf@, opt_text_ref(graph_value)),
{
    match leaf {
        EType::NoneType => None,
        _ => match infer::leaf_literal(leaf) {
            Some(value) => Some(value.clone()),
            None => match graph_value {
                Some(value) => Some(value.clone()),
                None => None,
            },
        },
    }
}

/// A leaf is drawn as a line.
pub open spec fn is_line(leaf: ETypeView, graph_value: Option<Seq<char>>) -> bool {
    leaf is NoneType || value_of(leaf, graph_value) is Some
}

/// True when a leaf is drawn as a thin line rather than as a band: it is the
/// type whose value is its type, or a literal is pinned to it. Both the strand
/// stack and every ribbon that meets it ask this, of the same leaf, so the two
/// cannot disagree about what shape they are joining.
pub fn leaf_is_drawn_as_line(leaf: &EType, graph_value: Option<&String>) -> (res: bool)
    ensures
        res == is_line(leaf@, opt_text_ref(graph_value)),
{
    match leaf {
        EType::NoneType => true,
        _ => leaf_value_text(leaf, graph_value).is_some(),
    }
}

/// Whether a strand stack writes in words what its shape already says.
#[derive(Clone, Copy, Debug, PartialEq, Eq, Structural)]
pub enum Lettering {
    /// The type's letter across a band, the literal beside a line.
    Spelled,
    /// Neither. Something adjacent has already spelled it.
    Silent,
}

/// The shape of a strand: a band carries a type, a line carries a value.
#[derive(Clone, Copy, Debug, PartialEq, Eq, Structural)]
pub enum StrandShape {
    Band,
    Line,
}

/// Where the writing on a strand stands.
#[derive(Clone, Copy, Debug, PartialEq, Eq, Structural)]
pub enum StrandText {
    /// On the middle of the strand.
    Middle,
    /// Past the tip of the line, where a word of any length has room.
    PastTip,
}

/// One leaf's strand where it passes through an anchor.
pub struct RenderStrand {
    /// The row of the anchor the strand runs on.
    pub row: usize,
    pub shape: StrandShape,
    pub color: StrandColor,
    /// What is written on the strand, and where.
    pub label: Option<(String, StrandText)>,
}

/// The mathematical value of a [`RenderStrand`].
pub struct RenderStrandView {
    pub row: nat,
    pub shape: StrandShape,
    pub color: StrandColor,
    pub label: Option<(Seq<char>, StrandText)>,
}

impl View for RenderStrand {
    type V = RenderStrandView;

    open spec fn view(&self) -> RenderStrandView {
        RenderStrandView {
            row: self.row as nat,
            shape: self.shape,
            color: self.color,
            label: match self.label {
                Some((text, place)) => Some((text@, place)),
                None => None,
            },
        }
    }
}

/// The values of a stack of strands.
pub open spec fn strand_views(strands: Seq<RenderStrand>) -> Seq<RenderStrandView> {
    strands.map_values(|strand: RenderStrand| strand@)
}

/// What is written on a strand that is not silent: a literal past the tip of its
/// line, a type's letter on the middle of the strand.
pub open spec fn writing(leaf: ETypeView, graph_value: Option<Seq<char>>) -> (
    Seq<char>,
    StrandText,
) {
    match value_of(leaf, graph_value) {
        Some(value) => (value, StrandText::PastTip),
        None => (letter_of(leaf), StrandText::Middle),
    }
}

/// The strand of one row.
pub open spec fn strand_of(
    row: (nat, ETypeView),
    graph_value: Option<Seq<char>>,
    lettering: Lettering,
) -> RenderStrandView {
    RenderStrandView {
        row: row.0,
        shape: if is_line(row.1, graph_value) {
            StrandShape::Line
        } else {
            StrandShape::Band
        },
        color: color_of(row.1),
        label: match lettering {
            Lettering::Spelled => Some(writing(row.1, graph_value)),
            Lettering::Silent => None,
        },
    }
}

/// The strands of an anchor.
pub open spec fn strands_of(
    t: ETypeView,
    graph_value: Option<Seq<char>>,
    taken: Option<ETypeView>,
    lettering: Lettering,
) -> Seq<RenderStrandView> {
    rows_drawn(t, taken).map_values(
        |row: (nat, ETypeView)| strand_of(row, graph_value, lettering),
    )
}

fn strand_at(
    row: usize,
    leaf: &EType,
    graph_value: Option<&String>,
    lettering: Lettering,
) -> (strand: RenderStrand)
    ensures
        strand@ == strand_of((row as nat, leaf@), opt_text_ref(graph_value), lettering),
{
    let shape = if leaf_is_drawn_as_line(leaf, graph_value) {
        StrandShape::Line
    } else {
        StrandShape::Band
    };
    let label = match lettering {
        Lettering::Spelled => match leaf_value_text(leaf, graph_value) {
            Some(value) => Some((value, StrandText::PastTip)),
            None => Some((type_letter(leaf).to_owned(), StrandText::Middle)),
        },
        Lettering::Silent => None,
    };
    RenderStrand { row, shape, color: strand_color(leaf), label }
}

/// The stack of strands at an anchor, from its first row downward.
///
/// `graph_value` is the literal on the anchor's type, if any: where there is one,
/// the band is dropped and the leaf is drawn as a thin line plus the literal.
/// `taken` is the row a run settled on.
pub fn build_anchor_strands(
    t: &EType,
    graph_value: Option<&String>,
    taken: Option<&EType>,
    lettering: Lettering,
) -> (strands: Vec<RenderStrand>)
    ensures
        strand_views(strands@) == strands_of(
            t@,
            opt_text_ref(graph_value),
            opt_type_ref(taken),
            lettering,
        ),
{
    let rows = drawn_rows(t, taken);
    let ghost planned = strands_of(t@, opt_text_ref(graph_value), opt_type_ref(taken), lettering);
    let mut strands: Vec<RenderStrand> = Vec::new();
    let mut i: usize = 0;
    while i < rows.len()
        invariant
            i <= rows.len(),
            row_views(rows@) == rows_drawn(t@, opt_type_ref(taken)),
            planned == strands_of(t@, opt_text_ref(graph_value), opt_type_ref(taken), lettering),
            strand_views(strands@) =~= planned.take(i as int),
        decreases rows.len() - i,
    {
        let ghost before = strands@;
        let strand = strand_at(rows[i].0, &rows[i].1, graph_value, lettering);
        proof {
            assert(row_views(rows@)[i as int] == (rows@[i as int].0 as nat, rows@[i as int].1@));
            assert(planned[i as int] == strand@);
            assert(strand_views(before.push(strand)) =~= strand_views(before).push(strand@));
        }
        strands.push(strand);
        i = i + 1;
    }
    assert(planned.take(i as int) =~= planned);
    strands
}

/// A value is drawn as a line and written past its tip; a type is drawn as a band
/// with its letter; and the type whose value is its type is a line with a letter.
pub proof fn law_shape_and_writing(leaf: ETypeView, graph_value: Option<Seq<char>>)
    ensures
        !is_line(leaf, graph_value) ==> writing(leaf, graph_value) == (
            letter_of(leaf),
            StrandText::Middle,
        ),
        leaf is NoneType ==> is_line(leaf, graph_value) && writing(leaf, graph_value) == ("n"@,
            StrandText::Middle,
        ),
        leaf !is NoneType && is_line(leaf, graph_value) ==> writing(leaf, graph_value).1
            == StrandText::PastTip,
        leaf !is NoneType && leaf.literal() is Some ==> writing(leaf, graph_value) == (
            leaf.literal()->0,
            StrandText::PastTip,
        ),
{
}

/// An anchor as it is drawn: its strands, or the neutral sheet.
pub struct RenderAnchor {
    pub strands: Vec<RenderStrand>,
    /// The neutral sheet of an anchor that carries no strands, so that it stays
    /// visible and can be picked.
    pub plain_body: bool,
}

/// The mathematical value of a [`RenderAnchor`].
pub struct RenderAnchorView {
    pub strands: Seq<RenderStrandView>,
    pub plain_body: bool,
}

impl View for RenderAnchor {
    type V = RenderAnchorView;

    open spec fn view(&self) -> RenderAnchorView {
        RenderAnchorView { strands: strand_views(self.strands@), plain_body: self.plain_body }
    }
}

/// A stack of strands, or the neutral sheet where there are none.
pub open spec fn stack_or_sheet(strands: Seq<RenderStrandView>) -> RenderAnchorView {
    RenderAnchorView { strands, plain_body: strands.len() == 0 }
}

/// An anchor nothing is known of.
pub open spec fn idle_anchor() -> RenderAnchorView {
    RenderAnchorView { strands: Seq::empty(), plain_body: true }
}

/// An anchor that carries a type.
pub open spec fn anchor_of(
    t: ETypeView,
    graph_value: Option<Seq<char>>,
    taken: Option<ETypeView>,
    lettering: Lettering,
) -> RenderAnchorView {
    stack_or_sheet(strands_of(t, graph_value, taken, lettering))
}

/// Anchor rendered from an inferred type: a strand stack when the type has
/// leaves, otherwise the neutral sheet. What is undecided has no leaves, so it
/// reads exactly like the unconstrained inputs.
pub fn typed_anchor(
    t: &EType,
    graph_value: Option<&String>,
    taken: Option<&EType>,
    lettering: Lettering,
) -> (anchor: RenderAnchor)
    ensures
        anchor@ == anchor_of(t@, opt_text_ref(graph_value), opt_type_ref(taken), lettering),
{
    let strands = build_anchor_strands(t, graph_value, taken, lettering);
    let plain_body = strands.len() == 0;
    RenderAnchor { strands, plain_body }
}

/// An anchor that shows a type where there is one, and the neutral sheet where
/// there is none.
pub open spec fn shown_anchor(
    t: Option<ETypeView>,
    graph_value: Option<Seq<char>>,
    taken: Option<ETypeView>,
    lettering: Lettering,
) -> RenderAnchorView {
    match t {
        Some(t) => anchor_of(t, graph_value, taken, lettering),
        None => idle_anchor(),
    }
}

/// An anchor that shows a type where there is one, and the neutral sheet where
/// there is none.
pub fn anchor_showing(
    t: Option<&EType>,
    graph_value: Option<&String>,
    taken: Option<&EType>,
    lettering: Lettering,
) -> (anchor: RenderAnchor)
    ensures
        anchor@ == shown_anchor(
            opt_type_ref(t),
            opt_text_ref(graph_value),
            opt_type_ref(taken),
            lettering,
        ),
{
    match t {
        Some(t) => typed_anchor(t, graph_value, taken, lettering),
        None => {
            let strands: Vec<RenderStrand> = Vec::new();
            assert(strand_views(strands@) =~= Seq::<RenderStrandView>::empty());
            RenderAnchor { strands, plain_body: true }
        },
    }
}

/// Something is always drawn of an anchor, and never both the sheet and strands.
pub proof fn law_an_anchor_is_never_empty(
    t: Option<ETypeView>,
    graph_value: Option<Seq<char>>,
    taken: Option<ETypeView>,
    lettering: Lettering,
)
    ensures
        shown_anchor(t, graph_value, taken, lettering).plain_body == (shown_anchor(
            t,
            graph_value,
            taken,
            lettering,
        ).strands.len() == 0),
{
}

/// The type a cell declares, as a type of values; undecided where none has been
/// chosen.
pub open spec fn declared_as(t: Option<etype::ETypeView>) -> ETypeView {
    match t {
        Some(t) => infer::carried(t),
        None => ETypeView::Pending,
    }
}

/// The literal a cell declares.
pub open spec fn declared_literal(t: Option<etype::ETypeView>) -> Option<Seq<char>> {
    declared_as(t).literal()
}

/// A declared type, where there is one.
pub open spec fn opt_declared(t: Option<etype::EType>) -> Option<etype::ETypeView> {
    match t {
        Some(t) => Some(t@),
        None => None,
    }
}

/// The type a cell declares, as a type of values; undecided where none has been
/// chosen.
pub fn declared_type(t: &Option<etype::EType>) -> (res: EType)
    ensures
        res@ == declared_as(opt_declared(*t)),
{
    match t {
        Some(t) => infer::graph_type_to_eval_type(t),
        None => EType::Pending,
    }
}

/// A declared type drawn on a cell the way an input anchor is drawn: the type's
/// band, or its literal's line, and the neutral sheet where no type has been
/// chosen yet. A declared cell says what the program asks for, and a run narrows
/// what arrives, never what was asked.
pub fn declared_type_cell(t: &Option<etype::EType>, lettering: Lettering) -> (cell: RenderAnchor)
    ensures
        cell@ == anchor_of(
            declared_as(opt_declared(*t)),
            declared_literal(opt_declared(*t)),
            None,
            lettering,
        ),
{
    let declared = declared_type(t);
    typed_anchor(&declared, infer::leaf_literal(&declared), None, lettering)
}

/// What a node is called in a list.
pub open spec fn label_of(functions: Map<usize, FunctionDeclaration>, node: ENode) -> Seq<char> {
    match node {
        ENode::Sink { .. } => "sink"@,
        ENode::FunctionCall { function_declaration_id, .. } => {
            functions[function_declaration_id.0].name@
        },
        ENode::Constant { etype, .. } => etype@.spelling(),
        ENode::Source { name, etype, .. } => name@ + ": "@ + (match etype {
            Some(t) => t@.spelling(),
            None => "?"@,
        }),
        ENode::Match { .. } => "match"@,
        ENode::TypeCast { etype, .. } => match etype {
            Some(t) => t@.spelling(),
            None => "?"@,
        },
        ENode::Pattern { etype, .. } => match etype {
            Some(t) => t@.spelling(),
            None => "?"@,
        },
        ENode::BranchSource { .. } => "branch source"@,
        ENode::Tunnel { .. } => "tunnel"@,
        ENode::Root {  } => "root"@,
    }
}

fn type_or_mark(t: &Option<etype::EType>) -> (text: String)
    ensures
        text@ == match *t {
            Some(t) => t@.spelling(),
            None => "?"@,
        },
{
    match t {
        Some(t) => t.spelled(),
        None => "?".to_owned(),
    }
}

/// What a node is called in a list. Where a type has not been chosen yet there
/// is a question mark rather than a type name, because there is no type to name.
pub fn label_for_node(node: &ENode, functions: &HashMap<usize, FunctionDeclaration>) -> (label:
    String)
    requires
        node matches ENode::FunctionCall { function_declaration_id, .. }
            ==> functions@.contains_key(function_declaration_id.0),
    ensures
        label@ == label_of(functions@, *node),
{
    match node {
        ENode::Sink { .. } => "sink".to_owned(),
        ENode::FunctionCall { function_declaration_id, .. } => {
            match functions.get(&function_declaration_id.0) {
                Some(declaration) => declaration.name.clone(),
                None => "?".to_owned(),
            }
        },
        ENode::Constant { etype, .. } => etype.spelled(),
        ENode::Source { name, etype, .. } => name.clone().concat(": ").concat(
            type_or_mark(etype).as_str(),
        ),
        ENode::Match { .. } => "match".to_owned(),
        ENode::TypeCast { etype, .. } => type_or_mark(etype),
        ENode::Pattern { etype, .. } => type_or_mark(etype),
        ENode::BranchSource { .. } => "branch source".to_owned(),
        ENode::Tunnel { .. } => "tunnel".to_owned(),
        ENode::Root {  } => "root".to_owned(),
    }
}

proof fn lemma_of_kind_joined(one: Seq<ETypeView>, other: Seq<ETypeView>, kind: Kind)
    ensures
        of_kind(one + other, kind) == of_kind(one, kind) + of_kind(other, kind),
    decreases other.len(),
{
    if other.len() == 0 {
        assert(one + other =~= one);
        assert(of_kind(one, kind) + of_kind(other, kind) =~= of_kind(one, kind));
    } else {
        let shorter = other.drop_last();
        lemma_of_kind_joined(one, shorter, kind);
        assert((one + other).drop_last() =~= one + shorter);
        assert((one + other).last() == other.last());
        assert(of_kind(one + other, kind) =~= of_kind(one, kind) + of_kind(other, kind));
    }
}

proof fn lemma_of_kind_alone(leaves: Seq<ETypeView>, kind: Kind, wanted: Kind)
    requires
        forall|i: int| 0 <= i < leaves.len() ==> (#[trigger] leaves[i]).kind() == Some(kind),
    ensures
        of_kind(leaves, wanted) == if kind == wanted {
            leaves
        } else {
            Seq::empty()
        },
    decreases leaves.len(),
{
    if leaves.len() > 0 {
        let shorter = leaves.drop_last();
        assert forall|i: int| 0 <= i < shorter.len() implies (#[trigger] shorter[i]).kind() == Some(
            kind,
        ) by {
            assert(leaves[i].kind() == Some(kind));
        }
        lemma_of_kind_alone(shorter, kind, wanted);
        assert(leaves[leaves.len() - 1].kind() == Some(kind));
        assert(shorter.push(leaves.last()) =~= leaves);
    } else {
        assert(of_kind(leaves, wanted) =~= leaves);
    }
}

proof fn lemma_of_kind_again(leaves: Seq<ETypeView>, kind: Kind, wanted: Kind)
    ensures
        of_kind(of_kind(leaves, kind), wanted) == if kind == wanted {
            of_kind(leaves, kind)
        } else {
            Seq::empty()
        },
{
    lemma_of_kind(leaves, kind);
    lemma_of_kind_alone(of_kind(leaves, kind), kind, wanted);
}

/// Strings stand above everything else in a stack, integers above characters,
/// characters above truth values, and the absence of a value at the very bottom.
/// What is of one kind keeps the order it was written in.
pub proof fn law_what_stands_above_what(leaves: Seq<ETypeView>)
    ensures
        forall|i: int, j: int|
            #![trigger stacked(leaves)[i], stacked(leaves)[j]]
            0 <= i < j < stacked(leaves).len() ==> {
                let above = stacked(leaves)[i];
                let below = stacked(leaves)[j];
                &&& below is String ==> above is String
                &&& below is Int ==> above is String || above is Int
                &&& below is Char ==> !(above is Bool || above is NoneType)
                &&& below is Bool ==> !(above is NoneType)
            },
        forall|kind: Kind| #[trigger] of_kind(stacked(leaves), kind) == of_kind(leaves, kind),
{
    lemma_of_kind(leaves, Kind::String);
    lemma_of_kind(leaves, Kind::Int);
    lemma_of_kind(leaves, Kind::Char);
    lemma_of_kind(leaves, Kind::Bool);
    lemma_of_kind(leaves, Kind::NoneType);
    let s = of_kind(leaves, Kind::String);
    let i = of_kind(leaves, Kind::Int);
    let c = of_kind(leaves, Kind::Char);
    let b = of_kind(leaves, Kind::Bool);
    let n = of_kind(leaves, Kind::NoneType);
    assert forall|kind: Kind| #[trigger] of_kind(stacked(leaves), kind) == of_kind(leaves, kind) by {
        lemma_of_kind_joined(s, i, kind);
        lemma_of_kind_joined(s + i, c, kind);
        lemma_of_kind_joined(s + i + c, b, kind);
        lemma_of_kind_joined(s + i + c + b, n, kind);
        lemma_of_kind_again(leaves, Kind::String, kind);
        lemma_of_kind_again(leaves, Kind::Int, kind);
        lemma_of_kind_again(leaves, Kind::Char, kind);
        lemma_of_kind_again(leaves, Kind::Bool, kind);
        lemma_of_kind_again(leaves, Kind::NoneType, kind);
        assert(of_kind(stacked(leaves), kind) =~= of_kind(leaves, kind));
    }
}

/// The letter of a type is the first letter of its name, in lower case.
pub proof fn law_the_letter_begins_the_name(t: ETypeView)
    requires
        t.kind() is Some,
        t.literal() is None,
    ensures
        letter_of(t).len() == 1,
        infer::full_name(t).len() > 0,
        letter_of(t)[0] as int == infer::full_name(t)[0] as int + ('a' as int - 'A' as int),
{
    reveal_strlit("b");
    reveal_strlit("c");
    reveal_strlit("i");
    reveal_strlit("s");
    reveal_strlit("n");
    reveal_strlit("Bool");
    reveal_strlit("Char");
    reveal_strlit("Integer");
    reveal_strlit("String");
    reveal_strlit("None");
}

/// While nothing has run, an anchor draws every leaf of its type, and the places
/// are counted from the top. Once a run has taken a value, the one row that stays
/// is the value itself, on the first row of its kind; a value that is of the kind
/// of no row leaves every row standing.
pub proof fn law_what_a_run_leaves_standing(declared: ETypeView, taken: ETypeView)
    ensures
        rows_drawn(declared, None).len() == declared.leaves().len(),
        forall|i: int|
            0 <= i < declared.leaves().len() ==> (#[trigger] rows_drawn(declared, None)[i]).0 == i,
        forall|kind: Kind|
            of_kind(
                rows_drawn(declared, None).map_values(|row: (nat, ETypeView)| row.1),
                kind,
            ) == #[trigger] of_kind(declared.leaves(), kind),
        (exists|i: int|
            0 <= i < declared.leaves().len() && (#[trigger] declared.leaves()[i]).kind()
                == taken.kind()) ==> {
            let rows = rows_drawn(declared, Some(taken));
            let all = rows_drawn(declared, None);
            &&& rows.len() == 1
            &&& rows[0].1 == taken
            &&& rows[0].0 < all.len()
            &&& all[rows[0].0 as int].1.kind() == taken.kind()
            &&& forall|j: int| 0 <= j < rows[0].0 ==> (#[trigger] all[j]).1.kind() != taken.kind()
        },
        (forall|i: int|
            0 <= i < declared.leaves().len() ==> (#[trigger] declared.leaves()[i]).kind()
                != taken.kind()) ==> rows_drawn(declared, Some(taken)) == rows_drawn(
            declared,
            None,
        ),
{
    let rows = stacked(declared.leaves());
    law_stacking_keeps_every_leaf(declared);
    law_what_stands_above_what(declared.leaves());
    assert(enumerated(rows).map_values(|row: (nat, ETypeView)| row.1) =~= rows);
    lemma_landing(rows, taken);
    law_rows_are_in_order(declared.leaves());
    broadcast use vstd::seq_lib::group_to_multiset_ensures;
    if exists|i: int|
        0 <= i < declared.leaves().len() && (#[trigger] declared.leaves()[i]).kind()
            == taken.kind() {
        let i = choose|i: int|
            0 <= i < declared.leaves().len() && (#[trigger] declared.leaves()[i]).kind()
                == taken.kind();
        let leaf = declared.leaves()[i];
        assert(declared.leaves().contains(leaf));
        assert(declared.leaves().to_multiset().count(leaf) > 0);
        assert(rows.to_multiset().count(leaf) > 0);
        assert(rows.contains(leaf));
        let j = choose|j: int| 0 <= j < rows.len() && rows[j] == leaf;
        assert(rows[j].kind() == taken.kind());
        assert(landing(rows, taken) is Some);
    } else {
        if let Some(row) = landing(rows, taken) {
            let leaf = rows[row as int];
            assert(rows.contains(leaf));
            assert(rows.to_multiset().count(leaf) > 0);
            assert(declared.leaves().to_multiset().count(leaf) > 0);
            assert(declared.leaves().contains(leaf));
            let i = choose|i: int| 0 <= i < declared.leaves().len() && declared.leaves()[i] == leaf;
            assert(declared.leaves()[i].kind() == taken.kind());
        }
    }
}

/// A leaf is a line exactly if it stands for the absence of a value, is narrowed
/// to a literal, or a literal is pinned to its anchor.
pub proof fn law_what_is_a_line(leaf: ETypeView, graph_value: Option<Seq<char>>)
    ensures
        is_line(leaf, graph_value) <==> leaf is NoneType || leaf.literal() is Some || graph_value
            is Some,
{
}

/// An anchor shows one strand for every row it draws: on the row's place, in the
/// row's colour, as a line where the row is one and as a band where it is not. What
/// is written is the row's own literal, or else the one that is pinned to the
/// anchor, or else the letter; where the anchor is silent, nothing is. An anchor
/// without rows is the neutral sheet.
pub proof fn law_what_an_anchor_shows(
    t: ETypeView,
    graph_value: Option<Seq<char>>,
    taken: Option<ETypeView>,
    lettering: Lettering,
)
    ensures
        ({
            let shown = anchor_of(t, graph_value, taken, lettering);
            let rows = rows_drawn(t, taken);
            &&& shown.strands.len() == rows.len()
            &&& shown.plain_body <==> rows.len() == 0
            &&& forall|i: int|
                0 <= i < rows.len() ==> {
                    let strand = #[trigger] shown.strands[i];
                    let leaf = rows[i].1;
                    &&& strand.row == rows[i].0
                    &&& strand.color == color_of(leaf)
                    &&& strand.shape == StrandShape::Line <==> leaf is NoneType || leaf.literal()
                        is Some || graph_value is Some
                    &&& lettering == Lettering::Silent ==> strand.label is None
                    &&& lettering == Lettering::Spelled ==> {
                        &&& leaf is NoneType ==> strand.label == Some(
                            (letter_of(leaf), StrandText::Middle),
                        )
                        &&& leaf.literal() is Some ==> strand.label == Some(
                            (leaf.literal()->0, StrandText::PastTip),
                        )
                        &&& !(leaf is NoneType) && leaf.literal() is None && graph_value is Some
                            ==> strand.label == Some((graph_value->0, StrandText::PastTip))
                        &&& leaf.literal() is None && graph_value is None ==> strand.label == Some(
                            (letter_of(leaf), StrandText::Middle),
                        )
                    }
                }
        }),
        shown_anchor(Some(t), graph_value, taken, lettering) == anchor_of(
            t,
            graph_value,
            taken,
            lettering,
        ),
        shown_anchor(None, graph_value, taken, lettering).strands.len() == 0,
        shown_anchor(None, graph_value, taken, lettering).plain_body,
{
}

/// What a cell declares is what it carries: the same kind and the same literal.
/// A cell that declares nothing carries what is undecided, and has no rows.
pub proof fn law_what_a_cell_declares(t: etype::ETypeView)
    ensures
        t matches etype::ETypeView::Bool(value) ==> declared_as(Some(t)) == ETypeView::Bool(value),
        t matches etype::ETypeView::Int(value) ==> declared_as(Some(t)) == ETypeView::Int(value),
        t matches etype::ETypeView::String(value) ==> declared_as(Some(t)) == ETypeView::String(
            value,
        ),
        t matches etype::ETypeView::Char(value) ==> declared_as(Some(t)) == ETypeView::Char(value),
        t is NoneType ==> declared_as(Some(t)) == ETypeView::NoneType,
        declared_as(Some(t)).leaves() == seq![declared_as(Some(t))],
        declared_literal(Some(t)) == declared_as(Some(t)).literal(),
        declared_as(None).leaves().len() == 0,
        declared_literal(None) is None,
{
}

/// A node is listed by what tells it apart: a call by its function, a constant, a
/// cast and an arm by the type or literal they hold, and a Source by its name and
/// its type. What has no type yet is listed with a question mark.
pub proof fn law_what_a_node_is_listed_by(functions: Map<usize, FunctionDeclaration>, node: ENode)
    ensures
        node matches ENode::FunctionCall { function_declaration_id, .. } ==> label_of(
            functions,
            node,
        ) == functions[function_declaration_id.0]@.name,
        node matches ENode::Constant { etype, .. } ==> label_of(functions, node)
            == etype@.spelling(),
        node matches ENode::TypeCast { etype: Some(t), .. } ==> label_of(functions, node)
            == t@.spelling(),
        node matches ENode::Pattern { etype: Some(t), .. } ==> label_of(functions, node)
            == t@.spelling(),
        node matches ENode::TypeCast { etype: None, .. } ==> label_of(functions, node) == seq!['?'],
        node matches ENode::Pattern { etype: None, .. } ==> label_of(functions, node) == seq!['?'],
        node matches ENode::Source { name, etype: Some(t), .. } ==> label_of(functions, node)
            == name@ + seq![':', ' '] + t@.spelling(),
        node matches ENode::Source { name, etype: None, .. } ==> label_of(functions, node)
            == name@ + seq![':', ' ', '?'],
{
    reveal_strlit("?");
    reveal_strlit(": ");
    assert("?"@ =~= seq!['?']);
    assert(": "@ =~= seq![':', ' ']);
    if let ENode::Source { name, etype: None, .. } = node {
        assert(label_of(functions, node) =~= name@ + seq![':', ' ', '?']);
    }
}

} // verus!
