//! The ribbons between anchors: the edges a user wires, and the connections that
//! a Match and a cast are made of.

use crate::infer::{self, EType, ETypeView};
use crate::model::anchor;
use crate::model::etype;
use crate::model::node::{self, ENode};
use crate::render::node::{AnchorFacts, AnchorFactsView};
use crate::render::{self, StrandColor};
use std::collections::{HashMap, HashSet};
use vstd::prelude::*;

verus! {

broadcast use vstd::std_specs::hash::group_hash_axioms;

/// The share of a row that a ribbon takes, in halves of the row from its upper
/// edge. A share of no height is a line.
#[derive(Clone, Copy, Debug, PartialEq, Eq, Structural)]
pub struct RowSpan {
    pub top: u8,
    pub bottom: u8,
}

/// One end of a ribbon: the row it meets, the share of the row it takes, and
/// whether it is a line there.
#[derive(Clone, Copy, Debug, PartialEq, Eq, Structural)]
pub struct RibbonEnd {
    pub row: usize,
    pub span: RowSpan,
    pub as_line: bool,
}

/// A ribbon. Its two ends may wear different shapes and, where it is a
/// conversion, different colours.
#[derive(Clone, Copy, Debug, PartialEq, Eq, Structural)]
pub enum Ribbon {
    /// The connection is there, the type that would colour it is not.
    Pending { start: RibbonEnd, end: RibbonEnd },
    Strand { start_color: StrandColor, end_color: StrandColor, start: RibbonEnd, end: RibbonEnd },
}

/// The whole of a row.
pub open spec fn whole_span() -> RowSpan {
    RowSpan { top: 0, bottom: 2 }
}

/// An end that takes a whole row.
pub open spec fn whole_row(row: nat, as_line: bool) -> RibbonEnd {
    RibbonEnd { row: row as usize, span: whole_span(), as_line }
}

/// An end that takes a share of a row.
pub open spec fn part_of_row(row: nat, span: RowSpan, as_line: bool) -> RibbonEnd {
    RibbonEnd { row: row as usize, span, as_line }
}

/// An end that takes a whole row: what a strand wears where nothing narrower has
/// been said about it.
pub fn whole_row_end(row: usize, as_line: bool) -> (end: RibbonEnd)
    ensures
        end == whole_row(row as nat, as_line),
{
    RibbonEnd { row, span: RowSpan { top: 0, bottom: 2 }, as_line }
}

/// The rows of the type that arrives at an anchor.
pub open spec fn rows_arriving(facts: AnchorFactsView) -> Seq<(nat, ETypeView)> {
    match facts.incoming_type {
        Some(t) => render::rows_drawn(t, facts.at_input),
        None => Seq::empty(),
    }
}

/// The rows of the type an anchor hands out.
pub open spec fn rows_leaving(facts: AnchorFactsView) -> Seq<(nat, ETypeView)> {
    render::rows_drawn(render::node::or_pending(facts.anchor_type), facts.at_output)
}

/// The rows of the type that arrives at an anchor, as the anchor draws them.
pub fn arriving_rows(facts: &AnchorFacts) -> (rows: Vec<(usize, EType)>)
    ensures
        render::row_views(rows@) == rows_arriving(facts@),
{
    match &facts.incoming_type {
        Some(t) => render::drawn_rows(t, facts.at_input.as_ref()),
        None => {
            let rows: Vec<(usize, EType)> = Vec::new();
            assert(render::row_views(rows@) =~= Seq::<(nat, ETypeView)>::empty());
            rows
        },
    }
}

/// The rows of the type an anchor hands out, as the anchor draws them.
pub fn leaving_rows(facts: &AnchorFacts) -> (rows: Vec<(usize, EType)>)
    ensures
        render::row_views(rows@) == rows_leaving(facts@),
{
    match &facts.anchor_type {
        Some(t) => render::drawn_rows(t, facts.at_output.as_ref()),
        None => render::drawn_rows(&EType::Pending, facts.at_output.as_ref()),
    }
}

/// A strand of one colour.
pub open spec fn strand(leaf: ETypeView, start: RibbonEnd, end: RibbonEnd) -> Ribbon {
    Ribbon::Strand {
        start_color: render::color_of(leaf),
        end_color: render::color_of(leaf),
        start,
        end,
    }
}

/// The place of the first row that admits `leaf`; the anchor's own row where none
/// does.
pub open spec fn accepting_row(rows: Seq<(nat, ETypeView)>, leaf: ETypeView) -> nat
    decreases rows.len(),
{
    if rows.len() == 0 {
        0
    } else if infer::admits(rows[0].1, leaf) {
        rows[0].0
    } else {
        accepting_row(rows.drop_first(), leaf)
    }
}

/// The rows at the target of an edge. A target that constrains nothing is as
/// tall as what arrives, and the run's narrowing reaches it too.
pub open spec fn rows_of_target(
    target: AnchorFactsView,
    taken: Option<ETypeView>,
) -> Seq<(nat, ETypeView)> {
    match target.anchor_type {
        Some(t) => render::rows_drawn(t, taken),
        None => match target.incoming_type {
            Some(t) => render::rows_drawn(t, taken),
            None => Seq::empty(),
        },
    }
}

/// The strand of one row of an edge.
pub open spec fn edge_strand(
    row: (nat, ETypeView),
    value: Option<Seq<char>>,
    target_rows: Seq<(nat, ETypeView)>,
) -> Ribbon {
    let as_line = render::is_line(row.1, value);
    strand(
        row.1,
        whole_row(row.0, as_line),
        whole_row(accepting_row(target_rows, row.1), as_line),
    )
}

/// The ribbons of an edge.
pub open spec fn ribbons_of_edge(source: AnchorFactsView, target: AnchorFactsView) -> Seq<Ribbon> {
    let rows = rows_leaving(source);
    if rows.len() == 0 {
        seq![Ribbon::Pending { start: whole_row(0, false), end: whole_row(0, false) }]
    } else {
        rows.map_values(
            |row: (nat, ETypeView)|
                edge_strand(
                    row,
                    source.anchor_literal,
                    rows_of_target(target, source.at_output),
                ),
        )
    }
}

fn target_rows_of(target: &AnchorFacts, taken: Option<&EType>) -> (rows: Vec<(usize, EType)>)
    ensures
        render::row_views(rows@) == rows_of_target(target@, render::opt_type_ref(taken)),
{
    match &target.anchor_type {
        Some(t) => render::drawn_rows(t, taken),
        None => match &target.incoming_type {
            Some(t) => render::drawn_rows(t, taken),
            None => {
                let rows: Vec<(usize, EType)> = Vec::new();
                assert(render::row_views(rows@) =~= Seq::<(nat, ETypeView)>::empty());
                rows
            },
        },
    }
}

fn find_accepting(rows: &Vec<(usize, EType)>, leaf: &EType) -> (row: usize)
    ensures
        row == accepting_row(render::row_views(rows@), leaf@),
{
    let ghost all = render::row_views(rows@);
    let mut i: usize = 0;
    assert(all.skip(0) =~= all);
    while i < rows.len()
        invariant
            i <= rows.len(),
            all == render::row_views(rows@),
            accepting_row(all, leaf@) == accepting_row(all.skip(i as int), leaf@),
        decreases rows.len() - i,
    {
        proof {
            assert(all.skip(i as int)[0] == (rows@[i as int].0 as nat, rows@[i as int].1@));
            assert(all.skip(i as int).drop_first() =~= all.skip(i + 1));
        }
        if infer::subsumes(&rows[i].1, leaf) {
            return rows[i].0;
        }
        i = i + 1;
    }
    assert(all.skip(i as int).len() == 0);
    0
}

/// The ribbons of an edge between two anchors.
///
/// Each row of the source has its strand, on the row of the target that admits
/// it. A source type with no rows leaves no row for a strand to run along, and is
/// drawn all the same: what is undecided is the type, not the wiring.
pub fn edge_ribbons(source: &AnchorFacts, target: &AnchorFacts) -> (ribbons: Vec<Ribbon>)
    ensures
        ribbons@ == ribbons_of_edge(source@, target@),
{
    let rows = leaving_rows(source);
    let mut ribbons: Vec<Ribbon> = Vec::new();
    if rows.len() == 0 {
        ribbons.push(
            Ribbon::Pending { start: whole_row_end(0, false), end: whole_row_end(0, false) },
        );
        assert(ribbons@ =~= ribbons_of_edge(source@, target@));
        return ribbons;
    }
    let targets = target_rows_of(target, source.at_output.as_ref());
    let value = source.anchor_literal.as_ref();
    let ghost planned = ribbons_of_edge(source@, target@);
    let mut i: usize = 0;
    while i < rows.len()
        invariant
            i <= rows.len(),
            rows.len() > 0,
            render::row_views(rows@) == rows_leaving(source@),
            render::row_views(targets@) == rows_of_target(target@, source@.at_output),
            render::opt_text_ref(value) == source@.anchor_literal,
            planned == ribbons_of_edge(source@, target@),
            ribbons@ =~= planned.take(i as int),
        decreases rows.len() - i,
    {
        let leaf = &rows[i].1;
        let as_line = render::leaf_is_drawn_as_line(leaf, value);
        let color = render::strand_color(leaf);
        let landing: usize = find_accepting(&targets, leaf);
        let ribbon = Ribbon::Strand {
            start_color: color,
            end_color: color,
            start: whole_row_end(rows[i].0, as_line),
            end: whole_row_end(landing, as_line),
        };
        proof {
            assert(render::row_views(rows@)[i as int] == (
                rows@[i as int].0 as nat,
                rows@[i as int].1@,
            ));
            assert(planned[i as int] == ribbon);
        }
        ribbons.push(ribbon);
        i = i + 1;
    }
    assert(planned.take(i as int) =~= planned);
    ribbons
}

/// An edge is always drawn.
pub proof fn law_every_edge_is_drawn(source: AnchorFactsView, target: AnchorFactsView)
    ensures
        ribbons_of_edge(source, target).len() > 0,
{
}

/// A strand and the row it leaves cannot come apart: an edge has a ribbon for
/// every strand its source shows, on the strand's row, in the strand's colour and
/// shape.
pub proof fn law_ribbons_continue_the_strands(source: AnchorFactsView, target: AnchorFactsView)
    ensures
        ({
            let shown = render::node::own_output(source);
            let ribbons = ribbons_of_edge(source, target);
            &&& shown.plain_body ==> ribbons.len() == 1 && ribbons[0] is Pending
            &&& !shown.plain_body ==> ribbons.len() == shown.strands.len() && forall|i: int|
                0 <= i < ribbons.len() ==> match #[trigger] ribbons[i] {
                    Ribbon::Strand { start_color, end_color, start, end } => {
                        &&& start_color == shown.strands[i].color
                        &&& end_color == shown.strands[i].color
                        &&& start.row == shown.strands[i].row as usize
                        &&& start.as_line == (shown.strands[i].shape == render::StrandShape::Line)
                        &&& end.as_line == start.as_line
                    },
                    Ribbon::Pending { .. } => false,
                }
        }),
{
}

/// A cell that declares a type is a line.
pub open spec fn cell_is_line(declared: Option<etype::ETypeView>) -> bool {
    match declared {
        Some(t) => render::is_line(infer::carried(t), infer::carried(t).literal()),
        None => false,
    }
}

fn declared_is_line(declared: &Option<etype::EType>) -> (res: bool)
    ensures
        res == cell_is_line(render::opt_declared(*declared)),
{
    match declared {
        Some(t) => {
            let leaf = infer::graph_type_to_eval_type(t);
            render::leaf_is_drawn_as_line(&leaf, infer::leaf_literal(&leaf))
        },
        None => false,
    }
}

/// What one row that arrives at a Match sends to an arm: its share, where the arm
/// can describe it; nothing where it never can; and a pending band where the arm
/// has not said yet what it describes.
pub open spec fn arm_ribbon(
    row: (nat, ETypeView),
    value: Option<Seq<char>>,
    declared: Option<etype::ETypeView>,
    span: Option<RowSpan>,
) -> Seq<Ribbon> {
    let row_is_line = render::is_line(row.1, value);
    match declared {
        None => seq![
            Ribbon::Pending {
                start: whole_row(row.0, row_is_line),
                end: whole_row(0, cell_is_line(declared)),
            },
        ],
        Some(_) => match span {
            Some(span) => seq![
                strand(
                    row.1,
                    part_of_row(row.0, span, row_is_line),
                    whole_row(0, cell_is_line(declared)),
                ),
            ],
            None => Seq::empty(),
        },
    }
}

/// The ribbons from the input of a Match to one of its arms.
pub open spec fn ribbons_to_arm(
    input: AnchorFactsView,
    declared: Option<etype::ETypeView>,
    spans: Seq<Option<RowSpan>>,
) -> Seq<Ribbon> {
    let rows = rows_arriving(input);
    if rows.len() == 0 {
        seq![
            Ribbon::Pending {
                start: whole_row(0, false),
                end: whole_row(0, cell_is_line(declared)),
            },
        ]
    } else {
        render::gathered(
            |i: int| arm_ribbon(rows[i], input.incoming_literal, declared, spans[i]),
            rows.len(),
        )
    }
}

/// The ribbons from the input of a Match to one of its arms: every row the arm
/// can describe has a strand that claims the share the arm takes. `spans` has
/// the share of each arriving row, in their order, and `None` for a row that the
/// arm can never describe.
pub fn declared_cell_links(
    input: &AnchorFacts,
    declared: &Option<etype::EType>,
    spans: &Vec<Option<RowSpan>>,
) -> (ribbons: Vec<Ribbon>)
    requires
        spans.len() == rows_arriving(input@).len(),
    ensures
        ribbons@ == ribbons_to_arm(input@, render::opt_declared(*declared), spans@),
{
    let rows = arriving_rows(input);
    let value = input.incoming_literal.as_ref();
    let is_line = declared_is_line(declared);
    let mut ribbons: Vec<Ribbon> = Vec::new();
    if rows.len() == 0 {
        ribbons.push(
            Ribbon::Pending { start: whole_row_end(0, false), end: whole_row_end(0, is_line) },
        );
        assert(ribbons@ =~= ribbons_to_arm(input@, render::opt_declared(*declared), spans@));
        return ribbons;
    }
    let ghost arriving = rows_arriving(input@);
    let ghost named = render::opt_declared(*declared);
    let ghost f = |i: int| arm_ribbon(arriving[i], input@.incoming_literal, named, spans@[i]);
    let mut i: usize = 0;
    while i < rows.len()
        invariant
            i <= rows.len(),
            spans.len() == rows.len(),
            arriving == render::row_views(rows@),
            render::opt_text_ref(value) == input@.incoming_literal,
            named == render::opt_declared(*declared),
            is_line == cell_is_line(named),
            f == (|i: int| arm_ribbon(arriving[i], input@.incoming_literal, named, spans@[i])),
            ribbons@ =~= render::gathered(f, i as nat),
        decreases rows.len() - i,
    {
        let ghost before = ribbons@;
        let leaf = &rows[i].1;
        let row_is_line = render::leaf_is_drawn_as_line(leaf, value);
        proof {
            assert(arriving[i as int] == (rows@[i as int].0 as nat, rows@[i as int].1@));
            assert(render::gathered(f, (i + 1) as nat) == render::gathered(f, i as nat) + f(i as int));
        }
        match declared {
            None => {
                ribbons.push(
                    Ribbon::Pending {
                        start: whole_row_end(rows[i].0, row_is_line),
                        end: whole_row_end(0, is_line),
                    },
                );
            },
            Some(_) => if let Some(span) = spans[i] {
                let color = render::strand_color(leaf);
                ribbons.push(
                    Ribbon::Strand {
                        start_color: color,
                        end_color: color,
                        start: RibbonEnd { row: rows[i].0, span, as_line: row_is_line },
                        end: whole_row_end(0, is_line),
                    },
                );
            },
        }
        assert(ribbons@ =~= before + f(i as int));
        i = i + 1;
    }
    ribbons
}

/// What one row of a branch's result sends to one row of the output.
pub open spec fn landing_ribbon(
    row: (nat, ETypeView),
    value: Option<Seq<char>>,
    out: (nat, ETypeView),
    span: Option<RowSpan>,
) -> Seq<Ribbon> {
    match span {
        Some(span) => seq![
            strand(
                row.1,
                part_of_row(row.0, span, render::is_line(row.1, value)),
                part_of_row(out.0, span, render::is_line(out.1, None)),
            ),
        ],
        None => Seq::empty(),
    }
}

/// What one row of a branch's result sends to the output: a share to every row
/// that it lands on, and the whole of it to the anchor's own row while the output
/// has not decided what it is.
pub open spec fn result_ribbons(
    row: (nat, ETypeView),
    value: Option<Seq<char>>,
    outs: Seq<(nat, ETypeView)>,
    spans: Seq<Option<RowSpan>>,
) -> Seq<Ribbon> {
    let as_line = render::is_line(row.1, value);
    if outs.len() == 0 {
        seq![strand(row.1, whole_row(row.0, as_line), whole_row(0, as_line))]
    } else {
        render::gathered(|j: int| landing_ribbon(row, value, outs[j], spans[j]), outs.len())
    }
}

/// The ribbons from the Sink of a branch to the output of its Match.
pub open spec fn ribbons_from_branch(
    sink: AnchorFactsView,
    output: AnchorFactsView,
    spans: Seq<Seq<Option<RowSpan>>>,
) -> Seq<Ribbon> {
    let rows = rows_arriving(sink);
    let outs = rows_leaving(output);
    if rows.len() == 0 {
        seq![Ribbon::Pending { start: whole_row(0, false), end: whole_row(0, false) }]
    } else {
        render::gathered(
            |i: int| result_ribbons(rows[i], sink.incoming_literal, outs, spans[i]),
            rows.len(),
        )
    }
}

/// The values of a table of shares.
pub open spec fn span_rows(spans: Seq<Vec<Option<RowSpan>>>) -> Seq<Seq<Option<RowSpan>>> {
    spans.map_values(|row: Vec<Option<RowSpan>>| row@)
}

fn links_of_result(
    row: &(usize, EType),
    value: Option<&String>,
    outs: &Vec<(usize, EType)>,
    spans: &Vec<Option<RowSpan>>,
) -> (ribbons: Vec<Ribbon>)
    requires
        spans.len() == outs.len(),
    ensures
        ribbons@ == result_ribbons(
            (row.0 as nat, row.1@),
            render::opt_text_ref(value),
            render::row_views(outs@),
            spans@,
        ),
{
    let leaf = &row.1;
    let as_line = render::leaf_is_drawn_as_line(leaf, value);
    let color = render::strand_color(leaf);
    let mut ribbons: Vec<Ribbon> = Vec::new();
    let ghost from = (row.0 as nat, row.1@);
    let ghost to = render::row_views(outs@);
    let ghost text = render::opt_text_ref(value);
    if outs.len() == 0 {
        ribbons.push(
            Ribbon::Strand {
                start_color: color,
                end_color: color,
                start: whole_row_end(row.0, as_line),
                end: whole_row_end(0, as_line),
            },
        );
        assert(ribbons@ =~= result_ribbons(from, text, to, spans@));
        return ribbons;
    }
    let ghost f = |j: int| landing_ribbon(from, text, to[j], spans@[j]);
    let mut j: usize = 0;
    while j < outs.len()
        invariant
            j <= outs.len(),
            spans.len() == outs.len(),
            from == (row.0 as nat, row.1@),
            to == render::row_views(outs@),
            color == render::color_of(from.1),
            as_line == render::is_line(from.1, text),
            f == (|j: int| landing_ribbon(from, text, to[j], spans@[j])),
            ribbons@ =~= render::gathered(f, j as nat),
        decreases outs.len() - j,
    {
        let ghost before = ribbons@;
        proof {
            assert(to[j as int] == (outs@[j as int].0 as nat, outs@[j as int].1@));
            assert(render::gathered(f, (j + 1) as nat) == render::gathered(f, j as nat) + f(j as int));
        }
        if let Some(span) = spans[j] {
            let out_is_line = render::leaf_is_drawn_as_line(&outs[j].1, None);
            ribbons.push(
                Ribbon::Strand {
                    start_color: color,
                    end_color: color,
                    start: RibbonEnd { row: row.0, span, as_line },
                    end: RibbonEnd { row: outs[j].0, span, as_line: out_is_line },
                },
            );
        }
        assert(ribbons@ =~= before + f(j as int));
        j = j + 1;
    }
    ribbons
}

/// The ribbons from the Sink of a branch to the output of its Match. `spans` has,
/// for each row of the branch's result, the share it takes of each row of the
/// output.
pub fn branch_links(
    sink: &AnchorFacts,
    output: &AnchorFacts,
    spans: &Vec<Vec<Option<RowSpan>>>,
) -> (ribbons: Vec<Ribbon>)
    requires
        spans.len() == rows_arriving(sink@).len(),
        forall|i: int|
            0 <= i < spans.len() ==> (#[trigger] spans@[i]).len() == rows_leaving(output@).len(),
    ensures
        ribbons@ == ribbons_from_branch(sink@, output@, span_rows(spans@)),
{
    let rows = arriving_rows(sink);
    let outs = leaving_rows(output);
    let value = sink.incoming_literal.as_ref();
    let mut ribbons: Vec<Ribbon> = Vec::new();
    if rows.len() == 0 {
        ribbons.push(
            Ribbon::Pending { start: whole_row_end(0, false), end: whole_row_end(0, false) },
        );
        assert(ribbons@ =~= ribbons_from_branch(sink@, output@, span_rows(spans@)));
        return ribbons;
    }
    let ghost from = render::row_views(rows@);
    let ghost to = render::row_views(outs@);
    let ghost shares = span_rows(spans@);
    let ghost f = |i: int| result_ribbons(from[i], sink@.incoming_literal, to, shares[i]);
    let mut i: usize = 0;
    while i < rows.len()
        invariant
            i <= rows.len(),
            spans.len() == rows.len(),
            forall|k: int| 0 <= k < spans.len() ==> (#[trigger] spans@[k]).len() == outs.len(),
            from == render::row_views(rows@),
            to == render::row_views(outs@),
            shares == span_rows(spans@),
            render::opt_text_ref(value) == sink@.incoming_literal,
            f == (|i: int| result_ribbons(from[i], sink@.incoming_literal, to, shares[i])),
            ribbons@ =~= render::gathered(f, i as nat),
        decreases rows.len() - i,
    {
        let ghost before = ribbons@;
        let mut more = links_of_result(&rows[i], value, &outs, &spans[i]);
        proof {
            assert(from[i as int] == (rows@[i as int].0 as nat, rows@[i as int].1@));
            assert(shares[i as int] == spans@[i as int]@);
            assert(render::gathered(f, (i + 1) as nat) == render::gathered(f, i as nat) + f(i as int));
        }
        ribbons.append(&mut more);
        assert(ribbons@ =~= before + f(i as int));
        i = i + 1;
    }
    ribbons
}

/// The rows a branch's result has leave it whole, in the branch's own colour,
/// even while the union of all branches is undecided: a branch is not blanked by
/// a sibling.
pub proof fn law_a_branch_is_not_blanked(
    sink: AnchorFactsView,
    output: AnchorFactsView,
    spans: Seq<Seq<Option<RowSpan>>>,
)
    requires
        rows_leaving(output).len() == 0,
    ensures
        ribbons_from_branch(sink, output, spans).len() > 0,
        rows_arriving(sink).len() > 0 ==> ribbons_from_branch(sink, output, spans).len()
            == rows_arriving(sink).len() && forall|i: int|
            0 <= i < rows_arriving(sink).len() ==> #[trigger] ribbons_from_branch(
                sink,
                output,
                spans,
            )[i] == strand(
                rows_arriving(sink)[i].1,
                whole_row(
                    rows_arriving(sink)[i].0,
                    render::is_line(rows_arriving(sink)[i].1, sink.incoming_literal),
                ),
                whole_row(
                    0,
                    render::is_line(rows_arriving(sink)[i].1, sink.incoming_literal),
                ),
            ),
{
    let rows = rows_arriving(sink);
    let outs = rows_leaving(output);
    let f = |i: int| result_ribbons(rows[i], sink.incoming_literal, outs, spans[i]);
    assert forall|i: int| #[trigger] f(i) == seq![
        strand(
            rows[i].1,
            whole_row(rows[i].0, render::is_line(rows[i].1, sink.incoming_literal)),
            whole_row(0, render::is_line(rows[i].1, sink.incoming_literal)),
        ),
    ] by {}
    lemma_gathered_singles(f, rows.len());
}

proof fn lemma_gathered_singles<A>(f: spec_fn(int) -> Seq<A>, n: nat)
    requires
        forall|i: int| (#[trigger] f(i)).len() == 1,
    ensures
        render::gathered(f, n).len() == n,
        forall|i: int| 0 <= i < n ==> #[trigger] render::gathered(f, n)[i] == f(i)[0],
    decreases n,
{
    if n > 0 {
        lemma_gathered_singles(f, (n - 1) as nat);
        let before = render::gathered(f, (n - 1) as nat);
        assert forall|i: int| 0 <= i < n implies #[trigger] render::gathered(f, n)[i] == f(i)[0] by {
            if i < n - 1 {
                assert(render::gathered(f, n)[i] == before[i]);
            } else {
                assert(f(n - 1).len() == 1);
                assert(render::gathered(f, n)[i] == f(n - 1)[0]);
            }
        }
    }
}

/// An arm that cannot describe a row gets nothing of it, and the gap is the
/// statement; an arm that has not said what it describes gets a pending band of
/// every row.
pub proof fn law_what_reaches_an_arm(
    input: AnchorFactsView,
    declared: Option<etype::ETypeView>,
    spans: Seq<Option<RowSpan>>,
)
    requires
        rows_arriving(input).len() > 0,
        spans.len() == rows_arriving(input).len(),
    ensures
        declared is None ==> ribbons_to_arm(input, declared, spans).len() == rows_arriving(
            input,
        ).len() && forall|i: int|
            0 <= i < rows_arriving(input).len() ==> #[trigger] ribbons_to_arm(
                input,
                declared,
                spans,
            )[i] is Pending,
        declared is Some && (forall|i: int| 0 <= i < spans.len() ==> #[trigger] spans[i] is None)
            ==> ribbons_to_arm(input, declared, spans).len() == 0,
{
    let rows = rows_arriving(input);
    let f = |i: int| arm_ribbon(rows[i], input.incoming_literal, declared, spans[i]);
    if declared is None {
        assert forall|i: int| (#[trigger] f(i)).len() == 1 && f(i)[0] is Pending by {}
        lemma_gathered_singles(f, rows.len());
    } else if forall|i: int| 0 <= i < spans.len() ==> #[trigger] spans[i] is None {
        assert forall|i: int| 0 <= i < rows.len() implies (#[trigger] f(i)).len() == 0 by {
            assert(spans[i] is None);
        }
        lemma_gathered_nothing(f, rows.len());
    }
}

proof fn lemma_gathered_nothing<A>(f: spec_fn(int) -> Seq<A>, n: nat)
    requires
        forall|i: int| 0 <= i < n ==> (#[trigger] f(i)).len() == 0,
    ensures
        render::gathered(f, n).len() == 0,
    decreases n,
{
    if n > 0 {
        lemma_gathered_nothing(f, (n - 1) as nat);
        assert(f(n - 1).len() == 0);
    }
}

/// Where the items of a gathered list come from, if no place gives more than
/// one: `from` names the places that give one, in their order.
proof fn lemma_gathered_once<A>(f: spec_fn(int) -> Seq<A>, n: nat) -> (from: Seq<int>)
    requires
        forall|i: int| 0 <= i < n ==> (#[trigger] f(i)).len() <= 1,
    ensures
        from.len() == render::gathered(f, n).len(),
        forall|k: int, l: int| 0 <= k < l < from.len() ==> from[k] < from[l],
        forall|k: int|
            0 <= k < from.len() ==> {
                &&& 0 <= #[trigger] from[k] < n
                &&& f(from[k]).len() == 1
                &&& render::gathered(f, n)[k] == f(from[k])[0]
            },
        forall|i: int| 0 <= i < n && (#[trigger] f(i)).len() == 1 ==> from.contains(i),
    decreases n,
{
    if n == 0 {
        Seq::empty()
    } else {
        let m = (n - 1) as nat;
        let before = lemma_gathered_once(f, m);
        assert(f(n - 1).len() <= 1);
        if f(n - 1).len() == 1 {
            let from = before.push(n - 1);
            assert forall|k: int| 0 <= k < from.len() implies {
                &&& 0 <= #[trigger] from[k] < n
                &&& f(from[k]).len() == 1
                &&& render::gathered(f, n)[k] == f(from[k])[0]
            } by {
                if k < before.len() {
                    assert(from[k] == before[k]);
                }
            }
            assert forall|i: int| 0 <= i < n && (#[trigger] f(i)).len() == 1 implies from.contains(
                i,
            ) by {
                if i < m {
                    assert(before.contains(i));
                    let k = choose|k: int| 0 <= k < before.len() && before[k] == i;
                    assert(from[k] == i);
                } else {
                    assert(from[before.len() as int] == i);
                }
            }
            from
        } else {
            assert(render::gathered(f, n) =~= render::gathered(f, m));
            before
        }
    }
}

/// The same for a list that is gathered row by row, from a table with `n` rows
/// of `m` places: `from` names the places that give an item.
proof fn lemma_gathered_table<A>(
    f: spec_fn(int) -> Seq<A>,
    g: spec_fn(int) -> spec_fn(int) -> Seq<A>,
    n: nat,
    m: nat,
) -> (from: Seq<(int, int)>)
    requires
        forall|i: int| 0 <= i < n ==> #[trigger] f(i) == render::gathered(g(i), m),
        forall|i: int, j: int| 0 <= i < n && 0 <= j < m ==> (#[trigger] g(i)(j)).len() <= 1,
    ensures
        from.len() == render::gathered(f, n).len(),
        from.no_duplicates(),
        forall|k: int|
            0 <= k < from.len() ==> {
                &&& 0 <= (#[trigger] from[k]).0 < n
                &&& 0 <= from[k].1 < m
                &&& g(from[k].0)(from[k].1).len() == 1
                &&& render::gathered(f, n)[k] == g(from[k].0)(from[k].1)[0]
            },
        forall|i: int, j: int|
            0 <= i < n && 0 <= j < m && (#[trigger] g(i)(j)).len() == 1 ==> from.contains((i, j)),
    decreases n,
{
    if n == 0 {
        Seq::empty()
    } else {
        let last = n - 1;
        let before = lemma_gathered_table(f, g, last as nat, m);
        assert forall|j: int| 0 <= j < m implies (#[trigger] g(last)(j)).len() <= 1 by {}
        let row = lemma_gathered_once(g(last), m);
        let here = row.map_values(|j: int| (last, j));
        let from = before + here;
        assert(f(last) == render::gathered(g(last), m));
        assert forall|k: int| 0 <= k < from.len() implies {
            &&& 0 <= (#[trigger] from[k]).0 < n
            &&& 0 <= from[k].1 < m
            &&& g(from[k].0)(from[k].1).len() == 1
            &&& render::gathered(f, n)[k] == g(from[k].0)(from[k].1)[0]
        } by {
            if k < before.len() {
                assert(from[k] == before[k]);
                assert(render::gathered(f, n)[k] == render::gathered(f, last as nat)[k]);
            } else {
                let l = k - before.len();
                assert(from[k] == (last, row[l]));
                assert(render::gathered(f, n)[k] == f(last)[l]);
            }
        }
        assert forall|i: int, j: int|
            0 <= i < n && 0 <= j < m && (#[trigger] g(i)(j)).len() == 1 implies from.contains(
            (i, j),
        ) by {
            if i < last {
                assert(before.contains((i, j)));
                let k = choose|k: int| 0 <= k < before.len() && before[k] == (i, j);
                assert(from[k] == (i, j));
            } else {
                assert(row.contains(j));
                let l = choose|l: int| 0 <= l < row.len() && row[l] == j;
                assert(from[before.len() + l] == (i, j));
            }
        }
        assert(from.no_duplicates()) by {
            assert forall|k: int, l: int|
                0 <= k < from.len() && 0 <= l < from.len() && k != l implies from[k] != from[l] by {
                let b = before.len();
                if k < b && l < b {
                    assert(from[k] == before[k] && from[l] == before[l]);
                } else if k >= b && l >= b {
                    assert(from[k] == (last, row[k - b]) && from[l] == (last, row[l - b]));
                    if k < l {
                        assert(row[k - b] < row[l - b]);
                    } else {
                        assert(row[l - b] < row[k - b]);
                    }
                } else if k < b {
                    assert(from[k] == before[k] && from[l] == (last, row[l - b]));
                } else {
                    assert(from[l] == before[l] && from[k] == (last, row[k - b]));
                }
            }
        }
        from
    }
}

/// Where the output of a Match has rows, a branch's ribbons are its shares: one
/// for every row of the result and row of the output that have a share, and no
/// other. Each leaves the row of the result it belongs to and ends on the very
/// row of the output that the share was given of, takes that share at both ends,
/// and wears the colour of what it carries. `from` names the pair of rows that
/// each ribbon joins.
pub proof fn law_a_branch_lands_on_the_rows_it_shares(
    sink: AnchorFactsView,
    output: AnchorFactsView,
    spans: Seq<Seq<Option<RowSpan>>>,
) -> (from: Seq<(int, int)>)
    requires
        rows_arriving(sink).len() > 0,
        rows_leaving(output).len() > 0,
        spans.len() == rows_arriving(sink).len(),
        forall|i: int|
            0 <= i < spans.len() ==> (#[trigger] spans[i]).len() == rows_leaving(output).len(),
    ensures
        from.len() == ribbons_from_branch(sink, output, spans).len(),
        from.no_duplicates(),
        forall|i: int, j: int|
            0 <= i < spans.len() && 0 <= j < rows_leaving(output).len()
                && #[trigger] spans[i][j] is Some ==> from.contains((i, j)),
        forall|k: int|
            0 <= k < from.len() ==> {
                let (i, j) = #[trigger] from[k];
                let row = rows_arriving(sink)[i];
                let out = rows_leaving(output)[j];
                &&& 0 <= i < spans.len()
                &&& 0 <= j < rows_leaving(output).len()
                &&& spans[i][j] is Some
                &&& ribbons_from_branch(sink, output, spans)[k] matches Ribbon::Strand {
                    start_color,
                    end_color,
                    start,
                    end,
                }
                &&& start_color == render::color_of(row.1)
                &&& end_color == render::color_of(row.1)
                &&& start.row == row.0 as usize
                &&& end.row == out.0 as usize
                &&& start.span == spans[i][j]->0
                &&& end.span == spans[i][j]->0
                &&& start.as_line == render::is_line(row.1, sink.incoming_literal)
                &&& end.as_line == render::is_line(out.1, None)
            },
{
    let rows = rows_arriving(sink);
    let outs = rows_leaving(output);
    let value = sink.incoming_literal;
    let f = |i: int| result_ribbons(rows[i], value, outs, spans[i]);
    let g = |i: int| (|j: int| landing_ribbon(rows[i], value, outs[j], spans[i][j]));
    assert forall|i: int| 0 <= i < rows.len() implies #[trigger] f(i) == render::gathered(
        g(i),
        outs.len(),
    ) by {
        assert(g(i) =~= (|j: int| landing_ribbon(rows[i], value, outs[j], spans[i][j])));
    }
    let from = lemma_gathered_table(f, g, rows.len(), outs.len());
    assert forall|i: int, j: int|
        0 <= i < spans.len() && 0 <= j < outs.len()
            && #[trigger] spans[i][j] is Some implies from.contains((i, j)) by {
        assert(g(i)(j).len() == 1);
    }
    from
}

/// A branch that nothing has arrived at, or whose type has no rows, is joined to
/// the output by a single pending band between the two anchors' own rows.
pub proof fn law_a_branch_without_rows(
    sink: AnchorFactsView,
    output: AnchorFactsView,
    spans: Seq<Seq<Option<RowSpan>>>,
)
    requires
        sink.incoming_type is None || sink.incoming_type == Some(ETypeView::Pending),
    ensures
        ribbons_from_branch(sink, output, spans).len() == 1,
        ribbons_from_branch(sink, output, spans)[0] matches Ribbon::Pending { start, end }
            && start.row == 0 && end.row == 0 && !start.as_line && !end.as_line,
{
    reveal_with_fuel(render::of_kind, 1);
    if sink.incoming_type is Some {
        render::law_stacking_keeps_every_leaf(ETypeView::Pending);
        render::law_rows_keep_their_places(ETypeView::Pending, sink.at_input);
        let rows = rows_arriving(sink);
        if rows.len() > 0 {
            assert(rows[0].0 < 0);
        }
    }
}

/// An arm that names a type gets its shares: one strand for every arriving row
/// that it takes a share of, and no other. Each leaves the row it belongs to, in
/// that row's colour and with the share the arm takes, and reaches the whole of
/// the arm's cell. `from` names the row that each strand leaves.
pub proof fn law_an_arm_gets_its_shares(
    input: AnchorFactsView,
    declared: etype::ETypeView,
    spans: Seq<Option<RowSpan>>,
) -> (from: Seq<int>)
    requires
        rows_arriving(input).len() > 0,
        spans.len() == rows_arriving(input).len(),
    ensures
        from.len() == ribbons_to_arm(input, Some(declared), spans).len(),
        forall|k: int, l: int| 0 <= k < l < from.len() ==> from[k] < from[l],
        forall|i: int|
            0 <= i < spans.len() && #[trigger] spans[i] is Some ==> from.contains(i),
        forall|k: int|
            0 <= k < from.len() ==> {
                let row = rows_arriving(input)[#[trigger] from[k]];
                &&& 0 <= from[k] < spans.len()
                &&& spans[from[k]] is Some
                &&& ribbons_to_arm(input, Some(declared), spans)[k] matches Ribbon::Strand {
                    start_color,
                    end_color,
                    start,
                    end,
                }
                &&& start_color == render::color_of(row.1)
                &&& end_color == render::color_of(row.1)
                &&& start.row == row.0 as usize
                &&& start.span == spans[from[k]]->0
                &&& start.as_line == render::is_line(row.1, input.incoming_literal)
                &&& end.row == 0
                &&& end.span == (RowSpan { top: 0, bottom: 2 })
                &&& end.as_line == (declared is NoneType || infer::carried(declared).literal()
                    is Some)
            },
{
    let rows = rows_arriving(input);
    let f = |i: int| arm_ribbon(rows[i], input.incoming_literal, Some(declared), spans[i]);
    let from = lemma_gathered_once(f, rows.len());
    assert forall|i: int|
        0 <= i < spans.len() && #[trigger] spans[i] is Some implies from.contains(i) by {
        assert(f(i).len() == 1);
    }
    from
}

/// An arm that names no type yet gets a pending band of every arriving row, the
/// whole of the row to the whole of the cell; and while no row arrives, one band
/// between the two cells.
pub proof fn law_an_arm_without_a_type(input: AnchorFactsView, spans: Seq<Option<RowSpan>>)
    requires
        spans.len() == rows_arriving(input).len(),
    ensures
        rows_arriving(input).len() == 0 ==> ribbons_to_arm(input, None, spans).len() == 1,
        rows_arriving(input).len() > 0 ==> ribbons_to_arm(input, None, spans).len()
            == rows_arriving(input).len(),
        forall|i: int|
            0 <= i < rows_arriving(input).len() ==> {
                let row = rows_arriving(input)[i];
                &&& #[trigger] ribbons_to_arm(input, None, spans)[i] matches Ribbon::Pending {
                    start,
                    end,
                }
                &&& start.row == row.0 as usize
                &&& start.span == (RowSpan { top: 0, bottom: 2 })
                &&& start.as_line == render::is_line(row.1, input.incoming_literal)
                &&& end.row == 0
                &&& end.span == (RowSpan { top: 0, bottom: 2 })
                &&& !end.as_line
            },
{
    let rows = rows_arriving(input);
    let f = |i: int| arm_ribbon(rows[i], input.incoming_literal, None, spans[i]);
    assert forall|i: int| (#[trigger] f(i)).len() == 1 by {}
    if rows.len() > 0 {
        lemma_gathered_singles(f, rows.len());
    }
}

proof fn lemma_accepting_row(rows: Seq<(nat, ETypeView)>, leaf: ETypeView)
    ensures
        (exists|j: int| 0 <= j < rows.len() && infer::admits((#[trigger] rows[j]).1, leaf)) ==> exists|
            j: int,
        |
            {
                &&& 0 <= j < rows.len()
                &&& accepting_row(rows, leaf) == (#[trigger] rows[j]).0
                &&& infer::admits(rows[j].1, leaf)
                &&& forall|l: int| 0 <= l < j ==> !infer::admits((#[trigger] rows[l]).1, leaf)
            },
        (forall|j: int| 0 <= j < rows.len() ==> !infer::admits((#[trigger] rows[j]).1, leaf))
            ==> accepting_row(rows, leaf) == 0,
    decreases rows.len(),
{
    if rows.len() > 0 {
        if infer::admits(rows[0].1, leaf) {
            assert(accepting_row(rows, leaf) == rows[0].0);
        } else {
            let rest = rows.drop_first();
            lemma_accepting_row(rest, leaf);
            assert forall|l: int| 0 <= l < rest.len() implies rows[l + 1] == #[trigger] rest[l] by {}
            if exists|j: int| 0 <= j < rows.len() && infer::admits((#[trigger] rows[j]).1, leaf) {
                let j = choose|j: int|
                    0 <= j < rows.len() && infer::admits((#[trigger] rows[j]).1, leaf);
                assert(rest[j - 1] == rows[j]);
                let at = choose|at: int|
                    {
                        &&& 0 <= at < rest.len()
                        &&& accepting_row(rest, leaf) == (#[trigger] rest[at]).0
                        &&& infer::admits(rest[at].1, leaf)
                        &&& forall|l: int|
                            0 <= l < at ==> !infer::admits((#[trigger] rest[l]).1, leaf)
                    };
                assert(rows[at + 1] == rest[at]);
                assert forall|l: int| 0 <= l < at + 1 implies !infer::admits(
                    (#[trigger] rows[l]).1,
                    leaf,
                ) by {
                    if l > 0 {
                        assert(rows[l] == rest[l - 1]);
                    }
                }
            } else {
                assert forall|l: int| 0 <= l < rest.len() implies !infer::admits(
                    (#[trigger] rest[l]).1,
                    leaf,
                ) by {
                    assert(rows[l + 1] == rest[l]);
                }
            }
        }
    }
}

/// The rows an edge meets at its target: those of the type the target has, and
/// where it has none those of the type that arrives.
pub open spec fn is_met(target: AnchorFactsView, t: ETypeView) -> bool {
    target.anchor_type == Some(t) || (target.anchor_type is None && target.incoming_type == Some(t))
}

/// Every strand of an edge takes the whole of the row it leaves and the whole of
/// the row it lands on, and it lands where it is let in: on the first row of the
/// target that admits what it carries, and on the anchor's own row where none
/// does.
pub proof fn law_an_edge_lands_where_it_is_admitted(
    source: AnchorFactsView,
    target: AnchorFactsView,
    t: ETypeView,
    i: int,
)
    requires
        is_met(target, t),
        0 <= i < rows_leaving(source).len(),
    ensures
        ribbons_of_edge(source, target).len() == rows_leaving(source).len(),
        ({
            let row = rows_leaving(source)[i];
            let met = render::rows_drawn(t, source.at_output);
            &&& ribbons_of_edge(source, target)[i] matches Ribbon::Strand {
                start_color,
                end_color,
                start,
                end,
            }
            &&& start_color == render::color_of(row.1)
            &&& end_color == render::color_of(row.1)
            &&& start.row == row.0 as usize
            &&& start.span == (RowSpan { top: 0, bottom: 2 })
            &&& end.span == (RowSpan { top: 0, bottom: 2 })
            &&& start.as_line == render::is_line(row.1, source.anchor_literal)
            &&& end.as_line == start.as_line
            &&& (exists|j: int|
                0 <= j < met.len() && infer::admits((#[trigger] met[j]).1, row.1)) ==> exists|
                j: int,
            |
                {
                    &&& 0 <= j < met.len()
                    &&& end.row == (#[trigger] met[j]).0 as usize
                    &&& infer::admits(met[j].1, row.1)
                    &&& forall|l: int| 0 <= l < j ==> !infer::admits((#[trigger] met[l]).1, row.1)
                }
            &&& (forall|j: int|
                0 <= j < met.len() ==> !infer::admits((#[trigger] met[j]).1, row.1)) ==> end.row
                == 0
        }),
{
    lemma_accepting_row(render::rows_drawn(t, source.at_output), rows_leaving(source)[i].1);
}

/// The rows that arrive are those of the type that arrives, and the rows that
/// leave those of the type the anchor has; nothing else that is known of the
/// anchor changes either.
pub proof fn law_what_the_rows_are_of(one: AnchorFactsView, other: AnchorFactsView)
    ensures
        one.incoming_type == other.incoming_type && one.at_input == other.at_input
            ==> rows_arriving(one) == rows_arriving(other),
        one.anchor_type == other.anchor_type && one.at_output == other.at_output ==> rows_leaving(
            one,
        ) == rows_leaving(other),
        one.incoming_type is None ==> rows_arriving(one).len() == 0,
        one.at_input is None && one.incoming_type is Some ==> {
            &&& rows_arriving(one).len() == (one.incoming_type->0).leaves().len()
            &&& forall|i: int|
                0 <= i < rows_arriving(one).len() ==> (#[trigger] rows_arriving(one)[i]).0 == i
            &&& rows_arriving(one).map_values(|row: (nat, ETypeView)| row.1).to_multiset() == (
            one.incoming_type->0).leaves().to_multiset()
        },
        one.at_output is None && one.anchor_type is Some ==> {
            &&& rows_leaving(one).len() == (one.anchor_type->0).leaves().len()
            &&& forall|i: int|
                0 <= i < rows_leaving(one).len() ==> (#[trigger] rows_leaving(one)[i]).0 == i
            &&& rows_leaving(one).map_values(|row: (nat, ETypeView)| row.1).to_multiset() == (
            one.anchor_type->0).leaves().to_multiset()
        },
{
    if let Some(t) = one.incoming_type {
        render::law_stacking_keeps_every_leaf(t);
        assert(render::enumerated(render::stacked(t.leaves())).map_values(
            |row: (nat, ETypeView)| row.1,
        ) =~= render::stacked(t.leaves()));
    }
    if let Some(t) = one.anchor_type {
        render::law_stacking_keeps_every_leaf(t);
        assert(render::enumerated(render::stacked(t.leaves())).map_values(
            |row: (nat, ETypeView)| row.1,
        ) =~= render::stacked(t.leaves()));
    }
}

/// The connections a cast is made of.
#[derive(Clone, Copy, Debug, PartialEq, Eq, Structural)]
pub enum CastLeg {
    /// From the input to the cell that names the type.
    ToTarget,
    /// From the input past that cell to the row of the output that says the cast
    /// failed.
    ToNone,
    /// From that cell to the output.
    ToOutput,
}

/// A ribbon of a cast.
#[derive(Clone, Copy, Debug, PartialEq, Eq, Structural)]
pub struct CastRibbon {
    pub leg: CastLeg,
    pub ribbon: Ribbon,
}

/// The row of the output that says the cast failed, where it has one.
pub open spec fn none_row_of(rows: Seq<(nat, ETypeView)>) -> Option<nat>
    decreases rows.len(),
{
    if rows.len() == 0 {
        None
    } else if rows[0].1 is NoneType {
        Some(rows[0].0)
    } else {
        none_row_of(rows.drop_first())
    }
}

/// The share of a row that converts, and the share that cannot.
pub type RowSplit = (Option<RowSpan>, Option<RowSpan>);

/// A ribbon of a cast between two types.
pub open spec fn conversion(
    leg: CastLeg,
    from: ETypeView,
    to: ETypeView,
    start: RibbonEnd,
    end: RibbonEnd,
) -> CastRibbon {
    CastRibbon {
        leg,
        ribbon: Ribbon::Strand {
            start_color: render::color_of(from),
            end_color: render::color_of(to),
            start,
            end,
        },
    }
}

/// The share of a row that reaches the cell that names the type.
pub open spec fn target_leg(
    row: (nat, ETypeView),
    value: Option<Seq<char>>,
    declared: etype::ETypeView,
    split: RowSplit,
) -> Seq<CastRibbon> {
    match split.0 {
        Some(span) => seq![
            conversion(
                CastLeg::ToTarget,
                row.1,
                infer::carried(declared),
                part_of_row(row.0, span, render::is_line(row.1, value)),
                whole_row(0, cell_is_line(Some(declared))),
            ),
        ],
        None => Seq::empty(),
    }
}

/// The share of a row that cannot be converted. It leaves as the value it was and
/// arrives as the absence of one, which is always a line.
pub open spec fn none_leg(
    row: (nat, ETypeView),
    value: Option<Seq<char>>,
    split: RowSplit,
    none_row: Option<nat>,
) -> Seq<CastRibbon> {
    match (split.1, none_row) {
        (Some(span), Some(none_row)) => seq![
            conversion(
                CastLeg::ToNone,
                row.1,
                ETypeView::NoneType,
                part_of_row(row.0, span, render::is_line(row.1, value)),
                whole_row(none_row, true),
            ),
        ],
        _ => Seq::empty(),
    }
}

/// What becomes of one row that arrives at a cast: the share that converts and
/// the share that cannot, and a pending band as long as no type has been chosen.
pub open spec fn split_row(
    row: (nat, ETypeView),
    value: Option<Seq<char>>,
    declared: Option<etype::ETypeView>,
    split: RowSplit,
    none_row: Option<nat>,
) -> Seq<CastRibbon> {
    match declared {
        Some(declared) => target_leg(row, value, declared, split) + none_leg(
            row,
            value,
            split,
            none_row,
        ),
        None => seq![
            CastRibbon {
                leg: CastLeg::ToTarget,
                ribbon: Ribbon::Pending {
                    start: whole_row(row.0, render::is_line(row.1, value)),
                    end: whole_row(0, false),
                },
            },
        ],
    }
}

/// What a cast that succeeds sends on to one row of the output: to every row but
/// the one that says it failed.
pub open spec fn success_leg(
    declared: etype::ETypeView,
    out: (nat, ETypeView),
    value: Option<Seq<char>>,
) -> Seq<CastRibbon> {
    if out.1 is NoneType {
        Seq::empty()
    } else {
        seq![
            conversion(
                CastLeg::ToOutput,
                infer::carried(declared),
                out.1,
                whole_row(0, cell_is_line(Some(declared))),
                whole_row(out.0, render::is_line(out.1, value)),
            ),
        ]
    }
}

/// Something that arrives can be converted.
pub open spec fn reaches_target(
    rows: Seq<(nat, ETypeView)>,
    declared: Option<etype::ETypeView>,
    splits: Seq<RowSplit>,
) -> bool {
    declared is Some && exists|i: int| 0 <= i < rows.len() && (#[trigger] splits[i]).0 is Some
}

/// The ribbons that leave the input of a cast.
pub open spec fn legs_from_input(
    input: AnchorFactsView,
    declared: Option<etype::ETypeView>,
    none_row: Option<nat>,
    splits: Seq<RowSplit>,
) -> Seq<CastRibbon> {
    let rows = rows_arriving(input);
    if rows.len() == 0 {
        seq![
            CastRibbon {
                leg: CastLeg::ToTarget,
                ribbon: Ribbon::Pending {
                    start: whole_row(0, false),
                    end: whole_row(0, cell_is_line(declared)),
                },
            },
        ]
    } else {
        render::gathered(
            |i: int| split_row(rows[i], input.incoming_literal, declared, splits[i], none_row),
            rows.len(),
        )
    }
}

/// The ribbons that reach the output of a cast from the cell that names the type.
/// A cast that cannot fail does without them, because the cell and the output say
/// the same thing one cell apart; and so does one that nothing can get through.
pub open spec fn legs_to_output(
    input: AnchorFactsView,
    declared: Option<etype::ETypeView>,
    output: AnchorFactsView,
    splits: Seq<RowSplit>,
) -> Seq<CastRibbon> {
    let outs = rows_leaving(output);
    if none_row_of(outs) is Some && reaches_target(rows_arriving(input), declared, splits) {
        render::gathered(
            |j: int| success_leg(declared->0, outs[j], output.anchor_literal),
            outs.len(),
        )
    } else {
        Seq::empty()
    }
}

/// The ribbons of a cast. `out_placed` says that the output is drawn.
pub open spec fn ribbons_of_cast(
    input: AnchorFactsView,
    declared: Option<etype::ETypeView>,
    output: AnchorFactsView,
    out_placed: bool,
    splits: Seq<RowSplit>,
) -> Seq<CastRibbon> {
    if out_placed {
        legs_from_input(input, declared, none_row_of(rows_leaving(output)), splits)
            + legs_to_output(input, declared, output, splits)
    } else {
        legs_from_input(input, declared, None, splits)
    }
}

fn find_none_row(rows: &Vec<(usize, EType)>) -> (row: Option<usize>)
    ensures
        match row {
            Some(row) => none_row_of(render::row_views(rows@)) == Some(row as nat),
            None => none_row_of(render::row_views(rows@)) is None,
        },
{
    let ghost all = render::row_views(rows@);
    let mut i: usize = 0;
    assert(all.skip(0) =~= all);
    while i < rows.len()
        invariant
            i <= rows.len(),
            all == render::row_views(rows@),
            none_row_of(all) == none_row_of(all.skip(i as int)),
        decreases rows.len() - i,
    {
        proof {
            assert(all.skip(i as int)[0] == (rows@[i as int].0 as nat, rows@[i as int].1@));
            assert(all.skip(i as int).drop_first() =~= all.skip(i + 1));
        }
        if let EType::NoneType = rows[i].1 {
            return Some(rows[i].0);
        }
        i = i + 1;
    }
    assert(all.skip(i as int).len() == 0);
    None
}

/// A row, where there is one.
pub open spec fn opt_row(row: Option<usize>) -> Option<nat> {
    match row {
        Some(row) => Some(row as nat),
        None => None,
    }
}

fn push_split_row(
    row: &(usize, EType),
    value: Option<&String>,
    declared: &Option<etype::EType>,
    split: &RowSplit,
    none_row: Option<usize>,
    ribbons: &mut Vec<CastRibbon>,
)
    ensures
        final(ribbons)@ == old(ribbons)@ + split_row(
            (row.0 as nat, row.1@),
            render::opt_text_ref(value),
            render::opt_declared(*declared),
            *split,
            opt_row(none_row),
        ),
{
    let leaf = &row.1;
    let row_is_line = render::leaf_is_drawn_as_line(leaf, value);
    let ghost planned = split_row(
        (row.0 as nat, row.1@),
        render::opt_text_ref(value),
        render::opt_declared(*declared),
        *split,
        opt_row(none_row),
    );
    match declared {
        None => {
            ribbons.push(
                CastRibbon {
                    leg: CastLeg::ToTarget,
                    ribbon: Ribbon::Pending {
                        start: whole_row_end(row.0, row_is_line),
                        end: whole_row_end(0, false),
                    },
                },
            );
        },
        Some(t) => {
            let target = infer::graph_type_to_eval_type(t);
            let is_line = declared_is_line(declared);
            if let Some(span) = split.0 {
                ribbons.push(
                    CastRibbon {
                        leg: CastLeg::ToTarget,
                        ribbon: Ribbon::Strand {
                            start_color: render::strand_color(leaf),
                            end_color: render::strand_color(&target),
                            start: RibbonEnd { row: row.0, span, as_line: row_is_line },
                            end: whole_row_end(0, is_line),
                        },
                    },
                );
            }
            if let Some(span) = split.1 {
                if let Some(none_row) = none_row {
                    ribbons.push(
                        CastRibbon {
                            leg: CastLeg::ToNone,
                            ribbon: Ribbon::Strand {
                                start_color: render::strand_color(leaf),
                                end_color: render::strand_color(&EType::NoneType),
                                start: RibbonEnd { row: row.0, span, as_line: row_is_line },
                                end: whole_row_end(none_row, true),
                            },
                        },
                    );
                }
            }
        },
    }
    assert(ribbons@ =~= old(ribbons)@ + planned);
}

fn any_reaches(declared: &Option<etype::EType>, splits: &Vec<RowSplit>, len: usize) -> (res: bool)
    requires
        len <= splits.len(),
    ensures
        res == (declared is Some && exists|i: int|
            0 <= i < len && (#[trigger] splits@[i]).0 is Some),
{
    if declared.is_none() {
        return false;
    }
    let mut i: usize = 0;
    while i < len
        invariant
            declared is Some,
            i <= len <= splits.len(),
            forall|j: int| 0 <= j < i ==> (#[trigger] splits@[j]).0 is None,
        decreases len - i,
    {
        if splits[i].0.is_some() {
            return true;
        }
        i = i + 1;
    }
    false
}

fn push_success_legs(
    t: &etype::EType,
    is_line: bool,
    outs: &Vec<(usize, EType)>,
    value: Option<&String>,
    ribbons: &mut Vec<CastRibbon>,
)
    requires
        is_line == cell_is_line(Some(t@)),
    ensures
        final(ribbons)@ == old(ribbons)@ + render::gathered(
            |j: int|
                success_leg(t@, render::row_views(outs@)[j], render::opt_text_ref(value)),
            outs@.len(),
        ),
{
    let ghost start = ribbons@;
    let ghost to = render::row_views(outs@);
    let ghost text = render::opt_text_ref(value);
    let ghost f = |j: int| success_leg(t@, to[j], text);
    let target = infer::graph_type_to_eval_type(t);
    let mut j: usize = 0;
    assert(start + render::gathered(f, 0) =~= start);
    while j < outs.len()
        invariant
            j <= outs.len(),
            is_line == cell_is_line(Some(t@)),
            target@ == infer::carried(t@),
            to == render::row_views(outs@),
            text == render::opt_text_ref(value),
            f == (|j: int| success_leg(t@, to[j], text)),
            ribbons@ =~= start + render::gathered(f, j as nat),
        decreases outs.len() - j,
    {
        let ghost before = ribbons@;
        proof {
            assert(to[j as int] == (outs@[j as int].0 as nat, outs@[j as int].1@));
            assert(render::gathered(f, (j + 1) as nat) == render::gathered(f, j as nat) + f(j as int));
        }
        let leaf = &outs[j].1;
        let fails = match leaf {
            EType::NoneType => true,
            _ => false,
        };
        if !fails {
            ribbons.push(
                CastRibbon {
                    leg: CastLeg::ToOutput,
                    ribbon: Ribbon::Strand {
                        start_color: render::strand_color(&target),
                        end_color: render::strand_color(leaf),
                        start: whole_row_end(0, is_line),
                        end: whole_row_end(
                            outs[j].0,
                            render::leaf_is_drawn_as_line(leaf, value),
                        ),
                    },
                },
            );
        }
        assert(ribbons@ =~= before + f(j as int));
        j = j + 1;
    }
}

fn links_from_input(
    input: &AnchorFacts,
    declared: &Option<etype::EType>,
    none_row: Option<usize>,
    splits: &Vec<RowSplit>,
) -> (ribbons: Vec<CastRibbon>)
    requires
        splits.len() == rows_arriving(input@).len(),
    ensures
        ribbons@ == legs_from_input(
            input@,
            render::opt_declared(*declared),
            opt_row(none_row),
            splits@,
        ),
{
    let rows = arriving_rows(input);
    let value = input.incoming_literal.as_ref();
    let mut ribbons: Vec<CastRibbon> = Vec::new();
    let ghost from = render::row_views(rows@);
    let ghost named = render::opt_declared(*declared);
    let ghost missing = opt_row(none_row);
    if rows.len() == 0 {
        ribbons.push(
            CastRibbon {
                leg: CastLeg::ToTarget,
                ribbon: Ribbon::Pending {
                    start: whole_row_end(0, false),
                    end: whole_row_end(0, declared_is_line(declared)),
                },
            },
        );
        assert(ribbons@ =~= legs_from_input(input@, named, missing, splits@));
        return ribbons;
    }
    let ghost f = |i: int|
        split_row(from[i], input@.incoming_literal, named, splits@[i], missing);
    let mut i: usize = 0;
    while i < rows.len()
        invariant
            i <= rows.len(),
            splits.len() == rows.len(),
            from == render::row_views(rows@),
            named == render::opt_declared(*declared),
            missing == opt_row(none_row),
            render::opt_text_ref(value) == input@.incoming_literal,
            f == (|i: int|
                split_row(from[i], input@.incoming_literal, named, splits@[i], missing)),
            ribbons@ =~= render::gathered(f, i as nat),
        decreases rows.len() - i,
    {
        proof {
            assert(from[i as int] == (rows@[i as int].0 as nat, rows@[i as int].1@));
            assert(render::gathered(f, (i + 1) as nat) == render::gathered(f, i as nat) + f(i as int));
        }
        push_split_row(&rows[i], value, declared, &splits[i], none_row, &mut ribbons);
        i = i + 1;
    }
    ribbons
}

/// The ribbons of a cast: what arrives at its input reaching the cell that names
/// the type, and what cannot get there reaching the row of the output that says
/// so; and where the cast can both fail and succeed, what succeeds reaching the
/// output. `splits` has, for each arriving row, the share that converts and the
/// share that cannot.
pub fn cast_links(
    input: &AnchorFacts,
    declared: &Option<etype::EType>,
    output: &AnchorFacts,
    out_placed: bool,
    splits: &Vec<RowSplit>,
) -> (ribbons: Vec<CastRibbon>)
    requires
        splits.len() == rows_arriving(input@).len(),
    ensures
        ribbons@ == ribbons_of_cast(
            input@,
            render::opt_declared(*declared),
            output@,
            out_placed,
            splits@,
        ),
{
    let outs = leaving_rows(output);
    if !out_placed {
        return links_from_input(input, declared, None, splits);
    }
    let none_row = find_none_row(&outs);
    let mut ribbons = links_from_input(input, declared, none_row, splits);
    let ghost named = render::opt_declared(*declared);
    let ghost before = ribbons@;
    if let Some(t) = declared {
        if none_row.is_some() && any_reaches(declared, splits, splits.len()) {
            let is_line = declared_is_line(declared);
            let value = output.anchor_literal.as_ref();
            push_success_legs(t, is_line, &outs, value, &mut ribbons);
            proof {
                let to = rows_leaving(output@);
                assert(reaches_target(rows_arriving(input@), named, splits@));
                assert(to.len() == outs.len());
                let f = |j: int| success_leg(named->0, to[j], output@.anchor_literal);
                let g = |j: int|
                    success_leg(
                        t@,
                        render::row_views(outs@)[j],
                        render::opt_text_ref(value),
                    );
                assert(f =~= g);
            }
            return ribbons;
        }
    }
    assert(legs_to_output(input@, named, output@, splits@) =~= Seq::<CastRibbon>::empty());
    assert(before + Seq::<CastRibbon>::empty() =~= before);
    ribbons
}

/// A cast that fails never reaches its target, and one that succeeds never ends
/// in the row that says it failed: what arrives is divided between the two, each
/// share going one way.
pub proof fn law_a_row_is_divided(
    row: (nat, ETypeView),
    value: Option<Seq<char>>,
    declared: etype::ETypeView,
    split: RowSplit,
    none_row: nat,
)
    ensures
        split_row(row, value, Some(declared), split, Some(none_row)).len() == (if split.0 is Some {
            1int
        } else {
            0
        }) + (if split.1 is Some {
            1int
        } else {
            0
        }),
        forall|i: int|
            0 <= i < split_row(row, value, Some(declared), split, Some(none_row)).len() ==> match (
            #[trigger] split_row(row, value, Some(declared), split, Some(none_row))[i]).leg {
                CastLeg::ToTarget => split.0 is Some,
                CastLeg::ToNone => split.1 is Some,
                CastLeg::ToOutput => false,
            },
{
}

/// A cast that cannot fail has no ribbon between the cell that names the type and
/// its output, and neither has one that nothing can get through.
pub proof fn law_when_a_cast_succeeds(
    input: AnchorFactsView,
    declared: Option<etype::ETypeView>,
    output: AnchorFactsView,
    splits: Seq<RowSplit>,
)
    ensures
        none_row_of(rows_leaving(output)) is None ==> legs_to_output(
            input,
            declared,
            output,
            splits,
        ).len() == 0,
        !reaches_target(rows_arriving(input), declared, splits) ==> legs_to_output(
            input,
            declared,
            output,
            splits,
        ).len() == 0,
{
}

/// The arms of a Match that a ribbon can be drawn to: those that are arms, and
/// whose cell is drawn.
pub open spec fn is_reached(
    nodes: Map<usize, ENode>,
    bands: Set<usize>,
    pattern: node::Id,
) -> bool {
    nodes.contains_key(pattern.0) && nodes[pattern.0] is Pattern && bands.contains(pattern.0)
}

/// The arms of a Match that a ribbon is drawn to, in their order.
pub open spec fn reached(
    nodes: Map<usize, ENode>,
    bands: Set<usize>,
    patterns: Seq<node::Id>,
) -> Seq<node::Id> {
    patterns.filter(|pattern: node::Id| is_reached(nodes, bands, pattern))
}

/// The arms of a Match that a ribbon is drawn to, in their order. `bands` are the
/// nodes whose cell with the declared type is drawn.
pub fn arms_reached(
    nodes: &HashMap<usize, ENode>,
    bands: &HashSet<usize>,
    patterns: &Vec<node::Id>,
) -> (arms: Vec<node::Id>)
    ensures
        arms@ == reached(nodes@, bands@, patterns@),
{
    let ghost keep = |pattern: node::Id| is_reached(nodes@, bands@, pattern);
    let mut arms: Vec<node::Id> = Vec::new();
    let mut i: usize = 0;
    proof {
        reveal(Seq::filter);
        assert(patterns@.take(0).filter(keep) =~= Seq::<node::Id>::empty());
    }
    while i < patterns.len()
        invariant
            i <= patterns.len(),
            keep == (|pattern: node::Id| is_reached(nodes@, bands@, pattern)),
            arms@ == patterns@.take(i as int).filter(keep),
        decreases patterns.len() - i,
    {
        let pattern = patterns[i];
        proof {
            reveal(Seq::filter);
            assert(patterns@.take(i + 1).drop_last() =~= patterns@.take(i as int));
            assert(patterns@.take(i + 1).last() == pattern);
        }
        let is_arm = match nodes.get(&pattern.0) {
            Some(ENode::Pattern { .. }) => true,
            _ => false,
        };
        if is_arm && bands.contains(&pattern.0) {
            arms.push(pattern);
        }
        i = i + 1;
    }
    assert(patterns@.take(i as int) =~= patterns@);
    arms
}

/// What `none_row_of` finds: the first row that stands for a failed cast.
proof fn lemma_none_row(rows: Seq<(nat, ETypeView)>)
    ensures
        none_row_of(rows) matches Some(row) ==> exists|j: int|
            {
                &&& 0 <= j < rows.len()
                &&& row == (#[trigger] rows[j]).0
                &&& rows[j].1 is NoneType
                &&& forall|l: int| 0 <= l < j ==> !((#[trigger] rows[l]).1 is NoneType)
            },
        none_row_of(rows) is None ==> forall|j: int|
            0 <= j < rows.len() ==> !((#[trigger] rows[j]).1 is NoneType),
    decreases rows.len(),
{
    if rows.len() > 0 && !(rows[0].1 is NoneType) {
        let rest = rows.drop_first();
        lemma_none_row(rest);
        assert forall|l: int| 0 <= l < rest.len() implies rows[l + 1] == #[trigger] rest[l] by {}
        if let Some(row) = none_row_of(rows) {
            let at = choose|at: int|
                {
                    &&& 0 <= at < rest.len()
                    &&& row == (#[trigger] rest[at]).0
                    &&& rest[at].1 is NoneType
                    &&& forall|l: int| 0 <= l < at ==> !((#[trigger] rest[l]).1 is NoneType)
                };
            assert(rows[at + 1] == rest[at]);
            assert forall|l: int| 0 <= l < at + 1 implies !((#[trigger] rows[l]).1 is NoneType) by {
                if l > 0 {
                    assert(rows[l] == rest[l - 1]);
                }
            }
        } else {
            assert forall|j: int| 0 <= j < rows.len() implies !((#[trigger] rows[j]).1 is NoneType) by {
                if j > 0 {
                    assert(rows[j] == rest[j - 1]);
                }
            }
        }
    }
}

/// One of the rows says that the cast failed.
pub open spec fn can_fail(rows: Seq<(nat, ETypeView)>) -> bool {
    exists|j: int| 0 <= j < rows.len() && (#[trigger] rows[j]).1 is NoneType
}

/// The ribbons of a cast that names a type are the shares of the rows that
/// arrive, and then what goes on to the output.
///
/// Every share that converts leaves its own row and turns, on the cell that names
/// the type, into the colour of that type. Every share that cannot leaves its own
/// row and ends on the row of the output that says so, where there is one. No
/// share goes both ways, and nothing else leaves the input. `from` names the row
/// each ribbon leaves, with 0 for a share that converts and 1 for one that
/// cannot.
///
/// What goes on runs from the cell to every row of the output but the one that
/// says the cast failed, and only where the cast can fail and something got
/// through. `onward` names the rows it runs to.
pub proof fn law_where_a_cast_leads(
    input: AnchorFactsView,
    declared: etype::ETypeView,
    output: AnchorFactsView,
    splits: Seq<RowSplit>,
) -> (found: (Seq<(int, int)>, Seq<int>))
    requires
        rows_arriving(input).len() > 0,
        splits.len() == rows_arriving(input).len(),
    ensures
        ribbons_of_cast(input, Some(declared), output, true, splits).len() == found.0.len()
            + found.1.len(),
        found.0.no_duplicates(),
        forall|i: int|
            #![trigger splits[i]]
            0 <= i < splits.len() ==> {
                &&& splits[i].0 is Some ==> found.0.contains((i, 0int))
                &&& splits[i].1 is Some && can_fail(rows_leaving(output)) ==> found.0.contains(
                    (i, 1int),
                )
            },
        forall|k: int|
            0 <= k < found.0.len() ==> {
                let (i, way) = #[trigger] found.0[k];
                let row = rows_arriving(input)[i];
                let drawn = ribbons_of_cast(input, Some(declared), output, true, splits)[k];
                &&& 0 <= i < splits.len()
                &&& way == 0 || way == 1
                &&& drawn.ribbon matches Ribbon::Strand { start_color, end_color, start, end }
                &&& start_color == render::color_of(row.1)
                &&& start.row == row.0 as usize
                &&& start.as_line == render::is_line(row.1, input.incoming_literal)
                &&& end.span == (RowSpan { top: 0, bottom: 2 })
                &&& way == 0 ==> {
                    &&& drawn.leg == CastLeg::ToTarget
                    &&& splits[i].0 == Some(start.span)
                    &&& end_color == render::color_of(infer::carried(declared))
                    &&& end.row == 0
                    &&& end.as_line == (declared is NoneType || infer::carried(declared).literal()
                        is Some)
                }
                &&& way == 1 ==> {
                    &&& drawn.leg == CastLeg::ToNone
                    &&& splits[i].1 == Some(start.span)
                    &&& end_color == render::color_of(ETypeView::NoneType)
                    &&& end.as_line
                    &&& exists|j: int|
                        {
                            &&& 0 <= j < rows_leaving(output).len()
                            &&& end.row == (#[trigger] rows_leaving(output)[j]).0 as usize
                            &&& rows_leaving(output)[j].1 is NoneType
                        }
                }
            },
        found.1.len() > 0 ==> can_fail(rows_leaving(output)) && exists|i: int|
            0 <= i < splits.len() && (#[trigger] splits[i]).0 is Some,
        can_fail(rows_leaving(output)) && (exists|i: int|
            0 <= i < splits.len() && (#[trigger] splits[i]).0 is Some) ==> forall|j: int|
            0 <= j < rows_leaving(output).len() && !((#[trigger] rows_leaving(output)[j]).1
                is NoneType) ==> found.1.contains(j),
        forall|k: int, l: int| 0 <= k < l < found.1.len() ==> found.1[k] < found.1[l],
        forall|k: int|
            0 <= k < found.1.len() ==> {
                let out = rows_leaving(output)[#[trigger] found.1[k]];
                let drawn = ribbons_of_cast(input, Some(declared), output, true, splits)[
                    found.0.len() + k];
                &&& 0 <= found.1[k] < rows_leaving(output).len()
                &&& !(out.1 is NoneType)
                &&& drawn.leg == CastLeg::ToOutput
                &&& drawn.ribbon matches Ribbon::Strand { start_color, end_color, start, end }
                &&& start_color == render::color_of(infer::carried(declared))
                &&& end_color == render::color_of(out.1)
                &&& start.row == 0
                &&& end.row == out.0 as usize
                &&& start.span == (RowSpan { top: 0, bottom: 2 })
                &&& end.span == (RowSpan { top: 0, bottom: 2 })
                &&& start.as_line == (declared is NoneType || infer::carried(declared).literal()
                    is Some)
                &&& end.as_line == render::is_line(out.1, output.anchor_literal)
            },
{
    let rows = rows_arriving(input);
    let outs = rows_leaving(output);
    let value = input.incoming_literal;
    let none_row = none_row_of(outs);
    lemma_none_row(outs);
    let f = |i: int| split_row(rows[i], value, Some(declared), splits[i], none_row);
    let g = |i: int|
        (|way: int|
            if way == 0 {
                target_leg(rows[i], value, declared, splits[i])
            } else {
                none_leg(rows[i], value, splits[i], none_row)
            });
    assert forall|i: int| 0 <= i < rows.len() implies #[trigger] f(i) == render::gathered(g(i), 2) by {
        reveal_with_fuel(render::gathered, 3);
        assert(render::gathered(g(i), 2) =~= g(i)(0) + g(i)(1));
    }
    let from = lemma_gathered_table(f, g, rows.len(), 2);
    let first = legs_from_input(input, Some(declared), none_row, splits);
    assert(first == render::gathered(f, rows.len()));
    let all = ribbons_of_cast(input, Some(declared), output, true, splits);
    let rest = legs_to_output(input, Some(declared), output, splits);
    assert(all == first + rest);
    assert forall|i: int| #![trigger splits[i]] 0 <= i < splits.len() implies {
        &&& splits[i].0 is Some ==> from.contains((i, 0int))
        &&& splits[i].1 is Some && can_fail(outs) ==> from.contains((i, 1int))
    } by {
        if splits[i].0 is Some {
            assert(g(i)(0).len() == 1);
        }
        if splits[i].1 is Some && can_fail(outs) {
            assert(g(i)(1).len() == 1);
        }
    }
    assert(reaches_target(rows, Some(declared), splits) == exists|i: int|
        0 <= i < splits.len() && (#[trigger] splits[i]).0 is Some);
    let onward = if none_row is Some && reaches_target(rows, Some(declared), splits) {
        let h = |j: int| success_leg(declared, outs[j], output.anchor_literal);
        let onward = lemma_gathered_once(h, outs.len());
        assert(rest == render::gathered(h, outs.len()));
        assert forall|j: int| 0 <= j < outs.len() && !((#[trigger] outs[j]).1
            is NoneType) implies onward.contains(j) by {
            assert(h(j).len() == 1);
        }
        onward
    } else {
        Seq::empty()
    };
    assert(from.len() == first.len() && onward.len() == rest.len());
    assert forall|k: int| 0 <= k < from.len() implies #[trigger] all[k] == first[k] by {}
    assert forall|k: int| 0 <= k < onward.len() implies #[trigger] all[from.len() + k] == rest[k] by {}
    (from, onward)
}

/// Where the output of a cast is not drawn, what cannot be converted is not drawn
/// either, and nothing goes on: a ribbon has to end on something.
pub proof fn law_a_cast_without_its_output(
    input: AnchorFactsView,
    declared: Option<etype::ETypeView>,
    output: AnchorFactsView,
    splits: Seq<RowSplit>,
    k: int,
)
    requires
        0 <= k < ribbons_of_cast(input, declared, output, false, splits).len(),
    ensures
        ribbons_of_cast(input, declared, output, false, splits)[k].leg == CastLeg::ToTarget,
{
    let rows = rows_arriving(input);
    if rows.len() > 0 {
        let f = |i: int| split_row(rows[i], input.incoming_literal, declared, splits[i], None);
        let from = lemma_gathered_once(f, rows.len());
        assert(f(from[k]).len() == 1);
    }
}

/// A cast that names no type yet has a pending band for every row that arrives,
/// from the whole of the row to the cell; and while no row arrives, one.
pub proof fn law_a_cast_without_a_type(
    input: AnchorFactsView,
    output: AnchorFactsView,
    out_placed: bool,
    splits: Seq<RowSplit>,
)
    ensures
        rows_arriving(input).len() == 0 ==> ribbons_of_cast(
            input,
            None,
            output,
            out_placed,
            splits,
        ).len() == 1,
        rows_arriving(input).len() > 0 ==> ribbons_of_cast(
            input,
            None,
            output,
            out_placed,
            splits,
        ).len() == rows_arriving(input).len(),
        forall|i: int|
            0 <= i < rows_arriving(input).len() ==> {
                let row = rows_arriving(input)[i];
                let drawn = #[trigger] ribbons_of_cast(input, None, output, out_placed, splits)[i];
                &&& drawn.leg == CastLeg::ToTarget
                &&& drawn.ribbon matches Ribbon::Pending { start, end }
                &&& start.row == row.0 as usize
                &&& start.span == (RowSpan { top: 0, bottom: 2 })
                &&& start.as_line == render::is_line(row.1, input.incoming_literal)
                &&& end.row == 0
                &&& end.span == (RowSpan { top: 0, bottom: 2 })
                &&& !end.as_line
            },
{
    let rows = rows_arriving(input);
    let none_row = if out_placed {
        none_row_of(rows_leaving(output))
    } else {
        None
    };
    let f = |i: int| split_row(rows[i], input.incoming_literal, None, splits[i], none_row);
    assert forall|i: int| (#[trigger] f(i)).len() == 1 by {}
    lemma_gathered_singles(f, rows.len());
    if out_placed {
        let first = legs_from_input(input, None, none_row, splits);
        assert(ribbons_of_cast(input, None, output, out_placed, splits) =~= first);
    }
}

proof fn lemma_reached(nodes: Map<usize, ENode>, bands: Set<usize>, patterns: Seq<node::Id>)
    ensures
        forall|k: int|
            0 <= k < reached(nodes, bands, patterns).len() ==> {
                let arm = #[trigger] reached(nodes, bands, patterns)[k];
                &&& patterns.contains(arm)
                &&& nodes.contains_key(arm.0)
                &&& nodes[arm.0] is Pattern
                &&& bands.contains(arm.0)
            },
        forall|i: int|
            0 <= i < patterns.len() && nodes.contains_key((#[trigger] patterns[i]).0)
                && nodes[patterns[i].0] is Pattern && bands.contains(patterns[i].0) ==> reached(
                nodes,
                bands,
                patterns,
            ).contains(patterns[i]),
    decreases patterns.len(),
{
    let keep = |pattern: node::Id| is_reached(nodes, bands, pattern);
    reveal(Seq::filter);
    if patterns.len() > 0 {
        let shorter = patterns.drop_last();
        lemma_reached(nodes, bands, shorter);
        let before = reached(nodes, bands, shorter);
        let now = reached(nodes, bands, patterns);
        assert(now == if keep(patterns.last()) {
            before.push(patterns.last())
        } else {
            before
        });
        assert forall|k: int| 0 <= k < now.len() implies {
            let arm = #[trigger] now[k];
            &&& patterns.contains(arm)
            &&& nodes.contains_key(arm.0)
            &&& nodes[arm.0] is Pattern
            &&& bands.contains(arm.0)
        } by {
            if k < before.len() {
                assert(now[k] == before[k]);
                assert(shorter.contains(before[k]));
                let at = choose|at: int| 0 <= at < shorter.len() && shorter[at] == before[k];
                assert(patterns[at] == now[k]);
            } else {
                assert(patterns[patterns.len() - 1] == now[k]);
            }
        }
        assert forall|i: int|
            0 <= i < patterns.len() && nodes.contains_key((#[trigger] patterns[i]).0)
                && nodes[patterns[i].0] is Pattern && bands.contains(
                patterns[i].0,
            ) implies now.contains(patterns[i]) by {
            if i < shorter.len() {
                assert(shorter[i] == patterns[i]);
                assert(before.contains(patterns[i]));
                let at = choose|at: int| 0 <= at < before.len() && before[at] == patterns[i];
                assert(now[at] == patterns[i]);
            } else {
                assert(now[before.len() as int] == patterns[i]);
            }
        }
    }
}

/// A ribbon is drawn to an arm exactly if it is an arm and its cell is drawn.
pub proof fn law_which_arms_are_reached(
    nodes: Map<usize, ENode>,
    bands: Set<usize>,
    patterns: Seq<node::Id>,
    arm: node::Id,
)
    ensures
        reached(nodes, bands, patterns).contains(arm) <==> patterns.contains(arm)
            && nodes.contains_key(arm.0) && nodes[arm.0] is Pattern && bands.contains(arm.0),
{
    lemma_reached(nodes, bands, patterns);
    let found = reached(nodes, bands, patterns);
    if found.contains(arm) {
        let k = choose|k: int| 0 <= k < found.len() && found[k] == arm;
        assert(found[k] == arm);
    }
    if patterns.contains(arm) {
        let i = choose|i: int| 0 <= i < patterns.len() && patterns[i] == arm;
        assert(patterns[i] == arm);
    }
}

/// The input of the Sink that a branch ends in, where the branch has one and the
/// input is drawn.
pub open spec fn end_of_branch(
    nodes: Map<usize, ENode>,
    placed: Set<usize>,
    pattern: node::Id,
) -> Option<anchor::Id> {
    if !nodes.contains_key(pattern.0) {
        None
    } else {
        match nodes[pattern.0] {
            ENode::Pattern { sink_node_id, .. } => if !nodes.contains_key(sink_node_id.0) {
                None
            } else {
                match nodes[sink_node_id.0] {
                    ENode::Sink { input_anchor } => if placed.contains(input_anchor.0) {
                        Some(input_anchor)
                    } else {
                        None
                    },
                    _ => None,
                }
            },
            _ => None,
        }
    }
}

/// The input of the Sink that a branch ends in: a Pattern names its Sink, and a
/// Sink names its anchor.
pub fn branch_end(
    nodes: &HashMap<usize, ENode>,
    placed: &HashSet<usize>,
    pattern: node::Id,
) -> (end: Option<anchor::Id>)
    ensures
        end == end_of_branch(nodes@, placed@, pattern),
{
    match nodes.get(&pattern.0) {
        Some(ENode::Pattern { sink_node_id, .. }) => match nodes.get(&sink_node_id.0) {
            Some(ENode::Sink { input_anchor }) => if placed.contains(&input_anchor.0) {
                Some(*input_anchor)
            } else {
                None
            },
            _ => None,
        },
        _ => None,
    }
}

/// A branch ends at the input of the Sink that its arm names, where that input is
/// drawn; and where any of the three is missing it ends nowhere.
pub proof fn law_where_a_branch_ends(
    nodes: Map<usize, ENode>,
    placed: Set<usize>,
    pattern: node::Id,
    at: anchor::Id,
)
    ensures
        end_of_branch(nodes, placed, pattern) == Some(at) <==> exists|sink: node::Id|
            {
                &&& nodes.contains_key(pattern.0)
                &&& nodes[pattern.0] is Pattern
                &&& nodes[pattern.0]->sink_node_id == sink
                &&& #[trigger] nodes.contains_key(sink.0)
                &&& nodes[sink.0] is Sink
                &&& nodes[sink.0]->Sink_input_anchor == at
                &&& placed.contains(at.0)
            },
{
    if end_of_branch(nodes, placed, pattern) == Some(at) {
        let sink = nodes[pattern.0]->sink_node_id;
        assert(nodes.contains_key(sink.0));
    }
}

/// What has no rows is joined all the same, by one pending band from the one anchor's
/// own row to the other's: along an edge, from a Match to an arm, and from the input
/// of a cast to its cell. The band is a line only at a cell that names a literal or
/// the absence of a value.
pub proof fn law_what_has_no_rows_is_joined(
    source: AnchorFactsView,
    target: AnchorFactsView,
    declared: Option<etype::ETypeView>,
    spans: Seq<Option<RowSpan>>,
    output: AnchorFactsView,
    out_placed: bool,
    splits: Seq<RowSplit>,
)
    ensures
        rows_leaving(source).len() == 0 ==> {
            let ribbons = ribbons_of_edge(source, target);
            &&& ribbons.len() == 1
            &&& ribbons[0] matches Ribbon::Pending { start, end }
            &&& start.row == 0 && end.row == 0
            &&& !start.as_line && !end.as_line
            &&& start.span == (RowSpan { top: 0, bottom: 2 })
            &&& end.span == (RowSpan { top: 0, bottom: 2 })
        },
        rows_arriving(source).len() == 0 ==> {
            let ribbons = ribbons_to_arm(source, declared, spans);
            &&& ribbons.len() == 1
            &&& ribbons[0] matches Ribbon::Pending { start, end }
            &&& start.row == 0 && end.row == 0
            &&& !start.as_line
            &&& end.as_line <==> declared is Some && (declared->0 is NoneType || infer::carried(
                declared->0,
            ).literal() is Some)
            &&& start.span == (RowSpan { top: 0, bottom: 2 })
            &&& end.span == (RowSpan { top: 0, bottom: 2 })
        },
        rows_arriving(source).len() == 0 ==> {
            let ribbons = ribbons_of_cast(source, declared, output, out_placed, splits);
            &&& ribbons.len() == 1
            &&& ribbons[0].leg == CastLeg::ToTarget
            &&& ribbons[0].ribbon matches Ribbon::Pending { start, end }
            &&& start.row == 0 && end.row == 0
            &&& !start.as_line
            &&& end.as_line <==> declared is Some && (declared->0 is NoneType || infer::carried(
                declared->0,
            ).literal() is Some)
        },
{
    if rows_arriving(source).len() == 0 && out_placed {
        let first = legs_from_input(source, declared, none_row_of(rows_leaving(output)), splits);
        assert(ribbons_of_cast(source, declared, output, out_placed, splits) =~= first);
    }
}

} // verus!
