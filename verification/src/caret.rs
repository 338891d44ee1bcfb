//! Moving the caret, and saying where it stands.

use crate::cell::Cell;
use crate::model::node;
use crate::text;
use vstd::prelude::*;

verus! {

/// The four directions, named by their vim letters. The arrows carry the same
/// four names.
#[derive(Clone, Copy, Debug, PartialEq, Eq, Structural)]
pub enum Direction {
    H,
    J,
    K,
    L,
}

/// The way a direction leads, in layout coordinates. Layout `+Y` renders
/// downward and `+Z` runs source-to-sink. Sideways there is nothing to shift.
pub open spec fn delta_of(direction: Direction, shift: bool) -> Option<Cell> {
    match (direction, shift) {
        (Direction::K, false) => Some(Cell { x: (-1) as i32, y: 0, z: 0 }),
        (Direction::K, true) => Some(Cell { x: 0, y: (-1) as i32, z: 0 }),
        (Direction::J, false) => Some(Cell { x: 1, y: 0, z: 0 }),
        (Direction::J, true) => Some(Cell { x: 0, y: 1, z: 0 }),
        (Direction::H, false) => Some(Cell { x: 0, y: 0, z: (-1) as i32 }),
        (Direction::L, false) => Some(Cell { x: 0, y: 0, z: 1 }),
        _ => None,
    }
}

/// The way a direction leads.
pub fn caret_delta(direction: Direction, shift: bool) -> (delta: Option<Cell>)
    ensures
        delta == delta_of(direction, shift),
{
    match (direction, shift) {
        (Direction::K, false) => Some(Cell::new(-1, 0, 0)),
        (Direction::K, true) => Some(Cell::new(0, -1, 0)),
        (Direction::J, false) => Some(Cell::new(1, 0, 0)),
        (Direction::J, true) => Some(Cell::new(0, 1, 0)),
        (Direction::H, false) => Some(Cell::new(0, 0, -1)),
        (Direction::L, false) => Some(Cell::new(0, 0, 1)),
        _ => None,
    }
}

/// The direction a typed text names: one letter, in either case.
pub open spec fn direction_named(s: Seq<char>) -> Option<Direction> {
    if s.len() != 1 {
        None
    } else if s[0] == 'h' || s[0] == 'H' {
        Some(Direction::H)
    } else if s[0] == 'j' || s[0] == 'J' {
        Some(Direction::J)
    } else if s[0] == 'k' || s[0] == 'K' {
        Some(Direction::K)
    } else if s[0] == 'l' || s[0] == 'L' {
        Some(Direction::L)
    } else {
        None
    }
}

/// The direction a typed text names. Shift reports the uppercase character; the
/// shifted meaning comes from the modifier, as it does for the arrows.
pub fn direction_of_letter(s: &str) -> (direction: Option<Direction>)
    ensures
        direction == direction_named(s@),
{
    if s.unicode_len() != 1 {
        return None;
    }
    let c = s.get_char(0);
    if c == 'h' || c == 'H' {
        Some(Direction::H)
    } else if c == 'j' || c == 'J' {
        Some(Direction::J)
    } else if c == 'k' || c == 'K' {
        Some(Direction::K)
    } else if c == 'l' || c == 'L' {
        Some(Direction::L)
    } else {
        None
    }
}

/// The first direction that one of the letters names.
pub open spec fn first_direction(letters: Seq<String>) -> Option<Direction>
    decreases letters.len(),
{
    if letters.len() == 0 {
        None
    } else {
        match direction_named(letters[0]@) {
            Some(direction) => Some(direction),
            None => first_direction(letters.drop_first()),
        }
    }
}

/// The arrow keys that were pressed this frame.
#[derive(Clone, Copy, Debug, PartialEq, Eq, Structural)]
pub struct Arrows {
    pub up: bool,
    pub down: bool,
    pub left: bool,
    pub right: bool,
}

/// The direction of the arrows: the first that is pressed, up before down before
/// left before right.
pub open spec fn arrow_direction(arrows: Arrows) -> Option<Direction> {
    if arrows.up {
        Some(Direction::K)
    } else if arrows.down {
        Some(Direction::J)
    } else if arrows.left {
        Some(Direction::H)
    } else if arrows.right {
        Some(Direction::L)
    } else {
        None
    }
}

/// The way the keys of a frame lead: the arrows' direction, and where none is
/// pressed the letters'.
pub open spec fn delta_pressed(arrows: Arrows, letters: Seq<String>, shift: bool) -> Option<Cell> {
    let direction = match arrow_direction(arrows) {
        Some(direction) => Some(direction),
        None => first_direction(letters),
    };
    match direction {
        Some(direction) => delta_of(direction, shift),
        None => None,
    }
}

/// The way the keys of a frame lead. `letters` are the texts of the keys pressed
/// for the first time, in order; `hjkl` rides alongside the arrows.
pub fn pressed_delta(arrows: Arrows, letters: &Vec<String>, shift: bool) -> (delta: Option<Cell>)
    ensures
        delta == delta_pressed(arrows, letters@, shift),
{
    let arrow = if arrows.up {
        Some(Direction::K)
    } else if arrows.down {
        Some(Direction::J)
    } else if arrows.left {
        Some(Direction::H)
    } else if arrows.right {
        Some(Direction::L)
    } else {
        None
    };
    if let Some(direction) = arrow {
        return caret_delta(direction, shift);
    }
    let mut i: usize = 0;
    assert(letters@.skip(0) == letters@);
    while i < letters.len()
        invariant
            i <= letters.len(),
            arrow_direction(arrows) is None,
            first_direction(letters@) == first_direction(letters@.skip(i as int)),
        decreases letters.len() - i,
    {
        assert(letters@.skip(i as int).drop_first() == letters@.skip(i + 1));
        if let Some(direction) = direction_of_letter(letters[i].as_str()) {
            return caret_delta(direction, shift);
        }
        i = i + 1;
    }
    None
}

/// What the navigation keys ask for.
#[derive(Clone, Copy, Debug, PartialEq, Eq, Structural)]
pub enum Move {
    /// Nothing.
    Stay,
    /// Move the node under the caret by this much.
    Node(Cell),
    /// Move the caret by this much.
    Caret(Cell),
}

/// What the navigation keys of a frame ask for.
pub open spec fn move_asked(delta: Option<Cell>, ctrl: bool, frozen: bool) -> Move {
    match delta {
        Some(delta) => if frozen {
            Move::Stay
        } else if ctrl {
            Move::Node(delta)
        } else {
            Move::Caret(delta)
        },
        None => Move::Stay,
    }
}

/// What the navigation keys of a frame ask for. `frozen` says that INSERT, an
/// evaluation or a text field has the keys; with `ctrl` the node under the caret
/// moves, and without it the caret.
pub fn navigation(
    arrows: Arrows,
    letters: &Vec<String>,
    shift: bool,
    ctrl: bool,
    frozen: bool,
) -> (res: Move)
    ensures
        res == move_asked(delta_pressed(arrows, letters@, shift), ctrl, frozen),
{
    if frozen {
        return Move::Stay;
    }
    match pressed_delta(arrows, letters, shift) {
        Some(delta) => if ctrl {
            Move::Node(delta)
        } else {
            Move::Caret(delta)
        },
        None => Move::Stay,
    }
}

/// Opposite keys undo each other, and every step goes along one axis by one.
pub proof fn law_opposite_steps(shift: bool)
    ensures
        delta_of(Direction::J, shift) matches Some(down) && delta_of(Direction::K, shift) matches Some(
            up,
        ) && down.sum(up) == (Cell { x: 0, y: 0, z: 0 }),
        delta_of(Direction::L, false) matches Some(along) && delta_of(
            Direction::H,
            false,
        ) matches Some(back) && along.sum(back) == (Cell { x: 0, y: 0, z: 0 }),
        delta_of(Direction::H, true) is None,
        delta_of(Direction::L, true) is None,
{
}

// ── Where the caret stands ──

/// An address as it is written.
pub open spec fn cell_spelling(cell: Cell) -> Seq<char> {
    "("@ + text::signed_decimal_of(cell.x as int) + ","@ + text::signed_decimal_of(cell.y as int)
        + ","@ + text::signed_decimal_of(cell.z as int) + ")"@
}

/// A grid address as the two lines above the panel write one.
pub fn cell_text(v: Cell) -> (text: String)
    ensures
        text@ == cell_spelling(v),
{
    "(".to_owned().concat(text::signed_decimal(v.x).as_str()).concat(",").concat(
        text::signed_decimal(v.y).as_str(),
    ).concat(",").concat(text::signed_decimal(v.z).as_str()).concat(")")
}

/// The frame a segment of the caret's path is measured in.
#[derive(Clone, Copy, Debug, PartialEq, Eq, Structural)]
pub enum Frame {
    Root,
    Branch,
    Match,
}

/// One step of the way to the caret: the frame its numbers are measured in, and
/// the way from that frame's origin to the next one.
#[derive(Clone, Copy, Debug, PartialEq, Eq, Structural)]
pub struct Segment {
    pub frame: Frame,
    pub offset: Cell,
}

/// The frame that level `i` of the path starts from: the outermost is the root
/// scope, every one after it is the branch the previous step led into.
pub open spec fn frame_at(i: int) -> Frame {
    if i == 0 {
        Frame::Root
    } else {
        Frame::Branch
    }
}

/// The segments of one level: to the Match and on into its branch, or, where the
/// Match has no place, the whole way at once.
pub open spec fn segments_of_level(i: int, into_branch: Cell, to_match: Option<Cell>) -> Seq<
    Segment,
> {
    match to_match {
        Some(to_match) => seq![
            Segment { frame: frame_at(i), offset: to_match },
            Segment { frame: Frame::Match, offset: into_branch.difference(to_match) },
        ],
        None => seq![Segment { frame: frame_at(i), offset: into_branch }],
    }
}

/// The segments of the first `levels` levels of a path.
pub open spec fn segments_into(
    origins: Seq<Cell>,
    to_matches: Seq<Option<Cell>>,
    levels: int,
) -> Seq<Segment>
    decreases levels,
{
    if levels <= 0 {
        Seq::empty()
    } else {
        segments_into(origins, to_matches, levels - 1) + segments_of_level(
            levels - 1,
            origins[levels].difference(origins[levels - 1]),
            to_matches[levels - 1],
        )
    }
}

/// The segments of the way to the caret: `origins` are where the scopes of its
/// path begin, from the root scope on inward, `to_matches` the places of the
/// Matches passed on the way, each in its own scope, and `local` the caret in the
/// innermost scope.
pub open spec fn segments_to(
    origins: Seq<Cell>,
    to_matches: Seq<Option<Cell>>,
    local: Cell,
) -> Seq<Segment> {
    segments_into(origins, to_matches, to_matches.len() as int).push(
        Segment { frame: frame_at(to_matches.len() as int), offset: local },
    )
}

/// The steps of a path can be written down.
pub open spec fn can_step(origins: Seq<Cell>, to_matches: Seq<Option<Cell>>) -> bool {
    &&& origins.len() == to_matches.len() + 1
    &&& forall|i: int|
        0 <= i < to_matches.len() ==> {
            &&& origins[i + 1].can_subtract(#[trigger] origins[i])
            &&& to_matches[i] matches Some(to_match) ==> origins[i + 1].difference(
                origins[i],
            ).can_subtract(to_match)
        }
}

/// The way to the caret, as the chain of offsets it is.
///
/// A nesting level becomes *two* segments, because the way into a branch goes
/// past the Match that holds it. A step that is not shaped like that is one
/// segment carrying the whole offset instead of two.
pub fn relative_path(
    origins: &Vec<Cell>,
    to_matches: &Vec<Option<Cell>>,
    local: Cell,
) -> (segments: Vec<Segment>)
    requires
        can_step(origins@, to_matches@),
    ensures
        segments@ == segments_to(origins@, to_matches@, local),
{
    let mut segments: Vec<Segment> = Vec::new();
    let mut i: usize = 0;
    while i < to_matches.len()
        invariant
            i <= to_matches.len(),
            can_step(origins@, to_matches@),
            segments@ == segments_into(origins@, to_matches@, i as int),
        decreases to_matches.len() - i,
    {
        let frame = if i == 0 {
            Frame::Root
        } else {
            Frame::Branch
        };
        let ghost before = segments@;
        assert(origins@[i + 1].can_subtract(origins@[i as int]));
        let into_branch = origins[i + 1].minus(origins[i]);
        match to_matches[i] {
            Some(to_match) => {
                segments.push(Segment { frame, offset: to_match });
                segments.push(Segment { frame: Frame::Match, offset: into_branch.minus(to_match) });
            },
            None => segments.push(Segment { frame, offset: into_branch }),
        }
        assert(segments@ =~= before + segments_of_level(
            i as int,
            into_branch,
            to_matches@[i as int],
        ));
        i = i + 1;
    }
    let innermost = if to_matches.len() == 0 {
        Frame::Root
    } else {
        Frame::Branch
    };
    segments.push(Segment { frame: innermost, offset: local });
    segments
}

/// The sum of the offsets of a path, axis by axis.
pub open spec fn total(segments: Seq<Segment>) -> (int, int, int)
    decreases segments.len(),
{
    if segments.len() == 0 {
        (0, 0, 0)
    } else {
        let (x, y, z) = total(segments.drop_last());
        let last = segments.last().offset;
        (x + last.x, y + last.y, z + last.z)
    }
}

proof fn lemma_total_concat(a: Seq<Segment>, b: Seq<Segment>)
    ensures
        ({
            let (x, y, z) = total(a);
            let (p, q, r) = total(b);
            total(a + b) == (x + p, y + q, z + r)
        }),
    decreases b.len(),
{
    if b.len() == 0 {
        assert(a + b =~= a);
    } else {
        lemma_total_concat(a, b.drop_last());
        assert((a + b).drop_last() =~= a + b.drop_last());
        assert((a + b).last() == b.last());
    }
}

proof fn lemma_total_of_level(i: int, into_branch: Cell, to_match: Option<Cell>)
    requires
        to_match matches Some(to_match) ==> into_branch.can_subtract(to_match),
    ensures
        total(segments_of_level(i, into_branch, to_match)) == (
            into_branch.x as int,
            into_branch.y as int,
            into_branch.z as int,
        ),
{
    reveal_with_fuel(total, 3);
    let segments = segments_of_level(i, into_branch, to_match);
    match to_match {
        Some(to_match) => {
            assert(segments.drop_last() =~= seq![
                Segment { frame: frame_at(i), offset: to_match },
            ]);
            assert(segments.drop_last().drop_last() =~= Seq::<Segment>::empty());
        },
        None => {
            assert(segments.drop_last() =~= Seq::<Segment>::empty());
        },
    }
}

proof fn lemma_total_into(origins: Seq<Cell>, to_matches: Seq<Option<Cell>>, levels: int)
    requires
        can_step(origins, to_matches),
        0 <= levels <= to_matches.len(),
    ensures
        total(segments_into(origins, to_matches, levels)) == (
            origins[levels].x - origins[0].x,
            origins[levels].y - origins[0].y,
            origins[levels].z - origins[0].z,
        ),
    decreases levels,
{
    if levels > 0 {
        lemma_total_into(origins, to_matches, levels - 1);
        assert(origins[levels - 1 + 1].can_subtract(origins[levels - 1]));
        let into_branch = origins[levels].difference(origins[levels - 1]);
        lemma_total_of_level(levels - 1, into_branch, to_matches[levels - 1]);
        lemma_total_concat(
            segments_into(origins, to_matches, levels - 1),
            segments_of_level(levels - 1, into_branch, to_matches[levels - 1]),
        );
    }
}

/// The segments of the way to the caret sum to its absolute address, so the line
/// can be checked by adding it up.
pub proof fn law_segments_sum_to_the_address(
    origins: Seq<Cell>,
    to_matches: Seq<Option<Cell>>,
    local: Cell,
)
    requires
        can_step(origins, to_matches),
        origins[0] == (Cell { x: 0, y: 0, z: 0 }),
    ensures
        total(segments_to(origins, to_matches, local)) == (
            origins.last().x + local.x,
            origins.last().y + local.y,
            origins.last().z + local.z,
        ),
{
    let levels = to_matches.len() as int;
    lemma_total_into(origins, to_matches, levels);
    let segments = segments_to(origins, to_matches, local);
    assert(segments.drop_last() =~= segments_into(origins, to_matches, levels));
}

/// What a frame is called.
pub open spec fn frame_name(frame: Frame) -> Seq<char> {
    match frame {
        Frame::Root => "Root"@,
        Frame::Branch => "Branch"@,
        Frame::Match => "Match"@,
    }
}

/// One step as it is written.
pub open spec fn segment_spelling(segment: Segment) -> Seq<char> {
    frame_name(segment.frame) + cell_spelling(segment.offset)
}

/// The way to the caret as it is written.
pub open spec fn path_spelling(segments: Seq<Segment>) -> Seq<char> {
    text::joined(segments.map_values(|segment: Segment| segment_spelling(segment)), " > "@)
}

/// The way to the caret, written as the chain of offsets it is.
pub fn relative_path_text(segments: &Vec<Segment>) -> (text: String)
    ensures
        text@ == path_spelling(segments@),
{
    let ghost parts = segments@.map_values(|segment: Segment| segment_spelling(segment));
    let mut text = String::new();
    let mut i: usize = 0;
    while i < segments.len()
        invariant
            i <= segments.len(),
            parts == segments@.map_values(|segment: Segment| segment_spelling(segment)),
            text@ == text::joined(parts.take(i as int), " > "@),
        decreases segments.len() - i,
    {
        let name = match segments[i].frame {
            Frame::Root => "Root",
            Frame::Branch => "Branch",
            Frame::Match => "Match",
        };
        let part = name.to_owned().concat(cell_text(segments[i].offset).as_str());
        assert(part@ == parts[i as int]);
        if i > 0 {
            text = text.concat(" > ");
        }
        text = text.concat(part.as_str());
        assert(parts.take(i + 1).drop_last() == parts.take(i as int));
        assert(text@ == text::joined(parts.take(i + 1), " > "@));
        i = i + 1;
    }
    assert(parts.take(i as int) == parts);
    text
}

/// The line that says how to get to the caret. A caret inside no scope volume at
/// all has no path to write.
pub fn relative_line(segments: Option<&Vec<Segment>>) -> (line: String)
    ensures
        line@ == match segments {
            Some(segments) => "Relative: "@ + path_spelling(segments@),
            None => "Relative: —"@,
        },
{
    match segments {
        Some(segments) => "Relative: ".to_owned().concat(relative_path_text(segments).as_str()),
        None => "Relative: —".to_owned(),
    }
}

/// The line that says where the caret stands.
pub fn absolute_line(caret: Cell) -> (line: String)
    ensures
        line@ == "Absolute: "@ + cell_spelling(caret),
{
    "Absolute: ".to_owned().concat(cell_text(caret).as_str())
}

/// The scope a walked node stands in, relative to the root graph.
pub open spec fn scope_relative(root_id: node::Id, context: Seq<node::Id>) -> Seq<node::Id> {
    if context.len() > 0 && context[0] == root_id {
        context.drop_first()
    } else {
        Seq::empty()
    }
}

/// The scope a walked node stands in, written the way every scope path is:
/// relative to the root graph, empty at the program's own scope. A walk starts
/// one level further out, so its contexts carry the root id in front.
pub fn scope_of_walk(root_id: node::Id, context: &Vec<node::Id>) -> (scope: Vec<node::Id>)
    ensures
        scope@ == scope_relative(root_id, context@),
{
    let mut scope: Vec<node::Id> = Vec::new();
    if context.len() > 0 && context[0] == root_id {
        let mut i: usize = 1;
        while i < context.len()
            invariant
                1 <= i <= context.len(),
                scope@ == context@.subrange(1, i as int),
            decreases context.len() - i,
        {
            scope.push(context[i]);
            assert(context@.subrange(1, i + 1) =~= context@.subrange(1, i as int).push(
                context@[i as int],
            ));
            i = i + 1;
        }
        assert(context@.drop_first() =~= context@.subrange(1, i as int));
    }
    scope
}

/// Up and down go along the first axis, with shift along the second, and sideways
/// goes along the third: one cell at a time, down and right being onward.
pub proof fn law_which_way_a_step_goes(direction: Direction, shift: bool)
    ensures
        delta_of(direction, shift) is None <==> shift && (direction == Direction::H || direction
            == Direction::L),
        delta_of(direction, shift) matches Some(way) ==> {
            let step: int = if direction == Direction::J || direction == Direction::L {
                1
            } else {
                -1
            };
            let sideways = direction == Direction::H || direction == Direction::L;
            &&& way.x == if !sideways && !shift {
                step
            } else {
                0
            }
            &&& way.y == if !sideways && shift {
                step
            } else {
                0
            }
            &&& way.z == if sideways {
                step
            } else {
                0
            }
        },
{
}

/// A letter names a direction alone and in either case, and no other text names
/// one.
pub proof fn law_which_letters_name_a_direction(s: Seq<char>)
    ensures
        direction_named(s) == Some(Direction::H) <==> s == seq!['h'] || s == seq!['H'],
        direction_named(s) == Some(Direction::J) <==> s == seq!['j'] || s == seq!['J'],
        direction_named(s) == Some(Direction::K) <==> s == seq!['k'] || s == seq!['K'],
        direction_named(s) == Some(Direction::L) <==> s == seq!['l'] || s == seq!['L'],
{
    if s.len() == 1 {
        assert(s =~= seq![s[0]]);
    }
}

/// The arrows mean what the letters mean: up is `k`, down `j`, left `h` and right
/// `l`. An arrow outranks every letter, and of the letters the first that names a
/// direction counts.
pub proof fn law_which_key_leads(arrows: Arrows, letters: Seq<String>, shift: bool)
    ensures
        arrows.up ==> delta_pressed(arrows, letters, shift) == delta_of(Direction::K, shift),
        arrows.down && !arrows.up ==> delta_pressed(arrows, letters, shift) == delta_of(
            Direction::J,
            shift,
        ),
        arrows.left && !arrows.up && !arrows.down ==> delta_pressed(arrows, letters, shift)
            == delta_of(Direction::H, shift),
        arrows.right && !arrows.up && !arrows.down && !arrows.left ==> delta_pressed(
            arrows,
            letters,
            shift,
        ) == delta_of(Direction::L, shift),
        !(arrows.up || arrows.down || arrows.left || arrows.right) ==> {
            &&& letters.len() == 0 ==> delta_pressed(arrows, letters, shift) is None
            &&& letters.len() > 0 && direction_named(letters[0]@) is Some ==> delta_pressed(
                arrows,
                letters,
                shift,
            ) == delta_of(direction_named(letters[0]@)->0, shift)
            &&& letters.len() > 0 && direction_named(letters[0]@) is None ==> delta_pressed(
                arrows,
                letters,
                shift,
            ) == delta_pressed(arrows, letters.drop_first(), shift)
        },
{
}

/// An address is written as its three numbers, in the order of the axes.
pub proof fn law_how_an_address_is_written(cell: Cell)
    ensures
        cell_spelling(cell) == seq!['('] + text::signed_decimal_of(cell.x as int) + seq![',']
            + text::signed_decimal_of(cell.y as int) + seq![','] + text::signed_decimal_of(
            cell.z as int,
        ) + seq![')'],
{
    reveal_strlit("(");
    reveal_strlit(",");
    reveal_strlit(")");
    assert("("@ =~= seq!['(']);
    assert(","@ =~= seq![',']);
    assert(")"@ =~= seq![')']);
}

proof fn lemma_frames_into(origins: Seq<Cell>, to_matches: Seq<Option<Cell>>, levels: int)
    requires
        0 <= levels <= to_matches.len(),
    ensures
        ({
            let segments = segments_into(origins, to_matches, levels);
            &&& levels > 0 ==> segments.len() > 0 && segments[0].frame == Frame::Root
            &&& levels == 0 ==> segments.len() == 0
            &&& forall|i: int|
                0 < i < segments.len() ==> (#[trigger] segments[i]).frame != Frame::Root
        }),
    decreases levels,
{
    if levels > 0 {
        lemma_frames_into(origins, to_matches, levels - 1);
        let before = segments_into(origins, to_matches, levels - 1);
        let more = segments_of_level(
            levels - 1,
            origins[levels].difference(origins[levels - 1]),
            to_matches[levels - 1],
        );
        let segments = segments_into(origins, to_matches, levels);
        assert(segments == before + more);
        assert(segments[0] == if levels == 1 {
            more[0]
        } else {
            before[0]
        });
        assert forall|i: int| 0 < i < segments.len() implies (#[trigger] segments[i]).frame
            != Frame::Root by {
            if i < before.len() {
                assert(segments[i] == before[i]);
            } else {
                assert(segments[i] == more[i - before.len()]);
            }
        }
    }
}

/// The way to the caret starts in the root scope and never comes back to it, and
/// it ends with the caret's own place in its scope, which is the root's or a
/// branch's and never a Match's.
pub proof fn law_the_way_goes_inward(
    origins: Seq<Cell>,
    to_matches: Seq<Option<Cell>>,
    local: Cell,
)
    ensures
        ({
            let segments = segments_to(origins, to_matches, local);
            &&& segments.len() > 0
            &&& segments[0].frame == Frame::Root
            &&& forall|i: int|
                0 < i < segments.len() ==> (#[trigger] segments[i]).frame != Frame::Root
            &&& segments.last().offset == local
            &&& segments.last().frame != Frame::Match
            &&& to_matches.len() == 0 ==> segments.len() == 1
        }),
{
    lemma_frames_into(origins, to_matches, to_matches.len() as int);
    let before = segments_into(origins, to_matches, to_matches.len() as int);
    let segments = segments_to(origins, to_matches, local);
    assert(segments == before.push(segments.last()));
    if before.len() > 0 {
        assert(segments[0] == before[0]);
    }
    assert forall|i: int| 0 < i < segments.len() implies (#[trigger] segments[i]).frame
        != Frame::Root by {
        if i < before.len() {
            assert(segments[i] == before[i]);
        }
    }
}

/// A level whose Match has a place is two steps, to the Match and on from it into
/// the branch, and one whose Match has none is the whole way at once.
pub proof fn law_a_level_goes_past_its_match(i: int, into_branch: Cell, to_match: Option<Cell>)
    ensures
        ({
            let segments = segments_of_level(i, into_branch, to_match);
            &&& to_match matches Some(way) ==> segments.len() == 2 && segments[0].offset == way
                && segments[1].frame == Frame::Match
            &&& to_match is None ==> segments.len() == 1 && segments[0].offset == into_branch
            &&& segments[0].frame != Frame::Match
        }),
{
}

/// A step is written as its frame and its offset, and the steps with an arrow
/// between each two.
pub proof fn law_how_the_way_is_written(segments: Seq<Segment>, segment: Segment)
    ensures
        path_spelling(seq![segment]) == frame_name(segment.frame) + cell_spelling(segment.offset),
        segments.len() > 0 ==> path_spelling(segments.push(segment)) == path_spelling(segments)
            + seq![' ', '>', ' '] + frame_name(segment.frame) + cell_spelling(segment.offset),
        frame_name(Frame::Root)[0] == 'R',
        frame_name(Frame::Branch)[0] == 'B',
        frame_name(Frame::Match)[0] == 'M',
{
    reveal_strlit("Root");
    reveal_strlit("Branch");
    reveal_strlit("Match");
    reveal_strlit(" > ");
    assert(" > "@ =~= seq![' ', '>', ' ']);
    let spelled = |segment: Segment| segment_spelling(segment);
    assert(seq![segment].map_values(spelled) =~= seq![segment_spelling(segment)]);
    let parts = segments.map_values(spelled);
    assert(segments.push(segment).map_values(spelled) =~= parts.push(segment_spelling(segment)));
    text::law_how_texts_are_joined(parts, segment_spelling(segment), " > "@);
    if segments.len() > 0 {
        assert(path_spelling(segments.push(segment)) =~= path_spelling(segments) + seq![
            ' ',
            '>',
            ' ',
        ] + frame_name(segment.frame) + cell_spelling(segment.offset));
    }
}

/// The scope of a walked node is what follows the root in its context; a context
/// that does not start at the root is no scope of the program.
pub proof fn law_scopes_are_relative_to_the_root(
    root_id: node::Id,
    context: Seq<node::Id>,
    other: node::Id,
)
    ensures
        scope_relative(root_id, seq![root_id] + context) == context,
        other != root_id ==> scope_relative(root_id, seq![other] + context).len() == 0,
        scope_relative(root_id, Seq::empty()).len() == 0,
{
    assert((seq![root_id] + context).drop_first() =~= context);
}

/// The keys move the caret, and with control the node under it, by the way they
/// lead; while something else has the keys, and where they lead nowhere, nothing
/// moves.
pub proof fn law_what_the_keys_move(delta: Cell, ctrl: bool)
    ensures
        move_asked(Some(delta), true, false) == Move::Node(delta),
        move_asked(Some(delta), false, false) == Move::Caret(delta),
        move_asked(Some(delta), ctrl, true) == Move::Stay,
        move_asked(None, ctrl, false) == Move::Stay,
{
}

} // verus!
