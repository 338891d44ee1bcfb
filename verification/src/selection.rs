//! Where the highlight of a prompt's list stands, and which rows are on screen.

use crate::suggest::Suggestion;
use crate::text;
use std::ops::Range;
use vstd::prelude::*;

verus! {

/// How many suggestions are on screen at once. There is no scrolling, so a
/// longer list is windowed rather than clipped.
pub const PROMPT_ROWS: usize = 8;

/// The row at `index` can be committed.
pub open spec fn allowed_at(candidates: Seq<Suggestion>, index: int) -> bool {
    0 <= index < candidates.len() && candidates[index].allowed
}

/// The row from which a step starts looking, going the way of `delta`.
pub open spec fn step_start(len: nat, from: Option<usize>, delta: int) -> int {
    match from {
        Some(index) => (if index < len {
            index as int
        } else {
            len - 1
        }) + delta,
        None => if delta > 0 {
            0
        } else {
            len - 1
        },
    }
}

/// `index` is the first row that can be committed, from `start` on down the list.
pub open spec fn first_below(candidates: Seq<Suggestion>, start: int, index: int) -> bool {
    &&& start <= index
    &&& allowed_at(candidates, index)
    &&& forall|i: int| start <= i < index ==> !#[trigger] allowed_at(candidates, i)
}

/// `index` is the first row that can be committed, from `start` on up the list.
pub open spec fn first_above(candidates: Seq<Suggestion>, start: int, index: int) -> bool {
    &&& index <= start
    &&& allowed_at(candidates, index)
    &&& forall|i: int| index < i <= start ==> !#[trigger] allowed_at(candidates, i)
}

/// Step the highlight to the next committable suggestion. Rows that are greyed
/// out can never be committed, so the highlight does not stop on them.
///
/// It walks in one direction, down for `1` and up for `-1`, and **does not
/// wrap**: stepping off either end leaves the list. From outside the list the
/// two ends are one keypress away: down enters at the first row, up at the last.
pub fn step_selection(
    candidates: &[Suggestion],
    from: Option<usize>,
    delta: isize,
) -> (res: Option<usize>)
    requires
        delta == 1 || delta == -1,
    ensures
        ({
            let start = step_start(candidates@.len(), from, delta as int);
            match res {
                Some(index) => if delta == 1 {
                    first_below(candidates@, start, index as int)
                } else {
                    first_above(candidates@, start, index as int)
                },
                None => forall|i: int|
                    (if delta == 1 {
                        start <= i
                    } else {
                        i <= start
                    }) ==> !#[trigger] allowed_at(candidates@, i),
            }
        }),
{
    let len: usize = candidates.len();
    if len == 0 {
        return None;
    }
    let ghost start = step_start(len as nat, from, delta as int);
    if delta == 1 {
        let mut index: usize = match from {
            Some(index) => (if index < len {
                index
            } else {
                len - 1
            }) + 1,
            None => 0,
        };
        while index < len
            invariant
                len == candidates@.len(),
                delta == 1,
                start == step_start(len as nat, from, 1),
                start <= index <= len,
                forall|i: int| start <= i < index ==> !#[trigger] allowed_at(candidates@, i),
            decreases len - index,
        {
            if candidates[index].allowed {
                assert(allowed_at(candidates@, index as int));
                return Some(index);
            }
            index = index + 1;
        }
        None
    } else {
        // One past the row that is looked at next.
        let mut above: usize = match from {
            Some(index) => if index < len {
                index
            } else {
                len - 1
            },
            None => len,
        };
        while above > 0
            invariant
                len == candidates@.len(),
                delta == -1,
                start == step_start(len as nat, from, -1),
                above <= len,
                above - 1 <= start,
                forall|i: int| above - 1 < i <= start ==> !#[trigger] allowed_at(candidates@, i),
            decreases above,
        {
            above = above - 1;
            if candidates[above].allowed {
                assert(allowed_at(candidates@, above as int));
                return Some(above);
            }
        }
        None
    }
}

/// A step down and a step up never leave the list for a row that is not there,
/// and never come to rest where they started from.
pub proof fn law_step_moves_on(candidates: Seq<Suggestion>, from: usize, index: usize)
    requires
        from < candidates.len(),
    ensures
        first_below(candidates, step_start(candidates.len(), Some(from), 1), index as int) ==> from
            < index < candidates.len(),
        first_above(candidates, step_start(candidates.len(), Some(from), -1), index as int)
            ==> index < from,
{
}

/// Going down one row and up again comes back to the row, if it can be
/// committed.
pub proof fn law_step_back(candidates: Seq<Suggestion>, from: usize, index: usize, back: usize)
    requires
        from < candidates.len(),
        candidates[from as int].allowed,
        first_below(candidates, step_start(candidates.len(), Some(from), 1), index as int),
        first_above(candidates, step_start(candidates.len(), Some(index), -1), back as int),
    ensures
        back == from,
{
    assert(allowed_at(candidates, from as int));
    assert(allowed_at(candidates, back as int));
}

/// The highlight after the text changed.
pub open spec fn selected_first(text: Seq<char>, candidates: Seq<Suggestion>) -> Option<usize> {
    if exists|index: int| first_below(candidates, 0, index) {
        let index = choose|index: int| first_below(candidates, 0, index);
        if text.len() > 0 || candidates[index].label@.len() == 0 {
            Some(index as usize)
        } else {
            None
        }
    } else {
        None
    }
}

/// There is but one first row.
proof fn lemma_first_below_unique(candidates: Seq<Suggestion>, a: int, b: int)
    requires
        first_below(candidates, 0, a),
        first_below(candidates, 0, b),
    ensures
        a == b,
{
    assert(allowed_at(candidates, a));
    assert(allowed_at(candidates, b));
}

/// Where the highlight lands after the text changed: the first suggestion that
/// can actually be committed, and none at all while nothing is typed, because
/// nothing typed is nothing chosen.
///
/// The one exception is a row that *is* the text: an empty prompt highlights a
/// row whose label is empty too, and nothing else.
pub fn first_selection(text: &str, candidates: &[Suggestion]) -> (res: Option<usize>)
    ensures
        res == selected_first(text@, candidates@),
        match res {
            Some(index) => first_below(candidates@, 0, index as int) && (text@.len() > 0
                || candidates@[index as int].label@.len() == 0),
            None => forall|index: int| #[trigger]
                first_below(candidates@, 0, index) ==> text@.len() == 0
                    && candidates@[index].label@.len() > 0,
        },
{
    let mut index: usize = 0;
    while index < candidates.len()
        invariant
            index <= candidates@.len(),
            forall|i: int| 0 <= i < index ==> !#[trigger] allowed_at(candidates@, i),
        decreases candidates@.len() - index,
    {
        if candidates[index].allowed {
            assert(allowed_at(candidates@, index as int));
            assert(first_below(candidates@, 0, index as int));
            proof {
                assert forall|other: int| #[trigger] first_below(candidates@, 0, other) implies other
                    == index by {
                    lemma_first_below_unique(candidates@, other, index as int);
                }
            }
            if !text.is_empty() || candidates[index].label.as_str().is_empty() {
                return Some(index);
            }
            return None;
        }
        index = index + 1;
    }
    None
}

/// The highlight as it stands against a list of `len` rows.
pub open spec fn clamped(len: nat, selected: Option<usize>) -> Option<usize> {
    match selected {
        Some(index) => if len == 0 {
            None
        } else if index < len {
            Some(index)
        } else {
            Some((len - 1) as usize)
        },
        None => None,
    }
}

/// The highlight as it stands against *this* list. Clamped on read rather than
/// on write: a caret move under a standing prompt can shorten the list, and a
/// stale index must not survive that.
pub fn clamped_selection(candidates: &[Suggestion], selected: Option<usize>) -> (res: Option<usize>)
    ensures
        res == clamped(candidates@.len(), selected),
{
    let len: usize = candidates.len();
    match selected {
        Some(index) => if len == 0 {
            None
        } else if index < len {
            Some(index)
        } else {
            Some(len - 1)
        },
        None => None,
    }
}

/// A clamped highlight stands on a row of the list, and clamping it again does
/// not move it. One that stood in the list already stays.
pub proof fn law_clamped_is_in_the_list(len: nat, selected: Option<usize>)
    requires
        len <= usize::MAX,
    ensures
        clamped(len, selected) matches Some(index) ==> index < len,
        clamped(len, clamped(len, selected)) == clamped(len, selected),
        selected matches Some(index) ==> index < len ==> clamped(len, selected) == selected,
        clamped(len, selected) is None <==> selected is None || len == 0,
{
}

/// The first row on screen.
pub open spec fn window_start(len: nat, selected: nat) -> int {
    let centred = if selected < PROMPT_ROWS / 2 {
        0
    } else {
        selected - PROMPT_ROWS / 2
    };
    if len <= PROMPT_ROWS {
        0
    } else if centred <= len - PROMPT_ROWS {
        centred
    } else {
        len - PROMPT_ROWS
    }
}

/// The slice of the candidate list that is on screen, always containing
/// `selected`. Derived from `selected` rather than remembered: a stored scroll
/// offset would go stale the moment a keystroke reshapes the list.
pub fn prompt_window(len: usize, selected: usize) -> (window: Range<usize>)
    ensures
        window.start == window_start(len as nat, selected as nat),
        window.end - window.start == if len <= PROMPT_ROWS {
            len
        } else {
            PROMPT_ROWS
        },
{
    if len <= PROMPT_ROWS {
        return 0..len;
    }
    let centred: usize = selected.saturating_sub(PROMPT_ROWS / 2);
    let start: usize = if centred < len - PROMPT_ROWS {
        centred
    } else {
        len - PROMPT_ROWS
    };
    start..start + PROMPT_ROWS
}

/// The window holds the highlighted row, and nothing but rows of the list.
pub proof fn law_window_shows_the_selection(len: nat, selected: nat)
    requires
        selected < len,
    ensures
        ({
            let start = window_start(len, selected);
            let end = start + if len <= PROMPT_ROWS {
                len as int
            } else {
                PROMPT_ROWS as int
            };
            0 <= start <= selected < end <= len
        }),
{
}

/// One line of the prompt's list as it is drawn.
#[derive(Debug)]
pub enum PromptLine {
    /// A count of the rows the window leaves off. Clicking it builds nothing.
    Hint(String),
    /// The suggestion at `index`. What cannot be committed can neither hold the
    /// highlight nor be clicked.
    Row { index: usize, highlighted: bool, clickable: bool },
}

/// The mathematical value of a [`PromptLine`].
pub enum PromptLineView {
    Hint(Seq<char>),
    Row { index: nat, highlighted: bool, clickable: bool },
}

impl View for PromptLine {
    type V = PromptLineView;

    open spec fn view(&self) -> PromptLineView {
        match self {
            PromptLine::Hint(hint) => PromptLineView::Hint(hint@),
            PromptLine::Row { index, highlighted, clickable } => PromptLineView::Row {
                index: *index as nat,
                highlighted: *highlighted,
                clickable: *clickable,
            },
        }
    }
}

/// The values of a list of lines.
pub open spec fn line_views(lines: Seq<PromptLine>) -> Seq<PromptLineView> {
    lines.map_values(|line: PromptLine| line@)
}

/// What is said of `count` rows that are left off: nothing where there are none.
pub open spec fn hint_for(count: nat, place: Seq<char>) -> Seq<PromptLineView> {
    if count == 0 {
        Seq::empty()
    } else {
        seq![PromptLineView::Hint("… "@ + text::decimal_of(count) + place)]
    }
}

/// The line of the suggestion at `index`.
pub open spec fn line_of(
    candidates: Seq<Suggestion>,
    selected: Option<usize>,
    index: nat,
) -> PromptLineView {
    let allowed = candidates[index as int].allowed;
    PromptLineView::Row {
        index,
        highlighted: selected == Some(index as usize) && allowed,
        clickable: allowed,
    }
}

/// The lines of the suggestions from `start` to `end`.
pub open spec fn lines_between(
    candidates: Seq<Suggestion>,
    selected: Option<usize>,
    start: int,
    end: int,
) -> Seq<PromptLineView> {
    Seq::new((end - start) as nat, |i: int| line_of(candidates, selected, (start + i) as nat))
}

/// The row the window follows: the highlighted one, and where none is the first.
pub open spec fn followed(selected: Option<usize>) -> nat {
    match selected {
        Some(index) => index as nat,
        None => 0,
    }
}

/// The lines of the prompt's list: the rows of the window, with a count before
/// and after them of those it leaves off.
pub open spec fn lines_for(
    candidates: Seq<Suggestion>,
    selected: Option<usize>,
) -> Seq<PromptLineView> {
    let start = window_start(candidates.len(), followed(selected));
    let end = start + if candidates.len() <= PROMPT_ROWS {
        candidates.len() as int
    } else {
        PROMPT_ROWS as int
    };
    hint_for(start as nat, " more above"@) + lines_between(candidates, selected, start, end)
        + hint_for((candidates.len() - end) as nat, " more below"@)
}

fn hint(count: usize, place: &str) -> (line: PromptLine)
    ensures
        line@ == PromptLineView::Hint("… "@ + text::decimal_of(count as nat) + place@),
{
    PromptLine::Hint("… ".to_owned().concat(text::decimal(count as u64).as_str()).concat(place))
}

/// The prompt's suggestion rows, windowed around the highlight. What the window
/// hides is said, not swallowed: a silent cut would read as "that is all there
/// is".
pub fn prompt_lines(candidates: &[Suggestion], selected: Option<usize>) -> (lines: Vec<PromptLine>)
    ensures
        line_views(lines@) == lines_for(candidates@, selected),
{
    let window = prompt_window(
        candidates.len(),
        match selected {
            Some(index) => index,
            None => 0,
        },
    );
    let ghost above = hint_for(window.start as nat, " more above"@);
    let mut lines: Vec<PromptLine> = Vec::new();
    if window.start > 0 {
        lines.push(hint(window.start, " more above"));
    }
    assert(line_views(lines@) =~= above);
    let mut index: usize = window.start;
    while index < window.end
        invariant
            window.start <= index <= window.end <= candidates@.len(),
            line_views(lines@) == above + lines_between(
                candidates@,
                selected,
                window.start as int,
                index as int,
            ),
        decreases window.end - index,
    {
        let allowed = candidates[index].allowed;
        let highlighted = match selected {
            Some(selected) => selected == index && allowed,
            None => false,
        };
        let ghost before = line_views(lines@);
        lines.push(PromptLine::Row { index, highlighted, clickable: allowed });
        assert(line_views(lines@) =~= before.push(line_of(candidates@, selected, index as nat)));
        assert(above + lines_between(candidates@, selected, window.start as int, index + 1)
            =~= before.push(line_of(candidates@, selected, index as nat)));
        index = index + 1;
    }
    let ghost shown = line_views(lines@);
    if window.end < candidates.len() {
        lines.push(hint(candidates.len() - window.end, " more below"));
    }
    assert(line_views(lines@) =~= shown + hint_for(
        (candidates@.len() - window.end) as nat,
        " more below"@,
    ));
    lines
}

/// A step starts at the neighbour of the row it leaves, on the side it goes to. It
/// enters the list at its first row going down and at its last going up; and a
/// highlight that ran past the list counts as its last row.
pub proof fn law_where_a_step_starts(len: nat, index: usize)
    ensures
        index < len ==> step_start(len, Some(index), 1) == index + 1,
        index < len ==> step_start(len, Some(index), -1) == index - 1,
        index >= len ==> step_start(len, Some(index), 1) == len,
        index >= len ==> step_start(len, Some(index), -1) == len - 2,
        step_start(len, None, 1) == 0,
        step_start(len, None, -1) == len - 1,
{
}

/// With something typed the highlight stands on the first row that can be
/// committed, if there is one; with nothing typed it stands there only if that row
/// is called by nothing too.
pub proof fn law_where_the_highlight_lands(
    text: Seq<char>,
    candidates: Seq<Suggestion>,
    index: int,
)
    requires
        0 <= index < candidates.len() <= usize::MAX,
        candidates[index].allowed,
        forall|i: int| 0 <= i < index ==> !(#[trigger] candidates[i]).allowed,
    ensures
        text.len() > 0 ==> selected_first(text, candidates) == Some(index as usize),
        text.len() == 0 && candidates[index].label@.len() > 0 ==> selected_first(text, candidates)
            is None,
        text.len() == 0 && candidates[index].label@.len() == 0 ==> selected_first(text, candidates)
            == Some(index as usize),
{
    assert(allowed_at(candidates, index));
    assert forall|i: int| 0 <= i < index implies !#[trigger] allowed_at(candidates, i) by {
        assert(!candidates[i].allowed);
    }
    assert(first_below(candidates, 0, index));
    let chosen = choose|index: int| first_below(candidates, 0, index);
    lemma_first_below_unique(candidates, chosen, index);
}

/// Where no row can be committed there is no highlight, whatever is typed.
pub proof fn law_no_highlight_on_grey_rows(text: Seq<char>, candidates: Seq<Suggestion>)
    requires
        forall|i: int| 0 <= i < candidates.len() ==> !(#[trigger] candidates[i]).allowed,
    ensures
        selected_first(text, candidates) is None,
{
    if exists|index: int| first_below(candidates, 0, index) {
        let index = choose|index: int| first_below(candidates, 0, index);
        assert(allowed_at(candidates, index));
        assert(!candidates[index].allowed);
    }
}

/// The window moves only as far as it must: a list that fits is shown from its
/// first row, the window never runs past the end, and away from both ends the
/// highlighted row stands in its middle.
pub proof fn law_the_window_follows(len: nat, selected: nat)
    requires
        selected < len,
    ensures
        len <= PROMPT_ROWS ==> window_start(len, selected) == 0,
        len > PROMPT_ROWS ==> window_start(len, selected) + PROMPT_ROWS <= len,
        len > PROMPT_ROWS && selected <= PROMPT_ROWS / 2 ==> window_start(len, selected) == 0,
        len > PROMPT_ROWS && selected >= PROMPT_ROWS / 2 && selected - PROMPT_ROWS / 2 + PROMPT_ROWS
            <= len ==> selected - window_start(len, selected) == PROMPT_ROWS / 2,
        len > PROMPT_ROWS && selected - PROMPT_ROWS / 2 + PROMPT_ROWS > len ==> window_start(
            len,
            selected,
        ) == len - PROMPT_ROWS,
{
}

/// Every row of the list is drawn or counted. Between the two counts, each there
/// only if it counts something, stand the rows of the window in their order; a row
/// can be clicked exactly if it can be committed, and it is highlighted exactly if
/// the highlight stands on it and it can be.
pub proof fn law_every_row_is_drawn_or_counted(candidates: Seq<Suggestion>, selected: Option<usize>)
    requires
        candidates.len() <= usize::MAX,
        selected matches Some(index) ==> index < candidates.len(),
    ensures
        ({
            let lines = lines_for(candidates, selected);
            let start = window_start(candidates.len(), followed(selected));
            let count: int = if candidates.len() <= PROMPT_ROWS {
                candidates.len() as int
            } else {
                PROMPT_ROWS as int
            };
            let above: int = if start > 0 {
                1
            } else {
                0
            };
            let left = candidates.len() - start - count;
            let below: int = if left > 0 {
                1
            } else {
                0
            };
            &&& selected matches Some(index) ==> start <= index < start + count
            &&& left >= 0
            &&& lines.len() == above + count + below
            &&& start > 0 ==> lines[0] == PromptLineView::Hint(
                "… "@ + text::decimal_of(start as nat) + " more above"@,
            )
            &&& left > 0 ==> lines.last() == PromptLineView::Hint(
                "… "@ + text::decimal_of(left as nat) + " more below"@,
            )
            &&& forall|i: int|
                0 <= i < count ==> {
                    &&& #[trigger] lines[above + i] matches PromptLineView::Row {
                        index,
                        highlighted,
                        clickable,
                    }
                    &&& index == start + i
                    &&& clickable == candidates[start + i].allowed
                    &&& highlighted == (selected == Some((start + i) as usize)
                        && candidates[start + i].allowed)
                }
        }),
{
    let start = window_start(candidates.len(), followed(selected));
    if candidates.len() > 0 {
        law_window_shows_the_selection(candidates.len(), followed(selected));
    }
    let count: int = if candidates.len() <= PROMPT_ROWS {
        candidates.len() as int
    } else {
        PROMPT_ROWS as int
    };
    let first = hint_for(start as nat, " more above"@);
    let rows = lines_between(candidates, selected, start, start + count);
    let last = hint_for((candidates.len() - (start + count)) as nat, " more below"@);
    let lines = lines_for(candidates, selected);
    assert(lines == first + rows + last);
    assert forall|i: int| 0 <= i < count implies #[trigger] lines[first.len() + i] == rows[i] by {}
}

} // verus!
