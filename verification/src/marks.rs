//! What is marked on screen: the node under the pointer, the scope of the caret,
//! and the half of the mode control that is on.

use crate::cell::Cell;
use crate::editor::EditorMode;
use crate::model::node;
use vstd::prelude::*;

verus! {

/// How brightly a node is drawn.
#[derive(Clone, Copy, Debug, PartialEq, Eq, Structural)]
pub enum Highlight {
    Plain,
    Selected,
    Hovered,
}

/// The highlight of a node. The pointer outranks the caret.
pub open spec fn highlight_of(
    id: node::Id,
    hovered: Option<node::Id>,
    selected: Option<node::Id>,
) -> Highlight {
    if hovered == Some(id) {
        Highlight::Hovered
    } else if selected == Some(id) {
        Highlight::Selected
    } else {
        Highlight::Plain
    }
}

/// The highlight of a node: `hovered` is the node under the pointer, `selected`
/// the one the caret stands on.
pub fn highlight(
    id: node::Id,
    hovered: Option<node::Id>,
    selected: Option<node::Id>,
) -> (res: Highlight)
    ensures
        res == highlight_of(id, hovered, selected),
{
    if let Some(node) = hovered {
        if node == id {
            return Highlight::Hovered;
        }
    }
    if let Some(node) = selected {
        if node == id {
            return Highlight::Selected;
        }
    }
    Highlight::Plain
}

/// What a floor shows of the pointer and of the caret.
#[derive(Clone, Copy, Debug, PartialEq, Eq, Structural)]
pub struct FloorMarks {
    /// The cell under the pointer is lit.
    pub hover: bool,
    /// The floor has a border: it is the one of the caret's scope.
    pub border: bool,
}

/// The marks of a floor. While the screen is kept clear for a picture neither the
/// pointer nor the caret marks anything.
pub open spec fn marks_of(
    screenshot: bool,
    under_pointer: bool,
    scope: Seq<node::Id>,
    caret_scope: Option<Seq<node::Id>>,
) -> FloorMarks {
    FloorMarks {
        hover: !screenshot && under_pointer,
        border: !screenshot && caret_scope == Some(scope),
    }
}

/// The path of a scope, where there is one.
pub open spec fn opt_path(path: Option<&Vec<node::Id>>) -> Option<Seq<node::Id>> {
    match path {
        Some(path) => Some(path@),
        None => None,
    }
}

fn same_path(a: &Vec<node::Id>, b: &Vec<node::Id>) -> (res: bool)
    ensures
        res == (a@ == b@),
{
    if a.len() != b.len() {
        return false;
    }
    let mut i: usize = 0;
    while i < a.len()
        invariant
            i <= a.len(),
            a.len() == b.len(),
            forall|j: int| 0 <= j < i ==> a@[j] == b@[j],
        decreases a.len() - i,
    {
        if a[i] != b[i] {
            return false;
        }
        i = i + 1;
    }
    assert(a@ =~= b@);
    true
}

/// The marks of the floor of `scope`.
pub fn floor_marks(
    screenshot: bool,
    under_pointer: bool,
    scope: &Vec<node::Id>,
    caret_scope: Option<&Vec<node::Id>>,
) -> (marks: FloorMarks)
    ensures
        marks == marks_of(screenshot, under_pointer, scope@, opt_path(caret_scope)),
{
    let at_caret = match caret_scope {
        Some(path) => same_path(path, scope),
        None => false,
    };
    FloorMarks { hover: !screenshot && under_pointer, border: !screenshot && at_caret }
}

/// How a half of the mode control looks.
#[derive(Clone, Copy, Debug, PartialEq, Eq, Structural)]
pub enum ToggleLook {
    /// It is the mode, and the mode does not change the graph.
    Normal,
    /// It is the mode, and the mode changes the graph.
    Insert,
    /// It is not the mode, and the pointer is over it.
    Hot,
    /// It is not the mode.
    Rest,
}

/// The look of a half of the mode control. The half that is already on does not
/// answer to the pointer: a click on it does nothing.
pub open spec fn look_of(half: EditorMode, mode: EditorMode, under_pointer: bool) -> ToggleLook {
    if half == mode {
        match half {
            EditorMode::Normal => ToggleLook::Normal,
            EditorMode::Insert => ToggleLook::Insert,
        }
    } else if under_pointer {
        ToggleLook::Hot
    } else {
        ToggleLook::Rest
    }
}

/// The look of a half of the mode control.
pub fn toggle_look(half: EditorMode, mode: EditorMode, under_pointer: bool) -> (look: ToggleLook)
    ensures
        look == look_of(half, mode, under_pointer),
{
    if half == mode {
        match half {
            EditorMode::Normal => ToggleLook::Normal,
            EditorMode::Insert => ToggleLook::Insert,
        }
    } else if under_pointer {
        ToggleLook::Hot
    } else {
        ToggleLook::Rest
    }
}

/// Exactly one half of the mode control is on, wherever the pointer is.
pub proof fn law_one_half_is_on(mode: EditorMode, under_pointer: bool)
    ensures
        (look_of(EditorMode::Normal, mode, under_pointer) == ToggleLook::Normal) != (look_of(
            EditorMode::Insert,
            mode,
            under_pointer,
        ) == ToggleLook::Insert),
{
}

/// Remembers where the caret was, so that the camera follows it when it moves.
#[derive(Clone, Copy, Debug, PartialEq, Eq, Structural)]
pub struct CaretWatch {
    pub last: Option<Cell>,
}

/// Whether the camera has to travel to a caret at `current`, and what is remembered.
pub open spec fn observed(watch: CaretWatch, current: Cell) -> (bool, CaretWatch) {
    (
        watch.last is Some && watch.last != Some(current),
        CaretWatch { last: Some(current) },
    )
}

impl CaretWatch {
    /// The caret has not been seen yet.
    pub fn new() -> (watch: Self)
        ensures
            watch.last is None,
    {
        CaretWatch { last: None }
    }

    /// The caret stands at `current`. Says whether the camera has to travel there:
    /// it has wherever the caret was seen somewhere else before. The first sight
    /// of it only records where it stands.
    pub fn observe(&mut self, current: Cell) -> (travel: bool)
        ensures
            (travel, *final(self)) == observed(*old(self), current),
    {
        let travel = match self.last {
            Some(last) => last != current,
            None => false,
        };
        self.last = Some(current);
        travel
    }
}

/// At most one node is lit by the pointer and at most one by the caret, and where
/// both are on one node the pointer wins.
pub proof fn law_who_is_lit(
    id: node::Id,
    hovered: Option<node::Id>,
    selected: Option<node::Id>,
)
    ensures
        highlight_of(id, hovered, selected) == Highlight::Hovered <==> hovered == Some(id),
        highlight_of(id, hovered, selected) == Highlight::Selected <==> selected == Some(id)
            && hovered != Some(id),
        highlight_of(id, hovered, selected) == Highlight::Plain <==> selected != Some(id) && hovered
            != Some(id),
{
}

/// A floor is bordered exactly if the caret's scope is its own, and lit exactly if
/// the pointer is over it; a screenshot shows neither.
pub proof fn law_what_a_floor_shows(
    under_pointer: bool,
    scope: Seq<node::Id>,
    other: Seq<node::Id>,
)
    ensures
        marks_of(false, under_pointer, scope, Some(other)).border <==> scope == other,
        !marks_of(false, under_pointer, scope, None).border,
        marks_of(false, under_pointer, scope, Some(other)).hover == under_pointer,
        !marks_of(true, under_pointer, scope, Some(other)).border,
        !marks_of(true, under_pointer, scope, Some(other)).hover,
{
}

/// The half that is on looks like its mode, whatever the pointer does; the half
/// that is off answers to the pointer.
pub proof fn law_how_the_halves_look(half: EditorMode, mode: EditorMode, under_pointer: bool)
    ensures
        half == mode && half == EditorMode::Normal ==> look_of(half, mode, under_pointer)
            == ToggleLook::Normal,
        half == mode && half == EditorMode::Insert ==> look_of(half, mode, under_pointer)
            == ToggleLook::Insert,
        half != mode ==> look_of(half, mode, true) == ToggleLook::Hot,
        half != mode ==> look_of(half, mode, false) == ToggleLook::Rest,
{
}

/// The camera travels where the caret moved since it was last seen, and only there: not
/// at the first sight of it, and not while it stays.
pub proof fn law_when_the_camera_travels(watch: CaretWatch, here: Cell, there: Cell)
    ensures
        !observed(CaretWatch { last: None }, here).0,
        observed(observed(watch, here).1, there).0 <==> here != there,
{
}

} // verus!
