//! What the pointer is over, and what a click selects.

use crate::cell::Cell;
use crate::model::node;
use vstd::prelude::*;

verus! {

/// The cell of a floor that a ray met, from the cell coordinates of the point:
/// `None` where the point lies outside the floor. The cell a floor belongs to is
/// the one standing on it: the volume's last row.
pub open spec fn cell_on_floor(min: Cell, max: Cell, x: i32, z: i32) -> Option<Cell> {
    if min.x <= x <= max.x && min.z <= z <= max.z {
        Some(Cell { x, y: max.y, z })
    } else {
        None
    }
}

/// The cell of a floor that a ray met, from the cell coordinates of the point.
/// `min` and `max` are the volume's inclusive bounds.
pub fn floor_cell(min: Cell, max: Cell, x: i32, z: i32) -> (cell: Option<Cell>)
    ensures
        cell == cell_on_floor(min, max, x, z),
{
    if x < min.x || x > max.x {
        return None;
    }
    if z < min.z || z > max.z {
        return None;
    }
    Some(Cell::new(x, max.y, z))
}

/// The cell a node stands on, in the coordinates the caret is addressed in: its
/// cell within its scope, and the scope's own offset. A node that the layout does
/// not hold has no cell.
pub fn cell_of_node(local: Option<Cell>, scope_offset: Cell) -> (cell: Option<Cell>)
    requires
        local matches Some(local) ==> local.can_add(scope_offset),
    ensures
        cell == match local {
            Some(local) => Some(local.sum(scope_offset)),
            None => None,
        },
{
    match local {
        Some(local) => Some(local.plus(scope_offset)),
        None => None,
    }
}

/// What the pointer did this frame, and what it is over.
#[derive(Clone, Copy, Debug)]
pub struct Pointer {
    /// It is over something the editor draws about itself.
    pub over_ui: bool,
    /// The nearest node under it, with the node's cell where it has one.
    pub node: Option<(node::Id, Option<Cell>)>,
    /// The cell of the nearest floor under it.
    pub floor: Option<Cell>,
    pub pressed: bool,
    pub released: bool,
    /// It is still close to where the button went down.
    pub close_to_press: bool,
}

/// What is hovered, and the press that may become a click.
#[derive(Clone, Copy, Debug, PartialEq, Eq, Structural)]
pub struct PickState {
    /// Node under the cursor, if any.
    pub hovered_node: Option<node::Id>,
    /// Cell under the cursor, if any.
    pub hovered_grid: Option<Cell>,
    /// The button is down.
    pub press: bool,
    /// The press landed on something the editor draws about itself. The click is
    /// suppressed in that case, so that it does not also reach the cell behind.
    pub press_over_ui: bool,
}

/// What is hovered: nothing through what the editor draws about itself, and no
/// floor through a node.
pub open spec fn hovered(pointer: Pointer) -> (Option<node::Id>, Option<Cell>) {
    if pointer.over_ui {
        (None, None)
    } else {
        match pointer.node {
            Some((id, _)) => (Some(id), None),
            None => (None, pointer.floor),
        }
    }
}

/// Nothing is hovered, and the press is as it was.
pub open spec fn left_alone(picks: PickState) -> PickState {
    PickState { hovered_node: None, hovered_grid: None, ..picks }
}

/// The cell a click selects, if it selects one: the cell of the node under it,
/// and otherwise the cell of the floor.
pub open spec fn clicked(press: bool, press_over_ui: bool, pointer: Pointer) -> Option<Cell> {
    if pointer.released && press && pointer.close_to_press && !press_over_ui && !pointer.over_ui {
        match pointer.node {
            Some((_, cell)) => cell,
            None => pointer.floor,
        }
    } else {
        None
    }
}

/// What is hovered and pressed after the pointer did something, and the cell that
/// was selected by it, if one was.
pub open spec fn pointed(pick: PickState, pointer: Pointer) -> (PickState, Option<Cell>) {
    let press = pick.press || pointer.pressed;
    let press_over_ui = if pointer.pressed {
        pointer.over_ui
    } else {
        pick.press_over_ui
    };
    (
        PickState {
            hovered_node: hovered(pointer).0,
            hovered_grid: hovered(pointer).1,
            press: press && !pointer.released,
            press_over_ui: press_over_ui && !pointer.released,
        },
        clicked(press, press_over_ui, pointer),
    )
}

impl PickState {
    /// Nothing is hovered and nothing is pressed.
    pub open spec fn nothing() -> PickState {
        PickState {
            hovered_node: None,
            hovered_grid: None,
            press: false,
            press_over_ui: false,
        }
    }

    /// Nothing is hovered and nothing is pressed.
    pub fn new() -> (pick: Self)
        ensures
            pick == PickState::nothing(),
    {
        PickState { hovered_node: None, hovered_grid: None, press: false, press_over_ui: false }
    }

    /// A modal owns the screen, and what was hovered or half-pressed under it is
    /// not what the user will be looking at when it closes.
    pub fn forget(&mut self)
        ensures
            *final(self) == PickState::nothing(),
    {
        *self = PickState::new();
    }

    /// The pointer has left the window: nothing is hovered.
    pub fn pointer_left(&mut self)
        ensures
            *final(self) == left_alone(*old(self)),
    {
        self.hovered_node = None;
        self.hovered_grid = None;
    }

    /// The pointer did something. Says which cell was selected by it, if one
    /// was. A release close to the press is a click; further movement is a drag
    /// and leaves the selection untouched, and so does a click into truly empty
    /// space.
    pub fn pointer(&mut self, pointer: &Pointer) -> (selected: Option<Cell>)
        ensures
            (*final(self), selected) == pointed(*old(self), *pointer),
    {
        if pointer.over_ui {
            self.hovered_node = None;
            self.hovered_grid = None;
        } else {
            match pointer.node {
                Some((id, _)) => {
                    self.hovered_node = Some(id);
                    self.hovered_grid = None;
                },
                None => {
                    self.hovered_node = None;
                    self.hovered_grid = pointer.floor;
                },
            }
        }
        if pointer.pressed {
            self.press = true;
            self.press_over_ui = pointer.over_ui;
        }
        if !pointer.released {
            return None;
        }
        let is_click = self.press && pointer.close_to_press;
        let press_over_ui = self.press_over_ui;
        self.press = false;
        self.press_over_ui = false;
        if is_click && !press_over_ui && !pointer.over_ui {
            match pointer.node {
                Some((_, cell)) => cell,
                None => pointer.floor,
            }
        } else {
            None
        }
    }
}

/// What the editor draws about itself stands in the way of everything behind it:
/// nothing is hovered and nothing is selected through it.
pub proof fn law_ui_hides_the_graph(pointer: Pointer, press: bool, press_over_ui: bool)
    ensures
        pointer.over_ui ==> hovered(pointer) == (None::<node::Id>, None::<Cell>) && clicked(
            press,
            press_over_ui,
            pointer,
        ) is None,
        press_over_ui ==> clicked(press, press_over_ui, pointer) is None,
        !press ==> clicked(press, press_over_ui, pointer) is None,
        hovered(pointer).0 is None || hovered(pointer).1 is None,
{
}

/// A cell picked on a floor is a cell of the floor's volume.
pub proof fn law_floor_cells_are_in_the_volume(min: Cell, max: Cell, x: i32, z: i32)
    requires
        min.y <= max.y,
    ensures
        cell_on_floor(min, max, x, z) matches Some(cell) ==> {
            &&& min.x <= cell.x <= max.x
            &&& min.y <= cell.y <= max.y
            &&& min.z <= cell.z <= max.z
        },
{
}

/// What is hovered is the node under the pointer, and the cell of the floor only
/// where no node is in the way.
pub proof fn law_the_nearest_is_hovered(pointer: Pointer)
    requires
        !pointer.over_ui,
    ensures
        pointer.node matches Some((id, _)) ==> hovered(pointer) == (Some(id), None::<Cell>),
        pointer.node is None ==> hovered(pointer) == (None::<node::Id>, pointer.floor),
{
}

/// A press and a release in one place, both on the graph, are a click: it selects
/// the cell of the node under it, and where there is no node the cell of the floor.
/// A release that is far from its press, and no release at all, select nothing.
pub proof fn law_what_a_click_selects(pointer: Pointer, press: bool, press_over_ui: bool)
    ensures
        press && !press_over_ui && pointer.released && pointer.close_to_press && !pointer.over_ui
            ==> {
            &&& pointer.node matches Some((_, cell)) ==> clicked(press, press_over_ui, pointer)
                == cell
            &&& pointer.node is None ==> clicked(press, press_over_ui, pointer) == pointer.floor
        },
        !pointer.released ==> clicked(press, press_over_ui, pointer) is None,
        !pointer.close_to_press ==> clicked(press, press_over_ui, pointer) is None,
{
}

/// Every cell of a floor can be picked, by its own two coordinates, and it is one
/// of the volume's last row; outside the floor nothing can.
pub proof fn law_every_floor_cell_can_be_picked(min: Cell, max: Cell, x: i32, z: i32)
    ensures
        min.x <= x <= max.x && min.z <= z <= max.z ==> cell_on_floor(min, max, x, z) == Some(
            Cell { x, y: max.y, z },
        ),
        x < min.x || x > max.x || z < min.z || z > max.z ==> cell_on_floor(min, max, x, z) is None,
{
}

/// A press is remembered until it is let go, together with what it landed on; letting
/// go forgets it, so that one press selects at most once. A press that began on what
/// the editor draws about itself selects nothing, wherever it is let go.
pub proof fn law_a_press_selects_once(pick: PickState, down: Pointer, up: Pointer)
    requires
        down.pressed,
        !down.released,
        !up.pressed,
        up.released,
    ensures
        ({
            let (pressed, at_once) = pointed(pick, down);
            let (released, selected) = pointed(pressed, up);
            &&& at_once is None
            &&& pressed.press
            &&& pressed.press_over_ui == down.over_ui
            &&& !released.press && !released.press_over_ui
            &&& pointed(released, up).1 is None
            &&& down.over_ui ==> selected is None
            &&& !down.over_ui && !up.over_ui && up.close_to_press && up.node is None ==> selected
                == up.floor
            &&& up.node matches Some((_, cell)) ==> !down.over_ui && !up.over_ui
                && up.close_to_press ==> selected == cell
            &&& (released.hovered_node, released.hovered_grid) == hovered(up)
        }),
{
}

/// A pointer that has left the window hovers nothing. A button that was down is still
/// down, on whatever it went down on.
pub proof fn law_leaving_the_window(picks: PickState)
    ensures
        left_alone(picks).hovered_node is None,
        left_alone(picks).hovered_grid is None,
        left_alone(picks).press == picks.press,
        left_alone(picks).press_over_ui == picks.press_over_ui,
{
}

} // verus!
