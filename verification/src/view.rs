//! The ways of looking at the program, and the menu they are chosen from.

use vstd::prelude::*;

verus! {

/// One of the four ways of looking at the program.
#[derive(Clone, Copy, Debug, PartialEq, Eq, Structural)]
pub enum ViewEntry {
    /// The bound camera, parallel.
    EditOrtho,
    /// The bound camera with the convergence eased in.
    EditPersp,
    /// The free camera.
    Explore,
    /// Everything the editor draws about itself, gone. Not a camera state at
    /// all.
    Screenshot,
}

/// The four ways, in list order.
pub open spec fn all_entries() -> Seq<ViewEntry> {
    seq![
        ViewEntry::EditOrtho,
        ViewEntry::EditPersp,
        ViewEntry::Explore,
        ViewEntry::Screenshot,
    ]
}

/// What a way of looking is called.
pub open spec fn entry_label(entry: ViewEntry) -> Seq<char> {
    match entry {
        ViewEntry::EditOrtho => "Edit Ortho"@,
        ViewEntry::EditPersp => "Edit Persp"@,
        ViewEntry::Explore => "Explore"@,
        ViewEntry::Screenshot => "Screenshot"@,
    }
}

impl ViewEntry {
    /// The four ways, in list order.
    pub fn all() -> (entries: Vec<ViewEntry>)
        ensures
            entries@ == all_entries(),
    {
        vec![
            ViewEntry::EditOrtho,
            ViewEntry::EditPersp,
            ViewEntry::Explore,
            ViewEntry::Screenshot,
        ]
    }

    pub fn label(self) -> (label: &'static str)
        ensures
            label@ == entry_label(self),
    {
        match self {
            ViewEntry::EditOrtho => "Edit Ortho",
            ViewEntry::EditPersp => "Edit Persp",
            ViewEntry::Explore => "Explore",
            ViewEntry::Screenshot => "Screenshot",
        }
    }
}

/// Whether the camera is bound to the grid's own picture or moved by hand.
#[derive(Clone, Copy, Debug, PartialEq, Eq, Structural)]
pub enum CameraMode {
    Bound,
    Free,
}

/// What decides the view: the camera's mode, whether its bound picture
/// converges, and whether the screenshot mode is on.
#[derive(Clone, Copy, Debug, PartialEq, Eq, Structural)]
pub struct ViewState {
    pub mode: CameraMode,
    pub semi_ortho: bool,
    pub screenshot: bool,
}

/// The entry a view state is.
pub open spec fn entry_of(view: ViewState) -> ViewEntry {
    if view.screenshot {
        ViewEntry::Screenshot
    } else if view.mode == CameraMode::Free {
        ViewEntry::Explore
    } else if view.semi_ortho {
        ViewEntry::EditPersp
    } else {
        ViewEntry::EditOrtho
    }
}

/// Which entry the live state *is*, read rather than remembered.
///
/// Nothing stores the selection, and that is what makes the screenshot mode
/// return by itself: it never touches the camera. `semi_ortho` is only read in
/// the bound mode, so the free camera answers `Explore` whatever it is set to,
/// and carries the value untouched until the user comes back.
pub fn view_entry(view: ViewState) -> (entry: ViewEntry)
    ensures
        entry == entry_of(view),
{
    if view.screenshot {
        return ViewEntry::Screenshot;
    }
    match (view.mode, view.semi_ortho) {
        (CameraMode::Free, _) => ViewEntry::Explore,
        (CameraMode::Bound, true) => ViewEntry::EditPersp,
        (CameraMode::Bound, false) => ViewEntry::EditOrtho,
    }
}

/// What going to a view asks of the camera.
#[derive(Clone, Copy, Debug, PartialEq, Eq, Structural)]
pub enum Journey {
    /// The camera stays where it is.
    Stay,
    /// The free camera takes over from the bound picture.
    ToFree,
    /// Back to the bound view of the caret.
    ToBound,
}

/// The view state after going to `entry`, and what that asks of the camera.
pub open spec fn gone_to(view: ViewState, entry: ViewEntry) -> (ViewState, Journey) {
    match entry {
        ViewEntry::Screenshot => (ViewState { screenshot: true, ..view }, Journey::Stay),
        ViewEntry::Explore => (
            ViewState { mode: CameraMode::Free, ..view },
            if view.mode == CameraMode::Free {
                Journey::Stay
            } else {
                Journey::ToFree
            },
        ),
        ViewEntry::EditPersp => (
            ViewState { mode: CameraMode::Bound, semi_ortho: true, ..view },
            if view.mode == CameraMode::Bound {
                Journey::Stay
            } else {
                Journey::ToBound
            },
        ),
        ViewEntry::EditOrtho => (
            ViewState { mode: CameraMode::Bound, semi_ortho: false, ..view },
            if view.mode == CameraMode::Bound {
                Journey::Stay
            } else {
                Journey::ToBound
            },
        ),
    }
}

/// Go to a view.
///
/// The target is *named*, so coming back from `Explore` says which of the two
/// bound pictures it is coming back to. Going *out* to `Explore` leaves
/// `semi_ortho` alone on purpose, and the screenshot leaves the camera exactly
/// where it is.
pub fn apply_view_entry(view: ViewState, entry: ViewEntry) -> (res: (ViewState, Journey))
    ensures
        res == gone_to(view, entry),
{
    let mut now = view;
    if entry == ViewEntry::Screenshot {
        now.screenshot = true;
        return (now, Journey::Stay);
    }
    match entry {
        ViewEntry::EditPersp => now.semi_ortho = true,
        ViewEntry::EditOrtho => now.semi_ortho = false,
        ViewEntry::Explore | ViewEntry::Screenshot => {},
    }
    let wanted = match entry {
        ViewEntry::Explore => CameraMode::Free,
        _ => CameraMode::Bound,
    };
    if view.mode == wanted {
        return (now, Journey::Stay);
    }
    now.mode = wanted;
    match wanted {
        CameraMode::Free => (now, Journey::ToFree),
        CameraMode::Bound => (now, Journey::ToBound),
    }
}

/// The view state after the screenshot mode ended.
pub open spec fn screenshot_ended(view: ViewState) -> ViewState {
    ViewState { screenshot: false, ..view }
}

/// End the screenshot mode at the first sign of life: `listening` says that its
/// moment of grace is over. Says whether it ended.
pub fn end_screenshot_mode(
    view: &mut ViewState,
    listening: bool,
    moved: bool,
    scrolled: bool,
    key: bool,
    button: bool,
) -> (ended: bool)
    ensures
        ended == (listening && (moved || scrolled || key || button)),
        *final(view) == if ended {
            screenshot_ended(*old(view))
        } else {
            *old(view)
        },
{
    if listening && (moved || scrolled || key || button) {
        view.screenshot = false;
        true
    } else {
        false
    }
}

/// Going to a view is being there, unless a screenshot hides it; the way there
/// is only taken where the camera's mode changes.
pub proof fn law_going_is_being_there(view: ViewState, entry: ViewEntry)
    ensures
        entry == ViewEntry::Screenshot || !view.screenshot ==> entry_of(gone_to(view, entry).0)
            == entry,
        (gone_to(view, entry).1 == Journey::Stay) == (gone_to(view, entry).0.mode == view.mode),
{
}

/// Leaving the screenshot returns to whatever was on screen before it, by
/// itself.
pub proof fn law_screenshot_returns(view: ViewState)
    requires
        !view.screenshot,
    ensures
        screenshot_ended(gone_to(view, ViewEntry::Screenshot).0) == view,
        entry_of(screenshot_ended(gone_to(view, ViewEntry::Screenshot).0)) == entry_of(view),
{
}

/// Going out to explore and back to the bound picture that was left finds it as
/// it was.
pub proof fn law_exploring_keeps_the_picture(view: ViewState)
    requires
        view.mode == CameraMode::Bound,
        !view.screenshot,
    ensures
        gone_to(gone_to(view, ViewEntry::Explore).0, entry_of(view)).0 == view,
{
}

/// What a click means to the view menu.
#[derive(Clone, Copy, Debug, PartialEq, Eq, Structural)]
pub enum MenuClick {
    /// On a row of the list.
    Option(ViewEntry),
    /// On the button that opens the list.
    Trigger,
    /// On the list's own padding, which is inside it.
    Popup,
    /// Somewhere else.
    Elsewhere,
    /// There was none.
    Nowhere,
}

/// Whether the list is unfolded after a click, and which view was asked for.
pub open spec fn menu_after(open: bool, click: MenuClick) -> (bool, Option<ViewEntry>) {
    match click {
        MenuClick::Option(entry) => (false, Some(entry)),
        MenuClick::Trigger => (!open, None),
        MenuClick::Popup => (open, None),
        MenuClick::Elsewhere => (false, None),
        MenuClick::Nowhere => (open, None),
    }
}

/// Whether the list is unfolded after a click, and which view was asked for.
pub fn menu_click(open: bool, click: MenuClick) -> (res: (bool, Option<ViewEntry>))
    ensures
        res == menu_after(open, click),
{
    match click {
        MenuClick::Option(entry) => (false, Some(entry)),
        MenuClick::Trigger => (!open, None),
        MenuClick::Popup => (open, None),
        MenuClick::Elsewhere => (false, None),
        MenuClick::Nowhere => (open, None),
    }
}

/// What the button that opens the list says.
pub fn menu_caption(view: ViewState) -> (caption: String)
    ensures
        caption@ == "View: "@ + entry_label(entry_of(view)) + " \u{25BE}"@,
{
    "View: ".to_owned().concat(view_entry(view).label()).concat(" \u{25BE}")
}

/// The rows of the unfolded list, each with whether it is the chosen one.
pub fn menu_rows(view: ViewState) -> (rows: Vec<(ViewEntry, bool)>)
    ensures
        rows@ == all_entries().map_values(|entry: ViewEntry| (entry, entry == entry_of(view))),
{
    let current = view_entry(view);
    let entries = ViewEntry::all();
    let mut rows: Vec<(ViewEntry, bool)> = Vec::new();
    let mut i: usize = 0;
    while i < entries.len()
        invariant
            i <= entries.len(),
            entries@ == all_entries(),
            current == entry_of(view),
            rows@ == entries@.take(i as int).map_values(
                |entry: ViewEntry| (entry, entry == entry_of(view)),
            ),
        decreases entries.len() - i,
    {
        let ghost before = rows@;
        rows.push((entries[i], entries[i] == current));
        assert(entries@.take(i + 1).map_values(|entry: ViewEntry| (entry, entry == entry_of(view)))
            =~= before.push((entries@[i as int], entries@[i as int] == entry_of(view))));
        i = i + 1;
    }
    assert(entries@.take(i as int) == entries@);
    rows
}

/// Exactly one row of the list is the chosen one.
pub proof fn law_one_row_is_chosen(view: ViewState)
    ensures
        exists|i: int|
            0 <= i < all_entries().len() && #[trigger] all_entries()[i] == entry_of(view),
        forall|i: int, j: int|
            0 <= i < all_entries().len() && 0 <= j < all_entries().len()
                && #[trigger] all_entries()[i] == entry_of(view) && #[trigger] all_entries()[j]
                == entry_of(view) ==> i == j,
{
    let all = all_entries();
    match entry_of(view) {
        ViewEntry::EditOrtho => assert(all[0] == entry_of(view)),
        ViewEntry::EditPersp => assert(all[1] == entry_of(view)),
        ViewEntry::Explore => assert(all[2] == entry_of(view)),
        ViewEntry::Screenshot => assert(all[3] == entry_of(view)),
    }
}

/// How a button looks: switched off, under the pointer, or at rest.
#[derive(Clone, Copy, Debug, PartialEq, Eq, Structural)]
pub enum ButtonLook {
    Off,
    Hot,
    Rest,
}

/// The look of a button.
pub open spec fn look_of(enabled: bool, under_pointer: bool) -> ButtonLook {
    if !enabled {
        ButtonLook::Off
    } else if under_pointer {
        ButtonLook::Hot
    } else {
        ButtonLook::Rest
    }
}

/// How a button looks. The switched-off state comes first: it outranks wherever
/// the pointer is.
pub fn button_look(enabled: bool, under_pointer: bool) -> (look: ButtonLook)
    ensures
        look == look_of(enabled, under_pointer),
{
    match (enabled, under_pointer) {
        (false, _) => ButtonLook::Off,
        (true, true) => ButtonLook::Hot,
        (true, false) => ButtonLook::Rest,
    }
}

/// Whether what the editor draws about itself is hidden: a modal owns the
/// screen, or the point is that nothing of the editor is on it at all.
pub fn chrome_hidden(modal_open: bool, screenshot: bool) -> (hidden: bool)
    ensures
        hidden == (modal_open || screenshot),
{
    modal_open || screenshot
}

/// What is on screen follows from what decides it: the screenshot hides everything
/// else, the free camera explores, and the bound camera edits with the convergence
/// or without it.
pub proof fn law_what_is_on_screen(view: ViewState)
    ensures
        entry_of(view) == ViewEntry::Screenshot <==> view.screenshot,
        entry_of(view) == ViewEntry::Explore <==> !view.screenshot && view.mode == CameraMode::Free,
        entry_of(view) == ViewEntry::EditPersp <==> !view.screenshot && view.mode
            == CameraMode::Bound && view.semi_ortho,
        entry_of(view) == ViewEntry::EditOrtho <==> !view.screenshot && view.mode
            == CameraMode::Bound && !view.semi_ortho,
{
}

/// Going somewhere leaves alone what does not lead there: the screenshot leaves the
/// camera, exploring leaves the convergence, and no way of looking but the
/// screenshot touches the screenshot. The camera is sent out where it goes from
/// bound to free, and back where it goes from free to bound.
pub proof fn law_going_leaves_the_rest(view: ViewState, entry: ViewEntry)
    ensures
        ({
            let (now, journey) = gone_to(view, entry);
            &&& entry == ViewEntry::Screenshot ==> now.mode == view.mode && now.semi_ortho
                == view.semi_ortho
            &&& entry == ViewEntry::Explore ==> now.semi_ortho == view.semi_ortho
            &&& entry != ViewEntry::Screenshot ==> now.screenshot == view.screenshot
            &&& journey == Journey::ToFree <==> view.mode == CameraMode::Bound && now.mode
                == CameraMode::Free
            &&& journey == Journey::ToBound <==> view.mode == CameraMode::Free && now.mode
                == CameraMode::Bound
        }),
{
}

/// The four ways of looking have four different names, and each is listed once.
pub proof fn law_the_views_are_told_apart(one: ViewEntry, other: ViewEntry)
    ensures
        entry_label(one) == entry_label(other) <==> one == other,
        all_entries().contains(one),
        all_entries().no_duplicates(),
{
    reveal_strlit("Edit Ortho");
    reveal_strlit("Edit Persp");
    reveal_strlit("Explore");
    reveal_strlit("Screenshot");
    assert("Edit Ortho"@[5] != "Edit Persp"@[5]);
    assert("Edit Ortho"@[1] != "Explore"@[1]);
    assert("Edit Persp"@[1] != "Explore"@[1]);
    assert("Screenshot"@[0] != "Edit Ortho"@[0]);
    assert("Screenshot"@[0] != "Edit Persp"@[0]);
    assert("Screenshot"@[0] != "Explore"@[0]);
    let all = all_entries();
    match one {
        ViewEntry::EditOrtho => assert(all[0] == one),
        ViewEntry::EditPersp => assert(all[1] == one),
        ViewEntry::Explore => assert(all[2] == one),
        ViewEntry::Screenshot => assert(all[3] == one),
    }
}

/// A click on a row asks for that very view and folds the list; the button unfolds
/// it and folds it again; a click beside it folds it; and a click on its padding, or
/// none, changes nothing. Only a row asks for a view.
pub proof fn law_what_a_click_on_the_menu_does(open: bool, click: MenuClick, entry: ViewEntry)
    ensures
        menu_after(open, MenuClick::Option(entry)) == (false, Some(entry)),
        menu_after(menu_after(open, MenuClick::Trigger).0, MenuClick::Trigger).0 == open,
        menu_after(open, MenuClick::Trigger).0 != open,
        !menu_after(open, MenuClick::Elsewhere).0,
        menu_after(open, MenuClick::Popup).0 == open,
        menu_after(open, MenuClick::Nowhere).0 == open,
        !(click is Option) ==> menu_after(open, click).1 is None,
{
}

/// A button that is switched off looks so wherever the pointer is; one that is not
/// lights up under the pointer and only there.
pub proof fn law_how_a_button_looks(enabled: bool, under_pointer: bool)
    ensures
        look_of(enabled, under_pointer) == ButtonLook::Off <==> !enabled,
        look_of(enabled, under_pointer) == ButtonLook::Hot <==> enabled && under_pointer,
{
}

} // verus!
