//! What the keyboard means to the editor.

use crate::cell::Cell;
use crate::editor::{Editor, EditorMode, EditorView, Inserted, PendingEdit};
use crate::model::node;
use crate::panel;
use crate::prompt::{InsertPrompt, InsertPromptView};
use crate::selection;
use crate::suggest::{self, PromptAction, Suggestion};
use crate::target::InsertTarget;
use vstd::prelude::*;

verus! {

/// A key, by what the layout made of it and not by where it sits.
#[derive(Debug)]
pub enum Key {
    /// A single press can carry more than one character when a dead key
    /// resolves.
    Character(String),
    Space,
    Enter,
    Escape,
    Tab,
    Backspace,
    Delete,
    ArrowLeft,
    ArrowRight,
    ArrowUp,
    ArrowDown,
    Home,
    End,
    /// Any other key.
    Other,
}

/// The mathematical value of a [`Key`].
pub enum KeyView {
    Character(Seq<char>),
    Space,
    Enter,
    Escape,
    Tab,
    Backspace,
    Delete,
    ArrowLeft,
    ArrowRight,
    ArrowUp,
    ArrowDown,
    Home,
    End,
    Other,
}

impl View for Key {
    type V = KeyView;

    open spec fn view(&self) -> KeyView {
        match self {
            Key::Character(s) => KeyView::Character(s@),
            Key::Space => KeyView::Space,
            Key::Enter => KeyView::Enter,
            Key::Escape => KeyView::Escape,
            Key::Tab => KeyView::Tab,
            Key::Backspace => KeyView::Backspace,
            Key::Delete => KeyView::Delete,
            Key::ArrowLeft => KeyView::ArrowLeft,
            Key::ArrowRight => KeyView::ArrowRight,
            Key::ArrowUp => KeyView::ArrowUp,
            Key::ArrowDown => KeyView::ArrowDown,
            Key::Home => KeyView::Home,
            Key::End => KeyView::End,
            Key::Other => KeyView::Other,
        }
    }
}

/// A control character: it is part of no name.
pub open spec fn is_control(c: char) -> bool {
    c <= '\u{1f}' || ('\u{7f}' <= c && c <= '\u{9f}')
}

/// Something that can be written: a text, without control characters.
pub open spec fn is_writable(s: Seq<char>) -> bool {
    &&& s.len() > 0
    &&& forall|i: int| 0 <= i < s.len() ==> !is_control(#[trigger] s[i])
}

fn writable(s: &str) -> (res: bool)
    ensures
        res == is_writable(s@),
{
    let len: usize = s.unicode_len();
    if len == 0 {
        return false;
    }
    let mut i: usize = 0;
    while i < len
        invariant
            i <= len,
            len == s@.len(),
            forall|j: int| 0 <= j < i ==> !is_control(#[trigger] s@[j]),
        decreases len - i,
    {
        let c = s.get_char(i);
        if c <= '\u{1f}' || ('\u{7f}' <= c && c <= '\u{9f}') {
            assert(is_control(s@[i as int]));
            return false;
        }
        i = i + 1;
    }
    true
}

/// The room that can be made at the caret.
#[derive(Clone, Copy, Debug, PartialEq, Eq, Structural)]
pub enum Room {
    /// A cell, behind which the caret goes on.
    Cell,
    /// A row: of the arms, where the caret stands in a Match, and otherwise of
    /// the whole scope.
    Row,
    /// A column.
    Column,
}

/// What a key asks for beyond the change to the editor itself.
#[derive(Clone, Copy, Debug, PartialEq, Eq, Structural)]
pub enum KeyAction {
    /// Nothing more.
    Nothing,
    /// Leave INSERT; see `Editor::leave_insert_mode`.
    Leave,
    /// Go to the next row of the panel, or to the one before.
    Tab { back: bool },
    /// Take out the node the caret stands on.
    DeleteAtCaret,
    /// The text changed: the list has to be asked again.
    Reselect,
    /// Move the highlight one row, down for `1` and up for `-1`.
    StepSelection(isize),
    /// Make room where the caret stands.
    MakeRoom(Room),
    /// Commit the highlighted row.
    Commit,
}

/// The prompt with a key typed into it, and whether its text has changed so that
/// the list has to be asked again.
pub open spec fn typed_into(prompt: InsertPromptView, key: KeyView) -> (InsertPromptView, bool) {
    let edit = prompt.edit;
    match key {
        KeyView::Character(s) => if is_writable(s) {
            (prompt.with_edit(edit.typed(s)), true)
        } else {
            (prompt, false)
        },
        KeyView::Backspace => (prompt.with_edit(edit.backspaced()), edit.before.len() > 0),
        KeyView::Delete => (prompt.with_edit(edit.deleted()), edit.after.len() > 0),
        KeyView::ArrowLeft => (prompt.with_edit(edit.moved_left()), false),
        KeyView::ArrowRight => (prompt.with_edit(edit.moved_right()), false),
        KeyView::Home => (prompt.with_edit(edit.moved_home()), false),
        KeyView::End => (prompt.with_edit(edit.moved_to_end()), false),
        _ => (prompt, false),
    }
}

/// What the space bar does in INSERT. On a cell that names a property it is
/// simply a character, and inside an unclosed quote it is one too. On an empty
/// create prompt it makes room, once per press.
pub open spec fn space_in_insert(
    prompt: InsertPromptView,
    target: InsertTarget,
    repeat: bool,
) -> (InsertPromptView, KeyAction) {
    let text = prompt.edit.text();
    if target != InsertTarget::Create || suggest::quote_is_open(text) {
        (prompt.with_edit(prompt.edit.typed(seq![' '])), KeyAction::Reselect)
    } else if text.len() == 0 && !repeat {
        (prompt, KeyAction::MakeRoom(Room::Cell))
    } else {
        (prompt, KeyAction::Nothing)
    }
}

/// What `Return` does in INSERT: the newline only while the list has not
/// answered, and otherwise the commit.
pub open spec fn enter_in_insert(
    prompt: InsertPromptView,
    target: InsertTarget,
    repeat: bool,
    shift: bool,
) -> KeyAction {
    if repeat {
        KeyAction::Nothing
    } else if target == InsertTarget::Create && prompt.edit.text().len() == 0 && prompt.selected
        is None {
        KeyAction::MakeRoom(
            if shift {
                Room::Row
            } else {
                Room::Column
            },
        )
    } else {
        KeyAction::Commit
    }
}

/// What a key does in INSERT.
pub open spec fn key_in_insert(
    prompt: InsertPromptView,
    target: InsertTarget,
    key: KeyView,
    repeat: bool,
    shift: bool,
) -> (InsertPromptView, KeyAction) {
    match key {
        KeyView::Space => space_in_insert(prompt, target, repeat),
        KeyView::Enter => (prompt, enter_in_insert(prompt, target, repeat, shift)),
        KeyView::ArrowDown => (prompt, KeyAction::StepSelection(1)),
        KeyView::ArrowUp => (prompt, KeyAction::StepSelection((-1) as isize)),
        _ => {
            let (now, changed) = typed_into(prompt, key);
            (
                now,
                if changed {
                    KeyAction::Reselect
                } else {
                    KeyAction::Nothing
                },
            )
        },
    }
}

/// What a key does: what becomes of the editor, and what more is asked for.
/// `captured` says that something other than the graph owns the keyboard.
pub open spec fn key_step(
    editor: EditorView,
    target: InsertTarget,
    key: KeyView,
    repeat: bool,
    shift: bool,
    captured: bool,
) -> (EditorView, KeyAction) {
    if captured {
        (editor, KeyAction::Nothing)
    } else if key is Escape {
        (editor, KeyAction::Leave)
    } else if key is Tab && !repeat {
        (editor, KeyAction::Tab { back: shift })
    } else if editor.mode == EditorMode::Normal {
        if key == KeyView::Character("i"@) {
            (
                EditorView {
                    prompt: InsertPromptView::empty(),
                    mode: EditorMode::Insert,
                    rebuild: true,
                    ..editor
                },
                KeyAction::Nothing,
            )
        } else if key is Delete && !repeat {
            (editor, KeyAction::DeleteAtCaret)
        } else {
            (editor, KeyAction::Nothing)
        }
    } else {
        let (prompt, action) = key_in_insert(editor.prompt, target, key, repeat, shift);
        (EditorView { prompt, ..editor }, action)
    }
}

/// The editor after INSERT was entered.
pub open spec fn insert_entered(editor: EditorView) -> EditorView {
    EditorView {
        prompt: InsertPromptView::empty(),
        mode: EditorMode::Insert,
        rebuild: true,
        ..editor
    }
}

/// The editor after INSERT was left without a commit; `removed` is the cell that an
/// unfinished node was started from, where one went with it.
pub open spec fn insert_left(editor: EditorView, removed: Option<Cell>) -> EditorView {
    EditorView {
        mode: EditorMode::Normal,
        prompt: InsertPromptView::empty(),
        pending: None,
        caret: match removed {
            Some(cell) => cell,
            None => editor.caret,
        },
        rebuild: editor.rebuild || removed is Some || editor.mode != EditorMode::Normal,
    }
}

/// The editor after a press on one half of the mode control.
pub open spec fn toggled(
    editor: EditorView,
    half: EditorMode,
    evaluating: bool,
    removed: Option<Cell>,
) -> EditorView {
    if evaluating || half == editor.mode {
        editor
    } else if half == EditorMode::Insert {
        insert_entered(editor)
    } else {
        insert_left(editor, removed)
    }
}

impl InsertPrompt {
    /// Type a key into the prompt. Says whether the text changed, so that the
    /// list has to be asked again.
    pub fn type_key(&mut self, key: &Key) -> (changed: bool)
        requires
            old(self).well_formed(),
        ensures
            final(self).well_formed(),
            (final(self)@, changed) == typed_into(old(self)@, key@),
    {
        match key {
            Key::Character(s) => {
                if writable(s.as_str()) {
                    self.insert_str(s.as_str());
                    true
                } else {
                    false
                }
            },
            Key::Backspace => self.edit.backspace(),
            Key::Delete => self.edit.delete(),
            Key::ArrowLeft => {
                self.edit.move_left();
                false
            },
            Key::ArrowRight => {
                self.edit.move_right();
                false
            },
            Key::Home => {
                self.edit.move_home();
                false
            },
            Key::End => {
                self.edit.move_to_end();
                false
            },
            _ => false,
        }
    }
}

/// Whether the key is the letter `i` and nothing else.
fn is_insert_key(key: &Key) -> (res: bool)
    ensures
        res == (key@ == KeyView::Character("i"@)),
{
    proof {
        reveal_strlit("i");
    }
    match key {
        Key::Character(s) => {
            let res = s.as_str().unicode_len() == 1 && s.as_str().get_char(0) == 'i';
            assert(res ==> s@ =~= "i"@);
            res
        },
        _ => false,
    }
}

impl Editor {
    /// One key of the batch: the mode switch, and then INSERT's jobs, the
    /// room-makers and the prompt, into which every other key writes.
    ///
    /// What the prompt is *for* is `target`'s answer. The room-makers belong to
    /// the prompt that builds: where it edits something that already stands
    /// there, making room is not an answer to anything. The key that enters
    /// INSERT is consumed at the very point that flips the mode, so it cannot
    /// also be typed into the prompt.
    pub fn handle_key(
        &mut self,
        target: InsertTarget,
        key: &Key,
        repeat: bool,
        shift: bool,
        captured: bool,
    ) -> (action: KeyAction)
        requires
            old(self).well_formed(),
        ensures
            final(self).well_formed(),
            (final(self)@, action) == key_step(
                old(self)@,
                target,
                key@,
                repeat,
                shift,
                captured,
            ),
    {
        if captured {
            return KeyAction::Nothing;
        }
        match key {
            Key::Escape => return KeyAction::Leave,
            Key::Tab => {
                if !repeat {
                    return KeyAction::Tab { back: shift };
                }
            },
            _ => {},
        }
        if self.mode == EditorMode::Normal {
            if is_insert_key(key) {
                self.enter_insert();
                return KeyAction::Nothing;
            }
            return match key {
                Key::Delete => if repeat {
                    KeyAction::Nothing
                } else {
                    KeyAction::DeleteAtCaret
                },
                _ => KeyAction::Nothing,
            };
        }
        proof {
            self.prompt.edit.lemma_parts();
        }
        let creating = target == InsertTarget::Create;
        match key {
            Key::Space => {
                if !creating || suggest::in_open_quote(self.prompt.edit.text.as_str()) {
                    proof {
                        reveal_strlit(" ");
                        assert(" "@ =~= seq![' ']);
                    }
                    self.prompt.insert_str(" ");
                    KeyAction::Reselect
                } else if self.prompt.edit.text.as_str().is_empty() && !repeat {
                    KeyAction::MakeRoom(Room::Cell)
                } else {
                    KeyAction::Nothing
                }
            },
            Key::Enter => {
                if repeat {
                    KeyAction::Nothing
                } else if creating && self.prompt.edit.text.as_str().is_empty()
                    && self.prompt.selected.is_none() {
                    KeyAction::MakeRoom(
                        if shift {
                            Room::Row
                        } else {
                            Room::Column
                        },
                    )
                } else {
                    KeyAction::Commit
                }
            },
            Key::ArrowDown => KeyAction::StepSelection(1),
            Key::ArrowUp => KeyAction::StepSelection(-1),
            _ => {
                if self.prompt.type_key(key) {
                    KeyAction::Reselect
                } else {
                    KeyAction::Nothing
                }
            },
        }
    }

    /// Enter INSERT, with nothing typed.
    pub fn enter_insert(&mut self)
        ensures
            final(self).well_formed(),
            final(self)@ == insert_entered(old(self)@),
    {
        self.prompt.clear();
        self.mode = EditorMode::Insert;
        self.rebuild = true;
    }

    /// Leaving INSERT without committing anything: the one act behind `Escape`
    /// and behind a click on the control's NORMAL half.
    ///
    /// What was typed is dropped. Where a node was built a moment ago and is
    /// still waiting for its one mandatory property, that node is dropped too:
    /// `removed` is the cell the insert started on, kept inside the volume, once
    /// the node `pending` names has been taken out, and `None` where it could
    /// not be or where none was pending. Says whether one was dropped.
    pub fn leave_insert_mode(&mut self, removed: Option<Cell>) -> (dropped: bool)
        requires
            removed is Some ==> old(self).pending is Some,
        ensures
            final(self).well_formed(),
            dropped == removed is Some,
            final(self)@ == insert_left(old(self)@, removed),
    {
        self.pending = None;
        if let Some(cell) = removed {
            self.caret = cell;
            self.prompt.clear();
            self.mode = EditorMode::Normal;
            self.rebuild = true;
            return true;
        }
        self.prompt.clear();
        if self.mode != EditorMode::Normal {
            self.mode = EditorMode::Normal;
            self.rebuild = true;
        }
        false
    }

    /// A press on one half of the mode control: each half is the key it stands
    /// for. A press on the half that is already on does nothing, and neither
    /// does one while an evaluation runs.
    pub fn handle_mode_toggle(
        &mut self,
        half: EditorMode,
        evaluating: bool,
        removed: Option<Cell>,
    )
        requires
            old(self).well_formed(),
            removed is Some ==> old(self).pending is Some,
        ensures
            final(self).well_formed(),
            final(self)@ == toggled(old(self)@, half, evaluating, removed),
    {
        if evaluating || half == self.mode {
            return;
        }
        match half {
            EditorMode::Insert => self.enter_insert(),
            EditorMode::Normal => {
                let _ = self.leave_insert_mode(removed);
            },
        }
    }

    /// What follows a committed row, whichever key or click committed it.
    ///
    /// INSERT stays on while there is anything left to say about the node the
    /// caret stands on: first whatever the new node still owes, then every
    /// property of it that has not been reached yet. `next` is the cell of that
    /// property, kept inside the volume.
    pub fn commit_outcome(&mut self, outcome: Inserted, next: Option<Cell>)
        requires
            old(self).well_formed(),
        ensures
            final(self).well_formed(),
            final(self)@ == committed(old(self)@, outcome, next),
    {
        self.prompt.clear();
        self.rebuild = true;
        match outcome {
            Inserted::Pending(edit) => {
                self.pending = Some(edit);
            },
            Inserted::Done => {
                self.pending = None;
                match next {
                    Some(cell) => self.caret = cell,
                    None => self.mode = EditorMode::Normal,
                }
            },
        }
    }

    /// Put the caret on the row `TAB` goes to: `wanted` is that row's cell, kept
    /// inside the volume. Says whether the caret moved.
    pub fn move_caret(&mut self, wanted: Cell) -> (moved: bool)
        requires
            old(self).well_formed(),
        ensures
            final(self).well_formed(),
            moved == (wanted != old(self).caret),
            final(self)@ == (EditorView {
                caret: wanted,
                rebuild: old(self).rebuild || moved,
                ..old(self)@
            }),
    {
        if wanted != self.caret {
            self.caret = wanted;
            self.rebuild = true;
            true
        } else {
            false
        }
    }

    /// Move the highlight of the prompt one row through `candidates`.
    pub fn step_highlight(&mut self, candidates: &[Suggestion], delta: isize)
        requires
            old(self).well_formed(),
            delta == 1 || delta == -1,
        ensures
            final(self).well_formed(),
            final(self)@ == (EditorView {
                prompt: InsertPromptView {
                    selected: final(self).prompt.selected,
                    ..old(self)@.prompt
                },
                ..old(self)@
            }),
            ({
                let start = selection::step_start(
                    candidates@.len(),
                    old(self).prompt.selected,
                    delta as int,
                );
                match final(self).prompt.selected {
                    Some(index) => if delta == 1 {
                        selection::first_below(candidates@, start, index as int)
                    } else {
                        selection::first_above(candidates@, start, index as int)
                    },
                    None => forall|i: int|
                        (if delta == 1 {
                            start <= i
                        } else {
                            i <= start
                        }) ==> !#[trigger] selection::allowed_at(candidates@, i),
                }
            }),
    {
        self.prompt.selected =
        selection::step_selection(candidates, self.prompt.selected, delta);
    }

    /// The action of the row that `Return` commits: the highlighted one, if it
    /// can be committed.
    pub fn highlighted_action(&self, candidates: &[Suggestion]) -> (action: Option<PromptAction>)
        ensures
            match action {
                Some(action) => highlighted(candidates@, self.prompt.selected) == Some(action),
                None => highlighted(candidates@, self.prompt.selected) is None,
            },
    {
        match selection::clamped_selection(candidates, self.prompt.selected) {
            Some(index) => if candidates[index].allowed {
                Some(candidates[index].action.clone())
            } else {
                None
            },
            None => None,
        }
    }
}

/// The action of the highlighted row, if it can be committed.
pub open spec fn highlighted(
    candidates: Seq<Suggestion>,
    selected: Option<usize>,
) -> Option<PromptAction> {
    match selection::clamped(candidates.len(), selected) {
        Some(index) => if candidates[index as int].allowed {
            Some(candidates[index as int].action)
        } else {
            None
        },
        None => None,
    }
}

/// The editor after a commit.
pub open spec fn committed(editor: EditorView, outcome: Inserted, next: Option<Cell>) -> EditorView {
    match outcome {
        Inserted::Pending(edit) => EditorView {
            prompt: InsertPromptView::empty(),
            rebuild: true,
            pending: Some(edit),
            ..editor
        },
        Inserted::Done => EditorView {
            prompt: InsertPromptView::empty(),
            rebuild: true,
            pending: None,
            caret: match next {
                Some(cell) => cell,
                None => editor.caret,
            },
            mode: if next is None {
                EditorMode::Normal
            } else {
                editor.mode
            },
        },
    }
}

/// The rest of a batch of keys is dropped after an action.
pub open spec fn drops_the_rest(action: KeyAction, changed: bool) -> bool {
    match action {
        KeyAction::MakeRoom(_) => true,
        KeyAction::Commit => true,
        KeyAction::Leave => changed,
        KeyAction::Tab { .. } => changed,
        KeyAction::DeleteAtCaret => changed,
        _ => false,
    }
}

/// Whether the rest of a batch of keys is dropped after an action: it was struck
/// against a caret or a graph that is no longer there. `changed` says whether
/// the action did change something.
pub fn ends_batch(action: KeyAction, changed: bool) -> (res: bool)
    ensures
        res == drops_the_rest(action, changed),
{
    match action {
        KeyAction::MakeRoom(_) | KeyAction::Commit => true,
        KeyAction::Leave | KeyAction::Tab { .. } | KeyAction::DeleteAtCaret => changed,
        KeyAction::Nothing | KeyAction::Reselect | KeyAction::StepSelection(_) => false,
    }
}

/// The way to what stood where room was made.
pub open spec fn room_way(room: Room) -> Cell {
    match room {
        Room::Cell => Cell { x: 0, y: 0, z: 1 },
        Room::Row => Cell { x: 0, y: 1, z: 0 },
        Room::Column => Cell { x: 1, y: 0, z: 0 },
    }
}

/// The way the caret rides the room that was made, so that it keeps addressing
/// whatever it pointed at.
pub fn room_delta(room: Room) -> (delta: Cell)
    ensures
        delta == room_way(room),
{
    match room {
        Room::Cell => Cell::new(0, 0, 1),
        Room::Row => Cell::new(0, 1, 0),
        Room::Column => Cell::new(1, 0, 0),
    }
}

/// While something else owns the keyboard a key changes nothing.
pub proof fn law_captured_keys_do_nothing(
    editor: EditorView,
    target: InsertTarget,
    key: KeyView,
    repeat: bool,
    shift: bool,
)
    ensures
        key_step(editor, target, key, repeat, shift, true) == (editor, KeyAction::Nothing),
{
}

/// The letter that enters INSERT is not typed into the prompt.
pub proof fn law_insert_key_is_not_typed(
    editor: EditorView,
    target: InsertTarget,
    repeat: bool,
    shift: bool,
)
    requires
        editor.mode == EditorMode::Normal,
    ensures
        ({
            let (now, action) = key_step(
                editor,
                target,
                KeyView::Character("i"@),
                repeat,
                shift,
                false,
            );
            now.mode == EditorMode::Insert && now.prompt == InsertPromptView::empty() && action
                == KeyAction::Nothing && now.caret == editor.caret
        }),
{
}

/// A key alone never moves the caret, never marks a node as owing something, and
/// never leaves INSERT: all of that is done by what it asks for.
pub proof fn law_keys_leave_the_caret(
    editor: EditorView,
    target: InsertTarget,
    key: KeyView,
    repeat: bool,
    shift: bool,
    captured: bool,
)
    ensures
        ({
            let (now, action) = key_step(editor, target, key, repeat, shift, captured);
            &&& now.caret == editor.caret
            &&& now.pending == editor.pending
            &&& editor.mode == EditorMode::Insert ==> now.mode == EditorMode::Insert
            &&& editor.mode == EditorMode::Normal && now.mode == EditorMode::Normal ==> now
                == editor
        }),
{
}

/// Room is only ever made on an empty create prompt, and once per press: a held
/// key opens nothing further, and a prompt that edits a property never makes any.
pub proof fn law_room_is_made_once(
    editor: EditorView,
    target: InsertTarget,
    key: KeyView,
    repeat: bool,
    shift: bool,
    captured: bool,
)
    requires
        key_step(editor, target, key, repeat, shift, captured).1 is MakeRoom,
    ensures
        !repeat,
        target == InsertTarget::Create,
        editor.prompt.edit.text().len() == 0,
        editor.mode == EditorMode::Insert,
        key_step(editor, target, key, repeat, shift, captured).0 == editor,
{
}

/// Whatever leaving INSERT finds, it leaves NORMAL with an empty prompt and
/// nothing pending; and a commit that owes nothing and has nowhere to go on to
/// ends there too.
pub proof fn law_a_finished_commit_ends_insert(editor: EditorView)
    ensures
        committed(editor, Inserted::Done, None).mode == EditorMode::Normal,
        committed(editor, Inserted::Done, None).pending is None,
        committed(editor, Inserted::Done, None).prompt == InsertPromptView::empty(),
        committed(editor, Inserted::Done, None).caret == editor.caret,
        forall|edit: PendingEdit| #[trigger]
            committed(editor, Inserted::Pending(edit), None).mode == editor.mode,
{
}

/// What the keys mean in INSERT: a text is typed where the cursor is, the editing
/// keys edit and the moving keys move, and the list is asked again exactly if the
/// text changed. Up and down step through the list, one row at a time.
pub proof fn law_what_the_keys_of_insert_mean(
    editor: EditorView,
    target: InsertTarget,
    key: KeyView,
    repeat: bool,
    shift: bool,
)
    requires
        editor.mode == EditorMode::Insert,
    ensures
        ({
            let edit = editor.prompt.edit;
            let (now, action) = key_step(editor, target, key, repeat, shift, false);
            let then = now.prompt.edit;
            &&& now.prompt.selected == editor.prompt.selected
            &&& now.rebuild == editor.rebuild
            &&& key matches KeyView::Character(s) ==> is_writable(s) ==> then.before == edit.before
                + s && then.after == edit.after && action == KeyAction::Reselect
            &&& key matches KeyView::Character(s) ==> !is_writable(s) ==> now == editor && action
                == KeyAction::Nothing
            &&& key is Backspace && edit.before.len() > 0 ==> then.before
                == edit.before.drop_last() && then.after == edit.after && action
                == KeyAction::Reselect
            &&& key is Backspace && edit.before.len() == 0 ==> now == editor && action
                == KeyAction::Nothing
            &&& key is Delete && edit.after.len() > 0 ==> then.before == edit.before && then.after
                == edit.after.drop_first() && action == KeyAction::Reselect
            &&& key is Delete && edit.after.len() == 0 ==> now == editor && action
                == KeyAction::Nothing
            &&& key is ArrowLeft || key is ArrowRight || key is Home || key is End ==> then.text()
                == edit.text() && action == KeyAction::Nothing
            &&& key is ArrowLeft && edit.before.len() > 0 ==> then.before.len() == edit.before.len()
                - 1
            &&& key is ArrowRight && edit.after.len() > 0 ==> then.before.len() == edit.before.len()
                + 1
            &&& key is Home ==> then.before.len() == 0
            &&& key is End ==> then.after.len() == 0
            &&& key is ArrowDown ==> now == editor && action == KeyAction::StepSelection(1)
            &&& key is ArrowUp ==> now == editor && action == KeyAction::StepSelection(-1isize)
        }),
{
    crate::text_edit::law_moves_keep_the_text(editor.prompt.edit);
}

/// What the space bar and `Return` mean in INSERT. Where a property is answered
/// the space bar writes a space, and `Return` commits. Where something is built
/// the space bar writes one only inside an open quote, and on an empty prompt
/// makes room for a cell; `Return` on an empty prompt with nothing chosen makes
/// room for a column, with shift for a row, and commits otherwise. A held key
/// does neither.
pub proof fn law_what_space_and_return_mean(
    editor: EditorView,
    target: InsertTarget,
    repeat: bool,
    shift: bool,
)
    requires
        editor.mode == EditorMode::Insert,
    ensures
        ({
            let edit = editor.prompt.edit;
            let (now, action) = key_step(editor, target, KeyView::Space, repeat, shift, false);
            &&& target is Edit || suggest::quote_is_open(edit.text()) ==> now.prompt.edit.before
                == edit.before.push(' ') && now.prompt.edit.after == edit.after && action
                == KeyAction::Reselect
            &&& target is Create && edit.text().len() == 0 && !repeat ==> now == editor && action
                == KeyAction::MakeRoom(Room::Cell)
            &&& target is Create && !suggest::quote_is_open(edit.text()) && (repeat
                || edit.text().len() > 0) ==> now == editor && action == KeyAction::Nothing
        }),
        ({
            let edit = editor.prompt.edit;
            let (now, action) = key_step(editor, target, KeyView::Enter, repeat, shift, false);
            &&& now == editor
            &&& repeat ==> action == KeyAction::Nothing
            &&& !repeat && target is Edit ==> action == KeyAction::Commit
            &&& !repeat && target is Create && (edit.text().len() > 0 || editor.prompt.selected
                is Some) ==> action == KeyAction::Commit
            &&& !repeat && target is Create && edit.text().len() == 0 && editor.prompt.selected
                is None && shift ==> action == KeyAction::MakeRoom(Room::Row)
            &&& !repeat && target is Create && edit.text().len() == 0 && editor.prompt.selected
                is None && !shift ==> action == KeyAction::MakeRoom(Room::Column)
        }),
{
    let edit = editor.prompt.edit;
    assert(edit.before + seq![' '] =~= edit.before.push(' '));
}

/// `Escape` leaves and `TAB` goes on in either mode, and backward with shift. In
/// NORMAL `Delete` takes out what the caret stands on, once per press, and every
/// key but the one that enters INSERT does nothing else.
pub proof fn law_what_the_keys_of_both_modes_mean(
    editor: EditorView,
    target: InsertTarget,
    key: KeyView,
    repeat: bool,
    shift: bool,
)
    ensures
        key_step(editor, target, KeyView::Escape, repeat, shift, false) == (
            editor,
            KeyAction::Leave,
        ),
        key_step(editor, target, KeyView::Tab, false, shift, false) == (
            editor,
            KeyAction::Tab { back: shift },
        ),
        editor.mode == EditorMode::Normal ==> {
            &&& key_step(editor, target, KeyView::Delete, false, shift, false) == (
                editor,
                KeyAction::DeleteAtCaret,
            )
            &&& key_step(editor, target, KeyView::Delete, true, shift, false) == (
                editor,
                KeyAction::Nothing,
            )
            &&& !(key is Escape || key is Tab || key is Delete) && key != KeyView::Character(
                seq!['i'],
            ) ==> key_step(editor, target, key, repeat, shift, false) == (
                editor,
                KeyAction::Nothing,
            )
            &&& key == KeyView::Character(seq!['i']) ==> {
                let now = key_step(editor, target, key, repeat, shift, false).0;
                &&& now.mode == EditorMode::Insert
                &&& now.rebuild
                &&& now.prompt.edit.text().len() == 0
                &&& now.prompt.selected is None
            }
        },
{
    reveal_strlit("i");
    assert("i"@ =~= seq!['i']);
}

/// A text can be written if it has characters and none of them is a control
/// character: a line break, a tab and the like are not typed.
pub proof fn law_what_can_be_written(s: Seq<char>, c: char)
    ensures
        !is_writable(Seq::empty()),
        is_writable(seq![c]) <==> !is_control(c),
        is_control('\n') && is_control('\t') && is_control('\r') && is_control('\u{7f}'),
        ' ' <= c <= '~' ==> !is_control(c),
        c >= '\u{a0}' ==> !is_control(c),
        s.contains(c) && is_control(c) ==> !is_writable(s),
{
    if is_writable(seq![c]) {
        assert(!is_control(seq![c][0]));
    }
    if s.contains(c) && is_writable(s) {
        let i = choose|i: int| 0 <= i < s.len() && s[i] == c;
        assert(!is_control(s[i]));
    }
}

/// A commit that leaves something owing marks the node that owes it and keeps the
/// caret and the mode; one that owes nothing goes on to the next property where
/// there is one. Either way the prompt is empty and the picture is drawn again.
pub proof fn law_what_a_commit_leaves(editor: EditorView, edit: PendingEdit, next: Option<Cell>)
    ensures
        ({
            let owing = committed(editor, Inserted::Pending(edit), next);
            let done = committed(editor, Inserted::Done, next);
            &&& owing.pending == Some(edit)
            &&& owing.caret == editor.caret
            &&& owing.mode == editor.mode
            &&& done.pending is None
            &&& next matches Some(cell) ==> done.caret == cell && done.mode == editor.mode
            &&& owing.rebuild && done.rebuild
            &&& owing.prompt.edit.text().len() == 0 && done.prompt.edit.text().len() == 0
            &&& owing.prompt.selected is None && done.prompt.selected is None
        }),
{
}

/// What `Return` commits is the row the highlight stands on, and only if that row
/// can be committed; a highlight that ran past the list stands on its last row.
pub proof fn law_return_commits_the_highlighted_row(
    candidates: Seq<Suggestion>,
    selected: Option<usize>,
)
    requires
        candidates.len() <= usize::MAX,
    ensures
        selected is None || candidates.len() == 0 ==> highlighted(candidates, selected) is None,
        selected matches Some(index) ==> index < candidates.len() ==> highlighted(
            candidates,
            selected,
        ) == if candidates[index as int].allowed {
            Some(candidates[index as int].action)
        } else {
            None
        },
        selected matches Some(index) ==> 0 < candidates.len() <= index ==> highlighted(
            candidates,
            selected,
        ) == if candidates.last().allowed {
            Some(candidates.last().action)
        } else {
            None
        },
{
}

/// The caret rides the room that was made: one cell along the axis the room was made
/// on, and on no other.
pub proof fn law_the_caret_rides_the_room(room: Room)
    ensures
        room_way(room).x + room_way(room).y + room_way(room).z == 1,
        room_way(room).x == 1 <==> room == Room::Column,
        room_way(room).y == 1 <==> room == Room::Row,
        room_way(room).z == 1 <==> room == Room::Cell,
{
}

/// Keys that follow are dropped where the graph or the caret they were struck
/// against is no longer there: after room was made and after a commit always, after
/// anything else that moves the caret or takes a node out if it did so, and never
/// after what only concerns the prompt.
pub proof fn law_when_keys_are_dropped(action: KeyAction, changed: bool)
    ensures
        action is MakeRoom || action is Commit ==> drops_the_rest(action, changed),
        action is Leave || action is Tab || action is DeleteAtCaret ==> drops_the_rest(
            action,
            changed,
        ) == changed,
        action is Nothing || action is Reselect || action is StepSelection ==> !drops_the_rest(
            action,
            changed,
        ),
{
}

/// Leaving INSERT drops what was typed and what was owed; the caret goes back to
/// where an unfinished node was started only if that node went, and stays otherwise.
/// Entering it starts with nothing typed and leaves the caret. Both draw the picture
/// anew.
pub proof fn law_entering_and_leaving(editor: EditorView, cell: Cell)
    ensures
        ({
            let left = insert_left(editor, None);
            let cancelled = insert_left(editor, Some(cell));
            &&& left.mode == EditorMode::Normal && cancelled.mode == EditorMode::Normal
            &&& left.pending is None && cancelled.pending is None
            &&& left.prompt.edit.text().len() == 0 && cancelled.prompt.edit.text().len() == 0
            &&& left.prompt.selected is None && cancelled.prompt.selected is None
            &&& left.caret == editor.caret
            &&& cancelled.caret == cell
            &&& cancelled.rebuild
            &&& editor.mode == EditorMode::Insert ==> left.rebuild
            &&& editor.mode == EditorMode::Normal ==> left.rebuild == editor.rebuild
        }),
        ({
            let entered = insert_entered(editor);
            &&& entered.mode == EditorMode::Insert
            &&& entered.prompt.edit.text().len() == 0
            &&& entered.prompt.selected is None
            &&& entered.caret == editor.caret
            &&& entered.pending == editor.pending
            &&& entered.rebuild
        }),
{
}

/// Each half of the mode control is the key it stands for: the one half enters
/// INSERT and the other leaves it. The half that is on does nothing, and while an
/// evaluation runs neither does anything.
pub proof fn law_what_the_halves_do(editor: EditorView, half: EditorMode, removed: Option<Cell>)
    ensures
        toggled(editor, half, true, removed) == editor,
        toggled(editor, editor.mode, false, removed) == editor,
        toggled(editor, half, false, removed).mode == half,
        half != editor.mode && half == EditorMode::Insert ==> toggled(editor, half, false, removed)
            == insert_entered(editor),
        half != editor.mode && half == EditorMode::Normal ==> toggled(editor, half, false, removed)
            == insert_left(editor, removed),
{
}

} // verus!
