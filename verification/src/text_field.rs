//! A one-line text field, as the modals have them.

use crate::keys::{Key, KeyView};
use crate::text_edit::{TextEdit, TextEditView};
use vstd::prelude::*;

verus! {

/// A text field: what it holds, and whether the keys go to it.
pub struct TextInput {
    pub edit: TextEdit,
    pub focused: bool,
}

/// The text of a field after a key. A space is a character like any other; keys
/// that mean nothing to a text are passed over.
pub open spec fn field_typed(edit: TextEditView, key: KeyView) -> TextEditView {
    match key {
        KeyView::Character(s) => edit.typed(s),
        KeyView::Space => edit.typed(seq![' ']),
        KeyView::Backspace => edit.backspaced(),
        KeyView::Delete => edit.deleted(),
        KeyView::ArrowLeft => edit.moved_left(),
        KeyView::ArrowRight => edit.moved_right(),
        KeyView::Home => edit.moved_home(),
        KeyView::End => edit.moved_to_end(),
        _ => edit,
    }
}

/// The text of a field after several keys, one after the other.
pub open spec fn field_typed_all(edit: TextEditView, keys: Seq<Key>) -> TextEditView
    decreases keys.len(),
{
    if keys.len() == 0 {
        edit
    } else {
        field_typed(field_typed_all(edit, keys.drop_last()), keys.last()@)
    }
}

/// What the field shows: its text, with a bar at the cursor while the keys go to
/// it.
pub open spec fn field_shown(edit: TextEditView, focused: bool) -> Seq<char> {
    if focused {
        edit.before + "|"@ + edit.after
    } else {
        edit.text()
    }
}

/// Whether a field has the keys after a frame: during an evaluation only a
/// modal's field may have them; a press on it gives them to it, a press
/// elsewhere takes them away, and so do Escape and, outside a modal, Enter.
pub open spec fn focus_after(
    focused: bool,
    in_modal: bool,
    evaluating: bool,
    pressed: bool,
    clicked_elsewhere: bool,
    escaped: bool,
    entered: bool,
) -> bool {
    if evaluating && !in_modal {
        false
    } else if escaped || (entered && !in_modal) {
        false
    } else if pressed {
        true
    } else if clicked_elsewhere {
        false
    } else {
        focused
    }
}

impl TextInput {
    /// The cursor stands on a character boundary.
    pub open spec fn well_formed(&self) -> bool {
        self.edit.well_formed()
    }

    /// An empty field.
    pub fn new(focused: bool) -> (field: Self)
        ensures
            field.well_formed(),
            field.edit@ == TextEditView::empty(),
            field.focused == focused,
    {
        TextInput { edit: TextEdit::new(), focused }
    }

    /// Type one key into the field.
    pub fn type_key(&mut self, key: &Key)
        requires
            old(self).well_formed(),
        ensures
            final(self).well_formed(),
            final(self).edit@ == field_typed(old(self).edit@, key@),
            final(self).focused == old(self).focused,
    {
        match key {
            Key::Character(s) => self.edit.insert_str(s.as_str()),
            Key::Space => {
                proof {
                    reveal_strlit(" ");
                    assert(" "@ =~= seq![' ']);
                }
                self.edit.insert_str(" ");
            },
            Key::Backspace => {
                let _ = self.edit.backspace();
            },
            Key::Delete => {
                let _ = self.edit.delete();
            },
            Key::ArrowLeft => self.edit.move_left(),
            Key::ArrowRight => self.edit.move_right(),
            Key::Home => self.edit.move_home(),
            Key::End => self.edit.move_to_end(),
            _ => {},
        }
    }

    /// Type the keys of a frame into the field, if they go to it.
    pub fn type_keys(&mut self, keys: &Vec<Key>)
        requires
            old(self).well_formed(),
        ensures
            final(self).well_formed(),
            final(self).edit@ == if old(self).focused {
                field_typed_all(old(self).edit@, keys@)
            } else {
                old(self).edit@
            },
            final(self).focused == old(self).focused,
    {
        if !self.focused {
            return;
        }
        let ghost start = self.edit@;
        let mut i: usize = 0;
        while i < keys.len()
            invariant
                i <= keys.len(),
                self.well_formed(),
                self.focused,
                self.edit@ == field_typed_all(start, keys@.take(i as int)),
            decreases keys.len() - i,
        {
            assert(keys@.take(i + 1).drop_last() == keys@.take(i as int));
            self.type_key(&keys[i]);
            i = i + 1;
        }
        assert(keys@.take(i as int) == keys@);
    }

    /// What the field shows: its text, with a bar at the cursor while the keys
    /// go to it.
    pub fn shown(&self) -> (text: String)
        requires
            self.well_formed(),
        ensures
            text@ == field_shown(self.edit@, self.focused),
    {
        let (before, after) = self.edit.parts();
        if self.focused {
            before.to_owned().concat("|").concat(after)
        } else {
            before.to_owned().concat(after)
        }
    }

    /// Give the keys to the field or take them away, by what the pointer and the
    /// keys of a frame say.
    pub fn refocus(
        &mut self,
        in_modal: bool,
        evaluating: bool,
        pressed: bool,
        clicked_elsewhere: bool,
        escaped: bool,
        entered: bool,
    )
        requires
            old(self).well_formed(),
        ensures
            final(self).well_formed(),
            final(self).edit@ == old(self).edit@,
            final(self).focused == focus_after(
                old(self).focused,
                in_modal,
                evaluating,
                pressed,
                clicked_elsewhere,
                escaped,
                entered,
            ),
    {
        if evaluating && !in_modal {
            self.focused = false;
            return;
        }
        if pressed {
            self.focused = true;
        } else if clicked_elsewhere {
            self.focused = false;
        }
        if escaped || (entered && !in_modal) {
            self.focused = false;
        }
    }
}

/// Losing the keys takes the bar away and leaves the text.
pub proof fn law_unfocused_shows_the_text(edit: TextEditView)
    ensures
        field_shown(edit, false) == edit.text(),
        field_shown(edit, true).len() == edit.text().len() + "|"@.len(),
{
}

/// A field is typed into at its cursor, a space like any other character; the keys
/// that edit take out one character on their own side of the cursor; and a key that
/// moves the cursor, or means nothing to a text, leaves the text.
pub proof fn law_what_the_keys_of_a_field_mean(edit: TextEditView, key: KeyView)
    ensures
        ({
            let now = field_typed(edit, key);
            &&& key matches KeyView::Character(s) ==> now.before == edit.before + s && now.after
                == edit.after
            &&& key is Space ==> now.before == edit.before.push(' ') && now.after == edit.after
            &&& key is Backspace && edit.before.len() > 0 ==> now.before == edit.before.drop_last()
                && now.after == edit.after
            &&& key is Delete && edit.after.len() > 0 ==> now.before == edit.before && now.after
                == edit.after.drop_first()
            &&& key is Backspace && edit.before.len() == 0 ==> now == edit
            &&& key is Delete && edit.after.len() == 0 ==> now == edit
            &&& !(key is Character || key is Space || key is Backspace || key is Delete)
                ==> now.text() == edit.text()
            &&& key is ArrowLeft && edit.before.len() > 0 ==> now.before.len() == edit.before.len()
                - 1
            &&& key is ArrowRight && edit.after.len() > 0 ==> now.before.len() == edit.before.len()
                + 1
            &&& key is Home ==> now.before.len() == 0
            &&& key is End ==> now.after.len() == 0
            &&& key is Enter || key is Escape || key is Tab || key is ArrowUp || key is ArrowDown
                || key is Other ==> now == edit
        }),
{
    crate::text_edit::law_moves_keep_the_text(edit);
    assert(edit.before + seq![' '] =~= edit.before.push(' '));
}

/// Keys are typed in their order, and none of them is lost.
pub proof fn law_keys_are_typed_in_order(edit: TextEditView, keys: Seq<Key>, key: Key)
    ensures
        field_typed_all(edit, Seq::empty()) == edit,
        field_typed_all(edit, keys.push(key)) == field_typed(field_typed_all(edit, keys), key@),
{
    assert(keys.push(key).drop_last() =~= keys);
}

/// The bar stands where the cursor is.
pub proof fn law_the_bar_is_at_the_cursor(edit: TextEditView)
    ensures
        field_shown(edit, true) == edit.before + seq!['|'] + edit.after,
        field_shown(edit, false) == edit.before + edit.after,
{
    reveal_strlit("|");
    assert("|"@ =~= seq!['|']);
}

/// Who has the keys: a press on a field gives them to it and a press elsewhere takes
/// them, `Escape` always does, `Return` does outside a modal, and a run takes them
/// from everything but a modal. Otherwise nothing changes.
pub proof fn law_who_has_the_keys(
    focused: bool,
    in_modal: bool,
    evaluating: bool,
    pressed: bool,
    clicked_elsewhere: bool,
    entered: bool,
)
    ensures
        !focus_after(focused, in_modal, evaluating, pressed, clicked_elsewhere, true, entered),
        !focus_after(focused, false, true, pressed, clicked_elsewhere, false, entered),
        !focus_after(focused, false, evaluating, pressed, clicked_elsewhere, false, true),
        in_modal || (!evaluating && !entered) ==> {
            &&& focus_after(focused, in_modal, evaluating, true, clicked_elsewhere, false, entered)
            &&& !focus_after(focused, in_modal, evaluating, false, true, false, entered)
            &&& focus_after(focused, in_modal, evaluating, false, false, false, entered) == focused
        },
{
}

} // verus!
