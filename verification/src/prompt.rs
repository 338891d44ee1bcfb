//! What has been typed in INSERT so far, and which suggestion it stands on.

use crate::selection;
use crate::suggest::Suggestion;
use crate::text_edit::{TextEdit, TextEditView};
use vstd::prelude::*;
use vstd::utf8;

verus! {

/// One prompt for every job: the caret decides which of them is live, so no two
/// can be live at once.
///
/// `selected` indexes the *candidate* list, not the window of it that fits on
/// screen. It is an `Option` because "no row is the answer yet" is a state the
/// prompt really has.
pub struct InsertPrompt {
    pub edit: TextEdit,
    pub selected: Option<usize>,
}

/// The mathematical value of an [`InsertPrompt`].
#[verifier::ext_equal]
pub struct InsertPromptView {
    pub edit: TextEditView,
    pub selected: Option<usize>,
}

impl View for InsertPrompt {
    type V = InsertPromptView;

    open spec fn view(&self) -> InsertPromptView {
        InsertPromptView { edit: self.edit@, selected: self.selected }
    }
}

impl InsertPromptView {
    /// Nothing typed and nothing chosen.
    pub open spec fn empty() -> InsertPromptView {
        InsertPromptView { edit: TextEditView::empty(), selected: None }
    }

    /// The prompt with another text, and the same choice.
    pub open spec fn with_edit(self, edit: TextEditView) -> InsertPromptView {
        InsertPromptView { edit, ..self }
    }
}

impl InsertPrompt {
    /// The cursor stands on a character boundary.
    pub open spec fn well_formed(&self) -> bool {
        self.edit.well_formed()
    }

    /// A prompt with nothing typed.
    pub fn new() -> (prompt: Self)
        ensures
            prompt.well_formed(),
            prompt@ == InsertPromptView::empty(),
    {
        InsertPrompt { edit: TextEdit::new(), selected: None }
    }

    /// Drop what was typed, and the choice with it.
    pub fn clear(&mut self)
        ensures
            final(self).well_formed(),
            final(self)@ == InsertPromptView::empty(),
    {
        *self = InsertPrompt::new();
    }

    /// Replace the text wholesale and put the cursor behind it: what opening the
    /// prompt on an existing value does. The caller sets `selected`, which
    /// depends on candidates this type knows nothing about.
    pub fn set_text(&mut self, text: String)
        ensures
            final(self).well_formed(),
            final(self)@ == old(self)@.with_edit(TextEditView::at_end(text@)),
    {
        self.edit.set_text(text);
    }

    /// Type `s` at the cursor.
    pub fn insert_str(&mut self, s: &str)
        requires
            old(self).well_formed(),
        ensures
            final(self).well_formed(),
            final(self)@ == old(self)@.with_edit(old(self)@.edit.typed(s@)),
    {
        self.edit.insert_str(s);
    }

    /// Byte offset of the character boundary one step before the cursor; `None`
    /// at the start.
    pub fn prev_boundary(&self) -> (res: Option<usize>)
        requires
            self.well_formed(),
        ensures
            match res {
                Some(at) => self@.edit.before.len() > 0 && at == utf8::encode_utf8(
                    self@.edit.before.drop_last(),
                ).len(),
                None => self@.edit.before.len() == 0,
            },
    {
        self.edit.prev_boundary()
    }

    /// Byte offset of the character boundary one step behind the cursor; `None`
    /// at the end.
    pub fn next_boundary(&self) -> (res: Option<usize>)
        requires
            self.well_formed(),
        ensures
            match res {
                Some(at) => self@.edit.after.len() > 0 && at == utf8::encode_utf8(
                    self@.edit.before.push(self@.edit.after[0]),
                ).len(),
                None => self@.edit.after.len() == 0,
            },
    {
        self.edit.next_boundary()
    }

    /// Re-ask the list after the text changed: the highlight lands on the first
    /// of `candidates` that can be committed. Every key that edits the text ends
    /// in this.
    pub fn reselect(&mut self, candidates: &[Suggestion])
        requires
            old(self).well_formed(),
        ensures
            final(self).well_formed(),
            final(self)@ == (InsertPromptView {
                edit: old(self)@.edit,
                selected: selection::selected_first(old(self)@.edit.text(), candidates@),
            }),
    {
        proof {
            self.edit.lemma_parts();
        }
        self.selected = selection::first_selection(self.edit.text.as_str(), candidates);
    }
}

} // verus!
