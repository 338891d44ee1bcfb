//! A text that is being edited, with a cursor in it.

use crate::text;
use vstd::prelude::*;
use vstd::string::StringSliceAdditionalSpecFns;
use vstd::utf8;

verus! {

broadcast use {
    vstd::utf8::encode_utf8_valid_utf8,
    vstd::utf8::encode_utf8_decode_utf8,
};

/// A text and a cursor in it.
pub struct TextEdit {
    pub text: String,
    /// Byte offset into `text`, always on a character boundary.
    pub cursor: usize,
}

/// The mathematical value of a [`TextEdit`]: what stands before the cursor and
/// what stands behind it.
#[verifier::ext_equal]
pub struct TextEditView {
    pub before: Seq<char>,
    pub after: Seq<char>,
}

/// The cursor of a text stands behind `before`.
pub open spec fn stands_behind(text: Seq<char>, cursor: nat, before: Seq<char>) -> bool {
    &&& before.is_prefix_of(text)
    &&& cursor == utf8::encode_utf8(before).len()
}

/// The encoding of two texts put together.
pub proof fn lemma_encode_concat(a: Seq<char>, b: Seq<char>)
    ensures
        utf8::encode_utf8(a + b) == utf8::encode_utf8(a) + utf8::encode_utf8(b),
    decreases a.len(),
{
    if a.len() == 0 {
        assert(a + b == b);
    } else {
        lemma_encode_concat(a.drop_first(), b);
        assert((a + b).drop_first() == a.drop_first() + b);
        assert((a + b)[0] == a[0]);
    }
}

/// The end of a text's first part is a character boundary.
pub proof fn lemma_boundary(a: Seq<char>, b: Seq<char>)
    ensures
        utf8::is_char_boundary(
            utf8::encode_utf8(a + b),
            utf8::encode_utf8(a).len() as int,
        ),
    decreases a.len(),
{
    if a.len() > 0 {
        let whole = a + b;
        assert(whole.drop_first() == a.drop_first() + b);
        assert(whole[0] == a[0]);
        utf8::encode_utf8_first_scalar(whole);
        lemma_encode_concat(a, b);
        lemma_boundary(a.drop_first(), b);
        assert(utf8::pop_first_scalar(utf8::encode_utf8(whole)) =~= utf8::encode_utf8(
            whole.drop_first(),
        ));
    }
}

/// Only one part of a text ends at a given byte.
pub proof fn lemma_one_place(text: Seq<char>, a: Seq<char>, b: Seq<char>)
    requires
        a.is_prefix_of(text),
        b.is_prefix_of(text),
        utf8::encode_utf8(a).len() == utf8::encode_utf8(b).len(),
    ensures
        a == b,
{
    lemma_encode_concat(a, text.skip(a.len() as int));
    lemma_encode_concat(b, text.skip(b.len() as int));
    assert(a + text.skip(a.len() as int) == text);
    assert(b + text.skip(b.len() as int) == text);
    assert(utf8::encode_utf8(a) == utf8::encode_utf8(b)) by {
        let n = utf8::encode_utf8(a).len() as int;
        assert(utf8::encode_utf8(a) =~= utf8::encode_utf8(text).take(n));
        assert(utf8::encode_utf8(b) =~= utf8::encode_utf8(text).take(n));
    }
    assert(utf8::decode_utf8(utf8::encode_utf8(a)) == utf8::decode_utf8(utf8::encode_utf8(b)));
}

/// The number of bytes of a text.
pub fn byte_len(text: &str) -> (len: usize)
    ensures
        len == utf8::encode_utf8(text@).len(),
{
    text.as_bytes().len()
}

impl View for TextEdit {
    type V = TextEditView;

    open spec fn view(&self) -> TextEditView {
        let before = choose|before: Seq<char>|
            stands_behind(self.text@, self.cursor as nat, before);
        TextEditView { before, after: self.text@.skip(before.len() as int) }
    }
}

impl TextEditView {
    /// The whole text.
    pub open spec fn text(self) -> Seq<char> {
        self.before + self.after
    }

    /// Nothing typed.
    pub open spec fn empty() -> TextEditView {
        TextEditView { before: Seq::empty(), after: Seq::empty() }
    }

    /// The cursor behind the last character of `text`.
    pub open spec fn at_end(text: Seq<char>) -> TextEditView {
        TextEditView { before: text, after: Seq::empty() }
    }

    /// `s` typed at the cursor.
    pub open spec fn typed(self, s: Seq<char>) -> TextEditView {
        TextEditView { before: self.before + s, ..self }
    }

    /// The character before the cursor taken out, where there is one.
    pub open spec fn backspaced(self) -> TextEditView {
        if self.before.len() == 0 {
            self
        } else {
            TextEditView { before: self.before.drop_last(), ..self }
        }
    }

    /// The character behind the cursor taken out, where there is one.
    pub open spec fn deleted(self) -> TextEditView {
        if self.after.len() == 0 {
            self
        } else {
            TextEditView { after: self.after.drop_first(), ..self }
        }
    }

    /// The cursor one character to the left, where there is one.
    pub open spec fn moved_left(self) -> TextEditView {
        if self.before.len() == 0 {
            self
        } else {
            TextEditView {
                before: self.before.drop_last(),
                after: seq![self.before.last()] + self.after,
            }
        }
    }

    /// The cursor one character to the right, where there is one.
    pub open spec fn moved_right(self) -> TextEditView {
        if self.after.len() == 0 {
            self
        } else {
            TextEditView {
                before: self.before.push(self.after[0]),
                after: self.after.drop_first(),
            }
        }
    }

    /// The cursor before the first character.
    pub open spec fn moved_home(self) -> TextEditView {
        TextEditView { before: Seq::empty(), after: self.text() }
    }

    /// The cursor behind the last character.
    pub open spec fn moved_to_end(self) -> TextEditView {
        TextEditView::at_end(self.text())
    }
}

impl TextEdit {
    /// The cursor stands on a character boundary of the text.
    pub open spec fn well_formed(&self) -> bool {
        exists|before: Seq<char>| stands_behind(self.text@, self.cursor as nat, before)
    }

    /// What the cursor stands behind, named.
    pub proof fn lemma_view(&self, before: Seq<char>, after: Seq<char>)
        requires
            self.text@ == before + after,
            self.cursor == utf8::encode_utf8(before).len(),
        ensures
            self.well_formed(),
            self@ == (TextEditView { before, after }),
    {
        assert((before + after).take(before.len() as int) == before);
        assert(stands_behind(self.text@, self.cursor as nat, before));
        lemma_one_place(self.text@, before, self@.before);
        assert(self.text@.skip(before.len() as int) =~= after);
    }

    /// What a well-formed edit is made of.
    pub proof fn lemma_parts(&self)
        requires
            self.well_formed(),
        ensures
            self.text@ == self@.before + self@.after,
            self@.text() == self.text@,
            self.cursor == utf8::encode_utf8(self@.before).len(),
            utf8::encode_utf8(self.text@) == utf8::encode_utf8(self@.before) + utf8::encode_utf8(
                self@.after,
            ),
            utf8::is_char_boundary(utf8::encode_utf8(self.text@), self.cursor as int),
    {
        let before = self@.before;
        assert(stands_behind(self.text@, self.cursor as nat, before));
        assert(before + self@.after =~= self.text@);
        lemma_encode_concat(before, self@.after);
        lemma_boundary(before, self@.after);
    }

    /// An empty text.
    pub fn new() -> (edit: Self)
        ensures
            edit.well_formed(),
            edit@ == TextEditView::empty(),
    {
        let edit = TextEdit { text: String::new(), cursor: 0 };
        proof {
            edit.lemma_view(Seq::empty(), Seq::empty());
        }
        edit
    }

    /// What stands before the cursor, and what stands behind it.
    pub fn parts(&self) -> (res: (&str, &str))
        requires
            self.well_formed(),
        ensures
            res.0@ == self@.before,
            res.1@ == self@.after,
    {
        proof {
            self.lemma_parts();
        }
        let (before, after) = self.text.as_str().split_at(self.cursor);
        proof {
            let bytes = utf8::encode_utf8(self.text@);
            assert(before.spec_bytes() =~= utf8::encode_utf8(self@.before));
            assert(after.spec_bytes() =~= utf8::encode_utf8(self@.after));
            assert(utf8::decode_utf8(before.spec_bytes()) == before@);
            assert(utf8::decode_utf8(after.spec_bytes()) == after@);
        }
        (before, after)
    }

    /// An edit with `before` before the cursor and `after` behind it.
    fn of(before: String, after: &str) -> (edit: Self)
        ensures
            edit.well_formed(),
            edit@ == (TextEditView { before: before@, after: after@ }),
    {
        let cursor = byte_len(before.as_str());
        let ghost start = before@;
        let edit = TextEdit { text: before.concat(after), cursor };
        proof {
            edit.lemma_view(start, after@);
        }
        edit
    }

    /// Drop the text.
    pub fn clear(&mut self)
        ensures
            final(self).well_formed(),
            final(self)@ == TextEditView::empty(),
    {
        *self = TextEdit::new();
    }

    /// Replace the text wholesale and put the cursor behind it.
    pub fn set_text(&mut self, text: String)
        ensures
            final(self).well_formed(),
            final(self)@ == TextEditView::at_end(text@),
    {
        *self = TextEdit::of(text, "");
        proof {
            reveal_strlit("");
            assert(""@ =~= Seq::<char>::empty());
        }
    }

    /// Type `s` at the cursor.
    pub fn insert_str(&mut self, s: &str)
        requires
            old(self).well_formed(),
        ensures
            final(self).well_formed(),
            final(self)@ == old(self)@.typed(s@),
    {
        let (before, after) = self.parts();
        let edited = TextEdit::of(before.to_owned().concat(s), after);
        *self = edited;
    }

    /// Byte offset of the character boundary one step before the cursor; `None`
    /// at the start.
    pub fn prev_boundary(&self) -> (res: Option<usize>)
        requires
            self.well_formed(),
        ensures
            match res {
                Some(at) => self@.before.len() > 0 && at == utf8::encode_utf8(
                    self@.before.drop_last(),
                ).len(),
                None => self@.before.len() == 0,
            },
    {
        let (before, _) = self.parts();
        let len: usize = before.unicode_len();
        if len == 0 {
            None
        } else {
            let shorter = before.substring_char(0, len - 1);
            assert(shorter@ == self@.before.drop_last());
            Some(byte_len(shorter))
        }
    }

    /// Byte offset of the character boundary one step behind the cursor; `None`
    /// at the end.
    pub fn next_boundary(&self) -> (res: Option<usize>)
        requires
            self.well_formed(),
        ensures
            match res {
                Some(at) => self@.after.len() > 0 && at == utf8::encode_utf8(
                    self@.before.push(self@.after[0]),
                ).len(),
                None => self@.after.len() == 0,
            },
    {
        let (before, after) = self.parts();
        let len: usize = after.unicode_len();
        if len == 0 {
            None
        } else {
            let longer = before.to_owned().concat(after.substring_char(0, 1));
            assert(longer@ == self@.before.push(self@.after[0]));
            Some(byte_len(longer.as_str()))
        }
    }

    /// Take out the character before the cursor. Says whether there was one.
    pub fn backspace(&mut self) -> (changed: bool)
        requires
            old(self).well_formed(),
        ensures
            final(self).well_formed(),
            final(self)@ == old(self)@.backspaced(),
            changed == (old(self)@.before.len() > 0),
    {
        let (before, after) = self.parts();
        let len: usize = before.unicode_len();
        if len == 0 {
            return false;
        }
        let edited = TextEdit::of(before.substring_char(0, len - 1).to_owned(), after);
        assert(edited@.before == self@.before.drop_last());
        *self = edited;
        true
    }

    /// Take out the character behind the cursor, which does not move. Says
    /// whether there was one.
    pub fn delete(&mut self) -> (changed: bool)
        requires
            old(self).well_formed(),
        ensures
            final(self).well_formed(),
            final(self)@ == old(self)@.deleted(),
            changed == (old(self)@.after.len() > 0),
    {
        let (before, after) = self.parts();
        let len: usize = after.unicode_len();
        if len == 0 {
            return false;
        }
        let edited = TextEdit::of(before.to_owned(), after.substring_char(1, len));
        assert(edited@.after == self@.after.drop_first());
        *self = edited;
        true
    }

    /// Move the cursor one character to the left.
    pub fn move_left(&mut self)
        requires
            old(self).well_formed(),
        ensures
            final(self).well_formed(),
            final(self)@ == old(self)@.moved_left(),
            final(self).text@ == old(self).text@,
    {
        proof {
            self.lemma_parts();
        }
        if let Some(at) = self.prev_boundary() {
            let ghost was = self@;
            self.cursor = at;
            proof {
                let now = was.moved_left();
                assert(now.before + now.after =~= was.before + was.after);
                self.lemma_view(now.before, now.after);
            }
        }
    }

    /// Move the cursor one character to the right.
    pub fn move_right(&mut self)
        requires
            old(self).well_formed(),
        ensures
            final(self).well_formed(),
            final(self)@ == old(self)@.moved_right(),
            final(self).text@ == old(self).text@,
    {
        proof {
            self.lemma_parts();
        }
        if let Some(at) = self.next_boundary() {
            let ghost was = self@;
            self.cursor = at;
            proof {
                let now = was.moved_right();
                assert(now.before + now.after =~= was.before + was.after);
                self.lemma_view(now.before, now.after);
            }
        }
    }

    /// Put the cursor before the first character.
    pub fn move_home(&mut self)
        requires
            old(self).well_formed(),
        ensures
            final(self).well_formed(),
            final(self)@ == old(self)@.moved_home(),
            final(self).text@ == old(self).text@,
    {
        proof {
            self.lemma_parts();
        }
        self.cursor = 0;
        proof {
            assert(Seq::<char>::empty() + self.text@ =~= self.text@);
            self.lemma_view(Seq::empty(), self.text@);
        }
    }

    /// Put the cursor behind the last character.
    pub fn move_to_end(&mut self)
        requires
            old(self).well_formed(),
        ensures
            final(self).well_formed(),
            final(self)@ == old(self)@.moved_to_end(),
            final(self).text@ == old(self).text@,
    {
        proof {
            self.lemma_parts();
        }
        self.cursor = byte_len(self.text.as_str());
        proof {
            assert(self.text@ + Seq::<char>::empty() =~= self.text@);
            self.lemma_view(self.text@, Seq::empty());
        }
    }
}

/// Taking out what was just typed, character by character, gives back the text
/// and the cursor.
pub proof fn law_backspace_undoes_typing(edit: TextEditView, c: char)
    ensures
        edit.typed(seq![c]).backspaced() == edit,
        edit.typed(seq![c]).moved_left().deleted() == edit,
{
    assert((edit.before + seq![c]).drop_last() =~= edit.before);
    assert((seq![c] + edit.after).drop_first() =~= edit.after);
    assert(edit.typed(seq![c]).moved_left().deleted() =~= edit);
}

/// Typing one text after another is typing both at once.
pub proof fn law_typing_composes(edit: TextEditView, first: Seq<char>, second: Seq<char>)
    ensures
        edit.typed(first).typed(second) == edit.typed(first + second),
{
    assert(edit.typed(first).typed(second) =~= edit.typed(first + second));
}

/// Moving the cursor never changes the text, and each step is taken back by the
/// step the other way, but at the ends.
pub proof fn law_moves_keep_the_text(edit: TextEditView)
    ensures
        edit.moved_left().text() == edit.text(),
        edit.moved_right().text() == edit.text(),
        edit.moved_home().text() == edit.text(),
        edit.moved_to_end().text() == edit.text(),
        edit.before.len() > 0 ==> edit.moved_left().moved_right() == edit,
        edit.after.len() > 0 ==> edit.moved_right().moved_left() == edit,
        edit.moved_home().before.len() == 0,
        edit.moved_to_end().after.len() == 0,
{
    assert(edit.moved_left().text() =~= edit.text());
    assert(edit.moved_right().text() =~= edit.text());
    assert(edit.moved_home().text() =~= edit.text());
    assert(edit.moved_to_end().text() =~= edit.text());
    if edit.before.len() > 0 {
        assert((seq![edit.before.last()] + edit.after).drop_first() =~= edit.after);
        assert(edit.moved_left().moved_right() =~= edit);
    }
    if edit.after.len() > 0 {
        assert(edit.before.push(edit.after[0]).drop_last() =~= edit.before);
        assert(seq![edit.after[0]] + edit.after.drop_first() =~= edit.after);
        assert(edit.moved_right().moved_left() =~= edit);
    }
}

/// At its ends a text takes no step and loses no character; elsewhere taking out the
/// character behind the cursor is stepping over it and taking out the one before.
pub proof fn law_what_happens_at_the_ends(edit: TextEditView)
    ensures
        edit.before.len() == 0 ==> edit.moved_left() == edit && edit.backspaced() == edit,
        edit.after.len() == 0 ==> edit.moved_right() == edit && edit.deleted() == edit,
        edit.after.len() > 0 ==> edit.deleted() == edit.moved_right().backspaced(),
        edit.before.len() > 0 ==> edit.backspaced() == edit.moved_left().deleted(),
        edit.after.len() > 0 ==> edit.deleted().text().len() == edit.text().len() - 1,
        edit.before.len() > 0 ==> edit.backspaced().text().len() == edit.text().len() - 1,
{
    if edit.after.len() > 0 {
        assert(edit.before.push(edit.after[0]).drop_last() =~= edit.before);
        assert(edit.deleted() =~= edit.moved_right().backspaced());
    }
    if edit.before.len() > 0 {
        assert((seq![edit.before.last()] + edit.after).drop_first() =~= edit.after);
        assert(edit.backspaced() =~= edit.moved_left().deleted());
    }
}

/// What is typed stands in the text where the cursor was, and the cursor stands behind
/// it.
pub proof fn law_what_is_typed_stands_at_the_cursor(edit: TextEditView, s: Seq<char>)
    ensures
        edit.typed(s).text() == edit.before + s + edit.after,
        edit.typed(s).before == edit.before + s,
        edit.typed(s).after == edit.after,
        TextEditView::at_end(s).text() == s,
        TextEditView::at_end(s) == TextEditView::empty().typed(s),
        TextEditView::empty().text().len() == 0,
{
    assert(TextEditView::at_end(s).text() =~= s);
    assert(TextEditView::at_end(s) =~= TextEditView::empty().typed(s));
}

} // verus!
