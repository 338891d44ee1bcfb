//! Keeping the prompt on the property the caret addresses.

use crate::cell::CellRole;
use crate::editor::{Editor, EditorMode, EditorView, PendingEdit};
use crate::model::node;
use crate::prompt::InsertPromptView;
use crate::target::InsertTarget;
use crate::text_edit::TextEditView;
use vstd::prelude::*;

verus! {

/// The prompt was last opened for something else, or never.
pub open spec fn is_stale(
    last: Option<(EditorMode, InsertTarget)>,
    mode: EditorMode,
    target: InsertTarget,
) -> bool {
    last != Some((mode, target))
}

/// Whether the prompt has to be opened anew: the mode or the target changed
/// since it was last opened. A keystroke changes neither, so typing is safe.
pub fn seed_is_stale(
    last: Option<(EditorMode, InsertTarget)>,
    mode: EditorMode,
    target: InsertTarget,
) -> (res: bool)
    ensures
        res == is_stale(last, mode, target),
{
    match last {
        Some((last_mode, last_target)) => !(last_mode == mode && last_target == target),
        None => true,
    }
}

/// The unfinished node the caret has walked away from.
pub open spec fn walked_away_from(
    pending: Option<PendingEdit>,
    addressed: Option<(node::Id, CellRole)>,
) -> Option<node::Id> {
    match pending {
        Some(edit) => match addressed {
            Some((id, _)) => if id == edit.node {
                None
            } else {
                Some(edit.node)
            },
            None => Some(edit.node),
        },
        None => None,
    }
}

/// The editor with its prompt opened on `text`, and whether the list has to be asked
/// for it.
pub open spec fn seeded(editor: EditorView, target: InsertTarget, text: Seq<char>) -> (
    EditorView,
    bool,
) {
    let reselect = editor.mode == EditorMode::Insert && target is Edit;
    (
        EditorView {
            prompt: if reselect {
                editor.prompt.with_edit(TextEditView::at_end(text))
            } else {
                InsertPromptView::empty()
            },
            ..editor
        },
        reselect,
    )
}

impl Editor {
    /// The unfinished node that the caret has been moved off, if there is one. A
    /// node is only unfinished while the caret is still standing on it, and
    /// leaving it is the same act as cancelling it.
    ///
    /// "Still standing on it" asks after the node and not after its property
    /// cell: stepping onto one of its other cells is not walking away.
    pub fn abandoned(&mut self, addressed: Option<(node::Id, CellRole)>) -> (res: Option<node::Id>)
        requires
            old(self).well_formed(),
        ensures
            final(self).well_formed(),
            res == walked_away_from(old(self).pending, addressed),
            final(self)@ == (EditorView {
                pending: if res is Some {
                    None
                } else {
                    old(self).pending
                },
                ..old(self)@
            }),
    {
        let edit = match self.pending {
            Some(edit) => edit,
            None => return None,
        };
        if let Some((id, _)) = addressed {
            if id == edit.node {
                return None;
            }
        }
        self.pending = None;
        Some(edit.node)
    }

    /// Open the prompt on what the caret addresses: `text` is the property that
    /// `target` names, as it stands. A create prompt has nothing to open on, and
    /// NORMAL has no prompt at all. Says whether the list has to be asked for
    /// the text that was put there.
    pub fn seed_prompt(&mut self, target: InsertTarget, text: String) -> (reselect: bool)
        requires
            old(self).well_formed(),
        ensures
            final(self).well_formed(),
            (final(self)@, reselect) == seeded(old(self)@, target, text@),
    {
        match (self.mode, target) {
            (EditorMode::Insert, InsertTarget::Edit(..)) => {
                self.prompt.set_text(text);
                true
            },
            _ => {
                self.prompt.clear();
                false
            },
        }
    }
}

/// A caret that stays on the unfinished node leaves it alone, whichever of its
/// cells it stands on; one that stands anywhere else unmakes it.
pub proof fn law_unfinished_only_under_the_caret(edit: PendingEdit, role: CellRole, other: node::Id)
    ensures
        walked_away_from(Some(edit), Some((edit.node, role))) is None,
        other != edit.node ==> walked_away_from(Some(edit), Some((other, role))) == Some(edit.node),
        walked_away_from(Some(edit), None) == Some(edit.node),
        walked_away_from(None, None) is None,
{
}

/// The prompt opens on the property as it stands, with the cursor behind it, so that
/// changing a value starts from the value; a prompt that builds opens on nothing, and
/// NORMAL has none. Nothing but the prompt changes.
pub proof fn law_what_the_prompt_opens_on(
    editor: EditorView,
    target: InsertTarget,
    text: Seq<char>,
)
    ensures
        ({
            let (now, reselect) = seeded(editor, target, text);
            &&& now.caret == editor.caret && now.mode == editor.mode
            &&& now.pending == editor.pending && now.rebuild == editor.rebuild
            &&& editor.mode == EditorMode::Insert && target is Edit ==> {
                &&& reselect
                &&& now.prompt.edit.text() == text
                &&& now.prompt.edit.after.len() == 0
            }
            &&& editor.mode == EditorMode::Normal || target is Create ==> {
                &&& !reselect
                &&& now.prompt.edit.text().len() == 0
                &&& now.prompt.selected is None
            }
        }),
{
    assert(text + Seq::<char>::empty() =~= text);
}

/// A prompt that was opened stays as it is until the mode or the target changes; one
/// that was never opened is opened.
pub proof fn law_when_the_prompt_is_opened_anew(
    mode: EditorMode,
    target: InsertTarget,
    next_mode: EditorMode,
    next_target: InsertTarget,
)
    ensures
        is_stale(None, mode, target),
        is_stale(Some((mode, target)), next_mode, next_target) <==> mode != next_mode || target
            != next_target,
{
}

} // verus!
