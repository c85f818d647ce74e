//! What saving, undoing and redoing add up to.
//!
//! A snapshot is a full copy of the scene, so going back is exact: as long as
//! the history limit is not passed, as many steps back as there were
//! snapshots bring back the scene from before the first of them.

use vstd::prelude::*;
use crate::editor::capped;
use crate::editor::EditorView;
use crate::editor::MAX_HISTORY;
use crate::math::TransformMatrix;
use crate::scene::ObjectView;
use crate::scene::SceneView;

verus! {

/// The state after `undo` was called `n` times.
pub open spec fn undone(e: EditorView, n: nat) -> EditorView
    decreases n,
{
    if n == 0 {
        e
    } else if e.undo.len() > 0 {
        undone(e.after_undo(), (n - 1) as nat)
    } else {
        undone(e, (n - 1) as nat)
    }
}

/// The state after, for each shape in turn, a snapshot was saved and the
/// shape added.
pub open spec fn saved_and_added(e: EditorView, shapes: Seq<(ObjectView, TransformMatrix)>) -> EditorView
    decreases shapes.len(),
{
    if shapes.len() == 0 {
        e
    } else {
        saved_and_added(e, shapes.drop_last()).after_save().with_shape(
            shapes.last().0,
            shapes.last().1,
        )
    }
}

/// A snapshot followed by one change of the scene is taken back by one
/// `undo`, and after a snapshot nothing is left to redo.
pub proof fn lemma_undo_restores_snapshot(e: EditorView, changed: SceneView)
    ensures
        e.after_save().with_scene(changed).after_undo().scene == e.scene,
        e.after_save().redo.len() == 0,
        e.undo.len() < MAX_HISTORY ==> e.after_save().with_scene(changed).after_undo().undo
            == e.undo,
{
    let pushed = e.undo.push(e.scene);
    assert(capped(pushed).last() == e.scene);
    if e.undo.len() < MAX_HISTORY {
        assert(capped(pushed).drop_last() =~= e.undo);
    }
}

/// What the undo stack holds after a run of save-and-add cycles that fits
/// under the history limit: what it held before, then the scene before the
/// first cycle, then the scenes in between.
pub proof fn lemma_saved_stack(e: EditorView, shapes: Seq<(ObjectView, TransformMatrix)>)
    requires
        e.undo.len() + shapes.len() <= MAX_HISTORY,
    ensures
        saved_and_added(e, shapes).undo.len() == e.undo.len() + shapes.len(),
        saved_and_added(e, shapes).undo.take(e.undo.len() as int) == e.undo,
        shapes.len() > 0 ==> saved_and_added(e, shapes).undo[e.undo.len() as int] == e.scene,
    decreases shapes.len(),
{
    if shapes.len() == 0 {
        assert(e.undo.take(e.undo.len() as int) =~= e.undo);
    } else {
        let before = saved_and_added(e, shapes.drop_last());
        lemma_saved_stack(e, shapes.drop_last());
        let after = saved_and_added(e, shapes);
        assert(after.undo == before.undo.push(before.scene));
        assert(after.undo.take(e.undo.len() as int) =~= before.undo.take(e.undo.len() as int));
    }
}

/// After `n` calls of `undo`, with `n` snapshots or more on the stack, the
/// scene is the `n`-th snapshot from the top, and the snapshots below it are
/// still on the stack.
pub proof fn lemma_undone(e: EditorView, n: nat)
    requires
        1 <= n <= e.undo.len(),
    ensures
        undone(e, n).scene == e.undo[e.undo.len() - n],
        undone(e, n).undo == e.undo.take(e.undo.len() - n),
    decreases n,
{
    let next = e.after_undo();
    if n == 1 {
        assert(undone(next, 0) == next);
        assert(next.undo =~= e.undo.take(e.undo.len() - 1));
    } else {
        lemma_undone(next, (n - 1) as nat);
        assert(next.undo.take(next.undo.len() - (n - 1)) =~= e.undo.take(e.undo.len() - n));
    }
}

/// Any number of save-and-add cycles that fits under the history limit,
/// followed by as many calls of `undo`, brings back the scene and the undo
/// stack from before the first cycle. From an empty scene that is the empty
/// scene again.
pub proof fn lemma_undo_all(e: EditorView, shapes: Seq<(ObjectView, TransformMatrix)>)
    requires
        e.undo.len() + shapes.len() <= MAX_HISTORY,
    ensures
        undone(saved_and_added(e, shapes), shapes.len()).scene == e.scene,
        undone(saved_and_added(e, shapes), shapes.len()).undo == e.undo,
{
    if shapes.len() > 0 {
        lemma_saved_stack(e, shapes);
        lemma_undone(saved_and_added(e, shapes), shapes.len());
    }
}

} // verus!
