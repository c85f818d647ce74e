//! What the updates of a drag add up to.
//!
//! An update gives objects the transforms that its list holds for them, and
//! the list is computed from the transforms frozen when the drag began. These
//! lemmas show what follows: an update wipes out what earlier updates did, so
//! nothing piles up over a drag, however long; and an update that lists the
//! frozen transforms themselves puts the scene back bit for bit.

use vstd::prelude::*;
use crate::drag_state::baseline_of;
use crate::drag_state::DragMode;
use crate::editor::EditorView;
use crate::editor::frozen_transforms;
use crate::editor::placed;
use crate::math::TransformMatrix;
use crate::naming::lemma_unique_names_find_roots;
use crate::naming::tree_names;
use crate::scalar::Scalar;
use crate::scene::find_node;
use crate::scene::is_first_root;
use crate::scene::lemma_position_by_ids;
use crate::scene::lemma_root_position;
use crate::scene::NodeView;
use crate::scene::placed_root;
use crate::scene::root_position;
use crate::scene::same_ids;

verus! {

/// Whether an update touches root `i`: the root is the first of its name, it
/// is selected, the drag froze it (if the update belongs to a drag), and the
/// list has a transform for it.
pub open spec fn touched(
    roots: Seq<NodeView>,
    selected: Seq<Seq<char>>,
    frozen: Option<Seq<(Seq<char>, TransformMatrix)>>,
    updates: Seq<(Seq<char>, TransformMatrix)>,
    i: int,
) -> bool {
    &&& 0 <= i < roots.len()
    &&& is_first_root(roots, roots[i].id(), i)
    &&& selected.contains(roots[i].id())
    &&& (frozen matches Some(entries) ==> baseline_of(entries, roots[i].id()) is Some)
    &&& baseline_of(updates, roots[i].id()) is Some
}

/// Root `i` after an update: with the listed transform if the update touches
/// it (a group keeps its own even then), as it was otherwise.
pub open spec fn placed_at(
    roots: Seq<NodeView>,
    selected: Seq<Seq<char>>,
    frozen: Option<Seq<(Seq<char>, TransformMatrix)>>,
    updates: Seq<(Seq<char>, TransformMatrix)>,
    i: int,
) -> NodeView {
    if touched(roots, selected, frozen, updates, i) {
        roots[i].with_transform(baseline_of(updates, roots[i].id())->0)
    } else {
        roots[i]
    }
}

/// An update, root by root: it changes the transforms of the roots it
/// touches and nothing else. No root changes its name or its place.
pub proof fn lemma_placed(
    roots: Seq<NodeView>,
    selected: Seq<Seq<char>>,
    frozen: Option<Seq<(Seq<char>, TransformMatrix)>>,
    updates: Seq<(Seq<char>, TransformMatrix)>,
)
    ensures
        same_ids(placed(roots, selected, frozen, updates), roots),
        forall|i: int|
            0 <= i < roots.len() ==> #[trigger] placed(roots, selected, frozen, updates)[i]
                == placed_at(roots, selected, frozen, updates, i),
    decreases selected.len(),
{
    let after = placed(roots, selected, frozen, updates);
    if selected.len() == 0 {
        assert forall|i: int| 0 <= i < roots.len() implies #[trigger] after[i] == placed_at(
            roots,
            selected,
            frozen,
            updates,
            i,
        ) by {
            assert(!selected.contains(roots[i].id()));
        }
    } else {
        let earlier = selected.drop_last();
        let id = selected.last();
        let before = placed(roots, earlier, frozen, updates);
        lemma_placed(roots, earlier, frozen, updates);
        lemma_position_by_ids(before, roots, id);
        lemma_root_position(roots, id);
        let allowed = match frozen {
            Some(entries) => baseline_of(entries, id) is Some,
            None => true,
        };
        let moves = allowed && baseline_of(updates, id) is Some;
        assert(selected[selected.len() - 1] == id);
        assert forall|i: int| 0 <= i < roots.len() implies #[trigger] after[i] == placed_at(
            roots,
            selected,
            frozen,
            updates,
            i,
        ) && after[i].id() == roots[i].id() by {
            let name = roots[i].id();
            assert(before[i] == placed_at(roots, earlier, frozen, updates, i));
            assert(before[i].id() == roots[i].id());
            if selected.contains(name) && !earlier.contains(name) {
                let k = choose|k: int| 0 <= k < selected.len() && selected[k] == name;
                if k < selected.len() - 1 {
                    assert(earlier[k] == name);
                }
                assert(name == id);
            }
            if earlier.contains(name) {
                let k = choose|k: int| 0 <= k < earlier.len() && earlier[k] == name;
                assert(selected[k] == name);
            }
            if moves && root_position(roots, id) == Some(i) {
                assert(name == id);
            } else if moves && name == id {
                assert(!is_first_root(roots, id, i));
            }
        }
        assert(after.len() == roots.len());
    }
}

/// An update wipes out an earlier update of the same drag, provided it
/// lists every object that the earlier one listed: the scene is as if the
/// earlier update had never happened.
pub proof fn lemma_last_update_wins(
    roots: Seq<NodeView>,
    selected: Seq<Seq<char>>,
    frozen: Option<Seq<(Seq<char>, TransformMatrix)>>,
    earlier: Seq<(Seq<char>, TransformMatrix)>,
    later: Seq<(Seq<char>, TransformMatrix)>,
)
    requires
        forall|id: Seq<char>|
            baseline_of(earlier, id) is Some ==> #[trigger] baseline_of(later, id) is Some,
    ensures
        placed(placed(roots, selected, frozen, earlier), selected, frozen, later) == placed(
            roots,
            selected,
            frozen,
            later,
        ),
{
    let middle = placed(roots, selected, frozen, earlier);
    let twice = placed(middle, selected, frozen, later);
    let once = placed(roots, selected, frozen, later);
    lemma_placed(roots, selected, frozen, earlier);
    lemma_placed(middle, selected, frozen, later);
    lemma_placed(roots, selected, frozen, later);
    assert forall|i: int| 0 <= i < roots.len() implies twice[i] == once[i] by {
        let name = roots[i].id();
        assert(middle[i].id() == name);
        lemma_position_by_ids(middle, roots, name);
        assert(middle[i] == placed_at(roots, selected, frozen, earlier, i));
        assert(twice[i] == placed_at(middle, selected, frozen, later, i));
        assert(once[i] == placed_at(roots, selected, frozen, later, i));
        assert(touched(middle, selected, frozen, later, i) == touched(
            roots,
            selected,
            frozen,
            later,
            i,
        ));
        if !touched(roots, selected, frozen, later, i) {
            assert(!touched(roots, selected, frozen, earlier, i));
        }
    }
    assert(twice =~= once);
}

/// An update that lists, for every root it touches, the transform that the
/// root has already, changes nothing.
pub proof fn lemma_update_in_place(
    roots: Seq<NodeView>,
    selected: Seq<Seq<char>>,
    frozen: Option<Seq<(Seq<char>, TransformMatrix)>>,
    updates: Seq<(Seq<char>, TransformMatrix)>,
)
    requires
        forall|i: int| #[trigger]
            touched(roots, selected, frozen, updates, i) ==> (roots[i] matches NodeView::Leaf {
                transform,
                ..
            } ==> baseline_of(updates, roots[i].id()) == Some(transform)),
    ensures
        placed(roots, selected, frozen, updates) == roots,
{
    lemma_placed(roots, selected, frozen, updates);
    let after = placed(roots, selected, frozen, updates);
    assert forall|i: int| 0 <= i < roots.len() implies after[i] == roots[i] by {
        assert(after[i] == placed_at(roots, selected, frozen, updates, i));
        if touched(roots, selected, frozen, updates, i) {
        }
    }
    assert(after =~= roots);
}

/// The roots after a run of updates of one drag, applied in order.
pub open spec fn placed_all(
    roots: Seq<NodeView>,
    selected: Seq<Seq<char>>,
    frozen: Option<Seq<(Seq<char>, TransformMatrix)>>,
    steps: Seq<Seq<(Seq<char>, TransformMatrix)>>,
) -> Seq<NodeView>
    decreases steps.len(),
{
    if steps.len() == 0 {
        roots
    } else {
        placed(placed_all(roots, selected, frozen, steps.drop_last()), selected, frozen, steps.last())
    }
}

/// Of a run of updates only the last one counts, provided it lists every
/// object that the others listed: however many updates came before it and
/// wherever they put the objects, the scene is what the last update alone
/// would have made of the scene at the start.
pub proof fn lemma_no_drift(
    roots: Seq<NodeView>,
    selected: Seq<Seq<char>>,
    frozen: Option<Seq<(Seq<char>, TransformMatrix)>>,
    steps: Seq<Seq<(Seq<char>, TransformMatrix)>>,
    last: Seq<(Seq<char>, TransformMatrix)>,
)
    requires
        forall|k: int, id: Seq<char>|
            0 <= k < steps.len() && baseline_of(#[trigger] steps[k], id) is Some
                ==> #[trigger] baseline_of(last, id) is Some,
    ensures
        placed(placed_all(roots, selected, frozen, steps), selected, frozen, last) == placed(
            roots,
            selected,
            frozen,
            last,
        ),
    decreases steps.len(),
{
    if steps.len() > 0 {
        let before = placed_all(roots, selected, frozen, steps.drop_last());
        assert forall|id: Seq<char>| baseline_of(steps.last(), id) is Some implies #[trigger] baseline_of(
            last,
            id,
        ) is Some by {
            assert(steps[steps.len() - 1] == steps.last());
        }
        lemma_last_update_wins(before, selected, frozen, steps.last(), last);
        assert forall|k: int, id: Seq<char>|
            0 <= k < steps.drop_last().len() && baseline_of(
                #[trigger] steps.drop_last()[k],
                id,
            ) is Some implies #[trigger] baseline_of(last, id) is Some by {
            assert(steps.drop_last()[k] == steps[k]);
        }
        lemma_no_drift(roots, selected, frozen, steps.drop_last(), last);
    }
}

/// What looking up an identifier in a list with one more entry gives.
pub proof fn lemma_baseline_push(
    entries: Seq<(Seq<char>, TransformMatrix)>,
    entry: (Seq<char>, TransformMatrix),
    id: Seq<char>,
)
    ensures
        baseline_of(entries.push(entry), id) == if baseline_of(entries, id) is Some {
            baseline_of(entries, id)
        } else if entry.0 == id {
            Some(entry.1)
        } else {
            None
        },
    decreases entries.len(),
{
    let longer = entries.push(entry);
    if entries.len() == 0 {
        assert(longer.skip(1) =~= Seq::empty());
        assert(longer[0] == entry);
        assert(baseline_of(longer.skip(1), id) is None);
        assert(baseline_of(entries, id) is None);
    } else {
        assert(longer[0] == entries[0]);
        assert(longer.skip(1) =~= entries.skip(1).push(entry));
        lemma_baseline_push(entries.skip(1), entry, id);
    }
}

/// What a drag freezes for an identifier: the transform of the leaf of that
/// name, if the identifier is selected and names a leaf.
pub proof fn lemma_frozen_lookup(roots: Seq<NodeView>, selected: Seq<Seq<char>>, id: Seq<char>)
    ensures
        baseline_of(frozen_transforms(roots, selected), id) == if selected.contains(id) {
            match find_node(roots, id) {
                Some(NodeView::Leaf { transform, .. }) => Some(transform),
                _ => None,
            }
        } else {
            None
        },
    decreases selected.len(),
{
    if selected.len() == 0 {
        assert(!selected.contains(id));
    } else {
        let earlier = selected.drop_last();
        let last = selected.last();
        lemma_frozen_lookup(roots, earlier, id);
        assert(selected[selected.len() - 1] == last);
        if earlier.contains(id) {
            let k = choose|k: int| 0 <= k < earlier.len() && earlier[k] == id;
            assert(selected[k] == id);
        }
        if selected.contains(id) && !earlier.contains(id) {
            let k = choose|k: int| 0 <= k < selected.len() && selected[k] == id;
            if k < selected.len() - 1 {
                assert(earlier[k] == id);
            }
        }
        match find_node(roots, last) {
            Some(NodeView::Leaf { transform, .. }) => {
                lemma_baseline_push(frozen_transforms(roots, earlier), (last, transform), id);
            },
            _ => {},
        }
    }
}

/// The names in a list of frozen transforms, in order.
pub open spec fn names_of(entries: Seq<(Seq<char>, TransformMatrix)>) -> Seq<Seq<char>> {
    Seq::new(entries.len(), |i: int| entries[i].0)
}

/// What a drag freezes is keyed like a map: every name in it is a selected
/// name, and with a selection that holds no name twice no name is frozen twice.
pub proof fn lemma_frozen_names(roots: Seq<NodeView>, selected: Seq<Seq<char>>)
    ensures
        forall|x: Seq<char>| #[trigger]
            names_of(frozen_transforms(roots, selected)).contains(x) ==> selected.contains(x),
        selected.no_duplicates() ==> names_of(frozen_transforms(roots, selected)).no_duplicates(),
    decreases selected.len(),
{
    let names = names_of(frozen_transforms(roots, selected));
    if selected.len() > 0 {
        let earlier = selected.drop_last();
        let last = selected.last();
        let before = names_of(frozen_transforms(roots, earlier));
        lemma_frozen_names(roots, earlier);
        assert(selected[selected.len() - 1] == last);
        assert forall|x: Seq<char>| #[trigger] names.contains(x) implies selected.contains(x) by {
            let j = choose|j: int| 0 <= j < names.len() && names[j] == x;
            if j < before.len() {
                assert(before[j] == x);
                assert(before.contains(x));
                assert(earlier.contains(x));
                let k = choose|k: int| 0 <= k < earlier.len() && earlier[k] == x;
                assert(selected[k] == x);
            }
        }
        if selected.no_duplicates() {
            assert(earlier.no_duplicates()) by {
                assert forall|a: int, b: int|
                    0 <= a < earlier.len() && 0 <= b < earlier.len() && a != b implies earlier[a]
                    != earlier[b] by {
                    assert(selected[a] == earlier[a]);
                    assert(selected[b] == earlier[b]);
                }
            }
            assert(!before.contains(last)) by {
                if before.contains(last) {
                    assert(earlier.contains(last));
                    let k = choose|k: int| 0 <= k < earlier.len() && earlier[k] == last;
                    assert(selected[k] == last);
                }
            }
            assert forall|a: int, b: int|
                0 <= a < names.len() && 0 <= b < names.len() && a != b implies names[a]
                != names[b] by {
                if a < before.len() && b < before.len() {
                    assert(names[a] == before[a]);
                    assert(names[b] == before[b]);
                } else if a < before.len() {
                    assert(before[a] == names[a]);
                } else {
                    assert(before[b] == names[b]);
                }
            }
        }
    } else {
        assert(names =~= Seq::<Seq<char>>::empty());
    }
}

/// Whether looking up the name of any root finds that root: no node that
/// comes before a root in the traversal has the root's name.
pub open spec fn roots_found_by_name(roots: Seq<NodeView>) -> bool {
    forall|i: int| 0 <= i < roots.len() ==> find_node(roots, (#[trigger] roots[i]).id()) == Some(roots[i])
}

/// A drag ends where it began: after any run of updates that list frozen
/// objects only, an update that lists the frozen transforms themselves (what
/// a pointer back at its start point asks for) restores every root, bit for
/// bit, however many updates there were and wherever they went.
pub proof fn lemma_drag_returns_home(
    roots: Seq<NodeView>,
    selected: Seq<Seq<char>>,
    steps: Seq<Seq<(Seq<char>, TransformMatrix)>>,
)
    requires
        roots_found_by_name(roots),
        forall|k: int, id: Seq<char>|
            0 <= k < steps.len() && baseline_of(#[trigger] steps[k], id) is Some
                ==> #[trigger] baseline_of(frozen_transforms(roots, selected), id) is Some,
    ensures
        placed(
            placed_all(roots, selected, Some(frozen_transforms(roots, selected)), steps),
            selected,
            Some(frozen_transforms(roots, selected)),
            frozen_transforms(roots, selected),
        ) == roots,
{
    let frozen = frozen_transforms(roots, selected);
    lemma_no_drift(roots, selected, Some(frozen), steps, frozen);
    assert forall|i: int| #[trigger]
        touched(roots, selected, Some(frozen), frozen, i) implies (roots[i] matches NodeView::Leaf {
        transform,
        ..
    } ==> baseline_of(frozen, roots[i].id()) == Some(transform)) by {
        lemma_frozen_lookup(roots, selected, roots[i].id());
        assert(find_node(roots, roots[i].id()) == Some(roots[i]));
    }
    lemma_update_in_place(roots, selected, Some(frozen), frozen);
}

/// The editor's state after a run of updates of the drag in progress.
pub open spec fn after_updates(e: EditorView, steps: Seq<Seq<(Seq<char>, TransformMatrix)>>) -> EditorView
    decreases steps.len(),
{
    if steps.len() == 0 {
        e
    } else {
        after_updates(e, steps.drop_last()).after_update(steps.last())
    }
}

/// A run of updates changes the roots and nothing else: the selection, the
/// drag with what it froze, the pen and the history stay as they are.
pub proof fn lemma_after_updates(e: EditorView, steps: Seq<Seq<(Seq<char>, TransformMatrix)>>)
    ensures
        after_updates(e, steps) == e.with_roots(
            placed_all(e.scene.roots, e.selected, Some(e.drag.initial_transforms), steps),
        ),
    decreases steps.len(),
{
    if steps.len() > 0 {
        lemma_after_updates(e, steps.drop_last());
    }
}

/// A drag ends where it began. In a scene without repeated names, begin a
/// drag, update it any number of times with any transforms for the frozen
/// objects, then update it with the frozen transforms themselves, as a
/// pointer back at its start point asks for: the editor is in the state in
/// which the drag began, the scene unchanged bit for bit.
pub proof fn lemma_drag_ends_where_it_began(
    e: EditorView,
    mode: DragMode,
    start: (Scalar, Scalar),
    pivot: (Scalar, Scalar),
    steps: Seq<Seq<(Seq<char>, TransformMatrix)>>,
)
    requires
        tree_names(e.scene.roots).no_duplicates(),
        forall|k: int, id: Seq<char>|
            0 <= k < steps.len() && baseline_of(#[trigger] steps[k], id) is Some
                ==> #[trigger] baseline_of(frozen_transforms(e.scene.roots, e.selected), id) is Some,
    ensures
        ({
            let begun = e.after_begin(mode, start, Some(pivot));
            &&& after_updates(begun, steps).after_update(begun.drag.initial_transforms) == begun
            &&& begun.scene == e.scene
        }),
{
    let begun = e.after_begin(mode, start, Some(pivot));
    lemma_unique_names_find_roots(e.scene.roots);
    lemma_after_updates(begun, steps);
    lemma_drag_returns_home(e.scene.roots, e.selected, steps);
}

} // verus!
