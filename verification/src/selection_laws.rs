//! What clicks and restyling do to the selection and to the selected.
//!
//! The selection is kept as a list, in the order of the clicks, but it
//! behaves as a set: no name gets into it twice. Restyling reaches exactly
//! the roots whose names are selected.

use vstd::prelude::*;
use crate::editor::hit_id;
use crate::editor::picked;
use crate::editor::restyled;
use crate::editor::toggled;
use crate::editor::topmost_index;
use crate::editor::without;
use crate::scene::is_first_root;
use crate::scene::LeafView;
use crate::scene::lemma_position_by_ids;
use crate::scene::lemma_root_position;
use crate::scene::NodeView;
use crate::scene::root_position;
use crate::scene::same_ids;
use crate::scene::StyleView;

verus! {

/// The topmost hit is a hit, and nothing above it is: of the leaves that
/// the marks cover, the one found is marked and every later one is not; if
/// none is found, none is marked.
pub proof fn lemma_topmost(hits: Seq<bool>, n: int)
    ensures
        match topmost_index(hits, n) {
            Some(i) => {
                &&& 0 <= i < n
                &&& i < hits.len()
                &&& hits[i]
                &&& forall|j: int| i < j < n && j < hits.len() ==> !hits[j]
            },
            None => forall|j: int| 0 <= j < n && j < hits.len() ==> !hits[j],
        },
    decreases n,
{
    if n > 0 {
        lemma_topmost(hits, n - 1);
    }
}

/// A hit test answers with the name of a leaf that is hit, the last such in
/// paint order, and with the empty text when no leaf is hit.
pub proof fn lemma_hit_is_topmost(leaves: Seq<LeafView>, hits: Seq<bool>)
    ensures
        (exists|i: int| 0 <= i < leaves.len() && i < hits.len() && hits[i]) ==> exists|i: int|
            0 <= i < leaves.len() && i < hits.len() && hits[i] && hit_id(leaves, hits)
                == leaves[i].id && forall|j: int| i < j < leaves.len() && j < hits.len() ==> !hits[j],
        !(exists|i: int| 0 <= i < leaves.len() && i < hits.len() && hits[i]) ==> hit_id(
            leaves,
            hits,
        ) == Seq::<char>::empty(),
{
    lemma_topmost(hits, leaves.len() as int);
}

/// Whether restyling the selection reaches root `i`: the root is the first
/// of its name and the name is selected.
pub open spec fn restyle_reaches(roots: Seq<NodeView>, selected: Seq<Seq<char>>, i: int) -> bool {
    &&& 0 <= i < roots.len()
    &&& is_first_root(roots, roots[i].id(), i)
    &&& selected.contains(roots[i].id())
}

/// Restyling the selection, root by root: every root that is reached gets
/// the style if it is a leaf, and nothing else changes. No root changes its
/// name or its place.
pub proof fn lemma_restyled(roots: Seq<NodeView>, selected: Seq<Seq<char>>, style: StyleView)
    ensures
        same_ids(restyled(roots, selected, style), roots),
        forall|i: int|
            0 <= i < roots.len() ==> #[trigger] restyled(roots, selected, style)[i] == if restyle_reaches(
                roots,
                selected,
                i,
            ) {
                roots[i].with_style(style)
            } else {
                roots[i]
            },
    decreases selected.len(),
{
    let after = restyled(roots, selected, style);
    if selected.len() == 0 {
        assert forall|i: int| 0 <= i < roots.len() implies !restyle_reaches(roots, selected, i) by {
            assert(!selected.contains(roots[i].id()));
        }
    } else {
        let earlier = selected.drop_last();
        let id = selected.last();
        let before = restyled(roots, earlier, style);
        lemma_restyled(roots, earlier, style);
        lemma_position_by_ids(before, roots, id);
        lemma_root_position(roots, id);
        assert(selected[selected.len() - 1] == id);
        assert forall|i: int| 0 <= i < roots.len() implies #[trigger] after[i] == (if restyle_reaches(
            roots,
            selected,
            i,
        ) {
            roots[i].with_style(style)
        } else {
            roots[i]
        }) && after[i].id() == roots[i].id() by {
            let name = roots[i].id();
            assert(before[i].id() == roots[i].id());
            assert(before[i] == if restyle_reaches(roots, earlier, i) {
                roots[i].with_style(style)
            } else {
                roots[i]
            });
            if selected.contains(name) && !earlier.contains(name) {
                let k = choose|k: int| 0 <= k < selected.len() && selected[k] == name;
                if k < selected.len() - 1 {
                    assert(earlier[k] == name);
                }
                assert(name == id);
            }
            if earlier.contains(name) {
                let k = choose|k: int| 0 <= k < earlier.len() && earlier[k] == name;
                assert(selected[k] == name);
            }
            if root_position(roots, id) == Some(i) {
                assert(name == id);
            } else if name == id {
                assert(!is_first_root(roots, id, i));
            }
        }
        assert(after.len() == roots.len());
    }
}

/// Removing a name leaves the other names, in their order and as often as
/// they occurred.
pub proof fn lemma_without(ids: Seq<Seq<char>>, id: Seq<char>)
    ensures
        !without(ids, id).contains(id),
        forall|x: Seq<char>| x != id ==> #[trigger] without(ids, id).contains(x) == ids.contains(x),
        ids.no_duplicates() ==> without(ids, id).no_duplicates(),
    decreases ids.len(),
{
    let rest = without(ids, id);
    if ids.len() > 0 {
        let earlier = ids.drop_last();
        let last = ids.last();
        let kept = without(earlier, id);
        lemma_without(earlier, id);
        assert(ids[ids.len() - 1] == last);
        assert forall|x: Seq<char>| x != id implies rest.contains(x) == ids.contains(x) by {
            if ids.contains(x) {
                let k = choose|k: int| 0 <= k < ids.len() && ids[k] == x;
                if k < earlier.len() {
                    assert(earlier[k] == x);
                    assert(earlier.contains(x));
                    assert(kept.contains(x) == earlier.contains(x));
                    let j = choose|j: int| 0 <= j < kept.len() && kept[j] == x;
                    assert(rest[j] == x);
                } else {
                    assert(rest[rest.len() - 1] == x);
                }
            }
            if rest.contains(x) {
                let j = choose|j: int| 0 <= j < rest.len() && rest[j] == x;
                if j < kept.len() {
                    assert(kept[j] == x);
                    assert(kept.contains(x));
                    assert(kept.contains(x) == earlier.contains(x));
                    let k = choose|k: int| 0 <= k < earlier.len() && earlier[k] == x;
                    assert(ids[k] == x);
                }
            }
        }
        assert(!rest.contains(id)) by {
            if rest.contains(id) {
                let j = choose|j: int| 0 <= j < rest.len() && rest[j] == id;
                if j < kept.len() {
                    assert(kept[j] == id);
                }
            }
        }
        if ids.no_duplicates() {
            assert(earlier.no_duplicates()) by {
                assert forall|a: int, b: int|
                    0 <= a < earlier.len() && 0 <= b < earlier.len() && a != b implies earlier[a]
                    != earlier[b] by {
                    assert(ids[a] == earlier[a]);
                    assert(ids[b] == earlier[b]);
                }
            }
            if last != id {
                assert(!kept.contains(last)) by {
                    if kept.contains(last) {
                        assert(kept.contains(last) == earlier.contains(last));
                        let k = choose|k: int| 0 <= k < earlier.len() && earlier[k] == last;
                        assert(ids[k] == last);
                    }
                }
                assert forall|a: int, b: int|
                    0 <= a < rest.len() && 0 <= b < rest.len() && a != b implies rest[a]
                    != rest[b] by {
                    if a < kept.len() && b < kept.len() {
                        assert(rest[a] == kept[a]);
                        assert(rest[b] == kept[b]);
                    } else if a < kept.len() {
                        assert(kept[a] == rest[a]);
                    } else {
                        assert(kept[b] == rest[b]);
                    }
                }
            }
        }
    }
}

/// The selection is a set: if no name occurs twice in it, none does after a
/// click, plain or extending, on any object or on nothing.
pub proof fn lemma_selection_stays_a_set(ids: Seq<Seq<char>>, id: Seq<char>)
    requires
        ids.no_duplicates(),
    ensures
        picked(id).no_duplicates(),
        toggled(ids, id).no_duplicates(),
        Seq::<Seq<char>>::empty().no_duplicates(),
{
    lemma_without(ids, id);
    if id.len() > 0 && !ids.contains(id) {
        let more = ids.push(id);
        assert forall|a: int, b: int|
            0 <= a < more.len() && 0 <= b < more.len() && a != b implies more[a] != more[b] by {
            if a < ids.len() && b < ids.len() {
                assert(more[a] == ids[a]);
                assert(more[b] == ids[b]);
            } else if a < ids.len() {
                assert(ids[a] == more[a]);
            } else {
                assert(ids[b] == more[b]);
            }
        }
    }
}

} // verus!
