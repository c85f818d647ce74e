//! Spatial queries over axis-aligned bounding boxes.
//!
//! [`SpatialQuery`] is what a query structure has to offer; [`SimpleIndex`]
//! meets it with a plain list that every query scans. A faster structure can
//! take its place as long as it answers in the same order.

use vstd::prelude::*;
use crate::math::TransformMatrix;
use crate::scalar::Scalar;
use crate::scene::ids_view;
use crate::scene::ObjectId;

verus! {

/// An axis-aligned box, edges included.
#[derive(Clone, Copy, PartialEq, Eq, Structural, Debug)]
pub struct BoundingBox {
    pub min_x: Scalar,
    pub min_y: Scalar,
    pub max_x: Scalar,
    pub max_y: Scalar,
}

impl BoundingBox {
    /// Whether `(x, y)` lies in the box or on its edge.
    pub open spec fn contains(self, x: Scalar, y: Scalar) -> bool {
        &&& self.min_x.at_most(x)
        &&& x.at_most(self.max_x)
        &&& self.min_y.at_most(y)
        &&& y.at_most(self.max_y)
    }

    /// Whether the two boxes share a point; touching edges count.
    pub open spec fn overlaps(self, other: BoundingBox) -> bool {
        &&& self.min_x.at_most(other.max_x)
        &&& other.min_x.at_most(self.max_x)
        &&& self.min_y.at_most(other.max_y)
        &&& other.min_y.at_most(self.max_y)
    }

    /// The box with the given edges.
    pub fn new(min_x: Scalar, min_y: Scalar, max_x: Scalar, max_y: Scalar) -> (b: BoundingBox)
        ensures
            b == (BoundingBox { min_x, min_y, max_x, max_y }),
    {
        BoundingBox { min_x, min_y, max_x, max_y }
    }

    /// Whether `(x, y)` lies in the box or on its edge.
    pub fn contains_point(&self, x: Scalar, y: Scalar) -> (r: bool)
        ensures
            r == self.contains(x, y),
    {
        self.min_x.le(x) && x.le(self.max_x) && self.min_y.le(y) && y.le(self.max_y)
    }

    /// Whether the two boxes share a point; touching edges count.
    pub fn intersects(&self, other: &BoundingBox) -> (r: bool)
        ensures
            r == self.overlaps(*other),
    {
        self.min_x.le(other.max_x) && other.min_x.le(self.max_x) && self.min_y.le(other.max_y)
            && other.min_y.le(self.max_y)
    }
}

/// Overlap does not depend on which box is asked.
pub proof fn lemma_overlaps_symmetric(a: BoundingBox, b: BoundingBox)
    ensures
        a.overlaps(b) == b.overlaps(a),
{
}

/// What an index knows of one object.
#[derive(Debug)]
pub struct SpatialEntry {
    pub id: ObjectId,
    /// The object's bounds in world space.
    pub bounds: BoundingBox,
    pub world_transform: TransformMatrix,
}

/// What a [`SpatialEntry`] holds.
pub ghost struct EntryView {
    pub id: Seq<char>,
    pub bounds: BoundingBox,
    pub world_transform: TransformMatrix,
}

impl View for SpatialEntry {
    type V = EntryView;

    open spec fn view(&self) -> EntryView {
        EntryView { id: self.id@, bounds: self.bounds, world_transform: self.world_transform }
    }
}

impl Clone for SpatialEntry {
    fn clone(&self) -> (r: SpatialEntry)
        ensures
            r@ == self@,
    {
        SpatialEntry {
            id: self.id.clone(),
            bounds: self.bounds,
            world_transform: self.world_transform,
        }
    }
}

/// The views of a run of entries, in order.
pub open spec fn spatial_view(entries: Seq<SpatialEntry>) -> Seq<EntryView> {
    Seq::new(entries.len(), |i: int| entries[i]@)
}

/// The identifiers of the entries whose bounds contain `(x, y)`, the entry
/// inserted last first: that one is on top.
pub open spec fn ids_containing(entries: Seq<EntryView>, x: Scalar, y: Scalar) -> Seq<Seq<char>>
    decreases entries.len(),
{
    if entries.len() == 0 {
        Seq::empty()
    } else {
        let top: Seq<Seq<char>> = if entries.last().bounds.contains(x, y) {
            seq![entries.last().id]
        } else {
            Seq::empty()
        };
        top + ids_containing(entries.drop_last(), x, y)
    }
}

/// The identifiers of the entries whose bounds overlap `bounds`, in the
/// order of insertion.
pub open spec fn ids_overlapping(entries: Seq<EntryView>, bounds: BoundingBox) -> Seq<Seq<char>>
    decreases entries.len(),
{
    if entries.len() == 0 {
        Seq::empty()
    } else {
        let last: Seq<Seq<char>> = if entries.last().bounds.overlaps(bounds) {
            seq![entries.last().id]
        } else {
            Seq::empty()
        };
        ids_overlapping(entries.drop_last(), bounds) + last
    }
}

/// The entries that do not have identifier `id`, in order.
pub open spec fn entries_without(entries: Seq<EntryView>, id: Seq<char>) -> Seq<EntryView>
    decreases entries.len(),
{
    if entries.len() == 0 {
        entries
    } else if entries.last().id == id {
        entries_without(entries.drop_last(), id)
    } else {
        entries_without(entries.drop_last(), id).push(entries.last())
    }
}

/// What a point query answers: exactly the names of the entries whose
/// bounds contain the point.
pub proof fn lemma_ids_containing(entries: Seq<EntryView>, x: Scalar, y: Scalar, id: Seq<char>)
    ensures
        ids_containing(entries, x, y).contains(id) == exists|i: int|
            0 <= i < entries.len() && (#[trigger] entries[i]).id == id && entries[i].bounds.contains(
                x,
                y,
            ),
    decreases entries.len(),
{
    let found = ids_containing(entries, x, y);
    if entries.len() == 0 {
        assert(!found.contains(id));
    } else {
        let earlier = entries.drop_last();
        let last = entries.last();
        let rest = ids_containing(earlier, x, y);
        lemma_ids_containing(earlier, x, y, id);
        assert(entries[entries.len() - 1] == last);
        if found.contains(id) {
            let j = choose|j: int| 0 <= j < found.len() && found[j] == id;
            if last.bounds.contains(x, y) && j == 0 {
                assert(last.id == id);
            } else {
                let k = if last.bounds.contains(x, y) {
                    j - 1
                } else {
                    j
                };
                assert(rest[k] == id);
                assert(rest.contains(id));
                let i = choose|i: int|
                    0 <= i < earlier.len() && (#[trigger] earlier[i]).id == id
                        && earlier[i].bounds.contains(x, y);
                assert(entries[i] == earlier[i]);
            }
        }
        if exists|i: int|
            0 <= i < entries.len() && (#[trigger] entries[i]).id == id && entries[i].bounds.contains(
                x,
                y,
            ) {
            let i = choose|i: int|
                0 <= i < entries.len() && (#[trigger] entries[i]).id == id
                    && entries[i].bounds.contains(x, y);
            if i == entries.len() - 1 {
                assert(found[0] == id);
            } else {
                assert(earlier[i] == entries[i]);
                assert(rest.contains(id));
                let k = choose|k: int| 0 <= k < rest.len() && rest[k] == id;
                let shift = found.len() - rest.len();
                assert(found[k + shift] == id);
            }
        }
    }
}

/// What a box query answers: exactly the names of the entries whose bounds
/// overlap the box.
pub proof fn lemma_ids_overlapping(entries: Seq<EntryView>, bounds: BoundingBox, id: Seq<char>)
    ensures
        ids_overlapping(entries, bounds).contains(id) == exists|i: int|
            0 <= i < entries.len() && (#[trigger] entries[i]).id == id && entries[i].bounds.overlaps(
                bounds,
            ),
    decreases entries.len(),
{
    let found = ids_overlapping(entries, bounds);
    if entries.len() == 0 {
        assert(!found.contains(id));
    } else {
        let earlier = entries.drop_last();
        let last = entries.last();
        let rest = ids_overlapping(earlier, bounds);
        lemma_ids_overlapping(earlier, bounds, id);
        assert(entries[entries.len() - 1] == last);
        if found.contains(id) {
            let j = choose|j: int| 0 <= j < found.len() && found[j] == id;
            if j < rest.len() {
                assert(rest[j] == id);
                assert(rest.contains(id));
                let i = choose|i: int|
                    0 <= i < earlier.len() && (#[trigger] earlier[i]).id == id
                        && earlier[i].bounds.overlaps(bounds);
                assert(entries[i] == earlier[i]);
            } else {
                assert(last.id == id);
            }
        }
        if exists|i: int|
            0 <= i < entries.len() && (#[trigger] entries[i]).id == id && entries[i].bounds.overlaps(
                bounds,
            ) {
            let i = choose|i: int|
                0 <= i < entries.len() && (#[trigger] entries[i]).id == id
                    && entries[i].bounds.overlaps(bounds);
            if i == entries.len() - 1 {
                assert(found[found.len() - 1] == id);
            } else {
                assert(earlier[i] == entries[i]);
                assert(rest.contains(id));
                let k = choose|k: int| 0 <= k < rest.len() && rest[k] == id;
                assert(found[k] == id);
            }
        }
    }
}

/// What a structure for spatial queries offers. `entries` is what it holds,
/// in the order of insertion, which is the z-order.
pub trait SpatialQuery {
    /// The entries held, in the order of insertion.
    spec fn entries(&self) -> Seq<EntryView>;

    /// The objects whose bounds contain the point, topmost first.
    fn query_point(&self, x: Scalar, y: Scalar) -> (ids: Vec<ObjectId>)
        ensures
            ids_view(ids@) == ids_containing(self.entries(), x, y),
    ;

    /// The objects whose bounds overlap the box, in the order of insertion.
    fn query_rect(&self, bounds: &BoundingBox) -> (ids: Vec<ObjectId>)
        ensures
            ids_view(ids@) == ids_overlapping(self.entries(), *bounds),
    ;

    /// Adds an entry on top.
    fn insert(&mut self, entry: SpatialEntry)
        ensures
            final(self).entries() == old(self).entries().push(entry@),
    ;

    /// Removes every entry with the identifier.
    fn remove(&mut self, id: &ObjectId)
        ensures
            final(self).entries() == entries_without(old(self).entries(), id@),
    ;

    /// Removes every entry.
    fn clear(&mut self)
        ensures
            final(self).entries() == Seq::<EntryView>::empty(),
    ;

    /// Replaces what is held by the given entries.
    fn rebuild(&mut self, entries: Vec<SpatialEntry>)
        ensures
            final(self).entries() == spatial_view(entries@),
    ;
}

/// An index that keeps its entries in a list and scans it for every query.
#[derive(Debug)]
pub struct SimpleIndex {
    entries: Vec<SpatialEntry>,
}

impl SimpleIndex {
    /// An index without entries.
    pub fn new() -> (index: SimpleIndex)
        ensures
            index.entries() == Seq::<EntryView>::empty(),
    {
        let index = SimpleIndex { entries: Vec::new() };
        assert(index.entries() =~= Seq::<EntryView>::empty());
        index
    }
}

impl Default for SimpleIndex {
    fn default() -> (index: SimpleIndex)
        ensures
            index.entries() == Seq::<EntryView>::empty(),
    {
        SimpleIndex::new()
    }
}

impl SpatialQuery for SimpleIndex {
    closed spec fn entries(&self) -> Seq<EntryView> {
        spatial_view(self.entries@)
    }

    fn query_point(&self, x: Scalar, y: Scalar) -> (ids: Vec<ObjectId>) {
        let ghost all = self.entries();
        let mut out: Vec<ObjectId> = Vec::new();
        let mut n: usize = self.entries.len();
        assert(all.take(n as int) =~= all);
        assert(ids_view(out@) =~= Seq::empty());
        while n > 0
            invariant
                n <= self.entries.len(),
                all == self.entries(),
                ids_view(out@) + ids_containing(all.take(n as int), x, y) == ids_containing(
                    all,
                    x,
                    y,
                ),
            decreases n,
        {
            let ghost before = ids_view(out@);
            let ghost rest = ids_containing(all.take(n as int - 1), x, y);
            proof {
                let now = all.take(n as int);
                assert(now.drop_last() =~= all.take(n as int - 1));
                assert(now.last() == all[n as int - 1]);
            }
            let entry = &self.entries[n - 1];
            if entry.bounds.contains_point(x, y) {
                out.push(entry.id.clone());
                assert(ids_view(out@) =~= before + seq![entry.id@]);
                assert((before + seq![entry.id@]) + rest =~= before + (seq![entry.id@] + rest));
            } else {
                assert(Seq::<Seq<char>>::empty() + rest =~= rest);
            }
            n -= 1;
        }
        assert(ids_view(out@) + Seq::<Seq<char>>::empty() =~= ids_view(out@));
        out
    }

    fn query_rect(&self, bounds: &BoundingBox) -> (ids: Vec<ObjectId>) {
        let ghost all = self.entries();
        let mut out: Vec<ObjectId> = Vec::new();
        let mut i: usize = 0;
        assert(ids_view(out@) =~= ids_overlapping(all.take(0), *bounds));
        while i < self.entries.len()
            invariant
                i <= self.entries.len(),
                all == self.entries(),
                ids_view(out@) == ids_overlapping(all.take(i as int), *bounds),
            decreases self.entries.len() - i,
        {
            let ghost before = ids_view(out@);
            proof {
                let next = all.take(i as int + 1);
                assert(next.drop_last() =~= all.take(i as int));
                assert(next.last() == all[i as int]);
            }
            let entry = &self.entries[i];
            if entry.bounds.intersects(bounds) {
                out.push(entry.id.clone());
                assert(ids_view(out@) =~= before + seq![entry.id@]);
            } else {
                assert(before + Seq::<Seq<char>>::empty() =~= before);
            }
            i += 1;
        }
        assert(all.take(i as int) =~= all);
        out
    }

    fn insert(&mut self, entry: SpatialEntry) {
        self.entries.push(entry);
        assert(self.entries() =~= old(self).entries().push(entry@));
    }

    fn remove(&mut self, id: &ObjectId) {
        let ghost all = self.entries();
        let mut kept: Vec<SpatialEntry> = Vec::new();
        let mut i: usize = 0;
        assert(spatial_view(kept@) =~= entries_without(all.take(0), id@));
        while i < self.entries.len()
            invariant
                i <= self.entries.len(),
                all == self.entries(),
                spatial_view(kept@) == entries_without(all.take(i as int), id@),
            decreases self.entries.len() - i,
        {
            let ghost before = spatial_view(kept@);
            proof {
                let next = all.take(i as int + 1);
                assert(next.drop_last() =~= all.take(i as int));
                assert(next.last() == all[i as int]);
            }
            if !(self.entries[i].id == *id) {
                kept.push(self.entries[i].clone());
                assert(spatial_view(kept@) =~= before.push(all[i as int]));
            }
            i += 1;
        }
        assert(all.take(i as int) =~= all);
        self.entries = kept;
    }

    fn clear(&mut self) {
        self.entries = Vec::new();
        assert(self.entries() =~= Seq::<EntryView>::empty());
    }

    fn rebuild(&mut self, entries: Vec<SpatialEntry>) {
        self.entries = entries;
    }
}

} // verus!
