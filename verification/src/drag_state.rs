//! The state of a pointer drag.
//!
//! A drag freezes the transform of every affected object when it begins.
//! Each update is then computed from that frozen transform and the current
//! pointer position, never from the transform the previous update left
//! behind, so rounding errors cannot pile up over a long drag.

use vstd::prelude::*;
use crate::math::TransformMatrix;
use crate::scalar::ONE_BITS;
use crate::scalar::Scalar;
use crate::scalar::TEN_BITS;
use crate::scalar::TENTH_BITS;

verus! {

/// A corner handle of the selection outline.
#[derive(Clone, Copy, PartialEq, Eq, Structural, Debug)]
pub enum HandleIndex {
    TopLeft,
    TopRight,
    BottomRight,
    BottomLeft,
}

impl HandleIndex {
    /// The diagonally opposite corner, as a specification value.
    pub open spec fn opposite_value(self) -> HandleIndex {
        match self {
            HandleIndex::TopLeft => HandleIndex::BottomRight,
            HandleIndex::TopRight => HandleIndex::BottomLeft,
            HandleIndex::BottomRight => HandleIndex::TopLeft,
            HandleIndex::BottomLeft => HandleIndex::TopRight,
        }
    }

    /// The corner's position in an outline's corner list, as a specification value.
    pub open spec fn index_value(self) -> int {
        match self {
            HandleIndex::TopLeft => 0,
            HandleIndex::TopRight => 1,
            HandleIndex::BottomRight => 2,
            HandleIndex::BottomLeft => 3,
        }
    }

    /// The diagonally opposite corner: the point that stays fixed while this
    /// corner is dragged.
    pub fn opposite(&self) -> (r: HandleIndex)
        ensures
            r == self.opposite_value(),
    {
        match self {
            HandleIndex::TopLeft => HandleIndex::BottomRight,
            HandleIndex::TopRight => HandleIndex::BottomLeft,
            HandleIndex::BottomRight => HandleIndex::TopLeft,
            HandleIndex::BottomLeft => HandleIndex::TopRight,
        }
    }

    /// The corner's position in an outline's corner list: clockwise from the
    /// top-left corner, which is 0.
    pub fn index(&self) -> (i: usize)
        ensures
            i == self.index_value(),
    {
        match self {
            HandleIndex::TopLeft => 0,
            HandleIndex::TopRight => 1,
            HandleIndex::BottomRight => 2,
            HandleIndex::BottomLeft => 3,
        }
    }

    /// The corner at a position of the corner list; none for a position past 3.
    pub fn from_index(index: u8) -> (r: Option<HandleIndex>)
        ensures
            index <= 3 ==> r is Some && r->0.index_value() == index,
            index > 3 ==> r is None,
    {
        if index == 0 {
            Some(HandleIndex::TopLeft)
        } else if index == 1 {
            Some(HandleIndex::TopRight)
        } else if index == 2 {
            Some(HandleIndex::BottomRight)
        } else if index == 3 {
            Some(HandleIndex::BottomLeft)
        } else {
            None
        }
    }
}

/// Opposite corners are two apart in the corner list, and the opposite of the
/// opposite is the corner itself.
pub proof fn lemma_opposite(handle: HandleIndex)
    ensures
        handle.opposite_value().opposite_value() == handle,
        handle.opposite_value() != handle,
        handle.opposite_value().index_value() == (handle.index_value() + 2) % 4,
{
}

/// A distance from the pivot as a resize uses it: never less than one unit,
/// so that the ratio of two such distances is defined.
pub open spec fn floored(distance: Scalar) -> Scalar {
    distance.greater(Scalar { bits: ONE_BITS })
}

/// A raw scale factor brought into the range from one tenth to ten.
pub open spec fn clamped(ratio: Scalar) -> Scalar {
    ratio.greater(Scalar { bits: TENTH_BITS }).lesser(Scalar { bits: TEN_BITS })
}

/// The distance of the pointer from the pivot, floored at one unit.
pub fn floor_distance(distance: Scalar) -> (r: Scalar)
    ensures
        r == floored(distance),
{
    distance.max(Scalar { bits: ONE_BITS })
}

/// The uniform scale of a resize: the ratio of the pointer's current to its
/// initial distance from the pivot, limited to the range from 0.1 to 10.
pub fn resize_scale(ratio: Scalar) -> (r: Scalar)
    ensures
        r == clamped(ratio),
{
    ratio.max(Scalar { bits: TENTH_BITS }).min(Scalar { bits: TEN_BITS })
}

/// Whatever the ratio, the scale of a resize lies between one tenth and ten,
/// and a ratio already in that range is the scale.
pub proof fn lemma_scale_in_range(ratio: Scalar)
    ensures
        (Scalar { bits: TENTH_BITS }).at_most(clamped(ratio)),
        clamped(ratio).at_most(Scalar { bits: TEN_BITS }),
        !clamped(ratio).nan(),
        (Scalar { bits: TENTH_BITS }).at_most(ratio) && ratio.at_most(Scalar { bits: TEN_BITS })
            ==> clamped(ratio) == ratio,
{
}

/// A floored distance is a number and at least one.
pub proof fn lemma_floor_at_least_one(distance: Scalar)
    ensures
        (Scalar { bits: ONE_BITS }).at_most(floored(distance)),
        (Scalar { bits: ONE_BITS }).at_most(distance) ==> floored(distance) == distance,
{
}

/// What a drag is doing.
#[derive(Clone, Copy, PartialEq, Eq, Structural, Debug)]
pub enum DragMode {
    Idle,
    Moving,
    Resizing(HandleIndex),
    Rotating,
}

impl Default for DragMode {
    fn default() -> (m: DragMode)
        ensures
            m == DragMode::Idle,
    {
        DragMode::Idle
    }
}

/// The transform of every object below `entries` that the drag froze, keyed by
/// identifier: the first entry with the identifier counts.
pub open spec fn baseline_of(
    entries: Seq<(Seq<char>, TransformMatrix)>,
    id: Seq<char>,
) -> Option<TransformMatrix>
    decreases entries.len(),
{
    if entries.len() == 0 {
        None
    } else if entries[0].0 == id {
        Some(entries[0].1)
    } else {
        baseline_of(entries.skip(1), id)
    }
}

/// The identifier texts and transforms of a run of frozen entries.
pub open spec fn baselines_view(entries: Seq<(String, TransformMatrix)>) -> Seq<
    (Seq<char>, TransformMatrix),
> {
    Seq::new(entries.len(), |i: int| (entries[i].0@, entries[i].1))
}

/// The state of a drag: its mode, where the pointer started, the frozen
/// transforms, and the fixed point of a resize or rotation.
#[derive(Debug)]
pub struct DragState {
    pub mode: DragMode,
    pub start_point: (Scalar, Scalar),
    pub initial_transforms: Vec<(String, TransformMatrix)>,
    pub pivot: (Scalar, Scalar),
}

/// What a [`DragState`] holds.
pub ghost struct DragView {
    pub mode: DragMode,
    pub start_point: (Scalar, Scalar),
    pub initial_transforms: Seq<(Seq<char>, TransformMatrix)>,
    pub pivot: (Scalar, Scalar),
}

impl View for DragState {
    type V = DragView;

    open spec fn view(&self) -> DragView {
        DragView {
            mode: self.mode,
            start_point: self.start_point,
            initial_transforms: baselines_view(self.initial_transforms@),
            pivot: self.pivot,
        }
    }
}

impl DragView {
    /// The state in which no drag is going on.
    pub open spec fn idle() -> DragView {
        DragView {
            mode: DragMode::Idle,
            start_point: (Scalar { bits: 0 }, Scalar { bits: 0 }),
            initial_transforms: Seq::empty(),
            pivot: (Scalar { bits: 0 }, Scalar { bits: 0 }),
        }
    }
}

impl DragState {
    /// A state in which no drag is going on.
    pub fn new() -> (s: DragState)
        ensures
            s@ == DragView::idle(),
    {
        let s = DragState {
            mode: DragMode::Idle,
            start_point: (Scalar::zero(), Scalar::zero()),
            initial_transforms: Vec::new(),
            pivot: (Scalar::zero(), Scalar::zero()),
        };
        assert(s@.initial_transforms =~= Seq::empty());
        s
    }

    /// Whether a drag is going on.
    pub fn is_active(&self) -> (r: bool)
        ensures
            r == (self@.mode != DragMode::Idle),
    {
        self.mode != DragMode::Idle
    }

    /// Starts a drag, discarding whatever drag was going on.
    pub fn begin(
        &mut self,
        mode: DragMode,
        start_x: Scalar,
        start_y: Scalar,
        transforms: Vec<(String, TransformMatrix)>,
        pivot: (Scalar, Scalar),
    )
        ensures
            final(self)@ == (DragView {
                mode,
                start_point: (start_x, start_y),
                initial_transforms: baselines_view(transforms@),
                pivot,
            }),
    {
        self.mode = mode;
        self.start_point = (start_x, start_y);
        self.initial_transforms = transforms;
        self.pivot = pivot;
    }

    /// Ends the drag: no mode, no frozen transforms, start and pivot at zero.
    pub fn end(&mut self)
        ensures
            final(self)@ == DragView::idle(),
    {
        self.mode = DragMode::Idle;
        self.start_point = (Scalar::zero(), Scalar::zero());
        self.initial_transforms = Vec::new();
        self.pivot = (Scalar::zero(), Scalar::zero());
        assert(self@.initial_transforms =~= Seq::empty());
    }

    /// The transform that the object had when the drag began, if the drag
    /// froze one for it.
    pub fn get_initial_transform(&self, id: &str) -> (r: Option<&TransformMatrix>)
        ensures
            match r {
                Some(t) => baseline_of(self@.initial_transforms, id@) == Some(*t),
                None => baseline_of(self@.initial_transforms, id@) is None,
            },
    {
        lookup_transform(&self.initial_transforms, id)
    }
}

/// The transform listed for an identifier: that of the first entry with it.
pub fn lookup_transform<'a>(entries: &'a Vec<(String, TransformMatrix)>, id: &str) -> (r: Option<
    &'a TransformMatrix,
>)
    ensures
        match r {
            Some(t) => baseline_of(baselines_view(entries@), id@) == Some(*t),
            None => baseline_of(baselines_view(entries@), id@) is None,
        },
{
    let target = id.to_owned();
    let ghost all = baselines_view(entries@);
    let mut i: usize = 0;
    assert(all.skip(0) =~= all);
    while i < entries.len()
        invariant
            i <= entries.len(),
            all == baselines_view(entries@),
            target@ == id@,
            baseline_of(all, id@) == baseline_of(all.skip(i as int), id@),
        decreases entries.len() - i,
    {
        assert(all.skip(i as int).skip(1) =~= all.skip(i as int + 1));
        assert(all.skip(i as int)[0] == all[i as int]);
        if entries[i].0 == target {
            return Some(&entries[i].1);
        }
        i += 1;
    }
    None
}

impl Default for DragState {
    fn default() -> (s: DragState)
        ensures
            s@ == DragView::idle(),
    {
        DragState::new()
    }
}

} // verus!
