//! Bounds of a path, and the test of a point against them.
//!
//! A path is hit-tested against the smallest axis-aligned box around all its
//! anchors and control points. That is a deliberate approximation: a point
//! inside the box counts as a hit even where the outline does not cover it.

use vstd::prelude::*;
use crate::scalar::INFINITY_BITS;
use crate::scalar::LARGEST_BITS;
use crate::scalar::lemma_order;
use crate::scalar::NEG_INFINITY_BITS;
use crate::scalar::Scalar;
use crate::scalar::SMALLEST_BITS;
use crate::scene::PathCommand;
use crate::spatial::BoundingBox;

verus! {

/// The points that a command names: its end point and, for a curve, the two
/// control points before it.
pub open spec fn command_points(command: PathCommand) -> Seq<(Scalar, Scalar)> {
    match command {
        PathCommand::MoveTo { x, y } => seq![(x, y)],
        PathCommand::LineTo { x, y } => seq![(x, y)],
        PathCommand::CurveTo { x1, y1, x2, y2, x, y } => seq![(x1, y1), (x2, y2), (x, y)],
        PathCommand::ClosePath => Seq::empty(),
    }
}

/// Every point that a path names, in order.
pub open spec fn points_of(commands: Seq<PathCommand>) -> Seq<(Scalar, Scalar)>
    decreases commands.len(),
{
    if commands.len() == 0 {
        Seq::empty()
    } else {
        points_of(commands.drop_last()) + command_points(commands.last())
    }
}

/// The x coordinates of the points.
pub open spec fn xs_of(points: Seq<(Scalar, Scalar)>) -> Seq<Scalar> {
    Seq::new(points.len(), |i: int| points[i].0)
}

/// The y coordinates of the points.
pub open spec fn ys_of(points: Seq<(Scalar, Scalar)>) -> Seq<Scalar> {
    Seq::new(points.len(), |i: int| points[i].1)
}

/// Whether `m` is the least of `start` and the values: `m` is a number, is at
/// most `start` and every value that is a number, and is one of them.
/// `start` has to be a number.
pub open spec fn is_least(m: Scalar, values: Seq<Scalar>, start: Scalar) -> bool {
    &&& !m.nan()
    &&& m.at_most(start)
    &&& forall|i: int| 0 <= i < values.len() && !values[i].nan() ==> m.at_most(#[trigger] values[i])
    &&& (m == start || exists|i: int| 0 <= i < values.len() && #[trigger] values[i] == m)
}

/// Whether `m` is the greatest of `start` and the values.
pub open spec fn is_greatest(m: Scalar, values: Seq<Scalar>, start: Scalar) -> bool {
    &&& !m.nan()
    &&& start.at_most(m)
    &&& forall|i: int| 0 <= i < values.len() && !values[i].nan() ==> (#[trigger] values[i]).at_most(m)
    &&& (m == start || exists|i: int| 0 <= i < values.len() && #[trigger] values[i] == m)
}

/// Whether `bounds` is the box around the points, grown from a box that is
/// inside out: each lower edge is the least of `high` and the coordinates,
/// each upper edge the greatest of `low` and the coordinates, values that
/// are no numbers left aside.
pub open spec fn is_box_from(
    bounds: BoundingBox,
    points: Seq<(Scalar, Scalar)>,
    low: Scalar,
    high: Scalar,
) -> bool {
    &&& is_least(bounds.min_x, xs_of(points), high)
    &&& is_least(bounds.min_y, ys_of(points), high)
    &&& is_greatest(bounds.max_x, xs_of(points), low)
    &&& is_greatest(bounds.max_y, ys_of(points), low)
}

/// Whether `bounds` is the box around the points of a path: the box grown
/// from the finite extremes.
pub open spec fn is_box_around(bounds: BoundingBox, points: Seq<(Scalar, Scalar)>) -> bool {
    is_box_from(
        bounds,
        points,
        Scalar { bits: SMALLEST_BITS },
        Scalar { bits: LARGEST_BITS },
    )
}

/// Whether `v` lies between the least and the greatest of the values, both
/// taken as a fold from the finite extremes takes them.
pub open spec fn spans(values: Seq<Scalar>, v: Scalar) -> bool {
    &&& (Scalar { bits: LARGEST_BITS }).at_most(v) || exists|i: int|
        0 <= i < values.len() && (#[trigger] values[i]).at_most(v)
    &&& v.at_most(Scalar { bits: SMALLEST_BITS }) || exists|i: int|
        0 <= i < values.len() && v.at_most(#[trigger] values[i])
}

/// Taking one more value into account keeps the least the least.
pub proof fn lemma_least_push(m: Scalar, values: Seq<Scalar>, start: Scalar, v: Scalar)
    requires
        is_least(m, values, start),
    ensures
        is_least(m.lesser(v), values.push(v), start),
{
    let r = m.lesser(v);
    let next = values.push(v);
    assert forall|i: int| 0 <= i < next.len() && !next[i].nan() implies r.at_most(
        #[trigger] next[i],
    ) by {
        if i < values.len() {
            assert(next[i] == values[i]);
            assert(m.at_most(values[i]));
        }
    }
    if r != start {
        if r == m {
            let k = choose|k: int| 0 <= k < values.len() && #[trigger] values[k] == m;
            assert(next[k] == r);
        } else {
            assert(next[values.len() as int] == r);
        }
    }
}

/// Taking one more value into account keeps the greatest the greatest.
pub proof fn lemma_greatest_push(m: Scalar, values: Seq<Scalar>, start: Scalar, v: Scalar)
    requires
        is_greatest(m, values, start),
    ensures
        is_greatest(m.greater(v), values.push(v), start),
{
    let r = m.greater(v);
    let next = values.push(v);
    assert forall|i: int| 0 <= i < next.len() && !next[i].nan() implies (#[trigger] next[i]).at_most(
        r,
    ) by {
        if i < values.len() {
            assert(next[i] == values[i]);
            assert(values[i].at_most(m));
        }
    }
    if r != start {
        if r == m {
            let k = choose|k: int| 0 <= k < values.len() && #[trigger] values[k] == m;
            assert(next[k] == r);
        } else {
            assert(next[values.len() as int] == r);
        }
    }
}

/// A point lies in the box around some points exactly if each of its
/// coordinates lies between the extremes of that coordinate.
pub proof fn lemma_box_contains(bounds: BoundingBox, points: Seq<(Scalar, Scalar)>, x: Scalar, y: Scalar)
    requires
        is_box_around(bounds, points),
    ensures
        bounds.contains(x, y) == (spans(xs_of(points), x) && spans(ys_of(points), y)),
{
    lemma_spans(bounds.min_x, bounds.max_x, xs_of(points), x);
    lemma_spans(bounds.min_y, bounds.max_y, ys_of(points), y);
}

/// One coordinate of `lemma_box_contains`.
pub proof fn lemma_spans(low: Scalar, high: Scalar, values: Seq<Scalar>, v: Scalar)
    requires
        is_least(low, values, Scalar { bits: LARGEST_BITS }),
        is_greatest(high, values, Scalar { bits: SMALLEST_BITS }),
    ensures
        (low.at_most(v) && v.at_most(high)) == spans(values, v),
{
    let largest = Scalar { bits: LARGEST_BITS };
    let smallest = Scalar { bits: SMALLEST_BITS };
    if low.at_most(v) {
        if low != largest {
            let k = choose|k: int| 0 <= k < values.len() && #[trigger] values[k] == low;
            assert(values[k].at_most(v));
        }
    }
    if v.at_most(high) {
        if high != smallest {
            let k = choose|k: int| 0 <= k < values.len() && #[trigger] values[k] == high;
            assert(v.at_most(values[k]));
        }
    }
    if spans(values, v) {
        if !largest.at_most(v) {
            let k = choose|k: int| 0 <= k < values.len() && (#[trigger] values[k]).at_most(v);
            assert(low.at_most(values[k]));
            lemma_order(low, values[k], v);
        } else {
            lemma_order(low, largest, v);
        }
        if !v.at_most(smallest) {
            let k = choose|k: int| 0 <= k < values.len() && v.at_most(#[trigger] values[k]);
            assert(values[k].at_most(high));
            lemma_order(v, values[k], high);
        } else {
            lemma_order(v, smallest, high);
        }
    }
}

fn widen(
    bounds: BoundingBox,
    x: Scalar,
    y: Scalar,
    Ghost(points): Ghost<Seq<(Scalar, Scalar)>>,
    Ghost(low): Ghost<Scalar>,
    Ghost(high): Ghost<Scalar>,
) -> (r: BoundingBox)
    requires
        is_box_from(bounds, points, low, high),
    ensures
        is_box_from(r, points.push((x, y)), low, high),
{
    proof {
        lemma_least_push(bounds.min_x, xs_of(points), high, x);
        lemma_least_push(bounds.min_y, ys_of(points), high, y);
        lemma_greatest_push(bounds.max_x, xs_of(points), low, x);
        lemma_greatest_push(bounds.max_y, ys_of(points), low, y);
        assert(xs_of(points.push((x, y))) =~= xs_of(points).push(x));
        assert(ys_of(points.push((x, y))) =~= ys_of(points).push(y));
    }
    BoundingBox {
        min_x: bounds.min_x.min(x),
        min_y: bounds.min_y.min(y),
        max_x: bounds.max_x.max(x),
        max_y: bounds.max_y.max(y),
    }
}

/// The axis-aligned box around four corners, grown from a box whose lower
/// edges are at positive and whose upper edges are at negative infinity.
pub fn box_around_corners(corners: &[(Scalar, Scalar); 4]) -> (bounds: BoundingBox)
    ensures
        is_box_from(
            bounds,
            corners@,
            Scalar { bits: NEG_INFINITY_BITS },
            Scalar { bits: INFINITY_BITS },
        ),
{
    let ghost low = Scalar { bits: NEG_INFINITY_BITS };
    let ghost high = Scalar { bits: INFINITY_BITS };
    let mut bounds = BoundingBox {
        min_x: Scalar { bits: INFINITY_BITS },
        min_y: Scalar { bits: INFINITY_BITS },
        max_x: Scalar { bits: NEG_INFINITY_BITS },
        max_y: Scalar { bits: NEG_INFINITY_BITS },
    };
    let mut i: usize = 0;
    while i < 4
        invariant
            i <= 4,
            low == (Scalar { bits: NEG_INFINITY_BITS }),
            high == (Scalar { bits: INFINITY_BITS }),
            is_box_from(bounds, corners@.take(i as int), low, high),
        decreases 4 - i,
    {
        let (x, y) = corners[i];
        bounds = widen(bounds, x, y, Ghost(corners@.take(i as int)), Ghost(low), Ghost(high));
        assert(corners@.take(i as int).push((x, y)) =~= corners@.take(i as int + 1));
        i += 1;
    }
    assert(corners@.take(4) =~= corners@);
    bounds
}

/// The box around every anchor and control point of a path. Without any
/// point that is a number the box is inside out: its lower edges are the
/// largest finite value and its upper edges the smallest.
pub fn path_bounds(commands: &Vec<PathCommand>) -> (bounds: BoundingBox)
    ensures
        is_box_around(bounds, points_of(commands@)),
{
    let mut bounds = BoundingBox {
        min_x: Scalar::largest(),
        min_y: Scalar::largest(),
        max_x: Scalar::smallest(),
        max_y: Scalar::smallest(),
    };
    let ghost low = Scalar { bits: SMALLEST_BITS };
    let ghost high = Scalar { bits: LARGEST_BITS };
    let mut i: usize = 0;
    assert(points_of(commands@.take(0)) =~= Seq::empty());
    while i < commands.len()
        invariant
            i <= commands.len(),
            low == (Scalar { bits: SMALLEST_BITS }),
            high == (Scalar { bits: LARGEST_BITS }),
            is_box_around(bounds, points_of(commands@.take(i as int))),
        decreases commands.len() - i,
    {
        let ghost seen = points_of(commands@.take(i as int));
        proof {
            let next = commands@.take(i as int + 1);
            assert(next.drop_last() =~= commands@.take(i as int));
            assert(next.last() == commands@[i as int]);
        }
        match commands[i] {
            PathCommand::MoveTo { x, y } => {
                bounds = widen(bounds, x, y, Ghost(seen), Ghost(low), Ghost(high));
                assert(seen.push((x, y)) =~= seen + command_points(commands@[i as int]));
            },
            PathCommand::LineTo { x, y } => {
                bounds = widen(bounds, x, y, Ghost(seen), Ghost(low), Ghost(high));
                assert(seen.push((x, y)) =~= seen + command_points(commands@[i as int]));
            },
            PathCommand::CurveTo { x1, y1, x2, y2, x, y } => {
                bounds = widen(bounds, x1, y1, Ghost(seen), Ghost(low), Ghost(high));
                bounds = widen(bounds, x2, y2, Ghost(seen.push((x1, y1))), Ghost(low), Ghost(high));
                bounds = widen(bounds, x, y, Ghost(seen.push((x1, y1)).push((x2, y2))), Ghost(low), Ghost(high));
                assert(seen.push((x1, y1)).push((x2, y2)).push((x, y)) =~= seen + command_points(
                    commands@[i as int],
                ));
            },
            PathCommand::ClosePath => {
                assert(seen =~= seen + command_points(commands@[i as int]));
            },
        }
        i += 1;
    }
    assert(commands@.take(i as int) =~= commands@);
    bounds
}

/// Whether `(x, y)` lies in the box around the path's anchors and control
/// points. A path without commands is never hit.
pub fn point_in_path_bounds(x: Scalar, y: Scalar, commands: &Vec<PathCommand>) -> (hit: bool)
    ensures
        hit == (commands@.len() > 0 && spans(xs_of(points_of(commands@)), x) && spans(
            ys_of(points_of(commands@)),
            y,
        )),
{
    if commands.len() == 0 {
        return false;
    }
    let bounds = path_bounds(commands);
    proof {
        lemma_box_contains(bounds, points_of(commands@), x, y);
    }
    bounds.contains_point(x, y)
}

/// The local bounding box of a path for its selection outline: the box
/// around its points, or none when the path names no point whose x
/// coordinate is below the largest finite value.
pub fn local_path_box(commands: &Vec<PathCommand>) -> (r: Option<BoundingBox>)
    ensures
        match r {
            Some(bounds) => is_box_around(bounds, points_of(commands@)) && bounds.min_x.bits
                != LARGEST_BITS,
            None => is_least(
                Scalar { bits: LARGEST_BITS },
                xs_of(points_of(commands@)),
                Scalar { bits: LARGEST_BITS },
            ),
        },
{
    let bounds = path_bounds(commands);
    if bounds.min_x.bits == LARGEST_BITS {
        None
    } else {
        Some(bounds)
    }
}

} // verus!
