//! Straight lines on the pixel grid, as `line_drawing::Bresenham` walks them.

use vstd::prelude::*;

verus! {

/// Coordinates of a line's end points stay strictly between `-LINE_LIMIT` and
/// `LINE_LIMIT`, so that every difference of two of them fits in an `i64`.
pub const LINE_LIMIT: i64 = 0x4000_0000_0000_0000;

/// Whether a line may start or end at `point`.
pub open spec fn within_line_limit(point: (i64, i64)) -> bool {
    &&& -LINE_LIMIT < point.0 < LINE_LIMIT
    &&& -LINE_LIMIT < point.1 < LINE_LIMIT
}

/// The distance between `a` and `b` on a number line.
pub open spec fn gap(a: int, b: int) -> int {
    if a <= b {
        b - a
    } else {
        a - b
    }
}

/// The number of steps from `start` to `end`: the longer of the horizontal
/// and the vertical distance.
pub open spec fn line_span(start: (i64, i64), end: (i64, i64)) -> int {
    let dx = gap(start.0 as int, end.0 as int);
    let dy = gap(start.1 as int, end.1 as int);
    if dx >= dy {
        dx
    } else {
        dy
    }
}

/// Whether `v` lies between `a` and `b`, in either order.
pub open spec fn between(a: int, v: int, b: int) -> bool {
    (a <= v <= b) || (b <= v <= a)
}

/// Whether `point` lies in the smallest upright rectangle that holds `start`
/// and `end`.
pub open spec fn in_bounding_box(start: (i64, i64), end: (i64, i64), point: (i64, i64)) -> bool {
    between(start.0 as int, point.0 as int, end.0 as int) && between(
        start.1 as int,
        point.1 as int,
        end.1 as int,
    )
}

/// The walker of `line_drawing`, an iterator over the points of one line.
#[verifier::external_type_specification]
#[verifier::external_body]
#[verifier::reject_recursive_types(T)]
pub struct ExBresenham<T>(line_drawing::Bresenham<T>);

/// The points that `line_drawing::Bresenham::new(start, end)` yields, in
/// order.
pub uninterp spec fn line_points(start: (i64, i64), end: (i64, i64)) -> Seq<(i64, i64)>;

/// The points that a walker has yet to yield, in order.
pub uninterp spec fn remaining_points(walk: line_drawing::Bresenham<i64>) -> Seq<(i64, i64)>;

/// Calls `line_drawing::Bresenham::new`. The walker yields the points named
/// by `line_points`: one point per step along the longer axis, the first of
/// them `start`, the last of them `end`, and none outside the rectangle
/// spanned by the two. The end points are kept within `LINE_LIMIT` because the
/// walker subtracts and negates their coordinates.
#[verifier::external_body]
pub(crate) fn start_line(start: (i64, i64), end: (i64, i64)) -> (walk: line_drawing::Bresenham<i64>)
    requires
        within_line_limit(start),
        within_line_limit(end),
    ensures
        remaining_points(walk) == line_points(start, end),
        remaining_points(walk).len() == line_span(start, end) + 1,
        remaining_points(walk).first() == start,
        remaining_points(walk).last() == end,
        forall|i: int|
            0 <= i < remaining_points(walk).len() ==> in_bounding_box(
                start,
                end,
                #[trigger] remaining_points(walk)[i],
            ),
{
    line_drawing::Bresenham::new(start, end)
}

/// Calls `Iterator::next` of `line_drawing::Bresenham`: the walker hands out
/// the first of the points it has yet to yield and keeps the rest, or hands
/// out nothing once none is left. The points must be clear of the ends of the
/// `i64` range because the walker steps one past the point it hands out.
#[verifier::external_body]
pub(crate) fn next_point(walk: &mut line_drawing::Bresenham<i64>) -> (point: Option<(i64, i64)>)
    requires
        forall|i: int|
            0 <= i < remaining_points(*old(walk)).len() ==> within_line_limit(
                #[trigger] remaining_points(*old(walk))[i],
            ),
    ensures
        remaining_points(*old(walk)).len() == 0 ==> point is None && remaining_points(*final(walk))
            == remaining_points(*old(walk)),
        remaining_points(*old(walk)).len() > 0 ==> point == Some(
            remaining_points(*old(walk)).first(),
        ) && remaining_points(*final(walk)) == remaining_points(*old(walk)).drop_first(),
{
    walk.next()
}

} // verus!
