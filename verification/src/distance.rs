//! The distance filter: which points lie within a radius of an origin.

use vstd::prelude::*;

verus! {

/// The square of the distance between two points of the horizontal plane.
pub open spec fn squared_distance(a: (int, int), b: (int, int)) -> int {
    (a.0 - b.0) * (a.0 - b.0) + (a.1 - b.1) * (a.1 - b.1)
}

/// `point` lies no further than `radius` from `origin`. Squares are
/// compared, so that no root is taken.
pub open spec fn in_radius(point: (int, int), origin: (int, int), radius: int) -> bool {
    squared_distance(point, origin) <= radius * radius
}

/// A point given in `i32` coordinates, as a point of the plane.
pub open spec fn as_point(p: (i32, i32)) -> (int, int) {
    (p.0 as int, p.1 as int)
}

/// `point` passes `filter`: there is no filter, or the point lies within the
/// filter's radius of its origin.
pub open spec fn passes(point: (int, int), filter: Option<((i32, i32), i32)>) -> bool {
    match filter {
        Some((origin, max_distance)) => in_radius(point, as_point(origin), max_distance as int),
        None => true,
    }
}

/// The square of an `i32` difference fits in 65 bits.
proof fn lemma_square_bound(d: int)
    requires
        -0x1_0000_0000 <= d <= 0x1_0000_0000,
    ensures
        0 <= d * d <= 0x1_0000_0000_0000_0000,
{
    assert(0 <= d * d <= 0x1_0000_0000_0000_0000) by (nonlinear_arith)
        requires
            -0x1_0000_0000 <= d <= 0x1_0000_0000,
    ;
}

/// The square of the distance from `a` to `b`, computed without overflow.
pub fn squared_distance_between(a: (i32, i32), b: (i32, i32)) -> (d: i128)
    ensures
        d == squared_distance(as_point(a), as_point(b)),
        0 <= d <= 0x2_0000_0000_0000_0000,
{
    let dx: i128 = a.0 as i128 - b.0 as i128;
    let dz: i128 = a.1 as i128 - b.1 as i128;
    proof {
        lemma_square_bound(dx as int);
        lemma_square_bound(dz as int);
    }
    dx * dx + dz * dz
}

/// Whether `point` passes the distance filter. Without a filter every point
/// passes. With one, the point passes if and only if its squared distance
/// from the filter's origin is at most the square of the filter's radius; a
/// radius of 0 lets only the origin itself pass.
pub fn within(point: (i32, i32), filter: Option<((i32, i32), i32)>) -> (inside: bool)
    ensures
        inside == passes(as_point(point), filter),
{
    match filter {
        Some((origin, max_distance)) => {
            let limit: i128 = max_distance as i128;
            proof {
                lemma_square_bound(limit as int);
            }
            squared_distance_between(point, origin) <= limit * limit
        },
        None => true,
    }
}

/// Moving a point and the origin of the radius by the same vector changes
/// neither their distance nor whether the point lies within the radius.
pub proof fn lemma_distance_ignores_shift(
    point: (int, int),
    origin: (int, int),
    radius: int,
    shift: (int, int),
)
    ensures
        squared_distance((point.0 + shift.0, point.1 + shift.1), (origin.0 + shift.0, origin.1 + shift.1))
            == squared_distance(point, origin),
        in_radius(
            (point.0 + shift.0, point.1 + shift.1),
            (origin.0 + shift.0, origin.1 + shift.1),
            radius,
        ) == in_radius(point, origin, radius),
{
}

/// The same for a filter: where the origin of `shifted_filter` is that of
/// `filter` moved by `shift`, and the radius is the same, a point moved by
/// `shift` passes `shifted_filter` exactly when the point passes `filter`.
pub proof fn lemma_filter_ignores_shift(
    point: (int, int),
    filter: Option<((i32, i32), i32)>,
    shifted_filter: Option<((i32, i32), i32)>,
    shift: (int, int),
)
    requires
        match (filter, shifted_filter) {
            (Some((origin, radius)), Some((shifted_origin, shifted_radius))) => {
                &&& shifted_origin.0 == origin.0 + shift.0
                &&& shifted_origin.1 == origin.1 + shift.1
                &&& shifted_radius == radius
            },
            (None, None) => true,
            _ => false,
        },
    ensures
        passes((point.0 + shift.0, point.1 + shift.1), shifted_filter) == passes(point, filter),
{
    match filter {
        Some((origin, radius)) => {
            lemma_distance_ignores_shift(point, as_point(origin), radius as int, shift);
        },
        None => {},
    }
}

/// With a radius of 0 only the origin itself lies within the radius.
pub proof fn lemma_zero_radius(point: (int, int), origin: (int, int))
    ensures
        in_radius(point, origin, 0) <==> point == origin,
{
    let dx = point.0 - origin.0;
    let dz = point.1 - origin.1;
    assert(dx * dx >= 0 && (dx != 0 ==> dx * dx > 0)) by (nonlinear_arith);
    assert(dz * dz >= 0 && (dz != 0 ==> dz * dz > 0)) by (nonlinear_arith);
}

} // verus!
