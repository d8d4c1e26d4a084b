//! Integer plane geometry: points, squared distances and hit-testing.
//!
//! Coordinates are integers in a unit chosen by the host (whole pixels or a
//! fixed fraction of one). All comparisons are made on squared distances, so
//! no square root is ever taken and every result is exact.
//!
//! Where the entries of a ring lie is not decided here. The host places them
//! evenly around the centre, which takes sines and cosines, and hands the
//! positions in as points; this module only says which of them a pointer
//! selects.

use vstd::prelude::*;

verus! {

/// A position on the overlay.
#[derive(Clone, Copy, Debug, PartialEq, Eq, Structural)]
pub struct Point {
    pub x: i32,
    pub y: i32,
}

/// The squared Euclidean distance between two points.
pub open spec fn dist2_spec(a: Point, b: Point) -> int {
    (a.x - b.x) * (a.x - b.x) + (a.y - b.y) * (a.y - b.y)
}

/// The square of a radius.
pub open spec fn square(r: int) -> int {
    r * r
}

proof fn lemma_square_bound(d: int)
    by (nonlinear_arith)
    requires
        -0x1_0000_0000 < d < 0x1_0000_0000,
    ensures
        0 <= d * d <= 0xffff_fffe_0000_0001,
{
}

/// Squared distance between `a` and `b`; it never overflows, whatever the
/// coordinates.
pub fn dist2(a: Point, b: Point) -> (d: u128)
    ensures
        d == dist2_spec(a, b),
{
    let dx: i128 = a.x as i128 - b.x as i128;
    let dy: i128 = a.y as i128 - b.y as i128;
    proof {
        lemma_square_bound(dx as int);
        lemma_square_bound(dy as int);
    }
    let sum: i128 = dx * dx + dy * dy;
    sum as u128
}

/// The square of a radius, computed without overflow.
pub fn radius2(r: u32) -> (s: u128)
    ensures
        s == square(r as int),
{
    proof {
        lemma_square_bound(r as int);
    }
    (r as u128) * (r as u128)
}

/// Whether `i` is the entry that a pointer at `p` selects among `points`: no
/// entry lies nearer to `p`, and every entry before `i` lies strictly farther
/// away, so that of several nearest entries the first one is meant.
pub open spec fn is_closest(p: Point, points: Seq<Point>, i: int) -> bool {
    &&& 0 <= i < points.len()
    &&& forall|j: int|
        0 <= j < points.len() ==> dist2_spec(p, points[i]) <= dist2_spec(p, #[trigger] points[j])
    &&& forall|j: int| 0 <= j < i ==> dist2_spec(p, points[i]) < dist2_spec(p, #[trigger] points[j])
}

/// The index selected among a non-empty `points`.
pub open spec fn closest_index(p: Point, points: Seq<Point>) -> int {
    choose|i: int| is_closest(p, points, i)
}

/// The entry selected by a pointer at `p` on a ring around `center`: none
/// while the pointer is inside the dead-zone or the ring is empty, else the
/// nearest entry, the lower index winning a tie.
pub open spec fn hit_test(p: Point, center: Point, points: Seq<Point>, deadzone: u32) -> Option<
    int,
> {
    if dist2_spec(p, center) < square(deadzone as int) || points.len() == 0 {
        None
    } else {
        Some(closest_index(p, points))
    }
}

/// At most one index satisfies `is_closest`.
pub proof fn lemma_closest_unique(p: Point, points: Seq<Point>, i: int, j: int)
    requires
        is_closest(p, points, i),
        is_closest(p, points, j),
    ensures
        i == j,
{
    if i < j {
        assert(dist2_spec(p, points[j]) < dist2_spec(p, points[i]));
    }
}

/// Every non-empty set of points has a selected index, and `closest_index`
/// is that index.
pub proof fn lemma_closest_exists(p: Point, points: Seq<Point>)
    requires
        points.len() > 0,
    ensures
        is_closest(p, points, closest_index(p, points)),
    decreases points.len(),
{
    if points.len() == 1 {
        assert(is_closest(p, points, 0));
    } else {
        let init = points.drop_last();
        lemma_closest_exists(p, init);
        let b = closest_index(p, init);
        let last = points.len() - 1;
        assert(forall|j: int| 0 <= j < init.len() ==> init[j] == points[j]);
        if dist2_spec(p, points[last]) < dist2_spec(p, points[b]) {
            assert(is_closest(p, points, last));
        } else {
            assert(is_closest(p, points, b));
        }
    }
}

/// A pointer inside the dead-zone selects nothing, whatever the layout.
pub proof fn lemma_deadzone_selects_nothing(
    p: Point,
    center: Point,
    points: Seq<Point>,
    deadzone: u32,
)
    requires
        dist2_spec(p, center) < square(deadzone as int),
    ensures
        hit_test(p, center, points, deadzone) is None,
{
}

/// Of two entries at the same distance from the pointer, the one with the
/// higher index is never selected.
pub proof fn lemma_tie_goes_to_lower_index(
    p: Point,
    center: Point,
    points: Seq<Point>,
    deadzone: u32,
    lower: int,
    higher: int,
)
    requires
        0 <= lower < higher < points.len(),
        dist2_spec(p, points[lower]) == dist2_spec(p, points[higher]),
    ensures
        hit_test(p, center, points, deadzone) != Some(higher),
{
    lemma_closest_exists(p, points);
}

/// Hit-tests a pointer at `p` against the entry positions `points` of the
/// ring around `center`.
///
/// Returns `None` while the pointer is closer to `center` than `deadzone`, or
/// when there are no entries. Otherwise returns the index of the entry nearest
/// to the pointer; where several are equally near, the lowest index.
pub fn closest_index_for_pointer(
    p: Point,
    center: Point,
    points: &Vec<Point>,
    deadzone: u32,
) -> (r: Option<usize>)
    ensures
        dist2_spec(p, center) < square(deadzone as int) ==> r is None,
        points@.len() == 0 ==> r is None,
        dist2_spec(p, center) >= square(deadzone as int) && points@.len() > 0 ==> r is Some,
        r matches Some(i) ==> is_closest(p, points@, i as int),
        match r {
            Some(i) => hit_test(p, center, points@, deadzone) == Some(i as int),
            None => hit_test(p, center, points@, deadzone) is None,
        },
{
    if dist2(p, center) < radius2(deadzone) {
        return None;
    }
    let n: usize = points.len();
    if n == 0 {
        return None;
    }
    let mut best: usize = 0;
    let mut best_d: u128 = dist2(p, points[0]);
    let mut i: usize = 1;
    while i < n
        invariant
            n == points@.len(),
            1 <= i <= n,
            best < i,
            best_d == dist2_spec(p, points@[best as int]),
            is_closest(p, points@.take(i as int), best as int),
        decreases n - i,
    {
        let d: u128 = dist2(p, points[i]);
        if d < best_d {
            best = i;
            best_d = d;
        }
        i = i + 1;
    }
    proof {
        assert(points@.take(n as int) =~= points@);
        lemma_closest_exists(p, points@);
        lemma_closest_unique(p, points@, best as int, closest_index(p, points@));
    }
    Some(best)
}

} // verus!
