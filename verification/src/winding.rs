//! Point-in-polygon tests by exact integer winding numbers.
//!
//! A point is inside a polygon when its winding number around the outer
//! ring is nonzero and its winding number around every inner (hole) ring
//! is zero. All predicates are exact: the intermediate products of the
//! orientation test fit in 128-bit integers because coordinates stay
//! within `COORD_LIMIT`.

use vstd::prelude::*;
use crate::geometry::{lemma_mul_bounds, MultiPolygon, Point, Polygon, PolygonV, Rect};

verus! {

/// Orientation of `p` relative to the directed segment `a -> b`:
/// positive when `p` lies strictly to the left.
pub open spec fn is_left(a: Point, b: Point, p: Point) -> int {
    (b.x - a.x) * (p.y - a.y) - (p.x - a.x) * (b.y - a.y)
}

/// Contribution of the directed edge `a -> b` to the winding number of
/// `p`: an upward crossing with `p` strictly left counts `+1`, a
/// downward crossing with `p` strictly right counts `-1`.
pub open spec fn edge_wn(a: Point, b: Point, p: Point) -> int {
    if a.y <= p.y && p.y < b.y && is_left(a, b, p) > 0 {
        1
    } else if b.y <= p.y && p.y < a.y && is_left(a, b, p) < 0 {
        -1
    } else {
        0
    }
}

/// End point of the ring edge that starts at index `i`; the last edge
/// closes the ring.
pub open spec fn ring_next(ring: Seq<Point>, i: int) -> Point {
    if i + 1 == ring.len() {
        ring[0]
    } else {
        ring[i + 1]
    }
}

/// Winding number of `p` around the first `n` edges of the ring.
pub open spec fn ring_wn_to(ring: Seq<Point>, p: Point, n: int) -> int
    decreases n,
{
    if n <= 0 {
        0
    } else {
        ring_wn_to(ring, p, n - 1) + edge_wn(ring[n - 1], ring_next(ring, n - 1), p)
    }
}

/// Winding number of `p` around the closed ring.
pub open spec fn ring_wn(ring: Seq<Point>, p: Point) -> int {
    ring_wn_to(ring, p, ring.len() as int)
}

/// A point is inside a polygon when it winds around the outer ring and
/// around none of the hole rings.
pub open spec fn poly_contains(poly: PolygonV, p: Point) -> bool {
    &&& ring_wn(poly.outer, p) != 0
    &&& forall|j: int| 0 <= j < poly.inners.len() ==> ring_wn(#[trigger] poly.inners[j], p) == 0
}

/// A point is inside a multipolygon when some part contains it.
pub open spec fn mp_contains(mp: Seq<PolygonV>, p: Point) -> bool {
    exists|i: int| 0 <= i < mp.len() && poly_contains(#[trigger] mp[i], p)
}

/// One when `v` lies at or below the horizontal line through `p`.
pub open spec fn below(v: Point, p: Point) -> int {
    if v.y <= p.y {
        1
    } else {
        0
    }
}

/// An edge strictly to the west of `p` contributes nothing.
proof fn lemma_edge_east(a: Point, b: Point, p: Point)
    requires
        a.x < p.x,
        b.x < p.x,
    ensures
        edge_wn(a, b, p) == 0,
{
    if a.y <= p.y && p.y < b.y {
        assert((b.x - a.x) * (p.y - a.y) - (p.x - a.x) * (b.y - a.y) < 0) by (nonlinear_arith)
            requires
                a.x < p.x,
                b.x < p.x,
                a.y <= p.y,
                p.y < b.y,
        ;
    } else if b.y <= p.y && p.y < a.y {
        assert((b.x - a.x) * (p.y - a.y) - (p.x - a.x) * (b.y - a.y) > 0) by (nonlinear_arith)
            requires
                a.x < p.x,
                b.x < p.x,
                b.y <= p.y,
                p.y < a.y,
        ;
    }
}

/// For an edge strictly to the east of `p`, the contribution is the
/// drop of the `below` indicator along the edge.
proof fn lemma_edge_west(a: Point, b: Point, p: Point)
    requires
        p.x < a.x,
        p.x < b.x,
    ensures
        edge_wn(a, b, p) == below(a, p) - below(b, p),
{
    if a.y <= p.y && p.y < b.y {
        assert((b.x - a.x) * (p.y - a.y) - (p.x - a.x) * (b.y - a.y) > 0) by (nonlinear_arith)
            requires
                p.x < a.x,
                p.x < b.x,
                a.y <= p.y,
                p.y < b.y,
        ;
    } else if b.y <= p.y && p.y < a.y {
        assert((b.x - a.x) * (p.y - a.y) - (p.x - a.x) * (b.y - a.y) < 0) by (nonlinear_arith)
            requires
                p.x < a.x,
                p.x < b.x,
                b.y <= p.y,
                p.y < a.y,
        ;
    }
}

/// A prefix of edges that all contribute nothing sums to nothing.
proof fn lemma_ring_wn_to_zero(ring: Seq<Point>, p: Point, n: int)
    requires
        0 <= n <= ring.len(),
        forall|i: int| 0 <= i < n ==> edge_wn(#[trigger] ring[i], ring_next(ring, i), p) == 0,
    ensures
        ring_wn_to(ring, p, n) == 0,
    decreases n,
{
    if n > 0 {
        lemma_ring_wn_to_zero(ring, p, n - 1);
    }
}

/// A prefix of edges whose contributions telescope over `below` sums to
/// the difference of the indicator at the ends.
proof fn lemma_ring_wn_to_telescope(ring: Seq<Point>, p: Point, n: int)
    requires
        0 <= n < ring.len(),
        forall|i: int|
            0 <= i < n ==> edge_wn(#[trigger] ring[i], ring_next(ring, i), p) == below(ring[i], p)
                - below(ring[i + 1], p),
    ensures
        ring_wn_to(ring, p, n) == below(ring[0], p) - below(ring[n], p),
    decreases n,
{
    if n > 0 {
        lemma_ring_wn_to_telescope(ring, p, n - 1);
        assert(ring_next(ring, n - 1) == ring[n]);
    }
}

/// A point outside an axis-aligned rectangle that holds every vertex of
/// a ring has winding number zero around that ring: the bounding-box
/// test can never cut off a contained point.
pub proof fn lemma_ring_wn_zero_outside(ring: Seq<Point>, p: Point, r: Rect)
    requires
        forall|i: int| 0 <= i < ring.len() ==> r.contains_spec(#[trigger] ring[i]),
        !r.contains_spec(p),
    ensures
        ring_wn(ring, p) == 0,
{
    let n = ring.len() as int;
    if n == 0 {
    } else if p.x > r.x_max {
        assert forall|i: int| 0 <= i < n implies edge_wn(
            #[trigger] ring[i],
            ring_next(ring, i),
            p,
        ) == 0 by {
            assert(r.contains_spec(ring[i]));
            assert(r.contains_spec(ring_next(ring, i)));
            lemma_edge_east(ring[i], ring_next(ring, i), p);
        }
        lemma_ring_wn_to_zero(ring, p, n);
    } else if p.x < r.x_min {
        assert forall|i: int| 0 <= i < n implies edge_wn(
            #[trigger] ring[i],
            ring_next(ring, i),
            p,
        ) == below(ring[i], p) - below(ring_next(ring, i), p) by {
            assert(r.contains_spec(ring[i]));
            assert(r.contains_spec(ring_next(ring, i)));
            lemma_edge_west(ring[i], ring_next(ring, i), p);
        }
        lemma_ring_wn_to_telescope(ring, p, n - 1);
        assert(ring_next(ring, n - 1) == ring[0]);
        assert(ring_wn_to(ring, p, n) == ring_wn_to(ring, p, n - 1) + edge_wn(
            ring[n - 1],
            ring_next(ring, n - 1),
            p,
        ));
    } else {
        assert forall|i: int| 0 <= i < n implies edge_wn(
            #[trigger] ring[i],
            ring_next(ring, i),
            p,
        ) == 0 by {
            assert(r.contains_spec(ring[i]));
            assert(r.contains_spec(ring_next(ring, i)));
        }
        lemma_ring_wn_to_zero(ring, p, n);
    }
}

/// Rings of fewer than three points enclose nothing.
pub proof fn lemma_small_ring_wn(ring: Seq<Point>, p: Point)
    requires
        ring.len() < 3,
    ensures
        ring_wn(ring, p) == 0,
{
    if ring.len() == 2 {
        let a = ring[0];
        let b = ring[1];
        assert((a.x - b.x) * (p.y - b.y) - (p.x - b.x) * (a.y - b.y) == -((b.x - a.x) * (p.y - a.y)
            - (p.x - a.x) * (b.y - a.y))) by (nonlinear_arith);
        assert(ring_next(ring, 0) == b);
        assert(ring_next(ring, 1) == a);
        assert(ring_wn_to(ring, p, 0) == 0);
        assert(ring_wn_to(ring, p, 1) == edge_wn(a, b, p));
        assert(ring_wn_to(ring, p, 2) == edge_wn(a, b, p) + edge_wn(b, a, p));
    } else if ring.len() == 1 {
        assert(ring_next(ring, 0) == ring[0]);
        assert(ring_wn_to(ring, p, 0) == 0);
        assert(ring_wn_to(ring, p, 1) == edge_wn(ring[0], ring[0], p));
    }
}

/// A point outside a rectangle that holds every vertex of every outer
/// ring of a multipolygon (rings of fewer than three points excepted)
/// is contained in none of its parts.
pub proof fn lemma_mp_outside(mp: Seq<PolygonV>, p: Point, r: Rect)
    requires
        forall|i: int, k: int|
            0 <= i < mp.len() && 3 <= (#[trigger] mp[i].outer).len() && 0 <= k < mp[i].outer.len()
                ==> r.contains_spec(#[trigger] mp[i].outer[k]),
        !r.contains_spec(p),
    ensures
        !mp_contains(mp, p),
{
    assert forall|i: int| 0 <= i < mp.len() implies !poly_contains(#[trigger] mp[i], p) by {
        if mp[i].outer.len() < 3 {
            lemma_small_ring_wn(mp[i].outer, p);
        } else {
            lemma_ring_wn_zero_outside(mp[i].outer, p, r);
        }
    }
}

/// Computes the exact orientation of `p` relative to `a -> b`.
fn is_left_exec(a: &Point, b: &Point, p: &Point) -> (r: i128)
    requires
        a.wf(),
        b.wf(),
        p.wf(),
    ensures
        r == is_left(*a, *b, *p),
{
    proof {
        lemma_mul_bounds(
            b.x - a.x,
            p.y - a.y,
            0x7FFF_FFFF_FFFF_FFFE,
        );
        lemma_mul_bounds(
            p.x - a.x,
            b.y - a.y,
            0x7FFF_FFFF_FFFF_FFFE,
        );
    }
    let t1 = (b.x as i128 - a.x as i128) * (p.y as i128 - a.y as i128);
    let t2 = (p.x as i128 - a.x as i128) * (b.y as i128 - a.y as i128);
    t1 - t2
}

/// Computes the winding number of `p` around a closed ring of points.
pub fn ring_winding(points: &Vec<Point>, p: &Point) -> (w: i128)
    requires
        crate::geometry::points_wf(points@),
        p.wf(),
    ensures
        w == ring_wn(points@, *p),
{
    let n = points.len();
    let mut w: i128 = 0;
    let mut i: usize = 0;
    while i < n
        invariant
            i <= n,
            n == points@.len(),
            crate::geometry::points_wf(points@),
            p.wf(),
            w == ring_wn_to(points@, *p, i as int),
            -(i as int) <= w <= i as int,
        decreases n - i,
    {
        let a = points[i];
        let b = if i + 1 == n {
            points[0]
        } else {
            points[i + 1]
        };
        let side = is_left_exec(&a, &b, p);
        let delta: i128 = if a.y <= p.y && p.y < b.y && side > 0 {
            1
        } else if b.y <= p.y && p.y < a.y && side < 0 {
            -1
        } else {
            0
        };
        proof {
            assert(b == ring_next(points@, i as int));
            assert(delta == edge_wn(points@[i as int], ring_next(points@, i as int), *p));
        }
        w = w + delta;
        i = i + 1;
    }
    w
}

impl Polygon {
    /// Decides whether `point` lies inside this polygon: it must wind
    /// around the outer contour and around none of the holes.
    pub fn contains_point(&self, point: &Point) -> (r: bool)
        requires
            self.wf(),
            point.wf(),
        ensures
            r == poly_contains(self@, *point),
    {
        let w = ring_winding(&self.outer_contour.points, point);
        if w == 0 {
            return false;
        }
        let n = self.inner_contours.len();
        let mut j: usize = 0;
        while j < n
            invariant
                j <= n,
                n == self.inner_contours@.len(),
                self.wf(),
                point.wf(),
                ring_wn(self@.outer, *point) != 0,
                forall|k: int| 0 <= k < j ==> ring_wn(#[trigger] self@.inners[k], *point) == 0,
            decreases n - j,
        {
            proof {
                assert(self@.inners[j as int] == self.inner_contours@[j as int].points@);
                assert(crate::geometry::points_wf(self@.inners[j as int]));
            }
            let wj = ring_winding(&self.inner_contours[j].points, point);
            if wj != 0 {
                proof {
                    assert(ring_wn(self@.inners[j as int], *point) != 0);
                }
                return false;
            }
            j = j + 1;
        }
        true
    }
}

impl MultiPolygon {
    /// Decides whether `point` lies inside some part of the
    /// multipolygon. The `tolerance` parameter is accepted for interface
    /// symmetry with the point query; polygon containment is exact and
    /// does not use it.
    pub fn is_point_inside(&self, point: &Point, _tolerance: i64) -> (r: bool)
        requires
            self.wf(),
            point.wf(),
        ensures
            r == mp_contains(self@, *point),
    {
        let n = self.parts.len();
        let mut i: usize = 0;
        while i < n
            invariant
                i <= n,
                n == self.parts@.len(),
                self.wf(),
                point.wf(),
                forall|k: int| 0 <= k < i ==> !poly_contains(#[trigger] self@[k], *point),
            decreases n - i,
        {
            proof {
                assert(crate::geometry::polyv_wf(self@[i as int]));
            }
            if self.parts[i].contains_point(point) {
                proof {
                    assert(poly_contains(self@[i as int], *point));
                }
                return true;
            }
            i = i + 1;
        }
        false
    }
}

} // verus!
