//! Cartesian geometry: planar points, axis-aligned rectangles, closed
//! contours, polygons with holes, and multipolygons.
//!
//! All coordinates are fixed-point: `COORD_SCALE` coordinate steps make
//! one map unit, and every coordinate the engine works with stays within
//! `COORD_LIMIT` in magnitude, so intermediate products of the geometric
//! predicates fit in 128-bit arithmetic.

use vstd::prelude::*;

verus! {

/// Number of coordinate steps in one map unit.
pub const COORD_SCALE: i64 = 1_000_000;

/// Largest coordinate magnitude the engine works with (`2^62 - 1`).
pub const COORD_LIMIT: i64 = 0x3FFF_FFFF_FFFF_FFFF;

/// A coordinate value the engine can do exact arithmetic on.
pub open spec fn coord_ok(v: i64) -> bool {
    -COORD_LIMIT <= v && v <= COORD_LIMIT
}

/// `a * b` stays within `c * c` whenever both factors stay within `c`.
pub proof fn lemma_mul_bounds(a: int, b: int, c: int)
    by (nonlinear_arith)
    requires
        -c <= a <= c,
        -c <= b <= c,
        0 <= c,
    ensures
        -(c * c) <= a * b <= c * c,
{
}

/// Saturating sum of two coordinates.
pub open spec fn sat_add(a: i64, b: i64) -> i64 {
    if a + b > i64::MAX {
        i64::MAX
    } else if a + b < i64::MIN {
        i64::MIN
    } else {
        (a + b) as i64
    }
}

/// Saturating difference of two coordinates.
pub open spec fn sat_sub(a: i64, b: i64) -> i64 {
    if a - b > i64::MAX {
        i64::MAX
    } else if a - b < i64::MIN {
        i64::MIN
    } else {
        (a - b) as i64
    }
}

/// Adds two coordinates, clamping at the representable range.
pub fn saturating_add(a: i64, b: i64) -> (r: i64)
    ensures
        r == sat_add(a, b),
{
    match a.checked_add(b) {
        Some(v) => v,
        None => {
            if b > 0 {
                i64::MAX
            } else {
                i64::MIN
            }
        },
    }
}

/// Subtracts two coordinates, clamping at the representable range.
pub fn saturating_sub(a: i64, b: i64) -> (r: i64)
    ensures
        r == sat_sub(a, b),
{
    match a.checked_sub(b) {
        Some(v) => v,
        None => {
            if b < 0 {
                i64::MAX
            } else {
                i64::MIN
            }
        },
    }
}

/// A point of the cartesian plane.
#[derive(Debug, Clone, Copy, PartialEq, Eq, Structural)]
pub struct Point {
    pub x: i64,
    pub y: i64,
}

impl Point {
    pub fn new(x: i64, y: i64) -> (p: Point)
        ensures
            p == (Point { x, y }),
    {
        Point { x, y }
    }

    /// Both coordinates lie in the engine's working range.
    pub open spec fn wf(self) -> bool {
        coord_ok(self.x) && coord_ok(self.y)
    }

    /// Squared euclidean distance to `other`.
    pub open spec fn dist_sq(self, other: Point) -> int {
        (self.x - other.x) * (self.x - other.x) + (self.y - other.y) * (self.y - other.y)
    }

    /// Computes the exact squared distance between two points.
    pub fn distance_sq(&self, other: &Point) -> (d: i128)
        requires
            self.wf(),
            other.wf(),
        ensures
            d == self.dist_sq(*other),
    {
        let dx: i128 = self.x as i128 - other.x as i128;
        let dy: i128 = self.y as i128 - other.y as i128;
        proof {
            lemma_mul_bounds(dx as int, dx as int, 0x7FFF_FFFF_FFFF_FFFE);
            lemma_mul_bounds(dy as int, dy as int, 0x7FFF_FFFF_FFFF_FFFE);
        }
        dx * dx + dy * dy
    }

    /// A point is within tolerance of another when their distance is
    /// strictly below it; a zero or negative tolerance admits nothing.
    pub open spec fn within_tolerance(self, other: Point, tolerance: i64) -> bool {
        self.dist_sq(other) < tolerance * tolerance
    }

    /// Decides whether `point` lies strictly within `tolerance` of this
    /// point, measured by squared euclidean distance.
    pub fn is_point_inside(&self, point: &Point, tolerance: i64) -> (r: bool)
        requires
            self.wf(),
            point.wf(),
        ensures
            r == self.within_tolerance(*point, tolerance),
    {
        let d = self.distance_sq(point);
        let t: i128 = tolerance as i128;
        proof {
            lemma_mul_bounds(t as int, t as int, 0x8000_0000_0000_0000);
        }
        d < t * t
    }
}

/// An axis-aligned rectangle. A rectangle with `x_min > x_max` or
/// `y_min > y_max` is degenerate: it contains nothing and means
/// "no bounds".
#[derive(Debug, Clone, Copy, PartialEq, Eq, Structural)]
pub struct Rect {
    pub x_min: i64,
    pub y_min: i64,
    pub x_max: i64,
    pub y_max: i64,
}

impl Rect {
    pub fn new(x_min: i64, y_min: i64, x_max: i64, y_max: i64) -> (r: Rect)
        ensures
            r == (Rect { x_min, y_min, x_max, y_max }),
    {
        Rect { x_min, y_min, x_max, y_max }
    }

    /// The point lies inside the rectangle, sides included.
    pub open spec fn contains_spec(self, p: Point) -> bool {
        self.x_min <= p.x && p.x <= self.x_max && self.y_min <= p.y && p.y <= self.y_max
    }

    /// Decides whether `point` is inside (or on a side of) the rectangle.
    pub fn contains(&self, point: &Point) -> (r: bool)
        ensures
            r == self.contains_spec(*point),
    {
        self.x_min <= point.x && self.x_max >= point.x && self.y_min <= point.y
            && self.y_max >= point.y
    }

    /// Every point of `other` is a point of `self`.
    pub open spec fn covers(self, other: Rect) -> bool {
        self.x_min <= other.x_min && self.y_min <= other.y_min && other.x_max <= self.x_max
            && other.y_max <= self.y_max
    }
}

/// One closed ring of a polygon: the segment from the last point back
/// to the first is implied.
#[derive(Debug, Clone, PartialEq)]
pub struct ClosedContour {
    pub points: Vec<Point>,
}

impl View for ClosedContour {
    type V = Seq<Point>;

    open spec fn view(&self) -> Seq<Point> {
        self.points@
    }
}

impl ClosedContour {
    pub fn new(points: Vec<Point>) -> (c: ClosedContour)
        ensures
            c@ == points@,
    {
        ClosedContour { points }
    }

    pub open spec fn wf(self) -> bool {
        points_wf(self.points@)
    }
}

/// Every point of a ring lies in the engine's working range.
pub open spec fn points_wf(ring: Seq<Point>) -> bool {
    forall|i: int| 0 <= i < ring.len() ==> (#[trigger] ring[i]).wf()
}

/// Mathematical model of a polygon: one outer ring and its holes.
#[verifier::ext_equal]
pub struct PolygonV {
    pub outer: Seq<Point>,
    pub inners: Seq<Seq<Point>>,
}

/// A polygon: one outer contour and zero or more inner contours (holes).
#[derive(Debug, Clone, PartialEq)]
pub struct Polygon {
    pub outer_contour: ClosedContour,
    pub inner_contours: Vec<ClosedContour>,
}

impl View for Polygon {
    type V = PolygonV;

    open spec fn view(&self) -> PolygonV {
        PolygonV {
            outer: self.outer_contour@,
            inners: self.inner_contours@.map_values(|c: ClosedContour| c@),
        }
    }
}

/// Every ring of a polygon model lies in the engine's working range.
pub open spec fn polyv_wf(p: PolygonV) -> bool {
    &&& points_wf(p.outer)
    &&& forall|j: int| 0 <= j < p.inners.len() ==> points_wf(#[trigger] p.inners[j])
}

impl Polygon {
    pub open spec fn wf(self) -> bool {
        polyv_wf(self@)
    }
}

/// A multipolygon: an ordered sequence of independent polygons treated
/// as one logical shape.
#[derive(Debug, Clone, PartialEq)]
pub struct MultiPolygon {
    pub parts: Vec<Polygon>,
}

impl View for MultiPolygon {
    type V = Seq<PolygonV>;

    open spec fn view(&self) -> Seq<PolygonV> {
        self.parts@.map_values(|p: Polygon| p@)
    }
}

/// Every part of a multipolygon model lies in the engine's working
/// range.
pub open spec fn mpv_wf(mp: Seq<PolygonV>) -> bool {
    forall|i: int| 0 <= i < mp.len() ==> polyv_wf(#[trigger] mp[i])
}

impl MultiPolygon {
    pub open spec fn wf(self) -> bool {
        mpv_wf(self@)
    }
}

} // verus!
