//! Conversion from the source geometry vocabulary (rings of raw
//! coordinates, polygons with interior rings, multipolygons) into the
//! engine's cartesian contour/polygon/multipolygon representation,
//! computing axis-aligned bounds as a byproduct where requested.
//!
//! Each conversion preserves order exactly: ring points stay in ring
//! order, interior rings stay behind the exterior ring, and the parts
//! of a multipolygon come out in input order even when they are
//! converted in parallel.

use vstd::prelude::*;
use rayon::iter::{IntoParallelRefIterator, ParallelIterator};
use crate::geometry::{coord_ok, ClosedContour, MultiPolygon, Point, Polygon, PolygonV, Rect, COORD_LIMIT};
use crate::utils::{aggregate_bounds, aggregate_bounds_spec, lemma_aggregate_covers};

verus! {

/// A planar coordinate in the source vocabulary.
#[derive(Debug, Clone, Copy, PartialEq, Eq, Structural)]
pub struct Coord {
    pub x: i64,
    pub y: i64,
}

/// An ordered run of coordinates forming one ring of a source polygon.
#[derive(Debug, PartialEq)]
pub struct LineString(pub Vec<Coord>);

impl View for LineString {
    type V = Seq<Coord>;

    open spec fn view(&self) -> Seq<Coord> {
        self.0@
    }
}

impl Clone for LineString {
    /// Clones the ring, keeping every coordinate.
    fn clone(&self) -> (r: Self)
        ensures
            r@ == self@,
    {
        let coords = self.0.clone();
        proof {
            assert(coords@ =~= self.0@);
        }
        LineString(coords)
    }
}

/// Mathematical model of a source polygon.
#[verifier::ext_equal]
pub struct SourcePolygonV {
    pub exterior: Seq<Coord>,
    pub interiors: Seq<Seq<Coord>>,
}

/// A source polygon: one exterior ring and zero or more interior rings.
#[derive(Debug, PartialEq)]
pub struct SourcePolygon {
    pub exterior: LineString,
    pub interiors: Vec<LineString>,
}

impl View for SourcePolygon {
    type V = SourcePolygonV;

    open spec fn view(&self) -> SourcePolygonV {
        SourcePolygonV {
            exterior: self.exterior@,
            interiors: self.interiors@.map_values(|r: LineString| r@),
        }
    }
}

impl Clone for SourcePolygon {
    /// Clones the polygon, keeping every ring in order.
    fn clone(&self) -> (r: Self)
        ensures
            r@ == self@,
    {
        let exterior = self.exterior.clone();
        let mut interiors: Vec<LineString> = Vec::new();
        let n = self.interiors.len();
        let mut i: usize = 0;
        while i < n
            invariant
                i <= n,
                n == self.interiors@.len(),
                interiors@.map_values(|r: LineString| r@) =~= self.interiors@.take(
                    i as int,
                ).map_values(|r: LineString| r@),
            decreases n - i,
        {
            interiors.push(self.interiors[i].clone());
            proof {
                assert(self.interiors@.take(i + 1 as int) =~= self.interiors@.take(i as int).push(
                    self.interiors@[i as int],
                ));
                assert(self.interiors@.take(i + 1 as int).map_values(|r: LineString| r@) =~=
                self.interiors@.take(i as int).map_values(|r: LineString| r@).push(
                    self.interiors@[i as int]@,
                ));
            }
            i = i + 1;
        }
        proof {
            assert(self.interiors@.take(n as int) =~= self.interiors@);
        }
        let r = SourcePolygon { exterior, interiors };
        proof {
            assert(r@ =~= self@);
        }
        r
    }
}

/// A source multipolygon: an ordered collection of source polygons.
#[derive(Debug, Clone, PartialEq)]
pub struct SourceMultiPolygon(pub Vec<SourcePolygon>);

impl View for SourceMultiPolygon {
    type V = Seq<SourcePolygonV>;

    open spec fn view(&self) -> Seq<SourcePolygonV> {
        self.0@.map_values(|p: SourcePolygon| p@)
    }
}

/// The geometry kinds a source feature can carry. Only multipolygons
/// convert into parcels; the other kinds surface as a recoverable
/// per-record skip.
#[derive(Debug, Clone, PartialEq)]
pub enum SourceGeometry {
    Point(Coord),
    Line(LineString),
    Polygon(SourcePolygon),
    MultiPolygon(SourceMultiPolygon),
}

/// The engine point at a source coordinate.
pub open spec fn point_of(c: Coord) -> Point {
    Point { x: c.x, y: c.y }
}

/// The contour a ring converts to: the same coordinates in the same
/// order.
pub open spec fn contour_of(ring: Seq<Coord>) -> Seq<Point> {
    ring.map_values(|c: Coord| point_of(c))
}

/// The polygon a source polygon converts to.
pub open spec fn polygon_of(p: SourcePolygonV) -> PolygonV {
    PolygonV {
        outer: contour_of(p.exterior),
        inners: p.interiors.map_values(|r: Seq<Coord>| contour_of(r)),
    }
}

/// The multipolygon a source multipolygon converts to, part by part.
pub open spec fn multipolygon_of(mp: Seq<SourcePolygonV>) -> Seq<PolygonV> {
    mp.map_values(|p: SourcePolygonV| polygon_of(p))
}

/// The degenerate rectangle at a single coordinate.
pub open spec fn coord_rect(c: Coord) -> Rect {
    Rect { x_min: c.x, y_min: c.y, x_max: c.x, y_max: c.y }
}

/// Axis-aligned bounds of a raw ring: the aggregation of the
/// single-coordinate rectangles of its points; absent for an empty
/// ring.
pub open spec fn ring_bounds_spec(ring: Seq<Coord>) -> Option<Rect> {
    if ring.len() == 0 {
        None
    } else {
        Some(aggregate_bounds_spec(ring.map_values(|c: Coord| coord_rect(c))))
    }
}

/// Bounds of a source polygon: the bounds of its exterior ring, absent
/// when that ring is degenerate (fewer than three points).
pub open spec fn poly_bounds_spec(p: SourcePolygonV) -> Option<Rect> {
    if p.exterior.len() < 3 {
        None
    } else {
        ring_bounds_spec(p.exterior)
    }
}

/// The present per-part bounds of a source multipolygon, in part order.
pub open spec fn mp_bounds_list(mp: Seq<SourcePolygonV>) -> Seq<Rect>
    decreases mp.len(),
{
    if mp.len() == 0 {
        Seq::empty()
    } else {
        mp_bounds_list(mp.drop_last()) + match poly_bounds_spec(mp.last()) {
            Some(r) => seq![r],
            None => Seq::empty(),
        }
    }
}

/// Bounds of a source multipolygon: the aggregation of the bounds of
/// its non-degenerate parts. Degenerate when no part has bounds.
pub open spec fn mp_bounds_spec(mp: Seq<SourcePolygonV>) -> Rect {
    aggregate_bounds_spec(mp_bounds_list(mp))
}

/// Adapter that carries a source value through a conversion.
#[derive(Debug, Clone)]
pub struct Convert<T>(pub T);

impl<T> Convert<T> {
    pub fn new(from: T) -> (r: Convert<T>)
        ensures
            r.0 == from,
    {
        Convert(from)
    }

    pub fn into_inner(self) -> (r: T)
        ensures
            r == self.0,
    {
        self.0
    }
}

impl Convert<Coord> {
    /// Converts a source coordinate into an engine point.
    pub fn point(self) -> (r: Point)
        ensures
            r == point_of(self.0),
    {
        Point::new(self.0.x, self.0.y)
    }
}

impl Convert<LineString> {
    /// Computes the axis-aligned bounds of the raw ring, or `None` for
    /// an empty ring.
    pub fn bounds(&self) -> (r: Option<Rect>)
        ensures
            r == ring_bounds_spec(self.0@),
    {
        let n = self.0.0.len();
        if n == 0 {
            return None;
        }
        let mut rects: Vec<Rect> = Vec::new();
        let mut i: usize = 0;
        while i < n
            invariant
                i <= n,
                n == self.0.0@.len(),
                rects@ =~= self.0.0@.take(i as int).map_values(|c: Coord| coord_rect(c)),
            decreases n - i,
        {
            let c = self.0.0[i];
            rects.push(Rect::new(c.x, c.y, c.x, c.y));
            proof {
                assert(self.0.0@.take(i + 1 as int) =~= self.0.0@.take(i as int).push(
                    self.0.0@[i as int],
                ));
            }
            i = i + 1;
        }
        proof {
            assert(self.0.0@.take(n as int) =~= self.0.0@);
        }
        Some(aggregate_bounds(&rects))
    }

    /// Converts the ring into a closed contour of engine points,
    /// preserving point order and keeping a repeated closing point if
    /// the source carries one.
    pub fn contour(self) -> (r: ClosedContour)
        ensures
            r@ == contour_of(self.0@),
    {
        let n = self.0.0.len();
        let mut points: Vec<Point> = Vec::new();
        let mut i: usize = 0;
        while i < n
            invariant
                i <= n,
                n == self.0.0@.len(),
                points@ =~= self.0.0@.take(i as int).map_values(|c: Coord| point_of(c)),
            decreases n - i,
        {
            let c = self.0.0[i];
            points.push(Convert::new(c).point());
            proof {
                assert(self.0.0@.take(i + 1 as int) =~= self.0.0@.take(i as int).push(
                    self.0.0@[i as int],
                ));
            }
            i = i + 1;
        }
        proof {
            assert(self.0.0@.take(n as int) =~= self.0.0@);
        }
        ClosedContour::new(points)
    }

    /// Converts the ring point by point; the result agrees with
    /// [`Convert::contour`], which it delegates to.
    pub fn contour_point(self) -> (r: ClosedContour)
        ensures
            r@ == contour_of(self.0@),
    {
        self.contour()
    }
}

impl Convert<SourcePolygon> {
    /// Converts a source polygon: the exterior ring first, then every
    /// interior ring, each preserved in order.
    pub fn polygon(self) -> (r: Polygon)
        ensures
            r@ == polygon_of(self.0@),
    {
        let SourcePolygon { exterior, interiors } = self.0;
        let ghost interiors_view = interiors@;
        let outer = Convert::new(exterior).contour();
        let mut inner: Vec<ClosedContour> = Vec::new();
        let n = interiors.len();
        let mut i: usize = 0;
        while i < n
            invariant
                i <= n,
                n == interiors@.len(),
                interiors@ == interiors_view,
                inner@.map_values(|c: ClosedContour| c@) =~= interiors_view.take(
                    i as int,
                ).map_values(|r: LineString| r@).map_values(|r: Seq<Coord>| contour_of(r)),
            decreases n - i,
        {
            let ring = interiors[i].clone();
            proof {
                assert(ring@ == interiors_view[i as int]@);
            }
            inner.push(Convert::new(ring).contour());
            proof {
                assert(interiors_view.take(i + 1 as int) =~= interiors_view.take(i as int).push(
                    interiors_view[i as int],
                ));
                assert(interiors_view.take(i + 1 as int).map_values(|r: LineString| r@) =~=
                interiors_view.take(i as int).map_values(|r: LineString| r@).push(
                    interiors_view[i as int]@,
                ));
                assert(interiors_view.take(i + 1 as int).map_values(|r: LineString| r@).map_values(
                    |r: Seq<Coord>| contour_of(r),
                ) =~= interiors_view.take(i as int).map_values(|r: LineString| r@).map_values(
                    |r: Seq<Coord>| contour_of(r),
                ).push(contour_of(interiors_view[i as int]@)));
            }
            i = i + 1;
        }
        let poly = Polygon { outer_contour: outer, inner_contours: inner };
        proof {
            assert(interiors_view.take(n as int) =~= interiors_view);
            assert(poly@ =~= polygon_of(
                SourcePolygonV {
                    exterior: exterior@,
                    interiors: interiors_view.map_values(|r: LineString| r@),
                },
            ));
        }
        poly
    }

    /// Converts a source polygon and computes the bounds of its
    /// exterior ring; the bounds are absent when the exterior ring is
    /// degenerate, but the polygon conversion still succeeds.
    pub fn bounded_polygon(self) -> (r: (Polygon, Option<Rect>))
        ensures
            r.0@ == polygon_of(self.0@),
            r.1 == poly_bounds_spec(self.0@),
    {
        if self.0.exterior.0.len() < 3 {
            (self.polygon(), None)
        } else {
            let bounds = Convert::new(self.0.exterior.clone()).bounds();
            (self.polygon(), bounds)
        }
    }
}

/// Relies on rayon's parallel iterator: `par_iter().map(..).collect()`
/// reassembles the mapped results in input order, so each output
/// polygon is the conversion of the source polygon at the same
/// position. The closure only clones an element and calls the verified
/// polygon conversion.
#[verifier::external_body]
fn par_convert_polygons(items: &Vec<SourcePolygon>) -> (r: Vec<Polygon>)
    ensures
        r@.len() == items@.len(),
        forall|i: int| 0 <= i < items@.len() ==> (#[trigger] r@[i])@ == polygon_of(items@[i]@),
{
    items.par_iter().map(|v| Convert::new(v.clone()).polygon()).collect()
}

impl Convert<SourceMultiPolygon> {
    /// Converts every constituent polygon independently and in
    /// parallel; the result holds exactly one part per source polygon,
    /// in source order.
    pub fn multipolygon(self) -> (r: MultiPolygon)
        ensures
            r@ == multipolygon_of(self.0@),
    {
        let parts = par_convert_polygons(&self.0.0);
        let mp = MultiPolygon { parts };
        proof {
            assert(mp@ =~= multipolygon_of(self.0@));
        }
        mp
    }

    /// Converts every constituent polygon and aggregates the bounds of
    /// the non-degenerate parts; a degenerate part is excluded from the
    /// aggregation but still present in the output.
    pub fn bounded_multipolygon(self) -> (r: (MultiPolygon, Rect))
        ensures
            r.0@ == multipolygon_of(self.0@),
            r.1 == mp_bounds_spec(self.0@),
    {
        let polys = self.0.0;
        let ghost polys_view = polys@;
        let mut parts: Vec<Polygon> = Vec::new();
        let mut boundaries: Vec<Rect> = Vec::new();
        let n = polys.len();
        let mut i: usize = 0;
        while i < n
            invariant
                i <= n,
                n == polys@.len(),
                polys@ == polys_view,
                parts@.map_values(|p: Polygon| p@) =~= multipolygon_of(
                    polys_view.take(i as int).map_values(|p: SourcePolygon| p@),
                ),
                boundaries@ =~= mp_bounds_list(
                    polys_view.take(i as int).map_values(|p: SourcePolygon| p@),
                ),
            decreases n - i,
        {
            let poly = polys[i].clone();
            proof {
                assert(poly@ == polys_view[i as int]@);
            }
            let (part, bounds) = Convert::new(poly).bounded_polygon();
            parts.push(part);
            match bounds {
                Some(rect) => {
                    boundaries.push(rect);
                },
                None => {},
            }
            proof {
                let prefix = polys_view.take(i as int).map_values(|p: SourcePolygon| p@);
                let next = polys_view.take(i + 1 as int).map_values(|p: SourcePolygon| p@);
                assert(polys_view.take(i + 1 as int) =~= polys_view.take(i as int).push(
                    polys_view[i as int],
                ));
                assert(next =~= prefix.push(polys_view[i as int]@));
                assert(next.drop_last() =~= prefix);
                assert(next.last() == polys_view[i as int]@);
                assert(multipolygon_of(next) =~= multipolygon_of(prefix).push(
                    polygon_of(polys_view[i as int]@),
                ));
            }
            i = i + 1;
        }
        proof {
            assert(polys_view.take(n as int) =~= polys_view);
        }
        let bounds = aggregate_bounds(&boundaries);
        let mp = MultiPolygon { parts };
        proof {
            assert(mp@ =~= multipolygon_of(polys_view.map_values(|p: SourcePolygon| p@)));
        }
        (mp, bounds)
    }
}

/// Every coordinate of a raw ring lies in the engine's working range.
pub open spec fn ring_coords_ok(ring: Seq<Coord>) -> bool {
    forall|k: int|
        0 <= k < ring.len() ==> coord_ok((#[trigger] ring[k]).x) && coord_ok(ring[k].y)
}

/// Every ring of a source polygon lies in the engine's working range.
pub open spec fn spoly_wf(p: SourcePolygonV) -> bool {
    &&& ring_coords_ok(p.exterior)
    &&& forall|j: int| 0 <= j < p.interiors.len() ==> ring_coords_ok(#[trigger] p.interiors[j])
}

/// Every polygon of a source multipolygon lies in the engine's working
/// range.
pub open spec fn smp_wf(mp: Seq<SourcePolygonV>) -> bool {
    forall|i: int| 0 <= i < mp.len() ==> spoly_wf(#[trigger] mp[i])
}

/// Decides whether every coordinate of a raw ring lies in the engine's
/// working range.
pub fn check_ring_coords(ring: &LineString) -> (r: bool)
    ensures
        r == ring_coords_ok(ring@),
{
    let n = ring.0.len();
    let mut i: usize = 0;
    while i < n
        invariant
            i <= n,
            n == ring.0@.len(),
            forall|k: int|
                0 <= k < i ==> coord_ok((#[trigger] ring.0@[k]).x) && coord_ok(ring.0@[k].y),
        decreases n - i,
    {
        let c = ring.0[i];
        if c.x < -COORD_LIMIT || c.x > COORD_LIMIT || c.y < -COORD_LIMIT || c.y > COORD_LIMIT {
            return false;
        }
        i = i + 1;
    }
    true
}

/// Decides whether every ring of a source polygon lies in the engine's
/// working range.
pub fn check_polygon_coords(poly: &SourcePolygon) -> (r: bool)
    ensures
        r == spoly_wf(poly@),
{
    if !check_ring_coords(&poly.exterior) {
        return false;
    }
    let n = poly.interiors.len();
    let mut j: usize = 0;
    while j < n
        invariant
            j <= n,
            n == poly.interiors@.len(),
            ring_coords_ok(poly.exterior@),
            forall|k: int| 0 <= k < j ==> ring_coords_ok((#[trigger] poly.interiors@[k])@),
        decreases n - j,
    {
        if !check_ring_coords(&poly.interiors[j]) {
            proof {
                assert(!ring_coords_ok(poly@.interiors[j as int]));
            }
            return false;
        }
        j = j + 1;
    }
    proof {
        assert forall|k: int| 0 <= k < poly@.interiors.len() implies ring_coords_ok(
            #[trigger] poly@.interiors[k],
        ) by {
            assert(poly@.interiors[k] == poly.interiors@[k]@);
        }
    }
    true
}

/// Decides whether every coordinate of a source multipolygon lies in
/// the engine's working range.
pub fn check_multipolygon_coords(mp: &SourceMultiPolygon) -> (r: bool)
    ensures
        r == smp_wf(mp@),
{
    let n = mp.0.len();
    let mut i: usize = 0;
    while i < n
        invariant
            i <= n,
            n == mp.0@.len(),
            forall|k: int| 0 <= k < i ==> spoly_wf((#[trigger] mp.0@[k])@),
        decreases n - i,
    {
        if !check_polygon_coords(&mp.0[i]) {
            proof {
                assert(!spoly_wf(mp@[i as int]));
            }
            return false;
        }
        i = i + 1;
    }
    proof {
        assert forall|k: int| 0 <= k < mp@.len() implies spoly_wf(#[trigger] mp@[k]) by {
            assert(mp@[k] == mp.0@[k]@);
        }
    }
    true
}

/// Conversion carries well-formed coordinates through: the converted
/// multipolygon of an in-range source multipolygon is in range.
pub proof fn lemma_multipolygon_of_wf(src: Seq<SourcePolygonV>)
    requires
        smp_wf(src),
    ensures
        crate::geometry::mpv_wf(multipolygon_of(src)),
{
    let out = multipolygon_of(src);
    assert forall|i: int| 0 <= i < out.len() implies crate::geometry::polyv_wf(
        #[trigger] out[i],
    ) by {
        assert(spoly_wf(src[i]));
        assert(out[i] == polygon_of(src[i]));
        assert forall|k: int| 0 <= k < out[i].outer.len() implies (
        #[trigger] out[i].outer[k]).wf() by {
            assert(out[i].outer[k] == point_of(src[i].exterior[k]));
            assert(coord_ok(src[i].exterior[k].x) && coord_ok(src[i].exterior[k].y));
        }
        assert forall|j: int| 0 <= j < out[i].inners.len() implies crate::geometry::points_wf(
            #[trigger] out[i].inners[j],
        ) by {
            assert(ring_coords_ok(src[i].interiors[j]));
            assert(out[i].inners[j] == contour_of(src[i].interiors[j]));
            assert forall|k: int| 0 <= k < out[i].inners[j].len() implies (
            #[trigger] out[i].inners[j][k]).wf() by {
                assert(out[i].inners[j][k] == point_of(src[i].interiors[j][k]));
                assert(coord_ok(src[i].interiors[j][k].x) && coord_ok(src[i].interiors[j][k].y));
            }
        }
    }
}

/// The aggregated bounds of a source multipolygon cover the bounds of
/// each non-degenerate part.
pub proof fn lemma_mp_bounds_cover_rect(mp: Seq<SourcePolygonV>, i: int)
    requires
        0 <= i < mp.len(),
        poly_bounds_spec(mp[i]) is Some,
    ensures
        mp_bounds_spec(mp).covers(poly_bounds_spec(mp[i])->0),
    decreases mp.len(),
{
    let rect = poly_bounds_spec(mp[i])->0;
    let full = mp_bounds_list(mp);
    if i == mp.len() - 1 {
        assert(full.drop_last() =~= mp_bounds_list(mp.drop_last()));
        assert(full.last() == rect);
        lemma_aggregate_covers(full, full.len() - 1);
    } else {
        lemma_mp_bounds_cover_rect(mp.drop_last(), i);
        let prefix = mp_bounds_list(mp.drop_last());
        let tail = match poly_bounds_spec(mp.last()) {
            Some(r) => seq![r],
            None => Seq::<Rect>::empty(),
        };
        assert(full =~= prefix + tail);
        crate::utils::lemma_aggregate_append(prefix, tail);
    }
}

/// A hole vertex that lies within its polygon's exterior-ring bounds
/// (the usual validity convention for holes) also lies within the
/// aggregated bounds of the whole multipolygon.
pub proof fn lemma_hole_within_bounds(mp: Seq<SourcePolygonV>, i: int, j: int, k: int)
    requires
        0 <= i < mp.len(),
        poly_bounds_spec(mp[i]) is Some,
        0 <= j < mp[i].interiors.len(),
        0 <= k < mp[i].interiors[j].len(),
        (poly_bounds_spec(mp[i])->0).contains_spec(point_of(mp[i].interiors[j][k])),
    ensures
        mp_bounds_spec(mp).contains_spec(point_of(mp[i].interiors[j][k])),
{
    lemma_mp_bounds_cover_rect(mp, i);
}

/// Every vertex of a raw ring lies within the ring's own axis-aligned
/// bounds.
pub proof fn lemma_ring_bounds_cover(ring: Seq<Coord>, k: int)
    requires
        0 <= k < ring.len(),
    ensures
        ring_bounds_spec(ring) matches Some(r) && r.contains_spec(point_of(ring[k])),
{
    let rects = ring.map_values(|c: Coord| coord_rect(c));
    lemma_aggregate_covers(rects, k);
}

} // verus!
