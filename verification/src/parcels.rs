//! Parcel records: an owner coupled with a converted multipolygon
//! geometry and its precomputed bounding rectangle, plus batch
//! ingestion of raw parcel features with per-record drop accounting.

use vstd::prelude::*;
use crate::convert::{
    check_multipolygon_coords, lemma_mp_bounds_cover_rect, lemma_multipolygon_of_wf,
    lemma_ring_bounds_cover, mp_bounds_spec, multipolygon_of, point_of, poly_bounds_spec, smp_wf,
    Convert, SourceGeometry,
};
use crate::error::DataError;
use crate::geometry::{mpv_wf, MultiPolygon, Point, PolygonV, Rect};
use crate::winding::{lemma_mp_outside, mp_contains};

verus! {

/// The raw attribute values a parcel feature carries: an optional owner
/// name and the map identifier, which may be absent in malformed data.
#[derive(Debug, Clone, PartialEq)]
pub struct OwnerRecord {
    pub name: Option<String>,
    pub id: Option<String>,
}

/// Mathematical model of an ownership record.
#[verifier::ext_equal]
pub struct OwnerV {
    pub name: Option<Seq<char>>,
    pub id: Seq<char>,
}

/// A parcel ownership record: an optional name and the mandatory
/// parcel/map identifier.
#[derive(Debug, Clone, PartialEq)]
pub struct Owner {
    pub name: Option<String>,
    pub id: String,
}

/// The view of an optional string.
pub open spec fn opt_view(o: Option<String>) -> Option<Seq<char>> {
    match o {
        Some(s) => Some(s@),
        None => None,
    }
}

impl View for Owner {
    type V = OwnerV;

    open spec fn view(&self) -> OwnerV {
        OwnerV { name: opt_view(self.name), id: self.id@ }
    }
}

impl Owner {
    /// Builds an owner from raw attribute values. The identifier is
    /// mandatory: a record without it fails, a record without a name
    /// does not.
    pub fn from_record(record: OwnerRecord) -> (r: Result<Owner, DataError>)
        ensures
            record.id is Some ==> (r matches Ok(o) && o.name == record.name && o.id
                == record.id->0),
            record.id is None ==> r == Err::<Owner, DataError>(DataError::MissingId),
    {
        match record.id {
            Some(id) => Ok(Owner { name: record.name, id }),
            None => Err(DataError::MissingId),
        }
    }
}

/// Mathematical model of a parcel.
#[verifier::ext_equal]
pub struct ParcelV {
    pub owner: OwnerV,
    pub geometry: Seq<PolygonV>,
    pub bounds: Rect,
    pub selected: bool,
}

/// A parcel: one ownership record, a converted multipolygon geometry,
/// the bounding rectangle of its non-degenerate parts, and a selection
/// flag owned by the display layer.
#[derive(Debug, Clone, PartialEq)]
pub struct Parcel {
    pub owner: Owner,
    pub geometry: MultiPolygon,
    pub bounds: Rect,
    pub selected: bool,
}

impl View for Parcel {
    type V = ParcelV;

    open spec fn view(&self) -> ParcelV {
        ParcelV {
            owner: self.owner@,
            geometry: self.geometry@,
            bounds: self.bounds,
            selected: self.selected,
        }
    }
}

impl Parcel {
    /// The geometry lies in the engine's working range.
    pub open spec fn wf(self) -> bool {
        mpv_wf(self@.geometry)
    }

    /// The bounding rectangle holds every vertex of every outer ring
    /// with at least three points. Conversion establishes this, and the
    /// bounding-box pruning step of the query is sound because of it.
    pub open spec fn bounds_cover(self) -> bool {
        forall|i: int, k: int|
            0 <= i < self@.geometry.len() && 3 <= (#[trigger] self@.geometry[i].outer).len() && 0
                <= k < self@.geometry[i].outer.len() ==> self.bounds.contains_spec(
                #[trigger] self@.geometry[i].outer[k],
            )
    }

    /// Reads one parcel record: the attribute values must carry the map
    /// identifier, the geometry must be a multipolygon, and every
    /// coordinate must be in the engine's working range. The geometry
    /// is converted with bounds, and the parcel starts unselected.
    pub fn read_record(geo: SourceGeometry, record: OwnerRecord) -> (r: Result<Parcel, DataError>)
        ensures
            record.id is None ==> r == Err::<Parcel, DataError>(DataError::MissingId),
            record.id is Some && !(geo is MultiPolygon) ==> r == Err::<Parcel, DataError>(
                DataError::NotMultiPolygon,
            ),
            record.id is Some && geo is MultiPolygon && !smp_wf(geo->MultiPolygon_0@) ==> r
                == Err::<Parcel, DataError>(DataError::CoordRange),
            record.id is Some && geo is MultiPolygon && smp_wf(geo->MultiPolygon_0@) ==> (r
                matches Ok(p) && p@ == (ParcelV {
                owner: OwnerV { name: opt_view(record.name), id: record.id->0@ },
                geometry: multipolygon_of(geo->MultiPolygon_0@),
                bounds: mp_bounds_spec(geo->MultiPolygon_0@),
                selected: false,
            }) && p.wf() && p.bounds_cover()),
    {
        let owner = match Owner::from_record(record) {
            Ok(o) => o,
            Err(e) => {
                return Err(e);
            },
        };
        match geo {
            SourceGeometry::MultiPolygon(polys) => {
                if !check_multipolygon_coords(&polys) {
                    return Err(DataError::CoordRange);
                }
                let ghost src = polys@;
                let (geometry, bounds) = Convert::new(polys).bounded_multipolygon();
                let parcel = Parcel { owner, geometry, bounds, selected: false };
                proof {
                    lemma_multipolygon_of_wf(src);
                    lemma_parcel_bounds_cover(src, parcel.bounds, parcel@.geometry);
                    assert(parcel@ =~= (ParcelV {
                        owner: OwnerV { name: opt_view(record.name), id: record.id->0@ },
                        geometry: multipolygon_of(src),
                        bounds: mp_bounds_spec(src),
                        selected: false,
                    }));
                }
                Ok(parcel)
            },
            _ => Err(DataError::NotMultiPolygon),
        }
    }

    /// Decides whether `point` lies within `tolerance` of the parcel:
    /// first the inclusive bounding-rectangle test, and only when that
    /// passes the exact point-in-multipolygon test.
    pub fn is_point_inside(&self, point: &Point, tolerance: i64) -> (r: bool)
        requires
            self.wf(),
            point.wf(),
        ensures
            r == (self.bounds.contains_spec(*point) && mp_contains(self@.geometry, *point)),
            self.bounds_cover() ==> r == mp_contains(self@.geometry, *point),
    {
        proof {
            if self.bounds_cover() {
                lemma_parcel_pruning(*self, *point, tolerance);
            }
        }
        if !self.bounds.contains(point) {
            return false;
        }
        self.geometry.is_point_inside(point, tolerance)
    }

    /// The precomputed bounding rectangle of the parcel.
    pub fn bounding_rectangle(&self) -> (r: Option<Rect>)
        ensures
            r == Some(self.bounds),
    {
        Some(self.bounds)
    }
}

/// The bounds computed by conversion hold every vertex of every outer
/// ring with at least three points.
proof fn lemma_parcel_bounds_cover(
    src: Seq<crate::convert::SourcePolygonV>,
    bounds: Rect,
    geometry: Seq<PolygonV>,
)
    requires
        bounds == mp_bounds_spec(src),
        geometry == multipolygon_of(src),
    ensures
        forall|i: int, k: int|
            0 <= i < geometry.len() && 3 <= (#[trigger] geometry[i].outer).len() && 0 <= k
                < geometry[i].outer.len() ==> bounds.contains_spec(#[trigger] geometry[i].outer[k]),
{
    assert forall|i: int, k: int|
        0 <= i < geometry.len() && 3 <= (#[trigger] geometry[i].outer).len() && 0 <= k
            < geometry[i].outer.len() implies bounds.contains_spec(
        #[trigger] geometry[i].outer[k],
    ) by {
        assert(geometry[i] == crate::convert::polygon_of(src[i]));
        assert(geometry[i].outer == crate::convert::contour_of(src[i].exterior));
        assert(geometry[i].outer[k] == point_of(src[i].exterior[k]));
        lemma_ring_bounds_cover(src[i].exterior, k);
        assert(poly_bounds_spec(src[i]) is Some);
        lemma_mp_bounds_cover_rect(src, i);
    }
}

/// Pruning equivalence: for every parcel whose bounds cover its outer
/// rings, every query point and every tolerance, the two-step query
/// (bounding rectangle first, then the exact point-in-multipolygon
/// test) answers exactly as the exact test alone.
pub proof fn lemma_parcel_pruning(p: Parcel, point: Point, tolerance: i64)
    requires
        p.bounds_cover(),
    ensures
        (p.bounds.contains_spec(point) && mp_contains(p@.geometry, point)) == mp_contains(
            p@.geometry,
            point,
        ),
{
    if !p.bounds.contains_spec(point) {
        lemma_mp_outside(p@.geometry, point, p.bounds);
    }
}

/// An ordered collection of parcels, in source-file feature order.
#[derive(Debug, PartialEq)]
pub struct Parcels {
    pub records: Vec<Parcel>,
}

impl View for Parcels {
    type V = Seq<ParcelV>;

    open spec fn view(&self) -> Seq<ParcelV> {
        self.records@.map_values(|p: Parcel| p@)
    }
}

/// One raw feature of a parcel source: attribute values and an
/// optional geometry, both as plain values.
#[derive(Debug, PartialEq)]
pub struct ParcelFeature {
    pub record: OwnerRecord,
    pub geometry: Option<SourceGeometry>,
}

/// A feature converts into a parcel exactly when it carries the map
/// identifier and an in-range multipolygon geometry.
pub open spec fn feature_ok(f: ParcelFeature) -> bool {
    &&& f.record.id is Some
    &&& f.geometry matches Some(SourceGeometry::MultiPolygon(mp)) && smp_wf(mp@)
}

/// The parcel a well-formed feature converts to.
pub open spec fn parcel_of(f: ParcelFeature) -> ParcelV {
    match (f.geometry, f.record.id) {
        (Some(SourceGeometry::MultiPolygon(mp)), Some(id)) => ParcelV {
            owner: OwnerV { name: opt_view(f.record.name), id: id@ },
            geometry: multipolygon_of(mp@),
            bounds: mp_bounds_spec(mp@),
            selected: false,
        },
        _ => arbitrary(),
    }
}

/// The parcels of a feature run, in input order, well-formed features
/// only.
pub open spec fn parcels_of(s: Seq<ParcelFeature>) -> Seq<ParcelV>
    decreases s.len(),
{
    if s.len() == 0 {
        Seq::empty()
    } else {
        parcels_of(s.drop_last()) + if feature_ok(s.last()) {
            seq![parcel_of(s.last())]
        } else {
            Seq::<ParcelV>::empty()
        }
    }
}

impl Parcels {
    /// Converts a run of raw features into parcels, in input order. A
    /// feature that lacks the mandatory identifier, carries no
    /// multipolygon geometry, or holds an out-of-range coordinate is
    /// dropped; the second result is the exact count of drops.
    pub fn from_features(features: Vec<ParcelFeature>) -> (r: (Parcels, usize))
        ensures
            r.0@ == parcels_of(features@),
            r.1 + r.0@.len() == features@.len(),
            forall|i: int|
                0 <= i < r.0.records@.len() ==> (#[trigger] r.0.records@[i]).wf()
                    && r.0.records@[i].bounds_cover(),
    {
        let ghost all = features@;
        let total = features.len();
        let mut features = features;
        let mut records: Vec<Parcel> = Vec::new();
        let mut dropped: usize = 0;
        let ghost mut seen: int = 0;
        while features.len() > 0
            invariant
                0 <= seen <= all.len(),
                all.len() == total as int,
                features@ =~= all.skip(seen),
                records@.map_values(|p: Parcel| p@) =~= parcels_of(all.take(seen)),
                dropped + records@.len() == seen,
                forall|i: int|
                    0 <= i < records@.len() ==> (#[trigger] records@[i]).wf()
                        && records@[i].bounds_cover(),
            decreases features@.len(),
        {
            let f = features.remove(0);
            proof {
                assert(f == all[seen]);
                assert(all.take(seen + 1).drop_last() =~= all.take(seen));
                assert(all.take(seen + 1).last() == all[seen]);
                assert(features@ =~= all.skip(seen + 1));
            }
            let ParcelFeature { record, geometry } = f;
            let outcome = match geometry {
                Some(geo) => Parcel::read_record(geo, record),
                None => Err(DataError::NotMultiPolygon),
            };
            match outcome {
                Ok(parcel) => {
                    proof {
                        assert(feature_ok(all[seen]));
                        assert(parcel@ == parcel_of(all[seen]));
                        assert(parcels_of(all.take(seen + 1)) =~= parcels_of(all.take(seen)).push(
                            parcel_of(all[seen]),
                        ));
                    }
                    records.push(parcel);
                },
                Err(_) => {
                    proof {
                        assert(dropped < total);
                        assert(!feature_ok(all[seen]));
                        assert(parcels_of(all.take(seen + 1)) =~= parcels_of(all.take(seen)));
                    }
                    dropped = dropped + 1;
                },
            }
            proof {
                seen = seen + 1;
            }
        }
        proof {
            assert(all.take(seen) =~= all);
        }
        (Parcels { records }, dropped)
    }
}

} // verus!
