//! End-to-end ingestion and query scenarios over the address and
//! parcel pipelines.

use whimsy::addresses::{AddressPoints, Addresses, ADDRESS_BUFFER};
use whimsy::convert::{Coord, LineString, SourceGeometry, SourceMultiPolygon, SourcePolygon};
use whimsy::error::DataError;
use whimsy::geometry::{Point, COORD_SCALE};
use whimsy::parcels::{OwnerRecord, Parcel, ParcelFeature, Parcels};

const HEADER: &str = "FULLADDRES,STATUS,wgs84_y,wgs84_x,espg3857_x,espg3857_y";

fn csv_bytes(rows: &[&str]) -> Vec<u8> {
    let mut text = String::from(HEADER);
    for row in rows {
        text.push('\n');
        text.push_str(row);
    }
    text.into_bytes()
}

fn unit_square_feature(id: Option<&str>) -> ParcelFeature {
    let ring = LineString(vec![
        Coord { x: 0, y: 0 },
        Coord { x: COORD_SCALE, y: 0 },
        Coord { x: COORD_SCALE, y: COORD_SCALE },
        Coord { x: 0, y: COORD_SCALE },
    ]);
    let poly = SourcePolygon { exterior: ring, interiors: vec![] };
    ParcelFeature {
        record: OwnerRecord { name: None, id: id.map(|s| s.to_string()) },
        geometry: Some(SourceGeometry::MultiPolygon(SourceMultiPolygon(vec![poly]))),
    }
}

#[test]
fn address_scenario_proximity_box() {
    let bytes = csv_bytes(&["1 Main St,Current,40.0,-75.0,100.0,200.0"]);
    let (addresses, dropped) = Addresses::from_csv(&bytes).unwrap();
    assert_eq!(dropped, 0);
    assert_eq!(addresses.records.len(), 1);
    let a = &addresses.records[0];
    assert_eq!(a.label, "1 Main St");
    assert_eq!(a.status, "Current");
    assert_eq!(a.lat, 40 * COORD_SCALE);
    assert_eq!(a.lon, -75 * COORD_SCALE);
    assert_eq!(a.x, 100 * COORD_SCALE);
    assert_eq!(a.y, 200 * COORD_SCALE);

    let points = AddressPoints::from(addresses);
    assert_eq!(points.records.len(), 1);
    let p = &points.records[0];
    // [99.95, 199.95, 100.05, 200.05] in map units
    assert_eq!(p.bounds.x_min, 99_950_000);
    assert_eq!(p.bounds.y_min, 199_950_000);
    assert_eq!(p.bounds.x_max, 100_050_000);
    assert_eq!(p.bounds.y_max, 200_050_000);
    assert!(!p.selected);
}

#[test]
fn address_drop_accounting() {
    // three well-formed rows and two malformed rows, interleaved
    let bytes = csv_bytes(&[
        "1 Main St,Current,40.0,-75.0,100.0,200.0",
        "2 Main St,Current,forty,-75.0,100.0,200.0",
        "3 Main St,Retired,40.5,-75.5,101.0,201.0",
        "4 Main St,Current,40.0,-75.0,100.0",
        "5 Main St,Current,41.0,-76.0,102.0,202.0",
    ]);
    let (addresses, dropped) = Addresses::from_csv(&bytes).unwrap();
    assert_eq!(addresses.records.len(), 3);
    assert_eq!(dropped, 2);
    assert_eq!(addresses.records[0].label, "1 Main St");
    assert_eq!(addresses.records[1].label, "3 Main St");
    assert_eq!(addresses.records[2].label, "5 Main St");
}

#[test]
fn address_missing_column_drops_all_rows() {
    let mut text = String::from("FULLADDRES,STATUS,wgs84_y,wgs84_x,espg3857_x");
    text.push('\n');
    text.push_str("1 Main St,Current,40.0,-75.0,100.0");
    let bytes = text.into_bytes();
    let (addresses, dropped) = Addresses::from_csv(&bytes).unwrap();
    assert_eq!(addresses.records.len(), 0);
    assert_eq!(dropped, 1);
}

#[test]
fn address_query_two_step() {
    let bytes = csv_bytes(&["1 Main St,Current,40.0,-75.0,100.0,200.0"]);
    let (addresses, _) = Addresses::from_csv(&bytes).unwrap();
    let points = AddressPoints::from(addresses);
    let p = &points.records[0];
    let center = Point::new(100 * COORD_SCALE, 200 * COORD_SCALE);
    // the distance test is strict, so a zero tolerance admits nothing
    assert!(!p.is_point_inside(&center, 0));
    assert!(p.is_point_inside(&center, 1));
    let near = Point::new(100 * COORD_SCALE + 10_000, 200 * COORD_SCALE);
    assert!(p.is_point_inside(&near, 10_001));
    assert!(!p.is_point_inside(&near, 10_000));
    // far outside the proximity box
    let far = Point::new(101 * COORD_SCALE, 200 * COORD_SCALE);
    assert!(!p.is_point_inside(&far, 50_000));
}

#[test]
fn parcel_scenario_unit_square() {
    let (parcels, dropped) = Parcels::from_features(vec![unit_square_feature(Some("P-1"))]);
    assert_eq!(dropped, 0);
    assert_eq!(parcels.records.len(), 1);
    let p = &parcels.records[0];
    assert_eq!(p.owner.id, "P-1");
    assert_eq!(p.owner.name, None);
    assert_eq!(p.bounds.x_min, 0);
    assert_eq!(p.bounds.y_min, 0);
    assert_eq!(p.bounds.x_max, COORD_SCALE);
    assert_eq!(p.bounds.y_max, COORD_SCALE);
    assert_eq!(p.geometry.parts.len(), 1);
    assert_eq!(p.geometry.parts[0].inner_contours.len(), 0);
    // (0.5, 0.5) at tolerance zero is inside
    let inside = Point::new(COORD_SCALE / 2, COORD_SCALE / 2);
    assert!(p.is_point_inside(&inside, 0));
    // (2, 2) fails already at the bounding-box step
    let outside = Point::new(2 * COORD_SCALE, 2 * COORD_SCALE);
    assert!(!p.bounds.contains(&outside));
    assert!(!p.is_point_inside(&outside, 0));
}

#[test]
fn parcel_missing_id_drop_accounting() {
    let mut features = Vec::new();
    for i in 0..8 {
        if i % 3 == 0 && i < 7 {
            // three valid features at positions 0, 3, 6
            features.push(unit_square_feature(Some("P-1")));
        } else {
            features.push(unit_square_feature(None));
        }
    }
    let (parcels, dropped) = Parcels::from_features(features);
    assert_eq!(parcels.records.len(), 3);
    assert_eq!(dropped, 5);
}

#[test]
fn parcel_read_record_errors() {
    let square = unit_square_feature(Some("P-1"));
    let geometry = match square.geometry {
        Some(g) => g,
        None => unreachable!(),
    };
    // missing identifier
    let r = Parcel::read_record(geometry, OwnerRecord { name: None, id: None });
    assert_eq!(r.unwrap_err(), DataError::MissingId);
    // non-multipolygon geometry
    let line = SourceGeometry::Line(LineString(vec![Coord { x: 0, y: 0 }, Coord { x: 1, y: 1 }]));
    let r = Parcel::read_record(
        line,
        OwnerRecord { name: None, id: Some("P-2".to_string()) },
    );
    assert_eq!(r.unwrap_err(), DataError::NotMultiPolygon);
    // out-of-range coordinate
    let big = SourceGeometry::MultiPolygon(SourceMultiPolygon(vec![SourcePolygon {
        exterior: LineString(vec![
            Coord { x: i64::MAX, y: 0 },
            Coord { x: 1, y: 0 },
            Coord { x: 1, y: 1 },
        ]),
        interiors: vec![],
    }]));
    let r = Parcel::read_record(
        big,
        OwnerRecord { name: None, id: Some("P-3".to_string()) },
    );
    assert_eq!(r.unwrap_err(), DataError::CoordRange);
}

#[test]
fn parcel_hole_is_honored() {
    let outer = LineString(vec![
        Coord { x: 0, y: 0 },
        Coord { x: 10, y: 0 },
        Coord { x: 10, y: 10 },
        Coord { x: 0, y: 10 },
    ]);
    let hole = LineString(vec![
        Coord { x: 4, y: 4 },
        Coord { x: 6, y: 4 },
        Coord { x: 6, y: 6 },
        Coord { x: 4, y: 6 },
    ]);
    let feature = ParcelFeature {
        record: OwnerRecord { name: Some("A".to_string()), id: Some("P-9".to_string()) },
        geometry: Some(SourceGeometry::MultiPolygon(SourceMultiPolygon(vec![SourcePolygon {
            exterior: outer,
            interiors: vec![hole],
        }]))),
    };
    let (parcels, dropped) = Parcels::from_features(vec![feature]);
    assert_eq!(dropped, 0);
    let p = &parcels.records[0];
    // inside the outer ring but not in the hole
    assert!(p.is_point_inside(&Point::new(2, 2), 0));
    // inside the hole
    assert!(!p.is_point_inside(&Point::new(5, 5), 0));
    // outside the outer ring
    assert!(!p.is_point_inside(&Point::new(11, 5), 0));
}

#[test]
fn bounding_containment_of_converted_records() {
    let (parcels, _) = Parcels::from_features(vec![unit_square_feature(Some("P-1"))]);
    let p = &parcels.records[0];
    for part in &p.geometry.parts {
        for v in &part.outer_contour.points {
            assert!(p.bounds.contains(v));
        }
        for ring in &part.inner_contours {
            for v in &ring.points {
                assert!(p.bounds.contains(v));
            }
        }
    }
    let bytes = csv_bytes(&["1 Main St,Current,40.0,-75.0,100.0,200.0"]);
    let (addresses, _) = Addresses::from_csv(&bytes).unwrap();
    let points = AddressPoints::from(addresses);
    let ap = &points.records[0];
    assert!(ap.bounds.contains(&ap.geometry));
}

fn next_random(state: &mut u64) -> u64 {
    *state = state
        .wrapping_mul(6364136223846793005)
        .wrapping_add(1442695040888963407);
    *state
}

#[test]
fn pruning_equivalence_sampled() {
    let (parcels, _) = Parcels::from_features(vec![unit_square_feature(Some("P-1"))]);
    let parcel = &parcels.records[0];
    let bytes = csv_bytes(&["1 Main St,Current,40.0,-75.0,100.0,200.0"]);
    let (addresses, _) = Addresses::from_csv(&bytes).unwrap();
    let points = AddressPoints::from(addresses);
    let ap = &points.records[0];

    let mut state: u64 = 0x5EED;
    for _ in 0..1000 {
        // sample points both inside and far outside the bounding boxes
        let px = (next_random(&mut state) % (4 * COORD_SCALE as u64)) as i64 - 2 * COORD_SCALE;
        let py = (next_random(&mut state) % (4 * COORD_SCALE as u64)) as i64 - 2 * COORD_SCALE;
        let pt = Point::new(px, py);

        // parcels: the exact test ignores the tolerance
        let t = (next_random(&mut state) % (2 * COORD_SCALE as u64)) as i64 - COORD_SCALE;
        let exact = parcel.geometry.is_point_inside(&pt, t);
        assert_eq!(parcel.is_point_inside(&pt, t), exact);

        // address points: tolerances within the proximity buffer
        let qx = 100 * COORD_SCALE + (next_random(&mut state) % 200_000) as i64 - 100_000;
        let qy = 200 * COORD_SCALE + (next_random(&mut state) % 200_000) as i64 - 100_000;
        let q = Point::new(qx, qy);
        let ta = (next_random(&mut state) % (2 * ADDRESS_BUFFER as u64 + 1)) as i64
            - ADDRESS_BUFFER;
        let exact = ap.geometry.is_point_inside(&q, ta);
        assert_eq!(ap.is_point_inside(&q, ta), exact);
    }
}

#[test]
fn multipolygon_order_preserved() {
    let mut polys = Vec::new();
    for i in 0..5i64 {
        polys.push(SourcePolygon {
            exterior: LineString(vec![
                Coord { x: 100 * i, y: 0 },
                Coord { x: 100 * i + 10, y: 0 },
                Coord { x: 100 * i + 10, y: 10 },
            ]),
            interiors: vec![],
        });
    }
    let converted = whimsy::convert::Convert::new(SourceMultiPolygon(polys)).multipolygon();
    assert_eq!(converted.parts.len(), 5);
    for i in 0..5usize {
        assert_eq!(converted.parts[i].outer_contour.points[0].x, 100 * i as i64);
    }
}

#[test]
fn csv_container_failure() {
    // bytes that are not a readable delimited-text table at all
    let bytes = vec![0xFF, 0xFE, 0x00, 0x2C, 0xFF];
    match Addresses::from_csv(&bytes) {
        Err(DataError::Csv) => {}
        other => panic!("expected a container-level failure, got {:?}", other),
    }
}
