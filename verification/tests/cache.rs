//! Round trips and failure modes of the binary cache.

use whimsy::addresses::{AddressPoints, Addresses};
use whimsy::convert::{Coord, LineString, SourceGeometry, SourceMultiPolygon, SourcePolygon};
use whimsy::error::DataError;
use whimsy::parcels::{OwnerRecord, ParcelFeature, Parcels};

fn sample_addresses() -> Addresses {
    let text = "FULLADDRES,STATUS,wgs84_y,wgs84_x,espg3857_x,espg3857_y\n\
        1 Main St,Current,40.0,-75.0,100.0,200.0\n\
        2 Oak Ave,Retired,40.123456,-75.654321,101.5,202.25";
    let bytes = text.as_bytes().to_vec();
    let (addresses, dropped) = Addresses::from_csv(&bytes).unwrap();
    assert_eq!(dropped, 0);
    addresses
}

fn sample_parcels() -> Parcels {
    let outer = LineString(vec![
        Coord { x: 0, y: 0 },
        Coord { x: 1_000_000, y: 0 },
        Coord { x: 1_000_000, y: 1_000_000 },
        Coord { x: 0, y: 1_000_000 },
    ]);
    let hole = LineString(vec![
        Coord { x: 400_000, y: 400_000 },
        Coord { x: 600_000, y: 400_000 },
        Coord { x: 600_000, y: 600_000 },
    ]);
    let features = vec![
        ParcelFeature {
            record: OwnerRecord { name: Some("Ada".to_string()), id: Some("P-1".to_string()) },
            geometry: Some(SourceGeometry::MultiPolygon(SourceMultiPolygon(vec![SourcePolygon {
                exterior: outer,
                interiors: vec![hole],
            }]))),
        },
        ParcelFeature {
            record: OwnerRecord { name: None, id: Some("P-2".to_string()) },
            geometry: Some(SourceGeometry::MultiPolygon(SourceMultiPolygon(vec![SourcePolygon {
                exterior: LineString(vec![
                    Coord { x: -5, y: -5 },
                    Coord { x: 5, y: -5 },
                    Coord { x: 0, y: 5 },
                ]),
                interiors: vec![],
            }]))),
        },
    ];
    let (parcels, dropped) = Parcels::from_features(features);
    assert_eq!(dropped, 0);
    parcels
}

#[test]
fn addresses_round_trip() {
    let addresses = sample_addresses();
    let bytes = addresses.save();
    let loaded = Addresses::load(&bytes).unwrap();
    assert_eq!(loaded, addresses);
}

#[test]
fn address_points_round_trip() {
    let points = AddressPoints::from(sample_addresses());
    let bytes = points.save();
    let loaded = AddressPoints::load(&bytes).unwrap();
    assert_eq!(loaded, points);
}

#[test]
fn parcels_round_trip() {
    let parcels = sample_parcels();
    let bytes = parcels.save();
    let loaded = Parcels::load(&bytes).unwrap();
    assert_eq!(loaded, parcels);
}

#[test]
fn truncated_cache_is_rejected() {
    let parcels = sample_parcels();
    let mut bytes = parcels.save();
    bytes.truncate(bytes.len() - 1);
    assert_eq!(Parcels::load(&bytes).unwrap_err(), DataError::Decode);
}

#[test]
fn trailing_bytes_are_rejected() {
    let parcels = sample_parcels();
    let mut bytes = parcels.save();
    bytes.push(0);
    assert_eq!(Parcels::load(&bytes).unwrap_err(), DataError::Decode);
}

#[test]
fn wrong_kind_is_rejected() {
    let addresses = sample_addresses();
    let bytes = addresses.save();
    // an address cache is not a parcel cache
    assert_eq!(Parcels::load(&bytes).unwrap_err(), DataError::Decode);
}

#[test]
fn version_mismatch_is_rejected() {
    let addresses = sample_addresses();
    let mut bytes = addresses.save();
    bytes[1] = bytes[1].wrapping_add(1);
    assert_eq!(Addresses::load(&bytes).unwrap_err(), DataError::Decode);
}

#[test]
fn empty_collection_round_trip() {
    let empty = Parcels { records: vec![] };
    let bytes = empty.save();
    let loaded = Parcels::load(&bytes).unwrap();
    assert_eq!(loaded.records.len(), 0);
}
