//! Unit tests of bounds arithmetic, conversion edge cases, and the
//! fixed-point decimal parser.

use whimsy::convert::{Convert, Coord, LineString, SourceMultiPolygon, SourcePolygon};
use whimsy::decimal::parse_fixed;
use whimsy::geometry::{Point, Rect, COORD_LIMIT};
use whimsy::utils::{aggregate_bounds, point_bounds};

#[test]
fn point_bounds_expands_symmetrically() {
    let p = Point::new(100, 200);
    let r = point_bounds(&p, 5);
    assert_eq!(r, Rect::new(95, 195, 105, 205));
    assert!(r.contains(&p));
}

#[test]
fn point_bounds_negative_buffer_is_inverted() {
    let p = Point::new(0, 0);
    let r = point_bounds(&p, -1);
    assert!(r.x_min > r.x_max);
    // the inverted rectangle contains nothing, not even its center
    assert!(!r.contains(&p));
}

#[test]
fn point_bounds_saturates_at_the_range_edge() {
    let p = Point::new(i64::MAX - 1, 0);
    let r = point_bounds(&p, 10);
    assert_eq!(r.x_max, i64::MAX);
}

#[test]
fn aggregate_bounds_of_empty_is_degenerate() {
    let r = aggregate_bounds(&vec![]);
    assert!(r.x_min > r.x_max);
    assert!(r.y_min > r.y_max);
}

#[test]
fn aggregate_bounds_covers_inputs() {
    let a = Rect::new(0, 0, 10, 10);
    let b = Rect::new(-5, 3, 2, 20);
    let r = aggregate_bounds(&vec![a, b]);
    assert_eq!(r, Rect::new(-5, 0, 10, 20));
}

#[test]
fn contour_preserves_order_and_closing_point() {
    let ring = LineString(vec![
        Coord { x: 0, y: 0 },
        Coord { x: 1, y: 0 },
        Coord { x: 1, y: 1 },
        Coord { x: 0, y: 0 },
    ]);
    let contour = Convert::new(ring).contour();
    assert_eq!(contour.points.len(), 4);
    assert_eq!(contour.points[0], Point::new(0, 0));
    assert_eq!(contour.points[3], Point::new(0, 0));
}

#[test]
fn degenerate_exterior_has_no_bounds() {
    let poly = SourcePolygon {
        exterior: LineString(vec![Coord { x: 0, y: 0 }, Coord { x: 1, y: 1 }]),
        interiors: vec![],
    };
    let (converted, bounds) = Convert::new(poly).bounded_polygon();
    assert_eq!(bounds, None);
    assert_eq!(converted.outer_contour.points.len(), 2);
}

#[test]
fn degenerate_part_is_kept_but_not_aggregated() {
    let good = SourcePolygon {
        exterior: LineString(vec![
            Coord { x: 0, y: 0 },
            Coord { x: 4, y: 0 },
            Coord { x: 4, y: 4 },
        ]),
        interiors: vec![],
    };
    let degenerate = SourcePolygon {
        exterior: LineString(vec![Coord { x: 100, y: 100 }]),
        interiors: vec![],
    };
    let (mp, bounds) = Convert::new(SourceMultiPolygon(vec![good, degenerate]))
        .bounded_multipolygon();
    assert_eq!(mp.parts.len(), 2);
    assert_eq!(bounds, Rect::new(0, 0, 4, 4));
}

#[test]
fn convert_adapter_round_trips_its_value() {
    let c = Convert::new(Coord { x: 7, y: 9 });
    assert_eq!(c.into_inner(), Coord { x: 7, y: 9 });
    let p = Convert::new(Coord { x: 7, y: 9 }).point();
    assert_eq!(p, Point::new(7, 9));
}

#[test]
fn decimal_parses_exact_fixed_point() {
    assert_eq!(parse_fixed("40.0"), Some(40_000_000));
    assert_eq!(parse_fixed("-75.0"), Some(-75_000_000));
    assert_eq!(parse_fixed("0.05"), Some(50_000));
    assert_eq!(parse_fixed("12"), Some(12_000_000));
    assert_eq!(parse_fixed("-0.000001"), Some(-1));
    assert_eq!(parse_fixed("40.123456"), Some(40_123_456));
}

#[test]
fn decimal_rejects_malformed_text() {
    assert_eq!(parse_fixed(""), None);
    assert_eq!(parse_fixed("-"), None);
    assert_eq!(parse_fixed("."), None);
    assert_eq!(parse_fixed("1."), None);
    assert_eq!(parse_fixed(".5"), None);
    assert_eq!(parse_fixed("forty"), None);
    assert_eq!(parse_fixed("1.2.3"), None);
    assert_eq!(parse_fixed("1,5"), None);
    assert_eq!(parse_fixed("1e5"), None);
    // more than six fraction digits cannot be represented exactly
    assert_eq!(parse_fixed("1.2345678"), None);
    // beyond the coordinate range
    assert_eq!(parse_fixed("9999999999999"), None);
}

#[test]
fn decimal_range_edges() {
    // COORD_LIMIT steps is the largest representable magnitude
    let limit_units = COORD_LIMIT / 1_000_000;
    let text = format!("{}", limit_units);
    let parsed = parse_fixed(&text).unwrap();
    assert_eq!(parsed, limit_units * 1_000_000);
}
