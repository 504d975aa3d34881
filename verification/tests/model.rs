use booleanop::bbox::BoundingBox;
use booleanop::connector::find_enclosing_shell;
use booleanop::geometry::{Coord, MultiPolygon, Polygon, Ring, COORD_LIMIT};
use booleanop::validate::{validate, RingId, ValidationError};

fn xy(x: i64, y: i64) -> Coord {
    Coord { x, y }
}

fn ring_of(pts: &[(i64, i64)]) -> Ring {
    Ring { points: pts.iter().map(|&(x, y)| Coord { x, y }).collect() }
}

fn poly_of(pts: &[(i64, i64)]) -> Polygon {
    Polygon { exterior: ring_of(pts), interiors: Vec::new() }
}

fn square(x0: i64, y0: i64, side: i64) -> Polygon {
    poly_of(&[(x0, y0), (x0 + side, y0), (x0 + side, y0 + side), (x0, y0 + side), (x0, y0)])
}

#[test]
fn bounding_box_width_height() {
    let b = BoundingBox { min: xy(-1, 2), max: xy(4, 9) };
    assert_eq!(b.width(), 5);
    assert_eq!(b.height(), 7);
}

#[test]
fn bounding_box_overlap_symmetry() {
    let a = BoundingBox { min: xy(0, 0), max: xy(2, 2) };
    let b = BoundingBox { min: xy(1, 1), max: xy(3, 3) };
    let c = BoundingBox { min: xy(5, 5), max: xy(6, 6) };
    assert!(a.overlaps(b));
    assert!(b.overlaps(a));
    assert!(!a.overlaps(c));
    assert!(!c.overlaps(a));
    // Boxes touching along an edge still overlap.
    let d = BoundingBox { min: xy(2, 0), max: xy(4, 2) };
    assert!(a.overlaps(d));
}

#[test]
fn ring_bounding_box_covers_points() {
    let r = ring_of(&[(0, 0), (2, 0), (2, 2), (0, 2), (0, 0)]);
    let b = r.bounding_box();
    assert_eq!(b.min, xy(0, 0));
    assert_eq!(b.max, xy(2, 2));
}

#[test]
fn multipolygon_bounding_box_merges() {
    let mp = MultiPolygon { polygons: vec![square(0, 0, 2), square(10, -3, 2)] };
    let b = mp.bounding_box().unwrap();
    assert_eq!(b.min, xy(0, -3));
    assert_eq!(b.max, xy(12, 2));
    let empty = MultiPolygon { polygons: Vec::new() };
    assert!(empty.bounding_box().is_none());
}

#[test]
fn validate_accepts_unit_square() {
    let mp = MultiPolygon { polygons: vec![square(0, 0, 2)] };
    assert!(validate(&mp).is_ok());
}

#[test]
fn validate_rejects_too_few_points() {
    let mp = MultiPolygon { polygons: vec![poly_of(&[(0, 0), (1, 0), (0, 0)])] };
    assert_eq!(
        validate(&mp),
        Err(ValidationError::TooFewPoints { ring: RingId::Exterior { polygon: 0 }, count: 3 })
    );
}

#[test]
fn validate_rejects_unclosed_ring() {
    let mp = MultiPolygon { polygons: vec![poly_of(&[(0, 0), (2, 0), (2, 2), (0, 2)])] };
    assert_eq!(
        validate(&mp),
        Err(ValidationError::NotClosed { ring: RingId::Exterior { polygon: 0 } })
    );
}

#[test]
fn validate_rejects_out_of_range_coordinate() {
    let big = COORD_LIMIT + 1;
    let mp = MultiPolygon { polygons: vec![poly_of(&[(0, 0), (big, 0), (big, 2), (0, 2), (0, 0)])] };
    assert_eq!(
        validate(&mp),
        Err(ValidationError::CoordinateOutOfRange {
            ring: RingId::Exterior { polygon: 0 },
            index: 1
        })
    );
}

#[test]
fn validate_rejects_zero_length_edge() {
    let mp = MultiPolygon {
        polygons: vec![poly_of(&[(0, 0), (2, 0), (2, 0), (2, 2), (0, 2), (0, 0)])],
    };
    assert_eq!(
        validate(&mp),
        Err(ValidationError::ZeroLengthEdge { ring: RingId::Exterior { polygon: 0 }, index: 1 })
    );
}

#[test]
fn validate_names_offending_hole() {
    let mut p = square(0, 0, 10);
    p.interiors.push(ring_of(&[(2, 2), (3, 2), (2, 2)]));
    let mp = MultiPolygon { polygons: vec![p] };
    assert_eq!(
        validate(&mp),
        Err(ValidationError::TooFewPoints {
            ring: RingId::Interior { polygon: 0, hole: 0 },
            count: 3
        })
    );
}

#[test]
fn double_signed_area_of_square() {
    let ccw = ring_of(&[(0, 0), (2, 0), (2, 2), (0, 2), (0, 0)]);
    assert_eq!(ccw.double_signed_area(), 8);
    assert!(ccw.is_counter_clockwise());
}

#[test]
fn double_signed_area_flips_with_winding() {
    let cw = ring_of(&[(0, 0), (0, 2), (2, 2), (2, 0), (0, 0)]);
    assert_eq!(cw.double_signed_area(), -8);
    assert!(!cw.is_counter_clockwise());
}

#[test]
fn double_signed_area_rotation_invariant() {
    let from_first = ring_of(&[(0, 0), (2, 0), (2, 2), (0, 2), (0, 0)]);
    let from_second = ring_of(&[(2, 0), (2, 2), (0, 2), (0, 0), (2, 0)]);
    let from_third = ring_of(&[(2, 2), (0, 2), (0, 0), (2, 0), (2, 2)]);
    assert_eq!(from_first.double_signed_area(), 8);
    assert_eq!(from_second.double_signed_area(), 8);
    assert_eq!(from_third.double_signed_area(), 8);
}

#[test]
fn find_enclosing_shell_picks_smallest() {
    let hole = BoundingBox { min: xy(4, 4), max: xy(5, 5) };
    let shells = vec![
        BoundingBox { min: xy(0, 0), max: xy(100, 100) },
        BoundingBox { min: xy(3, 3), max: xy(6, 6) },
        BoundingBox { min: xy(20, 20), max: xy(30, 30) },
    ];
    assert_eq!(find_enclosing_shell(hole, &shells), Some(1));
    let far = BoundingBox { min: xy(200, 200), max: xy(201, 201) };
    assert_eq!(find_enclosing_shell(far, &shells), None);
}
