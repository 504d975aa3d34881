use std::cmp::Ordering;

use booleanop::classify::{compute_edge_fields, in_result, overlap_edge_types, EdgeFields, Operation};
use booleanop::geometry::{compare_coords, Coord, MultiPolygon, Polygon, Ring};
use booleanop::helper::{less_if, less_if_inversed};
use booleanop::intersector::{classify_crossing, SegmentCrossing};
use booleanop::ops::try_trivial_operation;
use booleanop::sweep_event::{
    compare_events, compare_segments, segment_events, signed_area, EdgeType, Operand, SweepEvent,
};

fn pt(x: i64, y: i64) -> Coord {
    Coord { x, y }
}

fn event(point: Coord, other: Coord, is_left: bool, operand: Operand, seq_id: u64) -> SweepEvent {
    SweepEvent {
        point,
        other_point: other,
        is_left,
        operand,
        edge_type: EdgeType::Normal,
        seq_id,
    }
}

fn square(x0: i64, y0: i64, side: i64) -> Polygon {
    let points = vec![
        pt(x0, y0),
        pt(x0 + side, y0),
        pt(x0 + side, y0 + side),
        pt(x0, y0 + side),
        pt(x0, y0),
    ];
    Polygon { exterior: Ring { points }, interiors: Vec::new() }
}

fn region(polygons: Vec<Polygon>) -> MultiPolygon {
    MultiPolygon { polygons }
}

fn exteriors(mp: &MultiPolygon) -> Vec<Vec<Coord>> {
    mp.polygons.iter().map(|p| p.exterior.points.clone()).collect()
}

#[test]
fn less_if_gives_three_way_result() {
    assert_eq!(less_if(true), Ordering::Less);
    assert_eq!(less_if(false), Ordering::Greater);
}

#[test]
fn less_if_inversed_gives_three_way_result() {
    assert_eq!(less_if_inversed(true), Ordering::Greater);
    assert_eq!(less_if_inversed(false), Ordering::Less);
}

#[test]
fn compare_coords_is_lexicographic() {
    assert_eq!(compare_coords(pt(0, 5), pt(1, 0)), Ordering::Less);
    assert_eq!(compare_coords(pt(1, 0), pt(1, 2)), Ordering::Less);
    assert_eq!(compare_coords(pt(1, 2), pt(1, 2)), Ordering::Equal);
    assert_eq!(compare_coords(pt(2, 0), pt(1, 9)), Ordering::Greater);
}

#[test]
fn signed_area_orientation() {
    assert_eq!(signed_area(pt(0, 0), pt(1, 0), pt(1, 1)), 1);
    assert_eq!(signed_area(pt(0, 0), pt(1, 1), pt(1, 0)), -1);
    assert_eq!(signed_area(pt(0, 0), pt(1, 1), pt(2, 2)), 0);
}

#[test]
fn compare_events_by_position() {
    let a = event(pt(0, 0), pt(1, 1), true, Operand::Subject, 0);
    let b = event(pt(2, 0), pt(3, 1), true, Operand::Subject, 1);
    assert_eq!(compare_events(&a, &b), Ordering::Less);
    assert_eq!(compare_events(&b, &a), Ordering::Greater);
    let low = event(pt(2, -1), pt(3, 0), true, Operand::Subject, 2);
    assert_eq!(compare_events(&low, &b), Ordering::Less);
}

#[test]
fn compare_events_left_endpoint_first() {
    let left = event(pt(1, 1), pt(2, 2), true, Operand::Subject, 0);
    let right = event(pt(1, 1), pt(0, 0), false, Operand::Subject, 1);
    assert_eq!(compare_events(&left, &right), Ordering::Less);
    assert_eq!(compare_events(&right, &left), Ordering::Greater);
}

#[test]
fn compare_events_by_turn_direction() {
    // Both left endpoints at the origin; `lower` continues below `upper`.
    let lower = event(pt(0, 0), pt(2, 0), true, Operand::Subject, 0);
    let upper = event(pt(0, 0), pt(2, 2), true, Operand::Subject, 1);
    assert_eq!(compare_events(&lower, &upper), Ordering::Less);
    assert_eq!(compare_events(&upper, &lower), Ordering::Greater);
}

#[test]
fn compare_events_stable_fallback() {
    let first = event(pt(0, 0), pt(2, 2), true, Operand::Subject, 3);
    let second = event(pt(0, 0), pt(2, 2), true, Operand::Clipping, 7);
    assert_eq!(compare_events(&first, &second), Ordering::Less);
    assert_eq!(compare_events(&second, &first), Ordering::Greater);
    assert_eq!(compare_events(&first, &first), Ordering::Equal);
}

#[test]
fn compare_segments_by_side() {
    let below = event(pt(0, 0), pt(4, 0), true, Operand::Subject, 0);
    let above = event(pt(1, 1), pt(3, 2), true, Operand::Subject, 1);
    assert_eq!(compare_segments(&below, &above), Ordering::Less);
    let under = event(pt(1, -2), pt(3, -1), true, Operand::Subject, 2);
    assert_eq!(compare_segments(&below, &under), Ordering::Greater);
}

#[test]
fn compare_segments_collinear_falls_back_on_operand() {
    let subj = event(pt(0, 0), pt(4, 0), true, Operand::Subject, 5);
    let clip = event(pt(1, 0), pt(3, 0), true, Operand::Clipping, 2);
    assert_eq!(compare_segments(&subj, &clip), Ordering::Less);
    assert_eq!(compare_segments(&clip, &subj), Ordering::Greater);
}

#[test]
fn segment_events_direction_independent() {
    let p = pt(3, 1);
    let q = pt(0, 2);
    let forward = segment_events(p, q, Operand::Subject, 10, 11);
    let backward = segment_events(q, p, Operand::Subject, 10, 11);
    assert_eq!(forward, backward);
    assert!(forward.0.is_left);
    assert_eq!(forward.0.point, q);
    assert_eq!(forward.0.other_point, p);
    assert_eq!(forward.1.point, p);
    assert!(!forward.1.is_left);
}

#[test]
fn ring_decomposes_into_segment_events() {
    let ring = Ring {
        points: vec![pt(0, 0), pt(2, 0), pt(2, 2), pt(0, 2), pt(0, 0)],
    };
    let pairs = booleanop::sweep_event::ring_segment_events(&ring, Operand::Subject, 100);
    assert_eq!(pairs.len(), 4);
    // First segment (0,0) -> (2,0): the left event sits at (0,0).
    assert!(pairs[0].0.is_left);
    assert_eq!(pairs[0].0.point, pt(0, 0));
    assert_eq!(pairs[0].0.other_point, pt(2, 0));
    assert_eq!(pairs[0].0.seq_id, 100);
    assert_eq!(pairs[0].1.seq_id, 101);
    // Closing segment (0,2) -> (0,0): the left event sits at (0,0), the
    // lexicographically-first endpoint, not at the walk's start.
    assert!(pairs[3].0.is_left);
    assert_eq!(pairs[3].0.point, pt(0, 0));
    assert_eq!(pairs[3].0.other_point, pt(0, 2));
}

#[test]
fn overlap_tagging_counts_the_overlap_once() {
    assert_eq!(
        overlap_edge_types(true, true),
        (EdgeType::NonContributing, EdgeType::SameTransition)
    );
    assert_eq!(
        overlap_edge_types(false, false),
        (EdgeType::NonContributing, EdgeType::SameTransition)
    );
    assert_eq!(
        overlap_edge_types(true, false),
        (EdgeType::NonContributing, EdgeType::DifferentTransition)
    );
}

#[test]
fn operand_other_swaps() {
    assert_eq!(Operand::Subject.other(), Operand::Clipping);
    assert_eq!(Operand::Clipping.other(), Operand::Subject);
}

#[test]
fn edge_fields_of_lowest_edge() {
    let f = compute_edge_fields(Operand::Subject, None);
    assert!(!f.in_out);
    assert!(!f.other_in_out);
}

#[test]
fn edge_fields_above_same_operand_edge() {
    let below = EdgeFields { operand: Operand::Subject, in_out: false, other_in_out: true };
    let f = compute_edge_fields(Operand::Subject, Some(&below));
    assert!(f.in_out);
    assert!(f.other_in_out);
}

#[test]
fn edge_fields_above_foreign_edge() {
    let below = EdgeFields { operand: Operand::Clipping, in_out: false, other_in_out: true };
    let f = compute_edge_fields(Operand::Subject, Some(&below));
    assert!(f.in_out);
    assert!(f.other_in_out);
}

#[test]
fn retention_rules_for_normal_edges() {
    let outside = EdgeFields { operand: Operand::Subject, in_out: false, other_in_out: false };
    let inside = EdgeFields { operand: Operand::Subject, in_out: false, other_in_out: true };
    assert!(in_result(Operation::Union, EdgeType::Normal, &outside));
    assert!(!in_result(Operation::Union, EdgeType::Normal, &inside));
    assert!(!in_result(Operation::Intersection, EdgeType::Normal, &outside));
    assert!(in_result(Operation::Intersection, EdgeType::Normal, &inside));
    assert!(in_result(Operation::DifferenceAB, EdgeType::Normal, &outside));
    assert!(!in_result(Operation::DifferenceAB, EdgeType::Normal, &inside));
    assert!(!in_result(Operation::DifferenceBA, EdgeType::Normal, &outside));
    assert!(in_result(Operation::DifferenceBA, EdgeType::Normal, &inside));
    assert!(in_result(Operation::Xor, EdgeType::Normal, &outside));
    assert!(in_result(Operation::Xor, EdgeType::Normal, &inside));
}

#[test]
fn retention_rules_for_overlapped_edges() {
    let f = EdgeFields { operand: Operand::Subject, in_out: false, other_in_out: false };
    // The shared boundary of identical operands is a same-transition
    // overlap: union and intersection keep it once, exclusive-or drops it.
    assert!(in_result(Operation::Union, EdgeType::SameTransition, &f));
    assert!(in_result(Operation::Intersection, EdgeType::SameTransition, &f));
    assert!(!in_result(Operation::Xor, EdgeType::SameTransition, &f));
    assert!(in_result(Operation::DifferenceAB, EdgeType::DifferentTransition, &f));
    assert!(in_result(Operation::Xor, EdgeType::DifferentTransition, &f));
    assert!(!in_result(Operation::Union, EdgeType::DifferentTransition, &f));
    assert!(!in_result(Operation::Union, EdgeType::NonContributing, &f));
    assert!(!in_result(Operation::Xor, EdgeType::NonContributing, &f));
}

#[test]
fn crossing_cases_are_classified() {
    // Diagonals of a square cross in their common interior.
    assert_eq!(
        classify_crossing(pt(0, 0), pt(4, 4), pt(0, 4), pt(4, 0)),
        SegmentCrossing::InteriorPoint
    );
    // Segments meeting at a shared endpoint only touch.
    assert_eq!(
        classify_crossing(pt(0, 0), pt(2, 2), pt(2, 2), pt(4, 0)),
        SegmentCrossing::EndpointTouch
    );
    // An endpoint landing in the other segment's interior forces a split.
    assert_eq!(
        classify_crossing(pt(0, 0), pt(4, 0), pt(2, 0), pt(2, 3)),
        SegmentCrossing::InteriorPoint
    );
    assert_eq!(
        classify_crossing(pt(0, 0), pt(1, 0), pt(3, 5), pt(4, 9)),
        SegmentCrossing::Disjoint
    );
}

#[test]
fn collinear_crossing_cases_are_classified() {
    let al = pt(0, 0);
    let ar = pt(4, 0);
    assert_eq!(
        classify_crossing(al, ar, pt(2, 0), pt(6, 0)),
        SegmentCrossing::CollinearOverlap
    );
    assert_eq!(
        classify_crossing(al, ar, pt(4, 0), pt(6, 0)),
        SegmentCrossing::EndpointTouch
    );
    assert_eq!(classify_crossing(al, ar, pt(5, 0), pt(6, 0)), SegmentCrossing::Disjoint);
}

#[test]
fn trivial_union_with_empty_operand() {
    let a = region(vec![square(0, 0, 2)]);
    let empty = region(Vec::new());
    let r = try_trivial_operation(Operation::Union, &a, &empty).unwrap();
    assert_eq!(exteriors(&r), exteriors(&a));
    let r2 = try_trivial_operation(Operation::Union, &empty, &a).unwrap();
    assert_eq!(exteriors(&r2), exteriors(&a));
}

#[test]
fn trivial_intersection_with_empty_operand() {
    let a = region(vec![square(0, 0, 2)]);
    let empty = region(Vec::new());
    let r = try_trivial_operation(Operation::Intersection, &a, &empty).unwrap();
    assert!(r.polygons.is_empty());
}

#[test]
fn trivial_difference_with_empty_operand() {
    let a = region(vec![square(0, 0, 2)]);
    let empty = region(Vec::new());
    let r = try_trivial_operation(Operation::DifferenceAB, &a, &empty).unwrap();
    assert_eq!(exteriors(&r), exteriors(&a));
    let r2 = try_trivial_operation(Operation::DifferenceBA, &a, &empty).unwrap();
    assert!(r2.polygons.is_empty());
    let r3 = try_trivial_operation(Operation::Xor, &a, &empty).unwrap();
    assert_eq!(exteriors(&r3), exteriors(&a));
}

#[test]
fn trivial_operations_on_disjoint_boxes() {
    let a = region(vec![square(0, 0, 2)]);
    let b = region(vec![square(10, 10, 2)]);
    let inter = try_trivial_operation(Operation::Intersection, &a, &b).unwrap();
    assert!(inter.polygons.is_empty());
    let uni = try_trivial_operation(Operation::Union, &a, &b).unwrap();
    let mut expected = exteriors(&a);
    expected.extend(exteriors(&b));
    assert_eq!(exteriors(&uni), expected);
    let diff = try_trivial_operation(Operation::DifferenceAB, &a, &b).unwrap();
    assert_eq!(exteriors(&diff), exteriors(&a));
}

#[test]
fn trivial_union_commutes_as_a_set() {
    let a = region(vec![square(0, 0, 2)]);
    let b = region(vec![square(10, 10, 2)]);
    let ab = try_trivial_operation(Operation::Union, &a, &b).unwrap();
    let ba = try_trivial_operation(Operation::Union, &b, &a).unwrap();
    let mut rings_ab = exteriors(&ab);
    let mut rings_ba = exteriors(&ba);
    rings_ab.sort();
    rings_ba.sort();
    assert_eq!(rings_ab, rings_ba);
}

#[test]
fn interacting_operands_need_the_sweep() {
    // Two unit squares offset by half a side (all coordinates doubled to
    // stay on the integer grid): the operands interact, so the trivial
    // evaluation must decline rather than guess.
    let a = region(vec![square(0, 0, 2)]);
    let b = region(vec![square(1, 1, 2)]);
    assert!(try_trivial_operation(Operation::Intersection, &a, &b).is_none());
    assert!(try_trivial_operation(Operation::Union, &a, &b).is_none());
}
