//! Trivial-case evaluation of the boolean operations: an empty operand, or
//! operands whose bounding boxes do not overlap, settle an operation without
//! running the sweep.

use vstd::prelude::*;
use vstd::seq_lib::lemma_seq_union_to_multiset_commutative;
use crate::bbox::{bbox_of_polygons, lemma_overlaps_symmetric};
use crate::classify::Operation;
use crate::connector::{lemma_region_area_concat, region_double_area};
use crate::geometry::{MultiPolygon, PolygonView};

verus! {

/// Whether the sweep is needed: both operands are non-empty and their
/// bounding boxes overlap.
pub open spec fn regions_interact(a: Seq<PolygonView>, b: Seq<PolygonView>) -> bool {
    &&& a.len() > 0
    &&& b.len() > 0
    &&& bbox_of_polygons(a).unwrap().spec_overlaps(bbox_of_polygons(b).unwrap())
}

/// The result of an operation on operands that do not interact: union and
/// exclusive-or keep both operands' polygons side by side, an intersection
/// is empty, and a directed difference returns its minuend unchanged.
/// `None` when the operands interact and the sweep must decide.
pub open spec fn spec_trivial_operation(
    op: Operation,
    a: Seq<PolygonView>,
    b: Seq<PolygonView>,
) -> Option<Seq<PolygonView>> {
    if regions_interact(a, b) {
        Option::None
    } else {
        Option::Some(
            match op {
                Operation::Union => a + b,
                Operation::Xor => a + b,
                Operation::Intersection => Seq::<PolygonView>::empty(),
                Operation::DifferenceAB => a,
                Operation::DifferenceBA => b,
            },
        )
    }
}

/// Evaluates an operation without the sweep when an empty operand or
/// disjoint bounding boxes make the answer immediate; `None` says that the
/// operands interact and the full algorithm must run. The full algorithm
/// must agree with every answer given here: this is an optimization, not a
/// definition.
pub fn try_trivial_operation(op: Operation, a: &MultiPolygon, b: &MultiPolygon) -> (r: Option<
    MultiPolygon,
>)
    requires
        a.wf(),
        b.wf(),
    ensures
        r matches Some(m) ==> spec_trivial_operation(op, a@, b@) == Some(m@) && m.wf(),
        r is None <==> regions_interact(a@, b@),
{
    let interact: bool = if a.is_empty() || b.is_empty() {
        false
    } else {
        let box_a = a.bounding_box();
        let box_b = b.bounding_box();
        match (box_a, box_b) {
            (Some(x), Some(y)) => x.overlaps(y),
            _ => false,
        }
    };
    if interact {
        return None;
    }
    let result = match op {
        Operation::Union => a.concatenate(b),
        Operation::Xor => a.concatenate(b),
        Operation::Intersection => MultiPolygon::empty(),
        Operation::DifferenceAB => a.duplicate(),
        Operation::DifferenceBA => b.duplicate(),
    };
    assert forall|i: int| 0 <= i < result@.len() implies (#[trigger] result@[i]).wf() by {
        if i < a@.len() {
        }
    }
    Some(result)
}

/// With an empty second operand, union, exclusive-or and the directed
/// difference keeping the first operand return that operand unchanged, and
/// an intersection is empty.
pub proof fn lemma_empty_operand_identity(a: Seq<PolygonView>)
    ensures
        spec_trivial_operation(Operation::Union, a, Seq::<PolygonView>::empty()) == Some(a),
        spec_trivial_operation(Operation::Intersection, a, Seq::<PolygonView>::empty()) == Some(
            Seq::<PolygonView>::empty(),
        ),
        spec_trivial_operation(Operation::DifferenceAB, a, Seq::<PolygonView>::empty()) == Some(a),
        spec_trivial_operation(Operation::Xor, a, Seq::<PolygonView>::empty()) == Some(a),
        spec_trivial_operation(Operation::Union, Seq::<PolygonView>::empty(), a) == Some(a),
        spec_trivial_operation(Operation::Intersection, Seq::<PolygonView>::empty(), a) == Some(
            Seq::<PolygonView>::empty(),
        ),
        spec_trivial_operation(Operation::DifferenceBA, Seq::<PolygonView>::empty(), a) == Some(a),
{
    assert(a + Seq::<PolygonView>::empty() =~= a);
    assert(Seq::<PolygonView>::empty() + a =~= a);
}

/// When the operands' bounding boxes do not overlap, the intersection is
/// empty and the union is the concatenation of the operands' polygons.
pub proof fn lemma_disjoint_boxes_shortcut(a: Seq<PolygonView>, b: Seq<PolygonView>)
    requires
        a.len() > 0,
        b.len() > 0,
        !bbox_of_polygons(a).unwrap().spec_overlaps(bbox_of_polygons(b).unwrap()),
    ensures
        spec_trivial_operation(Operation::Intersection, a, b) == Some(Seq::<PolygonView>::empty()),
        spec_trivial_operation(Operation::Union, a, b) == Some(a + b),
{
}

/// The two directed differences mirror each other on every pair the
/// trivial evaluation settles: subtracting `b` from `a` is the same as
/// subtracting the first operand from the second with the operands given
/// the other way round.
pub proof fn lemma_trivial_difference_duality(a: Seq<PolygonView>, b: Seq<PolygonView>)
    ensures
        spec_trivial_operation(Operation::DifferenceAB, a, b) == spec_trivial_operation(
            Operation::DifferenceBA,
            b,
            a,
        ),
{
    if a.len() > 0 && b.len() > 0 {
        lemma_overlaps_symmetric(bbox_of_polygons(a).unwrap(), bbox_of_polygons(b).unwrap());
    }
}

/// On every pair the trivial evaluation settles, the inclusion–exclusion
/// identity holds exactly, with no floating-point tolerance needed: the
/// union's area plus the intersection's area equals the sum of the
/// operands' areas.
pub proof fn lemma_trivial_inclusion_exclusion(a: Seq<PolygonView>, b: Seq<PolygonView>)
    requires
        !regions_interact(a, b),
    ensures
        region_double_area(spec_trivial_operation(Operation::Union, a, b).unwrap())
            + region_double_area(spec_trivial_operation(Operation::Intersection, a, b).unwrap())
            == region_double_area(a) + region_double_area(b),
{
    lemma_region_area_concat(a, b);
}

/// Union, intersection and exclusive-or are commutative on every pair the
/// trivial evaluation settles: exchanging the operands yields the same set
/// of polygons, compared without regard to their order.
pub proof fn lemma_trivial_commutative(op: Operation, a: Seq<PolygonView>, b: Seq<PolygonView>)
    requires
        op == Operation::Union || op == Operation::Intersection || op == Operation::Xor,
    ensures
        (spec_trivial_operation(op, a, b) is Some) == (spec_trivial_operation(op, b, a) is Some),
        spec_trivial_operation(op, a, b) matches Some(r) ==> (spec_trivial_operation(op, b, a)
            matches Some(s) && r.to_multiset() == s.to_multiset()),
{
    if a.len() > 0 && b.len() > 0 {
        lemma_overlaps_symmetric(bbox_of_polygons(a).unwrap(), bbox_of_polygons(b).unwrap());
    }
    if !regions_interact(a, b) {
        lemma_seq_union_to_multiset_commutative(a, b);
    }
}

} // verus!
