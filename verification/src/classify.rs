//! The classification pass: assigning every edge its inside/outside flags
//! from its predecessor in the sweep status, and deciding which edges
//! survive into the result of each operation.

use vstd::prelude::*;
use crate::sweep_event::{EdgeType, Operand};

verus! {

/// The boolean operation requested. Difference is directed, so both
/// operand orders are distinct selectors.
#[derive(Clone, Copy, Debug, PartialEq, Eq, Structural)]
pub enum Operation {
    Union,
    Intersection,
    DifferenceAB,
    DifferenceBA,
    Xor,
}

/// The write-once classification record of one edge: which operand it
/// belongs to, whether the region immediately below it is inside that
/// operand (`in_out`), and whether it is inside the other operand
/// (`other_in_out`).
#[derive(Clone, Copy, Debug, PartialEq, Eq, Structural)]
pub struct EdgeFields {
    pub operand: Operand,
    pub in_out: bool,
    pub other_in_out: bool,
}

/// The flags of a newly inserted edge, derived from the nearest edge below
/// it in the sweep status. With no edge below, the region below is outside
/// both operands. Crossing an edge of the same operand toggles membership
/// of that operand and leaves the other untouched; crossing a foreign edge
/// exchanges the roles: the foreign edge's record of "the other operand"
/// is this edge's own, and its own membership is toggled.
pub open spec fn spec_edge_fields(operand: Operand, below: Option<EdgeFields>) -> EdgeFields {
    match below {
        Option::None => EdgeFields { operand, in_out: false, other_in_out: false },
        Option::Some(p) => {
            if p.operand == operand {
                EdgeFields { operand, in_out: !p.in_out, other_in_out: p.other_in_out }
            } else {
                EdgeFields { operand, in_out: p.other_in_out, other_in_out: !p.in_out }
            }
        },
    }
}

/// Computes the classification record of an edge from the record of the
/// nearest edge below it in the status, or from nothing when the edge is
/// the lowest one crossing the sweep line.
pub fn compute_edge_fields(operand: Operand, below: Option<&EdgeFields>) -> (r: EdgeFields)
    ensures
        r == spec_edge_fields(
            operand,
            match below {
                Option::None => Option::<EdgeFields>::None,
                Option::Some(p) => Option::Some(*p),
            },
        ),
{
    match below {
        Option::None => EdgeFields { operand, in_out: false, other_in_out: false },
        Option::Some(p) => {
            if p.operand == operand {
                EdgeFields { operand, in_out: !p.in_out, other_in_out: p.other_in_out }
            } else {
                EdgeFields { operand, in_out: p.other_in_out, other_in_out: !p.in_out }
            }
        },
    }
}

/// Relabels an edge record for the operation in which the two operands have
/// exchanged places: the edge now belongs to the other operand, while both
/// membership flags keep their meaning.
pub open spec fn spec_swap_operands(f: EdgeFields) -> EdgeFields {
    EdgeFields { operand: f.operand.spec_other(), in_out: f.in_out, other_in_out: f.other_in_out }
}

/// Exchanging the operand labels everywhere commutes with the computation
/// of the classification flags: the flags of an edge do not depend on which
/// operand is called the first one.
pub proof fn lemma_edge_fields_swap(operand: Operand, below: Option<EdgeFields>)
    ensures
        spec_edge_fields(
            operand.spec_other(),
            match below {
                Option::None => Option::<EdgeFields>::None,
                Option::Some(f) => Option::Some(spec_swap_operands(f)),
            },
        ) == spec_swap_operands(spec_edge_fields(operand, below)),
{
}

/// The retention rule: whether an edge with the given overlap tag and
/// classification record survives into the result of the operation.
///
/// A normal edge survives a union when the region below it is outside the
/// other operand, an intersection when it is inside, a directed difference
/// when it belongs to the minuend and lies outside the subtrahend or
/// belongs to the subtrahend and lies inside the minuend, and an
/// exclusive-or always. Of a collinear overlap, the copy whose insides
/// agree contributes once to union and intersection; one whose insides
/// disagree contributes only to difference and exclusive-or; the duplicate
/// copy never contributes.
pub open spec fn spec_in_result(op: Operation, edge_type: EdgeType, f: EdgeFields) -> bool {
    match edge_type {
        EdgeType::NonContributing => false,
        EdgeType::SameTransition => op == Operation::Union || op == Operation::Intersection,
        EdgeType::DifferentTransition => op == Operation::DifferenceAB || op
            == Operation::DifferenceBA || op == Operation::Xor,
        EdgeType::Normal => match op {
            Operation::Union => !f.other_in_out,
            Operation::Intersection => f.other_in_out,
            Operation::DifferenceAB => match f.operand {
                Operand::Subject => !f.other_in_out,
                Operand::Clipping => f.other_in_out,
            },
            Operation::DifferenceBA => match f.operand {
                Operand::Subject => f.other_in_out,
                Operand::Clipping => !f.other_in_out,
            },
            Operation::Xor => true,
        },
    }
}

/// Decides whether an edge survives into the result.
pub fn in_result(op: Operation, edge_type: EdgeType, f: &EdgeFields) -> (r: bool)
    ensures
        r == spec_in_result(op, edge_type, *f),
{
    match edge_type {
        EdgeType::NonContributing => false,
        EdgeType::SameTransition => op == Operation::Union || op == Operation::Intersection,
        EdgeType::DifferentTransition => op == Operation::DifferenceAB || op
            == Operation::DifferenceBA || op == Operation::Xor,
        EdgeType::Normal => match op {
            Operation::Union => !f.other_in_out,
            Operation::Intersection => f.other_in_out,
            Operation::DifferenceAB => match f.operand {
                Operand::Subject => !f.other_in_out,
                Operand::Clipping => f.other_in_out,
            },
            Operation::DifferenceBA => match f.operand {
                Operand::Subject => f.other_in_out,
                Operand::Clipping => !f.other_in_out,
            },
            Operation::Xor => true,
        },
    }
}

/// How a collinear overlap between the two operands is tagged: exactly one
/// of the two coincident edges carries the overlap, and it records whether
/// the operands' insides face the same side. The duplicate copy never
/// contributes, so the overlap is counted once.
pub open spec fn spec_overlap_edge_types(a_in_out: bool, b_in_out: bool) -> (EdgeType, EdgeType) {
    if a_in_out == b_in_out {
        (EdgeType::NonContributing, EdgeType::SameTransition)
    } else {
        (EdgeType::NonContributing, EdgeType::DifferentTransition)
    }
}

/// Tags the two edges of a detected collinear overlap, given each edge's
/// own `in_out` flag: the first edge is retired as non-contributing, and
/// the second carries the overlap as same-transition when the two edges'
/// sweep-line crossing directions agree, different-transition otherwise.
pub fn overlap_edge_types(a_in_out: bool, b_in_out: bool) -> (r: (EdgeType, EdgeType))
    ensures
        r == spec_overlap_edge_types(a_in_out, b_in_out),
{
    if a_in_out == b_in_out {
        (EdgeType::NonContributing, EdgeType::SameTransition)
    } else {
        (EdgeType::NonContributing, EdgeType::DifferentTransition)
    }
}

/// Union, intersection and exclusive-or retain edges without regard to
/// which operand an edge belongs to: exchanging the operand labels leaves
/// the retention decision unchanged. This is the edge-level half of the
/// commutativity of the three symmetric operations.
pub proof fn lemma_symmetric_retention(op: Operation, edge_type: EdgeType, f: EdgeFields)
    requires
        op == Operation::Union || op == Operation::Intersection || op == Operation::Xor,
    ensures
        spec_in_result(op, edge_type, spec_swap_operands(f)) == spec_in_result(op, edge_type, f),
{
}

/// The two directed differences are each other's mirror image: computing
/// the difference the other way round while also exchanging the operand
/// labels retains exactly the same edges.
pub proof fn lemma_difference_duality(edge_type: EdgeType, f: EdgeFields)
    ensures
        spec_in_result(Operation::DifferenceAB, edge_type, f) == spec_in_result(
            Operation::DifferenceBA,
            edge_type,
            spec_swap_operands(f),
        ),
{
}

/// The whole classification pass treats union, intersection and
/// exclusive-or symmetrically: an edge classified against the operands in
/// either order is retained in the one order exactly when it is retained in
/// the other. This composes the symmetry of the flag computation with the
/// symmetry of the retention rule.
pub proof fn lemma_classification_commutes(
    op: Operation,
    edge_type: EdgeType,
    operand: Operand,
    below: Option<EdgeFields>,
)
    requires
        op == Operation::Union || op == Operation::Intersection || op == Operation::Xor,
    ensures
        spec_in_result(
            op,
            edge_type,
            spec_edge_fields(
                operand.spec_other(),
                match below {
                    Option::None => Option::<EdgeFields>::None,
                    Option::Some(f) => Option::Some(spec_swap_operands(f)),
                },
            ),
        ) == spec_in_result(op, edge_type, spec_edge_fields(operand, below)),
{
    lemma_edge_fields_swap(operand, below);
    lemma_symmetric_retention(op, edge_type, spec_edge_fields(operand, below));
}

/// When both operands are the same region, every boundary edge coincides
/// with an equally oriented edge of the other operand, so one copy is
/// tagged as a same-transition overlap and the other as non-contributing.
/// Union and intersection keep the shared boundary once, and exclusive-or
/// drops it entirely: the boundary-level half of `union(A, A) == A`,
/// `intersection(A, A) == A` and `xor(A, A)` being empty.
pub proof fn lemma_self_operation_overlap(f: EdgeFields)
    ensures
        spec_in_result(Operation::Union, EdgeType::SameTransition, f),
        spec_in_result(Operation::Intersection, EdgeType::SameTransition, f),
        !spec_in_result(Operation::Xor, EdgeType::SameTransition, f),
        !spec_in_result(Operation::Union, EdgeType::NonContributing, f),
        !spec_in_result(Operation::Intersection, EdgeType::NonContributing, f),
        !spec_in_result(Operation::Xor, EdgeType::NonContributing, f),
{
}

} // verus!
