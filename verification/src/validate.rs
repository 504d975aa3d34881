//! Input sanitization: rejecting malformed regions before the sweep begins,
//! naming the offending ring and coordinate.

use vstd::prelude::*;
use crate::geometry::{ring_wf, Coord, MultiPolygon, PolygonView, Ring, COORD_LIMIT};

verus! {

/// Names one ring of a multi-polygon.
#[derive(Clone, Copy, Debug, PartialEq, Eq, Structural)]
pub enum RingId {
    Exterior { polygon: usize },
    Interior { polygon: usize, hole: usize },
}

/// Why an input region was rejected, naming the offending ring and, where
/// one is at fault, the offending point.
#[derive(Clone, Copy, Debug, PartialEq, Eq, Structural)]
pub enum ValidationError {
    /// The ring has fewer points than a closed triangle needs.
    TooFewPoints { ring: RingId, count: usize },
    /// The ring's last point does not repeat its first.
    NotClosed { ring: RingId },
    /// A coordinate exceeds `COORD_LIMIT` in magnitude.
    CoordinateOutOfRange { ring: RingId, index: usize },
    /// Two consecutive points coincide.
    ZeroLengthEdge { ring: RingId, index: usize },
}

/// Whether an error names a fault that the given point sequence really has.
pub open spec fn fault_in_ring(s: Seq<Coord>, id: RingId, e: ValidationError) -> bool {
    match e {
        ValidationError::TooFewPoints { ring, count } => ring == id && count == s.len() && s.len()
            < 4,
        ValidationError::NotClosed { ring } => ring == id && s.len() >= 4 && s.first() != s.last(),
        ValidationError::CoordinateOutOfRange { ring, index } => ring == id && index < s.len()
            && !s[index as int].wf(),
        ValidationError::ZeroLengthEdge { ring, index } => ring == id && index + 1 < s.len()
            && s[index as int] == s[index as int + 1],
    }
}

/// A named fault refutes the ring's validity.
pub proof fn lemma_fault_refutes_ring(s: Seq<Coord>, id: RingId, e: ValidationError)
    requires
        fault_in_ring(s, id, e),
    ensures
        !ring_wf(s),
{
}

impl Ring {
    /// Checks one ring, reporting the first fault in scan order: too few
    /// points, an unclosed boundary, a coordinate out of range, or a
    /// zero-length edge.
    pub fn check(&self, id: RingId) -> (r: Result<(), ValidationError>)
        ensures
            r is Ok <==> self.wf(),
            r matches Err(e) ==> fault_in_ring(self@, id, e),
    {
        let n = self.points.len();
        if n < 4 {
            return Err(ValidationError::TooFewPoints { ring: id, count: n });
        }
        if self.points[0] != self.points[n - 1] {
            return Err(ValidationError::NotClosed { ring: id });
        }
        let mut i: usize = 0;
        while i < n
            invariant
                0 <= i <= n,
                n == self.points@.len(),
                forall|k: int| 0 <= k < i ==> (#[trigger] self.points@[k]).wf(),
                forall|k: int| 0 <= k < i && k + 1 < n ==> self.points@[k] != #[trigger] self.points@[k + 1],
            decreases n - i,
        {
            let p = self.points[i];
            if p.x < -COORD_LIMIT || p.x > COORD_LIMIT || p.y < -COORD_LIMIT || p.y > COORD_LIMIT {
                return Err(ValidationError::CoordinateOutOfRange { ring: id, index: i });
            }
            if i + 1 < n && p == self.points[i + 1] {
                return Err(ValidationError::ZeroLengthEdge { ring: id, index: i });
            }
            i = i + 1;
        }
        Ok(())
    }
}

/// A named fault somewhere in the region refutes the region's validity.
pub open spec fn fault_in_region(mp: Seq<PolygonView>, e: ValidationError) -> bool {
    exists|id: RingId|
        #[trigger] fault_in_ring(ring_at(mp, id), id, e) && ring_id_in_range(mp, id)
}

/// Whether a ring identifier points inside the region.
pub open spec fn ring_id_in_range(mp: Seq<PolygonView>, id: RingId) -> bool {
    match id {
        RingId::Exterior { polygon } => polygon < mp.len(),
        RingId::Interior { polygon, hole } => polygon < mp.len() && hole < mp[polygon as int].interiors.len(),
    }
}

/// The point sequence that a ring identifier names.
pub open spec fn ring_at(mp: Seq<PolygonView>, id: RingId) -> Seq<Coord> {
    match id {
        RingId::Exterior { polygon } => mp[polygon as int].exterior,
        RingId::Interior { polygon, hole } => mp[polygon as int].interiors[hole as int],
    }
}

/// Checks a whole region before an operation: accepts it exactly when every
/// ring of every polygon is valid, and otherwise names a ring and a fault
/// that the region really has.
pub fn validate(mp: &MultiPolygon) -> (r: Result<(), ValidationError>)
    ensures
        r is Ok <==> mp.wf(),
        r matches Err(e) ==> fault_in_region(mp@, e) && !mp.wf(),
{
    let n = mp.polygons.len();
    assert(n == mp@.len());
    let mut i: usize = 0;
    while i < n
        invariant
            0 <= i <= n,
            n == mp.polygons@.len(),
            mp@.len() == n,
            forall|k: int| 0 <= k < i ==> (#[trigger] mp@[k]).wf(),
        decreases n - i,
    {
        let poly = &mp.polygons[i];
        assert(mp@[i as int] == poly@);
        match poly.exterior.check(RingId::Exterior { polygon: i }) {
            Ok(()) => {},
            Err(e) => {
                proof {
                    let id = RingId::Exterior { polygon: i };
                    assert(ring_at(mp@, id) == poly.exterior@);
                    assert(fault_in_ring(ring_at(mp@, id), id, e) && ring_id_in_range(mp@, id));
                    lemma_fault_refutes_ring(poly.exterior@, id, e);
                }
                return Err(e);
            },
        }
        let m = poly.interiors.len();
        let mut j: usize = 0;
        while j < m
            invariant
                0 <= j <= m,
                m == poly.interiors@.len(),
                mp@.len() == n,
                i < n,
                mp@[i as int] == poly@,
                poly@.interiors.len() == m,
                ring_wf(poly@.exterior),
                forall|k: int| 0 <= k < j ==> ring_wf(#[trigger] poly@.interiors[k]),
            decreases m - j,
        {
            assert(poly@.interiors[j as int] == poly.interiors@[j as int]@);
            match poly.interiors[j].check(RingId::Interior { polygon: i, hole: j }) {
                Ok(()) => {},
                Err(e) => {
                    proof {
                        let id = RingId::Interior { polygon: i, hole: j };
                        assert(ring_at(mp@, id) == poly.interiors@[j as int]@);
                        assert(fault_in_ring(ring_at(mp@, id), id, e) && ring_id_in_range(
                            mp@,
                            id,
                        ));
                        lemma_fault_refutes_ring(poly.interiors@[j as int]@, id, e);
                        assert(!mp@[i as int].wf());
                    }
                    return Err(e);
                },
            }
            j = j + 1;
        }
        assert(mp@[i as int].wf());
        i = i + 1;
    }
    Ok(())
}

} // verus!
