//! The sweep-event model: one event per segment endpoint, the orientation
//! test, the total order of the event queue, and the ordering key of the
//! sweep status structure.

use vstd::prelude::*;
use core::cmp::Ordering;
use crate::geometry::{coord_cmp, Coord, COORD_LIMIT};
use crate::helper::{less_if, less_if_inversed};

verus! {

/// Which operand of the boolean operation an edge belongs to.
#[derive(Clone, Copy, Debug, PartialEq, Eq, Structural)]
pub enum Operand {
    Subject,
    Clipping,
}

impl Operand {
    /// The other operand.
    pub open spec fn spec_other(self) -> Operand {
        match self {
            Operand::Subject => Operand::Clipping,
            Operand::Clipping => Operand::Subject,
        }
    }

    pub fn other(self) -> (r: Operand)
        ensures
            r == self.spec_other(),
    {
        match self {
            Operand::Subject => Operand::Clipping,
            Operand::Clipping => Operand::Subject,
        }
    }
}

/// How an edge relates to a collinear overlap with the other operand.
#[derive(Clone, Copy, Debug, PartialEq, Eq, Structural)]
pub enum EdgeType {
    Normal,
    SameTransition,
    DifferentTransition,
    NonContributing,
}

/// One endpoint of a directed segment of an input ring, paired with its
/// sibling endpoint. `seq_id` is the stable arena handle that makes every
/// ordering total.
#[derive(Clone, Copy, Debug, PartialEq, Eq, Structural)]
pub struct SweepEvent {
    pub point: Coord,
    pub other_point: Coord,
    pub is_left: bool,
    pub operand: Operand,
    pub edge_type: EdgeType,
    pub seq_id: u64,
}

impl SweepEvent {
    /// Endpoints are bounded and distinct, and `is_left` marks exactly the
    /// lexicographically-first endpoint of the segment.
    pub open spec fn wf(self) -> bool {
        &&& self.point.wf()
        &&& self.other_point.wf()
        &&& self.point != self.other_point
        &&& self.is_left == (coord_cmp(self.point, self.other_point) == Ordering::Less)
    }
}

/// Twice the signed area of the triangle `(p0, p1, p2)`: positive when the
/// three points make a counter-clockwise turn, zero when they are collinear.
pub open spec fn cross(p0: Coord, p1: Coord, p2: Coord) -> int {
    (p1.x - p0.x) * (p2.y - p0.y) - (p2.x - p0.x) * (p1.y - p0.y)
}

/// A product of two bounded factors is bounded by the square of the bound.
pub proof fn lemma_mul_bound(a: int, b: int, m: int)
    requires
        -m <= a <= m,
        -m <= b <= m,
        0 <= m,
    ensures
        -m * m <= a * b <= m * m,
{
    assert(-m * m <= a * b <= m * m) by (nonlinear_arith)
        requires
            -m <= a <= m,
            -m <= b <= m,
            0 <= m,
    ;
}

/// The orientation test, evaluated exactly in 128-bit arithmetic.
pub fn signed_area(p0: Coord, p1: Coord, p2: Coord) -> (r: i128)
    requires
        p0.wf(),
        p1.wf(),
        p2.wf(),
    ensures
        r == cross(p0, p1, p2),
{
    let ax: i128 = p1.x as i128 - p0.x as i128;
    let ay: i128 = p1.y as i128 - p0.y as i128;
    let bx: i128 = p2.x as i128 - p0.x as i128;
    let by: i128 = p2.y as i128 - p0.y as i128;
    proof {
        lemma_mul_bound(ax as int, by as int, 2 * COORD_LIMIT as int);
        lemma_mul_bound(bx as int, ay as int, 2 * COORD_LIMIT as int);
    }
    ax * by - bx * ay
}

/// Exchanging the last two points negates the orientation test.
pub proof fn lemma_cross_antisymmetric(p0: Coord, p1: Coord, p2: Coord)
    ensures
        cross(p0, p1, p2) == -cross(p0, p2, p1),
{
}

/// The total order of the event queue. Events are processed by ascending
/// `x`, then `y`; at a shared point left endpoints come before right
/// endpoints; among endpoints of the same kind the event whose segment turns
/// counter-clockwise towards the other's second endpoint comes first; exact
/// duplicates fall back on the stable arena handle.
pub open spec fn event_order(a: SweepEvent, b: SweepEvent) -> Ordering {
    if a.point != b.point {
        coord_cmp(a.point, b.point)
    } else if a.is_left != b.is_left {
        if a.is_left {
            Ordering::Less
        } else {
            Ordering::Greater
        }
    } else if cross(a.point, a.other_point, b.other_point) != 0 {
        if cross(a.point, a.other_point, b.other_point) > 0 {
            Ordering::Less
        } else {
            Ordering::Greater
        }
    } else if a.seq_id < b.seq_id {
        Ordering::Less
    } else if a.seq_id > b.seq_id {
        Ordering::Greater
    } else {
        Ordering::Equal
    }
}

/// Three-way comparison of two pending events in sweep order.
pub fn compare_events(a: &SweepEvent, b: &SweepEvent) -> (r: Ordering)
    requires
        a.wf(),
        b.wf(),
    ensures
        r == event_order(*a, *b),
{
    if a.point.x != b.point.x || a.point.y != b.point.y {
        crate::geometry::compare_coords(a.point, b.point)
    } else if a.is_left != b.is_left {
        less_if(a.is_left)
    } else {
        let s = signed_area(a.point, a.other_point, b.other_point);
        if s != 0 {
            less_if(s > 0)
        } else if a.seq_id != b.seq_id {
            less_if(a.seq_id < b.seq_id)
        } else {
            Ordering::Equal
        }
    }
}

/// Reverses an ordering.
pub open spec fn ordering_flip(o: Ordering) -> Ordering {
    match o {
        Ordering::Less => Ordering::Greater,
        Ordering::Equal => Ordering::Equal,
        Ordering::Greater => Ordering::Less,
    }
}

/// The event order is antisymmetric: comparing in the other direction
/// reverses the answer. Together with `lemma_event_order_equal` this makes
/// the queue order a total order over events with distinct arena handles.
pub proof fn lemma_event_order_antisymmetric(a: SweepEvent, b: SweepEvent)
    ensures
        event_order(b, a) == ordering_flip(event_order(a, b)),
{
    crate::geometry::lemma_coord_cmp_antisymmetric(a.point, b.point);
    if a.point == b.point {
        lemma_cross_antisymmetric(a.point, a.other_point, b.other_point);
    }
}

/// Two events compare as equal only when they share their point, their
/// endpoint kind, a collinear sibling direction and their arena handle.
pub proof fn lemma_event_order_equal(a: SweepEvent, b: SweepEvent)
    requires
        event_order(a, b) == Ordering::Equal,
    ensures
        a.point == b.point,
        a.is_left == b.is_left,
        a.seq_id == b.seq_id,
        cross(a.point, a.other_point, b.other_point) == 0,
{
    crate::geometry::lemma_coord_cmp_antisymmetric(a.point, b.point);
}

/// The queue discipline stays monotone across splits: an event whose point
/// lies strictly later in sweep order than the point of the event being
/// processed compares after it, whatever its other fields. Splits only
/// create events at or after the current point, so the queue never has to
/// revisit a position the sweep line has passed.
pub proof fn lemma_event_order_monotone(current: SweepEvent, injected: SweepEvent)
    requires
        coord_cmp(current.point, injected.point) == Ordering::Less,
    ensures
        event_order(current, injected) == Ordering::Less,
        event_order(injected, current) == Ordering::Greater,
{
    lemma_event_order_antisymmetric(current, injected);
}

/// The ordering key of the sweep status structure: edge `a` sorts below edge
/// `b` when `b`'s endpoints lie strictly above the line through `a`;
/// collinear edges fall back on the operand tag, then on the arena handle.
pub open spec fn segment_order(a: SweepEvent, b: SweepEvent) -> Ordering {
    if cross(a.point, a.other_point, b.point) != 0 {
        if cross(a.point, a.other_point, b.point) > 0 {
            Ordering::Less
        } else {
            Ordering::Greater
        }
    } else if cross(a.point, a.other_point, b.other_point) != 0 {
        if cross(a.point, a.other_point, b.other_point) > 0 {
            Ordering::Less
        } else {
            Ordering::Greater
        }
    } else if a.operand != b.operand {
        if a.operand == Operand::Subject {
            Ordering::Less
        } else {
            Ordering::Greater
        }
    } else if a.seq_id < b.seq_id {
        Ordering::Less
    } else if a.seq_id > b.seq_id {
        Ordering::Greater
    } else {
        Ordering::Equal
    }
}

/// Three-way comparison of two edges of the sweep status.
pub fn compare_segments(a: &SweepEvent, b: &SweepEvent) -> (r: Ordering)
    requires
        a.wf(),
        b.wf(),
    ensures
        r == segment_order(*a, *b),
{
    let s1 = signed_area(a.point, a.other_point, b.point);
    if s1 != 0 {
        return less_if(s1 > 0);
    }
    let s2 = signed_area(a.point, a.other_point, b.other_point);
    if s2 != 0 {
        return less_if(s2 > 0);
    }
    if a.operand != b.operand {
        return less_if_inversed(b.operand == Operand::Subject);
    }
    if a.seq_id != b.seq_id {
        less_if(a.seq_id < b.seq_id)
    } else {
        Ordering::Equal
    }
}

/// An edge compares as equal to itself under the status order.
pub proof fn lemma_segment_order_reflexive(a: SweepEvent)
    ensures
        segment_order(a, a) == Ordering::Equal,
{
}

/// The two paired events of one undirected segment: the event of the
/// lexicographically-first endpoint first, its sibling second. The arena
/// handles are attached to the sorted endpoints, not to the argument order.
pub open spec fn spec_segment_events(
    p: Coord,
    q: Coord,
    operand: Operand,
    left_id: u64,
    right_id: u64,
) -> (SweepEvent, SweepEvent) {
    let l = if coord_cmp(p, q) == Ordering::Less {
        p
    } else {
        q
    };
    let r = if coord_cmp(p, q) == Ordering::Less {
        q
    } else {
        p
    };
    (
        SweepEvent {
            point: l,
            other_point: r,
            is_left: true,
            operand,
            edge_type: EdgeType::Normal,
            seq_id: left_id,
        },
        SweepEvent {
            point: r,
            other_point: l,
            is_left: false,
            operand,
            edge_type: EdgeType::Normal,
            seq_id: right_id,
        },
    )
}

/// Decomposes one segment of an input ring into its two paired events.
pub fn segment_events(p: Coord, q: Coord, operand: Operand, left_id: u64, right_id: u64) -> (r: (
    SweepEvent,
    SweepEvent,
))
    requires
        p.wf(),
        q.wf(),
        p != q,
    ensures
        r == spec_segment_events(p, q, operand, left_id, right_id),
        r.0.wf(),
        r.1.wf(),
        r.0.is_left,
        !r.1.is_left,
        r.0.other_point == r.1.point,
        r.1.other_point == r.0.point,
{
    proof {
        crate::geometry::lemma_coord_cmp_antisymmetric(p, q);
    }
    let less = matches!(crate::geometry::compare_coords(p, q), Ordering::Less);
    let l = if less {
        p
    } else {
        q
    };
    let r = if less {
        q
    } else {
        p
    };
    proof {
        crate::geometry::lemma_coord_cmp_antisymmetric(l, r);
    }
    (
        SweepEvent {
            point: l,
            other_point: r,
            is_left: true,
            operand,
            edge_type: EdgeType::Normal,
            seq_id: left_id,
        },
        SweepEvent {
            point: r,
            other_point: l,
            is_left: false,
            operand,
            edge_type: EdgeType::Normal,
            seq_id: right_id,
        },
    )
}

/// Decomposes a ring into one event pair per segment, walking consecutive
/// points. Arena handles are assigned in walk order from `base_id`: the
/// pair of segment `i` gets the handles `base_id + 2 * i` and
/// `base_id + 2 * i + 1`.
pub fn ring_segment_events(ring: &crate::geometry::Ring, operand: Operand, base_id: u64) -> (r:
    Vec<(SweepEvent, SweepEvent)>)
    requires
        ring.wf(),
        base_id + 2 * (ring@.len() - 1) <= u64::MAX,
    ensures
        r@.len() == ring@.len() - 1,
        forall|i: int|
            0 <= i < r@.len() ==> #[trigger] r@[i] == spec_segment_events(
                ring@[i],
                ring@[i + 1],
                operand,
                (base_id + 2 * i) as u64,
                (base_id + 2 * i + 1) as u64,
            ),
        forall|i: int| 0 <= i < r@.len() ==> (#[trigger] r@[i]).0.wf() && r@[i].1.wf(),
{
    let n = ring.points.len();
    let mut r: Vec<(SweepEvent, SweepEvent)> = Vec::new();
    let mut i: usize = 0;
    while i < n - 1
        invariant
            0 <= i <= n - 1,
            n == ring@.len(),
            ring.wf(),
            base_id + 2 * (ring@.len() - 1) <= u64::MAX,
            r@.len() == i,
            forall|k: int|
                0 <= k < i ==> #[trigger] r@[k] == spec_segment_events(
                    ring@[k],
                    ring@[k + 1],
                    operand,
                    (base_id + 2 * k) as u64,
                    (base_id + 2 * k + 1) as u64,
                ),
            forall|k: int| 0 <= k < i ==> (#[trigger] r@[k]).0.wf() && r@[k].1.wf(),
        decreases n - 1 - i,
    {
        let p = ring.points[i];
        let q = ring.points[i + 1];
        assert(ring@[i as int].wf() && ring@[i as int + 1].wf());
        assert(ring@[i as int] != ring@[i as int + 1]);
        let left_id: u64 = base_id + 2 * (i as u64);
        let right_id: u64 = base_id + 2 * (i as u64) + 1;
        let pair = segment_events(p, q, operand, left_id, right_id);
        r.push(pair);
        i = i + 1;
    }
    r
}

/// A segment as an unordered pair: its endpoints in lexicographic order.
pub open spec fn sorted_pair(a: Coord, b: Coord) -> (Coord, Coord) {
    if coord_cmp(a, b) == Ordering::Greater {
        (b, a)
    } else {
        (a, b)
    }
}

/// Which endpoint came first does not matter to an unordered pair.
pub proof fn lemma_sorted_pair_symmetric(a: Coord, b: Coord)
    ensures
        sorted_pair(a, b) == sorted_pair(b, a),
{
    crate::geometry::lemma_coord_cmp_antisymmetric(a, b);
}

/// The undirected segments a ring walk decomposes into, one per pair of
/// consecutive points.
pub open spec fn ring_segments(s: Seq<Coord>) -> Seq<(Coord, Coord)> {
    Seq::new((s.len() - 1) as nat, |i: int| sorted_pair(s[i], s[i + 1]))
}

/// Re-parameterizing a closed ring's starting point by one step leaves the
/// multiset of undirected segments unchanged: the sweep sees the same
/// segments, so the decomposition into events differs only in the arena
/// handles.
pub proof fn lemma_rotation_preserves_segments(s: Seq<Coord>)
    requires
        s.len() >= 2,
        s.first() == s.last(),
    ensures
        ring_segments(crate::connector::rotate_ring_once(s)).to_multiset() == ring_segments(
            s,
        ).to_multiset(),
{
    broadcast use vstd::seq_lib::group_to_multiset_ensures;

    let t = ring_segments(s);
    let u = ring_segments(crate::connector::rotate_ring_once(s));
    assert(u =~= t.drop_first().push(t.first()));
    assert(t.remove(0) =~= t.drop_first());
    assert(t.drop_first().to_multiset() =~= t.to_multiset().remove(t.first()));
    assert(t.contains(t.first()));
    assert(t.to_multiset().count(t.first()) > 0);
    assert(u.to_multiset() =~= t.drop_first().to_multiset().insert(t.first()));
    assert(t.to_multiset().remove(t.first()).insert(t.first()) =~= t.to_multiset());
}

/// Reversing a ring's winding direction also leaves the multiset of
/// undirected segments unchanged: each segment is walked the other way but
/// keeps its endpoints.
pub proof fn lemma_reversal_preserves_segments(s: Seq<Coord>)
    requires
        s.len() >= 1,
    ensures
        ring_segments(s.reverse()).to_multiset() == ring_segments(s).to_multiset(),
{
    let t = ring_segments(s);
    let u = ring_segments(s.reverse());
    assert forall|i: int| 0 <= i < u.len() implies u[i] == t.reverse()[i] by {
        lemma_sorted_pair_symmetric(s.reverse()[i], s.reverse()[i + 1]);
    }
    assert(u =~= t.reverse());
    t.lemma_reverse_to_multiset();
}

/// A segment's event pair does not depend on the direction in which the
/// ring lists its endpoints: re-parameterizing a ring's starting point or
/// reversing its winding direction decomposes into the same events.
pub proof fn lemma_segment_events_undirected(
    p: Coord,
    q: Coord,
    operand: Operand,
    left_id: u64,
    right_id: u64,
)
    requires
        p != q,
    ensures
        spec_segment_events(p, q, operand, left_id, right_id) == spec_segment_events(
            q,
            p,
            operand,
            left_id,
            right_id,
        ),
{
    crate::geometry::lemma_coord_cmp_antisymmetric(p, q);
}

} // verus!
