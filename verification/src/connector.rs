//! Ring orientation and hole-to-shell nesting support: the signed area that
//! tells shells from holes, and the bounding-box prefilter that assigns a
//! hole to the smallest enclosing shell candidate.

use vstd::prelude::*;
use crate::bbox::BoundingBox;
use crate::geometry::{Coord, Ring};
use crate::sweep_event::lemma_mul_bound;

verus! {

/// One edge's contribution to the shoelace sum.
pub open spec fn edge_term(a: Coord, b: Coord) -> int {
    a.x * b.y - b.x * a.y
}

/// Twice the signed area of the closed polyline `s`: the shoelace sum over
/// consecutive points. Positive for counter-clockwise rings.
pub open spec fn ring_double_area(s: Seq<Coord>) -> int
    decreases s.len(),
{
    if s.len() < 2 {
        0
    } else {
        ring_double_area(s.drop_last()) + edge_term(s[s.len() - 2], s.last())
    }
}

/// The largest magnitude one shoelace term can reach under `COORD_LIMIT`.
pub proof fn lemma_edge_term_bound(a: Coord, b: Coord)
    requires
        a.wf(),
        b.wf(),
    ensures
        -0x4000_0000_0000_0000 <= edge_term(a, b) <= 0x4000_0000_0000_0000,
{
    lemma_mul_bound(a.x as int, b.y as int, 0x4000_0000);
    lemma_mul_bound(b.x as int, a.y as int, 0x4000_0000);
}

impl Ring {
    /// Twice the signed area of the ring, exactly: positive when the ring
    /// winds counter-clockwise, negative when clockwise.
    pub fn double_signed_area(&self) -> (r: i128)
        requires
            self.wf(),
        ensures
            r == ring_double_area(self@),
    {
        let n = self.points.len();
        let mut acc: i128 = 0;
        let mut i: usize = 1;
        assert(self@.take(1) =~= seq![self@[0]]);
        assert(ring_double_area(self@.take(1)) == 0);
        while i < n
            invariant
                1 <= i <= n,
                n == self@.len(),
                self.wf(),
                acc == ring_double_area(self@.take(i as int)),
                -0x4000_0000_0000_0000 * (i as int) <= acc <= 0x4000_0000_0000_0000 * (i as int),
            decreases n - i,
        {
            let a = self.points[i - 1];
            let b = self.points[i];
            proof {
                assert(self@[i as int - 1].wf() && self@[i as int].wf());
                lemma_edge_term_bound(a, b);
                lemma_mul_bound(a.x as int, b.y as int, 0x4000_0000);
                lemma_mul_bound(b.x as int, a.y as int, 0x4000_0000);
                assert(self@.take(i + 1).drop_last() =~= self@.take(i as int));
                assert(self@.take(i + 1).last() == self@[i as int]);
                assert(self@.take(i + 1)[i as int - 1] == self@[i as int - 1]);
            }
            let term: i128 = (a.x as i128) * (b.y as i128) - (b.x as i128) * (a.y as i128);
            acc = acc + term;
            i = i + 1;
        }
        assert(self@.take(n as int) =~= self@);
        acc
    }

    /// Whether the ring winds counter-clockwise: the orientation convention
    /// of output shells, holes winding the other way.
    pub fn is_counter_clockwise(&self) -> (r: bool)
        requires
            self.wf(),
        ensures
            r == (ring_double_area(self@) > 0),
    {
        self.double_signed_area() > 0
    }
}

/// Reversing one edge flips the sign of its shoelace contribution.
pub proof fn lemma_edge_term_antisymmetric(a: Coord, b: Coord)
    ensures
        edge_term(a, b) == -edge_term(b, a),
{
}

/// The shoelace sum can be peeled from the front as well as from the back.
proof fn lemma_ring_double_area_drop_first(s: Seq<Coord>)
    requires
        s.len() >= 2,
    ensures
        ring_double_area(s) == edge_term(s[0], s[1]) + ring_double_area(s.drop_first()),
    decreases s.len(),
{
    assert(ring_double_area(s) == ring_double_area(s.drop_last()) + edge_term(
        s[s.len() - 2],
        s.last(),
    ));
    if s.len() == 2 {
        assert(ring_double_area(s.drop_first()) == 0);
        assert(ring_double_area(s.drop_last()) == 0);
    } else {
        lemma_ring_double_area_drop_first(s.drop_last());
        assert(s.drop_last().drop_first() =~= s.drop_first().drop_last());
        assert(s.drop_last()[0] == s[0] && s.drop_last()[1] == s[1]);
        assert(s.drop_first().len() >= 2);
        assert(ring_double_area(s.drop_first()) == ring_double_area(s.drop_first().drop_last())
            + edge_term(s.drop_first()[s.drop_first().len() - 2], s.drop_first().last()));
        assert(s.drop_first()[s.drop_first().len() - 2] == s[s.len() - 2]);
        assert(s.drop_first().last() == s.last());
    }
}

/// Reversing the order of a ring's points negates its signed area: a ring
/// wound the other way has the opposite orientation, and nothing else about
/// the orientation test changes.
pub proof fn lemma_ring_double_area_reversed(s: Seq<Coord>)
    ensures
        ring_double_area(s.reverse()) == -ring_double_area(s),
    decreases s.len(),
{
    if s.len() < 2 {
        assert(s.reverse().len() == s.len());
    } else {
        lemma_ring_double_area_reversed(s.drop_first());
        assert(s.reverse().drop_last() =~= s.drop_first().reverse());
        lemma_ring_double_area_drop_first(s);
        assert(s.reverse()[s.len() - 2] == s[1]);
        assert(s.reverse().last() == s[0]);
        lemma_edge_term_antisymmetric(s[0], s[1]);
        assert(ring_double_area(s.reverse()) == ring_double_area(s.reverse().drop_last())
            + edge_term(s[1], s[0]));
    }
}

/// One step of re-parameterizing a closed ring's starting point: the walk
/// starts at the second point and closes there instead.
pub open spec fn rotate_ring_once(s: Seq<Coord>) -> Seq<Coord> {
    s.drop_first().push(s[1])
}

/// Starting a closed ring's walk one point later neither changes its length
/// nor its signed area, and the walk stays closed.
pub proof fn lemma_rotate_once_preserves_area(s: Seq<Coord>)
    requires
        s.len() >= 2,
        s.first() == s.last(),
    ensures
        ring_double_area(rotate_ring_once(s)) == ring_double_area(s),
        rotate_ring_once(s).len() == s.len(),
        rotate_ring_once(s).first() == rotate_ring_once(s).last(),
{
    lemma_ring_double_area_drop_first(s);
    let t = s.drop_first();
    assert(rotate_ring_once(s).drop_last() =~= t);
    assert(ring_double_area(t.push(s[1])) == ring_double_area(t) + edge_term(t.last(), s[1]));
    assert(t.last() == s.last());
}

/// Re-parameterizing a closed ring's starting point by any number of steps:
/// the walk beginning `k` points later.
pub open spec fn rotate_ring(s: Seq<Coord>, k: nat) -> Seq<Coord>
    decreases k,
{
    if k == 0 {
        s
    } else {
        rotate_ring(rotate_ring_once(s), (k - 1) as nat)
    }
}

/// Re-parameterizing a closed ring's starting point does not change its
/// signed area: orientation decisions are independent of where the ring's
/// point list happens to begin.
pub proof fn lemma_rotation_preserves_area(s: Seq<Coord>, k: nat)
    requires
        s.len() >= 2,
        s.first() == s.last(),
    ensures
        ring_double_area(rotate_ring(s, k)) == ring_double_area(s),
        rotate_ring(s, k).len() == s.len(),
        rotate_ring(s, k).first() == rotate_ring(s, k).last(),
    decreases k,
{
    if k > 0 {
        lemma_rotate_once_preserves_area(s);
        lemma_rotation_preserves_area(rotate_ring_once(s), (k - 1) as nat);
    }
}

/// The summed shoelace areas of a list of rings.
pub open spec fn rings_double_area(s: Seq<Seq<Coord>>) -> int
    decreases s.len(),
{
    if s.len() == 0 {
        0
    } else {
        rings_double_area(s.drop_last()) + ring_double_area(s.last())
    }
}

/// Twice the signed area of a polygon: its exterior's area plus its holes'.
/// With holes wound opposite to their shell, each hole subtracts its area.
pub open spec fn polygon_double_area(p: crate::geometry::PolygonView) -> int {
    ring_double_area(p.exterior) + rings_double_area(p.interiors)
}

/// Twice the signed area of a whole region: the sum over its polygons.
pub open spec fn region_double_area(s: Seq<crate::geometry::PolygonView>) -> int
    decreases s.len(),
{
    if s.len() == 0 {
        0
    } else {
        region_double_area(s.drop_last()) + polygon_double_area(s.last())
    }
}

/// Area is additive over placing two regions side by side.
pub proof fn lemma_region_area_concat(
    a: Seq<crate::geometry::PolygonView>,
    b: Seq<crate::geometry::PolygonView>,
)
    ensures
        region_double_area(a + b) == region_double_area(a) + region_double_area(b),
    decreases b.len(),
{
    if b.len() == 0 {
        assert(a + b =~= a);
    } else {
        assert((a + b).drop_last() =~= a + b.drop_last());
        assert((a + b).last() == b.last());
        lemma_region_area_concat(a, b.drop_last());
    }
}

/// The area of a bounding box, used to pick the smallest enclosing shell.
pub open spec fn box_area(b: BoundingBox) -> int {
    (b.max.x - b.min.x) * (b.max.y - b.min.y)
}

/// Whether `outer` contains `inner`, boundary included.
pub open spec fn box_contains_box(outer: BoundingBox, inner: BoundingBox) -> bool {
    outer.spec_contains(inner.min) && outer.spec_contains(inner.max)
}

/// The bounding-box prefilter of hole-to-shell assignment: among the shells
/// whose box contains the hole's box, the first one of smallest box area.
/// `None` exactly when no shell's box contains the hole's box. A candidate
/// returned here still has to pass the exact point-in-ring containment test.
pub fn find_enclosing_shell(hole: BoundingBox, shells: &Vec<BoundingBox>) -> (r: Option<usize>)
    requires
        hole.wf(),
        forall|i: int| 0 <= i < shells@.len() ==> (#[trigger] shells@[i]).wf(),
    ensures
        r matches Some(i) ==> {
            &&& i < shells@.len()
            &&& box_contains_box(shells@[i as int], hole)
            &&& forall|j: int|
                0 <= j < shells@.len() && box_contains_box(#[trigger] shells@[j], hole) ==> box_area(
                    shells@[i as int],
                ) <= box_area(shells@[j])
            &&& forall|j: int|
                0 <= j < i && box_contains_box(#[trigger] shells@[j], hole) ==> box_area(
                    shells@[i as int],
                ) < box_area(shells@[j])
        },
        r is None <==> (forall|j: int|
            0 <= j < shells@.len() ==> !box_contains_box(#[trigger] shells@[j], hole)),
{
    let mut best: Option<usize> = None;
    let mut best_area: i128 = 0;
    let mut i: usize = 0;
    while i < shells.len()
        invariant
            0 <= i <= shells@.len(),
            forall|k: int| 0 <= k < shells@.len() ==> (#[trigger] shells@[k]).wf(),
            best is None ==> forall|j: int|
                0 <= j < i ==> !box_contains_box(#[trigger] shells@[j], hole),
            best matches Some(b) ==> {
                &&& b < i
                &&& box_contains_box(shells@[b as int], hole)
                &&& best_area == box_area(shells@[b as int])
                &&& forall|j: int|
                    0 <= j < i && box_contains_box(#[trigger] shells@[j], hole) ==> best_area
                        <= box_area(shells@[j])
                &&& forall|j: int|
                    0 <= j < b && box_contains_box(#[trigger] shells@[j], hole) ==> best_area
                        < box_area(shells@[j])
            },
        decreases shells@.len() - i,
    {
        let s = shells[i];
        if s.contains_box(hole) {
            proof {
                assert(shells@[i as int].wf());
                lemma_mul_bound(
                    s.max.x - s.min.x,
                    s.max.y - s.min.y,
                    0x8000_0000int,
                );
            }
            let area: i128 = (s.max.x as i128 - s.min.x as i128) * (s.max.y as i128
                - s.min.y as i128);
            match best {
                None => {
                    best = Some(i);
                    best_area = area;
                },
                Some(_) => {
                    if area < best_area {
                        best = Some(i);
                        best_area = area;
                    }
                },
            }
        }
        i = i + 1;
    }
    best
}

} // verus!
