//! Coordinates, rings, polygons and multi-polygons, with their validity
//! rules: coordinates bounded so that orientation tests cannot overflow,
//! rings closed, long enough, and free of zero-length edges.

use vstd::prelude::*;
use core::cmp::Ordering;

verus! {

/// Largest coordinate magnitude accepted. Keeping coordinates within this
/// bound lets the orientation tests and ring areas be computed exactly in
/// 128-bit arithmetic, with no overflow for rings of any length.
pub const COORD_LIMIT: i64 = 0x4000_0000;

/// A point of the plane.
#[derive(Clone, Copy, Debug, PartialEq, Eq, PartialOrd, Ord, Structural)]
pub struct Coord {
    pub x: i64,
    pub y: i64,
}

impl Coord {
    /// Both components lie within `COORD_LIMIT` in magnitude.
    pub open spec fn wf(self) -> bool {
        &&& -COORD_LIMIT <= self.x <= COORD_LIMIT
        &&& -COORD_LIMIT <= self.y <= COORD_LIMIT
    }

    pub fn new(x: i64, y: i64) -> (r: Coord)
        ensures
            r.x == x,
            r.y == y,
    {
        Coord { x, y }
    }
}

/// The lexicographic order on coordinates: by `x`, then by `y`. This is the
/// order in which the sweep line encounters points.
pub open spec fn coord_cmp(a: Coord, b: Coord) -> Ordering {
    if a.x < b.x {
        Ordering::Less
    } else if a.x > b.x {
        Ordering::Greater
    } else if a.y < b.y {
        Ordering::Less
    } else if a.y > b.y {
        Ordering::Greater
    } else {
        Ordering::Equal
    }
}

/// Three-way lexicographic comparison of two coordinates.
pub fn compare_coords(a: Coord, b: Coord) -> (r: Ordering)
    ensures
        r == coord_cmp(a, b),
{
    if a.x < b.x {
        Ordering::Less
    } else if a.x > b.x {
        Ordering::Greater
    } else if a.y < b.y {
        Ordering::Less
    } else if a.y > b.y {
        Ordering::Greater
    } else {
        Ordering::Equal
    }
}

/// The lexicographic order is antisymmetric: swapping the arguments swaps
/// `Less` and `Greater`, and `Equal` holds exactly for equal points.
pub proof fn lemma_coord_cmp_antisymmetric(a: Coord, b: Coord)
    ensures
        coord_cmp(a, b) == Ordering::Less <==> coord_cmp(b, a) == Ordering::Greater,
        coord_cmp(a, b) == Ordering::Equal <==> a == b,
{
}

/// A closed sequence of points bounding a shell or a hole.
#[derive(Debug)]
pub struct Ring {
    pub points: Vec<Coord>,
}

/// A ring viewed as its sequence of points.
pub open spec fn ring_wf(s: Seq<Coord>) -> bool {
    &&& s.len() >= 4
    &&& s.first() == s.last()
    &&& forall|i: int| 0 <= i < s.len() ==> (#[trigger] s[i]).wf()
    &&& forall|i: int| 0 <= i && i + 1 < s.len() ==> s[i] != #[trigger] s[i + 1]
}

impl Ring {
    pub open spec fn view(self) -> Seq<Coord> {
        self.points@
    }

    /// A valid ring is explicitly closed (first point repeated at the end),
    /// has at least three vertices beside the closing point, stays within
    /// the coordinate bound, and has no zero-length edge.
    pub open spec fn wf(self) -> bool {
        ring_wf(self@)
    }

    pub fn new(points: Vec<Coord>) -> (r: Ring)
        ensures
            r@ == points@,
    {
        Ring { points }
    }

    /// An independent copy of the ring.
    pub fn duplicate(&self) -> (r: Ring)
        ensures
            r@ == self@,
    {
        let mut points: Vec<Coord> = Vec::new();
        let mut i: usize = 0;
        while i < self.points.len()
            invariant
                0 <= i <= self.points@.len(),
                points@ == self.points@.take(i as int),
            decreases self.points@.len() - i,
        {
            points.push(self.points[i]);
            assert(points@ =~= self.points@.take(i + 1));
            i = i + 1;
        }
        assert(self.points@.take(self.points@.len() as int) =~= self.points@);
        Ring { points }
    }
}

/// The views of a sequence of rings.
pub open spec fn ring_views(s: Seq<Ring>) -> Seq<Seq<Coord>> {
    s.map_values(|r: Ring| r@)
}

/// The views of a sequence of polygons.
pub open spec fn poly_views(s: Seq<Polygon>) -> Seq<PolygonView> {
    s.map_values(|p: Polygon| p@)
}

pub proof fn lemma_ring_views_push(s: Seq<Ring>, r: Ring)
    ensures
        ring_views(s.push(r)) =~= ring_views(s).push(r@),
{
}

pub proof fn lemma_poly_views_push(s: Seq<Polygon>, p: Polygon)
    ensures
        poly_views(s.push(p)) =~= poly_views(s).push(p@),
{
}

/// The mathematical value of a polygon: its exterior ring and its holes,
/// each as a point sequence.
#[verifier::ext_equal]
pub struct PolygonView {
    pub exterior: Seq<Coord>,
    pub interiors: Seq<Seq<Coord>>,
}

impl PolygonView {
    pub open spec fn wf(self) -> bool {
        &&& ring_wf(self.exterior)
        &&& forall|i: int| 0 <= i < self.interiors.len() ==> ring_wf(#[trigger] self.interiors[i])
    }
}

/// One polygon: an exterior shell and zero or more holes.
#[derive(Debug)]
pub struct Polygon {
    pub exterior: Ring,
    pub interiors: Vec<Ring>,
}

impl Polygon {
    pub open spec fn view(self) -> PolygonView {
        PolygonView { exterior: self.exterior@, interiors: ring_views(self.interiors@) }
    }

    pub open spec fn wf(self) -> bool {
        self@.wf()
    }

    pub fn new(exterior: Ring, interiors: Vec<Ring>) -> (r: Polygon)
        ensures
            r@.exterior == exterior@,
            r@.interiors == ring_views(interiors@),
    {
        Polygon { exterior, interiors }
    }

    /// An independent copy of the polygon.
    pub fn duplicate(&self) -> (r: Polygon)
        ensures
            r@ == self@,
    {
        let exterior = self.exterior.duplicate();
        let mut interiors: Vec<Ring> = Vec::new();
        let mut i: usize = 0;
        assert(self.interiors@.take(0) =~= Seq::<Ring>::empty());
        assert(ring_views(Seq::<Ring>::empty()) =~= Seq::<Seq<Coord>>::empty());
        assert(ring_views(interiors@) =~= Seq::<Seq<Coord>>::empty());
        while i < self.interiors.len()
            invariant
                0 <= i <= self.interiors@.len(),
                ring_views(interiors@) == ring_views(self.interiors@.take(i as int)),
            decreases self.interiors@.len() - i,
        {
            let ring = self.interiors[i].duplicate();
            proof {
                lemma_ring_views_push(interiors@, ring);
                lemma_ring_views_push(self.interiors@.take(i as int), self.interiors@[i as int]);
                assert(self.interiors@.take(i + 1) =~= self.interiors@.take(i as int).push(
                    self.interiors@[i as int],
                ));
            }
            interiors.push(ring);
            i = i + 1;
        }
        assert(self.interiors@.take(self.interiors@.len() as int) =~= self.interiors@);
        let r = Polygon { exterior, interiors };
        assert(r@ =~= self@);
        r
    }
}

/// A region: zero or more polygons.
#[derive(Debug)]
pub struct MultiPolygon {
    pub polygons: Vec<Polygon>,
}

impl MultiPolygon {
    pub open spec fn view(self) -> Seq<PolygonView> {
        poly_views(self.polygons@)
    }

    pub open spec fn wf(self) -> bool {
        forall|i: int| 0 <= i < self@.len() ==> (#[trigger] self@[i]).wf()
    }

    pub fn new(polygons: Vec<Polygon>) -> (r: MultiPolygon)
        ensures
            r@ == poly_views(polygons@),
    {
        MultiPolygon { polygons }
    }

    /// The empty region.
    pub fn empty() -> (r: MultiPolygon)
        ensures
            r@ =~= Seq::<PolygonView>::empty(),
            r.wf(),
    {
        MultiPolygon { polygons: Vec::new() }
    }

    pub fn is_empty(&self) -> (r: bool)
        ensures
            r == (self@.len() == 0),
    {
        self.polygons.len() == 0
    }

    /// An independent copy of the region.
    pub fn duplicate(&self) -> (r: MultiPolygon)
        ensures
            r@ == self@,
    {
        let mut polygons: Vec<Polygon> = Vec::new();
        let mut i: usize = 0;
        assert(self.polygons@.take(0) =~= Seq::<Polygon>::empty());
        assert(poly_views(Seq::<Polygon>::empty()) =~= Seq::<PolygonView>::empty());
        assert(poly_views(polygons@) =~= Seq::<PolygonView>::empty());
        while i < self.polygons.len()
            invariant
                0 <= i <= self.polygons@.len(),
                poly_views(polygons@) == poly_views(self.polygons@.take(i as int)),
            decreases self.polygons@.len() - i,
        {
            let p = self.polygons[i].duplicate();
            proof {
                lemma_poly_views_push(polygons@, p);
                lemma_poly_views_push(self.polygons@.take(i as int), self.polygons@[i as int]);
                assert(self.polygons@.take(i + 1) =~= self.polygons@.take(i as int).push(
                    self.polygons@[i as int],
                ));
            }
            polygons.push(p);
            i = i + 1;
        }
        assert(self.polygons@.take(self.polygons@.len() as int) =~= self.polygons@);
        MultiPolygon { polygons }
    }

    /// The region whose polygons are those of `self` followed by those of
    /// `other`: the union of two regions known not to interact.
    pub fn concatenate(&self, other: &MultiPolygon) -> (r: MultiPolygon)
        ensures
            r@ == self@ + other@,
    {
        let first = self.duplicate();
        let mut polygons = first.polygons;
        assert(poly_views(polygons@) == self@);
        let mut j: usize = 0;
        assert(other.polygons@.take(0) =~= Seq::<Polygon>::empty());
        assert(poly_views(Seq::<Polygon>::empty()) =~= Seq::<PolygonView>::empty());
        assert(self@ + poly_views(other.polygons@.take(0)) =~= self@);
        while j < other.polygons.len()
            invariant
                0 <= j <= other.polygons@.len(),
                poly_views(polygons@) == self@ + poly_views(other.polygons@.take(j as int)),
            decreases other.polygons@.len() - j,
        {
            let p = other.polygons[j].duplicate();
            proof {
                lemma_poly_views_push(polygons@, p);
                lemma_poly_views_push(other.polygons@.take(j as int), other.polygons@[j as int]);
                assert(other.polygons@.take(j + 1) =~= other.polygons@.take(j as int).push(
                    other.polygons@[j as int],
                ));
                assert((self@ + poly_views(other.polygons@.take(j as int))).push(
                    other.polygons@[j as int]@,
                ) =~= self@ + poly_views(other.polygons@.take(j as int)).push(
                    other.polygons@[j as int]@,
                ));
            }
            polygons.push(p);
            j = j + 1;
        }
        assert(other.polygons@.take(other.polygons@.len() as int) =~= other.polygons@);
        let r = MultiPolygon { polygons };
        assert(r@ =~= self@ + other@);
        r
    }
}

} // verus!
