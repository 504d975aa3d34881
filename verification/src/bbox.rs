//! Axis-aligned bounding boxes: the trivial-reject test of the boolean
//! operations and the cheap prefilter of hole-to-shell nesting.

use vstd::prelude::*;
use crate::geometry::{ring_wf, Coord, MultiPolygon, PolygonView, Ring};

verus! {

/// A bounded axis-aligned rectangle given by its minimum and maximum corners.
/// Degenerate boxes (zero width or height) are legal and stand for a point or
/// an axis-aligned line.
#[derive(Clone, Copy, Debug, PartialEq, Eq, Structural)]
pub struct BoundingBox {
    pub min: Coord,
    pub max: Coord,
}

impl BoundingBox {
    /// The corners are ordered componentwise and within the coordinate bound.
    pub open spec fn wf(self) -> bool {
        &&& self.min.wf()
        &&& self.max.wf()
        &&& self.min.x <= self.max.x
        &&& self.min.y <= self.max.y
    }

    /// The box that covers exactly one point.
    pub fn of_point(p: Coord) -> (r: BoundingBox)
        ensures
            r.min == p,
            r.max == p,
            p.wf() ==> r.wf(),
    {
        BoundingBox { min: p, max: p }
    }

    /// Horizontal extent.
    pub fn width(self) -> (r: i64)
        requires
            self.wf(),
        ensures
            r == self.max.x - self.min.x,
    {
        self.max.x - self.min.x
    }

    /// Vertical extent.
    pub fn height(self) -> (r: i64)
        requires
            self.wf(),
        ensures
            r == self.max.y - self.min.y,
    {
        self.max.y - self.min.y
    }

    /// Whether a point lies in the box, boundary included.
    pub open spec fn spec_contains(self, p: Coord) -> bool {
        &&& self.min.x <= p.x <= self.max.x
        &&& self.min.y <= p.y <= self.max.y
    }

    pub fn contains_point(self, p: Coord) -> (r: bool)
        ensures
            r == self.spec_contains(p),
    {
        self.min.x <= p.x && p.x <= self.max.x && self.min.y <= p.y && p.y <= self.max.y
    }

    /// Whether two boxes share at least one point, boundary included.
    pub open spec fn spec_overlaps(self, other: BoundingBox) -> bool {
        &&& self.min.x <= other.max.x
        &&& other.min.x <= self.max.x
        &&& self.min.y <= other.max.y
        &&& other.min.y <= self.max.y
    }

    pub fn overlaps(self, other: BoundingBox) -> (r: bool)
        ensures
            r == self.spec_overlaps(other),
    {
        self.min.x <= other.max.x && other.min.x <= self.max.x && self.min.y <= other.max.y
            && other.min.y <= self.max.y
    }

    /// Whether `other` lies entirely inside this box, boundary included: the
    /// prefilter of hole-to-shell assignment.
    pub fn contains_box(self, other: BoundingBox) -> (r: bool)
        ensures
            r == (self.spec_contains(other.min) && self.spec_contains(other.max)),
    {
        self.contains_point(other.min) && self.contains_point(other.max)
    }

    /// The smallest box covering both arguments.
    pub open spec fn spec_merge(self, other: BoundingBox) -> BoundingBox {
        BoundingBox {
            min: Coord {
                x: if self.min.x <= other.min.x {
                    self.min.x
                } else {
                    other.min.x
                },
                y: if self.min.y <= other.min.y {
                    self.min.y
                } else {
                    other.min.y
                },
            },
            max: Coord {
                x: if self.max.x >= other.max.x {
                    self.max.x
                } else {
                    other.max.x
                },
                y: if self.max.y >= other.max.y {
                    self.max.y
                } else {
                    other.max.y
                },
            },
        }
    }

    pub fn merge(self, other: BoundingBox) -> (r: BoundingBox)
        ensures
            r == self.spec_merge(other),
    {
        BoundingBox {
            min: Coord {
                x: if self.min.x <= other.min.x {
                    self.min.x
                } else {
                    other.min.x
                },
                y: if self.min.y <= other.min.y {
                    self.min.y
                } else {
                    other.min.y
                },
            },
            max: Coord {
                x: if self.max.x >= other.max.x {
                    self.max.x
                } else {
                    other.max.x
                },
                y: if self.max.y >= other.max.y {
                    self.max.y
                } else {
                    other.max.y
                },
            },
        }
    }

    /// Extend a box to cover one more point.
    pub open spec fn spec_extend(self, p: Coord) -> BoundingBox {
        self.spec_merge(BoundingBox { min: p, max: p })
    }
}

/// Overlap is symmetric: the trivial-reject test does not depend on which
/// operand is asked.
pub proof fn lemma_overlaps_symmetric(a: BoundingBox, b: BoundingBox)
    ensures
        a.spec_overlaps(b) == b.spec_overlaps(a),
{
}

/// Disjoint boxes share no point: a point of one is outside the other.
pub proof fn lemma_disjoint_no_common_point(a: BoundingBox, b: BoundingBox, p: Coord)
    requires
        !a.spec_overlaps(b),
        a.spec_contains(p),
    ensures
        !b.spec_contains(p),
{
}

/// The box of a non-empty sequence of points, folded from the front.
pub open spec fn bbox_of_points(s: Seq<Coord>) -> BoundingBox
    recommends
        s.len() > 0,
    decreases s.len(),
{
    if s.len() <= 1 {
        BoundingBox { min: s.first(), max: s.first() }
    } else {
        bbox_of_points(s.drop_last()).spec_extend(s.last())
    }
}

/// The folded box contains every point it was folded from.
pub proof fn lemma_bbox_of_points_contains(s: Seq<Coord>, i: int)
    requires
        0 <= i < s.len(),
    ensures
        bbox_of_points(s).spec_contains(s[i]),
    decreases s.len(),
{
    if s.len() > 1 && i < s.len() - 1 {
        lemma_bbox_of_points_contains(s.drop_last(), i);
    }
}

impl Ring {
    /// The bounding box of a ring's points.
    pub fn bounding_box(&self) -> (r: BoundingBox)
        requires
            self.wf(),
        ensures
            r == bbox_of_points(self@),
            r.wf(),
    {
        let mut b = BoundingBox::of_point(self.points[0]);
        let mut i: usize = 1;
        assert(b == bbox_of_points(self@.take(1)));
        while i < self.points.len()
            invariant
                1 <= i <= self.points@.len(),
                self.wf(),
                b == bbox_of_points(self@.take(i as int)),
                b.wf(),
            decreases self.points@.len() - i,
        {
            let p = self.points[i];
            assert(self@.take(i + 1).drop_last() =~= self@.take(i as int));
            assert(self@[i as int].wf());
            b = b.merge(BoundingBox::of_point(p));
            i = i + 1;
        }
        assert(self@.take(self@.len() as int) =~= self@);
        b
    }
}

/// A merged box contains whatever either part contains.
pub proof fn lemma_merge_contains(b1: BoundingBox, b2: BoundingBox, p: Coord)
    requires
        b1.spec_contains(p) || b2.spec_contains(p),
    ensures
        b1.spec_merge(b2).spec_contains(p),
{
}

/// Folding further rings onto a base box keeps everything the base held.
proof fn lemma_rings_from_keeps_base(base: BoundingBox, rings: Seq<Seq<Coord>>, p: Coord)
    requires
        base.spec_contains(p),
    ensures
        bbox_of_rings_from(base, rings).spec_contains(p),
    decreases rings.len(),
{
    if rings.len() > 0 {
        lemma_rings_from_keeps_base(base, rings.drop_last(), p);
    }
}

/// The fold over a list of rings contains every point of every ring.
proof fn lemma_rings_from_contains(base: BoundingBox, rings: Seq<Seq<Coord>>, j: int, k: int)
    requires
        0 <= j < rings.len(),
        0 <= k < rings[j].len(),
    ensures
        bbox_of_rings_from(base, rings).spec_contains(rings[j][k]),
    decreases rings.len(),
{
    if j == rings.len() - 1 {
        lemma_bbox_of_points_contains(rings[j], k);
    } else {
        lemma_rings_from_contains(base, rings.drop_last(), j, k);
    }
}
/// rings, exterior shells and holes alike, folded in order of appearance.
/// `None` exactly for the empty region.
pub open spec fn bbox_of_polygons(s: Seq<PolygonView>) -> Option<BoundingBox>
    decreases s.len(),
{
    if s.len() == 0 {
        None
    } else {
        let rest = bbox_of_polygons(s.drop_last());
        let last = bbox_of_polygon(s.last());
        match rest {
            None => Some(last),
            Some(b) => Some(b.spec_merge(last)),
        }
    }
}

/// The box of one polygon: the exterior's box merged with each hole's box.
pub open spec fn bbox_of_polygon(p: PolygonView) -> BoundingBox {
    bbox_of_rings_from(bbox_of_points(p.exterior), p.interiors)
}

pub open spec fn bbox_of_rings_from(base: BoundingBox, rings: Seq<Seq<Coord>>) -> BoundingBox
    decreases rings.len(),
{
    if rings.len() == 0 {
        base
    } else {
        bbox_of_rings_from(base, rings.drop_last()).spec_merge(bbox_of_points(rings.last()))
    }
}

impl MultiPolygon {
    /// The bounding box of the whole region, or `None` when it is empty.
    pub fn bounding_box(&self) -> (r: Option<BoundingBox>)
        requires
            self.wf(),
        ensures
            r == bbox_of_polygons(self@),
            r is Some ==> r.unwrap().wf(),
            r is None <==> self@.len() == 0,
    {
        let mut acc: Option<BoundingBox> = None;
        let mut i: usize = 0;
        assert(self@.take(0) =~= Seq::<PolygonView>::empty());
        while i < self.polygons.len()
            invariant
                0 <= i <= self@.len(),
                self@.len() == self.polygons@.len(),
                self.wf(),
                acc == bbox_of_polygons(self@.take(i as int)),
                acc is Some ==> acc.unwrap().wf(),
                acc is None <==> i == 0,
            decreases self@.len() - i,
        {
            let poly = &self.polygons[i];
            assert(self@[i as int] == poly@) by {
                reveal_with_fuel(crate::geometry::poly_views, 1);
            }
            assert(poly@.wf());
            let mut b = poly.exterior.bounding_box();
            let ghost pv = poly@;
            let mut j: usize = 0;
            assert(pv.interiors.take(0) =~= Seq::<Seq<Coord>>::empty());
            while j < poly.interiors.len()
                invariant
                    0 <= j <= poly.interiors@.len(),
                    pv == poly@,
                    pv.wf(),
                    pv.interiors.len() == poly.interiors@.len(),
                    b == bbox_of_rings_from(bbox_of_points(pv.exterior), pv.interiors.take(
                        j as int,
                    )),
                    b.wf(),
                decreases poly.interiors@.len() - j,
            {
                assert(pv.interiors[j as int] == poly.interiors@[j as int]@);
                assert(ring_wf(poly.interiors@[j as int]@));
                let rb = poly.interiors[j].bounding_box();
                assert(pv.interiors.take(j + 1).drop_last() =~= pv.interiors.take(j as int));
                b = b.merge(rb);
                j = j + 1;
            }
            assert(pv.interiors.take(pv.interiors.len() as int) =~= pv.interiors);
            assert(b == bbox_of_polygon(self@[i as int]));
            acc = match acc {
                None => Some(b),
                Some(prev) => Some(prev.merge(b)),
            };
            assert(self@.take(i + 1).drop_last() =~= self@.take(i as int));
            i = i + 1;
        }
        assert(self@.take(self@.len() as int) =~= self@);
        acc
    }
}

/// The region's box bounds every point of every ring, shells and holes
/// alike: what `bounding_box` returns is a true enclosure of the geometry.
pub proof fn lemma_region_box_bounds(mp: Seq<PolygonView>, id: crate::validate::RingId, k: int)
    requires
        crate::validate::ring_id_in_range(mp, id),
        0 <= k < crate::validate::ring_at(mp, id).len(),
    ensures
        bbox_of_polygons(mp) is Some,
        bbox_of_polygons(mp).unwrap().spec_contains(crate::validate::ring_at(mp, id)[k]),
    decreases mp.len(),
{
    let pi = match id {
        crate::validate::RingId::Exterior { polygon } => polygon as int,
        crate::validate::RingId::Interior { polygon, hole: _ } => polygon as int,
    };
    let p = crate::validate::ring_at(mp, id)[k];
    if pi == mp.len() - 1 {
        let poly = mp.last();
        match id {
            crate::validate::RingId::Exterior { polygon: _ } => {
                lemma_bbox_of_points_contains(poly.exterior, k);
                lemma_rings_from_keeps_base(bbox_of_points(poly.exterior), poly.interiors, p);
            },
            crate::validate::RingId::Interior { polygon: _, hole } => {
                lemma_rings_from_contains(
                    bbox_of_points(poly.exterior),
                    poly.interiors,
                    hole as int,
                    k,
                );
            },
        }
        assert(bbox_of_polygon(poly).spec_contains(p));
        if mp.len() > 1 {
            lemma_merge_contains(
                bbox_of_polygons(mp.drop_last()).unwrap(),
                bbox_of_polygon(poly),
                p,
            );
        }
    } else {
        let inner = match id {
            crate::validate::RingId::Exterior { polygon } => crate::validate::RingId::Exterior {
                polygon,
            },
            crate::validate::RingId::Interior { polygon, hole } => crate::validate::RingId::Interior {
                polygon,
                hole,
            },
        };
        assert(crate::validate::ring_at(mp.drop_last(), inner) == crate::validate::ring_at(
            mp,
            id,
        ));
        lemma_region_box_bounds(mp.drop_last(), inner, k);
        lemma_merge_contains(
            bbox_of_polygons(mp.drop_last()).unwrap(),
            bbox_of_polygon(mp.last()),
            p,
        );
    }
}

/// Operands whose bounding boxes do not overlap share no boundary point at
/// all: every point of a ring of one lies outside the other's box, so an
/// empty intersection and a side-by-side union are the right answers, not
/// merely the convention of the trivial evaluation.
pub proof fn lemma_disjoint_regions_share_no_point(
    a: Seq<PolygonView>,
    b: Seq<PolygonView>,
    id_a: crate::validate::RingId,
    id_b: crate::validate::RingId,
    k_a: int,
    k_b: int,
)
    requires
        a.len() > 0,
        b.len() > 0,
        !bbox_of_polygons(a).unwrap().spec_overlaps(bbox_of_polygons(b).unwrap()),
        crate::validate::ring_id_in_range(a, id_a),
        0 <= k_a < crate::validate::ring_at(a, id_a).len(),
        crate::validate::ring_id_in_range(b, id_b),
        0 <= k_b < crate::validate::ring_at(b, id_b).len(),
    ensures
        crate::validate::ring_at(a, id_a)[k_a] != crate::validate::ring_at(b, id_b)[k_b],
{
    lemma_region_box_bounds(a, id_a, k_a);
    lemma_region_box_bounds(b, id_b, k_b);
    lemma_disjoint_no_common_point(
        bbox_of_polygons(a).unwrap(),
        bbox_of_polygons(b).unwrap(),
        crate::validate::ring_at(a, id_a)[k_a],
    );
}

} // verus!
