//! Crossing-case analysis between two segments: the decision that tells the
//! sweep whether neighbouring edges are disjoint, touch at an endpoint,
//! cross in a single point that forces a split, or overlap collinearly.
//! All tests are exact orientation tests on integer coordinates.

use vstd::prelude::*;
use core::cmp::Ordering;
use crate::geometry::{compare_coords, coord_cmp, Coord};
use crate::sweep_event::{cross, signed_area};

verus! {

/// Lexicographic order, non-strict.
pub open spec fn lex_leq(a: Coord, b: Coord) -> bool {
    coord_cmp(a, b) != Ordering::Greater
}

/// Whether `p` lies on the segment from `l` to `r`, endpoints included. The
/// segment's endpoints must be given in lexicographic order; collinear
/// points are ordered along their common line by the same order, so the
/// range test is exact.
pub open spec fn point_on_segment(p: Coord, l: Coord, r: Coord) -> bool {
    &&& cross(l, r, p) == 0
    &&& lex_leq(l, p)
    &&& lex_leq(p, r)
}

/// How two segments relate, by the number and position of shared points.
#[derive(Clone, Copy, Debug, PartialEq, Eq, Structural)]
pub enum SegmentCrossing {
    /// No shared point: nothing to do.
    Disjoint,
    /// Exactly one shared point, an endpoint of both segments: recorded as
    /// an adjacency, no split needed.
    EndpointTouch,
    /// Exactly one shared point, interior to at least one segment: the
    /// segments it is interior to must be split there.
    InteriorPoint,
    /// Collinear segments sharing more than one point: both are split at
    /// the overlap boundaries and the shared range is tagged.
    CollinearOverlap,
}

/// The crossing case of the segments `(al, ar)` and `(bl, br)`, each given
/// with its endpoints in lexicographic order. A segment leaves the other's
/// supporting line immediately, so when exactly one endpoint lies on the
/// other's line, that endpoint is the only candidate shared point; when no
/// endpoint does, a shared point exists exactly when each segment's
/// endpoints lie strictly on opposite sides of the other's line.
pub open spec fn spec_classify_crossing(al: Coord, ar: Coord, bl: Coord, br: Coord) -> SegmentCrossing {
    let d1 = cross(al, ar, bl);
    let d2 = cross(al, ar, br);
    let d3 = cross(bl, br, al);
    let d4 = cross(bl, br, ar);
    if d1 == 0 && d2 == 0 {
        let lo = if lex_leq(al, bl) {
            bl
        } else {
            al
        };
        let hi = if lex_leq(ar, br) {
            ar
        } else {
            br
        };
        if coord_cmp(lo, hi) == Ordering::Less {
            SegmentCrossing::CollinearOverlap
        } else if lo == hi {
            SegmentCrossing::EndpointTouch
        } else {
            SegmentCrossing::Disjoint
        }
    } else if d1 == 0 {
        if lex_leq(al, bl) && lex_leq(bl, ar) {
            if bl == al || bl == ar {
                SegmentCrossing::EndpointTouch
            } else {
                SegmentCrossing::InteriorPoint
            }
        } else {
            SegmentCrossing::Disjoint
        }
    } else if d2 == 0 {
        if lex_leq(al, br) && lex_leq(br, ar) {
            if br == al || br == ar {
                SegmentCrossing::EndpointTouch
            } else {
                SegmentCrossing::InteriorPoint
            }
        } else {
            SegmentCrossing::Disjoint
        }
    } else if d3 == 0 {
        if lex_leq(bl, al) && lex_leq(al, br) {
            SegmentCrossing::InteriorPoint
        } else {
            SegmentCrossing::Disjoint
        }
    } else if d4 == 0 {
        if lex_leq(bl, ar) && lex_leq(ar, br) {
            SegmentCrossing::InteriorPoint
        } else {
            SegmentCrossing::Disjoint
        }
    } else if ((d1 > 0) != (d2 > 0)) && ((d3 > 0) != (d4 > 0)) {
        SegmentCrossing::InteriorPoint
    } else {
        SegmentCrossing::Disjoint
    }
}

/// Classifies the crossing case of two segments, each given with its
/// endpoints in lexicographic order, as the sweep stores them.
pub fn classify_crossing(al: Coord, ar: Coord, bl: Coord, br: Coord) -> (r: SegmentCrossing)
    requires
        al.wf(),
        ar.wf(),
        bl.wf(),
        br.wf(),
        lex_leq(al, ar),
        lex_leq(bl, br),
    ensures
        r == spec_classify_crossing(al, ar, bl, br),
{
    let d1 = signed_area(al, ar, bl);
    let d2 = signed_area(al, ar, br);
    let d3 = signed_area(bl, br, al);
    let d4 = signed_area(bl, br, ar);
    if d1 == 0 && d2 == 0 {
        let lo = if !matches!(compare_coords(al, bl), Ordering::Greater) {
            bl
        } else {
            al
        };
        let hi = if !matches!(compare_coords(ar, br), Ordering::Greater) {
            ar
        } else {
            br
        };
        match compare_coords(lo, hi) {
            Ordering::Less => SegmentCrossing::CollinearOverlap,
            Ordering::Equal => SegmentCrossing::EndpointTouch,
            Ordering::Greater => SegmentCrossing::Disjoint,
        }
    } else if d1 == 0 {
        if !matches!(compare_coords(al, bl), Ordering::Greater) && !matches!(
            compare_coords(bl, ar),
            Ordering::Greater,
        ) {
            if bl == al || bl == ar {
                SegmentCrossing::EndpointTouch
            } else {
                SegmentCrossing::InteriorPoint
            }
        } else {
            SegmentCrossing::Disjoint
        }
    } else if d2 == 0 {
        if !matches!(compare_coords(al, br), Ordering::Greater) && !matches!(
            compare_coords(br, ar),
            Ordering::Greater,
        ) {
            if br == al || br == ar {
                SegmentCrossing::EndpointTouch
            } else {
                SegmentCrossing::InteriorPoint
            }
        } else {
            SegmentCrossing::Disjoint
        }
    } else if d3 == 0 {
        if !matches!(compare_coords(bl, al), Ordering::Greater) && !matches!(
            compare_coords(al, br),
            Ordering::Greater,
        ) {
            SegmentCrossing::InteriorPoint
        } else {
            SegmentCrossing::Disjoint
        }
    } else if d4 == 0 {
        if !matches!(compare_coords(bl, ar), Ordering::Greater) && !matches!(
            compare_coords(ar, br),
            Ordering::Greater,
        ) {
            SegmentCrossing::InteriorPoint
        } else {
            SegmentCrossing::Disjoint
        }
    } else if ((d1 > 0) != (d2 > 0)) && ((d3 > 0) != (d4 > 0)) {
        SegmentCrossing::InteriorPoint
    } else {
        SegmentCrossing::Disjoint
    }
}

} // verus!
