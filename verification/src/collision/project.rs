//! Projections of boxes onto the coordinate axes, over encoded integer
//! endpoints.
//!
//! Endpoints are held as `i64` keys under any order-preserving encoding:
//! raw lattice coordinates (which order as themselves), or floating-point
//! endpoints passed through [`crate::codec::encode`].  One broadphase
//! instance must see a single encoding throughout, so that key order
//! means endpoint order.

use vstd::prelude::*;

use crate::collision::intersect::Intersect;

verus! {

/// Project2d is a trait that should be implemented by box shaped objects
/// that must be able to project themselves onto the axes of a 2d plane.
pub trait Project2d {
    /// The projections the object reports.
    spec fn projections2d_spec(&self) -> ProjectedBox2d;

    /// Returns the object's axis projections.
    fn projections2d(&self) -> (p: ProjectedBox2d)
        ensures
            p == self.projections2d_spec(),
    ;
}

/// Projection is an interval representing the projection of an object
/// onto an axis of the 2d plane, endpoints held as encoded integers so
/// that comparisons run on the integer unit.  The invariant
/// `start <= end` holds of every projection this crate builds.
#[derive(Clone, Copy, Debug, PartialEq, Eq, Structural)]
pub struct Projection {
    pub start: i64,
    pub end: i64,
}

/// Closed-interval overlap of two projections.
pub open spec fn overlaps(a: Projection, b: Projection) -> bool {
    a.start <= b.end && b.start <= a.end
}

impl Projection {
    /// The interval runs forward: its start does not exceed its end.
    pub open spec fn wf(self) -> bool {
        self.start <= self.end
    }

    /// Returns a new Projection with the given encoded start and end
    /// endpoints.
    pub fn new(start: i64, end: i64) -> (p: Projection)
        requires
            start <= end,
        ensures
            p == (Projection { start, end }),
            p.wf(),
    {
        Projection { start, end }
    }

    /// Returns the start endpoint of the Projection encoded as an
    /// integer.
    pub fn enc_start(&self) -> (s: i64)
        ensures
            s == self.start,
    {
        self.start
    }

    /// Returns the end endpoint of the Projection encoded as an integer.
    pub fn enc_end(&self) -> (e: i64)
        ensures
            e == self.end,
    {
        self.end
    }
}

impl Intersect<Projection> for Projection {
    /// The test the implementation runs: either `self` starts inside
    /// `rhs`, or `rhs` starts inside `self`.  For well-formed intervals
    /// this is exactly closed-interval overlap
    /// ([`lemma_intersect_is_overlap`]).
    open spec fn intersect_spec(&self, rhs: &Projection) -> bool {
        ||| (self.start >= rhs.start && self.start <= rhs.end)
        ||| (rhs.start >= self.start && rhs.start <= self.end)
    }

    fn intersect(&self, rhs: &Projection) -> (r: bool)
        ensures
            r == self.intersect_spec(rhs),
    {
        (self.start >= rhs.start && self.start <= rhs.end) || (rhs.start >= self.start
            && rhs.start <= self.end)
    }
}

/// Law: on well-formed projections the start-containment test decides
/// closed-interval overlap, with touching endpoints counting as
/// intersecting.
pub proof fn lemma_intersect_is_overlap(a: Projection, b: Projection)
    requires
        a.wf(),
        b.wf(),
    ensures
        a.intersect_spec(&b) == overlaps(a, b),
{
}

/// ProjectedBox2d is an object representing the projection of a box onto
/// the axes of a 2d plane.
#[derive(Clone, Copy, Debug, PartialEq, Eq, Structural)]
pub struct ProjectedBox2d {
    pub x: Projection,
    pub y: Projection,
}

impl ProjectedBox2d {
    /// Both axis projections run forward.
    pub open spec fn wf(self) -> bool {
        self.x.wf() && self.y.wf()
    }
}

/// Two projected boxes meet exactly when their projections overlap on
/// both axes.
pub open spec fn boxes_overlap(a: ProjectedBox2d, b: ProjectedBox2d) -> bool {
    overlaps(a.x, b.x) && overlaps(a.y, b.y)
}

impl Intersect<ProjectedBox2d> for ProjectedBox2d {
    /// Per-axis intersection of the two boxes' projections.
    open spec fn intersect_spec(&self, rhs: &ProjectedBox2d) -> bool {
        self.x.intersect_spec(&rhs.x) && self.y.intersect_spec(&rhs.y)
    }

    fn intersect(&self, rhs: &ProjectedBox2d) -> (r: bool)
        ensures
            r == self.intersect_spec(rhs),
    {
        self.x.intersect(&rhs.x) && self.y.intersect(&rhs.y)
    }
}

/// Law: on well-formed boxes the implemented test decides two-axis
/// closed-interval overlap.
pub proof fn lemma_box_intersect_is_overlap(a: ProjectedBox2d, b: ProjectedBox2d)
    requires
        a.wf(),
        b.wf(),
    ensures
        a.intersect_spec(&b) == boxes_overlap(a, b),
{
}

} // verus!
