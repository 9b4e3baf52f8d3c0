//! Axis-aligned bounding boxes over lattice coordinates.

use vstd::prelude::*;

use crate::collision::error::GeometryError;
use crate::collision::intersect::Intersect;
use crate::collision::project::{Project2d, ProjectedBox2d, Projection};
use crate::common::vec2d::Vec2d;

verus! {

/// Aabb contains the information for an axis aligned bounding box.
/// Equality is exact structural equality of the lattice corners; no
/// not-a-number coordinate can exist on the lattice, so equality is
/// total and reflexive.
#[derive(Clone, Copy, Debug, PartialEq, Eq, Structural)]
pub struct Aabb {
    pub min: Vec2d,
    pub max: Vec2d,
}

/// The box `b` covers every point of `pts`: each point lies within
/// `[min.x, max.x] x [min.y, max.y]` inclusive.
pub open spec fn covers(b: Aabb, pts: Seq<Vec2d>) -> bool {
    forall|i: int|
        0 <= i < pts.len() ==> {
            &&& b.min.x <= #[trigger] pts[i].x <= b.max.x
            &&& b.min.y <= pts[i].y <= b.max.y
        }
}

/// Each side of the box `b` is attained by some point of `pts`: the box
/// is the tightest cover.
pub open spec fn tight(b: Aabb, pts: Seq<Vec2d>) -> bool {
    &&& exists|i: int| 0 <= i < pts.len() && #[trigger] pts[i].x == b.min.x
    &&& exists|i: int| 0 <= i < pts.len() && #[trigger] pts[i].x == b.max.x
    &&& exists|i: int| 0 <= i < pts.len() && #[trigger] pts[i].y == b.min.y
    &&& exists|i: int| 0 <= i < pts.len() && #[trigger] pts[i].y == b.max.y
}

/// Closed-interval overlap of two boxes on both axes: neither box is
/// entirely left, right, above or below the other; touching edges count.
pub open spec fn aabbs_overlap(a: Aabb, b: Aabb) -> bool {
    &&& a.min.x <= b.max.x
    &&& b.min.x <= a.max.x
    &&& a.min.y <= b.max.y
    &&& b.min.y <= a.max.y
}

impl Aabb {
    /// The box runs forward on both axes.
    pub open spec fn wf(self) -> bool {
        self.min.x <= self.max.x && self.min.y <= self.max.y
    }

    /// The lower-left corner, for use in specifications.
    pub open spec fn min_spec(self) -> Vec2d {
        self.min
    }

    /// The upper-right corner, for use in specifications.
    pub open spec fn max_spec(self) -> Vec2d {
        self.max
    }

    /// Returns a new instance of an Aabb formed from the passed in
    /// vertices: the tightest box covering all of them.  Fails with
    /// `TooFewPoints`, and only then, when fewer than three vertices are
    /// passed in.
    pub fn new(vertices: &[Vec2d]) -> (r: Result<Aabb, GeometryError>)
        ensures
            r is Err <==> vertices@.len() < 3,
            r is Err ==> r == Err::<Aabb, GeometryError>(GeometryError::TooFewPoints),
            r matches Ok(b) ==> covers(b, vertices@) && tight(b, vertices@) && b.wf(),
    {
        if vertices.len() < 3 {
            return Err(GeometryError::TooFewPoints);
        }
        let (xmin, xmax, ymin, ymax) = bounds_info(vertices);
        Ok(Aabb { min: Vec2d { x: xmin, y: ymin }, max: Vec2d { x: xmax, y: ymax } })
    }

    /// Returns the `Vec2d` representing the lower left corner of this
    /// AABB.
    pub fn min(&self) -> (m: &Vec2d)
        ensures
            *m == self.min_spec(),
    {
        &self.min
    }

    /// Returns the `Vec2d` representing the upper right corner of this
    /// AABB.
    pub fn max(&self) -> (m: &Vec2d)
        ensures
            *m == self.max_spec(),
    {
        &self.max
    }

    /// Returns if this `Aabb` intersects the passed in `Aabb`: closed
    /// intervals on both axes, so touching boxes intersect.
    pub fn intersects(&self, rhs: &Aabb) -> (r: bool)
        ensures
            r == aabbs_overlap(*self, *rhs),
    {
        self.min.x <= rhs.max.x && rhs.min.x <= self.max.x && self.min.y <= rhs.max.y
            && rhs.min.y <= self.max.y
    }

    /// Shifts both corners by `delta` in O(1), preserving the box's
    /// shape.
    pub fn translate(&mut self, delta: Vec2d)
        requires
            i64::MIN <= old(self).min_spec().x + delta.x <= i64::MAX,
            i64::MIN <= old(self).min_spec().y + delta.y <= i64::MAX,
            i64::MIN <= old(self).max_spec().x + delta.x <= i64::MAX,
            i64::MIN <= old(self).max_spec().y + delta.y <= i64::MAX,
        ensures
            final(self).min_spec().x == old(self).min_spec().x + delta.x,
            final(self).min_spec().y == old(self).min_spec().y + delta.y,
            final(self).max_spec().x == old(self).max_spec().x + delta.x,
            final(self).max_spec().y == old(self).max_spec().y + delta.y,
    {
        self.min = self.min.add(delta);
        self.max = self.max.add(delta);
    }

    /// Fully rebuilds the box from a fresh point set (used after a
    /// shape's vertices change).  On failure the box is left unchanged.
    pub fn recompute(&mut self, vertices: &[Vec2d]) -> (r: Result<(), GeometryError>)
        ensures
            r is Err <==> vertices@.len() < 3,
            r is Err ==> r == Err::<(), GeometryError>(GeometryError::TooFewPoints) && *final(self)
                == *old(self),
            r is Ok ==> covers(*final(self), vertices@) && tight(*final(self), vertices@)
                && final(self).wf(),
    {
        match Aabb::new(vertices) {
            Ok(b) => {
                self.min = b.min;
                self.max = b.max;
                Ok(())
            },
            Err(e) => Err(e),
        }
    }
}

impl Intersect<Aabb> for Aabb {
    /// Closed-interval overlap on both axes.
    open spec fn intersect_spec(&self, rhs: &Aabb) -> bool {
        aabbs_overlap(*self, *rhs)
    }

    fn intersect(&self, rhs: &Aabb) -> (r: bool)
        ensures
            r == self.intersect_spec(rhs),
    {
        self.intersects(rhs)
    }
}

impl Project2d for Aabb {
    /// A lattice box projects to its own coordinates: raw `i64`
    /// coordinates are already order-preserving keys.
    open spec fn projections2d_spec(&self) -> ProjectedBox2d {
        ProjectedBox2d {
            x: Projection { start: self.min.x, end: self.max.x },
            y: Projection { start: self.min.y, end: self.max.y },
        }
    }

    fn projections2d(&self) -> (p: ProjectedBox2d)
        ensures
            p == self.projections2d_spec(),
    {
        ProjectedBox2d {
            x: Projection { start: self.min.x, end: self.max.x },
            y: Projection { start: self.min.y, end: self.max.y },
        }
    }
}

/// Law: the axis projections of a well-formed box meet, under the
/// implemented start-containment test, exactly when the boxes overlap
/// on both axes as [`Aabb::intersects`] decides it.
pub proof fn lemma_projections_match_intersects(a: Aabb, b: Aabb)
    requires
        a.wf(),
        b.wf(),
    ensures
        a.projections2d_spec().intersect_spec(&b.projections2d_spec()) == aabbs_overlap(a, b),
{
}

/// Returns the componentwise minimum and maximum, `(xmin, xmax, ymin,
/// ymax)`, over a non-empty vertex slice: the bounds used to build an
/// [`Aabb`].
fn bounds_info(vertices: &[Vec2d]) -> (r: (i64, i64, i64, i64))
    requires
        vertices@.len() >= 1,
    ensures
        forall|j: int|
            0 <= j < vertices@.len() ==> {
                &&& r.0 <= #[trigger] vertices@[j].x <= r.1
                &&& r.2 <= vertices@[j].y <= r.3
            },
        exists|j: int| 0 <= j < vertices@.len() && #[trigger] vertices@[j].x == r.0,
        exists|j: int| 0 <= j < vertices@.len() && #[trigger] vertices@[j].x == r.1,
        exists|j: int| 0 <= j < vertices@.len() && #[trigger] vertices@[j].y == r.2,
        exists|j: int| 0 <= j < vertices@.len() && #[trigger] vertices@[j].y == r.3,
{
    let first = vertices[0];
    let mut xmin: i64 = first.x;
    let mut xmax: i64 = first.x;
    let mut ymin: i64 = first.y;
    let mut ymax: i64 = first.y;
    let mut i: usize = 1;
    while i < vertices.len()
        invariant
            1 <= i <= vertices@.len(),
            forall|j: int| 0 <= j < i ==> xmin <= #[trigger] vertices@[j].x,
            forall|j: int| 0 <= j < i ==> #[trigger] vertices@[j].x <= xmax,
            forall|j: int| 0 <= j < i ==> ymin <= #[trigger] vertices@[j].y,
            forall|j: int| 0 <= j < i ==> #[trigger] vertices@[j].y <= ymax,
            exists|j: int| 0 <= j < i && #[trigger] vertices@[j].x == xmin,
            exists|j: int| 0 <= j < i && #[trigger] vertices@[j].x == xmax,
            exists|j: int| 0 <= j < i && #[trigger] vertices@[j].y == ymin,
            exists|j: int| 0 <= j < i && #[trigger] vertices@[j].y == ymax,
        decreases vertices@.len() - i,
    {
        let point = vertices[i];
        if point.x < xmin {
            xmin = point.x;
        }
        if point.x > xmax {
            xmax = point.x;
        }
        if point.y < ymin {
            ymin = point.y;
        }
        if point.y > ymax {
            ymax = point.y;
        }
        i = i + 1;
    }
    (xmin, xmax, ymin, ymax)
}

} // verus!
