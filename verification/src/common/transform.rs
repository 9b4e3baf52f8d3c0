//! Rigid placements: a translation together with a rotation.

use vstd::prelude::*;

use crate::common::rotation::Rotation;
use crate::common::vec2d;
use crate::common::vec2d::Vec2d;

verus! {

/// Represents a transform in 2d space (a rotation about the origin
/// followed by a translation).
#[derive(Clone, Copy, Debug, PartialEq, Eq, Structural)]
pub struct Transform {
    pub position: Vec2d,
    pub rotation: Rotation,
}

impl Transform {
    /// A transform the geometric algorithms accept: the translation is a
    /// lattice point within range and the rotation pair is inside its
    /// disc.
    pub open spec fn wf(self) -> bool {
        &&& vec2d::in_range(self.position)
        &&& self.rotation.wf()
    }

    /// Creates a new transform with the given position vector and
    /// rotation.
    pub fn new(position: Vec2d, rotation: Rotation) -> (t: Transform)
        ensures
            t == (Transform { position, rotation }),
    {
        Transform { position, rotation }
    }

    /// Creates a new identity transform with the zero vector as the
    /// position and the identity rotation.
    pub fn identity() -> (t: Transform)
        ensures
            t.position == (Vec2d { x: 0, y: 0 }),
            t.rotation == (Rotation { sin: 0, cos: crate::common::rotation::ROT_SCALE }),
            t.wf(),
    {
        Transform { position: Vec2d::zero(), rotation: Rotation::identity() }
    }

    /// Returns the current position of the transform.
    pub fn position(&self) -> (p: &Vec2d)
        ensures
            *p == self.position,
    {
        &self.position
    }

    /// Returns the current rotation of the transform.
    pub fn rotation(&self) -> (r: &Rotation)
        ensures
            *r == self.rotation,
    {
        &self.rotation
    }

    /// Updates the transform with a new position and rotation.
    pub fn update(&mut self, position: Vec2d, rotation: Rotation)
        ensures
            *final(self) == (Transform { position, rotation }),
    {
        self.position = position;
        self.rotation = rotation;
    }

    /// Translate the transform by adding `translation` to the current
    /// position vector.
    pub fn translate(&mut self, translation: Vec2d)
        requires
            i64::MIN <= old(self).position.x + translation.x <= i64::MAX,
            i64::MIN <= old(self).position.y + translation.y <= i64::MAX,
        ensures
            final(self).position.x == old(self).position.x + translation.x,
            final(self).position.y == old(self).position.y + translation.y,
            final(self).rotation == old(self).rotation,
    {
        self.position = self.position.add(translation);
    }

    /// Rotate the transform by composing its rotation with `rotation`.
    pub fn rotate(&mut self, rotation: Rotation)
        requires
            old(self).rotation.wf(),
            rotation.wf(),
        ensures
            final(self).rotation.sin == crate::common::rotation::scale_down(
                old(self).rotation.sin * rotation.cos + old(self).rotation.cos * rotation.sin,
            ),
            final(self).rotation.cos == crate::common::rotation::scale_down(
                old(self).rotation.cos * rotation.cos - old(self).rotation.sin * rotation.sin,
            ),
            final(self).rotation.wf(),
            final(self).position == old(self).position,
    {
        self.rotation = self.rotation.mul(rotation);
    }
}

} // verus!
