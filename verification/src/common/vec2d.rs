//! Two-dimensional vectors over exact integer lattice coordinates.
//!
//! All geometry in this crate is carried out on an integer lattice: a
//! coordinate is an `i64`, and callers working in floating point quantize
//! onto the lattice at whatever resolution they need before entering the
//! library.  Exact integer arithmetic makes every geometric classification
//! (left turn, right turn, collinear) a decided fact rather than a
//! tolerance judgement, which is what lets the algorithms downstream be
//! specified and proved precisely.
//!
//! Coordinates handed to the geometric algorithms stay within
//! [`COORD_LIMIT`] in magnitude, so that the products and differences the
//! algorithms form cannot overflow.

use vstd::prelude::*;

use crate::common::rotation;
use crate::common::rotation::Rotation;
use crate::common::transform::Transform;

verus! {

/// Largest coordinate magnitude the geometric algorithms accept: 2^30.
pub const COORD_LIMIT: i64 = 0x4000_0000;

/// Vec2d represents a two dimensional vector with exact integer
/// lattice coordinates.
#[derive(Clone, Copy, Debug, PartialEq, Eq, Structural)]
pub struct Vec2d {
    pub x: i64,
    pub y: i64,
}

/// A product of two `i64` values above `i64::MIN` stays strictly inside
/// the `i128` half-range, so dot products cannot overflow.
proof fn lemma_coord_prod_fits(a: int, b: int)
    requires
        -0x7fff_ffff_ffff_ffff <= a <= 0x7fff_ffff_ffff_ffff,
        -0x8000_0000_0000_0000 <= b <= 0x7fff_ffff_ffff_ffff,
    ensures
        -0x3fff_ffff_ffff_ffff_8000_0000_0000_0000 <= a * b
            <= 0x3fff_ffff_ffff_ffff_8000_0000_0000_0000,
{
    assert(-0x3fff_ffff_ffff_ffff_8000_0000_0000_0000 <= a * b
        <= 0x3fff_ffff_ffff_ffff_8000_0000_0000_0000) by (nonlinear_arith)
        requires
            -0x7fff_ffff_ffff_ffff <= a <= 0x7fff_ffff_ffff_ffff,
            -0x8000_0000_0000_0000 <= b <= 0x7fff_ffff_ffff_ffff,
    ;
}

/// True when both coordinates are within [`COORD_LIMIT`] in magnitude.
pub open spec fn in_range(v: Vec2d) -> bool {
    &&& -COORD_LIMIT <= v.x <= COORD_LIMIT
    &&& -COORD_LIMIT <= v.y <= COORD_LIMIT
}

/// The x coordinate of `v` carried through transform `t`: rotation first,
/// then translation.
pub open spec fn apply_x(v: Vec2d, t: Transform) -> int {
    rotation::scale_down(t.rotation.cos * v.x - t.rotation.sin * v.y) + t.position.x
}

/// The y coordinate of `v` carried through transform `t`.
pub open spec fn apply_y(v: Vec2d, t: Transform) -> int {
    rotation::scale_down(t.rotation.sin * v.x + t.rotation.cos * v.y) + t.position.y
}

impl Vec2d {
    /// Creates a new `Vec2d` with the specified `x` and `y` values.
    pub fn new(x: i64, y: i64) -> (v: Vec2d)
        ensures
            v == (Vec2d { x, y }),
    {
        Vec2d { x, y }
    }

    /// Creates a new zero `Vec2d` vector.
    pub fn zero() -> (v: Vec2d)
        ensures
            v == (Vec2d { x: 0, y: 0 }),
    {
        Vec2d { x: 0, y: 0 }
    }

    /// Returns the dot product of this `Vec2d` with another `Vec2d`,
    /// exactly, in 128-bit arithmetic.
    pub fn dot(self, rhs: Vec2d) -> (d: i128)
        requires
            self.x > i64::MIN,
            self.y > i64::MIN,
        ensures
            d == self.x * rhs.x + self.y * rhs.y,
    {
        proof {
            lemma_coord_prod_fits(self.x as int, rhs.x as int);
            lemma_coord_prod_fits(self.y as int, rhs.y as int);
        }
        (self.x as i128) * (rhs.x as i128) + (self.y as i128) * (rhs.y as i128)
    }

    /// Returns the squared length of this `Vec2d`, exactly.
    pub fn len_sq(&self) -> (d: i128)
        requires
            self.x > i64::MIN,
            self.y > i64::MIN,
        ensures
            d == self.x * self.x + self.y * self.y,
    {
        proof {
            lemma_coord_prod_fits(self.x as int, self.x as int);
            lemma_coord_prod_fits(self.y as int, self.y as int);
        }
        (self.x as i128) * (self.x as i128) + (self.y as i128) * (self.y as i128)
    }

    /// Componentwise sum.
    pub fn add(self, rhs: Vec2d) -> (v: Vec2d)
        requires
            i64::MIN <= self.x + rhs.x <= i64::MAX,
            i64::MIN <= self.y + rhs.y <= i64::MAX,
        ensures
            v.x == self.x + rhs.x,
            v.y == self.y + rhs.y,
    {
        Vec2d { x: self.x + rhs.x, y: self.y + rhs.y }
    }

    /// Componentwise difference.
    pub fn sub(self, rhs: Vec2d) -> (v: Vec2d)
        requires
            i64::MIN <= self.x - rhs.x <= i64::MAX,
            i64::MIN <= self.y - rhs.y <= i64::MAX,
        ensures
            v.x == self.x - rhs.x,
            v.y == self.y - rhs.y,
    {
        Vec2d { x: self.x - rhs.x, y: self.y - rhs.y }
    }

    /// Componentwise negation.
    pub fn neg(self) -> (v: Vec2d)
        requires
            self.x > i64::MIN,
            self.y > i64::MIN,
        ensures
            v.x == -self.x,
            v.y == -self.y,
    {
        Vec2d { x: -self.x, y: -self.y }
    }

    /// Rotates this vector by `r` (no translation; used for direction
    /// vectors such as edge normals).  The fixed-point rotation scales
    /// each product back down by the rotation denominator, rounding
    /// toward zero.
    pub fn rotate(self, r: &Rotation) -> (v: Vec2d)
        requires
            r.wf(),
            -0x2000_0000_0000i64 <= self.x <= 0x2000_0000_0000i64,
            -0x2000_0000_0000i64 <= self.y <= 0x2000_0000_0000i64,
        ensures
            v.x == rotation::scale_down(r.cos * self.x - r.sin * self.y),
            v.y == rotation::scale_down(r.sin * self.x + r.cos * self.y),
            -0x4000_0000_0000_0000i64 <= v.x <= 0x4000_0000_0000_0000i64,
            -0x4000_0000_0000_0000i64 <= v.y <= 0x4000_0000_0000_0000i64,
    {
        proof {
            r.lemma_component_bounds();
            rotation::lemma_rot_product_bound(r.cos, self.x);
            rotation::lemma_rot_product_bound(r.sin, self.y);
            rotation::lemma_rot_product_bound(r.sin, self.x);
            rotation::lemma_rot_product_bound(r.cos, self.y);
            rotation::lemma_scale_down_bound(r.cos * self.x - r.sin * self.y);
            rotation::lemma_scale_down_bound(r.sin * self.x + r.cos * self.y);
        }
        let xr = rotation::div_by_scale(r.cos * self.x - r.sin * self.y);
        let yr = rotation::div_by_scale(r.sin * self.x + r.cos * self.y);
        Vec2d { x: xr, y: yr }
    }

    /// Applies a `Transform` to this `Vec2d` (rotation about the origin,
    /// then translation) and returns the result.
    pub fn apply(&self, transform: &Transform) -> (v: Vec2d)
        requires
            transform.wf(),
            in_range(*self),
        ensures
            v.x == apply_x(*self, *transform),
            v.y == apply_y(*self, *transform),
            -0xC000_0000i64 <= v.x <= 0xC000_0000i64,
            -0xC000_0000i64 <= v.y <= 0xC000_0000i64,
    {
        proof {
            transform.rotation.lemma_component_bounds();
            rotation::lemma_rot_product_bound(transform.rotation.cos, self.x);
            rotation::lemma_rot_product_bound(transform.rotation.sin, self.y);
            rotation::lemma_rot_product_bound(transform.rotation.sin, self.x);
            rotation::lemma_rot_product_bound(transform.rotation.cos, self.y);
            crate::util::lemma_mul_bound(transform.rotation.cos as int, self.x as int, 0x1_0000, 0x4000_0000);
            crate::util::lemma_mul_bound(transform.rotation.sin as int, self.y as int, 0x1_0000, 0x4000_0000);
            crate::util::lemma_mul_bound(transform.rotation.sin as int, self.x as int, 0x1_0000, 0x4000_0000);
            crate::util::lemma_mul_bound(transform.rotation.cos as int, self.y as int, 0x1_0000, 0x4000_0000);
            rotation::lemma_scale_down_div_bound(
                transform.rotation.cos * self.x - transform.rotation.sin * self.y,
                0x8000_0000,
            );
            rotation::lemma_scale_down_div_bound(
                transform.rotation.sin * self.x + transform.rotation.cos * self.y,
                0x8000_0000,
            );
        }
        let rotated = self.rotate(&transform.rotation);
        Vec2d {
            x: rotated.x + transform.position.x,
            y: rotated.y + transform.position.y,
        }
    }
}

} // verus!
