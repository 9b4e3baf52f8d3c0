//! Fixed-point 2D rotations about the z-axis.
//!
//! A rotation is stored as the sine and cosine of its angle, scaled by
//! [`ROT_SCALE`] and truncated toward zero, so that rotating a lattice
//! point is exact integer arithmetic followed by one scaling division.
//! Truncating toward zero keeps the scaled pair inside the disc of radius
//! [`ROT_SCALE`] (`sin^2 + cos^2 <= ROT_SCALE^2`), an invariant every
//! operation here preserves and every consumer relies on for overflow
//! bounds.

use vstd::prelude::*;

verus! {

/// Fixed-point denominator for rotation components: 2^16.
pub const ROT_SCALE: i64 = 0x1_0000;

/// Division of `n` by [`ROT_SCALE`], rounding toward zero.
pub open spec fn scale_down(n: int) -> int {
    if n >= 0 {
        n / 0x1_0000
    } else {
        -((-n) / 0x1_0000)
    }
}

/// Divides by [`ROT_SCALE`], rounding toward zero.
pub fn div_by_scale(n: i64) -> (q: i64)
    requires
        n > i64::MIN,
    ensures
        q as int == scale_down(n as int),
{
    if n >= 0 {
        let qu: u64 = (n as u64) / 0x1_0000u64;
        qu as i64
    } else {
        let p: i64 = -n;
        let qu: u64 = (p as u64) / 0x1_0000u64;
        -(qu as i64)
    }
}

/// A product of a rotation component and a coordinate within 2^45 stays
/// within 2^61.
pub proof fn lemma_rot_product_bound(c: i64, x: i64)
    requires
        -ROT_SCALE <= c <= ROT_SCALE,
        -0x2000_0000_0000i64 <= x <= 0x2000_0000_0000i64,
    ensures
        -0x2000_0000_0000_0000i64 <= c * x <= 0x2000_0000_0000_0000i64,
{
    assert(-0x2000_0000_0000_0000i64 <= c * x <= 0x2000_0000_0000_0000i64)
        by (nonlinear_arith)
        requires
            -0x1_0000i64 <= c <= 0x1_0000i64,
            -0x2000_0000_0000i64 <= x <= 0x2000_0000_0000i64,
    ;
}

/// Truncated scaling never grows a value's magnitude.
pub proof fn lemma_scale_down_bound(n: int)
    ensures
        n >= 0 ==> 0 <= scale_down(n) <= n,
        n <= 0 ==> n <= scale_down(n) <= 0,
{
    if n >= 0 {
        let d = n / 0x1_0000;
        assert(0 <= d);
        assert(d <= d * 0x1_0000 <= n) by (nonlinear_arith)
            requires
                0 <= d,
                d * 0x1_0000 <= n,
        ;
    } else {
        let m = -n;
        let d = m / 0x1_0000;
        assert(0 <= d);
        assert(d <= d * 0x1_0000 <= m) by (nonlinear_arith)
            requires
                0 <= d,
                d * 0x1_0000 <= m,
        ;
    }
}

/// Truncated scaling divides any bound on the magnitude by the scale.
pub proof fn lemma_scale_down_div_bound(n: int, b: int)
    requires
        0 <= b,
        -b * 0x1_0000 <= n <= b * 0x1_0000,
    ensures
        -b <= scale_down(n) <= b,
{
    if n >= 0 {
        let d = n / 0x1_0000;
        assert(0 <= d && d * 0x1_0000 <= n);
        assert(d <= b) by (nonlinear_arith)
            requires
                d * 0x1_0000 <= b * 0x1_0000,
        ;
    } else {
        let m = -n;
        let d = m / 0x1_0000;
        assert(0 <= d && d * 0x1_0000 <= m);
        assert(d <= b) by (nonlinear_arith)
            requires
                d * 0x1_0000 <= b * 0x1_0000,
        ;
    }
}

/// Represents a 2d rotation about the z-axis, held as fixed-point
/// sine and cosine with denominator [`ROT_SCALE`].
#[derive(Clone, Copy, Debug, PartialEq, Eq, Structural)]
pub struct Rotation {
    pub sin: i64,
    pub cos: i64,
}

impl Rotation {
    /// The scaled sine/cosine pair lies inside the disc of radius
    /// [`ROT_SCALE`].  True of any real angle's pair truncated toward
    /// zero, and preserved by composition.
    pub open spec fn wf(self) -> bool {
        self.sin * self.sin + self.cos * self.cos <= ROT_SCALE * ROT_SCALE
    }

    /// Each component of a well-formed rotation is at most [`ROT_SCALE`]
    /// in magnitude.
    pub proof fn lemma_component_bounds(self)
        requires
            self.wf(),
        ensures
            -ROT_SCALE <= self.sin <= ROT_SCALE,
            -ROT_SCALE <= self.cos <= ROT_SCALE,
    {
        assert(-0x1_0000i64 <= self.sin <= 0x1_0000i64 && -0x1_0000i64 <= self.cos
            <= 0x1_0000i64) by (nonlinear_arith)
            requires
                self.sin * self.sin + self.cos * self.cos <= 0x1_0000i64 * 0x1_0000i64,
        ;
    }

    /// Create a new rotation from its scaled sine and cosine.  The caller
    /// quantizes the real pair by truncation toward zero, which keeps it
    /// inside the disc.
    pub fn new(sin: i64, cos: i64) -> (r: Rotation)
        requires
            sin * sin + cos * cos <= ROT_SCALE * ROT_SCALE,
        ensures
            r == (Rotation { sin, cos }),
            r.wf(),
    {
        Rotation { sin, cos }
    }

    /// Creates a new identity rotation.
    pub fn identity() -> (r: Rotation)
        ensures
            r == (Rotation { sin: 0, cos: ROT_SCALE }),
            r.wf(),
    {
        Rotation { sin: 0, cos: ROT_SCALE }
    }

    /// Returns the scaled sine of the angle of rotation.
    pub fn sin(&self) -> (s: i64)
        ensures
            s == self.sin,
    {
        self.sin
    }

    /// Returns the scaled cosine of the angle of rotation.
    pub fn cos(&self) -> (c: i64)
        ensures
            c == self.cos,
    {
        self.cos
    }

    /// Transposes the rotation as if it were a rotation matrix: the
    /// inverse rotation, which is just a negation of the sine.
    pub fn transpose(&self) -> (r: Rotation)
        requires
            self.wf(),
        ensures
            r.sin == -self.sin,
            r.cos == self.cos,
            r.wf(),
    {
        proof {
            self.lemma_component_bounds();
            assert((-self.sin) * (-self.sin) == self.sin * self.sin) by (nonlinear_arith);
        }
        Rotation { sin: -self.sin, cos: self.cos }
    }

    /// Updates the rotation with a new scaled sine and cosine.
    pub fn update(&mut self, sin: i64, cos: i64)
        requires
            sin * sin + cos * cos <= ROT_SCALE * ROT_SCALE,
        ensures
            *final(self) == (Rotation { sin, cos }),
            final(self).wf(),
    {
        self.sin = sin;
        self.cos = cos;
    }

    /// Composes two rotations (matrix product of the rotation matrices),
    /// using the angle-sum identities and scaling the products back down.
    pub fn mul(self, rhs: Rotation) -> (r: Rotation)
        requires
            self.wf(),
            rhs.wf(),
        ensures
            r.sin == scale_down(self.sin * rhs.cos + self.cos * rhs.sin),
            r.cos == scale_down(self.cos * rhs.cos - self.sin * rhs.sin),
            r.wf(),
    {
        proof {
            lemma_mul_products_bounded(self, rhs);
        }
        let s = div_by_scale(self.sin * rhs.cos + self.cos * rhs.sin);
        let c = div_by_scale(self.cos * rhs.cos - self.sin * rhs.sin);
        proof {
            lemma_mul_wf(self, rhs);
        }
        Rotation { sin: s, cos: c }
    }
}

/// The raw angle-sum products of two well-formed rotations stay far
/// inside the `i64` range.
proof fn lemma_mul_products_bounded(a: Rotation, b: Rotation)
    requires
        a.wf(),
        b.wf(),
    ensures
        -0x1_0000_0000i64 <= a.sin * b.cos <= 0x1_0000_0000i64,
        -0x1_0000_0000i64 <= a.cos * b.sin <= 0x1_0000_0000i64,
        -0x1_0000_0000i64 <= a.cos * b.cos <= 0x1_0000_0000i64,
        -0x1_0000_0000i64 <= a.sin * b.sin <= 0x1_0000_0000i64,
{
    a.lemma_component_bounds();
    b.lemma_component_bounds();
    assert(-0x1_0000_0000i64 <= a.sin * b.cos <= 0x1_0000_0000i64 && -0x1_0000_0000i64 <= a.cos
        * b.sin <= 0x1_0000_0000i64 && -0x1_0000_0000i64 <= a.cos * b.cos <= 0x1_0000_0000i64
        && -0x1_0000_0000i64 <= a.sin * b.sin <= 0x1_0000_0000i64) by (nonlinear_arith)
        requires
            -0x1_0000i64 <= a.sin <= 0x1_0000i64,
            -0x1_0000i64 <= a.cos <= 0x1_0000i64,
            -0x1_0000i64 <= b.sin <= 0x1_0000i64,
            -0x1_0000i64 <= b.cos <= 0x1_0000i64,
    ;
}

/// The Pythagorean product identity behind the angle-sum formulas.
proof fn lemma_pythagorean_product(s1: int, c1: int, s2: int, c2: int)
    ensures
        (s1 * c2 + c1 * s2) * (s1 * c2 + c1 * s2) + (c1 * c2 - s1 * s2) * (c1 * c2 - s1 * s2)
            == (s1 * s1 + c1 * c1) * (s2 * s2 + c2 * c2),
{
    let u = s1 * c2;
    let v = c1 * s2;
    let w = c1 * c2;
    let z = s1 * s2;
    assert(u * v == w * z) by (nonlinear_arith)
        requires
            u == s1 * c2,
            v == c1 * s2,
            w == c1 * c2,
            z == s1 * s2,
    ;
    assert((u + v) * (u + v) + (w - z) * (w - z) == u * u + v * v + w * w + z * z + 2 * (u * v)
        - 2 * (w * z)) by (nonlinear_arith);
    assert(u * u == (s1 * s1) * (c2 * c2)) by (nonlinear_arith)
        requires
            u == s1 * c2,
    ;
    assert(v * v == (c1 * c1) * (s2 * s2)) by (nonlinear_arith)
        requires
            v == c1 * s2,
    ;
    assert(w * w == (c1 * c1) * (c2 * c2)) by (nonlinear_arith)
        requires
            w == c1 * c2,
    ;
    assert(z * z == (s1 * s1) * (s2 * s2)) by (nonlinear_arith)
        requires
            z == s1 * s2,
    ;
    assert((s1 * s1 + c1 * c1) * (s2 * s2 + c2 * c2) == (s1 * s1) * (s2 * s2) + (s1 * s1) * (c2
        * c2) + (c1 * c1) * (s2 * s2) + (c1 * c1) * (c2 * c2)) by (nonlinear_arith);
}

/// Composing two rotations inside the disc lands inside the disc again:
/// the angle-sum pair satisfies the Pythagorean product identity, and
/// truncation toward zero only shrinks each component.
proof fn lemma_mul_wf(a: Rotation, b: Rotation)
    requires
        a.wf(),
        b.wf(),
    ensures
        scale_down(a.sin * b.cos + a.cos * b.sin) * scale_down(a.sin * b.cos + a.cos * b.sin)
            + scale_down(a.cos * b.cos - a.sin * b.sin) * scale_down(
            a.cos * b.cos - a.sin * b.sin,
        ) <= ROT_SCALE * ROT_SCALE,
{
    let p: int = a.sin * b.cos + a.cos * b.sin;
    let q: int = a.cos * b.cos - a.sin * b.sin;
    lemma_pythagorean_product(a.sin as int, a.cos as int, b.sin as int, b.cos as int);
    assert(0 <= a.sin * a.sin + a.cos * a.cos) by (nonlinear_arith);
    assert(0 <= b.sin * b.sin + b.cos * b.cos) by (nonlinear_arith);
    assert((a.sin * a.sin + a.cos * a.cos) * (b.sin * b.sin + b.cos * b.cos)
        <= 0x1_0000_0000 * 0x1_0000_0000) by (nonlinear_arith)
        requires
            0 <= a.sin * a.sin + a.cos * a.cos <= 0x1_0000_0000,
            0 <= b.sin * b.sin + b.cos * b.cos <= 0x1_0000_0000,
    ;
    lemma_scale_down_disc(p, q);
}

/// Truncated scaling keeps a point of the disc of squared radius
/// `ROT_SCALE^4` inside the disc of squared radius `ROT_SCALE^2`.
proof fn lemma_scale_down_disc(p: int, q: int)
    requires
        p * p + q * q <= 0x1_0000_0000 * 0x1_0000_0000,
    ensures
        scale_down(p) * scale_down(p) + scale_down(q) * scale_down(q) <= ROT_SCALE * ROT_SCALE,
{
    lemma_scale_down_sq(p);
    lemma_scale_down_sq(q);
    let sp = scale_down(p);
    let sq = scale_down(q);
    assert(sp * sp * 0x1_0000_0000 + sq * sq * 0x1_0000_0000 <= 0x1_0000_0000 * 0x1_0000_0000);
    assert((sp * sp + sq * sq) * 0x1_0000_0000 == sp * sp * 0x1_0000_0000 + sq * sq
        * 0x1_0000_0000) by (nonlinear_arith);
    assert(sp * sp + sq * sq <= 0x1_0000_0000) by (nonlinear_arith)
        requires
            (sp * sp + sq * sq) * 0x1_0000_0000 <= 0x1_0000_0000 * 0x1_0000_0000,
    ;
}

/// Squaring commutes with truncated scaling up to the square of the
/// scale: `(n / s)^2 * s^2 <= n^2`.
proof fn lemma_scale_down_sq(n: int)
    ensures
        scale_down(n) * scale_down(n) * 0x1_0000_0000 <= n * n,
{
    if n >= 0 {
        let d = n / 0x1_0000;
        assert(0 <= d && d * 0x1_0000 <= n);
        assert(d * d * 0x1_0000_0000 <= n * n) by (nonlinear_arith)
            requires
                0 <= d,
                d * 0x1_0000 <= n,
        ;
        assert(scale_down(n) == d);
    } else {
        let m = -n;
        let d = m / 0x1_0000;
        assert(0 <= d && d * 0x1_0000 <= m);
        assert(d * d * 0x1_0000_0000 <= m * m) by (nonlinear_arith)
            requires
                0 <= d,
                d * 0x1_0000 <= m,
        ;
        assert(scale_down(n) == -d);
        assert((-d) * (-d) == d * d) by (nonlinear_arith);
        assert(m * m == n * n) by (nonlinear_arith)
            requires
                m == -n,
        ;
    }
}

} // verus!
