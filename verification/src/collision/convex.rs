//! Convex polygons: hull construction by Graham scan and the
//! separating-axis narrowphase test.
//!
//! All classification is exact: on lattice coordinates the sign of the
//! 2D cross product decides collinear, clockwise or counter-clockwise
//! outright, so no tolerance is involved.

use vstd::prelude::*;

use crate::collision::aabb::Aabb;
use crate::collision::error::GeometryError;
use crate::common::rotation;
use crate::common::rotation::Rotation;
use crate::common::transform::Transform;
use crate::common::vec2d;
use crate::common::vec2d::Vec2d;
use crate::util::lemma_mul_bound;

verus! {

broadcast use vstd::seq_lib::group_to_multiset_ensures;

/// The 2D cross product of `(a - o)` and `(b - o)`: positive when
/// `o, a, b` make a strict counter-clockwise turn, zero when they are
/// collinear, negative on a clockwise turn.
pub open spec fn cross(o: Vec2d, a: Vec2d, b: Vec2d) -> int {
    (a.x - o.x) * (b.y - o.y) - (a.y - o.y) * (b.x - o.x)
}

/// `a` lies strictly after `o` in the scan's pivot order: above it, or
/// level with it and strictly to its right.  The pivot chosen by
/// [`lowest_y_index`] sees every distinct point this way.
pub open spec fn above(o: Vec2d, a: Vec2d) -> bool {
    a.y > o.y || (a.y == o.y && a.x > o.x)
}

/// The shifted-coordinate identity that underlies every angular-order
/// argument: for vectors `u`, `v`, `w` out of a common origin,
/// `v_y (u x w) == w_y (u x v) + u_y (v x w)`.
proof fn lemma_cross_shift(ux: int, uy: int, vx: int, vy: int, wx: int, wy: int)
    ensures
        vy * (ux * wy - uy * wx) == wy * (ux * vy - uy * vx) + uy * (vx * wy - vy * wx),
{
    assert(vy * (ux * wy - uy * wx) == wy * (ux * vy - uy * vx) + uy * (vx * wy - vy * wx))
        by (nonlinear_arith);
}

/// A positive factor can be cancelled from a sign fact.
proof fn lemma_pos_factor(p: int, x: int)
    requires
        p > 0,
    ensures
        p * x > 0 ==> x > 0,
        p * x >= 0 ==> x >= 0,
        p * x == 0 ==> x == 0,
{
    assert((p * x > 0 ==> x > 0) && (p * x >= 0 ==> x >= 0) && (p * x == 0 ==> x == 0))
        by (nonlinear_arith)
        requires
            p > 0,
    ;
}

/// Signs of products of same-signed factors.
proof fn lemma_sign_mul(a: int, b: int)
    requires
        a >= 0,
        b >= 0,
    ensures
        a * b >= 0,
        a > 0 && b > 0 ==> a * b > 0,
        a * b != 0 ==> a != 0 && b != 0,
{
    assert(a * b >= 0 && (a > 0 && b > 0 ==> a * b > 0) && (a * b != 0 ==> a != 0 && b != 0))
        by (nonlinear_arith)
        requires
            a >= 0,
            b >= 0,
    ;
}

/// The cross product is invariant under cyclic rotation of its three
/// points and flips sign when the last two are swapped.
pub proof fn lemma_cross_cyclic(o: Vec2d, a: Vec2d, b: Vec2d)
    ensures
        cross(o, a, b) == cross(a, b, o),
        cross(o, a, b) == cross(b, o, a),
        cross(o, a, b) == -cross(o, b, a),
{
    assert(cross(o, a, b) == cross(a, b, o) && cross(o, a, b) == cross(b, o, a) && cross(o, a, b)
        == -cross(o, b, a)) by (nonlinear_arith)
        requires
            cross(o, a, b) == (a.x - o.x) * (b.y - o.y) - (a.y - o.y) * (b.x - o.x),
            cross(a, b, o) == (b.x - a.x) * (o.y - a.y) - (b.y - a.y) * (o.x - a.x),
            cross(b, o, a) == (o.x - b.x) * (a.y - b.y) - (o.y - b.y) * (a.x - b.x),
            cross(o, b, a) == (b.x - o.x) * (a.y - o.y) - (b.y - o.y) * (a.x - o.x),
    ;
}

/// The cross product of a point with itself about any origin is zero.
pub proof fn lemma_cross_self(o: Vec2d, a: Vec2d)
    ensures
        cross(o, a, a) == 0,
{
    assert((a.x - o.x) * (a.y - o.y) - (a.y - o.y) * (a.x - o.x) == 0) by (nonlinear_arith);
}

/// Transitivity of the angular order about a bottom-most pivot: for
/// points strictly after the pivot, counter-clockwise reachability
/// composes, in strict and non-strict forms.
pub proof fn lemma_angle_trans(o: Vec2d, a: Vec2d, b: Vec2d, c: Vec2d)
    requires
        above(o, a),
        above(o, b),
        above(o, c),
    ensures
        cross(o, a, b) > 0 && cross(o, b, c) > 0 ==> cross(o, a, c) > 0,
        cross(o, a, b) == 0 && cross(o, b, c) > 0 ==> cross(o, a, c) > 0,
        cross(o, a, b) > 0 && cross(o, b, c) == 0 ==> cross(o, a, c) > 0,
        cross(o, a, b) >= 0 && cross(o, b, c) >= 0 ==> cross(o, a, c) >= 0,
        cross(o, a, b) == 0 && cross(o, b, c) == 0 ==> cross(o, a, c) == 0,
{
    let ax = a.x - o.x;
    let ay = a.y - o.y;
    let bx = b.x - o.x;
    let by = b.y - o.y;
    let cx = c.x - o.x;
    let cy = c.y - o.y;
    let p = cross(o, a, b);
    let q = cross(o, b, c);
    let x = cross(o, a, c);
    assert(p == ax * by - ay * bx);
    assert(q == bx * cy - by * cx);
    assert(x == ax * cy - ay * cx);
    assert(ay >= 0 && (ay == 0 ==> ax > 0));
    assert(by >= 0 && (by == 0 ==> bx > 0));
    assert(cy >= 0 && (cy == 0 ==> cx > 0));
    lemma_cross_shift(ax, ay, bx, by, cx, cy);
    assert(by * x == cy * p + ay * q);
    if by > 0 {
        lemma_pos_factor(by, x);
        if p > 0 && q > 0 {
            if cy == 0 && ay == 0 {
                // then q == -by * cx < 0, impossible
                assert(q == bx * 0 - by * cx);
                lemma_sign_mul(by, cx);
                assert(by * cx > 0);
            } else {
                lemma_sign_mul(cy, p);
                lemma_sign_mul(ay, q);
                assert(cy * p + ay * q > 0);
            }
        }
        if p == 0 && q > 0 {
            if ay == 0 {
                // then p == ax * by != 0, impossible
                lemma_sign_mul(ax, by);
                assert(p == ax * by - 0 * bx);
                assert(ax * by > 0);
            } else {
                lemma_sign_mul(ay, q);
                assert(cy * p + ay * q > 0);
            }
        }
        if p > 0 && q == 0 {
            if cy == 0 {
                // then q == -by * cx != 0, impossible
                assert(q == bx * 0 - by * cx);
                lemma_sign_mul(by, cx);
                assert(by * cx > 0);
            } else {
                lemma_sign_mul(cy, p);
                assert(cy * p + ay * q > 0);
            }
        }
        if p >= 0 && q >= 0 {
            lemma_sign_mul(cy, p);
            lemma_sign_mul(ay, q);
            assert(cy * p + ay * q >= 0);
        }
        if p == 0 && q == 0 {
            assert(by * x == 0);
        }
    } else {
        // by == 0, so b lies on the rightward ray: bx > 0,
        // p == -ay * bx and q == bx * cy.
        assert(bx > 0);
        assert(p == ax * 0 - ay * bx);
        assert(q == bx * cy - 0 * cx);
        lemma_sign_mul(ay, bx);
        lemma_sign_mul(bx, cy);
        lemma_pos_factor(bx, cy);
        if p > 0 {
            // -ay * bx > 0 with ay >= 0, bx > 0: impossible
            assert(ay * bx >= 0);
        }
        if p == 0 && q > 0 {
            lemma_pos_factor(bx, ay);
            assert(bx * ay == ay * bx) by (nonlinear_arith);
            assert(ay == 0);
            assert(ax > 0);
            assert(cy > 0);
            assert(x == ax * cy - 0 * cx);
            lemma_sign_mul(ax, cy);
            assert(ax * cy > 0);
        }
        if p >= 0 && q >= 0 {
            lemma_pos_factor(bx, ay);
            assert(bx * ay == ay * bx) by (nonlinear_arith);
            assert(ay == 0);
            assert(ax > 0);
            assert(x == ax * cy - 0 * cx);
            lemma_sign_mul(ax, cy);
        }
        if p == 0 && q == 0 {
            lemma_pos_factor(bx, ay);
            lemma_pos_factor(bx, cy);
            assert(bx * ay == ay * bx) by (nonlinear_arith);
            assert(ay == 0 && cy == 0);
            assert(x == ax * 0 - 0 * cx);
        }
    }
}

/// Two vectors each parallel to a common nonzero direction are parallel
/// to each other.
proof fn lemma_parallel(dx: int, dy: int, ux: int, uy: int, vx: int, vy: int)
    requires
        dx * uy == dy * ux,
        dx * vy == dy * vx,
        !(dx == 0 && dy == 0),
    ensures
        ux * vy == uy * vx,
{
    let x = ux * vy - uy * vx;
    assert(dx * x == 0 && dy * x == 0) by (nonlinear_arith)
        requires
            x == ux * vy - uy * vx,
            dx * uy == dy * ux,
            dx * vy == dy * vx,
    ;
    if dx != 0 {
        assert(x == 0) by (nonlinear_arith)
            requires
                dx * x == 0,
                dx != 0,
        ;
    } else {
        assert(x == 0) by (nonlinear_arith)
            requires
                dy * x == 0,
                dy != 0,
        ;
    }
}

/// Points all collinear with a common line through `o` and `w` are
/// pairwise collinear: the degeneracy witness extends to every triple.
pub proof fn lemma_line_collinear(o: Vec2d, w: Vec2d, a: Vec2d, b: Vec2d, c: Vec2d)
    requires
        w != o,
        cross(o, w, a) == 0,
        cross(o, w, b) == 0,
        cross(o, w, c) == 0,
    ensures
        cross(a, b, c) == 0,
{
    let dx = w.x - o.x;
    let dy = w.y - o.y;
    let ux = a.x - o.x;
    let uy = a.y - o.y;
    let vx = b.x - o.x;
    let vy = b.y - o.y;
    let zx = c.x - o.x;
    let zy = c.y - o.y;
    assert(dx * uy == dy * ux) by {
        assert(cross(o, w, a) == dx * uy - dy * ux);
    }
    assert(dx * vy == dy * vx) by {
        assert(cross(o, w, b) == dx * vy - dy * vx);
    }
    assert(dx * zy == dy * zx) by {
        assert(cross(o, w, c) == dx * zy - dy * zx);
    }
    assert(!(dx == 0 && dy == 0));
    lemma_parallel(dx, dy, ux, uy, vx, vy);
    lemma_parallel(dx, dy, ux, uy, zx, zy);
    lemma_parallel(dx, dy, vx, vy, zx, zy);
    assert(cross(a, b, c) == (vx - ux) * (zy - uy) - (vy - uy) * (zx - ux));
    assert((vx - ux) * (zy - uy) == vx * zy - vx * uy - ux * zy + ux * uy) by (nonlinear_arith);
    assert((vy - uy) * (zx - ux) == vy * zx - vy * ux - uy * zx + uy * ux) by (nonlinear_arith);
    assert(ux * uy == uy * ux) by (nonlinear_arith);
    assert(vx * zy - vy * zx == 0) by {
        assert(vx * zy == vy * zx);
    }
    assert(vx * uy - vy * ux == 0) by {
        assert(ux * vy == uy * vx);
        assert(vx * uy == uy * vx && vy * ux == ux * vy) by (nonlinear_arith);
    }
    assert(ux * zy - uy * zx == 0) by {
        assert(ux * zy == uy * zx);
    }
}


/// All points of a slice lie on the lattice within [`vec2d::COORD_LIMIT`].
pub open spec fn all_in_range(s: Seq<Vec2d>) -> bool {
    forall|i: int| 0 <= i < s.len() ==> vec2d::in_range(#[trigger] s[i])
}

/// Every triple of points of `s` is collinear: no positive-area hull
/// exists.
pub open spec fn degenerate(s: Seq<Vec2d>) -> bool {
    forall|i: int, j: int, k: int|
        0 <= i < s.len() && 0 <= j < s.len() && 0 <= k < s.len() ==> #[trigger] cross(
            s[i],
            s[j],
            s[k],
        ) == 0
}

/// Computes the cross product of `(a - o)` and `(b - o)` exactly.
fn cross_val(o: Vec2d, a: Vec2d, b: Vec2d) -> (r: i128)
    requires
        vec2d::in_range(o),
        vec2d::in_range(a),
        vec2d::in_range(b),
    ensures
        r == cross(o, a, b),
{
    let acx = (a.x - o.x) as i128;
    let acy = (a.y - o.y) as i128;
    let bcx = (b.x - o.x) as i128;
    let bcy = (b.y - o.y) as i128;
    proof {
        lemma_mul_bound(acx as int, bcy as int, 0x1_0000_0000, 0x1_0000_0000);
        lemma_mul_bound(acy as int, bcx as int, 0x1_0000_0000, 0x1_0000_0000);
    }
    acx * bcy - acy * bcx
}

/// The type of angle three consecutive vertices form in 2d space.
#[derive(Clone, Copy, Debug, PartialEq, Eq, Structural)]
pub enum VertexAngle {
    Collinear,
    Clockwise,
    CounterClockwise,
}

/// Returns the type of angle three vertices form in 2d space, decided
/// exactly by the sign of the cross product.
pub fn vertex_angle(p1: Vec2d, p2: Vec2d, p3: Vec2d) -> (r: VertexAngle)
    requires
        vec2d::in_range(p1),
        vec2d::in_range(p2),
        vec2d::in_range(p3),
    ensures
        r == VertexAngle::Collinear <==> cross(p1, p2, p3) == 0,
        r == VertexAngle::Clockwise <==> cross(p1, p2, p3) < 0,
        r == VertexAngle::CounterClockwise <==> cross(p1, p2, p3) > 0,
{
    let x = cross_val(p1, p2, p3);
    if x == 0 {
        VertexAngle::Collinear
    } else if x < 0 {
        VertexAngle::Clockwise
    } else {
        VertexAngle::CounterClockwise
    }
}

/// The squared distance between two points.
pub open spec fn dist_sq_spec(a: Vec2d, b: Vec2d) -> int {
    (a.x - b.x) * (a.x - b.x) + (a.y - b.y) * (a.y - b.y)
}

/// Returns the square of the distance of two vertices, exactly.
pub fn dist_sq(p1: Vec2d, p2: Vec2d) -> (d: i128)
    requires
        vec2d::in_range(p1),
        vec2d::in_range(p2),
    ensures
        d == dist_sq_spec(p1, p2),
{
    let dx = (p1.x - p2.x) as i128;
    let dy = (p1.y - p2.y) as i128;
    proof {
        lemma_mul_bound(dx as int, dx as int, 0x1_0000_0000, 0x1_0000_0000);
        lemma_mul_bound(dy as int, dy as int, 0x1_0000_0000, 0x1_0000_0000);
    }
    dx * dx + dy * dy
}

/// Every point of `s` up to `upto` either equals the pivot `s[j]` or
/// lies strictly [`above`] it.
pub open spec fn pivot_ok_upto(s: Seq<Vec2d>, j: int, upto: int) -> bool {
    forall|i: int| 0 <= i < upto ==> ((#[trigger] s[i]) == s[j] || above(s[j], s[i]))
}

/// Iterates through vertices finding the index of the point with the
/// lowest y coordinate, or the left-most one in case of a tie: the
/// scan's pivot, which every other point lies strictly after.
pub fn lowest_y_index(vertices: &[Vec2d]) -> (low: usize)
    requires
        vertices@.len() >= 1,
    ensures
        low < vertices@.len(),
        pivot_ok_upto(vertices@, low as int, vertices@.len() as int),
{
    let mut j: usize = 0;
    let mut i: usize = 1;
    while i < vertices.len()
        invariant
            j < i,
            i <= vertices@.len(),
            pivot_ok_upto(vertices@, j as int, i as int),
        decreases vertices@.len() - i,
    {
        let p = vertices[i];
        let pivot = vertices[j];
        if p.y < pivot.y || (p.y == pivot.y && p.x < pivot.x) {
            j = i;
        }
        i = i + 1;
    }
    j
}


/// All points of `s` lie strictly after the pivot `o`.
pub open spec fn all_above(o: Vec2d, s: Seq<Vec2d>) -> bool {
    forall|i: int| 0 <= i < s.len() ==> above(o, #[trigger] s[i])
}

/// The first `upto` points are pairwise sorted counter-clockwise about
/// the pivot `o`, collinear ties allowed.
pub open spec fn sorted_ccw_upto(o: Vec2d, s: Seq<Vec2d>, upto: int) -> bool {
    forall|k: int, l: int| #![trigger s[k], s[l]] 0 <= k < l < upto ==> cross(o, s[k], s[l]) >= 0
}

/// Every later point sits at a strictly larger angle about the pivot.
pub open spec fn strictly_sorted_ccw(o: Vec2d, s: Seq<Vec2d>) -> bool {
    forall|k: int, l: int| #![trigger s[k], s[l]] 0 <= k < l < s.len() ==> cross(o, s[k], s[l]) > 0
}

/// Removing the element at `i` from a prefix-sorted sequence keeps the
/// prefix facts.
proof fn lemma_sort_remove_step(o: Vec2d, prev: Seq<Vec2d>, s_rm: Seq<Vec2d>, i: int)
    requires
        0 <= i < prev.len(),
        s_rm == prev.remove(i),
        all_in_range(prev),
        all_above(o, prev),
        sorted_ccw_upto(o, prev, i),
    ensures
        all_in_range(s_rm),
        all_above(o, s_rm),
        sorted_ccw_upto(o, s_rm, i),
        s_rm.len() == prev.len() - 1,
{
    prev.remove_ensures(i);
    assert forall|mm: int| 0 <= mm < s_rm.len() implies vec2d::in_range(#[trigger] s_rm[mm])
        && above(o, s_rm[mm]) by {
        if mm < i {
            assert(s_rm[mm] == prev[mm]);
        } else {
            assert(s_rm[mm] == prev[mm + 1]);
        }
    }
    assert forall|k: int, l: int|
        #![trigger s_rm[k], s_rm[l]]
        0 <= k < l < i implies cross(o, s_rm[k], s_rm[l]) >= 0 by {
        assert(s_rm[k] == prev[k] && s_rm[l] == prev[l]);
    }
}

/// Inserting the removed element back at its angular position extends
/// the sorted prefix by one and restores the original multiset.
proof fn lemma_sort_insert_step(
    o: Vec2d,
    prev: Seq<Vec2d>,
    s_rm: Seq<Vec2d>,
    s1: Seq<Vec2d>,
    x: Vec2d,
    i: int,
    j: int,
)
    requires
        0 <= i < prev.len(),
        i <= s_rm.len(),
        0 <= j <= i,
        s_rm == prev.remove(i),
        prev[i] == x,
        s1 == s_rm.insert(j, x),
        vec2d::in_range(o),
        vec2d::in_range(x),
        above(o, x),
        all_in_range(s_rm),
        all_above(o, s_rm),
        sorted_ccw_upto(o, s_rm, i),
        j == 0 || cross(o, s_rm[j - 1], x) >= 0,
        forall|mm: int| j <= mm < i ==> cross(o, #[trigger] s_rm[mm], x) < 0,
    ensures
        s1.to_multiset() == prev.to_multiset(),
        s1.len() == prev.len(),
        all_in_range(s1),
        all_above(o, s1),
        sorted_ccw_upto(o, s1, i + 1),
{
    crate::util::lemma_insert_to_multiset(s_rm, j, x);
    assert(prev.remove(i).to_multiset() =~= prev.to_multiset().remove(prev[i]));
    assert(prev.contains(x)) by {
        assert(prev[i] == x);
    }
    assert(prev.to_multiset().count(x) > 0);
    crate::util::lemma_remove_insert_to_multiset(prev.to_multiset(), x);
    s_rm.insert_ensures(j, x);
    assert forall|mm: int| 0 <= mm < s1.len() implies vec2d::in_range(#[trigger] s1[mm]) && above(
        o,
        s1[mm],
    ) by {
        if mm < j {
            assert(s1[mm] == s_rm[mm]);
        } else if mm == j {
            assert(s1[mm] == x);
        } else {
            assert(s1[mm] == s_rm[mm - 1]);
        }
    }
    assert forall|k: int, l: int|
        #![trigger s1[k], s1[l]]
        0 <= k < l < i + 1 implies cross(o, s1[k], s1[l]) >= 0 by {
        if k < j && l < j {
            assert(s1[k] == s_rm[k] && s1[l] == s_rm[l]);
        } else if k < j && l == j {
            assert(s1[k] == s_rm[k] && s1[l] == x);
            if k < j - 1 {
                assert(cross(o, s_rm[k], s_rm[j - 1]) >= 0);
                assert(cross(o, s_rm[j - 1], x) >= 0);
                lemma_angle_trans(o, s_rm[k], s_rm[j - 1], x);
            } else {
                assert(cross(o, s_rm[j - 1], x) >= 0);
            }
        } else if k < j && l > j {
            assert(s1[k] == s_rm[k] && s1[l] == s_rm[l - 1]);
        } else if k == j {
            assert(s1[k] == x && s1[l] == s_rm[l - 1]);
            assert(cross(o, s_rm[l - 1], x) < 0);
            lemma_cross_cyclic(o, s_rm[l - 1], x);
        } else {
            assert(s1[k] == s_rm[k - 1] && s1[l] == s_rm[l - 1]);
        }
    }
}

/// Sorts points by polar angle about the pivot `o`: an insertion sort
/// that merges each point into the sorted prefix from the tail, exactly
/// as the endpoint merge does, with the cross-product sign as the
/// comparator.
fn sort_by_angle(o: Vec2d, v: &mut Vec<Vec2d>)
    requires
        vec2d::in_range(o),
        all_in_range(old(v)@),
        all_above(o, old(v)@),
    ensures
        final(v)@.to_multiset() == old(v)@.to_multiset(),
        final(v)@.len() == old(v)@.len(),
        all_in_range(final(v)@),
        all_above(o, final(v)@),
        sorted_ccw_upto(o, final(v)@, final(v)@.len() as int),
{
    let ghost orig = v@;
    let mut i: usize = 1;
    while i < v.len()
        invariant
            vec2d::in_range(o),
            v@.to_multiset() == orig.to_multiset(),
            v@.len() == orig.len(),
            all_in_range(v@),
            all_above(o, v@),
            1 <= i,
            i <= v@.len() || i == 1,
            sorted_ccw_upto(o, v@, i as int),
        decreases v@.len() - i,
    {
        let ghost prev = v@;
        let x = v.remove(i);
        let ghost s_rm = v@;
        proof {
            lemma_sort_remove_step(o, prev, s_rm, i as int);
        }
        let mut j: usize = i;
        while j > 0 && cross_val(o, v[j - 1], x) < 0
            invariant
                j <= i,
                i <= s_rm.len(),
                v@ == s_rm,
                vec2d::in_range(o),
                vec2d::in_range(x),
                above(o, x),
                all_in_range(v@),
                all_above(o, v@),
                sorted_ccw_upto(o, v@, i as int),
                forall|mm: int| j <= mm < i ==> cross(o, #[trigger] v@[mm], x) < 0,
            decreases j,
        {
            j = j - 1;
        }
        v.insert(j, x);
        proof {
            lemma_sort_insert_step(o, prev, s_rm, v@, x, i as int, j as int);
        }
        i = i + 1;
    }
}

/// Filters an angularly sorted point sequence down to one survivor per
/// direction: within each run of points collinear with the pivot, the
/// farthest is kept and the nearer ones are dropped before the scan.
fn dedup_collinear(o: Vec2d, s: &Vec<Vec2d>) -> (kept: Vec<Vec2d>)
    requires
        vec2d::in_range(o),
        s@.len() >= 1,
        all_in_range(s@),
        all_above(o, s@),
        sorted_ccw_upto(o, s@, s@.len() as int),
    ensures
        kept@.len() >= 1,
        all_in_range(kept@),
        all_above(o, kept@),
        strictly_sorted_ccw(o, kept@),
        forall|m: int| 0 <= m < kept@.len() ==> s@.contains(#[trigger] kept@[m]),
        kept@.len() == 1 ==> forall|m: int|
            0 <= m < s@.len() ==> cross(o, kept@[0], #[trigger] s@[m]) == 0,
{
    let mut kept: Vec<Vec2d> = Vec::new();
    let mut best = s[0];
    proof {
        lemma_cross_self(o, best);
    }
    let mut m: usize = 1;
    while m < s.len()
        invariant
            vec2d::in_range(o),
            1 <= m <= s@.len(),
            all_in_range(s@),
            all_above(o, s@),
            sorted_ccw_upto(o, s@, s@.len() as int),
            vec2d::in_range(best),
            above(o, best),
            exists|bi: int| 0 <= bi < m && s@[bi] == best,
            all_in_range(kept@),
            all_above(o, kept@),
            strictly_sorted_ccw(o, kept@),
            forall|k: int| 0 <= k < kept@.len() ==> s@.contains(#[trigger] kept@[k]),
            forall|k: int| 0 <= k < kept@.len() ==> cross(o, #[trigger] kept@[k], best) > 0,
            kept@.len() == 0 ==> forall|mm: int|
                0 <= mm < m ==> cross(o, best, #[trigger] s@[mm]) == 0,
        decreases s@.len() - m,
    {
        let cur = s[m];
        let c = cross_val(o, best, cur);
        proof {
            let bi = choose|bi: int| 0 <= bi < m && s@[bi] == best;
            assert(cross(o, s@[bi], s@[m as int]) >= 0);
        }
        if c == 0 {
            let dc = dist_sq(o, cur);
            let db = dist_sq(o, best);
            if dc > db {
                proof {
                    let ghost b0 = best;
                    // a same-angle replacement keeps every bookkeeping fact
                    assert forall|k: int| 0 <= k < kept@.len() implies cross(
                        o,
                        #[trigger] kept@[k],
                        cur,
                    ) > 0 by {
                        lemma_angle_trans(o, kept@[k], b0, cur);
                    }
                    if kept@.len() == 0 {
                        assert forall|mm: int| 0 <= mm < m + 1 implies cross(
                            o,
                            cur,
                            #[trigger] s@[mm],
                        ) == 0 by {
                            if mm < m {
                                lemma_cross_cyclic(o, b0, cur);
                                lemma_angle_trans(o, cur, b0, s@[mm]);
                            } else {
                                lemma_cross_self(o, cur);
                            }
                        }
                    }
                }
                best = cur;
            } else {
                proof {
                    if kept@.len() == 0 {
                        assert forall|mm: int| 0 <= mm < m + 1 implies cross(
                            o,
                            best,
                            #[trigger] s@[mm],
                        ) == 0 by {
                        }
                    }
                }
            }
        } else {
            proof {
                assert(cross(o, best, cur) > 0);
            }
            kept.push(best);
            proof {
                assert forall|k: int| 0 <= k < kept@.len() implies cross(
                    o,
                    #[trigger] kept@[k],
                    cur,
                ) > 0 by {
                    if k < kept@.len() - 1 {
                        lemma_angle_trans(o, kept@[k], kept@[kept@.len() - 1], cur);
                    }
                }
                assert(strictly_sorted_ccw(o, kept@)) by {
                    assert forall|k: int, l: int|
                        #![trigger kept@[k], kept@[l]]
                        0 <= k < l < kept@.len() implies cross(o, kept@[k], kept@[l]) > 0 by {
                    }
                }
            }
            best = cur;
        }
        m = m + 1;
    }
    kept.push(best);
    proof {
        assert forall|k: int, l: int|
            #![trigger kept@[k], kept@[l]]
            0 <= k < l < kept@.len() implies cross(o, kept@[k], kept@[l]) > 0 by {
        }
    }
    kept
}


/// Wraps a cyclic vertex index below `2n` back into `[0, n)`.
pub open spec fn wrap(i: int, n: int) -> int {
    if i < n {
        i
    } else {
        i - n
    }
}

/// No two points of `s` coincide.
pub open spec fn distinct_points(s: Seq<Vec2d>) -> bool {
    forall|k: int, l: int| #![trigger s[k], s[l]] 0 <= k < l < s.len() ==> s[k] != s[l]
}

/// Every cyclically consecutive vertex triple makes a strict
/// counter-clockwise turn: the polygon is strictly convex in
/// counter-clockwise winding order, with no three consecutive vertices
/// collinear.
pub open spec fn hull_ccw(vs: Seq<Vec2d>) -> bool {
    forall|i: int|
        0 <= i < vs.len() ==> #[trigger] cross(
            vs[i],
            vs[wrap(i + 1, vs.len() as int)],
            vs[wrap(i + 2, vs.len() as int)],
        ) > 0
}

/// The scan proper: walks the angularly strictly sorted points,
/// maintaining a stack of accepted vertices and popping while the last
/// three fail to make a strict counter-clockwise turn.
fn scan_hull(o: Vec2d, kept: &Vec<Vec2d>) -> (hull: Vec<Vec2d>)
    requires
        vec2d::in_range(o),
        kept@.len() >= 2,
        all_in_range(kept@),
        all_above(o, kept@),
        strictly_sorted_ccw(o, kept@),
    ensures
        hull@.len() >= 3,
        all_in_range(hull@),
        hull_ccw(hull@),
        distinct_points(hull@),
        hull@[0] == o,
        forall|m: int| 1 <= m < hull@.len() ==> kept@.contains(#[trigger] hull@[m]),
{
    let mut hull: Vec<Vec2d> = Vec::new();
    hull.push(o);
    hull.push(kept[0]);
    let ghost mut idx: Seq<int> = seq![0];
    let mut i: usize = 1;
    while i < kept.len()
        invariant
            vec2d::in_range(o),
            kept@.len() >= 2,
            all_in_range(kept@),
            all_above(o, kept@),
            strictly_sorted_ccw(o, kept@),
            1 <= i <= kept@.len(),
            all_in_range(hull@),
            hull@.len() == idx.len() + 1,
            idx.len() >= 1,
            hull@[0] == o,
            idx[0] == 0,
            idx[idx.len() - 1] == i - 1,
            forall|m: int|
                0 <= m < idx.len() ==> 0 <= #[trigger] idx[m] < i && hull@[m + 1] == kept@[idx[m]],
            forall|m1: int, m2: int|
                #![trigger idx[m1], idx[m2]]
                0 <= m1 < m2 < idx.len() ==> idx[m1] < idx[m2],
            forall|t: int|
                0 <= t <= hull@.len() - 3 ==> #[trigger] cross(hull@[t], hull@[t + 1], hull@[t + 2])
                    > 0,
        decreases kept@.len() - i,
    {
        let q = kept[i];
        while hull.len() >= 3 && cross_val(hull[hull.len() - 2], hull[hull.len() - 1], q) <= 0
            invariant
                vec2d::in_range(o),
                kept@.len() >= 2,
                all_in_range(kept@),
                all_above(o, kept@),
                strictly_sorted_ccw(o, kept@),
                1 <= i < kept@.len(),
                q == kept@[i as int],
                all_in_range(hull@),
                hull@.len() == idx.len() + 1,
                idx.len() >= 1,
                hull@[0] == o,
                idx[0] == 0,
                forall|m: int|
                    0 <= m < idx.len() ==> 0 <= #[trigger] idx[m] < i && hull@[m + 1]
                        == kept@[idx[m]],
                forall|m1: int, m2: int|
                    #![trigger idx[m1], idx[m2]]
                    0 <= m1 < m2 < idx.len() ==> idx[m1] < idx[m2],
                forall|t: int|
                    0 <= t <= hull@.len() - 3 ==> #[trigger] cross(
                        hull@[t],
                        hull@[t + 1],
                        hull@[t + 2],
                    ) > 0,
            decreases hull@.len(),
        {
            hull.pop();
            proof {
                idx = idx.drop_last();
            }
        }
        proof {
            if hull@.len() == 2 {
                assert(hull@[1] == kept@[idx[0]] && idx[0] == 0);
                assert(cross(o, kept@[0], kept@[i as int]) > 0);
            }
        }
        hull.push(q);
        proof {
            idx = idx.push(i as int);
        }
        i = i + 1;
    }
    proof {
        let n = hull@.len() as int;
        assert(idx[idx.len() - 1] == kept@.len() - 1);
        if idx.len() == 1 {
            assert(idx[0] == 0 && idx[0] == kept@.len() - 1);
        }
        assert(idx.len() >= 2);
        assert(n >= 3);
        assert forall|t: int| 0 <= t < n implies #[trigger] cross(
            hull@[t],
            hull@[wrap(t + 1, n)],
            hull@[wrap(t + 2, n)],
        ) > 0 by {
            if t <= n - 3 {
                assert(cross(hull@[t], hull@[t + 1], hull@[t + 2]) > 0);
            } else if t == n - 2 {
                // the closing edge back to the pivot
                let a = hull@[n - 2];
                let b = hull@[n - 1];
                assert(a == kept@[idx[n - 3]] && b == kept@[idx[n - 2]]);
                assert(idx[n - 3] < idx[n - 2]);
                assert(cross(o, a, b) > 0);
                lemma_cross_cyclic(o, a, b);
                assert(wrap(t + 1, n) == n - 1 && wrap(t + 2, n) == 0);
            } else {
                // the edge out of the pivot
                let b = hull@[1];
                let a = hull@[n - 1];
                assert(b == kept@[idx[0]] && a == kept@[idx[n - 2]]);
                assert(idx[0] < idx[n - 2]);
                assert(cross(o, b, a) > 0);
                lemma_cross_cyclic(o, b, a);
                assert(wrap(t + 1, n) == 0 && wrap(t + 2, n) == 1);
            }
        }
        assert forall|m: int| 1 <= m < hull@.len() implies kept@.contains(#[trigger] hull@[m]) by {
            assert(hull@[m] == kept@[idx[m - 1]]);
        }
        assert forall|k: int, l: int|
            #![trigger hull@[k], hull@[l]]
            0 <= k < l < hull@.len() implies hull@[k] != hull@[l] by {
            if k == 0 {
                assert(hull@[l] == kept@[idx[l - 1]]);
                assert(above(o, hull@[l]));
            } else {
                assert(hull@[k] == kept@[idx[k - 1]] && hull@[l] == kept@[idx[l - 1]]);
                assert(idx[k - 1] < idx[l - 1]);
                assert(cross(o, hull@[k], hull@[l]) > 0);
                if hull@[k] == hull@[l] {
                    lemma_cross_self(o, hull@[k]);
                }
            }
        }
        assert(all_in_range(hull@)) by {
            assert forall|m: int| 0 <= m < hull@.len() implies vec2d::in_range(
                #[trigger] hull@[m],
            ) by {
                if m >= 1 {
                    assert(hull@[m] == kept@[idx[m - 1]]);
                }
            }
        }
    }
    hull
}


/// Performs a Graham scan of the passed in vertices, returning the
/// resulting convex hull or an error if a hull could not be created:
/// `TooFewPoints` exactly when fewer than three vertices come in, and
/// `DegenerateInput` exactly when all of them are collinear or
/// coincident.
pub fn graham_scan(vertices: &[Vec2d]) -> (r: Result<Vec<Vec2d>, GeometryError>)
    requires
        all_in_range(vertices@),
    ensures
        vertices@.len() < 3 <==> r == Err::<Vec<Vec2d>, GeometryError>(GeometryError::TooFewPoints),
        vertices@.len() >= 3 ==> (r == Err::<Vec<Vec2d>, GeometryError>(
            GeometryError::DegenerateInput,
        ) <==> degenerate(vertices@)),
        r matches Ok(h) ==> h@.len() >= 3 && all_in_range(h@) && hull_ccw(h@) && distinct_points(
            h@,
        ) && (forall|m: int| 0 <= m < h@.len() ==> vertices@.contains(#[trigger] h@[m])),
{
    if vertices.len() < 3 {
        return Err(GeometryError::TooFewPoints);
    }
    let pi = lowest_y_index(vertices);
    let o = vertices[pi];
    let mut rest: Vec<Vec2d> = Vec::new();
    let mut m: usize = 0;
    while m < vertices.len()
        invariant
            m <= vertices@.len(),
            pi < vertices@.len(),
            o == vertices@[pi as int],
            all_in_range(vertices@),
            pivot_ok_upto(vertices@, pi as int, vertices@.len() as int),
            all_in_range(rest@),
            all_above(o, rest@),
            forall|k: int| 0 <= k < rest@.len() ==> vertices@.contains(#[trigger] rest@[k]),
            forall|k: int|
                0 <= k < m ==> (#[trigger] vertices@[k]) == o || rest@.contains(vertices@[k]),
        decreases vertices@.len() - m,
    {
        let p = vertices[m];
        if !(p.x == o.x && p.y == o.y) {
            let ghost rest0 = rest@;
            rest.push(p);
            proof {
                assert(rest@ == rest0.push(p));
                assert(rest@[rest@.len() - 1] == p);
                assert forall|k: int|
                    0 <= k < m + 1 implies (#[trigger] vertices@[k]) == o || rest@.contains(
                    vertices@[k],
                ) by {
                    if k < m && vertices@[k] != o {
                        let ki = choose|ki: int| 0 <= ki < rest0.len() && rest0[ki] == vertices@[k];
                        assert(rest@[ki] == vertices@[k]);
                    }
                    if k == m {
                        assert(rest@[rest@.len() - 1] == vertices@[k]);
                    }
                }
            }
        }
        m = m + 1;
    }
    if rest.len() == 0 {
        proof {
            assert forall|a: int, b: int, c: int|
                0 <= a < vertices@.len() && 0 <= b < vertices@.len() && 0 <= c
                    < vertices@.len() implies #[trigger] cross(
                vertices@[a],
                vertices@[b],
                vertices@[c],
            ) == 0 by {
                assert(vertices@[a] == o && vertices@[b] == o && vertices@[c] == o);
                lemma_cross_self(o, o);
            }
        }
        return Err(GeometryError::DegenerateInput);
    }
    let ghost pre_sort = rest@;
    sort_by_angle(o, &mut rest);
    proof {
        assert forall|k: int| 0 <= k < rest@.len() implies vertices@.contains(
            #[trigger] rest@[k],
        ) by {
            crate::util::lemma_multiset_contains_seq(rest@, pre_sort, rest@[k]);
            let ki = choose|ki: int| 0 <= ki < pre_sort.len() && pre_sort[ki] == rest@[k];
        }
        assert forall|k: int|
            0 <= k < vertices@.len() implies (#[trigger] vertices@[k]) == o || rest@.contains(
            vertices@[k],
        ) by {
            if vertices@[k] != o {
                crate::util::lemma_multiset_contains_seq(pre_sort, rest@, vertices@[k]);
            }
        }
    }
    let kept = dedup_collinear(o, &rest);
    if kept.len() < 2 {
        proof {
            let w = kept@[0];
            assert(above(o, w));
            assert(w != o);
            assert forall|q: int| 0 <= q < vertices@.len() implies cross(
                o,
                w,
                #[trigger] vertices@[q],
            ) == 0 by {
                if vertices@[q] == o {
                    assert(cross(o, w, o) == (w.x - o.x) * 0 - (w.y - o.y) * 0);
                } else {
                    assert(rest@.contains(vertices@[q]));
                    let mm = choose|mm: int| 0 <= mm < rest@.len() && rest@[mm] == vertices@[q];
                    assert(cross(o, kept@[0], rest@[mm]) == 0);
                }
            }
            assert forall|a: int, b: int, c: int|
                0 <= a < vertices@.len() && 0 <= b < vertices@.len() && 0 <= c
                    < vertices@.len() implies #[trigger] cross(
                vertices@[a],
                vertices@[b],
                vertices@[c],
            ) == 0 by {
                lemma_line_collinear(o, w, vertices@[a], vertices@[b], vertices@[c]);
            }
        }
        return Err(GeometryError::DegenerateInput);
    }
    let hull = scan_hull(o, &kept);
    proof {
        // a strict turn among the inputs rules the degenerate case out
        assert(cross(o, kept@[0], kept@[1]) > 0);
        assert(vertices@.contains(o)) by {
            assert(vertices@[pi as int] == o);
        }
        assert(rest@.contains(kept@[0]) && rest@.contains(kept@[1]));
        assert(vertices@.contains(kept@[0]) && vertices@.contains(kept@[1]));
        if degenerate(vertices@) {
            let ia = choose|ia: int| 0 <= ia < vertices@.len() && vertices@[ia] == o;
            let ib = choose|ib: int| 0 <= ib < vertices@.len() && vertices@[ib] == kept@[0];
            let ic = choose|ic: int| 0 <= ic < vertices@.len() && vertices@[ic] == kept@[1];
            assert(cross(vertices@[ia], vertices@[ib], vertices@[ic]) == 0);
        }
        assert forall|k: int| 0 <= k < hull@.len() implies vertices@.contains(
            #[trigger] hull@[k],
        ) by {
            if k == 0 {
                assert(hull@[0] == o);
            } else {
                assert(kept@.contains(hull@[k]));
                let kk = choose|kk: int| 0 <= kk < kept@.len() && kept@[kk] == hull@[k];
                assert(rest@.contains(kept@[kk]));
            }
        }
    }
    Ok(hull)
}


/// Convex represents a convex polygon.  It contains the necessary
/// information to be used within collision detection algorithms:
/// vertices in counter-clockwise order and one outward edge normal per
/// edge.  The normals are exact integer perpendiculars of the edges,
/// not unit vectors: only their directions enter the separating-axis
/// test, and keeping them integral keeps every classification exact.
#[derive(Debug)]
pub struct Convex {
    pub vertices: Vec<Vec2d>,
    pub normals: Vec<Vec2d>,
}

impl Convex {
    /// A well-formed polygon: at least three lattice vertices in
    /// strictly convex counter-clockwise order, and for every edge
    /// `(v[i], v[i+1])` the outward perpendicular `(e.y, -e.x)` of the
    /// edge vector `e` as its normal.
    pub open spec fn wf(self) -> bool {
        &&& self.vertices@.len() >= 3
        &&& self.normals@.len() == self.vertices@.len()
        &&& all_in_range(self.vertices@)
        &&& hull_ccw(self.vertices@)
        &&& distinct_points(self.vertices@)
        &&& forall|i: int|
            0 <= i < self.vertices@.len() ==> {
                &&& (#[trigger] self.normals@[i]).x == self.vertices@[wrap(
                    i + 1,
                    self.vertices@.len() as int,
                )].y - self.vertices@[i].y
                &&& self.normals@[i].y == -(self.vertices@[wrap(
                    i + 1,
                    self.vertices@.len() as int,
                )].x - self.vertices@[i].x)
            }
    }

    /// Creates a convex polygon from the given vertices or returns an
    /// error if a convex polygon could not be created from the
    /// vertices: `TooFewPoints` exactly below three points, and
    /// `DegenerateInput` exactly when all points are collinear or
    /// coincident.  Only the vertices on the minimal convex hull are
    /// saved within the returned polygon.
    pub fn new(vertices: &[Vec2d]) -> (r: Result<Convex, GeometryError>)
        requires
            all_in_range(vertices@),
        ensures
            vertices@.len() < 3 <==> r == Err::<Convex, GeometryError>(GeometryError::TooFewPoints),
            vertices@.len() >= 3 ==> (r == Err::<Convex, GeometryError>(
                GeometryError::DegenerateInput,
            ) <==> degenerate(vertices@)),
            r matches Ok(c) ==> c.wf() && (forall|m: int|
                0 <= m < c.vertices@.len() ==> vertices@.contains(#[trigger] c.vertices@[m])),
    {
        match graham_scan(vertices) {
            Err(e) => Err(e),
            Ok(hull) => {
                let mut normals: Vec<Vec2d> = Vec::new();
                let n = hull.len();
                let mut i: usize = 0;
                while i < n
                    invariant
                        n == hull@.len(),
                        3 <= n,
                        all_in_range(hull@),
                        normals@.len() == i,
                        i <= n,
                        forall|j: int|
                            0 <= j < i ==> {
                                &&& (#[trigger] normals@[j]).x == hull@[wrap(j + 1, n as int)].y
                                    - hull@[j].y
                                &&& normals@[j].y == -(hull@[wrap(j + 1, n as int)].x - hull@[j].x)
                            },
                    decreases n - i,
                {
                    let i2 = if i + 1 < n {
                        i + 1
                    } else {
                        0
                    };
                    let ex = hull[i2].x - hull[i].x;
                    let ey = hull[i2].y - hull[i].y;
                    normals.push(Vec2d { x: ey, y: -ex });
                    i = i + 1;
                }
                Ok(Convex { vertices: hull, normals })
            },
        }
    }

    /// Returns a reference to the vertices making up the convex hull of
    /// this polygon.
    pub fn vertices(&self) -> (v: &Vec<Vec2d>)
        ensures
            v@ == self.vertices@,
    {
        &self.vertices
    }

    /// Returns a reference to the edge normals for this convex polygon.
    pub fn normals(&self) -> (v: &Vec<Vec2d>)
        ensures
            v@ == self.normals@,
    {
        &self.normals
    }
}

/// `p` lies strictly inside the counter-clockwise polygon `vs`:
/// strictly to the left of every directed edge.
pub open spec fn strictly_inside(p: Vec2d, vs: Seq<Vec2d>) -> bool {
    forall|e: int|
        0 <= e < vs.len() ==> #[trigger] cross(vs[e], vs[wrap(e + 1, vs.len() as int)], p) > 0
}

/// Law: hull minimality.  A well-formed hull has no three consecutive
/// vertices collinear (the turn at every vertex is strict), and no hull
/// vertex lies strictly inside the polygon formed by the remaining
/// vertices: dropping vertex `i` closes the chord from its predecessor
/// to its successor, and vertex `i` lies strictly outside that chord.
pub proof fn lemma_hull_minimality(c: Convex, i: int)
    requires
        c.wf(),
        0 <= i < c.vertices@.len(),
    ensures
        cross(
            c.vertices@[i],
            c.vertices@[wrap(i + 1, c.vertices@.len() as int)],
            c.vertices@[wrap(i + 2, c.vertices@.len() as int)],
        ) != 0,
        !strictly_inside(c.vertices@[i], c.vertices@.remove(i)),
{
    let vs = c.vertices@;
    let n = vs.len() as int;
    let rest = vs.remove(i);
    vs.remove_ensures(i);
    let pidx = if i == 0 {
        n - 1
    } else {
        i - 1
    };
    assert(cross(vs[pidx], vs[wrap(pidx + 1, n)], vs[wrap(pidx + 2, n)]) > 0);
    assert(wrap(pidx + 1, n) == i);
    assert(wrap(pidx + 2, n) == wrap(i + 1, n));
    assert(cross(vs[pidx], vs[i], vs[wrap(i + 1, n)]) > 0);
    lemma_cross_cyclic(vs[pidx], vs[i], vs[wrap(i + 1, n)]);
    assert(cross(vs[pidx], vs[wrap(i + 1, n)], vs[i]) < 0);
    let e = if i >= 1 {
        i - 1
    } else {
        n - 2
    };
    assert(0 <= e < rest.len());
    assert(rest[e] == vs[pidx]);
    assert(rest[wrap(e + 1, n - 1)] == vs[wrap(i + 1, n)]);
    assert(!(cross(rest[e], rest[wrap(e + 1, rest.len() as int)], vs[i]) > 0));
}


/// The x component of `v` rotated by `r` (no translation: normals are
/// direction vectors).
pub open spec fn rot_x(v: Vec2d, r: Rotation) -> int {
    rotation::scale_down(r.cos * v.x - r.sin * v.y)
}

/// The y component of `v` rotated by `r`.
pub open spec fn rot_y(v: Vec2d, r: Rotation) -> int {
    rotation::scale_down(r.sin * v.x + r.cos * v.y)
}

/// The projection of the transformed `j`-th vertex of `b` onto the
/// direction `(nx, ny)`, scaled by that direction's length.
pub open spec fn proj_of(b: Convex, bt: Transform, nx: int, ny: int, j: int) -> int {
    nx * vec2d::apply_x(b.vertices@[j], bt) + ny * vec2d::apply_y(b.vertices@[j], bt)
}

/// The least projection among the first `upto` vertices of `b`: the
/// support point's projection, the vertex of `b` farthest against the
/// direction.
pub open spec fn min_proj_upto(b: Convex, bt: Transform, nx: int, ny: int, upto: int) -> int
    decreases upto,
{
    if upto <= 1 {
        proj_of(b, bt, nx, ny, 0)
    } else {
        let prev = min_proj_upto(b, bt, nx, ny, upto - 1);
        let cur = proj_of(b, bt, nx, ny, upto - 1);
        if cur < prev {
            cur
        } else {
            prev
        }
    }
}

/// The separation the `i`-th edge of `a` witnesses: the signed distance
/// (scaled by the unnormalized normal's length) from `b`'s support
/// point to the edge's line along the transformed outward normal.
/// Positive means the edge is a separating axis.
pub open spec fn sep_of_edge(a: Convex, at: Transform, b: Convex, bt: Transform, i: int) -> int {
    let nx = rot_x(a.normals@[i], at.rotation);
    let ny = rot_y(a.normals@[i], at.rotation);
    min_proj_upto(b, bt, nx, ny, b.vertices@.len() as int) - (nx * vec2d::apply_x(
        a.vertices@[i],
        at,
    ) + ny * vec2d::apply_y(a.vertices@[i], at))
}

/// The best (largest) separation over the first `upto` edges of `a`.
pub open spec fn max_sep_upto(a: Convex, at: Transform, b: Convex, bt: Transform, upto: int) -> int
    decreases upto,
{
    if upto <= 1 {
        sep_of_edge(a, at, b, bt, 0)
    } else {
        let prev = max_sep_upto(a, at, b, bt, upto - 1);
        let cur = sep_of_edge(a, at, b, bt, upto - 1);
        if cur > prev {
            cur
        } else {
            prev
        }
    }
}

/// The separating-axis decision: the placed polygons overlap (touching
/// included) exactly when no edge of either polygon yields a positive
/// separation.
pub open spec fn collides_spec(a: Convex, at: Transform, b: Convex, bt: Transform) -> bool {
    &&& max_sep_upto(a, at, b, bt, a.vertices@.len() as int) <= 0
    &&& max_sep_upto(b, bt, a, at, b.vertices@.len() as int) <= 0
}

/// Law: the separating-axis test is symmetric in its two placed
/// polygons: `collides(A, at, B, bt) == collides(B, bt, A, at)`.
pub proof fn lemma_collides_symmetric(a: Convex, at: Transform, b: Convex, bt: Transform)
    ensures
        collides_spec(a, at, b, bt) == collides_spec(b, bt, a, at),
{
}

/// Computes one vertex's projection onto a direction, exactly.
fn proj_vertex(b: &Convex, bt: &Transform, nx: i64, ny: i64, j: usize) -> (p: i128)
    requires
        b.wf(),
        bt.wf(),
        j < b.vertices@.len(),
        -0x2_0000_0000i64 <= nx <= 0x2_0000_0000i64,
        -0x2_0000_0000i64 <= ny <= 0x2_0000_0000i64,
    ensures
        p == proj_of(*b, *bt, nx as int, ny as int, j as int),
        -0x8_0000_0000_0000_0000_0i128 <= p <= 0x8_0000_0000_0000_0000_0i128,
{
    let v = b.vertices[j].apply(bt);
    proof {
        lemma_mul_bound(nx as int, v.x as int, 0x2_0000_0000, 0xC000_0000);
        lemma_mul_bound(ny as int, v.y as int, 0x2_0000_0000, 0xC000_0000);
    }
    (nx as i128) * (v.x as i128) + (ny as i128) * (v.y as i128)
}

/// Finds the support point of `b` against the direction `(nx, ny)`: the
/// least projection over all of `b`'s transformed vertices.
fn min_projection(b: &Convex, bt: &Transform, nx: i64, ny: i64) -> (p: i128)
    requires
        b.wf(),
        bt.wf(),
        -0x2_0000_0000i64 <= nx <= 0x2_0000_0000i64,
        -0x2_0000_0000i64 <= ny <= 0x2_0000_0000i64,
    ensures
        p == min_proj_upto(*b, *bt, nx as int, ny as int, b.vertices@.len() as int),
        -0x8_0000_0000_0000_0000_0i128 <= p <= 0x8_0000_0000_0000_0000_0i128,
{
    let mut best = proj_vertex(b, bt, nx, ny, 0);
    let mut j: usize = 1;
    while j < b.vertices.len()
        invariant
            b.wf(),
            bt.wf(),
            -0x2_0000_0000i64 <= nx <= 0x2_0000_0000i64,
            -0x2_0000_0000i64 <= ny <= 0x2_0000_0000i64,
            1 <= j <= b.vertices@.len(),
            best == min_proj_upto(*b, *bt, nx as int, ny as int, j as int),
            -0x8_0000_0000_0000_0000_0i128 <= best <= 0x8_0000_0000_0000_0000_0i128,
        decreases b.vertices@.len() - j,
    {
        let pj = proj_vertex(b, bt, nx, ny, j);
        if pj < best {
            best = pj;
        }
        j = j + 1;
    }
    best
}

/// Computes the separation witnessed by the `i`-th edge of `a`.
fn edge_separation(a: &Convex, b: &Convex, at: &Transform, bt: &Transform, i: usize) -> (s: i128)
    requires
        a.wf(),
        b.wf(),
        at.wf(),
        bt.wf(),
        i < a.vertices@.len(),
    ensures
        s == sep_of_edge(*a, *at, *b, *bt, i as int),
        -0x10_0000_0000_0000_0000_0i128 <= s <= 0x10_0000_0000_0000_0000_0i128,
{
    let nv = a.normals[i];
    proof {
        // an edge normal is a difference of two in-range coordinates
        assert(-0x8000_0000i64 <= nv.x <= 0x8000_0000i64 && -0x8000_0000i64 <= nv.y
            <= 0x8000_0000i64) by {
            assert(vec2d::in_range(a.vertices@[i as int]));
            assert(vec2d::in_range(
                a.vertices@[wrap(i as int + 1, a.vertices@.len() as int)],
            ));
        }
        at.rotation.lemma_component_bounds();
        lemma_mul_bound(at.rotation.cos as int, nv.x as int, 0x1_0000, 0x8000_0000);
        lemma_mul_bound(at.rotation.sin as int, nv.y as int, 0x1_0000, 0x8000_0000);
        lemma_mul_bound(at.rotation.sin as int, nv.x as int, 0x1_0000, 0x8000_0000);
        lemma_mul_bound(at.rotation.cos as int, nv.y as int, 0x1_0000, 0x8000_0000);
        rotation::lemma_scale_down_div_bound(
            at.rotation.cos * nv.x - at.rotation.sin * nv.y,
            0x1_0000_0000,
        );
        rotation::lemma_scale_down_div_bound(
            at.rotation.sin * nv.x + at.rotation.cos * nv.y,
            0x1_0000_0000,
        );
    }
    let normal = nv.rotate(at.rotation());
    let va = a.vertices[i].apply(at);
    let mp = min_projection(b, bt, normal.x, normal.y);
    proof {
        lemma_mul_bound(normal.x as int, va.x as int, 0x2_0000_0000, 0xC000_0000);
        lemma_mul_bound(normal.y as int, va.y as int, 0x2_0000_0000, 0xC000_0000);
    }
    let base = (normal.x as i128) * (va.x as i128) + (normal.y as i128) * (va.y as i128);
    mp - base
}

impl Convex {
    /// Returns if this polygon, placed by `this_t`, collides with
    /// `other` placed by `other_t`: the separating-axis test over both
    /// polygons' transformed edge normals.  Shapes touching along an
    /// edge or at a vertex count as colliding; only a strictly positive
    /// separation certifies disjointness.
    pub fn collides_with(&self, other: &Convex, this_t: &Transform, other_t: &Transform) -> (r:
        bool)
        requires
            self.wf(),
            other.wf(),
            this_t.wf(),
            other_t.wf(),
        ensures
            r == collides_spec(*self, *this_t, *other, *other_t),
    {
        let (_best_a, sep_a) = find_max_separation(self, other, this_t, other_t);
        if sep_a > 0 {
            return false;
        }
        let (_best_b, sep_b) = find_max_separation(other, self, other_t, this_t);
        if sep_b > 0 {
            return false;
        }
        true
    }

    /// Computes and returns an axis-aligned bounding box for this
    /// polygon under the given transform: the tightest box covering the
    /// transformed vertices.
    pub fn aabb(&self, transform: &Transform) -> (r: Aabb)
        requires
            self.wf(),
            transform.wf(),
        ensures
            r.wf(),
            forall|i: int|
                0 <= i < self.vertices@.len() ==> {
                    &&& r.min_spec().x <= vec2d::apply_x(#[trigger] self.vertices@[i], *transform)
                        <= r.max_spec().x
                    &&& r.min_spec().y <= vec2d::apply_y(self.vertices@[i], *transform)
                        <= r.max_spec().y
                },
            exists|i: int|
                0 <= i < self.vertices@.len() && vec2d::apply_x(
                    #[trigger] self.vertices@[i],
                    *transform,
                ) == r.min_spec().x,
            exists|i: int|
                0 <= i < self.vertices@.len() && vec2d::apply_x(
                    #[trigger] self.vertices@[i],
                    *transform,
                ) == r.max_spec().x,
            exists|i: int|
                0 <= i < self.vertices@.len() && vec2d::apply_y(
                    #[trigger] self.vertices@[i],
                    *transform,
                ) == r.min_spec().y,
            exists|i: int|
                0 <= i < self.vertices@.len() && vec2d::apply_y(
                    #[trigger] self.vertices@[i],
                    *transform,
                ) == r.max_spec().y,
    {
        let mut transformed: Vec<Vec2d> = Vec::new();
        let n = self.vertices.len();
        let mut i: usize = 0;
        while i < n
            invariant
                self.wf(),
                transform.wf(),
                n == self.vertices@.len(),
                i <= n,
                transformed@.len() == i,
                forall|j: int|
                    0 <= j < i ==> {
                        &&& (#[trigger] transformed@[j]).x == vec2d::apply_x(
                            self.vertices@[j],
                            *transform,
                        )
                        &&& transformed@[j].y == vec2d::apply_y(self.vertices@[j], *transform)
                    },
            decreases n - i,
        {
            let v = self.vertices[i].apply(transform);
            transformed.push(v);
            i = i + 1;
        }
        let bx = match Aabb::new(transformed.as_slice()) {
            Ok(bx) => bx,
            Err(_) => vstd::pervasive::unreached(),
        };
        proof {
            assert forall|j: int| 0 <= j < self.vertices@.len() implies {
                &&& bx.min_spec().x <= vec2d::apply_x(#[trigger] self.vertices@[j], *transform)
                    <= bx.max_spec().x
                &&& bx.min_spec().y <= vec2d::apply_y(self.vertices@[j], *transform)
                    <= bx.max_spec().y
            } by {
                assert(transformed@[j].x == vec2d::apply_x(self.vertices@[j], *transform));
                assert(transformed@[j].y == vec2d::apply_y(self.vertices@[j], *transform));
                assert(bx.min_spec().x <= transformed@[j].x <= bx.max_spec().x);
                assert(bx.min_spec().y <= transformed@[j].y <= bx.max_spec().y);
            }
            let jx0 = choose|j: int|
                0 <= j < transformed@.len() && (#[trigger] transformed@[j]).x == bx.min_spec().x;
            assert(vec2d::apply_x(self.vertices@[jx0], *transform) == bx.min_spec().x);
            let jx1 = choose|j: int|
                0 <= j < transformed@.len() && (#[trigger] transformed@[j]).x == bx.max_spec().x;
            assert(vec2d::apply_x(self.vertices@[jx1], *transform) == bx.max_spec().x);
            let jy0 = choose|j: int|
                0 <= j < transformed@.len() && (#[trigger] transformed@[j]).y == bx.min_spec().y;
            assert(vec2d::apply_y(self.vertices@[jy0], *transform) == bx.min_spec().y);
            let jy1 = choose|j: int|
                0 <= j < transformed@.len() && (#[trigger] transformed@[j]).y == bx.max_spec().y;
            assert(vec2d::apply_y(self.vertices@[jy1], *transform) == bx.max_spec().y);
        }
        bx
    }
}

/// Calculates the maximum separation value over the separating-axis
/// candidates of `a`: for each edge, transform the edge's vertex and
/// outward normal by `a`'s placement, find the support point of `b`
/// against the normal, and measure the support point's signed distance
/// to the edge line; the largest such distance is returned with the
/// edge index attaining it.
pub fn find_max_separation(a: &Convex, b: &Convex, at: &Transform, bt: &Transform) -> (r: (
    usize,
    i128,
))
    requires
        a.wf(),
        b.wf(),
        at.wf(),
        bt.wf(),
    ensures
        r.0 < a.vertices@.len(),
        r.1 == max_sep_upto(*a, *at, *b, *bt, a.vertices@.len() as int),
        r.1 == sep_of_edge(*a, *at, *b, *bt, r.0 as int),
{
    let mut best_i: usize = 0;
    let mut max_sep = edge_separation(a, b, at, bt, 0);
    let mut i: usize = 1;
    while i < a.vertices.len()
        invariant
            a.wf(),
            b.wf(),
            at.wf(),
            bt.wf(),
            1 <= i <= a.vertices@.len(),
            best_i < i,
            max_sep == max_sep_upto(*a, *at, *b, *bt, i as int),
            max_sep == sep_of_edge(*a, *at, *b, *bt, best_i as int),
        decreases a.vertices@.len() - i,
    {
        let sep = edge_separation(a, b, at, bt, i);
        if sep > max_sep {
            best_i = i;
            max_sep = sep;
        }
        i = i + 1;
    }
    (best_i, max_sep)
}

} // verus!
