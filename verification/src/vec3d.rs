//! Three-component vectors of fixed-point scalars, with the rotation
//! operators used by the camera.
//!
//! The spec functions over [`V3`] (mathematical integer components) mirror
//! the executable operations exactly, rounding included, so every geometric
//! computation in the crate has a pinned-down integer result.

use vstd::prelude::*;

use crate::fixed::{
    fdiv, fmul, fx_div, fx_mul, iabs, is_sqrt, isqrt_u128, lemma_abs_mul, lemma_fmul_bound,
    lemma_sqrt_floor, sqrt_floor, tdiv, SCALE,
};

verus! {

/// Components fed to a product (dot, cross, scale) must stay below this
/// bound, so that the fixed-point intermediates fit in an `i64`.
pub const V_ARG_MAX: i64 = 0x60_0000_0000;

/// Components fed to `magnitude` or `normalize` must stay below this bound.
pub const V_NORM_MAX: i64 = 0x100_0000_0000;

/// Bound on the coordinates of scene content: shape geometry, light
/// positions and the camera position all stay within this box.
pub const WORLD_MAX: i64 = 0x8000_0000;

/// Bound on the origin of a ray handed to an intersection query.  Ray
/// origins drift away from the world box as reflections are followed, but
/// never further than this.
pub const RAY_ORIG_MAX: i64 = 0x40_0000_0000;

/// Bound on the components of a direction handed to an intersection query;
/// unit vectors stay well below it.
pub const RAY_DIR_MAX: i64 = 0x8_0000;

/// Far clip: a hit further than this many direction lengths along the ray
/// is not reported.  Keeps every intermediate of the hit-point computation
/// within `i64` range.
pub const DIST_MAX: i64 = 0x4000_0000;

/// How far (per component) a reported hit point can lie from the ray
/// origin: (RAY_DIR_MAX * DIST_MAX) / SCALE.
pub const HOP_MAX: i64 = 0x2_0000_0000;

/// The mathematical value of a vector: its components as plain integers.
pub struct V3 {
    pub x: int,
    pub y: int,
    pub z: int,
}

/// A vector of fixed-point scalars.
#[derive(Clone, Copy, PartialEq, Eq, Structural, Debug)]
pub struct Vec3d {
    pub x: i64,
    pub y: i64,
    pub z: i64,
}

impl View for Vec3d {
    type V = V3;

    open spec fn view(&self) -> V3 {
        V3 { x: self.x as int, y: self.y as int, z: self.z as int }
    }
}

/// All three components have magnitude at most m.
pub open spec fn v_bounded(v: V3, m: int) -> bool {
    &&& iabs(v.x) <= m
    &&& iabs(v.y) <= m
    &&& iabs(v.z) <= m
}

pub open spec fn v_zero() -> V3 {
    V3 { x: 0, y: 0, z: 0 }
}

pub open spec fn v_add(a: V3, b: V3) -> V3 {
    V3 { x: a.x + b.x, y: a.y + b.y, z: a.z + b.z }
}

pub open spec fn v_sub(a: V3, b: V3) -> V3 {
    V3 { x: a.x - b.x, y: a.y - b.y, z: a.z - b.z }
}

pub open spec fn v_neg(v: V3) -> V3 {
    V3 { x: -v.x, y: -v.y, z: -v.z }
}

pub open spec fn v_scale(v: V3, s: int) -> V3 {
    V3 { x: fmul(v.x, s), y: fmul(v.y, s), z: fmul(v.z, s) }
}

pub open spec fn v_dot(a: V3, b: V3) -> int {
    fmul(a.x, b.x) + fmul(a.y, b.y) + fmul(a.z, b.z)
}

pub open spec fn v_cross(a: V3, b: V3) -> V3 {
    V3 {
        x: fmul(a.y, b.z) - fmul(a.z, b.y),
        y: fmul(a.z, b.x) - fmul(a.x, b.z),
        z: fmul(a.x, b.y) - fmul(a.y, b.x),
    }
}

/// Squared length, at raw scale (fixed-point scale squared).
pub open spec fn v_norm2(v: V3) -> int {
    v.x * v.x + v.y * v.y + v.z * v.z
}

/// Length, as a fixed-point scalar.
pub open spec fn v_norm(v: V3) -> int {
    sqrt_floor(v_norm2(v))
}

/// The unit vector with v's direction; the zero vector stays zero.
pub open spec fn v_unit(v: V3) -> V3 {
    if v_norm2(v) == 0 {
        v_zero()
    } else {
        let m = v_norm(v);
        V3 { x: fdiv(v.x, m), y: fdiv(v.y, m), z: fdiv(v.z, m) }
    }
}

/// Rotation about the X axis by the angle whose sine and cosine are s and c.
pub open spec fn v_rot_x(v: V3, s: int, c: int) -> V3 {
    V3 {
        x: v.x,
        y: fmul(v.y, c) - fmul(v.z, s),
        z: fmul(v.y, s) + fmul(v.z, c),
    }
}

/// Rotation about the Y axis by the angle whose sine and cosine are s and c.
pub open spec fn v_rot_y(v: V3, s: int, c: int) -> V3 {
    V3 {
        x: fmul(v.x, c) + fmul(v.z, s),
        y: v.y,
        z: fmul(v.z, c) - fmul(v.x, s),
    }
}

/// Rotation about the Z axis by the angle whose sine and cosine are s and c.
pub open spec fn v_rot_z(v: V3, s: int, c: int) -> V3 {
    V3 {
        x: fmul(v.x, c) - fmul(v.y, s),
        y: fmul(v.x, s) + fmul(v.y, c),
        z: v.z,
    }
}

/// Squares are nonnegative.
pub proof fn lemma_squares(x: int, y: int, z: int) by (nonlinear_arith)
    ensures
        0 <= x * x,
        0 <= y * y,
        0 <= z * z,
{
}

/// A fixed-point product against a scalar in [-1, 1] does not grow
/// past the other factor's bound.
pub proof fn lemma_fmul_unit_factor(a: int, s: int, m: int)
    requires
        iabs(a) <= m,
        iabs(s) <= SCALE as int,
    ensures
        iabs(fmul(a, s)) <= m,
{
    lemma_fmul_bound(a, s, m, SCALE as int);
    vstd::arithmetic::mul::lemma_mul_is_commutative(m, SCALE as int);
    vstd::arithmetic::div_mod::lemma_div_multiples_vanish(m, SCALE as int);
}

/// Rotating by any sine/cosine pair in [-1, 1] at most doubles a
/// component bound.
pub proof fn lemma_rot_bounded(v: V3, s: int, c: int, m: int)
    requires
        v_bounded(v, m),
        iabs(s) <= SCALE as int,
        iabs(c) <= SCALE as int,
        0 <= m,
    ensures
        v_bounded(v_rot_x(v, s, c), 2 * m),
        v_bounded(v_rot_y(v, s, c), 2 * m),
        v_bounded(v_rot_z(v, s, c), 2 * m),
{
    lemma_fmul_unit_factor(v.x, s, m);
    lemma_fmul_unit_factor(v.x, c, m);
    lemma_fmul_unit_factor(v.y, s, m);
    lemma_fmul_unit_factor(v.y, c, m);
    lemma_fmul_unit_factor(v.z, s, m);
    lemma_fmul_unit_factor(v.z, c, m);
}

/// Each term of a dot product of vectors bounded by ma and mb is bounded
/// by (ma * mb) / SCALE, and the sum by three times that.
pub proof fn lemma_dot_bound(a: V3, b: V3, ma: int, mb: int)
    requires
        v_bounded(a, ma),
        v_bounded(b, mb),
    ensures
        iabs(v_dot(a, b)) <= 3 * ((ma * mb) / (SCALE as int)),
{
    lemma_fmul_bound(a.x, b.x, ma, mb);
    lemma_fmul_bound(a.y, b.y, ma, mb);
    lemma_fmul_bound(a.z, b.z, ma, mb);
}

impl Vec3d {
    pub fn new(x: i64, y: i64, z: i64) -> (r: Vec3d)
        ensures
            r@ == (V3 { x: x as int, y: y as int, z: z as int }),
    {
        Vec3d { x, y, z }
    }

    pub fn add(&self, other: &Vec3d) -> (r: Vec3d)
        requires
            v_bounded(self@, 0x3fff_ffff_ffff_ffff),
            v_bounded(other@, 0x3fff_ffff_ffff_ffff),
        ensures
            r@ == v_add(self@, other@),
    {
        Vec3d { x: self.x + other.x, y: self.y + other.y, z: self.z + other.z }
    }

    pub fn sub(&self, other: &Vec3d) -> (r: Vec3d)
        requires
            v_bounded(self@, 0x3fff_ffff_ffff_ffff),
            v_bounded(other@, 0x3fff_ffff_ffff_ffff),
        ensures
            r@ == v_sub(self@, other@),
    {
        Vec3d { x: self.x - other.x, y: self.y - other.y, z: self.z - other.z }
    }

    /// Componentwise product with a fixed-point scalar.
    pub fn scale(&self, s: i64) -> (r: Vec3d)
        requires
            v_bounded(self@, V_ARG_MAX as int),
            iabs(s as int) <= V_ARG_MAX as int,
        ensures
            r@ == v_scale(self@, s as int),
    {
        proof {
            lemma_fmul_bound(self@.x, s as int, V_ARG_MAX as int, V_ARG_MAX as int);
            lemma_fmul_bound(self@.y, s as int, V_ARG_MAX as int, V_ARG_MAX as int);
            lemma_fmul_bound(self@.z, s as int, V_ARG_MAX as int, V_ARG_MAX as int);
        }
        Vec3d { x: fx_mul(self.x, s), y: fx_mul(self.y, s), z: fx_mul(self.z, s) }
    }

    pub fn dot(&self, other: &Vec3d) -> (r: i64)
        requires
            v_bounded(self@, V_ARG_MAX as int),
            v_bounded(other@, V_ARG_MAX as int),
        ensures
            r as int == v_dot(self@, other@),
    {
        proof {
            lemma_fmul_bound(self@.x, other@.x, V_ARG_MAX as int, V_ARG_MAX as int);
            lemma_fmul_bound(self@.y, other@.y, V_ARG_MAX as int, V_ARG_MAX as int);
            lemma_fmul_bound(self@.z, other@.z, V_ARG_MAX as int, V_ARG_MAX as int);
        }
        fx_mul(self.x, other.x) + fx_mul(self.y, other.y) + fx_mul(self.z, other.z)
    }

    pub fn cross(&self, other: &Vec3d) -> (r: Vec3d)
        requires
            v_bounded(self@, V_ARG_MAX as int),
            v_bounded(other@, V_ARG_MAX as int),
        ensures
            r@ == v_cross(self@, other@),
    {
        proof {
            lemma_fmul_bound(self@.x, other@.x, V_ARG_MAX as int, V_ARG_MAX as int);
            lemma_fmul_bound(self@.x, other@.y, V_ARG_MAX as int, V_ARG_MAX as int);
            lemma_fmul_bound(self@.x, other@.z, V_ARG_MAX as int, V_ARG_MAX as int);
            lemma_fmul_bound(self@.y, other@.x, V_ARG_MAX as int, V_ARG_MAX as int);
            lemma_fmul_bound(self@.y, other@.z, V_ARG_MAX as int, V_ARG_MAX as int);
            lemma_fmul_bound(self@.z, other@.x, V_ARG_MAX as int, V_ARG_MAX as int);
            lemma_fmul_bound(self@.z, other@.y, V_ARG_MAX as int, V_ARG_MAX as int);
        }
        Vec3d {
            x: fx_mul(self.y, other.z) - fx_mul(self.z, other.y),
            y: fx_mul(self.z, other.x) - fx_mul(self.x, other.z),
            z: fx_mul(self.x, other.y) - fx_mul(self.y, other.x),
        }
    }

    /// Length of the vector, as a fixed-point scalar.
    pub fn magnitude(&self) -> (r: i64)
        requires
            v_bounded(self@, V_NORM_MAX as int),
        ensures
            r as int == v_norm(self@),
            is_sqrt(v_norm2(self@), r as int),
            0 <= r <= 0x200_0000_0000,
    {
        proof {
            lemma_abs_mul(self@.x, self@.x);
            lemma_abs_mul(self@.y, self@.y);
            lemma_abs_mul(self@.z, self@.z);
            vstd::arithmetic::mul::lemma_mul_upper_bound(
                iabs(self@.x),
                V_NORM_MAX as int,
                iabs(self@.x),
                V_NORM_MAX as int,
            );
            vstd::arithmetic::mul::lemma_mul_upper_bound(
                iabs(self@.y),
                V_NORM_MAX as int,
                iabs(self@.y),
                V_NORM_MAX as int,
            );
            vstd::arithmetic::mul::lemma_mul_upper_bound(
                iabs(self@.z),
                V_NORM_MAX as int,
                iabs(self@.z),
                V_NORM_MAX as int,
            );
            lemma_squares(self@.x, self@.y, self@.z);
        }
        let n2: i128 = (self.x as i128) * (self.x as i128) + (self.y as i128) * (self.y as i128)
            + (self.z as i128) * (self.z as i128);
        let m: u64 = isqrt_u128(n2 as u128);
        proof {
            assert(m as int * (m as int) <= 3 * ((V_NORM_MAX as int) * (V_NORM_MAX as int)));
            assert(m < 0x200_0000_0000) by (nonlinear_arith)
                requires
                    m as int * (m as int) <= 3 * ((V_NORM_MAX as int) * (V_NORM_MAX as int)),
                    V_NORM_MAX == 0x100_0000_0000i64,
            ;
        }
        m as i64
    }

    /// The unit vector with this vector's direction; the zero vector is
    /// returned unchanged.  Components of the result stay within one unit.
    pub fn normalize(&self) -> (r: Vec3d)
        requires
            v_bounded(self@, V_NORM_MAX as int),
        ensures
            r@ == v_unit(self@),
            v_bounded(r@, SCALE as int),
    {
        let m = self.magnitude();
        proof {
            lemma_squares(self@.x, self@.y, self@.z);
        }
        if m == 0 {
            proof {
                assert(v_norm2(self@) == 0) by (nonlinear_arith)
                    requires
                        v_norm2(self@) < (m as int + 1) * (m as int + 1),
                        0 <= v_norm2(self@),
                        m == 0i64,
                ;
            }
            Vec3d { x: 0, y: 0, z: 0 }
        } else {
            proof {
                assert(v_norm2(self@) != 0) by (nonlinear_arith)
                    requires
                        (m as int) * (m as int) <= v_norm2(self@),
                        m >= 1i64,
                ;
                lemma_unit_component(self@.x, v_norm2(self@), m as int);
                lemma_unit_component(self@.y, v_norm2(self@), m as int);
                lemma_unit_component(self@.z, v_norm2(self@), m as int);
            }
            Vec3d { x: fx_div(self.x, m), y: fx_div(self.y, m), z: fx_div(self.z, m) }
        }
    }

    pub fn rot_x(&self, s: i64, c: i64) -> (r: Vec3d)
        requires
            v_bounded(self@, V_ARG_MAX as int),
            iabs(s as int) <= SCALE as int,
            iabs(c as int) <= SCALE as int,
        ensures
            r@ == v_rot_x(self@, s as int, c as int),
    {
        proof {
            lemma_fmul_unit_factor(self@.y, s as int, V_ARG_MAX as int);
            lemma_fmul_unit_factor(self@.y, c as int, V_ARG_MAX as int);
            lemma_fmul_unit_factor(self@.z, s as int, V_ARG_MAX as int);
            lemma_fmul_unit_factor(self@.z, c as int, V_ARG_MAX as int);
        }
        Vec3d {
            x: self.x,
            y: fx_mul(self.y, c) - fx_mul(self.z, s),
            z: fx_mul(self.y, s) + fx_mul(self.z, c),
        }
    }

    pub fn rot_y(&self, s: i64, c: i64) -> (r: Vec3d)
        requires
            v_bounded(self@, V_ARG_MAX as int),
            iabs(s as int) <= SCALE as int,
            iabs(c as int) <= SCALE as int,
        ensures
            r@ == v_rot_y(self@, s as int, c as int),
    {
        proof {
            lemma_fmul_unit_factor(self@.x, s as int, V_ARG_MAX as int);
            lemma_fmul_unit_factor(self@.x, c as int, V_ARG_MAX as int);
            lemma_fmul_unit_factor(self@.z, s as int, V_ARG_MAX as int);
            lemma_fmul_unit_factor(self@.z, c as int, V_ARG_MAX as int);
        }
        Vec3d {
            x: fx_mul(self.x, c) + fx_mul(self.z, s),
            y: self.y,
            z: fx_mul(self.z, c) - fx_mul(self.x, s),
        }
    }

    pub fn rot_z(&self, s: i64, c: i64) -> (r: Vec3d)
        requires
            v_bounded(self@, V_ARG_MAX as int),
            iabs(s as int) <= SCALE as int,
            iabs(c as int) <= SCALE as int,
        ensures
            r@ == v_rot_z(self@, s as int, c as int),
    {
        proof {
            lemma_fmul_unit_factor(self@.x, s as int, V_ARG_MAX as int);
            lemma_fmul_unit_factor(self@.x, c as int, V_ARG_MAX as int);
            lemma_fmul_unit_factor(self@.y, s as int, V_ARG_MAX as int);
            lemma_fmul_unit_factor(self@.y, c as int, V_ARG_MAX as int);
        }
        Vec3d {
            x: fx_mul(self.x, c) - fx_mul(self.y, s),
            y: fx_mul(self.x, s) + fx_mul(self.y, c),
            z: self.z,
        }
    }
}

/// A unit vector's components stay within one unit, whatever vector it
/// was computed from.
pub proof fn lemma_v_unit_bounded(v: V3)
    ensures
        v_bounded(v_unit(v), SCALE as int),
{
    lemma_squares(v.x, v.y, v.z);
    if v_norm2(v) != 0 {
        lemma_sqrt_floor(v_norm2(v));
        let m = v_norm(v);
        assert(m >= 1) by (nonlinear_arith)
            requires
                v_norm2(v) >= 1,
                m >= 0,
                v_norm2(v) < (m + 1) * (m + 1),
        ;
        lemma_unit_component(v.x, v_norm2(v), m);
        lemma_unit_component(v.y, v_norm2(v), m);
        lemma_unit_component(v.z, v_norm2(v), m);
    }
}

/// A vector of n whole units along the +Z axis has length n and
/// normalizes exactly to the +Z unit vector.
pub proof fn lemma_unit_axis_z(n: int)
    requires
        n >= 1,
    ensures
        v_norm(V3 { x: 0, y: 0, z: n * (SCALE as int) }) == n * (SCALE as int),
        v_unit(V3 { x: 0, y: 0, z: n * (SCALE as int) }) == (V3 { x: 0, y: 0, z: SCALE as int }),
{
    let s = SCALE as int;
    let w = V3 { x: 0, y: 0, z: n * s };
    assert(v_norm2(w) == (n * s) * (n * s));
    assert(is_sqrt(v_norm2(w), n * s) && v_norm2(w) != 0) by (nonlinear_arith)
        requires
            v_norm2(w) == (n * s) * (n * s),
            n >= 1,
            s == SCALE as int,
    ;
    lemma_sqrt_floor(v_norm2(w));
    crate::fixed::lemma_sqrt_unique(v_norm2(w), sqrt_floor(v_norm2(w)), n * s);
    vstd::arithmetic::div_mod::lemma_div_basics(n * s);
    assert(fdiv(0, n * s) == 0);
    lemma_abs_mul(n * s, s);
    assert(iabs((n * s) * s) == (n * s) * s) by (nonlinear_arith)
        requires
            n >= 1,
            s == SCALE as int,
            iabs((n * s) * s) == iabs(n * s) * iabs(s),
    ;
    vstd::arithmetic::mul::lemma_mul_is_commutative(n * s, s);
    vstd::arithmetic::div_mod::lemma_div_multiples_vanish(s, n * s);
    assert(fdiv(n * s, n * s) == s);
    assert(v_unit(w) == V3 { x: 0, y: 0, z: s });
}

/// A vector of n whole units down the -Z axis has length n and
/// normalizes exactly to the -Z unit vector.
pub proof fn lemma_unit_axis_neg_z(n: int)
    requires
        n >= 1,
    ensures
        v_norm(V3 { x: 0, y: 0, z: -(n * (SCALE as int)) }) == n * (SCALE as int),
        v_unit(V3 { x: 0, y: 0, z: -(n * (SCALE as int)) }) == (V3 {
            x: 0,
            y: 0,
            z: -(SCALE as int),
        }),
{
    let s = SCALE as int;
    let w = V3 { x: 0, y: 0, z: -(n * s) };
    assert(v_norm2(w) == (n * s) * (n * s)) by (nonlinear_arith)
        requires
            w == (V3 { x: 0, y: 0, z: -(n * (SCALE as int)) }),
            s == SCALE as int,
    ;
    assert(is_sqrt(v_norm2(w), n * s) && v_norm2(w) != 0) by (nonlinear_arith)
        requires
            v_norm2(w) == (n * s) * (n * s),
            n >= 1,
            s == SCALE as int,
    ;
    lemma_sqrt_floor(v_norm2(w));
    crate::fixed::lemma_sqrt_unique(v_norm2(w), sqrt_floor(v_norm2(w)), n * s);
    vstd::arithmetic::div_mod::lemma_div_basics(n * s);
    assert(fdiv(0, n * s) == 0);
    lemma_abs_mul(-(n * s), s);
    assert(iabs((-(n * s)) * s) == (n * s) * s) by (nonlinear_arith)
        requires
            n >= 1,
            s == SCALE as int,
            iabs((-(n * s)) * s) == iabs(-(n * s)) * iabs(s),
    ;
    vstd::arithmetic::mul::lemma_mul_is_commutative(n * s, s);
    vstd::arithmetic::div_mod::lemma_div_multiples_vanish(s, n * s);
    assert(fdiv(-(n * s), n * s) == -s);
    assert(v_unit(w) == V3 { x: 0, y: 0, z: -s });
}

/// A component of a vector never exceeds the vector's length, so the
/// corresponding component of the unit vector stays within one unit.
proof fn lemma_unit_component(xi: int, n2: int, m: int)
    requires
        is_sqrt(n2, m),
        m >= 1,
        xi * xi <= n2,
    ensures
        iabs(xi) <= m,
        iabs(fdiv(xi, m)) <= SCALE as int,
        iabs(tdiv(xi * (SCALE as int), m)) <= SCALE as int,
{
    assert(iabs(xi) <= m) by (nonlinear_arith)
        requires
            xi * xi <= n2,
            n2 < (m + 1) * (m + 1),
            m >= 0,
    ;
    lemma_abs_mul(xi, SCALE as int);
    crate::fixed::lemma_tdiv_bound(xi * (SCALE as int), m, m * (SCALE as int));
    vstd::arithmetic::mul::lemma_mul_inequality(iabs(xi), m, SCALE as int);
    vstd::arithmetic::mul::lemma_mul_is_commutative(m, SCALE as int);
    vstd::arithmetic::div_mod::lemma_div_multiples_vanish(SCALE as int, m);
    assert((m * (SCALE as int)) / m == SCALE as int);
}

} // verus!
