//! Spheres and their ray-intersection queries.

use vstd::prelude::*;

use crate::color::{c_in_range, Color};
use crate::fixed::{
    fdiv, fmul, fx_div, fx_mul, iabs, is_sqrt, isqrt_u128, lemma_abs_mul, lemma_fdiv_bound,
    lemma_fmul_bound, lemma_sqrt_le, sqrt_floor, tdiv, HALF, SCALE,
};
use crate::material::{m_wf, Material};
use crate::shape::{dist_eq, hit_bounded, hit_eq, HitV, Intersection};
use crate::vec3d::{
    lemma_dot_bound, v_add, v_bounded, v_dot, v_scale, v_sub, v_unit, Vec3d, DIST_MAX,
    RAY_DIR_MAX, RAY_ORIG_MAX, V_NORM_MAX, WORLD_MAX, V3,
};

verus! {

/// Componentwise bound on the vector from a ray origin inside the query
/// box to a world-box point: RAY_ORIG_MAX + WORLD_MAX.
pub const PMC_MAX: i64 = 0x40_8000_0000;

/// A sphere: center, radius and surface material.
#[derive(Clone, Copy, PartialEq, Eq, Structural, Debug)]
pub struct Sphere {
    material: Material,
    center: Vec3d,
    radius: i64,
}

/// A well-formed sphere: center in the world box, radius positive and
/// world-sized, material well-formed.
pub open spec fn sphere_wf(s: Sphere) -> bool {
    &&& v_bounded(s.spec_center()@, WORLD_MAX as int)
    &&& 0 < s.spec_radius() <= WORLD_MAX
    &&& m_wf(s.spec_material())
}

/// The nearest valid hit distance of the ray (o, d) on the sphere with
/// center c and the given radius, by the quadratic root formula.  Roots at
/// most one half direction-length away are discarded, to keep a ray from
/// re-hitting the surface it just left; hits past the far clip `DIST_MAX`
/// are not reported.
pub open spec fn sphere_dist_v(c: V3, radius: int, o: V3, d: V3) -> Option<int> {
    let pmc = v_sub(o, c);
    let a = v_dot(d, d);
    let b = 2 * v_dot(d, pmc);
    let cc = v_dot(pmc, pmc) - fmul(radius, radius);
    if a <= 0 {
        Option::None
    } else {
        let delta = b * b - 4 * a * cc;
        if delta < 0 {
            Option::None
        } else {
            let sq = sqrt_floor(delta);
            let r0 = tdiv((-b - sq) * (SCALE as int), 2 * a);
            let r1 = tdiv((-b + sq) * (SCALE as int), 2 * a);
            if HALF < r0 && r0 < r1 && r0 <= DIST_MAX {
                Option::Some(r0)
            } else if HALF < r1 && r1 <= DIST_MAX {
                Option::Some(r1)
            } else {
                Option::None
            }
        }
    }
}

/// The full hit record at the nearest valid hit distance: the point along
/// the ray, and the outward unit normal there.
pub open spec fn sphere_hit_v(c: V3, radius: int, material: Material, o: V3, d: V3) -> Option<
    HitV,
> {
    match sphere_dist_v(c, radius, o, d) {
        Option::None => Option::None,
        Option::Some(t) => {
            let q = v_add(o, v_scale(d, t));
            Option::Some(HitV { point: q, normal: v_unit(v_sub(q, c)), material })
        },
    }
}

/// The stock material a sphere is built with from a bare color: white
/// specular highlights and a little reflectivity.
pub open spec fn stock_sphere_material(c: Color) -> Material {
    Material {
        diffuse_color: c,
        ambient_color: Color(0, 0, 0),
        specular_color: Color(SCALE, SCALE, SCALE),
        shininess: 15u32,
        reflectivity: 19661i64,
    }
}

/// The sphere has exactly this center, radius and material.
pub open spec fn sphere_is(s: Sphere, center: Vec3d, radius: i64, m: Material) -> bool {
    &&& s.spec_center() == center
    &&& s.spec_radius() == radius
    &&& s.spec_material() == m
}

/// A ray aimed from the origin straight at a sphere's center along the
/// Z axis hits at the distance to the center minus the radius, exactly,
/// and the hit normal points back along the ray, for any whole-unit
/// center distance and radius.
pub proof fn lemma_sphere_head_on(k: int, j: int, m: Material)
    requires
        0 < j < k <= 16384,
    ensures
        sphere_dist_v(
            V3 { x: 0, y: 0, z: k * (SCALE as int) },
            j * (SCALE as int),
            V3 { x: 0, y: 0, z: 0 },
            V3 { x: 0, y: 0, z: SCALE as int },
        ) == Option::Some((k - j) * (SCALE as int)),
        sphere_hit_v(
            V3 { x: 0, y: 0, z: k * (SCALE as int) },
            j * (SCALE as int),
            m,
            V3 { x: 0, y: 0, z: 0 },
            V3 { x: 0, y: 0, z: SCALE as int },
        ) == Option::Some(
            HitV {
                point: V3 { x: 0, y: 0, z: (k - j) * (SCALE as int) },
                normal: V3 { x: 0, y: 0, z: -(SCALE as int) },
                material: m,
            },
        ),
{
    let s = SCALE as int;
    let c = V3 { x: 0, y: 0, z: k * s };
    let o = V3 { x: 0, y: 0, z: 0 };
    let d = V3 { x: 0, y: 0, z: s };
    let radius = j * s;
    let pmc = v_sub(o, c);
    crate::fixed::lemma_fmul_one(s);
    crate::fixed::lemma_fmul_one(-(k * s));
    assert(fmul(0, 0) == 0);
    let a = v_dot(d, d);
    assert(a == s);
    let b = 2 * v_dot(d, pmc);
    assert(b == -2 * (k * s));
    assert(fmul(-(k * s), -(k * s)) == k * k * s && fmul(j * s, j * s) == j * j * s) by {
        assert((-(k * s)) * (-(k * s)) == s * (k * k * s) && (j * s) * (j * s) == s * (j * j * s)
            && k * k * s >= 0 && j * j * s >= 0) by (nonlinear_arith)
            requires
                s == SCALE as int,
                0 < j < k,
        ;
        vstd::arithmetic::div_mod::lemma_div_multiples_vanish(k * k * s, s);
        vstd::arithmetic::div_mod::lemma_div_multiples_vanish(j * j * s, s);
    }
    let cc = v_dot(pmc, pmc) - fmul(radius, radius);
    assert(cc == k * k * s - j * j * s);
    let delta = b * b - 4 * a * cc;
    assert(delta == 4 * (j * s) * (j * s)) by (nonlinear_arith)
        requires
            delta == b * b - 4 * a * cc,
            b == -2 * (k * s),
            a == s,
            cc == k * k * s - j * j * s,
            s == SCALE as int,
    ;
    assert(is_sqrt(delta, 2 * (j * s))) by (nonlinear_arith)
        requires
            delta == 4 * (j * s) * (j * s),
            j >= 1,
            s == SCALE as int,
    ;
    crate::fixed::lemma_sqrt_floor(delta);
    crate::fixed::lemma_sqrt_unique(delta, sqrt_floor(delta), 2 * (j * s));
    let sq = sqrt_floor(delta);
    let r0 = tdiv((-b - sq) * s, 2 * a);
    let r1 = tdiv((-b + sq) * s, 2 * a);
    assert((-b - sq) * s == (2 * a) * ((k - j) * s) && (-b + sq) * s == (2 * a) * ((k + j) * s))
        by (nonlinear_arith)
        requires
            b == -2 * (k * s),
            sq == 2 * (j * s),
            a == s,
            s == SCALE as int,
    ;
    assert((k - j) * s >= 0 && (k + j) * s >= 0 && (2 * a) * ((k - j) * s) >= 0 && (2 * a) * ((
    k + j) * s) >= 0) by (nonlinear_arith)
        requires
            0 < j < k,
            a == s,
            s == SCALE as int,
    ;
    vstd::arithmetic::div_mod::lemma_div_multiples_vanish((k - j) * s, 2 * a);
    vstd::arithmetic::div_mod::lemma_div_multiples_vanish((k + j) * s, 2 * a);
    assert(r0 == (k - j) * s);
    assert(r1 == (k + j) * s);
    assert(HALF < r0 && r0 < r1 && r0 <= DIST_MAX);
    assert(sphere_dist_v(c, radius, o, d) == Option::Some(r0));
    // the hit record: the point along the axis and the unit normal back
    // toward the origin
    crate::fixed::lemma_fmul_one(r0);
    let q = v_add(o, v_scale(d, r0));
    assert(q == V3 { x: 0, y: 0, z: (k - j) * s });
    let w = v_sub(q, c);
    assert(w == V3 { x: 0, y: 0, z: -(j * s) });
    assert(crate::vec3d::v_norm2(w) == (j * s) * (j * s)) by (nonlinear_arith)
        requires
            w == (V3 { x: 0, y: 0, z: -(j * s) }),
    ;
    assert(is_sqrt(crate::vec3d::v_norm2(w), j * s)) by (nonlinear_arith)
        requires
            crate::vec3d::v_norm2(w) == (j * s) * (j * s),
            j >= 1,
            s == SCALE as int,
    ;
    assert(crate::vec3d::v_norm2(w) != 0) by (nonlinear_arith)
        requires
            crate::vec3d::v_norm2(w) == (j * s) * (j * s),
            j >= 1,
            s == SCALE as int,
    ;
    crate::fixed::lemma_sqrt_floor(crate::vec3d::v_norm2(w));
    crate::fixed::lemma_sqrt_unique(
        crate::vec3d::v_norm2(w),
        sqrt_floor(crate::vec3d::v_norm2(w)),
        j * s,
    );
    vstd::arithmetic::div_mod::lemma_div_basics(j * s);
    assert(fdiv(0, j * s) == 0);
    assert((-(j * s)) * s == -((j * s) * s)) by (nonlinear_arith);
    crate::fixed::lemma_abs_mul(-(j * s), s);
    assert(iabs((-(j * s)) * s) == (j * s) * s) by (nonlinear_arith)
        requires
            iabs(-(j * s)) == j * s,
            iabs(s) == s,
            iabs((-(j * s)) * s) == iabs(-(j * s)) * iabs(s),
            j >= 1,
            s == SCALE as int,
    ;
    vstd::arithmetic::mul::lemma_mul_is_commutative(j * s, s);
    vstd::arithmetic::div_mod::lemma_div_multiples_vanish(s, j * s);
    assert(fdiv(-(j * s), j * s) == -s);
    assert(crate::vec3d::v_unit(w) == V3 { x: 0, y: 0, z: -s });
}

/// From the axis point where the head-on ray lands, looking back down
/// the -Z axis, the same sphere reports no hit: the near root falls on
/// the surface itself and the far root lies behind the ray.
pub proof fn lemma_sphere_away_miss(k: int, j: int)
    requires
        0 < j < k,
    ensures
        sphere_dist_v(
            V3 { x: 0, y: 0, z: k * (SCALE as int) },
            j * (SCALE as int),
            V3 { x: 0, y: 0, z: (k - j) * (SCALE as int) },
            V3 { x: 0, y: 0, z: -(SCALE as int) },
        ) == Option::<int>::None,
{
    let s = SCALE as int;
    let c = V3 { x: 0, y: 0, z: k * s };
    let o = V3 { x: 0, y: 0, z: (k - j) * s };
    let d = V3 { x: 0, y: 0, z: -s };
    let radius = j * s;
    let pmc = v_sub(o, c);
    assert(pmc == V3 { x: 0, y: 0, z: -(j * s) });
    assert(fmul(0, 0) == 0);
    let a = v_dot(d, d);
    assert(a == s);
    assert(fmul(-s, -(j * s)) == j * s) by {
        assert((-s) * (-(j * s)) == s * (j * s) && j * s >= 0) by (nonlinear_arith)
            requires
                s == SCALE as int,
                j >= 1,
        ;
        vstd::arithmetic::div_mod::lemma_div_multiples_vanish(j * s, s);
    }
    let b = 2 * v_dot(d, pmc);
    assert(b == 2 * (j * s));
    assert(fmul(-(j * s), -(j * s)) == j * j * s && fmul(j * s, j * s) == j * j * s) by {
        assert((-(j * s)) * (-(j * s)) == s * (j * j * s) && (j * s) * (j * s) == s * (j * j * s)
            && j * j * s >= 0) by (nonlinear_arith)
            requires
                s == SCALE as int,
                j >= 1,
        ;
        vstd::arithmetic::div_mod::lemma_div_multiples_vanish(j * j * s, s);
    }
    let cc = v_dot(pmc, pmc) - fmul(radius, radius);
    assert(cc == 0);
    let delta = b * b - 4 * a * cc;
    assert(delta == 4 * (j * s) * (j * s)) by (nonlinear_arith)
        requires
            delta == b * b - 4 * a * cc,
            b == 2 * (j * s),
            cc == 0,
            s == SCALE as int,
    ;
    assert(is_sqrt(delta, 2 * (j * s))) by (nonlinear_arith)
        requires
            delta == 4 * (j * s) * (j * s),
            j >= 1,
            s == SCALE as int,
    ;
    crate::fixed::lemma_sqrt_floor(delta);
    crate::fixed::lemma_sqrt_unique(delta, sqrt_floor(delta), 2 * (j * s));
    let sq = sqrt_floor(delta);
    let r0 = tdiv((-b - sq) * s, 2 * a);
    let r1 = tdiv((-b + sq) * s, 2 * a);
    assert((-b + sq) * s == 0) by (nonlinear_arith)
        requires
            b == 2 * (j * s),
            sq == 2 * (j * s),
    ;
    vstd::arithmetic::div_mod::lemma_div_basics(2 * a);
    assert(r1 == 0);
    assert((-b - sq) * s == -((2 * a) * (2 * (j * s)))) by (nonlinear_arith)
        requires
            b == 2 * (j * s),
            sq == 2 * (j * s),
            a == s,
            s == SCALE as int,
    ;
    assert((2 * a) * (2 * (j * s)) >= 0) by (nonlinear_arith)
        requires
            a == s,
            j >= 1,
            s == SCALE as int,
    ;
    vstd::arithmetic::div_mod::lemma_div_multiples_vanish(2 * (j * s), 2 * a);
    assert(r0 == -(2 * (j * s)));
    assert(r0 <= HALF);
    assert(r1 <= HALF);
    assert(sphere_dist_v(c, radius, o, d) is None);
}

pub open spec fn sphere_dist_of(s: Sphere, o: V3, d: V3) -> Option<int> {
    sphere_dist_v(s.spec_center()@, s.spec_radius() as int, o, d)
}

pub open spec fn sphere_hit_of(s: Sphere, o: V3, d: V3) -> Option<HitV> {
    sphere_hit_v(s.spec_center()@, s.spec_radius() as int, s.spec_material(), o, d)
}

impl Sphere {
    pub closed spec fn spec_center(self) -> Vec3d {
        self.center
    }

    pub closed spec fn spec_radius(self) -> i64 {
        self.radius
    }

    pub closed spec fn spec_material(self) -> Material {
        self.material
    }

    /// A sphere with the stock material: the given diffuse color, white
    /// specular highlights, a little reflectivity.
    pub fn new(center: Vec3d, radius: i64, c: Color) -> (s: Sphere)
        requires
            v_bounded(center@, WORLD_MAX as int),
            0 < radius <= WORLD_MAX,
            c_in_range(c@, SCALE as int),
        ensures
            sphere_wf(s),
            sphere_is(s, center, radius, stock_sphere_material(c)),
    {
        let material = Material {
            diffuse_color: c,
            ambient_color: Color::black(),
            specular_color: Color::white(),
            shininess: 15,
            reflectivity: 19661,
        };
        Sphere { center, radius, material }
    }

    pub fn from_material(c: Vec3d, radius: i64, m: Material) -> (s: Sphere)
        requires
            v_bounded(c@, WORLD_MAX as int),
            0 < radius <= WORLD_MAX,
            m_wf(m),
        ensures
            sphere_wf(s),
            sphere_is(s, c, radius, m),
    {
        Sphere { center: c, radius, material: m }
    }

    /// Nearest valid hit distance, in lengths of d, or none.
    pub fn intersect_dist(&self, p0: Vec3d, d: Vec3d) -> (r: Option<i64>)
        requires
            sphere_wf(*self),
            v_bounded(p0@, RAY_ORIG_MAX as int),
            v_bounded(d@, RAY_DIR_MAX as int),
        ensures
            dist_eq(r, sphere_dist_of(*self, p0@, d@)),
    {
        let pmc = p0.sub(&self.center);
        proof {
            assert(v_bounded(pmc@, PMC_MAX as int));
            lemma_dot_bound(d@, d@, RAY_DIR_MAX as int, RAY_DIR_MAX as int);
            lemma_dot_bound(d@, pmc@, RAY_DIR_MAX as int, PMC_MAX as int);
            lemma_dot_bound(pmc@, pmc@, PMC_MAX as int, PMC_MAX as int);
            lemma_fmul_bound(
                self.spec_radius() as int,
                self.spec_radius() as int,
                WORLD_MAX as int,
                WORLD_MAX as int,
            );
        }
        let a = d.dot(&d);
        let b = 2 * d.dot(&pmc);
        let cc = pmc.dot(&pmc) - fx_mul(self.radius, self.radius);
        if a <= 0 {
            return Option::None;
        }
        proof {
            lemma_abs_mul(b as int, b as int);
            vstd::arithmetic::mul::lemma_mul_upper_bound(
                iabs(b as int),
                0x2000_0000_0000,
                iabs(b as int),
                0x2000_0000_0000,
            );
            lemma_abs_mul(4 * a as int, cc as int);
            lemma_abs_mul(4, a as int);
            vstd::arithmetic::mul::lemma_mul_upper_bound(
                iabs(4 * a as int),
                0x400_0000,
                iabs(cc as int),
                0x4000_0000_0000_0000,
            );
        }
        let delta: i128 = (b as i128) * (b as i128) - (4 * a as i128) * (cc as i128);
        if delta < 0 {
            return Option::None;
        }
        let sq64: u64 = isqrt_u128(delta as u128);
        proof {
            lemma_sqrt_le(delta as int, sq64 as int, 0x8000_0000_0000);
        }
        let sq: i64 = sq64 as i64;
        proof {
            lemma_fdiv_bound(-(b as int) - sq as int, 2 * a as int, 0xa000_0000_0000, 2);
            lemma_fdiv_bound(-(b as int) + sq as int, 2 * a as int, 0xa000_0000_0000, 2);
        }
        let r0 = fx_div(-b - sq, 2 * a);
        let r1 = fx_div(-b + sq, 2 * a);
        if HALF < r0 && r0 < r1 && r0 <= DIST_MAX {
            Option::Some(r0)
        } else if HALF < r1 && r1 <= DIST_MAX {
            Option::Some(r1)
        } else {
            Option::None
        }
    }

    /// Full hit record for the nearest valid hit, or none.
    pub fn intersect(&self, p0: Vec3d, d: Vec3d) -> (r: Option<Intersection>)
        requires
            sphere_wf(*self),
            v_bounded(p0@, RAY_ORIG_MAX as int),
            v_bounded(d@, RAY_DIR_MAX as int),
        ensures
            hit_eq(r, sphere_hit_of(*self, p0@, d@)),
            r is Some ==> hit_bounded(r->Some_0@, p0@),
    {
        match self.intersect_dist(p0, d) {
            Option::None => Option::None,
            Option::Some(t) => {
                proof {
                    assert(HALF < t <= DIST_MAX);
                    lemma_fmul_bound(d@.x, t as int, RAY_DIR_MAX as int, DIST_MAX as int);
                    lemma_fmul_bound(d@.y, t as int, RAY_DIR_MAX as int, DIST_MAX as int);
                    lemma_fmul_bound(d@.z, t as int, RAY_DIR_MAX as int, DIST_MAX as int);
                }
                let q = p0.add(&d.scale(t));
                proof {
                    assert(v_bounded(v_sub(q@, self.spec_center()@), V_NORM_MAX as int));
                }
                let n = q.sub(&self.center).normalize();
                Option::Some(Intersection { material: self.material, point: q, normal: n })
            },
        }
    }
}

} // verus!
