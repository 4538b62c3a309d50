//! Infinite planes and their ray-intersection queries.

use vstd::prelude::*;

use crate::color::{c_in_range, Color};
use crate::fixed::{fdiv, fx_div, lemma_fdiv_bound, lemma_fmul_bound, SCALE};
use crate::material::{m_wf, Material};
use crate::shape::{dist_eq, hit_bounded, hit_eq, HitV, Intersection};
use crate::vec3d::{
    lemma_dot_bound, v_add, v_bounded, v_dot, v_neg, v_scale, v_sub, v_unit, Vec3d, DIST_MAX,
    RAY_DIR_MAX, RAY_ORIG_MAX, V_NORM_MAX, WORLD_MAX, V3,
};

verus! {

/// A plane: a point on it, its unit normal, and a surface material.  Rays
/// hit it only when travelling into the side the normal faces.
#[derive(Clone, Copy, PartialEq, Eq, Structural, Debug)]
pub struct Plane {
    material: Material,
    point: Vec3d,
    normal: Vec3d,
}

/// A well-formed plane: anchor point in the world box, normal within one
/// unit per component, material well-formed.
pub open spec fn plane_wf(p: Plane) -> bool {
    &&& v_bounded(p.spec_point()@, WORLD_MAX as int)
    &&& v_bounded(p.spec_normal()@, SCALE as int)
    &&& m_wf(p.spec_material())
}

/// The hit distance of the ray (o, d) on the plane through p with normal
/// n.  A hit needs the ray to travel into the plane from the side the
/// normal faces: the projection of d onto the inward normal must be
/// strictly positive (one fixed-point step plays the part of the small
/// epsilon that rules out parallel rays).  Hits behind the origin or past
/// the far clip `DIST_MAX` are not reported.
pub open spec fn plane_dist_v(p: V3, n: V3, o: V3, d: V3) -> Option<int> {
    let nn = v_neg(n);
    let denom = v_dot(nn, d);
    if denom > 0 {
        let t = fdiv(v_dot(v_sub(p, o), nn), denom);
        if 0 <= t <= DIST_MAX {
            Option::Some(t)
        } else {
            Option::None
        }
    } else {
        Option::None
    }
}

/// The full hit record: the point along the ray, and the plane's own
/// stored normal.
pub open spec fn plane_hit_v(p: V3, n: V3, material: Material, o: V3, d: V3) -> Option<HitV> {
    match plane_dist_v(p, n, o, d) {
        Option::None => Option::None,
        Option::Some(t) => Option::Some(
            HitV { point: v_add(o, v_scale(d, t)), normal: n, material },
        ),
    }
}

/// The stock material a plane is built with from a bare color: no
/// specular highlights and faint reflectivity.
pub open spec fn stock_plane_material(c: Color) -> Material {
    Material {
        diffuse_color: c,
        ambient_color: Color(0, 0, 0),
        specular_color: Color(0, 0, 0),
        shininess: 15u32,
        reflectivity: 6554i64,
    }
}

/// The plane has exactly this anchor point, (already unit) normal value
/// and material.
pub open spec fn plane_is(p: Plane, point: Vec3d, n_unit: V3, m: Material) -> bool {
    &&& p.spec_point() == point
    &&& p.spec_normal()@ == n_unit
    &&& p.spec_material() == m
}

/// A ray parallel to the plane, or approaching it from the side its
/// normal faces away from, never hits, wherever it starts: a hit demands
/// a strictly positive projection of the direction onto the inward
/// normal.
pub proof fn lemma_plane_no_back_hit(p: V3, n: V3, o: V3, d: V3)
    requires
        v_dot(v_neg(n), d) <= 0,
    ensures
        plane_dist_v(p, n, o, d) is None,
{
}

pub open spec fn plane_dist_of(p: Plane, o: V3, d: V3) -> Option<int> {
    plane_dist_v(p.spec_point()@, p.spec_normal()@, o, d)
}

pub open spec fn plane_hit_of(p: Plane, o: V3, d: V3) -> Option<HitV> {
    plane_hit_v(p.spec_point()@, p.spec_normal()@, p.spec_material(), o, d)
}

impl Plane {
    pub closed spec fn spec_point(self) -> Vec3d {
        self.point
    }

    pub closed spec fn spec_normal(self) -> Vec3d {
        self.normal
    }

    pub closed spec fn spec_material(self) -> Material {
        self.material
    }

    /// A plane with the stock material: the given diffuse color, no
    /// specular highlights, faint reflectivity.  The given normal is
    /// normalized before it is stored.
    pub fn new(point: Vec3d, normal: Vec3d, c: Color) -> (p: Plane)
        requires
            v_bounded(point@, WORLD_MAX as int),
            v_bounded(normal@, V_NORM_MAX as int),
            c_in_range(c@, SCALE as int),
        ensures
            plane_wf(p),
            plane_is(p, point, v_unit(normal@), stock_plane_material(c)),
    {
        let material = Material {
            diffuse_color: c,
            ambient_color: Color::black(),
            specular_color: Color::black(),
            shininess: 15,
            reflectivity: 6554,
        };
        Plane { point, normal: normal.normalize(), material }
    }

    /// A plane with the given material; the normal is normalized before
    /// it is stored.
    pub fn from_material(point: Vec3d, normal: Vec3d, material: Material) -> (p: Plane)
        requires
            v_bounded(point@, WORLD_MAX as int),
            v_bounded(normal@, V_NORM_MAX as int),
            m_wf(material),
        ensures
            plane_wf(p),
            plane_is(p, point, v_unit(normal@), material),
    {
        Plane { point, normal: normal.normalize(), material }
    }

    /// Hit distance, in lengths of d, or none.
    pub fn intersect_dist(&self, p0: Vec3d, d: Vec3d) -> (r: Option<i64>)
        requires
            plane_wf(*self),
            v_bounded(p0@, RAY_ORIG_MAX as int),
            v_bounded(d@, RAY_DIR_MAX as int),
        ensures
            dist_eq(r, plane_dist_of(*self, p0@, d@)),
    {
        let neg_norm = Vec3d { x: -self.normal.x, y: -self.normal.y, z: -self.normal.z };
        proof {
            lemma_dot_bound(neg_norm@, d@, SCALE as int, RAY_DIR_MAX as int);
        }
        let denom = neg_norm.dot(&d);
        if denom > 0 {
            let p0l0 = self.point.sub(&p0);
            proof {
                assert(v_bounded(p0l0@, 0x40_8000_0000));
                lemma_dot_bound(p0l0@, neg_norm@, 0x40_8000_0000, SCALE as int);
            }
            let num = p0l0.dot(&neg_norm);
            proof {
                lemma_fdiv_bound(num as int, denom as int, 0xc1_8000_0000, 1);
            }
            let t = fx_div(num, denom);
            if 0 <= t && t <= DIST_MAX {
                Option::Some(t)
            } else {
                Option::None
            }
        } else {
            Option::None
        }
    }

    /// Full hit record, or none.
    pub fn intersect(&self, p0: Vec3d, d: Vec3d) -> (r: Option<Intersection>)
        requires
            plane_wf(*self),
            v_bounded(p0@, RAY_ORIG_MAX as int),
            v_bounded(d@, RAY_DIR_MAX as int),
        ensures
            hit_eq(r, plane_hit_of(*self, p0@, d@)),
            r is Some ==> hit_bounded(r->Some_0@, p0@),
    {
        match self.intersect_dist(p0, d) {
            Option::None => Option::None,
            Option::Some(t) => {
                proof {
                    assert(0 <= t <= DIST_MAX);
                    lemma_fmul_bound(d@.x, t as int, RAY_DIR_MAX as int, DIST_MAX as int);
                    lemma_fmul_bound(d@.y, t as int, RAY_DIR_MAX as int, DIST_MAX as int);
                    lemma_fmul_bound(d@.z, t as int, RAY_DIR_MAX as int, DIST_MAX as int);
                }
                let q = p0.add(&d.scale(t));
                Option::Some(Intersection { material: self.material, point: q, normal: self.normal })
            },
        }
    }
}

} // verus!
