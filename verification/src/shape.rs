//! The closed set of shapes and the ray-intersection protocol.
//!
//! Both queries take a ray origin and direction.  The distance returned by
//! `intersect_dist` is counted in lengths of the given direction vector, so
//! shadow tests and closest-hit searches must feed consistently scaled
//! directions.

use vstd::prelude::*;

use crate::color::{c_in_range, Color};
use crate::fixed::SCALE;
use crate::material::{m_wf, Material};
use crate::plane::{plane_dist_of, plane_hit_of, Plane};
use crate::sphere::{sphere_dist_of, sphere_hit_of, Sphere};
use crate::vec3d::{v_bounded, v_sub, Vec3d, HOP_MAX, RAY_DIR_MAX, RAY_ORIG_MAX, V3};

verus! {

/// The mathematical value of a hit record.
pub struct HitV {
    pub point: V3,
    pub normal: V3,
    pub material: Material,
}

/// A ray hit: where, which way the surface faces, and what it is made of.
#[derive(Clone, Copy, PartialEq, Eq, Structural, Debug)]
pub struct Intersection {
    pub material: Material,
    pub point: Vec3d,
    pub normal: Vec3d,
}

impl View for Intersection {
    type V = HitV;

    open spec fn view(&self) -> HitV {
        HitV { point: self.point@, normal: self.normal@, material: self.material }
    }
}

/// The executable option-of-distance agrees with the specified one.
pub open spec fn dist_eq(r: Option<i64>, s: Option<int>) -> bool {
    match r {
        Option::None => s is None,
        Option::Some(t) => s == Option::Some(t as int),
    }
}

/// The executable option-of-hit agrees with the specified one.
pub open spec fn hit_eq(r: Option<Intersection>, s: Option<HitV>) -> bool {
    match r {
        Option::None => s is None,
        Option::Some(h) => s == Option::Some(h@),
    }
}

/// Bounds that every reported hit satisfies: the hit point lies within
/// `HOP_MAX` of the ray origin per component, the normal within one unit,
/// and the material is well-formed.
pub open spec fn hit_bounded(h: HitV, o: V3) -> bool {
    &&& v_bounded(v_sub(h.point, o), HOP_MAX as int)
    &&& v_bounded(h.normal, SCALE as int)
    &&& m_wf(h.material)
}

/// A shape: one of the closed set of surface kinds.
#[derive(Clone, Copy, PartialEq, Eq, Structural, Debug)]
pub enum Shape {
    Sphere(Sphere),
    Plane(Plane),
}

/// A well-formed shape.
pub open spec fn shape_wf(s: Shape) -> bool {
    match s {
        Shape::Sphere(sp) => crate::sphere::sphere_wf(sp),
        Shape::Plane(pl) => crate::plane::plane_wf(pl),
    }
}

/// Nearest strictly-positive hit distance of a ray against a shape.
pub open spec fn shape_dist_of(s: Shape, o: V3, d: V3) -> Option<int> {
    match s {
        Shape::Sphere(sp) => sphere_dist_of(sp, o, d),
        Shape::Plane(pl) => plane_dist_of(pl, o, d),
    }
}

/// Full hit record of a ray against a shape.
pub open spec fn shape_hit_of(s: Shape, o: V3, d: V3) -> Option<HitV> {
    match s {
        Shape::Sphere(sp) => sphere_hit_of(sp, o, d),
        Shape::Plane(pl) => plane_hit_of(pl, o, d),
    }
}

/// Any hit a well-formed shape reports carries a normal within one unit
/// per component and the shape's own (well-formed) material.
pub proof fn lemma_shape_hit_props(sh: Shape, o: V3, d: V3)
    requires
        shape_wf(sh),
    ensures
        match shape_hit_of(sh, o, d) {
            Option::Some(h) => v_bounded(h.normal, SCALE as int) && m_wf(h.material),
            Option::None => true,
        },
{
    match sh {
        Shape::Sphere(sp) => {
            match sphere_dist_of(sp, o, d) {
                Option::Some(t) => {
                    let q = crate::vec3d::v_add(o, crate::vec3d::v_scale(d, t));
                    crate::vec3d::lemma_v_unit_bounded(v_sub(q, sp.spec_center()@));
                },
                Option::None => {},
            }
        },
        Shape::Plane(pl) => {},
    }
}

impl Shape {
    pub fn new_sphere(center: Vec3d, radius: i64, c: Color) -> (s: Shape)
        requires
            v_bounded(center@, crate::vec3d::WORLD_MAX as int),
            0 < radius <= crate::vec3d::WORLD_MAX,
            c_in_range(c@, SCALE as int),
        ensures
            shape_wf(s),
            s is Sphere,
            crate::sphere::sphere_is(
                s->Sphere_0,
                center,
                radius,
                crate::sphere::stock_sphere_material(c),
            ),
    {
        Shape::Sphere(Sphere::new(center, radius, c))
    }

    pub fn new_sphere_material(center: Vec3d, radius: i64, m: Material) -> (s: Shape)
        requires
            v_bounded(center@, crate::vec3d::WORLD_MAX as int),
            0 < radius <= crate::vec3d::WORLD_MAX,
            m_wf(m),
        ensures
            shape_wf(s),
            s is Sphere,
            crate::sphere::sphere_is(s->Sphere_0, center, radius, m),
    {
        Shape::Sphere(Sphere::from_material(center, radius, m))
    }

    pub fn new_plane(point: Vec3d, normal: Vec3d, c: Color) -> (s: Shape)
        requires
            v_bounded(point@, crate::vec3d::WORLD_MAX as int),
            v_bounded(normal@, crate::vec3d::V_NORM_MAX as int),
            c_in_range(c@, SCALE as int),
        ensures
            shape_wf(s),
            s is Plane,
            crate::plane::plane_is(
                s->Plane_0,
                point,
                crate::vec3d::v_unit(normal@),
                crate::plane::stock_plane_material(c),
            ),
    {
        Shape::Plane(Plane::new(point, normal, c))
    }

    pub fn new_plane_material(point: Vec3d, normal: Vec3d, m: Material) -> (s: Shape)
        requires
            v_bounded(point@, crate::vec3d::WORLD_MAX as int),
            v_bounded(normal@, crate::vec3d::V_NORM_MAX as int),
            m_wf(m),
        ensures
            shape_wf(s),
            s is Plane,
            crate::plane::plane_is(s->Plane_0, point, crate::vec3d::v_unit(normal@), m),
    {
        Shape::Plane(Plane::from_material(point, normal, m))
    }

    /// Nearest strictly-positive hit distance, or none.
    pub fn intersect_dist(&self, p0: Vec3d, d: Vec3d) -> (r: Option<i64>)
        requires
            shape_wf(*self),
            v_bounded(p0@, RAY_ORIG_MAX as int),
            v_bounded(d@, RAY_DIR_MAX as int),
        ensures
            dist_eq(r, shape_dist_of(*self, p0@, d@)),
    {
        match self {
            Shape::Sphere(s) => s.intersect_dist(p0, d),
            Shape::Plane(p) => p.intersect_dist(p0, d),
        }
    }

    /// Full hit record for the nearest valid hit, or none.
    pub fn intersect(&self, p0: Vec3d, d: Vec3d) -> (r: Option<Intersection>)
        requires
            shape_wf(*self),
            v_bounded(p0@, RAY_ORIG_MAX as int),
            v_bounded(d@, RAY_DIR_MAX as int),
        ensures
            hit_eq(r, shape_hit_of(*self, p0@, d@)),
            r is Some ==> hit_bounded(r->Some_0@, p0@),
    {
        match self {
            Shape::Sphere(s) => s.intersect(p0, d),
            Shape::Plane(p) => p.intersect(p0, d),
        }
    }
}

} // verus!
