//! Point lights.

use vstd::prelude::*;

use crate::color::{c_in_range, Color};
use crate::fixed::SCALE;
use crate::vec3d::{
    v_add, v_bounded, v_norm, v_sub, v_unit, Vec3d, RAY_ORIG_MAX, V_NORM_MAX, WORLD_MAX,
};

verus! {

/// A point light: a position and the color it radiates.
#[derive(Clone, Copy, PartialEq, Eq, Structural, Debug)]
pub struct Light {
    pos: Vec3d,
    color: Color,
}

/// A well-formed light sits inside the world box and radiates channels
/// in [0, 1].
pub open spec fn light_wf(l: Light) -> bool {
    &&& v_bounded(l.spec_pos()@, WORLD_MAX as int)
    &&& c_in_range(l.spec_color()@, SCALE as int)
}

impl Light {
    pub closed spec fn spec_pos(self) -> Vec3d {
        self.pos
    }

    pub closed spec fn spec_color(self) -> Color {
        self.color
    }

    pub fn new(v: Vec3d, color: Color) -> (l: Light)
        requires
            v_bounded(v@, WORLD_MAX as int),
            c_in_range(color@, SCALE as int),
        ensures
            light_wf(l),
            l.spec_pos() == v,
            l.spec_color() == color,
    {
        Light { pos: v, color }
    }

    pub fn get_pos(&self) -> (r: Vec3d)
        ensures
            r == self.spec_pos(),
    {
        self.pos
    }

    pub fn get_color(&self) -> (r: Color)
        ensures
            r == self.spec_color(),
    {
        self.color
    }

    /// Move the light by v, staying inside the world box.
    pub fn translate(&mut self, v: &Vec3d)
        requires
            light_wf(*old(self)),
            v_bounded(v@, WORLD_MAX as int),
            v_bounded(v_add(v@, old(self).spec_pos()@), WORLD_MAX as int),
        ensures
            light_wf(*final(self)),
            final(self).spec_pos()@ == v_add(v@, old(self).spec_pos()@),
            final(self).spec_color() == old(self).spec_color(),
    {
        self.pos = v.add(&self.pos);
    }

    /// The shadow-feeler query: the unit direction from `point` toward the
    /// light, and the distance between them (in direction lengths).
    pub fn feeler(&self, point: Vec3d) -> (r: (Vec3d, i64))
        requires
            light_wf(*self),
            v_bounded(point@, RAY_ORIG_MAX as int),
        ensures
            r.0@ == v_unit(v_sub(self.spec_pos()@, point@)),
            r.1 as int == v_norm(v_sub(self.spec_pos()@, point@)),
            v_bounded(r.0@, SCALE as int),
    {
        let feeler_d = self.pos.sub(&point);
        proof {
            assert(v_bounded(feeler_d@, V_NORM_MAX as int));
        }
        (feeler_d.normalize(), feeler_d.magnitude())
    }
}

} // verus!
