//! Surface reflectance parameters consumed by the shading computation.

use vstd::prelude::*;

use crate::color::{c_in_range, Color};
use crate::fixed::SCALE;

verus! {

/// How a surface responds to light: ambient, diffuse and specular colors,
/// the Phong exponent, and the fraction of mirror-reflected light mixed in.
#[derive(Clone, Copy, PartialEq, Eq, Structural, Debug)]
pub struct Material {
    pub ambient_color: Color,
    pub specular_color: Color,
    pub diffuse_color: Color,
    pub shininess: u32,
    pub reflectivity: i64,
}

/// A well-formed material: every color channel and the reflectivity lie
/// in [0, 1].
pub open spec fn m_wf(m: Material) -> bool {
    &&& c_in_range(m.ambient_color@, SCALE as int)
    &&& c_in_range(m.specular_color@, SCALE as int)
    &&& c_in_range(m.diffuse_color@, SCALE as int)
    &&& 0 <= m.reflectivity <= SCALE
}

impl Material {
    pub fn new(
        ambient_color: Color,
        specular_color: Color,
        diffuse_color: Color,
        shininess: u32,
        reflectivity: i64,
    ) -> (m: Material)
        requires
            c_in_range(ambient_color@, SCALE as int),
            c_in_range(specular_color@, SCALE as int),
            c_in_range(diffuse_color@, SCALE as int),
            0 <= reflectivity <= SCALE,
        ensures
            m_wf(m),
            m == (Material { ambient_color, specular_color, diffuse_color, shininess, reflectivity }),
    {
        Material { ambient_color, specular_color, diffuse_color, shininess, reflectivity }
    }

    /// A perfect mirror: black everywhere, full reflectivity.
    pub fn mirror() -> (m: Material)
        ensures
            m_wf(m),
            m.ambient_color@ == crate::color::c_zero(),
            m.specular_color@ == crate::color::c_zero(),
            m.diffuse_color@ == crate::color::c_zero(),
            m.shininess == 0u32,
            m.reflectivity == SCALE,
    {
        Material {
            ambient_color: Color::black(),
            specular_color: Color::black(),
            diffuse_color: Color::black(),
            shininess: 0,
            reflectivity: SCALE,
        }
    }
}

} // verus!
