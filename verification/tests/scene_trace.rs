//! Scenes: shadow tests, recursive tracing, camera motion, scanlines.

use craycray::color::Color;
use craycray::light::Light;
use craycray::material::Material;
use craycray::scene::Scene;
use craycray::shape::Shape;
use craycray::vec3d::Vec3d;

const S: i64 = 65536;

fn looking_down_z() -> Scene {
    Scene::new(Vec3d::new(0, 0, 0), Vec3d::new(0, 0, S), Vec3d::new(0, S, 0))
}

fn flat_white() -> Material {
    Material::new(Color::black(), Color::black(), Color::white(), 1, 0)
}

#[test]
fn empty_scene_traces_black() {
    let scene = looking_down_z();
    let c = scene.trace(Vec3d::new(0, 0, 0), Vec3d::new(0, 0, S), 0);
    assert_eq!(c, Color::black());
}

#[test]
fn lit_sphere_head_on() {
    // One white diffuse sphere straight ahead, one white light above
    // the camera: the center ray comes back with the Lambertian factor
    // of the 45-degree light, exactly.
    let mut scene = looking_down_z();
    scene.add_shape(Shape::new_sphere_material(Vec3d::new(0, 0, 10 * S), 5 * S, flat_white()));
    scene.add_light(Light::new(Vec3d::new(0, 5 * S, 0), Color::white()));
    let c = scene.trace(Vec3d::new(0, 0, 0), Vec3d::new(0, 0, S), 0);
    assert_eq!(c, Color::new(46341, 46341, 46341));
}

#[test]
fn ray_off_the_sphere_is_black() {
    let mut scene = looking_down_z();
    scene.add_shape(Shape::new_sphere_material(Vec3d::new(0, 0, 10 * S), 5 * S, flat_white()));
    scene.add_light(Light::new(Vec3d::new(0, 5 * S, 0), Color::white()));
    // straight up: misses the sphere entirely
    let c = scene.trace(Vec3d::new(0, 0, 0), Vec3d::new(0, S, 0), 0);
    assert_eq!(c, Color::black());
}

#[test]
fn is_direct_light_sees_past_empty_space() {
    let scene = looking_down_z();
    assert!(scene.is_direct_light(Vec3d::new(0, 0, 0), Vec3d::new(0, S, 0), 10 * S));
}

#[test]
fn occluder_between_point_and_light_blocks() {
    // A unit sphere at (0, 5, 0) sits squarely between the origin and a
    // light ten units up.
    let mut scene = looking_down_z();
    scene.add_shape(Shape::new_sphere_material(Vec3d::new(0, 5 * S, 0), S, flat_white()));
    assert!(!scene.is_direct_light(Vec3d::new(0, 0, 0), Vec3d::new(0, S, 0), 10 * S));
    // a shape beyond the light does not block it
    let mut far = looking_down_z();
    far.add_shape(Shape::new_sphere_material(Vec3d::new(0, 20 * S, 0), S, flat_white()));
    assert!(far.is_direct_light(Vec3d::new(0, 0, 0), Vec3d::new(0, S, 0), 10 * S));
}

#[test]
fn shadowed_light_leaves_no_term() {
    // Fully lit: the head-on diffuse factor is one, so the center ray
    // returns full white.
    let mut lit = looking_down_z();
    lit.add_shape(Shape::new_sphere_material(Vec3d::new(0, 0, 10 * S), 5 * S, flat_white()));
    lit.add_light(Light::new(Vec3d::new(0, 0, -10 * S), Color::white()));
    let c_lit = lit.trace(Vec3d::new(0, 0, 0), Vec3d::new(0, 0, S), 0);
    assert_eq!(c_lit, Color::white());
    // The same scene with a small sphere on the segment between the hit
    // point and the light: the light's diffuse and specular terms are
    // gone and the color is exactly black.
    let mut dark = looking_down_z();
    dark.add_shape(Shape::new_sphere_material(Vec3d::new(0, 0, 10 * S), 5 * S, flat_white()));
    dark.add_shape(Shape::new_sphere_material(Vec3d::new(0, 0, -2 * S), S, flat_white()));
    dark.add_light(Light::new(Vec3d::new(0, 0, -10 * S), Color::white()));
    let c_dark = dark.trace(Vec3d::new(0, 0, 0), Vec3d::new(0, 0, S), 0);
    assert_eq!(c_dark, Color::black());
}

#[test]
fn mirror_planes_terminate_at_depth_bound() {
    // Two facing mirror planes with a faint ambient glow: the trace
    // bounces until the depth bound (four levels) and accumulates the
    // ambient term exactly once per level.
    let glow = Material::new(
        Color::new(6554, 6554, 6554),
        Color::black(),
        Color::black(),
        0,
        S,
    );
    let mut scene = looking_down_z();
    scene.add_shape(Shape::new_plane_material(
        Vec3d::new(0, 0, 20 * S),
        Vec3d::new(0, 0, -S),
        glow,
    ));
    scene.add_shape(Shape::new_plane_material(
        Vec3d::new(0, 0, -20 * S),
        Vec3d::new(0, 0, S),
        glow,
    ));
    let c = scene.trace(Vec3d::new(0, 0, 0), Vec3d::new(0, 0, S), 0);
    assert_eq!(c, Color::new(4 * 6554, 4 * 6554, 4 * 6554));
}

#[test]
fn trace_at_depth_bound_is_black() {
    let mut scene = looking_down_z();
    scene.add_shape(Shape::new_sphere_material(Vec3d::new(0, 0, 10 * S), 5 * S, flat_white()));
    scene.add_light(Light::new(Vec3d::new(0, 5 * S, 0), Color::white()));
    // the default depth bound is four
    let c = scene.trace(Vec3d::new(0, 0, 0), Vec3d::new(0, 0, S), 4);
    assert_eq!(c, Color::black());
}

#[test]
fn camera_forward_back_is_identity() {
    let mut scene = Scene::new(Vec3d::new(S, 2 * S, 3 * S), Vec3d::new(0, 0, S), Vec3d::new(0, S, 0));
    scene.mv_camera_fwd();
    assert_eq!(scene.get_camera_pos(), Vec3d::new(S, 2 * S, 4 * S));
    scene.mv_camera_back();
    assert_eq!(scene.get_camera_pos(), Vec3d::new(S, 2 * S, 3 * S));
}

#[test]
fn camera_rotation_by_zero_is_identity() {
    let mut scene = looking_down_z();
    scene.rot_camera(0, S, 0, S);
    assert_eq!(scene.get_camera_dir(), Vec3d::new(0, 0, S));
}

#[test]
fn camera_yaw_quarter_turn() {
    let mut scene = looking_down_z();
    // yaw 90 degrees: sin = 1, cos = 0; no pitch
    scene.rot_camera(S, 0, 0, S);
    assert_eq!(scene.get_camera_dir(), Vec3d::new(S, 0, 0));
}

#[test]
fn camera_pitch_quarter_turn() {
    let mut scene = looking_down_z();
    // no yaw; pitch 90 degrees tips the view straight down
    scene.rot_camera(0, S, S, 0);
    assert_eq!(scene.get_camera_dir(), Vec3d::new(0, -S, 0));
}

#[test]
fn step_changes_nothing() {
    let mut scene = looking_down_z();
    scene.step();
    assert_eq!(scene.get_camera_pos(), Vec3d::new(0, 0, 0));
    assert_eq!(scene.get_camera_dir(), Vec3d::new(0, 0, S));
}

#[test]
fn light_feeler_and_translate() {
    let mut l = Light::new(Vec3d::new(0, 10 * S, 0), Color::white());
    let (unit, dist) = l.feeler(Vec3d::new(0, 0, 0));
    assert_eq!(unit, Vec3d::new(0, S, 0));
    assert_eq!(dist, 10 * S);
    assert_eq!(l.get_color(), Color::white());
    l.translate(&Vec3d::new(0, -5 * S, 0));
    assert_eq!(l.get_pos(), Vec3d::new(0, 5 * S, 0));
}

#[test]
fn line_iter_walks_one_scanline() {
    let mut scene = looking_down_z();
    // a big sphere so mid-line rays of a coarse grid hit it
    scene.add_shape(Shape::new_sphere_material(Vec3d::new(0, 0, 10 * S), 8 * S, flat_white()));
    scene.add_light(Light::new(Vec3d::new(0, 0, -10 * S), Color::white()));
    let mut it = scene.line_iter(3, 3, 1);
    let mut colors = Vec::new();
    loop {
        match it.next() {
            Some(c) => colors.push(c),
            None => break,
        }
    }
    assert_eq!(colors.len(), 3);
    // the middle pixel of the middle line looks at the sphere head-on
    let (r, g, b) = colors[1].to_u8_triple();
    assert!(r > 0 && g > 0 && b > 0);
}

#[test]
fn line_iter_u8_matches_line_iter() {
    let mut scene = looking_down_z();
    scene.add_shape(Shape::new_sphere_material(Vec3d::new(0, 0, 10 * S), 8 * S, flat_white()));
    scene.add_light(Light::new(Vec3d::new(0, 0, -10 * S), Color::white()));
    let bytes = scene.line_iter_u8(4, 4, 2);
    assert_eq!(bytes.len(), 4);
    let mut it = scene.line_iter(4, 4, 2);
    let mut i: usize = 0;
    loop {
        match it.next() {
            Some(c) => {
                assert_eq!(bytes[i], c.to_u8_triple());
                i += 1;
            }
            None => break,
        }
    }
    assert_eq!(i, 4);
}

#[test]
fn empty_scene_scanline_is_black() {
    let scene = looking_down_z();
    let bytes = scene.line_iter_u8(5, 5, 0);
    assert_eq!(bytes.len(), 5);
    let mut i: usize = 0;
    while i < bytes.len() {
        assert_eq!(bytes[i], (0, 0, 0));
        i += 1;
    }
}

#[test]
fn mirror_material_reflects_everything() {
    let m = Material::mirror();
    assert_eq!(m.reflectivity, S);
    assert_eq!(m.diffuse_color, Color::black());
}
