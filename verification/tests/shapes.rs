//! Sphere and plane intersection queries: exact expected distances.

use craycray::color::Color;
use craycray::material::Material;
use craycray::plane::Plane;
use craycray::shape::Shape;
use craycray::sphere::Sphere;
use craycray::vec3d::Vec3d;

const S: i64 = 65536;

fn flat_white() -> Material {
    Material::new(
        Color::black(),
        Color::black(),
        Color::white(),
        1,
        0,
    )
}

#[test]
fn sphere_head_on_hit() {
    // A ray aimed at the center from outside hits at
    // distance-to-center minus radius, with the normal facing back
    // along the ray.
    let sp = Sphere::from_material(Vec3d::new(0, 0, 10 * S), 5 * S, flat_white());
    let o = Vec3d::new(0, 0, 0);
    let d = Vec3d::new(0, 0, S);
    assert_eq!(sp.intersect_dist(o, d), Some(5 * S));
    let hit = sp.intersect(o, d).unwrap();
    assert_eq!(hit.point, Vec3d::new(0, 0, 5 * S));
    assert_eq!(hit.normal, Vec3d::new(0, 0, -S));
}

#[test]
fn sphere_behind_ray_misses() {
    let sp = Sphere::from_material(Vec3d::new(0, 0, 10 * S), 5 * S, flat_white());
    let o = Vec3d::new(0, 0, 0);
    let d = Vec3d::new(0, 0, -S);
    assert_eq!(sp.intersect_dist(o, d), None);
}

#[test]
fn sphere_sideways_ray_misses() {
    let sp = Sphere::from_material(Vec3d::new(0, 0, 10 * S), 5 * S, flat_white());
    let o = Vec3d::new(0, 0, 0);
    let d = Vec3d::new(0, S, 0);
    assert_eq!(sp.intersect_dist(o, d), None);
}

#[test]
fn sphere_surface_ray_skips_near_root() {
    // From a point on the surface, the near root is zero and falls under
    // the half-unit guard; the far side of the sphere is reported.
    let sp = Sphere::from_material(Vec3d::new(0, 0, 10 * S), 5 * S, flat_white());
    let o = Vec3d::new(0, 0, 5 * S);
    let d = Vec3d::new(0, 0, S);
    assert_eq!(sp.intersect_dist(o, d), Some(10 * S));
}

#[test]
fn plane_head_on_hit() {
    let pl = Plane::from_material(
        Vec3d::new(0, 0, 10 * S),
        Vec3d::new(0, 0, -S),
        flat_white(),
    );
    let o = Vec3d::new(0, 0, 0);
    let d = Vec3d::new(0, 0, S);
    assert_eq!(pl.intersect_dist(o, d), Some(10 * S));
    let hit = pl.intersect(o, d).unwrap();
    assert_eq!(hit.point, Vec3d::new(0, 0, 10 * S));
    assert_eq!(hit.normal, Vec3d::new(0, 0, -S));
}

#[test]
fn plane_parallel_ray_misses() {
    let pl = Plane::from_material(
        Vec3d::new(0, 0, 10 * S),
        Vec3d::new(0, 0, -S),
        flat_white(),
    );
    let o = Vec3d::new(0, 0, 0);
    let d = Vec3d::new(S, 0, 0);
    assert_eq!(pl.intersect_dist(o, d), None);
}

#[test]
fn plane_back_face_ray_misses() {
    // Approaching from the side the normal faces away from reports no
    // hit even though the ray crosses the infinite plane.
    let pl = Plane::from_material(
        Vec3d::new(0, 0, 10 * S),
        Vec3d::new(0, 0, -S),
        flat_white(),
    );
    let o = Vec3d::new(0, 0, 20 * S);
    let d = Vec3d::new(0, 0, -S);
    assert_eq!(pl.intersect_dist(o, d), None);
}

#[test]
fn plane_hit_behind_origin_misses() {
    let pl = Plane::from_material(
        Vec3d::new(0, 0, -10 * S),
        Vec3d::new(0, 0, S),
        flat_white(),
    );
    // normal +Z, plane behind the origin, ray heading +Z: denom < 0
    let o = Vec3d::new(0, 0, 0);
    let d = Vec3d::new(0, 0, S);
    assert_eq!(pl.intersect_dist(o, d), None);
}

#[test]
fn plane_constructor_normalizes() {
    let pl = Plane::new(Vec3d::new(0, 0, 0), Vec3d::new(0, 0, -7 * S), Color::white());
    let o = Vec3d::new(0, 0, -10 * S);
    let d = Vec3d::new(0, 0, S);
    // with the stored normal normalized the distance is exact
    assert_eq!(pl.intersect_dist(o, d), Some(10 * S));
}

#[test]
fn shape_enum_dispatches() {
    let s = Shape::new_sphere_material(Vec3d::new(0, 0, 10 * S), 5 * S, flat_white());
    assert_eq!(s.intersect_dist(Vec3d::new(0, 0, 0), Vec3d::new(0, 0, S)), Some(5 * S));
    let p = Shape::new_plane_material(
        Vec3d::new(0, 0, 10 * S),
        Vec3d::new(0, 0, -S),
        flat_white(),
    );
    assert_eq!(p.intersect_dist(Vec3d::new(0, 0, 0), Vec3d::new(0, 0, S)), Some(10 * S));
    let hit = p.intersect(Vec3d::new(0, 0, 0), Vec3d::new(0, 0, S)).unwrap();
    assert_eq!(hit.point, Vec3d::new(0, 0, 10 * S));
}

#[test]
fn stock_constructors_fill_materials() {
    let sp = Shape::new_sphere(Vec3d::new(0, 0, 10 * S), 5 * S, Color::new(S, 0, 0));
    // the stock sphere material has white specular highlights, so a
    // head-on hit still reports the red diffuse color in its record
    let hit = sp.intersect(Vec3d::new(0, 0, 0), Vec3d::new(0, 0, S)).unwrap();
    assert_eq!(hit.material.diffuse_color, Color::new(S, 0, 0));
    assert_eq!(hit.material.specular_color, Color::white());
    let pl = Shape::new_plane(Vec3d::new(0, 0, 10 * S), Vec3d::new(0, 0, -S), Color::new(0, S, 0));
    let hit2 = pl.intersect(Vec3d::new(0, 0, 0), Vec3d::new(0, 0, S)).unwrap();
    assert_eq!(hit2.material.diffuse_color, Color::new(0, S, 0));
    assert_eq!(hit2.material.specular_color, Color::black());
}
