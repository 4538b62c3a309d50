//! The scene: shape and light collections, camera state, and the
//! recursive trace over them.

use vstd::prelude::*;

use crate::color::{c_add, c_in_range, c_mul, c_scale, c_zero, Color, C3};
use crate::fixed::{
    clamp01, fmul, fpow, fx_clamp01, fx_pow, iabs, lemma_fmul_bound, lemma_fmul_nonneg,
    lemma_fmul_unit, lemma_fpow_unit, SCALE,
};
use crate::light::{light_wf, Light};
use crate::material::m_wf;
use crate::shape::{
    hit_bounded, hit_eq, shape_dist_of, shape_hit_of, shape_wf, HitV, Intersection, Shape,
};
use crate::vec3d::{
    lemma_dot_bound, lemma_fmul_unit_factor, lemma_rot_bounded, lemma_v_unit_bounded, v_add,
    v_bounded, v_dot, v_norm, v_scale, v_sub, v_unit, Vec3d, HOP_MAX, RAY_DIR_MAX,
    RAY_ORIG_MAX, WORLD_MAX, V3,
};

verus! {

/// Bound on the camera direction and up vector components: twice a unit,
/// to leave room for hand-built poses before their first normalization.
pub const CAM_MAX: i64 = 0x2_0000;

/// Most lights a scene can hold; keeps the summed shading within bounds.
pub const LIGHTS_MAX: usize = 256;

/// Most reflection levels a scene can ask for; keeps ray origins within
/// the box that the intersection queries accept.
pub const DEPTH_LIMIT: i32 = 16;

/// Bound on one Phong contribution's channels.
pub const PHONG_MAX: i64 = 262144;

/// Bound on the channels of the local color at one trace level: every
/// light's contribution plus the ambient term.
pub const LOCAL_MAX: i64 = 67174400;

/// A scene: shapes, lights, a camera pose, and the reflection depth
/// bound.  Shapes and lights are only ever appended; the camera pose is
/// the only state that moves.
pub struct Scene {
    shapes: Vec<Shape>,
    lights: Vec<Light>,
    camera_pos: Vec3d,
    camera_dir: Vec3d,
    camera_up: Vec3d,
    max_reflection: i32,
}

impl Scene {
    pub closed spec fn spec_shapes(self) -> Seq<Shape> {
        self.shapes@
    }

    pub closed spec fn spec_lights(self) -> Seq<Light> {
        self.lights@
    }

    pub closed spec fn spec_camera_pos(self) -> Vec3d {
        self.camera_pos
    }

    pub closed spec fn spec_camera_dir(self) -> Vec3d {
        self.camera_dir
    }

    pub closed spec fn spec_camera_up(self) -> Vec3d {
        self.camera_up
    }

    pub closed spec fn spec_max_reflection(self) -> int {
        self.max_reflection as int
    }
}

/// Every shape in the sequence is well-formed.
pub open spec fn all_shapes_wf(shapes: Seq<Shape>) -> bool {
    forall|i: int| 0 <= i < shapes.len() ==> shape_wf(#[trigger] shapes[i])
}

/// Every light in the sequence is well-formed.
pub open spec fn all_lights_wf(lights: Seq<Light>) -> bool {
    forall|i: int| 0 <= i < lights.len() ==> light_wf(#[trigger] lights[i])
}

/// A well-formed scene: every shape and light well-formed, the camera
/// inside the world box, and the collection and depth limits respected.
pub open spec fn scene_wf(s: Scene) -> bool {
    &&& all_shapes_wf(s.spec_shapes())
    &&& all_lights_wf(s.spec_lights())
    &&& s.spec_lights().len() <= LIGHTS_MAX
    &&& v_bounded(s.spec_camera_pos()@, WORLD_MAX as int)
    &&& v_bounded(s.spec_camera_dir()@, CAM_MAX as int)
    &&& v_bounded(s.spec_camera_up()@, CAM_MAX as int)
    &&& 0 <= s.spec_max_reflection() <= DEPTH_LIMIT
}

/// Ray origins drift from the world box by at most one hop per
/// reflection level.
pub open spec fn origin_ok(o: V3, depth: int) -> bool {
    v_bounded(o, WORLD_MAX as int + depth * (HOP_MAX as int))
}

/// The camera direction after an orbit rotation.  The azimuth of the
/// current direction is read off its (normalized) projection onto the
/// XZ plane; pitch is applied in the un-yawed frame so that its axis
/// stays put regardless of the current yaw.
pub open spec fn rot_camera_dir(dir: V3, xs: int, xc: int, ys: int, yc: int) -> V3 {
    let proj = v_unit(V3 { x: dir.x, y: 0, z: dir.z });
    let sa = proj.x;
    let ca = proj.z;
    v_unit(
        crate::vec3d::v_rot_y(
            crate::vec3d::v_rot_x(
                crate::vec3d::v_rot_y(crate::vec3d::v_rot_y(dir, xs, xc), -sa, ca),
                ys,
                yc,
            ),
            sa,
            ca,
        ),
    )
}

impl Scene {
    /// An empty scene with the given camera pose and the default
    /// reflection depth.
    pub fn new(camera_pos: Vec3d, camera_dir: Vec3d, camera_up: Vec3d) -> (s: Scene)
        requires
            v_bounded(camera_pos@, WORLD_MAX as int),
            v_bounded(camera_dir@, CAM_MAX as int),
            v_bounded(camera_up@, CAM_MAX as int),
        ensures
            scene_wf(s),
            s.spec_shapes() =~= Seq::<Shape>::empty(),
            s.spec_lights() =~= Seq::<Light>::empty(),
            s.spec_camera_pos() == camera_pos,
            s.spec_camera_dir() == camera_dir,
            s.spec_camera_up() == camera_up,
            s.spec_max_reflection() == 4,
    {
        Scene {
            shapes: Vec::new(),
            lights: Vec::new(),
            camera_pos,
            camera_dir,
            camera_up,
            max_reflection: 4,
        }
    }

    pub fn add_shape(&mut self, s: Shape)
        requires
            scene_wf(*old(self)),
            shape_wf(s),
        ensures
            scene_wf(*final(self)),
            final(self).spec_shapes() == old(self).spec_shapes().push(s),
            final(self).spec_lights() == old(self).spec_lights(),
            final(self).spec_camera_pos() == old(self).spec_camera_pos(),
            final(self).spec_camera_dir() == old(self).spec_camera_dir(),
            final(self).spec_camera_up() == old(self).spec_camera_up(),
            final(self).spec_max_reflection() == old(self).spec_max_reflection(),
    {
        self.shapes.push(s);
        proof {
            let shs = old(self).spec_shapes().push(s);
            assert forall|i: int| 0 <= i < shs.len() implies shape_wf(#[trigger] shs[i]) by {
                if i < old(self).spec_shapes().len() {
                    assert(shs[i] == old(self).spec_shapes()[i]);
                } else {
                    assert(shs[i] == s);
                }
            }
        }
    }

    /// Append a light; the scene's light budget must not be exhausted.
    pub fn add_light(&mut self, l: Light)
        requires
            scene_wf(*old(self)),
            light_wf(l),
            old(self).spec_lights().len() < LIGHTS_MAX,
        ensures
            scene_wf(*final(self)),
            final(self).spec_lights() == old(self).spec_lights().push(l),
            final(self).spec_shapes() == old(self).spec_shapes(),
            final(self).spec_camera_pos() == old(self).spec_camera_pos(),
            final(self).spec_camera_dir() == old(self).spec_camera_dir(),
            final(self).spec_camera_up() == old(self).spec_camera_up(),
            final(self).spec_max_reflection() == old(self).spec_max_reflection(),
    {
        self.lights.push(l);
        proof {
            let ls = old(self).spec_lights().push(l);
            assert forall|i: int| 0 <= i < ls.len() implies light_wf(#[trigger] ls[i]) by {
                if i < old(self).spec_lights().len() {
                    assert(ls[i] == old(self).spec_lights()[i]);
                } else {
                    assert(ls[i] == l);
                }
            }
        }
    }

    /// The per-frame animation hook; the scene does not move on its own.
    pub fn step(&mut self)
        ensures
            *final(self) == *old(self),
    {
    }

    /// Walk the camera one direction length forward; the move must stay
    /// inside the world box.
    pub fn mv_camera_fwd(&mut self)
        requires
            scene_wf(*old(self)),
            v_bounded(
                v_add(old(self).spec_camera_pos()@, old(self).spec_camera_dir()@),
                WORLD_MAX as int,
            ),
        ensures
            scene_wf(*final(self)),
            final(self).spec_camera_pos()@ == v_add(
                old(self).spec_camera_pos()@,
                old(self).spec_camera_dir()@,
            ),
            final(self).spec_shapes() == old(self).spec_shapes(),
            final(self).spec_lights() == old(self).spec_lights(),
            final(self).spec_camera_dir() == old(self).spec_camera_dir(),
            final(self).spec_camera_up() == old(self).spec_camera_up(),
            final(self).spec_max_reflection() == old(self).spec_max_reflection(),
    {
        self.camera_pos = self.camera_pos.add(&self.camera_dir);
    }

    /// Walk the camera one direction length back; the move must stay
    /// inside the world box.
    pub fn mv_camera_back(&mut self)
        requires
            scene_wf(*old(self)),
            v_bounded(
                v_sub(old(self).spec_camera_pos()@, old(self).spec_camera_dir()@),
                WORLD_MAX as int,
            ),
        ensures
            scene_wf(*final(self)),
            final(self).spec_camera_pos()@ == v_sub(
                old(self).spec_camera_pos()@,
                old(self).spec_camera_dir()@,
            ),
            final(self).spec_shapes() == old(self).spec_shapes(),
            final(self).spec_lights() == old(self).spec_lights(),
            final(self).spec_camera_dir() == old(self).spec_camera_dir(),
            final(self).spec_camera_up() == old(self).spec_camera_up(),
            final(self).spec_max_reflection() == old(self).spec_max_reflection(),
    {
        self.camera_pos = self.camera_pos.sub(&self.camera_dir);
    }

    /// Orbit the camera: yaw by the angle whose sine and cosine are
    /// (x_sin, x_cos), pitch by the one whose sine and cosine are
    /// (y_sin, y_cos), with the pitch axis held stable against the
    /// current yaw.  The new direction is re-normalized.
    pub fn rot_camera(&mut self, x_sin: i64, x_cos: i64, y_sin: i64, y_cos: i64)
        requires
            scene_wf(*old(self)),
            iabs(x_sin as int) <= SCALE as int,
            iabs(x_cos as int) <= SCALE as int,
            iabs(y_sin as int) <= SCALE as int,
            iabs(y_cos as int) <= SCALE as int,
        ensures
            scene_wf(*final(self)),
            final(self).spec_camera_dir()@ == rot_camera_dir(
                old(self).spec_camera_dir()@,
                x_sin as int,
                x_cos as int,
                y_sin as int,
                y_cos as int,
            ),
            final(self).spec_shapes() == old(self).spec_shapes(),
            final(self).spec_lights() == old(self).spec_lights(),
            final(self).spec_camera_pos() == old(self).spec_camera_pos(),
            final(self).spec_camera_up() == old(self).spec_camera_up(),
            final(self).spec_max_reflection() == old(self).spec_max_reflection(),
    {
        let mut x_proj = self.camera_dir;
        x_proj.y = 0;
        let x_proj_n = x_proj.normalize();
        let sa = x_proj_n.x;
        let ca = x_proj_n.z;
        proof {
            lemma_rot_bounded(
                self.spec_camera_dir()@,
                x_sin as int,
                x_cos as int,
                CAM_MAX as int,
            );
        }
        let d1 = self.camera_dir.rot_y(x_sin, x_cos);
        proof {
            lemma_rot_bounded(d1@, -sa as int, ca as int, 2 * CAM_MAX as int);
        }
        let d2 = d1.rot_y(-sa, ca);
        proof {
            lemma_rot_bounded(d2@, y_sin as int, y_cos as int, 4 * CAM_MAX as int);
        }
        let d3 = d2.rot_x(y_sin, y_cos);
        proof {
            lemma_rot_bounded(d3@, sa as int, ca as int, 8 * CAM_MAX as int);
        }
        let d4 = d3.rot_y(sa, ca);
        self.camera_dir = d4.normalize();
    }
}

/// The Phong local contribution of one light at one hit, seen from
/// `view`: a Lambertian diffuse term plus a specular highlight, each the
/// light color times the material color times its geometric factor.
pub open spec fn phong_of(view: V3, hit: HitV, l: Light) -> C3 {
    let lpos = l.spec_pos()@;
    let lcol = l.spec_color()@;
    let lt = v_unit(v_sub(lpos, hit.point));
    let d0 = v_dot(lt, hit.normal);
    let d = if d0 < 0 {
        0
    } else {
        d0
    };
    let v = v_unit(v_sub(view, hit.point));
    let r = v_sub(v_scale(hit.normal, 2 * v_dot(hit.normal, lt)), lt);
    let s = fpow(clamp01(v_dot(r, v)), hit.material.shininess as nat);
    c_add(
        c_scale(c_mul(lcol, hit.material.diffuse_color@), d),
        c_scale(c_mul(lcol, hit.material.specular_color@), s),
    )
}

/// A light-times-material channel scaled by a geometric factor in
/// [0, kb] stays in [0, kb].
proof fn lemma_chan_term(lc: int, mc: int, k: int, kb: int)
    requires
        0 <= lc <= SCALE as int,
        0 <= mc <= SCALE as int,
        0 <= k <= kb,
    ensures
        0 <= fmul(fmul(lc, mc), k) <= kb,
{
    lemma_fmul_unit(lc, mc);
    lemma_fmul_nonneg(fmul(lc, mc), k);
    lemma_fmul_bound(fmul(lc, mc), k, SCALE as int, kb);
    vstd::arithmetic::div_mod::lemma_div_multiples_vanish(kb, SCALE as int);
}

/// One light's Phong contribution never exceeds `PHONG_MAX` per channel.
pub proof fn lemma_phong_range(view: V3, hit: HitV, l: Light)
    requires
        light_wf(l),
        m_wf(hit.material),
        v_bounded(hit.normal, SCALE as int),
    ensures
        c_in_range(phong_of(view, hit, l), PHONG_MAX as int),
{
    let lpos = l.spec_pos()@;
    let lcol = l.spec_color()@;
    let lt = v_unit(v_sub(lpos, hit.point));
    lemma_v_unit_bounded(v_sub(lpos, hit.point));
    lemma_dot_bound(lt, hit.normal, SCALE as int, SCALE as int);
    let d0 = v_dot(lt, hit.normal);
    let d = if d0 < 0 {
        0
    } else {
        d0
    };
    let v = v_unit(v_sub(view, hit.point));
    let r = v_sub(v_scale(hit.normal, 2 * v_dot(hit.normal, lt)), lt);
    let s = fpow(clamp01(v_dot(r, v)), hit.material.shininess as nat);
    lemma_fpow_unit(clamp01(v_dot(r, v)), hit.material.shininess as nat);
    lemma_chan_term(lcol.r, hit.material.diffuse_color@.r, d, 3 * SCALE as int);
    lemma_chan_term(lcol.g, hit.material.diffuse_color@.g, d, 3 * SCALE as int);
    lemma_chan_term(lcol.b, hit.material.diffuse_color@.b, d, 3 * SCALE as int);
    lemma_chan_term(lcol.r, hit.material.specular_color@.r, s, SCALE as int);
    lemma_chan_term(lcol.g, hit.material.specular_color@.g, s, SCALE as int);
    lemma_chan_term(lcol.b, hit.material.specular_color@.b, s, SCALE as int);
}

/// The shape reports a hit strictly nearer than dl along the ray (p, u).
pub open spec fn blocked(sh: Shape, p: V3, u: V3, dl: int) -> bool {
    match shape_dist_of(sh, p, u) {
        Option::Some(t) => t < dl,
        Option::None => false,
    }
}

/// No shape in the sequence occludes the segment of length dl from p
/// along u.
pub open spec fn clear_path(shapes: Seq<Shape>, p: V3, u: V3, dl: int) -> bool {
    forall|i: int| 0 <= i < shapes.len() ==> !blocked(#[trigger] shapes[i], p, u, dl)
}

/// The point p stands in direct light of l: no shape cuts the segment
/// from p to the light.
pub open spec fn visible_of(s: Scene, p: V3, l: Light) -> bool {
    clear_path(
        s.spec_shapes(),
        p,
        v_unit(v_sub(l.spec_pos()@, p)),
        v_norm(v_sub(l.spec_pos()@, p)),
    )
}

/// The nearest hit among the first k shapes: its index and distance.
/// Among equally near hits the earliest shape wins.
pub open spec fn best_hit(shapes: Seq<Shape>, o: V3, d: V3, k: int) -> Option<(int, int)>
    decreases k,
{
    if k <= 0 {
        Option::<(int, int)>::None
    } else {
        let prev = best_hit(shapes, o, d, k - 1);
        match prev {
            Option::Some(pv) => match shape_dist_of(shapes[k - 1], o, d) {
                Option::Some(t) => if t < pv.1 {
                    Option::Some((k - 1, t))
                } else {
                    Option::Some(pv)
                },
                Option::None => Option::Some(pv),
            },
            Option::None => match shape_dist_of(shapes[k - 1], o, d) {
                Option::Some(t) => Option::Some((k - 1, t)),
                Option::None => Option::<(int, int)>::None,
            },
        }
    }
}

/// A best hit points at a real shape whose reported distance it carries.
pub proof fn lemma_best_hit_props(shapes: Seq<Shape>, o: V3, d: V3, k: int)
    requires
        k <= shapes.len(),
    ensures
        match best_hit(shapes, o, d, k) {
            Option::Some(pv) => 0 <= pv.0 < k && shape_dist_of(shapes[pv.0], o, d)
                == Option::Some(pv.1),
            Option::None => true,
        },
    decreases k,
{
    if k > 0 {
        lemma_best_hit_props(shapes, o, d, k - 1);
    }
}

/// The full record of the nearest hit across the whole scene.
pub open spec fn closest_of(s: Scene, o: V3, d: V3) -> Option<HitV> {
    match best_hit(s.spec_shapes(), o, d, s.spec_shapes().len() as int) {
        Option::Some(pv) => shape_hit_of(s.spec_shapes()[pv.0], o, d),
        Option::None => Option::<HitV>::None,
    }
}

impl Scene {
    /// Whether nothing on the path from `point` along `dir` comes nearer
    /// than `dl`: the point is lit directly by a light at that distance.
    pub fn is_direct_light(&self, point: Vec3d, dir: Vec3d, dl: i64) -> (r: bool)
        requires
            scene_wf(*self),
            v_bounded(point@, RAY_ORIG_MAX as int),
            v_bounded(dir@, RAY_DIR_MAX as int),
        ensures
            r == clear_path(self.spec_shapes(), point@, dir@, dl as int),
    {
        let n = self.shapes.len();
        let mut i: usize = 0;
        while i < n
            invariant
                scene_wf(*self),
                v_bounded(point@, RAY_ORIG_MAX as int),
                v_bounded(dir@, RAY_DIR_MAX as int),
                i <= n,
                n == self.spec_shapes().len(),
                forall|j: int|
                    0 <= j < i ==> !blocked(
                        #[trigger] self.spec_shapes()[j],
                        point@,
                        dir@,
                        dl as int,
                    ),
            decreases n - i,
        {
            let dist_opt = self.shapes[i].intersect_dist(point, dir);
            match dist_opt {
                Option::Some(t) => {
                    if t < dl {
                        proof {
                            assert(blocked(self.spec_shapes()[i as int], point@, dir@, dl as int));
                        }
                        return false;
                    }
                },
                Option::None => {},
            }
            i += 1;
        }
        true
    }

    /// The nearest intersection of the ray across all shapes, searched
    /// in shape order; the earliest shape wins ties.
    pub fn closest_q(&self, point: Vec3d, dir: Vec3d) -> (r: Option<Intersection>)
        requires
            scene_wf(*self),
            v_bounded(point@, RAY_ORIG_MAX as int),
            v_bounded(dir@, RAY_DIR_MAX as int),
        ensures
            hit_eq(r, closest_of(*self, point@, dir@)),
            r is Some ==> hit_bounded(r->Some_0@, point@),
    {
        let n = self.shapes.len();
        let mut have: bool = false;
        let mut best_idx: usize = 0;
        let mut best_dist: i64 = 0;
        let mut i: usize = 0;
        while i < n
            invariant
                scene_wf(*self),
                v_bounded(point@, RAY_ORIG_MAX as int),
                v_bounded(dir@, RAY_DIR_MAX as int),
                i <= n,
                n == self.spec_shapes().len(),
                have ==> best_hit(self.spec_shapes(), point@, dir@, i as int) == Option::Some(
                    (best_idx as int, best_dist as int),
                ) && best_idx < i,
                !have ==> best_hit(self.spec_shapes(), point@, dir@, i as int) is None,
            decreases n - i,
        {
            match self.shapes[i].intersect_dist(point, dir) {
                Option::Some(t) => {
                    if !have {
                        have = true;
                        best_idx = i;
                        best_dist = t;
                    } else if t < best_dist {
                        best_idx = i;
                        best_dist = t;
                    }
                },
                Option::None => {},
            }
            i += 1;
        }
        if have {
            self.shapes[best_idx].intersect(point, dir)
        } else {
            Option::None
        }
    }
}

/// The summed Phong contributions of the first k lights that actually
/// see the hit point; shadowed lights contribute nothing.
pub open spec fn light_acc(s: Scene, view: V3, hit: HitV, k: int) -> C3
    decreases k,
{
    if k <= 0 {
        c_zero()
    } else {
        let prev = light_acc(s, view, hit, k - 1);
        let l = s.spec_lights()[k - 1];
        if visible_of(s, hit.point, l) {
            c_add(prev, phong_of(view, hit, l))
        } else {
            prev
        }
    }
}

/// The summed light contributions stay within k times the single-light
/// bound.
pub proof fn lemma_light_acc_range(s: Scene, view: V3, hit: HitV, k: int)
    requires
        scene_wf(s),
        0 <= k <= s.spec_lights().len(),
        m_wf(hit.material),
        v_bounded(hit.normal, SCALE as int),
    ensures
        c_in_range(light_acc(s, view, hit, k), k * (PHONG_MAX as int)),
    decreases k,
{
    if k > 0 {
        lemma_light_acc_range(s, view, hit, k - 1);
        if visible_of(s, hit.point, s.spec_lights()[k - 1]) {
            lemma_phong_range(view, hit, s.spec_lights()[k - 1]);
        }
    }
}

/// The color a ray gathers: black once the depth bound is reached or the
/// ray escapes; otherwise the local Phong sum over the visible lights
/// plus the ambient term, plus the reflectivity-scaled color of the
/// mirror-reflected ray, clamped nowhere.
pub open spec fn trace_of(s: Scene, o: V3, d: V3, depth: int) -> C3
    decreases s.spec_max_reflection() - depth,
{
    if depth >= s.spec_max_reflection() {
        c_zero()
    } else {
        match closest_of(s, o, d) {
            Option::None => c_zero(),
            Option::Some(hit) => {
                let local = c_add(
                    light_acc(s, o, hit, s.spec_lights().len() as int),
                    hit.material.ambient_color@,
                );
                let tmp = v_unit(v_sub(hit.point, o));
                let refl = v_sub(tmp, v_scale(hit.normal, 2 * v_dot(tmp, hit.normal)));
                c_add(local, c_scale(trace_of(s, hit.point, refl, depth + 1), hit.material.reflectivity as int))
            },
        }
    }
}

/// A traced color is finite: each channel lies between zero and the
/// remaining depth budget times the per-level bound.
pub proof fn lemma_trace_range(s: Scene, o: V3, d: V3, depth: int)
    requires
        scene_wf(s),
        0 <= depth <= s.spec_max_reflection(),
    ensures
        c_in_range(trace_of(s, o, d, depth), (s.spec_max_reflection() - depth) * (LOCAL_MAX as int)),
    decreases s.spec_max_reflection() - depth,
{
    if depth < s.spec_max_reflection() {
        match closest_of(s, o, d) {
            Option::None => {},
            Option::Some(hit) => {
                let nl = s.spec_lights().len() as int;
                lemma_best_hit_props(s.spec_shapes(), o, d, s.spec_shapes().len() as int);
                match best_hit(s.spec_shapes(), o, d, s.spec_shapes().len() as int) {
                    Option::Some(pv) => {
                        crate::shape::lemma_shape_hit_props(s.spec_shapes()[pv.0], o, d);
                    },
                    Option::None => {},
                }
                lemma_light_acc_range(s, o, hit, nl);
                let tmp = v_unit(v_sub(hit.point, o));
                let refl = v_sub(tmp, v_scale(hit.normal, 2 * v_dot(tmp, hit.normal)));
                lemma_trace_range(s, hit.point, refl, depth + 1);
                let rc = trace_of(s, hit.point, refl, depth + 1);
                let rb = (s.spec_max_reflection() - depth - 1) * (LOCAL_MAX as int);
                lemma_fmul_nonneg(rc.r, hit.material.reflectivity as int);
                lemma_fmul_nonneg(rc.g, hit.material.reflectivity as int);
                lemma_fmul_nonneg(rc.b, hit.material.reflectivity as int);
                lemma_fmul_unit_factor(rc.r, hit.material.reflectivity as int, rb);
                lemma_fmul_unit_factor(rc.g, hit.material.reflectivity as int, rb);
                lemma_fmul_unit_factor(rc.b, hit.material.reflectivity as int, rb);
            },
        }
    }
}

/// Phong local illumination of one light at one hit, seen from
/// `view_point` (see `phong_of` for the formula).  The specular base is
/// clamped into [0, 1] before exponentiation: the reflected and view
/// directions are unit vectors, so only rounding ever puts their product
/// outside that range.
fn phong(view_point: Vec3d, intersection: &Intersection, light: &Light) -> (c: Color)
    requires
        light_wf(*light),
        m_wf(intersection.material),
        v_bounded(intersection.point@, RAY_ORIG_MAX as int),
        v_bounded(intersection.normal@, SCALE as int),
        v_bounded(view_point@, RAY_ORIG_MAX as int),
    ensures
        c@ == phong_of(view_point@, intersection@, *light),
        c_in_range(c@, PHONG_MAX as int),
{
    let point_material = intersection.material;
    let light_pos = light.get_pos();
    let light_color = light.get_color();
    let lt = light_pos.sub(&intersection.point).normalize();
    proof {
        lemma_dot_bound(lt@, intersection.normal@, SCALE as int, SCALE as int);
    }
    let mut d = lt.dot(&intersection.normal);
    if d < 0 {
        d = 0;
    }
    let v = view_point.sub(&intersection.point).normalize();
    proof {
        lemma_dot_bound(intersection.normal@, lt@, SCALE as int, SCALE as int);
        lemma_fmul_bound(intersection.normal@.x, 2 * v_dot(intersection.normal@, lt@), SCALE as int, 6 * SCALE as int);
        lemma_fmul_bound(intersection.normal@.y, 2 * v_dot(intersection.normal@, lt@), SCALE as int, 6 * SCALE as int);
        lemma_fmul_bound(intersection.normal@.z, 2 * v_dot(intersection.normal@, lt@), SCALE as int, 6 * SCALE as int);
    }
    let r = intersection.normal.scale(2 * intersection.normal.dot(&lt)).sub(&lt);
    proof {
        lemma_dot_bound(r@, v@, 7 * SCALE as int, SCALE as int);
    }
    let s = fx_pow(fx_clamp01(r.dot(&v)), point_material.shininess);
    proof {
        lemma_fpow_unit(
            clamp01(v_dot(r@, v@)),
            point_material.shininess as nat,
        );
        lemma_chan_term(light_color@.r, point_material.diffuse_color@.r, d as int, 3 * SCALE as int);
        lemma_chan_term(light_color@.g, point_material.diffuse_color@.g, d as int, 3 * SCALE as int);
        lemma_chan_term(light_color@.b, point_material.diffuse_color@.b, d as int, 3 * SCALE as int);
        lemma_chan_term(light_color@.r, point_material.specular_color@.r, s as int, SCALE as int);
        lemma_chan_term(light_color@.g, point_material.specular_color@.g, s as int, SCALE as int);
        lemma_chan_term(light_color@.b, point_material.specular_color@.b, s as int, SCALE as int);
        lemma_fmul_unit(light_color@.r, point_material.diffuse_color@.r);
        lemma_fmul_unit(light_color@.g, point_material.diffuse_color@.g);
        lemma_fmul_unit(light_color@.b, point_material.diffuse_color@.b);
        lemma_fmul_unit(light_color@.r, point_material.specular_color@.r);
        lemma_fmul_unit(light_color@.g, point_material.specular_color@.g);
        lemma_fmul_unit(light_color@.b, point_material.specular_color@.b);
    }
    let diffuse = light_color.mul(&point_material.diffuse_color).scale(d);
    let specular = light_color.mul(&point_material.specular_color).scale(s);
    diffuse.add(&specular)
}

impl Scene {
    /// Recursively trace the ray from `point` along `dir`: local Phong
    /// shading at the nearest hit plus the mirror-reflected color, one
    /// reflection per level until the scene's depth bound.
    pub fn trace(&self, point: Vec3d, dir: Vec3d, depth: i32) -> (c: Color)
        requires
            scene_wf(*self),
            0 <= depth <= self.spec_max_reflection(),
            origin_ok(point@, depth as int),
            v_bounded(dir@, RAY_DIR_MAX as int),
        ensures
            c@ == trace_of(*self, point@, dir@, depth as int),
            c_in_range(c@, (self.spec_max_reflection() - depth as int) * (LOCAL_MAX as int)),
        decreases self.spec_max_reflection() - depth,
    {
        proof {
            lemma_trace_range(*self, point@, dir@, depth as int);
        }
        if depth >= self.max_reflection {
            return Color::black();
        }
        match self.closest_q(point, dir) {
            Option::None => Color::black(),
            Option::Some(inter) => {
                let ghost hit = inter@;
                proof {
                    assert(v_bounded(inter.point@, RAY_ORIG_MAX as int));
                }
                let nl = self.lights.len();
                let mut local = Color::black();
                let mut li: usize = 0;
                while li < nl
                    invariant
                        scene_wf(*self),
                        nl == self.spec_lights().len(),
                        li <= nl,
                        hit == inter@,
                        m_wf(inter.material),
                        v_bounded(inter.point@, RAY_ORIG_MAX as int),
                        v_bounded(inter.normal@, SCALE as int),
                        v_bounded(point@, RAY_ORIG_MAX as int),
                        local@ == light_acc(*self, point@, hit, li as int),
                        c_in_range(local@, li as int * (PHONG_MAX as int)),
                    decreases nl - li,
                {
                    let light = self.lights[li];
                    let (f_unit, f_dist) = light.feeler(inter.point);
                    if self.is_direct_light(inter.point, f_unit, f_dist) {
                        let p = phong(point, &inter, &light);
                        local = local.add(&p);
                    }
                    li += 1;
                }
                local = local.add(&inter.material.ambient_color);
                let tmp = inter.point.sub(&point).normalize();
                proof {
                    lemma_dot_bound(tmp@, inter.normal@, SCALE as int, SCALE as int);
                    lemma_fmul_bound(inter.normal@.x, 2 * v_dot(tmp@, inter.normal@), SCALE as int, 6 * SCALE as int);
                    lemma_fmul_bound(inter.normal@.y, 2 * v_dot(tmp@, inter.normal@), SCALE as int, 6 * SCALE as int);
                    lemma_fmul_bound(inter.normal@.z, 2 * v_dot(tmp@, inter.normal@), SCALE as int, 6 * SCALE as int);
                }
                let refl = tmp.sub(&inter.normal.scale(2 * tmp.dot(&inter.normal)));
                let reflected = self.trace(inter.point, refl, depth + 1);
                proof {
                    let rb = (self.spec_max_reflection() - depth as int - 1) * (LOCAL_MAX as int);
                    lemma_fmul_nonneg(reflected@.r, inter.material.reflectivity as int);
                    lemma_fmul_nonneg(reflected@.g, inter.material.reflectivity as int);
                    lemma_fmul_nonneg(reflected@.b, inter.material.reflectivity as int);
                    lemma_fmul_unit_factor(reflected@.r, inter.material.reflectivity as int, rb);
                    lemma_fmul_unit_factor(reflected@.g, inter.material.reflectivity as int, rb);
                    lemma_fmul_unit_factor(reflected@.b, inter.material.reflectivity as int, rb);
                }
                local.add(&reflected.scale(inter.material.reflectivity))
            },
        }
    }
}

/// The camera-ray frame for one scanline: the starting (unnormalized)
/// ray offset for the line, and the per-pixel step.  `left` and the true
/// up vector are orthogonalized out of the camera direction by cross
/// products; the frame spans a fixed field of one unit to either side.
pub open spec fn line_setup(s: Scene, h: int, v: int, l: int) -> (V3, V3) {
    let left = v_unit(crate::vec3d::v_cross(s.spec_camera_dir()@, s.spec_camera_up()@));
    let up = v_unit(crate::vec3d::v_cross(left, s.spec_camera_dir()@));
    let start = v_add(v_add(left, up), s.spec_camera_dir()@);
    let right_step = v_scale(left, crate::fixed::fdiv(-2 * SCALE as int, h * SCALE as int));
    let down_step = v_scale(up, crate::fixed::fdiv(-2 * SCALE as int, v * SCALE as int));
    (v_add(start, v_scale(down_step, l * SCALE as int)), right_step)
}

/// The base advanced by n steps.
pub open spec fn steps(base: V3, step: V3, n: int) -> V3
    decreases n,
{
    if n <= 0 {
        base
    } else {
        v_add(steps(base, step, n - 1), step)
    }
}

/// The color of pixel k of a scanline: the trace of the normalized
/// accumulated ray through it.  The first pixel already stands one step
/// in from the line's starting offset.
pub open spec fn line_pixel(s: Scene, h: int, v: int, l: int, k: int) -> C3 {
    let setup = line_setup(s, h, v, l);
    trace_of(s, s.spec_camera_pos()@, v_unit(steps(setup.0, setup.1, k + 1)), 0)
}

/// Iterator over the pixel colors of a single scanline.
pub struct LineIter<'a> {
    h_res: usize,
    x: usize,
    right_step: Vec3d,
    point: Vec3d,
    scene: &'a Scene,
}

impl<'a> LineIter<'a> {
    pub closed spec fn spec_x(self) -> int {
        self.x as int
    }

    pub closed spec fn spec_h_res(self) -> int {
        self.h_res as int
    }

    pub closed spec fn spec_point(self) -> Vec3d {
        self.point
    }

    pub closed spec fn spec_right_step(self) -> Vec3d {
        self.right_step
    }

    pub closed spec fn spec_scene(self) -> Scene {
        *self.scene
    }

    /// The iterator's invariant: its scene is well-formed and its
    /// accumulated point stays within the normalizable range.
    pub open spec fn inv(self) -> bool {
        &&& scene_wf(self.spec_scene())
        &&& self.spec_h_res() <= 16384
        &&& self.spec_x() <= self.spec_h_res()
        &&& v_bounded(self.spec_right_step()@, 2 * SCALE as int)
        &&& v_bounded(self.spec_point()@, 0x1_0000_0000 + 2 * (SCALE as int) * self.spec_x())
    }

    fn new(scene: &'a Scene, h: usize, v: usize, l: usize) -> (r: LineIter<'a>)
        requires
            scene_wf(*scene),
            1 <= h <= 16384,
            1 <= v <= 16384,
            l <= 16384,
        ensures
            r.inv(),
            r.spec_scene() == *scene,
            r.spec_h_res() == h,
            r.spec_x() == 0,
            r.spec_point()@ == line_setup(*scene, h as int, v as int, l as int).0,
            r.spec_right_step()@ == line_setup(*scene, h as int, v as int, l as int).1,
    {
        proof {
            lemma_fmul_bound(
                scene.spec_camera_dir()@.y,
                scene.spec_camera_up()@.z,
                CAM_MAX as int,
                CAM_MAX as int,
            );
            lemma_fmul_bound(
                scene.spec_camera_dir()@.z,
                scene.spec_camera_up()@.y,
                CAM_MAX as int,
                CAM_MAX as int,
            );
            lemma_fmul_bound(
                scene.spec_camera_dir()@.z,
                scene.spec_camera_up()@.x,
                CAM_MAX as int,
                CAM_MAX as int,
            );
            lemma_fmul_bound(
                scene.spec_camera_dir()@.x,
                scene.spec_camera_up()@.z,
                CAM_MAX as int,
                CAM_MAX as int,
            );
            lemma_fmul_bound(
                scene.spec_camera_dir()@.x,
                scene.spec_camera_up()@.y,
                CAM_MAX as int,
                CAM_MAX as int,
            );
            lemma_fmul_bound(
                scene.spec_camera_dir()@.y,
                scene.spec_camera_up()@.x,
                CAM_MAX as int,
                CAM_MAX as int,
            );
        }
        let left = scene.camera_dir.cross(&scene.camera_up).normalize();
        proof {
            lemma_fmul_bound(left@.y, scene.spec_camera_dir()@.z, SCALE as int, CAM_MAX as int);
            lemma_fmul_bound(left@.z, scene.spec_camera_dir()@.y, SCALE as int, CAM_MAX as int);
            lemma_fmul_bound(left@.z, scene.spec_camera_dir()@.x, SCALE as int, CAM_MAX as int);
            lemma_fmul_bound(left@.x, scene.spec_camera_dir()@.z, SCALE as int, CAM_MAX as int);
            lemma_fmul_bound(left@.x, scene.spec_camera_dir()@.y, SCALE as int, CAM_MAX as int);
            lemma_fmul_bound(left@.y, scene.spec_camera_dir()@.x, SCALE as int, CAM_MAX as int);
        }
        let up = left.cross(&scene.camera_dir).normalize();
        let start = left.add(&up).add(&scene.camera_dir);
        proof {
            crate::fixed::lemma_fdiv_bound(
                -2 * SCALE as int,
                h as int * SCALE as int,
                131072,
                65536,
            );
            crate::fixed::lemma_fdiv_bound(
                -2 * SCALE as int,
                v as int * SCALE as int,
                131072,
                65536,
            );
        }
        let right_step = left.scale(crate::fixed::fx_div(-2 * SCALE, (h as i64) * SCALE));
        let down_step = up.scale(crate::fixed::fx_div(-2 * SCALE, (v as i64) * SCALE));
        proof {
            let sc_h = crate::fixed::fdiv(-2 * SCALE as int, h as int * SCALE as int);
            let sc_v = crate::fixed::fdiv(-2 * SCALE as int, v as int * SCALE as int);
            lemma_fmul_bound(left@.x, sc_h, SCALE as int, 2 * SCALE as int);
            lemma_fmul_bound(left@.y, sc_h, SCALE as int, 2 * SCALE as int);
            lemma_fmul_bound(left@.z, sc_h, SCALE as int, 2 * SCALE as int);
            lemma_fmul_bound(up@.x, sc_v, SCALE as int, 2 * SCALE as int);
            lemma_fmul_bound(up@.y, sc_v, SCALE as int, 2 * SCALE as int);
            lemma_fmul_bound(up@.z, sc_v, SCALE as int, 2 * SCALE as int);
            lemma_fmul_bound(down_step@.x, l as int * SCALE as int, 2 * SCALE as int, 0x4000_0000);
            lemma_fmul_bound(down_step@.y, l as int * SCALE as int, 2 * SCALE as int, 0x4000_0000);
            lemma_fmul_bound(down_step@.z, l as int * SCALE as int, 2 * SCALE as int, 0x4000_0000);
        }
        let point = start.add(&down_step.scale((l as i64) * SCALE));
        LineIter { h_res: h, x: 0, right_step, point, scene }
    }

    /// The next pixel's color, or none once the line is exhausted.
    pub fn next(&mut self) -> (r: Option<Color>)
        requires
            old(self).inv(),
        ensures
            final(self).inv(),
            final(self).spec_scene() == old(self).spec_scene(),
            final(self).spec_h_res() == old(self).spec_h_res(),
            final(self).spec_right_step() == old(self).spec_right_step(),
            old(self).spec_x() >= old(self).spec_h_res() ==> r is None && *final(self) == *old(
                self,
            ),
            old(self).spec_x() < old(self).spec_h_res() ==> {
                &&& final(self).spec_x() == old(self).spec_x() + 1
                &&& final(self).spec_point()@ == v_add(
                    old(self).spec_point()@,
                    old(self).spec_right_step()@,
                )
                &&& r is Some
                &&& r->Some_0@ == trace_of(
                    old(self).spec_scene(),
                    old(self).spec_scene().spec_camera_pos()@,
                    v_unit(v_add(old(self).spec_point()@, old(self).spec_right_step()@)),
                    0,
                )
            },
    {
        if self.x >= self.h_res {
            return Option::None;
        }
        self.x = self.x + 1;
        self.point = self.point.add(&self.right_step);
        let c = self.scene.trace(self.scene.camera_pos, self.point.normalize(), 0);
        Option::Some(c)
    }
}

impl Scene {
    pub fn get_camera_pos(&self) -> (r: Vec3d)
        ensures
            r == self.spec_camera_pos(),
    {
        self.camera_pos
    }

    pub fn get_camera_dir(&self) -> (r: Vec3d)
        ensures
            r == self.spec_camera_dir(),
    {
        self.camera_dir
    }

    /// An iterator over one scanline's colors at the given resolution.
    pub fn line_iter<'a>(&'a self, h: usize, v: usize, l: usize) -> (r: LineIter<'a>)
        requires
            scene_wf(*self),
            1 <= h <= 16384,
            1 <= v <= 16384,
            l <= 16384,
        ensures
            r.inv(),
            r.spec_scene() == *self,
            r.spec_h_res() == h,
            r.spec_x() == 0,
            r.spec_point()@ == line_setup(*self, h as int, v as int, l as int).0,
            r.spec_right_step()@ == line_setup(*self, h as int, v as int, l as int).1,
    {
        LineIter::new(self, h, v, l)
    }

    /// One scanline converted to 8 bits per channel: the single place
    /// where colors are clamped and quantized.
    pub fn line_iter_u8(&self, h: usize, v: usize, l: usize) -> (out: Vec<(u8, u8, u8)>)
        requires
            scene_wf(*self),
            1 <= h <= 16384,
            1 <= v <= 16384,
            l <= 16384,
        ensures
            out@.len() == h,
            forall|k: int|
                0 <= k < h ==> {
                    let px = #[trigger] out@[k];
                    let c = line_pixel(*self, h as int, v as int, l as int, k);
                    &&& px.0 as int == crate::color::chan_to_u8(c.r)
                    &&& px.1 as int == crate::color::chan_to_u8(c.g)
                    &&& px.2 as int == crate::color::chan_to_u8(c.b)
                },
    {
        let ghost setup = line_setup(*self, h as int, v as int, l as int);
        let mut it = self.line_iter(h, v, l);
        let mut out: Vec<(u8, u8, u8)> = Vec::new();
        let mut k: usize = 0;
        while k < h
            invariant
                it.inv(),
                it.spec_scene() == *self,
                it.spec_h_res() == h,
                it.spec_x() == k,
                k <= h,
                1 <= h <= 16384,
                1 <= v <= 16384,
                l <= 16384,
                setup == line_setup(*self, h as int, v as int, l as int),
                it.spec_right_step()@ == setup.1,
                it.spec_point()@ == steps(setup.0, setup.1, k as int),
                out@.len() == k,
                forall|j: int|
                    0 <= j < k ==> {
                        let px = #[trigger] out@[j];
                        let c = line_pixel(*self, h as int, v as int, l as int, j);
                        &&& px.0 as int == crate::color::chan_to_u8(c.r)
                        &&& px.1 as int == crate::color::chan_to_u8(c.g)
                        &&& px.2 as int == crate::color::chan_to_u8(c.b)
                    },
            decreases h - k,
        {
            let c = it.next().unwrap();
            out.push(c.to_u8_triple());
            k = k + 1;
        }
        out
    }
}

/// Reaching the depth bound ends the recursion at once: the trace of any
/// ray at that depth is black, whatever the scene holds.
pub proof fn lemma_trace_depth_exhausted(s: Scene, o: V3, d: V3, depth: int)
    requires
        depth >= s.spec_max_reflection(),
    ensures
        trace_of(s, o, d, depth) == c_zero(),
{
}

/// A shape reporting a hit strictly nearer than the light's distance
/// takes the point out of that light.
pub proof fn lemma_occluder_blocks(shapes: Seq<Shape>, p: V3, u: V3, dl: int, i: int)
    requires
        0 <= i < shapes.len(),
        blocked(shapes[i], p, u, dl),
    ensures
        !clear_path(shapes, p, u, dl),
{
}

/// A shadowed light contributes neither its diffuse nor its specular
/// term: the accumulated sum walks past it unchanged.
pub proof fn lemma_shadowed_light_adds_nothing(s: Scene, view: V3, hit: HitV, k: int)
    requires
        0 <= k < s.spec_lights().len(),
        !visible_of(s, hit.point, s.spec_lights()[k]),
    ensures
        light_acc(s, view, hit, k + 1) == light_acc(s, view, hit, k),
{
}

proof fn lemma_best_hit_none(shapes: Seq<Shape>, o: V3, d: V3, k: int)
    requires
        k <= shapes.len(),
        forall|i: int| 0 <= i < shapes.len() ==> shape_dist_of(#[trigger] shapes[i], o, d) is None,
    ensures
        best_hit(shapes, o, d, k) is None,
    decreases k,
{
    if k > 0 {
        lemma_best_hit_none(shapes, o, d, k - 1);
    }
}

/// A ray that escapes the scene comes back black: when no shape reports
/// a hit along it, its trace is exactly zero, at any depth.
pub proof fn lemma_all_miss_traces_black(s: Scene, o: V3, d: V3, depth: int)
    requires
        forall|i: int|
            0 <= i < s.spec_shapes().len() ==> shape_dist_of(
                #[trigger] s.spec_shapes()[i],
                o,
                d,
            ) is None,
    ensures
        trace_of(s, o, d, depth) == c_zero(),
{
    if depth < s.spec_max_reflection() {
        lemma_best_hit_none(s.spec_shapes(), o, d, s.spec_shapes().len() as int);
    }
}

/// An opaque sphere sitting squarely between a surface point and a
/// light shadows it: with the point at the origin, the light k whole
/// units up the Z axis and the sphere of radius j centered m units up
/// the axis (fitting strictly between the two), the point is not in
/// that light.
pub proof fn lemma_sphere_shadows_light(s: Scene, i: int, l: Light, m: int, j: int, k: int)
    requires
        0 <= i < s.spec_shapes().len(),
        s.spec_shapes()[i] is Sphere,
        (s.spec_shapes()[i]->Sphere_0).spec_center()@ == (V3 {
            x: 0,
            y: 0,
            z: m * (SCALE as int),
        }),
        (s.spec_shapes()[i]->Sphere_0).spec_radius() as int == j * (SCALE as int),
        l.spec_pos()@ == (V3 { x: 0, y: 0, z: k * (SCALE as int) }),
        0 < j < m <= 16384,
        m < k,
    ensures
        !visible_of(s, V3 { x: 0, y: 0, z: 0 }, l),
{
    let scale = SCALE as int;
    let p = V3 { x: 0, y: 0, z: 0 };
    let lp = l.spec_pos()@;
    assert(v_sub(lp, p) == lp);
    crate::vec3d::lemma_unit_axis_z(k);
    let u = v_unit(v_sub(lp, p));
    let dl = v_norm(v_sub(lp, p));
    assert(u == V3 { x: 0, y: 0, z: scale });
    assert(dl == k * scale);
    let sp = s.spec_shapes()[i]->Sphere_0;
    crate::sphere::lemma_sphere_head_on(m, j, sp.spec_material());
    assert(crate::sphere::sphere_dist_of(sp, p, u) == Option::Some((m - j) * scale));
    assert((m - j) * scale < k * scale);
    assert(blocked(s.spec_shapes()[i], p, u, dl));
    lemma_occluder_blocks(s.spec_shapes(), p, u, dl, i);
}

/// The end-to-end scenario, proved exactly: a scene holding one flat
/// white sphere ahead on the Z axis (no ambient or specular response,
/// no reflectivity) and one white light behind the camera on the same
/// axis traces the head-on ray to full white — the diffuse term at its
/// maximum, nothing shadowed, nothing reflected.
pub proof fn lemma_head_on_scene_is_white(s: Scene, m: int, j: int, k: int)
    requires
        s.spec_shapes().len() == 1,
        s.spec_shapes()[0] is Sphere,
        (s.spec_shapes()[0]->Sphere_0).spec_center()@ == (V3 {
            x: 0,
            y: 0,
            z: m * (SCALE as int),
        }),
        (s.spec_shapes()[0]->Sphere_0).spec_radius() as int == j * (SCALE as int),
        (s.spec_shapes()[0]->Sphere_0).spec_material().diffuse_color@ == (C3 {
            r: SCALE as int,
            g: SCALE as int,
            b: SCALE as int,
        }),
        (s.spec_shapes()[0]->Sphere_0).spec_material().ambient_color@ == c_zero(),
        (s.spec_shapes()[0]->Sphere_0).spec_material().specular_color@ == c_zero(),
        (s.spec_shapes()[0]->Sphere_0).spec_material().reflectivity == 0i64,
        s.spec_lights().len() == 1,
        s.spec_lights()[0].spec_pos()@ == (V3 { x: 0, y: 0, z: -(k * (SCALE as int)) }),
        s.spec_lights()[0].spec_color()@ == (C3 {
            r: SCALE as int,
            g: SCALE as int,
            b: SCALE as int,
        }),
        0 < j < m <= 16384,
        k >= 1,
        s.spec_max_reflection() >= 1,
    ensures
        trace_of(s, V3 { x: 0, y: 0, z: 0 }, V3 { x: 0, y: 0, z: SCALE as int }, 0) == (C3 {
            r: SCALE as int,
            g: SCALE as int,
            b: SCALE as int,
        }),
{
    let sc = SCALE as int;
    let white = C3 { r: sc, g: sc, b: sc };
    let o = V3 { x: 0, y: 0, z: 0 };
    let d = V3 { x: 0, y: 0, z: sc };
    let sp = s.spec_shapes()[0]->Sphere_0;
    let mat = sp.spec_material();
    assert(fmul(-sc, -sc) == sc && fmul(0, 0) == 0 && fmul(sc, sc) == sc && fmul(sc, -sc) == -sc
        && fmul(-sc, 2 * sc) == -(2 * sc) && fmul(-sc, 2 * (-sc)) == 2 * sc && fmul(sc, 0) == 0
        && fmul(0, sc) == 0) by (nonlinear_arith)
        requires
            sc == SCALE as int,
    ;
    // the nearest (and only) hit
    crate::sphere::lemma_sphere_head_on(m, j, mat);
    assert(shape_dist_of(s.spec_shapes()[0], o, d) == Option::Some((m - j) * sc));
    assert(best_hit(s.spec_shapes(), o, d, 0) is None);
    assert(best_hit(s.spec_shapes(), o, d, 1) == Option::Some((0int, (m - j) * sc)));
    let hit = HitV {
        point: V3 { x: 0, y: 0, z: (m - j) * sc },
        normal: V3 { x: 0, y: 0, z: -sc },
        material: mat,
    };
    assert(shape_hit_of(s.spec_shapes()[0], o, d) == Option::Some(hit));
    assert(closest_of(s, o, d) == Option::Some(hit));
    // nothing stands between the hit point and the light
    let l0 = s.spec_lights()[0];
    let lp = l0.spec_pos()@;
    assert(v_sub(lp, hit.point) == V3 { x: 0, y: 0, z: -((k + m - j) * sc) });
    crate::vec3d::lemma_unit_axis_neg_z(k + m - j);
    let u = v_unit(v_sub(lp, hit.point));
    let dl = v_norm(v_sub(lp, hit.point));
    assert(u == V3 { x: 0, y: 0, z: -sc });
    crate::sphere::lemma_sphere_away_miss(m, j);
    assert(shape_dist_of(s.spec_shapes()[0], hit.point, u) is None);
    assert forall|i: int|
        0 <= i < s.spec_shapes().len() implies !blocked(
        #[trigger] s.spec_shapes()[i],
        hit.point,
        u,
        dl,
    ) by {
        assert(i == 0);
    }
    assert(visible_of(s, hit.point, l0));
    // the light's Phong term is exactly white: full diffuse, no specular
    assert(v_dot(u, hit.normal) == sc);
    crate::vec3d::lemma_unit_axis_neg_z(m - j);
    assert(v_sub(o, hit.point) == V3 { x: 0, y: 0, z: -((m - j) * sc) });
    let v = v_unit(v_sub(o, hit.point));
    assert(v == V3 { x: 0, y: 0, z: -sc });
    let r = v_sub(v_scale(hit.normal, 2 * v_dot(hit.normal, u)), u);
    assert(fmul(-sc, 2 * sc) == -(2 * sc));
    assert(r == V3 { x: 0, y: 0, z: -sc });
    assert(v_dot(r, v) == sc);
    crate::fixed::lemma_fpow_one(mat.shininess as nat);
    crate::fixed::lemma_fmul_one(sc);
    assert(c_mul(l0.spec_color()@, mat.diffuse_color@) == white);
    assert(c_scale(white, sc) == white);
    assert(c_mul(l0.spec_color()@, mat.specular_color@) == c_zero());
    assert(phong_of(o, hit, l0) == white);
    // the sum over the single light, plus the black ambient term
    assert(light_acc(s, o, hit, 0) == c_zero());
    assert(light_acc(s, o, hit, 1) == white);
    // the reflected ray escapes and contributes nothing
    crate::vec3d::lemma_unit_axis_z(m - j);
    assert(v_sub(hit.point, o) == V3 { x: 0, y: 0, z: (m - j) * sc });
    let tmp = v_unit(v_sub(hit.point, o));
    assert(tmp == V3 { x: 0, y: 0, z: sc });
    assert(v_dot(tmp, hit.normal) == -sc);
    assert(fmul(-sc, 2 * (-sc)) == 2 * sc);
    let refl = v_sub(tmp, v_scale(hit.normal, 2 * v_dot(tmp, hit.normal)));
    assert(refl == V3 { x: 0, y: 0, z: -sc });
    assert forall|i: int|
        0 <= i < s.spec_shapes().len() implies shape_dist_of(
        #[trigger] s.spec_shapes()[i],
        hit.point,
        refl,
    ) is None by {
        assert(i == 0);
    }
    lemma_all_miss_traces_black(s, hit.point, refl, 1);
    assert(c_scale(c_zero(), mat.reflectivity as int) == c_zero());
    assert(trace_of(s, o, d, 0) == white);
}

/// Moving the camera forward and then back restores its position
/// exactly: vector addition and subtraction of the same direction cancel.
pub proof fn lemma_move_forward_back(p: V3, d: V3)
    ensures
        v_sub(v_add(p, d), d) == p,
        v_add(v_sub(p, d), d) == p,
{
}

} // verus!
