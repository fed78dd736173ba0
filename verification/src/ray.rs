//! Rays, and evaluation of points along them.

use vstd::prelude::*;

verus! {

use crate::fixed::{floor_div, div_floor_i128, lemma_mul_bound, lemma_floor_div_bound, SCALE, VMAX,
    T_LIMIT, T_EPS};
use crate::hitable_list::{HitableList, wf_list, scene_hit_spec};
use crate::material::scatter_spec;
use crate::rng::{Entropy, is_seeded, seed_state};
use crate::vec3::{Vec3, bounded, dotv, comp_mulv, unit_spec};

/// A half line: origin point plus direction.  The direction carries scale
/// `SCALE` but need not be unit length.
#[derive(Clone, Copy, PartialEq, Eq, Structural, Debug)]
pub struct Ray {
    pub origin: Vec3,
    pub dir: Vec3,
}

/// A ray the tracer can intersect: its origin is an in-range point and its
/// direction is bounded by four units of the coordinate limit.
pub open spec fn wf_ray(r: Ray) -> bool {
    &&& bounded(r.origin, VMAX as int)
    &&& bounded(r.dir, 4 * VMAX as int)
}

/// The point at parameter `t` along the ray: `origin + dir * t`, with the
/// product floor-rounded back to scale `SCALE` per component.
pub open spec fn ray_at_spec(r: Ray, t: int) -> Vec3 {
    Vec3 {
        x: (r.origin.x + floor_div(r.dir.x * t, SCALE as int)) as i64,
        y: (r.origin.y + floor_div(r.dir.y * t, SCALE as int)) as i64,
        z: (r.origin.z + floor_div(r.dir.z * t, SCALE as int)) as i64,
    }
}

impl Ray {
    /// The degenerate ray at the origin.
    pub fn zero() -> (r: Ray)
        ensures
            r.origin == (Vec3 { x: 0i64, y: 0i64, z: 0i64 }),
            r.dir == (Vec3 { x: 0i64, y: 0i64, z: 0i64 }),
    {
        Ray { origin: Vec3::zeros(), dir: Vec3::zeros() }
    }

    /// A ray from `origin` towards `dir`.
    pub fn new(origin: Vec3, dir: Vec3) -> (r: Ray)
        ensures
            r.origin == origin,
            r.dir == dir,
    {
        Ray { origin, dir }
    }

    /// The ray's origin.
    pub fn origin(&self) -> (r: Vec3)
        ensures
            r == self.origin,
    {
        self.origin
    }

    /// The ray's direction.
    pub fn dir(&self) -> (r: Vec3)
        ensures
            r == self.dir,
    {
        self.dir
    }

    /// The point at parameter `t` along the ray.
    pub fn at(&self, t: i64) -> (r: Vec3)
        requires
            wf_ray(*self),
            0 <= t <= T_LIMIT,
        ensures
            r == ray_at_spec(*self, t as int),
            bounded(r, VMAX + 18014398509481985),
    {
        proof {
            lemma_at_ok(*self, t as int);
        }
        Vec3 {
            x: self.origin.x + (div_floor_i128((self.dir.x as i128) * (t as i128), SCALE as i128)
                as i64),
            y: self.origin.y + (div_floor_i128((self.dir.y as i128) * (t as i128), SCALE as i128)
                as i64),
            z: self.origin.z + (div_floor_i128((self.dir.z as i128) * (t as i128), SCALE as i128)
                as i64),
        }
    }
}

/// A colour with every channel in `[0, 1]`.
pub open spec fn wf_color(v: Vec3) -> bool {
    &&& 0 <= v.x <= SCALE
    &&& 0 <= v.y <= SCALE
    &&& 0 <= v.z <= SCALE
}

/// The sky a ray that escapes the scene sees: white blended towards sky blue
/// by the normalised direction's height, `(1 - t) * white + t * blue` with
/// `t = (unit_dir.y + 1) / 2`.  A degenerate direction sees black.
pub open spec fn background_spec(r: Ray) -> Vec3 {
    if dotv(r.dir, r.dir) <= 0 {
        Vec3 { x: 0i64, y: 0i64, z: 0i64 }
    } else {
        let u = unit_spec(r.dir);
        let t = floor_div(u.y + SCALE, 2);
        Vec3 {
            x: ((SCALE - t) + floor_div(t * 32768, SCALE as int)) as i64,
            y: ((SCALE - t) + floor_div(t * 45875, SCALE as int)) as i64,
            z: ((SCALE - t) + floor_div(t * 65536, SCALE as int)) as i64,
        }
    }
}

/// The radiance seen along a ray: black once the bounce budget is spent;
/// otherwise the nearest hit's material scatters and attenuates the radiance
/// of the scattered ray, an absorbed ray is black, and a miss sees the
/// background.  The generator state is threaded through every draw.
pub open spec fn color_spec(objs: Seq<crate::sphere::Sphere>, r: Ray, depth: u32, s: u64) -> (Vec3, u64)
    decreases depth,
{
    if depth == 0 {
        (Vec3 { x: 0i64, y: 0i64, z: 0i64 }, s)
    } else {
        match scene_hit_spec(objs, r, T_EPS as int, T_LIMIT as int) {
            None => (background_spec(r), s),
            Some(h) => {
                let o = scatter_spec(h.mat, r, h, s);
                match o.0 {
                    None => (Vec3 { x: 0i64, y: 0i64, z: 0i64 }, o.1),
                    Some((att, sc)) => {
                        let rest = color_spec(objs, sc, (depth - 1) as u32, o.1);
                        (comp_mulv(att, rest.0), rest.1)
                    },
                }
            },
        }
    }
}

impl Ray {
    /// The sky colour this ray sees when it escapes the scene.
    pub fn background(&self) -> (res: Vec3)
        requires
            wf_ray(*self),
        ensures
            res == background_spec(*self),
            wf_color(res),
    {
        let d = self.dir.dot_raw(&self.dir);
        if d <= 0 {
            return Vec3::zeros();
        }
        let u = self.dir.unit_vector();
        let t = div_floor_i128((u.y as i128) + (SCALE as i128), 2) as i64;
        proof {
            lemma_bg_term(t as int, 32768);
            lemma_bg_term(t as int, 45875);
            lemma_bg_term(t as int, 65536);
        }
        Vec3 {
            x: (SCALE - t) + (div_floor_i128((t as i128) * 32768, SCALE as i128) as i64),
            y: (SCALE - t) + (div_floor_i128((t as i128) * 45875, SCALE as i128) as i64),
            z: (SCALE - t) + (div_floor_i128((t as i128) * 65536, SCALE as i128) as i64),
        }
    }

    /// The radiance seen along this ray, following at most `depth` bounces:
    /// black once the budget is spent, the background on a miss, and
    /// otherwise the material's attenuation times the scattered ray's
    /// radiance (black if the material absorbed the ray).
    pub fn color(&self, world: &HitableList, depth: u32, e: &mut Entropy) -> (res: Vec3)
        requires
            wf_ray(*self),
            wf_list(world.objects@),
        ensures
            wf_color(res),
            depth == 0 ==> res == (Vec3 { x: 0i64, y: 0i64, z: 0i64 }),
            is_seeded(*old(e)) ==> ({
                let o = color_spec(world.objects@, *self, depth, seed_state(*old(e)));
                res == o.0 && *final(e) == (Entropy::Seeded { state: o.1 })
            }),
            !is_seeded(*old(e)) ==> *final(e) == *old(e),
        decreases depth,
    {
        if depth == 0 {
            return Vec3::zeros();
        }
        let hit = world.hit(self, T_EPS, T_LIMIT);
        if let Some(h) = hit {
            let is_scattered = h.mat.scatter(self, &h, e);
            if let Some((attenuation, scattered)) = is_scattered {
                let rest = scattered.color(world, depth - 1, e);
                proof {
                    lemma_comp_mul_color(attenuation, rest);
                }
                attenuation.comp_mul(&rest)
            } else {
                Vec3::zeros()
            }
        } else {
            self.background()
        }
    }
}

/// The flat debug shading of a ray: `0.5 * (normal + 1)` per channel at the
/// nearest hit, the background on a miss.
pub open spec fn normal_color_spec(objs: Seq<crate::sphere::Sphere>, r: Ray) -> Vec3 {
    match scene_hit_spec(objs, r, T_EPS as int, T_LIMIT as int) {
        Some(h) => Vec3 {
            x: floor_div(h.normal.x + SCALE, 2) as i64,
            y: floor_div(h.normal.y + SCALE, 2) as i64,
            z: floor_div(h.normal.z + SCALE, 2) as i64,
        },
        None => background_spec(r),
    }
}

impl Ray {
    /// The debug shading of this ray: a miss shows the background gradient
    /// and a hit shows the surface normal, mapped to `0.5 * (normal + 1)` per
    /// channel.
    pub fn normal_color(&self, world: &HitableList) -> (res: Vec3)
        requires
            wf_ray(*self),
            wf_list(world.objects@),
        ensures
            res == normal_color_spec(world.objects@, *self),
            bounded(res, 2 * SCALE),
    {
        let hit = world.hit(self, T_EPS, T_LIMIT);
        if let Some(h) = hit {
            Vec3 {
                x: div_floor_i128((h.normal.x as i128) + (SCALE as i128), 2) as i64,
                y: div_floor_i128((h.normal.y as i128) + (SCALE as i128), 2) as i64,
                z: div_floor_i128((h.normal.z as i128) + (SCALE as i128), 2) as i64,
            }
        } else {
            self.background()
        }
    }
}

/// At any positive depth, a ray that hits nothing sees exactly the
/// background gradient.
pub proof fn lemma_color_miss(objs: Seq<crate::sphere::Sphere>, r: Ray, depth: u32, s: u64)
    requires
        depth > 0,
        scene_hit_spec(objs, r, T_EPS as int, T_LIMIT as int) is None,
    ensures
        color_spec(objs, r, depth, s).0 == background_spec(r),
        color_spec(objs, r, depth, s).1 == s,
{
}

/// One blended channel of the background stays within one unit.
proof fn lemma_bg_term(t: int, b: int)
    requires
        0 <= t <= SCALE,
        0 <= b <= SCALE,
    ensures
        0 <= floor_div(t * b, SCALE as int) <= t,
        -85070591730234615865843651857942052864 < t * b
            < 85070591730234615865843651857942052864,
{
    lemma_mul_bound(t, b, SCALE as int, SCALE as int);
    assert(t * b >= 0) by (nonlinear_arith)
        requires t >= 0 && b >= 0;
    assert(t * b <= t * SCALE) by (nonlinear_arith)
        requires b <= SCALE && t >= 0;
    vstd::arithmetic::div_mod::lemma_div_is_ordered(0, t * b, SCALE as int);
    vstd::arithmetic::div_mod::lemma_div_is_ordered(t * b, t * SCALE, SCALE as int);
    vstd::arithmetic::div_mod::lemma_div_multiples_vanish(t, SCALE as int);
    assert((SCALE as int) * t == t * SCALE) by (nonlinear_arith);
}

/// The componentwise product of two unit-range colours is a unit-range
/// colour.
proof fn lemma_comp_mul_color(a: Vec3, b: Vec3)
    requires
        wf_color(a),
        wf_color(b),
    ensures
        wf_color(comp_mulv(a, b)),
{
    lemma_bg_term(a.x as int, b.x as int);
    lemma_bg_term(a.y as int, b.y as int);
    lemma_bg_term(a.z as int, b.z as int);
}

/// Overflow and range facts for `Ray::at`.
proof fn lemma_at_ok(r: Ray, t: int)
    requires
        wf_ray(r),
        0 <= t <= T_LIMIT,
    ensures
        -85070591730234615865843651857942052864 < r.dir.x * t < 85070591730234615865843651857942052864,
        -85070591730234615865843651857942052864 < r.dir.y * t < 85070591730234615865843651857942052864,
        -85070591730234615865843651857942052864 < r.dir.z * t < 85070591730234615865843651857942052864,
        -18014398509481985 <= floor_div(r.dir.x * t, SCALE as int) <= 18014398509481984,
        -18014398509481985 <= floor_div(r.dir.y * t, SCALE as int) <= 18014398509481984,
        -18014398509481985 <= floor_div(r.dir.z * t, SCALE as int) <= 18014398509481984,
{
    let m: int = 4 * (VMAX as int) * (T_LIMIT as int);
    lemma_mul_bound(r.dir.x as int, t, 4 * VMAX as int, T_LIMIT as int);
    lemma_mul_bound(r.dir.y as int, t, 4 * VMAX as int, T_LIMIT as int);
    lemma_mul_bound(r.dir.z as int, t, 4 * VMAX as int, T_LIMIT as int);
    assert(4 * (VMAX as int) * (T_LIMIT as int) == (4 * VMAX as int) * (T_LIMIT as int))
        by (nonlinear_arith);
    lemma_floor_div_bound(r.dir.x * t, m, SCALE as int);
    lemma_floor_div_bound(r.dir.y * t, m, SCALE as int);
    lemma_floor_div_bound(r.dir.z * t, m, SCALE as int);
    assert(m / (SCALE as int) == 18014398509481984) by (nonlinear_arith)
        requires m == 4 * (VMAX as int) * (T_LIMIT as int);
}

} // verus!
