//! Spheres and their ray intersection test.
//!
//! The quadratic `|O + tD - C|^2 = r^2` is solved in exact integer
//! arithmetic: the coefficients are exact at scale `SCALE^2`, its
//! discriminant at scale `SCALE^4`, and only the square root and the final
//! divisions round (downward).  The whole computation is mirrored by
//! `sphere_hit_spec`, so the returned record is pinned exactly.

use vstd::prelude::*;

verus! {

use crate::fixed::{
    floor_div, sqrt_floor, is_sqrt_floor, lemma_sqrt_floor, lemma_sqrt_floor_unique,
    lemma_mul_bound, lemma_floor_div_bound, lemma_floor_div_ordered, div_floor_i128, isqrt_u128,
    SCALE, VMAX, T_LIMIT, BIG,
};
use crate::aabb::{Aabb, wf_aabb};
use crate::hitable::{HitRecord, oriented_normal, wf_rec};
use crate::material::{Material, wf_material};
use crate::ray::{Ray, wf_ray, ray_at_spec};
use crate::vec3::{Vec3, bounded, dotv, subv};

/// A sphere: centre, radius and the material of its surface.  A zero or
/// negative radius is rejected at construction, before any rendering starts.
#[derive(Clone, Copy, PartialEq, Eq, Structural, Debug)]
pub struct Sphere {
    pub center: Vec3,
    pub radius: i64,
    pub mat: Material,
}

/// A sphere the tracer can intersect: centre in range, radius positive and in
/// range, material parameters in range.
pub open spec fn wf_sphere(s: Sphere) -> bool {
    &&& bounded(s.center, VMAX as int)
    &&& 0 < s.radius <= VMAX
    &&& wf_material(s.mat)
}

/// `|D|^2`, the leading coefficient of the intersection quadratic (scale
/// `SCALE^2`).
pub open spec fn sph_aq(r: Ray) -> int {
    dotv(r.dir, r.dir)
}

/// The offset from centre to ray origin.
pub open spec fn sph_oc(s: Sphere, r: Ray) -> Vec3 {
    subv(r.origin, s.center)
}

/// `(O - C) . D`, half the linear coefficient (scale `SCALE^2`).
pub open spec fn sph_hb(s: Sphere, r: Ray) -> int {
    dotv(sph_oc(s, r), r.dir)
}

/// `|O - C|^2 - r^2`, the constant coefficient (scale `SCALE^2`).
pub open spec fn sph_cq(s: Sphere, r: Ray) -> int {
    dotv(sph_oc(s, r), sph_oc(s, r)) - s.radius * s.radius
}

/// The discriminant `hb^2 - a c` (scale `SCALE^4`); exact.
pub open spec fn sph_disc(s: Sphere, r: Ray) -> int {
    sph_hb(s, r) * sph_hb(s, r) - sph_aq(r) * sph_cq(s, r)
}

/// The accepted root of the quadratic within `(t_min, t_max]`, if any: the
/// smaller root is preferred, the larger tried when the smaller falls outside
/// the interval.  A degenerate direction or a negative discriminant yields
/// nothing.
pub open spec fn sph_root(s: Sphere, r: Ray, t_min: int, t_max: int) -> Option<int> {
    let aq = sph_aq(r);
    let disc = sph_disc(s, r);
    if aq <= 0 || disc < 0 {
        None
    } else {
        let sq = sqrt_floor(disc);
        let hb = sph_hb(s, r);
        let root1 = floor_div((-hb - sq) * SCALE, aq);
        if t_min < root1 <= t_max {
            Some(root1)
        } else {
            let root2 = floor_div((-hb + sq) * SCALE, aq);
            if t_min < root2 <= t_max {
                Some(root2)
            } else {
                None
            }
        }
    }
}

/// The record built for an accepted root: hit point, outward normal
/// `(p - C) / r` oriented against the ray, side flag and material.  A point
/// or normal pushed out of range by rounding is discarded instead.
pub open spec fn sphere_rec(s: Sphere, r: Ray, t: int) -> Option<HitRecord> {
    let p = ray_at_spec(r, t);
    if !bounded(p, VMAX as int) {
        None
    } else {
        let n = Vec3 {
            x: floor_div((p.x - s.center.x) * SCALE, s.radius as int) as i64,
            y: floor_div((p.y - s.center.y) * SCALE, s.radius as int) as i64,
            z: floor_div((p.z - s.center.z) * SCALE, s.radius as int) as i64,
        };
        if !bounded(n, 2 * SCALE) {
            None
        } else {
            Some(HitRecord {
                p,
                normal: oriented_normal(r.dir, n),
                mat: s.mat,
                t: t as i64,
                front_face: dotv(r.dir, n) < 0,
            })
        }
    }
}

/// The full intersection outcome for a sphere.
pub open spec fn sphere_hit_spec(s: Sphere, r: Ray, t_min: int, t_max: int) -> Option<HitRecord> {
    match sph_root(s, r, t_min, t_max) {
        None => None,
        Some(t) => sphere_rec(s, r, t),
    }
}

/// Magnitude bounds on the quadratic's quantities for an in-range sphere and
/// ray.
pub proof fn lemma_sph_bounds(s: Sphere, r: Ray)
    requires
        wf_sphere(s),
        wf_ray(r),
    ensures
        bounded(sph_oc(s, r), 536870912),
        0 <= sph_aq(r) <= 3458764513820540928,
        -1729382256910270464 <= sph_hb(s, r) <= 1729382256910270464,
        -72057594037927936 <= sph_cq(s, r) <= 936748722493063168,
        sph_disc(s, r) < 6260625791469138724997163024821453783,
        -6260625791469138724997163024821453783 < sph_disc(s, r),
{
    lemma_mul_bound(r.dir.x as int, r.dir.x as int, 1073741824, 1073741824);
    lemma_mul_bound(r.dir.y as int, r.dir.y as int, 1073741824, 1073741824);
    lemma_mul_bound(r.dir.z as int, r.dir.z as int, 1073741824, 1073741824);
    assert(r.dir.x * r.dir.x >= 0 && r.dir.y * r.dir.y >= 0 && r.dir.z * r.dir.z >= 0)
        by (nonlinear_arith);
    let oc = sph_oc(s, r);
    lemma_mul_bound(oc.x as int, r.dir.x as int, 536870912, 1073741824);
    lemma_mul_bound(oc.y as int, r.dir.y as int, 536870912, 1073741824);
    lemma_mul_bound(oc.z as int, r.dir.z as int, 536870912, 1073741824);
    lemma_mul_bound(oc.x as int, oc.x as int, 536870912, 536870912);
    lemma_mul_bound(oc.y as int, oc.y as int, 536870912, 536870912);
    lemma_mul_bound(oc.z as int, oc.z as int, 536870912, 536870912);
    assert(oc.x * oc.x >= 0 && oc.y * oc.y >= 0 && oc.z * oc.z >= 0) by (nonlinear_arith);
    lemma_mul_bound(s.radius as int, s.radius as int, VMAX as int, VMAX as int);
    assert(s.radius * s.radius >= 0) by (nonlinear_arith);
    lemma_mul_bound(sph_hb(s, r), sph_hb(s, r), 1729382256910270464, 1729382256910270464);
    lemma_mul_bound(sph_aq(r), sph_cq(s, r), 3458764513820540928, 936748722493063168);
}

/// A ray fired straight at the centre hits at the distance to the centre
/// less the radius: when the direction is exactly `center - origin` and its
/// raw length is a whole number `n` (its squared length `n * n`), the
/// accepted parameter is exactly `(n - radius) * SCALE / n` — the real ratio
/// `(distance - radius) / distance`, floor-rounded, in this
/// parameterisation of the ray.
pub proof fn lemma_head_on_hit(s: Sphere, r: Ray, t_min: int, t_max: int, n: int)
    requires
        wf_sphere(s),
        wf_ray(r),
        r.dir == subv(s.center, r.origin),
        sph_aq(r) == n * n,
        0 < n,
        s.radius < n,
        t_min < floor_div((n - s.radius) * SCALE, n) <= t_max,
    ensures
        sph_root(s, r, t_min, t_max) == Some(floor_div((n - s.radius) * SCALE, n)),
{
    let d = r.dir;
    let oc = sph_oc(s, r);
    let aq = sph_aq(r);
    let rad = s.radius as int;
    assert(oc == crate::vec3::negv(d));
    crate::vec3::lemma_dotv_neg(d, d);
    assert(dotv(oc, d) == -aq) by {
        assert(dotv(crate::vec3::negv(d), d) == -dotv(d, d));
    };
    assert(dotv(oc, oc) == aq) by {
        crate::vec3::lemma_dotv_neg(d, crate::vec3::negv(d));
        assert(dotv(crate::vec3::negv(d), crate::vec3::negv(d)) == -dotv(d, crate::vec3::negv(
            d,
        )));
        assert(dotv(d, crate::vec3::negv(d)) == -dotv(d, d));
    };
    assert(sph_hb(s, r) == -aq);
    assert(sph_cq(s, r) == aq - rad * rad);
    assert(sph_disc(s, r) == aq * (rad * rad)) by (nonlinear_arith)
        requires sph_disc(s, r) == (-aq) * (-aq) - aq * (aq - rad * rad);
    let nr = n * rad;
    assert(0 <= nr && nr * nr <= aq * (rad * rad) && aq * (rad * rad) < (nr + 1) * (nr + 1))
        by (nonlinear_arith)
        requires aq == n * n && nr == n * rad && 0 < n && 0 < rad;
    assert(is_sqrt_floor(aq * (rad * rad), nr));
    lemma_sqrt_floor(aq * (rad * rad));
    lemma_sqrt_floor_unique(aq * (rad * rad), nr, sqrt_floor(aq * (rad * rad)));
    let num = (aq - nr) * SCALE;
    assert(num == n * ((n - rad) * SCALE)) by (nonlinear_arith)
        requires aq == n * n && nr == n * rad && num == (aq - nr) * SCALE;
    assert(aq == n * n);
    vstd::arithmetic::div_mod::lemma_div_multiples_vanish_quotient(n, (n - rad) * SCALE, n);
    assert((n - rad) * SCALE >= 0) by (nonlinear_arith)
        requires rad < n && SCALE > 0;
    assert(floor_div(num, aq) == floor_div((n - rad) * SCALE, n));
    assert(sph_disc(s, r) >= 0) by (nonlinear_arith)
        requires sph_disc(s, r) == aq * (rad * rad) && aq > 0 && rad > 0;
    assert(aq > 0) by (nonlinear_arith)
        requires aq == n * n && 0 < n;
}

/// A ray that misses the sphere sideways hits nothing: when the squared
/// perpendicular offset of the centre from the ray's line exceeds the squared
/// radius — `|oc|^2 |D|^2 - (oc . D)^2 > r^2 |D|^2` — the discriminant is
/// negative and no intersection is reported, whatever the interval.
pub proof fn lemma_sphere_miss(s: Sphere, r: Ray, t_min: int, t_max: int)
    requires
        dotv(sph_oc(s, r), sph_oc(s, r)) * sph_aq(r) - sph_hb(s, r) * sph_hb(s, r) > (s.radius
            * s.radius) * sph_aq(r),
    ensures
        sphere_hit_spec(s, r, t_min, t_max) is None,
{
    let aq = sph_aq(r);
    let o2 = dotv(sph_oc(s, r), sph_oc(s, r));
    let r2 = s.radius * s.radius;
    assert(aq * (o2 - r2) == o2 * aq - r2 * aq) by (nonlinear_arith);
    assert(sph_disc(s, r) < 0);
}

/// The recorded normal always opposes the incoming ray, strictly so on a
/// front face.
pub proof fn lemma_normal_orientation(s: Sphere, r: Ray, t_min: int, t_max: int)
    ensures
        sphere_hit_spec(s, r, t_min, t_max) matches Some(h) ==> dotv(r.dir, h.normal) <= 0 && (
        h.front_face ==> dotv(r.dir, h.normal) < 0),
{
    if sphere_hit_spec(s, r, t_min, t_max) is Some {
        let t = sph_root(s, r, t_min, t_max)->0;
        let p = ray_at_spec(r, t);
        let n = Vec3 {
            x: floor_div((p.x - s.center.x) * SCALE, s.radius as int) as i64,
            y: floor_div((p.y - s.center.y) * SCALE, s.radius as int) as i64,
            z: floor_div((p.z - s.center.z) * SCALE, s.radius as int) as i64,
        };
        crate::vec3::lemma_dotv_neg(n, r.dir);
    }
}

/// A sphere hit's parameter lies inside the query interval.
pub proof fn lemma_sphere_hit_t_range(s: Sphere, r: Ray, t_min: int, t_max: int)
    requires
        0 <= t_min,
        t_max <= T_LIMIT,
    ensures
        sphere_hit_spec(s, r, t_min, t_max) matches Some(h) ==> t_min < h.t <= t_max,
{
}

/// Lowering the far end of the interval keeps a hit exactly when its
/// parameter still lies within: the smaller-root-first search never produces
/// a different intersection for a narrower interval.
pub proof fn lemma_sphere_hit_shrink(s: Sphere, r: Ray, t_min: int, t_mid: int, t_max: int)
    requires
        0 <= t_min <= t_mid <= t_max <= T_LIMIT,
    ensures
        sphere_hit_spec(s, r, t_min, t_mid) == (match sphere_hit_spec(s, r, t_min, t_max) {
            Some(h) => if h.t <= t_mid {
                Some(h)
            } else {
                None::<HitRecord>
            },
            None => None::<HitRecord>,
        }),
{
    let aq = sph_aq(r);
    let disc = sph_disc(s, r);
    if aq > 0 && disc >= 0 {
        let sq = sqrt_floor(disc);
        let hb = sph_hb(s, r);
        lemma_sqrt_floor(disc);
        assert((-hb - sq) * SCALE <= (-hb + sq) * SCALE) by (nonlinear_arith)
            requires sq >= 0;
        lemma_floor_div_ordered((-hb - sq) * SCALE, (-hb + sq) * SCALE, aq);
    }
}

impl Sphere {
    /// A sphere from centre, radius and material.  The caller must supply a
    /// positive in-range radius; a malformed sphere is refused here, at scene
    /// construction, not in the render loop.
    pub fn new(center: Vec3, radius: i64, mat: Material) -> (r: Sphere)
        requires
            bounded(center, VMAX as int),
            0 < radius <= VMAX,
            wf_material(mat),
        ensures
            r == (Sphere { center, radius, mat }),
            wf_sphere(r),
    {
        Sphere { center, radius, mat }
    }

    /// The nearest intersection of `r` with this sphere whose parameter lies
    /// in `(t_min, t_max]`, if any.
    pub fn hit(&self, r: &Ray, t_min: i64, t_max: i64) -> (res: Option<HitRecord>)
        requires
            wf_sphere(*self),
            wf_ray(*r),
            0 <= t_min <= t_max <= T_LIMIT,
        ensures
            res == sphere_hit_spec(*self, *r, t_min as int, t_max as int),
            res matches Some(h) ==> wf_rec(h) && h.mat == self.mat && t_min < h.t <= t_max
                && dotv(r.dir, h.normal) <= 0 && dotv(r.dir, r.dir) > 0,
    {
        let ocx: i64 = r.origin.x - self.center.x;
        let ocy: i64 = r.origin.y - self.center.y;
        let ocz: i64 = r.origin.z - self.center.z;
        let dx: i64 = r.dir.x;
        let dy: i64 = r.dir.y;
        let dz: i64 = r.dir.z;
        proof {
            lemma_sph_bounds(*self, *r);
            lemma_mul_bound(dx as int, dx as int, 1073741824, 1073741824);
            lemma_mul_bound(dy as int, dy as int, 1073741824, 1073741824);
            lemma_mul_bound(dz as int, dz as int, 1073741824, 1073741824);
            lemma_mul_bound(ocx as int, dx as int, 536870912, 1073741824);
            lemma_mul_bound(ocy as int, dy as int, 536870912, 1073741824);
            lemma_mul_bound(ocz as int, dz as int, 536870912, 1073741824);
            lemma_mul_bound(ocx as int, ocx as int, 536870912, 536870912);
            lemma_mul_bound(ocy as int, ocy as int, 536870912, 536870912);
            lemma_mul_bound(ocz as int, ocz as int, 536870912, 536870912);
            lemma_mul_bound(self.radius as int, self.radius as int, VMAX as int, VMAX as int);
        }
        let aq: i128 = (dx as i128) * (dx as i128) + (dy as i128) * (dy as i128) + (dz as i128)
            * (dz as i128);
        if aq <= 0 {
            return None;
        }
        let hb: i128 = (ocx as i128) * (dx as i128) + (ocy as i128) * (dy as i128) + (ocz as i128)
            * (dz as i128);
        let cq: i128 = (ocx as i128) * (ocx as i128) + (ocy as i128) * (ocy as i128) + (ocz
            as i128) * (ocz as i128) - (self.radius as i128) * (self.radius as i128);
        proof {
            lemma_mul_bound(hb as int, hb as int, 1729382256910270464, 1729382256910270464);
            lemma_mul_bound(aq as int, cq as int, 3458764513820540928, 936748722493063168);
        }
        let disc: i128 = hb * hb - aq * cq;
        if disc < 0 {
            return None;
        }
        let sq_u = isqrt_u128(disc as u128);
        proof {
            lemma_sqrt_floor(disc as int);
            assert(sqrt_floor(disc as int) <= 4611686018427387904) by {
                if sqrt_floor(disc as int) > 4611686018427387904 {
                    assert(sqrt_floor(disc as int) * sqrt_floor(disc as int)
                        > 4611686018427387904 * 4611686018427387904) by (nonlinear_arith)
                        requires sqrt_floor(disc as int) > 4611686018427387904;
                    assert(4611686018427387904int * 4611686018427387904
                        > 6260625791469138724997163024821453783) by (nonlinear_arith);
                }
            };
        }
        let sq: i128 = sq_u as i128;
        proof {
            lemma_mul_bound(-(hb as int) - (sq as int), SCALE as int, 6341068275337658368,
                SCALE as int);
            lemma_mul_bound(-(hb as int) + (sq as int), SCALE as int, 6341068275337658368,
                SCALE as int);
        }
        let num1: i128 = (-hb - sq) * (SCALE as i128);
        let root1: i128 = div_floor_i128(num1, aq);
        let root: i128 = if root1 <= t_min as i128 || root1 > t_max as i128 {
            let num2: i128 = (-hb + sq) * (SCALE as i128);
            let root2: i128 = div_floor_i128(num2, aq);
            if root2 <= t_min as i128 || root2 > t_max as i128 {
                return None;
            }
            root2
        } else {
            root1
        };
        let t: i64 = root as i64;
        let p = r.at(t);
        if p.x < -VMAX || p.x > VMAX || p.y < -VMAX || p.y > VMAX || p.z < -VMAX || p.z > VMAX {
            return None;
        }
        proof {
            lemma_normal_div_ok(p.x as int, self.center.x as int, self.radius as int);
            lemma_normal_div_ok(p.y as int, self.center.y as int, self.radius as int);
            lemma_normal_div_ok(p.z as int, self.center.z as int, self.radius as int);
        }
        let nx: i64 = div_floor_i128(((p.x - self.center.x) as i128) * (SCALE as i128),
            self.radius as i128) as i64;
        let ny: i64 = div_floor_i128(((p.y - self.center.y) as i128) * (SCALE as i128),
            self.radius as i128) as i64;
        let nz: i64 = div_floor_i128(((p.z - self.center.z) as i128) * (SCALE as i128),
            self.radius as i128) as i64;
        if nx < -2 * SCALE || nx > 2 * SCALE || ny < -2 * SCALE || ny > 2 * SCALE || nz < -2
            * SCALE || nz > 2 * SCALE {
            return None;
        }
        let outward = Vec3 { x: nx, y: ny, z: nz };
        let mut rec = HitRecord::default();
        rec.t = t;
        rec.p = p;
        rec.mat = self.mat;
        rec.set_face_normal(r, outward);
        Some(rec)
    }
}

/// The box `[center - radius, center + radius]`, componentwise.
pub open spec fn sphere_bbox_spec(s: Sphere) -> Aabb {
    Aabb {
        min: Vec3 {
            x: (s.center.x - s.radius) as i64,
            y: (s.center.y - s.radius) as i64,
            z: (s.center.z - s.radius) as i64,
        },
        max: Vec3 {
            x: (s.center.x + s.radius) as i64,
            y: (s.center.y + s.radius) as i64,
            z: (s.center.z + s.radius) as i64,
        },
    }
}

impl Sphere {
    /// The sphere's axis-aligned bounding box,
    /// `[center - radius, center + radius]` componentwise.
    pub fn bounding_box(&self) -> (r: Option<Aabb>)
        requires
            wf_sphere(*self),
        ensures
            r == Some(sphere_bbox_spec(*self)),
            wf_aabb(sphere_bbox_spec(*self)),
    {
        let rvec = Vec3::new(self.radius, self.radius, self.radius);
        Some(Aabb { min: self.center.minus(&rvec), max: self.center.plus(&rvec) })
    }
}

/// The normal's division stays in range: `|(p_i - c_i) * SCALE / radius|`
/// never leaves `i64`.
proof fn lemma_normal_div_ok(p: int, c: int, radius: int)
    requires
        -(VMAX as int) <= p <= VMAX as int,
        -(VMAX as int) <= c <= VMAX as int,
        0 < radius <= VMAX as int,
    ensures
        -BIG < (p - c) * SCALE < BIG,
        -35184372088833 <= floor_div((p - c) * SCALE, radius) <= 35184372088832,
{
    lemma_mul_bound(p - c, SCALE as int, 536870912, SCALE as int);
    lemma_floor_div_bound((p - c) * SCALE, 536870912 * (SCALE as int), radius);
    assert(536870912 * (SCALE as int) == 35184372088832) by (nonlinear_arith);
    assert(536870912 * (SCALE as int) / 1int == 35184372088832);
    lemma_floor_div_bound((p - c) * SCALE, 35184372088832, radius);
    assert(35184372088832int / radius <= 35184372088832) by (nonlinear_arith)
        requires 0 < radius;
    assert(floor_div((p - c) * SCALE, radius) <= 35184372088832int / radius) by {
        lemma_floor_div_bound((p - c) * SCALE, 35184372088832, radius);
    };
}

} // verus!
