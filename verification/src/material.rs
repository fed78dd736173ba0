//! Surface materials and their scattering behaviour.

use vstd::prelude::*;

verus! {

use crate::fixed::{
    floor_div, sqrt_floor, fp_mul_spec, fp_div_spec, lemma_sqrt_floor, lemma_mul_bound,
    lemma_fp_mul_bound, lemma_fp_div_bound, lemma_floor_div_bound, div_floor_i128, isqrt_u128,
    SCALE, VMAX,
};
use crate::hitable::{HitRecord, wf_rec};
use crate::ray::{Ray, wf_ray};
use crate::rng::{Entropy, is_seeded, seed_state, lcg_next, draw_below};
use crate::vec3::{
    Vec3, bounded, dotv, addv, scalev, unit_spec, reflect_spec, refract_spec, refract_cos,
    unit_sphere_spec,
};

/// A diffuse surface with the given albedo colour.
#[derive(Clone, Copy, PartialEq, Eq, Structural, Debug)]
pub struct Lambertian {
    pub albedo: Vec3,
}

/// A reflective surface with the given albedo and fuzz radius.
#[derive(Clone, Copy, PartialEq, Eq, Structural, Debug)]
pub struct Metal {
    pub albedo: Vec3,
    pub fuzz: i64,
}

/// A clear refractive surface with the given refractive index.
#[derive(Clone, Copy, PartialEq, Eq, Structural, Debug)]
pub struct Dielectric {
    pub ir: i64,
}

/// The closed set of materials a surface can carry.
#[derive(Clone, Copy, PartialEq, Eq, Structural, Debug)]
pub enum Material {
    Lambertian(Lambertian),
    Metal(Metal),
    Dielectric(Dielectric),
}

/// A colour channel lies in `[0, 1]`.
pub open spec fn wf_albedo(a: Vec3) -> bool {
    &&& 0 <= a.x <= SCALE
    &&& 0 <= a.y <= SCALE
    &&& 0 <= a.z <= SCALE
}

/// Material parameters in range: albedo channels in `[0, 1]`, fuzz in
/// `[0, 1]`, refractive index between one quarter and four.
pub open spec fn wf_material(m: Material) -> bool {
    match m {
        Material::Lambertian(l) => wf_albedo(l.albedo),
        Material::Metal(mt) => wf_albedo(mt.albedo) && 0 <= mt.fuzz <= SCALE,
        Material::Dielectric(d) => SCALE / 4 <= d.ir <= 4 * SCALE,
    }
}

/// What a diffuse surface does with the unit draw `u`: scatter towards
/// `normal + u`, or along the normal itself when that sum is the zero vector.
pub open spec fn lambertian_dir(rec: HitRecord, u: Vec3) -> Vec3 {
    let d0 = addv(rec.normal, unit_spec(u));
    if d0.x == 0 && d0.y == 0 && d0.z == 0 {
        rec.normal
    } else {
        d0
    }
}

/// A diffuse scatter from generator state `s`: always a ray from the hit
/// point, attenuated by the albedo.
pub open spec fn lambertian_scatter_spec(l: Lambertian, rec: HitRecord, s: u64) -> (Option<
    (Vec3, Ray),
>, u64) {
    let p = unit_sphere_spec(s, 64);
    (Some((l.albedo, Ray { origin: rec.p, dir: lambertian_dir(rec, p.0) })), p.1)
}

/// What a reflective surface does with the fuzz draw `fz`: the incoming unit
/// direction mirrored about the normal, perturbed by `fuzz * fz`.
pub open spec fn metal_dir(mt: Metal, r_in: Ray, rec: HitRecord, fz: Vec3) -> Vec3 {
    addv(reflect_spec(unit_spec(r_in.dir), rec.normal), scalev(fz, mt.fuzz as int))
}

/// A reflective scatter from generator state `s`: a ray from the hit point
/// when the perturbed reflection leaves the surface, absorption otherwise.
pub open spec fn metal_scatter_spec(mt: Metal, r_in: Ray, rec: HitRecord, s: u64) -> (Option<
    (Vec3, Ray),
>, u64) {
    let p = unit_sphere_spec(s, 64);
    let dir = metal_dir(mt, r_in, rec, p.0);
    (
        if dotv(dir, rec.normal) > 0 {
            Some((mt.albedo, Ray { origin: rec.p, dir }))
        } else {
            None
        },
        p.1,
    )
}

/// Schlick's approximation of reflectance:
/// `r0 + (1 - r0) (1 - cos)^5` with `r0 = ((1 - ratio) / (1 + ratio))^2`.
pub open spec fn reflectance_spec(cos: int, ratio: int) -> int {
    let q = fp_div_spec(SCALE - ratio, SCALE + ratio);
    let r0 = fp_mul_spec(q, q);
    let m = SCALE - cos;
    let m2 = fp_mul_spec(m, m);
    let m4 = fp_mul_spec(m2, m2);
    let m5 = fp_mul_spec(m4, m);
    r0 + fp_mul_spec(SCALE - r0, m5)
}

/// The refraction ratio a dielectric uses: the reciprocal of its index when
/// the ray enters the medium, the index itself when it leaves.
pub open spec fn dielectric_ratio(d: Dielectric, front: bool) -> int {
    if front {
        fp_div_spec(SCALE as int, d.ir as int)
    } else {
        d.ir as int
    }
}

/// A refractive scatter from generator state `s`: always a ray from the hit
/// point with unit attenuation; it reflects when refraction is impossible
/// (total internal reflection) or when Schlick's reflectance exceeds the
/// uniform draw, and refracts otherwise.
pub open spec fn dielectric_scatter_spec(d: Dielectric, r_in: Ray, rec: HitRecord, s: u64)
    -> (Option<(Vec3, Ray)>, u64) {
    let ratio = dielectric_ratio(d, rec.front_face);
    let unit = unit_spec(r_in.dir);
    let cos = refract_cos(unit, rec.normal);
    let d2 = SCALE * SCALE - cos * cos;
    let sin = sqrt_floor(
        if d2 >= 0 {
            d2
        } else {
            0
        },
    );
    let cannot = fp_mul_spec(ratio, sin) > SCALE;
    let dr = draw_below(s, 65536);
    let dir = if cannot || reflectance_spec(cos, ratio) > dr {
        reflect_spec(unit, rec.normal)
    } else {
        refract_spec(unit, rec.normal, ratio)
    };
    (
        Some(((Vec3 { x: SCALE, y: SCALE, z: SCALE }), Ray { origin: rec.p, dir })),
        lcg_next(s),
    )
}

/// The scatter of any material, by its variant.
pub open spec fn scatter_spec(m: Material, r_in: Ray, rec: HitRecord, s: u64) -> (Option<
    (Vec3, Ray),
>, u64) {
    match m {
        Material::Lambertian(l) => lambertian_scatter_spec(l, rec, s),
        Material::Metal(mt) => metal_scatter_spec(mt, r_in, rec, s),
        Material::Dielectric(d) => dielectric_scatter_spec(d, r_in, rec, s),
    }
}

impl Lambertian {
    /// A diffuse material with the given albedo.
    pub fn new(albedo: Vec3) -> (r: Lambertian)
        ensures
            r == (Lambertian { albedo }),
    {
        Lambertian { albedo }
    }
}

impl Metal {
    /// A reflective material; a fuzz above 1 is clamped to 1, and one below 0
    /// to 0.
    pub fn new(albedo: Vec3, fuzz: i64) -> (r: Metal)
        ensures
            r.albedo == albedo,
            r.fuzz == if fuzz < 0 { 0i64 } else if fuzz < SCALE { fuzz } else { SCALE },
    {
        let f = if fuzz < 0 {
            0
        } else if fuzz < SCALE {
            fuzz
        } else {
            SCALE
        };
        Metal { albedo, fuzz: f }
    }
}

impl Dielectric {
    /// A refractive material with the given index.
    pub fn new(ir: i64) -> (r: Dielectric)
        ensures
            r == (Dielectric { ir }),
    {
        Dielectric { ir }
    }
}

/// The outcome a reflective surface produces for a given fuzz draw `fz`.
pub open spec fn metal_outcome(mt: Metal, r_in: Ray, rec: HitRecord, fz: Vec3) -> Option<
    (Vec3, Ray),
> {
    let dir = metal_dir(mt, r_in, rec, fz);
    if dotv(dir, rec.normal) > 0 {
        Some((mt.albedo, Ray { origin: rec.p, dir }))
    } else {
        None
    }
}

/// Schlick's reflectance, computed executably.
fn reflectance(cos: i64, ratio: i64) -> (r: i64)
    requires
        -393217 <= cos <= SCALE,
        16384 <= ratio <= 262144,
    ensures
        r == reflectance_spec(cos as int, ratio as int),
        -8000000000 <= r <= 8000000000,
{
    proof {
        lemma_fp_div_bound((SCALE - ratio) as int, (SCALE + ratio) as int, 196608, 81920);
    }
    let q = div_floor_i128(((SCALE - ratio) as i128) * (SCALE as i128), (SCALE + ratio) as i128)
        as i64;
    proof {
        lemma_fp_mul_bound(q as int, q as int, 157287, 157287);
    }
    let r0 = div_floor_i128((q as i128) * (q as i128), SCALE as i128) as i64;
    let m = SCALE - cos;
    proof {
        lemma_fp_mul_bound(m as int, m as int, 458753, 458753);
    }
    let m2 = div_floor_i128((m as i128) * (m as i128), SCALE as i128) as i64;
    proof {
        lemma_fp_mul_bound(m2 as int, m2 as int, 3211282, 3211282);
    }
    let m4 = div_floor_i128((m2 as i128) * (m2 as i128), SCALE as i128) as i64;
    proof {
        lemma_fp_mul_bound(m4 as int, m as int, 157354301, 458753);
    }
    let m5 = div_floor_i128((m4 as i128) * (m as i128), SCALE as i128) as i64;
    let sr = SCALE - r0;
    proof {
        lemma_fp_mul_bound(sr as int, m5 as int, 443030, 1101500001);
    }
    let t = div_floor_i128((sr as i128) * (m5 as i128), SCALE as i128) as i64;
    r0 + t
}

impl Material {
    /// The material a blank hit record carries.
    pub open spec fn default_spec() -> Material {
        Material::Lambertian(Lambertian { albedo: Vec3 { x: 0i64, y: 0i64, z: 0i64 } })
    }

    /// Scatter an incoming ray at the hit `rec`, drawing from `e` as the
    /// variant needs.  Diffuse and refractive surfaces always scatter; a
    /// reflective surface absorbs the ray exactly when the perturbed
    /// reflection does not leave the surface.
    pub fn scatter(&self, r_in: &Ray, rec: &HitRecord, e: &mut Entropy) -> (res: Option<
        (Vec3, Ray),
    >)
        requires
            wf_material(*self),
            wf_rec(*rec),
            wf_ray(*r_in),
            dotv(r_in.dir, r_in.dir) > 0,
        ensures
            is_seeded(*old(e)) ==> ({
                let o = scatter_spec(*self, *r_in, *rec, seed_state(*old(e)));
                res == o.0 && *final(e) == (Entropy::Seeded { state: o.1 })
            }),
            !is_seeded(*old(e)) ==> *final(e) == *old(e),
            !(self is Metal) ==> res is Some,
            res matches Some((att, sc)) ==> wf_ray(sc) && sc.origin == rec.p && wf_albedo(att)
                && dotv(sc.dir, sc.dir) >= 0,
            self matches Material::Metal(mt) ==> (exists|fz: Vec3|
                bounded(fz, SCALE as int) && 0 < dotv(fz, fz) <= SCALE * SCALE && res
                    == #[trigger] metal_outcome(*mt, *r_in, *rec, fz)),
            self matches Material::Metal(mt) ==> (res matches Some((att, sc)) ==> att == mt.albedo
                && dotv(sc.dir, rec.normal) > 0),
    {
        match self {
            Material::Lambertian(l) => l.scatter(r_in, rec, e),
            Material::Metal(mt) => mt.scatter(r_in, rec, e),
            Material::Dielectric(d) => d.scatter(r_in, rec, e),
        }
    }
}

impl Lambertian {
    /// Scatter towards `normal + u` for a random unit `u`; the albedo is the
    /// attenuation.  Never absorbs.
    pub fn scatter(&self, _r_in: &Ray, rec: &HitRecord, e: &mut Entropy) -> (res: Option<
        (Vec3, Ray),
    >)
        requires
            wf_albedo(self.albedo),
            wf_rec(*rec),
        ensures
            res is Some,
            res matches Some((att, sc)) ==> att == self.albedo && sc.origin == rec.p && bounded(
                sc.dir,
                3 * SCALE,
            ) && wf_ray(sc) && dotv(sc.dir, sc.dir) >= 0,
            is_seeded(*old(e)) ==> ({
                let o = lambertian_scatter_spec(*self, *rec, seed_state(*old(e)));
                res == o.0 && *final(e) == (Entropy::Seeded { state: o.1 })
            }),
            !is_seeded(*old(e)) ==> *final(e) == *old(e),
    {
        let u = crate::vec3::random_unit_vector(e);
        let d0 = rec.normal.plus(&u);
        let dir = if d0.x == 0 && d0.y == 0 && d0.z == 0 {
            rec.normal
        } else {
            d0
        };
        proof {
            crate::vec3::lemma_dotv_self_nonneg(dir);
        }
        Some((self.albedo, Ray::new(rec.p, dir)))
    }
}

impl Metal {
    /// Reflect the incoming unit direction about the normal, perturb it by
    /// `fuzz` times a random point of the unit ball, and scatter along it;
    /// absorb instead when that direction does not leave the surface.
    pub fn scatter(&self, r_in: &Ray, rec: &HitRecord, e: &mut Entropy) -> (res: Option<
        (Vec3, Ray),
    >)
        requires
            wf_albedo(self.albedo),
            0 <= self.fuzz <= SCALE,
            wf_rec(*rec),
            wf_ray(*r_in),
            dotv(r_in.dir, r_in.dir) > 0,
        ensures
            is_seeded(*old(e)) ==> ({
                let o = metal_scatter_spec(*self, *r_in, *rec, seed_state(*old(e)));
                res == o.0 && *final(e) == (Entropy::Seeded { state: o.1 })
            }),
            !is_seeded(*old(e)) ==> *final(e) == *old(e),
            exists|fz: Vec3|
                bounded(fz, SCALE as int) && 0 < dotv(fz, fz) <= SCALE * SCALE && res
                    == #[trigger] metal_outcome(*self, *r_in, *rec, fz),
            res matches Some((att, sc)) ==> att == self.albedo && sc.origin == rec.p && wf_ray(sc)
                && dotv(sc.dir, rec.normal) > 0 && dotv(sc.dir, sc.dir) >= 0,
    {
        let reflected = r_in.dir().unit_vector().reflect(&rec.normal);
        let fz = crate::vec3::random_in_unit_sphere(e);
        let dir = reflected.plus(&fz.scaled(self.fuzz));
        let d = dir.dot_raw(&rec.normal);
        proof {
            crate::vec3::lemma_dotv_self_nonneg(dir);
        }
        let res = if d > 0 {
            Some((self.albedo, Ray::new(rec.p, dir)))
        } else {
            None
        };
        proof {
            assert(res == metal_outcome(*self, *r_in, *rec, fz));
        }
        res
    }
}

impl Dielectric {
    /// Refract the incoming unit direction when Snell's law allows it and
    /// Schlick's reflectance loses the draw; reflect otherwise.  Always
    /// scatters, with unit attenuation.
    pub fn scatter(&self, r_in: &Ray, rec: &HitRecord, e: &mut Entropy) -> (res: Option<
        (Vec3, Ray),
    >)
        requires
            SCALE / 4 <= self.ir <= 4 * SCALE,
            wf_rec(*rec),
            wf_ray(*r_in),
            dotv(r_in.dir, r_in.dir) > 0,
        ensures
            res is Some,
            res matches Some((att, sc)) ==> att == (Vec3 { x: SCALE, y: SCALE, z: SCALE })
                && sc.origin == rec.p && wf_ray(sc) && dotv(sc.dir, sc.dir) >= 0,
            is_seeded(*old(e)) ==> ({
                let o = dielectric_scatter_spec(*self, *r_in, *rec, seed_state(*old(e)));
                res == o.0 && *final(e) == (Entropy::Seeded { state: o.1 })
            }),
            !is_seeded(*old(e)) ==> *final(e) == *old(e),
    {
        let ratio: i64 = if rec.front_face {
            proof {
                vstd::arithmetic::div_mod::lemma_div_is_ordered_by_denominator(4294967296,
                    16384, self.ir as int);
                vstd::arithmetic::div_mod::lemma_div_is_ordered_by_denominator(4294967296,
                    self.ir as int, 262144);
            }
            div_floor_i128((SCALE as i128) * (SCALE as i128), self.ir as i128) as i64
        } else {
            self.ir
        };
        let unit = r_in.dir().unit_vector();
        let k = unit.dot_raw(&rec.normal);
        proof {
            lemma_mul_bound(unit.x as int, rec.normal.x as int, SCALE as int, 131072);
            lemma_mul_bound(unit.y as int, rec.normal.y as int, SCALE as int, 131072);
            lemma_mul_bound(unit.z as int, rec.normal.z as int, SCALE as int, 131072);
            lemma_floor_div_bound(-(k as int), 25769803776, SCALE as int);
        }
        let cos0 = div_floor_i128(-(k as i128), SCALE as i128) as i64;
        let cos = if cos0 < SCALE {
            cos0
        } else {
            SCALE
        };
        proof {
            lemma_mul_bound(cos as int, cos as int, 393217, 393217);
            assert(cos * cos >= 0) by (nonlinear_arith);
        }
        let d2: i64 = SCALE * SCALE - cos * cos;
        let d2c: i64 = if d2 >= 0 {
            d2
        } else {
            0
        };
        let sin_u = isqrt_u128(d2c as u128);
        proof {
            lemma_sqrt_floor(d2c as int);
            if sqrt_floor(d2c as int) > SCALE {
                assert(sqrt_floor(d2c as int) * sqrt_floor(d2c as int) > 65536int * 65536)
                    by (nonlinear_arith)
                    requires sqrt_floor(d2c as int) > 65536;
            }
        }
        let sin = sin_u as i64;
        proof {
            lemma_fp_mul_bound(ratio as int, sin as int, 262144, SCALE as int);
        }
        let fps = div_floor_i128((ratio as i128) * (sin as i128), SCALE as i128) as i64;
        let refl = reflectance(cos, ratio);
        let dr = e.next_below(65536) as i64;
        let dir = if fps > SCALE || refl > dr {
            unit.reflect(&rec.normal)
        } else {
            unit.refract(&rec.normal, ratio)
        };
        proof {
            crate::vec3::lemma_dotv_self_nonneg(dir);
        }
        Some((Vec3::new(SCALE, SCALE, SCALE), Ray::new(rec.p, dir)))
    }
}

impl Default for Material {
    /// A black diffuse material.
    fn default() -> (r: Material)
        ensures
            r == Material::default_spec(),
    {
        Material::Lambertian(Lambertian { albedo: Vec3 { x: 0, y: 0, z: 0 } })
    }
}

} // verus!
