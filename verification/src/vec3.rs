//! Three-component fixed-point vectors, and the random direction samplers.
//!
//! A component is a scaled integer (`SCALE` raw units per 1.0).  Dot products
//! and squared norms are kept at scale `SCALE * SCALE` so that they are exact;
//! normalisation and reflection round with floor division, and their results
//! are pinned exactly by the spec functions here.

use vstd::prelude::*;

verus! {

use crate::fixed::{
    floor_div, sqrt_floor, is_sqrt_floor, lemma_sqrt_floor, lemma_sqrt_floor_unique,
    lemma_mul_bound, lemma_floor_div_bound, div_floor_i128, isqrt_u128,
    fp_mul_spec, SCALE, VMAX, BIG,
};
use crate::rng::{Entropy, is_seeded, seed_state, lcg_next, draw_below};
use vstd::arithmetic::div_mod::{lemma_div_is_ordered, lemma_div_multiples_vanish};

/// A point, direction or colour: three fixed-point components.
#[derive(Clone, Copy, PartialEq, Eq, Structural, Debug)]
pub struct Vec3 {
    pub x: i64,
    pub y: i64,
    pub z: i64,
}

/// Every component has magnitude at most `m`.
pub open spec fn bounded(v: Vec3, m: int) -> bool {
    &&& -m <= v.x <= m
    &&& -m <= v.y <= m
    &&& -m <= v.z <= m
}

/// The raw dot product, exact, at scale `SCALE * SCALE`.
pub open spec fn dotv(a: Vec3, b: Vec3) -> int {
    a.x * b.x + a.y * b.y + a.z * b.z
}

/// Componentwise sum.
pub open spec fn addv(a: Vec3, b: Vec3) -> Vec3 {
    Vec3 { x: (a.x + b.x) as i64, y: (a.y + b.y) as i64, z: (a.z + b.z) as i64 }
}

/// Componentwise difference.
pub open spec fn subv(a: Vec3, b: Vec3) -> Vec3 {
    Vec3 { x: (a.x - b.x) as i64, y: (a.y - b.y) as i64, z: (a.z - b.z) as i64 }
}

/// Componentwise negation.
pub open spec fn negv(a: Vec3) -> Vec3 {
    Vec3 { x: -a.x as i64, y: -a.y as i64, z: -a.z as i64 }
}

/// Componentwise fixed-point product with the scalar `k`.
pub open spec fn scalev(a: Vec3, k: int) -> Vec3 {
    Vec3 {
        x: fp_mul_spec(a.x as int, k) as i64,
        y: fp_mul_spec(a.y as int, k) as i64,
        z: fp_mul_spec(a.z as int, k) as i64,
    }
}

/// Componentwise fixed-point product of two vectors.
pub open spec fn comp_mulv(a: Vec3, b: Vec3) -> Vec3 {
    Vec3 {
        x: fp_mul_spec(a.x as int, b.x as int) as i64,
        y: fp_mul_spec(a.y as int, b.y as int) as i64,
        z: fp_mul_spec(a.z as int, b.z as int) as i64,
    }
}

/// The normalised vector: each component is `v_i * SCALE / |v|`, floor-rounded.
pub open spec fn unit_spec(v: Vec3) -> Vec3 {
    let n = sqrt_floor(dotv(v, v));
    Vec3 {
        x: floor_div(v.x * SCALE, n) as i64,
        y: floor_div(v.y * SCALE, n) as i64,
        z: floor_div(v.z * SCALE, n) as i64,
    }
}

/// Mirror reflection of `d` about the normal `n`: `d - 2 (d . n) n`.
pub open spec fn reflect_spec(d: Vec3, n: Vec3) -> Vec3 {
    let k = dotv(d, n);
    Vec3 {
        x: (d.x - floor_div(2 * k * n.x, SCALE * SCALE)) as i64,
        y: (d.y - floor_div(2 * k * n.y, SCALE * SCALE)) as i64,
        z: (d.z - floor_div(2 * k * n.z, SCALE * SCALE)) as i64,
    }
}

/// A squared norm is never negative.
pub proof fn lemma_dotv_self_nonneg(v: Vec3)
    ensures
        dotv(v, v) >= 0,
{
    assert(v.x * v.x >= 0 && v.y * v.y >= 0 && v.z * v.z >= 0) by (nonlinear_arith);
}

/// No component exceeds the norm: `|v_i| <= sqrt_floor(|v|^2)`.
pub proof fn lemma_comp_le_norm(v: Vec3)
    ensures
        -sqrt_floor(dotv(v, v)) <= v.x <= sqrt_floor(dotv(v, v)),
        -sqrt_floor(dotv(v, v)) <= v.y <= sqrt_floor(dotv(v, v)),
        -sqrt_floor(dotv(v, v)) <= v.z <= sqrt_floor(dotv(v, v)),
{
    lemma_dotv_self_nonneg(v);
    let d = dotv(v, v);
    assert(v.x * v.x <= d && v.y * v.y <= d && v.z * v.z <= d) by (nonlinear_arith)
        requires d == v.x * v.x + v.y * v.y + v.z * v.z;
    lemma_le_sqrt(v.x as int, d);
    lemma_le_sqrt(v.y as int, d);
    lemma_le_sqrt(v.z as int, d);
}

/// Whatever squares below `d` lies within the integer square root of `d`.
pub proof fn lemma_le_sqrt(c: int, d: int)
    requires
        c * c <= d,
        0 <= d,
    ensures
        -sqrt_floor(d) <= c <= sqrt_floor(d),
{
    lemma_sqrt_floor(d);
    let n = sqrt_floor(d);
    if c > n || c < -n {
        assert((n + 1) * (n + 1) <= c * c) by (nonlinear_arith)
            requires n >= 0 && (c > n || c < -n);
    }
}

impl Vec3 {
    /// Build a vector from its three components.
    pub fn new(x: i64, y: i64, z: i64) -> (r: Vec3)
        ensures
            r == (Vec3 { x, y, z }),
    {
        Vec3 { x, y, z }
    }

    /// The zero vector.
    pub fn zeros() -> (r: Vec3)
        ensures
            r == (Vec3 { x: 0i64, y: 0i64, z: 0i64 }),
    {
        Vec3 { x: 0, y: 0, z: 0 }
    }

    /// Componentwise sum.
    pub fn plus(&self, other: &Vec3) -> (r: Vec3)
        requires
            bounded(*self, 2305843009213693951),
            bounded(*other, 2305843009213693951),
        ensures
            r == addv(*self, *other),
    {
        Vec3 { x: self.x + other.x, y: self.y + other.y, z: self.z + other.z }
    }

    /// Componentwise difference.
    pub fn minus(&self, other: &Vec3) -> (r: Vec3)
        requires
            bounded(*self, 2305843009213693951),
            bounded(*other, 2305843009213693951),
        ensures
            r == subv(*self, *other),
    {
        Vec3 { x: self.x - other.x, y: self.y - other.y, z: self.z - other.z }
    }

    /// Componentwise negation.
    pub fn neg(&self) -> (r: Vec3)
        requires
            bounded(*self, 2305843009213693951),
        ensures
            r == negv(*self),
    {
        Vec3 { x: -self.x, y: -self.y, z: -self.z }
    }

    /// Componentwise fixed-point product with the scalar `k`.
    pub fn scaled(&self, k: i64) -> (r: Vec3)
        requires
            bounded(*self, VMAX as int),
            -2 * SCALE <= k <= 2 * SCALE,
        ensures
            r == scalev(*self, k as int),
            bounded(r, 2 * VMAX + 1),
    {
        proof {
            lemma_scaled_ok(*self, k as int);
        }
        Vec3 {
            x: div_floor_i128((self.x as i128) * (k as i128), SCALE as i128) as i64,
            y: div_floor_i128((self.y as i128) * (k as i128), SCALE as i128) as i64,
            z: div_floor_i128((self.z as i128) * (k as i128), SCALE as i128) as i64,
        }
    }

    /// Componentwise fixed-point product of two colours or directions.
    pub fn comp_mul(&self, other: &Vec3) -> (r: Vec3)
        requires
            bounded(*self, 1048576),
            bounded(*other, 1048576),
        ensures
            r == comp_mulv(*self, *other),
            bounded(r, 17179869185),
    {
        proof {
            lemma_comp_mul_ok(*self, *other);
        }
        Vec3 {
            x: div_floor_i128((self.x as i128) * (other.x as i128), SCALE as i128) as i64,
            y: div_floor_i128((self.y as i128) * (other.y as i128), SCALE as i128) as i64,
            z: div_floor_i128((self.z as i128) * (other.z as i128), SCALE as i128) as i64,
        }
    }

    /// The raw dot product at scale `SCALE * SCALE`, exact.
    pub fn dot_raw(&self, other: &Vec3) -> (r: i64)
        requires
            bounded(*self, 1073741824),
            bounded(*other, 1073741824),
        ensures
            r == dotv(*self, *other),
    {
        proof {
            lemma_mul_bound(self.x as int, other.x as int, 1073741824, 1073741824);
            lemma_mul_bound(self.y as int, other.y as int, 1073741824, 1073741824);
            lemma_mul_bound(self.z as int, other.z as int, 1073741824, 1073741824);
        }
        let p: i128 = (self.x as i128) * (other.x as i128) + (self.y as i128) * (other.y as i128)
            + (self.z as i128) * (other.z as i128);
        p as i64
    }

    /// The floor of the norm, in raw units (scale `SCALE`).
    pub fn norm_raw(&self) -> (r: i64)
        requires
            bounded(*self, 1073741824),
        ensures
            r == sqrt_floor(dotv(*self, *self)),
            0 <= r <= 1860550844,
    {
        proof {
            lemma_mul_bound(self.x as int, self.x as int, 1073741824, 1073741824);
            lemma_mul_bound(self.y as int, self.y as int, 1073741824, 1073741824);
            lemma_mul_bound(self.z as int, self.z as int, 1073741824, 1073741824);
            lemma_dotv_self_nonneg(*self);
        }
        let d: i128 = (self.x as i128) * (self.x as i128) + (self.y as i128) * (self.y as i128)
            + (self.z as i128) * (self.z as i128);
        let r = isqrt_u128(d as u128);
        proof {
            let di = dotv(*self, *self);
            lemma_sqrt_floor(di);
            assert(1860550844 * 1860550844 > 3 * 1073741824 * 1073741824) by (nonlinear_arith);
            if sqrt_floor(di) > 1860550844 {
                assert((sqrt_floor(di)) * (sqrt_floor(di)) >= 1860550845 * 1860550845)
                    by (nonlinear_arith)
                    requires sqrt_floor(di) >= 1860550845;
                assert(1860550845 * 1860550845 > 3 * 1073741824 * 1073741824) by (nonlinear_arith);
            }
        }
        r as i64
    }

    /// The normalised direction: `v * SCALE / |v|`, floor-rounded per
    /// component.  Its components never exceed one unit (`SCALE` raw).
    pub fn unit_vector(&self) -> (r: Vec3)
        requires
            bounded(*self, 1073741824),
            dotv(*self, *self) > 0,
        ensures
            r == unit_spec(*self),
            bounded(r, SCALE as int),
    {
        let n = self.norm_raw();
        proof {
            lemma_sqrt_floor(dotv(*self, *self));
            assert(n >= 1) by {
                if n == 0 {
                    assert(dotv(*self, *self) < 1 * 1);
                }
            };
            lemma_comp_le_norm(*self);
            lemma_unit_comp_bound(self.x as int, n as int);
            lemma_unit_comp_bound(self.y as int, n as int);
            lemma_unit_comp_bound(self.z as int, n as int);
        }
        Vec3 {
            x: div_floor_i128((self.x as i128) * (SCALE as i128), n as i128) as i64,
            y: div_floor_i128((self.y as i128) * (SCALE as i128), n as i128) as i64,
            z: div_floor_i128((self.z as i128) * (SCALE as i128), n as i128) as i64,
        }
    }

    /// Mirror reflection about the normal `n`: `self - 2 (self . n) n`.
    /// Both arguments are unit-scale directions.
    pub fn reflect(&self, n: &Vec3) -> (r: Vec3)
        requires
            bounded(*self, 131072),
            bounded(*n, 131072),
        ensures
            r == reflect_spec(*self, *n),
            bounded(r, 3276801),
    {
        let k: i128 = {
            proof {
                lemma_mul_bound(self.x as int, n.x as int, 131072, 131072);
                lemma_mul_bound(self.y as int, n.y as int, 131072, 131072);
                lemma_mul_bound(self.z as int, n.z as int, 131072, 131072);
            }
            (self.x as i128) * (n.x as i128) + (self.y as i128) * (n.y as i128)
                + (self.z as i128) * (n.z as i128)
        };
        proof {
            lemma_reflect_ok(*self, *n);
        }
        let s2: i128 = (SCALE as i128) * (SCALE as i128);
        Vec3 {
            x: self.x - (div_floor_i128(2 * k * (n.x as i128), s2) as i64),
            y: self.y - (div_floor_i128(2 * k * (n.y as i128), s2) as i64),
            z: self.z - (div_floor_i128(2 * k * (n.z as i128), s2) as i64),
        }
    }
}

/// Overflow and range facts for `Vec3::scaled`.
proof fn lemma_scaled_ok(v: Vec3, k: int)
    requires
        bounded(v, VMAX as int),
        -2 * SCALE <= k <= 2 * SCALE,
    ensures
        -BIG < v.x * k < BIG,
        -BIG < v.y * k < BIG,
        -BIG < v.z * k < BIG,
        -2 * VMAX - 1 <= fp_mul_spec(v.x as int, k) <= 2 * VMAX,
        -2 * VMAX - 1 <= fp_mul_spec(v.y as int, k) <= 2 * VMAX,
        -2 * VMAX - 1 <= fp_mul_spec(v.z as int, k) <= 2 * VMAX,
{
    let m: int = (VMAX as int) * (2 * SCALE as int);
    lemma_mul_bound(v.x as int, k, VMAX as int, 2 * SCALE as int);
    lemma_mul_bound(v.y as int, k, VMAX as int, 2 * SCALE as int);
    lemma_mul_bound(v.z as int, k, VMAX as int, 2 * SCALE as int);
    lemma_floor_div_bound(v.x * k, m, SCALE as int);
    lemma_floor_div_bound(v.y * k, m, SCALE as int);
    lemma_floor_div_bound(v.z * k, m, SCALE as int);
    assert(m / (SCALE as int) == 2 * VMAX as int) by (nonlinear_arith)
        requires m == (VMAX as int) * (2 * SCALE as int);
}

/// Overflow and range facts for `Vec3::comp_mul`.
proof fn lemma_comp_mul_ok(a: Vec3, b: Vec3)
    requires
        bounded(a, 1048576),
        bounded(b, 1048576),
    ensures
        -BIG < a.x * b.x < BIG,
        -BIG < a.y * b.y < BIG,
        -BIG < a.z * b.z < BIG,
        -17179869185 <= fp_mul_spec(a.x as int, b.x as int) <= 17179869184,
        -17179869185 <= fp_mul_spec(a.y as int, b.y as int) <= 17179869184,
        -17179869185 <= fp_mul_spec(a.z as int, b.z as int) <= 17179869184,
{
    let m: int = 1048576int * 1048576;
    lemma_mul_bound(a.x as int, b.x as int, 1048576, 1048576);
    lemma_mul_bound(a.y as int, b.y as int, 1048576, 1048576);
    lemma_mul_bound(a.z as int, b.z as int, 1048576, 1048576);
    lemma_floor_div_bound(a.x * b.x, m, SCALE as int);
    lemma_floor_div_bound(a.y * b.y, m, SCALE as int);
    lemma_floor_div_bound(a.z * b.z, m, SCALE as int);
    assert(m / (SCALE as int) == 16777216) by (nonlinear_arith)
        requires m == 1048576 * 1048576;
}

/// One normalised component stays within one unit.
proof fn lemma_unit_comp_bound(c: int, n: int)
    requires
        1 <= n <= 1860550844,
        -n <= c <= n,
    ensures
        -SCALE <= floor_div(c * SCALE, n) <= SCALE,
        -BIG < c * SCALE < BIG,
{
    lemma_mul_bound(c, SCALE as int, n, SCALE as int);
    assert(c * SCALE <= n * SCALE) by (nonlinear_arith)
        requires c <= n && SCALE > 0;
    assert(-(n * SCALE) <= c * SCALE) by (nonlinear_arith)
        requires -n <= c && SCALE > 0;
    lemma_div_multiples_vanish(SCALE as int, n);
    assert(n * (SCALE as int) == (SCALE as int) * n
        || n * (SCALE as int) == n * (SCALE as int));
    assert(floor_div(n * SCALE, n) == SCALE) by {
        lemma_div_multiples_vanish(SCALE as int, n);
        assert(n * (SCALE as int) == (SCALE as int) * n) by (nonlinear_arith);
    };
    assert(floor_div(-(n * SCALE), n) == -(SCALE as int)) by {
        lemma_div_multiples_vanish(-(SCALE as int), n);
        assert(n * (-(SCALE as int)) == -(n * (SCALE as int))) by (nonlinear_arith);
    };
    lemma_div_is_ordered(c * SCALE, n * SCALE, n);
    lemma_div_is_ordered(-(n * SCALE), c * SCALE, n);
    assert(-BIG < c * SCALE < BIG) by (nonlinear_arith)
        requires -n <= c <= n && 1 <= n <= 2000000000;
}

/// Overflow and range facts for `Vec3::reflect`.
proof fn lemma_reflect_ok(d: Vec3, n: Vec3)
    requires
        bounded(d, 131072),
        bounded(n, 131072),
    ensures
        -BIG < 2 * dotv(d, n) * n.x < BIG,
        -BIG < 2 * dotv(d, n) * n.y < BIG,
        -BIG < 2 * dotv(d, n) * n.z < BIG,
        -3145729 <= floor_div(2 * dotv(d, n) * n.x, SCALE * SCALE) <= 3145728,
        -3145729 <= floor_div(2 * dotv(d, n) * n.y, SCALE * SCALE) <= 3145728,
        -3145729 <= floor_div(2 * dotv(d, n) * n.z, SCALE * SCALE) <= 3145728,
        bounded(reflect_spec(d, n), 3276801),
{
    let k = dotv(d, n);
    lemma_mul_bound(d.x as int, n.x as int, 131072, 131072);
    lemma_mul_bound(d.y as int, n.y as int, 131072, 131072);
    lemma_mul_bound(d.z as int, n.z as int, 131072, 131072);
    let m: int = 2int * (3int * 131072 * 131072) * 131072;
    lemma_mul_bound(2 * k, n.x as int, 2int * 3 * 131072 * 131072, 131072int);
    lemma_mul_bound(2 * k, n.y as int, 2int * 3 * 131072 * 131072, 131072int);
    lemma_mul_bound(2 * k, n.z as int, 2int * 3 * 131072 * 131072, 131072int);
    assert(2 * k * (n.x as int) == (2 * k) * (n.x as int)) by (nonlinear_arith);
    assert(2 * k * (n.y as int) == (2 * k) * (n.y as int)) by (nonlinear_arith);
    assert(2 * k * (n.z as int) == (2 * k) * (n.z as int)) by (nonlinear_arith);
    lemma_floor_div_bound(2 * k * (n.x as int), m, (SCALE as int) * (SCALE as int));
    lemma_floor_div_bound(2 * k * (n.y as int), m, (SCALE as int) * (SCALE as int));
    lemma_floor_div_bound(2 * k * (n.z as int), m, (SCALE as int) * (SCALE as int));
    assert(m / ((SCALE as int) * (SCALE as int)) == 3145728) by (nonlinear_arith)
        requires m == 2 * (3 * 131072 * 131072) * 131072;
}

/// The clamped cosine between `-uv` and `n`, at scale `SCALE`:
/// `min((-uv) . n, 1)`.
pub open spec fn refract_cos(uv: Vec3, n: Vec3) -> int {
    let c = floor_div(-dotv(uv, n), SCALE as int);
    if c < SCALE {
        c
    } else {
        SCALE as int
    }
}

/// One component of the refracted ray's perpendicular part:
/// `ratio * (u + cos * n_c)` with fixed-point rounding.
pub open spec fn refract_perp_comp(u: int, nc: int, cos: int, ratio: int) -> int {
    fp_mul_spec(ratio, u + fp_mul_spec(cos, nc))
}

/// Refraction of the unit direction `uv` at a surface with unit normal `n`
/// and refraction ratio `ratio` (Snell's law, with the parallel part's
/// magnitude recovered from `1 - |perp|^2`).
pub open spec fn refract_spec(uv: Vec3, n: Vec3, ratio: int) -> Vec3 {
    let cos = refract_cos(uv, n);
    let px = refract_perp_comp(uv.x as int, n.x as int, cos, ratio);
    let py = refract_perp_comp(uv.y as int, n.y as int, cos, ratio);
    let pz = refract_perp_comp(uv.z as int, n.z as int, cos, ratio);
    let d = SCALE * SCALE - (px * px + py * py + pz * pz);
    let ad = if d < 0 {
        -d
    } else {
        d
    };
    let par = sqrt_floor(ad);
    Vec3 {
        x: (px - fp_mul_spec(par, n.x as int)) as i64,
        y: (py - fp_mul_spec(par, n.y as int)) as i64,
        z: (pz - fp_mul_spec(par, n.z as int)) as i64,
    }
}

/// One exec component of the perpendicular part.
fn refract_perp(u: i64, nc: i64, cos: i64, ratio: i64) -> (r: i64)
    requires
        -SCALE <= u <= SCALE,
        -2 * SCALE <= nc <= 2 * SCALE,
        -393217 <= cos <= SCALE,
        0 < ratio <= 262145,
    ensures
        r == refract_perp_comp(u as int, nc as int, cos as int, ratio as int),
        -3407898 <= r <= 3407897,
{
    proof {
        crate::fixed::lemma_fp_mul_bound(cos as int, nc as int, 393217, 131072);
    }
    let t1 = div_floor_i128((cos as i128) * (nc as i128), SCALE as i128) as i64;
    let e = u + t1;
    proof {
        crate::fixed::lemma_fp_mul_bound(ratio as int, e as int, 262145, 851971);
    }
    div_floor_i128((ratio as i128) * (e as i128), SCALE as i128) as i64
}

impl Vec3 {
    /// Refraction of this unit direction at a surface with unit normal `n`
    /// and refraction ratio `etai_etat`.
    pub fn refract(&self, n: &Vec3, etai_etat: i64) -> (r: Vec3)
        requires
            bounded(*self, SCALE as int),
            bounded(*n, 2 * SCALE),
            0 < etai_etat <= 262145,
        ensures
            r == refract_spec(*self, *n, etai_etat as int),
            bounded(r, 15213207),
    {
        let k = self.dot_raw(n);
        proof {
            lemma_mul_bound(self.x as int, n.x as int, SCALE as int, 131072);
            lemma_mul_bound(self.y as int, n.y as int, SCALE as int, 131072);
            lemma_mul_bound(self.z as int, n.z as int, SCALE as int, 131072);
            lemma_floor_div_bound(-(k as int), 25769803776, SCALE as int);
        }
        let cos0 = div_floor_i128(-(k as i128), SCALE as i128) as i64;
        let cos = if cos0 < SCALE {
            cos0
        } else {
            SCALE
        };
        let px = refract_perp(self.x, n.x, cos, etai_etat);
        let py = refract_perp(self.y, n.y, cos, etai_etat);
        let pz = refract_perp(self.z, n.z, cos, etai_etat);
        proof {
            lemma_mul_bound(px as int, px as int, 3407898, 3407898);
            lemma_mul_bound(py as int, py as int, 3407898, 3407898);
            lemma_mul_bound(pz as int, pz as int, 3407898, 3407898);
            assert(px * px >= 0 && py * py >= 0 && pz * pz >= 0) by (nonlinear_arith);
        }
        let d: i128 = (SCALE as i128) * (SCALE as i128) - ((px as i128) * (px as i128) + (py
            as i128) * (py as i128) + (pz as i128) * (pz as i128));
        let ad: i128 = if d < 0 {
            -d
        } else {
            d
        };
        let par_u = isqrt_u128(ad as u128);
        proof {
            lemma_sqrt_floor(ad as int);
            if sqrt_floor(ad as int) > 5902654 {
                assert(sqrt_floor(ad as int) * sqrt_floor(ad as int) > 5902654int * 5902654)
                    by (nonlinear_arith)
                    requires sqrt_floor(ad as int) > 5902654;
            }
        }
        let par = par_u as i64;
        proof {
            crate::fixed::lemma_fp_mul_bound(par as int, n.x as int, 5902654, 131072);
            crate::fixed::lemma_fp_mul_bound(par as int, n.y as int, 5902654, 131072);
            crate::fixed::lemma_fp_mul_bound(par as int, n.z as int, 5902654, 131072);
        }
        Vec3 {
            x: px - (div_floor_i128((par as i128) * (n.x as i128), SCALE as i128) as i64),
            y: py - (div_floor_i128((par as i128) * (n.y as i128), SCALE as i128) as i64),
            z: pz - (div_floor_i128((par as i128) * (n.z as i128), SCALE as i128) as i64),
        }
    }
}

/// A triple of draws, each uniform in `[min, max)`, with the generator state
/// that follows.
pub open spec fn random_between_spec(s: u64, min: int, max: int) -> (Vec3, u64) {
    let s1 = lcg_next(s);
    let s2 = lcg_next(s1);
    let s3 = lcg_next(s2);
    (
        Vec3 {
            x: (min + draw_below(s, (max - min) as u64)) as i64,
            y: (min + draw_below(s1, (max - min) as u64)) as i64,
            z: (min + draw_below(s2, (max - min) as u64)) as i64,
        },
        s3,
    )
}

/// One triple of draws, each uniform in `[-SCALE, SCALE)`, with the generator
/// state that follows.
pub open spec fn cube_draw_spec(s: u64) -> (Vec3, u64) {
    random_between_spec(s, -(SCALE as int), SCALE as int)
}

impl Vec3 {
    /// A vector with each component drawn uniformly from `[min, max)`.
    pub fn random_between(min: i64, max: i64, e: &mut Entropy) -> (r: Vec3)
        requires
            min < max,
            max - min <= 4294967296,
        ensures
            min <= r.x < max,
            min <= r.y < max,
            min <= r.z < max,
            is_seeded(*old(e)) ==> r == random_between_spec(seed_state(*old(e)), min as int,
                max as int).0 && *final(e) == (Entropy::Seeded {
                state: random_between_spec(seed_state(*old(e)), min as int, max as int).1,
            }),
            !is_seeded(*old(e)) ==> *final(e) == *old(e),
    {
        let x = e.next_in(min, max);
        let y = e.next_in(min, max);
        let z = e.next_in(min, max);
        Vec3 { x, y, z }
    }

    /// A colour with each channel drawn uniformly from `[0, 1)`.
    pub fn random(e: &mut Entropy) -> (r: Vec3)
        ensures
            0 <= r.x < SCALE,
            0 <= r.y < SCALE,
            0 <= r.z < SCALE,
            is_seeded(*old(e)) ==> r == random_between_spec(seed_state(*old(e)), 0,
                SCALE as int).0 && *final(e) == (Entropy::Seeded {
                state: random_between_spec(seed_state(*old(e)), 0, SCALE as int).1,
            }),
            !is_seeded(*old(e)) ==> *final(e) == *old(e),
    {
        Vec3::random_between(0, SCALE, e)
    }
}

/// Rejection sampling of a nonzero point inside the unit ball, with at most
/// `fuel` draws; after that, a fixed unit direction stands in.
pub open spec fn unit_sphere_spec(s: u64, fuel: nat) -> (Vec3, u64)
    decreases fuel,
{
    if fuel == 0 {
        (Vec3 { x: SCALE, y: 0i64, z: 0i64 }, s)
    } else {
        let (p, s2) = cube_draw_spec(s);
        if 0 < dotv(p, p) < SCALE * SCALE {
            (p, s2)
        } else {
            unit_sphere_spec(s2, (fuel - 1) as nat)
        }
    }
}

/// Rejection sampling of a point in the unit disk (`z == 0`), with at most
/// `fuel` draws; after that, the origin stands in.
pub open spec fn unit_disk_spec(s: u64, fuel: nat) -> (Vec3, u64)
    decreases fuel,
{
    if fuel == 0 {
        (Vec3 { x: 0i64, y: 0i64, z: 0i64 }, s)
    } else {
        let s1 = lcg_next(s);
        let s2 = lcg_next(s1);
        let p = Vec3 {
            x: (-(SCALE as int) + draw_below(s, 131072)) as i64,
            y: (-(SCALE as int) + draw_below(s1, 131072)) as i64,
            z: 0i64,
        };
        if dotv(p, p) < SCALE * SCALE {
            (p, s2)
        } else {
            unit_disk_spec(s2, (fuel - 1) as nat)
        }
    }
}

/// Negating one side negates a dot product, and the product is symmetric.
pub proof fn lemma_dotv_neg(a: Vec3, b: Vec3)
    requires
        bounded(a, 2305843009213693951),
    ensures
        dotv(negv(a), b) == -dotv(a, b),
        dotv(b, negv(a)) == -dotv(b, a),
        dotv(a, b) == dotv(b, a),
{
    assert((-(a.x as int)) * b.x == -(a.x * b.x) && b.x * (-(a.x as int)) == -(b.x * a.x)
        && a.x * b.x == b.x * a.x) by (nonlinear_arith);
    assert((-(a.y as int)) * b.y == -(a.y * b.y) && b.y * (-(a.y as int)) == -(b.y * a.y)
        && a.y * b.y == b.y * a.y) by (nonlinear_arith);
    assert((-(a.z as int)) * b.z == -(a.z * b.z) && b.z * (-(a.z as int)) == -(b.z * a.z)
        && a.z * b.z == b.z * a.z) by (nonlinear_arith);
}

/// Draw one point of the cube `[-1, 1)^3`.
fn cube_draw(e: &mut Entropy) -> (r: Vec3)
    ensures
        bounded(r, SCALE as int),
        is_seeded(*old(e)) ==> r == cube_draw_spec(seed_state(*old(e))).0 && *final(e)
            == (Entropy::Seeded { state: cube_draw_spec(seed_state(*old(e))).1 }),
        !is_seeded(*old(e)) ==> *final(e) == *old(e),
{
    let x = e.next_in(-SCALE, SCALE);
    let y = e.next_in(-SCALE, SCALE);
    let z = e.next_in(-SCALE, SCALE);
    Vec3 { x, y, z }
}

/// A uniformly drawn nonzero point strictly inside the unit ball (by
/// rejection from the cube), or a fixed unit direction if every draw in the
/// attempt budget was rejected.
pub fn random_in_unit_sphere(e: &mut Entropy) -> (r: Vec3)
    ensures
        bounded(r, SCALE as int),
        0 < dotv(r, r) <= SCALE * SCALE,
        is_seeded(*old(e)) ==> r == unit_sphere_spec(seed_state(*old(e)), 64).0 && *final(e)
            == (Entropy::Seeded { state: unit_sphere_spec(seed_state(*old(e)), 64).1 }),
        !is_seeded(*old(e)) ==> *final(e) == *old(e),
{
    let mut fuel: u64 = 64;
    loop
        invariant
            fuel <= 64,
            is_seeded(*old(e)) ==> is_seeded(*e) && unit_sphere_spec(seed_state(*e), fuel as nat)
                == unit_sphere_spec(seed_state(*old(e)), 64),
            !is_seeded(*old(e)) ==> *e == *old(e),
        decreases fuel,
    {
        if fuel == 0 {
            proof {
                lemma_mul_bound(SCALE as int, SCALE as int, SCALE as int, SCALE as int);
            }
            return Vec3 { x: SCALE, y: 0, z: 0 };
        }
        let p = cube_draw(e);
        let d = p.dot_raw(&p);
        proof {
            lemma_mul_bound(p.x as int, p.x as int, SCALE as int, SCALE as int);
            lemma_mul_bound(p.y as int, p.y as int, SCALE as int, SCALE as int);
            lemma_mul_bound(p.z as int, p.z as int, SCALE as int, SCALE as int);
        }
        if 0 < d && d < SCALE * SCALE {
            return p;
        }
        fuel = fuel - 1;
    }
}

/// A unit-length direction drawn by normalising `random_in_unit_sphere`.
pub fn random_unit_vector(e: &mut Entropy) -> (r: Vec3)
    ensures
        bounded(r, SCALE as int),
        is_seeded(*old(e)) ==> r == unit_spec(unit_sphere_spec(seed_state(*old(e)), 64).0)
            && *final(e) == (Entropy::Seeded {
            state: unit_sphere_spec(seed_state(*old(e)), 64).1,
        }),
        !is_seeded(*old(e)) ==> *final(e) == *old(e),
{
    let p = random_in_unit_sphere(e);
    p.unit_vector()
}

/// A point of the unit ball lying on the same side as the normal `n`.
pub fn random_in_hemisphere(n: &Vec3, e: &mut Entropy) -> (r: Vec3)
    requires
        bounded(*n, 1073741824),
    ensures
        bounded(r, SCALE as int),
        dotv(r, *n) >= 0,
        is_seeded(*old(e)) ==> *final(e) == (Entropy::Seeded {
            state: unit_sphere_spec(seed_state(*old(e)), 64).1,
        }) && r == ({
            let v = unit_sphere_spec(seed_state(*old(e)), 64).0;
            if dotv(v, *n) > 0 { v } else { negv(v) }
        }),
        !is_seeded(*old(e)) ==> *final(e) == *old(e),
{
    let p = random_in_unit_sphere(e);
    let d = p.dot_raw(n);
    if d > 0 {
        p
    } else {
        proof {
            lemma_dotv_neg(p, *n);
        }
        p.neg()
    }
}

/// A point of the unit disk in the `z == 0` plane (by rejection from the
/// square), or the origin if every draw in the attempt budget was rejected.
pub fn random_in_unit_disk(e: &mut Entropy) -> (r: Vec3)
    ensures
        bounded(r, SCALE as int),
        dotv(r, r) < SCALE * SCALE,
        r.z == 0,
        is_seeded(*old(e)) ==> r == unit_disk_spec(seed_state(*old(e)), 64).0 && *final(e)
            == (Entropy::Seeded { state: unit_disk_spec(seed_state(*old(e)), 64).1 }),
        !is_seeded(*old(e)) ==> *final(e) == *old(e),
{
    let mut fuel: u64 = 64;
    loop
        invariant
            fuel <= 64,
            is_seeded(*old(e)) ==> is_seeded(*e) && unit_disk_spec(seed_state(*e), fuel as nat)
                == unit_disk_spec(seed_state(*old(e)), 64),
            !is_seeded(*old(e)) ==> *e == *old(e),
        decreases fuel,
    {
        if fuel == 0 {
            return Vec3 { x: 0, y: 0, z: 0 };
        }
        let x = e.next_in(-SCALE, SCALE);
        let y = e.next_in(-SCALE, SCALE);
        let p = Vec3 { x, y, z: 0 };
        let d = p.dot_raw(&p);
        proof {
            lemma_mul_bound(p.x as int, p.x as int, SCALE as int, SCALE as int);
            lemma_mul_bound(p.y as int, p.y as int, SCALE as int, SCALE as int);
        }
        if d < SCALE * SCALE {
            return p;
        }
        fuel = fuel - 1;
    }
}

} // verus!
