//! The renderer: per-pixel multi-sample estimation over a scene.
//!
//! Each sample jitters the pixel's viewport coordinates, traces a camera ray
//! and accumulates its radiance; the average is gamma-corrected and
//! quantised into the byte buffer.  Driven by a seeded entropy source the
//! whole render is an exact function of the seed, which is what makes
//! repeated renders pixel-identical.

use vstd::prelude::*;

verus! {

use crate::buf::{Buf, wf_buf, quantize, quantize_spec, pix_index};
use crate::camera::{Camera, wf_camera, get_ray_spec};
use crate::fixed::{floor_div, div_floor_i128, SCALE, VMAX};
use crate::hitable_list::{HitableList, wf_list};
use crate::material::{Material, Lambertian, Metal, Dielectric};
use crate::ray::{color_spec, wf_color};
use crate::rng::{Entropy, is_seeded, seed_state, lcg_next, draw_below};
use crate::sphere::Sphere;
use crate::vec3::{Vec3, bounded, dotv, addv};

/// A jittered viewport coordinate: `(i + d) / (len - 1)` at scale `SCALE`,
/// where `d` is the jitter draw below one pixel.
pub open spec fn sample_uv(i: int, d: int, len: int) -> int {
    floor_div(i * SCALE + d, len - 1)
}

/// The colour accumulated over the first `n` samples of pixel column `x`,
/// scanline `j` (counted from the bottom), with the generator state that
/// follows: each sample draws two jitters, traces the camera ray through the
/// jittered coordinates, and adds its radiance.
#[verifier::opaque]
pub open spec fn sample_acc_spec(
    objs: Seq<Sphere>,
    cam: Camera,
    x: int,
    j: int,
    w: int,
    h: int,
    n: nat,
    depth: u32,
    s: u64,
) -> (Vec3, u64)
    decreases n,
{
    if n == 0 {
        (Vec3 { x: 0i64, y: 0i64, z: 0i64 }, s)
    } else {
        let prev = sample_acc_spec(objs, cam, x, j, w, h, (n - 1) as nat, depth, s);
        let s0 = prev.1;
        let du = draw_below(s0, 65536);
        let s1 = lcg_next(s0);
        let dv = draw_below(s1, 65536);
        let s2 = lcg_next(s1);
        let u = sample_uv(x, du as int, w);
        let v = sample_uv(j, dv as int, h);
        let c = color_spec(objs, get_ray_spec(cam, u, v), depth, s2);
        (addv(prev.0, c.0), c.1)
    }
}

/// The colour accumulated over `samples` jittered rays through pixel column
/// `x` of scanline `j` (counted from the bottom).  Every channel stays
/// between zero and `samples` units, and with a seeded source both the colour
/// and the state afterwards are exact functions of the state before.
pub fn pixel_color(
    world: &HitableList,
    cam: &Camera,
    x: u32,
    j: u32,
    width: u32,
    height: u32,
    samples: u32,
    depth: u32,
    e: &mut Entropy,
) -> (acc: Vec3)
    requires
        wf_list(world.objects@),
        wf_camera(*cam),
        2 <= width <= 4096,
        2 <= height <= 4096,
        x < width,
        j < height,
        0 < samples <= 1048576,
    ensures
        0 <= acc.x <= samples * SCALE,
        0 <= acc.y <= samples * SCALE,
        0 <= acc.z <= samples * SCALE,
        is_seeded(*old(e)) ==> ({
            let o = sample_acc_spec(world.objects@, *cam, x as int, j as int, width as int,
                height as int, samples as nat, depth, seed_state(*old(e)));
            acc == o.0 && *final(e) == (Entropy::Seeded { state: o.1 })
        }),
        !is_seeded(*old(e)) ==> *final(e) == *old(e),
{
    proof {
        reveal_with_fuel(sample_acc_spec, 1);
    }
    let mut acc = Vec3::zeros();
    let mut k: u32 = 0;
    while k < samples
        invariant
            wf_list(world.objects@),
            wf_camera(*cam),
            2 <= width <= 4096,
            2 <= height <= 4096,
            x < width,
            j < height,
            0 < samples <= 1048576,
            0 <= k <= samples,
            0 <= acc.x <= k * SCALE,
            0 <= acc.y <= k * SCALE,
            0 <= acc.z <= k * SCALE,
            is_seeded(*old(e)) ==> ({
                let o = sample_acc_spec(world.objects@, *cam, x as int, j as int, width as int,
                    height as int, k as nat, depth, seed_state(*old(e)));
                acc == o.0 && *e == (Entropy::Seeded { state: o.1 })
            }),
            !is_seeded(*old(e)) ==> *e == *old(e),
        decreases samples - k,
    {
        let du = e.next_below(65536) as i64;
        let dv = e.next_below(65536) as i64;
        proof {
            lemma_uv_range(x as int, du as int, width as int);
            lemma_uv_range(j as int, dv as int, height as int);
        }
        let u = div_floor_i128(((x as i128) * (SCALE as i128)) + (du as i128),
            (width - 1) as i128) as i64;
        let v = div_floor_i128(((j as i128) * (SCALE as i128)) + (dv as i128),
            (height - 1) as i128) as i64;
        let r = cam.get_ray(u, v);
        let c = r.color(world, depth, e);
        acc = acc.plus(&c);
        k = k + 1;
        proof {
            reveal_with_fuel(sample_acc_spec, 2);
        }
    }
    acc
}

/// A jittered coordinate stays within twice the unit interval.
proof fn lemma_uv_range(i: int, d: int, len: int)
    requires
        0 <= i < len,
        2 <= len <= 4096,
        0 <= d < SCALE,
    ensures
        0 <= sample_uv(i, d, len) <= 2 * SCALE,
        i * SCALE + d < 268500992,
        0 <= i * SCALE + d,
{
    assert(0 <= i * SCALE && i * SCALE + d < 268500992) by (nonlinear_arith)
        requires 0 <= i < len && len <= 4096 && 0 <= d < SCALE;
    vstd::arithmetic::div_mod::lemma_div_pos_is_pos(i * SCALE + d, len - 1);
    assert(i * SCALE + d <= (len - 1) * (2 * SCALE)) by (nonlinear_arith)
        requires 0 <= i <= len - 1 && 0 <= d < SCALE && 2 <= len;
    vstd::arithmetic::div_mod::lemma_div_is_ordered(i * SCALE + d, (len - 1) * (2 * SCALE),
        len - 1);
    vstd::arithmetic::div_mod::lemma_div_multiples_vanish(2 * SCALE as int, len - 1);
}

/// The three bytes of one rendered pixel: the accumulated colour of
/// `pixel_color`, averaged, gamma-corrected and quantised.
pub fn render_pixel(
    world: &HitableList,
    cam: &Camera,
    x: u32,
    j: u32,
    width: u32,
    height: u32,
    samples: u32,
    depth: u32,
    e: &mut Entropy,
) -> (rgb: (u8, u8, u8))
    requires
        wf_list(world.objects@),
        wf_camera(*cam),
        2 <= width <= 4096,
        2 <= height <= 4096,
        x < width,
        j < height,
        0 < samples <= 1048576,
    ensures
        is_seeded(*old(e)) ==> ({
            let o = sample_acc_spec(world.objects@, *cam, x as int, j as int, width as int,
                height as int, samples as nat, depth, seed_state(*old(e)));
            rgb == (quantize_spec(o.0.x as int, samples as int), quantize_spec(o.0.y as int,
                samples as int), quantize_spec(o.0.z as int, samples as int)) && *final(e)
                == (Entropy::Seeded { state: o.1 })
        }),
        !is_seeded(*old(e)) ==> *final(e) == *old(e),
{
    let acc = pixel_color(world, cam, x, j, width, height, samples, depth, e);
    (quantize(acc.x, samples), quantize(acc.y, samples), quantize(acc.z, samples))
}

/// The bytes of the first `p` pixels in row-major buffer order (the top
/// scanline first), with the generator state that follows them.  Pixel `p`
/// sits at buffer column `p % w`, buffer row `p / w`, which is scanline
/// `h - 1 - p / w` counted from the bottom.
#[verifier::opaque]
pub open spec fn render_pix_spec(
    objs: Seq<Sphere>,
    cam: Camera,
    w: int,
    h: int,
    samples: u32,
    depth: u32,
    p: nat,
    s: u64,
) -> (Seq<u8>, u64)
    decreases p,
{
    if p == 0 {
        (Seq::empty(), s)
    } else {
        let prev = render_pix_spec(objs, cam, w, h, samples, depth, (p - 1) as nat, s);
        let y = ((p - 1) as int) / w;
        let x = ((p - 1) as int) % w;
        let acc = sample_acc_spec(objs, cam, x, h - 1 - y, w, h, samples as nat, depth, prev.1);
        (
            prev.0.push(quantize_spec(acc.0.x as int, samples as int)).push(
                quantize_spec(acc.0.y as int, samples as int),
            ).push(quantize_spec(acc.0.z as int, samples as int)),
            acc.1,
        )
    }
}

/// The full rendered image for a given seed: every pixel's three quantised
/// bytes, in row-major order.  Rendering is an exact function of the scene,
/// camera, dimensions, sampling parameters and seed, so two renders with the
/// same arguments agree byte for byte.
pub open spec fn render_spec(
    objs: Seq<Sphere>,
    cam: Camera,
    w: int,
    h: int,
    samples: u32,
    depth: u32,
    seed: u64,
) -> Seq<u8> {
    render_pix_spec(objs, cam, w, h, samples, depth, (w * h) as nat, seed).0
}

/// The first `p` pixels occupy exactly `3 p` bytes.
pub proof fn lemma_render_pix_len(
    objs: Seq<Sphere>,
    cam: Camera,
    w: int,
    h: int,
    samples: u32,
    depth: u32,
    p: nat,
    s: u64,
)
    ensures
        render_pix_spec(objs, cam, w, h, samples, depth, p, s).0.len() == 3 * p,
    decreases p,
{
    reveal_with_fuel(render_pix_spec, 2);
    if p > 0 {
        lemma_render_pix_len(objs, cam, w, h, samples, depth, (p - 1) as nat, s);
    }
}

/// Render the whole image: for each pixel, accumulate `samples` jittered
/// rays, average, gamma-correct and quantise.  The result is pinned exactly:
/// the buffer holds `render_spec` of the arguments, so a repeated render with
/// the same seed is pixel-identical.
#[verifier::rlimit(100)]
#[verifier::spinoff_prover]
pub fn render(
    world: &HitableList,
    cam: &Camera,
    width: u32,
    height: u32,
    samples: u32,
    depth: u32,
    seed: u64,
) -> (buf: Buf)
    requires
        wf_list(world.objects@),
        wf_camera(*cam),
        2 <= width <= 4096,
        2 <= height <= 4096,
        0 < samples <= 1048576,
    ensures
        wf_buf(buf),
        buf.width == width,
        buf.height == height,
        buf.data@ == render_spec(world.objects@, *cam, width as int, height as int, samples,
            depth, seed),
{
    let ghost objs = world.objects@;
    proof {
        reveal_with_fuel(render_pix_spec, 1);
    }
    let mut buf = Buf::with_size(width, height);
    let mut e = Entropy::from_seed(seed);
    let mut y: u32 = 0;
    while y < height
        invariant
            wf_list(objs),
            objs == world.objects@,
            wf_camera(*cam),
            2 <= width <= 4096,
            2 <= height <= 4096,
            0 < samples <= 1048576,
            0 <= y <= height,
            wf_buf(buf),
            buf.width == width,
            buf.height == height,
            is_seeded(e),
            seed_state(e) == render_pix_spec(objs, *cam, width as int, height as int, samples,
                depth, (y * width) as nat, seed).1,
            buf.data@.take(3 * (y * width) as int) == render_pix_spec(objs, *cam, width as int,
                height as int, samples, depth, (y * width) as nat, seed).0,
        decreases height - y,
    {
        let j = height - 1 - y;
        let mut x: u32 = 0;
        proof {
            assert((y * width + width) as int == (y + 1) * width && y * width + width <= height
                * width && (y * width) as int + x as int <= height * width) by (nonlinear_arith)
                requires 0 <= y < height && x == 0 && 0 < width;
        }
        while x < width
            invariant
                wf_list(objs),
                objs == world.objects@,
                wf_camera(*cam),
                2 <= width <= 4096,
                2 <= height <= 4096,
                0 < samples <= 1048576,
                0 <= y < height,
                j == height - 1 - y,
                0 <= x <= width,
                (y * width) as int + x as int <= height * width,
                wf_buf(buf),
                buf.width == width,
                buf.height == height,
                is_seeded(e),
                seed_state(e) == render_pix_spec(objs, *cam, width as int, height as int,
                    samples, depth, (y * width + x) as nat, seed).1,
                buf.data@.take(3 * (y * width + x) as int) == render_pix_spec(objs, *cam,
                    width as int, height as int, samples, depth, (y * width + x) as nat, seed).0,
            decreases width - x,
        {
            let ghost p: int = (y * width + x) as int;
            proof {
                assert(p + 1 <= (height * width) as int && 3 * p + 3 <= 3 * (width as int)
                    * (height as int)) by (nonlinear_arith)
                    requires p == (y * width + x) as int && 0 <= y < height && 0 <= x < width
                        && 0 < width;
            }
            let c = pixel_color(world, cam, x, j, width, height, samples, depth, &mut e);
            let ghost data1 = buf.data@;
            buf.write_color(x, y, c, samples);
            proof {
                lemma_render_step(objs, *cam, width as int, height as int, samples, depth, seed,
                    y as int, x as int, c, seed_state(e), data1, buf.data@);
            }
            x = x + 1;
        }
        proof {
            assert((y * width + width) as int == ((y + 1) * width) as int) by (nonlinear_arith)
                requires 0 <= y < height && 0 < width <= 4096 && height <= 4096;
        }
        y = y + 1;
    }
    proof {
        lemma_render_pix_len(objs, *cam, width as int, height as int, samples, depth,
            (height * width) as nat, seed);
        assert((height * width) as int == (width as int) * (height as int)
            && 3 * ((height * width) as int) == 3 * (width as int) * (height as int))
            by (nonlinear_arith);
        assert(buf.data@.len() == 3 * (height * width) as int);
        assert(buf.data@.take(3 * (height * width) as int) =~= buf.data@);
    }
    buf
}

/// Writing one pixel's three bytes extends the finished prefix by exactly
/// those bytes.
proof fn lemma_take_push3(s1: Seq<u8>, s2: Seq<u8>, p: int, r: u8, g: u8, b: u8)
    requires
        0 <= p,
        3 * p + 3 <= s1.len(),
        s2 == s1.update(3 * p, r).update(3 * p + 1, g).update(3 * p + 2, b),
    ensures
        s2.take(3 * p + 3) == s1.take(3 * p).push(r).push(g).push(b),
        s2.take(3 * p) == s1.take(3 * p),
        s2.len() == s1.len(),
{
    assert(s2.take(3 * p + 3) =~= s1.take(3 * p).push(r).push(g).push(b));
    assert(s2.take(3 * p) =~= s1.take(3 * p));
}

/// One rendered pixel advances the finished prefix and the generator state
/// to those of the next pixel count.
#[verifier::spinoff_prover]
proof fn lemma_render_step(
    objs: Seq<Sphere>,
    cam: Camera,
    w: int,
    h: int,
    samples: u32,
    depth: u32,
    seed: u64,
    y: int,
    x: int,
    acc: Vec3,
    s_out: u64,
    data1: Seq<u8>,
    data2: Seq<u8>,
)
    requires
        0 <= y < h,
        0 <= x < w,
        1 <= w,
        3 * (y * w + x) + 3 <= data1.len(),
        data1.take(3 * (y * w + x)) == render_pix_spec(objs, cam, w, h, samples, depth, (y * w
            + x) as nat, seed).0,
        acc == sample_acc_spec(objs, cam, x, h - 1 - y, w, h, samples as nat, depth,
            render_pix_spec(objs, cam, w, h, samples, depth, (y * w + x) as nat, seed).1).0,
        s_out == sample_acc_spec(objs, cam, x, h - 1 - y, w, h, samples as nat, depth,
            render_pix_spec(objs, cam, w, h, samples, depth, (y * w + x) as nat, seed).1).1,
        data2 == data1.update(3 * (y * w + x), quantize_spec(acc.x as int, samples as int))
            .update(3 * (y * w + x) + 1, quantize_spec(acc.y as int, samples as int)).update(
            3 * (y * w + x) + 2,
            quantize_spec(acc.z as int, samples as int),
        ),
    ensures
        data2.take(3 * (y * w + x) + 3) == render_pix_spec(objs, cam, w, h, samples, depth, (y
            * w + x + 1) as nat, seed).0,
        s_out == render_pix_spec(objs, cam, w, h, samples, depth, (y * w + x + 1) as nat,
            seed).1,
        data2.len() == data1.len(),
{
    reveal_with_fuel(render_pix_spec, 2);
    let p: int = y * w + x;
    vstd::arithmetic::div_mod::lemma_fundamental_div_mod_converse(p, w, y, x);
    let pr = render_pix_spec(objs, cam, w, h, samples, depth, p as nat, seed);
    let qr = quantize_spec(acc.x as int, samples as int);
    let qg = quantize_spec(acc.y as int, samples as int);
    let qb = quantize_spec(acc.z as int, samples as int);
    lemma_take_push3(data1, data2, p, qr, qg, qb);
    assert(render_pix_spec(objs, cam, w, h, samples, depth, (p + 1) as nat, seed) == (pr.0.push(
        qr,
    ).push(qg).push(qb), s_out));
}

/// A scene of small spheres on a grid around three large ones over a ground
/// sphere, with materials and positions chosen by draws from `e`.  Every
/// sphere built is in range.
pub fn random_scene(e: &mut Entropy) -> (world: HitableList)
    ensures
        wf_list(world.objects@),
        4 <= world.objects@.len() <= 488,
        world.objects@.last() == (Sphere {
            center: Vec3 { x: 262144i64, y: SCALE, z: 0i64 },
            radius: SCALE,
            mat: Material::Metal(Metal { albedo: Vec3 { x: 45875i64, y: 39322i64, z: 32768i64 }, fuzz: 0i64 }),
        }),
        world.objects@[world.objects@.len() - 2] == (Sphere {
            center: Vec3 { x: (-262144) as i64, y: SCALE, z: 0i64 },
            radius: SCALE,
            mat: Material::Lambertian(Lambertian { albedo: Vec3 { x: 26214i64, y: 13107i64, z: 6554i64 } }),
        }),
        world.objects@[world.objects@.len() - 3] == (Sphere {
            center: Vec3 { x: 0i64, y: SCALE, z: 0i64 },
            radius: SCALE,
            mat: Material::Dielectric(Dielectric { ir: 98304i64 }),
        }),
        world.objects@[world.objects@.len() - 4] == (Sphere {
            center: Vec3 { x: 0i64, y: (-65536000) as i64, z: 0i64 },
            radius: 65536000i64,
            mat: Material::Lambertian(Lambertian { albedo: Vec3 { x: 32768i64, y: 32768i64, z: 32768i64 } }),
        }),
{
    let mut world = HitableList::new();
    let mut a: i64 = -11;
    while a < 11
        invariant
            wf_list(world.objects@),
            -11 <= a <= 11,
            world.objects@.len() <= (a + 11) * 22,
        decreases 11 - a,
    {
        let mut b: i64 = -11;
        while b < 11
            invariant
                wf_list(world.objects@),
                -11 <= a < 11,
                -11 <= b <= 11,
                world.objects@.len() <= (a + 11) * 22 + (b + 11),
            decreases 11 - b,
        {
            let choose_mat = e.next_below(65536) as i64;
            let dx = e.next_below(65536) as i64;
            let dz = e.next_below(65536) as i64;
            let center = Vec3::new(
                a * SCALE + (div_floor_i128(58982 * (dx as i128), SCALE as i128) as i64),
                13107,
                b * SCALE + (div_floor_i128(58982 * (dz as i128), SCALE as i128) as i64),
            );
            let anchor = Vec3::new(4 * SCALE, 13107, 0);
            let diff = center.minus(&anchor);
            let dd = diff.dot_raw(&diff);
            if dd > 3478876324 {
                let mat: Material;
                if choose_mat < 45875 {
                    let albedo = Vec3::random(e);
                    mat = Material::Lambertian(Lambertian::new(albedo));
                } else if choose_mat < 52428 {
                    let albedo = Vec3::random(e);
                    let fuzz = e.next_below(32768) as i64;
                    mat = Material::Metal(Metal::new(albedo, fuzz));
                } else {
                    mat = Material::Dielectric(Dielectric::new(98304));
                }
                world.add(Sphere::new(center, 13107, mat));
            }
            b = b + 1;
        }
        a = a + 1;
    }
    let mat_ground = Material::Lambertian(Lambertian::new(Vec3::new(32768, 32768, 32768)));
    world.add(Sphere::new(Vec3::new(0, -65536000, 0), 65536000, mat_ground));
    let mat1 = Material::Dielectric(Dielectric::new(98304));
    world.add(Sphere::new(Vec3::new(0, SCALE, 0), SCALE, mat1));
    let mat2 = Material::Lambertian(Lambertian::new(Vec3::new(26214, 13107, 6554)));
    world.add(Sphere::new(Vec3::new(-4 * SCALE, SCALE, 0), SCALE, mat2));
    let mat3 = Material::Metal(Metal::new(Vec3::new(45875, 39322, 32768), 0));
    world.add(Sphere::new(Vec3::new(4 * SCALE, SCALE, 0), SCALE, mat3));
    world
}

} // verus!
