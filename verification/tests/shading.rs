use ray::buf::Buf;
use ray::camera::Camera;
use ray::fixed::{SCALE, T_LIMIT};
use ray::hitable::HitRecord;
use ray::hitable_list::HitableList;
use ray::material::{Dielectric, Lambertian, Material, Metal};
use ray::ray::Ray;
use ray::rng::Entropy;
use ray::sphere::Sphere;
use ray::tracer;
use ray::vec3::Vec3;

fn gray() -> Material {
    Material::Lambertian(Lambertian::new(Vec3::new(32768, 32768, 32768)))
}

fn head_on_record() -> HitRecord {
    // The record a head-on hit of a unit sphere produces: point on the front
    // wall, normal towards the ray origin.
    HitRecord {
        p: Vec3::new(0, 0, -2 * SCALE),
        normal: Vec3::new(0, 0, SCALE),
        mat: gray(),
        t: 2 * SCALE,
        front_face: true,
    }
}

#[test]
fn lambertian_scatter_never_absorbs() {
    let rec = head_on_record();
    let r_in = Ray::new(Vec3::zeros(), Vec3::new(0, 0, -SCALE));
    for seed in 0..32u64 {
        let mut e = Entropy::from_seed(seed);
        let m = Material::Lambertian(Lambertian::new(Vec3::new(SCALE / 2, SCALE / 4, SCALE)));
        let out = m.scatter(&r_in, &rec, &mut e);
        let (att, sc) = out.expect("a diffuse surface always scatters");
        assert_eq!(att.x, SCALE / 2);
        assert_eq!(att.y, SCALE / 4);
        assert_eq!(att.z, SCALE);
        assert_eq!(sc.origin, rec.p);
    }
}

#[test]
fn metal_scatter_absorbs_exactly_on_nonpositive_dot() {
    let rec = head_on_record();
    // A polished metal facing the ray: the reflection leaves the surface.
    let m = Material::Metal(Metal::new(Vec3::new(SCALE, SCALE, SCALE), 0));
    let r_in = Ray::new(Vec3::zeros(), Vec3::new(0, 0, -SCALE));
    let mut e = Entropy::from_seed(7);
    let (att, sc) = m.scatter(&r_in, &rec, &mut e).expect("reflection leaves the surface");
    assert_eq!(att.x, SCALE);
    // Head-on reflection turns the ray around.
    assert_eq!(sc.dir.x, 0);
    assert_eq!(sc.dir.y, 0);
    assert_eq!(sc.dir.z, SCALE);
    let d = sc.dir.z as i128 * rec.normal.z as i128;
    assert!(d > 0);

    // A ray arriving from behind the surface: the fuzz-free reflection has
    // non-positive dot with the normal, so the ray is absorbed.
    let from_behind = Ray::new(Vec3::zeros(), Vec3::new(0, 0, SCALE));
    let mut e2 = Entropy::from_seed(7);
    assert!(m.scatter(&from_behind, &rec, &mut e2).is_none());
}

#[test]
fn metal_new_clamps_fuzz() {
    let m = Metal::new(Vec3::zeros(), 3 * SCALE);
    assert_eq!(m.fuzz, SCALE);
    let m2 = Metal::new(Vec3::zeros(), -5);
    assert_eq!(m2.fuzz, 0);
    let m3 = Metal::new(Vec3::zeros(), 123);
    assert_eq!(m3.fuzz, 123);
}

#[test]
fn dielectric_scatter_always_some_with_unit_attenuation() {
    let rec = head_on_record();
    let glass = Material::Dielectric(Dielectric::new(98304));
    let r_in = Ray::new(Vec3::zeros(), Vec3::new(0, 0, -SCALE));
    for seed in 0..32u64 {
        let mut e = Entropy::from_seed(seed);
        let (att, sc) = glass.scatter(&r_in, &rec, &mut e).expect("glass always scatters");
        assert_eq!(att.x, SCALE);
        assert_eq!(att.y, SCALE);
        assert_eq!(att.z, SCALE);
        assert_eq!(sc.origin, rec.p);
    }
}

#[test]
fn color_at_depth_zero_is_black() {
    let mut world = HitableList::new();
    world.add(Sphere::new(Vec3::new(0, 0, -3 * SCALE), SCALE, gray()));
    let r = Ray::new(Vec3::zeros(), Vec3::new(0, 0, -SCALE));
    let mut e = Entropy::from_seed(1);
    let c = r.color(&world, 0, &mut e);
    assert_eq!(c.x, 0);
    assert_eq!(c.y, 0);
    assert_eq!(c.z, 0);
}

#[test]
fn color_of_missing_ray_is_background() {
    let mut world = HitableList::new();
    world.add(Sphere::new(Vec3::new(0, -66 * SCALE, 0), 65 * SCALE, gray()));
    // A ray pointing up misses the sphere below.
    let r = Ray::new(Vec3::zeros(), Vec3::new(0, SCALE, 0));
    let mut e = Entropy::from_seed(1);
    let c = r.color(&world, 1, &mut e);
    let bg = r.background();
    assert_eq!(c, bg);
    // Straight up: unit y is 1, so the blend picks the sky colour exactly.
    assert_eq!(bg.x, SCALE / 2);
    assert_eq!(bg.y, 45875);
    assert_eq!(bg.z, SCALE);
}

#[test]
fn normal_color_shades_hits_flat_and_misses_background() {
    let mut world = HitableList::new();
    world.add(Sphere::new(Vec3::new(0, -3 * SCALE, 0), SCALE, gray()));
    // Down to the sphere: hit at (0, -2, 0), normal (0, 1, 0), shaded as
    // 0.5 * (normal + 1).
    let down = Ray::new(Vec3::zeros(), Vec3::new(0, -SCALE, 0));
    let c = down.normal_color(&world);
    assert_eq!(c.x, SCALE / 2);
    assert_eq!(c.y, SCALE);
    assert_eq!(c.z, SCALE / 2);
    // Up and away: the background gradient.
    let up = Ray::new(Vec3::zeros(), Vec3::new(0, SCALE, 0));
    assert_eq!(up.normal_color(&world), up.background());
}

#[test]
fn camera_new_matches_the_fixed_viewport() {
    let cam = Camera::new();
    assert_eq!(cam.orig, Vec3::new(0, 0, 0));
    assert_eq!(cam.horizontal, Vec3::new(233016, 0, 0));
    assert_eq!(cam.vertical, Vec3::new(0, 2 * SCALE, 0));
    assert_eq!(cam.lower_left_corner, Vec3::new(-116508, -SCALE, -SCALE));
}

#[test]
fn camera_corner_ray_points_at_lower_left() {
    let cam = Camera::new();
    let r = cam.get_ray(0, 0);
    assert_eq!(r.origin, Vec3::new(0, 0, 0));
    assert_eq!(r.dir, Vec3::new(-116508, -SCALE, -SCALE));
}

#[test]
fn buf_default_is_black_at_default_size() {
    let b = Buf::default();
    assert_eq!(b.data.len(), 400 * 200 * 3);
    assert!(b.data.iter().all(|&v| v == 0));
}

#[test]
fn write_color_quantizes_with_gamma() {
    let mut b = Buf::with_size(4, 2);
    // 0.25 averaged over one sample, gamma-2 corrected, is 0.5: byte 128.
    b.write_color(1, 0, Vec3::new(SCALE / 4, 0, SCALE), 1);
    assert_eq!(b.data[3], 128);
    assert_eq!(b.data[4], 0);
    assert_eq!(b.data[5], 255);
    // Every other byte is untouched.
    assert_eq!(b.data[0], 0);
    assert_eq!(b.data[6], 0);
}

#[test]
fn write_color_averages_over_samples() {
    let mut b = Buf::with_size(2, 2);
    // 1.0 accumulated over four samples averages to 0.25: byte 128 after
    // gamma.
    b.write_color(0, 0, Vec3::new(SCALE, SCALE, SCALE), 4);
    assert_eq!(b.data[0], 128);
}

#[test]
fn render_fills_the_buffer() {
    let mut world = HitableList::new();
    world.add(Sphere::new(Vec3::new(0, 0, -3 * SCALE), SCALE, gray()));
    let cam = Camera::new();
    let buf = tracer::render(&world, &cam, 4, 3, 2, 3, 42);
    assert_eq!(buf.width, 4);
    assert_eq!(buf.height, 3);
    assert_eq!(buf.data.len(), 36);
}

#[test]
fn render_with_equal_seeds_is_pixel_identical() {
    let mut world = HitableList::new();
    world.add(Sphere::new(Vec3::new(0, 0, -3 * SCALE), SCALE, gray()));
    world.add(Sphere::new(Vec3::new(0, -66 * SCALE, 0), 65 * SCALE,
        Material::Metal(Metal::new(Vec3::new(45875, 39322, 32768), SCALE / 4))));
    let cam = Camera::new();
    let one = tracer::render(&world, &cam, 6, 4, 3, 4, 12345);
    let two = tracer::render(&world, &cam, 6, 4, 3, 4, 12345);
    assert_eq!(one.data, two.data);
}

#[test]
fn render_pixel_matches_render() {
    let mut world = HitableList::new();
    world.add(Sphere::new(Vec3::new(0, 0, -3 * SCALE), SCALE, gray()));
    let cam = Camera::new();
    let buf = tracer::render(&world, &cam, 4, 3, 2, 3, 9);
    // The first pixel rendered is column 0 of the top scanline, which is the
    // bottom-up scanline height - 1, and the render starts from the seed.
    let mut e = Entropy::from_seed(9);
    let (r, g, b) = tracer::render_pixel(&world, &cam, 0, 2, 4, 3, 2, 3, &mut e);
    assert_eq!(buf.data[0], r);
    assert_eq!(buf.data[1], g);
    assert_eq!(buf.data[2], b);
}

#[test]
fn seeded_draws_are_reproducible_and_in_range() {
    let mut a = Entropy::from_seed(99);
    let mut b = Entropy::from_seed(99);
    for _ in 0..100 {
        let x = a.next_below(1000);
        let y = b.next_below(1000);
        assert_eq!(x, y);
        assert!(x < 1000);
    }
    let mut c = Entropy::from_seed(99);
    for _ in 0..50 {
        let v = c.next_in(-SCALE, SCALE);
        assert!(-SCALE <= v && v < SCALE);
    }
}

#[test]
fn external_draws_stay_in_range() {
    // The thread-local generator backs this stream; only the range is known
    // of its draws.
    let mut e = Entropy::external();
    for _ in 0..200 {
        let v = e.next_below(17);
        assert!(v < 17);
        let w = e.next_in(-3, 3);
        assert!(-3 <= w && w < 3);
    }
    let mut world = HitableList::new();
    world.add(Sphere::new(Vec3::new(0, 0, -3 * SCALE), SCALE, gray()));
    let r = Ray::new(Vec3::zeros(), Vec3::new(0, 0, -SCALE));
    let c = r.color(&world, 4, &mut e);
    assert!(0 <= c.x && c.x <= SCALE);
}

#[test]
fn random_scene_builds_a_valid_world() {
    let mut e = Entropy::from_seed(3);
    let world = tracer::random_scene(&mut e);
    assert!(world.objects.len() >= 4);
    assert!(world.objects.len() <= 488);
    for s in world.objects.iter() {
        assert!(s.radius > 0);
    }
    // The same seed gives the same scene.
    let mut e2 = Entropy::from_seed(3);
    let world2 = tracer::random_scene(&mut e2);
    assert_eq!(world.objects.len(), world2.objects.len());
    for (a, b) in world.objects.iter().zip(world2.objects.iter()) {
        assert_eq!(a.center, b.center);
        assert_eq!(a.radius, b.radius);
    }
}

#[test]
fn random_samplers_stay_in_the_unit_ball() {
    let mut e = Entropy::from_seed(11);
    for _ in 0..64 {
        let p = ray::vec3::random_in_unit_sphere(&mut e);
        let d = (p.x as i128) * (p.x as i128) + (p.y as i128) * (p.y as i128) + (p.z as i128)
            * (p.z as i128);
        assert!(0 < d && d <= (SCALE as i128) * (SCALE as i128));
        let u = ray::vec3::random_unit_vector(&mut e);
        assert!(u.x.abs() <= SCALE && u.y.abs() <= SCALE && u.z.abs() <= SCALE);
        let q = ray::vec3::random_in_unit_disk(&mut e);
        assert_eq!(q.z, 0);
        let n = Vec3::new(0, SCALE, 0);
        let h = ray::vec3::random_in_hemisphere(&n, &mut e);
        let hd = (h.y as i128) * (SCALE as i128);
        assert!(hd >= 0);
    }
}

#[test]
fn integrator_darkens_with_each_bounce() {
    // A closed-in scene of one sphere around the ray: with a gray albedo,
    // deeper recursion can only keep or lower the radiance bound.
    let mut world = HitableList::new();
    world.add(Sphere::new(Vec3::new(0, 0, -3 * SCALE), SCALE, gray()));
    let r = Ray::new(Vec3::zeros(), Vec3::new(0, 0, -SCALE));
    let mut e = Entropy::from_seed(5);
    let c = r.color(&world, 8, &mut e);
    assert!(0 <= c.x && c.x <= SCALE);
    assert!(0 <= c.y && c.y <= SCALE);
    assert!(0 <= c.z && c.z <= SCALE);
}
