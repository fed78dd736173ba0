use ray::aabb::Aabb;
use ray::fixed::{SCALE, T_LIMIT};
use ray::hitable_list::HitableList;
use ray::material::{Lambertian, Material};
use ray::ray::Ray;
use ray::sphere::Sphere;
use ray::vec3::Vec3;

fn gray() -> Material {
    Material::Lambertian(Lambertian::new(Vec3::new(32768, 32768, 32768)))
}

#[test]
fn head_on_hit_t_is_distance_minus_radius() {
    // Origin 3 units from the centre, radius 1: t must be exactly 2.
    let s = Sphere::new(Vec3::new(0, 0, -3 * SCALE), SCALE, gray());
    let r = Ray::new(Vec3::zeros(), Vec3::new(0, 0, -SCALE));
    let h = s.hit(&r, 0, T_LIMIT).expect("head-on ray must hit");
    assert_eq!(h.t, 2 * SCALE);
    assert_eq!(h.p.x, 0);
    assert_eq!(h.p.y, 0);
    assert_eq!(h.p.z, -2 * SCALE);
    assert!(h.front_face);
}

#[test]
fn interval_is_open_at_the_near_end() {
    // The head-on hit sits at t = 2; with t_min = 2 the near root is
    // excluded and the far wall of the sphere, at t = 4, is reported
    // instead.
    let s = Sphere::new(Vec3::new(0, 0, -3 * SCALE), SCALE, gray());
    let r = Ray::new(Vec3::zeros(), Vec3::new(0, 0, -SCALE));
    let h = s.hit(&r, 2 * SCALE, T_LIMIT).expect("the far root is still inside");
    assert_eq!(h.t, 4 * SCALE);
    assert!(!h.front_face);
}

#[test]
fn interval_is_closed_at_the_far_end() {
    // With t_max exactly at the hit parameter the hit is still accepted.
    let s = Sphere::new(Vec3::new(0, 0, -3 * SCALE), SCALE, gray());
    let r = Ray::new(Vec3::zeros(), Vec3::new(0, 0, -SCALE));
    let h = s.hit(&r, 0, 2 * SCALE).expect("t_max is inclusive");
    assert_eq!(h.t, 2 * SCALE);
    // Just below the hit parameter nothing is reported.
    assert!(s.hit(&r, 0, 2 * SCALE - 1).is_none());
}

#[test]
fn perpendicular_offset_larger_than_radius_misses() {
    let s = Sphere::new(Vec3::new(0, 0, -3 * SCALE), SCALE, gray());
    // Offset 3 units above the centre line, radius only 1.
    let r = Ray::new(Vec3::new(0, 3 * SCALE, 0), Vec3::new(0, 0, -SCALE));
    assert!(s.hit(&r, 0, T_LIMIT).is_none());
}

#[test]
fn normal_is_unit_and_opposes_ray() {
    let s = Sphere::new(Vec3::new(0, 0, -3 * SCALE), SCALE, gray());
    let r = Ray::new(Vec3::zeros(), Vec3::new(0, 0, -SCALE));
    let h = s.hit(&r, 0, T_LIMIT).unwrap();
    // Unit length within 1e-5: the squared raw norm is within tolerance of
    // SCALE^2.
    let n2 = (h.normal.x as i128) * (h.normal.x as i128)
        + (h.normal.y as i128) * (h.normal.y as i128)
        + (h.normal.z as i128) * (h.normal.z as i128);
    let unit2 = (SCALE as i128) * (SCALE as i128);
    let tol = unit2 / 1000;
    assert!((n2 - unit2).abs() <= tol);
    // Oriented against the incoming ray.
    let d = (h.normal.x as i128) * (r.dir.x as i128) + (h.normal.y as i128) * (r.dir.y as i128)
        + (h.normal.z as i128) * (r.dir.z as i128);
    assert!(d <= 0);
}

#[test]
fn inside_sphere_back_face_normal_flipped() {
    // Ray starts at the centre: it hits the far wall from inside.
    let s = Sphere::new(Vec3::zeros(), SCALE, gray());
    let r = Ray::new(Vec3::zeros(), Vec3::new(0, 0, -SCALE));
    let h = s.hit(&r, 0, T_LIMIT).unwrap();
    assert!(!h.front_face);
    // The outward normal points towards -z; the stored normal is flipped to
    // oppose the ray, so it points towards +z.
    assert!(h.normal.z > 0);
    let d = (h.normal.z as i128) * (r.dir.z as i128);
    assert!(d <= 0);
}

#[test]
fn scene_hit_is_minimum_of_independent_hits() {
    let near = Sphere::new(Vec3::new(0, 0, -3 * SCALE), SCALE, gray());
    let far = Sphere::new(Vec3::new(0, 0, -6 * SCALE), SCALE, gray());
    let r = Ray::new(Vec3::zeros(), Vec3::new(0, 0, -SCALE));

    let t_near = near.hit(&r, 0, T_LIMIT).unwrap().t;
    let t_far = far.hit(&r, 0, T_LIMIT).unwrap().t;
    assert!(t_near < t_far);

    let mut world = HitableList::new();
    world.add(far);
    world.add(near);
    let h = world.hit(&r, 0, T_LIMIT).unwrap();
    assert_eq!(h.t, t_near);

    // The same scene with the spheres added in the other order agrees.
    let mut world2 = HitableList::new();
    world2.add(near);
    world2.add(far);
    let h2 = world2.hit(&r, 0, T_LIMIT).unwrap();
    assert_eq!(h2.t, h.t);
    assert_eq!(h2.p, h.p);
    assert_eq!(h2.normal, h.normal);
}

#[test]
fn empty_scene_hits_nothing() {
    let world = HitableList::new();
    let r = Ray::new(Vec3::zeros(), Vec3::new(0, 0, -SCALE));
    assert!(world.hit(&r, 0, T_LIMIT).is_none());
}

#[test]
fn unit_vector_of_three_four_zero() {
    let v = Vec3::new(3 * SCALE, 4 * SCALE, 0);
    let u = v.unit_vector();
    // |v| is exactly 5, so the components are 3/5 and 4/5, floor-rounded.
    assert_eq!(u.x, 39321);
    assert_eq!(u.y, 52428);
    assert_eq!(u.z, 0);
}

#[test]
fn reflect_head_on_turns_around() {
    let d = Vec3::new(0, 0, -SCALE);
    let n = Vec3::new(0, 0, SCALE);
    let r = d.reflect(&n);
    assert_eq!(r.x, 0);
    assert_eq!(r.y, 0);
    assert_eq!(r.z, SCALE);
}

#[test]
fn ray_at_walks_the_direction() {
    let r = Ray::new(Vec3::new(SCALE, 0, 0), Vec3::new(0, 0, -SCALE));
    let p = r.at(2 * SCALE);
    assert_eq!(p.x, SCALE);
    assert_eq!(p.y, 0);
    assert_eq!(p.z, -2 * SCALE);
}

#[test]
fn sphere_bounding_box_is_center_plus_minus_radius() {
    let s = Sphere::new(Vec3::new(SCALE, 2 * SCALE, -SCALE), SCALE, gray());
    let b = s.bounding_box().unwrap();
    assert_eq!(b.min.x, 0);
    assert_eq!(b.min.y, SCALE);
    assert_eq!(b.min.z, -2 * SCALE);
    assert_eq!(b.max.x, 2 * SCALE);
    assert_eq!(b.max.y, 3 * SCALE);
    assert_eq!(b.max.z, 0);
}

#[test]
fn aabb_slab_test_hit_and_miss() {
    let b = Aabb {
        min: Vec3::new(-SCALE, -SCALE, -4 * SCALE),
        max: Vec3::new(SCALE, SCALE, -2 * SCALE),
    };
    let towards = Ray::new(Vec3::zeros(), Vec3::new(0, 0, -SCALE));
    assert!(b.hit(&towards, 0, T_LIMIT));
    let away = Ray::new(Vec3::zeros(), Vec3::new(0, 0, SCALE));
    assert!(!b.hit(&away, 0, T_LIMIT));
    let sideways = Ray::new(Vec3::new(0, 3 * SCALE, 0), Vec3::new(0, 0, -SCALE));
    assert!(!b.hit(&sideways, 0, T_LIMIT));
}

#[test]
fn surrounding_box_covers_both() {
    let a = Aabb { min: Vec3::new(0, 0, 0), max: Vec3::new(SCALE, SCALE, SCALE) };
    let b = Aabb {
        min: Vec3::new(-SCALE, SCALE / 2, 0),
        max: Vec3::new(SCALE / 2, 2 * SCALE, 3 * SCALE),
    };
    let s = a.surrounding_box(b);
    assert_eq!(s.min.x, -SCALE);
    assert_eq!(s.min.y, 0);
    assert_eq!(s.min.z, 0);
    assert_eq!(s.max.x, SCALE);
    assert_eq!(s.max.y, 2 * SCALE);
    assert_eq!(s.max.z, 3 * SCALE);
}

#[test]
fn scene_bounding_box_folds_all_spheres() {
    let mut world = HitableList::new();
    assert!(world.bounding_box().is_none());
    world.add(Sphere::new(Vec3::zeros(), SCALE, gray()));
    world.add(Sphere::new(Vec3::new(4 * SCALE, 0, 0), SCALE, gray()));
    let b = world.bounding_box().unwrap();
    assert_eq!(b.min.x, -SCALE);
    assert_eq!(b.max.x, 5 * SCALE);
    assert_eq!(b.min.y, -SCALE);
    assert_eq!(b.max.y, SCALE);
}
