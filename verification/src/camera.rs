//! The fixed viewport camera: normalised image coordinates to rays.

use vstd::prelude::*;

verus! {

use crate::fixed::{floor_div, div_floor_i128, SCALE, VMAX};
use crate::ray::{Ray, wf_ray};
use crate::vec3::{Vec3, bounded, addv, subv, scalev};

/// A pinhole camera: its origin and the viewport's lower-left corner and
/// spanning vectors.
pub struct Camera {
    pub orig: Vec3,
    pub lower_left_corner: Vec3,
    pub horizontal: Vec3,
    pub vertical: Vec3,
}

/// All camera vectors are in range: a viewport a few units across.
pub open spec fn wf_camera(c: Camera) -> bool {
    &&& bounded(c.orig, 1048576)
    &&& bounded(c.lower_left_corner, 1048576)
    &&& bounded(c.horizontal, 1048576)
    &&& bounded(c.vertical, 1048576)
}

/// The default camera: a 16:9 viewport of height 2 at focal length 1, seen
/// from the origin.
pub open spec fn camera_spec() -> Camera {
    let vw = floor_div(32 * SCALE, 9);
    Camera {
        orig: Vec3 { x: 0i64, y: 0i64, z: 0i64 },
        lower_left_corner: Vec3 {
            x: (-floor_div(vw, 2)) as i64,
            y: (-SCALE) as i64,
            z: (-SCALE) as i64,
        },
        horizontal: Vec3 { x: vw as i64, y: 0i64, z: 0i64 },
        vertical: Vec3 { x: 0i64, y: (2 * SCALE) as i64, z: 0i64 },
    }
}

/// The ray through viewport coordinates `(u, v)`:
/// `origin -> lower_left + u * horizontal + v * vertical - origin`.
pub open spec fn get_ray_spec(c: Camera, u: int, v: int) -> Ray {
    Ray {
        origin: c.orig,
        dir: subv(
            addv(addv(c.lower_left_corner, scalev(c.horizontal, u)), scalev(c.vertical, v)),
            c.orig,
        ),
    }
}

impl Camera {
    /// The default camera.
    pub fn new() -> (r: Camera)
        ensures
            r == camera_spec(),
            wf_camera(r),
    {
        let viewport_height: i64 = 2 * SCALE;
        let viewport_width: i64 = div_floor_i128(32 * (SCALE as i128), 9) as i64;
        let focal_length: i64 = SCALE;
        let orig = Vec3::zeros();
        let horizontal = Vec3::new(viewport_width, 0, 0);
        let vertical = Vec3::new(0, viewport_height, 0);
        let half_w: i64 = div_floor_i128(viewport_width as i128, 2) as i64;
        let lower_left_corner = Vec3::new(-half_w, -SCALE, -focal_length);
        Camera { orig, lower_left_corner, horizontal, vertical }
    }

    /// The ray through normalised viewport coordinates `(u, v)`, each in
    /// `[0, 1]`.
    pub fn get_ray(&self, u: i64, v: i64) -> (r: Ray)
        requires
            wf_camera(*self),
            0 <= u <= 2 * SCALE,
            0 <= v <= 2 * SCALE,
        ensures
            r == get_ray_spec(*self, u as int, v as int),
            wf_ray(r),
    {
        proof {
            crate::fixed::lemma_fp_mul_bound(self.horizontal.x as int, u as int, 1048576, 131072);
            crate::fixed::lemma_fp_mul_bound(self.horizontal.y as int, u as int, 1048576, 131072);
            crate::fixed::lemma_fp_mul_bound(self.horizontal.z as int, u as int, 1048576, 131072);
            crate::fixed::lemma_fp_mul_bound(self.vertical.x as int, v as int, 1048576, 131072);
            crate::fixed::lemma_fp_mul_bound(self.vertical.y as int, v as int, 1048576, 131072);
            crate::fixed::lemma_fp_mul_bound(self.vertical.z as int, v as int, 1048576, 131072);
        }
        let dir = self.lower_left_corner.plus(&self.horizontal.scaled(u)).plus(
            &self.vertical.scaled(v),
        ).minus(&self.orig);
        Ray::new(self.orig, dir)
    }
}

} // verus!
