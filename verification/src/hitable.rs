//! The record of a ray-surface intersection.

use vstd::prelude::*;

verus! {

use crate::fixed::{SCALE, VMAX, T_LIMIT};
use crate::material::{Material, wf_material};
use crate::ray::Ray;
use crate::vec3::{Vec3, bounded, dotv, negv};

/// The outcome of an accepted intersection: hit point, oriented unit normal,
/// the material there, the ray parameter, and which side was struck.
#[derive(Clone, Copy, PartialEq, Eq, Structural, Debug)]
pub struct HitRecord {
    pub p: Vec3,
    pub normal: Vec3,
    pub mat: Material,
    pub t: i64,
    pub front_face: bool,
}

/// A record the rest of the tracer can consume: the hit point is in range,
/// the normal is a unit-scale direction, and `t` is positive and finite.
pub open spec fn wf_rec(h: HitRecord) -> bool {
    &&& bounded(h.p, VMAX as int)
    &&& bounded(h.normal, 2 * SCALE)
    &&& 0 < h.t <= T_LIMIT
    &&& wf_material(h.mat)
}

/// The normal `set_face_normal` stores: the outward normal if the ray meets
/// the front face, else its negation, so that it always opposes the ray.
pub open spec fn oriented_normal(dir: Vec3, outward: Vec3) -> Vec3 {
    if dotv(dir, outward) < 0 {
        outward
    } else {
        negv(outward)
    }
}

impl HitRecord {
    /// A blank record (zero point and normal, diffuse black material).
    pub fn default() -> (r: HitRecord)
        ensures
            r == (HitRecord {
                p: Vec3 { x: 0i64, y: 0i64, z: 0i64 },
                normal: Vec3 { x: 0i64, y: 0i64, z: 0i64 },
                mat: Material::default_spec(),
                t: 0i64,
                front_face: false,
            }),
    {
        HitRecord {
            p: Vec3 { x: 0, y: 0, z: 0 },
            normal: Vec3 { x: 0, y: 0, z: 0 },
            mat: Material::default(),
            t: 0,
            front_face: false,
        }
    }

    /// Store the side flag and the normal oriented against the incoming ray:
    /// afterwards `front_face` says whether the outward normal opposes the
    /// ray, and the stored normal always does.
    pub fn set_face_normal(&mut self, r: &Ray, outward_normal: Vec3)
        requires
            bounded(r.dir, 1073741824),
            bounded(outward_normal, 1073741824),
        ensures
            final(self).front_face == (dotv(r.dir, outward_normal) < 0),
            final(self).normal == oriented_normal(r.dir, outward_normal),
            final(self).p == old(self).p,
            final(self).t == old(self).t,
            final(self).mat == old(self).mat,
            dotv(r.dir, final(self).normal) <= 0,
    {
        let d = r.dir.dot_raw(&outward_normal);
        self.front_face = d < 0;
        self.normal = if d < 0 {
            outward_normal
        } else {
            outward_normal.neg()
        };
        proof {
            crate::vec3::lemma_dotv_neg(outward_normal, r.dir);
        }
    }
}

} // verus!
