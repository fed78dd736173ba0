//! Axis-aligned bounding boxes and the slab intersection test.

use vstd::prelude::*;

verus! {

use crate::fixed::{floor_div, div_floor_i128, lemma_mul_bound, lemma_floor_div_bound, SCALE,
    VMAX, BIG};
use crate::ray::{Ray, wf_ray};
use crate::vec3::{Vec3, bounded};

/// An axis-aligned box, given by its two extreme corners.
#[derive(Clone, Copy, PartialEq, Eq, Structural, Debug)]
pub struct Aabb {
    pub min: Vec3,
    pub max: Vec3,
}

/// A box the slab test can take: corners in range and ordered.
pub open spec fn wf_aabb(b: Aabb) -> bool {
    &&& bounded(b.min, 2 * VMAX as int)
    &&& bounded(b.max, 2 * VMAX as int)
    &&& b.min.x <= b.max.x
    &&& b.min.y <= b.max.y
    &&& b.min.z <= b.max.z
}

/// The near and far slab parameters of one axis: `(lo - o) / d` and
/// `(hi - o) / d`, ordered; for a ray parallel to the slab the interval is
/// untouched, and the axis passes exactly when the origin lies inside it.
pub open spec fn slab_spec(lo: int, hi: int, o: int, d: int, t_min: int, t_max: int) -> (
    int,
    int,
) {
    if d > 0 {
        let t0 = floor_div((lo - o) * SCALE, d);
        let t1 = floor_div((hi - o) * SCALE, d);
        (if t0 > t_min { t0 } else { t_min }, if t1 < t_max { t1 } else { t_max })
    } else if d < 0 {
        let t0 = floor_div((o - hi) * SCALE, -d);
        let t1 = floor_div((o - lo) * SCALE, -d);
        (if t0 > t_min { t0 } else { t_min }, if t1 < t_max { t1 } else { t_max })
    } else {
        if lo <= o <= hi {
            (t_min, t_max)
        } else {
            (t_min, t_min)
        }
    }
}

/// Whether the ray meets the box with a parameter interval that survives all
/// three slabs.
pub open spec fn aabb_hit_spec(b: Aabb, r: Ray, t_min: int, t_max: int) -> bool {
    let ix = slab_spec(b.min.x as int, b.max.x as int, r.origin.x as int, r.dir.x as int, t_min,
        t_max);
    let iy = slab_spec(b.min.y as int, b.max.y as int, r.origin.y as int, r.dir.y as int, ix.0,
        ix.1);
    let iz = slab_spec(b.min.z as int, b.max.z as int, r.origin.z as int, r.dir.z as int, iy.0,
        iy.1);
    ix.1 > ix.0 && iy.1 > iy.0 && iz.1 > iz.0
}

/// The box around both boxes: componentwise minima and maxima.
pub open spec fn surrounding_spec(a: Aabb, b: Aabb) -> Aabb {
    Aabb {
        min: Vec3 {
            x: if a.min.x < b.min.x { a.min.x } else { b.min.x },
            y: if a.min.y < b.min.y { a.min.y } else { b.min.y },
            z: if a.min.z < b.min.z { a.min.z } else { b.min.z },
        },
        max: Vec3 {
            x: if a.max.x > b.max.x { a.max.x } else { b.max.x },
            y: if a.max.y > b.max.y { a.max.y } else { b.max.y },
            z: if a.max.z > b.max.z { a.max.z } else { b.max.z },
        },
    }
}

/// One exec slab update.
fn slab(lo: i64, hi: i64, o: i64, d: i64, t_min: i64, t_max: i64) -> (r: (i64, i64))
    requires
        -2 * VMAX <= lo <= hi <= 2 * VMAX,
        -VMAX <= o <= VMAX,
        -4 * VMAX <= d <= 4 * VMAX,
        -52776558133249 <= t_min <= 52776558133249,
        -52776558133249 <= t_max <= 52776558133249,
    ensures
        (r.0 as int, r.1 as int) == slab_spec(lo as int, hi as int, o as int, d as int,
            t_min as int, t_max as int),
        -52776558133249 <= r.0 <= 52776558133249,
        -52776558133249 <= r.1 <= 52776558133249,
{
    if d > 0 {
        proof {
            lemma_mul_bound((lo - o) as int, SCALE as int, 805306368, SCALE as int);
            lemma_mul_bound((hi - o) as int, SCALE as int, 805306368, SCALE as int);
            lemma_floor_div_bound((lo - o) * (SCALE as int), 52776558133248, d as int);
            lemma_floor_div_bound((hi - o) * (SCALE as int), 52776558133248, d as int);
        }
        let t0 = div_floor_i128(((lo - o) as i128) * (SCALE as i128), d as i128) as i64;
        let t1 = div_floor_i128(((hi - o) as i128) * (SCALE as i128), d as i128) as i64;
        (if t0 > t_min { t0 } else { t_min }, if t1 < t_max { t1 } else { t_max })
    } else if d < 0 {
        proof {
            lemma_mul_bound((o - hi) as int, SCALE as int, 805306368, SCALE as int);
            lemma_mul_bound((o - lo) as int, SCALE as int, 805306368, SCALE as int);
            lemma_floor_div_bound((o - hi) * (SCALE as int), 52776558133248, (-d) as int);
            lemma_floor_div_bound((o - lo) * (SCALE as int), 52776558133248, (-d) as int);
        }
        let t0 = div_floor_i128(((o - hi) as i128) * (SCALE as i128), (-d) as i128) as i64;
        let t1 = div_floor_i128(((o - lo) as i128) * (SCALE as i128), (-d) as i128) as i64;
        (if t0 > t_min { t0 } else { t_min }, if t1 < t_max { t1 } else { t_max })
    } else {
        if lo <= o && o <= hi {
            (t_min, t_max)
        } else {
            (t_min, t_min)
        }
    }
}

impl Aabb {
    /// Whether the ray meets this box somewhere in `(t_min, t_max)`: the
    /// slab test, shrinking the interval on each axis in turn.
    pub fn hit(self, r: &Ray, t_min: i64, t_max: i64) -> (res: bool)
        requires
            wf_aabb(self),
            wf_ray(*r),
            -1099511627776 <= t_min <= 1099511627776,
            -1099511627776 <= t_max <= 1099511627776,
        ensures
            res == aabb_hit_spec(self, *r, t_min as int, t_max as int),
    {
        let ix = slab(self.min.x, self.max.x, r.origin.x, r.dir.x, t_min, t_max);
        let iy = slab(self.min.y, self.max.y, r.origin.y, r.dir.y, ix.0, ix.1);
        let iz = slab(self.min.z, self.max.z, r.origin.z, r.dir.z, iy.0, iy.1);
        ix.1 > ix.0 && iy.1 > iy.0 && iz.1 > iz.0
    }

    /// The box around this box and another.
    pub fn surrounding_box(&self, other: Aabb) -> (r: Aabb)
        requires
            wf_aabb(*self),
            wf_aabb(other),
        ensures
            r == surrounding_spec(*self, other),
            wf_aabb(r),
    {
        Aabb::new_from_aabb(*self, other)
    }

    /// The box around two boxes: componentwise minima and maxima.
    pub fn new_from_aabb(first_box: Aabb, other_box: Aabb) -> (r: Aabb)
        requires
            wf_aabb(first_box),
            wf_aabb(other_box),
        ensures
            r == surrounding_spec(first_box, other_box),
            wf_aabb(r),
    {
        let min = Vec3 {
            x: if first_box.min.x < other_box.min.x { first_box.min.x } else { other_box.min.x },
            y: if first_box.min.y < other_box.min.y { first_box.min.y } else { other_box.min.y },
            z: if first_box.min.z < other_box.min.z { first_box.min.z } else { other_box.min.z },
        };
        let max = Vec3 {
            x: if first_box.max.x > other_box.max.x { first_box.max.x } else { other_box.max.x },
            y: if first_box.max.y > other_box.max.y { first_box.max.y } else { other_box.max.y },
            z: if first_box.max.z > other_box.max.z { first_box.max.z } else { other_box.max.z },
        };
        Aabb { min, max }
    }
}

} // verus!
