//! The scene: a flat collection of spheres with a nearest-hit query.

use vstd::prelude::*;

verus! {

use crate::aabb::{Aabb, wf_aabb, surrounding_spec};
use crate::fixed::T_LIMIT;
use crate::sphere::sphere_bbox_spec;
use crate::hitable::{HitRecord, wf_rec};
use crate::ray::{Ray, wf_ray};
use crate::sphere::{
    Sphere, wf_sphere, sphere_hit_spec, lemma_sphere_hit_shrink, lemma_sphere_hit_t_range,
};
use crate::vec3::dotv;

/// An unordered collection of spheres, grown during scene construction and
/// read-only while rendering.
pub struct HitableList {
    pub objects: Vec<Sphere>,
}

/// Every sphere of the scene is in range.
pub open spec fn wf_list(objs: Seq<Sphere>) -> bool {
    forall|i: int| 0 <= i < objs.len() ==> wf_sphere(#[trigger] objs[i])
}

/// The nearest hit over a scene, defined by independent full-interval tests:
/// each sphere is queried over the whole of `(t_min, t_max]` on its own, and
/// the record with the smallest parameter wins (the later sphere on a tie).
pub open spec fn scene_hit_spec(objs: Seq<Sphere>, r: Ray, t_min: int, t_max: int) -> Option<
    HitRecord,
>
    decreases objs.len(),
{
    if objs.len() == 0 {
        None
    } else {
        let prev = scene_hit_spec(objs.drop_last(), r, t_min, t_max);
        let cur = sphere_hit_spec(objs.last(), r, t_min, t_max);
        match cur {
            Some(c) => match prev {
                Some(p) => if c.t <= p.t {
                    Some(c)
                } else {
                    Some(p)
                },
                None => Some(c),
            },
            None => prev,
        }
    }
}

/// The scene's answer is the minimum of the independent per-sphere answers:
/// when it reports a hit, that hit is one sphere's own full-interval answer
/// and no sphere's answer has a smaller parameter; when it reports none, no
/// sphere hits at all.
pub proof fn lemma_scene_hit_min(objs: Seq<Sphere>, r: Ray, t_min: int, t_max: int)
    ensures
        scene_hit_spec(objs, r, t_min, t_max) matches Some(h) ==> (exists|i: int|
            0 <= i < objs.len() && sphere_hit_spec(#[trigger] objs[i], r, t_min, t_max) == Some(
                h,
            )) && (forall|i: int|
            0 <= i < objs.len() ==> match sphere_hit_spec(#[trigger] objs[i], r, t_min, t_max) {
                Some(g) => h.t <= g.t,
                None => true,
            }),
        scene_hit_spec(objs, r, t_min, t_max) is None ==> (forall|i: int|
            0 <= i < objs.len() ==> sphere_hit_spec(#[trigger] objs[i], r, t_min, t_max)
                is None),
    decreases objs.len(),
{
    if objs.len() > 0 {
        lemma_scene_hit_min(objs.drop_last(), r, t_min, t_max);
        assert(forall|i: int|
            0 <= i < objs.len() - 1 ==> objs.drop_last()[i] == #[trigger] objs[i]);
        assert(objs.last() == objs[objs.len() - 1]);
    }
}

/// The box around every sphere of the scene, folded left to right; an empty
/// scene has none.
pub open spec fn list_bbox_spec(objs: Seq<Sphere>) -> Option<Aabb>
    decreases objs.len(),
{
    if objs.len() == 0 {
        None
    } else if objs.len() == 1 {
        Some(sphere_bbox_spec(objs[0]))
    } else {
        match list_bbox_spec(objs.drop_last()) {
            Some(b) => Some(surrounding_spec(b, sphere_bbox_spec(objs.last()))),
            None => None,
        }
    }
}

impl HitableList {
    /// An empty scene.
    pub fn new() -> (r: HitableList)
        ensures
            r.objects@ == Seq::<Sphere>::empty(),
    {
        HitableList { objects: Vec::new() }
    }

    /// Add one sphere to the scene.
    pub fn add(&mut self, obj: Sphere)
        requires
            wf_sphere(obj),
        ensures
            final(self).objects@ == old(self).objects@.push(obj),
    {
        self.objects.push(obj);
    }

    /// The nearest intersection of `r` with any sphere of the scene in
    /// `(t_min, t_max]`: a linear scan that lowers the far bound to the
    /// closest parameter found so far, which yields exactly the minimum of
    /// the independent per-sphere tests.
    pub fn hit(&self, r: &Ray, t_min: i64, t_max: i64) -> (res: Option<HitRecord>)
        requires
            wf_list(self.objects@),
            wf_ray(*r),
            0 <= t_min <= t_max <= T_LIMIT,
        ensures
            res == scene_hit_spec(self.objects@, *r, t_min as int, t_max as int),
            res matches Some(h) ==> wf_rec(h) && t_min < h.t <= t_max && dotv(r.dir, h.normal)
                <= 0 && dotv(r.dir, r.dir) > 0,
    {
        let mut hit_anything: Option<HitRecord> = None;
        let mut closest_so_far: i64 = t_max;
        let n = self.objects.len();
        let mut i: usize = 0;
        while i < n
            invariant
                n == self.objects@.len(),
                0 <= i <= n,
                wf_list(self.objects@),
                wf_ray(*r),
                0 <= t_min <= closest_so_far <= t_max <= T_LIMIT,
                hit_anything == scene_hit_spec(self.objects@.take(i as int), *r, t_min as int,
                    t_max as int),
                match hit_anything {
                    Some(h) => h.t == closest_so_far && wf_rec(h) && t_min < h.t && dotv(r.dir,
                        h.normal) <= 0 && dotv(r.dir, r.dir) > 0,
                    None => closest_so_far == t_max,
                },
            decreases n - i,
        {
            let obj = &self.objects[i];
            let found = obj.hit(r, t_min, closest_so_far);
            proof {
                lemma_sphere_hit_shrink(*obj, *r, t_min as int, closest_so_far as int,
                    t_max as int);
                lemma_sphere_hit_t_range(*obj, *r, t_min as int, t_max as int);
                assert(self.objects@.take(i + 1 as int).drop_last() == self.objects@.take(
                    i as int));
                assert(self.objects@.take(i + 1 as int).last() == self.objects@[i as int]);
            }
            if let Some(h) = found {
                closest_so_far = h.t;
                hit_anything = Some(h);
            }
            i = i + 1;
        }
        proof {
            assert(self.objects@.take(n as int) == self.objects@);
        }
        hit_anything
    }

    /// The box around the whole scene, or nothing for an empty scene.
    pub fn bounding_box(&self) -> (res: Option<Aabb>)
        requires
            wf_list(self.objects@),
        ensures
            res == list_bbox_spec(self.objects@),
            res matches Some(b) ==> wf_aabb(b),
    {
        let n = self.objects.len();
        if n == 0 {
            return None;
        }
        let first = &self.objects[0];
        let mut output_box = match first.bounding_box() {
            Some(b) => b,
            None => { return None; },
        };
        let mut i: usize = 1;
        proof {
            assert(self.objects@.take(1int) =~= seq![self.objects@[0]]);
        }
        while i < n
            invariant
                n == self.objects@.len(),
                1 <= i <= n,
                wf_list(self.objects@),
                Some(output_box) == list_bbox_spec(self.objects@.take(i as int)),
                wf_aabb(output_box),
            decreases n - i,
        {
            let obj = &self.objects[i];
            let bb = match obj.bounding_box() {
                Some(b) => b,
                None => { return None; },
            };
            proof {
                assert(self.objects@.take(i + 1 as int).drop_last() == self.objects@.take(
                    i as int));
                assert(self.objects@.take(i + 1 as int).last() == self.objects@[i as int]);
            }
            output_box = output_box.surrounding_box(bb);
            i = i + 1;
        }
        proof {
            assert(self.objects@.take(n as int) == self.objects@);
        }
        Some(output_box)
    }
}

} // verus!
