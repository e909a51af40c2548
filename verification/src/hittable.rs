pub mod aabb;
pub mod bvh;
pub mod sphere;

use vstd::prelude::*;
use crate::hittable::sphere::{Sphere, sphere_hit_spec};
use crate::materials::Material;
use crate::ray::{Ray, ORIGIN_MAX, T_LIMIT};
use crate::vec::Vec3;

verus! {

/// The nearest valid intersection of a ray with scene geometry: where it
/// struck, the surface normal there, the ray parameter, and the material.
#[derive(Clone, Copy, Debug, PartialEq, Eq, Structural)]
pub struct HitRecord {
    pub point: Vec3,
    pub normal: Vec3,
    pub t: i64,
    pub material: Material,
}

impl HitRecord {
    /// A record the shading layer accepts: the point in origin range, the
    /// normal near unit scale, the parameter in query range.
    pub open spec fn wf(self) -> bool {
        &&& self.point.bounded(ORIGIN_MAX as int)
        &&& self.normal.bounded(131072int)
        &&& -T_LIMIT <= self.t <= T_LIMIT
    }
}

/// The reference semantics of every intersection query: test the spheres one
/// after the other, tightening the upper range to the best parameter so far,
/// so the final answer is the closest hit.
pub open spec fn linear_hit(ss: Seq<Sphere>, r: Ray, tmin: int, tmax: int) -> Option<HitRecord>
    decreases ss.len(),
{
    if ss.len() == 0 {
        None
    } else {
        match sphere_hit_spec(ss[0], r, tmin, tmax) {
            Some(h) => match linear_hit(ss.drop_first(), r, tmin, h.t as int) {
                Some(h2) => Some(h2),
                None => Some(h),
            },
            None => linear_hit(ss.drop_first(), r, tmin, tmax),
        }
    }
}

/// Whatever the scan accepts lies strictly inside the queried range, is a
/// well-formed record, and carries the material of one of the spheres.
pub proof fn lemma_sphere_hit_range(s: Sphere, r: Ray, tmin: int, tmax: int)
    requires
        -T_LIMIT <= tmin <= T_LIMIT,
        -T_LIMIT <= tmax <= T_LIMIT,
    ensures
        sphere_hit_spec(s, r, tmin, tmax) matches Some(h) ==> {
            &&& tmin < h.t < tmax
            &&& h.wf()
            &&& h.material == s.material
        },
{
}

pub proof fn lemma_linear_hit_range(ss: Seq<Sphere>, r: Ray, tmin: int, tmax: int)
    requires
        -T_LIMIT <= tmin <= T_LIMIT,
        -T_LIMIT <= tmax <= T_LIMIT,
    ensures
        linear_hit(ss, r, tmin, tmax) matches Some(h) ==> {
            &&& tmin < h.t < tmax
            &&& h.wf()
            &&& exists|i: int| 0 <= i < ss.len() && h.material == #[trigger] ss[i].material
        },
    decreases ss.len(),
{
    if ss.len() > 0 {
        lemma_sphere_hit_range(ss[0], r, tmin, tmax);
        match sphere_hit_spec(ss[0], r, tmin, tmax) {
            Some(h) => {
                lemma_linear_hit_range(ss.drop_first(), r, tmin, h.t as int);
            },
            None => {
                lemma_linear_hit_range(ss.drop_first(), r, tmin, tmax);
            },
        }
    }
}

/// Scanning a concatenation is scanning the first part, then the second with
/// the range tightened by the first part's answer.
pub proof fn lemma_linear_hit_concat(s1: Seq<Sphere>, s2: Seq<Sphere>, r: Ray, tmin: int, tmax: int)
    requires
        -T_LIMIT <= tmin <= T_LIMIT,
        -T_LIMIT <= tmax <= T_LIMIT,
    ensures
        linear_hit(s1 + s2, r, tmin, tmax) == (match linear_hit(s1, r, tmin, tmax) {
            None => linear_hit(s2, r, tmin, tmax),
            Some(h) => match linear_hit(s2, r, tmin, h.t as int) {
                Some(h2) => Some(h2),
                None => Some(h),
            },
        }),
    decreases s1.len(),
{
    if s1.len() == 0 {
        assert(s1 + s2 =~= s2);
    } else {
        let rest = s1.drop_first();
        assert((s1 + s2).drop_first() =~= rest + s2);
        assert((s1 + s2)[0] == s1[0]);
        assert((s1 + s2).len() > 0);
        match sphere_hit_spec(s1[0], r, tmin, tmax) {
            Some(h) => {
                lemma_sphere_hit_range(s1[0], r, tmin, tmax);
                lemma_linear_hit_concat(rest, s2, r, tmin, h.t as int);
            },
            None => {
                lemma_linear_hit_concat(rest, s2, r, tmin, tmax);
            },
        }
    }
}

/// The plain scene container: every sphere in a vector, scanned linearly.
#[derive(Debug)]
pub struct HittableList {
    pub models: Vec<Sphere>,
}

impl HittableList {
    pub open spec fn wf(self) -> bool {
        forall|i: int| 0 <= i < self.models.len() ==> (#[trigger] self.models[i]).wf()
    }

    pub fn push(&mut self, sphere: Sphere)
        requires
            sphere.wf(),
        ensures
            final(self).models@ == old(self).models@.push(sphere),
            old(self).wf() ==> final(self).wf(),
    {
        self.models.push(sphere);
    }

    pub fn len(&self) -> (n: usize)
        ensures
            n == self.models.len(),
    {
        self.models.len()
    }

    /// The closest hit over all spheres, scanned in order with the running
    /// tightest upper range — exactly the reference semantics.
    pub fn hit(&self, ray: &Ray, t_min: i64, t_max: i64) -> (res: Option<HitRecord>)
        requires
            self.wf(),
            ray.wf(),
            -T_LIMIT <= t_min <= T_LIMIT,
            -T_LIMIT <= t_max <= T_LIMIT,
        ensures
            res == linear_hit(self.models@, *ray, t_min as int, t_max as int),
            res matches Some(h) ==> {
                &&& h.wf()
                &&& t_min < h.t < t_max
            },
    {
        let ghost full = self.models@;
        let n = self.models.len();
        let mut closest: Option<HitRecord> = None;
        let mut upper = t_max;
        let mut i: usize = 0;
        proof {
            assert(full.subrange(0, n as int) =~= full);
        }
        while i < n
            invariant
                0 <= i <= n,
                n == self.models.len(),
                self.wf(),
                ray.wf(),
                -T_LIMIT <= t_min <= T_LIMIT,
                -T_LIMIT <= t_max <= T_LIMIT,
                full == self.models@,
                match closest {
                    None => upper == t_max && linear_hit(full, *ray, t_min as int, t_max as int)
                        == linear_hit(full.subrange(i as int, n as int), *ray, t_min as int,
                        t_max as int),
                    Some(h) => {
                        &&& upper == h.t
                        &&& t_min < h.t < t_max
                        &&& h.wf()
                        &&& linear_hit(full, *ray, t_min as int, t_max as int) == (
                        match linear_hit(full.subrange(i as int, n as int), *ray, t_min as int,
                            h.t as int) {
                            Some(h2) => Some(h2),
                            None => Some(h),
                        })
                    },
                },
            decreases n - i,
        {
            let ghost rest = full.subrange(i as int, n as int);
            proof {
                assert(rest.drop_first() =~= full.subrange(i as int + 1, n as int));
                assert(rest[0] == self.models[i as int]);
            }
            match self.models[i].hit(ray, t_min, upper) {
                Some(h) => {
                    closest = Some(h);
                    upper = h.t;
                },
                None => {},
            }
            i = i + 1;
        }
        proof {
            assert(full.subrange(n as int, n as int) =~= Seq::<Sphere>::empty());
        }
        closest
    }
}

impl Default for HittableList {
    /// The empty scene.
    fn default() -> (r: HittableList)
        ensures
            r.models@ == Seq::<Sphere>::empty(),
    {
        HittableList { models: Vec::new() }
    }
}

} // verus!
