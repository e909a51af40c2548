use vstd::prelude::*;
use crate::fixed::{fdiv, fx_div, isqrt_u128, lemma_mul_bound, lemma_sqrt_floor,
    lemma_sqrt_floor_bound, sqrt_floor, tdiv};
use crate::hittable::HitRecord;
use crate::hittable::aabb::{Aabb, aabb_hit_spec};
use crate::materials::Material;
use crate::ray::{Ray, at_spec, ORIGIN_MAX, T_LIMIT};
use crate::vec::{Vec3, sub_spec};

verus! {

/// Sphere centers stay within this many raw units per axis.
pub const CENTER_MAX: i64 = 0x8000000;

/// Sphere radii are positive and stay within this many raw units.
pub const RADIUS_MAX: i64 = 0x4000000;

/// An analytic sphere, the one primitive, owning its material.
#[derive(Clone, Copy, Debug, PartialEq, Eq, Structural)]
pub struct Sphere {
    pub center: Vec3,
    pub radius: i64,
    pub material: Material,
}

/// The raw (unscaled) dot product, the exact integer form used by the
/// quadratic.
pub open spec fn rdot(a: Vec3, b: Vec3) -> int {
    a.x * b.x + a.y * b.y + a.z * b.z
}

impl Sphere {
    pub open spec fn wf(self) -> bool {
        &&& self.center.bounded(CENTER_MAX as int)
        &&& 0 < self.radius <= RADIUS_MAX
        &&& self.material.wf()
    }

    /// The tight box around the sphere: the center pushed out by the radius.
    pub open spec fn box_spec(self) -> Aabb {
        Aabb {
            min: Vec3 {
                x: (self.center.x - self.radius) as i64,
                y: (self.center.y - self.radius) as i64,
                z: (self.center.z - self.radius) as i64,
            },
            max: Vec3 {
                x: (self.center.x + self.radius) as i64,
                y: (self.center.y + self.radius) as i64,
                z: (self.center.z + self.radius) as i64,
            },
        }
    }

    pub fn new(center: Vec3, radius: i64, material: Material) -> (r: Sphere)
        requires
            center.bounded(CENTER_MAX as int),
            0 < radius <= RADIUS_MAX,
            material.wf(),
        ensures
            r == (Sphere { center, radius, material }),
            r.wf(),
    {
        Sphere { center, radius, material }
    }

    pub fn bounding_box(&self) -> (r: Aabb)
        requires
            self.wf(),
        ensures
            r == self.box_spec(),
            r.wf(),
    {
        Aabb {
            min: Vec3 {
                x: self.center.x - self.radius,
                y: self.center.y - self.radius,
                z: self.center.z - self.radius,
            },
            max: Vec3 {
                x: self.center.x + self.radius,
                y: self.center.y + self.radius,
                z: self.center.z + self.radius,
            },
        }
    }
}

/// The candidate record at parameter `t`: the struck point, the outward
/// normal scaled by the inverse radius, and the material. A record whose
/// point or normal leaves the representable range is discarded as a miss;
/// geometrically the normal is unit scale, so this only guards rounding.
pub open spec fn sphere_record(s: Sphere, r: Ray, t: int) -> Option<HitRecord> {
    let point = at_spec(r, t);
    let diff = sub_spec(point, s.center);
    let normal = Vec3 {
        x: fdiv(diff.x as int, s.radius as int) as i64,
        y: fdiv(diff.y as int, s.radius as int) as i64,
        z: fdiv(diff.z as int, s.radius as int) as i64,
    };
    if point.bounded(ORIGIN_MAX as int) && normal.bounded(131072int) {
        Some(HitRecord { point, normal, t: t as i64, material: s.material })
    } else {
        None
    }
}

/// The full intersection decision: prune by the sphere's own box, solve the
/// quadratic exactly over raw integers, and accept the first root strictly
/// inside `(tmin, tmax)`, the near root first.
pub open spec fn sphere_hit_spec(s: Sphere, r: Ray, tmin: int, tmax: int) -> Option<HitRecord> {
    if !aabb_hit_spec(s.box_spec(), r, tmin, tmax) {
        None
    } else {
        let oc = sub_spec(r.origin, s.center);
        let a = rdot(r.direction, r.direction);
        let b = rdot(oc, r.direction);
        let c = rdot(oc, oc) - s.radius * s.radius;
        let disc = b * b - a * c;
        if a <= 0 || disc <= 0 {
            None
        } else {
            let sq = sqrt_floor(disc);
            let t1 = tdiv((-b - sq) * 65536, a);
            let t2 = tdiv((-b + sq) * 65536, a);
            if tmin < t1 < tmax {
                sphere_record(s, r, t1)
            } else if tmin < t2 < tmax {
                sphere_record(s, r, t2)
            } else {
                None
            }
        }
    }
}

/// Division of a raw product by the quadratic coefficient, scaled into
/// fixed point, rounded toward zero.
fn tdiv_scaled(num: i128, den: i128) -> (r: i128)
    requires
        den > 0,
        -0x10000000000000000000000000 <= num <= 0x10000000000000000000000000,
        den <= 0x10000000000000000000000000,
    ensures
        r == tdiv(num as int * 65536, den as int),
{
    let nn: u128 = if num < 0 {
        (-num) as u128
    } else {
        num as u128
    };
    let q: u128 = nn * 65536 / (den as u128);
    proof {
        assert(q <= nn * 65536) by {
            vstd::arithmetic::div_mod::lemma_div_is_ordered_by_denominator(
                nn as int * 65536,
                1,
                den as int,
            );
        }
    }
    if num < 0 {
        -(q as i128)
    } else {
        q as i128
    }
}

impl Sphere {
    /// The closest intersection strictly inside `(t_min, t_max)`, exactly as
    /// `sphere_hit_spec` decides it.
    pub fn hit(&self, ray: &Ray, t_min: i64, t_max: i64) -> (res: Option<HitRecord>)
        requires
            self.wf(),
            ray.wf(),
            -T_LIMIT <= t_min <= T_LIMIT,
            -T_LIMIT <= t_max <= T_LIMIT,
        ensures
            res == sphere_hit_spec(*self, *ray, t_min as int, t_max as int),
            res matches Some(h) ==> {
                &&& h.wf()
                &&& t_min < h.t < t_max
                &&& h.material == self.material
            },
    {
        let bbox = self.bounding_box();
        if !bbox.hit(ray, t_min, t_max) {
            return None;
        }
        let ocx = ray.origin.x as i128 - self.center.x as i128;
        let ocy = ray.origin.y as i128 - self.center.y as i128;
        let ocz = ray.origin.z as i128 - self.center.z as i128;
        let dx = ray.direction.x as i128;
        let dy = ray.direction.y as i128;
        let dz = ray.direction.z as i128;
        proof {
            lemma_mul_bound(dx as int, dx as int, 0x40000000, 0x40000000);
            lemma_mul_bound(dy as int, dy as int, 0x40000000, 0x40000000);
            lemma_mul_bound(dz as int, dz as int, 0x40000000, 0x40000000);
            lemma_mul_bound(ocx as int, dx as int, 0x10000000, 0x40000000);
            lemma_mul_bound(ocy as int, dy as int, 0x10000000, 0x40000000);
            lemma_mul_bound(ocz as int, dz as int, 0x10000000, 0x40000000);
            lemma_mul_bound(ocx as int, ocx as int, 0x10000000, 0x10000000);
            lemma_mul_bound(ocy as int, ocy as int, 0x10000000, 0x10000000);
            lemma_mul_bound(ocz as int, ocz as int, 0x10000000, 0x10000000);
            lemma_mul_bound(self.radius as int, self.radius as int, 0x4000000, 0x4000000);
        }
        let a = dx * dx + dy * dy + dz * dz;
        let b = ocx * dx + ocy * dy + ocz * dz;
        let c = ocx * ocx + ocy * ocy + ocz * ocz - (self.radius as i128) * (self.radius as i128);
        proof {
            lemma_mul_bound(b as int, b as int, 0xC00000000000000, 0xC00000000000000);
            lemma_mul_bound(a as int, c as int, 0x3000000000000000, 0x310000000000000);
        }
        let disc = b * b - a * c;
        if a <= 0 || disc <= 0 {
            return None;
        }
        let sq_u = isqrt_u128(disc as u128);
        proof {
            lemma_sqrt_floor(disc as int);
            lemma_sqrt_floor_bound(disc as int, 0x2000000000000000);
        }
        let sq = sq_u as i128;
        let t1 = tdiv_scaled(-b - sq, a);
        if (t_min as i128) < t1 && t1 < (t_max as i128) {
            return self.record_at(ray, t1 as i64);
        }
        let t2 = tdiv_scaled(-b + sq, a);
        if (t_min as i128) < t2 && t2 < (t_max as i128) {
            return self.record_at(ray, t2 as i64);
        }
        None
    }

    /// Build and validate the record for an accepted root.
    fn record_at(&self, ray: &Ray, t: i64) -> (res: Option<HitRecord>)
        requires
            self.wf(),
            ray.wf(),
            -T_LIMIT <= t <= T_LIMIT,
        ensures
            res == sphere_record(*self, *ray, t as int),
            res matches Some(h) ==> {
                &&& h.wf()
                &&& h.t == t
                &&& h.material == self.material
            },
    {
        let point = ray.at(t);
        let nx = fx_div(point.x - self.center.x, self.radius);
        let ny = fx_div(point.y - self.center.y, self.radius);
        let nz = fx_div(point.z - self.center.z, self.radius);
        let normal = Vec3 { x: nx, y: ny, z: nz };
        let point_ok = -ORIGIN_MAX <= point.x && point.x <= ORIGIN_MAX && -ORIGIN_MAX <= point.y
            && point.y <= ORIGIN_MAX && -ORIGIN_MAX <= point.z && point.z <= ORIGIN_MAX;
        let normal_ok = -131072 <= nx && nx <= 131072 && -131072 <= ny && ny <= 131072 && -131072
            <= nz && nz <= 131072;
        if point_ok && normal_ok {
            Some(HitRecord { point, normal, t, material: self.material })
        } else {
            None
        }
    }
}

} // verus!
