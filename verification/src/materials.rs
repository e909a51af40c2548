use vstd::prelude::*;
use crate::fixed::{FX_ONE, fmul, fdiv, fsqrt, fx_mul, fx_div, fx_sqrt, lemma_fdiv_le_one,
    lemma_fmul_bound, lemma_fmul_nonneg, lemma_sqrt_floor_bound, lemma_tdiv_mono};
use crate::hittable::HitRecord;
use crate::ray::{Ray, DIR_MAX};
use crate::rng::rand_unit;
use crate::vec::{Color, Vec3, add_spec, dot_spec, neg_spec, norm2_spec, scale_spec,
    sub_spec, unit_spec, lemma_dot_bound, lemma_norm2_nonneg, lemma_scale_bound, random_vec};

verus! {

/// Each color channel within the unit interval.
pub open spec fn color_unit(c: Color) -> bool {
    &&& 0 <= c.x <= FX_ONE
    &&& 0 <= c.y <= FX_ONE
    &&& 0 <= c.z <= FX_ONE
}

/// Diffuse: scatters every ray near the surface normal, attenuated by the
/// surface color.
#[derive(Clone, Copy, Debug, PartialEq, Eq, Structural)]
pub struct Lambertian {
    pub albedo: Color,
}

/// Mirror with an optional fuzz radius, attenuated by the surface color.
#[derive(Clone, Copy, Debug, PartialEq, Eq, Structural)]
pub struct Metal {
    pub albedo: Color,
    pub fuzzy: i64,
}

/// Clear glass characterized by its refractive index.
#[derive(Clone, Copy, Debug, PartialEq, Eq, Structural)]
pub struct Dielectric {
    pub ref_idx: i64,
}

/// The closed set of surface materials, dispatched by variant.
#[derive(Clone, Copy, Debug, PartialEq, Eq, Structural)]
pub enum Material {
    Lambertian(Lambertian),
    Metal(Metal),
    Dielectric(Dielectric),
}

/// The smallest and largest representable refractive index.
pub const REF_IDX_MIN: i64 = 8192;

pub const REF_IDX_MAX: i64 = 524288;

impl Lambertian {
    pub open spec fn wf(self) -> bool {
        color_unit(self.albedo)
    }

    pub fn new(albedo: Color) -> (r: Lambertian)
        requires
            color_unit(albedo),
        ensures
            r.albedo == albedo,
            r.wf(),
    {
        Lambertian { albedo }
    }
}

impl Metal {
    pub open spec fn wf(self) -> bool {
        &&& color_unit(self.albedo)
        &&& 0 <= self.fuzzy <= FX_ONE
    }

    /// The fuzz radius is capped at one, as handed in.
    pub fn new(albedo: Color, fuzzy: i64) -> (r: Metal)
        requires
            color_unit(albedo),
            fuzzy >= 0,
        ensures
            r.albedo == albedo,
            r.fuzzy == if fuzzy < FX_ONE { fuzzy as int } else { FX_ONE as int },
            r.wf(),
    {
        Metal { albedo, fuzzy: if fuzzy < FX_ONE { fuzzy } else { FX_ONE } }
    }
}

impl Dielectric {
    pub open spec fn wf(self) -> bool {
        REF_IDX_MIN <= self.ref_idx <= REF_IDX_MAX
    }

    pub fn new(index_of_refraction: i64) -> (r: Dielectric)
        requires
            REF_IDX_MIN <= index_of_refraction <= REF_IDX_MAX,
        ensures
            r.ref_idx == index_of_refraction,
            r.wf(),
    {
        Dielectric { ref_idx: index_of_refraction }
    }
}

impl Material {
    pub open spec fn wf(self) -> bool {
        match self {
            Material::Lambertian(m) => m.wf(),
            Material::Metal(m) => m.wf(),
            Material::Dielectric(m) => m.wf(),
        }
    }
}

/// A point drawn from the open unit ball, by rejection from the cube; after
/// a bounded number of tries the center is returned.
pub fn random_in_unit_sphere(rng: &mut rand::rngs::SmallRng) -> (p: Vec3)
    ensures
        p.bounded(FX_ONE as int),
        norm2_spec(p) < FX_ONE,
{
    let unit = Vec3::new(FX_ONE, FX_ONE, FX_ONE);
    let mut attempts: u32 = 0;
    while attempts < 64
        invariant
            unit == (Vec3 { x: 65536i64, y: 65536i64, z: 65536i64 }),
        decreases 64 - attempts,
    {
        let rv = random_vec(rng, 0, FX_ONE);
        proof {
            lemma_fmul_bound(rv.x as int, 131072, 65536, 131072);
            lemma_fmul_bound(rv.y as int, 131072, 65536, 131072);
            lemma_fmul_bound(rv.z as int, 131072, 65536, 131072);
            lemma_fmul_nonneg(rv.x as int, 131072);
            lemma_fmul_nonneg(rv.y as int, 131072);
            lemma_fmul_nonneg(rv.z as int, 131072);
        }
        let p = rv.scale(2 * FX_ONE).sub(unit);
        if p.norm2() < FX_ONE {
            return p;
        }
        attempts = attempts + 1;
    }
    proof {
        lemma_norm2_nonneg(Vec3 { x: 0i64, y: 0i64, z: 0i64 });
    }
    Vec3::zeros()
}

/// Mirror the direction `v` about the unit-scale normal `n`.
pub open spec fn reflect_spec(v: Vec3, n: Vec3) -> Vec3 {
    sub_spec(v, scale_spec(n, 2 * dot_spec(v, n)))
}

fn reflect(v: &Vec3, n: &Vec3) -> (r: Vec3)
    requires
        v.bounded(0x40000000),
        n.bounded(131072),
    ensures
        r == reflect_spec(*v, *n),
        r.bounded(0x1000000000),
        v.bounded(131072) ==> r.bounded(3276800),
{
    proof {
        lemma_fmul_bound(v.x as int, n.x as int, 0x40000000, 131072);
        lemma_fmul_bound(v.y as int, n.y as int, 0x40000000, 131072);
        lemma_fmul_bound(v.z as int, n.z as int, 0x40000000, 131072);
        lemma_scale_bound(*n, 2 * dot_spec(*v, *n), 131072, 0x600000000);
        if v.bounded(131072) {
            lemma_fmul_bound(v.x as int, n.x as int, 131072, 131072);
            lemma_fmul_bound(v.y as int, n.y as int, 131072, 131072);
            lemma_fmul_bound(v.z as int, n.z as int, 131072, 131072);
            lemma_scale_bound(*n, 2 * dot_spec(*v, *n), 131072, 1572864);
        }
    }
    let dn = v.dot(*n);
    v.sub(n.scale(2 * dn))
}

/// Snell refraction in vector form: `None` when the discriminant is not
/// positive (total internal reflection).
pub open spec fn refract_spec(v: Vec3, n: Vec3, eta: int) -> Option<Vec3> {
    let uv = unit_spec(v);
    let dt = dot_spec(uv, n);
    let disc = 65536 - fmul(fmul(eta, eta), 65536 - fmul(dt, dt));
    if disc > 0 {
        Some(
            sub_spec(
                scale_spec(sub_spec(uv, scale_spec(n, dt)), eta),
                scale_spec(n, fsqrt(disc)),
            ),
        )
    } else {
        None
    }
}

fn refract(v: &Vec3, n: &Vec3, ni_over_nt: i64) -> (r: Option<Vec3>)
    requires
        v.bounded(DIR_MAX as int),
        norm2_spec(*v) >= 1,
        n.bounded(131072),
        0 < ni_over_nt <= REF_IDX_MAX,
    ensures
        r == refract_spec(*v, *n, ni_over_nt as int),
        r matches Some(w) ==> w.bounded(0x8000000),
{
    let uv = v.unit();
    let dt = uv.dot(*n);
    proof {
        lemma_dot_bound(unit_spec(*v), *n, 131072);
        lemma_fmul_bound(dt as int, dt as int, 786432, 786432);
        lemma_fmul_bound(ni_over_nt as int, ni_over_nt as int, REF_IDX_MAX as int,
            REF_IDX_MAX as int);
    }
    let ee = fx_mul(ni_over_nt, ni_over_nt);
    let inner = FX_ONE - fx_mul(dt, dt);
    proof {
        lemma_fmul_bound(ee as int, inner as int, 0x400000, 0x2000000);
    }
    let disc = FX_ONE - fx_mul(ee, inner);
    if disc > 0 {
        let s = fx_sqrt(disc);
        proof {
            lemma_sqrt_floor_bound(disc as int * 65536, 0x1000000);
            lemma_scale_bound(*n, dt as int, 131072, 786432);
            lemma_scale_bound(sub_spec(unit_spec(*v), scale_spec(*n, dt as int)), ni_over_nt as int,
                0x400000, REF_IDX_MAX as int);
            lemma_scale_bound(*n, s as int, 131072, 0x1000000);
        }
        let refracted = uv.sub(n.scale(dt)).scale(ni_over_nt).sub(n.scale(s));
        Some(refracted)
    } else {
        None
    }
}

/// The Schlick estimate of the Fresnel reflectance.
pub open spec fn pow5_fx(t: int) -> int {
    fmul(fmul(fmul(fmul(t, t), t), t), t)
}

pub open spec fn schlick_spec(cosine: int, ref_idx: int) -> int {
    let q = fdiv(65536 - ref_idx, 65536 + ref_idx);
    let r0 = fmul(q, q);
    r0 + fmul(65536 - r0, pow5_fx(65536 - cosine))
}

fn schlick(cosine: i64, ref_idx: i64) -> (r: i64)
    requires
        -FX_ONE <= cosine <= FX_ONE,
        REF_IDX_MIN <= ref_idx <= REF_IDX_MAX,
    ensures
        r == schlick_spec(cosine as int, ref_idx as int),
{
    proof {
        lemma_fdiv_le_one((65536 - ref_idx) as int, (65536 + ref_idx) as int);
    }
    let q = fx_div(FX_ONE - ref_idx, FX_ONE + ref_idx);
    proof {
        lemma_fmul_self_nonneg_local(q as int);
    }
    let r0 = fx_mul(q, q);
    let t = FX_ONE - cosine;
    proof {
        lemma_fmul_bound(t as int, t as int, 131072, 131072);
    }
    let t2 = fx_mul(t, t);
    proof {
        lemma_fmul_bound(t2 as int, t as int, 262144, 131072);
    }
    let t3 = fx_mul(t2, t);
    proof {
        lemma_fmul_bound(t3 as int, t as int, 524288, 131072);
    }
    let t4 = fx_mul(t3, t);
    proof {
        lemma_fmul_bound(t4 as int, t as int, 1048576, 131072);
    }
    let t5 = fx_mul(t4, t);
    proof {
        lemma_fmul_bound((65536 - r0) as int, t5 as int, 65536, 2097152);
    }
    r0 + fx_mul(FX_ONE - r0, t5)
}

proof fn lemma_fmul_self_nonneg_local(q: int)
    requires
        -65536 <= q <= 65536,
    ensures
        0 <= fmul(q, q) <= 65536,
{
    assert(0 <= q * q <= 65536int * 65536) by (nonlinear_arith)
        requires
            -65536 <= q <= 65536,
    ;
    lemma_tdiv_mono(0, q * q, 65536);
    lemma_tdiv_mono(q * q, 65536int * 65536, 65536);
}

/// Clamp a scalar into the unit interval's symmetric range.
pub open spec fn clamp_unit_spec(x: int) -> int {
    if x < -65536 {
        -65536
    } else if x > 65536 {
        65536
    } else {
        x
    }
}

fn clamp_unit(x: i64) -> (r: i64)
    ensures
        r == clamp_unit_spec(x as int),
{
    if x < -FX_ONE {
        -FX_ONE
    } else if x > FX_ONE {
        FX_ONE
    } else {
        x
    }
}

/// Clamp each component of a would-be direction into the representable
/// range; real reflections stay far inside, so this only guards the
/// arithmetic.
pub open spec fn clamp_dir_spec(v: Vec3) -> Vec3 {
    Vec3 {
        x: clamp_unit_scaled(v.x as int) as i64,
        y: clamp_unit_scaled(v.y as int) as i64,
        z: clamp_unit_scaled(v.z as int) as i64,
    }
}

pub open spec fn clamp_unit_scaled(x: int) -> int {
    if x < -0x40000000 {
        -0x40000000
    } else if x > 0x40000000 {
        0x40000000
    } else {
        x
    }
}

fn clamp_dir(v: Vec3) -> (r: Vec3)
    ensures
        r == clamp_dir_spec(v),
        r.bounded(DIR_MAX as int),
{
    let cx = if v.x < -DIR_MAX { -DIR_MAX } else if v.x > DIR_MAX { DIR_MAX } else { v.x };
    let cy = if v.y < -DIR_MAX { -DIR_MAX } else if v.y > DIR_MAX { DIR_MAX } else { v.y };
    let cz = if v.z < -DIR_MAX { -DIR_MAX } else if v.z > DIR_MAX { DIR_MAX } else { v.z };
    Vec3 { x: cx, y: cy, z: cz }
}

impl Lambertian {
    /// Always scatters toward the normal jittered into the unit ball.
    pub fn scatter(&self, _ray: &Ray, hit: &HitRecord, rng: &mut rand::rngs::SmallRng) -> (res:
        Option<(Ray, Color)>)
        requires
            self.wf(),
            hit.wf(),
        ensures
            res is Some,
            res matches Some((scattered, attenuation)) ==> {
                &&& attenuation == self.albedo
                &&& scattered.origin == hit.point
                &&& norm2_spec(sub_spec(scattered.direction, hit.normal)) < FX_ONE
                &&& scattered.wf()
            },
    {
        let p = random_in_unit_sphere(rng);
        let target = hit.point.add(hit.normal).add(p);
        let direction = target.sub(hit.point);
        proof {
            assert(direction == add_spec(hit.normal, p));
            assert(sub_spec(direction, hit.normal) == p);
        }
        let scattered = Ray::new(hit.point, direction);
        Some((scattered, self.albedo))
    }
}

impl Metal {
    /// Mirror the unit incident direction, perturb by the fuzz radius, and
    /// absorb reflections that graze back into the surface.
    pub fn scatter(&self, ray: &Ray, hit: &HitRecord, rng: &mut rand::rngs::SmallRng) -> (res:
        Option<(Ray, Color)>)
        requires
            self.wf(),
            ray.wf(),
            hit.wf(),
        ensures
            norm2_spec(ray.direction) == 0 ==> res is None,
            norm2_spec(ray.direction) >= 1 ==> {
                let refl = reflect_spec(unit_spec(ray.direction), hit.normal);
                &&& (res is Some <==> dot_spec(refl, hit.normal) > 0)
                &&& (res matches Some((scattered, attenuation)) ==> {
                    &&& attenuation == self.albedo
                    &&& scattered.origin == hit.point
                    &&& scattered.wf()
                    &&& exists|p: Vec3|
                        #![auto]
                        {
                            &&& norm2_spec(p) < FX_ONE
                            &&& p.bounded(FX_ONE as int)
                            &&& scattered.direction == add_spec(refl, scale_spec(p, self.fuzzy as int))
                        }
                    &&& self.fuzzy == 0 ==> scattered.direction == refl
                })
            },
    {
        let d = ray.direction();
        let n2 = d.norm2();
        if n2 == 0 {
            return None;
        }
        let u = d.unit();
        let reflected = reflect(&u, &hit.normal);
        let dn = reflected.dot(hit.normal);
        if dn > 0 {
            let p = random_in_unit_sphere(rng);
            proof {
                lemma_scale_bound(p, self.fuzzy as int, FX_ONE as int, FX_ONE as int);
            }
            let direction = reflected.add(p.scale(self.fuzzy));
            let scattered = Ray::new(hit.point, direction);
            proof {
                if self.fuzzy == 0 {
                    assert(fmul(p.x as int, 0) == 0) by {
                        assert(p.x as int * 0 == 0);
                        assert(crate::fixed::tdiv(0, 65536) == 0) by {
                            vstd::arithmetic::div_mod::lemma_div_basics(65536);
                        }
                    }
                    assert(fmul(p.y as int, 0) == 0) by {
                        assert(p.y as int * 0 == 0);
                    }
                    assert(fmul(p.z as int, 0) == 0) by {
                        assert(p.z as int * 0 == 0);
                    }
                    assert(scale_spec(p, 0) == (Vec3 { x: 0i64, y: 0i64, z: 0i64 }));
                    assert(direction == reflect_spec(unit_spec(ray.direction), hit.normal));
                }
            }
            Some((scattered, self.albedo))
        } else {
            None
        }
    }
}

impl Dielectric {
    /// The relative index ratio at the interface the ray meets.
    pub open spec fn eta_spec(self, ray: Ray, hit: HitRecord) -> int {
        if dot_spec(ray.direction, hit.normal) > 0 {
            self.ref_idx as int
        } else {
            fdiv(65536, self.ref_idx as int)
        }
    }

    /// The normal pointing against the ray at the interface.
    pub open spec fn outward_spec(self, ray: Ray, hit: HitRecord) -> Vec3 {
        if dot_spec(ray.direction, hit.normal) > 0 {
            neg_spec(hit.normal)
        } else {
            hit.normal
        }
    }

    /// Never absorbs: refracts when Snell's law allows it and the stochastic
    /// Fresnel draw agrees, otherwise reflects. Total internal reflection
    /// always reflects.
    pub fn scatter(&self, ray: &Ray, hit: &HitRecord, rng: &mut rand::rngs::SmallRng) -> (res:
        Option<(Ray, Color)>)
        requires
            self.wf(),
            ray.wf(),
            hit.wf(),
        ensures
            res is Some,
            res matches Some((scattered, attenuation)) ==> {
                let refl = clamp_dir_spec(reflect_spec(ray.direction, hit.normal));
                &&& attenuation == (Vec3 { x: FX_ONE, y: FX_ONE, z: FX_ONE })
                &&& scattered.origin == hit.point
                &&& scattered.wf()
                &&& (refract_spec(ray.direction, self.outward_spec(*ray, *hit), self.eta_spec(
                    *ray,
                    *hit,
                )) matches Some(w) ==> (scattered.direction == w || scattered.direction == refl))
                &&& (refract_spec(ray.direction, self.outward_spec(*ray, *hit), self.eta_spec(
                    *ray,
                    *hit,
                )) is None ==> scattered.direction == refl)
            },
    {
        let attenuation = Vec3::new(FX_ONE, FX_ONE, FX_ONE);
        let d = ray.direction();
        let n2 = d.norm2();
        if n2 == 0 {
            let reflected = clamp_dir(reflect(&d, &hit.normal));
            return Some((Ray::new(hit.point, reflected), attenuation));
        }
        let dn = d.dot(hit.normal);
        let len = d.length();
        proof {
            crate::vec::lemma_unit_bounded(d);
            lemma_dot_bound_asym(d, hit.normal);
        }
        let (outward, eta, cosine): (Vec3, i64, i64) = if dn > 0 {
            proof {
                lemma_fmul_bound(self.ref_idx as int, dn as int, REF_IDX_MAX as int, 0x300000000);
            }
            let c = clamp_unit(fx_div(fx_mul(self.ref_idx, dn), len));
            (hit.normal.neg(), self.ref_idx, c)
        } else {
            let c = clamp_unit(fx_div(-dn, len));
            proof {
                lemma_eta_range(self.ref_idx as int);
            }
            (hit.normal, fx_div(FX_ONE, self.ref_idx), c)
        };
        match refract(&d, &outward, eta) {
            Some(refracted) => {
                let prob = schlick(cosine, self.ref_idx);
                let draw = rand_unit(rng);
                if draw >= prob {
                    Some((Ray::new(hit.point, refracted), attenuation))
                } else {
                    let reflected = clamp_dir(reflect(&d, &hit.normal));
                    Some((Ray::new(hit.point, reflected), attenuation))
                }
            },
            None => {
                let reflected = clamp_dir(reflect(&d, &hit.normal));
                Some((Ray::new(hit.point, reflected), attenuation))
            },
        }
    }
}

/// The reciprocal of a representable refractive index is itself within the
/// representable ratio range.
proof fn lemma_eta_range(ref_idx: int)
    requires
        8192 <= ref_idx <= 524288,
    ensures
        0 < fdiv(65536, ref_idx) <= 524288,
{
    assert(fdiv(65536, ref_idx) == (65536int * 65536) / ref_idx);
    assert((65536int * 65536) / ref_idx >= 1) by {
        vstd::arithmetic::div_mod::lemma_div_is_ordered(ref_idx, 65536int * 65536, ref_idx);
        vstd::arithmetic::div_mod::lemma_div_by_self(ref_idx);
    }
    assert((65536int * 65536) / ref_idx <= 524288) by {
        vstd::arithmetic::div_mod::lemma_div_is_ordered_by_denominator(
            65536int * 65536,
            8192,
            ref_idx,
        );
    }
}

/// The dot product of a full-size direction with a unit-scale normal.
proof fn lemma_dot_bound_asym(d: Vec3, n: Vec3)
    requires
        d.bounded(0x40000000),
        n.bounded(131072),
    ensures
        -0x300000000 <= dot_spec(d, n) <= 0x300000000,
{
    lemma_fmul_bound(d.x as int, n.x as int, 0x40000000, 131072);
    lemma_fmul_bound(d.y as int, n.y as int, 0x40000000, 131072);
    lemma_fmul_bound(d.z as int, n.z as int, 0x40000000, 131072);
}

impl Material {
    /// Dispatch to the variant's scattering rule. Whatever the material, a
    /// scattered ray is well-formed and its attenuation is a unit color.
    pub fn scatter(&self, ray: &Ray, hit: &HitRecord, rng: &mut rand::rngs::SmallRng) -> (res:
        Option<(Ray, Color)>)
        requires
            self.wf(),
            ray.wf(),
            hit.wf(),
        ensures
            res matches Some((scattered, attenuation)) ==> {
                &&& scattered.wf()
                &&& color_unit(attenuation)
                &&& scattered.origin == hit.point
            },
            self matches Material::Dielectric(_) ==> res is Some,
            self matches Material::Lambertian(_) ==> res is Some,
            self matches Material::Metal(m) ==> ((m.fuzzy == 0 && norm2_spec(ray.direction)
                >= 1) ==> (res matches Some((scattered, attenuation)) ==> scattered.direction
                == reflect_spec(unit_spec(ray.direction), hit.normal))),
            self matches Material::Dielectric(m) ==> (refract_spec(
                ray.direction,
                m.outward_spec(*ray, *hit),
                m.eta_spec(*ray, *hit),
            ) is None ==> (res matches Some((scattered, attenuation)) ==> scattered.direction
                == clamp_dir_spec(reflect_spec(ray.direction, hit.normal)))),
    {
        match self {
            Material::Lambertian(m) => m.scatter(ray, hit, rng),
            Material::Metal(m) => {
                proof {
                    lemma_norm2_nonneg(ray.direction);
                }
                m.scatter(ray, hit, rng)
            },
            Material::Dielectric(m) => m.scatter(ray, hit, rng),
        }
    }
}

/// The mirror law: against a normal of exactly unit length, the reflection
/// formula flips the sign of the direction's normal component, so the angle
/// of reflection equals the angle of incidence. Stated over raw integers
/// with the products carried at full scale, where no rounding intervenes;
/// `Metal::scatter` with a fuzz of zero returns the fixed-point evaluation
/// of exactly this formula.
pub proof fn lemma_metal_reflection_law(ux: int, uy: int, uz: int, nx: int, ny: int, nz: int)
    requires
        nx * nx + ny * ny + nz * nz == 65536 * 65536,
    ensures
        ({
            let dt = ux * nx + uy * ny + uz * nz;
            let rx = ux * (65536 * 65536) - 2 * dt * nx;
            let ry = uy * (65536 * 65536) - 2 * dt * ny;
            let rz = uz * (65536 * 65536) - 2 * dt * nz;
            rx * nx + ry * ny + rz * nz == -(dt * (65536 * 65536))
        }),
{
    let dt = ux * nx + uy * ny + uz * nz;
    let k = 65536int * 65536;
    assert((ux * k - 2 * dt * nx) * nx == k * (ux * nx) - 2 * dt * (nx * nx)) by (nonlinear_arith);
    assert((uy * k - 2 * dt * ny) * ny == k * (uy * ny) - 2 * dt * (ny * ny)) by (nonlinear_arith);
    assert((uz * k - 2 * dt * nz) * nz == k * (uz * nz) - 2 * dt * (nz * nz)) by (nonlinear_arith);
    assert(2 * dt * (nx * nx) + 2 * dt * (ny * ny) + 2 * dt * (nz * nz) == 2 * dt * ((nx * nx) + (
    ny * ny) + (nz * nz))) by (nonlinear_arith);
    assert(2 * dt * ((nx * nx) + (ny * ny) + (nz * nz)) == 2 * dt * k);
    assert(2 * dt * k == 2 * (dt * k)) by (nonlinear_arith);
}

} // verus!
