use rand::SeedableRng;
use ray_tracing_one_weekend::fixed::FX_ONE;
use ray_tracing_one_weekend::hittable::HitRecord;
use ray_tracing_one_weekend::materials::{
    random_in_unit_sphere, Dielectric, Lambertian, Material, Metal,
};
use ray_tracing_one_weekend::ray::Ray;
use ray_tracing_one_weekend::vec::{random_vec, Vec3};

fn rng_with(seed: u64) -> rand::rngs::SmallRng {
    rand::rngs::SmallRng::seed_from_u64(seed)
}

fn hit_at_origin() -> HitRecord {
    HitRecord {
        point: Vec3::new(0, 0, 0),
        normal: Vec3::new(0, 0, FX_ONE),
        t: FX_ONE,
        material: Material::Lambertian(Lambertian::new(Vec3::new(32768, 32768, 32768))),
    }
}

#[test]
fn lambertian_always_scatters_near_normal() {
    let m = Lambertian::new(Vec3::new(32768, 16384, 8192));
    let hit = hit_at_origin();
    let incoming = Ray::new(Vec3::new(0, 0, 5 * FX_ONE), Vec3::new(0, 0, -FX_ONE));
    for seed in 0..20u64 {
        let mut rng = rng_with(seed);
        let (scattered, attenuation) =
            m.scatter(&incoming, &hit, &mut rng).expect("diffuse always scatters");
        assert_eq!(attenuation, Vec3::new(32768, 16384, 8192));
        assert_eq!(scattered.origin(), hit.point);
        let jitter = scattered.direction().sub(hit.normal);
        assert!(jitter.norm2() < FX_ONE);
    }
}

#[test]
fn metal_mirror_without_fuzz() {
    // Head-on incidence along -z against a +z normal reflects to +z exactly.
    let m = Metal::new(Vec3::new(45875, 39322, 32768), 0);
    let hit = hit_at_origin();
    let incoming = Ray::new(Vec3::new(0, 0, 5 * FX_ONE), Vec3::new(0, 0, -FX_ONE));
    let mut rng = rng_with(3);
    let (scattered, attenuation) = m.scatter(&incoming, &hit, &mut rng).expect("reflects");
    assert_eq!(scattered.direction(), Vec3::new(0, 0, FX_ONE));
    assert_eq!(scattered.origin(), Vec3::new(0, 0, 0));
    assert_eq!(attenuation, Vec3::new(45875, 39322, 32768));
}

#[test]
fn metal_absorbs_grazing_reflection() {
    // A direction leaving the surface reflects back into it and is absorbed.
    let m = Metal::new(Vec3::new(45875, 39322, 32768), 0);
    let hit = hit_at_origin();
    let leaving = Ray::new(Vec3::new(0, 0, -5 * FX_ONE), Vec3::new(0, 0, FX_ONE));
    let mut rng = rng_with(3);
    assert!(m.scatter(&leaving, &hit, &mut rng).is_none());
}

#[test]
fn metal_new_caps_fuzz() {
    let m = Metal::new(Vec3::new(32768, 32768, 32768), 3 * FX_ONE);
    assert_eq!(m.fuzzy, FX_ONE);
    let n = Metal::new(Vec3::new(32768, 32768, 32768), 100);
    assert_eq!(n.fuzzy, 100);
}

#[test]
fn dielectric_total_internal_reflection() {
    // Leaving glass at a grazing angle: the refraction discriminant is
    // negative, so every draw reflects about the surface normal.
    let d = Dielectric::new(98304);
    let hit = hit_at_origin();
    let grazing = Ray::new(Vec3::new(0, 0, -FX_ONE), Vec3::new(4 * FX_ONE, 0, FX_ONE));
    for seed in 0..20u64 {
        let mut rng = rng_with(seed);
        let (scattered, attenuation) = d.scatter(&grazing, &hit, &mut rng).expect("never absorbs");
        assert_eq!(scattered.direction(), Vec3::new(4 * FX_ONE, 0, -FX_ONE));
        assert_eq!(attenuation, Vec3::new(FX_ONE, FX_ONE, FX_ONE));
    }
}

#[test]
fn dielectric_never_absorbs() {
    let d = Dielectric::new(98304);
    let hit = hit_at_origin();
    let entering = Ray::new(Vec3::new(0, 0, 5 * FX_ONE), Vec3::new(19661, 0, -FX_ONE));
    for seed in 0..20u64 {
        let mut rng = rng_with(seed);
        let (scattered, attenuation) = d.scatter(&entering, &hit, &mut rng).expect("never absorbs");
        assert_eq!(attenuation, Vec3::new(FX_ONE, FX_ONE, FX_ONE));
        assert_eq!(scattered.origin(), hit.point);
    }
}

#[test]
fn unit_sphere_samples_stay_inside() {
    for seed in 0..20u64 {
        let mut rng = rng_with(seed);
        let p = random_in_unit_sphere(&mut rng);
        assert!(p.norm2() < FX_ONE);
    }
}

#[test]
fn random_vec_stays_in_range() {
    let mut rng = rng_with(9);
    for _ in 0..20 {
        let v = random_vec(&mut rng, -FX_ONE, FX_ONE);
        assert!(-FX_ONE <= v.x && v.x <= FX_ONE);
        assert!(-FX_ONE <= v.y && v.y <= FX_ONE);
        assert!(-FX_ONE <= v.z && v.z <= FX_ONE);
    }
}
