use vstd::prelude::*;
use crate::fixed::{FX_ONE, lemma_fmul_bound, lemma_fmul_nonneg, lemma_fmul_unit};
use crate::hittable::HittableList;
use crate::hittable::sphere::Sphere;
use crate::materials::{Dielectric, Lambertian, Material, Metal};
use crate::rng::rand_unit;
use crate::vec::{Vec3, random_vec};

verus! {

/// The gray sphere of radius one thousand serving as the ground plane.
pub open spec fn ground_sphere() -> Sphere {
    Sphere {
        center: Vec3 { x: 0i64, y: -65536000i64, z: 0i64 },
        radius: 65536000i64,
        material: Material::Lambertian(
            Lambertian { albedo: Vec3 { x: 32768i64, y: 32768i64, z: 32768i64 } },
        ),
    }
}

/// The large glass sphere at the center of the scene.
pub open spec fn big_glass_sphere() -> Sphere {
    Sphere {
        center: Vec3 { x: 0i64, y: 65536i64, z: 0i64 },
        radius: 65536i64,
        material: Material::Dielectric(Dielectric { ref_idx: 98304i64 }),
    }
}

/// The large diffuse sphere on the left.
pub open spec fn big_diffuse_sphere() -> Sphere {
    Sphere {
        center: Vec3 { x: -262144i64, y: 65536i64, z: 0i64 },
        radius: 65536i64,
        material: Material::Lambertian(
            Lambertian { albedo: Vec3 { x: 26214i64, y: 13107i64, z: 6554i64 } },
        ),
    }
}

/// The large polished metal sphere on the right.
pub open spec fn big_metal_sphere() -> Sphere {
    Sphere {
        center: Vec3 { x: 262144i64, y: 65536i64, z: 0i64 },
        radius: 65536i64,
        material: Material::Metal(
            Metal { albedo: Vec3 { x: 45875i64, y: 39322i64, z: 32768i64 }, fuzzy: 0i64 },
        ),
    }
}

/// The showcase scene: a large ground sphere, a grid of small spheres with
/// randomly drawn materials (diffuse, metal or glass), and three large
/// spheres, one of each material. However the grid comes out, the ground
/// sphere opens the list and the three large spheres close it.
pub fn random_scene(rng: &mut rand::rngs::SmallRng) -> (world: HittableList)
    ensures
        world.wf(),
        world.models@.len() >= 4,
        world.models@[0] == ground_sphere(),
        world.models@[world.models@.len() - 3] == big_glass_sphere(),
        world.models@[world.models@.len() - 2] == big_diffuse_sphere(),
        world.models@[world.models@.len() - 1] == big_metal_sphere(),
{
    let mut world = HittableList::default();
    let ground_mat = Lambertian::new(Vec3::new(32768, 32768, 32768));
    world.push(
        Sphere::new(Vec3::new(0, -65536000, 0), 65536000, Material::Lambertian(ground_mat)),
    );
    let mut a: i64 = -11;
    while a < 11
        invariant
            -11 <= a <= 11,
            world.wf(),
            world.models@.len() >= 1,
            world.models@[0] == ground_sphere(),
        decreases 11 - a,
    {
        let mut b: i64 = -11;
        while b < 11
            invariant
                -11 <= a < 11,
                -11 <= b <= 11,
                world.wf(),
                world.models@.len() >= 1,
                world.models@[0] == ground_sphere(),
            decreases 11 - b,
        {
            let choose_mat = rand_unit(rng);
            let jx = rand_unit(rng);
            let jz = rand_unit(rng);
            proof {
                lemma_fmul_bound(58982, jx as int, 58982, 65536);
                lemma_fmul_bound(58982, jz as int, 58982, 65536);
                lemma_fmul_nonneg(58982, jx as int);
                lemma_fmul_nonneg(58982, jz as int);
            }
            let center = Vec3::new(
                a * FX_ONE + crate::fixed::fx_mul(58982, jx),
                13107,
                b * FX_ONE + crate::fixed::fx_mul(58982, jz),
            );
            let d = center.sub(Vec3::new(262144, 13107, 0));
            if d.length() > 58982 {
                if choose_mat < 52429 {
                    let c1 = random_vec(rng, 0, FX_ONE);
                    let c2 = random_vec(rng, 0, FX_ONE);
                    proof {
                        lemma_fmul_unit(c1.x as int, c2.x as int);
                        lemma_fmul_unit(c1.y as int, c2.y as int);
                        lemma_fmul_unit(c1.z as int, c2.z as int);
                    }
                    let albedo = c1.mul(c2);
                    world.push(
                        Sphere::new(
                            center,
                            13107,
                            Material::Lambertian(Lambertian::new(albedo)),
                        ),
                    );
                } else if choose_mat < 62259 {
                    let albedo = random_vec(rng, 32768, FX_ONE);
                    let fuzzy = rand_unit(rng) / 2;
                    world.push(
                        Sphere::new(center, 13107, Material::Metal(Metal::new(albedo, fuzzy))),
                    );
                } else {
                    world.push(
                        Sphere::new(center, 13107, Material::Dielectric(Dielectric::new(98304))),
                    );
                }
            }
            b = b + 1;
        }
        a = a + 1;
    }
    let mat1 = Dielectric::new(98304);
    world.push(Sphere::new(Vec3::new(0, FX_ONE, 0), FX_ONE, Material::Dielectric(mat1)));
    let mat2 = Lambertian::new(Vec3::new(26214, 13107, 6554));
    world.push(Sphere::new(Vec3::new(-262144, FX_ONE, 0), FX_ONE, Material::Lambertian(mat2)));
    let mat3 = Metal::new(Vec3::new(45875, 39322, 32768), 0);
    world.push(Sphere::new(Vec3::new(262144, FX_ONE, 0), FX_ONE, Material::Metal(mat3)));
    world
}

} // verus!
