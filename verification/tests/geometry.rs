use rand::SeedableRng;
use ray_tracing_one_weekend::fixed::FX_ONE;
use ray_tracing_one_weekend::hittable::bvh::BvhTree;
use ray_tracing_one_weekend::hittable::sphere::Sphere;
use ray_tracing_one_weekend::hittable::HittableList;
use ray_tracing_one_weekend::materials::{Lambertian, Material, Metal};
use ray_tracing_one_weekend::ray::{Ray, T_LIMIT};
use ray_tracing_one_weekend::vec::Vec3;

fn gray() -> Material {
    Material::Lambertian(Lambertian::new(Vec3::new(32768, 32768, 32768)))
}

#[test]
fn sphere_hit_front() {
    // A sphere of radius one half at the origin, a ray from z = 5 aiming down
    // the axis: the hit is at t = 5 - r with the outward unit normal.
    let s = Sphere::new(Vec3::new(0, 0, 0), 32768, gray());
    let r = Ray::new(Vec3::new(0, 0, 5 * FX_ONE), Vec3::new(0, 0, -FX_ONE));
    let h = s.hit(&r, 66, T_LIMIT).expect("must hit");
    assert_eq!(h.t, 294912);
    assert_eq!(h.normal, Vec3::new(0, 0, FX_ONE));
    assert_eq!(h.point, Vec3::new(0, 0, 32768));
    assert_eq!(h.material, gray());
}

#[test]
fn sphere_hit_respects_range() {
    let s = Sphere::new(Vec3::new(0, 0, 0), 32768, gray());
    let r = Ray::new(Vec3::new(0, 0, 5 * FX_ONE), Vec3::new(0, 0, -FX_ONE));
    // The near root is at 4.5; a range that ends before it gives no hit from
    // the near side, and the far root at 5.5 is found when the range allows.
    assert!(s.hit(&r, 66, 4 * FX_ONE).is_none());
    let far = s.hit(&r, 5 * FX_ONE, T_LIMIT).expect("far root");
    assert_eq!(far.t, 360448);
    assert_eq!(far.normal, Vec3::new(0, 0, -FX_ONE));
}

#[test]
fn sphere_miss() {
    let s = Sphere::new(Vec3::new(0, 0, 0), 32768, gray());
    let away = Ray::new(Vec3::new(0, 0, 5 * FX_ONE), Vec3::new(0, 0, FX_ONE));
    assert!(s.hit(&away, 66, T_LIMIT).is_none());
    let offset = Ray::new(Vec3::new(3 * FX_ONE, 0, 5 * FX_ONE), Vec3::new(0, 0, -FX_ONE));
    assert!(offset.direction().z < 0);
    assert!(s.hit(&offset, 66, T_LIMIT).is_none());
}

#[test]
fn sphere_bounding_box_corners() {
    let s = Sphere::new(Vec3::new(FX_ONE, 0, -FX_ONE), 32768, gray());
    let b = s.bounding_box();
    assert_eq!(b.min, Vec3::new(FX_ONE - 32768, -32768, -FX_ONE - 32768));
    assert_eq!(b.max, Vec3::new(FX_ONE + 32768, 32768, -FX_ONE + 32768));
}

fn test_scene() -> Vec<Sphere> {
    let mut v = Vec::new();
    v.push(Sphere::new(Vec3::new(0, 0, -2 * FX_ONE), 32768, gray()));
    v.push(Sphere::new(Vec3::new(0, 0, -4 * FX_ONE), 32768, gray()));
    v.push(
        Sphere::new(
            Vec3::new(FX_ONE, FX_ONE, -3 * FX_ONE),
            32768,
            Material::Metal(Metal::new(Vec3::new(45875, 39322, 32768), 0)),
        ),
    );
    v.push(Sphere::new(Vec3::new(-2 * FX_ONE, 0, -2 * FX_ONE), FX_ONE, gray()));
    v.push(Sphere::new(Vec3::new(0, -6586368, -FX_ONE), 6553600, gray()));
    v
}

fn test_rays() -> Vec<Ray> {
    let mut v = Vec::new();
    v.push(Ray::new(Vec3::new(0, 0, 0), Vec3::new(0, 0, -FX_ONE)));
    v.push(Ray::new(Vec3::new(0, 0, 0), Vec3::new(19661, 19661, -FX_ONE)));
    v.push(Ray::new(Vec3::new(0, 0, 0), Vec3::new(0, FX_ONE, 0)));
    v.push(Ray::new(Vec3::new(-2 * FX_ONE, 3 * FX_ONE, -2 * FX_ONE), Vec3::new(0, -FX_ONE, 0)));
    v.push(Ray::new(Vec3::new(0, 0, -8 * FX_ONE), Vec3::new(0, 0, FX_ONE)));
    v
}

#[test]
fn bvh_matches_linear_scan() {
    // The closest hit through the tree equals the linear scan over the same
    // sphere order, hit or miss.
    let spheres = test_scene();
    let tree = BvhTree::new(&spheres);
    // Scan the same spheres linearly; the scene has no two hits at equal
    // parameter, so the scan order cannot matter.
    let mut list = HittableList::default();
    for s in &spheres {
        list.push(*s);
    }
    for ray in &test_rays() {
        let a = tree.hit(ray, 66, T_LIMIT);
        let b = list.hit(ray, 66, T_LIMIT);
        assert_eq!(a, b);
    }
}

#[test]
fn bvh_empty_scene_misses() {
    let spheres: Vec<Sphere> = Vec::new();
    let tree = BvhTree::new(&spheres);
    let r = Ray::new(Vec3::new(0, 0, 0), Vec3::new(0, 0, -FX_ONE));
    assert!(tree.hit(&r, 66, T_LIMIT).is_none());
}

#[test]
fn bvh_single_sphere() {
    let mut spheres = Vec::new();
    spheres.push(Sphere::new(Vec3::new(0, 0, -2 * FX_ONE), 32768, gray()));
    let tree = BvhTree::new(&spheres);
    let r = Ray::new(Vec3::new(0, 0, 0), Vec3::new(0, 0, -FX_ONE));
    let h = tree.hit(&r, 66, T_LIMIT).expect("must hit");
    assert_eq!(h.t, 98304);
}

#[test]
fn hittable_list_closest_wins() {
    let mut list = HittableList::default();
    list.push(Sphere::new(Vec3::new(0, 0, -4 * FX_ONE), 32768, gray()));
    list.push(Sphere::new(Vec3::new(0, 0, -2 * FX_ONE), 32768, gray()));
    let r = Ray::new(Vec3::new(0, 0, 0), Vec3::new(0, 0, -FX_ONE));
    let h = list.hit(&r, 66, T_LIMIT).expect("must hit");
    // 2 - 0.5 = 1.5
    assert_eq!(h.t, 98304);
    assert_eq!(list.len(), 2);
}

#[test]
fn hittable_list_empty() {
    let list = HittableList::default();
    let r = Ray::new(Vec3::new(0, 0, 0), Vec3::new(0, 0, -FX_ONE));
    assert!(list.hit(&r, 66, T_LIMIT).is_none());
    assert_eq!(list.len(), 0);
}

#[test]
fn random_scene_is_populated() {
    let mut rng = rand::rngs::SmallRng::seed_from_u64(11);
    let world = ray_tracing_one_weekend::scene::random_scene(&mut rng);
    // The ground sphere and the three large ones are always there.
    assert!(world.len() >= 4);
}
