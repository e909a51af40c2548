use rand::SeedableRng;
use ray_tracing_one_weekend::camera::Camera;
use ray_tracing_one_weekend::cli::Cli;
use ray_tracing_one_weekend::fixed::FX_ONE;
use ray_tracing_one_weekend::hittable::bvh::BvhTree;
use ray_tracing_one_weekend::hittable::sphere::Sphere;
use ray_tracing_one_weekend::materials::{Lambertian, Material};
use ray_tracing_one_weekend::ray::Ray;
use ray_tracing_one_weekend::vec::Vec3;
use ray_tracing_one_weekend::{quantize_channel, ray_color, render, render_row};

fn rng_with(seed: u64) -> rand::rngs::SmallRng {
    rand::rngs::SmallRng::seed_from_u64(seed)
}

fn gray() -> Material {
    Material::Lambertian(Lambertian::new(Vec3::new(32768, 32768, 32768)))
}

/// The ground sphere of radius 100 and the small sphere of radius one half,
/// both centered on the view axis.
fn two_sphere_world() -> BvhTree {
    let mut spheres = Vec::new();
    spheres.push(Sphere::new(Vec3::new(0, -6586368, -FX_ONE), 6553600, gray()));
    spheres.push(Sphere::new(Vec3::new(0, 0, -FX_ONE), 32768, gray()));
    BvhTree::new(&spheres)
}

#[test]
fn ray_color_depth_zero_is_black() {
    let world = two_sphere_world();
    let r = Ray::new(Vec3::new(0, 0, 0), Vec3::new(0, 0, -FX_ONE));
    let mut rng = rng_with(1);
    assert_eq!(ray_color(&r, &world, 0, &mut rng), Vec3::new(0, 0, 0));
}

#[test]
fn ray_color_stays_in_unit_range() {
    let world = two_sphere_world();
    let mut rng = rng_with(5);
    let dirs = [
        Vec3::new(0, 0, -FX_ONE),
        Vec3::new(19661, -19661, -FX_ONE),
        Vec3::new(0, FX_ONE, 0),
        Vec3::new(-FX_ONE, 13107, -32768),
    ];
    for d in dirs {
        for depth in 0..6u32 {
            let c = ray_color(&Ray::new(Vec3::new(0, 0, 0), d), &world, depth, &mut rng);
            assert!(0 <= c.x && c.x <= FX_ONE);
            assert!(0 <= c.y && c.y <= FX_ONE);
            assert!(0 <= c.z && c.z <= FX_ONE);
        }
    }
}

#[test]
fn miss_reproduces_sky_gradient() {
    // A ray straight up misses both spheres; its normalized height is one,
    // so the color is exactly the sky-blue end of the gradient.
    let world = two_sphere_world();
    let mut rng = rng_with(2);
    let up = Ray::new(Vec3::new(0, 0, 0), Vec3::new(0, FX_ONE, 0));
    let c = ray_color(&up, &world, 1, &mut rng);
    assert_eq!(c, Vec3::new(32768, 45875, FX_ONE));
}

#[test]
fn hit_differs_from_sky() {
    // The axis ray strikes the small sphere; at depth one the diffuse bounce
    // is cut off, so the pixel is black — certainly not the sky gradient.
    let world = two_sphere_world();
    let mut rng = rng_with(2);
    let axis = Ray::new(Vec3::new(0, 0, 0), Vec3::new(0, 0, -FX_ONE));
    let c = ray_color(&axis, &world, 1, &mut rng);
    assert_eq!(c, Vec3::new(0, 0, 0));
    assert_ne!(c, Vec3::new(32768, 45875, FX_ONE));
}

#[test]
fn quantize_channel_values() {
    // Full white clamps at 0.999 and lands on 255.
    assert_eq!(quantize_channel(FX_ONE, 1), 255);
    assert_eq!(quantize_channel(0, 5), 0);
    // A half-intensity channel gamma-corrects to sqrt(1/2).
    assert_eq!(quantize_channel(32768, 1), 181);
    // The mean of four samples of one quarter each.
    assert_eq!(quantize_channel(4 * 16384, 4), 128);
}

fn test_camera() -> Camera {
    Camera::new(
        Vec3::new(0, 0, 0),
        Vec3::new(0, 0, -FX_ONE),
        Vec3::new(0, FX_ONE, 0),
        FX_ONE,
        2 * FX_ONE,
        0,
        FX_ONE,
    )
}

#[test]
fn camera_center_ray_points_forward() {
    let cam = test_camera();
    let mut rng = rng_with(4);
    let r = cam.get_ray(32768, 32768, &mut rng);
    assert_eq!(r.origin(), Vec3::new(0, 0, 0));
    assert_eq!(r.direction(), Vec3::new(0, 0, -FX_ONE));
}

#[test]
fn camera_corner_ray_hits_lower_left() {
    let cam = test_camera();
    let mut rng = rng_with(4);
    let r = cam.get_ray(0, 0, &mut rng);
    assert_eq!(r.origin(), Vec3::new(0, 0, 0));
    assert_eq!(r.direction(), Vec3::new(-2 * FX_ONE, -FX_ONE, -FX_ONE));
}

#[test]
fn render_row_has_three_bytes_per_pixel() {
    let world = two_sphere_world();
    let cam = test_camera();
    let mut rng = rng_with(6);
    let row = render_row(&world, &cam, 1, 4, 2, 2, 3, &mut rng);
    assert_eq!(row.len(), 12);
}

#[test]
fn render_produces_row_major_buffer() {
    let world = two_sphere_world();
    let cam = test_camera();
    let mut rng = rng_with(7);
    let pixels = render(&world, &cam, 2, 2, 1, 1, &mut rng);
    assert_eq!(pixels.len(), 12);
    // The top row looks at the sky above the spheres: with one sample the
    // jitter stays within the pixel, the rays point upward and miss, and the
    // blue channel saturates.
    assert_eq!(pixels[2], 255);
    assert_eq!(pixels[5], 255);
}

#[test]
fn cli_defaults() {
    let c = Cli::default();
    assert_eq!(c.width, 256);
    assert_eq!(c.height, 128);
    assert_eq!(c.samples, 500);
    assert_eq!(c.depth, 50);
}
