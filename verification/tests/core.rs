use ray_tracing_one_weekend::fixed::{fx_div, fx_mul, fx_sqrt, FX_ONE};
use ray_tracing_one_weekend::hittable::aabb::{surrounding_box, Aabb};
use ray_tracing_one_weekend::ray::Ray;
use ray_tracing_one_weekend::vec::Vec3;

#[test]
fn fixed_mul_exact() {
    assert_eq!(fx_mul(2 * FX_ONE, 98304), 3 * FX_ONE);
    assert_eq!(fx_mul(-2 * FX_ONE, 98304), -3 * FX_ONE);
    assert_eq!(fx_mul(FX_ONE, 0), 0);
}

#[test]
fn fixed_mul_rounds_toward_zero() {
    // 1/65536 * 1/65536 underflows to zero from either sign.
    assert_eq!(fx_mul(1, 1), 0);
    assert_eq!(fx_mul(-1, 1), 0);
}

#[test]
fn fixed_div_exact_and_truncating() {
    assert_eq!(fx_div(3 * FX_ONE, 2 * FX_ONE), 98304);
    assert_eq!(fx_div(-FX_ONE, 2 * FX_ONE), -32768);
    assert_eq!(fx_div(FX_ONE, -2 * FX_ONE), -32768);
    assert_eq!(fx_div(1, 3 * FX_ONE), 0);
}

#[test]
fn fixed_sqrt_values() {
    assert_eq!(fx_sqrt(0), 0);
    assert_eq!(fx_sqrt(FX_ONE), FX_ONE);
    assert_eq!(fx_sqrt(4 * FX_ONE), 2 * FX_ONE);
    // floor(sqrt(2) * 65536)
    assert_eq!(fx_sqrt(2 * FX_ONE), 92681);
}

#[test]
fn vec_dot_and_cross() {
    let a = Vec3::new(FX_ONE, 0, 0);
    let b = Vec3::new(0, FX_ONE, 0);
    assert_eq!(a.dot(b), 0);
    assert_eq!(a.dot(a), FX_ONE);
    assert_eq!(a.cross(b), Vec3::new(0, 0, FX_ONE));
    assert_eq!(b.cross(a), Vec3::new(0, 0, -FX_ONE));
}

#[test]
fn vec_unit_axis() {
    let v = Vec3::new(0, 3 * FX_ONE, 0);
    assert_eq!(v.unit(), Vec3::new(0, FX_ONE, 0));
}

#[test]
fn surrounding_box_symmetric() {
    let a = Aabb { min: Vec3::new(-FX_ONE, 0, 0), max: Vec3::new(FX_ONE, FX_ONE, FX_ONE) };
    let b = Aabb { min: Vec3::new(0, -FX_ONE, 0), max: Vec3::new(2 * FX_ONE, 0, FX_ONE) };
    assert_eq!(surrounding_box(&a, &b), surrounding_box(&b, &a));
}

#[test]
fn surrounding_box_idempotent() {
    let a = Aabb { min: Vec3::new(-FX_ONE, -FX_ONE, -FX_ONE), max: Vec3::new(FX_ONE, 0, FX_ONE) };
    assert_eq!(surrounding_box(&a, &a), a);
}

#[test]
fn surrounding_box_covers_both() {
    let a = Aabb { min: Vec3::new(-FX_ONE, 0, 0), max: Vec3::new(FX_ONE, FX_ONE, FX_ONE) };
    let b = Aabb { min: Vec3::new(0, -FX_ONE, 0), max: Vec3::new(2 * FX_ONE, 0, FX_ONE) };
    let u = surrounding_box(&a, &b);
    assert_eq!(u.min, Vec3::new(-FX_ONE, -FX_ONE, 0));
    assert_eq!(u.max, Vec3::new(2 * FX_ONE, FX_ONE, FX_ONE));
}

#[test]
fn aabb_hit_through_and_past() {
    let b = Aabb {
        min: Vec3::new(-FX_ONE, -FX_ONE, -3 * FX_ONE),
        max: Vec3::new(FX_ONE, FX_ONE, -FX_ONE),
    };
    let through = Ray::new(Vec3::new(0, 0, 0), Vec3::new(0, 0, -FX_ONE));
    assert!(b.hit(&through, 66, 100 * FX_ONE));
    let past = Ray::new(Vec3::new(4 * FX_ONE, 0, 0), Vec3::new(0, 0, -FX_ONE));
    assert!(!b.hit(&past, 66, 100 * FX_ONE));
}

#[test]
fn aabb_hit_parallel_axis() {
    let b = Aabb {
        min: Vec3::new(-FX_ONE, -FX_ONE, -3 * FX_ONE),
        max: Vec3::new(FX_ONE, FX_ONE, -FX_ONE),
    };
    // A ray parallel to the x slabs, with its origin inside them, still hits.
    let inside = Ray::new(Vec3::new(0, 0, 0), Vec3::new(0, 0, -FX_ONE));
    assert!(b.hit(&inside, 66, 100 * FX_ONE));
    // The same direction from outside the x slabs misses.
    let outside = Ray::new(Vec3::new(2 * FX_ONE, 0, 0), Vec3::new(0, 0, -FX_ONE));
    assert!(!b.hit(&outside, 66, 100 * FX_ONE));
}

#[test]
fn ray_at_evaluates() {
    let r = Ray::new(Vec3::new(0, 0, 5 * FX_ONE), Vec3::new(0, 0, -FX_ONE));
    assert_eq!(r.at(2 * FX_ONE), Vec3::new(0, 0, 3 * FX_ONE));
    assert_eq!(r.origin(), Vec3::new(0, 0, 5 * FX_ONE));
    assert_eq!(r.direction(), Vec3::new(0, 0, -FX_ONE));
}
