use vstd::prelude::*;
use crate::fixed::{FX_ONE, fmul, fx_mul, lemma_fmul_bound};
use crate::ray::Ray;
use crate::rng::rng_next_u64;
use crate::vec::{Vec3, add_spec, cross_spec, norm2_spec, scale_spec, sub_spec, unit_spec,
    lemma_norm2_nonneg, lemma_scale_bound, lemma_unit_bounded};

verus! {

/// A point drawn from the open unit disk in the lens plane, by rejection;
/// after a bounded number of tries the center is returned.
fn random_in_unit_disk(rng: &mut rand::rngs::SmallRng) -> (p: Vec3)
    ensures
        p.bounded(FX_ONE as int),
        norm2_spec(p) < FX_ONE,
        p.z == 0,
{
    let mut attempts: u32 = 0;
    while attempts < 64
        invariant
            true,
        decreases 64 - attempts,
    {
        let rx = (rng_next_u64(rng) % 65536) as i64;
        let ry = (rng_next_u64(rng) % 65536) as i64;
        let p = Vec3 { x: 2 * rx - FX_ONE, y: 2 * ry - FX_ONE, z: 0 };
        if p.norm2() < FX_ONE {
            return p;
        }
        attempts = attempts + 1;
    }
    proof {
        lemma_norm2_nonneg(Vec3 { x: 0i64, y: 0i64, z: 0i64 });
    }
    Vec3::zeros()
}

/// The fixed view basis: computed once from the user's parameters, immutable
/// afterwards.
#[derive(Clone, Copy, Debug, PartialEq, Eq, Structural)]
pub struct Camera {
    pub origin: Vec3,
    pub lower_left_corner: Vec3,
    pub horizontal: Vec3,
    pub vertical: Vec3,
    pub u: Vec3,
    pub v: Vec3,
    pub lens_radius: i64,
}

/// The whole construction of the view basis, as a value.
pub open spec fn camera_spec(
    look_from: Vec3,
    look_at: Vec3,
    view_up: Vec3,
    tan_half_fov: int,
    aspect: int,
    aperture: int,
    focus_dist: int,
) -> Camera {
    let half_height = fmul(focus_dist, tan_half_fov);
    let half_width = fmul(aspect, half_height);
    let w = unit_spec(sub_spec(look_from, look_at));
    let u = unit_spec(cross_spec(view_up, w));
    let v = cross_spec(w, u);
    Camera {
        origin: look_from,
        lower_left_corner: sub_spec(
            sub_spec(sub_spec(look_from, scale_spec(u, half_width)), scale_spec(v, half_height)),
            scale_spec(w, focus_dist),
        ),
        horizontal: scale_spec(u, 2 * half_width),
        vertical: scale_spec(v, 2 * half_height),
        u,
        v,
        lens_radius: (aperture / 2) as i64,
    }
}

/// The lens offset for one disk sample.
pub open spec fn offset_spec(cam: Camera, rd0: Vec3) -> Vec3 {
    let rd = scale_spec(rd0, cam.lens_radius as int);
    add_spec(scale_spec(cam.u, rd.x as int), scale_spec(cam.v, rd.y as int))
}

/// The ray through image-plane coordinates `(s, t)` for one lens offset.
pub open spec fn ray_spec(cam: Camera, s: int, t: int, offset: Vec3) -> Ray {
    Ray {
        origin: add_spec(cam.origin, offset),
        direction: sub_spec(
            sub_spec(
                add_spec(
                    add_spec(cam.lower_left_corner, scale_spec(cam.horizontal, s)),
                    scale_spec(cam.vertical, t),
                ),
                cam.origin,
            ),
            offset,
        ),
    }
}

impl Camera {
    /// Field bounds that keep every generated ray well-formed.
    pub open spec fn wf(self) -> bool {
        &&& self.origin.bounded(0x400000)
        &&& self.lower_left_corner.bounded(0x11000000)
        &&& self.horizontal.bounded(0x10000000)
        &&& self.vertical.bounded(0x10000000)
        &&& self.u.bounded(131072int)
        &&& self.v.bounded(524288int)
        &&& 0 <= self.lens_radius <= 131072
    }

    /// Derive the orthonormal-scale view basis and viewport. The vertical
    /// extent of the view is given as the tangent of half the vertical field
    /// of view; callers holding an angle convert before the call.
    pub fn new(
        look_from: Vec3,
        look_at: Vec3,
        view_up: Vec3,
        tan_half_fov: i64,
        aspect: i64,
        aperture: i64,
        focus_dist: i64,
    ) -> (cam: Camera)
        requires
            look_from.bounded(0x400000),
            look_at.bounded(0x400000),
            view_up.bounded(0x400000),
            0 < tan_half_fov <= 262144,
            0 < aspect <= 262144,
            0 <= aperture <= 262144,
            0 < focus_dist <= 0x400000,
            norm2_spec(sub_spec(look_from, look_at)) >= 1,
            norm2_spec(cross_spec(view_up, unit_spec(sub_spec(look_from, look_at)))) >= 1,
        ensures
            cam == camera_spec(look_from, look_at, view_up, tan_half_fov as int, aspect as int,
                aperture as int, focus_dist as int),
            cam.wf(),
    {
        proof {
            lemma_fmul_bound(focus_dist as int, tan_half_fov as int, 0x400000, 262144);
        }
        let half_height = fx_mul(focus_dist, tan_half_fov);
        proof {
            lemma_fmul_bound(aspect as int, half_height as int, 262144, 0x1000000);
        }
        let half_width = fx_mul(aspect, half_height);
        let diff = look_from.sub(look_at);
        proof {
            lemma_unit_bounded(diff);
        }
        let w = diff.unit();
        let cu = view_up.cross(w);
        proof {
            lemma_fmul_bound(view_up.y as int, w.z as int, 0x400000, 131072);
            lemma_fmul_bound(view_up.z as int, w.y as int, 0x400000, 131072);
            lemma_fmul_bound(view_up.z as int, w.x as int, 0x400000, 131072);
            lemma_fmul_bound(view_up.x as int, w.z as int, 0x400000, 131072);
            lemma_fmul_bound(view_up.x as int, w.y as int, 0x400000, 131072);
            lemma_fmul_bound(view_up.y as int, w.x as int, 0x400000, 131072);
            lemma_unit_bounded(cross_spec(view_up, w));
        }
        let u = cu.unit();
        let v = w.cross(u);
        proof {
            lemma_fmul_bound(w.y as int, u.z as int, 131072, 131072);
            lemma_fmul_bound(w.z as int, u.y as int, 131072, 131072);
            lemma_fmul_bound(w.z as int, u.x as int, 131072, 131072);
            lemma_fmul_bound(w.x as int, u.z as int, 131072, 131072);
            lemma_fmul_bound(w.x as int, u.y as int, 131072, 131072);
            lemma_fmul_bound(w.y as int, u.x as int, 131072, 131072);
            lemma_scale_bound(u, half_width as int, 131072, 0x4000000);
            lemma_scale_bound(v, half_height as int, 524288, 0x1000000);
            lemma_scale_bound(w, focus_dist as int, 131072, 0x400000);
            lemma_scale_bound(u, 2 * half_width as int, 131072, 0x8000000);
            lemma_scale_bound(v, 2 * half_height as int, 524288, 0x2000000);
        }
        let lower_left_corner = look_from.sub(u.scale(half_width)).sub(v.scale(half_height)).sub(
            w.scale(focus_dist),
        );
        let horizontal = u.scale(2 * half_width);
        let vertical = v.scale(2 * half_height);
        Camera {
            origin: look_from,
            lower_left_corner,
            horizontal,
            vertical,
            u,
            v,
            lens_radius: aperture / 2,
        }
    }

    /// The jittered ray through `(s, t)`: the origin is pushed within the
    /// lens disk and the direction aims at the focus plane, less that same
    /// offset. With a closed aperture the ray is fully determined.
    pub fn get_ray(&self, s: i64, t: i64, rng: &mut rand::rngs::SmallRng) -> (r: Ray)
        requires
            self.wf(),
            0 <= s <= FX_ONE,
            0 <= t <= FX_ONE,
        ensures
            r.wf(),
            exists|rd0: Vec3|
                {
                    &&& #[trigger] norm2_spec(rd0) < FX_ONE
                    &&& rd0.bounded(FX_ONE as int)
                    &&& rd0.z == 0
                    &&& r == ray_spec(*self, s as int, t as int, offset_spec(*self, rd0))
                },
            self.lens_radius == 0 ==> r == ray_spec(*self, s as int, t as int,
                (Vec3 { x: 0i64, y: 0i64, z: 0i64 })),
    {
        let rd0 = random_in_unit_disk(rng);
        let rd = rd0.scale(self.lens_radius);
        proof {
            lemma_fmul_bound(rd0.x as int, self.lens_radius as int, 65536, 131072);
            lemma_fmul_bound(rd0.y as int, self.lens_radius as int, 65536, 131072);
            lemma_scale_bound(self.u, scale_spec(rd0, self.lens_radius as int).x as int, 131072,
                131072);
            lemma_scale_bound(self.v, scale_spec(rd0, self.lens_radius as int).y as int, 524288,
                131072);
        }
        let offset = self.u.scale(rd.x).add(self.v.scale(rd.y));
        proof {
            lemma_scale_bound(self.horizontal, s as int, 0x10000000, 65536);
            lemma_scale_bound(self.vertical, t as int, 0x10000000, 65536);
            if self.lens_radius == 0 {
                lemma_zero_offset(*self, rd0);
            }
        }
        let origin = self.origin.add(offset);
        let direction = self.lower_left_corner.add(self.horizontal.scale(s)).add(
            self.vertical.scale(t),
        ).sub(self.origin).sub(offset);
        let r = Ray::new(origin, direction);
        proof {
            assert(norm2_spec(rd0) < FX_ONE);
            assert(r == ray_spec(*self, s as int, t as int, offset_spec(*self, rd0)));
        }
        r
    }
}

/// With a closed aperture the disk sample is scaled by zero, so the offset
/// vanishes whatever was drawn.
proof fn lemma_zero_offset(cam: Camera, rd0: Vec3)
    requires
        cam.lens_radius == 0,
    ensures
        offset_spec(cam, rd0) == (Vec3 { x: 0i64, y: 0i64, z: 0i64 }),
{
    assert(rd0.x as int * 0 == 0);
    assert(rd0.y as int * 0 == 0);
    assert(rd0.z as int * 0 == 0);
    assert(fmul(rd0.x as int, 0) == 0);
    assert(fmul(rd0.y as int, 0) == 0);
    assert(cam.u.x as int * 0 == 0);
    assert(fmul(cam.u.x as int, 0) == 0);
    assert(fmul(cam.u.y as int, 0) == 0);
    assert(fmul(cam.u.z as int, 0) == 0);
    assert(fmul(cam.v.x as int, 0) == 0);
    assert(fmul(cam.v.y as int, 0) == 0);
    assert(fmul(cam.v.z as int, 0) == 0);
}

} // verus!
