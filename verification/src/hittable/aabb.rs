use vstd::prelude::*;
use crate::fixed::{fdiv, fx_div, lemma_tdiv_mono};
use crate::ray::{Ray, ORIGIN_MAX, DIR_MAX};
use crate::vec::Vec3;

verus! {

/// Bounding-box corners stay within this many raw units per axis.
pub const BOX_MAX: i64 = 0x10000000;

/// Intermediate ray-parameter bounds threaded through the slab test stay
/// within this range.
pub const SLAB_T_MAX: i64 = 0x400000000000;

/// An axis-aligned bounding box, kept as its two extreme corners.
#[derive(Clone, Copy, Debug, PartialEq, Eq, Structural)]
pub struct Aabb {
    pub min: Vec3,
    pub max: Vec3,
}

impl Aabb {
    pub open spec fn wf(self) -> bool {
        &&& self.min.bounded(BOX_MAX as int)
        &&& self.max.bounded(BOX_MAX as int)
        &&& self.min.x <= self.max.x
        &&& self.min.y <= self.max.y
        &&& self.min.z <= self.max.z
    }

    /// `other` fits inside `self`, axis by axis.
    pub open spec fn contains_box(self, other: Aabb) -> bool {
        &&& self.min.x <= other.min.x && other.max.x <= self.max.x
        &&& self.min.y <= other.min.y && other.max.y <= self.max.y
        &&& self.min.z <= other.min.z && other.max.z <= self.max.z
    }
}

/// Tighten the ray-parameter interval `(tmin, tmax)` by one slab `[mn, mx]`.
/// A zero direction component constrains nothing when the origin lies
/// strictly inside the slab and empties the interval otherwise.
pub open spec fn slab_spec(mn: int, mx: int, o: int, d: int, tmin: int, tmax: int) -> (int, int) {
    if d == 0 {
        if mn < o < mx {
            (tmin, tmax)
        } else {
            (tmin, tmin)
        }
    } else {
        let ta = if d > 0 { fdiv(mn - o, d) } else { fdiv(mx - o, d) };
        let tb = if d > 0 { fdiv(mx - o, d) } else { fdiv(mn - o, d) };
        let lo = if ta > tmin { ta } else { tmin };
        let hi = if tb < tmax { tb } else { tmax };
        (lo, hi)
    }
}

/// The slab intersection test: the interval survives all three axes.
pub open spec fn aabb_hit_spec(b: Aabb, r: Ray, tmin: int, tmax: int) -> bool {
    let px = slab_spec(b.min.x as int, b.max.x as int, r.origin.x as int, r.direction.x as int,
        tmin, tmax);
    let py = slab_spec(b.min.y as int, b.max.y as int, r.origin.y as int, r.direction.y as int,
        px.0, px.1);
    let pz = slab_spec(b.min.z as int, b.max.z as int, r.origin.z as int, r.direction.z as int,
        py.0, py.1);
    pz.0 < pz.1
}

/// The union of two boxes: component-wise minima and maxima.
pub open spec fn surrounding_box_spec(a: Aabb, b: Aabb) -> Aabb {
    Aabb {
        min: Vec3 {
            x: if a.min.x < b.min.x { a.min.x } else { b.min.x },
            y: if a.min.y < b.min.y { a.min.y } else { b.min.y },
            z: if a.min.z < b.min.z { a.min.z } else { b.min.z },
        },
        max: Vec3 {
            x: if a.max.x > b.max.x { a.max.x } else { b.max.x },
            y: if a.max.y > b.max.y { a.max.y } else { b.max.y },
            z: if a.max.z > b.max.z { a.max.z } else { b.max.z },
        },
    }
}

pub fn surrounding_box(box0: &Aabb, box1: &Aabb) -> (r: Aabb)
    ensures
        r == surrounding_box_spec(*box0, *box1),
{
    Aabb {
        min: Vec3 {
            x: if box0.min.x < box1.min.x { box0.min.x } else { box1.min.x },
            y: if box0.min.y < box1.min.y { box0.min.y } else { box1.min.y },
            z: if box0.min.z < box1.min.z { box0.min.z } else { box1.min.z },
        },
        max: Vec3 {
            x: if box0.max.x > box1.max.x { box0.max.x } else { box1.max.x },
            y: if box0.max.y > box1.max.y { box0.max.y } else { box1.max.y },
            z: if box0.max.z > box1.max.z { box0.max.z } else { box1.max.z },
        },
    }
}

/// Taking the union of two boxes does not depend on their order.
pub proof fn lemma_surrounding_box_sym(a: Aabb, b: Aabb)
    ensures
        surrounding_box_spec(a, b) == surrounding_box_spec(b, a),
{
}

/// The union of a box with itself is that box.
pub proof fn lemma_surrounding_box_idem(a: Aabb)
    ensures
        surrounding_box_spec(a, a) == a,
{
}

/// The union contains both of its arguments, and it keeps well-formedness.
pub proof fn lemma_surrounding_box_contains(a: Aabb, b: Aabb)
    requires
        a.wf(),
        b.wf(),
    ensures
        surrounding_box_spec(a, b).wf(),
        surrounding_box_spec(a, b).contains_box(a),
        surrounding_box_spec(a, b).contains_box(b),
{
}

proof fn lemma_fdiv_mono(x: int, y: int, d: int)
    requires
        x <= y,
        d != 0,
    ensures
        d > 0 ==> fdiv(x, d) <= fdiv(y, d),
        d < 0 ==> fdiv(y, d) <= fdiv(x, d),
{
    if d > 0 {
        lemma_tdiv_mono(x * 65536, y * 65536, d);
    } else {
        lemma_tdiv_mono(x * 65536, y * 65536, -d);
    }
}

/// Once the interval is empty, no further slab revives it.
proof fn lemma_slab_empty(mn: int, mx: int, o: int, d: int, tmin: int, tmax: int)
    requires
        tmax <= tmin,
    ensures
        slab_spec(mn, mx, o, d, tmin, tmax).1 <= slab_spec(mn, mx, o, d, tmin, tmax).0,
{
}

/// A slab of a containing box tightens the interval less: if the inner
/// result is non-empty, the outer result extends it on both sides.
proof fn lemma_slab_mono(
    mni: int,
    mxi: int,
    mno: int,
    mxo: int,
    o: int,
    d: int,
    ai: int,
    bi: int,
    ao: int,
    bo: int,
)
    requires
        mno <= mni,
        mxi <= mxo,
        ao <= ai,
        bi <= bo,
    ensures
        ({
            let ri = slab_spec(mni, mxi, o, d, ai, bi);
            let ro = slab_spec(mno, mxo, o, d, ao, bo);
            ri.0 < ri.1 ==> ro.0 <= ri.0 && ri.1 <= ro.1
        }),
{
    let ri = slab_spec(mni, mxi, o, d, ai, bi);
    if ri.0 < ri.1 {
        if d == 0 {
            assert(mni < o < mxi);
        } else {
            lemma_fdiv_mono(mno - o, mni - o, d);
            lemma_fdiv_mono(mxi - o, mxo - o, d);
        }
    }
}

/// The slab test is monotone under box containment: a ray interval that
/// survives an inner box also survives any box containing it.
pub proof fn lemma_aabb_hit_mono(inner: Aabb, outer: Aabb, r: Ray, tmin: int, tmax: int)
    requires
        outer.contains_box(inner),
        aabb_hit_spec(inner, r, tmin, tmax),
    ensures
        aabb_hit_spec(outer, r, tmin, tmax),
{
    let ox = r.origin.x as int;
    let oy = r.origin.y as int;
    let oz = r.origin.z as int;
    let dx = r.direction.x as int;
    let dy = r.direction.y as int;
    let dz = r.direction.z as int;
    let pix = slab_spec(inner.min.x as int, inner.max.x as int, ox, dx, tmin, tmax);
    let piy = slab_spec(inner.min.y as int, inner.max.y as int, oy, dy, pix.0, pix.1);
    let piz = slab_spec(inner.min.z as int, inner.max.z as int, oz, dz, piy.0, piy.1);
    let pox = slab_spec(outer.min.x as int, outer.max.x as int, ox, dx, tmin, tmax);
    assert(pix.0 < pix.1) by {
        if pix.1 <= pix.0 {
            lemma_slab_empty(inner.min.y as int, inner.max.y as int, oy, dy, pix.0, pix.1);
            lemma_slab_empty(inner.min.z as int, inner.max.z as int, oz, dz, piy.0, piy.1);
        }
    }
    assert(piy.0 < piy.1) by {
        if piy.1 <= piy.0 {
            lemma_slab_empty(inner.min.z as int, inner.max.z as int, oz, dz, piy.0, piy.1);
        }
    }
    lemma_slab_mono(inner.min.x as int, inner.max.x as int, outer.min.x as int,
        outer.max.x as int, ox, dx, tmin, tmax, tmin, tmax);
    let poy = slab_spec(outer.min.y as int, outer.max.y as int, oy, dy, pox.0, pox.1);
    lemma_slab_mono(inner.min.y as int, inner.max.y as int, outer.min.y as int,
        outer.max.y as int, oy, dy, pix.0, pix.1, pox.0, pox.1);
    lemma_slab_mono(inner.min.z as int, inner.max.z as int, outer.min.z as int,
        outer.max.z as int, oz, dz, piy.0, piy.1, poy.0, poy.1);
}

/// One slab step of the intersection test, exactly as specified.
fn slab(mn: i64, mx: i64, o: i64, d: i64, tmin: i64, tmax: i64) -> (r: (i64, i64))
    requires
        -BOX_MAX <= mn <= BOX_MAX,
        -BOX_MAX <= mx <= BOX_MAX,
        -ORIGIN_MAX <= o <= ORIGIN_MAX,
        -DIR_MAX <= d <= DIR_MAX,
        -SLAB_T_MAX <= tmin <= SLAB_T_MAX,
        -SLAB_T_MAX <= tmax <= SLAB_T_MAX,
    ensures
        (r.0 as int, r.1 as int) == slab_spec(mn as int, mx as int, o as int, d as int,
            tmin as int, tmax as int),
        -SLAB_T_MAX <= r.0 <= SLAB_T_MAX,
        -SLAB_T_MAX <= r.1 <= SLAB_T_MAX,
{
    if d == 0 {
        if mn < o && o < mx {
            (tmin, tmax)
        } else {
            (tmin, tmin)
        }
    } else {
        let ta = if d > 0 { fx_div(mn - o, d) } else { fx_div(mx - o, d) };
        let tb = if d > 0 { fx_div(mx - o, d) } else { fx_div(mn - o, d) };
        let lo = if ta > tmin { ta } else { tmin };
        let hi = if tb < tmax { tb } else { tmax };
        (lo, hi)
    }
}

impl Aabb {
    /// Does the ray meet this box anywhere strictly inside `(t_min, t_max)`?
    pub fn hit(&self, r: &Ray, t_min: i64, t_max: i64) -> (res: bool)
        requires
            self.wf(),
            r.wf(),
            -SLAB_T_MAX <= t_min <= SLAB_T_MAX,
            -SLAB_T_MAX <= t_max <= SLAB_T_MAX,
        ensures
            res == aabb_hit_spec(*self, *r, t_min as int, t_max as int),
    {
        let (ax, bx) = slab(self.min.x, self.max.x, r.origin.x, r.direction.x, t_min, t_max);
        if bx <= ax {
            proof {
                lemma_slab_empty(self.min.y as int, self.max.y as int, r.origin.y as int,
                    r.direction.y as int, ax as int, bx as int);
                let py = slab_spec(self.min.y as int, self.max.y as int, r.origin.y as int,
                    r.direction.y as int, ax as int, bx as int);
                lemma_slab_empty(self.min.z as int, self.max.z as int, r.origin.z as int,
                    r.direction.z as int, py.0, py.1);
            }
            return false;
        }
        let (ay, by) = slab(self.min.y, self.max.y, r.origin.y, r.direction.y, ax, bx);
        if by <= ay {
            proof {
                lemma_slab_empty(self.min.z as int, self.max.z as int, r.origin.z as int,
                    r.direction.z as int, ay as int, by as int);
            }
            return false;
        }
        let (az, bz) = slab(self.min.z, self.max.z, r.origin.z, r.direction.z, ay, by);
        az < bz
    }
}

} // verus!
