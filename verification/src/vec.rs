use vstd::prelude::*;
use crate::fixed::{fmul, fdiv, fsqrt, tdiv, fx_mul, fx_div, fx_sqrt, lemma_fmul_bound,
    lemma_sqrt_floor, lemma_tdiv_mono, sqrt_floor};
use crate::rng::rng_next_u64;

verus! {

/// A three-component vector of fixed-point scalars, used for points,
/// directions and colors alike.
#[derive(Clone, Copy, Debug, PartialEq, Eq, Structural)]
pub struct Vec3 {
    pub x: i64,
    pub y: i64,
    pub z: i64,
}

/// Colors are vectors whose components are the three channels.
pub type Color = Vec3;

pub open spec fn add_spec(a: Vec3, b: Vec3) -> Vec3 {
    Vec3 { x: (a.x + b.x) as i64, y: (a.y + b.y) as i64, z: (a.z + b.z) as i64 }
}

pub open spec fn sub_spec(a: Vec3, b: Vec3) -> Vec3 {
    Vec3 { x: (a.x - b.x) as i64, y: (a.y - b.y) as i64, z: (a.z - b.z) as i64 }
}

pub open spec fn neg_spec(a: Vec3) -> Vec3 {
    Vec3 { x: (-(a.x as int)) as i64, y: (-(a.y as int)) as i64, z: (-(a.z as int)) as i64 }
}

pub open spec fn scale_spec(a: Vec3, k: int) -> Vec3 {
    Vec3 { x: fmul(a.x as int, k) as i64, y: fmul(a.y as int, k) as i64, z: fmul(
        a.z as int,
        k,
    ) as i64 }
}

/// The component-wise product, as colors are multiplied.
pub open spec fn mul_spec(a: Vec3, b: Vec3) -> Vec3 {
    Vec3 { x: fmul(a.x as int, b.x as int) as i64, y: fmul(a.y as int, b.y as int) as i64, z: fmul(
        a.z as int,
        b.z as int,
    ) as i64 }
}

pub open spec fn dot_spec(a: Vec3, b: Vec3) -> int {
    fmul(a.x as int, b.x as int) + fmul(a.y as int, b.y as int) + fmul(a.z as int, b.z as int)
}

pub open spec fn cross_spec(a: Vec3, b: Vec3) -> Vec3 {
    Vec3 {
        x: (fmul(a.y as int, b.z as int) - fmul(a.z as int, b.y as int)) as i64,
        y: (fmul(a.z as int, b.x as int) - fmul(a.x as int, b.z as int)) as i64,
        z: (fmul(a.x as int, b.y as int) - fmul(a.y as int, b.x as int)) as i64,
    }
}

pub open spec fn norm2_spec(a: Vec3) -> int {
    dot_spec(a, a)
}

pub open spec fn length_spec(a: Vec3) -> int {
    fsqrt(norm2_spec(a))
}

/// The normalized vector: each component divided by the length.
pub open spec fn unit_spec(a: Vec3) -> Vec3 {
    Vec3 {
        x: fdiv(a.x as int, length_spec(a)) as i64,
        y: fdiv(a.y as int, length_spec(a)) as i64,
        z: fdiv(a.z as int, length_spec(a)) as i64,
    }
}

impl Vec3 {
    /// Every component within `[-m, m]`.
    pub open spec fn bounded(self, m: int) -> bool {
        &&& -m <= self.x <= m
        &&& -m <= self.y <= m
        &&& -m <= self.z <= m
    }

    pub fn new(x: i64, y: i64, z: i64) -> (r: Vec3)
        ensures
            r == (Vec3 { x, y, z }),
    {
        Vec3 { x, y, z }
    }

    pub fn zeros() -> (r: Vec3)
        ensures
            r == (Vec3 { x: 0i64, y: 0i64, z: 0i64 }),
    {
        Vec3 { x: 0, y: 0, z: 0 }
    }

    pub fn add(self, o: Vec3) -> (r: Vec3)
        requires
            self.bounded(0x2000000000000000),
            o.bounded(0x2000000000000000),
        ensures
            r == add_spec(self, o),
    {
        Vec3 { x: self.x + o.x, y: self.y + o.y, z: self.z + o.z }
    }

    pub fn sub(self, o: Vec3) -> (r: Vec3)
        requires
            self.bounded(0x2000000000000000),
            o.bounded(0x2000000000000000),
        ensures
            r == sub_spec(self, o),
    {
        Vec3 { x: self.x - o.x, y: self.y - o.y, z: self.z - o.z }
    }

    pub fn neg(self) -> (r: Vec3)
        requires
            self.bounded(0x2000000000000000),
        ensures
            r == neg_spec(self),
    {
        Vec3 { x: -self.x, y: -self.y, z: -self.z }
    }

    pub fn scale(self, k: i64) -> (r: Vec3)
        requires
            self.bounded(0x8000000000),
            -0x8000000000 <= k <= 0x8000000000,
        ensures
            r == scale_spec(self, k as int),
    {
        Vec3 { x: fx_mul(self.x, k), y: fx_mul(self.y, k), z: fx_mul(self.z, k) }
    }

    /// The component-wise product (colors attenuating colors).
    pub fn mul(self, o: Vec3) -> (r: Vec3)
        requires
            self.bounded(0x8000000000),
            o.bounded(0x8000000000),
        ensures
            r == mul_spec(self, o),
    {
        Vec3 { x: fx_mul(self.x, o.x), y: fx_mul(self.y, o.y), z: fx_mul(self.z, o.z) }
    }

    pub fn dot(self, o: Vec3) -> (r: i64)
        requires
            self.bounded(0x40000000),
            o.bounded(0x40000000),
        ensures
            r == dot_spec(self, o),
    {
        proof {
            lemma_fmul_bound(self.x as int, o.x as int, 0x40000000, 0x40000000);
            lemma_fmul_bound(self.y as int, o.y as int, 0x40000000, 0x40000000);
            lemma_fmul_bound(self.z as int, o.z as int, 0x40000000, 0x40000000);
        }
        fx_mul(self.x, o.x) + fx_mul(self.y, o.y) + fx_mul(self.z, o.z)
    }

    pub fn cross(self, o: Vec3) -> (r: Vec3)
        requires
            self.bounded(0x40000000),
            o.bounded(0x40000000),
        ensures
            r == cross_spec(self, o),
    {
        proof {
            lemma_fmul_bound(self.y as int, o.z as int, 0x40000000, 0x40000000);
            lemma_fmul_bound(self.z as int, o.y as int, 0x40000000, 0x40000000);
            lemma_fmul_bound(self.z as int, o.x as int, 0x40000000, 0x40000000);
            lemma_fmul_bound(self.x as int, o.z as int, 0x40000000, 0x40000000);
            lemma_fmul_bound(self.x as int, o.y as int, 0x40000000, 0x40000000);
            lemma_fmul_bound(self.y as int, o.x as int, 0x40000000, 0x40000000);
        }
        Vec3 {
            x: fx_mul(self.y, o.z) - fx_mul(self.z, o.y),
            y: fx_mul(self.z, o.x) - fx_mul(self.x, o.z),
            z: fx_mul(self.x, o.y) - fx_mul(self.y, o.x),
        }
    }

    pub fn norm2(self) -> (r: i64)
        requires
            self.bounded(0x40000000),
        ensures
            r == norm2_spec(self),
            r >= 0,
    {
        proof {
            lemma_norm2_nonneg(self);
        }
        self.dot(self)
    }

    pub fn length(self) -> (r: i64)
        requires
            self.bounded(0x40000000),
        ensures
            r == length_spec(self),
            r >= 0,
    {
        proof {
            lemma_norm2_nonneg(self);
        }
        let n2 = self.norm2();
        fx_sqrt(n2)
    }

    /// Normalize. The result's components are exact quotients by the floor
    /// square root of the squared length, and stay within twice the unit.
    pub fn unit(self) -> (r: Vec3)
        requires
            self.bounded(0x40000000),
            norm2_spec(self) >= 1,
        ensures
            r == unit_spec(self),
            r.bounded(131072int),
    {
        proof {
            lemma_unit_bounded(self);
        }
        let len = self.length();
        Vec3 { x: fx_div(self.x, len), y: fx_div(self.y, len), z: fx_div(self.z, len) }
    }
}

pub proof fn lemma_fmul_self_nonneg(a: int)
    ensures
        fmul(a, a) >= 0,
        65536 * fmul(a, a) <= a * a < 65536 * fmul(a, a) + 65536,
{
    assert(a * a >= 0) by (nonlinear_arith);
    assert(fmul(a, a) == (a * a) / 65536);
    vstd::arithmetic::div_mod::lemma_div_pos_is_pos(a * a, 65536);
    vstd::arithmetic::div_mod::lemma_fundamental_div_mod(a * a, 65536);
    vstd::arithmetic::div_mod::lemma_mod_bound(a * a, 65536);
}

pub proof fn lemma_norm2_nonneg(a: Vec3)
    ensures
        norm2_spec(a) >= 0,
        fmul(a.x as int, a.x as int) <= norm2_spec(a),
        fmul(a.y as int, a.y as int) <= norm2_spec(a),
        fmul(a.z as int, a.z as int) <= norm2_spec(a),
{
    lemma_fmul_self_nonneg(a.x as int);
    lemma_fmul_self_nonneg(a.y as int);
    lemma_fmul_self_nonneg(a.z as int);
}

/// Each component of a normalized vector stays within twice the unit: the
/// floor square root of the squared length cannot undershoot a component by
/// more than that factor.
proof fn lemma_unit_component(v: int, n2: int, len: int)
    requires
        v * v < 65536 * n2 + 65536,
        n2 >= 1,
        len >= 256,
        len * len <= n2 * 65536,
        n2 * 65536 < (len + 1) * (len + 1),
    ensures
        -131072int <= fdiv(v, len) <= 131072int,
{
    assert(v * v < (len + 1) * (len + 1) + 65536);
    assert(v * v <= 4 * (len * len)) by (nonlinear_arith)
        requires
            v * v < (len + 1) * (len + 1) + 65536,
            len >= 256,
    ;
    assert(-(2 * len) <= v <= 2 * len) by (nonlinear_arith)
        requires
            v * v <= 4 * (len * len),
            len >= 1,
    ;
    assert(fdiv(v, len) == tdiv(v * 65536, len));
    assert(v * 65536 <= (2 * len) * 65536) by (nonlinear_arith)
        requires
            v <= 2 * len,
            len >= 1,
    ;
    assert(-((2 * len) * 65536) <= v * 65536) by (nonlinear_arith)
        requires
            -(2 * len) <= v,
            len >= 1,
    ;
    lemma_tdiv_mono(v * 65536, (2 * len) * 65536, len);
    lemma_tdiv_mono(-((2 * len) * 65536), v * 65536, len);
    assert(((2 * len) * 65536) / len == 131072int) by (nonlinear_arith)
        requires
            len >= 1,
    ;
}

pub proof fn lemma_unit_bounded(a: Vec3)
    requires
        a.bounded(0x40000000),
        norm2_spec(a) >= 1,
    ensures
        256 <= length_spec(a) < 0x80000000,
        unit_spec(a).bounded(131072int),
{
    let n2 = norm2_spec(a);
    let len = length_spec(a);
    lemma_norm2_nonneg(a);
    lemma_fmul_bound(a.x as int, a.x as int, 0x40000000, 0x40000000);
    lemma_fmul_bound(a.y as int, a.y as int, 0x40000000, 0x40000000);
    lemma_fmul_bound(a.z as int, a.z as int, 0x40000000, 0x40000000);
    lemma_sqrt_floor(n2 * 65536);
    assert(n2 * 65536 < 0x80000000 * 0x80000000) by (nonlinear_arith)
        requires
            0 <= n2 <= 0x300000000000,
    ;
    assert(len < 0x80000000) by {
        if len >= 0x80000000 {
            assert(len * len >= 0x80000000 * 0x80000000) by (nonlinear_arith)
                requires
                    len >= 0x80000000,
            ;
        }
    }
    assert(len == sqrt_floor(n2 * 65536));
    assert(n2 * 65536 >= 65536) by (nonlinear_arith)
        requires
            n2 >= 1,
    ;
    assert(len >= 256) by {
        if len < 256 {
            assert((len + 1) * (len + 1) <= 256 * 256) by (nonlinear_arith)
                requires
                    0 <= len + 1 <= 256,
            ;
        }
    }
    lemma_fmul_self_nonneg(a.x as int);
    lemma_fmul_self_nonneg(a.y as int);
    lemma_fmul_self_nonneg(a.z as int);
    assert(a.x * a.x < 65536 * n2 + 65536);
    assert(a.y * a.y < 65536 * n2 + 65536);
    assert(a.z * a.z < 65536 * n2 + 65536);
    lemma_unit_component(a.x as int, n2, len);
    lemma_unit_component(a.y as int, n2, len);
    lemma_unit_component(a.z as int, n2, len);
}

/// A vector with each component drawn uniformly from `[lo, hi]`.
pub fn random_vec(rng: &mut rand::rngs::SmallRng, lo: i64, hi: i64) -> (r: Vec3)
    requires
        -0x2000000000000000 <= lo <= hi <= 0x2000000000000000,
    ensures
        lo <= r.x <= hi,
        lo <= r.y <= hi,
        lo <= r.z <= hi,
{
    let x = rand_range(rng, lo, hi);
    let y = rand_range(rng, lo, hi);
    let z = rand_range(rng, lo, hi);
    Vec3 { x, y, z }
}

fn rand_range(rng: &mut rand::rngs::SmallRng, lo: i64, hi: i64) -> (r: i64)
    requires
        -0x2000000000000000 <= lo <= hi <= 0x2000000000000000,
    ensures
        lo <= r <= hi,
{
    let width = (hi - lo) as u64 + 1;
    let off = rng_next_u64(rng) % width;
    lo + off as i64
}

/// Bounds on a vector and a scalar bound their scaled product.
pub proof fn lemma_scale_bound(a: Vec3, k: int, ma: int, mk: int)
    requires
        a.bounded(ma),
        -mk <= k <= mk,
        0 <= ma,
        0 <= mk,
    ensures
        scale_spec(a, k).bounded((ma * mk) / 65536),
{
    lemma_fmul_bound(a.x as int, k, ma, mk);
    lemma_fmul_bound(a.y as int, k, ma, mk);
    lemma_fmul_bound(a.z as int, k, ma, mk);
}

/// A bound on both operands bounds their dot product.
pub proof fn lemma_dot_bound(a: Vec3, b: Vec3, m: int)
    requires
        a.bounded(m),
        b.bounded(m),
        0 <= m,
    ensures
        -3 * ((m * m) / 65536) <= dot_spec(a, b) <= 3 * ((m * m) / 65536),
{
    lemma_fmul_bound(a.x as int, b.x as int, m, m);
    lemma_fmul_bound(a.y as int, b.y as int, m, m);
    lemma_fmul_bound(a.z as int, b.z as int, m, m);
}

} // verus!
