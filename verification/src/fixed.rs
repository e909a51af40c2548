use vstd::prelude::*;
use vstd::arithmetic::div_mod::lemma_div_is_ordered;

verus! {

/// The scale of the fixed-point representation: every scalar carries 16
/// fractional bits, so the raw value `65536` stands for one world unit.
pub const FX_ONE: i64 = 65536;

/// Division rounded toward zero, for a positive divisor.
pub open spec fn tdiv(a: int, b: int) -> int {
    if a >= 0 {
        a / b
    } else {
        -((-a) / b)
    }
}

/// Product of two fixed-point scalars: rescale the double-width product,
/// rounding toward zero.
pub open spec fn fmul(a: int, b: int) -> int {
    tdiv(a * b, 65536)
}

/// Quotient of two fixed-point scalars: scale the dividend up, divide,
/// rounding toward zero.
pub open spec fn fdiv(a: int, b: int) -> int {
    if b == 0 {
        0
    } else if b > 0 {
        tdiv(a * 65536, b)
    } else {
        -tdiv(a * 65536, -b)
    }
}

/// The integer square root: the largest `r` with `r * r <= x` (and `0` for
/// negative arguments).
pub open spec fn sqrt_floor(x: int) -> int
    decreases x,
{
    if x <= 0 {
        0
    } else if (sqrt_floor(x - 1) + 1) * (sqrt_floor(x - 1) + 1) <= x {
        sqrt_floor(x - 1) + 1
    } else {
        sqrt_floor(x - 1)
    }
}

/// Square root of a fixed-point scalar: the raw result is the floor of
/// `sqrt(x * 65536)`, so that `fsqrt` of one is one.
pub open spec fn fsqrt(x: int) -> int {
    sqrt_floor(x * 65536)
}

pub proof fn lemma_sqrt_floor(x: int)
    requires
        x >= 0,
    ensures
        0 <= sqrt_floor(x),
        sqrt_floor(x) * sqrt_floor(x) <= x,
        x < (sqrt_floor(x) + 1) * (sqrt_floor(x) + 1),
    decreases x,
{
    if x == 0 {
    } else {
        lemma_sqrt_floor(x - 1);
        let p = sqrt_floor(x - 1);
        if (p + 1) * (p + 1) <= x {
            assert(x == (p + 1) * (p + 1));
            assert((p + 1) * (p + 1) < (p + 2) * (p + 2)) by (nonlinear_arith)
                requires
                    p >= 0,
            ;
        }
    }
}

pub proof fn lemma_sqrt_floor_unique(x: int, r: int)
    requires
        x >= 0,
        r >= 0,
        r * r <= x,
        x < (r + 1) * (r + 1),
    ensures
        r == sqrt_floor(x),
{
    lemma_sqrt_floor(x);
    let s = sqrt_floor(x);
    if r < s {
        assert((r + 1) * (r + 1) <= s * s) by (nonlinear_arith)
            requires
                0 <= r,
                r + 1 <= s,
        ;
    }
    if s < r {
        assert((s + 1) * (s + 1) <= r * r) by (nonlinear_arith)
            requires
                0 <= s,
                s + 1 <= r,
        ;
    }
}

/// Rounding toward zero is monotone in the dividend.
pub proof fn lemma_tdiv_mono(a: int, b: int, d: int)
    requires
        a <= b,
        d > 0,
    ensures
        tdiv(a, d) <= tdiv(b, d),
{
    if a >= 0 {
        lemma_div_is_ordered(a, b, d);
    } else if b < 0 {
        lemma_div_is_ordered(-b, -a, d);
    } else {
        assert((-a) / d >= 0) by {
            vstd::arithmetic::div_mod::lemma_div_pos_is_pos(-a, d);
        }
        assert(b / d >= 0) by {
            vstd::arithmetic::div_mod::lemma_div_pos_is_pos(b, d);
        }
    }
}

/// A bound on the operands of `fmul` bounds the result.
pub proof fn lemma_fmul_bound(a: int, b: int, ma: int, mb: int)
    requires
        -ma <= a <= ma,
        -mb <= b <= mb,
        0 <= ma,
        0 <= mb,
    ensures
        -((ma * mb) / 65536) <= fmul(a, b) <= (ma * mb) / 65536,
{
    assert(-(ma * mb) <= a * b <= ma * mb) by (nonlinear_arith)
        requires
            -ma <= a <= ma,
            -mb <= b <= mb,
            0 <= ma,
            0 <= mb,
    ;
    lemma_tdiv_mono(a * b, ma * mb, 65536);
    lemma_tdiv_mono(-(ma * mb), a * b, 65536);
    assert(tdiv(ma * mb, 65536) == (ma * mb) / 65536);
    assert(tdiv(-(ma * mb), 65536) == -((ma * mb) / 65536));
}

/// The product of two scalars in the unit interval stays in the unit
/// interval, below either factor.
pub proof fn lemma_fmul_unit(a: int, b: int)
    requires
        0 <= a <= 65536,
        0 <= b <= 65536,
    ensures
        0 <= fmul(a, b) <= 65536,
        fmul(a, b) <= a,
        fmul(a, b) <= b,
{
    assert(0 <= a * b <= a * 65536 && a * b <= 65536 * b) by (nonlinear_arith)
        requires
            0 <= a <= 65536,
            0 <= b <= 65536,
    ;
    lemma_tdiv_mono(0, a * b, 65536);
    lemma_tdiv_mono(a * b, a * 65536, 65536);
    lemma_tdiv_mono(a * b, 65536 * b, 65536);
    assert((a * 65536) / 65536 == a) by {
        vstd::arithmetic::div_mod::lemma_div_multiples_vanish(a, 65536);
    }
    assert((65536 * b) / 65536 == b) by {
        vstd::arithmetic::div_mod::lemma_div_multiples_vanish(b, 65536);
    }
}

/// The product of non-negative scalars is non-negative.
pub proof fn lemma_fmul_nonneg(a: int, b: int)
    requires
        0 <= a,
        0 <= b,
    ensures
        0 <= fmul(a, b),
{
    assert(0 <= a * b) by (nonlinear_arith)
        requires
            0 <= a,
            0 <= b,
    ;
    lemma_tdiv_mono(0, a * b, 65536);
}

/// A quotient whose dividend does not exceed the divisor in magnitude stays
/// within the unit.
pub proof fn lemma_fdiv_le_one(a: int, b: int)
    requires
        b > 0,
        -b <= a <= b,
    ensures
        -65536 <= fdiv(a, b) <= 65536,
{
    lemma_tdiv_mono(a * 65536, b * 65536, b);
    lemma_tdiv_mono(-(b * 65536), a * 65536, b);
    assert((b * 65536) / b == 65536) by (nonlinear_arith)
        requires
            b > 0,
    ;
}

/// An upper bound on the argument bounds the integer square root.
pub proof fn lemma_sqrt_floor_bound(x: int, m: int)
    requires
        x < m * m,
        0 < m,
    ensures
        sqrt_floor(x) < m,
{
    if x >= 0 {
        lemma_sqrt_floor(x);
        if sqrt_floor(x) >= m {
            assert(m * m <= sqrt_floor(x) * sqrt_floor(x)) by (nonlinear_arith)
                requires
                    0 <= m <= sqrt_floor(x),
            ;
        }
    }
}

/// A bound on two integers bounds their product.
pub proof fn lemma_mul_bound(a: int, b: int, ma: int, mb: int)
    requires
        -ma <= a <= ma,
        -mb <= b <= mb,
        0 <= ma,
        0 <= mb,
    ensures
        -(ma * mb) <= a * b <= ma * mb,
{
    assert(-(ma * mb) <= a * b <= ma * mb) by (nonlinear_arith)
        requires
            -ma <= a <= ma,
            -mb <= b <= mb,
            0 <= ma,
            0 <= mb,
    ;
}

/// Exact fixed-point multiplication, computed over magnitudes so that the
/// rounding direction (toward zero) is explicit.
pub fn fx_mul(a: i64, b: i64) -> (r: i64)
    requires
        -0x8000000000 <= a <= 0x8000000000,
        -0x8000000000 <= b <= 0x8000000000,
    ensures
        r == fmul(a as int, b as int),
{
    let aa: u64 = if a < 0 {
        (-a) as u64
    } else {
        a as u64
    };
    let bb: u64 = if b < 0 {
        (-b) as u64
    } else {
        b as u64
    };
    proof {
        assert(aa as int * bb as int <= 0x8000000000 * 0x8000000000) by (nonlinear_arith)
            requires
                0 <= aa <= 0x8000000000,
                0 <= bb <= 0x8000000000,
        ;
    }
    let q: u128 = (aa as u128) * (bb as u128) / 65536;
    proof {
        assert(q <= 0x8000000000int * 0x8000000000 / 65536) by {
            lemma_div_is_ordered(aa as int * bb as int, 0x8000000000int * 0x8000000000, 65536);
        }
        if (a < 0) != (b < 0) {
            assert(a as int * b as int == -(aa as int * bb as int)) by (nonlinear_arith)
                requires
                    aa == if a < 0 { -(a as int) } else { a as int },
                    bb == if b < 0 { -(b as int) } else { b as int },
                    (a < 0) != (b < 0),
            ;
        } else {
            assert(a as int * b as int == aa as int * bb as int) by (nonlinear_arith)
                requires
                    aa == if a < 0 { -(a as int) } else { a as int },
                    bb == if b < 0 { -(b as int) } else { b as int },
                    !((a < 0) != (b < 0)),
            ;
        }
    }
    if (a < 0) != (b < 0) {
        -(q as i64)
    } else {
        q as i64
    }
}

/// Exact fixed-point division, rounded toward zero.
pub fn fx_div(a: i64, b: i64) -> (r: i64)
    requires
        b != 0,
        -0x400000000000 <= a <= 0x400000000000,
        -0x4000000000000000 <= b <= 0x4000000000000000,
    ensures
        r == fdiv(a as int, b as int),
        -(if a >= 0 { a as int } else { -(a as int) }) * 65536 <= r <= (if a >= 0 {
            a as int
        } else {
            -(a as int)
        }) * 65536,
{
    let aa: u64 = if a < 0 {
        (-a) as u64
    } else {
        a as u64
    };
    let bb: u64 = if b < 0 {
        (-b) as u64
    } else {
        b as u64
    };
    let q: u128 = (aa as u128) * 65536 / (bb as u128);
    proof {
        assert(q <= aa as int * 65536) by {
            vstd::arithmetic::div_mod::lemma_div_is_ordered_by_denominator(
                aa as int * 65536,
                1,
                bb as int,
            );
        }
        let m = if a >= 0 { a as int * 65536 } else { -(a as int) * 65536 };
        assert(m == aa as int * 65536);
        if b > 0 {
            if a >= 0 {
                assert(tdiv(a as int * 65536, b as int) == q);
            } else {
                assert(tdiv(a as int * 65536, b as int) == -(q as int));
            }
        } else {
            if a >= 0 {
                assert(-tdiv(a as int * 65536, -(b as int)) == -(q as int));
            } else {
                assert(-tdiv(a as int * 65536, -(b as int)) == q);
            }
        }
    }
    if (a < 0) != (b < 0) {
        -(q as i64)
    } else {
        q as i64
    }
}

pub(crate) fn isqrt_u128(x: u128) -> (r: u64)
    requires
        x < 0x4000000000000000000000000000000,
    ensures
        r == sqrt_floor(x as int),
        r < 0x2000000000000000,
{
    let mut lo: u128 = 0;
    let mut hi: u128 = 0x2000000000000000;
    proof {
        assert((0x2000000000000000 as int) * (0x2000000000000000 as int)
            == 0x4000000000000000000000000000000);
    }
    while lo + 1 < hi
        invariant
            lo < hi <= 0x2000000000000000,
            lo * lo <= x,
            x < hi * hi,
        decreases hi - lo,
    {
        let mid = lo + (hi - lo) / 2;
        proof {
            assert(lo < mid < hi);
            assert(mid * mid < 0x4000000000000000000000000000000) by (nonlinear_arith)
                requires
                    mid < 0x2000000000000000,
            ;
        }
        if mid * mid <= x {
            lo = mid;
        } else {
            hi = mid;
        }
    }
    proof {
        lemma_sqrt_floor_unique(x as int, lo as int);
    }
    lo as u64
}

/// Exact fixed-point square root of a non-negative scalar.
pub fn fx_sqrt(x: i64) -> (r: i64)
    requires
        0 <= x,
    ensures
        r == fsqrt(x as int),
        0 <= r,
{
    let xs: u128 = (x as u128) * 65536;
    proof {
        assert(xs < 0x4000000000000000000000000000000);
    }
    let r = isqrt_u128(xs);
    proof {
        lemma_sqrt_floor(xs as int);
        assert(sqrt_floor(xs as int) < 0x10000000000) by {
            if sqrt_floor(xs as int) >= 0x10000000000 {
                assert(sqrt_floor(xs as int) * sqrt_floor(xs as int) >= 0x10000000000
                    * 0x10000000000) by (nonlinear_arith)
                    requires
                        sqrt_floor(xs as int) >= 0x10000000000,
                ;
            }
        }
    }
    r as i64
}

} // verus!
