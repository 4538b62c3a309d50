//! Signed fixed-point scalars.
//!
//! Every scalar in this crate is an `i64` counted in 1/`SCALE` units, so the
//! real number x is stored as the integer closest to x * SCALE.  The
//! executable operations round toward zero; their specifications below state
//! the exact integer result.

use vstd::prelude::*;

verus! {

/// Number of fixed-point steps in one unit; the representation of 1.0.
pub const SCALE: i64 = 65536;

/// The representation of 0.5, the self-intersection guard used by the
/// sphere intersection test.
pub const HALF: i64 = 32768;

/// Magnitude of an integer.
pub open spec fn iabs(a: int) -> int {
    if a >= 0 {
        a
    } else {
        -a
    }
}

/// Division rounding toward zero, the behaviour of the executable
/// operations below (spec `/` alone rounds toward minus infinity
/// on negative numerators).
pub open spec fn tdiv(a: int, b: int) -> int {
    if (a >= 0) == (b >= 0) {
        iabs(a) / iabs(b)
    } else {
        -(iabs(a) / iabs(b))
    }
}

/// Product of two fixed-point scalars, itself at fixed-point scale.
pub open spec fn fmul(a: int, b: int) -> int {
    tdiv(a * b, SCALE as int)
}

/// Quotient of two fixed-point scalars, itself at fixed-point scale.
pub open spec fn fdiv(a: int, b: int) -> int {
    tdiv(a * (SCALE as int), b)
}

/// r is the integer square root of x: the largest integer whose square
/// does not exceed x.
pub open spec fn is_sqrt(x: int, r: int) -> bool {
    &&& 0 <= r
    &&& r * r <= x
    &&& x < (r + 1) * (r + 1)
}

/// The integer square root, for nonnegative arguments
/// (see `lemma_sqrt_floor`).
pub closed spec fn sqrt_floor(x: int) -> int {
    choose|r: int| is_sqrt(x, r)
}

proof fn lemma_sqrt_exists(x: int) -> (r: int)
    requires
        x >= 0,
    ensures
        is_sqrt(x, r),
    decreases x,
{
    if x == 0 {
        assert(is_sqrt(0, 0)) by (nonlinear_arith);
        0
    } else {
        let s = lemma_sqrt_exists(x - 1);
        if (s + 1) * (s + 1) <= x {
            assert(x < (s + 2) * (s + 2)) by (nonlinear_arith)
                requires
                    x - 1 < (s + 1) * (s + 1),
                    (s + 1) * (s + 1) <= x,
                    s >= 0,
            ;
            assert(is_sqrt(x, s + 1));
            s + 1
        } else {
            assert(is_sqrt(x, s));
            s
        }
    }
}

/// For every nonnegative x, `sqrt_floor(x)` really is the integer square
/// root of x.
pub proof fn lemma_sqrt_floor(x: int)
    requires
        x >= 0,
    ensures
        is_sqrt(x, sqrt_floor(x)),
{
    let w = lemma_sqrt_exists(x);
    assert(is_sqrt(x, w));
}

/// Two integer square roots of the same number are equal.
pub proof fn lemma_sqrt_unique(x: int, r1: int, r2: int) by (nonlinear_arith)
    requires
        is_sqrt(x, r1),
        is_sqrt(x, r2),
    ensures
        r1 == r2,
{
}

/// A product of magnitudes is the magnitude of the product.
pub proof fn lemma_abs_mul(a: int, b: int) by (nonlinear_arith)
    ensures
        iabs(a * b) == iabs(a) * iabs(b),
{
}

/// Truncating division shrinks the magnitude: |a / b| <= |a| when the
/// numerator's magnitude is at most m, the quotient's is at most m / b.
pub proof fn lemma_tdiv_bound(a: int, b: int, m: int)
    requires
        b > 0,
        iabs(a) <= m,
    ensures
        iabs(tdiv(a, b)) == iabs(a) / b,
        iabs(tdiv(a, b)) <= m / b,
        iabs(tdiv(a, b)) <= m,
{
    vstd::arithmetic::div_mod::lemma_div_pos_is_pos(iabs(a), b);
    vstd::arithmetic::div_mod::lemma_div_is_ordered(iabs(a), m, b);
    vstd::arithmetic::div_mod::lemma_div_nonincreasing(m, b);
}

/// Bound on a fixed-point product from bounds on its factors.
pub proof fn lemma_fmul_bound(a: int, b: int, ma: int, mb: int)
    requires
        iabs(a) <= ma,
        iabs(b) <= mb,
    ensures
        iabs(fmul(a, b)) <= (ma * mb) / (SCALE as int),
        iabs(fmul(a, b)) <= ma * mb,
{
    lemma_abs_mul(a, b);
    vstd::arithmetic::mul::lemma_mul_upper_bound(iabs(a), ma, iabs(b), mb);
    vstd::arithmetic::mul::lemma_mul_nonnegative(ma, mb);
    lemma_tdiv_bound(a * b, SCALE as int, ma * mb);
    vstd::arithmetic::div_mod::lemma_div_nonincreasing(ma * mb, SCALE as int);
}

/// Bound on a fixed-point quotient from a bound on the numerator's
/// magnitude and a floor on the denominator.
pub proof fn lemma_fdiv_bound(a: int, b: int, m: int, den: int)
    requires
        1 <= den <= b,
        iabs(a) <= m,
    ensures
        iabs(fdiv(a, b)) <= (m * (SCALE as int)) / den,
{
    lemma_abs_mul(a, SCALE as int);
    vstd::arithmetic::mul::lemma_mul_inequality(iabs(a), m, SCALE as int);
    lemma_tdiv_bound(a * (SCALE as int), b, m * (SCALE as int));
    vstd::arithmetic::mul::lemma_mul_nonnegative(m, SCALE as int);
    vstd::arithmetic::div_mod::lemma_div_is_ordered_by_denominator(
        m * (SCALE as int),
        den,
        b,
    );
}

/// An integer square root of a number below m * m is below m.
pub proof fn lemma_sqrt_le(x: int, r: int, m: int) by (nonlinear_arith)
    requires
        0 <= r,
        r * r <= x,
        0 <= m,
        x <= m * m,
    ensures
        r <= m,
{
}

/// One is the unit of fixed-point multiplication, exactly.
pub proof fn lemma_fmul_one(x: int)
    ensures
        fmul(SCALE as int, x) == x,
        fmul(x, SCALE as int) == x,
{
    lemma_abs_mul(SCALE as int, x);
    lemma_abs_mul(x, SCALE as int);
    vstd::arithmetic::mul::lemma_mul_is_commutative(iabs(x), SCALE as int);
    vstd::arithmetic::div_mod::lemma_div_multiples_vanish(iabs(x), SCALE as int);
}

/// A fixed-point product of nonnegative scalars is nonnegative.
pub proof fn lemma_fmul_nonneg(a: int, b: int)
    requires
        0 <= a,
        0 <= b,
    ensures
        0 <= fmul(a, b),
{
    vstd::arithmetic::mul::lemma_mul_nonnegative(a, b);
    vstd::arithmetic::div_mod::lemma_div_pos_is_pos(a * b, SCALE as int);
}

/// A fixed-point product of two scalars in [0, 1] stays in [0, 1] and
/// below either factor.
pub proof fn lemma_fmul_unit(a: int, b: int)
    requires
        0 <= a <= SCALE as int,
        0 <= b <= SCALE as int,
    ensures
        0 <= fmul(a, b),
        fmul(a, b) <= a,
        fmul(a, b) <= b,
{
    vstd::arithmetic::mul::lemma_mul_nonnegative(a, b);
    vstd::arithmetic::div_mod::lemma_div_pos_is_pos(a * b, SCALE as int);
    assert(a * b <= SCALE as int * a && a * b <= SCALE as int * b) by (nonlinear_arith)
        requires
            0 <= a <= SCALE as int,
            0 <= b <= SCALE as int,
    ;
    vstd::arithmetic::div_mod::lemma_div_is_ordered(a * b, SCALE as int * a, SCALE as int);
    vstd::arithmetic::div_mod::lemma_div_is_ordered(a * b, SCALE as int * b, SCALE as int);
    vstd::arithmetic::div_mod::lemma_div_multiples_vanish(a, SCALE as int);
    vstd::arithmetic::div_mod::lemma_div_multiples_vanish(b, SCALE as int);
}

/// Fixed-point multiplication, rounding toward zero.
pub fn fx_mul(a: i64, b: i64) -> (r: i64)
    requires
        -0x7fff_ffff_ffff_ffff <= fmul(a as int, b as int) <= 0x7fff_ffff_ffff_ffff,
    ensures
        r as int == fmul(a as int, b as int),
{
    proof {
        lemma_abs_mul(a as int, b as int);
        vstd::arithmetic::mul::lemma_mul_upper_bound(
            iabs(a as int),
            0x8000_0000_0000_0000,
            iabs(b as int),
            0x8000_0000_0000_0000,
        );
    }
    let p: i128 = (a as i128) * (b as i128);
    let neg: bool = p < 0;
    let mag: u128 = if p < 0 {
        (-p) as u128
    } else {
        p as u128
    };
    let q: u128 = mag / 65536u128;
    proof {
        assert(mag as int == iabs(p as int));
        lemma_tdiv_bound(p as int, SCALE as int, iabs(p as int));
    }
    if neg {
        (-(q as i128)) as i64
    } else {
        (q as i128) as i64
    }
}

/// Fixed-point division, rounding toward zero.
pub fn fx_div(a: i64, b: i64) -> (r: i64)
    requires
        b != 0,
        -0x7fff_ffff_ffff_ffff <= fdiv(a as int, b as int) <= 0x7fff_ffff_ffff_ffff,
    ensures
        r as int == fdiv(a as int, b as int),
{
    let neg: bool = (a < 0) != (b < 0);
    let ma: u128 = if a < 0 {
        (-(a as i128)) as u128
    } else {
        a as u128
    };
    let mb: u128 = if b < 0 {
        (-(b as i128)) as u128
    } else {
        b as u128
    };
    let num: u128 = ma * 65536u128;
    let q: u128 = num / mb;
    proof {
        assert(ma as int * 65536 == iabs(a as int * SCALE as int)) by (nonlinear_arith)
            requires
                ma as int == iabs(a as int),
        ;
        lemma_tdiv_bound(a as int * SCALE as int, iabs(b as int), iabs(a as int * SCALE as int));
        assert(iabs(fdiv(a as int, b as int)) == iabs(a as int * SCALE as int) / iabs(b as int));
    }
    if neg {
        (-(q as i128)) as i64
    } else {
        (q as i128) as i64
    }
}

/// Fixed-point exponentiation with a whole-number exponent;
/// `fpow(b, 0)` is one.
pub open spec fn fpow(b: int, n: nat) -> int
    decreases n,
{
    if n == 0 {
        SCALE as int
    } else {
        fmul(fpow(b, (n - 1) as nat), b)
    }
}

/// A fixed-point power of a scalar in [0, 1] stays in [0, 1].
pub proof fn lemma_fpow_unit(b: int, n: nat)
    requires
        0 <= b <= SCALE as int,
    ensures
        0 <= fpow(b, n) <= SCALE as int,
    decreases n,
{
    if n > 0 {
        lemma_fpow_unit(b, (n - 1) as nat);
        lemma_fmul_unit(fpow(b, (n - 1) as nat), b);
    }
}

/// Fixed-point exponentiation of a scalar in [0, 1].
pub fn fx_pow(base: i64, n: u32) -> (r: i64)
    requires
        0 <= base <= SCALE,
    ensures
        r as int == fpow(base as int, n as nat),
        0 <= r <= SCALE,
{
    let mut acc: i64 = SCALE;
    let mut i: u32 = 0;
    while i < n
        invariant
            0 <= i <= n,
            0 <= base <= SCALE,
            0 <= acc <= SCALE,
            acc as int == fpow(base as int, i as nat),
        decreases n - i,
    {
        proof {
            lemma_fmul_unit(acc as int, base as int);
        }
        acc = fx_mul(acc, base);
        i = i + 1;
    }
    acc
}

/// Every fixed-point power of one is one.
pub proof fn lemma_fpow_one(n: nat)
    ensures
        fpow(SCALE as int, n) == SCALE as int,
    decreases n,
{
    if n > 0 {
        lemma_fpow_one((n - 1) as nat);
        lemma_fmul_one(SCALE as int);
    }
}

/// A scalar clamped into [0, 1].
pub open spec fn clamp01(x: int) -> int {
    if x < 0 {
        0
    } else if x > SCALE as int {
        SCALE as int
    } else {
        x
    }
}

/// Clamp a scalar into [0, 1].
pub fn fx_clamp01(x: i64) -> (r: i64)
    ensures
        r as int == clamp01(x as int),
{
    if x < 0 {
        0
    } else if x > SCALE {
        SCALE
    } else {
        x
    }
}

/// Integer square root, by binary search on the answer.
pub fn isqrt_u128(x: u128) -> (r: u64)
    ensures
        is_sqrt(x as int, r as int),
        r as int == sqrt_floor(x as int),
{
    let mut lo: u64 = 0;
    let mut hi: u64 = u64::MAX;
    if x < 0x1_0000_0000 {
        // keep the search range tight for small inputs
        hi = 0xffff_ffff;
        assert((hi as int + 1) * (hi as int + 1) > x as int) by (nonlinear_arith)
            requires
                x < 0x1_0000_0000,
                hi == 0xffff_ffffu64,
        ;
    } else {
        assert((hi as int + 1) * (hi as int + 1) > x as int) by (nonlinear_arith)
            requires
                x <= u128::MAX,
                hi == u64::MAX,
        ;
    }
    while lo < hi
        invariant
            (lo as int) * (lo as int) <= x as int,
            (hi as int + 1) * (hi as int + 1) > x as int,
            lo <= hi,
        decreases hi - lo,
    {
        let mid: u64 = ((lo as u128 + hi as u128 + 1) / 2) as u64;
        assert((mid as int) * (mid as int) <= u128::MAX as int) by (nonlinear_arith)
            requires
                mid <= u64::MAX,
        ;
        let sq: u128 = (mid as u128) * (mid as u128);
        if sq <= x {
            lo = mid;
        } else {
            assert(mid >= 1);
            hi = mid - 1;
        }
    }
    proof {
        lemma_sqrt_floor(x as int);
        lemma_sqrt_unique(x as int, lo as int, sqrt_floor(x as int));
    }
    lo
}

} // verus!
