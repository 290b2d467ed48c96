//! Signed fixed-point scalars: an `i64` carrying 24 fractional bits.
//!
//! A scalar `a` stands for the real number `a / FX_ONE`. Products and
//! quotients are computed in 128-bit intermediates and rounded toward zero,
//! exactly as the spec-level `fxm` and `tdiv` functions state.

use vstd::prelude::*;

verus! {

/// The fixed-point unit: 2^24.
pub const FX_ONE: i64 = 16777216;

/// Stands in for an unbounded ray parameter: 2^55, far beyond any scalar the
/// supported coordinate range can produce.
pub const FX_TBIG: i64 = 36028797018963968;

/// Largest magnitude allowed for a scene coordinate: 2^39 (32768 world units).
pub const MAX_COORD: i64 = 549755813888;

/// Absolute value over the mathematical integers.
pub open spec fn sabs(a: int) -> int {
    if a >= 0 {
        a
    } else {
        -a
    }
}

/// Minimum of two mathematical integers.
pub open spec fn imin(a: int, b: int) -> int {
    if a <= b {
        a
    } else {
        b
    }
}

/// Maximum of two mathematical integers.
pub open spec fn imax(a: int, b: int) -> int {
    if a >= b {
        a
    } else {
        b
    }
}

/// `v` clamped into `[lo, hi]`.
pub open spec fn iclamp(v: int, lo: int, hi: int) -> int {
    if v < lo {
        lo
    } else if v > hi {
        hi
    } else {
        v
    }
}

/// Division rounded toward zero, the rounding of Rust's `/` on signed
/// integers. Unspecified when `b == 0`.
pub open spec fn tdiv(a: int, b: int) -> int {
    if (a >= 0) == (b >= 0) {
        sabs(a) / sabs(b)
    } else {
        -(sabs(a) / sabs(b))
    }
}

/// The fixed-point product: `a * b` descaled by one unit, rounded toward zero.
pub open spec fn fxm(a: int, b: int) -> int {
    tdiv(a * b, FX_ONE as int)
}

/// The fixed-point quotient: `a / b` carried to fixed-point scale, rounded
/// toward zero. Unspecified when `b == 0`.
pub open spec fn fxd(a: int, b: int) -> int {
    tdiv(a * FX_ONE, b)
}

/// The product `a * b` stays within the range that descaling by one
/// fixed-point unit brings back into an `i64`.
pub open spec fn fits_fxm(a: int, b: int) -> bool {
    sabs(a * b) < 0x8000_0000_0000_0000_0000_00
}

/// `r` is the integer square root of `n`.
pub open spec fn is_isqrt(r: int, n: int) -> bool {
    &&& 0 <= r
    &&& r * r <= n
    &&& n < (r + 1) * (r + 1)
}

/// The integer square root, as a function. Meaningful for `n >= 0`.
pub open spec fn isqrt_i(n: int) -> int {
    choose|r: int| is_isqrt(r, n)
}

/// The integer square root of a nonnegative number is unique.
pub proof fn lemma_isqrt_unique(r1: int, r2: int, n: int)
    requires
        is_isqrt(r1, n),
        is_isqrt(r2, n),
    ensures
        r1 == r2,
{
    if r1 < r2 {
        assert((r1 + 1) * (r1 + 1) <= r2 * r2) by (nonlinear_arith)
            requires
                0 <= r1,
                r1 + 1 <= r2,
        ;
    }
    if r2 < r1 {
        assert((r2 + 1) * (r2 + 1) <= r1 * r1) by (nonlinear_arith)
            requires
                0 <= r2,
                r2 + 1 <= r1,
        ;
    }
}

/// A bound on the magnitude of a product, from bounds on its factors.
pub proof fn lemma_mul_abs_bound(a: int, b: int, ca: int, cb: int)
    requires
        sabs(a) <= ca,
        sabs(b) <= cb,
    ensures
        sabs(a * b) <= ca * cb,
{
    assert(sabs(a * b) <= ca * cb) by (nonlinear_arith)
        requires
            sabs(a) <= ca,
            sabs(b) <= cb,
        ;
}

/// An integer square root is bounded by any number whose square bounds the
/// radicand.
pub proof fn lemma_isqrt_le(r: int, n: int, b: int)
    requires
        is_isqrt(r, n),
        n <= b * b,
        0 <= b,
    ensures
        r <= b,
{
    if r > b {
        assert((b + 1) * (b + 1) <= r * r) by (nonlinear_arith)
            requires
                0 <= b,
                b + 1 <= r,
        ;
        assert(b * b < (b + 1) * (b + 1)) by (nonlinear_arith)
            requires
                0 <= b,
        ;
    }
}

/// Truncated division by a positive divisor divides a magnitude bound.
pub proof fn lemma_tdiv_bound(a: int, b: int, c: int)
    requires
        b >= 1,
        sabs(a) <= c,
    ensures
        sabs(tdiv(a, b)) <= c / b,
{
    assert(sabs(a) / sabs(b) <= c / b) by (nonlinear_arith)
        requires
            b >= 1,
            0 <= sabs(a) <= c,
    ;
}

/// Integer square root of a 128-bit value, by bisection.
pub fn isqrt128(n: u128) -> (r: u64)
    ensures
        is_isqrt(r as int, n as int),
        r as int == isqrt_i(n as int),
{
    let mut lo: u64 = 0;
    let mut hi: u128 = 0x1_0000_0000_0000_0000;
    proof {
        assert((0x1_0000_0000_0000_0000 as int) * (0x1_0000_0000_0000_0000 as int) > u128::MAX
            as int) by (nonlinear_arith);
    }
    while hi - (lo as u128) > 1
        invariant
            (lo as int) * (lo as int) <= n as int,
            (n as int) < (hi as int) * (hi as int),
            (lo as int) < hi as int,
            hi as int <= 0x1_0000_0000_0000_0000,
        decreases hi as int - lo as int,
    {
        let mid: u128 = (lo as u128 + hi) / 2;
        proof {
            assert((lo as int) < (mid as int) && (mid as int) < (hi as int));
            assert((mid as int) * (mid as int) <= u128::MAX as int) by (nonlinear_arith)
                requires
                    0 <= mid as int,
                    (mid as int) < 0x1_0000_0000_0000_0000,
            ;
        }
        if mid * mid <= n {
            lo = mid as u64;
        } else {
            hi = mid;
        }
    }
    proof {
        assert(is_isqrt(lo as int, n as int));
        lemma_isqrt_unique(lo as int, isqrt_i(n as int), n as int);
    }
    lo
}

/// The fixed-point product `fxm(a, b)`, exact up to the stated rounding.
pub fn fx_mul(a: i64, b: i64) -> (r: i64)
    requires
        fits_fxm(a as int, b as int),
    ensures
        r as int == fxm(a as int, b as int),
{
    let p: i128 = (a as i128) * (b as i128);
    let neg: bool = p < 0;
    let mag: u128 = if neg {
        (-p) as u128
    } else {
        p as u128
    };
    let q: u128 = mag / (FX_ONE as u128);
    proof {
        assert(q as int <= mag as int) by (nonlinear_arith)
            requires
                q as int == mag as int / (FX_ONE as int),
                mag as int >= 0,
                FX_ONE as int >= 1,
        ;
    }
    if neg {
        -((q as i128) as i64)
    } else {
        (q as i128) as i64
    }
}

/// The fixed-point quotient `fxd(a, b)` of a wide numerator, clamped into
/// `[-FX_TBIG, FX_TBIG]`. The clamp stands in for the unbounded quotients a
/// vanishing divisor produces; every scalar the supported coordinate range
/// can produce lies strictly inside the clamp.
pub fn fx_div_clamp128(a: i128, b: i64) -> (r: i64)
    requires
        b != 0,
        sabs(a as int) < 0x1_0000_0000_0000_0000_00,
    ensures
        r as int == iclamp(fxd(a as int, b as int), -FX_TBIG as int, FX_TBIG as int),
{
    let na: u128 = if a < 0 {
        (-a) as u128
    } else {
        a as u128
    };
    let nb: u128 = if b < 0 {
        (-(b as i128)) as u128
    } else {
        b as u128
    };
    let q: u128 = (na * (FX_ONE as u128)) / nb;
    proof {
        assert(na as int * FX_ONE as int == sabs(a as int * FX_ONE as int)) by (nonlinear_arith)
            requires
                na as int == sabs(a as int),
                FX_ONE as int > 0,
        ;
        assert(q as int == sabs(a as int * FX_ONE) / sabs(b as int));
    }
    let neg: bool = (a < 0) != (b < 0);
    if q > FX_TBIG as u128 {
        proof {
            assert(sabs(a as int * FX_ONE) >= 0);
        }
        if neg {
            -FX_TBIG
        } else {
            FX_TBIG
        }
    } else {
        if neg {
            -(q as i64)
        } else {
            q as i64
        }
    }
}

/// The fixed-point quotient `fxd(a, b)`, clamped into `[-FX_TBIG, FX_TBIG]`.
pub fn fx_div_clamp(a: i64, b: i64) -> (r: i64)
    requires
        b != 0,
    ensures
        r as int == iclamp(fxd(a as int, b as int), -FX_TBIG as int, FX_TBIG as int),
{
    fx_div_clamp128(a as i128, b)
}

/// Square root of a nonnegative fixed-point scalar, carried to fixed-point
/// scale: the integer square root of `v * FX_ONE`.
pub fn fx_sqrt(v: i64) -> (r: i64)
    requires
        v >= 0,
    ensures
        r as int == isqrt_i(v as int * FX_ONE),
        is_isqrt(r as int, v as int * FX_ONE),
        r >= 0,
{
    proof {
        assert((v as int) * (FX_ONE as int) < 0x1_0000_0000_0000_0000_0000_0000)
            by (nonlinear_arith)
            requires
                0 <= v as int,
                (v as int) <= 0x7fff_ffff_ffff_ffff,
                FX_ONE as int == 16777216,
        ;
    }
    let n: u128 = (v as u128) * (FX_ONE as u128);
    let r: u64 = isqrt128(n);
    proof {
        assert((r as int) * (r as int) <= n as int);
        assert((r as int) < 0x1_0000_0000_0000) by (nonlinear_arith)
            requires
                (r as int) * (r as int) <= n as int,
                (n as int) < 0x1_0000_0000_0000_0000_0000_0000,
                r as int >= 0,
        ;
    }
    r as i64
}

/// Plain division by a positive divisor, rounded toward zero.
pub fn fx_div_pos(a: i64, b: i64) -> (r: i64)
    requires
        b >= 1,
    ensures
        r as int == tdiv(a as int, b as int),
        sabs(r as int) <= sabs(a as int),
{
    let neg: bool = a < 0;
    let mag: u128 = if neg {
        (-(a as i128)) as u128
    } else {
        a as u128
    };
    let q: u128 = mag / (b as u128);
    proof {
        assert(q as int <= mag as int) by (nonlinear_arith)
            requires
                q as int == mag as int / (b as int),
                mag as int >= 0,
                b as int >= 1,
        ;
    }
    if neg {
        (-(q as i128)) as i64
    } else {
        q as i64
    }
}

/// The smaller of two scalars.
pub fn fx_min(a: i64, b: i64) -> (r: i64)
    ensures
        r as int == imin(a as int, b as int),
{
    if a <= b {
        a
    } else {
        b
    }
}

/// The larger of two scalars.
pub fn fx_max(a: i64, b: i64) -> (r: i64)
    ensures
        r as int == imax(a as int, b as int),
{
    if a >= b {
        a
    } else {
        b
    }
}

/// Magnitude of a scalar.
pub fn fx_abs(a: i64) -> (r: i64)
    requires
        a != i64::MIN,
    ensures
        r as int == sabs(a as int),
{
    if a < 0 {
        -a
    } else {
        a
    }
}

} // verus!
