//! Saturating Q16.16 fixed-point arithmetic.
//!
//! The execution environment is freestanding and offers no hardware float
//! support, so every numeric value of the engine is a signed integer
//! carrying sixteen fractional bits: the encoding of a real number `v` is
//! `v * 65536`, rounded toward minus infinity.  Arithmetic saturates at
//! `FX_MIN` / `FX_MAX` instead of wrapping, so no operation can overflow
//! or panic.

use vstd::prelude::*;
use vstd::arithmetic::div_mod::{lemma_fundamental_div_mod, lemma_fundamental_div_mod_converse};

verus! {

/// One whole unit (the encoding of 1.0).
pub const FX_ONE: i64 = 65536;

/// Largest representable fixed-point value (2^47, the encoding of 2^31).
pub const FX_MAX: i64 = 140737488355328;

/// Smallest representable fixed-point value (the encoding of -2^31).
pub const FX_MIN: i64 = -140737488355328;

/// Clip an unbounded result into the representable range.
pub open spec fn sat_fx(x: int) -> int {
    if x > FX_MAX as int {
        FX_MAX as int
    } else if x < FX_MIN as int {
        FX_MIN as int
    } else {
        x
    }
}

/// Saturating fixed-point sum.
pub open spec fn fx_add_spec(a: int, b: int) -> int {
    sat_fx(a + b)
}

/// Saturating fixed-point product: `a * b` rescaled by one unit,
/// rounded toward minus infinity.
pub open spec fn fx_mul_spec(a: int, b: int) -> int {
    sat_fx((a * b) / (FX_ONE as int))
}

/// Fixed-point quotient `a / b` for a positive divisor, rounded toward
/// minus infinity.
pub open spec fn fx_div_spec(a: int, b: int) -> int
    recommends
        b > 0,
{
    sat_fx((a * FX_ONE) / b)
}

/// Clip a wide intermediate result into the representable range.
pub(crate) fn sat_fx_i128(x: i128) -> (r: i64)
    ensures
        r as int == sat_fx(x as int),
{
    if x > FX_MAX as i128 {
        FX_MAX
    } else if x < FX_MIN as i128 {
        FX_MIN
    } else {
        x as i64
    }
}

/// Quotient of `a` by a positive divisor `b`, rounded toward minus
/// infinity; agrees with the mathematical (Euclidean) quotient.
pub(crate) fn div_floor_i128(a: i128, b: i128) -> (q: i128)
    requires
        b > 0,
        a != i128::MIN,
    ensures
        q as int == a as int / b as int,
{
    let ub: u128 = b as u128;
    if a >= 0 {
        let ua: u128 = a as u128;
        (ua / ub) as i128
    } else {
        let na: u128 = (-a) as u128;
        let uq: u128 = na / ub;
        let r: u128 = na % ub;
        if r == 0 {
            proof {
                lemma_fundamental_div_mod(na as int, ub as int);
                assert(na as int == b as int * uq as int + r as int);
                assert(a as int == (-(uq as int)) * b as int + 0) by (nonlinear_arith)
                    requires
                        a as int == -(na as int),
                        r as int == 0,
                        na as int == b as int * uq as int + r as int,
                ;
                lemma_fundamental_div_mod_converse(a as int, b as int, -(uq as int), 0);
            }
            -(uq as i128)
        } else {
            proof {
                lemma_fundamental_div_mod(na as int, ub as int);
                assert(na as int == b as int * uq as int + r as int);
                assert(a as int == (-(uq as int) - 1) * b as int + (b as int - r as int))
                    by (nonlinear_arith)
                    requires
                        a as int == -(na as int),
                        na as int == b as int * uq as int + r as int,
                ;
                lemma_fundamental_div_mod_converse(
                    a as int,
                    b as int,
                    -(uq as int) - 1,
                    b as int - r as int,
                );
            }
            -(uq as i128) - 1
        }
    }
}

/// Fractional factor of the exponential: a clipped three-term alternating
/// series for `e^(-r/65536)` with `0 <= r < 65536`.
pub open spec fn exp_frac_spec(r: int) -> int {
    let rr = (r * r) / 65536;
    let c3 = ((rr * r) / 65536) / 6;
    let p = 65536 - r + rr / 2 - c3;
    if p < 1 {
        1
    } else if p > 65536 {
        65536
    } else {
        p
    }
}

/// Integral factor of the exponential: `e^(-q)` in fixed point, computed
/// by repeated multiplication with the encoding of `1/e`.
pub open spec fn exp_int_spec(q: nat) -> int
    decreases q,
{
    if q == 0 {
        65536
    } else {
        (exp_int_spec((q - 1) as nat) * 24109) / 65536
    }
}

/// Fixed-point exponential of a non-positive argument, clipped into
/// `[1, FX_ONE]`: exact zero maps to one whole unit, and anything at or
/// below -32.0 maps to the smallest positive value.
pub open spec fn exp_spec(x: int) -> int {
    if x >= 0 {
        65536
    } else if x <= -2097152 {
        1
    } else {
        let t = -x;
        let q = t / 65536;
        let r = t % 65536;
        let v = (exp_int_spec(q as nat) * exp_frac_spec(r)) / 65536;
        if v < 1 {
            1
        } else if v > 65536 {
            65536
        } else {
            v
        }
    }
}

/// The exponential always yields a value strictly between zero and one
/// whole unit inclusive.
pub proof fn lemma_exp_bounds(x: int)
    ensures
        1 <= exp_spec(x) <= 65536,
{
}

proof fn lemma_exp_int_bounds(q: nat)
    ensures
        0 <= exp_int_spec(q) <= 65536,
    decreases q,
{
    if q > 0 {
        lemma_exp_int_bounds((q - 1) as nat);
        let e = exp_int_spec((q - 1) as nat);
        vstd::arithmetic::mul::lemma_mul_inequality(e, 65536, 24109);
        vstd::arithmetic::div_mod::lemma_div_is_ordered(e * 24109, 1580204032int, 65536);
        vstd::arithmetic::div_mod::lemma_div_pos_is_pos(e * 24109, 65536);
        vstd::arithmetic::mul::lemma_mul_nonnegative(e, 24109);
    }
}

/// Fixed-point exponential of a non-positive argument.
pub fn fx_exp(x: i64) -> (r: i64)
    requires
        x <= 0,
    ensures
        r as int == exp_spec(x as int),
        1 <= r <= FX_ONE,
{
    if x == 0 {
        return FX_ONE;
    }
    if x <= -2097152 {
        return 1;
    }
    let t: u64 = (-x) as u64;
    let q: u64 = t / 65536;
    let rf: u64 = t % 65536;
    let mut e: u64 = 65536;
    let mut iq: u64 = 0;
    while iq < q
        invariant
            0 <= iq <= q,
            e as int == exp_int_spec(iq as nat),
            0 <= e <= 65536,
        decreases q - iq,
    {
        proof {
            lemma_exp_int_bounds((iq + 1) as nat);
        }
        e = (e * 24109) / 65536;
        iq += 1;
    }
    proof {
        assert(0 <= (rf as int * rf as int) && (rf as int * rf as int) < 4294967296)
            by (nonlinear_arith)
            requires
                0 <= rf as int && (rf as int) < 65536,
        ;
        assert((rf as int * rf as int) / 65536 < 65536) by (nonlinear_arith)
            requires
                0 <= (rf as int * rf as int) && (rf as int * rf as int) < 4294967296,
        ;
    }
    let rr: u64 = (rf * rf) / 65536;
    proof {
        assert(0 <= (rr as int * rf as int) && (rr as int * rf as int) < 4294967296)
            by (nonlinear_arith)
            requires
                0 <= rr as int && (rr as int) < 65536,
                0 <= rf as int && (rf as int) < 65536,
        ;
    }
    let c3: u64 = ((rr * rf) / 65536) / 6;
    let p0: i64 = 65536 - (rf as i64) + ((rr / 2) as i64) - (c3 as i64);
    let p: i64 = if p0 < 1 {
        1
    } else if p0 > 65536 {
        65536
    } else {
        p0
    };
    proof {
        assert(0 <= (e as int * p as int) && (e as int * p as int) <= 4294967296)
            by (nonlinear_arith)
            requires
                0 <= e as int <= 65536 && 1 <= p as int <= 65536,
        ;
    }
    let v: u64 = (e * (p as u64)) / 65536;
    let out: i64 = if v < 1 {
        1
    } else if v > 65536 {
        65536
    } else {
        v as i64
    };
    out
}

/// Integer square root: the largest `r` with `r * r <= x` (0 for
/// negative arguments, which no caller passes).
pub open spec fn isqrt_spec(x: int) -> int
    decreases x,
{
    if x < 1 {
        0
    } else {
        let r = isqrt_spec(x - 1);
        if (r + 1) * (r + 1) <= x {
            r + 1
        } else {
            r
        }
    }
}

proof fn lemma_isqrt_spec_char(x: int)
    requires
        x >= 0,
    ensures
        isqrt_spec(x) >= 0,
        isqrt_spec(x) * isqrt_spec(x) <= x,
        x < (isqrt_spec(x) + 1) * (isqrt_spec(x) + 1),
    decreases x,
{
    if x >= 1 {
        lemma_isqrt_spec_char(x - 1);
        let r = isqrt_spec(x - 1);
        if (r + 1) * (r + 1) <= x {
            assert(x < (r + 2) * (r + 2)) by (nonlinear_arith)
                requires
                    r >= 0,
                    x - 1 < (r + 1) * (r + 1),
            ;
        }
    }
}

/// Any value satisfying the square-root characterization is the integer
/// square root.
pub proof fn lemma_isqrt_char(x: int, r: int)
    requires
        0 <= r,
        r * r <= x,
        x < (r + 1) * (r + 1),
    ensures
        r == isqrt_spec(x),
{
    lemma_isqrt_spec_char(x);
    let q = isqrt_spec(x);
    if r < q {
        assert((r + 1) * (r + 1) <= q * q) by (nonlinear_arith)
            requires
                0 <= r < q,
        ;
    }
    if q < r {
        assert((q + 1) * (q + 1) <= r * r) by (nonlinear_arith)
            requires
                0 <= q < r,
        ;
    }
}

/// Integer square root of a wide unsigned value.
pub(crate) fn isqrt_u128(x: u128) -> (r: u128)
    requires
        x < 0x4000_0000_0000_0000_0000_0000_0000_0000,
    ensures
        r as int == isqrt_spec(x as int),
        r as int * r as int <= x as int,
        (x as int) < (r as int + 1) * (r as int + 1),
        r <= 0x8000_0000_0000_0000,
{
    let mut lo: u128 = 0;
    let mut hi: u128 = 0x8000_0000_0000_0000;
    proof {
        assert(0x8000_0000_0000_0000 * 0x8000_0000_0000_0000
            == 0x4000_0000_0000_0000_0000_0000_0000_0000int) by (nonlinear_arith);
    }
    while lo + 1 < hi
        invariant
            0 <= lo < hi <= 0x8000_0000_0000_0000,
            lo as int * lo as int <= x as int,
            (x as int) < hi as int * hi as int,
        decreases hi - lo,
    {
        let mid: u128 = lo + (hi - lo) / 2;
        proof {
            assert((mid as int * mid as int) < 0x8000_0000_0000_0000_0000_0000_0000_0000)
                by (nonlinear_arith)
                requires
                    0 <= mid as int <= 0x8000_0000_0000_0000,
            ;
        }
        if mid * mid <= x {
            lo = mid;
        } else {
            hi = mid;
        }
    }
    proof {
        lemma_isqrt_char(x as int, lo as int);
    }
    lo
}

/// Saturating sum of two fixed-point values.
pub fn fx_add(a: i64, b: i64) -> (r: i64)
    ensures
        r as int == fx_add_spec(a as int, b as int),
{
    sat_fx_i128(a as i128 + b as i128)
}

/// Saturating rescaled product of two fixed-point values.
pub fn fx_mul(a: i64, b: i64) -> (r: i64)
    ensures
        r as int == fx_mul_spec(a as int, b as int),
{
    proof {
        let ab = a as int * b as int;
        assert(-0x4000_0000_0000_0000_0000_0000_0000_0000 <= ab
            <= 0x4000_0000_0000_0000_0000_0000_0000_0000) by (nonlinear_arith)
            requires
                ab == a as int * b as int,
                -0x8000_0000_0000_0000 <= a as int <= 0x7fff_ffff_ffff_ffff,
                -0x8000_0000_0000_0000 <= b as int <= 0x7fff_ffff_ffff_ffff,
        ;
    }
    let p: i128 = a as i128 * b as i128;
    let q = div_floor_i128(p, FX_ONE as i128);
    sat_fx_i128(q)
}

/// Saturating fixed-point quotient for a positive divisor.
pub fn fx_div(a: i64, b: i64) -> (r: i64)
    requires
        b > 0,
    ensures
        r as int == fx_div_spec(a as int, b as int),
{
    let p: i128 = a as i128 * 65536i128;
    proof {
        assert(p != i128::MIN) by (nonlinear_arith)
            requires
                p as int == a as int * 65536,
                -0x8000_0000_0000_0000 <= a as int <= 0x7fff_ffff_ffff_ffff,
        ;
    }
    let q = div_floor_i128(p, b as i128);
    sat_fx_i128(q)
}

} // verus!
