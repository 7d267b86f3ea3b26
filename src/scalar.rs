//! Saturating fixed-point arithmetic on raw `i32` bits with `F` fractional bits.
//!
//! Each operation is the exact mathematical result, rounded as the `fixed`
//! crate rounds its saturating operations (products toward negative
//! infinity, quotients toward zero), then clamped to the `i32` range.
use vstd::prelude::*;
use vstd::arithmetic::power2::pow2;

verus! {

/// Largest number of fractional bits for which the value one is representable.
pub const MAX_FRAC: u32 = 30;

/// The integer `x` clamped to the range of `i32`.
pub open spec fn clamp(x: int) -> int {
    if x < i32::MIN {
        i32::MIN as int
    } else if x > i32::MAX {
        i32::MAX as int
    } else {
        x
    }
}

/// Division of `a` by `b` rounded toward zero, as Rust's integer `/` does.
pub open spec fn tdiv(a: int, b: int) -> int {
    let q = (if a < 0 { -a } else { a }) / (if b < 0 { -b } else { b });
    if (a < 0) != (b < 0) { -q } else { q }
}

/// The bits of the value one with `f` fractional bits.
pub open spec fn one_bits(f: nat) -> int {
    pow2(f) as int
}

/// Saturating sum.
pub open spec fn fx_add(a: int, b: int) -> int {
    clamp(a + b)
}

/// Saturating difference.
pub open spec fn fx_sub(a: int, b: int) -> int {
    clamp(a - b)
}

/// Saturating negation.
pub open spec fn fx_neg(a: int) -> int {
    clamp(-a)
}

/// Saturating fixed-point product, rounded toward negative infinity.
pub open spec fn fx_mul(a: int, b: int, f: nat) -> int {
    clamp((a * b) / (pow2(f) as int))
}

/// Saturating product of a fixed-point value and a plain integer.
pub open spec fn fx_mul_int(a: int, k: int) -> int {
    clamp(a * k)
}

/// Quotient of a fixed-point value by a plain nonzero integer, rounded toward zero.
pub open spec fn fx_div_int(a: int, k: int) -> int {
    clamp(tdiv(a, k))
}

/// Fixed-point division with the library's zero policy: a zero dividend gives
/// zero, otherwise a zero divisor gives the largest value; else the quotient
/// rounded toward zero and saturated.
pub open spec fn fx_div(a: int, b: int, f: nat) -> int {
    if a == 0 {
        0
    } else if b == 0 {
        i32::MAX as int
    } else {
        clamp(tdiv(a * pow2(f), b))
    }
}

/// `x` raised to the power `p` by repeated saturating multiplication;
/// the zeroth power is one.
pub open spec fn fx_pow(x: int, p: nat, f: nat) -> int
    decreases p,
{
    if p == 0 {
        clamp(one_bits(f))
    } else if p == 1 {
        x
    } else {
        fx_mul(fx_pow(x, (p - 1) as nat, f), x, f)
    }
}

/// `2^f` as an `i64`.
pub fn pow2_i64(f: u32) -> (r: i64)
    requires
        f <= 62,
    ensures
        r as int == pow2(f as nat),
        r > 0,
{
    proof {
        vstd::bits::lemma_u64_pow2_no_overflow(f as nat);
        vstd::bits::lemma_u64_shl_is_mul(1, f as u64);
        vstd::arithmetic::power2::lemma_pow2_pos(f as nat);
        vstd::arithmetic::power2::lemma_pow2_strictly_increases(f as nat, 63);
        vstd::arithmetic::power2::lemma2_to64_rest();
    }
    let u: u64 = 1u64 << (f as u64);
    u as i64
}

/// `2^f` as a `u64`.
pub fn pow2_u64(f: u32) -> (r: u64)
    requires
        f <= 63,
    ensures
        r as int == pow2(f as nat),
        r > 0,
{
    proof {
        vstd::bits::lemma_u64_pow2_no_overflow(f as nat);
        vstd::bits::lemma_u64_shl_is_mul(1, f as u64);
        vstd::arithmetic::power2::lemma_pow2_pos(f as nat);
    }
    1u64 << (f as u64)
}

/// Clamps an `i64` to the range of `i32`.
pub fn clamp_i64(x: i64) -> (r: i32)
    ensures
        r as int == clamp(x as int),
{
    if x < i32::MIN as i64 {
        i32::MIN
    } else if x > i32::MAX as i64 {
        i32::MAX
    } else {
        x as i32
    }
}

/// Truncating division of `i64` values; the divisor is nonzero and the
/// quotient cannot overflow.
fn tdiv_i64(a: i64, b: i64) -> (r: i64)
    requires
        b != 0,
        a > i64::MIN,
        b > i64::MIN,
    ensures
        r as int == tdiv(a as int, b as int),
{
    let ua: i64 = if a < 0 { -a } else { a };
    let ub: i64 = if b < 0 { -b } else { b };
    let q: i64 = ua / ub;
    if (a < 0) != (b < 0) { -q } else { q }
}

/// Saturating sum of two fixed-point values.
pub fn add_fx(a: i32, b: i32) -> (r: i32)
    ensures
        r as int == fx_add(a as int, b as int),
{
    clamp_i64(a as i64 + b as i64)
}

/// Saturating difference of two fixed-point values.
pub fn sub_fx(a: i32, b: i32) -> (r: i32)
    ensures
        r as int == fx_sub(a as int, b as int),
{
    clamp_i64(a as i64 - b as i64)
}

/// Saturating negation of a fixed-point value.
pub fn neg_fx(a: i32) -> (r: i32)
    ensures
        r as int == fx_neg(a as int),
{
    clamp_i64(-(a as i64))
}

/// Saturating product of two fixed-point values with `f` fractional bits.
pub fn mul_fx(a: i32, b: i32, f: u32) -> (r: i32)
    requires
        f <= MAX_FRAC,
    ensures
        r as int == fx_mul(a as int, b as int, f as nat),
{
    let d = pow2_i64(f);
    proof {
        lemma_i32_product_bound(a as int, b as int);
        vstd::arithmetic::power2::lemma_pow2_strictly_increases(f as nat, 31);
        vstd::arithmetic::power2::lemma2_to64();
    }
    let p: i64 = a as i64 * b as i64;
    let q: i64 = if p >= 0 {
        p / d
    } else {
        -((-p + d - 1) / d)
    };
    proof {
        if p < 0 {
            lemma_floor_div_neg(p as int, d as int);
        }
    }
    clamp_i64(q)
}

/// The product of two values in the range of `i32` lies within `2^62` of zero.
proof fn lemma_i32_product_bound(a: int, b: int)
    requires
        i32::MIN <= a <= i32::MAX,
        i32::MIN <= b <= i32::MAX,
    ensures
        -0x4000_0000_0000_0000 <= a * b <= 0x4000_0000_0000_0000,
{
    assert(-0x4000_0000_0000_0000 <= a * b <= 0x4000_0000_0000_0000) by (nonlinear_arith)
        requires
            -0x8000_0000 <= a <= 0x7fff_ffff,
            -0x8000_0000 <= b <= 0x7fff_ffff,
    ;
}

/// For a negative `p` and a positive `d`, `-((-p + d - 1) / d)` is `p / d`
/// rounded toward negative infinity.
pub proof fn lemma_floor_div_neg(p: int, d: int)
    requires
        p < 0,
        d > 0,
    ensures
        -((-p + d - 1) / d) == p / d,
{
    let m = -p + d - 1;
    vstd::arithmetic::div_mod::lemma_fundamental_div_mod(p, d);
    vstd::arithmetic::div_mod::lemma_fundamental_div_mod(m, d);
    let q1 = p / d;
    let r1 = p % d;
    let q2 = m / d;
    let r2 = m % d;
    assert(-q2 == q1) by (nonlinear_arith)
        requires
            d > 0,
            p == d * q1 + r1,
            0 <= r1 < d,
            m == -p + d - 1,
            m == d * q2 + r2,
            0 <= r2 < d,
    ;
}

/// Product of a fixed-point value and a plain integer, saturated.
pub fn mul_int_fx(a: i32, k: i32) -> (r: i32)
    ensures
        r as int == fx_mul_int(a as int, k as int),
{
    proof {
        lemma_i32_product_bound(a as int, k as int);
    }
    let p: i64 = a as i64 * k as i64;
    clamp_i64(p)
}

/// Quotient of a fixed-point value by a plain nonzero integer, rounded toward zero.
pub fn div_int_fx(a: i32, k: i32) -> (r: i32)
    requires
        k != 0,
    ensures
        r as int == fx_div_int(a as int, k as int),
{
    clamp_i64(tdiv_i64(a as i64, k as i64))
}

/// Fixed-point division with the zero policy of [`fx_div`].
pub fn div_fx(a: i32, b: i32, f: u32) -> (r: i32)
    requires
        f <= MAX_FRAC,
    ensures
        r as int == fx_div(a as int, b as int, f as nat),
{
    if a == 0 {
        0
    } else if b == 0 {
        i32::MAX
    } else {
        let d = pow2_i64(f);
        proof {
            vstd::arithmetic::power2::lemma_pow2_strictly_increases(f as nat, 31);
            vstd::arithmetic::power2::lemma2_to64();
        }
        proof {
            lemma_i32_product_bound(a as int, d as int);
        }
        let n: i64 = a as i64 * d;
        clamp_i64(tdiv_i64(n, b as i64))
    }
}

/// The integer `v` in the format with `f` fractional bits, saturated.
pub open spec fn fx_from_int(v: int, f: nat) -> int {
    clamp(v * pow2(f))
}

/// Converts an integer to the format with `f` fractional bits, saturating.
pub fn from_int_fx(v: i32, f: u32) -> (r: i32)
    requires
        f <= MAX_FRAC,
    ensures
        r as int == fx_from_int(v as int, f as nat),
{
    let d = pow2_i64(f);
    proof {
        vstd::arithmetic::power2::lemma_pow2_strictly_increases(f as nat, 31);
        vstd::arithmetic::power2::lemma2_to64();
        lemma_i32_product_bound(v as int, d as int);
    }
    clamp_i64(v as i64 * d)
}

/// The value one with `f` fractional bits.
pub fn one_fx(f: u32) -> (r: i32)
    requires
        f <= MAX_FRAC,
    ensures
        r as int == one_bits(f as nat),
        r as int == clamp(one_bits(f as nat)),
        r > 0,
{
    let d = pow2_i64(f);
    proof {
        vstd::arithmetic::power2::lemma_pow2_strictly_increases(f as nat, 31);
        vstd::arithmetic::power2::lemma2_to64();
    }
    d as i32
}

} // verus!
