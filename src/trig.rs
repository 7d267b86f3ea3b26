//! Polynomial approximations of the trigonometric functions in fixed point,
//! and the reduction of angles into `[-π, π)`.
//!
//! Angles are fixed-point radians with `F` fractional bits. The polynomials
//! are accurate only on a restricted domain: sine and cosine on inputs
//! already wrapped into `[-π, π)`, tangent on `(-π/2, π/2)`.
use vstd::prelude::*;
use vstd::arithmetic::power2::pow2;
use crate::scalar::{
    MAX_FRAC, add_fx, clamp, clamp_i64, div_int_fx, fx_add, fx_div_int, fx_mul_int, fx_neg, fx_pow,
    fx_sub, mul_int_fx, neg_fx, one_bits, one_fx, pow2_i64, sub_fx, tdiv,
};
use crate::consts::{pi, pi_fx, pi_half, pi_half_fx};
use crate::utility::fixed_powi;

verus! {

/// Reflects an angle beyond ±`ph` (π/2) back inside: about π/2 above it,
/// about -π/2 below it, where the series are most accurate.
pub open spec fn mirror(x: int, ph: int) -> int {
    if x < -ph {
        -ph - (x + ph)
    } else if ph < x {
        ph - (x - ph)
    } else {
        x
    }
}

/// `x^k / d` as the fixed-point operations compute it.
pub open spec fn term(x: int, k: nat, d: int, f: nat) -> int {
    fx_div_int(fx_pow(x, k, f), d)
}

/// `x^k * c / d` as the fixed-point operations compute it.
pub open spec fn term_scaled(x: int, k: nat, c: int, d: int, f: nat) -> int {
    fx_div_int(fx_mul_int(fx_pow(x, k, f), c), d)
}

/// The ninth-order Taylor polynomial of the sine:
/// `x - x^3/6 + x^5/120 - x^7/5040 + x^9/362880`.
pub open spec fn sin_poly(x: int, f: nat) -> int {
    fx_add(
        fx_sub(
            fx_add(fx_sub(x, term(x, 3, 6, f)), term(x, 5, 120, f)),
            term(x, 7, 5040, f),
        ),
        term(x, 9, 362880, f),
    )
}

/// The eighth-order Taylor polynomial of the cosine:
/// `1 - x^2/2 + x^4/24 - x^6/720 + x^8/40320`.
pub open spec fn cos_poly(x: int, f: nat) -> int {
    fx_add(
        fx_sub(
            fx_add(fx_sub(clamp(one_bits(f)), term(x, 2, 2, f)), term(x, 4, 24, f)),
            term(x, 6, 720, f),
        ),
        term(x, 8, 40320, f),
    )
}

/// The fifteenth-order Taylor polynomial of the tangent:
/// `x + x^3/3 + 2x^5/15 + 17x^7/315 + 62x^9/2835 + 1382x^11/155925
///  + 21844x^13/6081075 + 929569x^15/638512875`.
pub open spec fn tan_poly(x: int, f: nat) -> int {
    fx_add(
        fx_add(
            fx_add(
                fx_add(
                    fx_add(
                        fx_add(fx_add(x, term(x, 3, 3, f)), term_scaled(x, 5, 2, 15, f)),
                        term_scaled(x, 7, 17, 315, f),
                    ),
                    term_scaled(x, 9, 62, 2835, f),
                ),
                term_scaled(x, 11, 1382, 155925, f),
            ),
            term_scaled(x, 13, 21844, 6081075, f),
        ),
        term_scaled(x, 15, 929569, 638512875, f),
    )
}

/// The approximate sine: the angle mirrored into `[-π/2, π/2]`, then the
/// Taylor polynomial.
pub open spec fn sin_fx(x: int, f: nat) -> int {
    sin_poly(mirror(x, pi_half_fx(f)), f)
}

/// The approximate cosine: beyond ±π/2 the angle is mirrored and the sign
/// of the polynomial flipped.
pub open spec fn cos_fx(x: int, f: nat) -> int {
    let ph = pi_half_fx(f);
    if x < -ph || ph < x {
        fx_neg(cos_poly(mirror(x, ph), f))
    } else {
        cos_poly(x, f)
    }
}

/// The angle `x` reduced into `[-pi, pi)` by whole turns of `2 * pi`.
pub open spec fn wrap_fx(x: int, pi: int) -> int {
    (x + pi) % (2 * pi) - pi
}

/// The mirrored angle stays within the range of `i32`.
fn mirror_exec(x: i32, ph: i32) -> (r: i32)
    requires
        ph > 0,
    ensures
        r as int == mirror(x as int, ph as int),
{
    if x < -ph {
        (-(x as i64) - 2 * ph as i64) as i32
    } else if ph < x {
        (2 * ph as i64 - x as i64) as i32
    } else {
        x
    }
}

/// `x^k / d` in fixed point.
fn term_exec<const F: u32>(x: i32, k: usize, d: i32) -> (r: i32)
    requires
        F <= MAX_FRAC,
        d != 0,
    ensures
        r as int == term(x as int, k as nat, d as int, F as nat),
{
    div_int_fx(fixed_powi::<F>(x, k), d)
}

/// `x^k * c / d` in fixed point.
fn term_scaled_exec<const F: u32>(x: i32, k: usize, c: i32, d: i32) -> (r: i32)
    requires
        F <= MAX_FRAC,
        d != 0,
    ensures
        r as int == term_scaled(x as int, k as nat, c as int, d as int, F as nat),
{
    div_int_fx(mul_int_fx(fixed_powi::<F>(x, k), c), d)
}

/// The sine polynomial evaluated without mirroring.
fn sin_poly_exec<const F: u32>(x: i32) -> (r: i32)
    requires
        F <= MAX_FRAC,
    ensures
        r as int == sin_poly(x as int, F as nat),
{
    let a = sub_fx(x, term_exec::<F>(x, 3, 6));
    let b = add_fx(a, term_exec::<F>(x, 5, 120));
    let c = sub_fx(b, term_exec::<F>(x, 7, 5040));
    add_fx(c, term_exec::<F>(x, 9, 362880))
}

/// The cosine polynomial evaluated without mirroring.
fn cos_poly_exec<const F: u32>(x: i32) -> (r: i32)
    requires
        F <= MAX_FRAC,
    ensures
        r as int == cos_poly(x as int, F as nat),
{
    let a = sub_fx(one_fx(F), term_exec::<F>(x, 2, 2));
    let b = add_fx(a, term_exec::<F>(x, 4, 24));
    let c = sub_fx(b, term_exec::<F>(x, 6, 720));
    add_fx(c, term_exec::<F>(x, 8, 40320))
}

/// Approximate sine of the angle `x` (radians, `F` fractional bits). The
/// angle must already be wrapped into `[-π, π)` for an accurate result.
pub fn sin_fixed<const F: u32>(x: i32) -> (r: i32)
    requires
        F <= MAX_FRAC,
    ensures
        r as int == sin_fx(x as int, F as nat),
{
    let ph = pi_half::<F>();
    sin_poly_exec::<F>(mirror_exec(x, ph))
}

/// Approximate cosine of the angle `x` (radians, `F` fractional bits). The
/// angle must already be wrapped into `[-π, π)` for an accurate result.
pub fn cos_fixed<const F: u32>(x: i32) -> (r: i32)
    requires
        F <= MAX_FRAC,
    ensures
        r as int == cos_fx(x as int, F as nat),
{
    let ph = pi_half::<F>();
    if x < -ph || ph < x {
        neg_fx(cos_poly_exec::<F>(mirror_exec(x, ph)))
    } else {
        cos_poly_exec::<F>(x)
    }
}

/// Approximate tangent of the angle `x` (radians, `F` fractional bits) by
/// its Taylor polynomial; accurate only well inside `(-π/2, π/2)`, with an
/// error that grows as `|x|` approaches π/2.
pub fn tan_fixed<const F: u32>(x: i32) -> (r: i32)
    requires
        F <= MAX_FRAC,
    ensures
        r as int == tan_poly(x as int, F as nat),
{
    let a = add_fx(x, term_exec::<F>(x, 3, 3));
    let b = add_fx(a, term_scaled_exec::<F>(x, 5, 2, 15));
    let c = add_fx(b, term_scaled_exec::<F>(x, 7, 17, 315));
    let d = add_fx(c, term_scaled_exec::<F>(x, 9, 62, 2835));
    let e = add_fx(d, term_scaled_exec::<F>(x, 11, 1382, 155925));
    let g = add_fx(e, term_scaled_exec::<F>(x, 13, 21844, 6081075));
    add_fx(g, term_scaled_exec::<F>(x, 15, 929569, 638512875))
}

/// Reduces the angle `x` into `[-pi, pi)` by adding or subtracting whole
/// turns `2 * pi`, where `pi` is the value that stands for π.
pub fn wrap_phase_scalar(x: i32, pi: i32) -> (r: i32)
    requires
        pi > 0,
    ensures
        r as int == wrap_fx(x as int, pi as int),
{
    let m: i64 = 2 * pi as i64;
    let t: i64 = x as i64 + pi as i64;
    let q: i64 = if t >= 0 {
        t / m
    } else {
        -((-t + m - 1) / m)
    };
    proof {
        vstd::arithmetic::div_mod::lemma_fundamental_div_mod(t as int, m as int);
        if t < 0 {
            crate::scalar::lemma_floor_div_neg(t as int, m as int);
        }
        lemma_wrap_range(x as int, pi as int);
        assert(q as int == t as int / m as int);
        assert(q * m == t - t % m) by (nonlinear_arith)
            requires
                t == m * (t / m) + t % m,
                q == t / m,
        ;
    }
    (t - q * m - pi as i64) as i32
}

/// The reduced angle lies in `[-pi, pi)`.
proof fn lemma_wrap_range(x: int, pi: int)
    requires
        pi > 0,
    ensures
        -pi <= wrap_fx(x, pi) < pi,
{
    vstd::arithmetic::div_mod::lemma_mod_bound(x + pi, 2 * pi);
}

/// Reducing an angle: the result lies in `[-pi, pi)` and differs from the
/// angle by a whole number of turns `2 * pi`; an angle already in
/// `[-pi, pi)` is returned unchanged, so reducing twice is reducing once.
pub proof fn lemma_wrap_phase(x: int, pi: int)
    requires
        pi > 0,
    ensures
        -pi <= wrap_fx(x, pi) < pi,
        (x - wrap_fx(x, pi)) % (2 * pi) == 0,
        -pi <= x < pi ==> wrap_fx(x, pi) == x,
        wrap_fx(wrap_fx(x, pi), pi) == wrap_fx(x, pi),
{
    let m = 2 * pi;
    lemma_wrap_range(x, pi);
    vstd::arithmetic::div_mod::lemma_fundamental_div_mod(x + pi, m);
    let q = (x + pi) / m;
    assert(x - wrap_fx(x, pi) == q * m) by (nonlinear_arith)
        requires
            x + pi == m * q + (x + pi) % m,
            wrap_fx(x, pi) == (x + pi) % m - pi,
    ;
    vstd::arithmetic::div_mod::lemma_mod_multiples_basic(q, m);
    if -pi <= x < pi {
        vstd::arithmetic::div_mod::lemma_small_mod((x + pi) as nat, m as nat);
    }
    let w = wrap_fx(x, pi);
    vstd::arithmetic::div_mod::lemma_small_mod((w + pi) as nat, m as nat);
}

/// Fractional bits of the radians that the scaled routines work in.
pub const ANGLE_FRAC: u32 = 20;

/// The angle `x`, in units where `norm_pi` stands for π, as radians with
/// [`ANGLE_FRAC`] fractional bits, rounded toward zero and saturated.
pub open spec fn scaled_angle(x: int, norm_pi: int) -> int {
    clamp(tdiv(x * pi_fx(ANGLE_FRAC as nat), norm_pi))
}

/// The fixed-point value `v` with [`ANGLE_FRAC`] fractional bits scaled so
/// that `norm` stands for one, rounded toward zero and saturated.
pub open spec fn scaled_result(v: int, norm: int) -> int {
    clamp(tdiv(v * norm, pow2(ANGLE_FRAC as nat) as int))
}

/// Converts an angle in units where `norm_pi` stands for π to radians with
/// [`ANGLE_FRAC`] fractional bits.
fn to_radians(x: i32, norm_pi: i32) -> (r: i32)
    requires
        norm_pi > 0,
    ensures
        r as int == scaled_angle(x as int, norm_pi as int),
{
    let p = pi::<ANGLE_FRAC>();
    proof {
        assert(-0x4000_0000_0000_0000 <= x * p <= 0x4000_0000_0000_0000) by (nonlinear_arith)
            requires
                -0x8000_0000 <= x <= 0x7fff_ffff,
                0 < p <= 0x7fff_ffff,
        ;
    }
    let q = tdiv_i64_pos(x as i64 * p as i64, norm_pi as i64);
    clamp_i64(q)
}

/// Scales a value with [`ANGLE_FRAC`] fractional bits so that `norm` stands
/// for one.
fn from_unit(v: i32, norm: i32) -> (r: i32)
    ensures
        r as int == scaled_result(v as int, norm as int),
{
    let d = pow2_i64(ANGLE_FRAC);
    proof {
        vstd::arithmetic::power2::lemma2_to64();
        assert(-0x4000_0000_0000_0000 <= v * norm <= 0x4000_0000_0000_0000) by (nonlinear_arith)
            requires
                -0x8000_0000 <= v <= 0x7fff_ffff,
                -0x8000_0000 <= norm <= 0x7fff_ffff,
        ;
    }
    let q = tdiv_i64_pos(v as i64 * norm as i64, d);
    clamp_i64(q)
}

/// Truncating division by a positive divisor.
fn tdiv_i64_pos(a: i64, b: i64) -> (r: i64)
    requires
        b > 0,
        a > i64::MIN,
    ensures
        r as int == tdiv(a as int, b as int),
{
    let ua: i64 = if a < 0 { -a } else { a };
    let q: i64 = ua / b;
    if a < 0 { -q } else { q }
}

/// Approximate sine of `x`, in units where `norm_pi` stands for π, scaled so
/// that `norm` stands for one: the angle goes to radians with
/// [`ANGLE_FRAC`] fractional bits, through [`sin_fixed`], and back.
pub fn sin_scaled(x: i32, norm_pi: i32, norm: i32) -> (r: i32)
    requires
        norm_pi > 0,
    ensures
        r as int == scaled_result(
            sin_fx(scaled_angle(x as int, norm_pi as int), ANGLE_FRAC as nat),
            norm as int,
        ),
{
    from_unit(sin_fixed::<ANGLE_FRAC>(to_radians(x, norm_pi)), norm)
}

/// Approximate tangent of `x`, in units where `norm_pi` stands for π,
/// scaled so that `norm` stands for one; accurate only well inside
/// `(-norm_pi / 2, norm_pi / 2)`.
pub fn tan_scaled(x: i32, norm_pi: i32, norm: i32) -> (r: i32)
    requires
        norm_pi > 0,
    ensures
        r as int == scaled_result(
            tan_poly(scaled_angle(x as int, norm_pi as int), ANGLE_FRAC as nat),
            norm as int,
        ),
{
    from_unit(tan_fixed::<ANGLE_FRAC>(to_radians(x, norm_pi)), norm)
}

} // verus!
