//! Scalar helpers: integer and fixed-point powers, the Babylonian square
//! root and the rational approximation of the arc tangent.
use vstd::prelude::*;
use vstd::arithmetic::power::pow;
use vstd::arithmetic::power2::pow2;
use crate::scalar::{
    MAX_FRAC, add_fx, clamp, clamp_i64, div_fx, fx_add, fx_div, fx_mul, fx_pow, mul_fx, one_bits,
    pow2_i64,
};
use crate::consts::{pi_half, pi_half_fx};

verus! {

/// `|b^k| <= |b^n|` for a nonzero base and `k <= n`.
proof fn lemma_pow_abs_monotone(b: int, k: nat, n: nat)
    requires
        b != 0,
        k <= n,
    ensures
        abs(pow(b, k)) <= abs(pow(b, n)),
    decreases n - k,
{
    if k < n {
        lemma_pow_abs_monotone(b, k, (n - 1) as nat);
        reveal(pow);
        let p = pow(b, (n - 1) as nat);
        assert(pow(b, n) == b * p);
        assert(abs(p) <= abs(b * p)) by (nonlinear_arith)
            requires
                b != 0,
        ;
    }
}

/// The absolute value of an integer.
pub open spec fn abs(x: int) -> int {
    if x < 0 { -x } else { x }
}

/// Raises an integer to an integer-valued power: `base^power`, where the
/// zeroth power is one. The result must be representable.
pub fn powi(base: i32, power: usize) -> (r: i32)
    requires
        i32::MIN <= pow(base as int, power as nat) <= i32::MAX,
    ensures
        r as int == pow(base as int, power as nat),
{
    let mut t: i64 = 1;
    let mut i: usize = 0;
    proof {
        reveal(pow);
    }
    while i < power
        invariant
            i <= power,
            t as int == pow(base as int, i as nat),
            i32::MIN <= pow(base as int, power as nat) <= i32::MAX,
        decreases power - i,
    {
        proof {
            reveal(pow);
            if base == 0 {
                vstd::arithmetic::power::lemma0_pow((i + 1) as nat);
            } else {
                lemma_pow_abs_monotone(base as int, (i + 1) as nat, power as nat);
            }
            assert(pow(base as int, (i + 1) as nat) == base as int * pow(base as int, i as nat));
            assert(-0x8000_0000 <= t * base <= 0x8000_0000);
        }
        t = t * base as i64;
        i = i + 1;
    }
    t as i32
}

/// Raises a fixed-point value with `F` fractional bits to an integer-valued
/// power by repeated saturating multiplication; the zeroth power is one.
pub fn fixed_powi<const F: u32>(base: i32, power: usize) -> (r: i32)
    requires
        F <= MAX_FRAC,
    ensures
        r as int == fx_pow(base as int, power as nat, F as nat),
{
    if power == 0 {
        let d = pow2_i64(F);
        proof {
            vstd::arithmetic::power2::lemma_pow2_strictly_increases(F as nat, 31);
            vstd::arithmetic::power2::lemma2_to64();
        }
        return d as i32;
    }
    let mut t: i32 = base;
    let mut i: usize = 1;
    while i < power
        invariant
            1 <= i <= power,
            F <= MAX_FRAC,
            t as int == fx_pow(base as int, i as nat, F as nat),
        decreases power - i,
    {
        t = mul_fx(t, base, F);
        i = i + 1;
    }
    t
}

/// One step of Heron's method for the square root of `n`: the mean of the
/// estimate `x` and the quotient `n / x`, both rounded down.
pub open spec fn heron_step(n: int, x: int) -> int {
    (x + n / x) / 2
}

/// Heron's iteration for the square root of `n` from the estimate `x`: while
/// the estimate exceeds the quotient `n / x` by at least `error`, it is
/// replaced by [`heron_step`]. The result is the last estimate.
pub open spec fn heron(n: int, error: int, x: int) -> int
    decreases x,
{
    if x >= 1 && n >= 0 && error >= 1 && x - n / x >= error {
        heron(n, error, heron_step(n, x))
    } else {
        x
    }
}

/// The bits of the fixed-point square root of `item` (with `f` fractional
/// bits) by Heron's method: the estimate starts at `item / 2` (at least one
/// unit of the last place), takes one step, and iterates until the
/// improvement is below `error`; the result saturates. A value that is not
/// positive has the root zero.
pub open spec fn sqrt_fx(item: int, error: int, f: nat) -> int {
    if item <= 0 {
        0
    } else {
        let n = item * pow2(f);
        let x0 = if item / 2 >= 1 { item / 2 } else { 1 };
        clamp(heron(n, error, heron_step(n, x0)))
    }
}

/// A step from any positive estimate lands on or above the floor of the
/// square root: `n < (heron_step(n, x) + 1)^2`.
proof fn lemma_heron_step_above(n: int, x: int)
    requires
        n >= 1,
        x >= 1,
    ensures
        n < (heron_step(n, x) + 1) * (heron_step(n, x) + 1),
        heron_step(n, x) >= 1,
{
    let q = n / x;
    let m = n % x;
    let s = heron_step(n, x) + 1;
    vstd::arithmetic::div_mod::lemma_fundamental_div_mod(n, x);
    vstd::arithmetic::div_mod::lemma_div_pos_is_pos(n, x);
    assert(x + q <= 2 * s - 1);
    if s * s <= n {
        assert(n < x * (q + 1)) by (nonlinear_arith)
            requires
                n == x * q + m,
                m < x,
        ;
        assert(x * (q + 1) <= x * (2 * s - x)) by (nonlinear_arith)
            requires
                x >= 1,
                q + 1 <= 2 * s - x,
        ;
        assert(x * (2 * s - x) <= s * s) by (nonlinear_arith);
    }
    assert(s >= 2) by (nonlinear_arith)
        requires
            n < s * s,
            n >= 1,
            s >= 1,
    ;
}

/// Heron's iteration, started on or above the floor of the square root,
/// stays there, never grows, and stops with the estimate less than `error`
/// above the quotient.
proof fn lemma_heron(n: int, error: int, x: int)
    requires
        n >= 1,
        error >= 1,
        x >= 1,
        n < (x + 1) * (x + 1),
    ensures
        heron(n, error, x) >= 1,
        heron(n, error, x) <= x,
        n < (heron(n, error, x) + 1) * (heron(n, error, x) + 1),
        heron(n, error, x) - n / heron(n, error, x) < error,
    decreases x,
{
    if x - n / x >= error {
        lemma_heron_step_above(n, x);
        vstd::arithmetic::div_mod::lemma_div_pos_is_pos(n, x);
        lemma_heron(n, error, heron_step(n, x));
    }
}

/// How close the square root comes: with `n = item * 2^f` and `r` the
/// result, `r` is at least the floor of `sqrt(n)` and less than
/// `sqrt(n) + error`; with a tolerance of one it is exactly the floor.
pub proof fn lemma_sqrt_accuracy(item: int, error: int, f: nat)
    requires
        item > 0,
        item <= i32::MAX,
        error >= 1,
        f <= 30,
    ensures
        item * pow2(f) < (sqrt_fx(item, error, f) + 1) * (sqrt_fx(item, error, f) + 1),
        sqrt_fx(item, error, f) < error || (sqrt_fx(item, error, f) - error) * (sqrt_fx(
            item,
            error,
            f,
        ) - error) < item * pow2(f),
        error == 1 ==> sqrt_fx(item, error, f) * sqrt_fx(item, error, f) <= item * pow2(f),
        sqrt_fx(item, error, f) >= 1,
{
    let n = item * pow2(f);
    vstd::arithmetic::power2::lemma_pow2_pos(f);
    if f < 30 {
        vstd::arithmetic::power2::lemma_pow2_strictly_increases(f, 30);
    }
    vstd::arithmetic::power2::lemma2_to64();
    assert(1 <= n <= 0x7fff_ffff * 0x4000_0000) by (nonlinear_arith)
        requires
            n == item * pow2(f),
            1 <= item <= 0x7fff_ffff,
            1 <= pow2(f) <= 0x4000_0000,
    ;
    let x0 = if item / 2 >= 1 { item / 2 } else { 1 };
    lemma_heron_step_above(n, x0);
    let x1 = heron_step(n, x0);
    lemma_heron(n, error, x1);
    let root = heron(n, error, x1);
    let q = n / root;
    let r = sqrt_fx(item, error, f);
    assert(r == clamp(root));
    vstd::arithmetic::div_mod::lemma_fundamental_div_mod(n, root);
    vstd::arithmetic::div_mod::lemma_div_pos_is_pos(n, root);
    assert(root * q <= n) by (nonlinear_arith)
        requires
            n == root * q + n % root,
            n % root >= 0,
    ;
    // below the bound of `i32` the result is the estimate itself
    if root > i32::MAX {
        assert(n < (r + 1) * (r + 1)) by (nonlinear_arith)
            requires
                r == 0x7fff_ffff,
                n <= 0x7fff_ffff * 0x4000_0000,
        ;
    }
    if root - error >= 0 {
        assert((root - error) * (root - error) < n) by (nonlinear_arith)
            requires
                root - q < error,
                root - error >= 0,
                root * q <= n,
                n >= 1,
                q >= 0,
                error >= 1,
        ;
        if r - error >= 0 {
            assert((r - error) * (r - error) <= (root - error) * (root - error))
                by (nonlinear_arith)
                requires
                    0 <= r - error <= root - error,
            ;
        }
    }
    if error == 1 {
        assert(root * root <= n) by (nonlinear_arith)
            requires
                root <= q,
                root >= 1,
                root * q <= n,
        ;
        assert(root <= i32::MAX) by (nonlinear_arith)
            requires
                root * root <= n,
                n <= 0x7fff_ffff * 0x4000_0000,
                root >= 1,
        ;
    }
}

/// Numerical square root of a fixed-point value with `F` fractional bits by
/// Heron's (Babylonian) method: from the estimate `item / 2`, repeat
/// `root = (root + item / root) / 2` until the improvement is below `error`,
/// the greatest allowed error in the same format, at least one unit of the
/// last place. The result `r` lies within `[sqrt(x) - ulp, sqrt(x) + error)`
/// for the value `x`; with a tolerance of one unit it is the floor of the
/// exact root. A value that is not positive gives zero.
pub fn sqrt<const F: u32>(item: i32, error: i32) -> (r: i32)
    requires
        F <= MAX_FRAC,
        error >= 1,
    ensures
        r as int == sqrt_fx(item as int, error as int, F as nat),
        r >= 0,
        item > 0 ==> item * pow2(F as nat) < (r + 1) * (r + 1),
        item > 0 ==> r < error || (r - error) * (r - error) < item * pow2(F as nat),
        item > 0 && error == 1 ==> r * r <= item * pow2(F as nat),
{
    if item <= 0 {
        return 0;
    }
    proof {
        lemma_sqrt_accuracy(item as int, error as int, F as nat);
    }
    let d = pow2_i64(F);
    proof {
        vstd::arithmetic::power2::lemma_pow2_strictly_increases(F as nat, 31);
        vstd::arithmetic::power2::lemma2_to64();
        assert(1 <= item * d <= 0x7fff_ffff * 0x8000_0000) by (nonlinear_arith)
            requires
                1 <= item <= 0x7fff_ffff,
                1 <= d <= 0x8000_0000,
        ;
    }
    let n: i64 = item as i64 * d;
    let x0: i64 = if item / 2 >= 1 { (item / 2) as i64 } else { 1 };
    proof {
        vstd::arithmetic::div_mod::lemma_div_is_ordered_by_denominator(n as int, 1, x0 as int);
        lemma_heron_step_above(n as int, x0 as int);
    }
    let mut root: i64 = (x0 + n / x0) / 2;
    let ghost start = root as int;
    proof {
        assert(x0 <= 0x4000_0000);
        assert(start <= 0x4000_0000_0000_0000);
        lemma_heron(n as int, error as int, start);
    }
    while error as i64 <= root - n / root
        invariant
            n >= 1,
            error >= 1,
            1 <= root <= start,
            start <= 0x4000_0000_0000_0000,
            n < (root + 1) * (root + 1),
            heron(n as int, error as int, root as int) == heron(n as int, error as int, start),
        decreases root,
    {
        proof {
            lemma_heron_step_above(n as int, root as int);
            vstd::arithmetic::div_mod::lemma_div_pos_is_pos(n as int, root as int);
        }
        root = (root + n / root) / 2;
    }
    clamp_i64(root)
}

/// Rounds `num / 1_000_000` to `f` fractional bits, to nearest.
pub open spec fn coef_fx(num: int, f: nat) -> int {
    (num * pow2(f) + 500_000) / 1_000_000
}

/// The rational approximation of the arc tangent in fixed point:
/// `(x + 0.372003 x^3) / (1 + 0.703384 x^2 + 0.043562 x^4)`, each step
/// rounded and saturated as the scalar operations are.
pub open spec fn atan_fx(x: int, f: nat) -> int {
    let num = fx_add(x, fx_mul(coef_fx(372_003, f), fx_pow(x, 3, f), f));
    let den = fx_add(
        fx_add(clamp(one_bits(f)), fx_mul(coef_fx(703_384, f), fx_pow(x, 2, f), f)),
        fx_mul(coef_fx(43_562, f), fx_pow(x, 4, f), f),
    );
    fx_div(num, den, f)
}

/// `atan2` by the same approximation applied to `y / x`. Where `x` is zero
/// the angle is π/2 with the sign of `y`, or zero where `y` is zero too.
pub open spec fn atan2_fx(y: int, x: int, f: nat) -> int {
    if x == 0 {
        if y > 0 {
            pi_half_fx(f)
        } else if y < 0 {
            -pi_half_fx(f)
        } else {
            0
        }
    } else {
        atan_fx(fx_div(y, x, f), f)
    }
}

/// A coefficient `num / 1_000_000` with `F` fractional bits.
fn coef<const F: u32>(num: i64) -> (r: i32)
    requires
        F <= MAX_FRAC,
        0 <= num <= 1_000_000,
    ensures
        r as int == coef_fx(num as int, F as nat),
{
    let d = pow2_i64(F);
    proof {
        vstd::arithmetic::power2::lemma_pow2_strictly_increases(F as nat, 31);
        vstd::arithmetic::power2::lemma2_to64();
        assert(0 <= num * d <= 1_000_000 * 0x7FFF_FFFF) by (nonlinear_arith)
            requires
                0 <= num <= 1_000_000,
                0 < d <= 0x7FFF_FFFF,
        ;
    }
    let v: i64 = (num * d + 500_000) / 1_000_000;
    proof {
        vstd::arithmetic::div_mod::lemma_div_is_ordered(
            (num * d + 500_000) as int,
            (1_000_000 * 0x7FFF_FFFF + 500_000) as int,
            1_000_000,
        );
        vstd::arithmetic::div_mod::lemma_div_pos_is_pos((num * d + 500_000) as int, 1_000_000);
    }
    v as i32
}

/// Arc tangent of `x` by the rational approximation
/// `(x + 0.372003 x^3) / (1 + 0.703384 x^2 + 0.043562 x^4)` in fixed point
/// with `F` fractional bits. Accurate within 0.003 degrees when the angle is
/// within ±π/4.
pub fn atan_precise_fixed<const F: u32>(x: i32) -> (r: i32)
    requires
        F <= MAX_FRAC,
    ensures
        r as int == atan_fx(x as int, F as nat),
{
    let c1 = coef::<F>(372_003);
    let c2 = coef::<F>(703_384);
    let c3 = coef::<F>(43_562);
    let num = add_fx(x, mul_fx(c1, fixed_powi::<F>(x, 3), F));
    let one = fixed_powi::<F>(x, 0);
    let den = add_fx(
        add_fx(one, mul_fx(c2, fixed_powi::<F>(x, 2), F)),
        mul_fx(c3, fixed_powi::<F>(x, 4), F),
    );
    div_fx(num, den, F)
}

/// Arc tangent of `y / x` by the approximation of [`atan_precise_fixed`].
/// Where `x` is zero the result is π/2 with the sign of `y` (zero for a zero
/// `y`), rather than a division by zero.
pub fn atan2_precise_fixed<const F: u32>(y: i32, x: i32) -> (r: i32)
    requires
        F <= MAX_FRAC,
    ensures
        r as int == atan2_fx(y as int, x as int, F as nat),
{
    if x == 0 {
        if y > 0 {
            pi_half::<F>()
        } else if y < 0 {
            -pi_half::<F>()
        } else {
            0
        }
    } else {
        atan_precise_fixed::<F>(div_fx(y, x, F))
    }
}

} // verus!
