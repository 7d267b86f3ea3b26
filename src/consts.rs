//! Numeric constants for the trigonometric routines, in any fixed-point
//! format: π and π/2 rounded down to `F` fractional bits.
use vstd::prelude::*;
use vstd::arithmetic::power2::pow2;
use crate::scalar::pow2_u64;

verus! {

/// π with 126 fractional bits, as `fixed` stores it.
pub const PI_U2F126: u128 = 0xC90F_DAA2_2168_C234_C4C6_628B_80DC_1CD1;

/// Relies on `fixed::consts::PI`, a `U2F126`: its raw bits are π with 126
/// fractional bits.
#[verifier::external_body]
fn pi_u2f126_bits() -> (r: u128)
    ensures
        r == PI_U2F126,
{
    fixed::consts::PI.to_bits()
}

/// π with `f` fractional bits, rounded toward negative infinity as `fixed`
/// converts between formats.
pub open spec fn pi_fx(f: nat) -> int {
    PI_U2F126 as int / pow2((126 - f) as nat) as int
}

/// π/2 with `f` fractional bits, rounded toward negative infinity.
pub open spec fn pi_half_fx(f: nat) -> int {
    PI_U2F126 as int / pow2((127 - f) as nat) as int
}

/// `x / d < a` whenever `0 <= x < a * d`.
proof fn lemma_div_below(x: int, a: int, d: int)
    requires
        0 <= x < a * d,
        d > 0,
    ensures
        x / d < a,
{
    vstd::arithmetic::div_mod::lemma_fundamental_div_mod(x, d);
    assert(x / d < a) by (nonlinear_arith)
        requires
            x == d * (x / d) + x % d,
            0 <= x % d,
            x < a * d,
            d > 0,
    ;
}

/// `fixed`'s bits of π shifted right by at most 127 stay positive.
proof fn lemma_pi_bits_positive(k: nat)
    requires
        k <= 127,
    ensures
        PI_U2F126 as int / pow2(k) as int >= 1,
{
    let d = pow2(k) as int;
    vstd::arithmetic::power2::lemma_pow2_pos(k);
    if k < 127 {
        vstd::arithmetic::power2::lemma_pow2_strictly_increases(k, 127);
    }
    assert(pow2(127) == 0x8000_0000_0000_0000_0000_0000_0000_0000) by {
        vstd::arithmetic::power2::lemma2_to64_rest();
        vstd::arithmetic::power2::lemma_pow2_adds(64, 63);
        vstd::arithmetic::power2::lemma2_to64();
    }
    vstd::arithmetic::div_mod::lemma_div_is_ordered(d, PI_U2F126 as int, d);
    vstd::arithmetic::div_mod::lemma_div_by_self(d);
}

/// `fixed`'s bits of π shifted right by `64 + k`, that is π with `62 - k`
/// fractional bits (rounded down), computed from its top 64 bits.
fn pi_shifted(k: u32) -> (r: u64)
    requires
        k <= 63,
    ensures
        r as int == PI_U2F126 as int / pow2((64 + k) as nat) as int,
        r as int <= 0xFFFF_FFFF_FFFF_FFFF as int / pow2(k as nat) as int,
{
    let b = pi_u2f126_bits();
    let top: u64 = (b / 0x1_0000_0000_0000_0000u128) as u64;
    let d = pow2_u64(k);
    proof {
        vstd::arithmetic::power2::lemma2_to64_rest();
        vstd::arithmetic::power2::lemma_pow2_adds(64, k as nat);
        vstd::arithmetic::power2::lemma_pow2_pos(k as nat);
        vstd::arithmetic::div_mod::lemma_div_denominator(
            b as int,
            pow2(64) as int,
            pow2(k as nat) as int,
        );
        vstd::arithmetic::div_mod::lemma_div_is_ordered(
            top as int,
            0xFFFF_FFFF_FFFF_FFFF,
            d as int,
        );
    }
    top / d
}

/// π with `F` fractional bits, rounded down.
pub fn pi<const F: u32>() -> (r: i32)
    requires
        F <= 29,
    ensures
        r as int == pi_fx(F as nat),
        r > 0,
{
    let v = pi_shifted(62 - F);
    proof {
        lemma_pi_bits_positive((126 - F) as nat);
        vstd::arithmetic::power2::lemma2_to64();
        vstd::arithmetic::power2::lemma2_to64_rest();
        vstd::arithmetic::power2::lemma_pow2_adds((F + 2) as nat, (62 - F) as nat);
        vstd::arithmetic::power2::lemma_pow2_strictly_increases((F + 2) as nat, 32);
        lemma_div_below(
            0xFFFF_FFFF_FFFF_FFFF,
            pow2((F + 2) as nat) as int,
            pow2((62 - F) as nat) as int,
        );
    }
    v as i32
}

/// π/2 with `F` fractional bits, rounded down.
pub fn pi_half<const F: u32>() -> (r: i32)
    requires
        F <= 30,
    ensures
        r as int == pi_half_fx(F as nat),
        r > 0,
{
    let v = pi_shifted(63 - F);
    proof {
        lemma_pi_bits_positive((127 - F) as nat);
        vstd::arithmetic::power2::lemma2_to64();
        vstd::arithmetic::power2::lemma2_to64_rest();
        vstd::arithmetic::power2::lemma_pow2_adds((F + 1) as nat, (63 - F) as nat);
        vstd::arithmetic::power2::lemma_pow2_strictly_increases((F + 1) as nat, 32);
        lemma_div_below(
            0xFFFF_FFFF_FFFF_FFFF,
            pow2((F + 1) as nat) as int,
            pow2((63 - F) as nat) as int,
        );
    }
    v as i32
}

} // verus!
