//! Integer forms of the scalar helpers: plain `i32` values, no fractional bits.
use vstd::prelude::*;
use vstd::arithmetic::power::pow;
use crate::utility::sqrt_fx;

verus! {

/// Raises an integer to an integer-valued power: `base^power`, where the
/// zeroth power is one. The result must be representable.
pub fn powi(base: i32, power: u32) -> (r: i32)
    requires
        i32::MIN <= pow(base as int, power as nat) <= i32::MAX,
    ensures
        r as int == pow(base as int, power as nat),
{
    crate::utility::powi(base, power as usize)
}

/// Integer square root by Heron's (Babylonian) method with a tolerance of
/// one: the floor of the exact square root. A value that is not positive
/// gives zero.
pub fn sqrt(item: i32) -> (r: i32)
    ensures
        r as int == sqrt_fx(item as int, 1, 0),
        r >= 0,
        item >= 1 ==> r * r <= item < (r + 1) * (r + 1),
{
    proof {
        vstd::arithmetic::power2::lemma2_to64();
    }
    crate::utility::sqrt::<0>(item, 1)
}

} // verus!
