//! Fixed-size arrays of real fixed-point numbers.
//!
//! `RealArray<N, F>` holds exactly `N` elements, each the raw bits of a
//! signed 32-bit fixed-point number with `F` fractional bits. All operations
//! return new arrays; arithmetic saturates at the bounds of `i32`.
use vstd::prelude::*;
use vstd::arithmetic::power2::pow2;
use crate::scalar::{
    MAX_FRAC, add_fx, clamp, fx_add, fx_from_int, fx_mul, fx_neg, fx_sub, fx_div, fx_div_int,
    fx_pow, mul_fx, neg_fx, sub_fx, div_fx, div_int_fx, from_int_fx, one_bits, one_fx, tdiv,
};
use crate::utility::{atan_fx, atan_precise_fixed, fixed_powi, lemma_sqrt_accuracy, sqrt, sqrt_fx};
use crate::trig::{
    ANGLE_FRAC, cos_fixed, cos_fx, lemma_wrap_phase, scaled_angle, scaled_result, sin_fixed,
    sin_fx, sin_scaled, tan_fixed, tan_poly, tan_scaled, wrap_fx, wrap_phase_scalar,
};
use crate::consts::{pi, pi_fx};
use crate::trait_definitions::{
    Atan, Cos, Format, Initializers, Len, New, Pow, Ramp, Sin, Tan, WrapPhase,
};

verus! {

/// An array of `N` real fixed-point numbers with `F` fractional bits.
#[derive(Clone, Copy, Debug, PartialEq, Eq)]
pub struct RealArray<const N: usize, const F: u32> {
    /// The raw bits of the elements; index 0 is the front, `N - 1` the back.
    pub data: [i32; N],
}

impl<const N: usize, const F: u32> Format for RealArray<N, F> {
    /// One and π are representable when at most 29 bits are fractional.
    open spec fn format_ok() -> bool {
        F <= 29
    }
}

impl<const N: usize, const F: u32> New<i32> for RealArray<N, F> {
    /// An array whose every element has the raw bits `value`.
    fn new(value: i32) -> (r: Self)
        ensures
            forall|i: int| 0 <= i < N ==> r.data@[i] == value,
    {
        RealArray { data: [value; N] }
    }
}

impl<const N: usize, const F: u32> Initializers for RealArray<N, F> {
    /// An array of ones.
    fn ones() -> (r: Self)
        ensures
            forall|i: int| 0 <= i < N ==> r.data@[i] as int == one_bits(F as nat),
    {
        let one = one_fx(F);
        RealArray { data: [one; N] }
    }

    /// An array of zeros.
    fn zeros() -> (r: Self)
        ensures
            forall|i: int| 0 <= i < N ==> r.data@[i] == 0,
    {
        RealArray { data: [0i32; N] }
    }
}

/// Division by an integer with the library's zero policy: a zero dividend
/// gives zero, otherwise a zero divisor gives the largest value.
pub open spec fn div_int_policy(a: int, k: int) -> int {
    if a == 0 {
        0
    } else if k == 0 {
        i32::MAX as int
    } else {
        fx_div_int(a, k)
    }
}

/// The exact sum of the first `n` elements of `s`.
pub open spec fn sum_prefix(s: Seq<i32>, n: int) -> int
    decreases n,
{
    if n <= 0 {
        0
    } else {
        sum_prefix(s, n - 1) + s[n - 1] as int
    }
}

/// The exact sum, over the first `n` elements of `s`, of the squared
/// deviation from `m` as the fixed-point operations compute it.
pub open spec fn sq_dev_prefix(s: Seq<i32>, m: int, f: nat, n: int) -> int
    decreases n,
{
    if n <= 0 {
        0
    } else {
        sq_dev_prefix(s, m, f, n - 1) + fx_pow(fx_sub(s[n - 1] as int, m), 2, f)
    }
}

/// The largest of the first `n` elements of `s`, or `i32::MIN` for none.
pub open spec fn max_prefix(s: Seq<i32>, n: int) -> int
    decreases n,
{
    if n <= 0 {
        i32::MIN as int
    } else if max_prefix(s, n - 1) < s[n - 1] {
        s[n - 1] as int
    } else {
        max_prefix(s, n - 1)
    }
}

/// The smallest of the first `n` elements of `s`, or `i32::MAX` for none.
pub open spec fn min_prefix(s: Seq<i32>, n: int) -> int
    decreases n,
{
    if n <= 0 {
        i32::MAX as int
    } else if s[n - 1] < min_prefix(s, n - 1) {
        s[n - 1] as int
    } else {
        min_prefix(s, n - 1)
    }
}

/// The first index among the first `n` elements of `s` that holds their
/// largest value, found by a scan that only moves on a strictly greater value.
pub open spec fn argmax_prefix(s: Seq<i32>, n: int) -> int
    decreases n,
{
    if n <= 0 {
        0
    } else if max_prefix(s, n - 1) < s[n - 1] {
        n - 1
    } else {
        argmax_prefix(s, n - 1)
    }
}

/// The first index among the first `n` elements of `s` that holds their
/// smallest value.
pub open spec fn argmin_prefix(s: Seq<i32>, n: int) -> int
    decreases n,
{
    if n <= 0 {
        0
    } else if s[n - 1] < min_prefix(s, n - 1) {
        n - 1
    } else {
        argmin_prefix(s, n - 1)
    }
}

/// The element of a ramp at index `i`: `start + i * step`, saturated.
pub open spec fn ramp_at(start: int, step: int, i: int) -> int {
    clamp(start + i * step)
}

impl<const N: usize, const F: u32> Ramp<i32> for RealArray<N, F> {
    /// A linear ramp: element `i` is `start + i * step` (raw bits), saturated.
    fn ramp(start: i32, step: i32) -> (r: Self)
        ensures
            forall|i: int|
                0 <= i < N ==> r.data@[i] as int == ramp_at(start as int, step as int, i),
            forall|i: int|
                0 <= i < N && i32::MIN <= start + i * step <= i32::MAX ==> r.data@[i] as int
                    == start + i * step,
    {
        let mut out: [i32; N] = [0i32; N];
        let mut i: usize = 0;
        while i < N
            invariant
                i <= N,
                forall|j: int|
                    0 <= j < i ==> out@[j] as int == ramp_at(start as int, step as int, j),
            decreases N - i,
        {
            assert(-0x8000_0000_0000_0000_0000_0000 <= i as int * step as int
                <= 0x8000_0000_0000_0000_0000_0000) by (nonlinear_arith)
                requires
                    0 <= i <= 0xFFFF_FFFF_FFFF_FFFF,
                    -0x8000_0000 <= step <= 0x7FFF_FFFF,
            ;
            let v: i128 = start as i128 + (i as i128) * (step as i128);
            out[i] = if v < i32::MIN as i128 {
                i32::MIN
            } else if v > i32::MAX as i128 {
                i32::MAX
            } else {
                v as i32
            };
            i = i + 1;
        }
        assert forall|i: int|
            0 <= i < N && i32::MIN <= start + i * step <= i32::MAX implies out@[i] as int
                == start + i * step by {
            assert(out@[i] as int == ramp_at(start as int, step as int, i));
        }
        RealArray { data: out }
    }
}

impl<const N: usize, const F: u32> Len for RealArray<N, F> {
    /// The number of elements, `N`.
    fn len(&self) -> (r: usize)
        ensures
            r == N,
    {
        N
    }
}

impl<const N: usize, const F: u32> RealArray<N, F> {
    /// An array whose every element is the integer `value`, saturated.
    pub fn new_from_i32(value: i32) -> (r: Self)
        requires
            F <= MAX_FRAC,
        ensures
            forall|i: int| 0 <= i < N ==> r.data@[i] as int == fx_from_int(value as int, F as nat),
    {
        let v = from_int_fx(value, F);
        RealArray { data: [v; N] }
    }

    /// The element at `index`; an index past the end gives the last element.
    pub fn at(&self, index: usize) -> (r: i32)
        requires
            N > 0,
        ensures
            r == self.clipped(index as int),
    {
        if N <= index {
            self.data[N - 1]
        } else {
            self.data[index]
        }
    }

    /// The first element.
    pub fn front(&self) -> (r: i32)
        requires
            N > 0,
        ensures
            r == self.data@[0],
    {
        self.data[0]
    }

    /// The last element.
    pub fn back(&self) -> (r: i32)
        requires
            N > 0,
        ensures
            r == self.data@[N - 1],
    {
        self.data[N - 1]
    }

    /// The element at `index`, which must be in range.
    pub fn get(&self, index: usize) -> (r: i32)
        requires
            index < N,
        ensures
            r == self.data@[index as int],
    {
        self.data[index]
    }

    /// Replaces the element at `index`, which must be in range.
    pub fn set(&mut self, index: usize, value: i32)
        requires
            index < N,
        ensures
            final(self).data@ == old(self).data@.update(index as int, value),
    {
        self.data[index] = value;
    }

    /// Adds the bias `value` to every element, saturating.
    pub fn bias(&self, value: i32) -> (r: Self)
        ensures
            forall|i: int|
                0 <= i < N ==> r.data@[i] as int == fx_add(self.data@[i] as int, value as int),
    {
        let mut out: [i32; N] = [0i32; N];
        let mut i: usize = 0;
        while i < N
            invariant
                i <= N,
                forall|j: int|
                    0 <= j < i ==> out@[j] as int == fx_add(self.data@[j] as int, value as int),
            decreases N - i,
        {
            out[i] = add_fx(self.data[i], value);
            i = i + 1;
        }
        RealArray { data: out }
    }

    /// Multiplies every element by the fixed-point `value`, saturating.
    pub fn scale(&self, value: i32) -> (r: Self)
        requires
            F <= MAX_FRAC,
        ensures
            forall|i: int|
                0 <= i < N ==> r.data@[i] as int
                    == fx_mul(self.data@[i] as int, value as int, F as nat),
    {
        let mut out: [i32; N] = [0i32; N];
        let mut i: usize = 0;
        while i < N
            invariant
                i <= N,
                F <= MAX_FRAC,
                forall|j: int|
                    0 <= j < i ==> out@[j] as int
                        == fx_mul(self.data@[j] as int, value as int, F as nat),
            decreases N - i,
        {
            out[i] = mul_fx(self.data[i], value, F);
            i = i + 1;
        }
        RealArray { data: out }
    }

    /// Element-wise sum with `other`, saturating.
    pub fn add_array(&self, other: &Self) -> (r: Self)
        ensures
            forall|i: int|
                0 <= i < N ==> r.data@[i] as int
                    == fx_add(self.data@[i] as int, other.data@[i] as int),
    {
        let mut out: [i32; N] = [0i32; N];
        let mut i: usize = 0;
        while i < N
            invariant
                i <= N,
                forall|j: int|
                    0 <= j < i ==> out@[j] as int
                        == fx_add(self.data@[j] as int, other.data@[j] as int),
            decreases N - i,
        {
            out[i] = add_fx(self.data[i], other.data[i]);
            i = i + 1;
        }
        RealArray { data: out }
    }

    /// Element-wise difference `self - other`, saturating.
    pub fn sub_array(&self, other: &Self) -> (r: Self)
        ensures
            forall|i: int|
                0 <= i < N ==> r.data@[i] as int
                    == fx_sub(self.data@[i] as int, other.data@[i] as int),
    {
        let mut out: [i32; N] = [0i32; N];
        let mut i: usize = 0;
        while i < N
            invariant
                i <= N,
                forall|j: int|
                    0 <= j < i ==> out@[j] as int
                        == fx_sub(self.data@[j] as int, other.data@[j] as int),
            decreases N - i,
        {
            out[i] = sub_fx(self.data[i], other.data[i]);
            i = i + 1;
        }
        RealArray { data: out }
    }

    /// Element-wise fixed-point product with `other`, saturating.
    pub fn mul_array(&self, other: &Self) -> (r: Self)
        requires
            F <= MAX_FRAC,
        ensures
            forall|i: int|
                0 <= i < N ==> r.data@[i] as int
                    == fx_mul(self.data@[i] as int, other.data@[i] as int, F as nat),
    {
        let mut out: [i32; N] = [0i32; N];
        let mut i: usize = 0;
        while i < N
            invariant
                i <= N,
                F <= MAX_FRAC,
                forall|j: int|
                    0 <= j < i ==> out@[j] as int
                        == fx_mul(self.data@[j] as int, other.data@[j] as int, F as nat),
            decreases N - i,
        {
            out[i] = mul_fx(self.data[i], other.data[i], F);
            i = i + 1;
        }
        RealArray { data: out }
    }

    /// Element-wise quotient `self / other`: a zero dividend gives zero,
    /// otherwise a zero divisor gives the largest value.
    pub fn div_array(&self, other: &Self) -> (r: Self)
        requires
            F <= MAX_FRAC,
        ensures
            forall|i: int|
                0 <= i < N ==> r.data@[i] as int
                    == fx_div(self.data@[i] as int, other.data@[i] as int, F as nat),
            forall|i: int| 0 <= i < N && self.data@[i] == 0 ==> r.data@[i] == 0,
            forall|i: int|
                0 <= i < N && self.data@[i] != 0 && other.data@[i] == 0 ==> r.data@[i] == i32::MAX,
    {
        let mut out: [i32; N] = [0i32; N];
        let mut i: usize = 0;
        while i < N
            invariant
                i <= N,
                F <= MAX_FRAC,
                forall|j: int|
                    0 <= j < i ==> out@[j] as int
                        == fx_div(self.data@[j] as int, other.data@[j] as int, F as nat),
            decreases N - i,
        {
            out[i] = div_fx(self.data[i], other.data[i], F);
            i = i + 1;
        }
        RealArray { data: out }
    }

    /// Adds the integer `value` to every element, saturating.
    pub fn add_int(&self, value: i32) -> (r: Self)
        requires
            F <= MAX_FRAC,
        ensures
            forall|i: int|
                0 <= i < N ==> r.data@[i] as int
                    == fx_add(self.data@[i] as int, fx_from_int(value as int, F as nat)),
    {
        let v = from_int_fx(value, F);
        let mut out: [i32; N] = [0i32; N];
        let mut i: usize = 0;
        while i < N
            invariant
                i <= N,
                v as int == fx_from_int(value as int, F as nat),
                F <= MAX_FRAC,
                forall|j: int|
                    0 <= j < i ==> out@[j] as int
                        == fx_add(self.data@[j] as int, fx_from_int(value as int, F as nat)),
            decreases N - i,
        {
            out[i] = add_fx(self.data[i], v);
            i = i + 1;
        }
        RealArray { data: out }
    }

    /// Subtracts the integer `value` from every element, saturating.
    pub fn sub_int(&self, value: i32) -> (r: Self)
        requires
            F <= MAX_FRAC,
        ensures
            forall|i: int|
                0 <= i < N ==> r.data@[i] as int
                    == fx_add(self.data@[i] as int, fx_neg(fx_from_int(value as int, F as nat))),
    {
        let v = neg_fx(from_int_fx(value, F));
        let mut out: [i32; N] = [0i32; N];
        let mut i: usize = 0;
        while i < N
            invariant
                i <= N,
                v as int == fx_neg(fx_from_int(value as int, F as nat)),
                F <= MAX_FRAC,
                forall|j: int|
                    0 <= j < i ==> out@[j] as int
                        == fx_add(
                            self.data@[j] as int,
                            fx_neg(fx_from_int(value as int, F as nat)),
                        ),
            decreases N - i,
        {
            out[i] = add_fx(self.data[i], v);
            i = i + 1;
        }
        RealArray { data: out }
    }

    /// Multiplies every element by the integer `value`, saturating.
    pub fn mul_int(&self, value: i32) -> (r: Self)
        requires
            F <= MAX_FRAC,
        ensures
            forall|i: int|
                0 <= i < N ==> r.data@[i] as int
                    == fx_mul(self.data@[i] as int, fx_from_int(value as int, F as nat), F as nat),
    {
        let v = from_int_fx(value, F);
        let mut out: [i32; N] = [0i32; N];
        let mut i: usize = 0;
        while i < N
            invariant
                i <= N,
                v as int == fx_from_int(value as int, F as nat),
                F <= MAX_FRAC,
                forall|j: int|
                    0 <= j < i ==> out@[j] as int
                        == fx_mul(
                            self.data@[j] as int,
                            fx_from_int(value as int, F as nat),
                            F as nat,
                        ),
            decreases N - i,
        {
            out[i] = mul_fx(self.data[i], v, F);
            i = i + 1;
        }
        RealArray { data: out }
    }

    /// Divides every element by the integer `value`, rounding toward zero:
    /// a zero element stays zero, otherwise a zero `value` gives the largest value.
    pub fn div_int(&self, value: i32) -> (r: Self)
        ensures
            forall|i: int|
                0 <= i < N ==> r.data@[i] as int
                    == div_int_policy(self.data@[i] as int, value as int),
            forall|i: int| 0 <= i < N && self.data@[i] == 0 ==> r.data@[i] == 0,
            forall|i: int|
                0 <= i < N && self.data@[i] != 0 && value == 0 ==> r.data@[i] == i32::MAX,
    {
        let mut out: [i32; N] = [0i32; N];
        let mut i: usize = 0;
        while i < N
            invariant
                i <= N,
                forall|j: int|
                    0 <= j < i ==> out@[j] as int
                        == div_int_policy(self.data@[j] as int, value as int),
            decreases N - i,
        {
            out[i] = if self.data[i] == 0 {
                0
            } else if value == 0 {
                i32::MAX
            } else {
                div_int_fx(self.data[i], value)
            };
            i = i + 1;
        }
        RealArray { data: out }
    }

    /// Divides the integer `value` by every element: a zero `value` gives
    /// zero, otherwise a zero element gives the largest value.
    #[verifier::rlimit(20)]
    pub fn int_div(&self, value: i32) -> (r: Self)
        requires
            F <= MAX_FRAC,
        ensures
            forall|i: int|
                0 <= i < N ==> r.data@[i] as int
                    == fx_div(fx_from_int(value as int, F as nat), self.data@[i] as int, F as nat),
            value == 0 ==> forall|i: int| 0 <= i < N ==> r.data@[i] == 0,
            value != 0 ==> forall|i: int|
                0 <= i < N && self.data@[i] == 0 ==> r.data@[i] == i32::MAX,
    {
        let v = from_int_fx(value, F);
        proof {
            lemma_from_int_zero(value as int, F as nat);
        }
        let mut out: [i32; N] = [0i32; N];
        let mut i: usize = 0;
        while i < N
            invariant
                i <= N,
                v as int == fx_from_int(value as int, F as nat),
                (v == 0) == (value == 0),
                F <= MAX_FRAC,
                forall|j: int|
                    0 <= j < i ==> out@[j] as int
                        == fx_div(
                            fx_from_int(value as int, F as nat),
                            self.data@[j] as int,
                            F as nat,
                        ),
            decreases N - i,
        {
            out[i] = div_fx(v, self.data[i], F);
            i = i + 1;
        }
        RealArray { data: out }
    }

    /// Subtracts every element from the integer `value`, saturating.
    pub fn int_sub(&self, value: i32) -> (r: Self)
        requires
            F <= MAX_FRAC,
        ensures
            forall|i: int|
                0 <= i < N ==> r.data@[i] as int
                    == fx_add(fx_neg(self.data@[i] as int), fx_from_int(value as int, F as nat)),
    {
        let v = from_int_fx(value, F);
        let mut out: [i32; N] = [0i32; N];
        let mut i: usize = 0;
        while i < N
            invariant
                i <= N,
                v as int == fx_from_int(value as int, F as nat),
                F <= MAX_FRAC,
                forall|j: int|
                    0 <= j < i ==> out@[j] as int
                        == fx_add(
                            fx_neg(self.data@[j] as int),
                            fx_from_int(value as int, F as nat),
                        ),
            decreases N - i,
        {
            out[i] = add_fx(neg_fx(self.data[i]), v);
            i = i + 1;
        }
        RealArray { data: out }
    }

    /// Negates every element, saturating.
    pub fn neg(&self) -> (r: Self)
        ensures
            forall|i: int| 0 <= i < N ==> r.data@[i] as int == fx_neg(self.data@[i] as int),
    {
        let mut out: [i32; N] = [0i32; N];
        let mut i: usize = 0;
        while i < N
            invariant
                i <= N,
                forall|j: int| 0 <= j < i ==> out@[j] as int == fx_neg(self.data@[j] as int),
            decreases N - i,
        {
            out[i] = neg_fx(self.data[i]);
            i = i + 1;
        }
        RealArray { data: out }
    }

    /// The element that [`RealArray::at`] returns for `index`: indexes past
    /// the end clip to the last element.
    pub open spec fn clipped(&self, index: int) -> i32 {
        self.data@[if index < N { index } else { N - 1 }]
    }

    /// The exact sum of the elements.
    pub open spec fn exact_sum(&self) -> int {
        sum_prefix(self.data@, N as int)
    }

    /// The sum as [`RealArray::sum`] returns it: saturated.
    pub open spec fn sum_value(&self) -> int {
        clamp(self.exact_sum())
    }

    /// The mean as [`RealArray::mean`] returns it: the saturated sum divided
    /// by `N`, rounded toward zero.
    pub open spec fn mean_value(&self) -> int {
        tdiv(self.sum_value(), N as int)
    }

    /// The largest element, or `i32::MIN` for an empty array.
    pub open spec fn max_value(&self) -> int {
        max_prefix(self.data@, N as int)
    }

    /// The smallest element, or `i32::MAX` for an empty array.
    pub open spec fn min_value(&self) -> int {
        min_prefix(self.data@, N as int)
    }

    /// The sum of the elements, saturated.
    pub fn sum(&self) -> (r: i32)
        ensures
            r as int == self.sum_value(),
    {
        let mut acc: i128 = 0;
        let mut i: usize = 0;
        while i < N
            invariant
                i <= N,
                acc as int == sum_prefix(self.data@, i as int),
                -(i as int) * 0x8000_0000 <= acc <= (i as int) * 0x8000_0000,
            decreases N - i,
        {
            acc = acc + self.data[i] as i128;
            i = i + 1;
        }
        if acc < i32::MIN as i128 {
            i32::MIN
        } else if acc > i32::MAX as i128 {
            i32::MAX
        } else {
            acc as i32
        }
    }

    /// The mean of the elements: the sum divided by `N`, rounded toward zero.
    pub fn mean(&self) -> (r: i32)
        requires
            N > 0,
        ensures
            r as int == self.mean_value(),
    {
        let total = self.sum();
        div_len::<N>(total)
    }

    /// The population variance: the mean, over the elements, of the squared
    /// deviation from [`RealArray::mean`], the squares summed with saturation.
    pub fn var(&self) -> (r: i32)
        requires
            N > 0,
            F <= MAX_FRAC,
        ensures
            r as int == tdiv(
                clamp(sq_dev_prefix(self.data@, self.mean_value(), F as nat, N as int)),
                N as int,
            ),
    {
        let m = self.mean();
        let mut acc: i128 = 0;
        let mut i: usize = 0;
        while i < N
            invariant
                i <= N,
                F <= MAX_FRAC,
                m as int == self.mean_value(),
                acc as int == sq_dev_prefix(self.data@, m as int, F as nat, i as int),
                -(i as int) * 0x8000_0000 <= acc <= (i as int) * 0x8000_0000,
            decreases N - i,
        {
            let d = sub_fx(self.data[i], m);
            acc = acc + fixed_powi::<F>(d, 2) as i128;
            i = i + 1;
        }
        let total: i32 = if acc < i32::MIN as i128 {
            i32::MIN
        } else if acc > i32::MAX as i128 {
            i32::MAX
        } else {
            acc as i32
        };
        div_len::<N>(total)
    }

    /// The largest element; `i32::MIN` for an empty array.
    pub fn max(&self) -> (r: i32)
        ensures
            r as int == self.max_value(),
            N > 0 ==> exists|k: int| 0 <= k < N && r == self.data@[k],
            forall|j: int| 0 <= j < N ==> self.data@[j] <= r,
    {
        let mut m: i32 = i32::MIN;
        let mut i: usize = 0;
        while i < N
            invariant
                i <= N,
                m as int == max_prefix(self.data@, i as int),
            decreases N - i,
        {
            if m < self.data[i] {
                m = self.data[i];
            }
            i = i + 1;
        }
        proof {
            if N > 0 {
                lemma_argmax_prefix(self.data@, N as int);
            }
        }
        m
    }

    /// The smallest element; `i32::MAX` for an empty array.
    pub fn min(&self) -> (r: i32)
        ensures
            r as int == self.min_value(),
            N > 0 ==> exists|k: int| 0 <= k < N && r == self.data@[k],
            forall|j: int| 0 <= j < N ==> r <= self.data@[j],
    {
        let mut m: i32 = i32::MAX;
        let mut i: usize = 0;
        while i < N
            invariant
                i <= N,
                m as int == min_prefix(self.data@, i as int),
            decreases N - i,
        {
            if self.data[i] < m {
                m = self.data[i];
            }
            i = i + 1;
        }
        proof {
            if N > 0 {
                lemma_argmin_prefix(self.data@, N as int);
            }
        }
        m
    }

    /// The index of the largest element, the first one on ties; zero for an
    /// empty array.
    pub fn argmax(&self) -> (r: usize)
        ensures
            r as int == argmax_prefix(self.data@, N as int),
            N > 0 ==> r < N && self.data@[r as int] as int == self.max_value(),
            N > 0 ==> forall|j: int| 0 <= j < N ==> self.data@[j] <= self.data@[r as int],
            N > 0 ==> forall|j: int| 0 <= j < r ==> self.data@[j] < self.data@[r as int],
    {
        let mut m: i32 = i32::MIN;
        let mut a: usize = 0;
        let mut i: usize = 0;
        while i < N
            invariant
                i <= N,
                m as int == max_prefix(self.data@, i as int),
                a as int == argmax_prefix(self.data@, i as int),
            decreases N - i,
        {
            if m < self.data[i] {
                m = self.data[i];
                a = i;
            }
            i = i + 1;
        }
        proof {
            if N > 0 {
                lemma_argmax_prefix(self.data@, N as int);
            }
        }
        a
    }

    /// The index of the smallest element, the first one on ties; zero for an
    /// empty array.
    pub fn argmin(&self) -> (r: usize)
        ensures
            r as int == argmin_prefix(self.data@, N as int),
            N > 0 ==> r < N && self.data@[r as int] as int == self.min_value(),
            N > 0 ==> forall|j: int| 0 <= j < N ==> self.data@[r as int] <= self.data@[j],
            N > 0 ==> forall|j: int| 0 <= j < r ==> self.data@[r as int] < self.data@[j],
    {
        let mut m: i32 = i32::MAX;
        let mut a: usize = 0;
        let mut i: usize = 0;
        while i < N
            invariant
                i <= N,
                m as int == min_prefix(self.data@, i as int),
                a as int == argmin_prefix(self.data@, i as int),
            decreases N - i,
        {
            if self.data[i] < m {
                m = self.data[i];
                a = i;
            }
            i = i + 1;
        }
        proof {
            if N > 0 {
                lemma_argmin_prefix(self.data@, N as int);
            }
        }
        a
    }
}


impl<const N: usize, const F: u32> RealArray<N, F> {
    /// Element-wise square root by Heron's (Babylonian) method, each root
    /// iterated until the improvement is below `error` (at least one unit of
    /// the last place): every root is at least the floor of the exact root
    /// and less than it plus `error`, and the floor itself for a tolerance of
    /// one. Elements that are not positive give zero.
    pub fn sqrt(&self, error: i32) -> (r: Self)
        requires
            F <= MAX_FRAC,
            error >= 1,
        ensures
            forall|i: int|
                0 <= i < N ==> r.data@[i] as int
                    == sqrt_fx(self.data@[i] as int, error as int, F as nat),
            forall|i: int|
                0 <= i < N && self.data@[i] > 0 ==> self.data@[i] * pow2(F as nat) < (r.data@[i]
                    + 1) * (r.data@[i] + 1),
            forall|i: int|
                0 <= i < N && self.data@[i] > 0 ==> r.data@[i] < error || (r.data@[i] - error) * (
                r.data@[i] - error) < self.data@[i] * pow2(F as nat),
            error == 1 ==> forall|i: int|
                0 <= i < N && self.data@[i] > 0 ==> r.data@[i] * r.data@[i] <= self.data@[i]
                    * pow2(F as nat),
    {
        let mut out: [i32; N] = [0i32; N];
        let mut i: usize = 0;
        while i < N
            invariant
                i <= N,
                F <= MAX_FRAC,
                error >= 1,
                forall|j: int|
                    0 <= j < i ==> out@[j] as int
                        == sqrt_fx(self.data@[j] as int, error as int, F as nat),
            decreases N - i,
        {
            out[i] = sqrt::<F>(self.data[i], error);
            i = i + 1;
        }
        assert forall|i: int| 0 <= i < N && self.data@[i] > 0 implies ({
            let x = self.data@[i] as int;
            let y = out@[i] as int;
            &&& x * pow2(F as nat) < (y + 1) * (y + 1)
            &&& (y < error || (y - error) * (y - error) < x * pow2(F as nat))
            &&& (error == 1 ==> y * y <= x * pow2(F as nat))
        }) by {
            lemma_sqrt_accuracy(self.data@[i] as int, error as int, F as nat);
        }
        RealArray { data: out }
    }

    /// Reduces every element into `[-norm_pi, norm_pi)` by whole turns of
    /// `2 * norm_pi`, where the positive `norm_pi` is the value that stands for π.
    pub fn wrap_phase_norm(&self, norm_pi: i32) -> (r: Self)
        requires
            norm_pi > 0,
        ensures
            forall|i: int|
                0 <= i < N ==> r.data@[i] as int == wrap_fx(self.data@[i] as int, norm_pi as int),
            forall|i: int| 0 <= i < N ==> -norm_pi <= #[trigger] r.data@[i] < norm_pi,
            forall|i: int|
                0 <= i < N && -norm_pi <= self.data@[i] < norm_pi ==> r.data@[i] == self.data@[i],
    {
        let mut out: [i32; N] = [0i32; N];
        let mut i: usize = 0;
        while i < N
            invariant
                i <= N,
                norm_pi > 0,
                forall|j: int|
                    0 <= j < i ==> out@[j] as int == wrap_fx(self.data@[j] as int, norm_pi as int),
            decreases N - i,
        {
            out[i] = wrap_phase_scalar(self.data[i], norm_pi);
            i = i + 1;
        }
        assert forall|i: int| 0 <= i < N implies -norm_pi <= out@[i] < norm_pi && (-norm_pi
            <= self.data@[i] < norm_pi ==> out@[i] == self.data@[i]) by {
            lemma_wrap_phase(self.data@[i] as int, norm_pi as int);
        }
        RealArray { data: out }
    }

    /// Element-wise sine of angles in units where the positive `norm_pi`
    /// stands for π, scaled so that `norm` stands for one (see [`sin_scaled`]);
    /// the elements must already be wrapped into `[-norm_pi, norm_pi)`.
    pub fn sin_norm(&self, norm_pi: i32, norm: i32) -> (r: Self)
        requires
            norm_pi > 0,
        ensures
            forall|i: int|
                0 <= i < N ==> r.data@[i] as int == scaled_result(
                    sin_fx(scaled_angle(self.data@[i] as int, norm_pi as int), ANGLE_FRAC as nat),
                    norm as int,
                ),
    {
        let mut out: [i32; N] = [0i32; N];
        let mut i: usize = 0;
        while i < N
            invariant
                i <= N,
                norm_pi > 0,
                forall|j: int|
                    0 <= j < i ==> out@[j] as int == scaled_result(
                        sin_fx(
                            scaled_angle(self.data@[j] as int, norm_pi as int),
                            ANGLE_FRAC as nat,
                        ),
                        norm as int,
                    ),
            decreases N - i,
        {
            out[i] = sin_scaled(self.data[i], norm_pi, norm);
            i = i + 1;
        }
        RealArray { data: out }
    }

    /// Element-wise tangent of angles in units where the positive `norm_pi`
    /// stands for π, scaled so that `norm` stands for one (see [`tan_scaled`]);
    /// accurate only well inside `(-norm_pi / 2, norm_pi / 2)`.
    pub fn tan_norm(&self, norm_pi: i32, norm: i32) -> (r: Self)
        requires
            norm_pi > 0,
        ensures
            forall|i: int|
                0 <= i < N ==> r.data@[i] as int == scaled_result(
                    tan_poly(scaled_angle(self.data@[i] as int, norm_pi as int), ANGLE_FRAC as nat),
                    norm as int,
                ),
    {
        let mut out: [i32; N] = [0i32; N];
        let mut i: usize = 0;
        while i < N
            invariant
                i <= N,
                norm_pi > 0,
                forall|j: int|
                    0 <= j < i ==> out@[j] as int == scaled_result(
                        tan_poly(
                            scaled_angle(self.data@[j] as int, norm_pi as int),
                            ANGLE_FRAC as nat,
                        ),
                        norm as int,
                    ),
            decreases N - i,
        {
            out[i] = tan_scaled(self.data[i], norm_pi, norm);
            i = i + 1;
        }
        RealArray { data: out }
    }
}

impl<const N: usize, const F: u32> Pow for RealArray<N, F> {
    /// Raises every element to the integer power `power` by repeated
    /// saturating multiplication; the zeroth power is one.
    fn powi(&self, power: u32) -> (r: Self)
        ensures
            forall|i: int|
                0 <= i < N ==> r.data@[i] as int
                    == fx_pow(self.data@[i] as int, power as nat, F as nat),
    {
        let mut out: [i32; N] = [0i32; N];
        let mut i: usize = 0;
        while i < N
            invariant
                i <= N,
                F <= 29,
                forall|j: int|
                    0 <= j < i ==> out@[j] as int
                        == fx_pow(self.data@[j] as int, power as nat, F as nat),
            decreases N - i,
        {
            out[i] = fixed_powi::<F>(self.data[i], power as usize);
            i = i + 1;
        }
        RealArray { data: out }
    }
}

impl<const N: usize, const F: u32> Sin for RealArray<N, F> {
    /// Element-wise sine by the mirrored ninth-order Taylor polynomial; the
    /// elements must already be wrapped into `[-π, π)` for an accurate result.
    fn sin(&self) -> (r: Self)
        ensures
            forall|i: int|
                0 <= i < N ==> r.data@[i] as int == sin_fx(self.data@[i] as int, F as nat),
    {
        let mut out: [i32; N] = [0i32; N];
        let mut i: usize = 0;
        while i < N
            invariant
                i <= N,
                F <= 29,
                forall|j: int|
                    0 <= j < i ==> out@[j] as int == sin_fx(self.data@[j] as int, F as nat),
            decreases N - i,
        {
            out[i] = sin_fixed::<F>(self.data[i]);
            i = i + 1;
        }
        RealArray { data: out }
    }
}

impl<const N: usize, const F: u32> Cos for RealArray<N, F> {
    /// Element-wise cosine by the mirrored eighth-order Taylor polynomial; the
    /// elements must already be wrapped into `[-π, π)` for an accurate result.
    fn cos(&self) -> (r: Self)
        ensures
            forall|i: int|
                0 <= i < N ==> r.data@[i] as int == cos_fx(self.data@[i] as int, F as nat),
    {
        let mut out: [i32; N] = [0i32; N];
        let mut i: usize = 0;
        while i < N
            invariant
                i <= N,
                F <= 29,
                forall|j: int|
                    0 <= j < i ==> out@[j] as int == cos_fx(self.data@[j] as int, F as nat),
            decreases N - i,
        {
            out[i] = cos_fixed::<F>(self.data[i]);
            i = i + 1;
        }
        RealArray { data: out }
    }
}

impl<const N: usize, const F: u32> Tan for RealArray<N, F> {
    /// Element-wise tangent by the fifteenth-order Taylor polynomial; accurate
    /// only well inside `(-π/2, π/2)`.
    fn tan(&self) -> (r: Self)
        ensures
            forall|i: int|
                0 <= i < N ==> r.data@[i] as int == tan_poly(self.data@[i] as int, F as nat),
    {
        let mut out: [i32; N] = [0i32; N];
        let mut i: usize = 0;
        while i < N
            invariant
                i <= N,
                F <= 29,
                forall|j: int|
                    0 <= j < i ==> out@[j] as int == tan_poly(self.data@[j] as int, F as nat),
            decreases N - i,
        {
            out[i] = tan_fixed::<F>(self.data[i]);
            i = i + 1;
        }
        RealArray { data: out }
    }
}

impl<const N: usize, const F: u32> Atan for RealArray<N, F> {
    /// Element-wise arc tangent by the rational approximation, accurate within
    /// 0.003 degrees for angles within ±π/4.
    fn atan(&self) -> (r: Self)
        ensures
            forall|i: int|
                0 <= i < N ==> r.data@[i] as int == atan_fx(self.data@[i] as int, F as nat),
    {
        let mut out: [i32; N] = [0i32; N];
        let mut i: usize = 0;
        while i < N
            invariant
                i <= N,
                F <= 29,
                forall|j: int|
                    0 <= j < i ==> out@[j] as int == atan_fx(self.data@[j] as int, F as nat),
            decreases N - i,
        {
            out[i] = atan_precise_fixed::<F>(self.data[i]);
            i = i + 1;
        }
        RealArray { data: out }
    }
}

impl<const N: usize, const F: u32> WrapPhase for RealArray<N, F> {
    /// Reduces every element into `[-π, π)` by whole turns of 2π, with π
    /// rounded down to the array's format.
    fn wrap_phase(&self) -> (r: Self)
        ensures
            forall|i: int|
                0 <= i < N ==> r.data@[i] as int == wrap_fx(self.data@[i] as int, pi_fx(F as nat)),
            forall|i: int|
                0 <= i < N ==> -pi_fx(F as nat) <= #[trigger] r.data@[i] < pi_fx(F as nat),
            forall|i: int|
                0 <= i < N && -pi_fx(F as nat) <= self.data@[i] < pi_fx(F as nat) ==> r.data@[i]
                    == self.data@[i],
    {
        let pi = pi::<F>();
        let mut out: [i32; N] = [0i32; N];
        let mut i: usize = 0;
        while i < N
            invariant
                i <= N,
                pi as int == pi_fx(F as nat),
                pi > 0,
                F <= 29,
                forall|j: int|
                    0 <= j < i ==> out@[j] as int == wrap_fx(self.data@[j] as int, pi_fx(F as nat)),
            decreases N - i,
        {
            out[i] = wrap_phase_scalar(self.data[i], pi);
            i = i + 1;
        }
        assert forall|i: int| 0 <= i < N implies -pi as int <= out@[i] < pi as int && (-pi as int
            <= self.data@[i] < pi as int ==> out@[i] == self.data@[i]) by {
            lemma_wrap_phase(self.data@[i] as int, pi as int);
        }
        RealArray { data: out }
    }
}

/// `v` divided by the length `N`, rounded toward zero.
fn div_len<const N: usize>(v: i32) -> (r: i32)
    requires
        N > 0,
    ensures
        r as int == tdiv(v as int, N as int),
{
    let n: i128 = N as i128;
    let a: i128 = v as i128;
    let q: i128 = if a >= 0 {
        a / n
    } else {
        -((-a) / n)
    };
    proof {
        let ua: int = if a < 0 { -(a as int) } else { a as int };
        vstd::arithmetic::div_mod::lemma_div_is_ordered_by_denominator(ua as int, 1, n as int);
        vstd::arithmetic::div_mod::lemma_div_pos_is_pos(ua as int, n as int);
    }
    q as i32
}

/// An integer converts to zero exactly when it is zero.
proof fn lemma_from_int_zero(v: int, f: nat)
    ensures
        (fx_from_int(v, f) == 0) == (v == 0),
{
    vstd::arithmetic::power2::lemma_pow2_pos(f);
    let p = pow2(f) as int;
    assert((v * p == 0) == (v == 0)) by (nonlinear_arith)
        requires
            p > 0,
    ;
}

/// Scanning the first `n` elements for the largest: the index found is in
/// range, holds the largest value, and every earlier element is strictly
/// smaller.
proof fn lemma_argmax_prefix(s: Seq<i32>, n: int)
    requires
        0 < n <= s.len(),
    ensures
        0 <= argmax_prefix(s, n) < n,
        s[argmax_prefix(s, n)] as int == max_prefix(s, n),
        forall|j: int| 0 <= j < n ==> s[j] <= max_prefix(s, n),
        forall|j: int| 0 <= j < argmax_prefix(s, n) ==> s[j] < max_prefix(s, n),
    decreases n,
{
    if n > 1 {
        lemma_argmax_prefix(s, n - 1);
    } else {
        assert(max_prefix(s, 0) == i32::MIN);
        assert(argmax_prefix(s, 0) == 0);
    }
}

/// Scanning the first `n` elements for the smallest: the index found is in
/// range, holds the smallest value, and every earlier element is strictly
/// greater.
proof fn lemma_argmin_prefix(s: Seq<i32>, n: int)
    requires
        0 < n <= s.len(),
    ensures
        0 <= argmin_prefix(s, n) < n,
        s[argmin_prefix(s, n)] as int == min_prefix(s, n),
        forall|j: int| 0 <= j < n ==> min_prefix(s, n) <= s[j],
        forall|j: int| 0 <= j < argmin_prefix(s, n) ==> min_prefix(s, n) < s[j],
    decreases n,
{
    if n > 1 {
        lemma_argmin_prefix(s, n - 1);
    } else {
        assert(min_prefix(s, 0) == i32::MAX);
        assert(argmin_prefix(s, 0) == 0);
    }
}

/// Clipping: reading past the end gives the last element, the same as
/// reading index `N - 1` and as the back of the array.
pub proof fn lemma_clipping<const N: usize, const F: u32>(a: RealArray<N, F>, index: int)
    requires
        N > 0,
        index >= N,
    ensures
        a.clipped(index) == a.clipped(N - 1),
        a.clipped(N - 1) == a.data@[N - 1],
{
}

/// The mean is the sum divided by the length, rounded toward zero.
pub proof fn lemma_mean_is_sum_over_len<const N: usize, const F: u32>(a: RealArray<N, F>)
    requires
        N > 0,
    ensures
        a.mean_value() == tdiv(a.sum_value(), N as int),
{
}

/// The index of the maximum holds the maximum, every element is at most the
/// maximum, and no earlier index holds a value equal to or greater than it.
pub proof fn lemma_argmax_is_first_max<const N: usize, const F: u32>(a: RealArray<N, F>)
    requires
        N > 0,
    ensures
        0 <= argmax_prefix(a.data@, N as int) < N,
        a.data@[argmax_prefix(a.data@, N as int)] as int == a.max_value(),
        forall|j: int| 0 <= j < N ==> a.data@[j] <= a.max_value(),
        forall|j: int| 0 <= j < argmax_prefix(a.data@, N as int) ==> a.data@[j] < a.max_value(),
{
    lemma_argmax_prefix(a.data@, N as int);
}

/// The index of the minimum holds the minimum, every element is at least the
/// minimum, and no earlier index holds a value equal to or smaller than it.
pub proof fn lemma_argmin_is_first_min<const N: usize, const F: u32>(a: RealArray<N, F>)
    requires
        N > 0,
    ensures
        0 <= argmin_prefix(a.data@, N as int) < N,
        a.data@[argmin_prefix(a.data@, N as int)] as int == a.min_value(),
        forall|j: int| 0 <= j < N ==> a.min_value() <= a.data@[j],
        forall|j: int| 0 <= j < argmin_prefix(a.data@, N as int) ==> a.min_value() < a.data@[j],
{
    lemma_argmin_prefix(a.data@, N as int);
}

/// A ramp of integers followed by the square root with a tolerance of one:
/// each element is `start + i * step` (where that is representable), and its
/// root is the floor of the exact square root.
pub proof fn lemma_ramp_sqrt_is_floor(start: int, step: int, i: int)
    requires
        1 <= start + i * step <= i32::MAX,
    ensures
        ramp_at(start, step, i) == start + i * step,
        sqrt_fx(ramp_at(start, step, i), 1, 0) * sqrt_fx(ramp_at(start, step, i), 1, 0) <= start
            + i * step,
        start + i * step < (sqrt_fx(ramp_at(start, step, i), 1, 0) + 1) * (sqrt_fx(
            ramp_at(start, step, i),
            1,
            0,
        ) + 1),
{
    vstd::arithmetic::power2::lemma2_to64();
    lemma_sqrt_accuracy(start + i * step, 1, 0);
}

} // verus!
