//! Complex scalars and fixed-size arrays of complex fixed-point numbers.
//!
//! A `ComplexArray<N, F>` holds `N` interleaved (real, imaginary) pairs,
//! each component the raw bits of a fixed-point number with `F` fractional
//! bits, as in [`RealArray`]. Its projections are real arrays of the same
//! length and format.
use vstd::prelude::*;
use vstd::arithmetic::power2::pow2;
use crate::real_array::RealArray;
use crate::scalar::{MAX_FRAC, add_fx, from_int_fx, fx_add, fx_from_int, fx_pow, pow2_i64};
use crate::trait_definitions::{ComplexCartesian, Len, NewComplex};
use crate::utility::{atan2_fx, atan2_precise_fixed, fixed_powi, sqrt, sqrt_fx};

verus! {

/// A complex scalar: real part `re`, imaginary part `im`.
#[derive(Clone, Copy, Debug, PartialEq, Eq, Structural)]
pub struct Complex {
    pub re: i32,
    pub im: i32,
}

impl NewComplex<i32> for Complex {
    /// The complex value `re + i im`.
    fn new(re: i32, im: i32) -> (r: Self)
        ensures
            r.re == re,
            r.im == im,
    {
        Complex { re, im }
    }
}

/// An array of `N` complex fixed-point numbers with `F` fractional bits.
#[derive(Clone, Copy, Debug, PartialEq, Eq)]
pub struct ComplexArray<const N: usize, const F: u32> {
    /// The elements; index 0 is the front, `N - 1` the back.
    pub data: [Complex; N],
}

/// The tolerance of the square root behind the magnitude: one thousandth,
/// rounded to `f` fractional bits, and at least one unit of the last place.
pub open spec fn mag_error(f: nat) -> int {
    let e: int = (pow2(f) + 500) as int / 1000;
    if e >= 1 { e } else { 1 }
}

/// The magnitude `sqrt(re^2 + im^2)` as the fixed-point operations compute it.
pub open spec fn mag_fx(c: Complex, f: nat) -> int {
    sqrt_fx(fx_add(fx_pow(c.re as int, 2, f), fx_pow(c.im as int, 2, f)), mag_error(f), f)
}

/// The tolerance of [`mag_error`] for the format with `F` fractional bits.
fn mag_tolerance<const F: u32>() -> (r: i32)
    requires
        F <= MAX_FRAC,
    ensures
        r as int == mag_error(F as nat),
        r >= 1,
{
    let d = pow2_i64(F);
    proof {
        vstd::arithmetic::power2::lemma_pow2_strictly_increases(F as nat, 31);
        vstd::arithmetic::power2::lemma2_to64();
    }
    let e: i64 = (d + 500) / 1000;
    if e >= 1 {
        e as i32
    } else {
        1
    }
}

impl<const N: usize, const F: u32> NewComplex<i32> for ComplexArray<N, F> {
    /// An array whose every element is `re + i im` (raw bits).
    fn new(re: i32, im: i32) -> (r: Self)
        ensures
            forall|i: int| 0 <= i < N ==> r.data@[i] == (Complex { re, im }),
    {
        ComplexArray { data: [Complex { re, im }; N] }
    }
}

impl<const N: usize, const F: u32> Len for ComplexArray<N, F> {
    /// The number of elements, `N`.
    fn len(&self) -> (r: usize)
        ensures
            r == N,
    {
        N
    }
}

impl<const N: usize, const F: u32> ComplexCartesian for ComplexArray<N, F> {
    type Real = RealArray<N, F>;

    /// The real parts, element by element.
    fn real_part(&self) -> (r: RealArray<N, F>)
        ensures
            forall|i: int| 0 <= i < N ==> r.data@[i] == self.data@[i].re,
    {
        let mut out: [i32; N] = [0i32; N];
        let mut i: usize = 0;
        while i < N
            invariant
                i <= N,
                forall|j: int| 0 <= j < i ==> out@[j] == self.data@[j].re,
            decreases N - i,
        {
            out[i] = self.data[i].re;
            i = i + 1;
        }
        RealArray { data: out }
    }

    /// The imaginary parts, element by element.
    fn imag_part(&self) -> (r: RealArray<N, F>)
        ensures
            forall|i: int| 0 <= i < N ==> r.data@[i] == self.data@[i].im,
    {
        let mut out: [i32; N] = [0i32; N];
        let mut i: usize = 0;
        while i < N
            invariant
                i <= N,
                forall|j: int| 0 <= j < i ==> out@[j] == self.data@[j].im,
            decreases N - i,
        {
            out[i] = self.data[i].im;
            i = i + 1;
        }
        RealArray { data: out }
    }
}

impl<const N: usize, const F: u32> ComplexArray<N, F> {
    /// An array whose every element is `re + i im` for the integers `re`
    /// and `im`, saturated to the format.
    pub fn new_from_i32(re: i32, im: i32) -> (r: Self)
        requires
            F <= MAX_FRAC,
        ensures
            forall|i: int|
                0 <= i < N ==> r.data@[i].re as int == fx_from_int(re as int, F as nat)
                    && r.data@[i].im as int == fx_from_int(im as int, F as nat),
    {
        let c = Complex { re: from_int_fx(re, F), im: from_int_fx(im, F) };
        ComplexArray { data: [c; N] }
    }

    /// The element at `index`; an index past the end gives the last element.
    pub fn at(&self, index: usize) -> (r: Complex)
        requires
            N > 0,
        ensures
            r == self.data@[if index < N { index as int } else { N - 1 }],
    {
        if N <= index {
            self.data[N - 1]
        } else {
            self.data[index]
        }
    }

    /// The first element.
    pub fn front(&self) -> (r: Complex)
        requires
            N > 0,
        ensures
            r == self.data@[0],
    {
        self.data[0]
    }

    /// The last element.
    pub fn back(&self) -> (r: Complex)
        requires
            N > 0,
        ensures
            r == self.data@[N - 1],
    {
        self.data[N - 1]
    }

    /// The magnitude of every element, `sqrt(re^2 + im^2)`, by Heron's
    /// square root with a tolerance of one thousandth (at least one unit of
    /// the last place).
    pub fn mag(&self) -> (r: RealArray<N, F>)
        requires
            F <= MAX_FRAC,
        ensures
            forall|i: int| 0 <= i < N ==> r.data@[i] as int == mag_fx(self.data@[i], F as nat),
    {
        let tol = mag_tolerance::<F>();
        let mut out: [i32; N] = [0i32; N];
        let mut i: usize = 0;
        while i < N
            invariant
                i <= N,
                F <= MAX_FRAC,
                tol as int == mag_error(F as nat),
                tol >= 1,
                forall|j: int| 0 <= j < i ==> out@[j] as int == mag_fx(self.data@[j], F as nat),
            decreases N - i,
        {
            let c = self.data[i];
            let s = add_fx(fixed_powi::<F>(c.re, 2), fixed_powi::<F>(c.im, 2));
            out[i] = sqrt::<F>(s, tol);
            i = i + 1;
        }
        RealArray { data: out }
    }

    /// The argument of every element, `atan2(im, re)` by the rational
    /// approximation of the arc tangent applied to `im / re`; accurate where
    /// that angle is within ±π/4. A zero real part gives ±π/2 (zero when the
    /// imaginary part is zero too).
    pub fn arg(&self) -> (r: RealArray<N, F>)
        requires
            F <= MAX_FRAC,
        ensures
            forall|i: int|
                0 <= i < N ==> r.data@[i] as int == atan2_fx(
                    self.data@[i].im as int,
                    self.data@[i].re as int,
                    F as nat,
                ),
    {
        let mut out: [i32; N] = [0i32; N];
        let mut i: usize = 0;
        while i < N
            invariant
                i <= N,
                F <= MAX_FRAC,
                forall|j: int|
                    0 <= j < i ==> out@[j] as int == atan2_fx(
                        self.data@[j].im as int,
                        self.data@[j].re as int,
                        F as nat,
                    ),
            decreases N - i,
        {
            let c = self.data[i];
            out[i] = atan2_precise_fixed::<F>(c.im, c.re);
            i = i + 1;
        }
        RealArray { data: out }
    }

    /// The elements at the odd indexes `1, 3, 5, ...`, `M = N / 2` of them.
    pub fn odd<const M: usize>(&self) -> (r: [Complex; M])
        requires
            M == N / 2,
        ensures
            forall|k: int| 0 <= k < M ==> r@[k] == self.data@[2 * k + 1],
    {
        let mut out: [Complex; M] = [Complex { re: 0, im: 0 }; M];
        let mut k: usize = 0;
        while k < M
            invariant
                k <= M,
                M == N / 2,
                forall|j: int| 0 <= j < k ==> out@[j] == self.data@[2 * j + 1],
            decreases M - k,
        {
            out[k] = self.data[2 * k + 1];
            k = k + 1;
        }
        out
    }

    /// The elements at the even indexes `0, 2, 4, ...`, `M = N / 2` of them.
    pub fn even<const M: usize>(&self) -> (r: [Complex; M])
        requires
            M == N / 2,
        ensures
            forall|k: int| 0 <= k < M ==> r@[k] == self.data@[2 * k],
    {
        let mut out: [Complex; M] = [Complex { re: 0, im: 0 }; M];
        let mut k: usize = 0;
        while k < M
            invariant
                k <= M,
                M == N / 2,
                forall|j: int| 0 <= j < k ==> out@[j] == self.data@[2 * j],
            decreases M - k,
        {
            out[k] = self.data[2 * k];
            k = k + 1;
        }
        out
    }
}

} // verus!
