//! The capability sets that the array types implement, so that generic code
//! can work over any length and any fixed-point format.
use vstd::prelude::*;

verus! {

/// Which element formats a type supports: an array whose format cannot
/// represent the constants an operation needs (one, π) must not call it.
pub trait Format {
    /// The element format can represent one and π.
    spec fn format_ok() -> bool;
}

/// Construction from one value for every element.
pub trait New<T>: Sized {
    fn new(value: T) -> Self;
}

/// Construction from one complex value for every element.
pub trait NewComplex<T>: Sized {
    fn new(re: T, im: T) -> Self;
}

/// Construction of a linear ramp.
pub trait Ramp<T>: Sized {
    fn ramp(start: T, step: T) -> Self;
}

/// Arrays of ones and of zeros.
pub trait Initializers: Format + Sized {
    fn ones() -> Self
        requires
            Self::format_ok(),
    ;

    fn zeros() -> Self;
}

/// The number of elements.
pub trait Len {
    fn len(&self) -> usize;
}

/// Element-wise integer power.
pub trait Pow: Format + Sized {
    fn powi(&self, power: u32) -> Self
        requires
            Self::format_ok(),
    ;
}

/// Element-wise sine.
pub trait Sin: Format + Sized {
    fn sin(&self) -> Self
        requires
            Self::format_ok(),
    ;
}

/// Element-wise cosine.
pub trait Cos: Format + Sized {
    fn cos(&self) -> Self
        requires
            Self::format_ok(),
    ;
}

/// Element-wise tangent.
pub trait Tan: Format + Sized {
    fn tan(&self) -> Self
        requires
            Self::format_ok(),
    ;
}

/// Element-wise arc tangent.
pub trait Atan: Format + Sized {
    fn atan(&self) -> Self
        requires
            Self::format_ok(),
    ;
}

/// Element-wise reduction of angles into `[-π, π)`.
pub trait WrapPhase: Format + Sized {
    fn wrap_phase(&self) -> Self
        requires
            Self::format_ok(),
    ;
}

/// Discrete Fourier transform. No array type of this library provides it yet;
/// the odd and even halves of a complex array are its building blocks.
pub trait DFT: Sized {
    fn dft(&self) -> Self;
}

/// The Cartesian components of a complex array.
pub trait ComplexCartesian {
    type Real;

    fn real_part(&self) -> Self::Real;

    fn imag_part(&self) -> Self::Real;
}

} // verus!
