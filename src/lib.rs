//! Fixed-size, fixed-point numeric arrays for embedded signal processing.
//!
//! Every element is a signed 32-bit fixed-point number stored as its raw
//! bits: the represented value is `bits / 2^F`, where `F` is the number of
//! fractional bits chosen by the array type. `F == 0` gives plain integers.
//! Arithmetic saturates at the bounds of `i32`; division follows one zero
//! policy throughout (a zero dividend gives zero, otherwise a zero divisor
//! gives the largest value); indexing with `at` clips to the last element.

pub mod scalar;
pub mod utility;
pub mod utility_functions;
pub mod consts;
pub mod trait_definitions;
pub mod trig;
pub mod real_array;
pub mod complex;
