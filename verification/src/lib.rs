//! An arbitrary-precision unsigned integer that keeps small values inline
//! and spills larger ones to a heap buffer of 64-bit words.

pub mod biguint;
pub mod decimal;
pub mod laws;
pub mod ops;
pub mod repr;
pub mod words;

pub use biguint::BigUint;
pub use ops::{add_assign, mul_with_carry};
pub use repr::{Repr, INLINE_MAX};
pub use words::{eq, strip_trailing_zeros};
