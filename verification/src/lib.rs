//! A scalar number type for a human-readable structured-data format.
//!
//! A [`Number`] holds exactly one of three representations: a non-negative
//! integer (up to the unsigned 64-bit maximum), a strictly negative integer,
//! or a double-precision float held as its IEEE-754 bit pattern. The library
//! proves the classification, extraction, construction, rendering and
//! serialization-dispatch logic; the surrounding (unverified) embedding only
//! moves native `f64` values in and out through `f64::to_bits`/`from_bits`
//! and drives the generic serialization framework.

pub mod bits;
pub mod decimal;
pub mod number;

pub use number::Number;
pub use number::N;
pub use number::Primitive;
