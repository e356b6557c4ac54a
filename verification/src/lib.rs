//! Fixed-point decimal arithmetic over arbitrary-precision integers.
//!
//! A decimal number is a pair of an unscaled integer and a scale, and denotes
//! `unscaled * 10^(-scale)`. The operations read decimal text, align scales,
//! combine the unscaled integers, round where a scale is reduced, and write
//! the result back as canonical decimal text. Every operation is a function
//! of its arguments alone.
//!
//! The integer arithmetic itself is done by `num-bigint`. Every call into it
//! is a trusted function in [`integer`], stated over the mathematical value
//! of its arguments; everything else is verified against those statements.
//!
//! - [`notation`]: what decimal digits denote, and the text of an integer.
//! - [`integer`]: the integer type and the arithmetic on it.
//! - [`rounding`]: the rounding modes.
//! - [`decimal`]: the parser, the formatter and the scale normaliser.
//! - [`decimal_ops`]: the operations on decimal text.
//! - [`integer_ops`]: the operations on integers as text and as bytes.
//! - [`buffer`]: the byte buffer in which an integer result is handed out.
//! - [`error`]: the failures.
//! - [`round_trip`], [`laws`]: what is proved of all of these.

pub mod buffer;
pub mod decimal;
pub mod decimal_ops;
pub mod error;
pub mod integer;
pub mod integer_ops;
pub mod laws;
pub mod notation;
pub mod round_trip;
pub mod rounding;
