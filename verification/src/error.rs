//! The ways in which an operation can fail.

use vstd::prelude::*;

verus! {

/// Why an operation gave no value.
#[derive(Clone, Copy, Debug, PartialEq, Eq, Structural)]
pub enum BigNumError {
    /// The input is absent or is not valid UTF-8.
    InvalidEncoding,
    /// The text is not an integer.
    InvalidNumber,
    /// The divisor is zero.
    DivisionByZero,
    /// The value does not fit the fixed-width integer that was asked for.
    ConversionOverflow,
}

} // verus!
