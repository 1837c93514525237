//! The ways in which an operation of this crate can fail.

use vstd::prelude::*;

verus! {

/// The error of an operation on network constants or block data.
#[derive(Clone, Copy, Debug, PartialEq, Eq, Structural)]
pub enum EconomicsError {
    /// A network constant that must be positive is zero or negative.
    ConfigurationError,
    /// An intermediate value does not fit the integer width it is narrowed to.
    ///
    /// The rewards guard every product and every narrowing with it. Their
    /// contracts show that it is never returned: with a 64-bit starting
    /// supply every reward fits.
    ArithmeticOverflow,
}

} // verus!
