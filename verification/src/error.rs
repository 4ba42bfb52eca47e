//! The ways in which a call can be refused.

use vstd::prelude::*;

verus! {

/// Why the cipher refused an input. Every refusal is decided before any
/// output byte is written.
#[derive(Clone, Copy, Debug, PartialEq, Eq, Structural)]
pub enum Error {
    /// The bytes offered as a key are not exactly 32.
    InvalidKeyLength,
    /// The bytes offered as a nonce are not exactly 12.
    InvalidNonceLength,
    /// The input and the output region differ in length.
    LengthMismatch,
    /// The call needs more blocks than remain before the 32-bit block
    /// counter would wrap and reuse keystream.
    CounterOverflow,
}

} // verus!
