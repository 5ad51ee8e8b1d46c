//! What can go wrong: a value that a code cannot represent, and the ways in
//! which building a compressed vector can fail.
use vstd::prelude::*;

verus! {

/// Why a value was not encoded.
#[derive(Clone, Copy, Debug, PartialEq, Eq, Structural)]
pub enum CodecError {
    /// The code, with the parameters given, has no codeword for the value.
    ValueOutOfDomain,
}

/// Why a compressed vector was not built.
#[derive(Clone, Copy, Debug, PartialEq, Eq, Structural)]
pub enum BuildError {
    /// The sampling period is zero.
    ZeroSamplingPeriod,
    /// The code has no codeword for the value at `index`, the first such
    /// index.
    ValueOutOfDomain { index: usize },
    /// The codewords up to and including the one at `index` take more bits
    /// than a `usize` can count.
    StreamTooLong { index: usize },
}

} // verus!
