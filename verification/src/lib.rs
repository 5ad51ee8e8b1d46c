//! Compressed vectors of `u64` values with fast random access.
//!
//! A vector is stored as a stream of codewords of a variable-length code, one
//! for each value, packed into 64-bit words. The bit offset of every `k`-th
//! codeword is kept as a sample, so that the value at any index is found by
//! decoding at most `k` codewords from the nearest sample before it. The
//! sampling period `k` trades memory (one sample for every `k` values) for
//! access time.
//!
//! The codes are the Elias γ and δ codes, the Boldi–Vigna ζ codes, Rice
//! codes, exponential Golomb codes and minimal binary codes, in a big-endian
//! or a little-endian bit stream ([`intvec::BEIntVec`], [`intvec::LEIntVec`]).
//! Writing and reading the bits is done by the `dsi-bitstream` crate.
//!
//! ```
//! use compressed_intvec::codecs::{GammaCodec, RiceCodec};
//! use compressed_intvec::intvec::{BEIntVec, LEIntVec};
//!
//! let values = vec![1, 3, 6, 8, 13, 3];
//! let compressed = BEIntVec::<GammaCodec>::from(&values, 2).unwrap();
//! assert_eq!(compressed.get(3), Some(8));
//! assert_eq!(compressed.get(6), None);
//!
//! // a code with a parameter
//! let compressed = LEIntVec::<RiceCodec>::from_with_param(&values, 2, 3).unwrap();
//! assert_eq!(compressed.into_vec(), values);
//! ```
//!
//! # What is proved
//!
//! Every function of the library is verified with Verus against its
//! contract. The contracts speak of the values that a vector holds (its view,
//! a `Seq<u64>`), defined as what its stream decodes to:
//!
//! - building from a sequence gives a vector that holds that sequence, or
//!   fails with the one error that the sequence calls for;
//! - `get`, `into_vec` and the iterators hand out the values of the view;
//! - the samples are the bit offsets of the blocks of `k` values.
//!
//! [`codes`] defines each code as mathematics and proves that reading a
//! codeword gives back the value it was written for. That the bit streams of
//! `dsi-bitstream` write and read exactly these codewords is stated in
//! [`be`], [`le`] and [`words`] and is not proved.
pub mod be;
pub mod bits;
pub mod codecs;
pub mod codes;
pub mod error;
pub mod intvec;
pub mod le;
pub mod sequence;
pub mod stream;
pub mod words;
