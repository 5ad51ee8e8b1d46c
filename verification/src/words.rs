//! The words under a bit stream: the vector that a stream is written to, and
//! the vector that a stream is read from.
//!
//! Both are types of the `dsi-bitstream` crate. What this file states about
//! them is believed, not proved: each function marked `external_body` does
//! nothing but call into that crate, and its contract says of the call what
//! the crate's source shows.
use vstd::prelude::*;
use dsi_bitstream::prelude::{MemWordReader, MemWordWriterVec};

verus! {

/// Words being written, one after the other, to a vector that grows:
/// `MemWordWriterVec`.
#[verifier::external_body]
pub struct WordWriter {
    pub(crate) inner: MemWordWriterVec<u64, Vec<u64>>,
}

/// Words being read, one after the other, from a vector, and zeros after its
/// end: `MemWordReader`.
#[verifier::external_body]
pub struct WordReader<'a> {
    pub(crate) inner: MemWordReader<u64, &'a Vec<u64>>,
}

/// The words of the vector that `w` writes to.
pub uninterp spec fn written_words(w: WordWriter) -> Seq<u64>;

/// The words of the vector that `r` reads from.
pub uninterp spec fn source_words(r: WordReader) -> Seq<u64>;

/// `MemWordWriterVec::new`: a writer that stands at the start of `words`.
#[verifier::external_body]
pub(crate) fn word_writer_new(words: Vec<u64>) -> (w: WordWriter)
    ensures
        written_words(w) == words@,
{
    WordWriter { inner: MemWordWriterVec::new(words) }
}

/// `MemWordWriterVec::into_inner`: the vector that was written to.
#[verifier::external_body]
pub(crate) fn word_writer_into_inner(w: WordWriter) -> (words: Vec<u64>)
    ensures
        words@ == written_words(w),
{
    w.inner.into_inner()
}

/// `MemWordReader::new`: a reader that stands at the start of `words`.
#[verifier::external_body]
pub(crate) fn word_reader_new<'a>(words: &'a Vec<u64>) -> (r: WordReader<'a>)
    ensures
        source_words(r) == words@,
{
    WordReader { inner: MemWordReader::new(words) }
}

} // verus!
