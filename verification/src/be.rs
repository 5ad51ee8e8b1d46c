//! The big-endian bit stream over a vector of 64-bit words.
//!
//! The stream itself is the work of the `dsi-bitstream` crate. What this
//! file states about it is believed, not proved: each function marked
//! `external_body` does nothing but call into that crate, and its contract
//! says of the call what the crate's source shows. A `requires` leaves out
//! the arguments on which the call overflows or runs over the end of the
//! stream. With the in-memory word writer and the zero-extended word reader
//! used here no call can fail, so none returns a `Result`.
//!
//! Everything else (the writer and reader types as the rest of the library
//! sees them, and their implementations of `BitSink` and `BitSource`) is
//! verified against these contracts.
use vstd::prelude::*;
use dsi_bitstream::prelude::{
    BitSeek, BufBitReader, BufBitWriter, DeltaRead, DeltaReadParam, DeltaWrite, DeltaWriteParam,
    ExpGolombRead, ExpGolombWrite, GammaRead, GammaReadParam, GammaWrite, GammaWriteParam,
    MemWordReader, MemWordWriterVec, MinimalBinaryRead, MinimalBinaryWrite, RiceRead, RiceWrite,
    ZetaRead, ZetaReadParam, ZetaWrite, ZetaWriteParam,
};
use crate::bits::BitOrder;
use crate::codes::{
    delta_code, delta_domain, delta_parse, exp_golomb_code, exp_golomb_domain, exp_golomb_parse,
    gamma_code, gamma_domain, gamma_parse, minimal_binary_code, minimal_binary_domain,
    minimal_binary_parse, rice_code, rice_domain, rice_parse, zeta_code, zeta_domain, zeta_parse,
};
use crate::stream::{packed_bits, zeros, BitSink, BitSource};
use crate::words::{
    source_words, word_reader_new, word_writer_into_inner, word_writer_new, written_words,
    WordReader, WordWriter,
};

verus! {

/// A big-endian stream under construction: `BufBitWriter` over a word writer
/// that starts with an empty vector.
#[verifier::external_body]
pub struct BeWriter {
    inner: BufBitWriter<dsi_bitstream::traits::BE, MemWordWriterVec<u64, Vec<u64>>>,
}

/// A cursor into a big-endian stream stored in a vector of words:
/// `BufBitReader` over a word reader.
#[verifier::external_body]
pub struct BeReader<'a> {
    inner: BufBitReader<dsi_bitstream::traits::BE, MemWordReader<u64, &'a Vec<u64>>>,
}

/// The bits that were written to `w`, in the order of writing.
pub uninterp spec fn be_written(w: BeWriter) -> Seq<bool>;

/// The bits of the stream that `r` reads.
pub uninterp spec fn be_source_bits(r: BeReader) -> Seq<bool>;

/// The position in its stream of the next bit that `r` reads.
pub uninterp spec fn be_source_pos(r: BeReader) -> int;

/// `BufBitWriter::new`: a bit stream over a word writer whose vector is
/// empty, with nothing written yet.
#[verifier::external_body]
fn be_writer_new(backend: WordWriter) -> (w: BeWriter)
    requires
        written_words(backend).len() == 0,
    ensures
        be_written(w) == Seq::<bool>::empty(),
{
    BeWriter { inner: BufBitWriter::new(backend.inner) }
}

/// `BufBitWriter::into_inner`: flushes the stream and hands back the word
/// writer, whose vector then holds one word for every 64 bits written, the
/// last one padded with zeros.
#[verifier::external_body]
fn be_writer_into_inner(w: BeWriter) -> (backend: WordWriter)
    ensures
        written_words(backend).len() == (be_written(w).len() + 63) / 64,
        packed_bits(BitOrder::Big, written_words(backend)) == be_written(w) + zeros(
            (64 * written_words(backend).len() - be_written(w).len()) as nat,
        ),
{
    match w.inner.into_inner() {
        Ok(inner) => WordWriter { inner },
        Err(e) => match e {},
    }
}

/// `GammaWrite::write_gamma`: appends the γ code of `value` and returns its
/// length.
#[verifier::external_body]
fn be_write_gamma(w: &mut BeWriter, value: u64) -> (n: usize)
    requires
        gamma_domain(value),
    ensures
        be_written(*final(w)) == be_written(*old(w)) + gamma_code(BitOrder::Big, value),
        n == gamma_code(BitOrder::Big, value).len(),
{
    match w.inner.write_gamma(value) {
        Ok(n) => n,
        Err(e) => match e {},
    }
}

/// `GammaWriteParam::write_gamma_param`: as `write_gamma`, with or without
/// the table of codewords.
#[verifier::external_body]
fn be_write_gamma_param<const USE_TABLE: bool>(w: &mut BeWriter, value: u64) -> (n: usize)
    requires
        gamma_domain(value),
    ensures
        be_written(*final(w)) == be_written(*old(w)) + gamma_code(BitOrder::Big, value),
        n == gamma_code(BitOrder::Big, value).len(),
{
    match w.inner.write_gamma_param::<USE_TABLE>(value) {
        Ok(n) => n,
        Err(e) => match e {},
    }
}

/// `DeltaWrite::write_delta`: appends the δ code of `value` and returns its
/// length.
#[verifier::external_body]
fn be_write_delta(w: &mut BeWriter, value: u64) -> (n: usize)
    requires
        delta_domain(value),
    ensures
        be_written(*final(w)) == be_written(*old(w)) + delta_code(BitOrder::Big, value),
        n == delta_code(BitOrder::Big, value).len(),
{
    match w.inner.write_delta(value) {
        Ok(n) => n,
        Err(e) => match e {},
    }
}

/// `DeltaWriteParam::write_delta_param`: as `write_delta`, with or without
/// the tables of codewords.
#[verifier::external_body]
fn be_write_delta_param<const USE_DELTA_TABLE: bool, const USE_GAMMA_TABLE: bool>(
    w: &mut BeWriter,
    value: u64,
) -> (n: usize)
    requires
        delta_domain(value),
    ensures
        be_written(*final(w)) == be_written(*old(w)) + delta_code(BitOrder::Big, value),
        n == delta_code(BitOrder::Big, value).len(),
{
    match w.inner.write_delta_param::<USE_DELTA_TABLE, USE_GAMMA_TABLE>(value) {
        Ok(n) => n,
        Err(e) => match e {},
    }
}

/// `ZetaWrite::write_zeta`: appends the ζ code with parameter `k` of `value`
/// and returns its length.
#[verifier::external_body]
fn be_write_zeta(w: &mut BeWriter, value: u64, k: u64) -> (n: usize)
    requires
        zeta_domain(value, k),
    ensures
        be_written(*final(w)) == be_written(*old(w)) + zeta_code(BitOrder::Big, value, k),
        n == zeta_code(BitOrder::Big, value, k).len(),
{
    match w.inner.write_zeta(value, k) {
        Ok(n) => n,
        Err(e) => match e {},
    }
}

/// `ZetaWriteParam::write_zeta3_param`: appends the ζ code with parameter 3
/// of `value`, with or without the table of codewords, and returns its
/// length.
#[verifier::external_body]
fn be_write_zeta3_param<const USE_TABLE: bool>(w: &mut BeWriter, value: u64) -> (n: usize)
    requires
        zeta_domain(value, 3),
    ensures
        be_written(*final(w)) == be_written(*old(w)) + zeta_code(BitOrder::Big, value, 3),
        n == zeta_code(BitOrder::Big, value, 3).len(),
{
    match w.inner.write_zeta3_param::<USE_TABLE>(value) {
        Ok(n) => n,
        Err(e) => match e {},
    }
}

/// `RiceWrite::write_rice`: appends the Rice code of `value` with modulus
/// `2^log2_b` and returns its length.
#[verifier::external_body]
fn be_write_rice(w: &mut BeWriter, value: u64, log2_b: usize) -> (n: usize)
    requires
        rice_domain(value, log2_b),
    ensures
        be_written(*final(w)) == be_written(*old(w)) + rice_code(BitOrder::Big, value, log2_b),
        n == rice_code(BitOrder::Big, value, log2_b).len(),
{
    match w.inner.write_rice(value, log2_b) {
        Ok(n) => n,
        Err(e) => match e {},
    }
}

/// `ExpGolombWrite::write_exp_golomb`: appends the exponential Golomb code
/// of order `k` of `value` and returns its length.
#[verifier::external_body]
fn be_write_exp_golomb(w: &mut BeWriter, value: u64, k: usize) -> (n: usize)
    requires
        exp_golomb_domain(value, k),
    ensures
        be_written(*final(w)) == be_written(*old(w)) + exp_golomb_code(BitOrder::Big, value, k),
        n == exp_golomb_code(BitOrder::Big, value, k).len(),
{
    match w.inner.write_exp_golomb(value, k) {
        Ok(n) => n,
        Err(e) => match e {},
    }
}

/// `MinimalBinaryWrite::write_minimal_binary`: appends the minimal binary
/// code of `value` with upper bound `max` and returns its length.
#[verifier::external_body]
fn be_write_minimal_binary(w: &mut BeWriter, value: u64, max: u64) -> (n: usize)
    requires
        minimal_binary_domain(value, max),
    ensures
        be_written(*final(w)) == be_written(*old(w)) + minimal_binary_code(
            BitOrder::Big,
            value,
            max,
        ),
        n == minimal_binary_code(BitOrder::Big, value, max).len(),
{
    match w.inner.write_minimal_binary(value, max) {
        Ok(n) => n,
        Err(e) => match e {},
    }
}

/// `BufBitReader::new`: a cursor at the first bit of the stream stored in
/// the words that `backend` reads.
#[verifier::external_body]
fn be_reader_new<'a>(backend: WordReader<'a>) -> (r: BeReader<'a>)
    ensures
        be_source_bits(r) == packed_bits(BitOrder::Big, source_words(backend)),
        be_source_pos(r) == 0,
{
    BeReader { inner: BufBitReader::new(backend.inner) }
}

/// `BitSeek::set_bit_pos`: moves the cursor to bit `pos`.
#[verifier::external_body]
fn be_set_bit_pos(r: &mut BeReader, pos: u64)
    requires
        pos <= be_source_bits(*old(r)).len(),
    ensures
        be_source_bits(*final(r)) == be_source_bits(*old(r)),
        be_source_pos(*final(r)) == pos,
{
    match r.inner.set_bit_pos(pos) {
        Ok(()) => (),
        Err(e) => match e {},
    }
}

/// `GammaRead::read_gamma`: reads the γ code at the cursor.
#[verifier::external_body]
fn be_read_gamma(r: &mut BeReader) -> (value: u64)
    requires
        gamma_parse(BitOrder::Big, be_source_bits(*old(r)), be_source_pos(*old(r))) is Some,
    ensures
        be_source_bits(*final(r)) == be_source_bits(*old(r)),
        gamma_parse(BitOrder::Big, be_source_bits(*old(r)), be_source_pos(*old(r))) == Some(
            (value, be_source_pos(*final(r))),
        ),
{
    match r.inner.read_gamma() {
        Ok(value) => value,
        Err(e) => match e {},
    }
}

/// `GammaReadParam::read_gamma_param`: as `read_gamma`, with or without the
/// decoding table.
#[verifier::external_body]
fn be_read_gamma_param<const USE_TABLE: bool>(r: &mut BeReader) -> (value: u64)
    requires
        gamma_parse(BitOrder::Big, be_source_bits(*old(r)), be_source_pos(*old(r))) is Some,
    ensures
        be_source_bits(*final(r)) == be_source_bits(*old(r)),
        gamma_parse(BitOrder::Big, be_source_bits(*old(r)), be_source_pos(*old(r))) == Some(
            (value, be_source_pos(*final(r))),
        ),
{
    match r.inner.read_gamma_param::<USE_TABLE>() {
        Ok(value) => value,
        Err(e) => match e {},
    }
}

/// `DeltaRead::read_delta`: reads the δ code at the cursor.
#[verifier::external_body]
fn be_read_delta(r: &mut BeReader) -> (value: u64)
    requires
        delta_parse(BitOrder::Big, be_source_bits(*old(r)), be_source_pos(*old(r))) is Some,
    ensures
        be_source_bits(*final(r)) == be_source_bits(*old(r)),
        delta_parse(BitOrder::Big, be_source_bits(*old(r)), be_source_pos(*old(r))) == Some(
            (value, be_source_pos(*final(r))),
        ),
{
    match r.inner.read_delta() {
        Ok(value) => value,
        Err(e) => match e {},
    }
}

/// `DeltaReadParam::read_delta_param`: as `read_delta`, with or without the
/// decoding tables.
#[verifier::external_body]
fn be_read_delta_param<const USE_DELTA_TABLE: bool, const USE_GAMMA_TABLE: bool>(
    r: &mut BeReader,
) -> (value: u64)
    requires
        delta_parse(BitOrder::Big, be_source_bits(*old(r)), be_source_pos(*old(r))) is Some,
    ensures
        be_source_bits(*final(r)) == be_source_bits(*old(r)),
        delta_parse(BitOrder::Big, be_source_bits(*old(r)), be_source_pos(*old(r))) == Some(
            (value, be_source_pos(*final(r))),
        ),
{
    match r.inner.read_delta_param::<USE_DELTA_TABLE, USE_GAMMA_TABLE>() {
        Ok(value) => value,
        Err(e) => match e {},
    }
}

/// `ZetaRead::read_zeta`: reads the ζ code with parameter `k` at the cursor.
#[verifier::external_body]
fn be_read_zeta(r: &mut BeReader, k: u64) -> (value: u64)
    requires
        zeta_parse(BitOrder::Big, be_source_bits(*old(r)), be_source_pos(*old(r)), k) is Some,
    ensures
        be_source_bits(*final(r)) == be_source_bits(*old(r)),
        zeta_parse(BitOrder::Big, be_source_bits(*old(r)), be_source_pos(*old(r)), k) == Some(
            (value, be_source_pos(*final(r))),
        ),
{
    match r.inner.read_zeta(k) {
        Ok(value) => value,
        Err(e) => match e {},
    }
}

/// `ZetaReadParam::read_zeta3_param`: reads the ζ code with parameter 3 at
/// the cursor, with or without the decoding table.
#[verifier::external_body]
fn be_read_zeta3_param<const USE_TABLE: bool>(r: &mut BeReader) -> (value: u64)
    requires
        zeta_parse(BitOrder::Big, be_source_bits(*old(r)), be_source_pos(*old(r)), 3) is Some,
    ensures
        be_source_bits(*final(r)) == be_source_bits(*old(r)),
        zeta_parse(BitOrder::Big, be_source_bits(*old(r)), be_source_pos(*old(r)), 3) == Some(
            (value, be_source_pos(*final(r))),
        ),
{
    match r.inner.read_zeta3_param::<USE_TABLE>() {
        Ok(value) => value,
        Err(e) => match e {},
    }
}

/// `RiceRead::read_rice`: reads the Rice code with modulus `2^log2_b` at the
/// cursor.
#[verifier::external_body]
fn be_read_rice(r: &mut BeReader, log2_b: usize) -> (value: u64)
    requires
        rice_parse(BitOrder::Big, be_source_bits(*old(r)), be_source_pos(*old(r)), log2_b) is Some,
    ensures
        be_source_bits(*final(r)) == be_source_bits(*old(r)),
        rice_parse(BitOrder::Big, be_source_bits(*old(r)), be_source_pos(*old(r)), log2_b)
            == Some((value, be_source_pos(*final(r)))),
{
    match r.inner.read_rice(log2_b) {
        Ok(value) => value,
        Err(e) => match e {},
    }
}

/// `ExpGolombRead::read_exp_golomb`: reads the exponential Golomb code of
/// order `k` at the cursor.
#[verifier::external_body]
fn be_read_exp_golomb(r: &mut BeReader, k: usize) -> (value: u64)
    requires
        exp_golomb_parse(BitOrder::Big, be_source_bits(*old(r)), be_source_pos(*old(r)), k) is Some,
    ensures
        be_source_bits(*final(r)) == be_source_bits(*old(r)),
        exp_golomb_parse(BitOrder::Big, be_source_bits(*old(r)), be_source_pos(*old(r)), k)
            == Some((value, be_source_pos(*final(r)))),
{
    match r.inner.read_exp_golomb(k) {
        Ok(value) => value,
        Err(e) => match e {},
    }
}

/// `MinimalBinaryRead::read_minimal_binary`: reads the minimal binary code
/// with upper bound `max` at the cursor.
#[verifier::external_body]
fn be_read_minimal_binary(r: &mut BeReader, max: u64) -> (value: u64)
    requires
        minimal_binary_parse(BitOrder::Big, be_source_bits(*old(r)), be_source_pos(*old(r)), max) is Some,
    ensures
        be_source_bits(*final(r)) == be_source_bits(*old(r)),
        minimal_binary_parse(BitOrder::Big, be_source_bits(*old(r)), be_source_pos(*old(r)), max)
            == Some((value, be_source_pos(*final(r)))),
{
    match r.inner.read_minimal_binary(max) {
        Ok(value) => value,
        Err(e) => match e {},
    }
}

impl BeWriter {
    /// A stream with nothing written to it.
    pub fn new() -> (w: Self)
        ensures
            w.bits() == Seq::<bool>::empty(),
    {
        be_writer_new(word_writer_new(Vec::new()))
    }

    /// Ends the stream and hands out the words that store it: one word for
    /// every 64 bits written, the last one padded with zeros.
    pub fn into_words(self) -> (words: Vec<u64>)
        ensures
            words@.len() == (self.bits().len() + 63) / 64,
            packed_bits(BitOrder::Big, words@) == self.bits() + zeros(
                (64 * words@.len() - self.bits().len()) as nat,
            ),
    {
        word_writer_into_inner(be_writer_into_inner(self))
    }
}

impl BitSink for BeWriter {
    open spec fn order() -> BitOrder {
        BitOrder::Big
    }

    open spec fn bits(&self) -> Seq<bool> {
        be_written(*self)
    }

    fn write_gamma(&mut self, value: u64) -> (n: usize) {
        be_write_gamma(self, value)
    }

    fn write_gamma_param<const USE_TABLE: bool>(&mut self, value: u64) -> (n: usize) {
        be_write_gamma_param::<USE_TABLE>(self, value)
    }

    fn write_delta(&mut self, value: u64) -> (n: usize) {
        be_write_delta(self, value)
    }

    fn write_delta_param<const USE_DELTA_TABLE: bool, const USE_GAMMA_TABLE: bool>(
        &mut self,
        value: u64,
    ) -> (n: usize) {
        be_write_delta_param::<USE_DELTA_TABLE, USE_GAMMA_TABLE>(self, value)
    }

    fn write_zeta(&mut self, value: u64, k: u64) -> (n: usize) {
        be_write_zeta(self, value, k)
    }

    fn write_zeta3_param<const USE_TABLE: bool>(&mut self, value: u64) -> (n: usize) {
        be_write_zeta3_param::<USE_TABLE>(self, value)
    }

    fn write_rice(&mut self, value: u64, log2_b: usize) -> (n: usize) {
        be_write_rice(self, value, log2_b)
    }

    fn write_exp_golomb(&mut self, value: u64, k: usize) -> (n: usize) {
        be_write_exp_golomb(self, value, k)
    }

    fn write_minimal_binary(&mut self, value: u64, max: u64) -> (n: usize) {
        be_write_minimal_binary(self, value, max)
    }
}

impl<'a> BeReader<'a> {
    /// A cursor at the first bit of the stream stored in `words`.
    pub fn new(words: &'a Vec<u64>) -> (r: Self)
        ensures
            r.bits() == packed_bits(BitOrder::Big, words@),
            r.pos() == 0,
    {
        be_reader_new(word_reader_new(words))
    }
}

impl<'a> BitSource for BeReader<'a> {
    open spec fn order() -> BitOrder {
        BitOrder::Big
    }

    open spec fn bits(&self) -> Seq<bool> {
        be_source_bits(*self)
    }

    open spec fn pos(&self) -> int {
        be_source_pos(*self)
    }

    fn set_bit_pos(&mut self, pos: u64) {
        be_set_bit_pos(self, pos)
    }

    fn read_gamma(&mut self) -> (value: u64) {
        be_read_gamma(self)
    }

    fn read_gamma_param<const USE_TABLE: bool>(&mut self) -> (value: u64) {
        be_read_gamma_param::<USE_TABLE>(self)
    }

    fn read_delta(&mut self) -> (value: u64) {
        be_read_delta(self)
    }

    fn read_delta_param<const USE_DELTA_TABLE: bool, const USE_GAMMA_TABLE: bool>(&mut self) -> (value: u64) {
        be_read_delta_param::<USE_DELTA_TABLE, USE_GAMMA_TABLE>(self)
    }

    fn read_zeta(&mut self, k: u64) -> (value: u64) {
        be_read_zeta(self, k)
    }

    fn read_zeta3_param<const USE_TABLE: bool>(&mut self) -> (value: u64) {
        be_read_zeta3_param::<USE_TABLE>(self)
    }

    fn read_rice(&mut self, log2_b: usize) -> (value: u64) {
        be_read_rice(self, log2_b)
    }

    fn read_exp_golomb(&mut self, k: usize) -> (value: u64) {
        be_read_exp_golomb(self, k)
    }

    fn read_minimal_binary(&mut self, max: u64) -> (value: u64) {
        be_read_minimal_binary(self, max)
    }
}

} // verus!
