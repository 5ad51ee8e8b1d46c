//! What the codecs ask of a bit stream: a sink that codewords are appended
//! to, a source that they are read back from, and the layout of a stream in
//! 64-bit words.
use vstd::prelude::*;
use vstd::arithmetic::power2::pow2;
use vstd::endian::{endianness, Endian};
use crate::bits::BitOrder;
use crate::codes::{
    delta_code, delta_domain, delta_parse, exp_golomb_code, exp_golomb_domain, exp_golomb_parse,
    gamma_code, gamma_domain, gamma_parse, minimal_binary_code, minimal_binary_domain,
    minimal_binary_parse, rice_code, rice_domain, rice_parse, zeta_code, zeta_domain, zeta_parse,
};

verus! {

/// A choice of bit order, made in a type.
pub trait Endianness {
    /// The order that the type stands for.
    spec fn order() -> BitOrder;
}

/// Streams that hold the most significant digit of a field first.
#[derive(Clone, Copy, Debug)]
pub struct BE;

/// Streams that hold the least significant digit of a field first.
#[derive(Clone, Copy, Debug)]
pub struct LE;

impl Endianness for BE {
    open spec fn order() -> BitOrder {
        BitOrder::Big
    }
}

impl Endianness for LE {
    open spec fn order() -> BitOrder {
        BitOrder::Little
    }
}

/// Digit `j` (0 the least significant) of the word that a stream of the given
/// order keeps in memory as `stored`. A stream keeps each word in its own byte
/// order: on hardware of the other byte order the bytes of `stored` count in
/// reverse.
pub open spec fn stream_digit(order: BitOrder, stored: u64, j: int) -> bool {
    let native = match endianness() {
        Endian::Big => BitOrder::Big,
        Endian::Little => BitOrder::Little,
    };
    let place = if order == native {
        j
    } else {
        8 * (7 - j / 8) + j % 8
    };
    (stored as nat / pow2(place as nat)) % 2 == 1
}

/// The bits of the stream of the given order that is stored in `words`: 64
/// for each word, a big-endian stream starting at the most significant digit
/// of a word, a little-endian stream at the least significant.
pub open spec fn packed_bits(order: BitOrder, words: Seq<u64>) -> Seq<bool> {
    Seq::new(
        64 * words.len(),
        |i: int|
            stream_digit(
                order,
                words[i / 64],
                match order {
                    BitOrder::Big => 63 - i % 64,
                    BitOrder::Little => i % 64,
                },
            ),
    )
}

/// `n` zero bits.
pub open spec fn zeros(n: nat) -> Seq<bool> {
    Seq::new(n, |i: int| false)
}

/// A stream that codewords are appended to.
pub trait BitSink: Sized {
    /// The order in which the stream holds the digits of a field.
    spec fn order() -> BitOrder;

    /// The bits appended so far.
    spec fn bits(&self) -> Seq<bool>;

    /// Appends the γ code of `value` and returns its length.
    fn write_gamma(&mut self, value: u64) -> (n: usize)
        requires
            gamma_domain(value),
        ensures
            final(self).bits() == old(self).bits() + gamma_code(Self::order(), value),
            n == gamma_code(Self::order(), value).len(),
    ;

    /// As `write_gamma`; `USE_TABLE` only selects how the codeword is looked up.
    fn write_gamma_param<const USE_TABLE: bool>(&mut self, value: u64) -> (n: usize)
        requires
            gamma_domain(value),
        ensures
            final(self).bits() == old(self).bits() + gamma_code(Self::order(), value),
            n == gamma_code(Self::order(), value).len(),
    ;

    /// Appends the δ code of `value` and returns its length.
    fn write_delta(&mut self, value: u64) -> (n: usize)
        requires
            delta_domain(value),
        ensures
            final(self).bits() == old(self).bits() + delta_code(Self::order(), value),
            n == delta_code(Self::order(), value).len(),
    ;

    /// As `write_delta`; the flags only select how codewords are looked up.
    fn write_delta_param<const USE_DELTA_TABLE: bool, const USE_GAMMA_TABLE: bool>(
        &mut self,
        value: u64,
    ) -> (n: usize)
        requires
            delta_domain(value),
        ensures
            final(self).bits() == old(self).bits() + delta_code(Self::order(), value),
            n == delta_code(Self::order(), value).len(),
    ;

    /// Appends the ζ code with parameter `k` of `value` and returns its length.
    fn write_zeta(&mut self, value: u64, k: u64) -> (n: usize)
        requires
            zeta_domain(value, k),
        ensures
            final(self).bits() == old(self).bits() + zeta_code(Self::order(), value, k),
            n == zeta_code(Self::order(), value, k).len(),
    ;

    /// Appends the ζ code with parameter 3 of `value` and returns its length;
    /// `USE_TABLE` only selects how the codeword is looked up.
    fn write_zeta3_param<const USE_TABLE: bool>(&mut self, value: u64) -> (n: usize)
        requires
            zeta_domain(value, 3),
        ensures
            final(self).bits() == old(self).bits() + zeta_code(Self::order(), value, 3),
            n == zeta_code(Self::order(), value, 3).len(),
    ;

    /// Appends the Rice code of `value` with modulus `2^log2_b` and returns
    /// its length.
    fn write_rice(&mut self, value: u64, log2_b: usize) -> (n: usize)
        requires
            rice_domain(value, log2_b),
        ensures
            final(self).bits() == old(self).bits() + rice_code(Self::order(), value, log2_b),
            n == rice_code(Self::order(), value, log2_b).len(),
    ;

    /// Appends the exponential Golomb code of order `k` of `value` and
    /// returns its length.
    fn write_exp_golomb(&mut self, value: u64, k: usize) -> (n: usize)
        requires
            exp_golomb_domain(value, k),
        ensures
            final(self).bits() == old(self).bits() + exp_golomb_code(Self::order(), value, k),
            n == exp_golomb_code(Self::order(), value, k).len(),
    ;

    /// Appends the minimal binary code of `value` with upper bound `max` and
    /// returns its length.
    fn write_minimal_binary(&mut self, value: u64, max: u64) -> (n: usize)
        requires
            minimal_binary_domain(value, max),
        ensures
            final(self).bits() == old(self).bits() + minimal_binary_code(
                Self::order(),
                value,
                max,
            ),
            n == minimal_binary_code(Self::order(), value, max).len(),
    ;
}

/// A stream that codewords are read from, with a cursor.
pub trait BitSource: Sized {
    /// The order in which the stream holds the digits of a field.
    spec fn order() -> BitOrder;

    /// All the bits of the stream.
    spec fn bits(&self) -> Seq<bool>;

    /// The position of the next bit to read.
    spec fn pos(&self) -> int;

    /// Moves the cursor to bit `pos`.
    fn set_bit_pos(&mut self, pos: u64)
        requires
            pos <= old(self).bits().len(),
        ensures
            final(self).bits() == old(self).bits(),
            final(self).pos() == pos,
    ;

    /// Reads the γ code at the cursor and moves the cursor behind it.
    fn read_gamma(&mut self) -> (value: u64)
        requires
            gamma_parse(Self::order(), old(self).bits(), old(self).pos()) is Some,
        ensures
            final(self).bits() == old(self).bits(),
            gamma_parse(Self::order(), old(self).bits(), old(self).pos()) == Some(
                (value, final(self).pos()),
            ),
    ;

    /// As `read_gamma`; `USE_TABLE` only selects how the codeword is decoded.
    fn read_gamma_param<const USE_TABLE: bool>(&mut self) -> (value: u64)
        requires
            gamma_parse(Self::order(), old(self).bits(), old(self).pos()) is Some,
        ensures
            final(self).bits() == old(self).bits(),
            gamma_parse(Self::order(), old(self).bits(), old(self).pos()) == Some(
                (value, final(self).pos()),
            ),
    ;

    /// Reads the δ code at the cursor and moves the cursor behind it.
    fn read_delta(&mut self) -> (value: u64)
        requires
            delta_parse(Self::order(), old(self).bits(), old(self).pos()) is Some,
        ensures
            final(self).bits() == old(self).bits(),
            delta_parse(Self::order(), old(self).bits(), old(self).pos()) == Some(
                (value, final(self).pos()),
            ),
    ;

    /// As `read_delta`; the flags only select how codewords are decoded.
    fn read_delta_param<const USE_DELTA_TABLE: bool, const USE_GAMMA_TABLE: bool>(&mut self) -> (value: u64)
        requires
            delta_parse(Self::order(), old(self).bits(), old(self).pos()) is Some,
        ensures
            final(self).bits() == old(self).bits(),
            delta_parse(Self::order(), old(self).bits(), old(self).pos()) == Some(
                (value, final(self).pos()),
            ),
    ;

    /// Reads the ζ code with parameter `k` at the cursor and moves the cursor
    /// behind it.
    fn read_zeta(&mut self, k: u64) -> (value: u64)
        requires
            zeta_parse(Self::order(), old(self).bits(), old(self).pos(), k) is Some,
        ensures
            final(self).bits() == old(self).bits(),
            zeta_parse(Self::order(), old(self).bits(), old(self).pos(), k) == Some(
                (value, final(self).pos()),
            ),
    ;

    /// Reads the ζ code with parameter 3 at the cursor and moves the cursor
    /// behind it; `USE_TABLE` only selects how the codeword is decoded.
    fn read_zeta3_param<const USE_TABLE: bool>(&mut self) -> (value: u64)
        requires
            zeta_parse(Self::order(), old(self).bits(), old(self).pos(), 3) is Some,
        ensures
            final(self).bits() == old(self).bits(),
            zeta_parse(Self::order(), old(self).bits(), old(self).pos(), 3) == Some(
                (value, final(self).pos()),
            ),
    ;

    /// Reads the Rice code with modulus `2^log2_b` at the cursor and moves the
    /// cursor behind it.
    fn read_rice(&mut self, log2_b: usize) -> (value: u64)
        requires
            rice_parse(Self::order(), old(self).bits(), old(self).pos(), log2_b) is Some,
        ensures
            final(self).bits() == old(self).bits(),
            rice_parse(Self::order(), old(self).bits(), old(self).pos(), log2_b) == Some(
                (value, final(self).pos()),
            ),
    ;

    /// Reads the exponential Golomb code of order `k` at the cursor and moves
    /// the cursor behind it.
    fn read_exp_golomb(&mut self, k: usize) -> (value: u64)
        requires
            exp_golomb_parse(Self::order(), old(self).bits(), old(self).pos(), k) is Some,
        ensures
            final(self).bits() == old(self).bits(),
            exp_golomb_parse(Self::order(), old(self).bits(), old(self).pos(), k) == Some(
                (value, final(self).pos()),
            ),
    ;

    /// Reads the minimal binary code with upper bound `max` at the cursor and
    /// moves the cursor behind it.
    fn read_minimal_binary(&mut self, max: u64) -> (value: u64)
        requires
            minimal_binary_parse(Self::order(), old(self).bits(), old(self).pos(), max) is Some,
        ensures
            final(self).bits() == old(self).bits(),
            minimal_binary_parse(Self::order(), old(self).bits(), old(self).pos(), max) == Some(
                (value, final(self).pos()),
            ),
    ;
}

} // verus!
