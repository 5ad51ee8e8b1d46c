//! The codecs: for each code a type that says which values it takes, what
//! their codewords are, and that writes and reads them through a bit stream.
use vstd::prelude::*;
use vstd::arithmetic::power2::pow2;
use crate::bits::BitOrder;
use crate::codes::{
    delta_code, delta_domain, delta_parse, exp_golomb_code, exp_golomb_domain, exp_golomb_parse,
    floor_log2, gamma_code, gamma_domain, gamma_parse, lemma_delta_parse_bounds,
    lemma_delta_round_trip, lemma_exp_golomb_parse_bounds, lemma_exp_golomb_round_trip,
    lemma_gamma_parse_bounds, lemma_gamma_round_trip, lemma_minimal_binary_parse_bounds,
    lemma_minimal_binary_round_trip, lemma_rice_parse_bounds, lemma_rice_round_trip,
    lemma_zeta_parse_bounds, lemma_zeta_round_trip, minimal_binary_code, minimal_binary_domain,
    minimal_binary_parse, rice_code, rice_domain, rice_parse, zeta_code, zeta_domain, zeta_parse,
    MINIMAL_BINARY_BOUND_LIMIT,
};
use crate::error::CodecError;
use crate::stream::{BitSink, BitSource};

verus! {

/// A variable-length code for `u64` values, with the parameters it is run
/// with.
pub trait Codec {
    /// What the code is parameterized by; `()` where it has no parameter.
    type Params;

    /// Whether the code with these parameters has a codeword for `value`.
    spec fn in_domain(value: u64, params: Self::Params) -> bool;

    /// The codeword of `value` in a stream of the given order.
    spec fn code(order: BitOrder, value: u64, params: Self::Params) -> Seq<bool>;

    /// The value of the codeword that starts at `pos` and the position behind
    /// it, or `None` if no codeword starts there.
    spec fn parse(order: BitOrder, bits: Seq<bool>, pos: int, params: Self::Params) -> Option<
        (u64, int),
    >;

    /// A codeword is read back as the value it was written for, whatever
    /// surrounds it in the stream.
    proof fn lemma_round_trip(
        order: BitOrder,
        bits: Seq<bool>,
        pos: int,
        value: u64,
        params: Self::Params,
    )
        requires
            Self::in_domain(value, params),
            0 <= pos,
            pos + Self::code(order, value, params).len() <= bits.len(),
            bits.subrange(pos, pos + Self::code(order, value, params).len()) == Self::code(
                order,
                value,
                params,
            ),
        ensures
            Self::parse(order, bits, pos, params) == Some(
                (value, pos + Self::code(order, value, params).len()),
            ),
    ;

    /// A codeword that is read lies within the stream.
    proof fn lemma_parse_bounds(order: BitOrder, bits: Seq<bool>, pos: int, params: Self::Params)
        requires
            Self::parse(order, bits, pos, params) is Some,
        ensures
            0 <= pos <= Self::parse(order, bits, pos, params).unwrap().1 <= bits.len(),
    ;

    /// Appends the codeword of `value` to `writer` and returns its length in
    /// bits. Fails, and writes nothing, exactly when `value` is outside the
    /// domain.
    fn encode<W: BitSink>(writer: &mut W, value: u64, params: Self::Params) -> (r: Result<
        usize,
        CodecError,
    >)
        ensures
            r is Ok <==> Self::in_domain(value, params),
            r is Ok ==> final(writer).bits() == old(writer).bits() + Self::code(
                W::order(),
                value,
                params,
            ) && r.unwrap() == Self::code(W::order(), value, params).len(),
            r is Err ==> final(writer).bits() == old(writer).bits(),
    ;

    /// Reads the codeword at the cursor of `reader`, which must hold one
    /// there, and moves the cursor behind it.
    fn decode<R: BitSource>(reader: &mut R, params: Self::Params) -> (value: u64)
        requires
            Self::parse(R::order(), old(reader).bits(), old(reader).pos(), params) is Some,
        ensures
            final(reader).bits() == old(reader).bits(),
            Self::parse(R::order(), old(reader).bits(), old(reader).pos(), params) == Some(
                (value, final(reader).pos()),
            ),
    ;
}

/// `⌊log₂ n⌋`.
fn log2(n: u64) -> (l: u64)
    requires
        n >= 1,
    ensures
        l == floor_log2(n as nat),
        l <= 63,
{
    let mut rest: u64 = n;
    let mut l: u64 = 0;
    proof {
        vstd::arithmetic::power2::lemma2_to64();
        crate::codes::lemma_floor_log2_below(n as nat, 64);
    }
    while rest > 1
        invariant
            rest >= 1,
            l + floor_log2(rest as nat) == floor_log2(n as nat),
            floor_log2(n as nat) <= 63,
        decreases rest,
    {
        rest = rest / 2;
        l = l + 1;
    }
    l
}

/// Minimal binary code (truncated binary encoding) of the values below an
/// upper bound, which is the parameter.
#[derive(Clone, Copy, Debug)]
pub struct MinimalBinaryCodec;

impl Codec for MinimalBinaryCodec {
    type Params = u64;

    open spec fn in_domain(value: u64, upper_bound: u64) -> bool {
        minimal_binary_domain(value, upper_bound)
    }

    open spec fn code(order: BitOrder, value: u64, upper_bound: u64) -> Seq<bool> {
        minimal_binary_code(order, value, upper_bound)
    }

    open spec fn parse(order: BitOrder, bits: Seq<bool>, pos: int, upper_bound: u64) -> Option<
        (u64, int),
    > {
        minimal_binary_parse(order, bits, pos, upper_bound)
    }

    proof fn lemma_round_trip(order: BitOrder, bits: Seq<bool>, pos: int, value: u64, upper_bound: u64) {
        lemma_minimal_binary_round_trip(order, bits, pos, value, upper_bound);
    }

    proof fn lemma_parse_bounds(order: BitOrder, bits: Seq<bool>, pos: int, upper_bound: u64) {
        lemma_minimal_binary_parse_bounds(order, bits, pos, upper_bound);
    }

    fn encode<W: BitSink>(writer: &mut W, value: u64, upper_bound: u64) -> (r: Result<
        usize,
        CodecError,
    >) {
        if upper_bound == 0 || upper_bound >= MINIMAL_BINARY_BOUND_LIMIT || value >= upper_bound {
            return Err(CodecError::ValueOutOfDomain);
        }
        Ok(writer.write_minimal_binary(value, upper_bound))
    }

    fn decode<R: BitSource>(reader: &mut R, upper_bound: u64) -> (value: u64) {
        reader.read_minimal_binary(upper_bound)
    }
}

impl MinimalBinaryCodec {
    /// Appends the minimal binary code of `value` with the given upper bound.
    pub fn encode<W: BitSink>(writer: &mut W, value: u64, upper_bound: u64) -> (r: Result<
        usize,
        CodecError,
    >)
        ensures
            r is Ok <==> minimal_binary_domain(value, upper_bound),
            r is Ok ==> final(writer).bits() == old(writer).bits() + minimal_binary_code(
                W::order(),
                value,
                upper_bound,
            ) && r.unwrap() == minimal_binary_code(W::order(), value, upper_bound).len(),
            r is Err ==> final(writer).bits() == old(writer).bits(),
    {
        <Self as Codec>::encode(writer, value, upper_bound)
    }

    /// Reads the minimal binary code with the given upper bound at the cursor.
    pub fn decode<R: BitSource>(reader: &mut R, upper_bound: u64) -> (value: u64)
        requires
            minimal_binary_parse(R::order(), old(reader).bits(), old(reader).pos(), upper_bound) is Some,
        ensures
            final(reader).bits() == old(reader).bits(),
            minimal_binary_parse(R::order(), old(reader).bits(), old(reader).pos(), upper_bound)
                == Some((value, final(reader).pos())),
    {
        <Self as Codec>::decode(reader, upper_bound)
    }
}

/// Elias γ code; no parameter.
#[derive(Clone, Copy, Debug)]
pub struct GammaCodec;

impl Codec for GammaCodec {
    type Params = ();

    open spec fn in_domain(value: u64, params: ()) -> bool {
        gamma_domain(value)
    }

    open spec fn code(order: BitOrder, value: u64, params: ()) -> Seq<bool> {
        gamma_code(order, value)
    }

    open spec fn parse(order: BitOrder, bits: Seq<bool>, pos: int, params: ()) -> Option<(u64, int)> {
        gamma_parse(order, bits, pos)
    }

    proof fn lemma_round_trip(order: BitOrder, bits: Seq<bool>, pos: int, value: u64, params: ()) {
        lemma_gamma_round_trip(order, bits, pos, value);
    }

    proof fn lemma_parse_bounds(order: BitOrder, bits: Seq<bool>, pos: int, params: ()) {
        lemma_gamma_parse_bounds(order, bits, pos);
    }

    fn encode<W: BitSink>(writer: &mut W, value: u64, params: ()) -> (r: Result<usize, CodecError>) {
        if value == u64::MAX {
            return Err(CodecError::ValueOutOfDomain);
        }
        Ok(writer.write_gamma(value))
    }

    fn decode<R: BitSource>(reader: &mut R, params: ()) -> (value: u64) {
        reader.read_gamma()
    }
}

impl GammaCodec {
    /// Appends the γ code of `value`.
    pub fn encode<W: BitSink>(writer: &mut W, value: u64) -> (r: Result<usize, CodecError>)
        ensures
            r is Ok <==> gamma_domain(value),
            r is Ok ==> final(writer).bits() == old(writer).bits() + gamma_code(W::order(), value)
                && r.unwrap() == gamma_code(W::order(), value).len(),
            r is Err ==> final(writer).bits() == old(writer).bits(),
    {
        <Self as Codec>::encode(writer, value, ())
    }

    /// Reads the γ code at the cursor.
    pub fn decode<R: BitSource>(reader: &mut R) -> (value: u64)
        requires
            gamma_parse(R::order(), old(reader).bits(), old(reader).pos()) is Some,
        ensures
            final(reader).bits() == old(reader).bits(),
            gamma_parse(R::order(), old(reader).bits(), old(reader).pos()) == Some(
                (value, final(reader).pos()),
            ),
    {
        <Self as Codec>::decode(reader, ())
    }
}

/// Elias δ code; no parameter.
#[derive(Clone, Copy, Debug)]
pub struct DeltaCodec;

impl Codec for DeltaCodec {
    type Params = ();

    open spec fn in_domain(value: u64, params: ()) -> bool {
        delta_domain(value)
    }

    open spec fn code(order: BitOrder, value: u64, params: ()) -> Seq<bool> {
        delta_code(order, value)
    }

    open spec fn parse(order: BitOrder, bits: Seq<bool>, pos: int, params: ()) -> Option<(u64, int)> {
        delta_parse(order, bits, pos)
    }

    proof fn lemma_round_trip(order: BitOrder, bits: Seq<bool>, pos: int, value: u64, params: ()) {
        lemma_delta_round_trip(order, bits, pos, value);
    }

    proof fn lemma_parse_bounds(order: BitOrder, bits: Seq<bool>, pos: int, params: ()) {
        lemma_delta_parse_bounds(order, bits, pos);
    }

    fn encode<W: BitSink>(writer: &mut W, value: u64, params: ()) -> (r: Result<usize, CodecError>) {
        if value == u64::MAX {
            return Err(CodecError::ValueOutOfDomain);
        }
        Ok(writer.write_delta(value))
    }

    fn decode<R: BitSource>(reader: &mut R, params: ()) -> (value: u64) {
        reader.read_delta()
    }
}

impl DeltaCodec {
    /// Appends the δ code of `value`.
    pub fn encode<W: BitSink>(writer: &mut W, value: u64) -> (r: Result<usize, CodecError>)
        ensures
            r is Ok <==> delta_domain(value),
            r is Ok ==> final(writer).bits() == old(writer).bits() + delta_code(W::order(), value)
                && r.unwrap() == delta_code(W::order(), value).len(),
            r is Err ==> final(writer).bits() == old(writer).bits(),
    {
        <Self as Codec>::encode(writer, value, ())
    }

    /// Reads the δ code at the cursor.
    pub fn decode<R: BitSource>(reader: &mut R) -> (value: u64)
        requires
            delta_parse(R::order(), old(reader).bits(), old(reader).pos()) is Some,
        ensures
            final(reader).bits() == old(reader).bits(),
            delta_parse(R::order(), old(reader).bits(), old(reader).pos()) == Some(
                (value, final(reader).pos()),
            ),
    {
        <Self as Codec>::decode(reader, ())
    }
}

/// Exponential Golomb code; the parameter is its order `k`. Order 0 is the γ
/// code.
#[derive(Clone, Copy, Debug)]
pub struct ExpGolombCodec;

impl Codec for ExpGolombCodec {
    type Params = usize;

    open spec fn in_domain(value: u64, k: usize) -> bool {
        exp_golomb_domain(value, k)
    }

    open spec fn code(order: BitOrder, value: u64, k: usize) -> Seq<bool> {
        exp_golomb_code(order, value, k)
    }

    open spec fn parse(order: BitOrder, bits: Seq<bool>, pos: int, k: usize) -> Option<(u64, int)> {
        exp_golomb_parse(order, bits, pos, k)
    }

    proof fn lemma_round_trip(order: BitOrder, bits: Seq<bool>, pos: int, value: u64, k: usize) {
        lemma_exp_golomb_round_trip(order, bits, pos, value, k);
    }

    proof fn lemma_parse_bounds(order: BitOrder, bits: Seq<bool>, pos: int, k: usize) {
        lemma_exp_golomb_parse_bounds(order, bits, pos, k);
    }

    fn encode<W: BitSink>(writer: &mut W, value: u64, k: usize) -> (r: Result<usize, CodecError>) {
        if k > 63 {
            return Err(CodecError::ValueOutOfDomain);
        }
        let quotient = value >> (k as u64);
        proof {
            vstd::bits::lemma_u64_shr_is_div(value, k as u64);
        }
        if quotient == u64::MAX {
            return Err(CodecError::ValueOutOfDomain);
        }
        Ok(writer.write_exp_golomb(value, k))
    }

    fn decode<R: BitSource>(reader: &mut R, k: usize) -> (value: u64) {
        reader.read_exp_golomb(k)
    }
}

impl ExpGolombCodec {
    /// Appends the exponential Golomb code of order `k` of `value`.
    pub fn encode<W: BitSink>(writer: &mut W, value: u64, k: usize) -> (r: Result<usize, CodecError>)
        ensures
            r is Ok <==> exp_golomb_domain(value, k),
            r is Ok ==> final(writer).bits() == old(writer).bits() + exp_golomb_code(
                W::order(),
                value,
                k,
            ) && r.unwrap() == exp_golomb_code(W::order(), value, k).len(),
            r is Err ==> final(writer).bits() == old(writer).bits(),
    {
        <Self as Codec>::encode(writer, value, k)
    }

    /// Reads the exponential Golomb code of order `k` at the cursor.
    pub fn decode<R: BitSource>(reader: &mut R, k: usize) -> (value: u64)
        requires
            exp_golomb_parse(R::order(), old(reader).bits(), old(reader).pos(), k) is Some,
        ensures
            final(reader).bits() == old(reader).bits(),
            exp_golomb_parse(R::order(), old(reader).bits(), old(reader).pos(), k) == Some(
                (value, final(reader).pos()),
            ),
    {
        <Self as Codec>::decode(reader, k)
    }
}

/// Whether `value` has a ζ code with parameter `k`.
fn zeta_accepts(value: u64, k: u64) -> (ok: bool)
    ensures
        ok == zeta_domain(value, k),
{
    if value == u64::MAX || k == 0 || k > 63 {
        proof {
            if k > 63 {
                let h = floor_log2((value + 1) as nat) / k as nat;
                assert((h + 1) * k >= k) by (nonlinear_arith)
                    requires
                        h >= 0,
                        k >= 0,
                ;
            }
        }
        return false;
    }
    let h = log2(value + 1) / k;
    assert((h + 1) * k <= 64 * 63) by (nonlinear_arith)
        requires
            0 <= h <= 63,
            0 <= k <= 63,
    ;
    (h + 1) * k <= 63
}

/// Boldi–Vigna ζ code; the parameter is `k ≥ 1`.
#[derive(Clone, Copy, Debug)]
pub struct ZetaCodec;

impl Codec for ZetaCodec {
    type Params = u64;

    open spec fn in_domain(value: u64, k: u64) -> bool {
        zeta_domain(value, k)
    }

    open spec fn code(order: BitOrder, value: u64, k: u64) -> Seq<bool> {
        zeta_code(order, value, k)
    }

    open spec fn parse(order: BitOrder, bits: Seq<bool>, pos: int, k: u64) -> Option<(u64, int)> {
        zeta_parse(order, bits, pos, k)
    }

    proof fn lemma_round_trip(order: BitOrder, bits: Seq<bool>, pos: int, value: u64, k: u64) {
        lemma_zeta_round_trip(order, bits, pos, value, k);
    }

    proof fn lemma_parse_bounds(order: BitOrder, bits: Seq<bool>, pos: int, k: u64) {
        lemma_zeta_parse_bounds(order, bits, pos, k);
    }

    fn encode<W: BitSink>(writer: &mut W, value: u64, k: u64) -> (r: Result<usize, CodecError>) {
        if !zeta_accepts(value, k) {
            return Err(CodecError::ValueOutOfDomain);
        }
        Ok(writer.write_zeta(value, k))
    }

    fn decode<R: BitSource>(reader: &mut R, k: u64) -> (value: u64) {
        reader.read_zeta(k)
    }
}

impl ZetaCodec {
    /// Appends the ζ code with parameter `k` of `value`.
    pub fn encode<W: BitSink>(writer: &mut W, value: u64, k: u64) -> (r: Result<usize, CodecError>)
        ensures
            r is Ok <==> zeta_domain(value, k),
            r is Ok ==> final(writer).bits() == old(writer).bits() + zeta_code(W::order(), value, k)
                && r.unwrap() == zeta_code(W::order(), value, k).len(),
            r is Err ==> final(writer).bits() == old(writer).bits(),
    {
        <Self as Codec>::encode(writer, value, k)
    }

    /// Reads the ζ code with parameter `k` at the cursor.
    pub fn decode<R: BitSource>(reader: &mut R, k: u64) -> (value: u64)
        requires
            zeta_parse(R::order(), old(reader).bits(), old(reader).pos(), k) is Some,
        ensures
            final(reader).bits() == old(reader).bits(),
            zeta_parse(R::order(), old(reader).bits(), old(reader).pos(), k) == Some(
                (value, final(reader).pos()),
            ),
    {
        <Self as Codec>::decode(reader, k)
    }
}

/// Golomb–Rice code; the parameter is the base-2 logarithm of the modulus.
#[derive(Clone, Copy, Debug)]
pub struct RiceCodec;

impl Codec for RiceCodec {
    type Params = usize;

    open spec fn in_domain(value: u64, log2_b: usize) -> bool {
        rice_domain(value, log2_b)
    }

    open spec fn code(order: BitOrder, value: u64, log2_b: usize) -> Seq<bool> {
        rice_code(order, value, log2_b)
    }

    open spec fn parse(order: BitOrder, bits: Seq<bool>, pos: int, log2_b: usize) -> Option<(u64, int)> {
        rice_parse(order, bits, pos, log2_b)
    }

    proof fn lemma_round_trip(order: BitOrder, bits: Seq<bool>, pos: int, value: u64, log2_b: usize) {
        lemma_rice_round_trip(order, bits, pos, value, log2_b);
    }

    proof fn lemma_parse_bounds(order: BitOrder, bits: Seq<bool>, pos: int, log2_b: usize) {
        lemma_rice_parse_bounds(order, bits, pos, log2_b);
    }

    fn encode<W: BitSink>(writer: &mut W, value: u64, log2_b: usize) -> (r: Result<usize, CodecError>) {
        if log2_b > 63 {
            return Err(CodecError::ValueOutOfDomain);
        }
        let quotient = value >> (log2_b as u64);
        proof {
            vstd::bits::lemma_u64_shr_is_div(value, log2_b as u64);
        }
        if quotient as u128 + log2_b as u128 + 1 > usize::MAX as u128 {
            return Err(CodecError::ValueOutOfDomain);
        }
        Ok(writer.write_rice(value, log2_b))
    }

    fn decode<R: BitSource>(reader: &mut R, log2_b: usize) -> (value: u64) {
        reader.read_rice(log2_b)
    }
}

impl RiceCodec {
    /// Appends the Rice code of `value` with modulus `2^log2_b`.
    pub fn encode<W: BitSink>(writer: &mut W, value: u64, log2_b: usize) -> (r: Result<
        usize,
        CodecError,
    >)
        ensures
            r is Ok <==> rice_domain(value, log2_b),
            r is Ok ==> final(writer).bits() == old(writer).bits() + rice_code(
                W::order(),
                value,
                log2_b,
            ) && r.unwrap() == rice_code(W::order(), value, log2_b).len(),
            r is Err ==> final(writer).bits() == old(writer).bits(),
    {
        <Self as Codec>::encode(writer, value, log2_b)
    }

    /// Reads the Rice code with modulus `2^log2_b` at the cursor.
    pub fn decode<R: BitSource>(reader: &mut R, log2_b: usize) -> (value: u64)
        requires
            rice_parse(R::order(), old(reader).bits(), old(reader).pos(), log2_b) is Some,
        ensures
            final(reader).bits() == old(reader).bits(),
            rice_parse(R::order(), old(reader).bits(), old(reader).pos(), log2_b) == Some(
                (value, final(reader).pos()),
            ),
    {
        <Self as Codec>::decode(reader, log2_b)
    }
}

/// ζ code with parameter 3; `USE_TABLE` selects whether codewords are looked
/// up in a table, which changes no codeword and no value.
#[derive(Clone, Copy, Debug)]
pub struct ParamZetaCodec<const USE_TABLE: bool>;

impl<const USE_TABLE: bool> Codec for ParamZetaCodec<USE_TABLE> {
    type Params = ();

    open spec fn in_domain(value: u64, params: ()) -> bool {
        zeta_domain(value, 3)
    }

    open spec fn code(order: BitOrder, value: u64, params: ()) -> Seq<bool> {
        zeta_code(order, value, 3)
    }

    open spec fn parse(order: BitOrder, bits: Seq<bool>, pos: int, params: ()) -> Option<(u64, int)> {
        zeta_parse(order, bits, pos, 3)
    }

    proof fn lemma_round_trip(order: BitOrder, bits: Seq<bool>, pos: int, value: u64, params: ()) {
        lemma_zeta_round_trip(order, bits, pos, value, 3);
    }

    proof fn lemma_parse_bounds(order: BitOrder, bits: Seq<bool>, pos: int, params: ()) {
        lemma_zeta_parse_bounds(order, bits, pos, 3);
    }

    fn encode<W: BitSink>(writer: &mut W, value: u64, params: ()) -> (r: Result<usize, CodecError>) {
        if !zeta_accepts(value, 3) {
            return Err(CodecError::ValueOutOfDomain);
        }
        Ok(writer.write_zeta3_param::<USE_TABLE>(value))
    }

    fn decode<R: BitSource>(reader: &mut R, params: ()) -> (value: u64) {
        reader.read_zeta3_param::<USE_TABLE>()
    }
}

impl<const USE_TABLE: bool> ParamZetaCodec<USE_TABLE> {
    /// Appends the ζ code with parameter 3 of `value`.
    pub fn encode<W: BitSink>(writer: &mut W, value: u64) -> (r: Result<usize, CodecError>)
        ensures
            r is Ok <==> zeta_domain(value, 3),
            r is Ok ==> final(writer).bits() == old(writer).bits() + zeta_code(W::order(), value, 3)
                && r.unwrap() == zeta_code(W::order(), value, 3).len(),
            r is Err ==> final(writer).bits() == old(writer).bits(),
    {
        <Self as Codec>::encode(writer, value, ())
    }

    /// Reads the ζ code with parameter 3 at the cursor.
    pub fn decode<R: BitSource>(reader: &mut R) -> (value: u64)
        requires
            zeta_parse(R::order(), old(reader).bits(), old(reader).pos(), 3) is Some,
        ensures
            final(reader).bits() == old(reader).bits(),
            zeta_parse(R::order(), old(reader).bits(), old(reader).pos(), 3) == Some(
                (value, final(reader).pos()),
            ),
    {
        <Self as Codec>::decode(reader, ())
    }
}

/// δ code; the flags select whether whole codewords, and the γ code inside
/// them, are looked up in tables, which changes no codeword and no value.
#[derive(Clone, Copy, Debug)]
pub struct ParamDeltaCodec<const USE_DELTA_TABLE: bool, const USE_GAMMA_TABLE: bool>;

impl<const USE_DELTA_TABLE: bool, const USE_GAMMA_TABLE: bool> Codec for ParamDeltaCodec<
    USE_DELTA_TABLE,
    USE_GAMMA_TABLE,
> {
    type Params = ();

    open spec fn in_domain(value: u64, params: ()) -> bool {
        delta_domain(value)
    }

    open spec fn code(order: BitOrder, value: u64, params: ()) -> Seq<bool> {
        delta_code(order, value)
    }

    open spec fn parse(order: BitOrder, bits: Seq<bool>, pos: int, params: ()) -> Option<(u64, int)> {
        delta_parse(order, bits, pos)
    }

    proof fn lemma_round_trip(order: BitOrder, bits: Seq<bool>, pos: int, value: u64, params: ()) {
        lemma_delta_round_trip(order, bits, pos, value);
    }

    proof fn lemma_parse_bounds(order: BitOrder, bits: Seq<bool>, pos: int, params: ()) {
        lemma_delta_parse_bounds(order, bits, pos);
    }

    fn encode<W: BitSink>(writer: &mut W, value: u64, params: ()) -> (r: Result<usize, CodecError>) {
        if value == u64::MAX {
            return Err(CodecError::ValueOutOfDomain);
        }
        Ok(writer.write_delta_param::<USE_DELTA_TABLE, USE_GAMMA_TABLE>(value))
    }

    fn decode<R: BitSource>(reader: &mut R, params: ()) -> (value: u64) {
        reader.read_delta_param::<USE_DELTA_TABLE, USE_GAMMA_TABLE>()
    }
}

impl<const USE_DELTA_TABLE: bool, const USE_GAMMA_TABLE: bool> ParamDeltaCodec<
    USE_DELTA_TABLE,
    USE_GAMMA_TABLE,
> {
    /// Appends the δ code of `value`.
    pub fn encode<W: BitSink>(writer: &mut W, value: u64) -> (r: Result<usize, CodecError>)
        ensures
            r is Ok <==> delta_domain(value),
            r is Ok ==> final(writer).bits() == old(writer).bits() + delta_code(W::order(), value)
                && r.unwrap() == delta_code(W::order(), value).len(),
            r is Err ==> final(writer).bits() == old(writer).bits(),
    {
        <Self as Codec>::encode(writer, value, ())
    }

    /// Reads the δ code at the cursor.
    pub fn decode<R: BitSource>(reader: &mut R) -> (value: u64)
        requires
            delta_parse(R::order(), old(reader).bits(), old(reader).pos()) is Some,
        ensures
            final(reader).bits() == old(reader).bits(),
            delta_parse(R::order(), old(reader).bits(), old(reader).pos()) == Some(
                (value, final(reader).pos()),
            ),
    {
        <Self as Codec>::decode(reader, ())
    }
}

/// γ code; `USE_TABLE` selects whether codewords are looked up in a table,
/// which changes no codeword and no value.
#[derive(Clone, Copy, Debug)]
pub struct ParamGammaCodec<const USE_TABLE: bool>;

impl<const USE_TABLE: bool> Codec for ParamGammaCodec<USE_TABLE> {
    type Params = ();

    open spec fn in_domain(value: u64, params: ()) -> bool {
        gamma_domain(value)
    }

    open spec fn code(order: BitOrder, value: u64, params: ()) -> Seq<bool> {
        gamma_code(order, value)
    }

    open spec fn parse(order: BitOrder, bits: Seq<bool>, pos: int, params: ()) -> Option<(u64, int)> {
        gamma_parse(order, bits, pos)
    }

    proof fn lemma_round_trip(order: BitOrder, bits: Seq<bool>, pos: int, value: u64, params: ()) {
        lemma_gamma_round_trip(order, bits, pos, value);
    }

    proof fn lemma_parse_bounds(order: BitOrder, bits: Seq<bool>, pos: int, params: ()) {
        lemma_gamma_parse_bounds(order, bits, pos);
    }

    fn encode<W: BitSink>(writer: &mut W, value: u64, params: ()) -> (r: Result<usize, CodecError>) {
        if value == u64::MAX {
            return Err(CodecError::ValueOutOfDomain);
        }
        Ok(writer.write_gamma_param::<USE_TABLE>(value))
    }

    fn decode<R: BitSource>(reader: &mut R, params: ()) -> (value: u64) {
        reader.read_gamma_param::<USE_TABLE>()
    }
}

impl<const USE_TABLE: bool> ParamGammaCodec<USE_TABLE> {
    /// Appends the γ code of `value`.
    pub fn encode<W: BitSink>(writer: &mut W, value: u64) -> (r: Result<usize, CodecError>)
        ensures
            r is Ok <==> gamma_domain(value),
            r is Ok ==> final(writer).bits() == old(writer).bits() + gamma_code(W::order(), value)
                && r.unwrap() == gamma_code(W::order(), value).len(),
            r is Err ==> final(writer).bits() == old(writer).bits(),
    {
        <Self as Codec>::encode(writer, value, ())
    }

    /// Reads the γ code at the cursor.
    pub fn decode<R: BitSource>(reader: &mut R) -> (value: u64)
        requires
            gamma_parse(R::order(), old(reader).bits(), old(reader).pos()) is Some,
        ensures
            final(reader).bits() == old(reader).bits(),
            gamma_parse(R::order(), old(reader).bits(), old(reader).pos()) == Some(
                (value, final(reader).pos()),
            ),
    {
        <Self as Codec>::decode(reader, ())
    }
}

/// The table flags change nothing. With any flags the parameterized codecs
/// take the values, write the codewords and read the values of the γ code,
/// the δ code and the ζ code with parameter 3: what one variant wrote, any
/// other reads back as the same values.
pub proof fn lemma_tables_change_nothing<
    const A: bool,
    const B: bool,
    const C: bool,
    const D: bool,
>(order: BitOrder, bits: Seq<bool>, pos: int, value: u64)
    ensures
        ParamGammaCodec::<A>::in_domain(value, ()) == GammaCodec::in_domain(value, ()),
        ParamGammaCodec::<A>::code(order, value, ()) == GammaCodec::code(order, value, ()),
        ParamGammaCodec::<A>::parse(order, bits, pos, ()) == GammaCodec::parse(order, bits, pos, ()),
        ParamGammaCodec::<A>::parse(order, bits, pos, ()) == ParamGammaCodec::<B>::parse(
            order,
            bits,
            pos,
            (),
        ),
        ParamDeltaCodec::<A, B>::in_domain(value, ()) == DeltaCodec::in_domain(value, ()),
        ParamDeltaCodec::<A, B>::code(order, value, ()) == DeltaCodec::code(order, value, ()),
        ParamDeltaCodec::<A, B>::parse(order, bits, pos, ()) == DeltaCodec::parse(order, bits, pos, ()),
        ParamDeltaCodec::<A, B>::parse(order, bits, pos, ()) == ParamDeltaCodec::<C, D>::parse(
            order,
            bits,
            pos,
            (),
        ),
        ParamZetaCodec::<A>::in_domain(value, ()) == ZetaCodec::in_domain(value, 3),
        ParamZetaCodec::<A>::code(order, value, ()) == ZetaCodec::code(order, value, 3),
        ParamZetaCodec::<A>::parse(order, bits, pos, ()) == ZetaCodec::parse(order, bits, pos, 3),
        ParamZetaCodec::<A>::parse(order, bits, pos, ()) == ParamZetaCodec::<B>::parse(
            order,
            bits,
            pos,
            (),
        ),
{
}

} // verus!
