//! The compressed vector: values stored as codewords in a packed bit stream,
//! with the bit offset of every `k`-th codeword recorded so that any element
//! is reached by decoding at most `k` codewords.
//!
//! [`BEIntVec`] and [`LEIntVec`] are the two variants, over a big-endian and
//! a little-endian stream; [`IntVec`] is what they share.
use vstd::prelude::*;
use core::marker::PhantomData;
use crate::bits::BitOrder;
use crate::be::{BeReader, BeWriter};
use crate::le::{LeReader, LeWriter};
use crate::codecs::Codec;
use crate::error::BuildError;
use crate::sequence::{
    all_in_domain, block_count, block_position, decoded, encoded, lemma_block_count_step, lemma_block_of,
    lemma_block_start, lemma_decode_encoded, lemma_decoded_len, lemma_decoded_positions,
    lemma_decoded_step, lemma_encoded_len_monotone, lemma_encoded_push, lemma_sample_offsets,
    sample_offsets,
};
use crate::stream::{packed_bits, zeros, BitSink, BitSource, Endianness, BE, LE};

verus! {

/// A compressed vector of `u64` values.
///
/// `E` says in which bit order the stream is kept and `C` which code the
/// values are written in. Use it through [`BEIntVec`] and [`LEIntVec`].
#[derive(Debug)]
pub struct IntVec<E: Endianness, C: Codec> {
    /// The packed stream of codewords.
    data: Vec<u64>,
    /// The bit offset of the first codeword of each block of `k` values.
    samples: Vec<usize>,
    /// The sampling period.
    k: usize,
    /// The number of values.
    len: usize,
    /// The parameters that the code was run with.
    codec_param: C::Params,
    codec: PhantomData<C>,
    endian: PhantomData<E>,
}

/// Big-endian variant of [`IntVec`].
pub type BEIntVec<C> = IntVec<BE, C>;

/// Little-endian variant of [`IntVec`].
pub type LEIntVec<C> = IntVec<LE, C>;

impl<E: Endianness, C: Codec> View for IntVec<E, C> {
    type V = Seq<u64>;

    /// The values that the vector holds: what its stream decodes to.
    open spec fn view(&self) -> Seq<u64> {
        decoded::<C>(E::order(), self.bits(), self.params(), self.count()).unwrap().0
    }
}

impl<E: Endianness, C: Codec> IntVec<E, C> {
    /// The words of the packed stream.
    pub closed spec fn words(&self) -> Seq<u64> {
        self.data@
    }

    /// The recorded bit offsets, one for each block.
    pub closed spec fn offsets(&self) -> Seq<int> {
        self.samples@.map_values(|s: usize| s as int)
    }

    /// The sampling period.
    pub closed spec fn period(&self) -> nat {
        self.k as nat
    }

    /// The number of values.
    pub closed spec fn count(&self) -> nat {
        self.len as nat
    }

    /// The parameters of the code.
    pub closed spec fn params(&self) -> C::Params {
        self.codec_param
    }

    /// The bits of the packed stream.
    pub open spec fn bits(&self) -> Seq<bool> {
        packed_bits(E::order(), self.words())
    }

    /// The value at `index`, if there is one.
    pub open spec fn element(&self, index: usize) -> Option<u64> {
        if index < self@.len() {
            Some(self@[index as int])
        } else {
            None
        }
    }

    /// The stream decodes to `len` values, and the samples are the positions
    /// at which the blocks of `k` values begin.
    #[verifier::type_invariant]
    spec fn well_formed(&self) -> bool {
        &&& self.k >= 1
        &&& decoded::<C>(E::order(), self.bits(), self.codec_param, self.len as nat) is Some
        &&& self.samples@.len() == block_count(self.len as nat, self.k as nat)
        &&& forall|j: int|
            0 <= j < self.samples@.len() ==> #[trigger] block_position::<C>(
                E::order(),
                self.bits(),
                self.codec_param,
                self.k as nat,
                j,
            ) == Some(self.samples@[j] as int)
    }
}

impl<E: Endianness, C: Codec> Clone for IntVec<E, C> where C::Params: Copy {
    /// A vector with the same stream, samples and parameters, and so the same
    /// values.
    fn clone(&self) -> (copy: Self)
        ensures
            copy@ == self@,
            copy.words() == self.words(),
            copy.offsets() == self.offsets(),
            copy.period() == self.period(),
            copy.count() == self.count(),
            copy.params() == self.params(),
    {
        proof {
            use_type_invariant(self);
        }
        let data = self.data.clone();
        let samples = self.samples.clone();
        proof {
            assert(data@ =~= self.data@);
            assert(samples@ =~= self.samples@);
        }
        IntVec {
            data,
            samples,
            k: self.k,
            len: self.len,
            codec_param: self.codec_param,
            codec: PhantomData,
            endian: PhantomData,
        }
    }
}

/// Whether a vector can be built from `input`: the period is positive, each
/// value has a codeword, and the stream is short enough for its bits to be
/// counted.
pub open spec fn can_build<C: Codec>(order: BitOrder, input: Seq<u64>, k: usize, params: C::Params) -> bool {
    &&& k >= 1
    &&& all_in_domain::<C>(input, params)
    &&& encoded::<C>(order, input, params).len() <= usize::MAX
}

/// The one error that building from `input` ends in, where it fails. A zero
/// period comes first; otherwise the first value, in order, that cannot be
/// appended decides: it has no codeword, or its codeword takes the stream
/// beyond `usize::MAX` bits.
pub open spec fn build_error<C: Codec>(
    order: BitOrder,
    input: Seq<u64>,
    k: usize,
    params: C::Params,
    e: BuildError,
) -> bool {
    match e {
        BuildError::ZeroSamplingPeriod => k == 0,
        BuildError::ValueOutOfDomain { index } => {
            &&& k >= 1
            &&& index < input.len()
            &&& all_in_domain::<C>(input.take(index as int), params)
            &&& encoded::<C>(order, input.take(index as int), params).len() <= usize::MAX
            &&& !C::in_domain(input[index as int], params)
        },
        BuildError::StreamTooLong { index } => {
            &&& k >= 1
            &&& index < input.len()
            &&& all_in_domain::<C>(input.take(index + 1), params)
            &&& encoded::<C>(order, input.take(index as int), params).len() <= usize::MAX
            &&& encoded::<C>(order, input.take(index + 1), params).len() > usize::MAX
        },
    }
}

/// An input that fails cannot be built from.
proof fn lemma_error_excludes_build<C: Codec>(
    order: BitOrder,
    input: Seq<u64>,
    k: usize,
    params: C::Params,
    e: BuildError,
)
    requires
        build_error::<C>(order, input, k, params, e),
    ensures
        !can_build::<C>(order, input, k, params),
{
    match e {
        BuildError::ZeroSamplingPeriod => {},
        BuildError::ValueOutOfDomain { index } => {},
        BuildError::StreamTooLong { index } => {
            lemma_encoded_len_monotone::<C>(order, input, params, index + 1, input.len() as int);
            assert(input.take(input.len() as int) =~= input);
        },
    }
}

/// Determinism. What `get` returns is a function of the vector and the
/// index: two calls with the same index on the same vector give the same
/// answer.
pub proof fn lemma_get_deterministic<E: Endianness, C: Codec>(
    v: IntVec<E, C>,
    index: usize,
    first: Option<u64>,
    second: Option<u64>,
)
    requires
        first == v.element(index),
        second == v.element(index),
    ensures
        first == second,
{
}

/// Random access. A vector that holds `values` answers each index below their
/// number with the value at that index, and each other index with `None`.
pub proof fn lemma_get_values<E: Endianness, C: Codec>(v: IntVec<E, C>, values: Seq<u64>, index: usize)
    requires
        v@ == values,
    ensures
        index < values.len() ==> v.element(index) == Some(values[index as int]),
        index >= values.len() ==> v.element(index) is None,
{
}

/// Empty input. For every positive period the empty sequence can be built
/// from, with any code and parameters; the stream and the samples are empty,
/// and a vector that holds no value answers every index with `None`.
pub proof fn lemma_empty_input<E: Endianness, C: Codec>(
    k: usize,
    params: C::Params,
    v: IntVec<E, C>,
    index: usize,
)
    requires
        k >= 1,
        v@ == Seq::<u64>::empty(),
    ensures
        can_build::<C>(E::order(), Seq::<u64>::empty(), k, params),
        encoded::<C>(E::order(), Seq::<u64>::empty(), params).len() == 0,
        sample_offsets::<C>(E::order(), Seq::<u64>::empty(), params, k as nat).len() == 0,
        v@.len() == 0,
        v.element(index) is None,
{
    lemma_sample_offsets::<C>(E::order(), Seq::<u64>::empty(), params, k as nat);
}

/// Single element. A sequence of one value has one sample, at offset 0, for
/// every positive period.
pub proof fn lemma_single_element<C: Codec>(order: BitOrder, value: u64, k: usize, params: C::Params)
    requires
        k >= 1,
    ensures
        sample_offsets::<C>(order, seq![value], params, k as nat) == seq![0int],
{
    lemma_sample_offsets::<C>(order, seq![value], params, k as nat);
    lemma_block_of(1, k as nat, 0);
    lemma_block_start(1, k as nat, (sample_offsets::<C>(order, seq![value], params, k as nat).len() - 1) as nat);
    let offsets = sample_offsets::<C>(order, seq![value], params, k as nat);
    let last = offsets.len() - 1;
    assert(last * k < 1);
    assert(last == 0) by (nonlinear_arith)
        requires
            last * k < 1,
            k >= 1,
            last >= 0,
    ;
    assert(offsets =~= seq![0int]);
}

/// Round trip. A stream that holds the codewords of `values`, padded with
/// zeros, decodes to `values`, whatever the code, its parameters and the bit
/// order, as long as each value is in the domain of the code; and block `j`
/// of `period` values begins at offset `j` of the samples. This is why what
/// `from_with_param` builds hands back its input.
pub proof fn lemma_round_trip<C: Codec>(
    order: BitOrder,
    bits: Seq<bool>,
    values: Seq<u64>,
    params: C::Params,
    period: nat,
)
    requires
        period >= 1,
        all_in_domain::<C>(values, params),
        bits == encoded::<C>(order, values, params) + zeros(
            (bits.len() - encoded::<C>(order, values, params).len()) as nat,
        ),
        encoded::<C>(order, values, params).len() <= bits.len(),
    ensures
        decoded::<C>(order, bits, params, values.len()) == Some(
            (values, encoded::<C>(order, values, params).len() as int),
        ),
        forall|j: int|
            0 <= j < block_count(values.len(), period) ==> #[trigger] block_position::<C>(
                order,
                bits,
                params,
                period,
                j,
            ) == Some(sample_offsets::<C>(order, values, params, period)[j]),
{
    let stream = encoded::<C>(order, values, params);
    assert(bits.subrange(0, stream.len() as int) =~= stream);
    lemma_decode_encoded::<C>(order, bits, values, params, values.len());
    assert(values.take(values.len() as int) =~= values);
    assert forall|j: int| 0 <= j < block_count(values.len(), period) implies #[trigger] block_position::<
        C,
    >(order, bits, params, period, j) == Some(
        sample_offsets::<C>(order, values, params, period)[j],
    ) by {
        lemma_block_start(values.len(), period, j as nat);
        lemma_decode_encoded::<C>(order, bits, values, params, (j * period) as nat);
    }
}

/// Appends the codewords of `input` to an empty stream, and returns the bit
/// offset at which each block of `k` values begins.
fn encode_all<W: BitSink, C: Codec>(
    writer: &mut W,
    input: &[u64],
    k: usize,
    codec_param: C::Params,
) -> (r: Result<Vec<usize>, BuildError>) where C::Params: Copy
    requires
        k >= 1,
        old(writer).bits() == Seq::<bool>::empty(),
    ensures
        match r {
            Ok(samples) => {
                &&& can_build::<C>(W::order(), input@, k, codec_param)
                &&& final(writer).bits() == encoded::<C>(W::order(), input@, codec_param)
                &&& samples@.map_values(|s: usize| s as int) == sample_offsets::<C>(
                    W::order(),
                    input@,
                    codec_param,
                    k as nat,
                )
            },
            Err(e) => build_error::<C>(W::order(), input@, k, codec_param, e),
        },
{
    let mut samples: Vec<usize> = Vec::new();
    let mut total_bits: usize = 0;
    let mut i: usize = 0;
    proof {
        assert(input@.take(0) =~= Seq::<u64>::empty());
        lemma_sample_offsets::<C>(W::order(), input@.take(0), codec_param, k as nat);
        assert(samples@.map_values(|s: usize| s as int) =~= sample_offsets::<C>(
            W::order(),
            input@.take(0),
            codec_param,
            k as nat,
        ));
    }
    while i < input.len()
        invariant
            k >= 1,
            i <= input.len(),
            all_in_domain::<C>(input@.take(i as int), codec_param),
            writer.bits() == encoded::<C>(W::order(), input@.take(i as int), codec_param),
            total_bits == writer.bits().len(),
            samples@.map_values(|s: usize| s as int) == sample_offsets::<C>(
                W::order(),
                input@.take(i as int),
                codec_param,
                k as nat,
            ),
        decreases input.len() - i,
    {
        let ghost before = samples@.map_values(|s: usize| s as int);
        if i % k == 0 {
            samples.push(total_bits);
        }
        proof {
            lemma_encoded_push::<C>(W::order(), input@, codec_param, i as int);
            lemma_samples_step::<C>(W::order(), input@, codec_param, k as nat, i as int);
            if i % k == 0 {
                assert(samples@.map_values(|s: usize| s as int) =~= before.push(total_bits as int));
            }
        }
        match C::encode(writer, input[i], codec_param) {
            Err(_) => {
                return Err(BuildError::ValueOutOfDomain { index: i });
            },
            Ok(n) => {
                proof {
                    assert forall|j: int| 0 <= j < i + 1 implies C::in_domain(
                        #[trigger] input@.take(i + 1)[j],
                        codec_param,
                    ) by {
                        if j < i {
                            assert(input@.take(i as int)[j] == input@[j]);
                        }
                    }
                }
                match total_bits.checked_add(n) {
                    None => {
                        return Err(BuildError::StreamTooLong { index: i });
                    },
                    Some(sum) => {
                        total_bits = sum;
                    },
                }
            },
        }
        i += 1;
    }
    proof {
        assert(input@.take(i as int) =~= input@);
    }
    Ok(samples)
}

/// Recording a sample before every `period`-th value keeps the samples in
/// step with the offsets of the blocks.
proof fn lemma_samples_step<C: Codec>(
    order: BitOrder,
    values: Seq<u64>,
    params: C::Params,
    period: nat,
    i: int,
)
    requires
        period >= 1,
        0 <= i < values.len(),
    ensures
        sample_offsets::<C>(order, values.take(i + 1), params, period) == (if i % period as int == 0 {
            sample_offsets::<C>(order, values.take(i), params, period).push(
                encoded::<C>(order, values.take(i), params).len() as int,
            )
        } else {
            sample_offsets::<C>(order, values.take(i), params, period)
        }),
{
    let short = sample_offsets::<C>(order, values.take(i), params, period);
    let long = sample_offsets::<C>(order, values.take(i + 1), params, period);
    lemma_block_count_step(i as nat, period);
    assert forall|j: int| 0 <= j < short.len() implies long[j] == short[j] by {
        lemma_block_start(i as nat, period, j as nat);
        assert(values.take(i + 1).take(j * period) =~= values.take(i).take(j * period));
    }
    if i % period as int == 0 {
        let last = short.len() as int;
        assert(last * period == i);
        assert(values.take(i + 1).take(last * period) =~= values.take(i));
        assert(long =~= short.push(encoded::<C>(order, values.take(i), params).len() as int));
    } else {
        assert(long =~= short);
    }
}

/// Decodes the codewords of the values `first ..= last`, from a cursor that
/// stands at the first of them, and returns the last value.
fn decode_through<R: BitSource, C: Codec>(
    reader: &mut R,
    first: usize,
    last: usize,
    codec_param: C::Params,
    Ghost(count): Ghost<nat>,
) -> (value: u64) where C::Params: Copy
    requires
        first <= last < count <= usize::MAX,
        decoded::<C>(R::order(), old(reader).bits(), codec_param, count) is Some,
        decoded::<C>(R::order(), old(reader).bits(), codec_param, first as nat) is Some,
        old(reader).pos() == decoded::<C>(
            R::order(),
            old(reader).bits(),
            codec_param,
            first as nat,
        ).unwrap().1,
    ensures
        final(reader).bits() == old(reader).bits(),
        value == decoded::<C>(R::order(), old(reader).bits(), codec_param, count).unwrap().0[last as int],
{
    let ghost bits = reader.bits();
    let mut value: u64 = 0;
    let mut i: usize = first;
    while i <= last
        invariant
            first <= i <= last + 1,
            last < count <= usize::MAX,
            reader.bits() == bits,
            decoded::<C>(R::order(), bits, codec_param, count) is Some,
            decoded::<C>(R::order(), bits, codec_param, i as nat) is Some,
            reader.pos() == decoded::<C>(R::order(), bits, codec_param, i as nat).unwrap().1,
            i > first ==> value == decoded::<C>(R::order(), bits, codec_param, count).unwrap().0[i
                - 1],
        decreases last + 1 - i,
    {
        proof {
            lemma_decoded_step::<C>(R::order(), bits, codec_param, count, i as nat);
        }
        value = C::decode(reader, codec_param);
        i += 1;
    }
    value
}

/// Decodes `count` codewords from a cursor that stands at the start of the
/// stream.
fn decode_all<R: BitSource, C: Codec>(reader: &mut R, count: usize, codec_param: C::Params) -> (values:
    Vec<u64>) where C::Params: Copy
    requires
        old(reader).pos() == 0,
        decoded::<C>(R::order(), old(reader).bits(), codec_param, count as nat) is Some,
    ensures
        final(reader).bits() == old(reader).bits(),
        values@ == decoded::<C>(R::order(), old(reader).bits(), codec_param, count as nat).unwrap().0,
{
    let ghost bits = reader.bits();
    let ghost whole = decoded::<C>(R::order(), bits, codec_param, count as nat).unwrap().0;
    let mut values: Vec<u64> = Vec::with_capacity(count);
    let mut i: usize = 0;
    proof {
        lemma_decoded_len::<C>(R::order(), bits, codec_param, count as nat);
    }
    while i < count
        invariant
            i <= count,
            reader.bits() == bits,
            decoded::<C>(R::order(), bits, codec_param, count as nat) == Some(
                (whole, decoded::<C>(R::order(), bits, codec_param, count as nat).unwrap().1),
            ),
            whole.len() == count,
            decoded::<C>(R::order(), bits, codec_param, i as nat) is Some,
            reader.pos() == decoded::<C>(R::order(), bits, codec_param, i as nat).unwrap().1,
            values@ == whole.take(i as int),
        decreases count - i,
    {
        proof {
            lemma_decoded_step::<C>(R::order(), bits, codec_param, count as nat, i as nat);
        }
        let value = C::decode(reader, codec_param);
        values.push(value);
        proof {
            assert(values@ =~= whole.take(i + 1));
        }
        i += 1;
    }
    proof {
        assert(whole.take(count as int) =~= whole);
    }
    values
}

impl<C: Codec> BEIntVec<C> where C::Params: Copy {
    /// Compresses `input`, recording a sample every `k` values.
    ///
    /// Fails if `k` is 0, if the code with these parameters has no codeword
    /// for one of the values, or if the stream would be longer than
    /// `usize::MAX` bits; nothing is built then.
    pub fn from_with_param(input: &[u64], k: usize, codec_param: C::Params) -> (r: Result<
        Self,
        BuildError,
    >)
        ensures
            r is Ok <==> can_build::<C>(BitOrder::Big, input@, k, codec_param),
            match r {
                Ok(v) => {
                    &&& v@ == input@
                    &&& v.count() == input@.len()
                    &&& v.period() == k
                    &&& v.params() == codec_param
                    &&& v.offsets() == sample_offsets::<C>(
                        BitOrder::Big,
                        input@,
                        codec_param,
                        k as nat,
                    )
                    &&& v.words().len() == (encoded::<C>(BitOrder::Big, input@, codec_param).len()
                        + 63) / 64
                    &&& v.bits() == encoded::<C>(BitOrder::Big, input@, codec_param) + zeros(
                        (v.bits().len() - encoded::<C>(BitOrder::Big, input@, codec_param).len()) as nat,
                    )
                },
                Err(e) => build_error::<C>(BitOrder::Big, input@, k, codec_param, e),
            },
    {
        if k == 0 {
            return Err(BuildError::ZeroSamplingPeriod);
        }
        let mut writer = BeWriter::new();
        let samples = match encode_all::<BeWriter, C>(&mut writer, input, k, codec_param) {
            Ok(samples) => samples,
            Err(e) => {
                proof {
                    lemma_error_excludes_build::<C>(BitOrder::Big, input@, k, codec_param, e);
                }
                return Err(e);
            },
        };
        let data = writer.into_words();
        proof {
            let bits = packed_bits(BitOrder::Big, data@);
            lemma_round_trip::<C>(BitOrder::Big, bits, input@, codec_param, k as nat);
            lemma_sample_offsets::<C>(BitOrder::Big, input@, codec_param, k as nat);
            assert forall|j: int| 0 <= j < samples@.len() implies #[trigger] block_position::<C>(
                BitOrder::Big,
                bits,
                codec_param,
                k as nat,
                j,
            ) == Some(samples@[j] as int) by {
                assert(samples@.map_values(|s: usize| s as int)[j] == sample_offsets::<C>(
                    BitOrder::Big,
                    input@,
                    codec_param,
                    k as nat,
                )[j]);
            }
        }
        Ok(
            IntVec {
                data,
                samples,
                k,
                len: input.len(),
                codec_param,
                codec: PhantomData,
                endian: PhantomData,
            },
        )
    }

    /// The value at `index`, or `None` if `index` is not below the length.
    ///
    /// Decoding starts at the sample of the block that `index` lies in and
    /// reads the values of the block up to `index`.
    #[inline(always)]
    pub fn get(&self, index: usize) -> (r: Option<u64>)
        ensures
            r == self.element(index),
    {
        proof {
            use_type_invariant(self);
            lemma_decoded_len::<C>(BitOrder::Big, self.bits(), self.codec_param, self.len as nat);
        }
        if index >= self.len {
            return None;
        }
        let sample_index = index / self.k;
        proof {
            lemma_block_of(self.len as nat, self.k as nat, index as nat);
            lemma_decoded_positions::<C>(
                BitOrder::Big,
                self.bits(),
                self.codec_param,
                self.len as nat,
                (sample_index * self.k) as nat,
            );
            assert(block_position::<C>(
                BitOrder::Big,
                self.bits(),
                self.codec_param,
                self.k as nat,
                sample_index as int,
            ) == Some(self.samples@[sample_index as int] as int));
        }
        let start_bit = self.samples[sample_index];
        let mut reader = BeReader::new(&self.data);
        reader.set_bit_pos(start_bit as u64);
        let start_index = sample_index * self.k;
        let value = decode_through::<BeReader, C>(
            &mut reader,
            start_index,
            index,
            self.codec_param,
            Ghost(self.len as nat),
        );
        Some(value)
    }

    /// All the values, decoded in one pass over the stream.
    pub fn into_vec(self) -> (values: Vec<u64>)
        ensures
            values@ == self@,
    {
        proof {
            use_type_invariant(&self);
        }
        let mut reader = BeReader::new(&self.data);
        decode_all::<BeReader, C>(&mut reader, self.len, self.codec_param)
    }

    /// An iterator over the values, which decodes them one by one from the
    /// start of the stream.
    pub fn iter(&self) -> (it: BEIntVecIter<'_, C>)
        ensures
            it.wf(),
            it.source() == *self,
            it.index() == 0,
            it.remaining() == self@,
    {
        proof {
            use_type_invariant(self);
        }
        let reader = BeReader::new(&self.data);
        let it = BEIntVecIter { intvec: self, reader, current_index: 0 };
        proof {
            assert(it.remaining() =~= self@);
        }
        it
    }

    /// A copy of the words of the packed stream.
    pub fn limbs(&self) -> (words: Vec<u64>)
        ensures
            words@ == self.words(),
    {
        let words = self.data.clone();
        proof {
            assert(words@ =~= self.data@);
        }
        words
    }

    /// The number of values.
    pub fn len(&self) -> (n: usize)
        ensures
            n == self@.len(),
            n == self.count(),
    {
        proof {
            use_type_invariant(self);
            lemma_decoded_len::<C>(BitOrder::Big, self.bits(), self.codec_param, self.len as nat);
        }
        self.len
    }

    /// Whether the vector holds no value.
    pub fn is_empty(&self) -> (b: bool)
        ensures
            b == (self@.len() == 0),
    {
        proof {
            use_type_invariant(self);
            lemma_decoded_len::<C>(BitOrder::Big, self.bits(), self.codec_param, self.len as nat);
        }
        self.len == 0
    }

    /// The sampling period: a sample is recorded for every `k`-th value.
    pub fn get_sampling_rate(&self) -> (k: usize)
        ensures
            k == self.period(),
            k >= 1,
    {
        proof {
            use_type_invariant(self);
        }
        self.k
    }

    /// The parameters that the code is run with.
    pub fn get_codec_param(&self) -> (p: C::Params)
        ensures
            p == self.params(),
    {
        self.codec_param
    }

    /// The samples: for each block of `k` values the bit offset at which its
    /// first codeword begins. There is one for each block, the first is 0,
    /// and they do not decrease.
    pub fn get_samples(&self) -> (samples: &Vec<usize>)
        ensures
            samples@.map_values(|s: usize| s as int) == self.offsets(),
            samples@.len() == block_count(self@.len(), self.period()),
            samples@.len() > 0 ==> samples@[0] == 0,
            forall|i: int, j: int| 0 <= i <= j < samples@.len() ==> samples@[i] <= samples@[j],
            forall|j: int|
                0 <= j < samples@.len() ==> #[trigger] block_position::<C>(
                    BitOrder::Big,
                    self.bits(),
                    self.params(),
                    self.period(),
                    j,
                ) == Some(samples@[j] as int),
    {
        proof {
            use_type_invariant(self);
            lemma_decoded_len::<C>(BitOrder::Big, self.bits(), self.codec_param, self.len as nat);
            let bits = self.bits();
            let n = self.len as nat;
            let k = self.k as nat;
            assert forall|i: int, j: int| 0 <= i <= j < self.samples@.len() implies self.samples@[i]
                <= self.samples@[j] by {
                assert(block_position::<C>(BitOrder::Big, bits, self.codec_param, k, i) is Some);
                assert(block_position::<C>(BitOrder::Big, bits, self.codec_param, k, j) is Some);
                lemma_block_start(n, k, j as nat);
                assert(i * k <= j * k) by (nonlinear_arith)
                    requires
                        0 <= i <= j,
                        k >= 1,
                ;
                lemma_decoded_positions::<C>(BitOrder::Big, bits, self.codec_param, n, (j * k) as nat);
                lemma_decoded_positions::<C>(
                    BitOrder::Big,
                    bits,
                    self.codec_param,
                    (j * k) as nat,
                    (i * k) as nat,
                );
            }
            if self.samples@.len() > 0 {
                assert(block_position::<C>(BitOrder::Big, bits, self.codec_param, k, 0) is Some);
            }
        }
        &self.samples
    }
}

/// Convenience constructor for codes without a parameter.
impl<C: Codec<Params = ()>> BEIntVec<C> {
    /// Compresses `input`, recording a sample every `k` values.
    pub fn from(input: &[u64], k: usize) -> (r: Result<Self, BuildError>)
        ensures
            r is Ok <==> can_build::<C>(BitOrder::Big, input@, k, ()),
            match r {
                Ok(v) => {
                    &&& v@ == input@
                    &&& v.count() == input@.len()
                    &&& v.period() == k
                    &&& v.offsets() == sample_offsets::<C>(BitOrder::Big, input@, (), k as nat)
                    &&& v.words().len() == (encoded::<C>(BitOrder::Big, input@, ()).len() + 63)
                        / 64
                    &&& v.bits() == encoded::<C>(BitOrder::Big, input@, ()) + zeros(
                        (v.bits().len() - encoded::<C>(BitOrder::Big, input@, ()).len()) as nat,
                    )
                },
                Err(e) => build_error::<C>(BitOrder::Big, input@, k, (), e),
            },
    {
        Self::from_with_param(input, k, ())
    }
}

/// Iterator over the values of a [`BEIntVec`], which decodes them on the fly.
///
/// An iterator is made by `iter` and is then well-formed, and `next` keeps it
/// so.
pub struct BEIntVecIter<'a, C: Codec> {
    intvec: &'a BEIntVec<C>,
    reader: BeReader<'a>,
    current_index: usize,
}

impl<'a, C: Codec> BEIntVecIter<'a, C> where C::Params: Copy {
    /// The vector that is iterated over.
    pub closed spec fn source(&self) -> BEIntVec<C> {
        *self.intvec
    }

    /// The number of values handed out so far.
    pub closed spec fn index(&self) -> nat {
        self.current_index as nat
    }

    /// The values still to come.
    pub open spec fn remaining(&self) -> Seq<u64> {
        self.source()@.skip(self.index() as int)
    }

    /// The cursor stands in the stream of the vector, behind the codewords of
    /// the values handed out so far.
    pub closed spec fn wf(&self) -> bool {
        &&& self.reader.bits() == self.intvec.bits()
        &&& self.current_index <= self.intvec.len
        &&& decoded::<C>(
            BitOrder::Big,
            self.intvec.bits(),
            self.intvec.codec_param,
            self.intvec.len as nat,
        ) is Some
        &&& decoded::<C>(
            BitOrder::Big,
            self.intvec.bits(),
            self.intvec.codec_param,
            self.current_index as nat,
        ) is Some
        &&& self.reader.pos() == decoded::<C>(
            BitOrder::Big,
            self.intvec.bits(),
            self.intvec.codec_param,
            self.current_index as nat,
        ).unwrap().1
    }

    /// The next value, or `None` when all were handed out.
    pub fn next(&mut self) -> (r: Option<u64>)
        requires
            old(self).wf(),
        ensures
            final(self).wf(),
            final(self).source() == old(self).source(),
            match r {
                Some(value) => {
                    &&& old(self).remaining().len() > 0
                    &&& value == old(self).remaining()[0]
                    &&& final(self).remaining() == old(self).remaining().drop_first()
                    &&& final(self).index() == old(self).index() + 1
                },
                None => {
                    &&& old(self).remaining().len() == 0
                    &&& final(self).index() == old(self).index()
                },
            },
    {
        proof {
            lemma_decoded_len::<C>(
                BitOrder::Big,
                self.intvec.bits(),
                self.intvec.codec_param,
                self.intvec.len as nat,
            );
        }
        if self.current_index >= self.intvec.len {
            return None;
        }
        proof {
            lemma_decoded_step::<C>(
                BitOrder::Big,
                self.intvec.bits(),
                self.intvec.codec_param,
                self.intvec.len as nat,
                self.current_index as nat,
            );
        }
        let value = C::decode(&mut self.reader, self.intvec.codec_param);
        self.current_index += 1;
        proof {
            assert(final(self).remaining() =~= old(self).remaining().drop_first());
        }
        Some(value)
    }
}

impl<C: Codec> LEIntVec<C> where C::Params: Copy {
    /// Compresses `input`, recording a sample every `k` values.
    ///
    /// Fails if `k` is 0, if the code with these parameters has no codeword
    /// for one of the values, or if the stream would be longer than
    /// `usize::MAX` bits; nothing is built then.
    pub fn from_with_param(input: &[u64], k: usize, codec_param: C::Params) -> (r: Result<
        Self,
        BuildError,
    >)
        ensures
            r is Ok <==> can_build::<C>(BitOrder::Little, input@, k, codec_param),
            match r {
                Ok(v) => {
                    &&& v@ == input@
                    &&& v.count() == input@.len()
                    &&& v.period() == k
                    &&& v.params() == codec_param
                    &&& v.offsets() == sample_offsets::<C>(
                        BitOrder::Little,
                        input@,
                        codec_param,
                        k as nat,
                    )
                    &&& v.words().len() == (encoded::<C>(BitOrder::Little, input@, codec_param).len()
                        + 63) / 64
                    &&& v.bits() == encoded::<C>(BitOrder::Little, input@, codec_param) + zeros(
                        (v.bits().len() - encoded::<C>(BitOrder::Little, input@, codec_param).len()) as nat,
                    )
                },
                Err(e) => build_error::<C>(BitOrder::Little, input@, k, codec_param, e),
            },
    {
        if k == 0 {
            return Err(BuildError::ZeroSamplingPeriod);
        }
        let mut writer = LeWriter::new();
        let samples = match encode_all::<LeWriter, C>(&mut writer, input, k, codec_param) {
            Ok(samples) => samples,
            Err(e) => {
                proof {
                    lemma_error_excludes_build::<C>(BitOrder::Little, input@, k, codec_param, e);
                }
                return Err(e);
            },
        };
        let data = writer.into_words();
        proof {
            let bits = packed_bits(BitOrder::Little, data@);
            lemma_round_trip::<C>(BitOrder::Little, bits, input@, codec_param, k as nat);
            lemma_sample_offsets::<C>(BitOrder::Little, input@, codec_param, k as nat);
            assert forall|j: int| 0 <= j < samples@.len() implies #[trigger] block_position::<C>(
                BitOrder::Little,
                bits,
                codec_param,
                k as nat,
                j,
            ) == Some(samples@[j] as int) by {
                assert(samples@.map_values(|s: usize| s as int)[j] == sample_offsets::<C>(
                    BitOrder::Little,
                    input@,
                    codec_param,
                    k as nat,
                )[j]);
            }
        }
        Ok(
            IntVec {
                data,
                samples,
                k,
                len: input.len(),
                codec_param,
                codec: PhantomData,
                endian: PhantomData,
            },
        )
    }

    /// The value at `index`, or `None` if `index` is not below the length.
    ///
    /// Decoding starts at the sample of the block that `index` lies in and
    /// reads the values of the block up to `index`.
    #[inline(always)]
    pub fn get(&self, index: usize) -> (r: Option<u64>)
        ensures
            r == self.element(index),
    {
        proof {
            use_type_invariant(self);
            lemma_decoded_len::<C>(BitOrder::Little, self.bits(), self.codec_param, self.len as nat);
        }
        if index >= self.len {
            return None;
        }
        let sample_index = index / self.k;
        proof {
            lemma_block_of(self.len as nat, self.k as nat, index as nat);
            lemma_decoded_positions::<C>(
                BitOrder::Little,
                self.bits(),
                self.codec_param,
                self.len as nat,
                (sample_index * self.k) as nat,
            );
            assert(block_position::<C>(
                BitOrder::Little,
                self.bits(),
                self.codec_param,
                self.k as nat,
                sample_index as int,
            ) == Some(self.samples@[sample_index as int] as int));
        }
        let start_bit = self.samples[sample_index];
        let mut reader = LeReader::new(&self.data);
        reader.set_bit_pos(start_bit as u64);
        let start_index = sample_index * self.k;
        let value = decode_through::<LeReader, C>(
            &mut reader,
            start_index,
            index,
            self.codec_param,
            Ghost(self.len as nat),
        );
        Some(value)
    }

    /// All the values, decoded in one pass over the stream.
    pub fn into_vec(self) -> (values: Vec<u64>)
        ensures
            values@ == self@,
    {
        proof {
            use_type_invariant(&self);
        }
        let mut reader = LeReader::new(&self.data);
        decode_all::<LeReader, C>(&mut reader, self.len, self.codec_param)
    }

    /// An iterator over the values, which decodes them one by one from the
    /// start of the stream.
    pub fn iter(&self) -> (it: LEIntVecIter<'_, C>)
        ensures
            it.wf(),
            it.source() == *self,
            it.index() == 0,
            it.remaining() == self@,
    {
        proof {
            use_type_invariant(self);
        }
        let reader = LeReader::new(&self.data);
        let it = LEIntVecIter { intvec: self, reader, current_index: 0 };
        proof {
            assert(it.remaining() =~= self@);
        }
        it
    }

    /// A copy of the words of the packed stream.
    pub fn limbs(&self) -> (words: Vec<u64>)
        ensures
            words@ == self.words(),
    {
        let words = self.data.clone();
        proof {
            assert(words@ =~= self.data@);
        }
        words
    }

    /// The number of values.
    pub fn len(&self) -> (n: usize)
        ensures
            n == self@.len(),
            n == self.count(),
    {
        proof {
            use_type_invariant(self);
            lemma_decoded_len::<C>(BitOrder::Little, self.bits(), self.codec_param, self.len as nat);
        }
        self.len
    }

    /// Whether the vector holds no value.
    pub fn is_empty(&self) -> (b: bool)
        ensures
            b == (self@.len() == 0),
    {
        proof {
            use_type_invariant(self);
            lemma_decoded_len::<C>(BitOrder::Little, self.bits(), self.codec_param, self.len as nat);
        }
        self.len == 0
    }

    /// The sampling period: a sample is recorded for every `k`-th value.
    pub fn get_sampling_rate(&self) -> (k: usize)
        ensures
            k == self.period(),
            k >= 1,
    {
        proof {
            use_type_invariant(self);
        }
        self.k
    }

    /// The parameters that the code is run with.
    pub fn get_codec_param(&self) -> (p: C::Params)
        ensures
            p == self.params(),
    {
        self.codec_param
    }

    /// The samples: for each block of `k` values the bit offset at which its
    /// first codeword begins. There is one for each block, the first is 0,
    /// and they do not decrease.
    pub fn get_samples(&self) -> (samples: &Vec<usize>)
        ensures
            samples@.map_values(|s: usize| s as int) == self.offsets(),
            samples@.len() == block_count(self@.len(), self.period()),
            samples@.len() > 0 ==> samples@[0] == 0,
            forall|i: int, j: int| 0 <= i <= j < samples@.len() ==> samples@[i] <= samples@[j],
            forall|j: int|
                0 <= j < samples@.len() ==> #[trigger] block_position::<C>(
                    BitOrder::Little,
                    self.bits(),
                    self.params(),
                    self.period(),
                    j,
                ) == Some(samples@[j] as int),
    {
        proof {
            use_type_invariant(self);
            lemma_decoded_len::<C>(BitOrder::Little, self.bits(), self.codec_param, self.len as nat);
            let bits = self.bits();
            let n = self.len as nat;
            let k = self.k as nat;
            assert forall|i: int, j: int| 0 <= i <= j < self.samples@.len() implies self.samples@[i]
                <= self.samples@[j] by {
                assert(block_position::<C>(BitOrder::Little, bits, self.codec_param, k, i) is Some);
                assert(block_position::<C>(BitOrder::Little, bits, self.codec_param, k, j) is Some);
                lemma_block_start(n, k, j as nat);
                assert(i * k <= j * k) by (nonlinear_arith)
                    requires
                        0 <= i <= j,
                        k >= 1,
                ;
                lemma_decoded_positions::<C>(BitOrder::Little, bits, self.codec_param, n, (j * k) as nat);
                lemma_decoded_positions::<C>(
                    BitOrder::Little,
                    bits,
                    self.codec_param,
                    (j * k) as nat,
                    (i * k) as nat,
                );
            }
            if self.samples@.len() > 0 {
                assert(block_position::<C>(BitOrder::Little, bits, self.codec_param, k, 0) is Some);
            }
        }
        &self.samples
    }
}

/// Convenience constructor for codes without a parameter.
impl<C: Codec<Params = ()>> LEIntVec<C> {
    /// Compresses `input`, recording a sample every `k` values.
    pub fn from(input: &[u64], k: usize) -> (r: Result<Self, BuildError>)
        ensures
            r is Ok <==> can_build::<C>(BitOrder::Little, input@, k, ()),
            match r {
                Ok(v) => {
                    &&& v@ == input@
                    &&& v.count() == input@.len()
                    &&& v.period() == k
                    &&& v.offsets() == sample_offsets::<C>(BitOrder::Little, input@, (), k as nat)
                    &&& v.words().len() == (encoded::<C>(BitOrder::Little, input@, ()).len() + 63)
                        / 64
                    &&& v.bits() == encoded::<C>(BitOrder::Little, input@, ()) + zeros(
                        (v.bits().len() - encoded::<C>(BitOrder::Little, input@, ()).len()) as nat,
                    )
                },
                Err(e) => build_error::<C>(BitOrder::Little, input@, k, (), e),
            },
    {
        Self::from_with_param(input, k, ())
    }
}

/// Iterator over the values of a [`LEIntVec`], which decodes them on the fly.
///
/// An iterator is made by `iter` and is then well-formed, and `next` keeps it
/// so.
pub struct LEIntVecIter<'a, C: Codec> {
    intvec: &'a LEIntVec<C>,
    reader: LeReader<'a>,
    current_index: usize,
}

impl<'a, C: Codec> LEIntVecIter<'a, C> where C::Params: Copy {
    /// The vector that is iterated over.
    pub closed spec fn source(&self) -> LEIntVec<C> {
        *self.intvec
    }

    /// The number of values handed out so far.
    pub closed spec fn index(&self) -> nat {
        self.current_index as nat
    }

    /// The values still to come.
    pub open spec fn remaining(&self) -> Seq<u64> {
        self.source()@.skip(self.index() as int)
    }

    /// The cursor stands in the stream of the vector, behind the codewords of
    /// the values handed out so far.
    pub closed spec fn wf(&self) -> bool {
        &&& self.reader.bits() == self.intvec.bits()
        &&& self.current_index <= self.intvec.len
        &&& decoded::<C>(
            BitOrder::Little,
            self.intvec.bits(),
            self.intvec.codec_param,
            self.intvec.len as nat,
        ) is Some
        &&& decoded::<C>(
            BitOrder::Little,
            self.intvec.bits(),
            self.intvec.codec_param,
            self.current_index as nat,
        ) is Some
        &&& self.reader.pos() == decoded::<C>(
            BitOrder::Little,
            self.intvec.bits(),
            self.intvec.codec_param,
            self.current_index as nat,
        ).unwrap().1
    }

    /// The next value, or `None` when all were handed out.
    pub fn next(&mut self) -> (r: Option<u64>)
        requires
            old(self).wf(),
        ensures
            final(self).wf(),
            final(self).source() == old(self).source(),
            match r {
                Some(value) => {
                    &&& old(self).remaining().len() > 0
                    &&& value == old(self).remaining()[0]
                    &&& final(self).remaining() == old(self).remaining().drop_first()
                    &&& final(self).index() == old(self).index() + 1
                },
                None => {
                    &&& old(self).remaining().len() == 0
                    &&& final(self).index() == old(self).index()
                },
            },
    {
        proof {
            lemma_decoded_len::<C>(
                BitOrder::Little,
                self.intvec.bits(),
                self.intvec.codec_param,
                self.intvec.len as nat,
            );
        }
        if self.current_index >= self.intvec.len {
            return None;
        }
        proof {
            lemma_decoded_step::<C>(
                BitOrder::Little,
                self.intvec.bits(),
                self.intvec.codec_param,
                self.intvec.len as nat,
                self.current_index as nat,
            );
        }
        let value = C::decode(&mut self.reader, self.intvec.codec_param);
        self.current_index += 1;
        proof {
            assert(final(self).remaining() =~= old(self).remaining().drop_first());
        }
        Some(value)
    }
}

} // verus!
