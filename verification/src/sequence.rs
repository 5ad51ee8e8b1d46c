//! Sequences of codewords: the stream that a sequence of values is encoded
//! to, what is decoded from a stream, and the laws that tie the two.
use vstd::prelude::*;
use crate::bits::BitOrder;
use crate::codecs::Codec;

verus! {

/// Every value has a codeword.
pub open spec fn all_in_domain<C: Codec>(values: Seq<u64>, params: C::Params) -> bool {
    forall|i: int| 0 <= i < values.len() ==> C::in_domain(#[trigger] values[i], params)
}

/// The codewords of `values`, one after the other.
pub open spec fn encoded<C: Codec>(order: BitOrder, values: Seq<u64>, params: C::Params) -> Seq<
    bool,
>
    decreases values.len(),
{
    if values.len() == 0 {
        Seq::empty()
    } else {
        encoded::<C>(order, values.drop_last(), params) + C::code(order, values.last(), params)
    }
}

/// Reads `n` codewords one after the other from the start of `bits`: the
/// values read and the position behind the last codeword, or `None` if one of
/// the `n` positions holds no codeword.
pub open spec fn decoded<C: Codec>(order: BitOrder, bits: Seq<bool>, params: C::Params, n: nat) -> Option<
    (Seq<u64>, int),
>
    decreases n,
{
    if n == 0 {
        Some((Seq::empty(), 0))
    } else {
        match decoded::<C>(order, bits, params, (n - 1) as nat) {
            Some((values, pos)) => match C::parse(order, bits, pos, params) {
                Some((value, next)) => Some((values.push(value), next)),
                None => None,
            },
            None => None,
        }
    }
}

/// The number of blocks of `period` values that `count` values fill or
/// begin.
pub open spec fn block_count(count: nat, period: nat) -> nat {
    ((count + period - 1) / period as int) as nat
}

/// The bit offset of every `period`-th codeword in the stream that `values`
/// are encoded to, from the first.
pub open spec fn sample_offsets<C: Codec>(
    order: BitOrder,
    values: Seq<u64>,
    params: C::Params,
    period: nat,
) -> Seq<int> {
    Seq::new(
        block_count(values.len(), period),
        |j: int| encoded::<C>(order, values.take(j * period), params).len() as int,
    )
}

/// The position at which block `j` of `period` values begins in `bits`: where
/// decoding stands after `j * period` codewords, or `None` if that many cannot
/// be read.
pub open spec fn block_position<C: Codec>(
    order: BitOrder,
    bits: Seq<bool>,
    params: C::Params,
    period: nat,
    j: int,
) -> Option<int> {
    match decoded::<C>(order, bits, params, (j * period) as nat) {
        Some((_, pos)) => Some(pos),
        None => None,
    }
}

/// The stream of a sequence with one more value is the stream of the sequence
/// followed by the codeword of that value.
pub proof fn lemma_encoded_push<C: Codec>(order: BitOrder, values: Seq<u64>, params: C::Params, n: int)
    requires
        0 <= n < values.len(),
    ensures
        encoded::<C>(order, values.take(n + 1), params) == encoded::<C>(
            order,
            values.take(n),
            params,
        ) + C::code(order, values[n], params),
{
    assert(values.take(n + 1).drop_last() =~= values.take(n));
}

/// The stream of the first `n` values opens the stream of all of them.
pub proof fn lemma_encoded_prefix<C: Codec>(order: BitOrder, values: Seq<u64>, params: C::Params, n: int)
    requires
        0 <= n <= values.len(),
    ensures
        encoded::<C>(order, values.take(n), params).len() <= encoded::<C>(order, values, params).len(),
        encoded::<C>(order, values, params).subrange(
            0,
            encoded::<C>(order, values.take(n), params).len() as int,
        ) == encoded::<C>(order, values.take(n), params),
    decreases values.len() - n,
{
    let whole = encoded::<C>(order, values, params);
    if n == values.len() {
        assert(values.take(n) =~= values);
        assert(whole.subrange(0, whole.len() as int) =~= whole);
    } else {
        lemma_encoded_prefix::<C>(order, values, params, n + 1);
        lemma_encoded_push::<C>(order, values, params, n);
        let short = encoded::<C>(order, values.take(n), params);
        let long = encoded::<C>(order, values.take(n + 1), params);
        assert(whole.subrange(0, short.len() as int) =~= short) by {
            assert forall|i: int| 0 <= i < short.len() implies whole.subrange(0, short.len() as int)[i]
                == short[i] by {
                assert(whole.subrange(0, long.len() as int)[i] == long[i]);
            }
        }
    }
}

/// Streams grow with the sequences they encode.
pub proof fn lemma_encoded_len_monotone<C: Codec>(
    order: BitOrder,
    values: Seq<u64>,
    params: C::Params,
    m: int,
    n: int,
)
    requires
        0 <= m <= n <= values.len(),
    ensures
        encoded::<C>(order, values.take(m), params).len() <= encoded::<C>(
            order,
            values.take(n),
            params,
        ).len(),
{
    lemma_encoded_prefix::<C>(order, values.take(n), params, m);
    assert(values.take(n).take(m) =~= values.take(m));
}

/// Round trip. A stream that opens with the codewords of `values` decodes to
/// `values`: for every `n` up to their number, the first `n` codewords read
/// from it are the first `n` values, and reading ends where the `n`-th
/// codeword ends.
pub proof fn lemma_decode_encoded<C: Codec>(
    order: BitOrder,
    bits: Seq<bool>,
    values: Seq<u64>,
    params: C::Params,
    n: nat,
)
    requires
        all_in_domain::<C>(values, params),
        encoded::<C>(order, values, params).len() <= bits.len(),
        bits.subrange(0, encoded::<C>(order, values, params).len() as int) == encoded::<C>(
            order,
            values,
            params,
        ),
        n <= values.len(),
    ensures
        decoded::<C>(order, bits, params, n) == Some(
            (values.take(n as int), encoded::<C>(order, values.take(n as int), params).len() as int),
        ),
    decreases n,
{
    if n == 0 {
        assert(values.take(0) =~= Seq::<u64>::empty());
    } else {
        let m = (n - 1) as nat;
        lemma_decode_encoded::<C>(order, bits, values, params, m);
        lemma_encoded_push::<C>(order, values, params, m as int);
        lemma_encoded_prefix::<C>(order, values, params, n as int);
        let whole = encoded::<C>(order, values, params);
        let before = encoded::<C>(order, values.take(m as int), params);
        let word = C::code(order, values[m as int], params);
        let through = encoded::<C>(order, values.take(n as int), params);
        assert(bits.subrange(before.len() as int, (before.len() + word.len()) as int) =~= word) by {
            assert forall|i: int| 0 <= i < word.len() implies bits.subrange(
                before.len() as int,
                (before.len() + word.len()) as int,
            )[i] == word[i] by {
                assert(bits.subrange(0, whole.len() as int)[before.len() + i] == whole[before.len()
                    + i]);
                assert(whole.subrange(0, through.len() as int)[before.len() + i] == through[before.len()
                    + i]);
            }
        }
        C::lemma_round_trip(order, bits, before.len() as int, values[m as int], params);
        assert(values.take(m as int).push(values[m as int]) =~= values.take(n as int));
    }
}

/// What was decoded in `n` steps holds what was decoded in fewer: for
/// `i < n`, step `i` reads value `i` at the position that `i` steps reach.
pub proof fn lemma_decoded_step<C: Codec>(
    order: BitOrder,
    bits: Seq<bool>,
    params: C::Params,
    n: nat,
    i: nat,
)
    requires
        decoded::<C>(order, bits, params, n) is Some,
        i < n,
    ensures
        decoded::<C>(order, bits, params, n).unwrap().0.len() == n,
        decoded::<C>(order, bits, params, i) is Some,
        decoded::<C>(order, bits, params, i + 1) is Some,
        C::parse(order, bits, decoded::<C>(order, bits, params, i).unwrap().1, params) == Some(
            (
                decoded::<C>(order, bits, params, n).unwrap().0[i as int],
                decoded::<C>(order, bits, params, i + 1).unwrap().1,
            ),
        ),
    decreases n,
{
    let m = (n - 1) as nat;
    lemma_decoded_len::<C>(order, bits, params, m);
    if i < m {
        lemma_decoded_step::<C>(order, bits, params, m, i);
    }
}

/// `n` steps of decoding give `n` values.
pub proof fn lemma_decoded_len<C: Codec>(order: BitOrder, bits: Seq<bool>, params: C::Params, n: nat)
    requires
        decoded::<C>(order, bits, params, n) is Some,
    ensures
        decoded::<C>(order, bits, params, n).unwrap().0.len() == n,
    decreases n,
{
    if n > 0 {
        lemma_decoded_len::<C>(order, bits, params, (n - 1) as nat);
    }
}

/// The positions that decoding reaches do not decrease and stay within the
/// stream.
pub proof fn lemma_decoded_positions<C: Codec>(
    order: BitOrder,
    bits: Seq<bool>,
    params: C::Params,
    n: nat,
    i: nat,
)
    requires
        decoded::<C>(order, bits, params, n) is Some,
        i <= n,
    ensures
        decoded::<C>(order, bits, params, i) is Some,
        0 <= decoded::<C>(order, bits, params, i).unwrap().1 <= decoded::<C>(
            order,
            bits,
            params,
            n,
        ).unwrap().1 <= bits.len(),
    decreases n,
{
    if n > 0 {
        let m = (n - 1) as nat;
        let pos = decoded::<C>(order, bits, params, m).unwrap().1;
        C::lemma_parse_bounds(order, bits, pos, params);
        if i < n {
            lemma_decoded_positions::<C>(order, bits, params, m, i);
        } else {
            lemma_decoded_positions::<C>(order, bits, params, m, m);
        }
    }
}

/// Blocks: `index` lies in block `index / period`, which begins at or before
/// it, and that block is one of the `block_count`.
pub proof fn lemma_block_of(count: nat, period: nat, index: nat)
    requires
        period >= 1,
        index < count,
    ensures
        (index / period) < block_count(count, period),
        (index / period) * period <= index,
        index < (index / period + 1) * period,
{
    let q = index / period;
    let r = index % period;
    vstd::arithmetic::div_mod::lemma_fundamental_div_mod(index as int, period as int);
    assert(q * period == period * q) by (nonlinear_arith);
    assert((q + 1) * period == q * period + period) by (nonlinear_arith);
    let total = (count + period - 1) as int;
    vstd::arithmetic::div_mod::lemma_fundamental_div_mod(total, period as int);
    let b = total / (period as int);
    if b <= q {
        assert(b * period <= q * period) by (nonlinear_arith)
            requires
                b <= q,
                period >= 1,
        ;
        assert(period * b == b * period) by (nonlinear_arith);
    }
}

/// Every block but the last is full: block `j` of the `block_count` begins
/// before the end of the sequence.
pub proof fn lemma_block_start(count: nat, period: nat, j: nat)
    requires
        period >= 1,
        j < block_count(count, period),
    ensures
        j * period < count,
{
    let total = (count + period - 1) as int;
    vstd::arithmetic::div_mod::lemma_fundamental_div_mod(total, period as int);
    let b = total / (period as int);
    assert((j + 1) * period <= b * period) by (nonlinear_arith)
        requires
            j + 1 <= b,
            period >= 1,
    ;
    assert((j + 1) * period == j * period + period) by (nonlinear_arith);
    assert(period * b == b * period) by (nonlinear_arith);
}

/// One value more begins a new block exactly when the values so far fill
/// their blocks.
pub proof fn lemma_block_count_step(count: nat, period: nat)
    requires
        period >= 1,
    ensures
        block_count(count + 1, period) == block_count(count, period) + (if count % period == 0 {
            1nat
        } else {
            0nat
        }),
        count % period == 0 ==> block_count(count, period) * period == count,
{
    let p = period as int;
    let q = count as int / p;
    let r = count as int % p;
    vstd::arithmetic::div_mod::lemma_fundamental_div_mod(count as int, p);
    assert(p * q == q * p) by (nonlinear_arith);
    if r == 0 {
        // count = q p: count + p - 1 = q p + (p - 1), count + p = (q + 1) p
        vstd::arithmetic::div_mod::lemma_fundamental_div_mod_converse(count + p - 1, p, q, p - 1);
        assert((q + 1) * p == q * p + p) by (nonlinear_arith);
        vstd::arithmetic::div_mod::lemma_fundamental_div_mod_converse(count + p, p, q + 1, 0);
    } else {
        // count = q p + r, 0 < r < p
        assert((q + 1) * p == q * p + p) by (nonlinear_arith);
        vstd::arithmetic::div_mod::lemma_fundamental_div_mod_converse(count + p - 1, p, q + 1, r - 1);
        vstd::arithmetic::div_mod::lemma_fundamental_div_mod_converse(count + p, p, q + 1, r);
    }
}

/// Sampling. The offsets recorded for a sequence are as many as its blocks,
/// begin at 0, and do not decrease.
pub proof fn lemma_sample_offsets<C: Codec>(
    order: BitOrder,
    values: Seq<u64>,
    params: C::Params,
    period: nat,
)
    requires
        period >= 1,
    ensures
        sample_offsets::<C>(order, values, params, period).len() == block_count(values.len(), period),
        values.len() > 0 ==> sample_offsets::<C>(order, values, params, period).len() > 0
            && sample_offsets::<C>(order, values, params, period)[0] == 0,
        values.len() == 0 ==> sample_offsets::<C>(order, values, params, period).len() == 0,
        forall|i: int, j: int|
            0 <= i <= j < sample_offsets::<C>(order, values, params, period).len()
                ==> sample_offsets::<C>(order, values, params, period)[i] <= sample_offsets::<C>(
                order,
                values,
                params,
                period,
            )[j],
{
    let offsets = sample_offsets::<C>(order, values, params, period);
    if values.len() > 0 {
        lemma_block_of(values.len(), period, 0);
        assert(values.take(0int * period) =~= Seq::<u64>::empty());
    } else {
        assert((period - 1) as int / period as int == 0) by {
            vstd::arithmetic::div_mod::lemma_fundamental_div_mod_converse(
                period - 1,
                period as int,
                0,
                period - 1,
            );
        }
    }
    assert forall|i: int, j: int| 0 <= i <= j < offsets.len() implies offsets[i] <= offsets[j] by {
        lemma_block_start(values.len(), period, j as nat);
        assert(i * period <= j * period) by (nonlinear_arith)
            requires
                0 <= i <= j,
                period >= 1,
        ;
        lemma_encoded_len_monotone::<C>(order, values, params, i * period, j * period);
    }
}

} // verus!
