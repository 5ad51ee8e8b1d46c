//! Bit-level vocabulary: unary runs and fixed-width binary fields as
//! sequences of bits, and how each is read back from a stream.
use vstd::prelude::*;
use vstd::arithmetic::power2::{pow2, lemma_pow2_pos, lemma_pow2_unfold};

verus! {

/// The order in which the digits of a binary field follow each other in a
/// bit stream.
#[derive(Clone, Copy, Debug, PartialEq, Eq, Structural)]
pub enum BitOrder {
    /// The most significant digit of a field comes first.
    Big,
    /// The least significant digit of a field comes first.
    Little,
}

/// The unary code of `n`: `n` zeros closed by a one.
pub open spec fn unary_code(n: nat) -> Seq<bool> {
    Seq::new(n, |i: int| false).push(true)
}

/// The `width` lowest binary digits of `v`, least significant first.
pub open spec fn digits(v: nat, width: nat) -> Seq<bool>
    decreases width,
{
    if width == 0 {
        Seq::empty()
    } else {
        seq![v % 2 == 1] + digits(v / 2, (width - 1) as nat)
    }
}

/// The number whose binary digits, least significant first, are `d`.
pub open spec fn number(d: Seq<bool>) -> nat
    decreases d.len(),
{
    if d.len() == 0 {
        0
    } else {
        (if d[0] { 1nat } else { 0nat }) + 2 * number(d.drop_first())
    }
}

/// The field of `width` bits that holds the `width` lowest binary digits of
/// `v` in the given order.
pub open spec fn fixed_code(order: BitOrder, v: nat, width: nat) -> Seq<bool> {
    match order {
        BitOrder::Little => digits(v, width),
        BitOrder::Big => digits(v, width).reverse(),
    }
}

/// The number that a field holds in the given order.
pub open spec fn fixed_value(order: BitOrder, field: Seq<bool>) -> nat {
    match order {
        BitOrder::Little => number(field),
        BitOrder::Big => number(field.reverse()),
    }
}

/// Reads a field of `width` bits at `pos`: the number it holds and the
/// position behind it, or `None` if the field does not lie within `bits`.
pub open spec fn parse_fixed(order: BitOrder, bits: Seq<bool>, pos: int, width: nat) -> Option<(nat, int)> {
    if 0 <= pos && pos + width <= bits.len() {
        Some((fixed_value(order, bits.subrange(pos, pos + width)), pos + width))
    } else {
        None
    }
}

/// Reads a unary code at `pos`: the number of zeros before the first one and
/// the position behind that one, or `None` if no one follows within `bits`.
pub open spec fn parse_unary(bits: Seq<bool>, pos: int) -> Option<(nat, int)>
    decreases bits.len() - pos,
{
    if pos < 0 || pos >= bits.len() {
        None
    } else if bits[pos] {
        Some((0, pos + 1))
    } else {
        match parse_unary(bits, pos + 1) {
            Some((n, end)) => Some((n + 1, end)),
            None => None,
        }
    }
}

/// The `width` lowest digits of a number are `width` digits.
pub proof fn lemma_digits_len(v: nat, width: nat)
    ensures
        digits(v, width).len() == width,
    decreases width,
{
    if width > 0 {
        lemma_digits_len(v / 2, (width - 1) as nat);
    }
}

/// Reading back the `width` lowest digits of `v` gives `v` modulo `2^width`.
pub proof fn lemma_number_digits(v: nat, width: nat)
    ensures
        number(digits(v, width)) == v % pow2(width),
    decreases width,
{
    if width == 0 {
        assert(pow2(0) == 1) by {
            vstd::arithmetic::power2::lemma2_to64();
        }
    } else {
        let w1 = (width - 1) as nat;
        lemma_number_digits(v / 2, w1);
        lemma_pow2_unfold(width);
        lemma_pow2_pos(w1);
        let d = digits(v, width);
        assert(d.drop_first() =~= digits(v / 2, w1));
        let p = pow2(w1);
        assert(v % (2 * p) == (v % 2) + 2 * ((v / 2) % p)) by {
            lemma_mod_twice(v, p);
        }
    }
}

/// Splitting off the lowest binary digit: `v mod 2p` is the lowest digit of
/// `v` plus twice `⌊v / 2⌋ mod p`.
proof fn lemma_mod_twice(v: nat, p: nat)
    requires
        p > 0,
    ensures
        v % (2 * p) == (v % 2) + 2 * ((v / 2) % p),
{
    let q = v / 2;
    let r = v % 2;
    assert(v == 2 * q + r);
    let a = q / p;
    let b = q % p;
    assert(q == p * a + b) by {
        vstd::arithmetic::div_mod::lemma_fundamental_div_mod(q as int, p as int);
    }
    assert(v == a * (2 * p) + (2 * b + r)) by (nonlinear_arith)
        requires
            v == 2 * q + r,
            q == p * a + b,
    ;
    assert(0 <= 2 * b + r < 2 * p);
    vstd::arithmetic::div_mod::lemma_fundamental_div_mod_converse(
        v as int,
        (2 * p) as int,
        a as int,
        (2 * b + r) as int,
    );
}

/// A field written in some order and read in the same order gives back the
/// digits that were written.
pub proof fn lemma_fixed_value_of_code(order: BitOrder, v: nat, width: nat)
    ensures
        fixed_code(order, v, width).len() == width,
        fixed_value(order, fixed_code(order, v, width)) == v % pow2(width),
{
    lemma_digits_len(v, width);
    lemma_number_digits(v, width);
    let d = digits(v, width);
    assert(d.reverse().reverse() =~= d);
}

/// A field that lies at `pos` is read back from there, whatever surrounds it.
pub proof fn lemma_parse_fixed(order: BitOrder, bits: Seq<bool>, pos: int, v: nat, width: nat)
    requires
        0 <= pos,
        pos + width <= bits.len(),
        bits.subrange(pos, pos + width) == fixed_code(order, v, width),
    ensures
        parse_fixed(order, bits, pos, width) == Some((v % pow2(width), pos + width)),
{
    lemma_fixed_value_of_code(order, v, width);
}

/// A unary code that lies at `pos` is read back from there, whatever
/// surrounds it.
pub proof fn lemma_parse_unary(bits: Seq<bool>, pos: int, n: nat)
    requires
        0 <= pos,
        pos + n + 1 <= bits.len(),
        bits.subrange(pos, pos + n + 1) == unary_code(n),
    ensures
        parse_unary(bits, pos) == Some((n, pos + n + 1)),
    decreases n,
{
    let run = bits.subrange(pos, pos + n + 1);
    assert(bits[pos] == run[0]);
    if n == 0 {
        assert(unary_code(0)[0]);
    } else {
        assert(!unary_code(n)[0]);
        let m = (n - 1) as nat;
        assert(bits.subrange(pos + 1, pos + 1 + m + 1) =~= unary_code(m)) by {
            assert forall|i: int| 0 <= i < m + 1 implies bits.subrange(pos + 1, pos + 1 + m + 1)[i]
                == unary_code(m)[i] by {
                assert(bits[pos + 1 + i] == run[i + 1]);
            }
        }
        lemma_parse_unary(bits, pos + 1, m);
    }
}

/// A unary code that was read lies within the stream and is as long as the
/// number it stands for, plus one.
pub proof fn lemma_parse_unary_bounds(bits: Seq<bool>, pos: int)
    requires
        parse_unary(bits, pos) is Some,
    ensures
        0 <= pos,
        ({
            let (n, end) = parse_unary(bits, pos).unwrap();
            end == pos + n + 1 && end <= bits.len()
        }),
    decreases bits.len() - pos,
{
    if !bits[pos] {
        lemma_parse_unary_bounds(bits, pos + 1);
    }
}

/// Where two pieces lie one after the other at `pos`, each lies at its own
/// place.
pub proof fn lemma_split(bits: Seq<bool>, pos: int, a: Seq<bool>, b: Seq<bool>)
    requires
        0 <= pos,
        pos + a.len() + b.len() <= bits.len(),
        bits.subrange(pos, pos + a.len() + b.len()) == a + b,
    ensures
        bits.subrange(pos, pos + a.len()) == a,
        bits.subrange(pos + a.len(), pos + a.len() + b.len()) == b,
{
    let whole = bits.subrange(pos, pos + a.len() + b.len());
    assert(bits.subrange(pos, pos + a.len()) =~= a) by {
        assert forall|i: int| 0 <= i < a.len() implies bits.subrange(pos, pos + a.len())[i] == a[i] by {
            assert(whole[i] == (a + b)[i]);
        }
    }
    assert(bits.subrange(pos + a.len(), pos + a.len() + b.len()) =~= b) by {
        assert forall|i: int| 0 <= i < b.len() implies bits.subrange(
            pos + a.len(),
            pos + a.len() + b.len(),
        )[i] == b[i] by {
            assert(whole[a.len() + i] == (a + b)[a.len() + i]);
        }
    }
}

} // verus!
