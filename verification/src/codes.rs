//! The instantaneous codes as mathematics: for each code the values it can
//! represent, the codeword of a value, how a codeword is read back from a
//! stream, and the proof that reading gives back what was written.
use vstd::prelude::*;
use vstd::arithmetic::power2::{
    lemma2_to64, lemma2_to64_rest, lemma_pow2_pos, lemma_pow2_strictly_increases, lemma_pow2_unfold,
    pow2,
};
use vstd::arithmetic::div_mod::{
    lemma_fundamental_div_mod, lemma_fundamental_div_mod_converse, lemma_small_mod,
};
use crate::bits::{
    fixed_code, lemma_fixed_value_of_code, lemma_parse_fixed, lemma_parse_unary,
    lemma_parse_unary_bounds, lemma_split, parse_fixed, parse_unary, unary_code, BitOrder,
};

verus! {

/// The position of the highest one among the binary digits of `n`
/// (`⌊log₂ n⌋` for `n ≥ 1`, and 0 for 0).
pub open spec fn floor_log2(n: nat) -> nat
    decreases n,
{
    if n <= 1 {
        0
    } else {
        1 + floor_log2(n / 2)
    }
}

/// `2^⌊log₂ n⌋ ≤ n < 2^(⌊log₂ n⌋ + 1)` for every `n ≥ 1`.
pub proof fn lemma_floor_log2(n: nat)
    requires
        n >= 1,
    ensures
        pow2(floor_log2(n)) <= n < pow2(floor_log2(n) + 1),
    decreases n,
{
    if n == 1 {
        lemma2_to64();
    } else {
        lemma_floor_log2(n / 2);
        let l = floor_log2(n / 2);
        lemma_pow2_unfold(l + 1);
        lemma_pow2_unfold(l + 2);
    }
}

/// Powers of two grow with the exponent.
pub proof fn lemma_pow2_monotone(a: nat, b: nat)
    requires
        a <= b,
    ensures
        pow2(a) <= pow2(b),
{
    if a < b {
        lemma_pow2_strictly_increases(a, b);
    }
}

/// A number below `2^e` has its highest one below position `e`.
pub proof fn lemma_floor_log2_below(n: nat, e: nat)
    requires
        1 <= n < pow2(e),
    ensures
        floor_log2(n) < e,
{
    lemma_floor_log2(n);
    if floor_log2(n) >= e {
        lemma_pow2_monotone(e, floor_log2(n));
    }
}

/// A number in `[p, 2p)` leaves itself less `p` when divided by `p`.
proof fn lemma_mod_upper_half(n: nat, p: nat)
    requires
        p <= n < 2 * p,
    ensures
        n % p == n - p,
{
    lemma_fundamental_div_mod_converse(n as int, p as int, 1, n - p);
}

/// A number is its quotient by `2^e` times `2^e` plus its `e` lowest digits.
proof fn lemma_div_mod_pow2(v: nat, e: nat)
    ensures
        v == (v / pow2(e)) * pow2(e) + v % pow2(e),
        v % pow2(e) < pow2(e),
        v / pow2(e) <= v,
{
    lemma_pow2_pos(e);
    lemma_fundamental_div_mod(v as int, pow2(e) as int);
    let q = v / pow2(e);
    let p = pow2(e);
    assert(q * p == p * q) by (nonlinear_arith);
    assert(q <= q * p) by (nonlinear_arith)
        requires
            p >= 1,
            q >= 0,
    ;
}

// ------------------------------------------------------------------ γ

/// The values that have a γ code: all but the largest `u64`.
pub open spec fn gamma_domain(v: u64) -> bool {
    v < u64::MAX
}

/// The γ code of `v`: `⌊log₂(v + 1)⌋` in unary, then the binary digits of
/// `v + 1` below its highest one.
pub open spec fn gamma_code(order: BitOrder, v: u64) -> Seq<bool> {
    let n = (v + 1) as nat;
    let l = floor_log2(n);
    unary_code(l) + fixed_code(order, n, l)
}

/// Reads a γ code at `pos`: the value and the position behind the codeword.
pub open spec fn gamma_parse(order: BitOrder, bits: Seq<bool>, pos: int) -> Option<(u64, int)> {
    match parse_unary(bits, pos) {
        Some((l, p)) => if l <= 63 {
            match parse_fixed(order, bits, p, l) {
                Some((low, end)) => Some(((pow2(l) + low - 1) as u64, end)),
                None => None,
            }
        } else {
            None
        },
        None => None,
    }
}

/// The γ code of `v` takes `2⌊log₂(v + 1)⌋ + 1` bits.
pub proof fn lemma_gamma_len(order: BitOrder, v: u64)
    requires
        gamma_domain(v),
    ensures
        gamma_code(order, v).len() == 2 * floor_log2((v + 1) as nat) + 1,
        floor_log2((v + 1) as nat) <= 63,
{
    let n = (v + 1) as nat;
    lemma_fixed_value_of_code(order, n, floor_log2(n));
    lemma2_to64();
    lemma_floor_log2_below(n, 64);
}

/// A γ codeword that lies at `pos` is read back from there as the value it
/// was written for, whatever surrounds it.
pub proof fn lemma_gamma_round_trip(order: BitOrder, bits: Seq<bool>, pos: int, v: u64)
    requires
        gamma_domain(v),
        0 <= pos,
        pos + gamma_code(order, v).len() <= bits.len(),
        bits.subrange(pos, pos + gamma_code(order, v).len()) == gamma_code(order, v),
    ensures
        gamma_parse(order, bits, pos) == Some((v, pos + gamma_code(order, v).len())),
{
    let n = (v + 1) as nat;
    let l = floor_log2(n);
    lemma_gamma_len(order, v);
    lemma_floor_log2(n);
    lemma_pow2_unfold(l + 1);
    lemma_fixed_value_of_code(order, n, l);
    lemma_split(bits, pos, unary_code(l), fixed_code(order, n, l));
    lemma_parse_unary(bits, pos, l);
    lemma_parse_fixed(order, bits, pos + l + 1, n, l);
    lemma_mod_upper_half(n, pow2(l));
}

/// A γ codeword that is read lies within the stream.
pub proof fn lemma_gamma_parse_bounds(order: BitOrder, bits: Seq<bool>, pos: int)
    requires
        gamma_parse(order, bits, pos) is Some,
    ensures
        0 <= pos <= gamma_parse(order, bits, pos).unwrap().1 <= bits.len(),
{
    lemma_parse_unary_bounds(bits, pos);
}

// ------------------------------------------------------------------ δ

/// The values that have a δ code: all but the largest `u64`.
pub open spec fn delta_domain(v: u64) -> bool {
    v < u64::MAX
}

/// The δ code of `v`: the γ code of `⌊log₂(v + 1)⌋`, then the binary digits
/// of `v + 1` below its highest one.
pub open spec fn delta_code(order: BitOrder, v: u64) -> Seq<bool> {
    let n = (v + 1) as nat;
    let l = floor_log2(n);
    gamma_code(order, l as u64) + fixed_code(order, n, l)
}

/// Reads a δ code at `pos`: the value and the position behind the codeword.
pub open spec fn delta_parse(order: BitOrder, bits: Seq<bool>, pos: int) -> Option<(u64, int)> {
    match gamma_parse(order, bits, pos) {
        Some((l, p)) => if l <= 63 {
            match parse_fixed(order, bits, p, l as nat) {
                Some((low, end)) => Some(((pow2(l as nat) + low - 1) as u64, end)),
                None => None,
            }
        } else {
            None
        },
        None => None,
    }
}

/// A δ codeword that lies at `pos` is read back from there as the value it
/// was written for, whatever surrounds it.
pub proof fn lemma_delta_round_trip(order: BitOrder, bits: Seq<bool>, pos: int, v: u64)
    requires
        delta_domain(v),
        0 <= pos,
        pos + delta_code(order, v).len() <= bits.len(),
        bits.subrange(pos, pos + delta_code(order, v).len()) == delta_code(order, v),
    ensures
        delta_parse(order, bits, pos) == Some((v, pos + delta_code(order, v).len())),
{
    let n = (v + 1) as nat;
    let l = floor_log2(n);
    lemma2_to64();
    lemma_floor_log2_below(n, 64);
    lemma_floor_log2(n);
    lemma_pow2_unfold(l + 1);
    lemma_fixed_value_of_code(order, n, l);
    let head = gamma_code(order, l as u64);
    lemma_split(bits, pos, head, fixed_code(order, n, l));
    lemma_gamma_round_trip(order, bits, pos, l as u64);
    lemma_parse_fixed(order, bits, pos + head.len(), n, l);
    lemma_mod_upper_half(n, pow2(l));
}

/// A δ codeword that is read lies within the stream.
pub proof fn lemma_delta_parse_bounds(order: BitOrder, bits: Seq<bool>, pos: int)
    requires
        delta_parse(order, bits, pos) is Some,
    ensures
        0 <= pos <= delta_parse(order, bits, pos).unwrap().1 <= bits.len(),
{
    lemma_gamma_parse_bounds(order, bits, pos);
}

// --------------------------------------------------------------- Rice

/// The values that have a Rice code with `2^log2_b` as modulus: the
/// quotient is written in unary, so the codeword has to be short enough for
/// its length to be a `usize`.
pub open spec fn rice_domain(v: u64, log2_b: usize) -> bool {
    log2_b <= 63 && v as nat / pow2(log2_b as nat) + log2_b + 1 <= usize::MAX
}

/// The Rice code of `v`: `⌊v / 2^log2_b⌋` in unary, then the `log2_b`
/// lowest binary digits of `v`.
pub open spec fn rice_code(order: BitOrder, v: u64, log2_b: usize) -> Seq<bool> {
    unary_code(v as nat / pow2(log2_b as nat)) + fixed_code(order, v as nat, log2_b as nat)
}

/// Reads a Rice code at `pos`: the value and the position behind the
/// codeword.
pub open spec fn rice_parse(order: BitOrder, bits: Seq<bool>, pos: int, log2_b: usize) -> Option<(u64, int)> {
    if log2_b > 63 {
        None
    } else {
        match parse_unary(bits, pos) {
            Some((q, p)) => match parse_fixed(order, bits, p, log2_b as nat) {
                Some((r, end)) => if q * pow2(log2_b as nat) + r <= u64::MAX {
                    Some(((q * pow2(log2_b as nat) + r) as u64, end))
                } else {
                    None
                },
                None => None,
            },
            None => None,
        }
    }
}

/// A Rice codeword that lies at `pos` is read back from there as the value it
/// was written for, whatever surrounds it.
pub proof fn lemma_rice_round_trip(order: BitOrder, bits: Seq<bool>, pos: int, v: u64, log2_b: usize)
    requires
        rice_domain(v, log2_b),
        0 <= pos,
        pos + rice_code(order, v, log2_b).len() <= bits.len(),
        bits.subrange(pos, pos + rice_code(order, v, log2_b).len()) == rice_code(order, v, log2_b),
    ensures
        rice_parse(order, bits, pos, log2_b) == Some((v, pos + rice_code(order, v, log2_b).len())),
{
    let b = log2_b as nat;
    let q = v as nat / pow2(b);
    lemma_div_mod_pow2(v as nat, b);
    lemma_fixed_value_of_code(order, v as nat, b);
    lemma_split(bits, pos, unary_code(q), fixed_code(order, v as nat, b));
    lemma_parse_unary(bits, pos, q);
    lemma_parse_fixed(order, bits, pos + q + 1, v as nat, b);
}

/// A Rice codeword that is read lies within the stream.
pub proof fn lemma_rice_parse_bounds(order: BitOrder, bits: Seq<bool>, pos: int, log2_b: usize)
    requires
        rice_parse(order, bits, pos, log2_b) is Some,
    ensures
        0 <= pos <= rice_parse(order, bits, pos, log2_b).unwrap().1 <= bits.len(),
{
    lemma_parse_unary_bounds(bits, pos);
}

// ------------------------------------------------- exponential Golomb

/// The values that have an exponential Golomb code of order `k`.
pub open spec fn exp_golomb_domain(v: u64, k: usize) -> bool {
    k <= 63 && v as nat / pow2(k as nat) < u64::MAX
}

/// The exponential Golomb code of order `k` of `v`: the γ code of
/// `⌊v / 2^k⌋`, then the `k` lowest binary digits of `v`.
pub open spec fn exp_golomb_code(order: BitOrder, v: u64, k: usize) -> Seq<bool> {
    gamma_code(order, (v as nat / pow2(k as nat)) as u64) + fixed_code(order, v as nat, k as nat)
}

/// Reads an exponential Golomb code of order `k` at `pos`: the value and
/// the position behind the codeword.
pub open spec fn exp_golomb_parse(order: BitOrder, bits: Seq<bool>, pos: int, k: usize) -> Option<(u64, int)> {
    if k > 63 {
        None
    } else {
        match gamma_parse(order, bits, pos) {
            Some((q, p)) => match parse_fixed(order, bits, p, k as nat) {
                Some((r, end)) => if q * pow2(k as nat) + r <= u64::MAX {
                    Some(((q * pow2(k as nat) + r) as u64, end))
                } else {
                    None
                },
                None => None,
            },
            None => None,
        }
    }
}

/// A exponential Golomb codeword that lies at `pos` is read back from there as the value it
/// was written for, whatever surrounds it.
pub proof fn lemma_exp_golomb_round_trip(order: BitOrder, bits: Seq<bool>, pos: int, v: u64, k: usize)
    requires
        exp_golomb_domain(v, k),
        0 <= pos,
        pos + exp_golomb_code(order, v, k).len() <= bits.len(),
        bits.subrange(pos, pos + exp_golomb_code(order, v, k).len()) == exp_golomb_code(order, v, k),
    ensures
        exp_golomb_parse(order, bits, pos, k) == Some((v, pos + exp_golomb_code(order, v, k).len())),
{
    let e = k as nat;
    let q = (v as nat / pow2(e)) as u64;
    lemma_div_mod_pow2(v as nat, e);
    lemma_fixed_value_of_code(order, v as nat, e);
    let head = gamma_code(order, q);
    lemma_split(bits, pos, head, fixed_code(order, v as nat, e));
    lemma_gamma_round_trip(order, bits, pos, q);
    lemma_parse_fixed(order, bits, pos + head.len(), v as nat, e);
}

/// A exponential Golomb codeword that is read lies within the stream.
pub proof fn lemma_exp_golomb_parse_bounds(order: BitOrder, bits: Seq<bool>, pos: int, k: usize)
    requires
        exp_golomb_parse(order, bits, pos, k) is Some,
    ensures
        0 <= pos <= exp_golomb_parse(order, bits, pos, k).unwrap().1 <= bits.len(),
{
    lemma_gamma_parse_bounds(order, bits, pos);
}

/// Order 0 is the γ code: the exponential Golomb code of order 0 has the
/// domain and the codewords of the γ code.
pub proof fn lemma_exp_golomb_order_zero(order: BitOrder, v: u64)
    ensures
        exp_golomb_domain(v, 0) == gamma_domain(v),
        exp_golomb_code(order, v, 0) == gamma_code(order, v),
{
    lemma2_to64();
    assert(fixed_code(order, v as nat, 0) =~= Seq::<bool>::empty());
    assert(gamma_code(order, v) + Seq::<bool>::empty() =~= gamma_code(order, v));
}

// ----------------------------------------------------- minimal binary

/// The largest upper bound that a minimal binary code can have, plus one.
pub const MINIMAL_BINARY_BOUND_LIMIT: u64 = 0x8000_0000_0000_0000;

/// The values that have a minimal binary code with upper bound `max`: those
/// below `max`, for `0 < max < 2^63`.
pub open spec fn minimal_binary_domain(v: u64, max: u64) -> bool {
    0 < max < MINIMAL_BINARY_BOUND_LIMIT && v < max
}

/// The minimal binary code of `v` with upper bound `max`: with
/// `l = ⌊log₂ max⌋`, the first `2^(l + 1) - max` values are written as `l`
/// digits, each other value `v` as the `l + 1` digits of
/// `v + 2^(l + 1) - max`, of which the lowest digit comes last in either
/// order.
pub open spec fn minimal_binary_code(order: BitOrder, v: u64, max: u64) -> Seq<bool> {
    let l = floor_log2(max as nat);
    let limit = pow2(l + 1) - max;
    if v < limit {
        fixed_code(order, v as nat, l)
    } else {
        let t = (v + limit) as nat;
        fixed_code(order, t / 2, l) + fixed_code(order, t % 2, 1)
    }
}

/// Reads a minimal binary code with upper bound `max` at `pos`: the value
/// and the position behind the codeword.
pub open spec fn minimal_binary_parse(order: BitOrder, bits: Seq<bool>, pos: int, max: u64) -> Option<(u64, int)> {
    if !(0 < max < MINIMAL_BINARY_BOUND_LIMIT) {
        None
    } else {
        let l = floor_log2(max as nat);
        let limit = pow2(l + 1) - max;
        match parse_fixed(order, bits, pos, l) {
            Some((prefix, p)) => if prefix < limit {
                Some((prefix as u64, p))
            } else {
                match parse_fixed(order, bits, p, 1) {
                    Some((last, end)) => Some(((2 * prefix + last - limit) as u64, end)),
                    None => None,
                }
            },
            None => None,
        }
    }
}

/// With `l = ⌊log₂ max⌋`: `0 < 2^(l + 1) - max ≤ 2^l ≤ max`, and `l ≤ 62`.
pub proof fn lemma_minimal_binary_limit(max: u64)
    requires
        0 < max < MINIMAL_BINARY_BOUND_LIMIT,
    ensures
        ({
            let l = floor_log2(max as nat);
            &&& l <= 62
            &&& pow2(l) <= max < pow2(l + 1)
            &&& pow2(l + 1) == 2 * pow2(l)
            &&& 0 < pow2(l + 1) - max <= pow2(l)
        }),
{
    let l = floor_log2(max as nat);
    lemma_floor_log2(max as nat);
    lemma_pow2_unfold(l + 1);
    lemma2_to64();
    lemma2_to64_rest();
    lemma_floor_log2_below(max as nat, 63);
}

/// A minimal binary codeword that lies at `pos` is read back from there as the value it
/// was written for, whatever surrounds it.
pub proof fn lemma_minimal_binary_round_trip(order: BitOrder, bits: Seq<bool>, pos: int, v: u64, max: u64)
    requires
        minimal_binary_domain(v, max),
        0 <= pos,
        pos + minimal_binary_code(order, v, max).len() <= bits.len(),
        bits.subrange(pos, pos + minimal_binary_code(order, v, max).len()) == minimal_binary_code(
            order,
            v,
            max,
        ),
    ensures
        minimal_binary_parse(order, bits, pos, max) == Some(
            (v, pos + minimal_binary_code(order, v, max).len()),
        ),
{
    let l = floor_log2(max as nat);
    let limit = pow2(l + 1) - max;
    lemma_minimal_binary_limit(max);
    if v < limit {
        lemma_fixed_value_of_code(order, v as nat, l);
        lemma_parse_fixed(order, bits, pos, v as nat, l);
        lemma_small_mod(v as nat, pow2(l));
    } else {
        let t = (v + limit) as nat;
        let head = fixed_code(order, t / 2, l);
        let tail = fixed_code(order, t % 2, 1);
        lemma_fixed_value_of_code(order, t / 2, l);
        lemma_fixed_value_of_code(order, t % 2, 1);
        lemma_split(bits, pos, head, tail);
        lemma_parse_fixed(order, bits, pos, t / 2, l);
        lemma_parse_fixed(order, bits, pos + l, t % 2, 1);
        assert(t < 2 * pow2(l));
        assert(t / 2 < pow2(l));
        lemma_small_mod(t / 2, pow2(l));
        assert(pow2(1) == 2) by {
            lemma2_to64();
        }
        lemma_small_mod(t % 2, 2);
        assert(t / 2 >= limit);
    }
}

/// A minimal binary codeword that is read lies within the stream.
pub proof fn lemma_minimal_binary_parse_bounds(order: BitOrder, bits: Seq<bool>, pos: int, max: u64)
    requires
        minimal_binary_parse(order, bits, pos, max) is Some,
    ensures
        0 <= pos <= minimal_binary_parse(order, bits, pos, max).unwrap().1 <= bits.len(),
{
}

// ------------------------------------------------------------------ ζ

/// The values that have a ζ code with parameter `k`: with
/// `h = ⌊⌊log₂(v + 1)⌋ / k⌋`, the bound `2^((h + 1)k)` of the bucket of `v`
/// has to be a `u64` below `2^64`.
pub open spec fn zeta_domain(v: u64, k: u64) -> bool {
    v < u64::MAX && k >= 1 && (floor_log2((v + 1) as nat) / k as nat + 1) * k <= 63
}

/// The ζ code with parameter `k` of `v`: with
/// `h = ⌊⌊log₂(v + 1)⌋ / k⌋`, `h` in unary, then the minimal binary code of
/// `v + 1 - 2^(hk)` with upper bound `2^((h + 1)k) - 2^(hk)`.
pub open spec fn zeta_code(order: BitOrder, v: u64, k: u64) -> Seq<bool> {
    let n = (v + 1) as nat;
    let h = floor_log2(n) / k as nat;
    let low = pow2(h * k as nat);
    let high = pow2((h + 1) * k as nat);
    unary_code(h) + minimal_binary_code(order, (n - low) as u64, (high - low) as u64)
}

/// Reads a ζ code with parameter `k` at `pos`: the value and the position
/// behind the codeword.
pub open spec fn zeta_parse(order: BitOrder, bits: Seq<bool>, pos: int, k: u64) -> Option<(u64, int)> {
    if k == 0 {
        None
    } else {
        match parse_unary(bits, pos) {
            Some((h, p)) => if (h + 1) * k <= 63 {
                let low = pow2(h * k as nat);
                let high = pow2((h + 1) * k as nat);
                match minimal_binary_parse(order, bits, p, (high - low) as u64) {
                    Some((rest, end)) => Some(((low + rest - 1) as u64, end)),
                    None => None,
                }
            } else {
                None
            },
            None => None,
        }
    }
}

/// The bucket of a value in the domain of ζ: `2^(hk) ≤ v + 1 < 2^((h + 1)k)
/// ≤ 2^63`.
pub proof fn lemma_zeta_bucket(v: u64, k: u64)
    requires
        zeta_domain(v, k),
    ensures
        ({
            let n = (v + 1) as nat;
            let h = floor_log2(n) / k as nat;
            let low = pow2(h * k as nat);
            let high = pow2((h + 1) * k as nat);
            &&& (h + 1) * k <= 63
            &&& 1 <= low <= n < high <= MINIMAL_BINARY_BOUND_LIMIT
            &&& minimal_binary_domain((n - low) as u64, (high - low) as u64)
        }),
{
    let n = (v + 1) as nat;
    let l = floor_log2(n);
    let kk = k as nat;
    let h = l / kk;
    lemma_floor_log2(n);
    lemma_fundamental_div_mod(l as int, kk as int);
    assert(h * kk <= l < (h + 1) * kk) by (nonlinear_arith)
        requires
            l == kk * h + l % kk,
            0 <= l % kk < kk,
    ;
    lemma_pow2_monotone(h * kk, l);
    lemma_pow2_monotone(l + 1, (h + 1) * kk);
    lemma_pow2_monotone((h + 1) * kk, 63);
    lemma_pow2_pos(h * kk);
    lemma2_to64();
    lemma2_to64_rest();
}

/// A ζ codeword that lies at `pos` is read back from there as the value it
/// was written for, whatever surrounds it.
pub proof fn lemma_zeta_round_trip(order: BitOrder, bits: Seq<bool>, pos: int, v: u64, k: u64)
    requires
        zeta_domain(v, k),
        0 <= pos,
        pos + zeta_code(order, v, k).len() <= bits.len(),
        bits.subrange(pos, pos + zeta_code(order, v, k).len()) == zeta_code(order, v, k),
    ensures
        zeta_parse(order, bits, pos, k) == Some((v, pos + zeta_code(order, v, k).len())),
{
    let n = (v + 1) as nat;
    let h = floor_log2(n) / k as nat;
    let low = pow2(h * k as nat);
    let high = pow2((h + 1) * k as nat);
    lemma_zeta_bucket(v, k);
    let tail = minimal_binary_code(order, (n - low) as u64, (high - low) as u64);
    lemma_split(bits, pos, unary_code(h), tail);
    lemma_parse_unary(bits, pos, h);
    lemma_minimal_binary_round_trip(order, bits, pos + h + 1, (n - low) as u64, (high - low) as u64);
}

/// A ζ codeword that is read lies within the stream.
pub proof fn lemma_zeta_parse_bounds(order: BitOrder, bits: Seq<bool>, pos: int, k: u64)
    requires
        zeta_parse(order, bits, pos, k) is Some,
    ensures
        0 <= pos <= zeta_parse(order, bits, pos, k).unwrap().1 <= bits.len(),
{
    lemma_parse_unary_bounds(bits, pos);
}

} // verus!
