use compressed_intvec::codecs::{
    Codec, DeltaCodec, ExpGolombCodec, GammaCodec, MinimalBinaryCodec, ParamDeltaCodec,
    ParamGammaCodec, ParamZetaCodec, RiceCodec, ZetaCodec,
};
use compressed_intvec::intvec::{BEIntVec, LEIntVec};
use rand::{Rng, SeedableRng};

// The codewords bit by bit, written out as the library defines them, and
// compared with the bits that are found in the packed words.

#[derive(Clone, Copy, PartialEq)]
enum Order {
    Big,
    Little,
}

fn unary_code(n: u64) -> Vec<bool> {
    let mut bits = vec![false; n as usize];
    bits.push(true);
    bits
}

/// The `width` lowest binary digits of `v`, least significant first.
fn digits(v: u64, width: usize) -> Vec<bool> {
    (0..width).map(|i| i < 64 && (v >> i) & 1 == 1).collect()
}

fn fixed_code(order: Order, v: u64, width: usize) -> Vec<bool> {
    let mut d = digits(v, width);
    if order == Order::Big {
        d.reverse();
    }
    d
}

fn floor_log2(n: u64) -> usize {
    63 - n.leading_zeros() as usize
}

fn gamma_code(order: Order, v: u64) -> Vec<bool> {
    let n = v + 1;
    let l = floor_log2(n);
    let mut bits = unary_code(l as u64);
    bits.extend(fixed_code(order, n, l));
    bits
}

fn delta_code(order: Order, v: u64) -> Vec<bool> {
    let n = v + 1;
    let l = floor_log2(n);
    let mut bits = gamma_code(order, l as u64);
    bits.extend(fixed_code(order, n, l));
    bits
}

fn rice_code(order: Order, v: u64, log2_b: usize) -> Vec<bool> {
    let mut bits = unary_code(v >> log2_b);
    bits.extend(fixed_code(order, v, log2_b));
    bits
}

fn exp_golomb_code(order: Order, v: u64, k: usize) -> Vec<bool> {
    let mut bits = gamma_code(order, v >> k);
    bits.extend(fixed_code(order, v, k));
    bits
}

fn minimal_binary_code(order: Order, v: u64, max: u64) -> Vec<bool> {
    let l = floor_log2(max);
    let limit = (1u64 << (l + 1)) - max;
    if v < limit {
        fixed_code(order, v, l)
    } else {
        let t = v + limit;
        let mut bits = fixed_code(order, t / 2, l);
        bits.extend(fixed_code(order, t % 2, 1));
        bits
    }
}

fn zeta_code(order: Order, v: u64, k: u64) -> Vec<bool> {
    let n = v + 1;
    let h = floor_log2(n) as u64 / k;
    let low = 1u64 << (h * k);
    let high = 1u64 << ((h + 1) * k);
    let mut bits = unary_code(h);
    bits.extend(minimal_binary_code(order, n - low, high - low));
    bits
}

/// Digit `j` of the word that a stream of the given order keeps as `stored`.
fn stream_digit(order: Order, stored: u64, j: usize) -> bool {
    let native = if u16::from_ne_bytes([1, 0]) == 1 { Order::Little } else { Order::Big };
    let place = if order == native { j } else { 8 * (7 - j / 8) + j % 8 };
    (stored >> place) & 1 == 1
}

fn packed_bits(order: Order, words: &[u64]) -> Vec<bool> {
    (0..64 * words.len())
        .map(|i| {
            let j = match order {
                Order::Big => 63 - i % 64,
                Order::Little => i % 64,
            };
            stream_digit(order, words[i / 64], j)
        })
        .collect()
}

/// The words of both variants hold the codewords of `input` one after the
/// other, then zeros up to the end of the last word.
fn check_codewords<C>(input: &[u64], codec_param: C::Params, code: &dyn Fn(Order, u64) -> Vec<bool>)
where
    C: Codec,
    C::Params: Copy,
{
    for order in [Order::Big, Order::Little] {
        let mut expected = Vec::new();
        for &v in input {
            expected.extend(code(order, v));
        }
        let written = expected.len();
        while expected.len() % 64 != 0 {
            expected.push(false);
        }
        let words = match order {
            Order::Big => BEIntVec::<C>::from_with_param(input, 1, codec_param).unwrap().limbs(),
            Order::Little => LEIntVec::<C>::from_with_param(input, 1, codec_param).unwrap().limbs(),
        };
        assert_eq!(words.len(), (written + 63) / 64);
        assert_eq!(packed_bits(order, &words), expected);
    }
}

fn sample_values(top: u32, seed: u64) -> Vec<u64> {
    let mut values: Vec<u64> = (0..70).collect();
    for e in 6..=top {
        let p = 1u64 << e;
        values.extend([p - 2, p - 1, p, p + 1]);
    }
    let mut rng = rand::rngs::StdRng::seed_from_u64(seed);
    for _ in 0..200 {
        let e = rng.random_range(1..=top);
        values.push(rng.random_range(0..(1u64 << e)));
    }
    values
}

#[test]
fn gamma_codewords() {
    let mut values = sample_values(63, 11);
    values.push(u64::MAX - 1);
    check_codewords::<GammaCodec>(&values, (), &|o, v| gamma_code(o, v));
    check_codewords::<ParamGammaCodec<true>>(&values, (), &|o, v| gamma_code(o, v));
    check_codewords::<ParamGammaCodec<false>>(&values, (), &|o, v| gamma_code(o, v));
    // 9 is 0001010
    assert_eq!(
        gamma_code(Order::Big, 9),
        vec![false, false, false, true, false, true, false]
    );
}

#[test]
fn delta_codewords() {
    let mut values = sample_values(63, 12);
    values.push(u64::MAX - 1);
    check_codewords::<DeltaCodec>(&values, (), &|o, v| delta_code(o, v));
    check_codewords::<ParamDeltaCodec<true, true>>(&values, (), &|o, v| delta_code(o, v));
    check_codewords::<ParamDeltaCodec<true, false>>(&values, (), &|o, v| delta_code(o, v));
    check_codewords::<ParamDeltaCodec<false, true>>(&values, (), &|o, v| delta_code(o, v));
    check_codewords::<ParamDeltaCodec<false, false>>(&values, (), &|o, v| delta_code(o, v));
}

#[test]
fn rice_codewords() {
    for log2_b in [0usize, 1, 3, 8] {
        let values: Vec<u64> = sample_values(10, 13).into_iter().filter(|&v| v < 1500).collect();
        check_codewords::<RiceCodec>(&values, log2_b, &|o, v| rice_code(o, v, log2_b));
    }
    for log2_b in [40usize, 62, 63] {
        let mut values = sample_values(40, 14);
        values.extend([1u64 << 63, u64::MAX, u64::MAX - 1, (1u64 << 63) - 1]);
        check_codewords::<RiceCodec>(&values, log2_b, &|o, v| rice_code(o, v, log2_b));
    }
}

#[test]
fn exp_golomb_codewords() {
    for k in [0usize, 1, 2, 3, 17, 62, 63] {
        let mut values = sample_values(63, 15);
        values.push(u64::MAX - 1);
        if k > 0 {
            values.push(u64::MAX);
        }
        check_codewords::<ExpGolombCodec>(&values, k, &|o, v| exp_golomb_code(o, v, k));
    }
}

#[test]
fn minimal_binary_codewords() {
    for max in [1u64, 2, 3, 5, 6, 7, 8, 9, 1000, 1 << 20, (1 << 20) + 1, (1 << 63) - 1, 1 << 62] {
        let mut values: Vec<u64> = sample_values(62, 16).into_iter().map(|v| v % max).collect();
        values.push(max - 1);
        values.push(max / 2);
        check_codewords::<MinimalBinaryCodec>(&values, max, &|o, v| minimal_binary_code(o, v, max));
    }
}

#[test]
fn zeta_codewords() {
    for k in [1u64, 2, 3, 4, 5, 7, 9, 21, 31, 63] {
        let top = (63 / k) * k;
        let mut values: Vec<u64> = sample_values(top as u32, 17)
            .into_iter()
            .filter(|&v| v <= (1u64 << top) - 2)
            .collect();
        values.push((1u64 << top) - 2);
        check_codewords::<ZetaCodec>(&values, k, &|o, v| zeta_code(o, v, k));
    }
    let mut values: Vec<u64> = sample_values(62, 18);
    values.push((1u64 << 63) - 2);
    check_codewords::<ParamZetaCodec<true>>(&values, (), &|o, v| zeta_code(o, v, 3));
    check_codewords::<ParamZetaCodec<false>>(&values, (), &|o, v| zeta_code(o, v, 3));
}
