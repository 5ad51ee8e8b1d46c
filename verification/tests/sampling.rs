use compressed_intvec::codecs::{
    Codec, DeltaCodec, ExpGolombCodec, GammaCodec, MinimalBinaryCodec, RiceCodec, ZetaCodec,
};
use compressed_intvec::intvec::{BEIntVec, LEIntVec};

fn floor_log2(n: u64) -> usize {
    63 - n.leading_zeros() as usize
}

fn gamma_len(v: u64) -> usize {
    2 * floor_log2(v + 1) + 1
}

fn delta_len(v: u64) -> usize {
    let l = floor_log2(v + 1);
    gamma_len(l as u64) + l
}

fn minimal_binary_len(v: u64, max: u64) -> usize {
    let l = floor_log2(max);
    let limit = (1u64 << (l + 1)) - max;
    if v < limit { l } else { l + 1 }
}

fn zeta_len(v: u64, k: u64) -> usize {
    let n = v + 1;
    let h = floor_log2(n) as u64 / k;
    let low = 1u64 << (h * k);
    let high = 1u64 << ((h + 1) * k);
    h as usize + 1 + minimal_binary_len(n - low, high - low)
}

/// With period `k` the samples are the sums of the lengths of the codewords
/// before each block.
fn check_samples<C>(input: &[u64], codec_param: C::Params, len: &dyn Fn(u64) -> usize)
where
    C: Codec,
    C::Params: Copy,
{
    for k in [1usize, 2, 3, 4, 10, 64] {
        let mut expected = Vec::new();
        let mut total = 0usize;
        for (i, &v) in input.iter().enumerate() {
            if i % k == 0 {
                expected.push(total);
            }
            total += len(v);
        }
        let be = BEIntVec::<C>::from_with_param(input, k, codec_param).unwrap();
        let le = LEIntVec::<C>::from_with_param(input, k, codec_param).unwrap();
        assert_eq!(be.get_samples(), &expected);
        assert_eq!(le.get_samples(), &expected);
        assert_eq!(be.get_samples().len(), (input.len() + k - 1) / k);
        if !input.is_empty() {
            assert_eq!(be.get_samples()[0], 0);
        }
        assert!(be.get_samples().windows(2).all(|w| w[0] <= w[1]));
        assert_eq!(be.limbs().len(), (total + 63) / 64);
        assert_eq!(le.limbs().len(), (total + 63) / 64);
    }
}

fn values() -> Vec<u64> {
    let mut v: Vec<u64> = (0..200).collect();
    v.extend([1000, 1023, 1024, 65535, 65536, 1 << 20, (1 << 31) - 1, 1 << 40, 999].iter());
    v
}

#[test]
fn gamma_offsets() {
    let v = BEIntVec::<GammaCodec>::from(&[0u64, 1, 2, 3], 1).unwrap();
    assert_eq!(v.get_samples(), &vec![0usize, 1, 4, 7]);
    let v = LEIntVec::<GammaCodec>::from(&[0u64, 1, 2, 3], 2).unwrap();
    assert_eq!(v.get_samples(), &vec![0usize, 4]);
    check_samples::<GammaCodec>(&values(), (), &gamma_len);
}

#[test]
fn delta_offsets() {
    // 0 -> 1 bit, 1 and 2 -> 4 bits, 3 -> 5 bits
    let v = BEIntVec::<DeltaCodec>::from(&[0u64, 1, 2, 3, 0], 1).unwrap();
    assert_eq!(v.get_samples(), &vec![0usize, 1, 5, 9, 14]);
    check_samples::<DeltaCodec>(&values(), (), &delta_len);
}

#[test]
fn rice_offsets() {
    // 20 = 2 * 8 + 4: two zeros, a one, three digits
    let v = LEIntVec::<RiceCodec>::from_with_param(&[20u64, 0, 7, 8], 1, 3).unwrap();
    assert_eq!(v.get_samples(), &vec![0usize, 6, 10, 14]);
    for log2_b in [0usize, 1, 3, 7] {
        let small: Vec<u64> = (0..100).collect();
        check_samples::<RiceCodec>(&small, log2_b, &|v| (v >> log2_b) as usize + 1 + log2_b);
    }
}

#[test]
fn exp_golomb_offsets() {
    // 20 = 2 * 8 + 4: the code of 2 takes three bits, then three digits
    let v = BEIntVec::<ExpGolombCodec>::from_with_param(&[20u64, 0, 7, 8], 1, 3).unwrap();
    assert_eq!(v.get_samples(), &vec![0usize, 6, 10, 14]);
    for k in [0usize, 1, 3, 7] {
        check_samples::<ExpGolombCodec>(&values(), k, &|v| gamma_len(v >> k) + k);
    }
}

#[test]
fn minimal_binary_offsets() {
    // upper bound 5: 0, 1, 2 take two bits, 3 and 4 take three
    let v = BEIntVec::<MinimalBinaryCodec>::from_with_param(&[0u64, 1, 2, 3, 4, 0], 1, 5).unwrap();
    assert_eq!(v.get_samples(), &vec![0usize, 2, 4, 6, 9, 12]);
    for max in [1u64, 2, 5, 1000, 1 << 20] {
        let input: Vec<u64> = (0..300).map(|i| (i * 7919) % max).collect();
        check_samples::<MinimalBinaryCodec>(&input, max, &|v| minimal_binary_len(v, max));
    }
}

#[test]
fn zeta_offsets() {
    let v = LEIntVec::<ZetaCodec>::from_with_param(&[0u64, 7, 100, 1 << 62], 1, 3).unwrap();
    assert_eq!(v.get_samples(), &vec![0usize, 3, 10, 21]);
    for k in [1u64, 2, 3, 5] {
        check_samples::<ZetaCodec>(&values(), k, &|v| zeta_len(v, k));
    }
}

#[test]
fn empty_input_has_no_sample() {
    for k in [1usize, 2, 64, usize::MAX] {
        let v = BEIntVec::<GammaCodec>::from(&[], k).unwrap();
        assert_eq!(v.len(), 0);
        assert!(v.is_empty());
        assert!(v.get_samples().is_empty());
        assert!(v.limbs().is_empty());
        assert_eq!(v.get(0), None);
        assert_eq!(v.get(1), None);
        assert_eq!(v.get(usize::MAX), None);
        assert_eq!(v.iter().next(), None);
        assert_eq!(v.into_vec(), Vec::<u64>::new());
        let v = LEIntVec::<RiceCodec>::from_with_param(&[], k, 70).unwrap();
        assert!(v.is_empty());
        assert_eq!(v.get(0), None);
    }
}

#[test]
fn single_element_has_one_sample_at_zero() {
    for k in [1usize, 2, 64, usize::MAX] {
        let v = LEIntVec::<DeltaCodec>::from(&[42], k).unwrap();
        assert_eq!(v.get_samples(), &vec![0usize]);
        assert_eq!(v.get(0), Some(42));
        assert_eq!(v.get(1), None);
        assert_eq!(v.len(), 1);
        assert!(!v.is_empty());
        let v = BEIntVec::<ZetaCodec>::from_with_param(&[42], k, 2).unwrap();
        assert_eq!(v.get_samples(), &vec![0usize]);
        assert_eq!(v.get(0), Some(42));
    }
}

#[test]
fn beyond_the_end_there_is_nothing() {
    let input: Vec<u64> = (0..10).collect();
    for k in 1..=12usize {
        let v = BEIntVec::<GammaCodec>::from(&input, k).unwrap();
        assert_eq!(v.get(9), Some(9));
        assert_eq!(v.get(10), None);
        assert_eq!(v.get(11), None);
        assert_eq!(v.get(10 + k), None);
        assert_eq!(v.get(usize::MAX), None);
        let v = LEIntVec::<GammaCodec>::from(&input, k).unwrap();
        assert_eq!(v.get(10), None);
        assert_eq!(v.get(usize::MAX - 1), None);
    }
}

#[test]
fn codewords_of_no_bits() {
    // with upper bound 1 the only value, 0, takes no bit at all
    let v = BEIntVec::<MinimalBinaryCodec>::from_with_param(&[0u64, 0, 0], 2, 1).unwrap();
    assert!(v.limbs().is_empty());
    assert_eq!(v.get_samples(), &vec![0usize, 0]);
    assert_eq!(v.get(0), Some(0));
    assert_eq!(v.get(2), Some(0));
    assert_eq!(v.get(3), None);
    assert_eq!(v.into_vec(), vec![0u64, 0, 0]);
}
