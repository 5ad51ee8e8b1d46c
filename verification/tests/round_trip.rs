use compressed_intvec::codecs::{
    Codec, DeltaCodec, ExpGolombCodec, GammaCodec, MinimalBinaryCodec, ParamDeltaCodec,
    ParamGammaCodec, ParamZetaCodec, RiceCodec, ZetaCodec,
};
use compressed_intvec::intvec::{BEIntVec, LEIntVec};
use rand::{Rng, SeedableRng};

const PERIODS: [usize; 8] = [1, 2, 3, 7, 8, 64, 65, 1000];

/// Builds both variants for every period and checks everything that can be
/// read back against `input`.
fn check_round_trip<C>(input: &[u64], codec_param: C::Params)
where
    C: Codec,
    C::Params: Copy,
{
    for &k in PERIODS.iter() {
        let be = BEIntVec::<C>::from_with_param(input, k, codec_param).unwrap();
        let le = LEIntVec::<C>::from_with_param(input, k, codec_param).unwrap();
        assert_eq!(be.len(), input.len());
        assert_eq!(le.len(), input.len());
        assert_eq!(be.is_empty(), input.is_empty());
        assert_eq!(le.is_empty(), input.is_empty());
        assert_eq!(be.get_sampling_rate(), k);
        assert_eq!(le.get_sampling_rate(), k);
        for (i, &value) in input.iter().enumerate() {
            assert_eq!(be.get(i), Some(value), "big-endian, k = {}, index {}", k, i);
            assert_eq!(le.get(i), Some(value), "little-endian, k = {}, index {}", k, i);
            // asking again changes nothing
            assert_eq!(be.get(i), Some(value));
            assert_eq!(le.get(i), Some(value));
        }
        assert_eq!(be.get(input.len()), None);
        assert_eq!(le.get(input.len()), None);
        assert_eq!(be.get(input.len() + 1), None);
        assert_eq!(le.get(usize::MAX), None);

        let mut it = be.iter();
        let mut seen = Vec::new();
        while let Some(value) = it.next() {
            seen.push(value);
        }
        assert_eq!(seen, input);
        assert_eq!(it.next(), None);
        let mut it = le.iter();
        let mut seen = Vec::new();
        while let Some(value) = it.next() {
            seen.push(value);
        }
        assert_eq!(seen, input);

        // a copy holds the same values in the same words
        let copy = be.clone();
        assert_eq!(copy.limbs(), be.limbs());
        assert_eq!(copy.get_samples(), be.get_samples());
        assert_eq!(copy.into_vec(), input);
        let copy = le.clone();
        assert_eq!(copy.len(), le.len());
        assert_eq!(copy.into_vec(), input);

        // the two orders take the same number of bits
        assert_eq!(be.get_samples(), le.get_samples());
        assert_eq!(be.limbs().len(), le.limbs().len());

        assert_eq!(be.into_vec(), input);
        assert_eq!(le.into_vec(), input);
    }
}

fn random_values(size: usize, below: u64, seed: u64) -> Vec<u64> {
    let mut rng = rand::rngs::StdRng::seed_from_u64(seed);
    (0..size).map(|_| rng.random_range(0..below)).collect()
}

/// Values around every power of two up to `2^top`.
fn edge_values(top: u32) -> Vec<u64> {
    let mut values = vec![0u64, 1, 2, 3];
    for e in 2..=top {
        let p = 1u64 << e;
        values.push(p - 2);
        values.push(p - 1);
        values.push(p);
        values.push(p + 1);
    }
    values
}

#[test]
fn gamma_round_trip() {
    check_round_trip::<GammaCodec>(&[], ());
    check_round_trip::<GammaCodec>(&[0], ());
    check_round_trip::<GammaCodec>(&random_values(300, 1000, 1), ());
    let mut edges = edge_values(63);
    edges.push(u64::MAX - 1);
    check_round_trip::<GammaCodec>(&edges, ());
    check_round_trip::<ParamGammaCodec<true>>(&edges, ());
    check_round_trip::<ParamGammaCodec<false>>(&edges, ());
}

#[test]
fn delta_round_trip() {
    check_round_trip::<DeltaCodec>(&[], ());
    check_round_trip::<DeltaCodec>(&[u64::MAX - 1], ());
    check_round_trip::<DeltaCodec>(&random_values(300, 100_000, 2), ());
    let mut edges = edge_values(63);
    edges.push(u64::MAX - 1);
    check_round_trip::<DeltaCodec>(&edges, ());
    check_round_trip::<ParamDeltaCodec<true, true>>(&edges, ());
    check_round_trip::<ParamDeltaCodec<true, false>>(&edges, ());
    check_round_trip::<ParamDeltaCodec<false, true>>(&edges, ());
    check_round_trip::<ParamDeltaCodec<false, false>>(&edges, ());
}

#[test]
fn exp_golomb_round_trip() {
    let mut edges = edge_values(63);
    edges.push(u64::MAX - 1);
    for k in [0usize, 1, 2, 3, 8, 31, 32, 62, 63] {
        check_round_trip::<ExpGolombCodec>(&edges, k);
        check_round_trip::<ExpGolombCodec>(&random_values(100, 5000, 3), k);
    }
    // with a positive order the largest value has a codeword too
    check_round_trip::<ExpGolombCodec>(&[u64::MAX, 0, u64::MAX], 1);
    check_round_trip::<ExpGolombCodec>(&[u64::MAX], 63);
}

#[test]
fn rice_round_trip() {
    for log2_b in [0usize, 1, 2, 3, 5, 8] {
        check_round_trip::<RiceCodec>(&random_values(200, 1000, 4), log2_b);
        check_round_trip::<RiceCodec>(&edge_values(10), log2_b);
    }
    // large values with a large modulus: the quotient stays small
    check_round_trip::<RiceCodec>(&[u64::MAX, 0, 1 << 63, (1 << 63) - 1, u64::MAX - 1], 63);
    check_round_trip::<RiceCodec>(&[u64::MAX, 1 << 60, 12345], 58);
}

#[test]
fn minimal_binary_round_trip() {
    for max in [1u64, 2, 3, 4, 5, 6, 7, 8, 9, 1000, 1023, 1024, 1025] {
        let all: Vec<u64> = (0..max).collect();
        check_round_trip::<MinimalBinaryCodec>(&all, max);
    }
    let top = (1u64 << 63) - 1;
    check_round_trip::<MinimalBinaryCodec>(&[0, 1, top - 1, top / 2, 1 << 62, (1 << 62) - 1], top);
    check_round_trip::<MinimalBinaryCodec>(&[0, 1, (1 << 62) - 1, 12345], 1 << 62);
    check_round_trip::<MinimalBinaryCodec>(&random_values(500, 1000, 5), 1000);
}

#[test]
fn zeta_round_trip() {
    for k in 1u64..=8 {
        // the bucket of a value may not reach beyond 2^63
        let top = (63 / k) * k;
        let mut edges = edge_values((top - 1) as u32);
        edges.push((1u64 << top) - 2);
        check_round_trip::<ZetaCodec>(&edges, k);
        check_round_trip::<ZetaCodec>(&random_values(200, 100_000, 6), k);
    }
    check_round_trip::<ZetaCodec>(&[0, 1, (1 << 63) - 2, 1 << 62], 63);
    check_round_trip::<ZetaCodec>(&[0, 1, (1 << 62) - 2, 1 << 61], 31);
    let mut edges = edge_values(62);
    edges.push((1u64 << 63) - 2);
    check_round_trip::<ParamZetaCodec<true>>(&edges, ());
    check_round_trip::<ParamZetaCodec<false>>(&edges, ());
    check_round_trip::<ParamZetaCodec<true>>(&random_values(300, 5000, 7), ());
}

#[test]
fn scenario_gamma_period_two() {
    let seq = vec![1u64, 5, 3, 1991, 42];
    let be = BEIntVec::<GammaCodec>::from(&seq, 2).unwrap();
    assert_eq!(be.get(3), Some(1991));
    assert_eq!(be.into_vec(), seq);
    let le = LEIntVec::<GammaCodec>::from(&seq, 2).unwrap();
    assert_eq!(le.get(3), Some(1991));
    assert_eq!(le.into_vec(), seq);
}

#[test]
fn scenario_gamma_little_endian() {
    let seq = vec![10u64, 20, 30, 40, 50];
    let le = LEIntVec::<GammaCodec>::from(&seq, 2).unwrap();
    assert_eq!(le.get(2), Some(30));
    let be = BEIntVec::<GammaCodec>::from(&seq, 2).unwrap();
    assert_eq!(be.get(2), Some(30));
}

#[test]
fn scenario_minimal_binary_is_compact() {
    let n = 1000;
    let values = random_values(n, 1000, 42);
    let be = BEIntVec::<MinimalBinaryCodec>::from_with_param(&values, 32, 1000).unwrap();
    let le = LEIntVec::<MinimalBinaryCodec>::from_with_param(&values, 32, 1000).unwrap();
    let fixed_width_bytes = n * 2; // 16 bits for each value
    assert!(be.limbs().len() * 8 < fixed_width_bytes);
    assert!(le.limbs().len() * 8 < fixed_width_bytes);
    // each value takes 9 or 10 bits
    let bits: usize = values.iter().map(|&v| if v < 24 { 9 } else { 10 }).sum();
    assert_eq!(be.limbs().len(), (bits + 63) / 64);
    assert_eq!(be.into_vec(), values);
    assert_eq!(le.into_vec(), values);
}

#[test]
fn exp_golomb_example() {
    let input = vec![1u64, 5, 3, 1991, 42];
    let intvec = BEIntVec::<ExpGolombCodec>::from_with_param(&input, 2, 3).unwrap();
    assert_eq!(intvec.get(3), Some(1991));
    assert_eq!(intvec.into_vec(), input);
    let intvec = LEIntVec::<ExpGolombCodec>::from_with_param(&input, 2, 3).unwrap();
    assert_eq!(intvec.get(3), Some(1991));
}

#[test]
fn gamma_examples() {
    let input = vec![1u64, 2, 3, 4, 5];
    let intvec = BEIntVec::<GammaCodec>::from(&input, 2).unwrap();
    assert_eq!(intvec.get(3), Some(4));
    assert_eq!(intvec.len(), 5);

    let input = vec![1u64, 5, 3, 12, 42];
    let intvec = BEIntVec::<GammaCodec>::from(&input, 2).unwrap();
    assert_eq!(intvec.get(3), Some(12));

    let input = vec![43u64, 12, 5, 1991, 42];
    let intvec = LEIntVec::<GammaCodec>::from(&input, 2).unwrap();
    assert_eq!(intvec.into_vec(), input);

    let input = vec![1u64, 3, 6, 8, 13, 3];
    let compressed = BEIntVec::<GammaCodec>::from(&input, 2).unwrap();
    assert_eq!(compressed.get(3), Some(8));
    let mut it = compressed.iter();
    for &expected in input.iter() {
        assert_eq!(it.next(), Some(expected));
    }
    assert_eq!(it.next(), None);
}

#[test]
fn parameters_are_kept() {
    let input = vec![1u64, 3, 6, 8, 13, 3];
    let v = BEIntVec::<RiceCodec>::from_with_param(&input, 2, 3).unwrap();
    assert_eq!(v.get_codec_param(), 3);
    let v = LEIntVec::<MinimalBinaryCodec>::from_with_param(&input, 4, 14).unwrap();
    assert_eq!(v.get_codec_param(), 14);
    assert_eq!(v.get_sampling_rate(), 4);
    let v = LEIntVec::<GammaCodec>::from(&input, 5).unwrap();
    assert_eq!(v.get_codec_param(), ());
}

#[test]
fn rice_example() {
    let input = vec![1u64, 3, 6, 8, 13, 3];
    let compressed = BEIntVec::<RiceCodec>::from_with_param(&input, 2, 3).unwrap();
    assert_eq!(compressed.into_vec(), input);
}

#[test]
fn iterators_do_not_interfere() {
    let input = random_values(50, 1000, 8);
    let v = BEIntVec::<DeltaCodec>::from(&input, 4).unwrap();
    let mut a = v.iter();
    let mut b = v.iter();
    assert_eq!(a.next(), Some(input[0]));
    assert_eq!(a.next(), Some(input[1]));
    assert_eq!(v.get(40), Some(input[40]));
    assert_eq!(b.next(), Some(input[0]));
    assert_eq!(a.next(), Some(input[2]));
    assert_eq!(b.next(), Some(input[1]));
}

#[test]
fn tables_change_no_bit_and_no_value() {
    let mut values = edge_values(40);
    values.extend(random_values(500, 2000, 9));

    let with = BEIntVec::<ParamGammaCodec<true>>::from(&values, 5).unwrap();
    let without = BEIntVec::<ParamGammaCodec<false>>::from(&values, 5).unwrap();
    let plain = BEIntVec::<GammaCodec>::from(&values, 5).unwrap();
    assert_eq!(with.limbs(), without.limbs());
    assert_eq!(with.limbs(), plain.limbs());
    assert_eq!(with.get_samples(), without.get_samples());
    for i in 0..values.len() {
        assert_eq!(with.get(i), without.get(i));
    }

    let with = LEIntVec::<ParamGammaCodec<true>>::from(&values, 5).unwrap();
    let without = LEIntVec::<ParamGammaCodec<false>>::from(&values, 5).unwrap();
    assert_eq!(with.limbs(), without.limbs());
    assert_eq!(with.get_samples(), without.get_samples());

    let tt = LEIntVec::<ParamDeltaCodec<true, true>>::from(&values, 3).unwrap();
    let tf = LEIntVec::<ParamDeltaCodec<true, false>>::from(&values, 3).unwrap();
    let ft = LEIntVec::<ParamDeltaCodec<false, true>>::from(&values, 3).unwrap();
    let ff = LEIntVec::<ParamDeltaCodec<false, false>>::from(&values, 3).unwrap();
    let plain = LEIntVec::<DeltaCodec>::from(&values, 3).unwrap();
    assert_eq!(tt.limbs(), tf.limbs());
    assert_eq!(tt.limbs(), ft.limbs());
    assert_eq!(tt.limbs(), ff.limbs());
    assert_eq!(tt.limbs(), plain.limbs());
    for i in 0..values.len() {
        assert_eq!(tt.get(i), ff.get(i));
        assert_eq!(tf.get(i), ft.get(i));
    }
    let tt = BEIntVec::<ParamDeltaCodec<true, true>>::from(&values, 3).unwrap();
    let ff = BEIntVec::<ParamDeltaCodec<false, false>>::from(&values, 3).unwrap();
    assert_eq!(tt.limbs(), ff.limbs());

    let with = BEIntVec::<ParamZetaCodec<true>>::from(&values, 4).unwrap();
    let without = BEIntVec::<ParamZetaCodec<false>>::from(&values, 4).unwrap();
    let plain = BEIntVec::<ZetaCodec>::from_with_param(&values, 4, 3).unwrap();
    assert_eq!(with.limbs(), without.limbs());
    assert_eq!(with.limbs(), plain.limbs());
    assert_eq!(with.get_samples(), plain.get_samples());
    for i in 0..values.len() {
        assert_eq!(with.get(i), without.get(i));
    }
    let with = LEIntVec::<ParamZetaCodec<true>>::from(&values, 4).unwrap();
    let plain = LEIntVec::<ZetaCodec>::from_with_param(&values, 4, 3).unwrap();
    assert_eq!(with.limbs(), plain.limbs());
}
