use compressed_intvec::codecs::{
    Codec, DeltaCodec, ExpGolombCodec, GammaCodec, ParamDeltaCodec, ParamGammaCodec, RiceCodec,
};
use compressed_intvec::intvec::{BEIntVec, LEIntVec};
use rand::{Rng, SeedableRng};

/// Generate a random vector of `u64` values using a fixed seed for reproducibility.
fn generate_random_vec(size: usize) -> Vec<u64> {
    let mut rng = rand::rngs::StdRng::seed_from_u64(42);
    (0..size).map(|_| rng.random_range(0..1000)).collect()
}

/// Builds an `LEIntVec` with the given codec and parameter and checks that
/// every index gives back the value that was put in.
fn test_codec_le<C>(input: &[u64], k: usize, codec_param: C::Params)
where
    C: Codec,
    C::Params: Copy + Clone + PartialEq + std::fmt::Debug,
{
    let vec_le = LEIntVec::<C>::from_with_param(input, k, codec_param.clone()).unwrap();
    assert_eq!(vec_le.len(), input.len());
    for (i, &val) in input.iter().enumerate() {
        assert_eq!(vec_le.get(i), Some(val), "Mismatch at index {}", i);
    }
    assert_eq!(vec_le.get(input.len()), None);
}

/// Builds a `BEIntVec` and checks its length, sampling rate and number of
/// samples.
fn test_codec_be<C>(input: &[u64], k: usize, codec_param: C::Params)
where
    C: Codec,
    C::Params: Clone + Copy + std::fmt::Debug,
{
    let vec_be = BEIntVec::<C>::from_with_param(input, k, codec_param.clone()).unwrap();
    assert_eq!(vec_be.len(), input.len());
    assert_eq!(vec_be.get_sampling_rate(), k);
    let expected_samples = if input.is_empty() { 0 } else { (input.len() + k - 1) / k };
    assert_eq!(vec_be.get_samples().len(), expected_samples);
}

#[test]
fn test_codecs_le() {
    // Gamma
    let input = generate_random_vec(100);
    let k = 3;
    test_codec_le::<GammaCodec>(&input, k, ());
    // Delta
    let input = generate_random_vec(100);
    let k = 2;
    test_codec_le::<DeltaCodec>(&input, k, ());
    // Exp-Golomb
    let input = generate_random_vec(100);
    let k = 2;
    test_codec_le::<ExpGolombCodec>(&input, k, 3);
    // Rice
    let input = generate_random_vec(100);
    let k = 2;
    test_codec_le::<RiceCodec>(&input, k, 3);
    // Parameterized delta
    let input = generate_random_vec(100);
    let k = 2;
    test_codec_le::<ParamDeltaCodec<true, true>>(&input, k, ());
    test_codec_le::<ParamDeltaCodec<false, true>>(&input, k, ());
    test_codec_le::<ParamDeltaCodec<true, false>>(&input, k, ());
    test_codec_le::<ParamDeltaCodec<false, false>>(&input, k, ());
    // Parameterized gamma
    let input = generate_random_vec(100);
    let k = 2;
    test_codec_le::<ParamGammaCodec<true>>(&input, k, ());
    test_codec_le::<ParamGammaCodec<false>>(&input, k, ());
}

#[test]
fn test_codecs_be() {
    // Gamma
    let input = generate_random_vec(100);
    let k = 2;
    test_codec_be::<GammaCodec>(&input, k, ());
    // Delta
    let input = generate_random_vec(100);
    let k = 2;
    test_codec_be::<DeltaCodec>(&input, k, ());
    // Exp-Golomb
    let input = generate_random_vec(100);
    let k = 1;
    test_codec_be::<ExpGolombCodec>(&input, k, 3);
    // Rice
    let input = generate_random_vec(100);
    let k = 2;
    test_codec_be::<RiceCodec>(&input, k, 3);
    // Parameterized delta
    let input = generate_random_vec(100);
    let k = 2;
    test_codec_be::<ParamDeltaCodec<true, true>>(&input, k, ());
    test_codec_be::<ParamDeltaCodec<false, true>>(&input, k, ());
    test_codec_be::<ParamDeltaCodec<true, false>>(&input, k, ());
    test_codec_be::<ParamDeltaCodec<false, false>>(&input, k, ());
    // Parameterized gamma
    let input = generate_random_vec(100);
    let k = 2;
    test_codec_be::<ParamGammaCodec<true>>(&input, k, ());
    test_codec_be::<ParamGammaCodec<false>>(&input, k, ());
}

#[test]
fn empty_input_le() {
    let input: Vec<u64> = vec![];
    let k = 3;
    let vec_le = LEIntVec::<GammaCodec>::from_with_param(&input, k, ()).unwrap();
    assert_eq!(vec_le.len(), 0);
}

#[test]
fn empty_input_be() {
    let input: Vec<u64> = vec![];
    let vec_be = BEIntVec::<DeltaCodec>::from_with_param(&input, 2, ()).unwrap();
    assert_eq!(vec_be.len(), 0);
}

#[test]
fn single_element_le() {
    let input = vec![42];
    let k = 3;
    test_codec_le::<GammaCodec>(&input, k, ());
}

#[test]
fn single_element_be() {
    let input = vec![42];
    let k = 3;
    let vec_be = BEIntVec::<DeltaCodec>::from_with_param(&input, k, ()).unwrap();
    assert_eq!(vec_be.len(), 1);
    let sample_index = 0; // since there's only one sample.
    assert_eq!(vec_be.get_samples()[sample_index], 0);
}

#[test]
fn test_in_order_iter() {
    let input = generate_random_vec(100);
    let k = 3;
    let vec_le = LEIntVec::<GammaCodec>::from_with_param(&input, k, ()).unwrap();

    let mut it = vec_le.iter();
    let mut i = 0;
    while let Some(val) = it.next() {
        assert_eq!(val, input[i]);
        i += 1;
    }
    assert_eq!(i, input.len());

    assert_eq!(vec_le.into_vec(), input);
}
