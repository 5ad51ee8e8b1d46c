use compressed_intvec::codecs::{
    DeltaCodec, ExpGolombCodec, GammaCodec, MinimalBinaryCodec, ParamDeltaCodec, ParamGammaCodec,
    ParamZetaCodec, RiceCodec, ZetaCodec,
};
use compressed_intvec::error::BuildError;
use compressed_intvec::intvec::{BEIntVec, LEIntVec};

#[test]
fn a_zero_period_is_refused() {
    assert_eq!(
        BEIntVec::<GammaCodec>::from(&[1u64, 2, 3], 0).err(),
        Some(BuildError::ZeroSamplingPeriod)
    );
    assert_eq!(
        LEIntVec::<GammaCodec>::from(&[1u64, 2, 3], 0).err(),
        Some(BuildError::ZeroSamplingPeriod)
    );
    // also where nothing is to be stored
    assert_eq!(BEIntVec::<DeltaCodec>::from(&[], 0).err(), Some(BuildError::ZeroSamplingPeriod));
    assert_eq!(
        LEIntVec::<RiceCodec>::from_with_param(&[], 0, 3).err(),
        Some(BuildError::ZeroSamplingPeriod)
    );
    // and before any value is looked at
    assert_eq!(
        BEIntVec::<GammaCodec>::from(&[u64::MAX], 0).err(),
        Some(BuildError::ZeroSamplingPeriod)
    );
}

#[test]
fn gamma_and_delta_refuse_the_largest_value() {
    let input = [5u64, 7, u64::MAX, 9, u64::MAX];
    let expected = Some(BuildError::ValueOutOfDomain { index: 2 });
    assert_eq!(BEIntVec::<GammaCodec>::from(&input, 2).err(), expected);
    assert_eq!(LEIntVec::<GammaCodec>::from(&input, 2).err(), expected);
    assert_eq!(BEIntVec::<DeltaCodec>::from(&input, 2).err(), expected);
    assert_eq!(LEIntVec::<DeltaCodec>::from(&input, 2).err(), expected);
    assert_eq!(BEIntVec::<ParamGammaCodec<true>>::from(&input, 2).err(), expected);
    assert_eq!(LEIntVec::<ParamGammaCodec<false>>::from(&input, 2).err(), expected);
    assert_eq!(BEIntVec::<ParamDeltaCodec<true, true>>::from(&input, 2).err(), expected);
    assert_eq!(LEIntVec::<ParamDeltaCodec<false, false>>::from(&input, 2).err(), expected);
    assert!(BEIntVec::<GammaCodec>::from(&[u64::MAX - 1], 1).is_ok());
}

#[test]
fn minimal_binary_takes_values_below_the_bound() {
    assert_eq!(
        BEIntVec::<MinimalBinaryCodec>::from_with_param(&[0u64, 999, 1000, 3], 2, 1000).err(),
        Some(BuildError::ValueOutOfDomain { index: 2 })
    );
    assert_eq!(
        LEIntVec::<MinimalBinaryCodec>::from_with_param(&[3u64, 9], 1, 5).err(),
        Some(BuildError::ValueOutOfDomain { index: 1 })
    );
    // no value is below 0
    assert_eq!(
        BEIntVec::<MinimalBinaryCodec>::from_with_param(&[0u64], 1, 0).err(),
        Some(BuildError::ValueOutOfDomain { index: 0 })
    );
    // the bound itself has to be below 2^63
    assert_eq!(
        LEIntVec::<MinimalBinaryCodec>::from_with_param(&[0u64], 1, 1 << 63).err(),
        Some(BuildError::ValueOutOfDomain { index: 0 })
    );
    assert_eq!(
        BEIntVec::<MinimalBinaryCodec>::from_with_param(&[7u64], 1, u64::MAX).err(),
        Some(BuildError::ValueOutOfDomain { index: 0 })
    );
    assert!(LEIntVec::<MinimalBinaryCodec>::from_with_param(&[0u64], 1, (1 << 63) - 1).is_ok());
    // with nothing to store the bound is not looked at
    assert!(BEIntVec::<MinimalBinaryCodec>::from_with_param(&[], 1, 0).is_ok());
}

#[test]
fn zeta_needs_a_positive_parameter_and_a_bucket_below_two_to_the_63() {
    assert_eq!(
        BEIntVec::<ZetaCodec>::from_with_param(&[1u64], 1, 0).err(),
        Some(BuildError::ValueOutOfDomain { index: 0 })
    );
    assert_eq!(
        LEIntVec::<ZetaCodec>::from_with_param(&[1u64, 2], 1, 64).err(),
        Some(BuildError::ValueOutOfDomain { index: 0 })
    );
    // parameter 3: values up to 2^63 - 2
    let top = (1u64 << 63) - 2;
    assert!(BEIntVec::<ZetaCodec>::from_with_param(&[top], 1, 3).is_ok());
    assert_eq!(
        BEIntVec::<ZetaCodec>::from_with_param(&[top, top + 1], 1, 3).err(),
        Some(BuildError::ValueOutOfDomain { index: 1 })
    );
    assert_eq!(
        LEIntVec::<ParamZetaCodec<true>>::from(&[0, top + 1], 1).err(),
        Some(BuildError::ValueOutOfDomain { index: 1 })
    );
    assert_eq!(
        BEIntVec::<ParamZetaCodec<false>>::from(&[u64::MAX], 1).err(),
        Some(BuildError::ValueOutOfDomain { index: 0 })
    );
    // parameter 5: buckets end at 2^5, 2^10, ..., 2^60; 2^60 - 1 opens the
    // bucket that would end at 2^65
    assert!(LEIntVec::<ZetaCodec>::from_with_param(&[(1u64 << 60) - 2], 1, 5).is_ok());
    assert_eq!(
        LEIntVec::<ZetaCodec>::from_with_param(&[(1u64 << 60) - 1], 1, 5).err(),
        Some(BuildError::ValueOutOfDomain { index: 0 })
    );
}

#[test]
fn rice_and_exp_golomb_need_a_shift_below_64() {
    assert_eq!(
        BEIntVec::<RiceCodec>::from_with_param(&[1u64], 1, 64).err(),
        Some(BuildError::ValueOutOfDomain { index: 0 })
    );
    assert_eq!(
        LEIntVec::<RiceCodec>::from_with_param(&[1u64], 1, usize::MAX).err(),
        Some(BuildError::ValueOutOfDomain { index: 0 })
    );
    assert_eq!(
        BEIntVec::<ExpGolombCodec>::from_with_param(&[1u64], 1, 64).err(),
        Some(BuildError::ValueOutOfDomain { index: 0 })
    );
    // order 0 is the gamma code, which has no codeword for the largest value
    assert_eq!(
        LEIntVec::<ExpGolombCodec>::from_with_param(&[3, u64::MAX], 1, 0).err(),
        Some(BuildError::ValueOutOfDomain { index: 1 })
    );
    assert!(LEIntVec::<ExpGolombCodec>::from_with_param(&[3, u64::MAX], 1, 1).is_ok());
    // the unary part of the largest value cannot be counted
    assert_eq!(
        BEIntVec::<RiceCodec>::from_with_param(&[u64::MAX], 1, 0).err(),
        Some(BuildError::ValueOutOfDomain { index: 0 })
    );
}
