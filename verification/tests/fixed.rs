use delay_effects::fixed::Fixed;

const ONE: i64 = 1 << 32;

#[test]
fn constants_and_whole_numbers() {
    assert_eq!(Fixed::zero().raw(), 0);
    assert_eq!(Fixed::one().raw(), ONE);
    assert_eq!(Fixed::from_int(-3).raw(), -3 * ONE);
    assert_eq!(Fixed::from_int(i32::MIN).raw(), i64::MIN);
    assert_eq!(Fixed::default(), Fixed::zero());
    assert!(Fixed::from_raw(-1).is_negative());
    assert!(!Fixed::zero().is_negative());
}

#[test]
fn floor_and_fract_round_down() {
    assert_eq!(Fixed::from_raw(5 * ONE / 2).floor(), 2);
    assert_eq!(Fixed::from_raw(5 * ONE / 2).fract().raw(), ONE / 2);
    assert_eq!(Fixed::from_raw(-ONE / 4).floor(), -1);
    assert_eq!(Fixed::from_raw(-ONE / 4).fract().raw(), 3 * ONE / 4);
    assert_eq!(Fixed::from_int(-2).floor(), -2);
    assert_eq!(Fixed::from_int(-2).fract().raw(), 0);
    assert_eq!(Fixed::from_raw(i64::MIN).floor(), -(1 << 31));
    assert_eq!(Fixed::from_raw(i64::MAX).floor(), (1 << 31) - 1);
    assert_eq!(Fixed::from_raw(i64::MAX).fract().raw(), ONE - 1);
}

#[test]
fn sums_and_differences_saturate() {
    let a = Fixed::from_raw(3 * ONE / 2);
    let b = Fixed::from_raw(-ONE / 4);
    assert_eq!(a.saturating_add(b).raw(), 5 * ONE / 4);
    assert_eq!(a.saturating_sub(b).raw(), 7 * ONE / 4);
    assert_eq!(Fixed::from_raw(i64::MAX).saturating_add(Fixed::one()).raw(), i64::MAX);
    assert_eq!(Fixed::from_raw(i64::MIN).saturating_sub(Fixed::one()).raw(), i64::MIN);
    assert_eq!(Fixed::from_raw(i64::MIN).saturating_neg().raw(), i64::MAX);
    assert_eq!(a.saturating_neg().raw(), -3 * ONE / 2);
}

#[test]
fn products_round_down_and_saturate() {
    let half = Fixed::from_raw(ONE / 2);
    assert_eq!(Fixed::from_int(3).saturating_mul(half).raw(), 3 * ONE / 2);
    assert_eq!(Fixed::from_int(-3).saturating_mul(half).raw(), -3 * ONE / 2);
    assert_eq!(Fixed::from_raw(1).saturating_mul(half).raw(), 0);
    assert_eq!(Fixed::from_raw(-1).saturating_mul(half).raw(), -1);
    assert_eq!(Fixed::from_raw(i64::MAX).saturating_mul(Fixed::from_int(2)).raw(), i64::MAX);
    assert_eq!(Fixed::from_raw(i64::MIN).saturating_mul(Fixed::from_int(2)).raw(), i64::MIN);
    assert_eq!(Fixed::from_raw(i64::MIN).saturating_mul(Fixed::from_raw(i64::MIN)).raw(), i64::MAX);
    assert_eq!(Fixed::from_raw(12345).saturating_mul(Fixed::one()).raw(), 12345);
    assert_eq!(Fixed::from_raw(ONE / 2).saturating_times(3).raw(), 3 * ONE / 2);
    assert_eq!(Fixed::from_raw(i64::MAX).saturating_times(2).raw(), i64::MAX);
}

#[test]
fn lerp_goes_from_one_end_to_the_other() {
    let a = Fixed::from_int(-4);
    let b = Fixed::from_int(12);
    assert_eq!(a.lerp(b, Fixed::zero()), a);
    assert_eq!(a.lerp(b, Fixed::one()), b);
    assert_eq!(a.lerp(b, Fixed::from_raw(ONE / 4)), Fixed::from_int(0));
    assert_eq!(b.lerp(a, Fixed::from_raw(ONE / 4)), Fixed::from_int(8));
    let low = Fixed::from_raw(i64::MIN);
    let high = Fixed::from_raw(i64::MAX);
    assert_eq!(low.lerp(high, Fixed::one()), high);
    assert_eq!(high.lerp(low, Fixed::one()), low);
    assert_eq!(low.lerp(high, Fixed::from_raw(ONE / 2)).raw(), -1);
}

#[test]
fn seconds_to_samples_rounds_to_nearest() {
    assert_eq!(Fixed::from_int(3).to_samples(1), 3);
    assert_eq!(Fixed::from_raw(ONE / 4).to_samples(44100), 11025);
    assert_eq!(Fixed::from_raw(ONE / 2).to_samples(1), 1);
    assert_eq!(Fixed::from_raw(ONE / 2 - 1).to_samples(1), 0);
    assert_eq!(Fixed::from_int(-5).to_samples(48000), 0);
    assert_eq!(Fixed::zero().to_samples(48000), 0);
    let hundredth = Fixed::from_raw((0.01 * ONE as f64).round() as i64);
    assert_eq!(hundredth.to_samples(48000), 480);
    assert_eq!(hundredth.to_samples(44100), 441);
    assert_eq!(Fixed::from_raw(i64::MAX).to_samples(u32::MAX), 9223372034707292159);
}

#[test]
fn limit_brings_a_number_within_a_bound() {
    let bound = Fixed::from_int(3);
    assert_eq!(Fixed::from_int(5).limit(bound), bound);
    assert_eq!(Fixed::from_int(-5).limit(bound), Fixed::from_int(-3));
    assert_eq!(Fixed::from_int(2).limit(bound), Fixed::from_int(2));
    assert_eq!(Fixed::from_int(-3).limit(bound), Fixed::from_int(-3));
    assert_eq!(Fixed::from_int(1).limit(Fixed::zero()), Fixed::zero());
}

#[test]
fn samples_to_seconds_rounds_to_nearest() {
    assert_eq!(Fixed::from_samples(44100, 44100), Fixed::one());
    assert_eq!(Fixed::from_samples(1, 2).raw(), ONE / 2);
    assert_eq!(Fixed::from_samples(1, 3).raw(), 1431655765);
    assert_eq!(Fixed::from_samples(2, 3).raw(), 2863311531);
    assert_eq!(Fixed::from_samples(u64::MAX, 1).raw(), i64::MAX);
    for count in [0u64, 1, 100, 480, 44099, 1_000_000] {
        for rate in [1u32, 7, 44100, 48000, u32::MAX] {
            assert_eq!(Fixed::from_samples(count, rate).to_samples(rate), count);
        }
    }
}
