use running_stats::{arithmetic_mean, sample_sum, sample_variance, Fraction, Ratio, Sample, RS};

fn as_f64(r: Ratio) -> f64 {
    r.numerator as f64 / r.denominator as f64
}

fn single_pass_sd(rs: &RS<u8>) -> f64 {
    let v = rs.current_variance().unwrap();
    (v.numerator as f64 / v.denominator as f64).sqrt()
}

#[test]
fn test_sd() {
    let data: Vec<u8> = vec![100, 12, 34, 73];

    assert_eq!(as_f64(arithmetic_mean(&data)), 54.75);
    assert_eq!(as_f64(sample_variance(&data).unwrap()).sqrt(), 39.322385482063524);

    let mut rs = RS::new(data, true);

    assert_eq!(rs.processed_count(), 4);
    assert_eq!(as_f64(rs.current_mean().unwrap()), 54.75);
    assert_eq!(single_pass_sd(&rs), 64.36274155130435);

    rs.add_samples(vec![70, 22, 70, 35, 62], true);
    assert_eq!(rs.processed_count(), 9);
    assert_eq!(as_f64(rs.current_mean().unwrap()), 53.111111111111114);
    assert_eq!(single_pass_sd(&rs), 59.553793506271745);

    rs.add_sample(240, true);
    assert_eq!(rs.processed_count(), 10);
}

#[test]
fn mean_is_sum_over_count() {
    let data: Vec<u16> = vec![1, 2];
    let m = arithmetic_mean(&data);
    assert_eq!(m, Ratio { numerator: 3, denominator: 2 });
    assert_eq!(as_f64(m), 1.5);
    assert_eq!(sample_sum(&data), 3);
}

#[test]
fn variance_is_scaled_squared_deviations() {
    let data: Vec<u8> = vec![100, 12, 34, 73];
    // (4x - 219)^2 summed: 181^2 + 171^2 + 83^2 + 73^2, over 4^2 * 3
    assert_eq!(
        sample_variance(&data),
        Some(Ratio { numerator: 74220, denominator: 48 })
    );
    let pair: Vec<u32> = vec![2, 4];
    assert_eq!(sample_variance(&pair), Some(Ratio { numerator: 8, denominator: 4 }));
}

#[test]
fn variance_of_equal_samples_is_zero() {
    let data: Vec<u8> = vec![7, 7, 7];
    assert_eq!(sample_variance(&data), Some(Ratio { numerator: 0, denominator: 18 }));
}

#[test]
fn variance_too_large_for_u128() {
    let data: Vec<usize> = vec![0, usize::MAX];
    assert_eq!(sample_variance(&data), None);
}

#[test]
fn empty_append_keeps_state() {
    let mut rs = RS::new(vec![3u8, 5, 10], true);
    let before = (rs.processed_count(), rs.running_sum(), rs.sum_of_squares(), rs.current_mean());
    rs.add_samples(Vec::new(), true);
    let after = (rs.processed_count(), rs.running_sum(), rs.sum_of_squares(), rs.current_mean());
    assert_eq!(before, after);
    assert_eq!(after, (3, 18, 134, Some(Ratio { numerator: 18, denominator: 3 })));
}

#[test]
fn split_batches_match_whole() {
    let mut split = RS::new(vec![100u8, 12, 34, 73], true);
    split.add_samples(vec![70, 22, 70, 35, 62], true);
    let whole = RS::new(vec![100u8, 12, 34, 73, 70, 22, 70, 35, 62], true);
    assert_eq!(split.processed_count(), whole.processed_count());
    assert_eq!(split.running_sum(), whole.running_sum());
    assert_eq!(split.sum_of_squares(), whole.sum_of_squares());
    assert_eq!(split.current_mean(), whole.current_mean());
    assert_eq!(whole.running_sum(), 478);
    assert_eq!(whole.sum_of_squares(), 31982);
}

#[test]
fn processed_count_tracks_all_appended() {
    let mut rs = RS::new(vec![1u8], true);
    assert_eq!(rs.processed_count(), rs.sample_count());
    rs.add_sample(2, true);
    rs.add_samples(vec![3, 4, 5], true);
    assert_eq!(rs.processed_count(), 5);
    assert_eq!(rs.sample_count(), 5);
}

#[test]
fn no_pass_until_asked() {
    let mut rs = RS::new(vec![4u8, 8], false);
    assert_eq!(rs.processed_count(), 0);
    assert_eq!(rs.current_mean(), None);
    rs.add_sample(6, false);
    assert_eq!(rs.processed_count(), 0);
    assert_eq!(rs.sample_count(), 3);
    rs.add_samples(Vec::new(), true);
    assert_eq!(rs.processed_count(), 3);
    assert_eq!(rs.current_mean(), Some(Ratio { numerator: 18, denominator: 3 }));
}

#[test]
fn sample_conversions() {
    assert_eq!(Sample::into_usize(&200u8), 200);
    assert_eq!(Sample::into_usize(&60000u16), 60000);
    assert_eq!(Sample::into_usize(&4000000000u32), 4000000000);
    assert_eq!(Sample::into_usize(&5_000_000_000u64), 5_000_000_000);
    assert_eq!(Sample::from(&42usize), 42);
    let wide: Vec<u64> = vec![1 << 40, 1 << 40];
    assert_eq!(arithmetic_mean(&wide), Ratio { numerator: 1 << 41, denominator: 2 });
}

#[test]
fn running_variance_exact_values() {
    let mut rs = RS::new(vec![100u8, 12, 34, 73], true);
    // 4 * 16629 - 219 - 16 over 16
    assert_eq!(rs.current_variance(), Some(Fraction { numerator: 66281, denominator: 16 }));
    rs.add_samples(vec![70, 22, 70, 35, 62], true);
    assert_eq!(rs.current_variance(), Some(Fraction { numerator: 287279, denominator: 81 }));
    rs.add_sample(240, true);
    assert_eq!(rs.current_variance(), Some(Fraction { numerator: 895002, denominator: 100 }));
}

#[test]
fn running_variance_can_be_negative() {
    let rs = RS::new(vec![1u8], true);
    assert_eq!(rs.current_variance(), Some(Fraction { numerator: -1, denominator: 1 }));
    let zeros = RS::new(vec![0u8, 0], true);
    assert_eq!(zeros.current_variance(), Some(Fraction { numerator: -4, denominator: 4 }));
}

#[test]
fn running_variance_before_processing() {
    let rs = RS::new(vec![5u8, 6], false);
    assert_eq!(rs.current_variance(), None);
}
