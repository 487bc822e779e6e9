use benchdiff::diff_stats;
use benchdiff::div_trunc;
use benchdiff::sqrt_floor;
use benchdiff::Confidence;
use benchdiff::RunningStat;
use benchdiff::StdErr;

fn stat_of(values: &[i64]) -> RunningStat {
    let mut st = RunningStat::new();
    for v in values {
        st.push(*v);
    }
    st
}

#[test]
fn mean_is_exact_arithmetic_mean() {
    let st = stat_of(&[1_000_000, 2_000_000, 3_000_000]);
    assert_eq!(st.count, 3);
    assert_eq!(st.mean(), 2_000_000);
}

#[test]
fn mean_matches_two_pass_over_long_stream() {
    let mut st = RunningStat::new();
    let mut sum: i128 = 0;
    for i in 0..1000i64 {
        let v = (i * 37 - 11_000) * 1_000;
        st.push(v);
        sum += v as i128;
    }
    assert_eq!(st.count, 1000);
    assert_eq!(st.sum, sum);
    assert_eq!(st.mean(), sum / 1000);
}

#[test]
fn variance_matches_two_pass_formula() {
    // Samples 1.0, 2.0, 3.0: sample variance 1.0 (in squared micros).
    let st = stat_of(&[1_000_000, 2_000_000, 3_000_000]);
    assert_eq!(st.variance(), benchdiff::SCALE_SQ);
    // Samples 10, 20, 30: sample variance 100.
    let st = stat_of(&[10_000_000, 20_000_000, 30_000_000]);
    assert_eq!(st.variance(), 100_000_000_000_000);
}

#[test]
fn delta_is_candidate_minus_baseline() {
    let base = stat_of(&[1_000_000, 2_000_000, 3_000_000]);
    let cand = stat_of(&[10_000_000, 20_000_000, 30_000_000]);
    let ci = diff_stats(&base, &cand);
    assert_eq!(ci.delta(), 18_000_000);
}

#[test]
fn delta_antisymmetric() {
    let a = stat_of(&[1_000_000, 2_000_000, 3_000_000]);
    let b = stat_of(&[10_000_000, 25_000_000, 31_000_000]);
    let ab = diff_stats(&a, &b);
    let ba = diff_stats(&b, &a);
    assert_eq!(ab.delta(), -ba.delta());
    // The interval is direction-independent.
    assert_eq!(ab.ci(Confidence::C95), ba.ci(Confidence::C95));
}

#[test]
fn self_diff_is_zero() {
    let a = stat_of(&[4_000_000, 5_000_000, 9_000_000]);
    let aa = diff_stats(&a, &a);
    assert_eq!(aa.delta(), 0);
}

#[test]
fn self_diff_interval_collapses_for_constant_samples() {
    let a = stat_of(&[5_000_000, 5_000_000, 5_000_000]);
    let aa = diff_stats(&a, &a);
    assert_eq!(aa.delta(), 0);
    assert_eq!(aa.ci(Confidence::C80), Some(0));
    assert_eq!(aa.ci(Confidence::C90), Some(0));
    assert_eq!(aa.ci(Confidence::C95), Some(0));
    assert_eq!(aa.ci(Confidence::C99), Some(0));
}

#[test]
fn single_sample_gives_insufficient_data() {
    let base = stat_of(&[1_000_000]);
    let cand = stat_of(&[10_000_000, 20_000_000]);
    let ci = diff_stats(&base, &cand);
    assert!(matches!(ci.se, StdErr::Insufficient));
    assert_eq!(ci.ci(Confidence::C95), None);
    // The delta itself is still defined, not zero or junk.
    assert_eq!(ci.delta(), 14_000_000);
}

#[test]
fn ci_half_width_from_standard_error() {
    let ci = benchdiff::ConfidenceInterval { delta: 0, se: StdErr::Micros(1_000_000) };
    assert_eq!(ci.ci(Confidence::C95), Some(1_959_964));
    assert_eq!(ci.ci(Confidence::C99), Some(2_575_829));
    assert_eq!(ci.ci(Confidence::C80), Some(1_281_552));
}

#[test]
fn div_trunc_rounds_toward_zero() {
    assert_eq!(div_trunc(7, 2), 3);
    assert_eq!(div_trunc(-7, 2), -3);
    assert_eq!(div_trunc(0, 5), 0);
}

#[test]
fn sqrt_floor_exact() {
    assert_eq!(sqrt_floor(0), 0);
    assert_eq!(sqrt_floor(1), 1);
    assert_eq!(sqrt_floor(99), 9);
    assert_eq!(sqrt_floor(100), 10);
    assert_eq!(sqrt_floor(33_666_666_666_666), 5_802_298);
}
