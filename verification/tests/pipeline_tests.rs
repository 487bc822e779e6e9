use benchdiff::check_regressions;
use benchdiff::compute_diffs;
use benchdiff::Bench;
use benchdiff::Error;
use benchdiff::Measurements;
use benchdiff::Options;
use benchdiff::StdErr;

fn bench(name: &str) -> Bench {
    Bench::new(name.as_bytes().to_vec())
}

fn default_opts() -> Options {
    Options { deny_positive: false, base: None, labels: vec![] }
}

fn feed(m: &mut Measurements, label: &str, value: i64) {
    let label = bench(label);
    assert!(m.has_capacity(&label));
    m.update(&label, &vec![value]);
}

/// Six rows, one metric, default pairing: one pair (run1, run2) with
/// the documented means, variances and delta.
#[test]
fn scenario_default_pairing_single_metric() {
    let mut m = Measurements::new(1);
    feed(&mut m, "run1", 1_000_000);
    feed(&mut m, "run1", 2_000_000);
    feed(&mut m, "run1", 3_000_000);
    feed(&mut m, "run2", 10_000_000);
    feed(&mut m, "run2", 20_000_000);
    feed(&mut m, "run2", 30_000_000);

    let pairs = m.guess_pairs();
    assert_eq!(pairs.len(), 1);
    assert_eq!(pairs[0].0, bench("run1"));
    assert_eq!(pairs[0].1, bench("run2"));

    let bi = m.find(&bench("run1")).unwrap();
    let ci = m.find(&bench("run2")).unwrap();
    assert_eq!(m.stats[bi][0].mean(), 2_000_000);
    assert_eq!(m.stats[bi][0].variance(), 1_000_000_000_000);
    assert_eq!(m.stats[ci][0].mean(), 20_000_000);
    assert_eq!(m.stats[ci][0].variance(), 100_000_000_000_000);

    let d = m.diff(&bench("run1"), &bench("run2"));
    assert_eq!(d.0.len(), 1);
    assert_eq!(d.0[0].as_ref().unwrap().delta(), 18_000_000);
}

/// Explicit baseline: every candidate is paired with the base, never
/// with another candidate.
#[test]
fn scenario_explicit_baseline_pairs() {
    let opts = Options {
        deny_positive: false,
        base: Some(bench("run1")),
        labels: vec![bench("run2"), bench("run3")],
    };
    let pairs = opts.pairs();
    assert_eq!(pairs.len(), 2);
    assert_eq!(pairs[0].0, bench("run1"));
    assert_eq!(pairs[0].1, bench("run2"));
    assert_eq!(pairs[1].0, bench("run1"));
    assert_eq!(pairs[1].1, bench("run3"));
}

#[test]
fn pairs_without_base_are_consecutive() {
    let opts = Options {
        deny_positive: false,
        base: None,
        labels: vec![bench("a"), bench("b"), bench("c")],
    };
    let pairs = opts.pairs();
    assert_eq!(pairs.len(), 2);
    assert_eq!(pairs[0].0, bench("a"));
    assert_eq!(pairs[0].1, bench("b"));
    assert_eq!(pairs[1].0, bench("b"));
    assert_eq!(pairs[1].1, bench("c"));
}

/// With the candidate mean far above the baseline, the regression check
/// reports the offending pair, metric and magnitude.
#[test]
fn scenario_gate_detects_regression() {
    let mut m = Measurements::new(1);
    feed(&mut m, "run1", 1_000_000);
    feed(&mut m, "run1", 2_000_000);
    feed(&mut m, "run1", 3_000_000);
    feed(&mut m, "run2", 10_000_000);
    feed(&mut m, "run2", 20_000_000);
    feed(&mut m, "run2", 30_000_000);

    let diffs = compute_diffs(&m, &default_opts()).unwrap();
    assert_eq!(diffs.len(), 1);
    match check_regressions(&diffs) {
        Err(Error::Regression { from, to, metric, delta }) => {
            assert_eq!(from, bench("run1"));
            assert_eq!(to, bench("run2"));
            assert_eq!(metric.0, 0);
            assert_eq!(delta, 18_000_000);
        }
        other => panic!("expected a regression, got {:?}", other),
    }
}

#[test]
fn gate_passes_when_nothing_increased() {
    let mut m = Measurements::new(1);
    feed(&mut m, "run1", 1_000_000);
    feed(&mut m, "run1", 2_000_000);
    feed(&mut m, "run1", 3_000_000);
    feed(&mut m, "run2", 1_000_000);
    feed(&mut m, "run2", 2_000_000);
    feed(&mut m, "run2", 3_000_000);

    let diffs = compute_diffs(&m, &default_opts()).unwrap();
    assert!(check_regressions(&diffs).is_ok());
}

/// A label requested explicitly but never observed is a configuration
/// fault, raised before any diff is computed.
#[test]
fn scenario_unseen_label_is_configuration_error() {
    let mut m = Measurements::new(1);
    feed(&mut m, "run1", 1_000_000);
    feed(&mut m, "run1", 2_000_000);

    let opts = Options {
        deny_positive: false,
        base: Some(bench("run1")),
        labels: vec![bench("run9")],
    };
    match compute_diffs(&m, &opts) {
        Err(Error::Configuration { label }) => {
            assert_eq!(label, bench("run9"));
        }
        other => panic!("expected a configuration error, got {:?}", other),
    }
}

/// A single positional label that forms no pair is still checked: if it
/// never appeared in the input, the round fails instead of silently
/// ignoring it.
#[test]
fn unseen_single_label_is_configuration_error() {
    let mut m = Measurements::new(1);
    feed(&mut m, "run1", 1_000_000);
    feed(&mut m, "run2", 2_000_000);

    let opts = Options { deny_positive: false, base: None, labels: vec![bench("run9")] };
    match compute_diffs(&m, &opts) {
        Err(Error::Configuration { label }) => assert_eq!(label, bench("run9")),
        other => panic!("expected a configuration error, got {:?}", other),
    }
}

/// An unseen base is refused even when no candidate label was given.
#[test]
fn unseen_base_is_configuration_error() {
    let mut m = Measurements::new(1);
    feed(&mut m, "run1", 1_000_000);

    let opts = Options { deny_positive: false, base: Some(bench("run9")), labels: vec![] };
    match compute_diffs(&m, &opts) {
        Err(Error::Configuration { label }) => assert_eq!(label, bench("run9")),
        other => panic!("expected a configuration error, got {:?}", other),
    }
}

/// A configured base keeps the round in explicit mode: with no candidate
/// labels there are zero pairs, never a fallback to guessed pairs.
#[test]
fn base_without_candidates_yields_no_pairs() {
    let mut m = Measurements::new(1);
    feed(&mut m, "run1", 1_000_000);
    feed(&mut m, "run2", 2_000_000);
    feed(&mut m, "run3", 3_000_000);

    let opts = Options { deny_positive: false, base: Some(bench("run1")), labels: vec![] };
    let diffs = compute_diffs(&m, &opts).unwrap();
    assert_eq!(diffs.len(), 0);
}

/// Without a base, a single seen positional label names nothing to pair,
/// and the round falls back to consecutive first-seen labels.
#[test]
fn single_seen_label_falls_back_to_guessed_pairs() {
    let mut m = Measurements::new(1);
    feed(&mut m, "run1", 1_000_000);
    feed(&mut m, "run2", 2_000_000);

    let opts = Options { deny_positive: false, base: None, labels: vec![bench("run1")] };
    let diffs = compute_diffs(&m, &opts).unwrap();
    assert_eq!(diffs.len(), 1);
    assert_eq!(diffs[0].0, bench("run1"));
    assert_eq!(diffs[0].1, bench("run2"));
}

#[test]
fn repeated_labels_accumulate_instead_of_overwriting() {
    let mut m = Measurements::new(1);
    feed(&mut m, "run1", 1_000_000);
    feed(&mut m, "run2", 5_000_000);
    feed(&mut m, "run1", 3_000_000);
    let i = m.find(&bench("run1")).unwrap();
    assert_eq!(m.stats[i][0].count, 2);
    assert_eq!(m.stats[i][0].mean(), 2_000_000);
    // First-seen order is kept.
    let pairs = m.guess_pairs();
    assert_eq!(pairs.len(), 1);
    assert_eq!(pairs[0].0, bench("run1"));
    assert_eq!(pairs[0].1, bench("run2"));
}

#[test]
fn empty_input_yields_no_pairs() {
    let m = Measurements::new(1);
    assert_eq!(m.guess_pairs().len(), 0);
    let diffs = compute_diffs(&m, &default_opts()).unwrap();
    assert_eq!(diffs.len(), 0);
    assert!(check_regressions(&diffs).is_ok());
}

#[test]
fn sample_cap_is_enforced_per_label() {
    let mut m = Measurements::new(1);
    let label = bench("hot");
    for _ in 0..benchdiff::MAX_SAMPLES {
        assert!(m.has_capacity(&label));
        m.update(&label, &vec![1_000_000]);
    }
    assert!(!m.has_capacity(&label));
    // Other labels are unaffected.
    assert!(m.has_capacity(&bench("cold")));
}

#[test]
fn compute_diffs_multi_metric() {
    let mut m = Measurements::new(2);
    let a = bench("a");
    let b = bench("b");
    m.update(&a, &vec![1_000_000, 7_000_000]);
    m.update(&a, &vec![3_000_000, 9_000_000]);
    m.update(&b, &vec![2_000_000, 5_000_000]);
    m.update(&b, &vec![4_000_000, 7_000_000]);
    let diffs = compute_diffs(&m, &default_opts()).unwrap();
    assert_eq!(diffs.len(), 1);
    let row = &diffs[0].2;
    assert_eq!(row.0.len(), 2);
    assert_eq!(row.0[0].as_ref().unwrap().delta(), 1_000_000);
    assert_eq!(row.0[1].as_ref().unwrap().delta(), -2_000_000);
}
