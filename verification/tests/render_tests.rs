use benchdiff::compute_diffs;
use benchdiff::Options;
use benchdiff::newline_count;
use benchdiff::push_micros;
use benchdiff::render;
use benchdiff::Bench;
use benchdiff::Measurements;
use benchdiff::Renderer;

fn bench(name: &str) -> Bench {
    Bench::new(name.as_bytes().to_vec())
}

#[test]
fn newline_count_counts_newlines() {
    assert_eq!(newline_count(&b"".to_vec()), 0);
    assert_eq!(newline_count(&b"a\nb\n".to_vec()), 2);
    assert_eq!(newline_count(&b"no newline".to_vec()), 0);
    assert_eq!(newline_count(&b"\n\n\n".to_vec()), 3);
}

/// Lines cleared before a render equal the newline count of the
/// previous frame, across arbitrary frame-size changes.
#[test]
fn renderer_clears_exactly_previous_frame_lines() {
    let mut r = Renderer::new(0);
    assert_eq!(r.begin_frame(&b"a\nb\nc\n".to_vec(), 10), 0);
    assert_eq!(r.begin_frame(&b"x\n".to_vec(), 20), 3);
    assert_eq!(r.begin_frame(&b"1\n2\n3\n4\n5\n".to_vec(), 30), 1);
    assert_eq!(r.begin_frame(&b"".to_vec(), 40), 5);
    assert_eq!(r.begin_frame(&b"tail".to_vec(), 50), 0);
}

#[test]
fn renderer_throttles_on_the_interval() {
    let r = Renderer::new(0);
    assert!(!r.due(100));
    assert!(r.due(101));
    let mut r = Renderer::new(0);
    r.begin_frame(&b"\n".to_vec(), 500);
    assert!(!r.due(600));
    assert!(r.due(601));
}

#[test]
fn micros_format_is_sign_units_and_six_digits() {
    let mut out: Vec<u8> = Vec::new();
    push_micros(&mut out, 18_000_000);
    assert_eq!(out, b"18.000000".to_vec());
    let mut out: Vec<u8> = Vec::new();
    push_micros(&mut out, -2_500_000);
    assert_eq!(out, b"-2.500000".to_vec());
    let mut out: Vec<u8> = Vec::new();
    push_micros(&mut out, 1);
    assert_eq!(out, b"0.000001".to_vec());
    let mut out: Vec<u8> = Vec::new();
    push_micros(&mut out, 0);
    assert_eq!(out, b"0.000000".to_vec());
}

#[test]
fn frame_has_one_line_per_pair_plus_header() {
    let mut m = Measurements::new(1);
    for v in [1_000_000i64, 2_000_000, 3_000_000] {
        m.update(&bench("run1"), &vec![v]);
    }
    for v in [10_000_000i64, 20_000_000, 30_000_000] {
        m.update(&bench("run2"), &vec![v]);
    }
    let diffs = compute_diffs(&m, &Options { deny_positive: false, base: None, labels: vec![] }).unwrap();
    let names = vec![b"time".to_vec()];
    let frame = render(&names, &diffs);
    assert_eq!(newline_count(&frame), 2);
    let text = String::from_utf8(frame).unwrap();
    assert!(text.starts_with("\ttime\n"));
    assert!(text.contains("run1..run2"));
    assert!(text.contains("18.000000"));
}

#[test]
fn empty_frame_is_just_the_header() {
    let frame = render(&vec![b"t".to_vec()], &vec![]);
    assert_eq!(frame, b"\tt\n".to_vec());
    assert_eq!(newline_count(&frame), 1);
}

#[test]
fn frame_marks_insufficient_data() {
    let mut m = Measurements::new(1);
    m.update(&bench("run1"), &vec![1_000_000]);
    m.update(&bench("run2"), &vec![2_000_000]);
    let diffs = compute_diffs(&m, &Options { deny_positive: false, base: None, labels: vec![] }).unwrap();
    let frame = render(&vec![b"t".to_vec()], &diffs);
    let text = String::from_utf8(frame).unwrap();
    assert!(text.contains("n/a"));
}
