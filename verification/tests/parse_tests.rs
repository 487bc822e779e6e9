use benchdiff::parse_row;
use benchdiff::parse_value;
use benchdiff::Bench;
use benchdiff::Error;

fn field(s: &str) -> Vec<u8> {
    s.as_bytes().to_vec()
}

#[test]
fn parses_plain_integers_and_decimals() {
    assert_eq!(parse_value(&field("1.0")), Some(1_000_000));
    assert_eq!(parse_value(&field("42")), Some(42_000_000));
    assert_eq!(parse_value(&field("-2.5")), Some(-2_500_000));
    assert_eq!(parse_value(&field("0.000001")), Some(1));
    assert_eq!(parse_value(&field("123.456789")), Some(123_456_789));
    assert_eq!(parse_value(&field("1000000000")), Some(1_000_000_000_000_000));
}

#[test]
fn rejects_non_numeric_fields() {
    assert_eq!(parse_value(&field("")), None);
    assert_eq!(parse_value(&field("abc")), None);
    assert_eq!(parse_value(&field("-")), None);
    assert_eq!(parse_value(&field("1e5")), None);
    assert_eq!(parse_value(&field("1.")), None);
    assert_eq!(parse_value(&field(".5")), None);
    assert_eq!(parse_value(&field("1..2")), None);
    assert_eq!(parse_value(&field("1.2.3")), None);
    assert_eq!(parse_value(&field("+1")), None);
    assert_eq!(parse_value(&field("1 2")), None);
}

#[test]
fn rejects_out_of_range_and_over_precise_values() {
    // More than six fraction digits.
    assert_eq!(parse_value(&field("1.2345678")), None);
    // Beyond one billion units.
    assert_eq!(parse_value(&field("1000000001")), None);
    assert_eq!(parse_value(&field("-1000000001")), None);
}

#[test]
fn parse_row_extracts_label_and_values() {
    let fields = vec![field("run1"), field("1.5"), field("-0.25")];
    let (label, vals) = parse_row(&fields, 2).unwrap();
    assert_eq!(label, Bench::new(field("run1")));
    assert_eq!(vals, vec![1_500_000, -250_000]);
}

#[test]
fn parse_row_ignores_surplus_fields() {
    let fields = vec![field("run1"), field("1.0"), field("9.9")];
    let (_, vals) = parse_row(&fields, 1).unwrap();
    assert_eq!(vals, vec![1_000_000]);
}

#[test]
fn short_row_is_a_shape_error() {
    let fields = vec![field("run1"), field("1.0")];
    match parse_row(&fields, 2) {
        Err(Error::Shape { expected, got }) => {
            assert_eq!(expected, 2);
            assert_eq!(got, 1);
        }
        other => panic!("expected a shape error, got {:?}", other),
    }
}

#[test]
fn bad_value_names_its_column() {
    let fields = vec![field("run1"), field("1.0"), field("oops")];
    match parse_row(&fields, 2) {
        Err(Error::Parse { column }) => assert_eq!(column, 2),
        other => panic!("expected a parse error, got {:?}", other),
    }
}
