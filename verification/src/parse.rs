//! Row parsing: a label field followed by one decimal value per metric.
//!
//! A value is an optional minus sign, one to twelve integer digits, and
//! optionally a dot with one to six fraction digits; its magnitude may
//! not exceed one billion units.  Anything else — including exponent
//! notation and non-numeric text — is a parse fault.  A row with fewer
//! value fields than there are metrics is a shape fault.

use vstd::prelude::*;

use crate::errors::Error;
use crate::fixed::MAX_ABS_MICROS;
use crate::label::Bench;

verus! {

pub open spec fn is_digit(b: u8) -> bool {
    48 <= b <= 57
}

/// Numeric value of a digit string, most significant digit first.
pub open spec fn digits_val(s: Seq<u8>) -> int
    decreases s.len(),
{
    if s.len() == 0 {
        0
    } else {
        digits_val(s.drop_last()) * 10 + (s.last() - 48)
    }
}

pub open spec fn all_digits(s: Seq<u8>) -> bool {
    forall|i: int| 0 <= i < s.len() ==> is_digit(#[trigger] s[i])
}

/// Index of the first non-digit byte (the length if there is none).
pub open spec fn first_non_digit(s: Seq<u8>) -> int
    decreases s.len(),
{
    if s.len() == 0 {
        0
    } else if !is_digit(s[0]) {
        0
    } else {
        1 + first_non_digit(s.skip(1))
    }
}

pub proof fn lemma_first_non_digit_is(s: Seq<u8>, k: int)
    requires
        0 <= k <= s.len(),
        forall|j: int| 0 <= j < k ==> is_digit(#[trigger] s[j]),
        k < s.len() ==> !is_digit(s[k]),
    ensures
        first_non_digit(s) == k,
    decreases k,
{
    if k == 0 {
    } else {
        assert(is_digit(s[0]));
        let t = s.skip(1);
        assert(forall|j: int| 0 <= j < k - 1 ==> #[trigger] t[j] == s[j + 1]);
        lemma_first_non_digit_is(t, k - 1);
    }
}

pub open spec fn pow10(e: nat) -> int
    decreases e,
{
    if e == 0 {
        1
    } else {
        10 * pow10((e - 1) as nat)
    }
}

pub proof fn lemma_pow10_mono(a: nat, b: nat)
    requires
        a <= b,
    ensures
        pow10(a) <= pow10(b),
    decreases b,
{
    if a < b {
        lemma_pow10_mono(a, (b - 1) as nat);
        assert(pow10((b - 1) as nat) >= 1) by {
            lemma_pow10_mono(0, (b - 1) as nat);
        }
    }
}

/// Multiplier that scales `w` missing fraction digits to micros.
pub open spec fn frac_scale(w: int) -> int {
    if w <= 0 {
        1
    } else if w == 1 {
        10
    } else if w == 2 {
        100
    } else if w == 3 {
        1000
    } else if w == 4 {
        10000
    } else if w == 5 {
        100000
    } else {
        1000000
    }
}

/// An unsigned decimal: one to twelve integer digits, optionally a dot
/// and one to six fraction digits.
pub open spec fn valid_unsigned(t: Seq<u8>) -> bool {
    let k = first_non_digit(t);
    &&& 1 <= k <= 12
    &&& (k == t.len() || {
        &&& t[k] == 46
        &&& t.len() - k - 1 >= 1
        &&& t.len() - k - 1 <= 6
        &&& all_digits(t.skip(k + 1))
    })
}

/// Value of a valid unsigned decimal, in micros.
pub open spec fn unsigned_micros(t: Seq<u8>) -> int {
    let k = first_non_digit(t);
    if k == t.len() {
        digits_val(t.take(k)) * 1_000_000
    } else {
        let f = t.skip(k + 1);
        digits_val(t.take(k)) * 1_000_000 + digits_val(f) * frac_scale(6 - f.len())
    }
}

/// A decimal with an optional leading minus sign.
pub open spec fn valid_decimal(s: Seq<u8>) -> bool {
    if s.len() >= 1 && s[0] == 45 {
        valid_unsigned(s.skip(1))
    } else {
        valid_unsigned(s)
    }
}

/// Value of a valid decimal, in micros.
pub open spec fn decimal_micros(s: Seq<u8>) -> int {
    if s.len() >= 1 && s[0] == 45 {
        -unsigned_micros(s.skip(1))
    } else {
        unsigned_micros(s)
    }
}

fn digit_at(s: &Vec<u8>, i: usize) -> (r: bool)
    requires
        i < s@.len(),
    ensures
        r == is_digit(s@[i as int]),
{
    48 <= s[i] && s[i] <= 57
}

/// Parse one field as a decimal number of micros; `None` when the field
/// is not a decimal of the supported shape or its magnitude exceeds the
/// supported range.
#[verifier::rlimit(50)]
pub fn parse_value(field: &Vec<u8>) -> (r: Option<i64>)
    ensures
        match r {
            Some(v) => {
                &&& valid_decimal(field@)
                &&& v == decimal_micros(field@)
                &&& -MAX_ABS_MICROS <= v <= MAX_ABS_MICROS
            },
            None => !valid_decimal(field@) || !(-MAX_ABS_MICROS <= decimal_micros(field@)
                <= MAX_ABS_MICROS),
        },
{
    let len = field.len();
    let neg = len >= 1 && field[0] == 45;
    let start: usize = if neg {
        1
    } else {
        0
    };
    let ghost t = field@.skip(start as int);
    proof {
        assert(t.len() == len - start);
        assert(forall|j: int| 0 <= j < t.len() ==> #[trigger] t[j] == field@[start + j]);
        if start == 0 {
            assert(t =~= field@);
        }
        assert(valid_decimal(field@) == valid_unsigned(t));
        assert(decimal_micros(field@) == if neg {
            -unsigned_micros(t)
        } else {
            unsigned_micros(t)
        });
    }
    // End of the integer-digit run.
    let mut e: usize = start;
    while e < len && digit_at(field, e)
        invariant
            start <= e <= len,
            len == field@.len(),
            forall|j: int| start <= j < e ==> is_digit(#[trigger] field@[j]),
        decreases len - e,
    {
        e = e + 1;
    }
    proof {
        lemma_first_non_digit_is(t, e - start);
        if (e as int) < len {
            assert(t[e - start] == field@[e as int]);
        }
    }
    if e - start < 1 || e - start > 12 {
        return None;
    }
    // Integer-part value.
    let ghost ipart = t.take(e - start);
    proof {
        assert(ipart =~= field@.subrange(start as int, e as int));
    }
    let mut val: u64 = 0;
    let mut i: usize = start;
    while i < e
        invariant
            start <= i <= e <= len,
            len == field@.len(),
            e - start <= 12,
            forall|j: int| start <= j < e ==> is_digit(#[trigger] field@[j]),
            val == digits_val(field@.subrange(start as int, i as int)),
            0 <= val < pow10((i - start) as nat),
        decreases e - i,
    {
        proof {
            assert(field@.subrange(start as int, i + 1).drop_last() =~= field@.subrange(
                start as int,
                i as int,
            ));
            assert(pow10(((i + 1) - start) as nat) == 10 * pow10((i - start) as nat));
            lemma_pow10_mono((i - start) as nat, 11);
            assert(pow10(11) == 100_000_000_000) by {
                reveal_with_fuel(pow10, 12);
            }
        }
        val = val * 10 + (field[i] - 48) as u64;
        i = i + 1;
    }
    proof {
        lemma_pow10_mono((e - start) as nat, 12);
        assert(pow10(12) == 1_000_000_000_000) by {
            reveal_with_fuel(pow10, 13);
        }
    }
    // Fraction.
    let mut frac: u64 = 0;
    let mut fl: usize = 0;
    if e < len {
        if field[e] != 46 {
            return None;
        }
        if len - e - 1 < 1 || len - e - 1 > 6 {
            return None;
        }
        fl = len - e - 1;
        let ghost fpart = t.skip((e - start) + 1);
        proof {
            assert(fpart =~= field@.subrange(e + 1, len as int));
        }
        let mut i: usize = e + 1;
        while i < len
            invariant
                e + 1 <= i <= len,
                len == field@.len(),
                len - e - 1 <= 6,
                fl == len - e - 1,
                start <= e < len,
                t == field@.skip(start as int),
                t.len() == len - start,
                first_non_digit(t) == e - start,
                fpart == field@.subrange(e + 1, len as int),
                fpart == t.skip((e - start) + 1),
                valid_decimal(field@) == valid_unsigned(t),
                forall|j: int| e + 1 <= j < i ==> is_digit(#[trigger] field@[j]),
                frac == digits_val(field@.subrange(e + 1, i as int)),
                0 <= frac < pow10((i - e - 1) as nat),
            decreases len - i,
        {
            if !digit_at(field, i) {
                proof {
                    let kk = (e - start) as int;
                    assert(fpart == field@.subrange(e + 1, len as int));
                    assert(field@.subrange(e + 1, len as int)[i - e - 1] == field@[i as int]);
                    assert(!is_digit(fpart[i - e - 1]));
                    assert(!all_digits(t.skip(kk + 1)));
                    assert(!valid_unsigned(t));
                }
                return None;
            }
            proof {
                assert(field@.subrange(e + 1, i + 1).drop_last() =~= field@.subrange(
                    e + 1,
                    i as int,
                ));
                assert(pow10(((i + 1) - e - 1) as nat) == 10 * pow10((i - e - 1) as nat));
                lemma_pow10_mono((i - e - 1) as nat, 5);
                assert(pow10(5) == 100_000) by {
                    reveal_with_fuel(pow10, 6);
                }
            }
            frac = frac * 10 + (field[i] - 48) as u64;
            i = i + 1;
        }
        proof {
            let kk = (e - start) as int;
            assert(frac == digits_val(field@.subrange(e + 1, len as int)));
            assert(frac == digits_val(fpart));
            assert(fpart.len() == fl);
            assert(all_digits(fpart)) by {
                assert(forall|j: int|
                    0 <= j < fpart.len() ==> #[trigger] fpart[j] == field@.subrange(
                        e + 1,
                        len as int,
                    )[j]);
            }
            assert(t.skip(kk + 1) == fpart);
            assert(valid_unsigned(t));
            lemma_pow10_mono(fl as nat, 6);
            assert(pow10(6) == 1_000_000) by {
                reveal_with_fuel(pow10, 7);
            }
        }
    }
    let scale: u64 = if fl == 0 {
        1_000_000
    } else if fl == 1 {
        100_000
    } else if fl == 2 {
        10_000
    } else if fl == 3 {
        1_000
    } else if fl == 4 {
        100
    } else if fl == 5 {
        10
    } else {
        1
    };
    proof {
        if fl > 0 {
            assert(frac < pow10(fl as nat));
            assert(pow10(1) == 10 && pow10(2) == 100 && pow10(3) == 1000 && pow10(4) == 10000
                && pow10(5) == 100000 && pow10(6) == 1000000) by {
                reveal_with_fuel(pow10, 7);
            }
        }
    }
    let micros_u: u64 = val * 1_000_000 + frac * scale;
    proof {
        let kk = (e - start) as int;
        assert(t.take(kk) =~= field@.subrange(start as int, e as int));
        assert(val == digits_val(t.take(kk)));
        if e == len {
            assert(valid_unsigned(t));
            assert(frac == 0 && scale == 1_000_000);
            assert(unsigned_micros(t) == val * 1_000_000);
        } else {
            let f = t.skip(kk + 1);
            assert(f.len() == fl);
            assert(frac_scale(6 - f.len()) == scale);
            assert(unsigned_micros(t) == val * 1_000_000 + frac * frac_scale(6 - f.len()));
        }
        assert(unsigned_micros(t) == micros_u);
    }
    if micros_u > 1_000_000_000_000_000 {
        return None;
    }
    let v: i64 = if neg {
        -(micros_u as i64)
    } else {
        micros_u as i64
    };
    Some(v)
}

/// What a successfully parsed row holds: the label is the first field,
/// and each value is the exactly-parsed decimal of its metric column.
pub open spec fn parsed_row_ok(
    fields: Seq<Vec<u8>>,
    n_metrics: int,
    label: Bench,
    vals: Seq<i64>,
) -> bool {
    &&& fields.len() >= 1 + n_metrics
    &&& label@ == fields[0]@
    &&& vals.len() == n_metrics
    &&& forall|j: int|
        0 <= j < n_metrics ==> {
            &&& valid_decimal((#[trigger] fields[1 + j])@)
            &&& vals[j] == decimal_micros(fields[1 + j]@)
            &&& -MAX_ABS_MICROS <= vals[j] <= MAX_ABS_MICROS
        }
}

/// Parse one row: the label field, then exactly one value per metric in
/// metric order.  Surplus fields are ignored; a short row is a shape
/// fault; a bad value names its metric column, counted from 1.
#[verifier::rlimit(50)]
pub fn parse_row(fields: &Vec<Vec<u8>>, n_metrics: usize) -> (r: Result<(Bench, Vec<i64>), Error>)
    ensures
        r matches Ok(row) ==> parsed_row_ok(fields@, n_metrics as int, row.0, row.1@),
        r matches Err(e) ==> match e {
                Error::Shape { expected, got } => {
                    &&& fields@.len() < 1 + n_metrics
                    &&& expected == n_metrics
                    &&& got + 1 == if fields@.len() >= 1 {
                        fields@.len() as int
                    } else {
                        1int
                    }
                },
                Error::Parse { column } => {
                    &&& fields@.len() >= 1 + n_metrics
                    &&& 1 <= column <= n_metrics
                    &&& (!valid_decimal(fields@[column as int]@) || !(-MAX_ABS_MICROS
                        <= decimal_micros(fields@[column as int]@) <= MAX_ABS_MICROS))
                },
                _ => false,
            },
{
    if fields.len() == 0 || fields.len() - 1 < n_metrics {
        let got = if fields.len() >= 1 {
            fields.len() - 1
        } else {
            0
        };
        return Err(Error::Shape { expected: n_metrics, got });
    }
    let head = fields[0].clone();
    proof {
        assert(head@ =~= fields@[0]@);
    }
    let label = Bench::new(head);
    let mut vals: Vec<i64> = Vec::new();
    let mut j: usize = 0;
    while j < n_metrics
        invariant
            fields@.len() >= 1 + n_metrics,
            j <= n_metrics,
            vals@.len() == j,
            forall|k: int|
                0 <= k < j ==> {
                    &&& valid_decimal((#[trigger] fields@[1 + k])@)
                    &&& vals@[k] == decimal_micros(fields@[1 + k]@)
                    &&& -MAX_ABS_MICROS <= vals@[k] <= MAX_ABS_MICROS
                },
        decreases n_metrics - j,
    {
        match parse_value(&fields[1 + j]) {
            Some(v) => {
                vals.push(v);
            },
            None => {
                return Err(Error::Parse { column: j + 1 });
            },
        }
        j = j + 1;
    }
    proof {
        assert(label@ == fields@[0]@);
        assert(forall|j: int|
            0 <= j < n_metrics ==> {
                &&& valid_decimal((#[trigger] fields@[1 + j])@)
                &&& vals@[j] == decimal_micros(fields@[1 + j]@)
                &&& -MAX_ABS_MICROS <= vals@[j] <= MAX_ABS_MICROS
            });
        assert(parsed_row_ok(fields@, n_metrics as int, label, vals@));
    }
    Ok((label, vals))
}

} // verus!
