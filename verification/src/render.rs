//! Throttled in-place renderer.
//!
//! The renderer's state is the monotonic timestamp of the last render
//! and the number of text lines the previous frame occupied.  Before a
//! new frame is written, exactly that many lines — the newline count of
//! the previous frame — must be cleared, so no stale lines remain and
//! no duplicate output accumulates, whatever the frame sizes do.
//! The device itself (cursor movement, writing) is outside the engine;
//! callers get the exact count of lines to clear.

use vstd::prelude::*;

use crate::diff::diff_wf_row;
use crate::diff::z_micros;
use crate::diff::Confidence;
use crate::diff::ConfidenceInterval;
use crate::diff::Diff;
use crate::diff::StdErr;
use crate::fixed::tdiv;
use crate::fixed::SCALE;
use crate::label::Bench;

verus! {

/// Milliseconds between renders; a shorter gap skips the redraw.
pub const RENDER_INTERVAL_MS: u64 = 100;

/// Newlines in a byte sequence: the number of text lines it occupies.
pub open spec fn count_newlines(s: Seq<u8>) -> int
    decreases s.len(),
{
    if s.len() == 0 {
        0
    } else {
        count_newlines(s.drop_last()) + if s.last() == 10 {
            1int
        } else {
            0int
        }
    }
}

pub proof fn lemma_count_newlines_concat(a: Seq<u8>, b: Seq<u8>)
    ensures
        count_newlines(a + b) == count_newlines(a) + count_newlines(b),
    decreases b.len(),
{
    if b.len() == 0 {
        assert(a + b =~= a);
    } else {
        lemma_count_newlines_concat(a, b.drop_last());
        assert((a + b).drop_last() =~= a + b.drop_last());
        assert((a + b).last() == b.last());
    }
}

/// No newline anywhere in the sequence.
pub open spec fn no_newlines(s: Seq<u8>) -> bool {
    forall|i: int| 0 <= i < s.len() ==> #[trigger] s[i] != 10
}

pub proof fn lemma_no_newlines_count(s: Seq<u8>)
    requires
        no_newlines(s),
    ensures
        count_newlines(s) == 0,
    decreases s.len(),
{
    if s.len() > 0 {
        assert(no_newlines(s.drop_last()));
        lemma_no_newlines_count(s.drop_last());
    }
}

/// Exact newline count of a frame.
pub fn newline_count(frame: &Vec<u8>) -> (r: usize)
    ensures
        r == count_newlines(frame@),
{
    let mut r: usize = 0;
    let mut i: usize = 0;
    while i < frame.len()
        invariant
            i <= frame@.len(),
            r == count_newlines(frame@.take(i as int)),
            r <= i,
        decreases frame@.len() - i,
    {
        proof {
            assert(frame@.take(i + 1).drop_last() =~= frame@.take(i as int));
            assert(frame@.take(i + 1).last() == frame@[i as int]);
        }
        if frame[i] == 10 {
            r = r + 1;
        }
        i = i + 1;
    }
    proof {
        assert(frame@.take(frame@.len() as int) =~= frame@);
    }
    r
}

/// Renderer state: when the last frame was written, how many lines it
/// occupied, and (as ghost history) the frame itself.
pub struct Renderer {
    pub last_render_ms: u64,
    pub lines: usize,
    pub last_frame: Ghost<Seq<u8>>,
}

impl Renderer {
    /// The line count is exactly the newline count of the last frame.
    pub open spec fn wf(&self) -> bool {
        self.lines == count_newlines(self.last_frame@)
    }

    /// Fresh renderer: nothing written yet.
    pub fn new(now_ms: u64) -> (r: Renderer)
        ensures
            r.wf(),
            r.lines == 0,
            r.last_frame@ == Seq::<u8>::empty(),
            r.last_render_ms == now_ms,
    {
        Renderer { last_render_ms: now_ms, lines: 0, last_frame: Ghost(Seq::empty()) }
    }

    /// Whether enough time has passed since the last render.
    pub fn due(&self, now_ms: u64) -> (r: bool)
        requires
            now_ms >= self.last_render_ms,
        ensures
            r == (now_ms - self.last_render_ms > RENDER_INTERVAL_MS),
    {
        now_ms - self.last_render_ms > RENDER_INTERVAL_MS
    }

    /// Account for a new frame: returns exactly how many lines the
    /// previous frame occupied — the lines the device must clear before
    /// this frame is written.
    pub fn begin_frame(&mut self, frame: &Vec<u8>, now_ms: u64) -> (clear: usize)
        requires
            old(self).wf(),
        ensures
            clear == count_newlines(old(self).last_frame@),
            final(self).wf(),
            final(self).last_frame@ == frame@,
            final(self).lines == count_newlines(frame@),
            final(self).last_render_ms == now_ms,
    {
        let clear = self.lines;
        self.lines = newline_count(frame);
        self.last_frame = Ghost(frame@);
        self.last_render_ms = now_ms;
        clear
    }
}

/// Decimal digits of a non-negative number, most significant first.
pub open spec fn dec_digits(n: int) -> Seq<u8>
    recommends
        n >= 0,
    decreases n,
{
    if n < 10 {
        seq![(48 + n) as u8]
    } else {
        dec_digits(n / 10).push((48 + n % 10) as u8)
    }
}

/// Exactly `w` decimal digits of `n`, zero-padded on the left.
pub open spec fn dec_width(n: int, w: nat) -> Seq<u8>
    recommends
        n >= 0,
    decreases w,
{
    if w == 0 {
        Seq::empty()
    } else {
        dec_width(n / 10, (w - 1) as nat).push((48 + n % 10) as u8)
    }
}

/// A fixed-point value in micros, as sign, integer part, a dot, and six
/// fraction digits.
pub open spec fn spec_format_micros(v: int) -> Seq<u8> {
    let m = if v >= 0 {
        v
    } else {
        -v
    };
    let sign: Seq<u8> = if v < 0 {
        seq![45u8]
    } else {
        Seq::empty()
    };
    sign + dec_digits(tdiv(m, 1_000_000)) + seq![46u8] + dec_width(m % 1_000_000, 6)
}

pub proof fn lemma_dec_digits_no_newlines(n: int)
    requires
        n >= 0,
    ensures
        no_newlines(dec_digits(n)),
    decreases n,
{
    if n >= 10 {
        vstd::arithmetic::div_mod::lemma_div_pos_is_pos(n, 10);
        lemma_dec_digits_no_newlines(n / 10);
    }
}

pub proof fn lemma_dec_width_no_newlines(n: int, w: nat)
    requires
        n >= 0,
    ensures
        no_newlines(dec_width(n, w)),
    decreases w,
{
    if w > 0 {
        vstd::arithmetic::div_mod::lemma_div_pos_is_pos(n, 10);
        lemma_dec_width_no_newlines(n / 10, (w - 1) as nat);
    }
}

pub proof fn lemma_format_micros_no_newlines(v: int)
    ensures
        no_newlines(spec_format_micros(v)),
{
    let m = if v >= 0 {
        v
    } else {
        -v
    };
    vstd::arithmetic::div_mod::lemma_div_pos_is_pos(m, 1_000_000);
    lemma_dec_digits_no_newlines(tdiv(m, 1_000_000));
    lemma_dec_width_no_newlines(m % 1_000_000, 6);
}

/// Append the decimal digits of `n`.
fn push_dec_digits(out: &mut Vec<u8>, n: u128)
    ensures
        final(out)@ == old(out)@ + dec_digits(n as int),
    decreases n,
{
    if n < 10 {
        out.push(48 + n as u8);
        proof {
            assert(final(out)@ =~= old(out)@ + dec_digits(n as int));
        }
    } else {
        let ghost pre = out@;
        push_dec_digits(out, n / 10);
        out.push(48 + (n % 10) as u8);
        proof {
            assert(final(out)@ =~= pre + dec_digits(n as int));
        }
    }
}

/// Append exactly `w` decimal digits of `n`, zero-padded.
fn push_dec_width(out: &mut Vec<u8>, n: u128, w: usize)
    ensures
        final(out)@ == old(out)@ + dec_width(n as int, w as nat),
    decreases w,
{
    if w > 0 {
        let ghost pre = out@;
        push_dec_width(out, n / 10, w - 1);
        out.push(48 + (n % 10) as u8);
        proof {
            assert(final(out)@ =~= pre + dec_width(n as int, w as nat));
        }
    } else {
        proof {
            assert(final(out)@ =~= old(out)@ + dec_width(n as int, 0));
        }
    }
}

/// Append a micros value in decimal, sign and six fraction digits.
pub fn push_micros(out: &mut Vec<u8>, v: i128)
    requires
        v > i128::MIN,
    ensures
        final(out)@ == old(out)@ + spec_format_micros(v as int),
        count_newlines(final(out)@) == count_newlines(old(out)@),
{
    let ghost pre = out@;
    let m: u128;
    if v >= 0 {
        m = v as u128;
    } else {
        out.push(45);
        m = (-v) as u128;
    }
    let ghost sign = out@;
    push_dec_digits(out, m / 1_000_000);
    out.push(46);
    push_dec_width(out, m % 1_000_000, 6);
    proof {
        assert(final(out)@ =~= pre + spec_format_micros(v as int));
        lemma_format_micros_no_newlines(v as int);
        lemma_count_newlines_concat(pre, spec_format_micros(v as int));
        lemma_no_newlines_count(spec_format_micros(v as int));
    }
}

/// Append one byte that is not a newline.
fn put_byte(out: &mut Vec<u8>, b: u8)
    requires
        b != 10,
    ensures
        final(out)@ == old(out)@.push(b),
        count_newlines(final(out)@) == count_newlines(old(out)@),
{
    out.push(b);
    proof {
        assert(final(out)@.drop_last() =~= old(out)@);
    }
}

/// Append a newline.
fn put_newline(out: &mut Vec<u8>)
    ensures
        final(out)@ == old(out)@.push(10),
        count_newlines(final(out)@) == count_newlines(old(out)@) + 1,
{
    out.push(10);
    proof {
        assert(final(out)@.drop_last() =~= old(out)@);
    }
}

/// Append a newline-free byte string.
fn put_bytes(out: &mut Vec<u8>, s: &Vec<u8>)
    requires
        no_newlines(s@),
    ensures
        final(out)@ == old(out)@ + s@,
        count_newlines(final(out)@) == count_newlines(old(out)@),
{
    let ghost pre = out@;
    let mut i: usize = 0;
    while i < s.len()
        invariant
            no_newlines(s@),
            i <= s@.len(),
            out@ == pre + s@.take(i as int),
        decreases s@.len() - i,
    {
        out.push(s[i]);
        proof {
            assert(out@ =~= pre + s@.take(i + 1));
        }
        i = i + 1;
    }
    proof {
        assert(out@ =~= pre + s@);
        lemma_count_newlines_concat(pre, s@);
        lemma_no_newlines_count(s@);
    }
}

/// The table cell for one defined comparison: the delta, then either
/// the 95% half-width or the "insufficient data" marker.
pub open spec fn spec_interval_cell(ci: ConfidenceInterval) -> Seq<u8> {
    spec_format_micros(ci.delta as int) + match ci.se {
        StdErr::Insufficient => seq![32u8, 110u8, 47u8, 97u8],
        StdErr::Micros(s) => seq![32u8, 43u8, 47u8, 45u8, 32u8] + spec_format_micros(
            tdiv(z_micros(Confidence::C95) * (s as int), SCALE as int),
        ),
    }
}

/// One tab-prefixed metric cell; a missing metric is a bare dash.
pub open spec fn spec_slot(o: Option<ConfidenceInterval>) -> Seq<u8> {
    seq![9u8] + match o {
        Option::None => seq![45u8],
        Option::Some(ci) => spec_interval_cell(ci),
    }
}

/// All metric cells of one pair line, in metric order.
pub open spec fn spec_cells(row: Seq<Option<ConfidenceInterval>>) -> Seq<u8>
    decreases row.len(),
{
    if row.len() == 0 {
        Seq::empty()
    } else {
        spec_cells(row.drop_last()) + spec_slot(row.last())
    }
}

/// One pair line: `from..to`, the cells, a newline.
pub open spec fn spec_pair_line(from: Seq<u8>, to: Seq<u8>, d: Diff) -> Seq<u8> {
    from + seq![46u8, 46u8] + to + spec_cells(d.0@) + seq![10u8]
}

/// The tab-prefixed metric names of the header line.
pub open spec fn spec_name_cells(names: Seq<Vec<u8>>) -> Seq<u8>
    decreases names.len(),
{
    if names.len() == 0 {
        Seq::empty()
    } else {
        spec_name_cells(names.drop_last()) + seq![9u8] + names.last()@
    }
}

/// The whole frame: a header line of metric names, then one line per pair.
pub open spec fn spec_frame(names: Seq<Vec<u8>>, diffs: Seq<(Bench, Bench, Diff)>) -> Seq<u8>
    decreases diffs.len(),
{
    if diffs.len() == 0 {
        spec_name_cells(names) + seq![10u8]
    } else {
        spec_frame(names, diffs.drop_last()) + spec_pair_line(
            diffs.last().0@,
            diffs.last().1@,
            diffs.last().2,
        )
    }
}

/// Turn the current diffs into a text frame: a header line of metric
/// names, then one line per pair with each metric's delta and 95%
/// half-width (or the "insufficient data" marker `n/a`).
pub fn render(metric_names: &Vec<Vec<u8>>, diffs: &Vec<(Bench, Bench, Diff)>) -> (r: Vec<u8>)
    requires
        forall|j: int| 0 <= j < metric_names@.len() ==> no_newlines((#[trigger] metric_names@[j])@),
        forall|i: int|
            0 <= i < diffs@.len() ==> no_newlines((#[trigger] diffs@[i]).0@) && no_newlines(
                diffs@[i].1@,
            ) && diff_wf_row(diffs@[i].2),
    ensures
        r@ == spec_frame(metric_names@, diffs@),
        count_newlines(r@) == 1 + diffs@.len(),
{
    let mut out: Vec<u8> = Vec::new();
    // Header: the metric names.
    let mut j: usize = 0;
    while j < metric_names.len()
        invariant
            forall|k: int|
                0 <= k < metric_names@.len() ==> no_newlines((#[trigger] metric_names@[k])@),
            j <= metric_names@.len(),
            out@ == spec_name_cells(metric_names@.take(j as int)),
            count_newlines(out@) == 0,
        decreases metric_names@.len() - j,
    {
        put_byte(&mut out, 9);
        put_bytes(&mut out, &metric_names[j]);
        proof {
            assert(metric_names@.take(j + 1).drop_last() =~= metric_names@.take(j as int));
            assert(out@ =~= spec_name_cells(metric_names@.take(j + 1)));
        }
        j = j + 1;
    }
    put_newline(&mut out);
    proof {
        assert(metric_names@.take(metric_names@.len() as int) =~= metric_names@);
        assert(diffs@.take(0) =~= Seq::<(Bench, Bench, Diff)>::empty());
        assert(out@ =~= spec_frame(metric_names@, diffs@.take(0)));
    }
    // One line per pair.
    let mut i: usize = 0;
    while i < diffs.len()
        invariant
            forall|k: int|
                0 <= k < diffs@.len() ==> no_newlines((#[trigger] diffs@[k]).0@) && no_newlines(
                    diffs@[k].1@,
                ) && diff_wf_row(diffs@[k].2),
            i <= diffs@.len(),
            out@ == spec_frame(metric_names@, diffs@.take(i as int)),
            count_newlines(out@) == 1 + i,
        decreases diffs@.len() - i,
    {
        let ghost line_start = out@;
        put_bytes(&mut out, diffs[i].0.name());
        put_byte(&mut out, 46);
        put_byte(&mut out, 46);
        put_bytes(&mut out, diffs[i].1.name());
        let ghost cells_start = out@;
        proof {
            assert(cells_start =~= line_start + diffs@[i as int].0@ + seq![46u8, 46u8]
                + diffs@[i as int].1@);
        }
        let row = &diffs[i].2;
        let n = row.0.len();
        let mut j: usize = 0;
        while j < n
            invariant
                i < diffs@.len(),
                *row == diffs@[i as int].2,
                diff_wf_row(*row),
                n == row.0@.len(),
                j <= n,
                out@ == cells_start + spec_cells(row.0@.take(j as int)),
                count_newlines(out@) == count_newlines(cells_start),
            decreases n - j,
        {
            put_byte(&mut out, 9);
            match &row.0[j] {
                None => {
                    put_byte(&mut out, 45);
                },
                Some(ci) => {
                    push_micros(&mut out, ci.delta());
                    match ci.ci(Confidence::C95) {
                        None => {
                            // Insufficient data for an interval.
                            put_byte(&mut out, 32);
                            put_byte(&mut out, 110);
                            put_byte(&mut out, 47);
                            put_byte(&mut out, 97);
                        },
                        Some(w) => {
                            put_byte(&mut out, 32);
                            put_byte(&mut out, 43);
                            put_byte(&mut out, 47);
                            put_byte(&mut out, 45);
                            put_byte(&mut out, 32);
                            push_micros(&mut out, w);
                        },
                    }
                },
            }
            proof {
                assert(row.0@.take(j + 1).drop_last() =~= row.0@.take(j as int));
                assert(out@ =~= cells_start + spec_cells(row.0@.take(j + 1)));
            }
            j = j + 1;
        }
        put_newline(&mut out);
        proof {
            assert(row.0@.take(n as int) =~= row.0@);
            assert(diffs@.take(i + 1).drop_last() =~= diffs@.take(i as int));
            assert(out@ =~= spec_frame(metric_names@, diffs@.take(i + 1)));
        }
        i = i + 1;
    }
    proof {
        assert(diffs@.take(diffs@.len() as int) =~= diffs@);
    }
    out
}

} // verus!
