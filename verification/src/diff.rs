//! Diff engine: per-metric delta and confidence interval between two
//! labels' aggregates.
//!
//! `delta` is the difference of the two truncated means.  The standard
//! error follows the independent two-sample (Welch) form
//! `sqrt(var_base / n_base + var_cand / n_cand)`; no pooled variance is
//! assumed.  When either side has fewer than two samples the standard
//! error does not exist and the interval is the explicit
//! "insufficient data" sentinel, never zero or a junk value.

use vstd::prelude::*;

use crate::fixed::div_trunc;
use crate::fixed::sqrt_floor;
use crate::fixed::tdiv;
use crate::fixed::SCALE;
use crate::stats::spec_mean;
use crate::stats::spec_variance;
use crate::stats::sum_seq;
use crate::stats::sum_sq_seq;
use crate::stats::Measurements;
use crate::stats::RunningStat;
use crate::label::Bench;

verus! {

/// Largest value the standard error can take (micros): the square root
/// of the largest representable variance sum.
pub const MAX_SE_MICROS: i128 = 20_000_000_000_000_000_000;

/// Confidence level for an interval.
#[derive(Clone, Copy, Debug, PartialEq, Eq, Structural)]
pub enum Confidence {
    C80,
    C90,
    C95,
    C99,
}

/// Two-sided normal quantile for the level, in micros.
pub open spec fn z_micros(c: Confidence) -> int {
    match c {
        Confidence::C80 => 1_281_552,
        Confidence::C90 => 1_644_854,
        Confidence::C95 => 1_959_964,
        Confidence::C99 => 2_575_829,
    }
}

pub fn z_micros_exec(c: Confidence) -> (r: i128)
    ensures
        r == z_micros(c),
{
    match c {
        Confidence::C80 => 1_281_552,
        Confidence::C90 => 1_644_854,
        Confidence::C95 => 1_959_964,
        Confidence::C99 => 2_575_829,
    }
}

/// Standard error of a mean difference, or the explicit sentinel when
/// one side has too few samples to estimate it.
#[derive(Clone, Copy, Debug)]
pub enum StdErr {
    /// Fewer than two samples on some side: no estimate exists.
    Insufficient,
    /// Standard error in micros.
    Micros(i128),
}

/// The standard error carried by a defined estimate (zero otherwise).
pub open spec fn se_of(st: StdErr) -> int {
    match st {
        StdErr::Insufficient => 0,
        StdErr::Micros(s) => s as int,
    }
}

/// Variance of the mean: `variance / n`, truncated, in squared micros.
pub open spec fn spec_mean_var(s: Seq<int>) -> int
    recommends
        s.len() >= 2,
{
    tdiv(spec_variance(s), s.len() as int)
}

/// Squared standard error of the difference of means (Welch form).
pub open spec fn spec_se2(b: Seq<int>, c: Seq<int>) -> int
    recommends
        b.len() >= 2,
        c.len() >= 2,
{
    spec_mean_var(b) + spec_mean_var(c)
}

/// Difference of the two truncated means: candidate minus baseline.
pub open spec fn spec_delta(b: Seq<int>, c: Seq<int>) -> int
    recommends
        b.len() >= 1,
        c.len() >= 1,
{
    spec_mean(c) - spec_mean(b)
}

/// The defined standard error is the floor square root of `spec_se2`.
pub open spec fn se_matches(b: Seq<int>, c: Seq<int>, st: StdErr) -> bool {
    &&& st is Micros
    &&& 0 <= se_of(st) <= MAX_SE_MICROS
    &&& se_of(st) * se_of(st) <= spec_se2(b, c)
    &&& spec_se2(b, c) < (se_of(st) + 1) * (se_of(st) + 1)
}

/// Per-metric snapshot of a two-label comparison: delta and standard
/// error, immutable once produced.
#[derive(Clone, Copy, Debug)]
pub struct ConfidenceInterval {
    pub delta: i128,
    pub se: StdErr,
}

impl ConfidenceInterval {
    pub open spec fn wf(&self) -> bool {
        &&& -2 * (crate::fixed::MAX_ABS_MICROS as int) <= self.delta <= 2 * (
        crate::fixed::MAX_ABS_MICROS as int)
        &&& (self.se is Micros ==> 0 <= se_of(self.se) <= MAX_SE_MICROS)
    }

    /// The observed change of the mean, candidate minus baseline, in micros.
    pub fn delta(&self) -> (r: i128)
        ensures
            r == self.delta,
    {
        self.delta
    }

    /// Half-width of the confidence interval around the delta at the
    /// given level, in micros; `None` is the "insufficient data" sentinel.
    pub fn ci(&self, level: Confidence) -> (r: Option<i128>)
        requires
            self.wf(),
        ensures
            match r {
                Some(w) => self.se is Micros && w == tdiv(
                    z_micros(level) * se_of(self.se),
                    SCALE as int,
                ) && 0 <= w,
                None => self.se is Insufficient,
            },
    {
        match self.se {
            StdErr::Insufficient => None,
            StdErr::Micros(s) => {
                let z = z_micros_exec(level);
                proof {
                    crate::stats::lemma_mul_bound(z as int, 2_575_829, s as int, MAX_SE_MICROS as int);
                    vstd::arithmetic::div_mod::lemma_div_pos_is_pos(
                        z_micros(level) * se_of(self.se),
                        SCALE as int,
                    );
                }
                Some(div_trunc(z * s, SCALE))
            },
        }
    }
}

/// What the diff of two sample histories must look like.
pub open spec fn ci_matches(b: Seq<int>, c: Seq<int>, ci: ConfidenceInterval) -> bool {
    &&& ci.wf()
    &&& ci.delta == spec_delta(b, c)
    &&& (ci.se is Insufficient <==> (b.len() < 2 || c.len() < 2))
    &&& (b.len() >= 2 && c.len() >= 2 ==> se_matches(b, c, ci.se))
}

/// Pure per-metric diff of two aggregates.
pub fn diff_stats(base: &RunningStat, cand: &RunningStat) -> (r: ConfidenceInterval)
    requires
        base.wf(),
        cand.wf(),
        base@.len() >= 1,
        cand@.len() >= 1,
    ensures
        ci_matches(base@, cand@, r),
{
    let delta = cand.mean() - base.mean();
    if base.count < 2 || cand.count < 2 {
        return ConfidenceInterval { delta, se: StdErr::Insufficient };
    }
    let vb = base.variance();
    let vc = cand.variance();
    proof {
        vstd::arithmetic::div_mod::lemma_div_pos_is_pos(vb as int, base.count as int);
        vstd::arithmetic::div_mod::lemma_div_is_ordered_by_denominator(vb as int, 2,
            base.count as int);
        vstd::arithmetic::div_mod::lemma_div_is_ordered(vb as int,
            0x40000000000000000000000000000000, 2);
        vstd::arithmetic::div_mod::lemma_div_pos_is_pos(vc as int, cand.count as int);
        vstd::arithmetic::div_mod::lemma_div_is_ordered_by_denominator(vc as int, 2,
            cand.count as int);
        vstd::arithmetic::div_mod::lemma_div_is_ordered(vc as int,
            0x40000000000000000000000000000000, 2);
    }
    let tb = div_trunc(vb, base.count as i128);
    let tc = div_trunc(vc, cand.count as i128);
    let se2 = tb + tc;
    let se_u = sqrt_floor(se2 as u128);
    proof {
        assert(se_u <= MAX_SE_MICROS) by (nonlinear_arith)
            requires
                (se_u as int) * (se_u as int) <= se2 as int,
                se2 as int <= 0x80000000000000000000000000000000,
                se_u >= 0,
                MAX_SE_MICROS == 20_000_000_000_000_000_000,
        ;
    }
    let se = se_u as i128;
    ConfidenceInterval { delta, se: StdErr::Micros(se) }
}

/// Comparison of two labels: one optional interval per metric, in
/// metric order.  A metric missing from either side is `None`, never a
/// defaulted zero.
#[derive(Debug)]
pub struct Diff(pub Vec<Option<ConfidenceInterval>>);

/// Every defined interval in a diff row is well-formed.
pub open spec fn diff_wf_row(d: Diff) -> bool {
    forall|j: int| 0 <= j < d.0@.len() ==> ((#[trigger] d.0@[j]) matches Some(ci) ==> ci.wf())
}

/// What `Measurements::diff` promises for each metric position.
pub open spec fn slot_matches(b: Seq<int>, c: Seq<int>, o: Option<ConfidenceInterval>) -> bool {
    if b.len() >= 1 && c.len() >= 1 {
        o is Some && ci_matches(b, c, o->0)
    } else {
        o is None
    }
}

/// What the full diff of two seen labels must look like.
pub open spec fn diff_matches(m: Measurements, from: Seq<u8>, to: Seq<u8>, d: Diff) -> bool {
    let bi = m.index_of(from);
    let ci = m.index_of(to);
    &&& d.0@.len() == m.n_metrics
    &&& forall|j: int|
        0 <= j < m.n_metrics ==> slot_matches(m.samples(bi, j), m.samples(ci, j), #[trigger] d.0@[j])
}

impl Measurements {
    /// Pure diff of two seen labels: per-metric delta and interval of
    /// `to` (candidate) against `from` (baseline).
    pub fn diff(&self, from: &Bench, to: &Bench) -> (r: Diff)
        requires
            self.wf(),
            self.seen(from@),
            self.seen(to@),
        ensures
            diff_matches(*self, from@, to@, r),
    {
        let bi = self.find(from).unwrap();
        let ci = self.find(to).unwrap();
        let n = self.stats[bi].len();
        let mut out: Vec<Option<ConfidenceInterval>> = Vec::new();
        let mut j: usize = 0;
        while j < n
            invariant
                self.wf(),
                bi < self.stats@.len(),
                ci < self.stats@.len(),
                self.index_of(from@) == bi,
                self.index_of(to@) == ci,
                n == self.n_metrics,
                j <= n,
                out@.len() == j,
                forall|k: int|
                    0 <= k < j ==> slot_matches(
                        self.samples(bi as int, k),
                        self.samples(ci as int, k),
                        #[trigger] out@[k],
                    ),
            decreases n - j,
        {
            let d = diff_stats(&self.stats[bi][j], &self.stats[ci][j]);
            out.push(Some(d));
            j = j + 1;
        }
        Diff(out)
    }
}

/// Antisymmetry of the diff: swapping baseline and candidate negates
/// the delta, and the squared standard error is unchanged.
pub proof fn lemma_diff_antisymmetric(b: Seq<int>, c: Seq<int>)
    requires
        b.len() >= 1,
        c.len() >= 1,
    ensures
        spec_delta(b, c) == -spec_delta(c, b),
        b.len() >= 2 && c.len() >= 2 ==> spec_se2(b, c) == spec_se2(c, b),
{
}

/// Diffing a label against itself gives delta zero; and when all its
/// samples are equal (zero variance), the interval half-width collapses
/// to zero at every confidence level.
pub proof fn lemma_diff_self(a: Seq<int>)
    requires
        a.len() >= 1,
    ensures
        spec_delta(a, a) == 0,
        a.len() >= 2 && (forall|i: int| 0 <= i < a.len() ==> #[trigger] a[i] == a[0]) ==> {
            &&& spec_se2(a, a) == 0
            &&& forall|st: StdErr, level: Confidence|
                se_matches(a, a, st) ==> #[trigger] tdiv(z_micros(level) * se_of(st), SCALE as int)
                    == 0
        },
{
    if a.len() >= 2 && (forall|i: int| 0 <= i < a.len() ==> #[trigger] a[i] == a[0]) {
        lemma_constant_sums(a, a[0]);
        let n = a.len() as int;
        let x = a[0];
        assert(n * (n * (x * x)) - (n * x) * (n * x) == 0) by (nonlinear_arith);
        assert(2 <= n * (n - 1)) by (nonlinear_arith)
            requires
                n >= 2,
        ;
        assert(spec_variance(a) == 0) by {
            vstd::arithmetic::div_mod::lemma_div_of0(n * (n - 1));
        }
        assert(spec_mean_var(a) == 0) by {
            vstd::arithmetic::div_mod::lemma_div_of0(n);
        }
        assert forall|st: StdErr, level: Confidence| se_matches(a, a, st) implies #[trigger] tdiv(
            z_micros(level) * se_of(st),
            SCALE as int,
        ) == 0 by {
            let s = se_of(st);
            assert(s == 0) by (nonlinear_arith)
                requires
                    s >= 0,
                    s * s <= 0,
            ;
            assert(z_micros(level) * 0 == 0) by (nonlinear_arith);
            assert(tdiv(0, SCALE as int) == 0) by {
                vstd::arithmetic::div_mod::lemma_div_of0(SCALE as int);
            }
        }
    }
}

/// Sums of a constant sequence: `sum == n * x` and `sum_sq == n * x^2`.
pub proof fn lemma_constant_sums(s: Seq<int>, x: int)
    requires
        forall|i: int| 0 <= i < s.len() ==> #[trigger] s[i] == x,
    ensures
        sum_seq(s) == s.len() * x,
        sum_sq_seq(s) == s.len() * (x * x),
    decreases s.len(),
{
    if s.len() > 0 {
        let t = s.drop_last();
        assert(forall|i: int| 0 <= i < t.len() ==> #[trigger] t[i] == x);
        lemma_constant_sums(t, x);
        assert(s.last() == x);
        let n = s.len() as int;
        assert((n - 1) * x + x == n * x) by (nonlinear_arith);
        assert((n - 1) * (x * x) + x * x == n * (x * x)) by (nonlinear_arith);
    }
}

} // verus!
