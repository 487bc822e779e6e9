//! Streaming statistics: per-(label, metric) running aggregates.
//!
//! A `RunningStat` carries the count, the exact sum and the exact sum of
//! squares of every sample it has seen (in micros), together with a ghost
//! history of the samples themselves; its contracts tie the stored
//! aggregates to that history, so the mean and variance it reports are
//! exactly the two-pass formulas over all samples fed in.
//! `Measurements` maps each label, in first-seen order, to one
//! `RunningStat` per metric.

use vstd::prelude::*;

use crate::fixed::div_trunc;
use crate::fixed::tdiv;
use crate::fixed::MAX_ABS_MICROS;
use crate::fixed::MAX_SAMPLES;
use crate::label::Bench;

verus! {

/// Sum of a sample sequence.
pub open spec fn sum_seq(s: Seq<int>) -> int
    decreases s.len(),
{
    if s.len() == 0 {
        0
    } else {
        sum_seq(s.drop_last()) + s.last()
    }
}

/// Sum of the squares of a sample sequence.
pub open spec fn sum_sq_seq(s: Seq<int>) -> int
    decreases s.len(),
{
    if s.len() == 0 {
        0
    } else {
        sum_sq_seq(s.drop_last()) + s.last() * s.last()
    }
}

/// Every sample within the supported magnitude.
pub open spec fn bounded_samples(s: Seq<int>) -> bool {
    forall|i: int|
        0 <= i < s.len() ==> -(MAX_ABS_MICROS as int) <= #[trigger] s[i] <= MAX_ABS_MICROS as int
}

/// Mean in micros, truncated toward zero.
pub open spec fn spec_mean(s: Seq<int>) -> int
    recommends
        s.len() >= 1,
{
    tdiv(sum_seq(s), s.len() as int)
}

/// Sample variance by the two-pass formula
/// `(n * sum_sq - sum^2) / (n * (n - 1))`, truncated toward zero.
/// The result is scaled by `SCALE_SQ` (squared micros).
pub open spec fn spec_variance(s: Seq<int>) -> int
    recommends
        s.len() >= 2,
{
    tdiv(s.len() * sum_sq_seq(s) - sum_seq(s) * sum_seq(s), s.len() * (s.len() - 1))
}

pub proof fn lemma_square_bound(x: int, a: int)
    by (nonlinear_arith)
    requires
        -a <= x <= a,
    ensures
        0 <= x * x <= a * a,
{
}

pub proof fn lemma_mul_bound(x: int, a: int, y: int, b: int)
    by (nonlinear_arith)
    requires
        0 <= x <= a,
        0 <= y <= b,
    ensures
        0 <= x * y <= a * b,
{
}

pub proof fn lemma_sum_seq_bound(s: Seq<int>)
    requires
        bounded_samples(s),
    ensures
        -(s.len() * MAX_ABS_MICROS as int) <= sum_seq(s) <= s.len() * MAX_ABS_MICROS as int,
    decreases s.len(),
{
    if s.len() > 0 {
        assert(bounded_samples(s.drop_last()));
        lemma_sum_seq_bound(s.drop_last());
    }
}

pub proof fn lemma_sum_sq_seq_bound(s: Seq<int>)
    requires
        bounded_samples(s),
    ensures
        0 <= sum_sq_seq(s),
        sum_sq_seq(s) <= s.len() * (MAX_ABS_MICROS as int * MAX_ABS_MICROS as int),
    decreases s.len(),
{
    if s.len() > 0 {
        assert(bounded_samples(s.drop_last()));
        lemma_sum_sq_seq_bound(s.drop_last());
        lemma_square_bound(s.last(), MAX_ABS_MICROS as int);
    }
}

/// Sum of squared deviations of the samples from a fixed point `x`.
pub open spec fn sum_sq_dev(s: Seq<int>, x: int) -> int
    decreases s.len(),
{
    if s.len() == 0 {
        0
    } else {
        sum_sq_dev(s.drop_last(), x) + (s.last() - x) * (s.last() - x)
    }
}

pub proof fn lemma_sum_sq_dev_nonneg(s: Seq<int>, x: int)
    ensures
        sum_sq_dev(s, x) >= 0,
    decreases s.len(),
{
    if s.len() > 0 {
        lemma_sum_sq_dev_nonneg(s.drop_last(), x);
        lemma_square_bound(s.last() - x, if s.last() - x >= 0 { s.last() - x } else { x - s.last() });
    }
}

pub proof fn lemma_sum_sq_dev_expand(s: Seq<int>, x: int)
    ensures
        sum_sq_dev(s, x) == sum_sq_seq(s) + s.len() * (x * x) - 2 * x * sum_seq(s),
    decreases s.len(),
{
    if s.len() > 0 {
        let t = s.drop_last();
        lemma_sum_sq_dev_expand(t, x);
        let l = s.last();
        let n = t.len() as int;
        assert((l - x) * (l - x) == l * l + x * x - 2 * x * l) by (nonlinear_arith);
        assert((n + 1) * (x * x) == n * (x * x) + x * x) by (nonlinear_arith);
        assert(2 * x * (sum_seq(t) + l) == 2 * x * sum_seq(t) + 2 * x * l) by (nonlinear_arith);
    }
}

/// Cauchy–Schwarz for sample sequences: `n * sum_sq >= sum^2`, so the
/// two-pass variance numerator is never negative.
pub proof fn lemma_variance_numerator_nonneg(s: Seq<int>)
    ensures
        s.len() * sum_sq_seq(s) >= sum_seq(s) * sum_seq(s),
    decreases s.len(),
{
    if s.len() == 0 {
        assert(sum_seq(s) == 0);
    } else {
        let t = s.drop_last();
        let x = s.last();
        lemma_variance_numerator_nonneg(t);
        lemma_sum_sq_dev_nonneg(t, x);
        lemma_sum_sq_dev_expand(t, x);
        let n = t.len() as int;
        let ss = sum_seq(t);
        let qq = sum_sq_seq(t);
        assert((n + 1) * (qq + x * x) - (ss + x) * (ss + x) == (n * qq - ss * ss) + (qq + n * (x
            * x) - 2 * x * ss)) by (nonlinear_arith);
    }
}

/// Online mean/variance accumulator for one (label, metric) pair.
///
/// `sum` and `sum_sq` are exact, so the incremental aggregate provably
/// equals the two-pass formulas over the whole ghost sample history —
/// the integer counterpart of a cancellation-free one-pass update.
pub struct RunningStat {
    pub count: usize,
    pub sum: i128,
    pub sum_sq: i128,
    pub samples: Ghost<Seq<int>>,
}

impl View for RunningStat {
    type V = Seq<int>;

    open spec fn view(&self) -> Seq<int> {
        self.samples@
    }
}

impl RunningStat {
    /// The stored aggregates agree with the sample history.
    pub open spec fn wf(&self) -> bool {
        &&& self.samples@.len() == self.count
        &&& self.count <= MAX_SAMPLES
        &&& bounded_samples(self.samples@)
        &&& self.sum == sum_seq(self.samples@)
        &&& self.sum_sq == sum_sq_seq(self.samples@)
    }

    pub fn new() -> (r: RunningStat)
        ensures
            r.wf(),
            r@ == Seq::<int>::empty(),
    {
        RunningStat { count: 0, sum: 0, sum_sq: 0, samples: Ghost(Seq::empty()) }
    }

    /// Fold one sample into the aggregate.
    pub fn push(&mut self, v: i64)
        requires
            old(self).wf(),
            old(self).count < MAX_SAMPLES,
            -MAX_ABS_MICROS <= v <= MAX_ABS_MICROS,
        ensures
            final(self).wf(),
            final(self)@ == old(self)@.push(v as int),
            final(self).count == old(self).count + 1,
    {
        let ghost s0 = self.samples@;
        proof {
            lemma_sum_seq_bound(s0);
            lemma_sum_sq_seq_bound(s0);
        }
        let v128: i128 = v as i128;
        proof {
            lemma_square_bound(v128 as int, MAX_ABS_MICROS as int);
        }
        self.count = self.count + 1;
        self.sum = self.sum + v128;
        self.sum_sq = self.sum_sq + v128 * v128;
        self.samples = Ghost(s0.push(v as int));
        proof {
            let s1 = self.samples@;
            assert(s1.drop_last() =~= s0);
            assert(bounded_samples(s1)) by {
                assert(forall|i: int|
                    0 <= i < s1.len() ==> s1[i] == (if i < s0.len() {
                        s0[i]
                    } else {
                        v as int
                    }));
            }
        }
    }

    /// Mean of all samples fed so far, in micros, truncated toward zero.
    pub fn mean(&self) -> (r: i128)
        requires
            self.wf(),
            self.count >= 1,
        ensures
            r == spec_mean(self@),
            -(MAX_ABS_MICROS as int) <= r <= MAX_ABS_MICROS as int,
    {
        proof {
            lemma_sum_seq_bound(self.samples@);
            lemma_mul_bound(self.samples@.len() as int, MAX_SAMPLES as int, MAX_ABS_MICROS as int,
                MAX_ABS_MICROS as int);
            lemma_tdiv_bound(self.sum as int, self.count as int, MAX_ABS_MICROS as int);
        }
        div_trunc(self.sum, self.count as i128)
    }

    /// Sample variance by the two-pass formula over the whole history,
    /// in squared micros, truncated toward zero.
    pub fn variance(&self) -> (r: i128)
        requires
            self.wf(),
            self.count >= 2,
        ensures
            r == spec_variance(self@),
            0 <= r <= 0x40000000000000000000000000000000,
    {
        let s = self.samples;
        proof {
            lemma_sum_seq_bound(s@);
            lemma_sum_sq_seq_bound(s@);
            lemma_variance_numerator_nonneg(s@);
            // |sum| <= n * A <= 1e19, so sum^2 <= 1e38; n * sum_sq <= n^2 * A^2 <= 1e38.
            lemma_mul_bound(s@.len() as int, MAX_SAMPLES as int, MAX_ABS_MICROS as int,
                MAX_ABS_MICROS as int);
            lemma_square_bound(self.sum as int, 10_000_000_000_000_000_000);
            lemma_mul_bound(s@.len() as int, MAX_SAMPLES as int, sum_sq_seq(s@),
                MAX_SAMPLES as int * (MAX_ABS_MICROS as int * MAX_ABS_MICROS as int));
        }
        let n: i128 = self.count as i128;
        let num: i128 = n * self.sum_sq - self.sum * self.sum;
        proof {
            assert(2 <= (n as int) * (n as int - 1) <= 100_000_000) by (nonlinear_arith)
                requires
                    2 <= n <= 10_000,
            ;
        }
        let den: i128 = n * (n - 1);
        let r = div_trunc(num, den);
        proof {
            vstd::arithmetic::div_mod::lemma_div_pos_is_pos(num as int, den as int);
            vstd::arithmetic::div_mod::lemma_div_is_ordered_by_denominator(num as int, 2,
                den as int);
            vstd::arithmetic::div_mod::lemma_div_is_ordered(num as int,
                0x80000000000000000000000000000000, 2);
        }
        r
    }
}

/// Bound for truncated division: if `|a| <= b * bound` then
/// `|tdiv(a, b)| <= bound`.
pub proof fn lemma_tdiv_bound(a: int, b: int, bound: int)
    requires
        b >= 1,
        0 <= bound,
        -(b * bound) <= a <= b * bound,
    ensures
        -bound <= tdiv(a, b) <= bound,
{
    if a >= 0 {
        vstd::arithmetic::div_mod::lemma_div_pos_is_pos(a, b);
        vstd::arithmetic::div_mod::lemma_div_is_ordered(a, bound * b, b);
        vstd::arithmetic::div_mod::lemma_div_by_multiple(bound, b);
    } else {
        vstd::arithmetic::div_mod::lemma_div_pos_is_pos(-a, b);
        vstd::arithmetic::div_mod::lemma_div_is_ordered(-a, bound * b, b);
        vstd::arithmetic::div_mod::lemma_div_by_multiple(bound, b);
    }
}

/// Per-label, per-metric running aggregates, labels in first-seen order.
pub struct Measurements {
    pub n_metrics: usize,
    pub labels: Vec<Bench>,
    pub stats: Vec<Vec<RunningStat>>,
}

impl Measurements {
    /// Label names in first-seen order.
    pub open spec fn label_views(&self) -> Seq<Seq<u8>> {
        self.labels@.map_values(|b: Bench| b@)
    }

    /// Sample history of metric `j` under the label at position `i`.
    pub open spec fn samples(&self, i: int, j: int) -> Seq<int> {
        self.stats@[i]@[j]@
    }

    pub open spec fn seen(&self, label: Seq<u8>) -> bool {
        exists|i: int| 0 <= i < self.labels@.len() && #[trigger] self.labels@[i]@ == label
    }

    /// Position of a seen label (unique, since labels are distinct).
    pub open spec fn index_of(&self, label: Seq<u8>) -> int {
        choose|i: int| 0 <= i < self.labels@.len() && #[trigger] self.labels@[i]@ == label
    }

    pub open spec fn wf(&self) -> bool {
        &&& self.stats@.len() == self.labels@.len()
        &&& forall|i: int|
            0 <= i < self.stats@.len() ==> #[trigger] self.stats@[i]@.len() == self.n_metrics
        &&& forall|i: int, j: int|
            0 <= i < self.stats@.len() && 0 <= j < self.n_metrics ==> (#[trigger] self.stats@[i]@[j]).wf()
        &&& forall|i: int, j: int|
            0 <= i < self.stats@.len() && 0 <= j < self.n_metrics
                ==> (#[trigger] self.stats@[i]@[j])@.len() >= 1
        &&& forall|i: int, k: int|
            0 <= i < k < self.labels@.len() ==> self.labels@[i]@ != self.labels@[k]@
    }

    pub fn new(n_metrics: usize) -> (r: Measurements)
        ensures
            r.wf(),
            r.n_metrics == n_metrics,
            r.labels@.len() == 0,
    {
        Measurements { n_metrics, labels: Vec::new(), stats: Vec::new() }
    }

    pub proof fn lemma_index_of(&self, label: Seq<u8>, i: int)
        requires
            self.wf(),
            0 <= i < self.labels@.len(),
            self.labels@[i]@ == label,
        ensures
            self.seen(label),
            self.index_of(label) == i,
    {
        assert(self.seen(label));
        let k = self.index_of(label);
        if k != i {
            assert(self.labels@[k]@ == self.labels@[i]@);
            assert(false);
        }
    }

    /// Position of the label, if it has been seen.
    pub fn find(&self, label: &Bench) -> (r: Option<usize>)
        requires
            self.wf(),
        ensures
            match r {
                Some(i) => i < self.labels@.len() && self.labels@[i as int]@ == label@
                    && self.index_of(label@) == i && self.seen(label@),
                None => !self.seen(label@),
            },
    {
        let mut i: usize = 0;
        while i < self.labels.len()
            invariant
                self.wf(),
                i <= self.labels@.len(),
                forall|k: int| 0 <= k < i ==> self.labels@[k]@ != label@,
            decreases self.labels@.len() - i,
        {
            if self.labels[i].same(label) {
                proof {
                    self.lemma_index_of(label@, i as int);
                }
                return Some(i);
            }
            i = i + 1;
        }
        None
    }

    /// Whether a further row for this label fits under the sample cap.
    pub open spec fn can_accept(&self, label: Seq<u8>) -> bool {
        self.seen(label) ==> forall|j: int|
            0 <= j < self.n_metrics ==> (#[trigger] self.stats@[self.index_of(label)]@[j])@.len()
                < MAX_SAMPLES
    }

    pub fn has_capacity(&self, label: &Bench) -> (r: bool)
        requires
            self.wf(),
        ensures
            r == self.can_accept(label@),
    {
        match self.find(label) {
            None => true,
            Some(i) => {
                let row_len = self.stats[i].len();
                let mut j: usize = 0;
                while j < row_len
                    invariant
                        self.wf(),
                        i < self.stats@.len(),
                        row_len == self.n_metrics,
                        self.index_of(label@) == i,
                        self.seen(label@),
                        j <= row_len,
                        forall|k: int|
                            0 <= k < j ==> (#[trigger] self.stats@[i as int]@[k])@.len()
                                < MAX_SAMPLES,
                    decreases row_len - j,
                {
                    if self.stats[i][j].count >= MAX_SAMPLES {
                        return false;
                    }
                    j = j + 1;
                }
                true
            },
        }
    }

    /// Fold one row of samples — one value per metric, in metric order —
    /// into the aggregates, creating the label's row on first occurrence.
    pub fn update(&mut self, label: &Bench, values: &Vec<i64>)
        requires
            old(self).wf(),
            old(self).can_accept(label@),
            values@.len() == old(self).n_metrics,
            forall|j: int|
                0 <= j < values@.len() ==> -MAX_ABS_MICROS <= #[trigger] values@[j]
                    <= MAX_ABS_MICROS,
        ensures
            final(self).wf(),
            final(self).n_metrics == old(self).n_metrics,
            final(self).seen(label@),
            old(self).seen(label@) ==> {
                let li = old(self).index_of(label@);
                &&& final(self).label_views() == old(self).label_views()
                &&& forall|i: int, j: int|
                    0 <= i < old(self).labels@.len() && 0 <= j < old(self).n_metrics && i != li
                        ==> final(self).samples(i, j) == old(self).samples(i, j)
                &&& forall|j: int|
                    0 <= j < old(self).n_metrics ==> final(self).samples(li, j) == old(
                    self).samples(li, j).push(values@[j] as int)
            },
            !old(self).seen(label@) ==> {
                &&& final(self).label_views() == old(self).label_views().push(label@)
                &&& forall|i: int, j: int|
                    0 <= i < old(self).labels@.len() && 0 <= j < old(self).n_metrics
                        ==> final(self).samples(i, j) == old(self).samples(i, j)
                &&& forall|j: int|
                    0 <= j < old(self).n_metrics ==> final(self).samples(
                        old(self).labels@.len() as int,
                        j,
                    ) == seq![values@[j] as int]
            },
    {
        let ghost m0 = *self;
        match self.find(label) {
            Some(li) => {
                let n = values.len();
                let mut j: usize = 0;
                while j < n
                    invariant
                        m0.wf(),
                        n == m0.n_metrics,
                        li < m0.labels@.len(),
                        m0.index_of(label@) == li,
                        m0.seen(label@),
                        m0.can_accept(label@),
                        values@.len() == n,
                        forall|k: int|
                            0 <= k < n ==> -MAX_ABS_MICROS <= #[trigger] values@[k]
                                <= MAX_ABS_MICROS,
                        j <= n,
                        self.n_metrics == m0.n_metrics,
                        self.labels == m0.labels,
                        self.stats@.len() == m0.stats@.len(),
                        forall|i: int|
                            0 <= i < self.stats@.len() ==> (#[trigger] self.stats@[i]@).len()
                                == m0.stats@[i]@.len(),
                        forall|i: int, k: int|
                            0 <= i < self.stats@.len() && 0 <= k < m0.n_metrics && i != li
                                ==> #[trigger] self.stats@[i]@[k] == m0.stats@[i]@[k],
                        forall|k: int|
                            j <= k < n ==> #[trigger] self.stats@[li as int]@[k] == m0.stats@[
                                li as int
                            ]@[k],
                        forall|k: int|
                            0 <= k < j ==> {
                                &&& (#[trigger] self.stats@[li as int]@[k]).wf()
                                &&& self.stats@[li as int]@[k]@ == m0.stats@[li as int]@[k]@.push(
                                    values@[k] as int)
                            },
                    decreases n - j,
                {
                    proof {
                        assert(m0.stats@[li as int]@[j as int].wf());
                        assert(m0.stats@[li as int]@[j as int]@.len() < MAX_SAMPLES);
                    }
                    self.stats[li][j].push(values[j]);
                    j = j + 1;
                }
                proof {
                    assert(final(self).wf()) by {
                        assert(forall|i: int, k: int|
                            0 <= i < self.stats@.len() && 0 <= k < self.n_metrics
                                ==> (#[trigger] self.stats@[i]@[k]).wf());
                    }
                    assert(self.label_views() == m0.label_views());
                }
            },
            None => {
                let n = values.len();
                let mut row: Vec<RunningStat> = Vec::new();
                let mut j: usize = 0;
                while j < n
                    invariant
                        j <= n,
                        values@.len() == n,
                        forall|k: int|
                            0 <= k < n ==> -MAX_ABS_MICROS <= #[trigger] values@[k]
                                <= MAX_ABS_MICROS,
                        row@.len() == j,
                        forall|k: int|
                            0 <= k < j ==> (#[trigger] row@[k]).wf() && row@[k]@ == seq![
                                values@[k] as int,
                            ],
                    decreases n - j,
                {
                    let mut st = RunningStat::new();
                    st.push(values[j]);
                    proof {
                        assert(st@ =~= seq![values@[j as int] as int]);
                    }
                    row.push(st);
                    j = j + 1;
                }
                self.labels.push(label.clone());
                self.stats.push(row);
                proof {
                    let l1 = self.labels@;
                    let n0 = m0.labels@.len() as int;
                    assert(l1[n0]@ == label@);
                    assert(self.label_views() =~= m0.label_views().push(label@));
                    assert(forall|i: int|
                        0 <= i < n0 ==> #[trigger] l1[i]@ == m0.labels@[i]@);
                    assert(final(self).seen(label@)) by {
                        assert(l1[n0]@ == label@);
                    }
                    assert(final(self).wf()) by {
                        assert(forall|i: int, k: int|
                            0 <= i < n0 && 0 <= k < self.n_metrics ==> #[trigger] self.stats@[i]@[k]
                                == m0.stats@[i]@[k]);
                        assert(forall|i: int, k: int|
                            0 <= i < n0 + 1 && 0 <= k < self.n_metrics
                                ==> (#[trigger] self.stats@[i]@[k]).wf());
                        assert(forall|i: int, k: int|
                            0 <= i < k < l1.len() ==> l1[i]@ != l1[k]@) by {
                            assert(forall|i: int|
                                0 <= i < n0 ==> #[trigger] l1[i]@ != label@);
                        }
                    }
                }
            },
        }
    }

    /// Default pairing: consecutive labels in first-seen order.
    pub fn guess_pairs(&self) -> (r: Vec<(Bench, Bench)>)
        requires
            self.wf(),
        ensures
            r@.len() == if self.labels@.len() == 0 {
                0int
            } else {
                self.labels@.len() - 1
            },
            forall|i: int|
                0 <= i < r@.len() ==> (#[trigger] r@[i]).0@ == self.labels@[i]@ && r@[i].1@
                    == self.labels@[i + 1]@,
    {
        let mut r: Vec<(Bench, Bench)> = Vec::new();
        if self.labels.len() == 0 {
            return r;
        }
        let n = self.labels.len();
        let mut i: usize = 0;
        while i < n - 1
            invariant
                self.wf(),
                n == self.labels@.len(),
                n >= 1,
                i <= self.labels@.len() - 1,
                r@.len() == i,
                forall|k: int|
                    0 <= k < i ==> (#[trigger] r@[k]).0@ == self.labels@[k]@ && r@[k].1@
                        == self.labels@[k + 1]@,
            decreases self.labels@.len() - i,
        {
            let a = self.labels[i].clone();
            let b = self.labels[i + 1].clone();
            r.push((a, b));
            i = i + 1;
        }
        r
    }
}

} // verus!
