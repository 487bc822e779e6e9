//! Pairing and gating: from accumulated measurements to diffs, and from
//! diffs to the regression verdict.
//!
//! A label named explicitly but never observed in the input is a
//! configuration fault, raised before any diff is computed — a requested
//! label is never silently dropped.

use vstd::prelude::*;

use crate::diff::diff_matches;
use crate::diff::diff_wf_row;
use crate::diff::se_of;
use crate::diff::z_micros;
use crate::diff::Confidence;
use crate::diff::ConfidenceInterval;
use crate::diff::Diff;
use crate::errors::Error;
use crate::fixed::tdiv;
use crate::fixed::SCALE;
use crate::label::Bench;
use crate::label::Metric;
use crate::options::Options;
use crate::stats::Measurements;

verus! {

/// Views of a pair list.
pub open spec fn pair_views(ps: Seq<(Bench, Bench)>) -> Seq<(Seq<u8>, Seq<u8>)> {
    ps.map_values(|p: (Bench, Bench)| (p.0@, p.1@))
}

/// Whether the request names this label: as the base, or as one of the
/// positional labels.
pub open spec fn requested_label(opts: Options, l: Seq<u8>) -> bool {
    ||| (opts.base is Some && opts.base->0@ == l)
    ||| exists|i: int| 0 <= i < opts.labels@.len() && (#[trigger] opts.labels@[i])@ == l
}

/// The pairs a diff round works on.  With a base configured, every
/// positional label is compared to the base — and nothing else, even
/// when no positional label was given.  Without a base, two or more
/// positional labels are compared consecutively; otherwise the pairing
/// falls back to consecutive first-seen labels.
pub open spec fn request_pairs(m: Measurements, opts: Options) -> Seq<(Seq<u8>, Seq<u8>)> {
    if opts.base is Some {
        Seq::new(opts.labels@.len(), |i: int| (opts.base->0@, opts.labels@[i]@))
    } else if opts.labels@.len() >= 2 {
        Seq::new(
            (opts.labels@.len() - 1) as nat,
            |i: int| (opts.labels@[i]@, opts.labels@[i + 1]@),
        )
    } else {
        Seq::new(
            if m.labels@.len() == 0 {
                0nat
            } else {
                (m.labels@.len() - 1) as nat
            },
            |i: int| (m.labels@[i]@, m.labels@[i + 1]@),
        )
    }
}

/// One diff round: refuse any requested label — the base or a positional
/// label — that was never observed, before computing any diff; then
/// resolve the pairs and diff every pair.  A requested label is never
/// silently dropped, even when it ends up in no pair.
pub fn compute_diffs(m: &Measurements, opts: &Options) -> (r: Result<
    Vec<(Bench, Bench, Diff)>,
    Error,
>)
    requires
        m.wf(),
    ensures
        match r {
            Ok(v) => {
                let ps = request_pairs(*m, *opts);
                &&& (opts.base is Some ==> m.seen(opts.base->0@))
                &&& forall|i: int|
                    0 <= i < opts.labels@.len() ==> m.seen((#[trigger] opts.labels@[i])@)
                &&& v@.len() == ps.len()
                &&& forall|i: int|
                    0 <= i < ps.len() ==> {
                        &&& (#[trigger] v@[i]).0@ == ps[i].0
                        &&& v@[i].1@ == ps[i].1
                        &&& m.seen(ps[i].0)
                        &&& m.seen(ps[i].1)
                        &&& diff_matches(*m, ps[i].0, ps[i].1, v@[i].2)
                    }
            },
            Err(e) => {
                &&& e matches Error::Configuration { label }
                &&& !m.seen(label@)
                &&& requested_label(*opts, label@)
            },
        },
{
    // Refuse any requested label that never appeared in the input,
    // before computing any diff.
    match &opts.base {
        Some(b) => {
            if m.find(b).is_none() {
                let label = b.clone();
                return Err(Error::Configuration { label });
            }
        },
        None => {},
    }
    let mut i: usize = 0;
    while i < opts.labels.len()
        invariant
            m.wf(),
            i <= opts.labels@.len(),
            forall|k: int| 0 <= k < i ==> m.seen((#[trigger] opts.labels@[k])@),
        decreases opts.labels@.len() - i,
    {
        if m.find(&opts.labels[i]).is_none() {
            let label = opts.labels[i].clone();
            return Err(Error::Configuration { label });
        }
        i = i + 1;
    }
    // Resolve the pairs: guessed only when the request names nothing to
    // pair — no base and fewer than two positional labels.
    let ghost ps = request_pairs(*m, *opts);
    let use_guess = opts.base.is_none() && opts.labels.len() < 2;
    let pairs: Vec<(Bench, Bench)> = if use_guess {
        m.guess_pairs()
    } else {
        opts.pairs()
    };
    proof {
        assert(pair_views(pairs@) =~= ps);
        if use_guess {
            assert forall|k: int| 0 <= k < pairs@.len() implies m.seen((#[trigger] pairs@[k]).0@)
                && m.seen(pairs@[k].1@) by {
                m.lemma_index_of(pairs@[k].0@, k);
                m.lemma_index_of(pairs@[k].1@, k + 1);
            }
        }
    }
    let mut out: Vec<(Bench, Bench, Diff)> = Vec::new();
    let mut i: usize = 0;
    while i < pairs.len()
        invariant
            m.wf(),
            pair_views(pairs@) == ps,
            forall|k: int|
                0 <= k < pairs@.len() ==> m.seen((#[trigger] pairs@[k]).0@) && m.seen(
                    pairs@[k].1@,
                ),
            i <= pairs@.len(),
            out@.len() == i,
            forall|k: int|
                0 <= k < i ==> {
                    &&& (#[trigger] out@[k]).0@ == pairs@[k].0@
                    &&& out@[k].1@ == pairs@[k].1@
                    &&& diff_matches(*m, pairs@[k].0@, pairs@[k].1@, out@[k].2)
                },
        decreases pairs@.len() - i,
    {
        let from = pairs[i].0.clone();
        let to = pairs[i].1.clone();
        let d = m.diff(&from, &to);
        out.push((from, to, d));
        i = i + 1;
    }
    proof {
        assert(forall|i: int|
            0 <= i < ps.len() ==> (#[trigger] ps[i]).0 == pairs@[i].0@ && ps[i].1 == pairs@[i].1@);
    }
    Ok(out)
}

/// A statistically significant increase: the delta exceeds the 95%
/// confidence half-width around zero.
pub open spec fn is_regression(ci: ConfidenceInterval) -> bool {
    ci.se is Micros && ci.delta > tdiv(z_micros(Confidence::C95) * se_of(ci.se), SCALE as int)
}

/// Some pair has some metric with a significant increase.
pub open spec fn any_regression(diffs: Seq<(Bench, Bench, Diff)>) -> bool {
    exists|i: int, j: int|
        {
            &&& 0 <= i < diffs.len()
            &&& 0 <= j < diffs[i].2.0@.len()
            &&& (#[trigger] diffs[i].2.0@[j]) matches Some(ci) && is_regression(ci)
        }
}

/// The regression gate: `Ok` exactly when no metric of any pair shows a
/// statistically significant increase; otherwise the error names the
/// offending pair, metric and magnitude.  A metric without a defined
/// interval is excluded, not treated as a pass or fail.
pub fn check_regressions(diffs: &Vec<(Bench, Bench, Diff)>) -> (r: Result<(), Error>)
    requires
        forall|i: int| 0 <= i < diffs@.len() ==> diff_wf_row((#[trigger] diffs@[i]).2),
    ensures
        r is Ok <==> !any_regression(diffs@),
        r matches Err(e) ==> {
            &&& e matches Error::Regression { from, to, metric, delta }
            &&& exists|i: int|
                {
                    &&& 0 <= i < diffs@.len()
                    &&& from@ == (#[trigger] diffs@[i]).0@
                    &&& to@ == diffs@[i].1@
                    &&& 0 <= metric.0 < diffs@[i].2.0@.len()
                    &&& diffs@[i].2.0@[metric.0 as int] matches Some(ci) && is_regression(ci)
                        && delta == ci.delta
                }
        },
{
    let mut i: usize = 0;
    while i < diffs.len()
        invariant
            forall|k: int| 0 <= k < diffs@.len() ==> diff_wf_row((#[trigger] diffs@[k]).2),
            i <= diffs@.len(),
            forall|k: int, j: int|
                0 <= k < i && 0 <= j < diffs@[k].2.0@.len() ==> !((#[trigger] diffs@[k].2.0@[j])
                    matches Some(ci) && is_regression(ci)),
        decreases diffs@.len() - i,
    {
        let row = &diffs[i].2;
        let n = row.0.len();
        let mut j: usize = 0;
        while j < n
            invariant
                forall|k: int| 0 <= k < diffs@.len() ==> diff_wf_row((#[trigger] diffs@[k]).2),
                i < diffs@.len(),
                row == &diffs@[i as int].2,
                n == row.0@.len(),
                j <= n,
                forall|l: int|
                    0 <= l < j ==> !((#[trigger] row.0@[l]) matches Some(ci) && is_regression(ci)),
            decreases n - j,
        {
            match &row.0[j] {
                None => {},
                Some(ci) => {
                    match ci.ci(Confidence::C95) {
                        None => {},
                        Some(w) => {
                            if ci.delta() > w {
                                let from = diffs[i].0.clone();
                                let to = diffs[i].1.clone();
                                let delta = ci.delta();
                                return Err(
                                    Error::Regression { from, to, metric: Metric(j), delta },
                                );
                            }
                        },
                    }
                },
            }
            j = j + 1;
        }
        i = i + 1;
    }
    Ok(())
}

} // verus!
