//! Comparison requests: which labels to compare, and how to pair them.

use vstd::prelude::*;

use crate::label::Bench;

verus! {

/// What the caller asked to compare.
pub struct Options {
    /// Fail the run if some metric's increase is statistically significant.
    pub deny_positive: bool,
    /// A "base" label.  If specified, all labels are compared to this.
    pub base: Option<Bench>,
    /// Labels to compare.  If `base` is not specified, they are compared
    /// consecutively.
    pub labels: Vec<Bench>,
}

impl Options {
    /// The explicitly requested (baseline, candidate) pairs, in the
    /// caller's order: every label against `base` when one is given,
    /// otherwise consecutive labels.
    pub fn pairs(&self) -> (r: Vec<(Bench, Bench)>)
        ensures
            self.base matches Some(b) ==> {
                &&& r@.len() == self.labels@.len()
                &&& forall|i: int|
                    0 <= i < r@.len() ==> (#[trigger] r@[i]).0@ == b@ && r@[i].1@
                        == self.labels@[i]@
            },
            self.base is None ==> {
                &&& r@.len() == if self.labels@.len() == 0 {
                    0int
                } else {
                    self.labels@.len() - 1
                }
                &&& forall|i: int|
                    0 <= i < r@.len() ==> (#[trigger] r@[i]).0@ == self.labels@[i]@ && r@[i].1@
                        == self.labels@[i + 1]@
            },
    {
        let mut r: Vec<(Bench, Bench)> = Vec::new();
        match &self.base {
            Some(base) => {
                let mut i: usize = 0;
                while i < self.labels.len()
                    invariant
                        self.base matches Some(b) && b@ == base@,
                        i <= self.labels@.len(),
                        r@.len() == i,
                        forall|k: int|
                            0 <= k < i ==> (#[trigger] r@[k]).0@ == base@ && r@[k].1@
                                == self.labels@[k]@,
                    decreases self.labels@.len() - i,
                {
                    r.push((base.clone(), self.labels[i].clone()));
                    i = i + 1;
                }
            },
            None => {
                if self.labels.len() == 0 {
                    return r;
                }
                let n = self.labels.len();
                let mut i: usize = 0;
                while i < n - 1
                    invariant
                        self.base is None,
                        n == self.labels@.len(),
                        n >= 1,
                        i <= n - 1,
                        r@.len() == i,
                        forall|k: int|
                            0 <= k < i ==> (#[trigger] r@[k]).0@ == self.labels@[k]@ && r@[k].1@
                                == self.labels@[k + 1]@,
                    decreases n - i,
                {
                    r.push((self.labels[i].clone(), self.labels[i + 1].clone()));
                    i = i + 1;
                }
            },
        }
        r
    }
}

} // verus!
