//! Labels and metric identifiers.
//!
//! A `Bench` names one benchmark run's sample series; it is an opaque
//! byte string compared by value, and the order in which labels are
//! first seen matters for default pairing.  A `Metric` is the index of
//! one numeric column, fixed by input header order.

use vstd::prelude::*;

verus! {

/// Identifier of one benchmark run's sample series.
#[derive(Debug)]
pub struct Bench {
    name: Vec<u8>,
}

impl View for Bench {
    type V = Seq<u8>;

    closed spec fn view(&self) -> Seq<u8> {
        self.name@
    }
}

impl Bench {
    pub fn new(name: Vec<u8>) -> (r: Bench)
        ensures
            r@ == name@,
    {
        Bench { name }
    }

    pub fn name(&self) -> (r: &Vec<u8>)
        ensures
            r@ == self@,
    {
        &self.name
    }

    /// Value equality of two labels.
    pub fn same(&self, other: &Bench) -> (r: bool)
        ensures
            r == (self@ == other@),
    {
        let r = self.name == other.name;
        proof {
            if r {
                assert(self.name@ =~= other.name@);
            } else {
                if self.name@ == other.name@ {
                    assert(forall|i: int|
                        0 <= i < self.name@.len() ==> self.name@[i] == other.name@[i]);
                    assert(false);
                }
            }
        }
        r
    }
}

impl Clone for Bench {
    fn clone(&self) -> (r: Self)
        ensures
            r@ == self@,
    {
        Bench { name: self.name.clone() }
    }
}

impl PartialEq for Bench {
    fn eq(&self, other: &Self) -> (r: bool) {
        self.same(other)
    }
}

impl vstd::std_specs::cmp::PartialEqSpecImpl for Bench {
    open spec fn obeys_eq_spec() -> bool {
        true
    }

    open spec fn eq_spec(&self, other: &Bench) -> bool {
        self@ == other@
    }
}

/// Index of one numeric column, assigned in input header order and
/// never reordered once seen.
#[derive(Clone, Copy, Debug, PartialEq, Eq, Structural)]
pub struct Metric(pub usize);

} // verus!
