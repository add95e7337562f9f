//! Stand-in runtime-metric counters.
//!
//! Real metric counters live with the embedded runtime and are out of this
//! core's scope. These do-nothing counterparts keep the call sites uniform
//! where no metrics backend is wired up: every operation is a no-op.

use vstd::prelude::*;

verus! {

/// A counter that counts nothing.
pub struct Counter;

/// A labelled family of counters that counts nothing.
pub struct CounterVec;

impl CounterVec {
    /// Selects a labelled member; with nothing behind it, that is this very
    /// value again.
    pub fn with_label_values(&self, _label_values: &[&str]) -> (r: &Self)
        ensures
            r == self,
    {
        self
    }

    /// Would add `_n` to the counter; here, nothing happens.
    pub fn inc_by(&self, _n: u64) {
    }

    /// Would add one to the counter; here, nothing happens.
    pub fn inc(&self) {
    }
}

impl Counter {
    /// Would add `_n` to the counter; here, nothing happens.
    pub fn inc_by(&self, _n: u64) {
    }

    /// Would add one to the counter; here, nothing happens.
    pub fn inc(&self) {
    }
}

} // verus!
