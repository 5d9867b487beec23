//! The authoritative metric store, modeled as the little of it this
//! subsystem relies on: a value per metric key, a tally of invalid-value
//! errors per metric key, and the set of registered metric keys. The storage
//! engine behind it (accumulation across pings, snapshotting, persistence)
//! is an external collaborator and out of scope here.

use vstd::prelude::*;

use crate::assoc::AssocList;

verus! {

/// The kinds of recording errors a metric can accumulate. Quantity
/// recording produces only `InvalidValue` (a negative value).
#[derive(Clone, Copy, PartialEq, Eq, Structural, Debug)]
pub enum ErrorType {
    InvalidValue,
    InvalidLabel,
    InvalidState,
    InvalidOverflow,
}

/// Mathematical model of the store.
pub struct StoreView {
    pub values: Map<u64, i64>,
    pub invalid: Map<u64, i32>,
    pub registered: Set<u64>,
}

/// How many invalid-value errors the store holds for `key`.
pub open spec fn invalid_count(m: StoreView, key: u64) -> i32 {
    if m.invalid.contains_key(key) {
        m.invalid[key]
    } else {
        0
    }
}

pub open spec fn saturating_inc_i32(c: i32) -> i32 {
    if c == i32::MAX {
        c
    } else {
        (c + 1) as i32
    }
}

/// Recording an invalid value: the value is discarded and the metric's
/// error tally grows by one.
pub open spec fn spec_record_invalid(m: StoreView, key: u64) -> StoreView {
    StoreView {
        invalid: m.invalid.insert(key, saturating_inc_i32(invalid_count(m, key))),
        ..m
    }
}

/// One quantity recording against the store: a non-negative value is stored
/// under `key` (last write wins), a negative one is discarded and tallied.
pub open spec fn spec_apply_quantity(m: StoreView, key: u64, value: i64) -> StoreView {
    if value < 0 {
        spec_record_invalid(m, key)
    } else {
        StoreView { values: m.values.insert(key, value), ..m }
    }
}

/// The authoritative store of a privileged process.
pub struct MetricStore {
    pub values: AssocList<i64>,
    pub invalid: AssocList<i32>,
    pub registered: AssocList<bool>,
}

impl View for MetricStore {
    type V = StoreView;

    open spec fn view(&self) -> StoreView {
        StoreView {
            values: self.values@,
            invalid: self.invalid@,
            registered: self.registered@.dom(),
        }
    }
}

impl MetricStore {
    pub open spec fn wf(self) -> bool {
        self.values.wf() && self.invalid.wf() && self.registered.wf()
    }

    pub fn new() -> (r: Self)
        ensures
            r.wf(),
            r@.values == Map::<u64, i64>::empty(),
            r@.invalid == Map::<u64, i32>::empty(),
            r@.registered == Set::<u64>::empty(),
    {
        let r = MetricStore {
            values: AssocList::new(),
            invalid: AssocList::new(),
            registered: AssocList::new(),
        };
        proof {
            assert(r@.registered =~= Set::<u64>::empty());
        }
        r
    }

    /// Mark `key` as a metric the store knows; replay skips unknown keys.
    pub fn register(&mut self, key: u64)
        requires
            old(self).wf(),
        ensures
            final(self).wf(),
            final(self)@.registered == old(self)@.registered.insert(key),
            final(self)@.values == old(self)@.values,
            final(self)@.invalid == old(self)@.invalid,
    {
        self.registered.upsert(key, true);
        proof {
            assert(self.registered@.dom() =~= old(self).registered@.dom().insert(key));
        }
    }

    pub fn is_registered(&self, key: u64) -> (r: bool)
        requires
            self.wf(),
        ensures
            r == self@.registered.contains(key),
    {
        self.registered.get(key).is_some()
    }

    /// Record a quantity value for `key`, exactly as
    /// [`spec_apply_quantity`] says: validation, discard-and-tally on
    /// failure, last-write-wins storage on success. Both direct recording
    /// and replay go through this single path.
    pub fn record_quantity(&mut self, key: u64, value: i64)
        requires
            old(self).wf(),
        ensures
            final(self).wf(),
            final(self)@ == spec_apply_quantity(old(self)@, key, value),
    {
        if value < 0 {
            let c: i32 = match self.invalid.get(key) {
                Some(c) => c,
                None => 0,
            };
            let next: i32 = if c == i32::MAX {
                c
            } else {
                c + 1
            };
            self.invalid.upsert(key, next);
        } else {
            self.values.upsert(key, value);
        }
    }

    /// The currently stored value for `key`, if any.
    pub fn get_value(&self, key: u64) -> (r: Option<i64>)
        requires
            self.wf(),
        ensures
            r == if self@.values.contains_key(key) {
                Some(self@.values[key])
            } else {
                None::<i64>
            },
    {
        self.values.get(key)
    }

    /// How many invalid-value errors the store holds for `key`.
    pub fn invalid_error_count(&self, key: u64) -> (r: i32)
        requires
            self.wf(),
        ensures
            r == invalid_count(self@, key),
    {
        match self.invalid.get(key) {
            Some(c) => c,
            None => 0,
        }
    }
}

} // verus!
