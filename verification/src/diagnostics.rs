//! The diagnostics sink: a process-local tally of writes this subsystem had
//! to discard, kept per metric key so that authors can discover misuse
//! through the ordinary metrics-about-metrics path. The sink never forwards
//! anything itself — that would be circular.

use vstd::prelude::*;

use crate::assoc::AssocList;

verus! {

/// The count a tally map holds for `key`.
pub open spec fn count_of(m: Map<u64, u64>, key: u64) -> u64 {
    if m.contains_key(key) {
        m[key]
    } else {
        0
    }
}

pub open spec fn saturating_inc_u64(c: u64) -> u64 {
    if c == u64::MAX {
        c
    } else {
        (c + 1) as u64
    }
}

/// The tally map after `n` consecutive discarded writes for `key`, each
/// counted as [`DiagnosticsSink::note_dropped`] counts one.
pub open spec fn drop_tally(m: Map<u64, u64>, key: u64, n: nat) -> Map<u64, u64>
    decreases n,
{
    if n == 0 {
        m
    } else {
        let prev = drop_tally(m, key, (n - 1) as nat);
        prev.insert(key, saturating_inc_u64(count_of(prev, key)))
    }
}

/// A sequence of discarded writes is counted exactly: `n` drops for `key`
/// grow its tally by exactly `n` (while the counter has room) and touch no
/// other key. Together with the recording contract — a write through a
/// non-forwarding child handle changes neither the store nor the payload
/// buffer and raises `key`'s tally by exactly one step — this pins the
/// whole effect of any such sequence of writes.
pub proof fn lemma_drop_tally_counts(m: Map<u64, u64>, key: u64, n: nat)
    requires
        count_of(m, key) + n <= u64::MAX,
    ensures
        count_of(drop_tally(m, key, n), key) == count_of(m, key) + n,
        forall|k: u64| k != key ==> count_of(drop_tally(m, key, n), k) == count_of(m, k),
    decreases n,
{
    if n > 0 {
        lemma_drop_tally_counts(m, key, (n - 1) as nat);
    }
}

/// Process-local tallies of discarded writes.
pub struct DiagnosticsSink {
    /// Writes dropped because the metric kind does not support
    /// cross-process forwarding.
    pub dropped: AssocList<u64>,
    /// Writes discarded in this process because the value failed
    /// validation before it could be buffered.
    pub invalid: AssocList<u64>,
}

impl DiagnosticsSink {
    pub open spec fn wf(self) -> bool {
        self.dropped.wf() && self.invalid.wf()
    }

    pub fn new() -> (r: Self)
        ensures
            r.wf(),
            r.dropped@ == Map::<u64, u64>::empty(),
            r.invalid@ == Map::<u64, u64>::empty(),
    {
        DiagnosticsSink { dropped: AssocList::new(), invalid: AssocList::new() }
    }

    /// Count one write dropped for lack of forwarding support.
    pub fn note_dropped(&mut self, key: u64)
        requires
            old(self).wf(),
        ensures
            final(self).wf(),
            final(self).dropped@ == old(self).dropped@.insert(
                key,
                saturating_inc_u64(count_of(old(self).dropped@, key)),
            ),
            final(self).invalid@ == old(self).invalid@,
    {
        let c: u64 = match self.dropped.get(key) {
            Some(c) => c,
            None => 0,
        };
        let next: u64 = if c == u64::MAX {
            c
        } else {
            c + 1
        };
        self.dropped.upsert(key, next);
    }

    /// Count one write discarded by validation before buffering.
    pub fn note_invalid(&mut self, key: u64)
        requires
            old(self).wf(),
        ensures
            final(self).wf(),
            final(self).invalid@ == old(self).invalid@.insert(
                key,
                saturating_inc_u64(count_of(old(self).invalid@, key)),
            ),
            final(self).dropped@ == old(self).dropped@,
    {
        let c: u64 = match self.invalid.get(key) {
            Some(c) => c,
            None => 0,
        };
        let next: u64 = if c == u64::MAX {
            c
        } else {
            c + 1
        };
        self.invalid.upsert(key, next);
    }

    pub fn dropped_count(&self, key: u64) -> (r: u64)
        requires
            self.wf(),
        ensures
            r == count_of(self.dropped@, key),
    {
        match self.dropped.get(key) {
            Some(c) => c,
            None => 0,
        }
    }

    pub fn invalid_count(&self, key: u64) -> (r: u64)
        requires
            self.wf(),
        ensures
            r == count_of(self.invalid@, key),
    {
        match self.invalid.get(key) {
            Some(c) => c,
            None => 0,
        }
    }
}

} // verus!
