//! Process-wide cross-process support state: the role flag that says
//! whether recording in this process must forward over IPC, the payload
//! buffer of pending unordered writes, the serialization of that buffer,
//! and the replay engine that applies a received buffer to the
//! authoritative store in the privileged process.

use vstd::prelude::*;

use crate::assoc::{lemma_map_of_contains, lemma_map_of_index, map_of, unique_keys, AssocList};
use crate::codec::{decode_pairs, decode_spec, encode_pairs, encode_pairs_spec,
    lemma_encode_decode_round_trip};
use crate::common::BaseMetricId;
use crate::store::{spec_apply_quantity, MetricStore, StoreView};

verus! {

/// Why a replay failed as a whole. Per-entry problems (an unknown metric
/// key) are skipped, not fatal.
#[derive(Clone, Copy, PartialEq, Eq, Structural, Debug)]
pub enum ReplayError {
    Decode,
}

/// The pending cross-process writes of this process, keyed by metric key:
/// at most one entry per key, a later write for the same key overwrites an
/// earlier one.
pub struct IpcPayload {
    pub quantities: AssocList<i64>,
}

impl IpcPayload {
    /// Keys are unique, fit the wire format, and hold only validated
    /// (non-negative) values.
    pub open spec fn wf(self) -> bool {
        &&& self.quantities.wf()
        &&& forall|k: u64| #[trigger]
            self.quantities@.contains_key(k) ==> k < 0x1_0000_0000 && self.quantities@[k] >= 0
    }

    pub fn new() -> (r: Self)
        ensures
            r.wf(),
            r.quantities@ == Map::<u64, i64>::empty(),
            r.quantities.pairs@.len() == 0,
    {
        IpcPayload { quantities: AssocList::new() }
    }

    /// Buffer `value` for `id`, overwriting any pending value for the same
    /// metric: last write wins.
    pub fn record_quantity(&mut self, id: BaseMetricId, value: i64)
        requires
            old(self).wf(),
            value >= 0,
        ensures
            final(self).wf(),
            final(self).quantities@ == old(self).quantities@.insert(id.0 as u64, value),
    {
        self.quantities.upsert(id.0 as u64, value);
    }
}

/// The cross-process role and buffer state of one process. Created once at
/// process start (or test setup) and passed explicitly to every operation
/// that depends on it.
pub struct IpcState {
    /// Whether recording in this process must forward over IPC instead of
    /// writing into the store. Fixed for the process lifetime, except under
    /// a scoped test override.
    pub ipc_needed: bool,
    /// Whether this process runs under automation, where misuse of a
    /// non-forwarding metric escalates to a hard failure.
    pub automation: bool,
    pub payload: IpcPayload,
}

/// The saved prior value of a scoped [`IpcState::test_set_need_ipc`]
/// override; [`NeedIpcOverride::restore`] puts it back.
pub struct NeedIpcOverride {
    pub prior: bool,
}

impl NeedIpcOverride {
    /// End the scope of an override: the flag returns to the value it had
    /// when the override was taken, whatever happened in between.
    pub fn restore(self, state: &mut IpcState)
        ensures
            final(state).ipc_needed == self.prior,
            final(state).automation == old(state).automation,
            final(state).payload == old(state).payload,
    {
        state.ipc_needed = self.prior;
    }
}

impl IpcState {
    pub open spec fn wf(self) -> bool {
        self.payload.wf()
    }

    pub fn new(need_ipc: bool, automation: bool) -> (r: Self)
        ensures
            r.wf(),
            r.ipc_needed == need_ipc,
            r.automation == automation,
            r.payload.quantities@ == Map::<u64, i64>::empty(),
            r.payload.quantities.pairs@.len() == 0,
    {
        IpcState { ipc_needed: need_ipc, automation, payload: IpcPayload::new() }
    }

    /// Does recording in this process require IPC forwarding?
    pub fn need_ipc(&self) -> (r: bool)
        ensures
            r == self.ipc_needed,
    {
        self.ipc_needed
    }

    pub fn is_in_automation(&self) -> (r: bool)
        ensures
            r == self.automation,
    {
        self.automation
    }

    /// Override the role flag for a test scope. The returned override holds
    /// the prior value; restoring it puts the flag back.
    pub fn test_set_need_ipc(&mut self, value: bool) -> (guard: NeedIpcOverride)
        ensures
            final(self).ipc_needed == value,
            final(self).automation == old(self).automation,
            final(self).payload == old(self).payload,
            guard.prior == old(self).ipc_needed,
    {
        let prior: bool = self.ipc_needed;
        self.ipc_needed = value;
        NeedIpcOverride { prior }
    }

    /// Swap the payload buffer for an empty one and hand back the previous
    /// contents in serialized form. Safe to call on an empty buffer, which
    /// yields the (non-empty) encoding of zero entries.
    pub fn take_buf(&mut self) -> (r: Option<Vec<u8>>)
        requires
            old(self).wf(),
        ensures
            final(self).wf(),
            r matches Some(buf) && buf@ == encode_pairs_spec(old(self).payload.quantities.pairs@),
            final(self).payload.quantities@ == Map::<u64, i64>::empty(),
            final(self).payload.quantities.pairs@.len() == 0,
            final(self).ipc_needed == old(self).ipc_needed,
            final(self).automation == old(self).automation,
    {
        proof {
            let pairs = self.payload.quantities.pairs@;
            assert forall|i: int| 0 <= i < pairs.len() implies pairs[i].0 < 0x1_0000_0000
                && pairs[i].1 >= 0 by {
                lemma_map_of_index(pairs, i);
                let k = pairs[i].0;
                assert(self.payload.quantities@.contains_key(k));
                assert(k < 0x1_0000_0000 && self.payload.quantities@[k] >= 0);
            }
        }
        let bytes = encode_pairs(&self.payload.quantities.pairs);
        self.payload.quantities = AssocList::new();
        Some(bytes)
    }

    /// Read the pending pairs without clearing them. Test and debug use
    /// only: production code drains the buffer through [`IpcState::take_buf`].
    pub fn inspect_buffer(&self) -> (r: Vec<(u64, i64)>)
        ensures
            r@ == self.payload.quantities.pairs@,
    {
        let n: usize = self.payload.quantities.pairs.len();
        let mut out: Vec<(u64, i64)> = Vec::new();
        let mut i: usize = 0;
        while i < n
            invariant
                n == self.payload.quantities.pairs@.len(),
                0 <= i <= n,
                out@ =~= self.payload.quantities.pairs@.take(i as int),
            decreases n - i,
        {
            out.push(self.payload.quantities.pairs[i]);
            proof {
                assert(out@ =~= self.payload.quantities.pairs@.take(i as int + 1));
            }
            i = i + 1;
        }
        proof {
            assert(self.payload.quantities.pairs@.take(n as int) =~= self.payload.quantities.pairs@);
        }
        out
    }
}

/// One replayed entry: an entry for an unregistered metric key is skipped,
/// everything else is recorded exactly as a direct write would be.
pub open spec fn apply_entry(m: StoreView, entry: (u64, i64)) -> StoreView {
    if m.registered.contains(entry.0) {
        spec_apply_quantity(m, entry.0, entry.1)
    } else {
        m
    }
}

/// A whole buffer replayed, in order.
pub open spec fn apply_entries(m: StoreView, entries: Seq<(u64, i64)>) -> StoreView
    decreases entries.len(),
{
    if entries.len() == 0 {
        m
    } else {
        apply_entry(apply_entries(m, entries.drop_last()), entries.last())
    }
}

/// Replay a received buffer against the authoritative store. A corrupted
/// buffer is rejected whole, with the store untouched; otherwise every
/// entry is applied as if it had been recorded directly in this process,
/// entries for unregistered metric keys skipped.
pub fn replay_from_buf(store: &mut MetricStore, buf: &Vec<u8>) -> (r: Result<(), ReplayError>)
    requires
        old(store).wf(),
    ensures
        final(store).wf(),
        match decode_spec(buf@) {
            Some(entries) => r is Ok && final(store)@ == apply_entries(old(store)@, entries),
            None => r == Err::<(), ReplayError>(ReplayError::Decode) && final(store)@ == old(
                store,
            )@,
        },
{
    match decode_pairs(buf) {
        None => Err(ReplayError::Decode),
        Some(entries) => {
            let n: usize = entries.len();
            let mut i: usize = 0;
            while i < n
                invariant
                    n == entries@.len(),
                    0 <= i <= n,
                    store.wf(),
                    store@ == apply_entries(old(store)@, entries@.take(i as int)),
                decreases n - i,
            {
                let entry = entries[i];
                if store.is_registered(entry.0) {
                    store.record_quantity(entry.0, entry.1);
                }
                proof {
                    assert(entries@.take(i as int + 1).drop_last() =~= entries@.take(i as int));
                    assert(entries@.take(i as int + 1).last() == entries@[i as int]);
                }
                i = i + 1;
            }
            proof {
                assert(entries@.take(n as int) =~= entries@);
            }
            Ok(())
        },
    }
}

/// Replay preserves which metric keys the store knows.
pub proof fn lemma_apply_entries_registered(m: StoreView, entries: Seq<(u64, i64)>)
    ensures
        apply_entries(m, entries).registered == m.registered,
    decreases entries.len(),
{
    if entries.len() > 0 {
        lemma_apply_entries_registered(m, entries.drop_last());
    }
}

/// The last entry for a registered key decides its stored value: replaying
/// a buffer whose final entry for `entries[i].0` is valid leaves exactly
/// that value in the store, however many earlier entries wrote to the same
/// key.
pub proof fn lemma_apply_entries_last_value(m: StoreView, entries: Seq<(u64, i64)>, i: int)
    requires
        0 <= i < entries.len(),
        forall|j: int| i < j < entries.len() ==> entries[j].0 != entries[i].0,
        m.registered.contains(entries[i].0),
        entries[i].1 >= 0,
    ensures
        apply_entries(m, entries).values.contains_key(entries[i].0),
        apply_entries(m, entries).values[entries[i].0] == entries[i].1,
    decreases entries.len(),
{
    lemma_apply_entries_registered(m, entries.drop_last());
    if i < entries.len() - 1 {
        lemma_apply_entries_last_value(m, entries.drop_last(), i);
        assert(entries.last().0 != entries[i].0);
    }
}

/// Last write wins across the whole pipeline: if the payload buffer holds
/// the pairs `pairs` (unique keys, validated values) and `key` is pending
/// with some value, then the taken buffer decodes back to exactly `pairs`,
/// and replaying it against a store that knows `key` stores exactly the
/// pending — that is, the last recorded — value, regardless of how many
/// values were recorded for `key` before it.
pub proof fn lemma_take_replay_last_write_wins(m: StoreView, pairs: Seq<(u64, i64)>, key: u64)
    requires
        unique_keys(pairs),
        pairs.len() <= u64::MAX,
        forall|k: u64| #[trigger]
            map_of(pairs).contains_key(k) ==> k < 0x1_0000_0000 && map_of(pairs)[k] >= 0,
        map_of(pairs).contains_key(key),
        m.registered.contains(key),
    ensures
        decode_spec(encode_pairs_spec(pairs)) == Some(pairs),
        apply_entries(m, pairs).values.contains_key(key),
        apply_entries(m, pairs).values[key] == map_of(pairs)[key],
{
    assert forall|i: int| 0 <= i < pairs.len() implies pairs[i].0 < 0x1_0000_0000 && pairs[i].1
        >= 0 by {
        lemma_map_of_index(pairs, i);
    }
    lemma_encode_decode_round_trip(pairs);
    lemma_map_of_contains(pairs, key);
    let i = choose|i: int| 0 <= i < pairs.len() && pairs[i].0 == key;
    lemma_map_of_index(pairs, i);
    assert forall|j: int| i < j < pairs.len() implies pairs[j].0 != pairs[i].0 by {
        assert(pairs[i].0 != pairs[j].0);
    }
    lemma_apply_entries_last_value(m, pairs, i);
}

/// Replaying the buffer taken from an empty payload is a no-op: the buffer
/// decodes to zero entries, and applying zero entries returns the store
/// unchanged.
pub proof fn lemma_replay_empty_buffer(m: StoreView)
    ensures
        decode_spec(encode_pairs_spec(Seq::<(u64, i64)>::empty())) == Some(
            Seq::<(u64, i64)>::empty(),
        ),
        apply_entries(m, Seq::<(u64, i64)>::empty()) == m,
{
    lemma_encode_decode_round_trip(Seq::<(u64, i64)>::empty());
}

} // verus!
