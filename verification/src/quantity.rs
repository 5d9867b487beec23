//! A quantity metric: records a single non-negative numeric value of a
//! specific unit. The handle's role is fixed at construction from the
//! process's IPC role, and recording never fails from the caller's
//! perspective, whichever role dispatches the write.

use vstd::prelude::*;

use crate::common::{BaseMetricId, ChildMetricMeta, CommonMetricData, MetricId, MetricMetadata};
use crate::diagnostics::{count_of, saturating_inc_u64, DiagnosticsSink};
use crate::ipc::IpcState;
use crate::store::{invalid_count, spec_apply_quantity, ErrorType, MetricStore, StoreView};

verus! {

/// A quantity metric handle.
///
/// Exactly one role is active per handle, chosen at construction and never
/// mutated: `Parent` writes directly into the authoritative store and is
/// valid only in the privileged process; `UnorderedChild` buffers
/// last-write-wins values for replay, because quantity setting is
/// idempotent and safe to merge out of order; `Child` is the default child
/// role for a handle constructed without unordered-IPC support, whose
/// writes are dropped and diagnosed.
#[derive(Clone, Debug)]
pub enum QuantityMetric {
    Parent { id: MetricId, name: String, category: String },
    Child(ChildMetricMeta),
    UnorderedChild(ChildMetricMeta),
}

impl QuantityMetric {
    /// Create a new quantity metric. In the privileged process the handle
    /// writes into the store, which registers the metric; in any other
    /// process the handle keeps only a descriptor, and its writes are
    /// dropped and diagnosed, since plain quantity metrics do not support
    /// cross-process forwarding.
    pub fn new(ipc: &IpcState, store: &mut MetricStore, id: BaseMetricId, meta: CommonMetricData)
        -> (r: Self)
        requires
            old(store).wf(),
        ensures
            final(store).wf(),
            ipc.ipc_needed ==> (r matches QuantityMetric::Child(m) && m.id == id && m.name
                == meta.name && m.category == meta.category) && final(store)@ == old(store)@,
            !ipc.ipc_needed ==> (r matches QuantityMetric::Parent { id: rid, name, category }
                && rid == MetricId::Id(id) && name == meta.name && category == meta.category)
                && final(store)@ == (StoreView {
                registered: old(store)@.registered.insert(id.0 as u64),
                ..old(store)@
            }),
    {
        if ipc.need_ipc() {
            QuantityMetric::Child(ChildMetricMeta::from_common_metric_data(id, meta))
        } else {
            store.register(id.0 as u64);
            QuantityMetric::Parent {
                id: MetricId::Id(id),
                name: meta.name,
                category: meta.category,
            }
        }
    }

    /// Create a new quantity metric that opts in to unordered IPC: in a
    /// non-privileged process the handle buffers writes for replay instead
    /// of dropping them. Safe only because a quantity set is
    /// last-write-wins; the kind author opts in explicitly.
    pub fn with_unordered_ipc(
        ipc: &IpcState,
        store: &mut MetricStore,
        id: BaseMetricId,
        meta: CommonMetricData,
    ) -> (r: Self)
        requires
            old(store).wf(),
        ensures
            final(store).wf(),
            ipc.ipc_needed ==> (r matches QuantityMetric::UnorderedChild(m) && m.id == id
                && m.name == meta.name && m.category == meta.category) && final(store)@
                == old(store)@,
            !ipc.ipc_needed ==> (r matches QuantityMetric::Parent { id: rid, name, category }
                && rid == MetricId::Id(id) && name == meta.name && category == meta.category)
                && final(store)@ == (StoreView {
                registered: old(store)@.registered.insert(id.0 as u64),
                ..old(store)@
            }),
    {
        if ipc.need_ipc() {
            QuantityMetric::UnorderedChild(ChildMetricMeta::from_common_metric_data(id, meta))
        } else {
            Self::new(ipc, store, id, meta)
        }
    }

    /// The child-role handle for this parent metric, as a child process
    /// would construct it.
    pub fn child_metric(&self) -> (r: Self)
        requires
            self matches QuantityMetric::Parent { id, .. } && id matches MetricId::Id(_),
        ensures
            (self matches QuantityMetric::Parent { id: MetricId::Id(base), name, category } ==> (
            r matches QuantityMetric::Child(m) && m.id == base && m.name == name && m.category
                == category)),
    {
        match self {
            QuantityMetric::Parent { id, name, category } => {
                let base: BaseMetricId = match id.base_metric_id() {
                    Some(base) => base,
                    None => unreached(),
                };
                QuantityMetric::Child(
                    ChildMetricMeta { id: base, name: name.clone(), category: category.clone() },
                )
            },
            _ => unreached(),
        }
    }

    /// Naming data for labeling this metric in diagnostics output.
    pub fn get_metadata(&self) -> (r: MetricMetadata)
        ensures
            (self matches QuantityMetric::Parent { name, category, .. } ==> r.name == name
                && r.category == category),
            (self matches QuantityMetric::Child(m) ==> r.name == m.name && r.category
                == m.category),
            (self matches QuantityMetric::UnorderedChild(m) ==> r.name == m.name && r.category
                == m.category),
    {
        match self {
            QuantityMetric::Parent { name, category, .. } => MetricMetadata {
                category: category.clone(),
                name: name.clone(),
            },
            QuantityMetric::Child(m) => MetricMetadata {
                category: m.category.clone(),
                name: m.name.clone(),
            },
            QuantityMetric::UnorderedChild(m) => MetricMetadata {
                category: m.category.clone(),
                name: m.name.clone(),
            },
        }
    }

    /// Set the value. Must be non-negative; a negative value is discarded
    /// and tallied as an invalid-value error. Never fails from the caller's
    /// perspective, whatever the handle's role:
    ///
    /// - `Parent` validates and applies atomically to the store;
    /// - `Child` never touches store or buffer and tallies the dropped
    ///   write in the diagnostics sink (under automation such misuse is a
    ///   hard failure, which the caller rules out up front);
    /// - `UnorderedChild` validates identically and upserts into the
    ///   payload buffer, overwriting any pending value for this metric.
    pub fn set(
        &self,
        ipc: &mut IpcState,
        store: &mut MetricStore,
        sink: &mut DiagnosticsSink,
        value: i64,
    )
        requires
            old(ipc).wf(),
            old(store).wf(),
            old(sink).wf(),
            self matches QuantityMetric::Child(_) ==> !old(ipc).automation,
        ensures
            final(ipc).wf(),
            final(store).wf(),
            final(sink).wf(),
            (self matches QuantityMetric::Parent { id, .. } ==> final(store)@
                == spec_apply_quantity(old(store)@, id.key_spec(), value)
                && *final(ipc) == *old(ipc) && *final(sink) == *old(sink)),
            (self matches QuantityMetric::Child(m) ==> *final(store) == *old(store)
                && *final(ipc) == *old(ipc)
                && final(sink).dropped@ == old(sink).dropped@.insert(
                m.id.0 as u64,
                saturating_inc_u64(count_of(old(sink).dropped@, m.id.0 as u64)),
            ) && final(sink).invalid@ == old(sink).invalid@),
            (self matches QuantityMetric::UnorderedChild(m) ==> *final(store) == *old(store)
                && final(ipc).ipc_needed == old(ipc).ipc_needed
                && final(ipc).automation == old(ipc).automation
                && (value >= 0 ==> final(ipc).payload.quantities@
                == old(ipc).payload.quantities@.insert(m.id.0 as u64, value)
                && *final(sink) == *old(sink))
                && (value < 0 ==> *final(ipc) == *old(ipc)
                && final(sink).invalid@ == old(sink).invalid@.insert(
                m.id.0 as u64,
                saturating_inc_u64(count_of(old(sink).invalid@, m.id.0 as u64)),
            ) && final(sink).dropped@ == old(sink).dropped@)),
    {
        match self {
            QuantityMetric::Parent { id, .. } => {
                let key: u64 = id.key();
                store.record_quantity(key, value);
            },
            QuantityMetric::Child(m) => {
                sink.note_dropped(m.id.0 as u64);
            },
            QuantityMetric::UnorderedChild(m) => {
                if value >= 0 {
                    ipc.payload.record_quantity(m.id, value);
                } else {
                    sink.note_invalid(m.id.0 as u64);
                }
            },
        }
    }

    /// **Test-only API.** The number of recorded errors of the given kind
    /// for this metric. Quantity recording produces only
    /// `ErrorType::InvalidValue` tallies.
    pub fn test_get_num_recorded_errors(&self, store: &MetricStore, error: ErrorType) -> (r: i32)
        requires
            store.wf(),
            self matches QuantityMetric::Parent { .. },
        ensures
            (self matches QuantityMetric::Parent { id, .. } ==> r == if error
                == ErrorType::InvalidValue {
                invalid_count(store@, id.key_spec())
            } else {
                0
            }),
    {
        match self {
            QuantityMetric::Parent { id, .. } => {
                if error == ErrorType::InvalidValue {
                    store.invalid_error_count(id.key())
                } else {
                    0
                }
            },
            _ => unreached(),
        }
    }

    /// **Test-only API.** The currently stored value, without clearing it.
    /// The store of this subsystem is not partitioned by ping, so the ping
    /// name does not narrow the lookup.
    pub fn test_get_value(&self, store: &MetricStore, _ping_name: Option<String>) -> (r: Option<
        i64,
    >)
        requires
            store.wf(),
            self matches QuantityMetric::Parent { .. },
        ensures
            (self matches QuantityMetric::Parent { id, .. } ==> r == if store@.values.contains_key(
                id.key_spec(),
            ) {
                Some(store@.values[id.key_spec()])
            } else {
                None::<i64>
            }),
    {
        match self {
            QuantityMetric::Parent { id, .. } => store.get_value(id.key()),
            _ => unreached(),
        }
    }
}

} // verus!
