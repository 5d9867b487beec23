//! Metric identity and configuration: the identifier a metric keeps across
//! the parent/child process split, the static configuration a metric is
//! registered with, and the wire-sized descriptor a child process keeps in
//! place of the full configuration.

use vstd::prelude::*;

verus! {

/// Identifier of a base (unlabeled) metric. The same value identifies the
/// same metric in every process of a run.
#[derive(Clone, Copy, PartialEq, Eq, Structural, Debug)]
pub struct BaseMetricId(pub u32);

/// Identifier of one label of a labeled metric.
#[derive(Clone, Copy, PartialEq, Eq, Structural, Debug)]
pub struct SubMetricId(pub u32);

/// Identifier of a metric or, for labeled metrics, of a (metric, label)
/// pair. Immutable once assigned and unique within a process run.
#[derive(Clone, Copy, PartialEq, Eq, Structural, Debug)]
pub enum MetricId {
    Id(BaseMetricId),
    Sub(SubMetricId),
}

impl MetricId {
    /// The store key of this identity. Base and labeled identifiers map to
    /// disjoint key ranges, so distinct identities never collide.
    pub open spec fn key_spec(self) -> u64 {
        match self {
            MetricId::Id(base) => base.0 as u64,
            MetricId::Sub(sub) => (sub.0 as u64 + 0x1_0000_0000) as u64,
        }
    }

    pub fn key(&self) -> (r: u64)
        ensures
            r == self.key_spec(),
    {
        match self {
            MetricId::Id(base) => base.0 as u64,
            MetricId::Sub(sub) => sub.0 as u64 + 0x1_0000_0000,
        }
    }

    /// The base-metric identifier, for identities that have one.
    pub fn base_metric_id(&self) -> (r: Option<BaseMetricId>)
        ensures
            r == match *self {
                MetricId::Id(base) => Some(base),
                MetricId::Sub(_) => None::<BaseMetricId>,
            },
    {
        match self {
            MetricId::Id(base) => Some(*base),
            MetricId::Sub(_) => None,
        }
    }
}

/// How long a recorded value lives in the store.
#[derive(Clone, Copy, PartialEq, Eq, Structural, Debug)]
pub enum Lifetime {
    Ping,
    Application,
    User,
}

/// Static configuration of a metric: read-only after registration.
#[derive(Clone, Debug)]
pub struct CommonMetricData {
    pub name: String,
    pub category: String,
    pub send_in_pings: Vec<String>,
    pub lifetime: Lifetime,
    pub disabled: bool,
}

/// The subset of a metric's identity and naming that a child process keeps:
/// enough to label diagnostics, and nothing that touches the store.
#[derive(Clone, Debug)]
pub struct ChildMetricMeta {
    pub id: BaseMetricId,
    pub name: String,
    pub category: String,
}

impl ChildMetricMeta {
    pub fn from_common_metric_data(id: BaseMetricId, meta: CommonMetricData) -> (r: Self)
        ensures
            r.id == id,
            r.name == meta.name,
            r.category == meta.category,
    {
        ChildMetricMeta { id, name: meta.name, category: meta.category }
    }
}

/// Naming data for labeling an operation, e.g. in diagnostics output.
#[derive(Clone, Debug)]
pub struct MetricMetadata {
    pub category: String,
    pub name: String,
}

} // verus!
