//! Cross-process metric recording with deferred replay.
//!
//! A metric value recorded in a non-privileged process cannot be written into
//! the authoritative metric store, which lives only in the privileged process.
//! Metric handles therefore come in three roles, fixed at construction time:
//! a *Parent* handle writes directly into the store; an *UnorderedChild*
//! handle buffers last-write-wins values into a process-wide payload that is
//! later serialized, carried across the process boundary, and replayed
//! against the store; and a plain *Child* handle, for metric kinds whose
//! accumulation semantics are unsafe to merge out of order, drops the write
//! and tallies the drop in a diagnostics sink.

pub mod assoc;
pub mod codec;
pub mod common;
pub mod diagnostics;
pub mod ipc;
pub mod quantity;
pub mod store;
