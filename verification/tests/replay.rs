use metrics_ipc::common::{BaseMetricId, CommonMetricData, Lifetime};
use metrics_ipc::diagnostics::DiagnosticsSink;
use metrics_ipc::ipc::{replay_from_buf, IpcState, ReplayError};
use metrics_ipc::quantity::QuantityMetric;
use metrics_ipc::store::MetricStore;

fn meta(name: &str) -> CommonMetricData {
    CommonMetricData {
        name: name.to_string(),
        category: "test_only.ipc".to_string(),
        send_in_pings: vec!["test-ping".to_string()],
        lifetime: Lifetime::Ping,
        disabled: false,
    }
}

#[test]
fn buffered_last_write_wins() {
    let ipc = IpcState::new(false, false);
    let mut store = MetricStore::new();
    let mut sink = DiagnosticsSink::new();

    let parent = QuantityMetric::with_unordered_ipc(
        &ipc,
        &mut store,
        BaseMetricId(11),
        meta("an_unordered_quantity"),
    );

    let mut child_ipc = IpcState::new(true, false);
    let child = QuantityMetric::with_unordered_ipc(
        &child_ipc,
        &mut store,
        BaseMetricId(11),
        meta("an_unordered_quantity"),
    );
    child.set(&mut child_ipc, &mut store, &mut sink, 1);
    child.set(&mut child_ipc, &mut store, &mut sink, 2);
    child.set(&mut child_ipc, &mut store, &mut sink, 3);

    // Only the last pending value survives in the buffer.
    assert_eq!(vec![(11, 3)], child_ipc.inspect_buffer());

    let buf = child_ipc.take_buf().unwrap();
    assert!(replay_from_buf(&mut store, &buf).is_ok());
    assert_eq!(3, parent.test_get_value(&store, None).unwrap());
}

#[test]
fn replay_empty_buffer_is_noop() {
    let mut ipc = IpcState::new(false, false);
    let mut store = MetricStore::new();
    let mut sink = DiagnosticsSink::new();

    let parent = QuantityMetric::new(&ipc, &mut store, BaseMetricId(12), meta("a_quantity"));
    parent.set(&mut ipc, &mut store, &mut sink, 15);

    let mut child_ipc = IpcState::new(true, false);
    let buf = child_ipc.take_buf().unwrap();
    assert!(replay_from_buf(&mut store, &buf).is_ok());

    assert_eq!(15, parent.test_get_value(&store, None).unwrap());
}

#[test]
fn corrupted_buffer_fails_decode() {
    let mut ipc = IpcState::new(false, false);
    let mut store = MetricStore::new();
    let mut sink = DiagnosticsSink::new();

    let parent = QuantityMetric::new(&ipc, &mut store, BaseMetricId(13), meta("a_quantity"));
    parent.set(&mut ipc, &mut store, &mut sink, 15);

    // Too short to hold even a header.
    let r = replay_from_buf(&mut store, &vec![]);
    assert!(matches!(r, Err(ReplayError::Decode)));

    // Wrong version byte.
    let r = replay_from_buf(&mut store, &vec![9, 0, 0, 0, 0, 0, 0, 0, 0]);
    assert!(matches!(r, Err(ReplayError::Decode)));

    // Entry count that doesn't match the buffer's length.
    let r = replay_from_buf(&mut store, &vec![1, 2, 0, 0, 0, 0, 0, 0, 0]);
    assert!(matches!(r, Err(ReplayError::Decode)));

    // A truncated but otherwise valid buffer.
    let mut child_ipc = IpcState::new(true, false);
    let child = QuantityMetric::with_unordered_ipc(
        &child_ipc,
        &mut store,
        BaseMetricId(13),
        meta("a_quantity"),
    );
    child.set(&mut child_ipc, &mut store, &mut sink, 30);
    let mut buf = child_ipc.take_buf().unwrap();
    buf.pop();
    let r = replay_from_buf(&mut store, &buf);
    assert!(matches!(r, Err(ReplayError::Decode)));

    // A value above i64::MAX on the wire.
    let mut buf = vec![1, 1, 0, 0, 0, 0, 0, 0, 0, 13, 0, 0, 0];
    buf.extend_from_slice(&[0xff; 8]);
    let r = replay_from_buf(&mut store, &buf);
    assert!(matches!(r, Err(ReplayError::Decode)));

    // The store is unchanged by all the failed replays.
    assert_eq!(15, parent.test_get_value(&store, None).unwrap());
}

#[test]
fn take_buffer_empties_pending() {
    let mut child_ipc = IpcState::new(true, false);
    let mut store = MetricStore::new();
    let mut sink = DiagnosticsSink::new();

    let child = QuantityMetric::with_unordered_ipc(
        &child_ipc,
        &mut store,
        BaseMetricId(14),
        meta("an_unordered_quantity"),
    );
    child.set(&mut child_ipc, &mut store, &mut sink, 5);
    assert_eq!(1, child_ipc.inspect_buffer().len());

    let first = child_ipc.take_buf().unwrap();
    assert!(child_ipc.inspect_buffer().is_empty());

    // A second take yields the encoding of zero entries, and replaying
    // either buffer in either order still succeeds.
    let second = child_ipc.take_buf().unwrap();
    assert!(first.len() > second.len());
    assert!(replay_from_buf(&mut store, &second).is_ok());
}

#[test]
fn serialized_form_is_stable() {
    let mut child_ipc = IpcState::new(true, false);
    let mut store = MetricStore::new();
    let mut sink = DiagnosticsSink::new();

    let child = QuantityMetric::with_unordered_ipc(
        &child_ipc,
        &mut store,
        BaseMetricId(5),
        meta("an_unordered_quantity"),
    );
    child.set(&mut child_ipc, &mut store, &mut sink, 14);

    let buf = child_ipc.take_buf().unwrap();
    // Version byte, entry count as eight little-endian bytes, then per
    // entry four key bytes and eight value bytes.
    assert_eq!(
        vec![1, 1, 0, 0, 0, 0, 0, 0, 0, 5, 0, 0, 0, 14, 0, 0, 0, 0, 0, 0, 0],
        buf
    );
}

#[test]
fn unknown_id_is_skipped() {
    let mut child_ipc = IpcState::new(true, false);
    let mut store = MetricStore::new();
    let mut sink = DiagnosticsSink::new();

    // The metric only ever existed in the child process, so the store
    // never registered it.
    let child = QuantityMetric::with_unordered_ipc(
        &child_ipc,
        &mut store,
        BaseMetricId(15),
        meta("an_unordered_quantity"),
    );
    child.set(&mut child_ipc, &mut store, &mut sink, 7);

    let buf = child_ipc.take_buf().unwrap();
    // The entry is skipped, not fatal to the replay.
    assert!(replay_from_buf(&mut store, &buf).is_ok());

    let parent_ipc = IpcState::new(false, false);
    let parent = QuantityMetric::new(&parent_ipc, &mut store, BaseMetricId(15), meta("a_quantity"));
    assert!(parent.test_get_value(&store, None).is_none());
}

#[test]
fn invalid_buffered_value_is_discarded() {
    let mut child_ipc = IpcState::new(true, false);
    let mut store = MetricStore::new();
    let mut sink = DiagnosticsSink::new();

    let child = QuantityMetric::with_unordered_ipc(
        &child_ipc,
        &mut store,
        BaseMetricId(16),
        meta("an_unordered_quantity"),
    );
    child.set(&mut child_ipc, &mut store, &mut sink, -5);

    assert_eq!(1, sink.invalid_count(16));
    assert_eq!(0, sink.dropped_count(16));
    assert!(child_ipc.inspect_buffer().is_empty());
}

#[test]
fn scoped_override_restores_prior_value() {
    let mut ipc = IpcState::new(false, false);
    assert!(!ipc.need_ipc());

    let outer = ipc.test_set_need_ipc(true);
    assert!(ipc.need_ipc());

    let inner = ipc.test_set_need_ipc(false);
    assert!(!ipc.need_ipc());
    inner.restore(&mut ipc);
    assert!(ipc.need_ipc());

    outer.restore(&mut ipc);
    assert!(!ipc.need_ipc());
}
