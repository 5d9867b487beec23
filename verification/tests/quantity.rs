use metrics_ipc::common::{BaseMetricId, CommonMetricData, Lifetime};
use metrics_ipc::diagnostics::DiagnosticsSink;
use metrics_ipc::ipc::{replay_from_buf, IpcState};
use metrics_ipc::quantity::QuantityMetric;
use metrics_ipc::store::{ErrorType, MetricStore};

fn test_meta(name: &str) -> CommonMetricData {
    CommonMetricData {
        name: name.to_string(),
        category: "test_only.ipc".to_string(),
        send_in_pings: vec!["test-ping".to_string(), "store1".to_string()],
        lifetime: Lifetime::Ping,
        disabled: false,
    }
}

#[test]
fn sets_quantity_metric() {
    let mut ipc = IpcState::new(false, false);
    let mut store = MetricStore::new();
    let mut sink = DiagnosticsSink::new();

    let metric = QuantityMetric::new(&ipc, &mut store, BaseMetricId(1), test_meta("a_quantity"));
    metric.set(&mut ipc, &mut store, &mut sink, 14);

    assert_eq!(
        14,
        metric
            .test_get_value(&store, Some("test-ping".to_string()))
            .unwrap()
    );
}

#[test]
fn quantity_no_ipc() {
    // QuantityMetric doesn't support IPC.
    let mut ipc = IpcState::new(false, false);
    let mut store = MetricStore::new();
    let mut sink = DiagnosticsSink::new();

    let parent_metric =
        QuantityMetric::new(&ipc, &mut store, BaseMetricId(2), test_meta("a_quantity"));

    parent_metric.set(&mut ipc, &mut store, &mut sink, 15);

    {
        let child_metric = parent_metric.child_metric();

        // scope for the need_ipc override
        let raii = ipc.test_set_need_ipc(true);

        // Instrumentation calls do not panic.
        child_metric.set(&mut ipc, &mut store, &mut sink, 30);

        // (They also shouldn't do anything,
        // but that's not something we can inspect in this test)
        raii.restore(&mut ipc);
    }

    let buf = ipc.take_buf().unwrap();
    assert!(replay_from_buf(&mut store, &buf).is_ok());

    assert_eq!(15, parent_metric.test_get_value(&store, None).unwrap());
}

#[test]
fn quantity_unordered_ipc() {
    // QuantityMetric::UnorderedChild _does_ support IPC.
    let mut ipc = IpcState::new(false, false);
    let mut store = MetricStore::new();
    let mut sink = DiagnosticsSink::new();

    let parent_metric = QuantityMetric::with_unordered_ipc(
        &ipc,
        &mut store,
        BaseMetricId(3),
        test_meta("an_unordered_quantity"),
    );

    parent_metric.set(&mut ipc, &mut store, &mut sink, 42);

    if let QuantityMetric::Child(meta) = parent_metric.child_metric() {
        let raii = ipc.test_set_need_ipc(true);
        QuantityMetric::UnorderedChild(meta).set(&mut ipc, &mut store, &mut sink, 24);
        raii.restore(&mut ipc);
    } else {
        panic!("Not an ordered child!");
    }

    let buf = ipc.take_buf().unwrap();
    assert!(replay_from_buf(&mut store, &buf).is_ok());

    assert_eq!(
        24,
        parent_metric.test_get_value(&store, None).unwrap(),
        "Quantity metrics can unsafely work in child processes"
    );
}

#[test]
fn direct_set_reflects_last_value() {
    let mut ipc = IpcState::new(false, false);
    let mut store = MetricStore::new();
    let mut sink = DiagnosticsSink::new();

    let metric = QuantityMetric::new(&ipc, &mut store, BaseMetricId(4), test_meta("a_quantity"));
    metric.set(&mut ipc, &mut store, &mut sink, 7);
    metric.set(&mut ipc, &mut store, &mut sink, 9);

    assert_eq!(9, metric.test_get_value(&store, None).unwrap());
}

#[test]
fn negative_value_records_error() {
    let mut ipc = IpcState::new(false, false);
    let mut store = MetricStore::new();
    let mut sink = DiagnosticsSink::new();

    let metric = QuantityMetric::new(&ipc, &mut store, BaseMetricId(5), test_meta("a_quantity"));
    metric.set(&mut ipc, &mut store, &mut sink, -1);

    assert_eq!(
        1,
        metric.test_get_num_recorded_errors(&store, ErrorType::InvalidValue)
    );
    assert_eq!(
        0,
        metric.test_get_num_recorded_errors(&store, ErrorType::InvalidLabel)
    );
    assert!(metric.test_get_value(&store, None).is_none());
}

#[test]
fn unsupported_child_drops_are_counted() {
    let mut parent_ipc = IpcState::new(false, false);
    let mut store = MetricStore::new();
    let mut sink = DiagnosticsSink::new();

    let parent_metric =
        QuantityMetric::new(&parent_ipc, &mut store, BaseMetricId(6), test_meta("a_quantity"));
    parent_metric.set(&mut parent_ipc, &mut store, &mut sink, 15);

    // A separate, non-privileged process.
    let mut child_ipc = IpcState::new(true, false);
    let child_metric = parent_metric.child_metric();
    child_metric.set(&mut child_ipc, &mut store, &mut sink, 30);
    child_metric.set(&mut child_ipc, &mut store, &mut sink, 31);
    child_metric.set(&mut child_ipc, &mut store, &mut sink, 32);

    assert_eq!(3, sink.dropped_count(6));
    assert_eq!(0, sink.invalid_count(6));
    // The store never saw any of the dropped writes.
    assert_eq!(15, parent_metric.test_get_value(&store, None).unwrap());
    // Nothing was buffered either.
    assert!(child_ipc.inspect_buffer().is_empty());
}

#[test]
fn metadata_names_the_metric() {
    let mut store = MetricStore::new();
    let ipc = IpcState::new(false, false);

    let parent_metric =
        QuantityMetric::new(&ipc, &mut store, BaseMetricId(7), test_meta("a_quantity"));
    let meta = parent_metric.get_metadata();
    assert_eq!("a_quantity", meta.name);
    assert_eq!("test_only.ipc", meta.category);

    let child_meta = parent_metric.child_metric().get_metadata();
    assert_eq!("a_quantity", child_meta.name);
    assert_eq!("test_only.ipc", child_meta.category);
}
