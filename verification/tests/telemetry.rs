use rlmesh::model::telemetry::{
    telemetry_summary_to_proto, HostMetricSummary, HostTimingSummary, MetricKey, MetricKind, RouteIds,
    TelemetrySummaryEvent, Unit,
};

fn bits(value: f64) -> Option<u64> {
    Some(value.to_bits())
}

fn route() -> RouteIds {
    RouteIds {
        route_id: "route-1".to_string(),
        env_component_id: "env-1".to_string(),
        model_component_id: "model-1".to_string(),
    }
}

fn sample_summary() -> TelemetrySummaryEvent {
    TelemetrySummaryEvent {
        session_id: "sess-1".to_string(),
        route: route(),
        total_seconds: 12,
        sample_count: 100,
        steps_per_second: bits(8.5),
        request_bytes_per_second: bits(1024.0),
        response_bytes_per_second: bits(2048.0),
        timings: vec![
            HostTimingSummary {
                operation: "model.predict".to_string(),
                component_id: "model-1".to_string(),
                name: "rpc.total".to_string(),
                sample_count: 100,
                avg_ms: bits(3.0),
                p50_ms: bits(2.5),
                p95_ms: bits(6.0),
                p99_ms: bits(9.0),
            },
            HostTimingSummary {
                operation: "env.reset".to_string(),
                component_id: "env-1".to_string(),
                name: "endpoint.total".to_string(),
                sample_count: 4,
                avg_ms: bits(1.0),
                p50_ms: None,
                p95_ms: None,
                p99_ms: None,
            },
        ],
        metrics: vec![HostMetricSummary {
            operation: "env.step".to_string(),
            component_id: "env-1".to_string(),
            name: "batch.size".to_string(),
            kind: MetricKind::Number,
            sample_count: 100,
            avg: bits(4.0),
            p50: bits(4.0),
            p95: bits(4.0),
            p99: bits(4.0),
        }],
        env_latency_ms_avg: bits(1.2),
        env_latency_ms_p50: bits(1.0),
        env_latency_ms_p95: bits(2.0),
        env_latency_ms_p99: bits(3.0),
        model_latency_ms_avg: bits(2.8),
        model_latency_ms_p50: bits(2.5),
        model_latency_ms_p95: bits(5.5),
        model_latency_ms_p99: bits(8.5),
        round_trip_ms_avg: bits(4.0),
        round_trip_ms_p50: bits(3.5),
        round_trip_ms_p95: bits(7.5),
        round_trip_ms_p99: bits(11.5),
        reconnects: 0,
        drops: 0,
    }
}

#[test]
fn maps_top_level_fields_and_marks_session_total() {
    let window = telemetry_summary_to_proto(&sample_summary());
    assert_eq!(window.session_id, "sess-1");
    assert_eq!(window.route_id, "route-1");
    assert_eq!(window.env_component_id, "env-1");
    assert_eq!(window.model_component_id, "model-1");
    assert_eq!(window.window_seconds, 12);
    assert_eq!(window.sample_count, 100);
    assert_eq!(window.steps_per_second, bits(8.5));
    assert_eq!(window.request_bytes_per_second, bits(1024.0));
    assert_eq!(window.response_bytes_per_second, bits(2048.0));
    assert!(window.is_session_total);
}

#[test]
fn maps_host_timing_rows_with_key_and_key_name() {
    let window = telemetry_summary_to_proto(&sample_summary());
    let rpc = window.timings.iter().find(|t| t.key_name == "rpc.total").expect("rpc.total row present");
    assert_eq!(rpc.key, MetricKey::RpcTotal);
    assert_eq!(rpc.operation, "model.predict");
    assert_eq!(rpc.component_id, "model-1");
    assert_eq!(rpc.sample_count, 100);
    assert_eq!(rpc.avg_ms, bits(3.0));
    assert_eq!(rpc.p99_ms, bits(9.0));

    let endpoint =
        window.timings.iter().find(|t| t.key_name == "endpoint.total").expect("endpoint.total row present");
    assert_eq!(endpoint.key, MetricKey::EndpointTotal);
    assert_eq!(endpoint.p50_ms, None);
}

#[test]
fn appends_phase_split_rows() {
    let window = telemetry_summary_to_proto(&sample_summary());

    let model_wait = window.timings.iter().find(|t| t.key == MetricKey::ModelWait).expect("model_wait row present");
    assert_eq!(model_wait.key_name, "model.wait");
    assert_eq!(model_wait.avg_ms, bits(2.8));
    assert_eq!(model_wait.p99_ms, bits(8.5));

    let env_step = window.timings.iter().find(|t| t.key == MetricKey::EnvStep).expect("env_step row present");
    assert_eq!(env_step.key_name, "env.step.phase");
    assert_eq!(env_step.avg_ms, bits(1.2));

    let round_trip = window.timings.iter().find(|t| t.key == MetricKey::RoundTrip).expect("round_trip row present");
    assert_eq!(round_trip.key_name, "round.trip");
    assert_eq!(round_trip.avg_ms, bits(4.0));
    assert_eq!(round_trip.p95_ms, bits(7.5));
}

#[test]
fn empty_phase_split_rows_are_omitted() {
    let mut summary = sample_summary();
    summary.model_latency_ms_avg = None;
    summary.model_latency_ms_p50 = None;
    summary.model_latency_ms_p95 = None;
    summary.model_latency_ms_p99 = None;
    summary.env_latency_ms_avg = None;
    summary.env_latency_ms_p50 = None;
    summary.env_latency_ms_p95 = None;
    summary.env_latency_ms_p99 = None;
    summary.round_trip_ms_avg = None;
    summary.round_trip_ms_p50 = None;
    summary.round_trip_ms_p95 = None;
    summary.round_trip_ms_p99 = None;

    let window = telemetry_summary_to_proto(&summary);
    for key in [MetricKey::ModelWait, MetricKey::EnvStep, MetricKey::RoundTrip] {
        assert!(!window.timings.iter().any(|t| t.key == key), "phase {key:?} with no timing must be omitted");
    }
    assert!(window.timings.iter().any(|t| t.key_name == "rpc.total"));
}

#[test]
fn maps_metric_rows_with_unit_from_kind() {
    let window = telemetry_summary_to_proto(&sample_summary());
    assert_eq!(window.metrics.len(), 1);
    let batch = &window.metrics[0];
    assert_eq!(batch.key, MetricKey::BatchSize);
    assert_eq!(batch.key_name, "batch.size");
    assert_eq!(batch.unit, Unit::Count);
    assert_eq!(batch.sample_count, 100);
    assert_eq!(batch.avg, bits(4.0));
}

#[test]
fn unrecognized_name_falls_back_to_unspecified_with_key_name() {
    let mut summary = sample_summary();
    summary.timings.push(HostTimingSummary {
        operation: "custom.op".to_string(),
        component_id: "env-1".to_string(),
        name: "experimental.metric".to_string(),
        sample_count: 1,
        avg_ms: bits(0.5),
        p50_ms: None,
        p95_ms: None,
        p99_ms: None,
    });
    let window = telemetry_summary_to_proto(&summary);
    let custom = window.timings.iter().find(|t| t.key_name == "experimental.metric").expect("custom row present");
    assert_eq!(custom.key, MetricKey::Unspecified);
}

#[test]
fn byte_count_kind_maps_to_bytes_unit() {
    let mut summary = sample_summary();
    summary.metrics.push(HostMetricSummary {
        operation: "model.predict".to_string(),
        component_id: "model-1".to_string(),
        name: "request.bytes".to_string(),
        kind: MetricKind::ByteCount,
        sample_count: 100,
        avg: bits(512.0),
        p50: bits(500.0),
        p95: bits(600.0),
        p99: bits(700.0),
    });
    let window = telemetry_summary_to_proto(&summary);
    let bytes = window.metrics.iter().find(|m| m.key_name == "request.bytes").expect("bytes row present");
    assert_eq!(bytes.unit, Unit::Bytes);
    assert_eq!(bytes.key, MetricKey::Unspecified);
}

#[test]
fn phase_rows_follow_the_host_rows_in_a_fixed_order() {
    let window = telemetry_summary_to_proto(&sample_summary());
    let keys: Vec<MetricKey> = window.timings.iter().map(|t| t.key).collect();
    assert_eq!(
        keys,
        vec![MetricKey::RpcTotal, MetricKey::EndpointTotal, MetricKey::ModelWait, MetricKey::EnvStep, MetricKey::RoundTrip]
    );
    assert_eq!(window.timings[2].operation, "model.predict");
    assert_eq!(window.timings[2].component_id, "model-1");
    assert_eq!(window.timings[3].operation, "env.step");
    assert_eq!(window.timings[4].operation, "step");
    assert_eq!(window.timings[4].component_id, "env-1");
    assert_eq!(window.timings[4].sample_count, 100);
}
