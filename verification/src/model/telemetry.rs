//! The runtime's session-total telemetry summary, mapped onto the wire's
//! telemetry window.
//!
//! Every measured quantity (latencies, rates, metric values) is an `f64` in
//! the runtime; here each is carried as its IEEE-754 bit pattern and is only
//! ever copied, never computed on, so the mapping is exact.

use vstd::prelude::*;

use crate::text::same_text;

verus! {

/// The stable key of a timing or metric row.
#[derive(Debug, Clone, Copy, PartialEq, Eq)]
pub enum MetricKey {
    /// A name with no stable key; the row's key name still carries it.
    Unspecified,
    /// The endpoint-local time of an operation.
    EndpointTotal,
    /// The client-observed time of an RPC.
    RpcTotal,
    /// The size of a batch.
    BatchSize,
    /// The wait for the model's answer.
    ModelWait,
    /// The env-step phase of a step.
    EnvStep,
    /// The round trip of one step.
    RoundTrip,
}

/// The unit of a metric row.
#[derive(Debug, Clone, Copy, PartialEq, Eq)]
pub enum Unit {
    /// A number of bytes.
    Bytes,
    /// A plain count.
    Count,
}

/// What a host metric measures.
#[derive(Debug, Clone, Copy, PartialEq, Eq)]
pub enum MetricKind {
    /// A byte count.
    ByteCount,
    /// A plain number.
    Number,
}

/// The ids of the route a summary covers.
#[derive(Debug, Clone, PartialEq, Eq)]
pub struct RouteIds {
    /// The route's id.
    pub route_id: String,
    /// The env component's id.
    pub env_component_id: String,
    /// The model component's id.
    pub model_component_id: String,
}

/// One per-operation timing row of the host summary (milliseconds, as `f64`
/// bit patterns; an absent statistic stays absent).
#[derive(Debug, Clone, PartialEq, Eq)]
pub struct HostTimingSummary {
    /// The timed operation.
    pub operation: String,
    /// The component that ran it.
    pub component_id: String,
    /// The row's canonical name.
    pub name: String,
    /// The number of samples.
    pub sample_count: u64,
    /// The average.
    pub avg_ms: Option<u64>,
    /// The median.
    pub p50_ms: Option<u64>,
    /// The 95th percentile.
    pub p95_ms: Option<u64>,
    /// The 99th percentile.
    pub p99_ms: Option<u64>,
}

/// One metric row of the host summary (values as `f64` bit patterns).
#[derive(Debug, Clone, PartialEq, Eq)]
pub struct HostMetricSummary {
    /// The measured operation.
    pub operation: String,
    /// The component that ran it.
    pub component_id: String,
    /// The row's canonical name.
    pub name: String,
    /// What the metric measures.
    pub kind: MetricKind,
    /// The number of samples.
    pub sample_count: u64,
    /// The average.
    pub avg: Option<u64>,
    /// The median.
    pub p50: Option<u64>,
    /// The 95th percentile.
    pub p95: Option<u64>,
    /// The 99th percentile.
    pub p99: Option<u64>,
}

/// The runtime's session-total telemetry summary (rates and latencies as
/// `f64` bit patterns).
#[derive(Debug, Clone, PartialEq, Eq)]
pub struct TelemetrySummaryEvent {
    /// The session's id.
    pub session_id: String,
    /// The route the session ran.
    pub route: RouteIds,
    /// The session's length in seconds.
    pub total_seconds: u64,
    /// The number of steps sampled.
    pub sample_count: u64,
    /// Steps per second.
    pub steps_per_second: Option<u64>,
    /// Request bytes per second.
    pub request_bytes_per_second: Option<u64>,
    /// Response bytes per second.
    pub response_bytes_per_second: Option<u64>,
    /// The per-operation timing rows.
    pub timings: Vec<HostTimingSummary>,
    /// The metric rows.
    pub metrics: Vec<HostMetricSummary>,
    /// Env-step latency: average.
    pub env_latency_ms_avg: Option<u64>,
    /// Env-step latency: median.
    pub env_latency_ms_p50: Option<u64>,
    /// Env-step latency: 95th percentile.
    pub env_latency_ms_p95: Option<u64>,
    /// Env-step latency: 99th percentile.
    pub env_latency_ms_p99: Option<u64>,
    /// Model latency: average.
    pub model_latency_ms_avg: Option<u64>,
    /// Model latency: median.
    pub model_latency_ms_p50: Option<u64>,
    /// Model latency: 95th percentile.
    pub model_latency_ms_p95: Option<u64>,
    /// Model latency: 99th percentile.
    pub model_latency_ms_p99: Option<u64>,
    /// Round trip: average.
    pub round_trip_ms_avg: Option<u64>,
    /// Round trip: median.
    pub round_trip_ms_p50: Option<u64>,
    /// Round trip: 95th percentile.
    pub round_trip_ms_p95: Option<u64>,
    /// Round trip: 99th percentile.
    pub round_trip_ms_p99: Option<u64>,
    /// The number of reconnects.
    pub reconnects: u64,
    /// The number of dropped samples.
    pub drops: u64,
}

/// One timing row of the wire window.
#[derive(Debug, Clone, PartialEq, Eq)]
pub struct TimingSummary {
    /// The timed operation.
    pub operation: String,
    /// The component that ran it.
    pub component_id: String,
    /// The row's stable key.
    pub key: MetricKey,
    /// The row's canonical name.
    pub key_name: String,
    /// The number of samples.
    pub sample_count: u64,
    /// The average.
    pub avg_ms: Option<u64>,
    /// The median.
    pub p50_ms: Option<u64>,
    /// The 95th percentile.
    pub p95_ms: Option<u64>,
    /// The 99th percentile.
    pub p99_ms: Option<u64>,
}

/// One metric row of the wire window.
#[derive(Debug, Clone, PartialEq, Eq)]
pub struct MetricSummary {
    /// The measured operation.
    pub operation: String,
    /// The component that ran it.
    pub component_id: String,
    /// The row's stable key.
    pub key: MetricKey,
    /// The row's canonical name.
    pub key_name: String,
    /// The row's unit.
    pub unit: Unit,
    /// The number of samples.
    pub sample_count: u64,
    /// The average.
    pub avg: Option<u64>,
    /// The median.
    pub p50: Option<u64>,
    /// The 95th percentile.
    pub p95: Option<u64>,
    /// The 99th percentile.
    pub p99: Option<u64>,
}

/// The wire telemetry window.
#[derive(Debug, Clone, PartialEq, Eq)]
pub struct TelemetryWindow {
    /// The session's id.
    pub session_id: String,
    /// The route's id.
    pub route_id: String,
    /// The env component's id.
    pub env_component_id: String,
    /// The model component's id.
    pub model_component_id: String,
    /// The window's length in seconds.
    pub window_seconds: u64,
    /// The number of steps sampled.
    pub sample_count: u64,
    /// Steps per second.
    pub steps_per_second: Option<u64>,
    /// Request bytes per second.
    pub request_bytes_per_second: Option<u64>,
    /// Response bytes per second.
    pub response_bytes_per_second: Option<u64>,
    /// The timing rows.
    pub timings: Vec<TimingSummary>,
    /// The metric rows.
    pub metrics: Vec<MetricSummary>,
    /// Whether the window covers the whole session.
    pub is_session_total: bool,
}

/// A timing row as values.
pub struct TimingView {
    /// The timed operation.
    pub operation: Seq<char>,
    /// The component that ran it.
    pub component_id: Seq<char>,
    /// The row's stable key.
    pub key: MetricKey,
    /// The row's canonical name.
    pub key_name: Seq<char>,
    /// The number of samples.
    pub sample_count: u64,
    /// The statistics: average, median, 95th and 99th percentile.
    pub stats: (Option<u64>, Option<u64>, Option<u64>, Option<u64>),
}

/// A metric row as values.
pub struct MetricView {
    /// The measured operation.
    pub operation: Seq<char>,
    /// The component that ran it.
    pub component_id: Seq<char>,
    /// The row's stable key.
    pub key: MetricKey,
    /// The row's canonical name.
    pub key_name: Seq<char>,
    /// The row's unit.
    pub unit: Unit,
    /// The number of samples.
    pub sample_count: u64,
    /// The statistics: average, median, 95th and 99th percentile.
    pub stats: (Option<u64>, Option<u64>, Option<u64>, Option<u64>),
}

impl TimingSummary {
    /// This row as values.
    pub open spec fn row(self) -> TimingView {
        TimingView {
            operation: self.operation@,
            component_id: self.component_id@,
            key: self.key,
            key_name: self.key_name@,
            sample_count: self.sample_count,
            stats: (self.avg_ms, self.p50_ms, self.p95_ms, self.p99_ms),
        }
    }
}

impl MetricSummary {
    /// This row as values.
    pub open spec fn row(self) -> MetricView {
        MetricView {
            operation: self.operation@,
            component_id: self.component_id@,
            key: self.key,
            key_name: self.key_name@,
            unit: self.unit,
            sample_count: self.sample_count,
            stats: (self.avg, self.p50, self.p95, self.p99),
        }
    }
}

/// The stable key of a canonical row name; an unrecognized name has none.
pub open spec fn spec_metric_key(name: Seq<char>) -> MetricKey {
    if name == "endpoint.total"@ {
        MetricKey::EndpointTotal
    } else if name == "rpc.total"@ {
        MetricKey::RpcTotal
    } else if name == "batch.size"@ {
        MetricKey::BatchSize
    } else if name == "model.wait"@ {
        MetricKey::ModelWait
    } else if name == "env.step.phase"@ {
        MetricKey::EnvStep
    } else if name == "round.trip"@ {
        MetricKey::RoundTrip
    } else {
        MetricKey::Unspecified
    }
}

/// The unit of a metric of `kind`.
pub open spec fn spec_unit(kind: MetricKind) -> Unit {
    match kind {
        MetricKind::ByteCount => Unit::Bytes,
        MetricKind::Number => Unit::Count,
    }
}

/// The wire row of a host timing row: the host name is the key name, and
/// resolves to the row's key.
pub open spec fn host_timing_row(row: HostTimingSummary) -> TimingView {
    TimingView {
        operation: row.operation@,
        component_id: row.component_id@,
        key: spec_metric_key(row.name@),
        key_name: row.name@,
        sample_count: row.sample_count,
        stats: (row.avg_ms, row.p50_ms, row.p95_ms, row.p99_ms),
    }
}

/// The wire row of a host metric row: its kind picks the unit.
pub open spec fn host_metric_row(row: HostMetricSummary) -> MetricView {
    MetricView {
        operation: row.operation@,
        component_id: row.component_id@,
        key: spec_metric_key(row.name@),
        key_name: row.name@,
        unit: spec_unit(row.kind),
        sample_count: row.sample_count,
        stats: (row.avg, row.p50, row.p95, row.p99),
    }
}

/// Whether a phase carries any timing at all.
pub open spec fn has_timing(stats: (Option<u64>, Option<u64>, Option<u64>, Option<u64>)) -> bool {
    stats.0 is Some || stats.1 is Some || stats.2 is Some || stats.3 is Some
}

/// The row of one phase of the summary's phase split: none when the phase
/// carries no timing at all.
pub open spec fn phase_rows(
    operation: Seq<char>,
    component_id: Seq<char>,
    key: MetricKey,
    key_name: Seq<char>,
    sample_count: u64,
    stats: (Option<u64>, Option<u64>, Option<u64>, Option<u64>),
) -> Seq<TimingView> {
    if has_timing(stats) {
        seq![TimingView { operation, component_id, key, key_name, sample_count, stats }]
    } else {
        Seq::empty()
    }
}

/// The timing rows of the window of `summary`: the host rows in order, then
/// the model-wait, env-step and round-trip phases that carry any timing.
pub open spec fn window_timings(summary: TelemetrySummaryEvent) -> Seq<TimingView> {
    summary.timings@.map_values(|row: HostTimingSummary| host_timing_row(row)) + phase_rows(
        "model.predict"@,
        summary.route.model_component_id@,
        MetricKey::ModelWait,
        "model.wait"@,
        summary.sample_count,
        (
            summary.model_latency_ms_avg,
            summary.model_latency_ms_p50,
            summary.model_latency_ms_p95,
            summary.model_latency_ms_p99,
        ),
    ) + phase_rows(
        "env.step"@,
        summary.route.env_component_id@,
        MetricKey::EnvStep,
        "env.step.phase"@,
        summary.sample_count,
        (summary.env_latency_ms_avg, summary.env_latency_ms_p50, summary.env_latency_ms_p95, summary.env_latency_ms_p99),
    ) + phase_rows(
        "step"@,
        summary.route.env_component_id@,
        MetricKey::RoundTrip,
        "round.trip"@,
        summary.sample_count,
        (summary.round_trip_ms_avg, summary.round_trip_ms_p50, summary.round_trip_ms_p95, summary.round_trip_ms_p99),
    )
}

/// The statistics of the model-wait, env-step and round-trip phases of a
/// summary.
pub open spec fn phase_stats(summary: TelemetrySummaryEvent) -> Seq<(Option<u64>, Option<u64>, Option<u64>, Option<u64>)> {
    seq![
        (summary.model_latency_ms_avg, summary.model_latency_ms_p50, summary.model_latency_ms_p95, summary.model_latency_ms_p99),
        (summary.env_latency_ms_avg, summary.env_latency_ms_p50, summary.env_latency_ms_p95, summary.env_latency_ms_p99),
        (summary.round_trip_ms_avg, summary.round_trip_ms_p50, summary.round_trip_ms_p95, summary.round_trip_ms_p99),
    ]
}

/// The number of phases of a summary that carry any timing.
pub open spec fn timed_phases(summary: TelemetrySummaryEvent) -> int {
    (if has_timing(phase_stats(summary)[0]) { 1int } else { 0int }) + (if has_timing(phase_stats(summary)[1]) {
        1int
    } else {
        0int
    }) + (if has_timing(phase_stats(summary)[2]) { 1int } else { 0int })
}

/// The window's timing rows are the host rows, unchanged in number and
/// order, followed by one row per phase that carries any timing: a phase with
/// no timing at all never yields a placeholder row, and every appended row
/// keeps its statistics' present/absent pattern.
pub proof fn phase_rows_are_never_placeholders(summary: TelemetrySummaryEvent)
    ensures
        window_timings(summary).len() == summary.timings@.len() + timed_phases(summary),
        forall|i: int|
            0 <= i < summary.timings@.len() ==> #[trigger] window_timings(summary)[i] == host_timing_row(
                summary.timings@[i],
            ),
        forall|i: int|
            summary.timings@.len() <= i < window_timings(summary).len() ==> has_timing(
                (#[trigger] window_timings(summary)[i]).stats,
            ),
{
    let hosts = summary.timings@.map_values(|row: HostTimingSummary| host_timing_row(row));
    let stats = phase_stats(summary);
    let p1 = phase_rows("model.predict"@, summary.route.model_component_id@, MetricKey::ModelWait, "model.wait"@, summary.sample_count, stats[0]);
    let p2 = phase_rows("env.step"@, summary.route.env_component_id@, MetricKey::EnvStep, "env.step.phase"@, summary.sample_count, stats[1]);
    let p3 = phase_rows("step"@, summary.route.env_component_id@, MetricKey::RoundTrip, "round.trip"@, summary.sample_count, stats[2]);
    assert(window_timings(summary) == hosts + p1 + p2 + p3);
    assert forall|i: int|
        summary.timings@.len() <= i < window_timings(summary).len() implies has_timing(
        (#[trigger] window_timings(summary)[i]).stats,
    ) by {
        let j = i - hosts.len();
        if j < p1.len() {
            assert(window_timings(summary)[i] == p1[j]);
        } else if j < p1.len() + p2.len() {
            assert(window_timings(summary)[i] == p2[j - p1.len()]);
        } else {
            assert(window_timings(summary)[i] == p3[j - p1.len() - p2.len()]);
        }
    }
}

/// Whether `row` is the phase row of the phase keyed `key` of `summary`: the
/// model wait is timed on the model component, the env step and the round
/// trip on the env component, each with the summary's sample count and that
/// phase's own statistics.
pub open spec fn names_its_component(row: TimingView, summary: TelemetrySummaryEvent) -> bool {
    let stats = phase_stats(summary);
    &&& row.sample_count == summary.sample_count
    &&& row.key == MetricKey::ModelWait ==> row.operation == "model.predict"@ && row.component_id
        == summary.route.model_component_id@ && row.stats == stats[0]
    &&& row.key == MetricKey::EnvStep ==> row.operation == "env.step"@ && row.component_id
        == summary.route.env_component_id@ && row.stats == stats[1]
    &&& row.key == MetricKey::RoundTrip ==> row.operation == "step"@ && row.component_id
        == summary.route.env_component_id@ && row.stats == stats[2]
    &&& row.key == MetricKey::ModelWait || row.key == MetricKey::EnvStep || row.key == MetricKey::RoundTrip
}

/// Each phase row names the component that did the work: the rows the window
/// appends after the host rows are phase rows, the model-wait row carries the
/// model component, the env-step and round-trip rows the env component, each
/// with its own phase's statistics; and a phase that carries any timing has
/// its row.
pub proof fn phase_rows_name_the_component_that_did_the_work(summary: TelemetrySummaryEvent)
    ensures
        forall|i: int|
            summary.timings@.len() <= i < window_timings(summary).len() ==> names_its_component(
                #[trigger] window_timings(summary)[i],
                summary,
            ),
        forall|p: int|
            0 <= p < 3 && has_timing(#[trigger] phase_stats(summary)[p]) ==> exists|i: int|
                summary.timings@.len() <= i < window_timings(summary).len() && window_timings(summary)[i].key
                    == (if p == 0 {
                    MetricKey::ModelWait
                } else if p == 1 {
                    MetricKey::EnvStep
                } else {
                    MetricKey::RoundTrip
                }),
{
    let hosts = summary.timings@.map_values(|row: HostTimingSummary| host_timing_row(row));
    let stats = phase_stats(summary);
    let p1 = phase_rows("model.predict"@, summary.route.model_component_id@, MetricKey::ModelWait, "model.wait"@, summary.sample_count, stats[0]);
    let p2 = phase_rows("env.step"@, summary.route.env_component_id@, MetricKey::EnvStep, "env.step.phase"@, summary.sample_count, stats[1]);
    let p3 = phase_rows("step"@, summary.route.env_component_id@, MetricKey::RoundTrip, "round.trip"@, summary.sample_count, stats[2]);
    let w = window_timings(summary);
    assert(w == hosts + p1 + p2 + p3);
    assert forall|i: int| summary.timings@.len() <= i < w.len() implies names_its_component(
        #[trigger] w[i],
        summary,
    ) by {
        let j = i - hosts.len();
        if j < p1.len() {
            assert(w[i] == p1[j]);
        } else if j < p1.len() + p2.len() {
            assert(w[i] == p2[j - p1.len()]);
        } else {
            assert(w[i] == p3[j - p1.len() - p2.len()]);
        }
    }
    assert forall|p: int| 0 <= p < 3 && has_timing(#[trigger] phase_stats(summary)[p]) implies exists|i: int|
        summary.timings@.len() <= i < w.len() && w[i].key == (if p == 0 {
            MetricKey::ModelWait
        } else if p == 1 {
            MetricKey::EnvStep
        } else {
            MetricKey::RoundTrip
        }) by {
        if p == 0 {
            assert(w[hosts.len() as int] == p1[0]);
        } else if p == 1 {
            assert(w[(hosts.len() + p1.len()) as int] == p2[0]);
        } else {
            assert(w[(hosts.len() + p1.len() + p2.len()) as int] == p3[0]);
        }
    }
}

/// Resolve a row's canonical name to its stable key (see [`spec_metric_key`]).
pub fn metric_key_for_name(name: &str) -> (key: MetricKey)
    ensures
        key == spec_metric_key(name@),
{
    proof {
        reveal_strlit("endpoint.total");
        reveal_strlit("rpc.total");
        reveal_strlit("batch.size");
        reveal_strlit("model.wait");
        reveal_strlit("env.step.phase");
        reveal_strlit("round.trip");
    }
    if same_text(name, "endpoint.total") {
        MetricKey::EndpointTotal
    } else if same_text(name, "rpc.total") {
        MetricKey::RpcTotal
    } else if same_text(name, "batch.size") {
        MetricKey::BatchSize
    } else if same_text(name, "model.wait") {
        MetricKey::ModelWait
    } else if same_text(name, "env.step.phase") {
        MetricKey::EnvStep
    } else if same_text(name, "round.trip") {
        MetricKey::RoundTrip
    } else {
        MetricKey::Unspecified
    }
}

/// The unit of a metric of `kind` (see [`spec_unit`]).
pub fn unit_for_kind(kind: MetricKind) -> (unit: Unit)
    ensures
        unit == spec_unit(kind),
{
    match kind {
        MetricKind::ByteCount => Unit::Bytes,
        MetricKind::Number => Unit::Count,
    }
}

/// The wire row of a host timing row (see [`host_timing_row`]).
pub fn host_timing_to_proto(row: &HostTimingSummary) -> (wire: TimingSummary)
    ensures
        wire.row() == host_timing_row(*row),
{
    TimingSummary {
        operation: row.operation.clone(),
        component_id: row.component_id.clone(),
        key: metric_key_for_name(row.name.as_str()),
        key_name: row.name.clone(),
        sample_count: row.sample_count,
        avg_ms: row.avg_ms,
        p50_ms: row.p50_ms,
        p95_ms: row.p95_ms,
        p99_ms: row.p99_ms,
    }
}

/// The wire row of a host metric row (see [`host_metric_row`]).
pub fn host_metric_to_proto(row: &HostMetricSummary) -> (wire: MetricSummary)
    ensures
        wire.row() == host_metric_row(*row),
{
    MetricSummary {
        operation: row.operation.clone(),
        component_id: row.component_id.clone(),
        key: metric_key_for_name(row.name.as_str()),
        key_name: row.name.clone(),
        unit: unit_for_kind(row.kind),
        sample_count: row.sample_count,
        avg: row.avg,
        p50: row.p50,
        p95: row.p95,
        p99: row.p99,
    }
}

/// The row of one phase of the phase split, or none when the phase carries
/// no timing at all (see [`phase_rows`]).
pub fn phase_timing_row(
    operation: &str,
    component_id: &str,
    key: MetricKey,
    key_name: &str,
    sample_count: u64,
    stats: (Option<u64>, Option<u64>, Option<u64>, Option<u64>),
) -> (row: Option<TimingSummary>)
    ensures
        match row {
            Some(r) => phase_rows(operation@, component_id@, key, key_name@, sample_count, stats) == seq![r.row()],
            None => phase_rows(operation@, component_id@, key, key_name@, sample_count, stats) == Seq::<
                TimingView,
            >::empty(),
        },
{
    let (avg_ms, p50_ms, p95_ms, p99_ms) = stats;
    if avg_ms.is_none() && p50_ms.is_none() && p95_ms.is_none() && p99_ms.is_none() {
        return None;
    }
    Some(
        TimingSummary {
            operation: String::from_str(operation),
            component_id: String::from_str(component_id),
            key,
            key_name: String::from_str(key_name),
            sample_count,
            avg_ms,
            p50_ms,
            p95_ms,
            p99_ms,
        },
    )
}

/// Append the row of one phase, if it has one.
fn push_phase(
    timings: &mut Vec<TimingSummary>,
    operation: &str,
    component_id: &str,
    key: MetricKey,
    key_name: &str,
    sample_count: u64,
    stats: (Option<u64>, Option<u64>, Option<u64>, Option<u64>),
)
    ensures
        final(timings)@.map_values(|t: TimingSummary| t.row()) == old(timings)@.map_values(|t: TimingSummary| t.row())
            + phase_rows(operation@, component_id@, key, key_name@, sample_count, stats),
{
    let row = phase_timing_row(operation, component_id, key, key_name, sample_count, stats);
    let ghost before = timings@;
    match row {
        Some(r) => {
            timings.push(r);
            proof {
                assert(timings@.map_values(|t: TimingSummary| t.row()) =~= before.map_values(
                    |t: TimingSummary| t.row(),
                ) + phase_rows(operation@, component_id@, key, key_name@, sample_count, stats));
            }
        },
        None => {
            proof {
                assert(timings@.map_values(|t: TimingSummary| t.row()) =~= before.map_values(
                    |t: TimingSummary| t.row(),
                ) + phase_rows(operation@, component_id@, key, key_name@, sample_count, stats));
            }
        },
    }
}

/// Map the runtime's session-total summary onto the wire window: the
/// top-level fields are copied, the host timing and metric rows are mapped
/// one for one (see [`host_timing_row`], [`host_metric_row`]), the phase
/// split is appended as up to three rows (see [`window_timings`]), and the
/// window is marked as the session total.
pub fn telemetry_summary_to_proto(summary: &TelemetrySummaryEvent) -> (window: TelemetryWindow)
    ensures
        window.session_id@ == summary.session_id@,
        window.route_id@ == summary.route.route_id@,
        window.env_component_id@ == summary.route.env_component_id@,
        window.model_component_id@ == summary.route.model_component_id@,
        window.window_seconds == summary.total_seconds,
        window.sample_count == summary.sample_count,
        window.steps_per_second == summary.steps_per_second,
        window.request_bytes_per_second == summary.request_bytes_per_second,
        window.response_bytes_per_second == summary.response_bytes_per_second,
        window.timings@.map_values(|t: TimingSummary| t.row()) == window_timings(*summary),
        window.metrics@.map_values(|m: MetricSummary| m.row()) == summary.metrics@.map_values(
            |row: HostMetricSummary| host_metric_row(row),
        ),
        window.is_session_total,
{
    proof {
        reveal_strlit("model.predict");
        reveal_strlit("model.wait");
        reveal_strlit("env.step");
        reveal_strlit("env.step.phase");
        reveal_strlit("step");
        reveal_strlit("round.trip");
    }
    let mut timings: Vec<TimingSummary> = Vec::new();
    let mut i: usize = 0;
    while i < summary.timings.len()
        invariant
            i <= summary.timings@.len(),
            timings@.map_values(|t: TimingSummary| t.row()) == summary.timings@.take(i as int).map_values(
                |row: HostTimingSummary| host_timing_row(row),
            ),
        decreases summary.timings@.len() - i,
    {
        let row = host_timing_to_proto(&summary.timings[i]);
        let ghost before = timings@;
        timings.push(row);
        proof {
            assert(summary.timings@.take(i + 1) =~= summary.timings@.take(i as int).push(summary.timings@[i as int]));
            assert(timings@.map_values(|t: TimingSummary| t.row()) =~= before.map_values(|t: TimingSummary| t.row()).push(
                row.row(),
            ));
        }
        i = i + 1;
    }
    proof {
        assert(summary.timings@.take(i as int) =~= summary.timings@);
    }
    push_phase(
        &mut timings,
        "model.predict",
        summary.route.model_component_id.as_str(),
        MetricKey::ModelWait,
        "model.wait",
        summary.sample_count,
        (
            summary.model_latency_ms_avg,
            summary.model_latency_ms_p50,
            summary.model_latency_ms_p95,
            summary.model_latency_ms_p99,
        ),
    );
    push_phase(
        &mut timings,
        "env.step",
        summary.route.env_component_id.as_str(),
        MetricKey::EnvStep,
        "env.step.phase",
        summary.sample_count,
        (summary.env_latency_ms_avg, summary.env_latency_ms_p50, summary.env_latency_ms_p95, summary.env_latency_ms_p99),
    );
    push_phase(
        &mut timings,
        "step",
        summary.route.env_component_id.as_str(),
        MetricKey::RoundTrip,
        "round.trip",
        summary.sample_count,
        (summary.round_trip_ms_avg, summary.round_trip_ms_p50, summary.round_trip_ms_p95, summary.round_trip_ms_p99),
    );
    let mut metrics: Vec<MetricSummary> = Vec::new();
    let mut j: usize = 0;
    while j < summary.metrics.len()
        invariant
            j <= summary.metrics@.len(),
            metrics@.map_values(|m: MetricSummary| m.row()) == summary.metrics@.take(j as int).map_values(
                |row: HostMetricSummary| host_metric_row(row),
            ),
        decreases summary.metrics@.len() - j,
    {
        let row = host_metric_to_proto(&summary.metrics[j]);
        let ghost before = metrics@;
        metrics.push(row);
        proof {
            assert(summary.metrics@.take(j + 1) =~= summary.metrics@.take(j as int).push(summary.metrics@[j as int]));
            assert(metrics@.map_values(|m: MetricSummary| m.row()) =~= before.map_values(|m: MetricSummary| m.row()).push(
                row.row(),
            ));
        }
        j = j + 1;
    }
    proof {
        assert(summary.metrics@.take(j as int) =~= summary.metrics@);
    }
    TelemetryWindow {
        session_id: summary.session_id.clone(),
        route_id: summary.route.route_id.clone(),
        env_component_id: summary.route.env_component_id.clone(),
        model_component_id: summary.route.model_component_id.clone(),
        window_seconds: summary.total_seconds,
        sample_count: summary.sample_count,
        steps_per_second: summary.steps_per_second,
        request_bytes_per_second: summary.request_bytes_per_second,
        response_bytes_per_second: summary.response_bytes_per_second,
        timings,
        metrics,
        is_session_total: true,
    }
}

} // verus!
