//! The text in which the server tells what it has counted.

use vstd::prelude::*;

use crate::engine::HealthSnapshot;
use crate::observability::{
    bucket_label, bucket_label_text, operation_at, operation_name, up_to, DurationView, MetricsView,
    RequestDuration, RequestOperation, ServerMetrics, LATENCY_BUCKET_COUNT,
    REQUEST_OPERATION_COUNT,
};
use crate::protocol::ProtocolAdmission;
use crate::state_machine_store::SnapshotMetricsSnapshot;
use crate::text::{decimal, decimal_text};

verus! {

/// A text, and what a metric is about.
pub open spec fn with_help(out: Seq<char>, name: Seq<char>, help: Seq<char>) -> Seq<char> {
    out + "# HELP "@ + name + " "@ + help + "\n"@
}

/// A text, and what kind of metric a metric is.
pub open spec fn with_type(out: Seq<char>, name: Seq<char>, kind: Seq<char>) -> Seq<char> {
    out + "# TYPE "@ + name + " "@ + kind + "\n"@
}

/// A text, and what a metric says.
pub open spec fn with_value(out: Seq<char>, name: Seq<char>, value: Seq<char>) -> Seq<char> {
    out + name + " "@ + value + "\n"@
}

/// A text, and a metric: what kind it is, and what it says.
pub open spec fn with_sample(
    out: Seq<char>,
    name: Seq<char>,
    kind: Seq<char>,
    value: Seq<char>,
) -> Seq<char> {
    with_value(with_type(out, name, kind), name, value)
}

/// A text, and a metric: what it is about, what kind it is, and what it says.
pub open spec fn with_metric(
    out: Seq<char>,
    name: Seq<char>,
    kind: Seq<char>,
    help: Seq<char>,
    value: Seq<char>,
) -> Seq<char> {
    with_sample(with_help(out, name, help), name, kind, value)
}

/// Says what a metric is about.
fn put_help(out: &mut String, name: &str, help: &str)
    ensures
        final(out)@ == with_help(old(out)@, name@, help@),
{
    out.append("# HELP ");
    out.append(name);
    out.append(" ");
    out.append(help);
    out.append("\n");
}

/// Says what kind of metric a metric is.
fn put_type(out: &mut String, name: &str, kind: &str)
    ensures
        final(out)@ == with_type(old(out)@, name@, kind@),
{
    out.append("# TYPE ");
    out.append(name);
    out.append(" ");
    out.append(kind);
    out.append("\n");
}

/// Says what a metric says.
fn put_value(out: &mut String, name: &str, value: &str)
    ensures
        final(out)@ == with_value(old(out)@, name@, value@),
{
    out.append(name);
    out.append(" ");
    out.append(value);
    out.append("\n");
}

/// Says what kind a metric is, and what it says.
fn put_sample(out: &mut String, name: &str, kind: &str, value: &str)
    ensures
        final(out)@ == with_sample(old(out)@, name@, kind@, value@),
{
    put_type(out, name, kind);
    put_value(out, name, value);
}

/// Says what a metric is about, what kind it is, and what it says.
fn put_metric(out: &mut String, name: &str, kind: &str, help: &str, value: &str)
    ensures
        final(out)@ == with_metric(old(out)@, name@, kind@, help@, value@),
{
    put_help(out, name, help);
    put_sample(out, name, kind, value);
}

/// A text, and what the engine holds.
pub open spec fn with_engine_gauges(out: Seq<char>, health: HealthSnapshot) -> Seq<char> {
    let out = with_metric(
        out,
        "runnel_streams"@,
        "gauge"@,
        "Number of streams currently known to the broker."@,
        decimal(health.streams as nat),
    );
    let out = with_metric(
        out,
        "runnel_storage_bytes"@,
        "gauge"@,
        "Bytes currently occupied by broker storage."@,
        decimal(health.storage_bytes as nat),
    );
    let out = with_metric(
        out,
        "runnel_in_flight_deliveries"@,
        "gauge"@,
        "Messages currently tracked as delivered but not yet acknowledged."@,
        decimal(health.in_flight_deliveries as nat),
    );
    out
}

/// Says what the engine holds.
fn put_engine_gauges(out: &mut String, health: &HealthSnapshot)
    ensures
        final(out)@ == with_engine_gauges(old(out)@, *health),
{
    put_metric(
        out,
        "runnel_streams",
        "gauge",
        "Number of streams currently known to the broker.",
        decimal_text(health.streams as u64).as_str(),
    );
    put_metric(
        out,
        "runnel_storage_bytes",
        "gauge",
        "Bytes currently occupied by broker storage.",
        decimal_text(health.storage_bytes).as_str(),
    );
    put_metric(
        out,
        "runnel_in_flight_deliveries",
        "gauge",
        "Messages currently tracked as delivered but not yet acknowledged.",
        decimal_text(health.in_flight_deliveries).as_str(),
    );
}

/// A text, and what there is of connections and requests, with what is let in of
/// them.
pub open spec fn with_connections(out: Seq<char>, m: MetricsView, admission: ProtocolAdmission) -> Seq<char> {
    let out = with_metric(
        out,
        "runnel_active_connections"@,
        "gauge"@,
        "Broker protocol connections currently being served."@,
        decimal(m.active_connections as nat),
    );
    let out = with_metric(
        out,
        "runnel_broker_max_connections"@,
        "gauge"@,
        "Configured maximum number of broker protocol connections."@,
        decimal(admission.max_connections as nat),
    );
    let out = with_metric(
        out,
        "runnel_broker_connections_accepted_total"@,
        "counter"@,
        "Broker protocol connections accepted."@,
        decimal(m.connections_accepted as nat),
    );
    let out = with_metric(
        out,
        "runnel_broker_connections_rejected_total"@,
        "counter"@,
        "Broker protocol connections rejected because the connection limit was reached."@,
        decimal(m.connections_rejected as nat),
    );
    let out = with_metric(
        out,
        "runnel_broker_connections_closed_total"@,
        "counter"@,
        "Broker protocol connections closed."@,
        decimal(m.connections_closed as nat),
    );
    let out = with_metric(
        out,
        "runnel_broker_connection_errors_total"@,
        "counter"@,
        "Broker protocol connections closed because of a transport or framing error."@,
        decimal(m.connection_errors as nat),
    );
    let out = with_metric(
        out,
        "runnel_active_requests"@,
        "gauge"@,
        "Broker protocol requests executing or writing responses."@,
        decimal(m.active_requests as nat),
    );
    let out = with_metric(
        out,
        "runnel_broker_max_in_flight_requests"@,
        "gauge"@,
        "Configured maximum number of broker protocol requests executing or writing responses."@,
        decimal(admission.max_in_flight_requests as nat),
    );
    let out = with_metric(
        out,
        "runnel_broker_max_request_bytes"@,
        "gauge"@,
        "Configured maximum broker protocol request frame size in bytes."@,
        decimal(admission.max_request_bytes as nat),
    );
    out
}

/// Says what there is of connections and requests, with what is let in of them.
fn put_connections(out: &mut String, metrics: &ServerMetrics, admission: &ProtocolAdmission)
    ensures
        final(out)@ == with_connections(old(out)@, metrics@, *admission),
{
    put_metric(
        out,
        "runnel_active_connections",
        "gauge",
        "Broker protocol connections currently being served.",
        decimal_text(metrics.active_connections).as_str(),
    );
    put_metric(
        out,
        "runnel_broker_max_connections",
        "gauge",
        "Configured maximum number of broker protocol connections.",
        decimal_text(admission.max_connections as u64).as_str(),
    );
    put_metric(
        out,
        "runnel_broker_connections_accepted_total",
        "counter",
        "Broker protocol connections accepted.",
        decimal_text(metrics.connections_accepted).as_str(),
    );
    put_metric(
        out,
        "runnel_broker_connections_rejected_total",
        "counter",
        "Broker protocol connections rejected because the connection limit was reached.",
        decimal_text(metrics.connections_rejected).as_str(),
    );
    put_metric(
        out,
        "runnel_broker_connections_closed_total",
        "counter",
        "Broker protocol connections closed.",
        decimal_text(metrics.connections_closed).as_str(),
    );
    put_metric(
        out,
        "runnel_broker_connection_errors_total",
        "counter",
        "Broker protocol connections closed because of a transport or framing error.",
        decimal_text(metrics.connection_errors).as_str(),
    );
    put_metric(
        out,
        "runnel_active_requests",
        "gauge",
        "Broker protocol requests executing or writing responses.",
        decimal_text(metrics.active_requests).as_str(),
    );
    put_metric(
        out,
        "runnel_broker_max_in_flight_requests",
        "gauge",
        "Configured maximum number of broker protocol requests executing or writing responses.",
        decimal_text(admission.max_in_flight_requests as u64).as_str(),
    );
    put_metric(
        out,
        "runnel_broker_max_request_bytes",
        "gauge",
        "Configured maximum broker protocol request frame size in bytes.",
        decimal_text(admission.max_request_bytes as u64).as_str(),
    );
}

/// A text, and what was turned away or took too long, and how much was said. What
/// the timeouts of requests are about stands before those of responses.
pub open spec fn with_rejections(out: Seq<char>, m: MetricsView) -> Seq<char> {
    let out = with_metric(
        out,
        "runnel_broker_requests_rejected_total"@,
        "counter"@,
        "Broker protocol requests rejected before completion, including admission, framing, and timeout failures."@,
        decimal(m.requests_rejected as nat),
    );
    let out = with_metric(
        out,
        "runnel_broker_request_size_rejections_total"@,
        "counter"@,
        "Broker protocol requests rejected because their frame exceeded the configured maximum."@,
        decimal(m.request_size_rejections as nat),
    );
    let out = with_metric(
        out,
        "runnel_broker_request_saturation_total"@,
        "counter"@,
        "Broker protocol requests rejected because all in-flight request permits were occupied."@,
        decimal(m.request_saturation_rejections as nat),
    );
    let out = with_help(
        out,
        "runnel_broker_request_timeouts_total"@,
        "Broker protocol requests whose frame or engine work exceeded its timeout."@,
    );
    let out = with_metric(
        out,
        "runnel_broker_response_write_timeouts_total"@,
        "counter"@,
        "Broker protocol responses whose socket write exceeded the request timeout."@,
        decimal(m.response_write_timeouts as nat),
    );
    let out = with_sample(
        out,
        "runnel_broker_request_timeouts_total"@,
        "counter"@,
        decimal(m.request_timeouts as nat),
    );
    let out = with_metric(
        out,
        "runnel_broker_request_bytes_total"@,
        "counter"@,
        "Bytes received in broker protocol request lines, including line delimiters."@,
        decimal(m.request_bytes as nat),
    );
    let out = with_metric(
        out,
        "runnel_broker_response_bytes_total"@,
        "counter"@,
        "Bytes written in broker protocol responses, including line delimiters."@,
        decimal(m.response_bytes as nat),
    );
    out
}

/// Says what was turned away or took too long, and how much was said.
fn put_rejections(out: &mut String, metrics: &ServerMetrics)
    ensures
        final(out)@ == with_rejections(old(out)@, metrics@),
{
    put_metric(
        out,
        "runnel_broker_requests_rejected_total",
        "counter",
        "Broker protocol requests rejected before completion, including admission, framing, and timeout failures.",
        decimal_text(metrics.requests_rejected).as_str(),
    );
    put_metric(
        out,
        "runnel_broker_request_size_rejections_total",
        "counter",
        "Broker protocol requests rejected because their frame exceeded the configured maximum.",
        decimal_text(metrics.request_size_rejections).as_str(),
    );
    put_metric(
        out,
        "runnel_broker_request_saturation_total",
        "counter",
        "Broker protocol requests rejected because all in-flight request permits were occupied.",
        decimal_text(metrics.request_saturation_rejections).as_str(),
    );
    put_help(
        out,
        "runnel_broker_request_timeouts_total",
        "Broker protocol requests whose frame or engine work exceeded its timeout.",
    );
    put_metric(
        out,
        "runnel_broker_response_write_timeouts_total",
        "counter",
        "Broker protocol responses whose socket write exceeded the request timeout.",
        decimal_text(metrics.response_write_timeouts).as_str(),
    );
    put_sample(
        out,
        "runnel_broker_request_timeouts_total",
        "counter",
        decimal_text(metrics.request_timeouts).as_str(),
    );
    put_metric(
        out,
        "runnel_broker_request_bytes_total",
        "counter",
        "Bytes received in broker protocol request lines, including line delimiters.",
        decimal_text(metrics.request_bytes).as_str(),
    );
    put_metric(
        out,
        "runnel_broker_response_bytes_total",
        "counter",
        "Bytes written in broker protocol responses, including line delimiters.",
        decimal_text(metrics.response_bytes).as_str(),
    );
}

/// A text, and what the engine has delivered again or given up.
pub open spec fn with_engine_counters(out: Seq<char>, health: HealthSnapshot) -> Seq<char> {
    let out = with_metric(
        out,
        "runnel_redeliveries_total"@,
        "counter"@,
        "Messages delivered again after an acknowledgement timeout."@,
        decimal(health.redeliveries as nat),
    );
    let out = with_metric(
        out,
        "runnel_dead_letters_total"@,
        "counter"@,
        "Messages moved to a dead-letter stream after reaching the delivery limit."@,
        decimal(health.dead_letters as nat),
    );
    out
}

/// Says what the engine has delivered again or given up.
fn put_engine_counters(out: &mut String, health: &HealthSnapshot)
    ensures
        final(out)@ == with_engine_counters(old(out)@, *health),
{
    put_metric(
        out,
        "runnel_redeliveries_total",
        "counter",
        "Messages delivered again after an acknowledgement timeout.",
        decimal_text(health.redeliveries).as_str(),
    );
    put_metric(
        out,
        "runnel_dead_letters_total",
        "counter",
        "Messages moved to a dead-letter stream after reaching the delivery limit.",
        decimal_text(health.dead_letters).as_str(),
    );
}

/// A text, and what was done for clients.
pub open spec fn with_work(out: Seq<char>, m: MetricsView) -> Seq<char> {
    let out = with_metric(
        out,
        "runnel_deliveries_total"@,
        "counter"@,
        "Messages returned by successful poll operations."@,
        decimal(m.deliveries as nat),
    );
    let out = with_metric(
        out,
        "runnel_delivered_bytes_total"@,
        "counter"@,
        "Payload bytes returned by successful poll operations."@,
        decimal(m.delivered_bytes as nat),
    );
    let out = with_metric(
        out,
        "runnel_stream_creations_total"@,
        "counter"@,
        "Successful stream creation requests."@,
        decimal(m.stream_creations as nat),
    );
    let out = with_metric(
        out,
        "runnel_publishes_total"@,
        "counter"@,
        "Messages durably accepted by publish requests."@,
        decimal(m.publishes as nat),
    );
    let out = with_metric(
        out,
        "runnel_published_bytes_total"@,
        "counter"@,
        "Payload bytes durably accepted by publish requests."@,
        decimal(m.published_bytes as nat),
    );
    let out = with_metric(
        out,
        "runnel_acknowledgements_total"@,
        "counter"@,
        "Successful acknowledgement requests."@,
        decimal(m.acknowledgements as nat),
    );
    let out = with_metric(
        out,
        "runnel_metrics_scrapes_total"@,
        "counter"@,
        "Metrics endpoint requests."@,
        decimal(m.metrics_scrapes as nat),
    );
    let out = with_metric(
        out,
        "runnel_metrics_scrape_failures_total"@,
        "counter"@,
        "Metrics endpoint requests that could not complete a bounded health check."@,
        decimal(m.metrics_scrape_failures as nat),
    );
    let out = with_metric(
        out,
        "runnel_health_check_failures_total"@,
        "counter"@,
        "Readiness or metrics health checks that failed or timed out."@,
        decimal(m.health_check_failures as nat),
    );
    out
}

/// Says what was done for clients.
fn put_work(out: &mut String, metrics: &ServerMetrics)
    ensures
        final(out)@ == with_work(old(out)@, metrics@),
{
    put_metric(
        out,
        "runnel_deliveries_total",
        "counter",
        "Messages returned by successful poll operations.",
        decimal_text(metrics.deliveries).as_str(),
    );
    put_metric(
        out,
        "runnel_delivered_bytes_total",
        "counter",
        "Payload bytes returned by successful poll operations.",
        decimal_text(metrics.delivered_bytes).as_str(),
    );
    put_metric(
        out,
        "runnel_stream_creations_total",
        "counter",
        "Successful stream creation requests.",
        decimal_text(metrics.stream_creations).as_str(),
    );
    put_metric(
        out,
        "runnel_publishes_total",
        "counter",
        "Messages durably accepted by publish requests.",
        decimal_text(metrics.publishes).as_str(),
    );
    put_metric(
        out,
        "runnel_published_bytes_total",
        "counter",
        "Payload bytes durably accepted by publish requests.",
        decimal_text(metrics.published_bytes).as_str(),
    );
    put_metric(
        out,
        "runnel_acknowledgements_total",
        "counter",
        "Successful acknowledgement requests.",
        decimal_text(metrics.acknowledgements).as_str(),
    );
    put_metric(
        out,
        "runnel_metrics_scrapes_total",
        "counter",
        "Metrics endpoint requests.",
        decimal_text(metrics.metrics_scrapes).as_str(),
    );
    put_metric(
        out,
        "runnel_metrics_scrape_failures_total",
        "counter",
        "Metrics endpoint requests that could not complete a bounded health check.",
        decimal_text(metrics.metrics_scrape_failures).as_str(),
    );
    put_metric(
        out,
        "runnel_health_check_failures_total",
        "counter",
        "Readiness or metrics health checks that failed or timed out.",
        decimal_text(metrics.health_check_failures).as_str(),
    );
}

/// A text, and what has been counted of snapshots.
pub open spec fn with_snapshots(out: Seq<char>, snapshots: SnapshotMetricsSnapshot) -> Seq<char> {
    let out = with_sample(
        out,
        "runnel_snapshot_builds_started_total"@,
        "counter"@,
        decimal(snapshots.builds_started as nat),
    );
    let out = with_sample(
        out,
        "runnel_snapshot_builds_completed_total"@,
        "counter"@,
        decimal(snapshots.builds_completed as nat),
    );
    let out = with_sample(
        out,
        "runnel_snapshot_build_failures_total"@,
        "counter"@,
        decimal(snapshots.build_failures as nat),
    );
    let out = with_sample(
        out,
        "runnel_snapshot_installs_started_total"@,
        "counter"@,
        decimal(snapshots.installs_started as nat),
    );
    let out = with_sample(
        out,
        "runnel_snapshot_installs_completed_total"@,
        "counter"@,
        decimal(snapshots.installs_completed as nat),
    );
    let out = with_sample(
        out,
        "runnel_snapshot_install_failures_total"@,
        "counter"@,
        decimal(snapshots.install_failures as nat),
    );
    let out = with_sample(
        out,
        "runnel_snapshot_install_bytes_total"@,
        "counter"@,
        decimal(snapshots.install_bytes as nat),
    );
    let out = with_sample(
        out,
        "runnel_snapshot_installs_in_progress"@,
        "gauge"@,
        decimal(snapshots.installs_in_progress as nat),
    );
    let out = with_sample(
        out,
        "runnel_snapshot_transfer_chunks_received_total"@,
        "counter"@,
        decimal(snapshots.transfer_chunks as nat),
    );
    let out = with_sample(
        out,
        "runnel_snapshot_transfer_final_chunks_received_total"@,
        "counter"@,
        decimal(snapshots.transfer_final_chunks as nat),
    );
    let out = with_sample(
        out,
        "runnel_snapshot_transfer_bytes_received_total"@,
        "counter"@,
        decimal(snapshots.transfer_bytes as nat),
    );
    out
}

/// Says what has been counted of snapshots.
fn put_snapshots(out: &mut String, snapshots: &SnapshotMetricsSnapshot)
    ensures
        final(out)@ == with_snapshots(old(out)@, *snapshots),
{
    put_sample(
        out,
        "runnel_snapshot_builds_started_total",
        "counter",
        decimal_text(snapshots.builds_started).as_str(),
    );
    put_sample(
        out,
        "runnel_snapshot_builds_completed_total",
        "counter",
        decimal_text(snapshots.builds_completed).as_str(),
    );
    put_sample(
        out,
        "runnel_snapshot_build_failures_total",
        "counter",
        decimal_text(snapshots.build_failures).as_str(),
    );
    put_sample(
        out,
        "runnel_snapshot_installs_started_total",
        "counter",
        decimal_text(snapshots.installs_started).as_str(),
    );
    put_sample(
        out,
        "runnel_snapshot_installs_completed_total",
        "counter",
        decimal_text(snapshots.installs_completed).as_str(),
    );
    put_sample(
        out,
        "runnel_snapshot_install_failures_total",
        "counter",
        decimal_text(snapshots.install_failures).as_str(),
    );
    put_sample(
        out,
        "runnel_snapshot_install_bytes_total",
        "counter",
        decimal_text(snapshots.install_bytes).as_str(),
    );
    put_sample(
        out,
        "runnel_snapshot_installs_in_progress",
        "gauge",
        decimal_text(snapshots.installs_in_progress).as_str(),
    );
    put_sample(
        out,
        "runnel_snapshot_transfer_chunks_received_total",
        "counter",
        decimal_text(snapshots.transfer_chunks).as_str(),
    );
    put_sample(
        out,
        "runnel_snapshot_transfer_final_chunks_received_total",
        "counter",
        decimal_text(snapshots.transfer_final_chunks).as_str(),
    );
    put_sample(
        out,
        "runnel_snapshot_transfer_bytes_received_total",
        "counter",
        decimal_text(snapshots.transfer_bytes).as_str(),
    );
}

/// A text, and what a metric says of a kind of request.
pub open spec fn with_operation_value(
    out: Seq<char>,
    name: Seq<char>,
    operation: RequestOperation,
    value: Seq<char>,
) -> Seq<char> {
    out + name + "{operation=\""@ + operation_name(operation) + "\"} "@ + value + "\n"@
}

/// Says what a metric says of a kind of request.
fn put_operation_value(out: &mut String, name: &str, operation: RequestOperation, value: &str)
    ensures
        final(out)@ == with_operation_value(old(out)@, name@, operation, value@),
{
    out.append(name);
    out.append("{operation=\"");
    out.append(operation.name());
    out.append("\"} ");
    out.append(value);
    out.append("\n");
}

/// A text, and what a metric says of each of the first kinds of request.
pub open spec fn with_operations(
    out: Seq<char>,
    name: Seq<char>,
    counts: Seq<u64>,
    kinds: nat,
) -> Seq<char>
    decreases kinds,
{
    if kinds == 0 {
        out
    } else {
        with_operation_value(
            with_operations(out, name, counts, (kinds - 1) as nat),
            name,
            operation_at(kinds - 1),
            decimal(counts[kinds - 1] as nat),
        )
    }
}

/// Says what a metric says of each kind of request.
fn put_operations(out: &mut String, name: &str, counts: &[u64; 9])
    ensures
        final(out)@ == with_operations(
            old(out)@,
            name@,
            counts@,
            REQUEST_OPERATION_COUNT as nat,
        ),
{
    let ghost start = out@;
    let mut i: usize = 0;
    while i < REQUEST_OPERATION_COUNT
        invariant
            i <= REQUEST_OPERATION_COUNT,
            out@ == with_operations(start, name@, counts@, i as nat),
        decreases REQUEST_OPERATION_COUNT - i,
    {
        put_operation_value(
            out,
            name,
            RequestOperation::at(i),
            decimal_text(counts[i]).as_str(),
        );
        i += 1;
    }
}

/// A text, and how many requests of a kind took no longer than some time.
pub open spec fn with_bucket(
    out: Seq<char>,
    operation: RequestOperation,
    label: Seq<char>,
    count: nat,
) -> Seq<char> {
    out + "runnel_broker_request_duration_seconds_bucket{operation=\""@ + operation_name(operation)
        + "\",le=\""@ + label + "\"} "@ + decimal(count) + "\n"@
}

/// Says how many requests of a kind took no longer than some time.
fn put_bucket(out: &mut String, operation: RequestOperation, label: &str, count: u64)
    ensures
        final(out)@ == with_bucket(old(out)@, operation, label@, count as nat),
{
    out.append("runnel_broker_request_duration_seconds_bucket{operation=\"");
    out.append(operation.name());
    out.append("\",le=\"");
    out.append(label);
    out.append("\"} ");
    out.append(decimal_text(count).as_str());
    out.append("\n");
}

/// A text, and how many requests of a kind took no longer than each of the first
/// limits.
pub open spec fn with_buckets(
    out: Seq<char>,
    operation: RequestOperation,
    buckets: Seq<u64>,
    limits: nat,
) -> Seq<char>
    decreases limits,
{
    if limits == 0 {
        out
    } else {
        with_bucket(
            with_buckets(out, operation, buckets, (limits - 1) as nat),
            operation,
            bucket_label(limits - 1),
            up_to(buckets, limits - 1),
        )
    }
}

/// A text, and how long the requests of a kind took. `sum` is how the time that
/// they took together is written, in seconds.
pub open spec fn with_histogram(
    out: Seq<char>,
    operation: RequestOperation,
    duration: DurationView,
    sum: Seq<char>,
) -> Seq<char> {
    let out = with_buckets(out, operation, duration.buckets, LATENCY_BUCKET_COUNT as nat);
    let out = with_bucket(out, operation, "+Inf"@, duration.count as nat);
    let out = with_operation_value(
        out,
        "runnel_broker_request_duration_seconds_sum"@,
        operation,
        sum,
    );
    with_operation_value(
        out,
        "runnel_broker_request_duration_seconds_count"@,
        operation,
        decimal(duration.count as nat),
    )
}

/// Whether the requests that were sorted into spans, taken together, are within
/// what a number can hold.
pub open spec fn buckets_fit(duration: DurationView) -> bool {
    up_to(duration.buckets, LATENCY_BUCKET_COUNT - 1) <= u64::MAX
}

/// A sum over fewer spans is no more than one over all.
proof fn lemma_up_to_grows(buckets: Seq<u64>, a: int, b: int)
    requires
        a <= b,
    ensures
        up_to(buckets, a) <= up_to(buckets, b),
    decreases b - a,
{
    if a < b {
        lemma_up_to_grows(buckets, a, b - 1);
        if b < 0 {
            assert(up_to(buckets, b) == 0);
        }
    }
}

/// Says how long the requests of a kind took.
fn put_histogram(
    out: &mut String,
    operation: RequestOperation,
    duration: &RequestDuration,
    sum: &str,
)
    requires
        buckets_fit(duration@),
    ensures
        final(out)@ == with_histogram(old(out)@, operation, duration@, sum@),
{
    let ghost start = out@;
    let ghost buckets = duration@.buckets;
    let mut cumulative: u64 = 0;
    let mut i: usize = 0;
    while i < LATENCY_BUCKET_COUNT
        invariant
            i <= LATENCY_BUCKET_COUNT,
            buckets == duration@.buckets,
            buckets_fit(duration@),
            cumulative == up_to(buckets, i - 1),
            out@ == with_buckets(start, operation, buckets, i as nat),
        decreases LATENCY_BUCKET_COUNT - i,
    {
        proof {
            lemma_up_to_grows(buckets, i as int, LATENCY_BUCKET_COUNT - 1);
        }
        cumulative = cumulative + duration.buckets[i];
        put_bucket(out, operation, bucket_label_text(i), cumulative);
        i += 1;
    }
    put_bucket(out, operation, "+Inf", duration.count);
    put_operation_value(out, "runnel_broker_request_duration_seconds_sum", operation, sum);
    put_operation_value(
        out,
        "runnel_broker_request_duration_seconds_count",
        operation,
        decimal_text(duration.count).as_str(),
    );
}

/// A text, and how long the requests of each of the first kinds took.
pub open spec fn with_histograms(
    out: Seq<char>,
    durations: Seq<DurationView>,
    sums: Seq<String>,
    kinds: nat,
) -> Seq<char>
    decreases kinds,
{
    if kinds == 0 {
        out
    } else {
        with_histogram(
            with_histograms(out, durations, sums, (kinds - 1) as nat),
            operation_at(kinds - 1),
            durations[kinds - 1],
            sums[kinds - 1]@,
        )
    }
}

/// Whether the requests of every kind that were sorted into spans, taken
/// together, are within what a number can hold.
pub open spec fn histograms_fit(m: MetricsView) -> bool {
    forall|i: int|
        0 <= i < REQUEST_OPERATION_COUNT ==> buckets_fit(#[trigger] m.request_durations[i])
}

/// Whether the requests of every kind that were sorted into spans, taken
/// together, are within what a number can hold.
pub fn can_format(metrics: &ServerMetrics) -> (r: bool)
    ensures
        r == histograms_fit(metrics@),
{
    let mut i: usize = 0;
    while i < REQUEST_OPERATION_COUNT
        invariant
            i <= REQUEST_OPERATION_COUNT,
            forall|j: int| 0 <= j < i ==> buckets_fit(#[trigger] metrics@.request_durations[j]),
        decreases REQUEST_OPERATION_COUNT - i,
    {
        let duration = metrics.request_durations[i];
        let ghost buckets = duration@.buckets;
        proof {
            assert(metrics@.request_durations[i as int] == duration@);
            reveal_with_fuel(up_to, 7);
        }
        let b = duration.buckets;
        let total: u128 = b[0] as u128 + b[1] as u128 + b[2] as u128 + b[3] as u128 + b[4] as u128
            + b[5] as u128;
        if total > u64::MAX as u128 {
            proof {
                assert(!buckets_fit(metrics@.request_durations[i as int]));
            }
            return false;
        }
        i += 1;
    }
    true
}

/// What is told first: all that is no matter of the kinds of requests, or of snapshots.
#[verifier::opaque]
pub open spec fn told_first(
    health: Option<HealthSnapshot>,
    m: MetricsView,
    admission: ProtocolAdmission,
    timeout: Seq<char>,
) -> Seq<char> {
    let a = match health {
        Some(health) => with_engine_gauges(Seq::empty(), health),
        None => Seq::empty(),
    };
    let b = with_metric(
        a,
        "runnel_engine_health_available"@,
        "gauge"@,
        "Whether this scrape includes a fresh bounded engine health snapshot."@,
        if health is Some {
            "1"@
        } else {
            "0"@
        },
    );
    let c = with_connections(b, m, admission);
    let d = with_metric(
        c,
        "runnel_broker_request_timeout_seconds"@,
        "gauge"@,
        "Configured maximum broker protocol request duration in seconds."@,
        timeout,
    );
    let e = with_rejections(d, m);
    let f = match health {
        Some(health) => with_engine_counters(e, health),
        None => e,
    };
    with_work(f, m)
}

/// What is told next: the requests of each kind.
#[verifier::opaque]
pub open spec fn told_of_requests(out: Seq<char>, m: MetricsView) -> Seq<char> {
    let name = "runnel_broker_requests_total"@;
    let about = "Broker protocol requests by fixed operation kind."@;
    let a = with_type(with_help(out, name, about), name, "counter"@);
    let b = with_operations(a, name, m.requests, REQUEST_OPERATION_COUNT as nat);
    let name = "runnel_broker_request_failures_total"@;
    let about = "Broker protocol requests that returned an error by fixed operation kind."@;
    let c = with_type(with_help(b, name, about), name, "counter"@);
    with_operations(c, name, m.request_failures, REQUEST_OPERATION_COUNT as nat)
}

/// What is told last: how long requests took, and the snapshots.
#[verifier::opaque]
pub open spec fn told_last(
    out: Seq<char>,
    m: MetricsView,
    sums: Seq<String>,
    snapshots: Option<SnapshotMetricsSnapshot>,
) -> Seq<char> {
    let name = "runnel_broker_request_duration_seconds"@;
    let about = "Broker protocol request duration by fixed operation kind."@;
    let a = with_type(with_help(out, name, about), name, "histogram"@);
    let b = with_histograms(a, m.request_durations, sums, REQUEST_OPERATION_COUNT as nat);
    match snapshots {
        Some(snapshots) => with_snapshots(b, snapshots),
        None => b,
    }
}

/// All that the server tells. `timeout` is how the time of a request is written,
/// and `sums` how the time that the requests of each kind took together is, in
/// seconds.
pub open spec fn metrics_text(
    health: Option<HealthSnapshot>,
    snapshots: Option<SnapshotMetricsSnapshot>,
    m: MetricsView,
    admission: ProtocolAdmission,
    timeout: Seq<char>,
    sums: Seq<String>,
) -> Seq<char> {
    let first = told_first(health, m, admission, timeout);
    let next = told_of_requests(first, m);
    told_last(next, m, sums, snapshots)
}

/// All that the server tells. `timeout` is how the time of a request is written,
/// and `sums` how the time that the requests of each kind took together is, in
/// seconds.
pub fn format_metrics(
    health: Option<HealthSnapshot>,
    snapshots: Option<SnapshotMetricsSnapshot>,
    metrics: &ServerMetrics,
    admission: &ProtocolAdmission,
    timeout: &str,
    sums: &Vec<String>,
) -> (r: String)
    requires
        histograms_fit(metrics@),
        sums@.len() == REQUEST_OPERATION_COUNT,
    ensures
        r@ == metrics_text(health, snapshots, metrics@, *admission, timeout@, sums@),
{
    let mut text = String::new();
    put_first(&mut text, &health, metrics, admission, timeout);
    put_requests(&mut text, metrics);
    put_last(&mut text, metrics, sums, &snapshots);
    text
}

/// Says what is told first.
fn put_first(
    out: &mut String,
    health: &Option<HealthSnapshot>,
    metrics: &ServerMetrics,
    admission: &ProtocolAdmission,
    timeout: &str,
)
    requires
        old(out)@.len() == 0,
    ensures
        final(out)@ == told_first(*health, metrics@, *admission, timeout@),
{
    proof {
        reveal(told_first);
        assert(out@ =~= Seq::<char>::empty());
    }
    if let Some(health) = health {
        put_engine_gauges(out, health);
    }
    put_metric(
        out,
        "runnel_engine_health_available",
        "gauge",
        "Whether this scrape includes a fresh bounded engine health snapshot.",
        if health.is_some() {
            "1"
        } else {
            "0"
        },
    );
    put_connections(out, metrics, admission);
    put_metric(
        out,
        "runnel_broker_request_timeout_seconds",
        "gauge",
        "Configured maximum broker protocol request duration in seconds.",
        timeout,
    );
    put_rejections(out, metrics);
    if let Some(health) = health {
        put_engine_counters(out, health);
    }
    put_work(out, metrics);
}

/// Says how many requests of each kind there were.
fn put_requests(out: &mut String, metrics: &ServerMetrics)
    ensures
        final(out)@ == told_of_requests(old(out)@, metrics@),
{
    proof {
        reveal(told_of_requests);
    }
    put_help(
        out,
        "runnel_broker_requests_total",
        "Broker protocol requests by fixed operation kind.",
    );
    put_type(out, "runnel_broker_requests_total", "counter");
    put_operations(out, "runnel_broker_requests_total", &metrics.requests);
    put_help(
        out,
        "runnel_broker_request_failures_total",
        "Broker protocol requests that returned an error by fixed operation kind.",
    );
    put_type(out, "runnel_broker_request_failures_total", "counter");
    put_operations(out, "runnel_broker_request_failures_total", &metrics.request_failures);
}

/// Says what is told last.
fn put_last(
    out: &mut String,
    metrics: &ServerMetrics,
    sums: &Vec<String>,
    snapshots: &Option<SnapshotMetricsSnapshot>,
)
    requires
        histograms_fit(metrics@),
        sums@.len() == REQUEST_OPERATION_COUNT,
    ensures
        final(out)@ == told_last(old(out)@, metrics@, sums@, *snapshots),
{
    proof {
        reveal(told_last);
    }
    put_help(
        out,
        "runnel_broker_request_duration_seconds",
        "Broker protocol request duration by fixed operation kind.",
    );
    put_type(out, "runnel_broker_request_duration_seconds", "histogram");
    put_histograms(out, metrics, sums);
    if let Some(snapshots) = snapshots {
        put_snapshots(out, snapshots);
    }
}

/// Says how long the requests of every kind took.
fn put_histograms(out: &mut String, metrics: &ServerMetrics, sums: &Vec<String>)
    requires
        histograms_fit(metrics@),
        sums@.len() == REQUEST_OPERATION_COUNT,
    ensures
        final(out)@ == with_histograms(
            old(out)@,
            metrics@.request_durations,
            sums@,
            REQUEST_OPERATION_COUNT as nat,
        ),
{
    let ghost start = out@;
    let mut i: usize = 0;
    while i < REQUEST_OPERATION_COUNT
        invariant
            i <= REQUEST_OPERATION_COUNT,
            histograms_fit(metrics@),
            sums@.len() == REQUEST_OPERATION_COUNT,
            out@ == with_histograms(start, metrics@.request_durations, sums@, i as nat),
        decreases REQUEST_OPERATION_COUNT - i,
    {
        let duration = metrics.request_durations[i];
        proof {
            assert(metrics@.request_durations[i as int] == duration@);
        }
        put_histogram(out, RequestOperation::at(i), &duration, sums[i].as_str());
        i += 1;
    }
}

} // verus!
