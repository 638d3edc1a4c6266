//! What the text of the metrics tells: every number that is counted, under its name.

use vstd::prelude::*;

use crate::engine::HealthSnapshot;
use crate::metrics_text::{
    metrics_text, told_first, told_last, told_of_requests, with_bucket, with_buckets,
    with_connections, with_engine_counters, with_engine_gauges, with_help, with_histogram,
    with_histograms, with_metric, with_operation_value, with_operations, with_rejections,
    with_sample, with_snapshots, with_type, with_value, with_work,
};
use crate::observability::{
    bucket_label, bucket_limit, operation_at, operation_index, operation_name, up_to, DurationView,
    MetricsView, RequestOperation,
};
use crate::protocol::ProtocolAdmission;
use crate::state_machine_store::SnapshotMetricsSnapshot;
use crate::text::decimal;

verus! {

/// A text is made of whole lines.
#[verifier::opaque]
pub open spec fn whole_lines(text: Seq<char>) -> bool {
    text.len() == 0 || text.last() == '\n'
}

/// A line stands in a text between two others.
pub open spec fn line_between(
    text: Seq<char>,
    line: Seq<char>,
    before: Seq<char>,
    behind: Seq<char>,
) -> bool {
    whole_lines(before) && text == before + line + "\n"@ + behind
}

/// A text has a line.
#[verifier::opaque]
pub open spec fn has_line(text: Seq<char>, line: Seq<char>) -> bool {
    exists|before: Seq<char>, behind: Seq<char>| line_between(text, line, before, behind)
}

/// A text tells a value under a name.
pub open spec fn tells(text: Seq<char>, name: Seq<char>, value: Seq<char>) -> bool {
    has_line(text, name + " "@ + value)
}

/// A text has every line that another has, and whole lines if the other has.
#[verifier::opaque]
pub open spec fn goes_on(text: Seq<char>, longer: Seq<char>) -> bool {
    whole_lines(text) ==> {
        &&& whole_lines(longer)
        &&& forall|line: Seq<char>| #[trigger] has_line(text, line) ==> has_line(longer, line)
    }
}

/// A line more is a line more.
proof fn lemma_line(out: Seq<char>, line: Seq<char>)
    ensures
        goes_on(out, out + line + "\n"@),
        whole_lines(out) ==> has_line(out + line + "\n"@, line),
{
    reveal(whole_lines);
    reveal(has_line);
    reveal(goes_on);
    reveal_strlit("\n");
    let longer = out + line + "\n"@;
    assert(longer.last() == '\n');
    if whole_lines(out) {
        assert(longer =~= out + line + "\n"@ + Seq::<char>::empty());
        assert(line_between(longer, line, out, Seq::empty()));
        assert forall|other: Seq<char>| #[trigger] has_line(out, other) implies has_line(
            longer,
            other,
        ) by {
            let (before, behind) = choose|before: Seq<char>, behind: Seq<char>|
                line_between(out, other, before, behind);
            let more = behind + (line + "\n"@);
            assert(longer =~= before + other + "\n"@ + more);
            assert(line_between(longer, other, before, more));
        }
    }
}

/// A text tells what the engine holds: its streams, its bytes and the deliveries that are out.
#[verifier::opaque]
pub open spec fn tells_engine_gauges(text: Seq<char>, health: HealthSnapshot) -> bool {
    &&& tells(text, "runnel_streams"@, decimal(health.streams as nat))
    &&& tells(text, "runnel_storage_bytes"@, decimal(health.storage_bytes as nat))
    &&& tells(text, "runnel_in_flight_deliveries"@, decimal(health.in_flight_deliveries as nat))
}

/// A text tells what there is of connections and requests, with how many there may be.
#[verifier::opaque]
pub open spec fn tells_connections(text: Seq<char>, m: MetricsView, admission: ProtocolAdmission) -> bool {
    &&& tells(text, "runnel_active_connections"@, decimal(m.active_connections as nat))
    &&& tells(text, "runnel_broker_max_connections"@, decimal(admission.max_connections as nat))
    &&& tells(text, "runnel_broker_connections_accepted_total"@, decimal(m.connections_accepted as nat))
    &&& tells(text, "runnel_broker_connections_rejected_total"@, decimal(m.connections_rejected as nat))
    &&& tells(text, "runnel_broker_connections_closed_total"@, decimal(m.connections_closed as nat))
    &&& tells(text, "runnel_broker_connection_errors_total"@, decimal(m.connection_errors as nat))
    &&& tells(text, "runnel_active_requests"@, decimal(m.active_requests as nat))
    &&& tells(text, "runnel_broker_max_in_flight_requests"@, decimal(admission.max_in_flight_requests as nat))
    &&& tells(text, "runnel_broker_max_request_bytes"@, decimal(admission.max_request_bytes as nat))
}

/// A text tells what was turned away, what took too long and how much was said.
#[verifier::opaque]
pub open spec fn tells_rejections(text: Seq<char>, m: MetricsView) -> bool {
    &&& tells(text, "runnel_broker_requests_rejected_total"@, decimal(m.requests_rejected as nat))
    &&& tells(text, "runnel_broker_request_size_rejections_total"@, decimal(m.request_size_rejections as nat))
    &&& tells(text, "runnel_broker_request_saturation_total"@, decimal(m.request_saturation_rejections as nat))
    &&& tells(text, "runnel_broker_response_write_timeouts_total"@, decimal(m.response_write_timeouts as nat))
    &&& tells(text, "runnel_broker_request_timeouts_total"@, decimal(m.request_timeouts as nat))
    &&& tells(text, "runnel_broker_request_bytes_total"@, decimal(m.request_bytes as nat))
    &&& tells(text, "runnel_broker_response_bytes_total"@, decimal(m.response_bytes as nat))
}

/// A text tells what was delivered again and what was given up.
#[verifier::opaque]
pub open spec fn tells_engine_counters(text: Seq<char>, health: HealthSnapshot) -> bool {
    &&& tells(text, "runnel_redeliveries_total"@, decimal(health.redeliveries as nat))
    &&& tells(text, "runnel_dead_letters_total"@, decimal(health.dead_letters as nat))
}

/// A text tells what was done for clients.
#[verifier::opaque]
pub open spec fn tells_work(text: Seq<char>, m: MetricsView) -> bool {
    &&& tells(text, "runnel_deliveries_total"@, decimal(m.deliveries as nat))
    &&& tells(text, "runnel_delivered_bytes_total"@, decimal(m.delivered_bytes as nat))
    &&& tells(text, "runnel_stream_creations_total"@, decimal(m.stream_creations as nat))
    &&& tells(text, "runnel_publishes_total"@, decimal(m.publishes as nat))
    &&& tells(text, "runnel_published_bytes_total"@, decimal(m.published_bytes as nat))
    &&& tells(text, "runnel_acknowledgements_total"@, decimal(m.acknowledgements as nat))
    &&& tells(text, "runnel_metrics_scrapes_total"@, decimal(m.metrics_scrapes as nat))
    &&& tells(text, "runnel_metrics_scrape_failures_total"@, decimal(m.metrics_scrape_failures as nat))
    &&& tells(text, "runnel_health_check_failures_total"@, decimal(m.health_check_failures as nat))
}

/// A text tells what was counted of snapshots.
#[verifier::opaque]
pub open spec fn tells_snapshots(text: Seq<char>, snapshots: SnapshotMetricsSnapshot) -> bool {
    &&& tells(text, "runnel_snapshot_builds_started_total"@, decimal(snapshots.builds_started as nat))
    &&& tells(text, "runnel_snapshot_builds_completed_total"@, decimal(snapshots.builds_completed as nat))
    &&& tells(text, "runnel_snapshot_build_failures_total"@, decimal(snapshots.build_failures as nat))
    &&& tells(text, "runnel_snapshot_installs_started_total"@, decimal(snapshots.installs_started as nat))
    &&& tells(text, "runnel_snapshot_installs_completed_total"@, decimal(snapshots.installs_completed as nat))
    &&& tells(text, "runnel_snapshot_install_failures_total"@, decimal(snapshots.install_failures as nat))
    &&& tells(text, "runnel_snapshot_install_bytes_total"@, decimal(snapshots.install_bytes as nat))
    &&& tells(text, "runnel_snapshot_installs_in_progress"@, decimal(snapshots.installs_in_progress as nat))
    &&& tells(text, "runnel_snapshot_transfer_chunks_received_total"@, decimal(snapshots.transfer_chunks as nat))
    &&& tells(text, "runnel_snapshot_transfer_final_chunks_received_total"@, decimal(snapshots.transfer_final_chunks as nat))
    &&& tells(text, "runnel_snapshot_transfer_bytes_received_total"@, decimal(snapshots.transfer_bytes as nat))
}

/// What a text tells, one that goes on from it tells too.
proof fn lemma_kept(text: Seq<char>, longer: Seq<char>)
    requires
        whole_lines(text),
        goes_on(text, longer),
    ensures
        whole_lines(longer),
        forall|line: Seq<char>| #[trigger] has_line(text, line) ==> has_line(longer, line),
        forall|health: HealthSnapshot| #[trigger] tells_engine_gauges(text, health) ==> tells_engine_gauges(longer, health),
        forall|m: MetricsView, admission: ProtocolAdmission| #[trigger] tells_connections(text, m, admission) ==> tells_connections(longer, m, admission),
        forall|m: MetricsView| #[trigger] tells_rejections(text, m) ==> tells_rejections(longer, m),
        forall|health: HealthSnapshot| #[trigger] tells_engine_counters(text, health) ==> tells_engine_counters(longer, health),
        forall|m: MetricsView| #[trigger] tells_work(text, m) ==> tells_work(longer, m),
        forall|snapshots: SnapshotMetricsSnapshot| #[trigger] tells_snapshots(text, snapshots) ==> tells_snapshots(longer, snapshots),
{
    reveal(goes_on);
    reveal(tells_engine_gauges);
    reveal(tells_connections);
    reveal(tells_rejections);
    reveal(tells_engine_counters);
    reveal(tells_work);
    reveal(tells_snapshots);
}

/// A metric goes on with what it is about and what it is, and tells its value.
proof fn lemma_metric(
    out: Seq<char>,
    name: Seq<char>,
    kind: Seq<char>,
    help: Seq<char>,
    value: Seq<char>,
)
    ensures
        goes_on(out, with_help(out, name, help)),
        goes_on(out, with_type(out, name, kind)),
        goes_on(out, with_sample(out, name, kind, value)),
        goes_on(out, with_metric(out, name, kind, help, value)),
        whole_lines(out) ==> tells(with_sample(out, name, kind, value), name, value),
        whole_lines(out) ==> tells(with_metric(out, name, kind, help, value), name, value),
{
    reveal(goes_on);
    let a = "# HELP "@ + name + " "@ + help;
    let b = "# TYPE "@ + name + " "@ + kind;
    let c = name + " "@ + value;
    let helped = with_help(out, name, help);
    assert(helped =~= out + a + "\n"@);
    lemma_line(out, a);
    assert(with_type(out, name, kind) =~= out + b + "\n"@);
    lemma_line(out, b);
    let typed = with_type(out, name, kind);
    assert(with_value(typed, name, value) =~= typed + c + "\n"@);
    lemma_line(typed, c);
    assert(with_type(helped, name, kind) =~= helped + b + "\n"@);
    lemma_line(helped, b);
    let both = with_type(helped, name, kind);
    assert(with_value(both, name, value) =~= both + c + "\n"@);
    lemma_line(both, c);
}

/// So it is with every metric.
proof fn lemma_metrics()
    ensures
        forall|out: Seq<char>, name: Seq<char>, help: Seq<char>| #[trigger]
            with_help(out, name, help) == with_help(out, name, help) && goes_on(
                out,
                with_help(out, name, help),
            ),
        forall|out: Seq<char>, name: Seq<char>, kind: Seq<char>, value: Seq<char>| #[trigger]
            with_sample(out, name, kind, value) == with_sample(out, name, kind, value) && goes_on(
                out,
                with_sample(out, name, kind, value),
            ) && (whole_lines(out) ==> tells(with_sample(out, name, kind, value), name, value)),
        forall|
            out: Seq<char>,
            name: Seq<char>,
            kind: Seq<char>,
            help: Seq<char>,
            value: Seq<char>,
        | #[trigger]
            with_metric(out, name, kind, help, value) == with_metric(out, name, kind, help, value)
                && goes_on(out, with_metric(out, name, kind, help, value)) && (whole_lines(out)
                ==> tells(with_metric(out, name, kind, help, value), name, value)),
{
    assert forall|out: Seq<char>, name: Seq<char>, help: Seq<char>| #[trigger]
        with_help(out, name, help) == with_help(out, name, help) && goes_on(
            out,
            with_help(out, name, help),
        ) by {
        lemma_metric(out, name, Seq::empty(), help, Seq::empty());
    }
    assert forall|out: Seq<char>, name: Seq<char>, kind: Seq<char>, value: Seq<char>| #[trigger]
        with_sample(out, name, kind, value) == with_sample(out, name, kind, value) && goes_on(
            out,
            with_sample(out, name, kind, value),
        ) && (whole_lines(out) ==> tells(with_sample(out, name, kind, value), name, value)) by {
        lemma_metric(out, name, kind, Seq::empty(), value);
    }
    assert forall|
        out: Seq<char>,
        name: Seq<char>,
        kind: Seq<char>,
        help: Seq<char>,
        value: Seq<char>,
    | #[trigger]
        with_metric(out, name, kind, help, value) == with_metric(out, name, kind, help, value)
            && goes_on(out, with_metric(out, name, kind, help, value)) && (whole_lines(out)
            ==> tells(with_metric(out, name, kind, help, value), name, value)) by {
        lemma_metric(out, name, kind, help, value);
    }
}

/// What the engine holds is told: its streams, its bytes and the deliveries that are out.
pub proof fn law_engine_gauges_are_told(out: Seq<char>, health: HealthSnapshot)
    requires
        whole_lines(out),
    ensures
        goes_on(out, with_engine_gauges(out, health)),
        tells_engine_gauges(with_engine_gauges(out, health), health),
{
    reveal(goes_on);
    reveal(tells_engine_gauges);
    lemma_metrics();
}

/// What there is of connections and requests is told, with how many there may be.
pub proof fn law_connections_are_told(out: Seq<char>, m: MetricsView, admission: ProtocolAdmission)
    requires
        whole_lines(out),
    ensures
        goes_on(out, with_connections(out, m, admission)),
        tells_connections(with_connections(out, m, admission), m, admission),
{
    reveal(goes_on);
    reveal(tells_connections);
    lemma_metrics();
}

/// What was turned away, what took too long and how much was said is told.
pub proof fn law_rejections_are_told(out: Seq<char>, m: MetricsView)
    requires
        whole_lines(out),
    ensures
        goes_on(out, with_rejections(out, m)),
        tells_rejections(with_rejections(out, m), m),
{
    reveal(goes_on);
    reveal(tells_rejections);
    lemma_metrics();
}

/// What was delivered again and what was given up is told.
pub proof fn law_engine_counters_are_told(out: Seq<char>, health: HealthSnapshot)
    requires
        whole_lines(out),
    ensures
        goes_on(out, with_engine_counters(out, health)),
        tells_engine_counters(with_engine_counters(out, health), health),
{
    reveal(goes_on);
    reveal(tells_engine_counters);
    lemma_metrics();
}

/// What was done for clients is told.
pub proof fn law_work_is_told(out: Seq<char>, m: MetricsView)
    requires
        whole_lines(out),
    ensures
        goes_on(out, with_work(out, m)),
        tells_work(with_work(out, m), m),
{
    reveal(goes_on);
    reveal(tells_work);
    lemma_metrics();
}

/// What was counted of snapshots is told.
pub proof fn law_snapshots_are_told(out: Seq<char>, snapshots: SnapshotMetricsSnapshot)
    requires
        whole_lines(out),
    ensures
        goes_on(out, with_snapshots(out, snapshots)),
        tells_snapshots(with_snapshots(out, snapshots), snapshots),
{
    reveal(goes_on);
    reveal(tells_snapshots);
    lemma_metrics();
}

/// What a metric says of a kind of request stands on a line of its own.
pub open spec fn operation_line(
    name: Seq<char>,
    operation: RequestOperation,
    value: Seq<char>,
) -> Seq<char> {
    name + "{operation=\""@ + operation_name(operation) + "\"} "@ + value
}

/// How many requests of a kind took no longer than some time stands on a line of its own.
pub open spec fn bucket_line(
    operation: RequestOperation,
    label: Seq<char>,
    count: nat,
) -> Seq<char> {
    "runnel_broker_request_duration_seconds_bucket{operation=\""@ + operation_name(operation)
        + "\",le=\""@ + label + "\"} "@ + decimal(count)
}

/// A line about a kind of request goes on, and is there.
proof fn lemma_operation_value(
    out: Seq<char>,
    name: Seq<char>,
    operation: RequestOperation,
    value: Seq<char>,
    label: Seq<char>,
    count: nat,
)
    ensures
        goes_on(out, with_operation_value(out, name, operation, value)),
        whole_lines(out) ==> has_line(
            with_operation_value(out, name, operation, value),
            operation_line(name, operation, value),
        ),
        goes_on(out, with_bucket(out, operation, label, count)),
        whole_lines(out) ==> has_line(
            with_bucket(out, operation, label, count),
            bucket_line(operation, label, count),
        ),
{
    let a = operation_line(name, operation, value);
    let b = bucket_line(operation, label, count);
    assert(with_operation_value(out, name, operation, value) =~= out + a + "\n"@);
    assert(with_bucket(out, operation, label, count) =~= out + b + "\n"@);
    lemma_line(out, a);
    lemma_line(out, b);
}

/// What a metric counts is told of every kind of request, under the name of the kind.
pub proof fn law_kinds_of_requests_are_told(
    out: Seq<char>,
    name: Seq<char>,
    counts: Seq<u64>,
    kinds: nat,
    operation: RequestOperation,
)
    requires
        whole_lines(out),
        kinds <= 9,
    ensures
        goes_on(out, with_operations(out, name, counts, kinds)),
        operation_index(operation) < kinds ==> has_line(
            with_operations(out, name, counts, kinds),
            operation_line(name, operation, decimal(counts[operation_index(operation)] as nat)),
        ),
    decreases kinds,
{
    reveal(goes_on);
    if kinds > 0 {
        let less = (kinds - 1) as nat;
        law_kinds_of_requests_are_told(out, name, counts, less, operation);
        lemma_operation_value(
            with_operations(out, name, counts, less),
            name,
            operation_at(kinds - 1),
            decimal(counts[kinds - 1] as nat),
            Seq::empty(),
            0,
        );
    }
}

/// How many requests of a kind took no longer than each limit is told.
proof fn lemma_buckets(
    out: Seq<char>,
    operation: RequestOperation,
    buckets: Seq<u64>,
    limits: nat,
    bucket: int,
)
    requires
        whole_lines(out),
    ensures
        goes_on(out, with_buckets(out, operation, buckets, limits)),
        0 <= bucket < limits ==> has_line(
            with_buckets(out, operation, buckets, limits),
            bucket_line(operation, bucket_label(bucket), up_to(buckets, bucket)),
        ),
    decreases limits,
{
    reveal(goes_on);
    if limits > 0 {
        let less = (limits - 1) as nat;
        lemma_buckets(out, operation, buckets, less, bucket);
        lemma_operation_value(
            with_buckets(out, operation, buckets, less),
            Seq::empty(),
            operation,
            Seq::empty(),
            bucket_label(limits - 1),
            up_to(buckets, limits - 1),
        );
    }
}

/// How long the requests of a kind took is told: for each limit how many took no longer,
/// how many there were, and how long they took together.
proof fn lemma_histogram(
    out: Seq<char>,
    operation: RequestOperation,
    duration: DurationView,
    sum: Seq<char>,
    bucket: int,
)
    requires
        whole_lines(out),
        0 <= bucket < 6,
    ensures
        ({
            let text = with_histogram(out, operation, duration, sum);
            &&& goes_on(out, text)
            &&& has_line(
                text,
                bucket_line(operation, bucket_label(bucket), up_to(duration.buckets, bucket)),
            )
            &&& has_line(text, bucket_line(operation, "+Inf"@, duration.count as nat))
            &&& has_line(
                text,
                operation_line("runnel_broker_request_duration_seconds_sum"@, operation, sum),
            )
            &&& has_line(
                text,
                operation_line(
                    "runnel_broker_request_duration_seconds_count"@,
                    operation,
                    decimal(duration.count as nat),
                ),
            )
        }),
{
    reveal(goes_on);
    let a = with_buckets(out, operation, duration.buckets, 6);
    lemma_buckets(out, operation, duration.buckets, 6, bucket);
    let b = with_bucket(a, operation, "+Inf"@, duration.count as nat);
    let name = "runnel_broker_request_duration_seconds_sum"@;
    lemma_operation_value(a, name, operation, sum, "+Inf"@, duration.count as nat);
    let c = with_operation_value(b, name, operation, sum);
    lemma_operation_value(b, name, operation, sum, Seq::empty(), 0);
    lemma_operation_value(
        c,
        "runnel_broker_request_duration_seconds_count"@,
        operation,
        decimal(duration.count as nat),
        Seq::empty(),
        0,
    );
}

/// How long requests took is told of every kind: for each limit how many took no longer, how
/// many there were, and how long they took together.
pub proof fn law_durations_are_told(
    out: Seq<char>,
    durations: Seq<DurationView>,
    sums: Seq<String>,
    kinds: nat,
    operation: RequestOperation,
    bucket: int,
)
    requires
        whole_lines(out),
        kinds <= 9,
        0 <= bucket < 6,
    ensures
        ({
            let text = with_histograms(out, durations, sums, kinds);
            let i = operation_index(operation);
            &&& goes_on(out, text)
            &&& i < kinds ==> {
                &&& has_line(
                    text,
                    bucket_line(
                        operation,
                        bucket_label(bucket),
                        up_to(durations[i].buckets, bucket),
                    ),
                )
                &&& has_line(text, bucket_line(operation, "+Inf"@, durations[i].count as nat))
                &&& has_line(
                    text,
                    operation_line(
                        "runnel_broker_request_duration_seconds_sum"@,
                        operation,
                        sums[i]@,
                    ),
                )
                &&& has_line(
                    text,
                    operation_line(
                        "runnel_broker_request_duration_seconds_count"@,
                        operation,
                        decimal(durations[i].count as nat),
                    ),
                )
            }
        }),
    decreases kinds,
{
    reveal(goes_on);
    if kinds > 0 {
        let less = (kinds - 1) as nat;
        law_durations_are_told(out, durations, sums, less, operation, bucket);
        lemma_histogram(
            with_histograms(out, durations, sums, less),
            operation_at(kinds - 1),
            durations[kinds - 1],
            sums[kinds - 1]@,
            bucket,
        );
    }
}

/// What is told first tells what it should.
proof fn lemma_told_first(
    health: Option<HealthSnapshot>,
    m: MetricsView,
    admission: ProtocolAdmission,
    timeout: Seq<char>,
)
    ensures
        ({
            let text = told_first(health, m, admission, timeout);
            &&& whole_lines(text)
            &&& tells(
                text,
                "runnel_engine_health_available"@,
                if health is Some {
                    "1"@
                } else {
                    "0"@
                },
            )
            &&& tells(text, "runnel_broker_request_timeout_seconds"@, timeout)
            &&& tells_connections(text, m, admission)
            &&& tells_rejections(text, m)
            &&& tells_work(text, m)
            &&& health matches Some(health) ==> tells_engine_gauges(text, health)
                && tells_engine_counters(text, health)
        }),
{
    reveal(told_first);
    let none = Seq::<char>::empty();
    assert(whole_lines(none)) by {
        reveal(whole_lines);
    }
    let a = match health {
        Some(health) => with_engine_gauges(none, health),
        None => none,
    };
    if let Some(health) = health {
        law_engine_gauges_are_told(none, health);
        lemma_kept(none, a);
    }
    let available = if health is Some {
        "1"@
    } else {
        "0"@
    };
    let about = "Whether this scrape includes a fresh bounded engine health snapshot."@;
    let b = with_metric(a, "runnel_engine_health_available"@, "gauge"@, about, available);
    lemma_metric(a, "runnel_engine_health_available"@, "gauge"@, about, available);
    lemma_kept(a, b);
    let c = with_connections(b, m, admission);
    law_connections_are_told(b, m, admission);
    lemma_kept(b, c);
    let about = "Configured maximum broker protocol request duration in seconds."@;
    let d = with_metric(c, "runnel_broker_request_timeout_seconds"@, "gauge"@, about, timeout);
    lemma_metric(c, "runnel_broker_request_timeout_seconds"@, "gauge"@, about, timeout);
    lemma_kept(c, d);
    let e = with_rejections(d, m);
    law_rejections_are_told(d, m);
    lemma_kept(d, e);
    let f = match health {
        Some(health) => with_engine_counters(e, health),
        None => e,
    };
    if let Some(health) = health {
        law_engine_counters_are_told(e, health);
        lemma_kept(e, f);
    }
    law_work_is_told(f, m);
    lemma_kept(f, with_work(f, m));
}

/// What is told next tells what it should.
proof fn lemma_told_of_requests(out: Seq<char>, m: MetricsView, operation: RequestOperation)
    requires
        whole_lines(out),
    ensures
        ({
            let text = told_of_requests(out, m);
            let i = operation_index(operation);
            &&& goes_on(out, text)
            &&& has_line(
                text,
                operation_line(
                    "runnel_broker_requests_total"@,
                    operation,
                    decimal(m.requests[i] as nat),
                ),
            )
            &&& has_line(
                text,
                operation_line(
                    "runnel_broker_request_failures_total"@,
                    operation,
                    decimal(m.request_failures[i] as nat),
                ),
            )
        }),
{
    reveal(told_of_requests);
    let none = Seq::<char>::empty();
    let name = "runnel_broker_requests_total"@;
    let about = "Broker protocol requests by fixed operation kind."@;
    let helped = with_help(out, name, about);
    let a = with_type(helped, name, "counter"@);
    lemma_metric(out, name, "counter"@, about, none);
    lemma_kept(out, helped);
    lemma_metric(helped, name, "counter"@, about, none);
    lemma_kept(helped, a);
    let b = with_operations(a, name, m.requests, 9);
    law_kinds_of_requests_are_told(a, name, m.requests, 9, operation);
    lemma_kept(a, b);
    let name = "runnel_broker_request_failures_total"@;
    let about = "Broker protocol requests that returned an error by fixed operation kind."@;
    let helped = with_help(b, name, about);
    let c = with_type(helped, name, "counter"@);
    lemma_metric(b, name, "counter"@, about, none);
    lemma_kept(b, helped);
    lemma_metric(helped, name, "counter"@, about, none);
    lemma_kept(helped, c);
    law_kinds_of_requests_are_told(c, name, m.request_failures, 9, operation);
    reveal(goes_on);
}

/// What is told last tells what it should.
proof fn lemma_told_last(
    out: Seq<char>,
    m: MetricsView,
    sums: Seq<String>,
    snapshots: Option<SnapshotMetricsSnapshot>,
    operation: RequestOperation,
    bucket: int,
)
    requires
        whole_lines(out),
        0 <= bucket < 6,
    ensures
        ({
            let text = told_last(out, m, sums, snapshots);
            let i = operation_index(operation);
            &&& goes_on(out, text)
            &&& has_line(
                text,
                bucket_line(
                    operation,
                    bucket_label(bucket),
                    up_to(m.request_durations[i].buckets, bucket),
                ),
            )
            &&& has_line(
                text,
                operation_line(
                    "runnel_broker_request_duration_seconds_count"@,
                    operation,
                    decimal(m.request_durations[i].count as nat),
                ),
            )
            &&& has_line(
                text,
                operation_line(
                    "runnel_broker_request_duration_seconds_sum"@,
                    operation,
                    sums[i]@,
                ),
            )
            &&& snapshots matches Some(snapshots) ==> tells_snapshots(text, snapshots)
        }),
{
    reveal(told_last);
    let none = Seq::<char>::empty();
    let name = "runnel_broker_request_duration_seconds"@;
    let about = "Broker protocol request duration by fixed operation kind."@;
    let helped = with_help(out, name, about);
    let a = with_type(helped, name, "histogram"@);
    lemma_metric(out, name, "histogram"@, about, none);
    lemma_kept(out, helped);
    lemma_metric(helped, name, "histogram"@, about, none);
    lemma_kept(helped, a);
    let b = with_histograms(a, m.request_durations, sums, 9);
    law_durations_are_told(a, m.request_durations, sums, 9, operation, bucket);
    lemma_kept(a, b);
    if let Some(snapshots) = snapshots {
        law_snapshots_are_told(b, snapshots);
        lemma_kept(b, with_snapshots(b, snapshots));
    }
    reveal(goes_on);
}

/// All that is counted is told, each number under its name and in decimal, and the lines of
/// every kind of request. What the engine holds is told if it is known, and whether it is;
/// and so is what was counted of snapshots.
pub proof fn law_all_that_is_counted_is_told(
    health: Option<HealthSnapshot>,
    snapshots: Option<SnapshotMetricsSnapshot>,
    m: MetricsView,
    admission: ProtocolAdmission,
    timeout: Seq<char>,
    sums: Seq<String>,
    operation: RequestOperation,
    bucket: int,
)
    requires
        0 <= bucket < 6,
    ensures
        ({
            let text = metrics_text(health, snapshots, m, admission, timeout, sums);
            let i = operation_index(operation);
            &&& whole_lines(text)
            &&& tells(
                text,
                "runnel_engine_health_available"@,
                if health is Some {
                    "1"@
                } else {
                    "0"@
                },
            )
            &&& tells(text, "runnel_broker_request_timeout_seconds"@, timeout)
            &&& tells_connections(text, m, admission)
            &&& tells_rejections(text, m)
            &&& tells_work(text, m)
            &&& health matches Some(health) ==> tells_engine_gauges(text, health)
                && tells_engine_counters(text, health)
            &&& snapshots matches Some(snapshots) ==> tells_snapshots(text, snapshots)
            &&& has_line(
                text,
                operation_line(
                    "runnel_broker_requests_total"@,
                    operation,
                    decimal(m.requests[i] as nat),
                ),
            )
            &&& has_line(
                text,
                operation_line(
                    "runnel_broker_request_failures_total"@,
                    operation,
                    decimal(m.request_failures[i] as nat),
                ),
            )
            &&& has_line(
                text,
                bucket_line(
                    operation,
                    bucket_label(bucket),
                    up_to(m.request_durations[i].buckets, bucket),
                ),
            )
            &&& has_line(
                text,
                operation_line(
                    "runnel_broker_request_duration_seconds_count"@,
                    operation,
                    decimal(m.request_durations[i].count as nat),
                ),
            )
            &&& has_line(
                text,
                operation_line(
                    "runnel_broker_request_duration_seconds_sum"@,
                    operation,
                    sums[i]@,
                ),
            )
        }),
{
    let first = told_first(health, m, admission, timeout);
    let next = told_of_requests(first, m);
    let text = told_last(next, m, sums, snapshots);
    lemma_told_first(health, m, admission, timeout);
    lemma_told_of_requests(first, m, operation);
    lemma_kept(first, next);
    lemma_told_last(next, m, sums, snapshots, operation, bucket);
    lemma_kept(next, text);
}

/// The limits of durations are written in seconds.
pub proof fn law_limits_are_written_in_seconds(bucket: int)
    requires
        0 <= bucket < 6,
    ensures
        bucket_limit(bucket) == 100 && bucket_label(bucket) == "0.0001"@ || bucket_limit(bucket)
            == 1_000 && bucket_label(bucket) == "0.001"@ || bucket_limit(bucket) == 10_000
            && bucket_label(bucket) == "0.01"@ || bucket_limit(bucket) == 100_000 && bucket_label(
            bucket,
        ) == "0.1"@ || bucket_limit(bucket) == 1_000_000 && bucket_label(bucket) == "1"@
            || bucket_limit(bucket) == 10_000_000 && bucket_label(bucket) == "10"@,
        bucket < 5 ==> bucket_limit(bucket + 1) == 10 * bucket_limit(bucket),
{
}

} // verus!
