//! What is counted of the server's work, and how it is told.

use vstd::prelude::*;

use crate::engine::{BrokerError, HealthSnapshot, PollResult};
use crate::protocol::Request;

verus! {

/// How long a check of the engine's condition may take, in seconds.
pub const HEALTH_CHECK_TIMEOUT_SECS: u64 = 1;

/// How many kinds of request are told apart.
pub const REQUEST_OPERATION_COUNT: usize = 9;

/// How many spans of time the durations of requests are sorted into.
pub const LATENCY_BUCKET_COUNT: usize = 6;

/// What kind of request it is.
#[derive(Clone, Copy, Debug, PartialEq, Eq, Structural)]
pub enum RequestOperation {
    CreateStream,
    Publish,
    Poll,
    Replay,
    PollGroup,
    Ack,
    AckGroup,
    Health,
    InvalidRequest,
}

/// The place of a kind of request among all kinds.
pub open spec fn operation_index(operation: RequestOperation) -> int {
    match operation {
        RequestOperation::CreateStream => 0,
        RequestOperation::Publish => 1,
        RequestOperation::Poll => 2,
        RequestOperation::Replay => 3,
        RequestOperation::PollGroup => 4,
        RequestOperation::Ack => 5,
        RequestOperation::AckGroup => 6,
        RequestOperation::Health => 7,
        RequestOperation::InvalidRequest => 8,
    }
}

/// The kind of request at a place among all kinds.
pub open spec fn operation_at(index: int) -> RequestOperation {
    if index == 0 {
        RequestOperation::CreateStream
    } else if index == 1 {
        RequestOperation::Publish
    } else if index == 2 {
        RequestOperation::Poll
    } else if index == 3 {
        RequestOperation::Replay
    } else if index == 4 {
        RequestOperation::PollGroup
    } else if index == 5 {
        RequestOperation::Ack
    } else if index == 6 {
        RequestOperation::AckGroup
    } else if index == 7 {
        RequestOperation::Health
    } else {
        RequestOperation::InvalidRequest
    }
}

/// The name of a kind of request.
pub open spec fn operation_name(operation: RequestOperation) -> Seq<char> {
    match operation {
        RequestOperation::CreateStream => "create_stream"@,
        RequestOperation::Publish => "publish"@,
        RequestOperation::Poll => "poll"@,
        RequestOperation::Replay => "replay"@,
        RequestOperation::PollGroup => "poll_group"@,
        RequestOperation::Ack => "ack"@,
        RequestOperation::AckGroup => "ack_group"@,
        RequestOperation::Health => "health"@,
        RequestOperation::InvalidRequest => "invalid_request"@,
    }
}

/// What kind of request a request is. The three ways to publish are one kind.
pub open spec fn operation_of(request: Request) -> RequestOperation {
    match request {
        Request::CreateStream { .. } => RequestOperation::CreateStream,
        Request::Publish { .. } => RequestOperation::Publish,
        Request::PublishBytes { .. } => RequestOperation::Publish,
        Request::PublishBatch { .. } => RequestOperation::Publish,
        Request::Poll { .. } => RequestOperation::Poll,
        Request::Replay { .. } => RequestOperation::Replay,
        Request::PollGroup { .. } => RequestOperation::PollGroup,
        Request::Ack { .. } => RequestOperation::Ack,
        Request::AckGroup { .. } => RequestOperation::AckGroup,
        Request::Health => RequestOperation::Health,
    }
}

impl RequestOperation {
    /// The place of this kind among all kinds.
    pub fn index(self) -> (r: usize)
        ensures
            r == operation_index(self),
            r < REQUEST_OPERATION_COUNT,
    {
        match self {
            RequestOperation::CreateStream => 0,
            RequestOperation::Publish => 1,
            RequestOperation::Poll => 2,
            RequestOperation::Replay => 3,
            RequestOperation::PollGroup => 4,
            RequestOperation::Ack => 5,
            RequestOperation::AckGroup => 6,
            RequestOperation::Health => 7,
            RequestOperation::InvalidRequest => 8,
        }
    }

    /// The kind at a place among all kinds.
    pub fn at(index: usize) -> (r: Self)
        requires
            index < REQUEST_OPERATION_COUNT,
        ensures
            r == operation_at(index as int),
            operation_index(r) == index,
    {
        if index == 0 {
            RequestOperation::CreateStream
        } else if index == 1 {
            RequestOperation::Publish
        } else if index == 2 {
            RequestOperation::Poll
        } else if index == 3 {
            RequestOperation::Replay
        } else if index == 4 {
            RequestOperation::PollGroup
        } else if index == 5 {
            RequestOperation::Ack
        } else if index == 6 {
            RequestOperation::AckGroup
        } else if index == 7 {
            RequestOperation::Health
        } else {
            RequestOperation::InvalidRequest
        }
    }

    /// The name of this kind.
    pub fn name(self) -> (r: &'static str)
        ensures
            r@ == operation_name(self),
    {
        match self {
            RequestOperation::CreateStream => "create_stream",
            RequestOperation::Publish => "publish",
            RequestOperation::Poll => "poll",
            RequestOperation::Replay => "replay",
            RequestOperation::PollGroup => "poll_group",
            RequestOperation::Ack => "ack",
            RequestOperation::AckGroup => "ack_group",
            RequestOperation::Health => "health",
            RequestOperation::InvalidRequest => "invalid_request",
        }
    }

    /// What kind of request a request is.
    pub fn from_request(request: &Request) -> (r: Self)
        ensures
            r == operation_of(*request),
    {
        match request {
            Request::CreateStream { .. } => RequestOperation::CreateStream,
            Request::Publish { .. } => RequestOperation::Publish,
            Request::PublishBytes { .. } => RequestOperation::Publish,
            Request::PublishBatch { .. } => RequestOperation::Publish,
            Request::Poll { .. } => RequestOperation::Poll,
            Request::Replay { .. } => RequestOperation::Replay,
            Request::PollGroup { .. } => RequestOperation::PollGroup,
            Request::Ack { .. } => RequestOperation::Ack,
            Request::AckGroup { .. } => RequestOperation::AckGroup,
            Request::Health => RequestOperation::Health,
        }
    }
}

/// The longest duration that falls into a span, in microseconds.
pub open spec fn bucket_limit(bucket: int) -> u64 {
    if bucket == 0 {
        100
    } else if bucket == 1 {
        1_000
    } else if bucket == 2 {
        10_000
    } else if bucket == 3 {
        100_000
    } else if bucket == 4 {
        1_000_000
    } else {
        10_000_000
    }
}

/// How that duration is written, in seconds.
pub open spec fn bucket_label(bucket: int) -> Seq<char> {
    if bucket == 0 {
        "0.0001"@
    } else if bucket == 1 {
        "0.001"@
    } else if bucket == 2 {
        "0.01"@
    } else if bucket == 3 {
        "0.1"@
    } else if bucket == 4 {
        "1"@
    } else {
        "10"@
    }
}

/// How that duration is written, in seconds.
pub(crate) fn bucket_label_text(bucket: usize) -> (r: &'static str)
    ensures
        r@ == bucket_label(bucket as int),
{
    if bucket == 0 {
        "0.0001"
    } else if bucket == 1 {
        "0.001"
    } else if bucket == 2 {
        "0.01"
    } else if bucket == 3 {
        "0.1"
    } else if bucket == 4 {
        "1"
    } else {
        "10"
    }
}

/// The span that a duration falls into: the first whose limit it does not exceed;
/// beyond the last there is none.
pub open spec fn bucket_of(micros: u64) -> Option<int> {
    if micros <= bucket_limit(0) {
        Some(0)
    } else if micros <= bucket_limit(1) {
        Some(1)
    } else if micros <= bucket_limit(2) {
        Some(2)
    } else if micros <= bucket_limit(3) {
        Some(3)
    } else if micros <= bucket_limit(4) {
        Some(4)
    } else if micros <= bucket_limit(5) {
        Some(5)
    } else {
        None
    }
}

/// The span that a duration falls into.
fn bucket_for(micros: u64) -> (r: Option<usize>)
    ensures
        match r {
            Some(bucket) => bucket < LATENCY_BUCKET_COUNT && bucket_of(micros) == Some(
                bucket as int,
            ),
            None => bucket_of(micros) is None,
        },
{
    if micros <= 100 {
        Some(0)
    } else if micros <= 1_000 {
        Some(1)
    } else if micros <= 10_000 {
        Some(2)
    } else if micros <= 100_000 {
        Some(3)
    } else if micros <= 1_000_000 {
        Some(4)
    } else if micros <= 10_000_000 {
        Some(5)
    } else {
        None
    }
}

/// A span of time in whole microseconds, or the most that a number can say.
pub open spec fn micros_of(nanos: u128) -> u64 {
    if nanos / 1_000 <= u64::MAX {
        (nanos / 1_000) as u64
    } else {
        u64::MAX
    }
}

/// A span of time in whole microseconds.
fn elapsed_micros(nanos: u128) -> (r: u64)
    ensures
        r == micros_of(nanos),
{
    let micros: u128 = nanos / 1_000;
    if micros <= u64::MAX as u128 {
        micros as u64
    } else {
        u64::MAX
    }
}

/// How long the requests of a kind took.
#[derive(Clone, Copy, Debug, PartialEq, Eq)]
pub struct RequestDuration {
    pub buckets: [u64; 6],
    pub count: u64,
    pub sum_micros: u64,
}

/// How long the requests of a kind took, as it is specified.
#[verifier::ext_equal]
pub struct DurationView {
    pub buckets: Seq<u64>,
    pub count: u64,
    pub sum_micros: u64,
}

impl View for RequestDuration {
    type V = DurationView;

    open spec fn view(&self) -> DurationView {
        DurationView { buckets: self.buckets@, count: self.count, sum_micros: self.sum_micros }
    }
}

/// No request taken yet.
pub open spec fn no_durations() -> DurationView {
    DurationView { buckets: Seq::new(6, |i: int| 0u64), count: 0, sum_micros: 0 }
}

/// One more request that took some time.
pub open spec fn with_duration(d: DurationView, micros: u64) -> DurationView {
    DurationView {
        buckets: match bucket_of(micros) {
            Some(bucket) => d.buckets.update(bucket, d.buckets[bucket].wrapping_add(1)),
            None => d.buckets,
        },
        count: d.count.wrapping_add(1),
        sum_micros: d.sum_micros.wrapping_add(micros),
    }
}

impl Default for RequestDuration {
    fn default() -> (r: Self)
        ensures
            r@ == no_durations(),
    {
        let r = RequestDuration { buckets: [0, 0, 0, 0, 0, 0], count: 0, sum_micros: 0 };
        proof {
            assert(r.buckets@ =~= Seq::new(6, |i: int| 0u64));
        }
        r
    }
}

impl RequestDuration {
    /// Takes in one more request.
    fn record(&mut self, micros: u64)
        ensures
            final(self)@ == with_duration(old(self)@, micros),
    {
        let ghost before = self@;
        self.count = self.count.wrapping_add(1);
        self.sum_micros = self.sum_micros.wrapping_add(micros);
        if let Some(bucket) = bucket_for(micros) {
            let more: u64 = self.buckets[bucket].wrapping_add(1);
            self.buckets[bucket] = more;
        }
        proof {
            assert(self@ =~= with_duration(before, micros));
        }
    }
}

/// What has been counted of the server's work. A counter that is full starts over.
#[derive(Clone, Copy, Debug, PartialEq, Eq)]
pub struct ServerMetrics {
    pub active_connections: u64,
    pub connections_accepted: u64,
    pub connections_rejected: u64,
    pub connections_closed: u64,
    pub connection_errors: u64,
    pub active_requests: u64,
    pub requests_rejected: u64,
    pub request_size_rejections: u64,
    pub request_saturation_rejections: u64,
    pub request_timeouts: u64,
    pub response_write_timeouts: u64,
    pub request_bytes: u64,
    pub response_bytes: u64,
    pub requests: [u64; 9],
    pub request_failures: [u64; 9],
    pub request_durations: [RequestDuration; 9],
    pub stream_creations: u64,
    pub publishes: u64,
    pub published_bytes: u64,
    pub deliveries: u64,
    pub delivered_bytes: u64,
    pub acknowledgements: u64,
    pub metrics_scrapes: u64,
    pub metrics_scrape_failures: u64,
    pub health_check_failures: u64,
}

/// What has been counted, as it is specified.
#[verifier::ext_equal]
pub struct MetricsView {
    pub active_connections: u64,
    pub connections_accepted: u64,
    pub connections_rejected: u64,
    pub connections_closed: u64,
    pub connection_errors: u64,
    pub active_requests: u64,
    pub requests_rejected: u64,
    pub request_size_rejections: u64,
    pub request_saturation_rejections: u64,
    pub request_timeouts: u64,
    pub response_write_timeouts: u64,
    pub request_bytes: u64,
    pub response_bytes: u64,
    pub requests: Seq<u64>,
    pub request_failures: Seq<u64>,
    pub request_durations: Seq<DurationView>,
    pub stream_creations: u64,
    pub publishes: u64,
    pub published_bytes: u64,
    pub deliveries: u64,
    pub delivered_bytes: u64,
    pub acknowledgements: u64,
    pub metrics_scrapes: u64,
    pub metrics_scrape_failures: u64,
    pub health_check_failures: u64,
}

/// The durations of all kinds of request.
pub open spec fn durations_view(durations: Seq<RequestDuration>) -> Seq<DurationView> {
    durations.map_values(|d: RequestDuration| d@)
}

impl View for ServerMetrics {
    type V = MetricsView;

    open spec fn view(&self) -> MetricsView {
        MetricsView {
            active_connections: self.active_connections,
            connections_accepted: self.connections_accepted,
            connections_rejected: self.connections_rejected,
            connections_closed: self.connections_closed,
            connection_errors: self.connection_errors,
            active_requests: self.active_requests,
            requests_rejected: self.requests_rejected,
            request_size_rejections: self.request_size_rejections,
            request_saturation_rejections: self.request_saturation_rejections,
            request_timeouts: self.request_timeouts,
            response_write_timeouts: self.response_write_timeouts,
            request_bytes: self.request_bytes,
            response_bytes: self.response_bytes,
            requests: self.requests@,
            request_failures: self.request_failures@,
            request_durations: durations_view(self.request_durations@),
            stream_creations: self.stream_creations,
            publishes: self.publishes,
            published_bytes: self.published_bytes,
            deliveries: self.deliveries,
            delivered_bytes: self.delivered_bytes,
            acknowledgements: self.acknowledgements,
            metrics_scrapes: self.metrics_scrapes,
            metrics_scrape_failures: self.metrics_scrape_failures,
            health_check_failures: self.health_check_failures,
        }
    }
}

/// Nothing counted yet.
pub open spec fn no_metrics() -> MetricsView {
    MetricsView {
        active_connections: 0,
        connections_accepted: 0,
        connections_rejected: 0,
        connections_closed: 0,
        connection_errors: 0,
        active_requests: 0,
        requests_rejected: 0,
        request_size_rejections: 0,
        request_saturation_rejections: 0,
        request_timeouts: 0,
        response_write_timeouts: 0,
        request_bytes: 0,
        response_bytes: 0,
        requests: Seq::new(9, |i: int| 0u64),
        request_failures: Seq::new(9, |i: int| 0u64),
        request_durations: Seq::new(9, |i: int| no_durations()),
        stream_creations: 0,
        publishes: 0,
        published_bytes: 0,
        deliveries: 0,
        delivered_bytes: 0,
        acknowledgements: 0,
        metrics_scrapes: 0,
        metrics_scrape_failures: 0,
        health_check_failures: 0,
    }
}

impl Default for ServerMetrics {
    fn default() -> (r: Self)
        ensures
            r@ == no_metrics(),
    {
        let d = RequestDuration::default();
        let r = ServerMetrics {
            active_connections: 0,
            connections_accepted: 0,
            connections_rejected: 0,
            connections_closed: 0,
            connection_errors: 0,
            active_requests: 0,
            requests_rejected: 0,
            request_size_rejections: 0,
            request_saturation_rejections: 0,
            request_timeouts: 0,
            response_write_timeouts: 0,
            request_bytes: 0,
            response_bytes: 0,
            requests: [0, 0, 0, 0, 0, 0, 0, 0, 0],
            request_failures: [0, 0, 0, 0, 0, 0, 0, 0, 0],
            request_durations: [d, d, d, d, d, d, d, d, d],
            stream_creations: 0,
            publishes: 0,
            published_bytes: 0,
            deliveries: 0,
            delivered_bytes: 0,
            acknowledgements: 0,
            metrics_scrapes: 0,
            metrics_scrape_failures: 0,
            health_check_failures: 0,
        };
        proof {
            assert(r.requests@ =~= Seq::new(9, |i: int| 0u64));
            assert(r.request_failures@ =~= Seq::new(9, |i: int| 0u64));
            assert(durations_view(r.request_durations@) =~= Seq::new(
                9,
                |i: int| no_durations(),
            ));
        }
        r
    }
}

/// One more request of a kind, which took some time and failed or did not.
pub open spec fn with_request(
    m: MetricsView,
    operation: RequestOperation,
    elapsed_nanos: u128,
    failed: bool,
) -> MetricsView {
    let i = operation_index(operation);
    MetricsView {
        requests: m.requests.update(i, m.requests[i].wrapping_add(1)),
        request_failures: if failed {
            m.request_failures.update(i, m.request_failures[i].wrapping_add(1))
        } else {
            m.request_failures
        },
        request_durations: m.request_durations.update(
            i,
            with_duration(m.request_durations[i], micros_of(elapsed_nanos)),
        ),
        ..m
    }
}

/// One more request of a kind that was turned away.
pub open spec fn with_rejected_request(
    m: MetricsView,
    operation: RequestOperation,
    elapsed_nanos: u128,
) -> MetricsView {
    with_request(
        MetricsView { requests_rejected: m.requests_rejected.wrapping_add(1), ..m },
        operation,
        elapsed_nanos,
        true,
    )
}

/// What a poll came back with, where it came back with a message.
pub open spec fn with_delivery(m: MetricsView, payload_bytes: nat) -> MetricsView {
    MetricsView {
        deliveries: m.deliveries.wrapping_add(1),
        delivered_bytes: m.delivered_bytes.wrapping_add(payload_bytes as u64),
        ..m
    }
}

impl ServerMetrics {
    /// Counts a request.
    pub fn record_request(
        &mut self,
        operation: RequestOperation,
        elapsed_nanos: u128,
        failed: bool,
    )
        ensures
            final(self)@ == with_request(old(self)@, operation, elapsed_nanos, failed),
    {
        let ghost before = self@;
        let index: usize = operation.index();
        let more: u64 = self.requests[index].wrapping_add(1);
        self.requests[index] = more;
        if failed {
            let more_failures: u64 = self.request_failures[index].wrapping_add(1);
            self.request_failures[index] = more_failures;
        }
        let mut duration = self.request_durations[index];
        duration.record(elapsed_micros(elapsed_nanos));
        self.request_durations[index] = duration;
        proof {
            assert(self@.request_durations =~= before.request_durations.update(
                index as int,
                duration@,
            ));
        }
    }

    /// Counts a request that was turned away.
    pub fn record_rejected_request(&mut self, operation: RequestOperation, elapsed_nanos: u128)
        ensures
            final(self)@ == with_rejected_request(old(self)@, operation, elapsed_nanos),
    {
        self.requests_rejected = self.requests_rejected.wrapping_add(1);
        self.record_request(operation, elapsed_nanos, true);
    }

    /// Counts what a poll came back with.
    pub fn record_delivery(&mut self, result: &PollResult)
        ensures
            final(self)@ == match *result {
                PollResult::Message(message) => with_delivery(old(self)@, message.payload@.len()),
                PollResult::Empty => old(self)@,
            },
    {
        if let PollResult::Message(message) = result {
            self.deliveries = self.deliveries.wrapping_add(1);
            self.delivered_bytes = self.delivered_bytes.wrapping_add(message.payload.len() as u64);
        }
    }
}

/// A connection that is being served.
#[derive(Debug)]
pub struct ActiveConnection(());

impl ActiveConnection {
    /// A connection begins to be served.
    pub fn new(metrics: &mut ServerMetrics) -> (r: Self)
        ensures
            final(metrics)@ == (MetricsView {
                active_connections: old(metrics)@.active_connections.wrapping_add(1),
                ..old(metrics)@
            }),
    {
        metrics.active_connections = metrics.active_connections.wrapping_add(1);
        ActiveConnection(())
    }

    /// The connection is closed.
    pub fn close(self, metrics: &mut ServerMetrics)
        ensures
            final(metrics)@ == (MetricsView {
                active_connections: old(metrics)@.active_connections.wrapping_sub(1),
                connections_closed: old(metrics)@.connections_closed.wrapping_add(1),
                ..old(metrics)@
            }),
    {
        metrics.active_connections = metrics.active_connections.wrapping_sub(1);
        metrics.connections_closed = metrics.connections_closed.wrapping_add(1);
    }
}

/// A request that is being worked on.
#[derive(Debug)]
pub struct ActiveRequest(());

impl ActiveRequest {
    /// A request begins to be worked on.
    pub fn new(metrics: &mut ServerMetrics) -> (r: Self)
        ensures
            final(metrics)@ == (MetricsView {
                active_requests: old(metrics)@.active_requests.wrapping_add(1),
                ..old(metrics)@
            }),
    {
        metrics.active_requests = metrics.active_requests.wrapping_add(1);
        ActiveRequest(())
    }

    /// The request is done.
    pub fn finish(self, metrics: &mut ServerMetrics)
        ensures
            final(metrics)@ == (MetricsView {
                active_requests: old(metrics)@.active_requests.wrapping_sub(1),
                ..old(metrics)@
            }),
    {
        metrics.active_requests = metrics.active_requests.wrapping_sub(1);
    }
}

/// A gauge that goes up when something begins and down when it ends comes back to
/// where it was.
pub proof fn law_gauges_come_back(active: u64)
    ensures
        active.wrapping_add(1).wrapping_sub(1) == active,
{
}

/// Some requests of a kind, by how long each took.
pub open spec fn durations_of(micros: Seq<u64>) -> DurationView
    decreases micros.len(),
{
    if micros.len() == 0 {
        no_durations()
    } else {
        with_duration(durations_of(micros.drop_last()), micros.last())
    }
}

/// How many requests fell into the spans up to one.
pub open spec fn up_to(buckets: Seq<u64>, last: int) -> nat
    decreases last + 1,
{
    if last < 0 {
        0
    } else {
        up_to(buckets, last - 1) + buckets[last] as nat
    }
}

/// How many of some requests took no longer than a limit.
pub open spec fn within(micros: Seq<u64>, limit: u64) -> nat
    decreases micros.len(),
{
    if micros.len() == 0 {
        0
    } else {
        within(micros.drop_last(), limit) + if micros.last() <= limit {
            1nat
        } else {
            0nat
        }
    }
}

/// No more requests took no longer than a limit than there are.
proof fn lemma_within_bound(micros: Seq<u64>, limit: u64)
    ensures
        within(micros, limit) <= micros.len(),
    decreases micros.len(),
{
    if micros.len() > 0 {
        lemma_within_bound(micros.drop_last(), limit);
    }
}

/// Nothing fell into any span yet.
proof fn lemma_up_to_none(last: int)
    requires
        last < 6,
    ensures
        up_to(no_durations().buckets, last) == 0,
    decreases last + 1,
{
    if last >= 0 {
        lemma_up_to_none(last - 1);
    }
}

/// One more in a span is one more in all sums that it belongs to.
proof fn lemma_up_to_update(buckets: Seq<u64>, bucket: int, last: int)
    requires
        0 <= bucket < 6,
        last < 6,
        buckets.len() == 6,
        buckets[bucket] < u64::MAX,
    ensures
        up_to(buckets.update(bucket, (buckets[bucket] + 1) as u64), last) == up_to(buckets, last)
            + if bucket <= last {
            1nat
        } else {
            0nat
        },
    decreases last + 1,
{
    if last >= 0 {
        lemma_up_to_update(buckets, bucket, last - 1);
    }
}

/// Any span holds no more than a sum that it belongs to.
proof fn lemma_part_of_sum(buckets: Seq<u64>, bucket: int, last: int)
    requires
        0 <= bucket <= last,
    ensures
        buckets[bucket] <= up_to(buckets, last),
    decreases last + 1,
{
    if bucket < last {
        lemma_part_of_sum(buckets, bucket, last - 1);
    }
}

/// The sum over the spans up to one is the number of requests that took no longer
/// than its limit, and their count is the number of all requests.
pub proof fn law_histograms_are_cumulative(micros: Seq<u64>, bucket: int)
    requires
        micros.len() <= u64::MAX,
        0 <= bucket < LATENCY_BUCKET_COUNT,
    ensures
        up_to(durations_of(micros).buckets, bucket) == within(micros, bucket_limit(bucket)),
        durations_of(micros).count == micros.len(),
        durations_of(micros).buckets.len() == LATENCY_BUCKET_COUNT,
    decreases micros.len(),
{
    if micros.len() == 0 {
        lemma_up_to_none(bucket);
    } else {
        let rest = micros.drop_last();
        let m = micros.last();
        let d = durations_of(rest);
        law_histograms_are_cumulative(rest, bucket);
        if let Some(b) = bucket_of(m) {
            law_histograms_are_cumulative(rest, b);
            lemma_part_of_sum(d.buckets, b, b);
            lemma_within_bound(rest, bucket_limit(b));
            lemma_up_to_update(d.buckets, b, bucket);
        }
    }
}

/// What is said of the server's condition.
#[derive(Clone, Copy, Debug)]
pub struct HealthBody {
    pub status: &'static str,
    pub streams: usize,
    pub storage_bytes: u64,
}

/// Whether the server takes work, and what is said of its condition.
#[derive(Clone, Copy, Debug)]
pub struct Readiness {
    pub ready: bool,
    pub body: HealthBody,
}

/// Whether the server takes work: not while it shuts down, and not while the
/// engine cannot say how it is, which is counted. `health` is what the engine
/// says; while the server shuts down it does not matter.
pub fn readiness(
    metrics: &mut ServerMetrics,
    shutting_down: bool,
    health: Option<HealthSnapshot>,
) -> (r: Readiness)
    ensures
        r.ready == (!shutting_down && health is Some),
        match health {
            Some(health) if !shutting_down => {
                &&& r.body.status@ == "ready"@
                &&& r.body.streams == health.streams
                &&& r.body.storage_bytes == health.storage_bytes
                &&& final(metrics)@ == old(metrics)@
            },
            _ => {
                &&& r.body.status@ == "not_ready"@
                &&& r.body.streams == 0
                &&& r.body.storage_bytes == 0
                &&& final(metrics)@ == if shutting_down {
                    old(metrics)@
                } else {
                    MetricsView {
                        health_check_failures: old(metrics)@.health_check_failures.wrapping_add(1),
                        ..old(metrics)@
                    }
                }
            },
        },
{
    let not_ready = Readiness {
        ready: false,
        body: HealthBody { status: "not_ready", streams: 0, storage_bytes: 0 },
    };
    if shutting_down {
        return not_ready;
    }
    match health {
        Some(health) => Readiness {
            ready: true,
            body: HealthBody {
                status: "ready",
                streams: health.streams,
                storage_bytes: health.storage_bytes,
            },
        },
        None => {
            metrics.health_check_failures = metrics.health_check_failures.wrapping_add(1);
            not_ready
        },
    }
}

/// The error of a check of the engine's condition that took too long.
pub fn health_timeout_error() -> (r: BrokerError)
    ensures
        r matches BrokerError::Cluster(message) && message@ == "health check timed out"@,
{
    BrokerError::Cluster("health check timed out".to_owned())
}

impl ServerMetrics {
    /// Counts that the server was asked what it has counted.
    pub fn record_scrape(&mut self)
        ensures
            final(self)@ == (MetricsView {
                metrics_scrapes: old(self)@.metrics_scrapes.wrapping_add(1),
                ..old(self)@
            }),
    {
        self.metrics_scrapes = self.metrics_scrapes.wrapping_add(1);
    }

    /// Counts that the engine could not say how it was when the server was asked.
    pub fn record_scrape_failure(&mut self)
        ensures
            final(self)@ == (MetricsView {
                metrics_scrape_failures: old(self)@.metrics_scrape_failures.wrapping_add(1),
                health_check_failures: old(self)@.health_check_failures.wrapping_add(1),
                ..old(self)@
            }),
    {
        self.metrics_scrape_failures = self.metrics_scrape_failures.wrapping_add(1);
        self.health_check_failures = self.health_check_failures.wrapping_add(1);
    }
}

/// Ten to a power.
pub open spec fn ten_to(n: int) -> int
    decreases n,
{
    if n <= 0 {
        1
    } else {
        10 * ten_to(n - 1)
    }
}

/// The spans of time end at a hundred microseconds and at ten times the end of the one
/// before. A duration falls into the first that it does not exceed, and into none if it
/// exceeds all. It is told in whole microseconds.
pub proof fn law_spans_are_tenfold(micros: u64, bucket: int, nanos: u128)
    requires
        0 <= bucket < 6,
    ensures
        bucket_limit(bucket) == 100 * ten_to(bucket),
        bucket_of(micros) == Some(bucket) <==> micros <= 100 * ten_to(bucket) && (bucket > 0
            ==> micros > 100 * ten_to(bucket - 1)),
        bucket_of(micros) is None <==> micros > 10_000_000,
        nanos < 1_000 * 0x1_0000_0000_0000_0000 ==> 1_000 * micros_of(nanos) <= nanos < 1_000 * (
        micros_of(nanos) + 1),
        nanos >= 1_000 * 0x1_0000_0000_0000_0000 ==> micros_of(nanos) == u64::MAX,
        bucket_label(0) == "0.0001"@,
        bucket_label(1) == "0.001"@,
        bucket_label(2) == "0.01"@,
        bucket_label(3) == "0.1"@,
        bucket_label(4) == "1"@,
        bucket_label(5) == "10"@,
{
    reveal_with_fuel(ten_to, 7);
}

/// A request counts among those of its kind, once, with the time that it took, and among
/// the failures of its kind if it failed; no other kind is touched, and nothing else.
pub proof fn law_requests_count_once_for_their_kind(
    m: MetricsView,
    operation: RequestOperation,
    other: RequestOperation,
    elapsed_nanos: u128,
    failed: bool,
)
    requires
        m.requests.len() == 9,
        m.request_failures.len() == 9,
        m.request_durations.len() == 9,
        operation != other,
    ensures
        ({
            let after = with_request(m, operation, elapsed_nanos, failed);
            let i = operation_index(operation);
            let j = operation_index(other);
            &&& 0 <= i < 9
            &&& i != j
            &&& operation_at(i) == operation
            &&& after.requests[i] == m.requests[i].wrapping_add(1)
            &&& after.requests[j] == m.requests[j]
            &&& after.request_failures[i] == if failed {
                m.request_failures[i].wrapping_add(1)
            } else {
                m.request_failures[i]
            }
            &&& after.request_failures[j] == m.request_failures[j]
            &&& after.request_durations[i].count == m.request_durations[i].count.wrapping_add(1)
            &&& after.request_durations[i].sum_micros
                == m.request_durations[i].sum_micros.wrapping_add(micros_of(elapsed_nanos))
            &&& after.request_durations[j] == m.request_durations[j]
            &&& after.requests_rejected == m.requests_rejected
            &&& after.publishes == m.publishes
            &&& after.deliveries == m.deliveries
        }),
        operation_name(operation) != operation_name(other),
{
    reveal_strlit("create_stream");
    reveal_strlit("publish");
    reveal_strlit("poll");
    reveal_strlit("replay");
    reveal_strlit("poll_group");
    reveal_strlit("ack");
    reveal_strlit("ack_group");
    reveal_strlit("health");
    reveal_strlit("invalid_request");
    assert("create_stream"@.len() == 13);
    assert("publish"@.len() == 7);
    assert("poll"@.len() == 4);
    assert("replay"@.len() == 6 && "health"@.len() == 6);
    assert("replay"@[0] == 'r' && "health"@[0] == 'h');
    assert("poll_group"@.len() == 10);
    assert("ack"@.len() == 3);
    assert("ack_group"@.len() == 9);
    assert("invalid_request"@.len() == 15);
}

/// A request is of the kind of what it asks for; the ways to publish are one kind, and
/// nothing that was decoded is invalid.
pub proof fn law_requests_are_of_their_kind(request: Request)
    ensures
        operation_of(request) == RequestOperation::Publish <==> request is Publish
            || request is PublishBytes || request is PublishBatch,
        operation_of(request) == RequestOperation::CreateStream <==> request is CreateStream,
        operation_of(request) == RequestOperation::Poll <==> request is Poll,
        operation_of(request) == RequestOperation::Replay <==> request is Replay,
        operation_of(request) == RequestOperation::PollGroup <==> request is PollGroup,
        operation_of(request) == RequestOperation::Ack <==> request is Ack,
        operation_of(request) == RequestOperation::AckGroup <==> request is AckGroup,
        operation_of(request) == RequestOperation::Health <==> request is Health,
        operation_of(request) != RequestOperation::InvalidRequest,
{
}

/// A server is ready if it is not shutting down and its engine can say how it is. Then it
/// says how much it keeps. That the engine could not say counts as a failed check.
pub proof fn law_servers_are_ready_with_their_engines(
    metrics: &mut ServerMetrics,
    shutting_down: bool,
    health: Option<HealthSnapshot>,
    said: Readiness,
)
    requires
        call_ensures(readiness, (metrics, shutting_down, health), said),
    ensures
        said.ready <==> !shutting_down && health is Some,
        said.ready ==> said.body.status@ == "ready"@ && said.body.streams == health->0.streams
            && said.body.storage_bytes == health->0.storage_bytes,
        !said.ready ==> said.body.status@ == "not_ready"@ && said.body.streams == 0
            && said.body.storage_bytes == 0,
        final(metrics)@.health_check_failures == if !shutting_down && health is None {
            old(metrics)@.health_check_failures.wrapping_add(1)
        } else {
            old(metrics)@.health_check_failures
        },
{
}

/// A connection and a request count as going on from when they begin until they end, and
/// a connection that ended as closed.
pub proof fn law_what_begins_ends(
    opened: &mut ServerMetrics,
    closed: &mut ServerMetrics,
    begun: &mut ServerMetrics,
    done: &mut ServerMetrics,
    connection: ActiveConnection,
    request: ActiveRequest,
)
    requires
        call_ensures(ActiveConnection::new, (opened,), connection),
        call_ensures(ActiveConnection::close, (connection, closed), ()),
        call_ensures(ActiveRequest::new, (begun,), request),
        call_ensures(ActiveRequest::finish, (request, done), ()),
        old(closed)@ == final(opened)@,
        old(done)@ == final(begun)@,
    ensures
        final(opened)@.active_connections == old(opened)@.active_connections.wrapping_add(1),
        final(closed)@.active_connections == old(opened)@.active_connections,
        final(closed)@.connections_closed == old(opened)@.connections_closed.wrapping_add(1),
        final(begun)@.active_requests == old(begun)@.active_requests.wrapping_add(1),
        final(done)@ == old(begun)@,
{
    assert(final(done)@ =~= old(begun)@);
}

} // verus!
