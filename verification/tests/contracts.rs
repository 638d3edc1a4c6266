use runnel::connection::{
    on_accepted, on_answered, on_decoded, on_frame, on_written, response_line, DecodeAction,
    FrameAction, FrameOutcome,
};
use runnel::delivery::{GroupConsumerState, GroupDelivery};
use runnel::dispatch::{
    engine_call, error_response, respond, EngineAnswer, EngineCall, EngineFailure,
};
use runnel::engine::{AckResult, BrokerError, Offset, PollResult};
use runnel::keyed::{SortedMap, SortedSet};
use runnel::log_id::LogId;
use runnel::metrics_text::format_metrics;
use runnel::observability::{ActiveConnection, ActiveRequest, ServerMetrics};
use runnel::protocol::{
    request_line, Frame, ProtocolAdmission, PublishBatchRecord, PublishBatchRecordResponse,
    Request, Response,
};
use runnel::raft_group::{
    ack_group_answer, create_stream_answer, poll_group_answer, publish_answer, replay_answer,
    RaftGroup,
};
use runnel::state_machine::{apply_command, Command, CommandResponse, GroupKind, SnapshotState};
use runnel::state_machine_store::{
    snapshot_state_from_persisted, PersistedBody, PersistedConsumer, PersistedGroupConsumer,
    PersistedSnapshotState, PersistedStateBodyRef, PersistedStream, PersistedStreamData,
    FORMAT_VERSION,
};

const ADMISSION: ProtocolAdmission = ProtocolAdmission {
    max_connections: 8,
    max_request_bytes: 1024,
    max_in_flight_requests: 8,
    request_timeout_nanos: 1_000_000_000,
};

/// A broker of one node: every command is applied at once, under the next log
/// index, at a time that the test sets.
struct Broker {
    group: RaftGroup,
    state: SnapshotState,
    metrics: ServerMetrics,
    index: u64,
    now_ms: u64,
}

impl Broker {
    fn new() -> Self {
        Self::with_limits(30_000, None)
    }

    fn with_limits(ack_timeout_ms: u64, max_delivery_attempts: Option<u32>) -> Self {
        Broker {
            group: RaftGroup {
                node_id: 1,
                ack_timeout_secs: ack_timeout_ms / 1_000,
                ack_timeout_nanos: (ack_timeout_ms % 1_000) as u32 * 1_000_000,
                max_delivery_attempts,
            },
            state: SnapshotState::default(),
            metrics: ServerMetrics::default(),
            index: 0,
            now_ms: 1_000,
        }
    }

    fn write(&mut self, command: Command) -> CommandResponse {
        self.index += 1;
        let log_id = LogId {
            term: 1,
            node_id: 1,
            index: self.index,
        };
        apply_command(&mut self.state, command, &GroupKind::Combined, log_id)
    }

    fn create_stream(&mut self, stream: &str) -> Result<bool, BrokerError> {
        let response = self.write(RaftGroup::create_stream_command(stream.to_owned()));
        create_stream_answer(response, "")
    }

    fn publish(
        &mut self,
        stream: &str,
        key: Option<&str>,
        payload: &[u8],
        request_id: Option<&str>,
    ) -> Result<Offset, BrokerError> {
        let response = self.write(RaftGroup::publish_command(
            stream.to_owned(),
            key.map(str::to_owned),
            payload.to_vec(),
            self.now_ms,
            request_id.map(str::to_owned),
        ));
        publish_answer(stream.to_owned(), response, "")
    }

    fn poll(&mut self, stream: &str, consumer: &str) -> Result<PollResult, BrokerError> {
        let command = self.group.poll_command(stream.to_owned(), consumer.to_owned(), self.now_ms);
        let response = self.write(command);
        poll_group_answer(stream.to_owned(), response, "")
    }

    fn ack(&mut self, stream: &str, consumer: &str, offset: Offset) -> Result<AckResult, BrokerError> {
        let command = RaftGroup::ack_command(
            stream.to_owned(),
            consumer.to_owned(),
            offset,
            self.now_ms,
        );
        let response = self.write(command);
        ack_group_answer(stream.to_owned(), &consumer.to_owned(), response, "")
    }

    fn poll_group(
        &mut self,
        stream: &str,
        consumer: &str,
        member: &str,
    ) -> Result<PollResult, BrokerError> {
        let command = self.group.poll_group_command(
            stream.to_owned(),
            consumer.to_owned(),
            member.to_owned(),
            self.now_ms,
        );
        let response = self.write(command);
        poll_group_answer(stream.to_owned(), response, "")
    }

    fn ack_group(
        &mut self,
        stream: &str,
        consumer: &str,
        member: &str,
        offset: Offset,
        token: &str,
    ) -> Result<AckResult, BrokerError> {
        let command = RaftGroup::ack_group_command(
            stream.to_owned(),
            consumer.to_owned(),
            member.to_owned(),
            offset,
            token.to_owned(),
            self.now_ms,
        );
        let response = self.write(command);
        ack_group_answer(stream.to_owned(), &consumer.to_owned(), response, "")
    }

    fn answer(&mut self, call: EngineCall) -> Result<EngineAnswer, BrokerError> {
        Ok(match call {
            EngineCall::CreateStream { stream } => {
                EngineAnswer::CreateStream(self.create_stream(&stream)?)
            }
            EngineCall::Publish { stream, key, payload, request_id } => EngineAnswer::Publish(
                self.publish(&stream, key.as_deref(), &payload, request_id.as_deref())?,
            ),
            EngineCall::PublishBatch { stream, records } => EngineAnswer::PublishBatch(
                records
                    .iter()
                    .map(|record| {
                        self.publish(
                            &stream,
                            record.key.as_deref(),
                            &record.payload,
                            record.request_id.as_deref(),
                        )
                        .map_err(failure)
                    })
                    .collect(),
            ),
            EngineCall::Poll { stream, consumer } => {
                EngineAnswer::Poll(self.poll(&stream, &consumer)?)
            }
            EngineCall::Replay { stream, consumer, offset } => {
                let command = RaftGroup::replay_command(stream.clone(), consumer, offset)?;
                let response = self.write(command);
                EngineAnswer::Replay(replay_answer(stream, response, "")?)
            }
            EngineCall::PollGroup { stream, consumer, member } => {
                EngineAnswer::PollGroup(self.poll_group(&stream, &consumer, &member)?)
            }
            EngineCall::Ack { stream, consumer, offset } => {
                EngineAnswer::Ack(self.ack(&stream, &consumer, offset)?)
            }
            EngineCall::AckGroup { stream, consumer, member, offset, delivery_token } => {
                EngineAnswer::AckGroup(self.ack_group(
                    &stream,
                    &consumer,
                    &member,
                    offset,
                    &delivery_token,
                )?)
            }
            EngineCall::Health => EngineAnswer::Health(self.state.health()),
        })
    }

    fn work_on(&mut self, request: Request) -> Response {
        match engine_call(&request, 1_000) {
            Ok(call) => {
                let answer = self.answer(call).map_err(failure);
                respond(request, answer, &mut self.metrics)
                    .unwrap_or_else(|error| error_response(failure(error)))
            }
            Err(response) => response,
        }
    }

    /// Serves one request on a connection of its own. What a request and a
    /// response look like when they are printed stands for how they are encoded.
    fn request(&mut self, request: Request) -> Response {
        on_accepted(&mut self.metrics, true);
        let connection = ActiveConnection::new(&mut self.metrics);
        let bytes = format!("{request:?}\n").into_bytes();
        let outcome = FrameOutcome::Read(Frame::Complete { bytes });
        let bytes = match on_frame(&mut self.metrics, &ADMISSION, outcome, 1_000) {
            FrameAction::Decode { bytes } => bytes,
            action => panic!("expected a line to be decoded, got {action:?}"),
        };
        let line = request_line(&bytes);
        let (operation, request) =
            match on_decoded(&mut self.metrics, &ADMISSION, line, Ok(request), 1_000) {
                DecodeAction::Admit { operation, request } => (operation, request),
                action => panic!("expected a request to be let in, got {action:?}"),
            };
        let active = ActiveRequest::new(&mut self.metrics);
        let response = self.work_on(request);
        let answered = Some(response);
        let reply = on_answered(&mut self.metrics, &ADMISSION, operation, answered, 1_000);
        let line = response_line(format!("{:?}", reply.response).into_bytes());
        on_written(&mut self.metrics, line.len(), true).unwrap();
        active.finish(&mut self.metrics);
        connection.close(&mut self.metrics);
        reply.response
    }

    /// Records the state, and starts over from what was recorded.
    fn restart(&mut self) {
        self.state = recorded_and_restored(&self.state);
        self.metrics = ServerMetrics::default();
    }

    fn metrics(&mut self) -> String {
        self.metrics.record_scrape();
        let sums = self
            .metrics
            .request_durations
            .iter()
            .map(|duration| format!("{:.6}", duration.sum_micros as f64 / 1_000_000.0))
            .collect();
        format_metrics(
            Some(self.state.health()),
            None,
            &self.metrics,
            &ADMISSION,
            "1.000000000",
            &sums,
        )
    }
}

fn copy_group(group: &GroupConsumerState) -> GroupConsumerState {
    let mut acknowledged_offsets = SortedSet::new();
    for i in 0..group.acknowledged_offsets.len() {
        acknowledged_offsets.insert(*group.acknowledged_offsets.item_at(i));
    }
    let mut in_flight = SortedMap::new();
    for i in 0..group.in_flight.len() {
        let delivery = group.in_flight.value_at(i);
        in_flight.insert(
            *group.in_flight.key_at(i),
            GroupDelivery {
                member: delivery.member.clone(),
                key: delivery.key.clone(),
                delivery_attempt: delivery.delivery_attempt,
                delivery_token: delivery.delivery_token.clone(),
                deadline_ms: delivery.deadline_ms,
            },
        );
    }
    let mut delivery_attempts = SortedMap::new();
    for i in 0..group.delivery_attempts.len() {
        delivery_attempts.insert(
            *group.delivery_attempts.key_at(i),
            *group.delivery_attempts.value_at(i),
        );
    }
    GroupConsumerState {
        committed_offset: group.committed_offset,
        acknowledged_offsets,
        in_flight,
        delivery_attempts,
    }
}

fn recorded_and_restored(state: &SnapshotState) -> SnapshotState {
    let record = PersistedStateBodyRef::new(state);
    let streams = record
        .streams
        .iter()
        .map(|(name, stream)| {
            (
                (*name).to_owned(),
                PersistedStreamData::Current(PersistedStream {
                    stream_id: stream.stream_id.to_owned(),
                    group_id: stream.group_id.to_owned(),
                    lifecycle: stream.lifecycle.copied(),
                    messages: stream.messages.iter().map(|message| message.copy()).collect(),
                }),
            )
        })
        .collect();
    let consumers = record
        .consumers
        .iter()
        .map(|consumer| PersistedConsumer {
            stream: consumer.stream.to_owned(),
            consumer: consumer.consumer.to_owned(),
            offset: consumer.offset,
        })
        .collect();
    let group_consumers = record
        .group_consumers
        .iter()
        .map(|group| PersistedGroupConsumer {
            stream: group.stream.to_owned(),
            consumer: group.consumer.to_owned(),
            state: copy_group(group.state),
        })
        .collect();
    let mut dedup = SortedMap::new();
    for i in 0..record.dedup.len() {
        let known = record.dedup.value_at(i);
        let mut ids = SortedMap::new();
        for j in 0..known.len() {
            ids.insert(known.key_at(j).clone(), *known.value_at(j));
        }
        dedup.insert(record.dedup.key_at(i).clone(), ids);
    }
    snapshot_state_from_persisted(PersistedSnapshotState {
        version: FORMAT_VERSION,
        body: PersistedBody {
            streams,
            consumers,
            group_consumers,
            lease_clock_ms: record.lease_clock_ms,
            dedup,
            redeliveries: record.redeliveries,
            dead_letters: record.dead_letters,
        },
    })
}

fn failure(error: BrokerError) -> EngineFailure {
    let text = match &error {
        BrokerError::HistoryUnavailable {
            earliest_offset,
            next_offset,
            ..
        } => format!("history is retained for [{earliest_offset}, {next_offset})"),
        error => format!("{error:?}"),
    };
    EngineFailure { error, text }
}

fn grouped_message(result: Result<PollResult, BrokerError>) -> (u64, String) {
    match result.unwrap() {
        PollResult::Message(message) => (
            message.offset,
            message
                .delivery_token
                .expect("grouped delivery should include a token"),
        ),
        PollResult::Empty => panic!("expected a grouped message"),
    }
}

#[test]
fn batches_keep_each_request_once() {
    let mut broker = Broker::new();
    assert!(broker.create_stream("contract.batch").unwrap());
    let records: [(Option<&str>, &[u8], Option<&str>); 3] = [
        (Some("order-a"), b"first", Some("batch-first")),
        (Some("order-a"), &[0, 1, 255], Some("batch-second")),
        (None, b"third", None),
    ];
    let offsets: Vec<u64> = records
        .iter()
        .map(|(key, payload, id)| broker.publish("contract.batch", *key, payload, *id).unwrap())
        .collect();
    assert_eq!(offsets, vec![0, 1, 2]);
    let again: Vec<u64> = records[..2]
        .iter()
        .map(|(key, payload, id)| broker.publish("contract.batch", *key, payload, *id).unwrap())
        .collect();
    assert_eq!(again, vec![0, 1]);
}

#[test]
fn members_share_the_work_of_a_group() {
    let mut broker = Broker::new();
    assert!(broker.create_stream("contract.work").unwrap());
    for payload in [b"first".as_slice(), b"second".as_slice(), b"third".as_slice()] {
        broker.publish("contract.work", None, payload, None).unwrap();
    }

    let (first_offset, first_token) =
        grouped_message(broker.poll_group("contract.work", "workers", "member-a"));
    let (second_offset, second_token) =
        grouped_message(broker.poll_group("contract.work", "workers", "member-b"));
    assert_eq!((first_offset, second_offset), (0, 1));

    assert_eq!(
        broker
            .ack_group("contract.work", "workers", "member-b", second_offset, &second_token)
            .unwrap(),
        AckResult::Acknowledged
    );
    let (third_offset, third_token) =
        grouped_message(broker.poll_group("contract.work", "workers", "member-b"));
    assert_eq!(third_offset, 2);

    assert_eq!(
        broker
            .ack_group("contract.work", "workers", "member-a", first_offset, &first_token)
            .unwrap(),
        AckResult::Acknowledged
    );
    assert_eq!(
        broker
            .ack_group("contract.work", "workers", "member-b", third_offset, &third_token)
            .unwrap(),
        AckResult::Acknowledged
    );
    assert_eq!(
        broker.poll_group("contract.work", "workers", "member-a").unwrap(),
        PollResult::Empty
    );
}

#[test]
fn consumers_are_independent() {
    let mut broker = Broker::new();
    assert!(broker.create_stream("contract.fanout").unwrap());
    broker.publish("contract.fanout", None, b"event", None).unwrap();

    let first = broker.poll("contract.fanout", "consumer-a").unwrap();
    assert!(matches!(
        first,
        PollResult::Message(message) if message.offset == 0 && message.payload == b"event"
    ));
    assert_eq!(
        broker.ack("contract.fanout", "consumer-a", 0).unwrap(),
        AckResult::Acknowledged
    );

    let second = broker.poll("contract.fanout", "consumer-b").unwrap();
    assert!(matches!(
        second,
        PollResult::Message(message) if message.offset == 0 && message.payload == b"event"
    ));
}

#[test]
fn messages_of_a_key_keep_their_order() {
    let mut broker = Broker::new();
    assert!(broker.create_stream("contract.keys").unwrap());
    for (key, payload) in [
        ("customer-a", b"a1".as_slice()),
        ("customer-a", b"a2".as_slice()),
        ("customer-b", b"b1".as_slice()),
    ] {
        broker.publish("contract.keys", Some(key), payload, None).unwrap();
    }

    let (first_offset, first_token) =
        grouped_message(broker.poll_group("contract.keys", "workers", "member-a"));
    let (other_offset, other_token) =
        grouped_message(broker.poll_group("contract.keys", "workers", "member-b"));
    assert_eq!(first_offset, 0);
    assert_eq!(other_offset, 2);

    let (same_offset, same_token) =
        grouped_message(broker.poll_group("contract.keys", "workers", "member-a"));
    assert_eq!(same_offset, first_offset);
    assert_eq!(same_token, first_token);

    assert_eq!(
        broker
            .ack_group("contract.keys", "workers", "member-a", first_offset, &first_token)
            .unwrap(),
        AckResult::Acknowledged
    );
    assert_eq!(
        broker
            .ack_group("contract.keys", "workers", "member-b", other_offset, &other_token)
            .unwrap(),
        AckResult::Acknowledged
    );

    let (next_offset, next_token) =
        grouped_message(broker.poll_group("contract.keys", "workers", "member-b"));
    assert_eq!(next_offset, 1);
    assert_eq!(
        broker
            .ack_group("contract.keys", "workers", "member-b", next_offset, &next_token)
            .unwrap(),
        AckResult::Acknowledged
    );
}

#[test]
fn expired_deliveries_are_fenced() {
    let mut broker = Broker::with_limits(10, None);
    assert!(broker.create_stream("contract.expiry").unwrap());
    broker.publish("contract.expiry", None, b"work", None).unwrap();

    let (offset, old_token) =
        grouped_message(broker.poll_group("contract.expiry", "workers", "member-a"));
    broker.now_ms += 20;
    let (redelivered_offset, new_token) =
        grouped_message(broker.poll_group("contract.expiry", "workers", "member-b"));
    assert_eq!(redelivered_offset, offset);
    assert_ne!(new_token, old_token);

    assert!(matches!(
        broker.ack_group("contract.expiry", "workers", "member-a", offset, &old_token),
        Err(BrokerError::StaleDelivery { .. })
    ));
    assert_eq!(
        broker
            .ack_group("contract.expiry", "workers", "member-b", offset, &new_token)
            .unwrap(),
        AckResult::Acknowledged
    );
}

fn metric_value(metrics: &str, name: &str) -> u64 {
    metrics
        .lines()
        .find_map(|line| line.strip_prefix(&format!("{name} ")))
        .and_then(|value| value.parse().ok())
        .unwrap_or_default()
}

fn labeled_metric_value(metrics: &str, name: &str, labels: &str) -> u64 {
    metrics
        .lines()
        .find_map(|line| line.strip_prefix(&format!("{name}{{{labels}}} ")))
        .and_then(|value| value.parse().ok())
        .unwrap_or_default()
}

fn publish(stream: &str, key: Option<&str>, payload: &str) -> Request {
    Request::Publish {
        stream: stream.to_owned(),
        key: key.map(str::to_owned),
        payload: payload.to_owned(),
        request_id: None,
    }
}

fn poll(stream: &str, consumer: &str) -> Request {
    Request::Poll {
        stream: stream.to_owned(),
        consumer: consumer.to_owned(),
    }
}

fn ack(stream: &str, consumer: &str, offset: Offset) -> Request {
    Request::Ack {
        stream: stream.to_owned(),
        consumer: consumer.to_owned(),
        offset,
    }
}

fn replay(stream: &str, consumer: &str, offset: Offset) -> Request {
    Request::Replay {
        stream: stream.to_owned(),
        consumer: consumer.to_owned(),
        offset,
    }
}

#[test]
fn network_protocol_persists_acknowledgements_across_restart() {
    let mut broker = Broker::new();
    assert!(matches!(
        broker.request(Request::CreateStream {
            stream: "events".to_owned(),
        }),
        Response::StreamCreated { created: true, .. }
    ));
    assert!(matches!(
        broker.request(publish("events", None, "hello")),
        Response::Published { offset: 0, .. }
    ));
    assert!(matches!(
        broker.request(poll("events", "worker")),
        Response::Message { offset: 0, payload, .. } if payload == "hello"
    ));
    assert!(matches!(
        broker.request(ack("events", "worker", 0)),
        Response::Acknowledged { already_acknowledged: false, .. }
    ));
    assert!(matches!(
        broker.request(replay("events", "worker", 0)),
        Response::ReplayMessage { offset: 0, payload, .. } if payload == "hello"
    ));
    assert!(matches!(
        broker.request(poll("events", "worker")),
        Response::Empty { .. }
    ));
    assert!(matches!(
        broker.request(publish("events", None, "recover-me")),
        Response::Published { offset: 1, .. }
    ));
    assert!(matches!(
        broker.request(replay("events", "worker", 2)),
        Response::Error { code, message }
            if code == "history_unavailable" && message.contains("[0, 2)")
    ));
    broker.restart();

    assert!(matches!(
        broker.request(replay("events", "worker", 0)),
        Response::ReplayMessage { offset: 0, payload, .. } if payload == "hello"
    ));
    assert!(matches!(
        broker.request(poll("events", "worker")),
        Response::Message { offset: 1, payload, .. } if payload == "recover-me"
    ));
}

#[test]
fn metrics_report_messages_returned_by_polls() {
    let mut broker = Broker::new();

    let initial_metrics = broker.metrics();
    assert_eq!(metric_value(&initial_metrics, "runnel_deliveries_total"), 0);
    assert_eq!(
        metric_value(&initial_metrics, "runnel_in_flight_deliveries"),
        0
    );
    assert_eq!(
        metric_value(&initial_metrics, "runnel_active_connections"),
        0
    );
    assert_eq!(metric_value(&initial_metrics, "runnel_active_requests"), 0);
    assert_eq!(
        metric_value(&initial_metrics, "runnel_broker_connections_accepted_total"),
        0
    );
    assert_eq!(
        metric_value(&initial_metrics, "runnel_broker_connections_closed_total"),
        0
    );
    assert_eq!(
        metric_value(&initial_metrics, "runnel_broker_connection_errors_total"),
        0
    );
    assert_eq!(
        metric_value(&initial_metrics, "runnel_broker_request_bytes_total"),
        0
    );
    assert_eq!(
        metric_value(&initial_metrics, "runnel_broker_response_bytes_total"),
        0
    );
    assert!(initial_metrics.contains(
        "# HELP runnel_deliveries_total Messages returned by successful poll operations."
    ));
    assert!(initial_metrics.contains("# TYPE runnel_deliveries_total counter"));
    assert!(initial_metrics.contains("# TYPE runnel_in_flight_deliveries gauge"));
    assert!(initial_metrics.contains("# TYPE runnel_broker_request_duration_seconds histogram"));

    assert!(matches!(
        broker.request(publish("events", None, "hello")),
        Response::Published { offset: 0, .. }
    ));
    assert!(matches!(
        broker.request(poll("events", "worker")),
        Response::Message { offset: 0, .. }
    ));
    let in_flight_metrics = broker.metrics();
    assert_eq!(
        metric_value(&in_flight_metrics, "runnel_in_flight_deliveries"),
        1
    );
    assert!(matches!(
        broker.request(ack("events", "worker", 0)),
        Response::Acknowledged { already_acknowledged: false, .. }
    ));

    let metrics = broker.metrics();
    assert_eq!(metric_value(&metrics, "runnel_in_flight_deliveries"), 0);
    assert_eq!(metric_value(&metrics, "runnel_deliveries_total"), 1);
    assert_eq!(metric_value(&metrics, "runnel_delivered_bytes_total"), 5);
    assert_eq!(metric_value(&metrics, "runnel_publishes_total"), 1);
    assert_eq!(metric_value(&metrics, "runnel_published_bytes_total"), 5);
    assert_eq!(metric_value(&metrics, "runnel_acknowledgements_total"), 1);
    assert!(
        metric_value(&metrics, "runnel_broker_connections_accepted_total") >= 3,
        "each broker request should be served by an accepted connection"
    );
    assert!(metric_value(&metrics, "runnel_broker_request_bytes_total") > 0);
    assert!(metric_value(&metrics, "runnel_broker_response_bytes_total") > 0);
    assert_eq!(
        labeled_metric_value(
            &metrics,
            "runnel_broker_requests_total",
            "operation=\"publish\""
        ),
        1
    );
    assert_eq!(
        labeled_metric_value(
            &metrics,
            "runnel_broker_request_failures_total",
            "operation=\"publish\""
        ),
        0
    );
    assert_eq!(
        labeled_metric_value(
            &metrics,
            "runnel_broker_request_duration_seconds_count",
            "operation=\"poll\""
        ),
        1
    );
    assert!(metric_value(&metrics, "runnel_metrics_scrapes_total") >= 2);
}

#[test]
fn metrics_report_protocol_failures_without_stream_labels() {
    let mut broker = Broker::new();
    assert!(matches!(
        broker.request(poll("missing-stream", "worker")),
        Response::Error { code, .. } if code == "stream_not_found"
    ));

    let metrics = broker.metrics();
    assert_eq!(
        labeled_metric_value(
            &metrics,
            "runnel_broker_requests_total",
            "operation=\"poll\""
        ),
        1
    );
    assert_eq!(
        labeled_metric_value(
            &metrics,
            "runnel_broker_request_failures_total",
            "operation=\"poll\""
        ),
        1
    );
    assert!(metric_value(&metrics, "runnel_active_connections") <= 1);
    assert_eq!(metric_value(&metrics, "runnel_active_requests"), 0);
    assert!(!metrics.contains("missing-stream"));
    assert!(!metrics.contains("worker"));
}

#[test]
fn network_protocol_shares_work_between_group_members() {
    let mut broker = Broker::new();
    assert!(matches!(
        broker.request(publish("jobs", None, "first")),
        Response::Published { offset: 0, .. }
    ));
    assert!(matches!(
        broker.request(publish("jobs", None, "second")),
        Response::Published { offset: 1, .. }
    ));

    let first = broker.request(Request::PollGroup {
        stream: "jobs".to_owned(),
        consumer: "workers".to_owned(),
        member: "member-a".to_owned(),
    });
    let first_token = match first {
        Response::Message {
            offset: 0,
            member: Some(member),
            delivery_token: Some(token),
            ..
        } => {
            assert_eq!(member, "member-a");
            token
        }
        response => panic!("expected first grouped message, got {response:?}"),
    };

    assert!(matches!(
        broker.request(Request::PollGroup {
            stream: "jobs".to_owned(),
            consumer: "workers".to_owned(),
            member: "member-b".to_owned(),
        }),
        Response::Message { offset: 1, .. }
    ));
    assert!(matches!(
        broker.request(Request::AckGroup {
            stream: "jobs".to_owned(),
            consumer: "workers".to_owned(),
            member: "member-a".to_owned(),
            offset: 0,
            delivery_token: first_token,
        }),
        Response::Acknowledged { already_acknowledged: false, .. }
    ));
}

#[test]
fn attempts_are_told_and_dead_letters_are_read() {
    let mut broker = Broker::with_limits(10, Some(2));
    assert!(matches!(
        broker.request(publish("events", Some("order-1"), "poison")),
        Response::Published { offset: 0, .. }
    ));
    assert!(matches!(
        broker.request(poll("events", "worker")),
        Response::Message { offset: 0, delivery_attempt: Some(1), .. }
    ));
    broker.now_ms += 20;
    assert!(matches!(
        broker.request(poll("events", "worker")),
        Response::Message { offset: 0, delivery_attempt: Some(2), .. }
    ));
    broker.now_ms += 20;
    assert!(matches!(
        broker.request(poll("events", "worker")),
        Response::Empty { .. }
    ));
    assert!(matches!(
        broker.request(poll("events.dead-letter", "inspector")),
        Response::Message { offset: 0, key: Some(key), payload, .. }
            if key == "order-1" && payload == "poison"
    ));
    assert!(matches!(
        broker.request(ack("events.dead-letter", "inspector", 0)),
        Response::Acknowledged { already_acknowledged: false, .. }
    ));
    assert!(matches!(
        broker.request(poll("events.dead-letter", "inspector")),
        Response::Empty { .. }
    ));
}

#[test]
fn network_protocol_recovers_dead_letter_without_source_redelivery_after_restart() {
    let mut broker = Broker::with_limits(10, Some(1));
    assert!(matches!(
        broker.request(publish("events", Some("order-1"), "poison")),
        Response::Published { offset: 0, .. }
    ));
    assert!(matches!(
        broker.request(poll("events", "worker")),
        Response::Message { offset: 0, delivery_attempt: Some(1), .. }
    ));
    broker.now_ms += 25;
    assert!(matches!(
        broker.request(poll("events", "worker")),
        Response::Empty { .. }
    ));
    broker.restart();

    assert!(matches!(
        broker.request(poll("events", "worker")),
        Response::Empty { .. }
    ));
    assert!(matches!(
        broker.request(poll("events.dead-letter", "inspector")),
        Response::Message { offset: 0, key: Some(key), payload, .. }
            if key == "order-1" && payload == "poison"
    ));
    assert!(matches!(
        broker.request(ack("events.dead-letter", "inspector", 0)),
        Response::Acknowledged { already_acknowledged: false, .. }
    ));
    assert!(matches!(
        broker.request(poll("events.dead-letter", "inspector")),
        Response::Empty { .. }
    ));
}

#[test]
fn network_protocol_round_trips_binary_payload_across_restart() {
    let mut broker = Broker::new();
    assert!(matches!(
        broker.request(Request::CreateStream {
            stream: "binary".to_owned(),
        }),
        Response::StreamCreated { created: true, .. }
    ));
    assert!(matches!(
        broker.request(Request::PublishBytes {
            stream: "binary".to_owned(),
            key: None,
            payload_base64: vec![0, 1, 255, b'\n', b'_'],
            request_id: None,
        }),
        Response::Published { offset: 0, .. }
    ));
    assert!(matches!(
        broker.request(poll("binary", "worker")),
        Response::MessageBytes { offset: 0, payload_base64, .. }
            if payload_base64 == [0, 1, 255, b'\n', b'_']
    ));

    broker.restart();
    assert!(matches!(
        broker.request(replay("binary", "worker", 0)),
        Response::ReplayMessageBytes { offset: 0, payload_base64, .. }
            if payload_base64 == [0, 1, 255, b'\n', b'_']
    ));
    assert!(matches!(
        broker.request(poll("binary", "worker")),
        Response::MessageBytes { offset: 0, payload_base64, .. }
            if payload_base64 == [0, 1, 255, b'\n', b'_']
    ));
    assert!(matches!(
        broker.request(ack("binary", "worker", 0)),
        Response::Acknowledged { already_acknowledged: false, .. }
    ));
}

#[test]
fn network_protocol_reassigns_group_delivery_after_restart() {
    let mut broker = Broker::new();
    assert!(matches!(
        broker.request(publish("jobs", Some("order-1"), "recover-me")),
        Response::Published { offset: 0, .. }
    ));
    let first_token = match broker.request(Request::PollGroup {
        stream: "jobs".to_owned(),
        consumer: "workers".to_owned(),
        member: "member-a".to_owned(),
    }) {
        Response::Message {
            offset: 0,
            delivery_attempt: Some(1),
            delivery_token: Some(token),
            ..
        } => token,
        response => panic!("expected first grouped delivery, got {response:?}"),
    };

    // The lease is recorded, and runs out while the broker is down.
    broker.restart();
    broker.now_ms += 30_000;
    let second_token = match broker.request(Request::PollGroup {
        stream: "jobs".to_owned(),
        consumer: "workers".to_owned(),
        member: "member-b".to_owned(),
    }) {
        Response::Message {
            offset: 0,
            delivery_attempt: Some(2),
            delivery_token: Some(token),
            ..
        } => token,
        response => panic!("expected reassigned grouped delivery, got {response:?}"),
    };
    assert!(matches!(
        broker.request(Request::AckGroup {
            stream: "jobs".to_owned(),
            consumer: "workers".to_owned(),
            member: "member-a".to_owned(),
            offset: 0,
            delivery_token: first_token,
        }),
        Response::Error { code, .. } if code == "stale_delivery"
    ));
    assert!(matches!(
        broker.request(Request::AckGroup {
            stream: "jobs".to_owned(),
            consumer: "workers".to_owned(),
            member: "member-b".to_owned(),
            offset: 0,
            delivery_token: second_token,
        }),
        Response::Acknowledged { already_acknowledged: false, .. }
    ));
}

#[test]
fn network_protocol_recovers_binary_publish_batch_and_request_ids() {
    let mut broker = Broker::new();
    let record = |key: Option<&str>, payload: &[u8], request_id: &str| PublishBatchRecord {
        key: key.map(str::to_owned),
        payload_base64: payload.to_vec(),
        request_id: Some(request_id.to_owned()),
    };
    let published = |response: Response| {
        matches!(
            response,
            Response::PublishBatch { outcomes, .. }
                if matches!(outcomes.as_slice(), [
                    PublishBatchRecordResponse::Published { offset: 0 },
                    PublishBatchRecordResponse::Published { offset: 1 },
                ])
        )
    };
    assert!(published(broker.request(Request::PublishBatch {
        stream: "events".to_owned(),
        records: vec![
            record(Some("order-1"), &[0, 1, 255], "batch-1"),
            record(None, b"second", "batch-2"),
        ],
    })));
    broker.restart();

    assert!(published(broker.request(Request::PublishBatch {
        stream: "events".to_owned(),
        records: vec![
            record(Some("different-key"), b"different", "batch-1"),
            record(None, b"different", "batch-2"),
        ],
    })));
    assert!(matches!(
        broker.request(poll("events", "worker")),
        Response::MessageBytes { offset: 0, payload_base64, .. } if payload_base64 == [0, 1, 255]
    ));
    assert!(matches!(
        broker.request(ack("events", "worker", 0)),
        Response::Acknowledged { .. }
    ));
    assert!(matches!(
        broker.request(poll("events", "worker")),
        Response::Message { offset: 1, payload, .. } if payload == "second"
    ));
}
