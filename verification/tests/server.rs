use runnel::base64::{decode, encode};
use runnel::connection::{
    on_accepted, on_answered, on_connection_error, on_decoded, on_frame, on_saturated, on_written,
    response_line, DecodeAction, FrameAction, FrameOutcome, Reply,
};
use runnel::dispatch::{
    engine_call, error_response, message_response, respond, EngineAnswer, EngineCall,
    EngineFailure,
};
use runnel::engine::{
    AckResult, BrokerError, HealthSnapshot, IoFailure, IoKind, Message, PollResult, ReplayMessage,
};
use runnel::metrics_text::{can_format, format_metrics};
use runnel::observability::{
    health_timeout_error, readiness, ActiveConnection, ActiveRequest, RequestOperation,
    ServerMetrics,
};
use runnel::protocol::{
    remaining_timeout, request_line, response_write_timeout, validate_admission_config, Frame,
    FrameReader, ProtocolAdmission, PublishBatchRecord, PublishBatchRecordResponse, Request,
    Response, CONNECTION_REJECTION,
};
use runnel::state_machine_store::SnapshotMetricsSnapshot;

fn admission() -> ProtocolAdmission {
    ProtocolAdmission {
        max_connections: 3,
        max_request_bytes: 2048,
        max_in_flight_requests: 7,
        request_timeout_nanos: 1_250_000_000,
    }
}

fn sums(metrics: &ServerMetrics) -> Vec<String> {
    metrics
        .request_durations
        .iter()
        .map(|duration| format!("{:.6}", duration.sum_micros as f64 / 1_000_000.0))
        .collect()
}

fn metrics_body(health: Option<HealthSnapshot>, metrics: &ServerMetrics) -> String {
    let admission = admission();
    let timeout = format!("{:.9}", admission.request_timeout_nanos as f64 / 1_000_000_000.0);
    assert!(can_format(metrics));
    format_metrics(
        health,
        health.map(|_| SnapshotMetricsSnapshot::default()),
        metrics,
        &admission,
        &timeout,
        &sums(metrics),
    )
}

fn some_health() -> HealthSnapshot {
    HealthSnapshot {
        streams: 2,
        storage_bytes: 64,
        in_flight_deliveries: 1,
        redeliveries: 5,
        dead_letters: 6,
    }
}

fn metric_value(metrics: &str, name: &str) -> u64 {
    metrics
        .lines()
        .find_map(|line| line.strip_prefix(&format!("{name} ")))
        .and_then(|value| value.parse().ok())
        .unwrap_or_default()
}

fn metric_float_value(metrics: &str, name: &str) -> f64 {
    metrics
        .lines()
        .find_map(|line| line.strip_prefix(&format!("{name} ")))
        .and_then(|value| value.parse().ok())
        .unwrap_or_default()
}

fn told(
    request: Request,
    answer: Result<EngineAnswer, EngineFailure>,
    metrics: &mut ServerMetrics,
) -> Response {
    respond(request, answer, metrics).unwrap()
}

#[test]
fn configured_admission_limits_are_exposed_as_gauges() {
    let metrics = metrics_body(Some(some_health()), &ServerMetrics::default());
    assert_eq!(metric_value(&metrics, "runnel_broker_max_connections"), 3);
    assert_eq!(
        metric_value(&metrics, "runnel_broker_max_request_bytes"),
        2048
    );
    assert_eq!(
        metric_value(&metrics, "runnel_broker_max_in_flight_requests"),
        7
    );
    assert_eq!(
        metric_float_value(&metrics, "runnel_broker_request_timeout_seconds"),
        1.25
    );
    assert!(metrics.contains("# TYPE runnel_broker_max_connections gauge"));
    assert!(metrics.contains("# TYPE runnel_broker_max_request_bytes gauge"));
    assert!(metrics.contains("# TYPE runnel_broker_max_in_flight_requests gauge"));
    assert!(metrics.contains("# TYPE runnel_broker_request_timeout_seconds gauge"));
}

#[test]
fn metrics_are_told_line_by_line() {
    let body = metrics_body(Some(some_health()), &ServerMetrics::default());
    assert!(body.starts_with(
        "# HELP runnel_streams Number of streams currently known to the broker.\n# TYPE runnel_streams gauge\nrunnel_streams 2\n# HELP runnel_storage_bytes Bytes currently occupied by broker storage.\n"
    ));
    assert!(body.contains("\nrunnel_engine_health_available 1\n"));
    assert!(body.contains("\nrunnel_redeliveries_total 5\n"));
    assert!(body.contains("\nrunnel_dead_letters_total 6\n"));
    assert!(body.contains(
        "# TYPE runnel_broker_requests_total counter\nrunnel_broker_requests_total{operation=\"create_stream\"} 0\n"
    ));
    assert!(body.ends_with(
        "# TYPE runnel_snapshot_transfer_bytes_received_total counter\nrunnel_snapshot_transfer_bytes_received_total 0\n"
    ));
    let lines = body.lines().count();
    let without = metrics_body(None, &ServerMetrics::default());
    assert!(without.contains("\nrunnel_engine_health_available 0\n"));
    assert!(!without.contains("runnel_streams"));
    assert!(!without.contains("runnel_redeliveries_total"));
    assert!(!without.contains("runnel_snapshot_"));
    assert_eq!(lines - without.lines().count(), 3 * 3 + 2 * 3 + 11 * 2);
}

#[test]
fn durations_are_told_cumulatively() {
    let mut metrics = ServerMetrics::default();
    for nanos in [50_000, 100_000, 100_001_000, 20_000_000_000_u128] {
        metrics.record_request(RequestOperation::Poll, nanos, false);
    }
    let body = metrics_body(None, &metrics);
    let bucket = |le: &str| {
        metric_value(
            &body,
            &format!(
                "runnel_broker_request_duration_seconds_bucket{{operation=\"poll\",le=\"{le}\"}}"
            ),
        )
    };
    assert_eq!(bucket("0.0001"), 2);
    assert_eq!(bucket("0.001"), 2);
    assert_eq!(bucket("0.1"), 2);
    assert_eq!(bucket("1"), 3);
    assert_eq!(bucket("10"), 3);
    assert_eq!(bucket("+Inf"), 4);
    assert!(body.contains(
        "runnel_broker_request_duration_seconds_sum{operation=\"poll\"} 20.100151\n"
    ));
    assert!(body.contains(
        "runnel_broker_request_duration_seconds_count{operation=\"poll\"} 4\n"
    ));
}

#[test]
fn metrics_that_do_not_add_up_are_not_told() {
    let mut metrics = ServerMetrics::default();
    assert!(can_format(&metrics));
    metrics.request_durations[0].buckets = [u64::MAX, 1, 0, 0, 0, 0];
    assert!(!can_format(&metrics));
}

#[test]
fn operations_have_places_and_names() {
    let names = [
        "create_stream",
        "publish",
        "poll",
        "replay",
        "poll_group",
        "ack",
        "ack_group",
        "health",
        "invalid_request",
    ];
    for (index, name) in names.into_iter().enumerate() {
        let operation = RequestOperation::at(index);
        assert_eq!(operation.index(), index);
        assert_eq!(operation.name(), name);
    }
    let batch = Request::PublishBatch {
        stream: "a".to_owned(),
        records: Vec::new(),
    };
    assert_eq!(RequestOperation::from_request(&batch), RequestOperation::Publish);
    assert_eq!(RequestOperation::from_request(&Request::Health), RequestOperation::Health);
}

#[test]
fn rejected_requests_are_counted_once() {
    let mut metrics = ServerMetrics::default();
    metrics.record_rejected_request(RequestOperation::Publish, 0);
    let index = RequestOperation::Publish.index();
    assert_eq!(metrics.requests_rejected, 1);
    assert_eq!(metrics.requests[index], 1);
    assert_eq!(metrics.request_failures[index], 1);
    assert_eq!(metrics.requests.iter().sum::<u64>(), 1);
    assert_eq!(metrics.request_timeouts, 0);
}

#[test]
fn gauges_come_back_when_work_ends() {
    let mut metrics = ServerMetrics::default();
    let connection = ActiveConnection::new(&mut metrics);
    let request = ActiveRequest::new(&mut metrics);
    assert_eq!((metrics.active_connections, metrics.active_requests), (1, 1));
    request.finish(&mut metrics);
    connection.close(&mut metrics);
    assert_eq!((metrics.active_connections, metrics.active_requests), (0, 0));
    assert_eq!(metrics.connections_closed, 1);
}

#[test]
fn readiness_follows_the_engine_and_the_shutdown() {
    let mut metrics = ServerMetrics::default();
    let ready = readiness(&mut metrics, false, Some(some_health()));
    assert!(ready.ready);
    assert_eq!((ready.body.status, ready.body.streams), ("ready", 2));
    let failing = readiness(&mut metrics, false, None);
    assert!(!failing.ready);
    assert_eq!(failing.body.status, "not_ready");
    assert_eq!(metrics.health_check_failures, 1);
    let stopping = readiness(&mut metrics, true, Some(some_health()));
    assert!(!stopping.ready);
    assert_eq!(stopping.body.storage_bytes, 0);
    assert_eq!(metrics.health_check_failures, 1);
    metrics.record_scrape();
    metrics.record_scrape_failure();
    assert_eq!((metrics.metrics_scrapes, metrics.metrics_scrape_failures), (1, 1));
    assert_eq!(metrics.health_check_failures, 2);
    assert_eq!(
        health_timeout_error(),
        BrokerError::Cluster("health check timed out".to_owned())
    );
}

#[test]
fn admission_limits_are_checked_in_turn() {
    let check = |connections, bytes, in_flight, timeout| {
        validate_admission_config(connections, bytes, in_flight, timeout, 1_000)
    };
    assert_eq!(check(1, 1_000, 1, 1), Ok(()));
    assert_eq!(
        check(0, 0, 0, 0),
        Err("--max-connections must be greater than zero".to_owned())
    );
    assert_eq!(
        check(1, 1_001, 0, 0),
        Err("--max-request-bytes must be between 1 and 1000".to_owned())
    );
    assert_eq!(
        check(1, 0, 1, 1),
        Err("--max-request-bytes must be between 1 and 1000".to_owned())
    );
    assert_eq!(
        check(1, 1, 0, 0),
        Err("--max-in-flight-requests must be greater than zero".to_owned())
    );
    assert_eq!(
        check(1, 1, 1, 0),
        Err("--request-timeout-ms must be greater than zero".to_owned())
    );
}

fn read(parts: &[&[u8]], max_request_bytes: usize) -> (Frame, usize) {
    let mut reader = FrameReader::new(max_request_bytes).unwrap();
    let mut consumed = 0;
    for part in parts {
        let step = reader.take(part);
        consumed += step.consumed;
        if let Some(frame) = step.frame {
            return (frame, consumed);
        }
    }
    (reader.finish(), consumed)
}

#[test]
fn lines_are_read_whatever_their_parts() {
    let line = Frame::Complete { bytes: b"abc\n".to_vec() };
    assert_eq!(read(&[b"abc\nnext"], 3), (line, 4));
    let line = Frame::Complete { bytes: b"abc\n".to_vec() };
    assert_eq!(read(&[b"a", b"b", b"c", b"\n"], 3), (line, 4));
    assert_eq!(
        read(&[b"abcd\n"], 3),
        (Frame::TooLarge { bytes: b"abcd".to_vec() }, 4)
    );
    assert_eq!(
        read(&[b"ab", b"cd"], 3),
        (Frame::TooLarge { bytes: b"abcd".to_vec() }, 4)
    );
    assert_eq!(
        read(&[b"ab"], 3),
        (Frame::Unterminated { bytes: b"ab".to_vec() }, 2)
    );
    assert_eq!(read(&[], 3), (Frame::End, 0));
    assert_eq!(
        FrameReader::new(usize::MAX).unwrap_err().message,
        "maximum request size is too large"
    );
}

#[test]
fn line_endings_are_taken_off() {
    assert_eq!(request_line(b"abc\n"), b"abc");
    assert_eq!(request_line(b"abc\r\n"), b"abc");
    assert_eq!(request_line(b"\n"), b"");
    assert_eq!(request_line(b"\r\n"), b"");
    assert_eq!(request_line(b"a\r\r\n"), b"a\r");
}

#[test]
fn time_runs_out_at_zero() {
    assert_eq!(remaining_timeout(3, 10), 7);
    assert_eq!(remaining_timeout(11, 10), 0);
    let error = error_response(EngineFailure {
        error: BrokerError::LockPoisoned,
        text: "poisoned".to_owned(),
    });
    assert_eq!(response_write_timeout(9, 10, &error), 10);
    let empty = Response::Empty {
        stream: "s".to_owned(),
        consumer: "c".to_owned(),
    };
    assert_eq!(response_write_timeout(9, 10, &empty), 1);
}

fn error_of(reply: Reply) -> (String, String, bool) {
    match reply.response {
        Response::Error { code, message } => {
            assert_eq!(reply.write_timeout_nanos, 1_250_000_000);
            (code, message, reply.close)
        }
        response => panic!("expected an error, got {response:?}"),
    }
}

#[test]
fn unusable_lines_end_their_connection() {
    let mut metrics = ServerMetrics::default();
    let mut refused = |outcome| match on_frame(&mut metrics, &admission(), outcome, 5) {
        FrameAction::Send(reply) => error_of(reply),
        action => panic!("expected a reply, got {action:?}"),
    };
    assert_eq!(
        refused(FrameOutcome::TimedOut),
        (
            "request_timeout".to_owned(),
            "request exceeded the configured timeout".to_owned(),
            true
        )
    );
    assert_eq!(
        refused(FrameOutcome::Read(Frame::TooLarge { bytes: vec![0; 2049] })),
        (
            "request_too_large".to_owned(),
            "request frame exceeds the configured maximum of 2048 bytes".to_owned(),
            true
        )
    );
    assert_eq!(
        refused(FrameOutcome::Read(Frame::Unterminated { bytes: vec![0; 4] })),
        (
            "invalid_request".to_owned(),
            "request frame must end with a newline".to_owned(),
            true
        )
    );
    assert_eq!(metrics.requests_rejected, 3);
    assert_eq!(metrics.request_timeouts, 1);
    assert_eq!(metrics.request_size_rejections, 1);
    assert_eq!(metrics.request_bytes, 2053);
    assert!(matches!(
        on_frame(&mut metrics, &admission(), FrameOutcome::Read(Frame::End), 5),
        FrameAction::Close
    ));
    assert!(matches!(
        on_frame(
            &mut metrics,
            &admission(),
            FrameOutcome::Read(Frame::Complete { bytes: b"{}\n".to_vec() }),
            5
        ),
        FrameAction::Decode { bytes } if bytes == b"{}\n"
    ));
    assert_eq!(metrics.requests_rejected, 3);
    assert_eq!(metrics.request_bytes, 2056);
}

#[test]
fn lines_that_hold_no_request_are_told_so() {
    let mut metrics = ServerMetrics::default();
    match on_decoded(&mut metrics, &admission(), b"{}", Err("missing field".to_owned()), 5) {
        DecodeAction::Send(reply) => assert_eq!(
            error_of(reply),
            ("invalid_request".to_owned(), "missing field".to_owned(), false)
        ),
        action => panic!("unexpected action: {action:?}"),
    }
    assert!(matches!(
        on_decoded(&mut metrics, &admission(), &[0xff], Err("invalid".to_owned()), 5),
        DecodeAction::Fail(failure)
            if failure.kind == IoKind::InvalidData
                && failure.message == "request frame was not valid UTF-8"
    ));
    assert_eq!(metrics.requests_rejected, 2);
    assert!(matches!(
        on_decoded(&mut metrics, &admission(), b"{}", Ok(Request::Health), 5),
        DecodeAction::Admit { operation: RequestOperation::Health, request: Request::Health }
    ));
    assert_eq!(metrics.requests_rejected, 2);
}

#[test]
fn saturation_and_timeouts_are_told_apart() {
    let mut metrics = ServerMetrics::default();
    let reply = on_saturated(&mut metrics, &admission(), RequestOperation::Poll, 5);
    assert_eq!(
        error_of(reply),
        (
            "request_saturated".to_owned(),
            "maximum in-flight request work is currently active".to_owned(),
            false
        )
    );
    assert_eq!(metrics.request_saturation_rejections, 1);
    assert_eq!(metrics.request_timeouts, 0);
    let reply = on_answered(&mut metrics, &admission(), RequestOperation::Poll, None, 5);
    assert_eq!(error_of(reply).0, "request_timeout");
    assert_eq!(metrics.request_timeouts, 1);
    assert_eq!(metrics.requests_rejected, 1);
    let reply = on_answered(
        &mut metrics,
        &admission(),
        RequestOperation::Poll,
        Some(Response::Empty {
            stream: "s".to_owned(),
            consumer: "c".to_owned(),
        }),
        250_000_000,
    );
    assert_eq!(reply.write_timeout_nanos, 1_000_000_000);
    assert!(!reply.close);
    let index = RequestOperation::Poll.index();
    assert_eq!((metrics.requests[index], metrics.request_failures[index]), (3, 2));
}

#[test]
fn connections_and_responses_are_counted() {
    let mut metrics = ServerMetrics::default();
    on_accepted(&mut metrics, true);
    on_accepted(&mut metrics, false);
    on_connection_error(&mut metrics);
    assert_eq!(metrics.connections_accepted, 2);
    assert_eq!(metrics.connections_rejected, 1);
    assert_eq!(metrics.connections_closed, 1);
    assert_eq!(metrics.connection_errors, 1);
    let line = response_line(b"{}".to_vec());
    assert_eq!(line, b"{}\n");
    assert!(on_written(&mut metrics, line.len(), true).is_ok());
    let failure = on_written(&mut metrics, line.len(), false).unwrap_err();
    assert_eq!(failure.kind, IoKind::TimedOut);
    assert_eq!(failure.message, "response write timed out");
    assert_eq!(metrics.response_bytes, 3);
    assert_eq!(metrics.response_write_timeouts, 1);
    assert_eq!(
        CONNECTION_REJECTION,
        "{\"type\":\"error\",\"code\":\"connection_limit\",\"message\":\"maximum client connections reached\"}\n"
    );
}

const MAX_PUBLISH_BATCH_RECORDS: usize = 16;

#[test]
fn network_protocol_rejects_publish_batches_over_record_bound() {
    let records = (0..=MAX_PUBLISH_BATCH_RECORDS)
        .map(|_| PublishBatchRecord {
            key: None,
            payload_base64: Vec::new(),
            request_id: None,
        })
        .collect();
    assert!(matches!(
        engine_call(
            &Request::PublishBatch {
                stream: "events".to_owned(),
                records,
            },
            MAX_PUBLISH_BATCH_RECORDS,
        ),
        Err(Response::Error { code, message })
            if code == "invalid_request" && message.contains("more than")
    ));
}

#[test]
fn network_protocol_returns_partial_publish_batch_outcomes() {
    let mut metrics = ServerMetrics::default();
    let request = Request::PublishBatch {
        stream: "events".to_owned(),
        records: vec![
            PublishBatchRecord {
                key: None,
                payload_base64: b"rejected".to_vec(),
                request_id: Some("x".repeat(1_025)),
            },
            PublishBatchRecord {
                key: None,
                payload_base64: b"accepted".to_vec(),
                request_id: Some("accepted".to_owned()),
            },
        ],
    };
    let outcomes = vec![
        Err(EngineFailure {
            error: BrokerError::Io(IoFailure {
                kind: IoKind::InvalidInput,
                message: "request id is too long".to_owned(),
            }),
            text: "request id is too long".to_owned(),
        }),
        Ok(0),
    ];
    assert!(matches!(
        told(request, Ok(EngineAnswer::PublishBatch(outcomes)), &mut metrics),
        Response::PublishBatch { outcomes, .. }
            if matches!(outcomes.as_slice(), [
                PublishBatchRecordResponse::Error { code, .. },
                PublishBatchRecordResponse::Published { offset: 0 },
            ] if code == "invalid_record")
    ));
    assert_eq!(metrics.publishes, 1);
    assert_eq!(metrics.published_bytes, 8);
}

#[test]
fn batches_must_be_answered_in_full() {
    let mut metrics = ServerMetrics::default();
    let request = || Request::PublishBatch {
        stream: "events".to_owned(),
        records: vec![PublishBatchRecord {
            key: None,
            payload_base64: b"x".to_vec(),
            request_id: None,
        }],
    };
    let error =
        respond(request(), Ok(EngineAnswer::PublishBatch(Vec::new())), &mut metrics).unwrap_err();
    assert_eq!(
        error,
        BrokerError::Cluster("publish batch returned the wrong number of outcomes".to_owned())
    );
    assert_eq!(
        error_response(EngineFailure {
            error,
            text: "what the error says".to_owned(),
        }),
        Response::Error {
            code: "cluster_error".to_owned(),
            message: "what the error says".to_owned(),
        }
    );
    assert_eq!(metrics, ServerMetrics::default());
    assert!(matches!(
        engine_call(
            &Request::PublishBatch { stream: "events".to_owned(), records: Vec::new() },
            1
        ),
        Err(Response::Error { message, .. })
            if message == "publish batch must contain at least one record"
    ));
    assert!(matches!(
        engine_call(&request(), 1),
        Ok(EngineCall::PublishBatch { records, .. })
            if records.len() == 1 && records[0].payload == b"x"
    ));
}

#[test]
fn texts_are_published_as_bytes() {
    let request = Request::Publish {
        stream: "s".to_owned(),
        key: Some("k".to_owned()),
        payload: "h\u{e9}".to_owned(),
        request_id: Some("r".to_owned()),
    };
    assert_eq!(
        engine_call(&request, 1),
        Ok(EngineCall::Publish {
            stream: "s".to_owned(),
            key: Some("k".to_owned()),
            payload: vec![b'h', 0xc3, 0xa9],
            request_id: Some("r".to_owned()),
        })
    );
    let mut metrics = ServerMetrics::default();
    assert_eq!(
        told(request, Ok(EngineAnswer::Publish(4)), &mut metrics),
        Response::Published {
            stream: "s".to_owned(),
            offset: 4,
        }
    );
    assert_eq!(metrics.published_bytes, 3);
}

fn delivered(payload: &[u8]) -> Message {
    Message {
        stream: "s".to_owned(),
        offset: 3,
        key: None,
        payload: payload.to_vec(),
        published_at_ms: 1,
        delivery_token: Some("token".to_owned()),
        delivery_attempt: Some(2),
    }
}

#[test]
fn payloads_are_told_as_text_where_they_are_text() {
    assert!(matches!(
        message_response(delivered(b"hello"), "c".to_owned(), Some("m".to_owned())),
        Response::Message {
            payload,
            member: Some(member),
            delivery_token: Some(token),
            delivery_attempt: Some(2),
            ..
        } if payload == "hello" && member == "m" && token == "token"
    ));
    assert!(matches!(
        message_response(delivered(&[0, 1, 255]), "c".to_owned(), None),
        Response::MessageBytes { payload_base64, delivery_token: None, .. }
            if payload_base64 == [0, 1, 255]
    ));
    let mut metrics = ServerMetrics::default();
    let replay = |payload: &[u8]| ReplayMessage {
        stream: "s".to_owned(),
        offset: 0,
        key: None,
        payload: payload.to_vec(),
        published_at_ms: 1,
    };
    let request = || Request::Replay {
        stream: "s".to_owned(),
        consumer: "c".to_owned(),
        offset: 0,
    };
    assert!(matches!(
        told(request(), Ok(EngineAnswer::Replay(replay(b"a"))), &mut metrics),
        Response::ReplayMessage { payload, .. } if payload == "a"
    ));
    assert!(matches!(
        told(request(), Ok(EngineAnswer::Replay(replay(&[255]))), &mut metrics),
        Response::ReplayMessageBytes { payload_base64, .. } if payload_base64 == [255]
    ));
    assert_eq!(metrics, ServerMetrics::default());
}

#[test]
fn answers_are_told_and_counted() {
    let mut metrics = ServerMetrics::default();
    let stream = || "s".to_owned();
    let consumer = || "c".to_owned();
    assert_eq!(
        told(
            Request::CreateStream { stream: stream() },
            Ok(EngineAnswer::CreateStream(false)),
            &mut metrics
        ),
        Response::StreamCreated {
            stream: stream(),
            created: false,
        }
    );
    assert_eq!(metrics.stream_creations, 0);
    told(
        Request::CreateStream { stream: stream() },
        Ok(EngineAnswer::CreateStream(true)),
        &mut metrics,
    );
    assert_eq!(metrics.stream_creations, 1);
    assert_eq!(
        told(
            Request::Ack { stream: stream(), consumer: consumer(), offset: 1 },
            Ok(EngineAnswer::Ack(AckResult::AlreadyAcknowledged)),
            &mut metrics
        ),
        Response::Acknowledged {
            stream: stream(),
            consumer: consumer(),
            offset: 1,
            already_acknowledged: true,
        }
    );
    assert_eq!(metrics.acknowledgements, 1);
    assert_eq!(
        told(
            Request::Poll { stream: stream(), consumer: consumer() },
            Ok(EngineAnswer::Poll(PollResult::Empty)),
            &mut metrics
        ),
        Response::Empty {
            stream: stream(),
            consumer: consumer(),
        }
    );
    assert_eq!(metrics.deliveries, 0);
    told(
        Request::PollGroup { stream: stream(), consumer: consumer(), member: "m".to_owned() },
        Ok(EngineAnswer::PollGroup(PollResult::Message(delivered(b"12345")))),
        &mut metrics,
    );
    assert_eq!((metrics.deliveries, metrics.delivered_bytes), (1, 5));
    assert!(matches!(
        told(Request::Health, Ok(EngineAnswer::Health(some_health())), &mut metrics),
        Response::Health { status, streams: 2, storage_bytes: 64 } if status == "ok"
    ));
}

#[test]
fn every_error_has_its_code() {
    let code = |error: BrokerError| match error_response(EngineFailure {
        error,
        text: "text".to_owned(),
    }) {
        Response::Error { code, message } => {
            assert_eq!(message, "text");
            code
        }
        response => panic!("unexpected response: {response:?}"),
    };
    let name = || "n".to_owned();
    assert_eq!(code(BrokerError::InvalidName { kind: "stream", name: name() }), "invalid_name");
    assert_eq!(code(BrokerError::StreamNotFound(name())), "stream_not_found");
    assert_eq!(code(BrokerError::StreamNotReady(name())), "stream_not_ready");
    assert_eq!(
        code(BrokerError::AckNotInFlight { consumer: name(), offset: 0 }),
        "ack_not_in_flight"
    );
    assert_eq!(
        code(BrokerError::StaleDelivery { consumer: name(), offset: 0 }),
        "stale_delivery"
    );
    assert_eq!(
        code(BrokerError::OutOfOrderAck { consumer: name(), expected: 0, received: 1 }),
        "out_of_order_ack"
    );
    assert_eq!(
        code(BrokerError::HistoryUnavailable {
            stream: name(),
            requested_offset: 2,
            earliest_offset: 0,
            next_offset: 1,
        }),
        "history_unavailable"
    );
    assert_eq!(code(BrokerError::CorruptRecord(name())), "corrupt_record");
    assert_eq!(
        code(BrokerError::Io(IoFailure { kind: IoKind::InvalidInput, message: name() })),
        "storage_error"
    );
    assert_eq!(code(BrokerError::State(name())), "consumer_state_error");
    assert_eq!(code(BrokerError::LockPoisoned), "internal_error");
    assert_eq!(code(BrokerError::Configuration(name())), "invalid_configuration");
    assert_eq!(code(BrokerError::NotLeader { leader_id: None }), "cluster_error");
    assert_eq!(code(BrokerError::Cluster(name())), "cluster_error");
}

#[test]
fn payloads_are_spelled_and_read_back() {
    assert_eq!(encode(&[0, 1, 255, b'\n', b'_']), b"AAH/Cl8=");
    assert_eq!(decode(b"AAH/Cl8=").unwrap(), [0, 1, 255, b'\n', b'_']);
    assert_eq!(encode(b""), b"");
    assert_eq!(encode(b"f"), b"Zg==");
    assert_eq!(encode(b"fo"), b"Zm8=");
    assert_eq!(encode(b"foo"), b"Zm9v");
    assert_eq!(encode(b"foobar"), b"Zm9vYmFy");
    assert_eq!(decode(b"Zm9vYmFy").unwrap(), b"foobar");
    assert_eq!(encode(&[251, 255]), b"+/8=");
    for text in ["not base64", "Zg", "Zg=", "Zh==", "Z===", "Zg==Zg==", "Zm9v\n"] {
        assert!(decode(text.as_bytes()).is_none(), "{text}");
    }
    let all = (0..=255).collect::<Vec<u8>>();
    assert_eq!(decode(&encode(&all)).unwrap(), all);
}
