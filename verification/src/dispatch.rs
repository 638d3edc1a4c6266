//! From a request to what the engine is asked, and from what the engine answers
//! to a response.

use vstd::pervasive::unreached;
use vstd::prelude::*;
use vstd::utf8::*;

use crate::engine::{
    AckResult, BrokerError, HealthSnapshot, IoKind, Message, Offset, PollResult, ReplayMessage,
};
use crate::observability::{with_delivery, MetricsView, ServerMetrics};
use crate::protocol::{
    invalid_request_response, is_error_response, PublishBatchRecord, PublishBatchRecordResponse,
    Request, Response,
};
use crate::storage::is_cluster_error;
use crate::text::{copy_bytes, copy_optional, decimal, decimal_text, join3};
use crate::wire::append_bytes;

verus! {

/// A message to publish.
#[derive(Debug, PartialEq, Eq)]
pub struct PublishRecord {
    pub key: Option<String>,
    pub payload: Vec<u8>,
    pub request_id: Option<String>,
}

/// What the engine is asked for.
#[derive(Debug, PartialEq, Eq)]
#[allow(inconsistent_fields)]
pub enum EngineCall {
    CreateStream { stream: String },
    Publish {
        stream: String,
        key: Option<String>,
        payload: Vec<u8>,
        request_id: Option<String>,
    },
    PublishBatch { stream: String, records: Vec<PublishRecord> },
    Poll { stream: String, consumer: String },
    Replay { stream: String, consumer: String, offset: Offset },
    PollGroup { stream: String, consumer: String, member: String },
    Ack { stream: String, consumer: String, offset: Offset },
    AckGroup {
        stream: String,
        consumer: String,
        member: String,
        offset: Offset,
        delivery_token: String,
    },
    Health,
}

/// Why the engine could not do what it was asked, with what that says.
#[derive(Debug, PartialEq, Eq)]
pub struct EngineFailure {
    pub error: BrokerError,
    pub text: String,
}

/// What the engine answers.
#[derive(Debug, PartialEq, Eq)]
pub enum EngineAnswer {
    CreateStream(bool),
    Publish(Offset),
    PublishBatch(Vec<Result<Offset, EngineFailure>>),
    Poll(PollResult),
    Replay(ReplayMessage),
    PollGroup(PollResult),
    Ack(AckResult),
    AckGroup(AckResult),
    Health(HealthSnapshot),
}

/// A message to publish is one of a batch.
pub open spec fn is_record(record: PublishRecord, of: PublishBatchRecord) -> bool {
    &&& record.key.deep_view() == of.key.deep_view()
    &&& record.payload@ == of.payload_base64@
    &&& record.request_id.deep_view() == of.request_id.deep_view()
}

/// What the engine is asked for is what a request asks for: a text is published
/// as the bytes that spell it, and bytes as they are.
pub open spec fn is_call(call: EngineCall, request: Request) -> bool {
    match request {
        Request::CreateStream { stream } => call == (EngineCall::CreateStream { stream }),
        Request::Publish { stream, key, payload, request_id } => {
            call matches EngineCall::Publish { stream: s, key: k, payload: p, request_id: i } && s
                == stream && k.deep_view() == key.deep_view() && p@ == encode_utf8(payload@)
                && i.deep_view() == request_id.deep_view()
        },
        Request::PublishBytes { stream, key, payload_base64, request_id } => {
            call matches EngineCall::Publish { stream: s, key: k, payload: p, request_id: i } && s
                == stream && k.deep_view() == key.deep_view() && p@ == payload_base64@
                && i.deep_view() == request_id.deep_view()
        },
        Request::PublishBatch { stream, records } => {
            call matches EngineCall::PublishBatch { stream: s, records: r } && s == stream
                && r@.len() == records@.len() && forall|i: int|
                0 <= i < r@.len() ==> is_record(#[trigger] r@[i], records@[i])
        },
        Request::Poll { stream, consumer } => call == (EngineCall::Poll { stream, consumer }),
        Request::Replay { stream, consumer, offset } => call == (EngineCall::Replay {
            stream,
            consumer,
            offset,
        }),
        Request::PollGroup { stream, consumer, member } => call == (EngineCall::PollGroup {
            stream,
            consumer,
            member,
        }),
        Request::Ack { stream, consumer, offset } => call == (EngineCall::Ack {
            stream,
            consumer,
            offset,
        }),
        Request::AckGroup { stream, consumer, member, offset, delivery_token } => call == (
        EngineCall::AckGroup { stream, consumer, member, offset, delivery_token }),
        Request::Health => call is Health,
    }
}

/// What is wrong with a request before the engine is asked, if anything is: a
/// batch must hold a message, and no more than it may.
pub open spec fn batch_fault(request: Request, max_batch_records: usize) -> Option<Seq<char>> {
    match request {
        Request::PublishBatch { records, .. } => if records@.len() == 0 {
            Some("publish batch must contain at least one record"@)
        } else if records@.len() > max_batch_records {
            Some(
                "publish batch contains more than "@ + decimal(max_batch_records as nat)
                    + " records"@,
            )
        } else {
            None
        },
        _ => None,
    }
}

/// The messages of a batch.
fn batch_records(records: &Vec<PublishBatchRecord>) -> (r: Vec<PublishRecord>)
    ensures
        r@.len() == records@.len(),
        forall|i: int| 0 <= i < r@.len() ==> is_record(#[trigger] r@[i], records@[i]),
{
    let mut copied: Vec<PublishRecord> = Vec::new();
    let n: usize = records.len();
    let mut i: usize = 0;
    while i < n
        invariant
            i <= n,
            n == records@.len(),
            copied@.len() == i,
            forall|j: int| 0 <= j < i ==> is_record(#[trigger] copied@[j], records@[j]),
        decreases n - i,
    {
        let record = &records[i];
        copied.push(
            PublishRecord {
                key: copy_optional(&record.key),
                payload: copy_bytes(&record.payload_base64),
                request_id: copy_optional(&record.request_id),
            },
        );
        i += 1;
    }
    copied
}

/// What the engine is asked for, or what is said of a request that it is not
/// asked for.
pub fn engine_call(request: &Request, max_batch_records: usize) -> (r: Result<
    EngineCall,
    Response,
>)
    ensures
        match batch_fault(*request, max_batch_records) {
            Some(text) => r matches Err(response) && is_error_response(
                response,
                "invalid_request"@,
                text,
            ),
            None => r matches Ok(call) && is_call(call, *request),
        },
{
    match request {
        Request::CreateStream { stream } => Ok(EngineCall::CreateStream { stream: stream.clone() }),
        Request::Publish { stream, key, payload, request_id } => {
            let mut bytes: Vec<u8> = Vec::new();
            append_bytes(&mut bytes, payload.as_str().as_bytes());
            proof {
                assert(bytes@ =~= encode_utf8(payload@));
            }
            Ok(
                EngineCall::Publish {
                    stream: stream.clone(),
                    key: copy_optional(key),
                    payload: bytes,
                    request_id: copy_optional(request_id),
                },
            )
        },
        Request::PublishBytes { stream, key, payload_base64, request_id } => Ok(
            EngineCall::Publish {
                stream: stream.clone(),
                key: copy_optional(key),
                payload: copy_bytes(payload_base64),
                request_id: copy_optional(request_id),
            },
        ),
        Request::PublishBatch { stream, records } => {
            if records.len() == 0 {
                return Err(
                    invalid_request_response("publish batch must contain at least one record"),
                );
            }
            if records.len() > max_batch_records {
                let message = join3(
                    "publish batch contains more than ",
                    decimal_text(max_batch_records as u64).as_str(),
                    " records",
                );
                return Err(invalid_request_response(message.as_str()));
            }
            Ok(EngineCall::PublishBatch { stream: stream.clone(), records: batch_records(records) })
        },
        Request::Poll { stream, consumer } => Ok(
            EngineCall::Poll { stream: stream.clone(), consumer: consumer.clone() },
        ),
        Request::Replay { stream, consumer, offset } => Ok(
            EngineCall::Replay {
                stream: stream.clone(),
                consumer: consumer.clone(),
                offset: *offset,
            },
        ),
        Request::PollGroup { stream, consumer, member } => Ok(
            EngineCall::PollGroup {
                stream: stream.clone(),
                consumer: consumer.clone(),
                member: member.clone(),
            },
        ),
        Request::Ack { stream, consumer, offset } => Ok(
            EngineCall::Ack { stream: stream.clone(), consumer: consumer.clone(), offset: *offset },
        ),
        Request::AckGroup { stream, consumer, member, offset, delivery_token } => Ok(
            EngineCall::AckGroup {
                stream: stream.clone(),
                consumer: consumer.clone(),
                member: member.clone(),
                offset: *offset,
                delivery_token: delivery_token.clone(),
            },
        ),
        Request::Health => Ok(EngineCall::Health),
    }
}

/// Whether an answer is one to what a request asks for.
pub open spec fn answers(answer: EngineAnswer, request: Request) -> bool {
    match request {
        Request::CreateStream { .. } => answer is CreateStream,
        Request::Publish { .. } => answer is Publish,
        Request::PublishBytes { .. } => answer is Publish,
        Request::PublishBatch { .. } => answer is PublishBatch,
        Request::Poll { .. } => answer is Poll,
        Request::Replay { .. } => answer is Replay,
        Request::PollGroup { .. } => answer is PollGroup,
        Request::Ack { .. } => answer is Ack,
        Request::AckGroup { .. } => answer is AckGroup,
        Request::Health => answer is Health,
    }
}

/// Calls `String::from_utf8`. Trusted: bytes that spell a text become that text,
/// and other bytes come back as they were.
#[verifier::external_body]
pub(crate) fn text_or_bytes(bytes: Vec<u8>) -> (r: Result<String, Vec<u8>>)
    ensures
        match r {
            Ok(text) => valid_utf8(bytes@) && text@ == decode_utf8(bytes@),
            Err(same) => !valid_utf8(bytes@) && same@ == bytes@,
        },
{
    match String::from_utf8(bytes) {
        Ok(text) => Ok(text),
        Err(error) => Err(error.into_bytes()),
    }
}

/// A response hands out a message that was delivered: as a text where its payload
/// spells one, and otherwise as bytes. A plain consumer is told no token.
pub open spec fn is_message_response(
    response: Response,
    message: Message,
    consumer: Seq<char>,
    member: Option<Seq<char>>,
) -> bool {
    let token = if member is Some {
        message.delivery_token.deep_view()
    } else {
        None
    };
    match response {
        Response::Message {
            stream: s,
            consumer: c,
            member: m,
            offset: o,
            key: k,
            payload: p,
            published_at_ms: at,
            delivery_token: t,
            delivery_attempt: a,
        } => {
            &&& valid_utf8(message.payload@)
            &&& p@ == decode_utf8(message.payload@)
            &&& s@ == message.stream@
            &&& c@ == consumer
            &&& m.deep_view() == member
            &&& o == message.offset
            &&& k.deep_view() == message.key.deep_view()
            &&& at == message.published_at_ms
            &&& t.deep_view() == token
            &&& a == message.delivery_attempt
        },
        Response::MessageBytes {
            stream: s,
            consumer: c,
            member: m,
            offset: o,
            key: k,
            payload_base64: p,
            published_at_ms: at,
            delivery_token: t,
            delivery_attempt: a,
        } => {
            &&& !valid_utf8(message.payload@)
            &&& p@ == message.payload@
            &&& s@ == message.stream@
            &&& c@ == consumer
            &&& m.deep_view() == member
            &&& o == message.offset
            &&& k.deep_view() == message.key.deep_view()
            &&& at == message.published_at_ms
            &&& t.deep_view() == token
            &&& a == message.delivery_attempt
        },
        _ => false,
    }
}

/// The response that hands out a message that was delivered.
pub fn message_response(message: Message, consumer: String, member: Option<String>) -> (r: Response)
    ensures
        is_message_response(r, message, consumer@, member.deep_view()),
{
    let delivery_token = if member.is_some() {
        message.delivery_token
    } else {
        None
    };
    match text_or_bytes(message.payload) {
        Ok(payload) => Response::Message {
            stream: message.stream,
            consumer,
            member,
            offset: message.offset,
            key: message.key,
            payload,
            published_at_ms: message.published_at_ms,
            delivery_token,
            delivery_attempt: message.delivery_attempt,
        },
        Err(payload_base64) => Response::MessageBytes {
            stream: message.stream,
            consumer,
            member,
            offset: message.offset,
            key: message.key,
            payload_base64,
            published_at_ms: message.published_at_ms,
            delivery_token,
            delivery_attempt: message.delivery_attempt,
        },
    }
}

/// A response hands out a message that was read again: as a text where its
/// payload spells one, and otherwise as bytes.
pub open spec fn is_replay_response(
    response: Response,
    message: ReplayMessage,
    consumer: Seq<char>,
) -> bool {
    match response {
        Response::ReplayMessage {
            stream: s,
            consumer: c,
            offset: o,
            key: k,
            payload: p,
            published_at_ms: at,
        } => {
            &&& valid_utf8(message.payload@)
            &&& p@ == decode_utf8(message.payload@)
            &&& s@ == message.stream@
            &&& c@ == consumer
            &&& o == message.offset
            &&& k.deep_view() == message.key.deep_view()
            &&& at == message.published_at_ms
        },
        Response::ReplayMessageBytes {
            stream: s,
            consumer: c,
            offset: o,
            key: k,
            payload_base64: p,
            published_at_ms: at,
        } => {
            &&& !valid_utf8(message.payload@)
            &&& p@ == message.payload@
            &&& s@ == message.stream@
            &&& c@ == consumer
            &&& o == message.offset
            &&& k.deep_view() == message.key.deep_view()
            &&& at == message.published_at_ms
        },
        _ => false,
    }
}

/// The response that hands out a message that was read again.
pub fn replay_message_response(message: ReplayMessage, consumer: String) -> (r: Response)
    ensures
        is_replay_response(r, message, consumer@),
{
    match text_or_bytes(message.payload) {
        Ok(payload) => Response::ReplayMessage {
            stream: message.stream,
            consumer,
            offset: message.offset,
            key: message.key,
            payload,
            published_at_ms: message.published_at_ms,
        },
        Err(payload_base64) => Response::ReplayMessageBytes {
            stream: message.stream,
            consumer,
            offset: message.offset,
            key: message.key,
            payload_base64,
            published_at_ms: message.published_at_ms,
        },
    }
}

/// The code by which clients tell an error.
pub open spec fn error_code(error: BrokerError) -> Seq<char> {
    match error {
        BrokerError::InvalidName { .. } => "invalid_name"@,
        BrokerError::StreamNotFound(_) => "stream_not_found"@,
        BrokerError::StreamNotReady(_) => "stream_not_ready"@,
        BrokerError::AckNotInFlight { .. } => "ack_not_in_flight"@,
        BrokerError::StaleDelivery { .. } => "stale_delivery"@,
        BrokerError::OutOfOrderAck { .. } => "out_of_order_ack"@,
        BrokerError::HistoryUnavailable { .. } => "history_unavailable"@,
        BrokerError::CorruptRecord(_) => "corrupt_record"@,
        BrokerError::Io(_) => "storage_error"@,
        BrokerError::State(_) => "consumer_state_error"@,
        BrokerError::LockPoisoned => "internal_error"@,
        BrokerError::Configuration(_) => "invalid_configuration"@,
        BrokerError::NotLeader { .. } => "cluster_error"@,
        BrokerError::Cluster(_) => "cluster_error"@,
    }
}

/// The code by which clients tell an error.
fn error_code_text(error: &BrokerError) -> (r: &'static str)
    ensures
        r@ == error_code(*error),
{
    match error {
        BrokerError::InvalidName { .. } => "invalid_name",
        BrokerError::StreamNotFound(_) => "stream_not_found",
        BrokerError::StreamNotReady(_) => "stream_not_ready",
        BrokerError::AckNotInFlight { .. } => "ack_not_in_flight",
        BrokerError::StaleDelivery { .. } => "stale_delivery",
        BrokerError::OutOfOrderAck { .. } => "out_of_order_ack",
        BrokerError::HistoryUnavailable { .. } => "history_unavailable",
        BrokerError::CorruptRecord(_) => "corrupt_record",
        BrokerError::Io(_) => "storage_error",
        BrokerError::State(_) => "consumer_state_error",
        BrokerError::LockPoisoned => "internal_error",
        BrokerError::Configuration(_) => "invalid_configuration",
        BrokerError::NotLeader { .. } => "cluster_error",
        BrokerError::Cluster(_) => "cluster_error",
    }
}

/// The response to a request that the engine could not do.
pub fn error_response(failure: EngineFailure) -> (r: Response)
    ensures
        is_error_response(r, error_code(failure.error), failure.text@),
{
    Response::Error {
        code: error_code_text(&failure.error).to_owned(),
        message: failure.text,
    }
}

/// The code of what went wrong with one message of a batch: a message that
/// storage does not take is an invalid record, anything else what it always is.
pub open spec fn record_error_code(error: BrokerError) -> Seq<char> {
    match error {
        BrokerError::Io(failure) => if failure.kind == IoKind::InvalidInput {
            "invalid_record"@
        } else {
            error_code(error)
        },
        _ => error_code(error),
    }
}

/// What came of one message of a batch.
pub open spec fn is_record_response(
    response: PublishBatchRecordResponse,
    outcome: Result<Offset, EngineFailure>,
) -> bool {
    match outcome {
        Ok(offset) => response == (PublishBatchRecordResponse::Published { offset }),
        Err(failure) => response matches PublishBatchRecordResponse::Error { code, message }
            && code@ == record_error_code(failure.error) && message@ == failure.text@,
    }
}

/// What went wrong with one message of a batch.
fn publish_batch_error_response(failure: EngineFailure) -> (r: PublishBatchRecordResponse)
    ensures
        is_record_response(r, Err(failure)),
{
    let code = match &failure.error {
        BrokerError::Io(io) => if io.kind == IoKind::InvalidInput {
            "invalid_record"
        } else {
            error_code_text(&failure.error)
        },
        _ => error_code_text(&failure.error),
    };
    PublishBatchRecordResponse::Error { code: code.to_owned(), message: failure.text }
}

/// One more message published.
pub open spec fn with_publish(m: MetricsView, payload_bytes: nat) -> MetricsView {
    MetricsView {
        publishes: m.publishes.wrapping_add(1),
        published_bytes: m.published_bytes.wrapping_add(payload_bytes as u64),
        ..m
    }
}

/// The messages of a batch that were published, counted.
pub open spec fn with_batch(
    m: MetricsView,
    records: Seq<PublishBatchRecord>,
    outcomes: Seq<Result<Offset, EngineFailure>>,
) -> MetricsView
    decreases outcomes.len(),
{
    if outcomes.len() == 0 {
        m
    } else {
        let before = with_batch(m, records, outcomes.drop_last());
        match outcomes.last() {
            Ok(_) => with_publish(before, records[outcomes.len() - 1].payload_base64@.len()),
            Err(_) => before,
        }
    }
}

/// Whether a batch was answered for each of its messages.
pub open spec fn batch_is_answered(request: Request, answer: EngineAnswer) -> bool {
    match (request, answer) {
        (Request::PublishBatch { records, .. }, EngineAnswer::PublishBatch(outcomes)) =>
            outcomes@.len() == records@.len(),
        _ => true,
    }
}

/// What is counted of an answer to a request.
pub open spec fn counted_answer(
    m: MetricsView,
    request: Request,
    answer: EngineAnswer,
) -> MetricsView {
    match (request, answer) {
        (Request::CreateStream { .. }, EngineAnswer::CreateStream(created)) => if created {
            MetricsView { stream_creations: m.stream_creations.wrapping_add(1), ..m }
        } else {
            m
        },
        (Request::Publish { payload, .. }, _) => with_publish(m, encode_utf8(payload@).len()),
        (Request::PublishBytes { payload_base64, .. }, _) => with_publish(
            m,
            payload_base64@.len(),
        ),
        (Request::PublishBatch { records, .. }, EngineAnswer::PublishBatch(outcomes)) =>
            with_batch(m, records@, outcomes@),
        (_, EngineAnswer::Poll(PollResult::Message(message))) => with_delivery(
            m,
            message.payload@.len(),
        ),
        (_, EngineAnswer::PollGroup(PollResult::Message(message))) => with_delivery(
            m,
            message.payload@.len(),
        ),
        (Request::Ack { .. }, _) | (Request::AckGroup { .. }, _) => MetricsView {
            acknowledgements: m.acknowledgements.wrapping_add(1),
            ..m
        },
        _ => m,
    }
}

/// A response tells a client what the engine answered to a request.
pub open spec fn is_response(response: Response, request: Request, answer: EngineAnswer) -> bool {
    match (request, answer) {
        (Request::CreateStream { stream }, EngineAnswer::CreateStream(created)) => response == (
        Response::StreamCreated { stream, created }),
        (Request::Publish { stream, .. }, EngineAnswer::Publish(offset)) => response == (
        Response::Published { stream, offset }),
        (Request::PublishBytes { stream, .. }, EngineAnswer::Publish(offset)) => response == (
        Response::Published { stream, offset }),
        (Request::PublishBatch { stream, records }, EngineAnswer::PublishBatch(outcomes)) =>
            response matches Response::PublishBatch { stream: s, outcomes: o } && s == stream
                && o@.len() == outcomes@.len() && forall|i: int|
                0 <= i < o@.len() ==> is_record_response(#[trigger] o@[i], outcomes@[i]),
        (Request::Poll { stream, consumer }, EngineAnswer::Poll(result)) => match result {
            PollResult::Message(message) => is_message_response(
                response,
                message,
                consumer@,
                None,
            ),
            PollResult::Empty => response == (Response::Empty { stream, consumer }),
        },
        (Request::PollGroup { stream, consumer, member }, EngineAnswer::PollGroup(result)) =>
            match result {
            PollResult::Message(message) => is_message_response(
                response,
                message,
                consumer@,
                Some(member@),
            ),
            PollResult::Empty => response == (Response::Empty { stream, consumer }),
        },
        (Request::Replay { consumer, .. }, EngineAnswer::Replay(message)) => is_replay_response(
            response,
            message,
            consumer@,
        ),
        (Request::Ack { stream, consumer, offset }, EngineAnswer::Ack(result)) => response == (
        Response::Acknowledged {
            stream,
            consumer,
            offset,
            already_acknowledged: result == AckResult::AlreadyAcknowledged,
        }),
        (
            Request::AckGroup { stream, consumer, offset, .. },
            EngineAnswer::AckGroup(result),
        ) => response == (Response::Acknowledged {
            stream,
            consumer,
            offset,
            already_acknowledged: result == AckResult::AlreadyAcknowledged,
        }),
        (Request::Health, EngineAnswer::Health(health)) => {
            response matches Response::Health { status, streams, storage_bytes } && status@ == "ok"@
                && streams == health.streams && storage_bytes == health.storage_bytes
        },
        _ => false,
    }
}

/// Tells what came of the messages of a batch, and counts those that were
/// published.
fn batch_outcomes(
    records: &Vec<PublishBatchRecord>,
    outcomes: Vec<Result<Offset, EngineFailure>>,
    metrics: &mut ServerMetrics,
) -> (r: Vec<PublishBatchRecordResponse>)
    requires
        outcomes@.len() == records@.len(),
    ensures
        r@.len() == outcomes@.len(),
        forall|i: int| 0 <= i < r@.len() ==> is_record_response(#[trigger] r@[i], outcomes@[i]),
        final(metrics)@ == with_batch(old(metrics)@, records@, outcomes@),
{
    let ghost all = outcomes@;
    let ghost start = metrics@;
    let mut told: Vec<PublishBatchRecordResponse> = Vec::new();
    let n: usize = records.len();
    let mut i: usize = 0;
    for outcome in it: outcomes
        invariant
            it.seq() == all,
            all.len() == records@.len(),
            n == records@.len(),
            i == it.index(),
            told@.len() == i,
            forall|j: int| 0 <= j < i ==> is_record_response(#[trigger] told@[j], all[j]),
            metrics@ == with_batch(start, records@, all.take(i as int)),
    {
        proof {
            assert(outcome == all[i as int]);
            assert(all.take(i + 1).drop_last() =~= all.take(i as int));
        }
        match outcome {
            Ok(offset) => {
                let payload_bytes: u64 = records[i].payload_base64.len() as u64;
                metrics.publishes = metrics.publishes.wrapping_add(1);
                metrics.published_bytes = metrics.published_bytes.wrapping_add(payload_bytes);
                told.push(PublishBatchRecordResponse::Published { offset });
            },
            Err(failure) => {
                told.push(publish_batch_error_response(failure));
            },
        }
        i += 1;
    }
    proof {
        assert(all.take(all.len() as int) =~= all);
    }
    told
}

/// What a client is told of what the engine answered to its request, or could
/// not answer, and what is counted of that. Of what the engine could not answer
/// nothing is counted here. A batch that was not answered for each of its messages
/// is an error of the engine's, of which the client is told as of any other.
pub fn respond(
    request: Request,
    answer: Result<EngineAnswer, EngineFailure>,
    metrics: &mut ServerMetrics,
) -> (r: Result<Response, BrokerError>)
    requires
        answer matches Ok(answer) ==> answers(answer, request),
    ensures
        match answer {
            Err(failure) => {
                &&& r matches Ok(response) && is_error_response(
                    response,
                    error_code(failure.error),
                    failure.text@,
                )
                &&& final(metrics)@ == old(metrics)@
            },
            Ok(answer) => if batch_is_answered(request, answer) {
                &&& r matches Ok(response) && is_response(response, request, answer)
                &&& final(metrics)@ == counted_answer(old(metrics)@, request, answer)
            } else {
                &&& r is Err && is_cluster_error(
                    r->Err_0,
                    "publish batch returned the wrong number of outcomes"@,
                )
                &&& final(metrics)@ == old(metrics)@
            },
        },
{
    let answer = match answer {
        Err(failure) => {
            return Ok(error_response(failure));
        },
        Ok(answer) => answer,
    };
    let response = match (request, answer) {
        (Request::CreateStream { stream }, EngineAnswer::CreateStream(created)) => {
            if created {
                metrics.stream_creations = metrics.stream_creations.wrapping_add(1);
            }
            Response::StreamCreated { stream, created }
        },
        (Request::Publish { stream, payload, .. }, EngineAnswer::Publish(offset)) => {
            metrics.publishes = metrics.publishes.wrapping_add(1);
            metrics.published_bytes = metrics.published_bytes.wrapping_add(
                payload.as_str().as_bytes().len() as u64,
            );
            Response::Published { stream, offset }
        },
        (Request::PublishBytes { stream, payload_base64, .. }, EngineAnswer::Publish(offset)) => {
            metrics.publishes = metrics.publishes.wrapping_add(1);
            metrics.published_bytes = metrics.published_bytes.wrapping_add(
                payload_base64.len() as u64,
            );
            Response::Published { stream, offset }
        },
        (Request::PublishBatch { stream, records }, EngineAnswer::PublishBatch(outcomes)) => {
            if outcomes.len() != records.len() {
                return Err(
                    BrokerError::Cluster(
                        "publish batch returned the wrong number of outcomes".to_owned(),
                    ),
                );
            }
            let outcomes = batch_outcomes(&records, outcomes, metrics);
            Response::PublishBatch { stream, outcomes }
        },
        (Request::Poll { stream, consumer }, EngineAnswer::Poll(result)) => {
            metrics.record_delivery(&result);
            match result {
                PollResult::Message(message) => message_response(message, consumer, None),
                PollResult::Empty => Response::Empty { stream, consumer },
            }
        },
        (Request::Replay { consumer, .. }, EngineAnswer::Replay(message)) => {
            replay_message_response(message, consumer)
        },
        (Request::PollGroup { stream, consumer, member }, EngineAnswer::PollGroup(result)) => {
            metrics.record_delivery(&result);
            match result {
                PollResult::Message(message) => message_response(message, consumer, Some(member)),
                PollResult::Empty => Response::Empty { stream, consumer },
            }
        },
        (Request::Ack { stream, consumer, offset }, EngineAnswer::Ack(result)) => {
            metrics.acknowledgements = metrics.acknowledgements.wrapping_add(1);
            Response::Acknowledged {
                stream,
                consumer,
                offset,
                already_acknowledged: result == AckResult::AlreadyAcknowledged,
            }
        },
        (Request::AckGroup { stream, consumer, offset, .. }, EngineAnswer::AckGroup(result)) => {
            metrics.acknowledgements = metrics.acknowledgements.wrapping_add(1);
            Response::Acknowledged {
                stream,
                consumer,
                offset,
                already_acknowledged: result == AckResult::AlreadyAcknowledged,
            }
        },
        (Request::Health, EngineAnswer::Health(health)) => Response::Health {
            status: "ok".to_owned(),
            streams: health.streams,
            storage_bytes: health.storage_bytes,
        },
        _ => unreached(),
    };
    Ok(response)
}

/// What a client publishes it is handed again: a text comes back as that text, and bytes
/// as those bytes, or as the text that they spell, with the key, the place and the time
/// of the message. A member is told its token and a plain consumer is not.
pub proof fn law_payloads_come_back(
    text: Request,
    bytes: Request,
    text_call: EngineCall,
    bytes_call: EngineCall,
    text_message: Message,
    bytes_message: Message,
    consumer: Seq<char>,
    member: Option<Seq<char>>,
    text_response: Response,
    bytes_response: Response,
)
    requires
        text is Publish,
        bytes is PublishBytes,
        is_call(text_call, text),
        is_call(bytes_call, bytes),
        text_message.payload@ == text_call->Publish_payload@,
        bytes_message.payload@ == bytes_call->Publish_payload@,
        is_message_response(text_response, text_message, consumer, member),
        is_message_response(bytes_response, bytes_message, consumer, member),
    ensures
        ({
            &&& text_response is Message
            &&& text_response->Message_payload@ == text->payload@
            &&& text_response->Message_offset == text_message.offset
            &&& text_response->Message_stream@ == text_message.stream@
            &&& text_response->Message_consumer@ == consumer
            &&& text_response->Message_member.deep_view() == member
            &&& text_response->Message_key.deep_view() == text_message.key.deep_view()
            &&& text_response->Message_published_at_ms == text_message.published_at_ms
            &&& text_response->Message_delivery_attempt == text_message.delivery_attempt
            &&& member is Some ==> text_response->Message_delivery_token.deep_view()
                == text_message.delivery_token.deep_view()
            &&& member is None ==> text_response->Message_delivery_token is None
        }),
        ({
            &&& bytes_response is MessageBytes <==> !valid_utf8(bytes->payload_base64@)
            &&& bytes_response is Message <==> valid_utf8(bytes->payload_base64@)
            &&& bytes_response is MessageBytes ==> {
                &&& bytes_response->MessageBytes_payload_base64@ == bytes->payload_base64@
                &&& bytes_response->MessageBytes_offset == bytes_message.offset
                &&& bytes_response->MessageBytes_stream@ == bytes_message.stream@
                &&& bytes_response->MessageBytes_consumer@ == consumer
                &&& bytes_response->MessageBytes_member.deep_view() == member
                &&& bytes_response->MessageBytes_key.deep_view() == bytes_message.key.deep_view()
                &&& bytes_response->MessageBytes_published_at_ms == bytes_message.published_at_ms
                &&& bytes_response->MessageBytes_delivery_attempt
                    == bytes_message.delivery_attempt
                &&& member is Some ==> bytes_response->MessageBytes_delivery_token.deep_view()
                    == bytes_message.delivery_token.deep_view()
                &&& member is None ==> bytes_response->MessageBytes_delivery_token is None
            }
            &&& bytes_response is Message ==> encode_utf8(bytes_response->Message_payload@)
                == bytes->payload_base64@
        }),
{
    encode_utf8_valid_utf8(text->payload@);
    encode_utf8_decode_utf8(text->payload@);
    if valid_utf8(bytes->payload_base64@) {
        decode_utf8_encode_utf8(bytes->payload_base64@);
    }
}

/// The engine is asked for what a client asks for, with all that the client gave; and a
/// batch is turned down only if it is empty or has more messages than it may.
pub proof fn law_the_engine_is_asked_what_clients_ask(
    request: Request,
    most: usize,
    asked: Result<EngineCall, Response>,
)
    requires
        call_ensures(engine_call, (&request, most), asked),
    ensures
        asked is Err <==> request is PublishBatch && (request->records@.len() == 0
            || request->records@.len() > most),
        asked matches Err(response) ==> response is Error && response->code@ == "invalid_request"@,
        asked matches Ok(call) ==> match request {
            Request::CreateStream { stream } => call is CreateStream && call->CreateStream_stream@
                == stream@,
            Request::Publish { stream, key, payload, request_id } => {
                &&& call is Publish
                &&& call->Publish_stream@ == stream@
                &&& call->Publish_key.deep_view() == key.deep_view()
                &&& call->Publish_request_id.deep_view() == request_id.deep_view()
                &&& call->Publish_payload@ == encode_utf8(payload@)
            },
            Request::PublishBytes { stream, key, payload_base64, request_id } => {
                &&& call is Publish
                &&& call->Publish_stream@ == stream@
                &&& call->Publish_key.deep_view() == key.deep_view()
                &&& call->Publish_request_id.deep_view() == request_id.deep_view()
                &&& call->Publish_payload@ == payload_base64@
            },
            Request::PublishBatch { stream, records } => {
                &&& call is PublishBatch
                &&& call->PublishBatch_stream@ == stream@
                &&& call->records@.len() == records@.len()
                &&& forall|i: int|
                    #![trigger call->records@[i]]
                    0 <= i < records@.len() ==> {
                        &&& call->records@[i].payload@ == records@[i].payload_base64@
                        &&& call->records@[i].key.deep_view() == records@[i].key.deep_view()
                        &&& call->records@[i].request_id.deep_view()
                            == records@[i].request_id.deep_view()
                    }
            },
            Request::Poll { stream, consumer } => {
                &&& call is Poll
                &&& call->Poll_stream@ == stream@
                &&& call->Poll_consumer@ == consumer@
            },
            Request::Replay { stream, consumer, offset } => {
                &&& call is Replay
                &&& call->Replay_stream@ == stream@
                &&& call->Replay_consumer@ == consumer@
                &&& call->Replay_offset == offset
            },
            Request::PollGroup { stream, consumer, member } => {
                &&& call is PollGroup
                &&& call->PollGroup_stream@ == stream@
                &&& call->PollGroup_consumer@ == consumer@
                &&& call->PollGroup_member@ == member@
            },
            Request::Ack { stream, consumer, offset } => {
                &&& call is Ack
                &&& call->Ack_stream@ == stream@
                &&& call->Ack_consumer@ == consumer@
                &&& call->Ack_offset == offset
            },
            Request::AckGroup { stream, consumer, member, offset, delivery_token } => {
                &&& call is AckGroup
                &&& call->AckGroup_stream@ == stream@
                &&& call->AckGroup_consumer@ == consumer@
                &&& call->AckGroup_member@ == member@
                &&& call->AckGroup_offset == offset
                &&& call->AckGroup_delivery_token@ == delivery_token@
            },
            Request::Health => call is Health,
        },
{
    if request is PublishBatch && asked is Ok {
        let call = asked->Ok_0;
        assert forall|i: int| #![trigger call->records@[i]] 0 <= i < request->records@.len() implies {
            &&& call->records@[i].payload@ == request->records@[i].payload_base64@
            &&& call->records@[i].key.deep_view() == request->records@[i].key.deep_view()
            &&& call->records@[i].request_id.deep_view()
                == request->records@[i].request_id.deep_view()
        } by {
            assert(is_record(call->records@[i], request->records@[i]));
        }
    }
}

/// Clients are told what came of what they asked: where a message was published, what a
/// batch came to message by message, that there is nothing to hand out only if there was
/// nothing, whether an acknowledgement was one already, and the condition of the broker.
pub proof fn law_clients_are_told_what_came_of_it(
    request: Request,
    answer: EngineAnswer,
    response: Response,
)
    requires
        answers(answer, request),
        batch_is_answered(request, answer),
        is_response(response, request, answer),
    ensures
        answer matches EngineAnswer::CreateStream(made) ==> response is StreamCreated
            && response->created == made && response->StreamCreated_stream
            == request->CreateStream_stream,
        answer matches EngineAnswer::Publish(place) ==> response is Published
            && response->Published_offset == place,
        request is Publish ==> response->Published_stream == request->Publish_stream,
        request is PublishBytes ==> response->Published_stream == request->PublishBytes_stream,
        answer matches EngineAnswer::PublishBatch(outcomes) ==> {
            &&& response is PublishBatch
            &&& response->PublishBatch_stream == request->PublishBatch_stream
            &&& response->outcomes@.len() == request->records@.len()
            &&& forall|i: int|
                #![trigger outcomes@[i]]
                0 <= i < outcomes@.len() ==> match outcomes@[i] {
                    Ok(place) => response->outcomes@[i] == (PublishBatchRecordResponse::Published {
                        offset: place,
                    }),
                    Err(failure) => response->outcomes@[i] is Error
                        && response->outcomes@[i]->message@ == failure.text@,
                }
        },
        answer matches EngineAnswer::Poll(result) ==> {
            &&& response is Empty <==> result is Empty
            &&& result matches PollResult::Message(message) ==> (response is Message
                || response is MessageBytes)
        },
        answer matches EngineAnswer::PollGroup(result) ==> {
            &&& response is Empty <==> result is Empty
            &&& result matches PollResult::Message(message) ==> (response is Message
                || response is MessageBytes)
        },
        response is Message ==> response->Message_offset == handed(answer)->0.offset
            && encode_utf8(response->Message_payload@) == handed(answer)->0.payload@
            && response->Message_key.deep_view() == handed(answer)->0.key.deep_view()
            && response->Message_published_at_ms == handed(answer)->0.published_at_ms
            && response->Message_delivery_attempt == handed(answer)->0.delivery_attempt,
        request is PollGroup && response is Message ==> response->Message_delivery_token.deep_view()
            == handed(answer)->0.delivery_token.deep_view()
            && response->Message_member.deep_view() == Some(request->PollGroup_member@)
            && response->Message_consumer@ == request->PollGroup_consumer@,
        request is Poll && response is Message ==> response->Message_delivery_token is None
            && response->Message_member is None && response->Message_consumer@
            == request->Poll_consumer@,
        answer matches EngineAnswer::Replay(message) ==> {
            &&& response is ReplayMessage || response is ReplayMessageBytes
            &&& response is ReplayMessage ==> {
                &&& encode_utf8(response->ReplayMessage_payload@) == message.payload@
                &&& response->ReplayMessage_offset == message.offset
                &&& response->ReplayMessage_stream@ == message.stream@
                &&& response->ReplayMessage_consumer@ == request->Replay_consumer@
                &&& response->ReplayMessage_key.deep_view() == message.key.deep_view()
                &&& response->ReplayMessage_published_at_ms == message.published_at_ms
            }
            &&& response is ReplayMessageBytes ==> {
                &&& response->ReplayMessageBytes_payload_base64@ == message.payload@
                &&& response->ReplayMessageBytes_offset == message.offset
                &&& response->ReplayMessageBytes_stream@ == message.stream@
                &&& response->ReplayMessageBytes_consumer@ == request->Replay_consumer@
                &&& response->ReplayMessageBytes_key.deep_view() == message.key.deep_view()
                &&& response->ReplayMessageBytes_published_at_ms == message.published_at_ms
            }
        },
        answer matches EngineAnswer::Ack(result) ==> {
            &&& response is Acknowledged
            &&& response->already_acknowledged <==> result != AckResult::Acknowledged
            &&& response->Acknowledged_offset == request->Ack_offset
            &&& response->Acknowledged_stream == request->Ack_stream
            &&& response->Acknowledged_consumer == request->Ack_consumer
        },
        answer matches EngineAnswer::AckGroup(result) ==> {
            &&& response is Acknowledged
            &&& response->already_acknowledged <==> result != AckResult::Acknowledged
            &&& response->Acknowledged_offset == request->AckGroup_offset
            &&& response->Acknowledged_stream == request->AckGroup_stream
            &&& response->Acknowledged_consumer == request->AckGroup_consumer
        },
        answer matches EngineAnswer::Health(health) ==> {
            &&& response is Health
            &&& response->status@ == "ok"@
            &&& response->streams == health.streams
            &&& response->storage_bytes == health.storage_bytes
        },
{
    if let EngineAnswer::PublishBatch(outcomes) = answer {
        assert forall|i: int|
            #![trigger outcomes@[i]]
            0 <= i < outcomes@.len() implies match outcomes@[i] {
            Ok(place) => response->outcomes@[i] == (PublishBatchRecordResponse::Published {
                offset: place,
            }),
            Err(failure) => response->outcomes@[i] is Error && response->outcomes@[i]->message@
                == failure.text@,
        } by {
            assert(is_record_response(response->outcomes@[i], outcomes@[i]));
        }
    }
    if response is Message {
        decode_utf8_encode_utf8(handed(answer)->0.payload@);
    }
    if response is ReplayMessage {
        decode_utf8_encode_utf8(answer->Replay_0.payload@);
    }
}

/// The message that an answer hands out.
pub open spec fn handed(answer: EngineAnswer) -> Option<Message> {
    match answer {
        EngineAnswer::Poll(PollResult::Message(message)) => Some(message),
        EngineAnswer::PollGroup(PollResult::Message(message)) => Some(message),
        _ => None,
    }
}

/// Clients tell errors apart by their codes. What a client can mend has a code of its
/// own, which no other error has; what is wrong with the cluster has one; and a message
/// of a batch that storage does not take is an invalid record.
pub proof fn law_errors_are_told_apart(a: BrokerError)
    ensures
        error_code(a) == "invalid_name"@ <==> a is InvalidName,
        error_code(a) == "stream_not_found"@ <==> a is StreamNotFound,
        error_code(a) == "stream_not_ready"@ <==> a is StreamNotReady,
        error_code(a) == "ack_not_in_flight"@ <==> a is AckNotInFlight,
        error_code(a) == "stale_delivery"@ <==> a is StaleDelivery,
        error_code(a) == "out_of_order_ack"@ <==> a is OutOfOrderAck,
        error_code(a) == "history_unavailable"@ <==> a is HistoryUnavailable,
        error_code(a) == "corrupt_record"@ <==> a is CorruptRecord,
        error_code(a) == "storage_error"@ <==> a is Io,
        error_code(a) == "consumer_state_error"@ <==> a is State,
        error_code(a) == "internal_error"@ <==> a is LockPoisoned,
        error_code(a) == "invalid_configuration"@ <==> a is Configuration,
        error_code(a) == "cluster_error"@ <==> a is NotLeader || a is Cluster,
        record_error_code(a) == "invalid_record"@ <==> (a is Io && a->Io_0.kind
            == IoKind::InvalidInput),
        !(a is Io) ==> record_error_code(a) == error_code(a),
        a is Io && a->Io_0.kind != IoKind::InvalidInput ==> record_error_code(a)
            == "storage_error"@,
{
    reveal_strlit("invalid_name");
    reveal_strlit("stream_not_found");
    reveal_strlit("stream_not_ready");
    reveal_strlit("ack_not_in_flight");
    reveal_strlit("stale_delivery");
    reveal_strlit("out_of_order_ack");
    reveal_strlit("history_unavailable");
    reveal_strlit("corrupt_record");
    reveal_strlit("storage_error");
    reveal_strlit("consumer_state_error");
    reveal_strlit("internal_error");
    reveal_strlit("invalid_configuration");
    reveal_strlit("cluster_error");
    reveal_strlit("invalid_record");
    assert("invalid_name"@.len() == 12);
    assert("stream_not_found"@.len() == 16);
    assert("stream_not_ready"@.len() == 16);
    assert("ack_not_in_flight"@.len() == 17);
    assert("stale_delivery"@.len() == 14);
    assert("out_of_order_ack"@.len() == 16);
    assert("history_unavailable"@.len() == 19);
    assert("corrupt_record"@.len() == 14);
    assert("storage_error"@.len() == 13);
    assert("consumer_state_error"@.len() == 20);
    assert("internal_error"@.len() == 14);
    assert("invalid_configuration"@.len() == 21);
    assert("cluster_error"@.len() == 13);
    assert("invalid_record"@.len() == 14);
    assert("stream_not_found"@[11] == 'f' && "stream_not_ready"@[11] == 'r');
    assert("stream_not_found"@[0] == 's' && "stream_not_ready"@[0] == 's');
    assert("out_of_order_ack"@[0] == 'o');
    assert("stale_delivery"@[0] == 's' && "corrupt_record"@[0] == 'c');
    assert("internal_error"@[0] == 'i' && "internal_error"@[2] == 't');
    assert("invalid_record"@[0] == 'i' && "invalid_record"@[2] == 'v');
    assert("storage_error"@[0] == 's' && "cluster_error"@[0] == 'c');
}

/// What is counted of an answer. A message that was published counts once, with the bytes
/// of its payload; so does each of a batch that was, and none that was not. One that was
/// handed out counts as delivered; an acknowledgement counts whether it was one already
/// or not; a stream counts if it was made.
pub proof fn law_what_happened_is_counted(
    m: MetricsView,
    request: Request,
    answer: EngineAnswer,
    records: Seq<PublishBatchRecord>,
    outcomes: Seq<Result<Offset, EngineFailure>>,
    outcome: Result<Offset, EngineFailure>,
)
    requires
        answers(answer, request),
    ensures
        ({
            let after = counted_answer(m, request, answer);
            &&& answer matches EngineAnswer::CreateStream(made) ==> after.stream_creations == if made {
                m.stream_creations.wrapping_add(1)
            } else {
                m.stream_creations
            }
            &&& answer is Publish ==> after.publishes == m.publishes.wrapping_add(1)
            &&& request is Publish ==> after.published_bytes == m.published_bytes.wrapping_add(
                encode_utf8(request->payload@).len() as u64,
            )
            &&& request is PublishBytes ==> after.published_bytes
                == m.published_bytes.wrapping_add(request->payload_base64@.len() as u64)
            &&& !(answer is Publish || answer is PublishBatch) ==> after.publishes == m.publishes
                && after.published_bytes == m.published_bytes
            &&& answer is Ack || answer is AckGroup <==> after.acknowledgements
                == m.acknowledgements.wrapping_add(1)
            &&& handed(answer) is Some ==> after.deliveries == m.deliveries.wrapping_add(1)
                && after.delivered_bytes == m.delivered_bytes.wrapping_add(
                handed(answer)->0.payload@.len() as u64,
            )
            &&& handed(answer) is None ==> after.deliveries == m.deliveries
                && after.delivered_bytes == m.delivered_bytes
        }),
        with_batch(m, records, Seq::empty()) == m,
        ({
            let before = with_batch(m, records, outcomes);
            let after = with_batch(m, records, outcomes.push(outcome));
            let bytes = records[outcomes.len() as int].payload_base64@.len() as u64;
            &&& outcome is Err ==> after == before
            &&& outcome is Ok ==> after.publishes == before.publishes.wrapping_add(1)
                && after.published_bytes == before.published_bytes.wrapping_add(bytes)
        }),
{
    assert(outcomes.push(outcome).drop_last() =~= outcomes);
    if let (Request::PublishBatch { records, .. }, EngineAnswer::PublishBatch(outcomes)) = (
        request,
        answer,
    ) {
        lemma_batch_counts_publications_only(m, records@, outcomes@);
    }
}

/// A batch counts as publications and as nothing else.
proof fn lemma_batch_counts_publications_only(
    m: MetricsView,
    records: Seq<PublishBatchRecord>,
    outcomes: Seq<Result<Offset, EngineFailure>>,
)
    ensures
        ({
            let after = with_batch(m, records, outcomes);
            after == (MetricsView {
                publishes: after.publishes,
                published_bytes: after.published_bytes,
                ..m
            })
        }),
    decreases outcomes.len(),
{
    if outcomes.len() > 0 {
        lemma_batch_counts_publications_only(m, records, outcomes.drop_last());
    }
}

} // verus!
