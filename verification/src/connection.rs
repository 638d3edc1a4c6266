//! What is done with a client's connection, from one line to the next.

use vstd::prelude::*;
use vstd::utf8::*;

use crate::dispatch::text_or_bytes;
use crate::engine::{IoFailure, IoKind};
use crate::observability::{
    operation_of, with_rejected_request, with_request, MetricsView, RequestOperation,
    ServerMetrics,
};
use crate::protocol::{
    invalid_request_response, is_error_response, left_of, request_size_response, request_size_text,
    response_write_timeout, saturated_response, timeout_response, Frame, ProtocolAdmission,
    Request, Response, NEWLINE,
};
use crate::wire::append_bytes;

verus! {

/// What came of waiting for a line.
#[derive(Debug)]
pub enum FrameOutcome {
    TimedOut,
    Read(Frame),
}

/// A response that is to be sent, how long it may take to be written, in
/// nanoseconds, and whether the connection is closed after it.
#[derive(Debug)]
pub struct Reply {
    pub response: Response,
    pub write_timeout_nanos: u128,
    pub close: bool,
}

/// What is done with what came of waiting for a line.
#[derive(Debug)]
pub enum FrameAction {
    Close,
    Send(Reply),
    Decode { bytes: Vec<u8> },
}

/// A reply is an error that may take as long to be written as a request may take.
pub open spec fn is_error_reply(
    reply: Reply,
    code: Seq<char>,
    message: Seq<char>,
    admission: ProtocolAdmission,
    close: bool,
) -> bool {
    &&& is_error_response(reply.response, code, message)
    &&& reply.write_timeout_nanos == admission.request_timeout_nanos
    &&& reply.close == close
}

/// Some more bytes of requests.
pub open spec fn with_request_bytes(m: MetricsView, n: nat) -> MetricsView {
    MetricsView { request_bytes: m.request_bytes.wrapping_add(n as u64), ..m }
}

/// An error, ready to be sent.
fn error_reply(response: Response, admission: &ProtocolAdmission, close: bool) -> (r: Reply)
    requires
        response is Error,
    ensures
        r == (Reply {
            response,
            write_timeout_nanos: admission.request_timeout_nanos,
            close,
        }),
{
    let write_timeout_nanos: u128 = response_write_timeout(
        0,
        admission.request_timeout_nanos,
        &response,
    );
    Reply { response, write_timeout_nanos, close }
}

/// Does what is to be done with what came of waiting for a line: a line is
/// decoded, a client that is done is let go, and any other is told what is wrong
/// and let go. `elapsed_nanos` is how long ago the line began.
pub fn on_frame(
    metrics: &mut ServerMetrics,
    admission: &ProtocolAdmission,
    outcome: FrameOutcome,
    elapsed_nanos: u128,
) -> (r: FrameAction)
    ensures
        match outcome {
            FrameOutcome::TimedOut => {
                &&& r matches FrameAction::Send(reply) && is_error_reply(
                    reply,
                    "request_timeout"@,
                    "request exceeded the configured timeout"@,
                    *admission,
                    true,
                )
                &&& final(metrics)@ == with_rejected_request(
                    MetricsView {
                        request_timeouts: old(metrics)@.request_timeouts.wrapping_add(1),
                        ..old(metrics)@
                    },
                    RequestOperation::InvalidRequest,
                    elapsed_nanos,
                )
            },
            FrameOutcome::Read(Frame::End) => r is Close && final(metrics)@ == old(metrics)@,
            FrameOutcome::Read(Frame::TooLarge { bytes }) => {
                &&& r matches FrameAction::Send(reply) && is_error_reply(
                    reply,
                    "request_too_large"@,
                    request_size_text(admission.max_request_bytes),
                    *admission,
                    true,
                )
                &&& final(metrics)@ == with_rejected_request(
                    MetricsView {
                        request_size_rejections: old(
                            metrics,
                        )@.request_size_rejections.wrapping_add(1),
                        ..with_request_bytes(old(metrics)@, bytes@.len())
                    },
                    RequestOperation::InvalidRequest,
                    elapsed_nanos,
                )
            },
            FrameOutcome::Read(Frame::Unterminated { bytes }) => {
                &&& r matches FrameAction::Send(reply) && is_error_reply(
                    reply,
                    "invalid_request"@,
                    "request frame must end with a newline"@,
                    *admission,
                    true,
                )
                &&& final(metrics)@ == with_rejected_request(
                    with_request_bytes(old(metrics)@, bytes@.len()),
                    RequestOperation::InvalidRequest,
                    elapsed_nanos,
                )
            },
            FrameOutcome::Read(Frame::Complete { bytes }) => {
                &&& r == (FrameAction::Decode { bytes })
                &&& final(metrics)@ == with_request_bytes(old(metrics)@, bytes@.len())
            },
        },
{
    match outcome {
        FrameOutcome::TimedOut => {
            metrics.request_timeouts = metrics.request_timeouts.wrapping_add(1);
            metrics.record_rejected_request(RequestOperation::InvalidRequest, elapsed_nanos);
            FrameAction::Send(error_reply(timeout_response(), admission, true))
        },
        FrameOutcome::Read(Frame::End) => FrameAction::Close,
        FrameOutcome::Read(Frame::TooLarge { bytes }) => {
            metrics.request_bytes = metrics.request_bytes.wrapping_add(bytes.len() as u64);
            metrics.request_size_rejections = metrics.request_size_rejections.wrapping_add(1);
            metrics.record_rejected_request(RequestOperation::InvalidRequest, elapsed_nanos);
            let response = request_size_response(admission.max_request_bytes);
            FrameAction::Send(error_reply(response, admission, true))
        },
        FrameOutcome::Read(Frame::Unterminated { bytes }) => {
            metrics.request_bytes = metrics.request_bytes.wrapping_add(bytes.len() as u64);
            metrics.record_rejected_request(RequestOperation::InvalidRequest, elapsed_nanos);
            let response = invalid_request_response("request frame must end with a newline");
            FrameAction::Send(error_reply(response, admission, true))
        },
        FrameOutcome::Read(Frame::Complete { bytes }) => {
            metrics.request_bytes = metrics.request_bytes.wrapping_add(bytes.len() as u64);
            FrameAction::Decode { bytes }
        },
    }
}

/// What is done with what came of decoding a line.
#[derive(Debug)]
pub enum DecodeAction {
    /// The request is worked on, if there is room for it.
    Admit { operation: RequestOperation, request: Request },
    Send(Reply),
    /// The connection fails.
    Fail(IoFailure),
}

/// Does what is to be done with what came of decoding a line: a request is let
/// in, and of a line that holds none the client is told what is wrong with it and
/// may send another. A line that does not even spell a text ends the connection.
/// Where the line holds no request, `decoded` says why not.
pub fn on_decoded(
    metrics: &mut ServerMetrics,
    admission: &ProtocolAdmission,
    line: &[u8],
    decoded: Result<Request, String>,
    elapsed_nanos: u128,
) -> (r: DecodeAction)
    ensures
        match decoded {
            Ok(request) => {
                &&& r == (DecodeAction::Admit { operation: operation_of(request), request })
                &&& final(metrics)@ == old(metrics)@
            },
            Err(reason) => {
                &&& final(metrics)@ == with_rejected_request(
                    old(metrics)@,
                    RequestOperation::InvalidRequest,
                    elapsed_nanos,
                )
                &&& if valid_utf8(line@) {
                    r matches DecodeAction::Send(reply) && is_error_reply(
                        reply,
                        "invalid_request"@,
                        reason@,
                        *admission,
                        false,
                    )
                } else {
                    r matches DecodeAction::Fail(failure) && failure.kind == IoKind::InvalidData
                        && failure.message@ == "request frame was not valid UTF-8"@
                }
            },
        },
{
    match decoded {
        Ok(request) => DecodeAction::Admit {
            operation: RequestOperation::from_request(&request),
            request,
        },
        Err(reason) => {
            metrics.record_rejected_request(RequestOperation::InvalidRequest, elapsed_nanos);
            let mut bytes: Vec<u8> = Vec::new();
            append_bytes(&mut bytes, line);
            proof {
                assert(bytes@ =~= line@);
            }
            match text_or_bytes(bytes) {
                Ok(_) => {
                    let response = invalid_request_response(reason.as_str());
                    DecodeAction::Send(error_reply(response, admission, false))
                },
                Err(_) => DecodeAction::Fail(
                    IoFailure {
                        kind: IoKind::InvalidData,
                        message: "request frame was not valid UTF-8".to_owned(),
                    },
                ),
            }
        },
    }
}

/// What is told to a client for whose request there is no room. It may try again.
pub fn on_saturated(
    metrics: &mut ServerMetrics,
    admission: &ProtocolAdmission,
    operation: RequestOperation,
    elapsed_nanos: u128,
) -> (r: Reply)
    ensures
        is_error_reply(
            r,
            "request_saturated"@,
            "maximum in-flight request work is currently active"@,
            *admission,
            false,
        ),
        final(metrics)@ == with_rejected_request(
            MetricsView {
                request_saturation_rejections: old(
                    metrics,
                )@.request_saturation_rejections.wrapping_add(1),
                ..old(metrics)@
            },
            operation,
            elapsed_nanos,
        ),
{
    metrics.request_saturation_rejections = metrics.request_saturation_rejections.wrapping_add(1);
    metrics.record_rejected_request(operation, elapsed_nanos);
    error_reply(saturated_response(), admission, false)
}

/// What is told to a client once its request was worked on, or took too long,
/// which is no response at all.
pub fn on_answered(
    metrics: &mut ServerMetrics,
    admission: &ProtocolAdmission,
    operation: RequestOperation,
    answered: Option<Response>,
    elapsed_nanos: u128,
) -> (r: Reply)
    ensures
        !r.close,
        match answered {
            Some(response) => {
                &&& r.response == response
                &&& r.write_timeout_nanos == if response is Error {
                    admission.request_timeout_nanos
                } else {
                    left_of(admission.request_timeout_nanos, elapsed_nanos)
                }
                &&& final(metrics)@ == with_request(
                    old(metrics)@,
                    operation,
                    elapsed_nanos,
                    response is Error,
                )
            },
            None => {
                &&& is_error_reply(
                    r,
                    "request_timeout"@,
                    "request exceeded the configured timeout"@,
                    *admission,
                    false,
                )
                &&& final(metrics)@ == with_request(
                    MetricsView {
                        request_timeouts: old(metrics)@.request_timeouts.wrapping_add(1),
                        ..old(metrics)@
                    },
                    operation,
                    elapsed_nanos,
                    true,
                )
            },
        },
{
    let response = match answered {
        Some(response) => response,
        None => {
            metrics.request_timeouts = metrics.request_timeouts.wrapping_add(1);
            timeout_response()
        },
    };
    let failed = if let Response::Error { .. } = &response {
        true
    } else {
        false
    };
    metrics.record_request(operation, elapsed_nanos, failed);
    let write_timeout_nanos: u128 = response_write_timeout(
        elapsed_nanos,
        admission.request_timeout_nanos,
        &response,
    );
    Reply { response, write_timeout_nanos, close: false }
}

/// The line of a response that was encoded.
pub fn response_line(encoded: Vec<u8>) -> (r: Vec<u8>)
    ensures
        r@ == encoded@.push(NEWLINE),
{
    let mut line = encoded;
    line.push(NEWLINE);
    line
}

/// Counts the line of a response that was written, or says that it took too long.
pub fn on_written(metrics: &mut ServerMetrics, line_len: usize, in_time: bool) -> (r: Result<
    (),
    IoFailure,
>)
    ensures
        r is Ok <==> in_time,
        r matches Err(failure) ==> failure.kind == IoKind::TimedOut && failure.message@
            == "response write timed out"@,
        final(metrics)@ == if in_time {
            MetricsView {
                response_bytes: old(metrics)@.response_bytes.wrapping_add(line_len as u64),
                ..old(metrics)@
            }
        } else {
            MetricsView {
                response_write_timeouts: old(metrics)@.response_write_timeouts.wrapping_add(1),
                ..old(metrics)@
            }
        },
{
    if in_time {
        metrics.response_bytes = metrics.response_bytes.wrapping_add(line_len as u64);
        Ok(())
    } else {
        metrics.response_write_timeouts = metrics.response_write_timeouts.wrapping_add(1);
        Err(
            IoFailure {
                kind: IoKind::TimedOut,
                message: "response write timed out".to_owned(),
            },
        )
    }
}

/// Counts a connection that was accepted; where there is no room for it, it is
/// turned away and closed at once.
pub fn on_accepted(metrics: &mut ServerMetrics, has_room: bool)
    ensures
        final(metrics)@ == if has_room {
            MetricsView {
                connections_accepted: old(metrics)@.connections_accepted.wrapping_add(1),
                ..old(metrics)@
            }
        } else {
            MetricsView {
                connections_accepted: old(metrics)@.connections_accepted.wrapping_add(1),
                connections_rejected: old(metrics)@.connections_rejected.wrapping_add(1),
                connections_closed: old(metrics)@.connections_closed.wrapping_add(1),
                ..old(metrics)@
            }
        },
{
    metrics.connections_accepted = metrics.connections_accepted.wrapping_add(1);
    if !has_room {
        metrics.connections_rejected = metrics.connections_rejected.wrapping_add(1);
        metrics.connections_closed = metrics.connections_closed.wrapping_add(1);
    }
}

/// Counts a connection that failed.
pub fn on_connection_error(metrics: &mut ServerMetrics)
    ensures
        final(metrics)@ == (MetricsView {
            connection_errors: old(metrics)@.connection_errors.wrapping_add(1),
            ..old(metrics)@
        }),
{
    metrics.connection_errors = metrics.connection_errors.wrapping_add(1);
}

/// A request that is turned away counts once among those turned away, once among
/// all of its kind and once among those of its kind that failed, and it counts
/// neither as a timeout nor as work that is going on.
pub proof fn law_rejections_are_counted_once(
    m: MetricsView,
    operation: RequestOperation,
    elapsed_nanos: u128,
)
    requires
        m.requests.len() == 9,
        m.request_failures.len() == 9,
    ensures
        ({
            let after = with_rejected_request(m, operation, elapsed_nanos);
            let i = crate::observability::operation_index(operation);
            &&& after.requests_rejected == m.requests_rejected.wrapping_add(1)
            &&& after.requests[i] == m.requests[i].wrapping_add(1)
            &&& after.request_failures[i] == m.request_failures[i].wrapping_add(1)
            &&& forall|j: int|
                0 <= j < 9 && j != i ==> #[trigger] after.requests[j] == m.requests[j]
            &&& forall|j: int|
                0 <= j < 9 && j != i ==> #[trigger] after.request_failures[j]
                    == m.request_failures[j]
            &&& after.request_timeouts == m.request_timeouts
            &&& after.active_requests == m.active_requests
        }),
{
}

/// A response is an error of a kind.
pub open spec fn has_code(response: Response, code: Seq<char>) -> bool {
    response is Error && response->code@ == code
}

/// What is done once a line was waited for. A whole line goes on to be decoded, all of it;
/// a client that is done is let go; one that took too long, sent too much or broke off in
/// a line is told which, may be told so for as long as a request may take, and is let go.
/// The bytes that came are counted, and a rejection for what it was.
pub proof fn law_lines_are_decoded_or_turned_away(
    metrics: &mut ServerMetrics,
    admission: ProtocolAdmission,
    outcome: FrameOutcome,
    elapsed: u128,
    action: FrameAction,
)
    requires
        call_ensures(on_frame, (metrics, &admission, outcome, elapsed), action),
    ensures
        ({
            let was = old(metrics)@;
            let now = final(metrics)@;
            &&& outcome matches FrameOutcome::Read(Frame::Complete { bytes }) ==> {
                &&& action is Decode
                &&& action->bytes@ == bytes@
                &&& now.request_bytes == was.request_bytes.wrapping_add(bytes@.len() as u64)
                &&& now.requests_rejected == was.requests_rejected
                &&& now.requests == was.requests
            }
            &&& outcome == FrameOutcome::Read(Frame::End) ==> action is Close && now == was
            &&& action is Send <==> outcome is TimedOut || outcome->Read_0 is TooLarge
                || outcome->Read_0 is Unterminated
            &&& action matches FrameAction::Send(reply) ==> {
                &&& reply.close
                &&& reply.write_timeout_nanos == admission.request_timeout_nanos
                &&& now.requests_rejected == was.requests_rejected.wrapping_add(1)
            }
            &&& outcome is TimedOut ==> {
                &&& has_code(action->Send_0.response, "request_timeout"@)
                &&& now.request_timeouts == was.request_timeouts.wrapping_add(1)
                &&& now.request_size_rejections == was.request_size_rejections
                &&& now.request_bytes == was.request_bytes
            }
            &&& outcome matches FrameOutcome::Read(Frame::TooLarge { bytes }) ==> {
                &&& has_code(action->Send_0.response, "request_too_large"@)
                &&& now.request_size_rejections == was.request_size_rejections.wrapping_add(1)
                &&& now.request_timeouts == was.request_timeouts
                &&& now.request_bytes == was.request_bytes.wrapping_add(bytes@.len() as u64)
            }
            &&& outcome matches FrameOutcome::Read(Frame::Unterminated { bytes }) ==> {
                &&& has_code(action->Send_0.response, "invalid_request"@)
                &&& now.request_size_rejections == was.request_size_rejections
                &&& now.request_timeouts == was.request_timeouts
                &&& now.request_bytes == was.request_bytes.wrapping_add(bytes@.len() as u64)
            }
        }),
{
}

/// A request that was decoded is let in as it is, and counted when it is done. A line that
/// holds none is told what is wrong with it, and the client may send another; one that is
/// no text ends the connection.
pub proof fn law_requests_are_let_in_or_explained(
    metrics: &mut ServerMetrics,
    admission: ProtocolAdmission,
    line: Vec<u8>,
    slice: &'static [u8],
    decoded: Result<Request, String>,
    elapsed: u128,
    action: DecodeAction,
)
    requires
        slice@ == line@,
        call_ensures(on_decoded, (metrics, &admission, slice, decoded, elapsed), action),
    ensures
        decoded matches Ok(request) ==> {
            &&& action is Admit
            &&& action->request == request
            &&& action->operation == operation_of(request)
            &&& final(metrics)@ == old(metrics)@
        },
        decoded matches Err(reason) ==> {
            &&& action is Fail <==> !valid_utf8(line@)
            &&& action is Send <==> valid_utf8(line@)
            &&& action matches DecodeAction::Send(reply) ==> {
                &&& has_code(reply.response, "invalid_request"@)
                &&& reply.response->Error_message@ == reason@
                &&& !reply.close
                &&& reply.write_timeout_nanos == admission.request_timeout_nanos
            }
            &&& final(metrics)@.requests_rejected == old(metrics)@.requests_rejected.wrapping_add(1)
        },
{
}

/// A client for whose request there is no room is told so and may try again; one whose
/// request took too long is told that and may send another; and any other is told what
/// came of it, in what is left of its time, or, where that is an error, in the whole of
/// it. No connection is closed for it.
pub proof fn law_requests_are_answered(
    metrics: &mut ServerMetrics,
    busy: &mut ServerMetrics,
    admission: ProtocolAdmission,
    operation: RequestOperation,
    answered: Option<Response>,
    elapsed: u128,
    reply: Reply,
    refusal: Reply,
)
    requires
        call_ensures(on_answered, (metrics, &admission, operation, answered, elapsed), reply),
        call_ensures(on_saturated, (busy, &admission, operation, elapsed), refusal),
    ensures
        !reply.close,
        answered matches Some(response) ==> reply.response == response,
        answered is None ==> has_code(reply.response, "request_timeout"@),
        reply.response is Error ==> reply.write_timeout_nanos == admission.request_timeout_nanos,
        !(reply.response is Error) && elapsed < admission.request_timeout_nanos
            ==> reply.write_timeout_nanos + elapsed == admission.request_timeout_nanos,
        !(reply.response is Error) && elapsed >= admission.request_timeout_nanos
            ==> reply.write_timeout_nanos == 0,
        final(metrics)@.request_timeouts == if answered is None {
            old(metrics)@.request_timeouts.wrapping_add(1)
        } else {
            old(metrics)@.request_timeouts
        },
        final(metrics)@.requests_rejected == old(metrics)@.requests_rejected,
        !refusal.close,
        has_code(refusal.response, "request_saturated"@),
        refusal.write_timeout_nanos == admission.request_timeout_nanos,
        final(busy)@.request_saturation_rejections
            == old(busy)@.request_saturation_rejections.wrapping_add(1),
        final(busy)@.requests_rejected == old(busy)@.requests_rejected.wrapping_add(1),
        final(busy)@.request_timeouts == old(busy)@.request_timeouts,
{
}

/// A response goes out as one line. One that was written in time counts with its bytes,
/// and one that was not is an error. A connection counts as accepted in any case; one for
/// which there is no room counts as turned away and closed besides.
pub proof fn law_lines_and_connections_are_counted(
    metrics: &mut ServerMetrics,
    accepted: &mut ServerMetrics,
    encoded: Vec<u8>,
    line: Vec<u8>,
    length: usize,
    in_time: bool,
    written: Result<(), IoFailure>,
    has_room: bool,
)
    requires
        call_ensures(response_line, (encoded,), line),
        call_ensures(on_written, (metrics, length, in_time), written),
        call_ensures(on_accepted, (accepted, has_room), ()),
    ensures
        line@.len() == encoded@.len() + 1,
        line@.last() == 10,
        forall|i: int| 0 <= i < encoded@.len() ==> #[trigger] line@[i] == encoded@[i],
        written is Ok <==> in_time,
        in_time ==> final(metrics)@.response_bytes == old(metrics)@.response_bytes.wrapping_add(
            length as u64,
        ) && final(metrics)@.response_write_timeouts == old(metrics)@.response_write_timeouts,
        !in_time ==> final(metrics)@.response_bytes == old(metrics)@.response_bytes
            && final(metrics)@.response_write_timeouts
            == old(metrics)@.response_write_timeouts.wrapping_add(1),
        final(accepted)@.connections_accepted == old(accepted)@.connections_accepted.wrapping_add(
            1,
        ),
        has_room ==> final(accepted)@.connections_rejected == old(accepted)@.connections_rejected
            && final(accepted)@.connections_closed == old(accepted)@.connections_closed,
        !has_room ==> final(accepted)@.connections_rejected
            == old(accepted)@.connections_rejected.wrapping_add(1)
            && final(accepted)@.connections_closed
            == old(accepted)@.connections_closed.wrapping_add(1),
{
}

} // verus!
