//! The line protocol that clients speak: its requests and responses, how a line
//! is read, and how much of it is let in.

use vstd::prelude::*;
use vstd::slice::slice_subrange;

use crate::engine::{IoFailure, IoKind, Offset};
use crate::text::{decimal, decimal_text, join3};
use crate::wire::append_bytes;

verus! {

/// One message of a batch.
#[derive(Debug, PartialEq, Eq)]
pub struct PublishBatchRecord {
    pub key: Option<String>,
    pub payload_base64: Vec<u8>,
    pub request_id: Option<String>,
}

/// What a client asks for.
#[derive(Debug, PartialEq, Eq)]
#[allow(inconsistent_fields)]
pub enum Request {
    CreateStream { stream: String },
    Publish {
        stream: String,
        key: Option<String>,
        payload: String,
        request_id: Option<String>,
    },
    PublishBytes {
        stream: String,
        key: Option<String>,
        payload_base64: Vec<u8>,
        request_id: Option<String>,
    },
    PublishBatch { stream: String, records: Vec<PublishBatchRecord> },
    Poll { stream: String, consumer: String },
    Replay { stream: String, consumer: String, offset: Offset },
    PollGroup { stream: String, consumer: String, member: String },
    Ack { stream: String, consumer: String, offset: Offset },
    AckGroup {
        stream: String,
        consumer: String,
        member: String,
        offset: Offset,
        delivery_token: String,
    },
    Health,
}

/// What came of one message of a batch.
#[derive(Debug, PartialEq, Eq)]
pub enum PublishBatchRecordResponse {
    Published { offset: Offset },
    Error { code: String, message: String },
}

/// What a client is told.
#[derive(Debug, PartialEq, Eq)]
#[allow(inconsistent_fields)]
pub enum Response {
    StreamCreated { stream: String, created: bool },
    Published { stream: String, offset: Offset },
    PublishBatch { stream: String, outcomes: Vec<PublishBatchRecordResponse> },
    Message {
        stream: String,
        consumer: String,
        member: Option<String>,
        offset: Offset,
        key: Option<String>,
        payload: String,
        published_at_ms: u64,
        delivery_token: Option<String>,
        delivery_attempt: Option<u32>,
    },
    MessageBytes {
        stream: String,
        consumer: String,
        member: Option<String>,
        offset: Offset,
        key: Option<String>,
        payload_base64: Vec<u8>,
        published_at_ms: u64,
        delivery_token: Option<String>,
        delivery_attempt: Option<u32>,
    },
    ReplayMessage {
        stream: String,
        consumer: String,
        offset: Offset,
        key: Option<String>,
        payload: String,
        published_at_ms: u64,
    },
    ReplayMessageBytes {
        stream: String,
        consumer: String,
        offset: Offset,
        key: Option<String>,
        payload_base64: Vec<u8>,
        published_at_ms: u64,
    },
    Empty { stream: String, consumer: String },
    Acknowledged { stream: String, consumer: String, offset: Offset, already_acknowledged: bool },
    Health { status: String, streams: usize, storage_bytes: u64 },
    Error { code: String, message: String },
}

/// A response is an error with a code and a message.
pub open spec fn is_error_response(
    response: Response,
    code: Seq<char>,
    message: Seq<char>,
) -> bool {
    response matches Response::Error { code: c, message: m } && c@ == code && m@ == message
}

/// How much of the protocol is let in at a time.
#[derive(Clone, Copy, Debug, PartialEq, Eq, Structural)]
pub struct ProtocolAdmission {
    pub max_connections: usize,
    pub max_request_bytes: usize,
    pub max_in_flight_requests: usize,
    pub request_timeout_nanos: u128,
}

/// What is wrong with some limits, if anything is. The first that is out of its
/// range is named.
pub open spec fn admission_fault(
    max_connections: usize,
    max_request_bytes: usize,
    max_in_flight_requests: usize,
    request_timeout_ms: u64,
    max_configured_request_bytes: usize,
) -> Option<Seq<char>> {
    if max_connections == 0 {
        Some("--max-connections must be greater than zero"@)
    } else if max_request_bytes == 0 || max_request_bytes > max_configured_request_bytes {
        Some(
            "--max-request-bytes must be between 1 and "@ + decimal(
                max_configured_request_bytes as nat,
            ) + ""@,
        )
    } else if max_in_flight_requests == 0 {
        Some("--max-in-flight-requests must be greater than zero"@)
    } else if request_timeout_ms == 0 {
        Some("--request-timeout-ms must be greater than zero"@)
    } else {
        None
    }
}

/// Accepts limits that are in their ranges. A request may be as large as the
/// largest batch, which is `max_configured_request_bytes`.
pub fn validate_admission_config(
    max_connections: usize,
    max_request_bytes: usize,
    max_in_flight_requests: usize,
    request_timeout_ms: u64,
    max_configured_request_bytes: usize,
) -> (r: Result<(), String>)
    ensures
        match admission_fault(
            max_connections,
            max_request_bytes,
            max_in_flight_requests,
            request_timeout_ms,
            max_configured_request_bytes,
        ) {
            Some(text) => r matches Err(error) && error@ == text,
            None => r is Ok,
        },
{
    if max_connections == 0 {
        return Err("--max-connections must be greater than zero".to_owned());
    }
    if max_request_bytes == 0 || max_request_bytes > max_configured_request_bytes {
        return Err(
            join3(
                "--max-request-bytes must be between 1 and ",
                decimal_text(max_configured_request_bytes as u64).as_str(),
                "",
            ),
        );
    }
    if max_in_flight_requests == 0 {
        return Err("--max-in-flight-requests must be greater than zero".to_owned());
    }
    if request_timeout_ms == 0 {
        return Err("--request-timeout-ms must be greater than zero".to_owned());
    }
    Ok(())
}

/// What was read of a line.
#[derive(Debug, PartialEq, Eq)]
pub enum Frame {
    /// Nothing: the client is done.
    End,
    /// A line with its newline.
    Complete { bytes: Vec<u8> },
    /// What came before the client was done, without a newline.
    Unterminated { bytes: Vec<u8> },
    /// The beginning of a line that is longer than a line may be.
    TooLarge { bytes: Vec<u8> },
}

/// What a frame says.
#[verifier::ext_equal]
pub enum FrameView {
    End,
    Complete { bytes: Seq<u8> },
    Unterminated { bytes: Seq<u8> },
    TooLarge { bytes: Seq<u8> },
}

impl View for Frame {
    type V = FrameView;

    open spec fn view(&self) -> FrameView {
        match *self {
            Frame::End => FrameView::End,
            Frame::Complete { bytes } => FrameView::Complete { bytes: bytes@ },
            Frame::Unterminated { bytes } => FrameView::Unterminated { bytes: bytes@ },
            Frame::TooLarge { bytes } => FrameView::TooLarge { bytes: bytes@ },
        }
    }
}

/// The byte that ends a line.
pub const NEWLINE: u8 = 10;

/// The byte that may stand before the one that ends a line.
pub const CARRIAGE_RETURN: u8 = 13;

/// Where the first newline of some bytes stands, or their length where there is
/// none.
pub open spec fn newline_at(bytes: Seq<u8>) -> nat
    decreases bytes.len(),
{
    if bytes.len() == 0 || bytes[0] == NEWLINE {
        0
    } else {
        newline_at(bytes.drop_first()) + 1
    }
}

/// The line that some bytes begin with, as far as that can be told: a whole line
/// with its newline, or the beginning of one that is too long. A line may have
/// `limit` bytes with its newline.
pub open spec fn line_of(bytes: Seq<u8>, limit: nat) -> Option<FrameView> {
    let at = newline_at(bytes);
    if at < bytes.len() && at + 1 <= limit {
        Some(FrameView::Complete { bytes: bytes.take(at as int + 1) })
    } else if bytes.len() >= limit {
        Some(FrameView::TooLarge { bytes: bytes.take(limit as int) })
    } else {
        None
    }
}

/// The line that all that a client sends begins with.
pub open spec fn frame_in(bytes: Seq<u8>, limit: nat) -> FrameView {
    match line_of(bytes, limit) {
        Some(frame) => frame,
        None => if bytes.len() == 0 {
            FrameView::End
        } else {
            FrameView::Unterminated { bytes }
        },
    }
}

/// The first newline is the first of them.
proof fn lemma_newline_at(bytes: Seq<u8>)
    ensures
        newline_at(bytes) <= bytes.len(),
        newline_at(bytes) < bytes.len() ==> bytes[newline_at(bytes) as int] == NEWLINE,
        forall|i: int| 0 <= i < newline_at(bytes) ==> #[trigger] bytes[i] != NEWLINE,
    decreases bytes.len(),
{
    if bytes.len() > 0 && bytes[0] != NEWLINE {
        let rest = bytes.drop_first();
        lemma_newline_at(rest);
        assert forall|i: int| 0 <= i < newline_at(bytes) implies #[trigger] bytes[i]
            != NEWLINE by {
            if i > 0 {
                assert(bytes[i] == rest[i - 1]);
            }
        }
    }
}

/// There is one first newline.
proof fn lemma_newline_is(bytes: Seq<u8>, at: nat)
    requires
        at <= bytes.len(),
        at < bytes.len() ==> bytes[at as int] == NEWLINE,
        forall|i: int| 0 <= i < at ==> #[trigger] bytes[i] != NEWLINE,
    ensures
        newline_at(bytes) == at,
{
    lemma_newline_at(bytes);
    let found = newline_at(bytes);
    if found < at {
        assert(bytes[found as int] != NEWLINE);
    }
    if at < found {
        assert(bytes[at as int] != NEWLINE);
    }
}

/// Once a line can be told, what a client sends after it does not change it.
pub proof fn law_lines_do_not_depend_on_what_follows(bytes: Seq<u8>, more: Seq<u8>, limit: nat)
    requires
        line_of(bytes, limit) is Some,
    ensures
        line_of(bytes + more, limit) == line_of(bytes, limit),
{
    let all = bytes + more;
    let at = newline_at(bytes);
    lemma_newline_at(bytes);
    lemma_newline_at(all);
    if at < bytes.len() {
        assert forall|i: int| 0 <= i < at implies #[trigger] all[i] != NEWLINE by {
            assert(all[i] == bytes[i]);
        }
        assert(all[at as int] == bytes[at as int]);
        lemma_newline_is(all, at);
        if at + 1 <= limit {
            assert(all.take(at as int + 1) =~= bytes.take(at as int + 1));
        }
    } else {
        let found = newline_at(all);
        if found < bytes.len() {
            assert(all[found as int] == bytes[found as int]);
        }
    }
    if bytes.len() >= limit {
        assert(all.take(limit as int) =~= bytes.take(limit as int));
    }
}

/// A line that is being read.
#[derive(Debug)]
pub struct FrameReader {
    limit: usize,
    bytes: Vec<u8>,
}

/// What came of some more bytes: how many of them belong to the line, and the
/// line where it can be told.
#[derive(Debug)]
pub struct FrameStep {
    pub consumed: usize,
    pub frame: Option<Frame>,
}

impl FrameReader {
    /// What was read of the line so far.
    pub closed spec fn so_far(&self) -> Seq<u8> {
        self.bytes@
    }

    /// How many bytes the line may have with its newline.
    pub closed spec fn limit(&self) -> nat {
        self.limit as nat
    }

    /// Nothing of the line that could end it was read yet.
    #[verifier::type_invariant]
    closed spec fn is_open(self) -> bool {
        &&& self.bytes@.len() < self.limit
        &&& newline_at(self.bytes@) == self.bytes@.len()
    }

    /// A line of which nothing was read yet.
    pub fn new(max_request_bytes: usize) -> (r: Result<Self, IoFailure>)
        ensures
            match r {
                Ok(reader) => max_request_bytes < usize::MAX && reader.limit() == max_request_bytes
                    + 1 && reader.so_far().len() == 0,
                Err(failure) => max_request_bytes == usize::MAX && failure.kind == IoKind::Other
                    && failure.message@ == "maximum request size is too large"@,
            },
    {
        if max_request_bytes == usize::MAX {
            return Err(
                IoFailure {
                    kind: IoKind::Other,
                    message: "maximum request size is too large".to_owned(),
                },
            );
        }
        Ok(FrameReader { limit: max_request_bytes + 1, bytes: Vec::new() })
    }

    /// Takes in some more bytes, which are not none.
    pub fn take(&mut self, buffered: &[u8]) -> (r: FrameStep)
        requires
            buffered@.len() > 0,
        ensures
            ({
                let all = old(self).so_far() + buffered@;
                match line_of(all, old(self).limit()) {
                    Some(FrameView::Complete { bytes }) => {
                        &&& r.frame matches Some(frame) && frame@ == (FrameView::Complete { bytes })
                        &&& old(self).so_far().len() + r.consumed == bytes.len()
                    },
                    Some(FrameView::TooLarge { bytes }) => {
                        &&& r.frame matches Some(frame) && frame@ == (FrameView::TooLarge { bytes })
                        &&& old(self).so_far().len() + r.consumed == bytes.len()
                    },
                    _ => {
                        &&& r.frame is None
                        &&& r.consumed == buffered@.len()
                        &&& final(self).so_far() == all
                        &&& final(self).limit() == old(self).limit()
                    },
                }
            }),
    {
        proof {
            use_type_invariant(&*self);
        }
        let ghost before = self.bytes@;
        let ghost all = before + buffered@;
        let limit: usize = self.limit;
        let mut at: usize = 0;
        proof {
            lemma_newline_at(before);
        }
        while at < buffered.len() && buffered[at] != NEWLINE
            invariant
                at <= buffered@.len(),
                forall|i: int| 0 <= i < at ==> #[trigger] buffered@[i] != NEWLINE,
            decreases buffered@.len() - at,
        {
            at += 1;
        }
        proof {
            assert forall|i: int| 0 <= i < before.len() + at implies #[trigger] all[i]
                != NEWLINE by {
                if i < before.len() {
                    assert(all[i] == before[i]);
                } else {
                    assert(all[i] == buffered@[i - before.len()]);
                }
            }
            if at < buffered@.len() {
                assert(all[before.len() + at] == buffered@[at as int]);
            }
            lemma_newline_is(all, before.len() + at as nat);
        }
        let found = at < buffered.len();
        let to_consume: usize = if found {
            at + 1
        } else {
            at
        };
        let room: usize = limit - self.bytes.len();
        let mut bytes: Vec<u8> = Vec::new();
        std::mem::swap(&mut bytes, &mut self.bytes);
        if to_consume > room {
            let part = slice_subrange(buffered, 0, room);
            append_bytes(&mut bytes, part);
            proof {
                assert(bytes@ =~= all.take(limit as int));
            }
            return FrameStep { consumed: room, frame: Some(Frame::TooLarge { bytes }) };
        }
        let part = slice_subrange(buffered, 0, to_consume);
        append_bytes(&mut bytes, part);
        if found {
            proof {
                assert(bytes@ =~= all.take(before.len() + at + 1));
            }
            return FrameStep { consumed: to_consume, frame: Some(Frame::Complete { bytes }) };
        }
        proof {
            assert(bytes@ =~= all);
        }
        if bytes.len() == limit {
            proof {
                assert(bytes@ =~= all.take(limit as int));
            }
            return FrameStep { consumed: to_consume, frame: Some(Frame::TooLarge { bytes }) };
        }
        self.bytes = bytes;
        FrameStep { consumed: to_consume, frame: None }
    }

    /// What was read when the client is done.
    pub fn finish(self) -> (r: Frame)
        ensures
            r@ == frame_in(self.so_far(), self.limit()),
            self.so_far().len() == 0 ==> r@ == FrameView::End,
            self.so_far().len() > 0 ==> r@ == (FrameView::Unterminated { bytes: self.so_far() }),
    {
        proof {
            use_type_invariant(&self);
        }
        if self.bytes.len() == 0 {
            Frame::End
        } else {
            Frame::Unterminated { bytes: self.bytes }
        }
    }
}

/// What a client sends, in parts, as it is read.
pub open spec fn joined(parts: Seq<Seq<u8>>) -> Seq<u8>
    decreases parts.len(),
{
    if parts.len() == 0 {
        Seq::empty()
    } else {
        joined(parts.drop_last()) + parts.last()
    }
}

/// The line that is read from parts, one after another, until it can be told, after
/// what was read of it so far.
pub open spec fn frame_from_at(so_far: Seq<u8>, parts: Seq<Seq<u8>>, limit: nat) -> FrameView
    decreases parts.len(),
{
    if parts.len() == 0 {
        frame_in(so_far, limit)
    } else {
        match line_of(so_far + parts[0], limit) {
            Some(frame) => frame,
            None => frame_from_at(so_far + parts[0], parts.drop_first(), limit),
        }
    }
}

/// Parts one after another.
proof fn lemma_joined_first(parts: Seq<Seq<u8>>)
    requires
        parts.len() > 0,
    ensures
        joined(parts) == parts[0] + joined(parts.drop_first()),
    decreases parts.len(),
{
    if parts.len() == 1 {
        assert(parts.drop_last() =~= Seq::empty());
        assert(parts.drop_first() =~= Seq::empty());
        assert(joined(parts) =~= parts[0] + joined(parts.drop_first()));
    } else {
        lemma_joined_first(parts.drop_last());
        assert(parts.drop_last().drop_first() =~= parts.drop_first().drop_last());
        assert(joined(parts) =~= parts[0] + joined(parts.drop_first()));
    }
}

/// The line that is read does not depend on how what the client sends is cut into
/// parts.
pub proof fn law_lines_do_not_depend_on_how_they_come(
    so_far: Seq<u8>,
    parts: Seq<Seq<u8>>,
    limit: nat,
)
    requires
        line_of(so_far, limit) is None,
    ensures
        frame_from_at(so_far, parts, limit) == frame_in(so_far + joined(parts), limit),
    decreases parts.len(),
{
    if parts.len() == 0 {
        assert(so_far + joined(parts) =~= so_far);
    } else {
        let next = so_far + parts[0];
        let rest = parts.drop_first();
        lemma_joined_first(parts);
        assert(so_far + joined(parts) =~= next + joined(rest));
        if line_of(next, limit) is Some {
            law_lines_do_not_depend_on_what_follows(next, joined(rest), limit);
        } else {
            law_lines_do_not_depend_on_how_they_come(next, rest, limit);
        }
    }
}

/// What a line says: without its last byte, and without a carriage return before
/// that.
pub open spec fn line_content(bytes: Seq<u8>) -> Seq<u8> {
    let line = bytes.drop_last();
    if line.len() > 0 && line.last() == CARRIAGE_RETURN {
        line.drop_last()
    } else {
        line
    }
}

/// What a line says: without its last byte, and without a carriage return before
/// that.
pub fn request_line(bytes: &[u8]) -> (r: &[u8])
    requires
        bytes@.len() > 0,
    ensures
        r@ == line_content(bytes@),
{
    let end: usize = bytes.len() - 1;
    let line = slice_subrange(bytes, 0, end);
    proof {
        assert(line@ =~= bytes@.drop_last());
    }
    if end > 0 && line[end - 1] == CARRIAGE_RETURN {
        let content = slice_subrange(line, 0, end - 1);
        proof {
            assert(content@ =~= bytes@.drop_last().drop_last());
        }
        return content;
    }
    line
}

/// A request line ends the same way whether its client writes newlines alone or
/// carriage returns before them, so long as it does not itself end with one.
pub proof fn law_line_endings_are_taken_off(content: Seq<u8>)
    requires
        content.len() == 0 || content.last() != CARRIAGE_RETURN,
    ensures
        line_content(content.push(NEWLINE)) == content,
        line_content(content.push(CARRIAGE_RETURN).push(NEWLINE)) == content,
{
    assert(content.push(NEWLINE).drop_last() =~= content);
    assert(content.push(CARRIAGE_RETURN).push(NEWLINE).drop_last() =~= content.push(
        CARRIAGE_RETURN,
    ));
    assert(content.push(CARRIAGE_RETURN).drop_last() =~= content);
}

/// What is left of a time, in nanoseconds.
pub open spec fn left_of(timeout_nanos: u128, elapsed_nanos: u128) -> u128 {
    if elapsed_nanos <= timeout_nanos {
        (timeout_nanos - elapsed_nanos) as u128
    } else {
        0
    }
}

/// What is left of the time of a request that began some time ago, in
/// nanoseconds.
pub fn remaining_timeout(elapsed_nanos: u128, timeout_nanos: u128) -> (r: u128)
    ensures
        r == left_of(timeout_nanos, elapsed_nanos),
{
    if elapsed_nanos <= timeout_nanos {
        timeout_nanos - elapsed_nanos
    } else {
        0
    }
}

/// How long a response may take to be written, in nanoseconds: an error has the
/// whole time of a request, anything else what is left of it.
pub fn response_write_timeout(
    elapsed_nanos: u128,
    request_timeout_nanos: u128,
    response: &Response,
) -> (r: u128)
    ensures
        r == if response is Error {
            request_timeout_nanos
        } else {
            left_of(request_timeout_nanos, elapsed_nanos)
        },
{
    if let Response::Error { .. } = response {
        return request_timeout_nanos;
    }
    remaining_timeout(elapsed_nanos, request_timeout_nanos)
}

/// The response to a request that cannot be understood.
pub fn invalid_request_response(message: &str) -> (r: Response)
    ensures
        is_error_response(r, "invalid_request"@, message@),
{
    Response::Error { code: "invalid_request".to_owned(), message: message.to_owned() }
}

/// What is said of a line that is too long.
pub open spec fn request_size_text(max_request_bytes: usize) -> Seq<char> {
    "request frame exceeds the configured maximum of "@ + decimal(max_request_bytes as nat)
        + " bytes"@
}

/// The response to a line that is too long.
pub fn request_size_response(max_request_bytes: usize) -> (r: Response)
    ensures
        is_error_response(r, "request_too_large"@, request_size_text(max_request_bytes)),
{
    Response::Error {
        code: "request_too_large".to_owned(),
        message: join3(
            "request frame exceeds the configured maximum of ",
            decimal_text(max_request_bytes as u64).as_str(),
            " bytes",
        ),
    }
}

/// The response to a request for which there is no room.
pub fn saturated_response() -> (r: Response)
    ensures
        is_error_response(
            r,
            "request_saturated"@,
            "maximum in-flight request work is currently active"@,
        ),
{
    Response::Error {
        code: "request_saturated".to_owned(),
        message: "maximum in-flight request work is currently active".to_owned(),
    }
}

/// The response to a request that took too long.
pub fn timeout_response() -> (r: Response)
    ensures
        is_error_response(
            r,
            "request_timeout"@,
            "request exceeded the configured timeout"@,
        ),
{
    Response::Error {
        code: "request_timeout".to_owned(),
        message: "request exceeded the configured timeout".to_owned(),
    }
}

/// The line that a client is sent for which there is no connection left.
pub const CONNECTION_REJECTION: &'static str =
    "{\"type\":\"error\",\"code\":\"connection_limit\",\"message\":\"maximum client connections reached\"}\n";

/// How long that line may take to be written, in milliseconds.
pub const CONNECTION_REJECTION_WRITE_TIMEOUT_MS: u64 = 10;

/// A line is whole once a newline comes, if it has no more bytes than it may with that
/// newline, and it ends at the first newline. It is too long once there are as many bytes
/// as it may have and no newline among them. Until then it cannot be told.
pub proof fn law_lines_end_at_the_first_newline(bytes: Seq<u8>, limit: nat, at: int)
    requires
        limit > 0,
        0 <= at <= bytes.len(),
        at < bytes.len() ==> bytes[at] == 10,
        forall|i: int| 0 <= i < at ==> #[trigger] bytes[i] != 10,
    ensures
        at < bytes.len() && at < limit ==> line_of(bytes, limit) == Some(
            FrameView::Complete { bytes: bytes.take(at + 1) },
        ),
        at >= limit ==> line_of(bytes, limit) == Some(
            FrameView::TooLarge { bytes: bytes.take(limit as int) },
        ),
        at == bytes.len() && at < limit ==> line_of(bytes, limit) is None,
        at == bytes.len() && 0 < at < limit ==> frame_in(bytes, limit) == (
        FrameView::Unterminated { bytes }),
        frame_in(Seq::empty(), limit) == FrameView::End,
{
    lemma_newline_is(bytes, at as nat);
    lemma_newline_is(Seq::empty(), 0);
}

/// A client may send as many bytes as are configured, and its newline.
pub proof fn law_requests_may_have_as_many_bytes_as_configured(
    most: usize,
    reader: Result<FrameReader, IoFailure>,
)
    requires
        call_ensures(FrameReader::new, (most,), reader),
    ensures
        most < usize::MAX ==> reader is Ok,
        reader matches Ok(open) ==> open.limit() == most + 1 && open.so_far()
            == Seq::<u8>::empty(),
{
    if let Ok(open) = reader {
        assert(open.so_far() =~= Seq::<u8>::empty());
    }
}

/// Limits are accepted if each lets something in and no request may be larger than the
/// largest batch, and only then.
pub proof fn law_limits_must_let_something_in(
    connections: usize,
    bytes: usize,
    requests: usize,
    timeout_ms: u64,
    largest: usize,
    accepted: Result<(), String>,
)
    requires
        call_ensures(
            validate_admission_config,
            (connections, bytes, requests, timeout_ms, largest),
            accepted,
        ),
    ensures
        accepted is Ok <==> connections >= 1 && 1 <= bytes <= largest && requests >= 1
            && timeout_ms >= 1,
{
}

/// What is left of a time and what has passed of it make the whole, until nothing is left.
/// An error may always take the whole time to be written.
pub proof fn law_time_that_has_passed_is_not_left(
    elapsed: u128,
    timeout: u128,
    response: Response,
    left: u128,
    to_write: u128,
)
    requires
        call_ensures(remaining_timeout, (elapsed, timeout), left),
        call_ensures(response_write_timeout, (elapsed, timeout, &response), to_write),
    ensures
        elapsed < timeout ==> left + elapsed == timeout,
        elapsed >= timeout ==> left == 0,
        left_of(timeout, elapsed) == left,
        response is Error ==> to_write == timeout,
        !(response is Error) ==> to_write == left,
{
}

} // verus!
