//! What the broker hands to its callers: messages, results and errors.

use vstd::prelude::*;

verus! {

/// The place of a message in its stream.
pub type Offset = u64;

/// A delivered message.
#[derive(Debug, PartialEq, Eq)]
pub struct Message {
    pub stream: String,
    pub offset: Offset,
    pub key: Option<String>,
    pub payload: Vec<u8>,
    pub published_at_ms: u64,
    pub delivery_token: Option<String>,
    pub delivery_attempt: Option<u32>,
}

/// What a delivered message says.
#[verifier::ext_equal]
pub struct MessageView {
    pub stream: Seq<char>,
    pub offset: Offset,
    pub key: Option<Seq<char>>,
    pub payload: Seq<u8>,
    pub published_at_ms: u64,
    pub delivery_token: Option<Seq<char>>,
    pub delivery_attempt: Option<u32>,
}

impl View for Message {
    type V = MessageView;

    open spec fn view(&self) -> MessageView {
        MessageView {
            stream: self.stream@,
            offset: self.offset,
            key: self.key.deep_view(),
            payload: self.payload@,
            published_at_ms: self.published_at_ms,
            delivery_token: self.delivery_token.deep_view(),
            delivery_attempt: self.delivery_attempt,
        }
    }
}

/// What a poll came back with.
#[derive(Debug, PartialEq, Eq)]
pub enum PollResult {
    Message(Message),
    Empty,
}

/// What the result of a poll says.
#[verifier::ext_equal]
pub enum PollResultView {
    Message(MessageView),
    Empty,
}

impl View for PollResult {
    type V = PollResultView;

    open spec fn view(&self) -> PollResultView {
        match self {
            PollResult::Message(message) => PollResultView::Message(message@),
            PollResult::Empty => PollResultView::Empty,
        }
    }
}

/// A message read again from retained history.
#[derive(Debug, PartialEq, Eq)]
pub struct ReplayMessage {
    pub stream: String,
    pub offset: Offset,
    pub key: Option<String>,
    pub payload: Vec<u8>,
    pub published_at_ms: u64,
}

/// What a replayed message says.
#[verifier::ext_equal]
pub struct ReplayMessageView {
    pub stream: Seq<char>,
    pub offset: Offset,
    pub key: Option<Seq<char>>,
    pub payload: Seq<u8>,
    pub published_at_ms: u64,
}

impl View for ReplayMessage {
    type V = ReplayMessageView;

    open spec fn view(&self) -> ReplayMessageView {
        ReplayMessageView {
            stream: self.stream@,
            offset: self.offset,
            key: self.key.deep_view(),
            payload: self.payload@,
            published_at_ms: self.published_at_ms,
        }
    }
}

/// The outcome of an acknowledgement.
#[derive(Clone, Copy, Debug, PartialEq, Eq, Structural)]
pub enum AckResult {
    Acknowledged,
    AlreadyAcknowledged,
}

/// The condition of an engine.
#[derive(Clone, Copy, Debug, PartialEq, Eq, Structural)]
pub struct HealthSnapshot {
    pub streams: usize,
    pub storage_bytes: u64,
    pub in_flight_deliveries: u64,
    pub redeliveries: u64,
    pub dead_letters: u64,
}

/// What went wrong with an input or output.
#[derive(Clone, Copy, Debug, PartialEq, Eq, Structural)]
pub enum IoKind {
    InvalidInput,
    InvalidData,
    TimedOut,
    Other,
}

/// A failed input or output.
#[derive(Debug, PartialEq, Eq)]
pub struct IoFailure {
    pub kind: IoKind,
    pub message: String,
}

/// Why the broker could not do what it was asked.
#[derive(Debug, PartialEq, Eq)]
pub enum BrokerError {
    InvalidName { kind: &'static str, name: String },
    StreamNotFound(String),
    StreamNotReady(String),
    AckNotInFlight { consumer: String, offset: Offset },
    StaleDelivery { consumer: String, offset: Offset },
    OutOfOrderAck { consumer: String, expected: Offset, received: Offset },
    HistoryUnavailable {
        stream: String,
        requested_offset: Offset,
        earliest_offset: Offset,
        next_offset: Offset,
    },
    CorruptRecord(String),
    Io(IoFailure),
    State(String),
    LockPoisoned,
    Configuration(String),
    NotLeader { leader_id: Option<u64> },
    Cluster(String),
}

/// A span of time in whole milliseconds, or the most that a number can say.
pub open spec fn millis_of(secs: u64, nanos: u32) -> u64 {
    let millis = secs * 1000 + nanos as int / 1_000_000;
    if millis <= u64::MAX {
        millis as u64
    } else {
        u64::MAX
    }
}

/// A span of time in whole milliseconds. The span is given in whole seconds and
/// the nanoseconds beyond them.
pub fn duration_ms(secs: u64, nanos: u32) -> (r: u64)
    ensures
        r == millis_of(secs, nanos),
{
    let millis: u128 = (secs as u128) * 1000 + (nanos as u128) / 1_000_000;
    if millis <= u64::MAX as u128 {
        millis as u64
    } else {
        u64::MAX
    }
}

} // verus!
