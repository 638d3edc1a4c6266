//! What the nodes of a cluster say to each other.

use vstd::prelude::*;

use crate::engine::{AckResult, BrokerError, IoFailure, IoKind, Offset, PollResult, ReplayMessage};

pub mod framing;
pub mod inbound;
pub mod outbound;

verus! {

/// An operation that a node asks the leader to carry out.
#[derive(Debug, PartialEq, Eq)]
pub enum ForwardedOperation {
    CreateStream { stream: String },
    Publish {
        stream: String,
        key: Option<String>,
        payload: Vec<u8>,
        request_id: Option<String>,
        published_at_ms: u64,
    },
    Poll { stream: String, consumer: String },
    Replay { stream: String, consumer: String, offset: Offset },
    Ack { stream: String, consumer: String, offset: Offset },
    PollGroup { stream: String, consumer: String, member: String },
    AckGroup {
        stream: String,
        consumer: String,
        member: String,
        offset: Offset,
        delivery_token: String,
    },
    InitializeDataStream { stream: String, stream_id: String, group_id: String },
}

/// What came of an operation that was forwarded.
#[derive(Debug, PartialEq, Eq)]
pub enum ForwardedResponse {
    CreateStream(Result<bool, ForwardError>),
    Publish(Result<Offset, ForwardError>),
    Poll(Result<PollResult, ForwardError>),
    Replay(Result<ReplayMessage, ForwardError>),
    Ack(Result<AckResult, ForwardError>),
    PollGroup(Result<PollResult, ForwardError>),
    AckGroup(Result<AckResult, ForwardError>),
    InitializeDataStream(Result<bool, ForwardError>),
}

/// Why an operation that was forwarded failed.
#[derive(Debug, PartialEq, Eq)]
pub enum ForwardError {
    NotLeader { leader_id: Option<u64> },
    AckNotInFlight { consumer: String, offset: Offset },
    StaleDelivery { consumer: String, offset: Offset },
    HistoryUnavailable {
        stream: String,
        requested_offset: Offset,
        earliest_offset: Offset,
        next_offset: Offset,
    },
    Message(String),
}

/// What an error of the broker becomes on the way to another node. `text` is
/// what the error says.
pub open spec fn forwarded_error(error: BrokerError, text: String) -> ForwardError {
    match error {
        BrokerError::NotLeader { leader_id } => ForwardError::NotLeader { leader_id },
        BrokerError::AckNotInFlight { consumer, offset } => ForwardError::AckNotInFlight {
            consumer,
            offset,
        },
        BrokerError::StaleDelivery { consumer, offset } => ForwardError::StaleDelivery {
            consumer,
            offset,
        },
        BrokerError::HistoryUnavailable {
            stream,
            requested_offset,
            earliest_offset,
            next_offset,
        } => ForwardError::HistoryUnavailable {
            stream,
            requested_offset,
            earliest_offset,
            next_offset,
        },
        _ => ForwardError::Message(text),
    }
}

/// What an error of the broker becomes on the way to another node. `text` is
/// what the error says.
pub fn forward_error(error: BrokerError, text: String) -> (r: ForwardError)
    ensures
        r == forwarded_error(error, text),
{
    match error {
        BrokerError::NotLeader { leader_id } => ForwardError::NotLeader { leader_id },
        BrokerError::AckNotInFlight { consumer, offset } => ForwardError::AckNotInFlight {
            consumer,
            offset,
        },
        BrokerError::StaleDelivery { consumer, offset } => ForwardError::StaleDelivery {
            consumer,
            offset,
        },
        BrokerError::HistoryUnavailable {
            stream,
            requested_offset,
            earliest_offset,
            next_offset,
        } => ForwardError::HistoryUnavailable {
            stream,
            requested_offset,
            earliest_offset,
            next_offset,
        },
        _ => ForwardError::Message(text),
    }
}

/// What an error from another node is to this one.
pub open spec fn received_error(error: ForwardError) -> BrokerError {
    match error {
        ForwardError::NotLeader { leader_id } => BrokerError::NotLeader { leader_id },
        ForwardError::AckNotInFlight { consumer, offset } => BrokerError::AckNotInFlight {
            consumer,
            offset,
        },
        ForwardError::StaleDelivery { consumer, offset } => BrokerError::StaleDelivery {
            consumer,
            offset,
        },
        ForwardError::HistoryUnavailable {
            stream,
            requested_offset,
            earliest_offset,
            next_offset,
        } => BrokerError::HistoryUnavailable {
            stream,
            requested_offset,
            earliest_offset,
            next_offset,
        },
        ForwardError::Message(message) => BrokerError::Cluster(message),
    }
}

/// What an error from another node is to this one.
pub fn forward_error_to_broker(error: ForwardError) -> (r: BrokerError)
    ensures
        r == received_error(error),
{
    match error {
        ForwardError::NotLeader { leader_id } => BrokerError::NotLeader { leader_id },
        ForwardError::AckNotInFlight { consumer, offset } => BrokerError::AckNotInFlight {
            consumer,
            offset,
        },
        ForwardError::StaleDelivery { consumer, offset } => BrokerError::StaleDelivery {
            consumer,
            offset,
        },
        ForwardError::HistoryUnavailable {
            stream,
            requested_offset,
            earliest_offset,
            next_offset,
        } => BrokerError::HistoryUnavailable {
            stream,
            requested_offset,
            earliest_offset,
            next_offset,
        },
        ForwardError::Message(message) => BrokerError::Cluster(message),
    }
}

/// An error that another node acts on comes through forwarding as it is; any
/// other comes through as an error of the cluster that says the same.
pub proof fn law_errors_come_through_forwarding(error: BrokerError, text: String)
    ensures
        match error {
            BrokerError::NotLeader { .. } => received_error(forwarded_error(error, text)) == error,
            BrokerError::AckNotInFlight { .. } => received_error(forwarded_error(error, text))
                == error,
            BrokerError::StaleDelivery { .. } => received_error(forwarded_error(error, text))
                == error,
            BrokerError::HistoryUnavailable { .. } => received_error(forwarded_error(error, text))
                == error,
            _ => received_error(forwarded_error(error, text)) == BrokerError::Cluster(text),
        },
{
}

/// What a node says to a request, so far as the one that asked has to tell.
#[derive(Debug)]
pub enum PeerReply {
    Forward(ForwardedResponse),
    Ready,
    Error(String),
    Other,
}

/// What came of an operation that was forwarded, or what is wrong with what the
/// peer said.
pub fn forward_reply(reply: PeerReply) -> (r: Result<ForwardedResponse, IoFailure>)
    ensures
        match reply {
            PeerReply::Forward(response) => r == Ok::<ForwardedResponse, IoFailure>(response),
            PeerReply::Error(error) => r matches Err(f) && f.kind == IoKind::Other && f.message
                == error,
            _ => r matches Err(f) && f.kind == IoKind::InvalidData && f.message@
                == "peer returned the wrong forwarded response"@,
        },
{
    match reply {
        PeerReply::Forward(response) => Ok(response),
        PeerReply::Error(error) => Err(IoFailure { kind: IoKind::Other, message: error }),
        _ => Err(
            IoFailure {
                kind: IoKind::InvalidData,
                message: "peer returned the wrong forwarded response".to_owned(),
            },
        ),
    }
}

/// Whether a peer has prepared a data group, or what is wrong with what it said.
pub fn ensure_data_group_reply(reply: PeerReply) -> (r: Result<(), IoFailure>)
    ensures
        match reply {
            PeerReply::Ready => r is Ok,
            PeerReply::Error(error) => r matches Err(f) && f.kind == IoKind::Other && f.message
                == error,
            _ => r matches Err(f) && f.kind == IoKind::InvalidData && f.message@
                == "peer returned the wrong data-group response"@,
        },
{
    match reply {
        PeerReply::Ready => Ok(()),
        PeerReply::Error(error) => Err(IoFailure { kind: IoKind::Other, message: error }),
        _ => Err(
            IoFailure {
                kind: IoKind::InvalidData,
                message: "peer returned the wrong data-group response".to_owned(),
            },
        ),
    }
}

/// What a node says to a request is taken as it is if it is of the kind that was asked for;
/// an error comes through as what it says; and anything else is no answer.
pub proof fn law_replies_are_of_the_kind_asked_for(
    reply: PeerReply,
    forwarded: Result<ForwardedResponse, IoFailure>,
    prepared: Result<(), IoFailure>,
)
    requires
        call_ensures(forward_reply, (reply,), forwarded),
        call_ensures(ensure_data_group_reply, (reply,), prepared),
    ensures
        forwarded is Ok <==> reply is Forward,
        forwarded matches Ok(response) ==> reply == PeerReply::Forward(response),
        prepared is Ok <==> reply is Ready,
        reply matches PeerReply::Error(text) ==> forwarded is Err && forwarded->Err_0.message
            == text && prepared is Err && prepared->Err_0.message == text,
{
}

} // verus!
