//! What a node answers to an operation that another node forwarded to it.

use vstd::prelude::*;

use crate::dispatch::EngineFailure;
use crate::engine::{AckResult, Offset, PollResult, ReplayMessage};
use crate::network::{
    forward_error, forwarded_error, ForwardError, ForwardedOperation, ForwardedResponse,
};
use crate::text::join3;

verus! {

/// What came of a forwarded operation on this node.
#[derive(Debug)]
pub enum LocalOutcome {
    CreateStream(Result<bool, EngineFailure>),
    Publish(Result<Offset, EngineFailure>),
    Poll(Result<PollResult, EngineFailure>),
    Replay(Result<ReplayMessage, EngineFailure>),
    Ack(Result<AckResult, EngineFailure>),
    PollGroup(Result<PollResult, EngineFailure>),
    AckGroup(Result<AckResult, EngineFailure>),
    InitializeDataStream(Result<bool, EngineFailure>),
}

/// A result as it goes to the node that forwarded an operation.
pub open spec fn forwarded<T>(outcome: Result<T, EngineFailure>) -> Result<T, ForwardError> {
    match outcome {
        Ok(value) => Ok(value),
        Err(failure) => Err(forwarded_error(failure.error, failure.text)),
    }
}

/// A result as it goes to the node that forwarded an operation.
fn forward_result<T>(outcome: Result<T, EngineFailure>) -> (r: Result<T, ForwardError>)
    ensures
        r == forwarded(outcome),
{
    match outcome {
        Ok(value) => Ok(value),
        Err(failure) => Err(forward_error(failure.error, failure.text)),
    }
}

/// The answer to a forwarded operation, from what came of it on this node.
pub open spec fn forwarded_answer(outcome: LocalOutcome) -> ForwardedResponse {
    match outcome {
        LocalOutcome::CreateStream(result) => ForwardedResponse::CreateStream(forwarded(result)),
        LocalOutcome::Publish(result) => ForwardedResponse::Publish(forwarded(result)),
        LocalOutcome::Poll(result) => ForwardedResponse::Poll(forwarded(result)),
        LocalOutcome::Replay(result) => ForwardedResponse::Replay(forwarded(result)),
        LocalOutcome::Ack(result) => ForwardedResponse::Ack(forwarded(result)),
        LocalOutcome::PollGroup(result) => ForwardedResponse::PollGroup(forwarded(result)),
        LocalOutcome::AckGroup(result) => ForwardedResponse::AckGroup(forwarded(result)),
        LocalOutcome::InitializeDataStream(result) => ForwardedResponse::InitializeDataStream(
            forwarded(result),
        ),
    }
}

/// The answer to a forwarded operation, from what came of it on this node.
pub fn answer_forwarded(outcome: LocalOutcome) -> (r: ForwardedResponse)
    ensures
        r == forwarded_answer(outcome),
{
    match outcome {
        LocalOutcome::CreateStream(result) => ForwardedResponse::CreateStream(
            forward_result(result),
        ),
        LocalOutcome::Publish(result) => ForwardedResponse::Publish(forward_result(result)),
        LocalOutcome::Poll(result) => ForwardedResponse::Poll(forward_result(result)),
        LocalOutcome::Replay(result) => ForwardedResponse::Replay(forward_result(result)),
        LocalOutcome::Ack(result) => ForwardedResponse::Ack(forward_result(result)),
        LocalOutcome::PollGroup(result) => ForwardedResponse::PollGroup(forward_result(result)),
        LocalOutcome::AckGroup(result) => ForwardedResponse::AckGroup(forward_result(result)),
        LocalOutcome::InitializeDataStream(result) => ForwardedResponse::InitializeDataStream(
            forward_result(result),
        ),
    }
}

/// An outcome is one of an operation.
pub open spec fn is_outcome_of(outcome: LocalOutcome, operation: ForwardedOperation) -> bool {
    match operation {
        ForwardedOperation::CreateStream { .. } => outcome is CreateStream,
        ForwardedOperation::Publish { .. } => outcome is Publish,
        ForwardedOperation::Poll { .. } => outcome is Poll,
        ForwardedOperation::Replay { .. } => outcome is Replay,
        ForwardedOperation::Ack { .. } => outcome is Ack,
        ForwardedOperation::PollGroup { .. } => outcome is PollGroup,
        ForwardedOperation::AckGroup { .. } => outcome is AckGroup,
        ForwardedOperation::InitializeDataStream { .. } => outcome is InitializeDataStream,
    }
}

/// An answer is one to an operation.
pub open spec fn is_answer_to(response: ForwardedResponse, operation: ForwardedOperation) -> bool {
    match operation {
        ForwardedOperation::CreateStream { .. } => response is CreateStream,
        ForwardedOperation::Publish { .. } => response is Publish,
        ForwardedOperation::Poll { .. } => response is Poll,
        ForwardedOperation::Replay { .. } => response is Replay,
        ForwardedOperation::Ack { .. } => response is Ack,
        ForwardedOperation::PollGroup { .. } => response is PollGroup,
        ForwardedOperation::AckGroup { .. } => response is AckGroup,
        ForwardedOperation::InitializeDataStream { .. } => response is InitializeDataStream,
    }
}

/// The node that forwarded an operation gets an answer of the kind that it waits
/// for.
pub proof fn law_answers_fit_their_operations(
    operation: ForwardedOperation,
    outcome: LocalOutcome,
)
    requires
        is_outcome_of(outcome, operation),
    ensures
        is_answer_to(forwarded_answer(outcome), operation),
{
}

/// Whether this node may answer a poll that was forwarded to it: it must hold the
/// group of the stream and lead it. `leader_id` is the leader of that group, so
/// far as it is known.
pub fn admit_forwarded_poll(has_group: bool, leader_id: Option<u64>, node_id: u64) -> (r: Result<
    (),
    ForwardError,
>)
    ensures
        if !has_group {
            r matches Err(ForwardError::Message(text)) && text@
                == "stream data group is unavailable"@
        } else if leader_id != Some(node_id) {
            r == Err::<(), ForwardError>(ForwardError::NotLeader { leader_id })
        } else {
            r is Ok
        },
{
    if !has_group {
        return Err(ForwardError::Message("stream data group is unavailable".to_owned()));
    }
    match leader_id {
        Some(leader) => if leader == node_id {
            Ok(())
        } else {
            Err(ForwardError::NotLeader { leader_id })
        },
        None => Err(ForwardError::NotLeader { leader_id }),
    }
}

/// What is said of a group that a node does not know.
pub fn unknown_group(group_id: &str) -> (r: String)
    ensures
        r@ == "unknown Raft group '"@ + group_id@ + "'"@,
{
    join3("unknown Raft group '", group_id, "'")
}

/// A poll that was forwarded is answered here if this node holds the group of the stream and
/// leads it; otherwise the one that forwarded it is told who leads, or that there is no
/// such group.
pub proof fn law_forwarded_polls_are_answered_by_the_leader(
    has_group: bool,
    leader_id: Option<u64>,
    node_id: u64,
    admitted: Result<(), ForwardError>,
)
    requires
        call_ensures(admit_forwarded_poll, (has_group, leader_id, node_id), admitted),
    ensures
        admitted is Ok <==> has_group && leader_id is Some && leader_id->0 == node_id,
        has_group && admitted is Err ==> admitted->Err_0 == (ForwardError::NotLeader { leader_id }),
        !has_group ==> admitted->Err_0 is Message,
{
}

} // verus!
