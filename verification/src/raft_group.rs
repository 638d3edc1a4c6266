//! A replication group: what it writes to its log for each request, and what it
//! answers from what came of it.

use vstd::prelude::*;

use crate::engine::{duration_ms, millis_of, AckResult, BrokerError, Offset, PollResult, ReplayMessage};
use crate::keyed::SortedMap;
use crate::log_id::NodeId;
use crate::naming::{is_valid_name, validate_name};
use crate::state_machine::{identity_of, stream_identity, Command, CommandResponse};
use crate::storage::is_cluster_error;
use crate::text::join3;

verus! {

/// How long a delivery is held for its member unless another time is set, in
/// seconds.
pub const DEFAULT_RAFT_ACK_TIMEOUT_SECS: u64 = 30;

/// How long an election, or the answer of another node, is waited for, in
/// seconds.
pub const ELECTION_TIMEOUT_SECS: u64 = 2;

/// The time in milliseconds, from the time since the start of the epoch in whole
/// seconds and the nanoseconds beyond them. A clock that stands before the epoch
/// reads zero, and one that a number cannot hold is cut to its low bits.
pub open spec fn clock_reading(since_epoch: Option<(u64, u32)>) -> u64 {
    match since_epoch {
        Some((secs, nanos)) => ((secs * 1000 + nanos as int / 1_000_000) % 0x1_0000_0000_0000_0000)
            as u64,
        None => 0,
    }
}

/// The time since the start of the epoch, in whole seconds and the nanoseconds
/// beyond them, or nothing while the clock stands before it. This is
/// `std::time::SystemTime::elapsed` of `std::time::UNIX_EPOCH`; of the time
/// itself nothing is stated, only that the nanoseconds make less than a second.
#[verifier::external_body]
fn time_since_epoch() -> (r: Option<(u64, u32)>)
    ensures
        r matches Some((_, nanos)) ==> nanos < 1_000_000_000,
{
    match std::time::UNIX_EPOCH.elapsed() {
        Ok(span) => Some((span.as_secs(), span.subsec_nanos())),
        Err(_) => None,
    }
}

/// The time in milliseconds, from the time since the start of the epoch.
pub fn clock_ms(since_epoch: Option<(u64, u32)>) -> (r: u64)
    ensures
        r == clock_reading(since_epoch),
{
    match since_epoch {
        Some((secs, nanos)) => {
            let millis: u128 = (secs as u128) * 1000 + (nanos as u128) / 1_000_000;
            (millis % 0x1_0000_0000_0000_0000) as u64
        },
        None => 0,
    }
}

/// The time in milliseconds.
pub fn now_ms() -> (r: u64)
    ensures
        exists|since_epoch: Option<(u64, u32)>|
            #![trigger clock_reading(since_epoch)]
            r == clock_reading(since_epoch) && (since_epoch matches Some((_, nanos)) ==> nanos
                < 1_000_000_000),
{
    let since_epoch = time_since_epoch();
    clock_ms(since_epoch)
}

/// The settings of a replication group.
#[derive(Clone, Copy, Debug)]
pub struct RaftGroup {
    pub node_id: NodeId,
    pub ack_timeout_secs: u64,
    pub ack_timeout_nanos: u32,
    pub max_delivery_attempts: Option<u32>,
}

/// The end of a lease that begins now, or the last time there is.
pub open spec fn lease_deadline(now_ms: u64, ack_timeout_ms: u64) -> u64 {
    if now_ms + ack_timeout_ms <= u64::MAX {
        (now_ms + ack_timeout_ms) as u64
    } else {
        u64::MAX
    }
}

impl RaftGroup {
    /// A group that holds deliveries for the usual time and gives none up.
    pub fn with_defaults(node_id: NodeId) -> (r: Self)
        ensures
            r == (RaftGroup {
                node_id,
                ack_timeout_secs: DEFAULT_RAFT_ACK_TIMEOUT_SECS,
                ack_timeout_nanos: 0,
                max_delivery_attempts: None,
            }),
    {
        RaftGroup {
            node_id,
            ack_timeout_secs: DEFAULT_RAFT_ACK_TIMEOUT_SECS,
            ack_timeout_nanos: 0,
            max_delivery_attempts: None,
        }
    }

    /// The command that creates a stream, with the identity that its name gives
    /// it.
    pub fn create_stream_command(stream: String) -> (r: Command)
        ensures
            r matches Command::CreateStream { stream: s, stream_id: Some(i), group_id: Some(g) }
                && s == stream && (i@, g@) == identity_of(stream@),
    {
        let (stream_id, group_id) = stream_identity(stream.as_str());
        Command::CreateStream { stream, stream_id: Some(stream_id), group_id: Some(group_id) }
    }

    /// The command that publishes a message.
    pub fn publish_command(
        stream: String,
        key: Option<String>,
        payload: Vec<u8>,
        published_at_ms: u64,
        request_id: Option<String>,
    ) -> (r: Command)
        ensures
            r == (Command::Publish { stream, key, payload, published_at_ms, request_id }),
    {
        Command::Publish { stream, key, payload, published_at_ms, request_id }
    }

    /// The command that reads a message again, once both names are found good.
    pub fn replay_command(stream: String, consumer: String, offset: Offset) -> (r: Result<
        Command,
        BrokerError,
    >)
        ensures
            r is Ok <==> is_valid_name(stream@) && is_valid_name(consumer@),
            r matches Ok(command) ==> command == (Command::Replay { stream, consumer, offset }),
            r matches Err(error) ==> error matches BrokerError::InvalidName { kind, name } && (
            if !is_valid_name(stream@) {
                kind@ == "stream"@ && name@ == stream@
            } else {
                kind@ == "consumer"@ && name@ == consumer@
            }),
    {
        if let Err(error) = validate_name("stream", stream.as_str()) {
            return Err(error);
        }
        if let Err(error) = validate_name("consumer", consumer.as_str()) {
            return Err(error);
        }
        Ok(Command::Replay { stream, consumer, offset })
    }

    /// The command by which a member polls for its group, with the end of the
    /// lease that a delivery would get.
    pub fn poll_group_command(
        &self,
        stream: String,
        consumer: String,
        member: String,
        now_ms: u64,
    ) -> (r: Command)
        ensures
            r == (Command::PollGroup {
                stream,
                consumer,
                member,
                now_ms,
                lease_deadline_ms: lease_deadline(
                    now_ms,
                    millis_of(self.ack_timeout_secs, self.ack_timeout_nanos),
                ),
                max_delivery_attempts: self.max_delivery_attempts,
            }),
    {
        let ack_timeout_ms: u64 = duration_ms(self.ack_timeout_secs, self.ack_timeout_nanos);
        Command::PollGroup {
            stream,
            consumer,
            member,
            now_ms,
            lease_deadline_ms: now_ms.saturating_add(ack_timeout_ms),
            max_delivery_attempts: self.max_delivery_attempts,
        }
    }

    /// The command by which a plain consumer polls: it is the one member of a
    /// group of its own name.
    pub fn poll_command(&self, stream: String, consumer: String, now_ms: u64) -> (r: Command)
        ensures
            r == (Command::PollGroup {
                stream,
                consumer,
                member: consumer,
                now_ms,
                lease_deadline_ms: lease_deadline(
                    now_ms,
                    millis_of(self.ack_timeout_secs, self.ack_timeout_nanos),
                ),
                max_delivery_attempts: self.max_delivery_attempts,
            }),
    {
        let member = consumer.clone();
        self.poll_group_command(stream, consumer, member, now_ms)
    }

    /// The command by which a member acknowledges a delivery.
    pub fn ack_group_command(
        stream: String,
        consumer: String,
        member: String,
        offset: Offset,
        delivery_token: String,
        now_ms: u64,
    ) -> (r: Command)
        ensures
            r == (Command::AckGroup { stream, consumer, member, offset, delivery_token, now_ms }),
    {
        Command::AckGroup { stream, consumer, member, offset, delivery_token, now_ms }
    }

    /// The command by which a plain consumer acknowledges a delivery: as the one
    /// member of a group of its own name, and without a token.
    pub fn ack_command(stream: String, consumer: String, offset: Offset, now_ms: u64) -> (r:
        Command)
        ensures
            r matches Command::AckGroup {
                stream: s,
                consumer: c,
                member: m,
                offset: o,
                delivery_token: t,
                now_ms: n,
            } && s == stream && c == consumer && m == consumer && o == offset && t@.len() == 0 && n
                == now_ms,
    {
        let member = consumer.clone();
        Self::ack_group_command(stream, consumer, member, offset, String::new(), now_ms)
    }
}

/// What a text says of an answer that was not looked for. `described` is what
/// the answer looks like.
pub open spec fn unexpected(what: Seq<char>, described: Seq<char>) -> Seq<char> {
    "unexpected "@ + what + described
}

/// An error about an answer that was not looked for.
fn unexpected_response(what: &str, described: &str) -> (r: BrokerError)
    ensures
        is_cluster_error(r, unexpected(what@, described@)),
{
    BrokerError::Cluster(join3("unexpected ", what, described))
}

/// Whether a stream was created.
pub fn create_stream_answer(response: CommandResponse, described: &str) -> (r: Result<
    bool,
    BrokerError,
>)
    ensures
        match response {
            CommandResponse::StreamCreated { created } => r == Ok::<bool, BrokerError>(created),
            _ => r is Err && is_cluster_error(
                r->Err_0,
                unexpected("stream response: "@, described@),
            ),
        },
{
    match response {
        CommandResponse::StreamCreated { created } => Ok(created),
        _ => Err(unexpected_response("stream response: ", described)),
    }
}

/// Whether the data of a stream was set up.
pub fn initialize_data_stream_answer(response: CommandResponse, described: &str) -> (r: Result<
    bool,
    BrokerError,
>)
    ensures
        match response {
            CommandResponse::DataStreamInitialized { initialized } => r == Ok::<bool, BrokerError>(
                initialized,
            ),
            _ => r is Err && is_cluster_error(
                r->Err_0,
                unexpected("data-stream response: "@, described@),
            ),
        },
{
    match response {
        CommandResponse::DataStreamInitialized { initialized } => Ok(initialized),
        _ => Err(unexpected_response("data-stream response: ", described)),
    }
}

/// Whether a stream was activated.
pub fn activate_stream_answer(response: CommandResponse, described: &str) -> (r: Result<
    bool,
    BrokerError,
>)
    ensures
        match response {
            CommandResponse::StreamActivated { activated } => r == Ok::<bool, BrokerError>(
                activated,
            ),
            _ => r is Err && is_cluster_error(
                r->Err_0,
                unexpected("stream-activation response: "@, described@),
            ),
        },
{
    match response {
        CommandResponse::StreamActivated { activated } => Ok(activated),
        _ => Err(unexpected_response("stream-activation response: ", described)),
    }
}

/// Where a message was published.
pub fn publish_answer(stream: String, response: CommandResponse, described: &str) -> (r: Result<
    Offset,
    BrokerError,
>)
    ensures
        match response {
            CommandResponse::Published { offset } => r == Ok::<Offset, BrokerError>(offset),
            CommandResponse::StreamNotFound => r == Err::<Offset, BrokerError>(
                BrokerError::StreamNotFound(stream),
            ),
            _ => r is Err && is_cluster_error(
                r->Err_0,
                unexpected("publish response: "@, described@),
            ),
        },
{
    match response {
        CommandResponse::Published { offset } => Ok(offset),
        CommandResponse::StreamNotFound => Err(BrokerError::StreamNotFound(stream)),
        _ => Err(unexpected_response("publish response: ", described)),
    }
}

/// The message that was read again.
pub fn replay_answer(stream: String, response: CommandResponse, described: &str) -> (r: Result<
    ReplayMessage,
    BrokerError,
>)
    ensures
        match response {
            CommandResponse::Replay { result } => r == Ok::<ReplayMessage, BrokerError>(result),
            CommandResponse::HistoryUnavailable {
                requested_offset,
                earliest_offset,
                next_offset,
            } => r == Err::<ReplayMessage, BrokerError>(
                BrokerError::HistoryUnavailable {
                    stream,
                    requested_offset,
                    earliest_offset,
                    next_offset,
                },
            ),
            CommandResponse::StreamNotFound => r == Err::<ReplayMessage, BrokerError>(
                BrokerError::StreamNotFound(stream),
            ),
            _ => r is Err && is_cluster_error(
                r->Err_0,
                unexpected("replay response: "@, described@),
            ),
        },
{
    match response {
        CommandResponse::Replay { result } => Ok(result),
        CommandResponse::HistoryUnavailable { requested_offset, earliest_offset, next_offset } =>
            Err(
            BrokerError::HistoryUnavailable {
                stream,
                requested_offset,
                earliest_offset,
                next_offset,
            },
        ),
        CommandResponse::StreamNotFound => Err(BrokerError::StreamNotFound(stream)),
        _ => Err(unexpected_response("replay response: ", described)),
    }
}

/// What a member got from a poll.
pub fn poll_group_answer(stream: String, response: CommandResponse, described: &str) -> (r: Result<
    PollResult,
    BrokerError,
>)
    ensures
        match response {
            CommandResponse::GroupPoll { result } => r == Ok::<PollResult, BrokerError>(result),
            CommandResponse::StreamNotFound => r == Err::<PollResult, BrokerError>(
                BrokerError::StreamNotFound(stream),
            ),
            _ => r is Err && is_cluster_error(
                r->Err_0,
                unexpected("grouped poll response: "@, described@),
            ),
        },
{
    match response {
        CommandResponse::GroupPoll { result } => Ok(result),
        CommandResponse::StreamNotFound => Err(BrokerError::StreamNotFound(stream)),
        _ => Err(unexpected_response("grouped poll response: ", described)),
    }
}

/// What came of an acknowledgement.
pub fn ack_group_answer(
    stream: String,
    consumer: &String,
    response: CommandResponse,
    described: &str,
) -> (r: Result<AckResult, BrokerError>)
    ensures
        match response {
            CommandResponse::GroupAcknowledged => r == Ok::<AckResult, BrokerError>(
                AckResult::Acknowledged,
            ),
            CommandResponse::GroupAlreadyAcknowledged => r == Ok::<AckResult, BrokerError>(
                AckResult::AlreadyAcknowledged,
            ),
            CommandResponse::GroupAckNotInFlight { consumer: c, offset } => r == Err::<
                AckResult,
                BrokerError,
            >(BrokerError::AckNotInFlight { consumer: c, offset }),
            CommandResponse::GroupStaleDelivery { consumer: c, offset } => r == Err::<
                AckResult,
                BrokerError,
            >(BrokerError::StaleDelivery { consumer: c, offset }),
            CommandResponse::StreamNotFound => r == Err::<AckResult, BrokerError>(
                BrokerError::StreamNotFound(stream),
            ),
            _ => r is Err && is_cluster_error(
                r->Err_0,
                unexpected(
                    "grouped acknowledgement response for consumer '"@ + consumer@ + "': "@,
                    described@,
                ),
            ),
        },
{
    match response {
        CommandResponse::GroupAcknowledged => Ok(AckResult::Acknowledged),
        CommandResponse::GroupAlreadyAcknowledged => Ok(AckResult::AlreadyAcknowledged),
        CommandResponse::GroupAckNotInFlight { consumer, offset } => Err(
            BrokerError::AckNotInFlight { consumer, offset },
        ),
        CommandResponse::GroupStaleDelivery { consumer, offset } => Err(
            BrokerError::StaleDelivery { consumer, offset },
        ),
        CommandResponse::StreamNotFound => Err(BrokerError::StreamNotFound(stream)),
        _ => {
            let what = join3(
                "grouped acknowledgement response for consumer '",
                consumer.as_str(),
                "': ",
            );
            Err(unexpected_response(what.as_str(), described))
        },
    }
}

/// Why a command could not be written. `leader` is the leader, so far as it is
/// known, where only the leader may write; `text` is what the failure says.
pub fn map_client_write_error(leader: Option<Option<NodeId>>, text: String) -> (r: BrokerError)
    ensures
        match leader {
            Some(leader_id) => r == (BrokerError::NotLeader { leader_id }),
            None => r == BrokerError::Cluster(text),
        },
{
    match leader {
        Some(leader_id) => BrokerError::NotLeader { leader_id },
        None => BrokerError::Cluster(text),
    }
}

/// Where a poll is to be answered: here where this node leads, and otherwise by
/// the leader, if there is one.
pub fn poll_route(leader_id: Option<NodeId>, node_id: NodeId) -> (r: Result<
    Option<NodeId>,
    BrokerError,
>)
    ensures
        match leader_id {
            None => r == Err::<Option<NodeId>, BrokerError>(
                BrokerError::NotLeader { leader_id: None },
            ),
            Some(leader) => r == Ok::<Option<NodeId>, BrokerError>(
                if leader == node_id {
                    None
                } else {
                    Some(leader)
                },
            ),
        },
{
    match leader_id {
        None => Err(BrokerError::NotLeader { leader_id: None }),
        Some(leader) => if leader == node_id {
            Ok(None)
        } else {
            Ok(Some(leader))
        },
    }
}

/// Whether a request that failed here is to be forwarded, and who is taken to
/// lead; any other failure stands.
pub fn forward_after(error: BrokerError) -> (r: Result<Option<NodeId>, BrokerError>)
    ensures
        match error {
            BrokerError::NotLeader { leader_id } => r == Ok::<Option<NodeId>, BrokerError>(
                leader_id,
            ),
            _ => r == Err::<Option<NodeId>, BrokerError>(error),
        },
{
    match error {
        BrokerError::NotLeader { leader_id } => Ok(leader_id),
        error => Err(error),
    }
}

/// Whether a cluster can say how it is: it must be initialized and have a leader.
pub fn health_gate(initialized: bool, leader_id: Option<NodeId>) -> (r: Result<(), BrokerError>)
    ensures
        r is Ok <==> initialized && leader_id is Some,
        r matches Err(error) ==> is_cluster_error(
            error,
            if initialized {
                "cluster has no elected leader"@
            } else {
                "cluster is not initialized"@
            },
        ),
{
    if !initialized {
        return Err(BrokerError::Cluster("cluster is not initialized".to_owned()));
    }
    match leader_id {
        Some(_) => Ok(()),
        None => Err(BrokerError::Cluster("cluster has no elected leader".to_owned())),
    }
}

/// Whether a limit on deliveries is one that can be kept.
pub fn validate_delivery_limit(max_delivery_attempts: Option<u32>) -> (r: Result<(), BrokerError>)
    ensures
        r is Ok <==> max_delivery_attempts != Some(0u32),
        r matches Err(error) ==> error matches BrokerError::Configuration(message) && message@
            == "max delivery attempts must be greater than zero"@,
{
    match max_delivery_attempts {
        Some(limit) => if limit == 0 {
            Err(
                BrokerError::Configuration(
                    "max delivery attempts must be greater than zero".to_owned(),
                ),
            )
        } else {
            Ok(())
        },
        None => Ok(()),
    }
}

/// Whether there are any nodes to make a cluster of.
pub fn validate_cluster(nodes: &Vec<NodeId>) -> (r: Result<(), BrokerError>)
    ensures
        r is Ok <==> nodes@.len() > 0,
        r matches Err(error) ==> is_cluster_error(error, "cluster must contain at least one node"@),
{
    if nodes.len() == 0 {
        Err(BrokerError::Cluster("cluster must contain at least one node".to_owned()))
    } else {
        Ok(())
    }
}

/// The first leader that any of the nodes names and that is one of the cluster.
pub open spec fn first_leader(known: Seq<Option<NodeId>>, members: Set<u64>) -> Option<NodeId>
    decreases known.len(),
{
    if known.len() == 0 {
        None
    } else {
        match known[0] {
            Some(leader) if members.contains(leader) => Some(leader),
            _ => first_leader(known.drop_first(), members),
        }
    }
}

/// The leader of a cluster, from what its nodes say in order: the first that is a
/// member.
pub fn leader_among(known: &Vec<Option<NodeId>>, members: &SortedMap<u64, String>) -> (r: Option<
    NodeId,
>)
    ensures
        r == first_leader(known@, members@.dom()),
{
    let mut i: usize = 0;
    proof {
        assert(known@.skip(0) =~= known@);
    }
    while i < known.len()
        invariant
            i <= known@.len(),
            first_leader(known@.skip(i as int), members@.dom()) == first_leader(
                known@,
                members@.dom(),
            ),
        decreases known@.len() - i,
    {
        proof {
            assert(known@.skip(i as int).drop_first() =~= known@.skip(i + 1));
        }
        if let Some(leader) = known[i] {
            if members.contains(&leader) {
                return Some(leader);
            }
        }
        i += 1;
    }
    None
}

/// A lease lasts for the acknowledgement timeout, to the millisecond: a delivery is held
/// until the time of its poll and the timeout together, or to the end of all time where
/// no number says that.
pub proof fn law_leases_last_for_the_timeout(
    group: RaftGroup,
    stream: String,
    consumer: String,
    member: String,
    now_ms: u64,
    command: Command,
)
    requires
        call_ensures(
            RaftGroup::poll_group_command,
            (&group, stream, consumer, member, now_ms),
            command,
        ),
        group.ack_timeout_nanos < 1_000_000_000,
    ensures
        command is PollGroup,
        command->PollGroup_stream == stream,
        command->PollGroup_consumer == consumer,
        command->PollGroup_member == member,
        command->PollGroup_now_ms == now_ms,
        command->PollGroup_max_delivery_attempts == group.max_delivery_attempts,
        ({
            let end = command->lease_deadline_ms;
            let nanos = 1_000_000_000 * group.ack_timeout_secs + group.ack_timeout_nanos;
            &&& end < u64::MAX ==> 1_000_000 * (end - now_ms) <= nanos < 1_000_000 * (end - now_ms
                + 1)
            &&& end == u64::MAX ==> 1_000_000 * (u64::MAX - now_ms) <= nanos
        }),
{
}

/// A plain consumer polls and acknowledges as the one member of a group of its own name,
/// and needs no token.
pub proof fn law_plain_consumers_are_groups_of_one(
    group: RaftGroup,
    stream: String,
    consumer: String,
    offset: Offset,
    now_ms: u64,
    poll: Command,
    grouped: Command,
    ack: Command,
)
    requires
        call_ensures(RaftGroup::poll_command, (&group, stream, consumer, now_ms), poll),
        call_ensures(
            RaftGroup::poll_group_command,
            (&group, stream, consumer, consumer, now_ms),
            grouped,
        ),
        call_ensures(RaftGroup::ack_command, (stream, consumer, offset, now_ms), ack),
    ensures
        poll == grouped,
        ack is AckGroup,
        ack->AckGroup_stream@ == stream@,
        ack->AckGroup_consumer@ == consumer@,
        ack->AckGroup_member@ == consumer@,
        ack->AckGroup_offset == offset,
        ack->AckGroup_now_ms == now_ms,
        ack->delivery_token@ == Seq::<char>::empty(),
{
    assert(ack->delivery_token@ =~= Seq::<char>::empty());
}

/// What a client says is what the log is told: a publication, a creation, a replay and an
/// acknowledgement are written with all that they came with, and a replay only under
/// good names.
pub proof fn law_requests_are_written_as_they_come(
    stream: String,
    consumer: String,
    member: String,
    key: Option<String>,
    payload: Vec<u8>,
    published_at_ms: u64,
    request_id: Option<String>,
    offset: Offset,
    token: String,
    now_ms: u64,
    create: Command,
    publish: Command,
    replay: Result<Command, BrokerError>,
    ack: Command,
)
    requires
        call_ensures(RaftGroup::create_stream_command, (stream,), create),
        call_ensures(
            RaftGroup::publish_command,
            (stream, key, payload, published_at_ms, request_id),
            publish,
        ),
        call_ensures(RaftGroup::replay_command, (stream, consumer, offset), replay),
        call_ensures(
            RaftGroup::ack_group_command,
            (stream, consumer, member, offset, token, now_ms),
            ack,
        ),
    ensures
        create is CreateStream,
        create->CreateStream_stream@ == stream@,
        create->CreateStream_stream_id is Some,
        create->CreateStream_stream_id->0@ == "stream/"@ + stream@,
        create->CreateStream_group_id is Some,
        create->CreateStream_group_id->0@ == "group/"@ + stream@ + "/data"@,
        publish is Publish,
        publish->Publish_stream == stream,
        publish->key == key,
        publish->payload == payload,
        publish->published_at_ms == published_at_ms,
        publish->request_id == request_id,
        replay matches Ok(command) ==> {
            &&& command is Replay
            &&& command->Replay_stream == stream
            &&& command->Replay_consumer == consumer
            &&& command->Replay_offset == offset
        },
        replay is Ok <==> is_valid_name(stream@) && is_valid_name(consumer@),
        ack is AckGroup,
        ack->AckGroup_stream == stream,
        ack->AckGroup_consumer == consumer,
        ack->AckGroup_member == member,
        ack->AckGroup_offset == offset,
        ack->delivery_token == token,
        ack->AckGroup_now_ms == now_ms,
{
}

/// What the log answers is what is told of it. Success is told only of what succeeded,
/// with what it brought; a refusal is told as that refusal, with the same names and
/// numbers.
pub proof fn law_answers_are_told_as_they_are(
    stream: String,
    consumer: String,
    response: CommandResponse,
    described: &'static str,
    created: Result<bool, BrokerError>,
    published: Result<Offset, BrokerError>,
    replayed: Result<ReplayMessage, BrokerError>,
    polled: Result<PollResult, BrokerError>,
    acknowledged: Result<AckResult, BrokerError>,
)
    requires
        call_ensures(create_stream_answer, (response, described), created),
        call_ensures(publish_answer, (stream, response, described), published),
        call_ensures(replay_answer, (stream, response, described), replayed),
        call_ensures(poll_group_answer, (stream, response, described), polled),
        call_ensures(ack_group_answer, (stream, &consumer, response, described), acknowledged),
    ensures
        created matches Ok(was) ==> response == (CommandResponse::StreamCreated { created: was }),
        published matches Ok(offset) ==> response == (CommandResponse::Published { offset }),
        replayed matches Ok(result) ==> response == (CommandResponse::Replay { result }),
        polled matches Ok(result) ==> response == (CommandResponse::GroupPoll { result }),
        acknowledged == Ok::<AckResult, BrokerError>(AckResult::Acknowledged)
            <==> response is GroupAcknowledged,
        acknowledged == Ok::<AckResult, BrokerError>(AckResult::AlreadyAcknowledged)
            <==> response is GroupAlreadyAcknowledged,
        response is StreamCreated ==> created is Ok,
        response is Published ==> published is Ok,
        response is Replay ==> replayed is Ok,
        response is GroupPoll ==> polled is Ok,
        response is StreamNotFound ==> {
            &&& published == Err::<Offset, BrokerError>(BrokerError::StreamNotFound(stream))
            &&& replayed == Err::<ReplayMessage, BrokerError>(BrokerError::StreamNotFound(stream))
            &&& polled == Err::<PollResult, BrokerError>(BrokerError::StreamNotFound(stream))
            &&& acknowledged == Err::<AckResult, BrokerError>(BrokerError::StreamNotFound(stream))
        },
        response matches CommandResponse::HistoryUnavailable {
            requested_offset,
            earliest_offset,
            next_offset,
        } ==> replayed matches Err(BrokerError::HistoryUnavailable {
            stream: of,
            requested_offset: asked,
            earliest_offset: from,
            next_offset: to,
        }) && of == stream && asked == requested_offset && from == earliest_offset && to
            == next_offset,
        response matches CommandResponse::GroupStaleDelivery { consumer: by, offset }
            ==> acknowledged == Err::<AckResult, BrokerError>(
            BrokerError::StaleDelivery { consumer: by, offset },
        ),
        response matches CommandResponse::GroupAckNotInFlight { consumer: by, offset }
            ==> acknowledged == Err::<AckResult, BrokerError>(
            BrokerError::AckNotInFlight { consumer: by, offset },
        ),
{
}

/// The leader of a cluster is one of its members that some node names, and no node before
/// that one names a member; there is none only if no node names a member.
pub proof fn law_the_first_member_named_leads(known: Seq<Option<NodeId>>, members: Set<u64>)
    ensures
        match first_leader(known, members) {
            Some(leader) => members.contains(leader) && exists|i: int|
                {
                    &&& 0 <= i < known.len()
                    &&& #[trigger] known[i] == Some(leader)
                    &&& forall|j: int|
                        0 <= j < i ==> (#[trigger] known[j] is None || !members.contains(
                            known[j]->0,
                        ))
                },
            None => forall|i: int|
                0 <= i < known.len() ==> (#[trigger] known[i] is None || !members.contains(
                    known[i]->0,
                )),
        },
    decreases known.len(),
{
    if known.len() > 0 {
        let rest = known.drop_first();
        law_the_first_member_named_leads(rest, members);
        let here = known[0] is Some && members.contains(known[0]->0);
        if !here {
            match first_leader(rest, members) {
                Some(leader) => {
                    let i = choose|i: int|
                        {
                            &&& 0 <= i < rest.len()
                            &&& #[trigger] rest[i] == Some(leader)
                            &&& forall|j: int|
                                0 <= j < i ==> (#[trigger] rest[j] is None || !members.contains(
                                    rest[j]->0,
                                ))
                        };
                    assert(known[i + 1] == Some(leader));
                    assert forall|j: int| 0 <= j < i + 1 implies (#[trigger] known[j] is None
                        || !members.contains(known[j]->0)) by {
                        if j > 0 {
                            assert(rest[j - 1] == known[j]);
                        }
                    }
                },
                None => {
                    assert forall|i: int| 0 <= i < known.len() implies (#[trigger] known[i] is None
                        || !members.contains(known[i]->0)) by {
                        if i > 0 {
                            assert(rest[i - 1] == known[i]);
                        }
                    }
                },
            }
        }
    }
}

/// A poll is answered by the node that leads: here if that is this node, and elsewhere if
/// it is another. What failed for want of the leader is tried there, and no other failure
/// is. A limit of no deliveries at all is refused, and a cluster of no nodes.
pub proof fn law_the_leader_answers(
    leader_id: Option<NodeId>,
    node_id: NodeId,
    error: BrokerError,
    limit: Option<u32>,
    nodes: Vec<NodeId>,
    route: Result<Option<NodeId>, BrokerError>,
    forward: Result<Option<NodeId>, BrokerError>,
    limited: Result<(), BrokerError>,
    clustered: Result<(), BrokerError>,
)
    requires
        call_ensures(poll_route, (leader_id, node_id), route),
        call_ensures(forward_after, (error,), forward),
        call_ensures(validate_delivery_limit, (limit,), limited),
        call_ensures(validate_cluster, (&nodes,), clustered),
    ensures
        route is Err <==> leader_id is None,
        route == Ok::<Option<NodeId>, BrokerError>(None) <==> leader_id == Some(node_id),
        route matches Ok(Some(other)) ==> leader_id == Some(other) && other != node_id,
        forward is Ok <==> error is NotLeader,
        forward matches Ok(leader) ==> error == (BrokerError::NotLeader { leader_id: leader }),
        forward matches Err(same) ==> same == error,
        limited is Err <==> limit is Some && limit->0 == 0,
        clustered is Err <==> nodes@.len() == 0,
{
}

} // verus!
