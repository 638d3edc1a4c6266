//! The replicated state and the commands that change it.

use vstd::prelude::*;

use crate::delivery::{
    apply_group_ack, apply_group_poll, group_ack_step, group_poll_step, stream_is_active,
    GroupAckRequest, GroupConsumerState, GroupConsumerView, GroupPollRequest,
};
use crate::engine::{
    Offset, PollResult, PollResultView, ReplayMessage, ReplayMessageView,
};
use crate::keyed::SortedMap;
use crate::log_id::LogId;
use crate::text::{copy_bytes, copy_optional, join3};

verus! {

/// A command of the replicated log.
#[derive(Debug)]
#[allow(inconsistent_fields)]
pub enum Command {
    CreateStream { stream: String, stream_id: Option<String>, group_id: Option<String> },
    InitializeDataStream { stream: String, stream_id: String, group_id: String },
    ActivateStream { stream: String },
    Publish {
        stream: String,
        key: Option<String>,
        payload: Vec<u8>,
        published_at_ms: u64,
        request_id: Option<String>,
    },
    Ack { stream: String, consumer: String, offset: Offset },
    Replay { stream: String, consumer: String, offset: Offset },
    PollGroup {
        stream: String,
        consumer: String,
        member: String,
        now_ms: u64,
        lease_deadline_ms: u64,
        max_delivery_attempts: Option<u32>,
    },
    AckGroup {
        stream: String,
        consumer: String,
        member: String,
        offset: Offset,
        delivery_token: String,
        now_ms: u64,
    },
}

/// What a command came to.
#[derive(Debug, PartialEq, Eq)]
#[allow(inconsistent_fields)]
pub enum CommandResponse {
    StreamCreated { created: bool },
    DataStreamInitialized { initialized: bool },
    StreamActivated { activated: bool },
    Published { offset: Offset },
    Acknowledged,
    AlreadyAcknowledged,
    OutOfOrderAck { expected: Offset, received: Offset },
    GroupPoll { result: PollResult },
    Replay { result: ReplayMessage },
    HistoryUnavailable {
        requested_offset: Offset,
        earliest_offset: Offset,
        next_offset: Offset,
    },
    GroupAcknowledged,
    GroupAlreadyAcknowledged,
    GroupAckNotInFlight { consumer: String, offset: Offset },
    GroupStaleDelivery { consumer: String, offset: Offset },
    StreamNotFound,
    Noop,
}

/// What the outcome of a command says.
#[verifier::ext_equal]
#[allow(inconsistent_fields)]
pub enum ResponseView {
    StreamCreated { created: bool },
    DataStreamInitialized { initialized: bool },
    StreamActivated { activated: bool },
    Published { offset: Offset },
    Acknowledged,
    AlreadyAcknowledged,
    OutOfOrderAck { expected: Offset, received: Offset },
    GroupPoll { result: PollResultView },
    Replay { result: ReplayMessageView },
    HistoryUnavailable {
        requested_offset: Offset,
        earliest_offset: Offset,
        next_offset: Offset,
    },
    GroupAcknowledged,
    GroupAlreadyAcknowledged,
    GroupAckNotInFlight { consumer: Seq<char>, offset: Offset },
    GroupStaleDelivery { consumer: Seq<char>, offset: Offset },
    StreamNotFound,
    Noop,
}

impl View for CommandResponse {
    type V = ResponseView;

    open spec fn view(&self) -> ResponseView {
        match *self {
            CommandResponse::StreamCreated { created } => ResponseView::StreamCreated { created },
            CommandResponse::DataStreamInitialized { initialized } =>
                ResponseView::DataStreamInitialized { initialized },
            CommandResponse::StreamActivated { activated } => ResponseView::StreamActivated {
                activated,
            },
            CommandResponse::Published { offset } => ResponseView::Published { offset },
            CommandResponse::Acknowledged => ResponseView::Acknowledged,
            CommandResponse::AlreadyAcknowledged => ResponseView::AlreadyAcknowledged,
            CommandResponse::OutOfOrderAck { expected, received } => ResponseView::OutOfOrderAck {
                expected,
                received,
            },
            CommandResponse::GroupPoll { result } => ResponseView::GroupPoll { result: result@ },
            CommandResponse::Replay { result } => ResponseView::Replay { result: result@ },
            CommandResponse::HistoryUnavailable {
                requested_offset,
                earliest_offset,
                next_offset,
            } => ResponseView::HistoryUnavailable {
                requested_offset,
                earliest_offset,
                next_offset,
            },
            CommandResponse::GroupAcknowledged => ResponseView::GroupAcknowledged,
            CommandResponse::GroupAlreadyAcknowledged => ResponseView::GroupAlreadyAcknowledged,
            CommandResponse::GroupAckNotInFlight { consumer, offset } =>
                ResponseView::GroupAckNotInFlight { consumer: consumer@, offset },
            CommandResponse::GroupStaleDelivery { consumer, offset } =>
                ResponseView::GroupStaleDelivery { consumer: consumer@, offset },
            CommandResponse::StreamNotFound => ResponseView::StreamNotFound,
            CommandResponse::Noop => ResponseView::Noop,
        }
    }
}

/// A message as a stream keeps it.
#[derive(Debug)]
pub struct StoredMessage {
    pub key: Option<String>,
    pub payload: Vec<u8>,
    pub published_at_ms: u64,
}

/// What a kept message says.
#[verifier::ext_equal]
pub struct StoredMessageView {
    pub key: Option<Seq<char>>,
    pub payload: Seq<u8>,
    pub published_at_ms: u64,
}

impl View for StoredMessage {
    type V = StoredMessageView;

    open spec fn view(&self) -> StoredMessageView {
        StoredMessageView {
            key: self.key.deep_view(),
            payload: self.payload@,
            published_at_ms: self.published_at_ms,
        }
    }
}

impl StoredMessage {
    /// A copy of this message.
    pub fn copy(&self) -> (r: Self)
        ensures
            r@ == self@,
    {
        StoredMessage {
            key: copy_optional(&self.key),
            payload: copy_bytes(&self.payload),
            published_at_ms: self.published_at_ms,
        }
    }
}

/// What a list of kept messages says.
pub open spec fn messages_view(messages: Seq<StoredMessage>) -> Seq<StoredMessageView> {
    messages.map_values(|m: StoredMessage| m@)
}

/// How far a stream has come into being.
#[derive(Clone, Copy, Debug, PartialEq, Eq, Structural)]
pub enum StreamLifecycle {
    Creating,
    Active,
}

impl Default for StreamLifecycle {
    fn default() -> (r: Self)
        ensures
            r == StreamLifecycle::Active,
    {
        StreamLifecycle::Active
    }
}

/// The identity of a stream and how far it has come into being.
#[derive(Debug, PartialEq, Eq)]
pub struct StreamMetadata {
    pub stream_id: String,
    pub group_id: String,
    pub lifecycle: StreamLifecycle,
}

/// What the metadata of a stream says.
#[verifier::ext_equal]
pub struct StreamMetadataView {
    pub stream_id: Seq<char>,
    pub group_id: Seq<char>,
    pub lifecycle: StreamLifecycle,
}

impl View for StreamMetadata {
    type V = StreamMetadataView;

    open spec fn view(&self) -> StreamMetadataView {
        StreamMetadataView {
            stream_id: self.stream_id@,
            group_id: self.group_id@,
            lifecycle: self.lifecycle,
        }
    }
}

/// A stream: its identity and its messages, each at its offset.
#[derive(Debug)]
pub struct StreamState {
    pub stream_id: String,
    pub group_id: String,
    pub lifecycle: StreamLifecycle,
    pub messages: Vec<StoredMessage>,
}

/// What a stream holds.
#[verifier::ext_equal]
pub struct StreamView {
    pub stream_id: Seq<char>,
    pub group_id: Seq<char>,
    pub lifecycle: StreamLifecycle,
    pub messages: Seq<StoredMessageView>,
}

impl View for StreamState {
    type V = StreamView;

    open spec fn view(&self) -> StreamView {
        StreamView {
            stream_id: self.stream_id@,
            group_id: self.group_id@,
            lifecycle: self.lifecycle,
            messages: messages_view(self.messages@),
        }
    }
}

/// What a replication group is for.
#[derive(Debug, PartialEq, Eq)]
pub enum GroupKind {
    Combined,
    Metadata,
    Data { stream: String, stream_id: String, group_id: String },
}

impl Default for GroupKind {
    fn default() -> (r: Self)
        ensures
            r is Combined,
    {
        GroupKind::Combined
    }
}

/// The replicated state.
#[derive(Debug)]
pub struct SnapshotState {
    pub streams: SortedMap<String, StreamState>,
    pub consumers: SortedMap<(String, String), Offset>,
    pub group_consumers: SortedMap<(String, String), GroupConsumerState>,
    /// The highest time that any grouped command has brought: a replicated
    /// floor under the clock by which leases expire.
    pub lease_clock_ms: u64,
    pub dedup: SortedMap<String, SortedMap<String, Offset>>,
    pub redeliveries: u64,
    pub dead_letters: u64,
}

/// What the replicated state holds.
#[verifier::ext_equal]
pub struct SnapshotView {
    pub streams: Map<Seq<char>, StreamView>,
    pub consumers: Map<(Seq<char>, Seq<char>), Offset>,
    pub group_consumers: Map<(Seq<char>, Seq<char>), GroupConsumerView>,
    pub lease_clock_ms: u64,
    pub dedup: Map<Seq<char>, Map<Seq<char>, Offset>>,
    pub redeliveries: u64,
    pub dead_letters: u64,
}

impl View for SnapshotState {
    type V = SnapshotView;

    open spec fn view(&self) -> SnapshotView {
        SnapshotView {
            streams: self.streams@,
            consumers: self.consumers@,
            group_consumers: self.group_consumers@,
            lease_clock_ms: self.lease_clock_ms,
            dedup: self.dedup@,
            redeliveries: self.redeliveries,
            dead_letters: self.dead_letters,
        }
    }
}

/// The state before any command.
pub open spec fn empty_state() -> SnapshotView {
    SnapshotView {
        streams: Map::empty(),
        consumers: Map::empty(),
        group_consumers: Map::empty(),
        lease_clock_ms: 0,
        dedup: Map::empty(),
        redeliveries: 0,
        dead_letters: 0,
    }
}

impl Default for SnapshotState {
    fn default() -> (r: Self)
        ensures
            r@ == empty_state(),
    {
        SnapshotState {
            streams: SortedMap::new(),
            consumers: SortedMap::new(),
            group_consumers: SortedMap::new(),
            lease_clock_ms: 0,
            dedup: SortedMap::new(),
            redeliveries: 0,
            dead_letters: 0,
        }
    }
}

/// The stream identity and the group identity that a stream's name gives it.
pub open spec fn identity_of(stream: Seq<char>) -> (Seq<char>, Seq<char>) {
    ("stream/"@ + stream, "group/"@ + stream + "/data"@)
}

/// The stream identity and the group identity that a stream's name gives it.
pub fn stream_identity(stream: &str) -> (r: (String, String))
    ensures
        (r.0@, r.1@) == identity_of(stream@),
{
    let stream_id = join3("stream/", stream, "");
    proof {
        reveal_strlit("");
        assert("stream/"@ + stream@ + ""@ =~= "stream/"@ + stream@);
    }
    (stream_id, join3("group/", stream, "/data"))
}

/// A stream that is active and has no message.
pub open spec fn fresh_stream(identity: (Seq<char>, Seq<char>)) -> StreamView {
    StreamView {
        stream_id: identity.0,
        group_id: identity.1,
        lifecycle: StreamLifecycle::Active,
        messages: Seq::empty(),
    }
}

/// What a stream says of itself: its own identity, or where that is empty the
/// one that its name gives it.
pub open spec fn metadata_of(stream: Seq<char>, state: StreamView) -> StreamMetadataView {
    StreamMetadataView {
        stream_id: if state.stream_id.len() == 0 {
            identity_of(stream).0
        } else {
            state.stream_id
        },
        group_id: if state.group_id.len() == 0 {
            identity_of(stream).1
        } else {
            state.group_id
        },
        lifecycle: state.lifecycle,
    }
}

impl StreamState {
    /// A stream that is active and has no message.
    pub fn active(stream_id: String, group_id: String) -> (r: Self)
        ensures
            r@ == fresh_stream((stream_id@, group_id@)),
    {
        let r = StreamState {
            stream_id,
            group_id,
            lifecycle: StreamLifecycle::Active,
            messages: Vec::new(),
        };
        proof {
            assert(r@.messages =~= Seq::<StoredMessageView>::empty());
        }
        r
    }

    /// What this stream says of itself under its name.
    pub fn metadata(&self, stream: &str) -> (r: StreamMetadata)
        ensures
            r@ == metadata_of(stream@, self@),
    {
        let (stream_id, group_id) = stream_identity(stream);
        StreamMetadata {
            stream_id: if self.stream_id.as_str().is_empty() {
                stream_id
            } else {
                self.stream_id.clone()
            },
            group_id: if self.group_id.as_str().is_empty() {
                group_id
            } else {
                self.group_id.clone()
            },
            lifecycle: self.lifecycle,
        }
    }

    /// Whether this stream takes messages and deliveries.
    pub fn is_active(&self) -> (r: bool)
        ensures
            r == (self@.lifecycle == StreamLifecycle::Active),
    {
        self.lifecycle == StreamLifecycle::Active
    }
}

/// A stream as it comes into being, or as it is.
pub open spec fn stream_or_fresh(
    streams: Map<Seq<char>, StreamView>,
    stream: Seq<char>,
) -> StreamView {
    if streams.contains_key(stream) {
        streams[stream]
    } else {
        fresh_stream(identity_of(stream))
    }
}

/// What the creation of a stream does: a new stream takes the identity that it
/// is given or else the one that its name gives it. It is active at once, but in
/// a metadata group it waits to be activated. A data group creates no stream.
pub open spec fn create_step(
    state: SnapshotView,
    stream: Seq<char>,
    stream_id: Option<Seq<char>>,
    group_id: Option<Seq<char>>,
    kind: GroupKind,
) -> (SnapshotView, ResponseView) {
    if kind is Data {
        (state, ResponseView::Noop)
    } else if state.streams.contains_key(stream) {
        (state, ResponseView::StreamCreated { created: false })
    } else {
        let created = StreamView {
            stream_id: match stream_id {
                Some(id) => id,
                None => identity_of(stream).0,
            },
            group_id: match group_id {
                Some(id) => id,
                None => identity_of(stream).1,
            },
            lifecycle: if kind is Metadata {
                StreamLifecycle::Creating
            } else {
                StreamLifecycle::Active
            },
            messages: Seq::empty(),
        };
        (
            SnapshotView { streams: state.streams.insert(stream, created), ..state },
            ResponseView::StreamCreated { created: true },
        )
    }
}

/// What the initialisation of a data stream does: a data group takes in the one
/// stream that it is for, once.
pub open spec fn initialize_step(
    state: SnapshotView,
    stream: Seq<char>,
    stream_id: Seq<char>,
    group_id: Seq<char>,
    kind: GroupKind,
) -> (SnapshotView, ResponseView) {
    match kind {
        GroupKind::Data { stream: s, stream_id: i, group_id: g } => {
            if stream != s@ || stream_id != i@ || group_id != g@ {
                (state, ResponseView::Noop)
            } else if state.streams.contains_key(stream) {
                (state, ResponseView::DataStreamInitialized { initialized: false })
            } else {
                (
                    SnapshotView {
                        streams: state.streams.insert(stream, fresh_stream((stream_id, group_id))),
                        ..state
                    },
                    ResponseView::DataStreamInitialized { initialized: true },
                )
            }
        },
        _ => (state, ResponseView::Noop),
    }
}

/// What the activation of a stream does.
pub open spec fn activate_step(
    state: SnapshotView,
    stream: Seq<char>,
    kind: GroupKind,
) -> (SnapshotView, ResponseView) {
    if kind is Data {
        (state, ResponseView::Noop)
    } else if !state.streams.contains_key(stream) {
        (state, ResponseView::StreamActivated { activated: false })
    } else {
        let was = state.streams[stream];
        (
            SnapshotView {
                streams: state.streams.insert(
                    stream,
                    StreamView { lifecycle: StreamLifecycle::Active, ..was },
                ),
                ..state
            },
            ResponseView::StreamActivated { activated: was.lifecycle != StreamLifecycle::Active },
        )
    }
}

/// The offset that a publication with a request identity was given before.
pub open spec fn known_offset(
    state: SnapshotView,
    stream: Seq<char>,
    request_id: Option<Seq<char>>,
) -> Option<Offset> {
    match request_id {
        Some(id) => if state.dedup.contains_key(stream) && state.dedup[stream].contains_key(id) {
            Some(state.dedup[stream][id])
        } else {
            None
        },
        None => None,
    }
}

/// The request identities of each stream, with one more.
pub open spec fn dedup_with(
    dedup: Map<Seq<char>, Map<Seq<char>, Offset>>,
    stream: Seq<char>,
    request_id: Option<Seq<char>>,
    offset: Offset,
) -> Map<Seq<char>, Map<Seq<char>, Offset>> {
    match request_id {
        Some(id) => dedup.insert(
            stream,
            (if dedup.contains_key(stream) {
                dedup[stream]
            } else {
                Map::empty()
            }).insert(id, offset),
        ),
        None => dedup,
    }
}

/// What a publication does: the message goes to the end of the stream, which
/// comes into being if it has to. One whose request identity is known is not
/// kept again, and is answered with the offset of the first.
pub open spec fn publish_step(
    state: SnapshotView,
    stream: Seq<char>,
    message: StoredMessageView,
    request_id: Option<Seq<char>>,
    kind: GroupKind,
) -> (SnapshotView, ResponseView) {
    let target = stream_or_fresh(state.streams, stream);
    let offset = target.messages.len() as Offset;
    if kind is Metadata {
        (state, ResponseView::StreamNotFound)
    } else if known_offset(state, stream, request_id) is Some {
        (state, ResponseView::Published { offset: known_offset(state, stream, request_id)->0 })
    } else if target.lifecycle != StreamLifecycle::Active {
        (state, ResponseView::StreamNotFound)
    } else {
        (
            SnapshotView {
                streams: state.streams.insert(
                    stream,
                    StreamView { messages: target.messages.push(message), ..target },
                ),
                dedup: dedup_with(state.dedup, stream, request_id, offset),
                ..state
            },
            ResponseView::Published { offset },
        )
    }
}

/// The next offset that a plain consumer has to acknowledge.
pub open spec fn expected_offset(state: SnapshotView, key: (Seq<char>, Seq<char>)) -> Offset {
    if state.consumers.contains_key(key) {
        state.consumers[key]
    } else {
        0
    }
}

/// What a plain acknowledgement does: offsets are acknowledged one by one, in
/// order.
pub open spec fn ack_step(
    state: SnapshotView,
    stream: Seq<char>,
    consumer: Seq<char>,
    offset: Offset,
    kind: GroupKind,
) -> (SnapshotView, ResponseView) {
    let expected = expected_offset(state, (stream, consumer));
    if kind is Metadata || !stream_is_active(state.streams, stream) {
        (state, ResponseView::StreamNotFound)
    } else if offset < expected {
        (state, ResponseView::AlreadyAcknowledged)
    } else if offset > expected {
        (state, ResponseView::OutOfOrderAck { expected, received: offset })
    } else {
        (
            SnapshotView {
                consumers: state.consumers.insert((stream, consumer), (offset + 1) as Offset),
                ..state
            },
            ResponseView::Acknowledged,
        )
    }
}

/// What a replay answers: the message at the offset, or which offsets there are.
pub open spec fn replay_answer(
    state: SnapshotView,
    stream: Seq<char>,
    offset: Offset,
    kind: GroupKind,
) -> ResponseView {
    let messages = state.streams[stream].messages;
    if kind is Metadata || !stream_is_active(state.streams, stream) {
        ResponseView::StreamNotFound
    } else if offset < messages.len() {
        ResponseView::Replay {
            result: ReplayMessageView {
                stream,
                offset,
                key: messages[offset as int].key,
                payload: messages[offset as int].payload,
                published_at_ms: messages[offset as int].published_at_ms,
            },
        }
    } else {
        ResponseView::HistoryUnavailable {
            requested_offset: offset,
            earliest_offset: 0,
            next_offset: messages.len() as Offset,
        }
    }
}

/// What a command does to the state, and what it answers.
pub open spec fn command_step(
    state: SnapshotView,
    command: Command,
    kind: GroupKind,
    log_id: LogId,
) -> (SnapshotView, ResponseView) {
    match command {
        Command::CreateStream { stream, stream_id, group_id } => create_step(
            state,
            stream@,
            stream_id.deep_view(),
            group_id.deep_view(),
            kind,
        ),
        Command::InitializeDataStream { stream, stream_id, group_id } => initialize_step(
            state,
            stream@,
            stream_id@,
            group_id@,
            kind,
        ),
        Command::ActivateStream { stream } => activate_step(state, stream@, kind),
        Command::Publish { stream, key, payload, published_at_ms, request_id } => publish_step(
            state,
            stream@,
            StoredMessageView { key: key.deep_view(), payload: payload@, published_at_ms },
            request_id.deep_view(),
            kind,
        ),
        Command::Ack { stream, consumer, offset } => ack_step(
            state,
            stream@,
            consumer@,
            offset,
            kind,
        ),
        Command::Replay { stream, consumer: _, offset } => (
            state,
            replay_answer(state, stream@, offset, kind),
        ),
        Command::PollGroup {
            stream,
            consumer,
            member,
            now_ms,
            lease_deadline_ms,
            max_delivery_attempts,
        } => group_poll_step(
            state,
            GroupPollRequest {
                stream,
                consumer,
                member,
                now_ms,
                lease_deadline_ms,
                max_delivery_attempts,
            },
            log_id,
            kind,
        ),
        Command::AckGroup { stream, consumer, member, offset, delivery_token, now_ms } =>
            group_ack_step(
                state,
                GroupAckRequest { stream, consumer, member, offset, delivery_token, now_ms },
                kind,
            ),
    }
}

/// Whether a command acknowledges the highest offset there is, when that is
/// what its consumer has come to: there is no next offset to expect after it.
pub open spec fn acks_the_last_offset(
    state: SnapshotView,
    command: Command,
    kind: GroupKind,
) -> bool {
    &&& !(kind is Metadata)
    &&& command matches Command::Ack { stream, consumer, offset }
    &&& stream_is_active(state.streams, stream@)
    &&& offset == u64::MAX
    &&& expected_offset(state, (stream@, consumer@)) == u64::MAX
}

/// Whether a command acknowledges the highest offset there is, when that is
/// what its consumer has come to.
pub fn acknowledges_last_offset(state: &SnapshotState, command: &Command, kind: &GroupKind) -> (r:
    bool)
    ensures
        r == acks_the_last_offset(state@, *command, *kind),
{
    if let GroupKind::Metadata = kind {
        return false;
    }
    match command {
        Command::Ack { stream, consumer, offset } => {
            let active = match state.streams.get(stream) {
                Some(stream_state) => stream_state.is_active(),
                None => false,
            };
            let key = (stream.clone(), consumer.clone());
            let expected: u64 = match state.consumers.get(&key) {
                Some(expected) => *expected,
                None => 0,
            };
            active && *offset == u64::MAX && expected == u64::MAX
        },
        _ => false,
    }
}

/// Creates a stream.
fn apply_create(
    state: &mut SnapshotState,
    stream: String,
    stream_id: Option<String>,
    group_id: Option<String>,
    kind: &GroupKind,
) -> (r: CommandResponse)
    ensures
        (final(state)@, r@) == create_step(
            old(state)@,
            stream@,
            stream_id.deep_view(),
            group_id.deep_view(),
            *kind,
        ),
{
    let lifecycle = match kind {
        GroupKind::Data { .. } => {
            return CommandResponse::Noop;
        },
        GroupKind::Metadata => StreamLifecycle::Creating,
        GroupKind::Combined => StreamLifecycle::Active,
    };
    if state.streams.contains(&stream) {
        return CommandResponse::StreamCreated { created: false };
    }
    let (derived_stream_id, derived_group_id) = stream_identity(stream.as_str());
    let created = StreamState {
        stream_id: match stream_id {
            Some(id) => id,
            None => derived_stream_id,
        },
        group_id: match group_id {
            Some(id) => id,
            None => derived_group_id,
        },
        lifecycle,
        messages: Vec::new(),
    };
    proof {
        assert(created@.messages =~= Seq::<StoredMessageView>::empty());
    }
    state.streams.insert(stream, created);
    CommandResponse::StreamCreated { created: true }
}

/// Takes the stream of a data group in.
fn apply_initialize(
    state: &mut SnapshotState,
    stream: String,
    stream_id: String,
    group_id: String,
    kind: &GroupKind,
) -> (r: CommandResponse)
    ensures
        (final(state)@, r@) == initialize_step(
            old(state)@,
            stream@,
            stream_id@,
            group_id@,
            *kind,
        ),
{
    match kind {
        GroupKind::Data {
            stream: expected_stream,
            stream_id: expected_stream_id,
            group_id: expected_group_id,
        } => {
            if stream != *expected_stream || stream_id != *expected_stream_id || group_id
                != *expected_group_id {
                return CommandResponse::Noop;
            }
        },
        _ => {
            return CommandResponse::Noop;
        },
    }
    if state.streams.contains(&stream) {
        return CommandResponse::DataStreamInitialized { initialized: false };
    }
    state.streams.insert(stream, StreamState::active(stream_id, group_id));
    CommandResponse::DataStreamInitialized { initialized: true }
}

/// Activates a stream.
fn apply_activate(state: &mut SnapshotState, stream: String, kind: &GroupKind) -> (r:
    CommandResponse)
    ensures
        (final(state)@, r@) == activate_step(old(state)@, stream@, *kind),
{
    if let GroupKind::Data { .. } = kind {
        return CommandResponse::Noop;
    }
    match state.streams.remove(&stream) {
        None => CommandResponse::StreamActivated { activated: false },
        Some(mut stream_state) => {
            let activated = !stream_state.is_active();
            stream_state.lifecycle = StreamLifecycle::Active;
            let ghost sv = stream@;
            let ghost now = stream_state@;
            state.streams.insert(stream, stream_state);
            proof {
                assert(state@.streams =~= old(state)@.streams.insert(sv, now));
            }
            CommandResponse::StreamActivated { activated }
        },
    }
}

/// Takes a message in.
fn apply_publish(
    state: &mut SnapshotState,
    stream: String,
    message: StoredMessage,
    request_id: Option<String>,
    kind: &GroupKind,
) -> (r: CommandResponse)
    ensures
        (final(state)@, r@) == publish_step(
            old(state)@,
            stream@,
            message@,
            request_id.deep_view(),
            *kind,
        ),
{
    if let GroupKind::Metadata = kind {
        return CommandResponse::StreamNotFound;
    }
    if let Some(id) = &request_id {
        if let Some(requests) = state.dedup.get(&stream) {
            if let Some(offset) = requests.get(id) {
                return CommandResponse::Published { offset: *offset };
            }
        }
    }
    let inactive = match state.streams.get(&stream) {
        Some(stream_state) => !stream_state.is_active(),
        None => false,
    };
    if inactive {
        return CommandResponse::StreamNotFound;
    }
    let ghost sv = stream@;
    let mut stream_state = match state.streams.remove(&stream) {
        Some(stream_state) => stream_state,
        None => {
            let (stream_id, group_id) = stream_identity(stream.as_str());
            StreamState::active(stream_id, group_id)
        },
    };
    let ghost target = stream_state@;
    let offset: u64 = stream_state.messages.len() as u64;
    let ghost kept = stream_state.messages@;
    let ghost mv = message@;
    stream_state.messages.push(message);
    proof {
        assert(messages_view(stream_state.messages@) =~= messages_view(kept).push(mv));
    }
    let ghost now = stream_state@;
    if let Some(id) = request_id {
        let mut requests = match state.dedup.remove(&stream) {
            Some(requests) => requests,
            None => SortedMap::new(),
        };
        requests.insert(id, offset);
        let ghost rv = requests@;
        state.dedup.insert(stream.clone(), requests);
        proof {
            assert(state@.dedup =~= old(state)@.dedup.insert(sv, rv));
        }
    }
    state.streams.insert(stream, stream_state);
    proof {
        assert(state@.streams =~= old(state)@.streams.insert(sv, now));
    }
    CommandResponse::Published { offset }
}

/// Takes the acknowledgement of a plain consumer.
fn apply_ack(
    state: &mut SnapshotState,
    stream: String,
    consumer: String,
    offset: Offset,
    kind: &GroupKind,
) -> (r: CommandResponse)
    requires
        kind is Metadata || !stream_is_active(old(state)@.streams, stream@) || offset < u64::MAX
            || expected_offset(old(state)@, (stream@, consumer@)) < u64::MAX,
    ensures
        (final(state)@, r@) == ack_step(old(state)@, stream@, consumer@, offset, *kind),
{
    if let GroupKind::Metadata = kind {
        return CommandResponse::StreamNotFound;
    }
    let active = match state.streams.get(&stream) {
        Some(stream_state) => stream_state.is_active(),
        None => false,
    };
    if !active {
        return CommandResponse::StreamNotFound;
    }
    let key = (stream, consumer);
    let expected: u64 = match state.consumers.get(&key) {
        Some(expected) => *expected,
        None => 0,
    };
    if offset < expected {
        return CommandResponse::AlreadyAcknowledged;
    }
    if offset > expected {
        return CommandResponse::OutOfOrderAck { expected, received: offset };
    }
    state.consumers.insert(key, offset + 1);
    CommandResponse::Acknowledged
}

/// Reads a message of a stream again.
pub fn apply_replay(
    state: &SnapshotState,
    stream: &String,
    offset: Offset,
    kind: &GroupKind,
) -> (r: CommandResponse)
    ensures
        r@ == replay_answer(state@, stream@, offset, *kind),
{
    if let GroupKind::Metadata = kind {
        return CommandResponse::StreamNotFound;
    }
    let stream_state = match state.streams.get(stream) {
        Some(stream_state) => stream_state,
        None => {
            return CommandResponse::StreamNotFound;
        },
    };
    if !stream_state.is_active() {
        return CommandResponse::StreamNotFound;
    }
    let next_offset: u64 = stream_state.messages.len() as u64;
    if offset >= next_offset {
        return CommandResponse::HistoryUnavailable {
            requested_offset: offset,
            earliest_offset: 0,
            next_offset,
        };
    }
    let message = &stream_state.messages[offset as usize];
    CommandResponse::Replay {
        result: ReplayMessage {
            stream: stream.clone(),
            offset,
            key: copy_optional(&message.key),
            payload: copy_bytes(&message.payload),
            published_at_ms: message.published_at_ms,
        },
    }
}

/// Carries out a command of the replicated log.
pub fn apply_command(
    state: &mut SnapshotState,
    command: Command,
    kind: &GroupKind,
    log_id: LogId,
) -> (r: CommandResponse)
    requires
        !acks_the_last_offset(old(state)@, command, *kind),
    ensures
        (final(state)@, r@) == command_step(old(state)@, command, *kind, log_id),
{
    match command {
        Command::CreateStream { stream, stream_id, group_id } => apply_create(
            state,
            stream,
            stream_id,
            group_id,
            kind,
        ),
        Command::InitializeDataStream { stream, stream_id, group_id } => apply_initialize(
            state,
            stream,
            stream_id,
            group_id,
            kind,
        ),
        Command::ActivateStream { stream } => apply_activate(state, stream, kind),
        Command::Publish { stream, key, payload, published_at_ms, request_id } => apply_publish(
            state,
            stream,
            StoredMessage { key, payload, published_at_ms },
            request_id,
            kind,
        ),
        Command::Ack { stream, consumer, offset } => apply_ack(
            state,
            stream,
            consumer,
            offset,
            kind,
        ),
        Command::Replay { stream, consumer: _, offset } => apply_replay(
            state,
            &stream,
            offset,
            kind,
        ),
        Command::PollGroup {
            stream,
            consumer,
            member,
            now_ms,
            lease_deadline_ms,
            max_delivery_attempts,
        } => apply_group_poll(
            state,
            GroupPollRequest {
                stream,
                consumer,
                member,
                now_ms,
                lease_deadline_ms,
                max_delivery_attempts,
            },
            log_id,
            kind,
        ),
        Command::AckGroup { stream, consumer, member, offset, delivery_token, now_ms } =>
            apply_group_ack(
                state,
                GroupAckRequest { stream, consumer, member, offset, delivery_token, now_ms },
                kind,
            ),
    }
}

} // verus!
