//! The state machine of a replication group: what it keeps, how it is recorded
//! and restored, and what it says of itself.

use vstd::prelude::*;
use vstd::string::*;
use vstd::utf8::*;

use crate::delivery::{
    dead_letter_name, dead_letter_stream_name, GroupConsumerState, GroupConsumerView,
};
use crate::engine::{
    BrokerError, HealthSnapshot, IoFailure, IoKind, Message, MessageView, Offset, PollResult,
};
use crate::keyed::{keys_in_order, MapKey, SortedMap};
use crate::log_entry::{
    no_membership, Entry, EntryPayload, SnapshotMeta, SnapshotMetaView, StoredMembership,
    StoredMembershipView,
};
use crate::log_id::{is_optional_log_after, optional_log_after, LogId};
use crate::state_machine::{
    acks_the_last_offset, apply_command, command_step, empty_state, expected_offset, fresh_stream,
    identity_of, messages_view, metadata_of, stream_identity, CommandResponse, GroupKind,
    ResponseView, SnapshotState, SnapshotView, StoredMessage, StoredMessageView, StreamLifecycle,
    StreamMetadata, StreamState, StreamView,
};
use crate::storage::{is_cluster_error, path_error, path_text, FileRead};
use crate::text::{copy_bytes, copy_optional, decimal, decimal_text, join3, join5};

verus! {

/// The format that checkpoints and snapshots are written in.
pub const FORMAT_VERSION: u32 = 2;

/// The format of a record that does not say its own.
pub fn legacy_format_version() -> (r: u32)
    ensures
        r == 1,
{
    1
}

/// The state machine: the state, and the last log entry and membership that it
/// has taken in.
#[derive(Debug)]
pub struct StateMachineData {
    pub last_applied_log: Option<LogId>,
    pub last_membership: StoredMembership,
    pub state: SnapshotState,
}

/// What a state machine holds.
#[verifier::ext_equal]
pub struct MachineView {
    pub last_applied_log: Option<LogId>,
    pub last_membership: StoredMembershipView,
    pub state: SnapshotView,
}

impl View for StateMachineData {
    type V = MachineView;

    open spec fn view(&self) -> MachineView {
        MachineView {
            last_applied_log: self.last_applied_log,
            last_membership: self.last_membership@,
            state: self.state@,
        }
    }
}

/// The state machine before any log entry.
pub open spec fn empty_machine() -> MachineView {
    MachineView {
        last_applied_log: None,
        last_membership: no_membership(),
        state: empty_state(),
    }
}

impl Default for StateMachineData {
    fn default() -> (r: Self)
        ensures
            r@ == empty_machine(),
    {
        StateMachineData {
            last_applied_log: None,
            last_membership: StoredMembership::default(),
            state: SnapshotState::default(),
        }
    }
}

/// What a log entry does to the state machine, and what it answers.
pub open spec fn entry_step(machine: MachineView, entry: Entry, kind: GroupKind) -> (
    MachineView,
    ResponseView,
) {
    let applied = MachineView { last_applied_log: Some(entry.log_id), ..machine };
    match entry.payload {
        EntryPayload::Blank => (applied, ResponseView::Noop),
        EntryPayload::Membership(membership) => (
            MachineView {
                last_membership: StoredMembershipView {
                    log_id: Some(entry.log_id),
                    membership: membership@,
                },
                ..applied
            },
            ResponseView::Noop,
        ),
        EntryPayload::Normal(command) => {
            let (state, response) = command_step(machine.state, command, kind, entry.log_id);
            (MachineView { state, ..applied }, response)
        },
    }
}

/// Whether a log entry brings a command that acknowledges the highest offset
/// there is, when that is what its consumer has come to.
pub open spec fn entry_acks_the_last_offset(
    machine: MachineView,
    entry: Entry,
    kind: GroupKind,
) -> bool {
    entry.payload matches EntryPayload::Normal(command) && acks_the_last_offset(
        machine.state,
        command,
        kind,
    )
}

/// The state machine after some log entries, in order.
pub open spec fn machine_after(machine: MachineView, entries: Seq<Entry>, kind: GroupKind) -> MachineView
    decreases entries.len(),
{
    if entries.len() == 0 {
        machine
    } else {
        entry_step(machine_after(machine, entries.drop_last(), kind), entries.last(), kind).0
    }
}

/// What each of some log entries is answered.
pub open spec fn responses_to(machine: MachineView, entries: Seq<Entry>, kind: GroupKind) -> Seq<ResponseView> {
    Seq::new(
        entries.len(),
        |i: int| entry_step(machine_after(machine, entries.take(i), kind), entries[i], kind).1,
    )
}

/// Whether none of some log entries, in order, acknowledges the highest offset
/// there is when that is what its consumer has come to.
pub open spec fn entries_can_apply(machine: MachineView, entries: Seq<Entry>, kind: GroupKind) -> bool {
    forall|i: int|
        0 <= i < entries.len() ==> !entry_acks_the_last_offset(
            machine_after(machine, entries.take(i), kind),
            #[trigger] entries[i],
            kind,
        )
}

/// It does not matter in which batches a node is handed the entries of its log: it
/// comes to the same state and gives the same answers.
pub proof fn law_batches_do_not_matter(
    machine: MachineView,
    first: Seq<Entry>,
    second: Seq<Entry>,
    kind: GroupKind,
)
    ensures
        machine_after(machine, first + second, kind) == machine_after(
            machine_after(machine, first, kind),
            second,
            kind,
        ),
        responses_to(machine, first + second, kind) == responses_to(machine, first, kind)
            + responses_to(machine_after(machine, first, kind), second, kind),
    decreases second.len(),
{
    let all = first + second;
    let middle = machine_after(machine, first, kind);
    if second.len() == 0 {
        assert(all =~= first);
    } else {
        law_batches_do_not_matter(machine, first, second.drop_last(), kind);
        assert(all.drop_last() =~= first + second.drop_last());
    }
    let apart = responses_to(machine, first, kind) + responses_to(middle, second, kind);
    assert forall|i: int| 0 <= i < all.len() implies #[trigger] responses_to(machine, all, kind)[i]
        == apart[i] by {
        if i < first.len() {
            assert(all.take(i) =~= first.take(i));
        } else {
            let done = second.take(i - first.len());
            assert(all.take(i) =~= first + done);
            if done.len() < second.len() {
                law_batches_do_not_matter(machine, first, done, kind);
            }
        }
    }
    assert(responses_to(machine, all, kind) =~= apart);
}

impl StateMachineData {
    /// Takes in a log entry.
    pub fn apply_entry(&mut self, entry: Entry, kind: &GroupKind) -> (r: CommandResponse)
        requires
            !entry_acks_the_last_offset(old(self)@, entry, *kind),
        ensures
            (final(self)@, r@) == entry_step(old(self)@, entry, *kind),
    {
        self.last_applied_log = Some(entry.log_id);
        match entry.payload {
            EntryPayload::Blank => CommandResponse::Noop,
            EntryPayload::Membership(membership) => {
                self.last_membership = StoredMembership {
                    log_id: Some(entry.log_id),
                    membership,
                };
                CommandResponse::Noop
            },
            EntryPayload::Normal(command) => apply_command(
                &mut self.state,
                command,
                kind,
                entry.log_id,
            ),
        }
    }

    /// Takes in log entries, in order, and answers each.
    pub fn apply(&mut self, entries: Vec<Entry>, kind: &GroupKind) -> (r: Vec<CommandResponse>)
        requires
            entries_can_apply(old(self)@, entries@, *kind),
        ensures
            final(self)@ == machine_after(old(self)@, entries@, *kind),
            r@.map_values(|c: CommandResponse| c@) == responses_to(old(self)@, entries@, *kind),
    {
        let ghost all = entries@;
        let ghost start = self@;
        let mut responses: Vec<CommandResponse> = Vec::new();
        for entry in it: entries
            invariant
                it.seq() == all,
                entries_can_apply(start, all, *kind),
                self@ == machine_after(start, all.take(it.index() as int), *kind),
                responses@.len() == it.index(),
                forall|i: int|
                    0 <= i < it.index() ==> (#[trigger] responses@[i])@ == responses_to(
                        start,
                        all,
                        *kind,
                    )[i],
        {
            proof {
                let done = it.index() as int;
                assert(entry == all[done]);
                assert(all.take(done + 1).drop_last() == all.take(done));
            }
            let response = self.apply_entry(entry, kind);
            responses.push(response);
        }
        proof {
            assert(all.take(all.len() as int) =~= all);
            assert(responses@.map_values(|c: CommandResponse| c@) =~= responses_to(
                start,
                all,
                *kind,
            ));
        }
        responses
    }
}

/// A stream as it is recorded.
#[derive(Debug)]
pub struct PersistedStream {
    pub stream_id: String,
    pub group_id: String,
    pub lifecycle: Option<StreamLifecycle>,
    pub messages: Vec<StoredMessage>,
}

/// A stream as it is recorded: once only its messages were.
#[derive(Debug)]
pub enum PersistedStreamData {
    Legacy(Vec<StoredMessage>),
    Current(PersistedStream),
}

/// What the record of a stream says.
#[verifier::ext_equal]
pub enum PersistedStreamView {
    Legacy(Seq<StoredMessageView>),
    Current {
        stream_id: Seq<char>,
        group_id: Seq<char>,
        lifecycle: Option<StreamLifecycle>,
        messages: Seq<StoredMessageView>,
    },
}

impl View for PersistedStreamData {
    type V = PersistedStreamView;

    open spec fn view(&self) -> PersistedStreamView {
        match *self {
            PersistedStreamData::Legacy(messages) => PersistedStreamView::Legacy(
                messages_view(messages@),
            ),
            PersistedStreamData::Current(stream) => PersistedStreamView::Current {
                stream_id: stream.stream_id@,
                group_id: stream.group_id@,
                lifecycle: stream.lifecycle,
                messages: messages_view(stream.messages@),
            },
        }
    }
}

/// The stream that a record stands for. Where only messages were recorded the
/// stream is active and its name gives its identity; where the record does not
/// say how far it has come, it is active.
pub open spec fn restored_stream(name: Seq<char>, record: PersistedStreamView) -> StreamView {
    match record {
        PersistedStreamView::Legacy(messages) => StreamView {
            messages,
            ..fresh_stream(identity_of(name))
        },
        PersistedStreamView::Current { stream_id, group_id, lifecycle, messages } => StreamView {
            stream_id,
            group_id,
            lifecycle: match lifecycle {
                Some(lifecycle) => lifecycle,
                None => StreamLifecycle::Active,
            },
            messages,
        },
    }
}

impl PersistedStreamData {
    /// The stream that this record stands for.
    pub fn into_state(self, stream: &str) -> (r: StreamState)
        ensures
            r@ == restored_stream(stream@, self@),
    {
        match self {
            PersistedStreamData::Legacy(messages) => {
                let (stream_id, group_id) = stream_identity(stream);
                StreamState { stream_id, group_id, lifecycle: StreamLifecycle::Active, messages }
            },
            PersistedStreamData::Current(stream_state) => StreamState {
                stream_id: stream_state.stream_id,
                group_id: stream_state.group_id,
                lifecycle: match stream_state.lifecycle {
                    Some(lifecycle) => lifecycle,
                    None => StreamLifecycle::default(),
                },
                messages: stream_state.messages,
            },
        }
    }
}

/// The progress of a plain consumer as it is recorded.
#[derive(Debug, PartialEq, Eq)]
pub struct PersistedConsumer {
    pub stream: String,
    pub consumer: String,
    pub offset: Offset,
}

/// The progress of a consumer group as it is recorded.
#[derive(Debug)]
pub struct PersistedGroupConsumer {
    pub stream: String,
    pub consumer: String,
    pub state: GroupConsumerState,
}

/// The state as it is recorded.
#[derive(Debug)]
pub struct PersistedBody {
    pub streams: Vec<(String, PersistedStreamData)>,
    pub consumers: Vec<PersistedConsumer>,
    pub group_consumers: Vec<PersistedGroupConsumer>,
    pub lease_clock_ms: u64,
    pub dedup: SortedMap<String, SortedMap<String, Offset>>,
    pub redeliveries: u64,
    pub dead_letters: u64,
}

/// What the record of a state says.
#[verifier::ext_equal]
pub struct PersistedBodyView {
    pub streams: Seq<(Seq<char>, PersistedStreamView)>,
    pub consumers: Seq<((Seq<char>, Seq<char>), Offset)>,
    pub group_consumers: Seq<((Seq<char>, Seq<char>), GroupConsumerView)>,
    pub lease_clock_ms: u64,
    pub dedup: Map<Seq<char>, Map<Seq<char>, Offset>>,
    pub redeliveries: u64,
    pub dead_letters: u64,
}

impl View for PersistedBody {
    type V = PersistedBodyView;

    open spec fn view(&self) -> PersistedBodyView {
        PersistedBodyView {
            streams: self.streams@.map_values(|s: (String, PersistedStreamData)| (s.0@, s.1@)),
            consumers: self.consumers@.map_values(
                |c: PersistedConsumer| ((c.stream@, c.consumer@), c.offset),
            ),
            group_consumers: self.group_consumers@.map_values(
                |c: PersistedGroupConsumer| ((c.stream@, c.consumer@), c.state@),
            ),
            lease_clock_ms: self.lease_clock_ms,
            dedup: self.dedup@,
            redeliveries: self.redeliveries,
            dead_letters: self.dead_letters,
        }
    }
}

/// What a list of pairs maps, the later ones winning.
pub open spec fn collected<K, V>(pairs: Seq<(K, V)>) -> Map<K, V>
    decreases pairs.len(),
{
    if pairs.len() == 0 {
        Map::empty()
    } else {
        collected(pairs.drop_last()).insert(pairs.last().0, pairs.last().1)
    }
}

/// Each recorded stream with the stream that it stands for.
pub open spec fn restored_streams(
    records: Seq<(Seq<char>, PersistedStreamView)>,
) -> Seq<(Seq<char>, StreamView)> {
    records.map_values(
        |r: (Seq<char>, PersistedStreamView)| (r.0, restored_stream(r.0, r.1)),
    )
}

/// The state that a record stands for.
pub open spec fn restored(body: PersistedBodyView) -> SnapshotView {
    SnapshotView {
        streams: collected(restored_streams(body.streams)),
        consumers: collected(body.consumers),
        group_consumers: collected(body.group_consumers),
        lease_clock_ms: body.lease_clock_ms,
        dedup: body.dedup,
        redeliveries: body.redeliveries,
        dead_letters: body.dead_letters,
    }
}

/// A snapshot of the state as it is recorded.
#[derive(Debug)]
pub struct PersistedSnapshotState {
    pub version: u32,
    pub body: PersistedBody,
}

/// A checkpoint of the state machine as it is recorded.
#[derive(Debug)]
pub struct PersistedState {
    pub version: u32,
    pub last_applied_log: Option<LogId>,
    pub last_membership: StoredMembership,
    pub body: PersistedBody,
}

/// A snapshot with its description.
#[derive(Debug)]
pub struct StoredSnapshot {
    pub meta: SnapshotMeta,
    pub data: Vec<u8>,
}

/// The state that a record stands for.
fn state_from_body(body: PersistedBody) -> (r: SnapshotState)
    ensures
        r@ == restored(body@),
{
    let ghost view = body@;
    let mut streams: SortedMap<String, StreamState> = SortedMap::new();
    let ghost records = body.streams@;
    for record in it: body.streams
        invariant
            it.seq() == records,
            view.streams == records.map_values(
                |s: (String, PersistedStreamData)| (s.0@, s.1@),
            ),
            streams@ == collected(restored_streams(view.streams.take(it.index() as int))),
    {
        let (name, data) = record;
        proof {
            let done = it.index() as int;
            let next = restored_streams(view.streams.take(done + 1));
            assert(view.streams[done] == (records[done].0@, records[done].1@));
            assert(next.drop_last() =~= restored_streams(view.streams.take(done)));
            assert(next.last() == (name@, restored_stream(name@, data@)));
        }
        let state = data.into_state(name.as_str());
        streams.insert(name, state);
    }
    let mut consumers: SortedMap<(String, String), Offset> = SortedMap::new();
    let ghost plain = body.consumers@;
    for consumer in it: body.consumers
        invariant
            it.seq() == plain,
            view.consumers == plain.map_values(
                |c: PersistedConsumer| ((c.stream@, c.consumer@), c.offset),
            ),
            consumers@ == collected(view.consumers.take(it.index() as int)),
    {
        proof {
            let done = it.index() as int;
            assert(view.consumers.take(done + 1).drop_last() =~= view.consumers.take(done));
        }
        consumers.insert((consumer.stream, consumer.consumer), consumer.offset);
    }
    let mut group_consumers: SortedMap<(String, String), GroupConsumerState> = SortedMap::new();
    let ghost groups = body.group_consumers@;
    for consumer in it: body.group_consumers
        invariant
            it.seq() == groups,
            view.group_consumers == groups.map_values(
                |c: PersistedGroupConsumer| ((c.stream@, c.consumer@), c.state@),
            ),
            group_consumers@ == collected(view.group_consumers.take(it.index() as int)),
    {
        proof {
            let done = it.index() as int;
            assert(view.group_consumers.take(done + 1).drop_last()
                =~= view.group_consumers.take(done));
        }
        group_consumers.insert((consumer.stream, consumer.consumer), consumer.state);
    }
    proof {
        assert(view.streams.take(records.len() as int) =~= view.streams);
        assert(view.consumers.take(plain.len() as int) =~= view.consumers);
        assert(view.group_consumers.take(groups.len() as int) =~= view.group_consumers);
    }
    SnapshotState {
        streams,
        consumers,
        group_consumers,
        lease_clock_ms: body.lease_clock_ms,
        dedup: body.dedup,
        redeliveries: body.redeliveries,
        dead_letters: body.dead_letters,
    }
}

/// The state that a recorded snapshot stands for.
pub fn snapshot_state_from_persisted(persisted: PersistedSnapshotState) -> (r: SnapshotState)
    ensures
        r@ == restored(persisted.body@),
{
    state_from_body(persisted.body)
}

/// The state machine that a recorded checkpoint stands for.
pub fn state_machine_data_from_persisted(persisted: PersistedState) -> (r: StateMachineData)
    ensures
        r@ == (MachineView {
            last_applied_log: persisted.last_applied_log,
            last_membership: persisted.last_membership@,
            state: restored(persisted.body@),
        }),
{
    StateMachineData {
        last_applied_log: persisted.last_applied_log,
        last_membership: persisted.last_membership,
        state: state_from_body(persisted.body),
    }
}

/// A stream on its way to being recorded.
#[derive(Debug)]
pub struct PersistedStreamRef<'a> {
    pub stream_id: &'a str,
    pub group_id: &'a str,
    pub lifecycle: Option<&'a StreamLifecycle>,
    pub messages: &'a Vec<StoredMessage>,
}

impl<'a> View for PersistedStreamRef<'a> {
    type V = PersistedStreamView;

    open spec fn view(&self) -> PersistedStreamView {
        PersistedStreamView::Current {
            stream_id: self.stream_id@,
            group_id: self.group_id@,
            lifecycle: match self.lifecycle {
                Some(lifecycle) => Some(*lifecycle),
                None => None,
            },
            messages: messages_view(self.messages@),
        }
    }
}

/// The record of a stream.
pub open spec fn recorded_stream(stream: StreamView) -> PersistedStreamView {
    PersistedStreamView::Current {
        stream_id: stream.stream_id,
        group_id: stream.group_id,
        lifecycle: Some(stream.lifecycle),
        messages: stream.messages,
    }
}

impl<'a> PersistedStreamRef<'a> {
    /// The record of a stream.
    pub fn current(state: &'a StreamState) -> (r: Self)
        ensures
            r@ == recorded_stream(state@),
    {
        PersistedStreamRef {
            stream_id: state.stream_id.as_str(),
            group_id: state.group_id.as_str(),
            lifecycle: Some(&state.lifecycle),
            messages: &state.messages,
        }
    }
}

/// The progress of a plain consumer on its way to being recorded.
#[derive(Debug)]
pub struct PersistedConsumerRef<'a> {
    pub stream: &'a str,
    pub consumer: &'a str,
    pub offset: Offset,
}

/// The progress of a consumer group on its way to being recorded.
#[derive(Debug)]
pub struct PersistedGroupConsumerRef<'a> {
    pub stream: &'a str,
    pub consumer: &'a str,
    pub state: &'a GroupConsumerState,
}

/// The state on its way to being recorded.
#[derive(Debug)]
pub struct PersistedStateBodyRef<'a> {
    pub streams: Vec<(&'a str, PersistedStreamRef<'a>)>,
    pub consumers: Vec<PersistedConsumerRef<'a>>,
    pub group_consumers: Vec<PersistedGroupConsumerRef<'a>>,
    pub lease_clock_ms: u64,
    pub dedup: &'a SortedMap<String, SortedMap<String, Offset>>,
    pub redeliveries: u64,
    pub dead_letters: u64,
}

impl<'a> View for PersistedStateBodyRef<'a> {
    type V = PersistedBodyView;

    open spec fn view(&self) -> PersistedBodyView {
        PersistedBodyView {
            streams: self.streams@.map_values(
                |s: (&'a str, PersistedStreamRef<'a>)| (s.0@, s.1@),
            ),
            consumers: self.consumers@.map_values(
                |c: PersistedConsumerRef<'a>| ((c.stream@, c.consumer@), c.offset),
            ),
            group_consumers: self.group_consumers@.map_values(
                |c: PersistedGroupConsumerRef<'a>| ((c.stream@, c.consumer@), c.state@),
            ),
            lease_clock_ms: self.lease_clock_ms,
            dedup: self.dedup@,
            redeliveries: self.redeliveries,
            dead_letters: self.dead_letters,
        }
    }
}

/// A list of keys with what a map has for each.
pub open spec fn listed<K, V>(keys: Seq<K>, map: Map<K, V>) -> Seq<(K, V)> {
    keys.map_values(|k: K| (k, map[k]))
}

/// A list of the keys of a map with their values is collected into that map.
pub proof fn lemma_listed_collects<K, V>(keys: Seq<K>, map: Map<K, V>)
    requires
        forall|i: int| 0 <= i < keys.len() ==> map.contains_key(#[trigger] keys[i]),
        forall|k: K| #[trigger] map.contains_key(k) ==> keys.contains(k),
    ensures
        collected(listed(keys, map)) == map,
{
    lemma_collected_prefix(keys, map, keys.len() as int);
    assert(listed(keys, map).take(keys.len() as int) =~= listed(keys, map));
    let c = collected(listed(keys, map));
    assert forall|k: K| c.contains_key(k) <==> map.contains_key(k) by {
        if map.contains_key(k) {
            assert(keys.contains(k));
            let i = choose|i: int| 0 <= i < keys.len() && keys[i] == k;
            assert(keys.take(keys.len() as int)[i] == k);
        }
        if c.contains_key(k) {
            let head = keys.take(keys.len() as int);
            let i = choose|i: int| 0 <= i < head.len() && #[trigger] head[i] == k;
            assert(map.contains_key(keys[i]));
        }
    }
    assert(c =~= map);
}

proof fn lemma_collected_prefix<K, V>(keys: Seq<K>, map: Map<K, V>, n: int)
    requires
        0 <= n <= keys.len(),
    ensures
        forall|k: K| #[trigger]
            collected(listed(keys, map).take(n)).contains_key(k) <==> keys.take(n).contains(k),
        forall|k: K| #[trigger]
            collected(listed(keys, map).take(n)).contains_key(k) ==> collected(
                listed(keys, map).take(n),
            )[k] == map[k],
    decreases n,
{
    let list = listed(keys, map);
    if n > 0 {
        lemma_collected_prefix(keys, map, n - 1);
        assert(list.take(n).drop_last() =~= list.take(n - 1));
        let last = keys[n - 1];
        assert(list.take(n).last() == (last, map[last]));
        assert(collected(list.take(n)) == collected(list.take(n - 1)).insert(last, map[last]));
        assert forall|k: K| #[trigger]
            collected(list.take(n)).contains_key(k) <==> keys.take(n).contains(k) by {
            if keys.take(n - 1).contains(k) {
                let head = keys.take(n - 1);
                let i = choose|i: int| 0 <= i < head.len() && #[trigger] head[i] == k;
                assert(keys.take(n)[i] == k);
            }
            if k == keys[n - 1] {
                assert(keys.take(n)[n - 1] == k);
            }
            if keys.take(n).contains(k) && k != keys[n - 1] {
                let head = keys.take(n);
                let i = choose|i: int| 0 <= i < head.len() && #[trigger] head[i] == k;
                assert(keys.take(n - 1)[i] == k);
            }
        }
    } else {
        assert(list.take(0) =~= Seq::empty());
        assert(keys.take(0) =~= Seq::empty());
    }
}

/// Each stream of a list with its record.
pub open spec fn recorded_streams(
    keys: Seq<Seq<char>>,
    streams: Map<Seq<char>, StreamView>,
) -> Seq<(Seq<char>, PersistedStreamView)> {
    keys.map_values(|k: Seq<char>| (k, recorded_stream(streams[k])))
}

/// What a restored record of a stream is, is what the stream was.
proof fn lemma_records_restore(keys: Seq<Seq<char>>, streams: Map<Seq<char>, StreamView>)
    ensures
        restored_streams(recorded_streams(keys, streams)) == listed(keys, streams),
{
    let a = restored_streams(recorded_streams(keys, streams));
    let b = listed(keys, streams);
    assert forall|i: int| 0 <= i < a.len() implies a[i] == b[i] by {
        assert(recorded_streams(keys, streams)[i] == (
            keys[i],
            recorded_stream(streams[keys[i]]),
        ));
        assert(restored_stream(keys[i], recorded_stream(streams[keys[i]])) =~= streams[keys[i]]);
    }
    assert(a =~= b);
}

impl<'a> PersistedStateBodyRef<'a> {
    /// The record of a state: every stream, consumer and group, each once and in
    /// the order of their names. It stands for the state that it was made of.
    pub fn new(state: &'a SnapshotState) -> (r: Self)
        ensures
            r@.streams == recorded_streams(state.streams.keys(), state@.streams),
            r@.consumers == listed(state.consumers.keys(), state@.consumers),
            r@.group_consumers == listed(state.group_consumers.keys(), state@.group_consumers),
            restored(r@) == state@,
    {
        let mut streams: Vec<(&'a str, PersistedStreamRef<'a>)> = Vec::new();
        let n: usize = state.streams.len();
        let mut i: usize = 0;
        while i < n
            invariant
                i <= n,
                n == state.streams.keys().len(),
                streams@.map_values(|s: (&'a str, PersistedStreamRef<'a>)| (s.0@, s.1@))
                    == recorded_streams(state.streams.keys().take(i as int), state@.streams),
            decreases n - i,
        {
            let ghost was = streams@;
            let name = state.streams.key_at(i).as_str();
            let record = PersistedStreamRef::current(state.streams.value_at(i));
            streams.push((name, record));
            proof {
                let keys = state.streams.keys();
                assert(streams@.map_values(
                    |s: (&'a str, PersistedStreamRef<'a>)| (s.0@, s.1@),
                ) =~= was.map_values(
                    |s: (&'a str, PersistedStreamRef<'a>)| (s.0@, s.1@),
                ).push((name@, record@)));
                assert(recorded_streams(keys.take(i + 1), state@.streams) =~= recorded_streams(
                    keys.take(i as int),
                    state@.streams,
                ).push((name@, record@)));
            }
            i += 1;
        }
        let mut consumers: Vec<PersistedConsumerRef<'a>> = Vec::new();
        let n: usize = state.consumers.len();
        let mut i: usize = 0;
        while i < n
            invariant
                i <= n,
                n == state.consumers.keys().len(),
                consumers@.map_values(
                    |c: PersistedConsumerRef<'a>| ((c.stream@, c.consumer@), c.offset),
                ) == listed(state.consumers.keys().take(i as int), state@.consumers),
            decreases n - i,
        {
            let ghost was = consumers@;
            let key = state.consumers.key_at(i);
            let record = PersistedConsumerRef {
                stream: key.0.as_str(),
                consumer: key.1.as_str(),
                offset: *state.consumers.value_at(i),
            };
            let ghost rv = ((record.stream@, record.consumer@), record.offset);
            consumers.push(record);
            proof {
                let keys = state.consumers.keys();
                assert(consumers@.map_values(
                    |c: PersistedConsumerRef<'a>| ((c.stream@, c.consumer@), c.offset),
                ) =~= was.map_values(
                    |c: PersistedConsumerRef<'a>| ((c.stream@, c.consumer@), c.offset),
                ).push(rv));
                assert(listed(keys.take(i + 1), state@.consumers) =~= listed(
                    keys.take(i as int),
                    state@.consumers,
                ).push(rv));
            }
            i += 1;
        }
        let mut group_consumers: Vec<PersistedGroupConsumerRef<'a>> = Vec::new();
        let n: usize = state.group_consumers.len();
        let mut i: usize = 0;
        while i < n
            invariant
                i <= n,
                n == state.group_consumers.keys().len(),
                group_consumers@.map_values(
                    |c: PersistedGroupConsumerRef<'a>| ((c.stream@, c.consumer@), c.state@),
                ) == listed(state.group_consumers.keys().take(i as int), state@.group_consumers),
            decreases n - i,
        {
            let ghost was = group_consumers@;
            let key = state.group_consumers.key_at(i);
            let record = PersistedGroupConsumerRef {
                stream: key.0.as_str(),
                consumer: key.1.as_str(),
                state: state.group_consumers.value_at(i),
            };
            let ghost rv = ((record.stream@, record.consumer@), record.state@);
            group_consumers.push(record);
            proof {
                let keys = state.group_consumers.keys();
                assert(group_consumers@.map_values(
                    |c: PersistedGroupConsumerRef<'a>| ((c.stream@, c.consumer@), c.state@),
                ) =~= was.map_values(
                    |c: PersistedGroupConsumerRef<'a>| ((c.stream@, c.consumer@), c.state@),
                ).push(rv));
                assert(listed(keys.take(i + 1), state@.group_consumers) =~= listed(
                    keys.take(i as int),
                    state@.group_consumers,
                ).push(rv));
            }
            i += 1;
        }
        proof {
            let k1 = state.streams.keys();
            let k2 = state.consumers.keys();
            let k3 = state.group_consumers.keys();
            assert(k1.take(k1.len() as int) =~= k1);
            assert(k2.take(k2.len() as int) =~= k2);
            assert(k3.take(k3.len() as int) =~= k3);
            lemma_records_restore(k1, state@.streams);
            lemma_ordered_listing::<String, StreamState>(k1, state@.streams);
            lemma_ordered_listing::<(String, String), Offset>(k2, state@.consumers);
            lemma_ordered_listing::<(String, String), GroupConsumerState>(
                k3,
                state@.group_consumers,
            );
        }
        PersistedStateBodyRef {
            streams,
            consumers,
            group_consumers,
            lease_clock_ms: state.lease_clock_ms,
            dedup: &state.dedup,
            redeliveries: state.redeliveries,
            dead_letters: state.dead_letters,
        }
    }
}

/// The keys of an ordered map with their values are collected into that map.
proof fn lemma_ordered_listing<K: MapKey, V: View>(keys: Seq<K::V>, map: Map<K::V, V::V>)
    requires
        keys_in_order::<K, V>(keys, map),
    ensures
        collected(listed(keys, map)) == map,
{
    assert forall|k: K::V| #[trigger] map.contains_key(k) implies keys.contains(k) by {
        let i = choose|i: int| 0 <= i < keys.len() && #[trigger] keys[i] == k;
        assert(keys[i] == k);
    }
    lemma_listed_collects(keys, map);
}

/// Whether a checkpoint or a snapshot of a format can be read.
pub open spec fn is_supported_version(version: u32) -> bool {
    version == 1 || version == FORMAT_VERSION
}

/// What is said of a checkpoint of another format.
pub open spec fn checkpoint_version_text(version: u32, path: Seq<char>) -> Seq<char> {
    "unsupported state-machine format version "@ + decimal(version as nat) + " in '"@ + path
        + "' (checkpoint; supported versions: 1 and 2)"@
}

/// Accepts a checkpoint that was read, or says why it cannot be used.
pub fn read_persisted_state(read: FileRead<PersistedState>, path: &str) -> (r: Result<
    Option<PersistedState>,
    BrokerError,
>)
    ensures
        match read {
            FileRead::Missing => r == Ok::<Option<PersistedState>, BrokerError>(None),
            FileRead::Unreadable(e) => r is Err && is_cluster_error(
                r->Err_0,
                path_text("could not read persisted state-machine"@, path@, e@),
            ),
            FileRead::Undecodable(e) => r is Err && is_cluster_error(
                r->Err_0,
                path_text("invalid persisted state-machine"@, path@, e@),
            ),
            FileRead::Decoded(persisted) => if is_supported_version(persisted.version) {
                r == Ok::<Option<PersistedState>, BrokerError>(Some(persisted))
            } else {
                r is Err && is_cluster_error(
                    r->Err_0,
                    checkpoint_version_text(persisted.version, path@),
                )
            },
        },
{
    match read {
        FileRead::Missing => Ok(None),
        FileRead::Unreadable(error) => Err(
            path_error("could not read persisted state-machine", path, error.as_str()),
        ),
        FileRead::Undecodable(error) => Err(
            path_error("invalid persisted state-machine", path, error.as_str()),
        ),
        FileRead::Decoded(persisted) => {
            if persisted.version == 1 || persisted.version == FORMAT_VERSION {
                Ok(Some(persisted))
            } else {
                Err(
                    BrokerError::Cluster(
                        join5(
                            "unsupported state-machine format version ",
                            decimal_text(persisted.version as u64).as_str(),
                            " in '",
                            path,
                            "' (checkpoint; supported versions: 1 and 2)",
                        ),
                    ),
                )
            }
        },
    }
}

/// Accepts a snapshot file that was read, or says why it cannot be used.
pub fn read_persisted_snapshot(read: FileRead<StoredSnapshot>, path: &str) -> (r: Result<
    Option<StoredSnapshot>,
    BrokerError,
>)
    ensures
        match read {
            FileRead::Missing => r == Ok::<Option<StoredSnapshot>, BrokerError>(None),
            FileRead::Unreadable(e) => r is Err && is_cluster_error(
                r->Err_0,
                path_text("could not read persisted snapshot"@, path@, e@),
            ),
            FileRead::Undecodable(e) => r is Err && is_cluster_error(
                r->Err_0,
                path_text("invalid persisted snapshot"@, path@, e@),
            ),
            FileRead::Decoded(snapshot) => r == Ok::<Option<StoredSnapshot>, BrokerError>(
                Some(snapshot),
            ),
        },
{
    match read {
        FileRead::Missing => Ok(None),
        FileRead::Unreadable(error) => Err(
            path_error("could not read persisted snapshot", path, error.as_str()),
        ),
        FileRead::Undecodable(error) => Err(
            path_error("invalid persisted snapshot", path, error.as_str()),
        ),
        FileRead::Decoded(snapshot) => Ok(Some(snapshot)),
    }
}

/// What is said of a snapshot of another format.
pub open spec fn snapshot_version_text(version: u32) -> Seq<char> {
    "unsupported snapshot format version "@ + decimal(version as nat)
        + " (supported versions: 1 and 2)"@
}

/// Accepts the state that the bytes of a snapshot held, or says why it cannot be
/// used. Where the bytes held none, `decoded` says why not.
pub fn validate_snapshot_data(decoded: Result<PersistedSnapshotState, String>) -> (r: Result<
    PersistedSnapshotState,
    IoFailure,
>)
    ensures
        match decoded {
            Err(e) => r matches Err(f) && f.kind == IoKind::InvalidData && f.message == e,
            Ok(persisted) => if is_supported_version(persisted.version) {
                r == Ok::<PersistedSnapshotState, IoFailure>(persisted)
            } else {
                r matches Err(f) && f.kind == IoKind::InvalidData && f.message@
                    == snapshot_version_text(persisted.version)
            },
        },
{
    match decoded {
        Err(message) => Err(IoFailure { kind: IoKind::InvalidData, message }),
        Ok(persisted) => {
            if persisted.version == 1 || persisted.version == FORMAT_VERSION {
                Ok(persisted)
            } else {
                Err(
                    IoFailure {
                        kind: IoKind::InvalidData,
                        message: join3(
                            "unsupported snapshot format version ",
                            decimal_text(persisted.version as u64).as_str(),
                            " (supported versions: 1 and 2)",
                        ),
                    },
                )
            }
        },
    }
}

/// Accepts the state of a snapshot file, or says why it cannot be used.
pub fn validate_persisted_snapshot(
    decoded: Result<PersistedSnapshotState, String>,
    path: &str,
) -> (r: Result<PersistedSnapshotState, BrokerError>)
    ensures
        match decoded {
            Err(e) => r is Err && is_cluster_error(
                r->Err_0,
                path_text("invalid persisted snapshot"@, path@, e@),
            ),
            Ok(persisted) => if is_supported_version(persisted.version) {
                r == Ok::<PersistedSnapshotState, BrokerError>(persisted)
            } else {
                r is Err && is_cluster_error(
                    r->Err_0,
                    path_text(
                        "invalid persisted snapshot"@,
                        path@,
                        snapshot_version_text(persisted.version),
                    ),
                )
            },
        },
{
    match validate_snapshot_data(decoded) {
        Ok(persisted) => Ok(persisted),
        Err(failure) => Err(
            path_error("invalid persisted snapshot", path, failure.message.as_str()),
        ),
    }
}

/// The state machine that a snapshot stands for.
pub open spec fn snapshot_machine(meta: SnapshotMetaView, body: PersistedBodyView) -> MachineView {
    MachineView {
        last_applied_log: meta.last_log_id,
        last_membership: meta.last_membership,
        state: restored(body),
    }
}

/// The state machine to start from: the checkpoint, or the snapshot where that
/// comes after it, or an empty one where there is neither.
pub open spec fn recovered_machine(
    checkpoint: Option<PersistedState>,
    snapshot: Option<(SnapshotMetaView, PersistedBodyView)>,
) -> MachineView {
    let base = match checkpoint {
        Some(persisted) => MachineView {
            last_applied_log: persisted.last_applied_log,
            last_membership: persisted.last_membership@,
            state: restored(persisted.body@),
        },
        None => empty_machine(),
    };
    match snapshot {
        Some((meta, body)) => if optional_log_after(meta.last_log_id, base.last_applied_log) {
            snapshot_machine(meta, body)
        } else {
            base
        },
        None => base,
    }
}

impl StateMachineData {
    /// The state machine to start from: the checkpoint, or the snapshot where
    /// that comes after it, or an empty one where there is neither.
    pub fn recovered(
        checkpoint: Option<PersistedState>,
        snapshot: Option<(&SnapshotMeta, PersistedSnapshotState)>,
    ) -> (r: Self)
        ensures
            r@ == recovered_machine(
                checkpoint,
                match snapshot {
                    Some((meta, persisted)) => Some((meta@, persisted.body@)),
                    None => None,
                },
            ),
    {
        let base = match checkpoint {
            Some(persisted) => state_machine_data_from_persisted(persisted),
            None => StateMachineData::default(),
        };
        match snapshot {
            Some((meta, persisted)) => {
                if is_optional_log_after(meta.last_log_id, base.last_applied_log) {
                    StateMachineData {
                        last_applied_log: meta.last_log_id,
                        last_membership: meta.last_membership.copy(),
                        state: snapshot_state_from_persisted(persisted),
                    }
                } else {
                    base
                }
            },
            None => base,
        }
    }

    /// Puts the state of a snapshot in place of what there was.
    pub fn install(&mut self, meta: &SnapshotMeta, persisted: PersistedSnapshotState)
        ensures
            final(self)@ == snapshot_machine(meta@, persisted.body@),
    {
        self.last_applied_log = meta.last_log_id;
        self.last_membership = meta.last_membership.copy();
        self.state = snapshot_state_from_persisted(persisted);
    }

    /// The description of a snapshot that is taken now, the next after as many
    /// as there were before.
    pub fn describe_snapshot(&self, taken_before: u64) -> (r: SnapshotMeta)
        requires
            taken_before < u64::MAX,
        ensures
            r@ == (SnapshotMetaView {
                last_log_id: self@.last_applied_log,
                last_membership: self@.last_membership,
                snapshot_id: "snapshot-"@ + decimal((taken_before + 1) as nat),
            }),
    {
        let mut snapshot_id = "snapshot-".to_owned();
        snapshot_id.append(decimal_text(taken_before + 1).as_str());
        SnapshotMeta {
            last_log_id: self.last_applied_log,
            last_membership: self.last_membership.copy(),
            snapshot_id,
        }
    }
}

/// The bytes that a message takes: its payload and its key.
pub open spec fn message_bytes(message: StoredMessageView) -> nat {
    message.payload.len() + match message.key {
        Some(key) => encode_utf8(key).len(),
        None => 0,
    }
}

/// The bytes that some messages take.
pub open spec fn messages_bytes(messages: Seq<StoredMessageView>) -> nat
    decreases messages.len(),
{
    if messages.len() == 0 {
        0
    } else {
        messages_bytes(messages.drop_last()) + message_bytes(messages.last())
    }
}

/// The bytes that the messages of some streams take.
pub open spec fn streams_bytes(
    names: Seq<Seq<char>>,
    streams: Map<Seq<char>, StreamView>,
) -> nat
    decreases names.len(),
{
    if names.len() == 0 {
        0
    } else {
        streams_bytes(names.drop_last(), streams) + messages_bytes(streams[names.last()].messages)
    }
}

/// The deliveries that are under way in some groups.
pub open spec fn groups_in_flight(
    names: Seq<(Seq<char>, Seq<char>)>,
    groups: Map<(Seq<char>, Seq<char>), GroupConsumerView>,
) -> nat
    decreases names.len(),
{
    if names.len() == 0 {
        0
    } else {
        groups_in_flight(names.drop_last(), groups) + groups[names.last()].in_flight.dom().len()
    }
}

/// More streams take no fewer bytes.
proof fn lemma_streams_bytes_grow(
    names: Seq<Seq<char>>,
    streams: Map<Seq<char>, StreamView>,
    n: int,
)
    requires
        0 <= n <= names.len(),
    ensures
        streams_bytes(names.take(n), streams) <= streams_bytes(names, streams),
    decreases names.len() - n,
{
    if n < names.len() {
        lemma_streams_bytes_grow(names, streams, n + 1);
        assert(names.take(n + 1).drop_last() =~= names.take(n));
    } else {
        assert(names.take(n) =~= names);
    }
}

/// More groups have no fewer deliveries under way.
proof fn lemma_groups_in_flight_grow(
    names: Seq<(Seq<char>, Seq<char>)>,
    groups: Map<(Seq<char>, Seq<char>), GroupConsumerView>,
    n: int,
)
    requires
        0 <= n <= names.len(),
    ensures
        groups_in_flight(names.take(n), groups) <= groups_in_flight(names, groups),
    decreases names.len() - n,
{
    if n < names.len() {
        lemma_groups_in_flight_grow(names, groups, n + 1);
        assert(names.take(n + 1).drop_last() =~= names.take(n));
    } else {
        assert(names.take(n) =~= names);
    }
}

/// More messages take no fewer bytes.
proof fn lemma_messages_bytes_grow(messages: Seq<StoredMessageView>, n: int)
    requires
        0 <= n <= messages.len(),
    ensures
        messages_bytes(messages.take(n)) <= messages_bytes(messages),
    decreases messages.len() - n,
{
    if n < messages.len() {
        lemma_messages_bytes_grow(messages, n + 1);
        assert(messages.take(n + 1).drop_last() =~= messages.take(n));
    } else {
        assert(messages.take(n) =~= messages);
    }
}

/// The bytes that the messages of a stream take.
fn count_messages_bytes(messages: &Vec<StoredMessage>) -> (r: u64)
    requires
        messages_bytes(messages_view(messages@)) <= u64::MAX,
    ensures
        r == messages_bytes(messages_view(messages@)),
{
    let ghost view = messages_view(messages@);
    let mut total: u64 = 0;
    let mut i: usize = 0;
    while i < messages.len()
        invariant
            i <= messages@.len(),
            view == messages_view(messages@),
            messages_bytes(view) <= u64::MAX,
            total == messages_bytes(view.take(i as int)),
        decreases messages@.len() - i,
    {
        proof {
            lemma_messages_bytes_grow(view, i + 1);
            assert(view.take(i + 1).drop_last() =~= view.take(i as int));
            assert(view.take(i + 1).last() == messages@[i as int]@);
        }
        let message = &messages[i];
        let key_bytes: u64 = match &message.key {
            Some(key) => key.as_str().as_bytes().len() as u64,
            None => 0,
        };
        total = total + (message.payload.len() as u64 + key_bytes);
        i += 1;
    }
    proof {
        assert(view.take(i as int) =~= view);
    }
    total
}

impl SnapshotState {
    /// The condition of this state. What it keeps in memory is counted, so the
    /// counts fit the numbers that hold them.
    pub fn health(&self) -> (r: HealthSnapshot)
        requires
            streams_bytes(self.streams.keys(), self@.streams) <= u64::MAX,
            groups_in_flight(self.group_consumers.keys(), self@.group_consumers) <= u64::MAX,
        ensures
            r.streams == self@.streams.dom().len(),
            r.storage_bytes == streams_bytes(self.streams.keys(), self@.streams),
            r.in_flight_deliveries == groups_in_flight(
                self.group_consumers.keys(),
                self@.group_consumers,
            ),
            r.redeliveries == self@.redeliveries,
            r.dead_letters == self@.dead_letters,
    {
        let streams: usize = self.streams.len();
        let ghost names = self.streams.keys();
        let mut storage_bytes: u64 = 0;
        let mut i: usize = 0;
        while i < streams
            invariant
                i <= streams,
                streams == names.len(),
                names == self.streams.keys(),
                streams_bytes(names, self@.streams) <= u64::MAX,
                storage_bytes == streams_bytes(names.take(i as int), self@.streams),
            decreases streams - i,
        {
            proof {
                lemma_streams_bytes_grow(names, self@.streams, i + 1);
                assert(names.take(i + 1).drop_last() =~= names.take(i as int));
            }
            storage_bytes = storage_bytes + count_messages_bytes(&self.streams.value_at(i).messages);
            i += 1;
        }
        let groups: usize = self.group_consumers.len();
        let ghost keys = self.group_consumers.keys();
        let mut in_flight_deliveries: u64 = 0;
        let mut k: usize = 0;
        while k < groups
            invariant
                k <= groups,
                groups == keys.len(),
                keys == self.group_consumers.keys(),
                groups_in_flight(keys, self@.group_consumers) <= u64::MAX,
                in_flight_deliveries == groups_in_flight(
                    keys.take(k as int),
                    self@.group_consumers,
                ),
            decreases groups - k,
        {
            proof {
                lemma_groups_in_flight_grow(keys, self@.group_consumers, k + 1);
                assert(keys.take(k + 1).drop_last() =~= keys.take(k as int));
            }
            in_flight_deliveries = in_flight_deliveries + self.group_consumers.value_at(
                k,
            ).in_flight.len() as u64;
            k += 1;
        }
        proof {
            assert(names.take(i as int) =~= names);
            assert(keys.take(k as int) =~= keys);
        }
        HealthSnapshot {
            streams,
            storage_bytes,
            in_flight_deliveries,
            redeliveries: self.redeliveries,
            dead_letters: self.dead_letters,
        }
    }

    /// What a stream says of itself.
    pub fn metadata(&self, stream: &String) -> (r: Result<StreamMetadata, BrokerError>)
        ensures
            match r {
                Ok(metadata) => self@.streams.contains_key(stream@) && metadata@ == metadata_of(
                    stream@,
                    self@.streams[stream@],
                ),
                Err(error) => !self@.streams.contains_key(stream@) && (error matches
                    BrokerError::StreamNotFound(name) && name@ == stream@),
            },
    {
        match self.streams.get(stream) {
            Some(stream_state) => Ok(stream_state.metadata(stream.as_str())),
            None => Err(BrokerError::StreamNotFound(stream.clone())),
        }
    }

    /// The first stream, in the order of their names, that a group is for.
    pub fn metadata_by_group_id(&self, group_id: &String) -> (r: Option<
        (String, StreamMetadata),
    >)
        ensures
            is_first_stream(
                self.streams.keys(),
                self@.streams,
                is_in_group(self@.streams, group_id@),
                r,
            ),
    {
        let ghost names = self.streams.keys();
        let ghost p = is_in_group(self@.streams, group_id@);
        let n: usize = self.streams.len();
        let mut i: usize = 0;
        while i < n
            invariant
                i <= n,
                n == names.len(),
                names == self.streams.keys(),
                p == is_in_group(self@.streams, group_id@),
                forall|j: int| 0 <= j < i ==> !p(#[trigger] names[j]),
            decreases n - i,
        {
            let stream_state = self.streams.value_at(i);
            if stream_state.group_id == *group_id {
                let name = self.streams.key_at(i);
                proof {
                    assert(p(names[i as int]));
                }
                return Some((name.clone(), stream_state.metadata(name.as_str())));
            }
            i += 1;
        }
        None
    }

    /// The first stream, in the order of their names, whose undeliverable
    /// messages a dead-letter stream takes.
    pub fn dead_letter_source(&self, dead_letter_stream: &String) -> (r: Option<
        (String, StreamMetadata),
    >)
        ensures
            is_first_stream(
                self.streams.keys(),
                self@.streams,
                is_source_of(dead_letter_stream@),
                r,
            ),
    {
        let ghost names = self.streams.keys();
        let ghost p = is_source_of(dead_letter_stream@);
        let n: usize = self.streams.len();
        let mut i: usize = 0;
        while i < n
            invariant
                i <= n,
                n == names.len(),
                names == self.streams.keys(),
                p == is_source_of(dead_letter_stream@),
                forall|j: int| 0 <= j < i ==> !p(#[trigger] names[j]),
            decreases n - i,
        {
            let name = self.streams.key_at(i);
            if dead_letter_stream_name(name.as_str()) == *dead_letter_stream {
                proof {
                    assert(p(names[i as int]));
                }
                let stream_state = self.streams.value_at(i);
                return Some((name.clone(), stream_state.metadata(name.as_str())));
            }
            i += 1;
        }
        None
    }

    /// The message that a plain consumer comes to next. Nothing is delivered.
    pub fn poll(&self, stream: &String, consumer: &String) -> (r: Result<PollResult, BrokerError>)
        ensures
            ({
                let s = self@.streams[stream@];
                let o = expected_offset(self@, (stream@, consumer@));
                if !self@.streams.contains_key(stream@) {
                    r matches Err(BrokerError::StreamNotFound(name)) && name@ == stream@
                } else if s.lifecycle != StreamLifecycle::Active {
                    r is Err && is_cluster_error(
                        r->Err_0,
                        "stream '"@ + stream@ + "' is not active"@,
                    )
                } else if o < s.messages.len() {
                    r matches Ok(PollResult::Message(message)) && message@ == (MessageView {
                        stream: stream@,
                        offset: o,
                        key: s.messages[o as int].key,
                        payload: s.messages[o as int].payload,
                        published_at_ms: s.messages[o as int].published_at_ms,
                        delivery_token: None,
                        delivery_attempt: None,
                    })
                } else {
                    r == Ok::<PollResult, BrokerError>(PollResult::Empty)
                }
            }),
    {
        let stream_state = match self.streams.get(stream) {
            Some(stream_state) => stream_state,
            None => {
                return Err(BrokerError::StreamNotFound(stream.clone()));
            },
        };
        if !stream_state.is_active() {
            return Err(
                BrokerError::Cluster(join3("stream '", stream.as_str(), "' is not active")),
            );
        }
        let key = (stream.clone(), consumer.clone());
        let offset: u64 = match self.consumers.get(&key) {
            Some(offset) => *offset,
            None => 0,
        };
        if offset >= stream_state.messages.len() as u64 {
            return Ok(PollResult::Empty);
        }
        let message = &stream_state.messages[offset as usize];
        Ok(
            PollResult::Message(
                Message {
                    stream: stream.clone(),
                    offset,
                    key: copy_optional(&message.key),
                    payload: copy_bytes(&message.payload),
                    published_at_ms: message.published_at_ms,
                    delivery_token: None,
                    delivery_attempt: None,
                },
            ),
        )
    }
}

/// Whether a stream is in a group.
pub open spec fn is_in_group(
    streams: Map<Seq<char>, StreamView>,
    group_id: Seq<char>,
) -> spec_fn(Seq<char>) -> bool {
    |name: Seq<char>| streams[name].group_id == group_id
}

/// Whether a dead-letter stream takes the undeliverable messages of a stream.
pub open spec fn is_source_of(dead_letter_stream: Seq<char>) -> spec_fn(Seq<char>) -> bool {
    |name: Seq<char>| dead_letter_name(name) == dead_letter_stream
}

/// Whether something is the first stream of a list that has a property, with
/// what it says of itself, or nothing where none has it.
pub open spec fn is_first_stream(
    names: Seq<Seq<char>>,
    streams: Map<Seq<char>, StreamView>,
    p: spec_fn(Seq<char>) -> bool,
    found: Option<(String, StreamMetadata)>,
) -> bool {
    match found {
        Some((name, metadata)) => exists|i: int|
            0 <= i < names.len() && #[trigger] names[i] == name@ && p(names[i]) && metadata@
                == metadata_of(names[i], streams[names[i]]) && forall|j: int|
                0 <= j < i ==> !p(#[trigger] names[j]),
        None => forall|j: int| 0 <= j < names.len() ==> !p(#[trigger] names[j]),
    }
}

/// What has been counted of the snapshots of a group.
#[derive(Clone, Copy, Debug, PartialEq, Eq, Structural)]
pub struct SnapshotMetricsSnapshot {
    pub builds_started: u64,
    pub builds_completed: u64,
    pub build_failures: u64,
    pub installs_started: u64,
    pub installs_completed: u64,
    pub install_failures: u64,
    pub install_bytes: u64,
    pub installs_in_progress: u64,
    pub transfer_chunks: u64,
    pub transfer_final_chunks: u64,
    pub transfer_bytes: u64,
}

/// Nothing counted.
pub open spec fn no_snapshot_metrics() -> SnapshotMetricsSnapshot {
    SnapshotMetricsSnapshot {
        builds_started: 0,
        builds_completed: 0,
        build_failures: 0,
        installs_started: 0,
        installs_completed: 0,
        install_failures: 0,
        install_bytes: 0,
        installs_in_progress: 0,
        transfer_chunks: 0,
        transfer_final_chunks: 0,
        transfer_bytes: 0,
    }
}

impl Default for SnapshotMetricsSnapshot {
    fn default() -> (r: Self)
        ensures
            r == no_snapshot_metrics(),
    {
        SnapshotMetricsSnapshot {
            builds_started: 0,
            builds_completed: 0,
            build_failures: 0,
            installs_started: 0,
            installs_completed: 0,
            install_failures: 0,
            install_bytes: 0,
            installs_in_progress: 0,
            transfer_chunks: 0,
            transfer_final_chunks: 0,
            transfer_bytes: 0,
        }
    }
}

/// Counts the snapshots of a group: those that it builds, those that it
/// installs, and what it receives of them. A counter that is full starts over.
#[derive(Debug)]
pub struct SnapshotMetrics {
    counts: SnapshotMetricsSnapshot,
}

impl View for SnapshotMetrics {
    type V = SnapshotMetricsSnapshot;

    closed spec fn view(&self) -> SnapshotMetricsSnapshot {
        self.counts
    }
}

impl Default for SnapshotMetrics {
    fn default() -> (r: Self)
        ensures
            r@ == no_snapshot_metrics(),
    {
        SnapshotMetrics { counts: SnapshotMetricsSnapshot::default() }
    }
}

impl SnapshotMetrics {
    /// What has been counted.
    pub fn snapshot(&self) -> (r: SnapshotMetricsSnapshot)
        ensures
            r == self@,
    {
        self.counts
    }

    /// A snapshot is being built.
    pub fn build_started(&mut self)
        ensures
            final(self)@ == (SnapshotMetricsSnapshot {
                builds_started: old(self)@.builds_started.wrapping_add(1),
                ..old(self)@
            }),
    {
        self.counts.builds_started = self.counts.builds_started.wrapping_add(1);
    }

    /// A snapshot was built, or was not.
    pub fn build_finished(&mut self, built: bool)
        ensures
            final(self)@ == if built {
                SnapshotMetricsSnapshot {
                    builds_completed: old(self)@.builds_completed.wrapping_add(1),
                    ..old(self)@
                }
            } else {
                SnapshotMetricsSnapshot {
                    build_failures: old(self)@.build_failures.wrapping_add(1),
                    ..old(self)@
                }
            },
    {
        if built {
            self.counts.builds_completed = self.counts.builds_completed.wrapping_add(1);
        } else {
            self.counts.build_failures = self.counts.build_failures.wrapping_add(1);
        }
    }

    /// A snapshot is being installed.
    pub fn install_started(&mut self)
        ensures
            final(self)@ == (SnapshotMetricsSnapshot {
                installs_started: old(self)@.installs_started.wrapping_add(1),
                installs_in_progress: old(self)@.installs_in_progress.wrapping_add(1),
                ..old(self)@
            }),
    {
        self.counts.installs_started = self.counts.installs_started.wrapping_add(1);
        self.counts.installs_in_progress = self.counts.installs_in_progress.wrapping_add(1);
    }

    /// A snapshot of some bytes was installed, or none was.
    pub fn install_finished(&mut self, installed_bytes: Option<u64>)
        ensures
            final(self)@ == match installed_bytes {
                Some(bytes) => SnapshotMetricsSnapshot {
                    installs_in_progress: old(self)@.installs_in_progress.wrapping_sub(1),
                    installs_completed: old(self)@.installs_completed.wrapping_add(1),
                    install_bytes: old(self)@.install_bytes.wrapping_add(bytes),
                    ..old(self)@
                },
                None => SnapshotMetricsSnapshot {
                    installs_in_progress: old(self)@.installs_in_progress.wrapping_sub(1),
                    install_failures: old(self)@.install_failures.wrapping_add(1),
                    ..old(self)@
                },
            },
    {
        self.counts.installs_in_progress = self.counts.installs_in_progress.wrapping_sub(1);
        match installed_bytes {
            Some(bytes) => {
                self.counts.installs_completed = self.counts.installs_completed.wrapping_add(1);
                self.counts.install_bytes = self.counts.install_bytes.wrapping_add(bytes);
            },
            None => {
                self.counts.install_failures = self.counts.install_failures.wrapping_add(1);
            },
        }
    }

    /// A part of a snapshot came in.
    pub fn record_snapshot_chunk(&mut self, bytes: u64, final_chunk: bool)
        ensures
            final(self)@ == (SnapshotMetricsSnapshot {
                transfer_chunks: old(self)@.transfer_chunks.wrapping_add(1),
                transfer_bytes: old(self)@.transfer_bytes.wrapping_add(bytes),
                transfer_final_chunks: if final_chunk {
                    old(self)@.transfer_final_chunks.wrapping_add(1)
                } else {
                    old(self)@.transfer_final_chunks
                },
                ..old(self)@
            }),
    {
        self.counts.transfer_chunks = self.counts.transfer_chunks.wrapping_add(1);
        self.counts.transfer_bytes = self.counts.transfer_bytes.wrapping_add(bytes);
        if final_chunk {
            self.counts.transfer_final_chunks = self.counts.transfer_final_chunks.wrapping_add(1);
        }
    }
}

} // verus!
