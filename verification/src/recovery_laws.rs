//! What a node has after it took in its log, and after it was recovered from what was
//! recorded of it.

use vstd::prelude::*;
use vstd::utf8::*;

use crate::delivery::{dead_letter_name, fnv1a, lemma_fixed_hex, GroupConsumerView};
use crate::engine::{BrokerError, PollResult};
use crate::log_entry::{Entry, EntryPayload, SnapshotMetaView};
use crate::log_id::LogId;
use crate::network::framing::{frame_of, MAX_FRAME_SIZE};
use crate::operation_laws::dead_letters_go_to;
use crate::state_machine::{
    command_step, metadata_of, GroupKind, ResponseView, SnapshotState, StoredMessageView,
    StreamLifecycle, StreamMetadata, StreamView,
};
use crate::state_machine_journal::{
    comes_after, entry_of, framed, is_good, is_news, records_from, replayed, retained, JournalEnd,
    JournalEntry, MAX_RECORD_SIZE,
};
use crate::state_machine_store::{
    collected, entry_step, groups_in_flight, is_in_group, is_source_of, is_supported_version,
    machine_after, messages_bytes, recovered_machine, responses_to, restored, restored_stream,
    restored_streams, snapshot_machine, streams_bytes, MachineView, PersistedBodyView,
    PersistedState, PersistedStreamView,
};
use crate::wire::{law_bytes_count_by_their_place, number_of};

verus! {

/// A node notes every log entry that it takes in. A command does what commands do; a
/// membership is kept with the entry that brought it; a blank entry does nothing. Only
/// a command is answered with anything.
pub proof fn law_log_entries_are_taken_in(machine: MachineView, entry: Entry, kind: GroupKind)
    ensures
        ({
            let (after, answer) = entry_step(machine, entry, kind);
            &&& after.last_applied_log == Some(entry.log_id)
            &&& entry.payload matches EntryPayload::Normal(command) ==> {
                &&& after.state == command_step(machine.state, command, kind, entry.log_id).0
                &&& answer == command_step(machine.state, command, kind, entry.log_id).1
                &&& after.last_membership == machine.last_membership
            }
            &&& entry.payload matches EntryPayload::Membership(membership) ==> {
                &&& after.last_membership.membership == membership@
                &&& after.last_membership.log_id == Some(entry.log_id)
                &&& after.state == machine.state
                &&& answer == ResponseView::Noop
            }
            &&& entry.payload is Blank ==> {
                &&& after.last_membership == machine.last_membership
                &&& after.state == machine.state
                &&& answer == ResponseView::Noop
            }
        }),
{
}

/// A log is taken in entry by entry, none left out, and each entry is answered in its
/// place from what the entries before it left.
pub proof fn law_logs_are_taken_in_order(
    machine: MachineView,
    entries: Seq<Entry>,
    entry: Entry,
    kind: GroupKind,
)
    ensures
        machine_after(machine, Seq::empty(), kind) == machine,
        machine_after(machine, entries.push(entry), kind) == entry_step(
            machine_after(machine, entries, kind),
            entry,
            kind,
        ).0,
        responses_to(machine, entries, kind).len() == entries.len(),
        responses_to(machine, entries.push(entry), kind) == responses_to(
            machine,
            entries,
            kind,
        ).push(entry_step(machine_after(machine, entries, kind), entry, kind).1),
{
    let more = entries.push(entry);
    assert(more.drop_last() =~= entries);
    let a = responses_to(machine, more, kind);
    let b = responses_to(machine, entries, kind).push(
        entry_step(machine_after(machine, entries, kind), entry, kind).1,
    );
    assert forall|i: int| 0 <= i < a.len() implies a[i] == b[i] by {
        if i < entries.len() {
            assert(more.take(i) =~= entries.take(i));
        } else {
            assert(more.take(i) =~= entries);
        }
    }
    assert(a =~= b);
}

/// A list of pairs lists a key.
pub open spec fn lists<K, V>(pairs: Seq<(K, V)>, k: K) -> bool {
    exists|i: int| lists_at(pairs, k, i)
}

/// A list of pairs lists a key at a place.
pub open spec fn lists_at<K, V>(pairs: Seq<(K, V)>, k: K, i: int) -> bool {
    0 <= i < pairs.len() && pairs[i].0 == k
}

/// A list of pairs lists a key at a place, and at none behind it.
pub open spec fn lists_last_at<K, V>(pairs: Seq<(K, V)>, k: K, i: int) -> bool {
    lists_at(pairs, k, i) && forall|j: int| i < j ==> !lists_at(pairs, k, j)
}

/// What a list of pairs maps: to each key what its last pair says, and nothing else.
proof fn lemma_collected<K, V>(pairs: Seq<(K, V)>, k: K)
    ensures
        collected(pairs).contains_key(k) <==> lists(pairs, k),
        forall|i: int| #[trigger]
            lists_last_at(pairs, k, i) ==> collected(pairs)[k] == pairs[i].1,
    decreases pairs.len(),
{
    if pairs.len() > 0 {
        let rest = pairs.drop_last();
        let n = pairs.len() - 1;
        lemma_collected(rest, k);
        if lists(rest, k) {
            let i = choose|i: int| lists_at(rest, k, i);
            assert(lists_at(pairs, k, i));
        }
        if pairs[n].0 == k {
            assert(lists_at(pairs, k, n));
        }
        if lists(pairs, k) && pairs[n].0 != k {
            let i = choose|i: int| lists_at(pairs, k, i);
            assert(lists_at(rest, k, i));
        }
        assert forall|i: int| #[trigger] lists_last_at(pairs, k, i) implies collected(pairs)[k]
            == pairs[i].1 by {
            if i < n {
                assert(!lists_at(pairs, k, n));
                assert forall|j: int| i < j implies !lists_at(rest, k, j) by {
                    assert(!lists_at(pairs, k, j));
                }
                assert(lists_last_at(rest, k, i));
            }
        }
    }
}

/// The record of a state stands for all that it lists and nothing else. A stream comes
/// back with its messages, whole and in order, under the identity and in the condition
/// that was recorded; where only messages were, it is in use and its name gives its
/// identity. Progress, the clock, request identities and counts come back as they are.
pub proof fn law_records_stand_for_what_they_list(
    body: PersistedBodyView,
    name: Seq<char>,
    key: (Seq<char>, Seq<char>),
)
    ensures
        ({
            let state = restored(body);
            &&& state.lease_clock_ms == body.lease_clock_ms
            &&& state.dedup == body.dedup
            &&& state.redeliveries == body.redeliveries
            &&& state.dead_letters == body.dead_letters
            &&& state.streams.contains_key(name) <==> lists(body.streams, name)
            &&& state.consumers.contains_key(key) <==> lists(body.consumers, key)
            &&& state.group_consumers.contains_key(key) <==> lists(body.group_consumers, key)
            &&& forall|i: int| #[trigger]
                lists_last_at(body.consumers, key, i) ==> state.consumers[key]
                    == body.consumers[i].1
            &&& forall|i: int| #[trigger]
                lists_last_at(body.group_consumers, key, i) ==> state.group_consumers[key]
                    == body.group_consumers[i].1
            &&& forall|i: int| #[trigger]
                lists_last_at(body.streams, name, i) ==> stands_for(
                    name,
                    body.streams[i].1,
                    state.streams[name],
                )
        }),
{
    let streams = restored_streams(body.streams);
    lemma_collected(streams, name);
    lemma_collected(body.consumers, key);
    lemma_collected(body.group_consumers, key);
    assert forall|i: int| lists_at(streams, name, i) <==> #[trigger] lists_at(
        body.streams,
        name,
        i,
    ) by {}
    if lists(body.streams, name) {
        let i = choose|i: int| lists_at(body.streams, name, i);
        assert(lists_at(streams, name, i));
    }
    if lists(streams, name) {
        let i = choose|i: int| lists_at(streams, name, i);
        assert(lists_at(body.streams, name, i));
    }
    assert forall|i: int| #[trigger] lists_last_at(body.streams, name, i) implies stands_for(
        name,
        body.streams[i].1,
        restored(body).streams[name],
    ) by {
        assert forall|j: int| i < j implies !lists_at(streams, name, j) by {
            assert(!lists_at(body.streams, name, j));
        }
        assert(lists_at(body.streams, name, i));
        assert(lists_last_at(streams, name, i));
        assert(streams[i].1 == restored_stream(name, body.streams[i].1));
    }
}

/// A record of a stream stands for a stream.
pub open spec fn stands_for(
    name: Seq<char>,
    record: PersistedStreamView,
    stream: StreamView,
) -> bool {
    match record {
        PersistedStreamView::Legacy(messages) => {
            &&& stream.messages == messages
            &&& stream.lifecycle == StreamLifecycle::Active
            &&& stream.stream_id == "stream/"@ + name
            &&& stream.group_id == "group/"@ + name + "/data"@
        },
        PersistedStreamView::Current { stream_id, group_id, lifecycle, messages } => {
            &&& stream.messages == messages
            &&& stream.stream_id == stream_id
            &&& stream.group_id == group_id
            &&& stream.lifecycle == StreamLifecycle::Creating <==> lifecycle == Some(
                StreamLifecycle::Creating,
            )
        },
    }
}

/// A node starts from the later of its checkpoint and its snapshot. It starts from the
/// snapshot if the snapshot holds an entry of a higher term than the checkpoint, or of
/// the same term and a higher index, or if there is a snapshot of some entry and a
/// checkpoint of none; otherwise from the checkpoint; and from nothing where there is
/// neither.
pub proof fn law_recovery_starts_from_the_later(
    checkpoint: Option<PersistedState>,
    meta: SnapshotMetaView,
    body: PersistedBodyView,
)
    ensures
        ({
            let none = recovered_machine(checkpoint, None);
            let with = recovered_machine(checkpoint, Some((meta, body)));
            let last = none.last_applied_log;
            let newer = meta.last_log_id is Some && (last is None || meta.last_log_id->0.term
                > last->0.term || (meta.last_log_id->0.term == last->0.term
                && meta.last_log_id->0.index > last->0.index));
            &&& match checkpoint {
                Some(persisted) => {
                    &&& none.last_applied_log == persisted.last_applied_log
                    &&& none.last_membership == persisted.last_membership@
                    &&& none.state == restored(persisted.body@)
                },
                None => {
                    &&& none.last_applied_log is None
                    &&& none.last_membership.log_id is None
                    &&& none.last_membership.membership.configs.len() == 0
                    &&& none.last_membership.membership.nodes.len() == 0
                    &&& none.state.streams == Map::<Seq<char>, StreamView>::empty()
                    &&& none.state.consumers == Map::<(Seq<char>, Seq<char>), u64>::empty()
                    &&& none.state.group_consumers == Map::<
                        (Seq<char>, Seq<char>),
                        GroupConsumerView,
                    >::empty()
                    &&& none.state.dedup == Map::<Seq<char>, Map<Seq<char>, u64>>::empty()
                    &&& none.state.lease_clock_ms == 0
                    &&& none.state.redeliveries == 0
                    &&& none.state.dead_letters == 0
                },
            }
            &&& !newer ==> with == none
            &&& newer ==> {
                &&& with.last_applied_log == meta.last_log_id
                &&& with.last_membership == meta.last_membership
                &&& with.state == restored(body)
            }
            &&& snapshot_machine(meta, body).last_applied_log == meta.last_log_id
            &&& snapshot_machine(meta, body).last_membership == meta.last_membership
            &&& snapshot_machine(meta, body).state == restored(body)
        }),
{
}

/// The formats that are read: the first and the second of checkpoints and snapshots, and
/// the first of journal records; and nothing may be longer than sixty-four mebibytes.
pub proof fn law_known_formats_are_read(version: u32, decoded: Result<JournalEntry, String>)
    ensures
        is_supported_version(version) <==> version == 1 || version == 2,
        is_good(decoded) <==> decoded is Ok && decoded->Ok_0.version == 1,
        MAX_RECORD_SIZE == 64 * 1024 * 1024,
        MAX_FRAME_SIZE == 64 * 1024 * 1024,
{
}

/// In a journal and between nodes the length stands in front, in four bytes: the lowest
/// first in a journal, and the highest first between nodes. The bytes follow as they are.
pub proof fn law_lengths_stand_in_front(payload: Seq<u8>)
    requires
        payload.len() <= u32::MAX,
    ensures
        framed(payload).len() == 4 + payload.len(),
        framed(payload)[0] + 256 * framed(payload)[1] + 256 * 256 * framed(payload)[2] + 256 * 256
            * 256 * framed(payload)[3] == payload.len(),
        forall|i: int| 0 <= i < payload.len() ==> #[trigger] payload[i] == framed(payload)[4 + i],
        frame_of(payload).len() == 4 + payload.len(),
        frame_of(payload)[3] + 256 * frame_of(payload)[2] + 256 * 256 * frame_of(payload)[1] + 256
            * 256 * 256 * frame_of(payload)[0] == payload.len(),
        forall|i: int| 0 <= i < payload.len() ==> #[trigger] payload[i] == frame_of(payload)[4
            + i],
{
    law_bytes_count_by_their_place(payload.len() as u32, 0, 0, 0, 0);
}

/// The first record of a journal from a place on. There is none at the end; fewer than
/// four bytes, or fewer than the four say, are a record that was cut short; four that say
/// more than a record may have are an error; and otherwise the record is the bytes that
/// follow, as many as the four say, and the rest of the journal comes behind it.
pub proof fn law_journals_are_read_record_by_record(bytes: Seq<u8>, at: nat)
    requires
        at <= bytes.len() <= usize::MAX,
    ensures
        ({
            let (places, end) = records_from(bytes, at);
            let left = bytes.len() - at;
            let n = bytes[at as int] + 256 * bytes[at as int + 1] + 256 * 256 * bytes[at as int + 2] + 256 * 256
                * 256 * bytes[at as int + 3];
            &&& left == 0 ==> places.len() == 0 && end == JournalEnd::Complete
            &&& 0 < left < 4 ==> places.len() == 0 && end == (JournalEnd::Truncated {
                at: at as usize,
            })
            &&& left >= 4 && n > 64 * 1024 * 1024 ==> places.len() == 0 && end == (
            JournalEnd::TooLarge { len: n as u32 })
            &&& left >= 4 && n <= 64 * 1024 * 1024 && left < 4 + n ==> places.len() == 0 && end == (
            JournalEnd::Truncated { at: at as usize })
            &&& left >= 4 && n <= 64 * 1024 * 1024 && left >= 4 + n ==> {
                &&& places.len() > 0
                &&& places[0].0 == at + 4
                &&& places[0].1 == at + 4 + n
                &&& places.drop_first() == records_from(bytes, (at + 4 + n) as nat).0
                &&& end == records_from(bytes, (at + 4 + n) as nat).1
            }
        }),
{
    let left = bytes.len() - at;
    if left >= 4 {
        let head = bytes.subrange(at as int, at as int + 4);
        assert(head =~= seq![
            bytes[at as int],
            bytes[at as int + 1],
            bytes[at as int + 2],
            bytes[at as int + 3],
        ]);
        law_bytes_count_by_their_place(
            0,
            bytes[at as int],
            bytes[at as int + 1],
            bytes[at as int + 2],
            bytes[at as int + 3],
        );
        let n = number_of(head);
        if n <= MAX_RECORD_SIZE && left >= 4 + n {
            let rest = records_from(bytes, at + 4 + n).0;
            assert(records_from(bytes, at).0.drop_first() =~= rest);
        }
    }
}

/// A record of a journal is taken in if it is of a higher term than what the state
/// machine has, or of the same term and a higher index, or if the state machine has
/// nothing; and it is kept in the journal for as long. Records are taken in one by one,
/// in order, and do what their log entries do.
pub proof fn law_journals_bring_what_is_new(
    machine: MachineView,
    records: Seq<JournalEntry>,
    record: JournalEntry,
    kind: GroupKind,
)
    ensures
        ({
            let before = replayed(machine, records, kind);
            let after = replayed(machine, records.push(record), kind);
            let last = before.last_applied_log;
            let new = last is None || record.log_id.term > last->0.term || (record.log_id.term
                == last->0.term && record.log_id.index > last->0.index);
            &&& replayed(machine, Seq::empty(), kind) == machine
            &&& new ==> after == entry_step(
                before,
                Entry { log_id: record.log_id, payload: record.payload },
                kind,
            ).0
            &&& !new ==> after == before
            &&& is_news(before, record) <==> new
            &&& comes_after(last)(record) <==> new
            &&& entry_of(record).log_id == record.log_id
            &&& entry_of(record).payload == record.payload
        }),
{
    assert(records.push(record).drop_last() =~= records);
}

/// The records of a journal that are kept are those that are new, each of them, in order.
pub proof fn law_journals_keep_what_is_new(
    entries: Vec<JournalEntry>,
    last: Option<LogId>,
    kept: Vec<JournalEntry>,
    i: int,
)
    requires
        call_ensures(retained, (entries, last), kept),
        0 <= i < entries@.len(),
    ensures
        ({
            let id = entries@[i].log_id;
            let new = last is None || id.term > last->0.term || (id.term == last->0.term
                && id.index > last->0.index);
            kept@.contains(entries@[i]) <==> new
        }),
        forall|j: int|
            0 <= j < kept@.len() ==> entries@.contains(#[trigger] kept@[j]),
{
    let p = comes_after(last);
    broadcast use vstd::seq_lib::group_filter_ensures;

    assert(entries@.contains(entries@[i]));
    assert(kept@ == entries@.filter(p));
    if kept@.contains(entries@[i]) {
        entries@.lemma_filter_contains_rev(p, entries@[i]);
    }
    assert forall|j: int| 0 <= j < kept@.len() implies entries@.contains(#[trigger] kept@[j]) by {
        assert(kept@.contains(kept@[j]));
        entries@.lemma_filter_contains_rev(p, kept@[j]);
    }
}

/// The bytes that are kept are those of the payloads and the keys, of every message of
/// every stream; and the deliveries that are out are those of every group.
pub proof fn law_what_is_kept_adds_up(
    messages: Seq<StoredMessageView>,
    message: StoredMessageView,
    names: Seq<Seq<char>>,
    name: Seq<char>,
    streams: Map<Seq<char>, StreamView>,
    groups: Seq<(Seq<char>, Seq<char>)>,
    group: (Seq<char>, Seq<char>),
    states: Map<(Seq<char>, Seq<char>), GroupConsumerView>,
)
    ensures
        messages_bytes(Seq::empty()) == 0,
        messages_bytes(messages.push(message)) == messages_bytes(messages) + message.payload.len()
            + (if message.key is Some {
            encode_utf8(message.key->0).len()
        } else {
            0
        }),
        streams_bytes(Seq::empty(), streams) == 0,
        streams_bytes(names.push(name), streams) == streams_bytes(names, streams) + messages_bytes(
            streams[name].messages,
        ),
        groups_in_flight(Seq::empty(), states) == 0,
        groups_in_flight(groups.push(group), states) == groups_in_flight(groups, states)
            + states[group].in_flight.dom().len(),
{
    assert(messages.push(message).drop_last() =~= messages);
    assert(names.push(name).drop_last() =~= names);
    assert(groups.push(group).drop_last() =~= groups);
}

/// What a plain consumer is shown is the message at the offset that it has come to, as it
/// is stored; nothing where it has come to the end; and an error where there is no such
/// stream or it is not in use.
pub proof fn law_plain_consumers_are_shown_what_is_next(
    state: SnapshotState,
    stream: String,
    consumer: String,
    shown: Result<PollResult, BrokerError>,
)
    requires
        call_ensures(SnapshotState::poll, (&state, &stream, &consumer), shown),
    ensures
        ({
            let key = (stream@, consumer@);
            let messages = state@.streams[stream@].messages;
            let next: u64 = if state@.consumers.contains_key(key) {
                state@.consumers[key]
            } else {
                0
            };
            let there = state@.streams.contains_key(stream@);
            let used = there && state@.streams[stream@].lifecycle == StreamLifecycle::Active;
            &&& !there ==> (shown matches Err(
                BrokerError::StreamNotFound(name),
            ) && name@ == stream@)
            &&& there && !used ==> shown is Err && shown->Err_0 is Cluster
            &&& used && next >= messages.len() ==> shown == Ok::<
                PollResult,
                BrokerError,
            >(PollResult::Empty)
            &&& used && next < messages.len() ==> {
                &&& shown matches Ok(PollResult::Message(message))
                &&& message.stream@ == stream@
                &&& message.offset == next
                &&& message@.key == messages[next as int].key
                &&& message.payload@ == messages[next as int].payload
                &&& message.published_at_ms == messages[next as int].published_at_ms
                &&& message.delivery_token is None
                &&& message.delivery_attempt is None
            }
        }),
{
}

/// A stream says of itself what it is: its own identities, or those of its name where it
/// has none of its own, and whether it is in use. What is not there says nothing.
pub proof fn law_streams_say_what_they_are(
    state: SnapshotState,
    stream: String,
    said: Result<StreamMetadata, BrokerError>,
)
    requires
        call_ensures(SnapshotState::metadata, (&state, &stream), said),
    ensures
        ({
            let s = state@.streams[stream@];
            &&& said is Ok <==> state@.streams.contains_key(stream@)
            &&& said matches Err(error) ==> error matches BrokerError::StreamNotFound(name)
                && name@ == stream@
            &&& said matches Ok(metadata) ==> {
                &&& metadata.lifecycle == s.lifecycle
                &&& s.stream_id.len() > 0 ==> metadata.stream_id@ == s.stream_id
                &&& s.stream_id.len() == 0 ==> metadata.stream_id@ == "stream/"@ + stream@
                &&& s.group_id.len() > 0 ==> metadata.group_id@ == s.group_id
                &&& s.group_id.len() == 0 ==> metadata.group_id@ == "group/"@ + stream@ + "/data"@
            }
        }),
{
}

/// Metadata is that of a stream: how far it has come into being, and its identity where it
/// has one of its own.
pub open spec fn is_said_of(said: StreamMetadata, stream: StreamView) -> bool {
    &&& said.lifecycle == stream.lifecycle
    &&& stream.stream_id.len() > 0 ==> said.stream_id@ == stream.stream_id
    &&& stream.group_id.len() > 0 ==> said.group_id@ == stream.group_id
}

/// The stream that a group is for is found by the group's identity: the first of that
/// identity if there is one, with what it is, and nothing if there is none. So is the stream that a
/// dead-letter stream takes from, by its name.
pub proof fn law_streams_are_found_by_what_they_are(
    state: SnapshotState,
    sought: String,
    by_group: Option<(String, StreamMetadata)>,
    by_name: Option<(String, StreamMetadata)>,
)
    requires
        call_ensures(SnapshotState::metadata_by_group_id, (&state, &sought), by_group),
        call_ensures(SnapshotState::dead_letter_source, (&state, &sought), by_name),
    ensures
        ({
            let names = state.streams.keys();
            &&& by_group matches Some((name, said)) ==> exists|i: int|
                {
                    &&& 0 <= i < names.len()
                    &&& #[trigger] names[i] == name@
                    &&& is_said_of(said, state@.streams[name@])
                    &&& state@.streams[name@].group_id == sought@
                    &&& forall|j: int|
                        0 <= j < i ==> state@.streams[#[trigger] names[j]].group_id != sought@
                }
            &&& by_group is None ==> forall|i: int|
                0 <= i < names.len() ==> state@.streams[#[trigger] names[i]].group_id != sought@
            &&& by_name matches Some((name, said)) ==> exists|i: int|
                {
                    &&& 0 <= i < names.len()
                    &&& #[trigger] names[i] == name@
                    &&& is_said_of(said, state@.streams[name@])
                    &&& dead_letters_go_to(name@, sought@)
                    &&& forall|j: int|
                        0 <= j < i && encode_utf8((#[trigger] names[j]) + ".dead-letter"@).len()
                            <= 128 ==> sought@ != names[j] + ".dead-letter"@
                }
            &&& by_name is None ==> forall|i: int|
                0 <= i < names.len() && encode_utf8((#[trigger] names[i]) + ".dead-letter"@).len()
                    <= 128 ==> sought@ != names[i] + ".dead-letter"@
        }),
{
    let names = state.streams.keys();
    if let Some((name, said)) = by_name {
        let p = is_source_of(sought@);
        let i = choose|i: int|
            0 <= i < names.len() && #[trigger] names[i] == name@ && p(names[i]) && said@
                == metadata_of(names[i], state@.streams[names[i]]) && forall|j: int|
                0 <= j < i ==> !p(#[trigger] names[j]);
        lemma_fixed_hex(fnv1a(encode_utf8(name@)) as nat, 16);
        assert(names[i] == name@);
        assert forall|j: int|
            0 <= j < i && encode_utf8((#[trigger] names[j]) + ".dead-letter"@).len()
                <= 128 implies sought@ != names[j] + ".dead-letter"@ by {
            assert(!p(names[j]));
        }
        assert(dead_letter_name(name@) == sought@);
    }
    if by_name is None {
        let p = is_source_of(sought@);
        assert forall|i: int|
            0 <= i < names.len() && encode_utf8((#[trigger] names[i]) + ".dead-letter"@).len()
                <= 128 implies sought@ != names[i] + ".dead-letter"@ by {
            assert(!p(names[i]));
        }
    }
    if by_group is None {
        let p = is_in_group(state@.streams, sought@);
        assert forall|i: int| 0 <= i < names.len() implies state@.streams[#[trigger] names[
            i
        ]].group_id != sought@ by {
            assert(!p(names[i]));
        }
    }
    if let Some((name, said)) = by_group {
        let p = is_in_group(state@.streams, sought@);
        let i = choose|i: int|
            0 <= i < names.len() && #[trigger] names[i] == name@ && p(names[i]) && said@
                == metadata_of(names[i], state@.streams[names[i]]) && forall|j: int|
                0 <= j < i ==> !p(#[trigger] names[j]);
        assert(names[i] == name@);
        assert forall|j: int| 0 <= j < i implies state@.streams[#[trigger] names[j]].group_id
            != sought@ by {
            assert(!p(names[j]));
        }
    }
}

} // verus!
