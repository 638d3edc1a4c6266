//! What holds over many commands: of replicas that take in the same log, and of
//! requests that come again after others.

use vstd::prelude::*;

use crate::delivery::{
    acked_group, expired, group_ack_step, group_poll_step, is_dead_letter_name, is_done, later,
    stream_is_active, GroupAckRequest, GroupPollRequest,
};
use crate::delivery_laws::{
    attempts_within, hands_out_within, law_acknowledging_makes_done,
    law_commands_keep_deliveries_in_order, law_delivered_messages_are_held,
    law_done_offsets_are_already_acknowledged, law_done_stays_done, law_history_only_grows,
    law_lease_clock_never_goes_back, law_limited_polls_hand_out_within_the_limit,
    law_polling_again_gives_the_same_delivery, law_progress_never_goes_back,
    law_request_identities_are_remembered, polls_for, polls_within, progress_extends, state_fits,
    state_sound, stream_extends, streams_extend,
};
use crate::engine::PollResultView;
use crate::log_entry::{Entry, EntryPayload};
use crate::log_id::LogId;
use crate::state_machine::{
    command_step, known_offset, publish_step, Command, GroupKind, ResponseView, SnapshotView,
    StoredMessageView, StreamView,
};
use crate::state_machine_store::{
    entries_can_apply, entry_acks_the_last_offset, entry_step, law_batches_do_not_matter,
    machine_after, responses_to, MachineView,
};

verus! {

/// Two commands say the same.
pub open spec fn same_command(a: Command, b: Command) -> bool {
    match (a, b) {
        (
            Command::CreateStream { stream, stream_id, group_id },
            Command::CreateStream { stream: s, stream_id: i, group_id: g },
        ) => stream@ == s@ && stream_id.deep_view() == i.deep_view() && group_id.deep_view()
            == g.deep_view(),
        (
            Command::InitializeDataStream { stream, stream_id, group_id },
            Command::InitializeDataStream { stream: s, stream_id: i, group_id: g },
        ) => stream@ == s@ && stream_id@ == i@ && group_id@ == g@,
        (Command::ActivateStream { stream }, Command::ActivateStream { stream: s }) => stream@
            == s@,
        (
            Command::Publish { stream, key, payload, published_at_ms, request_id },
            Command::Publish { stream: s, key: k, payload: p, published_at_ms: t, request_id: r },
        ) => stream@ == s@ && key.deep_view() == k.deep_view() && payload@ == p@ && published_at_ms
            == t && request_id.deep_view() == r.deep_view(),
        (
            Command::Ack { stream, consumer, offset },
            Command::Ack { stream: s, consumer: c, offset: o },
        ) => stream@ == s@ && consumer@ == c@ && offset == o,
        (
            Command::Replay { stream, consumer, offset },
            Command::Replay { stream: s, consumer: c, offset: o },
        ) => stream@ == s@ && consumer@ == c@ && offset == o,
        (
            Command::PollGroup {
                stream,
                consumer,
                member,
                now_ms,
                lease_deadline_ms,
                max_delivery_attempts,
            },
            Command::PollGroup {
                stream: s,
                consumer: c,
                member: m,
                now_ms: n,
                lease_deadline_ms: d,
                max_delivery_attempts: a,
            },
        ) => stream@ == s@ && consumer@ == c@ && member@ == m@ && now_ms == n && lease_deadline_ms
            == d && max_delivery_attempts == a,
        (
            Command::AckGroup { stream, consumer, member, offset, delivery_token, now_ms },
            Command::AckGroup {
                stream: s,
                consumer: c,
                member: m,
                offset: o,
                delivery_token: t,
                now_ms: n,
            },
        ) => stream@ == s@ && consumer@ == c@ && member@ == m@ && offset == o && delivery_token@
            == t@ && now_ms == n,
        _ => false,
    }
}

/// Two groups are for the same.
pub open spec fn same_kind(a: GroupKind, b: GroupKind) -> bool {
    match (a, b) {
        (GroupKind::Combined, GroupKind::Combined) => true,
        (GroupKind::Metadata, GroupKind::Metadata) => true,
        (
            GroupKind::Data { stream, stream_id, group_id },
            GroupKind::Data { stream: s, stream_id: i, group_id: g },
        ) => stream@ == s@ && stream_id@ == i@ && group_id@ == g@,
        _ => false,
    }
}

/// Two log entries say the same.
pub open spec fn same_entry(a: Entry, b: Entry) -> bool {
    &&& a.log_id == b.log_id
    &&& match (a.payload, b.payload) {
        (EntryPayload::Blank, EntryPayload::Blank) => true,
        (EntryPayload::Normal(x), EntryPayload::Normal(y)) => same_command(x, y),
        (EntryPayload::Membership(x), EntryPayload::Membership(y)) => x@ == y@,
        _ => false,
    }
}

/// Replicas that are equal stay equal, and give the same answer, when they take in
/// the same command under the same log entry: what a command does depends on
/// nothing else, tokens and the expiry of leases included.
pub proof fn law_equal_replicas_stay_equal(
    left: SnapshotView,
    right: SnapshotView,
    left_command: Command,
    right_command: Command,
    left_kind: GroupKind,
    right_kind: GroupKind,
    log_id: LogId,
)
    requires
        left == right,
        same_command(left_command, right_command),
        same_kind(left_kind, right_kind),
    ensures
        command_step(left, left_command, left_kind, log_id) == command_step(
            right,
            right_command,
            right_kind,
            log_id,
        ),
{
}

/// Replicas that start equal and take in the same log come to the same state, and
/// give the same answers.
pub proof fn law_equal_logs_make_equal_replicas(
    machine: MachineView,
    left: Seq<Entry>,
    right: Seq<Entry>,
    left_kind: GroupKind,
    right_kind: GroupKind,
)
    requires
        left.len() == right.len(),
        forall|i: int| 0 <= i < left.len() ==> same_entry(#[trigger] left[i], right[i]),
        same_kind(left_kind, right_kind),
    ensures
        machine_after(machine, left, left_kind) == machine_after(machine, right, right_kind),
        responses_to(machine, left, left_kind) == responses_to(machine, right, right_kind),
    decreases left.len(),
{
    if left.len() > 0 {
        law_equal_logs_make_equal_replicas(
            machine,
            left.drop_last(),
            right.drop_last(),
            left_kind,
            right_kind,
        );
        lemma_equal_entries(
            machine_after(machine, left.drop_last(), left_kind),
            left.last(),
            right.last(),
            left_kind,
            right_kind,
        );
    }
    assert forall|i: int| 0 <= i < left.len() implies #[trigger] responses_to(
        machine,
        left,
        left_kind,
    )[i] == responses_to(machine, right, right_kind)[i] by {
        law_equal_logs_make_equal_replicas(
            machine,
            left.take(i),
            right.take(i),
            left_kind,
            right_kind,
        );
        lemma_equal_entries(
            machine_after(machine, left.take(i), left_kind),
            left[i],
            right[i],
            left_kind,
            right_kind,
        );
    }
    assert(responses_to(machine, left, left_kind) =~= responses_to(machine, right, right_kind));
}

/// Entries that say the same do the same.
proof fn lemma_equal_entries(
    machine: MachineView,
    left: Entry,
    right: Entry,
    left_kind: GroupKind,
    right_kind: GroupKind,
)
    requires
        same_entry(left, right),
        same_kind(left_kind, right_kind),
    ensures
        entry_step(machine, left, left_kind) == entry_step(machine, right, right_kind),
{
    match (left.payload, right.payload) {
        (EntryPayload::Normal(x), EntryPayload::Normal(y)) => {
            law_equal_replicas_stay_equal(
                machine.state,
                machine.state,
                x,
                y,
                left_kind,
                right_kind,
                left.log_id,
            );
        },
        _ => {},
    }
}

/// Streams that keep all that they have, twice over, keep it.
proof fn lemma_extends_twice(
    first: Map<Seq<char>, StreamView>,
    second: Map<Seq<char>, StreamView>,
    third: Map<Seq<char>, StreamView>,
)
    requires
        streams_extend(first, second),
        streams_extend(second, third),
    ensures
        streams_extend(first, third),
{
    assert forall|s: Seq<char>| #[trigger] first.contains_key(s) implies third.contains_key(s)
        && stream_extends(first[s], third[s]) by {
        assert(second.contains_key(s));
        let n = first[s].messages.len() as int;
        assert(third[s].messages.take(n) =~= third[s].messages.take(
            second[s].messages.len() as int,
        ).take(n));
    }
}

/// Over any log entries, history only grows.
pub proof fn law_history_only_grows_over_a_log(
    machine: MachineView,
    entries: Seq<Entry>,
    kind: GroupKind,
)
    ensures
        streams_extend(
            machine.state.streams,
            machine_after(machine, entries, kind).state.streams,
        ),
    decreases entries.len(),
{
    if entries.len() == 0 {
        let streams = machine.state.streams;
        assert forall|s: Seq<char>| #[trigger] streams.contains_key(s) implies stream_extends(
            streams[s],
            streams[s],
        ) by {
            let messages = streams[s].messages;
            assert(messages.take(messages.len() as int) =~= messages);
        }
    } else {
        let before = machine_after(machine, entries.drop_last(), kind);
        law_history_only_grows_over_a_log(machine, entries.drop_last(), kind);
        let after = machine_after(machine, entries, kind);
        match entries.last().payload {
            EntryPayload::Normal(command) => {
                law_history_only_grows(before.state, command, kind, entries.last().log_id);
                lemma_extends_twice(
                    machine.state.streams,
                    before.state.streams,
                    after.state.streams,
                );
            },
            _ => {},
        }
    }
}

/// Over any log entries, progress is never lost, and the clock by which leases
/// expire does not go back.
pub proof fn law_progress_never_goes_back_over_a_log(
    machine: MachineView,
    entries: Seq<Entry>,
    kind: GroupKind,
)
    requires
        entries_can_apply(machine, entries, kind),
    ensures
        progress_extends(machine.state, machine_after(machine, entries, kind).state),
        machine.state.lease_clock_ms <= machine_after(machine, entries, kind).state.lease_clock_ms,
    decreases entries.len(),
{
    if entries.len() > 0 {
        let rest = entries.drop_last();
        let before = machine_after(machine, rest, kind);
        let after = machine_after(machine, entries, kind);
        let last = entries[entries.len() - 1];
        assert(entries.take(entries.len() - 1) =~= rest);
        assert(!entry_acks_the_last_offset(before, last, kind));
        assert forall|i: int| 0 <= i < rest.len() implies !entry_acks_the_last_offset(
            machine_after(machine, rest.take(i), kind),
            #[trigger] rest[i],
            kind,
        ) by {
            assert(rest.take(i) =~= entries.take(i));
            assert(rest[i] == entries[i]);
        }
        law_progress_never_goes_back_over_a_log(machine, rest, kind);
        match last.payload {
            EntryPayload::Normal(command) => {
                law_progress_never_goes_back(before.state, command, kind, last.log_id);
                law_lease_clock_never_goes_back(before.state, command, kind, last.log_id);
                assert forall|k: (Seq<char>, Seq<char>)| #[trigger]
                    machine.state.consumers.contains_key(k) implies
                    after.state.consumers.contains_key(k) && machine.state.consumers[k]
                    <= after.state.consumers[k] by {
                    assert(before.state.consumers.contains_key(k));
                }
                assert forall|k: (Seq<char>, Seq<char>)| #[trigger]
                    machine.state.group_consumers.contains_key(k) implies
                    after.state.group_consumers.contains_key(k)
                    && machine.state.group_consumers[k].committed_offset
                    <= after.state.group_consumers[k].committed_offset by {
                    assert(before.state.group_consumers.contains_key(k));
                }
            },
            _ => {},
        }
    }
}

/// Where the streams fit after some log entries, they fit after the first of them.
proof fn lemma_prefix_fits(machine: MachineView, entries: Seq<Entry>, kind: GroupKind, n: int)
    requires
        0 <= n <= entries.len(),
        state_fits(machine_after(machine, entries, kind).state),
    ensures
        state_fits(machine_after(machine, entries.take(n), kind).state),
{
    let middle = machine_after(machine, entries.take(n), kind);
    let end = machine_after(machine, entries, kind);
    assert(entries =~= entries.take(n) + entries.skip(n));
    law_batches_do_not_matter(machine, entries.take(n), entries.skip(n), kind);
    law_history_only_grows_over_a_log(middle, entries.skip(n), kind);
    assert forall|s: Seq<char>| #[trigger] middle.state.streams.contains_key(s) implies
        middle.state.streams[s].messages.len() <= u64::MAX by {
        assert(end.state.streams.contains_key(s));
    }
}

/// Over any log entries, deliveries stay in order.
pub proof fn law_deliveries_stay_in_order_over_a_log(
    machine: MachineView,
    entries: Seq<Entry>,
    kind: GroupKind,
)
    requires
        state_sound(machine.state),
        state_fits(machine_after(machine, entries, kind).state),
    ensures
        state_sound(machine_after(machine, entries, kind).state),
    decreases entries.len(),
{
    if entries.len() > 0 {
        let before = machine_after(machine, entries.drop_last(), kind);
        let after = machine_after(machine, entries, kind);
        match entries.last().payload {
            EntryPayload::Normal(command) => {
                law_history_only_grows(before.state, command, kind, entries.last().log_id);
                let streams = before.state.streams;
                assert forall|s: Seq<char>| #[trigger] streams.contains_key(s) implies
                    streams[s].messages.len() <= u64::MAX by {
                    assert(after.state.streams.contains_key(s));
                }
                law_deliveries_stay_in_order_over_a_log(machine, entries.drop_last(), kind);
                law_commands_keep_deliveries_in_order(
                    before.state,
                    command,
                    kind,
                    entries.last().log_id,
                );
            },
            _ => {
                law_deliveries_stay_in_order_over_a_log(machine, entries.drop_last(), kind);
            },
        }
    }
}

/// Over any log in which a group polls under a limit only, nothing is counted as
/// delivered to it more often than that.
proof fn lemma_attempts_stay_within_the_limit(
    machine: MachineView,
    entries: Seq<Entry>,
    kind: GroupKind,
    key: (Seq<char>, Seq<char>),
    most: u32,
)
    requires
        state_sound(machine.state),
        state_fits(machine_after(machine, entries, kind).state),
        !is_dead_letter_name(key.0),
        attempts_within(machine.state, key, most),
        forall|i: int|
            0 <= i < entries.len() ==> ((#[trigger] entries[i]).payload is Normal ==> polls_within(
                entries[i].payload->Normal_0,
                key,
                most,
            )),
    ensures
        attempts_within(machine_after(machine, entries, kind).state, key, most),
    decreases entries.len(),
{
    if entries.len() > 0 {
        let rest = entries.drop_last();
        let last = entries[entries.len() - 1];
        let before = machine_after(machine, rest, kind);
        assert(entries.take(entries.len() - 1) =~= rest);
        lemma_prefix_fits(machine, entries, kind, entries.len() - 1);
        assert forall|i: int| 0 <= i < rest.len() implies ((#[trigger] rest[i]).payload is Normal
            ==> polls_within(rest[i].payload->Normal_0, key, most)) by {
            assert(rest[i] == entries[i]);
        }
        lemma_attempts_stay_within_the_limit(machine, rest, kind, key, most);
        law_deliveries_stay_in_order_over_a_log(machine, rest, kind);
        match last.payload {
            EntryPayload::Normal(command) => {
                law_limited_polls_hand_out_within_the_limit(
                    before.state,
                    command,
                    kind,
                    last.log_id,
                    key,
                    most,
                );
            },
            _ => {},
        }
    }
}

/// Over any log in which every poll of a group carries a limit of at most a number
/// of deliveries, each message that the group is handed is handed out under an
/// attempt from the first up to that number, and no more are counted. (A dead-letter
/// stream is delivered without limit, and is left out.)
pub proof fn law_deliveries_stay_within_the_limit_over_a_log(
    machine: MachineView,
    entries: Seq<Entry>,
    kind: GroupKind,
    key: (Seq<char>, Seq<char>),
    most: u32,
)
    requires
        state_sound(machine.state),
        state_fits(machine_after(machine, entries, kind).state),
        !is_dead_letter_name(key.0),
        attempts_within(machine.state, key, most),
        forall|i: int|
            0 <= i < entries.len() ==> ((#[trigger] entries[i]).payload is Normal ==> polls_within(
                entries[i].payload->Normal_0,
                key,
                most,
            )),
    ensures
        attempts_within(machine_after(machine, entries, kind).state, key, most),
        forall|i: int|
            0 <= i < entries.len() && (#[trigger] entries[i]).payload is Normal && polls_for(
                entries[i].payload->Normal_0,
                key,
            ) ==> hands_out_within(responses_to(machine, entries, kind)[i], most),
{
    lemma_attempts_stay_within_the_limit(machine, entries, kind, key, most);
    assert forall|i: int|
        0 <= i < entries.len() && (#[trigger] entries[i]).payload is Normal && polls_for(
            entries[i].payload->Normal_0,
            key,
        ) implies hands_out_within(responses_to(machine, entries, kind)[i], most) by {
        let first = entries.take(i);
        lemma_prefix_fits(machine, entries, kind, i);
        assert forall|j: int| 0 <= j < first.len() implies ((#[trigger] first[j]).payload is Normal
            ==> polls_within(first[j].payload->Normal_0, key, most)) by {
            assert(first[j] == entries[j]);
        }
        lemma_attempts_stay_within_the_limit(machine, first, kind, key, most);
        law_deliveries_stay_in_order_over_a_log(machine, first, kind);
        law_limited_polls_hand_out_within_the_limit(
            machine_after(machine, first, kind).state,
            entries[i].payload->Normal_0,
            kind,
            entries[i].log_id,
            key,
            most,
        );
    }
}

/// Over any log entries, what a group has done stays done. (The highest offset
/// there is has none after it, and is left out.)
pub proof fn law_done_stays_done_over_a_log(
    machine: MachineView,
    entries: Seq<Entry>,
    kind: GroupKind,
    key: (Seq<char>, Seq<char>),
    o: u64,
)
    requires
        machine.state.group_consumers.contains_key(key),
        is_done(machine.state.group_consumers[key], o),
        o < u64::MAX,
    ensures
        ({
            let after = machine_after(machine, entries, kind).state;
            after.group_consumers.contains_key(key) && is_done(after.group_consumers[key], o)
        }),
    decreases entries.len(),
{
    if entries.len() > 0 {
        let before = machine_after(machine, entries.drop_last(), kind);
        law_done_stays_done_over_a_log(machine, entries.drop_last(), kind, key, o);
        match entries.last().payload {
            EntryPayload::Normal(command) => {
                law_done_stays_done(before.state, command, kind, entries.last().log_id, key, o);
            },
            _ => {},
        }
    }
}

/// Over any log entries, a request identity is remembered.
pub proof fn law_request_identities_are_remembered_over_a_log(
    machine: MachineView,
    entries: Seq<Entry>,
    kind: GroupKind,
    stream: Seq<char>,
    request_id: Seq<char>,
)
    requires
        known_offset(machine.state, stream, Some(request_id)) is Some,
    ensures
        known_offset(machine_after(machine, entries, kind).state, stream, Some(request_id))
            == known_offset(machine.state, stream, Some(request_id)),
    decreases entries.len(),
{
    if entries.len() > 0 {
        let before = machine_after(machine, entries.drop_last(), kind);
        law_request_identities_are_remembered_over_a_log(
            machine,
            entries.drop_last(),
            kind,
            stream,
            request_id,
        );
        match entries.last().payload {
            EntryPayload::Normal(command) => {
                law_request_identities_are_remembered(
                    before.state,
                    command,
                    kind,
                    entries.last().log_id,
                    stream,
                    request_id,
                );
            },
            _ => {},
        }
    }
}

/// A publication that is tried again under its request identity is not kept
/// again: whatever came in between, and whatever it brings the second time, it is
/// answered with the offset of the first, and nothing changes.
pub proof fn law_retried_publication_is_kept_once(
    machine: MachineView,
    stream: Seq<char>,
    first: StoredMessageView,
    second: StoredMessageView,
    request_id: Seq<char>,
    between: Seq<Entry>,
    kind: GroupKind,
)
    requires
        publish_step(machine.state, stream, first, Some(request_id), kind).1 is Published,
    ensures
        ({
            let (state, answer) = publish_step(
                machine.state,
                stream,
                first,
                Some(request_id),
                kind,
            );
            let then = machine_after(MachineView { state, ..machine }, between, kind).state;
            publish_step(then, stream, second, Some(request_id), kind) == (then, answer)
        }),
{
    let state = publish_step(machine.state, stream, first, Some(request_id), kind).0;
    law_request_identities_are_remembered_over_a_log(
        MachineView { state, ..machine },
        between,
        kind,
        stream,
        request_id,
    );
}

/// An acknowledgement that is given twice is answered as done the second time,
/// whoever gives it and whatever came in between. (The highest offset there is has
/// none after it, and is left out.)
pub proof fn law_second_acknowledgement_is_already_done(
    machine: MachineView,
    first: GroupAckRequest,
    second: GroupAckRequest,
    between: Seq<Entry>,
    kind: GroupKind,
)
    requires
        group_ack_step(machine.state, first, kind).1 is GroupAcknowledged,
        first.stream@ == second.stream@,
        first.consumer@ == second.consumer@,
        first.offset == second.offset,
        first.offset < u64::MAX,
    ensures
        ({
            let state = group_ack_step(machine.state, first, kind).0;
            let then = machine_after(MachineView { state, ..machine }, between, kind).state;
            group_ack_step(then, second, kind).1 is GroupAlreadyAcknowledged
        }),
{
    let key = (first.stream@, first.consumer@);
    let group = acked_group(
        machine.state,
        key,
        later(machine.state.lease_clock_ms, first.now_ms),
    );
    law_acknowledging_makes_done(group, first.offset, first.offset);
    let state = group_ack_step(machine.state, first, kind).0;
    let started = MachineView { state, ..machine };
    law_done_stays_done_over_a_log(started, between, kind, key, first.offset);
    law_history_only_grows_over_a_log(started, between, kind);
    assert(stream_is_active(state.streams, first.stream@));
    let then = machine_after(started, between, kind).state;
    law_done_offsets_are_already_acknowledged(then, second, kind);
}

/// A member that polls again while it still holds what it was handed, and the lease
/// of that runs, is handed the same message again, under the same token and
/// attempt, whatever came in between.
pub proof fn law_repeated_polls_give_the_same_delivery(
    machine: MachineView,
    first: GroupPollRequest,
    second: GroupPollRequest,
    first_log: LogId,
    second_log: LogId,
    between: Seq<Entry>,
    kind: GroupKind,
)
    requires
        state_sound(machine.state),
        first.stream@ == second.stream@,
        first.consumer@ == second.consumer@,
        first.member@ == second.member@,
        ({
            let key = (first.stream@, first.consumer@);
            let (state, answer) = group_poll_step(machine.state, first, first_log, kind);
            let then = machine_after(MachineView { state, ..machine }, between, kind).state;
            let held = then.group_consumers[key].in_flight;
            &&& state_fits(then)
            &&& answer matches ResponseView::GroupPoll { result: PollResultView::Message(message) }
            &&& then.group_consumers.contains_key(key)
            &&& held.contains_key(message.offset)
            &&& held[message.offset]
                == state.group_consumers[key].in_flight[message.offset]
            &&& !expired(
                held[message.offset].deadline_ms,
                later(then.lease_clock_ms, second.now_ms),
            )
        }),
    ensures
        ({
            let (state, answer) = group_poll_step(machine.state, first, first_log, kind);
            let then = machine_after(MachineView { state, ..machine }, between, kind).state;
            group_poll_step(then, second, second_log, kind).1 == answer
        }),
{
    let stream = first.stream@;
    let key = (stream, first.consumer@);
    let poll = Command::PollGroup {
        stream: first.stream,
        consumer: first.consumer,
        member: first.member,
        now_ms: first.now_ms,
        lease_deadline_ms: first.lease_deadline_ms,
        max_delivery_attempts: first.max_delivery_attempts,
    };
    let (state, answer) = group_poll_step(machine.state, first, first_log, kind);
    assert(command_step(machine.state, poll, kind, first_log) == (state, answer));
    let started = MachineView { state, ..machine };
    let then = machine_after(started, between, kind).state;
    law_history_only_grows(machine.state, poll, kind, first_log);
    law_history_only_grows_over_a_log(started, between, kind);
    assert forall|s: Seq<char>| #[trigger] machine.state.streams.contains_key(s) implies
        machine.state.streams[s].messages.len() <= u64::MAX by {
        assert(state.streams.contains_key(s));
        assert(then.streams.contains_key(s));
    }
    law_commands_keep_deliveries_in_order(machine.state, poll, kind, first_log);
    law_deliveries_stay_in_order_over_a_log(started, between, kind);
    law_delivered_messages_are_held(machine.state, first, first_log, kind);
    let o = answer->GroupPoll_result->Message_0.offset;
    law_polling_again_gives_the_same_delivery(then, second, second_log, kind, o);
    let first_messages = machine.state.streams[stream].messages;
    let messages = state.streams[stream].messages;
    let last_messages = then.streams[stream].messages;
    assert(state.group_consumers.contains_key(key));
    assert(state.group_consumers[key].in_flight.contains_key(o));
    assert(last_messages.take(messages.len() as int)[o as int] == last_messages[o as int]);
    assert(messages.take(first_messages.len() as int)[o as int] == messages[o as int]);
}

} // verus!
