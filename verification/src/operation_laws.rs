//! What each operation is for, told by what it finds and what it leaves: of every
//! command, on which states it does what, and what stays as it was.

use vstd::prelude::*;
use vstd::utf8::*;

use crate::delivery::{
    acked_group, acknowledged_all, attempts_of, dead_letter_name, fnv1a, given_up, held_by,
    is_dead_letter_name, is_done, is_hashed_name, is_hex_char, is_least, is_spent, is_waiting,
    key_is_held, later, law_dead_letter_stream_is_another, law_dead_letters_do_not_recurse,
    lemma_fixed_hex, lemma_least_exists, limit_in, messages_at, next_delivery, polled_group,
    GroupAckRequest, GroupPollRequest, DEAD_LETTER_HASH_PREFIX, DEAD_LETTER_SUFFIX,
};
use crate::delivery_laws::{
    law_acknowledging_all_makes_done, law_acknowledging_keeps_the_rest,
    law_acknowledging_makes_done, law_given_up_are_the_spent, lemma_acknowledged_ahead,
    lemma_next_delivery, lemma_one_of_all, lemma_spent_ascend,
};
use crate::engine::{MessageView, PollResultView};
use crate::log_entry::Entry;
use crate::log_id::LogId;
use crate::replication_laws::law_history_only_grows_over_a_log;
use crate::state_machine::{
    command_step, Command, GroupKind, ResponseView, SnapshotView, StoredMessageView,
    StreamLifecycle,
};
use crate::state_machine_store::{machine_after, MachineView};
use crate::text::decimal;

verus! {

/// The command by which a member polls.
pub open spec fn poll_of(request: GroupPollRequest) -> Command {
    Command::PollGroup {
        stream: request.stream,
        consumer: request.consumer,
        member: request.member,
        now_ms: request.now_ms,
        lease_deadline_ms: request.lease_deadline_ms,
        max_delivery_attempts: request.max_delivery_attempts,
    }
}

/// The command by which a member acknowledges.
pub open spec fn ack_of(request: GroupAckRequest) -> Command {
    Command::AckGroup {
        stream: request.stream,
        consumer: request.consumer,
        member: request.member,
        offset: request.offset,
        delivery_token: request.delivery_token,
        now_ms: request.now_ms,
    }
}

/// A replication group that holds messages has a stream that is in use.
pub open spec fn serves(state: SnapshotView, kind: GroupKind, stream: Seq<char>) -> bool {
    &&& kind != GroupKind::Metadata
    &&& state.streams.contains_key(stream)
    &&& state.streams[stream].lifecycle == StreamLifecycle::Active
}

/// The clock by which leases are judged when a command brings a time.
pub open spec fn clock_with(state: SnapshotView, now_ms: u64) -> u64 {
    if state.lease_clock_ms < now_ms {
        now_ms
    } else {
        state.lease_clock_ms
    }
}

/// A group has nothing to do with an offset any more: it is below what the group
/// has committed, or was acknowledged apart. A group that is not there yet begins
/// at an offset.
pub open spec fn has_done(
    state: SnapshotView,
    key: (Seq<char>, Seq<char>),
    begins_at: u64,
    o: u64,
) -> bool {
    if state.group_consumers.contains_key(key) {
        o < state.group_consumers[key].committed_offset
            || state.group_consumers[key].acknowledged_offsets.contains(o)
    } else {
        o < begins_at
    }
}

/// Where a plain consumer of a name has come to.
pub open spec fn plain_progress(state: SnapshotView, key: (Seq<char>, Seq<char>)) -> u64 {
    if state.consumers.contains_key(key) {
        state.consumers[key]
    } else {
        0
    }
}

/// Somebody of a group holds the message at an offset, under a lease that ends
/// after a time.
pub open spec fn is_out(
    state: SnapshotView,
    key: (Seq<char>, Seq<char>),
    clock_ms: u64,
    o: u64,
) -> bool {
    &&& state.group_consumers.contains_key(key)
    &&& state.group_consumers[key].in_flight.contains_key(o)
    &&& state.group_consumers[key].in_flight[o].deadline_ms > clock_ms
}

/// How often a group was handed the message at an offset.
pub open spec fn times_out(state: SnapshotView, key: (Seq<char>, Seq<char>), o: u64) -> u32 {
    if state.group_consumers.contains_key(key)
        && state.group_consumers[key].delivery_attempts.contains_key(o) {
        state.group_consumers[key].delivery_attempts[o]
    } else {
        0
    }
}

/// A name is that of a stream for undeliverable messages: it ends in the suffix, or
/// is the prefix with sixteen small hexadecimal digits behind it.
pub open spec fn names_dead_letters(name: Seq<char>) -> bool {
    ||| exists|of: Seq<char>| name == #[trigger] (of + ".dead-letter"@)
    ||| exists|digits: Seq<char>|
        {
            &&& name == #[trigger] ("runnel.dead-letter."@ + digits)
            &&& digits.len() == 16
            &&& forall|i: int|
                0 <= i < 16 ==> '0' <= #[trigger] digits[i] <= '9' || 'a' <= digits[i] <= 'f'
        }
}

/// A message is free to go out to a group: it is there, the group has not done it,
/// nobody holds it, and where it has a key nobody holds a message of that very key.
pub open spec fn is_free(state: SnapshotView, request: GroupPollRequest, o: u64) -> bool {
    let key = (request.stream@, request.consumer@);
    let messages = state.streams[request.stream@].messages;
    let clock_ms = clock_with(state, request.now_ms);
    &&& o < messages.len()
    &&& !has_done(state, key, plain_progress(state, key), o)
    &&& !is_out(state, key, clock_ms, o)
    &&& messages[o as int].key is Some ==> forall|x: u64| #[trigger]
        is_out(state, key, clock_ms, x) ==> state.group_consumers[key].in_flight[x].key
            != messages[o as int].key
}

/// A message has been handed out as often as a poll allows. What a stream for
/// undeliverable messages holds may go out any number of times.
pub open spec fn is_used_up(state: SnapshotView, request: GroupPollRequest, o: u64) -> bool {
    &&& request.max_delivery_attempts matches Some(max) && times_out(
        state,
        (request.stream@, request.consumer@),
        o,
    ) >= max
    &&& !names_dead_letters(request.stream@)
}

/// The member that polls holds nothing of its group.
pub open spec fn holds_nothing(state: SnapshotView, request: GroupPollRequest) -> bool {
    let key = (request.stream@, request.consumer@);
    forall|x: u64| #[trigger]
        is_out(state, key, clock_with(state, request.now_ms), x)
            ==> state.group_consumers[key].in_flight[x].member != request.member@
}

/// The message that an answer hands out is the one that is stored at its offset.
pub open spec fn is_stored_at(
    state: SnapshotView,
    stream: Seq<char>,
    message: MessageView,
) -> bool {
    let messages = state.streams[stream].messages;
    &&& message.stream == stream
    &&& message.offset < messages.len()
    &&& message.key == messages[message.offset as int].key
    &&& message.payload == messages[message.offset as int].payload
    &&& message.published_at_ms == messages[message.offset as int].published_at_ms
}

/// The names of streams for undeliverable messages are recognised, and no others.
pub proof fn law_dead_letter_names_are_recognised(name: Seq<char>)
    ensures
        is_dead_letter_name(name) <==> names_dead_letters(name),
{
    reveal_strlit(".dead-letter");
    reveal_strlit("runnel.dead-letter.");
    let n = name.len() as int;
    if is_dead_letter_name(name) {
        if is_hashed_name(name) {
            let digits = name.skip(19);
            assert(name =~= "runnel.dead-letter."@ + digits) by {
                assert(name.subrange(0, 19) =~= DEAD_LETTER_HASH_PREFIX@);
                assert forall|i: int| 0 <= i < 19 implies name[i]
                    == #[trigger] "runnel.dead-letter."@[i] by {
                    assert(name.subrange(0, 19)[i] == name[i]);
                }
            }
            assert forall|i: int| 0 <= i < 16 implies '0' <= #[trigger] digits[i] <= '9' || 'a'
                <= digits[i] <= 'f' by {
                assert(is_hex_char(name[i + 19]));
            }
        } else {
            let of = name.take(n - 12);
            assert(name =~= of + ".dead-letter"@) by {
                assert forall|i: int| n - 12 <= i < n implies #[trigger] name[i]
                    == ".dead-letter"@[i - (n - 12)] by {
                    assert(name.subrange(n - 12, n)[i - (n - 12)] == name[i]);
                }
            }
        }
    }
    if exists|of: Seq<char>| name == #[trigger] (of + ".dead-letter"@) {
        let of = choose|of: Seq<char>| name == #[trigger] (of + ".dead-letter"@);
        assert(name.subrange(n - 12, n) =~= DEAD_LETTER_SUFFIX@);
    } else if names_dead_letters(name) {
        let digits = choose|digits: Seq<char>|
            {
                &&& name == #[trigger] ("runnel.dead-letter."@ + digits)
                &&& digits.len() == 16
                &&& forall|i: int|
                    0 <= i < 16 ==> '0' <= #[trigger] digits[i] <= '9' || 'a' <= digits[i] <= 'f'
            };
        assert(name.subrange(0, 19) =~= DEAD_LETTER_HASH_PREFIX@);
        assert forall|i: int| 19 <= i < 35 implies is_hex_char(#[trigger] name[i]) by {
            assert(name[i] == digits[i - 19]);
        }
    }
}

/// What a poll finds, in the words of this module.
proof fn lemma_poll_finds(state: SnapshotView, request: GroupPollRequest)
    requires
        state.streams.contains_key(request.stream@),
    ensures
        ({
            let key = (request.stream@, request.consumer@);
            let clock_ms = clock_with(state, request.now_ms);
            let group = polled_group(state, key, later(state.lease_clock_ms, request.now_ms));
            let messages = state.streams[request.stream@].messages;
            let limit = limit_in(request.stream@, request.max_delivery_attempts);
            &&& clock_ms == later(state.lease_clock_ms, request.now_ms)
            &&& forall|o: u64| #[trigger]
                is_done(group, o) <==> has_done(state, key, plain_progress(state, key), o)
            &&& forall|o: u64| #[trigger]
                group.in_flight.contains_key(o) <==> is_out(state, key, clock_ms, o)
            &&& forall|o: u64| #[trigger]
                group.in_flight.contains_key(o) ==> group.in_flight[o]
                    == state.group_consumers[key].in_flight[o]
            &&& forall|o: u64| #[trigger]
                group.delivery_attempts.contains_key(o) <==> state.group_consumers.contains_key(key)
                    && state.group_consumers[key].delivery_attempts.contains_key(o)
            &&& forall|o: u64| #[trigger] attempts_of(group, o) == times_out(state, key, o)
            &&& forall|o: u64| #[trigger]
                is_waiting(group, messages, o) <==> is_free(state, request, o)
            &&& forall|o: u64| #[trigger]
                is_spent(group, limit, o) <==> is_used_up(state, request, o)
            &&& held_by(group.in_flight, request.member@) is None <==> holds_nothing(
                state,
                request,
            )
        }),
{
    let key = (request.stream@, request.consumer@);
    let clock_ms = clock_with(state, request.now_ms);
    let group = polled_group(state, key, later(state.lease_clock_ms, request.now_ms));
    let messages = state.streams[request.stream@].messages;
    let limit = limit_in(request.stream@, request.max_delivery_attempts);
    law_dead_letter_names_are_recognised(request.stream@);
    assert forall|o: u64| #[trigger] group.in_flight.contains_key(o) <==> is_out(
        state,
        key,
        clock_ms,
        o,
    ) by {}
    assert forall|o: u64| #[trigger] is_waiting(group, messages, o) implies is_free(
        state,
        request,
        o,
    ) by {
        assert(!is_done(group, o));
        if messages[o as int].key is Some {
            assert forall|x: u64| #[trigger] is_out(state, key, clock_ms, x) implies
                state.group_consumers[key].in_flight[x].key != messages[o as int].key by {
                assert(group.in_flight.contains_key(x));
            }
        }
    }
    assert forall|o: u64| is_free(state, request, o) implies #[trigger] is_waiting(
        group,
        messages,
        o,
    ) by {
        assert(!is_done(group, o));
        assert(!group.in_flight.contains_key(o));
        if key_is_held(group.in_flight, messages[o as int].key) {
            let x = choose|x: u64| #[trigger]
                group.in_flight.contains_key(x) && group.in_flight[x].key
                    == messages[o as int].key;
            assert(is_out(state, key, clock_ms, x));
        }
    }
    let p = |x: u64| group.in_flight.contains_key(x) && group.in_flight[x].member
        == request.member@;
    if held_by(group.in_flight, request.member@) is None {
        assert forall|x: u64| #[trigger] is_out(state, key, clock_ms, x) implies
            state.group_consumers[key].in_flight[x].member != request.member@ by {
            assert(group.in_flight.contains_key(x));
            if p(x) {
                lemma_least_exists(x, p);
            }
        }
    } else {
        let n = choose|n: u64| is_least(n, p);
        assert(is_least(n, p));
        assert(is_out(state, key, clock_ms, n));
    }
}

/// A poll of a stream that is not in use, or in a group that holds no messages, finds
/// no stream and changes nothing.
pub proof fn law_poll_needs_a_stream(
    state: SnapshotView,
    request: GroupPollRequest,
    kind: GroupKind,
    log_id: LogId,
)
    requires
        !serves(state, kind, request.stream@),
    ensures
        command_step(state, poll_of(request), kind, log_id) == (
            state,
            ResponseView::StreamNotFound,
        ),
{
}

/// A member that holds nothing is handed the first message that is free and not used
/// up, as it is stored, counted once more than before; and there is nothing for it
/// only if there is no such message.
pub proof fn law_poll_hands_out_the_first_free_message(
    state: SnapshotView,
    request: GroupPollRequest,
    kind: GroupKind,
    log_id: LogId,
)
    requires
        serves(state, kind, request.stream@),
        holds_nothing(state, request),
        state.streams[request.stream@].messages.len() <= u64::MAX,
    ensures
        match command_step(state, poll_of(request), kind, log_id).1 {
            ResponseView::GroupPoll { result: PollResultView::Message(message) } => {
                let before = times_out(
                    state,
                    (request.stream@, request.consumer@),
                    message.offset,
                );
                &&& is_stored_at(state, request.stream@, message)
                &&& is_free(state, request, message.offset)
                &&& !is_used_up(state, request, message.offset)
                &&& forall|o: u64| #[trigger]
                    is_free(state, request, o) && !is_used_up(state, request, o)
                        ==> message.offset <= o
                &&& message.delivery_attempt == Some(
                    if before == u32::MAX {
                        before
                    } else {
                        (before + 1) as u32
                    },
                )
                &&& message.delivery_token == Some(
                    "raft-T"@ + decimal(log_id.term as nat) + "-N"@ + decimal(
                        log_id.node_id as nat,
                    ) + "-"@ + decimal(log_id.index as nat),
                )
            },
            ResponseView::GroupPoll { result: PollResultView::Empty } => forall|o: u64| #[trigger]
                is_free(state, request, o) ==> is_used_up(state, request, o),
            _ => false,
        },
{
    let key = (request.stream@, request.consumer@);
    let group = polled_group(state, key, later(state.lease_clock_ms, request.now_ms));
    let messages = state.streams[request.stream@].messages;
    let limit = limit_in(request.stream@, request.max_delivery_attempts);
    lemma_poll_finds(state, request);
    lemma_next_delivery(group, messages, limit);
    let dead = given_up(group, messages, limit);
    assert forall|o: u64| #[trigger] is_free(state, request, o) implies is_waiting(
        group,
        messages,
        o,
    ) && (is_used_up(state, request, o) <==> is_spent(group, limit, o)) by {
        assert(is_waiting(group, messages, o) <==> is_free(state, request, o));
        assert(is_spent(group, limit, o) <==> is_used_up(state, request, o));
    }
    if let Some(o) = next_delivery(group, messages, limit) {
        law_given_up_are_the_spent(group, messages, limit, o);
        law_acknowledging_keeps_the_rest(group, dead, o);
        assert(attempts_of(group, o) == times_out(state, key, o));
        reveal_strlit("raft-");
        reveal_strlit("raft-T");
        reveal_strlit("-N");
        reveal_strlit("-");
        let t = decimal(log_id.term as nat);
        let n = decimal(log_id.node_id as nat);
        let i = decimal(log_id.index as nat);
        assert("raft-"@ + (seq!['T'] + t + seq!['-', 'N'] + n + seq!['-'] + i) =~= "raft-T"@ + t
            + "-N"@ + n + "-"@ + i);
    }
}

/// A member that polls while it holds something of its group is handed a message that
/// it holds, as it is stored and under the token and the count of that delivery. No
/// delivery changes; those whose leases have run out are gone; and nothing else
/// changes but the clock.
pub proof fn law_poll_hands_out_what_the_member_holds(
    state: SnapshotView,
    request: GroupPollRequest,
    kind: GroupKind,
    log_id: LogId,
)
    requires
        serves(state, kind, request.stream@),
        !holds_nothing(state, request),
        forall|x: u64| #[trigger]
            is_out(
                state,
                (request.stream@, request.consumer@),
                clock_with(state, request.now_ms),
                x,
            ) ==> x < state.streams[request.stream@].messages.len(),
    ensures
        ({
            let key = (request.stream@, request.consumer@);
            let clock_ms = clock_with(state, request.now_ms);
            let (after, answer) = command_step(state, poll_of(request), kind, log_id);
            let was = state.group_consumers[key];
            let now = after.group_consumers[key];
            &&& answer matches ResponseView::GroupPoll { result: PollResultView::Message(message) }
            &&& is_stored_at(state, request.stream@, message)
            &&& is_out(state, key, clock_ms, message.offset)
            &&& was.in_flight[message.offset].member == request.member@
            &&& message.delivery_token == Some(was.in_flight[message.offset].delivery_token)
            &&& message.delivery_attempt == Some(was.in_flight[message.offset].delivery_attempt)
            &&& after.group_consumers.dom() == state.group_consumers.dom()
            &&& now.committed_offset == was.committed_offset
            &&& now.acknowledged_offsets == was.acknowledged_offsets
            &&& now.delivery_attempts == was.delivery_attempts
            &&& forall|x: u64| #[trigger]
                now.in_flight.contains_key(x) <==> is_out(state, key, clock_ms, x)
            &&& forall|x: u64| #[trigger]
                now.in_flight.contains_key(x) ==> now.in_flight[x] == was.in_flight[x]
            &&& after.lease_clock_ms == clock_ms
            &&& after.streams == state.streams
            &&& after.redeliveries == state.redeliveries
            &&& after.dead_letters == state.dead_letters
        }),
{
    let key = (request.stream@, request.consumer@);
    let group = polled_group(state, key, later(state.lease_clock_ms, request.now_ms));
    lemma_poll_finds(state, request);
    let p = |x: u64| group.in_flight.contains_key(x) && group.in_flight[x].member
        == request.member@;
    let n = choose|n: u64| is_least(n, p);
    assert(is_least(n, p));
    assert(is_out(state, key, clock_with(state, request.now_ms), n));
    let after = command_step(state, poll_of(request), kind, log_id).0;
    assert(after.group_consumers.dom() =~= state.group_consumers.dom());
}

/// The offset of the message that an answer hands out.
pub open spec fn handed_out(answer: ResponseView) -> Option<u64> {
    match answer {
        ResponseView::GroupPoll { result: PollResultView::Message(message) } => Some(message.offset),
        _ => None,
    }
}

/// A poll gives up on a message: the message is free but used up, and comes before
/// the one that is handed out.
pub open spec fn is_given_up(
    state: SnapshotView,
    request: GroupPollRequest,
    answer: ResponseView,
    o: u64,
) -> bool {
    &&& is_free(state, request, o)
    &&& is_used_up(state, request, o)
    &&& handed_out(answer) matches Some(handed) ==> o < handed
}

/// What a poll by a member that holds nothing leaves of its group. Only what is given
/// up becomes done. Only the message that is handed out joins those that are out,
/// under the member's name, its key and the lease that was asked for. Its count goes
/// up, and the counts of what is given up go. (The highest offset there is has none
/// after it, and is left out.)
pub proof fn law_poll_moves_on_only_what_it_names(
    state: SnapshotView,
    request: GroupPollRequest,
    kind: GroupKind,
    log_id: LogId,
)
    requires
        serves(state, kind, request.stream@),
        holds_nothing(state, request),
        state.streams[request.stream@].messages.len() <= u64::MAX,
    ensures
        ({
            let key = (request.stream@, request.consumer@);
            let clock_ms = clock_with(state, request.now_ms);
            let (after, answer) = command_step(state, poll_of(request), kind, log_id);
            let was = state.group_consumers[key];
            let now = after.group_consumers[key];
            &&& after.lease_clock_ms == clock_ms
            &&& after.group_consumers.contains_key(key)
            &&& forall|o: u64|
                o < u64::MAX ==> (#[trigger] has_done(after, key, 0, o) <==> has_done(
                    state,
                    key,
                    plain_progress(state, key),
                    o,
                ) || is_given_up(state, request, answer, o))
            &&& forall|o: u64| #[trigger]
                now.in_flight.contains_key(o) <==> is_out(state, key, clock_ms, o)
                    || handed_out(answer) == Some(o)
            &&& forall|o: u64| #[trigger]
                now.in_flight.contains_key(o) && handed_out(answer) != Some(o)
                    ==> now.in_flight[o] == was.in_flight[o]
            &&& forall|o: u64| #[trigger]
                now.delivery_attempts.contains_key(o) <==> handed_out(answer) == Some(o) || (
                state.group_consumers.contains_key(key) && was.delivery_attempts.contains_key(o)
                    && !is_given_up(state, request, answer, o))
            &&& forall|o: u64| #[trigger]
                now.delivery_attempts.contains_key(o) && handed_out(answer) != Some(o)
                    ==> now.delivery_attempts[o] == was.delivery_attempts[o]
            &&& answer matches ResponseView::GroupPoll {
                result: PollResultView::Message(message),
            } ==> {
                let held = now.in_flight[message.offset];
                &&& held.member == request.member@
                &&& held.key == message.key
                &&& held.deadline_ms == request.lease_deadline_ms
                &&& Some(held.delivery_token) == message.delivery_token
                &&& Some(held.delivery_attempt) == message.delivery_attempt
                &&& Some(now.delivery_attempts[message.offset]) == message.delivery_attempt
            }
        }),
{
    let key = (request.stream@, request.consumer@);
    let group = polled_group(state, key, later(state.lease_clock_ms, request.now_ms));
    let messages = state.streams[request.stream@].messages;
    let limit = limit_in(request.stream@, request.max_delivery_attempts);
    let dead = given_up(group, messages, limit);
    let rest = acknowledged_all(group, dead);
    let (after, answer) = command_step(state, poll_of(request), kind, log_id);
    let now = after.group_consumers[key];
    lemma_poll_finds(state, request);
    lemma_next_delivery(group, messages, limit);
    assert(handed_out(answer) == next_delivery(group, messages, limit));
    assert forall|o: u64| dead.contains(o) <==> #[trigger] is_given_up(
        state,
        request,
        answer,
        o,
    ) by {
        law_given_up_are_the_spent(group, messages, limit, o);
        assert(is_waiting(group, messages, o) <==> is_free(state, request, o));
        assert(is_spent(group, limit, o) <==> is_used_up(state, request, o));
    }
    assert forall|o: u64| o < u64::MAX implies (#[trigger] has_done(after, key, 0, o) <==> has_done(
        state,
        key,
        plain_progress(state, key),
        o,
    ) || is_given_up(state, request, answer, o)) by {
        law_acknowledging_all_makes_done(group, dead, o);
        assert(is_done(group, o) <==> has_done(state, key, plain_progress(state, key), o));
        assert(dead.contains(o) <==> is_given_up(state, request, answer, o));
        assert(has_done(after, key, 0, o) <==> is_done(rest, o));
    }
    assert forall|o: u64| #[trigger] now.in_flight.contains_key(o) <==> is_out(
        state,
        key,
        clock_with(state, request.now_ms),
        o,
    ) || handed_out(answer) == Some(o) by {
        law_acknowledging_keeps_the_rest(group, dead, o);
        assert(group.in_flight.contains_key(o) <==> is_out(
            state,
            key,
            clock_with(state, request.now_ms),
            o,
        ));
        assert(dead.contains(o) <==> is_given_up(state, request, answer, o));
    }
    assert forall|o: u64| #[trigger]
        now.in_flight.contains_key(o) && handed_out(answer) != Some(o) implies now.in_flight[o]
        == state.group_consumers[key].in_flight[o] by {
        law_acknowledging_keeps_the_rest(group, dead, o);
        assert(group.in_flight.contains_key(o));
    }
    assert forall|o: u64| #[trigger]
        now.delivery_attempts.contains_key(o) <==> handed_out(answer) == Some(o) || (
    state.group_consumers.contains_key(key)
        && state.group_consumers[key].delivery_attempts.contains_key(o) && !is_given_up(
        state,
        request,
        answer,
        o,
    )) by {
        law_acknowledging_keeps_the_rest(group, dead, o);
        assert(group.delivery_attempts.contains_key(o) <==> state.group_consumers.contains_key(key)
            && state.group_consumers[key].delivery_attempts.contains_key(o));
        assert(dead.contains(o) <==> is_given_up(state, request, answer, o));
    }
    assert forall|o: u64| #[trigger]
        now.delivery_attempts.contains_key(o) && handed_out(answer) != Some(o) implies
        now.delivery_attempts[o] == state.group_consumers[key].delivery_attempts[o] by {
        law_acknowledging_keeps_the_rest(group, dead, o);
    }
}

/// A list of offsets goes up.
pub open spec fn goes_up(offsets: Seq<u64>) -> bool {
    forall|i: int, j: int| 0 <= i < j < offsets.len() ==> offsets[i] < offsets[j]
}

/// The name of the stream for the undeliverable messages of a stream: the stream's
/// name with the suffix, unless that would be longer than a name may be.
pub open spec fn dead_letters_go_to(stream: Seq<char>, target: Seq<char>) -> bool {
    &&& encode_utf8(stream + ".dead-letter"@).len() <= 128 ==> target == stream
        + ".dead-letter"@
    &&& encode_utf8(stream + ".dead-letter"@).len() > 128 ==> exists|digits: Seq<char>|
        target == #[trigger] ("runnel.dead-letter."@ + digits) && digits.len() == 16
}

/// What a poll gives up on goes to the stream's dead-letter stream, behind what that
/// holds already: each message once, in the order of its offset, with its key,
/// payload and time. The dead-letter stream is made if need be, in use and under the
/// identity of its name. Each is counted as a dead letter, each further delivery of
/// a message as a redelivery, and no other stream changes.
pub proof fn law_poll_keeps_what_it_gives_up(
    state: SnapshotView,
    request: GroupPollRequest,
    kind: GroupKind,
    log_id: LogId,
)
    requires
        serves(state, kind, request.stream@),
        holds_nothing(state, request),
        state.streams[request.stream@].messages.len() <= u64::MAX,
    ensures
        ({
            let (after, answer) = command_step(state, poll_of(request), kind, log_id);
            let messages = state.streams[request.stream@].messages;
            exists|target: Seq<char>, offsets: Seq<u64>|
                {
                    &&& #[trigger] dead_letters_go_to(request.stream@, target)
                    &&& #[trigger] goes_up(offsets)
                    &&& target != request.stream@
                    &&& names_dead_letters(target)
                    &&& forall|o: u64|
                        offsets.contains(o) <==> #[trigger] is_given_up(state, request, answer, o)
                    &&& forall|s: Seq<char>|
                        s != target ==> (#[trigger] after.streams.contains_key(s)
                            <==> state.streams.contains_key(s)) && (after.streams.contains_key(s)
                            ==> after.streams[s] == state.streams[s])
                    &&& offsets.len() == 0 ==> after.streams == state.streams
                    &&& offsets.len() > 0 ==> {
                        let kept = if state.streams.contains_key(target) {
                            state.streams[target].messages
                        } else {
                            Seq::empty()
                        };
                        let grown = after.streams[target].messages;
                        &&& after.streams.contains_key(target)
                        &&& grown.len() == kept.len() + offsets.len()
                        &&& forall|i: int| 0 <= i < kept.len() ==> #[trigger] grown[i] == kept[i]
                        &&& forall|i: int|
                            kept.len() <= i < grown.len() ==> #[trigger] grown[i]
                                == messages[offsets[i - kept.len()] as int]
                        &&& if state.streams.contains_key(target) {
                            &&& after.streams[target].stream_id == state.streams[target].stream_id
                            &&& after.streams[target].group_id == state.streams[target].group_id
                            &&& after.streams[target].lifecycle == state.streams[target].lifecycle
                        } else {
                            &&& after.streams[target].stream_id == "stream/"@ + target
                            &&& after.streams[target].group_id == "group/"@ + target + "/data"@
                            &&& after.streams[target].lifecycle == StreamLifecycle::Active
                        }
                    }
                    &&& if state.dead_letters + offsets.len() <= u64::MAX {
                        after.dead_letters == state.dead_letters + offsets.len()
                    } else {
                        after.dead_letters == u64::MAX
                    }
                }
        }),
        ({
            let (after, answer) = command_step(state, poll_of(request), kind, log_id);
            let again = answer matches ResponseView::GroupPoll {
                result: PollResultView::Message(message),
            } && message.delivery_attempt->0 > 1;
            after.redeliveries == if again && state.redeliveries < u64::MAX {
                (state.redeliveries + 1) as u64
            } else {
                state.redeliveries
            }
        }),
{
    let stream = request.stream@;
    let key = (stream, request.consumer@);
    let group = polled_group(state, key, later(state.lease_clock_ms, request.now_ms));
    let messages = state.streams[stream].messages;
    let limit = limit_in(stream, request.max_delivery_attempts);
    let dead = given_up(group, messages, limit);
    let target = dead_letter_name(stream);
    let (after, answer) = command_step(state, poll_of(request), kind, log_id);
    lemma_poll_finds(state, request);
    lemma_next_delivery(group, messages, limit);
    assert(handed_out(answer) == next_delivery(group, messages, limit));
    assert forall|o: u64| dead.contains(o) <==> #[trigger] is_given_up(
        state,
        request,
        answer,
        o,
    ) by {
        law_given_up_are_the_spent(group, messages, limit, o);
        assert(is_waiting(group, messages, o) <==> is_free(state, request, o));
        assert(is_spent(group, limit, o) <==> is_used_up(state, request, o));
    }
    match next_delivery(group, messages, limit) {
        Some(o) => lemma_spent_ascend(group, messages, limit, o as nat),
        None => lemma_spent_ascend(group, messages, limit, messages.len()),
    }
    assert(goes_up(dead));
    law_dead_letter_stream_is_another(stream);
    law_dead_letters_do_not_recurse(stream);
    law_dead_letter_names_are_recognised(target);
    lemma_fixed_hex(fnv1a(encode_utf8(stream)) as nat, 16);
    assert(dead_letters_go_to(stream, target));
    if dead.len() > 0 {
        let kept = if state.streams.contains_key(target) {
            state.streams[target].messages
        } else {
            Seq::empty()
        };
        let grown = after.streams[target].messages;
        assert(grown == kept + messages_at(messages, dead));
    }
}

/// An acknowledgement is in order: the one who gives it holds the message, under a
/// lease that has not run out, and gives the token of that delivery or none; or the
/// one member of a group that bears its name gives none for the next message, which
/// nobody holds.
pub open spec fn is_in_order(state: SnapshotView, request: GroupAckRequest) -> bool {
    let key = (request.stream@, request.consumer@);
    let clock_ms = clock_with(state, request.now_ms);
    let held = state.group_consumers[key].in_flight[request.offset];
    if is_out(state, key, clock_ms, request.offset) {
        &&& held.member == request.member@
        &&& request.delivery_token@ == Seq::<char>::empty() || request.delivery_token@
            == held.delivery_token
    } else {
        &&& request.delivery_token@ == Seq::<char>::empty()
        &&& request.member@ == request.consumer@
        &&& request.offset == if state.group_consumers.contains_key(key) {
            state.group_consumers[key].committed_offset
        } else {
            0
        }
    }
}

/// What an acknowledgement finds, in the words of this module.
proof fn lemma_ack_finds(state: SnapshotView, request: GroupAckRequest)
    ensures
        ({
            let key = (request.stream@, request.consumer@);
            let clock_ms = clock_with(state, request.now_ms);
            let group = acked_group(state, key, later(state.lease_clock_ms, request.now_ms));
            &&& clock_ms == later(state.lease_clock_ms, request.now_ms)
            &&& forall|o: u64| #[trigger] is_done(group, o) <==> has_done(state, key, 0, o)
            &&& forall|o: u64| #[trigger]
                group.in_flight.contains_key(o) <==> is_out(state, key, clock_ms, o)
            &&& forall|o: u64| #[trigger]
                group.in_flight.contains_key(o) ==> group.in_flight[o]
                    == state.group_consumers[key].in_flight[o]
            &&& forall|o: u64| #[trigger]
                group.delivery_attempts.contains_key(o) <==> state.group_consumers.contains_key(key)
                    && state.group_consumers[key].delivery_attempts.contains_key(o)
            &&& request.delivery_token@.len() == 0 <==> request.delivery_token@
                == Seq::<char>::empty()
        }),
{
    if request.delivery_token@.len() == 0 {
        assert(request.delivery_token@ =~= Seq::<char>::empty());
    }
}

/// An acknowledgement in a stream that is not in use, or in a group that holds no
/// messages, finds no stream and changes nothing.
pub proof fn law_acknowledgement_needs_a_stream(
    state: SnapshotView,
    request: GroupAckRequest,
    kind: GroupKind,
    log_id: LogId,
)
    requires
        !serves(state, kind, request.stream@),
    ensures
        command_step(state, ack_of(request), kind, log_id) == (
            state,
            ResponseView::StreamNotFound,
        ),
{
}

/// What an acknowledgement is answered. What the group has done is done already. One
/// that is in order is accepted, however far from the others its message is. Any
/// other is refused: as stale where the message has been handed out, and as not in
/// flight where it never was.
pub proof fn law_good_acknowledgements_are_accepted(
    state: SnapshotView,
    request: GroupAckRequest,
    kind: GroupKind,
    log_id: LogId,
)
    requires
        serves(state, kind, request.stream@),
    ensures
        ({
            let key = (request.stream@, request.consumer@);
            let o = request.offset;
            let answer = command_step(state, ack_of(request), kind, log_id).1;
            let tried = is_out(state, key, clock_with(state, request.now_ms), o) || (
            state.group_consumers.contains_key(key)
                && state.group_consumers[key].delivery_attempts.contains_key(o));
            &&& answer is GroupAlreadyAcknowledged <==> has_done(state, key, 0, o)
            &&& answer is GroupAcknowledged <==> !has_done(state, key, 0, o) && is_in_order(
                state,
                request,
            )
            &&& !has_done(state, key, 0, o) && !is_in_order(state, request) ==> answer == (
            if tried {
                ResponseView::GroupStaleDelivery { consumer: request.consumer@, offset: o }
            } else {
                ResponseView::GroupAckNotInFlight { consumer: request.consumer@, offset: o }
            })
        }),
{
    let key = (request.stream@, request.consumer@);
    let group = acked_group(state, key, later(state.lease_clock_ms, request.now_ms));
    lemma_ack_finds(state, request);
    assert(is_done(group, request.offset) <==> has_done(state, key, 0, request.offset));
    assert(group.in_flight.contains_key(request.offset) <==> is_out(
        state,
        key,
        clock_with(state, request.now_ms),
        request.offset,
    ));
}

/// What an acknowledgement leaves. Its message becomes done if it was accepted, and
/// nothing else does. Its delivery and count go with it, and deliveries whose leases
/// have run out go in any case. What is acknowledged apart stays above what is
/// committed. No stream changes, and nothing is counted. (The highest offset there is
/// has none after it, and is left out.)
pub proof fn law_acknowledgement_moves_on_only_its_message(
    state: SnapshotView,
    request: GroupAckRequest,
    kind: GroupKind,
    log_id: LogId,
)
    requires
        serves(state, kind, request.stream@),
    ensures
        ({
            let key = (request.stream@, request.consumer@);
            let clock_ms = clock_with(state, request.now_ms);
            let (after, answer) = command_step(state, ack_of(request), kind, log_id);
            let was = state.group_consumers[key];
            let now = after.group_consumers[key];
            let gone = |o: u64| answer is GroupAcknowledged && o == request.offset;
            &&& after.lease_clock_ms == clock_ms
            &&& after.group_consumers.contains_key(key)
            &&& forall|o: u64|
                o < u64::MAX ==> (#[trigger] has_done(after, key, 0, o) <==> has_done(
                    state,
                    key,
                    0,
                    o,
                ) || gone(o))
            &&& forall|o: u64| #[trigger]
                now.in_flight.contains_key(o) <==> is_out(state, key, clock_ms, o) && !gone(o)
            &&& forall|o: u64| #[trigger]
                now.in_flight.contains_key(o) ==> now.in_flight[o] == was.in_flight[o]
            &&& forall|o: u64| #[trigger]
                now.delivery_attempts.contains_key(o) <==> state.group_consumers.contains_key(key)
                    && was.delivery_attempts.contains_key(o) && !gone(o)
            &&& forall|o: u64| #[trigger]
                now.delivery_attempts.contains_key(o) ==> now.delivery_attempts[o]
                    == was.delivery_attempts[o]
            &&& (state.group_consumers.contains_key(key) ==> forall|o: u64| #[trigger]
                was.acknowledged_offsets.contains(o) ==> o > was.committed_offset) ==> forall|
                o: u64,
            | #[trigger]
                now.acknowledged_offsets.contains(o) ==> o > now.committed_offset
            &&& after.streams == state.streams
            &&& after.redeliveries == state.redeliveries
            &&& after.dead_letters == state.dead_letters
        }),
{
    let key = (request.stream@, request.consumer@);
    let clock_ms = clock_with(state, request.now_ms);
    let group = acked_group(state, key, later(state.lease_clock_ms, request.now_ms));
    let (after, answer) = command_step(state, ack_of(request), kind, log_id);
    let now = after.group_consumers[key];
    lemma_ack_finds(state, request);
    assert forall|o: u64| o < u64::MAX implies (#[trigger] has_done(after, key, 0, o) <==> has_done(
        state,
        key,
        0,
        o,
    ) || (answer is GroupAcknowledged && o == request.offset)) by {
        law_acknowledging_makes_done(group, request.offset, o);
        assert(is_done(group, o) <==> has_done(state, key, 0, o));
        assert(has_done(after, key, 0, o) <==> is_done(now, o));
    }
    assert forall|o: u64| #[trigger] now.in_flight.contains_key(o) <==> is_out(
        state,
        key,
        clock_ms,
        o,
    ) && !(answer is GroupAcknowledged && o == request.offset) by {
        assert(group.in_flight.contains_key(o) <==> is_out(state, key, clock_ms, o));
    }
    assert forall|o: u64| #[trigger] now.in_flight.contains_key(o) implies now.in_flight[o]
        == state.group_consumers[key].in_flight[o] by {
        assert(group.in_flight.contains_key(o));
    }
    assert forall|o: u64| #[trigger] now.delivery_attempts.contains_key(o) implies {
        &&& state.group_consumers.contains_key(key)
        &&& now.delivery_attempts[o] == state.group_consumers[key].delivery_attempts[o]
    } by {
        assert(group.delivery_attempts.contains_key(o));
    }
    if state.group_consumers.contains_key(key) ==> forall|o: u64| #[trigger]
        state.group_consumers[key].acknowledged_offsets.contains(o) ==> o
            > state.group_consumers[key].committed_offset {
        if !is_done(group, request.offset) {
            lemma_acknowledged_ahead(group, seq![request.offset]);
            lemma_one_of_all(group, request.offset);
        }
    }
}

/// What a member has just been handed it can acknowledge: with the token that came
/// with the message, or with none, before the lease has run out. The message is then
/// done.
pub proof fn law_what_is_handed_out_can_be_acknowledged(
    state: SnapshotView,
    poll: GroupPollRequest,
    ack: GroupAckRequest,
    kind: GroupKind,
    poll_log: LogId,
    ack_log: LogId,
)
    requires
        serves(state, kind, poll.stream@),
        holds_nothing(state, poll),
        state.streams[poll.stream@].messages.len() <= u64::MAX,
        ack.stream@ == poll.stream@,
        ack.consumer@ == poll.consumer@,
        ack.member@ == poll.member@,
        ({
            let (handed, answer) = command_step(state, poll_of(poll), kind, poll_log);
            &&& answer matches ResponseView::GroupPoll { result: PollResultView::Message(message) }
            &&& ack.offset == message.offset
            &&& ack.delivery_token@ == Seq::<char>::empty() || Some(ack.delivery_token@)
                == message.delivery_token
        }),
        clock_with(state, poll.now_ms) < poll.lease_deadline_ms,
        ack.now_ms < poll.lease_deadline_ms,
    ensures
        ({
            let handed = command_step(state, poll_of(poll), kind, poll_log).0;
            let (after, answer) = command_step(handed, ack_of(ack), kind, ack_log);
            &&& answer is GroupAcknowledged
            &&& has_done(after, (ack.stream@, ack.consumer@), 0, ack.offset)
        }),
{
    let key = (poll.stream@, poll.consumer@);
    let (handed, answer) = command_step(state, poll_of(poll), kind, poll_log);
    law_poll_hands_out_the_first_free_message(state, poll, kind, poll_log);
    law_poll_moves_on_only_what_it_names(state, poll, kind, poll_log);
    law_poll_keeps_what_it_gives_up(state, poll, kind, poll_log);
    let o = ack.offset;
    assert(is_free(state, poll, o));
    assert(!is_given_up(state, poll, answer, o));
    assert(!has_done(handed, key, 0, o));
    assert(handed.group_consumers[key].in_flight.contains_key(o));
    assert(is_out(handed, key, clock_with(handed, ack.now_ms), o));
    assert(serves(handed, kind, poll.stream@)) by {
        assert(handed.streams.contains_key(poll.stream@));
    }
    law_good_acknowledgements_are_accepted(handed, ack, kind, ack_log);
    law_acknowledgement_moves_on_only_its_message(handed, ack, kind, ack_log);
}

/// A publication to a stream carries an identity that one before it carried.
pub open spec fn is_remembered(state: SnapshotView, stream: Seq<char>, id: Seq<char>) -> bool {
    state.dedup.contains_key(stream) && state.dedup[stream].contains_key(id)
}

/// The messages that a stream holds; one that is not there holds none.
pub open spec fn held_in(state: SnapshotView, stream: Seq<char>) -> Seq<StoredMessageView> {
    if state.streams.contains_key(stream) {
        state.streams[stream].messages
    } else {
        Seq::empty()
    }
}

/// A publication is kept unless its very identity is remembered for its stream, or the
/// stream is there but not in use. Its message goes to the end of the stream as it was
/// given, and it is answered with the place. The stream is made if need be. The
/// identity is remembered with that place, of no other identity and no other stream is
/// anything remembered or forgotten, and no other stream changes.
pub proof fn law_new_publications_are_kept(
    state: SnapshotView,
    stream: String,
    key: Option<String>,
    payload: Vec<u8>,
    published_at_ms: u64,
    request_id: Option<String>,
    kind: GroupKind,
    log_id: LogId,
)
    requires
        kind != GroupKind::Metadata,
        state.streams.contains_key(stream@) ==> state.streams[stream@].lifecycle
            == StreamLifecycle::Active,
        request_id matches Some(id) ==> !is_remembered(state, stream@, id@),
        held_in(state, stream@).len() <= u64::MAX,
    ensures
        ({
            let command = Command::Publish { stream, key, payload, published_at_ms, request_id };
            let (after, answer) = command_step(state, command, kind, log_id);
            let was = held_in(state, stream@);
            let now = held_in(after, stream@);
            &&& answer matches ResponseView::Published { offset } && offset == was.len()
            &&& now.len() == was.len() + 1
            &&& forall|i: int| 0 <= i < was.len() ==> #[trigger] now[i] == was[i]
            &&& now.last().payload == payload@
            &&& now.last().published_at_ms == published_at_ms
            &&& match key {
                Some(key) => now.last().key == Some(key@),
                None => now.last().key is None,
            }
            &&& after.streams.contains_key(stream@)
            &&& after.streams[stream@].lifecycle == StreamLifecycle::Active
            &&& if state.streams.contains_key(stream@) {
                &&& after.streams[stream@].stream_id == state.streams[stream@].stream_id
                &&& after.streams[stream@].group_id == state.streams[stream@].group_id
            } else {
                &&& after.streams[stream@].stream_id == "stream/"@ + stream@
                &&& after.streams[stream@].group_id == "group/"@ + stream@ + "/data"@
            }
            &&& forall|s: Seq<char>|
                s != stream@ ==> (#[trigger] after.streams.contains_key(s)
                    <==> state.streams.contains_key(s)) && (after.streams.contains_key(s)
                    ==> after.streams[s] == state.streams[s])
            &&& forall|s: Seq<char>, id: Seq<char>| #[trigger]
                is_remembered(after, s, id) <==> is_remembered(state, s, id) || (s == stream@
                    && request_id is Some && request_id->0@ == id)
            &&& forall|s: Seq<char>, id: Seq<char>| #[trigger]
                is_remembered(state, s, id) ==> after.dedup[s][id] == state.dedup[s][id]
            &&& request_id matches Some(id) ==> after.dedup[stream@][id@] == was.len()
        }),
{
}

/// A publication whose identity is remembered for its stream is not kept again: it is
/// answered with the place of the first, and nothing changes.
pub proof fn law_remembered_publications_are_not_kept_again(
    state: SnapshotView,
    stream: String,
    key: Option<String>,
    payload: Vec<u8>,
    published_at_ms: u64,
    request_id: String,
    kind: GroupKind,
    log_id: LogId,
)
    requires
        kind != GroupKind::Metadata,
        is_remembered(state, stream@, request_id@),
    ensures
        ({
            let command = Command::Publish {
                stream,
                key,
                payload,
                published_at_ms,
                request_id: Some(request_id),
            };
            let (after, answer) = command_step(state, command, kind, log_id);
            &&& after == state
            &&& answer matches ResponseView::Published { offset } && offset
                == state.dedup[stream@][request_id@]
        }),
{
}

/// A publication finds no stream, and changes nothing, where the replication group
/// holds no messages, or where the stream is there but not in use and the
/// publication is new.
pub proof fn law_publication_needs_a_stream(
    state: SnapshotView,
    stream: String,
    key: Option<String>,
    payload: Vec<u8>,
    published_at_ms: u64,
    request_id: Option<String>,
    kind: GroupKind,
    log_id: LogId,
)
    requires
        kind == GroupKind::Metadata || {
            &&& state.streams.contains_key(stream@)
            &&& state.streams[stream@].lifecycle != StreamLifecycle::Active
            &&& request_id matches Some(id) ==> !is_remembered(state, stream@, id@)
        },
    ensures
        ({
            let command = Command::Publish { stream, key, payload, published_at_ms, request_id };
            command_step(state, command, kind, log_id) == (state, ResponseView::StreamNotFound)
        }),
{
}

/// Two publications to a stream under different identities, neither of them known
/// before, are both kept, one behind the other.
pub proof fn law_publications_under_different_identities_are_both_kept(
    state: SnapshotView,
    first: Command,
    second: Command,
    kind: GroupKind,
    first_log: LogId,
    second_log: LogId,
)
    requires
        kind != GroupKind::Metadata,
        first is Publish,
        second is Publish,
        first->Publish_stream@ == second->Publish_stream@,
        ({
            let stream = first->Publish_stream@;
            let a = first->Publish_request_id;
            let b = second->Publish_request_id;
            &&& state.streams.contains_key(stream) ==> state.streams[stream].lifecycle
                == StreamLifecycle::Active
            &&& a is Some && b is Some ==> a->0@ != b->0@
            &&& a is Some ==> !is_remembered(state, stream, a->0@)
            &&& b is Some ==> !is_remembered(state, stream, b->0@)
            &&& held_in(state, stream).len() < u64::MAX
        }),
    ensures
        ({
            let stream = first->Publish_stream@;
            let (then, one) = command_step(state, first, kind, first_log);
            let (after, two) = command_step(then, second, kind, second_log);
            let n = held_in(state, stream).len() as int;
            &&& one matches ResponseView::Published { offset } && offset == n
            &&& two matches ResponseView::Published { offset } && offset == n + 1
            &&& held_in(after, stream).len() == n + 2
            &&& held_in(after, stream)[n].payload == first->Publish_payload@
            &&& held_in(after, stream)[n + 1].payload == second->Publish_payload@
        }),
{
    let then = command_step(state, first, kind, first_log).0;
    match (first, second) {
        (
            Command::Publish { stream, key, payload, published_at_ms, request_id },
            Command::Publish { stream: s, key: k, payload: p, published_at_ms: t, request_id: r },
        ) => {
            law_new_publications_are_kept(
                state,
                stream,
                key,
                payload,
                published_at_ms,
                request_id,
                kind,
                first_log,
            );
            if r is Some {
                assert(!is_remembered(then, s@, r->0@));
            }
            law_new_publications_are_kept(then, s, k, p, t, r, kind, second_log);
            let n = held_in(state, stream@).len() as int;
            let after = command_step(then, second, kind, second_log).0;
            assert(held_in(after, stream@)[n] == held_in(then, stream@)[n]);
        },
        _ => {},
    }
}

/// A replay changes nothing. At every offset of a stream that is in use it gives what
/// the stream holds there; beyond the last it says which offsets there are; and where
/// there is no such stream it finds none.
pub proof fn law_replay_gives_what_is_stored(
    state: SnapshotView,
    stream: String,
    consumer: String,
    offset: u64,
    kind: GroupKind,
    log_id: LogId,
)
    requires
        held_in(state, stream@).len() <= u64::MAX,
    ensures
        ({
            let command = Command::Replay { stream, consumer, offset };
            let (after, answer) = command_step(state, command, kind, log_id);
            let messages = state.streams[stream@].messages;
            &&& after == state
            &&& !serves(state, kind, stream@) ==> answer == ResponseView::StreamNotFound
            &&& serves(state, kind, stream@) && offset < messages.len() ==> {
                &&& answer matches ResponseView::Replay { result }
                &&& result.stream == stream@
                &&& result.offset == offset
                &&& result.key == messages[offset as int].key
                &&& result.payload == messages[offset as int].payload
                &&& result.published_at_ms == messages[offset as int].published_at_ms
            }
            &&& serves(state, kind, stream@) && offset >= messages.len() ==> {
                &&& answer matches ResponseView::HistoryUnavailable {
                    requested_offset,
                    earliest_offset,
                    next_offset,
                }
                &&& requested_offset == offset
                &&& earliest_offset == 0
                &&& next_offset == messages.len()
            }
        }),
{
}

/// A message that was kept is replayed as it was given, key, payload and time,
/// whatever log entries come after it.
pub proof fn law_published_messages_are_replayed_over_a_log(
    machine: MachineView,
    stream: String,
    key: Option<String>,
    payload: Vec<u8>,
    published_at_ms: u64,
    request_id: Option<String>,
    consumer: String,
    kind: GroupKind,
    log_id: LogId,
    between: Seq<Entry>,
    replay_log: LogId,
)
    requires
        kind != GroupKind::Metadata,
        machine.state.streams.contains_key(stream@)
            ==> machine.state.streams[stream@].lifecycle == StreamLifecycle::Active,
        request_id matches Some(id) ==> !is_remembered(machine.state, stream@, id@),
        held_in(machine.state, stream@).len() < u64::MAX,
        ({
            let command = Command::Publish { stream, key, payload, published_at_ms, request_id };
            let state = command_step(machine.state, command, kind, log_id).0;
            let then = machine_after(MachineView { state, ..machine }, between, kind).state;
            held_in(then, stream@).len() <= u64::MAX
        }),
    ensures
        ({
            let command = Command::Publish { stream, key, payload, published_at_ms, request_id };
            let (state, kept) = command_step(machine.state, command, kind, log_id);
            let then = machine_after(MachineView { state, ..machine }, between, kind).state;
            let replay = Command::Replay { stream, consumer, offset: kept->Published_offset };
            let answer = command_step(then, replay, kind, replay_log).1;
            &&& kept is Published
            &&& answer matches ResponseView::Replay { result }
            &&& result.stream == stream@
            &&& result.offset == kept->Published_offset
            &&& result.payload == payload@
            &&& result.published_at_ms == published_at_ms
            &&& match key {
                Some(key) => result.key == Some(key@),
                None => result.key is None,
            }
        }),
{
    let command = Command::Publish { stream, key, payload, published_at_ms, request_id };
    law_new_publications_are_kept(
        machine.state,
        stream,
        key,
        payload,
        published_at_ms,
        request_id,
        kind,
        log_id,
    );
    let (state, kept) = command_step(machine.state, command, kind, log_id);
    let offset = kept->Published_offset;
    let started = MachineView { state, ..machine };
    let then = machine_after(started, between, kind).state;
    law_history_only_grows_over_a_log(started, between, kind);
    let messages = state.streams[stream@].messages;
    let last = then.streams[stream@].messages;
    assert(last.take(messages.len() as int)[offset as int] == last[offset as int]);
    law_replay_gives_what_is_stored(then, stream, consumer, offset, kind, replay_log);
}

/// What the creation of a stream does. A name that is taken is left as it is. A new
/// stream is empty, under the identities that it was given or else those of its name;
/// it is in use at once, but in a metadata group only when it is activated. A data
/// group creates none. No other stream changes.
pub proof fn law_streams_are_created_once(
    state: SnapshotView,
    stream: String,
    stream_id: Option<String>,
    group_id: Option<String>,
    kind: GroupKind,
    log_id: LogId,
)
    ensures
        ({
            let command = Command::CreateStream { stream, stream_id, group_id };
            let (after, answer) = command_step(state, command, kind, log_id);
            let made = after.streams[stream@];
            &&& kind is Data ==> after == state && answer == ResponseView::Noop
            &&& !(kind is Data) && state.streams.contains_key(stream@) ==> after == state
                && answer == (ResponseView::StreamCreated { created: false })
            &&& !(kind is Data) && !state.streams.contains_key(stream@) ==> {
                &&& answer == (ResponseView::StreamCreated { created: true })
                &&& after.streams.contains_key(stream@)
                &&& made.messages.len() == 0
                &&& made.stream_id == (match stream_id {
                    Some(id) => id@,
                    None => "stream/"@ + stream@,
                })
                &&& made.group_id == (match group_id {
                    Some(id) => id@,
                    None => "group/"@ + stream@ + "/data"@,
                })
                &&& made.lifecycle == StreamLifecycle::Creating <==> kind == GroupKind::Metadata
                &&& made.lifecycle == StreamLifecycle::Active <==> kind == GroupKind::Combined
            }
            &&& forall|s: Seq<char>|
                s != stream@ ==> (#[trigger] after.streams.contains_key(s)
                    <==> state.streams.contains_key(s)) && (after.streams.contains_key(s)
                    ==> after.streams[s] == state.streams[s])
        }),
{
}

/// What the initialisation of a data stream does: only a data group that is for this
/// very stream takes it in, empty, in use and under the identities given, and only
/// once. No other stream changes.
pub proof fn law_data_groups_take_in_their_stream_once(
    state: SnapshotView,
    stream: String,
    stream_id: String,
    group_id: String,
    kind: GroupKind,
    log_id: LogId,
)
    ensures
        ({
            let command = Command::InitializeDataStream { stream, stream_id, group_id };
            let (after, answer) = command_step(state, command, kind, log_id);
            let made = after.streams[stream@];
            let own = kind is Data && kind->stream@ == stream@ && kind->stream_id@ == stream_id@
                && kind->group_id@ == group_id@;
            &&& !own ==> after == state && answer == ResponseView::Noop
            &&& own && state.streams.contains_key(stream@) ==> after == state && answer == (
            ResponseView::DataStreamInitialized { initialized: false })
            &&& own && !state.streams.contains_key(stream@) ==> {
                &&& answer == (ResponseView::DataStreamInitialized { initialized: true })
                &&& after.streams.contains_key(stream@)
                &&& made.messages.len() == 0
                &&& made.stream_id == stream_id@
                &&& made.group_id == group_id@
                &&& made.lifecycle == StreamLifecycle::Active
            }
            &&& forall|s: Seq<char>|
                s != stream@ ==> (#[trigger] after.streams.contains_key(s)
                    <==> state.streams.contains_key(s)) && (after.streams.contains_key(s)
                    ==> after.streams[s] == state.streams[s])
        }),
{
}

/// What the activation of a stream does: a stream that is there is in use afterwards
/// and keeps all else, and the answer says whether it was not before. A data group
/// activates none. No other stream changes.
pub proof fn law_activated_streams_are_in_use(
    state: SnapshotView,
    stream: String,
    kind: GroupKind,
    log_id: LogId,
)
    ensures
        ({
            let command = Command::ActivateStream { stream };
            let (after, answer) = command_step(state, command, kind, log_id);
            let was = state.streams[stream@];
            let now = after.streams[stream@];
            &&& kind is Data ==> after == state && answer == ResponseView::Noop
            &&& !(kind is Data) && !state.streams.contains_key(stream@) ==> after == state
                && answer == (ResponseView::StreamActivated { activated: false })
            &&& !(kind is Data) && state.streams.contains_key(stream@) ==> {
                &&& answer == (ResponseView::StreamActivated {
                    activated: was.lifecycle == StreamLifecycle::Creating,
                })
                &&& after.streams.contains_key(stream@)
                &&& now.lifecycle == StreamLifecycle::Active
                &&& now.messages == was.messages
                &&& now.stream_id == was.stream_id
                &&& now.group_id == was.group_id
            }
            &&& forall|s: Seq<char>|
                s != stream@ ==> (#[trigger] after.streams.contains_key(s)
                    <==> state.streams.contains_key(s)) && (after.streams.contains_key(s)
                    ==> after.streams[s] == state.streams[s])
        }),
{
}

/// What a plain acknowledgement does: a consumer acknowledges its offsets one by one,
/// from the first on. The next one is accepted and moves the consumer on by one; an
/// earlier one is done already; a later one is out of order. Nothing else changes.
/// (A consumer that has come to the highest offset there is has none after it, and is
/// left out.)
pub proof fn law_plain_consumers_acknowledge_in_order(
    state: SnapshotView,
    stream: String,
    consumer: String,
    offset: u64,
    kind: GroupKind,
    log_id: LogId,
)
    requires
        plain_progress(state, (stream@, consumer@)) < u64::MAX,
    ensures
        ({
            let key = (stream@, consumer@);
            let command = Command::Ack { stream, consumer, offset };
            let (after, answer) = command_step(state, command, kind, log_id);
            let next = plain_progress(state, key);
            &&& !serves(state, kind, stream@) ==> after == state && answer
                == ResponseView::StreamNotFound
            &&& serves(state, kind, stream@) ==> {
                &&& answer is Acknowledged <==> offset == next
                &&& answer is AlreadyAcknowledged <==> offset < next
                &&& offset > next ==> answer == (ResponseView::OutOfOrderAck {
                    expected: next,
                    received: offset,
                })
                &&& plain_progress(after, key) == if offset == next {
                    next + 1
                } else {
                    next as int
                }
            }
            &&& forall|k: (Seq<char>, Seq<char>)|
                k != key ==> (#[trigger] after.consumers.contains_key(k)
                    <==> state.consumers.contains_key(k)) && (after.consumers.contains_key(k)
                    ==> after.consumers[k] == state.consumers[k])
            &&& after.streams == state.streams
        }),
{
}

/// What kind of a command leaves what alone. Only polls and grouped acknowledgements
/// touch groups, their own, and the clock; only plain acknowledgements touch plain
/// consumers, their own; only publications remember identities; and only polls count
/// redeliveries and dead letters.
pub proof fn law_commands_leave_the_rest_alone(
    state: SnapshotView,
    command: Command,
    kind: GroupKind,
    log_id: LogId,
)
    ensures
        ({
            let after = command_step(state, command, kind, log_id).0;
            let grouped = command is PollGroup || command is AckGroup;
            &&& !grouped ==> after.group_consumers == state.group_consumers
                && after.lease_clock_ms == state.lease_clock_ms
            &&& !(command is Ack) ==> after.consumers == state.consumers
            &&& !(command is Publish) ==> after.dedup == state.dedup
            &&& !(command is PollGroup) ==> after.redeliveries == state.redeliveries
                && after.dead_letters == state.dead_letters
            &&& command is Ack || command is AckGroup || command is Replay ==> after.streams
                == state.streams
            &&& command is PollGroup ==> forall|k: (Seq<char>, Seq<char>)|
                k != (command->PollGroup_stream@, command->PollGroup_consumer@) ==> (#[trigger]
                after.group_consumers.contains_key(k) <==> state.group_consumers.contains_key(k))
                    && (after.group_consumers.contains_key(k) ==> after.group_consumers[k]
                    == state.group_consumers[k])
            &&& command is AckGroup ==> forall|k: (Seq<char>, Seq<char>)|
                k != (command->AckGroup_stream@, command->AckGroup_consumer@) ==> (#[trigger]
                after.group_consumers.contains_key(k) <==> state.group_consumers.contains_key(k))
                    && (after.group_consumers.contains_key(k) ==> after.group_consumers[k]
                    == state.group_consumers[k])
        }),
{
}

} // verus!
