//! What holds of deliveries whatever commands come.

use vstd::prelude::*;

use crate::delivery::{
    acked_group, acknowledged, acknowledged_all, attempts_of, dead_letter_name, delivery_token,
    expired, given_up, group_ack_step, group_poll_step, held_by, is_dead_letter_name, is_done,
    is_least, is_spent, is_waiting, key_is_held, later, law_dead_letter_stream_is_another, lemma_least_exists,
    lemma_least_is, limit_in, live, messages_at, newcomer, next_attempt, next_delivery, next_up,
    polled_group, run_end, spent_below, stream_is_active, with_delivery, DeliveryView,
    GroupAckRequest, GroupConsumerView, GroupPollRequest,
};
use crate::engine::{MessageView, PollResultView, ReplayMessageView};
use crate::log_id::LogId;
use crate::state_machine::{
    acks_the_last_offset, command_step, empty_state, known_offset, publish_step, replay_answer, Command, GroupKind,
    ResponseView, SnapshotView, StoredMessageView, StreamLifecycle, StreamView,
};
use crate::text::{decimal, digit_char};

verus! {

/// An acknowledgement makes its offset done, and no other. (The highest offset
/// there is has none after it, and is left out.)
pub proof fn law_acknowledging_makes_done(group: GroupConsumerView, o: u64, x: u64)
    requires
        x < u64::MAX,
    ensures
        is_done(acknowledged(group, o), x) <==> is_done(group, x) || x == o,
{
    if o == group.committed_offset {
        let from = next_up(o);
        let acked = group.acknowledged_offsets;
        let p = |n: u64| n >= from && !acked.contains(n);
        let end = run_end(from, acked);
        if exists|n: u64| #[trigger] p(n) {
            let n = choose|n: u64| #[trigger] p(n);
            lemma_least_exists(n, p);
            assert(is_least(end, p));
            if from <= x && x < end {
                assert(!p(x));
            }
        } else {
            assert forall|n: u64| !is_least(n, p) by {
                assert(!p(n));
            }
            assert(end == u64::MAX);
            if from <= x {
                assert(!p(x));
            }
        }
    }
}

/// Several acknowledgements make their offsets done, and no other.
pub proof fn law_acknowledging_all_makes_done(group: GroupConsumerView, offsets: Seq<u64>, x: u64)
    requires
        x < u64::MAX,
    ensures
        is_done(acknowledged_all(group, offsets), x) <==> is_done(group, x) || offsets.contains(x),
    decreases offsets.len(),
{
    if offsets.len() > 0 {
        let rest = offsets.drop_last();
        law_acknowledging_all_makes_done(group, rest, x);
        law_acknowledging_makes_done(acknowledged_all(group, rest), offsets.last(), x);
        if offsets.contains(x) && x != offsets.last() {
            let i = choose|i: int| 0 <= i < offsets.len() && offsets[i] == x;
            assert(rest[i] == x);
        }
        if rest.contains(x) {
            let i = choose|i: int| 0 <= i < rest.len() && rest[i] == x;
            assert(offsets[i] == x);
        }
        if x == offsets.last() {
            assert(offsets[offsets.len() - 1] == x);
        }
    }
}

/// Acknowledgements take nothing from a group but the deliveries and counts of
/// their own offsets.
pub proof fn law_acknowledging_keeps_the_rest(
    group: GroupConsumerView,
    offsets: Seq<u64>,
    o: u64,
)
    ensures
        ({
            let after = acknowledged_all(group, offsets);
            &&& after.in_flight.contains_key(o) <==> group.in_flight.contains_key(o)
                && !offsets.contains(o)
            &&& after.in_flight.contains_key(o) ==> after.in_flight[o] == group.in_flight[o]
            &&& after.delivery_attempts.contains_key(o) <==> group.delivery_attempts.contains_key(o)
                && !offsets.contains(o)
            &&& after.delivery_attempts.contains_key(o) ==> after.delivery_attempts[o]
                == group.delivery_attempts[o]
        }),
    decreases offsets.len(),
{
    if offsets.len() > 0 {
        let rest = offsets.drop_last();
        law_acknowledging_keeps_the_rest(group, rest, o);
        if offsets.contains(o) && o != offsets.last() {
            let i = choose|i: int| 0 <= i < offsets.len() && offsets[i] == o;
            assert(rest[i] == o);
        }
        if rest.contains(o) {
            let i = choose|i: int| 0 <= i < rest.len() && rest[i] == o;
            assert(offsets[i] == o);
        }
        if o == offsets.last() {
            assert(offsets[offsets.len() - 1] == o);
        }
        let before = acknowledged_all(group, rest);
        let after = acknowledged_all(group, offsets);
        assert(after == acknowledged(before, offsets.last()));
        assert(after.in_flight == before.in_flight.remove(offsets.last()));
        assert(after.delivery_attempts == before.delivery_attempts.remove(offsets.last()));
    }
}

/// The deliveries of a group are in order. Each is of a message that is there
/// and not done, under that message's key, and is the last one counted. No
/// member holds two, and no two of one key are under way. What is acknowledged
/// apart lies above the committed offset, and what is counted was delivered at
/// least once.
pub open spec fn group_sound(
    group: GroupConsumerView,
    messages: Seq<StoredMessageView>,
) -> bool {
    &&& forall|o: u64| #[trigger]
        group.in_flight.contains_key(o) ==> {
            &&& o < messages.len()
            &&& !is_done(group, o)
            &&& group.in_flight[o].key == messages[o as int].key
            &&& group.delivery_attempts.contains_key(o)
            &&& group.delivery_attempts[o] == group.in_flight[o].delivery_attempt
        }
    &&& forall|a: u64, b: u64|
        #![trigger group.in_flight.contains_key(a), group.in_flight.contains_key(b)]
        group.in_flight.contains_key(a) && group.in_flight.contains_key(b) && a != b ==> {
            &&& group.in_flight[a].member != group.in_flight[b].member
            &&& group.in_flight[a].key is Some ==> group.in_flight[a].key
                != group.in_flight[b].key
        }
    &&& forall|o: u64| #[trigger]
        group.acknowledged_offsets.contains(o) ==> o > group.committed_offset
    &&& forall|o: u64| #[trigger]
        group.delivery_attempts.contains_key(o) ==> group.delivery_attempts[o] >= 1
}

/// Every group is at a stream that is active, and its deliveries are in order.
pub open spec fn state_sound(state: SnapshotView) -> bool {
    forall|k: (Seq<char>, Seq<char>)| #[trigger]
        state.group_consumers.contains_key(k) ==> stream_is_active(state.streams, k.0)
            && group_sound(state.group_consumers[k], state.streams[k.0].messages)
}

/// No stream holds more messages than there are offsets.
pub open spec fn state_fits(state: SnapshotView) -> bool {
    forall|s: Seq<char>| #[trigger]
        state.streams.contains_key(s) ==> state.streams[s].messages.len() <= u64::MAX
}

/// Taking back expired deliveries leaves the rest in order.
proof fn lemma_live_sound(
    group: GroupConsumerView,
    messages: Seq<StoredMessageView>,
    now_ms: u64,
)
    requires
        group_sound(group, messages),
    ensures
        group_sound(
            GroupConsumerView { in_flight: live(group.in_flight, now_ms), ..group },
            messages,
        ),
{
    let after = GroupConsumerView { in_flight: live(group.in_flight, now_ms), ..group };
    assert forall|o: u64| #[trigger] after.in_flight.contains_key(o) implies {
        &&& o < messages.len()
        &&& !is_done(after, o)
        &&& after.in_flight[o].key == messages[o as int].key
        &&& after.delivery_attempts.contains_key(o)
        &&& after.delivery_attempts[o] == after.in_flight[o].delivery_attempt
    } by {
        assert(group.in_flight.contains_key(o));
    }
    assert forall|a: u64, b: u64|
        #![trigger after.in_flight.contains_key(a), after.in_flight.contains_key(b)]
        after.in_flight.contains_key(a) && after.in_flight.contains_key(b) && a != b implies {
        &&& after.in_flight[a].member != after.in_flight[b].member
        &&& after.in_flight[a].key is Some ==> after.in_flight[a].key != after.in_flight[b].key
    } by {
        assert(group.in_flight.contains_key(a));
        assert(group.in_flight.contains_key(b));
    }
}

/// A run of acknowledged offsets ends no lower than it begins.
proof fn lemma_run_end(from: u64, acked: Set<u64>)
    ensures
        run_end(from, acked) >= from,
{
    let p = |n: u64| n >= from && !acked.contains(n);
    if exists|n: u64| is_least(n, p) {
        let n = choose|n: u64| is_least(n, p);
        assert(is_least(n, p));
    }
}

/// What is acknowledged apart stays above the committed offset when offsets that
/// are not done are acknowledged.
pub(crate) proof fn lemma_acknowledged_ahead(group: GroupConsumerView, offsets: Seq<u64>)
    requires
        forall|n: u64| #[trigger]
            group.acknowledged_offsets.contains(n) ==> n > group.committed_offset,
        forall|i: int| 0 <= i < offsets.len() ==> !is_done(group, #[trigger] offsets[i]),
        offsets.no_duplicates(),
        offsets.len() > 1 ==> forall|i: int|
            0 <= i < offsets.len() ==> #[trigger] offsets[i] < u64::MAX,
    ensures
        forall|n: u64| #[trigger]
            acknowledged_all(group, offsets).acknowledged_offsets.contains(n) ==> n
                > acknowledged_all(group, offsets).committed_offset,
    decreases offsets.len(),
{
    if offsets.len() > 0 {
        let rest = offsets.drop_last();
        let o = offsets.last();
        lemma_acknowledged_ahead(group, rest);
        let before = acknowledged_all(group, rest);
        assert(!is_done(before, o)) by {
            if rest.len() > 0 {
                law_acknowledging_all_makes_done(group, rest, o);
                if rest.contains(o) {
                    let i = choose|i: int| 0 <= i < rest.len() && rest[i] == o;
                    assert(offsets[i] == offsets[offsets.len() - 1]);
                }
            }
        }
        lemma_run_end(next_up(o), before.acknowledged_offsets);
    }
}

/// Acknowledgements of what is not done leave the deliveries that stay in order.
proof fn lemma_acknowledged_all_sound(
    group: GroupConsumerView,
    messages: Seq<StoredMessageView>,
    offsets: Seq<u64>,
)
    requires
        group_sound(group, messages),
        messages.len() <= u64::MAX,
        forall|i: int| 0 <= i < offsets.len() ==> !is_done(group, #[trigger] offsets[i]),
        offsets.no_duplicates(),
        offsets.len() > 1 ==> forall|i: int|
            0 <= i < offsets.len() ==> #[trigger] offsets[i] < u64::MAX,
    ensures
        group_sound(acknowledged_all(group, offsets), messages),
{
    let after = acknowledged_all(group, offsets);
    lemma_acknowledged_ahead(group, offsets);
    assert forall|o: u64| #[trigger] after.delivery_attempts.contains_key(o) implies
        after.delivery_attempts[o] >= 1 by {
        law_acknowledging_keeps_the_rest(group, offsets, o);
    }
    assert forall|o: u64| #[trigger] after.in_flight.contains_key(o) implies {
        &&& o < messages.len()
        &&& !is_done(after, o)
        &&& after.in_flight[o].key == messages[o as int].key
        &&& after.delivery_attempts.contains_key(o)
        &&& after.delivery_attempts[o] == after.in_flight[o].delivery_attempt
    } by {
        law_acknowledging_keeps_the_rest(group, offsets, o);
        assert(group.in_flight.contains_key(o));
        law_acknowledging_all_makes_done(group, offsets, o);
    }
    assert forall|a: u64, b: u64|
        #![trigger after.in_flight.contains_key(a), after.in_flight.contains_key(b)]
        after.in_flight.contains_key(a) && after.in_flight.contains_key(b) && a != b implies {
        &&& after.in_flight[a].member != after.in_flight[b].member
        &&& after.in_flight[a].key is Some ==> after.in_flight[a].key != after.in_flight[b].key
    } by {
        law_acknowledging_keeps_the_rest(group, offsets, a);
        law_acknowledging_keeps_the_rest(group, offsets, b);
        assert(group.in_flight.contains_key(a));
        assert(group.in_flight.contains_key(b));
    }
}

/// One acknowledgement is several of which there is one.
pub(crate) proof fn lemma_one_of_all(group: GroupConsumerView, o: u64)
    ensures
        acknowledged_all(group, seq![o]) == acknowledged(group, o),
{
    let one = seq![o];
    assert(one.drop_last() =~= Seq::<u64>::empty());
    assert(one.last() == o);
    reveal_with_fuel(acknowledged_all, 2);
}

/// The chosen message waits and is not spent.
pub(crate) proof fn lemma_next_delivery(
    group: GroupConsumerView,
    messages: Seq<StoredMessageView>,
    limit: Option<u32>,
)
    ensures
        next_delivery(group, messages, limit) matches Some(o) ==> is_waiting(group, messages, o)
            && !is_spent(group, limit, o) && forall|x: u64| #[trigger]
            is_waiting(group, messages, x) && x < o ==> is_spent(group, limit, x),
        next_delivery(group, messages, limit) is None ==> forall|x: u64| #[trigger]
            is_waiting(group, messages, x) ==> is_spent(group, limit, x),
{
    let p = |o: u64| is_waiting(group, messages, o) && !is_spent(group, limit, o);
    match next_delivery(group, messages, limit) {
        Some(o) => {
            let n = choose|n: u64| is_least(n, p);
            assert(is_least(n, p));
            assert(p(o));
            assert forall|x: u64| #[trigger] is_waiting(group, messages, x) && x < o implies
                is_spent(group, limit, x) by {
                assert(!p(x));
            }
        },
        None => {
            assert forall|x: u64| #[trigger] is_waiting(group, messages, x) implies is_spent(
                group,
                limit,
                x,
            ) by {
                if p(x) {
                    lemma_least_exists(x, p);
                }
            }
        },
    }
}

/// The messages that are given up are those that wait and are spent, below the
/// one that is delivered.
proof fn lemma_spent_below(
    group: GroupConsumerView,
    messages: Seq<StoredMessageView>,
    limit: Option<u32>,
    below: nat,
    x: u64,
)
    requires
        below <= u64::MAX,
    ensures
        spent_below(group, messages, limit, below).contains(x) <==> x < below && is_waiting(
            group,
            messages,
            x,
        ) && is_spent(group, limit, x),
    decreases below,
{
    let all = spent_below(group, messages, limit, below);
    if below > 0 {
        let o = (below - 1) as u64;
        let rest = spent_below(group, messages, limit, (below - 1) as nat);
        lemma_spent_below(group, messages, limit, (below - 1) as nat, x);
        if rest.contains(x) {
            let i = choose|i: int| 0 <= i < rest.len() && rest[i] == x;
            assert(all[i] == x);
        }
        if x == o && all != rest {
            assert(all[rest.len() as int] == x);
        }
        if all.contains(x) {
            let i = choose|i: int| 0 <= i < all.len() && all[i] == x;
            if i < rest.len() {
                assert(rest[i] == x);
            }
        }
    }
}

/// The messages that a poll gives up on are those that wait and are spent, below
/// the one that it delivers.
pub proof fn law_given_up_are_the_spent(
    group: GroupConsumerView,
    messages: Seq<StoredMessageView>,
    limit: Option<u32>,
    x: u64,
)
    requires
        messages.len() <= u64::MAX,
    ensures
        given_up(group, messages, limit).contains(x) <==> is_waiting(group, messages, x)
            && is_spent(group, limit, x) && (next_delivery(group, messages, limit) matches Some(o)
            ==> x < o),
{
    lemma_next_delivery(group, messages, limit);
    match next_delivery(group, messages, limit) {
        Some(o) => lemma_spent_below(group, messages, limit, o as nat, x),
        None => lemma_spent_below(group, messages, limit, messages.len(), x),
    }
}

/// The messages that are given up are given up once each, in order.
pub(crate) proof fn lemma_spent_ascend(
    group: GroupConsumerView,
    messages: Seq<StoredMessageView>,
    limit: Option<u32>,
    below: nat,
)
    requires
        below <= u64::MAX,
    ensures
        spent_below(group, messages, limit, below).no_duplicates(),
        forall|i: int, j: int|
            0 <= i < j < spent_below(group, messages, limit, below).len() ==> spent_below(
                group,
                messages,
                limit,
                below,
            )[i] < spent_below(group, messages, limit, below)[j],
        forall|i: int|
            0 <= i < spent_below(group, messages, limit, below).len() ==> #[trigger] spent_below(
                group,
                messages,
                limit,
                below,
            )[i] < below,
    decreases below,
{
    if below > 0 {
        lemma_spent_ascend(group, messages, limit, (below - 1) as nat);
    }
}

/// Giving up on the spent messages leaves the deliveries that stay in order.
proof fn lemma_given_up_sound(
    group: GroupConsumerView,
    messages: Seq<StoredMessageView>,
    limit: Option<u32>,
)
    requires
        group_sound(group, messages),
        messages.len() <= u64::MAX,
    ensures
        group_sound(acknowledged_all(group, given_up(group, messages, limit)), messages),
{
    let dead = given_up(group, messages, limit);
    match next_delivery(group, messages, limit) {
        Some(o) => lemma_spent_ascend(group, messages, limit, o as nat),
        None => lemma_spent_ascend(group, messages, limit, messages.len()),
    }
    assert forall|i: int| 0 <= i < dead.len() implies !is_done(group, #[trigger] dead[i]) by {
        law_given_up_are_the_spent(group, messages, limit, dead[i]);
        assert(dead.contains(dead[i]));
    }
    lemma_acknowledged_all_sound(group, messages, dead);
}

/// A delivery of a waiting message to a member that holds none is in order.
proof fn lemma_delivery_sound(
    group: GroupConsumerView,
    messages: Seq<StoredMessageView>,
    limit: Option<u32>,
    o: u64,
    delivery: DeliveryView,
)
    requires
        group_sound(group, messages),
        messages.len() <= u64::MAX,
        next_delivery(group, messages, limit) == Some(o),
        held_by(group.in_flight, delivery.member) is None,
        delivery.key == messages[o as int].key,
        delivery.delivery_attempt >= 1,
    ensures
        group_sound(
            with_delivery(acknowledged_all(group, given_up(group, messages, limit)), o, delivery),
            messages,
        ),
{
    let dead = given_up(group, messages, limit);
    let rest = acknowledged_all(group, dead);
    let after = with_delivery(rest, o, delivery);
    lemma_next_delivery(group, messages, limit);
    lemma_given_up_sound(group, messages, limit);
    law_given_up_are_the_spent(group, messages, limit, o);
    law_acknowledging_all_makes_done(group, dead, o);
    assert(!is_done(rest, o));
    let p = |x: u64| group.in_flight.contains_key(x) && group.in_flight[x].member
        == delivery.member;
    assert forall|x: u64| #[trigger] rest.in_flight.contains_key(x) implies
        rest.in_flight[x].member != delivery.member && (delivery.key is Some
        ==> rest.in_flight[x].key != delivery.key) by {
        law_acknowledging_keeps_the_rest(group, dead, x);
        if rest.in_flight[x].member == delivery.member {
            assert(p(x));
            lemma_least_exists(x, p);
        }
        if delivery.key is Some && rest.in_flight[x].key == delivery.key {
            assert(group.in_flight.contains_key(x));
            assert(key_is_held(group.in_flight, messages[o as int].key));
        }
    }
    assert forall|x: u64| #[trigger] after.in_flight.contains_key(x) implies {
        &&& x < messages.len()
        &&& !is_done(after, x)
        &&& after.in_flight[x].key == messages[x as int].key
        &&& after.delivery_attempts.contains_key(x)
        &&& after.delivery_attempts[x] == after.in_flight[x].delivery_attempt
    } by {
        if x != o {
            assert(rest.in_flight.contains_key(x));
        }
    }
    assert forall|a: u64, b: u64|
        #![trigger after.in_flight.contains_key(a), after.in_flight.contains_key(b)]
        after.in_flight.contains_key(a) && after.in_flight.contains_key(b) && a != b implies {
        &&& after.in_flight[a].member != after.in_flight[b].member
        &&& after.in_flight[a].key is Some ==> after.in_flight[a].key != after.in_flight[b].key
    } by {
        if a != o {
            assert(rest.in_flight.contains_key(a));
        }
        if b != o {
            assert(rest.in_flight.contains_key(b));
        }
    }
}

/// Deliveries stay in order when messages are added behind the others.
proof fn lemma_more_messages_sound(
    group: GroupConsumerView,
    messages: Seq<StoredMessageView>,
    more: Seq<StoredMessageView>,
)
    requires
        group_sound(group, messages),
        messages.len() <= more.len(),
        more.take(messages.len() as int) == messages,
    ensures
        group_sound(group, more),
{
    assert forall|o: u64| #[trigger] group.in_flight.contains_key(o) implies {
        &&& o < more.len()
        &&& !is_done(group, o)
        &&& group.in_flight[o].key == more[o as int].key
        &&& group.delivery_attempts.contains_key(o)
        &&& group.delivery_attempts[o] == group.in_flight[o].delivery_attempt
    } by {
        assert(more.take(messages.len() as int)[o as int] == messages[o as int]);
    }
}

/// A stream keeps all that it has: it stays, it keeps its identity and its group,
/// it stays active, and its messages stay at their offsets.
pub open spec fn stream_extends(before: StreamView, after: StreamView) -> bool {
    &&& before.stream_id == after.stream_id
    &&& before.group_id == after.group_id
    &&& before.lifecycle == StreamLifecycle::Active ==> after.lifecycle == StreamLifecycle::Active
    &&& before.messages.len() <= after.messages.len()
    &&& after.messages.take(before.messages.len() as int) == before.messages
}

/// Every stream keeps all that it has.
pub open spec fn streams_extend(
    before: Map<Seq<char>, StreamView>,
    after: Map<Seq<char>, StreamView>,
) -> bool {
    forall|s: Seq<char>| #[trigger]
        before.contains_key(s) ==> after.contains_key(s) && stream_extends(before[s], after[s])
}

/// Whatever the command, no message is lost, changed or moved: history only
/// grows.
pub proof fn law_history_only_grows(
    state: SnapshotView,
    command: Command,
    kind: GroupKind,
    log_id: LogId,
)
    ensures
        streams_extend(state.streams, command_step(state, command, kind, log_id).0.streams),
{
    let after = command_step(state, command, kind, log_id).0;
    assert forall|s: Seq<char>| #[trigger] state.streams.contains_key(s) implies
        after.streams.contains_key(s) && stream_extends(state.streams[s], after.streams[s]) by {
        let old_messages = state.streams[s].messages;
        let new_messages = after.streams[s].messages;
        assert(old_messages.take(old_messages.len() as int) =~= old_messages);
        match command {
            Command::PollGroup { stream, .. } => {
                law_dead_letter_stream_is_another(stream@);
                assert(new_messages.take(old_messages.len() as int) =~= old_messages);
            },
            _ => {
                assert(new_messages.take(old_messages.len() as int) =~= old_messages);
            },
        }
    }
}

/// Whatever the command, the clock by which leases expire does not go back.
pub proof fn law_lease_clock_never_goes_back(
    state: SnapshotView,
    command: Command,
    kind: GroupKind,
    log_id: LogId,
)
    ensures
        command_step(state, command, kind, log_id).0.lease_clock_ms >= state.lease_clock_ms,
{
}

/// Consumers and groups stay and have come no less far, and what was counted stays
/// counted.
pub open spec fn progress_extends(before: SnapshotView, after: SnapshotView) -> bool {
    &&& forall|k: (Seq<char>, Seq<char>)| #[trigger]
        before.consumers.contains_key(k) ==> after.consumers.contains_key(k)
            && before.consumers[k] <= after.consumers[k]
    &&& forall|k: (Seq<char>, Seq<char>)| #[trigger]
        before.group_consumers.contains_key(k) ==> after.group_consumers.contains_key(k)
            && before.group_consumers[k].committed_offset
            <= after.group_consumers[k].committed_offset
    &&& before.redeliveries <= after.redeliveries
    &&& before.dead_letters <= after.dead_letters
}

/// Acknowledgements never take a group back.
proof fn lemma_committed_never_goes_back(group: GroupConsumerView, offsets: Seq<u64>)
    ensures
        group.committed_offset <= acknowledged_all(group, offsets).committed_offset,
    decreases offsets.len(),
{
    if offsets.len() > 0 {
        let before = acknowledged_all(group, offsets.drop_last());
        lemma_committed_never_goes_back(group, offsets.drop_last());
        lemma_run_end(next_up(offsets.last()), before.acknowledged_offsets);
    }
}

/// Whatever the command, progress is never lost: no consumer and no group goes back
/// to an earlier offset, and neither redeliveries nor dead letters are uncounted.
/// (A plain consumer that has come to the highest offset there is has none after
/// it, and its acknowledgement is left out.)
pub proof fn law_progress_never_goes_back(
    state: SnapshotView,
    command: Command,
    kind: GroupKind,
    log_id: LogId,
)
    requires
        !acks_the_last_offset(state, command, kind),
    ensures
        progress_extends(state, command_step(state, command, kind, log_id).0),
{
    match command {
        Command::PollGroup { stream, consumer, now_ms, max_delivery_attempts, .. } => {
            let key = (stream@, consumer@);
            let group = polled_group(state, key, later(state.lease_clock_ms, now_ms));
            let messages = state.streams[stream@].messages;
            let dead = given_up(group, messages, limit_in(stream@, max_delivery_attempts));
            lemma_committed_never_goes_back(group, dead);
        },
        Command::AckGroup { stream, consumer, offset, now_ms, .. } => {
            let key = (stream@, consumer@);
            let group = acked_group(state, key, later(state.lease_clock_ms, now_ms));
            lemma_committed_never_goes_back(group, seq![offset]);
            lemma_one_of_all(group, offset);
        },
        _ => {},
    }
}

/// Groups stay in order while their streams only grow.
proof fn lemma_extended_streams_sound(before: SnapshotView, after: SnapshotView)
    requires
        state_sound(before),
        streams_extend(before.streams, after.streams),
    ensures
        forall|k: (Seq<char>, Seq<char>)| #[trigger]
            before.group_consumers.contains_key(k) ==> stream_is_active(after.streams, k.0)
                && group_sound(before.group_consumers[k], after.streams[k.0].messages),
{
    assert forall|k: (Seq<char>, Seq<char>)| #[trigger]
        before.group_consumers.contains_key(k) implies stream_is_active(after.streams, k.0)
        && group_sound(before.group_consumers[k], after.streams[k.0].messages) by {
        assert(before.streams.contains_key(k.0));
        lemma_more_messages_sound(
            before.group_consumers[k],
            before.streams[k.0].messages,
            after.streams[k.0].messages,
        );
    }
}

/// A poll leaves the deliveries of its group in order.
proof fn lemma_poll_sound(
    state: SnapshotView,
    request: GroupPollRequest,
    log_id: LogId,
    kind: GroupKind,
)
    requires
        state_sound(state),
        state_fits(state),
        !(kind is Metadata),
        stream_is_active(state.streams, request.stream@),
    ensures
        ({
            let after = group_poll_step(state, request, log_id, kind).0;
            let key = (request.stream@, request.consumer@);
            after.group_consumers.contains_key(key) && group_sound(
                after.group_consumers[key],
                state.streams[request.stream@].messages,
            )
        }),
{
    let stream = request.stream@;
    let key = (stream, request.consumer@);
    let now_ms = later(state.lease_clock_ms, request.now_ms);
    let messages = state.streams[stream].messages;
    let limit = limit_in(stream, request.max_delivery_attempts);
    let found = if state.group_consumers.contains_key(key) {
        state.group_consumers[key]
    } else if state.consumers.contains_key(key) {
        newcomer(state.consumers[key])
    } else {
        newcomer(0)
    };
    assert(group_sound(found, messages));
    lemma_live_sound(found, messages, now_ms);
    let group = polled_group(state, key, now_ms);
    assert(group_sound(group, messages));
    if held_by(group.in_flight, request.member@) is None {
        let dead = given_up(group, messages, limit);
        let rest = acknowledged_all(group, dead);
        lemma_given_up_sound(group, messages, limit);
        if let Some(o) = next_delivery(group, messages, limit) {
            let delivery = DeliveryView {
                member: request.member@,
                key: messages[o as int].key,
                delivery_attempt: next_attempt(rest, o),
                delivery_token: delivery_token(log_id),
                deadline_ms: request.lease_deadline_ms,
            };
            lemma_delivery_sound(group, messages, limit, o, delivery);
        }
    }
}

/// An acknowledgement leaves the deliveries of its group in order.
proof fn lemma_ack_sound(state: SnapshotView, request: GroupAckRequest, kind: GroupKind)
    requires
        state_sound(state),
        state_fits(state),
        !(kind is Metadata),
        stream_is_active(state.streams, request.stream@),
    ensures
        ({
            let after = group_ack_step(state, request, kind).0;
            let key = (request.stream@, request.consumer@);
            after.group_consumers.contains_key(key) && group_sound(
                after.group_consumers[key],
                state.streams[request.stream@].messages,
            )
        }),
{
    let stream = request.stream@;
    let key = (stream, request.consumer@);
    let now_ms = later(state.lease_clock_ms, request.now_ms);
    let messages = state.streams[stream].messages;
    let found = if state.group_consumers.contains_key(key) {
        state.group_consumers[key]
    } else {
        newcomer(0)
    };
    assert(group_sound(found, messages));
    lemma_live_sound(found, messages, now_ms);
    let group = acked_group(state, key, now_ms);
    if !is_done(group, request.offset) {
        lemma_acknowledged_all_sound(group, messages, seq![request.offset]);
        lemma_one_of_all(group, request.offset);
    }
}

/// Whatever the command, deliveries stay in order: a message is held by one
/// member of a group at a time, a member holds one message of a group at a time,
/// and no two messages of one key are under way in a group at once.
pub proof fn law_commands_keep_deliveries_in_order(
    state: SnapshotView,
    command: Command,
    kind: GroupKind,
    log_id: LogId,
)
    requires
        state_sound(state),
        state_fits(state),
    ensures
        state_sound(command_step(state, command, kind, log_id).0),
{
    let after = command_step(state, command, kind, log_id).0;
    law_history_only_grows(state, command, kind, log_id);
    lemma_extended_streams_sound(state, after);
    match command {
        Command::PollGroup {
            stream,
            consumer,
            member,
            now_ms,
            lease_deadline_ms,
            max_delivery_attempts,
        } => {
            let request = GroupPollRequest {
                stream,
                consumer,
                member,
                now_ms,
                lease_deadline_ms,
                max_delivery_attempts,
            };
            if !(kind is Metadata) && stream_is_active(state.streams, stream@) {
                lemma_poll_sound(state, request, log_id, kind);
                let key = (stream@, consumer@);
                lemma_more_messages_sound(
                    after.group_consumers[key],
                    state.streams[stream@].messages,
                    after.streams[stream@].messages,
                );
                assert forall|k: (Seq<char>, Seq<char>)| #[trigger]
                    after.group_consumers.contains_key(k) implies stream_is_active(
                    after.streams,
                    k.0,
                ) && group_sound(after.group_consumers[k], after.streams[k.0].messages) by {
                    if k != key {
                        assert(state.group_consumers.contains_key(k));
                    }
                }
            }
        },
        Command::AckGroup { stream, consumer, member, offset, delivery_token, now_ms } => {
            let request = GroupAckRequest {
                stream,
                consumer,
                member,
                offset,
                delivery_token,
                now_ms,
            };
            if !(kind is Metadata) && stream_is_active(state.streams, stream@) {
                lemma_ack_sound(state, request, kind);
                let key = (stream@, consumer@);
                assert forall|k: (Seq<char>, Seq<char>)| #[trigger]
                    after.group_consumers.contains_key(k) implies stream_is_active(
                    after.streams,
                    k.0,
                ) && group_sound(after.group_consumers[k], after.streams[k.0].messages) by {
                    if k != key {
                        assert(state.group_consumers.contains_key(k));
                    }
                }
            }
        },
        _ => {},
    }
}

/// Before any command, deliveries are in order.
pub proof fn law_deliveries_start_in_order()
    ensures
        state_sound(empty_state()),
{
}

/// A message that was accepted is read back at its offset, as it was given.
pub proof fn law_published_message_is_replayed(
    state: SnapshotView,
    stream: Seq<char>,
    message: StoredMessageView,
    request_id: Option<Seq<char>>,
    kind: GroupKind,
)
    requires
        known_offset(state, stream, request_id) is None,
        publish_step(state, stream, message, request_id, kind).1 is Published,
        state.streams.contains_key(stream) ==> state.streams[stream].messages.len() < u64::MAX,
    ensures
        ({
            let (after, answer) = publish_step(state, stream, message, request_id, kind);
            replay_answer(after, stream, answer->Published_offset, kind) == (ResponseView::Replay {
                result: ReplayMessageView {
                    stream,
                    offset: answer->Published_offset,
                    key: message.key,
                    payload: message.payload,
                    published_at_ms: message.published_at_ms,
                },
            })
        }),
{
}

/// A request identity is remembered, whatever the command: the offset that was
/// given under it stays.
pub proof fn law_request_identities_are_remembered(
    state: SnapshotView,
    command: Command,
    kind: GroupKind,
    log_id: LogId,
    stream: Seq<char>,
    request_id: Seq<char>,
)
    requires
        known_offset(state, stream, Some(request_id)) is Some,
    ensures
        known_offset(command_step(state, command, kind, log_id).0, stream, Some(request_id))
            == known_offset(state, stream, Some(request_id)),
{
}

/// A replay changes nothing.
pub proof fn law_replay_changes_nothing(
    state: SnapshotView,
    stream: String,
    consumer: String,
    offset: u64,
    kind: GroupKind,
    log_id: LogId,
)
    ensures
        command_step(state, Command::Replay { stream, consumer, offset }, kind, log_id).0 == state,
{
}

/// What a group has done stays done, whatever the command. (The highest offset
/// there is has none after it, and is left out.)
pub proof fn law_done_stays_done(
    state: SnapshotView,
    command: Command,
    kind: GroupKind,
    log_id: LogId,
    key: (Seq<char>, Seq<char>),
    o: u64,
)
    requires
        state.group_consumers.contains_key(key),
        is_done(state.group_consumers[key], o),
        o < u64::MAX,
    ensures
        ({
            let after = command_step(state, command, kind, log_id).0;
            after.group_consumers.contains_key(key) && is_done(after.group_consumers[key], o)
        }),
{
    match command {
        Command::PollGroup {
            stream,
            consumer,
            member,
            now_ms,
            lease_deadline_ms,
            max_delivery_attempts,
        } => {
            let group = polled_group(state, key, later(state.lease_clock_ms, now_ms));
            let messages = state.streams[stream@].messages;
            let dead = given_up(group, messages, limit_in(stream@, max_delivery_attempts));
            law_acknowledging_all_makes_done(group, dead, o);
        },
        Command::AckGroup { stream, consumer, member, offset, delivery_token, now_ms } => {
            let group = acked_group(state, key, later(state.lease_clock_ms, now_ms));
            law_acknowledging_makes_done(group, offset, o);
        },
        _ => {},
    }
}

/// A message that a group has done is not delivered to it again.
pub proof fn law_done_messages_are_not_delivered(
    state: SnapshotView,
    request: GroupPollRequest,
    log_id: LogId,
    kind: GroupKind,
    o: u64,
)
    requires
        state_sound(state),
        state_fits(state),
        state.group_consumers.contains_key((request.stream@, request.consumer@)),
        is_done(state.group_consumers[(request.stream@, request.consumer@)], o),
    ensures
        group_poll_step(state, request, log_id, kind).1 matches ResponseView::GroupPoll {
            result: PollResultView::Message(message),
        } ==> message.offset != o,
{
    let key = (request.stream@, request.consumer@);
    if !(kind is Metadata) && stream_is_active(state.streams, request.stream@) {
        let now_ms = later(state.lease_clock_ms, request.now_ms);
        let group = polled_group(state, key, now_ms);
        let messages = state.streams[request.stream@].messages;
        let limit = limit_in(request.stream@, request.max_delivery_attempts);
        match held_by(group.in_flight, request.member@) {
            Some(held) => {
                let p = |x: u64|
                    group.in_flight.contains_key(x) && group.in_flight[x].member
                        == request.member@;
                let n = choose|n: u64| is_least(n, p);
                assert(is_least(n, p));
                assert(state.group_consumers[key].in_flight.contains_key(held));
            },
            None => {
                lemma_next_delivery(group, messages, limit);
            },
        }
    }
}

/// A message that waits is delivered: when a member that holds nothing polls,
/// and nobody holds the message or another of its key, the member is handed that
/// message or one before it, unless the message is given up on.
pub proof fn law_waiting_messages_are_delivered(
    state: SnapshotView,
    request: GroupPollRequest,
    log_id: LogId,
    kind: GroupKind,
    o: u64,
)
    requires
        state_fits(state),
        !(kind is Metadata),
        stream_is_active(state.streams, request.stream@),
        ({
            let messages = state.streams[request.stream@].messages;
            let group = polled_group(
                state,
                (request.stream@, request.consumer@),
                later(state.lease_clock_ms, request.now_ms),
            );
            &&& o < messages.len()
            &&& !is_done(group, o)
            &&& !group.in_flight.contains_key(o)
            &&& !key_is_held(group.in_flight, messages[o as int].key)
            &&& held_by(group.in_flight, request.member@) is None
        }),
    ensures
        ({
            let key = (request.stream@, request.consumer@);
            let (after, answer) = group_poll_step(state, request, log_id, kind);
            ||| answer matches ResponseView::GroupPoll {
                result: PollResultView::Message(message),
            } && message.offset <= o
            ||| is_spent(
                polled_group(state, key, later(state.lease_clock_ms, request.now_ms)),
                limit_in(request.stream@, request.max_delivery_attempts),
                o,
            ) && is_done(after.group_consumers[key], o)
        }),
{
    let key = (request.stream@, request.consumer@);
    let messages = state.streams[request.stream@].messages;
    let group = polled_group(state, key, later(state.lease_clock_ms, request.now_ms));
    let limit = limit_in(request.stream@, request.max_delivery_attempts);
    assert(is_waiting(group, messages, o));
    lemma_next_delivery(group, messages, limit);
    law_given_up_are_the_spent(group, messages, limit, o);
    law_acknowledging_all_makes_done(group, given_up(group, messages, limit), o);
}

/// Nothing but a good acknowledgement of a message, or a poll that gives up on
/// it, makes a group done with it. (The highest offset there is has none after
/// it, and is left out.)
pub proof fn law_messages_are_kept_until_acknowledged(
    state: SnapshotView,
    command: Command,
    kind: GroupKind,
    log_id: LogId,
    key: (Seq<char>, Seq<char>),
    o: u64,
)
    requires
        state.group_consumers.contains_key(key),
        !is_done(state.group_consumers[key], o),
        o < u64::MAX,
        is_done(command_step(state, command, kind, log_id).0.group_consumers[key], o),
    ensures
        match command {
            Command::AckGroup { stream, consumer, offset, .. } => {
                &&& key == (stream@, consumer@)
                &&& offset == o
                &&& command_step(state, command, kind, log_id).1 is GroupAcknowledged
            },
            Command::PollGroup { stream, consumer, now_ms, max_delivery_attempts, .. } => {
                &&& key == (stream@, consumer@)
                &&& given_up(
                    polled_group(state, key, later(state.lease_clock_ms, now_ms)),
                    state.streams[stream@].messages,
                    limit_in(stream@, max_delivery_attempts),
                ).contains(o)
            },
            _ => false,
        },
{
    match command {
        Command::PollGroup {
            stream,
            consumer,
            member,
            now_ms,
            lease_deadline_ms,
            max_delivery_attempts,
        } => {
            let group = polled_group(state, key, later(state.lease_clock_ms, now_ms));
            let messages = state.streams[stream@].messages;
            let dead = given_up(group, messages, limit_in(stream@, max_delivery_attempts));
            law_acknowledging_all_makes_done(group, dead, o);
        },
        Command::AckGroup { stream, consumer, member, offset, delivery_token, now_ms } => {
            let group = acked_group(state, key, later(state.lease_clock_ms, now_ms));
            law_acknowledging_makes_done(group, offset, o);
        },
        _ => {},
    }
}

/// An acknowledgement of what a group has done is answered as done already,
/// whoever gives it and with whatever token, and changes nothing but the clock and
/// expired deliveries.
pub proof fn law_done_offsets_are_already_acknowledged(
    state: SnapshotView,
    request: GroupAckRequest,
    kind: GroupKind,
)
    requires
        !(kind is Metadata),
        stream_is_active(state.streams, request.stream@),
        state.group_consumers.contains_key((request.stream@, request.consumer@)),
        is_done(
            state.group_consumers[(request.stream@, request.consumer@)],
            request.offset,
        ),
    ensures
        ({
            let key = (request.stream@, request.consumer@);
            let group = state.group_consumers[key];
            let now_ms = later(state.lease_clock_ms, request.now_ms);
            group_ack_step(state, request, kind) == (
                SnapshotView {
                    group_consumers: state.group_consumers.insert(
                        key,
                        GroupConsumerView { in_flight: live(group.in_flight, now_ms), ..group },
                    ),
                    lease_clock_ms: now_ms,
                    ..state
                },
                ResponseView::GroupAlreadyAcknowledged,
            )
        }),
{
}

/// A member that polls while it holds a delivery whose lease runs is handed that
/// message again, under the same token and attempt. The delivery stays as it is,
/// its lease is not prolonged, and nothing changes but the clock and expired
/// deliveries: nothing is counted, given up or published.
pub proof fn law_polling_again_gives_the_same_delivery(
    state: SnapshotView,
    request: GroupPollRequest,
    log_id: LogId,
    kind: GroupKind,
    o: u64,
)
    requires
        state_sound(state),
        !(kind is Metadata),
        ({
            let key = (request.stream@, request.consumer@);
            let held = state.group_consumers[key].in_flight;
            &&& state.group_consumers.contains_key(key)
            &&& held.contains_key(o)
            &&& held[o].member == request.member@
            &&& !expired(held[o].deadline_ms, later(state.lease_clock_ms, request.now_ms))
        }),
    ensures
        ({
            let key = (request.stream@, request.consumer@);
            let group = state.group_consumers[key];
            let message = state.streams[request.stream@].messages[o as int];
            let now_ms = later(state.lease_clock_ms, request.now_ms);
            let (after, answer) = group_poll_step(state, request, log_id, kind);
            &&& answer == (ResponseView::GroupPoll {
                result: PollResultView::Message(
                    MessageView {
                        stream: request.stream@,
                        offset: o,
                        key: message.key,
                        payload: message.payload,
                        published_at_ms: message.published_at_ms,
                        delivery_token: Some(group.in_flight[o].delivery_token),
                        delivery_attempt: Some(group.in_flight[o].delivery_attempt),
                    },
                ),
            })
            &&& after == (SnapshotView {
                group_consumers: state.group_consumers.insert(
                    key,
                    GroupConsumerView { in_flight: live(group.in_flight, now_ms), ..group },
                ),
                lease_clock_ms: now_ms,
                ..state
            })
            &&& after.group_consumers[key].in_flight.contains_key(o)
            &&& after.group_consumers[key].in_flight[o] == group.in_flight[o]
        }),
{
    let key = (request.stream@, request.consumer@);
    let found = state.group_consumers[key];
    let member = request.member@;
    let again = polled_group(state, key, later(state.lease_clock_ms, request.now_ms));
    let q = |x: u64| again.in_flight.contains_key(x) && again.in_flight[x].member == member;
    assert(q(o));
    assert forall|x: u64| #[trigger] q(x) implies o <= x by {
        if x != o {
            assert(found.in_flight.contains_key(x) && found.in_flight.contains_key(o));
        }
    }
    lemma_least_is(o, q);
}

/// A message that a poll hands out is held by the member that polled, under the
/// token and the attempt that it was handed out with.
pub proof fn law_delivered_messages_are_held(
    state: SnapshotView,
    request: GroupPollRequest,
    log_id: LogId,
    kind: GroupKind,
)
    ensures
        ({
            let key = (request.stream@, request.consumer@);
            let (after, answer) = group_poll_step(state, request, log_id, kind);
            let held = after.group_consumers[key].in_flight;
            answer matches ResponseView::GroupPoll {
                result: PollResultView::Message(message),
            } ==> {
                &&& after.group_consumers.contains_key(key)
                &&& held.contains_key(message.offset)
                &&& held[message.offset].member == request.member@
                &&& message.delivery_token == Some(held[message.offset].delivery_token)
                &&& message.delivery_attempt == Some(held[message.offset].delivery_attempt)
            }
        }),
{
    let key = (request.stream@, request.consumer@);
    let member = request.member@;
    let group = polled_group(state, key, later(state.lease_clock_ms, request.now_ms));
    if let Some(o) = held_by(group.in_flight, member) {
        let p = |x: u64| group.in_flight.contains_key(x) && group.in_flight[x].member == member;
        let n = choose|n: u64| is_least(n, p);
        assert(is_least(n, p));
    }
}

/// A delivery is held, as it is, until its lease has run out or its message is
/// done, whatever the command.
pub proof fn law_deliveries_are_held_until_done_or_expired(
    state: SnapshotView,
    command: Command,
    kind: GroupKind,
    log_id: LogId,
    key: (Seq<char>, Seq<char>),
    o: u64,
)
    requires
        state_sound(state),
        state_fits(state),
        state.group_consumers.contains_key(key),
        state.group_consumers[key].in_flight.contains_key(o),
    ensures
        ({
            let delivery = state.group_consumers[key].in_flight[o];
            let after = command_step(state, command, kind, log_id).0;
            let group = after.group_consumers[key];
            &&& after.group_consumers.contains_key(key)
            &&& (group.in_flight.contains_key(o) && group.in_flight[o] == delivery) || expired(
                delivery.deadline_ms,
                after.lease_clock_ms,
            ) || is_done(group, o)
        }),
{
    match command {
        Command::PollGroup {
            stream,
            consumer,
            member,
            now_ms,
            lease_deadline_ms,
            max_delivery_attempts,
        } => {
            if key == (stream@, consumer@) {
                let group = polled_group(state, key, later(state.lease_clock_ms, now_ms));
                let messages = state.streams[stream@].messages;
                let limit = limit_in(stream@, max_delivery_attempts);
                lemma_next_delivery(group, messages, limit);
                law_given_up_are_the_spent(group, messages, limit, o);
                law_acknowledging_keeps_the_rest(group, given_up(group, messages, limit), o);
            }
        },
        Command::AckGroup { stream, consumer, member, offset, delivery_token, now_ms } => {
            if key == (stream@, consumer@) {
                let group = acked_group(state, key, later(state.lease_clock_ms, now_ms));
                law_acknowledging_makes_done(group, offset, o);
            }
        },
        _ => {},
    }
}

/// A message that is handed out anew is handed out no more often than it may
/// be.
pub proof fn law_deliveries_stay_within_the_limit(
    group: GroupConsumerView,
    messages: Seq<StoredMessageView>,
    max: u32,
)
    requires
        messages.len() <= u64::MAX,
    ensures
        next_delivery(group, messages, Some(max)) matches Some(o) ==> next_attempt(
            acknowledged_all(group, given_up(group, messages, Some(max))),
            o,
        ) <= max,
{
    lemma_next_delivery(group, messages, Some(max));
    if let Some(o) = next_delivery(group, messages, Some(max)) {
        law_acknowledging_keeps_the_rest(group, given_up(group, messages, Some(max)), o);
    }
}

/// No message counts as delivered to a group more often than a number of times.
pub open spec fn attempts_within(
    state: SnapshotView,
    key: (Seq<char>, Seq<char>),
    most: u32,
) -> bool {
    state.group_consumers.contains_key(key) ==> forall|o: u64| #[trigger]
        state.group_consumers[key].delivery_attempts.contains_key(o)
            ==> state.group_consumers[key].delivery_attempts[o] <= most
}

/// Whether a command polls for a group.
pub open spec fn polls_for(command: Command, key: (Seq<char>, Seq<char>)) -> bool {
    command matches Command::PollGroup { stream, consumer, .. } && (stream@, consumer@) == key
}

/// Where a command polls for a group, it does so under a limit of at most a number
/// of deliveries.
pub open spec fn polls_within(
    command: Command,
    key: (Seq<char>, Seq<char>),
    most: u32,
) -> bool {
    polls_for(command, key) ==> command->PollGroup_max_delivery_attempts is Some
        && command->PollGroup_max_delivery_attempts->0 <= most
}

/// Where an answer hands out a message, it does so under an attempt from the first
/// up to a number of them.
pub open spec fn hands_out_within(answer: ResponseView, most: u32) -> bool {
    answer matches ResponseView::GroupPoll { result: PollResultView::Message(message) } ==> {
        &&& message.delivery_attempt is Some
        &&& 1 <= message.delivery_attempt->0 <= most
    }
}

/// While a group polls under a limit, it is handed nothing more often than that,
/// and nothing is counted more often. (A dead-letter stream is delivered without
/// limit, and is left out.)
pub proof fn law_limited_polls_hand_out_within_the_limit(
    state: SnapshotView,
    command: Command,
    kind: GroupKind,
    log_id: LogId,
    key: (Seq<char>, Seq<char>),
    most: u32,
)
    requires
        state_sound(state),
        state_fits(state),
        !is_dead_letter_name(key.0),
        attempts_within(state, key, most),
        polls_within(command, key, most),
    ensures
        ({
            let (after, answer) = command_step(state, command, kind, log_id);
            &&& attempts_within(after, key, most)
            &&& polls_for(command, key) ==> hands_out_within(answer, most)
        }),
{
    let after = command_step(state, command, kind, log_id).0;
    match command {
        Command::PollGroup {
            stream,
            consumer,
            member,
            now_ms,
            lease_deadline_ms,
            max_delivery_attempts,
        } => {
            if key == (stream@, consumer@) {
                let request = GroupPollRequest {
                    stream,
                    consumer,
                    member,
                    now_ms,
                    lease_deadline_ms,
                    max_delivery_attempts,
                };
                let max = max_delivery_attempts->0;
                let group = polled_group(state, key, later(state.lease_clock_ms, now_ms));
                let messages = state.streams[stream@].messages;
                let dead = given_up(group, messages, Some(max));
                if !(kind is Metadata) && stream_is_active(state.streams, stream@) {
                    law_deliveries_stay_within_the_limit(group, messages, max);
                    assert forall|o: u64| #[trigger]
                        after.group_consumers[key].delivery_attempts.contains_key(o) implies
                        after.group_consumers[key].delivery_attempts[o] <= most by {
                        law_acknowledging_keeps_the_rest(group, dead, o);
                    }
                }
                law_commands_keep_deliveries_in_order(state, command, kind, log_id);
                law_delivered_messages_are_held(state, request, log_id, kind);
            }
        },
        _ => {},
    }
}

/// Each delivery of a message counts one more than the last.
pub proof fn law_each_delivery_counts_one_more(
    group: GroupConsumerView,
    messages: Seq<StoredMessageView>,
    limit: Option<u32>,
)
    requires
        messages.len() <= u64::MAX,
    ensures
        next_delivery(group, messages, limit) matches Some(o) ==> attempts_of(group, o)
            < u32::MAX ==> next_attempt(
            acknowledged_all(group, given_up(group, messages, limit)),
            o,
        ) == attempts_of(group, o) + 1,
{
    lemma_next_delivery(group, messages, limit);
    if let Some(o) = next_delivery(group, messages, limit) {
        law_given_up_are_the_spent(group, messages, limit, o);
        law_acknowledging_keeps_the_rest(group, given_up(group, messages, limit), o);
    }
}

/// The messages of one key are handed out in the order in which they were
/// published: when one is, all before it of its key are done.
pub proof fn law_messages_of_a_key_keep_their_order(
    group: GroupConsumerView,
    messages: Seq<StoredMessageView>,
    limit: Option<u32>,
    earlier: u64,
)
    requires
        group_sound(group, messages),
        messages.len() <= u64::MAX,
        next_delivery(group, messages, limit) is Some,
        earlier < next_delivery(group, messages, limit)->0,
        messages[earlier as int].key is Some,
        messages[earlier as int].key == messages[next_delivery(group, messages, limit)->0 as int].key,
    ensures
        is_done(acknowledged_all(group, given_up(group, messages, limit)), earlier),
{
    let o = next_delivery(group, messages, limit)->0;
    let dead = given_up(group, messages, limit);
    lemma_next_delivery(group, messages, limit);
    law_given_up_are_the_spent(group, messages, limit, earlier);
    law_acknowledging_all_makes_done(group, dead, earlier);
    if !is_done(group, earlier) {
        if group.in_flight.contains_key(earlier) {
            assert(key_is_held(group.in_flight, messages[o as int].key));
        }
    }
}

/// A decimal number is made of digits, and has at least one.
proof fn lemma_decimal_digits(n: nat)
    ensures
        decimal(n).len() >= 1,
        forall|i: int| 0 <= i < decimal(n).len() ==> '0' <= #[trigger] decimal(n)[i] <= '9',
    decreases n,
{
    if n >= 10 {
        lemma_decimal_digits(n / 10);
    }
}

/// Different numbers have different decimal texts.
proof fn lemma_decimal_injective(a: nat, b: nat)
    requires
        decimal(a) == decimal(b),
    ensures
        a == b,
    decreases a,
{
    lemma_decimal_digits(a / 10);
    lemma_decimal_digits(b / 10);
    if a >= 10 && b >= 10 {
        let x = decimal(a);
        let y = decimal(b);
        assert(x.drop_last() =~= decimal(a / 10));
        assert(y.drop_last() =~= decimal(b / 10));
        lemma_decimal_injective(a / 10, b / 10);
        assert(x.last() == digit_char((a % 10) as int));
        assert(y.last() == digit_char((b % 10) as int));
    } else if a < 10 && b < 10 {
        assert(decimal(a)[0] == digit_char(a as int));
        assert(decimal(b)[0] == digit_char(b as int));
    } else if a >= 10 {
        assert(decimal(a).len() == decimal(a / 10).len() + 1);
        assert(decimal(b).len() == 1);
    } else {
        assert(decimal(b).len() == decimal(b / 10).len() + 1);
        assert(decimal(a).len() == 1);
    }
}

/// Where two texts begin with decimal numbers and go on with the same character
/// that is no digit, the numbers and what follows are the same.
proof fn lemma_decimal_prefix(a: nat, b: nat, stop: char, x: Seq<char>, y: Seq<char>)
    requires
        !('0' <= stop <= '9'),
        decimal(a) + seq![stop] + x == decimal(b) + seq![stop] + y,
    ensures
        a == b,
        x == y,
{
    let s = decimal(a) + seq![stop] + x;
    let t = decimal(b) + seq![stop] + y;
    let n = decimal(a).len() as int;
    let m = decimal(b).len() as int;
    lemma_decimal_digits(a);
    lemma_decimal_digits(b);
    assert(s[n] == stop);
    assert(t[m] == stop);
    if n < m {
        assert(t[n] == decimal(b)[n]);
    }
    if m < n {
        assert(s[m] == decimal(a)[m]);
    }
    assert(s.subrange(0, n) =~= decimal(a));
    assert(t.subrange(0, n) =~= decimal(b));
    lemma_decimal_injective(a, b);
    assert(s.skip(n + 1) =~= x);
    assert(t.skip(n + 1) =~= y);
}

/// What follows the first letters of a token.
proof fn lemma_token_tail(x: Seq<char>, y: Seq<char>, z: Seq<char>)
    ensures
        ("raft-"@ + (seq!['T'] + x + seq!['-', 'N'] + y + seq!['-'] + z)).skip(6) == x + seq!['-']
            + (seq!['N'] + (y + seq!['-'] + z)),
{
    reveal_strlit("raft-");
    assert(("raft-"@ + (seq!['T'] + x + seq!['-', 'N'] + y + seq!['-'] + z)).skip(6) =~= x + seq![
        '-',
    ] + (seq!['N'] + (y + seq!['-'] + z)));
}

/// Deliveries that different log entries make have different tokens.
pub proof fn law_tokens_are_distinct(a: LogId, b: LogId)
    requires
        a != b,
    ensures
        delivery_token(a) != delivery_token(b),
{
    if delivery_token(a) == delivery_token(b) {
        let a2 = decimal(a.node_id as nat) + seq!['-'] + decimal(a.index as nat);
        let b2 = decimal(b.node_id as nat) + seq!['-'] + decimal(b.index as nat);
        lemma_token_tail(
            decimal(a.term as nat),
            decimal(a.node_id as nat),
            decimal(a.index as nat),
        );
        lemma_token_tail(
            decimal(b.term as nat),
            decimal(b.node_id as nat),
            decimal(b.index as nat),
        );
        lemma_decimal_prefix(
            a.term as nat,
            b.term as nat,
            '-',
            seq!['N'] + a2,
            seq!['N'] + b2,
        );
        assert((seq!['N'] + a2).skip(1) =~= a2);
        assert((seq!['N'] + b2).skip(1) =~= b2);
        lemma_decimal_prefix(
            a.node_id as nat,
            b.node_id as nat,
            '-',
            decimal(a.index as nat),
            decimal(b.index as nat),
        );
        lemma_decimal_injective(a.index as nat, b.index as nat);
    }
}

/// The token of one delivery does not acknowledge another: while a message is
/// held under the token of one log entry, an acknowledgement under the token of
/// any other entry is stale and leaves the message undone.
pub proof fn law_stale_tokens_are_fenced(
    state: SnapshotView,
    request: GroupAckRequest,
    kind: GroupKind,
    held_under: LogId,
    given_under: LogId,
)
    requires
        state_sound(state),
        !(kind is Metadata),
        state.group_consumers.contains_key((request.stream@, request.consumer@)),
        ({
            let group = state.group_consumers[(request.stream@, request.consumer@)];
            group.in_flight.contains_key(request.offset)
                && group.in_flight[request.offset].delivery_token == delivery_token(held_under)
        }),
        request.delivery_token@ == delivery_token(given_under),
        held_under != given_under,
    ensures
        ({
            let (after, answer) = group_ack_step(state, request, kind);
            let key = (request.stream@, request.consumer@);
            &&& answer == (ResponseView::GroupStaleDelivery {
                consumer: request.consumer@,
                offset: request.offset,
            })
            &&& !is_done(after.group_consumers[key], request.offset)
        }),
{
    law_tokens_are_distinct(held_under, given_under);
    reveal_strlit("raft-");
    assert(request.delivery_token@.len() > 0);
}

/// The token of a delivery whose lease has run out acknowledges nothing: the
/// answer is that it is stale, and the message stays undone.
pub proof fn law_expired_tokens_are_fenced(
    state: SnapshotView,
    request: GroupAckRequest,
    kind: GroupKind,
)
    requires
        state_sound(state),
        !(kind is Metadata),
        request.delivery_token@.len() > 0,
        state.group_consumers.contains_key((request.stream@, request.consumer@)),
        ({
            let group = state.group_consumers[(request.stream@, request.consumer@)];
            group.in_flight.contains_key(request.offset) && expired(
                group.in_flight[request.offset].deadline_ms,
                later(state.lease_clock_ms, request.now_ms),
            )
        }),
    ensures
        ({
            let (after, answer) = group_ack_step(state, request, kind);
            let key = (request.stream@, request.consumer@);
            &&& answer == (ResponseView::GroupStaleDelivery {
                consumer: request.consumer@,
                offset: request.offset,
            })
            &&& !is_done(after.group_consumers[key], request.offset)
        }),
{
}

/// Only the member that holds a message acknowledges it.
pub proof fn law_only_the_holder_acknowledges(
    state: SnapshotView,
    request: GroupAckRequest,
    kind: GroupKind,
)
    requires
        !(kind is Metadata),
        state.group_consumers.contains_key((request.stream@, request.consumer@)),
        ({
            let group = state.group_consumers[(request.stream@, request.consumer@)];
            group.in_flight.contains_key(request.offset)
                && group.in_flight[request.offset].member != request.member@ && !expired(
                group.in_flight[request.offset].deadline_ms,
                later(state.lease_clock_ms, request.now_ms),
            )
        }),
    ensures
        !(group_ack_step(state, request, kind).1 is GroupAcknowledged),
{
}

/// The consumer group whose progress a command may change.
pub open spec fn group_of(command: Command) -> Option<(Seq<char>, Seq<char>)> {
    match command {
        Command::PollGroup { stream, consumer, .. } => Some((stream@, consumer@)),
        Command::AckGroup { stream, consumer, .. } => Some((stream@, consumer@)),
        _ => None,
    }
}

/// Consumer groups are independent: a command changes the progress of the group
/// that it is for, and of no other.
pub proof fn law_groups_are_independent(
    state: SnapshotView,
    command: Command,
    kind: GroupKind,
    log_id: LogId,
    key: (Seq<char>, Seq<char>),
)
    requires
        group_of(command) != Some(key),
    ensures
        ({
            let after = command_step(state, command, kind, log_id).0;
            &&& after.group_consumers.contains_key(key) <==> state.group_consumers.contains_key(key)
            &&& after.group_consumers.contains_key(key) ==> after.group_consumers[key]
                == state.group_consumers[key]
        }),
{
}

/// A message that is given up on is kept: it is found in the dead-letter stream,
/// behind what was there, with its key, payload and time, and its group has done
/// it.
pub proof fn law_given_up_messages_are_kept(
    state: SnapshotView,
    request: GroupPollRequest,
    log_id: LogId,
    kind: GroupKind,
    i: int,
)
    requires
        state_fits(state),
        !(kind is Metadata),
        stream_is_active(state.streams, request.stream@),
        ({
            let group = polled_group(
                state,
                (request.stream@, request.consumer@),
                later(state.lease_clock_ms, request.now_ms),
            );
            let dead = given_up(
                group,
                state.streams[request.stream@].messages,
                limit_in(request.stream@, request.max_delivery_attempts),
            );
            held_by(group.in_flight, request.member@) is None && 0 <= i < dead.len()
        }),
    ensures
        ({
            let stream = request.stream@;
            let key = (stream, request.consumer@);
            let group = polled_group(state, key, later(state.lease_clock_ms, request.now_ms));
            let messages = state.streams[stream].messages;
            let o = given_up(group, messages, limit_in(stream, request.max_delivery_attempts))[i];
            let name = dead_letter_name(stream);
            let after = group_poll_step(state, request, log_id, kind).0;
            let at = if state.streams.contains_key(name) {
                state.streams[name].messages.len() + i
            } else {
                i
            };
            &&& after.streams.contains_key(name)
            &&& after.streams[name].messages[at] == messages[o as int]
            &&& is_done(after.group_consumers[key], o)
        }),
{
    let stream = request.stream@;
    let key = (stream, request.consumer@);
    let group = polled_group(state, key, later(state.lease_clock_ms, request.now_ms));
    let messages = state.streams[stream].messages;
    let limit = limit_in(stream, request.max_delivery_attempts);
    let dead = given_up(group, messages, limit);
    let o = dead[i];
    assert(dead.contains(o));
    law_given_up_are_the_spent(group, messages, limit, o);
    law_acknowledging_all_makes_done(group, dead, o);
    assert(messages_at(messages, dead)[i] == messages[o as int]);
}

} // verus!
