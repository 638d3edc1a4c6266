//! Deliveries to the members of a consumer group.

use vstd::prelude::*;
use vstd::string::*;
use vstd::utf8::*;

use crate::engine::{Message, MessageView, Offset, PollResult, PollResultView};
use crate::keyed::{keys_in_order, SortedMap, SortedSet};
use crate::log_id::{log_id_text, log_id_view, LogId};
use crate::state_machine::{
    fresh_stream, identity_of, messages_view, stream_identity, CommandResponse, GroupKind,
    ResponseView, SnapshotState, SnapshotView, StoredMessage, StoredMessageView, StreamLifecycle,
    StreamState, StreamView,
};
use crate::text::{
    begins_with, copy_bytes, copy_optional, finishes_with, fixed_hex, fixed_hex_text, has_prefix,
    has_suffix, law_digits_make_the_number, read_hex_number, sixteen_to,
};

verus! {

/// A message that a member holds under a lease.
#[derive(Debug, PartialEq, Eq)]
pub struct GroupDelivery {
    pub member: String,
    pub key: Option<String>,
    pub delivery_attempt: u32,
    pub delivery_token: String,
    pub deadline_ms: u64,
}

/// What a delivery says.
#[verifier::ext_equal]
pub struct DeliveryView {
    pub member: Seq<char>,
    pub key: Option<Seq<char>>,
    pub delivery_attempt: u32,
    pub delivery_token: Seq<char>,
    pub deadline_ms: u64,
}

impl View for GroupDelivery {
    type V = DeliveryView;

    open spec fn view(&self) -> DeliveryView {
        DeliveryView {
            member: self.member@,
            key: self.key.deep_view(),
            delivery_attempt: self.delivery_attempt,
            delivery_token: self.delivery_token@,
            deadline_ms: self.deadline_ms,
        }
    }
}

/// How far a consumer group has come in a stream.
#[derive(Debug)]
pub struct GroupConsumerState {
    pub committed_offset: Offset,
    pub acknowledged_offsets: SortedSet<u64>,
    pub delivery_attempts: SortedMap<u64, u32>,
    pub in_flight: SortedMap<u64, GroupDelivery>,
}

/// What the progress of a consumer group holds.
#[verifier::ext_equal]
pub struct GroupConsumerView {
    pub committed_offset: Offset,
    pub acknowledged_offsets: Set<u64>,
    pub delivery_attempts: Map<u64, u32>,
    pub in_flight: Map<u64, DeliveryView>,
}

impl View for GroupConsumerState {
    type V = GroupConsumerView;

    open spec fn view(&self) -> GroupConsumerView {
        GroupConsumerView {
            committed_offset: self.committed_offset,
            acknowledged_offsets: self.acknowledged_offsets@,
            delivery_attempts: self.delivery_attempts@,
            in_flight: self.in_flight@,
        }
    }
}

/// The suffix of the stream that takes a stream's undeliverable messages.
pub const DEAD_LETTER_SUFFIX: &'static str = ".dead-letter";

/// What such a name begins with where the suffix would make it too long.
pub const DEAD_LETTER_HASH_PREFIX: &'static str = "runnel.dead-letter.";

/// The 64-bit FNV-1a hash of a list of bytes.
pub open spec fn fnv1a(bytes: Seq<u8>) -> u64
    decreases bytes.len(),
{
    if bytes.len() == 0 {
        0xcbf29ce484222325
    } else {
        (fnv1a(bytes.drop_last()) ^ (bytes.last() as u64)).wrapping_mul(0x100000001b3)
    }
}

/// The name of the stream that takes a stream's undeliverable messages: the
/// stream's own with the suffix, or where that is over 128 bytes long the hash
/// of the stream's name behind the prefix.
pub open spec fn dead_letter_name(stream: Seq<char>) -> Seq<char> {
    if encode_utf8(stream + DEAD_LETTER_SUFFIX@).len() <= 128 {
        stream + DEAD_LETTER_SUFFIX@
    } else {
        DEAD_LETTER_HASH_PREFIX@ + fixed_hex(fnv1a(encode_utf8(stream)) as nat, 16)
    }
}

/// A lower-case hexadecimal digit.
pub open spec fn is_hex_char(c: char) -> bool {
    ('0' <= c && c <= '9') || ('a' <= c && c <= 'f')
}

/// Whether a name is one that a hash gives: the prefix and sixteen digits.
pub open spec fn is_hashed_name(stream: Seq<char>) -> bool {
    &&& stream.len() == 35
    &&& begins_with(stream, DEAD_LETTER_HASH_PREFIX@)
    &&& forall|i: int| 19 <= i < 35 ==> is_hex_char(#[trigger] stream[i])
}

/// Whether a stream is one that takes undeliverable messages.
pub open spec fn is_dead_letter_name(stream: Seq<char>) -> bool {
    finishes_with(stream, DEAD_LETTER_SUFFIX@) || is_hashed_name(stream)
}

/// The 64-bit FNV-1a hash of a list of bytes.
fn fnv1a_hash(bytes: &[u8]) -> (r: u64)
    ensures
        r == fnv1a(bytes@),
{
    let mut hash: u64 = 0xcbf29ce484222325;
    let mut i: usize = 0;
    while i < bytes.len()
        invariant
            i <= bytes@.len(),
            hash == fnv1a(bytes@.take(i as int)),
        decreases bytes@.len() - i,
    {
        proof {
            assert(bytes@.take(i + 1).drop_last() == bytes@.take(i as int));
        }
        hash = (hash ^ (bytes[i] as u64)).wrapping_mul(0x100000001b3);
        i += 1;
    }
    proof {
        assert(bytes@.take(i as int) == bytes@);
    }
    hash
}

/// The name of the stream that takes a stream's undeliverable messages.
pub fn dead_letter_stream_name(stream: &str) -> (r: String)
    ensures
        r@ == dead_letter_name(stream@),
{
    let mut name = stream.to_owned();
    name.append(DEAD_LETTER_SUFFIX);
    if name.as_str().as_bytes().len() <= 128 {
        return name;
    }
    let mut hashed = DEAD_LETTER_HASH_PREFIX.to_owned();
    hashed.append(fixed_hex_text(fnv1a_hash(stream.as_bytes()), 16).as_str());
    hashed
}

/// Whether a stream is one that takes undeliverable messages: such a stream
/// has none of its own.
pub fn is_dead_letter_stream(stream: &str) -> (r: bool)
    ensures
        r == is_dead_letter_name(stream@),
{
    if has_suffix(stream, DEAD_LETTER_SUFFIX) {
        return true;
    }
    if stream.unicode_len() != 35 || !has_prefix(stream, DEAD_LETTER_HASH_PREFIX) {
        return false;
    }
    let mut i: usize = 19;
    while i < 35
        invariant
            19 <= i <= 35,
            stream@.len() == 35,
            !finishes_with(stream@, DEAD_LETTER_SUFFIX@),
            forall|j: int| 19 <= j < i ==> is_hex_char(#[trigger] stream@[j]),
        decreases 35 - i,
    {
        let c = stream.get_char(i);
        if !(('0' <= c && c <= '9') || ('a' <= c && c <= 'f')) {
            proof {
                assert(!is_hex_char(stream@[i as int]));
            }
            return false;
        }
        i += 1;
    }
    true
}

/// The digits of a number are hexadecimal digits, as many as were asked for.
pub(crate) proof fn lemma_fixed_hex(n: nat, width: nat)
    ensures
        fixed_hex(n, width).len() == width,
        forall|i: int| 0 <= i < width ==> is_hex_char(#[trigger] fixed_hex(n, width)[i]),
    decreases width,
{
    if width > 0 {
        lemma_fixed_hex(n / 16, (width - 1) as nat);
    }
}

/// The name of a dead-letter stream is recognised as one, so that what cannot
/// be delivered from a dead-letter stream goes to no further one.
pub proof fn law_dead_letters_do_not_recurse(stream: Seq<char>)
    ensures
        is_dead_letter_name(dead_letter_name(stream)),
{
    reveal_strlit(".dead-letter");
    reveal_strlit("runnel.dead-letter.");
    let name = dead_letter_name(stream);
    if encode_utf8(stream + DEAD_LETTER_SUFFIX@).len() <= 128 {
        assert(name.subrange(name.len() - 12, name.len() as int) =~= DEAD_LETTER_SUFFIX@);
    } else {
        let digits = fixed_hex(fnv1a(encode_utf8(stream)) as nat, 16);
        lemma_fixed_hex(fnv1a(encode_utf8(stream)) as nat, 16);
        assert(name.subrange(0, 19) =~= DEAD_LETTER_HASH_PREFIX@);
        assert forall|i: int| 19 <= i < 35 implies is_hex_char(#[trigger] name[i]) by {
            assert(name[i] == digits[i - 19]);
        }
    }
}

/// A stream is never its own dead-letter stream.
pub proof fn law_dead_letter_stream_is_another(stream: Seq<char>)
    ensures
        dead_letter_name(stream) != stream,
{
    reveal_strlit(".dead-letter");
    reveal_strlit("runnel.dead-letter.");
    if dead_letter_name(stream) == stream && encode_utf8(stream + DEAD_LETTER_SUFFIX@).len()
        > 128 {
        let digits = fixed_hex(fnv1a(encode_utf8(stream)) as nat, 16);
        lemma_fixed_hex(fnv1a(encode_utf8(stream)) as nat, 16);
        let long = stream + DEAD_LETTER_SUFFIX@;
        assert forall|i: int| 0 <= i < long.len() implies 0 <= (#[trigger] long[i]) as u32 <= 127 by {
            if 19 <= i < 35 {
                assert(long[i] == digits[i - 19]);
            }
        }
        assert(is_ascii_chars(long));
        is_ascii_chars_encode_utf8(long);
    }
}

/// A poll of a consumer group by one of its members.
#[derive(Debug)]
pub struct GroupPollRequest {
    pub stream: String,
    pub consumer: String,
    pub member: String,
    pub now_ms: u64,
    pub lease_deadline_ms: u64,
    pub max_delivery_attempts: Option<u32>,
}

/// An acknowledgement by a member of a consumer group.
#[derive(Debug)]
pub struct GroupAckRequest {
    pub stream: String,
    pub consumer: String,
    pub member: String,
    pub offset: Offset,
    pub delivery_token: String,
    pub now_ms: u64,
}

/// A number is the least that has a property.
pub open spec fn is_least(n: u64, p: spec_fn(u64) -> bool) -> bool {
    p(n) && forall|m: u64| #[trigger] p(m) ==> n <= m
}

/// The least number that has a property, if any has it.
pub open spec fn least(p: spec_fn(u64) -> bool) -> Option<u64> {
    if exists|n: u64| is_least(n, p) {
        Some(choose|n: u64| is_least(n, p))
    } else {
        None
    }
}

/// There is but one least number.
pub proof fn lemma_least_is(n: u64, p: spec_fn(u64) -> bool)
    requires
        is_least(n, p),
    ensures
        least(p) == Some(n),
{
    let m = choose|m: u64| is_least(m, p);
    assert(is_least(m, p));
    assert(p(m) && p(n));
}

/// Where any number has a property, there is a least that has it.
pub proof fn lemma_least_exists(n: u64, p: spec_fn(u64) -> bool)
    requires
        p(n),
    ensures
        exists|m: u64| is_least(m, p),
        least(p) is Some,
        is_least(least(p)->0, p),
    decreases n,
{
    if exists|m: u64| #[trigger] p(m) && m < n {
        let m = choose|m: u64| #[trigger] p(m) && m < n;
        lemma_least_exists(m, p);
    } else {
        assert(is_least(n, p));
    }
}

/// Whether a lease has run out.
pub open spec fn expired(deadline_ms: u64, now_ms: u64) -> bool {
    deadline_ms <= now_ms
}

/// Whether a lease has run out: it has at its deadline, no earlier.
pub fn lease_expired(deadline_ms: u64, now_ms: u64) -> (r: bool)
    ensures
        r == expired(deadline_ms, now_ms),
{
    deadline_ms <= now_ms
}

/// The time by which leases expire: the highest that any command has brought.
pub open spec fn later(a: u64, b: u64) -> u64 {
    if a >= b {
        a
    } else {
        b
    }
}

/// The number after another, or the highest there is.
pub open spec fn next_up(n: u64) -> u64 {
    if n < u64::MAX {
        (n + 1) as u64
    } else {
        n
    }
}

/// A counter with some more counted, up to the highest number there is.
pub open spec fn counted(n: u64, more: nat) -> u64 {
    if n + more <= u64::MAX {
        (n + more) as u64
    } else {
        u64::MAX
    }
}

/// The deliveries whose leases still run.
pub open spec fn live(
    in_flight: Map<u64, DeliveryView>,
    now_ms: u64,
) -> Map<u64, DeliveryView> {
    Map::new(
        |o: u64| in_flight.contains_key(o) && !expired(in_flight[o].deadline_ms, now_ms),
        |o: u64| in_flight[o],
    )
}

/// The first offset that a member holds.
pub open spec fn held_by(in_flight: Map<u64, DeliveryView>, member: Seq<char>) -> Option<u64> {
    least(|o: u64| in_flight.contains_key(o) && in_flight[o].member == member)
}

/// A group that has just come to a stream, from where a plain consumer of its
/// name left off.
pub open spec fn newcomer(committed_offset: Offset) -> GroupConsumerView {
    GroupConsumerView {
        committed_offset,
        acknowledged_offsets: Set::empty(),
        delivery_attempts: Map::empty(),
        in_flight: Map::empty(),
    }
}

/// Whether a message's key is held back by a delivery of the same key.
pub open spec fn key_is_held(in_flight: Map<u64, DeliveryView>, key: Option<Seq<char>>) -> bool {
    key is Some && exists|o: u64| #[trigger] in_flight.contains_key(o) && in_flight[o].key == key
}

/// Whether the message at an offset waits for a member: it is there, it is not
/// acknowledged, nobody holds it, and nobody holds another of its key.
pub open spec fn is_waiting(
    group: GroupConsumerView,
    messages: Seq<StoredMessageView>,
    o: u64,
) -> bool {
    &&& group.committed_offset <= o < messages.len()
    &&& !group.acknowledged_offsets.contains(o)
    &&& !group.in_flight.contains_key(o)
    &&& !key_is_held(group.in_flight, messages[o as int].key)
}

/// How often a message has been delivered.
pub open spec fn attempts_of(group: GroupConsumerView, o: u64) -> u32 {
    if group.delivery_attempts.contains_key(o) {
        group.delivery_attempts[o]
    } else {
        0
    }
}

/// Whether a message has been delivered as often as it may be.
pub open spec fn is_spent(group: GroupConsumerView, limit: Option<u32>, o: u64) -> bool {
    limit matches Some(max) && attempts_of(group, o) >= max
}

/// The limit that holds in a stream: what a dead-letter stream holds has nowhere
/// to go, so it is delivered without limit.
pub open spec fn limit_in(stream: Seq<char>, max: Option<u32>) -> Option<u32> {
    if is_dead_letter_name(stream) {
        None
    } else {
        max
    }
}

/// The first message that waits and may still be delivered.
pub open spec fn next_delivery(
    group: GroupConsumerView,
    messages: Seq<StoredMessageView>,
    limit: Option<u32>,
) -> Option<u64> {
    least(|o: u64| is_waiting(group, messages, o) && !is_spent(group, limit, o))
}

/// The messages below an offset that wait and may not be delivered again, in
/// order.
pub open spec fn spent_below(
    group: GroupConsumerView,
    messages: Seq<StoredMessageView>,
    limit: Option<u32>,
    below: nat,
) -> Seq<u64>
    decreases below,
{
    if below == 0 {
        Seq::empty()
    } else {
        let o = (below - 1) as u64;
        let rest = spent_below(group, messages, limit, (below - 1) as nat);
        if is_waiting(group, messages, o) && is_spent(group, limit, o) {
            rest.push(o)
        } else {
            rest
        }
    }
}

/// The messages that a poll gives up on: the spent ones before the one that it
/// delivers, or all of them where it delivers none.
pub open spec fn given_up(
    group: GroupConsumerView,
    messages: Seq<StoredMessageView>,
    limit: Option<u32>,
) -> Seq<u64> {
    match next_delivery(group, messages, limit) {
        Some(o) => spent_below(group, messages, limit, o as nat),
        None => spent_below(group, messages, limit, messages.len()),
    }
}

/// The first offset from a given one on that is not acknowledged, or the
/// highest offset there is.
pub open spec fn run_end(from: u64, acknowledged: Set<u64>) -> u64 {
    match least(|n: u64| n >= from && !acknowledged.contains(n)) {
        Some(n) => n,
        None => u64::MAX,
    }
}

/// A group after an acknowledgement. The committed offset moves past all that
/// is acknowledged in one run; what is acknowledged further on is kept apart.
pub open spec fn acknowledged(group: GroupConsumerView, o: u64) -> GroupConsumerView {
    let attempts = group.delivery_attempts.remove(o);
    let in_flight = group.in_flight.remove(o);
    if o == group.committed_offset {
        let from = next_up(o);
        let end = run_end(from, group.acknowledged_offsets);
        GroupConsumerView {
            committed_offset: end,
            acknowledged_offsets: group.acknowledged_offsets.filter(
                |n: u64| !(from <= n && n <= end),
            ),
            delivery_attempts: attempts,
            in_flight,
        }
    } else {
        GroupConsumerView {
            committed_offset: group.committed_offset,
            acknowledged_offsets: group.acknowledged_offsets.insert(o),
            delivery_attempts: attempts,
            in_flight,
        }
    }
}

/// A group after several acknowledgements, in order.
pub open spec fn acknowledged_all(group: GroupConsumerView, offsets: Seq<u64>) -> GroupConsumerView
    decreases offsets.len(),
{
    if offsets.len() == 0 {
        group
    } else {
        acknowledged(acknowledged_all(group, offsets.drop_last()), offsets.last())
    }
}

impl GroupConsumerState {
    /// A group that has just come to a stream.
    pub fn starting_at(committed_offset: Offset) -> (r: Self)
        ensures
            r@ == newcomer(committed_offset),
    {
        GroupConsumerState {
            committed_offset,
            acknowledged_offsets: SortedSet::new(),
            delivery_attempts: SortedMap::new(),
            in_flight: SortedMap::new(),
        }
    }

    /// Takes back the deliveries whose leases have run out.
    fn drop_expired(&mut self, now_ms: u64)
        ensures
            final(self)@ == (GroupConsumerView {
                in_flight: live(old(self)@.in_flight, now_ms),
                ..old(self)@
            }),
    {
        let mut gone: Vec<u64> = Vec::new();
        let n: usize = self.in_flight.len();
        let mut i: usize = 0;
        let ghost before = self.in_flight@;
        let ghost keys = self.in_flight.keys();
        while i < n
            invariant
                i <= n,
                n == keys.len(),
                keys == self.in_flight.keys(),
                before == self.in_flight@,
                keys_in_order::<u64, GroupDelivery>(keys, before),
                forall|j: int|
                    0 <= j < i ==> (gone@.contains(#[trigger] keys[j]) <==> expired(
                        before[keys[j]].deadline_ms,
                        now_ms,
                    )),
                forall|j: int|
                    0 <= j < gone@.len() ==> before.contains_key(#[trigger] gone@[j]) && expired(
                        before[gone@[j]].deadline_ms,
                        now_ms,
                    ),
            decreases n - i,
        {
            let offset: u64 = *self.in_flight.key_at(i);
            let ghost old_gone = gone@;
            if lease_expired(self.in_flight.value_at(i).deadline_ms, now_ms) {
                gone.push(offset);
                proof {
                    assert(gone@[old_gone.len() as int] == offset);
                    assert forall|j: int| 0 <= j < i implies (gone@.contains(#[trigger] keys[j])
                        <==> expired(before[keys[j]].deadline_ms, now_ms)) by {
                        assert(keys[j] != offset);
                        if old_gone.contains(keys[j]) {
                            let k = choose|k: int| 0 <= k < old_gone.len() && old_gone[k] == keys[j];
                            assert(gone@[k] == keys[j]);
                        }
                    }
                }
            }
            i += 1;
        }
        let mut k: usize = 0;
        while k < gone.len()
            invariant
                k <= gone@.len(),
                self.committed_offset == old(self).committed_offset,
                self.acknowledged_offsets == old(self).acknowledged_offsets,
                self.delivery_attempts == old(self).delivery_attempts,
                forall|o: u64| #[trigger]
                    self.in_flight@.contains_key(o) <==> before.contains_key(o)
                        && !gone@.take(k as int).contains(o),
                forall|o: u64| #[trigger]
                    self.in_flight@.contains_key(o) ==> self.in_flight@[o] == before[o],
            decreases gone@.len() - k,
        {
            let offset: u64 = gone[k];
            let ghost was = self.in_flight@;
            self.in_flight.remove(&offset);
            proof {
                let next = gone@.take(k + 1);
                assert(next =~= gone@.take(k as int).push(offset));
                assert forall|o: u64|
                    next.contains(o) <==> gone@.take(k as int).contains(o) || o == offset by {
                    if gone@.take(k as int).contains(o) {
                        let j = choose|j: int|
                            0 <= j < k && gone@.take(k as int)[j] == o;
                        assert(next[j] == o);
                    }
                    if o == offset {
                        assert(next[k as int] == o);
                    }
                }
            }
            k += 1;
        }
        proof {
            assert(gone@.take(k as int) =~= gone@);
            let after = live(before, now_ms);
            assert forall|o: u64| #[trigger] self.in_flight@.contains_key(o) <==>
                after.contains_key(o) by {
                if before.contains_key(o) {
                    let j = choose|j: int| 0 <= j < keys.len() && #[trigger] keys[j] == o;
                    assert(gone@.contains(keys[j]) <==> expired(before[o].deadline_ms, now_ms));
                }
            }
            assert(self.in_flight@ =~= after);
        }
    }

    /// The first offset that a member holds.
    fn offset_held_by(&self, member: &String) -> (r: Option<u64>)
        ensures
            r == held_by(self@.in_flight, member@),
    {
        let ghost p = |o: u64|
            self@.in_flight.contains_key(o) && self@.in_flight[o].member == member@;
        let n: usize = self.in_flight.len();
        let mut i: usize = 0;
        let ghost keys = self.in_flight.keys();
        while i < n
            invariant
                i <= n,
                n == keys.len(),
                keys == self.in_flight.keys(),
                keys_in_order::<u64, GroupDelivery>(keys, self@.in_flight),
                p == (|o: u64|
                    self@.in_flight.contains_key(o) && self@.in_flight[o].member == member@),
                forall|j: int| 0 <= j < i ==> !p(#[trigger] keys[j]),
            decreases n - i,
        {
            let offset: u64 = *self.in_flight.key_at(i);
            if self.in_flight.value_at(i).member == *member {
                proof {
                    assert(p(offset));
                    assert forall|m: u64| #[trigger] p(m) implies offset <= m by {
                        let j = choose|j: int| 0 <= j < keys.len() && #[trigger] keys[j] == m;
                        if j < i {
                            assert(!p(keys[j]));
                        }
                    }
                    lemma_least_is(offset, p);
                }
                return Some(offset);
            }
            i += 1;
        }
        proof {
            assert forall|m: u64| !is_least(m, p) by {
                if p(m) {
                    let j = choose|j: int| 0 <= j < keys.len() && #[trigger] keys[j] == m;
                    assert(!p(keys[j]));
                }
            }
        }
        None
    }

    /// Whether a message's key is held back by a delivery of the same key.
    fn holds_key(&self, key: &Option<String>) -> (r: bool)
        ensures
            r == key_is_held(self@.in_flight, key.deep_view()),
    {
        let wanted = match key {
            Some(wanted) => wanted,
            None => {
                return false;
            },
        };
        let n: usize = self.in_flight.len();
        let mut i: usize = 0;
        let ghost keys = self.in_flight.keys();
        while i < n
            invariant
                i <= n,
                n == keys.len(),
                keys == self.in_flight.keys(),
                keys_in_order::<u64, GroupDelivery>(keys, self@.in_flight),
                key.deep_view() == Some(wanted@),
                forall|j: int|
                    0 <= j < i ==> self@.in_flight[#[trigger] keys[j]].key != Some(wanted@),
            decreases n - i,
        {
            let delivery = self.in_flight.value_at(i);
            if let Some(held) = &delivery.key {
                if *held == *wanted {
                    proof {
                        assert(self@.in_flight.contains_key(keys[i as int]));
                        assert(self@.in_flight[keys[i as int]].key == Some(wanted@));
                    }
                    return true;
                }
            }
            i += 1;
        }
        proof {
            assert forall|o: u64| #[trigger] self@.in_flight.contains_key(o) implies
                self@.in_flight[o].key != Some(wanted@) by {
                let j = choose|j: int| 0 <= j < keys.len() && #[trigger] keys[j] == o;
            }
        }
        false
    }

    /// Acknowledges an offset.
    pub fn acknowledge_group_offset(&mut self, offset: Offset)
        ensures
            final(self)@ == acknowledged(old(self)@, offset),
    {
        self.in_flight.remove(&offset);
        self.delivery_attempts.remove(&offset);
        if offset != self.committed_offset {
            self.acknowledged_offsets.insert(offset);
            return;
        }
        let ghost from = next_up(offset);
        let ghost acked = self.acknowledged_offsets@;
        let ghost p = |n: u64| n >= from && !acked.contains(n);
        self.committed_offset = self.committed_offset.saturating_add(1);
        let mut rest: usize = self.acknowledged_offsets.len();
        let ghost mut wrapped: bool = false;
        loop
            invariant
                from <= self.committed_offset,
                p == (|n: u64| n >= from && !acked.contains(n)),
                rest == self.acknowledged_offsets@.len(),
                self.acknowledged_offsets@.finite(),
                self.delivery_attempts@ == old(self)@.delivery_attempts.remove(offset),
                self.in_flight@ == old(self)@.in_flight.remove(offset),
                wrapped ==> self.committed_offset == u64::MAX,
                forall|n: u64|
                    from <= n < self.committed_offset ==> #[trigger] acked.contains(n),
                wrapped ==> acked.contains(u64::MAX),
                self.acknowledged_offsets@ == acked.filter(
                    |n: u64|
                        !(from <= n && (n < self.committed_offset || (wrapped && n
                            == self.committed_offset))),
                ),
            ensures
                self.delivery_attempts@ == old(self)@.delivery_attempts.remove(offset),
                self.in_flight@ == old(self)@.in_flight.remove(offset),
                self.committed_offset == run_end(from, acked),
                self.acknowledged_offsets@ == acked.filter(
                    |n: u64| !(from <= n && n <= self.committed_offset),
                ),
            decreases rest,
        {
            let at: u64 = self.committed_offset;
            let ghost was = self.acknowledged_offsets@;
            if !self.acknowledged_offsets.remove(&at) {
                proof {
                    assert(self.acknowledged_offsets@ =~= was);
                    if wrapped {
                        assert forall|m: u64| !is_least(m, p) by {
                            if p(m) {
                                assert(acked.contains(m));
                            }
                        }
                    } else {
                        assert(!acked.contains(at));
                        assert(p(at));
                        assert forall|m: u64| #[trigger] p(m) implies at <= m by {
                            if m < at {
                                assert(acked.contains(m));
                            }
                        }
                        lemma_least_is(at, p);
                    }
                    assert(self.acknowledged_offsets@ =~= acked.filter(
                        |n: u64| !(from <= n && n <= at),
                    ));
                }
                break;
            }
            proof {
                if at == u64::MAX {
                    wrapped = true;
                }
            }
            self.committed_offset = self.committed_offset.saturating_add(1);
            rest = self.acknowledged_offsets.len();
            proof {
                let w = wrapped;
                let c = self.committed_offset;
                assert(self.acknowledged_offsets@ =~= acked.filter(
                    |n: u64| !(from <= n && (n < c || (w && n == c))),
                ));
            }
        }
    }
}

/// The token of a delivery that a log entry made.
pub open spec fn delivery_token(log_id: LogId) -> Seq<char> {
    "raft-"@ + log_id_view(log_id)
}

/// The answer to a poll that hands out the message at an offset.
pub open spec fn poll_reply(
    stream: Seq<char>,
    o: u64,
    messages: Seq<StoredMessageView>,
    token: Seq<char>,
    attempt: u32,
) -> ResponseView {
    if o < messages.len() {
        ResponseView::GroupPoll {
            result: PollResultView::Message(
                MessageView {
                    stream,
                    offset: o,
                    key: messages[o as int].key,
                    payload: messages[o as int].payload,
                    published_at_ms: messages[o as int].published_at_ms,
                    delivery_token: Some(token),
                    delivery_attempt: Some(attempt),
                },
            ),
        }
    } else {
        ResponseView::StreamNotFound
    }
}

/// The messages at some offsets.
pub open spec fn messages_at(
    messages: Seq<StoredMessageView>,
    offsets: Seq<u64>,
) -> Seq<StoredMessageView> {
    offsets.map_values(|o: u64| messages[o as int])
}

/// The streams after some messages of one have gone to its dead-letter stream,
/// which comes into being with the first of them.
pub open spec fn streams_with_dead_letters(
    streams: Map<Seq<char>, StreamView>,
    stream: Seq<char>,
    offsets: Seq<u64>,
) -> Map<Seq<char>, StreamView> {
    let name = dead_letter_name(stream);
    let target = if streams.contains_key(name) {
        streams[name]
    } else {
        fresh_stream(identity_of(name))
    };
    if offsets.len() == 0 {
        streams
    } else {
        streams.insert(
            name,
            StreamView {
                messages: target.messages + messages_at(streams[stream].messages, offsets),
                ..target
            },
        )
    }
}

/// Whether a stream is there and takes messages and deliveries.
pub open spec fn stream_is_active(streams: Map<Seq<char>, StreamView>, stream: Seq<char>) -> bool {
    streams.contains_key(stream) && streams[stream].lifecycle == StreamLifecycle::Active
}

/// The group that a poll finds, before anything is delivered: the one that is
/// there or a newcomer, without the deliveries whose leases have run out.
pub open spec fn polled_group(
    state: SnapshotView,
    key: (Seq<char>, Seq<char>),
    now_ms: u64,
) -> GroupConsumerView {
    let group = if state.group_consumers.contains_key(key) {
        state.group_consumers[key]
    } else if state.consumers.contains_key(key) {
        newcomer(state.consumers[key])
    } else {
        newcomer(0)
    };
    GroupConsumerView { in_flight: live(group.in_flight, now_ms), ..group }
}

/// A group after a delivery.
pub open spec fn with_delivery(
    group: GroupConsumerView,
    o: u64,
    delivery: DeliveryView,
) -> GroupConsumerView {
    GroupConsumerView {
        delivery_attempts: group.delivery_attempts.insert(o, delivery.delivery_attempt),
        in_flight: group.in_flight.insert(o, delivery),
        ..group
    }
}

/// The number of the delivery that would come next of a message.
pub open spec fn next_attempt(group: GroupConsumerView, o: u64) -> u32 {
    if group.delivery_attempts.contains_key(o) {
        if group.delivery_attempts[o] < u32::MAX {
            (group.delivery_attempts[o] + 1) as u32
        } else {
            u32::MAX
        }
    } else {
        1
    }
}

/// What a poll does to the state, and what it answers.
///
/// A member that still holds a delivery is handed the same one again. Otherwise
/// the first waiting message that may be delivered is, under a new token and
/// lease, and the spent messages before it go to the dead-letter stream.
pub open spec fn group_poll_step(
    state: SnapshotView,
    request: GroupPollRequest,
    log_id: LogId,
    kind: GroupKind,
) -> (SnapshotView, ResponseView) {
    let stream = request.stream@;
    let key = (stream, request.consumer@);
    if kind is Metadata || !stream_is_active(state.streams, stream) {
        (state, ResponseView::StreamNotFound)
    } else {
        let now_ms = later(state.lease_clock_ms, request.now_ms);
        let group = polled_group(state, key, now_ms);
        let messages = state.streams[stream].messages;
        let limit = limit_in(stream, request.max_delivery_attempts);
        match held_by(group.in_flight, request.member@) {
            Some(o) => (
                SnapshotView {
                    group_consumers: state.group_consumers.insert(key, group),
                    lease_clock_ms: now_ms,
                    ..state
                },
                poll_reply(
                    stream,
                    o,
                    messages,
                    group.in_flight[o].delivery_token,
                    group.in_flight[o].delivery_attempt,
                ),
            ),
            None => {
                let dead = given_up(group, messages, limit);
                let rest = acknowledged_all(group, dead);
                let moved = SnapshotView {
                    streams: streams_with_dead_letters(state.streams, stream, dead),
                    group_consumers: state.group_consumers.insert(key, rest),
                    lease_clock_ms: now_ms,
                    dead_letters: counted(state.dead_letters, dead.len()),
                    ..state
                };
                match next_delivery(group, messages, limit) {
                    None => (moved, ResponseView::GroupPoll { result: PollResultView::Empty }),
                    Some(o) => {
                        let attempt = next_attempt(rest, o);
                        let delivery = DeliveryView {
                            member: request.member@,
                            key: messages[o as int].key,
                            delivery_attempt: attempt,
                            delivery_token: delivery_token(log_id),
                            deadline_ms: request.lease_deadline_ms,
                        };
                        (
                            SnapshotView {
                                group_consumers: state.group_consumers.insert(
                                    key,
                                    with_delivery(rest, o, delivery),
                                ),
                                redeliveries: counted(
                                    state.redeliveries,
                                    if attempt > 1 {
                                        1
                                    } else {
                                        0
                                    },
                                ),
                                ..moved
                            },
                            poll_reply(stream, o, messages, delivery_token(log_id), attempt),
                        )
                    },
                }
            },
        }
    }
}

/// Raises the clock by which leases expire, and gives it back.
fn observe_lease_clock(state: &mut SnapshotState, observed_ms: u64) -> (r: u64)
    ensures
        r == later(old(state)@.lease_clock_ms, observed_ms),
        final(state)@ == (SnapshotView { lease_clock_ms: r, ..old(state)@ }),
{
    if state.lease_clock_ms < observed_ms {
        state.lease_clock_ms = observed_ms;
    }
    state.lease_clock_ms
}

/// Picks the message that a poll delivers, and those that it gives up on.
fn choose_next(
    group: &GroupConsumerState,
    messages: &Vec<StoredMessage>,
    limit: Option<u32>,
) -> (r: (Vec<u64>, Option<u64>))
    ensures
        r.0@ == given_up(group@, messages_view(messages@), limit),
        r.1 == next_delivery(group@, messages_view(messages@), limit),
        r.1 matches Some(o) ==> o < messages@.len(),
        messages@.len() <= usize::MAX,
{
    let ghost view = messages_view(messages@);
    let ghost p = |o: u64| is_waiting(group@, view, o) && !is_spent(group@, limit, o);
    let mut dead: Vec<u64> = Vec::new();
    let mut i: usize = 0;
    while i < messages.len()
        invariant
            i <= messages@.len(),
            view == messages_view(messages@),
            p == (|o: u64| is_waiting(group@, view, o) && !is_spent(group@, limit, o)),
            dead@ == spent_below(group@, view, limit, i as nat),
            forall|o: u64| o < i ==> !#[trigger] p(o),
        decreases messages@.len() - i,
    {
        let o: u64 = i as u64;
        let waiting = o >= group.committed_offset && !group.acknowledged_offsets.contains(&o)
            && !group.in_flight.contains(&o) && !group.holds_key(&messages[i].key);
        proof {
            assert(view[i as int] == messages@[i as int]@);
            assert(waiting == is_waiting(group@, view, o));
            assert((i + 1 - 1) as u64 == o);
        }
        if waiting {
            let attempts: u32 = match group.delivery_attempts.get(&o) {
                Some(attempts) => *attempts,
                None => 0,
            };
            let spent = match limit {
                Some(max) => attempts >= max,
                None => false,
            };
            proof {
                assert(spent == is_spent(group@, limit, o));
            }
            if !spent {
                proof {
                    assert(p(o));
                    lemma_least_is(o, p);
                }
                return (dead, Some(o));
            }
            dead.push(o);
        }
        proof {
            assert(!p(o));
        }
        i += 1;
    }
    proof {
        assert forall|m: u64| !is_least(m, p) by {
            if p(m) {
                assert(m < i);
            }
        }
    }
    (dead, None)
}

/// Every message that a poll gives up on is there.
proof fn lemma_spent_are_there(
    group: GroupConsumerView,
    messages: Seq<StoredMessageView>,
    limit: Option<u32>,
    below: nat,
)
    requires
        below <= messages.len() <= u64::MAX,
    ensures
        ({
            let spent = spent_below(group, messages, limit, below);
            forall|i: int|
                0 <= i < spent.len() ==> (#[trigger] spent[i]) < below && is_waiting(
                    group,
                    messages,
                    spent[i],
                ) && is_spent(group, limit, spent[i])
        }),
    decreases below,
{
    if below > 0 {
        lemma_spent_are_there(group, messages, limit, (below - 1) as nat);
        let rest = spent_below(group, messages, limit, (below - 1) as nat);
        let spent = spent_below(group, messages, limit, below);
        assert forall|i: int| 0 <= i < spent.len() implies (#[trigger] spent[i]) < below
            && is_waiting(group, messages, spent[i]) && is_spent(group, limit, spent[i]) by {
            if i < rest.len() {
                assert(spent[i] == rest[i]);
            }
        }
    }
}

/// Moves messages that cannot be delivered to the dead-letter stream, and
/// acknowledges them.
fn move_to_dead_letters(
    state: &mut SnapshotState,
    stream: &String,
    group: &mut GroupConsumerState,
    offsets: &Vec<u64>,
)
    requires
        old(state)@.streams.contains_key(stream@),
        forall|i: int|
            0 <= i < offsets@.len() ==> (#[trigger] offsets@[i])
                < old(state)@.streams[stream@].messages.len(),
    ensures
        final(state)@ == (SnapshotView {
            streams: streams_with_dead_letters(old(state)@.streams, stream@, offsets@),
            dead_letters: counted(old(state)@.dead_letters, offsets@.len()),
            ..old(state)@
        }),
        final(group)@ == acknowledged_all(old(group)@, offsets@),
{
    if offsets.len() == 0 {
        return;
    }
    let name = dead_letter_stream_name(stream.as_str());
    let ghost streams = state.streams@;
    proof {
        law_dead_letter_stream_is_another(stream@);
    }
    let mut target = match state.streams.remove(&name) {
        Some(target) => target,
        None => {
            let (stream_id, group_id) = stream_identity(name.as_str());
            StreamState::active(stream_id, group_id)
        },
    };
    let ghost base = target@;
    let mut dead_letters: u64 = state.dead_letters;
    let source = match state.streams.get(stream) {
        Some(source) => source,
        None => {
            return;
        },
    };
    let kept: usize = source.messages.len();
    let mut i: usize = 0;
    while i < offsets.len()
        invariant
            i <= offsets@.len(),
            kept == source.messages@.len(),
            source@ == streams[stream@],
            forall|j: int|
                0 <= j < offsets@.len() ==> (#[trigger] offsets@[j]) < source@.messages.len(),
            target@ == (StreamView {
                messages: base.messages + messages_at(
                    source@.messages,
                    offsets@.take(i as int),
                ),
                ..base
            }),
            dead_letters == counted(old(state)@.dead_letters, i as nat),
            group@ == acknowledged_all(old(group)@, offsets@.take(i as int)),
        decreases offsets@.len() - i,
    {
        let o: u64 = offsets[i];
        proof {
            assert(offsets@[i as int] < source@.messages.len());
            assert(source@.messages.len() == source.messages@.len());
            assert(source@.messages[o as int] == source.messages@[o as int]@);
            assert(offsets@.take(i + 1).drop_last() == offsets@.take(i as int));
            assert(offsets@.take(i + 1).last() == o);
        }
        let ghost was = target.messages@;
        target.messages.push(source.messages[o as usize].copy());
        group.acknowledge_group_offset(o);
        dead_letters = dead_letters.saturating_add(1);
        proof {
            assert(messages_view(target.messages@) =~= messages_view(was).push(
                source@.messages[o as int],
            ));
            assert(messages_at(source@.messages, offsets@.take(i + 1)) =~= messages_at(
                source@.messages,
                offsets@.take(i as int),
            ).push(source@.messages[o as int]));
            assert(target@.messages =~= base.messages + messages_at(
                source@.messages,
                offsets@.take(i + 1),
            ));
        }
        i += 1;
    }
    proof {
        assert(offsets@.take(i as int) =~= offsets@);
    }
    state.dead_letters = dead_letters;
    state.streams.insert(name, target);
    proof {
        assert(state@.streams =~= streams_with_dead_letters(streams, stream@, offsets@));
    }
}

/// The answer to a poll that hands out the message at an offset.
fn group_poll_message(
    stream: &String,
    offset: Offset,
    messages: &Vec<StoredMessage>,
    token: String,
    attempt: u32,
) -> (r: CommandResponse)
    ensures
        r@ == poll_reply(stream@, offset, messages_view(messages@), token@, attempt),
{
    if offset >= messages.len() as u64 {
        return CommandResponse::StreamNotFound;
    }
    let message = &messages[offset as usize];
    CommandResponse::GroupPoll {
        result: PollResult::Message(
            Message {
                stream: stream.clone(),
                offset,
                key: copy_optional(&message.key),
                payload: copy_bytes(&message.payload),
                published_at_ms: message.published_at_ms,
                delivery_token: Some(token),
                delivery_attempt: Some(attempt),
            },
        ),
    }
}

/// The token of a delivery that a log entry makes.
fn delivery_token_text(log_id: LogId) -> (r: String)
    ensures
        r@ == delivery_token(log_id),
{
    let mut token = "raft-".to_owned();
    token.append(log_id_text(log_id).as_str());
    token
}

/// Hands a waiting message to a member of a consumer group.
pub fn apply_group_poll(
    state: &mut SnapshotState,
    request: GroupPollRequest,
    log_id: LogId,
    kind: &GroupKind,
) -> (r: CommandResponse)
    ensures
        (final(state)@, r@) == group_poll_step(old(state)@, request, log_id, *kind),
{
    if let GroupKind::Metadata = kind {
        return CommandResponse::StreamNotFound;
    }
    let active = match state.streams.get(&request.stream) {
        Some(stream_state) => stream_state.is_active(),
        None => false,
    };
    if !active {
        return CommandResponse::StreamNotFound;
    }
    let now_ms: u64 = observe_lease_clock(state, request.now_ms);
    let key = (request.stream.clone(), request.consumer.clone());
    let ghost kv = key@;
    let mut group = match state.group_consumers.remove(&key) {
        Some(group) => group,
        None => {
            let committed_offset: u64 = match state.consumers.get(&key) {
                Some(offset) => *offset,
                None => 0,
            };
            GroupConsumerState::starting_at(committed_offset)
        },
    };
    group.drop_expired(now_ms);
    proof {
        assert(group@ == polled_group(old(state)@, kv, now_ms));
    }
    let ghost entered = group@;
    let ghost others = state.group_consumers@;
    if let Some(offset) = group.offset_held_by(&request.member) {
        let reply = match (group.in_flight.get(&offset), state.streams.get(&request.stream)) {
            (Some(delivery), Some(stream_state)) => group_poll_message(
                &request.stream,
                offset,
                &stream_state.messages,
                delivery.delivery_token.clone(),
                delivery.delivery_attempt,
            ),
            _ => {
                proof {
                    lemma_held(entered.in_flight, request.member@);
                }
                CommandResponse::StreamNotFound
            },
        };
        state.group_consumers.insert(key, group);
        proof {
            assert(state@.group_consumers =~= old(state)@.group_consumers.insert(kv, entered));
        }
        return reply;
    }
    let limit = if is_dead_letter_stream(request.stream.as_str()) {
        None
    } else {
        request.max_delivery_attempts
    };
    let (dead, chosen) = match state.streams.get(&request.stream) {
        Some(stream_state) => choose_next(&group, &stream_state.messages, limit),
        None => (Vec::new(), None),
    };
    let ghost messages = old(state)@.streams[request.stream@].messages;
    proof {
        assert(messages.len() <= u64::MAX);
        match chosen {
            Some(o) => lemma_spent_are_there(entered, messages, limit, o as nat),
            None => lemma_spent_are_there(entered, messages, limit, messages.len()),
        }
    }
    move_to_dead_letters(state, &request.stream, &mut group, &dead);
    proof {
        law_dead_letter_stream_is_another(request.stream@);
        assert(state@.streams[request.stream@] == old(state)@.streams[request.stream@]);
    }
    let ghost rest = group@;
    let offset = match chosen {
        Some(offset) => offset,
        None => {
            state.group_consumers.insert(key, group);
            proof {
                assert(state@.group_consumers =~= old(state)@.group_consumers.insert(kv, rest));
            }
            return CommandResponse::GroupPoll { result: PollResult::Empty };
        },
    };
    let attempt: u32 = match group.delivery_attempts.get(&offset) {
        Some(attempt) => attempt.saturating_add(1),
        None => 1,
    };
    let token = delivery_token_text(log_id);
    let (message_key, reply) = match state.streams.get(&request.stream) {
        Some(stream_state) => (
            if offset < stream_state.messages.len() as u64 {
                copy_optional(&stream_state.messages[offset as usize].key)
            } else {
                None
            },
            group_poll_message(
                &request.stream,
                offset,
                &stream_state.messages,
                token.clone(),
                attempt,
            ),
        ),
        None => (None, CommandResponse::StreamNotFound),
    };
    let delivery = GroupDelivery {
        member: request.member.clone(),
        key: message_key,
        delivery_attempt: attempt,
        delivery_token: token,
        deadline_ms: request.lease_deadline_ms,
    };
    let ghost made = delivery@;
    group.delivery_attempts.insert(offset, attempt);
    group.in_flight.insert(offset, delivery);
    if attempt > 1 {
        state.redeliveries = state.redeliveries.saturating_add(1);
    }
    state.group_consumers.insert(key, group);
    proof {
        assert(state@.group_consumers =~= old(state)@.group_consumers.insert(
            kv,
            with_delivery(rest, offset, made),
        ));
    }
    reply
}

/// What a member holds first, it holds.
proof fn lemma_held(in_flight: Map<u64, DeliveryView>, member: Seq<char>)
    requires
        held_by(in_flight, member) is Some,
    ensures
        in_flight.contains_key(held_by(in_flight, member)->0),
        in_flight[held_by(in_flight, member)->0].member == member,
{
    let p = |o: u64| in_flight.contains_key(o) && in_flight[o].member == member;
    let n = choose|n: u64| is_least(n, p);
    assert(is_least(n, p));
}

/// The group that an acknowledgement finds, without the deliveries whose leases
/// have run out.
pub open spec fn acked_group(
    state: SnapshotView,
    key: (Seq<char>, Seq<char>),
    now_ms: u64,
) -> GroupConsumerView {
    let group = if state.group_consumers.contains_key(key) {
        state.group_consumers[key]
    } else {
        newcomer(0)
    };
    GroupConsumerView { in_flight: live(group.in_flight, now_ms), ..group }
}

/// Whether an offset has been acknowledged.
pub open spec fn is_done(group: GroupConsumerView, o: u64) -> bool {
    o < group.committed_offset || group.acknowledged_offsets.contains(o)
}

/// Whether an acknowledgement is good. The member that holds the offset may
/// give it, with the token of the delivery or with none; and a plain consumer,
/// which gives no token, may acknowledge the next offset though nobody holds it.
pub open spec fn ack_is_good(
    group: GroupConsumerView,
    consumer: Seq<char>,
    member: Seq<char>,
    o: u64,
    token: Seq<char>,
) -> bool {
    if group.in_flight.contains_key(o) {
        group.in_flight[o].member == member && (token.len() == 0
            || group.in_flight[o].delivery_token == token)
    } else {
        token.len() == 0 && member == consumer && o == group.committed_offset
    }
}

/// What an acknowledgement does to the state, and what it answers.
///
/// A good one moves the group on. One for what is done already changes nothing.
/// Any other is stale where the message has been delivered before, and not in
/// flight where it has not.
pub open spec fn group_ack_step(
    state: SnapshotView,
    request: GroupAckRequest,
    kind: GroupKind,
) -> (SnapshotView, ResponseView) {
    let stream = request.stream@;
    let consumer = request.consumer@;
    let key = (stream, consumer);
    let o = request.offset;
    if kind is Metadata || !stream_is_active(state.streams, stream) {
        (state, ResponseView::StreamNotFound)
    } else {
        let now_ms = later(state.lease_clock_ms, request.now_ms);
        let group = acked_group(state, key, now_ms);
        let kept = SnapshotView {
            group_consumers: state.group_consumers.insert(key, group),
            lease_clock_ms: now_ms,
            ..state
        };
        if is_done(group, o) {
            (kept, ResponseView::GroupAlreadyAcknowledged)
        } else if ack_is_good(group, consumer, request.member@, o, request.delivery_token@) {
            (
                SnapshotView {
                    group_consumers: state.group_consumers.insert(key, acknowledged(group, o)),
                    ..kept
                },
                ResponseView::GroupAcknowledged,
            )
        } else if group.in_flight.contains_key(o) || group.delivery_attempts.contains_key(o) {
            (kept, ResponseView::GroupStaleDelivery { consumer, offset: o })
        } else {
            (kept, ResponseView::GroupAckNotInFlight { consumer, offset: o })
        }
    }
}

/// Takes an acknowledgement from a member of a consumer group.
pub fn apply_group_ack(
    state: &mut SnapshotState,
    request: GroupAckRequest,
    kind: &GroupKind,
) -> (r: CommandResponse)
    ensures
        (final(state)@, r@) == group_ack_step(old(state)@, request, *kind),
{
    if let GroupKind::Metadata = kind {
        return CommandResponse::StreamNotFound;
    }
    let active = match state.streams.get(&request.stream) {
        Some(stream_state) => stream_state.is_active(),
        None => false,
    };
    if !active {
        return CommandResponse::StreamNotFound;
    }
    let now_ms: u64 = observe_lease_clock(state, request.now_ms);
    let key = (request.stream.clone(), request.consumer.clone());
    let ghost kv = key@;
    let mut group = match state.group_consumers.remove(&key) {
        Some(group) => group,
        None => GroupConsumerState::starting_at(0),
    };
    group.drop_expired(now_ms);
    proof {
        assert(group@ == acked_group(old(state)@, kv, now_ms));
    }
    let offset: u64 = request.offset;
    let reply = if offset < group.committed_offset || group.acknowledged_offsets.contains(&offset) {
        CommandResponse::GroupAlreadyAcknowledged
    } else {
        let (good, known) = match group.in_flight.get(&offset) {
            Some(delivery) => (
                delivery.member == request.member && (request.delivery_token.as_str().is_empty()
                    || delivery.delivery_token == request.delivery_token),
                true,
            ),
            None => (
                request.delivery_token.as_str().is_empty() && request.member == request.consumer
                    && offset == group.committed_offset,
                group.delivery_attempts.contains(&offset),
            ),
        };
        if good {
            group.acknowledge_group_offset(offset);
            CommandResponse::GroupAcknowledged
        } else if known {
            CommandResponse::GroupStaleDelivery { consumer: request.consumer.clone(), offset }
        } else {
            CommandResponse::GroupAckNotInFlight { consumer: request.consumer.clone(), offset }
        }
    };
    let ghost left = group@;
    state.group_consumers.insert(key, group);
    proof {
        assert(state@.group_consumers =~= old(state)@.group_consumers.insert(kv, left));
    }
    reply
}

/// A list of numbers is how the hash of some bytes comes about: it begins with the offset
/// basis, and each byte is mixed into the lowest bits before the whole is multiplied by the
/// prime, of which the low sixty-four bits are kept.
pub open spec fn hashes_step_by_step(bytes: Seq<u8>, steps: Seq<u64>) -> bool {
    &&& steps.len() == bytes.len() + 1
    &&& steps[0] == 14695981039346656037u64
    &&& forall|i: int|
        #![trigger bytes[i]]
        0 <= i < bytes.len() ==> steps[i + 1] == ((steps[i] ^ bytes[i] as u64) * 1099511628211)
            % 0x1_0000_0000_0000_0000
}

/// The hash is what its steps come to.
proof fn lemma_hash_steps(bytes: Seq<u8>, steps: Seq<u64>)
    requires
        hashes_step_by_step(bytes, steps),
    ensures
        fnv1a(bytes) == steps.last(),
    decreases bytes.len(),
{
    if bytes.len() > 0 {
        let rest = bytes.drop_last();
        let before = steps.drop_last();
        let n = bytes.len() - 1;
        assert(bytes[n] == bytes.last());
        assert forall|i: int| #![trigger rest[i]] 0 <= i < rest.len() implies before[i + 1] == ((
        before[i] ^ rest[i] as u64) * 1099511628211) % 0x1_0000_0000_0000_0000 by {
            assert(rest[i] == bytes[i]);
        }
        lemma_hash_steps(rest, before);
        assert(steps[n + 1] == ((steps[n] ^ bytes[n] as u64) * 1099511628211)
            % 0x1_0000_0000_0000_0000);
    }
}

/// Where the suffix would make a name too long, the dead-letter stream is named by the hash
/// of the stream's name, in sixteen hexadecimal digits behind the prefix.
pub proof fn law_long_names_are_hashed(stream: Seq<char>, steps: Seq<u64>, digits: Seq<char>)
    requires
        encode_utf8(stream + ".dead-letter"@).len() > 128,
        hashes_step_by_step(encode_utf8(stream), steps),
        dead_letter_name(stream) == "runnel.dead-letter."@ + digits,
    ensures
        digits.len() == 16,
        read_hex_number(digits) == steps.last(),
{
    let hash = fnv1a(encode_utf8(stream)) as nat;
    lemma_hash_steps(encode_utf8(stream), steps);
    lemma_fixed_hex(hash, 16);
    law_digits_make_the_number(hash, 16);
    reveal_with_fuel(sixteen_to, 17);
    assert(sixteen_to(16) == 0x1_0000_0000_0000_0000);
    let prefix = "runnel.dead-letter."@;
    assert((prefix + digits).skip(prefix.len() as int) =~= digits);
    assert((prefix + fixed_hex(hash, 16)).skip(prefix.len() as int) =~= fixed_hex(hash, 16));
}

} // verus!
