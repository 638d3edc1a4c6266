//! The journal of a state machine: a record for each log entry, each behind its
//! length.

use vstd::prelude::*;

use crate::engine::{BrokerError, IoFailure, IoKind};
use crate::log_entry::{Entry, EntryPayload};
use crate::log_id::{is_log_after, log_after, LogId};
use crate::state_machine::GroupKind;
use crate::state_machine_store::{
    entry_acks_the_last_offset, entry_step, machine_after, MachineView, StateMachineData,
};
use crate::storage::{is_cluster_error, path_error, path_text};
use crate::text::{decimal, decimal_text, join3, join5};
use crate::wire::{
    append_bytes, law_lengths_round_trip, low_first, low_first_bytes, number_from, number_of,
};

verus! {

/// The format that journal records are written in.
pub const FORMAT_VERSION: u32 = 1;

/// The name of a journal's file.
pub const FILE: &'static str = "state-machine.log";

/// The most bytes that a journal record may have.
pub const MAX_RECORD_SIZE: u32 = 67108864;

/// A record of the journal.
#[derive(Debug)]
pub struct JournalEntry {
    pub version: u32,
    pub log_id: LogId,
    pub payload: EntryPayload,
}

impl JournalEntry {
    /// The record of a log entry.
    pub fn from_entry(entry: Entry) -> (r: Self)
        ensures
            r == (JournalEntry {
                version: FORMAT_VERSION,
                log_id: entry.log_id,
                payload: entry.payload,
            }),
    {
        JournalEntry { version: FORMAT_VERSION, log_id: entry.log_id, payload: entry.payload }
    }
}

/// How the bytes of a journal end: behind a whole record, in a record that is
/// cut short, or at a record that is too large.
#[derive(Clone, Copy, Debug, PartialEq, Eq, Structural)]
pub enum JournalEnd {
    Complete,
    Truncated { at: usize },
    TooLarge { len: u32 },
}

/// The records of a journal, each by where it begins and ends, and how the
/// journal ends.
pub open spec fn records_from(bytes: Seq<u8>, at: nat) -> (Seq<(usize, usize)>, JournalEnd)
    decreases bytes.len() - at,
{
    if at >= bytes.len() {
        (Seq::empty(), JournalEnd::Complete)
    } else if bytes.len() - at < 4 {
        (Seq::empty(), JournalEnd::Truncated { at: at as usize })
    } else {
        let len = number_of(bytes.subrange(at as int, at as int + 4));
        if len > MAX_RECORD_SIZE {
            (Seq::empty(), JournalEnd::TooLarge { len: len as u32 })
        } else if bytes.len() - at - 4 < len {
            (Seq::empty(), JournalEnd::Truncated { at: at as usize })
        } else {
            let (rest, end) = records_from(bytes, at + 4 + len);
            (seq![((at + 4) as usize, (at + 4 + len) as usize)] + rest, end)
        }
    }
}

/// Finds the records of a journal: where each begins and ends, in order, and how
/// the journal ends.
pub fn split_records(bytes: &[u8]) -> (r: (Vec<(usize, usize)>, JournalEnd))
    ensures
        (r.0@, r.1) == records_from(bytes@, 0),
        forall|i: int|
            0 <= i < r.0@.len() ==> (#[trigger] r.0@[i]).0 <= r.0@[i].1 <= bytes@.len(),
{
    let mut records: Vec<(usize, usize)> = Vec::new();
    let mut cursor: usize = 0;
    while cursor < bytes.len()
        invariant
            cursor <= bytes@.len(),
            forall|i: int|
                0 <= i < records@.len() ==> (#[trigger] records@[i]).0 <= records@[i].1
                    <= bytes@.len(),
            records_from(bytes@, 0) == (
                records@ + records_from(bytes@, cursor as nat).0,
                records_from(bytes@, cursor as nat).1,
            ),
        decreases bytes@.len() - cursor,
    {
        let record_start: usize = cursor;
        let ghost found = records@;
        if bytes.len() - cursor < 4 {
            proof {
                assert(found + Seq::empty() =~= found);
            }
            return (records, JournalEnd::Truncated { at: record_start });
        }
        let record_len: u32 = number_from(
            bytes[cursor],
            bytes[cursor + 1],
            bytes[cursor + 2],
            bytes[cursor + 3],
        );
        proof {
            let head = bytes@.subrange(cursor as int, cursor + 4);
            assert(head =~= seq![
                bytes@[cursor as int],
                bytes@[cursor + 1],
                bytes@[cursor + 2],
                bytes@[cursor + 3],
            ]);
            assert(record_len == number_of(head));
            assert(found + Seq::empty() =~= found);
        }
        if record_len > MAX_RECORD_SIZE {
            return (records, JournalEnd::TooLarge { len: record_len });
        }
        cursor += 4;
        if bytes.len() - cursor < record_len as usize {
            return (records, JournalEnd::Truncated { at: record_start });
        }
        let end: usize = cursor + record_len as usize;
        records.push((cursor, end));
        proof {
            let rest = records_from(bytes@, end as nat).0;
            assert(found + (seq![(cursor, end)] + rest) =~= records@ + rest);
        }
        cursor = end;
    }
    proof {
        assert(records@ + Seq::empty() =~= records@);
    }
    (records, JournalEnd::Complete)
}

/// Whether what was decoded of a record can be used.
pub open spec fn is_good(decoded: Result<JournalEntry, String>) -> bool {
    decoded matches Ok(entry) && entry.version == FORMAT_VERSION
}

/// What is said of a record that cannot be used.
pub open spec fn record_error_text(
    decoded: Result<JournalEntry, String>,
    path: Seq<char>,
) -> Seq<char> {
    match decoded {
        Err(reason) => path_text("invalid state-machine journal record in"@, path, reason@),
        Ok(entry) => "unsupported state-machine journal format version "@ + decimal(
            entry.version as nat,
        ) + " in '"@ + path + "' (supported version 1)"@,
    }
}

/// What is said of a record that is too large.
pub open spec fn too_large_text(len: u32) -> Seq<char> {
    "state-machine journal record is too large: "@ + decimal(len as nat) + " bytes"@
}

/// What was decoded of the records of a journal, taken together: every entry and
/// where the journal is cut short, if it is; or what is wrong with the first
/// record that cannot be used.
pub open spec fn is_parsed(
    decoded: Seq<Result<JournalEntry, String>>,
    end: JournalEnd,
    path: Seq<char>,
    parsed: Result<(Vec<JournalEntry>, Option<usize>), BrokerError>,
) -> bool {
    if forall|i: int| 0 <= i < decoded.len() ==> is_good(#[trigger] decoded[i]) {
        match end {
            JournalEnd::TooLarge { len } => parsed is Err && is_cluster_error(
                parsed->Err_0,
                too_large_text(len),
            ),
            _ => {
                &&& parsed matches Ok((entries, truncated_at))
                &&& entries@.len() == decoded.len()
                &&& forall|i: int|
                    0 <= i < decoded.len() ==> decoded[i] == Ok::<JournalEntry, String>(
                        #[trigger] entries@[i],
                    )
                &&& truncated_at == (match end {
                    JournalEnd::Truncated { at } => Some(at),
                    _ => None,
                })
            },
        }
    } else {
        &&& parsed is Err
        &&& exists|i: int|
            0 <= i < decoded.len() && !is_good(#[trigger] decoded[i]) && is_cluster_error(
                parsed->Err_0,
                record_error_text(decoded[i], path),
            ) && forall|j: int| 0 <= j < i ==> is_good(#[trigger] decoded[j])
    }
}

/// Takes together what was decoded of the records of a journal, each in its
/// place, and how the journal ends.
pub fn parse(
    decoded: Vec<Result<JournalEntry, String>>,
    end: JournalEnd,
    path: &str,
) -> (r: Result<(Vec<JournalEntry>, Option<usize>), BrokerError>)
    ensures
        is_parsed(decoded@, end, path@, r),
{
    let ghost all = decoded@;
    let mut entries: Vec<JournalEntry> = Vec::new();
    for record in it: decoded
        invariant
            it.seq() == all,
            entries@.len() == it.index(),
            forall|i: int| 0 <= i < it.index() ==> is_good(#[trigger] all[i]),
            forall|i: int|
                0 <= i < it.index() ==> all[i] == Ok::<JournalEntry, String>(
                    #[trigger] entries@[i],
                ),
    {
        let ghost at = it.index() as int;
        proof {
            assert(record == all[at]);
        }
        match record {
            Err(reason) => {
                proof {
                    assert(!is_good(all[at]));
                }
                return Err(
                    path_error("invalid state-machine journal record in", path, reason.as_str()),
                );
            },
            Ok(entry) => {
                if entry.version != FORMAT_VERSION {
                    let message = join5(
                        "unsupported state-machine journal format version ",
                        decimal_text(entry.version as u64).as_str(),
                        " in '",
                        path,
                        "' (supported version 1)",
                    );
                    proof {
                        assert(!is_good(all[at]));
                    }
                    return Err(BrokerError::Cluster(message));
                }
                entries.push(entry);
            },
        }
    }
    match end {
        JournalEnd::Complete => Ok((entries, None)),
        JournalEnd::Truncated { at } => Ok((entries, Some(at))),
        JournalEnd::TooLarge { len } => Err(
            BrokerError::Cluster(
                join3(
                    "state-machine journal record is too large: ",
                    decimal_text(len as u64).as_str(),
                    " bytes",
                ),
            ),
        ),
    }
}

/// Accepts a journal whose records can all be used, or says what is wrong with
/// the first that cannot.
pub fn validate(decoded: Vec<Result<JournalEntry, String>>, end: JournalEnd, path: &str) -> (r:
    Result<(), BrokerError>)
    ensures
        r is Ok <==> (forall|i: int|
            0 <= i < decoded@.len() ==> is_good(#[trigger] decoded@[i])) && !(end is TooLarge),
        r matches Err(error) ==> is_parsed(decoded@, end, path@, Err(error)),
{
    match parse(decoded, end, path) {
        Ok(_) => Ok(()),
        Err(error) => Err(error),
    }
}

/// The record of some bytes: their length, then the bytes.
pub open spec fn framed(payload: Seq<u8>) -> Seq<u8> {
    low_first(payload.len() as u32) + payload
}

/// The record of some bytes, or why there is none.
pub fn encode_record(payload: &[u8]) -> (r: Result<Vec<u8>, IoFailure>)
    ensures
        match r {
            Ok(record) => payload@.len() <= MAX_RECORD_SIZE && record@ == framed(payload@),
            Err(failure) => payload@.len() > MAX_RECORD_SIZE && failure.kind
                == IoKind::InvalidInput && failure.message@
                == "state-machine journal record exceeds configured size"@,
        },
{
    if payload.len() > MAX_RECORD_SIZE as usize {
        return Err(
            IoFailure {
                kind: IoKind::InvalidInput,
                message: "state-machine journal record exceeds configured size".to_owned(),
            },
        );
    }
    let mut record = low_first_bytes(payload.len() as u32);
    append_bytes(&mut record, payload);
    Ok(record)
}

/// The log entry that a record holds.
pub open spec fn entry_of(record: JournalEntry) -> Entry {
    Entry { log_id: record.log_id, payload: record.payload }
}

/// Whether a record brings something that the state machine does not have yet.
pub open spec fn is_news(machine: MachineView, record: JournalEntry) -> bool {
    machine.last_applied_log matches Some(last) ==> log_after(record.log_id, last)
}

/// The state machine after some records, in order: those that bring nothing new
/// are passed over.
pub open spec fn replayed(machine: MachineView, records: Seq<JournalEntry>, kind: GroupKind) -> MachineView
    decreases records.len(),
{
    if records.len() == 0 {
        machine
    } else {
        let before = replayed(machine, records.drop_last(), kind);
        if is_news(before, records.last()) {
            entry_step(before, entry_of(records.last()), kind).0
        } else {
            before
        }
    }
}

/// Whether none of some records, in order, acknowledges the highest offset there
/// is when that is what its consumer has come to.
pub open spec fn records_can_replay(
    machine: MachineView,
    records: Seq<JournalEntry>,
    kind: GroupKind,
) -> bool {
    forall|i: int|
        0 <= i < records.len() && is_news(
            replayed(machine, records.take(i), kind),
            #[trigger] records[i],
        ) ==> !entry_acks_the_last_offset(
            replayed(machine, records.take(i), kind),
            entry_of(records[i]),
            kind,
        )
}

/// Takes in the records of a journal, in order, but for those that bring nothing
/// new.
pub fn replay(state: &mut StateMachineData, entries: Vec<JournalEntry>, kind: &GroupKind)
    requires
        records_can_replay(old(state)@, entries@, *kind),
    ensures
        final(state)@ == replayed(old(state)@, entries@, *kind),
{
    let ghost all = entries@;
    let ghost start = state@;
    for record in it: entries
        invariant
            it.seq() == all,
            records_can_replay(start, all, *kind),
            state@ == replayed(start, all.take(it.index() as int), *kind),
    {
        proof {
            let done = it.index() as int;
            assert(record == all[done]);
            assert(all.take(done + 1).drop_last() == all.take(done));
        }
        let news = match state.last_applied_log {
            Some(last) => is_log_after(record.log_id, last),
            None => true,
        };
        if news {
            state.apply_entry(Entry { log_id: record.log_id, payload: record.payload }, kind);
        }
    }
    proof {
        assert(all.take(all.len() as int) =~= all);
    }
}

/// Whether a record comes after a log entry, if there is one.
pub open spec fn comes_after(log_id: Option<LogId>) -> spec_fn(JournalEntry) -> bool {
    |record: JournalEntry| log_id matches Some(last) ==> log_after(record.log_id, last)
}

/// The records that a journal keeps once a state machine is recorded: those that
/// it did not have yet.
pub fn retained(entries: Vec<JournalEntry>, last_applied_log: Option<LogId>) -> (r: Vec<
    JournalEntry,
>)
    ensures
        r@ == entries@.filter(comes_after(last_applied_log)),
{
    let ghost all = entries@;
    let ghost p = comes_after(last_applied_log);
    let mut kept: Vec<JournalEntry> = Vec::new();
    for record in it: entries
        invariant
            it.seq() == all,
            p == comes_after(last_applied_log),
            kept@ == all.take(it.index() as int).filter(p),
    {
        proof {
            let done = it.index() as int;
            assert(all.take(done + 1) =~= all.take(done).push(record));
            all.take(done).lemma_filter_push(record, p);
        }
        let keep = match last_applied_log {
            Some(last) => is_log_after(record.log_id, last),
            None => true,
        };
        if keep {
            kept.push(record);
        }
    }
    proof {
        assert(all.take(all.len() as int) =~= all);
    }
    kept
}

/// The bytes of a journal that holds some records.
pub open spec fn journal_of(payloads: Seq<Seq<u8>>) -> Seq<u8>
    decreases payloads.len(),
{
    if payloads.len() == 0 {
        Seq::empty()
    } else {
        framed(payloads[0]) + journal_of(payloads.drop_first())
    }
}

/// Where the records of a journal begin and end.
pub open spec fn places_of(payloads: Seq<Seq<u8>>, at: nat) -> Seq<(usize, usize)>
    decreases payloads.len(),
{
    if payloads.len() == 0 {
        Seq::empty()
    } else {
        let end = at + 4 + payloads[0].len();
        seq![((at + 4) as usize, end as usize)] + places_of(payloads.drop_first(), end)
    }
}

/// Each of some records is small enough to be written.
pub open spec fn all_fit(payloads: Seq<Seq<u8>>) -> bool {
    forall|i: int| 0 <= i < payloads.len() ==> (#[trigger] payloads[i]).len() <= MAX_RECORD_SIZE
}

/// Whole records are found one by one, whatever stands before and behind them.
proof fn lemma_records_found(before: Seq<u8>, payloads: Seq<Seq<u8>>, behind: Seq<u8>)
    requires
        all_fit(payloads),
    ensures
        ({
            let bytes = before + journal_of(payloads) + behind;
            let end = before.len() + journal_of(payloads).len();
            records_from(bytes, before.len()) == (
                places_of(payloads, before.len()) + records_from(bytes, end).0,
                records_from(bytes, end).1,
            )
        }),
    decreases payloads.len(),
{
    let bytes = before + journal_of(payloads) + behind;
    let at = before.len();
    let end = before.len() + journal_of(payloads).len();
    if payloads.len() == 0 {
        assert(places_of(payloads, at) + records_from(bytes, end).0 =~= records_from(bytes, end).0);
    } else {
        let first = payloads[0];
        let rest = payloads.drop_first();
        law_lengths_round_trip(first.len() as u32);
        assert(all_fit(rest)) by {
            assert forall|i: int| 0 <= i < rest.len() implies (#[trigger] rest[i]).len()
                <= MAX_RECORD_SIZE by {
                assert(rest[i] == payloads[i + 1]);
            }
        }
        lemma_records_found(before + framed(first), rest, behind);
        assert(before + framed(first) + journal_of(rest) + behind =~= bytes);
        assert(bytes.subrange(at as int, at as int + 4) =~= low_first(first.len() as u32));
        let next = at + 4 + first.len();
        assert((before + framed(first)).len() == next);
        let here = seq![((at + 4) as usize, next as usize)];
        assert(here + (places_of(rest, next) + records_from(bytes, end).0) =~= places_of(
            payloads,
            at,
        ) + records_from(bytes, end).0);
    }
}

/// Every place of a record holds that record.
proof fn lemma_places(before: Seq<u8>, payloads: Seq<Seq<u8>>, behind: Seq<u8>, i: int)
    requires
        0 <= i < payloads.len(),
        before.len() + journal_of(payloads).len() <= usize::MAX,
    ensures
        ({
            let bytes = before + journal_of(payloads) + behind;
            let places = places_of(payloads, before.len());
            &&& places.len() == payloads.len()
            &&& places[i].0 <= places[i].1 <= bytes.len()
            &&& bytes.subrange(places[i].0 as int, places[i].1 as int) == payloads[i]
        }),
    decreases payloads.len(),
{
    let bytes = before + journal_of(payloads) + behind;
    let first = payloads[0];
    let rest = payloads.drop_first();
    let at = before.len();
    let next = at + 4 + first.len();
    lemma_places_len(payloads, at);
    if i == 0 {
        assert(bytes.subrange(at as int + 4, next as int) =~= first);
    } else {
        lemma_places(before + framed(first), rest, behind, i - 1);
        assert(before + framed(first) + journal_of(rest) + behind =~= bytes);
        assert(places_of(payloads, at)[i] == places_of(rest, next)[i - 1]);
    }
}

proof fn lemma_places_len(payloads: Seq<Seq<u8>>, at: nat)
    ensures
        places_of(payloads, at).len() == payloads.len(),
    decreases payloads.len(),
{
    if payloads.len() > 0 {
        lemma_places_len(payloads.drop_first(), at + 4 + payloads[0].len());
    }
}

/// A journal gives back the records that were written to it, each whole and in
/// order.
pub proof fn law_journal_gives_back_its_records(payloads: Seq<Seq<u8>>)
    requires
        all_fit(payloads),
        journal_of(payloads).len() <= usize::MAX,
    ensures
        ({
            let bytes = journal_of(payloads);
            let (places, end) = records_from(bytes, 0);
            &&& end == JournalEnd::Complete
            &&& places.len() == payloads.len()
            &&& forall|i: int|
                0 <= i < payloads.len() ==> bytes.subrange(
                    places[i].0 as int,
                    places[i].1 as int,
                ) == #[trigger] payloads[i]
        }),
{
    let none = Seq::<u8>::empty();
    let bytes = journal_of(payloads);
    assert(none + bytes + none =~= bytes);
    lemma_records_found(none, payloads, none);
    lemma_places_len(payloads, 0);
    let places = places_of(payloads, 0);
    assert(places + Seq::empty() =~= places);
    assert forall|i: int| 0 <= i < payloads.len() implies bytes.subrange(
        places[i].0 as int,
        places[i].1 as int,
    ) == #[trigger] payloads[i] by {
        lemma_places(none, payloads, none, i);
    }
}

/// A journal whose last record was cut short gives back the whole records before
/// it, and says where the cut one began.
pub proof fn law_partial_tail_is_discarded(
    payloads: Seq<Seq<u8>>,
    cut: Seq<u8>,
    kept: nat,
)
    requires
        all_fit(payloads),
        cut.len() <= MAX_RECORD_SIZE,
        0 < kept < framed(cut).len(),
        journal_of(payloads).len() + kept <= usize::MAX,
    ensures
        ({
            let whole = journal_of(payloads);
            let bytes = whole + framed(cut).take(kept as int);
            let (places, end) = records_from(bytes, 0);
            &&& end == (JournalEnd::Truncated { at: whole.len() as usize })
            &&& places == records_from(whole, 0).0
            &&& forall|i: int|
                0 <= i < payloads.len() ==> bytes.subrange(
                    places[i].0 as int,
                    places[i].1 as int,
                ) == #[trigger] payloads[i]
        }),
{
    let none = Seq::<u8>::empty();
    let whole = journal_of(payloads);
    let tail = framed(cut).take(kept as int);
    let bytes = whole + tail;
    assert(none + whole + tail =~= bytes);
    assert(none + whole + none =~= whole);
    lemma_records_found(none, payloads, tail);
    lemma_records_found(none, payloads, none);
    lemma_places_len(payloads, 0);
    law_lengths_round_trip(cut.len() as u32);
    let at = whole.len() as int;
    if kept >= 4 {
        assert(bytes.subrange(at, at + 4) =~= low_first(cut.len() as u32));
    }
    let places = places_of(payloads, 0);
    assert(places + Seq::empty() =~= places);
    assert forall|i: int| 0 <= i < payloads.len() implies bytes.subrange(
        places[i].0 as int,
        places[i].1 as int,
    ) == #[trigger] payloads[i] by {
        lemma_places(none, payloads, tail, i);
    }
}

/// A replay moves on to the last record that brought news, and to none before.
proof fn lemma_replay_moves_on(machine: MachineView, records: Seq<JournalEntry>, kind: GroupKind)
    ensures
        machine.last_applied_log matches Some(last) ==> (replayed(
            machine,
            records,
            kind,
        ).last_applied_log matches Some(now) && (now == last || log_after(now, last))),
        forall|i: int|
            0 <= i < records.len() ==> !is_news(
                replayed(machine, records, kind),
                #[trigger] records[i],
            ),
    decreases records.len(),
{
    if records.len() > 0 {
        let rest = records.drop_last();
        lemma_replay_moves_on(machine, rest, kind);
        let before = replayed(machine, rest, kind);
        let after = replayed(machine, records, kind);
        assert forall|i: int| 0 <= i < records.len() implies !is_news(
            after,
            #[trigger] records[i],
        ) by {
            if i < rest.len() {
                assert(rest[i] == records[i]);
                assert(!is_news(before, rest[i]));
            }
        }
    }
}

/// Records that bring nothing new change nothing.
proof fn lemma_no_news(machine: MachineView, records: Seq<JournalEntry>, kind: GroupKind)
    requires
        forall|i: int| 0 <= i < records.len() ==> !is_news(machine, #[trigger] records[i]),
    ensures
        replayed(machine, records, kind) == machine,
    decreases records.len(),
{
    if records.len() > 0 {
        let rest = records.drop_last();
        assert forall|i: int| 0 <= i < rest.len() implies !is_news(machine, #[trigger] rest[i]) by {
            assert(rest[i] == records[i]);
        }
        lemma_no_news(machine, rest, kind);
        assert(!is_news(machine, records[records.len() - 1]));
    }
}

/// A journal may always be replayed again, and the second time changes nothing.
pub proof fn law_replay_is_idempotent(
    machine: MachineView,
    records: Seq<JournalEntry>,
    kind: GroupKind,
)
    ensures
        records_can_replay(replayed(machine, records, kind), records, kind),
        replayed(replayed(machine, records, kind), records, kind) == replayed(
            machine,
            records,
            kind,
        ),
{
    let once = replayed(machine, records, kind);
    lemma_replay_moves_on(machine, records, kind);
    lemma_no_news(once, records, kind);
    assert forall|i: int| 0 <= i < records.len() implies !is_news(
        replayed(once, records.take(i), kind),
        #[trigger] records[i],
    ) by {
        let some = records.take(i);
        assert forall|j: int| 0 <= j < some.len() implies !is_news(once, #[trigger] some[j]) by {
            assert(some[j] == records[j]);
        }
        lemma_no_news(once, some, kind);
    }
}

/// The log entries that some records hold.
pub open spec fn entries_of(records: Seq<JournalEntry>) -> Seq<Entry> {
    records.map_values(|record: JournalEntry| entry_of(record))
}

/// Each of some records comes after the one before it.
pub open spec fn in_log_order(records: Seq<JournalEntry>) -> bool {
    forall|i: int, j: int|
        #![trigger records[i], records[j]]
        0 <= i < j < records.len() ==> log_after(records[j].log_id, records[i].log_id)
}

/// A replay of two lists is a replay of the second after the first.
proof fn lemma_replay_concat(
    machine: MachineView,
    first: Seq<JournalEntry>,
    second: Seq<JournalEntry>,
    kind: GroupKind,
)
    ensures
        replayed(machine, first + second, kind) == replayed(
            replayed(machine, first, kind),
            second,
            kind,
        ),
    decreases second.len(),
{
    if second.len() == 0 {
        assert(first + second =~= first);
    } else {
        lemma_replay_concat(machine, first, second.drop_last(), kind);
        assert((first + second).drop_last() =~= first + second.drop_last());
    }
}

/// Records that all bring news replay as their entries apply.
proof fn lemma_all_news(machine: MachineView, records: Seq<JournalEntry>, kind: GroupKind)
    requires
        in_log_order(records),
        forall|i: int| 0 <= i < records.len() ==> is_news(machine, #[trigger] records[i]),
    ensures
        replayed(machine, records, kind) == machine_after(machine, entries_of(records), kind),
        records.len() > 0 ==> replayed(machine, records, kind).last_applied_log == Some(
            records.last().log_id,
        ),
    decreases records.len(),
{
    if records.len() > 0 {
        let rest = records.drop_last();
        assert forall|i: int| 0 <= i < rest.len() implies is_news(machine, #[trigger] rest[i]) by {
            assert(rest[i] == records[i]);
        }
        assert forall|i: int, j: int|
            #![trigger rest[i], rest[j]]
            0 <= i < j < rest.len() implies log_after(rest[j].log_id, rest[i].log_id) by {
            assert(records[i] == rest[i] && records[j] == rest[j]);
        }
        lemma_all_news(machine, rest, kind);
        assert(entries_of(records).drop_last() =~= entries_of(rest));
        assert(entries_of(records).last() == entry_of(records.last()));
        assert(is_news(machine, records[records.len() - 1]));
        if rest.len() > 0 {
            assert(log_after(
                records[records.len() - 1].log_id,
                records[records.len() - 2].log_id,
            ));
        } else {
            assert(rest =~= Seq::empty());
        }
    }
}

/// A state machine that was recorded after any number of its entries, and then
/// takes in its journal, comes to what it was: it does not matter how many of
/// the journal's records the recording had already taken in.
pub proof fn law_recovery_restores_the_state_machine(
    machine: MachineView,
    records: Seq<JournalEntry>,
    recorded: int,
    kind: GroupKind,
)
    requires
        in_log_order(records),
        forall|i: int| 0 <= i < records.len() ==> is_news(machine, #[trigger] records[i]),
        0 <= recorded <= records.len(),
    ensures
        replayed(
            machine_after(machine, entries_of(records.take(recorded)), kind),
            records,
            kind,
        ) == machine_after(machine, entries_of(records), kind),
{
    let first = records.take(recorded);
    let second = records.skip(recorded);
    assert forall|i: int| 0 <= i < first.len() implies is_news(machine, #[trigger] first[i]) by {
        assert(first[i] == records[i]);
    }
    assert forall|i: int, j: int|
        #![trigger first[i], first[j]]
        0 <= i < j < first.len() implies log_after(first[j].log_id, first[i].log_id) by {
        assert(records[i] == first[i] && records[j] == first[j]);
    }
    lemma_all_news(machine, first, kind);
    lemma_all_news(machine, records, kind);
    let middle = replayed(machine, first, kind);
    law_replay_is_idempotent(machine, first, kind);
    lemma_replay_concat(middle, first, second, kind);
    lemma_replay_concat(machine, first, second, kind);
    assert(first + second =~= records);
}

/// A journal loses nothing that matters when it is cut down to what it retains:
/// a state machine comes to the same from the records that are retained for it as
/// from all of them.
pub proof fn law_compaction_changes_no_recovery(
    machine: MachineView,
    records: Seq<JournalEntry>,
    kind: GroupKind,
)
    ensures
        replayed(machine, records.filter(comes_after(machine.last_applied_log)), kind) == replayed(
            machine,
            records,
            kind,
        ),
    decreases records.len(),
{
    let p = comes_after(machine.last_applied_log);
    if records.len() == 0 {
        assert(records.filter(p) =~= records);
    } else {
        let rest = records.drop_last();
        let last = records.last();
        law_compaction_changes_no_recovery(machine, rest, kind);
        lemma_replay_moves_on(machine, rest, kind);
        rest.lemma_filter_push(last, p);
        assert(records =~= rest.push(last));
        if p(last) {
            assert(records.filter(p).drop_last() =~= rest.filter(p));
        }
    }
}

} // verus!
