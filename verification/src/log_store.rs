//! The replicated log of a group, as a node keeps it.

use vstd::prelude::*;

use crate::engine::{IoFailure, IoKind};
use crate::keyed::{keys_in_order, SortedMap};
use crate::log_entry::{Entry, Vote};
use crate::log_id::LogId;
use crate::storage::{path_text, FileRead};
use crate::text::{begins_with, decimal, decimal_text, finishes_with, join5};

verus! {

/// The format that logs are written in.
pub const FORMAT_VERSION: u32 = 1;

/// A log as it is recorded.
#[derive(Debug)]
pub struct PersistedLog {
    pub version: u32,
    pub last_purged_log_id: Option<LogId>,
    pub log: SortedMap<u64, Entry>,
    pub committed: Option<LogId>,
    pub vote: Option<Vote>,
}

/// The entries of a log, each under its index; the last that was purged from its
/// front; how far it is committed; and the vote of its node.
#[derive(Debug)]
pub struct LogStore {
    pub last_purged_log_id: Option<LogId>,
    pub log: SortedMap<u64, Entry>,
    pub committed: Option<LogId>,
    pub vote: Option<Vote>,
}

/// What a log holds.
#[verifier::ext_equal]
pub struct LogView {
    pub last_purged_log_id: Option<LogId>,
    pub log: Map<u64, Entry>,
    pub committed: Option<LogId>,
    pub vote: Option<Vote>,
}

impl View for LogStore {
    type V = LogView;

    open spec fn view(&self) -> LogView {
        LogView {
            last_purged_log_id: self.last_purged_log_id,
            log: self.log@,
            committed: self.committed,
            vote: self.vote,
        }
    }
}

/// Where a log begins and ends.
#[derive(Clone, Copy, Debug, PartialEq, Eq, Structural)]
pub struct LogState {
    pub last_purged_log_id: Option<LogId>,
    pub last_log_id: Option<LogId>,
}

/// A log with nothing in it.
pub open spec fn empty_log() -> LogView {
    LogView { last_purged_log_id: None, log: Map::empty(), committed: None, vote: None }
}

impl Default for LogStore {
    fn default() -> (r: Self)
        ensures
            r@ == empty_log(),
    {
        LogStore {
            last_purged_log_id: None,
            log: SortedMap::new(),
            committed: None,
            vote: None,
        }
    }
}

/// What a failure to read the log comes to as text.
pub uninterp spec fn log_read_error_text(message: Seq<char>) -> Seq<char>;

/// Calls `openraft::StorageError::from_io_error`, for a failure to read the log
/// that says `message`, and gives the text of the error. Trusted: the text is a
/// function of the message, it begins with what was being done, and it finishes
/// with a colon, a space and the message. Between them stands the name that the
/// compiler gives to the type of the failure, of which nothing is said.
#[verifier::external_body]
pub(crate) fn log_read_error(message: String) -> (r: String)
    ensures
        r@ == log_read_error_text(message@),
        begins_with(r@, "when Read Logs: "@),
        finishes_with(r@, ": "@ + message@),
{
    openraft::StorageError::<u64>::from_io_error(
        openraft::ErrorSubject::Logs,
        openraft::ErrorVerb::Read,
        std::io::Error::other(message),
    ).to_string()
}

/// What is said of a log of another format.
pub open spec fn log_version_text(version: u32, path: Seq<char>) -> Seq<char> {
    "unsupported log format version "@ + decimal(version as nat) + " in '"@ + path
        + "' (Raft log; supported version 1)"@
}

/// A log after some entries, each put under its index in place of any that was
/// there.
pub open spec fn with_entries(log: Map<u64, Entry>, entries: Seq<Entry>) -> Map<u64, Entry>
    decreases entries.len(),
{
    if entries.len() == 0 {
        log
    } else {
        with_entries(log, entries.drop_last()).insert(entries.last().log_id.index, entries.last())
    }
}

/// The entries of a log whose indices have a property.
pub open spec fn only(log: Map<u64, Entry>, p: spec_fn(u64) -> bool) -> Map<u64, Entry> {
    Map::new(|k: u64| log.contains_key(k) && p(k), |k: u64| log[k])
}

/// The entry of a log with the highest index.
pub open spec fn is_last_entry(log: Map<u64, Entry>, index: u64) -> bool {
    log.contains_key(index) && forall|k: u64| #[trigger] log.contains_key(k) ==> k <= index
}

/// A log with another vote.
pub open spec fn with_vote(log: LogView, vote: Vote) -> LogView {
    LogView { vote: Some(vote), ..log }
}

/// A log that is committed as far as an entry.
pub open spec fn with_committed(log: LogView, committed: Option<LogId>) -> LogView {
    LogView { committed, ..log }
}

/// A log after some entries.
pub open spec fn appended(log: LogView, entries: Seq<Entry>) -> LogView {
    LogView { log: with_entries(log.log, entries), ..log }
}

/// A log without an entry and all behind it.
pub open spec fn truncated(log: LogView, log_id: LogId) -> LogView {
    LogView { log: only(log.log, |k: u64| k < log_id.index), ..log }
}

/// A log without an entry and all before it.
pub open spec fn purged(log: LogView, log_id: LogId) -> LogView {
    LogView {
        last_purged_log_id: Some(log_id),
        log: only(log.log, |k: u64| k > log_id.index),
        ..log
    }
}

/// Whether an index is from one on and before another, if there is another.
pub open spec fn is_between(from: u64, to: Option<u64>) -> spec_fn(u64) -> bool {
    |k: u64| from <= k && (to matches Some(end) ==> k < end)
}

impl LogStore {
    /// The log that was read, or an empty one where there was none, or why the
    /// one that was read cannot be used.
    pub fn open(read: FileRead<PersistedLog>, path: &str) -> (r: Result<Self, IoFailure>)
        ensures
            match read {
                FileRead::Missing => r matches Ok(store) && store@ == empty_log(),
                FileRead::Unreadable(e) => r matches Err(f) && f.kind == IoKind::Other && f.message@
                    == path_text("could not read Raft log"@, path@, e@),
                FileRead::Undecodable(e) => r matches Err(f) && f.kind == IoKind::InvalidData
                    && f.message@ == path_text("invalid Raft log"@, path@, e@),
                FileRead::Decoded(persisted) => if persisted.version == FORMAT_VERSION {
                    r matches Ok(store) && store@ == (LogView {
                        last_purged_log_id: persisted.last_purged_log_id,
                        log: persisted.log@,
                        committed: persisted.committed,
                        vote: persisted.vote,
                    })
                } else {
                    r matches Err(f) && f.kind == IoKind::InvalidData && f.message@
                        == log_version_text(persisted.version, path@)
                },
            },
    {
        match read {
            FileRead::Missing => Ok(LogStore::default()),
            FileRead::Unreadable(error) => Err(
                IoFailure {
                    kind: IoKind::Other,
                    message: join5("could not read Raft log", " '", path, "': ", error.as_str()),
                },
            ),
            FileRead::Undecodable(error) => Err(
                IoFailure {
                    kind: IoKind::InvalidData,
                    message: join5("invalid Raft log", " '", path, "': ", error.as_str()),
                },
            ),
            FileRead::Decoded(persisted) => {
                if persisted.version != FORMAT_VERSION {
                    return Err(
                        IoFailure {
                            kind: IoKind::InvalidData,
                            message: join5(
                                "unsupported log format version ",
                                decimal_text(persisted.version as u64).as_str(),
                                " in '",
                                path,
                                "' (Raft log; supported version 1)",
                            ),
                        },
                    );
                }
                Ok(
                    LogStore {
                        last_purged_log_id: persisted.last_purged_log_id,
                        log: persisted.log,
                        committed: persisted.committed,
                        vote: persisted.vote,
                    },
                )
            },
        }
    }

    /// The entries from one index up to another, or to the end, in order.
    pub fn try_get_log_entries(&self, from: u64, to: Option<u64>) -> (r: Vec<&Entry>)
        ensures
            r@ == self.log.keys().filter(is_between(from, to)).map_values(
                |k: u64| &self@.log[k],
            ),
    {
        let ghost p = is_between(from, to);
        let ghost keys = self.log.keys();
        let ghost pick = |k: u64| &self@.log[k];
        let mut found: Vec<&Entry> = Vec::new();
        let n: usize = self.log.len();
        let mut i: usize = 0;
        while i < n
            invariant
                i <= n,
                n == keys.len(),
                keys == self.log.keys(),
                p == is_between(from, to),
                pick == (|k: u64| &self@.log[k]),
                found@ == keys.take(i as int).filter(p).map_values(pick),
            decreases n - i,
        {
            let index: u64 = *self.log.key_at(i);
            proof {
                assert(keys.take(i + 1) =~= keys.take(i as int).push(index));
                keys.take(i as int).lemma_filter_push(index, p);
                let kept = keys.take(i as int).filter(p);
                assert(kept.push(index).map_values(pick) =~= kept.map_values(pick).push(
                    pick(index),
                ));
            }
            let inside = from <= index && match to {
                Some(end) => index < end,
                None => true,
            };
            if inside {
                found.push(self.log.value_at(i));
            }
            i += 1;
        }
        proof {
            assert(keys.take(i as int) =~= keys);
        }
        found
    }

    /// Where this log begins and ends: its last entry, or the last that was
    /// purged where it has none.
    pub fn get_log_state(&self) -> (r: LogState)
        ensures
            r.last_purged_log_id == self@.last_purged_log_id,
            forall|k: u64| #[trigger]
                is_last_entry(self@.log, k) ==> r.last_log_id == Some(self@.log[k].log_id),
            self@.log.dom().len() == 0 ==> r.last_log_id == self@.last_purged_log_id,
            self@.log.dom().len() > 0 ==> exists|k: u64| #[trigger] is_last_entry(self@.log, k),
    {
        let n: usize = self.log.len();
        let ghost keys = self.log.keys();
        if n == 0 {
            return LogState {
                last_purged_log_id: self.last_purged_log_id,
                last_log_id: self.last_purged_log_id,
            };
        }
        let last = self.log.value_at(n - 1);
        proof {
            let top = keys[n - 1];
            assert forall|k: u64| #[trigger] self@.log.contains_key(k) implies k <= top by {
                let i = choose|i: int| 0 <= i < keys.len() && #[trigger] keys[i] == k;
                if i < n - 1 {
                    assert(keys[i] < keys[n - 1]);
                }
            }
            assert(is_last_entry(self@.log, top));
            assert forall|k: u64| #[trigger] is_last_entry(self@.log, k) implies k == top by {
                assert(self@.log.contains_key(top));
            }
        }
        LogState {
            last_purged_log_id: self.last_purged_log_id,
            last_log_id: Some(last.log_id),
        }
    }

    /// Keeps the vote of this node.
    pub fn save_vote(&mut self, vote: Vote)
        ensures
            final(self)@ == with_vote(old(self)@, vote),
    {
        self.vote = Some(vote);
    }

    /// Keeps how far this log is committed.
    pub fn save_committed(&mut self, committed: Option<LogId>)
        ensures
            final(self)@ == with_committed(old(self)@, committed),
    {
        self.committed = committed;
    }

    /// Puts entries under their indices.
    pub fn append(&mut self, entries: Vec<Entry>)
        ensures
            final(self)@ == appended(old(self)@, entries@),
    {
        let ghost all = entries@;
        let ghost start = self@.log;
        for entry in it: entries
            invariant
                it.seq() == all,
                self@ == (LogView {
                    log: with_entries(start, all.take(it.index() as int)),
                    ..old(self)@
                }),
        {
            proof {
                let done = it.index() as int;
                assert(all.take(done + 1).drop_last() == all.take(done));
                assert(all.take(done + 1).last() == entry);
            }
            self.log.insert(entry.log_id.index, entry);
        }
        proof {
            assert(all.take(all.len() as int) =~= all);
        }
    }

    /// Takes out the entries at some indices: those from a given one on, or those
    /// up to it.
    fn take_out(&mut self, index: u64, upward: bool)
        ensures
            final(self)@ == (LogView {
                log: only(
                    old(self)@.log,
                    |k: u64|
                        if upward {
                            k < index
                        } else {
                            k > index
                        },
                ),
                ..old(self)@
            }),
    {
        let mut gone: Vec<u64> = Vec::new();
        let n: usize = self.log.len();
        let ghost keys = self.log.keys();
        let ghost before = self.log@;
        let mut i: usize = 0;
        while i < n
            invariant
                i <= n,
                n == keys.len(),
                keys == self.log.keys(),
                before == self.log@,
                self@ == old(self)@,
                keys_in_order::<u64, Entry>(keys, before),
                forall|j: int|
                    0 <= j < i ==> (gone@.contains(#[trigger] keys[j]) <==> (if upward {
                        keys[j] >= index
                    } else {
                        keys[j] <= index
                    })),
                forall|j: int|
                    0 <= j < gone@.len() ==> if upward {
                        #[trigger] gone@[j] >= index
                    } else {
                        gone@[j] <= index
                    },
            decreases n - i,
        {
            let key: u64 = *self.log.key_at(i);
            let ghost old_gone = gone@;
            if (upward && key >= index) || (!upward && key <= index) {
                gone.push(key);
                proof {
                    assert(gone@[old_gone.len() as int] == key);
                    assert forall|j: int| 0 <= j < i implies (gone@.contains(#[trigger] keys[j])
                        <==> (if upward {
                        keys[j] >= index
                    } else {
                        keys[j] <= index
                    })) by {
                        assert(keys[j] < keys[i as int]);
                        if old_gone.contains(keys[j]) {
                            let k = choose|k: int|
                                0 <= k < old_gone.len() && old_gone[k] == keys[j];
                            assert(gone@[k] == keys[j]);
                        }
                    }
                }
            }
            i += 1;
        }
        let mut k: usize = 0;
        while k < gone.len()
            invariant
                k <= gone@.len(),
                self.last_purged_log_id == old(self).last_purged_log_id,
                self.committed == old(self).committed,
                self.vote == old(self).vote,
                forall|o: u64| #[trigger]
                    self.log@.contains_key(o) <==> before.contains_key(o) && !gone@.take(
                        k as int,
                    ).contains(o),
                forall|o: u64| #[trigger] self.log@.contains_key(o) ==> self.log@[o] == before[o],
            decreases gone@.len() - k,
        {
            let key: u64 = gone[k];
            self.log.remove(&key);
            proof {
                let head = gone@.take(k as int);
                let next = gone@.take(k + 1);
                assert(next =~= head.push(key));
                assert forall|o: u64| next.contains(o) <==> head.contains(o) || o == key by {
                    if head.contains(o) {
                        let j = choose|j: int| 0 <= j < head.len() && head[j] == o;
                        assert(next[j] == o);
                    }
                    if o == key {
                        assert(next[k as int] == o);
                    }
                }
            }
            k += 1;
        }
        proof {
            assert(gone@.take(k as int) =~= gone@);
            let p = |k: u64|
                if upward {
                    k < index
                } else {
                    k > index
                };
            assert forall|o: u64| #[trigger] self.log@.contains_key(o) <==> only(
                before,
                p,
            ).contains_key(o) by {
                if before.contains_key(o) {
                    let j = choose|j: int| 0 <= j < keys.len() && #[trigger] keys[j] == o;
                    assert(gone@.contains(keys[j]) <==> !p(o));
                }
            }
            assert(self.log@ =~= only(before, p));
        }
    }

    /// Forgets the entries from a given one on.
    pub fn truncate(&mut self, log_id: LogId)
        ensures
            final(self)@ == truncated(old(self)@, log_id),
    {
        self.take_out(log_id.index, true);
        proof {
            assert(self@.log =~= only(old(self)@.log, |k: u64| k < log_id.index));
        }
    }

    /// Forgets the entries up to a given one, and keeps which that was.
    pub fn purge(&mut self, log_id: LogId)
        ensures
            final(self)@ == purged(old(self)@, log_id),
    {
        self.last_purged_log_id = Some(log_id);
        self.take_out(log_id.index, false);
        proof {
            assert(self@.log =~= only(old(self)@.log, |k: u64| k > log_id.index));
        }
    }
}

/// What was appended is there: each index holds the last entry that was appended
/// under it.
pub proof fn law_appended_entries_are_kept(log: Map<u64, Entry>, entries: Seq<Entry>, i: int)
    requires
        0 <= i < entries.len(),
        forall|j: int|
            i < j < entries.len() ==> (#[trigger] entries[j]).log_id.index
                != entries[i].log_id.index,
    ensures
        with_entries(log, entries).contains_key(entries[i].log_id.index),
        with_entries(log, entries)[entries[i].log_id.index] == entries[i],
    decreases entries.len(),
{
    if i < entries.len() - 1 {
        let rest = entries.drop_last();
        assert forall|j: int| i < j < rest.len() implies (#[trigger] rest[j]).log_id.index
            != rest[i].log_id.index by {
            assert(entries[j] == rest[j]);
        }
        law_appended_entries_are_kept(log, rest, i);
        assert(entries[entries.len() - 1].log_id.index != entries[i].log_id.index);
    }
}

/// What was not appended to stays as it was.
pub proof fn law_appending_keeps_the_rest(log: Map<u64, Entry>, entries: Seq<Entry>, index: u64)
    requires
        forall|j: int|
            0 <= j < entries.len() ==> (#[trigger] entries[j]).log_id.index != index,
    ensures
        with_entries(log, entries).contains_key(index) <==> log.contains_key(index),
        log.contains_key(index) ==> with_entries(log, entries)[index] == log[index],
    decreases entries.len(),
{
    if entries.len() > 0 {
        let rest = entries.drop_last();
        assert forall|j: int| 0 <= j < rest.len() implies (#[trigger] rest[j]).log_id.index
            != index by {
            assert(entries[j] == rest[j]);
        }
        law_appending_keeps_the_rest(log, rest, index);
        assert(entries[entries.len() - 1].log_id.index != index);
    }
}

/// What is appended replaces what stood at the same indices and leaves all others. What is
/// cut off begins at the index given, and the entry there goes too; what is purged ends at
/// the index given, that entry included, and is remembered as the last. Votes and what is
/// committed are as they were last said. Each changes nothing else.
pub proof fn law_logs_change_as_they_are_told(
    log: LogView,
    entries: Seq<Entry>,
    log_id: LogId,
    vote: Vote,
    committed: Option<LogId>,
    k: u64,
)
    ensures
        ({
            let cut = truncated(log, log_id);
            &&& cut.log.contains_key(k) <==> log.log.contains_key(k) && k < log_id.index
            &&& cut.log.contains_key(k) ==> cut.log[k] == log.log[k]
            &&& cut.last_purged_log_id == log.last_purged_log_id
            &&& cut.committed == log.committed
            &&& cut.vote == log.vote
        }),
        ({
            let cut = purged(log, log_id);
            &&& cut.log.contains_key(k) <==> log.log.contains_key(k) && k > log_id.index
            &&& cut.log.contains_key(k) ==> cut.log[k] == log.log[k]
            &&& cut.last_purged_log_id == Some(log_id)
            &&& cut.committed == log.committed
            &&& cut.vote == log.vote
        }),
        ({
            let more = appended(log, entries);
            &&& more.log.contains_key(k) <==> log.log.contains_key(k) || exists|i: int|
                0 <= i < entries.len() && (#[trigger] entries[i]).log_id.index == k
            &&& more.log.contains_key(k) ==> more.log[k] == log.log[k] || exists|i: int|
                0 <= i < entries.len() && (#[trigger] entries[i]).log_id.index == k && more.log[k]
                    == entries[i]
            &&& more.last_purged_log_id == log.last_purged_log_id
            &&& more.committed == log.committed
            &&& more.vote == log.vote
        }),
        ({
            let voted = with_vote(log, vote);
            &&& voted.vote == Some(vote)
            &&& voted.log == log.log
            &&& voted.last_purged_log_id == log.last_purged_log_id
            &&& voted.committed == log.committed
        }),
        ({
            let told = with_committed(log, committed);
            &&& told.committed == committed
            &&& told.log == log.log
            &&& told.last_purged_log_id == log.last_purged_log_id
            &&& told.vote == log.vote
        }),
{
    lemma_appended_to(log.log, entries, k);
}

/// Where entries were appended under an index there is one of them, and elsewhere there is
/// what there was.
proof fn lemma_appended_to(log: Map<u64, Entry>, entries: Seq<Entry>, k: u64)
    ensures
        ({
            let more = with_entries(log, entries);
            &&& more.contains_key(k) <==> log.contains_key(k) || exists|i: int|
                0 <= i < entries.len() && (#[trigger] entries[i]).log_id.index == k
            &&& more.contains_key(k) ==> more[k] == log[k] || exists|i: int|
                0 <= i < entries.len() && (#[trigger] entries[i]).log_id.index == k && more[k]
                    == entries[i]
        }),
    decreases entries.len(),
{
    if entries.len() > 0 {
        let rest = entries.drop_last();
        let n = entries.len() - 1;
        let more = with_entries(log, entries);
        lemma_appended_to(log, rest, k);
        if entries[n].log_id.index != k {
            if exists|i: int| 0 <= i < rest.len() && (#[trigger] rest[i]).log_id.index == k {
                let i = choose|i: int|
                    0 <= i < rest.len() && (#[trigger] rest[i]).log_id.index == k;
                assert(entries[i].log_id.index == k);
            }
            if exists|i: int|
                0 <= i < rest.len() && (#[trigger] rest[i]).log_id.index == k && more[k]
                    == rest[i] {
                let i = choose|i: int|
                    0 <= i < rest.len() && (#[trigger] rest[i]).log_id.index == k && more[k]
                        == rest[i];
                assert(entries[i].log_id.index == k && more[k] == entries[i]);
            }
            if exists|i: int| 0 <= i < entries.len() && (#[trigger] entries[i]).log_id.index == k {
                let i = choose|i: int|
                    0 <= i < entries.len() && (#[trigger] entries[i]).log_id.index == k;
                assert(rest[i].log_id.index == k);
            }
        }
    }
}

/// An entry stands in a log at an index that is from one on and before another, if there
/// is another.
pub open spec fn is_read_at(
    store: LogStore,
    from: u64,
    to: Option<u64>,
    entry: Entry,
    j: u64,
) -> bool {
    &&& from <= j
    &&& to is None || j < to->0
    &&& store.log.keys().contains(j)
    &&& entry == store@.log[j]
}

/// An entry stands in a log from an index on and before another.
pub open spec fn is_read(store: LogStore, from: u64, to: Option<u64>, entry: Entry) -> bool {
    exists|j: u64| is_read_at(store, from, to, entry, j)
}

/// Reading a log from an index on, up to another, gives the entries at those indices, the
/// first one included and the last one not, and no others, each at its index.
pub proof fn law_logs_are_read_from_and_up_to(
    store: LogStore,
    from: u64,
    to: Option<u64>,
    read: Vec<&Entry>,
    k: u64,
)
    requires
        call_ensures(LogStore::try_get_log_entries, (&store, from, to), read),
        store.log.keys().contains(k),
    ensures
        from <= k && (to is None || k < to->0) ==> read@.contains(&store@.log[k]),
        forall|i: int|
            0 <= i < read@.len() ==> is_read(store, from, to, *(#[trigger] read@[i])),
{
    broadcast use vstd::seq_lib::group_filter_ensures;

    let p = is_between(from, to);
    let all = store.log.keys();
    let some = all.filter(p);
    assert(read@ == some.map_values(|k: u64| &store@.log[k]));
    if from <= k && (to is None || k < to->0) {
        let i = choose|i: int| 0 <= i < all.len() && all[i] == k;
        assert(p(all[i]));
        assert(some.contains(all[i]));
        let j = choose|j: int| 0 <= j < some.len() && some[j] == k;
        assert(read@[j] == &store@.log[k]);
    }
    assert forall|i: int| 0 <= i < read@.len() implies is_read(
        store,
        from,
        to,
        *(#[trigger] read@[i]),
    ) by {
        let j = some[i];
        assert(p(some[i]));
        assert(some.contains(j));
        all.lemma_filter_contains_rev(p, j);
        assert(is_read_at(store, from, to, *read@[i], j));
    }
}

/// A log ends with the entry of its highest index, or where it has none with the last that
/// was purged; and one that was read is what was recorded, if its format is known.
pub proof fn law_logs_say_where_they_end(
    store: LogStore,
    said: LogState,
    k: u64,
    read: FileRead<PersistedLog>,
    path: &'static str,
    opened: Result<LogStore, IoFailure>,
)
    requires
        call_ensures(LogStore::get_log_state, (&store,), said),
        call_ensures(LogStore::open, (read, path), opened),
    ensures
        said.last_purged_log_id == store@.last_purged_log_id,
        store@.log.contains_key(k) && (forall|j: u64| #[trigger]
            store@.log.contains_key(j) ==> j <= k) ==> said.last_log_id == Some(
            store@.log[k].log_id,
        ),
        store@.log.dom().len() == 0 ==> said.last_log_id == store@.last_purged_log_id,
        opened is Ok <==> read is Missing || (read is Decoded && read->Decoded_0.version == 1),
        opened matches Ok(log) ==> match read {
            FileRead::Decoded(persisted) => {
                &&& log@.log == persisted.log@
                &&& log@.last_purged_log_id == persisted.last_purged_log_id
                &&& log@.committed == persisted.committed
                &&& log@.vote == persisted.vote
            },
            _ => {
                &&& log@.log == Map::<u64, Entry>::empty()
                &&& log@.last_purged_log_id is None
                &&& log@.committed is None
                &&& log@.vote is None
            },
        },
{
    if store@.log.contains_key(k) && (forall|j: u64| #[trigger]
        store@.log.contains_key(j) ==> j <= k) {
        assert(is_last_entry(store@.log, k));
    }
}

} // verus!
