//! The identity of a replicated log entry.

use vstd::prelude::*;

use crate::text::decimal;

verus! {

/// The number of a node of the cluster.
pub type NodeId = u64;

/// The identity of a log entry: the leader that proposed it, by its term and
/// node, and the place of the entry in the log.
#[derive(Clone, Copy, Debug, PartialEq, Eq, Structural)]
pub struct LogId {
    pub term: u64,
    pub node_id: NodeId,
    pub index: u64,
}

/// The text of a log identity: its term, its node and its index.
pub open spec fn log_id_view(id: LogId) -> Seq<char> {
    seq!['T'] + decimal(id.term as nat) + seq!['-', 'N'] + decimal(id.node_id as nat) + seq!['-']
        + decimal(id.index as nat)
}

/// Calls `openraft::LogId::to_string`, on a log identity that
/// `openraft::CommittedLeaderId::new` and `openraft::LogId::new` make. Trusted:
/// the text is `T`, the term, `-N`, the node, `-` and the index, each number in
/// decimal.
#[verifier::external_body]
pub(crate) fn log_id_text(id: LogId) -> (r: String)
    ensures
        r@ == log_id_view(id),
{
    let leader = openraft::CommittedLeaderId::<u64>::new(id.term, id.node_id);
    openraft::LogId::<u64>::new(leader, id.index).to_string()
}

/// Whether a log entry comes after another: in a later term, or in the same
/// term at a higher index.
pub open spec fn log_after(candidate: LogId, current: LogId) -> bool {
    candidate.term > current.term || (candidate.term == current.term && candidate.index
        > current.index)
}

/// Whether a log entry comes after another.
pub fn is_log_after(candidate: LogId, current: LogId) -> (r: bool)
    ensures
        r == log_after(candidate, current),
{
    candidate.term > current.term || (candidate.term == current.term && candidate.index
        > current.index)
}

/// Whether there is a candidate, and it comes after what there is.
pub open spec fn optional_log_after(candidate: Option<LogId>, current: Option<LogId>) -> bool {
    match (candidate, current) {
        (Some(candidate), Some(current)) => log_after(candidate, current),
        (Some(_), None) => true,
        (None, _) => false,
    }
}

/// Whether there is a candidate, and it comes after what there is.
pub fn is_optional_log_after(candidate: Option<LogId>, current: Option<LogId>) -> (r: bool)
    ensures
        r == optional_log_after(candidate, current),
{
    match (candidate, current) {
        (Some(candidate), Some(current)) => is_log_after(candidate, current),
        (Some(_), None) => true,
        (None, _) => false,
    }
}

/// Of two log entries the one of the higher term comes after the other, and within a term
/// the one of the higher index. Nothing comes after itself or before what it comes after,
/// and whatever there is comes after nothing at all.
pub proof fn law_log_entries_come_in_order(a: LogId, b: LogId, c: LogId)
    ensures
        a.term > b.term ==> log_after(a, b),
        a.term == b.term ==> (log_after(a, b) <==> a.index > b.index),
        log_after(a, b) ==> !log_after(b, a),
        log_after(a, b) && log_after(b, c) ==> log_after(a, c),
        log_after(a, b) || log_after(b, a) || (a.term == b.term && a.index == b.index),
        optional_log_after(Some(a), Some(b)) <==> log_after(a, b),
        optional_log_after(Some(a), None),
        !optional_log_after(None, Some(a)),
        !optional_log_after(None, None),
{
}

} // verus!
