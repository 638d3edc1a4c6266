//! What the replicated log carries.

use vstd::prelude::*;

use crate::log_id::{LogId, NodeId};
use crate::state_machine::Command;

verus! {

/// The voters of a cluster, one set for each of the configurations that hold at
/// once, and the addresses of its nodes.
#[derive(Debug, PartialEq, Eq)]
pub struct Membership {
    pub configs: Vec<Vec<NodeId>>,
    pub nodes: Vec<(NodeId, String)>,
}

/// What a membership says.
#[verifier::ext_equal]
pub struct MembershipView {
    pub configs: Seq<Seq<NodeId>>,
    pub nodes: Seq<(NodeId, Seq<char>)>,
}

impl View for Membership {
    type V = MembershipView;

    open spec fn view(&self) -> MembershipView {
        MembershipView {
            configs: self.configs@.map_values(|c: Vec<NodeId>| c@),
            nodes: self.nodes@.map_values(|n: (NodeId, String)| (n.0, n.1@)),
        }
    }
}

impl Membership {
    /// A membership of nobody.
    pub fn empty() -> (r: Self)
        ensures
            r@ == (MembershipView { configs: Seq::empty(), nodes: Seq::empty() }),
    {
        let r = Membership { configs: Vec::new(), nodes: Vec::new() };
        proof {
            assert(r@.configs =~= Seq::<Seq<NodeId>>::empty());
            assert(r@.nodes =~= Seq::<(NodeId, Seq<char>)>::empty());
        }
        r
    }

    /// A copy of this membership.
    pub fn copy(&self) -> (r: Self)
        ensures
            r@ == self@,
    {
        let mut configs: Vec<Vec<NodeId>> = Vec::new();
        let mut i: usize = 0;
        while i < self.configs.len()
            invariant
                i <= self.configs@.len(),
                configs@.len() == i,
                forall|j: int| 0 <= j < i ==> (#[trigger] configs@[j])@ == self.configs@[j]@,
            decreases self.configs@.len() - i,
        {
            let config = self.configs[i].clone();
            proof {
                assert(config@ =~= self.configs@[i as int]@);
            }
            configs.push(config);
            i += 1;
        }
        let mut nodes: Vec<(NodeId, String)> = Vec::new();
        let mut k: usize = 0;
        while k < self.nodes.len()
            invariant
                k <= self.nodes@.len(),
                nodes@.len() == k,
                forall|j: int|
                    0 <= j < k ==> (#[trigger] nodes@[j]).0 == self.nodes@[j].0 && nodes@[j].1@
                        == self.nodes@[j].1@,
            decreases self.nodes@.len() - k,
        {
            nodes.push((self.nodes[k].0, self.nodes[k].1.clone()));
            k += 1;
        }
        let r = Membership { configs, nodes };
        proof {
            assert(r@.configs =~= self@.configs);
            assert(r@.nodes =~= self@.nodes);
        }
        r
    }
}

/// A membership and the log entry that brought it.
#[derive(Debug, PartialEq, Eq)]
pub struct StoredMembership {
    pub log_id: Option<LogId>,
    pub membership: Membership,
}

/// What a stored membership says.
#[verifier::ext_equal]
pub struct StoredMembershipView {
    pub log_id: Option<LogId>,
    pub membership: MembershipView,
}

impl View for StoredMembership {
    type V = StoredMembershipView;

    open spec fn view(&self) -> StoredMembershipView {
        StoredMembershipView { log_id: self.log_id, membership: self.membership@ }
    }
}

/// The membership before any log entry.
pub open spec fn no_membership() -> StoredMembershipView {
    StoredMembershipView {
        log_id: None,
        membership: MembershipView { configs: Seq::empty(), nodes: Seq::empty() },
    }
}

impl StoredMembership {
    /// A copy of this membership.
    pub fn copy(&self) -> (r: Self)
        ensures
            r@ == self@,
    {
        StoredMembership { log_id: self.log_id, membership: self.membership.copy() }
    }
}

impl Default for StoredMembership {
    fn default() -> (r: Self)
        ensures
            r@ == no_membership(),
    {
        StoredMembership { log_id: None, membership: Membership::empty() }
    }
}

/// What a log entry brings.
#[derive(Debug)]
pub enum EntryPayload {
    Blank,
    Normal(Command),
    Membership(Membership),
}

/// An entry of the replicated log.
#[derive(Debug)]
pub struct Entry {
    pub log_id: LogId,
    pub payload: EntryPayload,
}

impl View for Entry {
    type V = Entry;

    open spec fn view(&self) -> Entry {
        *self
    }
}

/// What a snapshot says of itself.
#[derive(Debug, PartialEq, Eq)]
pub struct SnapshotMeta {
    pub last_log_id: Option<LogId>,
    pub last_membership: StoredMembership,
    pub snapshot_id: String,
}

/// What the description of a snapshot says.
#[verifier::ext_equal]
pub struct SnapshotMetaView {
    pub last_log_id: Option<LogId>,
    pub last_membership: StoredMembershipView,
    pub snapshot_id: Seq<char>,
}

impl View for SnapshotMeta {
    type V = SnapshotMetaView;

    open spec fn view(&self) -> SnapshotMetaView {
        SnapshotMetaView {
            last_log_id: self.last_log_id,
            last_membership: self.last_membership@,
            snapshot_id: self.snapshot_id@,
        }
    }
}

/// A vote for a leader.
#[derive(Clone, Copy, Debug, PartialEq, Eq, Structural)]
pub struct Vote {
    pub term: u64,
    pub node_id: NodeId,
    pub committed: bool,
}

} // verus!
