//! Bringing an operation to the leader.

use vstd::prelude::*;

use crate::engine::{AckResult, BrokerError, Offset, PollResult, ReplayMessage};
use crate::dispatch::EngineFailure;
use crate::keyed::SortedMap;
use crate::log_id::NodeId;
use crate::network::inbound::{forwarded_answer, LocalOutcome};
use crate::network::{forward_error_to_broker, received_error, ForwardError, ForwardedResponse};
use crate::storage::is_cluster_error;
use crate::text::{decimal, decimal_text, join3};

verus! {

/// How often the nodes are tried in turn before an operation is given up.
pub const FORWARD_ATTEMPTS: usize = 3;

/// How long a node may take to answer, in seconds.
pub const FORWARD_TIMEOUT_SECS: u64 = 2;

/// Who the leader is, where a node says that it is not the leader itself: no
/// answer where the node did not say that, and none inside where it does not
/// know.
pub open spec fn leader_in(response: ForwardedResponse) -> Option<Option<NodeId>> {
    match response {
        ForwardedResponse::CreateStream(Err(ForwardError::NotLeader { leader_id })) => Some(
            leader_id,
        ),
        ForwardedResponse::Publish(Err(ForwardError::NotLeader { leader_id })) => Some(leader_id),
        ForwardedResponse::Poll(Err(ForwardError::NotLeader { leader_id })) => Some(leader_id),
        ForwardedResponse::Replay(Err(ForwardError::NotLeader { leader_id })) => Some(leader_id),
        ForwardedResponse::Ack(Err(ForwardError::NotLeader { leader_id })) => Some(leader_id),
        ForwardedResponse::PollGroup(Err(ForwardError::NotLeader { leader_id })) => Some(
            leader_id,
        ),
        ForwardedResponse::AckGroup(Err(ForwardError::NotLeader { leader_id })) => Some(leader_id),
        _ => None,
    }
}

/// Who the leader is, where a node says that it is not the leader itself.
pub fn forwarded_leader(response: &ForwardedResponse) -> (r: Option<Option<NodeId>>)
    ensures
        r == leader_in(*response),
{
    match response {
        ForwardedResponse::CreateStream(Err(ForwardError::NotLeader { leader_id })) => Some(
            *leader_id,
        ),
        ForwardedResponse::Publish(Err(ForwardError::NotLeader { leader_id })) => Some(*leader_id),
        ForwardedResponse::Poll(Err(ForwardError::NotLeader { leader_id })) => Some(*leader_id),
        ForwardedResponse::Replay(Err(ForwardError::NotLeader { leader_id })) => Some(*leader_id),
        ForwardedResponse::Ack(Err(ForwardError::NotLeader { leader_id })) => Some(*leader_id),
        ForwardedResponse::PollGroup(Err(ForwardError::NotLeader { leader_id })) => Some(
            *leader_id,
        ),
        ForwardedResponse::AckGroup(Err(ForwardError::NotLeader { leader_id })) => Some(
            *leader_id,
        ),
        _ => None,
    }
}

/// Whether a node is neither this one nor the one that is taken to lead.
pub open spec fn is_other(node_id: NodeId, leader_id: Option<NodeId>) -> spec_fn(NodeId) -> bool {
    |target: NodeId| target != node_id && leader_id != Some(target)
}

/// The nodes to try, in order: the one that is taken to lead, then the others;
/// never this node itself.
pub open spec fn candidates(
    peers: Seq<NodeId>,
    node_id: NodeId,
    leader_id: Option<NodeId>,
) -> Seq<NodeId> {
    if leader_id is Some && leader_id != Some(node_id) {
        seq![leader_id->Some_0] + peers.filter(is_other(node_id, leader_id))
    } else {
        peers.filter(is_other(node_id, None))
    }
}

/// What is to be done next to bring an operation to the leader.
#[derive(Debug)]
pub enum ForwardAction {
    FindLeader,
    Send { target: NodeId, address: String },
    Fail(BrokerError),
}

/// What is to be done next, as it is specified.
#[verifier::ext_equal]
pub enum ForwardActionView {
    FindLeader,
    Send { target: NodeId, address: Seq<char> },
    Fail { message: Seq<char> },
}

/// Whether an action is what is specified.
pub open spec fn is_action(action: ForwardAction, view: ForwardActionView) -> bool {
    match view {
        ForwardActionView::FindLeader => action is FindLeader,
        ForwardActionView::Send { target, address } => action matches ForwardAction::Send {
            target: t,
            address: a,
        } && t == target && a@ == address,
        ForwardActionView::Fail { message } => action matches ForwardAction::Fail(error)
            && is_cluster_error(error, message),
    }
}

/// An operation on its way to the leader: the nodes that are still to be tried in
/// this round, the rounds that were begun, who was last said to lead, and what
/// last went wrong.
#[derive(Debug)]
pub struct Forwarding {
    pub node_id: NodeId,
    pub peers: SortedMap<u64, String>,
    pub rounds: usize,
    pub pending: Vec<NodeId>,
    pub hint: Option<NodeId>,
    pub last_error: Option<String>,
}

/// How far an operation has come.
#[verifier::ext_equal]
pub struct ForwardingView {
    pub node_id: NodeId,
    pub peers: Map<u64, Seq<char>>,
    pub order: Seq<NodeId>,
    pub rounds: nat,
    pub pending: Seq<NodeId>,
    pub hint: Option<NodeId>,
    pub last_error: Option<Seq<char>>,
}

impl View for Forwarding {
    type V = ForwardingView;

    open spec fn view(&self) -> ForwardingView {
        ForwardingView {
            node_id: self.node_id,
            peers: self.peers@,
            order: self.peers.keys(),
            rounds: self.rounds as nat,
            pending: self.pending@,
            hint: self.hint,
            last_error: self.last_error.deep_view(),
        }
    }
}

/// What is said of a node without an address.
pub open spec fn no_address_text(target: NodeId) -> Seq<char> {
    "leader node "@ + decimal(target as nat) + " has no configured address"@
}

/// What is to be done next, and how far the operation is then. The nodes of a
/// round are tried in turn, those without an address being passed over; then a
/// new round begins, with whoever was last said to lead or with a look for the
/// leader; and after the last round the operation fails with what last went
/// wrong.
pub open spec fn next_action(f: ForwardingView) -> (ForwardingView, ForwardActionView)
    decreases FORWARD_ATTEMPTS - f.rounds, f.pending.len(),
{
    if f.pending.len() > 0 {
        let target = f.pending[0];
        let rest = ForwardingView { pending: f.pending.drop_first(), ..f };
        if f.peers.contains_key(target) {
            (rest, ForwardActionView::Send { target, address: f.peers[target] })
        } else {
            next_action(ForwardingView { last_error: Some(no_address_text(target)), ..rest })
        }
    } else if f.rounds >= FORWARD_ATTEMPTS {
        (
            f,
            ForwardActionView::Fail {
                message: match f.last_error {
                    Some(error) => error,
                    None => "cluster has no elected leader"@,
                },
            },
        )
    } else {
        let begun = ForwardingView { rounds: f.rounds + 1, hint: None, ..f };
        match f.hint {
            Some(leader) => next_action(
                ForwardingView { pending: candidates(f.order, f.node_id, Some(leader)), ..begun },
            ),
            None => (begun, ForwardActionView::FindLeader),
        }
    }
}

/// How far an operation is once a node has answered it, and the answer if it is
/// one to keep.
pub open spec fn after_reply(
    f: ForwardingView,
    outcome: Result<ForwardedResponse, String>,
) -> (ForwardingView, Option<ForwardedResponse>) {
    match outcome {
        Err(error) => (
            ForwardingView {
                last_error: Some("leader forwarding failed: "@ + error@),
                ..f
            },
            None,
        ),
        Ok(response) => match leader_in(response) {
            Some(Some(leader)) => (ForwardingView { hint: Some(leader), ..f }, None),
            Some(None) => (
                ForwardingView { last_error: Some("peer has no elected leader"@), ..f },
                None,
            ),
            None => (f, Some(response)),
        },
    }
}

impl Forwarding {
    /// An operation that sets out, with whoever is taken to lead.
    pub fn new(
        node_id: NodeId,
        peers: SortedMap<u64, String>,
        leader_id: Option<NodeId>,
    ) -> (r: Self)
        ensures
            r@ == (ForwardingView {
                node_id,
                peers: peers@,
                order: peers.keys(),
                rounds: 0,
                pending: Seq::empty(),
                hint: leader_id,
                last_error: None,
            }),
    {
        Forwarding {
            node_id,
            peers,
            rounds: 0,
            pending: Vec::new(),
            hint: leader_id,
            last_error: None,
        }
    }

    /// The nodes to try, in order.
    fn candidates_for(&self, leader_id: Option<NodeId>) -> (r: Vec<NodeId>)
        ensures
            r@ == candidates(self.peers.keys(), self.node_id, leader_id),
    {
        let ghost keys = self.peers.keys();
        let leader: Option<NodeId> = match leader_id {
            Some(leader) => if leader == self.node_id {
                None
            } else {
                Some(leader)
            },
            None => None,
        };
        let ghost p = is_other(self.node_id, leader);
        let ghost first = match leader {
            Some(l) => seq![l],
            None => Seq::empty(),
        };
        let mut found: Vec<NodeId> = Vec::new();
        if let Some(leader) = leader {
            found.push(leader);
        }
        proof {
            assert(keys.take(0).filter(p) =~= Seq::empty());
            assert(found@ =~= first + keys.take(0).filter(p));
        }
        let n: usize = self.peers.len();
        let mut i: usize = 0;
        while i < n
            invariant
                i <= n,
                n == keys.len(),
                keys == self.peers.keys(),
                p == is_other(self.node_id, leader),
                found@ == first + keys.take(i as int).filter(p),
            decreases n - i,
        {
            let target: u64 = *self.peers.key_at(i);
            proof {
                assert(keys.take(i + 1) =~= keys.take(i as int).push(target));
                keys.take(i as int).lemma_filter_push(target, p);
            }
            let wanted = target != self.node_id && match leader {
                Some(leader) => target != leader,
                None => true,
            };
            if wanted {
                found.push(target);
            }
            proof {
                assert(found@ =~= first + keys.take(i + 1).filter(p));
            }
            i += 1;
        }
        proof {
            assert(keys.take(i as int) =~= keys);
            if leader is None {
                assert(first + keys.filter(p) =~= keys.filter(p));
            }
        }
        found
    }

    /// What is to be done next.
    pub fn next(&mut self) -> (r: ForwardAction)
        ensures
            ({
                let (after, action) = next_action(old(self)@);
                final(self)@ == after && is_action(r, action)
            }),
    {
        loop
            invariant
                next_action(self@) == next_action(old(self)@),
            decreases
                    (if self.rounds < FORWARD_ATTEMPTS {
                        FORWARD_ATTEMPTS - self.rounds
                    } else {
                        0
                    }),
                    self.pending@.len(),
        {
            if self.pending.len() > 0 {
                let ghost before = self@;
                let target: u64 = self.pending.remove(0);
                proof {
                    assert(self.pending@ =~= before.pending.drop_first());
                }
                match self.peers.get(&target) {
                    Some(address) => {
                        return ForwardAction::Send { target, address: address.clone() };
                    },
                    None => {
                        self.last_error = Some(
                            join3(
                                "leader node ",
                                decimal_text(target).as_str(),
                                " has no configured address",
                            ),
                        );
                    },
                }
            } else if self.rounds >= FORWARD_ATTEMPTS {
                let message = match &self.last_error {
                    Some(error) => error.clone(),
                    None => "cluster has no elected leader".to_owned(),
                };
                return ForwardAction::Fail(BrokerError::Cluster(message));
            } else {
                self.rounds = self.rounds + 1;
                match self.hint.take() {
                    Some(leader) => {
                        self.pending = self.candidates_for(Some(leader));
                    },
                    None => {
                        return ForwardAction::FindLeader;
                    },
                }
            }
        }
    }

    /// Takes in who leads, so far as that is known here.
    pub fn leader_found(&mut self, leader_id: Option<NodeId>)
        ensures
            final(self)@ == (ForwardingView {
                pending: candidates(old(self)@.order, old(self)@.node_id, leader_id),
                ..old(self)@
            }),
    {
        self.pending = self.candidates_for(leader_id);
    }

    /// Takes in what a node answered, and gives it back if it is to be kept: a
    /// node that does not lead says who does, and a failure is remembered.
    pub fn reply(&mut self, outcome: Result<ForwardedResponse, String>) -> (r: Option<
        ForwardedResponse,
    >)
        ensures
            (final(self)@, r) == after_reply(old(self)@, outcome),
    {
        match outcome {
            Err(error) => {
                let message = join3("leader forwarding failed: ", error.as_str(), "");
                proof {
                    reveal_strlit("");
                    assert(message@ =~= "leader forwarding failed: "@ + error@);
                }
                self.last_error = Some(message);
                None
            },
            Ok(response) => match forwarded_leader(&response) {
                Some(Some(leader)) => {
                    self.hint = Some(leader);
                    None
                },
                Some(None) => {
                    self.last_error = Some("peer has no elected leader".to_owned());
                    None
                },
                None => Some(response),
            },
        }
    }
}

/// No candidate is this node itself, and every other node is one.
pub proof fn law_candidates_are_the_other_nodes(
    peers: Seq<NodeId>,
    node_id: NodeId,
    leader_id: Option<NodeId>,
    target: NodeId,
)
    ensures
        candidates(peers, node_id, leader_id).contains(target) <==> target != node_id && (
        peers.contains(target) || leader_id == Some(target)),
{
    let all = candidates(peers, node_id, leader_id);
    if leader_id is Some && leader_id != Some(node_id) {
        let q = is_other(node_id, leader_id);
        let rest = peers.filter(q);
        filter_contains(peers, q, target);
        assert(all[0] == leader_id->Some_0);
        if rest.contains(target) {
            let i = choose|i: int| 0 <= i < rest.len() && rest[i] == target;
            assert(all[i + 1] == target);
        }
        if all.contains(target) && leader_id != Some(target) {
            let i = choose|i: int| 0 <= i < all.len() && all[i] == target;
            assert(rest[i - 1] == target);
        }
    } else {
        filter_contains(peers, is_other(node_id, None), target);
    }
}

/// What a filter keeps is what has its property.
pub(crate) proof fn filter_contains(s: Seq<NodeId>, p: spec_fn(NodeId) -> bool, x: NodeId)
    ensures
        s.filter(p).contains(x) <==> s.contains(x) && p(x),
    decreases s.len(),
{
    reveal(Seq::filter);
    if s.len() > 0 {
        let rest = s.drop_last();
        filter_contains(rest, p, x);
        let kept = rest.filter(p);
        if s.contains(x) && x != s.last() {
            let i = choose|i: int| 0 <= i < s.len() && s[i] == x;
            assert(rest[i] == x);
        }
        if rest.contains(x) {
            let i = choose|i: int| 0 <= i < rest.len() && rest[i] == x;
            assert(s[i] == x);
        }
        if x == s.last() {
            assert(s[s.len() - 1] == x);
        }
        if p(s.last()) {
            assert(s.filter(p) == kept.push(s.last()));
            if kept.contains(x) {
                let i = choose|i: int| 0 <= i < kept.len() && kept[i] == x;
                assert(kept.push(s.last())[i] == x);
            }
            if x == s.last() {
                assert(kept.push(s.last())[kept.len() as int] == x);
            }
            if s.filter(p).contains(x) && x != s.last() {
                let i = choose|i: int| 0 <= i < s.filter(p).len() && s.filter(p)[i] == x;
                assert(kept[i] == x);
            }
        } else {
            assert(s.filter(p) == kept);
        }
    }
}

/// Rounds are only begun while any are left: an operation is never tried in more
/// rounds than there are attempts, and one that has used them all up and has
/// nobody left to try fails.
pub proof fn law_forwarding_ends(f: ForwardingView)
    requires
        f.rounds <= FORWARD_ATTEMPTS,
    ensures
        f.rounds <= next_action(f).0.rounds <= FORWARD_ATTEMPTS,
        f.rounds == FORWARD_ATTEMPTS ==> !(next_action(f).1 is FindLeader),
        f.rounds == FORWARD_ATTEMPTS && f.pending.len() == 0 ==> next_action(f).1 is Fail,
        next_action(f).1 is Send ==> next_action(f).0.rounds > f.rounds
            || next_action(f).0.pending.len() < f.pending.len(),
    decreases FORWARD_ATTEMPTS - f.rounds, f.pending.len(),
{
    if f.pending.len() > 0 {
        let target = f.pending[0];
        if !f.peers.contains_key(target) {
            law_forwarding_ends(
                ForwardingView {
                    last_error: Some(no_address_text(target)),
                    pending: f.pending.drop_first(),
                    ..f
                },
            );
        }
    } else if f.rounds < FORWARD_ATTEMPTS {
        if let Some(leader) = f.hint {
            law_forwarding_ends(
                ForwardingView {
                    rounds: f.rounds + 1,
                    hint: None,
                    pending: candidates(f.order, f.node_id, Some(leader)),
                    ..f
                },
            );
        }
    }
}

/// An operation is sent to a node that is there, and never to this node itself.
pub proof fn law_operations_go_to_other_nodes(f: ForwardingView)
    requires
        forall|i: int| 0 <= i < f.pending.len() ==> #[trigger] f.pending[i] != f.node_id,
    ensures
        next_action(f).1 matches ForwardActionView::Send { target, address } ==> target
            != f.node_id && f.peers.contains_key(target) && address == f.peers[target],
        next_action(f).0.node_id == f.node_id,
        forall|i: int|
            0 <= i < next_action(f).0.pending.len() ==> #[trigger] next_action(f).0.pending[i]
                != f.node_id,
    decreases FORWARD_ATTEMPTS - f.rounds, f.pending.len(),
{
    if f.pending.len() > 0 {
        let target = f.pending[0];
        let rest = f.pending.drop_first();
        assert forall|i: int| 0 <= i < rest.len() implies #[trigger] rest[i] != f.node_id by {
            assert(rest[i] == f.pending[i + 1]);
        }
        if !f.peers.contains_key(target) {
            law_operations_go_to_other_nodes(
                ForwardingView {
                    last_error: Some(no_address_text(target)),
                    pending: rest,
                    ..f
                },
            );
        }
    } else if f.rounds < FORWARD_ATTEMPTS {
        if let Some(leader) = f.hint {
            let pending = candidates(f.order, f.node_id, Some(leader));
            assert forall|i: int| 0 <= i < pending.len() implies #[trigger] pending[i]
                != f.node_id by {
                assert(pending.contains(pending[i]));
                law_candidates_are_the_other_nodes(f.order, f.node_id, Some(leader), pending[i]);
            }
            law_operations_go_to_other_nodes(
                ForwardingView { rounds: f.rounds + 1, hint: None, pending, ..f },
            );
        }
    }
}

/// What the leader answered to the creation of a stream.
pub fn create_stream_result(response: ForwardedResponse) -> (r: Result<bool, BrokerError>)
    ensures
        match response {
            ForwardedResponse::CreateStream(Ok(created)) => r == Ok::<bool, BrokerError>(created),
            ForwardedResponse::CreateStream(Err(error)) => r == Err::<bool, BrokerError>(
                received_error(error),
            ),
            _ => r is Err && is_cluster_error(
                r->Err_0,
                "leader returned the wrong create-stream response"@,
            ),
        },
{
    match response {
        ForwardedResponse::CreateStream(Ok(created)) => Ok(created),
        ForwardedResponse::CreateStream(Err(error)) => Err(forward_error_to_broker(error)),
        _ => Err(
            BrokerError::Cluster("leader returned the wrong create-stream response".to_owned()),
        ),
    }
}

/// What the leader answered to a publication.
pub fn publish_result(response: ForwardedResponse) -> (r: Result<Offset, BrokerError>)
    ensures
        match response {
            ForwardedResponse::Publish(Ok(offset)) => r == Ok::<Offset, BrokerError>(offset),
            ForwardedResponse::Publish(Err(error)) => r == Err::<Offset, BrokerError>(
                received_error(error),
            ),
            _ => r is Err && is_cluster_error(
                r->Err_0,
                "leader returned the wrong publish response"@,
            ),
        },
{
    match response {
        ForwardedResponse::Publish(Ok(offset)) => Ok(offset),
        ForwardedResponse::Publish(Err(error)) => Err(forward_error_to_broker(error)),
        _ => Err(BrokerError::Cluster("leader returned the wrong publish response".to_owned())),
    }
}

/// What the leader answered to the poll of a plain consumer.
pub fn poll_result(response: ForwardedResponse) -> (r: Result<PollResult, BrokerError>)
    ensures
        match response {
            ForwardedResponse::Poll(Ok(result)) => r == Ok::<PollResult, BrokerError>(result),
            ForwardedResponse::Poll(Err(error)) => r == Err::<PollResult, BrokerError>(
                received_error(error),
            ),
            _ => r is Err && is_cluster_error(
                r->Err_0,
                "leader returned the wrong poll response"@,
            ),
        },
{
    match response {
        ForwardedResponse::Poll(Ok(result)) => Ok(result),
        ForwardedResponse::Poll(Err(error)) => Err(forward_error_to_broker(error)),
        _ => Err(BrokerError::Cluster("leader returned the wrong poll response".to_owned())),
    }
}

/// What the leader answered to a replay.
pub fn replay_result(response: ForwardedResponse) -> (r: Result<ReplayMessage, BrokerError>)
    ensures
        match response {
            ForwardedResponse::Replay(Ok(message)) => r == Ok::<ReplayMessage, BrokerError>(
                message,
            ),
            ForwardedResponse::Replay(Err(error)) => r == Err::<ReplayMessage, BrokerError>(
                received_error(error),
            ),
            _ => r is Err && is_cluster_error(
                r->Err_0,
                "leader returned the wrong replay response"@,
            ),
        },
{
    match response {
        ForwardedResponse::Replay(Ok(message)) => Ok(message),
        ForwardedResponse::Replay(Err(error)) => Err(forward_error_to_broker(error)),
        _ => Err(BrokerError::Cluster("leader returned the wrong replay response".to_owned())),
    }
}

/// What the leader answered to the acknowledgement of a plain consumer.
pub fn ack_result(response: ForwardedResponse) -> (r: Result<AckResult, BrokerError>)
    ensures
        match response {
            ForwardedResponse::Ack(Ok(result)) => r == Ok::<AckResult, BrokerError>(result),
            ForwardedResponse::Ack(Err(error)) => r == Err::<AckResult, BrokerError>(
                received_error(error),
            ),
            _ => r is Err && is_cluster_error(
                r->Err_0,
                "leader returned the wrong acknowledgement response"@,
            ),
        },
{
    match response {
        ForwardedResponse::Ack(Ok(result)) => Ok(result),
        ForwardedResponse::Ack(Err(error)) => Err(forward_error_to_broker(error)),
        _ => Err(
            BrokerError::Cluster("leader returned the wrong acknowledgement response".to_owned()),
        ),
    }
}

/// What the leader answered to the poll of a consumer group.
pub fn poll_group_result(response: ForwardedResponse) -> (r: Result<PollResult, BrokerError>)
    ensures
        match response {
            ForwardedResponse::PollGroup(Ok(result)) => r == Ok::<PollResult, BrokerError>(result),
            ForwardedResponse::PollGroup(Err(error)) => r == Err::<PollResult, BrokerError>(
                received_error(error),
            ),
            _ => r is Err && is_cluster_error(
                r->Err_0,
                "leader returned the wrong grouped poll response"@,
            ),
        },
{
    match response {
        ForwardedResponse::PollGroup(Ok(result)) => Ok(result),
        ForwardedResponse::PollGroup(Err(error)) => Err(forward_error_to_broker(error)),
        _ => Err(
            BrokerError::Cluster("leader returned the wrong grouped poll response".to_owned()),
        ),
    }
}

/// What the leader answered to the acknowledgement of a member of a group.
pub fn ack_group_result(response: ForwardedResponse) -> (r: Result<AckResult, BrokerError>)
    ensures
        match response {
            ForwardedResponse::AckGroup(Ok(result)) => r == Ok::<AckResult, BrokerError>(result),
            ForwardedResponse::AckGroup(Err(error)) => r == Err::<AckResult, BrokerError>(
                received_error(error),
            ),
            _ => r is Err && is_cluster_error(
                r->Err_0,
                "leader returned the wrong grouped acknowledgement response"@,
            ),
        },
{
    match response {
        ForwardedResponse::AckGroup(Ok(result)) => Ok(result),
        ForwardedResponse::AckGroup(Err(error)) => Err(forward_error_to_broker(error)),
        _ => Err(
            BrokerError::Cluster(
                "leader returned the wrong grouped acknowledgement response".to_owned(),
            ),
        ),
    }
}

/// The one that is taken to lead is tried first, unless it is this node; the others follow,
/// each once, in their order.
pub proof fn law_the_leader_is_tried_first(
    peers: Seq<NodeId>,
    node_id: NodeId,
    leader_id: Option<NodeId>,
)
    ensures
        leader_id is Some && leader_id->0 != node_id ==> candidates(
            peers,
            node_id,
            leader_id,
        )[0] == leader_id->0,
        peers.no_duplicates() ==> candidates(peers, node_id, leader_id).no_duplicates(),
{
    let p = is_other(node_id, leader_id);
    let q = is_other(node_id, None);
    if peers.no_duplicates() {
        lemma_filter_keeps_distinct(peers, p);
        lemma_filter_keeps_distinct(peers, q);
        if leader_id is Some && leader_id->0 != node_id {
            let rest = peers.filter(p);
            let all = candidates(peers, node_id, leader_id);
            assert forall|i: int, j: int|
                0 <= i < all.len() && 0 <= j < all.len() && i != j implies all[i] != all[j] by {
                filter_contains(peers, p, leader_id->0);
                if i == 0 {
                    assert(rest.contains(rest[j - 1]));
                } else if j == 0 {
                    assert(rest.contains(rest[i - 1]));
                } else {
                    assert(rest[i - 1] != rest[j - 1]);
                }
            }
        }
    }
}

/// What a filter keeps of different things is different.
proof fn lemma_filter_keeps_distinct(s: Seq<NodeId>, p: spec_fn(NodeId) -> bool)
    requires
        s.no_duplicates(),
    ensures
        s.filter(p).no_duplicates(),
    decreases s.len(),
{
    reveal(Seq::filter);
    if s.len() > 0 {
        let rest = s.drop_last();
        lemma_filter_keeps_distinct(rest, p);
        filter_contains(rest, p, s.last());
        if rest.contains(s.last()) {
            let i = choose|i: int| 0 <= i < rest.len() && rest[i] == s.last();
            assert(s[i] == s[s.len() - 1]);
        }
    }
}

/// What is done next to bring an operation to the leader. A node that is still to be tried
/// in this round is, at its address, in its turn; one without an address is passed over.
/// When all were tried, a new round begins, with the node that was last said to lead and
/// then all others, or, where none was, with a look for the leader. There are three rounds,
/// and then the operation fails with what last went wrong.
pub proof fn law_nodes_are_tried_in_three_rounds(f: ForwardingView)
    ensures
        ({
            let (after, action) = next_action(f);
            let first = f.pending[0];
            &&& f.pending.len() > 0 && f.peers.contains_key(first) ==> {
                &&& action matches ForwardActionView::Send { target, address }
                &&& target == first
                &&& address == f.peers[first]
                &&& after.pending == f.pending.drop_first()
                &&& after.rounds == f.rounds
                &&& after.hint == f.hint
                &&& after.last_error == f.last_error
            }
            &&& f.pending.len() > 0 && !f.peers.contains_key(first) ==> (after, action)
                == next_action(
                ForwardingView {
                    pending: f.pending.drop_first(),
                    last_error: Some(
                        "leader node "@ + decimal(first as nat) + " has no configured address"@,
                    ),
                    ..f
                },
            )
            &&& f.pending.len() == 0 && f.rounds >= 3 ==> {
                &&& action matches ForwardActionView::Fail { message }
                &&& f.last_error is Some ==> message == f.last_error->0
                &&& f.last_error is None ==> message == "cluster has no elected leader"@
            }
            &&& f.pending.len() == 0 && f.rounds < 3 && f.hint is None ==> {
                &&& action is FindLeader
                &&& after.rounds == f.rounds + 1
                &&& after.pending.len() == 0
                &&& after.last_error == f.last_error
            }
            &&& f.pending.len() == 0 && f.rounds < 3 && f.hint is Some ==> (after, action)
                == next_action(
                ForwardingView {
                    rounds: f.rounds + 1,
                    hint: None,
                    pending: candidates(f.order, f.node_id, f.hint),
                    ..f
                },
            )
        }),
    decreases FORWARD_ATTEMPTS - f.rounds, f.pending.len(),
{
}

/// A node that answers does so for good, unless it says that it does not lead: then the
/// next round begins with the node that it names, if it names one. One that cannot be asked
/// leaves what went wrong.
pub proof fn law_answers_are_kept_unless_another_leads(
    f: ForwardingView,
    response: ForwardedResponse,
    error: String,
)
    ensures
        ({
            let (after, kept) = after_reply(f, Ok(response));
            let leader = match response {
                ForwardedResponse::CreateStream(Err(e)) => Some(e),
                ForwardedResponse::Publish(Err(e)) => Some(e),
                ForwardedResponse::Poll(Err(e)) => Some(e),
                ForwardedResponse::Replay(Err(e)) => Some(e),
                ForwardedResponse::Ack(Err(e)) => Some(e),
                ForwardedResponse::PollGroup(Err(e)) => Some(e),
                ForwardedResponse::AckGroup(Err(e)) => Some(e),
                _ => None,
            };
            let elsewhere = leader is Some && leader->0 is NotLeader;
            &&& kept is Some <==> !elsewhere
            &&& kept is Some ==> kept->0 == response && after == f
            &&& elsewhere && leader->0->leader_id is Some ==> after.hint == leader->0->leader_id
                && after.last_error == f.last_error
            &&& elsewhere && leader->0->leader_id is None ==> after.hint == f.hint
                && after.last_error == Some("peer has no elected leader"@)
            &&& after.pending == f.pending
            &&& after.rounds == f.rounds
            &&& after.peers == f.peers
            &&& after.node_id == f.node_id
        }),
        ({
            let (after, kept) = after_reply(f, Err(error));
            &&& kept is None
            &&& after.last_error == Some("leader forwarding failed: "@ + error@)
            &&& after.hint == f.hint
            &&& after.pending == f.pending
            &&& after.rounds == f.rounds
        }),
{
}

/// What came of an operation on the node that leads is what the node that forwarded it
/// tells: success as it is, with what it brought, and failure as a failure.
pub proof fn law_outcomes_come_through_forwarding(
    created: Result<bool, EngineFailure>,
    published: Result<Offset, EngineFailure>,
    polled: Result<PollResult, EngineFailure>,
    replayed: Result<ReplayMessage, EngineFailure>,
    acknowledged: Result<AckResult, EngineFailure>,
    c: Result<bool, BrokerError>,
    p: Result<Offset, BrokerError>,
    q: Result<PollResult, BrokerError>,
    g: Result<PollResult, BrokerError>,
    r: Result<ReplayMessage, BrokerError>,
    a: Result<AckResult, BrokerError>,
    b: Result<AckResult, BrokerError>,
)
    requires
        call_ensures(
            create_stream_result,
            (forwarded_answer(LocalOutcome::CreateStream(created)),),
            c,
        ),
        call_ensures(publish_result, (forwarded_answer(LocalOutcome::Publish(published)),), p),
        call_ensures(poll_result, (forwarded_answer(LocalOutcome::Poll(polled)),), q),
        call_ensures(poll_group_result, (forwarded_answer(LocalOutcome::PollGroup(polled)),), g),
        call_ensures(replay_result, (forwarded_answer(LocalOutcome::Replay(replayed)),), r),
        call_ensures(ack_result, (forwarded_answer(LocalOutcome::Ack(acknowledged)),), a),
        call_ensures(
            ack_group_result,
            (forwarded_answer(LocalOutcome::AckGroup(acknowledged)),),
            b,
        ),
    ensures
        created is Ok ==> c == Ok::<bool, BrokerError>(created->Ok_0),
        published is Ok ==> p == Ok::<Offset, BrokerError>(published->Ok_0),
        polled is Ok ==> q == Ok::<PollResult, BrokerError>(polled->Ok_0) && g == q,
        replayed is Ok ==> r == Ok::<ReplayMessage, BrokerError>(replayed->Ok_0),
        acknowledged is Ok ==> a == Ok::<AckResult, BrokerError>(acknowledged->Ok_0) && b == a,
        created is Err ==> c is Err,
        published is Err ==> p is Err,
        polled is Err ==> q is Err && g is Err,
        replayed is Err ==> r is Err,
        acknowledged is Err ==> a is Err && b is Err,
        acknowledged matches Err(failure) ==> {
            &&& failure.error is StaleDelivery ==> b == Err::<AckResult, BrokerError>(
                failure.error,
            )
            &&& failure.error is AckNotInFlight ==> b == Err::<AckResult, BrokerError>(
                failure.error,
            )
        },
        replayed matches Err(failure) ==> (failure.error is HistoryUnavailable ==> r == Err::<
            ReplayMessage,
            BrokerError,
        >(failure.error)),
        published matches Err(failure) ==> {
            &&& failure.error is NotLeader ==> p == Err::<Offset, BrokerError>(failure.error)
            &&& failure.error is StreamNotFound ==> p == Err::<Offset, BrokerError>(
                BrokerError::Cluster(failure.text),
            )
        },
{
}

} // verus!
