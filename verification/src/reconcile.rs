//! Bringing a new stream to life: every node prepares the group of the stream,
//! the group elects a leader, its data is set up, and only then is the stream
//! activated.

use vstd::prelude::*;

use crate::engine::BrokerError;
use crate::forwarding::{filter_contains, is_other};
use crate::keyed::SortedMap;
use crate::log_id::NodeId;
use crate::storage::is_cluster_error;
use crate::text::{decimal, decimal_text, join5};

verus! {

/// How far a stream has been brought.
#[derive(Clone, Copy, Debug, PartialEq, Eq, Structural)]
pub enum ReconcileStage {
    FindingLeader,
    Preparing,
    AskingGroup,
    InitializingGroup,
    AskingStream,
    InitializingStream,
    Activating,
    Finished,
}

/// What is to be done next for a stream.
#[derive(Clone, Copy, Debug, PartialEq, Eq, Structural)]
pub enum ReconcileAction {
    /// Have a node prepare the group.
    Prepare { node: NodeId },
    /// See whether the group has been initialized.
    AskGroup,
    /// Initialize the group with all nodes, and wait for its leader.
    InitializeGroup,
    /// See whether the group knows the stream.
    AskStream,
    /// Set up the data of the stream.
    InitializeStream,
    /// Activate the stream.
    Activate,
    /// Nothing.
    Finish,
}

/// What came of what was to be done.
#[derive(Debug)]
pub enum ReconcileEvent {
    /// Who leads the metadata group.
    Leader(Option<NodeId>),
    /// A node has prepared the group, or says why it could not.
    Prepared(Result<(), String>),
    /// Whether the group has been initialized.
    GroupInitialized(bool),
    /// The group has a leader.
    GroupReady,
    /// Whether the group knows the stream.
    StreamKnown(bool),
    /// The data of the stream is set up.
    StreamReady,
    /// The stream is active.
    Activated,
}

/// A stream on its way to life.
#[derive(Debug)]
pub struct Reconciliation {
    pub node_id: NodeId,
    pub peers: SortedMap<u64, String>,
    pub creating: bool,
    pub stage: ReconcileStage,
    pub pending: Vec<NodeId>,
}

/// How far a stream has been brought, and which nodes have yet to prepare.
#[verifier::ext_equal]
pub struct ReconciliationView {
    pub node_id: NodeId,
    pub order: Seq<NodeId>,
    pub creating: bool,
    pub stage: ReconcileStage,
    pub pending: Seq<NodeId>,
}

impl View for Reconciliation {
    type V = ReconciliationView;

    open spec fn view(&self) -> ReconciliationView {
        ReconciliationView {
            node_id: self.node_id,
            order: self.peers.keys(),
            creating: self.creating,
            stage: self.stage,
            pending: self.pending@,
        }
    }
}

/// Why a stream cannot be brought further.
pub enum ReconcileFault {
    Said(Seq<char>),
    NotLeader(NodeId),
}

/// An error says why a stream cannot be brought further.
pub open spec fn says_reconcile_fault(error: BrokerError, fault: ReconcileFault) -> bool {
    match fault {
        ReconcileFault::Said(text) => is_cluster_error(error, text),
        ReconcileFault::NotLeader(leader) => error == (BrokerError::NotLeader {
            leader_id: Some(leader),
        }),
    }
}

/// Whether an event is one that a stage waits for.
pub open spec fn waits_for(r: ReconciliationView, event: ReconcileEvent) -> bool {
    match r.stage {
        ReconcileStage::FindingLeader => event is Leader,
        ReconcileStage::Preparing => event is Prepared && r.pending.len() > 0,
        ReconcileStage::AskingGroup => event is GroupInitialized,
        ReconcileStage::InitializingGroup => event is GroupReady,
        ReconcileStage::AskingStream => event is StreamKnown,
        ReconcileStage::InitializingStream => event is StreamReady,
        ReconcileStage::Activating => event is Activated,
        ReconcileStage::Finished => false,
    }
}

/// What is done once the nodes that still have to prepare are known: the first of
/// them prepares, and after the last the group itself is looked at.
pub open spec fn with_pending(r: ReconciliationView, pending: Seq<NodeId>) -> (
    ReconciliationView,
    ReconcileAction,
) {
    if pending.len() > 0 {
        (
            ReconciliationView { stage: ReconcileStage::Preparing, pending, ..r },
            ReconcileAction::Prepare { node: pending[0] },
        )
    } else {
        (
            ReconciliationView { stage: ReconcileStage::AskingGroup, pending, ..r },
            ReconcileAction::AskGroup,
        )
    }
}

/// What is done once the data of a stream is set up: a stream that is being
/// created is activated.
pub open spec fn with_data(r: ReconciliationView) -> (ReconciliationView, ReconcileAction) {
    if r.creating {
        (
            ReconciliationView { stage: ReconcileStage::Activating, ..r },
            ReconcileAction::Activate,
        )
    } else {
        (ReconciliationView { stage: ReconcileStage::Finished, ..r }, ReconcileAction::Finish)
    }
}

/// What is done after an event, and how far the stream is then.
pub open spec fn reconcile_step(r: ReconciliationView, event: ReconcileEvent) -> Result<
    (ReconciliationView, ReconcileAction),
    ReconcileFault,
> {
    match event {
        ReconcileEvent::Leader(None) => Err(
            ReconcileFault::Said("metadata group has no leader"@),
        ),
        ReconcileEvent::Leader(Some(leader)) => if leader != r.node_id {
            Err(ReconcileFault::NotLeader(leader))
        } else {
            Ok(with_pending(r, r.order.filter(is_other(r.node_id, None))))
        },
        ReconcileEvent::Prepared(Err(reason)) => Err(
            ReconcileFault::Said(
                "could not prepare data group on node "@ + decimal(r.pending[0] as nat) + ": "@
                    + reason@ + ""@,
            ),
        ),
        ReconcileEvent::Prepared(Ok(_)) => Ok(with_pending(r, r.pending.drop_first())),
        ReconcileEvent::GroupInitialized(true) | ReconcileEvent::GroupReady => Ok(
            (
                ReconciliationView { stage: ReconcileStage::AskingStream, ..r },
                ReconcileAction::AskStream,
            ),
        ),
        ReconcileEvent::GroupInitialized(false) => Ok(
            (
                ReconciliationView { stage: ReconcileStage::InitializingGroup, ..r },
                ReconcileAction::InitializeGroup,
            ),
        ),
        ReconcileEvent::StreamKnown(true) | ReconcileEvent::StreamReady => Ok(with_data(r)),
        ReconcileEvent::StreamKnown(false) => Ok(
            (
                ReconciliationView { stage: ReconcileStage::InitializingStream, ..r },
                ReconcileAction::InitializeStream,
            ),
        ),
        ReconcileEvent::Activated => Ok(
            (ReconciliationView { stage: ReconcileStage::Finished, ..r }, ReconcileAction::Finish),
        ),
    }
}

/// A stream that nothing has been done for.
pub open spec fn at_start(node_id: NodeId, order: Seq<NodeId>, creating: bool) -> ReconciliationView {
    ReconciliationView {
        node_id,
        order,
        creating,
        stage: ReconcileStage::FindingLeader,
        pending: Seq::empty(),
    }
}

impl Reconciliation {
    /// A stream that nothing has been done for.
    pub fn new(node_id: NodeId, peers: SortedMap<u64, String>, creating: bool) -> (r: Self)
        ensures
            r@ == at_start(node_id, peers.keys(), creating),
            r.peers == peers,
    {
        Reconciliation {
            node_id,
            peers,
            creating,
            stage: ReconcileStage::FindingLeader,
            pending: Vec::new(),
        }
    }

    /// The other nodes, in order.
    fn other_nodes(&self) -> (r: Vec<NodeId>)
        ensures
            r@ == self.peers.keys().filter(is_other(self.node_id, None)),
    {
        let ghost keys = self.peers.keys();
        let ghost p = is_other(self.node_id, None);
        let mut found: Vec<NodeId> = Vec::new();
        let n: usize = self.peers.len();
        let mut i: usize = 0;
        proof {
            assert(keys.take(0).filter(p) =~= Seq::empty());
        }
        while i < n
            invariant
                i <= n,
                n == keys.len(),
                keys == self.peers.keys(),
                p == is_other(self.node_id, None),
                found@ == keys.take(i as int).filter(p),
            decreases n - i,
        {
            let node: u64 = *self.peers.key_at(i);
            proof {
                assert(keys.take(i + 1) =~= keys.take(i as int).push(node));
                keys.take(i as int).lemma_filter_push(node, p);
            }
            if node != self.node_id {
                found.push(node);
            }
            i += 1;
        }
        proof {
            assert(keys.take(i as int) =~= keys);
        }
        found
    }

    /// Goes on with the nodes that still have to prepare.
    fn go_on(&mut self, pending: Vec<NodeId>) -> (r: ReconcileAction)
        ensures
            (final(self)@, r) == with_pending(old(self)@, pending@),
            final(self).peers == old(self).peers,
    {
        self.pending = pending;
        if self.pending.len() > 0 {
            self.stage = ReconcileStage::Preparing;
            ReconcileAction::Prepare { node: self.pending[0] }
        } else {
            self.stage = ReconcileStage::AskingGroup;
            ReconcileAction::AskGroup
        }
    }

    /// Goes on once the data of the stream is set up.
    fn data_is_ready(&mut self) -> (r: ReconcileAction)
        ensures
            (final(self)@, r) == with_data(old(self)@),
            final(self).peers == old(self).peers,
    {
        if self.creating {
            self.stage = ReconcileStage::Activating;
            ReconcileAction::Activate
        } else {
            self.stage = ReconcileStage::Finished;
            ReconcileAction::Finish
        }
    }

    /// What is to be done after an event, or why the stream cannot be brought
    /// further.
    pub fn advance(&mut self, event: ReconcileEvent) -> (r: Result<ReconcileAction, BrokerError>)
        requires
            waits_for(old(self)@, event),
        ensures
            final(self).peers == old(self).peers,
            match reconcile_step(old(self)@, event) {
                Ok((after, action)) => final(self)@ == after && r == Ok::<
                    ReconcileAction,
                    BrokerError,
                >(action),
                Err(fault) => final(self)@ == old(self)@ && r is Err && says_reconcile_fault(
                    r->Err_0,
                    fault,
                ),
            },
    {
        match event {
            ReconcileEvent::Leader(None) => Err(
                BrokerError::Cluster("metadata group has no leader".to_owned()),
            ),
            ReconcileEvent::Leader(Some(leader)) => {
                if leader != self.node_id {
                    return Err(BrokerError::NotLeader { leader_id: Some(leader) });
                }
                let others = self.other_nodes();
                Ok(self.go_on(others))
            },
            ReconcileEvent::Prepared(Err(reason)) => Err(
                BrokerError::Cluster(
                    join5(
                        "could not prepare data group on node ",
                        decimal_text(self.pending[0]).as_str(),
                        ": ",
                        reason.as_str(),
                        "",
                    ),
                ),
            ),
            ReconcileEvent::Prepared(Ok(_)) => {
                let ghost before = self@;
                let mut pending: Vec<NodeId> = Vec::new();
                std::mem::swap(&mut pending, &mut self.pending);
                pending.remove(0);
                proof {
                    assert(pending@ =~= before.pending.drop_first());
                    assert(with_pending(self@, pending@) == with_pending(before, pending@));
                }
                Ok(self.go_on(pending))
            },
            ReconcileEvent::GroupInitialized(initialized) => {
                if initialized {
                    self.stage = ReconcileStage::AskingStream;
                    Ok(ReconcileAction::AskStream)
                } else {
                    self.stage = ReconcileStage::InitializingGroup;
                    Ok(ReconcileAction::InitializeGroup)
                }
            },
            ReconcileEvent::GroupReady => {
                self.stage = ReconcileStage::AskingStream;
                Ok(ReconcileAction::AskStream)
            },
            ReconcileEvent::StreamKnown(known) => {
                if known {
                    Ok(self.data_is_ready())
                } else {
                    self.stage = ReconcileStage::InitializingStream;
                    Ok(ReconcileAction::InitializeStream)
                }
            },
            ReconcileEvent::StreamReady => Ok(self.data_is_ready()),
            ReconcileEvent::Activated => {
                self.stage = ReconcileStage::Finished;
                Ok(ReconcileAction::Finish)
            },
        }
    }
}

/// How far a stream is after some events, and what was done after each; nothing
/// where one of the events was not waited for or brought the stream to a stop.
pub open spec fn reconcile_run(start: ReconciliationView, events: Seq<ReconcileEvent>) -> Option<
    (ReconciliationView, Seq<ReconcileAction>),
>
    decreases events.len(),
{
    if events.len() == 0 {
        Some((start, Seq::empty()))
    } else {
        match reconcile_run(start, events.drop_last()) {
            None => None,
            Some((r, actions)) => if waits_for(r, events.last()) {
                match reconcile_step(r, events.last()) {
                    Ok((after, action)) => Some((after, actions.push(action))),
                    Err(_) => None,
                }
            } else {
                None
            },
        }
    }
}

/// Whether the first of some nodes have prepared, as the events and the actions
/// of a run show it.
pub open spec fn have_prepared(
    nodes: Seq<NodeId>,
    events: Seq<ReconcileEvent>,
    actions: Seq<ReconcileAction>,
) -> bool {
    &&& nodes.len() < actions.len()
    &&& actions.len() == events.len()
    &&& forall|j: int|
        0 <= j < nodes.len() ==> #[trigger] actions[j] == (ReconcileAction::Prepare {
            node: nodes[j],
        })
    &&& forall|j: int|
        0 < j <= nodes.len() ==> (#[trigger] events[j] matches ReconcileEvent::Prepared(Ok(_)))
}

/// What holds of every run.
proof fn lemma_run(
    node_id: NodeId,
    order: Seq<NodeId>,
    creating: bool,
    events: Seq<ReconcileEvent>,
)
    requires
        reconcile_run(at_start(node_id, order, creating), events) is Some,
    ensures
        ({
            let (r, actions) = reconcile_run(at_start(node_id, order, creating), events)->0;
            let others = order.filter(is_other(node_id, None));
            &&& r.node_id == node_id
            &&& r.order == order
            &&& r.creating == creating
            &&& actions.len() == events.len()
            &&& r.stage == ReconcileStage::FindingLeader ==> events.len() == 0
            &&& r.stage == ReconcileStage::Preparing ==> 0 < r.pending.len() <= others.len()
                && r.pending == others.skip(others.len() - r.pending.len()) && events.len()
                == others.len() - r.pending.len() + 1 && have_prepared(
                others.take(others.len() - r.pending.len()),
                events,
                actions,
            ) && actions.last() == (ReconcileAction::Prepare { node: r.pending[0] })
            &&& r.stage != ReconcileStage::FindingLeader && r.stage != ReconcileStage::Preparing
                ==> have_prepared(others, events, actions)
        }),
    decreases events.len(),
{
    let start = at_start(node_id, order, creating);
    let others = order.filter(is_other(node_id, None));
    if events.len() > 0 {
        let earlier = events.drop_last();
        let event = events.last();
        lemma_run(node_id, order, creating, earlier);
        let (q, done) = reconcile_run(start, earlier)->0;
        let (r, actions) = reconcile_run(start, events)->0;
        let (_, action) = reconcile_step(q, event)->Ok_0;
        assert(actions == done.push(action));
        match event {
            ReconcileEvent::Leader(_) => {
                assert(others.skip(0) =~= others);
                assert(others.take(0) =~= Seq::empty());
                if others.len() == 0 {
                    assert(others =~= Seq::empty());
                }
            },
            ReconcileEvent::Prepared(_) => {
                let k = others.len() - q.pending.len();
                assert(q.pending.drop_first() =~= others.skip(k + 1));
                assert(q.pending[0] == others[k]);
                assert(done[k] == (ReconcileAction::Prepare { node: others[k] }));
                let ready = others.take(k + 1);
                assert forall|j: int| 0 <= j < ready.len() implies #[trigger] actions[j] == (
                ReconcileAction::Prepare { node: ready[j] }) by {
                    assert(actions[j] == done[j]);
                    if j < k {
                        assert(others.take(k)[j] == others[j]);
                    }
                }
                assert forall|j: int| 0 < j <= ready.len() implies (#[trigger] events[j] matches
                    ReconcileEvent::Prepared(Ok(_))) by {
                    if j <= k {
                        assert(events[j] == earlier[j]);
                    }
                }
                if k + 1 == others.len() {
                    assert(ready =~= others);
                }
            },
            _ => {
                assert forall|j: int| 0 <= j < others.len() implies #[trigger] actions[j] == (
                ReconcileAction::Prepare { node: others[j] }) by {
                    assert(actions[j] == done[j]);
                }
                assert forall|j: int| 0 < j <= others.len() implies (#[trigger] events[j] matches
                    ReconcileEvent::Prepared(Ok(_))) by {
                    assert(events[j] == earlier[j]);
                }
            },
        }
    }
}

/// A stream is activated only after every other node has prepared its group and
/// its data is set up: in a run that comes to activate it, each of the nodes was
/// asked to, in order, each did, and the last thing to be heard was that the data
/// is there.
pub proof fn law_streams_activate_after_every_node_is_ready(
    node_id: NodeId,
    order: Seq<NodeId>,
    creating: bool,
    events: Seq<ReconcileEvent>,
)
    requires
        ({
            reconcile_run(at_start(node_id, order, creating), events) matches Some((r, _))
                && r.stage == ReconcileStage::Activating
        }),
    ensures
        ({
            let (_, actions) = reconcile_run(at_start(node_id, order, creating), events)->0;
            have_prepared(order.filter(is_other(node_id, None)), events, actions)
        }),
        match events.last() {
            ReconcileEvent::StreamReady => true,
            ReconcileEvent::StreamKnown(known) => known,
            _ => false,
        },
{
    lemma_run(node_id, order, creating, events);
}

/// What is done for a stream on its way to life. Only the leader of the metadata group does
/// anything. It has every other node of the cluster prepare the group, one by one, and goes
/// on only when each has. It initializes the group unless that was done, sets up the data
/// unless that is there, and activates the stream if it is being created.
pub proof fn law_streams_come_to_life_step_by_step(
    r: ReconciliationView,
    event: ReconcileEvent,
    node: NodeId,
)
    requires
        waits_for(r, event),
    ensures
        ({
            let step = reconcile_step(r, event);
            let (after, action) = step->Ok_0;
            let others = after.pending;
            &&& event == ReconcileEvent::Leader(None) ==> step is Err
            &&& event matches ReconcileEvent::Leader(Some(leader)) ==> {
                &&& leader != r.node_id ==> step is Err && step->Err_0 == ReconcileFault::NotLeader(
                    leader,
                )
                &&& leader == r.node_id ==> step is Ok && (others.contains(node)
                    <==> r.order.contains(node) && node != r.node_id)
                &&& leader == r.node_id && others.len() > 0 ==> action == (
                ReconcileAction::Prepare { node: others[0] })
                &&& leader == r.node_id && others.len() == 0 ==> action
                    == ReconcileAction::AskGroup
            }
            &&& event matches ReconcileEvent::Prepared(outcome) ==> {
                &&& step is Err <==> outcome is Err
                &&& outcome is Ok ==> others == r.pending.drop_first()
                &&& outcome is Ok && r.pending.len() > 1 ==> action == (ReconcileAction::Prepare {
                    node: r.pending[1],
                })
                &&& outcome is Ok && r.pending.len() == 1 ==> action == ReconcileAction::AskGroup
            }
            &&& event matches ReconcileEvent::GroupInitialized(done) ==> step is Ok && action
                == if done {
                ReconcileAction::AskStream
            } else {
                ReconcileAction::InitializeGroup
            }
            &&& event is GroupReady ==> step is Ok && action == ReconcileAction::AskStream
            &&& event == ReconcileEvent::StreamKnown(false) ==> step is Ok && action
                == ReconcileAction::InitializeStream
            &&& event == ReconcileEvent::StreamKnown(true) || event is StreamReady ==> step is Ok
                && action == if r.creating {
                ReconcileAction::Activate
            } else {
                ReconcileAction::Finish
            }
            &&& event is Activated ==> step is Ok && action == ReconcileAction::Finish
            &&& step is Ok ==> {
                &&& after.node_id == r.node_id
                &&& after.order == r.order
                &&& after.creating == r.creating
                &&& action is Finish <==> after.stage == ReconcileStage::Finished
                &&& action is Activate <==> after.stage == ReconcileStage::Activating
                &&& action is Prepare <==> after.stage == ReconcileStage::Preparing
                &&& action is AskGroup <==> after.stage == ReconcileStage::AskingGroup
                &&& action is InitializeGroup <==> after.stage == ReconcileStage::InitializingGroup
                &&& action is AskStream <==> after.stage == ReconcileStage::AskingStream
                &&& action is InitializeStream <==> after.stage
                    == ReconcileStage::InitializingStream
            }
        }),
{
    filter_contains(r.order, is_other(r.node_id, None), node);
}

} // verus!
