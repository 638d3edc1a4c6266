use runnel::dispatch::EngineFailure;
use runnel::engine::{AckResult, BrokerError, HealthSnapshot, IoKind, PollResult};
use runnel::forwarding::{
    ack_group_result, ack_result, create_stream_result, forwarded_leader, poll_group_result,
    poll_result, publish_result, replay_result, ForwardAction, Forwarding,
};
use runnel::group_manager::{
    add_snapshot_metrics, data_group_for_stream, group_cluster_name, initialization_address,
    initialization_result, node_health, plan_data_group, snapshot_metrics, stream_of_group,
};
use runnel::keyed::SortedMap;
use runnel::log_id::LogId;
use runnel::network::framing::{encode_frame, frame_length, keeps_buffer, MAX_FRAME_SIZE};
use runnel::network::inbound::{
    admit_forwarded_poll, answer_forwarded, unknown_group, LocalOutcome,
};
use runnel::network::outbound::{
    reusable_connection, timed_out_error, uses_pool, PeerPoolRegistry, PeerRequestKind,
    MAX_POOLED_PEERS,
};
use runnel::network::{
    forward_error, forward_error_to_broker, forward_reply, ForwardError, ForwardedResponse,
    PeerReply,
};
use runnel::raft_group::{
    ack_group_answer, clock_ms, create_stream_answer, forward_after, health_gate, leader_among,
    map_client_write_error, now_ms, poll_group_answer, poll_route, publish_answer, replay_answer,
    validate_cluster, validate_delivery_limit, RaftGroup,
};
use runnel::reconcile::{ReconcileAction, ReconcileEvent, Reconciliation};
use runnel::state_machine::{
    apply_command, Command, CommandResponse, GroupKind, SnapshotState, StreamLifecycle,
    StreamMetadata,
};
use runnel::state_machine_store::SnapshotMetricsSnapshot;
use runnel::storage::PathKind;

fn capped_registry() -> PeerPoolRegistry {
    let mut registry = PeerPoolRegistry::default();
    for index in 0..MAX_POOLED_PEERS {
        let address = format!("test-peer-{index}");
        assert!(registry.pool(&address).is_some());
        registry.release(&address);
    }
    registry
}

fn busy_registry() -> (PeerPoolRegistry, Vec<String>) {
    let mut registry = PeerPoolRegistry::default();
    let mut pools = Vec::with_capacity(MAX_POOLED_PEERS);
    for index in 0..MAX_POOLED_PEERS {
        let address = format!("test-peer-{index}");
        assert!(registry.pool(&address).is_some());
        pools.push(address);
    }
    (registry, pools)
}

fn pool_and_release(registry: &mut PeerPoolRegistry, address: &str) -> bool {
    let address = address.to_owned();
    let granted = registry.pool(&address).is_some();
    if granted {
        registry.release(&address);
    }
    granted
}

#[test]
fn full_registry_evicts_the_oldest_idle_pool_deterministically() {
    let mut registry = capped_registry();

    assert!(pool_and_release(&mut registry, "new-peer-1"));
    assert_eq!(registry.len(), MAX_POOLED_PEERS);
    assert!(!registry.contains(&"test-peer-0".to_owned()));

    assert!(pool_and_release(&mut registry, "test-peer-1"));
    assert!(pool_and_release(&mut registry, "new-peer-2"));
    assert_eq!(registry.len(), MAX_POOLED_PEERS);
    assert!(!registry.contains(&"test-peer-2".to_owned()));
}

#[test]
fn full_registry_keeps_busy_pools_for_bounded_fallback() {
    let (mut registry, held_pools) = busy_registry();

    assert!(registry.pool(&"busy-overflow-peer".to_owned()).is_none());
    assert_eq!(registry.len(), MAX_POOLED_PEERS);

    for address in &held_pools {
        registry.release(address);
    }
    assert!(registry.pool(&"busy-overflow-peer".to_owned()).is_some());
    assert_eq!(registry.len(), MAX_POOLED_PEERS);
}

#[test]
fn frames_begin_with_their_length() {
    let frame = encode_frame(b"42").unwrap();
    assert_eq!(frame, vec![0, 0, 0, 2, b'4', b'2']);
    assert_eq!(frame_length([0, 0, 0, 2]).unwrap(), 2);
    let failure = frame_length((MAX_FRAME_SIZE + 1).to_be_bytes()).unwrap_err();
    assert_eq!(failure.kind, IoKind::InvalidData);
    assert_eq!(failure.message, "peer RPC exceeds the frame limit");
    assert!(keeps_buffer(0));
    assert!(!keeps_buffer(usize::MAX));
}

#[test]
fn votes_and_heartbeats_keep_a_lane_of_their_own() {
    let control = PeerRequestKind::Vote.lane();
    let forward = PeerRequestKind::Forward.lane();
    assert_ne!(control, forward);
    assert!(control.permits() >= 1);
    assert!(forward.permits() >= 1);
}

#[test]
fn votes_and_heartbeats_go_through_the_pool() {
    let heartbeat = PeerRequestKind::AppendEntries { entries: 0 };
    let entries = PeerRequestKind::AppendEntries { entries: 1 };
    assert!(uses_pool(PeerRequestKind::Vote, false));
    assert!(uses_pool(heartbeat, false));
    assert!(!uses_pool(entries, false));
    assert!(!uses_pool(PeerRequestKind::Forward, false));
    assert!(!uses_pool(PeerRequestKind::Vote, true));
    assert!(!uses_pool(heartbeat, true));
}

#[test]
fn expired_connections_are_not_reused() {
    assert_eq!(reusable_connection(&Vec::new()), None);
    assert_eq!(reusable_connection(&vec![0]), Some(0));
    assert_eq!(reusable_connection(&vec![u128::MAX]), None);
    assert_eq!(timed_out_error().kind, IoKind::TimedOut);
}

fn failure(error: BrokerError, text: &str) -> EngineFailure {
    EngineFailure {
        error,
        text: text.to_owned(),
    }
}

#[test]
fn errors_come_through_forwarding() {
    let stale = BrokerError::StaleDelivery {
        consumer: "workers".to_owned(),
        offset: 4,
    };
    let sent = forward_error(stale, "stale".to_owned());
    assert_eq!(
        forward_error_to_broker(sent),
        BrokerError::StaleDelivery {
            consumer: "workers".to_owned(),
            offset: 4,
        }
    );
    let other = forward_error(BrokerError::LockPoisoned, "lock was poisoned".to_owned());
    assert_eq!(
        forward_error_to_broker(other),
        BrokerError::Cluster("lock was poisoned".to_owned())
    );
}

#[test]
fn peers_that_answer_out_of_turn_are_refused() {
    let answer = forward_reply(PeerReply::Forward(ForwardedResponse::Publish(Ok(3)))).unwrap();
    assert_eq!(answer, ForwardedResponse::Publish(Ok(3)));
    let failure = forward_reply(PeerReply::Ready).unwrap_err();
    assert_eq!(failure.kind, IoKind::InvalidData);
    assert_eq!(failure.message, "peer returned the wrong forwarded response");
}

#[test]
fn forwarded_operations_are_answered_in_kind() {
    assert_eq!(
        answer_forwarded(LocalOutcome::Publish(Ok(9))),
        ForwardedResponse::Publish(Ok(9))
    );
    assert_eq!(
        answer_forwarded(LocalOutcome::Ack(Err(failure(
            BrokerError::NotLeader { leader_id: Some(2) },
            "not leader"
        )))),
        ForwardedResponse::Ack(Err(ForwardError::NotLeader { leader_id: Some(2) }))
    );
    assert_eq!(
        answer_forwarded(LocalOutcome::CreateStream(Err(failure(
            BrokerError::StreamNotFound("a".to_owned()),
            "no such stream"
        )))),
        ForwardedResponse::CreateStream(Err(ForwardError::Message("no such stream".to_owned())))
    );
    assert!(admit_forwarded_poll(true, Some(1), 1).is_ok());
    assert_eq!(
        admit_forwarded_poll(true, None, 1),
        Err(ForwardError::NotLeader { leader_id: None })
    );
    assert_eq!(
        admit_forwarded_poll(false, Some(1), 1),
        Err(ForwardError::Message("stream data group is unavailable".to_owned()))
    );
    assert_eq!(unknown_group("group/a/data"), "unknown Raft group 'group/a/data'");
}

fn three_peers() -> SortedMap<u64, String> {
    let mut peers = SortedMap::new();
    for node in [1, 2, 3] {
        peers.insert(node, format!("node-{node}"));
    }
    peers
}

fn sent_to(action: ForwardAction) -> (u64, String) {
    match action {
        ForwardAction::Send { target, address } => (target, address),
        action => panic!("expected a send, got {action:?}"),
    }
}

#[test]
fn an_operation_goes_to_the_leader_first_and_never_to_this_node() {
    let mut forwarding = Forwarding::new(1, three_peers(), Some(3));
    assert_eq!(sent_to(forwarding.next()), (3, "node-3".to_owned()));
    let answer = forwarding.reply(Ok(ForwardedResponse::Publish(Err(ForwardError::NotLeader {
        leader_id: Some(2),
    }))));
    assert!(answer.is_none());
    assert_eq!(sent_to(forwarding.next()), (2, "node-2".to_owned()));
    assert!(forwarding.reply(Err("connection refused".to_owned())).is_none());
    // The second round begins with the leader that was named.
    assert_eq!(sent_to(forwarding.next()).0, 2);
    let answer = forwarding.reply(Ok(ForwardedResponse::Publish(Ok(5))));
    assert_eq!(answer, Some(ForwardedResponse::Publish(Ok(5))));
}

#[test]
fn forwarding_gives_up_after_its_last_round() {
    let mut forwarding = Forwarding::new(1, three_peers(), None);
    let mut sends = 0;
    let text = loop {
        match forwarding.next() {
            ForwardAction::FindLeader => forwarding.leader_found(None),
            ForwardAction::Send { .. } => {
                sends += 1;
                assert!(forwarding.reply(Err("refused".to_owned())).is_none());
            }
            ForwardAction::Fail(BrokerError::Cluster(text)) => break text,
            action => panic!("unexpected action: {action:?}"),
        }
    };
    assert_eq!(sends, 6);
    assert_eq!(text, "leader forwarding failed: refused");

    let mut alone = Forwarding::new(1, SortedMap::new(), None);
    for _ in 0..3 {
        assert!(matches!(alone.next(), ForwardAction::FindLeader));
        alone.leader_found(None);
    }
    assert!(matches!(
        alone.next(),
        ForwardAction::Fail(BrokerError::Cluster(text)) if text == "cluster has no elected leader"
    ));

    let mut unknown = Forwarding::new(1, SortedMap::new(), Some(7));
    assert!(matches!(unknown.next(), ForwardAction::FindLeader));
    unknown.leader_found(None);
    assert!(matches!(unknown.next(), ForwardAction::FindLeader));
    unknown.leader_found(None);
    assert!(matches!(
        unknown.next(),
        ForwardAction::Fail(BrokerError::Cluster(text))
            if text == "leader node 7 has no configured address"
    ));
}

#[test]
fn leaders_answer_what_they_were_asked() {
    assert_eq!(create_stream_result(ForwardedResponse::CreateStream(Ok(true))), Ok(true));
    assert_eq!(publish_result(ForwardedResponse::Publish(Ok(2))), Ok(2));
    assert_eq!(
        poll_result(ForwardedResponse::Poll(Ok(PollResult::Empty))),
        Ok(PollResult::Empty)
    );
    assert_eq!(
        ack_result(ForwardedResponse::Ack(Ok(AckResult::Acknowledged))),
        Ok(AckResult::Acknowledged)
    );
    let wrong = |result: Result<bool, BrokerError>| match result {
        Err(BrokerError::Cluster(text)) => text,
        result => panic!("unexpected result: {result:?}"),
    };
    let ready = || ForwardedResponse::InitializeDataStream(Ok(true));
    assert_eq!(
        wrong(create_stream_result(ready())),
        "leader returned the wrong create-stream response"
    );
    assert_eq!(
        wrong(publish_result(ready()).map(|_| true)),
        "leader returned the wrong publish response"
    );
    assert_eq!(
        wrong(poll_result(ready()).map(|_| true)),
        "leader returned the wrong poll response"
    );
    assert_eq!(
        wrong(replay_result(ready()).map(|_| true)),
        "leader returned the wrong replay response"
    );
    assert_eq!(
        wrong(ack_result(ready()).map(|_| true)),
        "leader returned the wrong acknowledgement response"
    );
    assert_eq!(
        wrong(poll_group_result(ready()).map(|_| true)),
        "leader returned the wrong grouped poll response"
    );
    assert_eq!(
        wrong(ack_group_result(ready()).map(|_| true)),
        "leader returned the wrong grouped acknowledgement response"
    );
    assert_eq!(
        forwarded_leader(&ForwardedResponse::Poll(Err(ForwardError::NotLeader {
            leader_id: None
        }))),
        Some(None)
    );
    assert_eq!(forwarded_leader(&ready()), None);
}

#[test]
fn a_stream_comes_to_life_once_every_node_is_ready() {
    let mut stream = Reconciliation::new(2, three_peers(), true);
    assert_eq!(
        stream.advance(ReconcileEvent::Leader(Some(2))),
        Ok(ReconcileAction::Prepare { node: 1 })
    );
    assert_eq!(
        stream.advance(ReconcileEvent::Prepared(Ok(()))),
        Ok(ReconcileAction::Prepare { node: 3 })
    );
    assert_eq!(
        stream.advance(ReconcileEvent::Prepared(Ok(()))),
        Ok(ReconcileAction::AskGroup)
    );
    assert_eq!(
        stream.advance(ReconcileEvent::GroupInitialized(false)),
        Ok(ReconcileAction::InitializeGroup)
    );
    assert_eq!(
        stream.advance(ReconcileEvent::GroupReady),
        Ok(ReconcileAction::AskStream)
    );
    assert_eq!(
        stream.advance(ReconcileEvent::StreamKnown(false)),
        Ok(ReconcileAction::InitializeStream)
    );
    assert_eq!(
        stream.advance(ReconcileEvent::StreamReady),
        Ok(ReconcileAction::Activate)
    );
    assert_eq!(
        stream.advance(ReconcileEvent::Activated),
        Ok(ReconcileAction::Finish)
    );
}

#[test]
fn a_stream_that_cannot_come_to_life_says_why() {
    let mut stream = Reconciliation::new(2, three_peers(), true);
    assert_eq!(
        stream.advance(ReconcileEvent::Leader(None)),
        Err(BrokerError::Cluster("metadata group has no leader".to_owned()))
    );
    assert_eq!(
        stream.advance(ReconcileEvent::Leader(Some(1))),
        Err(BrokerError::NotLeader { leader_id: Some(1) })
    );
    stream.advance(ReconcileEvent::Leader(Some(2))).unwrap();
    assert_eq!(
        stream.advance(ReconcileEvent::Prepared(Err("refused".to_owned()))),
        Err(BrokerError::Cluster(
            "could not prepare data group on node 1: refused".to_owned()
        ))
    );
}

fn health(streams: usize, storage_bytes: u64, redeliveries: u64) -> HealthSnapshot {
    HealthSnapshot {
        streams,
        storage_bytes,
        in_flight_deliveries: 1,
        redeliveries,
        dead_letters: 0,
    }
}

#[test]
fn the_condition_of_a_node_is_that_of_its_groups() {
    let metadata = health(2, 0, 1);
    let together = node_health(&metadata, &vec![metadata, health(1, 10, 4), health(1, 20, 0)]);
    assert_eq!(together.streams, 2);
    assert_eq!(together.storage_bytes, 30);
    assert_eq!(together.in_flight_deliveries, 3);
    assert_eq!(together.redeliveries, 6);
    assert_eq!(together.dead_letters, 0);
}

#[test]
fn snapshot_counts_add_up_in_any_order() {
    let a = SnapshotMetricsSnapshot {
        builds_started: 3,
        transfer_bytes: 10,
        ..SnapshotMetricsSnapshot::default()
    };
    let b = SnapshotMetricsSnapshot {
        builds_started: 4,
        install_failures: 1,
        ..SnapshotMetricsSnapshot::default()
    };
    let sum = add_snapshot_metrics(a, b);
    assert_eq!(sum.builds_started, 7);
    assert_eq!(sum.transfer_bytes, 10);
    assert_eq!(sum.install_failures, 1);
    assert_eq!(sum, add_snapshot_metrics(b, a));
    assert_eq!(snapshot_metrics(&vec![a, b]), sum);
    assert_eq!(snapshot_metrics(&Vec::new()), SnapshotMetricsSnapshot::default());
}

fn metadata_state() -> SnapshotState {
    let mut state = SnapshotState::default();
    for stream in ["ready", "waiting"] {
        apply_command(
            &mut state,
            RaftGroup::create_stream_command(stream.to_owned()),
            &GroupKind::Metadata,
            LogId { term: 1, node_id: 1, index: 1 },
        );
    }
    apply_command(
        &mut state,
        Command::ActivateStream { stream: "ready".to_owned() },
        &GroupKind::Metadata,
        LogId { term: 1, node_id: 1, index: 2 },
    );
    state
}

#[test]
fn streams_lead_to_their_groups() {
    let state = metadata_state();
    let (name, metadata) = data_group_for_stream(&state, &"ready".to_owned()).unwrap();
    assert_eq!(name, "ready");
    assert_eq!(metadata.group_id, "group/ready/data");
    let (name, _) = data_group_for_stream(&state, &"ready.dead-letter".to_owned()).unwrap();
    assert_eq!(name, "ready");
    assert_eq!(
        data_group_for_stream(&state, &"waiting".to_owned()),
        Err(BrokerError::StreamNotReady("waiting".to_owned()))
    );
    assert_eq!(
        data_group_for_stream(&state, &"waiting.dead-letter".to_owned()),
        Err(BrokerError::StreamNotReady("waiting.dead-letter".to_owned()))
    );
    assert_eq!(
        data_group_for_stream(&state, &"none".to_owned()),
        Err(BrokerError::StreamNotFound("none".to_owned()))
    );
    assert!(stream_of_group(&state, &"metadata".to_owned()).is_none());
    assert_eq!(
        stream_of_group(&state, &"group/waiting/data".to_owned()).unwrap().0,
        "waiting"
    );
    assert_eq!(group_cluster_name("alpha", "metadata"), "alpha/metadata");
}

#[test]
fn data_groups_are_opened_where_they_belong() {
    let metadata = StreamMetadata {
        stream_id: "stream/a".to_owned(),
        group_id: "group/a/data".to_owned(),
        lifecycle: StreamLifecycle::Creating,
    };
    let plan = |directory, manifest_exists, has_entries| {
        plan_data_group(
            &"a".to_owned(),
            &metadata,
            directory,
            "data/61",
            manifest_exists,
            "data/61/group.json",
            has_entries,
        )
    };
    let fresh = plan(PathKind::Missing, false, false).unwrap();
    assert_eq!(fresh.manifest.unwrap().group_id, "group/a/data");
    assert_eq!(
        fresh.kind,
        GroupKind::Data {
            stream: "a".to_owned(),
            stream_id: "stream/a".to_owned(),
            group_id: "group/a/data".to_owned(),
        }
    );
    assert!(plan(PathKind::Directory, false, false).unwrap().manifest.is_some());
    assert!(plan(PathKind::Directory, true, true).unwrap().manifest.is_none());
    assert_eq!(
        plan(PathKind::Directory, false, true).unwrap_err(),
        BrokerError::Cluster("missing data-group manifest 'data/61/group.json'".to_owned())
    );
    assert_eq!(
        plan(PathKind::Other, false, false).unwrap_err(),
        BrokerError::Cluster(
            "invalid data-group storage 'data/61': expected a directory".to_owned()
        )
    );
}

#[test]
fn data_is_set_up_by_the_leader_of_its_group() {
    assert_eq!(
        initialization_address(Some(2), Some(3), &three_peers()).unwrap(),
        "node-2"
    );
    assert_eq!(initialization_address(None, Some(3), &three_peers()).unwrap(), "node-3");
    assert_eq!(
        initialization_address(None, None, &three_peers()).unwrap_err(),
        BrokerError::Cluster("data group has no leader".to_owned())
    );
    assert_eq!(
        initialization_address(Some(9), None, &three_peers()).unwrap_err(),
        BrokerError::Cluster("data leader node 9 has no address".to_owned())
    );
    assert!(initialization_result(ForwardedResponse::InitializeDataStream(Ok(false))).is_ok());
    assert_eq!(
        initialization_result(ForwardedResponse::Publish(Ok(0))).unwrap_err(),
        BrokerError::Cluster("data leader returned the wrong initialization response".to_owned())
    );
}

#[test]
fn the_clock_reads_milliseconds() {
    assert_eq!(clock_ms(Some((1, 999_999_999))), 1_999);
    assert_eq!(clock_ms(None), 0);
    assert_eq!(clock_ms(Some((u64::MAX, 0))), u64::MAX.wrapping_mul(1000));
    // Any time after the year 2020.
    assert!(now_ms() > 1_577_836_800_000);
}

#[test]
fn polls_carry_the_end_of_their_lease() {
    let group = RaftGroup {
        node_id: 1,
        ack_timeout_secs: 1,
        ack_timeout_nanos: 500_000_000,
        max_delivery_attempts: Some(3),
    };
    match group.poll_command("s".to_owned(), "c".to_owned(), 100) {
        Command::PollGroup {
            consumer,
            member,
            now_ms,
            lease_deadline_ms,
            max_delivery_attempts,
            ..
        } => {
            assert_eq!((consumer.as_str(), member.as_str()), ("c", "c"));
            assert_eq!((now_ms, lease_deadline_ms), (100, 1_600));
            assert_eq!(max_delivery_attempts, Some(3));
        }
        command => panic!("unexpected command: {command:?}"),
    }
    match RaftGroup::with_defaults(1).poll_command("s".to_owned(), "c".to_owned(), u64::MAX - 1) {
        Command::PollGroup { lease_deadline_ms, .. } => assert_eq!(lease_deadline_ms, u64::MAX),
        command => panic!("unexpected command: {command:?}"),
    }
}

#[test]
fn commands_say_what_was_asked() {
    assert!(matches!(
        RaftGroup::create_stream_command("a".to_owned()),
        Command::CreateStream { stream_id: Some(id), group_id: Some(group), .. }
            if id == "stream/a" && group == "group/a/data"
    ));
    assert!(matches!(
        RaftGroup::ack_command("a".to_owned(), "c".to_owned(), 3, 9),
        Command::AckGroup { consumer, member, offset: 3, delivery_token, now_ms: 9, .. }
            if consumer == "c" && member == "c" && delivery_token.is_empty()
    ));
    assert!(matches!(
        RaftGroup::replay_command("bad name".to_owned(), "c".to_owned(), 0),
        Err(BrokerError::InvalidName { kind: "stream", name }) if name == "bad name"
    ));
    assert!(matches!(
        RaftGroup::replay_command("a".to_owned(), String::new(), 0),
        Err(BrokerError::InvalidName { kind: "consumer", .. })
    ));
    assert!(RaftGroup::replay_command("a".to_owned(), "c".to_owned(), 0).is_ok());
}

#[test]
fn responses_become_results() {
    assert_eq!(
        create_stream_answer(CommandResponse::StreamCreated { created: true }, ""),
        Ok(true)
    );
    assert_eq!(
        create_stream_answer(CommandResponse::Noop, "Noop"),
        Err(BrokerError::Cluster("unexpected stream response: Noop".to_owned()))
    );
    assert_eq!(
        publish_answer("a".to_owned(), CommandResponse::StreamNotFound, ""),
        Err(BrokerError::StreamNotFound("a".to_owned()))
    );
    assert_eq!(
        replay_answer(
            "a".to_owned(),
            CommandResponse::HistoryUnavailable {
                requested_offset: 3,
                earliest_offset: 0,
                next_offset: 2,
            },
            ""
        ),
        Err(BrokerError::HistoryUnavailable {
            stream: "a".to_owned(),
            requested_offset: 3,
            earliest_offset: 0,
            next_offset: 2,
        })
    );
    assert_eq!(
        poll_group_answer("a".to_owned(), CommandResponse::Noop, "Noop"),
        Err(BrokerError::Cluster("unexpected grouped poll response: Noop".to_owned()))
    );
    assert_eq!(
        ack_group_answer(
            "a".to_owned(),
            &"c".to_owned(),
            CommandResponse::GroupAlreadyAcknowledged,
            ""
        ),
        Ok(AckResult::AlreadyAcknowledged)
    );
    assert_eq!(
        ack_group_answer("a".to_owned(), &"c".to_owned(), CommandResponse::Noop, "Noop"),
        Err(BrokerError::Cluster(
            "unexpected grouped acknowledgement response for consumer 'c': Noop".to_owned()
        ))
    );
}

#[test]
fn requests_are_routed_to_the_leader() {
    assert_eq!(poll_route(Some(1), 1), Ok(None));
    assert_eq!(poll_route(Some(2), 1), Ok(Some(2)));
    assert_eq!(poll_route(None, 1), Err(BrokerError::NotLeader { leader_id: None }));
    assert_eq!(forward_after(BrokerError::NotLeader { leader_id: Some(3) }), Ok(Some(3)));
    assert_eq!(forward_after(BrokerError::LockPoisoned), Err(BrokerError::LockPoisoned));
    assert_eq!(
        map_client_write_error(Some(Some(2)), "forward".to_owned()),
        BrokerError::NotLeader { leader_id: Some(2) }
    );
    assert_eq!(
        map_client_write_error(None, "fatal".to_owned()),
        BrokerError::Cluster("fatal".to_owned())
    );
}

#[test]
fn clusters_must_be_ready_to_say_how_they_are() {
    assert!(health_gate(true, Some(1)).is_ok());
    assert_eq!(
        health_gate(false, Some(1)),
        Err(BrokerError::Cluster("cluster is not initialized".to_owned()))
    );
    assert_eq!(
        health_gate(true, None),
        Err(BrokerError::Cluster("cluster has no elected leader".to_owned()))
    );
    assert!(validate_delivery_limit(None).is_ok());
    assert!(validate_delivery_limit(Some(1)).is_ok());
    assert_eq!(
        validate_delivery_limit(Some(0)),
        Err(BrokerError::Configuration(
            "max delivery attempts must be greater than zero".to_owned()
        ))
    );
    assert_eq!(
        validate_cluster(&Vec::new()),
        Err(BrokerError::Cluster("cluster must contain at least one node".to_owned()))
    );
    assert_eq!(leader_among(&vec![None, Some(9), Some(2)], &three_peers()), Some(2));
    assert_eq!(leader_among(&vec![None, None], &three_peers()), None);
}
