use runnel::delivery::{
    dead_letter_stream_name, is_dead_letter_stream, lease_expired, GroupConsumerState,
    GroupDelivery,
};
use runnel::engine::{Message, Offset, PollResult, ReplayMessage};
use runnel::keyed::{SortedMap, SortedSet};
use runnel::log_id::LogId;
use runnel::state_machine::{
    apply_command, stream_identity, Command, CommandResponse, GroupKind, SnapshotState,
    StoredMessage, StreamLifecycle, StreamState,
};
use runnel::state_machine_store::{
    snapshot_state_from_persisted, PersistedBody, PersistedConsumer, PersistedGroupConsumer,
    PersistedSnapshotState, PersistedStateBodyRef, PersistedStream, PersistedStreamData,
    FORMAT_VERSION,
};

fn log_id(term: u64, node_id: u64, index: u64) -> LogId {
    LogId { term, node_id, index }
}

fn stored(key: Option<&str>, payload: &[u8], published_at_ms: u64) -> StoredMessage {
    StoredMessage {
        key: key.map(str::to_owned),
        payload: payload.to_vec(),
        published_at_ms,
    }
}

fn active_stream(stream_id: &str, group_id: &str, messages: Vec<StoredMessage>) -> StreamState {
    let mut stream = StreamState::active(stream_id.to_owned(), group_id.to_owned());
    stream.messages = messages;
    stream
}

fn grouped_test_state() -> SnapshotState {
    let mut state = SnapshotState::default();
    state.streams.insert(
        "events".to_owned(),
        active_stream(
            "stream/events",
            "group/events/data",
            vec![stored(None, b"lease", 1)],
        ),
    );
    state.streams.insert(
        "clock".to_owned(),
        active_stream("stream/clock", "group/clock/data", Vec::new()),
    );
    state
}

fn data_group_kind(stream: &str) -> GroupKind {
    GroupKind::Data {
        stream: stream.to_owned(),
        stream_id: format!("stream/{stream}"),
        group_id: format!("group/{stream}/data"),
    }
}

struct PollGroupTestRequest<'a> {
    stream: &'a str,
    consumer: &'a str,
    member: &'a str,
    now_ms: u64,
    lease_deadline_ms: u64,
    max_delivery_attempts: Option<u32>,
}

fn poll_group_for_test(
    state: &mut SnapshotState,
    stream: &str,
    consumer: &str,
    member: &str,
    now_ms: u64,
    lease_deadline_ms: u64,
    log_index: u64,
) -> PollResult {
    poll_group_with_max_attempts_for_test(
        state,
        PollGroupTestRequest {
            stream,
            consumer,
            member,
            now_ms,
            lease_deadline_ms,
            max_delivery_attempts: None,
        },
        log_id(1, 1, log_index),
    )
}

fn poll_group_with_max_attempts_for_test(
    state: &mut SnapshotState,
    request: PollGroupTestRequest<'_>,
    log_id: LogId,
) -> PollResult {
    match apply_command(
        state,
        Command::PollGroup {
            stream: request.stream.to_owned(),
            consumer: request.consumer.to_owned(),
            member: request.member.to_owned(),
            now_ms: request.now_ms,
            lease_deadline_ms: request.lease_deadline_ms,
            max_delivery_attempts: request.max_delivery_attempts,
        },
        &data_group_kind(request.stream),
        log_id,
    ) {
        CommandResponse::GroupPoll { result } => result,
        response => panic!("unexpected grouped poll response: {response:?}"),
    }
}

fn poll_group_with_log_id_for_test(
    state: &mut SnapshotState,
    stream: &str,
    consumer: &str,
    member: &str,
    now_ms: u64,
    lease_deadline_ms: u64,
    log_id: LogId,
) -> PollResult {
    poll_group_with_max_attempts_for_test(
        state,
        PollGroupTestRequest {
            stream,
            consumer,
            member,
            now_ms,
            lease_deadline_ms,
            max_delivery_attempts: None,
        },
        log_id,
    )
}

fn delivery_token_for_test(
    state: &mut SnapshotState,
    member: &str,
    now_ms: u64,
    lease_deadline_ms: u64,
    log_index: u64,
) -> String {
    match poll_group_for_test(
        state,
        "events",
        "workers",
        member,
        now_ms,
        lease_deadline_ms,
        log_index,
    ) {
        PollResult::Message(message) => message.delivery_token.unwrap(),
        PollResult::Empty => panic!("expected grouped delivery"),
    }
}

fn ack_group_for_test(
    state: &mut SnapshotState,
    stream: &str,
    consumer: &str,
    member: &str,
    offset: Offset,
    delivery_token: &str,
    now_ms: u64,
) -> CommandResponse {
    apply_command(
        state,
        Command::AckGroup {
            stream: stream.to_owned(),
            consumer: consumer.to_owned(),
            member: member.to_owned(),
            offset,
            delivery_token: delivery_token.to_owned(),
            now_ms,
        },
        &data_group_kind(stream),
        log_id(1, 1, 100 + now_ms),
    )
}

fn copy_group(group: &GroupConsumerState) -> GroupConsumerState {
    let mut acknowledged_offsets = SortedSet::new();
    for i in 0..group.acknowledged_offsets.len() {
        acknowledged_offsets.insert(*group.acknowledged_offsets.item_at(i));
    }
    let mut in_flight = SortedMap::new();
    for i in 0..group.in_flight.len() {
        let delivery = group.in_flight.value_at(i);
        in_flight.insert(
            *group.in_flight.key_at(i),
            GroupDelivery {
                member: delivery.member.clone(),
                key: delivery.key.clone(),
                delivery_attempt: delivery.delivery_attempt,
                delivery_token: delivery.delivery_token.clone(),
                deadline_ms: delivery.deadline_ms,
            },
        );
    }
    let mut delivery_attempts = SortedMap::new();
    for i in 0..group.delivery_attempts.len() {
        delivery_attempts.insert(
            *group.delivery_attempts.key_at(i),
            *group.delivery_attempts.value_at(i),
        );
    }
    GroupConsumerState {
        committed_offset: group.committed_offset,
        acknowledged_offsets,
        in_flight,
        delivery_attempts,
    }
}

fn round_trip_snapshot_state_for_test(state: &SnapshotState) -> SnapshotState {
    let record = PersistedStateBodyRef::new(state);
    let streams = record
        .streams
        .iter()
        .map(|(name, stream)| {
            (
                (*name).to_owned(),
                PersistedStreamData::Current(PersistedStream {
                    stream_id: stream.stream_id.to_owned(),
                    group_id: stream.group_id.to_owned(),
                    lifecycle: stream.lifecycle.copied(),
                    messages: stream.messages.iter().map(|message| message.copy()).collect(),
                }),
            )
        })
        .collect();
    let consumers = record
        .consumers
        .iter()
        .map(|consumer| PersistedConsumer {
            stream: consumer.stream.to_owned(),
            consumer: consumer.consumer.to_owned(),
            offset: consumer.offset,
        })
        .collect();
    let group_consumers = record
        .group_consumers
        .iter()
        .map(|group| PersistedGroupConsumer {
            stream: group.stream.to_owned(),
            consumer: group.consumer.to_owned(),
            state: copy_group(group.state),
        })
        .collect();
    let mut dedup = SortedMap::new();
    for i in 0..record.dedup.len() {
        let known = record.dedup.value_at(i);
        let mut ids = SortedMap::new();
        for j in 0..known.len() {
            ids.insert(known.key_at(j).clone(), *known.value_at(j));
        }
        dedup.insert(record.dedup.key_at(i).clone(), ids);
    }
    snapshot_state_from_persisted(PersistedSnapshotState {
        version: FORMAT_VERSION,
        body: PersistedBody {
            streams,
            consumers,
            group_consumers,
            lease_clock_ms: record.lease_clock_ms,
            dedup,
            redeliveries: record.redeliveries,
            dead_letters: record.dead_letters,
        },
    })
}

#[test]
fn user_stream_with_dead_letter_hash_prefix_still_dead_letters() {
    let source = "runnel.dead-letter.user";
    let mut state = SnapshotState::default();
    state.streams.insert(
        source.to_owned(),
        active_stream(
            "stream/user",
            "group/user/data",
            vec![stored(Some("order-1"), b"poison", 1)],
        ),
    );

    assert!(matches!(
        poll_group_with_max_attempts_for_test(
            &mut state,
            PollGroupTestRequest {
                stream: source,
                consumer: "worker",
                member: "member-a",
                now_ms: 0,
                lease_deadline_ms: 1,
                max_delivery_attempts: Some(1),
            },
            log_id(1, 1, 1),
        ),
        PollResult::Message(Message {
            delivery_attempt: Some(1),
            ..
        })
    ));
    assert_eq!(
        poll_group_with_max_attempts_for_test(
            &mut state,
            PollGroupTestRequest {
                stream: source,
                consumer: "worker",
                member: "member-b",
                now_ms: 1,
                lease_deadline_ms: 2,
                max_delivery_attempts: Some(1),
            },
            log_id(1, 1, 2),
        ),
        PollResult::Empty
    );

    let dead_letter = dead_letter_stream_name(source);
    assert_eq!(dead_letter, format!("{source}.dead-letter"));
    assert_eq!(state.dead_letters, 1);
    assert_eq!(state.streams.get(&dead_letter).unwrap().messages.len(), 1);
}

#[test]
fn maximum_length_dead_letter_target_does_not_recurse() {
    let source = "s".repeat(128);
    let mut state = SnapshotState::default();
    state.streams.insert(
        source.to_owned(),
        active_stream(
            "stream/long",
            "group/long/data",
            vec![stored(None, b"poison", 1)],
        ),
    );

    assert!(matches!(
        poll_group_with_max_attempts_for_test(
            &mut state,
            PollGroupTestRequest {
                stream: &source,
                consumer: "worker",
                member: "member-a",
                now_ms: 0,
                lease_deadline_ms: 1,
                max_delivery_attempts: Some(1),
            },
            log_id(1, 1, 1),
        ),
        PollResult::Message(Message {
            delivery_attempt: Some(1),
            ..
        })
    ));
    assert_eq!(
        poll_group_with_max_attempts_for_test(
            &mut state,
            PollGroupTestRequest {
                stream: &source,
                consumer: "worker",
                member: "member-b",
                now_ms: 1,
                lease_deadline_ms: 2,
                max_delivery_attempts: Some(1),
            },
            log_id(1, 1, 2),
        ),
        PollResult::Empty
    );

    let dead_letter = dead_letter_stream_name(&source);
    assert!(dead_letter.starts_with("runnel.dead-letter."));
    assert!(matches!(
        poll_group_with_max_attempts_for_test(
            &mut state,
            PollGroupTestRequest {
                stream: &dead_letter,
                consumer: "inspector",
                member: "member-a",
                now_ms: 2,
                lease_deadline_ms: 3,
                max_delivery_attempts: Some(1),
            },
            log_id(1, 1, 3),
        ),
        PollResult::Message(Message {
            delivery_attempt: Some(1),
            ..
        })
    ));
    assert!(matches!(
        poll_group_with_max_attempts_for_test(
            &mut state,
            PollGroupTestRequest {
                stream: &dead_letter,
                consumer: "inspector",
                member: "member-b",
                now_ms: 3,
                lease_deadline_ms: 4,
                max_delivery_attempts: Some(1),
            },
            log_id(1, 1, 4),
        ),
        PollResult::Message(Message {
            delivery_attempt: Some(2),
            ..
        })
    ));
    assert!(!state.streams.contains(&format!("{dead_letter}.dead-letter")));
}

#[test]
fn grouped_lease_deadline_boundaries_are_future_past_and_equal() {
    assert!(!lease_expired(200, 199));
    assert!(lease_expired(200, 200));
    assert!(lease_expired(200, 201));

    let mut future_state = grouped_test_state();
    let first_token = delivery_token_for_test(&mut future_state, "member-a", 100, 200, 0);
    let same_delivery = poll_group_for_test(
        &mut future_state,
        "events",
        "workers",
        "member-a",
        199,
        299,
        1,
    );
    assert!(matches!(
        same_delivery,
        PollResult::Message(Message {
            delivery_attempt: Some(1),
            delivery_token: Some(token),
            ..
        }) if token == first_token
    ));

    let mut equal_state = grouped_test_state();
    let first_token = delivery_token_for_test(&mut equal_state, "member-a", 100, 200, 0);
    let redelivery = poll_group_for_test(
        &mut equal_state,
        "events",
        "workers",
        "member-b",
        200,
        300,
        1,
    );
    assert!(matches!(
        redelivery,
        PollResult::Message(Message {
            delivery_attempt: Some(2),
            delivery_token: Some(token),
            ..
        }) if token != first_token
    ));

    let mut past_state = grouped_test_state();
    delivery_token_for_test(&mut past_state, "member-a", 100, 200, 0);
    assert!(matches!(
        poll_group_for_test(&mut past_state, "events", "workers", "member-b", 201, 301, 1),
        PollResult::Message(Message {
            delivery_attempt: Some(2),
            ..
        })
    ));
}

#[test]
fn grouped_lease_forward_jump_and_fixed_leader_offset_expire_early() {
    let mut forward_jump_state = grouped_test_state();
    let old_token = delivery_token_for_test(&mut forward_jump_state, "member-a", 100, 200, 0);
    let redelivery = poll_group_for_test(
        &mut forward_jump_state,
        "events",
        "workers",
        "member-b",
        10_000,
        10_100,
        1,
    );
    let new_token = match redelivery {
        PollResult::Message(message) => {
            assert_eq!(message.delivery_attempt, Some(2));
            message.delivery_token.unwrap()
        }
        PollResult::Empty => panic!("expected redelivery after a forward clock jump"),
    };
    assert_ne!(new_token, old_token);
    assert_eq!(forward_jump_state.lease_clock_ms, 10_000);

    // A successor whose clock is fixed 2 seconds ahead can expire a
    // delivery even when its own new deadline is still in the future.
    let mut offset_state = grouped_test_state();
    let old_token = match poll_group_with_log_id_for_test(
        &mut offset_state,
        "events",
        "workers",
        "member-a",
        1_000,
        2_000,
        log_id(1, 1, 0),
    ) {
        PollResult::Message(message) => message.delivery_token.unwrap(),
        PollResult::Empty => panic!("expected initial delivery"),
    };
    let redelivery = poll_group_with_log_id_for_test(
        &mut offset_state,
        "events",
        "workers",
        "member-b",
        3_000,
        4_000,
        log_id(2, 2, 0),
    );
    assert!(!lease_expired(4_000, 3_000));
    match redelivery {
        PollResult::Message(message) => {
            assert_eq!(message.delivery_attempt, Some(2));
            assert_ne!(message.delivery_token.as_deref(), Some(old_token.as_str()));
        }
        PollResult::Empty => panic!("expected redelivery after a fixed leader offset"),
    }
    assert_eq!(offset_state.lease_clock_ms, 3_000);
}

#[test]
fn grouped_lease_successor_backward_offset_delays_expiry_until_floor_catches_up() {
    let mut state = grouped_test_state();
    let old_token = match poll_group_with_log_id_for_test(
        &mut state,
        "events",
        "workers",
        "member-a",
        1_000,
        2_000,
        log_id(1, 1, 0),
    ) {
        PollResult::Message(message) => message.delivery_token.unwrap(),
        PollResult::Empty => panic!("expected initial delivery"),
    };

    // At the old leader's deadline boundary, a successor whose clock is
    // fixed 500 ms behind reports 1_500. The floor cannot infer elapsed
    // real time, so it must leave the old delivery in flight.
    assert_eq!(
        poll_group_with_log_id_for_test(
            &mut state,
            "events",
            "workers",
            "member-b",
            1_500,
            2_500,
            log_id(2, 2, 0),
        ),
        PollResult::Empty
    );
    assert_eq!(state.lease_clock_ms, 1_500);
    let delivery = state
        .group_consumers
        .get(&("events".to_owned(), "workers".to_owned()))
        .and_then(|consumer| consumer.in_flight.get(&0))
        .expect("backward-skewed successor must retain the delivery");
    assert_eq!(delivery.delivery_token, old_token);
    assert_eq!(delivery.deadline_ms, 2_000);

    let new_token = match poll_group_with_log_id_for_test(
        &mut state,
        "events",
        "workers",
        "member-b",
        2_000,
        3_000,
        log_id(2, 2, 1),
    ) {
        PollResult::Message(message) => {
            assert_eq!(message.delivery_attempt, Some(2));
            message.delivery_token.unwrap()
        }
        PollResult::Empty => panic!("expected delivery after the floor reaches its deadline"),
    };
    assert_ne!(new_token, old_token);
    assert_eq!(state.lease_clock_ms, 2_000);

    assert_eq!(
        ack_group_for_test(&mut state, "events", "workers", "member-a", 0, &old_token, 2_000),
        CommandResponse::GroupStaleDelivery {
            consumer: "workers".to_owned(),
            offset: 0,
        }
    );
    assert_eq!(
        ack_group_for_test(&mut state, "events", "workers", "member-b", 0, &new_token, 2_000),
        CommandResponse::GroupAcknowledged
    );
}

#[test]
fn grouped_lease_clock_floor_survives_snapshot_recovery_and_backward_time() {
    let mut state = grouped_test_state();
    poll_group_for_test(&mut state, "events", "workers", "member-a", 100, 200, 0);
    assert_eq!(state.lease_clock_ms, 100);
    assert_eq!(
        poll_group_for_test(&mut state, "clock", "workers", "member-a", 200, 300, 1),
        PollResult::Empty
    );
    assert_eq!(state.lease_clock_ms, 200);

    let mut recovered = round_trip_snapshot_state_for_test(&state);
    assert_eq!(recovered.lease_clock_ms, 200);

    assert!(matches!(
        poll_group_for_test(&mut recovered, "events", "workers", "member-b", 150, 250, 2),
        PollResult::Message(Message {
            delivery_attempt: Some(2),
            ..
        })
    ));
    assert_eq!(recovered.lease_clock_ms, 200);
}

#[test]
fn grouped_lease_preserves_early_expiry_for_deadline_behind_clock_floor() {
    let mut state = grouped_test_state();
    delivery_token_for_test(&mut state, "member-a", 100, 200, 0);

    // A committed observation from another command advances the floor.
    assert_eq!(
        poll_group_for_test(&mut state, "clock", "workers", "member-a", 300, 400, 1),
        PollResult::Empty
    );
    assert_eq!(state.lease_clock_ms, 300);

    // A successor with a regressed clock can submit a deadline behind the
    // floor. Keep that absolute deadline unchanged so it expires on the
    // next command instead of silently extending the delivery.
    let regressed_token = delivery_token_for_test(&mut state, "member-b", 150, 250, 2);
    let delivery = state
        .group_consumers
        .get(&("events".to_owned(), "workers".to_owned()))
        .and_then(|consumer| consumer.in_flight.get(&0))
        .expect("redelivery must be in flight");
    assert_eq!(delivery.deadline_ms, 250);
    assert!(lease_expired(delivery.deadline_ms, state.lease_clock_ms));

    let next_delivery =
        poll_group_for_test(&mut state, "events", "workers", "member-c", 150, 350, 3);
    match next_delivery {
        PollResult::Message(message) => {
            assert_eq!(message.delivery_attempt, Some(3));
            assert_ne!(
                message.delivery_token.as_deref(),
                Some(regressed_token.as_str())
            );
        }
        PollResult::Empty => panic!("expected the behind-floor deadline to expire"),
    }
}

#[test]
fn grouped_lease_has_no_lazy_expiry_without_a_committed_command() {
    let mut state = grouped_test_state();
    let token = delivery_token_for_test(&mut state, "member-a", 100, 200, 0);

    // This state machine has no timer callback. With no elected leader,
    // no PollGroup/AckGroup command can be committed, so the delivery
    // remains in flight until a later command supplies an observation.
    let recovered = round_trip_snapshot_state_for_test(&state);
    let delivery = recovered
        .group_consumers
        .get(&("events".to_owned(), "workers".to_owned()))
        .and_then(|consumer| consumer.in_flight.get(&0))
        .expect("snapshot recovery must retain the in-flight delivery");
    assert_eq!(delivery.delivery_token, token);
    assert_eq!(recovered.lease_clock_ms, 100);

    let mut recovered = recovered;
    assert!(matches!(
        poll_group_for_test(&mut recovered, "events", "workers", "member-a", 50, 150, 1),
        PollResult::Message(Message {
            delivery_attempt: Some(1),
            delivery_token: Some(ref current_token),
            ..
        }) if current_token == &token
    ));
    assert_eq!(recovered.lease_clock_ms, 100);
}

#[test]
fn grouped_ack_preserves_backward_clock_safety_and_fences_expired_tokens() {
    let mut state = grouped_test_state();
    let old_token = delivery_token_for_test(&mut state, "member-a", 100, 200, 0);

    assert_eq!(
        ack_group_for_test(&mut state, "events", "workers", "member-a", 0, &old_token, 50),
        CommandResponse::GroupAcknowledged
    );

    let mut state = grouped_test_state();
    let old_token = delivery_token_for_test(&mut state, "member-a", 100, 200, 0);
    assert_eq!(
        ack_group_for_test(&mut state, "events", "workers", "member-a", 0, &old_token, 200),
        CommandResponse::GroupStaleDelivery {
            consumer: "workers".to_owned(),
            offset: 0,
        }
    );
    let new_token = delivery_token_for_test(&mut state, "member-b", 150, 250, 2);
    assert_ne!(old_token, new_token);
    assert_eq!(
        ack_group_for_test(&mut state, "events", "workers", "member-a", 0, &old_token, 150),
        CommandResponse::GroupStaleDelivery {
            consumer: "workers".to_owned(),
            offset: 0,
        }
    );
    assert_eq!(
        ack_group_for_test(&mut state, "events", "workers", "member-b", 0, &new_token, 150),
        CommandResponse::GroupAcknowledged
    );
}

#[test]
fn stream_creation_has_explicit_metadata_and_data_states() {
    let mut metadata_state = SnapshotState::default();
    assert_eq!(
        apply_command(
            &mut metadata_state,
            Command::CreateStream {
                stream: "events".to_owned(),
                stream_id: Some("stream/events".to_owned()),
                group_id: Some("group/events/data".to_owned()),
            },
            &GroupKind::Metadata,
            log_id(0, 0, 0),
        ),
        CommandResponse::StreamCreated { created: true }
    );
    assert_eq!(
        metadata_state.streams.get(&"events".to_owned()).unwrap().lifecycle,
        StreamLifecycle::Creating
    );
    assert_eq!(
        apply_command(
            &mut metadata_state,
            Command::ActivateStream {
                stream: "events".to_owned(),
            },
            &GroupKind::Metadata,
            log_id(0, 0, 0),
        ),
        CommandResponse::StreamActivated { activated: true }
    );
    assert_eq!(
        metadata_state.streams.get(&"events".to_owned()).unwrap().lifecycle,
        StreamLifecycle::Active
    );

    let mut data_state = SnapshotState::default();
    assert_eq!(
        apply_command(
            &mut data_state,
            Command::InitializeDataStream {
                stream: "events".to_owned(),
                stream_id: "stream/events".to_owned(),
                group_id: "group/events/data".to_owned(),
            },
            &GroupKind::Data {
                stream: "events".to_owned(),
                stream_id: "stream/events".to_owned(),
                group_id: "group/events/data".to_owned(),
            },
            log_id(0, 0, 0),
        ),
        CommandResponse::DataStreamInitialized { initialized: true }
    );
    assert_eq!(
        data_state.streams.get(&"events".to_owned()).unwrap().lifecycle,
        StreamLifecycle::Active
    );
}

fn publish(state: &mut SnapshotState, payload: &[u8], request_id: Option<&str>) -> CommandResponse {
    apply_command(
        state,
        Command::Publish {
            stream: "events".to_owned(),
            key: None,
            payload: payload.to_vec(),
            published_at_ms: 7,
            request_id: request_id.map(str::to_owned),
        },
        &GroupKind::Combined,
        log_id(1, 1, 1),
    )
}

fn replay(state: &mut SnapshotState, offset: Offset) -> CommandResponse {
    apply_command(
        state,
        Command::Replay {
            stream: "events".to_owned(),
            consumer: "worker".to_owned(),
            offset,
        },
        &GroupKind::Combined,
        log_id(1, 1, 2),
    )
}

#[test]
fn a_published_message_is_replayed() {
    let mut state = SnapshotState::default();
    assert_eq!(publish(&mut state, b"one", None), CommandResponse::Published { offset: 0 });
    assert_eq!(publish(&mut state, b"two", None), CommandResponse::Published { offset: 1 });
    assert_eq!(
        replay(&mut state, 1),
        CommandResponse::Replay {
            result: ReplayMessage {
                stream: "events".to_owned(),
                offset: 1,
                key: None,
                payload: b"two".to_vec(),
                published_at_ms: 7,
            }
        }
    );
    assert_eq!(
        replay(&mut state, 2),
        CommandResponse::HistoryUnavailable {
            requested_offset: 2,
            earliest_offset: 0,
            next_offset: 2,
        }
    );
}

#[test]
fn a_retried_publication_is_kept_once() {
    let mut state = SnapshotState::default();
    assert_eq!(publish(&mut state, b"a", Some("id-1")), CommandResponse::Published { offset: 0 });
    assert_eq!(publish(&mut state, b"b", Some("id-2")), CommandResponse::Published { offset: 1 });
    assert_eq!(publish(&mut state, b"c", Some("id-1")), CommandResponse::Published { offset: 0 });
    let messages = &state.streams.get(&"events".to_owned()).unwrap().messages;
    assert_eq!(messages.len(), 2);
    assert_eq!(messages[0].payload, b"a");
}

#[test]
fn plain_acknowledgements_come_in_order() {
    let mut state = SnapshotState::default();
    publish(&mut state, b"a", None);
    let ack = |state: &mut SnapshotState, offset: Offset| {
        apply_command(
            state,
            Command::Ack {
                stream: "events".to_owned(),
                consumer: "worker".to_owned(),
                offset,
            },
            &GroupKind::Combined,
            log_id(1, 1, 3),
        )
    };
    assert_eq!(
        ack(&mut state, 1),
        CommandResponse::OutOfOrderAck {
            expected: 0,
            received: 1,
        }
    );
    assert_eq!(ack(&mut state, 0), CommandResponse::Acknowledged);
    assert_eq!(ack(&mut state, 0), CommandResponse::AlreadyAcknowledged);
}

#[test]
fn a_metadata_group_takes_no_messages() {
    let mut state = SnapshotState::default();
    let response = apply_command(
        &mut state,
        Command::Publish {
            stream: "events".to_owned(),
            key: None,
            payload: Vec::new(),
            published_at_ms: 0,
            request_id: None,
        },
        &GroupKind::Metadata,
        log_id(1, 1, 1),
    );
    assert_eq!(response, CommandResponse::StreamNotFound);
    assert_eq!(state.streams.len(), 0);
}

#[test]
fn delivery_tokens_spell_their_log_entries() {
    let mut state = grouped_test_state();
    let result = poll_group_with_log_id_for_test(
        &mut state,
        "events",
        "workers",
        "member-a",
        0,
        10,
        log_id(3, 14, 159),
    );
    assert!(matches!(
        result,
        PollResult::Message(Message { delivery_token: Some(token), .. })
            if token == "raft-T3-N14-159"
    ));
}

#[test]
fn groups_do_not_disturb_each_other() {
    let mut state = grouped_test_state();
    let token = delivery_token_for_test(&mut state, "member-a", 0, 100, 0);
    assert!(matches!(
        poll_group_for_test(&mut state, "events", "auditors", "member-a", 0, 100, 1),
        PollResult::Message(Message { offset: 0, delivery_attempt: Some(1), .. })
    ));
    assert_eq!(
        ack_group_for_test(&mut state, "events", "workers", "member-a", 0, &token, 1),
        CommandResponse::GroupAcknowledged
    );
    assert_eq!(
        ack_group_for_test(&mut state, "events", "workers", "member-a", 0, &token, 1),
        CommandResponse::GroupAlreadyAcknowledged
    );
    assert!(matches!(
        poll_group_for_test(&mut state, "events", "auditors", "member-a", 2, 100, 2),
        PollResult::Message(Message { offset: 0, delivery_attempt: Some(1), .. })
    ));
    assert_eq!(
        poll_group_for_test(&mut state, "events", "workers", "member-b", 2, 100, 3),
        PollResult::Empty
    );
}

#[test]
fn only_the_holder_acknowledges() {
    let mut state = grouped_test_state();
    let token = delivery_token_for_test(&mut state, "member-a", 0, 100, 0);
    assert_eq!(
        ack_group_for_test(&mut state, "events", "workers", "member-b", 0, &token, 1),
        CommandResponse::GroupStaleDelivery {
            consumer: "workers".to_owned(),
            offset: 0,
        }
    );
    assert_eq!(
        ack_group_for_test(&mut state, "events", "workers", "member-a", 5, &token, 1),
        CommandResponse::GroupAckNotInFlight {
            consumer: "workers".to_owned(),
            offset: 5,
        }
    );
}

#[test]
fn dead_letter_names_fit_and_are_told_apart() {
    assert_eq!(dead_letter_stream_name("orders"), "orders.dead-letter");
    assert!(is_dead_letter_stream("orders.dead-letter"));
    assert!(!is_dead_letter_stream("orders"));
    assert!(!is_dead_letter_stream("runnel.dead-letter.user"));
    let long = dead_letter_stream_name(&"s".repeat(120));
    assert_eq!(long.len(), "runnel.dead-letter.".len() + 16);
    assert!(is_dead_letter_stream(&long));
}

#[test]
fn identities_follow_from_names() {
    assert_eq!(
        stream_identity("events"),
        ("stream/events".to_owned(), "group/events/data".to_owned())
    );
}

#[test]
fn given_up_messages_keep_their_key_and_payload() {
    let mut state = SnapshotState::default();
    state.streams.insert(
        "events".to_owned(),
        active_stream(
            "stream/events",
            "group/events/data",
            vec![stored(Some("k"), b"bad", 5), stored(None, b"good", 6)],
        ),
    );
    for (now_ms, expected) in [(0, Some(0)), (10, Some(1))] {
        let result = poll_group_with_max_attempts_for_test(
            &mut state,
            PollGroupTestRequest {
                stream: "events",
                consumer: "workers",
                member: "member-a",
                now_ms,
                lease_deadline_ms: now_ms + 5,
                max_delivery_attempts: Some(1),
            },
            log_id(1, 1, now_ms),
        );
        match (result, expected) {
            (PollResult::Message(message), Some(offset)) => assert_eq!(message.offset, offset),
            (PollResult::Empty, None) => {}
            (result, _) => panic!("unexpected poll result: {result:?}"),
        }
    }
    let dead = &state.streams.get(&"events.dead-letter".to_owned()).unwrap().messages;
    assert_eq!(dead.len(), 1);
    assert_eq!(dead[0].key.as_deref(), Some("k"));
    assert_eq!(dead[0].payload, b"bad");
    assert_eq!(dead[0].published_at_ms, 5);
    assert_eq!(state.dead_letters, 1);
}

#[test]
fn an_unacknowledged_message_comes_again_and_an_acknowledged_one_does_not() {
    let mut state = grouped_test_state();
    let first = delivery_token_for_test(&mut state, "member-a", 0, 10, 0);
    assert_eq!(
        poll_group_for_test(&mut state, "events", "workers", "member-b", 9, 20, 1),
        PollResult::Empty
    );
    let second = match poll_group_for_test(&mut state, "events", "workers", "member-b", 10, 20, 2) {
        PollResult::Message(message) => {
            assert_eq!(message.offset, 0);
            assert_eq!(message.delivery_attempt, Some(2));
            message.delivery_token.unwrap()
        }
        PollResult::Empty => panic!("expected a second delivery"),
    };
    assert_ne!(first, second);
    let group = |state: &SnapshotState| {
        state
            .group_consumers
            .get(&("events".to_owned(), "workers".to_owned()))
            .unwrap()
            .committed_offset
    };
    assert_eq!(group(&state), 0);
    assert_eq!(
        ack_group_for_test(&mut state, "events", "workers", "member-b", 0, &second, 11),
        CommandResponse::GroupAcknowledged
    );
    assert_eq!(group(&state), 1);
    assert_eq!(
        poll_group_for_test(&mut state, "events", "workers", "member-a", 30, 40, 3),
        PollResult::Empty
    );
}

#[test]
fn a_publication_retried_after_others_is_kept_once() {
    let mut state = SnapshotState::default();
    let first = publish(&mut state, b"first", Some("request-1"));
    assert_eq!(first, CommandResponse::Published { offset: 0 });
    publish(&mut state, b"second", Some("request-2"));
    publish(&mut state, b"third", None);
    let again = publish(&mut state, b"changed", Some("request-1"));
    assert_eq!(again, CommandResponse::Published { offset: 0 });
    let messages = &state.streams.get(&"events".to_owned()).unwrap().messages;
    assert_eq!(messages.len(), 3);
    assert_eq!(messages[0].payload, b"first");
}

#[test]
fn a_delivery_is_handed_out_again_after_others_and_keeps_its_lease() {
    let mut state = grouped_test_state();
    let events = "events".to_owned();
    let token = delivery_token_for_test(&mut state, "member-a", 0, 100, 0);
    publish(&mut state, b"more", None);
    let other = delivery_token_for_test(&mut state, "member-b", 10, 110, 1);
    assert_ne!(token, other);
    match poll_group_for_test(&mut state, "events", "workers", "member-a", 50, 900, 2) {
        PollResult::Message(message) => {
            assert_eq!(message.offset, 0);
            assert_eq!(message.delivery_token.as_deref(), Some(token.as_str()));
            assert_eq!(message.delivery_attempt, Some(1));
        }
        PollResult::Empty => panic!("expected the same delivery"),
    }
    let group = state.group_consumers.get(&(events, "workers".to_owned())).unwrap();
    assert_eq!(group.in_flight.get(&0).unwrap().deadline_ms, 100);
    assert_eq!(group.in_flight.len(), 2);
    assert_eq!(state.redeliveries, 0);
    assert_eq!(state.dead_letters, 0);
}

#[test]
fn an_offset_that_is_done_is_already_acknowledged_whoever_asks() {
    let mut state = grouped_test_state();
    publish(&mut state, b"more", None);
    let first = delivery_token_for_test(&mut state, "member-a", 0, 100, 0);
    let second = delivery_token_for_test(&mut state, "member-b", 1, 101, 1);
    assert_eq!(
        ack_group_for_test(&mut state, "events", "workers", "member-b", 1, &second, 2),
        CommandResponse::GroupAcknowledged
    );
    assert_eq!(
        ack_group_for_test(&mut state, "events", "workers", "member-a", 0, &first, 3),
        CommandResponse::GroupAcknowledged
    );
    publish(&mut state, b"later", None);
    for offset in [0, 1] {
        assert_eq!(
            ack_group_for_test(&mut state, "events", "workers", "someone", offset, "wrong", 500),
            CommandResponse::GroupAlreadyAcknowledged
        );
    }
}

#[test]
fn replicas_that_take_in_the_same_commands_stay_equal() {
    let run = || {
        let mut state = grouped_test_state();
        let mut answers = Vec::new();
        answers.push(publish(&mut state, b"more", Some("request")));
        let token = delivery_token_for_test(&mut state, "member-a", 0, 10, 0);
        answers.push(ack_group_for_test(
            &mut state, "events", "workers", "member-a", 0, &token, 10,
        ));
        let result = poll_group_for_test(&mut state, "events", "workers", "member-b", 11, 20, 1);
        answers.push(CommandResponse::GroupPoll { result });
        (format!("{state:?}"), answers)
    };
    assert_eq!(run(), run());
    assert_eq!(
        run().1[1],
        CommandResponse::GroupStaleDelivery {
            consumer: "workers".to_owned(),
            offset: 0,
        }
    );
}

#[test]
fn limited_polls_count_from_the_first_attempt_to_the_last() {
    let mut state = grouped_test_state();
    let mut attempts = Vec::new();
    for round in 0..5 {
        let result = poll_group_with_max_attempts_for_test(
            &mut state,
            PollGroupTestRequest {
                stream: "events",
                consumer: "workers",
                member: "member-a",
                now_ms: 100 * round,
                lease_deadline_ms: 100 * round + 50,
                max_delivery_attempts: Some(if round == 0 { 2 } else { 3 }),
            },
            log_id(1, 1, round + 1),
        );
        if let PollResult::Message(message) = result {
            attempts.push(message.delivery_attempt);
        }
    }
    assert_eq!(attempts, vec![Some(1), Some(2), Some(3)]);
    assert_eq!(state.redeliveries, 2);
    assert_eq!(state.dead_letters, 1);
}

#[test]
fn progress_is_never_lost() {
    let key = ("events".to_owned(), "workers".to_owned());
    let mut state = grouped_test_state();
    publish(&mut state, b"second", None);
    publish(&mut state, b"third", None);
    let mut progress = Vec::new();
    let members = ["member-a", "member-b", "member-c"];
    for (index, member) in members.iter().enumerate() {
        poll_group_for_test(&mut state, "events", "workers", member, 0, 100, index as u64 + 1);
    }
    for (member, offset) in [("member-b", 1), ("member-a", 0), ("member-a", 0), ("member-c", 2)] {
        ack_group_for_test(&mut state, "events", "workers", member, offset, "", 10);
        let group = state.group_consumers.get(&key).unwrap();
        progress.push(group.committed_offset);
        assert!(!group.acknowledged_offsets.contains(&group.committed_offset));
    }
    assert_eq!(progress, vec![0, 2, 2, 3]);
    let stream = state.streams.get(&"events".to_owned()).unwrap();
    assert_eq!(stream.stream_id, "stream/events");
    assert_eq!(stream.group_id, "group/events/data");
}
