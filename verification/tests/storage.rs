use runnel::cluster_storage::{
    ensure_storage_metadata, legacy_single_group_paths, open_state_machine, refuse_legacy_paths,
    validate_persisted_cluster_storage, validate_persisted_group_storage,
    validate_state_machine_storage, ClusterFiles, DataGroupEntry, DataGroupManifest, FoundFile,
    GroupFiles, PersistedStorageMetadata, StateMachineFiles, STORAGE_METADATA_FORMAT_VERSION,
};
use runnel::engine::{BrokerError, IoFailure, IoKind, Message, PollResult};
use runnel::keyed::SortedMap;
use runnel::log_entry::{Entry, EntryPayload, SnapshotMeta, StoredMembership, Vote};
use runnel::log_id::LogId;
use runnel::log_store::{LogStore, PersistedLog};
use runnel::naming::path_component;
use runnel::state_machine::{
    Command, CommandResponse, GroupKind, SnapshotState, StoredMessage, StreamLifecycle,
    StreamMetadata,
};
use runnel::state_machine_journal::{
    encode_record, parse, replay, retained, split_records, validate, JournalEnd, JournalEntry,
    MAX_RECORD_SIZE,
};
use runnel::state_machine_store::{
    validate_snapshot_data, PersistedBody, PersistedConsumer, PersistedSnapshotState,
    PersistedState, PersistedStreamData, SnapshotMetrics, StateMachineData, StoredSnapshot,
    FORMAT_VERSION,
};
use runnel::storage::{FileRead, PathKind};
use runnel::wire::{high_first_bytes, low_first_bytes, number_from};

fn log_id(term: u64, index: u64) -> LogId {
    LogId { term, node_id: 1, index }
}

fn blank(term: u64, index: u64) -> JournalEntry {
    JournalEntry {
        version: 1,
        log_id: log_id(term, index),
        payload: EntryPayload::Blank,
    }
}

fn publication(index: u64, payload: &str) -> JournalEntry {
    JournalEntry {
        version: 1,
        log_id: log_id(1, index),
        payload: EntryPayload::Normal(Command::Publish {
            stream: "events".to_owned(),
            key: None,
            payload: payload.as_bytes().to_vec(),
            published_at_ms: index,
            request_id: None,
        }),
    }
}

fn cluster_text(error: BrokerError) -> String {
    match error {
        BrokerError::Cluster(text) => text,
        error => panic!("expected an error of the cluster, got {error:?}"),
    }
}

fn legacy_body() -> PersistedBody {
    let messages = vec![
        StoredMessage {
            key: None,
            payload: b"skip".to_vec(),
            published_at_ms: 1,
        },
        StoredMessage {
            key: Some("key".to_owned()),
            payload: b"recover".to_vec(),
            published_at_ms: 2,
        },
    ];
    PersistedBody {
        streams: vec![("events".to_owned(), PersistedStreamData::Legacy(messages))],
        consumers: vec![PersistedConsumer {
            stream: "events".to_owned(),
            consumer: "worker".to_owned(),
            offset: 1,
        }],
        group_consumers: Vec::new(),
        lease_clock_ms: 0,
        dedup: SortedMap::new(),
        redeliveries: 0,
        dead_letters: 0,
    }
}

fn empty_body() -> PersistedBody {
    PersistedBody {
        streams: Vec::new(),
        consumers: Vec::new(),
        group_consumers: Vec::new(),
        lease_clock_ms: 0,
        dedup: SortedMap::new(),
        redeliveries: 0,
        dead_letters: 0,
    }
}

fn checkpoint(version: u32, body: PersistedBody) -> PersistedState {
    PersistedState {
        version,
        last_applied_log: None,
        last_membership: StoredMembership::default(),
        body,
    }
}

fn snapshot(last_log_id: Option<LogId>) -> StoredSnapshot {
    StoredSnapshot {
        meta: SnapshotMeta {
            last_log_id,
            last_membership: StoredMembership::default(),
            snapshot_id: "legacy".to_owned(),
        },
        data: Vec::new(),
    }
}

fn no_files(kind: PathKind) -> StateMachineFiles {
    StateMachineFiles {
        path: "d/state-machine".to_owned(),
        kind,
        checkpoint: FoundFile {
            path: "d/state-machine/state-machine.json".to_owned(),
            read: FileRead::Missing,
        },
        snapshot: FoundFile {
            path: "d/state-machine/snapshot.json".to_owned(),
            read: FileRead::Missing,
        },
        snapshot_state: Err("no snapshot".to_owned()),
        journal_path: "d/state-machine/state-machine.log".to_owned(),
        journal: Ok((Vec::new(), JournalEnd::Complete)),
    }
}

fn assert_recovered(state: &SnapshotState) {
    assert_eq!(
        state.metadata(&"events".to_owned()).unwrap(),
        StreamMetadata {
            stream_id: "stream/events".to_owned(),
            group_id: "group/events/data".to_owned(),
            lifecycle: StreamLifecycle::Active,
        }
    );
    assert!(matches!(
        state.poll(&"events".to_owned(), &"worker".to_owned()).unwrap(),
        PollResult::Message(Message {
            offset: 1,
            key: Some(key),
            payload,
            ..
        }) if key == "key" && payload == b"recover"
    ));
}

#[test]
fn a_legacy_checkpoint_recovers_messages_and_progress() {
    let mut files = no_files(PathKind::Directory);
    files.checkpoint.read = FileRead::Decoded(checkpoint(1, legacy_body()));
    let opened = open_state_machine(files).unwrap();
    assert_recovered(&opened.state.state);
    assert!(opened.snapshot.is_none());
}

#[test]
fn a_legacy_snapshot_recovers_messages_and_progress() {
    let mut files = no_files(PathKind::Directory);
    files.snapshot.read = FileRead::Decoded(snapshot(Some(log_id(1, 1))));
    files.snapshot_state = Ok(PersistedSnapshotState {
        version: 1,
        body: legacy_body(),
    });
    let opened = open_state_machine(files).unwrap();
    assert_recovered(&opened.state.state);
    assert_eq!(opened.state.last_applied_log, Some(log_id(1, 1)));
    assert!(opened.snapshot.is_some());
}

#[test]
fn a_snapshot_behind_the_checkpoint_is_passed_over() {
    let mut files = no_files(PathKind::Directory);
    let mut state = checkpoint(2, legacy_body());
    state.last_applied_log = Some(log_id(2, 0));
    files.checkpoint.read = FileRead::Decoded(state);
    files.snapshot.read = FileRead::Decoded(snapshot(Some(log_id(1, 9))));
    files.snapshot_state = Ok(PersistedSnapshotState {
        version: 2,
        body: empty_body(),
    });
    let opened = open_state_machine(files).unwrap();
    assert_eq!(opened.state.last_applied_log, Some(log_id(2, 0)));
    assert_recovered(&opened.state.state);
}

#[test]
fn unusable_state_machine_files_are_named() {
    let mut files = no_files(PathKind::Directory);
    files.checkpoint.read = FileRead::Undecodable("expected ident".to_owned());
    assert_eq!(
        cluster_text(open_state_machine(files).unwrap_err()),
        "invalid persisted state-machine 'd/state-machine/state-machine.json': expected ident"
    );

    let mut files = no_files(PathKind::Directory);
    files.checkpoint.read = FileRead::Decoded(checkpoint(FORMAT_VERSION + 1, empty_body()));
    assert_eq!(
        cluster_text(validate_state_machine_storage(files).unwrap_err()),
        "unsupported state-machine format version 3 in 'd/state-machine/state-machine.json' (checkpoint; supported versions: 1 and 2)"
    );

    let mut files = no_files(PathKind::Directory);
    files.snapshot.read = FileRead::Decoded(snapshot(None));
    files.snapshot_state = Err("expected value".to_owned());
    assert_eq!(
        cluster_text(open_state_machine(files).unwrap_err()),
        "invalid persisted snapshot 'd/state-machine/snapshot.json': expected value"
    );

    let mut files = no_files(PathKind::Directory);
    files.snapshot.read = FileRead::Decoded(snapshot(None));
    files.snapshot_state = Ok(PersistedSnapshotState {
        version: FORMAT_VERSION + 1,
        body: empty_body(),
    });
    assert_eq!(
        cluster_text(open_state_machine(files).unwrap_err()),
        "invalid persisted snapshot 'd/state-machine/snapshot.json': unsupported snapshot format version 3 (supported versions: 1 and 2)"
    );

    let mut files = no_files(PathKind::Directory);
    let mut record = blank(1, 0);
    record.version = 2;
    files.journal = Ok((vec![Ok(record)], JournalEnd::Complete));
    assert_eq!(
        cluster_text(open_state_machine(files).unwrap_err()),
        "unsupported state-machine journal format version 2 in 'd/state-machine/state-machine.log' (supported version 1)"
    );

    let mut files = no_files(PathKind::Directory);
    files.journal = Err("denied".to_owned());
    assert_eq!(
        cluster_text(validate_state_machine_storage(files).unwrap_err()),
        "could not read state-machine journal 'd/state-machine/state-machine.log': denied"
    );

    assert_eq!(
        cluster_text(validate_state_machine_storage(no_files(PathKind::Other)).unwrap_err()),
        "invalid state-machine storage 'd/state-machine': expected a directory"
    );
    assert!(validate_state_machine_storage(no_files(PathKind::Missing)).is_ok());
}

#[test]
fn a_journal_gives_back_its_records_and_drops_a_partial_tail() {
    let first = b"{\"a\":1}".to_vec();
    let second = b"{}".to_vec();
    let mut bytes = encode_record(&first).unwrap();
    bytes.extend(encode_record(&second).unwrap());
    let whole = bytes.len();
    bytes.extend([0x01, 0x02, 0x03]);

    let (places, end) = split_records(&bytes);
    assert_eq!(places.len(), 2);
    assert_eq!(&bytes[places[0].0..places[0].1], first.as_slice());
    assert_eq!(&bytes[places[1].0..places[1].1], second.as_slice());
    assert!(matches!(end, JournalEnd::Truncated { at } if at == whole));
    assert!(matches!(split_records(&bytes[..whole]).1, JournalEnd::Complete));

    let (entries, truncated_at) = parse(
        vec![Ok(blank(1, 7)), Ok(blank(1, 8))],
        end,
        "state-machine.log",
    )
    .unwrap();
    assert_eq!(entries.len(), 2);
    assert_eq!(entries[0].log_id, log_id(1, 7));
    assert_eq!(truncated_at, Some(whole));
}

#[test]
fn a_record_that_is_too_large_stops_a_journal() {
    let bytes = low_first_bytes(MAX_RECORD_SIZE + 1);
    let (places, end) = split_records(&bytes);
    assert!(places.is_empty());
    assert!(matches!(end, JournalEnd::TooLarge { len } if len == MAX_RECORD_SIZE + 1));
    assert_eq!(
        cluster_text(validate(Vec::new(), end, "journal").unwrap_err()),
        format!(
            "state-machine journal record is too large: {} bytes",
            MAX_RECORD_SIZE + 1
        )
    );
}

#[test]
fn an_undecodable_record_is_named_before_what_follows_it() {
    let decoded = vec![
        Ok(blank(1, 1)),
        Err("eof".to_owned()),
        Err("later".to_owned()),
    ];
    assert_eq!(
        cluster_text(validate(decoded, JournalEnd::Complete, "j").unwrap_err()),
        "invalid state-machine journal record in 'j': eof"
    );
}

#[test]
fn replaying_a_journal_twice_changes_nothing() {
    let records = || vec![publication(1, "one"), publication(2, "two")];
    let mut state = StateMachineData::default();
    replay(&mut state, records(), &GroupKind::Combined);
    replay(&mut state, records(), &GroupKind::Combined);
    let messages = &state.state.streams.get(&"events".to_owned()).unwrap().messages;
    assert_eq!(messages.len(), 2);
    assert_eq!(messages[1].payload, b"two");
    assert_eq!(state.last_applied_log, Some(log_id(1, 2)));
}

#[test]
fn a_checkpoint_and_the_retained_records_restore_the_state_machine() {
    let mut whole = StateMachineData::default();
    replay(
        &mut whole,
        vec![publication(1, "one"), publication(2, "two"), publication(3, "three")],
        &GroupKind::Combined,
    );

    let mut part = StateMachineData::default();
    replay(&mut part, vec![publication(1, "one")], &GroupKind::Combined);
    let kept = retained(
        vec![publication(1, "one"), publication(2, "two"), publication(3, "three")],
        part.last_applied_log,
    );
    assert_eq!(kept.len(), 2);
    replay(&mut part, kept, &GroupKind::Combined);

    let name = "events".to_owned();
    let left = &whole.state.streams.get(&name).unwrap().messages;
    let right = &part.state.streams.get(&name).unwrap().messages;
    assert_eq!(left.len(), right.len());
    for (a, b) in left.iter().zip(right) {
        assert_eq!(a.payload, b.payload);
    }
    assert_eq!(whole.last_applied_log, part.last_applied_log);
}

#[test]
fn batches_of_entries_do_not_matter() {
    let entries = |payloads: &[&str], first: u64| {
        payloads
            .iter()
            .enumerate()
            .map(|(at, payload)| {
                let record = publication(first + at as u64, payload);
                Entry {
                    log_id: record.log_id,
                    payload: record.payload,
                }
            })
            .collect::<Vec<_>>()
    };
    let kind = GroupKind::Combined;
    let mut whole = StateMachineData::default();
    let together = whole.apply(entries(&["one", "two", "three"], 1), &kind);

    let mut parts = StateMachineData::default();
    let mut apart = parts.apply(entries(&["one"], 1), &kind);
    apart.extend(parts.apply(entries(&["two", "three"], 2), &kind));

    assert_eq!(together, apart);
    assert_eq!(together.len(), 3);
    assert_eq!(together[2], CommandResponse::Published { offset: 2 });
    assert_eq!(whole.last_applied_log, parts.last_applied_log);
    let name = "events".to_owned();
    assert_eq!(whole.state.streams.get(&name).unwrap().messages.len(), 3);
    assert_eq!(parts.state.streams.get(&name).unwrap().messages.len(), 3);
}

#[test]
fn a_rejected_snapshot_says_why() {
    let failure = validate_snapshot_data(Err("expected value".to_owned())).unwrap_err();
    assert_eq!(failure.kind, IoKind::InvalidData);
    assert_eq!(failure.message, "expected value");
    assert!(validate_snapshot_data(Ok(PersistedSnapshotState {
        version: 1,
        body: empty_body(),
    }))
    .is_ok());
}

#[test]
fn an_installed_snapshot_takes_the_place_of_the_state() {
    let mut state = StateMachineData::default();
    replay(&mut state, vec![publication(1, "gone")], &GroupKind::Combined);
    let stored = snapshot(Some(log_id(2, 5)));
    state.install(
        &stored.meta,
        PersistedSnapshotState {
            version: 1,
            body: legacy_body(),
        },
    );
    assert_recovered(&state.state);
    assert_eq!(state.last_applied_log, Some(log_id(2, 5)));
    assert_eq!(state.describe_snapshot(4).snapshot_id, "snapshot-5");
}

#[test]
fn snapshot_work_is_counted() {
    let mut metrics = SnapshotMetrics::default();
    metrics.build_started();
    metrics.build_finished(true);
    metrics.build_started();
    metrics.build_finished(false);
    metrics.install_started();
    assert_eq!(metrics.snapshot().installs_in_progress, 1);
    metrics.install_finished(None);
    metrics.install_started();
    metrics.install_finished(Some(12));
    metrics.record_snapshot_chunk(7, false);
    metrics.record_snapshot_chunk(5, true);
    let counts = metrics.snapshot();
    assert_eq!(counts.builds_started, 2);
    assert_eq!(counts.builds_completed, 1);
    assert_eq!(counts.build_failures, 1);
    assert_eq!(counts.installs_started, 2);
    assert_eq!(counts.install_failures, 1);
    assert_eq!(counts.installs_completed, 1);
    assert_eq!(counts.installs_in_progress, 0);
    assert_eq!(counts.install_bytes, 12);
    assert_eq!(counts.transfer_chunks, 2);
    assert_eq!(counts.transfer_final_chunks, 1);
    assert_eq!(counts.transfer_bytes, 12);
}

fn entry(index: u64) -> Entry {
    Entry {
        log_id: log_id(1, index),
        payload: EntryPayload::Blank,
    }
}

#[test]
fn a_log_keeps_what_is_appended_and_forgets_what_it_is_told_to() {
    let mut store = LogStore::open(FileRead::Missing, "raft-log.json").unwrap();
    assert_eq!(store.get_log_state().last_log_id, None);
    store.append((1..=5).map(entry).collect());
    assert_eq!(store.get_log_state().last_log_id, Some(log_id(1, 5)));
    let found = store.try_get_log_entries(2, Some(4));
    assert_eq!(
        found.iter().map(|entry| entry.log_id.index).collect::<Vec<_>>(),
        vec![2, 3]
    );
    store.truncate(log_id(1, 5));
    assert_eq!(store.get_log_state().last_log_id, Some(log_id(1, 4)));
    store.purge(log_id(1, 4));
    let state = store.get_log_state();
    assert_eq!(state.last_purged_log_id, Some(log_id(1, 4)));
    assert_eq!(state.last_log_id, Some(log_id(1, 4)));
    assert!(store.try_get_log_entries(0, None).is_empty());
    let vote = Vote { term: 3, node_id: 2, committed: true };
    store.save_vote(vote);
    store.save_committed(Some(log_id(1, 4)));
    assert_eq!(store.vote, Some(vote));
    assert_eq!(store.committed, Some(log_id(1, 4)));
}

fn persisted_log(version: u32) -> PersistedLog {
    PersistedLog {
        version,
        last_purged_log_id: None,
        log: SortedMap::new(),
        committed: None,
        vote: None,
    }
}

#[test]
fn logs_of_another_format_are_refused() {
    let store = LogStore::open(FileRead::Decoded(persisted_log(1)), "raft-log.json").unwrap();
    assert_eq!(store.get_log_state().last_log_id, None);

    let failure = LogStore::open(FileRead::Decoded(persisted_log(2)), "raft-log.json").unwrap_err();
    assert_eq!(failure.kind, IoKind::InvalidData);
    assert_eq!(
        failure.message,
        "unsupported log format version 2 in 'raft-log.json' (Raft log; supported version 1)"
    );
}

fn group_files(kind: PathKind, log: FileRead<PersistedLog>) -> GroupFiles {
    GroupFiles {
        path: "d".to_owned(),
        kind,
        log: FoundFile {
            path: "d/raft-log.json".to_owned(),
            read: log,
        },
        state_machine: no_files(PathKind::Missing),
    }
}

#[test]
fn an_unusable_log_of_a_group_is_told_as_the_storage_layer_tells_it() {
    let error = validate_persisted_group_storage(group_files(
        PathKind::Directory,
        FileRead::Decoded(persisted_log(2)),
    ))
    .unwrap_err();
    let text = cluster_text(error);
    assert!(text.starts_with("when Read Logs: "));
    assert!(text.ends_with(
        ": unsupported log format version 2 in 'd/raft-log.json' (Raft log; supported version 1)"
    ));

    assert!(validate_persisted_group_storage(group_files(
        PathKind::Directory,
        FileRead::Missing
    ))
    .is_ok());
    assert_eq!(
        cluster_text(
            validate_persisted_group_storage(group_files(PathKind::Other, FileRead::Missing))
                .unwrap_err()
        ),
        "invalid clustered group storage 'd': expected a directory"
    );
}

fn own_metadata() -> PersistedStorageMetadata {
    PersistedStorageMetadata {
        version: STORAGE_METADATA_FORMAT_VERSION,
        cluster_name: "alpha".to_owned(),
        node_id: 1,
    }
}

#[test]
fn storage_belongs_to_one_node_of_one_cluster() {
    let alpha = "alpha".to_owned();
    let recorded = ensure_storage_metadata(FileRead::Missing, "storage.json", false, &alpha, 1)
        .unwrap()
        .unwrap();
    assert_eq!(recorded, own_metadata());
    assert_eq!(
        ensure_storage_metadata(FileRead::Decoded(recorded), "storage.json", true, &alpha, 1)
            .unwrap(),
        None
    );
    assert_eq!(
        cluster_text(
            ensure_storage_metadata(
                FileRead::Decoded(own_metadata()),
                "storage.json",
                true,
                &"beta".to_owned(),
                1,
            )
            .unwrap_err()
        ),
        "cluster identity mismatch: storage belongs to cluster 'alpha', configured cluster is 'beta'"
    );
    assert_eq!(
        cluster_text(
            ensure_storage_metadata(
                FileRead::Decoded(own_metadata()),
                "storage.json",
                true,
                &alpha,
                2,
            )
            .unwrap_err()
        ),
        "node identity mismatch: storage belongs to node 1, configured node is 2"
    );
    let mut newer = own_metadata();
    newer.version = 2;
    assert_eq!(
        cluster_text(
            ensure_storage_metadata(FileRead::Decoded(newer), "storage.json", true, &alpha, 1)
                .unwrap_err()
        ),
        "unsupported storage metadata format version 2 in 'storage.json' (supported version 1)"
    );
    assert!(cluster_text(
        ensure_storage_metadata(FileRead::Missing, "storage.json", true, &alpha, 1).unwrap_err()
    )
    .contains("missing storage metadata"));
    assert_eq!(
        cluster_text(
            ensure_storage_metadata(
                FileRead::Unreadable("denied".to_owned()),
                "storage.json",
                true,
                &alpha,
                1,
            )
            .unwrap_err()
        ),
        "could not read persisted storage metadata 'storage.json': denied"
    );
    assert_eq!(
        cluster_text(
            ensure_storage_metadata(
                FileRead::Undecodable("eof".to_owned()),
                "storage.json",
                true,
                &alpha,
                1,
            )
            .unwrap_err()
        ),
        "invalid persisted storage metadata 'storage.json': eof"
    );
}

#[test]
fn older_layouts_are_refused() {
    assert_eq!(
        legacy_single_group_paths(),
        vec![
            "raft-log.json",
            "state-machine",
            "state-machine.json",
            "snapshot.json",
            "state-machine.log"
        ]
    );
    assert!(refuse_legacy_paths(&Vec::new()).is_ok());
    let found = vec!["d/raft-log.json".to_owned(), "d/state-machine".to_owned()];
    assert_eq!(
        cluster_text(refuse_legacy_paths(&found).unwrap_err()),
        "legacy single-group storage detected at 'd/raft-log.json', 'd/state-machine'; migrate the data directory before starting this clustered layout"
    );
}

fn data_group(stream: &str) -> DataGroupEntry {
    let name = path_component(stream);
    DataGroupEntry {
        path: format!("groups/data/{name}"),
        name: name.clone(),
        is_directory: true,
        manifest_path: format!("groups/data/{name}/group.json"),
        manifest: Ok(FileRead::Decoded(DataGroupManifest {
            stream: stream.to_owned(),
            stream_id: format!("stream/{stream}"),
            group_id: format!("group/{stream}/data"),
        })),
        storage: Ok(()),
    }
}

fn cluster(entries: Vec<DataGroupEntry>) -> ClusterFiles {
    ClusterFiles {
        groups_path: "groups".to_owned(),
        groups: PathKind::Directory,
        metadata_path: "groups/metadata".to_owned(),
        metadata_exists: true,
        metadata_storage: Ok(()),
        data_path: "groups/data".to_owned(),
        data: PathKind::Directory,
        entries: Ok(entries.into_iter().map(Ok).collect()),
    }
}

#[test]
fn a_sound_cluster_layout_is_accepted() {
    assert!(validate_persisted_cluster_storage(cluster(vec![data_group("a"), data_group("b")]))
        .is_ok());
    let mut found = cluster(Vec::new());
    found.groups = PathKind::Missing;
    found.metadata_exists = false;
    assert!(validate_persisted_cluster_storage(found).is_ok());
}

#[test]
fn the_first_fault_of_a_cluster_layout_is_told() {
    let refused = |found: ClusterFiles| {
        cluster_text(validate_persisted_cluster_storage(found).unwrap_err())
    };

    let mut found = cluster(Vec::new());
    found.groups = PathKind::Other;
    assert_eq!(
        refused(found),
        "invalid clustered storage 'groups': expected a groups directory"
    );

    let mut found = cluster(Vec::new());
    found.metadata_exists = false;
    assert_eq!(
        refused(found),
        "missing metadata group storage 'groups/metadata'; refusing to open a partial clustered layout"
    );

    let mut found = cluster(Vec::new());
    found.metadata_storage = Err(BrokerError::Cluster("bad metadata".to_owned()));
    assert_eq!(refused(found), "bad metadata");

    let mut found = cluster(Vec::new());
    found.data = PathKind::Other;
    assert_eq!(
        refused(found),
        "invalid clustered storage 'groups/data': expected a data-groups directory"
    );

    let mut file = data_group("a");
    file.is_directory = false;
    assert_eq!(
        refused(cluster(vec![file])),
        "invalid data-group entry 'groups/data/61': expected a directory"
    );

    let mut bare = data_group("a");
    bare.manifest = Ok(FileRead::Missing);
    assert_eq!(
        refused(cluster(vec![bare])),
        "missing data-group manifest 'groups/data/61/group.json'"
    );

    let mut garbled = data_group("a");
    garbled.manifest = Ok(FileRead::Undecodable("eof".to_owned()));
    assert_eq!(
        refused(cluster(vec![garbled])),
        "invalid data-group manifest 'groups/data/61/group.json': eof"
    );

    let mut moved = data_group("a");
    moved.name = "62".to_owned();
    moved.path = "groups/data/62".to_owned();
    moved.manifest_path = "groups/data/62/group.json".to_owned();
    assert_eq!(
        refused(cluster(vec![moved])),
        "data-group manifest 'groups/data/62/group.json' does not match its directory 'groups/data/62'"
    );

    let mut foreign = data_group("a");
    foreign.manifest = Ok(FileRead::Decoded(DataGroupManifest {
        stream: "a".to_owned(),
        stream_id: "stream/a".to_owned(),
        group_id: "group/b/data".to_owned(),
    }));
    assert_eq!(
        refused(cluster(vec![foreign])),
        "data-group manifest 'groups/data/61/group.json' has incompatible stream/group identity"
    );

    let mut first = data_group("a");
    first.storage = Err(BrokerError::Cluster("first".to_owned()));
    let mut second = data_group("b");
    second.storage = Err(BrokerError::Cluster("second".to_owned()));
    assert_eq!(refused(cluster(vec![first, second])), "first");

    let mut unreadable = data_group("a");
    unreadable.manifest = Err(IoFailure {
        kind: IoKind::Other,
        message: "denied".to_owned(),
    });
    assert!(matches!(
        validate_persisted_cluster_storage(cluster(vec![unreadable])),
        Err(BrokerError::Io(failure)) if failure.message == "denied"
    ));
}

#[test]
fn lengths_round_trip_in_both_orders() {
    assert_eq!(low_first_bytes(0x0102_0304), vec![4, 3, 2, 1]);
    assert_eq!(high_first_bytes(0x0102_0304), vec![1, 2, 3, 4]);
    assert_eq!(number_from(4, 3, 2, 1), 0x0102_0304);
}

#[test]
fn sorted_maps_keep_their_keys_in_order() {
    let mut map: SortedMap<String, u64> = SortedMap::new();
    for (key, value) in [("b", 2), ("a", 1), ("c", 3), ("a", 4)] {
        map.insert(key.to_owned(), value);
    }
    assert_eq!(map.len(), 3);
    assert_eq!(map.key_at(0), "a");
    assert_eq!(*map.value_at(0), 4);
    assert_eq!(map.remove(&"b".to_owned()), Some(2));
    assert_eq!(map.remove(&"b".to_owned()), None);
    assert!(!map.contains(&"b".to_owned()));
}

#[test]
fn the_condition_of_a_state_counts_what_it_keeps() {
    let mut state = StateMachineData::default();
    replay(
        &mut state,
        vec![publication(1, "12345"), publication(2, "678")],
        &GroupKind::Combined,
    );
    let health = state.state.health();
    assert_eq!(health.streams, 1);
    assert_eq!(health.storage_bytes, 8);
    assert_eq!(health.in_flight_deliveries, 0);
}

#[test]
fn dead_letter_streams_are_found_by_their_source() {
    let mut state = StateMachineData::default();
    replay(&mut state, vec![publication(1, "x")], &GroupKind::Combined);
    let (name, metadata) = state
        .state
        .dead_letter_source(&"events.dead-letter".to_owned())
        .unwrap();
    assert_eq!(name, "events");
    assert_eq!(metadata.group_id, "group/events/data");
    let (name, _) = state
        .state
        .metadata_by_group_id(&"group/events/data".to_owned())
        .unwrap();
    assert_eq!(name, "events");
    assert!(state.state.metadata_by_group_id(&"group/none/data".to_owned()).is_none());
}
