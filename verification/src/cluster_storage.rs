//! What a data directory must hold before a node starts on it.

use vstd::prelude::*;
use vstd::utf8::*;

use crate::engine::{BrokerError, IoFailure};
use crate::log_id::NodeId;
use crate::log_store::{
    log_read_error, log_read_error_text, log_version_text, LogStore, PersistedLog, FORMAT_VERSION,
};
use crate::naming::path_component;
use crate::state_machine::{identity_of, stream_identity, StreamView};
use crate::state_machine_journal::{
    is_good, is_parsed, parse, record_error_text, too_large_text, validate, JournalEnd,
    JournalEntry,
};
use crate::state_machine_store::{
    checkpoint_version_text, is_supported_version, read_persisted_snapshot, read_persisted_state,
    recovered_machine, restored, snapshot_version_text, validate_persisted_snapshot,
    PersistedSnapshotState, PersistedState, StateMachineData, StoredSnapshot,
};
use crate::storage::{is_cluster_error, path_error, path_text, FileRead, PathKind};
use crate::text::{
    decimal, decimal_text, hex_bytes, join3, join5, law_bytes_are_spelled_in_one_way, spells_bytes,
};

verus! {

/// The format of the storage metadata.
pub const STORAGE_METADATA_FORMAT_VERSION: u32 = 1;

/// The file that holds the storage metadata.
pub const STORAGE_METADATA_FILE: &'static str = "storage.json";

/// Whose data a directory holds.
#[derive(Debug, PartialEq, Eq)]
pub struct PersistedStorageMetadata {
    pub version: u32,
    pub cluster_name: String,
    pub node_id: NodeId,
}

/// What is wrong with the storage metadata of a directory, if anything is.
pub open spec fn storage_metadata_fault(
    read: FileRead<PersistedStorageMetadata>,
    path: Seq<char>,
    groups_exist: bool,
    cluster_name: Seq<char>,
    node_id: NodeId,
) -> Option<Seq<char>> {
    match read {
        FileRead::Missing => if groups_exist {
            Some(
                "persisted clustered storage is missing storage metadata; refusing to open it because its cluster identity cannot be verified"@,
            )
        } else {
            None
        },
        FileRead::Unreadable(reason) => Some(
            path_text("could not read persisted storage metadata"@, path, reason@),
        ),
        FileRead::Undecodable(reason) => Some(
            path_text("invalid persisted storage metadata"@, path, reason@),
        ),
        FileRead::Decoded(metadata) => if metadata.version != STORAGE_METADATA_FORMAT_VERSION {
            Some(
                "unsupported storage metadata format version "@ + decimal(metadata.version as nat)
                    + " in '"@ + path + "' (supported version 1)"@,
            )
        } else if metadata.cluster_name@ != cluster_name {
            Some(
                "cluster identity mismatch: storage belongs to cluster '"@ + metadata.cluster_name@
                    + "', configured cluster is '"@ + cluster_name + "'"@,
            )
        } else if metadata.node_id != node_id {
            Some(
                "node identity mismatch: storage belongs to node "@ + decimal(
                    metadata.node_id as nat,
                ) + ", configured node is "@ + decimal(node_id as nat) + ""@,
            )
        } else {
            None
        },
    }
}

/// Accepts a directory that belongs to this node of this cluster, or says why
/// not. For a directory that nobody has used yet the metadata to record comes
/// back.
pub fn ensure_storage_metadata(
    read: FileRead<PersistedStorageMetadata>,
    path: &str,
    groups_exist: bool,
    cluster_name: &String,
    node_id: NodeId,
) -> (r: Result<Option<PersistedStorageMetadata>, BrokerError>)
    ensures
        match storage_metadata_fault(read, path@, groups_exist, cluster_name@, node_id) {
            Some(text) => r is Err && is_cluster_error(r->Err_0, text),
            None => r matches Ok(to_record) && to_record == (if read is Missing {
                Some(
                    PersistedStorageMetadata {
                        version: STORAGE_METADATA_FORMAT_VERSION,
                        cluster_name: *cluster_name,
                        node_id,
                    },
                )
            } else {
                None
            }),
        },
{
    match read {
        FileRead::Missing => {
            if groups_exist {
                return Err(
                    BrokerError::Cluster(
                        "persisted clustered storage is missing storage metadata; refusing to open it because its cluster identity cannot be verified".to_owned(),
                    ),
                );
            }
            Ok(
                Some(
                    PersistedStorageMetadata {
                        version: STORAGE_METADATA_FORMAT_VERSION,
                        cluster_name: cluster_name.clone(),
                        node_id,
                    },
                ),
            )
        },
        FileRead::Unreadable(reason) => Err(
            path_error("could not read persisted storage metadata", path, reason.as_str()),
        ),
        FileRead::Undecodable(reason) => Err(
            path_error("invalid persisted storage metadata", path, reason.as_str()),
        ),
        FileRead::Decoded(metadata) => {
            if metadata.version != STORAGE_METADATA_FORMAT_VERSION {
                return Err(
                    BrokerError::Cluster(
                        join5(
                            "unsupported storage metadata format version ",
                            decimal_text(metadata.version as u64).as_str(),
                            " in '",
                            path,
                            "' (supported version 1)",
                        ),
                    ),
                );
            }
            if metadata.cluster_name != *cluster_name {
                return Err(
                    BrokerError::Cluster(
                        join5(
                            "cluster identity mismatch: storage belongs to cluster '",
                            metadata.cluster_name.as_str(),
                            "', configured cluster is '",
                            cluster_name.as_str(),
                            "'",
                        ),
                    ),
                );
            }
            if metadata.node_id != node_id {
                return Err(
                    BrokerError::Cluster(
                        join5(
                            "node identity mismatch: storage belongs to node ",
                            decimal_text(metadata.node_id).as_str(),
                            ", configured node is ",
                            decimal_text(node_id).as_str(),
                            "",
                        ),
                    ),
                );
            }
            Ok(None)
        },
    }
}

/// The metadata that a node records for itself is the metadata that it accepts.
pub proof fn law_recorded_metadata_is_accepted(
    cluster_name: String,
    node_id: NodeId,
    path: Seq<char>,
    groups_exist: bool,
)
    ensures
        storage_metadata_fault(
            FileRead::Decoded(
                PersistedStorageMetadata {
                    version: STORAGE_METADATA_FORMAT_VERSION,
                    cluster_name,
                    node_id,
                },
            ),
            path,
            groups_exist,
            cluster_name@,
            node_id,
        ) is None,
{
}

/// Storage that was recorded for one node of one cluster is accepted for no
/// other.
pub proof fn law_foreign_storage_is_refused(
    metadata: PersistedStorageMetadata,
    path: Seq<char>,
    groups_exist: bool,
    cluster_name: Seq<char>,
    node_id: NodeId,
)
    requires
        metadata.cluster_name@ != cluster_name || metadata.node_id != node_id,
    ensures
        storage_metadata_fault(
            FileRead::Decoded(metadata),
            path,
            groups_exist,
            cluster_name,
            node_id,
        ) is Some,
{
}

/// The files that a node kept before there were groups, in the order in which
/// they are looked for.
pub fn legacy_single_group_paths() -> (r: Vec<&'static str>)
    ensures
        r@.map_values(|path: &'static str| path@) == seq![
            "raft-log.json"@,
            "state-machine"@,
            "state-machine.json"@,
            "snapshot.json"@,
            "state-machine.log"@,
        ],
{
    let mut paths: Vec<&'static str> = Vec::new();
    paths.push("raft-log.json");
    paths.push("state-machine");
    paths.push("state-machine.json");
    paths.push("snapshot.json");
    paths.push("state-machine.log");
    proof {
        assert(paths@.map_values(|path: &'static str| path@) =~= seq![
            "raft-log.json"@,
            "state-machine"@,
            "state-machine.json"@,
            "snapshot.json"@,
            "state-machine.log"@,
        ]);
    }
    paths
}

/// Some paths, each in quotation marks, with commas between them.
pub open spec fn quoted(paths: Seq<String>) -> Seq<char>
    decreases paths.len(),
{
    if paths.len() == 0 {
        Seq::empty()
    } else if paths.len() == 1 {
        "'"@ + paths[0]@ + "'"@
    } else {
        quoted(paths.drop_last()) + ", '"@ + paths.last()@ + "'"@
    }
}

/// Some paths, each in quotation marks, with commas between them.
fn quoted_text(paths: &Vec<String>) -> (r: String)
    ensures
        r@ == quoted(paths@),
{
    let mut text = String::new();
    let n: usize = paths.len();
    let mut i: usize = 0;
    proof {
        assert(paths@.take(0) =~= Seq::empty());
    }
    while i < n
        invariant
            i <= n,
            n == paths@.len(),
            text@ == quoted(paths@.take(i as int)),
        decreases n - i,
    {
        let ghost before = text@;
        proof {
            assert(paths@.take(i + 1).drop_last() =~= paths@.take(i as int));
        }
        if i == 0 {
            text.append("'");
        } else {
            text.append(", '");
        }
        text.append(paths[i].as_str());
        text.append("'");
        proof {
            reveal_with_fuel(quoted, 2);
            if i == 0 {
                assert(before =~= Seq::<char>::empty());
                assert(text@ =~= "'"@ + paths@[0]@ + "'"@);
            } else {
                assert(text@ =~= before + ", '"@ + paths@[i as int]@ + "'"@);
            }
        }
        i += 1;
    }
    proof {
        assert(paths@.take(i as int) =~= paths@);
    }
    text
}

/// Accepts a directory in which nothing of an older layout was found.
pub fn refuse_legacy_paths(found: &Vec<String>) -> (r: Result<(), BrokerError>)
    ensures
        r is Ok <==> found@.len() == 0,
        r matches Err(error) ==> is_cluster_error(
            error,
            "legacy single-group storage detected at "@ + quoted(found@)
                + "; migrate the data directory before starting this clustered layout"@,
        ),
{
    if found.len() == 0 {
        return Ok(());
    }
    Err(
        BrokerError::Cluster(
            join3(
                "legacy single-group storage detected at ",
                quoted_text(found).as_str(),
                "; migrate the data directory before starting this clustered layout",
            ),
        ),
    )
}

/// A file with what came of reading it.
#[derive(Debug)]
pub struct FoundFile<T> {
    pub path: String,
    pub read: FileRead<T>,
}

/// What was found where a state machine keeps its files. What the bytes of the
/// snapshot held stands beside the snapshot, and what each record of the journal
/// held, with how the journal ends, beside its path; a journal that could not be
/// read says why not.
#[derive(Debug)]
pub struct StateMachineFiles {
    pub path: String,
    pub kind: PathKind,
    pub checkpoint: FoundFile<PersistedState>,
    pub snapshot: FoundFile<StoredSnapshot>,
    pub snapshot_state: Result<PersistedSnapshotState, String>,
    pub journal_path: String,
    pub journal: Result<(Vec<Result<JournalEntry, String>>, JournalEnd), String>,
}

/// What is wrong with a checkpoint that was read, if anything is.
pub open spec fn checkpoint_fault(file: FoundFile<PersistedState>) -> Option<Seq<char>> {
    match file.read {
        FileRead::Missing => None,
        FileRead::Unreadable(reason) => Some(
            path_text("could not read persisted state-machine"@, file.path@, reason@),
        ),
        FileRead::Undecodable(reason) => Some(
            path_text("invalid persisted state-machine"@, file.path@, reason@),
        ),
        FileRead::Decoded(persisted) => if is_supported_version(persisted.version) {
            None
        } else {
            Some(checkpoint_version_text(persisted.version, file.path@))
        },
    }
}

/// What is wrong with a snapshot that was read, if anything is.
pub open spec fn snapshot_fault(
    file: FoundFile<StoredSnapshot>,
    state: Result<PersistedSnapshotState, String>,
) -> Option<Seq<char>> {
    match file.read {
        FileRead::Missing => None,
        FileRead::Unreadable(reason) => Some(
            path_text("could not read persisted snapshot"@, file.path@, reason@),
        ),
        FileRead::Undecodable(reason) => Some(
            path_text("invalid persisted snapshot"@, file.path@, reason@),
        ),
        FileRead::Decoded(_) => match state {
            Err(reason) => Some(path_text("invalid persisted snapshot"@, file.path@, reason@)),
            Ok(persisted) => if is_supported_version(persisted.version) {
                None
            } else {
                Some(
                    path_text(
                        "invalid persisted snapshot"@,
                        file.path@,
                        snapshot_version_text(persisted.version),
                    ),
                )
            },
        },
    }
}

/// What is wrong with the first record of a journal that cannot be used, if any
/// cannot.
pub open spec fn records_fault(
    decoded: Seq<Result<JournalEntry, String>>,
    path: Seq<char>,
) -> Option<Seq<char>>
    decreases decoded.len(),
{
    if decoded.len() == 0 {
        None
    } else if !is_good(decoded[0]) {
        Some(record_error_text(decoded[0], path))
    } else {
        records_fault(decoded.drop_first(), path)
    }
}

/// What is wrong with a journal that was read, if anything is.
pub open spec fn journal_fault(
    read: Result<(Vec<Result<JournalEntry, String>>, JournalEnd), String>,
    path: Seq<char>,
) -> Option<Seq<char>> {
    match read {
        Err(reason) => Some(path_text("could not read state-machine journal"@, path, reason@)),
        Ok((decoded, end)) => match records_fault(decoded@, path) {
            Some(text) => Some(text),
            None => match end {
                JournalEnd::TooLarge { len } => Some(too_large_text(len)),
                _ => None,
            },
        },
    }
}

/// Records that can all be used have no fault.
proof fn lemma_good_records(decoded: Seq<Result<JournalEntry, String>>, path: Seq<char>)
    requires
        forall|i: int| 0 <= i < decoded.len() ==> is_good(#[trigger] decoded[i]),
    ensures
        records_fault(decoded, path) is None,
    decreases decoded.len(),
{
    if decoded.len() > 0 {
        let rest = decoded.drop_first();
        assert forall|i: int| 0 <= i < rest.len() implies is_good(#[trigger] rest[i]) by {
            assert(rest[i] == decoded[i + 1]);
        }
        lemma_good_records(rest, path);
    }
}

/// The fault of some records is that of the first that cannot be used.
proof fn lemma_first_bad_record(
    decoded: Seq<Result<JournalEntry, String>>,
    path: Seq<char>,
    at: int,
)
    requires
        0 <= at < decoded.len(),
        !is_good(decoded[at]),
        forall|i: int| 0 <= i < at ==> is_good(#[trigger] decoded[i]),
    ensures
        records_fault(decoded, path) == Some(record_error_text(decoded[at], path)),
    decreases decoded.len(),
{
    if at > 0 {
        let rest = decoded.drop_first();
        assert(is_good(decoded[0]));
        assert(rest[at - 1] == decoded[at]);
        assert forall|i: int| 0 <= i < at - 1 implies is_good(#[trigger] rest[i]) by {
            assert(rest[i] == decoded[i + 1]);
        }
        lemma_first_bad_record(rest, path, at - 1);
    }
}

/// The first of two faults.
pub open spec fn first_of(a: Option<Seq<char>>, b: Option<Seq<char>>) -> Option<Seq<char>> {
    match a {
        Some(_) => a,
        None => b,
    }
}

/// Records that cannot all be used are told by the first that cannot.
proof fn lemma_parsed_fault(
    records: Seq<Result<JournalEntry, String>>,
    end: JournalEnd,
    path: Seq<char>,
    parsed: Result<(Vec<JournalEntry>, Option<usize>), BrokerError>,
)
    requires
        is_parsed(records, end, path, parsed),
    ensures
        match first_of(
            records_fault(records, path),
            match end {
                JournalEnd::TooLarge { len } => Some(too_large_text(len)),
                _ => None,
            },
        ) {
            Some(text) => parsed is Err && is_cluster_error(parsed->Err_0, text),
            None => parsed is Ok,
        },
{
    if forall|i: int| 0 <= i < records.len() ==> is_good(#[trigger] records[i]) {
        lemma_good_records(records, path);
    } else {
        let error = parsed->Err_0;
        let at = choose|i: int|
            0 <= i < records.len() && !is_good(#[trigger] records[i]) && is_cluster_error(
                error,
                record_error_text(records[i], path),
            ) && forall|j: int| 0 <= j < i ==> is_good(#[trigger] records[j]);
        lemma_first_bad_record(records, path, at);
    }
}

/// What is wrong with the files of a state machine, if anything is.
pub open spec fn state_machine_fault(files: StateMachineFiles) -> Option<Seq<char>> {
    match files.kind {
        PathKind::Missing => None,
        PathKind::Other => Some(
            path_text("invalid state-machine storage"@, files.path@, "expected a directory"@),
        ),
        PathKind::Directory => first_of(
            checkpoint_fault(files.checkpoint),
            first_of(
                snapshot_fault(files.snapshot, files.snapshot_state),
                journal_fault(files.journal, files.journal_path@),
            ),
        ),
    }
}

/// Accepts the files of a state machine, or says what is wrong with the first
/// that cannot be used.
pub fn validate_state_machine_storage(files: StateMachineFiles) -> (r: Result<(), BrokerError>)
    ensures
        match state_machine_fault(files) {
            Some(text) => r is Err && is_cluster_error(r->Err_0, text),
            None => r is Ok,
        },
{
    match files.kind {
        PathKind::Missing => {
            return Ok(());
        },
        PathKind::Other => {
            return Err(
                path_error(
                    "invalid state-machine storage",
                    files.path.as_str(),
                    "expected a directory",
                ),
            );
        },
        PathKind::Directory => {},
    }
    if let Err(error) = read_persisted_state(
        files.checkpoint.read,
        files.checkpoint.path.as_str(),
    ) {
        return Err(error);
    }
    match read_persisted_snapshot(files.snapshot.read, files.snapshot.path.as_str()) {
        Err(error) => {
            return Err(error);
        },
        Ok(Some(_)) => {
            if let Err(error) = validate_persisted_snapshot(
                files.snapshot_state,
                files.snapshot.path.as_str(),
            ) {
                return Err(error);
            }
        },
        Ok(None) => {},
    }
    match files.journal {
        Err(reason) => Err(
            path_error(
                "could not read state-machine journal",
                files.journal_path.as_str(),
                reason.as_str(),
            ),
        ),
        Ok((decoded, end)) => {
            let ghost records = decoded@;
            let ghost path = files.journal_path@;
            let outcome = validate(decoded, end, files.journal_path.as_str());
            proof {
                if outcome is Err {
                    lemma_parsed_fault(records, end, path, Err(outcome->Err_0));
                } else {
                    lemma_good_records(records, path);
                }
            }
            outcome
        },
    }
}

/// A state machine as it was found: its state but for the journal, the snapshot,
/// and the records of the journal with where it is cut short, if it is.
#[derive(Debug)]
pub struct OpenedStateMachine {
    pub state: StateMachineData,
    pub snapshot: Option<StoredSnapshot>,
    pub journal: Vec<JournalEntry>,
    pub truncated_at: Option<usize>,
}

/// What is wrong with the files from which a state machine is opened, if anything
/// is.
pub open spec fn opening_fault(files: StateMachineFiles) -> Option<Seq<char>> {
    first_of(
        checkpoint_fault(files.checkpoint),
        first_of(
            snapshot_fault(files.snapshot, files.snapshot_state),
            journal_fault(files.journal, files.journal_path@),
        ),
    )
}

/// What a state machine is opened with.
pub open spec fn is_opened(opened: OpenedStateMachine, files: StateMachineFiles) -> bool {
    &&& opened.snapshot == (match files.snapshot.read {
        FileRead::Decoded(snapshot) => Some(snapshot),
        _ => None,
    })
    &&& opened.state@ == recovered_machine(
        match files.checkpoint.read {
            FileRead::Decoded(persisted) => Some(persisted),
            _ => None,
        },
        match files.snapshot.read {
            FileRead::Decoded(snapshot) => Some(
                (snapshot.meta@, files.snapshot_state->Ok_0.body@),
            ),
            _ => None,
        },
    )
    &&& files.journal matches Ok((decoded, end)) && is_parsed(
        decoded@,
        end,
        files.journal_path@,
        Ok((opened.journal, opened.truncated_at)),
    )
}

/// Opens a state machine from its files, but for the records of its journal,
/// which are still to be replayed; or says what is wrong with the first file that
/// cannot be used.
pub fn open_state_machine(files: StateMachineFiles) -> (r: Result<OpenedStateMachine, BrokerError>)
    ensures
        match opening_fault(files) {
            Some(text) => r is Err && is_cluster_error(r->Err_0, text),
            None => r matches Ok(opened) && is_opened(opened, files),
        },
{
    let checkpoint = match read_persisted_state(
        files.checkpoint.read,
        files.checkpoint.path.as_str(),
    ) {
        Err(error) => {
            return Err(error);
        },
        Ok(checkpoint) => checkpoint,
    };
    let snapshot = match read_persisted_snapshot(
        files.snapshot.read,
        files.snapshot.path.as_str(),
    ) {
        Err(error) => {
            return Err(error);
        },
        Ok(snapshot) => snapshot,
    };
    let state = match &snapshot {
        None => StateMachineData::recovered(checkpoint, None),
        Some(stored) => match validate_persisted_snapshot(
            files.snapshot_state,
            files.snapshot.path.as_str(),
        ) {
            Err(error) => {
                return Err(error);
            },
            Ok(persisted) => StateMachineData::recovered(
                checkpoint,
                Some((&stored.meta, persisted)),
            ),
        },
    };
    let (decoded, end) = match files.journal {
        Err(reason) => {
            return Err(
                path_error(
                    "could not read state-machine journal",
                    files.journal_path.as_str(),
                    reason.as_str(),
                ),
            );
        },
        Ok(read) => read,
    };
    let ghost records = decoded@;
    let parsed = parse(decoded, end, files.journal_path.as_str());
    proof {
        lemma_parsed_fault(records, end, files.journal_path@, parsed);
    }
    match parsed {
        Err(error) => Err(error),
        Ok((journal, truncated_at)) => Ok(
            OpenedStateMachine { state, snapshot, journal, truncated_at },
        ),
    }
}

/// What was found where a group keeps its files.
#[derive(Debug)]
pub struct GroupFiles {
    pub path: String,
    pub kind: PathKind,
    pub log: FoundFile<PersistedLog>,
    pub state_machine: StateMachineFiles,
}

/// What is wrong with a log that was read, if anything is.
pub open spec fn log_fault(file: FoundFile<PersistedLog>) -> Option<Seq<char>> {
    match file.read {
        FileRead::Missing => None,
        FileRead::Unreadable(reason) => Some(
            log_read_error_text(path_text("could not read Raft log"@, file.path@, reason@)),
        ),
        FileRead::Undecodable(reason) => Some(
            log_read_error_text(path_text("invalid Raft log"@, file.path@, reason@)),
        ),
        FileRead::Decoded(persisted) => if persisted.version == FORMAT_VERSION {
            None
        } else {
            Some(log_read_error_text(log_version_text(persisted.version, file.path@)))
        },
    }
}

/// What is wrong with the files of a group, if anything is.
pub open spec fn group_fault(files: GroupFiles) -> Option<Seq<char>> {
    match files.kind {
        PathKind::Missing => None,
        PathKind::Other => Some(
            path_text("invalid clustered group storage"@, files.path@, "expected a directory"@),
        ),
        PathKind::Directory => first_of(
            log_fault(files.log),
            state_machine_fault(files.state_machine),
        ),
    }
}

/// Accepts the files of a group, or says what is wrong with the first that
/// cannot be used.
pub fn validate_persisted_group_storage(files: GroupFiles) -> (r: Result<(), BrokerError>)
    ensures
        match group_fault(files) {
            Some(text) => r is Err && is_cluster_error(r->Err_0, text),
            None => r is Ok,
        },
{
    match files.kind {
        PathKind::Missing => {
            return Ok(());
        },
        PathKind::Other => {
            return Err(
                path_error(
                    "invalid clustered group storage",
                    files.path.as_str(),
                    "expected a directory",
                ),
            );
        },
        PathKind::Directory => {},
    }
    if let Err(failure) = LogStore::open(files.log.read, files.log.path.as_str()) {
        return Err(BrokerError::Cluster(log_read_error(failure.message)));
    }
    validate_state_machine_storage(files.state_machine)
}

/// Which stream a data group is for, as its directory records it.
#[derive(Debug, PartialEq, Eq)]
pub struct DataGroupManifest {
    pub stream: String,
    pub stream_id: String,
    pub group_id: String,
}

/// What was found at one place where a data group may stand: its path and the
/// last part of it, whether it is a directory, what came of reading its
/// manifest, and whether its other files can be used. A manifest whose bytes
/// could not be read says so as a failure of its own.
#[derive(Debug)]
pub struct DataGroupEntry {
    pub path: String,
    pub name: String,
    pub is_directory: bool,
    pub manifest_path: String,
    pub manifest: Result<FileRead<DataGroupManifest>, IoFailure>,
    pub storage: Result<(), BrokerError>,
}

/// What was found where a cluster keeps its groups. Each entry among the data
/// groups is there, or says why it could not be looked at.
#[derive(Debug)]
pub struct ClusterFiles {
    pub groups_path: String,
    pub groups: PathKind,
    pub metadata_path: String,
    pub metadata_exists: bool,
    pub metadata_storage: Result<(), BrokerError>,
    pub data_path: String,
    pub data: PathKind,
    pub entries: Result<Vec<Result<DataGroupEntry, IoFailure>>, IoFailure>,
}

/// Why the storage of a cluster cannot be used: for what a text says, for a
/// failure to look, or for what is wrong with the files of a group.
pub enum StorageFault {
    Said(Seq<char>),
    Failed(IoFailure),
    Group(BrokerError),
}

/// An error says why storage cannot be used.
pub open spec fn says_fault(error: BrokerError, fault: StorageFault) -> bool {
    match fault {
        StorageFault::Said(text) => is_cluster_error(error, text),
        StorageFault::Failed(failure) => error == BrokerError::Io(failure),
        StorageFault::Group(of_group) => error == of_group,
    }
}

/// What is said of an entry that is not a directory.
pub open spec fn not_a_directory_text(path: Seq<char>) -> Seq<char> {
    path_text("invalid data-group entry"@, path, "expected a directory"@)
}

/// What is said of a manifest that is not there.
pub open spec fn missing_manifest_text(path: Seq<char>) -> Seq<char> {
    "missing data-group manifest '"@ + path + "'"@
}

/// Whether a manifest gives a stream the identity that its name gives it.
pub open spec fn is_own_identity(manifest: DataGroupManifest) -> bool {
    (manifest.stream_id@, manifest.group_id@) == identity_of(manifest.stream@)
}

/// What is wrong with a data group, if anything is: it must be a directory, with
/// a manifest that belongs to that directory and that gives the stream its own
/// identity, and with files that can be used.
pub open spec fn data_group_fault(entry: DataGroupEntry) -> Option<StorageFault> {
    if !entry.is_directory {
        Some(StorageFault::Said(not_a_directory_text(entry.path@)))
    } else {
        match entry.manifest {
            Err(failure) => Some(StorageFault::Failed(failure)),
            Ok(FileRead::Missing) => Some(
                StorageFault::Said(missing_manifest_text(entry.manifest_path@)),
            ),
            Ok(FileRead::Unreadable(reason)) => Some(
                StorageFault::Said(
                    path_text("invalid data-group manifest"@, entry.manifest_path@, reason@),
                ),
            ),
            Ok(FileRead::Undecodable(reason)) => Some(
                StorageFault::Said(
                    path_text("invalid data-group manifest"@, entry.manifest_path@, reason@),
                ),
            ),
            Ok(FileRead::Decoded(manifest)) => if entry.name@ != hex_bytes(
                encode_utf8(manifest.stream@),
            ) {
                Some(
                    StorageFault::Said(
                        "data-group manifest '"@ + entry.manifest_path@
                            + "' does not match its directory '"@ + entry.path@ + "'"@,
                    ),
                )
            } else if !is_own_identity(manifest) {
                Some(
                    StorageFault::Said(
                        "data-group manifest '"@ + entry.manifest_path@
                            + "' has incompatible stream/group identity"@,
                    ),
                )
            } else {
                match entry.storage {
                    Err(error) => Some(StorageFault::Group(error)),
                    Ok(_) => None,
                }
            },
        }
    }
}

/// Accepts a data group, or says why it cannot be used.
pub fn validate_data_group(entry: DataGroupEntry) -> (r: Result<(), BrokerError>)
    ensures
        match data_group_fault(entry) {
            Some(fault) => r is Err && says_fault(r->Err_0, fault),
            None => r is Ok,
        },
{
    if !entry.is_directory {
        return Err(
            path_error("invalid data-group entry", entry.path.as_str(), "expected a directory"),
        );
    }
    let manifest = match entry.manifest {
        Err(failure) => {
            return Err(BrokerError::Io(failure));
        },
        Ok(FileRead::Missing) => {
            return Err(
                BrokerError::Cluster(
                    join3("missing data-group manifest '", entry.manifest_path.as_str(), "'"),
                ),
            );
        },
        Ok(FileRead::Unreadable(reason)) => {
            return Err(
                path_error(
                    "invalid data-group manifest",
                    entry.manifest_path.as_str(),
                    reason.as_str(),
                ),
            );
        },
        Ok(FileRead::Undecodable(reason)) => {
            return Err(
                path_error(
                    "invalid data-group manifest",
                    entry.manifest_path.as_str(),
                    reason.as_str(),
                ),
            );
        },
        Ok(FileRead::Decoded(manifest)) => manifest,
    };
    if entry.name != path_component(manifest.stream.as_str()) {
        return Err(
            BrokerError::Cluster(
                join5(
                    "data-group manifest '",
                    entry.manifest_path.as_str(),
                    "' does not match its directory '",
                    entry.path.as_str(),
                    "'",
                ),
            ),
        );
    }
    let (stream_id, group_id) = stream_identity(manifest.stream.as_str());
    if manifest.stream_id != stream_id || manifest.group_id != group_id {
        return Err(
            BrokerError::Cluster(
                join3(
                    "data-group manifest '",
                    entry.manifest_path.as_str(),
                    "' has incompatible stream/group identity",
                ),
            ),
        );
    }
    match entry.storage {
        Ok(_) => Ok(()),
        Err(error) => Err(error),
    }
}

/// What is wrong with the first of some data groups that cannot be used, if any
/// cannot.
pub open spec fn data_groups_fault(
    entries: Seq<Result<DataGroupEntry, IoFailure>>,
) -> Option<StorageFault>
    decreases entries.len(),
{
    if entries.len() == 0 {
        None
    } else {
        match data_groups_fault(entries.drop_last()) {
            Some(fault) => Some(fault),
            None => match entries.last() {
                Err(failure) => Some(StorageFault::Failed(failure)),
                Ok(entry) => data_group_fault(entry),
            },
        }
    }
}

/// A data group that cannot be used is a fault of any list that begins with it.
proof fn lemma_fault_stays(entries: Seq<Result<DataGroupEntry, IoFailure>>, n: int)
    requires
        0 <= n <= entries.len(),
        data_groups_fault(entries.take(n)) is Some,
    ensures
        data_groups_fault(entries) == data_groups_fault(entries.take(n)),
    decreases entries.len(),
{
    if n == entries.len() {
        assert(entries.take(n) =~= entries);
    } else {
        assert(entries.drop_last().take(n) =~= entries.take(n));
        lemma_fault_stays(entries.drop_last(), n);
    }
}

/// What is wrong with the storage of a cluster, if anything is. Where nothing
/// has been stored yet there is nothing wrong.
pub open spec fn cluster_fault(found: ClusterFiles) -> Option<StorageFault> {
    match found.groups {
        PathKind::Missing => None,
        PathKind::Other => Some(
            StorageFault::Said(
                path_text(
                    "invalid clustered storage"@,
                    found.groups_path@,
                    "expected a groups directory"@,
                ),
            ),
        ),
        PathKind::Directory => if !found.metadata_exists {
            Some(
                StorageFault::Said(
                    "missing metadata group storage '"@ + found.metadata_path@
                        + "'; refusing to open a partial clustered layout"@,
                ),
            )
        } else {
            match found.metadata_storage {
                Err(error) => Some(StorageFault::Group(error)),
                Ok(_) => match found.data {
                    PathKind::Missing => None,
                    PathKind::Other => Some(
                        StorageFault::Said(
                            path_text(
                                "invalid clustered storage"@,
                                found.data_path@,
                                "expected a data-groups directory"@,
                            ),
                        ),
                    ),
                    PathKind::Directory => match found.entries {
                        Err(failure) => Some(StorageFault::Failed(failure)),
                        Ok(entries) => data_groups_fault(entries@),
                    },
                },
            }
        },
    }
}

/// Accepts the storage of a cluster, or says what is first found wrong with it.
pub fn validate_persisted_cluster_storage(found: ClusterFiles) -> (r: Result<(), BrokerError>)
    ensures
        match cluster_fault(found) {
            Some(fault) => r is Err && says_fault(r->Err_0, fault),
            None => r is Ok,
        },
{
    match found.groups {
        PathKind::Missing => {
            return Ok(());
        },
        PathKind::Other => {
            return Err(
                path_error(
                    "invalid clustered storage",
                    found.groups_path.as_str(),
                    "expected a groups directory",
                ),
            );
        },
        PathKind::Directory => {},
    }
    if !found.metadata_exists {
        return Err(
            BrokerError::Cluster(
                join3(
                    "missing metadata group storage '",
                    found.metadata_path.as_str(),
                    "'; refusing to open a partial clustered layout",
                ),
            ),
        );
    }
    if let Err(error) = found.metadata_storage {
        return Err(error);
    }
    match found.data {
        PathKind::Missing => {
            return Ok(());
        },
        PathKind::Other => {
            return Err(
                path_error(
                    "invalid clustered storage",
                    found.data_path.as_str(),
                    "expected a data-groups directory",
                ),
            );
        },
        PathKind::Directory => {},
    }
    let entries = match found.entries {
        Err(failure) => {
            return Err(BrokerError::Io(failure));
        },
        Ok(entries) => entries,
    };
    let ghost all = entries@;
    for entry in it: entries
        invariant
            it.seq() == all,
            data_groups_fault(all.take(it.index() as int)) is None,
            cluster_fault(found) == data_groups_fault(all),
    {
        let ghost done = it.index() as int;
        proof {
            assert(entry == all[done]);
            assert(all.take(done + 1).drop_last() =~= all.take(done));
        }
        match entry {
            Err(failure) => {
                proof {
                    lemma_fault_stays(all, done + 1);
                }
                return Err(BrokerError::Io(failure));
            },
            Ok(entry) => {
                if let Err(error) = validate_data_group(entry) {
                    proof {
                        lemma_fault_stays(all, done + 1);
                    }
                    return Err(error);
                }
            },
        }
    }
    proof {
        assert(all.take(all.len() as int) =~= all);
    }
    Ok(())
}

/// Two data groups that are accepted in different directories are for different
/// streams.
pub proof fn law_data_groups_are_for_different_streams(a: DataGroupEntry, b: DataGroupEntry)
    requires
        data_group_fault(a) is None,
        data_group_fault(b) is None,
        a.name@ != b.name@,
    ensures
        a.manifest->Ok_0->Decoded_0.stream@ != b.manifest->Ok_0->Decoded_0.stream@,
{
}

/// A directory is accepted if nobody has used it yet, or if this node of this cluster has,
/// in a format that is known; and in no other case.
pub proof fn law_storage_is_accepted_by_its_owner(
    read: FileRead<PersistedStorageMetadata>,
    path: Seq<char>,
    groups_exist: bool,
    cluster_name: Seq<char>,
    node_id: NodeId,
)
    ensures
        storage_metadata_fault(read, path, groups_exist, cluster_name, node_id) is None <==> (
        read is Missing && !groups_exist) || {
            &&& read is Decoded
            &&& read->Decoded_0.version == 1
            &&& read->Decoded_0.cluster_name@ == cluster_name
            &&& read->Decoded_0.node_id == node_id
        },
{
}

/// A file is one that can be started from: it is not there, or it was read and is of the
/// first or the second format.
pub open spec fn is_readable<T>(read: FileRead<T>, version: u32) -> bool {
    read is Missing || (read is Decoded && (version == 1 || version == 2))
}

/// The records of a journal were all read and are of the first format, and the journal
/// does not end in one that is too large; one that is cut short does no harm.
pub open spec fn is_journal_readable(
    read: Result<(Vec<Result<JournalEntry, String>>, JournalEnd), String>,
) -> bool {
    &&& read is Ok
    &&& !(read->Ok_0.1 is TooLarge)
    &&& forall|i: int|
        0 <= i < read->Ok_0.0@.len() ==> (#[trigger] read->Ok_0.0@[i]) is Ok
            && read->Ok_0.0@[i]->Ok_0.version == 1
}

/// The records of a journal have no fault if all can be used, and only then.
proof fn lemma_records_fault(decoded: Seq<Result<JournalEntry, String>>, path: Seq<char>)
    ensures
        records_fault(decoded, path) is None <==> forall|i: int|
            0 <= i < decoded.len() ==> (#[trigger] decoded[i]) is Ok && decoded[i]->Ok_0.version
                == 1,
    decreases decoded.len(),
{
    if decoded.len() > 0 {
        let rest = decoded.drop_first();
        lemma_records_fault(rest, path);
        if forall|i: int|
            0 <= i < decoded.len() ==> (#[trigger] decoded[i]) is Ok && decoded[i]->Ok_0.version
                == 1 {
            assert(decoded[0] is Ok);
            assert forall|i: int| 0 <= i < rest.len() implies (#[trigger] rest[i]) is Ok
                && rest[i]->Ok_0.version == 1 by {
                assert(rest[i] == decoded[i + 1]);
            }
        }
        if records_fault(decoded, path) is None {
            assert forall|i: int| 0 <= i < decoded.len() implies (#[trigger] decoded[i]) is Ok
                && decoded[i]->Ok_0.version == 1 by {
                if i > 0 {
                    assert(rest[i - 1] == decoded[i]);
                }
            }
        }
    }
}

/// The files of a state machine are accepted if there are none yet, or if they stand in a
/// directory and each of them, where it is there, can be read; and it is opened from the
/// same files. A group is accepted if its log and its state machine are.
pub proof fn law_readable_files_are_accepted(files: StateMachineFiles, group: GroupFiles)
    ensures
        ({
            let usable = {
                &&& is_readable(
                    files.checkpoint.read,
                    files.checkpoint.read->Decoded_0.version,
                )
                &&& files.snapshot.read is Missing || {
                    &&& files.snapshot.read is Decoded
                    &&& files.snapshot_state is Ok
                    &&& files.snapshot_state->Ok_0.version == 1
                        || files.snapshot_state->Ok_0.version == 2
                }
                &&& is_journal_readable(files.journal)
            };
            &&& opening_fault(files) is None <==> usable
            &&& state_machine_fault(files) is None <==> files.kind == PathKind::Missing || (
            files.kind == PathKind::Directory && usable)
        }),
        group_fault(group) is None <==> group.kind == PathKind::Missing || {
            &&& group.kind == PathKind::Directory
            &&& group.log.read is Missing || (group.log.read is Decoded
                && group.log.read->Decoded_0.version == 1)
            &&& state_machine_fault(group.state_machine) is None
        },
{
    if let Ok((decoded, end)) = files.journal {
        lemma_records_fault(decoded@, files.journal_path@);
    }
}

/// A data group is accepted if its directory bears the name of its stream, spelled in
/// hexadecimal digits, if its manifest gives the stream the identities of that name, and if
/// its files are; and in no other case.
pub proof fn law_data_groups_are_accepted_in_their_place(entry: DataGroupEntry)
    ensures
        data_group_fault(entry) is None <==> {
            let manifest = entry.manifest->Ok_0->Decoded_0;
            &&& entry.is_directory
            &&& entry.manifest is Ok
            &&& entry.manifest->Ok_0 is Decoded
            &&& spells_bytes(entry.name@, encode_utf8(manifest.stream@))
            &&& manifest.stream_id@ == "stream/"@ + manifest.stream@
            &&& manifest.group_id@ == "group/"@ + manifest.stream@ + "/data"@
            &&& entry.storage is Ok
        },
{
    if entry.manifest is Ok && entry.manifest->Ok_0 is Decoded {
        let bytes = encode_utf8(entry.manifest->Ok_0->Decoded_0.stream@);
        law_bytes_are_spelled_in_one_way(entry.name@, bytes);
    }
}

/// The storage of a cluster is accepted if there is none yet; or if there is that of the
/// metadata group and it is accepted, and each data group that is there, if any is, could
/// be looked at and is accepted.
pub proof fn law_clusters_are_accepted_whole(found: ClusterFiles)
    ensures
        cluster_fault(found) is None <==> found.groups == PathKind::Missing || {
            &&& found.groups == PathKind::Directory
            &&& found.metadata_exists
            &&& found.metadata_storage is Ok
            &&& found.data == PathKind::Missing || {
                &&& found.data == PathKind::Directory
                &&& found.entries is Ok
                &&& forall|i: int|
                    0 <= i < found.entries->Ok_0@.len() ==> (#[trigger] found.entries->Ok_0@[i]) is Ok
                        && data_group_fault(found.entries->Ok_0@[i]->Ok_0) is None
            }
        },
{
    if let Ok(entries) = found.entries {
        lemma_groups_fault(entries@);
    }
}

/// Data groups have no fault together if none has one.
proof fn lemma_groups_fault(entries: Seq<Result<DataGroupEntry, IoFailure>>)
    ensures
        data_groups_fault(entries) is None <==> forall|i: int|
            0 <= i < entries.len() ==> (#[trigger] entries[i]) is Ok && data_group_fault(
                entries[i]->Ok_0,
            ) is None,
    decreases entries.len(),
{
    if entries.len() > 0 {
        let rest = entries.drop_last();
        let n = entries.len() - 1;
        lemma_groups_fault(rest);
        if forall|i: int|
            0 <= i < entries.len() ==> (#[trigger] entries[i]) is Ok && data_group_fault(
                entries[i]->Ok_0,
            ) is None {
            assert(entries[n] is Ok);
            assert forall|i: int| 0 <= i < rest.len() implies (#[trigger] rest[i]) is Ok
                && data_group_fault(rest[i]->Ok_0) is None by {
                assert(rest[i] == entries[i]);
            }
        }
        if data_groups_fault(entries) is None {
            assert forall|i: int| 0 <= i < entries.len() implies (#[trigger] entries[i]) is Ok
                && data_group_fault(entries[i]->Ok_0) is None by {
                if i < n {
                    assert(rest[i] == entries[i]);
                }
            }
        }
    }
}

/// A state machine is opened with all that was recorded of it: from the later of its
/// checkpoint and its snapshot, with the snapshot, and with every record of its journal, in
/// order. Where the journal was cut short, it says where.
pub proof fn law_state_machines_are_opened_whole(
    opened: OpenedStateMachine,
    files: StateMachineFiles,
)
    requires
        is_journal_readable(files.journal),
        is_opened(opened, files),
    ensures
        opened.journal@.len() == files.journal->Ok_0.0@.len(),
        forall|i: int|
            0 <= i < opened.journal@.len() ==> Ok::<JournalEntry, String>(
                #[trigger] opened.journal@[i],
            ) == files.journal->Ok_0.0@[i],
        opened.truncated_at is Some <==> files.journal->Ok_0.1 is Truncated,
        files.journal->Ok_0.1 matches JournalEnd::Truncated { at } ==> opened.truncated_at == Some(
            at,
        ),
        files.snapshot.read matches FileRead::Decoded(snapshot) ==> opened.snapshot == Some(
            snapshot,
        ),
        files.snapshot.read is Missing ==> opened.snapshot is None,
        files.snapshot.read is Missing && files.checkpoint.read is Decoded ==> {
            let persisted = files.checkpoint.read->Decoded_0;
            &&& opened.state@.last_applied_log == persisted.last_applied_log
            &&& opened.state@.last_membership == persisted.last_membership@
            &&& opened.state@.state == restored(persisted.body@)
        },
        files.snapshot.read is Missing && files.checkpoint.read is Missing ==> {
            &&& opened.state@.last_applied_log is None
            &&& opened.state@.state.streams == Map::<Seq<char>, StreamView>::empty()
        },
        files.snapshot.read is Decoded && files.checkpoint.read is Missing
            && files.snapshot.read->Decoded_0.meta@.last_log_id is Some ==> {
            &&& opened.state@.last_applied_log == files.snapshot.read->Decoded_0.meta@.last_log_id
            &&& opened.state@.state == restored(files.snapshot_state->Ok_0.body@)
        },
{
    let decoded = files.journal->Ok_0.0@;
    assert forall|i: int| 0 <= i < decoded.len() implies is_good(#[trigger] decoded[i]) by {
        assert(decoded[i] is Ok);
    }
}

/// Storage of an older layout is refused wherever any of it is found.
pub proof fn law_older_layouts_are_refused(
    found: Vec<String>,
    refused: Result<(), BrokerError>,
)
    requires
        call_ensures(refuse_legacy_paths, (&found,), refused),
    ensures
        refused is Err <==> found@.len() > 0,
{
}

} // verus!
