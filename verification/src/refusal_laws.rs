//! What is said of what cannot be used, and what is counted on the way.

use vstd::prelude::*;

use crate::cluster_storage::{
    missing_manifest_text, not_a_directory_text, quoted, validate_data_group, DataGroupEntry,
    DataGroupManifest,
};
use crate::connection::on_connection_error;
use crate::dispatch::{error_response, respond, EngineAnswer, EngineFailure};
use crate::engine::{BrokerError, IoFailure, IoKind, PollResult};
use crate::forwarding::no_address_text;
use crate::group_manager::stream_of_group;
use crate::log_entry::{Entry, SnapshotMeta};
use crate::log_id::NodeId;
use crate::log_store::{empty_log, log_version_text};
use crate::network::framing::keeps_buffer;
use crate::network::inbound::unknown_group;
use crate::network::outbound::{
    request_is_heartbeat, required_address, timed_out_error, PeerRequestKind,
};
use crate::observability::{no_durations, no_metrics, ServerMetrics};
use crate::protocol::{
    invalid_request_response, request_size_response, request_size_text, saturated_response,
    timeout_response, Request, Response,
};
use crate::raft_group::{
    activate_stream_answer, clock_ms, health_gate, initialize_data_stream_answer,
    map_client_write_error, unexpected, RaftGroup,
};
use crate::reconcile::{ReconcileAction, ReconcileEvent, Reconciliation};
use crate::state_machine::{
    acks_the_last_offset, empty_state, Command, CommandResponse, GroupKind, SnapshotState,
    SnapshotView, StreamLifecycle, StreamMetadata,
};
use crate::state_machine_journal::{
    entry_of, is_good, is_parsed, record_error_text, too_large_text, JournalEnd, JournalEntry,
};
use crate::state_machine_store::{
    checkpoint_version_text, empty_machine, no_snapshot_metrics, read_persisted_snapshot,
    read_persisted_state, snapshot_version_text, validate_persisted_snapshot,
    validate_snapshot_data, PersistedSnapshotState, PersistedState, SnapshotMetrics,
    StateMachineData, StoredSnapshot,
};
use crate::storage::{path_text, FileRead};
use crate::text::{decimal, law_decimals_read_back};

verus! {

/// A text names something between two others.
pub open spec fn names_between(
    text: Seq<char>,
    part: Seq<char>,
    before: Seq<char>,
    behind: Seq<char>,
) -> bool {
    text == before + part + behind
}

/// A text names something.
pub open spec fn names(text: Seq<char>, part: Seq<char>) -> bool {
    exists|before: Seq<char>, behind: Seq<char>| names_between(text, part, before, behind)
}

/// A text names what stands in it.
proof fn lemma_names(text: Seq<char>, part: Seq<char>, before: Seq<char>, behind: Seq<char>)
    requires
        text =~= before + part + behind,
    ensures
        names(text, part),
{
    assert(names_between(text, part, before, behind));
}

/// What is said where something cannot be used names it: the version of a format that is
/// not known and where it was found, the length of what is too large and the most that may
/// be asked for, the node that cannot be reached, the path and the reason.
pub proof fn law_refusals_name_what_they_refuse(
    version: u32,
    path: Seq<char>,
    length: u32,
    limit: usize,
    node: NodeId,
    what: Seq<char>,
    reason: String,
    entry: JournalEntry,
)
    ensures
        names(log_version_text(version, path), decimal(version as nat)),
        names(log_version_text(version, path), path),
        names(checkpoint_version_text(version, path), decimal(version as nat)),
        names(checkpoint_version_text(version, path), path),
        names(snapshot_version_text(version), decimal(version as nat)),
        names(record_error_text(Ok(entry), path), decimal(entry.version as nat)),
        names(record_error_text(Ok(entry), path), path),
        names(record_error_text(Err(reason), path), path),
        names(record_error_text(Err(reason), path), reason@),
        names(too_large_text(length), decimal(length as nat)),
        names(request_size_text(limit), decimal(limit as nat)),
        names(no_address_text(node), decimal(node as nat)),
        names(not_a_directory_text(path), path),
        names(missing_manifest_text(path), path),
        names(unexpected(what, reason@), what),
        names(unexpected(what, reason@), reason@),
        names(path_text(what, path, reason@), what),
        names(path_text(what, path, reason@), path),
        names(path_text(what, path, reason@), reason@),
{
    let none = Seq::<char>::empty();
    let number = decimal(version as nat);
    let other = decimal(entry.version as nat);
    lemma_names(
        log_version_text(version, path),
        number,
        "unsupported log format version "@,
        " in '"@ + path + "' (Raft log; supported version 1)"@,
    );
    lemma_names(
        log_version_text(version, path),
        path,
        "unsupported log format version "@ + number + " in '"@,
        "' (Raft log; supported version 1)"@,
    );
    lemma_names(
        checkpoint_version_text(version, path),
        number,
        "unsupported state-machine format version "@,
        " in '"@ + path + "' (checkpoint; supported versions: 1 and 2)"@,
    );
    lemma_names(
        checkpoint_version_text(version, path),
        path,
        "unsupported state-machine format version "@ + number + " in '"@,
        "' (checkpoint; supported versions: 1 and 2)"@,
    );
    lemma_names(
        snapshot_version_text(version),
        number,
        "unsupported snapshot format version "@,
        " (supported versions: 1 and 2)"@,
    );
    lemma_names(
        record_error_text(Ok(entry), path),
        other,
        "unsupported state-machine journal format version "@,
        " in '"@ + path + "' (supported version 1)"@,
    );
    lemma_names(
        record_error_text(Ok(entry), path),
        path,
        "unsupported state-machine journal format version "@ + other + " in '"@,
        "' (supported version 1)"@,
    );
    lemma_path_text("invalid state-machine journal record in"@, path, reason@);
    lemma_names(
        too_large_text(length),
        decimal(length as nat),
        "state-machine journal record is too large: "@,
        " bytes"@,
    );
    lemma_names(
        request_size_text(limit),
        decimal(limit as nat),
        "request frame exceeds the configured maximum of "@,
        " bytes"@,
    );
    lemma_names(
        no_address_text(node),
        decimal(node as nat),
        "leader node "@,
        " has no configured address"@,
    );
    lemma_path_text("invalid data-group entry"@, path, "expected a directory"@);
    lemma_names(
        missing_manifest_text(path),
        path,
        "missing data-group manifest '"@,
        "'"@,
    );
    lemma_names(unexpected(what, reason@), what, "unexpected "@, reason@);
    lemma_names(unexpected(what, reason@), reason@, "unexpected "@ + what, none);
    lemma_path_text(what, path, reason@);
}

/// A text about a path names what it is about, the path and the reason.
proof fn lemma_path_text(what: Seq<char>, path: Seq<char>, reason: Seq<char>)
    ensures
        names(path_text(what, path, reason), what),
        names(path_text(what, path, reason), path),
        names(path_text(what, path, reason), reason),
{
    let none = Seq::<char>::empty();
    let text = path_text(what, path, reason);
    lemma_names(text, what, none, " '"@ + path + "': "@ + reason);
    lemma_names(text, path, what + " '"@, "': "@ + reason);
    lemma_names(text, reason, what + " '"@ + path + "': "@, none);
}

/// A list of paths names every one of them.
pub proof fn law_lists_name_every_path(paths: Seq<String>, i: int)
    requires
        0 <= i < paths.len(),
    ensures
        names(quoted(paths), "'"@ + paths[i]@ + "'"@),
    decreases paths.len(),
{
    reveal_strlit("'");
    reveal_strlit(", '");
    let none = Seq::<char>::empty();
    let part = "'"@ + paths[i]@ + "'"@;
    if paths.len() == 1 {
        lemma_names(quoted(paths), part, none, none);
    } else if i == paths.len() - 1 {
        let front = quoted(paths.drop_last());
        assert(quoted(paths) =~= front + seq![',', ' '] + part + none);
        lemma_names(quoted(paths), part, front + seq![',', ' '], none);
    } else {
        law_lists_name_every_path(paths.drop_last(), i);
        let front = quoted(paths.drop_last());
        let (before, behind) = choose|before: Seq<char>, behind: Seq<char>|
            names_between(front, part, before, behind);
        let more = behind + (", '"@ + paths.last()@ + "'"@);
        assert(quoted(paths) =~= before + part + more);
        lemma_names(quoted(paths), part, before, more);
    }
}

/// A checkpoint is used if it can be read and is of the first format or the second; none
/// is no error. A snapshot is read as it was stored, and its state is used if it is of one
/// of these formats. What is used is what was read.
pub proof fn law_known_records_are_used(
    path: &'static str,
    read: FileRead<PersistedState>,
    checkpoint: Result<Option<PersistedState>, BrokerError>,
    stored: FileRead<StoredSnapshot>,
    snapshot: Result<Option<StoredSnapshot>, BrokerError>,
    decoded: Result<PersistedSnapshotState, String>,
    received: Result<PersistedSnapshotState, IoFailure>,
    found: Result<PersistedSnapshotState, BrokerError>,
)
    requires
        call_ensures(read_persisted_state, (read, path), checkpoint),
        call_ensures(read_persisted_snapshot, (stored, path), snapshot),
        call_ensures(validate_snapshot_data, (decoded,), received),
        call_ensures(validate_persisted_snapshot, (decoded, path), found),
    ensures
        checkpoint is Ok <==> read is Missing || (read is Decoded && 1 <= read->Decoded_0.version
            <= 2),
        checkpoint matches Ok(used) ==> (used is None <==> read is Missing),
        checkpoint matches Ok(Some(used)) ==> read == FileRead::Decoded(used),
        snapshot is Ok <==> read_or_missing(stored),
        snapshot matches Ok(used) ==> (used is None <==> stored is Missing),
        snapshot matches Ok(Some(used)) ==> stored == FileRead::Decoded(used),
        received is Ok <==> decoded is Ok && 1 <= decoded->Ok_0.version <= 2,
        received matches Ok(used) ==> decoded == Ok::<PersistedSnapshotState, String>(used),
        received matches Err(failure) ==> failure.kind == IoKind::InvalidData,
        found is Ok <==> received is Ok,
        found matches Ok(used) ==> decoded == Ok::<PersistedSnapshotState, String>(used),
{
}

/// A file was read, or there is none.
pub open spec fn read_or_missing<T>(read: FileRead<T>) -> bool {
    read is Missing || read is Decoded
}

/// A journal is read if every record of it is of the known format and none is too large;
/// then it brings every entry in its place, and where it is cut short. An entry that is
/// recorded is read as the same entry.
pub proof fn law_good_journals_are_read(
    decoded: Seq<Result<JournalEntry, String>>,
    end: JournalEnd,
    path: Seq<char>,
    parsed: Result<(Vec<JournalEntry>, Option<usize>), BrokerError>,
    entry: Entry,
    record: JournalEntry,
)
    requires
        is_parsed(decoded, end, path, parsed),
        call_ensures(JournalEntry::from_entry, (entry,), record),
    ensures
        parsed is Ok <==> !(end is TooLarge) && forall|i: int|
            0 <= i < decoded.len() ==> (#[trigger] decoded[i]) is Ok && decoded[i]->Ok_0.version
                == 1,
        parsed matches Ok((entries, cut)) ==> {
            &&& entries@.len() == decoded.len()
            &&& forall|i: int|
                0 <= i < decoded.len() ==> #[trigger] decoded[i] == Ok::<JournalEntry, String>(
                    entries@[i],
                )
            &&& cut is Some <==> end is Truncated
            &&& cut matches Some(at) ==> end == (JournalEnd::Truncated { at })
        },
        entry_of(record) == entry,
        record.version == 1,
{
    if parsed is Ok {
        assert forall|i: int| 0 <= i < decoded.len() implies (#[trigger] decoded[i]) is Ok
            && decoded[i]->Ok_0.version == 1 by {
            assert(is_good(decoded[i]));
        }
        let entries = parsed->Ok_0.0;
        assert forall|i: int| 0 <= i < decoded.len() implies #[trigger] decoded[i] == Ok::<
            JournalEntry,
            String,
        >(entries@[i]) by {
            assert(entries@[i] == entries@[i]);
        }
    }
}

/// A snapshot that is taken says up to where the log was applied and who the members were;
/// and no two that are taken after different numbers of others have the same name.
pub proof fn law_snapshots_say_what_they_are_of(
    machine: StateMachineData,
    taken: u64,
    meta: SnapshotMeta,
    later: u64,
    next: SnapshotMeta,
)
    requires
        call_ensures(StateMachineData::describe_snapshot, (&machine, taken), meta),
        call_ensures(StateMachineData::describe_snapshot, (&machine, later), next),
        taken < u64::MAX,
        later < u64::MAX,
    ensures
        meta@.last_log_id == machine@.last_applied_log,
        meta@.last_membership == machine@.last_membership,
        taken != later ==> meta@.snapshot_id != next@.snapshot_id,
{
    let one = decimal((taken + 1) as nat);
    let other = decimal((later + 1) as nat);
    let name = "snapshot-"@;
    law_decimals_read_back((taken + 1) as nat);
    law_decimals_read_back((later + 1) as nat);
    if meta@.snapshot_id == next@.snapshot_id {
        assert(one =~= (name + one).subrange(name.len() as int, (name + one).len() as int));
        assert(other =~= (name + other).subrange(name.len() as int, (name + other).len() as int));
    }
}

/// Every snapshot that is built counts once when it is begun, and once as built or failed.
/// Every one that is installed counts once when it is begun, as going on until it ends, and
/// then once as installed, with its bytes, or as failed. Every part that comes in counts
/// once, with its bytes, and the last part as such.
pub proof fn law_snapshots_are_counted(
    begun: &mut SnapshotMetrics,
    ended: &mut SnapshotMetrics,
    built: bool,
    installing: &mut SnapshotMetrics,
    installed: &mut SnapshotMetrics,
    bytes: Option<u64>,
    received: &mut SnapshotMetrics,
    length: u64,
    last: bool,
)
    requires
        call_ensures(SnapshotMetrics::build_started, (begun,), ()),
        call_ensures(SnapshotMetrics::build_finished, (ended, built), ()),
        call_ensures(SnapshotMetrics::install_started, (installing,), ()),
        call_ensures(SnapshotMetrics::install_finished, (installed, bytes), ()),
        call_ensures(SnapshotMetrics::record_snapshot_chunk, (received, length, last), ()),
        old(installed)@ == final(installing)@,
    ensures
        final(begun)@.builds_started == old(begun)@.builds_started.wrapping_add(1),
        final(begun)@.builds_completed == old(begun)@.builds_completed,
        final(begun)@.build_failures == old(begun)@.build_failures,
        final(ended)@.builds_started == old(ended)@.builds_started,
        built ==> final(ended)@.builds_completed == old(ended)@.builds_completed.wrapping_add(1)
            && final(ended)@.build_failures == old(ended)@.build_failures,
        !built ==> final(ended)@.build_failures == old(ended)@.build_failures.wrapping_add(1)
            && final(ended)@.builds_completed == old(ended)@.builds_completed,
        final(installing)@.installs_started == old(installing)@.installs_started.wrapping_add(1),
        final(installing)@.installs_in_progress
            == old(installing)@.installs_in_progress.wrapping_add(1),
        final(installed)@.installs_started == final(installing)@.installs_started,
        final(installed)@.installs_in_progress == old(installing)@.installs_in_progress,
        bytes matches Some(n) ==> {
            &&& final(installed)@.installs_completed
                == old(installing)@.installs_completed.wrapping_add(1)
            &&& final(installed)@.install_bytes == old(installing)@.install_bytes.wrapping_add(n)
            &&& final(installed)@.install_failures == old(installing)@.install_failures
        },
        bytes is None ==> {
            &&& final(installed)@.installs_completed == old(installing)@.installs_completed
            &&& final(installed)@.install_bytes == old(installing)@.install_bytes
            &&& final(installed)@.install_failures
                == old(installing)@.install_failures.wrapping_add(1)
        },
        final(received)@.transfer_chunks == old(received)@.transfer_chunks.wrapping_add(1),
        final(received)@.transfer_bytes == old(received)@.transfer_bytes.wrapping_add(length),
        last ==> final(received)@.transfer_final_chunks
            == old(received)@.transfer_final_chunks.wrapping_add(1),
        !last ==> final(received)@.transfer_final_chunks == old(received)@.transfer_final_chunks,
{
}

/// Every message that is handed out counts once, with the bytes of its payload, and nothing
/// else does; every time the server is asked what it has counted counts once, and where its
/// engine could not say how it was as a failure of both; and so does every connection that
/// failed.
pub proof fn law_deliveries_and_visits_are_counted(
    delivered: &mut ServerMetrics,
    result: PollResult,
    asked: &mut ServerMetrics,
    failed: &mut ServerMetrics,
    broken: &mut ServerMetrics,
)
    requires
        call_ensures(ServerMetrics::record_delivery, (delivered, &result), ()),
        call_ensures(ServerMetrics::record_scrape, (asked,), ()),
        call_ensures(ServerMetrics::record_scrape_failure, (failed,), ()),
        call_ensures(on_connection_error, (broken,), ()),
    ensures
        result matches PollResult::Message(message) ==> {
            &&& final(delivered)@.deliveries == old(delivered)@.deliveries.wrapping_add(1)
            &&& final(delivered)@.delivered_bytes == old(delivered)@.delivered_bytes.wrapping_add(
                message.payload@.len() as u64,
            )
        },
        result is Empty ==> final(delivered)@ == old(delivered)@,
        final(asked)@.metrics_scrapes == old(asked)@.metrics_scrapes.wrapping_add(1),
        final(asked)@.metrics_scrape_failures == old(asked)@.metrics_scrape_failures,
        final(failed)@.metrics_scrapes == old(failed)@.metrics_scrapes,
        final(failed)@.metrics_scrape_failures
            == old(failed)@.metrics_scrape_failures.wrapping_add(1),
        final(failed)@.health_check_failures == old(failed)@.health_check_failures.wrapping_add(1),
        final(broken)@.connection_errors == old(broken)@.connection_errors.wrapping_add(1),
{
}

/// What the log answers to the set-up and the activation of a stream is what is told of it;
/// who else leads is told where only the leader may write; and a cluster can say how it is
/// if it is initialized and has a leader. A group as it comes holds deliveries for half a
/// minute and gives none up.
pub proof fn law_set_up_is_told_as_it_is(
    response: CommandResponse,
    described: &'static str,
    set_up: Result<bool, BrokerError>,
    activated: Result<bool, BrokerError>,
    leader: Option<Option<NodeId>>,
    text: String,
    failure: BrokerError,
    initialized: bool,
    known: Option<NodeId>,
    gate: Result<(), BrokerError>,
    node: NodeId,
    group: RaftGroup,
)
    requires
        call_ensures(initialize_data_stream_answer, (response, described), set_up),
        call_ensures(activate_stream_answer, (response, described), activated),
        call_ensures(map_client_write_error, (leader, text), failure),
        call_ensures(health_gate, (initialized, known), gate),
        call_ensures(RaftGroup::with_defaults, (node,), group),
    ensures
        set_up is Ok <==> response is DataStreamInitialized,
        set_up matches Ok(was) ==> response == (CommandResponse::DataStreamInitialized {
            initialized: was,
        }),
        activated is Ok <==> response is StreamActivated,
        activated matches Ok(was) ==> response == (CommandResponse::StreamActivated {
            activated: was,
        }),
        leader matches Some(other) ==> failure == (BrokerError::NotLeader { leader_id: other }),
        leader is None ==> failure == BrokerError::Cluster(text),
        gate is Ok <==> initialized && known is Some,
        group.node_id == node,
        group.ack_timeout_secs == 30,
        group.ack_timeout_nanos == 0,
        group.max_delivery_attempts is None,
{
}

/// A request goes to the address of its node, and without one is an error that names the
/// node; a group that is not known is named; the metadata group is no stream's; and a buffer
/// is kept for the next frame if it holds no more than a mebibyte.
pub proof fn law_nodes_are_reached_at_their_addresses(
    target: u64,
    address: Option<String>,
    used: Result<String, IoFailure>,
    late: IoFailure,
    group_id: &'static str,
    said: String,
    capacity: usize,
    kept: bool,
    state: SnapshotState,
    group: String,
    stream: Option<(String, StreamMetadata)>,
)
    requires
        call_ensures(required_address, (target, address), used),
        call_ensures(timed_out_error, (), late),
        call_ensures(unknown_group, (group_id,), said),
        call_ensures(keeps_buffer, (capacity,), kept),
        call_ensures(stream_of_group, (&state, &group), stream),
    ensures
        used is Ok <==> address is Some,
        used matches Ok(to) ==> address == Some(to),
        used matches Err(failure) ==> failure.kind == IoKind::InvalidInput && names(
            failure.message@,
            decimal(target as nat),
        ),
        late.kind == IoKind::TimedOut,
        names(said@, group_id@),
        kept <==> capacity <= 1024 * 1024,
        group@ == "metadata"@ ==> stream is None,
{
    if used is Err {
        lemma_names(
            used->Err_0.message@,
            decimal(target as nat),
            "node "@,
            " has no valid peer address"@,
        );
    }
    lemma_names(said@, group_id@, "unknown Raft group '"@, "'"@);
}

/// A request that is turned away is answered with the code of its reason, and with a text;
/// what failed is answered with what the failure says.
pub proof fn law_refused_requests_are_told_why(
    message: &'static str,
    limit: usize,
    failure: EngineFailure,
    invalid: Response,
    large: Response,
    busy: Response,
    late: Response,
    failed: Response,
)
    requires
        call_ensures(invalid_request_response, (message,), invalid),
        call_ensures(request_size_response, (limit,), large),
        call_ensures(saturated_response, (), busy),
        call_ensures(timeout_response, (), late),
        call_ensures(error_response, (failure,), failed),
    ensures
        invalid matches Response::Error { code, message: text } && code@ == "invalid_request"@
            && text@ == message@,
        large matches Response::Error { code, message: text } && code@ == "request_too_large"@
            && names(text@, decimal(limit as nat)),
        busy matches Response::Error { code, .. } && code@ == "request_saturated"@,
        late matches Response::Error { code, .. } && code@ == "request_timeout"@,
        failed matches Response::Error { message: text, .. } && text@ == failure.text@,
{
    lemma_names(
        request_size_text(limit),
        decimal(limit as nat),
        "request frame exceeds the configured maximum of "@,
        " bytes"@,
    );
}

/// A clock reads the whole milliseconds since the start of the epoch, for as long as a number
/// holds them, and zero before it.
pub proof fn law_clocks_read_in_milliseconds(since_epoch: Option<(u64, u32)>, read: u64)
    requires
        call_ensures(clock_ms, (since_epoch,), read),
        since_epoch matches Some((secs, nanos)) ==> nanos < 1_000_000_000 && 1000 * (secs + 1)
            <= u64::MAX,
    ensures
        since_epoch is None ==> read == 0,
        since_epoch matches Some((secs, nanos)) ==> 1_000_000 * read <= 1_000_000_000 * secs
            + nanos < 1_000_000 * (read + 1),
{
}

/// A node starts with nothing: no stream, no consumer and nothing remembered, no log entry
/// applied or kept, no members and no vote, and nothing counted.
pub proof fn law_nodes_start_with_nothing(
    stream: Seq<char>,
    consumer: (Seq<char>, Seq<char>),
    index: u64,
    i: int,
)
    ensures
        !empty_machine().state.streams.contains_key(stream),
        !empty_machine().state.consumers.contains_key(consumer),
        !empty_machine().state.group_consumers.contains_key(consumer),
        !empty_machine().state.dedup.contains_key(stream),
        empty_machine().state.lease_clock_ms == 0,
        empty_machine().state.redeliveries == 0,
        empty_machine().state.dead_letters == 0,
        empty_machine().state == empty_state(),
        empty_machine().last_applied_log is None,
        empty_machine().last_membership.log_id is None,
        empty_machine().last_membership.membership.configs.len() == 0,
        empty_machine().last_membership.membership.nodes.len() == 0,
        !empty_log().log.contains_key(index),
        empty_log().last_purged_log_id is None,
        empty_log().committed is None,
        empty_log().vote is None,
        no_metrics().requests.len() == 9,
        no_metrics().request_failures.len() == 9,
        no_metrics().request_durations.len() == 9,
        0 <= i < 9 ==> no_metrics().requests[i] == 0 && no_metrics().request_failures[i] == 0
            && no_metrics().request_durations[i].count == 0
            && no_metrics().request_durations[i].sum_micros == 0,
        no_metrics().active_connections + no_metrics().connections_accepted
            + no_metrics().connections_rejected + no_metrics().connections_closed
            + no_metrics().connection_errors + no_metrics().active_requests
            + no_metrics().requests_rejected + no_metrics().request_size_rejections
            + no_metrics().request_saturation_rejections + no_metrics().request_timeouts
            + no_metrics().response_write_timeouts + no_metrics().request_bytes
            + no_metrics().response_bytes + no_metrics().stream_creations + no_metrics().publishes
            + no_metrics().published_bytes + no_metrics().deliveries
            + no_metrics().delivered_bytes + no_metrics().acknowledgements
            + no_metrics().metrics_scrapes + no_metrics().metrics_scrape_failures
            + no_metrics().health_check_failures == 0,
        no_snapshot_metrics().builds_started + no_snapshot_metrics().builds_completed
            + no_snapshot_metrics().build_failures + no_snapshot_metrics().installs_started
            + no_snapshot_metrics().installs_completed + no_snapshot_metrics().install_failures
            + no_snapshot_metrics().install_bytes + no_snapshot_metrics().installs_in_progress
            + no_snapshot_metrics().transfer_chunks + no_snapshot_metrics().transfer_final_chunks
            + no_snapshot_metrics().transfer_bytes == 0,
        0 <= i < 6 ==> no_durations().buckets.len() == 6 && no_durations().buckets[i] == 0,
        no_durations().count == 0,
        no_durations().sum_micros == 0,
{
}

/// The only command that a node cannot take in is the acknowledgement of the highest offset
/// there is by a plain consumer that has come to it, in a stream that is in use.
pub proof fn law_only_the_highest_offset_has_none_after_it(
    state: SnapshotView,
    command: Command,
    kind: GroupKind,
)
    ensures
        acks_the_last_offset(state, command, kind) <==> {
            &&& !(kind is Metadata)
            &&& command is Ack
            &&& command->Ack_offset == u64::MAX
            &&& state.streams.contains_key(command->Ack_stream@)
            &&& state.streams[command->Ack_stream@].lifecycle == StreamLifecycle::Active
            &&& state.consumers.contains_key((command->Ack_stream@, command->Ack_consumer@))
            &&& state.consumers[(command->Ack_stream@, command->Ack_consumer@)] == u64::MAX
        },
{
}

/// A request is answered in any case, but for a batch for which not as many outcomes came
/// back as it has records: that is an error, and nothing is counted of it.
pub proof fn law_batches_are_answered_record_by_record(
    request: Request,
    answer: Result<EngineAnswer, EngineFailure>,
    metrics: &mut ServerMetrics,
    answered: Result<Response, BrokerError>,
)
    requires
        call_ensures(respond, (request, answer, metrics), answered),
    ensures
        answer is Err ==> answered is Ok && answered->Ok_0 is Error && final(metrics)@
            == old(metrics)@,
        !(request is PublishBatch) ==> answered is Ok,
        request matches Request::PublishBatch { records, .. } ==> {
            answer matches Ok(EngineAnswer::PublishBatch(outcomes)) ==> {
                &&& answered is Ok <==> outcomes@.len() == records@.len()
                &&& answered is Err ==> final(metrics)@ == old(metrics)@
            }
        },
{
}

/// A stream is brought no further without a leader, by another node than the leader, which
/// is then named, and where a node could not prepare for it, which is then named with the
/// reason; and in no other case. What cannot be brought further stays as it is.
pub proof fn law_streams_are_brought_further_or_the_reason_is_told(
    reconciliation: &mut Reconciliation,
    event: ReconcileEvent,
    step: Result<ReconcileAction, BrokerError>,
)
    requires
        call_ensures(Reconciliation::advance, (reconciliation, event), step),
    ensures
        step is Err <==> {
            ||| event == ReconcileEvent::Leader(None)
            ||| event matches ReconcileEvent::Leader(Some(leader)) && leader
                != old(reconciliation)@.node_id
            ||| event matches ReconcileEvent::Prepared(Err(_))
        },
        step is Err ==> final(reconciliation)@ == old(reconciliation)@,
        event == ReconcileEvent::Leader(None) ==> step->Err_0 is Cluster,
        event matches ReconcileEvent::Leader(Some(leader)) ==> leader
            != old(reconciliation)@.node_id ==> step->Err_0 == (BrokerError::NotLeader {
            leader_id: Some(leader),
        }),
        event matches ReconcileEvent::Prepared(Err(reason)) ==> {
            &&& step->Err_0 is Cluster
            &&& names(
                step->Err_0->Cluster_0@,
                decimal(old(reconciliation)@.pending[0] as nat),
            )
            &&& names(step->Err_0->Cluster_0@, reason@)
        },
{
    if let ReconcileEvent::Prepared(Err(reason)) = event {
        let text = step->Err_0->Cluster_0@;
        let node = decimal(old(reconciliation)@.pending[0] as nat);
        lemma_names(
            text,
            node,
            "could not prepare data group on node "@,
            ": "@ + reason@ + ""@,
        );
        lemma_names(
            text,
            reason@,
            "could not prepare data group on node "@ + node + ": "@,
            ""@,
        );
    }
}

/// A data group that can be used is accepted. Of one whose manifest could not be looked for
/// the failure is told as it is; and one that is no directory, or has no manifest, is named.
pub proof fn law_refused_data_groups_are_named(
    entry: DataGroupEntry,
    accepted: Result<(), BrokerError>,
)
    requires
        call_ensures(validate_data_group, (entry,), accepted),
    ensures
        !entry.is_directory ==> accepted is Err && accepted->Err_0 is Cluster && names(
            accepted->Err_0->Cluster_0@,
            entry.path@,
        ),
        entry.is_directory ==> (entry.manifest matches Err(failure) ==> accepted == Err::<
            (),
            BrokerError,
        >(BrokerError::Io(failure))),
        entry.is_directory && entry.manifest == Ok::<
            FileRead<DataGroupManifest>,
            IoFailure,
        >(FileRead::Missing) ==> accepted is Err && accepted->Err_0 is Cluster && names(
            accepted->Err_0->Cluster_0@,
            entry.manifest_path@,
        ),
{
    lemma_path_text("invalid data-group entry"@, entry.path@, "expected a directory"@);
    lemma_names(
        missing_manifest_text(entry.manifest_path@),
        entry.manifest_path@,
        "missing data-group manifest '"@,
        "'"@,
    );
}

/// A heartbeat is a request to append no entries, and nothing else is.
pub proof fn law_heartbeats_append_nothing(kind: PeerRequestKind, is_one: bool)
    requires
        call_ensures(request_is_heartbeat, (kind,), is_one),
    ensures
        is_one <==> kind == (PeerRequestKind::AppendEntries { entries: 0 }),
{
}

} // verus!
