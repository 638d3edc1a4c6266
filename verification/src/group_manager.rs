//! The groups of a node: which one a stream belongs to, how a new one comes
//! into being, and what they say together.

use vstd::prelude::*;

use crate::cluster_storage::{missing_manifest_text, DataGroupManifest};
use crate::delivery::dead_letter_name;
use crate::engine::{BrokerError, HealthSnapshot};
use crate::keyed::SortedMap;
use crate::log_id::NodeId;
use crate::naming::METADATA_GROUP_ID;
use crate::network::{forward_error_to_broker, received_error, ForwardedResponse};
use crate::state_machine::{metadata_of, GroupKind, SnapshotState, StreamLifecycle, StreamMetadata};
use crate::state_machine_store::{
    is_first_stream, is_in_group, is_source_of, no_snapshot_metrics, SnapshotMetricsSnapshot,
};
use crate::storage::{is_cluster_error, path_error, path_text, PathKind};
use crate::text::{decimal, decimal_text, join3, same_text};

verus! {

/// How many entries are appended to a log between two snapshots.
pub const SNAPSHOT_LOG_THRESHOLD: u64 = 32;

/// How many entries a follower may lag behind before it is sent a snapshot.
pub const REPLICATION_LAG_THRESHOLD: u64 = 64;

/// How many entries a log keeps after a snapshot.
pub const SNAPSHOT_LOGS_TO_KEEP: u64 = 4;

/// How many bytes of a snapshot are sent at a time.
pub const SNAPSHOT_CHUNK_SIZE: u64 = 65_536;

/// How often a leader is heard from, in milliseconds.
pub const HEARTBEAT_INTERVAL_MS: u64 = 100;

/// How long a follower waits for its leader at least, in milliseconds.
pub const ELECTION_TIMEOUT_MIN_MS: u64 = 300;

/// How long a follower waits for its leader at most, in milliseconds.
pub const ELECTION_TIMEOUT_MAX_MS: u64 = 600;

/// The name under which a group of a cluster replicates.
pub fn group_cluster_name(cluster_name: &str, group_id: &str) -> (r: String)
    ensures
        r@ == cluster_name@ + "/"@ + group_id@,
{
    join3(cluster_name, "/", group_id)
}

/// Two counts together, each with its like.
pub open spec fn counts_together(
    left: SnapshotMetricsSnapshot,
    right: SnapshotMetricsSnapshot,
) -> SnapshotMetricsSnapshot {
    SnapshotMetricsSnapshot {
        builds_started: (left.builds_started + right.builds_started) as u64,
        builds_completed: (left.builds_completed + right.builds_completed) as u64,
        build_failures: (left.build_failures + right.build_failures) as u64,
        installs_started: (left.installs_started + right.installs_started) as u64,
        installs_completed: (left.installs_completed + right.installs_completed) as u64,
        install_failures: (left.install_failures + right.install_failures) as u64,
        install_bytes: (left.install_bytes + right.install_bytes) as u64,
        installs_in_progress: (left.installs_in_progress + right.installs_in_progress) as u64,
        transfer_chunks: (left.transfer_chunks + right.transfer_chunks) as u64,
        transfer_final_chunks: (left.transfer_final_chunks + right.transfer_final_chunks) as u64,
        transfer_bytes: (left.transfer_bytes + right.transfer_bytes) as u64,
    }
}

/// Whether two counts together are within what a number can hold.
pub open spec fn counts_fit(
    left: SnapshotMetricsSnapshot,
    right: SnapshotMetricsSnapshot,
) -> bool {
    &&& left.builds_started + right.builds_started <= u64::MAX
    &&& left.builds_completed + right.builds_completed <= u64::MAX
    &&& left.build_failures + right.build_failures <= u64::MAX
    &&& left.installs_started + right.installs_started <= u64::MAX
    &&& left.installs_completed + right.installs_completed <= u64::MAX
    &&& left.install_failures + right.install_failures <= u64::MAX
    &&& left.install_bytes + right.install_bytes <= u64::MAX
    &&& left.installs_in_progress + right.installs_in_progress <= u64::MAX
    &&& left.transfer_chunks + right.transfer_chunks <= u64::MAX
    &&& left.transfer_final_chunks + right.transfer_final_chunks <= u64::MAX
    &&& left.transfer_bytes + right.transfer_bytes <= u64::MAX
}

/// Two counts together, each with its like.
pub fn add_snapshot_metrics(
    left: SnapshotMetricsSnapshot,
    right: SnapshotMetricsSnapshot,
) -> (r: SnapshotMetricsSnapshot)
    requires
        counts_fit(left, right),
    ensures
        r == counts_together(left, right),
{
    SnapshotMetricsSnapshot {
        builds_started: left.builds_started + right.builds_started,
        builds_completed: left.builds_completed + right.builds_completed,
        build_failures: left.build_failures + right.build_failures,
        installs_started: left.installs_started + right.installs_started,
        installs_completed: left.installs_completed + right.installs_completed,
        install_failures: left.install_failures + right.install_failures,
        install_bytes: left.install_bytes + right.install_bytes,
        installs_in_progress: left.installs_in_progress + right.installs_in_progress,
        transfer_chunks: left.transfer_chunks + right.transfer_chunks,
        transfer_final_chunks: left.transfer_final_chunks + right.transfer_final_chunks,
        transfer_bytes: left.transfer_bytes + right.transfer_bytes,
    }
}

/// Counts together do not depend on which comes first.
pub proof fn law_counts_add_in_any_order(a: SnapshotMetricsSnapshot, b: SnapshotMetricsSnapshot)
    ensures
        counts_together(a, b) == counts_together(b, a),
        counts_together(a, no_snapshot_metrics()) == a,
{
}

/// The counts of some groups together.
pub open spec fn counts_of(groups: Seq<SnapshotMetricsSnapshot>) -> SnapshotMetricsSnapshot
    decreases groups.len(),
{
    if groups.len() == 0 {
        no_snapshot_metrics()
    } else {
        counts_together(counts_of(groups.drop_last()), groups.last())
    }
}

/// Whether the counts of some groups together, taken one by one, are within what
/// a number can hold.
pub open spec fn counts_of_fit(groups: Seq<SnapshotMetricsSnapshot>) -> bool {
    forall|i: int|
        0 <= i < groups.len() ==> counts_fit(counts_of(groups.take(i)), #[trigger] groups[i])
}

/// The counts of some groups together.
pub fn snapshot_metrics(groups: &Vec<SnapshotMetricsSnapshot>) -> (r: SnapshotMetricsSnapshot)
    requires
        counts_of_fit(groups@),
    ensures
        r == counts_of(groups@),
{
    let mut total = SnapshotMetricsSnapshot::default();
    let n: usize = groups.len();
    let mut i: usize = 0;
    proof {
        assert(groups@.take(0) =~= Seq::empty());
    }
    while i < n
        invariant
            i <= n,
            n == groups@.len(),
            counts_of_fit(groups@),
            total == counts_of(groups@.take(i as int)),
        decreases n - i,
    {
        proof {
            assert(groups@.take(i + 1).drop_last() =~= groups@.take(i as int));
        }
        total = add_snapshot_metrics(total, groups[i]);
        i += 1;
    }
    proof {
        assert(groups@.take(i as int) =~= groups@);
    }
    total
}

/// One number of each of some groups, together.
pub open spec fn sum_of(groups: Seq<HealthSnapshot>, number: spec_fn(HealthSnapshot) -> u64) -> nat
    decreases groups.len(),
{
    if groups.len() == 0 {
        0
    } else {
        sum_of(groups.drop_last(), number) + number(groups.last()) as nat
    }
}

/// The bytes that a group keeps.
pub open spec fn bytes_kept() -> spec_fn(HealthSnapshot) -> u64 {
    |health: HealthSnapshot| health.storage_bytes
}

/// The deliveries that a group has out.
pub open spec fn deliveries_out() -> spec_fn(HealthSnapshot) -> u64 {
    |health: HealthSnapshot| health.in_flight_deliveries
}

/// The messages that a group has delivered again.
pub open spec fn redelivered() -> spec_fn(HealthSnapshot) -> u64 {
    |health: HealthSnapshot| health.redeliveries
}

/// The messages that a group has given up.
pub open spec fn dead() -> spec_fn(HealthSnapshot) -> u64 {
    |health: HealthSnapshot| health.dead_letters
}

/// A part of a sum is no more than the sum.
proof fn lemma_sum_grows(
    groups: Seq<HealthSnapshot>,
    number: spec_fn(HealthSnapshot) -> u64,
    n: int,
)
    requires
        0 <= n <= groups.len(),
    ensures
        sum_of(groups.take(n), number) <= sum_of(groups, number),
    decreases groups.len(),
{
    if n == groups.len() {
        assert(groups.take(n) =~= groups);
    } else {
        assert(groups.drop_last().take(n) =~= groups.take(n));
        lemma_sum_grows(groups.drop_last(), number, n);
    }
}

/// The condition of a node: its streams are those of the metadata group, and
/// what it keeps and has out is that of all its groups together. What was
/// delivered again and what was given up is that of all its groups and, once
/// more, that of the metadata group.
pub fn node_health(metadata: &HealthSnapshot, groups: &Vec<HealthSnapshot>) -> (r: HealthSnapshot)
    requires
        sum_of(groups@, bytes_kept()) <= u64::MAX,
        sum_of(groups@, deliveries_out()) <= u64::MAX,
        metadata.redeliveries + sum_of(groups@, redelivered()) <= u64::MAX,
        metadata.dead_letters + sum_of(groups@, dead()) <= u64::MAX,
    ensures
        r.streams == metadata.streams,
        r.storage_bytes == sum_of(groups@, bytes_kept()),
        r.in_flight_deliveries == sum_of(groups@, deliveries_out()),
        r.redeliveries == metadata.redeliveries + sum_of(groups@, redelivered()),
        r.dead_letters == metadata.dead_letters + sum_of(groups@, dead()),
{
    let mut storage_bytes: u64 = 0;
    let mut in_flight_deliveries: u64 = 0;
    let mut redeliveries: u64 = metadata.redeliveries;
    let mut dead_letters: u64 = metadata.dead_letters;
    let n: usize = groups.len();
    let mut i: usize = 0;
    proof {
        assert(groups@.take(0) =~= Seq::empty());
    }
    while i < n
        invariant
            i <= n,
            n == groups@.len(),
            sum_of(groups@, bytes_kept()) <= u64::MAX,
            sum_of(groups@, deliveries_out()) <= u64::MAX,
            metadata.redeliveries + sum_of(groups@, redelivered()) <= u64::MAX,
            metadata.dead_letters + sum_of(groups@, dead()) <= u64::MAX,
            storage_bytes == sum_of(groups@.take(i as int), bytes_kept()),
            in_flight_deliveries == sum_of(groups@.take(i as int), deliveries_out()),
            redeliveries == metadata.redeliveries + sum_of(groups@.take(i as int), redelivered()),
            dead_letters == metadata.dead_letters + sum_of(groups@.take(i as int), dead()),
        decreases n - i,
    {
        let health = groups[i];
        proof {
            assert(groups@.take(i + 1).drop_last() =~= groups@.take(i as int));
            lemma_sum_grows(groups@, bytes_kept(), i + 1);
            lemma_sum_grows(groups@, deliveries_out(), i + 1);
            lemma_sum_grows(groups@, redelivered(), i + 1);
            lemma_sum_grows(groups@, dead(), i + 1);
        }
        storage_bytes = storage_bytes + health.storage_bytes;
        in_flight_deliveries = in_flight_deliveries + health.in_flight_deliveries;
        redeliveries = redeliveries + health.redeliveries;
        dead_letters = dead_letters + health.dead_letters;
        i += 1;
    }
    proof {
        assert(groups@.take(i as int) =~= groups@);
    }
    HealthSnapshot {
        streams: metadata.streams,
        storage_bytes,
        in_flight_deliveries,
        redeliveries,
        dead_letters,
    }
}

/// The stream whose group is to be opened for a group that is not open yet: none
/// for the metadata group, which is always open.
pub fn stream_of_group(state: &SnapshotState, group_id: &String) -> (r: Option<
    (String, StreamMetadata),
>)
    ensures
        if group_id@ == METADATA_GROUP_ID@ {
            r is None
        } else {
            is_first_stream(
                state.streams.keys(),
                state@.streams,
                is_in_group(state@.streams, group_id@),
                r,
            )
        },
{
    if same_text(group_id.as_str(), METADATA_GROUP_ID) {
        return None;
    }
    state.metadata_by_group_id(group_id)
}

/// Whether something is where the messages of a stream are: with the stream
/// itself, or for a dead-letter stream with the stream that it takes messages
/// from.
pub open spec fn is_data_group_of(
    state: SnapshotState,
    stream: Seq<char>,
    found: Result<(String, StreamMetadata), BrokerError>,
) -> bool {
    if state@.streams.contains_key(stream) {
        if state@.streams[stream].lifecycle == StreamLifecycle::Active {
            found matches Ok((name, metadata)) && name@ == stream && metadata@ == metadata_of(
                stream,
                state@.streams[stream],
            )
        } else {
            found matches Err(BrokerError::StreamNotReady(name)) && name@ == stream
        }
    } else {
        match found {
            Ok((name, metadata)) => {
                &&& is_first_stream(
                    state.streams.keys(),
                    state@.streams,
                    is_source_of(stream),
                    Some((name, metadata)),
                )
                &&& metadata.lifecycle == StreamLifecycle::Active
            },
            Err(BrokerError::StreamNotReady(name)) => {
                &&& name@ == stream
                &&& exists|source: (String, StreamMetadata)| #[trigger]
                    is_first_stream(
                        state.streams.keys(),
                        state@.streams,
                        is_source_of(stream),
                        Some(source),
                    ) && source.1.lifecycle != StreamLifecycle::Active
            },
            Err(BrokerError::StreamNotFound(name)) => {
                &&& name@ == stream
                &&& is_first_stream(
                    state.streams.keys(),
                    state@.streams,
                    is_source_of(stream),
                    None,
                )
            },
            Err(_) => false,
        }
    }
}

/// Where the messages of a stream are, if they can be reached yet.
pub fn data_group_for_stream(state: &SnapshotState, stream: &String) -> (r: Result<
    (String, StreamMetadata),
    BrokerError,
>)
    ensures
        is_data_group_of(*state, stream@, r),
{
    let (group_stream, metadata) = match state.metadata(stream) {
        Ok(metadata) => (stream.clone(), metadata),
        Err(_) => match state.dead_letter_source(stream) {
            Some(source) => source,
            None => {
                return Err(BrokerError::StreamNotFound(stream.clone()));
            },
        },
    };
    if metadata.lifecycle != StreamLifecycle::Active {
        proof {
            if !state@.streams.contains_key(stream@) {
                let source = (group_stream, metadata);
                assert(is_first_stream(
                    state.streams.keys(),
                    state@.streams,
                    is_source_of(stream@),
                    Some(source),
                ));
            }
        }
        return Err(BrokerError::StreamNotReady(stream.clone()));
    }
    Ok((group_stream, metadata))
}

/// How a data group is opened: the manifest that is recorded first, where there
/// is none yet, and what the group is for.
#[derive(Debug)]
pub struct DataGroupPlan {
    pub manifest: Option<DataGroupManifest>,
    pub kind: GroupKind,
}

/// How the group of a stream is opened in its directory, or why it cannot be: the
/// directory must be one, and where it holds anything there must be a manifest.
pub fn plan_data_group(
    stream: &String,
    metadata: &StreamMetadata,
    directory: PathKind,
    directory_path: &str,
    manifest_exists: bool,
    manifest_path: &str,
    has_entries: bool,
) -> (r: Result<DataGroupPlan, BrokerError>)
    ensures
        if directory == PathKind::Other {
            r is Err && is_cluster_error(
                r->Err_0,
                path_text(
                    "invalid data-group storage"@,
                    directory_path@,
                    "expected a directory"@,
                ),
            )
        } else if directory == PathKind::Directory && !manifest_exists && has_entries {
            r is Err && is_cluster_error(r->Err_0, missing_manifest_text(manifest_path@))
        } else {
            r matches Ok(plan) && plan.kind == (GroupKind::Data {
                stream: *stream,
                stream_id: metadata.stream_id,
                group_id: metadata.group_id,
            }) && plan.manifest == (if manifest_exists {
                None
            } else {
                Some(
                    DataGroupManifest {
                        stream: *stream,
                        stream_id: metadata.stream_id,
                        group_id: metadata.group_id,
                    },
                )
            })
        },
{
    match directory {
        PathKind::Other => {
            return Err(
                path_error("invalid data-group storage", directory_path, "expected a directory"),
            );
        },
        PathKind::Directory => {
            if !manifest_exists && has_entries {
                return Err(
                    BrokerError::Cluster(
                        join3("missing data-group manifest '", manifest_path, "'"),
                    ),
                );
            }
        },
        PathKind::Missing => {},
    }
    let manifest = if manifest_exists {
        None
    } else {
        Some(
            DataGroupManifest {
                stream: stream.clone(),
                stream_id: metadata.stream_id.clone(),
                group_id: metadata.group_id.clone(),
            },
        )
    };
    Ok(
        DataGroupPlan {
            manifest,
            kind: GroupKind::Data {
                stream: stream.clone(),
                stream_id: metadata.stream_id.clone(),
                group_id: metadata.group_id.clone(),
            },
        },
    )
}

/// Who is asked to set up the data of a stream when this node may not: the leader
/// that was named or else the one that is known, if it has an address.
pub fn initialization_address(
    named: Option<NodeId>,
    known: Option<NodeId>,
    peers: &SortedMap<u64, String>,
) -> (r: Result<String, BrokerError>)
    ensures
        ({
            let target = if named is Some {
                named
            } else {
                known
            };
            match target {
                None => r is Err && is_cluster_error(r->Err_0, "data group has no leader"@),
                Some(node) => if peers@.contains_key(node) {
                    r matches Ok(address) && address@ == peers@[node]
                } else {
                    r is Err && is_cluster_error(
                        r->Err_0,
                        "data leader node "@ + decimal(node as nat) + " has no address"@,
                    )
                },
            }
        }),
{
    let target = match named {
        Some(node) => node,
        None => match known {
            Some(node) => node,
            None => {
                return Err(BrokerError::Cluster("data group has no leader".to_owned()));
            },
        },
    };
    match peers.get(&target) {
        Some(address) => Ok(address.clone()),
        None => Err(
            BrokerError::Cluster(
                join3("data leader node ", decimal_text(target).as_str(), " has no address"),
            ),
        ),
    }
}

/// What the leader answered when it was asked to set up the data of a stream.
pub fn initialization_result(response: ForwardedResponse) -> (r: Result<(), BrokerError>)
    ensures
        match response {
            ForwardedResponse::InitializeDataStream(Ok(_)) => r is Ok,
            ForwardedResponse::InitializeDataStream(Err(error)) => r == Err::<(), BrokerError>(
                received_error(error),
            ),
            _ => r is Err && is_cluster_error(
                r->Err_0,
                "data leader returned the wrong initialization response"@,
            ),
        },
{
    match response {
        ForwardedResponse::InitializeDataStream(Ok(_)) => Ok(()),
        ForwardedResponse::InitializeDataStream(Err(error)) => Err(forward_error_to_broker(error)),
        _ => Err(
            BrokerError::Cluster(
                "data leader returned the wrong initialization response".to_owned(),
            ),
        ),
    }
}

/// The counts of groups are added up, each with its like, group by group, and none is left
/// out.
pub proof fn law_counts_are_sums(
    groups: Seq<SnapshotMetricsSnapshot>,
    group: SnapshotMetricsSnapshot,
)
    requires
        counts_fit(counts_of(groups), group),
    ensures
        ({
            let before = counts_of(groups);
            let after = counts_of(groups.push(group));
            &&& after.builds_started == before.builds_started + group.builds_started
            &&& after.builds_completed == before.builds_completed + group.builds_completed
            &&& after.build_failures == before.build_failures + group.build_failures
            &&& after.installs_started == before.installs_started + group.installs_started
            &&& after.installs_completed == before.installs_completed + group.installs_completed
            &&& after.install_failures == before.install_failures + group.install_failures
            &&& after.install_bytes == before.install_bytes + group.install_bytes
            &&& after.installs_in_progress == before.installs_in_progress
                + group.installs_in_progress
            &&& after.transfer_chunks == before.transfer_chunks + group.transfer_chunks
            &&& after.transfer_final_chunks == before.transfer_final_chunks
                + group.transfer_final_chunks
            &&& after.transfer_bytes == before.transfer_bytes + group.transfer_bytes
        }),
        counts_of(Seq::empty()).builds_started == 0,
        counts_of(Seq::empty()).install_bytes == 0,
        counts_of(Seq::empty()).transfer_bytes == 0,
{
    assert(groups.push(group).drop_last() =~= groups);
}

/// The condition of a node takes in each of its groups: one group more adds what it keeps,
/// has out, delivered again and gave up. The streams are those of the metadata group.
pub proof fn law_nodes_are_the_sum_of_their_groups(
    metadata: HealthSnapshot,
    none: Vec<HealthSnapshot>,
    some: Vec<HealthSnapshot>,
    more: Vec<HealthSnapshot>,
    group: HealthSnapshot,
    of_none: HealthSnapshot,
    of_some: HealthSnapshot,
    of_more: HealthSnapshot,
)
    requires
        none@.len() == 0,
        more@ == some@.push(group),
        call_ensures(node_health, (&metadata, &none), of_none),
        call_ensures(node_health, (&metadata, &some), of_some),
        call_ensures(node_health, (&metadata, &more), of_more),
    ensures
        of_none.streams == metadata.streams,
        of_none.storage_bytes == 0,
        of_none.in_flight_deliveries == 0,
        of_none.redeliveries == metadata.redeliveries,
        of_none.dead_letters == metadata.dead_letters,
        of_more.streams == metadata.streams,
        of_more.storage_bytes == of_some.storage_bytes + group.storage_bytes,
        of_more.in_flight_deliveries == of_some.in_flight_deliveries + group.in_flight_deliveries,
        of_more.redeliveries == of_some.redeliveries + group.redeliveries,
        of_more.dead_letters == of_some.dead_letters + group.dead_letters,
{
    assert(more@.drop_last() =~= some@);
}

/// Where the messages of a stream are: with the stream itself if it is in use; not to be
/// reached yet if it is there but not in use; and where it is not there, with a stream in
/// use whose undeliverable messages it takes, or nowhere.
pub proof fn law_messages_are_with_their_stream(
    state: SnapshotState,
    stream: String,
    found: Result<(String, StreamMetadata), BrokerError>,
)
    requires
        call_ensures(data_group_for_stream, (&state, &stream), found),
    ensures
        ({
            let there = state@.streams.contains_key(stream@);
            let used = there && state@.streams[stream@].lifecycle == StreamLifecycle::Active;
            &&& used ==> found is Ok && found->Ok_0.0@ == stream@ && (
            state@.streams[stream@].group_id.len() > 0 ==> found->Ok_0.1.group_id@
                == state@.streams[stream@].group_id)
            &&& there && !used ==> found is Err && found->Err_0 is StreamNotReady
                && found->Err_0->StreamNotReady_0@ == stream@
            &&& !there && found is Ok ==> found->Ok_0.1.lifecycle == StreamLifecycle::Active
                && state.streams.keys().contains(found->Ok_0.0@) && dead_letter_name(
                found->Ok_0.0@,
            ) == stream@
            &&& found is Err ==> found->Err_0 is StreamNotReady || found->Err_0 is StreamNotFound
        }),
{
    if !state@.streams.contains_key(stream@) {
        if let Ok((name, metadata)) = found {
            let names = state.streams.keys();
            let i = choose|i: int|
                0 <= i < names.len() && #[trigger] names[i] == name@ && is_source_of(stream@)(
                    names[i],
                );
            assert(names.contains(names[i]));
        }
    }
}

/// A group of a stream is opened for that very stream and under its identities, in a
/// directory that is one or is yet to be made. A manifest is recorded where there is none,
/// but not over anything that is there already.
pub proof fn law_data_groups_are_opened_for_their_stream(
    stream: String,
    metadata: StreamMetadata,
    directory: PathKind,
    path: &'static str,
    has_manifest: bool,
    manifest_path: &'static str,
    has_entries: bool,
    planned: Result<DataGroupPlan, BrokerError>,
)
    requires
        call_ensures(
            plan_data_group,
            (&stream, &metadata, directory, path, has_manifest, manifest_path, has_entries),
            planned,
        ),
    ensures
        planned is Err <==> directory == PathKind::Other || (directory == PathKind::Directory
            && has_entries && !has_manifest),
        planned matches Ok(plan) ==> {
            &&& plan.kind is Data
            &&& plan.kind->stream@ == stream@
            &&& plan.kind->stream_id@ == metadata.stream_id@
            &&& plan.kind->group_id@ == metadata.group_id@
            &&& plan.manifest is Some <==> !has_manifest
            &&& plan.manifest matches Some(manifest) ==> manifest.stream@ == stream@
                && manifest.stream_id@ == metadata.stream_id@ && manifest.group_id@
                == metadata.group_id@
        },
{
}

/// The leader that was named is asked before the one that is known, at its own address; and
/// what it answers is what came of it. Different groups of a cluster replicate under
/// different names.
pub proof fn law_leaders_set_up_the_data(
    named: Option<NodeId>,
    known: Option<NodeId>,
    peers: SortedMap<u64, String>,
    address: Result<String, BrokerError>,
    response: ForwardedResponse,
    result: Result<(), BrokerError>,
    cluster: &'static str,
    a: &'static str,
    b: &'static str,
    a_name: String,
    b_name: String,
)
    requires
        call_ensures(initialization_address, (named, known, &peers), address),
        call_ensures(initialization_result, (response,), result),
        call_ensures(group_cluster_name, (cluster, a), a_name),
        call_ensures(group_cluster_name, (cluster, b), b_name),
    ensures
        named is Some && peers@.contains_key(named->0) ==> address is Ok && address->Ok_0@
            == peers@[named->0],
        named is None && known is Some && peers@.contains_key(known->0) ==> address is Ok
            && address->Ok_0@ == peers@[known->0],
        named is None && known is None ==> address is Err,
        named is Some && !peers@.contains_key(named->0) ==> address is Err,
        result is Ok <==> response is InitializeDataStream
            && response->InitializeDataStream_0 is Ok,
        a_name@ == b_name@ ==> a@ == b@,
        a_name@ == cluster@ + "/"@ + a@,
{
    if a_name@ == b_name@ {
        let head = cluster@ + "/"@;
        assert((head + a@).skip(head.len() as int) =~= a@);
        assert((head + b@).skip(head.len() as int) =~= b@);
    }
}

} // verus!
