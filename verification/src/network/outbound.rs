//! Connections to other nodes: which are kept, shared and reused.

use vstd::prelude::*;

use crate::delivery::next_up;
use crate::engine::{IoFailure, IoKind};
use crate::keyed::{keys_in_order, text_before, MapKey, SortedMap};
use crate::text::{decimal, decimal_text, join3};

verus! {

/// The longest that a connection may lie idle and still be used again, in
/// nanoseconds.
pub const MAX_IDLE_CONNECTION_AGE_NANOS: u128 = 30_000_000_000;

/// The most nodes that connections are kept for.
pub const MAX_POOLED_PEERS: usize = 64;

/// The most connections that are open to one node.
pub const MAX_CONNECTIONS_PER_POOLED_PEER: usize = 5;

/// Of those, the ones that only heartbeats and votes use.
pub const RESERVED_CONTROL_CONNECTIONS_PER_POOLED_PEER: usize = 1;

/// And the ones that all else shares.
pub const MAX_SHARED_CONNECTIONS_PER_POOLED_PEER: usize = 4;

/// The kinds of requests to another node.
#[derive(Clone, Copy, Debug, PartialEq, Eq, Structural)]
pub enum PeerRequestKind {
    AppendEntries { entries: usize },
    InstallSnapshot,
    Vote,
    Forward,
    EnsureDataGroup,
}

/// What a request has to share connections with.
#[derive(Clone, Copy, Debug, PartialEq, Eq, Structural)]
pub enum PeerRequestLane {
    Control,
    Shared,
}

/// Whether a request is a heartbeat: one that appends nothing.
pub open spec fn is_heartbeat(kind: PeerRequestKind) -> bool {
    kind matches PeerRequestKind::AppendEntries { entries } && entries == 0
}

/// Whether a request is a heartbeat: one that appends nothing.
pub fn request_is_heartbeat(kind: PeerRequestKind) -> (r: bool)
    ensures
        r == is_heartbeat(kind),
{
    match kind {
        PeerRequestKind::AppendEntries { entries } => entries == 0,
        _ => false,
    }
}

impl PeerRequestKind {
    /// What this request has to share connections with: heartbeats and votes
    /// have a connection of their own, so that no slow operation delays them.
    pub fn lane(self) -> (r: PeerRequestLane)
        ensures
            r == (if is_heartbeat(self) || self is Vote {
                PeerRequestLane::Control
            } else {
                PeerRequestLane::Shared
            }),
    {
        if request_is_heartbeat(self) {
            return PeerRequestLane::Control;
        }
        match self {
            PeerRequestKind::Vote => PeerRequestLane::Control,
            _ => PeerRequestLane::Shared,
        }
    }
}

/// Whether a request goes out on a connection that is shared with other groups:
/// heartbeats and votes do, until their group has a connection of its own.
pub fn uses_pool(kind: PeerRequestKind, has_connection: bool) -> (r: bool)
    ensures
        r == (!has_connection && (is_heartbeat(kind) || kind is Vote)),
{
    if has_connection {
        return false;
    }
    match kind {
        PeerRequestKind::Vote => true,
        _ => request_is_heartbeat(kind),
    }
}

impl PeerRequestLane {
    /// How many connections to one node requests of this lane may use at once.
    pub fn permits(self) -> (r: usize)
        ensures
            r == (match self {
                PeerRequestLane::Control => RESERVED_CONTROL_CONNECTIONS_PER_POOLED_PEER,
                PeerRequestLane::Shared => MAX_SHARED_CONNECTIONS_PER_POOLED_PEER,
            }),
    {
        match self {
            PeerRequestLane::Control => RESERVED_CONTROL_CONNECTIONS_PER_POOLED_PEER,
            PeerRequestLane::Shared => MAX_SHARED_CONNECTIONS_PER_POOLED_PEER,
        }
    }
}

/// The lanes share out the connections to a node: together they use all that may
/// be open and no more, and neither can take the other's.
pub proof fn law_lanes_share_out_the_connections()
    ensures
        RESERVED_CONTROL_CONNECTIONS_PER_POOLED_PEER + MAX_SHARED_CONNECTIONS_PER_POOLED_PEER
            == MAX_CONNECTIONS_PER_POOLED_PEER,
        RESERVED_CONTROL_CONNECTIONS_PER_POOLED_PEER > 0,
{
}

/// Why a request to another node was given up.
pub fn timed_out_error() -> (r: IoFailure)
    ensures
        r.kind == IoKind::TimedOut,
        r.message@ == "peer RPC timed out"@,
{
    IoFailure { kind: IoKind::TimedOut, message: "peer RPC timed out".to_owned() }
}

/// The address of a node: the one that the cluster gives for it, or the one that
/// was configured where it gives none.
pub fn client_address(node_address: &String, configured: Option<&String>) -> (r: Option<String>)
    ensures
        r.deep_view() == (if node_address@.len() > 0 {
            Some(node_address@)
        } else {
            match configured {
                Some(address) => Some(address@),
                None => None,
            }
        }),
{
    if !node_address.as_str().is_empty() {
        return Some(node_address.clone());
    }
    match configured {
        Some(address) => Some(address.clone()),
        None => None,
    }
}

/// The address to connect to, or why there is none.
pub fn required_address(target: u64, address: Option<String>) -> (r: Result<String, IoFailure>)
    ensures
        match address {
            Some(address) => r == Ok::<String, IoFailure>(address),
            None => r matches Err(f) && f.kind == IoKind::InvalidInput && f.message@ == "node "@
                + decimal(target as nat) + " has no valid peer address"@,
        },
{
    match address {
        Some(address) => Ok(address),
        None => Err(
            IoFailure {
                kind: IoKind::InvalidInput,
                message: join3(
                    "node ",
                    decimal_text(target).as_str(),
                    " has no valid peer address",
                ),
            },
        ),
    }
}

/// Something is the last of some connections that has not lain idle too long, or nothing
/// where all have.
pub open spec fn is_last_in_time(ages: Seq<u128>, found: Option<usize>) -> bool {
    match found {
        Some(i) => i < ages.len() && ages[i as int] <= MAX_IDLE_CONNECTION_AGE_NANOS && forall|
            j: int,
        |
            i < j < ages.len() ==> #[trigger] ages[j] > MAX_IDLE_CONNECTION_AGE_NANOS,
        None => forall|j: int|
            0 <= j < ages.len() ==> #[trigger] ages[j] > MAX_IDLE_CONNECTION_AGE_NANOS,
    }
}

/// Which of the idle connections to a node is used next. They are tried from the
/// one that was put back last, and those that have lain idle too long are
/// dropped. `ages` says how long each has lain idle, in nanoseconds.
pub fn reusable_connection(ages: &Vec<u128>) -> (r: Option<usize>)
    ensures
        is_last_in_time(ages@, r),
{
    let mut i: usize = ages.len();
    while i > 0
        invariant
            i <= ages@.len(),
            forall|j: int|
                i <= j < ages@.len() ==> #[trigger] ages@[j] > MAX_IDLE_CONNECTION_AGE_NANOS,
        decreases i,
    {
        i -= 1;
        if ages[i] <= MAX_IDLE_CONNECTION_AGE_NANOS {
            return Some(i);
        }
    }
    None
}

/// The connections that are kept to one node: when they were last asked for, and
/// how many requests hold them now.
#[derive(Clone, Copy, Debug, PartialEq, Eq, Structural)]
pub struct PeerPoolEntry {
    pub last_used: u64,
    pub holders: u64,
}

impl View for PeerPoolEntry {
    type V = PeerPoolEntry;

    open spec fn view(&self) -> PeerPoolEntry {
        *self
    }
}

/// What a request for the connections to a node was granted: whether they are
/// new, and which node's had to go for them.
#[derive(Debug, PartialEq, Eq)]
pub struct PoolGrant {
    pub opened: bool,
    pub evicted: Option<String>,
}

/// The nodes that connections are kept for.
#[derive(Debug)]
pub struct PeerPoolRegistry {
    pools: SortedMap<String, PeerPoolEntry>,
    access_counter: u64,
}

/// What the registry of connections holds.
#[verifier::ext_equal]
pub struct RegistryView {
    pub pools: Map<Seq<char>, PeerPoolEntry>,
    pub access_counter: u64,
}

impl View for PeerPoolRegistry {
    type V = RegistryView;

    closed spec fn view(&self) -> RegistryView {
        RegistryView { pools: self.pools@, access_counter: self.access_counter }
    }
}

/// Whether connections are kept to a node and nobody holds them.
pub open spec fn is_idle(pools: Map<Seq<char>, PeerPoolEntry>, address: Seq<char>) -> bool {
    pools.contains_key(address) && pools[address].holders == 0
}

/// Whether one node's connections go before another's: they were last asked for
/// earlier, or as long ago and their address comes first.
pub open spec fn goes_before(
    pools: Map<Seq<char>, PeerPoolEntry>,
    a: Seq<char>,
    b: Seq<char>,
) -> bool {
    pools[a].last_used < pools[b].last_used || (pools[a].last_used == pools[b].last_used
        && text_before(a, b))
}

/// The idle connections that go first.
pub open spec fn is_oldest_idle(
    pools: Map<Seq<char>, PeerPoolEntry>,
    address: Seq<char>,
) -> bool {
    is_idle(pools, address) && forall|other: Seq<char>| #[trigger]
        is_idle(pools, other) && other != address ==> goes_before(pools, address, other)
}

/// What the registry holds after a node's connections were asked for and opened.
pub open spec fn with_pool(
    pools: Map<Seq<char>, PeerPoolEntry>,
    address: Seq<char>,
    access: u64,
) -> Map<Seq<char>, PeerPoolEntry> {
    pools.insert(address, PeerPoolEntry { last_used: access, holders: 1 })
}

impl Default for PeerPoolRegistry {
    fn default() -> (r: Self)
        ensures
            r@ == (RegistryView { pools: Map::empty(), access_counter: 0 }),
            r.holds_few(),
    {
        let pools: SortedMap<String, PeerPoolEntry> = SortedMap::new();
        let _ = pools.len();
        PeerPoolRegistry { pools, access_counter: 0 }
    }
}

impl PeerPoolRegistry {
    /// Connections are kept for no more nodes than may be.
    pub open spec fn holds_few(&self) -> bool {
        self@.pools.dom().finite() && self@.pools.dom().len() <= MAX_POOLED_PEERS
    }

    /// How many nodes connections are kept for.
    pub fn len(&self) -> (r: usize)
        ensures
            r == self@.pools.dom().len(),
    {
        self.pools.len()
    }

    /// Whether connections are kept for a node.
    pub fn contains(&self, address: &String) -> (r: bool)
        ensures
            r == self@.pools.contains_key(address@),
    {
        self.pools.contains(address)
    }

    /// The idle connections that go first.
    fn oldest_idle(&self) -> (r: Option<String>)
        ensures
            match r {
                Some(address) => is_oldest_idle(self@.pools, address@),
                None => forall|other: Seq<char>| !#[trigger] is_idle(self@.pools, other),
            },
    {
        let n: usize = self.pools.len();
        let ghost keys = self.pools.keys();
        let ghost pools = self@.pools;
        let mut best: Option<usize> = None;
        let mut i: usize = 0;
        while i < n
            invariant
                i <= n,
                n == keys.len(),
                keys == self.pools.keys(),
                pools == self.pools@,
                keys_in_order::<String, PeerPoolEntry>(keys, pools),
                match best {
                    Some(b) => b < i && pools[keys[b as int]].holders == 0 && forall|j: int|
                        0 <= j < i && j != b && pools[#[trigger] keys[j]].holders == 0
                            ==> goes_before(pools, keys[b as int], keys[j]),
                    None => forall|j: int|
                        0 <= j < i ==> pools[#[trigger] keys[j]].holders != 0,
                },
            decreases n - i,
        {
            let entry = self.pools.value_at(i);
            if entry.holders == 0 {
                let first = match best {
                    Some(b) => entry.last_used < self.pools.value_at(b).last_used,
                    None => true,
                };
                proof {
                    if best is Some {
                        let b = best->0 as int;
                        assert(text_before(keys[b], keys[i as int]));
                        if first {
                            assert forall|j: int|
                                0 <= j < i + 1 && j != i && pools[#[trigger] keys[j]].holders
                                    == 0 implies goes_before(pools, keys[i as int], keys[j]) by {
                                if j != b {
                                    assert(goes_before(pools, keys[b], keys[j]));
                                }
                            }
                        }
                    }
                }
                if first {
                    best = Some(i);
                }
            }
            i += 1;
        }
        match best {
            Some(b) => {
                proof {
                    assert forall|other: Seq<char>| #[trigger]
                        is_idle(pools, other) && other != keys[b as int] implies goes_before(
                        pools,
                        keys[b as int],
                        other,
                    ) by {
                        let j = choose|j: int| 0 <= j < keys.len() && #[trigger] keys[j] == other;
                    }
                }
                Some(self.pools.key_at(b).clone())
            },
            None => {
                proof {
                    assert forall|other: Seq<char>| !#[trigger] is_idle(pools, other) by {
                        if pools.contains_key(other) {
                            let j = choose|j: int| 0 <= j < keys.len() && #[trigger] keys[j]
                                == other;
                        }
                    }
                }
                None
            },
        }
    }

    /// Asks for the connections to a node. Where connections are kept for as
    /// many nodes as may be, the idle ones that were last asked for the longest
    /// ago go; where none are idle, nothing is granted.
    pub fn pool(&mut self, address: &String) -> (r: Option<PoolGrant>)
        requires
            old(self).holds_few(),
        ensures
            final(self).holds_few(),
            final(self)@.access_counter == next_up(old(self)@.access_counter),
            ({
                let before = old(self)@.pools;
                let after = final(self)@.pools;
                let access = old(self)@.access_counter;
                if before.contains_key(address@) {
                    &&& r matches Some(grant) && !grant.opened && grant.evicted is None
                    &&& after == before.insert(
                        address@,
                        PeerPoolEntry {
                            last_used: access,
                            holders: next_up(before[address@].holders),
                        },
                    )
                } else if before.dom().len() < MAX_POOLED_PEERS {
                    &&& r matches Some(grant) && grant.opened && grant.evicted is None
                    &&& after == with_pool(before, address@, access)
                } else if exists|other: Seq<char>| #[trigger] is_idle(before, other) {
                    &&& r matches Some(grant)
                    &&& grant.opened
                    &&& grant.evicted matches Some(gone)
                    &&& is_oldest_idle(before, gone@)
                    &&& after == with_pool(before.remove(gone@), address@, access)
                } else {
                    r is None && after == before
                }
            }),
    {
        let access: u64 = self.access_counter;
        self.access_counter = self.access_counter.saturating_add(1);
        if let Some(entry) = self.pools.get(address) {
            let holders: u64 = entry.holders.saturating_add(1);
            self.pools.insert(address.clone(), PeerPoolEntry { last_used: access, holders });
            proof {
                assert(self@.pools.dom() =~= old(self)@.pools.dom());
            }
            return Some(PoolGrant { opened: false, evicted: None });
        }
        let mut evicted: Option<String> = None;
        if self.pools.len() >= MAX_POOLED_PEERS {
            match self.oldest_idle() {
                Some(idle) => {
                    self.pools.remove(&idle);
                    evicted = Some(idle);
                },
                None => {
                    return None;
                },
            }
        }
        self.pools.insert(address.clone(), PeerPoolEntry { last_used: access, holders: 1 });
        Some(PoolGrant { opened: true, evicted })
    }

    /// Gives the connections to a node back.
    pub fn release(&mut self, address: &String)
        requires
            old(self).holds_few(),
        ensures
            final(self).holds_few(),
            final(self)@ == (if old(self)@.pools.contains_key(address@) {
                RegistryView {
                    pools: old(self)@.pools.insert(
                        address@,
                        PeerPoolEntry {
                            last_used: old(self)@.pools[address@].last_used,
                            holders: if old(self)@.pools[address@].holders == 0 {
                                0
                            } else {
                                (old(self)@.pools[address@].holders - 1) as u64
                            },
                        },
                    ),
                    ..old(self)@
                }
            } else {
                old(self)@
            }),
    {
        if let Some(entry) = self.pools.get(address) {
            let released = PeerPoolEntry {
                last_used: entry.last_used,
                holders: entry.holders.saturating_sub(1),
            };
            self.pools.insert(address.clone(), released);
            proof {
                assert(self@.pools.dom() =~= old(self)@.pools.dom());
            }
        }
    }
}

/// The idle connections that go first are one node's.
pub proof fn law_eviction_is_deterministic(
    pools: Map<Seq<char>, PeerPoolEntry>,
    a: Seq<char>,
    b: Seq<char>,
)
    requires
        is_oldest_idle(pools, a),
        is_oldest_idle(pools, b),
    ensures
        a == b,
{
    if a != b {
        assert(is_idle(pools, a) && is_idle(pools, b));
        assert(goes_before(pools, a, b) && goes_before(pools, b, a));
        <String as MapKey>::order_laws(a, b, a);
    }
}

/// Connections that are asked for. Those that are kept are granted as they are, and count
/// one holder more. Others are opened if connections are kept for fewer than sixty-four
/// nodes; or in place of those to a node that nobody holds and that were asked for the
/// longest ago; and where all are held, nothing is granted and nothing changes. The
/// connections to no other node are touched.
pub proof fn law_connections_are_shared_and_opened(
    registry: &mut PeerPoolRegistry,
    address: String,
    grant: Option<PoolGrant>,
    other: Seq<char>,
)
    requires
        call_ensures(PeerPoolRegistry::pool, (registry, &address), grant),
    ensures
        ({
            let was = old(registry)@.pools;
            let now = final(registry)@.pools;
            let kept = was.contains_key(address@);
            let room = was.dom().len() < 64;
            &&& grant is None ==> now == was && !kept && !room
            &&& kept || room ==> grant is Some && grant->0.evicted is None
            &&& grant is Some ==> {
                &&& now.contains_key(address@)
                &&& now[address@].last_used == old(registry)@.access_counter
                &&& grant->0.opened <==> !kept
                &&& !kept ==> now[address@].holders == 1
                &&& kept && was[address@].holders < u64::MAX ==> now[address@].holders
                    == was[address@].holders + 1
            }
            &&& !kept && !room && grant is None ==> (was.contains_key(other) ==> was[other].holders
                > 0)
            &&& grant is Some && grant->0.evicted is Some ==> {
                let gone = grant->0.evicted->0@;
                &&& was.contains_key(gone)
                &&& was[gone].holders == 0
                &&& was.contains_key(other) && was[other].holders == 0 ==> was[gone].last_used
                    <= was[other].last_used
                &&& !now.contains_key(gone)
            }
            &&& other != address@ && (grant is Some && grant->0.evicted is Some ==> other
                != grant->0.evicted->0@) ==> (now.contains_key(other) <==> was.contains_key(other))
                && (was.contains_key(other) ==> now[other] == was[other])
            &&& old(registry)@.access_counter < u64::MAX ==> final(registry)@.access_counter
                == old(registry)@.access_counter + 1
        }),
{
    let was = old(registry)@.pools;
    if grant is None {
        assert(!is_idle(was, other));
    }
    if grant is Some && grant->0.evicted is Some {
        let gone = grant->0.evicted->0@;
        assert(is_oldest_idle(was, gone));
        if was.contains_key(other) && was[other].holders == 0 {
            assert(is_idle(was, other));
        }
    }
}

/// Connections that are given back count one holder less, are kept, and no others change.
pub proof fn law_connections_are_given_back(
    registry: &mut PeerPoolRegistry,
    address: String,
    other: Seq<char>,
)
    requires
        call_ensures(PeerPoolRegistry::release, (registry, &address), ()),
    ensures
        ({
            let was = old(registry)@.pools;
            let now = final(registry)@.pools;
            &&& now.contains_key(other) <==> was.contains_key(other)
            &&& other != address@ && was.contains_key(other) ==> now[other] == was[other]
            &&& was.contains_key(address@) && was[address@].holders > 0 ==> now[address@].holders
                == was[address@].holders - 1
            &&& was.contains_key(address@) ==> now[address@].last_used == was[address@].last_used
        }),
{
}

/// Of the idle connections to a node the one that was put back last is used again, of those
/// that have lain idle for no more than thirty seconds. Heartbeats and votes go by a lane
/// of their own, and by shared connections until they have one. The address that the
/// cluster gives for a node counts before the one that was configured.
pub proof fn law_connections_are_used_again(
    ages: &'static Vec<u128>,
    used: Option<usize>,
    kind: PeerRequestKind,
    has_connection: bool,
    lane: PeerRequestLane,
    pooled: bool,
    given: String,
    configured: String,
    with: Option<String>,
    without: Option<String>,
)
    requires
        call_ensures(reusable_connection, (ages,), used),
        call_ensures(PeerRequestKind::lane, (kind,), lane),
        call_ensures(uses_pool, (kind, has_connection), pooled),
        call_ensures(client_address, (&given, Some(&configured)), with),
        call_ensures(client_address, (&given, None), without),
    ensures
        used is Some <==> exists|i: int|
            0 <= i < ages@.len() && #[trigger] ages@[i] <= 30_000_000_000u128,
        used matches Some(i) ==> i < ages@.len() && ages@[i as int] <= 30_000_000_000u128
            && forall|j: int|
            i < j < ages@.len() ==> #[trigger] ages@[j] > 30_000_000_000u128,
        ({
            let urgent = kind is Vote || (kind is AppendEntries && kind->entries == 0);
            &&& lane == PeerRequestLane::Control <==> urgent
            &&& pooled <==> urgent && !has_connection
        }),
        with is Some,
        given@.len() > 0 ==> with->0@ == given@ && without is Some && without->0@ == given@,
        given@.len() == 0 ==> with->0@ == configured@ && without is None,
{
    match used {
        Some(place) => {
            let i = place as int;
            assert(0 <= i < ages@.len() && ages@[i] <= 30_000_000_000u128);
        },
        None => {
            assert(is_last_in_time(ages@, None));
        },
    }
}

} // verus!
