//! Sharding: shards are handed out to nodes in contiguous runs, and
//! cross-shard transactions move through a fixed sequence of states.
//!
//! Times are milliseconds of a monotonic clock, read by the caller.

use std::collections::HashMap;
use vstd::prelude::*;
use vstd::std_specs::iter::IteratorSpec;

use crate::clock::unix_time_secs;
use crate::ids::new_uuid;
use crate::network::error::NetworkError;
use crate::text::{decimal, push_decimal, push_str, string_of};

verus! {

broadcast use vstd::std_specs::hash::group_hash_axioms;

/// Shard identifier.
pub type ShardId = u32;

/// Sharding configuration.
#[derive(Debug, Clone, Copy, PartialEq, Eq, Structural)]
pub struct ShardConfig {
    /// Total number of shards
    pub total_shards: u32,
    /// Shards per node (used when no peer is known)
    pub shards_per_node: u32,
    /// Shard replication factor
    pub replication_factor: u32,
    /// Cross-shard transaction timeout (ms)
    pub cross_shard_timeout_ms: u64,
    /// Enable dynamic sharding
    pub dynamic_sharding: bool,
    /// Imbalance that triggers rebalancing, in percent
    pub rebalancing_threshold_percent: u32,
}

impl Default for ShardConfig {
    /// 16 shards, 2 per node, 3 replicas, 30 s timeout, dynamic sharding on,
    /// rebalancing at 20% imbalance.
    fn default() -> (r: Self)
        ensures
            r == (ShardConfig {
                total_shards: 16,
                shards_per_node: 2,
                replication_factor: 3,
                cross_shard_timeout_ms: 30000,
                dynamic_sharding: true,
                rebalancing_threshold_percent: 20,
            }),
    {
        ShardConfig {
            total_shards: 16,
            shards_per_node: 2,
            replication_factor: 3,
            cross_shard_timeout_ms: 30000,
            dynamic_sharding: true,
            rebalancing_threshold_percent: 20,
        }
    }
}

/// Shard status.
#[derive(Debug, Clone, Copy, PartialEq, Eq, Structural)]
pub enum ShardStatus {
    /// Shard is active and processing transactions
    Active,
    /// Shard is syncing state
    Syncing,
    /// Shard is rebalancing
    Rebalancing,
    /// Shard is offline
    Offline,
}

/// Shard information.
#[derive(Debug)]
pub struct ShardInfo {
    /// Shard ID
    pub shard_id: ShardId,
    /// Shard name
    pub name: String,
    /// Assigned nodes, each once
    pub nodes: Vec<u128>,
    /// Primary node
    pub primary_node: Option<u128>,
    /// Shard status
    pub status: ShardStatus,
    /// Transaction count
    pub transaction_count: u64,
    /// Last update time (ms)
    pub last_update: u64,
}

/// Cross-shard transaction types.
#[derive(Debug)]
pub enum CrossShardTransactionType {
    /// Asset transfer between shards
    AssetTransfer,
    /// Contract call across shards
    ContractCall,
    /// State synchronization
    StateSync,
    /// Custom transaction
    Custom(String),
}

/// Cross-shard transaction status.
#[derive(Debug)]
pub enum CrossShardTransactionStatus {
    /// Transaction submitted
    Submitted,
    /// Processing in source shard
    ProcessingSource,
    /// Processing in target shard
    ProcessingTarget,
    /// Completed successfully
    Completed,
    /// Failed
    Failed(String),
}

impl Clone for CrossShardTransactionStatus {
    fn clone(&self) -> (r: Self)
        ensures
            r == *self,
    {
        match self {
            CrossShardTransactionStatus::Submitted => CrossShardTransactionStatus::Submitted,
            CrossShardTransactionStatus::ProcessingSource => CrossShardTransactionStatus::ProcessingSource,
            CrossShardTransactionStatus::ProcessingTarget => CrossShardTransactionStatus::ProcessingTarget,
            CrossShardTransactionStatus::Completed => CrossShardTransactionStatus::Completed,
            CrossShardTransactionStatus::Failed(why) => CrossShardTransactionStatus::Failed(why.clone()),
        }
    }
}

/// A cross-shard transaction.
#[derive(Debug)]
pub struct CrossShardTransaction {
    /// Transaction ID
    pub id: u128,
    /// Source shard
    pub source_shard: ShardId,
    /// Target shard
    pub target_shard: ShardId,
    /// Transaction data
    pub data: Vec<u8>,
    /// Transaction type
    pub transaction_type: CrossShardTransactionType,
    /// Dependencies
    pub dependencies: Vec<u128>,
    /// Status
    pub status: CrossShardTransactionStatus,
    /// Submission time (seconds since the Unix epoch)
    pub timestamp: u64,
}

/// Sharding counters (wrapping at 2^64).
#[derive(Debug, Clone, Copy, PartialEq, Eq, Structural)]
pub struct ShardStats {
    /// Total shards (after the last monitoring pass)
    pub total_shards: u32,
    /// Active shards (after the last monitoring pass)
    pub active_shards: u32,
    /// Cross-shard transactions
    pub total_cross_shard_tx: u64,
    /// Cross-shard transactions completed
    pub successful_cross_shard_tx: u64,
}

/// The sharding service.
#[derive(Debug)]
pub struct ShardingService {
    /// Configuration
    pub config: ShardConfig,
    /// Local node ID
    pub local_node_id: u128,
    /// Shards, by id
    pub shards: Vec<ShardInfo>,
    /// Shards of each node, each once
    pub node_shards: HashMap<u128, Vec<ShardId>>,
    /// Cross-shard transactions, by id
    pub cross_shard_transactions: HashMap<u128, CrossShardTransaction>,
    /// Statistics
    pub stats: ShardStats,
    /// Running flag
    pub running: bool,
}

/// The name of shard `id`: "shard-" and its number.
pub open spec fn shard_name(id: nat) -> Seq<char> {
    "shard-"@ + decimal(id)
}

/// The shards `lo`, `lo + 1`, ..., up to but not including `hi`.
pub open spec fn shard_range(lo: int, hi: int) -> Seq<ShardId> {
    Seq::new(if hi > lo { (hi - lo) as nat } else { 0 }, |i: int| (lo + i) as ShardId)
}

/// Shards handed to each peer: the configured number with no peers,
/// otherwise the total over the number of peers, at least 1.
pub open spec fn shards_per_peer(config: ShardConfig, peer_count: int) -> int {
    if peer_count == 0 {
        config.shards_per_node as int
    } else if (config.total_shards as int) / peer_count >= 1 {
        (config.total_shards as int) / peer_count
    } else {
        1
    }
}

/// The first shard not handed to a peer.
pub open spec fn peer_shard_end(config: ShardConfig, peer_count: int) -> int {
    let spn = shards_per_peer(config, peer_count);
    if spn * peer_count < config.total_shards { spn * peer_count } else { config.total_shards as int }
}

/// The node that `start` makes responsible for shard `s`: peer `s / spn` while
/// the peers last, the local node after.
pub open spec fn shard_owner(config: ShardConfig, peers: Seq<u128>, local: u128, s: int) -> u128 {
    if s < peer_shard_end(config, peers.len() as int) {
        peers[s / shards_per_peer(config, peers.len() as int)]
    } else {
        local
    }
}

/// The shards handed to peer `k` by `start`.
pub open spec fn peer_shards(config: ShardConfig, peer_count: int, k: int) -> Seq<ShardId> {
    let spn = shards_per_peer(config, peer_count);
    let end = peer_shard_end(config, peer_count);
    shard_range(if k * spn < end { k * spn } else { end }, if (k + 1) * spn < end { (k + 1) * spn } else { end })
}

/// The shards from `lo` up to `hi`.
fn shard_range_vec(lo: u32, hi: u32) -> (r: Vec<ShardId>)
    ensures
        r@ == shard_range(lo as int, hi as int),
        r@.no_duplicates(),
{
    let mut out: Vec<ShardId> = Vec::new();
    let mut s: u32 = lo;
    while s < hi
        invariant
            lo <= s <= hi || (s == lo && lo >= hi),
            out@ == shard_range(lo as int, s as int),
        decreases hi - s,
    {
        out.push(s);
        s = s + 1;
        assert(out@ =~= shard_range(lo as int, s as int));
    }
    assert(out@ =~= shard_range(lo as int, hi as int));
    out
}

/// A cross-shard transaction after one processing pass; `None` when it leaves the table.
pub open spec fn advanced(s: CrossShardTransactionStatus) -> Option<CrossShardTransactionStatus> {
    match s {
        CrossShardTransactionStatus::Submitted => Some(CrossShardTransactionStatus::ProcessingSource),
        CrossShardTransactionStatus::ProcessingSource => Some(CrossShardTransactionStatus::ProcessingTarget),
        _ => None,
    }
}

/// Adding `n` to a counter, wrapping at 2^64.
pub open spec fn wrap_add(c: u64, n: int) -> u64 {
    ((c + n) % 0x1_0000_0000_0000_0000) as u64
}

/// `shards` are the fresh shards of a start at `now`: every shard of the
/// total, handed to its owner (see [`shard_owner`]), which is its primary.
pub open spec fn fresh_assignment(shards: Seq<ShardInfo>, config: ShardConfig, peers: Seq<u128>, local: u128, now: u64) -> bool {
    &&& shards.len() == config.total_shards
    &&& forall|i: int|
        0 <= i < config.total_shards ==> {
            let sh = #[trigger] shards[i];
            let o = shard_owner(config, peers, local, i);
            &&& sh.shard_id == i
            &&& sh.name@ == shard_name(i as nat)
            &&& sh.nodes@ == seq![o]
            &&& sh.primary_node == Some(o)
            &&& sh.status == ShardStatus::Active
            &&& sh.transaction_count == 0
            &&& sh.last_update == now
        }
}

/// `new` is `old` with each peer's run of shards, and then the local node's
/// remainder (when there is one), recorded.
pub open spec fn runs_recorded(
    old: Map<u128, Vec<ShardId>>,
    new: Map<u128, Vec<ShardId>>,
    config: ShardConfig,
    peers: Seq<u128>,
    local: u128,
) -> bool {
    let n = peers.len() as int;
    let end = peer_shard_end(config, n);
    let total = config.total_shards as int;
    &&& forall|k: int|
        0 <= k < n && !(peers[k] == local && end < total) ==> new.contains_key(#[trigger] peers[k]) && new[peers[k]]@
            == peer_shards(config, n, k)
    &&& end < total ==> new.contains_key(local) && new[local]@ == shard_range(end, total)
    &&& forall|x: u128|
        !peers.contains(x) && !(x == local && end < total) ==> #[trigger] new.contains_key(x) == old.contains_key(x)
            && (old.contains_key(x) ==> new[x] == old[x])
}

/// The shards per peer and the first shard left to the local node.
fn assignment_bounds(config: ShardConfig, n: usize) -> (r: (u32, u32))
    ensures
        r.0 == shards_per_peer(config, n as int),
        r.1 == peer_shard_end(config, n as int),
        n > 0 ==> r.0 >= 1,
        r.1 <= config.total_shards,
        r.1 <= (r.0 as int) * (n as int),
{
    let total = config.total_shards;
    let spn: u32 = if n == 0 {
        config.shards_per_node
    } else if n as u64 <= total as u64 && total / (n as u32) >= 1 {
        total / (n as u32)
    } else {
        1
    };
    proof {
        if n > 0 && !(n as u64 <= total as u64 && total / (n as u32) >= 1) && n as u64 > total as u64 {
            assert((total as int) / (n as int) == 0) by (nonlinear_arith)
                requires n as int > total as int, total >= 0;
        }
    }
    assert((spn as u128) * (n as u128) <= 0xffff_ffff * 0xffff_ffff_ffff_ffffu128) by (nonlinear_arith)
        requires spn <= 0xffff_ffff, n <= 0xffff_ffff_ffff_ffff;
    let span: u128 = (spn as u128) * (n as u128);
    let end: u32 = if span < total as u128 { span as u32 } else { total };
    (spn, end)
}

/// The fresh shards of a start (see [`fresh_assignment`]).
fn fresh_shards(config: ShardConfig, peers: &[u128], local: u128, now: u64, spn: u32, end: u32) -> (r: Vec<ShardInfo>)
    requires
        spn == shards_per_peer(config, peers@.len() as int),
        end == peer_shard_end(config, peers@.len() as int),
        peers@.len() > 0 ==> spn >= 1,
        end <= (spn as int) * (peers@.len() as int),
    ensures
        fresh_assignment(r@, config, peers@, local, now),
        forall|i: int| 0 <= i < r@.len() ==> (#[trigger] r@[i]).nodes@.no_duplicates(),
{
    let total = config.total_shards;
    let n = peers.len();
    let mut shards: Vec<ShardInfo> = Vec::new();
    let mut sid: u32 = 0;
    while sid < total
        invariant
            sid <= total,
            total == config.total_shards,
            n == peers@.len(),
            spn == shards_per_peer(config, n as int),
            end == peer_shard_end(config, n as int),
            end <= (spn as int) * (n as int),
            n > 0 ==> spn >= 1,
            shards@.len() == sid,
            forall|i: int| 0 <= i < sid ==> (#[trigger] shards@[i]).nodes@.no_duplicates(),
            forall|i: int|
                0 <= i < sid ==> {
                    let sh = #[trigger] shards@[i];
                    let o = shard_owner(config, peers@, local, i);
                    &&& sh.shard_id == i
                    &&& sh.name@ == shard_name(i as nat)
                    &&& sh.nodes@ == seq![o]
                    &&& sh.primary_node == Some(o)
                    &&& sh.status == ShardStatus::Active
                    &&& sh.transaction_count == 0
                    &&& sh.last_update == now
                },
        decreases total - sid,
    {
        let owner: u128 = if sid < end {
            proof {
                assert(n > 0);
                assert((sid as int) / (spn as int) < n as int) by (nonlinear_arith)
                    requires sid < end, end <= (spn as int) * (n as int), spn >= 1;
            }
            peers[(sid / spn) as usize]
        } else {
            local
        };
        let mut name: Vec<char> = Vec::new();
        push_str(&mut name, "shard-");
        push_decimal(&mut name, sid as u64);
        let mut nodes: Vec<u128> = Vec::new();
        nodes.push(owner);
        assert(nodes@ =~= seq![owner]);
        shards.push(ShardInfo {
            shard_id: sid,
            name: string_of(&name),
            nodes,
            primary_node: Some(owner),
            status: ShardStatus::Active,
            transaction_count: 0,
            last_update: now,
        });
        sid = sid + 1;
    }
    shards
}

/// The table after one processing pass: submitted transactions move to the
/// source shard, those in the source shard move to the target shard, and the
/// rest (finished in the target shard, completed or failed) leave.
pub open spec fn after_tick(m: Map<u128, CrossShardTransaction>) -> Map<u128, CrossShardTransaction> {
    Map::new(
        |k: u128| m.contains_key(k) && advanced(m[k].status) is Some,
        |k: u128| CrossShardTransaction { status: advanced(m[k].status)->0, ..m[k] },
    )
}

/// The transactions a processing pass completes: those in the target shard.
pub open spec fn finishing(m: Map<u128, CrossShardTransaction>) -> Set<u128> {
    m.dom().filter(|k: u128| m[k].status is ProcessingTarget)
}

/// Two shard records agree field by field (the node lists by their elements).
pub open spec fn same_shard(a: ShardInfo, b: ShardInfo) -> bool {
    &&& a.shard_id == b.shard_id
    &&& a.name == b.name
    &&& a.nodes@ == b.nodes@
    &&& a.primary_node == b.primary_node
    &&& a.status == b.status
    &&& a.transaction_count == b.transaction_count
    &&& a.last_update == b.last_update
}

/// A copy of a list of ids.
fn copy_ids<T: Copy>(v: &Vec<T>) -> (r: Vec<T>)
    ensures
        r@ == v@,
{
    let mut out: Vec<T> = Vec::new();
    let mut i: usize = 0;
    while i < v.len()
        invariant
            i <= v@.len(),
            out@ == v@.take(i as int),
        decreases v@.len() - i,
    {
        out.push(v[i]);
        i = i + 1;
        assert(out@ =~= v@.take(i as int));
    }
    assert(v@.take(v@.len() as int) =~= v@);
    out
}

/// A copy of a shard record.
fn copy_shard(sh: &ShardInfo) -> (r: ShardInfo)
    ensures
        same_shard(r, *sh),
{
    ShardInfo {
        shard_id: sh.shard_id,
        name: sh.name.clone(),
        nodes: copy_ids(&sh.nodes),
        primary_node: sh.primary_node,
        status: sh.status,
        transaction_count: sh.transaction_count,
        last_update: sh.last_update,
    }
}

/// `v` with `x` added at the end when absent.
pub open spec fn with_member<T>(v: Seq<T>, x: T) -> Seq<T> {
    if v.contains(x) { v } else { v.push(x) }
}

/// Everything of `v` but `x`.
pub open spec fn other_than<T>(x: T) -> spec_fn(T) -> bool {
    |y: T| y != x
}

/// Adds `x` to a list that holds each element once.
fn add_node(v: &mut Vec<u128>, x: u128)
    requires
        old(v)@.no_duplicates(),
    ensures
        final(v)@ == with_member(old(v)@, x),
        final(v)@.no_duplicates(),
{
    let mut i: usize = 0;
    while i < v.len()
        invariant
            i <= v@.len(),
            v@ == old(v)@,
            old(v)@.no_duplicates(),
            forall|k: int| 0 <= k < i ==> v@[k] != x,
        decreases v@.len() - i,
    {
        if v[i] == x {
            assert(v@[i as int] == x);
            return;
        }
        i = i + 1;
    }
    v.push(x);
}

/// Removes `x` from a list.
fn remove_node(v: &mut Vec<u128>, x: u128)
    requires
        old(v)@.no_duplicates(),
    ensures
        final(v)@ == old(v)@.filter(other_than(x)),
        final(v)@.no_duplicates(),
{
    let mut out: Vec<u128> = Vec::new();
    let mut i: usize = 0;
    while i < v.len()
        invariant
            i <= v@.len(),
            v@ == old(v)@,
            old(v)@.no_duplicates(),
            out@ == v@.take(i as int).filter(other_than(x)),
            out@.no_duplicates(),
            forall|k: int| 0 <= k < out@.len() ==> exists|j: int| 0 <= j < i && v@[j] == #[trigger] out@[k],
        decreases v@.len() - i,
    {
        proof {
            assert(v@.take(i as int + 1) =~= v@.take(i as int).push(v@[i as int]));
            v@.take(i as int).lemma_filter_push(v@[i as int], other_than(x));
        }
        if v[i] != x {
            let ghost before = out@;
            proof {
                assert forall|k: int| 0 <= k < before.len() implies before[k] != v@[i as int] by {
                    let j = choose|j: int| 0 <= j < i && v@[j] == before[k];
                }
            }
            out.push(v[i]);
            proof {
                assert forall|k: int| 0 <= k < out@.len() implies exists|j: int| 0 <= j < i + 1 && v@[j] == #[trigger] out@[k] by {
                    if k < before.len() {
                        let j = choose|j: int| 0 <= j < i && v@[j] == before[k];
                    } else {
                        assert(v@[i as int] == out@[k]);
                    }
                }
            }
        }
        i = i + 1;
    }
    assert(v@.take(v@.len() as int) =~= v@);
    *v = out;
}

/// Adds `x` to a list that holds each element once.
fn add_shard(v: &mut Vec<ShardId>, x: ShardId)
    requires
        old(v)@.no_duplicates(),
    ensures
        final(v)@ == with_member(old(v)@, x),
        final(v)@.no_duplicates(),
{
    let mut i: usize = 0;
    while i < v.len()
        invariant
            i <= v@.len(),
            v@ == old(v)@,
            old(v)@.no_duplicates(),
            forall|k: int| 0 <= k < i ==> v@[k] != x,
        decreases v@.len() - i,
    {
        if v[i] == x {
            assert(v@[i as int] == x);
            return;
        }
        i = i + 1;
    }
    v.push(x);
}

/// Removes `x` from a list.
fn remove_shard(v: &mut Vec<ShardId>, x: ShardId)
    requires
        old(v)@.no_duplicates(),
    ensures
        final(v)@ == old(v)@.filter(other_than(x)),
        final(v)@.no_duplicates(),
{
    let mut out: Vec<ShardId> = Vec::new();
    let mut i: usize = 0;
    while i < v.len()
        invariant
            i <= v@.len(),
            v@ == old(v)@,
            old(v)@.no_duplicates(),
            out@ == v@.take(i as int).filter(other_than(x)),
            out@.no_duplicates(),
            forall|k: int| 0 <= k < out@.len() ==> exists|j: int| 0 <= j < i && v@[j] == #[trigger] out@[k],
        decreases v@.len() - i,
    {
        proof {
            assert(v@.take(i as int + 1) =~= v@.take(i as int).push(v@[i as int]));
            v@.take(i as int).lemma_filter_push(v@[i as int], other_than(x));
        }
        if v[i] != x {
            let ghost before = out@;
            proof {
                assert forall|k: int| 0 <= k < before.len() implies before[k] != v@[i as int] by {
                    let j = choose|j: int| 0 <= j < i && v@[j] == before[k];
                }
            }
            out.push(v[i]);
            proof {
                assert forall|k: int| 0 <= k < out@.len() implies exists|j: int| 0 <= j < i + 1 && v@[j] == #[trigger] out@[k] by {
                    if k < before.len() {
                        let j = choose|j: int| 0 <= j < i && v@[j] == before[k];
                    } else {
                        assert(v@[i as int] == out@[k]);
                    }
                }
            }
        }
        i = i + 1;
    }
    assert(v@.take(v@.len() as int) =~= v@);
    *v = out;
}

/// The ids of a transaction table, each once.
fn transaction_ids(m: &HashMap<u128, CrossShardTransaction>) -> (r: Vec<u128>)
    ensures
        r@.to_set() == m@.dom(),
        r@.no_duplicates(),
{
    let mut out: Vec<u128> = Vec::new();
    let ghost ks = vstd::std_specs::hash::spec_keys_iter(m).remaining();
    for k in it: m.keys()
        invariant
            it.seq() == ks,
            out@ == ks.take(it.index() as int).map_values(|k: &u128| *k),
    {
        out.push(*k);
    }
    proof {
        assert(out@ =~= ks.unref());
    }
    out
}

/// Records each peer's run of shards, then the local node's remainder
/// (see [`runs_recorded`]).
#[verifier::spinoff_prover]
#[verifier::rlimit(40)]
fn record_runs(node_shards: &mut HashMap<u128, Vec<ShardId>>, config: ShardConfig, peers: &[u128], local: u128, spn: u32, end: u32)
    requires
        peers@.no_duplicates(),
        spn == shards_per_peer(config, peers@.len() as int),
        end == peer_shard_end(config, peers@.len() as int),
        end <= config.total_shards,
        forall|m: u128| #[trigger] old(node_shards)@.contains_key(m) ==> old(node_shards)@[m]@.no_duplicates(),
    ensures
        runs_recorded(old(node_shards)@, final(node_shards)@, config, peers@, local),
        forall|m: u128| #[trigger] final(node_shards)@.contains_key(m) ==> final(node_shards)@[m]@.no_duplicates(),
{
    let n = peers.len();
    let total = config.total_shards;
    let mut k: usize = 0;
    while k < n
        invariant
            k <= n,
            n == peers@.len(),
            peers@.no_duplicates(),
            total == config.total_shards,
            spn == shards_per_peer(config, n as int),
            end == peer_shard_end(config, n as int),
            end <= total,
            forall|j: int| 0 <= j < k ==> node_shards@.contains_key(#[trigger] peers@[j]) && node_shards@[peers@[j]]@
                == peer_shards(config, n as int, j),
            forall|m: u128| #[trigger] node_shards@.contains_key(m) ==> node_shards@[m]@.no_duplicates(),
            forall|x: u128|
                !peers@.take(k as int).contains(x) ==> #[trigger] node_shards@.contains_key(x)
                    == old(node_shards)@.contains_key(x) && (old(node_shards)@.contains_key(x)
                    ==> node_shards@[x] == old(node_shards)@[x]),
        decreases n - k,
    {
        assert((k as u128) * (spn as u128) <= 0xffff_ffff * 0xffff_ffff_ffff_ffffu128) by (nonlinear_arith)
            requires spn <= 0xffff_ffff, k <= 0xffff_ffff_ffff_ffff;
        let lo_w: u128 = (k as u128) * (spn as u128);
        let hi_w: u128 = lo_w + spn as u128;
        assert(lo_w == (k as int) * (spn as int));
        assert(hi_w == (k as int + 1) * (spn as int)) by (nonlinear_arith)
            requires lo_w == (k as int) * (spn as int), hi_w == lo_w + spn;
        let lo: u32 = if lo_w < end as u128 { lo_w as u32 } else { end };
        let hi: u32 = if hi_w < end as u128 { hi_w as u32 } else { end };
        let run = shard_range_vec(lo, hi);
        assert(run@ == peer_shards(config, n as int, k as int));
        let ghost before = node_shards@;
        node_shards.insert(peers[k], run);
        proof {
            assert forall|j: int| 0 <= j < k + 1 implies node_shards@.contains_key(#[trigger] peers@[j]) && node_shards@[peers@[j]]@
                == peer_shards(config, n as int, j) by {
                if j < k {
                    assert(peers@[j] != peers@[k as int]);
                }
            }
            assert forall|x: u128|
                !peers@.take(k as int + 1).contains(x) implies #[trigger] node_shards@.contains_key(x)
                    == old(node_shards)@.contains_key(x) && (old(node_shards)@.contains_key(x)
                    ==> node_shards@[x] == old(node_shards)@[x]) by {
                assert(peers@.take(k as int + 1)[k as int] == peers@[k as int]);
                assert(x != peers@[k as int]);
                assert(!peers@.take(k as int).contains(x)) by {
                    if peers@.take(k as int).contains(x) {
                        let j = choose|j: int| 0 <= j < k && peers@.take(k as int)[j] == x;
                        assert(peers@.take(k as int + 1)[j] == x);
                    }
                }
                if before.contains_key(x) {
                }
            }
        }
        k = k + 1;
    }
    let ghost mid = node_shards@;
    if end < total {
        let rest = shard_range_vec(end, total);
        node_shards.insert(local, rest);
    }
    proof {
        assert forall|x: u128|
            !peers@.contains(x) && !(x == local && end < total) implies #[trigger] node_shards@.contains_key(x)
                == old(node_shards)@.contains_key(x) && (old(node_shards)@.contains_key(x)
                ==> node_shards@[x] == old(node_shards)@[x]) by {
            assert(peers@.take(n as int) =~= peers@);
            if mid.contains_key(x) {
            }
        }
        assert forall|j: int|
            0 <= j < n && !(peers@[j] == local && end < total) implies node_shards@.contains_key(
                #[trigger] peers@[j],
            ) && node_shards@[peers@[j]]@ == peer_shards(config, n as int, j) by {
            assert(mid.contains_key(peers@[j]));
        }
    }
}

impl ShardingService {
    /// The service's invariant: shard `i` sits at position `i`, within the
    /// configured total, with its nodes each once; each node's shard list
    /// holds each shard once.
    pub open spec fn well_formed(&self) -> bool {
        &&& self.shards@.len() <= self.config.total_shards
        &&& forall|i: int| 0 <= i < self.shards@.len() ==> (#[trigger] self.shards@[i]).shard_id == i
        &&& forall|i: int| 0 <= i < self.shards@.len() ==> (#[trigger] self.shards@[i]).nodes@.no_duplicates()
        &&& forall|n: u128| #[trigger] self.node_shards@.contains_key(n) ==> self.node_shards@[n]@.no_duplicates()
        &&& forall|t: u128| #[trigger] self.cross_shard_transactions@.contains_key(t) ==> self.cross_shard_transactions@[t].id == t
    }

    /// A stopped service with no shards and no transactions.
    pub fn new(config: ShardConfig, local_node_id: u128) -> (r: Self)
        ensures
            r.well_formed(),
            r.config == config,
            r.local_node_id == local_node_id,
            r.shards@.len() == 0,
            r.node_shards@ == Map::<u128, Vec<ShardId>>::empty(),
            r.cross_shard_transactions@ == Map::<u128, CrossShardTransaction>::empty(),
            r.stats == (ShardStats { total_shards: 0, active_shards: 0, total_cross_shard_tx: 0, successful_cross_shard_tx: 0 }),
            !r.running,
    {
        ShardingService {
            config,
            local_node_id,
            shards: Vec::new(),
            node_shards: HashMap::new(),
            cross_shard_transactions: HashMap::new(),
            stats: ShardStats { total_shards: 0, active_shards: 0, total_cross_shard_tx: 0, successful_cross_shard_tx: 0 },
            running: false,
        }
    }

    /// Starts the service at `now`, with `peers` the ids of the known peers:
    /// fails when it runs already. Otherwise every shard is created afresh and
    /// handed to one node (see [`shard_owner`]), which becomes its primary;
    /// each peer's run of shards, and the local node's remainder, are
    /// recorded as that node's shards.
    pub fn start(&mut self, peers: &[u128], now: u64) -> (r: Result<(), NetworkError>)
        requires
            old(self).well_formed(),
            peers@.no_duplicates(),
        ensures
            final(self).well_formed(),
            old(self).running ==> (r matches Err(NetworkError::ServiceAlreadyStarted)) && *final(self) == *old(self),
            !old(self).running ==> {
                &&& r is Ok
                &&& final(self).running
                &&& final(self).config == old(self).config
                &&& final(self).local_node_id == old(self).local_node_id
                &&& final(self).stats == old(self).stats
                &&& final(self).cross_shard_transactions == old(self).cross_shard_transactions
                &&& fresh_assignment(final(self).shards@, old(self).config, peers@, old(self).local_node_id, now)
                &&& runs_recorded(old(self).node_shards@, final(self).node_shards@, old(self).config, peers@, old(self).local_node_id)
            },
    {
        if self.running {
            return Err(NetworkError::ServiceAlreadyStarted);
        }
        let (spn, end) = assignment_bounds(self.config, peers.len());
        let shards = fresh_shards(self.config, peers, self.local_node_id, now, spn, end);
        record_runs(&mut self.node_shards, self.config, peers, self.local_node_id, spn, end);
        self.shards = shards;
        self.running = true;
        Ok(())
    }

    /// Stops the service; a stopped service is left as it is.
    pub fn stop(&mut self) -> (r: Result<(), NetworkError>)
        requires
            old(self).well_formed(),
        ensures
            final(self).well_formed(),
            r is Ok,
            *final(self) == (ShardingService { running: false, ..*old(self) }),
    {
        self.running = false;
        Ok(())
    }

    /// One monitoring pass: counts the shards and the active ones.
    pub fn update_shard_stats(&mut self)
        requires
            old(self).well_formed(),
        ensures
            final(self).well_formed(),
            *final(self) == (ShardingService {
                stats: ShardStats {
                    total_shards: old(self).shards@.len() as u32,
                    active_shards: old(self).shards@.filter(|sh: ShardInfo| sh.status == ShardStatus::Active).len() as u32,
                    ..old(self).stats
                },
                ..*old(self)
            }),
    {
        let mut active: u32 = 0;
        let mut i: usize = 0;
        while i < self.shards.len()
            invariant
                i <= self.shards@.len(),
                self.shards@.len() <= self.config.total_shards,
                active == self.shards@.take(i as int).filter(|sh: ShardInfo| sh.status == ShardStatus::Active).len(),
                active <= i,
            decreases self.shards@.len() - i,
        {
            proof {
                assert(self.shards@.take(i as int + 1) =~= self.shards@.take(i as int).push(self.shards@[i as int]));
                self.shards@.take(i as int).lemma_filter_push(self.shards@[i as int], |sh: ShardInfo| sh.status == ShardStatus::Active);
            }
            if self.shards[i].status == ShardStatus::Active {
                active = active + 1;
            }
            i = i + 1;
        }
        assert(self.shards@.take(self.shards@.len() as int) =~= self.shards@);
        self.stats.total_shards = self.shards.len() as u32;
        self.stats.active_shards = active;
    }

    /// Submits a cross-shard transaction with a fresh id, stamped with the
    /// current wall-clock time. Fails when the service is not running (the
    /// error is `ServiceAlreadyStarted`) or when either shard is not below the total.
    pub fn submit_cross_shard_transaction(
        &mut self,
        source_shard: ShardId,
        target_shard: ShardId,
        data: Vec<u8>,
        transaction_type: CrossShardTransactionType,
    ) -> (r: Result<u128, NetworkError>)
        requires
            old(self).well_formed(),
        ensures
            final(self).well_formed(),
            !old(self).running ==> (r matches Err(NetworkError::ServiceAlreadyStarted)) && *final(self) == *old(self),
            old(self).running && (source_shard >= old(self).config.total_shards || target_shard >= old(
                self,
            ).config.total_shards) ==> (r matches Err(NetworkError::Internal(t)) && t@ == "Invalid shard ID"@)
                && *final(self) == *old(self),
            old(self).running && source_shard < old(self).config.total_shards && target_shard < old(
                self,
            ).config.total_shards ==> (r matches Ok(id) && final(self).cross_shard_transactions@.contains_key(id) && {
                let tx = final(self).cross_shard_transactions@[id];
                &&& tx.id == id
                &&& tx.source_shard == source_shard
                &&& tx.target_shard == target_shard
                &&& tx.data == data
                &&& tx.transaction_type == transaction_type
                &&& tx.dependencies@.len() == 0
                &&& tx.status == CrossShardTransactionStatus::Submitted
                &&& final(self).cross_shard_transactions@ == old(self).cross_shard_transactions@.insert(id, tx)
                &&& *final(self) == (ShardingService {
                    cross_shard_transactions: final(self).cross_shard_transactions,
                    stats: ShardStats {
                        total_cross_shard_tx: wrap_add(old(self).stats.total_cross_shard_tx, 1),
                        ..old(self).stats
                    },
                    ..*old(self)
                })
            }),
    {
        if !self.running {
            return Err(NetworkError::ServiceAlreadyStarted);
        }
        if source_shard >= self.config.total_shards || target_shard >= self.config.total_shards {
            let text = "Invalid shard ID";
            return Err(NetworkError::Internal(text.to_string()));
        }
        let id = new_uuid();
        let transaction = CrossShardTransaction {
            id,
            source_shard,
            target_shard,
            data,
            transaction_type,
            dependencies: Vec::new(),
            status: CrossShardTransactionStatus::Submitted,
            timestamp: unix_time_secs(),
        };
        self.cross_shard_transactions.insert(id, transaction);
        self.stats.total_cross_shard_tx = self.stats.total_cross_shard_tx.wrapping_add(1);
        Ok(id)
    }

    /// One processing pass over the cross-shard transactions (see
    /// [`after_tick`]); those finished in the target shard are counted as
    /// successful, and the total becomes the number left.
    pub fn process_cross_shard_transactions(&mut self)
        requires
            old(self).well_formed(),
        ensures
            final(self).well_formed(),
            final(self).cross_shard_transactions@ == after_tick(old(self).cross_shard_transactions@),
            final(self).stats == (ShardStats {
                successful_cross_shard_tx: wrap_add(
                    old(self).stats.successful_cross_shard_tx,
                    finishing(old(self).cross_shard_transactions@).len() as int,
                ),
                total_cross_shard_tx: after_tick(old(self).cross_shard_transactions@).len() as u64,
                ..old(self).stats
            }),
            final(self).shards == old(self).shards,
            final(self).node_shards == old(self).node_shards,
            final(self).config == old(self).config,
            final(self).local_node_id == old(self).local_node_id,
            final(self).running == old(self).running,
    {
        let ids = transaction_ids(&self.cross_shard_transactions);
        let ghost start = self.cross_shard_transactions@;
        let ghost done: Set<u128> = Set::empty();
        let mut finished: u64 = self.stats.successful_cross_shard_tx;
        let mut n: usize = 0;
        assert(finishing(start).intersect(done) =~= Set::<u128>::empty());
        assert(ids@.take(0) =~= Seq::<u128>::empty());
        while n < ids.len()
            invariant
                n <= ids@.len(),
                ids@.to_set() == start.dom(),
                ids@.no_duplicates(),
                start == old(self).cross_shard_transactions@,
                forall|t: u128| #[trigger] start.contains_key(t) ==> start[t].id == t,
                done == ids@.take(n as int).to_set(),
                forall|t: u128|
                    #[trigger] self.cross_shard_transactions@.contains_key(t) <==> (start.contains_key(t) && (done.contains(t)
                        ==> advanced(start[t].status) is Some)),
                forall|t: u128|
                    #[trigger] self.cross_shard_transactions@.contains_key(t) ==> self.cross_shard_transactions@[t] == if done.contains(t) {
                        CrossShardTransaction { status: advanced(start[t].status)->0, ..start[t] }
                    } else {
                        start[t]
                    },
                finished == wrap_add(old(self).stats.successful_cross_shard_tx, finishing(start).intersect(done).len() as int),
                self.shards == old(self).shards,
                self.node_shards == old(self).node_shards,
                self.config == old(self).config,
                self.local_node_id == old(self).local_node_id,
                self.running == old(self).running,
                self.stats == old(self).stats,
            decreases ids@.len() - n,
        {
            let k = ids[n];
            assert(ids@.to_set().contains(k));
            proof {
                assert(!done.contains(k)) by {
                    if done.contains(k) {
                        let j = choose|j: int| 0 <= j < n && ids@.take(n as int)[j] == k;
                        assert(ids@[j] == ids@[n as int]);
                    }
                }
            }
            let ghost before = self.cross_shard_transactions@;
            let taken = self.cross_shard_transactions.remove(&k);
            let mut completes = false;
            match taken {
                Some(tx) => {
                    match tx.status {
                        CrossShardTransactionStatus::Submitted => {
                            let mut moved = tx;
                            moved.status = CrossShardTransactionStatus::ProcessingSource;
                            self.cross_shard_transactions.insert(k, moved);
                        },
                        CrossShardTransactionStatus::ProcessingSource => {
                            let mut moved = tx;
                            moved.status = CrossShardTransactionStatus::ProcessingTarget;
                            self.cross_shard_transactions.insert(k, moved);
                        },
                        CrossShardTransactionStatus::ProcessingTarget => {
                            completes = true;
                        },
                        _ => {},
                    }
                },
                None => {},
            }
            proof {
                let done2 = done.insert(k);
                assert(ids@.take(n as int + 1).to_set() =~= done2) by {
                    assert(ids@.take(n as int + 1) =~= ids@.take(n as int).push(k));
                    ids@.take(n as int).lemma_push_to_set_commute(k);
                }
                assert(finishing(start).intersect(done2) =~= if start[k].status is ProcessingTarget {
                    finishing(start).intersect(done).insert(k)
                } else {
                    finishing(start).intersect(done)
                });
                vstd::set_lib::lemma_len_subset(finishing(start).intersect(done), start.dom());
                done = done2;
            }
            if completes {
                finished = finished.wrapping_add(1);
            }
            proof {
                if start[k].status is ProcessingTarget {
                    assert(!finishing(start).intersect(done.remove(k)).contains(k));
                    assert(finishing(start).intersect(done) =~= finishing(start).intersect(done.remove(k)).insert(k));
                }
            }
            n = n + 1;
        }
        proof {
            assert(ids@.take(n as int) =~= ids@);
            assert(done =~= start.dom());
            assert(self.cross_shard_transactions@ =~= after_tick(start));
            assert(finishing(start).intersect(done) =~= finishing(start));
        }
        self.stats.successful_cross_shard_tx = finished;
        self.stats.total_cross_shard_tx = self.cross_shard_transactions.len() as u64;
    }

    /// The status of a cross-shard transaction, if it is in the table.
    pub fn get_transaction_status(&self, tx_id: u128) -> (r: Option<CrossShardTransactionStatus>)
        ensures
            self.cross_shard_transactions@.contains_key(tx_id) ==> r == Some(self.cross_shard_transactions@[tx_id].status),
            !self.cross_shard_transactions@.contains_key(tx_id) ==> r is None,
    {
        match self.cross_shard_transactions.get(&tx_id) {
            Some(tx) => Some(tx.status.clone()),
            None => None,
        }
    }

    /// The number of cross-shard transactions in the table.
    pub fn get_cross_shard_transaction_count(&self) -> (r: usize)
        ensures
            r == self.cross_shard_transactions@.len(),
    {
        self.cross_shard_transactions.len()
    }

    /// A copy of a shard's record, if the shard exists.
    pub fn get_shard_info(&self, shard_id: ShardId) -> (r: Option<ShardInfo>)
        ensures
            shard_id < self.shards@.len() ==> (r matches Some(sh) && same_shard(sh, self.shards@[shard_id as int])),
            shard_id >= self.shards@.len() ==> r is None,
    {
        if (shard_id as usize) < self.shards.len() {
            Some(copy_shard(&self.shards[shard_id as usize]))
        } else {
            None
        }
    }

    /// Copies of all shard records, by id.
    pub fn get_all_shards(&self) -> (r: Vec<ShardInfo>)
        ensures
            r@.len() == self.shards@.len(),
            forall|i: int| 0 <= i < r@.len() ==> same_shard(#[trigger] r@[i], self.shards@[i]),
    {
        let mut out: Vec<ShardInfo> = Vec::new();
        let mut i: usize = 0;
        while i < self.shards.len()
            invariant
                i <= self.shards@.len(),
                out@.len() == i,
                forall|k: int| 0 <= k < i ==> same_shard(#[trigger] out@[k], self.shards@[k]),
            decreases self.shards@.len() - i,
        {
            out.push(copy_shard(&self.shards[i]));
            i = i + 1;
        }
        out
    }

    /// The transaction counts of the shards, by id (the load of each shard).
    pub fn get_shard_load(&self) -> (r: Vec<(ShardId, u64)>)
        requires
            self.well_formed(),
        ensures
            r@.len() == self.shards@.len(),
            forall|i: int| 0 <= i < r@.len() ==> #[trigger] r@[i] == (i as ShardId, self.shards@[i].transaction_count),
    {
        let mut out: Vec<(ShardId, u64)> = Vec::new();
        let mut i: usize = 0;
        while i < self.shards.len()
            invariant
                self.well_formed(),
                i <= self.shards@.len(),
                out@.len() == i,
                forall|k: int| 0 <= k < i ==> #[trigger] out@[k] == (k as ShardId, self.shards@[k].transaction_count),
            decreases self.shards@.len() - i,
        {
            out.push((self.shards[i].shard_id, self.shards[i].transaction_count));
            i = i + 1;
        }
        out
    }

    /// The shards of a node (none for an unknown node).
    pub fn get_node_shards(&self, node_id: u128) -> (r: Vec<ShardId>)
        ensures
            self.node_shards@.contains_key(node_id) ==> r@ == self.node_shards@[node_id]@,
            !self.node_shards@.contains_key(node_id) ==> r@.len() == 0,
    {
        match self.node_shards.get(&node_id) {
            Some(list) => copy_ids(list),
            None => Vec::new(),
        }
    }

    /// The shards of the local node.
    pub fn get_local_shards(&self) -> (r: Vec<ShardId>)
        ensures
            self.node_shards@.contains_key(self.local_node_id) ==> r@ == self.node_shards@[self.local_node_id]@,
            !self.node_shards@.contains_key(self.local_node_id) ==> r@.len() == 0,
    {
        self.get_node_shards(self.local_node_id)
    }

    /// Whether a node is responsible for a shard.
    pub fn is_node_responsible_for_shard(&self, node_id: u128, shard_id: ShardId) -> (r: bool)
        ensures
            r == (self.node_shards@.contains_key(node_id) && self.node_shards@[node_id]@.contains(shard_id)),
    {
        match self.node_shards.get(&node_id) {
            Some(list) => {
                let mut i: usize = 0;
                while i < list.len()
                    invariant
                        i <= list@.len(),
                        self.node_shards@.contains_key(node_id),
                        list@ == self.node_shards@[node_id]@,
                        forall|k: int| 0 <= k < i ==> list@[k] != shard_id,
                    decreases list@.len() - i,
                {
                    if list[i] == shard_id {
                        assert(list@[i as int] == shard_id);
                        return true;
                    }
                    i = i + 1;
                }
                false
            },
            None => false,
        }
    }

    /// Whether the local node is responsible for a shard.
    pub fn is_local_node_responsible_for_shard(&self, shard_id: ShardId) -> (r: bool)
        ensures
            r == (self.node_shards@.contains_key(self.local_node_id) && self.node_shards@[self.local_node_id]@.contains(
                shard_id,
            )),
    {
        self.is_node_responsible_for_shard(self.local_node_id, shard_id)
    }

    /// The statistics.
    pub fn get_stats(&self) -> (r: ShardStats)
        ensures
            r == self.stats,
    {
        self.stats
    }

    /// Asks for a rebalancing: refused when dynamic sharding is off.
    pub fn trigger_rebalancing(&self) -> (r: Result<(), NetworkError>)
        ensures
            self.config.dynamic_sharding ==> r is Ok,
            !self.config.dynamic_sharding ==> (r matches Err(NetworkError::Internal(t)) && t@ == "Dynamic sharding is disabled"@),
    {
        if !self.config.dynamic_sharding {
            let text = "Dynamic sharding is disabled";
            return Err(NetworkError::Internal(text.to_string()));
        }
        Ok(())
    }

    /// Adds a node to a shard at `now`: the shard (when it exists) lists the
    /// node and is marked updated, and the node lists the shard.
    pub fn add_node_to_shard(&mut self, node_id: u128, shard_id: ShardId, now: u64) -> (r: Result<(), NetworkError>)
        requires
            old(self).well_formed(),
        ensures
            final(self).well_formed(),
            r is Ok,
            final(self).shards@.len() == old(self).shards@.len(),
            forall|i: int|
                0 <= i < old(self).shards@.len() && i != shard_id ==> #[trigger] final(self).shards@[i] == old(
                    self,
                ).shards@[i],
            shard_id < old(self).shards@.len() ==> {
                let before = old(self).shards@[shard_id as int];
                let after = final(self).shards@[shard_id as int];
                &&& after.nodes@ == with_member(before.nodes@, node_id)
                &&& after.last_update == now
                &&& after.shard_id == before.shard_id
                &&& after.name == before.name
                &&& after.primary_node == before.primary_node
                &&& after.status == before.status
                &&& after.transaction_count == before.transaction_count
            },
            final(self).node_shards@.contains_key(node_id),
            final(self).node_shards@[node_id]@ == with_member(
                if old(self).node_shards@.contains_key(node_id) {
                    old(self).node_shards@[node_id]@
                } else {
                    Seq::empty()
                },
                shard_id,
            ),
            forall|x: u128| x != node_id ==> #[trigger] final(self).node_shards@.contains_key(x) == old(self).node_shards@.contains_key(x)
                && (old(self).node_shards@.contains_key(x) ==> final(self).node_shards@[x] == old(self).node_shards@[x]),
            final(self).cross_shard_transactions == old(self).cross_shard_transactions,
            final(self).config == old(self).config,
            final(self).local_node_id == old(self).local_node_id,
            final(self).stats == old(self).stats,
            final(self).running == old(self).running,
    {
        if (shard_id as usize) < self.shards.len() {
            let mut sh = copy_shard(&self.shards[shard_id as usize]);
            add_node(&mut sh.nodes, node_id);
            sh.last_update = now;
            self.shards.set(shard_id as usize, sh);
        }
        let mut list: Vec<ShardId> = match self.node_shards.get(&node_id) {
            Some(l) => copy_ids(l),
            None => Vec::new(),
        };
        add_shard(&mut list, shard_id);
        self.node_shards.insert(node_id, list);
        Ok(())
    }

    /// Removes a node from a shard at `now`: the shard (when it exists) no
    /// longer lists the node and is marked updated; when the node was its
    /// primary, the first remaining node becomes primary, or, with none left,
    /// the shard goes offline. The node no longer lists the shard.
    pub fn remove_node_from_shard(&mut self, node_id: u128, shard_id: ShardId, now: u64) -> (r: Result<(), NetworkError>)
        requires
            old(self).well_formed(),
        ensures
            final(self).well_formed(),
            r is Ok,
            final(self).shards@.len() == old(self).shards@.len(),
            forall|i: int|
                0 <= i < old(self).shards@.len() && i != shard_id ==> #[trigger] final(self).shards@[i] == old(
                    self,
                ).shards@[i],
            shard_id < old(self).shards@.len() ==> {
                let before = old(self).shards@[shard_id as int];
                let after = final(self).shards@[shard_id as int];
                let rest = before.nodes@.filter(other_than(node_id));
                &&& after.nodes@ == rest
                &&& after.last_update == now
                &&& after.shard_id == before.shard_id
                &&& after.name == before.name
                &&& after.transaction_count == before.transaction_count
                &&& before.primary_node == Some(node_id) ==> after.primary_node == (if rest.len() > 0 {
                    Some(rest[0])
                } else {
                    None
                }) && after.status == (if rest.len() > 0 { before.status } else { ShardStatus::Offline })
                &&& before.primary_node != Some(node_id) ==> after.primary_node == before.primary_node
                    && after.status == before.status
            },
            old(self).node_shards@.contains_key(node_id) ==> final(self).node_shards@ == old(self).node_shards@.insert(
                node_id,
                final(self).node_shards@[node_id],
            ) && final(self).node_shards@[node_id]@ == old(self).node_shards@[node_id]@.filter(other_than(shard_id)),
            !old(self).node_shards@.contains_key(node_id) ==> final(self).node_shards == old(self).node_shards,
            final(self).cross_shard_transactions == old(self).cross_shard_transactions,
            final(self).config == old(self).config,
            final(self).local_node_id == old(self).local_node_id,
            final(self).stats == old(self).stats,
            final(self).running == old(self).running,
    {
        if (shard_id as usize) < self.shards.len() {
            let mut sh = copy_shard(&self.shards[shard_id as usize]);
            remove_node(&mut sh.nodes, node_id);
            sh.last_update = now;
            if sh.primary_node == Some(node_id) {
                if sh.nodes.len() > 0 {
                    sh.primary_node = Some(sh.nodes[0]);
                } else {
                    sh.primary_node = None;
                    sh.status = ShardStatus::Offline;
                }
            }
            self.shards.set(shard_id as usize, sh);
        }
        let existing = match self.node_shards.get(&node_id) {
            Some(l) => Some(copy_ids(l)),
            None => None,
        };
        match existing {
            Some(mut list) => {
                remove_shard(&mut list, shard_id);
                self.node_shards.insert(node_id, list);
            },
            None => {},
        }
        Ok(())
    }
}

/// After a start, the shard lists agree with the owners: a shard is in peer
/// `k`'s run exactly when peer `k` owns it, and in the local remainder
/// exactly when the local node owns it for lack of peers.
pub proof fn lemma_runs_match_owners(config: ShardConfig, n: int, k: int, s: int)
    requires
        0 <= k < n,
        0 <= s < config.total_shards,
    ensures
        peer_shards(config, n, k).contains(s as ShardId) <==> (s < peer_shard_end(config, n) && s / shards_per_peer(config, n) == k),
        shard_range(peer_shard_end(config, n), config.total_shards as int).contains(s as ShardId) <==> s >= peer_shard_end(config, n),
{
    let spn = shards_per_peer(config, n);
    let end = peer_shard_end(config, n);
    assert(spn >= 1);
    let lo = if k * spn < end { k * spn } else { end };
    let hi = if (k + 1) * spn < end { (k + 1) * spn } else { end };
    assert((k + 1) * spn == k * spn + spn) by (nonlinear_arith);
    if s < end && s / spn == k {
        assert(k * spn <= s < (k + 1) * spn) by (nonlinear_arith)
            requires spn >= 1, s / spn == k, s >= 0;
        assert(peer_shards(config, n, k)[s - lo] == s as ShardId);
    }
    if peer_shards(config, n, k).contains(s as ShardId) {
        let i = choose|i: int| 0 <= i < peer_shards(config, n, k).len() && peer_shards(config, n, k)[i] == s as ShardId;
        assert(lo <= s < hi);
        assert(s / spn == k) by (nonlinear_arith)
            requires spn >= 1, k * spn <= s, s < (k + 1) * spn;
    }
    let total = config.total_shards as int;
    if s >= end {
        assert(shard_range(end, total)[s - end] == s as ShardId);
    }
    if shard_range(end, total).contains(s as ShardId) {
        let i = choose|i: int| 0 <= i < shard_range(end, total).len() && shard_range(end, total)[i] == s as ShardId;
    }
}

/// The shards from `lo` up to `hi` are exactly those in between.
proof fn lemma_shard_range_contains(lo: int, hi: int, s: ShardId)
    requires
        0 <= lo,
        hi <= u32::MAX,
    ensures
        shard_range(lo, hi).contains(s) <==> lo <= s < hi,
{
    if lo <= s < hi {
        assert(shard_range(lo, hi)[s - lo] == s);
    }
    if shard_range(lo, hi).contains(s) {
        let i = choose|i: int| 0 <= i < shard_range(lo, hi).len() && shard_range(lo, hi)[i] == s;
        assert(lo + i < hi);
    }
}

/// A start on a service with no shard lists, with distinct peers other than
/// the local node, splits the shards among the nodes: each shard below the
/// total is in the list of its owner (see [`shard_owner`]), and a node's
/// list holds only shards below the total that the node owns; so the lists
/// are disjoint and together hold every shard.
pub proof fn lemma_start_partitions(
    old_lists: Map<u128, Vec<ShardId>>,
    new_lists: Map<u128, Vec<ShardId>>,
    config: ShardConfig,
    peers: Seq<u128>,
    local: u128,
)
    requires
        old_lists == Map::<u128, Vec<ShardId>>::empty(),
        runs_recorded(old_lists, new_lists, config, peers, local),
        peers.no_duplicates(),
        !peers.contains(local),
    ensures
        forall|s: int|
            0 <= s < config.total_shards ==> new_lists.contains_key(#[trigger] shard_owner(config, peers, local, s))
                && new_lists[shard_owner(config, peers, local, s)]@.contains(s as ShardId),
        forall|x: u128, s: ShardId|
            new_lists.contains_key(x) && #[trigger] new_lists[x]@.contains(s) ==> s < config.total_shards && x
                == shard_owner(config, peers, local, s as int),
{
    let n = peers.len() as int;
    let spn = shards_per_peer(config, n);
    let end = peer_shard_end(config, n);
    let total = config.total_shards as int;
    assert(0 <= end <= total);
    assert(n > 0 ==> spn >= 1);
    assert(end <= spn * n);
    assert forall|s: int| 0 <= s < total implies new_lists.contains_key(#[trigger] shard_owner(config, peers, local, s))
        && new_lists[shard_owner(config, peers, local, s)]@.contains(s as ShardId) by {
        if s < end {
            assert(n > 0);
            let k = s / spn;
            assert(0 <= k < n) by (nonlinear_arith)
                requires spn >= 1, 0 <= s, s < spn * n, k == s / spn;
            assert(peers[k] != local);
            lemma_runs_match_owners(config, n, k, s);
        } else {
            lemma_shard_range_contains(end, total, s as ShardId);
        }
    }
    assert forall|x: u128, s: ShardId| new_lists.contains_key(x) && #[trigger] new_lists[x]@.contains(s) implies s < total
        && x == shard_owner(config, peers, local, s as int) by {
        if peers.contains(x) {
            let k = choose|k: int| 0 <= k < n && peers[k] == x;
            assert(x != local);
            let lo = if k * spn < end { k * spn } else { end };
            let hi = if (k + 1) * spn < end { (k + 1) * spn } else { end };
            assert(0 <= k * spn) by (nonlinear_arith)
                requires 0 <= k, 0 <= spn;
            lemma_shard_range_contains(lo, hi, s);
            lemma_runs_match_owners(config, n, k, s as int);
        } else {
            assert(x == local && end < total);
            lemma_shard_range_contains(end, total, s);
        }
    }
}

/// A submitted cross-shard transaction is completed by the third processing
/// pass: it is finishing on the third pass and gone after it.
pub proof fn lemma_submitted_completes(m: Map<u128, CrossShardTransaction>, t: u128)
    requires
        m.contains_key(t),
        m[t].status == CrossShardTransactionStatus::Submitted,
    ensures
        after_tick(m).contains_key(t) && after_tick(m)[t].status == CrossShardTransactionStatus::ProcessingSource,
        after_tick(after_tick(m)).contains_key(t) && after_tick(after_tick(m))[t].status
            == CrossShardTransactionStatus::ProcessingTarget,
        finishing(after_tick(after_tick(m))).contains(t),
        !after_tick(after_tick(after_tick(m))).contains_key(t),
{
}

} // verus!
