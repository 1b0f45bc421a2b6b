//! Kademlia-style routing table: peers are kept in buckets by the position of
//! the highest set bit of their XOR distance from the local node.
//!
//! Times are milliseconds of a monotonic clock, read by the caller.

use std::collections::HashMap;
use vstd::prelude::*;
use vstd::arithmetic::power2::{pow2, lemma2_to64, lemma_pow2_unfold};

use crate::network::error::NetworkError;
use crate::network::types::SocketAddress;
use crate::sorting::{lemma_sort_stable, sort_stable, stable_sort_by_key};
use crate::text::str_eq;

verus! {

/// Peers kept per bucket (Kademlia standard).
pub const DHT_BUCKET_SIZE: usize = 20;

/// Number of buckets (160-bit key space).
pub const DHT_KEY_SPACE: usize = 160;

/// Peer timeout: 5 minutes.
pub const DHT_PEER_TIMEOUT_MS: u64 = 300000;

/// Peer capabilities.
#[derive(Debug, Clone, Copy)]
pub struct PeerCapabilities {
    /// Can serve as relay
    pub can_relay: bool,
    /// Can serve as bootnode
    pub can_bootnode: bool,
    /// Supports QUIC
    pub supports_quic: bool,
    /// Supports sharding
    pub supports_sharding: bool,
    /// Maximum TPS
    pub max_tps: u32,
}

/// A peer in the routing table.
#[derive(Debug, Clone, Copy)]
pub struct DHTEntry {
    /// Peer ID
    pub peer_id: u128,
    /// Peer address
    pub address: SocketAddress,
    /// Last seen (ms)
    pub last_seen: u64,
    /// Distance from local node
    pub distance: u64,
    /// Peer quality score (0-100)
    pub quality_score: u8,
    /// Peer capabilities
    pub capabilities: PeerCapabilities,
}

/// A bucket of the routing table.
#[derive(Debug, Clone)]
pub struct DHTBucket {
    /// Entries in this bucket
    pub entries: Vec<DHTEntry>,
    /// Last refresh time (ms)
    pub last_refresh: u64,
}

/// Counters of the routing table (wrapping at 2^64).
#[derive(Debug, Clone, Copy)]
pub struct DHTStats {
    /// Total peers in the table
    pub total_peers: u64,
    /// Buckets holding at least one peer (after the last maintenance pass)
    pub active_buckets: usize,
    /// Total lookups performed
    pub total_lookups: u64,
    /// Lookups that found at least one peer
    pub successful_lookups: u64,
}

/// Summary of one bucket: its index, size, refresh time and the sum of its
/// peers' quality scores (the average is this sum over the size).
#[derive(Debug, Clone, Copy)]
pub struct BucketInfo {
    /// Bucket index
    pub index: usize,
    /// Number of peers in bucket
    pub peer_count: usize,
    /// Last refresh time (ms)
    pub last_refresh: u64,
    /// Sum of the peers' quality scores
    pub quality_total: u64,
}

/// Routing table service.
#[derive(Debug)]
pub struct DHTService {
    /// Local node ID
    pub local_node_id: u128,
    /// Buckets, by index (none before start and after stop)
    pub buckets: Vec<DHTBucket>,
    /// Statistics
    pub stats: DHTStats,
    /// Running flag
    pub running: bool,
}

// ---------------------------------------------------------------------------
// Distances
// ---------------------------------------------------------------------------

/// Byte `i` (0 = most significant) of the 16-byte big-endian form of `x`.
pub open spec fn id_byte(x: u128, i: int) -> u64 {
    ((x >> ((8 * (15 - i)) as u128)) & 0xff) as u64
}

/// The XOR distance folded into 64 bits: byte `i` of `a ^ b` (big-endian) is
/// XORed in at bit position 8 * (i mod 8), for `i` below `n`.
pub open spec fn folded_distance(x: u128, n: int) -> u64
    decreases n,
{
    if n <= 0 {
        0
    } else {
        folded_distance(x, n - 1) ^ ((id_byte(x, n - 1) << ((8 * ((n - 1) % 8)) as u64)) as u64)
    }
}

/// The distance between two node ids.
pub open spec fn xor_distance(a: u128, b: u128) -> u64 {
    folded_distance(a ^ b, 16)
}

/// Position of the highest set bit of `d` (0 for 0 and 1).
pub open spec fn highest_bit(d: u64) -> nat
    decreases d,
{
    if d <= 1 {
        0
    } else {
        1 + highest_bit(d / 2)
    }
}

/// Computes the XOR distance between two node ids: the 16 bytes of each id
/// are XORed into a 64-bit value, byte `i` at bit 8 * (i mod 8) (shift
/// amounts wrap at 64 bits).
pub fn calculate_distance(id1: u128, id2: u128) -> (r: u64)
    ensures
        r == xor_distance(id1, id2),
{
    let x: u128 = id1 ^ id2;
    let mut distance: u64 = 0;
    let mut i: u32 = 0;
    while i < 16
        invariant
            i <= 16,
            x == id1 ^ id2,
            distance == folded_distance(x, i as int),
        decreases 16 - i,
    {
        let s1: u32 = 8 * (15 - i);
        let byte: u64 = ((x >> s1) & 0xff) as u64;
        let shift: u32 = (i * 8) % 64;
        assert(byte == id_byte(x, i as int)) by {
            assert(((x >> s1) & 0xff) == ((x >> (s1 as u128)) & 0xff)) by (bit_vector);
        }
        assert((8 * ((i as int) % 8)) == shift as int);
        assert((byte << shift) == (byte << (shift as u64))) by (bit_vector);
        distance = distance ^ (byte << shift);
        i = i + 1;
    }
    distance
}

/// A byte of `x ^ y` is the XOR of the bytes of `x` and `y`.
proof fn lemma_id_byte_xor(x: u128, y: u128, i: int)
    ensures
        id_byte(x ^ y, i) == id_byte(x, i) ^ id_byte(y, i),
{
    let s = (8 * (15 - i)) as u128;
    assert((((x ^ y) >> s) & 0xff) as u64 == (((x >> s) & 0xff) as u64) ^ (((y >> s) & 0xff) as u64)) by (bit_vector);
}

/// Folding distributes over XOR.
proof fn lemma_folded_xor(x: u128, y: u128, n: int)
    ensures
        folded_distance(x ^ y, n) == folded_distance(x, n) ^ folded_distance(y, n),
    decreases n,
{
    if n > 0 {
        lemma_folded_xor(x, y, n - 1);
        lemma_id_byte_xor(x, y, n - 1);
        let k = (8 * ((n - 1) % 8)) as u64;
        let p = id_byte(x, n - 1);
        let q = id_byte(y, n - 1);
        let fx = folded_distance(x, n - 1);
        let fy = folded_distance(y, n - 1);
        assert(((p ^ q) << k) == (p << k) ^ (q << k)) by (bit_vector);
        assert((fx ^ fy) ^ ((p << k) ^ (q << k)) == (fx ^ (p << k)) ^ (fy ^ (q << k))) by (bit_vector);
    } else {
        assert((0u64 ^ 0u64) == 0) by (bit_vector);
    }
}

/// Folding the zero id gives zero.
proof fn lemma_folded_zero(n: int)
    ensures
        folded_distance(0, n) == 0,
    decreases n,
{
    if n > 0 {
        lemma_folded_zero(n - 1);
        let s = (8 * (15 - (n - 1))) as u128;
        let k = (8 * ((n - 1) % 8)) as u64;
        assert((((0u128 >> s) & 0xff) as u64) == 0) by (bit_vector);
        assert((0u64 << k) == 0 && (0u64 ^ 0u64) == 0) by (bit_vector);
    }
}

/// The distance from an id to itself is zero; the distance is symmetric;
/// and distances compose by XOR: the distance from `a` to `c` is the XOR of
/// the distances from `a` to `b` and from `b` to `c`.
pub proof fn lemma_distance_laws(a: u128, b: u128, c: u128)
    ensures
        xor_distance(a, a) == 0,
        xor_distance(a, b) == xor_distance(b, a),
        xor_distance(a, c) == xor_distance(a, b) ^ xor_distance(b, c),
{
    assert(a ^ a == 0) by (bit_vector);
    assert(a ^ b == b ^ a) by (bit_vector);
    assert(a ^ c == (a ^ b) ^ (b ^ c)) by (bit_vector);
    lemma_folded_zero(16);
    lemma_folded_xor(a ^ b, b ^ c, 16);
}

/// A number below 2^k has its highest set bit below k (for k at least 1).
proof fn lemma_highest_bit_below(d: u64, k: nat)
    requires
        k >= 1,
        d < pow2(k),
    ensures
        highest_bit(d) < k,
    decreases k,
{
    if d > 1 {
        lemma2_to64();
        if k == 1 {
            assert(false);
        } else {
            lemma_pow2_unfold(k);
            lemma_highest_bit_below((d / 2) as u64, (k - 1) as nat);
        }
    }
}

/// The bucket for a distance: the position of its highest set bit (0 for 0).
pub fn get_bucket_index(distance: u64) -> (r: usize)
    ensures
        r == highest_bit(distance),
        r < 64,
{
    proof {
        lemma2_to64();
        lemma_highest_bit_below(distance, 64);
    }
    let mut d = distance;
    let mut b: usize = 0;
    while d > 1
        invariant
            b + highest_bit(d) == highest_bit(distance),
            highest_bit(distance) < 64,
        decreases d,
    {
        d = d / 2;
        b = b + 1;
    }
    b
}

// ---------------------------------------------------------------------------
// The model of the table
// ---------------------------------------------------------------------------

/// The entries of bucket `i`, or none where there is no such bucket.
pub open spec fn bucket_at(bs: Seq<DHTBucket>, i: int) -> Seq<DHTEntry> {
    if 0 <= i < bs.len() {
        bs[i].entries@
    } else {
        Seq::empty()
    }
}

/// The number of entries over all buckets.
pub open spec fn total_entries(bs: Seq<DHTBucket>) -> int
    decreases bs.len(),
{
    if bs.len() == 0 {
        0
    } else {
        total_entries(bs.drop_last()) + bs.last().entries@.len()
    }
}

/// The number of buckets holding at least one entry.
pub open spec fn nonempty_buckets(bs: Seq<DHTBucket>) -> int
    decreases bs.len(),
{
    if bs.len() == 0 {
        0
    } else {
        nonempty_buckets(bs.drop_last()) + if bs.last().entries@.len() > 0 { 1int } else { 0int }
    }
}

/// `j` is the first position of an entry for `id`.
pub open spec fn first_with_id(s: Seq<DHTEntry>, id: u128, j: int) -> bool {
    &&& 0 <= j < s.len()
    &&& s[j].peer_id == id
    &&& forall|k: int| 0 <= k < j ==> s[k].peer_id != id
}

/// Entries paired with a sort key.
pub open spec fn keyed(s: Seq<DHTEntry>, key: spec_fn(DHTEntry) -> u128) -> Seq<(u128, DHTEntry)> {
    s.map_values(|e: DHTEntry| (key(e), e))
}

/// The entries of keyed pairs.
pub open spec fn unkeyed(s: Seq<(u128, DHTEntry)>) -> Seq<DHTEntry> {
    s.map_values(|p: (u128, DHTEntry)| p.1)
}

/// `s` stably sorted by `key`.
pub open spec fn sorted_by(s: Seq<DHTEntry>, key: spec_fn(DHTEntry) -> u128) -> Seq<DHTEntry> {
    unkeyed(sort_stable(keyed(s, key)))
}

/// Sort key: when the peer was last seen.
pub open spec fn by_last_seen() -> spec_fn(DHTEntry) -> u128 {
    |e: DHTEntry| e.last_seen as u128
}

/// A bucket after `peer` is added: an entry with the same id is replaced
/// (the first one); otherwise the peer is appended while the bucket has
/// room; otherwise the bucket is ordered oldest first and the oldest entry
/// is replaced.
pub open spec fn bucket_after_add(s: Seq<DHTEntry>, peer: DHTEntry) -> Seq<DHTEntry> {
    if exists|j: int| first_with_id(s, peer.peer_id, j) {
        s.update(choose|j: int| first_with_id(s, peer.peer_id, j), peer)
    } else if s.len() < DHT_BUCKET_SIZE {
        s.push(peer)
    } else {
        sorted_by(s, by_last_seen()).update(0, peer)
    }
}

/// The bucket of a peer id, seen from `local`.
pub open spec fn bucket_index_of(local: u128, id: u128) -> int {
    highest_bit(xor_distance(local, id)) as int
}

/// Entries other than those of `id`.
pub open spec fn other_than(id: u128) -> spec_fn(DHTEntry) -> bool {
    |e: DHTEntry| e.peer_id != id
}

/// Entries seen less than the peer timeout before `now` (an entry seen
/// after `now` counts as just seen).
pub open spec fn seen_recently(now: u64) -> spec_fn(DHTEntry) -> bool {
    |e: DHTEntry| (if now >= e.last_seen { now - e.last_seen } else { 0 }) < DHT_PEER_TIMEOUT_MS
}

/// The candidates of a lookup, from bucket offset `offset` on: while fewer
/// than `count` are gathered and the offset is below 8, the buckets at
/// `idx + offset` (mod 160) and at `idx - offset` (saturating, when it differs
/// from `idx`) are appended.
pub open spec fn lookup_gather(bs: Seq<DHTBucket>, idx: int, count: int, offset: int, acc: Seq<DHTEntry>) -> Seq<
    DHTEntry,
>
    decreases 8 - offset,
{
    if acc.len() < count && 0 <= offset < 8 {
        let plus = (idx + offset) % (DHT_KEY_SPACE as int);
        let minus = if idx >= offset { idx - offset } else { 0 };
        let acc1 = acc + bucket_at(bs, plus);
        let acc2 = if minus != idx && minus < DHT_KEY_SPACE { acc1 + bucket_at(bs, minus) } else { acc1 };
        lookup_gather(bs, idx, count, offset + 1, acc2)
    } else {
        acc
    }
}

/// The candidates of a lookup around bucket `idx`.
pub open spec fn lookup_candidates(bs: Seq<DHTBucket>, idx: int, count: int) -> Seq<DHTEntry> {
    lookup_gather(bs, idx, count, 1, bucket_at(bs, idx))
}

/// Lookup order: nearest to `target` first, then higher quality first.
pub open spec fn by_closeness(target: u128) -> spec_fn(DHTEntry) -> u128 {
    |e: DHTEntry| ((xor_distance(target, e.peer_id) as int) * 256 + (255 - e.quality_score as int)) as u128
}

/// At most the first `n` elements of `s`.
pub open spec fn at_most<T>(s: Seq<T>, n: int) -> Seq<T> {
    if n < s.len() {
        s.take(n)
    } else {
        s
    }
}

/// Whether an entry offers the capability named `cap` ("relay", "bootnode",
/// "quic" or "sharding"; any other name matches nothing).
pub open spec fn has_capability(cap: Seq<char>) -> spec_fn(DHTEntry) -> bool {
    |e: DHTEntry|
        (cap == "relay"@ && e.capabilities.can_relay) || (cap == "bootnode"@ && e.capabilities.can_bootnode)
            || (cap == "quic"@ && e.capabilities.supports_quic) || (cap == "sharding"@
            && e.capabilities.supports_sharding)
}

/// The entries with capability `cap`, bucket by bucket.
pub open spec fn capable_entries(bs: Seq<DHTBucket>, cap: Seq<char>) -> Seq<DHTEntry>
    decreases bs.len(),
{
    if bs.len() == 0 {
        Seq::empty()
    } else {
        capable_entries(bs.drop_last(), cap) + bs.last().entries@.filter(has_capability(cap))
    }
}

/// Sort key: quality score.
pub open spec fn by_quality() -> spec_fn(DHTEntry) -> u128 {
    |e: DHTEntry| e.quality_score as u128
}

/// The sum of the quality scores of `s`.
pub open spec fn quality_sum(s: Seq<DHTEntry>) -> int
    decreases s.len(),
{
    if s.len() == 0 {
        0
    } else {
        quality_sum(s.drop_last()) + s.last().quality_score
    }
}

/// The statistics with the peer total replaced.
pub open spec fn with_total(s: DHTStats, total: int) -> DHTStats {
    DHTStats { total_peers: total as u64, ..s }
}

/// Adding one to a counter, wrapping at 2^64.
pub open spec fn bump(c: u64) -> u64 {
    if c == u64::MAX { 0 } else { (c + 1) as u64 }
}

// ---------------------------------------------------------------------------
// Helpers on entry lists
// ---------------------------------------------------------------------------

proof fn lemma_total_step(bs: Seq<DHTBucket>, i: int)
    requires
        0 <= i < bs.len(),
    ensures
        total_entries(bs.take(i + 1)) == total_entries(bs.take(i)) + bs[i].entries@.len(),
        nonempty_buckets(bs.take(i + 1)) == nonempty_buckets(bs.take(i)) + if bs[i].entries@.len() > 0 { 1int } else { 0int },
{
    assert(bs.take(i + 1).drop_last() =~= bs.take(i));
}

proof fn lemma_capable_step(bs: Seq<DHTBucket>, i: int, cap: Seq<char>)
    requires
        0 <= i < bs.len(),
    ensures
        capable_entries(bs.take(i + 1), cap) == capable_entries(bs.take(i), cap) + bs[i].entries@.filter(has_capability(cap)),
{
    assert(bs.take(i + 1).drop_last() =~= bs.take(i));
}

proof fn lemma_filter_step(s: Seq<DHTEntry>, j: int, pred: spec_fn(DHTEntry) -> bool)
    requires
        0 <= j < s.len(),
    ensures
        s.take(j + 1).filter(pred) == if pred(s[j]) { s.take(j).filter(pred).push(s[j]) } else { s.take(j).filter(pred) },
{
    assert(s.take(j + 1) =~= s.take(j).push(s[j]));
    s.take(j).lemma_filter_push(s[j], pred);
}

proof fn lemma_filter_shorter(s: Seq<DHTEntry>, pred: spec_fn(DHTEntry) -> bool)
    ensures
        s.filter(pred).len() <= s.len(),
{
    s.lemma_filter_len(pred);
}

/// A copy of a list of entries.
fn copy_entries(v: &Vec<DHTEntry>) -> (r: Vec<DHTEntry>)
    ensures
        r@ == v@,
{
    let mut out: Vec<DHTEntry> = Vec::new();
    let mut i: usize = 0;
    while i < v.len()
        invariant
            i <= v.len(),
            out@ == v@.take(i as int),
        decreases v.len() - i,
    {
        out.push(v[i]);
        i = i + 1;
        assert(out@ =~= v@.take(i as int));
    }
    assert(v@.take(v.len() as int) =~= v@);
    out
}

/// Appends a copy of `extra` to `out`.
fn append_entries(out: &mut Vec<DHTEntry>, extra: &Vec<DHTEntry>)
    ensures
        final(out)@ == old(out)@ + extra@,
{
    let mut i: usize = 0;
    while i < extra.len()
        invariant
            i <= extra.len(),
            out@ == old(out)@ + extra@.take(i as int),
        decreases extra.len() - i,
    {
        out.push(extra[i]);
        i = i + 1;
        assert(out@ =~= old(out)@ + extra@.take(i as int));
    }
    assert(extra@.take(extra.len() as int) =~= extra@);
}

/// Removes the keys of sorted pairs.
fn strip_keys(sorted: Vec<(u128, DHTEntry)>) -> (r: Vec<DHTEntry>)
    ensures
        r@ == unkeyed(sorted@),
{
    let mut out: Vec<DHTEntry> = Vec::new();
    let mut i: usize = 0;
    while i < sorted.len()
        invariant
            i <= sorted.len(),
            out@.len() == i,
            forall|k: int| 0 <= k < i ==> out@[k] == sorted@[k].1,
        decreases sorted.len() - i,
    {
        out.push(sorted[i].1);
        i = i + 1;
    }
    assert(out@ =~= unkeyed(sorted@));
    out
}

/// The entries in reverse order.
fn reversed(v: Vec<DHTEntry>) -> (r: Vec<DHTEntry>)
    ensures
        r@ == v@.reverse(),
{
    let mut out: Vec<DHTEntry> = Vec::new();
    let mut i: usize = v.len();
    while i > 0
        invariant
            i <= v.len(),
            out@.len() == v.len() - i,
            forall|k: int| 0 <= k < out@.len() ==> out@[k] == v@[v.len() - 1 - k],
        decreases i,
    {
        i = i - 1;
        out.push(v[i]);
    }
    assert(out@ =~= v@.reverse());
    out
}

/// Oldest entries first (stable).
fn oldest_first(v: &Vec<DHTEntry>) -> (r: Vec<DHTEntry>)
    ensures
        r@ == sorted_by(v@, by_last_seen()),
{
    let mut pairs: Vec<(u128, DHTEntry)> = Vec::new();
    let mut i: usize = 0;
    while i < v.len()
        invariant
            i <= v.len(),
            pairs@.len() == i,
            forall|k: int| 0 <= k < i ==> pairs@[k] == (by_last_seen()(v@[k]), v@[k]),
        decreases v.len() - i,
    {
        pairs.push((v[i].last_seen as u128, v[i]));
        i = i + 1;
    }
    assert(pairs@ =~= keyed(v@, by_last_seen()));
    strip_keys(stable_sort_by_key(pairs))
}

/// The bucket after adding `peer` (see [`bucket_after_add`]).
fn add_to_bucket(entries: Vec<DHTEntry>, peer: DHTEntry) -> (r: Vec<DHTEntry>)
    ensures
        r@ == bucket_after_add(entries@, peer),
{
    let mut j: usize = 0;
    while j < entries.len()
        invariant
            j <= entries.len(),
            forall|k: int| 0 <= k < j ==> entries@[k].peer_id != peer.peer_id,
        decreases entries.len() - j,
    {
        if entries[j].peer_id == peer.peer_id {
            proof {
                assert(first_with_id(entries@, peer.peer_id, j as int));
                let c = choose|c: int| first_with_id(entries@, peer.peer_id, c);
                assert(c == j);
            }
            let mut out = entries;
            out.set(j, peer);
            return out;
        }
        j = j + 1;
    }
    assert(!exists|c: int| first_with_id(entries@, peer.peer_id, c));
    if entries.len() < DHT_BUCKET_SIZE {
        let mut out = entries;
        out.push(peer);
        out
    } else {
        let mut out = oldest_first(&entries);
        proof {
            lemma_sort_stable(keyed(entries@, by_last_seen()));
        }
        out.set(0, peer);
        out
    }
}

impl DHTService {
    /// The table's invariant: at most one bucket per index of the key space,
    /// each holding at most [`DHT_BUCKET_SIZE`] entries.
    pub open spec fn well_formed(&self) -> bool {
        &&& self.buckets@.len() <= DHT_KEY_SPACE
        &&& forall|i: int| 0 <= i < self.buckets@.len() ==> self.buckets@[i].entries@.len() <= DHT_BUCKET_SIZE
    }

    /// A stopped service with no buckets.
    pub fn new(local_node_id: u128) -> (r: Self)
        ensures
            r.well_formed(),
            r.local_node_id == local_node_id,
            r.buckets@.len() == 0,
            r.stats == (DHTStats { total_peers: 0, active_buckets: 0, total_lookups: 0, successful_lookups: 0 }),
            !r.running,
    {
        DHTService {
            local_node_id,
            buckets: Vec::new(),
            stats: DHTStats { total_peers: 0, active_buckets: 0, total_lookups: 0, successful_lookups: 0 },
            running: false,
        }
    }

    /// Starts the service: fails when it runs already; otherwise creates the
    /// 160 empty buckets, refreshed at `now`.
    pub fn start(&mut self, now: u64) -> (r: Result<(), NetworkError>)
        requires
            old(self).well_formed(),
        ensures
            final(self).well_formed(),
            old(self).running ==> (r matches Err(NetworkError::ServiceAlreadyStarted)) && *final(self) == *old(self),
            !old(self).running ==> {
                &&& r is Ok
                &&& final(self).running
                &&& final(self).local_node_id == old(self).local_node_id
                &&& final(self).stats == old(self).stats
                &&& final(self).buckets@.len() == DHT_KEY_SPACE
                &&& forall|i: int| 0 <= i < DHT_KEY_SPACE ==> #[trigger] final(self).buckets@[i].entries@.len() == 0
                    && final(self).buckets@[i].last_refresh == now
            },
    {
        if self.running {
            return Err(NetworkError::ServiceAlreadyStarted);
        }
        let mut buckets: Vec<DHTBucket> = Vec::new();
        let mut i: usize = 0;
        while i < DHT_KEY_SPACE
            invariant
                i <= DHT_KEY_SPACE,
                buckets@.len() == i,
                forall|k: int| 0 <= k < i ==> #[trigger] buckets@[k].entries@.len() == 0 && buckets@[k].last_refresh == now,
            decreases DHT_KEY_SPACE - i,
        {
            buckets.push(DHTBucket { entries: Vec::new(), last_refresh: now });
            i = i + 1;
        }
        self.buckets = buckets;
        self.running = true;
        Ok(())
    }

    /// Stops the service, dropping every bucket; a stopped service is left as it is.
    pub fn stop(&mut self) -> (r: Result<(), NetworkError>)
        requires
            old(self).well_formed(),
        ensures
            final(self).well_formed(),
            r is Ok,
            !old(self).running ==> *final(self) == *old(self),
            old(self).running ==> !final(self).running && final(self).buckets@.len() == 0
                && final(self).local_node_id == old(self).local_node_id && final(self).stats == old(self).stats,
    {
        if !self.running {
            return Ok(());
        }
        self.buckets = Vec::new();
        self.running = false;
        Ok(())
    }

    /// The number of entries over all buckets.
    pub fn count_total_peers(&self) -> (r: u64)
        requires
            self.well_formed(),
        ensures
            r == total_entries(self.buckets@),
    {
        let mut total: u64 = 0;
        let mut i: usize = 0;
        while i < self.buckets.len()
            invariant
                self.well_formed(),
                i <= self.buckets@.len(),
                total == total_entries(self.buckets@.take(i as int)),
                total <= DHT_BUCKET_SIZE * i,
            decreases self.buckets@.len() - i,
        {
            proof {
                lemma_total_step(self.buckets@, i as int);
            }
            total = total + self.buckets[i].entries.len() as u64;
            i = i + 1;
        }
        assert(self.buckets@.take(self.buckets@.len() as int) =~= self.buckets@);
        total
    }

    /// Adds a peer to the bucket of its distance (see [`bucket_after_add`])
    /// and marks that bucket refreshed at `now`; where there is no such
    /// bucket (the service is stopped) the table is unchanged. The peer total
    /// is recounted.
    pub fn add_peer(&mut self, peer: DHTEntry, now: u64) -> (r: Result<(), NetworkError>)
        requires
            old(self).well_formed(),
        ensures
            final(self).well_formed(),
            r is Ok,
            final(self).local_node_id == old(self).local_node_id,
            final(self).running == old(self).running,
            final(self).buckets@.len() == old(self).buckets@.len(),
            ({
                let idx = bucket_index_of(old(self).local_node_id, peer.peer_id);
                forall|i: int|
                    0 <= i < old(self).buckets@.len() && i != idx ==> #[trigger] final(self).buckets@[i]
                        == old(self).buckets@[i]
            }),
            ({
                let idx = bucket_index_of(old(self).local_node_id, peer.peer_id);
                idx < old(self).buckets@.len() ==> final(self).buckets@[idx].entries@ == bucket_after_add(
                    old(self).buckets@[idx].entries@,
                    peer,
                ) && final(self).buckets@[idx].last_refresh == now
            }),
            final(self).stats == with_total(old(self).stats, total_entries(final(self).buckets@)),
    {
        let distance = calculate_distance(self.local_node_id, peer.peer_id);
        let idx = get_bucket_index(distance);
        if idx < self.buckets.len() {
            let current = copy_entries(&self.buckets[idx].entries);
            let updated = add_to_bucket(current, peer);
            proof {
                if exists|j: int| first_with_id(current@, peer.peer_id, j) {
                } else if current@.len() < DHT_BUCKET_SIZE {
                } else {
                    lemma_sort_stable(keyed(current@, by_last_seen()));
                }
            }
            self.buckets.set(idx, DHTBucket { entries: updated, last_refresh: now });
        }
        let total = self.count_total_peers();
        self.stats.total_peers = total;
        Ok(())
    }


    /// Removes every entry of `peer_id` from every bucket; the peer total is recounted.
    pub fn remove_peer(&mut self, peer_id: u128) -> (r: Result<(), NetworkError>)
        requires
            old(self).well_formed(),
        ensures
            final(self).well_formed(),
            r is Ok,
            final(self).local_node_id == old(self).local_node_id,
            final(self).running == old(self).running,
            final(self).buckets@.len() == old(self).buckets@.len(),
            forall|i: int|
                0 <= i < old(self).buckets@.len() ==> (#[trigger] final(self).buckets@[i]).entries@ == old(
                    self,
                ).buckets@[i].entries@.filter(other_than(peer_id)) && final(self).buckets@[i].last_refresh == old(
                    self,
                ).buckets@[i].last_refresh,
            final(self).stats == with_total(old(self).stats, total_entries(final(self).buckets@)),
    {
        let mut i: usize = 0;
        while i < self.buckets.len()
            invariant
                self.well_formed(),
                i <= self.buckets@.len(),
                self.buckets@.len() == old(self).buckets@.len(),
                self.local_node_id == old(self).local_node_id,
                self.running == old(self).running,
                self.stats == old(self).stats,
                forall|k: int|
                    0 <= k < i ==> (#[trigger] self.buckets@[k]).entries@ == old(self).buckets@[k].entries@.filter(
                        other_than(peer_id),
                    ) && self.buckets@[k].last_refresh == old(self).buckets@[k].last_refresh,
                forall|k: int| i <= k < self.buckets@.len() ==> #[trigger] self.buckets@[k] == old(self).buckets@[k],
            decreases self.buckets@.len() - i,
        {
            let kept = Self::entries_without(&self.buckets[i].entries, peer_id);
            let refreshed = self.buckets[i].last_refresh;
            proof {
                lemma_filter_shorter(self.buckets@[i as int].entries@, other_than(peer_id));
            }
            self.buckets.set(i, DHTBucket { entries: kept, last_refresh: refreshed });
            i = i + 1;
        }
        let total = self.count_total_peers();
        self.stats.total_peers = total;
        Ok(())
    }

    /// The entries that are not of `peer_id`.
    fn entries_without(v: &Vec<DHTEntry>, peer_id: u128) -> (r: Vec<DHTEntry>)
        ensures
            r@ == v@.filter(other_than(peer_id)),
    {
        let mut out: Vec<DHTEntry> = Vec::new();
        let mut j: usize = 0;
        while j < v.len()
            invariant
                j <= v.len(),
                out@ == v@.take(j as int).filter(other_than(peer_id)),
            decreases v.len() - j,
        {
            proof {
                lemma_filter_step(v@, j as int, other_than(peer_id));
            }
            if v[j].peer_id != peer_id {
                out.push(v[j]);
            }
            j = j + 1;
        }
        assert(v@.take(v.len() as int) =~= v@);
        out
    }

    /// The entries seen recently at `now` (see [`seen_recently`]).
    fn entries_seen_since(v: &Vec<DHTEntry>, now: u64) -> (r: Vec<DHTEntry>)
        ensures
            r@ == v@.filter(seen_recently(now)),
    {
        let mut out: Vec<DHTEntry> = Vec::new();
        let mut j: usize = 0;
        while j < v.len()
            invariant
                j <= v.len(),
                out@ == v@.take(j as int).filter(seen_recently(now)),
            decreases v.len() - j,
        {
            proof {
                lemma_filter_step(v@, j as int, seen_recently(now));
            }
            let age: u64 = now.saturating_sub(v[j].last_seen);
            if age < DHT_PEER_TIMEOUT_MS {
                out.push(v[j]);
            }
            j = j + 1;
        }
        assert(v@.take(v.len() as int) =~= v@);
        out
    }

    /// One maintenance pass at time `now`: drops the entries not seen within
    /// the peer timeout and recounts the peers and the non-empty buckets.
    pub fn expire_stale_peers(&mut self, now: u64)
        requires
            old(self).well_formed(),
        ensures
            final(self).well_formed(),
            final(self).local_node_id == old(self).local_node_id,
            final(self).running == old(self).running,
            final(self).buckets@.len() == old(self).buckets@.len(),
            forall|i: int|
                0 <= i < old(self).buckets@.len() ==> (#[trigger] final(self).buckets@[i]).entries@ == old(
                    self,
                ).buckets@[i].entries@.filter(seen_recently(now)) && final(self).buckets@[i].last_refresh == old(
                    self,
                ).buckets@[i].last_refresh,
            final(self).stats == (DHTStats {
                total_peers: total_entries(final(self).buckets@) as u64,
                active_buckets: nonempty_buckets(final(self).buckets@) as usize,
                ..old(self).stats
            }),
    {
        let mut i: usize = 0;
        let mut total: u64 = 0;
        let mut active: usize = 0;
        while i < self.buckets.len()
            invariant
                self.well_formed(),
                i <= self.buckets@.len(),
                self.buckets@.len() == old(self).buckets@.len(),
                self.local_node_id == old(self).local_node_id,
                self.running == old(self).running,
                self.stats == old(self).stats,
                forall|k: int|
                    0 <= k < i ==> (#[trigger] self.buckets@[k]).entries@ == old(self).buckets@[k].entries@.filter(
                        seen_recently(now),
                    ) && self.buckets@[k].last_refresh == old(self).buckets@[k].last_refresh,
                forall|k: int| i <= k < self.buckets@.len() ==> #[trigger] self.buckets@[k] == old(self).buckets@[k],
                total == total_entries(self.buckets@.take(i as int)),
                active == nonempty_buckets(self.buckets@.take(i as int)),
                total <= DHT_BUCKET_SIZE * i,
                active <= i,
            decreases self.buckets@.len() - i,
        {
            let kept = Self::entries_seen_since(&self.buckets[i].entries, now);
            let refreshed = self.buckets[i].last_refresh;
            proof {
                lemma_filter_shorter(self.buckets@[i as int].entries@, seen_recently(now));
            }
            let n = kept.len();
            let ghost before = self.buckets@;
            self.buckets.set(i, DHTBucket { entries: kept, last_refresh: refreshed });
            proof {
                assert(self.buckets@.take(i as int) =~= before.take(i as int));
                lemma_total_step(self.buckets@, i as int);
            }
            total = total + n as u64;
            if n > 0 {
                active = active + 1;
            }
            i = i + 1;
        }
        assert(self.buckets@.take(self.buckets@.len() as int) =~= self.buckets@);
        self.stats.total_peers = total;
        self.stats.active_buckets = active;
    }

    /// Looks up to `count` peers near `target_id`: the candidates gathered
    /// around the target's bucket (see [`lookup_candidates`]), nearest and
    /// then best first (see [`by_closeness`]). Counts the lookup, and a
    /// successful one where a peer was found.
    pub fn lookup_peers(&mut self, target_id: u128, count: usize) -> (r: Result<Vec<DHTEntry>, NetworkError>)
        requires
            old(self).well_formed(),
        ensures
            final(self).well_formed(),
            final(self).local_node_id == old(self).local_node_id,
            final(self).running == old(self).running,
            final(self).buckets == old(self).buckets,
            r matches Ok(v) && v@ == at_most(
                sorted_by(
                    lookup_candidates(
                        old(self).buckets@,
                        bucket_index_of(old(self).local_node_id, target_id),
                        count as int,
                    ),
                    by_closeness(target_id),
                ),
                count as int,
            ) && final(self).stats == (DHTStats {
                total_lookups: bump(old(self).stats.total_lookups),
                successful_lookups: if v@.len() > 0 {
                    bump(old(self).stats.successful_lookups)
                } else {
                    old(self).stats.successful_lookups
                },
                ..old(self).stats
            }),
    {
        let distance = calculate_distance(self.local_node_id, target_id);
        let idx = get_bucket_index(distance);
        let ghost bs = self.buckets@;
        let ghost target = lookup_candidates(bs, idx as int, count as int);
        let mut candidates: Vec<DHTEntry> = Vec::new();
        if idx < self.buckets.len() {
            append_entries(&mut candidates, &self.buckets[idx].entries);
        }
        assert(candidates@ =~= bucket_at(bs, idx as int));
        let mut offset: usize = 1;
        while candidates.len() < count && offset < 8
            invariant
                1 <= offset <= 8,
                idx < 64,
                bs == self.buckets@,
                self.well_formed(),
                lookup_gather(bs, idx as int, count as int, offset as int, candidates@) == target,
            decreases 8 - offset,
        {
            let plus = (idx + offset) % DHT_KEY_SPACE;
            let minus = idx.saturating_sub(offset);
            let ghost acc = candidates@;
            if plus < self.buckets.len() {
                append_entries(&mut candidates, &self.buckets[plus].entries);
            }
            assert(candidates@ =~= acc + bucket_at(bs, plus as int));
            let ghost acc1 = candidates@;
            if minus != idx && minus < DHT_KEY_SPACE {
                if minus < self.buckets.len() {
                    append_entries(&mut candidates, &self.buckets[minus].entries);
                }
                assert(candidates@ =~= acc1 + bucket_at(bs, minus as int));
            }
            offset = offset + 1;
        }
        let mut pairs: Vec<(u128, DHTEntry)> = Vec::new();
        let mut i: usize = 0;
        while i < candidates.len()
            invariant
                i <= candidates@.len(),
                pairs@.len() == i,
                forall|k: int| 0 <= k < i ==> pairs@[k] == (by_closeness(target_id)(candidates@[k]), candidates@[k]),
            decreases candidates@.len() - i,
        {
            let e = candidates[i];
            let d = calculate_distance(target_id, e.peer_id);
            let key: u128 = (d as u128) * 256 + (255 - e.quality_score) as u128;
            pairs.push((key, e));
            i = i + 1;
        }
        assert(pairs@ =~= keyed(candidates@, by_closeness(target_id)));
        let mut ranked = strip_keys(stable_sort_by_key(pairs));
        ranked.truncate(count);
        self.stats.total_lookups = self.stats.total_lookups.wrapping_add(1);
        if ranked.len() > 0 {
            self.stats.successful_lookups = self.stats.successful_lookups.wrapping_add(1);
        }
        Ok(ranked)
    }

    /// The peers offering the capability named `capability` ("relay",
    /// "bootnode", "quic" or "sharding"), best quality first; peers of equal
    /// quality come in the reverse of their bucket order.
    pub fn find_peers_by_capability(&self, capability: &str) -> (r: Result<Vec<DHTEntry>, NetworkError>)
        ensures
            r matches Ok(v) && v@ == sorted_by(capable_entries(self.buckets@, capability@), by_quality()).reverse(),
    {
        let relay = str_eq(capability, "relay");
        let bootnode = str_eq(capability, "bootnode");
        let quic = str_eq(capability, "quic");
        let sharding = str_eq(capability, "sharding");
        let mut candidates: Vec<DHTEntry> = Vec::new();
        let mut i: usize = 0;
        while i < self.buckets.len()
            invariant
                i <= self.buckets@.len(),
                candidates@ == capable_entries(self.buckets@.take(i as int), capability@),
                relay == (capability@ == "relay"@),
                bootnode == (capability@ == "bootnode"@),
                quic == (capability@ == "quic"@),
                sharding == (capability@ == "sharding"@),
            decreases self.buckets@.len() - i,
        {
            let entries = &self.buckets[i].entries;
            let ghost base = candidates@;
            let mut j: usize = 0;
            while j < entries.len()
                invariant
                    j <= entries@.len(),
                    entries@ == self.buckets@[i as int].entries@,
                    candidates@ == base + entries@.take(j as int).filter(has_capability(capability@)),
                    relay == (capability@ == "relay"@),
                    bootnode == (capability@ == "bootnode"@),
                    quic == (capability@ == "quic"@),
                    sharding == (capability@ == "sharding"@),
                decreases entries@.len() - j,
            {
                proof {
                    lemma_filter_step(entries@, j as int, has_capability(capability@));
                }
                let c = entries[j].capabilities;
                let wanted = (relay && c.can_relay) || (bootnode && c.can_bootnode) || (quic && c.supports_quic)
                    || (sharding && c.supports_sharding);
                if wanted {
                    candidates.push(entries[j]);
                }
                j = j + 1;
            }
            proof {
                assert(entries@.take(entries@.len() as int) =~= entries@);
                lemma_capable_step(self.buckets@, i as int, capability@);
            }
            i = i + 1;
        }
        assert(self.buckets@.take(self.buckets@.len() as int) =~= self.buckets@);
        let mut pairs: Vec<(u128, DHTEntry)> = Vec::new();
        let mut k: usize = 0;
        while k < candidates.len()
            invariant
                k <= candidates@.len(),
                pairs@.len() == k,
                forall|m: int| 0 <= m < k ==> pairs@[m] == (by_quality()(candidates@[m]), candidates@[m]),
            decreases candidates@.len() - k,
        {
            pairs.push((candidates[k].quality_score as u128, candidates[k]));
            k = k + 1;
        }
        assert(pairs@ =~= keyed(candidates@, by_quality()));
        Ok(reversed(strip_keys(stable_sort_by_key(pairs))))
    }

    /// The routing table: each bucket index with a copy of its entries.
    pub fn get_routing_table(&self) -> (r: HashMap<usize, Vec<DHTEntry>>)
        ensures
            r@.dom() == Set::new(|i: usize| i < self.buckets@.len()),
            forall|i: usize| i < self.buckets@.len() ==> (#[trigger] r@[i])@ == self.buckets@[i as int].entries@,
    {
        let mut table: HashMap<usize, Vec<DHTEntry>> = HashMap::new();
        let mut i: usize = 0;
        while i < self.buckets.len()
            invariant
                i <= self.buckets@.len(),
                table@.dom() == Set::new(|k: usize| k < i),
                forall|k: usize| k < i ==> (#[trigger] table@[k])@ == self.buckets@[k as int].entries@,
            decreases self.buckets@.len() - i,
        {
            let copy = copy_entries(&self.buckets[i].entries);
            table.insert(i, copy);
            i = i + 1;
            assert(table@.dom() =~= Set::new(|k: usize| k < i));
        }
        assert(table@.dom() =~= Set::new(|k: usize| k < self.buckets@.len()));
        table
    }

    /// Marks bucket `bucket_index` refreshed at `now` (nothing changes where
    /// there is no such bucket).
    pub fn refresh_bucket(&mut self, bucket_index: usize, now: u64) -> (r: Result<(), NetworkError>)
        requires
            old(self).well_formed(),
        ensures
            final(self).well_formed(),
            r is Ok,
            final(self).local_node_id == old(self).local_node_id,
            final(self).running == old(self).running,
            final(self).stats == old(self).stats,
            final(self).buckets@.len() == old(self).buckets@.len(),
            forall|i: int|
                0 <= i < old(self).buckets@.len() && i != bucket_index ==> #[trigger] final(self).buckets@[i]
                    == old(self).buckets@[i],
            bucket_index < old(self).buckets@.len() ==> final(self).buckets@[bucket_index as int].entries@ == old(
                self,
            ).buckets@[bucket_index as int].entries@ && final(self).buckets@[bucket_index as int].last_refresh
                == now,
    {
        if bucket_index < self.buckets.len() {
            let entries = copy_entries(&self.buckets[bucket_index].entries);
            self.buckets.set(bucket_index, DHTBucket { entries, last_refresh: now });
        }
        Ok(())
    }

    /// The statistics.
    pub fn get_stats(&self) -> (r: DHTStats)
        ensures
            r == self.stats,
    {
        self.stats
    }

    /// The summary of bucket `bucket_index`, if there is one.
    pub fn get_bucket_info(&self, bucket_index: usize) -> (r: Option<BucketInfo>)
        requires
            self.well_formed(),
        ensures
            bucket_index >= self.buckets@.len() ==> r is None,
            bucket_index < self.buckets@.len() ==> r == Some(
                BucketInfo {
                    index: bucket_index,
                    peer_count: self.buckets@[bucket_index as int].entries@.len() as usize,
                    last_refresh: self.buckets@[bucket_index as int].last_refresh,
                    quality_total: quality_sum(self.buckets@[bucket_index as int].entries@) as u64,
                },
            ),
    {
        if bucket_index >= self.buckets.len() {
            return None;
        }
        let entries = &self.buckets[bucket_index].entries;
        let mut sum: u64 = 0;
        let mut j: usize = 0;
        while j < entries.len()
            invariant
                j <= entries@.len(),
                entries@.len() <= DHT_BUCKET_SIZE,
                sum == quality_sum(entries@.take(j as int)),
                sum <= 255 * j,
            decreases entries@.len() - j,
        {
            assert(entries@.take(j as int + 1).drop_last() =~= entries@.take(j as int));
            sum = sum + entries[j].quality_score as u64;
            j = j + 1;
        }
        assert(entries@.take(entries@.len() as int) =~= entries@);
        Some(
            BucketInfo {
                index: bucket_index,
                peer_count: entries.len(),
                last_refresh: self.buckets[bucket_index].last_refresh,
                quality_total: sum,
            },
        )
    }
}

/// A peer just added is in its bucket, and the bucket stays within
/// [`DHT_BUCKET_SIZE`] entries.
pub proof fn lemma_added_peer_present(s: Seq<DHTEntry>, peer: DHTEntry)
    requires
        s.len() <= DHT_BUCKET_SIZE,
    ensures
        bucket_after_add(s, peer).contains(peer),
        bucket_after_add(s, peer).len() <= DHT_BUCKET_SIZE,
{
    if exists|j: int| first_with_id(s, peer.peer_id, j) {
        let j = choose|j: int| first_with_id(s, peer.peer_id, j);
        assert(bucket_after_add(s, peer)[j] == peer);
    } else if s.len() < DHT_BUCKET_SIZE {
        assert(bucket_after_add(s, peer)[s.len() as int] == peer);
    } else {
        lemma_sort_stable(keyed(s, by_last_seen()));
        assert(bucket_after_add(s, peer)[0] == peer);
    }
}

/// Adding a peer whose id is already in the bucket replaces that entry:
/// the bucket keeps its size.
pub proof fn lemma_readd_keeps_size(s: Seq<DHTEntry>, peer: DHTEntry, j: int)
    requires
        0 <= j < s.len(),
        s[j].peer_id == peer.peer_id,
    ensures
        bucket_after_add(s, peer).len() == s.len(),
    decreases j,
{
    if first_with_id(s, peer.peer_id, j) {
    } else {
        let k = choose|k: int| 0 <= k < j && s[k].peer_id == peer.peer_id;
        lemma_readd_keeps_size(s, peer, k);
    }
}

/// When a full bucket holds no entry of the peer's id, adding the peer
/// replaces an entry last seen no later than any other in the bucket, and
/// the bucket keeps its size.
pub proof fn lemma_full_bucket_evicts_oldest(s: Seq<DHTEntry>, peer: DHTEntry)
    requires
        s.len() == DHT_BUCKET_SIZE,
        forall|j: int| 0 <= j < s.len() ==> s[j].peer_id != peer.peer_id,
    ensures
        bucket_after_add(s, peer) == sorted_by(s, by_last_seen()).update(0, peer),
        bucket_after_add(s, peer).len() == DHT_BUCKET_SIZE,
        forall|i: int| 0 <= i < s.len() ==> sorted_by(s, by_last_seen())[0].last_seen <= #[trigger] s[i].last_seen,
{
    broadcast use vstd::seq_lib::group_to_multiset_ensures;
    let ks0 = keyed(s, by_last_seen());
    let ks = sort_stable(ks0);
    lemma_sort_stable(ks0);
    assert(!exists|j: int| first_with_id(s, peer.peer_id, j));
    assert(ks.len() == s.len());
    assert(ks.contains(ks[0]));
    assert(ks0.to_multiset().count(ks[0]) > 0);
    assert(ks0.contains(ks[0]));
    let e = choose|m: int| 0 <= m < ks0.len() && ks0[m] == ks[0];
    assert(ks[0].0 == ks[0].1.last_seen as u128);
    assert forall|i: int| 0 <= i < s.len() implies sorted_by(s, by_last_seen())[0].last_seen <= #[trigger] s[i].last_seen by {
        assert(ks0[i] == (s[i].last_seen as u128, s[i]));
        assert(ks0.contains(ks0[i]));
        assert(ks.to_multiset().count(ks0[i]) > 0);
        assert(ks.contains(ks0[i]));
        let j = choose|j: int| 0 <= j < ks.len() && ks[j] == ks0[i];
        assert(ks[0].0 <= ks[j].0);
    }
}

/// No two entries of `s` share a peer id.
pub open spec fn distinct_ids(s: Seq<DHTEntry>) -> bool {
    forall|i: int, j: int| 0 <= i < j < s.len() ==> #[trigger] s[i].peer_id != #[trigger] s[j].peer_id
}

/// Adding a peer to a bucket whose entries have distinct ids leaves their
/// ids distinct.
pub proof fn lemma_add_keeps_ids_distinct(s: Seq<DHTEntry>, peer: DHTEntry)
    requires
        distinct_ids(s),
    ensures
        distinct_ids(bucket_after_add(s, peer)),
{
    broadcast use vstd::seq_lib::group_to_multiset_ensures;
    let r = bucket_after_add(s, peer);
    if exists|j: int| first_with_id(s, peer.peer_id, j) {
        let j = choose|j: int| first_with_id(s, peer.peer_id, j);
        assert forall|a: int, b: int| 0 <= a < b < r.len() implies #[trigger] r[a].peer_id != #[trigger] r[b].peer_id by {
            if a != j && b != j {
                assert(r[a] == s[a] && r[b] == s[b]);
            } else if a == j {
                assert(r[b] == s[b]);
            } else {
                assert(r[a] == s[a]);
            }
        }
    } else if s.len() < DHT_BUCKET_SIZE {
        assert forall|a: int, b: int| 0 <= a < b < r.len() implies #[trigger] r[a].peer_id != #[trigger] r[b].peer_id by {
            if b == s.len() {
                assert(!first_with_id(s, peer.peer_id, a));
                assert(s[a].peer_id != peer.peer_id) by {
                    if s[a].peer_id == peer.peer_id {
                        let m = choose|m: int| 0 <= m <= a && s[m].peer_id == peer.peer_id && (forall|k: int|
                            0 <= k < m ==> s[k].peer_id != peer.peer_id);
                        assert(first_with_id(s, peer.peer_id, m));
                    }
                }
            } else {
                assert(r[a] == s[a] && r[b] == s[b]);
            }
        }
    } else {
        let ks0 = keyed(s, by_last_seen());
        let ks = sort_stable(ks0);
        lemma_sort_stable(ks0);
        assert(ks0.no_duplicates()) by {
            assert forall|a: int, b: int| 0 <= a < ks0.len() && 0 <= b < ks0.len() && a != b implies ks0[a] != ks0[b] by {
                if a < b {
                    assert(s[a].peer_id != s[b].peer_id);
                } else {
                    assert(s[b].peer_id != s[a].peer_id);
                }
            }
        }
        ks0.lemma_multiset_has_no_duplicates();
        ks.lemma_multiset_has_no_duplicates_conv();
        assert forall|i: int| 0 <= i < ks.len() implies exists|a: int| 0 <= a < s.len() && #[trigger] ks[i] == ks0[a] by {
            assert(ks.contains(ks[i]));
            assert(ks0.to_multiset().count(ks[i]) > 0);
            assert(ks0.contains(ks[i]));
        }
        let no_peer = forall|a: int| 0 <= a < s.len() ==> s[a].peer_id != peer.peer_id;
        assert(no_peer) by {
            assert forall|a: int| 0 <= a < s.len() implies s[a].peer_id != peer.peer_id by {
                if s[a].peer_id == peer.peer_id {
                    let m = choose|m: int| 0 <= m <= a && s[m].peer_id == peer.peer_id && (forall|k: int|
                        0 <= k < m ==> s[k].peer_id != peer.peer_id);
                    assert(first_with_id(s, peer.peer_id, m));
                }
            }
        }
        assert forall|a: int, b: int| 0 <= a < b < r.len() implies #[trigger] r[a].peer_id != #[trigger] r[b].peer_id by {
            let x = choose|x: int| 0 <= x < s.len() && ks[b] == ks0[x];
            if a == 0 {
                assert(r[b] == ks[b].1);
                assert(ks0[x].1 == s[x]);
            } else {
                let y = choose|y: int| 0 <= y < s.len() && ks[a] == ks0[y];
                assert(r[a] == ks[a].1 && r[b] == ks[b].1);
                assert(ks0[x].1 == s[x] && ks0[y].1 == s[y]);
                if x == y {
                    assert(ks[a] == ks[b]);
                } else if x < y {
                    assert(s[x].peer_id != s[y].peer_id);
                } else {
                    assert(s[y].peer_id != s[x].peer_id);
                }
            }
        }
    }
}

/// Sorting entries by a key keeps the entries and orders their keys.
pub proof fn lemma_sorted_by(s: Seq<DHTEntry>, key: spec_fn(DHTEntry) -> u128)
    ensures
        sorted_by(s, key).len() == s.len(),
        forall|i: int, j: int|
            0 <= i <= j < s.len() ==> key(#[trigger] sorted_by(s, key)[i]) <= key(#[trigger] sorted_by(s, key)[j]),
        forall|i: int| 0 <= i < s.len() ==> s.contains(#[trigger] sorted_by(s, key)[i]),
        forall|a: int| 0 <= a < s.len() ==> sorted_by(s, key).contains(#[trigger] s[a]),
{
    broadcast use vstd::seq_lib::group_to_multiset_ensures;
    let ks0 = keyed(s, key);
    let ks = sort_stable(ks0);
    lemma_sort_stable(ks0);
    let t = sorted_by(s, key);
    assert forall|i: int| 0 <= i < ks.len() implies exists|a: int| 0 <= a < s.len() && #[trigger] ks[i] == ks0[a] by {
        assert(ks.contains(ks[i]));
        assert(ks0.to_multiset().count(ks[i]) > 0);
        assert(ks0.contains(ks[i]));
    }
    assert forall|i: int, j: int| 0 <= i <= j < s.len() implies key(#[trigger] t[i]) <= key(#[trigger] t[j]) by {
        let a = choose|a: int| 0 <= a < s.len() && ks[i] == ks0[a];
        let b = choose|b: int| 0 <= b < s.len() && ks[j] == ks0[b];
        assert(ks[i].0 <= ks[j].0);
    }
    assert forall|i: int| 0 <= i < s.len() implies s.contains(#[trigger] t[i]) by {
        let a = choose|a: int| 0 <= a < s.len() && ks[i] == ks0[a];
        assert(s[a] == t[i]);
    }
    assert forall|a: int| 0 <= a < s.len() implies t.contains(#[trigger] s[a]) by {
        assert(ks0.contains(ks0[a]));
        assert(ks.to_multiset().count(ks0[a]) > 0);
        assert(ks.contains(ks0[a]));
        let j = choose|j: int| 0 <= j < ks.len() && ks[j] == ks0[a];
        assert(t[j] == s[a]);
    }
}

/// Every entry gathered for a capability has it.
proof fn lemma_capable_have_it(bs: Seq<DHTBucket>, cap: Seq<char>)
    ensures
        forall|i: int| 0 <= i < capable_entries(bs, cap).len() ==> has_capability(cap)(#[trigger] capable_entries(bs, cap)[i]),
    decreases bs.len(),
{
    if bs.len() > 0 {
        lemma_capable_have_it(bs.drop_last(), cap);
        let front = capable_entries(bs.drop_last(), cap);
        let back = bs.last().entries@.filter(has_capability(cap));
        assert forall|i: int| 0 <= i < capable_entries(bs, cap).len() implies has_capability(cap)(
            #[trigger] capable_entries(bs, cap)[i],
        ) by {
            if i >= front.len() {
                assert(back.contains(back[i - front.len()]));
            }
        }
    }
}

/// The entries gathered for a capability are entries of the table, and
/// every entry of the table with the capability is among them.
proof fn lemma_capable_of_table(bs: Seq<DHTBucket>, cap: Seq<char>)
    ensures
        forall|i: int| 0 <= i < capable_entries(bs, cap).len() ==> in_table(bs, #[trigger] capable_entries(bs, cap)[i]),
        forall|b: int, k: int|
            0 <= b < bs.len() && 0 <= k < bs[b].entries@.len() && has_capability(cap)(#[trigger] bs[b].entries@[k])
                ==> capable_entries(bs, cap).contains(bs[b].entries@[k]),
    decreases bs.len(),
{
    if bs.len() > 0 {
        let init = bs.drop_last();
        lemma_capable_of_table(init, cap);
        let front = capable_entries(init, cap);
        let last = bs.last().entries@;
        let back = last.filter(has_capability(cap));
        let all = capable_entries(bs, cap);
        assert(all == front + back);
        assert forall|i: int| 0 <= i < all.len() implies in_table(bs, #[trigger] all[i]) by {
            if i < front.len() {
                assert(all[i] == front[i]);
                assert(in_table(init, front[i]));
                let (b, k) = choose|b: int, k: int| 0 <= b < init.len() && 0 <= k < init[b].entries@.len() && #[trigger] init[b].entries@[k] == front[i];
                assert(bs[b].entries@[k] == front[i]);
            } else {
                assert(all[i] == back[i - front.len()]);
                assert(back.contains(back[i - front.len()]));
                last.lemma_filter_contains_rev(has_capability(cap), back[i - front.len()]);
                let k = choose|k: int| 0 <= k < last.len() && last[k] == back[i - front.len()];
                assert(bs[bs.len() - 1].entries@[k] == all[i]);
            }
        }
        assert forall|b: int, k: int|
            0 <= b < bs.len() && 0 <= k < bs[b].entries@.len() && has_capability(cap)(#[trigger] bs[b].entries@[k]) implies all.contains(
            bs[b].entries@[k],
        ) by {
            let e = bs[b].entries@[k];
            if b < bs.len() - 1 {
                assert(init[b].entries@[k] == e);
                assert(front.contains(e));
                let x = choose|x: int| 0 <= x < front.len() && front[x] == e;
                assert(all[x] == e);
            } else {
                assert(last[k] == e);
                last.lemma_filter_contains(has_capability(cap), k);
                assert(back.contains(e));
                let x = choose|x: int| 0 <= x < back.len() && back[x] == e;
                assert(all[front.len() + x] == e);
            }
        }
    }
}

/// Dropping the keys of a permutation of keyed entries gives a permutation
/// of the entries.
proof fn lemma_unkeyed_permutation(s: Seq<DHTEntry>, p: Seq<(u128, DHTEntry)>, key: spec_fn(DHTEntry) -> u128)
    requires
        p.to_multiset() == keyed(s, key).to_multiset(),
    ensures
        unkeyed(p).to_multiset() == s.to_multiset(),
    decreases s.len(),
{
    broadcast use vstd::seq_lib::group_to_multiset_ensures;
    if s.len() == 0 {
        assert(keyed(s, key) =~= Seq::<(u128, DHTEntry)>::empty());
        assert(p.to_multiset().len() == 0);
        assert(unkeyed(p) =~= Seq::<DHTEntry>::empty());
        assert(s =~= Seq::<DHTEntry>::empty());
    } else {
        let x = s.last();
        let init = s.drop_last();
        let pair = (key(x), x);
        assert(keyed(s, key) =~= keyed(init, key).push(pair));
        assert(keyed(s, key).to_multiset().count(pair) > 0);
        assert(p.to_multiset().count(pair) > 0);
        assert(p.contains(pair));
        let j = choose|j: int| 0 <= j < p.len() && p[j] == pair;
        let rest = p.remove(j);
        assert(rest.to_multiset() =~= keyed(init, key).to_multiset());
        lemma_unkeyed_permutation(init, rest, key);
        assert(unkeyed(rest) =~= unkeyed(p).remove(j));
        assert(unkeyed(p)[j] == x);
        assert(unkeyed(p).to_multiset() =~= unkeyed(rest).to_multiset().insert(x));
        assert(init.push(x) =~= s);
    }
}

/// A capability search answers exactly the entries of the table with the
/// capability (as a multiset), the best quality first.
pub proof fn lemma_capability_search(bs: Seq<DHTBucket>, cap: Seq<char>)
    ensures
        ({
            let v = sorted_by(capable_entries(bs, cap), by_quality()).reverse();
            &&& v.to_multiset() == capable_entries(bs, cap).to_multiset()
            &&& forall|i: int| 0 <= i < v.len() ==> has_capability(cap)(#[trigger] v[i]) && in_table(bs, v[i])
            &&& forall|b: int, k: int|
                0 <= b < bs.len() && 0 <= k < bs[b].entries@.len() && has_capability(cap)(#[trigger] bs[b].entries@[k])
                    ==> v.contains(bs[b].entries@[k])
            &&& forall|i: int, j: int| 0 <= i <= j < v.len() ==> (#[trigger] v[i]).quality_score >= (#[trigger] v[j]).quality_score
        }),
{
    let c = capable_entries(bs, cap);
    let t = sorted_by(c, by_quality());
    let v = t.reverse();
    lemma_sorted_by(c, by_quality());
    lemma_capable_have_it(bs, cap);
    lemma_capable_of_table(bs, cap);
    lemma_sort_stable(keyed(c, by_quality()));
    lemma_unkeyed_permutation(c, sort_stable(keyed(c, by_quality())), by_quality());
    t.lemma_reverse_to_multiset();
    assert forall|i: int| 0 <= i < v.len() implies has_capability(cap)(#[trigger] v[i]) && in_table(bs, v[i]) by {
        assert(v[i] == t[t.len() - 1 - i]);
        assert(c.contains(t[t.len() - 1 - i]));
    }
    assert forall|b: int, k: int|
        0 <= b < bs.len() && 0 <= k < bs[b].entries@.len() && has_capability(cap)(#[trigger] bs[b].entries@[k]) implies v.contains(
        bs[b].entries@[k],
    ) by {
        let e = bs[b].entries@[k];
        assert(c.contains(e));
        let a = choose|a: int| 0 <= a < c.len() && c[a] == e;
        assert(t.contains(c[a]));
        let j = choose|j: int| 0 <= j < t.len() && t[j] == c[a];
        assert(v[t.len() - 1 - j] == t[j]);
    }
    assert forall|i: int, j: int| 0 <= i <= j < v.len() implies (#[trigger] v[i]).quality_score >= (#[trigger] v[j]).quality_score by {
        assert(v[i] == t[t.len() - 1 - i] && v[j] == t[t.len() - 1 - j]);
        assert(by_quality()(t[t.len() - 1 - j]) <= by_quality()(t[t.len() - 1 - i]));
    }
}

/// A capability search answers, of the table's entries, exactly those whose
/// flag of that name is set: "relay" the relays, "bootnode" the bootnodes,
/// "quic" the QUIC peers, "sharding" the sharding peers; any other name
/// answers nothing.
pub proof fn lemma_capability_flags(bs: Seq<DHTBucket>, cap: Seq<char>)
    ensures
        ({
            let v = sorted_by(capable_entries(bs, cap), by_quality()).reverse();
            &&& forall|b: int, k: int|
                0 <= b < bs.len() && 0 <= k < bs[b].entries@.len() ==> {
                    let e = #[trigger] bs[b].entries@[k];
                    &&& cap == "relay"@ ==> (v.contains(e) <==> e.capabilities.can_relay)
                    &&& cap == "bootnode"@ ==> (v.contains(e) <==> e.capabilities.can_bootnode)
                    &&& cap == "quic"@ ==> (v.contains(e) <==> e.capabilities.supports_quic)
                    &&& cap == "sharding"@ ==> (v.contains(e) <==> e.capabilities.supports_sharding)
                }
            &&& forall|i: int|
                0 <= i < v.len() ==> {
                    let e = #[trigger] v[i];
                    &&& cap == "relay"@ ==> e.capabilities.can_relay
                    &&& cap == "bootnode"@ ==> e.capabilities.can_bootnode
                    &&& cap == "quic"@ ==> e.capabilities.supports_quic
                    &&& cap == "sharding"@ ==> e.capabilities.supports_sharding
                }
            &&& cap != "relay"@ && cap != "bootnode"@ && cap != "quic"@ && cap != "sharding"@ ==> v.len() == 0
        }),
{
    reveal_strlit("relay");
    reveal_strlit("bootnode");
    reveal_strlit("quic");
    reveal_strlit("sharding");
    assert("relay"@.len() == 5 && "quic"@.len() == 4 && "bootnode"@.len() == 8 && "sharding"@.len() == 8);
    assert("bootnode"@[0] == 'b' && "sharding"@[0] == 's');
    lemma_capability_search(bs, cap);
    let v = sorted_by(capable_entries(bs, cap), by_quality()).reverse();
    assert forall|b: int, k: int| 0 <= b < bs.len() && 0 <= k < bs[b].entries@.len() implies {
        let e = #[trigger] bs[b].entries@[k];
        &&& cap == "relay"@ ==> (v.contains(e) <==> e.capabilities.can_relay)
        &&& cap == "bootnode"@ ==> (v.contains(e) <==> e.capabilities.can_bootnode)
        &&& cap == "quic"@ ==> (v.contains(e) <==> e.capabilities.supports_quic)
        &&& cap == "sharding"@ ==> (v.contains(e) <==> e.capabilities.supports_sharding)
    } by {
        let e = bs[b].entries@[k];
        if v.contains(e) {
            let i = choose|i: int| 0 <= i < v.len() && v[i] == e;
            assert(has_capability(cap)(v[i]));
        }
    }
    if !(cap == "relay"@ || cap == "bootnode"@ || cap == "quic"@ || cap == "sharding"@) && v.len() > 0 {
        assert(has_capability(cap)(v[0]));
    }
}

/// After a peer is removed, no entry of its id is left.
pub proof fn lemma_removed_peer_absent(s: Seq<DHTEntry>, peer_id: u128)
    ensures
        forall|k: int| 0 <= k < s.filter(other_than(peer_id)).len() ==> #[trigger] s.filter(other_than(peer_id))[k].peer_id != peer_id,
{
    assert forall|k: int| 0 <= k < s.filter(other_than(peer_id)).len() implies #[trigger] s.filter(other_than(peer_id))[k].peer_id != peer_id by {
        s.lemma_filter_pred(other_than(peer_id), k);
    }
}

/// `e` is an entry of one of the buckets.
pub open spec fn in_table(bs: Seq<DHTBucket>, e: DHTEntry) -> bool {
    exists|b: int, k: int| 0 <= b < bs.len() && 0 <= k < bs[b].entries@.len() && #[trigger] bs[b].entries@[k] == e
}

/// `a` is nearer to `target` than `b`, or as near and of at least its quality.
pub open spec fn nearer_or_better(target: u128, a: DHTEntry, b: DHTEntry) -> bool {
    ||| xor_distance(target, a.peer_id) < xor_distance(target, b.peer_id)
    ||| xor_distance(target, a.peer_id) == xor_distance(target, b.peer_id) && a.quality_score >= b.quality_score
}

/// The entries of a bucket are entries of the table.
proof fn lemma_bucket_in_table(bs: Seq<DHTBucket>, i: int)
    ensures
        forall|k: int| 0 <= k < bucket_at(bs, i).len() ==> in_table(bs, #[trigger] bucket_at(bs, i)[k]),
{
    assert forall|k: int| 0 <= k < bucket_at(bs, i).len() implies in_table(bs, #[trigger] bucket_at(bs, i)[k]) by {
        assert(bs[i].entries@[k] == bucket_at(bs, i)[k]);
    }
}

/// Gathering lookup candidates adds only entries of the table.
proof fn lemma_gather_in_table(bs: Seq<DHTBucket>, idx: int, count: int, offset: int, acc: Seq<DHTEntry>)
    requires
        forall|i: int| 0 <= i < acc.len() ==> in_table(bs, #[trigger] acc[i]),
    ensures
        forall|i: int|
            0 <= i < lookup_gather(bs, idx, count, offset, acc).len() ==> in_table(
                bs,
                #[trigger] lookup_gather(bs, idx, count, offset, acc)[i],
            ),
    decreases 8 - offset,
{
    if acc.len() < count && 0 <= offset < 8 {
        let plus = (idx + offset) % (DHT_KEY_SPACE as int);
        let minus = if idx >= offset { idx - offset } else { 0 };
        let acc1 = acc + bucket_at(bs, plus);
        let acc2 = if minus != idx && minus < DHT_KEY_SPACE { acc1 + bucket_at(bs, minus) } else { acc1 };
        lemma_bucket_in_table(bs, plus);
        lemma_bucket_in_table(bs, minus);
        assert forall|i: int| 0 <= i < acc1.len() implies in_table(bs, #[trigger] acc1[i]) by {
            if i >= acc.len() {
                assert(acc1[i] == bucket_at(bs, plus)[i - acc.len()]);
            }
        }
        assert forall|i: int| 0 <= i < acc2.len() implies in_table(bs, #[trigger] acc2[i]) by {
            if i >= acc1.len() {
                assert(acc2[i] == bucket_at(bs, minus)[i - acc1.len()]);
            }
        }
        lemma_gather_in_table(bs, idx, count, offset + 1, acc2);
        assert(lookup_gather(bs, idx, count, offset, acc) == lookup_gather(bs, idx, count, offset + 1, acc2));
    }
}

/// Gathering keeps what was gathered and, when it ends with fewer than
/// `count` candidates, has taken in every bucket from `offset` to 7 away
/// from `idx` on either side.
proof fn lemma_gather_reaches(bs: Seq<DHTBucket>, idx: int, count: int, offset: int, acc: Seq<DHTEntry>)
    requires
        1 <= offset,
        0 <= idx < 64,
    ensures
        lookup_gather(bs, idx, count, offset, acc).len() >= acc.len(),
        forall|x: DHTEntry| acc.contains(x) ==> #[trigger] lookup_gather(bs, idx, count, offset, acc).contains(x),
        lookup_gather(bs, idx, count, offset, acc).len() < count ==> forall|b: int, k: int|
            ((idx + offset <= b < idx + 8) || (0 <= b && idx - 8 < b <= idx - offset)) && 0 <= k < bucket_at(bs, b).len()
                ==> lookup_gather(bs, idx, count, offset, acc).contains(#[trigger] bucket_at(bs, b)[k]),
    decreases 8 - offset,
{
    if acc.len() < count && 0 <= offset < 8 {
        let plus = (idx + offset) % (DHT_KEY_SPACE as int);
        let minus = if idx >= offset { idx - offset } else { 0 };
        let acc1 = acc + bucket_at(bs, plus);
        let acc2 = if minus != idx && minus < DHT_KEY_SPACE { acc1 + bucket_at(bs, minus) } else { acc1 };
        assert(plus == idx + offset);
        let r = lookup_gather(bs, idx, count, offset + 1, acc2);
        lemma_gather_reaches(bs, idx, count, offset + 1, acc2);
        assert(lookup_gather(bs, idx, count, offset, acc) == r);
        assert forall|x: DHTEntry| acc.contains(x) implies acc2.contains(x) by {
            let j = choose|j: int| 0 <= j < acc.len() && acc[j] == x;
            assert(acc1[j] == x);
            assert(acc2[j] == x);
        }
        assert forall|k: int| 0 <= k < bucket_at(bs, plus).len() implies acc2.contains(#[trigger] bucket_at(bs, plus)[k]) by {
            assert(acc1[acc.len() + k] == bucket_at(bs, plus)[k]);
            assert(acc2[acc.len() + k] == bucket_at(bs, plus)[k]);
        }
        if idx >= offset {
            assert forall|k: int| 0 <= k < bucket_at(bs, minus).len() implies acc2.contains(#[trigger] bucket_at(bs, minus)[k]) by {
                assert(acc2[acc1.len() + k] == bucket_at(bs, minus)[k]);
            }
        }
        assert(acc2.len() >= acc.len());
    }
}

/// `e` is an entry of a bucket within 7 of bucket `idx`.
pub open spec fn in_window(bs: Seq<DHTBucket>, idx: int, e: DHTEntry) -> bool {
    exists|b: int, k: int|
        0 <= b < bs.len() && idx - 7 <= b <= idx + 7 && 0 <= k < bs[b].entries@.len() && #[trigger] bs[b].entries@[k] == e
}

/// Gathering around bucket `idx` adds only entries of buckets within 7 of it.
proof fn lemma_gather_window(bs: Seq<DHTBucket>, idx: int, count: int, offset: int, acc: Seq<DHTEntry>)
    requires
        1 <= offset,
        0 <= idx < 64,
        forall|i: int| 0 <= i < acc.len() ==> in_window(bs, idx, #[trigger] acc[i]),
    ensures
        forall|i: int|
            0 <= i < lookup_gather(bs, idx, count, offset, acc).len() ==> in_window(
                bs,
                idx,
                #[trigger] lookup_gather(bs, idx, count, offset, acc)[i],
            ),
    decreases 8 - offset,
{
    if acc.len() < count && 0 <= offset < 8 {
        let plus = (idx + offset) % (DHT_KEY_SPACE as int);
        let minus = if idx >= offset { idx - offset } else { 0 };
        let acc1 = acc + bucket_at(bs, plus);
        let acc2 = if minus != idx && minus < DHT_KEY_SPACE { acc1 + bucket_at(bs, minus) } else { acc1 };
        assert(plus == idx + offset);
        assert forall|i: int| 0 <= i < acc1.len() implies in_window(bs, idx, #[trigger] acc1[i]) by {
            if i >= acc.len() {
                assert(bs[plus].entries@[i - acc.len()] == acc1[i]);
            }
        }
        assert forall|i: int| 0 <= i < acc2.len() implies in_window(bs, idx, #[trigger] acc2[i]) by {
            if i >= acc1.len() {
                assert(bs[minus].entries@[i - acc1.len()] == acc2[i]);
            }
        }
        lemma_gather_window(bs, idx, count, offset + 1, acc2);
        assert(lookup_gather(bs, idx, count, offset, acc) == lookup_gather(bs, idx, count, offset + 1, acc2));
    }
}

/// A lookup answers only entries of buckets within 7 of the target's bucket,
/// and only entries of the target's own bucket when that bucket alone holds
/// at least `count` entries.
pub proof fn lemma_lookup_window(bs: Seq<DHTBucket>, local: u128, target: u128, count: int)
    requires
        0 <= count,
    ensures
        ({
            let idx = bucket_index_of(local, target);
            let v = at_most(sorted_by(lookup_candidates(bs, idx, count), by_closeness(target)), count);
            &&& forall|i: int| 0 <= i < v.len() ==> in_window(bs, idx, #[trigger] v[i])
            &&& (0 <= idx < bs.len() && bs[idx].entries@.len() >= count) ==> forall|i: int|
                0 <= i < v.len() ==> bs[idx].entries@.contains(#[trigger] v[i])
        }),
{
    let idx = bucket_index_of(local, target);
    lemma2_to64();
    lemma_highest_bit_below(xor_distance(local, target), 64);
    let init = bucket_at(bs, idx);
    let c = lookup_candidates(bs, idx, count);
    let t = sorted_by(c, by_closeness(target));
    let v = at_most(t, count);
    assert forall|i: int| 0 <= i < init.len() implies in_window(bs, idx, #[trigger] init[i]) by {
        assert(bs[idx].entries@[i] == init[i]);
    }
    lemma_gather_window(bs, idx, count, 1, init);
    lemma_sorted_by(c, by_closeness(target));
    assert forall|i: int| 0 <= i < v.len() implies in_window(bs, idx, #[trigger] v[i]) by {
        assert(v[i] == t[i]);
        assert(c.contains(t[i]));
    }
    if 0 <= idx < bs.len() && bs[idx].entries@.len() >= count {
        assert(c == init);
        assert forall|i: int| 0 <= i < v.len() implies bs[idx].entries@.contains(#[trigger] v[i]) by {
            assert(v[i] == t[i]);
            assert(c.contains(t[i]));
        }
    }
}

/// A lookup that answers fewer than `count` peers has searched every bucket
/// within 7 of the target's bucket: each entry of such a bucket is among the
/// answers.
pub proof fn lemma_lookup_complete(bs: Seq<DHTBucket>, local: u128, target: u128, count: int)
    ensures
        ({
            let idx = bucket_index_of(local, target);
            let v = at_most(sorted_by(lookup_candidates(bs, idx, count), by_closeness(target)), count);
            v.len() < count ==> forall|b: int, k: int|
                0 <= b < bs.len() && idx - 7 <= b <= idx + 7 && 0 <= k < bs[b].entries@.len() ==> v.contains(
                    #[trigger] bs[b].entries@[k],
                )
        }),
{
    let idx = bucket_index_of(local, target);
    lemma2_to64();
    lemma_highest_bit_below(xor_distance(local, target), 64);
    let init = bucket_at(bs, idx);
    let c = lookup_candidates(bs, idx, count);
    let t = sorted_by(c, by_closeness(target));
    let v = at_most(t, count);
    lemma_gather_reaches(bs, idx, count, 1, init);
    lemma_sorted_by(c, by_closeness(target));
    if v.len() < count {
        assert(v == t);
        assert forall|b: int, k: int| 0 <= b < bs.len() && idx - 7 <= b <= idx + 7 && 0 <= k < bs[b].entries@.len() implies v.contains(
            #[trigger] bs[b].entries@[k],
        ) by {
            let e = bs[b].entries@[k];
            assert(bucket_at(bs, b)[k] == e);
            if b == idx {
                assert(init[k] == e);
                assert(init.contains(e));
            }
            assert(c.contains(e));
            let a = choose|a: int| 0 <= a < c.len() && c[a] == e;
            assert(t.contains(c[a]));
        }
    }
}

/// A lookup answers at most `count` entries of the table, nearest to the
/// target first and, at equal distance, best quality first.
pub proof fn lemma_lookup_answer(bs: Seq<DHTBucket>, local: u128, target: u128, count: int)
    requires
        0 <= count,
    ensures
        ({
            let v = at_most(
                sorted_by(lookup_candidates(bs, bucket_index_of(local, target), count), by_closeness(target)),
                count,
            );
            &&& v.len() <= count
            &&& forall|i: int| 0 <= i < v.len() ==> in_table(bs, #[trigger] v[i])
            &&& forall|i: int, j: int| 0 <= i < j < v.len() ==> nearer_or_better(target, #[trigger] v[i], #[trigger] v[j])
        }),
{
    let idx = bucket_index_of(local, target);
    let c = lookup_candidates(bs, idx, count);
    let t = sorted_by(c, by_closeness(target));
    let v = at_most(t, count);
    lemma_bucket_in_table(bs, idx);
    lemma_gather_in_table(bs, idx, count, 1, bucket_at(bs, idx));
    lemma_sorted_by(c, by_closeness(target));
    assert forall|i: int| 0 <= i < v.len() implies in_table(bs, #[trigger] v[i]) by {
        assert(v[i] == t[i]);
        assert(c.contains(t[i]));
    }
    assert forall|i: int, j: int| 0 <= i < j < v.len() implies nearer_or_better(target, #[trigger] v[i], #[trigger] v[j]) by {
        assert(v[i] == t[i] && v[j] == t[j]);
        let a = t[i];
        let b = t[j];
        assert(by_closeness(target)(a) <= by_closeness(target)(b));
        let da = xor_distance(target, a.peer_id) as int;
        let db = xor_distance(target, b.peer_id) as int;
        assert(by_closeness(target)(a) == da * 256 + (255 - a.quality_score as int));
        assert(by_closeness(target)(b) == db * 256 + (255 - b.quality_score as int));
    }
}

} // verus!
