//! Gossip protocol: messages spread by forwarding each to a few randomly
//! chosen peers (fan-out), limited by a hop count, with a cache of seen
//! message ids for deduplication.
//!
//! Cache times are milliseconds of a monotonic clock; message timestamps are
//! seconds since the Unix epoch. Both are read by the caller, except where a
//! function says otherwise.

use rand::Rng;
use std::collections::HashMap;
use vstd::prelude::*;
use vstd::std_specs::iter::IteratorSpec;

use crate::clock::unix_time_secs;
use crate::ids::new_uuid;
use crate::network::error::NetworkError;
use crate::network::types::PeerInfo;
use crate::sorting::{keys_sorted, lemma_sort_stable, sort_stable, stable_sort_by_key};
use crate::text::{decimal, push_decimal, push_str, str_eq, string_of};

verus! {

broadcast use vstd::std_specs::hash::group_hash_axioms;

/// Cache size above which the oldest entries are evicted.
pub const CACHE_LIMIT: usize = 10000;

/// Entries kept by an eviction.
pub const CACHE_KEEP: usize = 5000;

/// Messages older than this (in seconds) are invalid.
pub const MAX_MESSAGE_AGE_SECS: u64 = 3600;

/// Types of gossip messages.
#[derive(Debug)]
pub enum GossipMessageType {
    /// Transaction broadcast
    Transaction,
    /// Block announcement
    Block,
    /// State update
    StateUpdate,
    /// Peer discovery
    PeerDiscovery,
    /// Heartbeat
    Heartbeat,
    /// Custom message
    Custom(String),
}

/// A gossip message with its metadata.
#[derive(Debug)]
pub struct GossipMessage {
    /// Unique message ID
    pub id: u128,
    /// Sender peer ID
    pub sender_id: u128,
    /// Message type
    pub message_type: GossipMessageType,
    /// Message payload
    pub payload: Vec<u8>,
    /// Creation time (seconds since the Unix epoch)
    pub timestamp: u64,
    /// How many hops the message may travel
    pub ttl: u8,
    /// Hops travelled so far
    pub hop_count: u8,
    /// Message signature
    pub signature: Option<Vec<u8>>,
    /// Gossip topic
    pub topic: String,
}

impl Clone for GossipMessageType {
    fn clone(&self) -> (r: Self)
        ensures
            r == *self,
    {
        match self {
            GossipMessageType::Transaction => GossipMessageType::Transaction,
            GossipMessageType::Block => GossipMessageType::Block,
            GossipMessageType::StateUpdate => GossipMessageType::StateUpdate,
            GossipMessageType::PeerDiscovery => GossipMessageType::PeerDiscovery,
            GossipMessageType::Heartbeat => GossipMessageType::Heartbeat,
            GossipMessageType::Custom(t) => GossipMessageType::Custom(t.clone()),
        }
    }
}

/// A copy of some bytes.
fn copy_bytes(v: &Vec<u8>) -> (r: Vec<u8>)
    ensures
        r@ == v@,
{
    let mut out: Vec<u8> = Vec::new();
    let mut i: usize = 0;
    while i < v.len()
        invariant
            i <= v@.len(),
            out@ == v@.subrange(0, i as int),
        decreases v@.len() - i,
    {
        out.push(v[i]);
        i = i + 1;
        assert(out@ =~= v@.subrange(0, i as int));
    }
    assert(out@ =~= v@);
    out
}

/// Two messages with the same fields (byte fields by their contents).
pub open spec fn same_message(a: GossipMessage, b: GossipMessage) -> bool {
    &&& a.id == b.id
    &&& a.sender_id == b.sender_id
    &&& a.message_type == b.message_type
    &&& a.payload@ == b.payload@
    &&& a.timestamp == b.timestamp
    &&& a.ttl == b.ttl
    &&& a.hop_count == b.hop_count
    &&& match (a.signature, b.signature) {
        (Some(x), Some(y)) => x@ == y@,
        (None, None) => true,
        _ => false,
    }
    &&& a.topic == b.topic
}

/// `new` holds the messages of `old` and a copy of `m` under its id, for
/// the ids in `keep`.
pub open spec fn messages_after(
    old: Map<u128, GossipMessage>,
    m: GossipMessage,
    keep: Set<u128>,
    new: Map<u128, GossipMessage>,
) -> bool {
    &&& new.dom() == keep
    &&& forall|k: u128| #[trigger] new.contains_key(k) ==> if k == m.id {
        same_message(new[k], m)
    } else {
        new[k] == old[k]
    }
}

impl Clone for GossipMessage {
    fn clone(&self) -> (r: Self)
        ensures
            same_message(r, *self),
    {
        let signature = match &self.signature {
            Some(b) => Some(copy_bytes(b)),
            None => None,
        };
        GossipMessage {
            id: self.id,
            sender_id: self.sender_id,
            message_type: self.message_type.clone(),
            payload: copy_bytes(&self.payload),
            timestamp: self.timestamp,
            ttl: self.ttl,
            hop_count: self.hop_count,
            signature,
            topic: self.topic.clone(),
        }
    }
}

/// Gossip protocol configuration.
#[derive(Debug, Clone, Copy)]
pub struct GossipConfig {
    /// Fan-out factor (how many peers to forward to)
    pub fan_out: u8,
    /// Message TTL (max hops)
    pub max_ttl: u8,
    /// Heartbeat interval (ms)
    pub heartbeat_interval_ms: u64,
    /// Message cache TTL (ms)
    pub message_cache_ttl_ms: u64,
    /// Maximum message size (bytes)
    pub max_message_size: usize,
    /// Enable message deduplication
    pub enable_dedup: bool,
    /// Enable message validation
    pub enable_validation: bool,
}

impl Default for GossipConfig {
    /// Fan-out 5, 10 hops, heartbeat every 30 s, cache entries kept 5 minutes,
    /// messages up to 1 MiB, deduplication and validation on.
    fn default() -> (r: Self)
        ensures
            r == (GossipConfig {
                fan_out: 5,
                max_ttl: 10,
                heartbeat_interval_ms: 30000,
                message_cache_ttl_ms: 300000,
                max_message_size: 1048576,
                enable_dedup: true,
                enable_validation: true,
            }),
    {
        GossipConfig {
            fan_out: 5,
            max_ttl: 10,
            heartbeat_interval_ms: 30000,
            message_cache_ttl_ms: 300000,
            max_message_size: 1048576,
            enable_dedup: true,
            enable_validation: true,
        }
    }
}

/// Gossip counters (wrapping at 2^64).
#[derive(Debug, Clone, Copy, PartialEq, Eq, Structural)]
pub struct GossipStats {
    /// Messages accepted
    pub messages_received: u64,
    /// Messages forwarded
    pub messages_forwarded: u64,
    /// Messages dropped
    pub messages_dropped: u64,
    /// Active topics
    pub active_topics: usize,
}

/// What became of an incoming message.
#[derive(Debug)]
pub enum GossipDisposition {
    /// Its id was in the cache.
    Duplicate,
    /// It failed validation.
    Invalid,
    /// It had travelled all its hops.
    Expired,
    /// It was accepted: the copy to forward (one more hop travelled) and the
    /// ids of the peers to forward it to.
    Delivered { forward: GossipMessage, to: Vec<u128> },
}

/// Adding one to a counter, wrapping at 2^64.
pub open spec fn bump(c: u64) -> u64 {
    if c == u64::MAX { 0 } else { (c + 1) as u64 }
}

/// Whether a message is valid at `now_secs`: its payload is within the size
/// limit and it is at most an hour old (a message from the future counts as new).
pub open spec fn message_valid(config: GossipConfig, payload_len: int, timestamp: u64, now_secs: u64) -> bool {
    &&& payload_len <= config.max_message_size
    &&& (if now_secs >= timestamp { now_secs - timestamp } else { 0 }) <= MAX_MESSAGE_AGE_SECS
}

/// A message is valid exactly when its payload is within the configured
/// size and it is at most an hour (3600 s) old: an oversized payload or an
/// older message is rejected, whatever else holds.
pub proof fn lemma_validity_limits(config: GossipConfig, payload_len: int, timestamp: u64, now_secs: u64)
    ensures
        payload_len > config.max_message_size ==> !message_valid(config, payload_len, timestamp, now_secs),
        now_secs > timestamp + 3600 ==> !message_valid(config, payload_len, timestamp, now_secs),
        payload_len <= config.max_message_size && now_secs <= timestamp + 3600 ==> message_valid(
            config,
            payload_len,
            timestamp,
            now_secs,
        ),
{
}

/// The error text for an oversized payload.
pub open spec fn too_large_text(n: nat) -> Seq<char> {
    "Message too large: "@ + decimal(n) + " bytes"@
}

/// A cache after an insertion of `id` at `now`: the map with the entry added
/// when it stays within [`CACHE_LIMIT`]; otherwise [`CACHE_KEEP`] of its
/// entries, none older than any entry dropped.
pub open spec fn cache_after_insert(old: Map<u128, u64>, id: u128, now: u64, new: Map<u128, u64>) -> bool {
    let full = old.insert(id, now);
    if full.len() <= CACHE_LIMIT {
        new == full
    } else {
        evicted_from(full, new)
    }
}

/// `new` keeps [`CACHE_KEEP`] entries of `full`, unchanged, and every entry
/// dropped is no newer than every entry kept.
pub open spec fn evicted_from(full: Map<u128, u64>, new: Map<u128, u64>) -> bool {
    &&& new.dom().subset_of(full.dom())
    &&& new.len() == CACHE_KEEP
    &&& forall|k: u128| #[trigger] new.contains_key(k) ==> new[k] == full[k]
    &&& forall|k: u128, j: u128|
        #[trigger] new.contains_key(k) && full.contains_key(j) && !new.contains_key(j) ==> #[trigger] full[j]
            <= full[k]
}

/// The ids of a map, each once.
fn map_ids(m: &HashMap<u128, u64>) -> (r: Vec<u128>)
    ensures
        r@.to_set() == m@.dom(),
        r@.no_duplicates(),
        r@.len() == m@.len(),
{
    let mut out: Vec<u128> = Vec::new();
    let ghost ks = vstd::std_specs::hash::spec_keys_iter(m).remaining();
    for k in it: m.keys()
        invariant
            it.seq() == ks,
            out@ == ks.take(it.index() as int).map_values(|k: &u128| *k),
    {
        out.push(*k);
    }
    proof {
        assert(out@ =~= ks.unref());
        out@.unique_seq_to_set();
    }
    out
}

/// The ids of the cached messages, each once.
fn message_ids(m: &HashMap<u128, GossipMessage>) -> (r: Vec<u128>)
    ensures
        r@.to_set() == m@.dom(),
        r@.no_duplicates(),
{
    let mut out: Vec<u128> = Vec::new();
    let ghost ks = vstd::std_specs::hash::spec_keys_iter(m).remaining();
    for k in it: m.keys()
        invariant
            it.seq() == ks,
            out@ == ks.take(it.index() as int).map_values(|k: &u128| *k),
    {
        out.push(*k);
    }
    proof {
        assert(out@ =~= ks.unref());
    }
    out
}

/// Drops all but the [`CACHE_KEEP`] newest entries (see [`evicted_from`]).
fn evict_oldest(cache: &mut HashMap<u128, u64>)
    requires
        old(cache)@.len() > CACHE_LIMIT,
    ensures
        evicted_from(old(cache)@, final(cache)@),
{
    let ghost full = cache@;
    let ids = map_ids(cache);
    let mut pairs: Vec<(u128, u128)> = Vec::new();
    let mut i: usize = 0;
    while i < ids.len()
        invariant
            i <= ids@.len(),
            cache@ == full,
            ids@.to_set() == full.dom(),
            pairs@.len() == i,
            forall|k: int| 0 <= k < i ==> #[trigger] pairs@[k] == (full[ids@[k]] as u128, ids@[k]),
        decreases ids@.len() - i,
    {
        assert(ids@.to_set().contains(ids@[i as int]));
        let at = match cache.get(&ids[i]) {
            Some(t) => *t,
            None => 0,
        };
        pairs.push((at as u128, ids[i]));
        i = i + 1;
    }
    let ghost ps = pairs@;
    let sorted = stable_sort_by_key(pairs);
    let ghost ss = sorted@;
    proof {
        lemma_sort_stable(ps);
        broadcast use vstd::seq_lib::group_to_multiset_ensures;
        // Each pair holds an id of the cache with its time, and the ids differ.
        assert(ps.no_duplicates()) by {
            assert forall|a: int, b: int| 0 <= a < ps.len() && 0 <= b < ps.len() && a != b implies ps[a] != ps[b] by {
                assert(ids@[a] != ids@[b]);
            }
        }
        ps.lemma_multiset_has_no_duplicates();
        assert forall|x: (u128, u128)| ss.to_multiset().contains(x) implies ss.to_multiset().count(x) == 1 by {
            assert(ps.to_multiset().contains(x));
        }
        ss.lemma_multiset_has_no_duplicates_conv();
        assert forall|a: int| 0 <= a < ss.len() implies full.contains_key(#[trigger] ss[a].1) && ss[a].0 == full[ss[a].1] as u128 by {
            assert(ss.contains(ss[a]));
            assert(ss.to_multiset().count(ss[a]) > 0);
            assert(ps.to_multiset().count(ss[a]) > 0);
            assert(ps.contains(ss[a]));
            let b = choose|b: int| 0 <= b < ps.len() && ps[b] == ss[a];
            assert(ids@.to_set().contains(ids@[b]));
        }
        assert forall|k: u128| full.contains_key(k) implies exists|a: int| 0 <= a < ss.len() && #[trigger] ss[a].1 == k by {
            assert(ids@.to_set().contains(k));
            let b = choose|b: int| 0 <= b < ids@.len() && ids@[b] == k;
            assert(ps[b] == (full[k] as u128, k));
            assert(ps.contains(ps[b]));
            assert(ps.to_multiset().count(ps[b]) > 0);
            assert(ss.to_multiset().count(ps[b]) > 0);
            assert(ss.contains(ps[b]));
            let a = choose|a: int| 0 <= a < ss.len() && ss[a] == ps[b];
            assert(ss[a].1 == k);
        }
    }
    let remove_count = sorted.len() - CACHE_KEEP;
    let mut r: usize = 0;
    while r < remove_count
        invariant
            r <= remove_count,
            remove_count == ss.len() - CACHE_KEEP,
            ss == sorted@,
            ss.len() == full.len(),
            ss.no_duplicates(),
            forall|a: int| 0 <= a < ss.len() ==> full.contains_key(#[trigger] ss[a].1) && ss[a].0 == full[ss[a].1] as u128,
            forall|k: u128|
                #[trigger] cache@.contains_key(k) <==> full.contains_key(k) && !(exists|a: int| 0 <= a < r && ss[a].1 == k),
            forall|k: u128| #[trigger] cache@.contains_key(k) ==> cache@[k] == full[k],
            cache@.len() == full.len() - r,
        decreases remove_count - r,
    {
        let k = sorted[r].1;
        proof {
            assert forall|a: int| 0 <= a < r implies ss[a].1 != k by {
                if ss[a].1 == k {
                    assert(ss[a] == ss[r as int]);
                }
            }
            assert(cache@.contains_key(k));
        }
        let ghost before = cache@;
        cache.remove(&k);
        proof {
            assert(cache@ == before.remove(k));
            assert(cache@.dom() == before.dom().remove(k));
        }
        r = r + 1;
    }
    proof {
        assert(cache@.dom().subset_of(full.dom()));
        assert forall|k: u128, j: u128|
            #[trigger] cache@.contains_key(k) && full.contains_key(j) && !cache@.contains_key(j) implies #[trigger] full[j]
                <= full[k] by {
            let x = choose|a: int| 0 <= a < r && ss[a].1 == j;
            let y = choose|a: int| 0 <= a < ss.len() && #[trigger] ss[a].1 == k;
            if y < r {
                assert(exists|a: int| 0 <= a < r && ss[a].1 == k);
            }
            assert(keys_sorted(ss));
            assert(ss[x].0 <= ss[y].0);
        }
    }
}

/// A random number below `n` (`rand::Rng::gen_range(0..n)` on the thread's
/// generator). Only the range is stated: the value is random.
#[verifier::external_body]
fn random_below(n: usize) -> (r: usize)
    requires
        n > 0,
    ensures
        r < n,
{
    rand::thread_rng().gen_range(0..n)
}

/// `chosen` are distinct elements of `peers`, each picked by position.
pub open spec fn picked_from(peers: Seq<PeerInfo>, chosen: Seq<PeerInfo>) -> bool {
    exists|idx: Seq<int>|
        #![trigger idx.len()]
        idx.len() == chosen.len() && idx.no_duplicates() && forall|i: int|
            0 <= i < idx.len() ==> 0 <= #[trigger] idx[i] < peers.len() && chosen[i] == peers[idx[i]]
}

/// The ids of a list of peers.
pub open spec fn ids_of(peers: Seq<PeerInfo>) -> Seq<u128> {
    peers.map_values(|p: PeerInfo| p.id)
}

/// `ids` are the ids of the fan-out peers picked among `peers`: all of them
/// when there are at most `fan_out`, else `fan_out` distinct ones.
pub open spec fn fanout_ids(peers: Seq<PeerInfo>, fan_out: u8, ids: Seq<u128>) -> bool {
    exists|chosen: Seq<PeerInfo>|
        #![trigger ids_of(chosen)]
        ids == ids_of(chosen) && (peers.len() <= fan_out ==> chosen == peers) && (peers.len() > fan_out
            ==> chosen.len() == fan_out && picked_from(peers, chosen))
}

/// A message is forwarded to as many peers as the fan-out allows (all of
/// them when there are no more), each of them one of the known peers.
pub proof fn lemma_fanout_targets(peers: Seq<PeerInfo>, fan_out: u8, ids: Seq<u128>)
    requires
        fanout_ids(peers, fan_out, ids),
    ensures
        ids.len() == if peers.len() <= fan_out { peers.len() } else { fan_out as nat },
        forall|i: int| 0 <= i < ids.len() ==> ids_of(peers).contains(#[trigger] ids[i]),
{
    let chosen = choose|chosen: Seq<PeerInfo>|
        #![trigger ids_of(chosen)]
        ids == ids_of(chosen) && (peers.len() <= fan_out ==> chosen == peers) && (peers.len() > fan_out
            ==> chosen.len() == fan_out && picked_from(peers, chosen));
    assert(ids.len() == chosen.len());
    assert forall|i: int| 0 <= i < ids.len() implies ids_of(peers).contains(#[trigger] ids[i]) by {
        assert(ids[i] == chosen[i].id);
        if peers.len() <= fan_out {
            assert(ids_of(peers)[i] == ids[i]);
        } else {
            let idx = choose|idx: Seq<int>|
                #![trigger idx.len()]
                idx.len() == chosen.len() && idx.no_duplicates() && forall|i: int|
                    0 <= i < idx.len() ==> 0 <= #[trigger] idx[i] < peers.len() && chosen[i] == peers[idx[i]];
            assert(0 <= idx[i] < peers.len() && chosen[i] == peers[idx[i]]);
            assert(ids_of(peers)[idx[i]] == ids[i]);
        }
    }
}

/// The gossip service.
#[derive(Debug)]
pub struct GossipService {
    /// Current node ID
    pub node_id: u128,
    /// Configuration
    pub config: GossipConfig,
    /// Seen message ids, with the time each was cached (ms)
    pub message_cache: HashMap<u128, u64>,
    /// The cached messages, by id (the same ids as `message_cache`)
    pub cached: HashMap<u128, GossipMessage>,
    /// Topic subscriptions, each once
    pub subscriptions: Vec<String>,
    /// Statistics
    pub stats: GossipStats,
    /// Running flag
    pub running: bool,
}

impl GossipService {
    /// The seen message ids with their cache times.
    pub open spec fn cache(&self) -> Map<u128, u64> {
        self.message_cache@
    }

    /// The cached messages by id.
    pub open spec fn cached_messages(&self) -> Map<u128, GossipMessage> {
        self.cached@
    }

    /// The subscribed topics.
    pub open spec fn topics(&self) -> Seq<Seq<char>> {
        self.subscriptions@.map_values(|t: String| t@)
    }

    /// The service's invariant: the cache is within [`CACHE_LIMIT`] and each
    /// topic is subscribed once.
    pub open spec fn well_formed(&self) -> bool {
        &&& self.cache().len() <= CACHE_LIMIT
        &&& self.cache().dom().finite()
        &&& self.cached_messages().dom() == self.cache().dom()
        &&& self.topics().no_duplicates()
    }

    /// A stopped service with an empty cache and no subscriptions.
    pub fn new(node_id: u128, config: GossipConfig) -> (r: Self)
        ensures
            r.well_formed(),
            r.node_id == node_id,
            r.config == config,
            r.cache() == Map::<u128, u64>::empty(),
            r.cached_messages() == Map::<u128, GossipMessage>::empty(),
            r.topics() == Seq::<Seq<char>>::empty(),
            r.stats == (GossipStats { messages_received: 0, messages_forwarded: 0, messages_dropped: 0, active_topics: 0 }),
            !r.running,
    {
        let r = GossipService {
            node_id,
            config,
            message_cache: HashMap::new(),
            cached: HashMap::new(),
            subscriptions: Vec::new(),
            stats: GossipStats { messages_received: 0, messages_forwarded: 0, messages_dropped: 0, active_topics: 0 },
            running: false,
        };
        assert(r.topics() =~= Seq::<Seq<char>>::empty());
        r
    }

    /// Starts the service; fails when it runs already.
    pub fn start(&mut self) -> (r: Result<(), NetworkError>)
        requires
            old(self).well_formed(),
        ensures
            final(self).well_formed(),
            old(self).running ==> (r matches Err(NetworkError::ServiceAlreadyStarted)) && *final(self) == *old(self),
            !old(self).running ==> r is Ok && *final(self) == (GossipService { running: true, ..*old(self) }),
    {
        if self.running {
            return Err(NetworkError::ServiceAlreadyStarted);
        }
        self.running = true;
        Ok(())
    }

    /// Stops the service, clearing the cache and the subscriptions; a stopped
    /// service is left as it is.
    pub fn stop(&mut self) -> (r: Result<(), NetworkError>)
        requires
            old(self).well_formed(),
        ensures
            final(self).well_formed(),
            r is Ok,
            !old(self).running ==> *final(self) == *old(self),
            old(self).running ==> {
                &&& !final(self).running
                &&& final(self).cache() == Map::<u128, u64>::empty()
                &&& final(self).cached_messages() == Map::<u128, GossipMessage>::empty()
                &&& final(self).topics() == Seq::<Seq<char>>::empty()
                &&& final(self).node_id == old(self).node_id
                &&& final(self).config == old(self).config
                &&& final(self).stats == old(self).stats
            },
    {
        if !self.running {
            return Ok(());
        }
        self.message_cache.clear();
        self.cached.clear();
        self.subscriptions = Vec::new();
        self.running = false;
        assert(self.topics() =~= Seq::<Seq<char>>::empty());
        Ok(())
    }

    /// Keeps only the cached messages whose ids are in the cache.
    fn prune_messages(&mut self)
        ensures
            final(self).cached@ == old(self).cached@.restrict(old(self).message_cache@.dom()),
            final(self).message_cache == old(self).message_cache,
            final(self).subscriptions == old(self).subscriptions,
            final(self).node_id == old(self).node_id,
            final(self).config == old(self).config,
            final(self).stats == old(self).stats,
            final(self).running == old(self).running,
    {
        let ids = message_ids(&self.cached);
        let ghost start = self.cached@;
        let mut n: usize = 0;
        while n < ids.len()
            invariant
                n <= ids@.len(),
                ids@.to_set() == start.dom(),
                start == old(self).cached@,
                self.message_cache == old(self).message_cache,
                self.subscriptions == old(self).subscriptions,
                self.node_id == old(self).node_id,
                self.config == old(self).config,
                self.stats == old(self).stats,
                self.running == old(self).running,
                self.cached@ == start.restrict(
                    start.dom().filter(
                        |k: u128| !(exists|m: int| 0 <= m < n && ids@[m] == k) || self.message_cache@.contains_key(k),
                    ),
                ),
            decreases ids@.len() - n,
        {
            let k = ids[n];
            if !self.message_cache.contains_key(&k) {
                self.cached.remove(&k);
            }
            n = n + 1;
            proof {
                assert(self.cached@ =~= start.restrict(
                    start.dom().filter(
                        |j: u128| !(exists|m: int| 0 <= m < n && ids@[m] == j) || self.message_cache@.contains_key(j),
                    ),
                )) by {
                    assert forall|j: u128| #[trigger] start.contains_key(j) implies ((exists|m: int| 0 <= m < n && ids@[m] == j)
                        <==> ((exists|m: int| 0 <= m < n - 1 && ids@[m] == j) || j == k)) by {
                        if j == k {
                            assert(ids@[n - 1] == k);
                        }
                        if exists|m: int| 0 <= m < n && ids@[m] == j {
                            let m = choose|m: int| 0 <= m < n && ids@[m] == j;
                            if m == n - 1 {
                                assert(j == k);
                            }
                        }
                    }
                }
            }
        }
        proof {
            assert forall|j: u128| #[trigger] start.contains_key(j) implies (exists|m: int| 0 <= m < n && ids@[m] == j) by {
                assert(ids@.to_set().contains(j));
            }
            assert(self.cached@ =~= start.restrict(old(self).message_cache@.dom()));
        }
    }

    /// Caches a message as seen at `now_ms`, evicting the oldest entries when
    /// the cache grows past [`CACHE_LIMIT`].
    fn cache_message(&mut self, message: GossipMessage, now_ms: u64)
        requires
            old(self).well_formed(),
        ensures
            final(self).well_formed(),
            cache_after_insert(old(self).cache(), message.id, now_ms, final(self).cache()),
            final(self).cached_messages() == old(self).cached_messages().insert(message.id, message).restrict(
                final(self).cache().dom(),
            ),
            final(self).topics() == old(self).topics(),
            final(self).node_id == old(self).node_id,
            final(self).config == old(self).config,
            final(self).stats == old(self).stats,
            final(self).running == old(self).running,
    {
        let id = message.id;
        let ghost m = message;
        self.message_cache.insert(id, now_ms);
        self.cached.insert(id, message);
        if self.message_cache.len() > CACHE_LIMIT {
            evict_oldest(&mut self.message_cache);
            self.prune_messages();
            assert(self.cached@.dom() =~= self.message_cache@.dom());
        } else {
            assert(self.cached@ =~= old(self).cached_messages().insert(id, m).restrict(self.message_cache@.dom()));
        }
    }

    /// Whether a message id is in the cache.
    pub fn is_message_seen(&self, message_id: &u128) -> (r: bool)
        ensures
            r == self.cache().contains_key(*message_id),
    {
        self.message_cache.contains_key(message_id)
    }

    /// Whether a message is valid at `now_secs` (see [`message_valid`]).
    pub fn validate_message(&self, message: &GossipMessage, now_secs: u64) -> (r: Result<bool, NetworkError>)
        ensures
            r == Ok::<bool, NetworkError>(message_valid(self.config, message.payload@.len() as int, message.timestamp, now_secs)),
    {
        if message.payload.len() > self.config.max_message_size {
            return Ok(false);
        }
        if now_secs.saturating_sub(message.timestamp) > MAX_MESSAGE_AGE_SECS {
            return Ok(false);
        }
        Ok(true)
    }

    /// Picks up to `fan_out` peers: all of them, in order, when there are at
    /// most `fan_out`; otherwise `fan_out` distinct ones at random.
    pub fn select_peers_for_fanout(peers: &[PeerInfo], fan_out: u8) -> (r: Vec<PeerInfo>)
        ensures
            peers@.len() <= fan_out ==> r@ == peers@,
            peers@.len() > fan_out ==> r@.len() == fan_out && picked_from(peers@, r@),
    {
        let n = peers.len();
        let mut selected: Vec<PeerInfo> = Vec::new();
        if n <= fan_out as usize {
            let mut i: usize = 0;
            while i < n
                invariant
                    n == peers@.len(),
                    i <= n,
                    selected@ == peers@.take(i as int),
                decreases n - i,
            {
                selected.push(peers[i].clone());
                i = i + 1;
                assert(selected@ =~= peers@.take(i as int));
            }
            assert(peers@.take(n as int) =~= peers@);
            return selected;
        }
        let mut available: Vec<usize> = Vec::new();
        let mut i: usize = 0;
        while i < n
            invariant
                n == peers@.len(),
                i <= n,
                available@.len() == i,
                forall|k: int| 0 <= k < i ==> available@[k] == k,
            decreases n - i,
        {
            available.push(i);
            i = i + 1;
        }
        let ghost mut picked: Seq<int> = Seq::empty();
        let mut round: u8 = 0;
        while round < fan_out
            invariant
                n == peers@.len(),
                n > fan_out,
                round <= fan_out,
                picked.len() == round,
                selected@.len() == round,
                available@.len() + picked.len() == n,
                available@.no_duplicates(),
                picked.no_duplicates(),
                forall|k: int| 0 <= k < available@.len() ==> #[trigger] available@[k] < n,
                forall|k: int| 0 <= k < picked.len() ==> 0 <= #[trigger] picked[k] < n,
                forall|a: int, b: int| 0 <= a < available@.len() && 0 <= b < picked.len() ==> available@[a] != picked[b],
                forall|k: int| 0 <= k < picked.len() ==> selected@[k] == peers@[#[trigger] picked[k]],
            decreases fan_out - round,
        {
            let ri = random_below(available.len());
            let ghost before = available@;
            let pi = available.remove(ri);
            proof {
                assert(available@ == before.remove(ri as int));
                assert forall|a: int, b: int| 0 <= a < available@.len() && 0 <= b < picked.len() + 1 implies available@[a] != picked.push(pi as int)[b] by {
                    if b == picked.len() {
                        let ai = if a < ri { a } else { a + 1 };
                        assert(available@[a] == before[ai]);
                    } else {
                        let ai = if a < ri { a } else { a + 1 };
                        assert(available@[a] == before[ai]);
                    }
                }
                assert forall|x: int, y: int| 0 <= x < available@.len() && 0 <= y < available@.len() && x != y implies available@[x] != available@[y] by {
                    let xi = if x < ri { x } else { x + 1 };
                    let yi = if y < ri { y } else { y + 1 };
                    assert(available@[x] == before[xi]);
                    assert(available@[y] == before[yi]);
                }
                assert forall|k: int| 0 <= k < available@.len() implies #[trigger] available@[k] < n by {
                    let ki = if k < ri { k } else { k + 1 };
                    assert(available@[k] == before[ki]);
                }
                assert forall|b: int| 0 <= b < picked.len() implies picked[b] != pi by {
                    assert(before[ri as int] == pi);
                }
                picked = picked.push(pi as int);
            }
            selected.push(peers[pi].clone());
            round = round + 1;
        }
        assert(picked_from(peers@, selected@)) by {
            assert(picked.len() == selected@.len());
        }
        selected
    }

    /// Forwards a message: picks the fan-out peers among `peers` and counts
    /// one forwarding; with no peers nothing happens. Returns the ids of the
    /// peers picked.
    pub fn forward_message(&mut self, peers: &[PeerInfo]) -> (r: Vec<u128>)
        requires
            old(self).well_formed(),
        ensures
            final(self).well_formed(),
            fanout_ids(peers@, old(self).config.fan_out, r@),
            peers@.len() == 0 ==> r@.len() == 0 && *final(self) == *old(self),
            peers@.len() > 0 ==> *final(self) == (GossipService {
                stats: GossipStats { messages_forwarded: bump(old(self).stats.messages_forwarded), ..old(self).stats },
                ..*old(self)
            }),
    {
        if peers.len() == 0 {
            let none: Vec<u128> = Vec::new();
            assert(none@ =~= ids_of(peers@));
            return none;
        }
        let selected = Self::select_peers_for_fanout(peers, self.config.fan_out);
        let mut ids: Vec<u128> = Vec::new();
        let mut i: usize = 0;
        while i < selected.len()
            invariant
                i <= selected@.len(),
                ids@.len() == i,
                forall|k: int| 0 <= k < i ==> ids@[k] == selected@[k].id,
            decreases selected@.len() - i,
        {
            ids.push(selected[i].id);
            i = i + 1;
        }
        assert(ids@ =~= ids_of(selected@));
        self.stats.messages_forwarded = self.stats.messages_forwarded.wrapping_add(1);
        ids
    }

    /// Publishes a message: fails when the payload is over the size limit;
    /// otherwise a message with a fresh id, the current wall-clock time, the
    /// configured hop limit and no hops yet is cached at `now_ms` and
    /// forwarded to the fan-out peers among `peers`. Returns the message to
    /// send (its id is the new id) and the ids of the peers to send it to.
    pub fn publish(
        &mut self,
        message_type: GossipMessageType,
        payload: Vec<u8>,
        topic: String,
        peers: &[PeerInfo],
        now_ms: u64,
    ) -> (r: Result<(GossipMessage, Vec<u128>), NetworkError>)
        requires
            old(self).well_formed(),
        ensures
            final(self).well_formed(),
            payload@.len() > old(self).config.max_message_size ==> *final(self) == *old(self) && (r matches Err(
                NetworkError::Internal(t),
            ) && t@ == too_large_text(payload@.len())),
            payload@.len() <= old(self).config.max_message_size ==> (r matches Ok((m, to)) && cache_after_insert(
                old(self).cache(),
                m.id,
                now_ms,
                final(self).cache(),
            ) && messages_after(
                old(self).cached_messages(),
                m,
                final(self).cache().dom(),
                final(self).cached_messages(),
            ) && m.sender_id == old(self).node_id && m.message_type == message_type && m.payload == payload && m.ttl
                == old(self).config.max_ttl && m.hop_count == 0 && m.signature is None && m.topic == topic && fanout_ids(
                peers@,
                old(self).config.fan_out,
                to@,
            )) && final(self).topics() == old(self).topics() && final(self).running == old(self).running
                && final(self).stats == (if peers@.len() > 0 {
                GossipStats { messages_forwarded: bump(old(self).stats.messages_forwarded), ..old(self).stats }
            } else {
                old(self).stats
            }),
    {
        if payload.len() > self.config.max_message_size {
            let mut text: Vec<char> = Vec::new();
            push_str(&mut text, "Message too large: ");
            push_decimal(&mut text, payload.len() as u64);
            push_str(&mut text, " bytes");
            return Err(NetworkError::Internal(string_of(&text)));
        }
        let message = GossipMessage {
            id: new_uuid(),
            sender_id: self.node_id,
            message_type,
            payload,
            timestamp: unix_time_secs(),
            ttl: self.config.max_ttl,
            hop_count: 0,
            signature: None,
            topic,
        };
        let copy = message.clone();
        self.cache_message(copy, now_ms);
        let to = self.forward_message(peers);
        Ok((message, to))
    }

    /// Handles an incoming message, at `now_ms` (cache clock) and `now_secs`
    /// (wall clock): a duplicate (with deduplication on) or an invalid
    /// message (with validation on) is ignored, as is one that has used up
    /// its hops; otherwise it is cached, counted as received, and forwarded
    /// to the fan-out peers among `peers`.
    pub fn handle_message(&mut self, message: GossipMessage, peers: &[PeerInfo], now_ms: u64, now_secs: u64) -> (r: Result<
        GossipDisposition,
        NetworkError,
    >)
        requires
            old(self).well_formed(),
        ensures
            final(self).well_formed(),
            r is Ok,
            old(self).config.enable_dedup && old(self).cache().contains_key(message.id) ==> (r matches Ok(
                GossipDisposition::Duplicate,
            )) && *final(self) == *old(self),
            !(old(self).config.enable_dedup && old(self).cache().contains_key(message.id)) && old(
                self,
            ).config.enable_validation && !message_valid(
                old(self).config,
                message.payload@.len() as int,
                message.timestamp,
                now_secs,
            ) ==> (r matches Ok(GossipDisposition::Invalid)) && *final(self) == *old(self),
            !(old(self).config.enable_dedup && old(self).cache().contains_key(message.id)) && !(old(
                self,
            ).config.enable_validation && !message_valid(
                old(self).config,
                message.payload@.len() as int,
                message.timestamp,
                now_secs,
            )) && message.hop_count >= message.ttl ==> (r matches Ok(GossipDisposition::Expired)) && *final(self)
                == *old(self),
            !(old(self).config.enable_dedup && old(self).cache().contains_key(message.id)) && !(old(
                self,
            ).config.enable_validation && !message_valid(
                old(self).config,
                message.payload@.len() as int,
                message.timestamp,
                now_secs,
            )) && message.hop_count < message.ttl ==> (r matches Ok(GossipDisposition::Delivered { forward, to }) && fanout_ids(
                peers@,
                old(self).config.fan_out,
                to@,
            ) && (peers@.len() == 0 ==> to@.len() == 0) && forward == (GossipMessage {
                hop_count: (message.hop_count + 1) as u8,
                ..message
            })) && cache_after_insert(
                old(self).cache(),
                message.id,
                now_ms,
                final(self).cache(),
            ) && messages_after(
                old(self).cached_messages(),
                message,
                final(self).cache().dom(),
                final(self).cached_messages(),
            ) && final(self).topics() == old(self).topics() && final(self).running == old(self).running
                && final(self).stats == (GossipStats {
                messages_received: bump(old(self).stats.messages_received),
                messages_forwarded: if peers@.len() > 0 {
                    bump(old(self).stats.messages_forwarded)
                } else {
                    old(self).stats.messages_forwarded
                },
                ..old(self).stats
            }),
    {
        if self.config.enable_dedup && self.is_message_seen(&message.id) {
            return Ok(GossipDisposition::Duplicate);
        }
        if self.config.enable_validation {
            let valid = self.validate_message(&message, now_secs)?;
            if !valid {
                return Ok(GossipDisposition::Invalid);
            }
        }
        if message.hop_count >= message.ttl {
            return Ok(GossipDisposition::Expired);
        }
        let copy = message.clone();
        self.cache_message(copy, now_ms);
        self.stats.messages_received = self.stats.messages_received.wrapping_add(1);
        let to = self.forward_message(peers);
        let forward = GossipMessage { hop_count: message.hop_count + 1, ..message };
        Ok(GossipDisposition::Delivered { forward, to })
    }

    /// One cache maintenance pass at `now_ms`: drops the entries cached at
    /// least the cache TTL ago.
    pub fn expire_cache(&mut self, now_ms: u64)
        requires
            old(self).well_formed(),
        ensures
            final(self).well_formed(),
            final(self).cache() == old(self).cache().restrict(
                old(self).cache().dom().filter(
                    |k: u128|
                        (if now_ms >= old(self).cache()[k] { now_ms - old(self).cache()[k] } else { 0 })
                            < old(self).config.message_cache_ttl_ms,
                ),
            ),
            final(self).cached_messages() == old(self).cached_messages().restrict(final(self).cache().dom()),
            final(self).topics() == old(self).topics(),
            final(self).node_id == old(self).node_id,
            final(self).config == old(self).config,
            final(self).stats == old(self).stats,
            final(self).running == old(self).running,
    {
        let ids = map_ids(&self.message_cache);
        let ghost start = self.message_cache@;
        let ttl = self.config.message_cache_ttl_ms;
        let mut n: usize = 0;
        while n < ids.len()
            invariant
                n <= ids@.len(),
                ids@.to_set() == start.dom(),
                ids@.no_duplicates(),
                start.dom().finite(),
                self.message_cache@.dom().finite(),
                self.message_cache@.len() <= start.len(),
                ttl == self.config.message_cache_ttl_ms,
                self.subscriptions == old(self).subscriptions,
                self.cached == old(self).cached,
                self.node_id == old(self).node_id,
                self.config == old(self).config,
                self.stats == old(self).stats,
                self.running == old(self).running,
                start == old(self).cache(),
                self.message_cache@ == start.restrict(
                    start.dom().filter(
                        |k: u128|
                            !(exists|m: int| 0 <= m < n && ids@[m] == k) || (if now_ms >= start[k] {
                                now_ms - start[k]
                            } else {
                                0
                            }) < ttl,
                    ),
                ),
            decreases ids@.len() - n,
        {
            let k = ids[n];
            assert(ids@.to_set().contains(k));
            let at = match self.message_cache.get(&k) {
                Some(t) => *t,
                None => 0,
            };
            if now_ms.saturating_sub(at) >= ttl {
                self.message_cache.remove(&k);
            }
            n = n + 1;
            proof {
                assert(self.message_cache@ =~= start.restrict(
                    start.dom().filter(
                        |j: u128|
                            !(exists|m: int| 0 <= m < n && ids@[m] == j) || (if now_ms >= start[j] {
                                now_ms - start[j]
                            } else {
                                0
                            }) < ttl,
                    ),
                )) by {
                    assert forall|j: u128| #[trigger] start.contains_key(j) implies ((exists|m: int| 0 <= m < n && ids@[m] == j) <==> ((exists|m: int| 0 <= m < n - 1 && ids@[m] == j) || j == k)) by {
                        if j == k {
                            assert(ids@[n - 1] == k);
                        }
                        if exists|m: int| 0 <= m < n && ids@[m] == j {
                            let m = choose|m: int| 0 <= m < n && ids@[m] == j;
                            if m == n - 1 {
                                assert(j == k);
                            }
                        }
                    }
                }
                vstd::set_lib::lemma_len_subset(self.message_cache@.dom(), start.dom());
            }
        }
        proof {
            assert forall|j: u128| #[trigger] start.contains_key(j) implies (exists|m: int| 0 <= m < n && ids@[m] == j) by {
                assert(ids@.to_set().contains(j));
            }
            assert(self.message_cache@ =~= start.restrict(
                start.dom().filter(
                    |k: u128| (if now_ms >= start[k] { now_ms - start[k] } else { 0 }) < ttl,
                ),
            ));
        }
        self.prune_messages();
        assert(self.cached@.dom() =~= self.message_cache@.dom());
    }

    /// Subscribes to a topic (nothing changes when already subscribed).
    pub fn subscribe(&mut self, topic: String) -> (r: Result<(), NetworkError>)
        requires
            old(self).well_formed(),
        ensures
            final(self).well_formed(),
            r is Ok,
            old(self).topics().contains(topic@) ==> final(self).topics() == old(self).topics(),
            !old(self).topics().contains(topic@) ==> final(self).topics() == old(self).topics().push(topic@),
            final(self).cache() == old(self).cache(),
            final(self).stats == old(self).stats,
            final(self).running == old(self).running,
    {
        let mut i: usize = 0;
        while i < self.subscriptions.len()
            invariant
                i <= self.subscriptions@.len(),
                *self == *old(self),
                old(self).well_formed(),
                forall|k: int| 0 <= k < i ==> self.topics()[k] != topic@,
            decreases self.subscriptions@.len() - i,
        {
            if str_eq(self.subscriptions[i].as_str(), topic.as_str()) {
                assert(self.topics()[i as int] == topic@);
                return Ok(());
            }
            i = i + 1;
        }
        let ghost before = self.topics();
        self.subscriptions.push(topic);
        assert(self.topics() =~= before.push(topic@));
        Ok(())
    }

    /// Unsubscribes from a topic (nothing changes when not subscribed).
    pub fn unsubscribe(&mut self, topic: &str) -> (r: Result<(), NetworkError>)
        requires
            old(self).well_formed(),
        ensures
            final(self).well_formed(),
            r is Ok,
            !final(self).topics().contains(topic@),
            forall|t: Seq<char>| t != topic@ ==> (final(self).topics().contains(t) <==> old(self).topics().contains(t)),
            !old(self).topics().contains(topic@) ==> final(self).topics() == old(self).topics(),
            old(self).topics().contains(topic@) ==> exists|i: int|
                0 <= i < old(self).topics().len() && old(self).topics()[i] == topic@ && #[trigger] final(self).topics()
                    == old(self).topics().remove(i),
            final(self).cache() == old(self).cache(),
            final(self).stats == old(self).stats,
            final(self).running == old(self).running,
    {
        let mut i: usize = 0;
        while i < self.subscriptions.len()
            invariant
                i <= self.subscriptions@.len(),
                *self == *old(self),
                old(self).well_formed(),
                forall|k: int| 0 <= k < i ==> self.topics()[k] != topic@,
            decreases self.subscriptions@.len() - i,
        {
            if str_eq(self.subscriptions[i].as_str(), topic) {
                let ghost before = self.topics();
                self.subscriptions.remove(i);
                proof {
                    assert(self.topics() =~= before.remove(i as int));
                    assert(before[i as int] == topic@);
                    assert(old(self).topics().contains(topic@));
                    assert(self.topics() == old(self).topics().remove(i as int));
                    assert forall|t: Seq<char>| t != topic@ implies (self.topics().contains(t) <==> before.contains(t)) by {
                        if before.contains(t) {
                            let k = choose|k: int| 0 <= k < before.len() && before[k] == t;
                            if k < i {
                                assert(self.topics()[k] == t);
                            } else {
                                assert(k != i);
                                assert(self.topics()[k - 1] == t);
                            }
                        }
                    }
                    assert(self.topics().no_duplicates()) by {
                        assert forall|x: int, y: int| 0 <= x < self.topics().len() && 0 <= y < self.topics().len() && x != y implies self.topics()[x] != self.topics()[y] by {
                            let xi = if x < i { x } else { x + 1 };
                            let yi = if y < i { y } else { y + 1 };
                            assert(self.topics()[x] == before[xi]);
                            assert(self.topics()[y] == before[yi]);
                        }
                    }
                    assert(!self.topics().contains(topic@)) by {
                        if self.topics().contains(topic@) {
                            let k = choose|k: int| 0 <= k < self.topics().len() && self.topics()[k] == topic@;
                            if k < i {
                            } else {
                                assert(before[k + 1] == topic@);
                                assert(before[i as int] == topic@);
                            }
                        }
                    }
                }
                return Ok(());
            }
            i = i + 1;
        }
        Ok(())
    }

    /// The statistics.
    pub fn get_stats(&self) -> (r: GossipStats)
        ensures
            r == self.stats,
    {
        self.stats
    }

    /// The subscribed topics.
    pub fn get_active_topics(&self) -> (r: Vec<String>)
        ensures
            r@.map_values(|t: String| t@) == self.topics(),
    {
        let mut out: Vec<String> = Vec::new();
        let mut i: usize = 0;
        while i < self.subscriptions.len()
            invariant
                i <= self.subscriptions@.len(),
                out@.len() == i,
                forall|k: int| 0 <= k < i ==> out@[k]@ == self.subscriptions@[k]@,
            decreases self.subscriptions@.len() - i,
        {
            out.push(self.subscriptions[i].clone());
            i = i + 1;
        }
        assert(out@.map_values(|t: String| t@) =~= self.topics());
        out
    }
}

/// Caching a message never leaves more than [`CACHE_LIMIT`] entries: when
/// the cache with the new entry fits, nothing else changes; otherwise
/// [`CACHE_KEEP`] entries remain, unchanged, and none dropped is newer than
/// one kept.
pub proof fn lemma_cache_bounded(old: Map<u128, u64>, id: u128, now: u64, new: Map<u128, u64>)
    requires
        cache_after_insert(old, id, now, new),
    ensures
        new.len() <= CACHE_LIMIT,
        old.insert(id, now).len() <= CACHE_LIMIT ==> new == old.insert(id, now),
        old.insert(id, now).len() > CACHE_LIMIT ==> new.len() == CACHE_KEEP && new.dom().subset_of(old.insert(id, now).dom())
            && forall|k: u128, j: u128|
            #[trigger] new.contains_key(k) && old.insert(id, now).contains_key(j) && !new.contains_key(j) ==> #[trigger] old.insert(
                id,
                now,
            )[j] <= new[k],
{
}

/// A message just cached is remembered: when every earlier entry was cached
/// before `now` (or no eviction was needed), its id is in the cache, so a
/// second delivery of it is a duplicate.
pub proof fn lemma_cached_id_remembered(old: Map<u128, u64>, id: u128, now: u64, new: Map<u128, u64>)
    requires
        cache_after_insert(old, id, now, new),
        old.dom().finite(),
        old.insert(id, now).len() <= CACHE_LIMIT || forall|k: u128| #[trigger] old.contains_key(k) ==> old[k] < now,
    ensures
        new.contains_key(id),
        new[id] == now,
{
    let full = old.insert(id, now);
    if full.len() > CACHE_LIMIT {
        if !new.contains_key(id) {
            assert(new.len() > 0);
            let k = new.dom().choose();
            assert(new.contains_key(k));
            assert(full[id] <= full[k]);
            if k != id {
                assert(old.contains_key(k));
            }
        }
    }
}

} // verus!
