//! Shard state synchronisation: metadata is agreed among peers, the shard's
//! chunks are fetched, each chunk is checked against its leaf hash, and the
//! shard's progress is tracked.
//!
//! Times are milliseconds of a monotonic clock, read by the caller.

use sha2::Digest;
use std::collections::HashMap;
use vstd::prelude::*;
use vstd::std_specs::iter::IteratorSpec;

use crate::clock::{elapsed_millis, start_clock};
use crate::ids::new_uuid;
use crate::network::error::NetworkError;
use crate::network::types::PeerInfo;
use crate::text::{decimal, push_decimal, push_str, string_of};

verus! {

broadcast use vstd::std_specs::hash::group_hash_axioms;

/// Shard identifier.
pub type ShardId = u32;

/// State version (height).
pub type StateVersion = u64;

/// Chunks a mock metadata reply announces.
pub const MOCK_TOTAL_CHUNKS: usize = 100;

/// Size of a mock chunk: 1 MiB.
pub const MOCK_CHUNK_SIZE: usize = 1048576;

/// Hash size in bytes.
pub const HASH_SIZE: usize = 32;

/// State synchronisation configuration.
#[derive(Debug, Clone, Copy, PartialEq, Eq, Structural)]
pub struct StateSyncConfig {
    /// Maximum concurrent shard syncs
    pub max_concurrent_shards: usize,
    /// Maximum concurrent downloads per shard
    pub max_concurrent_downloads: usize,
    /// Chunk size for downloads
    pub chunk_size: usize,
    /// Sync timeout per shard (ms)
    pub sync_timeout_ms: u64,
    /// Enable parallel verification
    pub parallel_verification: bool,
    /// Enable incremental sync
    pub incremental_sync: bool,
}

impl Default for StateSyncConfig {
    /// 4 shards at once, 8 downloads per shard, 1 MiB chunks, 5 minutes per
    /// shard, parallel verification and incremental sync on.
    fn default() -> (r: Self)
        ensures
            r == (StateSyncConfig {
                max_concurrent_shards: 4,
                max_concurrent_downloads: 8,
                chunk_size: 1048576,
                sync_timeout_ms: 300000,
                parallel_verification: true,
                incremental_sync: true,
            }),
    {
        StateSyncConfig {
            max_concurrent_shards: 4,
            max_concurrent_downloads: 8,
            chunk_size: 1048576,
            sync_timeout_ms: 300000,
            parallel_verification: true,
            incremental_sync: true,
        }
    }
}

/// A Merkle proof for a chunk.
#[derive(Debug)]
pub struct MerkleProof {
    /// Root hash
    pub root_hash: Vec<u8>,
    /// Sibling hashes
    pub siblings: Vec<Vec<u8>>,
    /// Path to the leaf
    pub path: Vec<bool>,
    /// Leaf hash
    pub leaf_hash: Vec<u8>,
}

/// A chunk of a shard's state.
#[derive(Debug)]
pub struct StateChunk {
    /// Chunk ID
    pub chunk_id: u128,
    /// Shard ID
    pub shard_id: ShardId,
    /// Chunk index
    pub index: usize,
    /// Total chunks in the shard
    pub total_chunks: usize,
    /// Chunk data
    pub data: Vec<u8>,
    /// Merkle proof for this chunk
    pub merkle_proof: MerkleProof,
    /// Chunk version
    pub version: StateVersion,
}

/// A shard's synchronisation status.
#[derive(Debug)]
pub enum ShardSyncStatus {
    /// Not started
    NotStarted,
    /// In progress (start time in ms)
    InProgress { downloaded_chunks: usize, total_chunks: usize, start_time: u64 },
    /// Completed successfully (durations in ms)
    Completed { total_chunks: usize, duration_ms: u64, verification_time_ms: u64 },
    /// Failed with an error
    Failed { error: String, downloaded_chunks: usize, total_chunks: usize },
}

impl Clone for ShardSyncStatus {
    fn clone(&self) -> (r: Self)
        ensures
            r == *self,
    {
        match self {
            ShardSyncStatus::NotStarted => ShardSyncStatus::NotStarted,
            ShardSyncStatus::InProgress { downloaded_chunks, total_chunks, start_time } => ShardSyncStatus::InProgress {
                downloaded_chunks: *downloaded_chunks,
                total_chunks: *total_chunks,
                start_time: *start_time,
            },
            ShardSyncStatus::Completed { total_chunks, duration_ms, verification_time_ms } => ShardSyncStatus::Completed {
                total_chunks: *total_chunks,
                duration_ms: *duration_ms,
                verification_time_ms: *verification_time_ms,
            },
            ShardSyncStatus::Failed { error, downloaded_chunks, total_chunks } => ShardSyncStatus::Failed {
                error: error.clone(),
                downloaded_chunks: *downloaded_chunks,
                total_chunks: *total_chunks,
            },
        }
    }
}

/// A shard's metadata as announced by a peer.
#[derive(Debug)]
pub struct ShardMetadata {
    /// Shard ID
    pub shard_id: ShardId,
    /// State version
    pub version: StateVersion,
    /// Total number of chunks
    pub total_chunks: usize,
    /// Root hash of the state
    pub root_hash: Vec<u8>,
    /// Hashes of the chunks
    pub chunk_hashes: Vec<Vec<u8>>,
}

/// State synchronisation counters (wrapping at 2^64).
#[derive(Debug, Clone, Copy, PartialEq, Eq, Structural)]
pub struct StateSyncStats {
    /// Shards synced
    pub total_shards_synced: u64,
    /// Chunks downloaded
    pub total_chunks_downloaded: u64,
    /// Bytes downloaded
    pub total_bytes_downloaded: u64,
    /// Time spent verifying (ms)
    pub total_verification_time_ms: u64,
    /// Failed syncs
    pub failed_syncs: u64,
}

/// The SHA-256 digest of `data`.
pub uninterp spec fn sha256_digest(data: Seq<u8>) -> Seq<u8>;

/// Hashes chunk data with SHA-256 (`sha2::Sha256::digest`): the digest of
/// `data`, 32 bytes long.
#[verifier::external_body]
fn calculate_chunk_hash(data: &[u8]) -> (r: Vec<u8>)
    ensures
        r@ == sha256_digest(data@),
        r@.len() == HASH_SIZE,
{
    sha2::Sha256::digest(data).to_vec()
}

/// Adding `n` to a counter, wrapping at 2^64.
pub open spec fn wrap_add(c: u64, n: int) -> u64 {
    ((c + n) % 0x1_0000_0000_0000_0000) as u64
}

/// `n` zero bytes.
pub open spec fn zeros(n: nat) -> Seq<u8> {
    Seq::new(n, |i: int| 0u8)
}

/// `n` zero bytes.
fn zero_bytes(n: usize) -> (r: Vec<u8>)
    ensures
        r@ == zeros(n as nat),
{
    let mut out: Vec<u8> = Vec::new();
    let mut i: usize = 0;
    while i < n
        invariant
            i <= n,
            out@ == zeros(i as nat),
        decreases n - i,
    {
        out.push(0);
        i = i + 1;
        assert(out@ =~= zeros(i as nat));
    }
    out
}

/// A copy of a byte string.
fn copy_bytes(v: &Vec<u8>) -> (r: Vec<u8>)
    ensures
        r@ == v@,
{
    let mut out: Vec<u8> = Vec::new();
    let mut i: usize = 0;
    while i < v.len()
        invariant
            i <= v@.len(),
            out@ == v@.take(i as int),
        decreases v@.len() - i,
    {
        out.push(v[i]);
        i = i + 1;
        assert(out@ =~= v@.take(i as int));
    }
    assert(v@.take(v@.len() as int) =~= v@);
    out
}

/// Whether two byte strings are equal.
fn bytes_equal(a: &Vec<u8>, b: &Vec<u8>) -> (r: bool)
    ensures
        r == (a@ == b@),
{
    if a.len() != b.len() {
        return false;
    }
    let mut i: usize = 0;
    while i < a.len()
        invariant
            i <= a@.len(),
            a@.len() == b@.len(),
            forall|k: int| 0 <= k < i ==> a@[k] == b@[k],
        decreases a@.len() - i,
    {
        if a[i] != b[i] {
            return false;
        }
        i = i + 1;
    }
    assert(a@ =~= b@);
    true
}

/// The metadata a peer announces for a shard (a fixed reply for now: 100
/// chunks, an all-zero root hash and all-zero chunk hashes).
pub fn request_shard_metadata(peer: &PeerInfo, shard_id: ShardId, version: StateVersion) -> (r: Result<ShardMetadata, NetworkError>)
    ensures
        r matches Ok(m) && m.shard_id == shard_id && m.version == version && m.total_chunks == MOCK_TOTAL_CHUNKS
            && m.root_hash@ == zeros(HASH_SIZE as nat) && m.chunk_hashes@.len() == MOCK_TOTAL_CHUNKS && forall|i: int|
            0 <= i < MOCK_TOTAL_CHUNKS ==> (#[trigger] m.chunk_hashes@[i])@ == zeros(HASH_SIZE as nat),
{
    let mut hashes: Vec<Vec<u8>> = Vec::new();
    let mut i: usize = 0;
    while i < MOCK_TOTAL_CHUNKS
        invariant
            i <= MOCK_TOTAL_CHUNKS,
            hashes@.len() == i,
            forall|k: int| 0 <= k < i ==> (#[trigger] hashes@[k])@ == zeros(HASH_SIZE as nat),
        decreases MOCK_TOTAL_CHUNKS - i,
    {
        hashes.push(zero_bytes(HASH_SIZE));
        i = i + 1;
    }
    Ok(ShardMetadata {
        shard_id,
        version,
        total_chunks: MOCK_TOTAL_CHUNKS,
        root_hash: zero_bytes(HASH_SIZE),
        chunk_hashes: hashes,
    })
}

/// Agrees on one metadata reply: fails when there is none, or when any
/// reply differs from the first in its chunk count or root hash; otherwise
/// the first.
pub fn choose_metadata(candidates: &Vec<ShardMetadata>) -> (r: Result<usize, NetworkError>)
    ensures
        candidates@.len() == 0 ==> (r matches Err(NetworkError::Internal(t)) && t@
            == "Failed to get shard metadata from any peer"@),
        candidates@.len() > 0 && (exists|i: int|
            0 < i < candidates@.len() && (#[trigger] candidates@[i].total_chunks != candidates@[0].total_chunks
                || candidates@[i].root_hash@ != candidates@[0].root_hash@)) ==> (r matches Err(NetworkError::Internal(t))
            && t@ == "Inconsistent shard metadata from peers"@),
        candidates@.len() > 0 && (forall|i: int|
            0 < i < candidates@.len() ==> #[trigger] candidates@[i].total_chunks == candidates@[0].total_chunks
                && candidates@[i].root_hash@ == candidates@[0].root_hash@) ==> r == Ok::<usize, NetworkError>(0),
{
    if candidates.len() == 0 {
        let text = "Failed to get shard metadata from any peer";
        return Err(NetworkError::Internal(text.to_string()));
    }
    let mut i: usize = 1;
    while i < candidates.len()
        invariant
            1 <= i <= candidates@.len(),
            forall|k: int|
                #![trigger candidates@[k]]
                0 < k < i ==> candidates@[k].total_chunks == candidates@[0].total_chunks
                    && candidates@[k].root_hash@ == candidates@[0].root_hash@,
        decreases candidates@.len() - i,
    {
        if candidates[i].total_chunks != candidates[0].total_chunks || !bytes_equal(
            &candidates[i].root_hash,
            &candidates[0].root_hash,
        ) {
            let text = "Inconsistent shard metadata from peers";
            return Err(NetworkError::Internal(text.to_string()));
        }
        assert(candidates@[i as int].total_chunks == candidates@[0].total_chunks && candidates@[i as int].root_hash@
            == candidates@[0].root_hash@);
        i = i + 1;
    }
    Ok(0)
}

/// Checks a chunk: its data must hash (SHA-256) to the proof's leaf hash.
pub fn verify_chunk(chunk: &StateChunk) -> (r: Result<(), NetworkError>)
    ensures
        sha256_digest(chunk.data@) == chunk.merkle_proof.leaf_hash@ ==> r is Ok,
        sha256_digest(chunk.data@) != chunk.merkle_proof.leaf_hash@ ==> (r matches Err(NetworkError::Internal(t))
            && t@ == "Chunk hash verification failed"@),
{
    let calculated = calculate_chunk_hash(chunk.data.as_slice());
    if !bytes_equal(&calculated, &chunk.merkle_proof.leaf_hash) {
        let text = "Chunk hash verification failed";
        return Err(NetworkError::Internal(text.to_string()));
    }
    Ok(())
}

/// Checks the chunks in order, stopping at the first that fails.
pub fn verify_shard_chunks(chunks: &Vec<StateChunk>) -> (r: Result<(), NetworkError>)
    ensures
        (forall|i: int| 0 <= i < chunks@.len() ==> sha256_digest(#[trigger] chunks@[i].data@) == chunks@[i].merkle_proof.leaf_hash@)
            ==> r is Ok,
        (exists|i: int| 0 <= i < chunks@.len() && sha256_digest(#[trigger] chunks@[i].data@) != chunks@[i].merkle_proof.leaf_hash@)
            ==> (r matches Err(NetworkError::Internal(t)) && t@ == "Chunk hash verification failed"@),
{
    let mut i: usize = 0;
    while i < chunks.len()
        invariant
            i <= chunks@.len(),
            forall|k: int| 0 <= k < i ==> sha256_digest(#[trigger] chunks@[k].data@) == chunks@[k].merkle_proof.leaf_hash@,
        decreases chunks@.len() - i,
    {
        verify_chunk(&chunks[i])?;
        i = i + 1;
    }
    Ok(())
}

/// The chunk a peer sends (a fixed reply for now: 1 MiB of zeros, with the
/// metadata's root hash and the chunk's hash from the metadata as leaf
/// hash, and a proof of 8 zero siblings along an all-left path).
pub fn download_chunk_from_peer(
    peer: &PeerInfo,
    shard_id: ShardId,
    chunk_index: usize,
    metadata: &ShardMetadata,
) -> (r: Result<StateChunk, NetworkError>)
    requires
        chunk_index < metadata.chunk_hashes@.len(),
    ensures
        r matches Ok(c) && c.shard_id == shard_id && c.index == chunk_index && c.total_chunks == metadata.total_chunks
            && c.data@ == zeros(MOCK_CHUNK_SIZE as nat) && c.merkle_proof.root_hash@ == metadata.root_hash@
            && c.merkle_proof.leaf_hash@ == metadata.chunk_hashes@[chunk_index as int]@ && c.merkle_proof.siblings@.len() == 8
            && c.merkle_proof.path@ == Seq::new(8, |i: int| false) && c.version == metadata.version,
{
    let mut siblings: Vec<Vec<u8>> = Vec::new();
    let mut path: Vec<bool> = Vec::new();
    let mut i: usize = 0;
    while i < 8
        invariant
            i <= 8,
            siblings@.len() == i,
            path@ == Seq::new(i as nat, |k: int| false),
        decreases 8 - i,
    {
        siblings.push(zero_bytes(HASH_SIZE));
        path.push(false);
        i = i + 1;
        assert(path@ =~= Seq::new(i as nat, |k: int| false));
    }
    Ok(StateChunk {
        chunk_id: new_uuid(),
        shard_id,
        index: chunk_index,
        total_chunks: metadata.total_chunks,
        data: zero_bytes(MOCK_CHUNK_SIZE),
        merkle_proof: MerkleProof {
            root_hash: copy_bytes(&metadata.root_hash),
            siblings,
            path,
            leaf_hash: copy_bytes(&metadata.chunk_hashes[chunk_index]),
        },
        version: metadata.version,
    })
}

/// Fetches a chunk from the first peer that sends it; fails when none does.
pub fn download_chunk(
    shard_id: ShardId,
    chunk_index: usize,
    metadata: &ShardMetadata,
    peers: &[PeerInfo],
) -> (r: Result<StateChunk, NetworkError>)
    requires
        chunk_index < metadata.chunk_hashes@.len(),
    ensures
        peers@.len() > 0 ==> (r matches Ok(c) && c.shard_id == shard_id && c.index == chunk_index && c.total_chunks
            == metadata.total_chunks && c.data@ == zeros(MOCK_CHUNK_SIZE as nat) && c.merkle_proof.root_hash@
            == metadata.root_hash@ && c.merkle_proof.leaf_hash@ == metadata.chunk_hashes@[chunk_index as int]@
            && c.version == metadata.version),
        peers@.len() == 0 ==> (r matches Err(NetworkError::Internal(t)) && t@ == "Failed to download chunk "@ + decimal(
            chunk_index as nat,
        ) + " from any peer"@),
{
    let mut i: usize = 0;
    while i < peers.len()
        invariant
            i <= peers@.len(),
            i == 0,
            chunk_index < metadata.chunk_hashes@.len(),
        decreases peers@.len() - i,
    {
        match download_chunk_from_peer(&peers[i], shard_id, chunk_index, metadata) {
            Ok(chunk) => return Ok(chunk),
            Err(_) => {},
        }
        i = i + 1;
    }
    let mut text: Vec<char> = Vec::new();
    push_str(&mut text, "Failed to download chunk ");
    push_decimal(&mut text, chunk_index as u64);
    push_str(&mut text, " from any peer");
    Err(NetworkError::Internal(string_of(&text)))
}

/// The shards of a status table, each once.
fn status_ids(m: &HashMap<ShardId, ShardSyncStatus>) -> (r: Vec<ShardId>)
    ensures
        r@.to_set() == m@.dom(),
        r@.no_duplicates(),
{
    let mut out: Vec<ShardId> = Vec::new();
    let ghost ks = vstd::std_specs::hash::spec_keys_iter(m).remaining();
    for k in it: m.keys()
        invariant
            it.seq() == ks,
            out@ == ks.take(it.index() as int).map_values(|k: &ShardId| *k),
    {
        out.push(*k);
    }
    proof {
        assert(out@ =~= ks.unref());
    }
    out
}

/// A status with `n` more chunks downloaded (wrapping), when in progress.
pub open spec fn downloaded_more(s: ShardSyncStatus, n: int) -> ShardSyncStatus {
    match s {
        ShardSyncStatus::InProgress { downloaded_chunks, total_chunks, start_time } => ShardSyncStatus::InProgress {
            downloaded_chunks: ((downloaded_chunks + n) % (usize::MAX as int + 1)) as usize,
            total_chunks,
            start_time,
        },
        _ => s,
    }
}

/// One more than `d`, wrapped around past `usize::MAX`.
proof fn lemma_next_count(d: usize)
    ensures
        ((d + 1) % (usize::MAX as int + 1)) as usize == (if d + 1 > usize::MAX {
            (d + 1 - (usize::MAX as int + 1)) as usize
        } else {
            (d + 1) as usize
        }),
{
    if d == usize::MAX {
        vstd::arithmetic::div_mod::lemma_mod_self_0(usize::MAX as int + 1);
    } else {
        vstd::arithmetic::div_mod::lemma_small_mod((d + 1) as nat, (usize::MAX as int + 1) as nat);
    }
}

/// A status with its chunk total set, when in progress.
pub open spec fn with_total(s: ShardSyncStatus, total: usize) -> ShardSyncStatus {
    match s {
        ShardSyncStatus::InProgress { downloaded_chunks, total_chunks, start_time } => ShardSyncStatus::InProgress {
            downloaded_chunks,
            total_chunks: total,
            start_time,
        },
        _ => s,
    }
}

/// A status with its total set (when given) and one more chunk downloaded
/// (when asked).
pub open spec fn status_update(s0: ShardSyncStatus, set_total: Option<usize>, add_downloaded: bool) -> ShardSyncStatus {
    let s1 = match set_total {
        Some(t) => with_total(s0, t),
        None => s0,
    };
    if add_downloaded {
        downloaded_more(s1, 1)
    } else {
        s1
    }
}

/// The message for a shard that is already syncing.
pub open spec fn already_syncing_text(shard: nat) -> Seq<char> {
    "Shard "@ + decimal(shard) + " is already syncing"@
}

/// The message for a shard with no peer to sync from.
pub open spec fn no_peers_text(shard: nat) -> Seq<char> {
    "No peers available for shard "@ + decimal(shard)
}

/// Whether a shard is other than `k`.
pub open spec fn other_shard(k: ShardId) -> spec_fn(ShardId) -> bool {
    |x: ShardId| x != k
}

/// The chunks downloaded and the chunk total of a shard's status: those of
/// a sync in progress, else none.
pub open spec fn progress_in(m: Map<ShardId, ShardSyncStatus>, k: ShardId) -> (usize, usize) {
    if m.contains_key(k) {
        match m[k] {
            ShardSyncStatus::InProgress { downloaded_chunks, total_chunks, .. } => (downloaded_chunks, total_chunks),
            _ => (0, 0),
        }
    } else {
        (0, 0)
    }
}

/// The shard statuses after every fixed chunk was downloaded.
pub open spec fn after_download(m: Map<ShardId, ShardSyncStatus>, k: ShardId) -> Map<ShardId, ShardSyncStatus> {
    if m.contains_key(k) {
        m.insert(k, downloaded_more(with_total(m[k], MOCK_TOTAL_CHUNKS), MOCK_TOTAL_CHUNKS as int))
    } else {
        m
    }
}

/// `new` is `old` with the sync of shard `k` recorded as failed with
/// `text`, from the statuses `m`: the shard failed with the progress it had
/// in `m`, it is no longer under way, and one more failure is counted.
pub open spec fn failure_recorded(
    old: StateSyncService,
    new: StateSyncService,
    m: Map<ShardId, ShardSyncStatus>,
    k: ShardId,
    text: Seq<char>,
) -> bool {
    &&& new.shard_status@.contains_key(k)
    &&& new.shard_status@[k] matches ShardSyncStatus::Failed { error, downloaded_chunks, total_chunks } && error@ == text
        && (downloaded_chunks, total_chunks) == progress_in(m, k)
    &&& forall|x: ShardId| x != k ==> #[trigger] new.shard_status@.contains_key(x) == m.contains_key(x) && (m.contains_key(x)
        ==> new.shard_status@[x] == m[x])
    &&& new.active_syncs@ == old.active_syncs@.filter(other_shard(k))
    &&& new.stats == (StateSyncStats { failed_syncs: wrap_add(old.stats.failed_syncs, 1), ..old.stats })
    &&& new.config == old.config
    &&& new.running == old.running
    &&& new.waiting == old.waiting
}

/// Whether the fixed chunks pass the hash check: the digest of a zero chunk
/// is the zero hash.
pub open spec fn mock_chunks_verify() -> bool {
    sha256_digest(zeros(MOCK_CHUNK_SIZE as nat)) == zeros(HASH_SIZE as nat)
}

/// The state synchronisation service.
#[derive(Debug)]
pub struct StateSyncService {
    /// Configuration
    pub config: StateSyncConfig,
    /// Status of each shard
    pub shard_status: HashMap<ShardId, ShardSyncStatus>,
    /// Shards with a sync under way, each once
    pub active_syncs: Vec<ShardId>,
    /// Sync requests waiting for a free slot, oldest first
    pub waiting: Vec<(ShardId, StateVersion)>,
    /// Statistics
    pub stats: StateSyncStats,
    /// Running flag
    pub running: bool,
}

impl StateSyncService {
    /// The service's invariant: each active shard is listed once.
    pub open spec fn well_formed(&self) -> bool {
        self.active_syncs@.no_duplicates()
    }

    /// A stopped service with no shard status.
    pub fn new(config: StateSyncConfig) -> (r: Self)
        ensures
            r.well_formed(),
            r.config == config,
            r.shard_status@ == Map::<ShardId, ShardSyncStatus>::empty(),
            r.active_syncs@.len() == 0,
            r.waiting@.len() == 0,
            r.stats == (StateSyncStats {
                total_shards_synced: 0,
                total_chunks_downloaded: 0,
                total_bytes_downloaded: 0,
                total_verification_time_ms: 0,
                failed_syncs: 0,
            }),
            !r.running,
    {
        StateSyncService {
            config,
            shard_status: HashMap::new(),
            active_syncs: Vec::new(),
            waiting: Vec::new(),
            stats: StateSyncStats {
                total_shards_synced: 0,
                total_chunks_downloaded: 0,
                total_bytes_downloaded: 0,
                total_verification_time_ms: 0,
                failed_syncs: 0,
            },
            running: false,
        }
    }

    /// Starts the service; fails when it runs already.
    pub fn start(&mut self) -> (r: Result<(), NetworkError>)
        requires
            old(self).well_formed(),
        ensures
            final(self).well_formed(),
            old(self).running ==> (r matches Err(NetworkError::ServiceAlreadyStarted)) && *final(self) == *old(self),
            !old(self).running ==> r is Ok && *final(self) == (StateSyncService { running: true, ..*old(self) }),
    {
        if self.running {
            return Err(NetworkError::ServiceAlreadyStarted);
        }
        self.running = true;
        Ok(())
    }

    /// Stops the service, dropping every sync under way and every waiting
    /// request; a stopped service is left as it is.
    pub fn stop(&mut self) -> (r: Result<(), NetworkError>)
        requires
            old(self).well_formed(),
        ensures
            final(self).well_formed(),
            r is Ok,
            !old(self).running ==> *final(self) == *old(self),
            old(self).running ==> !final(self).running && final(self).active_syncs@.len() == 0
                && final(self).waiting@.len() == 0 && final(self).shard_status == old(self).shard_status && final(self).stats == old(self).stats
                && final(self).config == old(self).config,
    {
        if !self.running {
            return Ok(());
        }
        self.active_syncs = Vec::new();
        self.waiting = Vec::new();
        self.running = false;
        Ok(())
    }

    /// Whether a shard has a sync under way.
    fn is_active(&self, shard_id: ShardId) -> (r: Option<usize>)
        ensures
            r matches Some(i) ==> i < self.active_syncs@.len() && self.active_syncs@[i as int] == shard_id,
            r is None ==> !self.active_syncs@.contains(shard_id),
    {
        let mut i: usize = 0;
        while i < self.active_syncs.len()
            invariant
                i <= self.active_syncs@.len(),
                forall|k: int| 0 <= k < i ==> self.active_syncs@[k] != shard_id,
            decreases self.active_syncs@.len() - i,
        {
            if self.active_syncs[i] == shard_id {
                return Some(i);
            }
            i = i + 1;
        }
        None
    }

    /// Puts a shard in progress at `now`, with nothing downloaded, and lists
    /// its sync as under way (once).
    fn begin_sync(&mut self, shard_id: ShardId, now: u64)
        requires
            old(self).well_formed(),
        ensures
            final(self).well_formed(),
            final(self).shard_status@ == old(self).shard_status@.insert(
                shard_id,
                ShardSyncStatus::InProgress { downloaded_chunks: 0, total_chunks: 0, start_time: now },
            ),
            final(self).active_syncs@.to_set() == old(self).active_syncs@.to_set().insert(shard_id),
            old(self).active_syncs@.contains(shard_id) ==> final(self).active_syncs@ == old(self).active_syncs@,
            !old(self).active_syncs@.contains(shard_id) ==> final(self).active_syncs@.len() == old(self).active_syncs@.len() + 1,
            final(self).stats == old(self).stats,
            final(self).config == old(self).config,
            final(self).running == old(self).running,
            final(self).waiting == old(self).waiting,
    {
        self.shard_status.insert(
            shard_id,
            ShardSyncStatus::InProgress { downloaded_chunks: 0, total_chunks: 0, start_time: now },
        );
        match self.is_active(shard_id) {
            Some(_) => {
                proof {
                    assert(old(self).active_syncs@.to_set().insert(shard_id) =~= old(self).active_syncs@.to_set());
                }
            },
            None => {
                let ghost before = self.active_syncs@;
                self.active_syncs.push(shard_id);
                proof {
                    before.lemma_push_to_set_commute(shard_id);
                }
            },
        }
    }

    /// Asks for a shard's sync to `target_version` at `now`. Fails when the
    /// service is not running (the error is `ServiceAlreadyStarted`) or when
    /// the shard is already syncing. When as many shard syncs as the
    /// configured limit are under way, the request waits: it is queued, and
    /// [`Self::start_next_waiting`] starts it once a running sync has ended.
    /// Otherwise the shard is in progress with nothing downloaded and its
    /// sync is under way.
    pub fn sync_shard(&mut self, shard_id: ShardId, target_version: StateVersion, now: u64) -> (r: Result<(), NetworkError>)
        requires
            old(self).well_formed(),
        ensures
            final(self).well_formed(),
            !old(self).running ==> (r matches Err(NetworkError::ServiceAlreadyStarted)) && *final(self) == *old(self),
            old(self).running && old(self).shard_status@.contains_key(shard_id) && old(self).shard_status@[shard_id] is InProgress
                ==> (r matches Err(NetworkError::Internal(t)) && t@ == already_syncing_text(shard_id as nat))
                && *final(self) == *old(self),
            old(self).running && !(old(self).shard_status@.contains_key(shard_id) && old(self).shard_status@[shard_id] is InProgress)
                && !old(self).active_syncs@.contains(shard_id) && old(self).active_syncs@.len()
                >= old(self).config.max_concurrent_shards ==> r is Ok && final(self).waiting@ == old(self).waiting@.push(
                (shard_id, target_version),
            ) && *final(self) == (StateSyncService { waiting: final(self).waiting, ..*old(self) }),
            old(self).running && !(old(self).shard_status@.contains_key(shard_id) && old(self).shard_status@[shard_id] is InProgress)
                && (old(self).active_syncs@.contains(shard_id) || old(self).active_syncs@.len()
                < old(self).config.max_concurrent_shards) ==> {
                &&& r is Ok
                &&& final(self).shard_status@ == old(self).shard_status@.insert(
                    shard_id,
                    ShardSyncStatus::InProgress { downloaded_chunks: 0, total_chunks: 0, start_time: now },
                )
                &&& final(self).active_syncs@.to_set() == old(self).active_syncs@.to_set().insert(shard_id)
                &&& final(self).active_syncs@.len() <= old(self).config.max_concurrent_shards || final(self).active_syncs@
                    == old(self).active_syncs@
                &&& final(self).waiting == old(self).waiting
                &&& final(self).stats == old(self).stats
                &&& final(self).config == old(self).config
                &&& final(self).running
            },
    {
        if !self.running {
            return Err(NetworkError::ServiceAlreadyStarted);
        }
        let syncing = match self.shard_status.get(&shard_id) {
            Some(ShardSyncStatus::InProgress { .. }) => true,
            _ => false,
        };
        if syncing {
            let mut text: Vec<char> = Vec::new();
            push_str(&mut text, "Shard ");
            push_decimal(&mut text, shard_id as u64);
            push_str(&mut text, " is already syncing");
            return Err(NetworkError::Internal(string_of(&text)));
        }
        if self.is_active(shard_id).is_none() && self.active_syncs.len() >= self.config.max_concurrent_shards {
            self.waiting.push((shard_id, target_version));
            return Ok(());
        }
        self.begin_sync(shard_id, now);
        Ok(())
    }

    /// Starts the oldest waiting sync request at `now` when the service runs
    /// and fewer shard syncs than the configured limit are under way, and
    /// returns it (shard, target version) for its sync to be run; otherwise
    /// nothing changes.
    pub fn start_next_waiting(&mut self, now: u64) -> (r: Option<(ShardId, StateVersion)>)
        requires
            old(self).well_formed(),
        ensures
            final(self).well_formed(),
            !old(self).running || old(self).waiting@.len() == 0 || old(self).active_syncs@.len()
                >= old(self).config.max_concurrent_shards ==> r is None && *final(self) == *old(self),
            old(self).running && old(self).waiting@.len() > 0 && old(self).active_syncs@.len()
                < old(self).config.max_concurrent_shards ==> {
                let next = old(self).waiting@[0];
                &&& r == Some(next)
                &&& final(self).waiting@ == old(self).waiting@.subrange(1, old(self).waiting@.len() as int)
                &&& final(self).shard_status@ == old(self).shard_status@.insert(
                    next.0,
                    ShardSyncStatus::InProgress { downloaded_chunks: 0, total_chunks: 0, start_time: now },
                )
                &&& final(self).active_syncs@.to_set() == old(self).active_syncs@.to_set().insert(next.0)
                &&& final(self).active_syncs@.len() <= old(self).config.max_concurrent_shards
                &&& final(self).stats == old(self).stats
                &&& final(self).config == old(self).config
                &&& final(self).running
            },
    {
        if !self.running || self.waiting.len() == 0 || self.active_syncs.len() >= self.config.max_concurrent_shards {
            return None;
        }
        let next = self.waiting.remove(0);
        assert(self.waiting@ =~= old(self).waiting@.subrange(1, old(self).waiting@.len() as int));
        self.begin_sync(next.0, now);
        Some(next)
    }

    /// Updates a shard's status, when it has one, by `f`.
    fn update_status(&mut self, shard_id: ShardId, set_total: Option<usize>, add_downloaded: bool)
        requires
            old(self).well_formed(),
        ensures
            final(self).well_formed(),
            *final(self) == (StateSyncService { shard_status: final(self).shard_status, ..*old(self) }),
            old(self).shard_status@.contains_key(shard_id) ==> final(self).shard_status@ == old(self).shard_status@.insert(
                shard_id,
                status_update(old(self).shard_status@[shard_id], set_total, add_downloaded),
            ),
            !old(self).shard_status@.contains_key(shard_id) ==> final(self).shard_status == old(self).shard_status,
    {
        let current = match self.shard_status.get(&shard_id) {
            Some(s) => Some(s.clone()),
            None => None,
        };
        match current {
            Some(s0) => {
                let s1 = match set_total {
                    Some(t) => match s0 {
                        ShardSyncStatus::InProgress { downloaded_chunks, total_chunks, start_time } => ShardSyncStatus::InProgress {
                            downloaded_chunks,
                            total_chunks: t,
                            start_time,
                        },
                        other => other,
                    },
                    None => s0,
                };
                let s2 = if add_downloaded {
                    match s1 {
                        ShardSyncStatus::InProgress { downloaded_chunks, total_chunks, start_time } => {
                            proof {
                                lemma_next_count(downloaded_chunks);
                            }
                            ShardSyncStatus::InProgress { downloaded_chunks: downloaded_chunks.wrapping_add(1), total_chunks, start_time }
                        },
                        other => other,
                    }
                } else {
                    s1
                };
                self.shard_status.insert(shard_id, s2);
            },
            None => {},
        }
    }

    /// One attempt at a shard's sync with the known `peers`: fails when there
    /// is none. Otherwise the metadata replies of the first three peers are
    /// agreed on, the shard's chunk total is recorded, every chunk is fetched
    /// (each counted as downloaded) and checked; on success the shard is
    /// completed, counted, and no longer under way.
    fn attempt_sync(&mut self, shard_id: ShardId, target_version: StateVersion, peers: &[PeerInfo]) -> (r: Result<
        (),
        NetworkError,
    >)
        requires
            old(self).well_formed(),
        ensures
            final(self).well_formed(),
            peers@.len() == 0 ==> (r matches Err(NetworkError::Internal(t)) && t@ == no_peers_text(shard_id as nat))
                && *final(self) == *old(self),
            peers@.len() > 0 && !mock_chunks_verify() ==> (r matches Err(NetworkError::Internal(t)) && t@
                == "Chunk hash verification failed"@) && *final(self) == (StateSyncService {
                shard_status: final(self).shard_status,
                ..*old(self)
            }) && (old(self).shard_status@.contains_key(shard_id) ==> final(self).shard_status@ == old(
                self,
            ).shard_status@.insert(
                shard_id,
                downloaded_more(with_total(old(self).shard_status@[shard_id], MOCK_TOTAL_CHUNKS), MOCK_TOTAL_CHUNKS as int),
            )) && (!old(self).shard_status@.contains_key(shard_id) ==> final(self).shard_status@ == old(self).shard_status@),
            peers@.len() > 0 && mock_chunks_verify() ==> {
                &&& r is Ok
                &&& final(self).shard_status@.contains_key(shard_id)
                &&& final(self).shard_status@[shard_id] matches ShardSyncStatus::Completed { total_chunks, .. }
                    && total_chunks == MOCK_TOTAL_CHUNKS
                &&& forall|x: ShardId| x != shard_id ==> #[trigger] final(self).shard_status@.contains_key(x) == old(self).shard_status@.contains_key(x)
                    && (old(self).shard_status@.contains_key(x) ==> final(self).shard_status@[x] == old(self).shard_status@[x])
                &&& final(self).active_syncs@ == old(self).active_syncs@.filter(other_shard(shard_id))
                &&& final(self).stats.total_shards_synced == wrap_add(old(self).stats.total_shards_synced, 1)
                &&& final(self).stats.total_chunks_downloaded == wrap_add(old(self).stats.total_chunks_downloaded, MOCK_TOTAL_CHUNKS as int)
                &&& final(self).stats.total_bytes_downloaded == wrap_add(
                    old(self).stats.total_bytes_downloaded,
                    MOCK_TOTAL_CHUNKS * MOCK_CHUNK_SIZE,
                )
                &&& final(self).stats.failed_syncs == old(self).stats.failed_syncs
                &&& final(self).config == old(self).config
                &&& final(self).running == old(self).running
                &&& final(self).waiting == old(self).waiting
            },
    {
        let clock = start_clock();
        if peers.len() == 0 {
            let mut text: Vec<char> = Vec::new();
            push_str(&mut text, "No peers available for shard ");
            push_decimal(&mut text, shard_id as u64);
            return Err(NetworkError::Internal(string_of(&text)));
        }
        let mut candidates: Vec<ShardMetadata> = Vec::new();
        let mut p: usize = 0;
        while p < peers.len() && p < 3
            invariant
                p <= peers@.len(),
                candidates@.len() == p,
                forall|k: int|
                    0 <= k < p ==> {
                        let m = #[trigger] candidates@[k];
                        &&& m.total_chunks == MOCK_TOTAL_CHUNKS
                        &&& m.version == target_version
                        &&& m.root_hash@ == zeros(HASH_SIZE as nat)
                        &&& m.chunk_hashes@.len() == MOCK_TOTAL_CHUNKS
                        &&& forall|i: int| 0 <= i < MOCK_TOTAL_CHUNKS ==> (#[trigger] m.chunk_hashes@[i])@ == zeros(HASH_SIZE as nat)
                    },
            decreases peers@.len() - p,
        {
            match request_shard_metadata(&peers[p], shard_id, target_version) {
                Ok(m) => candidates.push(m),
                Err(_) => {},
            }
            p = p + 1;
        }
        let first = choose_metadata(&candidates)?;
        let metadata = candidates.remove(first);
        let total = metadata.total_chunks;
        self.update_status(shard_id, Some(total), false);
        let ghost after_total = self.shard_status@;
        let mut chunks: Vec<StateChunk> = Vec::new();
        let mut index: usize = 0;
        while index < total
            invariant
                self.well_formed(),
                index <= total,
                total == MOCK_TOTAL_CHUNKS,
                peers@.len() > 0,
                metadata.chunk_hashes@.len() == MOCK_TOTAL_CHUNKS,
                forall|i: int| 0 <= i < MOCK_TOTAL_CHUNKS ==> (#[trigger] metadata.chunk_hashes@[i])@ == zeros(HASH_SIZE as nat),
                chunks@.len() == index,
                forall|k: int|
                    0 <= k < index ==> (#[trigger] chunks@[k]).data@ == zeros(MOCK_CHUNK_SIZE as nat)
                        && chunks@[k].merkle_proof.leaf_hash@ == zeros(HASH_SIZE as nat),
                *self == (StateSyncService { shard_status: self.shard_status, ..*old(self) }),
                after_total.contains_key(shard_id) ==> self.shard_status@ == after_total.insert(
                    shard_id,
                    downloaded_more(after_total[shard_id], index as int),
                ),
                !after_total.contains_key(shard_id) ==> self.shard_status@ == after_total,
            decreases total - index,
        {
            let chunk = download_chunk(shard_id, index, &metadata, peers)?;
            assert(chunk.index == index);
            chunks.push(chunk);
            let ghost before = self.shard_status@;
            self.update_status(shard_id, None, true);
            proof {
                if after_total.contains_key(shard_id) {
                    let s = after_total[shard_id];
                    if s is InProgress {
                        assert(((s->InProgress_downloaded_chunks + index) % (usize::MAX as int + 1) + 1) % (usize::MAX as int + 1)
                            == (s->InProgress_downloaded_chunks + index + 1) % (usize::MAX as int + 1)) by (nonlinear_arith);
                    }
                    assert(self.shard_status@ =~= after_total.insert(shard_id, downloaded_more(after_total[shard_id], index as int + 1)));
                }
            }
            index = index + 1;
        }
        let verify_clock = start_clock();
        proof {
            if old(self).shard_status@.contains_key(shard_id) {
                assert(after_total[shard_id] == with_total(old(self).shard_status@[shard_id], MOCK_TOTAL_CHUNKS));
                assert(self.shard_status@ =~= old(self).shard_status@.insert(
                    shard_id,
                    downloaded_more(with_total(old(self).shard_status@[shard_id], MOCK_TOTAL_CHUNKS), MOCK_TOTAL_CHUNKS as int),
                ));
            }
            assert(chunks@[0].data@ == zeros(MOCK_CHUNK_SIZE as nat));
            if !mock_chunks_verify() {
                assert(sha256_digest(chunks@[0].data@) != chunks@[0].merkle_proof.leaf_hash@);
            } else {
                assert forall|i: int| 0 <= i < chunks@.len() implies sha256_digest(#[trigger] chunks@[i].data@)
                    == chunks@[i].merkle_proof.leaf_hash@ by {
                    assert(chunks@[i].data@ == zeros(MOCK_CHUNK_SIZE as nat));
                }
            }
        }
        verify_shard_chunks(&chunks)?;
        let verification_ms = elapsed_millis(&verify_clock);
        let duration_ms = elapsed_millis(&clock);
        let mut bytes: u64 = 0;
        let mut c: usize = 0;
        while c < chunks.len()
            invariant
                c <= chunks@.len(),
                chunks@.len() == MOCK_TOTAL_CHUNKS,
                forall|k: int| 0 <= k < chunks@.len() ==> (#[trigger] chunks@[k]).data@ == zeros(MOCK_CHUNK_SIZE as nat),
                bytes == c * MOCK_CHUNK_SIZE,
            decreases chunks@.len() - c,
        {
            bytes = bytes + chunks[c].data.len() as u64;
            c = c + 1;
        }
        self.shard_status.insert(
            shard_id,
            ShardSyncStatus::Completed { total_chunks: total, duration_ms, verification_time_ms: verification_ms },
        );
        self.stats.total_shards_synced = self.stats.total_shards_synced.wrapping_add(1);
        self.stats.total_chunks_downloaded = self.stats.total_chunks_downloaded.wrapping_add(total as u64);
        self.stats.total_bytes_downloaded = self.stats.total_bytes_downloaded.wrapping_add(bytes);
        self.stats.total_verification_time_ms = self.stats.total_verification_time_ms.wrapping_add(verification_ms);
        let kept = self.without_active(shard_id);
        self.active_syncs = kept;
        Ok(())
    }

    /// Records that the sync of a shard failed with `error`: the shard keeps
    /// its progress under a failed status, is no longer under way, and one
    /// more failure is counted.
    fn record_failure(&mut self, shard_id: ShardId, error: String)
        requires
            old(self).well_formed(),
        ensures
            final(self).well_formed(),
            failure_recorded(*old(self), *final(self), old(self).shard_status@, shard_id, error@),
    {
        let (downloaded_chunks, total_chunks) = match self.shard_status.get(&shard_id) {
            Some(ShardSyncStatus::InProgress { downloaded_chunks, total_chunks, .. }) => (*downloaded_chunks, *total_chunks),
            _ => (0, 0),
        };
        assert((downloaded_chunks, total_chunks) == progress_in(old(self).shard_status@, shard_id));
        self.shard_status.insert(shard_id, ShardSyncStatus::Failed { error, downloaded_chunks, total_chunks });
        let kept = self.without_active(shard_id);
        self.active_syncs = kept;
        self.stats.failed_syncs = self.stats.failed_syncs.wrapping_add(1);
        assert(self.stats == (StateSyncStats { failed_syncs: wrap_add(old(self).stats.failed_syncs, 1), ..old(self).stats }));
        assert(self.shard_status@[shard_id] matches ShardSyncStatus::Failed { error: e, .. } && e@ == error@);
    }

    /// Runs a shard's sync with the known `peers` (see the steps of one
    /// attempt above). Any failure is recorded: the shard fails with the
    /// error's text and its progress, is no longer under way, and one more
    /// failed sync is counted.
    #[verifier::spinoff_prover]
    #[verifier::rlimit(40)]
    pub fn sync_shard_internal(&mut self, shard_id: ShardId, target_version: StateVersion, peers: &[PeerInfo]) -> (r: Result<
        (),
        NetworkError,
    >)
        requires
            old(self).well_formed(),
        ensures
            final(self).well_formed(),
            peers@.len() == 0 ==> (r matches Err(NetworkError::Internal(t)) && t@ == no_peers_text(shard_id as nat))
                && failure_recorded(*old(self), *final(self), old(self).shard_status@, shard_id, no_peers_text(shard_id as nat)),
            peers@.len() > 0 && !mock_chunks_verify() ==> (r matches Err(NetworkError::Internal(t)) && t@
                == "Chunk hash verification failed"@) && failure_recorded(
                *old(self),
                *final(self),
                after_download(old(self).shard_status@, shard_id),
                shard_id,
                "Chunk hash verification failed"@,
            ),
            peers@.len() > 0 && mock_chunks_verify() ==> {
                &&& r is Ok
                &&& final(self).shard_status@.contains_key(shard_id)
                &&& final(self).shard_status@[shard_id] matches ShardSyncStatus::Completed { total_chunks, .. }
                    && total_chunks == MOCK_TOTAL_CHUNKS
                &&& forall|x: ShardId| x != shard_id ==> #[trigger] final(self).shard_status@.contains_key(x) == old(self).shard_status@.contains_key(x)
                    && (old(self).shard_status@.contains_key(x) ==> final(self).shard_status@[x] == old(self).shard_status@[x])
                &&& final(self).active_syncs@ == old(self).active_syncs@.filter(other_shard(shard_id))
                &&& final(self).stats.total_shards_synced == wrap_add(old(self).stats.total_shards_synced, 1)
                &&& final(self).stats.total_chunks_downloaded == wrap_add(old(self).stats.total_chunks_downloaded, MOCK_TOTAL_CHUNKS as int)
                &&& final(self).stats.total_bytes_downloaded == wrap_add(
                    old(self).stats.total_bytes_downloaded,
                    MOCK_TOTAL_CHUNKS * MOCK_CHUNK_SIZE,
                )
                &&& final(self).stats.failed_syncs == old(self).stats.failed_syncs
                &&& final(self).config == old(self).config
                &&& final(self).running == old(self).running
                &&& final(self).waiting == old(self).waiting
            },
    {
        match self.attempt_sync(shard_id, target_version, peers) {
            Ok(()) => Ok(()),
            Err(e) => {
                let text = match &e {
                    NetworkError::Internal(t) => t.clone(),
                    _ => "Shard sync failed".to_string(),
                };
                proof {
                    if old(self).shard_status@.contains_key(shard_id) && peers@.len() > 0 {
                        assert(self.shard_status@ =~= after_download(old(self).shard_status@, shard_id));
                    }
                }
                self.record_failure(shard_id, text);
                Err(e)
            },
        }
    }

    /// The active shards other than `shard_id`.
    fn without_active(&self, shard_id: ShardId) -> (r: Vec<ShardId>)
        requires
            self.well_formed(),
        ensures
            r@ == self.active_syncs@.filter(other_shard(shard_id)),
            r@.no_duplicates(),
    {
        let mut out: Vec<ShardId> = Vec::new();
        let mut i: usize = 0;
        while i < self.active_syncs.len()
            invariant
                self.well_formed(),
                i <= self.active_syncs@.len(),
                out@ == self.active_syncs@.take(i as int).filter(other_shard(shard_id)),
                out@.no_duplicates(),
                forall|k: int| 0 <= k < out@.len() ==> exists|j: int| 0 <= j < i && self.active_syncs@[j] == #[trigger] out@[k],
            decreases self.active_syncs@.len() - i,
        {
            proof {
                assert(self.active_syncs@.take(i as int + 1) =~= self.active_syncs@.take(i as int).push(self.active_syncs@[i as int]));
                self.active_syncs@.take(i as int).lemma_filter_push(self.active_syncs@[i as int], other_shard(shard_id));
            }
            let x = self.active_syncs[i];
            if x != shard_id {
                let ghost before = out@;
                proof {
                    assert forall|k: int| 0 <= k < before.len() implies before[k] != x by {
                        let j = choose|j: int| 0 <= j < i && self.active_syncs@[j] == before[k];
                    }
                }
                out.push(x);
                proof {
                    assert forall|k: int| 0 <= k < out@.len() implies exists|j: int| 0 <= j < i + 1 && self.active_syncs@[j] == #[trigger] out@[k] by {
                        if k < before.len() {
                            let j = choose|j: int| 0 <= j < i && self.active_syncs@[j] == before[k];
                        } else {
                            assert(self.active_syncs@[i as int] == out@[k]);
                        }
                    }
                }
            }
            i = i + 1;
        }
        assert(self.active_syncs@.take(self.active_syncs@.len() as int) =~= self.active_syncs@);
        out
    }

    /// The status of a shard, if it has one.
    pub fn get_shard_status(&self, shard_id: ShardId) -> (r: Option<ShardSyncStatus>)
        ensures
            self.shard_status@.contains_key(shard_id) ==> r == Some(self.shard_status@[shard_id]),
            !self.shard_status@.contains_key(shard_id) ==> r is None,
    {
        match self.shard_status.get(&shard_id) {
            Some(s) => Some(s.clone()),
            None => None,
        }
    }

    /// The status of every shard that has one.
    pub fn get_sync_status(&self) -> (r: HashMap<ShardId, ShardSyncStatus>)
        ensures
            r@ == self.shard_status@,
    {
        let ids = status_ids(&self.shard_status);
        let mut out: HashMap<ShardId, ShardSyncStatus> = HashMap::new();
        let mut n: usize = 0;
        while n < ids.len()
            invariant
                n <= ids@.len(),
                ids@.to_set() == self.shard_status@.dom(),
                out@ == self.shard_status@.restrict(ids@.take(n as int).to_set()),
            decreases ids@.len() - n,
        {
            let k = ids[n];
            assert(ids@.to_set().contains(k));
            match self.shard_status.get(&k) {
                Some(st) => {
                    out.insert(k, st.clone());
                },
                None => {},
            }
            proof {
                assert(ids@.take(n as int + 1) =~= ids@.take(n as int).push(k));
                ids@.take(n as int).lemma_push_to_set_commute(k);
                assert(out@ =~= self.shard_status@.restrict(ids@.take(n as int + 1).to_set()));
            }
            n = n + 1;
        }
        proof {
            assert(ids@.take(ids@.len() as int) =~= ids@);
            assert(out@ =~= self.shard_status@);
        }
        out
    }

    /// The statistics.
    pub fn get_stats(&self) -> (r: StateSyncStats)
        ensures
            r == self.stats,
    {
        self.stats
    }

    /// Cancels a shard's sync: when one is under way it stops, and the shard
    /// is marked failed ("Cancelled by user", nothing downloaded); otherwise
    /// nothing changes.
    pub fn cancel_shard_sync(&mut self, shard_id: ShardId) -> (r: Result<(), NetworkError>)
        requires
            old(self).well_formed(),
        ensures
            final(self).well_formed(),
            r is Ok,
            !old(self).active_syncs@.contains(shard_id) ==> *final(self) == *old(self),
            old(self).active_syncs@.contains(shard_id) ==> {
                &&& final(self).active_syncs@ == old(self).active_syncs@.filter(other_shard(shard_id))
                &&& final(self).shard_status@.contains_key(shard_id)
                &&& final(self).shard_status@[shard_id] matches ShardSyncStatus::Failed { error, downloaded_chunks, total_chunks }
                    && error@ == "Cancelled by user"@ && downloaded_chunks == 0 && total_chunks == 0
                &&& forall|x: ShardId| x != shard_id ==> #[trigger] final(self).shard_status@.contains_key(x) == old(self).shard_status@.contains_key(x)
                    && (old(self).shard_status@.contains_key(x) ==> final(self).shard_status@[x] == old(self).shard_status@[x])
                &&& final(self).stats == old(self).stats
                &&& final(self).running == old(self).running
                &&& final(self).waiting == old(self).waiting
            },
    {
        match self.is_active(shard_id) {
            Some(_) => {
                let kept = self.without_active(shard_id);
                self.active_syncs = kept;
                let text = "Cancelled by user";
                self.shard_status.insert(
                    shard_id,
                    ShardSyncStatus::Failed { error: text.to_string(), downloaded_chunks: 0, total_chunks: 0 },
                );
                Ok(())
            },
            None => Ok(()),
        }
    }
}

} // verus!
