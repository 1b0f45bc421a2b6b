//! Data compression for network payloads (zstd, LZ4, Brotli).
//!
//! A payload is wrapped in a [`CompressedData`] record that names the
//! algorithm, the level, the original size and a checksum of the original
//! bytes; decompression checks both the size and the checksum.

use std::hash::BuildHasher;
use vstd::prelude::*;

use crate::clock::{elapsed_millis, start_clock};
use crate::network::error::NetworkError;
use crate::network::framing::{from_le, le_bytes, lemma_le_roundtrip, push_all, u32_from_le_bytes, u32_to_le_bytes};
use crate::text::{decimal, push_decimal, push_str, string_of};

verus! {

// ---------------------------------------------------------------------------
// Outside calls
// ---------------------------------------------------------------------------

/// `lz4_flex::block::DecompressError`, returned when an LZ4 block is malformed.
#[verifier::external_type_specification]
#[verifier::external_body]
pub struct ExDecompressError(lz4_flex::block::DecompressError);

/// The zstd frame that `zstd::bulk::compress` writes for `data` at `level`,
/// or `None` when it fails.
pub uninterp spec fn spec_zstd_compress(data: Seq<u8>, level: i32) -> Option<Seq<u8>>;

/// What `zstd::decode_all` reads from `data`, or `None` when it fails.
pub uninterp spec fn spec_zstd_decode(data: Seq<u8>) -> Option<Seq<u8>>;

/// The block that `lz4_flex::compress_prepend_size` writes for `data`.
pub uninterp spec fn spec_lz4_compress(data: Seq<u8>) -> Seq<u8>;

/// What `lz4_flex::decompress_size_prepended` reads from `data`, or `None` when it fails.
pub uninterp spec fn spec_lz4_decompress(data: Seq<u8>) -> Option<Seq<u8>>;

/// The stream that a `brotli::CompressorWriter` (quality 22, window
/// `lgwin`) writes for `data`, or `None` when streaming into it fails.
pub uninterp spec fn spec_brotli_compress(data: Seq<u8>, lgwin: u32) -> Option<Seq<u8>>;

/// What a `brotli::Decompressor` reads from `data`, or `None` when it fails.
pub uninterp spec fn spec_brotli_decompress(data: Seq<u8>) -> Option<Seq<u8>>;

/// Hashes `data` with a fresh `std::collections::hash_map::DefaultHasher`
/// (`BuildHasher::hash_one`: `Hash for [u8]`, then `Hasher::finish`) and
/// keeps the low 32 bits. Nothing is stated of the value: `Hash` output is
/// neither portable across platforms nor stable across Rust releases.
#[verifier::external_body]
fn checksum_of(data: &[u8]) -> (r: u32) {
    std::hash::BuildHasherDefault::<std::collections::hash_map::DefaultHasher>::default().hash_one(data) as u32
}

/// Calls `zstd::bulk::compress` on the bytes: one zstd frame, written knowing
/// the input's size (which keeps high levels fast on small inputs; the frame
/// also records the size). Claimed: the outcome, frame or failure, is a
/// function of the bytes and the level.
#[verifier::external_body]
fn zstd_compress(data: &[u8], level: i32) -> (r: Result<Vec<u8>, std::io::Error>)
    ensures
        match r {
            Ok(v) => spec_zstd_compress(data@, level) == Some(v@),
            Err(_) => spec_zstd_compress(data@, level) is None,
        },
{
    zstd::bulk::compress(data, level)
}

/// Calls `zstd::decode_all` on the bytes. Claimed: the outcome is a function
/// of the bytes, and a frame written by `zstd::bulk::compress` at a level it
/// accepts (0 to 22) reads back as the bytes that were encoded.
#[verifier::external_body]
fn zstd_decode_all(data: &[u8]) -> (r: Result<Vec<u8>, std::io::Error>)
    ensures
        match r {
            Ok(v) => spec_zstd_decode(data@) == Some(v@),
            Err(_) => spec_zstd_decode(data@) is None,
        },
        forall|x: Seq<u8>, l: i32|
            0 <= l <= 22 && #[trigger] spec_zstd_compress(x, l) == Some(data@) ==> r is Ok && r->Ok_0@ == x,
{
    zstd::decode_all(data)
}

/// Calls `lz4_flex::compress_prepend_size`. Claimed: the block is a function
/// of the bytes.
#[verifier::external_body]
fn lz4_compress(data: &[u8]) -> (r: Vec<u8>)
    ensures
        r@ == spec_lz4_compress(data@),
{
    lz4_flex::compress_prepend_size(data)
}

/// Calls `lz4_flex::decompress_size_prepended`. Claimed: the outcome is a
/// function of the bytes, and a block written by `compress_prepend_size` for
/// fewer than 2^32 bytes (its size header is 32 bits wide) reads back as the
/// bytes that were compressed.
#[verifier::external_body]
fn lz4_decompress(data: &[u8]) -> (r: Result<Vec<u8>, lz4_flex::block::DecompressError>)
    ensures
        match r {
            Ok(v) => spec_lz4_decompress(data@) == Some(v@),
            Err(_) => spec_lz4_decompress(data@) is None,
        },
        forall|x: Seq<u8>| x.len() < 0x1_0000_0000 && #[trigger] spec_lz4_compress(x) == data@ ==> r is Ok && r->Ok_0@ == x,
{
    lz4_flex::decompress_size_prepended(data)
}

/// Streams the bytes through a `brotli::CompressorWriter` (quality 22, which
/// the crate clamps to 11, window `lgwin`) into a vector with `std::io::copy`
/// and finishes the stream (`into_inner`). Claimed: the outcome, stream or
/// failure, is a function of the bytes and the window.
#[verifier::external_body]
fn brotli_compress(data: &[u8], lgwin: u32) -> (r: Result<Vec<u8>, std::io::Error>)
    ensures
        match r {
            Ok(v) => spec_brotli_compress(data@, lgwin) == Some(v@),
            Err(_) => spec_brotli_compress(data@, lgwin) is None,
        },
{
    let mut writer = brotli::CompressorWriter::new(Vec::new(), 4096, 22, lgwin);
    match std::io::copy(&mut std::io::Cursor::new(data), &mut writer) {
        Ok(_) => Ok(writer.into_inner()),
        Err(e) => Err(e),
    }
}

/// Streams the bytes through a `brotli::Decompressor` into a vector with
/// `std::io::copy`. Claimed: the outcome is a function of the bytes, and a
/// stream written by a `CompressorWriter` reads back as the bytes written.
#[verifier::external_body]
fn brotli_decompress(data: &[u8]) -> (r: Result<Vec<u8>, std::io::Error>)
    ensures
        match r {
            Ok(v) => spec_brotli_decompress(data@) == Some(v@),
            Err(_) => spec_brotli_decompress(data@) is None,
        },
        forall|x: Seq<u8>, w: u32| #[trigger] spec_brotli_compress(x, w) == Some(data@) ==> r is Ok && r->Ok_0@ == x,
{
    let mut out: Vec<u8> = Vec::new();
    let mut reader = brotli::Decompressor::new(data, 4096);
    std::io::copy(&mut reader, &mut out).map(|_| out)
}

/// The text of an I/O error (its `Display`).
#[verifier::external_body]
fn io_error_text(e: &std::io::Error) -> (r: String) {
    e.to_string()
}

/// The text of an LZ4 error (its `Display`).
#[verifier::external_body]
fn lz4_error_text(e: &lz4_flex::block::DecompressError) -> (r: String) {
    e.to_string()
}

/// A description followed by a detail.
fn prefixed(what: &str, detail: &String) -> (r: String)
    ensures
        r@ == what@ + detail@,
        begins_with(r@, what@),
{
    let mut out: Vec<char> = Vec::new();
    push_str(&mut out, what);
    push_str(&mut out, detail.as_str());
    assert(out@.subrange(0, what@.len() as int) =~= what@);
    string_of(&out)
}

/// Whether `t` starts with `p`.
pub open spec fn begins_with(t: Seq<char>, p: Seq<char>) -> bool {
    p.len() <= t.len() && t.subrange(0, p.len() as int) == p
}

/// The message for a decompressed size that does not match the record.
pub open spec fn size_mismatch_text(got: nat, expected: nat) -> Seq<char> {
    "Decompressed size "@ + decimal(got) + " doesn't match original size "@ + decimal(expected)
}

/// The message for a decompressed size that does not match the record.
fn size_mismatch(got: usize, expected: usize) -> (r: String)
    ensures
        r@ == size_mismatch_text(got as nat, expected as nat),
{
    let mut out: Vec<char> = Vec::new();
    push_str(&mut out, "Decompressed size ");
    push_decimal(&mut out, got as u64);
    push_str(&mut out, " doesn't match original size ");
    push_decimal(&mut out, expected as u64);
    string_of(&out)
}

// ---------------------------------------------------------------------------
// Types
// ---------------------------------------------------------------------------

/// Compression algorithm types.
#[derive(Debug, Clone, Copy, PartialEq, Eq, Structural)]
pub enum CompressionAlgorithm {
    /// No compression
    Uncompressed,
    /// zstd compression (fast, good ratio)
    Zstd,
    /// LZ4 compression (very fast, moderate ratio)
    Lz4,
    /// Brotli compression (slower, better ratio)
    Brotli,
}

/// The number that names an algorithm in a [`CompressedData`] record.
pub open spec fn algorithm_code(a: CompressionAlgorithm) -> u8 {
    match a {
        CompressionAlgorithm::Uncompressed => 0,
        CompressionAlgorithm::Zstd => 1,
        CompressionAlgorithm::Lz4 => 2,
        CompressionAlgorithm::Brotli => 3,
    }
}

/// Compression level, from 0 to 22.
#[derive(Debug, Clone, Copy, PartialEq, Eq, Structural)]
pub struct CompressionLevel(u8);

impl View for CompressionLevel {
    type V = u8;

    closed spec fn view(&self) -> u8 {
        self.0
    }
}

impl CompressionLevel {
    #[verifier::type_invariant]
    spec fn in_range(self) -> bool {
        self.0 <= 22
    }

    /// Creates a compression level; levels above 22 are refused.
    pub fn new(level: u8) -> (r: Result<Self, NetworkError>)
        ensures
            r is Ok <==> level <= 22,
            r matches Ok(l) ==> l@ == level,
            r matches Err(e) ==> (e matches NetworkError::Internal(t) && t@ == "Invalid compression level"@),
    {
        if level <= 22 {
            Ok(CompressionLevel(level))
        } else {
            Err(NetworkError::Internal("Invalid compression level".to_string()))
        }
    }

    /// The level value.
    pub fn value(&self) -> (r: u8)
        ensures
            r == self@,
            r <= 22,
    {
        proof {
            use_type_invariant(self);
        }
        self.0
    }

    /// Default compression level (3, a good balance).
    pub fn default() -> (r: Self)
        ensures
            r@ == 3,
    {
        CompressionLevel(3)
    }

    /// Maximum compression level (22).
    pub fn max() -> (r: Self)
        ensures
            r@ == 22,
    {
        CompressionLevel(22)
    }

    /// Minimum compression level (0, the fastest).
    pub fn min() -> (r: Self)
        ensures
            r@ == 0,
    {
        CompressionLevel(0)
    }
}

/// Compression configuration.
#[derive(Debug, Clone, Copy)]
pub struct CompressionConfig {
    /// Default compression algorithm
    pub algorithm: CompressionAlgorithm,
    /// Default compression level
    pub level: CompressionLevel,
    /// Minimum size to compress (bytes)
    pub min_size: usize,
    /// Maximum compression time (ms)
    pub max_time_ms: u64,
    /// Enable adaptive compression
    pub adaptive: bool,
    /// Track compression statistics
    pub track_stats: bool,
}

impl Default for CompressionConfig {
    fn default() -> (r: Self)
        ensures
            r.algorithm == CompressionAlgorithm::Zstd,
            r.level@ == 3,
            r.min_size == 1024,
            r.max_time_ms == 100,
            r.adaptive,
            r.track_stats,
    {
        CompressionConfig {
            algorithm: CompressionAlgorithm::Zstd,
            level: CompressionLevel::default(),
            min_size: 1024,
            max_time_ms: 100,
            adaptive: true,
            track_stats: true,
        }
    }
}

/// Compressed data wrapper.
#[derive(Debug, Clone)]
pub struct CompressedData {
    /// Compression algorithm used (0 none, 1 zstd, 2 LZ4, 3 Brotli)
    pub algorithm: u8,
    /// Compression level used
    pub level: u8,
    /// Original size
    pub original_size: usize,
    /// Compressed data
    pub data: Vec<u8>,
    /// Checksum of the original data
    pub checksum: u32,
}

/// Compression statistics (operation counts, bytes and milliseconds; the
/// counters wrap around at 2^64).
#[derive(Debug, Clone, Copy)]
pub struct CompressionStats {
    /// Total bytes compressed
    pub total_bytes_compressed: u64,
    /// Total bytes decompressed
    pub total_bytes_decompressed: u64,
    /// Total compression time (ms)
    pub total_compression_time_ms: u64,
    /// Total decompression time (ms)
    pub total_decompression_time_ms: u64,
    /// Compression operations count
    pub compression_count: u64,
    /// Decompression operations count
    pub decompression_count: u64,
}

impl Default for CompressionStats {
    fn default() -> (r: Self)
        ensures
            r == zero_stats(),
    {
        CompressionStats {
            total_bytes_compressed: 0,
            total_bytes_decompressed: 0,
            total_compression_time_ms: 0,
            total_decompression_time_ms: 0,
            compression_count: 0,
            decompression_count: 0,
        }
    }
}

/// Statistics with every counter at zero.
pub open spec fn zero_stats() -> CompressionStats {
    CompressionStats {
        total_bytes_compressed: 0,
        total_bytes_decompressed: 0,
        total_compression_time_ms: 0,
        total_decompression_time_ms: 0,
        compression_count: 0,
        decompression_count: 0,
    }
}

/// `a + b` wrapped around at 2^64.
pub open spec fn wrap_add(a: u64, b: int) -> u64 {
    ((a + b) % 0x1_0000_0000_0000_0000) as u64
}

/// The statistics after a compression of `len` bytes taking `ms` milliseconds.
pub open spec fn after_compression(s: CompressionStats, len: int, ms: u64) -> CompressionStats {
    CompressionStats {
        total_bytes_compressed: wrap_add(s.total_bytes_compressed, len),
        compression_count: wrap_add(s.compression_count, 1),
        total_compression_time_ms: wrap_add(s.total_compression_time_ms, ms as int),
        ..s
    }
}

/// The statistics after a decompression yielding `len` bytes in `ms` milliseconds.
pub open spec fn after_decompression(s: CompressionStats, len: int, ms: u64) -> CompressionStats {
    CompressionStats {
        total_bytes_decompressed: wrap_add(s.total_bytes_decompressed, len),
        decompression_count: wrap_add(s.decompression_count, 1),
        total_decompression_time_ms: wrap_add(s.total_decompression_time_ms, ms as int),
        ..s
    }
}

/// `c` records `payload` as the `alg`/`level` encoding of `data` (its
/// checksum is the one this process computed for `data`).
pub open spec fn describes(c: CompressedData, alg: u8, level: u8, data: Seq<u8>, payload: Seq<u8>) -> bool {
    &&& c.algorithm == alg
    &&& c.level == level
    &&& c.original_size == data.len()
    &&& c.data@ == payload
}

/// `c` holds `data` uncompressed.
pub open spec fn stored_plain(c: CompressedData, data: Seq<u8>) -> bool {
    describes(c, 0, 0, data, data)
}

/// The level recorded for `alg` at `level`: 0 for no compression.
pub open spec fn recorded_level(alg: CompressionAlgorithm, level: u8) -> u8 {
    if alg == CompressionAlgorithm::Uncompressed {
        0
    } else {
        level
    }
}

/// The payload that `alg` at `level` produces for `data` (for Brotli the
/// level is the window), or `None` when its encoder fails.
pub open spec fn encoding(alg: CompressionAlgorithm, level: u8, data: Seq<u8>) -> Option<Seq<u8>> {
    match alg {
        CompressionAlgorithm::Uncompressed => Some(data),
        CompressionAlgorithm::Zstd => spec_zstd_compress(data, level as i32),
        CompressionAlgorithm::Lz4 => Some(spec_lz4_compress(data)),
        CompressionAlgorithm::Brotli => spec_brotli_compress(data, level as u32),
    }
}

/// `c` is the `alg`-at-`level` encoding of `data`.
pub open spec fn stored_encoded(c: CompressedData, alg: CompressionAlgorithm, level: u8, data: Seq<u8>) -> bool {
    &&& encoding(alg, level, data) == Some(c.data@)
    &&& describes(c, algorithm_code(alg), recorded_level(alg, level), data, c.data@)
}

/// `c` holds `data` as compressing it with `alg` at `level` may leave it:
/// plainly, or encoded.
pub open spec fn holds_data(c: CompressedData, alg: CompressionAlgorithm, level: u8, data: Seq<u8>) -> bool {
    stored_plain(c, data) || stored_encoded(c, alg, level, data)
}

/// `alg` at `level` encodes `data` in a form its decoder reads back: a zstd
/// level the decoder takes (at most 22), and for LZ4 fewer than 2^32 bytes
/// (its size header is 32 bits wide).
pub open spec fn reads_back(alg: CompressionAlgorithm, level: u8, data: Seq<u8>) -> bool {
    level <= 22 && (alg == CompressionAlgorithm::Lz4 ==> data.len() < 0x1_0000_0000)
}

/// `r` gives `data` back, or fails the checksum.
pub open spec fn restored(r: Result<Vec<u8>, NetworkError>, data: Seq<u8>) -> bool {
    ||| (r matches Ok(v) && v@ == data)
    ||| (r matches Err(NetworkError::Internal(t)) && t@ == "Checksum verification failed"@)
}

/// The error of an encoder that failed: its text names the encoder.
pub open spec fn encoder_error(e: NetworkError, alg: CompressionAlgorithm) -> bool {
    e matches NetworkError::Internal(t) && ((alg == CompressionAlgorithm::Zstd && begins_with(
        t@,
        "zstd compression failed: "@,
    )) || (alg == CompressionAlgorithm::Brotli && begins_with(t@, "Brotli compression failed: "@)))
}

/// The outcome of compressing `data` of at least the minimum size with
/// `alg` at `level`: when the encoder succeeds, its encoding, or the plain
/// bytes when the time limit was exceeded; when it fails, an error naming
/// the encoder.
pub open spec fn compressed_outcome(
    r: Result<CompressedData, NetworkError>,
    alg: CompressionAlgorithm,
    level: u8,
    data: Seq<u8>,
) -> bool {
    match encoding(alg, level, data) {
        Some(_) => r matches Ok(c) && holds_data(c, alg, level, data),
        None => r matches Err(e) && encoder_error(e, alg),
    }
}

/// What reading back the payload of a record with algorithm code `alg` gives.
pub open spec fn spec_unpack(alg: u8, payload: Seq<u8>) -> Option<Seq<u8>> {
    if alg == 0 {
        Some(payload)
    } else if alg == 1 {
        spec_zstd_decode(payload)
    } else if alg == 2 {
        spec_lz4_decompress(payload)
    } else if alg == 3 {
        spec_brotli_decompress(payload)
    } else {
        None
    }
}

/// The error text of a payload that does not read back.
pub open spec fn unpack_error(alg: u8, t: Seq<char>) -> bool {
    if alg == 1 {
        begins_with(t, "zstd decompression failed: "@)
    } else if alg == 2 {
        begins_with(t, "LZ4 decompression failed: "@)
    } else if alg == 3 {
        begins_with(t, "Brotli decompression failed: "@)
    } else {
        t == "Unknown compression algorithm"@
    }
}

/// `r` is the outcome of decompressing a record with algorithm code `alg`,
/// `payload`, `original_size` and `checksum` when the checksum computed for
/// the bytes read back is `computed`: the payload's reading error, else the
/// size mismatch, else the bytes when `computed` is the recorded checksum,
/// else the failed checksum.
pub open spec fn decompress_result(
    alg: u8,
    payload: Seq<u8>,
    original_size: nat,
    checksum: u32,
    computed: u32,
    r: Result<Vec<u8>, NetworkError>,
) -> bool {
    match spec_unpack(alg, payload) {
        None => (r matches Err(NetworkError::Internal(t)) && unpack_error(alg, t@)),
        Some(d) => if d.len() != original_size {
            (r matches Err(NetworkError::Internal(t)) && t@ == size_mismatch_text(d.len(), original_size))
        } else if computed == checksum {
            (r matches Ok(v) && v@ == d)
        } else {
            (r matches Err(NetworkError::Internal(t)) && t@ == "Checksum verification failed"@)
        },
    }
}

/// Checks bytes read back from a record against the record's checksum,
/// given the checksum `computed` for them: the bytes when the two agree,
/// else the failed checksum.
pub fn check_decompressed(compressed: &CompressedData, data: Vec<u8>, computed: u32) -> (r: Result<Vec<u8>, NetworkError>)
    ensures
        computed == compressed.checksum ==> (r matches Ok(v) && v@ == data@),
        computed != compressed.checksum ==> (r matches Err(NetworkError::Internal(t)) && t@
            == "Checksum verification failed"@),
{
    if computed != compressed.checksum {
        return Err(NetworkError::Internal("Checksum verification failed".to_string()));
    }
    Ok(data)
}

/// Compression service.
#[derive(Debug)]
pub struct CompressionService {
    /// Configuration
    pub config: CompressionConfig,
    /// Compression statistics
    pub stats: CompressionStats,
    /// Running flag
    pub running: bool,
}

/// The number of (i, j) pairs of 4-byte windows that the repeat detector
/// compares for an input of `n` bytes.
pub open spec fn repeat_pair_count(n: int) -> int {
    let m = if n >= 4 { n - 4 } else { 0 };
    if m >= 4 { (m - 4) * (m - 3) / 2 } else { 0 }
}

/// How many later windows `data[j..j+4]` (j from i+4 while j < n-4) repeat
/// the window at `i`, counted over `i` below `upto`.
pub open spec fn repeats_before(data: Seq<u8>, upto: int) -> int
    decreases upto,
{
    if upto <= 0 {
        0
    } else {
        repeats_before(data, upto - 1) + repeats_of(data, upto - 1, data.len() - 4)
    }
}

/// How many windows `data[j..j+4]` with `i + 4 <= j < upto` equal `data[i..i+4]`.
pub open spec fn repeats_of(data: Seq<u8>, i: int, upto: int) -> int
    decreases upto - i,
{
    if upto <= i + 4 {
        0
    } else {
        repeats_of(data, i, upto - 1) + if data.subrange(upto - 1, upto + 3) == data.subrange(i, i + 4) {
            1int
        } else {
            0int
        }
    }
}

impl CompressionService {
    /// Creates a compression service, not yet running, with zero statistics.
    pub fn new(config: CompressionConfig) -> (r: Self)
        ensures
            r.config == config,
            r.stats == zero_stats(),
            !r.running,
    {
        CompressionService { config, stats: CompressionStats::default(), running: false }
    }

    /// Starts the service; starting it twice is refused.
    pub fn start(&mut self) -> (r: Result<(), NetworkError>)
        ensures
            old(self).running ==> (r matches Err(NetworkError::ServiceAlreadyStarted) && *final(self) == *old(self)),
            !old(self).running ==> r is Ok && final(self).running && final(self).config == old(self).config
                && final(self).stats == old(self).stats,
    {
        if self.running {
            return Err(NetworkError::ServiceAlreadyStarted);
        }
        self.running = true;
        Ok(())
    }

    /// Stops the service (stopping a stopped service does nothing).
    pub fn stop(&mut self) -> (r: Result<(), NetworkError>)
        ensures
            r is Ok,
            !final(self).running,
            final(self).config == old(self).config,
            final(self).stats == old(self).stats,
    {
        self.running = false;
        Ok(())
    }

    /// Builds the record of a finished compression of `data` into
    /// `compressed` under `algorithm`/`level`, taking `elapsed_ms`: over the
    /// configured time limit the data is stored uncompressed instead; else,
    /// with statistics on, the operation is counted.
    pub fn finish_compression(
        &mut self,
        data: &[u8],
        algorithm: u8,
        level: u8,
        compressed: Vec<u8>,
        elapsed_ms: u64,
    ) -> (r: CompressedData)
        ensures
            final(self).config == old(self).config,
            final(self).running == old(self).running,
            elapsed_ms > old(self).config.max_time_ms ==> stored_plain(r, data@) && final(self).stats == old(self).stats,
            elapsed_ms <= old(self).config.max_time_ms ==> describes(r, algorithm, level, data@, compressed@),
            elapsed_ms <= old(self).config.max_time_ms && old(self).config.track_stats ==>
                final(self).stats == after_compression(old(self).stats, data.len() as int, elapsed_ms),
            elapsed_ms <= old(self).config.max_time_ms && !old(self).config.track_stats ==>
                final(self).stats == old(self).stats,
    {
        if elapsed_ms > self.config.max_time_ms {
            return CompressedData {
                algorithm: 0,
                level: 0,
                original_size: data.len(),
                data: vstd::slice::slice_to_vec(data),
                checksum: checksum_of(data),
            };
        }
        if self.config.track_stats {
            self.stats.total_bytes_compressed = self.stats.total_bytes_compressed.wrapping_add(data.len() as u64);
            self.stats.compression_count = self.stats.compression_count.wrapping_add(1);
            self.stats.total_compression_time_ms = self.stats.total_compression_time_ms.wrapping_add(elapsed_ms);
        }
        CompressedData {
            algorithm,
            level,
            original_size: data.len(),
            data: compressed,
            checksum: checksum_of(data),
        }
    }

    /// Compresses data with the configured algorithm. A service that is not
    /// running refuses; data shorter than the configured minimum is stored
    /// uncompressed; so is data whose compression took longer than the
    /// configured limit (which depends on the clock).
    pub fn compress(&mut self, data: &[u8]) -> (r: Result<CompressedData, NetworkError>)
        ensures
            final(self).config == old(self).config,
            final(self).running == old(self).running,
            !old(self).running ==> r matches Err(NetworkError::ServiceNotStarted),
            !old(self).running || data.len() < old(self).config.min_size ==> final(self).stats == old(self).stats,
            old(self).running && data.len() < old(self).config.min_size ==> (r matches Ok(c) && stored_plain(c, data@)),
            old(self).running && data.len() >= old(self).config.min_size ==> compressed_outcome(
                r,
                old(self).config.algorithm,
                old(self).config.level@,
                data@,
            ),
            r is Err || !old(self).config.track_stats ==> final(self).stats == old(self).stats,
            final(self).stats == old(self).stats || exists|ms: u64|
                final(self).stats == #[trigger] after_compression(old(self).stats, data.len() as int, ms),
    {
        if !self.running {
            return Err(NetworkError::ServiceNotStarted);
        }
        if data.len() < self.config.min_size {
            return Ok(CompressedData {
                algorithm: 0,
                level: 0,
                original_size: data.len(),
                data: vstd::slice::slice_to_vec(data),
                checksum: checksum_of(data),
            });
        }
        let start = start_clock();
        let (algorithm, level, compressed): (u8, u8, Vec<u8>) = match self.config.algorithm {
            CompressionAlgorithm::Uncompressed => (0, 0, vstd::slice::slice_to_vec(data)),
            CompressionAlgorithm::Zstd => {
                let level = self.config.level.value();
                match zstd_compress(data, level as i32) {
                    Ok(c) => (1, level, c),
                    Err(e) => {
                        let text = prefixed("zstd compression failed: ", &io_error_text(&e));
                        return Err(NetworkError::Internal(text));
                    },
                }
            },
            CompressionAlgorithm::Lz4 => {
                let level = self.config.level.value();
                (2, level, lz4_compress(data))
            },
            CompressionAlgorithm::Brotli => {
                let level = self.config.level.value();
                match brotli_compress(data, level as u32) {
                    Ok(c) => (3, level, c),
                    Err(e) => {
                        let text = prefixed("Brotli compression failed: ", &io_error_text(&e));
                        return Err(NetworkError::Internal(text));
                    },
                }
            },
        };
        let elapsed = elapsed_millis(&start);
        let r = self.finish_compression(data, algorithm, level, compressed, elapsed);
        proof {
            if elapsed <= old(self).config.max_time_ms {
                assert(stored_encoded(r, old(self).config.algorithm, old(self).config.level@, data@));
            }
        }
        Ok(r)
    }

    /// Reads the payload of a record back with the algorithm it names.
    fn unpack(compressed: &CompressedData) -> (r: Result<Vec<u8>, NetworkError>)
        ensures
            match r {
                Ok(v) => spec_unpack(compressed.algorithm, compressed.data@) == Some(v@),
                Err(NetworkError::Internal(t)) => spec_unpack(compressed.algorithm, compressed.data@) is None
                    && unpack_error(compressed.algorithm, t@),
                Err(_) => false,
            },
            compressed.algorithm == 0 ==> r is Ok && r->Ok_0@ == compressed.data@,
            forall|x: Seq<u8>, l: i32|
                0 <= l <= 22 && compressed.algorithm == 1 && #[trigger] spec_zstd_compress(x, l) == Some(compressed.data@)
                    ==> r is Ok && r->Ok_0@ == x,
            forall|x: Seq<u8>|
                x.len() < 0x1_0000_0000 && compressed.algorithm == 2 && #[trigger] spec_lz4_compress(x)
                    == compressed.data@ ==> r is Ok && r->Ok_0@ == x,
            forall|x: Seq<u8>, w: u32|
                compressed.algorithm == 3 && #[trigger] spec_brotli_compress(x, w) == Some(compressed.data@) ==> r is Ok
                    && r->Ok_0@ == x,
    {
        if compressed.algorithm == 0 {
            Ok(compressed.data.clone())
        } else if compressed.algorithm == 1 {
            match zstd_decode_all(compressed.data.as_slice()) {
                Ok(v) => Ok(v),
                Err(e) => {
                    let text = prefixed("zstd decompression failed: ", &io_error_text(&e));
                    Err(NetworkError::Internal(text))
                },
            }
        } else if compressed.algorithm == 2 {
            match lz4_decompress(compressed.data.as_slice()) {
                Ok(v) => Ok(v),
                Err(e) => {
                    let text = prefixed("LZ4 decompression failed: ", &lz4_error_text(&e));
                    Err(NetworkError::Internal(text))
                },
            }
        } else if compressed.algorithm == 3 {
            match brotli_decompress(compressed.data.as_slice()) {
                Ok(v) => Ok(v),
                Err(e) => {
                    let text = prefixed("Brotli decompression failed: ", &io_error_text(&e));
                    Err(NetworkError::Internal(text))
                },
            }
        } else {
            Err(NetworkError::Internal("Unknown compression algorithm".to_string()))
        }
    }

    /// Decompresses a record and checks the size and the checksum of the
    /// result; with statistics on, a success is counted.
    pub fn decompress(&mut self, compressed: &CompressedData) -> (r: Result<Vec<u8>, NetworkError>)
        ensures
            final(self).config == old(self).config,
            final(self).running == old(self).running,
            !old(self).running ==> r matches Err(NetworkError::ServiceNotStarted),
            old(self).running ==> exists|computed: u32|
                #[trigger] decompress_result(
                    compressed.algorithm,
                    compressed.data@,
                    compressed.original_size as nat,
                    compressed.checksum,
                    computed,
                    r,
                ),
            r is Err || !old(self).config.track_stats ==> final(self).stats == old(self).stats,
            match r {
                Ok(v) => old(self).config.track_stats ==> exists|ms: u64|
                    final(self).stats == #[trigger] after_decompression(old(self).stats, v.len() as int, ms),
                Err(_) => true,
            },
            old(self).running ==> forall|alg: CompressionAlgorithm, level: u8, d: Seq<u8>|
                reads_back(alg, level, d) && #[trigger] holds_data(*compressed, alg, level, d) ==> restored(r, d),
    {
        if !self.running {
            return Err(NetworkError::ServiceNotStarted);
        }
        let start = start_clock();
        let decompressed = match Self::unpack(compressed) {
            Ok(v) => v,
            Err(e) => {
                let result: Result<Vec<u8>, NetworkError> = Err(e);
                assert(decompress_result(compressed.algorithm, compressed.data@, compressed.original_size as nat, compressed.checksum, 0, result));
                return result;
            },
        };
        let elapsed = elapsed_millis(&start);
        if decompressed.len() != compressed.original_size {
            let result: Result<Vec<u8>, NetworkError> = Err(
                NetworkError::Internal(size_mismatch(decompressed.len(), compressed.original_size)),
            );
            assert(decompress_result(compressed.algorithm, compressed.data@, compressed.original_size as nat, compressed.checksum, 0, result));
            return result;
        }
        let computed = checksum_of(decompressed.as_slice());
        let decompressed = match check_decompressed(compressed, decompressed, computed) {
            Ok(v) => v,
            Err(e) => {
                let result: Result<Vec<u8>, NetworkError> = Err(e);
                assert(decompress_result(compressed.algorithm, compressed.data@, compressed.original_size as nat, compressed.checksum, computed, result));
                return result;
            },
        };
        assert(decompress_result(compressed.algorithm, compressed.data@, compressed.original_size as nat, compressed.checksum, computed, Ok::<Vec<u8>, NetworkError>(decompressed)));
        if self.config.track_stats {
            self.stats.total_bytes_decompressed = self.stats.total_bytes_decompressed.wrapping_add(decompressed.len() as u64);
            self.stats.decompression_count = self.stats.decompression_count.wrapping_add(1);
            self.stats.total_decompression_time_ms = self.stats.total_decompression_time_ms.wrapping_add(elapsed);
            assert(self.stats == after_decompression(old(self).stats, decompressed.len() as int, elapsed));
        }
        Ok(decompressed)
    }

    /// Compresses with a given algorithm and level through a separate,
    /// freshly started service; this service's statistics are not touched.
    pub fn compress_with(&self, data: &[u8], algorithm: CompressionAlgorithm, level: CompressionLevel) -> (r: Result<
        CompressedData,
        NetworkError,
    >)
        ensures
            data.len() < self.config.min_size ==> (r matches Ok(c) && stored_plain(c, data@)),
            data.len() >= self.config.min_size ==> compressed_outcome(r, algorithm, level@, data@),
    {
        let mut temp_config = self.config;
        temp_config.algorithm = algorithm;
        temp_config.level = level;
        let mut temp_service = CompressionService::new(temp_config);
        let started = temp_service.start();
        assert(started is Ok);
        let result = temp_service.compress(data);
        let _ = temp_service.stop();
        result
    }

    /// The compression statistics.
    pub fn get_stats(&self) -> (r: CompressionStats)
        ensures
            r == self.stats,
    {
        self.stats
    }

    /// Counts repeated 4-byte windows: for each window `data[i..i+4]`
    /// (i below n-4) the windows `data[j..j+4]` with i+4 <= j < n-4 are
    /// compared with it. Returns (matches, comparisons); inputs shorter than
    /// 16 bytes are not examined.
    pub fn detect_repeat_patterns(data: &[u8]) -> (r: (u64, u64))
        requires
            repeat_pair_count(data.len() as int) <= i32::MAX,
        ensures
            data.len() < 16 ==> r == (0u64, 0u64),
            data.len() >= 16 ==> r.1 == repeat_pair_count(data.len() as int)
                && r.0 == repeats_before(data@, data.len() - 4),
    {
        if data.len() < 16 {
            return (0, 0);
        }
        let n = data.len();
        let mut patterns: u64 = 0;
        let mut total: u64 = 0;
        let mut i: usize = 0;
        while i < n - 4
            invariant
                n == data.len(),
                n >= 16,
                i <= n - 4,
                repeat_pair_count(n as int) <= i32::MAX,
                total == pairs_before(n as int - 4, i as int),
                patterns == repeats_before(data@, i as int),
                patterns <= total,
            decreases n - 4 - i,
        {
            proof {
                lemma_pairs_bounded(n as int - 4, i as int + 1);
                lemma_pairs_total(n as int);
            }
            let mut j: usize = i + 4;
            let ghost start_p = patterns;
            let ghost start_t = total;
            while j < n - 4
                invariant
                    n == data.len(),
                    n >= 16,
                    i < n - 4,
                    i + 4 <= j,
                    j <= n - 4 || j == i + 4,
                    pairs_before(n as int - 4, i as int + 1) <= i32::MAX,
                    start_t == pairs_before(n as int - 4, i as int),
                    start_p == repeats_before(data@, i as int),
                    start_p <= start_t,
                    total == start_t + (j - (i + 4)),
                    patterns == start_p + repeats_of(data@, i as int, j as int),
                    repeats_of(data@, i as int, j as int) <= j - (i + 4),
                decreases n - j,
            {
                total = total + 1;
                if data[j] == data[i] && data[j + 1] == data[i + 1] && data[j + 2] == data[i + 2] && data[j + 3] == data[i + 3] {
                    assert(data@.subrange(j as int, j + 4) =~= data@.subrange(i as int, i + 4));
                    patterns = patterns + 1;
                } else {
                    assert(data@.subrange(j as int, j + 4) != data@.subrange(i as int, i + 4)) by {
                        if data@.subrange(j as int, j + 4) == data@.subrange(i as int, i + 4) {
                            assert(data@.subrange(j as int, j + 4)[0] == data@.subrange(i as int, i + 4)[0]);
                            assert(data@.subrange(j as int, j + 4)[1] == data@.subrange(i as int, i + 4)[1]);
                            assert(data@.subrange(j as int, j + 4)[2] == data@.subrange(i as int, i + 4)[2]);
                            assert(data@.subrange(j as int, j + 4)[3] == data@.subrange(i as int, i + 4)[3]);
                        }
                    }
                }
                j = j + 1;
            }
            proof {
                lemma_pairs_step(n as int - 4, i as int);
            }
            i = i + 1;
        }
        proof {
            lemma_pairs_total(n as int);
        }
        (patterns, total)
    }

    /// Chooses the algorithm and level for adaptive compression: low-entropy
    /// data gets zstd at the maximum level, data with many repeats gets
    /// Brotli at level 9, data under 4 KiB gets LZ4 at the minimum level, and
    /// anything else the configured algorithm and level.
    pub fn choose_adaptive(&self, len: usize, low_entropy: bool, many_repeats: bool) -> (r: (
        CompressionAlgorithm,
        CompressionLevel,
    ))
        ensures
            low_entropy ==> r.0 == CompressionAlgorithm::Zstd && r.1@ == 22,
            !low_entropy && many_repeats ==> r.0 == CompressionAlgorithm::Brotli && r.1@ == 9,
            !low_entropy && !many_repeats && len < 4096 ==> r.0 == CompressionAlgorithm::Lz4 && r.1@ == 0,
            !low_entropy && !many_repeats && len >= 4096 ==> r.0 == self.config.algorithm && r.1 == self.config.level,
    {
        if low_entropy {
            (CompressionAlgorithm::Zstd, CompressionLevel::max())
        } else if many_repeats {
            match CompressionLevel::new(9) {
                Ok(l) => (CompressionAlgorithm::Brotli, l),
                Err(_) => (CompressionAlgorithm::Brotli, CompressionLevel::max()),
            }
        } else if len < 4096 {
            (CompressionAlgorithm::Lz4, CompressionLevel::min())
        } else {
            (self.config.algorithm, self.config.level)
        }
    }

    /// Adaptive compression: without adaptivity this is [`Self::compress`];
    /// with it, the algorithm is chosen by [`Self::choose_adaptive`] from the
    /// data's characteristics (entropy under 0.3, more than 70% of window
    /// comparisons matching) and applied through [`Self::compress_with`].
    pub fn adaptive_compress(&mut self, data: &[u8], low_entropy: bool, many_repeats: bool) -> (r: Result<
        CompressedData,
        NetworkError,
    >)
        ensures
            final(self).config == old(self).config,
            final(self).running == old(self).running,
            old(self).config.adaptive ==> final(self).stats == old(self).stats,
            !old(self).config.adaptive && !old(self).running ==> r matches Err(NetworkError::ServiceNotStarted),
            !old(self).config.adaptive && old(self).running && data.len() < old(self).config.min_size ==>
                (r matches Ok(c) && stored_plain(c, data@)),
            !old(self).config.adaptive && old(self).running && data.len() >= old(self).config.min_size ==>
                compressed_outcome(r, old(self).config.algorithm, old(self).config.level@, data@),
            !old(self).config.adaptive ==> final(self).stats == old(self).stats || exists|ms: u64|
                final(self).stats == #[trigger] after_compression(old(self).stats, data.len() as int, ms),
            old(self).config.adaptive && data.len() < old(self).config.min_size ==>
                (r matches Ok(c) && stored_plain(c, data@)),
            old(self).config.adaptive && data.len() >= old(self).config.min_size ==> ({
                let choice = adaptive_choice(old(self).config, data.len() as int, low_entropy, many_repeats);
                compressed_outcome(r, choice.0, choice.1, data@)
            }),
    {
        if !self.config.adaptive {
            return self.compress(data);
        }
        let (algorithm, level) = self.choose_adaptive(data.len(), low_entropy, many_repeats);
        self.compress_with(data, algorithm, level)
    }
}

/// The length of a packed record's header.
pub const RECORD_HEADER_LEN: usize = 14;

/// The wire form of a record: the algorithm code, the level, the original
/// size as two little-endian 32-bit halves (low half first), the checksum
/// little-endian, then the payload.
pub open spec fn record_bytes(c: CompressedData) -> Seq<u8> {
    seq![c.algorithm, c.level] + le_bytes(c.original_size as int % 0x1_0000_0000) + le_bytes(
        c.original_size as int / 0x1_0000_0000,
    ) + le_bytes(c.checksum as int) + c.data@
}

/// A record's fields: algorithm code, level, original size, checksum, payload.
pub open spec fn record_fields(c: CompressedData) -> (u8, u8, int, u32, Seq<u8>) {
    (c.algorithm, c.level, c.original_size as int, c.checksum, c.data@)
}

/// Reading a record's fields from its wire form, or nothing when the bytes
/// are shorter than the header.
pub open spec fn parse_record(b: Seq<u8>) -> Option<(u8, u8, int, u32, Seq<u8>)> {
    if b.len() < RECORD_HEADER_LEN {
        None
    } else {
        Some(
            (
                b[0],
                b[1],
                from_le(b.subrange(2, 6)) + 0x1_0000_0000 * from_le(b.subrange(6, 10)),
                from_le(b.subrange(10, 14)) as u32,
                b.subrange(RECORD_HEADER_LEN as int, b.len() as int),
            ),
        )
    }
}

/// A record read back from its wire form has the fields it was written with.
pub proof fn lemma_packed_round_trip(c: CompressedData)
    ensures
        parse_record(record_bytes(c)) == Some(record_fields(c)),
{
    let n = c.original_size as int;
    let lo = n % 0x1_0000_0000;
    let hi = n / 0x1_0000_0000;
    let b = record_bytes(c);
    assert(0 <= hi < 0x1_0000_0000);
    lemma_le_roundtrip(lo);
    lemma_le_roundtrip(hi);
    lemma_le_roundtrip(c.checksum as int);
    assert(b.subrange(2, 6) =~= le_bytes(lo));
    assert(b.subrange(6, 10) =~= le_bytes(hi));
    assert(b.subrange(10, 14) =~= le_bytes(c.checksum as int));
    assert(b.subrange(14, b.len() as int) =~= c.data@);
    assert(lo + 0x1_0000_0000 * hi == n);
}

/// `v` is the wire form of a record that holds `data` as compressing it with
/// `alg` at `level` may leave it.
pub open spec fn packed_by(v: Seq<u8>, alg: CompressionAlgorithm, level: u8, data: Seq<u8>) -> bool {
    exists|c: CompressedData| #[trigger] record_bytes(c) == v && holds_data(c, alg, level, data)
}

/// `r` is the error for bytes that are no packed record.
pub open spec fn malformed(r: Result<Vec<u8>, NetworkError>) -> bool {
    r matches Err(NetworkError::Internal(t)) && t@ == "Malformed compressed payload"@
}

/// `r` is the outcome of unpacking the wire bytes `b` when the checksum
/// computed for the bytes read back is `computed`: a record that cannot be
/// read (too short, or an original size beyond `usize`) is malformed; else
/// it is decompressed.
pub open spec fn unpack_result(b: Seq<u8>, computed: u32, r: Result<Vec<u8>, NetworkError>) -> bool {
    match parse_record(b) {
        None => malformed(r),
        Some(f) => if f.2 > usize::MAX {
            malformed(r)
        } else {
            decompress_result(f.0, f.4, f.2 as nat, f.3, computed, r)
        },
    }
}

impl CompressedData {
    /// The record's wire form (see [`record_bytes`]).
    pub fn to_bytes(&self) -> (r: Vec<u8>)
        ensures
            r@ == record_bytes(*self),
    {
        let size: u64 = self.original_size as u64;
        let lo: u32 = (size % 0x1_0000_0000u64) as u32;
        let hi: u32 = (size / 0x1_0000_0000u64) as u32;
        let mut out: Vec<u8> = Vec::new();
        out.push(self.algorithm);
        out.push(self.level);
        push_all(&mut out, &u32_to_le_bytes(lo));
        push_all(&mut out, &u32_to_le_bytes(hi));
        push_all(&mut out, &u32_to_le_bytes(self.checksum));
        push_all(&mut out, self.data.as_slice());
        assert(out@ =~= record_bytes(*self));
        out
    }

    /// Reads a record from its wire form; `None` when the bytes are shorter
    /// than the header or the original size does not fit in `usize`.
    pub fn from_bytes(bytes: &[u8]) -> (r: Option<CompressedData>)
        ensures
            match r {
                Some(c) => parse_record(bytes@) == Some(record_fields(c)),
                None => match parse_record(bytes@) {
                    None => true,
                    Some(f) => f.2 > usize::MAX,
                },
            },
    {
        if bytes.len() < RECORD_HEADER_LEN {
            return None;
        }
        let lo_bytes: [u8; 4] = [bytes[2], bytes[3], bytes[4], bytes[5]];
        let hi_bytes: [u8; 4] = [bytes[6], bytes[7], bytes[8], bytes[9]];
        let sum_bytes: [u8; 4] = [bytes[10], bytes[11], bytes[12], bytes[13]];
        assert(lo_bytes@ =~= bytes@.subrange(2, 6));
        assert(hi_bytes@ =~= bytes@.subrange(6, 10));
        assert(sum_bytes@ =~= bytes@.subrange(10, 14));
        let lo = u32_from_le_bytes(lo_bytes);
        let hi = u32_from_le_bytes(hi_bytes);
        let checksum = u32_from_le_bytes(sum_bytes);
        let size: u64 = lo as u64 + (hi as u64) * 0x1_0000_0000u64;
        if size > usize::MAX as u64 {
            return None;
        }
        let mut payload: Vec<u8> = Vec::new();
        let mut i: usize = RECORD_HEADER_LEN;
        while i < bytes.len()
            invariant
                RECORD_HEADER_LEN <= i <= bytes.len(),
                payload@ == bytes@.subrange(RECORD_HEADER_LEN as int, i as int),
            decreases bytes.len() - i,
        {
            payload.push(bytes[i]);
            i = i + 1;
            assert(payload@ =~= bytes@.subrange(RECORD_HEADER_LEN as int, i as int));
        }
        Some(CompressedData { algorithm: bytes[0], level: bytes[1], original_size: size as usize, data: payload, checksum })
    }
}

/// Serialization wrapper with optional compression of the serialized bytes:
/// with compression on, the bytes travel as a packed record (see
/// [`record_bytes`]) that names how they were compressed.
#[derive(Debug)]
pub struct ProtobufService {
    /// Enable compression
    pub enable_compression: bool,
    /// Compression service
    pub compression: CompressionService,
}

impl ProtobufService {
    /// Creates the service with its compression service running: zstd at
    /// level 3 for payloads of 512 bytes or more, a 50 ms limit, no
    /// adaptivity, statistics on.
    pub fn new(enable_compression: bool) -> (r: Self)
        ensures
            r.enable_compression == enable_compression,
            r.compression.config.algorithm == CompressionAlgorithm::Zstd,
            r.compression.config.level@ == 3,
            r.compression.config.min_size == 512,
            r.compression.config.max_time_ms == 50,
            !r.compression.config.adaptive,
            r.compression.config.track_stats,
            r.compression.running,
            r.compression.stats == zero_stats(),
    {
        let level = match CompressionLevel::new(3) {
            Ok(l) => l,
            Err(_) => CompressionLevel::default(),
        };
        let config = CompressionConfig {
            algorithm: CompressionAlgorithm::Zstd,
            level,
            min_size: 512,
            max_time_ms: 50,
            adaptive: false,
            track_stats: true,
        };
        let mut compression = CompressionService::new(config);
        let _ = compression.start();
        ProtobufService { enable_compression, compression }
    }

    /// Prepares serialized bytes for the wire: with compression enabled they
    /// are compressed and sent as a packed record; otherwise as they are.
    pub fn pack_serialized(&mut self, serialized: Vec<u8>) -> (r: Result<Vec<u8>, NetworkError>)
        ensures
            final(self).enable_compression == old(self).enable_compression,
            final(self).compression.config == old(self).compression.config,
            final(self).compression.running == old(self).compression.running,
            !old(self).enable_compression ==> r is Ok && r->Ok_0@ == serialized@,
            old(self).enable_compression && !old(self).compression.running ==> r matches Err(
                NetworkError::ServiceNotStarted,
            ),
            old(self).enable_compression && old(self).compression.running && serialized.len()
                < old(self).compression.config.min_size ==> (r matches Ok(v) && exists|c: CompressedData|
                #[trigger] record_bytes(c) == v@ && stored_plain(c, serialized@)),
            old(self).enable_compression && old(self).compression.running && serialized.len()
                >= old(self).compression.config.min_size ==> ({
                let alg = old(self).compression.config.algorithm;
                let level = old(self).compression.config.level@;
                match encoding(alg, level, serialized@) {
                    Some(_) => (r matches Ok(v) && packed_by(v@, alg, level, serialized@)),
                    None => (r matches Err(e) && encoder_error(e, alg)),
                }
            }),
    {
        if !self.enable_compression {
            return Ok(serialized);
        }
        match self.compression.compress(serialized.as_slice()) {
            Ok(c) => {
                let v = c.to_bytes();
                assert(record_bytes(c) == v@);
                Ok(v)
            },
            Err(e) => Err(e),
        }
    }

    /// Recovers serialized bytes from the wire: with compression enabled the
    /// input is read as a packed record and decompressed; otherwise it is
    /// passed through. Unpacking what [`Self::pack_serialized`] packed gives
    /// the bytes back, unless the checksum fails.
    pub fn unpack_serialized(&mut self, data: &[u8]) -> (r: Result<Vec<u8>, NetworkError>)
        ensures
            final(self).enable_compression == old(self).enable_compression,
            final(self).compression.config == old(self).compression.config,
            final(self).compression.running == old(self).compression.running,
            !old(self).enable_compression ==> r is Ok && r->Ok_0@ == data@,
            old(self).enable_compression && !old(self).compression.running ==> r matches Err(
                NetworkError::ServiceNotStarted,
            ),
            old(self).enable_compression && old(self).compression.running ==> exists|computed: u32|
                #[trigger] unpack_result(data@, computed, r),
            old(self).enable_compression && old(self).compression.running ==> forall|
                alg: CompressionAlgorithm,
                level: u8,
                d: Seq<u8>,
            | reads_back(alg, level, d) && #[trigger] packed_by(data@, alg, level, d) ==> restored(r, d),
    {
        if !self.enable_compression {
            return Ok(vstd::slice::slice_to_vec(data));
        }
        if !self.compression.running {
            return Err(NetworkError::ServiceNotStarted);
        }
        let parsed = CompressedData::from_bytes(data);
        proof {
            assert forall|alg: CompressionAlgorithm, level: u8, d: Seq<u8>|
                #[trigger] packed_by(data@, alg, level, d) implies parsed is Some && holds_data(
                parsed->Some_0,
                alg,
                level,
                d,
            ) by {
                let c = choose|c: CompressedData| #[trigger] record_bytes(c) == data@ && holds_data(c, alg, level, d);
                lemma_packed_round_trip(c);
            }
        }
        match parsed {
            None => {
                let r: Result<Vec<u8>, NetworkError> = Err(NetworkError::Internal("Malformed compressed payload".to_string()));
                assert(unpack_result(data@, 0, r));
                r
            },
            Some(c) => {
                let r = self.compression.decompress(&c);
                proof {
                    let computed = choose|computed: u32|
                        #[trigger] decompress_result(c.algorithm, c.data@, c.original_size as nat, c.checksum, computed, r);
                    assert(unpack_result(data@, computed, r));
                }
                r
            },
        }
    }
}

/// The adaptive choice as (algorithm, level value), in the order of
/// [`CompressionService::choose_adaptive`].
pub open spec fn adaptive_choice(config: CompressionConfig, len: int, low_entropy: bool, many_repeats: bool) -> (
    CompressionAlgorithm,
    u8,
) {
    if low_entropy {
        (CompressionAlgorithm::Zstd, 22)
    } else if many_repeats {
        (CompressionAlgorithm::Brotli, 9)
    } else if len < 4096 {
        (CompressionAlgorithm::Lz4, 0)
    } else {
        (config.algorithm, config.level@)
    }
}

/// Comparisons made for window positions below `i` when there are `m`
/// windows (`m` = n - 4).
pub open spec fn pairs_before(m: int, i: int) -> int
    decreases i,
{
    if i <= 0 {
        0
    } else {
        pairs_before(m, i - 1) + if m - (i - 1) - 4 > 0 { m - (i - 1) - 4 } else { 0 }
    }
}

proof fn lemma_pairs_step(m: int, i: int)
    requires
        0 <= i,
    ensures
        pairs_before(m, i + 1) == pairs_before(m, i) + if m - i - 4 > 0 { m - i - 4 } else { 0 },
{
}

proof fn lemma_pairs_monotone(m: int, i: int, k: int)
    requires
        0 <= i <= k,
    ensures
        pairs_before(m, i) <= pairs_before(m, k),
    decreases k - i,
{
    if i < k {
        lemma_pairs_monotone(m, i, k - 1);
    }
}

proof fn lemma_pairs_closed(m: int, i: int)
    requires
        4 <= m,
        0 <= i <= m,
    ensures
        2 * pairs_before(m, i) == (if i <= m - 4 { i * (2 * m - 7 - i) } else { (m - 4) * (m - 3) }),
    decreases i,
{
    if i == 0 {
        assert(0 * (2 * m - 7 - 0) == 0) by (nonlinear_arith);
    } else {
        lemma_pairs_closed(m, i - 1);
        lemma_pairs_step(m, i - 1);
        let prev = pairs_before(m, i - 1);
        if i <= m - 4 {
            assert(2 * prev == (i - 1) * (2 * m - 7 - (i - 1)));
            assert(pairs_before(m, i) == prev + (m - (i - 1) - 4));
            assert((i - 1) * (2 * m - 7 - (i - 1)) + 2 * (m - (i - 1) - 4) == i * (2 * m - 7 - i)) by (nonlinear_arith);
        } else if i - 1 <= m - 4 {
            assert(2 * prev == (i - 1) * (2 * m - 7 - (i - 1)));
            assert(pairs_before(m, i) == prev);
            assert((i - 1) * (2 * m - 7 - (i - 1)) == (m - 4) * (m - 3)) by (nonlinear_arith)
                requires i - 1 == m - 4;
        } else {
            assert(pairs_before(m, i) == prev);
        }
    }
}

proof fn lemma_pairs_total(n: int)
    requires
        n >= 16,
    ensures
        pairs_before(n - 4, n - 4) == repeat_pair_count(n),
{
    lemma_pairs_closed(n - 4, n - 4);
}

proof fn lemma_pairs_bounded(m: int, i: int)
    requires
        m >= 12,
        0 <= i <= m,
    ensures
        pairs_before(m, i) <= pairs_before(m, m),
{
    lemma_pairs_monotone(m, i, m);
}

} // verus!
