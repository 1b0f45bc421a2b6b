//! The QUIC transport's connection table: connections are registered when
//! accepted or opened, kept while active, and dropped after five idle
//! minutes. The endpoint and the streams are driven by the caller.
//!
//! Times are milliseconds of a monotonic clock, read by the caller.

use std::collections::HashMap;
use vstd::prelude::*;
use vstd::std_specs::iter::IteratorSpec;

use crate::ids::new_uuid;
use crate::network::error::NetworkError;
use crate::text::{push_str, push_uuid, string_of, uuid_text};

verus! {

broadcast use vstd::std_specs::hash::group_hash_axioms;

/// A connection idle longer than this (ms) is closed: 5 minutes.
pub const QUIC_IDLE_LIMIT_MS: u64 = 300000;

/// Congestion control algorithms.
#[derive(Debug, Clone, Copy, PartialEq, Eq, Structural)]
pub enum CongestionControl {
    /// BBR (Bottleneck Bandwidth and RTT)
    BBR,
    /// Cubic
    Cubic,
    /// Reno
    Reno,
}

/// QUIC transport configuration.
#[derive(Debug, Clone, Copy, PartialEq, Eq, Structural)]
pub struct QUICConfig {
    /// Maximum concurrent streams per connection
    pub max_concurrent_streams: u32,
    /// Connection idle timeout (ms)
    pub idle_timeout_ms: u64,
    /// Maximum UDP payload size
    pub max_udp_payload_size: usize,
    /// Enable 0-RTT
    pub enable_0rtt: bool,
    /// Congestion control algorithm
    pub congestion_control: CongestionControl,
}

impl Default for QUICConfig {
    /// 100 streams, 5 minutes idle timeout, the largest UDP payload, 0-RTT on, BBR.
    fn default() -> (r: Self)
        ensures
            r == (QUICConfig {
                max_concurrent_streams: 100,
                idle_timeout_ms: 300000,
                max_udp_payload_size: 65527,
                enable_0rtt: true,
                congestion_control: CongestionControl::BBR,
            }),
    {
        QUICConfig {
            max_concurrent_streams: 100,
            idle_timeout_ms: 300000,
            max_udp_payload_size: 65527,
            enable_0rtt: true,
            congestion_control: CongestionControl::BBR,
        }
    }
}

/// What is kept of a connection.
#[derive(Debug, Clone, Copy, PartialEq, Eq, Structural)]
pub struct QUICConnectionRecord {
    /// Last activity (ms)
    pub last_activity: u64,
    /// Streams opened
    pub stream_counter: u64,
    /// Round-trip time (ms)
    pub rtt_ms: u32,
    /// Connection score (0-100)
    pub score: u8,
}

/// QUIC counters (wrapping at 2^64; the active count stops at 0).
#[derive(Debug, Clone, Copy, PartialEq, Eq, Structural)]
pub struct QUICStats {
    /// Connections accepted
    pub total_connections: u64,
    /// Connections active
    pub active_connections: u64,
    /// Bytes sent
    pub bytes_sent: u64,
    /// Bytes received
    pub bytes_received: u64,
}

/// The QUIC transport service.
#[derive(Debug)]
pub struct QUICTransportService {
    /// Current node ID
    pub node_id: u128,
    /// QUIC port
    pub port: u16,
    /// Configuration
    pub config: QUICConfig,
    /// Connections, by peer id
    pub connections: HashMap<u128, QUICConnectionRecord>,
    /// Statistics
    pub stats: QUICStats,
    /// Running flag
    pub running: bool,
}

/// Adding `n` to a counter, wrapping at 2^64.
pub open spec fn wrap_add(c: u64, n: int) -> u64 {
    ((c + n) % 0x1_0000_0000_0000_0000) as u64
}

/// A fresh connection record at `now`.
pub open spec fn fresh_record(now: u64) -> QUICConnectionRecord {
    QUICConnectionRecord { last_activity: now, stream_counter: 0, rtt_ms: 0, score: 100 }
}

/// Whether a connection has been idle too long at `now`.
pub open spec fn idle_too_long(r: QUICConnectionRecord, now: u64) -> bool {
    (if now >= r.last_activity { now - r.last_activity } else { 0 }) > QUIC_IDLE_LIMIT_MS
}

/// The ids of the connections, each once.
fn connection_ids(m: &HashMap<u128, QUICConnectionRecord>) -> (r: Vec<u128>)
    ensures
        r@.to_set() == m@.dom(),
        r@.no_duplicates(),
{
    let mut out: Vec<u128> = Vec::new();
    let ghost ks = vstd::std_specs::hash::spec_keys_iter(m).remaining();
    for k in it: m.keys()
        invariant
            it.seq() == ks,
            out@ == ks.take(it.index() as int).map_values(|k: &u128| *k),
    {
        out.push(*k);
    }
    proof {
        assert(out@ =~= ks.unref());
    }
    out
}

impl QUICTransportService {
    /// A stopped service with no connections.
    pub fn new(node_id: u128, port: u16, config: QUICConfig) -> (r: Self)
        ensures
            r.node_id == node_id,
            r.port == port,
            r.config == config,
            r.connections@ == Map::<u128, QUICConnectionRecord>::empty(),
            r.stats == (QUICStats { total_connections: 0, active_connections: 0, bytes_sent: 0, bytes_received: 0 }),
            !r.running,
    {
        QUICTransportService {
            node_id,
            port,
            config,
            connections: HashMap::new(),
            stats: QUICStats { total_connections: 0, active_connections: 0, bytes_sent: 0, bytes_received: 0 },
            running: false,
        }
    }

    /// Marks the service started; fails when it runs already.
    pub fn start(&mut self) -> (r: Result<(), NetworkError>)
        ensures
            old(self).running ==> (r matches Err(NetworkError::ServiceAlreadyStarted)) && *final(self) == *old(self),
            !old(self).running ==> r is Ok && *final(self) == (QUICTransportService { running: true, ..*old(self) }),
    {
        if self.running {
            return Err(NetworkError::ServiceAlreadyStarted);
        }
        self.running = true;
        Ok(())
    }

    /// Stops the service, dropping every connection; a stopped service is
    /// left as it is.
    pub fn stop(&mut self) -> (r: Result<(), NetworkError>)
        ensures
            r is Ok,
            !old(self).running ==> *final(self) == *old(self),
            old(self).running ==> !final(self).running && final(self).connections@ == Map::<u128, QUICConnectionRecord>::empty()
                && final(self).stats == old(self).stats && final(self).config == old(self).config,
    {
        if !self.running {
            return Ok(());
        }
        self.connections.clear();
        self.running = false;
        Ok(())
    }

    /// Registers a connection accepted at `now` under a fresh random peer id,
    /// which is returned, and counts it.
    pub fn accept_connection(&mut self, now: u64) -> (r: u128)
        ensures
            final(self).connections@ == old(self).connections@.insert(r, fresh_record(now)),
            final(self).stats == (QUICStats {
                total_connections: wrap_add(old(self).stats.total_connections, 1),
                active_connections: wrap_add(old(self).stats.active_connections, 1),
                ..old(self).stats
            }),
            final(self).running == old(self).running,
            final(self).config == old(self).config,
    {
        let peer_id = new_uuid();
        self.connections.insert(peer_id, QUICConnectionRecord { last_activity: now, stream_counter: 0, rtt_ms: 0, score: 100 });
        self.stats.total_connections = self.stats.total_connections.wrapping_add(1);
        self.stats.active_connections = self.stats.active_connections.wrapping_add(1);
        peer_id
    }

    /// Checks that the endpoint is up before connecting out.
    pub fn check_endpoint(endpoint_ready: bool) -> (r: Result<(), NetworkError>)
        ensures
            endpoint_ready ==> r is Ok,
            !endpoint_ready ==> (r matches Err(NetworkError::Internal(t)) && t@ == "QUIC endpoint not available"@),
    {
        if endpoint_ready {
            Ok(())
        } else {
            Err(NetworkError::Internal("QUIC endpoint not available".to_string()))
        }
    }

    /// Registers a connection just opened at `now` under a fresh random peer
    /// id, which is returned (not counted in the statistics).
    pub fn connect_to_peer(&mut self, now: u64) -> (r: u128)
        ensures
            final(self).connections@ == old(self).connections@.insert(r, fresh_record(now)),
            final(self).stats == old(self).stats,
            final(self).running == old(self).running,
            final(self).config == old(self).config,
    {
        let peer_id = new_uuid();
        self.connections.insert(peer_id, QUICConnectionRecord { last_activity: now, stream_counter: 0, rtt_ms: 0, score: 100 });
        peer_id
    }

    /// One health pass at `now`: connections idle too long are dropped (each
    /// taking one off the active count, stopping at 0); the others are
    /// marked active at `now`. Returns the ids dropped.
    pub fn check_connection_health(&mut self, now: u64) -> (r: Vec<u128>)
        ensures
            r@.to_set() == old(self).connections@.dom().filter(|k: u128| idle_too_long(old(self).connections@[k], now)),
            r@.no_duplicates(),
            final(self).connections@.dom() == old(self).connections@.dom().filter(
                |k: u128| !idle_too_long(old(self).connections@[k], now),
            ),
            forall|k: u128| #[trigger] final(self).connections@.contains_key(k) ==> final(self).connections@[k] == (
            QUICConnectionRecord { last_activity: now, ..old(self).connections@[k] }),
            final(self).stats == (QUICStats {
                active_connections: if old(self).stats.active_connections >= r@.len() {
                    (old(self).stats.active_connections - r@.len()) as u64
                } else {
                    0
                },
                ..old(self).stats
            }),
            final(self).running == old(self).running,
            final(self).config == old(self).config,
    {
        let ids = connection_ids(&self.connections);
        let ghost start = self.connections@;
        let mut dropped: Vec<u128> = Vec::new();
        let mut n: usize = 0;
        while n < ids.len()
            invariant
                n <= ids@.len(),
                ids@.to_set() == start.dom(),
                ids@.no_duplicates(),
                start == old(self).connections@,
                self.running == old(self).running,
                self.config == old(self).config,
                self.stats == (QUICStats {
                    active_connections: if old(self).stats.active_connections >= dropped@.len() {
                        (old(self).stats.active_connections - dropped@.len()) as u64
                    } else {
                        0
                    },
                    ..old(self).stats
                }),
                dropped@.no_duplicates(),
                dropped@.to_set() == start.dom().filter(|k: u128| ids@.take(n as int).contains(k) && idle_too_long(start[k], now)),
                forall|k: u128|
                    #[trigger] self.connections@.contains_key(k) <==> (start.contains_key(k) && !(ids@.take(n as int).contains(k)
                        && idle_too_long(start[k], now))),
                forall|k: u128|
                    #[trigger] self.connections@.contains_key(k) ==> self.connections@[k] == if ids@.take(n as int).contains(k) {
                        QUICConnectionRecord { last_activity: now, ..start[k] }
                    } else {
                        start[k]
                    },
            decreases ids@.len() - n,
        {
            let k = ids[n];
            assert(ids@.to_set().contains(k));
            let ghost done = ids@.take(n as int);
            proof {
                assert(!done.contains(k)) by {
                    if done.contains(k) {
                        let j = choose|j: int| 0 <= j < n && done[j] == k;
                        assert(ids@[j] == ids@[n as int]);
                    }
                }
                assert(ids@.take(n as int + 1) =~= done.push(k));
            }
            assert(self.connections@.contains_key(k));
            let rec = match self.connections.get(&k) {
                Some(r) => *r,
                None => QUICConnectionRecord { last_activity: now, stream_counter: 0, rtt_ms: 0, score: 100 },
            };
            assert(rec == start[k]);
            let ghost before_map = self.connections@;
            proof {
                let t = ids@.take(n as int + 1);
                assert(t =~= done.push(k));
                assert forall|j: u128| #[trigger] t.contains(j) <==> (done.contains(j) || j == k) by {
                    if t.contains(j) {
                        let i = choose|i: int| 0 <= i < t.len() && #[trigger] t[i] == j;
                        if i < done.len() {
                            assert(done[i] == j);
                        }
                    }
                    if done.contains(j) {
                        let i = choose|i: int| 0 <= i < done.len() && #[trigger] done[i] == j;
                        assert(t[i] == j);
                    }
                    if j == k {
                        assert(t[done.len() as int] == k);
                    }
                }
            }
            if now.saturating_sub(rec.last_activity) > QUIC_IDLE_LIMIT_MS {
                self.connections.remove(&k);
                self.stats.active_connections = self.stats.active_connections.saturating_sub(1);
                let ghost before = dropped@;
                proof {
                    assert(!before.contains(k)) by {
                        if before.contains(k) {
                            assert(before.to_set().contains(k));
                        }
                    }
                }
                dropped.push(k);
                proof {
                    before.lemma_push_to_set_commute(k);
                }
            } else {
                self.connections.insert(k, QUICConnectionRecord { last_activity: now, ..rec });
            }
            n = n + 1;
            proof {
                assert(dropped@.to_set() =~= start.dom().filter(|j: u128| ids@.take(n as int).contains(j) && idle_too_long(start[j], now))) by {
                    assert forall|j: u128| dropped@.to_set().contains(j) <==> start.dom().filter(|j: u128| ids@.take(n as int).contains(j) && idle_too_long(start[j], now)).contains(j) by {
                        assert(ids@.take(n as int).contains(j) <==> (done.contains(j) || j == k));
                    }
                }
                assert forall|j: u128|
                    #[trigger] self.connections@.contains_key(j) <==> (start.contains_key(j) && !(ids@.take(n as int).contains(j)
                        && idle_too_long(start[j], now))) by {
                    assert(ids@.take(n as int).contains(j) <==> (done.contains(j) || j == k));
                    if j != k {
                        assert(self.connections@.contains_key(j) == before_map.contains_key(j));
                    }
                }
                assert forall|j: u128|
                    #[trigger] self.connections@.contains_key(j) implies self.connections@[j] == if ids@.take(n as int).contains(j) {
                        QUICConnectionRecord { last_activity: now, ..start[j] }
                    } else {
                        start[j]
                    } by {
                    assert(ids@.take(n as int).contains(j) <==> (done.contains(j) || j == k));
                    if j != k {
                        assert(before_map.contains_key(j));
                    }
                }
            }
        }
        proof {
            assert(ids@.take(n as int) =~= ids@);
            assert forall|k: u128| start.contains_key(k) implies ids@.contains(k) by {
                assert(ids@.to_set().contains(k));
            }
            assert(dropped@.to_set() =~= start.dom().filter(|k: u128| idle_too_long(start[k], now)));
            assert(self.connections@.dom() =~= start.dom().filter(|k: u128| !idle_too_long(start[k], now)));
        }
        dropped
    }

    /// Checks that a message can go to a peer: fails unless there is a
    /// connection to it.
    pub fn check_connection(&self, peer_id: u128) -> (r: Result<(), NetworkError>)
        ensures
            self.connections@.contains_key(peer_id) ==> r is Ok,
            !self.connections@.contains_key(peer_id) ==> (r matches Err(NetworkError::Internal(t)) && t@
                == "No connection to peer "@ + uuid_text(peer_id)),
    {
        if self.connections.contains_key(&peer_id) {
            Ok(())
        } else {
            let mut text: Vec<char> = Vec::new();
            push_str(&mut text, "No connection to peer ");
            push_uuid(&mut text, peer_id);
            Err(NetworkError::Internal(string_of(&text)))
        }
    }

    /// Counts `bytes` sent.
    pub fn record_sent(&mut self, bytes: u64)
        ensures
            *final(self) == (QUICTransportService {
                stats: QUICStats { bytes_sent: wrap_add(old(self).stats.bytes_sent, bytes as int), ..old(self).stats },
                ..*old(self)
            }),
    {
        self.stats.bytes_sent = self.stats.bytes_sent.wrapping_add(bytes);
    }

    /// The number of connections.
    pub fn active_connections(&self) -> (r: usize)
        ensures
            r == self.connections@.len(),
    {
        self.connections.len()
    }

    /// The statistics.
    pub fn get_stats(&self) -> (r: QUICStats)
        ensures
            r == self.stats,
    {
        self.stats
    }
}

} // verus!
