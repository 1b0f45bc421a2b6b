//! The decisions of the peer-to-peer discovery node: its configuration read
//! from settings, the topics it joins, and what it does on each event of
//! the swarm. The swarm itself is driven by the caller, which reports each
//! event and performs the actions returned.

use vstd::prelude::*;

use crate::network::error::NetworkError;
use crate::text::{
    decimal, parse_u16, parse_u16_spec, push_decimal, push_str, split_at_char, split_trimmed_nonempty, str_eq,
    string_of, trimmed,
};

verus! {

/// TCP port used when none is configured.
pub const DEFAULT_TCP_PORT: u16 = 4001;

/// The topic every node joins.
pub const GLOBAL_TOPIC: &'static str = "triad-global";

/// The discovery node's settings.
#[derive(Debug)]
pub struct DiscoveryConfig {
    /// Node name
    pub node_name: String,
    /// TCP listen port
    pub tcp_port: u16,
    /// QUIC listen port
    pub quic_port: u16,
    /// Whether this node is the bootstrap node
    pub is_bootstrap: bool,
    /// Bootstrap address to dial
    pub bootstrap_addr: Option<String>,
    /// Bootstrap peer id (bytes), when the address names one
    pub bootstrap_peer: Option<Vec<u8>>,
}

/// What the swarm reports.
#[derive(Debug)]
pub enum SwarmEvent {
    /// A new listen address
    NewListenAddr(String),
    /// A connection to a peer was established
    ConnectionEstablished { peer: Vec<u8> },
    /// A peer identified itself: the address it saw us at, and its own addresses
    Identified { peer: Vec<u8>, observed_addr: String, listen_addrs: Vec<String> },
    /// A connection closed
    ConnectionClosed { peer: Vec<u8> },
    /// A consensus request arrived
    RequestReceived { peer: Vec<u8>, data: Vec<u8> },
    /// Anything else
    Other,
}

/// What to do in answer to an event.
#[derive(Debug)]
pub enum SwarmAction {
    /// Listen through the relay of this peer (a circuit reservation)
    ListenViaRelay { relay: Vec<u8> },
    /// Announce an external address
    AddExternalAddress(String),
    /// Record an address of a peer in the routing table
    AddRoutingAddress { peer: Vec<u8>, addr: String },
    /// Report a disconnection
    ReportDisconnect,
    /// Answer a request with these bytes
    Respond(Vec<u8>),
}

/// Whether a setting holds exactly "1".
pub fn flag_set(value: Option<&str>) -> (r: bool)
    ensures
        r == (value matches Some(v) && v@ == "1"@),
{
    match value {
        Some(v) => str_eq(v, "1"),
        None => false,
    }
}

/// The TCP port from its setting: its value when it parses as a port, else 4001.
pub fn tcp_port_setting(value: Option<&str>) -> (r: u16)
    ensures
        value is None ==> r == DEFAULT_TCP_PORT,
        value matches Some(v) ==> r == match parse_u16_spec(v@) {
            Some(p) => p,
            None => DEFAULT_TCP_PORT,
        },
{
    match value {
        Some(v) => match parse_u16(v) {
            Some(p) => p,
            None => DEFAULT_TCP_PORT,
        },
        None => DEFAULT_TCP_PORT,
    }
}

/// The external addresses to announce from their setting: the
/// comma-separated entries, trimmed, without the empty ones.
pub fn announced_addresses(value: &str) -> (r: Vec<String>)
    ensures
        r@.map_values(|t: String| t@) == split_at_char(value@, ',').map_values(|p: Seq<char>| trimmed(p)).filter(
            |p: Seq<char>| p.len() > 0,
        ),
{
    split_trimmed_nonempty(value, ',')
}

/// The topic of a shard: "triad-shard-" and its number.
pub fn shard_topic(shard_id: u64) -> (r: String)
    ensures
        r@ == "triad-shard-"@ + decimal(shard_id as nat),
{
    let mut out: Vec<char> = Vec::new();
    push_str(&mut out, "triad-shard-");
    push_decimal(&mut out, shard_id);
    string_of(&out)
}

/// The agent string announced to peers: "triad/" and the version, "dev" when unset.
pub fn agent_version(version: Option<&str>) -> (r: String)
    ensures
        version matches Some(v) ==> r@ == "triad/"@ + v@,
        version is None ==> r@ == "triad/"@ + "dev"@,
{
    let mut out: Vec<char> = Vec::new();
    push_str(&mut out, "triad/");
    match version {
        Some(v) => push_str(&mut out, v),
        None => push_str(&mut out, "dev"),
    }
    string_of(&out)
}

/// Whether two byte strings are equal.
fn same_bytes(a: &Vec<u8>, b: &Vec<u8>) -> (r: bool)
    ensures
        r == (a@ == b@),
{
    if a.len() != b.len() {
        return false;
    }
    let mut i: usize = 0;
    while i < a.len()
        invariant
            i <= a@.len(),
            a@.len() == b@.len(),
            forall|k: int| 0 <= k < i ==> a@[k] == b@[k],
        decreases a@.len() - i,
    {
        if a[i] != b[i] {
            return false;
        }
        i = i + 1;
    }
    assert(a@ =~= b@);
    true
}

/// A copy of a byte string.
fn copy_bytes(v: &Vec<u8>) -> (r: Vec<u8>)
    ensures
        r@ == v@,
{
    let mut out: Vec<u8> = Vec::new();
    let mut i: usize = 0;
    while i < v.len()
        invariant
            i <= v@.len(),
            out@ == v@.take(i as int),
        decreases v@.len() - i,
    {
        out.push(v[i]);
        i = i + 1;
        assert(out@ =~= v@.take(i as int));
    }
    assert(v@.take(v@.len() as int) =~= v@);
    out
}

impl DiscoveryConfig {
    /// The address to dial at start: the bootstrap address, unless this is
    /// the bootstrap node.
    pub fn dial_target(&self) -> (r: Option<String>)
        ensures
            !self.is_bootstrap && self.bootstrap_addr is Some ==> r == self.bootstrap_addr,
            self.is_bootstrap || self.bootstrap_addr is None ==> r is None,
    {
        if self.is_bootstrap {
            return None;
        }
        match &self.bootstrap_addr {
            Some(a) => Some(a.clone()),
            None => None,
        }
    }

    /// The actions for a swarm event: a connection to the bootstrap peer
    /// (from another node) asks for a relay reservation through it; an
    /// identification announces the address the peer saw and records each of
    /// the peer's addresses; a closed connection is reported; a request is
    /// answered with its own bytes; anything else needs nothing.
    pub fn actions_for(&self, event: SwarmEvent) -> (r: Vec<SwarmAction>)
        ensures
            match event {
                SwarmEvent::ConnectionEstablished { peer } => if !self.is_bootstrap && (self.bootstrap_peer matches Some(
                    b,
                ) && b@ == peer@) {
                    r@.len() == 1 && (r@[0] matches SwarmAction::ListenViaRelay { relay } && relay@ == peer@)
                } else {
                    r@.len() == 0
                },
                SwarmEvent::Identified { peer, observed_addr, listen_addrs } => r@.len() == listen_addrs@.len() + 1 && (
                r@[0] matches SwarmAction::AddExternalAddress(a) && a == observed_addr) && forall|i: int|
                    0 <= i < listen_addrs@.len() ==> (#[trigger] r@[i + 1] matches SwarmAction::AddRoutingAddress { peer: p, addr }
                        && p@ == peer@ && addr == listen_addrs@[i]),
                SwarmEvent::ConnectionClosed { .. } => r@.len() == 1 && r@[0] is ReportDisconnect,
                SwarmEvent::RequestReceived { data, .. } => r@.len() == 1 && (r@[0] matches SwarmAction::Respond(d) && d == data),
                _ => r@.len() == 0,
            },
    {
        let mut out: Vec<SwarmAction> = Vec::new();
        match event {
            SwarmEvent::ConnectionEstablished { peer } => {
                let to_relay = match &self.bootstrap_peer {
                    Some(b) => !self.is_bootstrap && same_bytes(b, &peer),
                    None => false,
                };
                if to_relay {
                    out.push(SwarmAction::ListenViaRelay { relay: peer });
                }
            },
            SwarmEvent::Identified { peer, observed_addr, listen_addrs } => {
                out.push(SwarmAction::AddExternalAddress(observed_addr));
                let mut addrs = listen_addrs;
                let ghost all = addrs@;
                let mut rev: Vec<String> = Vec::new();
                while addrs.len() > 0
                    invariant
                        all == addrs@ + rev@.reverse(),
                    decreases addrs.len(),
                {
                    let a = addrs.pop().unwrap();
                    let ghost before = rev@;
                    rev.push(a);
                    assert(rev@.reverse() =~= seq![a] + before.reverse());
                }
                assert(rev@.reverse() =~= all);
                let mut i: usize = 0;
                let n = rev.len();
                while i < n
                    invariant
                        n == all.len(),
                        i <= n,
                        rev@.len() == n - i,
                        forall|k: int| 0 <= k < rev@.len() ==> #[trigger] rev@[k] == all[n - 1 - k],
                        out@.len() == i + 1,
                        out@[0] matches SwarmAction::AddExternalAddress(a) && a == observed_addr,
                        forall|k: int|
                            0 <= k < i ==> (#[trigger] out@[k + 1] matches SwarmAction::AddRoutingAddress { peer: p, addr }
                                && p@ == peer@ && addr == all[k]),
                    decreases n - i,
                {
                    let ghost before = rev@;
                    let a = rev.pop().unwrap();
                    assert(a == all[i as int]) by {
                        assert(before[before.len() - 1] == all[n - 1 - (before.len() - 1)]);
                    }
                    out.push(SwarmAction::AddRoutingAddress { peer: copy_bytes(&peer), addr: a });
                    i = i + 1;
                }
            },
            SwarmEvent::ConnectionClosed { .. } => {
                out.push(SwarmAction::ReportDisconnect);
            },
            SwarmEvent::RequestReceived { data, .. } => {
                out.push(SwarmAction::Respond(data));
            },
            _ => {},
        }
        out
    }
}

/// Whether a start is needed: the service starts only when it is not running.
pub fn needs_start(running: bool) -> (r: bool)
    ensures
        r == !running,
{
    !running
}

/// The outcome of a stop: a pending shutdown signal that could not be
/// delivered is a failed shutdown.
pub fn stop_outcome(had_signal: bool, delivered: bool) -> (r: Result<(), NetworkError>)
    ensures
        had_signal && !delivered ==> r matches Err(NetworkError::ShutdownFailed),
        !(had_signal && !delivered) ==> r is Ok,
{
    if had_signal && !delivered {
        Err(NetworkError::ShutdownFailed)
    } else {
        Ok(())
    }
}

} // verus!
