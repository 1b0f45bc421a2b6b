//! A running network node's own bookkeeping: its peers, its start and stop,
//! and which peers still need a persistent connection. Servers, sockets and
//! background tasks are driven by the caller.

use vstd::prelude::*;

use crate::network::types::{NetworkEvent, PeerInfo};
use crate::text::{decimal, parse_u16, parse_u16_spec, push_decimal, push_str, str_eq, string_of};

verus! {

/// QUIC port used when none is configured.
pub const DEFAULT_QUIC_PORT: u16 = 8081;

/// A network node.
#[derive(Debug)]
pub struct RealNetworkNode {
    /// Node id
    pub id: String,
    /// Port of its WebSocket server
    pub port: u16,
    /// Shard served
    pub shard_id: usize,
    /// Public address of its WebSocket server
    pub public_url: String,
    /// Node name announced to peers
    pub node_name: String,
    /// QUIC port
    pub quic_port: u16,
    /// Known peers
    pub peers: Vec<PeerInfo>,
    /// Running flag
    pub is_running: bool,
}

/// The default public address of a node: "localhost:" and its port.
pub open spec fn local_url_text(port: u16) -> Seq<char> {
    "localhost:"@ + decimal(port as nat)
}

/// Whether a list of peers holds one with this id.
pub open spec fn has_peer(peers: Seq<PeerInfo>, id: u128) -> bool {
    exists|i: int| 0 <= i < peers.len() && peers[i].id == id
}

impl RealNetworkNode {
    /// A stopped node with no peers, from its settings: the public URL
    /// (default "localhost:<port>"), the node name (default the id) and the
    /// QUIC port (default 8081 when unset or not a port).
    pub fn new(id: String, port: u16, shard_id: usize, public_url: Option<&str>, node_name: Option<&str>, quic_port: Option<&str>) -> (r: Self)
        ensures
            r.id == id,
            r.port == port,
            r.shard_id == shard_id,
            public_url matches Some(u) ==> r.public_url@ == u@,
            public_url is None ==> r.public_url@ == local_url_text(port),
            node_name matches Some(n) ==> r.node_name@ == n@,
            node_name is None ==> r.node_name@ == id@,
            r.quic_port == match quic_port {
                Some(q) => match parse_u16_spec(q@) {
                    Some(p) => p,
                    None => DEFAULT_QUIC_PORT,
                },
                None => DEFAULT_QUIC_PORT,
            },
            r.peers@.len() == 0,
            !r.is_running,
    {
        let url = match public_url {
            Some(u) => u.to_string(),
            None => {
                let mut out: Vec<char> = Vec::new();
                push_str(&mut out, "localhost:");
                push_decimal(&mut out, port as u64);
                string_of(&out)
            },
        };
        let name = match node_name {
            Some(n) => n.to_string(),
            None => id.clone(),
        };
        let quic = match quic_port {
            Some(q) => match parse_u16(q) {
                Some(p) => p,
                None => DEFAULT_QUIC_PORT,
            },
            None => DEFAULT_QUIC_PORT,
        };
        RealNetworkNode {
            id,
            port,
            shard_id,
            public_url: url,
            node_name: name,
            quic_port: quic,
            peers: Vec::new(),
            is_running: false,
        }
    }

    /// Marks the node running; returns whether it was stopped (and its
    /// servers and tasks must be launched).
    pub fn start(&mut self) -> (r: bool)
        ensures
            r == !old(self).is_running,
            final(self).is_running,
            final(self).peers == old(self).peers,
            final(self).id == old(self).id,
    {
        if self.is_running {
            return false;
        }
        self.is_running = true;
        true
    }

    /// Marks the node stopped; returns whether it was running.
    pub fn stop(&mut self) -> (r: bool)
        ensures
            r == old(self).is_running,
            !final(self).is_running,
            final(self).peers == old(self).peers,
            final(self).id == old(self).id,
    {
        if !self.is_running {
            return false;
        }
        self.is_running = false;
        true
    }

    /// Handles a network event: a newly connected peer joins the peers.
    pub fn on_event(&mut self, event: NetworkEvent)
        ensures
            event matches NetworkEvent::PeerConnected(p) ==> final(self).peers@ == old(self).peers@.push(p),
            !(event is PeerConnected) ==> final(self).peers == old(self).peers,
            final(self).is_running == old(self).is_running,
            final(self).id == old(self).id,
    {
        match event {
            NetworkEvent::PeerConnected(p) => self.peers.push(p),
            _ => {},
        }
    }

    /// Adds a peer unless one with its id is known; returns whether it was
    /// added (and a persistent connection to it should be opened).
    pub fn add_peer(&mut self, peer: PeerInfo) -> (r: bool)
        ensures
            r == !has_peer(old(self).peers@, peer.id),
            r ==> final(self).peers@ == old(self).peers@.push(peer),
            !r ==> final(self).peers == old(self).peers,
            final(self).is_running == old(self).is_running,
            final(self).id == old(self).id,
    {
        let mut i: usize = 0;
        while i < self.peers.len()
            invariant
                i <= self.peers@.len(),
                *self == *old(self),
                forall|k: int| 0 <= k < i ==> self.peers@[k].id != peer.id,
            decreases self.peers@.len() - i,
        {
            if self.peers[i].id == peer.id {
                return false;
            }
            i = i + 1;
        }
        self.peers.push(peer);
        true
    }

    /// The name given to a peer reached by its address: "peer-" and the address.
    pub fn peer_name_for(address: &str) -> (r: String)
        ensures
            r@ == "peer-"@ + address@,
    {
        let mut out: Vec<char> = Vec::new();
        push_str(&mut out, "peer-");
        push_str(&mut out, address);
        string_of(&out)
    }
}

/// The positions, in order, of the peer addresses with no connection in
/// `pool` yet: those to dial on a reconnection pass.
pub fn addresses_to_dial(addresses: &Vec<String>, pool: &Vec<String>) -> (r: Vec<usize>)
    ensures
        forall|i: int| 0 <= i < r@.len() ==> r@[i] < addresses@.len() && !pool@.map_values(|s: String| s@).contains(
            addresses@[r@[i] as int]@,
        ),
        forall|k: int|
            0 <= k < addresses@.len() && !pool@.map_values(|s: String| s@).contains(addresses@[k]@) ==> r@.contains(k as usize),
        forall|i: int, j: int| 0 <= i < j < r@.len() ==> r@[i] < r@[j],
{
    let ghost texts = pool@.map_values(|s: String| s@);
    let mut out: Vec<usize> = Vec::new();
    let mut k: usize = 0;
    while k < addresses.len()
        invariant
            k <= addresses@.len(),
            texts == pool@.map_values(|s: String| s@),
            forall|i: int| 0 <= i < out@.len() ==> out@[i] < k && !texts.contains(addresses@[out@[i] as int]@),
            forall|m: int| 0 <= m < k && !texts.contains(addresses@[m]@) ==> out@.contains(m as usize),
            forall|i: int, j: int| 0 <= i < j < out@.len() ==> out@[i] < out@[j],
        decreases addresses@.len() - k,
    {
        let mut found = false;
        let mut p: usize = 0;
        while p < pool.len()
            invariant
                p <= pool@.len(),
                k < addresses@.len(),
                texts == pool@.map_values(|s: String| s@),
                found == exists|q: int| 0 <= q < p && texts[q] == addresses@[k as int]@,
            decreases pool@.len() - p,
        {
            assert(texts[p as int] == pool@[p as int]@);
            if str_eq(pool[p].as_str(), addresses[k].as_str()) {
                found = true;
            }
            p = p + 1;
            proof {
                if exists|q: int| 0 <= q < p && texts[q] == addresses@[k as int]@ {
                    let q = choose|q: int| 0 <= q < p && texts[q] == addresses@[k as int]@;
                    if q < p - 1 {
                        assert(exists|q2: int| 0 <= q2 < p - 1 && texts[q2] == addresses@[k as int]@);
                    }
                }
            }
        }
        proof {
            if texts.contains(addresses@[k as int]@) {
                let q = choose|q: int| 0 <= q < texts.len() && texts[q] == addresses@[k as int]@;
            }
        }
        if !found {
            let ghost before = out@;
            out.push(k);
            assert forall|m: int| 0 <= m < k + 1 && !texts.contains(addresses@[m]@) implies out@.contains(m as usize) by {
                if m < k {
                    let i = choose|i: int| 0 <= i < before.len() && before[i] == m as usize;
                    assert(out@[i] == m as usize);
                } else {
                    assert(out@[before.len() as int] == m as usize);
                }
            }
        }
        k = k + 1;
    }
    out
}

} // verus!
