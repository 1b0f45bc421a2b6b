//! Discovery of peers on the local network by UDP broadcast: the choice of
//! the discovery port, the announcement a node broadcasts, where it is
//! broadcast, and what a node does with an announcement it receives. The
//! socket is driven by the caller.

use vstd::prelude::*;

use crate::network::peer::PeerManager;
use crate::network::types::{PeerInfo, SerializablePeerInfo, SocketAddress};

verus! {

/// The first discovery port tried.
pub const DEFAULT_DISCOVERY_PORT: u16 = 23456;

/// The QUIC port announced.
pub const QUIC_PORT: u16 = 8081;

/// How many ports past the first are tried.
pub const PORT_ATTEMPTS: u16 = 100;

/// What a node announces.
#[derive(Debug)]
pub struct DiscoveryMessage {
    /// Sender id
    pub node_id: u128,
    /// Sender name
    pub node_name: String,
    /// Port of the sender's TCP transport
    pub tcp_port: u16,
    /// Port of the sender's QUIC transport
    pub quic_port: u16,
    /// External address, when known
    pub external_ip: Option<String>,
    /// Routing table entries
    pub routing_table: Vec<SerializablePeerInfo>,
    /// Known peers
    pub known_peers: Vec<SerializablePeerInfo>,
}

/// The UDP discovery service's settings.
#[derive(Debug)]
pub struct DiscoveryService {
    /// This node's id
    pub node_id: u128,
    /// This node's name
    pub node_name: String,
    /// Port of this node's TCP transport
    pub tcp_port: u16,
    /// Port of this node's QUIC transport
    pub quic_port: u16,
    /// Running flag
    pub running: bool,
}

/// The port to try after `port` failed to bind, if any is left.
pub fn next_discovery_port(port: u16) -> (r: Option<u16>)
    ensures
        port < DEFAULT_DISCOVERY_PORT + PORT_ATTEMPTS ==> r == Some((port + 1) as u16),
        port >= DEFAULT_DISCOVERY_PORT + PORT_ATTEMPTS ==> r is None,
{
    if port < DEFAULT_DISCOVERY_PORT + PORT_ATTEMPTS {
        Some(port + 1)
    } else {
        None
    }
}

/// The broadcast address of an IPv4 address: the same first three octets,
/// 255 last, at the default discovery port.
pub fn broadcast_address(ip: u32) -> (r: SocketAddress)
    ensures
        r.ip == ((ip as u128) / 256) * 256 + 255,
        !r.is_ipv6,
        r.port == DEFAULT_DISCOVERY_PORT,
{
    let base: u128 = (ip as u128) / 256 * 256;
    SocketAddress { ip: base + 255, is_ipv6: false, port: DEFAULT_DISCOVERY_PORT }
}

impl DiscoveryService {
    /// A stopped service for a node.
    pub fn new(node_id: u128, node_name: String, tcp_port: u16) -> (r: Self)
        ensures
            r.node_id == node_id,
            r.node_name == node_name,
            r.tcp_port == tcp_port,
            r.quic_port == QUIC_PORT,
            !r.running,
    {
        DiscoveryService { node_id, node_name, tcp_port, quic_port: QUIC_PORT, running: false }
    }

    /// The announcement this node broadcasts: its id, name and ports, with no
    /// external address and empty tables.
    pub fn announcement(&self) -> (r: DiscoveryMessage)
        ensures
            r.node_id == self.node_id,
            r.node_name == self.node_name,
            r.tcp_port == self.tcp_port,
            r.quic_port == QUIC_PORT,
            r.external_ip is None,
            r.routing_table@.len() == 0,
            r.known_peers@.len() == 0,
    {
        DiscoveryMessage {
            node_id: self.node_id,
            node_name: self.node_name.clone(),
            tcp_port: self.tcp_port,
            quic_port: QUIC_PORT,
            external_ip: None,
            routing_table: Vec::new(),
            known_peers: Vec::new(),
        }
    }

    /// Handles an announcement received at `now` from `source`, this node
    /// being at `local_ip`: announcements from this host or this node are
    /// ignored; otherwise the sender is recorded as a peer at the source's
    /// address and its TCP port, and returned when it is new (to be reported
    /// as connected).
    pub fn handle_announcement(
        &self,
        manager: &mut PeerManager,
        local_ip: SocketAddress,
        source: SocketAddress,
        message: DiscoveryMessage,
        now: u64,
    ) -> (r: Option<PeerInfo>)
        requires
            old(manager).well_formed(),
        ensures
            final(manager).well_formed(),
            (source.ip == local_ip.ip && source.is_ipv6 == local_ip.is_ipv6) || message.node_id == self.node_id ==> r is None
                && final(manager)@ == old(manager)@,
            !((source.ip == local_ip.ip && source.is_ipv6 == local_ip.is_ipv6) || message.node_id == self.node_id) ==> {
                let peer = PeerInfo {
                    id: message.node_id,
                    name: message.node_name,
                    address: SocketAddress { ip: source.ip, is_ipv6: source.is_ipv6, port: message.tcp_port },
                    last_seen: now,
                };
                &&& final(manager)@ == old(manager)@.insert(message.node_id, peer)
                &&& !old(manager)@.contains_key(message.node_id) ==> r == Some(peer)
                &&& old(manager)@.contains_key(message.node_id) ==> r is None
            },
    {
        if source.ip == local_ip.ip && source.is_ipv6 == local_ip.is_ipv6 {
            return None;
        }
        if message.node_id == self.node_id {
            return None;
        }
        let address = SocketAddress { ip: source.ip, is_ipv6: source.is_ipv6, port: message.tcp_port };
        let peer = PeerInfo::new(message.node_id, message.node_name, address, now);
        let copy = peer.clone();
        let is_new = manager.add_peer(peer);
        if is_new {
            Some(copy)
        } else {
            None
        }
    }
}

/// A peer recorded from an announcement is found again by its address: the
/// table then holds a peer at that address (so an incoming connection from
/// it is identified).
pub proof fn lemma_announced_peer_reachable(before: Map<u128, PeerInfo>, peer: PeerInfo)
    ensures
        before.insert(peer.id, peer).contains_key(peer.id),
        before.insert(peer.id, peer)[peer.id].address == peer.address,
        exists|k: u128| #[trigger] before.insert(peer.id, peer).contains_key(k) && before.insert(peer.id, peer)[k].address
            == peer.address,
{
    assert(before.insert(peer.id, peer).contains_key(peer.id));
}

} // verus!
