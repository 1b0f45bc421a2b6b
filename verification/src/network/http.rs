//! The node's HTTP interface: what each endpoint answers, and the requests
//! a node sends to its peers. Serving and sending are left to the caller.

use vstd::prelude::*;

use crate::clock::unix_time_secs;
use crate::network::types::PeerInfo;
use crate::text::{push_str, string_of};

verus! {

/// A message posted to a node.
#[derive(Debug)]
pub struct HttpMessage {
    pub sender_id: String,
    pub message_type: String,
    pub payload: Vec<u8>,
    pub target_shard: Option<usize>,
    pub timestamp: u64,
}

/// A consensus request: a round's transactions for a shard.
#[derive(Debug)]
pub struct ConsensusRequest {
    pub round: usize,
    pub transactions: Vec<Vec<u8>>,
    pub shard_id: usize,
}

/// The answer to a consensus request.
#[derive(Debug)]
pub struct ConsensusResponse {
    pub node_id: String,
    pub round: usize,
    pub success: bool,
    pub processed_count: usize,
    pub shard_id: usize,
}

/// The answer to a health check.
#[derive(Debug)]
pub struct HealthResponse {
    pub node_id: String,
    pub status: String,
    pub port: u16,
    pub active_peers: usize,
    pub shard_id: usize,
}

/// The state behind a node's HTTP interface.
#[derive(Debug)]
pub struct HttpServer {
    /// Node id
    pub node_id: String,
    /// Port
    pub port: u16,
    /// Shard served
    pub shard_id: usize,
    /// Known peers, each id once
    pub peers: Vec<PeerInfo>,
    /// Messages received, in order
    pub message_queue: Vec<HttpMessage>,
}

impl HttpServer {
    /// A server with no peers and no messages.
    pub fn new(node_id: String, port: u16, shard_id: usize) -> (r: Self)
        ensures
            r.node_id == node_id,
            r.port == port,
            r.shard_id == shard_id,
            r.peers@.len() == 0,
            r.message_queue@.len() == 0,
    {
        HttpServer { node_id, port, shard_id, peers: Vec::new(), message_queue: Vec::new() }
    }

    /// Adds a peer unless one with its id is known.
    pub fn add_peer(&mut self, peer: PeerInfo)
        ensures
            (exists|i: int| 0 <= i < old(self).peers@.len() && old(self).peers@[i].id == peer.id) ==> final(self).peers@
                == old(self).peers@,
            !(exists|i: int| 0 <= i < old(self).peers@.len() && old(self).peers@[i].id == peer.id) ==> final(self).peers@
                == old(self).peers@.push(peer),
            final(self).message_queue == old(self).message_queue,
            final(self).node_id == old(self).node_id,
            final(self).port == old(self).port,
            final(self).shard_id == old(self).shard_id,
    {
        let mut i: usize = 0;
        while i < self.peers.len()
            invariant
                i <= self.peers@.len(),
                *self == *old(self),
                forall|k: int| 0 <= k < i ==> self.peers@[k].id != peer.id,
            decreases self.peers@.len() - i,
        {
            if self.peers[i].id == peer.id {
                return;
            }
            i = i + 1;
        }
        self.peers.push(peer);
    }

    /// The health answer: "healthy", with the number of known peers.
    pub fn health(&self) -> (r: HealthResponse)
        ensures
            r.node_id == self.node_id,
            r.status@ == "healthy"@,
            r.port == self.port,
            r.active_peers == self.peers@.len(),
            r.shard_id == self.shard_id,
    {
        HealthResponse {
            node_id: self.node_id.clone(),
            status: "healthy".to_string(),
            port: self.port,
            active_peers: self.peers.len(),
            shard_id: self.shard_id,
        }
    }

    /// The consensus answer: every transaction of the request counts as
    /// processed, for the request's round, from this node's shard.
    pub fn consensus(&self, request: &ConsensusRequest) -> (r: ConsensusResponse)
        ensures
            r.node_id == self.node_id,
            r.round == request.round,
            r.success,
            r.processed_count == request.transactions@.len(),
            r.shard_id == self.shard_id,
    {
        ConsensusResponse {
            node_id: self.node_id.clone(),
            round: request.round,
            success: true,
            processed_count: request.transactions.len(),
            shard_id: self.shard_id,
        }
    }

    /// Queues a received message.
    pub fn enqueue_message(&mut self, message: HttpMessage)
        ensures
            final(self).message_queue@ == old(self).message_queue@.push(message),
            final(self).peers == old(self).peers,
            final(self).node_id == old(self).node_id,
    {
        self.message_queue.push(message);
    }
}

/// The URL of an endpoint of a peer: "http://", the peer's address, then the
/// endpoint's path.
pub open spec fn endpoint_text(peer_url: Seq<char>, path: Seq<char>) -> Seq<char> {
    "http://"@ + peer_url + path
}

/// The URL of an endpoint (such as "/health") of a peer (see [`endpoint_text`]).
pub fn peer_endpoint(peer_url: &str, path: &str) -> (r: String)
    ensures
        r@ == endpoint_text(peer_url@, path@),
{
    let mut out: Vec<char> = Vec::new();
    push_str(&mut out, "http://");
    push_str(&mut out, peer_url);
    push_str(&mut out, path);
    string_of(&out)
}

/// The HTTP client of a node.
#[derive(Debug)]
pub struct HttpClient {
    /// This node's id
    pub node_id: String,
    /// This node's own address
    pub base_url: String,
}

impl HttpClient {
    /// The client of a node.
    pub fn new(node_id: String, base_url: String) -> (r: Self)
        ensures
            r.node_id == node_id,
            r.base_url == base_url,
    {
        HttpClient { node_id, base_url }
    }

    /// The consensus request for a round's transactions of a shard.
    pub fn consensus_request(round: usize, transactions: Vec<Vec<u8>>, shard_id: usize) -> (r: ConsensusRequest)
        ensures
            r.round == round,
            r.transactions == transactions,
            r.shard_id == shard_id,
    {
        ConsensusRequest { round, transactions, shard_id }
    }

    /// The message this node posts to a peer, stamped with the current time
    /// (seconds since the Unix epoch).
    pub fn outgoing_message(&self, message_type: String, payload: Vec<u8>, target_shard: Option<usize>) -> (r: HttpMessage)
        ensures
            r.sender_id == self.node_id,
            r.message_type == message_type,
            r.payload == payload,
            r.target_shard == target_shard,
    {
        let timestamp = unix_time_secs();
        HttpMessage { sender_id: self.node_id.clone(), message_type, payload, target_shard, timestamp }
    }
}

} // verus!
