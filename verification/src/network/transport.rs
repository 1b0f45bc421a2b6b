//! The TCP transport's decisions: which peer an incoming connection
//! belongs to, whether a message goes over a known connection or needs a new
//! one, how each frame's header is checked, and what a read failure means.
//! The sockets and channels are driven by the caller.

use std::collections::HashMap;
use vstd::prelude::*;

use crate::network::error::NetworkError;
use crate::network::framing::{be_bytes, from_be, MAX_MESSAGE_SIZE};
use crate::network::peer::PeerManager;
use crate::network::types::{NetworkEvent, SocketAddress};
use crate::text::{decimal, push_decimal, push_str, string_of};

verus! {

broadcast use vstd::std_specs::hash::group_hash_axioms;

/// How to reach a peer.
#[derive(Debug)]
pub enum ConnectPlan {
    /// Over the open connection with this handle
    Existing(u64),
    /// By connecting to this address
    Connect(SocketAddress),
}

/// What a failed read means.
#[derive(Debug)]
pub enum ReadFailure {
    /// The peer closed the connection: report it gone and finish
    Closed(NetworkEvent),
    /// Any other failure: finish with an error
    Failed,
}

/// The transport's table of open connections: peer id to the handle of the
/// channel that writes to it.
#[derive(Debug)]
pub struct TransportService {
    /// This node's id
    pub node_id: u128,
    /// TCP port
    pub port: u16,
    /// Open connections, by peer id
    pub connections: HashMap<u128, u64>,
    /// Running flag
    pub running: bool,
}

/// The message for a frame over the size limit.
pub open spec fn oversize_text(size: nat) -> Seq<char> {
    "Размер сообщения превышает максимально допустимый ("@ + decimal(size) + " > "@ + decimal(MAX_MESSAGE_SIZE as nat)
        + ")"@
}

impl TransportService {
    /// A stopped transport with no connections.
    pub fn new(node_id: u128, port: u16) -> (r: Self)
        ensures
            r.node_id == node_id,
            r.port == port,
            r.connections@ == Map::<u128, u64>::empty(),
            !r.running,
    {
        TransportService { node_id, port, connections: HashMap::new(), running: false }
    }

    /// Starts the transport: fails when it is marked running. Binding the
    /// listener is the caller's; the flag is left as it is, so a second start
    /// is refused only by the listener's port being taken.
    pub fn start(&self) -> (r: Result<(), NetworkError>)
        ensures
            self.running ==> r matches Err(NetworkError::ServiceAlreadyStarted),
            !self.running ==> r is Ok,
    {
        if self.running {
            return Err(NetworkError::ServiceAlreadyStarted);
        }
        Ok(())
    }

    /// The peer an incoming connection from `address` belongs to: the id of
    /// a known peer with that address, if any.
    pub fn identify_incoming(manager: &PeerManager, address: &SocketAddress) -> (r: Option<u128>)
        requires
            manager.well_formed(),
        ensures
            r matches Some(id) ==> manager@.contains_key(id) && manager@[id].address == *address,
            r is None ==> forall|k: u128| #[trigger] manager@.contains_key(k) ==> manager@[k].address != *address,
    {
        match manager.find_peer_by_address(address) {
            Some(p) => Some(p.id),
            None => None,
        }
    }

    /// Records the open connection to a peer.
    pub fn register_connection(&mut self, peer_id: u128, handle: u64)
        ensures
            final(self).connections@ == old(self).connections@.insert(peer_id, handle),
            final(self).running == old(self).running,
    {
        self.connections.insert(peer_id, handle);
    }

    /// How to reach a peer: over its open connection, else by connecting to
    /// its address; fails for an unknown peer.
    pub fn plan_connection(&self, manager: &PeerManager, peer_id: u128) -> (r: Result<ConnectPlan, NetworkError>)
        ensures
            self.connections@.contains_key(peer_id) ==> (r matches Ok(ConnectPlan::Existing(h)) && h == self.connections@[peer_id]),
            !self.connections@.contains_key(peer_id) && manager@.contains_key(peer_id) ==> (r matches Ok(
                ConnectPlan::Connect(a),
            ) && a == manager@[peer_id].address),
            !self.connections@.contains_key(peer_id) && !manager@.contains_key(peer_id) ==> (r matches Err(
                NetworkError::PeerNotFound(id),
            ) && id == peer_id),
    {
        match self.connections.get(&peer_id) {
            Some(h) => Ok(ConnectPlan::Existing(*h)),
            None => match manager.get_peer_address(&peer_id) {
                Ok(a) => Ok(ConnectPlan::Connect(a)),
                Err(e) => Err(e),
            },
        }
    }
}

/// The size a frame header announces, checked against the limit: an error
/// naming both sizes when it is over.
pub fn check_frame_header(header: [u8; 4]) -> (r: Result<usize, NetworkError>)
    ensures
        from_be(header@) <= MAX_MESSAGE_SIZE ==> r == Ok::<usize, NetworkError>(from_be(header@) as usize),
        from_be(header@) > MAX_MESSAGE_SIZE ==> (r matches Err(NetworkError::Internal(t)) && t@ == oversize_text(
            from_be(header@) as nat,
        )),
{
    let size: u32 = crate::network::framing::u32_from_be_bytes(header);
    if size as usize > MAX_MESSAGE_SIZE {
        let mut text: Vec<char> = Vec::new();
        push_str(&mut text, "Размер сообщения превышает максимально допустимый (");
        push_decimal(&mut text, size as u64);
        push_str(&mut text, " > ");
        push_decimal(&mut text, MAX_MESSAGE_SIZE as u64);
        push_str(&mut text, ")");
        return Err(NetworkError::Internal(string_of(&text)));
    }
    Ok(size as usize)
}

/// What a failed read from a peer means: the end of the stream closes the
/// connection and reports the peer gone; anything else is an error.
pub fn read_failure(peer_id: u128, end_of_stream: bool) -> (r: ReadFailure)
    ensures
        end_of_stream ==> (r matches ReadFailure::Closed(NetworkEvent::PeerDisconnected(id)) && id == peer_id),
        !end_of_stream ==> r is Failed,
{
    if end_of_stream {
        ReadFailure::Closed(NetworkEvent::PeerDisconnected(peer_id))
    } else {
        ReadFailure::Failed
    }
}

} // verus!
