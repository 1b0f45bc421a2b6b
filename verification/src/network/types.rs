//! Plain-value types shared by the network services: addresses, peers,
//! messages and events.

use vstd::prelude::*;

use crate::clock::unix_time_secs;
use crate::ids::new_uuid;

verus! {

/// A socket address held as plain values: the IP address (an IPv4 address in
/// the low 32 bits when `is_ipv6` is false), and the port.
#[derive(Debug, Clone, Copy, PartialEq, Eq, Structural)]
pub struct SocketAddress {
    /// The IP address bits.
    pub ip: u128,
    /// Whether `ip` is an IPv6 address.
    pub is_ipv6: bool,
    /// The port.
    pub port: u16,
}

/// The kind of a network message with its encoded body.
#[derive(Debug)]
pub enum MessageType {
    /// A transaction (encoded).
    Transaction(Vec<u8>),
    /// A smart contract (encoded).
    SmartContract(Vec<u8>),
    /// A consensus message (encoded).
    Consensus(Vec<u8>),
    /// A shard event (encoded).
    ShardEvent(Vec<u8>),
    /// An error report (encoded).
    ErrorEvent(Vec<u8>),
    /// A semantic action (encoded).
    SemanticAction(Vec<u8>),
    /// An error description.
    Error(String),
}

/// A network message.
#[derive(Debug)]
pub struct Message {
    /// Unique message identifier
    pub id: u128,
    /// Sender identifier
    pub sender_id: u128,
    /// Recipient identifier (`None` for a broadcast)
    pub recipient_id: Option<u128>,
    /// Message type
    pub message_type: MessageType,
    /// Message timestamp (seconds since the Unix epoch)
    pub timestamp: u64,
    /// Message payload
    pub payload: Vec<u8>,
}

impl Message {
    /// A new message with a fresh random id, stamped with the current time.
    pub fn new(sender_id: u128, recipient_id: Option<u128>, message_type: MessageType, payload: Vec<u8>) -> (r: Self)
        ensures
            r.sender_id == sender_id,
            r.recipient_id == recipient_id,
            r.message_type == message_type,
            r.payload == payload,
    {
        let now = unix_time_secs();
        Message { id: new_uuid(), sender_id, recipient_id, message_type, timestamp: now, payload }
    }
}

/// Information about a peer. Times are milliseconds of a monotonic clock.
#[derive(Debug)]
pub struct PeerInfo {
    /// Unique node identifier
    pub id: u128,
    /// Node name
    pub name: String,
    /// Node address and port
    pub address: SocketAddress,
    /// Last interaction time (ms)
    pub last_seen: u64,
}

/// Milliseconds from `since` to `now`, 0 when `since` is later.
pub open spec fn elapsed_ms(now: u64, since: u64) -> int {
    if now >= since {
        now - since
    } else {
        0
    }
}

impl Clone for PeerInfo {
    fn clone(&self) -> (r: Self)
        ensures
            r == *self,
    {
        PeerInfo { id: self.id, name: self.name.clone(), address: self.address, last_seen: self.last_seen }
    }
}

impl PeerInfo {
    /// Information about a peer seen at `now`.
    pub fn new(id: u128, name: String, address: SocketAddress, now: u64) -> (r: Self)
        ensures
            r == (PeerInfo { id, name, address, last_seen: now }),
    {
        PeerInfo { id, name, address, last_seen: now }
    }

    /// Records an interaction at `now`.
    pub fn update_last_seen(&mut self, now: u64)
        ensures
            *final(self) == (PeerInfo { last_seen: now, ..*old(self) }),
    {
        self.last_seen = now;
    }

    /// Whether the peer was seen less than `timeout_ms` before `now`.
    pub fn is_active(&self, now: u64, timeout_ms: u64) -> (r: bool)
        ensures
            r == (elapsed_ms(now, self.last_seen) < timeout_ms),
    {
        now.saturating_sub(self.last_seen) < timeout_ms
    }
}

/// A peer as sent over the network: its address in text form.
#[derive(Debug)]
pub struct SerializablePeerInfo {
    /// Unique node identifier
    pub id: u128,
    /// Node name
    pub name: String,
    /// Node address and port as text
    pub address: String,
}

/// Events reported by the network services.
#[derive(Debug)]
pub enum NetworkEvent {
    /// A message arrived from a peer.
    MessageReceived { from: u128, message: Message },
    /// A new peer was found.
    PeerConnected(PeerInfo),
    /// A peer went away.
    PeerDisconnected(u128),
}

} // verus!
