//! Message routing: the messages a node sends to one peer or to all, what
//! a broadcast reports, and the event an incoming message becomes. Sending
//! is left to the caller's transport.

use vstd::prelude::*;

use crate::network::error::NetworkError;
use crate::network::peer::PeerManager;
use crate::network::types::{Message, MessageType, NetworkEvent};

verus! {

/// The message service of a node.
#[derive(Debug)]
pub struct MessageService {
    /// This node's id
    pub node_id: u128,
}

impl MessageService {
    /// The service of a node.
    pub fn new(node_id: u128) -> (r: Self)
        ensures
            r.node_id == node_id,
    {
        MessageService { node_id }
    }

    /// The message to send to one peer: from this node, to that peer.
    pub fn message_to_peer(&self, peer_id: u128, message_type: MessageType, payload: Vec<u8>) -> (r: Message)
        ensures
            r.sender_id == self.node_id,
            r.recipient_id == Some(peer_id),
            r.message_type == message_type,
            r.payload == payload,
    {
        Message::new(self.node_id, Some(peer_id), message_type, payload)
    }

    /// The message to broadcast: from this node, to no one in particular.
    pub fn broadcast_message(&self, message_type: MessageType, payload: Vec<u8>) -> (r: Message)
        ensures
            r.sender_id == self.node_id,
            r.recipient_id is None,
            r.message_type == message_type,
            r.payload == payload,
    {
        Message::new(self.node_id, None, message_type, payload)
    }

    /// The event an incoming message becomes.
    pub fn handle_message(&self, from: u128, message: Message) -> (r: NetworkEvent)
        ensures
            r == (NetworkEvent::MessageReceived { from, message }),
    {
        NetworkEvent::MessageReceived { from, message }
    }
}

/// The peers a broadcast goes to: every known peer, each once.
pub fn broadcast_recipients(manager: &PeerManager) -> (r: Vec<u128>)
    requires
        manager.well_formed(),
    ensures
        r@.to_set() == manager@.dom(),
        r@.no_duplicates(),
{
    let peers = manager.get_all_peers();
    let mut ids: Vec<u128> = Vec::new();
    let mut i: usize = 0;
    while i < peers.len()
        invariant
            i <= peers@.len(),
            ids@.len() == i,
            forall|k: int| 0 <= k < i ==> ids@[k] == peers@[k].id,
        decreases peers@.len() - i,
    {
        ids.push(peers[i].id);
        i = i + 1;
    }
    assert forall|x: u128| ids@.to_set().contains(x) <==> manager@.dom().contains(x) by {
        if manager@.contains_key(x) {
            let k = choose|k: int| 0 <= k < peers@.len() && #[trigger] peers@[k].id == x;
            assert(ids@[k] == x);
        }
        if ids@.to_set().contains(x) {
            let k = choose|k: int| 0 <= k < ids@.len() && ids@[k] == x;
            assert(manager@.contains_key(peers@[k].id));
        }
    }
    assert(ids@.to_set() =~= manager@.dom());
    ids
}

/// The outcome of a broadcast from the outcome of each send: the first
/// error, if any send failed.
pub fn broadcast_outcome(results: Vec<Result<(), NetworkError>>) -> (r: Result<(), NetworkError>)
    ensures
        (forall|i: int| 0 <= i < results@.len() ==> #[trigger] results@[i] is Ok) ==> r is Ok,
        (exists|i: int| 0 <= i < results@.len() && #[trigger] results@[i] is Err) ==> exists|i: int|
            0 <= i < results@.len() && r == results@[i] && (forall|j: int| 0 <= j < i ==> #[trigger] results@[j] is Ok),
{
    let mut rest = results;
    let ghost all = rest@;
    let mut rev: Vec<Result<(), NetworkError>> = Vec::new();
    while rest.len() > 0
        invariant
            all == rest@ + rev@.reverse(),
            all == results@,
        decreases rest.len(),
    {
        let x = rest.pop().unwrap();
        let ghost before = rev@;
        rev.push(x);
        assert(rev@.reverse() =~= seq![x] + before.reverse());
    }
    assert(rev@.reverse() =~= all);
    let n = rev.len();
    let mut i: usize = 0;
    while i < n
        invariant
            all == results@,
            n == all.len(),
            i <= n,
            rev@.len() == n - i,
            forall|k: int| 0 <= k < rev@.len() ==> #[trigger] rev@[k] == all[n - 1 - k],
            forall|j: int| 0 <= j < i ==> #[trigger] all[j] is Ok,
        decreases n - i,
    {
        let ghost before = rev@;
        let x = rev.pop().unwrap();
        assert(x == all[i as int]) by {
            assert(before[before.len() - 1] == all[n - 1 - (before.len() - 1)]);
        }
        match x {
            Err(e) => {
                assert(results@[i as int] is Err);
                assert(results@[i as int] == Err::<(), NetworkError>(e));
                return Err(e);
            },
            Ok(()) => {},
        }
        i = i + 1;
    }
    Ok(())
}

} // verus!
