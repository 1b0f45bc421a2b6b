//! The consensus client over WebSocket: where it connects, the messages it
//! sends for a round, and how it gathers the answers. The socket itself is
//! driven by the caller, which reports each frame it receives.

use vstd::prelude::*;

use crate::text::{push_str, string_of};
use crate::github::{has_prefix, starts_with};

verus! {

/// A consensus message: a batch of a round's transactions for a shard.
#[derive(Debug)]
pub struct WebSocketMessage {
    pub message_type: String,
    pub round: usize,
    pub shard_id: usize,
    pub transactions: Vec<Vec<u8>>,
    pub node_id: String,
}

/// A consensus client.
#[derive(Debug)]
pub struct WebSocketClient {
    /// This node's id
    pub node_id: String,
    /// The server: a `ws://` or `wss://` URL, or a host and port
    pub server_url: String,
}

/// The URL the client connects to: the server URL when it is a `ws://` or
/// `wss://` URL, otherwise `ws://<server>/consensus`.
pub open spec fn consensus_url_text(server: Seq<char>) -> Seq<char> {
    if starts_with(server, "ws://"@) || starts_with(server, "wss://"@) {
        server
    } else {
        "ws://"@ + server + "/consensus"@
    }
}

/// A frame received while gathering answers.
#[derive(Debug, Clone, Copy, PartialEq, Eq, Structural)]
pub enum FrameKind {
    /// A text frame that parsed as an answer
    Answer,
    /// A text frame that did not parse
    Unparsable,
    /// A close frame
    Close,
    /// A transport error
    Failure,
    /// Any other frame
    Other,
    /// The stream ended
    End,
}

/// What to do with a received frame.
#[derive(Debug)]
pub enum CollectStep {
    /// Keep the answer; stop when this was the last one expected
    Keep { done: bool },
    /// Skip the frame and read on
    Skip,
    /// Stop with the answers gathered so far
    Stop,
    /// Fail with this message
    Fail(String),
}

impl WebSocketClient {
    /// A client for a node and a server.
    pub fn new(node_id: String, server_url: String) -> (r: Self)
        ensures
            r.node_id == node_id,
            r.server_url == server_url,
    {
        WebSocketClient { node_id, server_url }
    }

    /// The URL to connect to (see [`consensus_url_text`]).
    pub fn consensus_url(&self) -> (r: String)
        ensures
            r@ == consensus_url_text(self.server_url@),
    {
        if has_prefix(self.server_url.as_str(), "ws://") || has_prefix(self.server_url.as_str(), "wss://") {
            return self.server_url.clone();
        }
        let mut out: Vec<char> = Vec::new();
        push_str(&mut out, "ws://");
        push_str(&mut out, self.server_url.as_str());
        push_str(&mut out, "/consensus");
        string_of(&out)
    }

    /// The consensus message for one batch.
    pub fn consensus_message(&self, round: usize, batch: Vec<Vec<u8>>, shard_id: usize) -> (r: WebSocketMessage)
        ensures
            r.message_type@ == "consensus"@,
            r.round == round,
            r.shard_id == shard_id,
            r.transactions == batch,
            r.node_id == self.node_id,
    {
        WebSocketMessage {
            message_type: "consensus".to_string(),
            round,
            shard_id,
            transactions: batch,
            node_id: self.node_id.clone(),
        }
    }

    /// The messages for a round: one per batch, paired with the shard ids in
    /// order, as many as the shorter of the two lists.
    pub fn batch_messages(&self, round: usize, batches: Vec<Vec<Vec<u8>>>, shard_ids: &Vec<usize>) -> (r: Vec<WebSocketMessage>)
        ensures
            r@.len() == if batches@.len() < shard_ids@.len() { batches@.len() } else { shard_ids@.len() },
            forall|i: int|
                0 <= i < r@.len() ==> (#[trigger] r@[i]).message_type@ == "consensus"@ && r@[i].round == round
                    && r@[i].shard_id == shard_ids@[i] && r@[i].transactions == batches@[i] && r@[i].node_id
                    == self.node_id,
    {
        let n = if batches.len() < shard_ids.len() { batches.len() } else { shard_ids.len() };
        let mut rest = batches;
        let ghost all = rest@;
        let mut taken: Vec<Vec<Vec<u8>>> = Vec::new();
        // Put the batches in reverse so that each is popped in order.
        while rest.len() > 0
            invariant
                all == rest@ + taken@.reverse(),
            decreases rest.len(),
        {
            let b = rest.pop().unwrap();
            let ghost before = taken@;
            taken.push(b);
            assert(taken@.reverse() =~= seq![b] + before.reverse());
        }
        assert(taken@.reverse() =~= all);
        let mut out: Vec<WebSocketMessage> = Vec::new();
        let mut i: usize = 0;
        while i < n
            invariant
                n <= all.len(),
                n <= shard_ids@.len(),
                i <= n,
                taken@.len() == all.len() - i,
                forall|k: int| 0 <= k < taken@.len() ==> #[trigger] taken@[k] == all[all.len() - 1 - k],
                out@.len() == i,
                forall|k: int|
                    0 <= k < i ==> (#[trigger] out@[k]).message_type@ == "consensus"@ && out@[k].round == round
                        && out@[k].shard_id == shard_ids@[k] && out@[k].transactions == all[k] && out@[k].node_id
                        == self.node_id,
            decreases n - i,
        {
            let ghost before = taken@;
            let b = taken.pop().unwrap();
            assert(b == all[i as int]) by {
                assert(before[before.len() - 1] == all[all.len() - 1 - (before.len() - 1)]);
            }
            out.push(self.consensus_message(round, b, shard_ids[i]));
            i = i + 1;
        }
        out
    }
}

/// Decides what to do with a frame received while `received` of `expected`
/// answers are in: keep an answer (done when it is the last), fail on an
/// unparsable answer, a close or an error, skip other frames, stop at the end
/// of the stream. The caller appends the transport's own words to a failure's
/// message.
pub fn collect_step(kind: FrameKind, received: usize, expected: usize) -> (r: CollectStep)
    requires
        received < expected,
    ensures
        match kind {
            FrameKind::Answer => r matches CollectStep::Keep { done } && done == (received + 1 >= expected),
            FrameKind::Unparsable => r matches CollectStep::Fail(t) && t@ == "Failed to deserialize response"@,
            FrameKind::Close => r matches CollectStep::Fail(t) && t@ == "WebSocket connection closed"@,
            FrameKind::Failure => r matches CollectStep::Fail(t) && t@ == "WebSocket error"@,
            FrameKind::Other => r is Skip,
            FrameKind::End => r is Stop,
        },
{
    match kind {
        FrameKind::Answer => CollectStep::Keep { done: received + 1 >= expected },
        FrameKind::Unparsable => CollectStep::Fail("Failed to deserialize response".to_string()),
        FrameKind::Close => CollectStep::Fail("WebSocket connection closed".to_string()),
        FrameKind::Failure => CollectStep::Fail("WebSocket error".to_string()),
        FrameKind::Other => CollectStep::Skip,
        FrameKind::End => CollectStep::Stop,
    }
}

} // verus!
