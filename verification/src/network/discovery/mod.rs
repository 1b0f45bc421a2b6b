//! Discovery-side services: compression, routing, gossip, sharding and state sync.

use vstd::prelude::*;

pub mod compression;
pub mod dht;
pub mod gossip;
pub mod quic_transport;
pub mod sharding;
pub mod state_sync;
pub mod swarm_control;

verus! {

} // verus!
