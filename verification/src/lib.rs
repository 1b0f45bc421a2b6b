//! TRIAD networking and DAG library: the verified core logic of a
//! peer-to-peer node (framing, compression, routing tables, gossip,
//! sharding, state synchronisation and the transaction DAG).

use vstd::prelude::*;

pub mod clock;
pub mod dag;
pub mod error_analysis;
pub mod github;
pub mod ids;
pub mod network;
pub mod sorting;
pub mod text;

verus! {

} // verus!
