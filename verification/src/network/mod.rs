//! Network layer: errors, framing and the discovery services.

use vstd::prelude::*;

pub mod discovery;
pub mod error;
pub mod error_analysis;
pub mod framing;
pub mod http;
pub mod message;
pub mod peer;
pub mod real_node;
pub mod transport;
pub mod types;
pub mod udp_discovery;
pub mod websocket_client;

pub use error::NetworkError;

verus! {

} // verus!
