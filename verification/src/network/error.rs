//! Errors of the network layer.

use vstd::prelude::*;

verus! {

/// `std::io::Error`, carried through unchanged by [`NetworkError::Io`].
#[verifier::external_type_specification]
#[verifier::external_body]
pub struct ExIoError(std::io::Error);

/// Errors of the network module.
#[derive(Debug)]
pub enum NetworkError {
    /// An input/output failure.
    Io(std::io::Error),
    /// A value could not be serialized.
    Serialization(String),
    /// A value could not be deserialized.
    Deserialization(String),
    /// No peer with this id is known.
    PeerNotFound(u128),
    /// A connection to a peer could not be made.
    ConnectionFailed(String),
    /// The peer went away.
    PeerDisconnected(u128),
    /// The operation timed out.
    Timeout,
    /// The service is already started.
    ServiceAlreadyStarted,
    /// The service is not started.
    ServiceNotStarted,
    /// Any other failure, with its description.
    Internal(String),
    /// The service could not be stopped cleanly.
    ShutdownFailed,
}

} // verus!
