//! Errors of the client core.
use vstd::prelude::*;

verus! {

/// What can go wrong while building or running a client. Each variant carries a
/// description of the cause.
#[derive(Debug, Clone)]
pub enum P2PError {
    /// Filesystem or socket failure.
    Io(String),
    /// A listen address could not be bound.
    Transport(String),
    /// Key material that is malformed or of the wrong length.
    KeyDecode(String),
    /// An unusable protocol identifier or topic subscription.
    InvalidConfig(String),
    /// Secure channel, multiplexer or bootstrap failure.
    Network(String),
    /// A query against an identifier the registry does not hold.
    PeerNotFound(String),
    /// A value could not be encoded or decoded.
    Serialization(String),
}

/// Results of the client core.
pub type Result<T> = core::result::Result<T, P2PError>;

} // verus!
