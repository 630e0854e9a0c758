//! What can go wrong.

use vstd::prelude::*;

verus! {

/// Why the relay gave up on one event, or could not start.
#[derive(Debug, Clone, Copy, PartialEq, Eq, Structural)]
pub enum DeliveryError {
    /// The network failed before any HTTP status came back.
    TransportError,
    /// The webhook answered with this failure status and no usable
    /// `Retry-After` header.
    ProtocolError(u16),
    /// An inbound payload did not have the expected shape.
    MalformedInput,
    /// The configuration file exists but cannot be read as a configuration.
    ConfigError,
}

} // verus!
