//! The ways in which an exchange can fail.

use vstd::prelude::*;

verus! {

/// Why an exchange was given up.
#[derive(Clone, Copy, Debug, PartialEq, Eq, Structural)]
pub enum KitapError {
    /// Reading from or writing to the socket failed, or the peer sent fewer
    /// bytes than were asked for.
    ConnectionError,
    /// A header or body is malformed, or the message type is not a request.
    ProtocolError,
    /// The storage actor's loop is no longer running.
    StoreUnavailable,
    /// A digest supplied by the caller is not valid hex or not 64 bytes long.
    ValidationError,
}

impl KitapError {
    /// A short name for the error, for logs and for the command line.
    pub fn name(&self) -> (s: &'static str)
        ensures
            s@ == match *self {
                KitapError::ConnectionError => "connection error"@,
                KitapError::ProtocolError => "protocol error"@,
                KitapError::StoreUnavailable => "store unavailable"@,
                KitapError::ValidationError => "validation error"@,
            },
    {
        match self {
            KitapError::ConnectionError => "connection error",
            KitapError::ProtocolError => "protocol error",
            KitapError::StoreUnavailable => "store unavailable",
            KitapError::ValidationError => "validation error",
        }
    }
}

} // verus!
