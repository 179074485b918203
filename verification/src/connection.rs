//! Connection disposition.
//!
//! The TCP stream itself lives with the runtime; the library tracks what
//! may be done with a connection once an exchange ends, and decides which
//! pool command the release of a rented connection must send.
use vstd::prelude::*;

use crate::pool_actor::DiscardReason;

verus! {

/// Disposition of a connection.
///
/// A connection starts as `InUse`.  The execute engine leaves it
/// `Recyclable` after a clean exchange that permits reuse, and `Closed`
/// when it must not be used again.  A closed connection is never
/// re-pooled.
#[derive(Debug, Clone, Copy, PartialEq, Eq, Structural)]
pub enum ConnectionState {
    /// The connection is lent to a client and mid-exchange.
    InUse,
    /// The last exchange completed and the connection may be reused.
    Recyclable,
    /// The connection must not be used again.
    Closed,
}

/// A connection provider that establishes a new TCP connection for every
/// acquisition.  It holds no state; the runtime performs the connect.
#[derive(Debug, Default, Clone, Copy, PartialEq, Eq, Structural)]
pub struct Oneshot;

/// What the release of a rented connection sends back to the pool.
#[derive(Debug, Clone, Copy, PartialEq, Eq, Structural)]
pub enum ReleaseCommand {
    /// Return the connection to the pool for reuse.
    Reuse,
    /// Return no connection; release the slot for the given reason.
    Discard(DiscardReason),
}

/// The command that releasing a rented connection in the given state
/// must send to the pool: a recyclable connection is re-pooled, a closed
/// one releases its slot, and one still marked in-use was abandoned
/// mid-exchange, so its slot is released as a request failure.
pub fn release_command(state: ConnectionState) -> (r: ReleaseCommand)
    ensures
        r == match state {
            ConnectionState::Recyclable => ReleaseCommand::Reuse,
            ConnectionState::Closed => ReleaseCommand::Discard(DiscardReason::Closed),
            ConnectionState::InUse => ReleaseCommand::Discard(DiscardReason::RequestFailed),
        },
{
    match state {
        ConnectionState::Recyclable => ReleaseCommand::Reuse,
        ConnectionState::Closed => ReleaseCommand::Discard(DiscardReason::Closed),
        ConnectionState::InUse => ReleaseCommand::Discard(DiscardReason::RequestFailed),
    }
}

} // verus!
