//! Connection pool metrics.
//!
//! Plain counters and a gauge describing the pool's behaviour.  The pool
//! actor increments them as it processes commands; the accounting
//! invariant ties them to the pool state: the allocated count always
//! equals the released counters plus the live pool size, so the derived
//! observables never underflow.
use vstd::prelude::*;

verus! {

/// Counters and a gauge exposing the behaviour of a connection pool.
#[derive(Debug, Clone, Copy, PartialEq, Eq, Structural)]
pub struct ConnectionPoolMetrics {
    /// Gauge: maximum number of allocated connection slots.
    pub max_pool_size: usize,
    /// Connections allocated by the pool so far.
    pub allocated_connections: u64,
    /// Connections released because the peer closed them.
    pub closed_connections: u64,
    /// Connections released because the TCP connect failed.
    pub connect_failed_connections: u64,
    /// Connections released because an HTTP request on them failed.
    pub request_failed_connections: u64,
    /// Connections released by keep-alive expiration.
    pub expired_connections: u64,
    /// Connections kicked out of the full pool to make room.
    pub kicked_out_connections: u64,
    /// Connections lent to clients so far.
    pub lent_connections: u64,
    /// Connections returned by clients so far.
    pub returned_connections: u64,
    /// Acquisitions that failed because no connection was available.
    pub no_available_connection_errors: u64,
}

impl ConnectionPoolMetrics {
    /// The sum of all release counters.
    pub open spec fn spec_released_total(self) -> int {
        self.closed_connections + self.connect_failed_connections
            + self.request_failed_connections + self.expired_connections
            + self.kicked_out_connections
    }

    /// The pool size that the counters imply: allocations minus releases,
    /// never below zero and never above what a `usize` holds.
    pub open spec fn spec_pool_size(self) -> int {
        let diff = self.allocated_connections - self.spec_released_total();
        if diff < 0 {
            0
        } else if diff > usize::MAX {
            usize::MAX as int
        } else {
            diff
        }
    }

    /// A metrics record with all counters at zero.
    pub open spec fn spec_zeroed(max_pool_size: usize) -> ConnectionPoolMetrics {
        ConnectionPoolMetrics {
            max_pool_size,
            allocated_connections: 0,
            closed_connections: 0,
            connect_failed_connections: 0,
            request_failed_connections: 0,
            expired_connections: 0,
            kicked_out_connections: 0,
            lent_connections: 0,
            returned_connections: 0,
            no_available_connection_errors: 0,
        }
    }

    /// Makes a metrics record with all counters at zero.
    pub fn new(max_pool_size: usize) -> (m: Self)
        ensures
            m == Self::spec_zeroed(max_pool_size),
    {
        ConnectionPoolMetrics {
            max_pool_size,
            allocated_connections: 0,
            closed_connections: 0,
            connect_failed_connections: 0,
            request_failed_connections: 0,
            expired_connections: 0,
            kicked_out_connections: 0,
            lent_connections: 0,
            returned_connections: 0,
            no_available_connection_errors: 0,
        }
    }

    /// Maximum number of pooled connections.
    pub fn max_pool_size(&self) -> (r: usize)
        ensures
            r == self.max_pool_size,
    {
        self.max_pool_size
    }

    /// Current number of allocated connections: allocations minus
    /// releases, saturating at zero.  This includes the connections that
    /// are being used by clients.
    pub fn pool_size(&self) -> (r: usize)
        ensures
            r == self.spec_pool_size(),
    {
        let released: u128 = self.closed_connections as u128
            + self.connect_failed_connections as u128 + self.request_failed_connections as u128
            + self.expired_connections as u128 + self.kicked_out_connections as u128;
        let allocated: u128 = self.allocated_connections as u128;
        if allocated <= released {
            0
        } else {
            let diff: u128 = allocated - released;
            if diff > usize::MAX as u128 {
                usize::MAX
            } else {
                diff as usize
            }
        }
    }

    /// Number of connections allocated by the pool.
    pub fn allocated_connections(&self) -> (r: u64)
        ensures
            r == self.allocated_connections,
    {
        self.allocated_connections
    }

    /// Number of connections released from the pool due to TCP closure.
    pub fn closed_connections(&self) -> (r: u64)
        ensures
            r == self.closed_connections,
    {
        self.closed_connections
    }

    /// Number of connections released from the pool due to TCP connect errors.
    pub fn connect_failed_connections(&self) -> (r: u64)
        ensures
            r == self.connect_failed_connections,
    {
        self.connect_failed_connections
    }

    /// Number of connections released from the pool due to HTTP request errors.
    pub fn request_failed_connections(&self) -> (r: u64)
        ensures
            r == self.request_failed_connections,
    {
        self.request_failed_connections
    }

    /// Number of connections released from the pool due to keep-alive expiration.
    pub fn expired_connections(&self) -> (r: u64)
        ensures
            r == self.expired_connections,
    {
        self.expired_connections
    }

    /// Number of connections kicked out from the pool.
    pub fn kicked_out_connections(&self) -> (r: u64)
        ensures
            r == self.kicked_out_connections,
    {
        self.kicked_out_connections
    }

    /// Number of connections lent to clients.
    pub fn lent_connections(&self) -> (r: u64)
        ensures
            r == self.lent_connections,
    {
        self.lent_connections
    }

    /// Number of connections returned from clients.
    pub fn returned_connections(&self) -> (r: u64)
        ensures
            r == self.returned_connections,
    {
        self.returned_connections
    }

    /// Connections currently used by clients: lent minus returned,
    /// saturating at zero.
    pub fn in_use_connetions(&self) -> (r: u64)
        ensures
            r == if self.lent_connections >= self.returned_connections {
                self.lent_connections - self.returned_connections
            } else {
                0
            },
    {
        if self.lent_connections >= self.returned_connections {
            self.lent_connections - self.returned_connections
        } else {
            0
        }
    }

    /// Number of connection acquisition failures.
    pub fn no_available_connection_errors(&self) -> (r: u64)
        ensures
            r == self.no_available_connection_errors,
    {
        self.no_available_connection_errors
    }
}

} // verus!
