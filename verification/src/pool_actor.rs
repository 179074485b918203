//! The connection pool actor: serial command processing over pool state.
//!
//! The pool state is owned by a single actor task.  All mutation happens
//! when a command is handled: `Acquire` serves a pooled connection, or
//! reserves a slot (evicting the globally oldest pooled connection when
//! the pool is full) and asks for a fresh TCP connect; `Reuse` re-pools a
//! connection a client finished with; `Discard` releases the slot of a
//! connection that is gone.  A periodic tick expires idle connections.
//! The functions here decide; the surrounding runtime performs the
//! connects and replies that the returned [`PoolAction`] calls for.
use vstd::prelude::*;

use crate::connection_pool::ConnectionPoolState;
use crate::connection_pool::PeerAddr;
use crate::connection_pool::age_lt;
use crate::connection_pool::has_addr;
use crate::connection_pool::lend_step;
use crate::connection_pool::pool_step;
use crate::connection_pool::tick_step;
use crate::error::Error;
use crate::error::ErrorKind;
use crate::metrics::ConnectionPoolMetrics;

verus! {

/// Seconds between two keep-alive ticks.
pub const TIMER_INTERVAL_SECS: u64 = 1;

/// Why a client returns no connection.
#[derive(Debug, Clone, Copy, PartialEq, Eq, Structural)]
pub enum DiscardReason {
    /// The exchange ended with a connection that must not be reused.
    Closed,
    /// The TCP connect for a reserved slot failed.
    ConnectFailed,
    /// The exchange failed before the connection was classified.
    RequestFailed,
}

/// A command sent to the pool actor.
pub enum Command<C> {
    /// A client asks for a connection to `addr`.
    Acquire {
        /// The peer to connect to.
        addr: PeerAddr,
    },
    /// A client finished with a recyclable connection; re-pool it.
    Reuse {
        /// The peer the connection belongs to.
        addr: PeerAddr,
        /// The connection itself.
        connection: C,
    },
    /// A client returns no connection; release one allocated slot.
    Discard {
        /// Why no connection comes back.
        reason: DiscardReason,
    },
}

/// What the runtime must do after a command was handled.
pub enum PoolAction<C> {
    /// Reply to the requester with this pooled connection.
    Lend(C),
    /// Spawn a TCP connect to this peer for the reserved slot; its result
    /// resolves the requester's reply.
    StartConnect(PeerAddr),
    /// Reply to the requester with this error.
    Reject(Error),
    /// Nothing to do.
    Done,
}

/// [`ConnectionPool`] builder.
#[derive(Debug, Clone, Copy, PartialEq, Eq, Structural)]
pub struct ConnectionPoolBuilder {
    /// Maximum number of allocated connection slots.
    pub max_pool_size: usize,
    /// Seconds allowed for one TCP connect.
    pub connect_timeout: u64,
    /// Seconds a pooled connection is retained while unused.
    pub keepalive_timeout: u64,
}

impl ConnectionPoolBuilder {
    /// Makes a builder with the default settings.
    pub fn new() -> (r: Self)
        ensures
            r.max_pool_size == 4096,
            r.connect_timeout == 5,
            r.keepalive_timeout == 10,
    {
        ConnectionPoolBuilder { max_pool_size: 4096, connect_timeout: 5, keepalive_timeout: 10 }
    }

    /// Sets the maximum size (the number of connections) of the pool.
    ///
    /// The default value is `4096`.
    pub fn max_pool_size(&mut self, size: usize)
        ensures
            *final(self) == (ConnectionPoolBuilder { max_pool_size: size, ..*old(self) }),
    {
        self.max_pool_size = size;
    }

    /// Sets the timeout, in seconds, of a TCP connect issued by the pool.
    ///
    /// The default value is `5`.
    pub fn connect_timeout(&mut self, timeout: u64)
        ensures
            *final(self) == (ConnectionPoolBuilder { connect_timeout: timeout, ..*old(self) }),
    {
        self.connect_timeout = timeout;
    }

    /// Sets the retention, in seconds, of a pooled (inactive) connection.
    ///
    /// If a connection stays unused beyond this duration, it is removed
    /// from the pool.  The default value is `10`.
    pub fn keepalive_timeout(&mut self, timeout: u64)
        ensures
            *final(self) == (ConnectionPoolBuilder { keepalive_timeout: timeout, ..*old(self) }),
    {
        self.keepalive_timeout = timeout;
    }

    /// Makes a new [`ConnectionPool`] with these settings.
    pub fn finish<C>(&self) -> (pool: ConnectionPool<C>)
        ensures
            pool.wf(),
            pool.max_pool_size == self.max_pool_size,
            pool.connect_timeout == self.connect_timeout,
            pool.keepalive_timeout == self.keepalive_timeout,
            pool.state.pooled_connections@.len() == 0,
            pool.state.pool_size == 0,
            pool.state.elapsed_time == 0,
            pool.metrics == ConnectionPoolMetrics::spec_zeroed(self.max_pool_size),
    {
        ConnectionPool {
            max_pool_size: self.max_pool_size,
            connect_timeout: self.connect_timeout,
            keepalive_timeout: self.keepalive_timeout,
            metrics: ConnectionPoolMetrics::new(self.max_pool_size),
            state: ConnectionPoolState::new(),
        }
    }
}

/// The connection pool: its state, its metrics and its configuration.
///
/// All mutation goes through [`ConnectionPool::handle_command`] and
/// [`ConnectionPool::handle_tick`], which the owning actor task calls
/// serially.
#[derive(Debug)]
pub struct ConnectionPool<C> {
    /// Maximum number of allocated connection slots.
    pub max_pool_size: usize,
    /// Seconds allowed for one TCP connect.
    pub connect_timeout: u64,
    /// Seconds a pooled connection is retained while unused.
    pub keepalive_timeout: u64,
    /// The counters this pool maintains.
    pub metrics: ConnectionPoolMetrics,
    /// The pooled connections and the slot accounting.
    pub state: ConnectionPoolState<C>,
}

impl<C> ConnectionPool<C> {
    /// Well-formedness of the pool: the state is well-formed, the
    /// allocated slots never exceed the configured maximum, and the
    /// counters account exactly for the state: allocations equal releases
    /// plus live slots, and the outstanding lends equal the slots not
    /// occupied by a pooled connection.
    pub open spec fn wf(self) -> bool {
        &&& self.state.wf()
        &&& self.state.pool_size <= self.max_pool_size
        &&& self.metrics.max_pool_size == self.max_pool_size
        &&& self.metrics.allocated_connections == self.metrics.spec_released_total()
            + self.state.pool_size
        &&& self.metrics.lent_connections >= self.metrics.returned_connections
        &&& self.metrics.lent_connections - self.metrics.returned_connections
            == self.state.pool_size - self.state.pooled_connections@.len()
    }

    /// How many connections are lent out right now.
    pub open spec fn spec_in_use(self) -> int {
        self.metrics.lent_connections - self.metrics.returned_connections
    }

    /// Every counter is still comfortably below its limit.
    pub open spec fn counters_have_headroom(self) -> bool {
        &&& self.metrics.allocated_connections < u64::MAX
        &&& self.metrics.lent_connections < u64::MAX
        &&& self.metrics.returned_connections < u64::MAX
        &&& self.metrics.closed_connections < u64::MAX
        &&& self.metrics.connect_failed_connections < u64::MAX
        &&& self.metrics.request_failed_connections < u64::MAX
        &&& self.metrics.kicked_out_connections < u64::MAX
        &&& self.metrics.no_available_connection_errors < u64::MAX
    }

    /// Makes a new pool with the default settings.
    ///
    /// To customize the settings, use [`ConnectionPoolBuilder`] instead.
    pub fn new() -> (pool: Self)
        ensures
            pool.wf(),
            pool.max_pool_size == 4096,
            pool.connect_timeout == 5,
            pool.keepalive_timeout == 10,
            pool.state.pooled_connections@.len() == 0,
            pool.state.pool_size == 0,
    {
        ConnectionPoolBuilder::new().finish()
    }

    /// A copy of the metrics of the pool.
    pub fn metrics(&self) -> (m: ConnectionPoolMetrics)
        ensures
            m == self.metrics,
    {
        self.metrics
    }

    /// Serves an acquisition from the pool state: a pooled connection of
    /// the address if one exists; otherwise a reserved slot (`Ok(None)`),
    /// evicting the globally oldest pooled connection when the pool is
    /// full; an error when the pool is full and nothing can be evicted.
    /// Counts allocations, kick-outs and unavailability; lending itself
    /// is counted by the caller.
    fn acquire(&mut self, addr: PeerAddr) -> (r: Result<Option<C>, Error>)
        requires
            old(self).wf(),
            old(self).counters_have_headroom(),
        ensures
            final(self).max_pool_size == old(self).max_pool_size,
            final(self).connect_timeout == old(self).connect_timeout,
            final(self).keepalive_timeout == old(self).keepalive_timeout,
            final(self).state.wf(),
            final(self).state.elapsed_time == old(self).state.elapsed_time,
            final(self).state.seqno == old(self).state.seqno,
            match r {
                Ok(Some(c)) => {
                    &&& lend_step(old(self).state, final(self).state, addr, Some(c))
                    &&& final(self).metrics == old(self).metrics
                },
                Ok(None) => {
                    &&& !has_addr(old(self).state.pooled_connections@, addr)
                    &&& if old(self).state.pool_size < old(self).max_pool_size {
                        &&& final(self).state.pooled_connections@
                            == old(self).state.pooled_connections@
                        &&& final(self).state.pool_size == old(self).state.pool_size + 1
                        &&& final(self).metrics == (ConnectionPoolMetrics {
                            allocated_connections: (old(self).metrics.allocated_connections
                                + 1) as u64,
                            ..old(self).metrics
                        })
                    } else {
                        // the pool was full: the globally oldest pooled
                        // connection was kicked out to free its slot
                        &&& exists|j: int|
                            {
                                &&& 0 <= j < old(self).state.pooled_connections@.len()
                                &&& forall|l: int|
                                    0 <= l < old(self).state.pooled_connections@.len() && l != j
                                        ==> age_lt(
                                        old(self).state.pooled_connections@[j].0,
                                        (#[trigger] old(self).state.pooled_connections@[l]).0,
                                    )
                                &&& final(self).state.pooled_connections@ == old(
                                    self,
                                ).state.pooled_connections@.remove(j)
                            }
                        &&& final(self).state.pool_size == old(self).state.pool_size
                        &&& final(self).metrics == (ConnectionPoolMetrics {
                            allocated_connections: (old(self).metrics.allocated_connections
                                + 1) as u64,
                            kicked_out_connections: (old(self).metrics.kicked_out_connections
                                + 1) as u64,
                            ..old(self).metrics
                        })
                    }
                },
                Err(e) => {
                    &&& e.kind == ErrorKind::TemporarilyUnavailable
                    &&& old(self).state.pool_size == old(self).max_pool_size
                    &&& old(self).state.pooled_connections@.len() == 0
                    &&& final(self).state.pooled_connections@ == old(
                        self,
                    ).state.pooled_connections@
                    &&& final(self).state.pool_size == old(self).state.pool_size
                    &&& final(self).metrics == (ConnectionPoolMetrics {
                        no_available_connection_errors: (old(
                            self,
                        ).metrics.no_available_connection_errors + 1) as u64,
                        ..old(self).metrics
                    })
                },
            },
    {
        if let Some(connection) = self.state.lend_pooled_connection(addr) {
            return Ok(Some(connection));
        }
        if self.state.pool_size == self.max_pool_size {
            match self.state.discard_oldest_pooled_connection() {
                Some(_kicked_out) => {
                    self.metrics.kicked_out_connections = self.metrics.kicked_out_connections + 1;
                },
                None => {
                    self.metrics.no_available_connection_errors =
                        self.metrics.no_available_connection_errors + 1;
                    return Err(Error::new(ErrorKind::TemporarilyUnavailable));
                },
            }
        }
        self.state.allocate_connection();
        self.metrics.allocated_connections = self.metrics.allocated_connections + 1;
        Ok(None)
    }

    /// Handles one command: mutates the pool state and the counters and
    /// returns the action the runtime must perform.  Counter increments
    /// happen before the returned action is acted on.
    pub fn handle_command(&mut self, command: Command<C>) -> (action: PoolAction<C>)
        requires
            old(self).wf(),
            old(self).counters_have_headroom(),
            command matches Command::Reuse { .. } ==> old(self).spec_in_use() >= 1 && old(
                self,
            ).state.seqno < u64::MAX,
            command matches Command::Discard { .. } ==> old(self).spec_in_use() >= 1,
        ensures
            final(self).wf(),
            final(self).max_pool_size == old(self).max_pool_size,
            final(self).connect_timeout == old(self).connect_timeout,
            final(self).keepalive_timeout == old(self).keepalive_timeout,
            match command {
                Command::Acquire { addr } => {
                    &&& final(self).metrics.lent_connections == if action is Reject {
                        old(self).metrics.lent_connections as int
                    } else {
                        old(self).metrics.lent_connections + 1
                    }
                    &&& match action {
                        PoolAction::Lend(c) => {
                            &&& lend_step(old(self).state, final(self).state, addr, Some(c))
                            &&& final(self).metrics == (ConnectionPoolMetrics {
                                lent_connections: (old(self).metrics.lent_connections + 1) as u64,
                                ..old(self).metrics
                            })
                        },
                        PoolAction::StartConnect(a) => {
                            &&& a == addr
                            &&& !has_addr(old(self).state.pooled_connections@, addr)
                            &&& final(self).state.pool_size == if old(self).state.pool_size < old(
                                self,
                            ).max_pool_size {
                                old(self).state.pool_size + 1
                            } else {
                                old(self).state.pool_size as int
                            }
                            &&& if old(self).state.pool_size < old(self).max_pool_size {
                                // a free slot was reserved; the pooled
                                // connections are untouched
                                final(self).state.pooled_connections@ == old(
                                    self,
                                ).state.pooled_connections@
                            } else {
                                // the full pool kicked out its globally
                                // oldest pooled connection
                                exists|j: int|
                                    {
                                        &&& 0 <= j < old(self).state.pooled_connections@.len()
                                        &&& forall|l: int|
                                            0 <= l < old(self).state.pooled_connections@.len()
                                                && l != j ==> age_lt(
                                                old(self).state.pooled_connections@[j].0,
                                                (
                                                #[trigger] old(
                                                    self,
                                                ).state.pooled_connections@[l]).0,
                                            )
                                        &&& final(self).state.pooled_connections@ == old(
                                            self,
                                        ).state.pooled_connections@.remove(j)
                                    }
                            }
                            &&& final(self).metrics.allocated_connections == old(
                                self,
                            ).metrics.allocated_connections + 1
                            &&& final(self).metrics.kicked_out_connections == if old(
                                self,
                            ).state.pool_size < old(self).max_pool_size {
                                old(self).metrics.kicked_out_connections as int
                            } else {
                                old(self).metrics.kicked_out_connections + 1
                            }
                            &&& final(self).metrics.returned_connections == old(
                                self,
                            ).metrics.returned_connections
                        },
                        PoolAction::Reject(e) => {
                            &&& e.kind == ErrorKind::TemporarilyUnavailable
                            &&& old(self).state.pool_size == old(self).max_pool_size
                            &&& old(self).state.pooled_connections@.len() == 0
                            &&& final(self).metrics == (ConnectionPoolMetrics {
                                no_available_connection_errors: (old(
                                    self,
                                ).metrics.no_available_connection_errors + 1) as u64,
                                ..old(self).metrics
                            })
                        },
                        PoolAction::Done => false,
                    }
                },
                Command::Reuse { addr, connection } => {
                    &&& action is Done
                    &&& pool_step(old(self).state, final(self).state, addr, connection)
                    &&& final(self).metrics == (ConnectionPoolMetrics {
                        returned_connections: (old(self).metrics.returned_connections + 1) as u64,
                        ..old(self).metrics
                    })
                },
                Command::Discard { reason } => {
                    &&& action is Done
                    &&& final(self).state.pooled_connections@ == old(
                        self,
                    ).state.pooled_connections@
                    &&& final(self).state.pool_size == old(self).state.pool_size - 1
                    &&& final(self).metrics.returned_connections == old(
                        self,
                    ).metrics.returned_connections + 1
                    &&& final(self).metrics.closed_connections == old(
                        self,
                    ).metrics.closed_connections + (if reason is Closed {
                        1int
                    } else {
                        0int
                    })
                    &&& final(self).metrics.connect_failed_connections == old(
                        self,
                    ).metrics.connect_failed_connections + (if reason is ConnectFailed {
                        1int
                    } else {
                        0int
                    })
                    &&& final(self).metrics.request_failed_connections == old(
                        self,
                    ).metrics.request_failed_connections + (if reason is RequestFailed {
                        1int
                    } else {
                        0int
                    })
                    &&& final(self).metrics.allocated_connections == old(
                        self,
                    ).metrics.allocated_connections
                    &&& final(self).metrics.lent_connections == old(self).metrics.lent_connections
                },
            },
    {
        match command {
            Command::Acquire { addr } => {
                match self.acquire(addr) {
                    Err(e) => PoolAction::Reject(e),
                    Ok(Some(connection)) => {
                        self.metrics.lent_connections = self.metrics.lent_connections + 1;
                        PoolAction::Lend(connection)
                    },
                    Ok(None) => {
                        self.metrics.lent_connections = self.metrics.lent_connections + 1;
                        PoolAction::StartConnect(addr)
                    },
                }
            },
            Command::Reuse { addr, connection } => {
                self.metrics.returned_connections = self.metrics.returned_connections + 1;
                self.state.pool_connection(addr, connection);
                PoolAction::Done
            },
            Command::Discard { reason } => {
                self.metrics.returned_connections = self.metrics.returned_connections + 1;
                self.state.release_connection();
                match reason {
                    DiscardReason::Closed => {
                        self.metrics.closed_connections = self.metrics.closed_connections + 1;
                    },
                    DiscardReason::ConnectFailed => {
                        self.metrics.connect_failed_connections =
                            self.metrics.connect_failed_connections + 1;
                    },
                    DiscardReason::RequestFailed => {
                        self.metrics.request_failed_connections =
                            self.metrics.request_failed_connections + 1;
                    },
                }
                PoolAction::Done
            },
        }
    }

    /// Handles one firing of the keep-alive timer: advances the
    /// pool-local clock by the tick interval, expires every pooled
    /// connection that outlived the keep-alive timeout, and counts the
    /// expirations.
    pub fn handle_tick(&mut self) -> (removed: usize)
        requires
            old(self).wf(),
            old(self).state.elapsed_time + TIMER_INTERVAL_SECS <= u64::MAX,
            old(self).metrics.expired_connections + old(self).state.pooled_connections@.len()
                <= u64::MAX,
        ensures
            final(self).wf(),
            final(self).max_pool_size == old(self).max_pool_size,
            final(self).connect_timeout == old(self).connect_timeout,
            final(self).keepalive_timeout == old(self).keepalive_timeout,
            tick_step(
                old(self).state,
                final(self).state,
                TIMER_INTERVAL_SECS,
                old(self).keepalive_timeout,
                removed as int,
            ),
            final(self).metrics == (ConnectionPoolMetrics {
                expired_connections: (old(self).metrics.expired_connections + removed) as u64,
                ..old(self).metrics
            }),
    {
        let removed = self.state.tick(TIMER_INTERVAL_SECS, self.keepalive_timeout);
        self.metrics.expired_connections = self.metrics.expired_connections + (removed as u64);
        removed
    }
}

/// The slot accounting law: in a well-formed pool the allocated slots
/// never exceed the configured maximum, and they split exactly into the
/// pooled connections and the connections currently lent out.
pub proof fn lemma_pool_size_invariant<C>(pool: ConnectionPool<C>)
    requires
        pool.wf(),
    ensures
        pool.state.pool_size <= pool.max_pool_size,
        pool.state.pool_size == pool.state.pooled_connections@.len() + pool.spec_in_use(),
{
}

/// The release accounting law: the counters over-approximate activity
/// conservatively, so the connections allocated so far are never fewer
/// than the connections released so far, whatever the reason.
pub proof fn lemma_releases_bounded_by_allocations<C>(pool: ConnectionPool<C>)
    requires
        pool.wf(),
    ensures
        pool.metrics.allocated_connections - pool.metrics.spec_released_total() >= 0,
        pool.metrics.spec_pool_size() == pool.state.pool_size,
{
}

} // verus!
