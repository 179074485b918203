//! The connection pool state machine.
//!
//! The pool keeps idle connections in an ordered store keyed by peer address,
//! pooling time and a strictly increasing sequence number, so that the
//! connections of one address form a contiguous, insertion-ordered block.
//! A timeout queue holds one live entry per pooled address, pointing at the
//! oldest connection of that address; entries whose connection has already
//! left the pool are tolerated and dropped lazily.  Lending hands out the
//! most recently pooled connection of an address (LIFO), eviction removes
//! the globally oldest pooled connection, and the keep-alive tick expires
//! every connection that has been idle longer than the keep-alive timeout.
use vstd::prelude::*;

verus! {

/// A peer address: an IP address held as an integer, and a port.
#[derive(Debug, Clone, Copy, PartialEq, Eq, Structural)]
pub struct PeerAddr {
    /// The IP address, as an integer (IPv4 addresses use the low 32 bits).
    pub ip: u128,
    /// The TCP port.
    pub port: u16,
}

impl PeerAddr {
    /// Makes a peer address from the four octets of an IPv4 address and a port.
    pub fn from_ipv4(a: u8, b: u8, c: u8, d: u8, port: u16) -> (r: PeerAddr)
        ensures
            r.ip == a * 0x1000000 + b * 0x10000 + c * 0x100 + d,
            r.port == port,
    {
        let ip: u128 = (a as u128) * 0x1000000 + (b as u128) * 0x10000 + (c as u128) * 0x100
            + (d as u128);
        PeerAddr { ip, port }
    }
}

/// The ordering key of a pooled connection.
///
/// Keys compare lexicographically by IP, port, pooling time and sequence
/// number, so all keys of one peer address are contiguous in a sorted store
/// and, within one address, ordered by insertion.
#[derive(Debug, Clone, Copy, PartialEq, Eq, Structural)]
pub struct PoolKey {
    /// The IP address of the peer.
    pub ip: u128,
    /// The TCP port of the peer.
    pub port: u16,
    /// Pool-local time at which the connection was pooled.
    pub pooled_time: u64,
    /// Sequence number drawn when the connection was pooled.
    pub seqno: u64,
}

/// An entry of the timeout queue, referring to a pooled connection by its key.
#[derive(Debug, Clone, Copy, PartialEq, Eq, Structural)]
pub struct QueueEntry {
    /// Pool-local time at which the referred connection was pooled.
    pub pooled_time: u64,
    /// The IP address of the peer.
    pub ip: u128,
    /// The TCP port of the peer.
    pub port: u16,
    /// Sequence number of the referred connection.
    pub seqno: u64,
}

/// Strict lexicographic order on pool keys: IP, then port, then pooling
/// time, then sequence number.
pub open spec fn key_lt(a: PoolKey, b: PoolKey) -> bool {
    ||| a.ip < b.ip
    ||| (a.ip == b.ip && a.port < b.port)
    ||| (a.ip == b.ip && a.port == b.port && a.pooled_time < b.pooled_time)
    ||| (a.ip == b.ip && a.port == b.port && a.pooled_time == b.pooled_time && a.seqno < b.seqno)
}

/// Whether a key belongs to the given peer address.
pub open spec fn key_has_addr(k: PoolKey, a: PeerAddr) -> bool {
    k.ip == a.ip && k.port == a.port
}

/// Whether two keys belong to the same peer address.
pub open spec fn same_addr(a: PoolKey, b: PoolKey) -> bool {
    a.ip == b.ip && a.port == b.port
}

/// Age order on keys: by pooling time, ties broken by sequence number.
/// The globally oldest pooled connection is minimal in this order.
pub open spec fn age_lt(a: PoolKey, b: PoolKey) -> bool {
    a.pooled_time < b.pooled_time || (a.pooled_time == b.pooled_time && a.seqno < b.seqno)
}

/// Age order on queue entries: the entry that leaves the queue first is
/// minimal by pooling time, ties broken by sequence number.
pub open spec fn entry_age_lt(a: QueueEntry, b: QueueEntry) -> bool {
    a.pooled_time < b.pooled_time || (a.pooled_time == b.pooled_time && a.seqno < b.seqno)
}

/// Whether a connection pooled under key `k` has outlived the keep-alive
/// window at pool-local time `now`.
pub open spec fn key_expired(k: PoolKey, now: int, keepalive: int) -> bool {
    k.pooled_time + keepalive < now
}

/// Relation between pool states before and after one keep-alive tick of
/// `duration`: the pool-local clock advances, every connection whose
/// keep-alive window has passed leaves the store, every other connection
/// stays unchanged, and the released slots are counted in `removed`.
pub open spec fn tick_step<C>(
    pre: ConnectionPoolState<C>,
    post: ConnectionPoolState<C>,
    duration: u64,
    keepalive: u64,
    removed: int,
) -> bool {
    let now = pre.elapsed_time + duration;
    &&& post.elapsed_time == now
    &&& post.seqno == pre.seqno
    &&& post.pool_size == pre.pool_size - removed
    &&& removed == pre.pooled_connections@.len() - post.pooled_connections@.len()
    &&& forall|i: int|
        0 <= i < post.pooled_connections@.len() ==> pre.pooled_connections@.contains(
            #[trigger] post.pooled_connections@[i],
        )
    &&& forall|i: int|
        0 <= i < post.pooled_connections@.len() ==> !key_expired(
            (#[trigger] post.pooled_connections@[i]).0,
            now,
            keepalive as int,
        )
    &&& forall|l: int|
        0 <= l < pre.pooled_connections@.len() && !key_expired(
            (#[trigger] pre.pooled_connections@[l]).0,
            now,
            keepalive as int,
        ) ==> has_key(post.pooled_connections@, pre.pooled_connections@[l].0)
}

impl PoolKey {
    /// Makes the key for a connection of address `addr` pooled now.
    pub fn new(addr: PeerAddr, now: u64, seqno: u64) -> (k: PoolKey)
        ensures
            k == (PoolKey { ip: addr.ip, port: addr.port, pooled_time: now, seqno }),
    {
        PoolKey { ip: addr.ip, port: addr.port, pooled_time: now, seqno }
    }

    /// The timeout-queue entry referring to this key.
    pub fn to_queue_entry(&self) -> (e: QueueEntry)
        ensures
            e == self.spec_to_queue_entry(),
    {
        QueueEntry { pooled_time: self.pooled_time, ip: self.ip, port: self.port, seqno: self.seqno }
    }

    /// The timeout-queue entry referring to this key.
    pub open spec fn spec_to_queue_entry(self) -> QueueEntry {
        QueueEntry { pooled_time: self.pooled_time, ip: self.ip, port: self.port, seqno: self.seqno }
    }

    /// Executable comparison deciding `key_lt`.
    pub fn lt(&self, other: &PoolKey) -> (r: bool)
        ensures
            r == key_lt(*self, *other),
    {
        if self.ip != other.ip {
            self.ip < other.ip
        } else if self.port != other.port {
            self.port < other.port
        } else if self.pooled_time != other.pooled_time {
            self.pooled_time < other.pooled_time
        } else {
            self.seqno < other.seqno
        }
    }
}

impl QueueEntry {
    /// The peer address this entry refers to.
    pub fn socket_addr(&self) -> (a: PeerAddr)
        ensures
            a.ip == self.ip && a.port == self.port,
    {
        PeerAddr { ip: self.ip, port: self.port }
    }

    /// The pool key this entry refers to.
    pub fn to_pool_key(&self) -> (k: PoolKey)
        ensures
            k == self.spec_to_pool_key(),
    {
        PoolKey { ip: self.ip, port: self.port, pooled_time: self.pooled_time, seqno: self.seqno }
    }

    /// The pool key this entry refers to.
    pub open spec fn spec_to_pool_key(self) -> PoolKey {
        PoolKey { ip: self.ip, port: self.port, pooled_time: self.pooled_time, seqno: self.seqno }
    }

    /// Executable comparison deciding `entry_age_lt`.
    pub fn age_lt(&self, other: &QueueEntry) -> (r: bool)
        ensures
            r == entry_age_lt(*self, *other),
    {
        if self.pooled_time != other.pooled_time {
            self.pooled_time < other.pooled_time
        } else {
            self.seqno < other.seqno
        }
    }
}

/// The key order is a strict total order.
pub proof fn lemma_key_lt_total(a: PoolKey, b: PoolKey)
    ensures
        key_lt(a, b) || key_lt(b, a) || a == b,
        !(key_lt(a, b) && key_lt(b, a)),
{
}

/// Non-strict key order.
pub open spec fn key_le(a: PoolKey, b: PoolKey) -> bool {
    key_lt(a, b) || a == b
}

/// The key order is transitive.
pub proof fn lemma_key_lt_trans(a: PoolKey, b: PoolKey, c: PoolKey)
    requires
        key_lt(a, b),
        key_lt(b, c),
    ensures
        key_lt(a, c),
{
}

/// In the key order, a key lying between two keys of one address belongs
/// to that address as well: the keys of an address are contiguous.
pub proof fn lemma_addr_squeeze(a: PoolKey, b: PoolKey, c: PoolKey)
    requires
        key_le(a, b),
        key_le(b, c),
        same_addr(a, c),
    ensures
        same_addr(a, b),
        same_addr(b, c),
{
}

/// Every pooled entry has a block-first at or below it, of the same
/// address and of a key no greater than its own.
pub proof fn lemma_block_first_exists<C>(p: Seq<(PoolKey, C)>, l: int)
    requires
        pooled_sorted(p),
        0 <= l < p.len(),
    ensures
        exists|f: int|
            {
                &&& #[trigger] is_block_first(p, f)
                &&& same_addr(p[f].0, p[l].0)
                &&& f <= l
                &&& key_le(p[f].0, p[l].0)
            },
    decreases l,
{
    if is_block_first(p, l) {
        assert(is_block_first(p, l) && same_addr(p[l].0, p[l].0) && key_le(p[l].0, p[l].0));
    } else {
        lemma_block_first_exists(p, l - 1);
        let f = choose|f: int|
            {
                &&& #[trigger] is_block_first(p, f)
                &&& same_addr(p[f].0, p[l - 1].0)
                &&& f <= l - 1
                &&& key_le(p[f].0, p[l - 1].0)
            };
        assert(same_addr(p[l - 1].0, p[l].0));
        assert(is_block_first(p, f) && same_addr(p[f].0, p[l].0) && f <= l && key_le(
            p[f].0,
            p[l].0,
        ));
    }
}

/// Two block-first entries of one address coincide: the keys of an
/// address are contiguous, so each address has one block.
pub proof fn lemma_block_first_unique<C>(p: Seq<(PoolKey, C)>, i: int, j: int)
    requires
        pooled_sorted(p),
        is_block_first(p, i),
        is_block_first(p, j),
        same_addr(p[i].0, p[j].0),
    ensures
        i == j,
{
    if i < j {
        lemma_addr_squeeze(p[i].0, p[j - 1].0, p[j].0);
    } else if j < i {
        lemma_addr_squeeze(p[j].0, p[i - 1].0, p[i].0);
    }
}

/// The store is sorted strictly ascending by key (keys are unique).
pub open spec fn pooled_sorted<C>(p: Seq<(PoolKey, C)>) -> bool {
    forall|i: int, j: int| 0 <= i < j < p.len() ==> key_lt(#[trigger] p[i].0, #[trigger] p[j].0)
}

/// Whether some pooled entry belongs to the given address.
pub open spec fn has_addr<C>(p: Seq<(PoolKey, C)>, a: PeerAddr) -> bool {
    exists|i: int| 0 <= i < p.len() && key_has_addr(#[trigger] p[i].0, a)
}

/// Whether the given key is present in the store.
pub open spec fn has_key<C>(p: Seq<(PoolKey, C)>, k: PoolKey) -> bool {
    exists|i: int| 0 <= i < p.len() && (#[trigger] p[i].0) == k
}

/// Index `i` holds the oldest pooled entry of its address: the first entry
/// of the contiguous block of that address in the sorted store.
pub open spec fn is_block_first<C>(p: Seq<(PoolKey, C)>, i: int) -> bool {
    0 <= i < p.len() && (i == 0 || !same_addr(p[i - 1].0, p[i].0))
}

/// Index `i` holds the most recently pooled entry of its address: the last
/// entry of the contiguous block of that address in the sorted store.
pub open spec fn is_block_last<C>(p: Seq<(PoolKey, C)>, i: int) -> bool {
    0 <= i < p.len() && (i == p.len() - 1 || !same_addr(p[i].0, p[i + 1].0))
}

/// Pure data structure holding the pooled connections of a pool.
///
/// `pool_size` counts allocated slots: pooled connections plus connections
/// currently lent out.  `elapsed_time` is the pool-local clock, advanced by
/// [`ConnectionPoolState::tick`], and `seqno` the source of the strictly
/// increasing sequence numbers drawn on each insertion.
#[derive(Debug)]
pub struct ConnectionPoolState<C> {
    /// Pooled connections, sorted strictly ascending by key.
    pub pooled_connections: Vec<(PoolKey, C)>,
    /// Timeout queue: one live entry per pooled address, stale entries tolerated.
    pub timeout_queue: Vec<QueueEntry>,
    /// Approximate elapsed time since the pool was created.
    pub elapsed_time: u64,
    /// Number of allocated connection slots (pooled plus lent).
    pub pool_size: usize,
    /// Source of sequence numbers; strictly above every issued one.
    pub seqno: u64,
}

impl<C> ConnectionPoolState<C> {
    /// Well-formedness of the pool state.
    ///
    /// Besides sortedness and freshness bounds, this captures the timeout
    /// queue discipline: queue entries are pairwise distinct, a sequence
    /// number ties an entry to at most one pooled key, every live entry
    /// (one whose key is still pooled) points at the oldest pooled
    /// connection of its address, and every pooled address has a live
    /// entry.  Together these clauses give each pooled address exactly one
    /// live timeout entry.
    pub open spec fn wf(self) -> bool {
        let p = self.pooled_connections@;
        let q = self.timeout_queue@;
        &&& pooled_sorted(p)
        &&& forall|i: int|
            0 <= i < p.len() ==> (#[trigger] p[i].0).seqno < self.seqno && p[i].0.pooled_time
                <= self.elapsed_time
        &&& forall|i: int|
            0 <= i < q.len() ==> (#[trigger] q[i]).seqno < self.seqno && q[i].pooled_time
                <= self.elapsed_time
        &&& forall|i: int, j: int|
            0 <= i < j < p.len() ==> (#[trigger] p[i].0).seqno != (#[trigger] p[j].0).seqno
        &&& forall|i: int, j: int|
            0 <= i < j < q.len() ==> (#[trigger] q[i]).seqno != (#[trigger] q[j]).seqno
        &&& forall|i: int, j: int|
            0 <= i < q.len() && 0 <= j < p.len() && (#[trigger] q[i]).seqno == (#[trigger] p[j].0).seqno
                ==> q[i].spec_to_pool_key() == p[j].0
        &&& forall|i: int, j: int|
            0 <= i < q.len() && 0 <= j < p.len() && (#[trigger] q[i]).spec_to_pool_key() == (
            #[trigger] p[j].0) ==> is_block_first(p, j)
        &&& forall|j: int|
            is_block_first(p, j) ==> exists|i: int|
                0 <= i < q.len() && (#[trigger] q[i]).spec_to_pool_key() == p[j].0
        &&& p.len() <= self.pool_size
    }

    /// Makes an empty pool state.
    pub fn new() -> (r: Self)
        ensures
            r.wf(),
            r.pooled_connections@.len() == 0,
            r.timeout_queue@.len() == 0,
            r.elapsed_time == 0,
            r.pool_size == 0,
            r.seqno == 0,
    {
        ConnectionPoolState {
            pooled_connections: Vec::new(),
            timeout_queue: Vec::new(),
            elapsed_time: 0,
            pool_size: 0,
            seqno: 0,
        }
    }

    /// Reserves one allocated slot.
    pub fn allocate_connection(&mut self)
        requires
            old(self).wf(),
            old(self).pool_size < usize::MAX,
        ensures
            final(self).wf(),
            final(self).pool_size == old(self).pool_size + 1,
            final(self).pooled_connections == old(self).pooled_connections,
            final(self).timeout_queue == old(self).timeout_queue,
            final(self).elapsed_time == old(self).elapsed_time,
            final(self).seqno == old(self).seqno,
    {
        self.pool_size = self.pool_size + 1;
        proof {
            assert(self.pooled_connections@ == old(self).pooled_connections@);
            assert(self.timeout_queue@ == old(self).timeout_queue@);
        }
    }

    /// Releases one allocated slot that is not occupied by a pooled
    /// connection (the slot of a lent or discarded connection).
    pub fn release_connection(&mut self)
        requires
            old(self).wf(),
            old(self).pool_size > old(self).pooled_connections@.len(),
        ensures
            final(self).wf(),
            final(self).pool_size == old(self).pool_size - 1,
            final(self).pooled_connections == old(self).pooled_connections,
            final(self).timeout_queue == old(self).timeout_queue,
            final(self).elapsed_time == old(self).elapsed_time,
            final(self).seqno == old(self).seqno,
    {
        self.pool_size = self.pool_size - 1;
        proof {
            assert(self.pooled_connections@ == old(self).pooled_connections@);
            assert(self.timeout_queue@ == old(self).timeout_queue@);
        }
    }

    /// Whether the pool holds a connection for the given address.
    pub fn pool_contains(&self, addr: PeerAddr) -> (r: bool)
        ensures
            r == has_addr(self.pooled_connections@, addr),
    {
        let n = self.pooled_connections.len();
        let mut i: usize = 0;
        while i < n
            invariant
                0 <= i <= n,
                n == self.pooled_connections@.len(),
                forall|l: int|
                    0 <= l < i ==> !key_has_addr((#[trigger] self.pooled_connections@[l]).0, addr),
            decreases n - i,
        {
            let k = &self.pooled_connections[i].0;
            if k.ip == addr.ip && k.port == addr.port {
                return true;
            }
            i = i + 1;
        }
        false
    }

    /// The key of the oldest pooled connection of the given address, if any.
    pub fn get_oldest(&self, addr: PeerAddr) -> (r: Option<PoolKey>)
        ensures
            match r {
                Some(k) => exists|j: int|
                    is_block_first(self.pooled_connections@, j) && key_has_addr(
                        (#[trigger] self.pooled_connections@[j]).0,
                        addr,
                    ) && self.pooled_connections@[j].0 == k,
                None => !has_addr(self.pooled_connections@, addr),
            },
    {
        let n = self.pooled_connections.len();
        let mut i: usize = 0;
        while i < n
            invariant
                0 <= i <= n,
                n == self.pooled_connections@.len(),
                forall|l: int|
                    0 <= l < i ==> !key_has_addr((#[trigger] self.pooled_connections@[l]).0, addr),
            decreases n - i,
        {
            let k = self.pooled_connections[i].0;
            if k.ip == addr.ip && k.port == addr.port {
                return Some(k);
            }
            i = i + 1;
        }
        None
    }
}

/// Relation between pool states before and after lending a connection for
/// `addr`: on a hit, the most recently pooled entry of the address (the
/// last of its block) leaves the store and is returned; on a miss the
/// store is unchanged and nothing is returned.  No other field changes.
pub open spec fn lend_step<C>(
    pre: ConnectionPoolState<C>,
    post: ConnectionPoolState<C>,
    addr: PeerAddr,
    r: Option<C>,
) -> bool {
    let p = pre.pooled_connections@;
    &&& match r {
        None => !has_addr(p, addr) && post.pooled_connections@ == p,
        Some(c) => exists|i: int|
            #[trigger] is_block_last(p, i) && key_has_addr(p[i].0, addr) && c == p[i].1
                && post.pooled_connections@ == p.remove(i),
    }
    &&& post.timeout_queue@ == pre.timeout_queue@
    &&& post.elapsed_time == pre.elapsed_time
    &&& post.pool_size == pre.pool_size
    &&& post.seqno == pre.seqno
}

impl<C> ConnectionPoolState<C> {
    /// Lends the most recently pooled connection of the given address, if
    /// the pool holds one (LIFO lending per address).
    pub fn lend_pooled_connection(&mut self, addr: PeerAddr) -> (r: Option<C>)
        requires
            old(self).wf(),
        ensures
            final(self).wf(),
            lend_step(*old(self), *final(self), addr, r),
            r is Some <==> has_addr(old(self).pooled_connections@, addr),
    {
        let n = self.pooled_connections.len();
        let mut found: Option<usize> = None;
        let mut i: usize = 0;
        while i < n
            invariant
                0 <= i <= n,
                n == self.pooled_connections@.len(),
                found is None ==> forall|l: int|
                    0 <= l < i ==> !key_has_addr((#[trigger] self.pooled_connections@[l]).0, addr),
                found matches Some(j) ==> j < i && key_has_addr(
                    self.pooled_connections@[j as int].0,
                    addr,
                ) && forall|l: int|
                    j < l < i ==> !key_has_addr((#[trigger] self.pooled_connections@[l]).0, addr),
            decreases n - i,
        {
            let k = &self.pooled_connections[i].0;
            if k.ip == addr.ip && k.port == addr.port {
                found = Some(i);
            }
            i = i + 1;
        }
        match found {
            None => None,
            Some(j) => {
                let pair = self.pooled_connections.remove(j);
                proof {
                    self.lemma_lend_restores_wf(*old(self), addr, j as int);
                }
                Some(pair.1)
            },
        }
    }

    /// After removing the block-last entry `j` of address `addr` from a
    /// well-formed state, the state is well-formed again.
    proof fn lemma_lend_restores_wf(self, pre: Self, addr: PeerAddr, j: int)
        requires
            pre.wf(),
            0 <= j < pre.pooled_connections@.len(),
            key_has_addr(pre.pooled_connections@[j].0, addr),
            forall|l: int|
                j < l < pre.pooled_connections@.len() ==> !key_has_addr(
                    (#[trigger] pre.pooled_connections@[l]).0,
                    addr,
                ),
            self.pooled_connections@ == pre.pooled_connections@.remove(j),
            self.timeout_queue@ == pre.timeout_queue@,
            self.elapsed_time == pre.elapsed_time,
            self.pool_size == pre.pool_size,
            self.seqno == pre.seqno,
        ensures
            self.wf(),
            is_block_last(pre.pooled_connections@, j),
    {
        let p = pre.pooled_connections@;
        let p2 = self.pooled_connections@;
        let q = self.timeout_queue@;
        p.remove_ensures(j);
        // the removed entry was the last of its block
        assert(is_block_last(p, j)) by {
            if j < p.len() - 1 {
                assert(!key_has_addr(p[j + 1].0, addr));
            }
        }
        assert(pooled_sorted(p2)) by {
            assert forall|x: int, y: int| 0 <= x < y < p2.len() implies key_lt(
                p2[x].0,
                p2[y].0,
            ) by {
                let xo: int = if x < j {
                    x
                } else {
                    x + 1
                };
                let yo: int = if y < j {
                    y
                } else {
                    y + 1
                };
                assert(p2[x] == p[xo] && p2[y] == p[yo]);
            }
        }
        // live queue entries still point at the first entry of their block
        assert forall|qi: int, pj: int|
            0 <= qi < q.len() && 0 <= pj < p2.len() && q[qi].spec_to_pool_key() == p2[pj].0 implies
            is_block_first(p2, pj) by {
            if pj < j {
                assert(q[qi].spec_to_pool_key() == p[pj].0);
                assert(is_block_first(p, pj));
                if pj > 0 {
                    assert(p2[pj - 1] == p[pj - 1]);
                }
            } else {
                assert(p2[pj] == p[pj + 1]);
                assert(is_block_first(p, pj + 1));
                if pj == j {
                    if pj > 0 {
                        assert(p2[pj - 1] == p[j - 1]);
                        if same_addr(p[j - 1].0, p[j + 1].0) {
                            lemma_addr_squeeze(p[j - 1].0, p[j].0, p[j + 1].0);
                            assert(false);
                        }
                    }
                } else {
                    assert(p2[pj - 1] == p[pj]);
                }
            }
        }
        // every block of the shrunk store still has a queue entry
        assert forall|pj: int| is_block_first(p2, pj) implies exists|qi: int|
            0 <= qi < q.len() && (#[trigger] q[qi]).spec_to_pool_key() == p2[pj].0 by {
            if pj < j {
                if pj > 0 {
                    assert(p2[pj - 1] == p[pj - 1]);
                }
                assert(is_block_first(p, pj));
                assert(p2[pj].0 == p[pj].0);
            } else {
                assert(p2[pj] == p[pj + 1]);
                if pj == j {
                    // the entry after a removed block-last starts a block
                    assert(is_block_first(p, pj + 1));
                } else {
                    assert(p2[pj - 1] == p[pj]);
                    assert(is_block_first(p, pj + 1));
                }
            }
        }
    }
}

/// The key drawn when a connection of address `addr` is pooled in state `s`:
/// the current elapsed time and the current sequence number.
pub open spec fn fresh_key<C>(s: ConnectionPoolState<C>, addr: PeerAddr) -> PoolKey {
    PoolKey { ip: addr.ip, port: addr.port, pooled_time: s.elapsed_time, seqno: s.seqno }
}

/// Relation between pool states before and after pooling connection `c`
/// for `addr`: the connection enters the store under a fresh key, above
/// every key already pooled for that address; a timeout entry for the new
/// key is pushed exactly when the address had no pooled connection; the
/// sequence counter advances; elapsed time and pool size do not change
/// (the slot was already allocated).
pub open spec fn pool_step<C>(
    pre: ConnectionPoolState<C>,
    post: ConnectionPoolState<C>,
    addr: PeerAddr,
    c: C,
) -> bool {
    let p = pre.pooled_connections@;
    let k = fresh_key(pre, addr);
    &&& exists|i: int|
        {
            &&& 0 <= i <= p.len()
            &&& forall|l: int| 0 <= l < i ==> key_lt((#[trigger] p[l]).0, k)
            &&& forall|l: int| i <= l < p.len() ==> key_lt(k, (#[trigger] p[l]).0)
            &&& post.pooled_connections@ == #[trigger] p.insert(i, (k, c))
        }
    &&& if has_addr(p, addr) {
        post.timeout_queue@ == pre.timeout_queue@
    } else {
        post.timeout_queue@ == pre.timeout_queue@.push(k.spec_to_queue_entry())
    }
    &&& post.elapsed_time == pre.elapsed_time
    &&& post.pool_size == pre.pool_size
    &&& post.seqno == pre.seqno + 1
}

impl<C> ConnectionPoolState<C> {
    /// The position at which `key` sorts into the store: the number of
    /// pooled keys below it.
    fn insert_position(&self, key: &PoolKey) -> (i: usize)
        requires
            pooled_sorted(self.pooled_connections@),
        ensures
            0 <= i <= self.pooled_connections@.len(),
            forall|l: int|
                0 <= l < i ==> key_lt((#[trigger] self.pooled_connections@[l]).0, *key),
            forall|l: int|
                i <= l < self.pooled_connections@.len() ==> !key_lt(
                    (#[trigger] self.pooled_connections@[l]).0,
                    *key,
                ),
    {
        let n = self.pooled_connections.len();
        let mut i: usize = 0;
        while i < n
            invariant
                0 <= i <= n,
                n == self.pooled_connections@.len(),
                pooled_sorted(self.pooled_connections@),
                forall|l: int|
                    0 <= l < i ==> key_lt((#[trigger] self.pooled_connections@[l]).0, *key),
            decreases n - i,
        {
            if !self.pooled_connections[i].0.lt(key) {
                proof {
                    let p = self.pooled_connections@;
                    assert forall|l: int| i <= l < p.len() implies !key_lt(p[l].0, *key) by {
                        if l > i && key_lt(p[l].0, *key) {
                            lemma_key_lt_trans(p[i as int].0, p[l].0, *key);
                        }
                    }
                }
                return i;
            }
            i = i + 1;
        }
        i
    }

    /// Pools a connection for the given address under a fresh key.  The
    /// slot it occupies must already be allocated, so `pool_size` does not
    /// change.
    pub fn pool_connection(&mut self, addr: PeerAddr, connection: C)
        requires
            old(self).wf(),
            old(self).seqno < u64::MAX,
            old(self).pooled_connections@.len() < old(self).pool_size,
        ensures
            final(self).wf(),
            pool_step(*old(self), *final(self), addr, connection),
    {
        let key = PoolKey::new(addr, self.elapsed_time, self.seqno);
        self.seqno = self.seqno + 1;

        if !self.pool_contains(addr) {
            self.timeout_queue.push(key.to_queue_entry());
        }
        let i = self.insert_position(&key);
        proof {
            let p = old(self).pooled_connections@;
            let k = fresh_key(*old(self), addr);
            assert(key == k);
            assert forall|l: int| i <= l < p.len() implies key_lt(k, (#[trigger] p[l]).0) by {
                assert(p[l].0.seqno < k.seqno);
                lemma_key_lt_total(k, p[l].0);
            }
        }
        self.pooled_connections.insert(i, (key, connection));
        proof {
            self.lemma_pool_restores_wf(*old(self), addr, connection, i as int);
        }
    }

    /// After inserting a fresh-keyed entry at its sorted position into a
    /// well-formed state (and pushing a timeout entry when the address was
    /// absent), the state is well-formed again.
    #[verifier::rlimit(60)]
    proof fn lemma_pool_restores_wf(self, pre: Self, addr: PeerAddr, c: C, i: int)
        requires
            pre.wf(),
            pre.seqno < u64::MAX,
            pre.pooled_connections@.len() < pre.pool_size,
            0 <= i <= pre.pooled_connections@.len(),
            forall|l: int|
                0 <= l < i ==> key_lt((#[trigger] pre.pooled_connections@[l]).0, fresh_key(pre, addr)),
            forall|l: int|
                i <= l < pre.pooled_connections@.len() ==> key_lt(
                    fresh_key(pre, addr),
                    (#[trigger] pre.pooled_connections@[l]).0,
                ),
            self.pooled_connections@ == pre.pooled_connections@.insert(
                i,
                (fresh_key(pre, addr), c),
            ),
            self.timeout_queue@ == if has_addr(pre.pooled_connections@, addr) {
                pre.timeout_queue@
            } else {
                pre.timeout_queue@.push(fresh_key(pre, addr).spec_to_queue_entry())
            },
            self.elapsed_time == pre.elapsed_time,
            self.pool_size == pre.pool_size,
            self.seqno == pre.seqno + 1,
        ensures
            self.wf(),
            pool_step(pre, self, addr, c),
    {
        let p = pre.pooled_connections@;
        let p2 = self.pooled_connections@;
        let q = pre.timeout_queue@;
        let q2 = self.timeout_queue@;
        let k = fresh_key(pre, addr);
        let had = has_addr(p, addr);
        p.insert_ensures(i, (k, c));
        assert(pool_step(pre, self, addr, c));
        assert(pooled_sorted(p2)) by {
            assert forall|x: int, y: int| 0 <= x < y < p2.len() implies key_lt(
                p2[x].0,
                p2[y].0,
            ) by {
                if x == i || y == i {
                    // one side is the fresh entry; its position orders it
                } else {
                    let xo: int = if x < i {
                        x
                    } else {
                        x - 1
                    };
                    let yo: int = if y < i {
                        y
                    } else {
                        y - 1
                    };
                    assert(p2[x] == p[xo] && p2[y] == p[yo]);
                }
            }
        }
        // no pooled key at or above the insert position shares the address:
        // such a key would be above the fresh key yet of the same address,
        // though same-address keys below the current time and sequence
        // number order below the fresh key.
        assert forall|l: int| i <= l < p.len() implies !same_addr(k, (#[trigger] p[l]).0) by {
            if same_addr(k, p[l].0) {
                assert(p[l].0.pooled_time <= pre.elapsed_time && p[l].0.seqno < pre.seqno);
                assert(key_lt(k, p[l].0));
                assert(false);
            }
        }
        // the predecessor of the fresh entry, when the address was pooled,
        // is the block-last of that address
        assert(had && i > 0 ==> same_addr(p[i - 1].0, k)) by {
            if had && i > 0 {
                let w = choose|w: int| 0 <= w < p.len() && key_has_addr(#[trigger] p[w].0, addr);
                assert(w < i);
                if w < i - 1 {
                    lemma_addr_squeeze(p[w].0, p[i - 1].0, k);
                }
            }
        }
        assert forall|qi: int, pj: int|
            0 <= qi < q2.len() && 0 <= pj < p2.len() && (#[trigger] q2[qi]).spec_to_pool_key() == (
            #[trigger] p2[pj].0) implies is_block_first(p2, pj) by {
            if qi < q.len() && q2[qi].seqno < pre.seqno {
                // an old queue entry; it cannot refer to the fresh key
                assert(q2[qi] == q[qi]);
                assert(pj != i);
                let pjo: int = if pj < i {
                    pj
                } else {
                    pj - 1
                };
                assert(p2[pj] == p[pjo]);
                assert(is_block_first(p, pjo));
                if pj < i {
                    if pj > 0 {
                        assert(p2[pj - 1] == p[pj - 1]);
                    }
                } else {
                    // pj > i: the predecessor is the fresh entry or an old one
                    if pj - 1 == i {
                        assert(!same_addr(k, p[pjo].0));
                    } else {
                        assert(p2[pj - 1] == p[pjo - 1]);
                    }
                }
            } else {
                // the pushed entry for the fresh key of a newly pooled address
                assert(!had);
                assert(q2[qi] == k.spec_to_queue_entry());
                assert(q2[qi].spec_to_pool_key() == k);
                // the fresh key is nowhere else in the store
                assert(pj == i) by {
                    if pj != i {
                        let pjo: int = if pj < i {
                            pj
                        } else {
                            pj - 1
                        };
                        assert(p2[pj] == p[pjo]);
                        assert(p[pjo].0.seqno < pre.seqno);
                    }
                }
                if i > 0 {
                    assert(p2[i - 1] == p[i - 1]);
                    assert(!key_has_addr(p[i - 1].0, addr));
                }
            }
        }
        assert forall|pj: int| is_block_first(p2, pj) implies exists|qi: int|
            0 <= qi < q2.len() && (#[trigger] q2[qi]).spec_to_pool_key() == p2[pj].0 by {
            if pj == i {
                if had {
                    // the fresh entry extends an existing block, so it is
                    // not a block start: its predecessor shares the address
                    assert(i > 0);
                    assert(same_addr(p[i - 1].0, k));
                    assert(p2[i - 1] == p[i - 1]);
                    assert(false);
                } else {
                    assert(q2[q.len() as int].spec_to_pool_key() == k);
                }
            } else {
                let pjo: int = if pj < i {
                    pj
                } else {
                    pj - 1
                };
                assert(p2[pj] == p[pjo]);
                assert(is_block_first(p, pjo)) by {
                    if pj < i {
                        if pj > 0 {
                            assert(p2[pj - 1] == p[pj - 1]);
                        }
                    } else {
                        if pj - 1 == i {
                            // predecessor is the fresh entry: the old
                            // predecessor (if any) shared the address with
                            // the old entry only if the fresh key did too
                            if pjo > 0 && same_addr(p[pjo - 1].0, p[pjo].0) {
                                lemma_addr_squeeze(p[pjo - 1].0, k, p[pjo].0);
                                assert(!same_addr(k, p[pjo].0));
                                assert(false);
                            }
                        } else {
                            assert(p2[pj - 1] == p[pjo - 1]);
                        }
                    }
                }
                assert(exists|qi: int|
                    0 <= qi < q.len() && (#[trigger] q[qi]).spec_to_pool_key() == p[pjo].0);
                let qi = choose|qi: int|
                    0 <= qi < q.len() && (#[trigger] q[qi]).spec_to_pool_key() == p[pjo].0;
                assert(q2[qi] == q[qi]);
            }
        }
    }
}

/// Relation between pool states before and after discarding the globally
/// oldest pooled connection: with a non-empty store, the entry whose key
/// is minimal in the age order (smallest pooling time, ties broken by
/// sequence number) leaves the store, one slot is released and the
/// connection is returned; with an empty store nothing changes but the
/// timeout queue, which is drained.
pub open spec fn discard_step<C>(
    pre: ConnectionPoolState<C>,
    post: ConnectionPoolState<C>,
    r: Option<C>,
) -> bool {
    let p = pre.pooled_connections@;
    &&& match r {
        None => {
            &&& p.len() == 0
            &&& post.pooled_connections@ == p
            &&& post.pool_size == pre.pool_size
        },
        Some(c) => exists|j: int|
            {
                &&& 0 <= j < p.len()
                &&& c == (#[trigger] p[j]).1
                &&& forall|l: int| 0 <= l < p.len() && l != j ==> age_lt(p[j].0, (#[trigger] p[l]).0)
                &&& post.pooled_connections@ == p.remove(j)
                &&& post.pool_size == pre.pool_size - 1
            },
    }
    &&& post.elapsed_time == pre.elapsed_time
    &&& post.seqno == pre.seqno
}

impl<C> ConnectionPoolState<C> {
    /// The index of an entry of the timeout queue that is minimal in the
    /// age order, if the queue is not empty.
    fn min_entry_index(&self) -> (r: Option<usize>)
        ensures
            match r {
                Some(i) => i < self.timeout_queue@.len() && forall|l: int|
                    0 <= l < self.timeout_queue@.len() ==> !entry_age_lt(
                        #[trigger] self.timeout_queue@[l],
                        self.timeout_queue@[i as int],
                    ),
                None => self.timeout_queue@.len() == 0,
            },
    {
        let n = self.timeout_queue.len();
        if n == 0 {
            return None;
        }
        let mut best: usize = 0;
        let mut i: usize = 1;
        while i < n
            invariant
                0 <= best < i <= n,
                n == self.timeout_queue@.len(),
                forall|l: int|
                    0 <= l < i ==> !entry_age_lt(
                        #[trigger] self.timeout_queue@[l],
                        self.timeout_queue@[best as int],
                    ),
            decreases n - i,
        {
            if self.timeout_queue[i].age_lt(&self.timeout_queue[best]) {
                best = i;
            }
            i = i + 1;
        }
        Some(best)
    }

    /// Removes and returns the entry of the timeout queue that is minimal
    /// in the age order, if the queue is not empty.
    fn pop_min_entry(&mut self) -> (r: Option<QueueEntry>)
        ensures
            final(self).pooled_connections == old(self).pooled_connections,
            final(self).elapsed_time == old(self).elapsed_time,
            final(self).pool_size == old(self).pool_size,
            final(self).seqno == old(self).seqno,
            match r {
                None => old(self).timeout_queue@.len() == 0 && final(self).timeout_queue == old(self).timeout_queue,
                Some(e) => exists|i: int|
                    {
                        &&& 0 <= i < old(self).timeout_queue@.len()
                        &&& old(self).timeout_queue@[i] == e
                        &&& final(self).timeout_queue@ == old(self).timeout_queue@.remove(i)
                        &&& forall|l: int|
                            0 <= l < old(self).timeout_queue@.len() ==> !entry_age_lt(
                                #[trigger] old(self).timeout_queue@[l],
                                e,
                            )
                    },
            },
    {
        match self.min_entry_index() {
            None => None,
            Some(best) => {
                let e = self.timeout_queue.remove(best);
                Some(e)
            },
        }
    }

    /// The index of the given key in the store, if it is present.
    fn find_key(&self, key: &PoolKey) -> (r: Option<usize>)
        ensures
            match r {
                Some(j) => j < self.pooled_connections@.len() && self.pooled_connections@[
                    j as int
                ].0 == *key,
                None => !has_key(self.pooled_connections@, *key),
            },
    {
        let n = self.pooled_connections.len();
        let mut i: usize = 0;
        while i < n
            invariant
                0 <= i <= n,
                n == self.pooled_connections@.len(),
                forall|l: int| 0 <= l < i ==> (#[trigger] self.pooled_connections@[l]).0 != *key,
            decreases n - i,
        {
            let k = &self.pooled_connections[i].0;
            if k.ip == key.ip && k.port == key.port && k.pooled_time == key.pooled_time && k.seqno
                == key.seqno {
                return Some(i);
            }
            i = i + 1;
        }
        None
    }

    /// Discards the globally oldest pooled connection: walks the timeout
    /// queue in age order, dropping stale entries, until a live entry is
    /// found; removes that connection, releases its slot, and re-arms the
    /// queue for the next-oldest connection of the same address.
    pub fn discard_oldest_pooled_connection(&mut self) -> (r: Option<C>)
        requires
            old(self).wf(),
        ensures
            final(self).wf(),
            discard_step(*old(self), *final(self), r),
            r is Some <==> old(self).pooled_connections@.len() > 0,
    {
        loop
            invariant
                self.wf(),
                self.pooled_connections == old(self).pooled_connections,
                self.elapsed_time == old(self).elapsed_time,
                self.pool_size == old(self).pool_size,
                self.seqno == old(self).seqno,
            decreases self.timeout_queue@.len(),
        {
            let ghost pre_iter = *self;
            match self.pop_min_entry() {
                None => {
                    proof {
                        // an empty queue means an empty store: the first
                        // entry of a non-empty store starts a block, and
                        // every block has a queue entry
                        if self.pooled_connections@.len() > 0 {
                            assert(is_block_first(self.pooled_connections@, 0));
                            assert(false);
                        }
                    }
                    return None;
                },
                Some(entry) => {
                    let key = entry.to_pool_key();
                    match self.find_key(&key) {
                        None => {
                            proof {
                                self.lemma_stale_pop_keeps_wf(pre_iter, entry);
                            }
                            // a stale entry: its connection already left
                            // the pool; drop it and walk on
                        },
                        Some(j) => {
                            let pair = self.pooled_connections.remove(j);
                            self.pool_size = self.pool_size - 1;
                            let replacement = self.get_oldest(entry.socket_addr());
                            match replacement {
                                Some(next_key) => {
                                    let e2 = next_key.to_queue_entry();
                                    self.timeout_queue.push(e2);
                                },
                                None => {},
                            }
                            proof {
                                self.lemma_live_pop_restores_wf(
                                    pre_iter,
                                    entry,
                                    j as int,
                                    replacement,
                                );
                            }
                            return Some(pair.1);
                        },
                    }
                },
            }
        }
    }

    /// Advances the pool-local clock by `duration` and expires every
    /// pooled connection that has been idle longer than
    /// `keepalive_timeout`: walks the timeout queue in age order, dropping
    /// stale entries, removing expired connections and re-arming the queue
    /// for the next-oldest connection of each touched address, until the
    /// oldest queued entry is within the keep-alive window.  Returns how
    /// many connections were expired; their slots are released.
    pub fn tick(&mut self, duration: u64, keepalive_timeout: u64) -> (removed: usize)
        requires
            old(self).wf(),
            old(self).elapsed_time + duration <= u64::MAX,
        ensures
            final(self).wf(),
            tick_step(*old(self), *final(self), duration, keepalive_timeout, removed as int),
    {
        self.elapsed_time = self.elapsed_time + duration;
        let now = self.elapsed_time;
        let mut removed_count: usize = 0;
        proof {
            assert(self.pooled_connections@ == old(self).pooled_connections@);
            assert(self.timeout_queue@ == old(self).timeout_queue@);
            assert(self.wf());
            assert forall|i: int| 0 <= i < self.pooled_connections@.len() implies old(
                self,
            ).pooled_connections@.contains(#[trigger] self.pooled_connections@[i]) by {
                assert(old(self).pooled_connections@[i] == self.pooled_connections@[i]);
            }
        }
        loop
            invariant
                self.wf(),
                self.elapsed_time == now,
                now == old(self).elapsed_time + duration,
                self.seqno == old(self).seqno,
                removed_count == old(self).pooled_connections@.len()
                    - self.pooled_connections@.len(),
                self.pool_size == old(self).pool_size - removed_count,
                forall|i: int|
                    0 <= i < self.pooled_connections@.len() ==> old(
                        self,
                    ).pooled_connections@.contains(#[trigger] self.pooled_connections@[i]),
                forall|l: int|
                    0 <= l < old(self).pooled_connections@.len() && !key_expired(
                        (#[trigger] old(self).pooled_connections@[l]).0,
                        now as int,
                        keepalive_timeout as int,
                    ) ==> has_key(self.pooled_connections@, old(self).pooled_connections@[l].0),
            ensures
                self.wf(),
                self.elapsed_time == now,
                self.seqno == old(self).seqno,
                removed_count == old(self).pooled_connections@.len()
                    - self.pooled_connections@.len(),
                self.pool_size == old(self).pool_size - removed_count,
                forall|i: int|
                    0 <= i < self.pooled_connections@.len() ==> old(
                        self,
                    ).pooled_connections@.contains(#[trigger] self.pooled_connections@[i]),
                forall|l: int|
                    0 <= l < old(self).pooled_connections@.len() && !key_expired(
                        (#[trigger] old(self).pooled_connections@[l]).0,
                        now as int,
                        keepalive_timeout as int,
                    ) ==> has_key(self.pooled_connections@, old(self).pooled_connections@[l].0),
                forall|l: int|
                    0 <= l < self.timeout_queue@.len() ==> (
                    #[trigger] self.timeout_queue@[l]).pooled_time + keepalive_timeout >= now,
            decreases self.pooled_connections@.len() + self.timeout_queue@.len(),
        {
            let mi = match self.min_entry_index() {
                None => {
                    break ;
                },
                Some(mi) => mi,
            };
            let e = self.timeout_queue[mi];
            let expired_now = match e.pooled_time.checked_add(keepalive_timeout) {
                Some(s) => s < now,
                None => false,
            };
            if !expired_now {
                break ;
            }
            let ghost pre_iter = *self;
            self.timeout_queue.remove(mi);
            let key = e.to_pool_key();
            match self.find_key(&key) {
                None => {
                    proof {
                        self.lemma_stale_pop_keeps_wf(pre_iter, e);
                    }
                    // a stale entry: its connection already left the pool
                },
                Some(j) => {
                    let pair = self.pooled_connections.remove(j);
                    self.pool_size = self.pool_size - 1;
                    removed_count = removed_count + 1;
                    let addr_e = e.socket_addr();
                    let replacement = self.get_oldest(addr_e);
                    let ghost mut w_repl: int = 0;
                    proof {
                        if replacement is Some {
                            let k2 = replacement->0;
                            w_repl = choose|w: int|
                                is_block_first(self.pooled_connections@, w) && key_has_addr(
                                    (#[trigger] self.pooled_connections@[w]).0,
                                    addr_e,
                                ) && self.pooled_connections@[w].0 == k2;
                            assert(is_block_first(self.pooled_connections@, w_repl));
                            assert(key_has_addr(self.pooled_connections@[w_repl].0, addr_e));
                            assert(self.pooled_connections@[w_repl].0 == k2);
                        }
                    }
                    match replacement {
                        Some(next_key) => {
                            let e2 = next_key.to_queue_entry();
                            self.timeout_queue.push(e2);
                        },
                        None => {},
                    }
                    proof {
                        assert(addr_e == (PeerAddr { ip: e.ip, port: e.port }));
                        if replacement is Some {
                            let k2 = replacement->0;
                            assert(is_block_first(self.pooled_connections@, w_repl)
                                && key_has_addr(self.pooled_connections@[w_repl].0, addr_e)
                                && self.pooled_connections@[w_repl].0 == k2);
                            assert(exists|w: int|
                                is_block_first(self.pooled_connections@, w) && key_has_addr(
                                    (#[trigger] self.pooled_connections@[w]).0,
                                    addr_e,
                                ) && self.pooled_connections@[w].0 == k2);
                        }
                        self.lemma_live_pop_restores_wf(pre_iter, e, j as int, replacement);
                        let p_pre = pre_iter.pooled_connections@;
                        p_pre.remove_ensures(j as int);
                        // the removed connection had expired
                        assert(key_expired(p_pre[j as int].0, now as int, keepalive_timeout as int));
                        // surviving entries come from the old store
                        assert forall|x: int|
                            0 <= x < self.pooled_connections@.len() implies old(
                            self,
                        ).pooled_connections@.contains(
                            #[trigger] self.pooled_connections@[x],
                        ) by {
                            let xo: int = if x < j { x } else { x + 1 };
                            assert(self.pooled_connections@[x] == p_pre[xo]);
                        }
                        // connections within the window keep their key pooled
                        assert forall|l: int|
                            0 <= l < old(self).pooled_connections@.len() && !key_expired(
                                (#[trigger] old(self).pooled_connections@[l]).0,
                                now as int,
                                keepalive_timeout as int,
                            ) implies has_key(
                            self.pooled_connections@,
                            old(self).pooled_connections@[l].0,
                        ) by {
                            let k0 = old(self).pooled_connections@[l].0;
                            let w = choose|w: int|
                                0 <= w < p_pre.len() && (#[trigger] p_pre[w]).0 == k0;
                            assert(w != j);
                            let w2: int = if w < j { w } else { w - 1 };
                            assert(self.pooled_connections@[w2].0 == k0);
                        }
                    }
                },
            }
        }
        proof {
            // at exit every queued entry is within the window, and each
            // pooled connection is at least as young as the head of its
            // block, which the queue covers
            let p = self.pooled_connections@;
            let q = self.timeout_queue@;
            assert forall|i: int| 0 <= i < p.len() implies !key_expired(
                (#[trigger] p[i]).0,
                now as int,
                keepalive_timeout as int,
            ) by {
                lemma_block_first_exists(p, i);
                let f = choose|f: int|
                    {
                        &&& #[trigger] is_block_first(p, f)
                        &&& same_addr(p[f].0, p[i].0)
                        &&& f <= i
                        &&& key_le(p[f].0, p[i].0)
                    };
                let qf = choose|qf: int|
                    0 <= qf < q.len() && (#[trigger] q[qf]).spec_to_pool_key() == p[f].0;
                assert(q[qf].pooled_time + keepalive_timeout >= now);
                assert(p[f].0.pooled_time <= p[i].0.pooled_time);
            }
        }
        removed_count
    }

    /// Dropping a stale entry from the timeout queue keeps the state
    /// well-formed: stale entries play no part in any invariant clause.
    proof fn lemma_stale_pop_keeps_wf(self, pre: Self, e: QueueEntry)
        requires
            pre.wf(),
            !has_key(pre.pooled_connections@, e.spec_to_pool_key()),
            exists|i: int|
                0 <= i < pre.timeout_queue@.len() && pre.timeout_queue@[i] == e
                    && self.timeout_queue@ == #[trigger] pre.timeout_queue@.remove(i),
            self.pooled_connections@ == pre.pooled_connections@,
            self.elapsed_time == pre.elapsed_time,
            self.pool_size == pre.pool_size,
            self.seqno == pre.seqno,
        ensures
            self.wf(),
    {
        let p = pre.pooled_connections@;
        let q = pre.timeout_queue@;
        let q2 = self.timeout_queue@;
        let i = choose|i: int|
            0 <= i < q.len() && q[i] == e && q2 == #[trigger] pre.timeout_queue@.remove(i);
        q.remove_ensures(i);
        assert forall|x: int| 0 <= x < q2.len() implies q2[x] == q[
            if x < i {
                x
            } else {
                x + 1
            }
        ] by {}
        assert forall|pj: int| is_block_first(p, pj) implies exists|qi: int|
            0 <= qi < q2.len() && (#[trigger] q2[qi]).spec_to_pool_key() == p[pj].0 by {
            let qi = choose|qi: int|
                0 <= qi < q.len() && (#[trigger] q[qi]).spec_to_pool_key() == p[pj].0;
            // the witness is live, the removed entry is stale
            assert(has_key(p, q[qi].spec_to_pool_key()));
            assert(qi != i);
            let qi2: int = if qi < i {
                qi
            } else {
                qi - 1
            };
            assert(q2[qi2] == q[qi]);
        }
    }

    /// Removing the pooled connection that a minimal live queue entry
    /// refers to, and re-arming the queue with the next-oldest connection
    /// of the same address, restores well-formedness; the removed
    /// connection is the globally oldest one.
    proof fn lemma_live_pop_restores_wf(
        self,
        pre: Self,
        e: QueueEntry,
        j: int,
        replacement: Option<PoolKey>,
    )
        requires
            pre.wf(),
            exists|i: int|
                0 <= i < pre.timeout_queue@.len() && pre.timeout_queue@[i] == e
                    && self.timeout_queue@ == (match replacement {
                    Some(k2) => (#[trigger] pre.timeout_queue@.remove(i)).push(
                        k2.spec_to_queue_entry(),
                    ),
                    None => pre.timeout_queue@.remove(i),
                }),
            forall|l: int|
                0 <= l < pre.timeout_queue@.len() ==> !entry_age_lt(
                    #[trigger] pre.timeout_queue@[l],
                    e,
                ),
            0 <= j < pre.pooled_connections@.len(),
            pre.pooled_connections@[j].0 == e.spec_to_pool_key(),
            self.pooled_connections@ == pre.pooled_connections@.remove(j),
            match replacement {
                Some(k2) => exists|w: int|
                    is_block_first(self.pooled_connections@, w) && key_has_addr(
                        (#[trigger] self.pooled_connections@[w]).0,
                        PeerAddr { ip: e.ip, port: e.port },
                    ) && self.pooled_connections@[w].0 == k2,
                None => !has_addr(
                    self.pooled_connections@,
                    PeerAddr { ip: e.ip, port: e.port },
                ),
            },
            self.elapsed_time == pre.elapsed_time,
            self.pool_size == pre.pool_size - 1,
            self.seqno == pre.seqno,
        ensures
            self.wf(),
            forall|l: int|
                0 <= l < pre.pooled_connections@.len() && l != j ==> age_lt(
                    pre.pooled_connections@[j].0,
                    (#[trigger] pre.pooled_connections@[l]).0,
                ),
    {
        let p = pre.pooled_connections@;
        let p2 = self.pooled_connections@;
        let q = pre.timeout_queue@;
        let q2 = self.timeout_queue@;
        let addr = PeerAddr { ip: e.ip, port: e.port };
        let i = choose|i: int|
            0 <= i < q.len() && q[i] == e && q2 == (match replacement {
                Some(k2) => (#[trigger] pre.timeout_queue@.remove(i)).push(
                    k2.spec_to_queue_entry(),
                ),
                None => pre.timeout_queue@.remove(i),
            });
        let qm = q.remove(i);
        q.remove_ensures(i);
        p.remove_ensures(j);
        assert forall|x: int| 0 <= x < qm.len() implies qm[x] == q[
            if x < i {
                x
            } else {
                x + 1
            }
        ] by {}
        // the popped entry is live, so it points at a block-first
        assert(is_block_first(p, j));
        assert(key_has_addr(p[j].0, addr));
        // sortedness of the shrunk store
        assert(pooled_sorted(p2)) by {
            assert forall|x: int, y: int| 0 <= x < y < p2.len() implies key_lt(
                p2[x].0,
                p2[y].0,
            ) by {
                let xo: int = if x < j {
                    x
                } else {
                    x + 1
                };
                let yo: int = if y < j {
                    y
                } else {
                    y + 1
                };
                assert(p2[x] == p[xo] && p2[y] == p[yo]);
            }
        }
        // the pushed replacement entry refers to a pooled key whose
        // sequence number no other queue entry carries
        if replacement is Some {
            let k2 = replacement->0;
            let w = choose|w: int|
                is_block_first(p2, w) && key_has_addr((#[trigger] p2[w]).0, addr) && p2[w].0 == k2;
            let wo: int = if w < j {
                w
            } else {
                w + 1
            };
            assert(p2[w] == p[wo]);
            assert forall|l: int| 0 <= l < qm.len() implies (#[trigger] qm[l]).seqno
                != k2.seqno by {
                let lo: int = if l < i {
                    l
                } else {
                    l + 1
                };
                assert(qm[l] == q[lo]);
                if q[lo].seqno == k2.seqno {
                    // by the coupling clause the entry refers to that very
                    // key, so the key starts a block in the old store
                    assert(q[lo].spec_to_pool_key() == p[wo].0);
                    assert(is_block_first(p, wo));
                    // yet the replacement shares the removed block-first's
                    // address, and one address has one block
                    lemma_block_first_unique(p, j, wo);
                    assert(false);
                }
            }
        }
        // live queue entries point at block-firsts of the shrunk store
        assert forall|qi: int, pj: int|
            0 <= qi < q2.len() && 0 <= pj < p2.len() && (#[trigger] q2[qi]).spec_to_pool_key() == (
            #[trigger] p2[pj].0) implies is_block_first(p2, pj) by {
            let pjo: int = if pj < j {
                pj
            } else {
                pj + 1
            };
            assert(p2[pj] == p[pjo]);
            if replacement is Some && qi == q2.len() - 1 {
                // the pushed entry: its key occurs once in the store
                let k2 = replacement->0;
                let w = choose|w: int|
                    is_block_first(p2, w) && key_has_addr((#[trigger] p2[w]).0, addr) && p2[w].0
                        == k2;
                assert(q2[qi].spec_to_pool_key() == k2);
                if pj != w {
                    let wo: int = if w < j {
                        w
                    } else {
                        w + 1
                    };
                    assert(p2[w] == p[wo]);
                    assert(pjo != wo);
                    assert(key_lt(p[pjo].0, p[wo].0) || key_lt(p[wo].0, p[pjo].0));
                    assert(false);
                }
            } else {
                // an entry of the old queue
                let qio: int = if qi < i {
                    qi
                } else {
                    qi + 1
                };
                assert(q2[qi] == q[qio]);
                assert(is_block_first(p, pjo));
                if pj < j {
                    if pj > 0 {
                        assert(p2[pj - 1] == p[pj - 1]);
                    }
                } else if pj == j {
                    if pj > 0 {
                        assert(p2[pj - 1] == p[j - 1]);
                        if same_addr(p[j - 1].0, p[j + 1].0) {
                            lemma_addr_squeeze(p[j - 1].0, p[j].0, p[j + 1].0);
                            assert(false);
                        }
                    }
                } else {
                    assert(p2[pj - 1] == p[pjo - 1]);
                }
            }
        }
        // every block of the shrunk store keeps a queue entry
        assert forall|pj: int| is_block_first(p2, pj) implies exists|qi: int|
            0 <= qi < q2.len() && (#[trigger] q2[qi]).spec_to_pool_key() == p2[pj].0 by {
            let pjo: int = if pj < j {
                pj
            } else {
                pj + 1
            };
            assert(p2[pj] == p[pjo]);
            if key_has_addr(p2[pj].0, addr) {
                // the block of the removed connection's address: covered
                // by the pushed replacement entry
                let w = choose|w: int|
                    is_block_first(p2, w) && key_has_addr((#[trigger] p2[w]).0, addr) && p2[w].0
                        == replacement->0;
                lemma_block_first_unique(p2, pj, w);
                assert(q2[q2.len() - 1].spec_to_pool_key() == p2[pj].0);
            } else {
                // a block of another address: its old entry is still there
                assert(is_block_first(p, pjo)) by {
                    if pj < j {
                        if pj > 0 {
                            assert(p2[pj - 1] == p[pj - 1]);
                        }
                    } else if pj == j {
                        // the successor of the removed entry heads its own
                        // block since it does not share the address
                        assert(!same_addr(p[j].0, p[j + 1].0));
                    } else {
                        assert(p2[pj - 1] == p[pjo - 1]);
                    }
                }
                let qi = choose|qi: int|
                    0 <= qi < q.len() && (#[trigger] q[qi]).spec_to_pool_key() == p[pjo].0;
                assert(q[qi] != e);
                assert(qi != i);
                let qi2: int = if qi < i {
                    qi
                } else {
                    qi - 1
                };
                assert(qm[qi2] == q[qi]);
                assert(q2[qi2] == q[qi]);
            }
        }
        // the removed connection was the globally oldest pooled one
        assert forall|l: int| 0 <= l < p.len() && l != j implies age_lt(
            p[j].0,
            (#[trigger] p[l]).0,
        ) by {
            if same_addr(p[l].0, p[j].0) {
                if l < j {
                    if l < j - 1 {
                        lemma_addr_squeeze(p[l].0, p[j - 1].0, p[j].0);
                    }
                    assert(false);
                }
                assert(key_lt(p[j].0, p[l].0));
            } else {
                lemma_block_first_exists(p, l);
                let f = choose|f: int|
                    {
                        &&& #[trigger] is_block_first(p, f)
                        &&& same_addr(p[f].0, p[l].0)
                        &&& f <= l
                        &&& key_le(p[f].0, p[l].0)
                    };
                let qf = choose|qf: int|
                    0 <= qf < q.len() && (#[trigger] q[qf]).spec_to_pool_key() == p[f].0;
                assert(q[qf] != e);
                assert(qf != i);
                // the popped entry was minimal, and seqnos distinguish it
                assert(!entry_age_lt(q[qf], e));
                assert(q[qf].seqno != e.seqno);
                assert(entry_age_lt(e, q[qf]));
                assert(age_lt(p[j].0, p[f].0));
            }
        }
    }
}

/// Queue index `i` holds a live timeout entry for address `addr`: its key
/// is still pooled and belongs to that address.
pub open spec fn is_live_entry_for<C>(s: ConnectionPoolState<C>, addr: PeerAddr, i: int) -> bool {
    &&& 0 <= i < s.timeout_queue@.len()
    &&& has_key(s.pooled_connections@, s.timeout_queue@[i].spec_to_pool_key())
    &&& key_has_addr(s.timeout_queue@[i].spec_to_pool_key(), addr)
}

/// For any peer address with a pooled connection, the timeout queue holds
/// exactly one live entry for that address (and it points at the oldest
/// pooled connection of the address, by well-formedness).
pub proof fn lemma_unique_live_timeout_entry<C>(s: ConnectionPoolState<C>, addr: PeerAddr)
    requires
        s.wf(),
        has_addr(s.pooled_connections@, addr),
    ensures
        exists|i: int| #[trigger] is_live_entry_for(s, addr, i),
        forall|i1: int, i2: int|
            #[trigger] is_live_entry_for(s, addr, i1) && #[trigger] is_live_entry_for(s, addr, i2)
                ==> i1 == i2,
{
    let p = s.pooled_connections@;
    let q = s.timeout_queue@;
    // existence: the head of the address's block is covered by the queue
    let l = choose|l: int| 0 <= l < p.len() && key_has_addr((#[trigger] p[l]).0, addr);
    lemma_block_first_exists(p, l);
    let f = choose|f: int|
        {
            &&& #[trigger] is_block_first(p, f)
            &&& same_addr(p[f].0, p[l].0)
            &&& f <= l
            &&& key_le(p[f].0, p[l].0)
        };
    let qi = choose|qi: int| 0 <= qi < q.len() && (#[trigger] q[qi]).spec_to_pool_key() == p[f].0;
    assert(is_live_entry_for(s, addr, qi)) by {
        assert(has_key(p, q[qi].spec_to_pool_key()));
    }
    // uniqueness: two live entries point at block heads of one address,
    // one address has one block, and entries are determined by their key
    assert forall|i1: int, i2: int|
        #[trigger] is_live_entry_for(s, addr, i1) && #[trigger] is_live_entry_for(
            s,
            addr,
            i2,
        ) implies i1 == i2 by {
        let j1 = choose|j: int| 0 <= j < p.len() && (#[trigger] p[j]).0 == q[i1].spec_to_pool_key();
        let j2 = choose|j: int| 0 <= j < p.len() && (#[trigger] p[j]).0 == q[i2].spec_to_pool_key();
        assert(is_block_first(p, j1));
        assert(is_block_first(p, j2));
        lemma_block_first_unique(p, j1, j2);
        assert(q[i1] == q[i2]);
        if i1 != i2 {
            assert(q[i1].seqno != q[i2].seqno);
        }
    }
}


/// The last entry of an address's block holds the greatest key that the
/// store has for that address.
pub proof fn lemma_block_last_is_addr_max<C>(p: Seq<(PoolKey, C)>, i: int, addr: PeerAddr)
    requires
        pooled_sorted(p),
        is_block_last(p, i),
        key_has_addr(p[i].0, addr),
    ensures
        forall|l: int|
            0 <= l < p.len() && key_has_addr((#[trigger] p[l]).0, addr) ==> key_le(p[l].0, p[i].0),
{
    assert forall|l: int|
        0 <= l < p.len() && key_has_addr((#[trigger] p[l]).0, addr) implies key_le(
        p[l].0,
        p[i].0,
    ) by {
        if l > i {
            lemma_addr_squeeze(p[i].0, p[i + 1].0, p[l].0);
            assert(false);
        }
    }
}

/// When the store's greatest key of an address sits at index `m`, lending
/// for that address returns exactly the connection stored there and
/// removes exactly that entry.
pub proof fn lemma_lend_takes_max<C>(
    pre: ConnectionPoolState<C>,
    post: ConnectionPoolState<C>,
    addr: PeerAddr,
    r: Option<C>,
    m: int,
)
    requires
        pooled_sorted(pre.pooled_connections@),
        lend_step(pre, post, addr, r),
        0 <= m < pre.pooled_connections@.len(),
        key_has_addr(pre.pooled_connections@[m].0, addr),
        forall|l: int|
            0 <= l < pre.pooled_connections@.len() && key_has_addr(
                (#[trigger] pre.pooled_connections@[l]).0,
                addr,
            ) ==> key_le(pre.pooled_connections@[l].0, pre.pooled_connections@[m].0),
    ensures
        r == Some(pre.pooled_connections@[m].1),
        post.pooled_connections@ == pre.pooled_connections@.remove(m),
{
    let p = pre.pooled_connections@;
    assert(has_addr(p, addr));
    let i = choose|i: int|
        #[trigger] is_block_last(p, i) && key_has_addr(p[i].0, addr) && r->0 == p[i].1
            && post.pooled_connections@ == p.remove(i);
    lemma_block_last_is_addr_max(p, i, addr);
    assert(key_le(p[i].0, p[m].0));
    assert(key_le(p[m].0, p[i].0));
    if i != m {
        lemma_key_lt_total(p[i].0, p[m].0);
        assert(false);
    }
}

/// After pooling, the store holds the fresh entry, still holds every old
/// entry, and holds nothing else.
pub proof fn lemma_pool_step_elements<C>(
    pre: ConnectionPoolState<C>,
    post: ConnectionPoolState<C>,
    addr: PeerAddr,
    c: C,
)
    requires
        pool_step(pre, post, addr, c),
    ensures
        post.pooled_connections@.contains((fresh_key(pre, addr), c)),
        forall|x: int|
            0 <= x < post.pooled_connections@.len() ==> (#[trigger] post.pooled_connections@[x])
                == (fresh_key(pre, addr), c) || pre.pooled_connections@.contains(
                post.pooled_connections@[x],
            ),
        forall|l: int|
            0 <= l < pre.pooled_connections@.len() ==> post.pooled_connections@.contains(
                #[trigger] pre.pooled_connections@[l],
            ),
        post.pooled_connections@.len() == pre.pooled_connections@.len() + 1,
{
    let p = pre.pooled_connections@;
    let p2 = post.pooled_connections@;
    let k = fresh_key(pre, addr);
    let i = choose|i: int|
        {
            &&& 0 <= i <= p.len()
            &&& forall|l: int| 0 <= l < i ==> key_lt((#[trigger] p[l]).0, k)
            &&& forall|l: int| i <= l < p.len() ==> key_lt(k, (#[trigger] p[l]).0)
            &&& p2 == #[trigger] p.insert(i, (k, c))
        };
    p.insert_ensures(i, (k, c));
    assert(p2[i] == (k, c));
    assert forall|x: int| 0 <= x < p2.len() implies (#[trigger] p2[x]) == (k, c)
        || p.contains(p2[x]) by {
        if x < i {
            assert(p2[x] == p[x]);
        } else if x > i {
            assert(p2[x] == p[x - 1]);
        }
    }
    assert forall|l: int| 0 <= l < p.len() implies p2.contains(#[trigger] p[l]) by {
        if l < i {
            assert(p2[l] == p[l]);
        } else {
            assert(p2[l + 1] == p[l]);
        }
    }
}

/// LIFO lending per address: after connections `c1`, `c2`, `c3` are
/// pooled in this order for one peer address, three successive lends for
/// that address return `c3`, then `c2`, then `c1`.
pub proof fn lemma_lend_lifo<C>(
    s0: ConnectionPoolState<C>,
    s1: ConnectionPoolState<C>,
    s2: ConnectionPoolState<C>,
    s3: ConnectionPoolState<C>,
    s4: ConnectionPoolState<C>,
    s5: ConnectionPoolState<C>,
    s6: ConnectionPoolState<C>,
    addr: PeerAddr,
    c1: C,
    c2: C,
    c3: C,
    r1: Option<C>,
    r2: Option<C>,
    r3: Option<C>,
)
    requires
        s0.wf(),
        s3.wf(),
        s4.wf(),
        s5.wf(),
        pool_step(s0, s1, addr, c1),
        pool_step(s1, s2, addr, c2),
        pool_step(s2, s3, addr, c3),
        lend_step(s3, s4, addr, r1),
        lend_step(s4, s5, addr, r2),
        lend_step(s5, s6, addr, r3),
    ensures
        r1 == Some(c3),
        r2 == Some(c2),
        r3 == Some(c1),
{
    let p0 = s0.pooled_connections@;
    let p3 = s3.pooled_connections@;
    let k1 = fresh_key(s0, addr);
    let k2 = fresh_key(s1, addr);
    let k3 = fresh_key(s2, addr);
    lemma_pool_step_elements(s0, s1, addr, c1);
    lemma_pool_step_elements(s1, s2, addr, c2);
    lemma_pool_step_elements(s2, s3, addr, c3);
    assert(key_lt(k1, k2) && key_lt(k2, k3));
    // every key of the address in the final store is bounded by the key
    // it was pooled under: old keys predate the first fresh key
    assert forall|l: int|
        0 <= l < p3.len() && key_has_addr((#[trigger] p3[l]).0, addr) implies key_le(p3[l].0, k3)
        && (p3[l].0 == k3 ==> p3[l] == (k3, c3)) && (p3[l].0 == k2 ==> p3[l] == (k2, c2)) && (
    p3[l].0 == k1 ==> p3[l] == (k1, c1)) && (p3[l].0 == k1 || p3[l].0 == k2 || p3[l].0 == k3
        || key_lt(p3[l].0, k1)) by {
        let x = p3[l];
        if x != (k3, c3) {
            assert(s2.pooled_connections@.contains(x));
            let l2 = choose|l2: int|
                0 <= l2 < s2.pooled_connections@.len() && s2.pooled_connections@[l2] == x;
            if x != (k2, c2) {
                assert(s1.pooled_connections@.contains(x));
                let l1 = choose|l1: int|
                    0 <= l1 < s1.pooled_connections@.len() && s1.pooled_connections@[l1] == x;
                if x != (k1, c1) {
                    assert(p0.contains(x));
                    let l0 = choose|l0: int| 0 <= l0 < p0.len() && p0[l0] == x;
                    // an old key of this address is below the first fresh key
                    assert(x.0.pooled_time <= s0.elapsed_time && x.0.seqno < s0.seqno);
                    assert(key_lt(x.0, k1));
                }
            }
        }
    }
    // first lend returns the newest entry
    assert(p3.contains((k3, c3)));
    let m3 = choose|m: int| 0 <= m < p3.len() && p3[m] == (k3, c3);
    lemma_lend_takes_max(s3, s4, addr, r1, m3);
    let p4 = s4.pooled_connections@;
    p3.remove_ensures(m3);
    // the shrunk store still holds the two older entries, and all its
    // keys of the address are bounded by the second fresh key
    assert(p3.contains((k2, c2)));
    let a2 = choose|a: int| 0 <= a < p3.len() && p3[a] == (k2, c2);
    assert(a2 != m3);
    let m2: int = if a2 < m3 { a2 } else { a2 - 1 };
    assert(p4[m2] == (k2, c2));
    assert forall|l: int|
        0 <= l < p4.len() && key_has_addr((#[trigger] p4[l]).0, addr) implies key_le(p4[l].0, k2)
        && (p4[l].0 == k2 ==> p4[l] == (k2, c2)) && (p4[l].0 == k1 ==> p4[l] == (k1, c1)) && (
    p4[l].0 == k1 || p4[l].0 == k2 || key_lt(p4[l].0, k1)) by {
        let lo: int = if l < m3 { l } else { l + 1 };
        assert(p4[l] == p3[lo]);
        if p3[lo].0 == k3 {
            // the newest key occurs only at the removed index
            assert(lo != m3);
            assert(key_lt(p3[lo].0, p3[m3].0) || key_lt(p3[m3].0, p3[lo].0));
            assert(false);
        }
    }
    lemma_lend_takes_max(s4, s5, addr, r2, m2);
    let p5 = s5.pooled_connections@;
    p4.remove_ensures(m2);
    // and once more for the oldest of the three
    assert(p4.contains((k1, c1))) by {
        assert(p3.contains((k1, c1)));
        let a1 = choose|a: int| 0 <= a < p3.len() && p3[a] == (k1, c1);
        assert(a1 != m3);
        let b1: int = if a1 < m3 { a1 } else { a1 - 1 };
        assert(p4[b1] == (k1, c1));
    }
    let a0 = choose|a: int| 0 <= a < p4.len() && p4[a] == (k1, c1);
    assert(a0 != m2);
    let m1: int = if a0 < m2 { a0 } else { a0 - 1 };
    assert(p5[m1] == (k1, c1));
    assert forall|l: int|
        0 <= l < p5.len() && key_has_addr((#[trigger] p5[l]).0, addr) implies key_le(
        p5[l].0,
        k1,
    ) by {
        let lo: int = if l < m2 { l } else { l + 1 };
        assert(p5[l] == p4[lo]);
        if p4[lo].0 == k2 {
            assert(lo != m2);
            assert(key_lt(p4[lo].0, p4[m2].0) || key_lt(p4[m2].0, p4[lo].0));
            assert(false);
        }
    }
    lemma_lend_takes_max(s5, s6, addr, r3, m1);
}

/// Keep-alive expiry law: a pooled connection whose keep-alive window
/// has passed by the time a tick completes is absent from the pool after
/// that tick.
pub proof fn lemma_expired_entry_absent_after_tick<C>(
    pre: ConnectionPoolState<C>,
    post: ConnectionPoolState<C>,
    duration: u64,
    keepalive: u64,
    removed: int,
    k: PoolKey,
)
    requires
        tick_step(pre, post, duration, keepalive, removed),
        key_expired(k, pre.elapsed_time + duration, keepalive as int),
    ensures
        !has_key(post.pooled_connections@, k),
{
    if has_key(post.pooled_connections@, k) {
        let i = choose|i: int|
            0 <= i < post.pooled_connections@.len() && (#[trigger] post.pooled_connections@[i]).0
                == k;
        assert(!key_expired(post.pooled_connections@[i].0, pre.elapsed_time + duration, keepalive as int));
    }
}

} // verus!