//! Tests of the pool state machine.
use fibers_http_client::connection_pool::ConnectionPoolState;
use fibers_http_client::connection_pool::PeerAddr;

fn addr(port: u16) -> PeerAddr {
    PeerAddr::from_ipv4(127, 0, 0, 1, port)
}

fn secs(n: u64) -> u64 {
    n
}

#[test]
fn allocate_and_release_works() {
    let mut state = ConnectionPoolState::<&'static str>::new();

    state.allocate_connection();
    assert_eq!(state.pool_size, 1);

    state.release_connection();
    assert_eq!(state.pool_size, 0);
}

#[test]
fn lend_works() {
    let mut state = ConnectionPoolState::<&'static str>::new();
    for _ in 0..4 {
        state.allocate_connection();
    }
    state.pool_connection(addr(80), "foo");
    state.tick(secs(1), secs(100));

    state.pool_connection(addr(80), "bar");
    state.tick(secs(1), secs(100));

    state.pool_connection(addr(80), "baz");
    state.tick(secs(1), secs(100));

    state.pool_connection(addr(90), "qux");
    state.tick(secs(1), secs(100));

    assert_eq!(state.lend_pooled_connection(addr(79)), None);
    assert_eq!(state.lend_pooled_connection(addr(81)), None);
    assert_eq!(state.lend_pooled_connection(addr(80)), Some("baz"));
    assert_eq!(state.lend_pooled_connection(addr(80)), Some("bar"));
    assert_eq!(state.lend_pooled_connection(addr(80)), Some("foo"));
    assert_eq!(state.lend_pooled_connection(addr(80)), None);
}

#[test]
fn discard_oldest_pooled_connection_works() {
    let mut state = ConnectionPoolState::<&'static str>::new();

    // All connections are in pool
    for _ in 0..3 {
        state.allocate_connection();
    }

    state.pool_connection(addr(80), "foo");
    state.tick(secs(1), secs(100));

    state.pool_connection(addr(90), "bar");
    state.tick(secs(1), secs(100));

    state.pool_connection(addr(80), "baz");
    state.tick(secs(1), secs(100));

    assert_eq!(state.pool_size, 3);
    assert_eq!(state.discard_oldest_pooled_connection(), Some("foo"));
    assert_eq!(state.discard_oldest_pooled_connection(), Some("bar"));
    assert_eq!(state.discard_oldest_pooled_connection(), Some("baz"));
    assert_eq!(state.discard_oldest_pooled_connection(), None);
    assert_eq!(state.pool_size, 0);

    // One connection is lent
    for _ in 0..3 {
        state.allocate_connection();
    }

    state.pool_connection(addr(80), "foo");
    state.tick(secs(1), secs(100));

    state.pool_connection(addr(90), "bar");
    state.tick(secs(1), secs(100));

    state.pool_connection(addr(80), "baz");
    state.tick(secs(1), secs(100));

    assert_eq!(state.lend_pooled_connection(addr(90)), Some("bar"));

    assert_eq!(state.pool_size, 3);
    assert_eq!(state.discard_oldest_pooled_connection(), Some("foo"));
    assert_eq!(state.discard_oldest_pooled_connection(), Some("baz"));
    assert_eq!(state.discard_oldest_pooled_connection(), None);
    assert_eq!(state.pool_size, 1);
}

#[test]
fn tick_works() {
    let mut state = ConnectionPoolState::<&'static str>::new();

    for _ in 0..3 {
        state.allocate_connection();
    }

    state.pool_connection(addr(80), "foo");
    state.tick(secs(1), secs(3));

    state.pool_connection(addr(90), "bar");
    state.tick(secs(1), secs(3));

    state.pool_connection(addr(80), "baz");
    state.tick(secs(1), secs(3));

    assert_eq!(state.elapsed_time, secs(3));
    assert_eq!(state.pool_size, 3);

    let expired_count = state.tick(secs(1), secs(3));
    assert_eq!(expired_count, 1);
    assert_eq!(state.pool_size, 2);

    assert_eq!(state.lend_pooled_connection(addr(80)), Some("baz"));
    assert_eq!(state.lend_pooled_connection(addr(90)), Some("bar"));
    assert_eq!(state.lend_pooled_connection(addr(80)), None);

    let expired_count = state.tick(secs(1), secs(3));
    assert_eq!(expired_count, 0);
    assert_eq!(state.pool_size, 2);
}

#[test]
fn eviction_takes_globally_oldest_across_addresses() {
    let mut state = ConnectionPoolState::<&'static str>::new();
    for _ in 0..4 {
        state.allocate_connection();
    }
    state.pool_connection(addr(10), "a");
    state.tick(1, 1000);
    state.pool_connection(addr(30), "b");
    state.tick(1, 1000);
    state.pool_connection(addr(20), "c");
    state.tick(1, 1000);
    state.pool_connection(addr(20), "d");

    // the oldest by pooling time leaves first, whatever its address
    assert_eq!(state.discard_oldest_pooled_connection(), Some("a"));
    assert_eq!(state.discard_oldest_pooled_connection(), Some("b"));
    assert_eq!(state.discard_oldest_pooled_connection(), Some("c"));
    assert_eq!(state.discard_oldest_pooled_connection(), Some("d"));
    assert_eq!(state.discard_oldest_pooled_connection(), None);
}

#[test]
fn eviction_ties_break_by_insertion_order() {
    let mut state = ConnectionPoolState::<&'static str>::new();
    for _ in 0..3 {
        state.allocate_connection();
    }
    // all pooled at the same tick: the sequence number decides
    state.pool_connection(addr(90), "first");
    state.pool_connection(addr(10), "second");
    state.pool_connection(addr(50), "third");

    assert_eq!(state.discard_oldest_pooled_connection(), Some("first"));
    assert_eq!(state.discard_oldest_pooled_connection(), Some("second"));
    assert_eq!(state.discard_oldest_pooled_connection(), Some("third"));
}

#[test]
fn expired_connection_is_gone_after_the_next_tick() {
    let mut state = ConnectionPoolState::<u32>::new();
    state.allocate_connection();
    state.pool_connection(addr(80), 1);

    // keep-alive 2: pooled at time 0, expired once 0 + 2 < elapsed
    assert_eq!(state.tick(1, 2), 0);
    assert_eq!(state.tick(1, 2), 0);
    assert_eq!(state.tick(1, 2), 1);
    assert_eq!(state.lend_pooled_connection(addr(80)), None);
    assert_eq!(state.pool_size, 0);
}

#[test]
fn each_pooled_address_has_exactly_one_live_timeout_entry() {
    let mut state = ConnectionPoolState::<&'static str>::new();
    for _ in 0..5 {
        state.allocate_connection();
    }
    state.pool_connection(addr(80), "a");
    state.tick(1, 100);
    state.pool_connection(addr(80), "b");
    state.tick(1, 100);
    state.pool_connection(addr(90), "c");
    state.tick(1, 100);
    state.pool_connection(addr(80), "d");

    // lending leaves stale entries behind; they must not double-count
    assert_eq!(state.lend_pooled_connection(addr(90)), Some("c"));
    state.pool_connection(addr(90), "c");

    for peer in [addr(80), addr(90)] {
        let live = state
            .timeout_queue
            .iter()
            .filter(|e| {
                let key = e.to_pool_key();
                e.socket_addr() == peer
                    && state.pooled_connections.iter().any(|(k, _)| *k == key)
            })
            .count();
        assert_eq!(live, 1);
    }
}

#[test]
fn from_ipv4_packs_octets() {
    let a = PeerAddr::from_ipv4(127, 0, 0, 1, 8080);
    assert_eq!(a.ip, 0x7f000001);
    assert_eq!(a.port, 8080);
    let b = PeerAddr::from_ipv4(192, 168, 1, 2, 80);
    assert_eq!(b.ip, 0xc0a80102);
    assert_eq!(b.port, 80);
}
