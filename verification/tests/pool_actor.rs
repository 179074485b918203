//! Tests of the pool actor and its accounting.
use fibers_http_client::connection_pool::PeerAddr;
use fibers_http_client::metrics::ConnectionPoolMetrics;
use fibers_http_client::pool_actor::Command;
use fibers_http_client::pool_actor::ConnectionPool;
use fibers_http_client::pool_actor::ConnectionPoolBuilder;
use fibers_http_client::pool_actor::DiscardReason;
use fibers_http_client::pool_actor::PoolAction;
use fibers_http_client::ErrorKind;

fn addr(port: u16) -> PeerAddr {
    PeerAddr::from_ipv4(127, 0, 0, 1, port)
}

fn check_accounting(pool: &ConnectionPool<&'static str>) {
    let m = pool.metrics();
    // allocations are never outrun by releases
    let released = m.closed_connections()
        + m.connect_failed_connections()
        + m.request_failed_connections()
        + m.expired_connections()
        + m.kicked_out_connections();
    assert!(m.allocated_connections() >= released);
    // allocated slots never exceed the configured maximum
    assert!(m.pool_size() <= pool.max_pool_size);
    assert_eq!(m.pool_size(), pool.state.pool_size);
}

#[test]
fn builder_defaults_match_the_design() {
    let builder = ConnectionPoolBuilder::new();
    assert_eq!(builder.max_pool_size, 4096);
    assert_eq!(builder.connect_timeout, 5);
    assert_eq!(builder.keepalive_timeout, 10);
    let pool: ConnectionPool<&'static str> = builder.finish();
    assert_eq!(pool.metrics().max_pool_size(), 4096);
    assert_eq!(pool.metrics(), ConnectionPoolMetrics::new(4096));
}

#[test]
fn pool_reuse_accounting() {
    let mut builder = ConnectionPoolBuilder::new();
    builder.max_pool_size(2);
    let mut pool: ConnectionPool<&'static str> = builder.finish();

    // first request: nothing pooled, a slot is reserved and a connect
    // starts; the exchange ends with a recyclable connection
    let action = pool.handle_command(Command::Acquire { addr: addr(80) });
    assert!(matches!(action, PoolAction::StartConnect(_)));
    check_accounting(&pool);
    let action = pool.handle_command(Command::Reuse { addr: addr(80), connection: "c1" });
    assert!(matches!(action, PoolAction::Done));
    check_accounting(&pool);

    // second and third request: served from the pool
    for _ in 0..2 {
        let action = pool.handle_command(Command::Acquire { addr: addr(80) });
        assert!(matches!(action, PoolAction::Lend(_)));
        check_accounting(&pool);
        let action = pool.handle_command(Command::Reuse { addr: addr(80), connection: "c1" });
        assert!(matches!(action, PoolAction::Done));
        check_accounting(&pool);
    }

    let m = pool.metrics();
    assert_eq!(m.lent_connections(), 3);
    assert_eq!(m.returned_connections(), 3);
    assert!(m.pool_size() <= 2);
    assert_eq!(m.in_use_connetions(), 0);
}

#[test]
fn pool_capacity_eviction() {
    let mut builder = ConnectionPoolBuilder::new();
    builder.max_pool_size(1);
    let mut pool: ConnectionPool<&'static str> = builder.finish();

    // pool a connection to peer A
    let action = pool.handle_command(Command::Acquire { addr: addr(80) });
    assert!(matches!(action, PoolAction::StartConnect(_)));
    pool.handle_command(Command::Reuse { addr: addr(80), connection: "a" });
    assert_eq!(pool.metrics().pool_size(), 1);

    // an acquire for peer B evicts A's entry and starts a new connect
    let action = pool.handle_command(Command::Acquire { addr: addr(90) });
    match action {
        PoolAction::StartConnect(a) => assert_eq!(a, addr(90)),
        _ => panic!("the full pool should evict and start a connect"),
    }
    assert_eq!(pool.metrics().kicked_out_connections(), 1);
    check_accounting(&pool);
}

#[test]
fn acquire_fails_fast_when_everything_is_lent() {
    let mut builder = ConnectionPoolBuilder::new();
    builder.max_pool_size(1);
    let mut pool: ConnectionPool<&'static str> = builder.finish();

    let action = pool.handle_command(Command::Acquire { addr: addr(80) });
    assert!(matches!(action, PoolAction::StartConnect(_)));

    // the only slot is lent and nothing is pooled: nothing can be evicted
    let action = pool.handle_command(Command::Acquire { addr: addr(80) });
    match action {
        PoolAction::Reject(e) => assert_eq!(e.kind(), ErrorKind::TemporarilyUnavailable),
        _ => panic!("a full pool with no idle entry should reject"),
    }
    assert_eq!(pool.metrics().no_available_connection_errors(), 1);
    check_accounting(&pool);
}

#[test]
fn keepalive_expiration() {
    let mut builder = ConnectionPoolBuilder::new();
    builder.max_pool_size(4);
    builder.keepalive_timeout(3);
    let mut pool: ConnectionPool<&'static str> = builder.finish();

    // pool a connection at t = 0
    pool.handle_command(Command::Acquire { addr: addr(80) });
    pool.handle_command(Command::Reuse { addr: addr(80), connection: "c" });
    assert_eq!(pool.metrics().pool_size(), 1);

    // ticks of one second each; the entry expires on the fourth
    assert_eq!(pool.handle_tick(), 0);
    assert_eq!(pool.handle_tick(), 0);
    assert_eq!(pool.handle_tick(), 0);
    assert_eq!(pool.handle_tick(), 1);
    assert_eq!(pool.metrics().expired_connections(), 1);
    assert_eq!(pool.metrics().pool_size(), 0);
    check_accounting(&pool);
}

#[test]
fn discard_releases_the_slot_and_counts_the_reason() {
    let mut pool: ConnectionPool<&'static str> = ConnectionPool::new();

    pool.handle_command(Command::Acquire { addr: addr(80) });
    let action = pool.handle_command(Command::Discard { reason: DiscardReason::ConnectFailed });
    assert!(matches!(action, PoolAction::Done));
    assert_eq!(pool.metrics().connect_failed_connections(), 1);
    assert_eq!(pool.metrics().pool_size(), 0);

    pool.handle_command(Command::Acquire { addr: addr(80) });
    pool.handle_command(Command::Discard { reason: DiscardReason::Closed });
    assert_eq!(pool.metrics().closed_connections(), 1);

    pool.handle_command(Command::Acquire { addr: addr(80) });
    pool.handle_command(Command::Discard { reason: DiscardReason::RequestFailed });
    assert_eq!(pool.metrics().request_failed_connections(), 1);

    assert_eq!(pool.metrics().allocated_connections(), 3);
    assert_eq!(pool.metrics().returned_connections(), 3);
    check_accounting(&pool);
}

#[test]
fn in_use_counts_outstanding_lends() {
    let mut pool: ConnectionPool<&'static str> = ConnectionPool::new();
    pool.handle_command(Command::Acquire { addr: addr(80) });
    pool.handle_command(Command::Acquire { addr: addr(90) });
    assert_eq!(pool.metrics().in_use_connetions(), 2);
    pool.handle_command(Command::Discard { reason: DiscardReason::RequestFailed });
    assert_eq!(pool.metrics().in_use_connetions(), 1);
}

#[test]
fn metrics_pool_size_saturates_at_zero() {
    let mut m = ConnectionPoolMetrics::new(8);
    m.allocated_connections = 2;
    m.closed_connections = 1;
    m.kicked_out_connections = 1;
    m.expired_connections = 1;
    assert_eq!(m.pool_size(), 0);
    assert_eq!(m.in_use_connetions(), 0);
}
