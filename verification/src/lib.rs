//! Core of an asynchronous HTTP/1.1 client with a keep-alive connection pool.
//!
//! The heart of the crate is the connection pool state machine: a store of
//! idle connections keyed by peer address with LIFO lending per address,
//! oldest-first global eviction, keep-alive expiry driven by a periodic tick,
//! and a bounded count of allocated connection slots.  Every state transition
//! is specified and verified here; the surrounding asynchronous runtime only
//! performs the I/O that the verified transition functions decide on.
use vstd::prelude::*;

pub mod client;
pub mod connection;
pub mod connection_pool;
pub mod error;
pub mod metrics;
pub mod pool_actor;
pub mod request;

pub use client::Client;
pub use error::Error;
pub use error::ErrorKind;
pub use request::RequestBuilder;

verus! {

/// This crate specific `Result` type.
pub type Result<T> = core::result::Result<T, Error>;

} // verus!
