//! A message-broker connection and channel pool with bounded resources,
//! idle reclamation, a reconnect supervisor with linear backoff, and a
//! verified envelope wire codec.

use vstd::prelude::*;

pub mod app_config;
pub mod clock;
pub mod consumer;
pub mod draw_models;
pub mod envelope;
pub mod guid;
pub mod jsoncheck;
pub mod kvkeys;
pub mod pipeline;
pub mod pool;
pub mod publisher;
pub mod response;
pub mod reaper;
pub mod supervisor;
pub mod topic;
pub mod topology;

verus! {

/// Errors the pool reports to its callers.
#[derive(Debug, Clone, Copy, PartialEq, Eq, Structural)]
pub enum MqError {
    /// The connection pool is at its connection limit.
    PoolExhausted,
    /// Opening a broker connection failed.
    ConnectFailed,
    /// Opening a channel on a connection failed.
    ChannelOpenFailed,
}

} // verus!
