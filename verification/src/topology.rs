//! Topology declarations: the queues, exchanges and bindings the broker is
//! asked to declare, as plain data. The application translates a
//! declaration into the corresponding broker call; all declarations are
//! idempotent on the broker side.

use vstd::prelude::*;

verus! {

/// The exchange kinds this library uses.
#[derive(Debug, Clone, Copy, PartialEq, Eq, Structural)]
pub enum ExchangeType {
    /// Fanout: a copy to every bound queue.
    Fanout,
    /// Topic: routed by matching the routing key against binding patterns.
    Topic,
}

/// Declare a queue. An empty name asks the broker for a fresh exclusive
/// name of its own choosing.
#[derive(Debug, Clone, PartialEq, Eq)]
pub struct QueueDecl {
    pub name: Vec<u8>,
    pub durable: bool,
    pub auto_delete: bool,
    pub exclusive: bool,
}

/// Declare an exchange.
#[derive(Debug, Clone, PartialEq, Eq)]
pub struct ExchangeDecl {
    pub name: Vec<u8>,
    pub kind: ExchangeType,
    pub durable: bool,
    pub auto_delete: bool,
}

/// Bind the declared queue to an exchange under a routing key. The queue
/// is the one declared alongside this binding (or the broker-named one
/// when the declaration left the name empty).
#[derive(Debug, Clone, PartialEq, Eq)]
pub struct QueueBind {
    pub exchange: Vec<u8>,
    pub routing_key: Vec<u8>,
}

/// `workqueue_` — consumer-tag prefix for work queues.
pub open spec fn tag_workqueue() -> Seq<u8> {
    seq![0x77, 0x6f, 0x72, 0x6b, 0x71, 0x75, 0x65, 0x75, 0x65, 0x5f]
}

/// `broadcast_` — consumer-tag prefix for broadcasts.
pub open spec fn tag_broadcast() -> Seq<u8> {
    seq![0x62, 0x72, 0x6f, 0x61, 0x64, 0x63, 0x61, 0x73, 0x74, 0x5f]
}

/// `topic_` — queue-name and consumer-tag prefix for topics.
pub open spec fn tag_topic() -> Seq<u8> {
    seq![0x74, 0x6f, 0x70, 0x69, 0x63, 0x5f]
}

/// `workqueue_` as bytes.
pub(crate) fn tag_workqueue_vec() -> (r: Vec<u8>)
    ensures
        r@ == tag_workqueue(),
{
    let r = vec![0x77u8, 0x6f, 0x72, 0x6b, 0x71, 0x75, 0x65, 0x75, 0x65, 0x5f];
    proof {
        assert(r@ =~= tag_workqueue());
    }
    r
}

/// `broadcast_` as bytes.
pub(crate) fn tag_broadcast_vec() -> (r: Vec<u8>)
    ensures
        r@ == tag_broadcast(),
{
    let r = vec![0x62u8, 0x72, 0x6f, 0x61, 0x64, 0x63, 0x61, 0x73, 0x74, 0x5f];
    proof {
        assert(r@ =~= tag_broadcast());
    }
    r
}

/// `topic_` as bytes.
pub(crate) fn tag_topic_vec() -> (r: Vec<u8>)
    ensures
        r@ == tag_topic(),
{
    let r = vec![0x74u8, 0x6f, 0x70, 0x69, 0x63, 0x5f];
    proof {
        assert(r@ =~= tag_topic());
    }
    r
}

} // verus!
