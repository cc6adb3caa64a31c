//! Consumer specifications, their topology plans, and the delivery
//! decision: what to declare and bind for each consumption topology, how
//! many subscriptions to start, and whether a delivery is acknowledged or
//! negatively acknowledged with requeue. The application performs the
//! broker calls a plan describes and runs the delivery loop; every
//! decision along the way is taken here.

use crate::envelope::{MqMessage, decode_envelope, spec_decode};
use crate::jsoncheck::{json_wellformed, json_wellformed_check};
use vstd::prelude::*;

verus! {

/// The three consumption topologies (and the unset default).
#[derive(Debug, Clone, Copy, PartialEq, Eq, Structural)]
pub enum ConsumerType {
    Invalid,
    WorkQueue,
    Broadcast,
    Topic,
}

impl Default for ConsumerType {
    /// The unset default.
    fn default() -> (r: ConsumerType)
        ensures
            r == ConsumerType::Invalid,
    {
        ConsumerType::Invalid
    }
}

/// A consumer specification: immutable after construction. The handler
/// itself is not part of the record; the application pairs each spec with
/// a [`MessageHandler`] when it runs the delivery loop.
#[derive(Debug, Clone, PartialEq, Eq)]
pub struct Consumer {
    pub kind: ConsumerType,
    /// Deliveries with `current_retry` at or above this are dropped.
    pub max_retry: u32,
    /// Exchange name (broadcast and topic).
    pub exchange: Vec<u8>,
    /// Queue routing key (work queue).
    pub route_key: Vec<u8>,
    /// Number of parallel subscriptions (work queue).
    pub concurrency: u32,
    /// Prefetch (QoS) count (work queue).
    pub prefetch_count: u32,
    /// Whether deliveries may be handled in parallel (work queue).
    pub parallel: bool,
    /// Binding pattern (topic).
    pub topic_pattern: Vec<u8>,
}

/// What a handler decides about one delivery.
pub trait MessageHandler {
    /// `true`: processed, acknowledge. `false`: transient failure,
    /// negative-acknowledge and requeue.
    fn handle(&self, payload: &Vec<u8>) -> bool;
}

impl Consumer {
    /// The constructors establish this; prefetch must fit the broker's
    /// 16-bit QoS field.
    pub open spec fn wf(&self) -> bool {
        &&& self.max_retry >= 1
        &&& self.concurrency >= 1
        &&& self.prefetch_count >= 1
        &&& self.prefetch_count <= 0xffff
        &&& match self.kind {
            ConsumerType::WorkQueue => self.route_key@.len() > 0,
            ConsumerType::Broadcast => self.exchange@.len() > 0,
            ConsumerType::Topic => self.exchange@.len() > 0 && self.topic_pattern@.len() > 0,
            ConsumerType::Invalid => false,
        }
    }

    /// A work-queue consumer: `concurrency` competing subscriptions on a
    /// durable queue named by the routing key.
    pub fn new_work_queue_consumer(
        route_key: Vec<u8>,
        concurrency: u32,
        prefetch_count: u32,
        parallel: bool,
        max_retry: u32,
    ) -> (r: Consumer)
        requires
            route_key@.len() > 0,
            concurrency >= 1,
            prefetch_count >= 1,
            prefetch_count <= 0xffff,
            max_retry >= 1,
        ensures
            r.wf(),
            r.kind == ConsumerType::WorkQueue,
            r.route_key@ == route_key@,
            r.concurrency == concurrency,
            r.prefetch_count == prefetch_count,
            r.parallel == parallel,
            r.max_retry == max_retry,
            r.exchange@.len() == 0,
            r.topic_pattern@.len() == 0,
    {
        Consumer {
            kind: ConsumerType::WorkQueue,
            max_retry,
            exchange: Vec::new(),
            route_key,
            concurrency,
            prefetch_count,
            parallel,
            topic_pattern: Vec::new(),
        }
    }

    /// A broadcast consumer: one subscription on a temporary queue bound
    /// to a fanout exchange.
    pub fn new_broadcast_consumer(exchange: Vec<u8>, max_retry: u32) -> (r: Consumer)
        requires
            exchange@.len() > 0,
            max_retry >= 1,
        ensures
            r.wf(),
            r.kind == ConsumerType::Broadcast,
            r.exchange@ == exchange@,
            r.max_retry == max_retry,
            r.concurrency == 1,
            r.prefetch_count == 1,
            !r.parallel,
            r.route_key@.len() == 0,
            r.topic_pattern@.len() == 0,
    {
        Consumer {
            kind: ConsumerType::Broadcast,
            max_retry,
            exchange,
            route_key: Vec::new(),
            concurrency: 1,
            prefetch_count: 1,
            parallel: false,
            topic_pattern: Vec::new(),
        }
    }

    /// A topic consumer: one subscription on a durable queue bound to a
    /// topic exchange with the given pattern.
    pub fn new_topic_consumer(exchange: Vec<u8>, topic_pattern: Vec<u8>, max_retry: u32) -> (r:
        Consumer)
        requires
            exchange@.len() > 0,
            topic_pattern@.len() > 0,
            max_retry >= 1,
        ensures
            r.wf(),
            r.kind == ConsumerType::Topic,
            r.exchange@ == exchange@,
            r.topic_pattern@ == topic_pattern@,
            r.max_retry == max_retry,
            r.concurrency == 1,
            r.prefetch_count == 1,
            !r.parallel,
            r.route_key@.len() == 0,
    {
        Consumer {
            kind: ConsumerType::Topic,
            max_retry,
            exchange,
            route_key: Vec::new(),
            concurrency: 1,
            prefetch_count: 1,
            parallel: false,
            topic_pattern,
        }
    }

    /// How many independent subscriptions binding this consumer starts:
    /// one per unit of concurrency for a work queue, exactly one
    /// otherwise.
    pub fn subscription_count(&self) -> (r: u32)
        ensures
            r == (if self.kind == ConsumerType::WorkQueue {
                self.concurrency
            } else {
                1u32
            }),
    {
        if matches!(self.kind, ConsumerType::WorkQueue) {
            self.concurrency
        } else {
            1
        }
    }
}

/// The registry of consumer specifications, populated at startup and never
/// shrunk.
pub struct ConsumerRegistry {
    pub items: Vec<Consumer>,
}

impl ConsumerRegistry {
    /// Every registered consumer is well-formed.
    pub open spec fn wf(&self) -> bool {
        forall|i: int| 0 <= i < self.items@.len() ==> (#[trigger] self.items@[i]).wf()
    }

    /// An empty registry.
    pub fn new() -> (r: ConsumerRegistry)
        ensures
            r.wf(),
            r.items@.len() == 0,
    {
        ConsumerRegistry { items: Vec::new() }
    }

    /// Adds one consumer; nothing is ever removed.
    pub fn register(&mut self, c: Consumer)
        requires
            old(self).wf(),
            c.wf(),
        ensures
            final(self).wf(),
            final(self).items@ == old(self).items@.push(c),
    {
        self.items.push(c);
    }

    /// Number of registered consumers.
    pub fn len(&self) -> (r: usize)
        ensures
            r == self.items@.len(),
    {
        self.items.len()
    }
}

/// Everything one subscription needs declared and set up, as plain data.
#[derive(Debug, Clone, PartialEq, Eq)]
pub struct BindPlan {
    /// The exchange to declare, if the topology uses one.
    pub exchange: Option<crate::topology::ExchangeDecl>,
    /// The queue to declare.
    pub queue: crate::topology::QueueDecl,
    /// The binding of that queue to the exchange, if any.
    pub bind: Option<crate::topology::QueueBind>,
    /// The prefetch (QoS) count to set on the channel.
    pub prefetch: u16,
    /// The consumer tag to subscribe under.
    pub consumer_tag: Vec<u8>,
}

impl Consumer {
    /// The topology one subscription of this consumer declares, per
    /// topology kind: a work queue declares a durable queue named by the
    /// routing key and sets the spec's prefetch; a broadcast declares a
    /// non-durable auto-delete fanout exchange and an exclusive
    /// broker-named queue bound with an empty routing key; a topic
    /// declares a durable topic exchange and a durable named queue bound
    /// with the pattern. Broadcast and topic set a prefetch of one.
    pub fn plan_binding(&self) -> (r: BindPlan)
        requires
            self.wf(),
        ensures
            self.kind == ConsumerType::WorkQueue ==> {
                &&& r.exchange is None
                &&& r.queue.name@ == self.route_key@
                &&& r.queue.durable && !r.queue.auto_delete && !r.queue.exclusive
                &&& r.bind is None
                &&& r.prefetch == self.prefetch_count
                &&& r.consumer_tag@ == crate::topology::tag_workqueue() + self.route_key@
            },
            self.kind == ConsumerType::Broadcast ==> {
                &&& r.exchange matches Some(e) && e.name@ == self.exchange@ && e.kind
                    == crate::topology::ExchangeType::Fanout && !e.durable && e.auto_delete
                &&& r.queue.name@.len() == 0
                &&& !r.queue.durable && r.queue.auto_delete && r.queue.exclusive
                &&& r.bind matches Some(b) && b.exchange@ == self.exchange@ && b.routing_key@.len()
                    == 0
                &&& r.prefetch == 1
                &&& r.consumer_tag@ == crate::topology::tag_broadcast() + self.exchange@
            },
            self.kind == ConsumerType::Topic ==> {
                &&& r.exchange matches Some(e) && e.name@ == self.exchange@ && e.kind
                    == crate::topology::ExchangeType::Topic && e.durable && !e.auto_delete
                &&& r.queue.name@ == crate::topology::tag_topic() + self.exchange@ + seq![0x5fu8]
                    + self.topic_pattern@
                &&& r.queue.durable && !r.queue.auto_delete && !r.queue.exclusive
                &&& r.bind matches Some(b) && b.exchange@ == self.exchange@ && b.routing_key@
                    == self.topic_pattern@
                &&& r.prefetch == 1
                &&& r.consumer_tag@ == r.queue.name@
            },
    {
        match self.kind {
            ConsumerType::WorkQueue => {
                let mut tag = crate::topology::tag_workqueue_vec();
                crate::envelope::push_all(&mut tag, &self.route_key);
                BindPlan {
                    exchange: None,
                    queue: crate::topology::QueueDecl {
                        name: self.route_key.clone(),
                        durable: true,
                        auto_delete: false,
                        exclusive: false,
                    },
                    bind: None,
                    prefetch: self.prefetch_count as u16,
                    consumer_tag: tag,
                }
            },
            ConsumerType::Broadcast => {
                let mut tag = crate::topology::tag_broadcast_vec();
                crate::envelope::push_all(&mut tag, &self.exchange);
                BindPlan {
                    exchange: Some(
                        crate::topology::ExchangeDecl {
                            name: self.exchange.clone(),
                            kind: crate::topology::ExchangeType::Fanout,
                            durable: false,
                            auto_delete: true,
                        },
                    ),
                    queue: crate::topology::QueueDecl {
                        name: Vec::new(),
                        durable: false,
                        auto_delete: true,
                        exclusive: true,
                    },
                    bind: Some(
                        crate::topology::QueueBind {
                            exchange: self.exchange.clone(),
                            routing_key: Vec::new(),
                        },
                    ),
                    prefetch: 1,
                    consumer_tag: tag,
                }
            },
            ConsumerType::Topic | ConsumerType::Invalid => {
                let mut qname = crate::topology::tag_topic_vec();
                crate::envelope::push_all(&mut qname, &self.exchange);
                qname.push(0x5f);
                crate::envelope::push_all(&mut qname, &self.topic_pattern);
                proof {
                    assert(qname@ =~= crate::topology::tag_topic() + self.exchange@ + seq![0x5fu8]
                        + self.topic_pattern@);
                }
                BindPlan {
                    exchange: Some(
                        crate::topology::ExchangeDecl {
                            name: self.exchange.clone(),
                            kind: crate::topology::ExchangeType::Topic,
                            durable: true,
                            auto_delete: false,
                        },
                    ),
                    queue: crate::topology::QueueDecl {
                        name: qname.clone(),
                        durable: true,
                        auto_delete: false,
                        exclusive: false,
                    },
                    bind: Some(
                        crate::topology::QueueBind {
                            exchange: self.exchange.clone(),
                            routing_key: self.topic_pattern.clone(),
                        },
                    ),
                    prefetch: 1,
                    consumer_tag: qname,
                }
            },
        }
    }
}

/// What the delivery loop does with one delivery.
#[derive(Debug, Clone, Copy, PartialEq, Eq, Structural)]
pub enum DeliveryAction {
    /// Acknowledge: processed, or dropped as unrecoverable.
    Ack,
    /// Negative-acknowledge with requeue: transient handler failure.
    NackRequeue,
}

/// The payload a delivery hands to the handler, if any: the frame must
/// be non-empty and decode as an envelope, the payload must be non-empty
/// and well-formed JSON, and the envelope's retry count must be below the
/// consumer's retry cap. A delivery that misses any of these is dropped
/// (acknowledged), never requeued.
pub open spec fn admitted_payload(max_retry: u32, frame: Seq<u8>) -> Option<Seq<u8>> {
    if frame.len() == 0 {
        None
    } else {
        match spec_decode(frame) {
            None => None,
            Some(m) => if m.json_content.len() == 0 {
                None
            } else if m.current_retry >= max_retry {
                None
            } else if !json_wellformed(m.json_content) {
                None
            } else {
                Some(m.json_content)
            },
        }
    }
}

/// Round trip from publisher to handler: a frame encoded around an
/// envelope whose payload is non-empty, well-formed JSON and whose retry
/// count is below the consumer's cap hands the handler exactly that
/// payload, unchanged.
pub proof fn lemma_publish_consume_round_trip(m: crate::envelope::MsgModel, max_retry: u32)
    requires
        m.json_content.len() > 0,
        m.current_retry < max_retry,
        json_wellformed(m.json_content),
    ensures
        admitted_payload(max_retry, crate::envelope::spec_encode(m)) == Some(m.json_content),
{
    crate::envelope::lemma_decode_encode(m);
    assert(crate::envelope::spec_encode(m).len() > 0) by {
        assert(crate::envelope::lit_head().len() == 9);
    }
}

/// Whether this envelope has exhausted the consumer's retry budget and is
/// to be dropped rather than requeued.
pub fn retry(meta_msg: &MqMessage, consumer: &Consumer) -> (r: bool)
    ensures
        r == (meta_msg.current_retry >= consumer.max_retry),
{
    meta_msg.current_retry >= consumer.max_retry
}

/// Decodes and checks one delivery; `Some` carries the payload for the
/// handler, `None` means the delivery is dropped (acknowledged).
pub fn prepare_delivery(c: &Consumer, frame: &Vec<u8>) -> (r: Option<Vec<u8>>)
    ensures
        match r {
            Some(p) => admitted_payload(c.max_retry, frame@) == Some(p@),
            None => admitted_payload(c.max_retry, frame@) is None,
        },
{
    if frame.len() == 0 {
        return None;
    }
    let m = match decode_envelope(frame) {
        Some(m) => m,
        None => {
            return None;
        },
    };
    if m.json_content.len() == 0 {
        return None;
    }
    if retry(&m, c) {
        return None;
    }
    if !json_wellformed_check(&m.json_content) {
        return None;
    }
    Some(m.json_content)
}

/// Turns the handler's verdict into the broker action: success
/// acknowledges, failure negative-acknowledges with requeue.
pub fn handler_verdict(ok: bool) -> (r: DeliveryAction)
    ensures
        (r == DeliveryAction::Ack) <==> ok,
        (r == DeliveryAction::NackRequeue) <==> !ok,
{
    if ok {
        DeliveryAction::Ack
    } else {
        DeliveryAction::NackRequeue
    }
}

/// Processes one delivery end to end: a delivery with no admitted
/// payload — an empty or undecodable frame, an empty or malformed
/// payload, or an envelope at or past the retry cap — is acknowledged
/// (dropped), and only the handler's verdict can requeue.
pub fn on_received<H: MessageHandler>(c: &Consumer, frame: &Vec<u8>, handler: &H) -> (r:
    DeliveryAction)
    ensures
        admitted_payload(c.max_retry, frame@) is None ==> r == DeliveryAction::Ack,
        frame@.len() == 0 ==> r == DeliveryAction::Ack,
        spec_decode(frame@) is None && frame@.len() > 0 ==> r == DeliveryAction::Ack,
        spec_decode(frame@) matches Some(m) && m.current_retry >= c.max_retry ==> r
            == DeliveryAction::Ack,
{
    match prepare_delivery(c, frame) {
        None => DeliveryAction::Ack,
        Some(payload) => handler_verdict(handler.handle(&payload)),
    }
}

} // verus!
