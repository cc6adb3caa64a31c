//! Publishing: validates the routing identifiers, wraps the payload in an
//! envelope, and lays out exactly what the application must declare and
//! publish — the idempotent topology declaration, the routing, the frame
//! bytes, and whether the delivery is persistent. The application performs
//! the broker calls and releases the channel on success.

use crate::envelope::{MqMessage, MsgModel, spec_encode};
use crate::topology::{ExchangeDecl, ExchangeType, QueueDecl};
use vstd::prelude::*;

verus! {

/// Everything one publish needs, as plain data.
#[derive(Debug, Clone, PartialEq, Eq)]
pub struct PublishPlan {
    /// The exchange to publish to; empty means the default exchange.
    pub exchange: Vec<u8>,
    /// The routing key to publish under.
    pub routing_key: Vec<u8>,
    /// The encoded envelope frame to send.
    pub frame: Vec<u8>,
    /// Whether to publish with the persistent delivery flag.
    pub persistent: bool,
    /// The queue to declare first, if the topology uses one.
    pub queue: Option<QueueDecl>,
    /// The exchange to declare first, if the topology uses one.
    pub exchange_decl: Option<ExchangeDecl>,
}

impl PublishPlan {
    /// A work-queue publish: durable queue named by the routing key,
    /// default exchange, persistent delivery.
    pub fn work_queue(route_key: &Vec<u8>, msg: &MqMessage) -> (r: PublishPlan)
        ensures
            r.exchange@.len() == 0,
            r.routing_key@ == route_key@,
            r.frame@ == spec_encode(msg@),
            r.persistent,
            r.queue matches Some(q) && q.name@ == route_key@ && q.durable && !q.auto_delete
                && !q.exclusive,
            r.exchange_decl is None,
    {
        PublishPlan {
            exchange: Vec::new(),
            routing_key: route_key.clone(),
            frame: msg.encode(),
            persistent: true,
            queue: Some(
                QueueDecl {
                    name: route_key.clone(),
                    durable: true,
                    auto_delete: false,
                    exclusive: false,
                },
            ),
            exchange_decl: None,
        }
    }

    /// A broadcast publish: non-durable auto-delete fanout exchange, empty
    /// routing key, non-persistent delivery.
    pub fn broadcast(exchange: &Vec<u8>, msg: &MqMessage) -> (r: PublishPlan)
        ensures
            r.exchange@ == exchange@,
            r.routing_key@.len() == 0,
            r.frame@ == spec_encode(msg@),
            !r.persistent,
            r.queue is None,
            r.exchange_decl matches Some(e) && e.name@ == exchange@ && e.kind
                == ExchangeType::Fanout && !e.durable && e.auto_delete,
    {
        PublishPlan {
            exchange: exchange.clone(),
            routing_key: Vec::new(),
            frame: msg.encode(),
            persistent: false,
            queue: None,
            exchange_decl: Some(
                ExchangeDecl {
                    name: exchange.clone(),
                    kind: ExchangeType::Fanout,
                    durable: false,
                    auto_delete: true,
                },
            ),
        }
    }

    /// A topic publish: durable topic exchange, the caller's routing key,
    /// persistent delivery.
    pub fn topic(exchange: &Vec<u8>, route_key: &Vec<u8>, msg: &MqMessage) -> (r: PublishPlan)
        ensures
            r.exchange@ == exchange@,
            r.routing_key@ == route_key@,
            r.frame@ == spec_encode(msg@),
            r.persistent,
            r.queue is None,
            r.exchange_decl matches Some(e) && e.name@ == exchange@ && e.kind
                == ExchangeType::Topic && e.durable && !e.auto_delete,
    {
        PublishPlan {
            exchange: exchange.clone(),
            routing_key: route_key.clone(),
            frame: msg.encode(),
            persistent: true,
            queue: None,
            exchange_decl: Some(
                ExchangeDecl {
                    name: exchange.clone(),
                    kind: ExchangeType::Topic,
                    durable: true,
                    auto_delete: false,
                },
            ),
        }
    }
}

/// Whether a frame carries `content` as a fresh envelope: some id and
/// timestamp with zero retries.
pub open spec fn frames_fresh_envelope(frame: Seq<u8>, content: Seq<u8>) -> bool {
    exists|g: Seq<u8>, t: Seq<u8>|
        frame == #[trigger] spec_encode(
            MsgModel { guid: g, timespan: t, current_retry: 0, json_content: content },
        )
}

/// Plans a work-queue publish of `json_content`, or refuses an empty
/// routing key. The plan's frame is a fresh envelope around the payload.
pub fn pub_work_queue_msg(route_key: &Vec<u8>, json_content: Vec<u8>) -> (r: Option<PublishPlan>)
    ensures
        r is Some <==> route_key@.len() > 0,
        r matches Some(p) ==> {
            &&& p.exchange@.len() == 0
            &&& p.routing_key@ == route_key@
            &&& p.persistent
            &&& p.queue matches Some(q) && q.name@ == route_key@ && q.durable && !q.auto_delete
                && !q.exclusive
            &&& p.exchange_decl is None
            &&& frames_fresh_envelope(p.frame@, json_content@)
        },
{
    if route_key.len() == 0 {
        return None;
    }
    let msg = MqMessage::new(json_content);
    let plan = PublishPlan::work_queue(route_key, &msg);
    proof {
        assert(frames_fresh_envelope(plan.frame@, msg@.json_content)) by {
            assert(plan.frame@ == spec_encode(
                MsgModel {
                    guid: msg@.guid,
                    timespan: msg@.timespan,
                    current_retry: 0,
                    json_content: msg@.json_content,
                },
            ));
        }
    }
    Some(plan)
}

/// Plans a broadcast publish of `json_content`, or refuses an empty
/// exchange name.
pub fn pub_broadcast_msg(exchange: &Vec<u8>, json_content: Vec<u8>) -> (r: Option<PublishPlan>)
    ensures
        r is Some <==> exchange@.len() > 0,
        r matches Some(p) ==> {
            &&& p.exchange@ == exchange@
            &&& p.routing_key@.len() == 0
            &&& !p.persistent
            &&& p.queue is None
            &&& p.exchange_decl matches Some(e) && e.name@ == exchange@ && e.kind
                == ExchangeType::Fanout && !e.durable && e.auto_delete
            &&& frames_fresh_envelope(p.frame@, json_content@)
        },
{
    if exchange.len() == 0 {
        return None;
    }
    let msg = MqMessage::new(json_content);
    let plan = PublishPlan::broadcast(exchange, &msg);
    proof {
        assert(frames_fresh_envelope(plan.frame@, msg@.json_content)) by {
            assert(plan.frame@ == spec_encode(
                MsgModel {
                    guid: msg@.guid,
                    timespan: msg@.timespan,
                    current_retry: 0,
                    json_content: msg@.json_content,
                },
            ));
        }
    }
    Some(plan)
}

/// Plans a topic publish of `json_content`, or refuses an empty exchange
/// name or routing key.
pub fn pub_topic_msg(exchange: &Vec<u8>, route_key: &Vec<u8>, json_content: Vec<u8>) -> (r: Option<
    PublishPlan,
>)
    ensures
        r is Some <==> exchange@.len() > 0 && route_key@.len() > 0,
        r matches Some(p) ==> {
            &&& p.exchange@ == exchange@
            &&& p.routing_key@ == route_key@
            &&& p.persistent
            &&& p.queue is None
            &&& p.exchange_decl matches Some(e) && e.name@ == exchange@ && e.kind
                == ExchangeType::Topic && e.durable && !e.auto_delete
            &&& frames_fresh_envelope(p.frame@, json_content@)
        },
{
    if exchange.len() == 0 || route_key.len() == 0 {
        return None;
    }
    let msg = MqMessage::new(json_content);
    let plan = PublishPlan::topic(exchange, route_key, &msg);
    proof {
        assert(frames_fresh_envelope(plan.frame@, msg@.json_content)) by {
            assert(plan.frame@ == spec_encode(
                MsgModel {
                    guid: msg@.guid,
                    timespan: msg@.timespan,
                    current_retry: 0,
                    json_content: msg@.json_content,
                },
            ));
        }
    }
    Some(plan)
}

} // verus!
