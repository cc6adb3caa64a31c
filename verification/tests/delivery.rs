use std::cell::RefCell;

use looklapi::consumer::{
    Consumer, ConsumerType, DeliveryAction, MessageHandler, ConsumerRegistry, handler_verdict,
    on_received, prepare_delivery,
};
use looklapi::envelope::MqMessage;
use looklapi::publisher::{pub_broadcast_msg, pub_topic_msg, pub_work_queue_msg};
use looklapi::response::AppResponse;
use looklapi::kvkeys::get_db_index_from_key;
use looklapi::topic::{topic_delivered, topic_route_matches};
use looklapi::topology::ExchangeType;

struct AcceptAll;

impl MessageHandler for AcceptAll {
    fn handle(&self, _payload: &Vec<u8>) -> bool {
        true
    }
}

struct RejectAll;

impl MessageHandler for RejectAll {
    fn handle(&self, _payload: &Vec<u8>) -> bool {
        false
    }
}

struct Capture {
    seen: RefCell<Vec<Vec<u8>>>,
}

impl MessageHandler for Capture {
    fn handle(&self, payload: &Vec<u8>) -> bool {
        self.seen.borrow_mut().push(payload.clone());
        true
    }
}

fn work_consumer(max_retry: u32) -> Consumer {
    Consumer::new_work_queue_consumer(b"jobs".to_vec(), 2, 10, false, max_retry)
}

fn frame(retry: u32, content: &[u8]) -> Vec<u8> {
    MqMessage {
        guid: b"id".to_vec(),
        timespan: b"t".to_vec(),
        current_retry: retry,
        json_content: content.to_vec(),
    }
    .encode()
}

#[test]
fn handler_success_acknowledges() {
    let c = work_consumer(3);
    let action = on_received(&c, &frame(0, b"{\"a\":1}"), &AcceptAll);
    assert_eq!(action, DeliveryAction::Ack);
}

#[test]
fn handler_failure_requeues() {
    let c = work_consumer(3);
    let action = on_received(&c, &frame(0, b"{\"a\":1}"), &RejectAll);
    assert_eq!(action, DeliveryAction::NackRequeue);
    assert_eq!(handler_verdict(true), DeliveryAction::Ack);
    assert_eq!(handler_verdict(false), DeliveryAction::NackRequeue);
}

#[test]
fn exhausted_retries_are_dropped_never_requeued() {
    let c = work_consumer(3);
    // Even a failing handler cannot requeue a message at the retry cap:
    // the delivery never reaches it.
    assert_eq!(on_received(&c, &frame(3, b"{\"a\":1}"), &RejectAll), DeliveryAction::Ack);
    assert_eq!(on_received(&c, &frame(7, b"{\"a\":1}"), &RejectAll), DeliveryAction::Ack);
    assert_eq!(on_received(&c, &frame(2, b"{\"a\":1}"), &RejectAll), DeliveryAction::NackRequeue);
}

#[test]
fn undecodable_or_empty_deliveries_are_dropped() {
    let c = work_consumer(3);
    assert_eq!(on_received(&c, &Vec::new(), &RejectAll), DeliveryAction::Ack);
    assert_eq!(on_received(&c, &b"not a frame".to_vec(), &RejectAll), DeliveryAction::Ack);
}

#[test]
fn malformed_payload_is_dropped() {
    let c = work_consumer(3);
    assert_eq!(on_received(&c, &frame(0, b"{"), &RejectAll), DeliveryAction::Ack);
    assert!(prepare_delivery(&c, &frame(0, b"{")).is_none());
    assert_eq!(prepare_delivery(&c, &frame(0, b"{\"a\":1}")), Some(b"{\"a\":1}".to_vec()));
    assert!(prepare_delivery(&c, &frame(0, b"")).is_none());
}

#[test]
fn published_payload_reaches_the_handler_unchanged() {
    let payload = b"{\"k\":\"v\",\"n\":[1,2]}".to_vec();
    let plan = pub_work_queue_msg(&b"jobs".to_vec(), payload.clone()).unwrap();
    let c = work_consumer(3);
    let capture = Capture { seen: RefCell::new(Vec::new()) };
    assert_eq!(on_received(&c, &plan.frame, &capture), DeliveryAction::Ack);
    assert_eq!(capture.seen.into_inner(), vec![payload]);
}

#[test]
fn work_queue_publish_plan_is_durable_and_persistent() {
    let plan = pub_work_queue_msg(&b"jobs".to_vec(), b"1".to_vec()).unwrap();
    assert!(plan.exchange.is_empty());
    assert_eq!(plan.routing_key, b"jobs".to_vec());
    assert!(plan.persistent);
    let q = plan.queue.unwrap();
    assert_eq!(q.name, b"jobs".to_vec());
    assert!(q.durable && !q.auto_delete && !q.exclusive);
    assert!(plan.exchange_decl.is_none());
    assert!(pub_work_queue_msg(&Vec::new(), b"1".to_vec()).is_none());
}

#[test]
fn broadcast_publish_plan_uses_transient_fanout() {
    let plan = pub_broadcast_msg(&b"events".to_vec(), b"1".to_vec()).unwrap();
    assert_eq!(plan.exchange, b"events".to_vec());
    assert!(plan.routing_key.is_empty());
    assert!(!plan.persistent);
    assert!(plan.queue.is_none());
    let e = plan.exchange_decl.unwrap();
    assert_eq!(e.name, b"events".to_vec());
    assert_eq!(e.kind, ExchangeType::Fanout);
    assert!(!e.durable && e.auto_delete);
    assert!(pub_broadcast_msg(&Vec::new(), b"1".to_vec()).is_none());
}

#[test]
fn topic_publish_plan_uses_durable_topic_exchange() {
    let plan = pub_topic_msg(&b"ex".to_vec(), &b"a.b".to_vec(), b"1".to_vec()).unwrap();
    assert_eq!(plan.exchange, b"ex".to_vec());
    assert_eq!(plan.routing_key, b"a.b".to_vec());
    assert!(plan.persistent);
    let e = plan.exchange_decl.unwrap();
    assert_eq!(e.kind, ExchangeType::Topic);
    assert!(e.durable && !e.auto_delete);
    assert!(pub_topic_msg(&Vec::new(), &b"a.b".to_vec(), b"1".to_vec()).is_none());
    assert!(pub_topic_msg(&b"ex".to_vec(), &Vec::new(), b"1".to_vec()).is_none());
}

#[test]
fn work_queue_binding_declares_the_durable_queue() {
    let c = work_consumer(3);
    let plan = c.plan_binding();
    assert!(plan.exchange.is_none());
    assert_eq!(plan.queue.name, b"jobs".to_vec());
    assert!(plan.queue.durable && !plan.queue.auto_delete && !plan.queue.exclusive);
    assert!(plan.bind.is_none());
    assert_eq!(plan.prefetch, 10);
    assert_eq!(plan.consumer_tag, b"workqueue_jobs".to_vec());
    assert_eq!(c.subscription_count(), 2);
}

#[test]
fn broadcast_binding_declares_fanout_and_anonymous_queue() {
    let c = Consumer::new_broadcast_consumer(b"events".to_vec(), 1);
    let plan = c.plan_binding();
    let e = plan.exchange.unwrap();
    assert_eq!(e.name, b"events".to_vec());
    assert_eq!(e.kind, ExchangeType::Fanout);
    assert!(!e.durable && e.auto_delete);
    assert!(plan.queue.name.is_empty());
    assert!(!plan.queue.durable && plan.queue.auto_delete && plan.queue.exclusive);
    let b = plan.bind.unwrap();
    assert_eq!(b.exchange, b"events".to_vec());
    assert!(b.routing_key.is_empty());
    assert_eq!(plan.prefetch, 1);
    assert_eq!(plan.consumer_tag, b"broadcast_events".to_vec());
    assert_eq!(c.subscription_count(), 1);
}

#[test]
fn topic_binding_declares_durable_topic_and_named_queue() {
    let c = Consumer::new_topic_consumer(b"ex".to_vec(), b"a.*".to_vec(), 1);
    let plan = c.plan_binding();
    let e = plan.exchange.unwrap();
    assert_eq!(e.kind, ExchangeType::Topic);
    assert!(e.durable && !e.auto_delete);
    assert_eq!(plan.queue.name, b"topic_ex_a.*".to_vec());
    assert!(plan.queue.durable && !plan.queue.auto_delete && !plan.queue.exclusive);
    let b = plan.bind.unwrap();
    assert_eq!(b.exchange, b"ex".to_vec());
    assert_eq!(b.routing_key, b"a.*".to_vec());
    assert_eq!(plan.prefetch, 1);
    assert_eq!(plan.consumer_tag, b"topic_ex_a.*".to_vec());
}

#[test]
fn topic_pattern_delivers_only_matching_keys() {
    let c = Consumer::new_topic_consumer(b"E".to_vec(), b"a.*".to_vec(), 1);
    assert!(topic_delivered(&c, &b"E".to_vec(), &b"a.b".to_vec()));
    assert!(!topic_delivered(&c, &b"E".to_vec(), &b"c.d".to_vec()));
    assert!(!topic_delivered(&c, &b"other".to_vec(), &b"a.b".to_vec()));
}

#[test]
fn topic_wildcards_match_like_the_broker() {
    let m = |p: &[u8], k: &[u8]| topic_route_matches(&p.to_vec(), &k.to_vec());
    assert!(m(b"a.*", b"a.b"));
    assert!(!m(b"a.*", b"a"));
    assert!(!m(b"a.*", b"a.b.c"));
    assert!(!m(b"*", b"a.b"));
    assert!(m(b"*", b"a"));
    assert!(m(b"a.#", b"a"));
    assert!(m(b"a.#", b"a.b.c.d"));
    assert!(m(b"#", b"x.y"));
    assert!(m(b"#.end", b"a.b.end"));
    assert!(!m(b"#.end", b"a.b.ending"));
    assert!(m(b"a.b", b"a.b"));
    assert!(!m(b"a.b", b"a.c"));
}

#[test]
fn registry_keeps_everything_registered() {
    let mut reg = ConsumerRegistry::new();
    assert_eq!(reg.len(), 0);
    reg.register(work_consumer(3));
    reg.register(Consumer::new_broadcast_consumer(b"events".to_vec(), 1));
    assert_eq!(reg.len(), 2);
    assert_eq!(reg.items[0].kind, ConsumerType::WorkQueue);
    assert_eq!(reg.items[1].kind, ConsumerType::Broadcast);
}

#[test]
fn consumer_type_defaults_to_invalid() {
    assert!(matches!(ConsumerType::default(), ConsumerType::Invalid));
}

#[test]
fn app_response_wraps_a_result() {
    let r = AppResponse::new(41i32);
    assert!(r.is_success);
    assert_eq!(r.error_code, 0);
    assert!(r.error_msg.is_none());
    assert_eq!(r.result, Some(41));
}

#[test]
fn db_index_comes_from_the_leading_digit() {
    assert_eq!(get_db_index_from_key("5_op_shop_stock_"), 5);
    assert_eq!(get_db_index_from_key("9x"), 9);
    assert_eq!(get_db_index_from_key("05"), 0);
    assert_eq!(get_db_index_from_key("x5"), 0);
    assert_eq!(get_db_index_from_key(""), 0);
}
