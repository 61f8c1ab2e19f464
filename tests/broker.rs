use rust_broker::broker::{BrokerService, BrokerState, CHANNEL_CAPACITY};
use rust_broker::channel::{FanoutChannel, RecvResult};
use rust_broker::registry::TopicRegistry;
use rust_broker::store::MetadataStore;

fn service() -> BrokerService {
    BrokerService::new(BrokerState::new())
}

fn s(text: &str) -> String {
    text.to_string()
}

#[test]
fn test_live_subscription_receives_message() {
    let mut svc = service();
    let topic = "live-test-topic".to_string();
    let mut sub = svc.subscribe(&topic);
    let payload = b"hello from live test".to_vec();
    svc.send_message(&topic, payload.clone());
    assert_eq!(svc.next_item(&mut sub), RecvResult::Message(payload));
}

#[test]
fn test_new_subscriber_receives_retained_message() {
    let mut svc = service();
    let topic = "retained-test-topic".to_string();
    let payload = b"hello from retained test".to_vec();
    svc.send_message(&topic, payload.clone());
    let mut sub = svc.subscribe(&topic);
    assert_eq!(svc.next_item(&mut sub), RecvResult::Message(payload));
}

#[test]
fn test_send_and_subscribe_integration() {
    let mut svc = service();
    let topic = "integration-test-topic".to_string();
    let payload = b"hello from integration test".to_vec();
    let ack = svc.send_message(&topic, payload.clone());
    assert_eq!(ack, "Message sent to topic 'integration-test-topic'");
    let mut sub = svc.subscribe(&topic);
    assert_eq!(svc.next_item(&mut sub), RecvResult::Message(payload));
    assert_eq!(svc.next_item(&mut sub), RecvResult::Empty);
}

#[test]
fn scenario_retained_is_latest() {
    let mut svc = service();
    svc.send_message(&s("t1"), b"a".to_vec());
    svc.send_message(&s("t1"), b"b".to_vec());
    let mut sub = svc.subscribe(&s("t1"));
    assert_eq!(svc.next_item(&mut sub), RecvResult::Message(b"b".to_vec()));
    assert_eq!(svc.next_item(&mut sub), RecvResult::Empty);
}

#[test]
fn scenario_subscribe_then_publish() {
    let mut svc = service();
    let mut sub = svc.subscribe(&s("t2"));
    assert_eq!(svc.next_item(&mut sub), RecvResult::Empty);
    svc.send_message(&s("t2"), b"x".to_vec());
    assert_eq!(svc.next_item(&mut sub), RecvResult::Message(b"x".to_vec()));
    assert!(svc.list_topics().contains(&s("t2")));
}

#[test]
fn scenario_fresh_broker_lists_nothing() {
    let svc = service();
    assert!(svc.list_topics().is_empty());
}

#[test]
fn subscribing_alone_does_not_store_a_topic() {
    let mut svc = service();
    let _sub = svc.subscribe(&s("quiet"));
    assert!(svc.list_topics().is_empty());
}

#[test]
fn live_items_arrive_in_publish_order() {
    let mut svc = service();
    let mut sub = svc.subscribe(&s("order"));
    for i in 0..10u8 {
        svc.send_message(&s("order"), vec![i]);
    }
    for i in 0..10u8 {
        assert_eq!(svc.next_item(&mut sub), RecvResult::Message(vec![i]));
    }
    assert_eq!(svc.next_item(&mut sub), RecvResult::Empty);
}

#[test]
fn lagging_subscriber_is_told_and_resumes() {
    let mut svc = service();
    let mut sub = svc.subscribe(&s("flood"));
    let total = CHANNEL_CAPACITY + 6;
    for i in 0..total {
        svc.send_message(&s("flood"), (i as u32).to_be_bytes().to_vec());
    }
    assert_eq!(svc.next_item(&mut sub), RecvResult::Lagged(6));
    for i in 6..total {
        assert_eq!(
            svc.next_item(&mut sub),
            RecvResult::Message((i as u32).to_be_bytes().to_vec())
        );
    }
    assert_eq!(svc.next_item(&mut sub), RecvResult::Empty);
    svc.send_message(&s("flood"), b"after".to_vec());
    assert_eq!(svc.next_item(&mut sub), RecvResult::Message(b"after".to_vec()));
}

#[test]
fn publishes_stay_on_their_topic() {
    let mut svc = service();
    let mut sub_b = svc.subscribe(&s("B"));
    svc.send_message(&s("A"), b"for a".to_vec());
    assert_eq!(svc.next_item(&mut sub_b), RecvResult::Empty);
    let mut late_b = svc.subscribe(&s("B"));
    assert_eq!(svc.next_item(&mut late_b), RecvResult::Empty);
}

#[test]
fn replay_then_live_with_possible_duplicate() {
    let mut svc = service();
    svc.send_message(&s("dup"), b"old".to_vec());
    let mut sub = svc.register(&s("dup"));
    svc.send_message(&s("dup"), b"new".to_vec());
    sub.replay_first(Some(b"new".to_vec()));
    assert_eq!(svc.next_item(&mut sub), RecvResult::Message(b"new".to_vec()));
    assert_eq!(svc.next_item(&mut sub), RecvResult::Message(b"new".to_vec()));
    assert_eq!(svc.next_item(&mut sub), RecvResult::Empty);
}

#[test]
fn publish_committed_broadcasts_without_storing() {
    let mut svc = service();
    let mut sub = svc.register(&s("ext"));
    let ack = svc.publish_committed(&s("ext"), b"p".to_vec());
    assert_eq!(ack, "Message sent to topic 'ext'");
    assert_eq!(svc.next_item(&mut sub), RecvResult::Message(b"p".to_vec()));
    assert!(svc.list_topics().is_empty());
}

#[test]
fn unsubscribed_stream_yields_nothing() {
    let mut svc = service();
    let sub = svc.subscribe(&s("gone"));
    let mut other = svc.subscribe(&s("gone"));
    svc.unsubscribe(sub);
    svc.send_message(&s("gone"), b"m".to_vec());
    assert_eq!(svc.next_item(&mut other), RecvResult::Message(b"m".to_vec()));
}

#[test]
fn list_topics_is_sorted_and_unique() {
    let mut svc = service();
    for name in ["pear", "apple", "fig", "apple", "Zebra", "äpfel"] {
        svc.send_message(&s(name), b"v".to_vec());
    }
    assert_eq!(
        svc.list_topics(),
        vec![s("Zebra"), s("apple"), s("fig"), s("pear"), s("äpfel")]
    );
}

#[test]
fn can_publish_on_fresh_and_known_topics() {
    let mut svc = service();
    assert!(svc.can_publish(&s("n")));
    svc.send_message(&s("n"), b"1".to_vec());
    assert!(svc.can_publish(&s("n")));
}

#[test]
fn store_get_or_create_is_idempotent() {
    let mut store = MetadataStore::new();
    let a1 = store.get_or_create_topic(&s("a"));
    let a2 = store.get_or_create_topic(&s("a"));
    let b = store.get_or_create_topic(&s("b"));
    assert_eq!(a1, a2);
    assert_ne!(a1, b);
    assert_eq!(store.list_topic_names(), vec![s("a"), s("b")]);
    assert_eq!(store.get_retained(&s("a")), None);
}

#[test]
fn store_commit_overwrites_retained() {
    let mut store = MetadataStore::new();
    let id1 = store.commit_retained(&s("t"), b"one".to_vec());
    let id2 = store.commit_retained(&s("t"), b"two".to_vec());
    assert_eq!(id1, id2);
    assert_eq!(store.get_retained(&s("t")), Some(b"two".to_vec()));
    assert_eq!(store.get_retained(&s("u")), None);
    assert_eq!(store.list_topic_names(), vec![s("t")]);
}

#[test]
fn registry_creates_one_channel_per_name() {
    let mut reg = TopicRegistry::new(4);
    assert_eq!(reg.lookup(&s("x")), None);
    let x1 = reg.get_or_create(&s("x"));
    let y = reg.get_or_create(&s("y"));
    let x2 = reg.get_or_create(&s("x"));
    assert_eq!(x1, x2);
    assert_ne!(x1, y);
    assert_eq!(reg.lookup(&s("x")), Some(x1));
    assert_eq!(reg.lookup(&s("y")), Some(y));
}

#[test]
fn registry_routes_payloads_by_slot() {
    let mut reg = TopicRegistry::new(4);
    let x = reg.get_or_create(&s("x"));
    let y = reg.get_or_create(&s("y"));
    let rx = reg.subscribe(x);
    let ry = reg.subscribe(y);
    reg.send(x, b"only x".to_vec());
    assert_eq!(reg.sent_count(x), 1);
    assert_eq!(reg.sent_count(y), 0);
    assert_eq!(reg.try_recv(y, ry), RecvResult::Empty);
    assert_eq!(reg.try_recv(x, rx), RecvResult::Message(b"only x".to_vec()));
    assert!(reg.is_subscribed(x, rx));
    reg.unsubscribe(x, rx);
    assert!(!reg.is_subscribed(x, rx));
}

#[test]
fn channel_ring_drops_oldest() {
    let mut ch = FanoutChannel::new(2);
    let a = ch.subscribe();
    let b = ch.subscribe();
    assert_eq!(ch.receiver_count(), 2);
    ch.send(b"1".to_vec());
    ch.send(b"2".to_vec());
    assert_eq!(ch.try_recv(b), RecvResult::Message(b"1".to_vec()));
    ch.send(b"3".to_vec());
    assert_eq!(ch.try_recv(a), RecvResult::Lagged(1));
    assert_eq!(ch.try_recv(a), RecvResult::Message(b"2".to_vec()));
    assert_eq!(ch.try_recv(a), RecvResult::Message(b"3".to_vec()));
    assert_eq!(ch.try_recv(a), RecvResult::Empty);
    assert_eq!(ch.try_recv(b), RecvResult::Message(b"2".to_vec()));
    assert_eq!(ch.sent_count(), 3);
    assert_eq!(ch.capacity(), 2);
    ch.unsubscribe(a);
    assert_eq!(ch.receiver_count(), 1);
    assert!(!ch.is_subscribed(a));
}

#[test]
fn late_channel_subscriber_sees_only_later_payloads() {
    let mut ch = FanoutChannel::new(8);
    ch.send(b"before".to_vec());
    let late = ch.subscribe();
    assert_eq!(ch.try_recv(late), RecvResult::Empty);
    ch.send(b"after".to_vec());
    assert_eq!(ch.try_recv(late), RecvResult::Message(b"after".to_vec()));
}

#[test]
fn store_upsert_by_id_replaces_only_that_topic() {
    let mut store = MetadataStore::new();
    let a = store.get_or_create_topic(&s("a"));
    let _b = store.commit_retained(&s("b"), b"keep".to_vec());
    store.upsert_retained(a, b"first".to_vec());
    store.upsert_retained(a, b"second".to_vec());
    assert_eq!(store.get_retained(&s("a")), Some(b"second".to_vec()));
    assert_eq!(store.get_retained(&s("b")), Some(b"keep".to_vec()));
}
