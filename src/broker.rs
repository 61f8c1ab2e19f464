use crate::channel::{is_subscribed, spec_recv, spec_send, spec_subscribe, spec_unsubscribe, RecvResult, RecvView};
use crate::registry::{position, registry_ok, spec_get_or_create, with_channel, RegistryView, TopicRegistry};
use crate::store::{opt_bytes, retained_of, spec_commit, strictly_sorted, view_names, MetadataStore};
use vstd::prelude::*;

verus! {

/// Pending payloads each topic's channel holds for its slowest subscriber.
pub const CHANNEL_CAPACITY: usize = 1024;

/// Abstract broker: the retained payload (if any) of each stored topic, and
/// the live channels.
pub struct BrokerView {
    pub retained: Map<Seq<char>, Option<Seq<u8>>>,
    pub topics: RegistryView,
}

/// Abstract subscription: which channel and cursor it reads, and the
/// retained payload still to be replayed before live delivery.
pub struct SubView {
    pub slot: nat,
    pub id: nat,
    pub pending: Option<Seq<u8>>,
}

pub open spec fn broker_ok(b: BrokerView) -> bool {
    registry_ok(b.topics)
}

pub open spec fn retained_in(b: BrokerView, name: Seq<char>) -> Option<Seq<u8>> {
    retained_of(b.retained, name)
}

/// Whether the topic's channel can count one more payload.
pub open spec fn spec_can_publish(b: BrokerView, name: Seq<char>) -> bool {
    match position(b.topics, name) {
        Some(i) => b.topics.channels[i as int].history.len() < u64::MAX,
        None => true,
    }
}

/// Broadcast after the retained payload is committed: the topic's channel is
/// created if needed and the payload pushed to it.
pub open spec fn spec_broadcast(t: RegistryView, name: Seq<char>, payload: Seq<u8>) -> RegistryView {
    let (slot, t1) = spec_get_or_create(t, name);
    with_channel(t1, slot, spec_send(t1.channels[slot as int], payload))
}

/// A publish: commit the retained payload, then broadcast it.
pub open spec fn spec_publish(b: BrokerView, name: Seq<char>, payload: Seq<u8>) -> BrokerView {
    BrokerView {
        retained: spec_commit(b.retained, name, payload),
        topics: spec_broadcast(b.topics, name, payload),
    }
}

/// Registration on the topic's channel, creating it if needed; nothing is
/// pending yet.
pub open spec fn spec_register(b: BrokerView, name: Seq<char>) -> (SubView, BrokerView) {
    let (slot, t1) = spec_get_or_create(b.topics, name);
    let c = t1.channels[slot as int];
    (
        SubView { slot, id: c.cursors.len(), pending: None },
        BrokerView { topics: with_channel(t1, slot, spec_subscribe(c)), ..b },
    )
}

/// Subscribe: register first, then read the retained payload, which is
/// replayed before anything live.
pub open spec fn spec_subscribe_topic(b: BrokerView, name: Seq<char>) -> (SubView, BrokerView) {
    let (s, b1) = spec_register(b, name);
    (SubView { pending: retained_in(b1, name), ..s }, b1)
}

/// Whether the subscription's cursor is still registered on its channel.
pub open spec fn spec_sub_active(b: BrokerView, s: SubView) -> bool {
    s.slot < b.topics.channels.len() && is_subscribed(b.topics.channels[s.slot as int], s.id)
}

/// The next item of a subscription's stream.
pub open spec fn spec_next(b: BrokerView, s: SubView) -> (RecvView, SubView, BrokerView) {
    match s.pending {
        Some(p) => (RecvView::Message(p), SubView { pending: None, ..s }, b),
        None => if spec_sub_active(b, s) {
            let (r, c) = spec_recv(b.topics.channels[s.slot as int], s.id);
            (r, s, BrokerView { topics: with_channel(b.topics, s.slot, c), ..b })
        } else {
            (RecvView::Empty, s, b)
        },
    }
}

pub open spec fn ack_text(name: Seq<char>) -> Seq<char> {
    "Message sent to topic '"@ + name + "'"@
}

proof fn lemma_get_or_create_ok(t: RegistryView, name: Seq<char>)
    requires
        registry_ok(t),
    ensures
        ({
            let (slot, t1) = spec_get_or_create(t, name);
            &&& registry_ok(t1)
            &&& slot < t1.channels.len()
            &&& position(t1, name) == Some(slot)
        }),
{
    crate::registry::lemma_get_or_create_idempotent(t, name);
}

/// Retained replay: right after a publish of `payload` to a topic, a new
/// subscriber's first item is that payload.
pub proof fn lemma_retained_replay(b: BrokerView, name: Seq<char>, payload: Seq<u8>)
    requires
        broker_ok(b),
    ensures
        ({
            let b1 = spec_publish(b, name, payload);
            let (s, b2) = spec_subscribe_topic(b1, name);
            spec_next(b2, s).0 == RecvView::Message(payload)
        }),
{
}

/// No retained payload: a subscriber to a topic that was never published to
/// gets no replayed item; its first item is the first payload published after
/// it registered.
pub proof fn lemma_no_retained(b: BrokerView, name: Seq<char>, payload: Seq<u8>)
    requires
        broker_ok(b),
        retained_in(b, name) is None,
    ensures
        ({
            let (s, b1) = spec_subscribe_topic(b, name);
            let b2 = spec_publish(b1, name, payload);
            &&& s.pending is None
            &&& spec_next(b1, s).0 == RecvView::Empty
            &&& spec_next(b2, s).0 == RecvView::Message(payload)
        }),
{
    let (slot, t1) = spec_get_or_create(b.topics, name);
    lemma_get_or_create_ok(b.topics, name);
    let (s, b1) = spec_subscribe_topic(b, name);
    let (slot2, t2) = spec_get_or_create(b1.topics, name);
    crate::registry::lemma_position(b1.topics, name, slot as int);
    assert(slot2 == slot);
    assert(t2 == b1.topics);
}

/// Isolation across topics: publishing to one topic changes nothing that a
/// subscriber of another topic reads.
pub proof fn lemma_topic_isolation(
    b: BrokerView,
    other: Seq<char>,
    payload: Seq<u8>,
    name: Seq<char>,
    s: SubView,
)
    requires
        broker_ok(b),
        other != name,
        position(b.topics, name) == Some(s.slot),
    ensures
        spec_next(spec_publish(b, other, payload), s).0 == spec_next(b, s).0,
{
    let (slot, t1) = spec_get_or_create(b.topics, other);
    lemma_get_or_create_ok(b.topics, other);
    let i = s.slot;
    assert(b.topics.names[i as int] == name);
    assert(slot != i);
    assert(t1.channels[i as int] == b.topics.channels[i as int]);
}

/// The broker's owned context: the metadata store and the topic registry.
pub struct BrokerState {
    store: MetadataStore,
    topics: TopicRegistry,
}

impl View for BrokerState {
    type V = BrokerView;

    closed spec fn view(&self) -> BrokerView {
        BrokerView { retained: self.store@.topics, topics: self.topics@ }
    }
}

impl BrokerState {
    pub closed spec fn wf(&self) -> bool {
        &&& self.store.wf()
        &&& self.topics.wf()
    }

    /// An empty broker whose channels buffer `CHANNEL_CAPACITY` payloads.
    pub fn new() -> (r: Self)
        ensures
            r.wf(),
            r@.retained.dom().is_empty(),
            r@.topics.names.len() == 0,
            r@.topics.channels.len() == 0,
            r@.topics.capacity == CHANNEL_CAPACITY,
    {
        BrokerState { store: MetadataStore::new(), topics: TopicRegistry::new(CHANNEL_CAPACITY) }
    }
}

/// A subscriber's stream: the channel cursor it reads and the retained
/// payload still to be replayed.
pub struct Subscription {
    slot: usize,
    id: usize,
    pending: Option<Vec<u8>>,
}

impl View for Subscription {
    type V = SubView;

    closed spec fn view(&self) -> SubView {
        SubView { slot: self.slot as nat, id: self.id as nat, pending: opt_bytes(self.pending) }
    }
}

impl Subscription {
    /// Sets the payload to replay first, read from the store after
    /// registration.
    pub fn replay_first(&mut self, retained: Option<Vec<u8>>)
        ensures
            final(self)@ == (SubView { pending: opt_bytes(retained), ..old(self)@ }),
    {
        self.pending = retained;
    }
}

/// Request handling over the broker's state: publish, subscribe, list.
pub struct BrokerService {
    state: BrokerState,
}

impl View for BrokerService {
    type V = BrokerView;

    closed spec fn view(&self) -> BrokerView {
        self.state@
    }
}

impl BrokerService {
    pub closed spec fn wf(&self) -> bool {
        self.state.wf()
    }

    pub fn new(state: BrokerState) -> (r: Self)
        requires
            state.wf(),
        ensures
            r.wf(),
            r@ == state@,
    {
        BrokerService { state }
    }

    /// Whether a publish to `topic` fits the channel's payload counter.
    pub fn can_publish(&self, topic: &String) -> (r: bool)
        requires
            self.wf(),
        ensures
            r == spec_can_publish(self@, topic@),
    {
        proof { self.state.topics.lemma_wf(); }
        match self.state.topics.lookup(topic) {
            Some(i) => self.state.topics.sent_count(i) < u64::MAX,
            None => true,
        }
    }

    /// The broadcast half of a publish, for a retained payload already
    /// committed: the topic's channel is created if needed and the payload
    /// pushed to every current subscriber. Returns the acknowledgment.
    pub fn publish_committed(&mut self, topic: &String, payload: Vec<u8>) -> (r: String)
        requires
            old(self).wf(),
            spec_can_publish(old(self)@, topic@),
        ensures
            final(self).wf(),
            final(self)@ == (BrokerView {
                topics: spec_broadcast(old(self)@.topics, topic@, payload@),
                ..old(self)@
            }),
            r@ == ack_text(topic@),
    {
        proof { self.state.topics.lemma_wf(); }
        let slot = self.state.topics.get_or_create(topic);
        proof {
            lemma_get_or_create_ok(old(self)@.topics, topic@);
            if position(old(self)@.topics, topic@) is None {
                assert(self.state.topics@.channels[slot as int].history.len() == 0);
            }
        }
        self.state.topics.send(slot, payload);
        let mut r = String::from_str("Message sent to topic '");
        r.append(topic.as_str());
        r.append("'");
        r
    }

    /// Publish: commit `payload` as the topic's retained payload (creating the
    /// topic if needed), then broadcast it. Returns the acknowledgment.
    pub fn send_message(&mut self, topic: &String, payload: Vec<u8>) -> (r: String)
        requires
            old(self).wf(),
            spec_can_publish(old(self)@, topic@),
        ensures
            final(self).wf(),
            final(self)@ == spec_publish(old(self)@, topic@, payload@),
            r@ == ack_text(topic@),
    {
        let copy = payload.clone();
        assert(copy@ =~= payload@);
        let _ = self.state.store.commit_retained(topic, copy);
        self.publish_committed(topic, payload)
    }

    /// Registers a live consumer on the topic's channel, creating it if
    /// needed. Nothing is pending for replay yet.
    pub fn register(&mut self, topic: &String) -> (r: Subscription)
        requires
            old(self).wf(),
        ensures
            final(self).wf(),
            (r@, final(self)@) == spec_register(old(self)@, topic@),
    {
        proof { self.state.topics.lemma_wf(); }
        proof { self.state.topics.lemma_wf(); }
        let slot = self.state.topics.get_or_create(topic);
        proof { lemma_get_or_create_ok(old(self)@.topics, topic@); }
        let id = self.state.topics.subscribe(slot);
        Subscription { slot, id, pending: None }
    }

    /// Subscribe: register on the live channel first, then read the retained
    /// payload, so that nothing published after the call begins is missed.
    pub fn subscribe(&mut self, topic: &String) -> (r: Subscription)
        requires
            old(self).wf(),
        ensures
            final(self).wf(),
            (r@, final(self)@) == spec_subscribe_topic(old(self)@, topic@),
    {
        let mut sub = self.register(topic);
        let retained = self.state.store.get_retained(topic);
        sub.replay_first(retained);
        sub
    }

    /// The next item of a subscription: the retained payload if still
    /// pending, otherwise one read of the live channel (a payload, a lag
    /// report, or nothing yet).
    pub fn next_item(&mut self, sub: &mut Subscription) -> (r: RecvResult)
        requires
            old(self).wf(),
        ensures
            final(self).wf(),
            (r@, final(sub)@, final(self)@) == spec_next(old(self)@, old(sub)@),
    {
        let pending = sub.pending.take();
        match pending {
            Some(p) => RecvResult::Message(p),
            None => {
                if self.state.topics.is_subscribed(sub.slot, sub.id) {
                    self.state.topics.try_recv(sub.slot, sub.id)
                } else {
                    RecvResult::Empty
                }
            },
        }
    }

    /// Ends a subscription; the topic, its retained payload and the other
    /// subscribers are untouched.
    pub fn unsubscribe(&mut self, sub: Subscription)
        requires
            old(self).wf(),
        ensures
            final(self).wf(),
            final(self)@ == (if spec_sub_active(old(self)@, sub@) {
                BrokerView {
                    topics: with_channel(
                        old(self)@.topics,
                        sub@.slot,
                        spec_unsubscribe(old(self)@.topics.channels[sub@.slot as int], sub@.id),
                    ),
                    ..old(self)@
                }
            } else {
                old(self)@
            }),
    {
        if self.state.topics.is_subscribed(sub.slot, sub.id) {
            self.state.topics.unsubscribe(sub.slot, sub.id);
        }
    }

    /// The names of all stored topics, in increasing order.
    pub fn list_topics(&self) -> (r: Vec<String>)
        requires
            self.wf(),
        ensures
            strictly_sorted(view_names(r@)),
            forall|k: Seq<char>| view_names(r@).contains(k) <==> self@.retained.contains_key(k),
    {
        self.state.store.list_topic_names()
    }
}

} // verus!
