use crate::channel::{spec_recv, spec_send, spec_subscribe, spec_unsubscribe, is_subscribed};
use crate::channel::{ChannelView, FanoutChannel, RecvResult};
use dashmap::DashMap;
use vstd::prelude::*;

verus! {

#[verifier::external_type_specification]
#[verifier::external_body]
#[verifier::reject_recursive_types(K)]
#[verifier::reject_recursive_types(V)]
#[verifier::reject_recursive_types(S)]
pub struct ExDashMap<K, V, S>(dashmap::DashMap<K, V, S>);

/// The entries of a topic-name index: topic name to channel slot.
pub uninterp spec fn slot_entries(m: DashMap<String, usize>) -> Map<Seq<char>, usize>;

/// Relies on `dashmap::DashMap::new`: a new map holds no entries.
#[verifier::external_body]
fn slots_new() -> (r: DashMap<String, usize>)
    ensures
        slot_entries(r).dom().is_empty(),
{
    DashMap::new()
}

/// Relies on `dashmap::DashMap::get`: the value stored under the key, if any.
#[verifier::external_body]
fn slots_get(m: &DashMap<String, usize>, name: &String) -> (r: Option<usize>)
    ensures
        r == (if slot_entries(*m).contains_key(name@) {
            Some(slot_entries(*m)[name@])
        } else {
            None
        }),
{
    m.get(name).map(|e| *e.value())
}

/// Relies on `dashmap::DashMap::entry` with `Entry::or_insert`: in one step an
/// existing entry is kept and its value returned, or else `slot` is stored
/// under the key and returned.
#[verifier::external_body]
fn slots_insert_if_absent(m: &mut DashMap<String, usize>, name: String, slot: usize) -> (r: usize)
    ensures
        slot_entries(*old(m)).contains_key(name@) ==> r == slot_entries(*old(m))[name@]
            && slot_entries(*final(m)) == slot_entries(*old(m)),
        !slot_entries(*old(m)).contains_key(name@) ==> r == slot && slot_entries(*final(m))
            == slot_entries(*old(m)).insert(name@, slot),
{
    *m.entry(name).or_insert(slot)
}

/// Abstract state of the registry: the topic names in order of creation and,
/// at the same positions, their channels.
pub struct RegistryView {
    pub capacity: nat,
    pub names: Seq<Seq<char>>,
    pub channels: Seq<ChannelView>,
}

pub open spec fn names_distinct(names: Seq<Seq<char>>) -> bool {
    forall|i: int, j: int| 0 <= i < j < names.len() ==> names[i] != names[j]
}

/// Registry states that the operations below keep.
pub open spec fn registry_ok(v: RegistryView) -> bool {
    &&& v.capacity > 0
    &&& v.names.len() == v.channels.len()
    &&& names_distinct(v.names)
    &&& forall|i: int| 0 <= i < v.channels.len() ==> (#[trigger] v.channels[i]).capacity == v.capacity
}

/// The slot of the channel named `name`, if there is one.
pub open spec fn position(v: RegistryView, name: Seq<char>) -> Option<nat> {
    if exists|i: int| 0 <= i < v.names.len() && v.names[i] == name {
        Some((choose|i: int| 0 <= i < v.names.len() && v.names[i] == name) as nat)
    } else {
        None
    }
}

pub open spec fn empty_channel(capacity: nat) -> ChannelView {
    ChannelView { capacity, history: Seq::empty(), cursors: Seq::empty() }
}

/// Insert-if-absent: an existing topic keeps its channel; a new name gets a
/// fresh empty channel at the next slot.
pub open spec fn spec_get_or_create(v: RegistryView, name: Seq<char>) -> (nat, RegistryView) {
    match position(v, name) {
        Some(i) => (i, v),
        None => (
            v.names.len(),
            RegistryView {
                names: v.names.push(name),
                channels: v.channels.push(empty_channel(v.capacity)),
                ..v
            },
        ),
    }
}

pub open spec fn with_channel(v: RegistryView, slot: nat, c: ChannelView) -> RegistryView {
    RegistryView { channels: v.channels.update(slot as int, c), ..v }
}

/// In a registry with distinct names, a position found is the only one.
pub proof fn lemma_position(v: RegistryView, name: Seq<char>, i: int)
    requires
        names_distinct(v.names),
        0 <= i < v.names.len(),
        v.names[i] == name,
    ensures
        position(v, name) == Some(i as nat),
{
}

/// Idempotent creation: asking twice for the same name yields the same slot
/// and adds nothing the second time, and afterwards exactly one slot carries
/// that name.
pub proof fn lemma_get_or_create_idempotent(v: RegistryView, name: Seq<char>)
    requires
        registry_ok(v),
    ensures
        ({
            let (i1, v1) = spec_get_or_create(v, name);
            let (i2, v2) = spec_get_or_create(v1, name);
            &&& registry_ok(v1)
            &&& i1 == i2
            &&& v2 == v1
            &&& i1 < v1.names.len()
            &&& forall|j: int| 0 <= j < v1.names.len() ==> (v1.names[j] == name <==> j == i1)
        }),
{
    let (i1, v1) = spec_get_or_create(v, name);
    match position(v, name) {
        Some(i) => {
            lemma_position(v, name, i as int);
        },
        None => {
            assert(v1.names[v.names.len() as int] == name);
            lemma_position(v1, name, v.names.len() as int);
        },
    }
}

/// Maps each topic name to its own bounded fan-out channel; a topic is added
/// on first use and kept for the registry's lifetime.
pub struct TopicRegistry {
    capacity: usize,
    index: DashMap<String, usize>,
    channels: Vec<FanoutChannel>,
    names: Ghost<Seq<Seq<char>>>,
}

impl View for TopicRegistry {
    type V = RegistryView;

    closed spec fn view(&self) -> RegistryView {
        RegistryView {
            capacity: self.capacity as nat,
            names: self.names@,
            channels: self.channels@.map_values(|c: FanoutChannel| c@),
        }
    }
}

impl TopicRegistry {
    pub closed spec fn wf(&self) -> bool {
        &&& registry_ok(self@)
        &&& self.names@.len() == self.channels@.len()
        &&& forall|i: int|
            0 <= i < self.channels@.len() ==> #[trigger] self.channels@[i].wf()
                && self.channels@[i]@.capacity == self.capacity
        &&& forall|k: Seq<char>|
            #[trigger] slot_entries(self.index).contains_key(k) ==> exists|i: int|
                0 <= i < self.names@.len() && self.names@[i] == k
        &&& forall|i: int|
            0 <= i < self.names@.len() ==> slot_entries(self.index).contains_key(
                #[trigger] self.names@[i],
            ) && slot_entries(self.index)[self.names@[i]] == i
    }

    pub proof fn lemma_wf(&self)
        requires
            self.wf(),
        ensures
            registry_ok(self@),
    {
    }

    pub fn new(capacity: usize) -> (r: Self)
        requires
            capacity > 0,
        ensures
            r.wf(),
            r@ == (RegistryView { capacity: capacity as nat, names: Seq::empty(), channels: Seq::empty() }),
    {
        let r = TopicRegistry {
            capacity,
            index: slots_new(),
            channels: Vec::new(),
            names: Ghost(Seq::empty()),
        };
        assert(r@.channels =~= Seq::<ChannelView>::empty());
        r
    }

    /// The slot of an existing topic, without creating one.
    pub fn lookup(&self, name: &String) -> (r: Option<usize>)
        requires
            self.wf(),
        ensures
            match r {
                Some(i) => position(self@, name@) == Some(i as nat),
                None => position(self@, name@) is None,
            },
    {
        let r = slots_get(&self.index, name);
        match r {
            Some(i) => {
                proof {
                    let j = choose|j: int| 0 <= j < self.names@.len() && self.names@[j] == name@;
                    assert(slot_entries(self.index)[self.names@[j]] == j);
                    lemma_position(self@, name@, j);
                }
            },
            None => {
                assert forall|j: int| 0 <= j < self.names@.len() implies self.names@[j] != name@ by {
                    assert(slot_entries(self.index).contains_key(self.names@[j]));
                }
            },
        }
        r
    }

    /// The slot of the topic's channel, creating the channel if the name is new.
    pub fn get_or_create(&mut self, name: &String) -> (r: usize)
        requires
            old(self).wf(),
        ensures
            final(self).wf(),
            (r as nat, final(self)@) == spec_get_or_create(old(self)@, name@),
    {
        let slot = self.channels.len();
        let ghost before = slot_entries(self.index);
        let r = slots_insert_if_absent(&mut self.index, name.clone(), slot);
        if r == slot {
            assert(!before.contains_key(name@)) by {
                if before.contains_key(name@) {
                    let j = choose|j: int| 0 <= j < self.names@.len() && self.names@[j] == name@;
                    assert(before[self.names@[j]] == j);
                }
            }
            assert forall|j: int| 0 <= j < old(self).names@.len() implies old(self).names@[j]
                != name@ by {
                assert(before.contains_key(old(self).names@[j]));
            }
            self.channels.push(FanoutChannel::new(self.capacity));
            self.names = Ghost(self.names@.push(name@));
            assert(self@.channels =~= old(self)@.channels.push(empty_channel(self.capacity as nat)));
            assert(position(old(self)@, name@) is None);
            assert forall|k: Seq<char>|
                #[trigger] slot_entries(self.index).contains_key(k) implies exists|i: int|
                    0 <= i < self.names@.len() && self.names@[i] == k by {
                if k != name@ {
                    assert(before.contains_key(k));
                    let i = choose|i: int| 0 <= i < old(self).names@.len() && old(self).names@[i] == k;
                    assert(self.names@[i] == k);
                } else {
                    assert(self.names@[slot as int] == k);
                }
            }
            assert forall|i: int| 0 <= i < self.names@.len() implies slot_entries(self.index).contains_key(
                #[trigger] self.names@[i],
            ) && slot_entries(self.index)[self.names@[i]] == i by {
                if i < slot {
                    assert(before.contains_key(old(self).names@[i]));
                }
            }
        } else {
            proof {
                let j = choose|j: int| 0 <= j < self.names@.len() && self.names@[j] == name@;
                assert(before[self.names@[j]] == j);
                lemma_position(self@, name@, j);
            }
        }
        r
    }

    /// Registers a subscriber on the channel at `slot`.
    pub fn subscribe(&mut self, slot: usize) -> (id: usize)
        requires
            old(self).wf(),
            slot < old(self)@.channels.len(),
        ensures
            final(self).wf(),
            id == old(self)@.channels[slot as int].cursors.len(),
            final(self)@ == with_channel(
                old(self)@,
                slot as nat,
                spec_subscribe(old(self)@.channels[slot as int]),
            ),
    {
        let id = self.channels[slot].subscribe();
        assert forall|i: int| 0 <= i < self.channels@.len() implies #[trigger] self.channels@[i].wf()
            && self.channels@[i]@.capacity == self.capacity by {
            assert(old(self).channels@[i].wf());
            if i != slot {
                assert(self.channels@[i] == old(self).channels@[i]);
            }
        }
        assert(self@.channels =~= with_channel(
            old(self)@,
            slot as nat,
            spec_subscribe(old(self)@.channels[slot as int]),
        ).channels);
        id
    }

    /// Releases a subscriber of the channel at `slot`.
    pub fn unsubscribe(&mut self, slot: usize, id: usize)
        requires
            old(self).wf(),
            slot < old(self)@.channels.len(),
            id < old(self)@.channels[slot as int].cursors.len(),
        ensures
            final(self).wf(),
            final(self)@ == with_channel(
                old(self)@,
                slot as nat,
                spec_unsubscribe(old(self)@.channels[slot as int], id as nat),
            ),
    {
        self.channels[slot].unsubscribe(id);
        assert(self@.channels =~= with_channel(
            old(self)@,
            slot as nat,
            spec_unsubscribe(old(self)@.channels[slot as int], id as nat),
        ).channels);
    }

    /// Whether `id` is a registered subscriber of the channel at `slot`.
    pub fn is_subscribed(&self, slot: usize, id: usize) -> (r: bool)
        requires
            self.wf(),
        ensures
            r == (slot < self@.channels.len() && is_subscribed(self@.channels[slot as int], id as nat)),
    {
        if slot < self.channels.len() {
            self.channels[slot].is_subscribed(id)
        } else {
            false
        }
    }

    /// Number of payloads sent on the channel at `slot`.
    pub fn sent_count(&self, slot: usize) -> (r: u64)
        requires
            self.wf(),
            slot < self@.channels.len(),
        ensures
            r == self@.channels[slot as int].history.len(),
    {
        self.channels[slot].sent_count()
    }

    /// Broadcasts a payload on the channel at `slot`.
    pub fn send(&mut self, slot: usize, payload: Vec<u8>)
        requires
            old(self).wf(),
            slot < old(self)@.channels.len(),
            old(self)@.channels[slot as int].history.len() < u64::MAX,
        ensures
            final(self).wf(),
            final(self)@ == with_channel(
                old(self)@,
                slot as nat,
                spec_send(old(self)@.channels[slot as int], payload@),
            ),
    {
        let ghost p = payload@;
        self.channels[slot].send(payload);
        assert(self@.channels =~= with_channel(
            old(self)@,
            slot as nat,
            spec_send(old(self)@.channels[slot as int], p),
        ).channels);
    }

    /// One read by subscriber `id` of the channel at `slot`.
    pub fn try_recv(&mut self, slot: usize, id: usize) -> (r: RecvResult)
        requires
            old(self).wf(),
            slot < old(self)@.channels.len(),
            is_subscribed(old(self)@.channels[slot as int], id as nat),
        ensures
            final(self).wf(),
            r@ == spec_recv(old(self)@.channels[slot as int], id as nat).0,
            final(self)@ == with_channel(
                old(self)@,
                slot as nat,
                spec_recv(old(self)@.channels[slot as int], id as nat).1,
            ),
    {
        let r = self.channels[slot].try_recv(id);
        assert forall|i: int| 0 <= i < self.channels@.len() implies #[trigger] self.channels@[i].wf()
            && self.channels@[i]@.capacity == self.capacity by {
            assert(old(self).channels@[i].wf());
            if i != slot {
                assert(self.channels@[i] == old(self).channels@[i]);
            }
        }
        assert(self@.channels =~= with_channel(
            old(self)@,
            slot as nat,
            spec_recv(old(self)@.channels[slot as int], id as nat).1,
        ).channels);
        r
    }
}

} // verus!
