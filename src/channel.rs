use std::collections::VecDeque;
use vstd::prelude::*;

verus! {

/// Abstract state of a fan-out channel: every payload ever sent, the buffer
/// bound, and one read cursor per subscriber slot (`None` once released).
pub struct ChannelView {
    pub capacity: nat,
    pub history: Seq<Seq<u8>>,
    pub cursors: Seq<Option<nat>>,
}

/// What a subscriber gets from one read, in the abstract.
pub enum RecvView {
    Message(Seq<u8>),
    Lagged(nat),
    Empty,
}

/// Absolute position of the oldest payload still buffered.
pub open spec fn oldest(v: ChannelView) -> nat {
    if v.history.len() > v.capacity {
        (v.history.len() - v.capacity) as nat
    } else {
        0
    }
}

pub open spec fn is_subscribed(v: ChannelView, id: nat) -> bool {
    id < v.cursors.len() && v.cursors[id as int] is Some
}

/// The channel after one payload is pushed: subscribers are never waited on.
pub open spec fn spec_send(v: ChannelView, payload: Seq<u8>) -> ChannelView {
    ChannelView { history: v.history.push(payload), ..v }
}

/// A new subscriber slot whose cursor starts at the next payload to be sent.
pub open spec fn spec_subscribe(v: ChannelView) -> ChannelView {
    ChannelView { cursors: v.cursors.push(Some(v.history.len())), ..v }
}

pub open spec fn spec_unsubscribe(v: ChannelView, id: nat) -> ChannelView {
    ChannelView { cursors: v.cursors.update(id as int, None), ..v }
}

/// One read by subscriber `id`: a lagging cursor is reported and moved to the
/// oldest buffered payload; otherwise the next payload is handed out, if any.
pub open spec fn spec_recv(v: ChannelView, id: nat) -> (RecvView, ChannelView)
    recommends
        is_subscribed(v, id),
{
    let c = v.cursors[id as int]->Some_0;
    if c < oldest(v) {
        (
            RecvView::Lagged((oldest(v) - c) as nat),
            ChannelView { cursors: v.cursors.update(id as int, Some(oldest(v))), ..v },
        )
    } else if c >= v.history.len() {
        (RecvView::Empty, v)
    } else {
        (
            RecvView::Message(v.history[c as int]),
            ChannelView { cursors: v.cursors.update(id as int, Some(c + 1)), ..v },
        )
    }
}

/// The channel after each payload of `ps` is sent, in order.
pub open spec fn spec_send_all(v: ChannelView, ps: Seq<Seq<u8>>) -> ChannelView
    decreases ps.len(),
{
    if ps.len() == 0 {
        v
    } else {
        spec_send(spec_send_all(v, ps.drop_last()), ps.last())
    }
}

/// The outcomes of `n` successive reads by subscriber `id`, and the state after them.
pub open spec fn spec_drain(v: ChannelView, id: nat, n: nat) -> (Seq<RecvView>, ChannelView)
    decreases n,
{
    if n == 0 {
        (Seq::empty(), v)
    } else {
        let (r, v1) = spec_recv(v, id);
        let (rest, v2) = spec_drain(v1, id, (n - 1) as nat);
        (seq![r] + rest, v2)
    }
}

pub open spec fn as_messages(ps: Seq<Seq<u8>>) -> Seq<RecvView> {
    ps.map_values(|p: Seq<u8>| RecvView::Message(p))
}

/// Sending appends to the history and leaves capacity and cursors alone.
pub proof fn lemma_send_all(v: ChannelView, ps: Seq<Seq<u8>>)
    ensures
        spec_send_all(v, ps).history == v.history + ps,
        spec_send_all(v, ps).capacity == v.capacity,
        spec_send_all(v, ps).cursors == v.cursors,
    decreases ps.len(),
{
    if ps.len() > 0 {
        lemma_send_all(v, ps.drop_last());
        assert(v.history + ps =~= (v.history + ps.drop_last()).push(ps.last()));
    }
}

/// A cursor inside the buffered window reads the history from that point on,
/// one payload per read, with nothing skipped or repeated.
pub proof fn lemma_drain_window(v: ChannelView, id: nat, n: nat)
    requires
        is_subscribed(v, id),
        oldest(v) <= v.cursors[id as int]->Some_0,
        v.cursors[id as int]->Some_0 + n <= v.history.len(),
    ensures
        ({
            let c = v.cursors[id as int]->Some_0;
            let (rs, w) = spec_drain(v, id, n);
            &&& rs == as_messages(v.history.subrange(c as int, (c + n) as int))
            &&& w.history == v.history
            &&& w.capacity == v.capacity
            &&& w.cursors == v.cursors.update(id as int, Some((c + n) as nat))
        }),
    decreases n,
{
    let c = v.cursors[id as int]->Some_0;
    if n == 0 {
        assert(v.cursors.update(id as int, Some(c)) =~= v.cursors);
        assert(as_messages(v.history.subrange(c as int, c as int)) =~= Seq::empty());
    } else {
        let (r, v1) = spec_recv(v, id);
        assert(v1.cursors[id as int] == Some((c + 1) as nat));
        lemma_drain_window(v1, id, (n - 1) as nat);
        let (rest, v2) = spec_drain(v1, id, (n - 1) as nat);
        assert(v1.cursors.update(id as int, Some((c + n) as nat)) =~= v.cursors.update(
            id as int,
            Some((c + n) as nat),
        ));
        assert(seq![r] + rest =~= as_messages(v.history.subrange(c as int, (c + n) as int)));
    }
}

/// Ordering: a subscriber registered before a run of at most `capacity`
/// sends reads exactly those payloads, in the order sent, and then finds
/// nothing more.
pub proof fn lemma_live_order(v: ChannelView, id: nat, ps: Seq<Seq<u8>>)
    requires
        is_subscribed(v, id),
        v.cursors[id as int]->Some_0 == v.history.len(),
        ps.len() <= v.capacity,
    ensures
        ({
            let (rs, w) = spec_drain(spec_send_all(v, ps), id, ps.len());
            &&& rs == as_messages(ps)
            &&& spec_recv(w, id).0 == RecvView::Empty
        }),
{
    let s = spec_send_all(v, ps);
    lemma_send_all(v, ps);
    lemma_drain_window(s, id, ps.len());
    let h = v.history.len();
    assert(s.history.subrange(h as int, (h + ps.len()) as int) =~= ps);
}

/// Lag recovery: a subscriber that reads nothing while more than `capacity`
/// payloads are sent is told on its next read how many it lost, then reads
/// the newest `capacity` payloads in order.
pub proof fn lemma_lag_recovery(v: ChannelView, id: nat, ps: Seq<Seq<u8>>)
    requires
        is_subscribed(v, id),
        v.cursors[id as int]->Some_0 == v.history.len(),
        ps.len() > v.capacity,
    ensures
        ({
            let (first, after) = spec_recv(spec_send_all(v, ps), id);
            let (rs, w) = spec_drain(after, id, v.capacity);
            &&& first == RecvView::Lagged((ps.len() - v.capacity) as nat)
            &&& rs == as_messages(ps.subrange(ps.len() - v.capacity, ps.len() as int))
            &&& spec_recv(w, id).0 == RecvView::Empty
        }),
{
    let s = spec_send_all(v, ps);
    lemma_send_all(v, ps);
    let (first, after) = spec_recv(s, id);
    let h = v.history.len();
    assert(after.cursors[id as int] == Some(oldest(s)));
    lemma_drain_window(after, id, v.capacity);
    assert(after.history.subrange(oldest(s) as int, (oldest(s) + v.capacity) as int) =~= ps.subrange(
        ps.len() - v.capacity,
        ps.len() as int,
    ));
}

/// Outcome of one read on a subscriber's cursor.
#[derive(Debug, PartialEq, Eq)]
pub enum RecvResult {
    Message(Vec<u8>),
    Lagged(u64),
    Empty,
}

impl RecvResult {
    pub open spec fn view(&self) -> RecvView {
        match self {
            RecvResult::Message(p) => RecvView::Message(p@),
            RecvResult::Lagged(n) => RecvView::Lagged(*n as nat),
            RecvResult::Empty => RecvView::Empty,
        }
    }
}

/// A bounded broadcast channel: the newest `capacity` payloads are kept in a
/// ring, every subscriber reads at its own cursor, and a full ring drops its
/// oldest payload instead of holding back the sender.
pub struct FanoutChannel {
    capacity: usize,
    sent: u64,
    buffer: VecDeque<Vec<u8>>,
    cursors: Vec<Option<u64>>,
    history: Ghost<Seq<Seq<u8>>>,
}

impl View for FanoutChannel {
    type V = ChannelView;

    closed spec fn view(&self) -> ChannelView {
        ChannelView {
            capacity: self.capacity as nat,
            history: self.history@,
            cursors: self.cursors@.map_values(|c: Option<u64>|
                match c {
                    Some(x) => Some(x as nat),
                    None => None,
                }),
        }
    }
}

impl FanoutChannel {
    pub closed spec fn wf(&self) -> bool {
        &&& self.capacity > 0
        &&& self.sent == self.history@.len()
        &&& self.buffer@.len() == (if self.history@.len() > self.capacity {
            self.capacity as int
        } else {
            self.history@.len() as int
        })
        &&& forall|i: int|
            0 <= i < self.buffer@.len() ==> #[trigger] self.buffer@[i]@ == self.history@[self.sent
                - self.buffer@.len() + i]
        &&& forall|i: int|
            0 <= i < self.cursors@.len() && #[trigger] self.cursors@[i] is Some
                ==> self.cursors@[i]->Some_0 <= self.sent
    }

    /// Number of payloads sent so far.
    pub fn sent_count(&self) -> (r: u64)
        requires
            self.wf(),
        ensures
            r == self@.history.len(),
    {
        self.sent
    }

    pub fn capacity(&self) -> (r: usize)
        ensures
            r == self@.capacity,
    {
        self.capacity
    }

    pub fn new(capacity: usize) -> (r: Self)
        requires
            capacity > 0,
        ensures
            r.wf(),
            r@.capacity == capacity,
            r@.history == Seq::<Seq<u8>>::empty(),
            r@.cursors == Seq::<Option<nat>>::empty(),
    {
        let r = FanoutChannel {
            capacity,
            sent: 0,
            buffer: VecDeque::new(),
            cursors: Vec::new(),
            history: Ghost(Seq::empty()),
        };
        assert(r@.cursors =~= Seq::<Option<nat>>::empty());
        r
    }

    /// Whether `id` names a registered subscriber slot.
    pub fn is_subscribed(&self, id: usize) -> (r: bool)
        requires
            self.wf(),
        ensures
            r == is_subscribed(self@, id as nat),
    {
        id < self.cursors.len() && self.cursors[id].is_some()
    }

    /// Registers a subscriber; it sees every payload sent from now on.
    pub fn subscribe(&mut self) -> (id: usize)
        requires
            old(self).wf(),
        ensures
            final(self).wf(),
            id == old(self)@.cursors.len(),
            final(self)@ == spec_subscribe(old(self)@),
    {
        let id = self.cursors.len();
        self.cursors.push(Some(self.sent));
        assert(self@.cursors =~= spec_subscribe(old(self)@).cursors);
        id
    }

    /// Releases a subscriber slot; other subscribers and the history are untouched.
    pub fn unsubscribe(&mut self, id: usize)
        requires
            old(self).wf(),
            id < old(self)@.cursors.len(),
        ensures
            final(self).wf(),
            final(self)@ == spec_unsubscribe(old(self)@, id as nat),
    {
        self.cursors.set(id, None);
        assert(self@.cursors =~= spec_unsubscribe(old(self)@, id as nat).cursors);
    }

    /// Number of subscriber slots still registered.
    pub fn receiver_count(&self) -> (r: usize)
        requires
            self.wf(),
        ensures
            r == self@.cursors.filter(|c: Option<nat>| c is Some).len(),
    {
        let mut n: usize = 0;
        let mut i: usize = 0;
        while i < self.cursors.len()
            invariant
                i <= self.cursors@.len(),
                n <= i,
                n == self@.cursors.subrange(0, i as int).filter(|c: Option<nat>| c is Some).len(),
            decreases self.cursors@.len() - i,
        {
            proof {
                let s = self@.cursors;
                assert(s.subrange(0, i + 1) =~= s.subrange(0, i as int).push(s[i as int]));
                s.subrange(0, i as int).lemma_filter_push(s[i as int], |c: Option<nat>| c is Some);
            }
            if self.cursors[i].is_some() {
                n = n + 1;
            }
            i = i + 1;
        }
        assert(self@.cursors.subrange(0, i as int) =~= self@.cursors);
        n
    }

    /// Pushes a payload for every current subscriber. When the ring is full the
    /// oldest payload is dropped; the sender never waits.
    pub fn send(&mut self, payload: Vec<u8>)
        requires
            old(self).wf(),
            old(self)@.history.len() < u64::MAX,
        ensures
            final(self).wf(),
            final(self)@ == spec_send(old(self)@, payload@),
    {
        if self.buffer.len() == self.capacity {
            let _ = self.buffer.pop_front();
        }
        self.buffer.push_back(payload);
        self.history = Ghost(self.history@.push(payload@));
        self.sent = self.sent + 1;
        assert forall|i: int|
            0 <= i < self.cursors@.len() && #[trigger] self.cursors@[i] is Some
                implies self.cursors@[i]->Some_0 <= self.sent by {
            assert(old(self).cursors@[i] is Some);
        }
        assert(self@.cursors =~= old(self)@.cursors);
    }

    /// One read at subscriber `id`'s cursor.
    pub fn try_recv(&mut self, id: usize) -> (r: RecvResult)
        requires
            old(self).wf(),
            is_subscribed(old(self)@, id as nat),
        ensures
            final(self).wf(),
            (r@, final(self)@) == spec_recv(old(self)@, id as nat),
    {
        let c = self.cursors[id].unwrap();
        let len = self.buffer.len();
        let first = self.sent - len as u64;
        assert(self@.cursors[id as int] == Some(c as nat));
        if c < first {
            self.cursors.set(id, Some(first));
            assert(self@.cursors =~= spec_recv(old(self)@, id as nat).1.cursors);
            RecvResult::Lagged(first - c)
        } else if c >= self.sent {
            RecvResult::Empty
        } else {
            let p = self.buffer[(c - first) as usize].clone();
            assert(p@ =~= self.buffer@[(c - first) as int]@);
            self.cursors.set(id, Some(c + 1));
            assert(self@.cursors =~= spec_recv(old(self)@, id as nat).1.cursors);
            RecvResult::Message(p)
        }
    }
}

} // verus!
