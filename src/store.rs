use std::cmp::Ordering;
use vstd::prelude::*;

verus! {

/// Lexicographic order on topic names, by code point.
pub open spec fn name_lt(a: Seq<char>, b: Seq<char>) -> bool
    decreases a.len(),
{
    if a.len() == 0 {
        b.len() > 0
    } else if b.len() == 0 {
        false
    } else if a[0] != b[0] {
        (a[0] as u32) < (b[0] as u32)
    } else {
        name_lt(a.drop_first(), b.drop_first())
    }
}

pub proof fn lemma_name_lt_irreflexive(a: Seq<char>)
    ensures
        !name_lt(a, a),
    decreases a.len(),
{
    if a.len() > 0 {
        lemma_name_lt_irreflexive(a.drop_first());
    }
}

pub proof fn lemma_name_lt_transitive(a: Seq<char>, b: Seq<char>, c: Seq<char>)
    requires
        name_lt(a, b),
        name_lt(b, c),
    ensures
        name_lt(a, c),
    decreases a.len(),
{
    if a.len() > 0 && b.len() > 0 && c.len() > 0 && a[0] == b[0] && b[0] == c[0] {
        lemma_name_lt_transitive(a.drop_first(), b.drop_first(), c.drop_first());
    }
}

/// Names in strictly increasing order (hence distinct).
pub open spec fn strictly_sorted(s: Seq<Seq<char>>) -> bool {
    forall|i: int, j: int| 0 <= i < j < s.len() ==> name_lt(s[i], s[j])
}

/// Relies on `Ord for str`: strings are ordered lexicographically, which
/// orders code points by their value.
#[verifier::external_body]
fn compare_names(a: &String, b: &String) -> (r: Ordering)
    ensures
        (r == Ordering::Less) == name_lt(a@, b@),
        (r == Ordering::Equal) == (a@ == b@),
        (r == Ordering::Greater) == name_lt(b@, a@),
{
    a.as_str().cmp(b.as_str())
}

/// Relies on `ulid::Ulid::new`: a fresh identifier from the clock and a random
/// source; nothing is known of its value.
#[verifier::external_body]
fn fresh_topic_id() -> (r: u128) {
    ulid::Ulid::new().0
}

/// Abstract store: each topic that has a row, with its retained payload if one
/// was committed, and the identifier the row was given.
pub struct StoreView {
    pub topics: Map<Seq<char>, Option<Seq<u8>>>,
    pub ids: Map<Seq<char>, u128>,
}

/// The retained payload of a topic, if the topic exists and has one.
pub open spec fn retained_of(topics: Map<Seq<char>, Option<Seq<u8>>>, name: Seq<char>) -> Option<
    Seq<u8>,
> {
    if topics.contains_key(name) {
        topics[name]
    } else {
        None
    }
}

/// Get-or-create and retained upsert in one unit: the topic exists afterwards
/// and its retained payload is `payload`; no other topic changes.
pub open spec fn spec_commit(
    topics: Map<Seq<char>, Option<Seq<u8>>>,
    name: Seq<char>,
    payload: Seq<u8>,
) -> Map<Seq<char>, Option<Seq<u8>>> {
    topics.insert(name, Some(payload))
}

/// Replacing the retained payload of every topic whose identifier is `id`.
pub open spec fn spec_upsert(v: StoreView, id: u128, payload: Seq<u8>) -> Map<
    Seq<char>,
    Option<Seq<u8>>,
> {
    Map::new(
        |k: Seq<char>| v.topics.contains_key(k),
        |k: Seq<char>|
            if v.ids[k] == id {
                Some(payload)
            } else {
                v.topics[k]
            },
    )
}

pub open spec fn view_names(v: Seq<String>) -> Seq<Seq<char>> {
    v.map_values(|s: String| s@)
}

pub open spec fn opt_bytes(o: Option<Vec<u8>>) -> Option<Seq<u8>> {
    match o {
        Some(p) => Some(p@),
        None => None,
    }
}

struct TopicRow {
    name: String,
    id: u128,
    retained: Option<Vec<u8>>,
}

/// In-memory metadata store: one row per topic name, kept in name order,
/// holding the topic's identifier and its latest retained payload.
pub struct MetadataStore {
    rows: Vec<TopicRow>,
    topics: Ghost<Map<Seq<char>, Option<Seq<u8>>>>,
    ids: Ghost<Map<Seq<char>, u128>>,
}

impl View for MetadataStore {
    type V = StoreView;

    closed spec fn view(&self) -> StoreView {
        StoreView { topics: self.topics@, ids: self.ids@ }
    }
}

impl MetadataStore {
    closed spec fn names(&self) -> Seq<Seq<char>> {
        self.rows@.map_values(|r: TopicRow| r.name@)
    }

    pub closed spec fn wf(&self) -> bool {
        &&& strictly_sorted(self.names())
        &&& self.ids@.dom() == self.topics@.dom()
        &&& forall|k: Seq<char>| #[trigger]
            self.topics@.contains_key(k) ==> self.names().contains(k)
        &&& forall|i: int|
            0 <= i < self.rows@.len() ==> self.topics@.contains_key(#[trigger] self.rows@[i].name@)
                && self.topics@[self.rows@[i].name@] == opt_bytes(self.rows@[i].retained)
                && self.ids@[self.rows@[i].name@] == self.rows@[i].id
    }

    pub fn new() -> (r: Self)
        ensures
            r.wf(),
            r@.topics.dom().is_empty(),
    {
        let r = MetadataStore { rows: Vec::new(), topics: Ghost(Map::empty()), ids: Ghost(Map::empty()) };
        assert(r.names() =~= Seq::<Seq<char>>::empty());
        r
    }

    /// Where `name` stands among the sorted rows: its row, or the position
    /// where a row for it belongs.
    fn locate(&self, name: &String) -> (r: (usize, bool))
        requires
            self.wf(),
        ensures
            r.0 <= self.rows@.len(),
            forall|k: int| 0 <= k < r.0 ==> name_lt(#[trigger] self.rows@[k].name@, name@),
            r.1 ==> r.0 < self.rows@.len() && self.rows@[r.0 as int].name@ == name@,
            !r.1 ==> forall|k: int|
                r.0 <= k < self.rows@.len() ==> name_lt(name@, #[trigger] self.rows@[k].name@),
            r.1 == self.topics@.contains_key(name@),
    {
        let mut i: usize = 0;
        while i < self.rows.len()
            invariant
                self.wf(),
                i <= self.rows@.len(),
                forall|k: int| 0 <= k < i ==> name_lt(#[trigger] self.rows@[k].name@, name@),
            decreases self.rows@.len() - i,
        {
            let c = compare_names(&self.rows[i].name, name);
            match c {
                Ordering::Less => {
                    i = i + 1;
                },
                Ordering::Equal => {
                    assert(self.topics@.contains_key(self.rows@[i as int].name@));
                    return (i, true);
                },
                Ordering::Greater => {
                    proof { self.lemma_absent(name@, i as int); }
                    return (i, false);
                },
            }
        }
        proof { self.lemma_absent(name@, i as int); }
        (i, false)
    }

    proof fn lemma_absent(&self, name: Seq<char>, i: int)
        requires
            self.wf(),
            0 <= i <= self.rows@.len(),
            forall|k: int| 0 <= k < i ==> name_lt(#[trigger] self.rows@[k].name@, name),
            i < self.rows@.len() ==> name_lt(name, self.rows@[i].name@),
        ensures
            forall|k: int| i <= k < self.rows@.len() ==> name_lt(name, #[trigger] self.rows@[k].name@),
            !self.topics@.contains_key(name),
    {
        assert forall|k: int| i <= k < self.rows@.len() implies name_lt(name, #[trigger] self.rows@[k].name@) by {
            if k > i {
                assert(self.names()[i] == self.rows@[i].name@);
                assert(self.names()[k] == self.rows@[k].name@);
                lemma_name_lt_transitive(name, self.rows@[i].name@, self.rows@[k].name@);
            }
        }
        if self.topics@.contains_key(name) {
            let k = choose|k: int| 0 <= k < self.names().len() && self.names()[k] == name;
            assert(self.rows@[k].name@ == name);
            lemma_name_lt_irreflexive(name);
        }
    }

    /// Adds a row for a name that has none, at the position `locate` gave.
    fn insert_row(&mut self, i: usize, name: &String, id: u128, retained: Option<Vec<u8>>)
        requires
            old(self).wf(),
            i <= old(self).rows@.len(),
            forall|k: int| 0 <= k < i ==> name_lt(#[trigger] old(self).rows@[k].name@, name@),
            forall|k: int|
                i <= k < old(self).rows@.len() ==> name_lt(name@, #[trigger] old(self).rows@[k].name@),
            !old(self)@.topics.contains_key(name@),
        ensures
            final(self).wf(),
            final(self)@.topics == old(self)@.topics.insert(name@, opt_bytes(retained)),
            final(self)@.ids == old(self)@.ids.insert(name@, id),
    {
        let ghost rv = opt_bytes(retained);
        let row = TopicRow { name: name.clone(), id, retained };
        self.rows.insert(i, row);
        self.topics = Ghost(self.topics@.insert(name@, rv));
        self.ids = Ghost(self.ids@.insert(name@, id));
        let ghost on = old(self).names();
        assert(self.names() =~= on.insert(i as int, name@));
        assert forall|a: int, b: int| 0 <= a < b < self.names().len() implies name_lt(
            self.names()[a],
            self.names()[b],
        ) by {
            if b < i {
                assert(on[a] == old(self).rows@[a].name@);
            } else if b == i {
                assert(self.names()[a] == old(self).rows@[a].name@);
            } else if a == i {
                assert(self.names()[b] == old(self).rows@[b - 1].name@);
            } else if a < i {
                assert(on[a] == self.names()[a]);
                assert(on[b - 1] == self.names()[b]);
            } else {
                assert(on[a - 1] == self.names()[a]);
                assert(on[b - 1] == self.names()[b]);
            }
        }
        assert forall|k: Seq<char>| #[trigger] self.topics@.contains_key(k) implies self.names().contains(k) by {
            if k == name@ {
                assert(self.names()[i as int] == k);
            } else {
                assert(old(self).topics@.contains_key(k));
                let j = choose|j: int| 0 <= j < on.len() && on[j] == k;
                if j < i {
                    assert(self.names()[j] == k);
                } else {
                    assert(self.names()[j + 1] == k);
                }
            }
        }
        assert forall|k: int| 0 <= k < self.rows@.len() implies self.topics@.contains_key(
            #[trigger] self.rows@[k].name@,
        ) && self.topics@[self.rows@[k].name@] == opt_bytes(self.rows@[k].retained)
            && self.ids@[self.rows@[k].name@] == self.rows@[k].id by {
            if k < i {
                assert(self.rows@[k] == old(self).rows@[k]);
                assert(old(self).topics@.contains_key(old(self).rows@[k].name@));
            } else if k > i {
                assert(self.rows@[k] == old(self).rows@[k - 1]);
                assert(old(self).topics@.contains_key(old(self).rows@[k - 1].name@));
            }
        }
        assert(self.ids@.dom() =~= self.topics@.dom());
    }

    /// The topic's identifier; a new name gets a row with a fresh identifier
    /// and no retained payload.
    pub fn get_or_create_topic(&mut self, name: &String) -> (id: u128)
        requires
            old(self).wf(),
        ensures
            final(self).wf(),
            old(self)@.topics.contains_key(name@) ==> final(self)@ == old(self)@ && id
                == old(self)@.ids[name@],
            !old(self)@.topics.contains_key(name@) ==> final(self)@.topics == old(
                self,
            )@.topics.insert(name@, None) && final(self)@.ids == old(self)@.ids.insert(name@, id),
    {
        let (i, found) = self.locate(name);
        if found {
            self.rows[i].id
        } else {
            let id = fresh_topic_id();
            self.insert_row(i, name, id, None);
            id
        }
    }

    /// Replaces the retained payload of the topic whose identifier is
    /// `topic_id`; nothing changes if no topic has it.
    pub fn upsert_retained(&mut self, topic_id: u128, payload: Vec<u8>)
        requires
            old(self).wf(),
        ensures
            final(self).wf(),
            final(self)@.topics == spec_upsert(old(self)@, topic_id, payload@),
            final(self)@.ids == old(self)@.ids,
    {
        let ghost target = spec_upsert(old(self)@, topic_id, payload@);
        let mut i: usize = 0;
        while i < self.rows.len()
            invariant
                old(self).wf(),
                i <= self.rows@.len(),
                self.rows@.len() == old(self).rows@.len(),
                self.topics == old(self).topics,
                self.ids == old(self).ids,
                forall|k: int|
                    0 <= k < self.rows@.len() ==> (#[trigger] self.rows@[k]).name@ == old(
                        self,
                    ).rows@[k].name@ && self.rows@[k].id == old(self).rows@[k].id,
                forall|k: int|
                    0 <= k < i ==> opt_bytes(#[trigger] self.rows@[k].retained) == (if self.rows@[k].id
                        == topic_id {
                        Some(payload@)
                    } else {
                        opt_bytes(old(self).rows@[k].retained)
                    }),
                forall|k: int|
                    i <= k < self.rows@.len() ==> #[trigger] self.rows@[k].retained == old(
                        self,
                    ).rows@[k].retained,
            decreases self.rows@.len() - i,
        {
            if self.rows[i].id == topic_id {
                let copy = payload.clone();
                assert(copy@ =~= payload@);
                let row = TopicRow { name: self.rows[i].name.clone(), id: topic_id, retained: Some(copy) };
                self.rows.set(i, row);
            }
            i = i + 1;
        }
        self.topics = Ghost(target);
        assert(self.names() =~= old(self).names());
        assert forall|k: int| 0 <= k < self.rows@.len() implies self.topics@.contains_key(
            #[trigger] self.rows@[k].name@,
        ) && self.topics@[self.rows@[k].name@] == opt_bytes(self.rows@[k].retained)
            && self.ids@[self.rows@[k].name@] == self.rows@[k].id by {
            assert(old(self).topics@.contains_key(old(self).rows@[k].name@));
        }
        assert forall|k: Seq<char>| #[trigger] self.topics@.contains_key(k) implies self.names().contains(k) by {
            assert(old(self).topics@.contains_key(k));
        }
        assert(self.ids@.dom() =~= self.topics@.dom());
    }

    /// Creates the topic's row if needed and replaces its retained payload, as
    /// one unit. Returns the topic's identifier.
    pub fn commit_retained(&mut self, name: &String, payload: Vec<u8>) -> (id: u128)
        requires
            old(self).wf(),
        ensures
            final(self).wf(),
            final(self)@.topics == spec_commit(old(self)@.topics, name@, payload@),
            final(self)@.ids.dom() == old(self)@.ids.dom().insert(name@),
            old(self)@.ids.contains_key(name@) ==> final(self)@.ids == old(self)@.ids,
            final(self)@.ids[name@] == id,
    {
        let (i, found) = self.locate(name);
        if found {
            let id = self.rows[i].id;
            let ghost p = payload@;
            let row = TopicRow { name: self.rows[i].name.clone(), id, retained: Some(payload) };
            self.rows.set(i, row);
            self.topics = Ghost(self.topics@.insert(name@, Some(p)));
            let ghost on = old(self).names();
            assert(self.names() =~= on);
            assert forall|k: int| 0 <= k < self.rows@.len() implies self.topics@.contains_key(
                #[trigger] self.rows@[k].name@,
            ) && self.topics@[self.rows@[k].name@] == opt_bytes(self.rows@[k].retained)
                && self.ids@[self.rows@[k].name@] == self.rows@[k].id by {
                if k != i {
                    assert(self.rows@[k] == old(self).rows@[k]);
                    assert(on[k] != on[i as int]) by {
                        if k < i {
                            assert(name_lt(on[k], on[i as int]));
                        } else {
                            assert(name_lt(on[i as int], on[k]));
                        }
                        lemma_name_lt_irreflexive(on[k]);
                    }
                }
            }
            assert forall|k: Seq<char>| #[trigger] self.topics@.contains_key(k) implies self.names().contains(k) by {
                if k == name@ {
                    assert(self.names()[i as int] == k);
                } else {
                    assert(old(self).topics@.contains_key(k));
                }
            }
            assert(self.ids@.dom() =~= self.topics@.dom());
            assert(self.ids@.dom() =~= old(self).ids@.dom().insert(name@));
            id
        } else {
            let id = fresh_topic_id();
            self.insert_row(i, name, id, Some(payload));
            id
        }
    }

    /// The topic's retained payload; `None` for an unknown topic or one that
    /// has none.
    pub fn get_retained(&self, name: &String) -> (r: Option<Vec<u8>>)
        requires
            self.wf(),
        ensures
            opt_bytes(r) == retained_of(self@.topics, name@),
    {
        let (i, found) = self.locate(name);
        if found {
            assert(self.topics@.contains_key(self.rows@[i as int].name@));
            match &self.rows[i].retained {
                Some(p) => {
                    let c = p.clone();
                    assert(c@ =~= p@);
                    Some(c)
                },
                None => None,
            }
        } else {
            None
        }
    }

    /// Every topic name, in increasing order.
    pub fn list_topic_names(&self) -> (r: Vec<String>)
        requires
            self.wf(),
        ensures
            strictly_sorted(view_names(r@)),
            forall|k: Seq<char>|
                view_names(r@).contains(k) <==> self@.topics.contains_key(k),
    {
        let mut out: Vec<String> = Vec::new();
        let mut i: usize = 0;
        while i < self.rows.len()
            invariant
                self.wf(),
                i <= self.rows@.len(),
                out@.len() == i,
                forall|k: int| 0 <= k < i ==> (#[trigger] out@[k])@ == self.rows@[k].name@,
            decreases self.rows@.len() - i,
        {
            out.push(self.rows[i].name.clone());
            i = i + 1;
        }
        assert(view_names(out@) =~= self.names());
        out
    }
}

} // verus!
