use vstd::prelude::*;
use crate::types::{GetFn, KVPair, Query, QueryKind, QueryType, Response};

verus! {

/// The sending half of a response inbox.
#[verifier::external_type_specification]
#[verifier::external_body]
#[verifier::reject_recursive_types(T)]
pub struct ExSender<T>(crossbeam::channel::Sender<T>);

/// The receiving half of a response inbox.
#[verifier::external_type_specification]
#[verifier::external_body]
#[verifier::reject_recursive_types(T)]
pub struct ExReceiver<T>(crossbeam::channel::Receiver<T>);

/// Relies on crossbeam's `Sender::try_send`: it never blocks, and fails when
/// the receiving half is gone (or a bounded inbox is full), which nothing
/// here can tell in advance.
#[verifier::external_body]
fn deliver(inbox: &crossbeam::channel::Sender<Vec<KVPair>>, res: Vec<KVPair>) -> (r: bool) {
    inbox.try_send(res).is_ok()
}

/// Relies on crossbeam's `channel::unbounded`: a fresh inbox with no bound.
#[verifier::external_body]
fn new_inbox() -> (r: (crossbeam::channel::Sender<Vec<KVPair>>, crossbeam::channel::Receiver<Vec<KVPair>>)) {
    crossbeam::channel::unbounded()
}

/// Relies on uuid's `Uuid::new_v4`, written in its hyphenated form of 36
/// characters.
#[verifier::external_body]
fn fresh_query_id() -> (r: String)
    ensures
        r@.len() == 36,
{
    uuid::Uuid::new_v4().to_string()
}

/// Where the responses under one query id go, and whether more than one
/// is expected.
pub struct Callback {
    pub query_id: String,
    pub persistent: bool,
    pub inbox: crossbeam::channel::Sender<Vec<KVPair>>,
}

/// The client's callback table: one entry per query id that awaits
/// responses.
pub struct Correlator {
    entries: Vec<Callback>,
}

pub open spec fn no_duplicate_ids(s: Seq<(Seq<char>, bool)>) -> bool {
    forall|i: int, j: int| 0 <= i < j < s.len() ==> #[trigger] s[i].0 != #[trigger] s[j].0
}

pub open spec fn has_query(s: Seq<(Seq<char>, bool)>, q: Seq<char>) -> bool {
    exists|i: int| 0 <= i < s.len() && #[trigger] s[i].0 == q
}

/// The table once `q` has been registered, replacing any earlier entry
/// under `q`.
pub open spec fn registered(s: Seq<(Seq<char>, bool)>, q: Seq<char>, persistent: bool) -> Seq<(Seq<char>, bool)> {
    without(s, q).push((q, persistent))
}

/// The table with the entry under `q`, if any, removed.
pub open spec fn without(s: Seq<(Seq<char>, bool)>, q: Seq<char>) -> Seq<(Seq<char>, bool)> {
    s.filter(|e: (Seq<char>, bool)| e.0 != q)
}

impl Correlator {
    pub closed spec fn view(&self) -> Seq<(Seq<char>, bool)> {
        self.entries@.map_values(|c: Callback| (c.query_id@, c.persistent))
    }

    pub open spec fn wf(&self) -> bool {
        no_duplicate_ids(self.view())
    }

    /// The inbox registered under `q`, when there is one.
    pub closed spec fn inbox_of(&self, q: Seq<char>) -> crossbeam::channel::Sender<Vec<KVPair>> {
        self.entries@[choose|i: int| 0 <= i < self.entries@.len() && #[trigger] self.entries@[i].query_id@ == q].inbox
    }

    /// The inbox registered under `q`.
    pub fn route(&self, q: &String) -> (r: Option<&crossbeam::channel::Sender<Vec<KVPair>>>)
        requires
            self.wf(),
        ensures
            r is Some <==> has_query(self.view(), q@),
            r matches Some(s) ==> *s == self.inbox_of(q@),
    {
        match self.position(q) {
            Some(i) => {
                proof {
                    let j = choose|j: int| 0 <= j < self.entries@.len() && #[trigger] self.entries@[j].query_id@ == q@;
                    assert(self.view()[j].0 == q@);
                    if j != i as int {
                        assert(self.view()[i as int].0 != self.view()[j].0);
                    }
                }
                Some(&self.entries[i].inbox)
            },
            None => None,
        }
    }

    pub fn new() -> (r: Correlator)
        ensures
            r.wf(),
            r.view() == Seq::<(Seq<char>, bool)>::empty(),
    {
        let r = Correlator { entries: Vec::new() };
        assert(r.view() =~= Seq::<(Seq<char>, bool)>::empty());
        r
    }

    fn position(&self, q: &String) -> (r: Option<usize>)
        ensures
            r matches Some(i) ==> i < self.view().len() && self.view()[i as int].0 == q@,
            r is None ==> !has_query(self.view(), q@),
    {
        let mut i: usize = 0;
        while i < self.entries.len()
            invariant
                0 <= i <= self.entries@.len(),
                forall|j: int| 0 <= j < i ==> #[trigger] self.view()[j].0 != q@,
            decreases self.entries@.len() - i,
        {
            if self.entries[i].query_id == *q {
                return Some(i);
            }
            i += 1;
        }
        None
    }

    /// Drops the entry under `q`, if there is one.
    pub fn remove(&mut self, q: &String)
        requires
            old(self).wf(),
        ensures
            final(self).wf(),
            final(self).view() == without(old(self).view(), q@),
    {
        match self.position(q) {
            Some(i) => {
                let ghost before = self.view();
                self.entries.remove(i);
                proof {
                    assert(self.view() =~= before.remove(i as int));
                    lemma_remove_is_without(before, i as int);
                }
            },
            None => {
                proof {
                    lemma_absent_is_without(self.view(), q@);
                }
            },
        }
    }

    /// Registers an inbox under `q`, replacing any earlier one.
    fn register(&mut self, q: String, persistent: bool, inbox: crossbeam::channel::Sender<Vec<KVPair>>)
        requires
            old(self).wf(),
        ensures
            final(self).wf(),
            final(self).view() == registered(old(self).view(), q@, persistent),
            final(self).inbox_of(q@) == inbox,
    {
        self.remove(&q);
        let ghost before = self.view();
        self.entries.push(Callback { query_id: q, persistent, inbox });
        proof {
            assert(self.view() =~= before.push((q@, persistent)));
            assert forall|i: int| 0 <= i < before.len() implies #[trigger] before[i].0 != q@ by {
                assert(before.contains(before[i]));
            }
            let n = before.len() as int;
            assert(self.entries@[n].query_id@ == q@);
            let j = choose|j: int| 0 <= j < self.entries@.len() && #[trigger] self.entries@[j].query_id@ == q@;
            assert(self.view()[j].0 == q@);
            if j != n {
                assert(self.view()[n].0 == q@);
                assert(before[j].0 != q@);
            }
        }
    }

    /// Hands a response to the inbox registered under its query id. An
    /// entry that expects one response, or whose inbox is gone, is dropped
    /// afterwards; a response under an unknown id is ignored. Returns
    /// whether the response was delivered.
    pub fn dispatch(&mut self, response: Response) -> (r: bool)
        requires
            old(self).wf(),
        ensures
            final(self).wf(),
            !has_query(old(self).view(), response.query_id@) ==> final(self).view() == old(self).view() && !r,
            forall|i: int| 0 <= i < old(self).view().len() && #[trigger] old(self).view()[i].0 == response.query_id@
                ==> final(self).view() == if old(self).view()[i].1 && r {
                    old(self).view()
                } else {
                    without(old(self).view(), response.query_id@)
                },
    {
        let delivered = match self.route(&response.query_id) {
            None => return false,
            Some(inbox) => deliver(inbox, response.query_res),
        };
        let i = match self.position(&response.query_id) {
            Some(i) => i,
            None => return delivered,
        };
        if !(self.entries[i].persistent && delivered) {
            self.remove(&response.query_id);
        }
        delivered
    }

    /// Drops every entry, as when the connection ends.
    pub fn clear(&mut self)
        ensures
            final(self).wf(),
            final(self).view() == Seq::<(Seq<char>, bool)>::empty(),
    {
        self.entries = Vec::new();
        assert(self.view() =~= Seq::<(Seq<char>, bool)>::empty());
    }

    /// The query that writes `value` under `key`, under a fresh id; no
    /// response is awaited.
    pub fn insert_query(key: String, value: serde_json::Value) -> (r: Query)
        ensures
            r.query_type.view() == QueryKind::Insert(key@, value),
    {
        Query { query_type: QueryType::INSERT(key, value), query_id: fresh_query_id() }
    }

    /// The one-shot read of `search` under a fresh id, and the receiving
    /// half of a fresh inbox registered for its one response.
    pub fn get_query(&mut self, search: GetFn) -> (r: (Query, crossbeam::channel::Receiver<Vec<KVPair>>))
        requires
            old(self).wf(),
        ensures
            final(self).wf(),
            r.0.query_type.view() == QueryKind::Get(search.view()),
            final(self).view() == registered(old(self).view(), r.0.query_id@, false),
    {
        let (inbox, rx) = new_inbox();
        let query_id = fresh_query_id();
        self.register(query_id.clone(), false, inbox);
        (Query { query_type: QueryType::GET(search), query_id }, rx)
    }

    /// The subscription to `search` under a fresh id, and the receiving
    /// half of a fresh inbox registered for all its responses.
    pub fn watch_query(&mut self, search: GetFn) -> (r: (Query, crossbeam::channel::Receiver<Vec<KVPair>>))
        requires
            old(self).wf(),
        ensures
            final(self).wf(),
            r.0.query_type.view() == QueryKind::Watch(search.view()),
            final(self).view() == registered(old(self).view(), r.0.query_id@, true),
    {
        let (inbox, rx) = new_inbox();
        let query_id = fresh_query_id();
        self.register(query_id.clone(), true, inbox);
        (Query { query_type: QueryType::WATCH(search), query_id }, rx)
    }

    /// Tears down the handle under `q`: its entry goes, and the returned
    /// query cancels the server's watch under the same id.
    pub fn release(&mut self, q: String) -> (r: Query)
        requires
            old(self).wf(),
        ensures
            final(self).wf(),
            final(self).view() == without(old(self).view(), q@),
            !has_query(final(self).view(), q@),
            r.view() == (q@, QueryKind::Unwatch),
    {
        self.remove(&q);
        proof {
            lemma_without_lacks(old(self).view(), q@);
        }
        Query { query_type: QueryType::UNWATCH, query_id: q }
    }
}

proof fn lemma_without_lacks(s: Seq<(Seq<char>, bool)>, q: Seq<char>)
    ensures
        !has_query(without(s, q), q),
{
    broadcast use vstd::seq_lib::group_filter_ensures;

    let w = without(s, q);
    if has_query(w, q) {
        let i = choose|i: int| 0 <= i < w.len() && #[trigger] w[i].0 == q;
        assert((|e: (Seq<char>, bool)| e.0 != q)(w[i]));
    }
}

proof fn lemma_absent_is_without(s: Seq<(Seq<char>, bool)>, q: Seq<char>)
    requires
        !has_query(s, q),
    ensures
        without(s, q) == s,
    decreases s.len(),
{
    reveal(Seq::filter);
    if s.len() > 0 {
        let t = s.drop_last();
        assert(!has_query(t, q)) by {
            if has_query(t, q) {
                let i = choose|i: int| 0 <= i < t.len() && #[trigger] t[i].0 == q;
                assert(s[i].0 == q);
            }
        }
        lemma_absent_is_without(t, q);
        assert(s.last().0 != q) by {
            assert(s[s.len() - 1].0 != q);
        }
        assert(t.push(s.last()) =~= s);
    }
}

proof fn lemma_remove_is_without(s: Seq<(Seq<char>, bool)>, i: int)
    requires
        0 <= i < s.len(),
        no_duplicate_ids(s),
    ensures
        s.remove(i) == without(s, s[i].0),
        no_duplicate_ids(s.remove(i)),
    decreases s.len(),
{
    reveal(Seq::filter);
    let q = s[i].0;
    let t = s.drop_last();
    if i == s.len() - 1 {
        assert(!has_query(t, q)) by {
            if has_query(t, q) {
                let j = choose|j: int| 0 <= j < t.len() && #[trigger] t[j].0 == q;
                assert(s[j].0 == s[i].0);
            }
        }
        lemma_absent_is_without(t, q);
        assert(s.remove(i) =~= t);
    } else {
        assert(no_duplicate_ids(t)) by {
            assert forall|a: int, b: int| 0 <= a < b < t.len() implies #[trigger] t[a].0 != #[trigger] t[b].0 by {
                assert(s[a].0 != s[b].0);
            }
        }
        lemma_remove_is_without(t, i);
        assert(t[i] == s[i]);
        assert(s.last().0 != q) by {
            assert(s[s.len() - 1].0 != s[i].0);
        }
        assert(s.remove(i) =~= t.remove(i).push(s.last()));
    }
    assert(no_duplicate_ids(s.remove(i))) by {
        let r = s.remove(i);
        assert forall|a: int, b: int| 0 <= a < b < r.len() implies #[trigger] r[a].0 != #[trigger] r[b].0 by {
            let a2 = if a < i { a } else { a + 1 };
            let b2 = if b < i { b } else { b + 1 };
            assert(r[a] == s[a2] && r[b] == s[b2]);
        }
    }
}

} // verus!
