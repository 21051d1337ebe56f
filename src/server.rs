use vstd::prelude::*;
use crate::types::{GetFn, KVPair, Query, QueryKind, QueryType, Response, SelectorView};
use crate::store::{
    DBRead, RawEntry, decoded_all, entries_after_insert, intact, json_to_text, key_bytes, key_starts_with,
    pair_views, scan_of, sled_handle, sled_insert, starts_with, store_entries,
};

verus! {

broadcast use vstd::seq_lib::group_filter_ensures;

/// A watch as the core sees it: the client, the query id, the selector.
pub type WatchView = (u128, Seq<char>, SelectorView);

/// A standing subscription of one client under one query id.
pub struct Watch {
    pub client_id: u128,
    pub query_id: String,
    pub search: GetFn,
}

impl Watch {
    pub open spec fn view(&self) -> WatchView {
        (self.client_id, self.query_id@, self.search.view())
    }

    pub fn duplicate(&self) -> (r: Watch)
        ensures
            r.view() == self.view(),
    {
        Watch { client_id: self.client_id, query_id: self.query_id.clone(), search: self.search.duplicate() }
    }
}

/// What the event queue carries into the core.
pub enum ServerEvent {
    ClientConnected(u128),
    ClientDisconnected(u128),
    ClientQuery(u128, Query),
}

/// What the core asks of the loop around it.
pub enum Action {
    /// Write the response on the client's writer.
    Send(u128, Response),
    /// Post the query, as the client's, at the back of the event queue.
    Post(u128, Query),
}

pub enum ActionView {
    Send(u128, Seq<char>, Seq<(Seq<char>, serde_json::Value)>),
    Post(u128, Seq<char>, QueryKind),
}

impl Action {
    pub open spec fn view(&self) -> ActionView {
        match self {
            Action::Send(c, r) => ActionView::Send(*c, r.view().0, r.view().1),
            Action::Post(c, q) => ActionView::Post(*c, q.view().0, q.view().1),
        }
    }
}

pub open spec fn action_views(s: Seq<Action>) -> Seq<ActionView> {
    s.map_values(|a: Action| a.view())
}

pub open spec fn watch_views(s: Seq<Watch>) -> Seq<WatchView> {
    s.map_values(|w: Watch| w.view())
}

/// Whether an insert under `key` re-evaluates a watch on `sel`: a prefix
/// watch when the key starts with its prefix; a procedure watch when the
/// procedure's name starts with the key. The procedure rule is the one that
/// existing clients of the protocol see, kept as it is: a procedure watch
/// is not re-evaluated on every insert.
pub open spec fn matches_insert(sel: SelectorView, key: Seq<char>) -> bool {
    match sel {
        SelectorView::Prefix(p) => starts_with(key, p),
        SelectorView::Procedure(name, _) => starts_with(name, key),
    }
}

pub open spec fn not_of_client(c: u128) -> spec_fn(WatchView) -> bool {
    |w: WatchView| w.0 != c
}

pub open spec fn not_of_query(q: Seq<char>) -> spec_fn(WatchView) -> bool {
    |w: WatchView| w.1 != q
}

pub open spec fn notified_by(key: Seq<char>) -> spec_fn(WatchView) -> bool {
    |w: WatchView| matches_insert(w.2, key)
}

pub open spec fn not_client(c: u128) -> spec_fn(u128) -> bool {
    |x: u128| x != c
}

/// The re-evaluation that an insert posts for a watch.
pub open spec fn notification(w: WatchView) -> ActionView {
    ActionView::Post(w.0, w.1, QueryKind::Get(w.2))
}

/// The re-evaluations that an insert under `key` posts, in watch order.
pub open spec fn notifications(watches: Seq<WatchView>, key: Seq<char>) -> Seq<ActionView> {
    watches.filter(notified_by(key)).map_values(|w: WatchView| notification(w))
}

/// The single-serializer core: it owns the client table, the watch table
/// and the store, and turns each event into a new state and the actions
/// that the loop around it carries out. Its procedures are one function
/// from the index of a registered name, a read-only store and an argument
/// to a result set.
pub struct Server<P: Fn(usize, DBRead, serde_json::Value) -> Vec<KVPair>> {
    clients: Vec<u128>,
    watches: Vec<Watch>,
    db: sled::Db,
    names: Vec<String>,
    procedures: P,
}

impl<P: Fn(usize, DBRead, serde_json::Value) -> Vec<KVPair>> Server<P> {
    pub closed spec fn clients(&self) -> Seq<u128> {
        self.clients@
    }

    pub closed spec fn watches(&self) -> Seq<WatchView> {
        watch_views(self.watches@)
    }

    pub closed spec fn entries(&self) -> Map<Seq<u8>, Seq<u8>> {
        store_entries(self.db)
    }

    pub closed spec fn names(&self) -> Seq<Seq<char>> {
        self.names@.map_values(|n: String| n@)
    }

    pub closed spec fn table(&self) -> P {
        self.procedures
    }

    /// The procedure first registered under `name`, called on the store and
    /// `arg`, returned a result set whose pairs are `res`.
    pub open spec fn procedure_gives(&self, name: Seq<char>, arg: serde_json::Value, res: Seq<(Seq<char>, serde_json::Value)>) -> bool {
        exists|i: usize, d: DBRead, out: Vec<KVPair>| #[trigger] call_ensures(self.table(), (i, d, arg), out)
            && self.first_index(name, i as int) && d.entries() == self.entries() && pair_views(out@) == res
    }

    /// `i` is the first index at which `name` is registered.
    pub open spec fn first_index(&self, name: Seq<char>, i: int) -> bool {
        &&& 0 <= i < self.names().len()
        &&& self.names()[i] == name
        &&& forall|j: int| 0 <= j < i ==> self.names()[j] != name
    }

    pub open spec fn has_client(&self, c: u128) -> bool {
        self.clients().contains(c)
    }

    /// Each client is in the table once, every watch belongs to a client in
    /// the table, and the procedures take any input.
    pub open spec fn wf(&self) -> bool {
        &&& forall|i: usize, d: DBRead, a: serde_json::Value| #[trigger] call_requires(self.table(), (i, d, a))
        &&& self.clients().no_duplicates()
        &&& forall|i: int| 0 <= i < self.watches().len() ==> self.has_client(#[trigger] self.watches()[i].0)
    }

    /// The same clients, watches, store and procedures.
    pub open spec fn same_state(&self, other: &Self) -> bool {
        &&& self.clients() == other.clients()
        &&& self.watches() == other.watches()
        &&& self.entries() == other.entries()
        &&& self.names() == other.names()
    }

    pub open spec fn connect_post(&self, new: &Self, c: u128) -> bool {
        &&& new.clients() == if self.has_client(c) { self.clients() } else { self.clients().push(c) }
        &&& new.watches() == self.watches()
        &&& new.entries() == self.entries()
        &&& new.names() == self.names()
        &&& new.table() == self.table()
    }

    pub open spec fn disconnect_post(&self, new: &Self, c: u128) -> bool {
        &&& new.clients() == self.clients().filter(not_client(c))
        &&& new.watches() == self.watches().filter(not_of_client(c))
        &&& new.entries() == self.entries()
        &&& new.names() == self.names()
        &&& new.table() == self.table()
    }

    /// What answering `GET(sel)` under `q` for client `c` hands back, and
    /// whether the store was read without failure.
    pub open spec fn get_post(&self, c: u128, q: Seq<char>, sel: SelectorView, r: Seq<ActionView>, ok: bool) -> bool {
        if !self.has_client(c) {
            r.len() == 0 && ok
        } else {
            match sel {
                SelectorView::Prefix(p) => {
                    &&& r.len() == 1
                    &&& r[0] is Send
                    &&& r[0]->Send_0 == c
                    &&& r[0]->Send_1 == q
                    &&& exists|raw: Seq<RawEntry>| #![trigger decoded_all(raw)]
                        scan_of(self.entries(), key_bytes(p), raw) && r[0]->Send_2 == decoded_all(raw) && ok
                            == intact(raw)
                },
                SelectorView::Procedure(name, arg) => if self.names().contains(name) {
                    &&& r.len() == 1
                    &&& r[0] is Send
                    &&& r[0]->Send_0 == c
                    &&& r[0]->Send_1 == q
                    &&& ok
                    &&& self.procedure_gives(name, arg, r[0]->Send_2)
                } else {
                    r.len() == 0 && ok
                },
            }
        }
    }

    pub open spec fn watch_post(&self, new: &Self, c: u128, q: Seq<char>, sel: SelectorView, r: Seq<ActionView>) -> bool {
        &&& new.clients() == self.clients()
        &&& new.entries() == self.entries()
        &&& new.names() == self.names()
        &&& new.table() == self.table()
        &&& if self.has_client(c) {
            &&& new.watches() == self.watches().push((c, q, sel))
            &&& r == seq![ActionView::Post(c, q, QueryKind::Get(sel))]
        } else {
            &&& new.watches() == self.watches()
            &&& r.len() == 0
        }
    }

    pub open spec fn unwatch_post(&self, new: &Self, q: Seq<char>) -> bool {
        &&& new.clients() == self.clients()
        &&& new.watches() == self.watches().filter(not_of_query(q))
        &&& new.entries() == self.entries()
        &&& new.names() == self.names()
        &&& new.table() == self.table()
    }

    /// Writing `v` under `k`: when the write went through (`written`), the
    /// store holds it and one re-evaluation is posted per matching watch;
    /// when it failed, nothing is posted. The tables stay as they were.
    pub open spec fn insert_post(
        &self,
        new: &Self,
        k: Seq<char>,
        v: serde_json::Value,
        r: Seq<ActionView>,
        written: bool,
    ) -> bool {
        &&& new.clients() == self.clients()
        &&& new.watches() == self.watches()
        &&& new.names() == self.names()
        &&& new.table() == self.table()
        &&& written ==> new.entries() == entries_after_insert(self.entries(), k, v) && r == notifications(
            self.watches(),
            k,
        )
        &&& !written ==> r.len() == 0
    }

    pub fn new(db: sled::Db, names: Vec<String>, procedures: P) -> (r: Self)
        requires
            forall|i: usize, d: DBRead, a: serde_json::Value| #[trigger] call_requires(procedures, (i, d, a)),
        ensures
            r.wf(),
            r.clients() == Seq::<u128>::empty(),
            r.watches() == Seq::<WatchView>::empty(),
            r.entries() == store_entries(db),
            r.names() == names@.map_values(|n: String| n@),
    {
        Server { clients: Vec::new(), watches: Vec::new(), db, names, procedures }
    }

    /// Whether `c` is in the client table.
    pub fn is_connected(&self, c: u128) -> (r: bool)
        ensures
            r == self.has_client(c),
    {
        let mut i: usize = 0;
        while i < self.clients.len()
            invariant
                0 <= i <= self.clients@.len(),
                forall|j: int| 0 <= j < i ==> self.clients@[j] != c,
            decreases self.clients@.len() - i,
        {
            if self.clients[i] == c {
                return true;
            }
            i += 1;
        }
        false
    }

    /// The index of the first procedure registered under `name`.
    pub fn find_procedure(&self, name: &String) -> (r: Option<usize>)
        ensures
            r matches Some(i) ==> self.first_index(name@, i as int),
            r is None ==> !self.names().contains(name@),
    {
        let mut i: usize = 0;
        while i < self.names.len()
            invariant
                0 <= i <= self.names@.len(),
                forall|j: int| 0 <= j < i ==> self.names()[j] != name@,
            decreases self.names@.len() - i,
        {
            if self.names[i] == *name {
                return Some(i);
            }
            i += 1;
        }
        None
    }

    proof fn lemma_total(a: Self, b: Self)
        requires
            forall|i: usize, d: DBRead, x: serde_json::Value| #[trigger] call_requires(a.table(), (i, d, x)),
            b.table() == a.table(),
        ensures
            forall|i: usize, d: DBRead, x: serde_json::Value| #[trigger] call_requires(b.table(), (i, d, x)),
    {
    }

    pub fn connect(&mut self, c: u128)
        requires
            old(self).wf(),
        ensures
            final(self).wf(),
            old(self).connect_post(final(self), c),
    {
        if !self.is_connected(c) {
            self.clients.push(c);
            proof {
                Self::lemma_total(*old(self), *self);
                assert(self.watches() == old(self).watches());
                assert forall|i: int| 0 <= i < self.watches().len() implies self.has_client(
                    #[trigger] self.watches()[i].0,
                ) by {
                    assert(old(self).has_client(self.watches()[i].0));
                    let j = choose|j: int| 0 <= j < old(self).clients().len() && old(self).clients()[j] == self.watches()[i].0;
                    assert(self.clients()[j] == old(self).clients()[j]);
                }
            }
        }
    }

    /// Drops `c` from the client table, and every watch of `c` with it; the
    /// same step serves when a write to `c` fails.
    pub fn disconnect(&mut self, c: u128)
        requires
            old(self).wf(),
        ensures
            final(self).wf(),
            old(self).disconnect_post(final(self), c),
    {
        let mut clients: Vec<u128> = Vec::new();
        let mut i: usize = 0;
        while i < self.clients.len()
            invariant
                0 <= i <= self.clients@.len(),
                clients@ == self.clients@.take(i as int).filter(not_client(c)),
            decreases self.clients@.len() - i,
        {
            proof {
                reveal(Seq::filter);
                assert(self.clients@.take(i as int + 1).drop_last() == self.clients@.take(i as int));
            }
            if self.clients[i] != c {
                clients.push(self.clients[i]);
            }
            i += 1;
        }
        assert(self.clients@.take(self.clients@.len() as int) == self.clients@);
        let watches = self.watches_where(c, None);
        proof {
            lemma_filter_no_duplicates(self.clients@, not_client(c));
        }
        let ghost before = *self;
        self.clients = clients;
        self.watches = watches;
        proof {
            Self::lemma_total(before, *self);
            assert forall|i: int| 0 <= i < self.watches().len() implies self.has_client(
                #[trigger] self.watches()[i].0,
            ) by {
                let w = self.watches()[i];
                assert(not_of_client(c)(w));
                assert(self.watches().contains(w));
                before.watches().lemma_filter_contains_rev(not_of_client(c), w);
                let k = choose|k: int| 0 <= k < before.watches().len() && before.watches()[k] == w;
                assert(before.has_client(before.watches()[k].0));
                let j = choose|j: int| 0 <= j < before.clients().len() && before.clients()[j] == w.0;
                assert(not_client(c)(before.clients()[j]));
            }
        }
    }

    /// A copy of the watches that belong to no client `c`, or, given a query
    /// id, of those under another id.
    fn watches_where(&self, c: u128, q: Option<&String>) -> (r: Vec<Watch>)
        ensures
            q is None ==> watch_views(r@) == self.watches().filter(not_of_client(c)),
            q matches Some(q) ==> watch_views(r@) == self.watches().filter(not_of_query(q@)),
    {
        let ghost f = match q {
            Some(q) => not_of_query(q@),
            None => not_of_client(c),
        };
        let mut r: Vec<Watch> = Vec::new();
        let mut i: usize = 0;
        while i < self.watches.len()
            invariant
                0 <= i <= self.watches@.len(),
                f == match q {
                    Some(q) => not_of_query(q@),
                    None => not_of_client(c),
                },
                watch_views(r@) == self.watches().take(i as int).filter(f),
            decreases self.watches@.len() - i,
        {
            proof {
                reveal(Seq::filter);
                assert(self.watches().take(i as int + 1).drop_last() == self.watches().take(i as int));
            }
            let w = &self.watches[i];
            let keep = match q {
                Some(q) => w.query_id != *q,
                None => w.client_id != c,
            };
            if keep {
                let ghost before = r@;
                r.push(w.duplicate());
                assert(watch_views(r@) =~= watch_views(before).push(w.view()));
            }
            i += 1;
        }
        assert(self.watches().take(self.watches@.len() as int) == self.watches());
        r
    }

    /// Evaluates `search` for client `c` and addresses the result to it
    /// under `query_id`; a client that is gone, or a procedure that is not
    /// registered, gets nothing. The flag tells whether the store was read
    /// without failure.
    pub fn answer(&self, c: u128, query_id: String, search: GetFn) -> (r: (Vec<Action>, bool))
        requires
            self.wf(),
        ensures
            self.get_post(c, query_id@, search.view(), action_views(r.0@), r.1),
    {
        let ghost sel = search.view();
        let mut r: Vec<Action> = Vec::new();
        if !self.is_connected(c) {
            assert(action_views(r@) =~= Seq::<ActionView>::empty());
            return (r, true);
        }
        match search {
            GetFn::Prefix(p) => {
                let (query_res, whole) = DBRead::new(sled_handle(&self.db)).scan_prefix(p.as_str());
                let resp = Response { query_id, query_res };
                assert(resp.view().1 =~= pair_views(resp.query_res@));
                r.push(Action::Send(c, resp));
                assert(action_views(r@) =~= seq![r@[0].view()]);
                (r, whole)
            },
            GetFn::Procedure(name, arg) => {
                match self.find_procedure(&name) {
                    Some(i) => {
                        let db = DBRead::new(sled_handle(&self.db));
                        let ghost d = db;
                        let ghost a = arg;
                        assert(call_requires(self.table(), (i, d, a)));
                        let out = (self.procedures)(i, db, arg);
                        assert(call_ensures(self.table(), (i, d, a), out));
                        let resp = Response { query_id, query_res: out };
                        assert(resp.view().1 =~= pair_views(resp.query_res@));
                        r.push(Action::Send(c, resp));
                        assert(action_views(r@) =~= seq![r@[0].view()]);
                        assert(self.first_index(name@, i as int));
                        assert(d.entries() == self.entries());
                        assert(action_views(r@)[0]->Send_2 == pair_views(out@));
                        assert(self.names()[i as int] == name@);
                        assert(self.names().contains(name@));
                        assert(self.procedure_gives(name@, a, action_views(r@)[0]->Send_2));
                        (r, true)
                    },
                    None => {
                        assert(action_views(r@) =~= Seq::<ActionView>::empty());
                        (r, true)
                    },
                }
            },
        }
    }

    /// Registers a watch of client `c` and posts its first evaluation. A
    /// client that is not in the table registers nothing, so that every
    /// watch belongs to a connected client.
    pub fn watch(&mut self, c: u128, query_id: String, search: GetFn) -> (r: Vec<Action>)
        requires
            old(self).wf(),
        ensures
            final(self).wf(),
            old(self).watch_post(final(self), c, query_id@, search.view(), action_views(r@)),
    {
        let mut r: Vec<Action> = Vec::new();
        if !self.is_connected(c) {
            assert(action_views(r@) =~= Seq::<ActionView>::empty());
            return r;
        }
        let again = search.duplicate();
        let id = query_id.clone();
        let ghost before = self.watches@;
        self.watches.push(Watch { client_id: c, query_id, search });
        assert(self.watches() =~= watch_views(before).push(self.watches@.last().view()));
        proof {
            Self::lemma_total(*old(self), *self);
            assert forall|i: int| 0 <= i < self.watches().len() implies self.has_client(
                #[trigger] self.watches()[i].0,
            ) by {
                if i < before.len() {
                    assert(self.watches()[i] == old(self).watches()[i]);
                }
            }
        }
        r.push(Action::Post(c, Query { query_type: QueryType::GET(again), query_id: id }));
        assert(action_views(r@) =~= seq![r@[0].view()]);
        r
    }

    /// Drops every watch under `query_id`.
    pub fn unwatch(&mut self, query_id: &String)
        requires
            old(self).wf(),
        ensures
            final(self).wf(),
            old(self).unwatch_post(final(self), query_id@),
    {
        let watches = self.watches_where(0, Some(query_id));
        let ghost before = *self;
        self.watches = watches;
        proof {
            Self::lemma_total(before, *self);
            assert forall|i: int| 0 <= i < self.watches().len() implies self.has_client(
                #[trigger] self.watches()[i].0,
            ) by {
                let w = self.watches()[i];
                assert(self.watches().contains(w));
                before.watches().lemma_filter_contains_rev(not_of_query(query_id@), w);
                let k = choose|k: int| 0 <= k < before.watches().len() && before.watches()[k] == w;
                assert(before.has_client(before.watches()[k].0));
            }
        }
    }

    /// The re-evaluations that an insert under `key` posts: one for each
    /// matching watch, in watch order.
    pub fn notify(&self, key: &String) -> (r: Vec<Action>)
        ensures
            action_views(r@) == notifications(self.watches(), key@),
    {
        let mut r: Vec<Action> = Vec::new();
        assert(action_views(r@) =~= Seq::<ActionView>::empty());
        let mut i: usize = 0;
        while i < self.watches.len()
            invariant
                0 <= i <= self.watches@.len(),
                action_views(r@) == self.watches().take(i as int).filter(notified_by(key@)).map_values(
                    |w: WatchView| notification(w),
                ),
            decreases self.watches@.len() - i,
        {
            proof {
                reveal(Seq::filter);
                assert(self.watches().take(i as int + 1).drop_last() == self.watches().take(i as int));
            }
            let w = &self.watches[i];
            if matches_insert_exec(&w.search, key.as_str()) {
                let ghost before = r@;
                r.push(Action::Post(
                    w.client_id,
                    Query { query_type: QueryType::GET(w.search.duplicate()), query_id: w.query_id.clone() },
                ));
                assert(action_views(r@) =~= action_views(before).push(notification(w.view())));
                assert(self.watches().take(i as int + 1).filter(notified_by(key@)).map_values(
                    |w: WatchView| notification(w),
                ) =~= self.watches().take(i as int).filter(notified_by(key@)).map_values(
                    |w: WatchView| notification(w),
                ).push(notification(w.view())));
            }
            i += 1;
        }
        assert(self.watches().take(self.watches@.len() as int) == self.watches());
        r
    }

    /// Writes `value` under `key`; once the write goes through, posts one
    /// re-evaluation for each matching watch, in watch order. The flag
    /// tells whether the write went through.
    pub fn insert(&mut self, key: String, value: serde_json::Value) -> (r: (Vec<Action>, bool))
        requires
            old(self).wf(),
        ensures
            final(self).wf(),
            old(self).insert_post(final(self), key@, value, action_views(r.0@), r.1),
    {
        let none: Vec<Action> = Vec::new();
        assert(action_views(none@) =~= Seq::<ActionView>::empty());
        let text = json_to_text(&value);
        let written = sled_insert(&mut self.db, key.as_str(), text.as_str());
        proof {
            Self::lemma_total(*old(self), *self);
            assert(self.watches() == old(self).watches());
            assert forall|i: int| 0 <= i < self.watches().len() implies self.has_client(
                #[trigger] self.watches()[i].0,
            ) by {
                assert(old(self).has_client(old(self).watches()[i].0));
            }
        }
        match written {
            Ok(()) => (self.notify(&key), true),
            Err(_) => (none, false),
        }
    }

    /// Processes one event of the queue. The flag tells whether the store
    /// did all that the event asked of it: it is false only when a write,
    /// or a read of some entry, failed.
    pub fn handle_event(&mut self, event: ServerEvent) -> (r: (Vec<Action>, bool))
        requires
            old(self).wf(),
        ensures
            final(self).wf(),
            match event {
                ServerEvent::ClientConnected(c) => old(self).connect_post(final(self), c) && r.0@.len() == 0 && r.1,
                ServerEvent::ClientDisconnected(c) => old(self).disconnect_post(final(self), c) && r.0@.len() == 0
                    && r.1,
                ServerEvent::ClientQuery(c, q) => match q.query_type {
                    QueryType::GET(s) => final(self).same_state(old(self)) && old(self).get_post(
                        c,
                        q.query_id@,
                        s.view(),
                        action_views(r.0@),
                        r.1,
                    ),
                    QueryType::WATCH(s) => old(self).watch_post(
                        final(self),
                        c,
                        q.query_id@,
                        s.view(),
                        action_views(r.0@),
                    ) && r.1,
                    QueryType::UNWATCH => old(self).unwatch_post(final(self), q.query_id@) && r.0@.len() == 0 && r.1,
                    QueryType::INSERT(k, v) => old(self).insert_post(final(self), k@, v, action_views(r.0@), r.1),
                },
            },
    {
        match event {
            ServerEvent::ClientConnected(c) => {
                self.connect(c);
                (Vec::new(), true)
            },
            ServerEvent::ClientDisconnected(c) => {
                self.disconnect(c);
                (Vec::new(), true)
            },
            ServerEvent::ClientQuery(c, q) => match q.query_type {
                QueryType::GET(s) => self.answer(c, q.query_id, s),
                QueryType::WATCH(s) => (self.watch(c, q.query_id, s), true),
                QueryType::UNWATCH => {
                    self.unwatch(&q.query_id);
                    (Vec::new(), true)
                },
                QueryType::INSERT(k, v) => self.insert(k, v),
            },
        }
    }
}

/// Whether an insert under `key` re-evaluates a watch on `sel`.
pub fn matches_insert_exec(sel: &GetFn, key: &str) -> (r: bool)
    ensures
        r == matches_insert(sel.view(), key@),
{
    match sel {
        GetFn::Prefix(p) => key_starts_with(key, p.as_str()),
        GetFn::Procedure(name, _) => key_starts_with(name.as_str(), key),
    }
}

proof fn lemma_filter_no_duplicates<A>(s: Seq<A>, f: spec_fn(A) -> bool)
    requires
        s.no_duplicates(),
    ensures
        s.filter(f).no_duplicates(),
    decreases s.len(),
{
    reveal(Seq::filter);
    if s.len() > 0 {
        let t = s.drop_last();
        assert(t.no_duplicates());
        lemma_filter_no_duplicates(t, f);
        if f(s.last()) {
            let ft = t.filter(f);
            if ft.contains(s.last()) {
                t.lemma_filter_contains_rev(f, s.last());
                let j = choose|j: int| 0 <= j < t.len() && t[j] == s.last();
                assert(s[j] == s[s.len() - 1]);
            }
        }
    }
}

} // verus!
