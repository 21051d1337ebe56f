use vstd::prelude::*;

verus! {

/// The JSON values that the store holds and the wire carries.
#[verifier::external_type_specification]
#[verifier::external_body]
pub struct ExValue(serde_json::Value);

/// Relies on `Value`'s derived `Clone`: the copy holds the same JSON value.
#[verifier::external_body]
pub fn clone_value(v: &serde_json::Value) -> (r: serde_json::Value)
    ensures
        r == *v,
{
    v.clone()
}

/// One stored entry: a key and its JSON value.
pub struct KVPair {
    pub key: String,
    pub value: serde_json::Value,
}

/// What a read selects: every key under a prefix, or the result of a
/// registered procedure applied to an argument.
pub enum GetFn {
    Procedure(String, serde_json::Value),
    Prefix(String),
}

/// The four kinds of query a client can send.
pub enum QueryType {
    GET(GetFn),
    WATCH(GetFn),
    UNWATCH,
    INSERT(String, serde_json::Value),
}

/// A query and the client-chosen id that correlates its responses.
pub struct Query {
    pub query_type: QueryType,
    pub query_id: String,
}

/// The result set sent back under a query's id.
pub struct Response {
    pub query_id: String,
    pub query_res: Vec<KVPair>,
}

impl KVPair {
    pub fn duplicate(&self) -> (r: KVPair)
        ensures
            r.key@ == self.key@,
            r.value == self.value,
    {
        KVPair { key: self.key.clone(), value: clone_value(&self.value) }
    }
}

/// A selector, read with its strings as character sequences.
pub enum SelectorView {
    Procedure(Seq<char>, serde_json::Value),
    Prefix(Seq<char>),
}

impl GetFn {
    pub open spec fn view(&self) -> SelectorView {
        match self {
            GetFn::Procedure(name, arg) => SelectorView::Procedure(name@, *arg),
            GetFn::Prefix(p) => SelectorView::Prefix(p@),
        }
    }

    pub fn duplicate(&self) -> (r: GetFn)
        ensures
            r.view() == self.view(),
    {
        match self {
            GetFn::Procedure(name, arg) => GetFn::Procedure(name.clone(), clone_value(arg)),
            GetFn::Prefix(p) => GetFn::Prefix(p.clone()),
        }
    }
}


/// A query's kind, read with its strings as character sequences.
pub enum QueryKind {
    Get(SelectorView),
    Watch(SelectorView),
    Unwatch,
    Insert(Seq<char>, serde_json::Value),
}

impl QueryType {
    pub open spec fn view(&self) -> QueryKind {
        match self {
            QueryType::GET(s) => QueryKind::Get(s.view()),
            QueryType::WATCH(s) => QueryKind::Watch(s.view()),
            QueryType::UNWATCH => QueryKind::Unwatch,
            QueryType::INSERT(k, v) => QueryKind::Insert(k@, *v),
        }
    }
}

impl Query {
    pub open spec fn view(&self) -> (Seq<char>, QueryKind) {
        (self.query_id@, self.query_type.view())
    }
}

impl Response {
    pub open spec fn view(&self) -> (Seq<char>, Seq<(Seq<char>, serde_json::Value)>) {
        (self.query_id@, self.query_res@.map_values(|p: KVPair| (p.key@, p.value)))
    }
}

} // verus!
