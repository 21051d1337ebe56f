use vstd::prelude::*;
use vstd::utf8::encode_utf8;
use crate::types::{QueryKind, SelectorView};
use crate::store::{
    RawEntry, decoded_all, entries_after_insert, intact, is_prefix_scan, json_parse, json_text, key_bytes,
    lemma_scan_decoded, scan_of, starts_with, stored,
};
use crate::types::KVPair;
use crate::store::DBRead;
use crate::server::{ActionView, Server, WatchView, notification, notifications, notified_by};

verus! {

broadcast use vstd::seq_lib::group_filter_ensures;

/// A value that reads back as itself once written: its JSON text parses to it.
pub open spec fn reads_back(v: serde_json::Value) -> bool {
    json_parse(encode_utf8(json_text(v))) == Some(v)
}

/// A value written under `k` is found by a scan under the prefix `k` that
/// reads every entry.
pub proof fn law_echo(entries: Map<Seq<u8>, Seq<u8>>, k: Seq<char>, v: serde_json::Value, raw: Seq<RawEntry>)
    requires
        reads_back(v),
        scan_of(entries_after_insert(entries, k, v), key_bytes(k), raw),
        intact(raw),
    ensures
        decoded_all(raw).contains((k, v)),
{
    let after = entries_after_insert(entries, k, v);
    lemma_scan_decoded(after, k, raw);
    assert(stored(after, k, v));
    assert(key_bytes(k).is_prefix_of(key_bytes(k))) by {
        assert(key_bytes(k).take(key_bytes(k).len() as int) =~= key_bytes(k));
    }
}

/// A stored pair is in a scan exactly when its key starts with the prefix,
/// and everything in a scan is stored.
pub proof fn law_prefix_closure(
    entries: Map<Seq<u8>, Seq<u8>>,
    p: Seq<char>,
    res: Seq<(Seq<char>, serde_json::Value)>,
)
    requires
        is_prefix_scan(entries, p, res),
    ensures
        forall|k: Seq<char>, v: serde_json::Value| #[trigger] stored(entries, k, v) ==> (res.contains((k, v))
            <==> starts_with(k, p)),
        forall|i: int| 0 <= i < res.len() ==> stored(entries, #[trigger] res[i].0, res[i].1),
{
    assert forall|k: Seq<char>, v: serde_json::Value| #[trigger] stored(entries, k, v) implies (res.contains((k, v))
        <==> starts_with(k, p)) by {
        if res.contains((k, v)) {
            let i = choose|i: int| 0 <= i < res.len() && res[i] == (k, v);
            assert(starts_with(res[i].0, p));
        }
    }
}

/// The keys of a scan ascend strictly, so no key comes twice.
pub proof fn law_ordering(
    entries: Map<Seq<u8>, Seq<u8>>,
    p: Seq<char>,
    res: Seq<(Seq<char>, serde_json::Value)>,
)
    requires
        is_prefix_scan(entries, p, res),
    ensures
        forall|i: int, j: int| 0 <= i < j < res.len() ==> crate::store::bytes_lt(
            key_bytes(#[trigger] res[i].0),
            key_bytes(#[trigger] res[j].0),
        ),
        forall|i: int, j: int| 0 <= i < j < res.len() ==> #[trigger] res[i].0 != #[trigger] res[j].0,
{
    assert forall|i: int, j: int| 0 <= i < j < res.len() implies #[trigger] res[i].0 != #[trigger] res[j].0 by {
        let a = key_bytes(res[i].0);
        let b = key_bytes(res[j].0);
        assert(crate::store::bytes_lt(a, b));
        if res[i].0 == res[j].0 {
            let n = choose|n: int| 0 <= n <= a.len() && n <= b.len() && #[trigger] a.take(n) == b.take(n) && (
                (n == a.len() && n < b.len()) || (n < a.len() && n < b.len() && a[n] < b[n]));
        }
    }
}

/// A scan under the empty prefix holds every stored pair.
pub proof fn law_empty_prefix_all(entries: Map<Seq<u8>, Seq<u8>>, res: Seq<(Seq<char>, serde_json::Value)>)
    requires
        is_prefix_scan(entries, Seq::empty(), res),
    ensures
        forall|k: Seq<char>, v: serde_json::Value| #[trigger] stored(entries, k, v) ==> res.contains((k, v)),
{
    assert(key_bytes(Seq::empty()) =~= Seq::<u8>::empty());
    assert forall|k: Seq<char>, v: serde_json::Value| #[trigger] stored(entries, k, v) implies res.contains((k, v)) by {
        assert(key_bytes(Seq::<char>::empty()).is_prefix_of(key_bytes(k))) by {
            assert(key_bytes(k).take(0) =~= Seq::<u8>::empty());
        }
    }
}

/// Two writes under one key leave what the second alone would: one entry
/// under the key, holding the second value.
pub proof fn law_overwrite(
    entries: Map<Seq<u8>, Seq<u8>>,
    k: Seq<char>,
    v1: serde_json::Value,
    v2: serde_json::Value,
)
    requires
        reads_back(v2),
    ensures
        entries_after_insert(entries_after_insert(entries, k, v1), k, v2) == entries_after_insert(entries, k, v2),
        forall|v: serde_json::Value| #[trigger] stored(entries_after_insert(entries_after_insert(entries, k, v1), k, v2), k, v)
            <==> v == v2,
{
    assert(entries_after_insert(entries_after_insert(entries, k, v1), k, v2) =~= entries_after_insert(entries, k, v2));
}

/// A watch registered for a connected client posts its first evaluation
/// under its own id, and that evaluation answers the client once.
pub proof fn law_watch_initial<P: Fn(usize, DBRead, serde_json::Value) -> Vec<KVPair>>(
    s0: Server<P>,
    s1: Server<P>,
    c: u128,
    q: Seq<char>,
    sel: SelectorView,
    posted: Seq<ActionView>,
    answered: Seq<ActionView>,
    ok: bool,
)
    requires
        s0.has_client(c),
        s0.watch_post(&s1, c, q, sel, posted),
        s1.get_post(c, q, sel, answered, ok),
        sel matches SelectorView::Procedure(name, _) ==> s0.names().contains(name),
    ensures
        posted == seq![ActionView::Post(c, q, QueryKind::Get(sel))],
        answered.len() == 1,
        answered[0] is Send,
        answered[0]->Send_0 == c,
        answered[0]->Send_1 == q,
{
}

/// An insert under a key that a prefix watch covers, once written, posts
/// a re-evaluation of that watch under its id; answering it, with a scan
/// that reads every entry, sends the watch's client a result that holds
/// the inserted pair.
pub proof fn law_watch_fan_out<P: Fn(usize, DBRead, serde_json::Value) -> Vec<KVPair>>(
    s0: Server<P>,
    s1: Server<P>,
    c: u128,
    q: Seq<char>,
    p: Seq<char>,
    k: Seq<char>,
    v: serde_json::Value,
    posted: Seq<ActionView>,
    answered: Seq<ActionView>,
)
    requires
        s0.wf(),
        s0.watches().contains((c, q, SelectorView::Prefix(p))),
        starts_with(k, p),
        reads_back(v),
        s0.insert_post(&s1, k, v, posted, true),
        s1.get_post(c, q, SelectorView::Prefix(p), answered, true),
    ensures
        posted.contains(ActionView::Post(c, q, QueryKind::Get(SelectorView::Prefix(p)))),
        answered.len() == 1,
        answered[0] == ActionView::Send(c, q, answered[0]->Send_2),
        answered[0]->Send_2.contains((k, v)),
{
    let w: WatchView = (c, q, SelectorView::Prefix(p));
    let ws = s0.watches();
    let i = choose|i: int| 0 <= i < ws.len() && ws[i] == w;
    assert(s0.has_client(ws[i].0));
    assert(s1.has_client(c));
    assert(notified_by(k)(ws[i]));
    ws.lemma_filter_contains(notified_by(k), i);
    let f = ws.filter(notified_by(k));
    let j = choose|j: int| 0 <= j < f.len() && f[j] == w;
    assert(notifications(ws, k)[j] == notification(w));
    let after = entries_after_insert(s0.entries(), k, v);
    let raw = choose|raw: Seq<RawEntry>| #![trigger decoded_all(raw)]
        scan_of(s1.entries(), key_bytes(p), raw) && answered[0]->Send_2 == decoded_all(raw) && true == intact(raw);
    lemma_scan_decoded(after, p, raw);
    assert(stored(after, k, v));
}

/// Once a query id is unwatched, no watch carries it, so no insert posts
/// anything under it.
pub proof fn law_unwatch_silences<P: Fn(usize, DBRead, serde_json::Value) -> Vec<KVPair>>(s0: Server<P>, s1: Server<P>, q: Seq<char>)
    requires
        s0.unwatch_post(&s1, q),
    ensures
        forall|i: int| 0 <= i < s1.watches().len() ==> (#[trigger] s1.watches()[i]).1 != q,
        forall|k: Seq<char>, i: int| 0 <= i < notifications(s1.watches(), k).len() ==> #[trigger] notifications(
            s1.watches(),
            k,
        )[i] != ActionView::Post(
            notifications(s1.watches(), k)[i]->Post_0,
            q,
            notifications(s1.watches(), k)[i]->Post_2,
        ),
{
    assert forall|i: int| 0 <= i < s1.watches().len() implies (#[trigger] s1.watches()[i]).1 != q by {
        assert(crate::server::not_of_query(q)(s1.watches()[i]));
    }
    assert forall|k: Seq<char>, i: int| 0 <= i < notifications(s1.watches(), k).len() implies #[trigger] notifications(
        s1.watches(),
        k,
    )[i] != ActionView::Post(
        notifications(s1.watches(), k)[i]->Post_0,
        q,
        notifications(s1.watches(), k)[i]->Post_2,
    ) by {
        let f = s1.watches().filter(notified_by(k));
        assert(f.contains(f[i]));
        s1.watches().lemma_filter_contains_rev(notified_by(k), f[i]);
        let j = choose|j: int| 0 <= j < s1.watches().len() && s1.watches()[j] == f[i];
        assert(s1.watches()[j].1 != q);
    }
}

/// After a client disconnects, none of its watches is left, and nothing is
/// answered to it.
pub proof fn law_disconnect_cleans<P: Fn(usize, DBRead, serde_json::Value) -> Vec<KVPair>>(
    s0: Server<P>,
    s1: Server<P>,
    c: u128,
    q: Seq<char>,
    sel: SelectorView,
    answered: Seq<ActionView>,
    ok: bool,
)
    requires
        s0.disconnect_post(&s1, c),
        s1.get_post(c, q, sel, answered, ok),
    ensures
        !s1.has_client(c),
        forall|i: int| 0 <= i < s1.watches().len() ==> (#[trigger] s1.watches()[i]).0 != c,
        answered.len() == 0,
{
    assert forall|i: int| 0 <= i < s1.watches().len() implies (#[trigger] s1.watches()[i]).0 != c by {
        assert(crate::server::not_of_client(c)(s1.watches()[i]));
    }
    if s1.has_client(c) {
        let i = choose|i: int| 0 <= i < s1.clients().len() && s1.clients()[i] == c;
        assert(crate::server::not_client(c)(s1.clients()[i]));
    }
}

} // verus!
