use std::collections::VecDeque;

use lvb::client::Correlator;
use lvb::server::{matches_insert_exec, Action, Server, ServerEvent};
use lvb::store::{key_starts_with, value_of_read, DBRead};
use lvb::types::{GetFn, KVPair, Query, QueryType, Response};
use serde_json::Value;

type Table = fn(usize, DBRead, Value) -> Vec<KVPair>;

// index 0 is "get_all": every stored pair
fn procedures(index: usize, db: DBRead, _arg: Value) -> Vec<KVPair> {
    assert_eq!(index, 0);
    db.get_prefix("")
}

fn temp_db() -> sled::Db {
    sled::Config::new().temporary(true).open().unwrap()
}

fn new_server() -> Server<Table> {
    Server::new(temp_db(), vec!["get_all".to_string()], procedures as Table)
}

fn obj(fields: &[(&str, &str)]) -> Value {
    let mut m = serde_json::Map::new();
    for (k, v) in fields {
        m.insert(k.to_string(), Value::from(*v));
    }
    Value::Object(m)
}

fn query(client: u128, id: &str, t: QueryType) -> ServerEvent {
    ServerEvent::ClientQuery(client, Query { query_type: t, query_id: id.to_string() })
}

fn prefix(p: &str) -> GetFn {
    GetFn::Prefix(p.to_string())
}

type Sent = (u128, String, Vec<(String, Value)>);

/// Feeds one event to the core and then every event it posts, in FIFO
/// order, as the server's loop does; returns the responses written.
fn run(server: &mut Server<Table>, event: ServerEvent) -> Vec<Sent> {
    let mut queue = VecDeque::new();
    queue.push_back(event);
    let mut sent = Vec::new();
    while let Some(e) = queue.pop_front() {
        for action in server.handle_event(e).0 {
            match action {
                Action::Send(c, r) => {
                    sent.push((c, r.query_id, r.query_res.into_iter().map(|p| (p.key, p.value)).collect()))
                }
                Action::Post(c, q) => queue.push_back(ServerEvent::ClientQuery(c, q)),
            }
        }
    }
    sent
}

fn connected(clients: &[u128]) -> Server<Table> {
    let mut s = new_server();
    for c in clients {
        assert!(run(&mut s, ServerEvent::ClientConnected(*c)).is_empty());
    }
    s
}

#[test]
fn insert_then_read_all() {
    let mut s = connected(&[1, 2]);
    let v = obj(&[("name", "thor"), ("jens", "karsten")]);
    assert!(run(&mut s, query(1, "i", QueryType::INSERT("user-1".to_string(), v.clone()))).is_empty());
    let sent = run(&mut s, query(2, "g", QueryType::GET(prefix(""))));
    assert_eq!(sent, vec![(2, "g".to_string(), vec![("user-1".to_string(), v)])]);
}

#[test]
fn watch_then_insert() {
    let mut s = connected(&[1, 2]);
    let sent = run(&mut s, query(1, "W", QueryType::WATCH(prefix("user-"))));
    assert_eq!(sent, vec![(1, "W".to_string(), vec![])]);
    let sent = run(&mut s, query(2, "i", QueryType::INSERT("user-42".to_string(), Value::from(7))));
    assert_eq!(sent, vec![(1, "W".to_string(), vec![("user-42".to_string(), Value::from(7))])]);
}

#[test]
fn unwatch_suppresses_notifications() {
    let mut s = connected(&[1, 2]);
    run(&mut s, query(1, "W", QueryType::WATCH(prefix("user-"))));
    run(&mut s, query(2, "i", QueryType::INSERT("user-42".to_string(), Value::from(7))));
    assert!(run(&mut s, query(1, "W", QueryType::UNWATCH)).is_empty());
    assert!(run(&mut s, query(2, "j", QueryType::INSERT("user-43".to_string(), Value::from(8)))).is_empty());
}

#[test]
fn two_watchers_one_insert() {
    let mut s = connected(&[1, 2, 3]);
    assert_eq!(run(&mut s, query(1, "a", QueryType::WATCH(prefix("")))).len(), 1);
    assert_eq!(run(&mut s, query(2, "b", QueryType::WATCH(prefix("")))).len(), 1);
    let sent = run(&mut s, query(3, "i", QueryType::INSERT("k".to_string(), Value::from("v"))));
    let pair = vec![("k".to_string(), Value::from("v"))];
    assert_eq!(sent, vec![(1, "a".to_string(), pair.clone()), (2, "b".to_string(), pair)]);
}

#[test]
fn procedure_watch_literal_rule() {
    let mut s = connected(&[1, 2]);
    let sent = run(&mut s, query(1, "P", QueryType::WATCH(GetFn::Procedure("get_all".to_string(), Value::Null))));
    assert_eq!(sent, vec![(1, "P".to_string(), vec![])]);
    // "get_all" does not start with "a": no follow-up
    assert!(run(&mut s, query(2, "i", QueryType::INSERT("a".to_string(), Value::from(1)))).is_empty());
    // "get_all" starts with "get": a follow-up with every pair
    let sent = run(&mut s, query(2, "j", QueryType::INSERT("get".to_string(), Value::from(2))));
    assert_eq!(
        sent,
        vec![(1, "P".to_string(), vec![("a".to_string(), Value::from(1)), ("get".to_string(), Value::from(2))])]
    );
}

#[test]
fn unknown_procedure_gets_no_response() {
    let mut s = connected(&[1]);
    let sent = run(&mut s, query(1, "x", QueryType::GET(GetFn::Procedure("nope".to_string(), Value::Null))));
    assert!(sent.is_empty());
}

#[test]
fn handle_drop_unwatch() {
    let mut c = Correlator::new();
    let (q, _rx) = c.watch_query(prefix("user-"));
    assert!(matches!(q.query_type, QueryType::WATCH(GetFn::Prefix(ref p)) if p == "user-"));
    let id = q.query_id.clone();
    let u = c.release(id.clone());
    assert_eq!(u.query_id, id);
    assert!(matches!(u.query_type, QueryType::UNWATCH));
    let delivered = c.dispatch(Response { query_id: id, query_res: vec![] });
    assert!(!delivered);
}

#[test]
fn echo_after_insert() {
    let mut s = connected(&[1]);
    let v = obj(&[("a", "b")]);
    run(&mut s, query(1, "i", QueryType::INSERT("k1".to_string(), v.clone())));
    let sent = run(&mut s, query(1, "g", QueryType::GET(prefix("k1"))));
    assert_eq!(sent, vec![(1, "g".to_string(), vec![("k1".to_string(), v)])]);
}

#[test]
fn overwrite_keeps_last_value() {
    let mut s = connected(&[1]);
    run(&mut s, query(1, "i", QueryType::INSERT("k".to_string(), Value::from(1))));
    run(&mut s, query(1, "j", QueryType::INSERT("k".to_string(), Value::from(2))));
    let sent = run(&mut s, query(1, "g", QueryType::GET(prefix(""))));
    assert_eq!(sent, vec![(1, "g".to_string(), vec![("k".to_string(), Value::from(2))])]);
}

#[test]
fn scan_is_ordered_and_closed_under_prefix() {
    let db = temp_db();
    for k in ["b2", "a", "b10", "b", "c", "b1"] {
        db.insert(k, serde_json::to_string(&Value::from(k)).unwrap().as_str()).unwrap();
    }
    let r = DBRead::new(db.clone());
    let keys: Vec<String> = r.get_prefix("b").into_iter().map(|p| p.key).collect();
    assert_eq!(keys, vec!["b", "b1", "b10", "b2"]);
    let (all, intact) = r.scan_prefix("");
    assert!(intact);
    let keys: Vec<String> = all.into_iter().map(|p| p.key).collect();
    assert_eq!(keys, vec!["a", "b", "b1", "b10", "b2", "c"]);
    assert!(r.get_prefix("d").is_empty());
}

#[test]
fn malformed_rows_are_skipped() {
    let db = temp_db();
    db.insert("good", "[1,2]").unwrap();
    db.insert("bad-json", "{nope").unwrap();
    db.insert(&[0xffu8, 0x01][..], "1").unwrap();
    let r = DBRead::new(db);
    let all = r.get_prefix("");
    assert_eq!(all.len(), 1);
    assert_eq!(all[0].key, "good");
    assert_eq!(all[0].value, Value::from(vec![1, 2]));
    assert_eq!(r.get("good"), Some(Value::from(vec![1, 2])));
    assert_eq!(r.get("bad-json"), None);
    assert_eq!(r.get("missing"), None);
}

#[test]
fn get_prefix_parsed_pairs() {
    let db = temp_db();
    db.insert("x1", "\"one\"").unwrap();
    db.insert("x2", "2").unwrap();
    db.insert("y", "3").unwrap();
    let r = DBRead::new(db);
    let pairs = r.get_prefix_parsed("x");
    assert_eq!(pairs, vec![("x1".to_string(), Value::from("one")), ("x2".to_string(), Value::from(2))]);
}

#[test]
fn insert_writes_compact_json() {
    let db = temp_db();
    let mut s = Server::new(db.clone(), vec![], procedures as Table);
    s.handle_event(ServerEvent::ClientConnected(1));
    s.handle_event(query(1, "i", QueryType::INSERT("user-1".to_string(), obj(&[("name", "thor")]))));
    let raw = db.get("user-1").unwrap().unwrap();
    assert_eq!(&raw[..], b"{\"name\":\"thor\"}");
}

#[test]
fn disconnect_cleans_watches() {
    let mut s = connected(&[1, 2]);
    run(&mut s, query(1, "W", QueryType::WATCH(prefix(""))));
    assert!(run(&mut s, ServerEvent::ClientDisconnected(1)).is_empty());
    assert!(!s.is_connected(1));
    assert!(run(&mut s, query(2, "i", QueryType::INSERT("k".to_string(), Value::from(1)))).is_empty());
    assert!(run(&mut s, query(1, "g", QueryType::GET(prefix("")))).is_empty());
    // a watch from a client that is gone is not registered
    assert!(run(&mut s, query(1, "V", QueryType::WATCH(prefix("")))).is_empty());
}

#[test]
fn watch_initial_comes_first() {
    let mut s = connected(&[1]);
    let posted = s.handle_event(query(1, "W", QueryType::WATCH(prefix("p")))).0;
    assert_eq!(posted.len(), 1);
    match &posted[0] {
        Action::Post(c, q) => {
            assert_eq!(*c, 1);
            assert_eq!(q.query_id, "W");
            assert!(matches!(q.query_type, QueryType::GET(GetFn::Prefix(ref p)) if p == "p"));
        }
        Action::Send(..) => panic!("a watch posts its first evaluation"),
    }
}

#[test]
fn duplicate_connect_is_one_client() {
    let mut s = connected(&[5, 5]);
    run(&mut s, ServerEvent::ClientDisconnected(5));
    assert!(!s.is_connected(5));
}

#[test]
fn find_procedure_by_name() {
    let s = new_server();
    assert_eq!(s.find_procedure(&"get_all".to_string()), Some(0));
    assert_eq!(s.find_procedure(&"get".to_string()), None);
}

#[test]
fn prefix_matching() {
    assert!(key_starts_with("user-1", "user-"));
    assert!(key_starts_with("user-1", ""));
    assert!(!key_starts_with("user", "user-"));
    assert!(!key_starts_with("usex-1", "user-"));
    assert!(key_starts_with("é-1", "é"));
    assert!(matches_insert_exec(&prefix("a"), "ab"));
    assert!(!matches_insert_exec(&prefix("b"), "ab"));
    assert!(matches_insert_exec(&GetFn::Procedure("get_all".to_string(), Value::Null), "get"));
    assert!(!matches_insert_exec(&GetFn::Procedure("get_all".to_string(), Value::Null), "a"));
}

#[test]
fn correlator_get_is_one_shot() {
    let mut c = Correlator::new();
    let (q, rx) = c.get_query(prefix(""));
    assert_eq!(q.query_id.len(), 36);
    let pair = KVPair { key: "k".to_string(), value: Value::from(1) };
    assert!(c.dispatch(Response { query_id: q.query_id.clone(), query_res: vec![pair] }));
    assert_eq!(rx.recv().unwrap()[0].key, "k");
    assert!(!c.dispatch(Response { query_id: q.query_id.clone(), query_res: vec![] }));
}

#[test]
fn correlator_watch_persists_until_receiver_gone() {
    let mut c = Correlator::new();
    let (q, rx) = c.watch_query(prefix(""));
    let one = vec![KVPair { key: "a".to_string(), value: Value::from(1) }];
    let two = vec![KVPair { key: "b".to_string(), value: Value::from(2) }];
    assert!(c.dispatch(Response { query_id: q.query_id.clone(), query_res: one }));
    assert!(c.dispatch(Response { query_id: q.query_id.clone(), query_res: two }));
    assert_eq!(rx.recv().unwrap()[0].key, "a");
    assert_eq!(rx.recv().unwrap()[0].key, "b");
    assert!(c.route(&q.query_id).is_some());
    drop(rx);
    assert!(!c.dispatch(Response { query_id: q.query_id.clone(), query_res: vec![] }));
    assert!(c.route(&q.query_id).is_none());
    let (w, _rx2) = c.watch_query(prefix(""));
    assert!(c.dispatch(Response { query_id: w.query_id.clone(), query_res: vec![] }));
    c.clear();
    assert!(!c.dispatch(Response { query_id: w.query_id, query_res: vec![] }));
}

#[test]
fn responses_reach_their_own_inbox() {
    let mut c = Correlator::new();
    let (a, rx_a) = c.watch_query(prefix("a"));
    let (b, rx_b) = c.watch_query(prefix("b"));
    let pair = vec![KVPair { key: "b1".to_string(), value: Value::from(1) }];
    assert!(c.dispatch(Response { query_id: b.query_id.clone(), query_res: pair }));
    assert!(rx_a.try_recv().is_err());
    assert_eq!(rx_b.try_recv().unwrap()[0].key, "b1");
    assert!(c.dispatch(Response { query_id: a.query_id.clone(), query_res: vec![] }));
    assert!(rx_a.try_recv().unwrap().is_empty());
    assert!(!c.dispatch(Response { query_id: "unknown".to_string(), query_res: vec![] }));
}

#[test]
fn store_flags_and_fan_out() {
    let mut s = connected(&[1, 2]);
    run(&mut s, query(1, "W", QueryType::WATCH(prefix("k"))));
    run(&mut s, query(2, "V", QueryType::WATCH(prefix("x"))));
    let (posted, written) = s.handle_event(query(1, "i", QueryType::INSERT("k1".to_string(), Value::from(1))));
    assert!(written);
    assert_eq!(posted.len(), 1);
    assert_eq!(s.notify(&"xy".to_string()).len(), 1);
    assert_eq!(s.notify(&"zz".to_string()).len(), 0);
    let (sent, whole) = s.handle_event(query(2, "g", QueryType::GET(prefix(""))));
    assert!(whole);
    assert_eq!(sent.len(), 1);
}

#[test]
fn point_reads() {
    assert_eq!(value_of_read(&Ok(None)), None);
    assert_eq!(value_of_read(&Ok(Some(b"[1]".to_vec()))), Some(Value::from(vec![1])));
    assert_eq!(value_of_read(&Ok(Some(b"{x".to_vec()))), None);
    let db = temp_db();
    let mut s = Server::new(db.clone(), vec![], procedures as Table);
    s.handle_event(ServerEvent::ClientConnected(1));
    s.handle_event(query(1, "i", QueryType::INSERT("user-1".to_string(), obj(&[("name", "thor")]))));
    assert_eq!(DBRead::new(db).get("user-1"), Some(obj(&[("name", "thor")])));
}

#[test]
fn insert_query_is_fresh() {
    let a = Correlator::insert_query("k".to_string(), Value::from(1));
    let b = Correlator::insert_query("k".to_string(), Value::from(1));
    assert_ne!(a.query_id, b.query_id);
    assert!(matches!(a.query_type, QueryType::INSERT(ref k, ref v) if k == "k" && *v == Value::from(1)));
}
