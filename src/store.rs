use vstd::prelude::*;
use vstd::utf8::{decode_utf8, encode_utf8, valid_utf8};
use crate::types::KVPair;

verus! {

broadcast use vstd::utf8::encode_utf8_valid_utf8, vstd::utf8::encode_utf8_decode_utf8,
    vstd::utf8::decode_utf8_encode_utf8;

/// The embedded ordered store.
#[verifier::external_type_specification]
#[verifier::external_body]
pub struct ExDb(sled::Db);

/// The store's error, carried per entry of a scan.
#[verifier::external_type_specification]
#[verifier::external_body]
pub struct ExSledError(sled::Error);

/// What a sled database holds: key bytes to value bytes.
pub uninterp spec fn store_entries(db: sled::Db) -> Map<Seq<u8>, Seq<u8>>;

/// The JSON value that a byte text parses to, if it parses.
pub uninterp spec fn json_parse(bytes: Seq<u8>) -> Option<serde_json::Value>;

/// The compact JSON text of a value.
pub uninterp spec fn json_text(v: serde_json::Value) -> Seq<char>;

/// One entry as a scan of the store hands it out.
pub type RawEntry = Result<(Vec<u8>, Vec<u8>), sled::Error>;

pub open spec fn raw_ok(e: RawEntry) -> bool {
    e is Ok
}

pub open spec fn raw_key(e: RawEntry) -> Seq<u8> {
    match e {
        Ok((k, _)) => k@,
        Err(_) => Seq::empty(),
    }
}

pub open spec fn raw_value(e: RawEntry) -> Seq<u8> {
    match e {
        Ok((_, v)) => v@,
        Err(_) => Seq::empty(),
    }
}

/// Strict lexicographic order on byte strings.
pub open spec fn bytes_lt(a: Seq<u8>, b: Seq<u8>) -> bool {
    exists|i: int|
        0 <= i <= a.len() && i <= b.len() && #[trigger] a.take(i) == b.take(i) && (
        (i == a.len() && i < b.len()) || (i < a.len() && i < b.len() && a[i] < b[i]))
}

/// The bytes under which a key is stored.
pub open spec fn key_bytes(k: Seq<char>) -> Seq<u8> {
    encode_utf8(k)
}

/// A key starts with a prefix, byte for byte.
pub open spec fn starts_with(k: Seq<char>, p: Seq<char>) -> bool {
    key_bytes(p).is_prefix_of(key_bytes(k))
}

/// The pair (k, v) is in the store: the bytes of `k` are a key whose value
/// parses to `v`.
pub open spec fn stored(entries: Map<Seq<u8>, Seq<u8>>, k: Seq<char>, v: serde_json::Value) -> bool {
    entries.contains_key(key_bytes(k)) && json_parse(entries[key_bytes(k)]) == Some(v)
}

/// The effect of writing `v` under `k`.
pub open spec fn entries_after_insert(
    entries: Map<Seq<u8>, Seq<u8>>,
    k: Seq<char>,
    v: serde_json::Value,
) -> Map<Seq<u8>, Seq<u8>> {
    entries.insert(key_bytes(k), encode_utf8(json_text(v)))
}

/// The pair that a scanned entry decodes to, if its key is UTF-8 and its
/// value is JSON.
pub open spec fn decoded(e: RawEntry) -> Option<(Seq<char>, serde_json::Value)> {
    if raw_ok(e) && valid_utf8(raw_key(e)) && json_parse(raw_value(e)) is Some {
        Some((decode_utf8(raw_key(e)), json_parse(raw_value(e))->Some_0))
    } else {
        None
    }
}

/// The decodable entries of a scan, in scan order.
pub open spec fn decoded_all(s: Seq<RawEntry>) -> Seq<(Seq<char>, serde_json::Value)>
    decreases s.len(),
{
    if s.len() == 0 {
        Seq::empty()
    } else {
        let init = decoded_all(s.drop_last());
        match decoded(s.last()) {
            Some(p) => init.push(p),
            None => init,
        }
    }
}

pub open spec fn pair_view(p: KVPair) -> (Seq<char>, serde_json::Value) {
    (p.key@, p.value)
}

pub open spec fn pair_views(s: Seq<KVPair>) -> Seq<(Seq<char>, serde_json::Value)> {
    s.map_values(|p: KVPair| pair_view(p))
}

/// Every pair is stored under a key that starts with `p`.
pub open spec fn scan_sound(
    entries: Map<Seq<u8>, Seq<u8>>,
    p: Seq<char>,
    r: Seq<(Seq<char>, serde_json::Value)>,
) -> bool {
    forall|i: int| 0 <= i < r.len() ==> stored(entries, #[trigger] r[i].0, r[i].1) && starts_with(r[i].0, p)
}

/// The keys ascend strictly, byte for byte.
pub open spec fn scan_sorted(r: Seq<(Seq<char>, serde_json::Value)>) -> bool {
    forall|i: int, j: int| 0 <= i < j < r.len() ==> bytes_lt(key_bytes(#[trigger] r[i].0), key_bytes(#[trigger] r[j].0))
}

/// Every stored pair whose key starts with `p` is there.
pub open spec fn scan_complete(
    entries: Map<Seq<u8>, Seq<u8>>,
    p: Seq<char>,
    r: Seq<(Seq<char>, serde_json::Value)>,
) -> bool {
    forall|k: Seq<char>, v: serde_json::Value| #[trigger] stored(entries, k, v) && starts_with(k, p)
        ==> r.contains((k, v))
}

/// What a scan of the store under `p` hands out, when no entry failed to read.
pub open spec fn is_prefix_scan(
    entries: Map<Seq<u8>, Seq<u8>>,
    p: Seq<char>,
    r: Seq<(Seq<char>, serde_json::Value)>,
) -> bool {
    scan_sound(entries, p, r) && scan_sorted(r) && scan_complete(entries, p, r)
}

/// What a scan of `entries` under the prefix bytes `pb` may hand out:
/// each entry read is stored and under the prefix, the entries read ascend
/// by key, and when none failed every key under the prefix came.
pub open spec fn scan_of(entries: Map<Seq<u8>, Seq<u8>>, pb: Seq<u8>, r: Seq<RawEntry>) -> bool {
    &&& forall|i: int| 0 <= i < r.len() && raw_ok(#[trigger] r[i]) ==> {
        &&& entries.contains_key(raw_key(r[i]))
        &&& entries[raw_key(r[i])] == raw_value(r[i])
        &&& pb.is_prefix_of(raw_key(r[i]))
    }
    &&& forall|i: int, j: int| 0 <= i < j < r.len() && raw_ok(#[trigger] r[i]) && raw_ok(#[trigger] r[j])
        ==> bytes_lt(raw_key(r[i]), raw_key(r[j]))
    &&& intact(r) ==> forall|k: Seq<u8>| #[trigger] entries.contains_key(k) && pb.is_prefix_of(k)
        ==> exists|i: int| 0 <= i < r.len() && #[trigger] raw_key(r[i]) == k
}

/// No entry of the scan failed to read.
pub open spec fn intact(r: Seq<RawEntry>) -> bool {
    forall|i: int| 0 <= i < r.len() ==> raw_ok(#[trigger] r[i])
}

/// Relies on sled's `Tree::insert`: once it succeeds the key holds the
/// value and the other keys are as they were.
#[verifier::external_body]
pub(crate) fn sled_insert(db: &mut sled::Db, key: &str, value: &str) -> (r: Result<(), sled::Error>)
    ensures
        r is Ok ==> store_entries(*final(db)) == store_entries(*old(db)).insert(
            key_bytes(key@),
            key_bytes(value@),
        ),
{
    db.insert(key, value).map(|_| ())
}

/// One point read of the store.
pub type RawRead = Result<Option<Vec<u8>>, sled::Error>;

/// What a point read of `entries` under the key bytes `kb` may hand out:
/// the value stored there, nothing when there is none, or a failure.
pub open spec fn read_of(entries: Map<Seq<u8>, Seq<u8>>, kb: Seq<u8>, r: RawRead) -> bool {
    &&& r matches Ok(Some(v)) ==> entries.contains_key(kb) && entries[kb] == v@
    &&& r matches Ok(None) ==> !entries.contains_key(kb)
}

/// The value a point read gives: the parsed bytes when some were read.
pub open spec fn read_value(r: RawRead) -> Option<serde_json::Value> {
    match r {
        Ok(Some(b)) => json_parse(b@),
        _ => None,
    }
}

/// The value a point read gives, when it read bytes that parse as JSON.
pub fn value_of_read(read: &RawRead) -> (r: Option<serde_json::Value>)
    ensures
        r == read_value(*read),
{
    match read {
        Ok(Some(b)) => parse_json(b.as_slice()),
        _ => None,
    }
}

/// Relies on sled's `Tree::get`: the value stored under the key, if any.
#[verifier::external_body]
fn sled_get(db: &sled::Db, key: &str) -> (r: RawRead)
    ensures
        read_of(store_entries(*db), key_bytes(key@), r),
{
    db.get(key).map(|o| o.map(|v| v.to_vec()))
}

/// Relies on sled's `Tree::scan_prefix`: the entries whose keys start with
/// the prefix, in ascending key order; each one read may instead fail.
#[verifier::external_body]
fn sled_scan_prefix(db: &sled::Db, prefix: &str) -> (r: Vec<RawEntry>)
    ensures
        scan_of(store_entries(*db), key_bytes(prefix@), r@),
{
    db.scan_prefix(prefix).map(|e| e.map(|(k, v)| (k.to_vec(), v.to_vec()))).collect()
}

/// Relies on `Db`'s `Clone`: the copy is a handle on the same database.
#[verifier::external_body]
pub(crate) fn sled_handle(db: &sled::Db) -> (r: sled::Db)
    ensures
        store_entries(r) == store_entries(*db),
{
    db.clone()
}

/// Relies on `serde_json::from_slice::<Value>`.
#[verifier::external_body]
fn parse_json(bytes: &[u8]) -> (r: Option<serde_json::Value>)
    ensures
        r == json_parse(bytes@),
{
    serde_json::from_slice(bytes).ok()
}

/// Relies on `serde_json::to_string` on a `Value`, whose serialisation
/// does not fail: a map's keys are strings.
#[verifier::external_body]
pub(crate) fn json_to_text(v: &serde_json::Value) -> (r: String)
    ensures
        r@ == json_text(*v),
{
    serde_json::to_string(v).unwrap()
}

/// Relies on `std::str::from_utf8`: it accepts exactly the valid UTF-8 and
/// keeps the text.
#[verifier::external_body]
fn utf8_text(b: &[u8]) -> (r: Option<String>)
    ensures
        r is Some <==> valid_utf8(b@),
        r matches Some(s) ==> s@ == decode_utf8(b@),
{
    std::str::from_utf8(b).ok().map(|s| s.to_string())
}


proof fn lemma_decoded_origin(s: Seq<RawEntry>)
    ensures
        forall|a: int| 0 <= a < decoded_all(s).len() ==> exists|i: int|
            0 <= i < s.len() && decoded(s[i]) == Some(#[trigger] decoded_all(s)[a]),
    decreases s.len(),
{
    if s.len() > 0 {
        let t = s.drop_last();
        lemma_decoded_origin(t);
        let init = decoded_all(t);
        assert forall|a: int| 0 <= a < decoded_all(s).len() implies exists|i: int|
            0 <= i < s.len() && decoded(s[i]) == Some(#[trigger] decoded_all(s)[a]) by {
            if a < init.len() {
                let i = choose|i: int| 0 <= i < t.len() && decoded(t[i]) == Some(init[a]);
                assert(t[i] == s[i]);
            } else {
                assert(decoded(s[s.len() - 1]) == Some(decoded_all(s)[a]));
            }
        }
    }
}

proof fn lemma_decoded_sorted(s: Seq<RawEntry>)
    requires
        forall|i: int, j: int| 0 <= i < j < s.len() && raw_ok(#[trigger] s[i]) && raw_ok(#[trigger] s[j])
            ==> bytes_lt(raw_key(s[i]), raw_key(s[j])),
    ensures
        scan_sorted(decoded_all(s)),
    decreases s.len(),
{
    if s.len() > 0 {
        let t = s.drop_last();
        assert forall|i: int, j: int| 0 <= i < j < t.len() && raw_ok(#[trigger] t[i]) && raw_ok(#[trigger] t[j])
            implies bytes_lt(raw_key(t[i]), raw_key(t[j])) by {
            assert(t[i] == s[i] && t[j] == s[j]);
        }
        lemma_decoded_sorted(t);
        lemma_decoded_origin(t);
        let init = decoded_all(t);
        let out = decoded_all(s);
        if let Some(p) = decoded(s.last()) {
            assert forall|a: int, b: int| 0 <= a < b < out.len() implies bytes_lt(
                key_bytes(#[trigger] out[a].0),
                key_bytes(#[trigger] out[b].0),
            ) by {
                if b < init.len() {
                    assert(out[a] == init[a] && out[b] == init[b]);
                } else {
                    let i = choose|i: int| 0 <= i < t.len() && decoded(t[i]) == Some(init[a]);
                    assert(t[i] == s[i]);
                    assert(out[a] == init[a]);
                    assert(key_bytes(out[a].0) == raw_key(s[i]));
                    assert(key_bytes(out[b].0) == raw_key(s[s.len() - 1]));
                }
            }
        }
    }
}

proof fn lemma_decoded_complete(s: Seq<RawEntry>)
    ensures
        forall|i: int| 0 <= i < s.len() && (#[trigger] decoded(s[i])) is Some ==> decoded_all(s).contains(
            decoded(s[i])->Some_0,
        ),
    decreases s.len(),
{
    if s.len() > 0 {
        let t = s.drop_last();
        lemma_decoded_complete(t);
        let init = decoded_all(t);
        let out = decoded_all(s);
        assert forall|i: int| 0 <= i < s.len() && (#[trigger] decoded(s[i])) is Some implies out.contains(
            decoded(s[i])->Some_0,
        ) by {
            if i < t.len() {
                assert(t[i] == s[i]);
                let a = choose|a: int| 0 <= a < init.len() && init[a] == decoded(t[i])->Some_0;
                assert(out[a] == init[a]);
            } else {
                assert(out[out.len() - 1] == decoded(s[i])->Some_0);
            }
        }
    }
}

/// The pairs decoded from a scan of the store are stored under the
/// prefix and ascend by key; when no entry failed to read, no stored pair
/// under the prefix is missing.
pub proof fn lemma_scan_decoded(entries: Map<Seq<u8>, Seq<u8>>, p: Seq<char>, raw: Seq<RawEntry>)
    requires
        scan_of(entries, key_bytes(p), raw),
    ensures
        scan_sound(entries, p, decoded_all(raw)),
        scan_sorted(decoded_all(raw)),
        intact(raw) ==> is_prefix_scan(entries, p, decoded_all(raw)),
{
    let s = raw;
    let out = decoded_all(s);
    lemma_decoded_origin(s);
    lemma_decoded_sorted(s);
    lemma_decoded_complete(s);
    assert forall|a: int| 0 <= a < out.len() implies stored(entries, #[trigger] out[a].0, out[a].1)
        && starts_with(out[a].0, p) by {
        let i = choose|i: int| 0 <= i < s.len() && decoded(s[i]) == Some(out[a]);
        assert(key_bytes(out[a].0) == raw_key(s[i]));
    }
    if intact(s) {
        assert forall|k: Seq<char>, v: serde_json::Value| #[trigger] stored(entries, k, v) && starts_with(k, p)
            implies out.contains((k, v)) by {
            let i = choose|i: int| 0 <= i < s.len() && #[trigger] raw_key(s[i]) == key_bytes(k);
            assert(raw_ok(s[i]));
            assert(decoded(s[i]) == Some((k, v)));
        }
    }
}

/// The decodable entries of a scan, as pairs, in scan order: entries that
/// failed to read, keys that are not UTF-8 and values that are not JSON are
/// skipped.
pub fn decode_entries(raw: &Vec<RawEntry>) -> (r: Vec<KVPair>)
    ensures
        pair_views(r@) == decoded_all(raw@),
{
    let mut r: Vec<KVPair> = Vec::new();
    let mut i: usize = 0;
    while i < raw.len()
        invariant
            0 <= i <= raw@.len(),
            pair_views(r@) == decoded_all(raw@.take(i as int)),
        decreases raw@.len() - i,
    {
        let ghost before = r@;
        assert(raw@.take(i as int + 1).drop_last() == raw@.take(i as int));
        assert(raw@.take(i as int + 1).last() == raw@[i as int]);
        match &raw[i] {
            Ok((k, v)) => {
                match utf8_text(k.as_slice()) {
                    Some(key) => {
                        match parse_json(v.as_slice()) {
                            Some(value) => {
                                r.push(KVPair { key, value });
                                assert(pair_views(r@) =~= pair_views(before).push(pair_view(r@.last())));
                            },
                            None => {},
                        }
                    },
                    None => {},
                }
            },
            Err(_) => {},
        }
        i += 1;
    }
    assert(raw@.take(raw@.len() as int) == raw@);
    r
}

/// Whether every entry of a scan was read without failure.
pub fn all_read(raw: &Vec<RawEntry>) -> (r: bool)
    ensures
        r == intact(raw@),
{
    let mut i: usize = 0;
    while i < raw.len()
        invariant
            0 <= i <= raw@.len(),
            forall|j: int| 0 <= j < i ==> raw_ok(#[trigger] raw@[j]),
        decreases raw@.len() - i,
    {
        if raw[i].is_err() {
            return false;
        }
        i += 1;
    }
    true
}

/// Whether `k` starts with `p`, byte for byte.
pub fn key_starts_with(k: &str, p: &str) -> (r: bool)
    ensures
        r == starts_with(k@, p@),
{
    let kb = k.as_bytes();
    let pb = p.as_bytes();
    if pb.len() > kb.len() {
        return false;
    }
    let mut i: usize = 0;
    while i < pb.len()
        invariant
            kb@ == key_bytes(k@),
            pb@ == key_bytes(p@),
            pb@.len() <= kb@.len(),
            0 <= i <= pb@.len(),
            forall|j: int| 0 <= j < i ==> kb@[j] == pb@[j],
        decreases pb@.len() - i,
    {
        if kb[i] != pb[i] {
            assert(kb@.take(pb@.len() as int)[i as int] != pb@[i as int]);
            return false;
        }
        i += 1;
    }
    assert(kb@.take(pb@.len() as int) =~= pb@);
    true
}

/// A read-only handle on the store, handed to procedures.
pub struct DBRead {
    db: sled::Db,
}

impl DBRead {
    /// What the store holds, seen through this handle.
    pub closed spec fn entries(&self) -> Map<Seq<u8>, Seq<u8>> {
        store_entries(self.db)
    }

    pub fn new(db: sled::Db) -> (r: DBRead)
        ensures
            r.entries() == store_entries(db),
    {
        DBRead { db }
    }

    /// The value stored under `key`, when it can be read and parsed: an
    /// absent key, a failed read or bytes that are not JSON give nothing.
    pub fn get(&self, key: &str) -> (r: Option<serde_json::Value>)
        ensures
            exists|read: RawRead| #![trigger read_value(read)]
                read_of(self.entries(), key_bytes(key@), read) && r == read_value(read),
            r matches Some(v) ==> stored(self.entries(), key@, v),
    {
        let read = sled_get(&self.db, key);
        let r = value_of_read(&read);
        assert(read_of(self.entries(), key_bytes(key@), read) && r == read_value(read));
        r
    }

    /// The stored pairs whose keys start with `prefix`, in ascending key
    /// order, and whether every entry was read without failure; when it
    /// was, no stored pair under the prefix is missing.
    pub fn scan_prefix(&self, prefix: &str) -> (r: (Vec<KVPair>, bool))
        ensures
            exists|raw: Seq<RawEntry>| #![trigger decoded_all(raw)]
                scan_of(self.entries(), key_bytes(prefix@), raw) && pair_views(r.0@) == decoded_all(raw) && r.1
                    == intact(raw),
            scan_sound(self.entries(), prefix@, pair_views(r.0@)),
            scan_sorted(pair_views(r.0@)),
            r.1 ==> is_prefix_scan(self.entries(), prefix@, pair_views(r.0@)),
    {
        let raw = sled_scan_prefix(&self.db, prefix);
        let whole = all_read(&raw);
        let pairs = decode_entries(&raw);
        proof {
            lemma_scan_decoded(self.entries(), prefix@, raw@);
        }
        (pairs, whole)
    }

    /// The stored pairs whose keys start with `prefix`, in ascending key
    /// order, as key and value.
    pub fn get_prefix_parsed(&self, prefix: &str) -> (r: Vec<(String, serde_json::Value)>)
        ensures
            exists|raw: Seq<RawEntry>| #![trigger decoded_all(raw)]
                scan_of(self.entries(), key_bytes(prefix@), raw) && r@.map_values(
                    |e: (String, serde_json::Value)| (e.0@, e.1),
                ) == decoded_all(raw),
            scan_sound(self.entries(), prefix@, r@.map_values(|e: (String, serde_json::Value)| (e.0@, e.1))),
            scan_sorted(r@.map_values(|e: (String, serde_json::Value)| (e.0@, e.1))),
    {
        let pairs = self.get_prefix(prefix);
        let mut r: Vec<(String, serde_json::Value)> = Vec::new();
        let mut i: usize = 0;
        while i < pairs.len()
            invariant
                0 <= i <= pairs@.len(),
                r@.map_values(|e: (String, serde_json::Value)| (e.0@, e.1)) == pair_views(pairs@).take(i as int),
            decreases pairs@.len() - i,
        {
            let p = pairs[i].duplicate();
            let ghost before = r@;
            r.push((p.key, p.value));
            assert(r@ == before.push(r@.last()));
            assert(before.map_values(|e: (String, serde_json::Value)| (e.0@, e.1)).len() == i);
            assert forall|j: int| 0 <= j < i implies #[trigger] r@[j] == before[j] by {}
            assert(r@.map_values(|e: (String, serde_json::Value)| (e.0@, e.1)) =~= pair_views(pairs@).take(i as int + 1));
            i += 1;
        }
        assert(pair_views(pairs@).take(pairs@.len() as int) =~= pair_views(pairs@));
        r
    }

    /// The stored pairs whose keys start with `prefix`, in ascending key order.
    pub fn get_prefix(&self, prefix: &str) -> (r: Vec<KVPair>)
        ensures
            exists|raw: Seq<RawEntry>| #![trigger decoded_all(raw)]
                scan_of(self.entries(), key_bytes(prefix@), raw) && pair_views(r@) == decoded_all(raw),
            scan_sound(self.entries(), prefix@, pair_views(r@)),
            scan_sorted(pair_views(r@)),
    {
        self.scan_prefix(prefix).0
    }
}

} // verus!
