//! The node's store: a sled tree of byte keys and byte values.  Each kind of
//! record lives under its own key prefix; records are kept as the bytes the
//! caller serialized them to.
use vstd::prelude::*;
use vstd::string::StringSliceAdditionalSpecFns;
use vstd::utf8::encode_utf8;
use crate::content::texts;
use crate::moderation::{ReportTarget, target_code, target_code_of};

verus! {

// ---------------------------------------------------------------------
// The outside tree
// ---------------------------------------------------------------------

#[verifier::external_type_specification]
#[verifier::external_body]
pub struct ExDb(sled::Db);

/// The key-value pairs a sled tree holds.
pub uninterp spec fn db_contents(db: sled::Db) -> Map<Seq<u8>, Seq<u8>>;

/// `prefix` starts `key`.
pub open spec fn has_prefix(prefix: Seq<u8>, key: Seq<u8>) -> bool {
    prefix.len() <= key.len() && key.take(prefix.len() as int) == prefix
}

/// `a` sorts strictly before `b`, byte by byte.
pub open spec fn lex_lt(a: Seq<u8>, b: Seq<u8>) -> bool
    decreases a.len(),
{
    if b.len() == 0 {
        false
    } else if a.len() == 0 {
        true
    } else if a[0] < b[0] {
        true
    } else if a[0] > b[0] {
        false
    } else {
        lex_lt(a.drop_first(), b.drop_first())
    }
}

/// The key of a scanned entry (empty for a failed read).
pub open spec fn entry_key(e: Option<(Vec<u8>, Vec<u8>)>) -> Seq<u8> {
    match e {
        Some((k, _)) => k@,
        None => Seq::empty(),
    }
}

/// Every entry of a scan was read.
pub open spec fn all_some(entries: Seq<Option<(Vec<u8>, Vec<u8>)>>) -> bool {
    forall|i: int| 0 <= i < entries.len() ==> #[trigger] entries[i] is Some
}

/// Inserts `value` under `key` (`sled::Tree::insert`).  On success the tree
/// holds `value` there and is otherwise unchanged; after a failure nothing is
/// stated of the tree.
#[verifier::external_body]
fn db_insert(db: &mut sled::Db, key: &[u8], value: &[u8]) -> (ok: bool)
    ensures
        ok ==> db_contents(*final(db)) == db_contents(*old(db)).insert(key@, value@),
{
    db.insert(key, value).is_ok()
}

/// Removes `key` (`sled::Tree::remove`).  On success the tree no longer holds
/// `key` and is otherwise unchanged; after a failure nothing is stated.
#[verifier::external_body]
fn db_remove(db: &mut sled::Db, key: &[u8]) -> (ok: bool)
    ensures
        ok ==> db_contents(*final(db)) == db_contents(*old(db)).remove(key@),
{
    db.remove(key).is_ok()
}

/// Reads `key` (`sled::Tree::get`): `Some(Some(v))` when the tree holds `v`
/// there, `Some(None)` when it holds nothing there, `None` when the read
/// failed.
#[verifier::external_body]
fn db_get(db: &sled::Db, key: &[u8]) -> (r: Option<Option<Vec<u8>>>)
    ensures
        r matches Some(Some(v)) ==> db_contents(*db).contains_key(key@) && db_contents(*db)[key@]
            == v@,
        r matches Some(None) ==> !db_contents(*db).contains_key(key@),
{
    match db.get(key) {
        Ok(found) => Some(found.map(|v| v.to_vec())),
        Err(_) => None,
    }
}

/// Scans the keys that start with `prefix` (`sled::Tree::scan_prefix`, which
/// walks the whole key range from the prefix to its successor), one entry per
/// key, in key order; an entry whose read failed is `None`.  When no read
/// failed, every stored key with the prefix is among the entries.
#[verifier::external_body]
fn db_scan_prefix(db: &sled::Db, prefix: &[u8]) -> (r: Vec<Option<(Vec<u8>, Vec<u8>)>>)
    ensures
        forall|i: int|
            0 <= i < r@.len() ==> (#[trigger] r@[i] matches Some((k, v)) ==> {
                &&& has_prefix(prefix@, k@)
                &&& db_contents(*db).contains_key(k@)
                &&& db_contents(*db)[k@] == v@
            }),
        forall|i: int, j: int|
            0 <= i < j < r@.len() && #[trigger] r@[i] is Some && #[trigger] r@[j] is Some
                ==> lex_lt(entry_key(r@[i]), entry_key(r@[j])),
        all_some(r@) ==> forall|k: Seq<u8>|
            has_prefix(prefix@, k) && #[trigger] db_contents(*db).contains_key(k) ==> exists|i: int|
                0 <= i < r@.len() && #[trigger] entry_key(r@[i]) == k,
{
    db.scan_prefix(prefix).map(|e| e.ok().map(|(k, v)| (k.to_vec(), v.to_vec()))).collect()
}

// ---------------------------------------------------------------------
// Lists of strings as JSON
// ---------------------------------------------------------------------

/// The JSON text of a list of strings, as `serde_json` writes it.
pub uninterp spec fn json_of_strings(items: Seq<Seq<char>>) -> Seq<u8>;

/// The list of strings that JSON bytes hold, as `serde_json` reads it;
/// `None` when they hold none.
pub uninterp spec fn strings_of_json(bytes: Seq<u8>) -> Option<Seq<Seq<char>>>;

/// Serializes a list of strings (`serde_json::to_vec`).  Strings always
/// serialize and a `Vec` writer never fails, so the result is always there.
#[verifier::external_body]
fn encode_strings(items: &Vec<String>) -> (r: Option<Vec<u8>>)
    ensures
        r is Some,
        r matches Some(b) ==> b@ == json_of_strings(texts(items@)),
{
    match serde_json::to_vec(items) {
        Ok(b) => Some(b),
        Err(_) => None,
    }
}

/// Reads a list of strings from JSON (`serde_json::from_slice`).
#[verifier::external_body]
fn decode_strings(bytes: &[u8]) -> (r: Option<Vec<String>>)
    ensures
        r is None <==> strings_of_json(bytes@) is None,
        r matches Some(v) ==> strings_of_json(bytes@) == Some(texts(v@)),
{
    serde_json::from_slice::<Vec<String>>(bytes).ok()
}

/// The list of strings that stored bytes hold: none when nothing was read
/// or the bytes are not a JSON list of strings.
pub open spec fn stored_strings(bytes: Option<Seq<u8>>) -> Seq<Seq<char>> {
    match bytes {
        Some(b) => match strings_of_json(b) {
            Some(v) => v,
            None => Seq::empty(),
        },
        None => Seq::empty(),
    }
}

/// Reads the list of strings from what a store read returned.
pub fn strings_from_stored(bytes: Option<Vec<u8>>) -> (items: Vec<String>)
    ensures
        texts(items@) == stored_strings(
            match bytes {
                Some(b) => Some(b@),
                None => None,
            },
        ),
{
    match bytes {
        Some(b) => match decode_strings(&b) {
            Some(v) => v,
            None => Vec::new(),
        },
        None => Vec::new(),
    }
}

// ---------------------------------------------------------------------
// Keys
// ---------------------------------------------------------------------

/// UTF-8 bytes of a text.
pub open spec fn utf8(s: Seq<char>) -> Seq<u8> {
    encode_utf8(s)
}

/// Key of a record of one kind: the kind's tag, then the id.
pub open spec fn key1(tag: Seq<char>, id: Seq<char>) -> Seq<u8> {
    utf8(tag) + utf8(id)
}

/// Key of a record that two ids name: the tag, the first id, `:`, the second.
pub open spec fn key2(tag: Seq<char>, a: Seq<char>, b: Seq<char>) -> Seq<u8> {
    utf8(tag) + utf8(a) + utf8(":"@) + utf8(b)
}

pub open spec fn leaf_key(id: Seq<char>) -> Seq<u8> {
    key1("leaf:"@, id)
}

pub open spec fn vote_key(target_id: Seq<char>, voter: Seq<char>) -> Seq<u8> {
    key2("vote:"@, target_id, voter)
}

pub open spec fn root_key(id: Seq<char>) -> Seq<u8> {
    key1("root:"@, id)
}

pub open spec fn user_key(address: Seq<char>) -> Seq<u8> {
    key1("user:"@, address)
}

pub open spec fn report_key(id: Seq<char>) -> Seq<u8> {
    key1("report:"@, id)
}

pub open spec fn reports_by_target_key(target_id: Seq<char>) -> Seq<u8> {
    key1("reports_by_target:"@, target_id)
}

pub open spec fn blacklist_vote_key(report_id: Seq<char>, voter: Seq<char>) -> Seq<u8> {
    key2("blacklist_vote:"@, report_id, voter)
}

pub open spec fn dismiss_vote_key(report_id: Seq<char>, voter: Seq<char>) -> Seq<u8> {
    key2("dismiss_vote:"@, report_id, voter)
}

/// The digit that stands for a target kind.
pub open spec fn code_digit(t: ReportTarget) -> Seq<char> {
    seq![('0' as u8 + target_code_of(t)) as char]
}

pub open spec fn blacklist_key(t: ReportTarget, target_id: Seq<char>) -> Seq<u8> {
    key2("blacklist:"@, code_digit(t), target_id)
}

pub open spec fn trunk_key(id: Seq<char>) -> Seq<u8> {
    key1("trunk:"@, id)
}

pub open spec fn branch_key(id: Seq<char>) -> Seq<u8> {
    key1("branch:"@, id)
}

pub open spec fn hollow_key(owner: Seq<char>) -> Seq<u8> {
    key1("hollow:"@, owner)
}

pub open spec fn legendary_key(address: Seq<char>, leaf_id: Seq<char>) -> Seq<u8> {
    key2("legendary:"@, address, leaf_id)
}

pub open spec fn hollow_comment_key(target: Seq<char>, id: Seq<char>) -> Seq<u8> {
    key2("hollow_comment:"@, target, id)
}

pub open spec fn node_config_key() -> Seq<u8> {
    utf8("meta:node_config"@)
}

pub open spec fn network_avg_key() -> Seq<u8> {
    utf8("meta:network_avg_score"@)
}

pub open spec fn peers_key() -> Seq<u8> {
    utf8("meta:peers"@)
}

fn bytes_push_all(out: &mut Vec<u8>, s: &str)
    ensures
        final(out)@ == old(out)@ + utf8(s@),
{
    let b = s.as_bytes();
    let mut i: usize = 0;
    while i < b.len()
        invariant
            i <= b@.len(),
            b@ == utf8(s@),
            out@ == old(out)@ + b@.take(i as int),
        decreases b@.len() - i,
    {
        out.push(b[i]);
        proof {
            assert(b@.take(i + 1) =~= b@.take(i as int).push(b@[i as int]));
            assert(old(out)@ + b@.take(i + 1) =~= (old(out)@ + b@.take(i as int)).push(b@[i as int]));
        }
        i = i + 1;
    }
    proof {
        assert(b@.take(b@.len() as int) =~= b@);
    }
}

fn make_key1(tag: &str, id: &str) -> (k: Vec<u8>)
    ensures
        k@ == key1(tag@, id@),
{
    let mut k: Vec<u8> = Vec::new();
    bytes_push_all(&mut k, tag);
    bytes_push_all(&mut k, id);
    proof {
        assert(k@ =~= key1(tag@, id@));
    }
    k
}

fn make_key2(tag: &str, a: &str, b: &str) -> (k: Vec<u8>)
    ensures
        k@ == key2(tag@, a@, b@),
{
    let mut k: Vec<u8> = Vec::new();
    bytes_push_all(&mut k, tag);
    bytes_push_all(&mut k, a);
    bytes_push_all(&mut k, ":");
    bytes_push_all(&mut k, b);
    proof {
        assert(k@ =~= key2(tag@, a@, b@));
    }
    k
}

fn make_text_key(text: &str) -> (k: Vec<u8>)
    ensures
        k@ == utf8(text@),
{
    let mut k: Vec<u8> = Vec::new();
    bytes_push_all(&mut k, text);
    proof {
        assert(k@ =~= utf8(text@));
    }
    k
}

fn code_text(t: ReportTarget) -> (s: &'static str)
    ensures
        s@ == code_digit(t),
{
    match t {
        ReportTarget::Leaf => {
            proof {
                reveal_strlit("0");
            }
            "0"
        },
        ReportTarget::User => {
            proof {
                reveal_strlit("1");
            }
            "1"
        },
        ReportTarget::Root => {
            proof {
                reveal_strlit("2");
            }
            "2"
        },
    }
}

// ---------------------------------------------------------------------
// The database
// ---------------------------------------------------------------------

/// A write to the store failed.
#[derive(Clone, Copy, Debug, PartialEq, Eq, Structural)]
pub enum StoreError {
    WriteFailed,
    EncodeFailed,
}

/// `values` are the values of distinct keys with `prefix`, in key order.
pub open spec fn is_listing(contents: Map<Seq<u8>, Seq<u8>>, prefix: Seq<u8>, values: Seq<Seq<u8>>) -> bool {
    exists|keys: Seq<Seq<u8>>| listed_by(contents, prefix, values, keys)
}

/// `keys` are the keys, with `prefix`, of `values`, in increasing order.
pub open spec fn listed_by(
    contents: Map<Seq<u8>, Seq<u8>>,
    prefix: Seq<u8>,
    values: Seq<Seq<u8>>,
    keys: Seq<Seq<u8>>,
) -> bool {
    &&& keys.len() == values.len()
    &&& forall|i: int|
        0 <= i < keys.len() ==> has_prefix(prefix, #[trigger] keys[i]) && contents.contains_key(
            keys[i],
        ) && contents[keys[i]] == values[i]
    &&& forall|i: int, j: int| 0 <= i < j < keys.len() ==> lex_lt(#[trigger] keys[i], #[trigger] keys[j])
}

/// The bytes of each value of a list.
pub open spec fn byte_views(v: Seq<Vec<u8>>) -> Seq<Seq<u8>> {
    v.map_values(|b: Vec<u8>| b@)
}

/// What a read of `key` may return: the value when one is there, nothing
/// when none is there; a failed read returns nothing.
pub open spec fn read_of(contents: Map<Seq<u8>, Seq<u8>>, key: Seq<u8>, r: Option<Vec<u8>>) -> bool {
    &&& r matches Some(v) ==> contents.contains_key(key) && contents[key] == v@
    &&& !contents.contains_key(key) ==> r is None
}

/// What a write of `value` under `key` did: on success the store holds it,
/// and nothing else changed.
pub open spec fn wrote(
    before: Map<Seq<u8>, Seq<u8>>,
    after: Map<Seq<u8>, Seq<u8>>,
    key: Seq<u8>,
    value: Seq<u8>,
    r: Result<(), StoreError>,
) -> bool {
    r is Ok ==> after == before.insert(key, value)
}

/// What a removal of `key` did: on success the key is gone, and nothing
/// else changed.
pub open spec fn erased(
    before: Map<Seq<u8>, Seq<u8>>,
    after: Map<Seq<u8>, Seq<u8>>,
    key: Seq<u8>,
    r: Result<(), StoreError>,
) -> bool {
    r is Ok ==> after == before.remove(key)
}

/// `value` is stored as some report.
pub open spec fn is_stored_report(contents: Map<Seq<u8>, Seq<u8>>, value: Seq<u8>) -> bool {
    exists|id: Seq<char>| #[trigger] contents.contains_key(report_key(id)) && contents[report_key(id)] == value
}

/// `reports` are the stored reports of some of `ids`, picked at the
/// increasing positions `picked`.
pub open spec fn picks(
    contents: Map<Seq<u8>, Seq<u8>>,
    ids: Seq<Seq<char>>,
    reports: Seq<Seq<u8>>,
    picked: Seq<int>,
) -> bool {
    &&& picked.len() == reports.len()
    &&& forall|k: int|
        0 <= k < picked.len() ==> 0 <= #[trigger] picked[k] < ids.len() && contents.contains_key(
            report_key(ids[picked[k]]),
        ) && contents[report_key(ids[picked[k]])] == reports[k]
    &&& forall|k1: int, k2: int| 0 <= k1 < k2 < picked.len() ==> #[trigger] picked[k1] < #[trigger] picked[k2]
}

/// `reports` are the stored reports of some of `ids`, in the order of `ids`.
pub open spec fn reports_of_ids(contents: Map<Seq<u8>, Seq<u8>>, ids: Seq<Seq<char>>, reports: Seq<Seq<u8>>) -> bool {
    exists|picked: Seq<int>| picks(contents, ids, reports, picked)
}

/// The node's database.
pub struct Database {
    db: sled::Db,
}

/// What a write reports, from whether the store took it.
pub fn write_outcome(stored: bool) -> (r: Result<(), StoreError>)
    ensures
        stored ==> r is Ok,
        !stored ==> r == Err::<(), StoreError>(StoreError::WriteFailed),
{
    if stored {
        Ok(())
    } else {
        Err(StoreError::WriteFailed)
    }
}

/// What a read gives, from what the store returned: the value when one was
/// found, nothing when none was there or the read failed (`None`).
pub fn read_outcome(read: Option<Option<Vec<u8>>>) -> (r: Option<Vec<u8>>)
    ensures
        r == (match read {
            Some(found) => found,
            None => None,
        }),
{
    match read {
        Some(found) => found,
        None => None,
    }
}

/// Whether a read found a value.
pub fn presence_outcome(read: &Option<Option<Vec<u8>>>) -> (found: bool)
    ensures
        found == (read matches Some(Some(_))),
{
    match read {
        Some(Some(_)) => true,
        _ => false,
    }
}

impl Database {
    /// The key-value pairs the database holds.
    pub closed spec fn contents(&self) -> Map<Seq<u8>, Seq<u8>> {
        db_contents(self.db)
    }

    /// A database over an opened sled tree.
    pub fn new(db: sled::Db) -> (d: Database)
        ensures
            d.contents() == db_contents(db),
    {
        Database { db }
    }

    fn put(&mut self, key: &[u8], value: &[u8]) -> (r: Result<(), StoreError>)
        ensures
            wrote(old(self).contents(), final(self).contents(), key@, value@, r),
            r matches Err(e) ==> e == StoreError::WriteFailed,
    {
        write_outcome(db_insert(&mut self.db, key, value))
    }

    fn erase(&mut self, key: &[u8]) -> (r: Result<(), StoreError>)
        ensures
            erased(old(self).contents(), final(self).contents(), key@, r),
            r matches Err(e) ==> e == StoreError::WriteFailed,
    {
        write_outcome(db_remove(&mut self.db, key))
    }

    fn fetch(&self, key: &[u8]) -> (r: Option<Vec<u8>>)
        ensures
            read_of(self.contents(), key@, r),
    {
        read_outcome(db_get(&self.db, key))
    }

    fn holds(&self, key: &[u8]) -> (found: bool)
        ensures
            found ==> self.contents().contains_key(key@),
            !self.contents().contains_key(key@) ==> !found,
    {
        presence_outcome(&db_get(&self.db, key))
    }

    fn list(&self, prefix: &[u8]) -> (l: Listing)
        ensures
            is_listing(self.contents(), prefix@, byte_views(l.values@)),
            l.complete ==> is_full_listing(self.contents(), prefix@, byte_views(l.values@)),
    {
        let entries = db_scan_prefix(&self.db, prefix);
        let values = values_read(&entries);
        let complete = all_read(&entries);
        proof {
            lemma_scan_listing(self.contents(), prefix@, entries@);
            if complete {
                lemma_read_keys_cover(entries@);
                let keys = read_keys(entries@);
                assert forall|k: Seq<u8>| has_prefix(prefix@, k) && #[trigger] self.contents().contains_key(
                    k,
                ) implies keys.contains(k) by {
                    let i = choose|i: int| 0 <= i < entries@.len() && #[trigger] entry_key(entries@[i]) == k;
                    assert(entries@[i] is Some);
                }
                assert(full_listing_by(self.contents(), prefix@, byte_views(values@), keys));
            }
        }
        Listing { values, complete }
    }
}

/// The values of the entries a scan read, in scan order; failed reads are
/// skipped.
pub open spec fn read_values(entries: Seq<Option<(Vec<u8>, Vec<u8>)>>) -> Seq<Seq<u8>>
    decreases entries.len(),
{
    if entries.len() == 0 {
        Seq::empty()
    } else {
        let rest = read_values(entries.drop_last());
        match entries.last() {
            Some((_, v)) => rest.push(v@),
            None => rest,
        }
    }
}

/// The keys of the entries a scan read, in scan order.
pub open spec fn read_keys(entries: Seq<Option<(Vec<u8>, Vec<u8>)>>) -> Seq<Seq<u8>>
    decreases entries.len(),
{
    if entries.len() == 0 {
        Seq::empty()
    } else {
        let rest = read_keys(entries.drop_last());
        match entries.last() {
            Some((k, _)) => rest.push(k@),
            None => rest,
        }
    }
}

/// The values of the entries that a scan read, in order.
pub fn values_read(entries: &Vec<Option<(Vec<u8>, Vec<u8>)>>) -> (values: Vec<Vec<u8>>)
    ensures
        byte_views(values@) == read_values(entries@),
{
    let mut values: Vec<Vec<u8>> = Vec::new();
    let mut i: usize = 0;
    while i < entries.len()
        invariant
            i <= entries@.len(),
            byte_views(values@) == read_values(entries@.take(i as int)),
        decreases entries@.len() - i,
    {
        proof {
            assert(entries@.take(i + 1).drop_last() =~= entries@.take(i as int));
        }
        match &entries[i] {
            Some((_, v)) => {
                let ghost before = byte_views(values@);
                values.push(v.clone());
                proof {
                    assert(byte_views(values@) =~= before.push(v@));
                }
            },
            None => {},
        }
        i = i + 1;
    }
    proof {
        assert(entries@.take(entries@.len() as int) =~= entries@);
    }
    values
}

/// What a prefix listing gives: the values it read, and whether every read
/// of the scan succeeded.
pub struct Listing {
    pub values: Vec<Vec<u8>>,
    pub complete: bool,
}

/// `values` are the values of all keys with `prefix`, in key order, as the
/// keys `keys` list them.
pub open spec fn full_listing_by(
    contents: Map<Seq<u8>, Seq<u8>>,
    prefix: Seq<u8>,
    values: Seq<Seq<u8>>,
    keys: Seq<Seq<u8>>,
) -> bool {
    &&& listed_by(contents, prefix, values, keys)
    &&& forall|k: Seq<u8>| has_prefix(prefix, k) && #[trigger] contents.contains_key(k) ==> keys.contains(k)
}

/// `values` are the values of all keys with `prefix`, in key order.
pub open spec fn is_full_listing(contents: Map<Seq<u8>, Seq<u8>>, prefix: Seq<u8>, values: Seq<Seq<u8>>) -> bool {
    exists|keys: Seq<Seq<u8>>| full_listing_by(contents, prefix, values, keys)
}

/// Whether every entry of a scan was read.
pub fn all_read(entries: &Vec<Option<(Vec<u8>, Vec<u8>)>>) -> (ok: bool)
    ensures
        ok == all_some(entries@),
{
    let mut i: usize = 0;
    while i < entries.len()
        invariant
            i <= entries@.len(),
            forall|j: int| 0 <= j < i ==> #[trigger] entries@[j] is Some,
        decreases entries@.len() - i,
    {
        if entries[i].is_none() {
            return false;
        }
        i = i + 1;
    }
    true
}

/// When every entry was read, the read keys hold the key of each entry.
proof fn lemma_read_keys_cover(entries: Seq<Option<(Vec<u8>, Vec<u8>)>>)
    requires
        all_some(entries),
    ensures
        forall|i: int| 0 <= i < entries.len() ==> read_keys(entries).contains(#[trigger] entry_key(entries[i])),
    decreases entries.len(),
{
    if entries.len() > 0 {
        let rest = entries.drop_last();
        assert forall|i: int| 0 <= i < rest.len() implies #[trigger] rest[i] is Some by {
            assert(rest[i] == entries[i]);
        }
        lemma_read_keys_cover(rest);
        let last = entries.len() - 1;
        assert(entries[last] is Some);
        let nk = read_keys(entries);
        assert(nk == read_keys(rest).push(entry_key(entries[last])));
        assert forall|i: int| 0 <= i < entries.len() implies nk.contains(#[trigger] entry_key(entries[i])) by {
            if i < last {
                assert(entries[i] == rest[i]);
                assert(read_keys(rest).contains(entry_key(rest[i])));
                let a = choose|a: int| 0 <= a < read_keys(rest).len() && read_keys(rest)[a] == entry_key(rest[i]);
                assert(nk[a] == read_keys(rest)[a]);
            } else {
                assert(nk[nk.len() - 1] == entry_key(entries[last]));
            }
        }
    }
}

/// Every read key comes from some entry of the scan.
proof fn lemma_read_keys_from_entries(entries: Seq<Option<(Vec<u8>, Vec<u8>)>>, a: int)
    requires
        0 <= a < read_keys(entries).len(),
    ensures
        exists|i: int| 0 <= i < entries.len() && #[trigger] entries[i] is Some && entry_key(entries[i]) == read_keys(entries)[a],
    decreases entries.len(),
{
    let rest = entries.drop_last();
    let last = entries.len() - 1;
    if a < read_keys(rest).len() {
        lemma_read_keys_from_entries(rest, a);
        let i = choose|i: int| 0 <= i < rest.len() && #[trigger] rest[i] is Some && entry_key(rest[i]) == read_keys(rest)[a];
        assert(entries[i] == rest[i]);
    } else {
        assert(entries[last] is Some);
        assert(entry_key(entries[last]) == read_keys(entries)[a]);
    }
}

/// The entries a prefix scan read, with its keys in increasing order, list
/// the store's values under the prefix.
proof fn lemma_scan_listing(
    contents: Map<Seq<u8>, Seq<u8>>,
    prefix: Seq<u8>,
    entries: Seq<Option<(Vec<u8>, Vec<u8>)>>,
)
    requires
        forall|i: int|
            0 <= i < entries.len() ==> (#[trigger] entries[i] matches Some((k, v)) ==> {
                &&& has_prefix(prefix, k@)
                &&& contents.contains_key(k@)
                &&& contents[k@] == v@
            }),
        forall|i: int, j: int|
            0 <= i < j < entries.len() && #[trigger] entries[i] is Some && #[trigger] entries[j] is Some
                ==> lex_lt(entry_key(entries[i]), entry_key(entries[j])),
    ensures
        listed_by(contents, prefix, read_values(entries), read_keys(entries)),
        is_listing(contents, prefix, read_values(entries)),
    decreases entries.len(),
{
    if entries.len() > 0 {
        let rest = entries.drop_last();
        let last = entries.len() - 1;
        assert forall|i: int| 0 <= i < rest.len() implies (#[trigger] rest[i] matches Some((k, v)) ==> {
            &&& has_prefix(prefix, k@)
            &&& contents.contains_key(k@)
            &&& contents[k@] == v@
        }) by {
            assert(rest[i] == entries[i]);
        }
        assert forall|i: int, j: int|
            0 <= i < j < rest.len() && #[trigger] rest[i] is Some && #[trigger] rest[j] is Some implies lex_lt(
                entry_key(rest[i]),
                entry_key(rest[j]),
            ) by {
            assert(rest[i] == entries[i] && rest[j] == entries[j]);
        }
        lemma_scan_listing(contents, prefix, rest);
        let keys = read_keys(rest);
        match entries.last() {
            Some((k, v)) => {
                assert(entries[last] is Some);
                assert forall|a: int| 0 <= a < keys.len() implies lex_lt(#[trigger] keys[a], k@) by {
                    lemma_read_keys_from_entries(rest, a);
                    let i = choose|i: int| 0 <= i < rest.len() && #[trigger] rest[i] is Some && entry_key(rest[i]) == keys[a];
                    assert(entries[i] == rest[i]);
                    assert(lex_lt(entry_key(entries[i]), entry_key(entries[last])));
                }
                let nk = keys.push(k@);
                let nv = read_values(rest).push(v@);
                assert(read_keys(entries) == nk);
                assert(read_values(entries) == nv);
                assert forall|i: int, j: int| 0 <= i < j < nk.len() implies lex_lt(#[trigger] nk[i], #[trigger] nk[j]) by {
                    if j < keys.len() {
                        assert(nk[i] == keys[i] && nk[j] == keys[j]);
                    } else {
                        assert(nk[i] == keys[i]);
                    }
                }
                assert forall|i: int| 0 <= i < nk.len() implies has_prefix(prefix, #[trigger] nk[i]) && contents.contains_key(
                    nk[i],
                ) && contents[nk[i]] == nv[i] by {
                    if i < keys.len() {
                        assert(nk[i] == keys[i] && nv[i] == read_values(rest)[i]);
                    }
                }
            },
            None => {
                assert(read_keys(entries) == keys);
                assert(read_values(entries) == read_values(rest));
            },
        }
    }
    assert(listed_by(contents, prefix, read_values(entries), read_keys(entries)));
}

impl Database {
    /// Stores a leaf under its id.
    pub fn add_leaf(&mut self, id: &str, leaf: &[u8]) -> (r: Result<(), StoreError>)
        ensures
            wrote(old(self).contents(), final(self).contents(), leaf_key(id@), leaf@, r),
            r matches Err(e) ==> e == StoreError::WriteFailed,
    {
        let k = make_key1("leaf:", id);
        self.put(&k, leaf)
    }

    /// The stored leaf with this id.
    pub fn get_leaf(&self, id: &str) -> (r: Option<Vec<u8>>)
        ensures
            read_of(self.contents(), leaf_key(id@), r),
    {
        let k = make_key1("leaf:", id);
        self.fetch(&k)
    }

    /// All stored leaves.
    pub fn list_leaves(&self) -> (r: Listing)
        ensures
            is_listing(self.contents(), utf8("leaf:"@), byte_views(r.values@)),
            r.complete ==> is_full_listing(self.contents(), utf8("leaf:"@), byte_views(r.values@)),
    {
        let p = make_text_key("leaf:");
        self.list(&p)
    }

    /// Removes the leaf with this id.
    pub fn delete_leaf(&mut self, leaf_id: &str) -> (r: Result<(), StoreError>)
        ensures
            erased(old(self).contents(), final(self).contents(), leaf_key(leaf_id@), r),
            r matches Err(e) ==> e == StoreError::WriteFailed,
    {
        let k = make_key1("leaf:", leaf_id);
        self.erase(&k)
    }

    /// Stores a vote of `voter_address` on `target_id`.
    pub fn add_vote(&mut self, target_id: &str, voter_address: &str, vote: &[u8]) -> (r: Result<(), StoreError>)
        ensures
            wrote(old(self).contents(), final(self).contents(), vote_key(target_id@, voter_address@), vote@, r),
            r matches Err(e) ==> e == StoreError::WriteFailed,
    {
        let k = make_key2("vote:", target_id, voter_address);
        self.put(&k, vote)
    }

    /// Stores a root under its id.
    pub fn add_root(&mut self, id: &str, root: &[u8]) -> (r: Result<(), StoreError>)
        ensures
            wrote(old(self).contents(), final(self).contents(), root_key(id@), root@, r),
            r matches Err(e) ==> e == StoreError::WriteFailed,
    {
        let k = make_key1("root:", id);
        self.put(&k, root)
    }

    /// The stored root with this id.
    pub fn get_root(&self, id: &str) -> (r: Option<Vec<u8>>)
        ensures
            read_of(self.contents(), root_key(id@), r),
    {
        let k = make_key1("root:", id);
        self.fetch(&k)
    }

    /// All stored roots.
    pub fn list_roots(&self) -> (r: Listing)
        ensures
            is_listing(self.contents(), utf8("root:"@), byte_views(r.values@)),
            r.complete ==> is_full_listing(self.contents(), utf8("root:"@), byte_views(r.values@)),
    {
        let p = make_text_key("root:");
        self.list(&p)
    }

    /// Stores a user under its address.
    pub fn add_user(&mut self, address: &str, user: &[u8]) -> (r: Result<(), StoreError>)
        ensures
            wrote(old(self).contents(), final(self).contents(), user_key(address@), user@, r),
            r matches Err(e) ==> e == StoreError::WriteFailed,
    {
        let k = make_key1("user:", address);
        self.put(&k, user)
    }

    /// The stored user with this address.
    pub fn get_user(&self, address: &str) -> (r: Option<Vec<u8>>)
        ensures
            read_of(self.contents(), user_key(address@), r),
    {
        let k = make_key1("user:", address);
        self.fetch(&k)
    }

    /// The stored report with this id.
    pub fn get_report(&self, id: &str) -> (r: Option<Vec<u8>>)
        ensures
            read_of(self.contents(), report_key(id@), r),
    {
        let k = make_key1("report:", id);
        self.fetch(&k)
    }

    /// Stores a blacklist vote of `voter_address` on a report.
    pub fn add_blacklist_vote(&mut self, report_id: &str, voter_address: &str, vote: &[u8]) -> (r: Result<(), StoreError>)
        ensures
            wrote(old(self).contents(), final(self).contents(), blacklist_vote_key(report_id@, voter_address@), vote@, r),
            r matches Err(e) ==> e == StoreError::WriteFailed,
    {
        let k = make_key2("blacklist_vote:", report_id, voter_address);
        self.put(&k, vote)
    }

    /// The blacklist votes stored under keys that start with this report id.
    pub fn get_blacklist_votes(&self, report_id: &str) -> (r: Listing)
        ensures
            is_listing(self.contents(), key1("blacklist_vote:"@, report_id@), byte_views(r.values@)),
            r.complete ==> is_full_listing(self.contents(), key1("blacklist_vote:"@, report_id@), byte_views(r.values@)),
    {
        let p = make_key1("blacklist_vote:", report_id);
        self.list(&p)
    }

    /// Stores a dismiss vote of `voter_address` on a report.
    pub fn add_dismiss_vote(&mut self, report_id: &str, voter_address: &str, vote: &[u8]) -> (r: Result<(), StoreError>)
        ensures
            wrote(old(self).contents(), final(self).contents(), dismiss_vote_key(report_id@, voter_address@), vote@, r),
            r matches Err(e) ==> e == StoreError::WriteFailed,
    {
        let k = make_key2("dismiss_vote:", report_id, voter_address);
        self.put(&k, vote)
    }

    /// The dismiss votes stored under keys that start with this report id.
    pub fn get_dismiss_votes(&self, report_id: &str) -> (r: Listing)
        ensures
            is_listing(self.contents(), key1("dismiss_vote:"@, report_id@), byte_views(r.values@)),
            r.complete ==> is_full_listing(self.contents(), key1("dismiss_vote:"@, report_id@), byte_views(r.values@)),
    {
        let p = make_key1("dismiss_vote:", report_id);
        self.list(&p)
    }

    /// Stores a blacklist entry for a target.
    pub fn add_blacklist_entry(&mut self, target_type: ReportTarget, target_id: &str, entry: &[u8]) -> (r: Result<(), StoreError>)
        ensures
            wrote(old(self).contents(), final(self).contents(), blacklist_key(target_type, target_id@), entry@, r),
            r matches Err(e) ==> e == StoreError::WriteFailed,
    {
        let k = make_key2("blacklist:", code_text(target_type), target_id);
        self.put(&k, entry)
    }

    /// Whether a blacklist entry for the target is stored.
    pub fn is_blacklisted(&self, target_id: &str, target_type: ReportTarget) -> (found: bool)
        ensures
            found ==> self.contents().contains_key(blacklist_key(target_type, target_id@)),
            !self.contents().contains_key(blacklist_key(target_type, target_id@)) ==> !found,
    {
        let k = make_key2("blacklist:", code_text(target_type), target_id);
        self.holds(&k)
    }

    /// Stores a trunk under its id.
    pub fn put_trunk(&mut self, id: &str, trunk: &[u8]) -> (r: Result<(), StoreError>)
        ensures
            wrote(old(self).contents(), final(self).contents(), trunk_key(id@), trunk@, r),
            r matches Err(e) ==> e == StoreError::WriteFailed,
    {
        let k = make_key1("trunk:", id);
        self.put(&k, trunk)
    }

    /// The stored trunk with this id.
    pub fn get_trunk(&self, id: &str) -> (r: Option<Vec<u8>>)
        ensures
            read_of(self.contents(), trunk_key(id@), r),
    {
        let k = make_key1("trunk:", id);
        self.fetch(&k)
    }

    /// All stored trunks.
    pub fn list_trunks(&self) -> (r: Listing)
        ensures
            is_listing(self.contents(), utf8("trunk:"@), byte_views(r.values@)),
            r.complete ==> is_full_listing(self.contents(), utf8("trunk:"@), byte_views(r.values@)),
    {
        let p = make_text_key("trunk:");
        self.list(&p)
    }

    /// Removes the trunk with this id.
    pub fn delete_trunk(&mut self, id: &str) -> (r: Result<(), StoreError>)
        ensures
            erased(old(self).contents(), final(self).contents(), trunk_key(id@), r),
            r matches Err(e) ==> e == StoreError::WriteFailed,
    {
        let k = make_key1("trunk:", id);
        self.erase(&k)
    }

    /// Stores a branch under its id.
    pub fn put_branch(&mut self, id: &str, branch: &[u8]) -> (r: Result<(), StoreError>)
        ensures
            wrote(old(self).contents(), final(self).contents(), branch_key(id@), branch@, r),
            r matches Err(e) ==> e == StoreError::WriteFailed,
    {
        let k = make_key1("branch:", id);
        self.put(&k, branch)
    }

    /// The stored branch with this id.
    pub fn get_branch(&self, id: &str) -> (r: Option<Vec<u8>>)
        ensures
            read_of(self.contents(), branch_key(id@), r),
    {
        let k = make_key1("branch:", id);
        self.fetch(&k)
    }

    /// All stored branches.
    pub fn list_all_branches(&self) -> (r: Listing)
        ensures
            is_listing(self.contents(), utf8("branch:"@), byte_views(r.values@)),
            r.complete ==> is_full_listing(self.contents(), utf8("branch:"@), byte_views(r.values@)),
    {
        let p = make_text_key("branch:");
        self.list(&p)
    }

    /// Stores a hollow under its owner's address.
    pub fn add_hollow(&mut self, owner_address: &str, hollow: &[u8]) -> (r: Result<(), StoreError>)
        ensures
            wrote(old(self).contents(), final(self).contents(), hollow_key(owner_address@), hollow@, r),
            r matches Err(e) ==> e == StoreError::WriteFailed,
    {
        let k = make_key1("hollow:", owner_address);
        self.put(&k, hollow)
    }

    /// The stored hollow of this owner.
    pub fn get_hollow(&self, owner_address: &str) -> (r: Option<Vec<u8>>)
        ensures
            read_of(self.contents(), hollow_key(owner_address@), r),
    {
        let k = make_key1("hollow:", owner_address);
        self.fetch(&k)
    }

    /// Stores that `promoted_by` keeps a leaf as legendary.
    pub fn add_legendary(&mut self, promoted_by: &str, leaf_id: &str, entry: &[u8]) -> (r: Result<(), StoreError>)
        ensures
            wrote(old(self).contents(), final(self).contents(), legendary_key(promoted_by@, leaf_id@), entry@, r),
            r matches Err(e) ==> e == StoreError::WriteFailed,
    {
        let k = make_key2("legendary:", promoted_by, leaf_id);
        self.put(&k, entry)
    }

    /// Removes a legendary entry.
    pub fn remove_legendary(&mut self, address: &str, leaf_id: &str) -> (r: Result<(), StoreError>)
        ensures
            erased(old(self).contents(), final(self).contents(), legendary_key(address@, leaf_id@), r),
            r matches Err(e) ==> e == StoreError::WriteFailed,
    {
        let k = make_key2("legendary:", address, leaf_id);
        self.erase(&k)
    }

    /// The legendary entries stored under keys that start with this address.
    pub fn list_legendary(&self, address: &str) -> (r: Listing)
        ensures
            is_listing(self.contents(), key1("legendary:"@, address@), byte_views(r.values@)),
            r.complete ==> is_full_listing(self.contents(), key1("legendary:"@, address@), byte_views(r.values@)),
    {
        let p = make_key1("legendary:", address);
        self.list(&p)
    }

    /// Whether `address` keeps this leaf as legendary.
    pub fn is_legendary(&self, address: &str, leaf_id: &str) -> (found: bool)
        ensures
            found ==> self.contents().contains_key(legendary_key(address@, leaf_id@)),
            !self.contents().contains_key(legendary_key(address@, leaf_id@)) ==> !found,
    {
        let k = make_key2("legendary:", address, leaf_id);
        self.holds(&k)
    }

    /// Stores a comment on a hollow.
    pub fn add_hollow_comment(&mut self, target_hollow: &str, comment_id: &str, comment: &[u8]) -> (r: Result<(), StoreError>)
        ensures
            wrote(old(self).contents(), final(self).contents(), hollow_comment_key(target_hollow@, comment_id@), comment@, r),
            r matches Err(e) ==> e == StoreError::WriteFailed,
    {
        let k = make_key2("hollow_comment:", target_hollow, comment_id);
        self.put(&k, comment)
    }

    /// The comments stored under keys that start with this hollow.
    pub fn list_hollow_comments(&self, target_hollow: &str) -> (r: Listing)
        ensures
            is_listing(self.contents(), key1("hollow_comment:"@, target_hollow@), byte_views(r.values@)),
            r.complete ==> is_full_listing(self.contents(), key1("hollow_comment:"@, target_hollow@), byte_views(r.values@)),
    {
        let p = make_key1("hollow_comment:", target_hollow);
        self.list(&p)
    }

    /// Removes a comment from a hollow.
    pub fn delete_hollow_comment(&mut self, target_hollow: &str, comment_id: &str) -> (r: Result<(), StoreError>)
        ensures
            erased(old(self).contents(), final(self).contents(), hollow_comment_key(target_hollow@, comment_id@), r),
            r matches Err(e) ==> e == StoreError::WriteFailed,
    {
        let k = make_key2("hollow_comment:", target_hollow, comment_id);
        self.erase(&k)
    }

    /// Stores the node configuration.
    pub fn set_node_config(&mut self, config: &[u8]) -> (r: Result<(), StoreError>)
        ensures
            wrote(old(self).contents(), final(self).contents(), node_config_key(), config@, r),
            r matches Err(e) ==> e == StoreError::WriteFailed,
    {
        let k = make_text_key("meta:node_config");
        self.put(&k, config)
    }

    /// The stored node configuration.
    pub fn get_node_config(&self) -> (r: Option<Vec<u8>>)
        ensures
            read_of(self.contents(), node_config_key(), r),
    {
        let k = make_text_key("meta:node_config");
        self.fetch(&k)
    }

    /// Stores the network-average score.
    pub fn set_network_avg_score(&mut self, score: &[u8]) -> (r: Result<(), StoreError>)
        ensures
            wrote(old(self).contents(), final(self).contents(), network_avg_key(), score@, r),
            r matches Err(e) ==> e == StoreError::WriteFailed,
    {
        let k = make_text_key("meta:network_avg_score");
        self.put(&k, score)
    }

    /// The stored network-average score.
    pub fn get_network_avg_score(&self) -> (r: Option<Vec<u8>>)
        ensures
            read_of(self.contents(), network_avg_key(), r),
    {
        let k = make_text_key("meta:network_avg_score");
        self.fetch(&k)
    }

    /// Stores the list of peer addresses.
    pub fn save_peers(&mut self, peers: &Vec<String>) -> (r: Result<(), StoreError>)
        ensures
            wrote(old(self).contents(), final(self).contents(), peers_key(), json_of_strings(texts(peers@)), r),
            r matches Err(e) ==> e == StoreError::WriteFailed,
    {
        let value = match encode_strings(peers) {
            Some(v) => v,
            None => return Err(StoreError::EncodeFailed),
        };
        let k = make_text_key("meta:peers");
        self.put(&k, &value)
    }

    /// The stored list of peer addresses; empty when none is stored or it
    /// cannot be read.
    pub fn load_peers(&self) -> (peers: Vec<String>)
        ensures
            peers@.len() > 0 ==> self.contents().contains_key(peers_key()) && strings_of_json(
                self.contents()[peers_key()],
            ) == Some(texts(peers@)),
            !self.contents().contains_key(peers_key()) ==> peers@.len() == 0,
    {
        let k = make_text_key("meta:peers");
        let bytes = self.fetch(&k);
        let ghost read: Option<Seq<u8>> = match &bytes {
            Some(b) => Some(b@),
            None => None,
        };
        let items = strings_from_stored(bytes);
        proof {
            assert(texts(items@).len() == items@.len());
            if items@.len() > 0 {
                assert(read is Some);
            }
        }
        items
    }

    /// Ids listed in the index of reports about `target_id`; empty when the
    /// index is missing or unreadable.
    fn report_ids_for(&self, target_id: &str) -> (ids: Vec<String>)
        ensures
            ids@.len() > 0 ==> self.contents().contains_key(reports_by_target_key(target_id@))
                && strings_of_json(self.contents()[reports_by_target_key(target_id@)]) == Some(texts(ids@)),
            !self.contents().contains_key(reports_by_target_key(target_id@)) ==> ids@.len() == 0,
    {
        let k = make_key1("reports_by_target:", target_id);
        let bytes = self.fetch(&k);
        let ghost read: Option<Seq<u8>> = match &bytes {
            Some(b) => Some(b@),
            None => None,
        };
        let items = strings_from_stored(bytes);
        proof {
            assert(texts(items@).len() == items@.len());
            if items@.len() > 0 {
                assert(read is Some);
            }
        }
        items
    }

    /// Stores a report and appends its id to the index of reports about its
    /// target.  The index that is extended is the stored one, or an empty
    /// one when none is stored or it cannot be read.
    pub fn add_report(&mut self, report_id: &str, target_id: &str, report: &[u8]) -> (r: Result<(), StoreError>)
        ensures
            r is Ok ==> exists|prior: Seq<Seq<char>>| #![trigger json_of_strings(prior.push(report_id@))] {
                let mid = old(self).contents().insert(report_key(report_id@), report@);
                &&& (prior.len() == 0 || (mid.contains_key(reports_by_target_key(target_id@))
                    && strings_of_json(mid[reports_by_target_key(target_id@)]) == Some(prior)))
                &&& final(self).contents() == mid.insert(
                    reports_by_target_key(target_id@),
                    json_of_strings(prior.push(report_id@)),
                )
            },
            r matches Err(e) ==> e == StoreError::WriteFailed,
    {
        let k = make_key1("report:", report_id);
        self.put(&k, report)?;
        let ghost mid = self.contents();
        let mut ids = self.report_ids_for(target_id);
        let ghost prior = texts(ids@);
        ids.push(report_id.to_owned());
        proof {
            assert(texts(ids@) =~= prior.push(report_id@));
        }
        let index = match encode_strings(&ids) {
            Some(v) => v,
            None => return Err(StoreError::EncodeFailed),
        };
        let ik = make_key1("reports_by_target:", target_id);
        let r = self.put(&ik, &index);
        proof {
            if r is Ok {
                assert(json_of_strings(prior.push(report_id@)) == index@);
            }
        }
        r
    }

    /// The stored reports whose ids the index of reports about `target_id`
    /// lists, in index order; ids without a readable report are skipped.
    pub fn get_reports_for_target(&self, target_id: &str) -> (reports: Vec<Vec<u8>>)
        ensures
            forall|i: int|
                0 <= i < reports@.len() ==> is_stored_report(self.contents(), #[trigger] reports@[i]@),
            exists|ids: Seq<Seq<char>>| #[trigger] reports_of_ids(self.contents(), ids, byte_views(reports@)) && (ids.len() == 0 || (
                self.contents().contains_key(reports_by_target_key(target_id@)) && strings_of_json(
                    self.contents()[reports_by_target_key(target_id@)],
                ) == Some(ids))),
    {
        let ids = self.report_ids_for(target_id);
        let ghost id_texts = texts(ids@);
        let mut reports: Vec<Vec<u8>> = Vec::new();
        let ghost mut picked: Seq<int> = Seq::empty();
        let mut i: usize = 0;
        while i < ids.len()
            invariant
                i <= ids.len(),
                id_texts == texts(ids@),
                forall|j: int|
                    0 <= j < reports@.len() ==> is_stored_report(self.contents(), #[trigger] reports@[j]@),
                picks(self.contents(), id_texts, byte_views(reports@), picked),
                forall|k: int| 0 <= k < picked.len() ==> #[trigger] picked[k] < i,
            decreases ids.len() - i,
        {
            match self.get_report(ids[i].as_str()) {
                Some(rep) => {
                    let ghost id = ids@[i as int]@;
                    let ghost before = byte_views(reports@);
                    let ghost prev_picked = picked;
                    reports.push(rep);
                    proof {
                        assert(self.contents().contains_key(report_key(id)));
                        assert(is_stored_report(self.contents(), reports@[reports@.len() - 1]@));
                        picked = prev_picked.push(i as int);
                        assert(byte_views(reports@) =~= before.push(rep@));
                        assert(id_texts[i as int] == id);
                        let rv = byte_views(reports@);
                        assert forall|k: int| 0 <= k < picked.len() implies 0 <= #[trigger] picked[k] < id_texts.len()
                            && self.contents().contains_key(report_key(id_texts[picked[k]]))
                            && self.contents()[report_key(id_texts[picked[k]])] == rv[k] by {
                            if k < prev_picked.len() {
                                assert(picked[k] == prev_picked[k]);
                                assert(rv[k] == before[k]);
                            }
                        }
                        assert forall|k1: int, k2: int| 0 <= k1 < k2 < picked.len() implies #[trigger] picked[k1]
                            < #[trigger] picked[k2] by {
                            if k2 < prev_picked.len() {
                                assert(picked[k1] == prev_picked[k1] && picked[k2] == prev_picked[k2]);
                            } else {
                                assert(picked[k1] == prev_picked[k1]);
                            }
                        }
                    }
                },
                None => {},
            }
            i = i + 1;
        }
        proof {
            assert(reports_of_ids(self.contents(), id_texts, byte_views(reports@)));
            assert(id_texts.len() == ids@.len());
        }
        reports
    }
}

// ---------------------------------------------------------------------
// Laws of the store
// ---------------------------------------------------------------------

/// After a successful write, the key holds the written value: a read gives
/// it back, or nothing when the read itself fails.
pub proof fn lemma_read_after_write(
    before: Map<Seq<u8>, Seq<u8>>,
    after: Map<Seq<u8>, Seq<u8>>,
    key: Seq<u8>,
    value: Seq<u8>,
    read: Option<Vec<u8>>,
)
    requires
        wrote(before, after, key, value, Ok(())),
        read_of(after, key, read),
    ensures
        after.contains_key(key),
        after[key] == value,
        read matches Some(v) ==> v@ == value,
{
}

/// After a successful removal, a read of the key finds nothing.
pub proof fn lemma_read_after_erase(
    before: Map<Seq<u8>, Seq<u8>>,
    after: Map<Seq<u8>, Seq<u8>>,
    key: Seq<u8>,
    read: Option<Vec<u8>>,
)
    requires
        erased(before, after, key, Ok(())),
        read_of(after, key, read),
    ensures
        read is None,
        !after.contains_key(key),
{
}

/// A write or removal changes no other key.
pub proof fn lemma_other_keys_unchanged(
    before: Map<Seq<u8>, Seq<u8>>,
    after: Map<Seq<u8>, Seq<u8>>,
    key: Seq<u8>,
    value: Seq<u8>,
    other: Seq<u8>,
)
    requires
        other != key,
        wrote(before, after, key, value, Ok(())) || erased(before, after, key, Ok(())),
    ensures
        after.contains_key(other) == before.contains_key(other),
        before.contains_key(other) ==> after[other] == before[other],
{
}

/// After the node config is written, a read of it gives the written bytes
/// back, or nothing when the read itself fails.
pub proof fn lemma_node_config_read_back(
    before: Map<Seq<u8>, Seq<u8>>,
    after: Map<Seq<u8>, Seq<u8>>,
    config: Seq<u8>,
    read: Option<Vec<u8>>,
)
    requires
        wrote(before, after, node_config_key(), config, Ok(())),
        read_of(after, node_config_key(), read),
    ensures
        read matches Some(v) ==> v@ == config,
{
    lemma_read_after_write(before, after, node_config_key(), config, read);
}

/// A key of a record named by two ids starts with the key of the first.
pub proof fn lemma_key2_under_key1(tag: Seq<char>, a: Seq<char>, b: Seq<char>)
    ensures
        has_prefix(key1(tag, a), key2(tag, a, b)),
{
    assert(key2(tag, a, b).take(key1(tag, a).len() as int) =~= key1(tag, a));
}

/// After a successful write under a key with the prefix, a complete listing
/// of the prefix holds the written value at that key.
pub proof fn lemma_full_listing_after_write(
    before: Map<Seq<u8>, Seq<u8>>,
    after: Map<Seq<u8>, Seq<u8>>,
    prefix: Seq<u8>,
    key: Seq<u8>,
    value: Seq<u8>,
    values: Seq<Seq<u8>>,
    keys: Seq<Seq<u8>>,
)
    requires
        wrote(before, after, key, value, Ok(())),
        has_prefix(prefix, key),
        full_listing_by(after, prefix, values, keys),
    ensures
        exists|i: int| 0 <= i < keys.len() && keys[i] == key && #[trigger] values[i] == value,
{
    assert(after.contains_key(key));
    assert(keys.contains(key));
    let i = choose|i: int| 0 <= i < keys.len() && keys[i] == key;
    assert(values[i] == value);
}

/// After a successful removal, a complete listing of the prefix no longer
/// holds the removed key, and still holds every other key it held before,
/// with the same value.
pub proof fn lemma_full_listing_after_erase(
    before: Map<Seq<u8>, Seq<u8>>,
    after: Map<Seq<u8>, Seq<u8>>,
    prefix: Seq<u8>,
    key: Seq<u8>,
    old_values: Seq<Seq<u8>>,
    old_keys: Seq<Seq<u8>>,
    values: Seq<Seq<u8>>,
    keys: Seq<Seq<u8>>,
)
    requires
        erased(before, after, key, Ok(())),
        full_listing_by(before, prefix, old_values, old_keys),
        full_listing_by(after, prefix, values, keys),
    ensures
        !keys.contains(key),
        forall|i: int|
            0 <= i < old_keys.len() && old_keys[i] != key ==> exists|j: int|
                0 <= j < keys.len() && keys[j] == old_keys[i] && #[trigger] values[j] == #[trigger] old_values[i],
{
    if keys.contains(key) {
        let j = choose|j: int| 0 <= j < keys.len() && keys[j] == key;
        assert(after.contains_key(keys[j]));
    }
    assert forall|i: int| 0 <= i < old_keys.len() && old_keys[i] != key implies exists|j: int|
        0 <= j < keys.len() && keys[j] == old_keys[i] && #[trigger] values[j] == #[trigger] old_values[i] by {
        let k = old_keys[i];
        assert(has_prefix(prefix, k) && before.contains_key(k));
        assert(after.contains_key(k));
        assert(keys.contains(k));
        let j = choose|j: int| 0 <= j < keys.len() && keys[j] == k;
        assert(values[j] == after[k]);
    }
}

/// After a leaf is promoted for an address, a complete listing of that
/// address's legendary entries holds the new entry.
pub proof fn lemma_legendary_listed_after_add(
    before: Map<Seq<u8>, Seq<u8>>,
    after: Map<Seq<u8>, Seq<u8>>,
    address: Seq<char>,
    leaf_id: Seq<char>,
    entry: Seq<u8>,
    values: Seq<Seq<u8>>,
    keys: Seq<Seq<u8>>,
)
    requires
        wrote(before, after, legendary_key(address, leaf_id), entry, Ok(())),
        full_listing_by(after, key1("legendary:"@, address), values, keys),
    ensures
        exists|i: int| 0 <= i < values.len() && #[trigger] values[i] == entry,
{
    lemma_key2_under_key1("legendary:"@, address, leaf_id);
    lemma_full_listing_after_write(before, after, key1("legendary:"@, address), legendary_key(address, leaf_id), entry, values, keys);
}

/// After an entry is removed from an address's legendary leaves, a complete
/// listing no longer holds its key and keeps every other entry.
pub proof fn lemma_legendary_gone_after_remove(
    before: Map<Seq<u8>, Seq<u8>>,
    after: Map<Seq<u8>, Seq<u8>>,
    address: Seq<char>,
    leaf_id: Seq<char>,
    old_values: Seq<Seq<u8>>,
    old_keys: Seq<Seq<u8>>,
    values: Seq<Seq<u8>>,
    keys: Seq<Seq<u8>>,
)
    requires
        erased(before, after, legendary_key(address, leaf_id), Ok(())),
        full_listing_by(before, key1("legendary:"@, address), old_values, old_keys),
        full_listing_by(after, key1("legendary:"@, address), values, keys),
    ensures
        !keys.contains(legendary_key(address, leaf_id)),
        forall|i: int|
            0 <= i < old_keys.len() && old_keys[i] != legendary_key(address, leaf_id) ==> exists|j: int|
                0 <= j < keys.len() && keys[j] == old_keys[i] && #[trigger] values[j] == #[trigger] old_values[i],
{
    lemma_full_listing_after_erase(before, after, key1("legendary:"@, address), legendary_key(address, leaf_id), old_values, old_keys, values, keys);
}

/// Records of one kind with different ids have different keys, so storing
/// one never overwrites another.
pub proof fn lemma_keys_distinct(tag: Seq<char>, a: Seq<char>, b: Seq<char>)
    requires
        a != b,
    ensures
        key1(tag, a) != key1(tag, b),
{
    if key1(tag, a) == key1(tag, b) {
        let n = utf8(tag).len() as int;
        assert(key1(tag, a).skip(n) =~= utf8(a));
        assert(key1(tag, b).skip(n) =~= utf8(b));
        vstd::utf8::encode_utf8_decode_utf8(a);
        vstd::utf8::encode_utf8_decode_utf8(b);
    }
}

} // verus!
