use crate::json::{encode_json, json_text, json_wf, parsed_json, string_array, string_list_of, Json};
use vstd::prelude::*;
use vstd::string::*;

verus! {

broadcast use vstd::seq_lib::group_seq_properties;

/// Store key of the record that holds the key index.
pub const INDEX_KEY: &'static str = "keys:all";

/// Character order on key names, compared from the front; a proper prefix
/// comes first. This is the order of `String`'s `Ord`.
pub open spec fn key_le(a: Seq<char>, b: Seq<char>) -> bool
    decreases a.len(),
{
    if a.len() == 0 {
        true
    } else if b.len() == 0 {
        false
    } else if a[0] != b[0] {
        (a[0] as u32) < (b[0] as u32)
    } else {
        key_le(a.drop_first(), b.drop_first())
    }
}

pub proof fn lemma_key_le_total(a: Seq<char>, b: Seq<char>)
    ensures
        key_le(a, b) || key_le(b, a),
    decreases a.len(),
{
    if a.len() > 0 && b.len() > 0 {
        if a[0] == b[0] {
            lemma_key_le_total(a.drop_first(), b.drop_first());
        } else {
            vstd::utf8::char_u32_cast(a[0], a[0] as u32);
            vstd::utf8::char_u32_cast(b[0], b[0] as u32);
        }
    }
}

pub proof fn lemma_key_le_reflexive(a: Seq<char>)
    ensures
        key_le(a, a),
    decreases a.len(),
{
    if a.len() > 0 {
        lemma_key_le_reflexive(a.drop_first());
    }
}

pub proof fn lemma_key_le_antisymmetric(a: Seq<char>, b: Seq<char>)
    requires
        key_le(a, b),
        key_le(b, a),
    ensures
        a == b,
    decreases a.len(),
{
    if a.len() > 0 {
        lemma_key_le_antisymmetric(a.drop_first(), b.drop_first());
        assert(a =~= seq![a[0]] + a.drop_first());
        assert(b =~= seq![b[0]] + b.drop_first());
    } else {
        assert(a =~= b);
    }
}

pub proof fn lemma_key_le_transitive(a: Seq<char>, b: Seq<char>, c: Seq<char>)
    requires
        key_le(a, b),
        key_le(b, c),
    ensures
        key_le(a, c),
    decreases a.len(),
{
    if a.len() > 0 && b.len() > 0 && c.len() > 0 && a[0] == b[0] && b[0] == c[0] {
        lemma_key_le_transitive(a.drop_first(), b.drop_first(), c.drop_first());
    }
}

/// Whether `a` comes no later than `b` in key order.
pub fn key_leq(a: &str, b: &str) -> (r: bool)
    ensures
        r == key_le(a@, b@),
{
    let n = a.unicode_len();
    let m = b.unicode_len();
    let mut i: usize = 0;
    assert(a@.subrange(0, n as int) =~= a@);
    assert(b@.subrange(0, m as int) =~= b@);
    while i < n && i < m && a.get_char(i) == b.get_char(i)
        invariant
            i <= n == a@.len(),
            i <= m == b@.len(),
            key_le(a@, b@) == key_le(a@.subrange(i as int, n as int), b@.subrange(i as int, m as int)),
        decreases n - i,
    {
        assert(a@.subrange(i as int, n as int).drop_first() =~= a@.subrange(i + 1, n as int));
        assert(b@.subrange(i as int, m as int).drop_first() =~= b@.subrange(i + 1, m as int));
        i = i + 1;
    }
    if i == n {
        true
    } else if i == m {
        false
    } else {
        assert(a@.subrange(i as int, n as int)[0] == a@[i as int]);
        assert(b@.subrange(i as int, m as int)[0] == b@[i as int]);
        (a.get_char(i) as u32) < (b.get_char(i) as u32)
    }
}

/// The key names of a list of strings.
pub open spec fn names_of(v: Seq<String>) -> Seq<Seq<char>> {
    v.map_values(|s: String| s@)
}

/// Keys that belong to the index's own namespace: those starting `keys:`.
pub open spec fn is_index_name(k: Seq<char>) -> bool {
    k.len() >= 5 && k.subrange(0, 5) == seq!['k', 'e', 'y', 's', ':']
}

/// The primary record keys of a listing, in listing order.
pub open spec fn primary_keys(listing: Seq<Seq<char>>) -> Seq<Seq<char>>
    decreases listing.len(),
{
    if listing.len() == 0 {
        Seq::empty()
    } else {
        let rest = primary_keys(listing.drop_last());
        if is_index_name(listing.last()) {
            rest
        } else {
            rest.push(listing.last())
        }
    }
}

pub open spec fn keys_sorted(s: Seq<Seq<char>>) -> bool {
    forall|i: int, j: int| 0 <= i < j < s.len() ==> key_le(s[i], s[j])
}

/// `keys` is the index of `listing`: its primary keys, each as often as
/// listed, in ascending order.
pub open spec fn is_index_of(keys: Seq<Seq<char>>, listing: Seq<Seq<char>>) -> bool {
    keys_sorted(keys) && keys.to_multiset() == primary_keys(listing).to_multiset()
}

/// Two ascending lists with the same keys are the same list.
pub proof fn lemma_sorted_unique(a: Seq<Seq<char>>, b: Seq<Seq<char>>)
    requires
        keys_sorted(a),
        keys_sorted(b),
        a.to_multiset() == b.to_multiset(),
    ensures
        a == b,
    decreases a.len(),
{
    a.to_multiset_ensures();
    b.to_multiset_ensures();
    if a.len() == 0 {
        assert(b.len() == 0);
        assert(a =~= b);
    } else {
        assert(b.len() > 0);
        assert(a.to_multiset().count(a[0]) > 0);
        assert(b.contains(a[0]));
        assert(b.contains(b[0]));
        assert(b.to_multiset().count(b[0]) > 0);
        assert(a.to_multiset().count(b[0]) > 0);
        assert(a.contains(b[0]));
        let i = choose|i: int| 0 <= i < b.len() && b[i] == a[0];
        let j = choose|j: int| 0 <= j < a.len() && a[j] == b[0];
        if i > 0 {
            assert(key_le(b[0], b[i]));
        } else {
            lemma_key_le_reflexive(a[0]);
        }
        if j > 0 {
            assert(key_le(a[0], a[j]));
        } else {
            lemma_key_le_reflexive(a[0]);
        }
        lemma_key_le_antisymmetric(a[0], b[0]);
        let a1 = a.remove(0);
        let b1 = b.remove(0);
        assert(a1 =~= a.drop_first());
        assert(b1 =~= b.drop_first());
        assert(a1.to_multiset() =~= a.to_multiset().remove(a[0]));
        assert(b1.to_multiset() =~= b.to_multiset().remove(b[0]));
        assert(keys_sorted(a1)) by {
            assert forall|x: int, y: int| 0 <= x < y < a1.len() implies key_le(a1[x], a1[y]) by {
                assert(a1[x] == a[x + 1] && a1[y] == a[y + 1]);
            }
        }
        assert(keys_sorted(b1)) by {
            assert forall|x: int, y: int| 0 <= x < y < b1.len() implies key_le(b1[x], b1[y]) by {
                assert(b1[x] == b[x + 1] && b1[y] == b[y + 1]);
            }
        }
        lemma_sorted_unique(a1, b1);
        assert(a =~= seq![a[0]] + a1);
        assert(b =~= seq![b[0]] + b1);
    }
}

/// An index depends on the listing only: rebuilding it from the same listing
/// gives the same keys, so a removed index record comes back unchanged.
pub proof fn lemma_index_rebuild_same(first: Seq<Seq<char>>, second: Seq<Seq<char>>, listing: Seq<Seq<char>>)
    requires
        is_index_of(first, listing),
        is_index_of(second, listing),
    ensures
        first == second,
{
    lemma_sorted_unique(first, second);
}

/// Relies on `slice::sort` for `String`: it permutes the list into ascending
/// order of `String`'s `Ord`.
#[verifier::external_body]
fn sort_names(v: &mut Vec<String>)
    ensures
        names_of(final(v)@).to_multiset() == names_of(old(v)@).to_multiset(),
        keys_sorted(names_of(final(v)@)),
{
    v.sort();
}

/// Whether `name` lies in the index's own namespace.
pub fn is_index_key(name: &str) -> (r: bool)
    ensures
        r == is_index_name(name@),
{
    let n = name.unicode_len();
    if n < 5 {
        return false;
    }
    let r = name.get_char(0) == 'k' && name.get_char(1) == 'e' && name.get_char(2) == 'y'
        && name.get_char(3) == 's' && name.get_char(4) == ':';
    if r {
        assert(name@.subrange(0, 5) =~= seq!['k', 'e', 'y', 's', ':']);
    } else {
        let ghost p = name@.subrange(0, 5);
        assert(p[0] == name@[0] && p[1] == name@[1] && p[2] == name@[2] && p[3] == name@[3]
            && p[4] == name@[4]);
        assert(p != seq!['k', 'e', 'y', 's', ':']) by {
            if p == seq!['k', 'e', 'y', 's', ':'] {
                assert(p[0] == 'k' && p[1] == 'e' && p[2] == 'y' && p[3] == 's' && p[4] == ':');
            }
        }
    }
    r
}

/// The index of a full listing: its primary keys, in ascending order.
pub fn index_keys(listing: &Vec<String>) -> (r: Vec<String>)
    ensures
        is_index_of(names_of(r@), names_of(listing@)),
{
    let mut keys: Vec<String> = Vec::new();
    let mut i: usize = 0;
    while i < listing.len()
        invariant
            i <= listing.len(),
            names_of(keys@) == primary_keys(names_of(listing@.subrange(0, i as int))),
        decreases listing.len() - i,
    {
        let ghost before = keys@;
        assert(names_of(listing@.subrange(0, i + 1)).drop_last() =~= names_of(
            listing@.subrange(0, i as int),
        ));
        if !is_index_key(listing[i].as_str()) {
            keys.push(listing[i].clone());
            assert(names_of(keys@) =~= names_of(before).push(listing@[i as int]@));
        }
        i = i + 1;
    }
    assert(listing@.subrange(0, i as int) =~= listing@);
    sort_names(&mut keys);
    keys
}

/// The JSON array of the key strings.
fn key_array(keys: &Vec<String>) -> (r: Json)
    ensures
        json_wf(r),
        r@ == string_array(names_of(keys@)),
{
    let mut items: Vec<Json> = Vec::new();
    let mut i: usize = 0;
    while i < keys.len()
        invariant
            i <= keys.len(),
            items@.len() == i,
            forall|j: int| 0 <= j < i ==> #[trigger] items@[j] == Json::Str(keys@[j]),
        decreases keys.len() - i,
    {
        items.push(Json::Str(keys[i].clone()));
        i = i + 1;
    }
    assert forall|j: int| 0 <= j < items@.len() implies json_wf(#[trigger] items@[j]) by {
        assert(items@[j] == Json::Str(keys@[j]));
    }
    let r = Json::Array(items);
    assert(r@ == string_array(names_of(keys@))) by {
        lemma_items_view_strings(items@, keys@);
    }
    r
}

proof fn lemma_items_view_strings(items: Seq<Json>, keys: Seq<String>)
    requires
        items.len() == keys.len(),
        forall|j: int| 0 <= j < items.len() ==> #[trigger] items[j] == Json::Str(keys[j]),
    ensures
        crate::json::items_view(items) == names_of(keys).map_values(
            |k: Seq<char>| crate::json::JsonView::Str(k),
        ),
    decreases items.len(),
{
    if items.len() > 0 {
        let n = items.len() - 1;
        assert forall|j: int| 0 <= j < n implies #[trigger] items.subrange(0, n)[j] == Json::Str(
            keys.subrange(0, n)[j],
        ) by {
            assert(items.subrange(0, n)[j] == items[j]);
        }
        lemma_items_view_strings(items.subrange(0, n), keys.subrange(0, n));
        assert(items[n] == Json::Str(keys[n]));
        assert(crate::json::json_view(items[n]) == crate::json::JsonView::Str(keys[n]@));
        assert(crate::json::items_view(items) == crate::json::items_view(items.subrange(0, n)).push(
            crate::json::json_view(items[n]),
        ));
        assert(names_of(keys).map_values(|k: Seq<char>| crate::json::JsonView::Str(k)) =~= names_of(
            keys.subrange(0, n),
        ).map_values(|k: Seq<char>| crate::json::JsonView::Str(k)).push(
            crate::json::JsonView::Str(keys[n]@),
        ));
    } else {
        assert(names_of(keys).map_values(|k: Seq<char>| crate::json::JsonView::Str(k)) =~= Seq::<
            crate::json::JsonView,
        >::empty());
    }
}

/// The index record's text for `keys`: a JSON array of the key strings.
pub fn index_entry(keys: &Vec<String>) -> (r: Result<String, serde_json::Error>)
    ensures
        r is Ok,
        r matches Ok(t) ==> t@ == json_text(string_array(names_of(keys@))),
{
    let doc = key_array(keys);
    encode_json(&doc)
}

/// What to write for the index of a complete listing of the store.
pub struct IndexEntry {
    /// The primary keys, in ascending order.
    pub keys: Vec<String>,
    /// The record text: the JSON array of `keys`.
    pub entry: String,
}

/// Rebuilds the index from a complete listing: drops the index's own keys,
/// sorts the rest, and encodes them as the record to store under `INDEX_KEY`.
pub fn put_keys(listing: &Vec<String>) -> (r: Result<IndexEntry, serde_json::Error>)
    ensures
        r is Ok,
        r matches Ok(e) ==> is_index_of(names_of(e.keys@), names_of(listing@)) && e.entry@
            == json_text(string_array(names_of(e.keys@))),
{
    let keys = index_keys(listing);
    match index_entry(&keys) {
        Ok(entry) => Ok(IndexEntry { keys, entry }),
        Err(e) => Err(e),
    }
}

/// One page of a listing of the store.
pub struct ListPage {
    pub keys: Vec<String>,
    /// Where the next page starts.
    pub cursor: Option<String>,
    /// Whether this is the last page.
    pub complete: bool,
}

/// What the index rebuild asks for after a page.
pub enum ScanStep {
    /// List the next page, from this cursor.
    Continue { cursor: Option<String> },
    /// The listing is complete: write this record under `INDEX_KEY`.
    Store(IndexEntry),
}

/// Rebuild of the key index over a paginated full listing of the store.
pub struct KeyScan {
    listing: Vec<String>,
}

impl View for KeyScan {
    type V = Seq<Seq<char>>;

    /// The keys listed so far, in listing order.
    closed spec fn view(&self) -> Seq<Seq<char>> {
        names_of(self.listing@)
    }
}

impl KeyScan {
    pub fn new() -> (r: KeyScan)
        ensures
            r@ == Seq::<Seq<char>>::empty(),
    {
        let r = KeyScan { listing: Vec::new() };
        assert(r@ =~= Seq::<Seq<char>>::empty());
        r
    }

    /// Takes in one page: asks for the next page while the listing goes on,
    /// and once it is complete gives the index of everything listed.
    pub fn next(&mut self, page: ListPage) -> (r: ScanStep)
        ensures
            final(self)@ == old(self)@ + names_of(page.keys@),
            !page.complete ==> r == (ScanStep::Continue { cursor: page.cursor }),
            page.complete ==> r is Store,
            r matches ScanStep::Store(e) ==> is_index_of(names_of(e.keys@), final(self)@)
                && e.entry@ == json_text(string_array(names_of(e.keys@))),
    {
        let mut keys = page.keys;
        let ghost added = keys@;
        let ghost before = self.listing@;
        self.listing.append(&mut keys);
        assert(names_of(self.listing@) =~= names_of(before) + names_of(added));
        if !page.complete {
            return ScanStep::Continue { cursor: page.cursor };
        }
        match put_keys(&self.listing) {
            Ok(e) => ScanStep::Store(e),
            Err(_) => {
                proof {
                    assert(false);
                }
                ScanStep::Continue { cursor: None }
            },
        }
    }
}

/// What reading the index record gave.
#[derive(Debug)]
pub enum IndexRead {
    /// The record held this key list.
    Keys(Vec<String>),
    /// There is no record: rebuild it, then read again.
    Rebuild,
}

/// A present index record that cannot be read.
#[derive(Debug)]
pub enum GetKeysError {
    /// The record is not a JSON array of strings.
    SerdeError(serde_json::Error),
}

/// Relies on `serde_json::from_str::<Vec<String>>`: it accepts exactly the
/// JSON texts that are arrays of strings, reads them as those strings, and
/// reads the text it writes for an array of strings back as that array.
#[verifier::external_body]
fn decode_key_list(text: &str) -> (r: Result<Vec<String>, serde_json::Error>)
    ensures
        r is Ok <==> (parsed_json(text@) is Some && string_list_of(parsed_json(text@)->Some_0)
            is Some),
        r is Ok ==> string_list_of(parsed_json(text@)->Some_0) == Some(names_of(r->Ok_0@)),
        forall|items: Seq<Seq<char>>|
            text@ == #[trigger] json_text(string_array(items)) ==> (r is Ok && names_of(r->Ok_0@)
                == items),
{
    serde_json::from_str::<Vec<String>>(text)
}

/// Reads the index record, if there is one: an absent record asks for a
/// rebuild; a present one must be a JSON array of strings, else it is a
/// decode error (and no rebuild). A record written for a key list reads back
/// as that list.
pub fn get_keys(entry: Option<String>) -> (r: Result<IndexRead, GetKeysError>)
    ensures
        entry is None ==> r matches Ok(IndexRead::Rebuild),
        entry matches Some(t) ==> match parsed_json(t@) {
            None => r matches Err(GetKeysError::SerdeError(_)),
            Some(v) => match string_list_of(v) {
                Some(ks) => r matches Ok(IndexRead::Keys(k)) && names_of(k@) == ks,
                None => r matches Err(GetKeysError::SerdeError(_)),
            },
        },
        forall|ks: Seq<Seq<char>>|
            (entry matches Some(t) && t@ == #[trigger] json_text(string_array(ks))) ==> (r matches Ok(
                IndexRead::Keys(k),
            ) && names_of(k@) == ks),
{
    match entry {
        None => Ok(IndexRead::Rebuild),
        Some(text) => match decode_key_list(text.as_str()) {
            Ok(keys) => Ok(IndexRead::Keys(keys)),
            Err(e) => Err(GetKeysError::SerdeError(e)),
        },
    }
}

} // verus!
