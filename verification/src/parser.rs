use vstd::prelude::*;

use fnv::FnvHashMap;
use vstd::utf8::{decode_utf8, valid_utf8};

verus! {

/// The hasher that `FnvHashMap` builds its hashers with.
#[verifier::external_type_specification]
#[verifier::external_body]
pub struct ExFnvHasher(fnv::FnvHasher);

/// The `BuildHasher` that `FnvHashMap` is parameterised with.
#[verifier::external_type_specification]
#[verifier::external_body]
#[verifier::reject_recursive_types(H)]
pub struct ExBuildHasherDefault<H>(std::hash::BuildHasherDefault<H>);

/// The entries of a header map, by the text of each name and value.
pub uninterp spec fn header_entries(m: FnvHashMap<String, String>) -> Map<Seq<char>, Seq<char>>;

/// Calls `FnvHashMap::default()` (std's `HashMap::default` with fnv's
/// hasher builder). Claimed: the map it returns has no entries.
#[verifier::external_body]
fn empty_header_map() -> (m: FnvHashMap<String, String>)
    ensures
        header_entries(m) =~= Map::empty(),
{
    FnvHashMap::default()
}

/// Calls `HashMap::insert` on an `FnvHashMap<String, String>`. Claimed: the
/// map afterwards maps the text of `name` to the text of `value` and keeps
/// every other entry; an earlier value under an equal name is replaced; and,
/// as of any `HashMap`, it holds finitely many entries. The replaced value
/// that `insert` returns is dropped, as the caller does.
#[verifier::external_body]
fn insert_header(m: &mut FnvHashMap<String, String>, name: String, value: String)
    ensures
        header_entries(*final(m)) == header_entries(*old(m)).insert(name@, value@),
        header_entries(*final(m)).dom().finite(),
{
    m.insert(name, value);
}

/// Calls `String::from_utf8` and keeps the string, dropping the error.
/// Claimed, as std documents it: there is a string exactly when the bytes
/// are valid UTF-8, and its characters are what the bytes encode.
#[verifier::external_body]
fn string_from_utf8(bytes: Vec<u8>) -> (s: Option<String>)
    ensures
        s is Some <==> valid_utf8(bytes@),
        s matches Some(t) ==> t@ == decode_utf8(bytes@),
{
    String::from_utf8(bytes).ok()
}

/// The abstract state of a header collector: the headers collected so far,
/// and the pending header name and value.
pub struct HeaderView {
    pub entries: Map<Seq<char>, Seq<char>>,
    pub field: Seq<char>,
    pub value: Seq<char>,
}

/// The state after a header name `text` was reported: it becomes the
/// pending name.
pub open spec fn after_field(s: HeaderView, text: Seq<char>) -> HeaderView {
    HeaderView { entries: s.entries, field: text, value: s.value }
}

/// The state after a header value `text` was reported. When both the
/// pending name and `text` are non-empty, the pair is stored and both
/// pending parts are cleared; otherwise `text` becomes the pending value.
pub open spec fn after_value(s: HeaderView, text: Seq<char>) -> HeaderView {
    if s.field.len() > 0 && text.len() > 0 {
        HeaderView {
            entries: s.entries.insert(s.field, text),
            field: Seq::empty(),
            value: Seq::empty(),
        }
    } else {
        HeaderView { entries: s.entries, field: s.field, value: text }
    }
}

/// A header name followed by its value, both non-empty, stores exactly
/// that pair and leaves nothing pending.
pub proof fn lemma_name_then_value_stores_pair(s: HeaderView, name: Seq<char>, value: Seq<char>)
    requires
        name.len() > 0,
        value.len() > 0,
    ensures
        after_value(after_field(s, name), value) == (HeaderView {
            entries: s.entries.insert(name, value),
            field: Seq::empty(),
            value: Seq::empty(),
        }),
{
}

/// A header whose name or value is empty is not stored.
pub proof fn lemma_empty_part_not_stored(s: HeaderView, name: Seq<char>, value: Seq<char>)
    requires
        name.len() == 0 || value.len() == 0,
    ensures
        after_value(after_field(s, name), value).entries == s.entries,
{
}

/// When a header name is reported twice, the value given last is the one
/// kept.
pub proof fn lemma_last_value_wins(s: HeaderView, name: Seq<char>, first: Seq<char>, second: Seq<char>)
    requires
        name.len() > 0,
        first.len() > 0,
        second.len() > 0,
    ensures
        after_value(after_field(after_value(after_field(s, name), first), name), second).entries
            == s.entries.insert(name, second),
{
    assert(s.entries.insert(name, first).insert(name, second) =~= s.entries.insert(name, second));
}

/// No callback loses a stored header: every name stored before is still
/// stored afterwards, and with its value unless that name is the one being
/// stored now.
pub proof fn lemma_entries_kept(s: HeaderView, text: Seq<char>, key: Seq<char>)
    requires
        s.entries.contains_key(key),
    ensures
        after_field(s, text).entries == s.entries,
        after_value(s, text).entries.contains_key(key),
        key != s.field ==> after_value(s, text).entries[key] == s.entries[key],
{
}

/// Every stored header has a non-empty name and a non-empty value.
pub open spec fn parts_non_empty(entries: Map<Seq<char>, Seq<char>>) -> bool {
    forall|k: Seq<char>| #[trigger] entries.contains_key(k) ==> k.len() > 0 && entries[k].len() > 0
}

/// A reported value stores at most one more header, and when every stored
/// header had a non-empty name and value, every stored header still does.
pub proof fn lemma_value_adds_at_most_one(s: HeaderView, text: Seq<char>)
    requires
        s.entries.dom().finite(),
    ensures
        after_value(s, text).entries.dom().finite(),
        after_value(s, text).entries.dom().len() <= s.entries.dom().len() + 1,
        parts_non_empty(s.entries) ==> parts_non_empty(after_value(s, text).entries),
        parts_non_empty(s.entries) ==> parts_non_empty(after_field(s, text).entries),
{
    if s.field.len() > 0 && text.len() > 0 {
        let e = s.entries.insert(s.field, text);
        assert(e.dom() =~= s.entries.dom().insert(s.field));
    }
}

/// Collects the header lines an HTTP parser reports, name by name and
/// value by value.
pub struct HttpHeaders {
    pub headers: FnvHashMap<String, String>,
    pub field: String,
    pub value: String,
}

impl View for HttpHeaders {
    type V = HeaderView;

    open spec fn view(&self) -> HeaderView {
        HeaderView { entries: header_entries(self.headers), field: self.field@, value: self.value@ }
    }
}

impl HttpHeaders {
    /// An empty collector.
    pub fn new() -> (h: HttpHeaders)
        ensures
            h@.entries == Map::<Seq<char>, Seq<char>>::empty(),
            h@.field == Seq::<char>::empty(),
            h@.value == Seq::<char>::empty(),
    {
        HttpHeaders { headers: empty_header_map(), field: String::new(), value: String::new() }
    }

    /// Hands out the collected headers.
    pub fn get_all_headers(self) -> (m: FnvHashMap<String, String>)
        ensures
            header_entries(m) == self@.entries,
    {
        self.headers
    }

    /// The parser reported the name of a header; `header` must be valid
    /// UTF-8. Always asks the parser to go on.
    pub fn on_header_field(&mut self, header: &[u8]) -> (go_on: bool)
        requires
            valid_utf8(header@),
        ensures
            final(self)@ == after_field(old(self)@, decode_utf8(header@)),
            go_on,
    {
        match string_from_utf8(vstd::slice::slice_to_vec(header)) {
            Some(text) => {
                self.field = text;
            },
            None => {},
        }
        true
    }

    /// The parser reported the value of a header; `value` must be valid
    /// UTF-8. Stores the pair when both it and the pending name are
    /// non-empty. Always asks the parser to go on.
    pub fn on_header_value(&mut self, value: &[u8]) -> (go_on: bool)
        requires
            valid_utf8(value@),
        ensures
            final(self)@ == after_value(old(self)@, decode_utf8(value@)),
            go_on,
            old(self)@.entries.dom().finite() ==> final(self)@.entries.dom().finite()
                && final(self)@.entries.dom().len() <= old(self)@.entries.dom().len() + 1,
    {
        match string_from_utf8(vstd::slice::slice_to_vec(value)) {
            Some(text) => {
                self.value = text;
            },
            None => {},
        }
        proof {
            if old(self)@.entries.dom().finite() {
                lemma_value_adds_at_most_one(old(self)@, decode_utf8(value@));
            }
        }
        if !self.field.as_str().is_empty() && !self.value.as_str().is_empty() {
            insert_header(&mut self.headers, self.field.clone(), self.value.clone());
            self.field = String::new();
            self.value = String::new();
        }
        true
    }
}

} // verus!
