//! Marking an ordinary page as a collection (a book, a project, a reading
//! list) by two flat string properties, `collection` and
//! `collection-status`, without touching anything else the page carries.
use vstd::prelude::*;
use crate::text::{chars_of, eq_str, string_of, trim, trim_chars};

verus! {

/// One value of a page's properties: a JSON string, or any other JSON value
/// held as its serialized text.
#[derive(Debug, Clone, PartialEq, Eq)]
pub enum PropertyValue {
    Text(String),
    Other(String),
}

/// A page's properties: a JSON object as its entries in order, or any other
/// JSON value (`null`, an array, ...) held as its serialized text.
#[derive(Debug, Clone, PartialEq, Eq)]
pub enum Properties {
    Object(Vec<(String, PropertyValue)>),
    NotObject(String),
}

/// A page of the graph, as far as collections are concerned.
#[derive(Debug, Clone)]
pub struct Page {
    pub id: String,
    pub title: String,
    pub file_path: Option<String>,
    pub created_at: i64,
    pub updated_at: i64,
    pub is_journal: bool,
    pub properties: Properties,
}

/// What a page's collection marker says about it.
#[derive(Debug, Clone, PartialEq, Eq)]
pub struct CollectionInfo {
    pub kind: String,
    pub status: Option<String>,
}

/// A value as plain data: whether it is a JSON string, and its text.
pub open spec fn value_view(v: PropertyValue) -> (bool, Seq<char>) {
    match v {
        PropertyValue::Text(s) => (true, s@),
        PropertyValue::Other(s) => (false, s@),
    }
}

/// An entry as plain data.
pub open spec fn entry_view(e: (String, PropertyValue)) -> (Seq<char>, (bool, Seq<char>)) {
    (e.0@, value_view(e.1))
}

/// The entries of an object, or `None` for any other JSON value.
pub open spec fn props_view(p: Properties) -> Option<Seq<(Seq<char>, (bool, Seq<char>))>> {
    match p {
        Properties::Object(es) => Some(es@.map_values(|e: (String, PropertyValue)| entry_view(e))),
        Properties::NotObject(_) => None,
    }
}

/// Position of the entry with key `key`, searching from `i`.
pub open spec fn key_index_from(es: Seq<(Seq<char>, (bool, Seq<char>))>, key: Seq<char>, i: int) -> Option<int>
    decreases es.len() - i,
{
    if i < 0 || i >= es.len() {
        None
    } else if es[i].0 == key {
        Some(i)
    } else {
        key_index_from(es, key, i + 1)
    }
}

/// The value under `key` (the first entry with that key).
pub open spec fn get_entry(es: Seq<(Seq<char>, (bool, Seq<char>))>, key: Seq<char>) -> Option<(bool, Seq<char>)> {
    match key_index_from(es, key, 0) {
        Some(i) => Some(es[i].1),
        None => None,
    }
}

/// The value under `key` in a page's properties; nothing for a non-object.
pub open spec fn get_prop(p: Option<Seq<(Seq<char>, (bool, Seq<char>))>>, key: Seq<char>) -> Option<(bool, Seq<char>)> {
    match p {
        Some(es) => get_entry(es, key),
        None => None,
    }
}

/// `key` set to `v`: the existing entry replaced in place, or a new entry
/// appended (`serde_json::Map::insert`).
pub open spec fn set_entry(es: Seq<(Seq<char>, (bool, Seq<char>))>, key: Seq<char>, v: (bool, Seq<char>)) -> Seq<(Seq<char>, (bool, Seq<char>))> {
    match key_index_from(es, key, 0) {
        Some(i) => es.update(i, (key, v)),
        None => es.push((key, v)),
    }
}

/// Every entry with key `key` removed (`serde_json::Map::remove`).
pub open spec fn remove_entry(es: Seq<(Seq<char>, (bool, Seq<char>))>, key: Seq<char>) -> Seq<(Seq<char>, (bool, Seq<char>))>
    decreases es.len(),
{
    if es.len() == 0 {
        seq![]
    } else if es.last().0 == key {
        remove_entry(es.drop_last(), key)
    } else {
        remove_entry(es.drop_last(), key).push(es.last())
    }
}

/// The collection marker's key.
pub open spec fn kind_key() -> Seq<char> {
    "collection"@
}

/// The collection status's key.
pub open spec fn status_key() -> Seq<char> {
    "collection-status"@
}

/// A property that counts: a JSON string that is not blank, trimmed.
pub open spec fn string_prop(v: Option<(bool, Seq<char>)>) -> Option<Seq<char>> {
    match v {
        Some((true, s)) => if trim(s).len() > 0 {
            Some(trim(s))
        } else {
            None
        },
        _ => None,
    }
}

/// What a page's properties say about it as a collection: a kind (a
/// non-blank string under `collection`) and an optional status (likewise
/// under `collection-status`), or nothing when there is no kind.
pub open spec fn collection_spec(p: Option<Seq<(Seq<char>, (bool, Seq<char>))>>) -> Option<(Seq<char>, Option<Seq<char>>)> {
    match string_prop(get_prop(p, kind_key())) {
        Some(kind) => Some((kind, string_prop(get_prop(p, status_key())))),
        None => None,
    }
}

/// The properties marked as a collection of `kind`: a non-object becomes an
/// empty object first; then `collection` is set to the string `kind`.
pub open spec fn mark_spec(p: Option<Seq<(Seq<char>, (bool, Seq<char>))>>, kind: Seq<char>) -> Option<Seq<(Seq<char>, (bool, Seq<char>))>> {
    let es = match p {
        Some(es) => es,
        None => seq![],
    };
    Some(set_entry(es, kind_key(), (true, kind)))
}

/// The properties with the collection marking removed; a non-object is left
/// alone.
pub open spec fn clear_spec(p: Option<Seq<(Seq<char>, (bool, Seq<char>))>>) -> Option<Seq<(Seq<char>, (bool, Seq<char>))>> {
    match p {
        Some(es) => Some(remove_entry(remove_entry(es, kind_key()), status_key())),
        None => None,
    }
}

/// A collection's marker as plain data.
pub open spec fn info_view(i: Option<CollectionInfo>) -> Option<(Seq<char>, Option<Seq<char>>)> {
    match i {
        Some(info) => Some((info.kind@, match info.status {
            Some(s) => Some(s@),
            None => None,
        })),
        None => None,
    }
}

/// Index of the first entry with key `key`.
fn find_key(es: &Vec<(String, PropertyValue)>, key: &str) -> (r: Option<usize>)
    ensures
        match r {
            Some(i) => key_index_from(es@.map_values(|e: (String, PropertyValue)| entry_view(e)), key@, 0) == Some(i as int),
            None => key_index_from(es@.map_values(|e: (String, PropertyValue)| entry_view(e)), key@, 0) is None,
        },
        r matches Some(i) ==> i < es@.len(),
{
    let ghost v = es@.map_values(|e: (String, PropertyValue)| entry_view(e));
    let mut i: usize = 0;
    while i < es.len()
        invariant
            i <= es.len(),
            v == es@.map_values(|e: (String, PropertyValue)| entry_view(e)),
            key_index_from(v, key@, 0) == key_index_from(v, key@, i as int),
        decreases es.len() - i,
    {
        let k = chars_of(es[i].0.as_str());
        if eq_str(&k, key) {
            proof {
                assert(v[i as int].0 == k@);
            }
            return Some(i);
        }
        proof {
            assert(v[i as int].0 == k@);
        }
        i += 1;
    }
    None
}

/// Read a string property: `Some` of its trimmed text when it is a
/// non-blank JSON string.
fn read_string_prop(props: &Properties, key: &str) -> (r: Option<String>)
    ensures
        match r {
            Some(s) => string_prop(get_prop(props_view(*props), key@)) == Some(s@),
            None => string_prop(get_prop(props_view(*props), key@)) is None,
        },
{
    match props {
        Properties::Object(es) => match find_key(es, key) {
            Some(i) => match &es[i].1 {
                PropertyValue::Text(s) => {
                    let c = chars_of(s.as_str());
                    let t = trim_chars(&c);
                    if t.len() > 0 {
                        Some(string_of(&t))
                    } else {
                        None
                    }
                },
                PropertyValue::Other(_) => None,
            },
            None => None,
        },
        Properties::NotObject(_) => None,
    }
}

/// The value under `key`: whether it is a JSON string, and its text.
pub fn property_value(props: &Properties, key: &str) -> (r: Option<(bool, String)>)
    ensures
        match r {
            Some((t, v)) => get_prop(props_view(*props), key@) == Some((t, v@)),
            None => get_prop(props_view(*props), key@) is None,
        },
{
    match props {
        Properties::Object(es) => match find_key(es, key) {
            Some(i) => match &es[i].1 {
                PropertyValue::Text(s) => Some((true, s.clone())),
                PropertyValue::Other(s) => Some((false, s.clone())),
            },
            None => None,
        },
        Properties::NotObject(_) => None,
    }
}

/// Read a page's collection marker, or `None` if it isn't one. A marker only
/// counts when its kind is a non-blank string.
pub fn collection_of(page: &Page) -> (r: Option<CollectionInfo>)
    ensures
        info_view(r) == collection_spec(props_view(page.properties)),
{
    let kind = read_string_prop(&page.properties, "collection");
    match kind {
        None => None,
        Some(kind) => {
            let status = read_string_prop(&page.properties, "collection-status");
            Some(CollectionInfo { kind, status })
        },
    }
}

/// Marks `props` as a collection of `kind`, leaving every other property
/// alone.
pub fn mark_collection(props: &mut Properties, kind: &str)
    ensures
        props_view(*final(props)) == mark_spec(props_view(*old(props)), kind@),
{
    let mut entries: Vec<(String, PropertyValue)> = Vec::new();
    let mut tmp = Properties::NotObject(String::new());
    std::mem::swap(&mut tmp, props);
    match tmp {
        Properties::Object(es) => {
            entries = es;
        },
        Properties::NotObject(_) => {},
    }
    let ghost before = entries@.map_values(|e: (String, PropertyValue)| entry_view(e));
    proof {
        assert(before == match props_view(*old(props)) {
            Some(es) => es,
            None => seq![],
        });
    }
    let value = PropertyValue::Text(crate::text::owned(kind));
    match find_key(&entries, "collection") {
        Some(i) => {
            let ghost old_entries = entries@;
            entries.set(i, (crate::text::owned("collection"), value));
            proof {
                assert(entries@ == old_entries.update(i as int, (entries@[i as int].0, value)));
            }
        },
        None => {
            entries.push((crate::text::owned("collection"), value));
        },
    }
    proof {
        assert(entries@.map_values(|e: (String, PropertyValue)| entry_view(e)) =~= set_entry(
            before,
            kind_key(),
            (true, kind@),
        ));
    }
    *props = Properties::Object(entries);
}

/// A copy of a value.
fn clone_value(v: &PropertyValue) -> (r: PropertyValue)
    ensures
        r == *v,
{
    match v {
        PropertyValue::Text(s) => PropertyValue::Text(s.clone()),
        PropertyValue::Other(s) => PropertyValue::Other(s.clone()),
    }
}

/// Remove every entry with key `key`.
fn remove_key(es: Vec<(String, PropertyValue)>, key: &str) -> (r: Vec<(String, PropertyValue)>)
    ensures
        r@.map_values(|e: (String, PropertyValue)| entry_view(e)) == remove_entry(
            es@.map_values(|e: (String, PropertyValue)| entry_view(e)),
            key@,
        ),
{
    let ghost v = es@.map_values(|e: (String, PropertyValue)| entry_view(e));
    let mut out: Vec<(String, PropertyValue)> = Vec::new();
    let mut i: usize = 0;
    while i < es.len()
        invariant
            i <= es.len(),
            v == es@.map_values(|e: (String, PropertyValue)| entry_view(e)),
            out@.map_values(|e: (String, PropertyValue)| entry_view(e)) == remove_entry(v.take(i as int), key@),
        decreases es.len() - i,
    {
        let k = chars_of(es[i].0.as_str());
        proof {
            assert(v.take(i + 1).drop_last() =~= v.take(i as int));
            assert(v.take(i + 1).last() == v[i as int]);
        }
        if !eq_str(&k, key) {
            let e = (es[i].0.clone(), clone_value(&es[i].1));
            let ghost before = out@;
            out.push(e);
            proof {
                assert(out@.map_values(|e: (String, PropertyValue)| entry_view(e)) =~= before.map_values(
                    |e: (String, PropertyValue)| entry_view(e),
                ).push(entry_view(e)));
            }
        }
        i += 1;
    }
    proof {
        assert(v.take(i as int) =~= v);
    }
    out
}

/// Removes the collection marking, leaving unrelated properties untouched.
pub fn clear_collection(props: &mut Properties)
    ensures
        props_view(*final(props)) == clear_spec(props_view(*old(props))),
        props_view(*old(props)) is None ==> *final(props) == *old(props),
{
    let mut tmp = Properties::NotObject(String::new());
    std::mem::swap(&mut tmp, props);
    match tmp {
        Properties::Object(es) => {
            let without_kind = remove_key(es, "collection");
            let without_status = remove_key(without_kind, "collection-status");
            *props = Properties::Object(without_status);
        },
        Properties::NotObject(raw) => {
            *props = Properties::NotObject(raw);
        },
    }
}

/// Where the first entry with a key is, if any.
proof fn lemma_key_index(es: Seq<(Seq<char>, (bool, Seq<char>))>, key: Seq<char>, i: int)
    requires
        0 <= i,
    ensures
        key_index_from(es, key, i) matches Some(j) ==> i <= j < es.len() && es[j].0 == key
            && forall|m: int| i <= m < j ==> es[m].0 != key,
        key_index_from(es, key, i) is None ==> forall|m: int| i <= m < es.len() ==> es[m].0 != key,
    decreases es.len() - i,
{
    if i < es.len() && es[i].0 != key {
        lemma_key_index(es, key, i + 1);
    }
}

/// Looking a key up after an append finds the old entry first.
proof fn lemma_key_index_push(es: Seq<(Seq<char>, (bool, Seq<char>))>, x: (Seq<char>, (bool, Seq<char>)), key: Seq<char>, i: int)
    requires
        0 <= i <= es.len(),
    ensures
        key_index_from(es.push(x), key, i) == match key_index_from(es, key, i) {
            Some(j) => Some(j),
            None => if x.0 == key {
                Some(es.len() as int)
            } else {
                None
            },
        },
    decreases es.len() - i,
{
    if i < es.len() {
        assert(es.push(x)[i] == es[i]);
        if es[i].0 != key {
            lemma_key_index_push(es, x, key, i + 1);
        }
    } else {
        assert(es.push(x)[i] == x);
        assert(key_index_from(es, key, i) is None);
        if x.0 != key {
            assert(key_index_from(es.push(x), key, i + 1) is None);
        }
    }
}

/// Replacing a value in place leaves every key where it was.
proof fn lemma_key_index_update(es: Seq<(Seq<char>, (bool, Seq<char>))>, j: int, v: (bool, Seq<char>), key: Seq<char>, i: int)
    requires
        0 <= j < es.len(),
        0 <= i,
    ensures
        key_index_from(es.update(j, (es[j].0, v)), key, i) == key_index_from(es, key, i),
    decreases es.len() - i,
{
    if i < es.len() {
        assert(es.update(j, (es[j].0, v))[i].0 == es[i].0);
        lemma_key_index_update(es, j, v, key, i + 1);
    }
}

/// What a key reads as after an append.
proof fn lemma_get_push(es: Seq<(Seq<char>, (bool, Seq<char>))>, x: (Seq<char>, (bool, Seq<char>)), key: Seq<char>)
    ensures
        get_entry(es.push(x), key) == match get_entry(es, key) {
            Some(v) => Some(v),
            None => if x.0 == key {
                Some(x.1)
            } else {
                None
            },
        },
{
    lemma_key_index_push(es, x, key, 0);
    lemma_key_index(es, key, 0);
    if let Some(j) = key_index_from(es, key, 0) {
        assert(es.push(x)[j] == es[j]);
    } else if x.0 == key {
        assert(es.push(x)[es.len() as int] == x);
    }
}

/// Setting a key: that key reads the new value and every other key reads
/// what it did.
proof fn lemma_get_set(es: Seq<(Seq<char>, (bool, Seq<char>))>, key: Seq<char>, v: (bool, Seq<char>), other: Seq<char>)
    ensures
        get_entry(set_entry(es, key, v), key) == Some(v),
        other != key ==> get_entry(set_entry(es, key, v), other) == get_entry(es, other),
{
    lemma_key_index(es, key, 0);
    match key_index_from(es, key, 0) {
        Some(j) => {
            assert(es.update(j, (key, v)) == es.update(j, (es[j].0, v)));
            lemma_key_index_update(es, j, v, key, 0);
            lemma_key_index_update(es, j, v, other, 0);
            lemma_key_index(es, other, 0);
            if let Some(m) = key_index_from(es, other, 0) {
                if other != key {
                    assert(m != j);
                }
            }
        },
        None => {
            lemma_get_push(es, (key, v), key);
            lemma_get_push(es, (key, v), other);
        },
    }
}

/// Removing a key: it reads as absent and every other key reads what it did.
proof fn lemma_get_remove(es: Seq<(Seq<char>, (bool, Seq<char>))>, key: Seq<char>, other: Seq<char>)
    ensures
        get_entry(remove_entry(es, key), key) is None,
        other != key ==> get_entry(remove_entry(es, key), other) == get_entry(es, other),
    decreases es.len(),
{
    if es.len() > 0 {
        lemma_get_remove(es.drop_last(), key, other);
        assert(es.drop_last().push(es.last()) =~= es);
        lemma_get_push(es.drop_last(), es.last(), other);
        if es.last().0 != key {
            lemma_get_push(remove_entry(es.drop_last(), key), es.last(), key);
            lemma_get_push(remove_entry(es.drop_last(), key), es.last(), other);
        }
    }
}

/// Removing a key that is not there changes nothing.
proof fn lemma_remove_absent(es: Seq<(Seq<char>, (bool, Seq<char>))>, key: Seq<char>)
    requires
        get_entry(es, key) is None,
    ensures
        remove_entry(es, key) == es,
    decreases es.len(),
{
    if es.len() > 0 {
        assert(es.drop_last().push(es.last()) =~= es);
        lemma_get_push(es.drop_last(), es.last(), key);
        lemma_remove_absent(es.drop_last(), key);
    }
}

/// Marking a page and reading it back gives the kind marked (trimmed), with
/// the status the page already had; marking touches no other property.
pub proof fn lemma_mark_then_read(p: Option<Seq<(Seq<char>, (bool, Seq<char>))>>, kind: Seq<char>, other: Seq<char>)
    requires
        trim(kind).len() > 0,
    ensures
        collection_spec(mark_spec(p, kind)) == Some(
            (trim(kind), if p is Some {
                string_prop(get_prop(p, status_key()))
            } else {
                None
            }),
        ),
        p is Some && other != kind_key() ==> get_prop(mark_spec(p, kind), other) == get_prop(p, other),
{
    let es = match p {
        Some(es) => es,
        None => seq![],
    };
    reveal_strlit("collection");
    reveal_strlit("collection-status");
    assert(status_key() != kind_key()) by {
        assert(status_key().len() != kind_key().len());
    }
    lemma_get_set(es, kind_key(), (true, kind), other);
    lemma_get_set(es, kind_key(), (true, kind), status_key());
    if p is None {
        assert(get_entry(seq![], status_key()) is None);
    }
}

/// Clearing removes exactly the marker: the page is no longer a
/// collection, and every other property reads as before.
pub proof fn lemma_clear_removes_only_marker(p: Option<Seq<(Seq<char>, (bool, Seq<char>))>>, other: Seq<char>)
    ensures
        get_prop(clear_spec(p), kind_key()) is None,
        get_prop(clear_spec(p), status_key()) is None,
        collection_spec(clear_spec(p)) is None,
        other != kind_key() && other != status_key() ==> get_prop(clear_spec(p), other) == get_prop(p, other),
{
    reveal_strlit("collection");
    reveal_strlit("collection-status");
    assert(status_key() != kind_key()) by {
        assert(status_key().len() != kind_key().len());
    }
    if let Some(es) = p {
        let once = remove_entry(es, kind_key());
        lemma_get_remove(es, kind_key(), other);
        lemma_get_remove(es, kind_key(), status_key());
        lemma_get_remove(once, status_key(), other);
        lemma_get_remove(once, status_key(), kind_key());
    }
}

/// Clearing a page that carries no marker leaves its properties as they were.
pub proof fn lemma_clear_without_marker(p: Option<Seq<(Seq<char>, (bool, Seq<char>))>>)
    requires
        get_prop(p, kind_key()) is None,
        get_prop(p, status_key()) is None,
    ensures
        clear_spec(p) == p,
{
    if let Some(es) = p {
        lemma_remove_absent(es, kind_key());
        lemma_remove_absent(es, status_key());
    }
}

} // verus!
