use vstd::prelude::*;
use serde_json::{Number, Value};

verus! {

/// A JSON number as the library reads it: a non-negative integer, a negative
/// integer, or any other number, kept by its decimal text.
pub enum JsonNumber {
    PosInt(u64),
    NegInt(i64),
    Other(String),
}

/// A JSON document. An object keeps its members in order; a key that is set
/// again keeps its place.
pub enum Json {
    Null,
    Bool(bool),
    Number(JsonNumber),
    Str(String),
    Array(Vec<Json>),
    Object(Vec<(String, Json)>),
}

/// The mathematical value of a `JsonNumber`.
pub enum NumberV {
    PosInt(u64),
    NegInt(i64),
    Other(Seq<char>),
}

/// The mathematical value of a `Json` document.
pub enum JsonV {
    Null,
    Bool(bool),
    Number(NumberV),
    Str(Seq<char>),
    Array(Seq<JsonV>),
    Object(Seq<(Seq<char>, JsonV)>),
}

pub open spec fn number_view(n: JsonNumber) -> NumberV {
    match n {
        JsonNumber::PosInt(u) => NumberV::PosInt(u),
        JsonNumber::NegInt(i) => NumberV::NegInt(i),
        JsonNumber::Other(s) => NumberV::Other(s@),
    }
}

pub open spec fn json_view(j: Json) -> JsonV
    decreases j,
{
    match j {
        Json::Null => JsonV::Null,
        Json::Bool(b) => JsonV::Bool(b),
        Json::Number(n) => JsonV::Number(number_view(n)),
        Json::Str(s) => JsonV::Str(s@),
        Json::Array(items) => JsonV::Array(
            Seq::new(
                items.len() as nat,
                |i: int|
                    if 0 <= i < items.len() {
                        json_view(items[i])
                    } else {
                        JsonV::Null
                    },
            ),
        ),
        Json::Object(entries) => JsonV::Object(
            Seq::new(
                entries.len() as nat,
                |i: int|
                    if 0 <= i < entries.len() {
                        (entries[i].0@, json_view(entries[i].1))
                    } else {
                        (Seq::empty(), JsonV::Null)
                    },
            ),
        ),
    }
}

impl View for Json {
    type V = JsonV;

    open spec fn view(&self) -> JsonV {
        json_view(*self)
    }
}

/// The members of an object taken as a sequence of (key, value) pairs.
pub open spec fn entries_view(entries: Seq<(String, Json)>) -> Seq<(Seq<char>, JsonV)> {
    Seq::new(entries.len(), |i: int| (entries[i].0@, json_view(entries[i].1)))
}

/// The values of an array.
pub open spec fn items_view(items: Seq<Json>) -> Seq<JsonV> {
    Seq::new(items.len(), |i: int| json_view(items[i]))
}

/// `i` is the position of the first member named `k`.
pub open spec fn is_first_key(entries: Seq<(Seq<char>, JsonV)>, k: Seq<char>, i: int) -> bool {
    &&& 0 <= i < entries.len()
    &&& entries[i].0 == k
    &&& forall|j: int| 0 <= j < i ==> entries[j].0 != k
}

/// The position of the first member named `k`, if there is one.
pub open spec fn key_pos(entries: Seq<(Seq<char>, JsonV)>, k: Seq<char>) -> Option<int> {
    if exists|i: int| is_first_key(entries, k, i) {
        Some(choose|i: int| is_first_key(entries, k, i))
    } else {
        None
    }
}

/// The value of the member named `k`.
pub open spec fn obj_get(entries: Seq<(Seq<char>, JsonV)>, k: Seq<char>) -> Option<JsonV> {
    match key_pos(entries, k) {
        Some(i) => Some(entries[i].1),
        None => None,
    }
}

/// The members after setting `k` to `v`: an existing member keeps its place,
/// a new one goes last.
pub open spec fn obj_insert(entries: Seq<(Seq<char>, JsonV)>, k: Seq<char>, v: JsonV) -> Seq<(Seq<char>, JsonV)> {
    match key_pos(entries, k) {
        Some(i) => entries.update(i, (k, v)),
        None => entries.push((k, v)),
    }
}

/// Whether some member is named `k`.
pub open spec fn has_key(entries: Seq<(Seq<char>, JsonV)>, k: Seq<char>) -> bool {
    exists|i: int| 0 <= i < entries.len() && entries[i].0 == k
}

impl JsonV {
    /// The member `k` of an object; nothing for any other value.
    pub open spec fn get(self, k: Seq<char>) -> Option<JsonV> {
        match self {
            JsonV::Object(entries) => obj_get(entries, k),
            _ => None,
        }
    }

    pub open spec fn as_str(self) -> Option<Seq<char>> {
        match self {
            JsonV::Str(s) => Some(s),
            _ => None,
        }
    }

    pub open spec fn as_array(self) -> Option<Seq<JsonV>> {
        match self {
            JsonV::Array(items) => Some(items),
            _ => None,
        }
    }

    pub open spec fn as_u64(self) -> Option<u64> {
        match self {
            JsonV::Number(NumberV::PosInt(u)) => Some(u),
            _ => None,
        }
    }

    pub open spec fn is_object(self) -> bool {
        self is Object
    }

    /// The member `k` as a string.
    pub open spec fn get_str(self, k: Seq<char>) -> Option<Seq<char>> {
        match self.get(k) {
            Some(v) => v.as_str(),
            None => None,
        }
    }
}

/// A key with no first occurrence occurs nowhere.
pub proof fn lemma_key_pos_none(entries: Seq<(Seq<char>, JsonV)>, k: Seq<char>)
    requires
        key_pos(entries, k) is None,
    ensures
        !has_key(entries, k),
{
    if has_key(entries, k) {
        let i = choose|i: int| 0 <= i < entries.len() && entries[i].0 == k;
        lemma_first_key_exists(entries, k, i);
    }
}

proof fn lemma_first_key_exists(entries: Seq<(Seq<char>, JsonV)>, k: Seq<char>, i: int)
    requires
        0 <= i < entries.len(),
        entries[i].0 == k,
    ensures
        exists|j: int| is_first_key(entries, k, j),
    decreases i,
{
    if forall|j: int| 0 <= j < i ==> entries[j].0 != k {
        assert(is_first_key(entries, k, i));
    } else {
        let j = choose|j: int| 0 <= j < i && entries[j].0 == k;
        lemma_first_key_exists(entries, k, j);
    }
}

/// The first occurrence is unique, so `key_pos` names it.
pub proof fn lemma_key_pos_is(entries: Seq<(Seq<char>, JsonV)>, k: Seq<char>, i: int)
    requires
        is_first_key(entries, k, i),
    ensures
        key_pos(entries, k) == Some(i),
{
    let c = choose|c: int| is_first_key(entries, k, c);
    assert(is_first_key(entries, k, c));
    if c < i {
        assert(entries[c].0 != k);
    } else if i < c {
        assert(entries[i].0 != k);
    }
}

/// Reading a member after setting it gives the value written, and setting
/// one member leaves every other member as it was.
pub proof fn law_object_read_after_write(entries: Seq<(Seq<char>, JsonV)>, k: Seq<char>, v: JsonV)
    ensures
        obj_get(obj_insert(entries, k, v), k) == Some(v),
        forall|k2: Seq<char>| k2 != k ==> obj_get(obj_insert(entries, k, v), k2) == obj_get(entries, k2),
{
    let ins = obj_insert(entries, k, v);
    match key_pos(entries, k) {
        Some(i) => {
            assert(is_first_key(entries, k, i));
            assert(is_first_key(ins, k, i));
            lemma_key_pos_is(ins, k, i);
            assert forall|k2: Seq<char>| k2 != k implies obj_get(ins, k2) == obj_get(entries, k2) by {
                lemma_obj_insert_other(entries, k, v, k2);
            }
        },
        None => {
            lemma_key_pos_none(entries, k);
            let n = entries.len() as int;
            assert(is_first_key(ins, k, n));
            lemma_key_pos_is(ins, k, n);
            assert forall|k2: Seq<char>| k2 != k implies obj_get(ins, k2) == obj_get(entries, k2) by {
                lemma_obj_insert_other(entries, k, v, k2);
            }
        },
    }
}

proof fn lemma_obj_insert_other(entries: Seq<(Seq<char>, JsonV)>, k: Seq<char>, v: JsonV, k2: Seq<char>)
    requires
        k2 != k,
    ensures
        obj_get(obj_insert(entries, k, v), k2) == obj_get(entries, k2),
{
    let ins = obj_insert(entries, k, v);
    assert forall|j: int| 0 <= j < ins.len() && j != entries.len() implies ins[j].0 == k2 <==> entries[j].0 == k2 by {}
    match key_pos(entries, k2) {
        Some(i) => {
            assert(is_first_key(entries, k2, i));
            assert(is_first_key(ins, k2, i));
            lemma_key_pos_is(ins, k2, i);
        },
        None => {
            lemma_key_pos_none(entries, k2);
            if key_pos(ins, k2) is Some {
                let i = key_pos(ins, k2)->0;
                assert(is_first_key(ins, k2, i));
                assert(entries[i].0 == k2);
            }
        },
    }
}

/// No two members share a key, as in a JSON object read from text.
pub open spec fn keys_unique(entries: Seq<(Seq<char>, JsonV)>) -> bool {
    forall|i: int, j: int| 0 <= i < j < entries.len() ==> entries[i].0 != entries[j].0
}

/// Setting a member keeps the keys of an object distinct.
pub proof fn law_insert_keeps_keys_unique(entries: Seq<(Seq<char>, JsonV)>, k: Seq<char>, v: JsonV)
    requires
        keys_unique(entries),
    ensures
        keys_unique(obj_insert(entries, k, v)),
{
    let ins = obj_insert(entries, k, v);
    match key_pos(entries, k) {
        Some(i) => {
            assert(is_first_key(entries, k, i));
            assert forall|a: int, b: int| 0 <= a < b < ins.len() implies ins[a].0 != ins[b].0 by {
                if a == i {
                    assert(entries[b].0 != entries[i].0);
                } else if b == i {
                    assert(entries[a].0 != entries[i].0);
                }
            }
        },
        None => {
            lemma_key_pos_none(entries, k);
            assert forall|a: int, b: int| 0 <= a < b < ins.len() implies ins[a].0 != ins[b].0 by {
                if b == entries.len() {
                    assert(entries[a].0 != k);
                }
            }
        },
    }
}

/// A number as serde_json keeps it: a negative integer is negative (a
/// non-negative one is kept as unsigned).
pub open spec fn number_wf(n: NumberV) -> bool {
    match n {
        NumberV::NegInt(i) => i < 0,
        _ => true,
    }
}

/// A document as serde_json can hold it: numbers as above, and no object with
/// two members under one key, at any depth.
pub open spec fn json_wf(j: JsonV) -> bool
    decreases j,
{
    match j {
        JsonV::Number(n) => number_wf(n),
        JsonV::Array(items) => forall|i: int| 0 <= i < items.len() ==> json_wf(#[trigger] items[i]),
        JsonV::Object(entries) => {
            &&& keys_unique(entries)
            &&& forall|i: int| 0 <= i < entries.len() ==> json_wf(#[trigger] entries[i].1)
        },
        _ => true,
    }
}

/// A declaration of serde_json's document type, which the parse and print
/// wrappers convert from and to.
#[verifier::external_type_specification]
#[verifier::external_body]
pub struct ExValue(serde_json::Value);

/// The document that serde_json reads from `text`, if `text` is JSON.
pub uninterp spec fn json_of_text(text: Seq<char>) -> Option<JsonV>;

/// The text that serde_json's pretty printer writes for a document.
pub uninterp spec fn pretty_text(j: JsonV) -> Seq<char>;

/// Converts a serde_json document, variant by variant. A number is kept as
/// unsigned when serde_json gives it as `u64`, as signed when it gives it as
/// `i64` only, and by its text otherwise.
#[verifier::external_body]
fn json_from_value(v: Value) -> Json {
    match v {
        Value::Null => Json::Null,
        Value::Bool(b) => Json::Bool(b),
        Value::Number(n) => Json::Number(match (n.as_u64(), n.as_i64()) {
            (Some(u), _) => JsonNumber::PosInt(u),
            (None, Some(i)) => JsonNumber::NegInt(i),
            _ => JsonNumber::Other(n.to_string()),
        }),
        Value::String(s) => Json::Str(s),
        Value::Array(a) => Json::Array(a.into_iter().map(json_from_value).collect()),
        Value::Object(m) => Json::Object(m.into_iter().map(|(k, x)| (k, json_from_value(x))).collect()),
    }
}

/// Converts a document to serde_json's, variant by variant. Number text is
/// read back with serde_json's own number parser, which (with its
/// `float_roundtrip` feature) gives back exactly the number that wrote it.
#[verifier::external_body]
fn json_to_value(j: &Json) -> Value {
    match j {
        Json::Null => Value::Null,
        Json::Bool(b) => Value::Bool(*b),
        Json::Number(JsonNumber::PosInt(u)) => Value::from(*u),
        Json::Number(JsonNumber::NegInt(i)) => Value::from(*i),
        Json::Number(JsonNumber::Other(t)) => t.parse::<Number>().map_or(Value::Null, Value::Number),
        Json::Str(s) => Value::String(s.clone()),
        Json::Array(items) => Value::Array(items.iter().map(json_to_value).collect()),
        Json::Object(e) => Value::Object(e.iter().map(|(k, x)| (k.clone(), json_to_value(x))).collect()),
    }
}

/// Reads JSON text. Calls serde_json's `from_str` into its `Value`, then
/// converts. The contract names the document read and claims of it only what
/// serde_json's `Value` guarantees: keys are distinct (a map), and a negative
/// integer is the only one kept as signed.
#[verifier::external_body]
pub fn parse_json(text: &str) -> (r: Option<Json>)
    ensures
        match r {
            Some(j) => json_of_text(text@) == Some(j@) && json_wf(j@),
            None => json_of_text(text@) is None,
        },
{
    match serde_json::from_str::<serde_json::Value>(text) {
        Ok(v) => Some(json_from_value(v)),
        Err(_) => None,
    }
}

/// Writes a document as indented JSON text. Converts it to serde_json's
/// `Value` and calls `to_string_pretty` (the compact text should that fail).
/// The contract names the text and claims nothing of its form.
#[verifier::external_body]
pub fn pretty_json(j: &Json) -> (r: String)
    ensures
        r@ == pretty_text(j@),
{
    let v = json_to_value(j);
    match serde_json::to_string_pretty(&v) {
        Ok(t) => t,
        Err(_) => v.to_string(),
    }
}

/// Searches `entries` for the first member named `key`.
pub fn find_key(entries: &Vec<(String, Json)>, key: &String) -> (r: Option<usize>)
    ensures
        r matches Some(i) ==> key_pos(entries_view(entries@), key@) == Some(i as int),
        r is None ==> key_pos(entries_view(entries@), key@) is None,
{
    let ghost ev = entries_view(entries@);
    let mut i: usize = 0;
    while i < entries.len()
        invariant
            i <= entries.len(),
            ev == entries_view(entries@),
            forall|j: int| 0 <= j < i ==> ev[j].0 != key@,
        decreases entries.len() - i,
    {
        if entries[i].0 == *key {
            proof {
                assert(is_first_key(ev, key@, i as int));
                lemma_key_pos_is(ev, key@, i as int);
            }
            return Some(i);
        }
        i = i + 1;
    }
    proof {
        if exists|j: int| is_first_key(ev, key@, j) {
            let j = choose|j: int| is_first_key(ev, key@, j);
            assert(ev[j].0 != key@);
        }
    }
    None
}

pub proof fn lemma_object_view(entries: Vec<(String, Json)>)
    ensures
        json_view(Json::Object(entries)) == JsonV::Object(entries_view(entries@)),
{
    let s = json_view(Json::Object(entries))->Object_0;
    assert(s =~= entries_view(entries@));
}

pub proof fn lemma_array_view(items: Vec<Json>)
    ensures
        json_view(Json::Array(items)) == JsonV::Array(items_view(items@)),
{
    let s = json_view(Json::Array(items))->Array_0;
    assert(s =~= items_view(items@));
}

/// Copies of the values of an array.
pub fn clone_items(items: &Vec<Json>) -> (r: Vec<Json>)
    ensures
        items_view(r@) == items_view(items@),
    decreases items@,
{
    let mut r: Vec<Json> = Vec::new();
    for i in 0..items.len()
        invariant
            r@.len() == i,
            i <= items.len(),
            forall|j: int| 0 <= j < i ==> json_view(#[trigger] r@[j]) == json_view(items@[j]),
    {
        assert(decreases_to!(items@ => items@[i as int]));
        let c = items[i].deep_clone();
        r.push(c);
    }
    assert(items_view(r@) =~= items_view(items@));
    r
}

/// Copies of the members of an object.
pub fn clone_entries(entries: &Vec<(String, Json)>) -> (r: Vec<(String, Json)>)
    ensures
        entries_view(r@) == entries_view(entries@),
    decreases entries@,
{
    let mut r: Vec<(String, Json)> = Vec::new();
    for i in 0..entries.len()
        invariant
            r@.len() == i,
            i <= entries.len(),
            forall|j: int|
                0 <= j < i ==> (#[trigger] r@[j]).0@ == entries@[j].0@ && json_view(r@[j].1)
                    == json_view(entries@[j].1),
    {
        assert(decreases_to!(entries@ => entries@[i as int]));
        assert(decreases_to!(entries@[i as int] => entries@[i as int].1));
        let k = entries[i].0.clone();
        let v = entries[i].1.deep_clone();
        r.push((k, v));
    }
    assert(entries_view(r@) =~= entries_view(entries@));
    r
}

/// Sets the member `key` of `entries` to `value`.
pub fn set_member(entries: &mut Vec<(String, Json)>, key: String, value: Json)
    ensures
        entries_view(final(entries)@) == obj_insert(entries_view(old(entries)@), key@, value@),
{
    let ghost ev = entries_view(entries@);
    let ghost kv = key@;
    let ghost vv = value@;
    match find_key(entries, &key) {
        Some(i) => {
            entries.set(i, (key, value));
            assert(entries_view(entries@) =~= ev.update(i as int, (kv, vv)));
        },
        None => {
            entries.push((key, value));
            assert(entries_view(entries@) =~= ev.push((kv, vv)));
        },
    }
}

impl Json {
    /// A copy of this document.
    pub fn deep_clone(&self) -> (r: Json)
        ensures
            r@ == self@,
        decreases *self,
    {
        match self {
            Json::Null => Json::Null,
            Json::Bool(b) => Json::Bool(*b),
            Json::Number(n) => Json::Number(
                match n {
                    JsonNumber::PosInt(u) => JsonNumber::PosInt(*u),
                    JsonNumber::NegInt(i) => JsonNumber::NegInt(*i),
                    JsonNumber::Other(t) => JsonNumber::Other(t.clone()),
                },
            ),
            Json::Str(t) => Json::Str(t.clone()),
            Json::Array(items) => {
                let c = clone_items(items);
                proof {
                    lemma_array_view(*items);
                    lemma_array_view(c);
                }
                Json::Array(c)
            },
            Json::Object(entries) => {
                let c = clone_entries(entries);
                proof {
                    lemma_object_view(*entries);
                    lemma_object_view(c);
                }
                Json::Object(c)
            },
        }
    }

    /// An object with no members.
    pub fn new_object() -> (r: Json)
        ensures
            r@ == JsonV::Object(Seq::empty()),
    {
        let entries: Vec<(String, Json)> = Vec::new();
        proof {
            lemma_object_view(entries);
        }
        assert(entries_view(entries@) =~= Seq::empty());
        Json::Object(entries)
    }

    /// A string value.
    pub fn string(s: &str) -> (r: Json)
        ensures
            r@ == JsonV::Str(s@),
    {
        Json::Str(s.to_owned())
    }

    /// The member `key` of an object; nothing for any other value.
    pub fn get(&self, key: &str) -> (r: Option<&Json>)
        ensures
            r matches Some(v) ==> self@.get(key@) == Some(v@),
            r is None ==> self@.get(key@) is None,
    {
        match self {
            Json::Object(entries) => {
                proof {
                    lemma_object_view(*entries);
                }
                let k = key.to_owned();
                match find_key(entries, &k) {
                    Some(i) => Some(&entries[i].1),
                    None => None,
                }
            },
            _ => None,
        }
    }

    pub fn as_str(&self) -> (r: Option<&String>)
        ensures
            r matches Some(s) ==> self@.as_str() == Some(s@),
            r is None ==> self@.as_str() is None,
    {
        match self {
            Json::Str(s) => Some(s),
            _ => None,
        }
    }

    pub fn as_array(&self) -> (r: Option<&Vec<Json>>)
        ensures
            r matches Some(v) ==> self@.as_array() == Some(items_view(v@)),
            r is None ==> self@.as_array() is None,
    {
        match self {
            Json::Array(items) => {
                proof {
                    lemma_array_view(*items);
                }
                Some(items)
            },
            _ => None,
        }
    }

    pub fn as_u64(&self) -> (r: Option<u64>)
        ensures
            r == self@.as_u64(),
    {
        match self {
            Json::Number(JsonNumber::PosInt(u)) => Some(*u),
            _ => None,
        }
    }

    pub fn is_object(&self) -> (r: bool)
        ensures
            r == self@.is_object(),
    {
        match self {
            Json::Object(_) => true,
            _ => false,
        }
    }
}

} // verus!
