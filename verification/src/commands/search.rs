use vstd::prelude::*;
use crate::commands;
use crate::commands::{copy_fields, parse_fields, pick_str, push_member};
use crate::json;
use crate::json::{Json, JsonNumber, JsonV, NumberV};
use crate::text;

verus! {

/// The list held by an array value.
pub open spec fn array_of(v: Option<JsonV>) -> Option<Seq<JsonV>> {
    match v {
        Some(JsonV::Array(items)) => Some(items),
        _ => None,
    }
}

/// The non-negative integer held by a value.
pub open spec fn u64_of(v: Option<JsonV>) -> Option<u64> {
    match v {
        Some(j) => j.as_u64(),
        None => None,
    }
}

/// The actions of a search reply: the list under `items`, else the one under
/// `results`, else the one under `data.items`, else none.
pub open spec fn result_items(raw: JsonV) -> Seq<JsonV> {
    match array_of(raw.get("items"@)) {
        Some(v) => v,
        None => match array_of(raw.get("results"@)) {
            Some(v) => v,
            None => match raw.get("data"@) {
                Some(d) => match array_of(d.get("items"@)) {
                    Some(v) => v,
                    None => Seq::empty(),
                },
                None => Seq::empty(),
            },
        },
    }
}

/// The total number of matches that a search reply reports: `total`, else
/// `count`, else `pagination.total`.
pub open spec fn result_total(raw: JsonV) -> Option<u64> {
    match u64_of(raw.get("total"@)) {
        Some(t) => Some(t),
        None => match u64_of(raw.get("count"@)) {
            Some(c) => Some(c),
            None => match raw.get("pagination"@) {
                Some(p) => u64_of(p.get("total"@)),
                None => None,
            },
        },
    }
}

/// The list under `key` of `raw`, if `raw` has one.
fn array_member(raw: &Json, key: &str) -> (r: Option<Vec<Json>>)
    ensures
        match r {
            Some(v) => array_of(raw@.get(key@)) == Some(json::items_view(v@)),
            None => array_of(raw@.get(key@)) is None,
        },
{
    match raw.get(key) {
        Some(v) => match v.as_array() {
            Some(items) => Some(json::clone_items(items)),
            None => None,
        },
        None => None,
    }
}

/// The actions listed in a search reply.
pub fn extract_items(raw: &Json) -> (r: Vec<Json>)
    ensures
        json::items_view(r@) == result_items(raw@),
{
    if let Some(v) = array_member(raw, "items") {
        return v;
    }
    if let Some(v) = array_member(raw, "results") {
        return v;
    }
    if let Some(d) = raw.get("data") {
        if let Some(v) = array_member(d, "items") {
            return v;
        }
    }
    let r: Vec<Json> = Vec::new();
    assert(json::items_view(r@) =~= Seq::empty());
    r
}

fn u64_member(raw: &Json, key: &str) -> (r: Option<u64>)
    ensures
        r == u64_of(raw@.get(key@)),
{
    match raw.get(key) {
        Some(v) => v.as_u64(),
        None => None,
    }
}

/// The total number of matches that a search reply reports.
pub fn extract_total(raw: &Json) -> (r: Option<u64>)
    ensures
        r == result_total(raw@),
{
    if let Some(t) = u64_member(raw, "total") {
        return Some(t);
    }
    if let Some(c) = u64_member(raw, "count") {
        return Some(c);
    }
    match raw.get("pagination") {
        Some(p) => u64_member(p, "total"),
        None => None,
    }
}

/// A string member under the first of `keys` that has one, else `default`.
pub open spec fn str_or(item: JsonV, keys: Seq<Seq<char>>, default: Seq<char>) -> Seq<char> {
    match commands::first_str(item, keys) {
        Some(s) => s,
        None => default,
    }
}

/// The row shown for one action: its id, title and status, then the
/// requested fields that it has.
pub open spec fn result_row(item: JsonV, fields: Seq<Seq<char>>) -> JsonV {
    let id = str_or(item, seq!["area_id"@, "id"@, "action_id"@], "(no id)"@);
    let title = str_or(item, seq!["title"@, "name"@, "summary"@], "(untitled)"@);
    let status = str_or(item, seq!["status"@, "state"@], "unknown"@);
    JsonV::Object(
        commands::add_fields(
            seq![("id"@, JsonV::Str(id)), ("title"@, JsonV::Str(title)), ("status"@, JsonV::Str(status))],
            item,
            fields,
        ),
    )
}

pub open spec fn number(n: u64) -> JsonV {
    JsonV::Number(NumberV::PosInt(n))
}

/// The result of a search, as shown to the user.
pub open spec fn search_data(query: Seq<char>, raw: JsonV, fields: Seq<Seq<char>>) -> JsonV {
    let items = result_items(raw);
    let total = match result_total(raw) {
        Some(t) => t,
        None => items.len() as u64,
    };
    if items.len() == 0 {
        JsonV::Object(
            seq![
                ("query"@, JsonV::Str(query)),
                ("count"@, JsonV::Object(seq![("shown"@, number(0)), ("total"@, number(total))])),
                ("message"@, JsonV::Str("0 actions found for query \""@ + query + "\""@)),
                (
                    "help"@,
                    JsonV::Array(
                        seq![
                            JsonV::Str("Run actionbook search \"<query>\" --domain \"<domain>\""@),
                            JsonV::Str("Run actionbook search \"<query>\" --url \"<url>\""@),
                        ],
                    ),
                ),
            ],
        )
    } else {
        JsonV::Object(
            seq![
                ("query"@, JsonV::Str(query)),
                (
                    "count"@,
                    JsonV::Object(seq![("shown"@, number(items.len() as u64)), ("total"@, number(total))]),
                ),
                ("items"@, JsonV::Array(items.map_values(|it: JsonV| result_row(it, fields)))),
                (
                    "help"@,
                    JsonV::Array(
                        seq![
                            JsonV::Str("Run actionbook get \"<id>\""@),
                            JsonV::Str("Run actionbook search \"<query>\" --fields \"id,title,status,url,score\""@),
                        ],
                    ),
                ),
            ],
        )
    }
}

fn str_member(item: &Json, keys: &[&str], default: &str) -> (r: Json)
    ensures
        r@ == JsonV::Str(str_or(item@, commands::keys_view(keys), default@)),
{
    match pick_str(item, keys) {
        Some(s) => Json::Str(s.clone()),
        None => Json::string(default),
    }
}

/// The row shown for one action.
fn result_row_of(item: &Json, fields: &Vec<String>) -> (r: Json)
    ensures
        r@ == result_row(item@, commands::strings_view(fields@)),
{
    let k1: [&str; 3] = ["area_id", "id", "action_id"];
    let k2: [&str; 3] = ["title", "name", "summary"];
    let k3: [&str; 2] = ["status", "state"];
    let s1 = k1.as_slice();
    let s2 = k2.as_slice();
    let s3 = k3.as_slice();
    assert(commands::keys_view(s1) =~= seq!["area_id"@, "id"@, "action_id"@]);
    assert(commands::keys_view(s2) =~= seq!["title"@, "name"@, "summary"@]);
    assert(commands::keys_view(s3) =~= seq!["status"@, "state"@]);
    let mut row: Vec<(String, Json)> = Vec::new();
    assert(json::entries_view(row@) =~= Seq::empty());
    push_member(&mut row, "id", str_member(item, s1, "(no id)"));
    push_member(&mut row, "title", str_member(item, s2, "(untitled)"));
    push_member(&mut row, "status", str_member(item, s3, "unknown"));
    assert(json::entries_view(row@) =~= seq![
        ("id"@, JsonV::Str(str_or(item@, seq!["area_id"@, "id"@, "action_id"@], "(no id)"@))),
        ("title"@, JsonV::Str(str_or(item@, seq!["title"@, "name"@, "summary"@], "(untitled)"@))),
        ("status"@, JsonV::Str(str_or(item@, seq!["status"@, "state"@], "unknown"@))),
    ]);
    copy_fields(&mut row, item, fields);
    proof {
        json::lemma_object_view(row);
    }
    Json::Object(row)
}

fn string_array(a: &str, b: &str) -> (r: Json)
    ensures
        r@ == JsonV::Array(seq![JsonV::Str(a@), JsonV::Str(b@)]),
{
    let mut v: Vec<Json> = Vec::new();
    v.push(Json::string(a));
    v.push(Json::string(b));
    proof {
        json::lemma_array_view(v);
    }
    assert(json::items_view(v@) =~= seq![JsonV::Str(a@), JsonV::Str(b@)]);
    Json::Array(v)
}

fn count_object(shown: u64, total: u64) -> (r: Json)
    ensures
        r@ == JsonV::Object(seq![("shown"@, number(shown)), ("total"@, number(total))]),
{
    let mut c: Vec<(String, Json)> = Vec::new();
    assert(json::entries_view(c@) =~= Seq::empty());
    push_member(&mut c, "shown", Json::Number(JsonNumber::PosInt(shown)));
    push_member(&mut c, "total", Json::Number(JsonNumber::PosInt(total)));
    assert(json::entries_view(c@) =~= seq![("shown"@, number(shown)), ("total"@, number(total))]);
    proof {
        json::lemma_object_view(c);
    }
    Json::Object(c)
}

/// The result of a search, as shown to the user: the query, how many actions
/// are shown out of how many matched, the rows (each with the requested
/// `fields`) or a message that nothing was found, and hints for what to run
/// next.
pub fn search_results(query: &str, raw: &Json, fields: Option<&str>) -> (r: Json)
    ensures
        r@ == search_data(
            query@,
            raw@,
            commands::requested_fields(
                match fields {
                    Some(f) => Some(f@),
                    None => None,
                },
            ),
        ),
{
    let selected = parse_fields(fields);
    let items = extract_items(raw);
    let total = match extract_total(raw) {
        Some(t) => t,
        None => items.len() as u64,
    };
    let ghost iv = json::items_view(items@);
    let ghost fs = commands::strings_view(selected@);
    let mut rows: Vec<Json> = Vec::new();
    for i in 0..items.len()
        invariant
            iv == json::items_view(items@),
            fs == commands::strings_view(selected@),
            rows@.len() == i,
            forall|j: int| 0 <= j < i ==> json::json_view(#[trigger] rows@[j]) == result_row(iv[j], fs),
    {
        let row = result_row_of(&items[i], &selected);
        rows.push(row);
    }
    let n = rows.len();
    let mut data: Vec<(String, Json)> = Vec::new();
    assert(json::entries_view(data@) =~= Seq::empty());
    push_member(&mut data, "query", Json::string(query));
    if n == 0 {
        push_member(&mut data, "count", count_object(0, total));
        let msg = text::chars_of("0 actions found for query \"");
        let q = text::chars_of(query);
        let closing = text::chars_of("\"");
        let m1 = text::concat_chars(&msg, &q);
        let m2 = text::concat_chars(&m1, &closing);
        push_member(&mut data, "message", Json::Str(text::string_from_chars(&m2)));
        push_member(
            &mut data,
            "help",
            string_array(
                "Run actionbook search \"<query>\" --domain \"<domain>\"",
                "Run actionbook search \"<query>\" --url \"<url>\"",
            ),
        );
        assert(json::entries_view(data@) =~= search_data(query@, raw@, fs)->Object_0);
    } else {
        push_member(&mut data, "count", count_object(n as u64, total));
        proof {
            json::lemma_array_view(rows);
            assert(json::items_view(rows@) =~= iv.map_values(|it: JsonV| result_row(it, fs)));
        }
        push_member(&mut data, "items", Json::Array(rows));
        push_member(
            &mut data,
            "help",
            string_array(
                "Run actionbook get \"<id>\"",
                "Run actionbook search \"<query>\" --fields \"id,title,status,url,score\"",
            ),
        );
        assert(json::entries_view(data@) =~= search_data(query@, raw@, fs)->Object_0);
    }
    proof {
        json::lemma_object_view(data);
    }
    Json::Object(data)
}

/// The reply as it came: the text of a reply that was not JSON, else the
/// reply written as indented JSON.
pub open spec fn legacy_text_of(raw: JsonV) -> Seq<char> {
    match raw.get_str("raw_text"@) {
        Some(t) => t,
        None => json::pretty_text(raw),
    }
}

/// The reply as it came, for the legacy output.
pub fn legacy_text(raw: &Json) -> (r: String)
    ensures
        r@ == legacy_text_of(raw@),
{
    match raw_text_of(raw) {
        Some(t) => t,
        None => json::pretty_json(raw),
    }
}

/// The reply text kept when the reply was not JSON.
pub fn raw_text_of(raw: &Json) -> (r: Option<String>)
    ensures
        match r {
            Some(s) => raw@.get_str("raw_text"@) == Some(s@),
            None => raw@.get_str("raw_text"@) is None,
        },
{
    match raw.get("raw_text") {
        Some(v) => match v.as_str() {
            Some(s) => Some(s.clone()),
            None => None,
        },
        None => None,
    }
}

} // verus!
