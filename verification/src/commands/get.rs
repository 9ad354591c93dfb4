use vstd::prelude::*;
use crate::commands;
use crate::commands::{copy_fields, parse_fields, pick_str, push_member};
use crate::commands::search::{number, str_or};
use crate::json;
use crate::json::{Json, JsonNumber, JsonV};
use crate::text;

verus! {

/// The first `max` characters of `text`, whether characters were cut off,
/// and how many characters `text` has.
pub open spec fn preview_of(text: Seq<char>, max: nat) -> (Seq<char>, bool, nat) {
    if text.len() <= max {
        (text, false, text.len())
    } else {
        (text.take(max as int), true, text.len())
    }
}

/// A preview of `text`: at most `max_chars` characters, whether it was cut,
/// and the number of characters of the whole text.
pub fn truncate_text_preview(text: &str, max_chars: usize) -> (r: (String, bool, usize))
    ensures
        (r.0@, r.1, r.2 as nat) == preview_of(text@, max_chars as nat),
{
    let cs = text::chars_of(text);
    let total = cs.len();
    if total <= max_chars {
        (text::string_from_chars(&cs), false, total)
    } else {
        let head = text::sub_chars(&cs, 0, max_chars);
        assert(head@ =~= cs@.take(max_chars as int));
        (text::string_from_chars(&head), true, total)
    }
}

/// The longest body shown unless the full body is asked for.
pub open spec fn preview_chars() -> nat {
    900
}

/// The hint shown when a body was cut.
pub open spec fn full_hint(area_id: Seq<char>) -> Seq<char> {
    "Run actionbook get \""@ + area_id + "\" --full"@
}

/// The members that show an action's body: the whole body, or a preview of
/// it with a note that it was cut, its length, and how to see all of it.
pub open spec fn body_members(area_id: Seq<char>, body: Seq<char>, full: bool) -> Seq<(Seq<char>, JsonV)> {
    if full {
        seq![("body"@, JsonV::Str(body))]
    } else {
        let p = preview_of(body, preview_chars());
        if p.1 {
            seq![
                ("body"@, JsonV::Str(p.0)),
                ("body_truncated"@, JsonV::Bool(true)),
                ("body_total_chars"@, number(p.2 as u64)),
                ("help"@, JsonV::Array(seq![JsonV::Str(full_hint(area_id))])),
            ]
        } else {
            seq![("body"@, JsonV::Str(p.0))]
        }
    }
}

/// The members of an action reply that is a JSON object (and not a wrapped
/// plain text reply).
pub open spec fn detail_of(raw: JsonV) -> Option<Seq<(Seq<char>, JsonV)>> {
    if raw.get("raw_text"@) is None {
        match raw {
            JsonV::Object(entries) => Some(entries),
            _ => None,
        }
    } else {
        None
    }
}

/// The id, title and status of an action.
pub open spec fn header_members(area_id: Seq<char>, detail: Option<Seq<(Seq<char>, JsonV)>>) -> Seq<(Seq<char>, JsonV)> {
    let title = match detail {
        Some(d) => str_or(JsonV::Object(d), seq!["title"@, "name"@], "-"@),
        None => "-"@,
    };
    let status = match detail {
        Some(d) => str_or(JsonV::Object(d), seq!["status"@, "state"@], "unknown"@),
        None => "unknown"@,
    };
    seq![("id"@, JsonV::Str(area_id)), ("title"@, JsonV::Str(title)), ("status"@, JsonV::Str(status))]
}

/// The members shown for an action with the JSON details `d`, before the
/// requested fields: id, title, status, its url if it has one, and its body
/// if that is not empty.
pub open spec fn detail_members(area_id: Seq<char>, d: Seq<(Seq<char>, JsonV)>, full: bool) -> Seq<(Seq<char>, JsonV)> {
    let obj = JsonV::Object(d);
    let base = header_members(area_id, Some(d));
    let with_url = match commands::first_str(obj, seq!["url"@]) {
        Some(u) => base.push(("url"@, JsonV::Str(u))),
        None => base,
    };
    let body = str_or(obj, seq!["description"@, "body"@, "content"@], ""@);
    if body.len() > 0 {
        with_url + body_members(area_id, body, full)
    } else {
        with_url
    }
}

/// An action, as shown to the user: its id, title and status; then, from a
/// JSON reply, its url, its body and the requested fields, or, from a plain
/// text reply, the text as its body.
pub open spec fn action_data(area_id: Seq<char>, raw: JsonV, fields: Seq<Seq<char>>, full: bool) -> JsonV {
    match detail_of(raw) {
        Some(d) => JsonV::Object(commands::add_fields(detail_members(area_id, d, full), JsonV::Object(d), fields)),
        None => {
            let base = header_members(area_id, None);
            match raw.get_str("raw_text"@) {
                Some(t) => JsonV::Object(base + body_members(area_id, t, full)),
                None => JsonV::Object(base),
            }
        },
    }
}

/// Adds the members that show `body`.
fn push_body(data: &mut Vec<(String, Json)>, area_id: &str, body: &str, full: bool)
    ensures
        json::entries_view(final(data)@) == json::entries_view(old(data)@) + body_members(
            area_id@,
            body@,
            full,
        ),
{
    let ghost start = json::entries_view(data@);
    if full {
        push_member(data, "body", Json::string(body));
    } else {
        let (preview, truncated, total) = truncate_text_preview(body, 900);
        push_member(data, "body", Json::Str(preview));
        if truncated {
            push_member(data, "body_truncated", Json::Bool(true));
            push_member(data, "body_total_chars", Json::Number(JsonNumber::PosInt(total as u64)));
            let h1 = text::chars_of("Run actionbook get \"");
            let h2 = text::chars_of(area_id);
            let h3 = text::chars_of("\" --full");
            let h = text::concat_chars(&text::concat_chars(&h1, &h2), &h3);
            let mut help: Vec<Json> = Vec::new();
            help.push(Json::Str(text::string_from_chars(&h)));
            proof {
                json::lemma_array_view(help);
            }
            assert(json::items_view(help@) =~= seq![JsonV::Str(full_hint(area_id@))]);
            push_member(data, "help", Json::Array(help));
        }
    }
    assert(json::entries_view(data@) =~= start + body_members(area_id@, body@, full));
}

/// The details of an action, as shown to the user.
pub fn action_details(area_id: &str, raw: &Json, fields: Option<&str>, full: bool) -> (r: Json)
    ensures
        r@ == action_data(
            area_id@,
            raw@,
            commands::requested_fields(
                match fields {
                    Some(f) => Some(f@),
                    None => None,
                },
            ),
            full,
        ),
{
    let selected = parse_fields(fields);
    let ghost fs = commands::strings_view(selected@);
    let detail: Option<&Json> = if raw.get("raw_text").is_none() && raw.is_object() {
        Some(raw)
    } else {
        None
    };
    let ghost dv = detail_of(raw@);
    proof {
        if detail is Some {
            match raw {
                Json::Object(e) => {
                    json::lemma_object_view(*e);
                },
                _ => {},
            }
        }
    }
    assert(detail matches Some(d) ==> dv == Some(d@->Object_0) && d@ == JsonV::Object(dv->0));
    assert(detail is None ==> dv is None);
    let kt: [&str; 2] = ["title", "name"];
    let ks: [&str; 2] = ["status", "state"];
    let ku: [&str; 1] = ["url"];
    let kb: [&str; 3] = ["description", "body", "content"];
    let st = kt.as_slice();
    let ss = ks.as_slice();
    let su = ku.as_slice();
    let sb = kb.as_slice();
    assert(commands::keys_view(st) =~= seq!["title"@, "name"@]);
    assert(commands::keys_view(ss) =~= seq!["status"@, "state"@]);
    assert(commands::keys_view(su) =~= seq!["url"@]);
    assert(commands::keys_view(sb) =~= seq!["description"@, "body"@, "content"@]);
    let title = match detail {
        Some(d) => match pick_str(d, st) {
            Some(s) => s.clone(),
            None => "-".to_owned(),
        },
        None => "-".to_owned(),
    };
    let status = match detail {
        Some(d) => match pick_str(d, ss) {
            Some(s) => s.clone(),
            None => "unknown".to_owned(),
        },
        None => "unknown".to_owned(),
    };
    let mut data: Vec<(String, Json)> = Vec::new();
    assert(json::entries_view(data@) =~= Seq::empty());
    push_member(&mut data, "id", Json::string(area_id));
    push_member(&mut data, "title", Json::Str(title));
    push_member(&mut data, "status", Json::Str(status));
    let ghost base = json::entries_view(data@);
    assert(base =~= header_members(area_id@, dv));
    match detail {
        Some(d) => {
            if let Some(u) = pick_str(d, su) {
                push_member(&mut data, "url", Json::Str(u.clone()));
            }
            let body: &str = match pick_str(d, sb) {
                Some(b) => b.as_str(),
                None => "",
            };
            let ghost obj = JsonV::Object(dv->0);
            assert(d@ == obj);
            let ghost with_url = match commands::first_str(obj, seq!["url"@]) {
                Some(u) => base.push(("url"@, JsonV::Str(u))),
                None => base,
            };
            assert(json::entries_view(data@) =~= with_url);
            assert(body@ == str_or(obj, seq!["description"@, "body"@, "content"@], ""@));
            if !body.is_empty() {
                push_body(&mut data, area_id, body, full);
            }
            let ghost with_body = if body@.len() > 0 {
                with_url + body_members(area_id@, body@, full)
            } else {
                with_url
            };
            assert(json::entries_view(data@) =~= with_body);
            copy_fields(&mut data, d, &selected);
            assert(with_body == detail_members(area_id@, dv->0, full));
        },
        None => {
            match raw.get("raw_text") {
                Some(v) => match v.as_str() {
                    Some(t) => {
                        push_body(&mut data, area_id, t.as_str(), full);
                    },
                    None => {},
                },
                None => {},
            }
        },
    }
    proof {
        json::lemma_object_view(data);
    }
    Json::Object(data)
}

} // verus!
