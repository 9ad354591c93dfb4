use vstd::prelude::*;
use crate::commands;
use crate::commands::get;
use crate::commands::search;
use crate::json;
use crate::json::{JsonV, NumberV};

verus! {

/// The member named `k` is the one at `i` when no earlier member has that name.
proof fn lemma_member_at(entries: Seq<(Seq<char>, JsonV)>, k: Seq<char>, i: int)
    requires
        0 <= i < entries.len(),
        entries[i].0 == k,
        forall|j: int| 0 <= j < i ==> entries[j].0 != k,
    ensures
        json::obj_get(entries, k) == Some(entries[i].1),
{
    assert(json::is_first_key(entries, k, i));
    json::lemma_key_pos_is(entries, k, i);
}

/// An object has no member named `k` when none of its members has that name.
proof fn lemma_member_absent(entries: Seq<(Seq<char>, JsonV)>, k: Seq<char>)
    requires
        forall|j: int| 0 <= j < entries.len() ==> entries[j].0 != k,
    ensures
        json::obj_get(entries, k) is None,
{
    if json::key_pos(entries, k) is Some {
        let i = json::key_pos(entries, k)->0;
        assert(json::is_first_key(entries, k, i));
    }
}

proof fn lemma_contains_last(s: Seq<Seq<char>>, k: Seq<char>)
    requires
        s.len() > 0,
    ensures
        s.contains(k) <==> (s.drop_last().contains(k) || s.last() == k),
{
    if s.drop_last().contains(k) {
        let i = choose|i: int| 0 <= i < s.drop_last().len() && s.drop_last()[i] == k;
        assert(s[i] == k);
    }
    if s.last() == k {
        assert(s[s.len() - 1] == k);
    }
    if s.contains(k) && s.last() != k {
        let i = choose|i: int| 0 <= i < s.len() && s[i] == k;
        assert(s.drop_last()[i] == k);
    }
}

/// Copying the requested fields into a row never changes a member that the
/// row already has; a member that the row lacks is present afterwards exactly
/// when its name was requested and the item has it, with the item's value.
pub proof fn law_copy_fields_adds_only_missing(
    row: Seq<(Seq<char>, JsonV)>,
    item: JsonV,
    fields: Seq<Seq<char>>,
)
    ensures
        forall|k: Seq<char>|
            json::obj_get(row, k) is Some ==> #[trigger] json::obj_get(
                commands::add_fields(row, item, fields),
                k,
            ) == json::obj_get(row, k),
        forall|k: Seq<char>|
            json::obj_get(row, k) is None ==> #[trigger] json::obj_get(
                commands::add_fields(row, item, fields),
                k,
            ) == (if fields.contains(k) {
                item.get(k)
            } else {
                None
            }),
    decreases fields.len(),
{
    if fields.len() > 0 {
        let init = fields.drop_last();
        law_copy_fields_adds_only_missing(row, item, init);
        let r = commands::add_fields(row, item, init);
        let f = fields.last();
        let out = commands::add_fields(row, item, fields);
        assert forall|k: Seq<char>| json::obj_get(row, k) is Some implies #[trigger] json::obj_get(out, k)
            == json::obj_get(row, k) by {
            assert(json::obj_get(r, k) == json::obj_get(row, k));
            if json::obj_get(r, f) is None {
                if let Some(v) = item.get(f) {
                    json::law_object_read_after_write(r, f, v);
                }
            }
        }
        assert forall|k: Seq<char>| json::obj_get(row, k) is None implies #[trigger] json::obj_get(out, k)
            == (if fields.contains(k) {
            item.get(k)
        } else {
            None
        }) by {
            lemma_contains_last(fields, k);
            assert(json::obj_get(r, k) == (if init.contains(k) {
                item.get(k)
            } else {
                None
            }));
            if json::obj_get(r, f) is None {
                if let Some(v) = item.get(f) {
                    json::law_object_read_after_write(r, f, v);
                    assert(out == json::obj_insert(r, f, v));
                } else {
                    assert(out == r);
                }
            } else {
                assert(out == r);
            }
        }
    }
}

/// A search shows as many rows as the reply lists actions, and as total the
/// number that the reply reports; a reply that reports no total shows the
/// number of actions listed as the total.
pub proof fn law_search_counts(query: Seq<char>, raw: JsonV, fields: Seq<Seq<char>>)
    ensures
        search::search_data(query, raw, fields).get("count"@) matches Some(c) && c.get("shown"@) == Some(
            JsonV::Number(NumberV::PosInt(search::result_items(raw).len() as u64)),
        ) && (search::result_total(raw) matches Some(t) ==> c.get("total"@) == Some(
            JsonV::Number(NumberV::PosInt(t)),
        )) && (search::result_total(raw) is None ==> c.get("total"@) == c.get("shown"@)),
{
    reveal_strlit("query");
    assert("query"@.len() == 5);
    reveal_strlit("count");
    assert("count"@.len() == 5);
    reveal_strlit("shown");
    assert("shown"@.len() == 5);
    reveal_strlit("total");
    assert("total"@.len() == 5);
    assert("query"@[0] != "count"@[0]);
    assert("shown"@[0] != "total"@[0]);
    let entries = search::search_data(query, raw, fields)->Object_0;
    lemma_member_at(entries, "count"@, 1);
    let c = entries[1].1->Object_0;
    lemma_member_at(c, "shown"@, 0);
    lemma_member_at(c, "total"@, 1);
}

/// A search lists one row for each action of the reply, in the reply's
/// order; when the reply lists no action it shows no rows, but a message that
/// nothing was found for the query.
pub proof fn law_search_rows(query: Seq<char>, raw: JsonV, fields: Seq<Seq<char>>)
    ensures
        search::result_items(raw).len() > 0 ==> (search::search_data(query, raw, fields).get("items"@) matches Some(
            JsonV::Array(rows),
        ) && rows.len() == search::result_items(raw).len() && forall|i: int|
            0 <= i < rows.len() ==> #[trigger] rows[i] == search::result_row(search::result_items(raw)[i], fields)),
        search::result_items(raw).len() == 0 ==> search::search_data(query, raw, fields).get("items"@) is None,
        search::result_items(raw).len() == 0 ==> search::search_data(query, raw, fields).get("message"@) == Some(
            JsonV::Str("0 actions found for query \""@ + query + "\""@),
        ),
{
    reveal_strlit("query");
    assert("query"@.len() == 5);
    reveal_strlit("count");
    assert("count"@.len() == 5);
    reveal_strlit("items");
    assert("items"@.len() == 5);
    reveal_strlit("message");
    assert("message"@.len() == 7);
    reveal_strlit("help");
    assert("help"@.len() == 4);
    assert("query"@[0] != "items"@[0]);
    assert("count"@[0] != "items"@[0]);
    let entries = search::search_data(query, raw, fields)->Object_0;
    if search::result_items(raw).len() > 0 {
        lemma_member_at(entries, "items"@, 2);
    } else {
        assert(entries[2].0 == "message"@);
        assert(entries[3].0 == "help"@);
        lemma_member_absent(entries, "items"@);
        lemma_member_at(entries, "message"@, 2);
    }
}

/// The row of a search result shows the action's own id, title and status,
/// whatever fields were requested.
pub proof fn law_result_row_header(item: JsonV, fields: Seq<Seq<char>>)
    ensures
        search::result_row(item, fields).get("id"@) == Some(
            JsonV::Str(search::str_or(item, seq!["area_id"@, "id"@, "action_id"@], "(no id)"@)),
        ),
        search::result_row(item, fields).get("title"@) == Some(
            JsonV::Str(search::str_or(item, seq!["title"@, "name"@, "summary"@], "(untitled)"@)),
        ),
        search::result_row(item, fields).get("status"@) == Some(
            JsonV::Str(search::str_or(item, seq!["status"@, "state"@], "unknown"@)),
        ),
{
    reveal_strlit("id");
    assert("id"@.len() == 2);
    reveal_strlit("title");
    assert("title"@.len() == 5);
    reveal_strlit("status");
    assert("status"@.len() == 6);
    let id = search::str_or(item, seq!["area_id"@, "id"@, "action_id"@], "(no id)"@);
    let title = search::str_or(item, seq!["title"@, "name"@, "summary"@], "(untitled)"@);
    let status = search::str_or(item, seq!["status"@, "state"@], "unknown"@);
    let base = seq![("id"@, JsonV::Str(id)), ("title"@, JsonV::Str(title)), ("status"@, JsonV::Str(status))];
    lemma_member_at(base, "id"@, 0);
    lemma_member_at(base, "title"@, 1);
    lemma_member_at(base, "status"@, 2);
    law_copy_fields_adds_only_missing(base, item, fields);
    let out = commands::add_fields(base, item, fields);
    assert(json::obj_get(out, "id"@) == json::obj_get(base, "id"@));
    assert(json::obj_get(out, "title"@) == json::obj_get(base, "title"@));
    assert(json::obj_get(out, "status"@) == json::obj_get(base, "status"@));
}

/// The shown details of an action always carry the id that was asked for.
pub proof fn law_action_id_shown(area_id: Seq<char>, raw: JsonV, fields: Seq<Seq<char>>, full: bool)
    ensures
        get::action_data(area_id, raw, fields, full).get("id"@) == Some(JsonV::Str(area_id)),
{
    reveal_strlit("id");
    assert("id"@.len() == 2);
    let base = get::header_members(area_id, get::detail_of(raw));
    match get::detail_of(raw) {
        Some(d) => {
            let dm = get::detail_members(area_id, d, full);
            let with_url = match commands::first_str(JsonV::Object(d), seq!["url"@]) {
                Some(u) => base.push(("url"@, JsonV::Str(u))),
                None => base,
            };
            assert(with_url[0] == ("id"@, JsonV::Str(area_id)));
            assert(dm[0] == with_url[0]);
            lemma_member_at(dm, "id"@, 0);
            law_copy_fields_adds_only_missing(dm, JsonV::Object(d), fields);
            assert(json::obj_get(commands::add_fields(dm, JsonV::Object(d), fields), "id"@) == json::obj_get(
                dm,
                "id"@,
            ));
        },
        None => {
            let e = get::action_data(area_id, raw, fields, full)->Object_0;
            assert(e[0] == ("id"@, JsonV::Str(area_id)));
            lemma_member_at(e, "id"@, 0);
        },
    }
}

/// With the full body asked for, a plain text reply is shown whole as the
/// body, with no note that it was cut.
pub proof fn law_full_text_reply_body(area_id: Seq<char>, raw: JsonV, fields: Seq<Seq<char>>, t: Seq<char>)
    requires
        raw.get_str("raw_text"@) == Some(t),
    ensures
        get::action_data(area_id, raw, fields, true).get("body"@) == Some(JsonV::Str(t)),
        get::action_data(area_id, raw, fields, true).get("body_truncated"@) is None,
{
    reveal_strlit("id");
    assert("id"@.len() == 2);
    reveal_strlit("title");
    assert("title"@.len() == 5);
    reveal_strlit("status");
    assert("status"@.len() == 6);
    reveal_strlit("body");
    assert("body"@.len() == 4);
    reveal_strlit("body_truncated");
    assert("body_truncated"@.len() == 14);
    assert(get::detail_of(raw) is None);
    let e = get::action_data(area_id, raw, fields, true)->Object_0;
    assert(e.len() == 4);
    assert(e[0].0 == "id"@);
    assert(e[1].0 == "title"@);
    assert(e[2].0 == "status"@);
    assert(e[3] == ("body"@, JsonV::Str(t)));
    lemma_member_at(e, "body"@, 3);
    lemma_member_absent(e, "body_truncated"@);
}

/// Without the full body asked for, a plain text reply of at most 900
/// characters is shown whole; a longer one is cut to its first 900
/// characters, with a note that it was cut and how long it is.
pub proof fn law_text_reply_preview(area_id: Seq<char>, raw: JsonV, fields: Seq<Seq<char>>, t: Seq<char>)
    requires
        raw.get_str("raw_text"@) == Some(t),
    ensures
        t.len() <= 900 ==> get::action_data(area_id, raw, fields, false).get("body"@) == Some(JsonV::Str(t)),
        t.len() <= 900 ==> get::action_data(area_id, raw, fields, false).get("body_truncated"@) is None,
        t.len() > 900 ==> get::action_data(area_id, raw, fields, false).get("body"@) == Some(
            JsonV::Str(t.take(900)),
        ),
        t.len() > 900 ==> get::action_data(area_id, raw, fields, false).get("body_truncated"@) == Some(
            JsonV::Bool(true),
        ),
        t.len() > 900 ==> get::action_data(area_id, raw, fields, false).get("body_total_chars"@) == Some(
            JsonV::Number(NumberV::PosInt(t.len() as u64)),
        ),
{
    reveal_strlit("id");
    assert("id"@.len() == 2);
    reveal_strlit("title");
    assert("title"@.len() == 5);
    reveal_strlit("status");
    assert("status"@.len() == 6);
    reveal_strlit("body");
    assert("body"@.len() == 4);
    reveal_strlit("body_truncated");
    assert("body_truncated"@.len() == 14);
    reveal_strlit("body_total_chars");
    assert("body_total_chars"@.len() == 16);
    reveal_strlit("help");
    assert("help"@.len() == 4);
    assert(get::detail_of(raw) is None);
    let e = get::action_data(area_id, raw, fields, false)->Object_0;
    assert(e[0].0 == "id"@);
    assert(e[1].0 == "title"@);
    assert(e[2].0 == "status"@);
    if t.len() <= 900 {
        assert(e.len() == 4);
        assert(e[3] == ("body"@, JsonV::Str(t)));
        lemma_member_at(e, "body"@, 3);
        lemma_member_absent(e, "body_truncated"@);
    } else {
        assert(e.len() == 7);
        assert(e[3] == ("body"@, JsonV::Str(t.take(900))));
        assert(e[4] == ("body_truncated"@, JsonV::Bool(true)));
        assert(e[5] == ("body_total_chars"@, JsonV::Number(NumberV::PosInt(t.len() as u64))));
        lemma_member_at(e, "body"@, 3);
        lemma_member_at(e, "body_truncated"@, 4);
        lemma_member_at(e, "body_total_chars"@, 5);
    }
}

/// With the full body asked for, a JSON reply shows its whole description
/// (else its body, else its content) as the body.
pub proof fn law_full_json_reply_body(
    area_id: Seq<char>,
    raw: JsonV,
    fields: Seq<Seq<char>>,
    d: Seq<(Seq<char>, JsonV)>,
)
    requires
        get::detail_of(raw) == Some(d),
        search::str_or(JsonV::Object(d), seq!["description"@, "body"@, "content"@], ""@).len() > 0,
    ensures
        get::action_data(area_id, raw, fields, true).get("body"@) == Some(
            JsonV::Str(search::str_or(JsonV::Object(d), seq!["description"@, "body"@, "content"@], ""@)),
        ),
{
    reveal_strlit("id");
    assert("id"@.len() == 2);
    reveal_strlit("title");
    assert("title"@.len() == 5);
    reveal_strlit("status");
    assert("status"@.len() == 6);
    reveal_strlit("url");
    assert("url"@.len() == 3);
    reveal_strlit("body");
    assert("body"@.len() == 4);
    let b = search::str_or(JsonV::Object(d), seq!["description"@, "body"@, "content"@], ""@);
    let dm = get::detail_members(area_id, d, true);
    let n = dm.len() - 1;
    assert(dm[n] == ("body"@, JsonV::Str(b)));
    assert(dm[0].0 == "id"@);
    assert(dm[1].0 == "title"@);
    assert(dm[2].0 == "status"@);
    assert(n == 3 || (n == 4 && dm[3].0 == "url"@));
    lemma_member_at(dm, "body"@, n);
    law_copy_fields_adds_only_missing(dm, JsonV::Object(d), fields);
    assert(json::obj_get(commands::add_fields(dm, JsonV::Object(d), fields), "body"@) == json::obj_get(
        dm,
        "body"@,
    ));
}

/// The title and status shown for an action come from a JSON reply's
/// `title` (else `name`) and `status` (else `state`) members, with `-` and
/// `unknown` when it has none; a plain text reply shows `-` and `unknown`. A
/// JSON reply's `url` string is shown as its url.
pub proof fn law_action_header(area_id: Seq<char>, raw: JsonV, fields: Seq<Seq<char>>, full: bool)
    ensures
        get::action_data(area_id, raw, fields, full).get("title"@) == Some(
            JsonV::Str(
                match get::detail_of(raw) {
                    Some(d) => search::str_or(JsonV::Object(d), seq!["title"@, "name"@], "-"@),
                    None => "-"@,
                },
            ),
        ),
        get::action_data(area_id, raw, fields, full).get("status"@) == Some(
            JsonV::Str(
                match get::detail_of(raw) {
                    Some(d) => search::str_or(JsonV::Object(d), seq!["status"@, "state"@], "unknown"@),
                    None => "unknown"@,
                },
            ),
        ),
        get::detail_of(raw) matches Some(d) ==> (JsonV::Object(d).get_str("url"@) matches Some(u)
            ==> get::action_data(area_id, raw, fields, full).get("url"@) == Some(JsonV::Str(u))),
{
    reveal_strlit("id");
    assert("id"@.len() == 2);
    reveal_strlit("title");
    assert("title"@.len() == 5);
    reveal_strlit("status");
    assert("status"@.len() == 6);
    reveal_strlit("url");
    assert("url"@.len() == 3);
    let base = get::header_members(area_id, get::detail_of(raw));
    match get::detail_of(raw) {
        Some(d) => {
            let dm = get::detail_members(area_id, d, full);
            let with_url = match commands::first_str(JsonV::Object(d), seq!["url"@]) {
                Some(u) => base.push(("url"@, JsonV::Str(u))),
                None => base,
            };
            assert(dm[0] == with_url[0] && dm[1] == with_url[1] && dm[2] == with_url[2]);
            lemma_member_at(dm, "title"@, 1);
            lemma_member_at(dm, "status"@, 2);
            law_copy_fields_adds_only_missing(dm, JsonV::Object(d), fields);
            let out = commands::add_fields(dm, JsonV::Object(d), fields);
            assert(json::obj_get(out, "title"@) == json::obj_get(dm, "title"@));
            assert(json::obj_get(out, "status"@) == json::obj_get(dm, "status"@));
            if let Some(u) = JsonV::Object(d).get_str("url"@) {
                assert(commands::first_str(JsonV::Object(d), seq!["url"@]) == Some(u));
                assert(dm[3] == ("url"@, JsonV::Str(u)));
                lemma_member_at(dm, "url"@, 3);
                assert(json::obj_get(out, "url"@) == json::obj_get(dm, "url"@));
            }
        },
        None => {
            let e = get::action_data(area_id, raw, fields, full)->Object_0;
            assert(e[1] == ("title"@, JsonV::Str("-"@)));
            assert(e[2] == ("status"@, JsonV::Str("unknown"@)));
            lemma_member_at(e, "title"@, 1);
            lemma_member_at(e, "status"@, 2);
        },
    }
}

} // verus!
