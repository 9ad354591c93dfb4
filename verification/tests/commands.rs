use actionbook::commands::search::legacy_text;
use actionbook::json::{parse_json, pretty_json};
use actionbook::commands::get::{action_details, truncate_text_preview};
use actionbook::commands::parse_fields;
use actionbook::commands::search::{extract_items, extract_total, raw_text_of, search_results};
use actionbook::commands::pick_str;
use actionbook::json::{Json, JsonNumber};

fn s(x: &str) -> Json {
    Json::Str(x.to_string())
}

fn obj(members: Vec<(&str, Json)>) -> Json {
    Json::Object(members.into_iter().map(|(k, v)| (k.to_string(), v)).collect())
}

fn str_at(j: &Json, key: &str) -> String {
    j.get(key).expect(key).as_str().expect("string").clone()
}

#[test]
fn parse_fields_splits_trims_and_drops_blanks() {
    assert_eq!(parse_fields(Some(" id, title ,,url ,  ")), vec!["id", "title", "url"]);
    assert_eq!(parse_fields(Some("")), Vec::<String>::new());
    assert_eq!(parse_fields(None), Vec::<String>::new());
    assert_eq!(parse_fields(Some("a\t,\u{3000}b")), vec!["a", "b"]);
}

#[test]
fn pick_str_takes_first_string_member() {
    let item = obj(vec![("id", Json::Number(JsonNumber::PosInt(3))), ("action_id", s("A1"))]);
    assert_eq!(pick_str(&item, &["area_id", "id", "action_id"]).map(|x| x.as_str()), Some("A1"));
    assert_eq!(pick_str(&item, &["nothing"]), None);
    assert_eq!(pick_str(&Json::Null, &["id"]), None);
}

#[test]
fn extract_items_looks_in_items_results_then_data() {
    let a = obj(vec![("items", Json::Array(vec![s("x")]))]);
    assert_eq!(extract_items(&a).len(), 1);
    let b = obj(vec![("items", s("no")), ("results", Json::Array(vec![s("x"), s("y")]))]);
    assert_eq!(extract_items(&b).len(), 2);
    let c = obj(vec![("data", obj(vec![("items", Json::Array(vec![s("x"), s("y"), s("z")]))]))]);
    assert_eq!(extract_items(&c).len(), 3);
    assert_eq!(extract_items(&Json::Array(vec![s("x")])).len(), 0);
}

#[test]
fn extract_total_looks_in_total_count_then_pagination() {
    let n = |x: u64| Json::Number(JsonNumber::PosInt(x));
    assert_eq!(extract_total(&obj(vec![("total", n(7)), ("count", n(3))])), Some(7));
    assert_eq!(extract_total(&obj(vec![("total", s("7")), ("count", n(3))])), Some(3));
    assert_eq!(extract_total(&obj(vec![("pagination", obj(vec![("total", n(9))]))])), Some(9));
    assert_eq!(extract_total(&obj(vec![("total", Json::Number(JsonNumber::NegInt(-1)))])), None);
    assert_eq!(extract_total(&Json::Null), None);
}

#[test]
fn search_results_rows_and_counts() {
    let raw = obj(vec![
        (
            "items",
            Json::Array(vec![
                obj(vec![("area_id", s("a1")), ("name", s("First")), ("url", s("u1"))]),
                obj(vec![("state", s("live"))]),
            ]),
        ),
        ("total", Json::Number(JsonNumber::PosInt(40))),
    ]);
    let data = search_results("q", &raw, Some("url,status"));
    assert_eq!(str_at(&data, "query"), "q");
    let count = data.get("count").expect("count");
    assert_eq!(count.get("shown").and_then(|v| v.as_u64()), Some(2));
    assert_eq!(count.get("total").and_then(|v| v.as_u64()), Some(40));
    let rows = data.get("items").expect("items").as_array().expect("array");
    assert_eq!(str_at(&rows[0], "id"), "a1");
    assert_eq!(str_at(&rows[0], "title"), "First");
    assert_eq!(str_at(&rows[0], "status"), "unknown");
    assert_eq!(str_at(&rows[0], "url"), "u1");
    assert_eq!(str_at(&rows[1], "id"), "(no id)");
    assert_eq!(str_at(&rows[1], "title"), "(untitled)");
    assert_eq!(str_at(&rows[1], "status"), "live");
    assert!(rows[1].get("url").is_none());
    assert!(data.get("message").is_none());
}

#[test]
fn search_results_when_nothing_found() {
    let data = search_results("zz", &obj(vec![]), None);
    assert_eq!(str_at(&data, "message"), "0 actions found for query \"zz\"");
    let count = data.get("count").expect("count");
    assert_eq!(count.get("shown").and_then(|v| v.as_u64()), Some(0));
    assert_eq!(count.get("total").and_then(|v| v.as_u64()), Some(0));
    let help = data.get("help").expect("help").as_array().expect("array");
    assert_eq!(help.len(), 2);
    assert!(data.get("items").is_none());
}

#[test]
fn raw_text_is_found() {
    assert_eq!(raw_text_of(&obj(vec![("raw_text", s("hello"))])), Some("hello".to_string()));
    assert_eq!(raw_text_of(&obj(vec![])), None);
}

#[test]
fn truncate_preview_counts_characters() {
    assert_eq!(truncate_text_preview("héllo", 3), ("hél".to_string(), true, 5));
    assert_eq!(truncate_text_preview("abc", 3), ("abc".to_string(), false, 3));
    assert_eq!(truncate_text_preview("", 0), ("".to_string(), false, 0));
}

#[test]
fn action_details_from_json_reply() {
    let long: String = "x".repeat(1000);
    let raw = obj(vec![
        ("name", s("Login")),
        ("status", s("ok")),
        ("url", s("https://e.x")),
        ("body", s(&long)),
        ("score", Json::Number(JsonNumber::PosInt(5))),
    ]);
    let data = action_details("A9", &raw, Some("score,id"), false);
    assert_eq!(str_at(&data, "id"), "A9");
    assert_eq!(str_at(&data, "title"), "Login");
    assert_eq!(str_at(&data, "status"), "ok");
    assert_eq!(str_at(&data, "url"), "https://e.x");
    assert_eq!(str_at(&data, "body").chars().count(), 900);
    assert!(matches!(data.get("body_truncated"), Some(Json::Bool(true))));
    assert_eq!(data.get("body_total_chars").and_then(|v| v.as_u64()), Some(1000));
    let help = data.get("help").expect("help").as_array().expect("array");
    assert_eq!(help[0].as_str().expect("s"), "Run actionbook get \"A9\" --full");
    assert_eq!(data.get("score").and_then(|v| v.as_u64()), Some(5));

    let full = action_details("A9", &raw, None, true);
    assert_eq!(str_at(&full, "body").len(), 1000);
    assert!(full.get("body_truncated").is_none());
}

#[test]
fn action_details_from_text_reply() {
    let raw = obj(vec![("raw_text", s("plain words"))]);
    let data = action_details("B1", &raw, Some("raw_text"), false);
    assert_eq!(str_at(&data, "title"), "-");
    assert_eq!(str_at(&data, "status"), "unknown");
    assert_eq!(str_at(&data, "body"), "plain words");
    assert!(data.get("raw_text").is_none());
    let empty = action_details("B2", &obj(vec![("raw_text", s(""))]), None, false);
    assert_eq!(str_at(&empty, "body"), "");
    let none = action_details("B3", &Json::Array(vec![]), None, false);
    assert!(none.get("body").is_none());
    let no_body = action_details("B4", &obj(vec![("body", s(""))]), None, false);
    assert!(no_body.get("body").is_none());
}

#[test]
fn legacy_text_is_raw_text_or_pretty_json() {
    assert_eq!(legacy_text(&obj(vec![("raw_text", s("as sent"))])), "as sent");
    assert_eq!(legacy_text(&obj(vec![("b", s("x")), ("a", Json::Null)])), "{\n  \"a\": null,\n  \"b\": \"x\"\n}");
}

#[test]
fn parse_and_print_json() {
    let j = parse_json("[1,-2,\"s\",{\"k\":true}]").expect("json");
    assert_eq!(pretty_json(&j), "[\n  1,\n  -2,\n  \"s\",\n  {\n    \"k\": true\n  }\n]");
    assert!(parse_json("{").is_none());
    assert!(matches!(parse_json("null"), Some(Json::Null)));
}

#[test]
fn floats_print_as_read() {
    for text in ["0.1", "1.5e300", "-2.5", "0.30000000000000004", "18446744073709551616"] {
        let j = parse_json(text).expect("json");
        let expected = serde_json::to_string_pretty(&serde_json::from_str::<serde_json::Value>(text).expect("v"))
            .expect("text");
        assert_eq!(pretty_json(&j), expected);
    }
}
