use actionbook::hooks::{
    codex_config_update, ensure_hook_command, hook_command, is_managed_hook_command,
    settings_document, register_settings_hooks, register_codex_hooks, session_end_payload,
    upsert_codex_feature,
};
use actionbook::json::{Json, JsonNumber};

fn hook_list<'a>(v: &'a Json, path: &[&str]) -> &'a Vec<Json> {
    let mut cur = v;
    for k in path {
        cur = cur.get(k).expect("member");
    }
    cur.as_array().expect("array")
}

fn command_of(entry: &Json) -> String {
    entry.get("command").expect("command").as_str().expect("string").clone()
}

#[test]
fn ensure_hook_command_is_idempotent() {
    let mut v = Json::new_object();
    ensure_hook_command(
        &mut v,
        &["hooks", "SessionStart"],
        "/bin/actionbook --hook-session-start",
    );
    ensure_hook_command(
        &mut v,
        &["hooks", "SessionStart"],
        "/bin/actionbook --hook-session-start",
    );
    let arr = v
        .get("hooks")
        .expect("hooks")
        .get("SessionStart")
        .expect("SessionStart")
        .as_array()
        .expect("array");
    assert_eq!(arr.len(), 1);
}

#[test]
fn upsert_codex_feature_inserts_inside_features_section() {
    let source = "[features]\na = true\n\n[other]\nx = 1\n";
    let out = upsert_codex_feature(source);
    assert!(out.contains("[features]\na = true\ncodex_hooks = true\n\n[other]"));
}

#[test]
fn upsert_appends_section_when_missing() {
    assert_eq!(upsert_codex_feature("a = 1"), "a = 1\n\n[features]\ncodex_hooks = true\n");
    assert_eq!(upsert_codex_feature("a = 1\n"), "a = 1\n\n[features]\ncodex_hooks = true\n");
    assert_eq!(upsert_codex_feature(""), "[features]\ncodex_hooks = true\n");
    assert_eq!(upsert_codex_feature("a\n\n"), "a\n\n[features]\ncodex_hooks = true\n");
}

#[test]
fn upsert_keeps_an_existing_key() {
    let source = "[features]\ncodex_hooks = false\n[other]\n";
    assert_eq!(upsert_codex_feature(source), source);
    let spaced = "[features]\n   codex_hooks=true\n";
    assert_eq!(upsert_codex_feature(spaced), spaced);
}

#[test]
fn upsert_inserts_at_end_of_last_section() {
    let source = "[features]\nother = 1\n";
    assert_eq!(
        upsert_codex_feature(source),
        "[features]\nother = 1\ncodex_hooks = true\n"
    );
    let blank_tail = "[features]\nother = 1\n  \n\n";
    assert_eq!(
        upsert_codex_feature(blank_tail),
        "[features]\nother = 1\ncodex_hooks = true\n  \n"
    );
}

#[test]
fn upsert_uses_the_last_repeated_features_header() {
    let source = "[features]\na = 1\n[features]\nb = 2\n[x]\n";
    assert_eq!(
        upsert_codex_feature(source),
        "[features]\na = 1\n[features]\nb = 2\ncodex_hooks = true\n[x]\n"
    );
}

#[test]
fn upsert_reads_crlf_lines() {
    let source = "[features]\r\na = 1\r\n";
    assert_eq!(
        upsert_codex_feature(source),
        "[features]\na = 1\ncodex_hooks = true\n"
    );
}

#[test]
fn upsert_twice_is_upsert_once() {
    for source in [
        "",
        "a = 1",
        "[features]\na = true\n\n[other]\nx = 1\n",
        "[other]\nx = 1\n",
        "[features]\n",
    ] {
        let once = upsert_codex_feature(source);
        assert_eq!(upsert_codex_feature(&once), once);
    }
}

#[test]
fn codex_config_update_cases() {
    assert_eq!(
        codex_config_update(None),
        Some("[features]\ncodex_hooks = true\n".to_string())
    );
    assert_eq!(codex_config_update(Some("x\ncodex_hooks = true\n")), None);
    assert_eq!(
        codex_config_update(Some("x = 1\n")),
        Some("x = 1\n\n[features]\ncodex_hooks = true\n".to_string())
    );
    let first = codex_config_update(Some("[features]\ncodex_hooks = false\n")).expect("write");
    assert_eq!(first, "[features]\ncodex_hooks = false\n");
    assert_eq!(codex_config_update(Some(&first)), Some(first.clone()));
}

#[test]
fn managed_hook_commands() {
    assert!(is_managed_hook_command("/bin/actionbook --hook-session-start"));
    assert!(is_managed_hook_command("  x --hook-session-end \t"));
    assert!(!is_managed_hook_command("x --hook-session-end now"));
    assert!(!is_managed_hook_command("echo hi"));
    assert!(!is_managed_hook_command(""));
}

#[test]
fn ensure_hook_command_replaces_first_managed_entry() {
    let mut v = Json::new_object();
    ensure_hook_command(&mut v, &["SessionStart"], "echo hi");
    ensure_hook_command(&mut v, &["SessionStart"], "old --hook-session-start");
    ensure_hook_command(&mut v, &["SessionStart"], "new --hook-session-start");
    let list = hook_list(&v, &["SessionStart"]);
    assert_eq!(list.len(), 2);
    assert_eq!(command_of(&list[0]), "echo hi");
    assert_eq!(command_of(&list[1]), "new --hook-session-start");
}

#[test]
fn ensure_hook_command_replaces_non_object_on_path() {
    let mut v = Json::Object(vec![("hooks".to_string(), Json::Bool(true))]);
    ensure_hook_command(&mut v, &["hooks", "SessionEnd"], "x --hook-session-end");
    let list = hook_list(&v, &["hooks", "SessionEnd"]);
    assert_eq!(list.len(), 1);
    let mut n = Json::Null;
    ensure_hook_command(&mut n, &["SessionEnd"], "x --hook-session-end");
    assert_eq!(hook_list(&n, &["SessionEnd"]).len(), 1);
}

#[test]
fn register_hooks_for_both_tools() {
    let mut settings = Json::new_object();
    register_settings_hooks(&mut settings, "/usr/bin/actionbook");
    register_settings_hooks(&mut settings, "/usr/bin/actionbook");
    let start = hook_list(&settings, &["hooks", "SessionStart"]);
    assert_eq!(start.len(), 1);
    assert_eq!(command_of(&start[0]), "/usr/bin/actionbook --hook-session-start");
    let end = hook_list(&settings, &["hooks", "SessionEnd"]);
    assert_eq!(command_of(&end[0]), "/usr/bin/actionbook --hook-session-end");

    let mut codex = Json::new_object();
    register_codex_hooks(&mut codex, "ab");
    assert_eq!(command_of(&hook_list(&codex, &["SessionStart"])[0]), "ab --hook-session-start");
    assert_eq!(command_of(&hook_list(&codex, &["SessionEnd"])[0]), "ab --hook-session-end");
    assert_eq!(hook_command("a", "b"), "a b");
}

#[test]
fn settings_document_keeps_only_objects() {
    let kept = settings_document(Some("{\"a\": null, \"b\": [1, -2, 2.5]}"));
    assert!(kept.get("a").is_some());
    let b = kept.get("b").expect("b").as_array().expect("array");
    assert_eq!(b[0].as_u64(), Some(1));
    assert!(matches!(b[1], Json::Number(JsonNumber::NegInt(-2))));
    assert!(matches!(b[2], Json::Number(JsonNumber::Other(ref t)) if t == "2.5"));
    let arr = settings_document(Some("[1]"));
    assert!(arr.is_object() && arr.get("a").is_none());
    let bad = settings_document(Some("{not json"));
    assert!(bad.is_object() && bad.get("not").is_none());
    assert!(settings_document(None).is_object());
}

#[test]
fn session_end_payload_fields() {
    let p = session_end_payload("/tmp/w", 42);
    assert_eq!(p.get("cwd").expect("cwd").as_str().expect("s"), "/tmp/w");
    assert_eq!(p.get("ended_at_unix").expect("t").as_u64(), Some(42));
    match p.get("ended_at_unix") {
        Some(Json::Number(JsonNumber::PosInt(42))) => {}
        _ => panic!("number expected"),
    }
}
