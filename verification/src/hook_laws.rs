use vstd::prelude::*;
use crate::hooks;
use crate::json;
use crate::json::JsonV;
use crate::text;

verus! {

/// Setting a member to the value it already has changes nothing.
proof fn lemma_obj_insert_same(entries: Seq<(Seq<char>, JsonV)>, k: Seq<char>, v: JsonV)
    requires
        json::obj_get(entries, k) == Some(v),
    ensures
        json::obj_insert(entries, k, v) == entries,
{
    let i = json::key_pos(entries, k)->0;
    assert(json::is_first_key(entries, k, i));
    assert(json::obj_insert(entries, k, v) =~= entries);
}

proof fn lemma_first_managed_is(items: Seq<JsonV>, i: int)
    requires
        hooks::is_first_managed(items, i),
    ensures
        hooks::first_managed(items) == Some(i),
{
    let c = choose|c: int| hooks::is_first_managed(items, c);
    assert(hooks::is_first_managed(items, c));
    if c < i {
        assert(!hooks::is_managed_entry(items[c]));
    }
    if i < c {
        assert(!hooks::is_managed_entry(items[i]));
    }
}

proof fn lemma_first_managed_exists(items: Seq<JsonV>, i: int)
    requires
        0 <= i < items.len(),
        hooks::is_managed_entry(items[i]),
    ensures
        hooks::first_managed(items) is Some,
    decreases i,
{
    if forall|j: int| 0 <= j < i ==> !hooks::is_managed_entry(#[trigger] items[j]) {
        assert(hooks::is_first_managed(items, i));
    } else {
        let j = choose|j: int| 0 <= j < i && hooks::is_managed_entry(items[j]);
        lemma_first_managed_exists(items, j);
    }
}

/// The entry written for a command of this program is itself recognized as
/// one of this program's hook entries.
proof fn lemma_hook_entry_managed(cmd: Seq<char>)
    requires
        hooks::is_managed_command(cmd),
    ensures
        hooks::is_managed_entry(hooks::hook_entry(cmd)),
{
    let entries = seq![("command"@, JsonV::Str(cmd))];
    assert(json::is_first_key(entries, "command"@, 0));
    json::lemma_key_pos_is(entries, "command"@, 0);
}

proof fn lemma_with_hook_entry_again(old: Option<JsonV>, cmd: Seq<char>)
    requires
        hooks::is_managed_command(cmd),
    ensures
        hooks::with_hook_entry(Some(hooks::with_hook_entry(old, cmd)), cmd) == hooks::with_hook_entry(old, cmd),
{
    lemma_hook_entry_managed(cmd);
    let h = hooks::hook_entry(cmd);
    let items = match old {
        Some(JsonV::Array(items)) => items,
        _ => Seq::empty(),
    };
    match hooks::first_managed(items) {
        Some(i) => {
            assert(hooks::is_first_managed(items, i));
            let items1 = items.update(i, h);
            assert(hooks::is_first_managed(items1, i));
            lemma_first_managed_is(items1, i);
            assert(items1.update(i, h) =~= items1);
        },
        None => {
            if exists|j: int| 0 <= j < items.len() && hooks::is_managed_entry(items[j]) {
                let j = choose|j: int| 0 <= j < items.len() && hooks::is_managed_entry(items[j]);
                lemma_first_managed_exists(items, j);
            }
            let n = items.len() as int;
            let items1 = items.push(h);
            assert(hooks::is_first_managed(items1, n));
            lemma_first_managed_is(items1, n);
            assert(items1.update(n, h) =~= items1);
        },
    }
}

/// Registering this program's own hook command twice leaves the settings as
/// registering it once: repairing the hooks again changes nothing.
pub proof fn law_hook_registration_idempotent(root: JsonV, path: Seq<Seq<char>>, cmd: Seq<char>)
    requires
        path.len() >= 1,
        hooks::is_managed_command(cmd),
    ensures
        hooks::with_hook(hooks::with_hook(root, path, cmd), path, cmd) == hooks::with_hook(root, path, cmd),
    decreases path.len(),
{
    let entries = hooks::members(root);
    let k = path[0];
    let once = hooks::with_hook(root, path, cmd);
    if path.len() <= 1 {
        let x = hooks::with_hook_entry(json::obj_get(entries, k), cmd);
        let e1 = json::obj_insert(entries, k, x);
        json::law_object_read_after_write(entries, k, x);
        lemma_with_hook_entry_again(json::obj_get(entries, k), cmd);
        lemma_obj_insert_same(e1, k, x);
    } else {
        let child = match json::obj_get(entries, k) {
            Some(JsonV::Object(c)) => JsonV::Object(c),
            _ => JsonV::Object(Seq::empty()),
        };
        let x = hooks::with_hook(child, path.drop_first(), cmd);
        let e1 = json::obj_insert(entries, k, x);
        json::law_object_read_after_write(entries, k, x);
        law_hook_registration_idempotent(child, path.drop_first(), cmd);
        lemma_obj_insert_same(e1, k, x);
    }
}

/// The value found by following the keys of `path`.
pub open spec fn value_at(node: JsonV, path: Seq<Seq<char>>) -> Option<JsonV>
    decreases path.len(),
{
    if path.len() == 0 {
        Some(node)
    } else {
        match node.get(path[0]) {
            Some(child) => value_at(child, path.drop_first()),
            None => None,
        }
    }
}

/// After registering a hook command, the list at the path holds the entry
/// that runs it.
pub proof fn law_registered_hook_present(root: JsonV, path: Seq<Seq<char>>, cmd: Seq<char>)
    requires
        path.len() >= 1,
    ensures
        value_at(hooks::with_hook(root, path, cmd), path) matches Some(JsonV::Array(items))
            && items.contains(hooks::hook_entry(cmd)),
    decreases path.len(),
{
    let entries = hooks::members(root);
    let k = path[0];
    let h = hooks::hook_entry(cmd);
    if path.len() <= 1 {
        let old = json::obj_get(entries, k);
        let x = hooks::with_hook_entry(old, cmd);
        json::law_object_read_after_write(entries, k, x);
        let once = hooks::with_hook(root, path, cmd);
        assert(once.get(k) == Some(x));
        assert(path.drop_first().len() == 0);
        assert(value_at(x, path.drop_first()) == Some(x));
        assert(value_at(once, path) == Some(x));
        let items = match old {
            Some(JsonV::Array(items)) => items,
            _ => Seq::empty(),
        };
        match hooks::first_managed(items) {
            Some(i) => {
                assert(hooks::is_first_managed(items, i));
                assert(items.update(i, h)[i] == h);
                assert(items.update(i, h).contains(h));
            },
            None => {
                assert(items.push(h)[items.len() as int] == h);
                assert(items.push(h).contains(h));
            },
        }
    } else {
        let child = match json::obj_get(entries, k) {
            Some(JsonV::Object(c)) => JsonV::Object(c),
            _ => JsonV::Object(Seq::empty()),
        };
        let x = hooks::with_hook(child, path.drop_first(), cmd);
        json::law_object_read_after_write(entries, k, x);
        let once = hooks::with_hook(root, path, cmd);
        assert(once.get(k) == Some(x));
        assert(value_at(once, path) == value_at(x, path.drop_first()));
        law_registered_hook_present(child, path.drop_first(), cmd);
    }
}


/// Setting a member of a well-formed object to a well-formed value leaves it
/// well-formed.
proof fn lemma_insert_wf(entries: Seq<(Seq<char>, JsonV)>, k: Seq<char>, v: JsonV)
    requires
        json::json_wf(JsonV::Object(entries)),
        json::json_wf(v),
    ensures
        json::json_wf(JsonV::Object(json::obj_insert(entries, k, v))),
{
    json::law_insert_keeps_keys_unique(entries, k, v);
    let ins = json::obj_insert(entries, k, v);
    assert forall|i: int| 0 <= i < ins.len() implies json::json_wf(#[trigger] ins[i].1) by {
        match json::key_pos(entries, k) {
            Some(p) => {
                if i != p {
                    assert(ins[i] == entries[i]);
                }
            },
            None => {
                if i < entries.len() {
                    assert(ins[i] == entries[i]);
                }
            },
        }
    }
}

/// A member of a well-formed object is well-formed.
proof fn lemma_get_wf(entries: Seq<(Seq<char>, JsonV)>, k: Seq<char>)
    requires
        json::json_wf(JsonV::Object(entries)),
    ensures
        json::obj_get(entries, k) matches Some(v) ==> json::json_wf(v),
{
    if let Some(p) = json::key_pos(entries, k) {
        assert(json::is_first_key(entries, k, p));
        assert(json::json_wf(entries[p].1));
    }
}

proof fn lemma_with_hook_entry_wf(old: Option<JsonV>, cmd: Seq<char>)
    requires
        old matches Some(v) ==> json::json_wf(v),
    ensures
        json::json_wf(hooks::with_hook_entry(old, cmd)),
{
    let h = hooks::hook_entry(cmd);
    let e = seq![("command"@, JsonV::Str(cmd))];
    assert(json::keys_unique(e));
    assert(json::json_wf(e[0].1));
    assert(json::json_wf(h));
    let items = match old {
        Some(JsonV::Array(items)) => items,
        _ => Seq::empty(),
    };
    let out = hooks::with_hook_entry(old, cmd)->Array_0;
    assert forall|i: int| 0 <= i < out.len() implies json::json_wf(#[trigger] out[i]) by {
        if i < items.len() && out[i] != h {
            assert(out[i] == items[i]);
        }
    }
}

/// Registering a hook keeps a well-formed document well-formed.
pub proof fn law_with_hook_keeps_wf(node: JsonV, path: Seq<Seq<char>>, cmd: Seq<char>)
    requires
        json::json_wf(node),
        path.len() >= 1,
    ensures
        json::json_wf(hooks::with_hook(node, path, cmd)),
    decreases path.len(),
{
    let entries = hooks::members(node);
    assert(json::keys_unique(Seq::<(Seq<char>, JsonV)>::empty()));
    assert(json::json_wf(JsonV::Object(entries)));
    let k = path[0];
    lemma_get_wf(entries, k);
    if path.len() <= 1 {
        lemma_with_hook_entry_wf(json::obj_get(entries, k), cmd);
        lemma_insert_wf(entries, k, hooks::with_hook_entry(json::obj_get(entries, k), cmd));
    } else {
        let child = match json::obj_get(entries, k) {
            Some(JsonV::Object(c)) => JsonV::Object(c),
            _ => JsonV::Object(Seq::empty()),
        };
        assert(json::json_wf(child));
        law_with_hook_keeps_wf(child, path.drop_first(), cmd);
        lemma_insert_wf(entries, k, hooks::with_hook(child, path.drop_first(), cmd));
    }
}

/// A hook list whose first entry that runs one of this program's hooks is
/// the entry for `cmd`.
pub open spec fn list_settled(v: JsonV, cmd: Seq<char>) -> bool {
    match v {
        JsonV::Array(items) => match hooks::first_managed(items) {
            Some(i) => items[i] == hooks::hook_entry(cmd),
            None => false,
        },
        _ => false,
    }
}

/// `node` is an object whose list at `path` is settled for `cmd`, with
/// objects all along the path.
pub open spec fn settled_at(node: JsonV, path: Seq<Seq<char>>, cmd: Seq<char>) -> bool
    decreases path.len(),
{
    &&& node is Object
    &&& path.len() >= 1
    &&& match node.get(path[0]) {
        Some(child) => if path.len() == 1 {
            list_settled(child, cmd)
        } else {
            settled_at(child, path.drop_first(), cmd)
        },
        None => false,
    }
}

/// The two paths part at some key.
pub open spec fn paths_diverge(p1: Seq<Seq<char>>, p2: Seq<Seq<char>>) -> bool
    decreases p1.len(),
{
    &&& p1.len() >= 1
    &&& p2.len() >= 1
    &&& (p1[0] != p2[0] || paths_diverge(p1.drop_first(), p2.drop_first()))
}

proof fn lemma_with_hook_entry_settled(old: Option<JsonV>, cmd: Seq<char>)
    requires
        hooks::is_managed_command(cmd),
    ensures
        list_settled(hooks::with_hook_entry(old, cmd), cmd),
{
    lemma_hook_entry_managed(cmd);
    let h = hooks::hook_entry(cmd);
    let items = match old {
        Some(JsonV::Array(items)) => items,
        _ => Seq::empty(),
    };
    match hooks::first_managed(items) {
        Some(i) => {
            assert(hooks::is_first_managed(items, i));
            let items1 = items.update(i, h);
            assert(hooks::is_first_managed(items1, i));
            lemma_first_managed_is(items1, i);
        },
        None => {
            if exists|j: int| 0 <= j < items.len() && hooks::is_managed_entry(items[j]) {
                let j = choose|j: int| 0 <= j < items.len() && hooks::is_managed_entry(items[j]);
                lemma_first_managed_exists(items, j);
            }
            let n = items.len() as int;
            let items1 = items.push(h);
            assert(hooks::is_first_managed(items1, n));
            lemma_first_managed_is(items1, n);
        },
    }
}

/// Registering a hook leaves its list settled.
proof fn lemma_with_hook_settled(root: JsonV, path: Seq<Seq<char>>, cmd: Seq<char>)
    requires
        path.len() >= 1,
        hooks::is_managed_command(cmd),
    ensures
        settled_at(hooks::with_hook(root, path, cmd), path, cmd),
    decreases path.len(),
{
    let entries = hooks::members(root);
    let k = path[0];
    if path.len() <= 1 {
        let x = hooks::with_hook_entry(json::obj_get(entries, k), cmd);
        json::law_object_read_after_write(entries, k, x);
        lemma_with_hook_entry_settled(json::obj_get(entries, k), cmd);
    } else {
        let child = match json::obj_get(entries, k) {
            Some(JsonV::Object(c)) => JsonV::Object(c),
            _ => JsonV::Object(Seq::empty()),
        };
        let x = hooks::with_hook(child, path.drop_first(), cmd);
        json::law_object_read_after_write(entries, k, x);
        lemma_with_hook_settled(child, path.drop_first(), cmd);
    }
}

/// Registering a hook whose list is already settled changes nothing.
proof fn lemma_with_hook_fixed(node: JsonV, path: Seq<Seq<char>>, cmd: Seq<char>)
    requires
        settled_at(node, path, cmd),
    ensures
        hooks::with_hook(node, path, cmd) == node,
    decreases path.len(),
{
    let entries = hooks::members(node);
    let k = path[0];
    let child = node.get(k)->0;
    if path.len() == 1 {
        let items = child->Array_0;
        let i = hooks::first_managed(items)->0;
        assert(items.update(i, hooks::hook_entry(cmd)) =~= items);
        lemma_obj_insert_same(entries, k, child);
    } else {
        assert(settled_at(child, path.drop_first(), cmd));
        lemma_with_hook_fixed(child, path.drop_first(), cmd);
        lemma_obj_insert_same(entries, k, child);
    }
}

/// Registering a hook at another path keeps a settled list settled.
proof fn lemma_with_hook_keeps_settled(
    node: JsonV,
    p1: Seq<Seq<char>>,
    c1: Seq<char>,
    p2: Seq<Seq<char>>,
    c2: Seq<char>,
)
    requires
        paths_diverge(p1, p2),
        settled_at(node, p1, c1),
    ensures
        settled_at(hooks::with_hook(node, p2, c2), p1, c1),
    decreases p1.len(),
{
    let entries = hooks::members(node);
    let k1 = p1[0];
    let k2 = p2[0];
    let out = hooks::with_hook(node, p2, c2);
    if k1 != k2 {
        if p2.len() <= 1 {
            let x = hooks::with_hook_entry(json::obj_get(entries, k2), c2);
            json::law_object_read_after_write(entries, k2, x);
        } else {
            let child = match json::obj_get(entries, k2) {
                Some(JsonV::Object(c)) => JsonV::Object(c),
                _ => JsonV::Object(Seq::empty()),
            };
            let x = hooks::with_hook(child, p2.drop_first(), c2);
            json::law_object_read_after_write(entries, k2, x);
        }
        assert(out.get(k1) == node.get(k1));
    } else {
        assert(paths_diverge(p1.drop_first(), p2.drop_first()));
        let c = node.get(k1)->0;
        assert(settled_at(c, p1.drop_first(), c1));
        assert(p2.len() > 1);
        let x = hooks::with_hook(c, p2.drop_first(), c2);
        json::law_object_read_after_write(entries, k2, x);
        lemma_with_hook_keeps_settled(c, p1.drop_first(), c1, p2.drop_first(), c2);
    }
}

/// The command line of this program's hook is recognized as one of its hooks.
proof fn lemma_hook_command_managed(exe: Seq<char>, flag: Seq<char>)
    requires
        flag == "--hook-session-start"@ || flag == "--hook-session-end"@,
    ensures
        hooks::is_managed_command(hooks::hook_command_line(exe, flag)),
{
    reveal_strlit("--hook-session-start");
    reveal_strlit("--hook-session-end");
    reveal_strlit(" ");
    let s = hooks::hook_command_line(exe, flag);
    let m = s.len() - flag.len();
    assert(s.skip(m) =~= flag);
    assert(s[m] == flag[0]);
    assert(!text::is_white_space(flag[0]));
    assert(s.last() == flag.last());
    assert(!text::is_white_space(s.last()));
    text::lemma_trim_of_suffix(s, flag);
}

/// A settled list holds the entry for its command.
proof fn lemma_settled_present(node: JsonV, path: Seq<Seq<char>>, cmd: Seq<char>)
    requires
        settled_at(node, path, cmd),
    ensures
        value_at(node, path) matches Some(JsonV::Array(items)) && items.contains(hooks::hook_entry(cmd)),
    decreases path.len(),
{
    let child = node.get(path[0])->0;
    if path.len() == 1 {
        let items = child->Array_0;
        let i = hooks::first_managed(items)->0;
        assert(hooks::is_first_managed(items, i));
        assert(items[i] == hooks::hook_entry(cmd));
        assert(value_at(child, path.drop_first()) == Some(child));
    } else {
        lemma_settled_present(child, path.drop_first(), cmd);
    }
}

/// After installing this program's session hooks in editor settings, the
/// list under `hooks.SessionStart` holds the start hook and the list under
/// `hooks.SessionEnd` holds the end hook.
pub proof fn law_settings_hooks_registered(root: JsonV, exe: Seq<char>)
    ensures
        value_at(hooks::settings_with_hooks(root, exe), seq!["hooks"@, "SessionStart"@])
            matches Some(JsonV::Array(items))
            && items.contains(hooks::hook_entry(hooks::hook_command_line(exe, "--hook-session-start"@))),
        value_at(hooks::settings_with_hooks(root, exe), seq!["hooks"@, "SessionEnd"@])
            matches Some(JsonV::Array(items))
            && items.contains(hooks::hook_entry(hooks::hook_command_line(exe, "--hook-session-end"@))),
{
    let pa = seq!["hooks"@, "SessionStart"@];
    let pb = seq!["hooks"@, "SessionEnd"@];
    let ca = hooks::hook_command_line(exe, "--hook-session-start"@);
    let cb = hooks::hook_command_line(exe, "--hook-session-end"@);
    lemma_hook_command_managed(exe, "--hook-session-start"@);
    lemma_hook_command_managed(exe, "--hook-session-end"@);
    reveal_strlit("SessionStart");
    reveal_strlit("SessionEnd");
    assert("SessionStart"@.len() != "SessionEnd"@.len());
    assert(pa.drop_first()[0] != pb.drop_first()[0]);
    assert(paths_diverge(pa.drop_first(), pb.drop_first()));
    assert(paths_diverge(pa, pb));
    let a = hooks::with_hook(root, pa, ca);
    let y = hooks::with_hook(a, pb, cb);
    lemma_with_hook_settled(root, pa, ca);
    lemma_with_hook_keeps_settled(a, pa, ca, pb, cb);
    lemma_settled_present(y, pa, ca);
    lemma_with_hook_settled(a, pb, cb);
    lemma_settled_present(y, pb, cb);
}

/// Installing this program's session hooks in editor settings a second time
/// leaves the settings as the first time left them.
pub proof fn law_settings_hooks_idempotent(root: JsonV, exe: Seq<char>)
    ensures
        hooks::settings_with_hooks(hooks::settings_with_hooks(root, exe), exe) == hooks::settings_with_hooks(
            root,
            exe,
        ),
{
    let pa = seq!["hooks"@, "SessionStart"@];
    let pb = seq!["hooks"@, "SessionEnd"@];
    let ca = hooks::hook_command_line(exe, "--hook-session-start"@);
    let cb = hooks::hook_command_line(exe, "--hook-session-end"@);
    lemma_hook_command_managed(exe, "--hook-session-start"@);
    lemma_hook_command_managed(exe, "--hook-session-end"@);
    reveal_strlit("SessionStart");
    reveal_strlit("SessionEnd");
    assert("SessionStart"@.len() != "SessionEnd"@.len());
    assert(pa.drop_first()[0] != pb.drop_first()[0]);
    assert(paths_diverge(pa.drop_first(), pb.drop_first()));
    assert(paths_diverge(pa, pb));
    let a = hooks::with_hook(root, pa, ca);
    let y = hooks::with_hook(a, pb, cb);
    lemma_with_hook_settled(root, pa, ca);
    lemma_with_hook_keeps_settled(a, pa, ca, pb, cb);
    lemma_with_hook_fixed(y, pa, ca);
    lemma_with_hook_settled(a, pb, cb);
    lemma_with_hook_fixed(y, pb, cb);
}

/// Installing this program's session hooks in the Codex hooks file a second
/// time leaves the file as the first time left it.
pub proof fn law_codex_hooks_idempotent(root: JsonV, exe: Seq<char>)
    ensures
        hooks::codex_hooks_with_hooks(hooks::codex_hooks_with_hooks(root, exe), exe)
            == hooks::codex_hooks_with_hooks(root, exe),
{
    let pa = seq!["SessionStart"@];
    let pb = seq!["SessionEnd"@];
    let ca = hooks::hook_command_line(exe, "--hook-session-start"@);
    let cb = hooks::hook_command_line(exe, "--hook-session-end"@);
    lemma_hook_command_managed(exe, "--hook-session-start"@);
    lemma_hook_command_managed(exe, "--hook-session-end"@);
    reveal_strlit("SessionStart");
    reveal_strlit("SessionEnd");
    assert("SessionStart"@.len() != "SessionEnd"@.len());
    assert(pa[0] != pb[0]);
    assert(paths_diverge(pa, pb));
    let a = hooks::with_hook(root, pa, ca);
    let y = hooks::with_hook(a, pb, cb);
    lemma_with_hook_settled(root, pa, ca);
    lemma_with_hook_keeps_settled(a, pa, ca, pb, cb);
    lemma_with_hook_fixed(y, pa, ca);
    lemma_with_hook_settled(a, pb, cb);
    lemma_with_hook_fixed(y, pb, cb);
}

/// An entry is one of this program's hook entries exactly when its `command`
/// member is a string that ends, once trimmed, with `--hook-session-start` or
/// `--hook-session-end`; its other members do not matter.
pub proof fn law_managed_entry_by_command(item: JsonV)
    ensures
        hooks::is_managed_entry(item) <==> (item.get_str("command"@) matches Some(c) && (text::ends_with(
            text::trim(c),
            "--hook-session-start"@,
        ) || text::ends_with(text::trim(c), "--hook-session-end"@))),
{
}

/// Registering a hook command in a list whose entry at `i` is the first that
/// runs one of this program's session hooks replaces that entry by the entry
/// for the command and keeps every other entry: the list does not grow.
pub proof fn law_register_replaces_first_managed(items: Seq<JsonV>, cmd: Seq<char>, i: int)
    requires
        0 <= i < items.len(),
        items[i].get_str("command"@) matches Some(c) && (text::ends_with(text::trim(c), "--hook-session-start"@)
            || text::ends_with(text::trim(c), "--hook-session-end"@)),
        forall|j: int|
            0 <= j < i ==> !(#[trigger] items[j].get_str("command"@) matches Some(c) && (text::ends_with(
                text::trim(c),
                "--hook-session-start"@,
            ) || text::ends_with(text::trim(c), "--hook-session-end"@))),
    ensures
        hooks::with_hook_entry(Some(JsonV::Array(items)), cmd) == JsonV::Array(
            items.update(i, JsonV::Object(seq![("command"@, JsonV::Str(cmd))])),
        ),
{
    law_managed_entry_by_command(items[i]);
    assert forall|j: int| 0 <= j < i implies !hooks::is_managed_entry(#[trigger] items[j]) by {
        law_managed_entry_by_command(items[j]);
    }
    assert(hooks::is_first_managed(items, i));
    lemma_first_managed_is(items, i);
}

/// Registering a hook command in a list where no entry runs one of this
/// program's session hooks adds the entry for the command last.
pub proof fn law_register_appends_when_unmanaged(items: Seq<JsonV>, cmd: Seq<char>)
    requires
        forall|j: int|
            0 <= j < items.len() ==> !(#[trigger] items[j].get_str("command"@) matches Some(c) && (
            text::ends_with(text::trim(c), "--hook-session-start"@) || text::ends_with(
                text::trim(c),
                "--hook-session-end"@,
            ))),
    ensures
        hooks::with_hook_entry(Some(JsonV::Array(items)), cmd) == JsonV::Array(
            items.push(JsonV::Object(seq![("command"@, JsonV::Str(cmd))])),
        ),
{
    if hooks::first_managed(items) is Some {
        let i = hooks::first_managed(items)->0;
        assert(hooks::is_first_managed(items, i));
        law_managed_entry_by_command(items[i]);
    }
}

} // verus!
