use vstd::prelude::*;
use crate::text;
use crate::json;
use crate::json::{Json, JsonV};

verus! {

/// The line that opens the features table.
pub open spec fn features_header() -> Seq<char> {
    "[features]"@
}

/// The key that turns the codex hooks on.
pub open spec fn codex_key() -> Seq<char> {
    "codex_hooks"@
}

/// The line that turns the codex hooks on.
pub open spec fn codex_line() -> Seq<char> {
    "codex_hooks = true"@
}

/// The line, trimmed, is the features table header.
pub open spec fn is_features_header(line: Seq<char>) -> bool {
    text::trim(line) == features_header()
}

/// The line, trimmed, opens a table other than the features table.
pub open spec fn is_other_header(line: Seq<char>) -> bool {
    &&& text::trim(line).len() > 0
    &&& text::trim(line)[0] == '['
    &&& !is_features_header(line)
}

/// `f` is the first features header of `ls`.
pub open spec fn is_first_features_header(ls: Seq<Seq<char>>, f: int) -> bool {
    &&& 0 <= f < ls.len()
    &&& is_features_header(ls[f])
    &&& forall|j: int| 0 <= j < f ==> !is_features_header(#[trigger] ls[j])
}

/// The features section of `ls` runs from the header line `st` up to line
/// `e` (exclusive): from the first features header, the section ends at the
/// first header of another table, or at the end; a repeated features header
/// inside it starts the section anew.
pub open spec fn is_features_section(ls: Seq<Seq<char>>, st: int, e: int) -> bool {
    exists|f: int|
        #![trigger is_first_features_header(ls, f)]
        {
            &&& is_first_features_header(ls, f)
            &&& f <= st < e <= ls.len()
            &&& is_features_header(ls[st])
            &&& forall|j: int| f < j < e ==> !is_other_header(#[trigger] ls[j])
            &&& forall|j: int| st < j < e ==> !is_features_header(#[trigger] ls[j])
            &&& (e == ls.len() || is_other_header(ls[e]))
        }
}

/// The features section of `ls`, if `ls` has a features header.
pub open spec fn features_section(ls: Seq<Seq<char>>) -> Option<(int, int)> {
    if exists|st: int, e: int| is_features_section(ls, st, e) {
        Some(choose|st: int, e: int| is_features_section(ls, st, e))
    } else {
        None
    }
}

/// Some line strictly between `st` and `e` sets the codex hooks key.
pub open spec fn section_has_codex_key(ls: Seq<Seq<char>>, st: int, e: int) -> bool {
    exists|j: int| st < j < e && text::starts_with(text::trim_start(#[trigger] ls[j]), codex_key())
}

/// Going back from `k` over blank lines, but not below `lo`.
pub open spec fn before_blank_lines(ls: Seq<Seq<char>>, lo: int, k: int) -> int
    decreases k - lo,
{
    if k > lo && text::is_blank(ls[k - 1]) {
        before_blank_lines(ls, lo, k - 1)
    } else {
        k
    }
}

/// The lines of a codex configuration after the codex hooks feature was
/// turned on: a features section that sets the key is left alone; one that
/// does not gets the line after its last non-blank line; with no features
/// section, one is added at the end, after an empty line unless the last line
/// is empty.
pub open spec fn upsert_lines(ls: Seq<Seq<char>>) -> Seq<Seq<char>> {
    match features_section(ls) {
        Some((st, e)) => if section_has_codex_key(ls, st, e) {
            ls
        } else {
            ls.insert(before_blank_lines(ls, st + 1, e), codex_line())
        },
        None => {
            let base = if ls.len() > 0 && ls.last().len() > 0 {
                ls.push(Seq::empty())
            } else {
                ls
            };
            base.push(features_header()).push(codex_line())
        },
    }
}

/// The lines joined by line feeds, ending with a line feed.
pub open spec fn render_lines(ls: Seq<Seq<char>>) -> Seq<char> {
    let j = text::join_with(ls, '\n');
    if j.len() > 0 && j.last() == '\n' {
        j
    } else {
        j.push('\n')
    }
}

/// Two features sections of the same lines are the same.
proof fn lemma_features_section_unique(ls: Seq<Seq<char>>, st1: int, e1: int, st2: int, e2: int)
    requires
        is_features_section(ls, st1, e1),
        is_features_section(ls, st2, e2),
    ensures
        st1 == st2 && e1 == e2,
{
    let f1 = choose|f: int|
        #![trigger is_first_features_header(ls, f)]
        {
            &&& is_first_features_header(ls, f)
            &&& f <= st1 < e1 <= ls.len()
            &&& is_features_header(ls[st1])
            &&& forall|j: int| f < j < e1 ==> !is_other_header(#[trigger] ls[j])
            &&& forall|j: int| st1 < j < e1 ==> !is_features_header(#[trigger] ls[j])
            &&& (e1 == ls.len() || is_other_header(ls[e1]))
        };
    let f2 = choose|f: int|
        #![trigger is_first_features_header(ls, f)]
        {
            &&& is_first_features_header(ls, f)
            &&& f <= st2 < e2 <= ls.len()
            &&& is_features_header(ls[st2])
            &&& forall|j: int| f < j < e2 ==> !is_other_header(#[trigger] ls[j])
            &&& forall|j: int| st2 < j < e2 ==> !is_features_header(#[trigger] ls[j])
            &&& (e2 == ls.len() || is_other_header(ls[e2]))
        };
    if f1 < f2 {
        assert(!is_features_header(ls[f1]));
    }
    if f2 < f1 {
        assert(!is_features_header(ls[f2]));
    }
    assert(f1 == f2);
    if e1 < e2 {
        assert(is_other_header(ls[e1]));
        assert(!is_other_header(ls[e1]));
    }
    if e2 < e1 {
        assert(is_other_header(ls[e2]));
        assert(!is_other_header(ls[e2]));
    }
    if st1 < st2 {
        assert(!is_features_header(ls[st2]));
    }
    if st2 < st1 {
        assert(!is_features_header(ls[st1]));
    }
}

/// `features_section` names the section that `is_features_section` describes.
pub proof fn lemma_features_section_is(ls: Seq<Seq<char>>, st: int, e: int)
    requires
        is_features_section(ls, st, e),
    ensures
        features_section(ls) == Some((st, e)),
{
    let (a, b) = choose|a: int, b: int| is_features_section(ls, a, b);
    lemma_features_section_unique(ls, st, e, a, b);
}

fn is_features_header_line(line: &Vec<char>, header: &Vec<char>) -> (r: bool)
    requires
        header@ == features_header(),
    ensures
        r == is_features_header(line@),
{
    let t = text::trimmed(line);
    text::chars_eq(&t, header)
}

fn is_header_line(line: &Vec<char>) -> (r: bool)
    ensures
        r == (text::trim(line@).len() > 0 && text::trim(line@)[0] == '['),
{
    let t = text::trimmed(line);
    t.len() > 0 && t[0] == '['
}

/// Finds the features section of `lines`.
fn find_features_section(lines: &Vec<Vec<char>>) -> (r: Option<(usize, usize)>)
    ensures
        r matches Some((st, e)) ==> features_section(text::seqs_view(lines@)) == Some((st as int, e as int)),
        r is None ==> features_section(text::seqs_view(lines@)) is None,
{
    let ghost ls = text::seqs_view(lines@);
    let header = text::chars_of("[features]");
    let n = lines.len();
    let mut start: Option<usize> = None;
    let ghost mut first: int = 0;
    let mut idx: usize = 0;
    while idx < n
        invariant
            n == lines.len(),
            ls == text::seqs_view(lines@),
            header@ == features_header(),
            idx <= n,
            start is None ==> forall|j: int| 0 <= j < idx ==> !is_features_header(#[trigger] ls[j]),
            start matches Some(st) ==> {
                &&& is_first_features_header(ls, first)
                &&& first <= st < idx
                &&& is_features_header(ls[st as int])
                &&& forall|j: int| first < j < idx ==> !is_other_header(#[trigger] ls[j])
                &&& forall|j: int| st < j < idx ==> !is_features_header(#[trigger] ls[j])
            },
        decreases n - idx,
    {
        let line = &lines[idx];
        assert(line@ == ls[idx as int]);
        if is_features_header_line(line, &header) {
            proof {
                if start is None {
                    first = idx as int;
                }
            }
            start = Some(idx);
        } else if start.is_some() && is_header_line(line) {
            let st = start.unwrap();
            proof {
                assert(is_features_section(ls, st as int, idx as int));
                lemma_features_section_is(ls, st as int, idx as int);
            }
            return Some((st, idx));
        }
        idx = idx + 1;
    }
    match start {
        Some(st) => {
            proof {
                assert(is_features_section(ls, st as int, n as int));
                lemma_features_section_is(ls, st as int, n as int);
            }
            Some((st, n))
        },
        None => {
            proof {
                if exists|a: int, b: int| is_features_section(ls, a, b) {
                    let (a, b) = choose|a: int, b: int| is_features_section(ls, a, b);
                    let f = choose|f: int|
                        #![trigger is_first_features_header(ls, f)]
                        {
                            &&& is_first_features_header(ls, f)
                            &&& f <= a < b <= ls.len()
                            &&& is_features_header(ls[a])
                            &&& forall|j: int| f < j < b ==> !is_other_header(#[trigger] ls[j])
                            &&& forall|j: int| a < j < b ==> !is_features_header(#[trigger] ls[j])
                            &&& (b == ls.len() || is_other_header(ls[b]))
                        };
                    assert(is_features_header(ls[f]));
                }
            }
            None
        },
    }
}


/// Whether a line strictly between `st` and `e` sets the codex hooks key.
fn has_codex_key_line(lines: &Vec<Vec<char>>, st: usize, e: usize) -> (r: bool)
    requires
        st < e <= lines.len(),
    ensures
        r == section_has_codex_key(text::seqs_view(lines@), st as int, e as int),
{
    let ghost ls = text::seqs_view(lines@);
    let key = text::chars_of("codex_hooks");
    let mut j = st + 1;
    while j < e
        invariant
            st < j <= e <= lines.len(),
            ls == text::seqs_view(lines@),
            key@ == codex_key(),
            forall|i: int| st < i < j ==> !text::starts_with(text::trim_start(#[trigger] ls[i]), codex_key()),
        decreases e - j,
    {
        let t = text::trimmed_start(&lines[j]);
        assert(lines@[j as int]@ == ls[j as int]);
        if text::has_prefix(&t, &key) {
            return true;
        }
        j = j + 1;
    }
    false
}

/// Going back from `e` over blank lines, but not below `lo`.
fn skip_back_blank(lines: &Vec<Vec<char>>, lo: usize, e: usize) -> (k: usize)
    requires
        lo <= e <= lines.len(),
    ensures
        k as int == before_blank_lines(text::seqs_view(lines@), lo as int, e as int),
        lo <= k <= e,
{
    let ghost ls = text::seqs_view(lines@);
    let mut k = e;
    while k > lo && text::all_white_space(&lines[k - 1])
        invariant
            lo <= k <= e <= lines.len(),
            ls == text::seqs_view(lines@),
            before_blank_lines(ls, lo as int, k as int) == before_blank_lines(ls, lo as int, e as int),
        decreases k,
    {
        assert(lines@[k - 1]@ == ls[k - 1]);
        k = k - 1;
    }
    proof {
        if k > lo {
            assert(lines@[k - 1]@ == ls[k - 1]);
        }
    }
    k
}

/// The lines joined by line feeds, with a final line feed.
fn render(lines: &Vec<Vec<char>>) -> (r: String)
    ensures
        r@ == render_lines(text::seqs_view(lines@)),
{
    let mut j = text::join_chars(lines, '\n');
    let n = j.len();
    if !(n > 0 && j[n - 1] == '\n') {
        j.push('\n');
    }
    text::string_from_chars(&j)
}

/// Turns the codex hooks feature on in the text of a codex configuration:
/// inside the `[features]` section when there is one (unless a
/// `codex_hooks` key is already set there), otherwise in a new section at
/// the end.
pub fn upsert_codex_feature(content: &str) -> (r: String)
    ensures
        r@ == render_lines(upsert_lines(text::lines_of(content@))),
{
    let cs = text::chars_of(content);
    let mut lines = text::lines(&cs);
    let ghost ls = text::seqs_view(lines@);
    match find_features_section(&lines) {
        Some((st, e)) => {
            if !has_codex_key_line(&lines, st, e) {
                let at = skip_back_blank(&lines, st + 1, e);
                lines.insert(at, text::chars_of("codex_hooks = true"));
                assert(text::seqs_view(lines@) =~= ls.insert(at as int, codex_line()));
            }
        },
        None => {
            let n = lines.len();
            if n > 0 && lines[n - 1].len() != 0 {
                lines.push(Vec::new());
                assert(text::seqs_view(lines@) =~= ls.push(Seq::empty()));
            }
            let ghost base = text::seqs_view(lines@);
            lines.push(text::chars_of("[features]"));
            lines.push(text::chars_of("codex_hooks = true"));
            assert(text::seqs_view(lines@) =~= base.push(features_header()).push(codex_line()));
        },
    }
    render(&lines)
}


/// A command that runs this program's own session hook, judged by its ending
/// once surrounding white space is trimmed.
pub open spec fn is_managed_command(cmd: Seq<char>) -> bool {
    let t = text::trim(cmd);
    text::ends_with(t, "--hook-session-start"@) || text::ends_with(t, "--hook-session-end"@)
}

/// Whether `command` runs one of this program's session hooks.
pub fn is_managed_hook_command(command: &str) -> (r: bool)
    ensures
        r == is_managed_command(command@),
{
    let cs = text::chars_of(command);
    let t = text::trimmed(&cs);
    text::has_suffix(&t, &text::chars_of("--hook-session-start")) || text::has_suffix(
        &t,
        &text::chars_of("--hook-session-end"),
    )
}

/// The hook entry that runs `cmd`.
pub open spec fn hook_entry(cmd: Seq<char>) -> JsonV {
    JsonV::Object(seq![("command"@, JsonV::Str(cmd))])
}

/// An entry whose `command` is a string that runs a session hook of this program.
pub open spec fn is_managed_entry(item: JsonV) -> bool {
    match item.get_str("command"@) {
        Some(c) => is_managed_command(c),
        None => false,
    }
}

pub open spec fn is_first_managed(items: Seq<JsonV>, i: int) -> bool {
    &&& 0 <= i < items.len()
    &&& is_managed_entry(items[i])
    &&& forall|j: int| 0 <= j < i ==> !is_managed_entry(#[trigger] items[j])
}

/// The position of the first managed hook entry.
pub open spec fn first_managed(items: Seq<JsonV>) -> Option<int> {
    if exists|i: int| is_first_managed(items, i) {
        Some(choose|i: int| is_first_managed(items, i))
    } else {
        None
    }
}

/// The hook list after registering `cmd`: the first entry that runs one of
/// this program's hooks is replaced by the entry for `cmd`; with no such
/// entry, the entry is added last. A value that is not a list counts as an
/// empty list.
pub open spec fn with_hook_entry(old: Option<JsonV>, cmd: Seq<char>) -> JsonV {
    let items = match old {
        Some(JsonV::Array(items)) => items,
        _ => Seq::empty(),
    };
    match first_managed(items) {
        Some(i) => JsonV::Array(items.update(i, hook_entry(cmd))),
        None => JsonV::Array(items.push(hook_entry(cmd))),
    }
}

/// The members of an object; none for any other value.
pub open spec fn members(node: JsonV) -> Seq<(Seq<char>, JsonV)> {
    match node {
        JsonV::Object(entries) => entries,
        _ => Seq::empty(),
    }
}

/// `node` after registering the hook command `cmd` in the list at `path`:
/// each key but the last names an object (a member that is not an object is
/// replaced by an empty one), and the last names the hook list.
pub open spec fn with_hook(node: JsonV, path: Seq<Seq<char>>, cmd: Seq<char>) -> JsonV
    decreases path.len(),
{
    let entries = members(node);
    if path.len() <= 1 {
        JsonV::Object(
            json::obj_insert(entries, path[0], with_hook_entry(json::obj_get(entries, path[0]), cmd)),
        )
    } else {
        let child = match json::obj_get(entries, path[0]) {
            Some(JsonV::Object(c)) => JsonV::Object(c),
            _ => JsonV::Object(Seq::empty()),
        };
        JsonV::Object(json::obj_insert(entries, path[0], with_hook(child, path.drop_first(), cmd)))
    }
}

/// The keys of a path.
pub open spec fn path_view(path: &[&str]) -> Seq<Seq<char>> {
    path@.map_values(|k: &str| k@)
}

fn hook_entry_value(command: &str) -> (r: Json)
    ensures
        r@ == hook_entry(command@),
{
    let mut entries: Vec<(String, Json)> = Vec::new();
    entries.push(("command".to_owned(), Json::string(command)));
    proof {
        json::lemma_object_view(entries);
    }
    assert(json::entries_view(entries@) =~= seq![("command"@, JsonV::Str(command@))]);
    Json::Object(entries)
}

fn find_managed(items: &Vec<Json>) -> (r: Option<usize>)
    ensures
        r matches Some(i) ==> first_managed(json::items_view(items@)) == Some(i as int),
        r is None ==> first_managed(json::items_view(items@)) is None,
{
    let ghost iv = json::items_view(items@);
    for i in 0..items.len()
        invariant
            iv == json::items_view(items@),
            forall|j: int| 0 <= j < i ==> !is_managed_entry(#[trigger] iv[j]),
    {
        assert(items@[i as int]@ == iv[i as int]);
        let managed = match items[i].get("command") {
            Some(c) => match c.as_str() {
                Some(s) => is_managed_hook_command(s.as_str()),
                None => false,
            },
            None => false,
        };
        if managed {
            proof {
                assert(is_first_managed(iv, i as int));
                let c = choose|c: int| is_first_managed(iv, c);
                if c < i {
                    assert(!is_managed_entry(iv[c]));
                }
                if i < c {
                    assert(!is_managed_entry(iv[i as int]));
                }
            }
            return Some(i);
        }
    }
    proof {
        if exists|c: int| is_first_managed(iv, c) {
            let c = choose|c: int| is_first_managed(iv, c);
            assert(!is_managed_entry(iv[c]));
        }
    }
    None
}

fn with_hook_list(old: Option<&Json>, command: &str) -> (r: Json)
    ensures
        r@ == with_hook_entry(
            match old {
                Some(j) => Some(j@),
                None => None,
            },
            command@,
        ),
{
    let ghost ov = match old {
        Some(j) => Some(j@),
        None => None,
    };
    let ghost base = match ov {
        Some(JsonV::Array(items)) => items,
        _ => Seq::empty(),
    };
    let mut items: Vec<Json> = match old {
        Some(j) => match j {
            Json::Array(v) => {
                proof {
                    json::lemma_array_view(*v);
                }
                json::clone_items(v)
            },
            _ => Vec::new(),
        },
        None => Vec::new(),
    };
    let ghost iv = json::items_view(items@);
    assert(iv =~= base);
    let entry = hook_entry_value(command);
    match find_managed(&items) {
        Some(i) => {
            items.set(i, entry);
            assert(json::items_view(items@) =~= iv.update(i as int, hook_entry(command@)));
        },
        None => {
            items.push(entry);
            assert(json::items_view(items@) =~= iv.push(hook_entry(command@)));
        },
    }
    proof {
        json::lemma_array_view(items);
    }
    Json::Array(items)
}

fn member_copies(node: &Json) -> (r: Vec<(String, Json)>)
    ensures
        json::entries_view(r@) == members(node@),
{
    match node {
        Json::Object(entries) => {
            proof {
                json::lemma_object_view(*entries);
            }
            json::clone_entries(entries)
        },
        _ => {
            let r: Vec<(String, Json)> = Vec::new();
            assert(json::entries_view(r@) =~= Seq::empty());
            r
        },
    }
}

fn with_hook_at(node: &Json, path: &[&str], i: usize, command: &str) -> (r: Json)
    requires
        i < path.len(),
    ensures
        r@ == with_hook(node@, path_view(path).skip(i as int), command@),
    decreases path.len() - i,
{
    let ghost p = path_view(path).skip(i as int);
    let mut entries = member_copies(node);
    let ghost ev = json::entries_view(entries@);
    let key = path[i];
    assert(p[0] == key@);
    assert(node@.get(key@) == json::obj_get(ev, key@));
    let child = if i + 1 == path.len() {
        with_hook_list(node.get(key), command)
    } else {
        assert(p.drop_first() =~= path_view(path).skip(i + 1));
        match node.get(key) {
            Some(c) => {
                if c.is_object() {
                    with_hook_at(c, path, i + 1, command)
                } else {
                    with_hook_at(&Json::new_object(), path, i + 1, command)
                }
            },
            None => with_hook_at(&Json::new_object(), path, i + 1, command),
        }
    };
    json::set_member(&mut entries, key.to_owned(), child);
    proof {
        json::lemma_object_view(entries);
    }
    Json::Object(entries)
}

/// Registers the hook `command` in the list at `path` of the settings
/// `root`: the first entry that runs one of this program's session hooks is
/// replaced, or the entry is added; objects along the path are created as
/// needed.
pub fn ensure_hook_command(root: &mut Json, path: &[&str], command: &str)
    requires
        path.len() >= 1,
        old(root)@ is Object || old(root)@ is Null,
    ensures
        final(root)@ == with_hook(old(root)@, path_view(path), command@),
{
    let r = with_hook_at(root, path, 0, command);
    assert(path_view(path).skip(0) =~= path_view(path));
    *root = r;
}


/// The command line that runs this program, at `exe`, with the hook flag `flag`.
pub open spec fn hook_command_line(exe: Seq<char>, flag: Seq<char>) -> Seq<char> {
    exe + " "@ + flag
}

/// The command line `"{exe} {flag}"`.
pub fn hook_command(exe: &str, flag: &str) -> (r: String)
    ensures
        r@ == hook_command_line(exe@, flag@),
{
    let mut v = text::chars_of(exe);
    v.push(' ');
    let f = text::chars_of(flag);
    let w = text::concat_chars(&v, &f);
    proof {
        reveal_strlit(" ");
    }
    assert(w@ =~= exe@ + " "@ + flag@);
    text::string_from_chars(&w)
}

/// Editor settings after registering this program's session hooks, which
/// live under `hooks.SessionStart` and `hooks.SessionEnd`.
pub open spec fn settings_with_hooks(root: JsonV, exe: Seq<char>) -> JsonV {
    let started = with_hook(
        root,
        seq!["hooks"@, "SessionStart"@],
        hook_command_line(exe, "--hook-session-start"@),
    );
    with_hook(started, seq!["hooks"@, "SessionEnd"@], hook_command_line(exe, "--hook-session-end"@))
}

/// The Codex hooks file after registering this program's session hooks,
/// which live under `SessionStart` and `SessionEnd`.
pub open spec fn codex_hooks_with_hooks(root: JsonV, exe: Seq<char>) -> JsonV {
    let started = with_hook(root, seq!["SessionStart"@], hook_command_line(exe, "--hook-session-start"@));
    with_hook(started, seq!["SessionEnd"@], hook_command_line(exe, "--hook-session-end"@))
}

/// Registers the session hooks of the program at `exe` in editor settings,
/// under `hooks`.
pub fn register_settings_hooks(root: &mut Json, exe: &str)
    requires
        old(root)@ is Object || old(root)@ is Null,
    ensures
        final(root)@ == settings_with_hooks(old(root)@, exe@),
{
    let start = hook_command(exe, "--hook-session-start");
    let end = hook_command(exe, "--hook-session-end");
    let p1: [&str; 2] = ["hooks", "SessionStart"];
    let p2: [&str; 2] = ["hooks", "SessionEnd"];
    let s1 = p1.as_slice();
    let s2 = p2.as_slice();
    assert(path_view(s1) =~= seq!["hooks"@, "SessionStart"@]);
    assert(path_view(s2) =~= seq!["hooks"@, "SessionEnd"@]);
    ensure_hook_command(root, s1, start.as_str());
    ensure_hook_command(root, s2, end.as_str());
}

/// Registers the session hooks of the program at `exe` in the Codex hooks file.
pub fn register_codex_hooks(root: &mut Json, exe: &str)
    requires
        old(root)@ is Object || old(root)@ is Null,
    ensures
        final(root)@ == codex_hooks_with_hooks(old(root)@, exe@),
{
    let start = hook_command(exe, "--hook-session-start");
    let end = hook_command(exe, "--hook-session-end");
    let p1: [&str; 1] = ["SessionStart"];
    let p2: [&str; 1] = ["SessionEnd"];
    let s1 = p1.as_slice();
    let s2 = p2.as_slice();
    assert(path_view(s1) =~= seq!["SessionStart"@]);
    assert(path_view(s2) =~= seq!["SessionEnd"@]);
    ensure_hook_command(root, s1, start.as_str());
    ensure_hook_command(root, s2, end.as_str());
}

/// The settings document for the text of a settings file (none when the file
/// could not be read): the JSON it reads as when that is an object, an empty
/// object otherwise.
pub open spec fn settings_document_of(content: Option<Seq<char>>) -> JsonV {
    match content {
        Some(c) => match json::json_of_text(c) {
            Some(v) => if v is Object {
                v
            } else {
                JsonV::Object(Seq::empty())
            },
            None => JsonV::Object(Seq::empty()),
        },
        None => JsonV::Object(Seq::empty()),
    }
}

/// Reads a settings document from the text of its file.
pub fn settings_document(content: Option<&str>) -> (r: Json)
    ensures
        r@ == settings_document_of(
            match content {
                Some(c) => Some(c@),
                None => None,
            },
        ),
        r@ is Object,
        json::json_wf(r@),
{
    proof {
        assert(json::keys_unique(Seq::empty()));
    }
    match content {
        Some(c) => match json::parse_json(c) {
            Some(v) => {
                if v.is_object() {
                    v
                } else {
                    Json::new_object()
                }
            },
            None => Json::new_object(),
        },
        None => Json::new_object(),
    }
}

/// The codex configuration written when there is none.
pub open spec fn fresh_codex_config() -> Seq<char> {
    "[features]\ncodex_hooks = true\n"@
}

/// What to write to the codex configuration, given its current text (none
/// when the file does not exist): nothing when the text already has the line
/// `codex_hooks = true` somewhere.
pub open spec fn codex_config_update_spec(existing: Option<Seq<char>>) -> Option<Seq<char>> {
    match existing {
        None => Some(fresh_codex_config()),
        Some(c) => if text::contains_seq(c, codex_line()) {
            None
        } else {
            Some(render_lines(upsert_lines(text::lines_of(c))))
        },
    }
}

/// Decides what to write to the codex configuration so that the codex hooks
/// feature is on; `None` means the file is left as it is.
pub fn codex_config_update(existing: Option<&str>) -> (r: Option<String>)
    ensures
        match r {
            Some(s) => codex_config_update_spec(
                match existing {
                    Some(c) => Some(c@),
                    None => None,
                },
            ) == Some(s@),
            None => codex_config_update_spec(
                match existing {
                    Some(c) => Some(c@),
                    None => None,
                },
            ) is None,
        },
{
    match existing {
        None => Some("[features]\ncodex_hooks = true\n".to_owned()),
        Some(c) => {
            let cs = text::chars_of(c);
            if text::has_infix(&cs, &text::chars_of("codex_hooks = true")) {
                None
            } else {
                Some(upsert_codex_feature(c))
            }
        },
    }
}

/// The record of a finished session: the working directory and the time, in
/// seconds since the Unix epoch.
pub fn session_end_payload(cwd: &str, ended_at_unix: u64) -> (r: Json)
    ensures
        r@ == JsonV::Object(
            seq![
                ("cwd"@, JsonV::Str(cwd@)),
                ("ended_at_unix"@, JsonV::Number(json::NumberV::PosInt(ended_at_unix))),
            ],
        ),
{
    let mut entries: Vec<(String, Json)> = Vec::new();
    entries.push(("cwd".to_owned(), Json::string(cwd)));
    entries.push(("ended_at_unix".to_owned(), Json::Number(json::JsonNumber::PosInt(ended_at_unix))));
    proof {
        json::lemma_object_view(entries);
    }
    assert(json::entries_view(entries@) =~= seq![
        ("cwd"@, JsonV::Str(cwd@)),
        ("ended_at_unix"@, JsonV::Number(json::NumberV::PosInt(ended_at_unix))),
    ]);
    Json::Object(entries)
}

} // verus!
