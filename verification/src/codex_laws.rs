use vstd::prelude::*;
use crate::hooks;
use crate::text;

verus! {

/// No character of `x` is `c`.
pub open spec fn lacks(x: Seq<char>, c: char) -> bool {
    forall|i: int| 0 <= i < x.len() ==> x[i] != c
}

/// Appending text without separators extends the last piece.
proof fn lemma_split_append(a: Seq<char>, b: Seq<char>, sep: char)
    requires
        lacks(b, sep),
    ensures
        text::split_on(a + b, sep) == text::split_on(a, sep).update(
            text::split_on(a, sep).len() - 1,
            text::split_on(a, sep).last() + b,
        ),
    decreases b.len(),
{
    text::lemma_split_on_len(a, sep);
    let pa = text::split_on(a, sep);
    if b.len() == 0 {
        assert(a + b =~= a);
        assert(pa.last() + b =~= pa.last());
        assert(pa.update(pa.len() - 1, pa.last() + b) =~= pa);
    } else {
        let b1 = b.drop_last();
        assert(lacks(b1, sep));
        lemma_split_append(a, b1, sep);
        let s = a + b;
        assert(s.drop_last() =~= a + b1);
        assert(s.last() == b.last());
        assert(b.last() != sep);
        let r = text::split_on(a + b1, sep);
        assert(r == pa.update(pa.len() - 1, pa.last() + b1));
        assert(r.last() == pa.last() + b1);
        assert(r.last().push(b.last()) =~= pa.last() + b);
        assert(r.update(r.len() - 1, r.last().push(b.last())) =~= pa.update(pa.len() - 1, pa.last() + b));
    }
}

/// Splitting joined pieces gives the pieces back.
proof fn lemma_split_join(ls: Seq<Seq<char>>, sep: char)
    requires
        ls.len() >= 1,
        forall|i: int| 0 <= i < ls.len() ==> lacks(#[trigger] ls[i], sep),
    ensures
        text::split_on(text::join_with(ls, sep), sep) == ls,
    decreases ls.len(),
{
    let empty = Seq::<char>::empty();
    if ls.len() == 1 {
        assert(lacks(ls[0], sep));
        lemma_split_append(empty, ls[0], sep);
        assert(empty + ls[0] =~= ls[0]);
        assert(text::split_on(empty, sep) == seq![empty]);
        assert(seq![empty].update(0, empty + ls[0]) =~= ls);
    } else {
        let init = ls.drop_last();
        assert forall|i: int| 0 <= i < init.len() implies lacks(#[trigger] init[i], sep) by {
            assert(init[i] == ls[i]);
        }
        lemma_split_join(init, sep);
        let j = text::join_with(init, sep);
        assert(lacks(ls.last(), sep));
        lemma_split_append(j.push(sep), ls.last(), sep);
        assert(j.push(sep).drop_last() =~= j);
        let pj = text::split_on(j.push(sep), sep);
        assert(pj == init.push(empty));
        assert(empty + ls.last() =~= ls.last());
        assert(pj.update(pj.len() - 1, pj.last() + ls.last()) =~= ls);
    }
}

/// The line ends with a carriage return.
pub open spec fn ends_with_cr(x: Seq<char>) -> bool {
    x.len() > 0 && x.last() == '\r'
}

/// A line that can be written and read back as it is: no line feed, and no
/// carriage return at its end.
pub open spec fn plain_line(x: Seq<char>) -> bool {
    lacks(x, '\n') && !ends_with_cr(x)
}

/// Joined plain lines with a final line feed read back as the same lines.
proof fn lemma_lines_of_joined(ls: Seq<Seq<char>>)
    requires
        ls.len() >= 1,
        forall|i: int| 0 <= i < ls.len() ==> plain_line(#[trigger] ls[i]),
    ensures
        text::lines_of(text::join_with(ls, '\n').push('\n')) == ls,
{
    assert forall|i: int| 0 <= i < ls.len() implies lacks(#[trigger] ls[i], '\n') by {
        assert(plain_line(ls[i]));
    }
    lemma_split_join(ls, '\n');
    let j = text::join_with(ls, '\n');
    assert(j.push('\n').drop_last() =~= j);
    let p = text::split_on(j.push('\n'), '\n');
    assert(p == ls.push(Seq::empty()));
    assert(p.drop_last() =~= ls);
    assert forall|i: int| 0 <= i < ls.len() implies text::strip_cr(#[trigger] ls[i]) == ls[i] by {
        assert(plain_line(ls[i]));
    }
    assert(p.drop_last().map_values(|x: Seq<char>| text::strip_cr(x)) =~= ls);
}

/// Joined lines end with the last line.
proof fn lemma_join_last(ls: Seq<Seq<char>>, sep: char)
    requires
        ls.len() >= 1,
        ls.last().len() > 0,
    ensures
        text::join_with(ls, sep).len() > 0,
        text::join_with(ls, sep).last() == ls.last().last(),
{
    if ls.len() > 1 {
        let j = text::join_with(ls.drop_last(), sep);
        assert((j.push(sep) + ls.last()).last() == ls.last().last());
    }
}

/// Rendering plain lines whose last line is not empty: the lines joined,
/// with a final line feed.
proof fn lemma_render_plain(ls: Seq<Seq<char>>)
    requires
        ls.len() >= 1,
        ls.last().len() > 0,
        forall|i: int| 0 <= i < ls.len() ==> plain_line(#[trigger] ls[i]),
    ensures
        hooks::render_lines(ls) == text::join_with(ls, '\n').push('\n'),
{
    lemma_join_last(ls, '\n');
    assert(plain_line(ls[ls.len() - 1]));
    assert(ls.last()[ls.last().len() - 1] != '\n');
}


/// The pieces of a split hold no separator.
proof fn lemma_split_pieces_lack(s: Seq<char>, sep: char)
    ensures
        forall|i: int|
            0 <= i < text::split_on(s, sep).len() ==> lacks(#[trigger] text::split_on(s, sep)[i], sep),
    decreases s.len(),
{
    if s.len() > 0 {
        let t = s.drop_last();
        lemma_split_pieces_lack(t, sep);
        text::lemma_split_on_len(t, sep);
        let r = text::split_on(t, sep);
        if s.last() != sep {
            assert(lacks(r.last(), sep));
            assert(lacks(r.last().push(s.last()), sep));
        }
    }
}

/// Lines read from a text are plain when none ends with a carriage return.
proof fn lemma_lines_plain(s: Seq<char>)
    requires
        forall|i: int| 0 <= i < text::lines_of(s).len() ==> !ends_with_cr(#[trigger] text::lines_of(s)[i]),
    ensures
        forall|i: int| 0 <= i < text::lines_of(s).len() ==> plain_line(#[trigger] text::lines_of(s)[i]),
{
    lemma_split_pieces_lack(s, '\n');
    text::lemma_split_on_len(s, '\n');
    let p = text::split_on(s, '\n');
    let ls = text::lines_of(s);
    assert forall|i: int| 0 <= i < ls.len() implies plain_line(#[trigger] ls[i]) by {
        assert(lacks(p[i], '\n'));
        assert(!ends_with_cr(ls[i]));
        if i < p.len() - 1 {
            assert(ls[i] == text::strip_cr(p[i]));
            assert(lacks(ls[i], '\n'));
        } else {
            assert(ls[i] == p.last());
        }
    }
}

/// The lines end with two empty lines.
pub open spec fn ends_with_two_empty_lines(ls: Seq<Seq<char>>) -> bool {
    ls.len() >= 2 && ls[ls.len() - 1].len() == 0 && ls[ls.len() - 2].len() == 0
}

proof fn lemma_codex_line_facts()
    ensures
        text::trim(hooks::codex_line()) == hooks::codex_line(),
        !hooks::is_features_header(hooks::codex_line()),
        !hooks::is_other_header(hooks::codex_line()),
        !text::is_blank(hooks::codex_line()),
        text::starts_with(text::trim_start(hooks::codex_line()), hooks::codex_key()),
        plain_line(hooks::codex_line()),
        !ends_with_cr(hooks::codex_line()),
        hooks::codex_line().len() > 0,
{
    reveal_strlit("codex_hooks = true");
    reveal_strlit("codex_hooks");
    reveal_strlit("[features]");
    let c = hooks::codex_line();
    assert(!text::is_white_space(c[0]));
    assert(text::trim_start(c) == c);
    assert(!text::is_white_space(c.last()));
    assert(text::trim_end(c) == c);
    assert(c[0] != hooks::features_header()[0]);
    assert(c.take(11) =~= hooks::codex_key());
}

proof fn lemma_features_header_facts()
    ensures
        hooks::is_features_header(hooks::features_header()),
        !text::is_blank(hooks::features_header()),
        plain_line(hooks::features_header()),
        hooks::features_header().len() > 0,
        !hooks::is_features_header(Seq::empty()),
        !hooks::is_other_header(Seq::empty()),
        plain_line(Seq::empty()),
{
    reveal_strlit("[features]");
    let h = hooks::features_header();
    assert(!text::is_white_space(h[0]));
    assert(text::trim_start(h) == h);
    assert(!text::is_white_space(h.last()));
    assert(text::trim_end(h) == h);
    assert(text::trim(Seq::<char>::empty()) == Seq::<char>::empty());
}


proof fn lemma_first_header_exists(ls: Seq<Seq<char>>, h: int)
    requires
        0 <= h < ls.len(),
        hooks::is_features_header(ls[h]),
    ensures
        exists|f: int| hooks::is_first_features_header(ls, f),
    decreases h,
{
    if forall|j: int| 0 <= j < h ==> !hooks::is_features_header(#[trigger] ls[j]) {
        assert(hooks::is_first_features_header(ls, h));
    } else {
        let j = choose|j: int| 0 <= j < h && hooks::is_features_header(ls[j]);
        lemma_first_header_exists(ls, j);
    }
}

spec fn next_other_header(ls: Seq<Seq<char>>, j: int) -> int
    decreases ls.len() - j,
{
    if j >= ls.len() {
        ls.len() as int
    } else if hooks::is_other_header(ls[j]) {
        j
    } else {
        next_other_header(ls, j + 1)
    }
}

proof fn lemma_next_other_header(ls: Seq<Seq<char>>, j: int)
    requires
        0 <= j <= ls.len(),
    ensures
        j <= next_other_header(ls, j) <= ls.len(),
        forall|i: int| j <= i < next_other_header(ls, j) ==> !hooks::is_other_header(#[trigger] ls[i]),
        next_other_header(ls, j) == ls.len() || hooks::is_other_header(ls[next_other_header(ls, j)]),
    decreases ls.len() - j,
{
    if j < ls.len() && !hooks::is_other_header(ls[j]) {
        lemma_next_other_header(ls, j + 1);
    }
}

spec fn last_header_before(ls: Seq<Seq<char>>, lo: int, j: int) -> int
    decreases j - lo,
{
    if j <= lo + 1 {
        lo
    } else if hooks::is_features_header(ls[j - 1]) {
        j - 1
    } else {
        last_header_before(ls, lo, j - 1)
    }
}

proof fn lemma_last_header_before(ls: Seq<Seq<char>>, lo: int, j: int)
    requires
        0 <= lo < j <= ls.len(),
        hooks::is_features_header(ls[lo]),
    ensures
        lo <= last_header_before(ls, lo, j) < j,
        hooks::is_features_header(ls[last_header_before(ls, lo, j)]),
        forall|i: int| last_header_before(ls, lo, j) < i < j ==> !hooks::is_features_header(#[trigger] ls[i]),
    decreases j - lo,
{
    if j > lo + 1 && !hooks::is_features_header(ls[j - 1]) {
        lemma_last_header_before(ls, lo, j - 1);
    }
}

/// Lines with no features section have no features header at all.
proof fn lemma_no_section_no_header(ls: Seq<Seq<char>>)
    requires
        hooks::features_section(ls) is None,
    ensures
        forall|j: int| 0 <= j < ls.len() ==> !hooks::is_features_header(#[trigger] ls[j]),
{
    assert forall|h: int| 0 <= h < ls.len() implies !hooks::is_features_header(#[trigger] ls[h]) by {
        if hooks::is_features_header(ls[h]) {
            lemma_first_header_exists(ls, h);
            let f = choose|f: int| hooks::is_first_features_header(ls, f);
            lemma_next_other_header(ls, f + 1);
            let e = next_other_header(ls, f + 1);
            lemma_last_header_before(ls, f, e);
            let st = last_header_before(ls, f, e);
            assert(hooks::is_features_section(ls, st, e));
        }
    }
}

proof fn lemma_before_blank_lines_range(ls: Seq<Seq<char>>, lo: int, k: int)
    requires
        lo <= k,
    ensures
        lo <= hooks::before_blank_lines(ls, lo, k) <= k,
    decreases k - lo,
{
    if k > lo && text::is_blank(ls[k - 1]) {
        lemma_before_blank_lines_range(ls, lo, k - 1);
    }
}

/// Where the key line was inserted into a features section without the key,
/// the section, one line longer, now has it.
proof fn lemma_section_after_insert(ls: Seq<Seq<char>>, st: int, e: int, k: int)
    requires
        hooks::is_features_section(ls, st, e),
        st + 1 <= k <= e,
    ensures
        hooks::is_features_section(ls.insert(k, hooks::codex_line()), st, e + 1),
        hooks::section_has_codex_key(ls.insert(k, hooks::codex_line()), st, e + 1),
{
    lemma_codex_line_facts();
    let u = ls.insert(k, hooks::codex_line());
    let f = choose|f: int|
        #![trigger hooks::is_first_features_header(ls, f)]
        {
            &&& hooks::is_first_features_header(ls, f)
            &&& f <= st < e <= ls.len()
            &&& hooks::is_features_header(ls[st])
            &&& forall|j: int| f < j < e ==> !hooks::is_other_header(#[trigger] ls[j])
            &&& forall|j: int| st < j < e ==> !hooks::is_features_header(#[trigger] ls[j])
            &&& (e == ls.len() || hooks::is_other_header(ls[e]))
        };
    assert(hooks::is_first_features_header(u, f)) by {
        assert(u[f] == ls[f]);
        assert forall|j: int| 0 <= j < f implies !hooks::is_features_header(#[trigger] u[j]) by {
            assert(u[j] == ls[j]);
        }
    }
    assert(u[st] == ls[st]);
    assert forall|j: int| f < j < e + 1 implies !hooks::is_other_header(#[trigger] u[j]) by {
        if j < k {
            assert(u[j] == ls[j]);
        } else if j > k {
            assert(u[j] == ls[j - 1]);
        }
    }
    assert forall|j: int| st < j < e + 1 implies !hooks::is_features_header(#[trigger] u[j]) by {
        if j < k {
            assert(u[j] == ls[j]);
        } else if j > k {
            assert(u[j] == ls[j - 1]);
        }
    }
    if e < ls.len() {
        assert(u[e + 1] == ls[e]);
    }
    assert(hooks::is_features_section(u, st, e + 1));
    assert(u[k] == hooks::codex_line());
}

/// The section added at the end of lines without a features header.
proof fn lemma_section_appended(ls: Seq<Seq<char>>)
    requires
        forall|j: int| 0 <= j < ls.len() ==> !hooks::is_features_header(#[trigger] ls[j]),
    ensures
        ({
            let u = ls.push(hooks::features_header()).push(hooks::codex_line());
            &&& hooks::is_features_section(u, ls.len() as int, ls.len() + 2int)
            &&& hooks::section_has_codex_key(u, ls.len() as int, ls.len() + 2int)
        }),
{
    lemma_codex_line_facts();
    lemma_features_header_facts();
    let b = ls.len() as int;
    let u = ls.push(hooks::features_header()).push(hooks::codex_line());
    assert(u[b] == hooks::features_header());
    assert(u[b + 1] == hooks::codex_line());
    assert forall|j: int| 0 <= j < b implies !hooks::is_features_header(#[trigger] u[j]) by {
        assert(u[j] == ls[j]);
    }
    assert(hooks::is_first_features_header(u, b));
    assert(hooks::is_features_section(u, b, b + 2));
}


/// The text of a codex configuration after turning the codex hooks on.
pub open spec fn upsert_text(c: Seq<char>) -> Seq<char> {
    hooks::render_lines(hooks::upsert_lines(text::lines_of(c)))
}

/// The lines have a features section that sets the codex hooks key.
pub open spec fn is_settled(ls: Seq<Seq<char>>) -> bool {
    exists|st: int, e: int| hooks::is_features_section(ls, st, e) && hooks::section_has_codex_key(ls, st, e)
}

/// Settled lines are left as they are.
proof fn lemma_settled_unchanged(ls: Seq<Seq<char>>)
    requires
        is_settled(ls),
    ensures
        hooks::upsert_lines(ls) == ls,
{
    let (st, e) = choose|st: int, e: int|
        hooks::is_features_section(ls, st, e) && hooks::section_has_codex_key(ls, st, e);
    hooks::lemma_features_section_is(ls, st, e);
}

/// Settled lines stay settled without a final empty line.
proof fn lemma_settled_drop_empty(ls: Seq<Seq<char>>)
    requires
        is_settled(ls),
        ls.len() >= 1,
        ls.last().len() == 0,
    ensures
        is_settled(ls.drop_last()),
{
    lemma_features_header_facts();
    let (st, e) = choose|st: int, e: int|
        hooks::is_features_section(ls, st, e) && hooks::section_has_codex_key(ls, st, e);
    let v = ls.drop_last();
    let n = ls.len() - 1;
    let f = choose|f: int|
        #![trigger hooks::is_first_features_header(ls, f)]
        {
            &&& hooks::is_first_features_header(ls, f)
            &&& f <= st < e <= ls.len()
            &&& hooks::is_features_header(ls[st])
            &&& forall|j: int| f < j < e ==> !hooks::is_other_header(#[trigger] ls[j])
            &&& forall|j: int| st < j < e ==> !hooks::is_features_header(#[trigger] ls[j])
            &&& (e == ls.len() || hooks::is_other_header(ls[e]))
        };
    let k = choose|j: int| st < j < e && text::starts_with(text::trim_start(#[trigger] ls[j]), hooks::codex_key());
    assert(ls[k].len() > 0) by {
        if ls[k].len() == 0 {
            assert(text::trim_start(ls[k]) == ls[k]);
            reveal_strlit("codex_hooks");
        }
    }
    assert(st < n) by {
        assert(ls[n].len() == 0);
        assert(ls[st] != ls[n]);
    }
    assert(k < n);
    let e2 = if e > n { n } else { e };
    assert(e < ls.len() ==> e < n) by {
        if e == n {
            assert(hooks::is_other_header(ls[n]));
        }
    }
    assert(hooks::is_first_features_header(v, f)) by {
        assert forall|j: int| 0 <= j < f implies !hooks::is_features_header(#[trigger] v[j]) by {
            assert(v[j] == ls[j]);
        }
    }
    assert forall|j: int| f < j < e2 implies !hooks::is_other_header(#[trigger] v[j]) by {
        assert(v[j] == ls[j]);
    }
    assert forall|j: int| st < j < e2 implies !hooks::is_features_header(#[trigger] v[j]) by {
        assert(v[j] == ls[j]);
    }
    if e2 < v.len() {
        assert(v[e2] == ls[e]);
    }
    assert(hooks::is_features_section(v, st, e2));
    assert(v[k] == ls[k]);
    assert(hooks::section_has_codex_key(v, st, e2));
}

/// The lines after turning the feature on are plain and settled, and do not
/// end with two empty lines.
proof fn lemma_upsert_lines_settled(c: Seq<char>)
    requires
        forall|i: int| 0 <= i < text::lines_of(c).len() ==> !ends_with_cr(#[trigger] text::lines_of(c)[i]),
        !(hooks::features_section(text::lines_of(c)) is Some && ends_with_two_empty_lines(text::lines_of(c))),
    ensures
        ({
            let u = hooks::upsert_lines(text::lines_of(c));
            &&& u.len() >= 1
            &&& !ends_with_two_empty_lines(u)
            &&& forall|i: int| 0 <= i < u.len() ==> plain_line(#[trigger] u[i])
            &&& is_settled(u)
        }),
{
    lemma_codex_line_facts();
    lemma_features_header_facts();
    lemma_lines_plain(c);
    let ls = text::lines_of(c);
    let u = hooks::upsert_lines(ls);
    match hooks::features_section(ls) {
        Some((st, e)) => {
            assert(hooks::is_features_section(ls, st, e));
            if hooks::section_has_codex_key(ls, st, e) {
                assert(u == ls);
            } else {
                let k = hooks::before_blank_lines(ls, st + 1, e);
                lemma_before_blank_lines_range(ls, st + 1, e);
                assert(u == ls.insert(k, hooks::codex_line()));
                lemma_section_after_insert(ls, st, e, k);
                assert forall|i: int| 0 <= i < u.len() implies plain_line(#[trigger] u[i]) by {
                    if i < k {
                        assert(u[i] == ls[i]);
                    } else if i > k {
                        assert(u[i] == ls[i - 1]);
                    }
                }
                if u.len() >= 2 {
                    if k == ls.len() {
                        assert(u[u.len() - 1] == hooks::codex_line());
                    } else if k == ls.len() - 1 {
                        assert(u[u.len() - 2] == hooks::codex_line());
                    } else {
                        assert(u[u.len() - 1] == ls[ls.len() - 1]);
                        assert(u[u.len() - 2] == ls[ls.len() - 2]);
                    }
                }
            }
        },
        None => {
            lemma_no_section_no_header(ls);
            let base = if ls.len() > 0 && ls.last().len() > 0 {
                ls.push(Seq::empty())
            } else {
                ls
            };
            assert forall|j: int| 0 <= j < base.len() implies !hooks::is_features_header(#[trigger] base[j]) by {
                if j < ls.len() {
                    assert(base[j] == ls[j]);
                }
            }
            assert forall|j: int| 0 <= j < base.len() implies plain_line(#[trigger] base[j]) by {
                if j < ls.len() {
                    assert(base[j] == ls[j]);
                }
            }
            assert(u == base.push(hooks::features_header()).push(hooks::codex_line()));
            lemma_section_appended(base);
            assert forall|i: int| 0 <= i < u.len() implies plain_line(#[trigger] u[i]) by {
                if i < base.len() {
                    assert(u[i] == base[i]);
                }
            }
            assert(u[u.len() - 1] == hooks::codex_line());
        },
    }
}

/// Settled plain lines that do not end with two empty lines render to a
/// text that turning the feature on leaves as it is.
proof fn lemma_settled_render_fixed(u: Seq<Seq<char>>)
    requires
        u.len() >= 1,
        !ends_with_two_empty_lines(u),
        forall|i: int| 0 <= i < u.len() ==> plain_line(#[trigger] u[i]),
        is_settled(u),
    ensures
        upsert_text(hooks::render_lines(u)) == hooks::render_lines(u),
{
    if u.last().len() > 0 {
        lemma_render_plain(u);
        lemma_lines_of_joined(u);
        lemma_settled_unchanged(u);
    } else {
        lemma_settled_drop_empty(u);
        let v = u.drop_last();
        assert(v.len() >= 1) by {
            if v.len() == 0 {
                let (st, e) = choose|st: int, e: int|
                    hooks::is_features_section(u, st, e) && hooks::section_has_codex_key(u, st, e);
                lemma_features_header_facts();
                assert(u[st] == u.last());
            }
        }
        assert(v.last() == u[u.len() - 2]);
        assert forall|i: int| 0 <= i < v.len() implies plain_line(#[trigger] v[i]) by {
            assert(v[i] == u[i]);
        }
        lemma_render_plain(v);
        lemma_lines_of_joined(v);
        lemma_settled_unchanged(v);
        assert(u.last() =~= Seq::<char>::empty());
        assert(u =~= v.push(Seq::empty()));
        let jv = text::join_with(v, '\n');
        assert(text::join_with(u, '\n') == jv.push('\n') + Seq::<char>::empty());
        assert(jv.push('\n') + Seq::<char>::empty() =~= jv.push('\n'));
        assert(hooks::render_lines(u) == jv.push('\n'));
    }
}

/// Turning the codex hooks feature on a second time leaves the configuration
/// as the first time left it. It does not when a line ends with a carriage
/// return (it is written back with a line feed after it, and read back
/// without it), nor when the text has a features section and ends with two
/// empty lines (one of them is lost on each turn).
pub proof fn law_upsert_codex_feature_idempotent(c: Seq<char>)
    requires
        forall|i: int| 0 <= i < text::lines_of(c).len() ==> !ends_with_cr(#[trigger] text::lines_of(c)[i]),
        !(hooks::features_section(text::lines_of(c)) is Some && ends_with_two_empty_lines(text::lines_of(c))),
    ensures
        upsert_text(upsert_text(c)) == upsert_text(c),
{
    lemma_upsert_lines_settled(c);
    lemma_settled_render_fixed(hooks::upsert_lines(text::lines_of(c)));
}

/// The text after turning the feature on ends with a line feed.
pub proof fn law_upsert_ends_with_line_feed(c: Seq<char>)
    ensures
        upsert_text(c).len() > 0,
        upsert_text(c).last() == '\n',
{
}

/// Repairing the codex configuration a second time writes nothing new: the
/// second run leaves the file alone, or writes what is already there (no file
/// at first, or a text on which turning the feature on is idempotent).
pub proof fn law_codex_config_repair_settles(existing: Option<Seq<char>>)
    requires
        existing matches Some(c) ==> {
            &&& forall|i: int| 0 <= i < text::lines_of(c).len() ==> !ends_with_cr(#[trigger] text::lines_of(c)[i])
            &&& !(hooks::features_section(text::lines_of(c)) is Some && ends_with_two_empty_lines(text::lines_of(c)))
        },
    ensures
        hooks::codex_config_update_spec(existing) matches Some(n) ==> (
            hooks::codex_config_update_spec(Some(n)) is None
            || hooks::codex_config_update_spec(Some(n)) == Some(n)),
{
    match existing {
        None => {
            reveal_strlit("[features]\ncodex_hooks = true\n");
            reveal_strlit("codex_hooks = true");
            let n = hooks::fresh_codex_config();
            let i: int = 11;
            assert(n.subrange(i, i + hooks::codex_line().len()) =~= hooks::codex_line());
            assert(text::contains_seq(n, hooks::codex_line()));
        },
        Some(c) => {
            if !text::contains_seq(c, hooks::codex_line()) {
                law_upsert_codex_feature_idempotent(c);
            }
        },
    }
}

} // verus!
