pub mod get;
pub mod search;

use vstd::prelude::*;
use crate::json;
use crate::json::{Json, JsonV};
use crate::text;

verus! {

/// The field names of a comma separated list: each piece trimmed, empty
/// pieces left out.
pub open spec fn field_names(pieces: Seq<Seq<char>>) -> Seq<Seq<char>>
    decreases pieces.len(),
{
    if pieces.len() == 0 {
        Seq::empty()
    } else {
        let rest = field_names(pieces.drop_last());
        let t = text::trim(pieces.last());
        if t.len() > 0 {
            rest.push(t)
        } else {
            rest
        }
    }
}

/// Each piece of a split holds no separator.
proof fn lemma_split_pieces_without_sep(s: Seq<char>, sep: char)
    ensures
        forall|i: int, j: int|
            0 <= i < text::split_on(s, sep).len() && 0 <= j < text::split_on(s, sep)[i].len()
                ==> #[trigger] text::split_on(s, sep)[i][j] != sep,
    decreases s.len(),
{
    if s.len() > 0 {
        let t = s.drop_last();
        lemma_split_pieces_without_sep(t, sep);
        text::lemma_split_on_len(t, sep);
        let r = text::split_on(t, sep);
        let out = text::split_on(s, sep);
        if s.last() != sep {
            assert forall|i: int, j: int| 0 <= i < out.len() && 0 <= j < out[i].len() implies #[trigger] out[i][j] != sep by {
                if i == r.len() - 1 {
                    if j < r.last().len() {
                        assert(out[i][j] == r[i][j]);
                    }
                } else {
                    assert(out[i] == r[i]);
                }
            }
        } else {
            assert forall|i: int, j: int| 0 <= i < out.len() && 0 <= j < out[i].len() implies #[trigger] out[i][j] != sep by {
                if i < r.len() {
                    assert(out[i] == r[i]);
                }
            }
        }
    }
}

/// A field name: not empty, without surrounding white space, without a comma.
pub open spec fn clean_field_name(f: Seq<char>) -> bool {
    &&& f.len() > 0
    &&& text::trim(f) == f
    &&& forall|j: int| 0 <= j < f.len() ==> f[j] != ','
}

proof fn lemma_field_names_clean(pieces: Seq<Seq<char>>)
    requires
        forall|i: int, j: int| 0 <= i < pieces.len() && 0 <= j < pieces[i].len() ==> #[trigger] pieces[i][j] != ',',
    ensures
        forall|i: int| 0 <= i < field_names(pieces).len() ==> clean_field_name(#[trigger] field_names(pieces)[i]),
    decreases pieces.len(),
{
    if pieces.len() > 0 {
        let init = pieces.drop_last();
        assert forall|i: int, j: int| 0 <= i < init.len() && 0 <= j < init[i].len() implies #[trigger] init[i][j] != ',' by {
            assert(init[i] == pieces[i]);
        }
        lemma_field_names_clean(init);
        let last = pieces.last();
        let t = text::trim(last);
        if t.len() > 0 {
            text::lemma_trim_idempotent(last);
            text::lemma_trim_is_cut(last);
            let (a, b) = choose|a: int, b: int| 0 <= a <= b <= last.len() && t == last.subrange(a, b);
            assert forall|j: int| 0 <= j < t.len() implies t[j] != ',' by {
                assert(t[j] == last[a + j]);
                assert(pieces[pieces.len() - 1][a + j] != ',');
            }
            assert(clean_field_name(t));
        }
        let rest = field_names(init);
        let out = field_names(pieces);
        assert forall|i: int| 0 <= i < out.len() implies clean_field_name(#[trigger] out[i]) by {
            if i < rest.len() {
                assert(out[i] == rest[i]);
            } else {
                assert(out[i] == t);
            }
        }
    }
}

/// Every requested field name is clean: a list of names is split at its
/// commas, each name trimmed, and blank names dropped.
pub proof fn law_requested_fields_clean(fields: Seq<char>)
    ensures
        forall|i: int|
            0 <= i < requested_fields(Some(fields)).len() ==> clean_field_name(
                #[trigger] requested_fields(Some(fields))[i],
            ),
{
    lemma_split_pieces_without_sep(fields, ',');
    lemma_field_names_clean(text::split_on(fields, ','));
}

/// The field names requested by `fields` (none when it is absent).
pub open spec fn requested_fields(fields: Option<Seq<char>>) -> Seq<Seq<char>> {
    match fields {
        Some(f) => field_names(text::split_on(f, ',')),
        None => Seq::empty(),
    }
}

/// The views of a vector of strings.
pub open spec fn strings_view(v: Seq<String>) -> Seq<Seq<char>> {
    v.map_values(|s: String| s@)
}

/// Splits a comma separated list of field names; blank names are left out.
pub fn parse_fields(fields: Option<&str>) -> (r: Vec<String>)
    ensures
        strings_view(r@) == requested_fields(
            match fields {
                Some(f) => Some(f@),
                None => None,
            },
        ),
{
    let text_in: &str = match fields {
        Some(f) => f,
        None => "",
    };
    let cs = text::chars_of(text_in);
    let pieces = text::split_chars(&cs, ',');
    let ghost ps = text::seqs_view(pieces@);
    let mut r: Vec<String> = Vec::new();
    let n = pieces.len();
    assert(ps.take(0) =~= Seq::<Seq<char>>::empty());
    for i in 0..n
        invariant
            n == pieces.len(),
            ps == text::seqs_view(pieces@),
            strings_view(r@) == field_names(ps.take(i as int)),
    {
        assert(ps.take(i + 1).drop_last() =~= ps.take(i as int));
        assert(pieces@[i as int]@ == ps[i as int]);
        let t = text::trimmed(&pieces[i]);
        if t.len() > 0 {
            let s = text::string_from_chars(&t);
            let ghost before = strings_view(r@);
            r.push(s);
            assert(strings_view(r@) =~= before.push(t@));
        }
    }
    assert(ps.take(n as int) =~= ps);
    proof {
        if fields is None {
            reveal_strlit("");
            assert(cs@ =~= Seq::<char>::empty());
            assert(ps == seq![Seq::<char>::empty()]);
            assert(ps.drop_last() =~= Seq::<Seq<char>>::empty());
            assert(field_names(ps.drop_last()) == Seq::<Seq<char>>::empty());
            assert(text::trim(Seq::<char>::empty()) == Seq::<char>::empty());
            assert(field_names(ps) =~= Seq::<Seq<char>>::empty());
        }
    }
    r
}

/// The first of `keys` whose member in `item` is a string, with that string.
pub open spec fn first_str(item: JsonV, keys: Seq<Seq<char>>) -> Option<Seq<char>>
    decreases keys.len(),
{
    if keys.len() == 0 {
        None
    } else {
        match item.get_str(keys[0]) {
            Some(s) => Some(s),
            None => first_str(item, keys.drop_first()),
        }
    }
}

/// The keys of a key list.
pub open spec fn keys_view(keys: &[&str]) -> Seq<Seq<char>> {
    keys@.map_values(|k: &str| k@)
}

/// The string member of `item` under the first of `keys` that has one.
pub fn pick_str<'a>(item: &'a Json, keys: &[&str]) -> (r: Option<&'a String>)
    ensures
        match r {
            Some(s) => first_str(item@, keys_view(keys)) == Some(s@),
            None => first_str(item@, keys_view(keys)) is None,
        },
{
    let ghost ks = keys_view(keys);
    assert(ks.skip(0) =~= ks);
    for i in 0..keys.len()
        invariant
            ks == keys_view(keys),
            first_str(item@, ks) == first_str(item@, ks.skip(i as int)),
    {
        assert(ks.skip(i as int)[0] == keys@[i as int]@);
        assert(ks.skip(i as int).drop_first() =~= ks.skip(i + 1));
        match item.get(keys[i]) {
            Some(v) => match v.as_str() {
                Some(s) => {
                    return Some(s);
                },
                None => {},
            },
            None => {},
        }
    }
    assert(ks.skip(keys.len() as int).len() == 0);
    None
}

/// The row after copying each requested field that `item` has and the row
/// does not yet have, in the order requested.
pub open spec fn add_fields(
    row: Seq<(Seq<char>, JsonV)>,
    item: JsonV,
    fields: Seq<Seq<char>>,
) -> Seq<(Seq<char>, JsonV)>
    decreases fields.len(),
{
    if fields.len() == 0 {
        row
    } else {
        let r = add_fields(row, item, fields.drop_last());
        let f = fields.last();
        if json::obj_get(r, f) is Some {
            r
        } else {
            match item.get(f) {
                Some(v) => json::obj_insert(r, f, v),
                None => r,
            }
        }
    }
}

/// Copies the requested fields of `item` that `row` does not have yet.
pub fn copy_fields(row: &mut Vec<(String, Json)>, item: &Json, fields: &Vec<String>)
    ensures
        json::entries_view(final(row)@) == add_fields(
            json::entries_view(old(row)@),
            item@,
            strings_view(fields@),
        ),
{
    let ghost start = json::entries_view(row@);
    let ghost fs = strings_view(fields@);
    let n = fields.len();
    assert(fs.take(0) =~= Seq::<Seq<char>>::empty());
    for i in 0..n
        invariant
            n == fields.len(),
            fs == strings_view(fields@),
            json::entries_view(row@) == add_fields(start, item@, fs.take(i as int)),
    {
        assert(fs.take(i + 1).drop_last() =~= fs.take(i as int));
        assert(fields@[i as int]@ == fs[i as int]);
        let row_json_has = {
            let k = fields[i].clone();
            member_present(row, &k)
        };
        if !row_json_has {
            match item.get(fields[i].as_str()) {
                Some(v) => {
                    json::set_member(row, fields[i].clone(), v.deep_clone());
                },
                None => {},
            }
        }
    }
    assert(fs.take(n as int) =~= fs);
}

/// Whether `entries` has a member named `key`.
pub fn member_present(entries: &Vec<(String, Json)>, key: &String) -> (r: bool)
    ensures
        r == (json::obj_get(json::entries_view(entries@), key@) is Some),
{
    json::find_key(entries, key).is_some()
}

/// Adds the member `key` to `entries`.
pub fn push_member(entries: &mut Vec<(String, Json)>, key: &str, value: Json)
    ensures
        json::entries_view(final(entries)@) == json::entries_view(old(entries)@).push((key@, value@)),
{
    let ghost before = json::entries_view(entries@);
    let ghost vv = value@;
    entries.push((key.to_owned(), value));
    assert(json::entries_view(entries@) =~= before.push((key@, vv)));
}

} // verus!
