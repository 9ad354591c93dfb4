use vstd::prelude::*;
use crate::api::client;
use crate::api::client::SearchActionsParams;
use crate::text;

verus! {

proof fn lemma_concat_contains(
    a: Seq<(Seq<char>, Seq<char>)>,
    b: Seq<(Seq<char>, Seq<char>)>,
    x: (Seq<char>, Seq<char>),
)
    ensures
        (a + b).contains(x) <==> (a.contains(x) || b.contains(x)),
{
    if a.contains(x) {
        let i = choose|i: int| 0 <= i < a.len() && a[i] == x;
        assert((a + b)[i] == x);
    }
    if b.contains(x) {
        let i = choose|i: int| 0 <= i < b.len() && b[i] == x;
        assert((a + b)[a.len() + i] == x);
    }
    if (a + b).contains(x) {
        let i = choose|i: int| 0 <= i < (a + b).len() && (a + b)[i] == x;
        if i < a.len() {
            assert(a[i] == x);
        } else {
            assert(b[i - a.len()] == x);
        }
    }
}

proof fn lemma_param_contains(name: Seq<char>, value: Option<Seq<char>>, n: Seq<char>, x: Seq<char>)
    ensures
        client::opt_param(name, value).contains((n, x)) <==> (n == name && value == Some(x)),
{
    if n == name && value == Some(x) {
        assert(client::opt_param(name, value)[0] == (n, x));
    }
}

/// The pairs of a search query, read back: a pair is in the query exactly
/// when it is the query text or one of the optional parameters that is given.
proof fn lemma_search_query_contains(p: SearchActionsParams, n: Seq<char>, x: Seq<char>)
    ensures
        client::search_query(p).contains((n, x)) <==> {
            ||| (n == "query"@ && x == p.query@)
            ||| (n == "domain"@ && client::opt_str(p.domain) == Some(x))
            ||| (n == "background"@ && client::opt_str(p.background) == Some(x))
            ||| (n == "url"@ && client::opt_str(p.url) == Some(x))
            ||| (n == "page"@ && client::opt_number(p.page) == Some(x))
            ||| (n == "page_size"@ && client::opt_number(p.page_size) == Some(x))
        },
{
    let s0 = seq![("query"@, p.query@)];
    let s1 = client::opt_param("domain"@, client::opt_str(p.domain));
    let s2 = client::opt_param("background"@, client::opt_str(p.background));
    let s3 = client::opt_param("url"@, client::opt_str(p.url));
    let s4 = client::opt_param("page"@, client::opt_number(p.page));
    let s5 = client::opt_param("page_size"@, client::opt_number(p.page_size));
    let x2 = (n, x);
    lemma_concat_contains(s0, s1, x2);
    lemma_concat_contains(s0 + s1, s2, x2);
    lemma_concat_contains(s0 + s1 + s2, s3, x2);
    lemma_concat_contains(s0 + s1 + s2 + s3, s4, x2);
    lemma_concat_contains(s0 + s1 + s2 + s3 + s4, s5, x2);
    lemma_param_contains("domain"@, client::opt_str(p.domain), n, x);
    lemma_param_contains("background"@, client::opt_str(p.background), n, x);
    lemma_param_contains("url"@, client::opt_str(p.url), n, x);
    lemma_param_contains("page"@, client::opt_number(p.page), n, x);
    lemma_param_contains("page_size"@, client::opt_number(p.page_size), n, x);
    if s0.contains(x2) {
        let i = choose|i: int| 0 <= i < s0.len() && s0[i] == x2;
        assert(i == 0);
    }
    if n == "query"@ && x == p.query@ {
        assert(s0[0] == x2);
    }
}

/// A search request sends the query text first, and each optional parameter
/// exactly when it is given, with its value (numbers in decimal), whatever
/// the other parameters are.
pub proof fn law_search_query_params(p: SearchActionsParams)
    ensures
        client::search_query(p)[0] == ("query"@, p.query@),
        client::search_query(p).len() == 1 + (if p.domain is Some { 1int } else { 0 }) + (if p.background is Some {
            1int
        } else {
            0
        }) + (if p.url is Some { 1int } else { 0 }) + (if p.page is Some { 1int } else { 0 }) + (
        if p.page_size is Some { 1int } else { 0 }),
        forall|x: Seq<char>| #[trigger] client::search_query(p).contains(("query"@, x)) <==> x == p.query@,
        forall|x: Seq<char>|
            #[trigger] client::search_query(p).contains(("domain"@, x)) <==> (p.domain matches Some(d) && d@ == x),
        forall|x: Seq<char>|
            #[trigger] client::search_query(p).contains(("background"@, x)) <==> (p.background matches Some(b) && b@
                == x),
        forall|x: Seq<char>|
            #[trigger] client::search_query(p).contains(("url"@, x)) <==> (p.url matches Some(u) && u@ == x),
        forall|x: Seq<char>|
            #[trigger] client::search_query(p).contains(("page"@, x)) <==> (p.page matches Some(g) && text::decimal(
                g as nat,
            ) == x),
        forall|x: Seq<char>|
            #[trigger] client::search_query(p).contains(("page_size"@, x)) <==> (p.page_size matches Some(g)
                && text::decimal(g as nat) == x),
{
    reveal_strlit("query");
    reveal_strlit("domain");
    reveal_strlit("background");
    reveal_strlit("url");
    reveal_strlit("page");
    reveal_strlit("page_size");
    assert("query"@.len() == 5);
    assert("domain"@.len() == 6);
    assert("background"@.len() == 10);
    assert("url"@.len() == 3);
    assert("page"@.len() == 4);
    assert("page_size"@.len() == 9);
    assert forall|x: Seq<char>| #[trigger] client::search_query(p).contains(("query"@, x)) <==> x == p.query@ by {
        lemma_search_query_contains(p, "query"@, x);
    }
    assert forall|x: Seq<char>| #[trigger] client::search_query(p).contains(("domain"@, x)) <==> (
    p.domain matches Some(d) && d@ == x) by {
        lemma_search_query_contains(p, "domain"@, x);
    }
    assert forall|x: Seq<char>| #[trigger] client::search_query(p).contains(("background"@, x)) <==> (
    p.background matches Some(b) && b@ == x) by {
        lemma_search_query_contains(p, "background"@, x);
    }
    assert forall|x: Seq<char>| #[trigger] client::search_query(p).contains(("url"@, x)) <==> (
    p.url matches Some(u) && u@ == x) by {
        lemma_search_query_contains(p, "url"@, x);
    }
    assert forall|x: Seq<char>| #[trigger] client::search_query(p).contains(("page"@, x)) <==> (
    p.page matches Some(g) && text::decimal(g as nat) == x) by {
        lemma_search_query_contains(p, "page"@, x);
    }
    assert forall|x: Seq<char>| #[trigger] client::search_query(p).contains(("page_size"@, x)) <==> (
    p.page_size matches Some(g) && text::decimal(g as nat) == x) by {
        lemma_search_query_contains(p, "page_size"@, x);
    }
}

} // verus!
