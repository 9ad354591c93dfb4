use vstd::prelude::*;
use crate::error::CliError;
use crate::json;
use crate::json::{Json, JsonV};
use crate::text;

verus! {

/// The API used when the configuration names none.
pub open spec fn default_api_url() -> Seq<char> {
    "https://api.actionbook.dev"@
}

/// Where and how the client talks to the Actionbook API.
pub struct ApiSettings {
    pub base_url: String,
    pub api_key: Option<String>,
}

/// The view of an optional string.
pub open spec fn opt_str(o: Option<String>) -> Option<Seq<char>> {
    match o {
        Some(s) => Some(s@),
        None => None,
    }
}

/// The view of a list of name and value pairs.
pub open spec fn pairs_view(v: Seq<(String, String)>) -> Seq<(Seq<char>, Seq<char>)> {
    v.map_values(|p: (String, String)| (p.0@, p.1@))
}

/// The parameters of an action search.
pub struct SearchActionsParams {
    pub query: String,
    pub domain: Option<String>,
    pub background: Option<String>,
    pub url: Option<String>,
    pub page: Option<u32>,
    pub page_size: Option<u32>,
}

/// A query parameter that is sent only when it has a value.
pub open spec fn opt_param(name: Seq<char>, value: Option<Seq<char>>) -> Seq<(Seq<char>, Seq<char>)> {
    match value {
        Some(v) => seq![(name, v)],
        None => Seq::empty(),
    }
}

/// A number parameter, written in decimal.
pub open spec fn opt_number(n: Option<u32>) -> Option<Seq<char>> {
    match n {
        Some(v) => Some(text::decimal(v as nat)),
        None => None,
    }
}

/// The query of a search request: the query text, then each optional
/// parameter that is given.
pub open spec fn search_query(p: SearchActionsParams) -> Seq<(Seq<char>, Seq<char>)> {
    seq![("query"@, p.query@)]
        + opt_param("domain"@, opt_str(p.domain))
        + opt_param("background"@, opt_str(p.background))
        + opt_param("url"@, opt_str(p.url))
        + opt_param("page"@, opt_number(p.page))
        + opt_param("page_size"@, opt_number(p.page_size))
}

fn push_param(params: &mut Vec<(String, String)>, name: &str, value: Option<String>)
    ensures
        pairs_view(final(params)@) == pairs_view(old(params)@) + opt_param(name@, opt_str(value)),
{
    let ghost before = pairs_view(params@);
    match value {
        Some(v) => {
            let ghost vv = v@;
            params.push((name.to_owned(), v));
            assert(pairs_view(params@) =~= before + seq![(name@, vv)]);
        },
        None => {
            assert(pairs_view(params@) =~= before + Seq::empty());
        },
    }
}

fn number_text(n: Option<u32>) -> (r: Option<String>)
    ensures
        opt_str(r) == opt_number(n),
{
    match n {
        Some(v) => Some(text::decimal_string(v as u64)),
        None => None,
    }
}

/// The query parameters of a search request.
pub fn search_query_params(params: SearchActionsParams) -> (r: Vec<(String, String)>)
    ensures
        pairs_view(r@) == search_query(params),
{
    let ghost p = params;
    let mut r: Vec<(String, String)> = Vec::new();
    let ghost q = params.query@;
    r.push(("query".to_owned(), params.query));
    assert(pairs_view(r@) =~= seq![("query"@, q)]);
    push_param(&mut r, "domain", params.domain);
    push_param(&mut r, "background", params.background);
    push_param(&mut r, "url", params.url);
    push_param(&mut r, "page", number_text(params.page));
    push_param(&mut r, "page_size", number_text(params.page_size));
    r
}

/// The query parameters of a request for one action.
pub fn area_query_params(area_id: &str) -> (r: Vec<(String, String)>)
    ensures
        pairs_view(r@) == seq![("area_id"@, area_id@)],
{
    let mut r: Vec<(String, String)> = Vec::new();
    r.push(("area_id".to_owned(), area_id.to_owned()));
    assert(pairs_view(r@) =~= seq![("area_id"@, area_id@)]);
    r
}

/// The path of the search endpoint.
pub fn search_path() -> (r: &'static str)
    ensures
        r@ == "/api/search_actions"@,
{
    "/api/search_actions"
}

/// The path of the endpoint that gives one action.
pub fn action_path() -> (r: &'static str)
    ensures
        r@ == "/api/get_action_by_area_id"@,
{
    "/api/get_action_by_area_id"
}

/// The `Accept` header of a request that wants plain text.
pub fn text_accept() -> (r: &'static str)
    ensures
        r@ == "text/plain"@,
{
    "text/plain"
}

/// The `Accept` header of a request that prefers JSON.
pub fn json_accept() -> (r: &'static str)
    ensures
        r@ == "application/json, text/plain"@,
{
    "application/json, text/plain"
}

impl ApiSettings {
    /// The settings for a configuration: its API url, or the default one,
    /// and its API key.
    pub fn from_config(base_url: Option<String>, api_key: Option<String>) -> (r: ApiSettings)
        ensures
            r.base_url@ == match opt_str(base_url) {
                Some(u) => u,
                None => default_api_url(),
            },
            opt_str(r.api_key) == opt_str(api_key),
    {
        let base = match base_url {
            Some(u) => u,
            None => "https://api.actionbook.dev".to_owned(),
        };
        ApiSettings { base_url: base, api_key }
    }

    /// The url of the endpoint at `path`.
    pub fn request_url(&self, path: &str) -> (r: String)
        ensures
            r@ == self.base_url@ + path@,
    {
        let b = text::chars_of(self.base_url.as_str());
        let p = text::chars_of(path);
        text::string_from_chars(&text::concat_chars(&b, &p))
    }

    /// The headers of a request: the API key when there is one, then what
    /// the reply may be.
    pub fn request_headers(&self, accept: &str) -> (r: Vec<(String, String)>)
        ensures
            pairs_view(r@) == opt_param("X-API-Key"@, opt_str(self.api_key)) + seq![("Accept"@, accept@)],
    {
        let mut r: Vec<(String, String)> = Vec::new();
        assert(pairs_view(r@) =~= Seq::empty());
        let key = match &self.api_key {
            Some(k) => Some(k.clone()),
            None => None,
        };
        push_param(&mut r, "X-API-Key", key);
        let ghost before = pairs_view(r@);
        r.push(("Accept".to_owned(), accept.to_owned()));
        assert(pairs_view(r@) =~= before + seq![("Accept"@, accept@)]);
        r
    }
}

/// The reason phrase that http gives a status code, if it knows one.
pub uninterp spec fn status_reason(code: u16) -> Option<Seq<char>>;

/// The canonical reason phrase of a status code. Calls http's
/// `StatusCode::from_u16` (through reqwest) and `StatusCode::canonical_reason`
/// (none for a code that `from_u16` refuses); the contract names the phrase
/// and claims nothing of its text.
#[verifier::external_body]
fn canonical_reason(code: u16) -> (r: Option<String>)
    ensures
        opt_str(r) == status_reason(code),
{
    match reqwest::StatusCode::from_u16(code) {
        Ok(c) => match c.canonical_reason() {
            Some(s) => Some(s.to_owned()),
            None => None,
        },
        Err(_) => None,
    }
}

/// Whether a status code is a success. Calls http's `StatusCode::from_u16`
/// (through reqwest) and `StatusCode::is_success`, whose source tests that
/// the code is within 200 to 299; `from_u16` refuses only codes outside 100
/// to 999, for which the answer is no.
#[verifier::external_body]
fn status_is_success(code: u16) -> (r: bool)
    ensures
        r == (200 <= code < 300),
{
    match reqwest::StatusCode::from_u16(code) {
        Ok(c) => c.is_success(),
        Err(_) => false,
    }
}

/// The status as http's `StatusCode` displays it: the code and its reason.
pub open spec fn status_line(code: u16) -> Seq<char> {
    text::decimal(code as nat) + " "@ + match status_reason(code) {
        Some(r) => r,
        None => "<unknown status code>"@,
    }
}

/// Whether the reply body is read to answer a reply with this status: for a
/// success, and for failures other than the three with a fixed message.
pub open spec fn needs_body(code: u16) -> bool {
    (200 <= code < 300) || !(code == 404 || code == 429 || code == 401)
}

/// The view of a reply body as read: its text, or why it could not be read.
pub open spec fn body_view(body: Option<Result<String, String>>) -> Option<Result<Seq<char>, Seq<char>>> {
    match body {
        Some(Ok(t)) => Some(Ok(t@)),
        Some(Err(e)) => Some(Err(e@)),
        None => None,
    }
}

/// The message of a failed reply.
pub open spec fn failure_message(code: u16, body: Option<Result<Seq<char>, Seq<char>>>) -> Seq<char> {
    if code == 404 {
        "Resource not found"@
    } else if code == 429 {
        "Rate limited. Please try again later."@
    } else if code == 401 {
        "Invalid or missing API key"@
    } else {
        match body {
            Some(Ok(t)) => if t.len() > 0 {
                t
            } else {
                "API error: "@ + status_line(code)
            },
            _ => "API error: "@ + status_line(code),
        }
    }
}

/// The answer to a text request: the body of a successful reply, or the
/// message of an API error.
pub open spec fn text_outcome(code: u16, body: Option<Result<Seq<char>, Seq<char>>>) -> Result<Seq<char>, Seq<char>> {
    if 200 <= code < 300 {
        match body {
            Some(Ok(t)) => Ok(t),
            Some(Err(e)) => Err("Failed to read response: "@ + e),
            None => Err("Failed to read response: "@),
        }
    } else {
        Err(failure_message(code, body))
    }
}

/// The answer to a request that prefers JSON, given what the body reads as
/// (`parsed`): the parsed body of a successful reply, or its text under
/// `raw_text` when it is not JSON; or the message of an API error.
pub open spec fn json_outcome(
    code: u16,
    body: Option<Result<Seq<char>, Seq<char>>>,
    parsed: Option<JsonV>,
) -> Result<JsonV, Seq<char>> {
    if 200 <= code < 300 {
        match body {
            Some(Ok(t)) => match parsed {
                Some(j) => Ok(j),
                None => Ok(JsonV::Object(seq![("raw_text"@, JsonV::Str(t))])),
            },
            Some(Err(e)) => Err("Failed to read response: "@ + e),
            None => Err("Failed to read response: "@),
        }
    } else {
        Err(failure_message(code, body))
    }
}

/// Whether the body of a reply with status `code` must be read to answer it.
pub fn response_needs_body(code: u16) -> (r: bool)
    ensures
        r == needs_body(code),
{
    status_is_success(code) || !(code == 404 || code == 429 || code == 401)
}

fn prefixed(a: &str, b: &Vec<char>) -> (r: String)
    ensures
        r@ == a@ + b@,
{
    let x = text::concat_chars(&text::chars_of(a), b);
    text::string_from_chars(&x)
}

fn failure_text(code: u16, body: &Option<Result<String, String>>) -> (r: String)
    ensures
        r@ == failure_message(code, body_view(*body)),
{
    if code == 404 {
        return "Resource not found".to_owned();
    } else if code == 429 {
        return "Rate limited. Please try again later.".to_owned();
    } else if code == 401 {
        return "Invalid or missing API key".to_owned();
    }
    if let Some(Ok(t)) = body {
        if !t.as_str().is_empty() {
            return t.clone();
        }
    }
    let digits = text::decimal_chars(code as u64);
    let reason = match canonical_reason(code) {
        Some(r) => r,
        None => "<unknown status code>".to_owned(),
    };
    let mut line = digits;
    line.push(' ');
    let line = text::concat_chars(&line, &text::chars_of(reason.as_str()));
    proof {
        reveal_strlit(" ");
    }
    assert(line@ =~= status_line(code));
    prefixed("API error: ", &line)
}

fn read_failure(body: &Option<Result<String, String>>) -> (r: String)
    ensures
        r@ == match body_view(*body) {
            Some(Err(e)) => "Failed to read response: "@ + e,
            _ => "Failed to read response: "@,
        },
{
    match body {
        Some(Err(e)) => prefixed("Failed to read response: ", &text::chars_of(e.as_str())),
        _ => "Failed to read response: ".to_owned(),
    }
}

/// The view of an answer that is text or an API error.
pub open spec fn text_result_view(r: Result<String, CliError>) -> Option<Result<Seq<char>, Seq<char>>> {
    match r {
        Ok(t) => Some(Ok(t@)),
        Err(CliError::ApiError(m)) => Some(Err(m@)),
        Err(CliError::Internal(_)) => None,
    }
}

/// The view of an answer that is JSON or an API error.
pub open spec fn json_result_view(r: Result<Json, CliError>) -> Option<Result<JsonV, Seq<char>>> {
    match r {
        Ok(j) => Some(Ok(j@)),
        Err(CliError::ApiError(m)) => Some(Err(m@)),
        Err(CliError::Internal(_)) => None,
    }
}

/// Answers a text request from the status of the reply and, where
/// `response_needs_body` says so, its body as read.
pub fn handle_text_response(code: u16, body: Option<Result<String, String>>) -> (r: Result<String, CliError>)
    requires
        needs_body(code) ==> body is Some,
    ensures
        text_result_view(r) == Some(text_outcome(code, body_view(body))),
{
    if status_is_success(code) {
        match body {
            Some(Ok(t)) => Ok(t),
            _ => Err(CliError::ApiError(read_failure(&body))),
        }
    } else {
        Err(CliError::ApiError(failure_text(code, &body)))
    }
}

/// What the body of a reply reads as JSON, when it was read.
pub open spec fn parsed_body(body: Option<Result<Seq<char>, Seq<char>>>) -> Option<JsonV> {
    match body {
        Some(Ok(t)) => json::json_of_text(t),
        _ => None,
    }
}

/// Answers a request that prefers JSON from the status of the reply and,
/// where `response_needs_body` says so, its body as read: a successful body
/// as the JSON it reads as, or as text under `raw_text` when it is not JSON.
pub fn handle_json_or_text_response(code: u16, body: Option<Result<String, String>>) -> (r: Result<
    Json,
    CliError,
>)
    requires
        needs_body(code) ==> body is Some,
    ensures
        json_result_view(r) == Some(json_outcome(code, body_view(body), parsed_body(body_view(body)))),
        r matches Ok(j) ==> json::json_wf(j@),
{
    if status_is_success(code) {
        match body {
            Some(Ok(t)) => match json::parse_json(t.as_str()) {
                Some(j) => Ok(j),
                None => {
                    let mut entries: Vec<(String, Json)> = Vec::new();
                    let ghost tv = t@;
                    entries.push(("raw_text".to_owned(), Json::Str(t)));
                    proof {
                        json::lemma_object_view(entries);
                    }
                    assert(json::entries_view(entries@) =~= seq![("raw_text"@, JsonV::Str(tv))]);
                    proof {
                        let e = seq![("raw_text"@, JsonV::Str(tv))];
                        assert(json::keys_unique(e));
                        assert(json::json_wf(e[0].1));
                        assert(json::json_wf(JsonV::Object(e)));
                    }
                    Ok(Json::Object(entries))
                },
            },
            _ => Err(CliError::ApiError(read_failure(&body))),
        }
    } else {
        Err(CliError::ApiError(failure_text(code, &body)))
    }
}

} // verus!
