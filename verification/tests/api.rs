use actionbook::api::client::{
    area_query_params, handle_json_or_text_response, handle_text_response, response_needs_body,
    search_query_params, ApiSettings, SearchActionsParams,
};
use actionbook::error::CliError;
use actionbook::json::Json;

fn pairs(v: &[(&str, &str)]) -> Vec<(String, String)> {
    v.iter().map(|(a, b)| (a.to_string(), b.to_string())).collect()
}

fn api_message(r: Result<String, CliError>) -> String {
    match r {
        Err(CliError::ApiError(m)) => m,
        _ => panic!("API error expected"),
    }
}

#[test]
fn settings_default_url_and_headers() {
    let s = ApiSettings::from_config(None, Some("k1".to_string()));
    assert_eq!(s.base_url, "https://api.actionbook.dev");
    assert_eq!(s.request_url("/api/x"), "https://api.actionbook.dev/api/x");
    assert_eq!(
        s.request_headers("text/plain"),
        pairs(&[("X-API-Key", "k1"), ("Accept", "text/plain")])
    );
    let t = ApiSettings::from_config(Some("http://h".to_string()), None);
    assert_eq!(t.request_url("/p"), "http://h/p");
    assert_eq!(t.request_headers("a"), pairs(&[("Accept", "a")]));
}

#[test]
fn search_query_lists_given_parameters() {
    let p = SearchActionsParams {
        query: "login".to_string(),
        domain: Some("e.com".to_string()),
        background: None,
        url: None,
        page: Some(2),
        page_size: Some(250),
    };
    assert_eq!(
        search_query_params(p),
        pairs(&[("query", "login"), ("domain", "e.com"), ("page", "2"), ("page_size", "250")])
    );
    let q = SearchActionsParams {
        query: "".to_string(),
        domain: None,
        background: Some("b".to_string()),
        url: Some("u".to_string()),
        page: Some(0),
        page_size: None,
    };
    assert_eq!(
        search_query_params(q),
        pairs(&[("query", ""), ("background", "b"), ("url", "u"), ("page", "0")])
    );
    assert_eq!(area_query_params("A1"), pairs(&[("area_id", "A1")]));
}

#[test]
fn text_response_outcomes() {
    assert!(response_needs_body(200));
    assert!(!response_needs_body(404));
    assert!(response_needs_body(500));
    assert_eq!(handle_text_response(200, Some(Ok("body".to_string()))).ok(), Some("body".to_string()));
    assert_eq!(
        api_message(handle_text_response(204, Some(Err("eof".to_string())))),
        "Failed to read response: eof"
    );
    assert_eq!(api_message(handle_text_response(404, None)), "Resource not found");
    assert_eq!(
        api_message(handle_text_response(429, None)),
        "Rate limited. Please try again later."
    );
    assert_eq!(api_message(handle_text_response(401, None)), "Invalid or missing API key");
    assert_eq!(api_message(handle_text_response(500, Some(Ok("boom".to_string())))), "boom");
    assert_eq!(
        api_message(handle_text_response(500, Some(Ok(String::new())))),
        "API error: 500 Internal Server Error"
    );
    assert_eq!(
        api_message(handle_text_response(503, Some(Err("x".to_string())))),
        "API error: 503 Service Unavailable"
    );
    assert_eq!(
        api_message(handle_text_response(599, Some(Ok(String::new())))),
        "API error: 599 <unknown status code>"
    );
}

#[test]
fn json_response_outcomes() {
    let ok = handle_json_or_text_response(200, Some(Ok("{\"a\":true}".to_string())));
    assert!(matches!(ok, Ok(ref j) if matches!(j.get("a"), Some(Json::Bool(true)))));
    let text = handle_json_or_text_response(200, Some(Ok("not json".to_string()))).ok().expect("ok");
    assert_eq!(text.get("raw_text").and_then(|v| v.as_str()).map(|s| s.as_str()), Some("not json"));
    match handle_json_or_text_response(404, None) {
        Err(CliError::ApiError(m)) => assert_eq!(m, "Resource not found"),
        _ => panic!("error expected"),
    }
    match handle_json_or_text_response(200, Some(Err("cut".to_string()))) {
        Err(CliError::ApiError(m)) => assert_eq!(m, "Failed to read response: cut"),
        _ => panic!("error expected"),
    }
}
