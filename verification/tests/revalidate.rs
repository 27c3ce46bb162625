use http_cache_semantics::{CacheOptions, CachePolicy, HttpRequest, HttpResponse};

fn request_parts(method: &str, uri: &str, headers: &[(&str, &str)]) -> HttpRequest {
    HttpRequest {
        method: method.to_string(),
        uri: uri.to_string(),
        headers: headers
            .iter()
            .map(|(n, v)| (n.to_string(), v.to_string()))
            .collect(),
    }
}

fn response_parts(status: u16, headers: &[(&str, &str)]) -> HttpResponse {
    HttpResponse {
        status,
        headers: headers
            .iter()
            .map(|(n, v)| (n.to_string(), v.to_string()))
            .collect(),
    }
}

fn get(headers: &[(String, String)], name: &str) -> Option<String> {
    headers
        .iter()
        .find(|(n, _)| n.eq_ignore_ascii_case(name))
        .map(|(_, v)| v.clone())
}

fn simple_request_headers() -> Vec<(&'static str, &'static str)> {
    vec![
        ("host", "www.w3c.org"),
        ("connection", "close"),
        ("x-custom", "yes"),
    ]
}

fn simple_request() -> HttpRequest {
    request_parts(
        "GET",
        "/Protocols/rfc2616/rfc2616-sec14.html",
        &simple_request_headers(),
    )
}

fn simple_request_with(extra: &[(&str, &str)]) -> HttpRequest {
    let mut headers = simple_request_headers()
        .iter()
        .map(|(n, v)| (n.to_string(), v.to_string()))
        .collect::<Vec<_>>();
    for (n, v) in extra {
        headers.push((n.to_string(), v.to_string()));
    }
    HttpRequest {
        method: "GET".to_string(),
        uri: "/Protocols/rfc2616/rfc2616-sec14.html".to_string(),
        headers,
    }
}

fn simple_request_method(method: &str) -> HttpRequest {
    let mut r = simple_request();
    r.method = method.to_string();
    r
}

fn etag_value() -> &'static str {
    "\"123456789\""
}

fn cacheable_header() -> (&'static str, &'static str) {
    ("cache-control", "max-age=111")
}

fn last_modified_time() -> &'static str {
    "Tue, 15 Nov 1994 12:45:26 GMT"
}

fn simple_request_with_etagged_response() -> CachePolicy {
    CacheOptions::default().policy_for(
        &simple_request(),
        &response_parts(200, &[cacheable_header(), ("etag", etag_value())]),
    )
}

fn simple_request_with_cacheable_response() -> CachePolicy {
    CacheOptions::default().policy_for(&simple_request(), &response_parts(200, &[cacheable_header()]))
}

fn simple_request_with_always_variable_response() -> CachePolicy {
    CacheOptions::default().policy_for(
        &simple_request(),
        &response_parts(200, &[cacheable_header(), ("vary", "*")]),
    )
}

fn assert_headers_passed(headers: &[(String, String)]) {
    assert!(get(headers, "connection").is_none());
    assert_eq!(get(headers, "x-custom").unwrap(), "yes");
}

fn assert_no_validators(headers: &[(String, String)]) {
    assert!(get(headers, "if-none-match").is_none());
    assert!(get(headers, "if-modified-since").is_none());
}

#[test]
fn test_ok_if_method_changes_to_head() {
    let policy = simple_request_with_etagged_response();

    let headers = policy.revalidation_headers(&simple_request_method("HEAD"));

    assert_headers_passed(&headers);
    assert_eq!(get(&headers, "if-none-match").unwrap(), "\"123456789\"");
}

#[test]
fn test_not_if_method_mismatch_other_than_head() {
    let policy = simple_request_with_etagged_response();

    let incoming_request = simple_request_method("POST");
    let headers = policy.revalidation_headers(&incoming_request);

    assert_headers_passed(&headers);
    assert_no_validators(&headers);
}

#[test]
fn test_not_if_url_mismatch() {
    let policy = simple_request_with_etagged_response();

    let mut incoming_request = simple_request();
    incoming_request.uri = "/yomomma".to_string();
    let headers = policy.revalidation_headers(&incoming_request);

    assert_headers_passed(&headers);
    assert_no_validators(&headers);
}

#[test]
fn test_not_if_host_mismatch() {
    let policy = simple_request_with_etagged_response();

    let incoming_request = request_parts(
        "GET",
        "/Protocols/rfc2616/rfc2616-sec14.html",
        &[
            ("host", "www.w4c.org"),
            ("connection", "close"),
            ("x-custom", "yes"),
        ],
    );
    let headers = policy.revalidation_headers(&incoming_request);

    assert_headers_passed(&headers);
    assert_no_validators(&headers);
}

#[test]
fn test_not_if_vary_fields_prevent() {
    let policy = simple_request_with_always_variable_response();

    let headers = policy.revalidation_headers(&simple_request());

    assert_headers_passed(&headers);
    assert_no_validators(&headers);
}

#[test]
fn test_when_entity_tag_validator_is_present() {
    let policy = simple_request_with_etagged_response();

    let headers = policy.revalidation_headers(&simple_request());

    assert_headers_passed(&headers);
    assert_eq!(get(&headers, "if-none-match").unwrap(), "\"123456789\"");
}

#[test]
fn test_skips_weak_validators_on_post() {
    let post_request = {
        let mut r = simple_request_with(&[("if-none-match", "W/\"weak\", \"strong\", W/\"weak2\"")]);
        r.method = "POST".to_string();
        r
    };
    let policy = CacheOptions::default().policy_for(
        &post_request,
        &response_parts(
            200,
            &[
                cacheable_header(),
                ("last-modified", last_modified_time()),
                ("etag", etag_value()),
            ],
        ),
    );

    let headers = policy.revalidation_headers(&post_request);

    assert_eq!(
        get(&headers, "if-none-match").unwrap(),
        "\"strong\", \"123456789\""
    );
    assert!(get(&headers, "if-modified-since").is_none());
}

#[test]
fn test_skips_weak_validators_on_post_2() {
    let post_request = {
        let mut r = simple_request_with(&[("if-none-match", "W/\"weak\"")]);
        r.method = "POST".to_string();
        r
    };
    let policy = CacheOptions::default().policy_for(
        &post_request,
        &response_parts(200, &[cacheable_header(), ("last-modified", last_modified_time())]),
    );

    let headers = policy.revalidation_headers(&post_request);

    assert!(get(&headers, "if-none-match").is_none());
    assert!(get(&headers, "if-modified-since").is_none());
}

#[test]
fn test_merges_validators() {
    let request = simple_request_with(&[("if-none-match", "W/\"weak\", \"strong\", W/\"weak2\"")]);
    let policy = CacheOptions::default().policy_for(
        &request,
        &response_parts(
            200,
            &[
                cacheable_header(),
                ("last-modified", last_modified_time()),
                ("etag", etag_value()),
            ],
        ),
    );

    let headers = policy.revalidation_headers(&request);

    assert_eq!(
        get(&headers, "if-none-match").unwrap(),
        "W/\"weak\", \"strong\", W/\"weak2\", \"123456789\""
    );
    assert_eq!(
        get(&headers, "if-modified-since").unwrap(),
        last_modified_time()
    );
}

#[test]
fn test_when_last_modified_validator_is_present() {
    let policy = CacheOptions::default().policy_for(
        &simple_request(),
        &response_parts(200, &[cacheable_header(), ("last-modified", last_modified_time())]),
    );

    let headers = policy.revalidation_headers(&simple_request());

    assert_headers_passed(&headers);

    assert_eq!(
        get(&headers, "if-modified-since").unwrap(),
        last_modified_time()
    );
    let warning = get(&headers, "warning");
    assert!(warning.is_none() || !warning.unwrap().contains("113"));
}

#[test]
fn test_not_without_validators() {
    let policy = simple_request_with_cacheable_response();
    let headers = policy.revalidation_headers(&simple_request());

    assert_headers_passed(&headers);
    assert_no_validators(&headers);

    let warning = get(&headers, "warning");
    assert!(warning.is_none() || !warning.unwrap().contains("113"));
}

#[test]
fn test_113_added() {
    let very_old_response = response_parts(
        200,
        &[
            ("age", &(3600 * 72).to_string()),
            ("last-modified", last_modified_time()),
        ],
    );
    let policy = CacheOptions::default().policy_for(&simple_request(), &very_old_response);

    let headers = policy.revalidation_headers(&simple_request());

    assert!(get(&headers, "warning").unwrap().contains("113"));
}

#[test]
fn test_removes_warnings() {
    let policy = CacheOptions::default().policy_for(
        &request_parts("GET", "/", &[]),
        &response_parts(200, &[("warning", "199 test danger")]),
    );

    assert!(get(&policy.response_headers(), "warning").is_none());
}

#[test]
fn test_must_contain_any_etag() {
    let policy = CacheOptions::default().policy_for(
        &simple_request(),
        &response_parts(
            200,
            &[
                cacheable_header(),
                ("last-modified", last_modified_time()),
                ("etag", etag_value()),
            ],
        ),
    );

    let headers = policy.revalidation_headers(&simple_request());

    assert_eq!(get(&headers, "if-none-match").unwrap(), etag_value());
}

#[test]
fn test_merges_etags() {
    let policy = simple_request_with_etagged_response();

    let headers = policy.revalidation_headers(&simple_request_with(&[(
        "if-none-match",
        "\"foo\", \"bar\"",
    )]));

    assert_eq!(
        get(&headers, "if-none-match").unwrap(),
        format!("\"foo\", \"bar\", {}", etag_value())
    );
}

#[test]
fn test_should_send_the_last_modified_value() {
    let policy = CacheOptions::default().policy_for(
        &simple_request(),
        &response_parts(
            200,
            &[
                cacheable_header(),
                ("last-modified", last_modified_time()),
                ("etag", etag_value()),
            ],
        ),
    );

    let headers = policy.revalidation_headers(&simple_request());

    assert_eq!(
        get(&headers, "if-modified-since").unwrap(),
        last_modified_time()
    );
}

#[test]
fn test_should_not_send_the_last_modified_value_for_post() {
    let post_request = request_parts("POST", "/", &[("if-modified-since", "yesterday")]);

    let policy = CacheOptions::default().policy_for(
        &post_request,
        &response_parts(200, &[cacheable_header(), ("last-modified", last_modified_time())]),
    );

    let headers = policy.revalidation_headers(&post_request);

    assert!(get(&headers, "if-modified-since").is_none());
}

#[test]
fn test_should_not_send_the_last_modified_value_for_range_request() {
    let range_request = request_parts(
        "GET",
        "/",
        &[("accept-ranges", "1-3"), ("if-modified-since", "yesterday")],
    );

    let policy = CacheOptions::default().policy_for(
        &range_request,
        &response_parts(200, &[cacheable_header(), ("last-modified", last_modified_time())]),
    );

    let headers = policy.revalidation_headers(&range_request);

    assert!(get(&headers, "if-modified-since").is_none());
}
