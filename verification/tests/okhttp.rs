use http_cache_semantics::{CacheOptions, HttpRequest, HttpResponse};

fn now_secs() -> i64 {
    std::time::SystemTime::now()
        .duration_since(std::time::UNIX_EPOCH)
        .unwrap()
        .as_secs() as i64
}

fn format_date(delta: i64, unit: i64) -> String {
    (now_secs() + delta * unit).to_string()
}

fn request_parts(method: &str, uri: &str, headers: &[(&str, &str)]) -> HttpRequest {
    HttpRequest {
        method: method.to_string(),
        uri: uri.to_string(),
        headers: headers
            .iter()
            .map(|(n, v)| (n.to_string(), v.to_string()))
            .collect(),
    }
}

fn response_parts(status: u16, headers: &[(&str, &str)]) -> HttpResponse {
    HttpResponse {
        status,
        headers: headers
            .iter()
            .map(|(n, v)| (n.to_string(), v.to_string()))
            .collect(),
    }
}

fn get(headers: &[(String, String)], name: &str) -> Option<String> {
    headers
        .iter()
        .find(|(n, _)| n.eq_ignore_ascii_case(name))
        .map(|(_, v)| v.clone())
}

fn assert_cached(should_put: bool, response_code: u16) {
    let options = CacheOptions::new_unshared();

    let mut headers = vec![
        ("last-modified".to_string(), format_date(-105, 1)),
        ("expires".to_string(), format_date(1, 3600)),
        ("www-authenticate".to_string(), "challenge".to_string()),
    ];
    if response_code == 407 {
        headers.push((
            "proxy-authenticate".to_string(),
            "Basic realm=\"protected area\"".to_string(),
        ));
    } else if response_code == 401 {
        headers.push((
            "www-authenticate".to_string(),
            "Basic realm=\"protected area\"".to_string(),
        ));
    }
    let response = HttpResponse {
        status: response_code,
        headers,
    };
    let request = request_parts("GET", "/", &[]);

    let policy = options.policy_for(&request, &response);

    assert_eq!(should_put, policy.is_storable());
}

#[test]
fn test_ok_http_response_caching_by_response_code() {
    assert_cached(false, 100);
    assert_cached(false, 101);
    assert_cached(false, 102);
    assert_cached(true, 200);
    assert_cached(false, 201);
    assert_cached(false, 202);
    assert_cached(true, 203);
    assert_cached(true, 204);
    assert_cached(false, 205);
    // 206: electing to not cache partial responses
    assert_cached(false, 206);
    assert_cached(false, 207);
    assert_cached(true, 300);
    assert_cached(true, 301);
    assert_cached(true, 302);
    assert_cached(false, 303);
    assert_cached(false, 304);
    assert_cached(false, 305);
    assert_cached(false, 306);
    assert_cached(true, 307);
    assert_cached(true, 308);
    assert_cached(false, 400);
    assert_cached(false, 401);
    assert_cached(false, 402);
    assert_cached(false, 403);
    assert_cached(true, 404);
    assert_cached(true, 405);
    assert_cached(false, 406);
    assert_cached(false, 408);
    assert_cached(false, 409);
    // 410: the HTTP spec permits caching 410s, but the RI doesn't
    assert_cached(true, 410);
    assert_cached(false, 411);
    assert_cached(false, 412);
    assert_cached(false, 413);
    assert_cached(true, 414);
    assert_cached(false, 415);
    assert_cached(false, 416);
    assert_cached(false, 417);
    assert_cached(false, 418);
    assert_cached(false, 429);
    assert_cached(false, 500);
    assert_cached(true, 501);
    assert_cached(false, 502);
    assert_cached(false, 503);
    assert_cached(false, 504);
    assert_cached(false, 505);
    assert_cached(false, 506);
}

#[test]
fn test_default_expiration_date_fully_cached_for_less_than_24_hours() {
    let options = CacheOptions::new_unshared();

    let policy = options.policy_for(
        &request_parts("GET", "/", &[]),
        &response_parts(
            200,
            &[
                ("last-modified", &format_date(-105, 1)),
                ("date", &format_date(-5, 1)),
            ],
        ),
    );

    assert!(policy.time_to_live() > 4000);
}

#[test]
fn test_default_expiration_date_fully_cached_for_more_than_24_hours() {
    let options = CacheOptions::new_unshared();

    let policy = options.policy_for(
        &request_parts("GET", "/", &[]),
        &response_parts(
            200,
            &[
                ("last-modified", &format_date(-105, 3600 * 24)),
                ("date", &format_date(-5, 3600 * 24)),
            ],
        ),
    );

    assert!(policy.max_age() >= 10 * 3600 * 24);
    assert!(policy.time_to_live() as i64 + 1000 >= 5 * 3600 * 24);
}

#[test]
fn test_max_age_in_the_past_with_date_header_but_no_last_modified_header() {
    let options = CacheOptions::new_unshared();

    let request = request_parts("GET", "/", &[]);
    let response = response_parts(
        200,
        &[
            ("date", &format_date(-120, 1)),
            ("cache-control", "max-age=60"),
        ],
    );
    let policy = options.policy_for(&request, &response);

    assert!(policy.is_stale());
}

#[test]
fn test_max_age_preferred_over_lower_shared_max_age() {
    let options = CacheOptions::new_unshared();

    let policy = options.policy_for(
        &request_parts("GET", "/", &[]),
        &response_parts(
            200,
            &[
                ("date", &format_date(-2, 60)),
                ("cache-control", "s-maxage=60, max-age=180"),
            ],
        ),
    );

    assert_eq!(policy.max_age(), 180);
}

#[test]
fn test_max_age_preferred_over_higher_max_age() {
    let options = CacheOptions::new_unshared();

    let request = request_parts("GET", "/", &[]);
    let response = response_parts(
        200,
        &[
            ("date", &format_date(-3, 60)),
            ("cache-control", "s-maxage=60, max-age=180"),
        ],
    );
    let policy = options.policy_for(&request, &response);

    assert!(policy.is_stale());
}

fn request_method_not_cached(method: &str) {
    let options = CacheOptions::new_unshared();

    // 1. seed the cache (potentially)
    // 2. expect a cache hit or miss
    let request = request_parts(method, "/", &[]);
    let response = response_parts(200, &[("expires", &format_date(1, 3600))]);

    let policy = options.policy_for(&request, &response);

    assert!(policy.is_stale());
}

#[test]
fn test_request_method_options_is_not_cached() {
    request_method_not_cached("OPTIONS");
}

#[test]
fn test_request_method_put_is_not_cached() {
    request_method_not_cached("PUT");
}

#[test]
fn test_request_method_delete_is_not_cached() {
    request_method_not_cached("DELETE");
}

#[test]
fn test_request_method_trace_is_not_cached() {
    request_method_not_cached("TRACE");
}

#[test]
fn test_etag_and_expiration_date_in_the_future() {
    let options = CacheOptions::new_unshared();

    let policy = options.policy_for(
        &request_parts("GET", "/", &[]),
        &response_parts(
            200,
            &[
                ("etag", "v1"),
                ("last-modified", &format_date(-2, 3600)),
                ("expires", &format_date(1, 3600)),
            ],
        ),
    );

    assert!(policy.time_to_live() > 0);
}

#[test]
fn test_client_side_no_store() {
    let options = CacheOptions::new_unshared();

    let policy = options.policy_for(
        &request_parts("GET", "/", &[("cache-control", "no-store")]),
        &response_parts(200, &[("cache-control", "max-age=60")]),
    );

    assert!(!policy.is_storable());
}

#[test]
fn test_request_max_age() {
    let options = CacheOptions::new_unshared();

    let first_request = request_parts("GET", "/", &[]);
    let response = response_parts(
        200,
        &[
            ("last-modified", &format_date(-2, 3600)),
            ("date", &format_date(-1, 60)),
            ("expires", &format_date(1, 3600)),
        ],
    );

    let policy = options.policy_for(&first_request, &response);

    assert!(!policy.is_stale());
    assert!(policy.age() >= 60);
    assert!(policy.is_cached_response_fresh(&request_parts(
        "GET",
        "/",
        &[("cache-control", "max-age=90")]
    )));
    assert!(!policy.is_cached_response_fresh(&request_parts(
        "GET",
        "/",
        &[("cache-control", "max-age=30")]
    )));
}

#[test]
fn test_request_min_fresh() {
    let options = CacheOptions::new_unshared();

    let response = response_parts(200, &[("cache-control", "max-age=60")]);

    let policy = options.policy_for(&request_parts("GET", "/", &[]), &response);

    assert!(!policy.is_stale());

    assert!(!policy.is_cached_response_fresh(&request_parts(
        "GET",
        "/",
        &[("cache-control", "min-fresh=120")]
    )));

    assert!(policy.is_cached_response_fresh(&request_parts(
        "GET",
        "/",
        &[("cache-control", "min-fresh=10")]
    )));
}

#[test]
fn test_request_max_stale() {
    let options = CacheOptions::new_unshared();

    let response = response_parts(
        200,
        &[
            ("cache-control", "max-age=120"),
            ("date", &format_date(-4, 60)),
        ],
    );

    let policy = options.policy_for(&request_parts("GET", "/", &[]), &response);

    assert!(policy.is_stale());

    assert!(policy.is_cached_response_fresh(&request_parts(
        "GET",
        "/",
        &[("cache-control", "max-stale=180")]
    )));

    assert!(policy.is_cached_response_fresh(&request_parts(
        "GET",
        "/",
        &[("cache-control", "max-stale")]
    )));

    assert!(!policy.is_cached_response_fresh(&request_parts(
        "GET",
        "/",
        &[("cache-control", "max-stale=10")]
    )));
}

#[test]
fn test_request_max_stale_not_honored_with_must_revalidate() {
    let options = CacheOptions::new_unshared();

    let response = response_parts(
        200,
        &[
            ("cache-control", "max-age=120, must-revalidate"),
            ("date", &format_date(-4, 60)),
        ],
    );

    let policy = options.policy_for(&request_parts("GET", "/", &[]), &response);

    assert!(policy.is_stale());

    assert!(!policy.is_cached_response_fresh(&request_parts(
        "GET",
        "/",
        &[("cache-control", "max-stale=180")]
    )));

    assert!(!policy.is_cached_response_fresh(&request_parts(
        "GET",
        "/",
        &[("cache-control", "max-stale")]
    )));
}

#[test]
fn test_get_headers_deletes_cached_100_level_warnings() {
    let policy = CacheOptions::default().policy_for(
        &request_parts("GET", "/", &[]),
        &response_parts(200, &[("warning", "199 test danger, 200 ok ok")]),
    );

    let headers = policy.response_headers();
    assert_eq!("200 ok ok", get(&headers, "warning").unwrap());
}

#[test]
fn test_do_not_cache_partial_response() {
    let policy = CacheOptions::default().policy_for(
        &request_parts("GET", "/", &[]),
        &response_parts(
            206,
            &[
                ("content-range", "bytes 100-100/200"),
                ("cache-control", "max-age=60"),
            ],
        ),
    );

    assert!(!policy.is_storable());
}
