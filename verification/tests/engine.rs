//! Deterministic checks with an injected clock: exact freshness arithmetic,
//! every date format, the 304 merge, and concrete instances of the engine's
//! general laws.
use http_cache_semantics::{CacheOptions, HttpRequest, HttpResponse};

fn req(method: &str, uri: &str, headers: &[(&str, &str)]) -> HttpRequest {
    HttpRequest {
        method: method.to_string(),
        uri: uri.to_string(),
        headers: headers
            .iter()
            .map(|(n, v)| (n.to_string(), v.to_string()))
            .collect(),
    }
}

fn res(status: u16, headers: &[(&str, &str)]) -> HttpResponse {
    HttpResponse {
        status,
        headers: headers
            .iter()
            .map(|(n, v)| (n.to_string(), v.to_string()))
            .collect(),
    }
}

fn get(headers: &[(String, String)], name: &str) -> Option<String> {
    headers
        .iter()
        .find(|(n, _)| n.eq_ignore_ascii_case(name))
        .map(|(_, v)| v.clone())
}

const T0: i64 = 1700000000;

#[test]
fn test_exact_freshness_arithmetic() {
    // Stored at T0 with a Date 240 seconds earlier and max-age=120.
    let policy = CacheOptions::default().policy_for_at(
        &req("GET", "/", &[]),
        &res(
            200,
            &[
                ("cache-control", "max-age=120"),
                ("date", &(T0 - 240).to_string()),
            ],
        ),
        T0,
    );
    assert!(policy.is_storable());
    assert_eq!(policy.max_age(), 120);
    assert_eq!(policy.age_at(T0), 240);
    assert!(policy.is_stale_at(T0));
    assert_eq!(policy.time_to_live_at(T0), 0);

    // A fresh one: age 30 of 120 leaves 90 seconds.
    let fresh = CacheOptions::default().policy_for_at(
        &req("GET", "/", &[]),
        &res(
            200,
            &[
                ("cache-control", "max-age=120"),
                ("date", &(T0 - 30).to_string()),
            ],
        ),
        T0,
    );
    assert_eq!(fresh.age_at(T0), 30);
    assert!(!fresh.is_stale_at(T0));
    assert_eq!(fresh.time_to_live_at(T0), 90_000);
}

#[test]
fn test_shared_s_maxage_and_private_max_age() {
    let request = req("GET", "/", &[]);
    let response = res(
        200,
        &[
            ("cache-control", "s-maxage=60, max-age=180"),
            ("date", &T0.to_string()),
        ],
    );
    let shared = CacheOptions::default().policy_for_at(&request, &response, T0);
    let unshared = CacheOptions::new_unshared().policy_for_at(&request, &response, T0);
    assert_eq!(shared.max_age(), 60);
    assert!(!shared.is_stale_at(T0 + 1));
    assert!(shared.is_stale_at(T0 + 61));
    assert_eq!(unshared.max_age(), 180);
    assert!(!unshared.is_stale_at(T0 + 61));
}

#[test]
fn test_age_header_adds_to_age() {
    let policy = CacheOptions::default().policy_for_at(
        &req("GET", "/", &[]),
        &res(
            200,
            &[
                ("cache-control", "max-age=100"),
                ("date", &(T0 - 10).to_string()),
                ("age", "  25 "),
            ],
        ),
        T0,
    );
    assert_eq!(policy.age_at(T0), 35);
    assert_eq!(policy.age_at(T0 + 5), 40);
}

#[test]
fn test_every_date_format_reads_the_same_instant() {
    // 2016-03-07 11:52:56 UTC is 1457351576 seconds after the epoch.
    let instant: i64 = 1457351576;
    let forms = [
        "Mon, 07 Mar 2016 11:52:56 GMT",
        "Monday, 07-Mar-16 11:52:56 GMT",
        "Mon Mar  7 11:52:56 2016",
        "2016-03-07T11:52:56+00:00",
        "2016-03-07T11:52:56.123456789+00:00",
        "2016-03-07T12:52:56+01:00",
        "2016-03-07T11:52:56Z",
        "1457351576",
    ];
    for form in forms.iter() {
        let policy = CacheOptions::default().policy_for_at(
            &req("GET", "/", &[]),
            &res(
                200,
                &[("cache-control", "max-age=50"), ("date", form)],
            ),
            instant,
        );
        assert_eq!(policy.age_at(instant + 10), 10, "form: {}", form);
    }
}

#[test]
fn test_unparseable_date_falls_back_to_arrival() {
    let policy = CacheOptions::default().policy_for_at(
        &req("GET", "/", &[]),
        &res(
            200,
            &[("cache-control", "max-age=50"), ("date", "yesterday-ish")],
        ),
        T0,
    );
    assert_eq!(policy.age_at(T0), 0);
    assert_eq!(policy.age_at(T0 + 7), 7);
}

#[test]
fn test_expires_lifetime_is_relative_to_server_date() {
    let policy = CacheOptions::default().policy_for_at(
        &req("GET", "/", &[]),
        &res(
            200,
            &[
                ("date", "Mon, 07 Mar 2016 11:52:56 GMT"),
                ("expires", "Mon, 07 Mar 2016 11:53:56 GMT"),
            ],
        ),
        1457351576,
    );
    assert_eq!(policy.max_age(), 60);
}

#[test]
fn test_heuristic_is_a_tenth_of_document_age() {
    let policy = CacheOptions::default().policy_for_at(
        &req("GET", "/", &[]),
        &res(
            200,
            &[
                ("date", &T0.to_string()),
                ("last-modified", &(T0 - 1000).to_string()),
            ],
        ),
        T0,
    );
    assert_eq!(policy.max_age(), 100);
}

#[test]
fn test_directive_names_ignore_case_and_last_wins() {
    let policy = CacheOptions::default().policy_for_at(
        &req("GET", "/", &[]),
        &res(200, &[("Cache-Control", "MAX-AGE=5, max-age=7")]),
        T0,
    );
    assert_eq!(policy.max_age(), 7);
}

#[test]
fn test_empty_and_unparseable_directive_values() {
    // An unparseable max-age counts as absent; the heuristic is absent too,
    // so nothing keeps the entry fresh.
    let policy = CacheOptions::default().policy_for_at(
        &req("GET", "/", &[]),
        &res(200, &[("cache-control", ",,max-age=abc,")]),
        T0,
    );
    assert_eq!(policy.max_age(), 0);
    assert!(policy.is_stale_at(T0));
}

#[test]
fn test_lifetime_clamps_at_the_integer_ceiling() {
    let policy = CacheOptions::default().policy_for_at(
        &req("GET", "/", &[]),
        &res(200, &[("cache-control", "max-age=99999999999999")]),
        T0,
    );
    assert_eq!(policy.max_age(), u32::MAX);
    assert_eq!(policy.time_to_live_at(T0), u32::MAX);
}

#[test]
fn test_age_grows_and_ttl_shrinks() {
    let policy = CacheOptions::default().policy_for_at(
        &req("GET", "/", &[]),
        &res(200, &[("cache-control", "max-age=100")]),
        T0,
    );
    let mut last_age: u32 = 0;
    let mut last_ttl: u32 = u32::MAX;
    let offsets: [i64; 5] = [0, 1, 50, 100, 1000];
    for d in offsets.iter() {
        let a = policy.age_at(T0 + d);
        let t = policy.time_to_live_at(T0 + d);
        assert!(a >= last_age);
        assert!(t <= last_ttl);
        last_age = a;
        last_ttl = t;
    }
}

#[test]
fn test_storable_ignores_unrelated_headers() {
    // Everything the storability law names is equal; the rest differs.
    let a = CacheOptions::default().policy_for_at(
        &req("GET", "/a", &[("x-custom", "1")]),
        &res(
            200,
            &[("cache-control", "max-age=9"), ("etag", "\"x\"")],
        ),
        T0,
    );
    let b = CacheOptions::default().policy_for_at(
        &req("GET", "/b", &[("accept", "text/plain")]),
        &res(
            200,
            &[("cache-control", "max-age=9"), ("date", &T0.to_string())],
        ),
        T0 + 55,
    );
    assert_eq!(a.is_storable(), b.is_storable());
}

#[test]
fn test_vary_star_never_fresh_for_any_request() {
    let policy = CacheOptions::default().policy_for_at(
        &req("GET", "/", &[("weather", "ok")]),
        &res(
            200,
            &[("cache-control", "immutable, max-age=99"), ("vary", "*")],
        ),
        T0,
    );
    assert!(policy.is_storable());
    assert!(!policy.is_cached_response_fresh_at(&req("GET", "/", &[("weather", "ok")]), T0));
    assert!(!policy.is_cached_response_fresh_at(&req("GET", "/", &[]), T0));
    assert!(!policy.is_cached_response_fresh_at(&req("HEAD", "/", &[("a", "b")]), T0 + 5));
}

#[test]
fn test_egress_strips_connection_named_headers() {
    let policy = CacheOptions::default().policy_for_at(
        &req("GET", "/", &[]),
        &res(
            200,
            &[
                ("cache-control", "max-age=60"),
                ("connection", "x-transient, close"),
                ("x-transient", "gone"),
                ("keep-alive", "timeout=5"),
                ("TE", "trailers"),
                ("content-type", "text/plain"),
            ],
        ),
        T0,
    );
    let headers = policy.response_headers_at(T0 + 9);
    assert!(get(&headers, "connection").is_none());
    assert!(get(&headers, "x-transient").is_none());
    assert!(get(&headers, "keep-alive").is_none());
    assert!(get(&headers, "te").is_none());
    assert_eq!(get(&headers, "content-type").unwrap(), "text/plain");
    assert_eq!(get(&headers, "age").unwrap(), "9");
}

#[test]
fn test_put_revalidation_suppresses_weak_validators() {
    let request = req(
        "PUT",
        "/thing",
        &[("if-none-match", "W/\"a\", \"b\"")],
    );
    let policy = CacheOptions::default().policy_for_at(
        &request,
        &res(
            200,
            &[("cache-control", "max-age=5"), ("etag", "W/\"weak-tag\"")],
        ),
        T0,
    );
    let headers = policy.revalidation_headers_at(&request, T0);
    assert_eq!(get(&headers, "if-none-match").unwrap(), "\"b\"");
}

#[test]
fn test_etag_match_updates_headers() {
    let request = req("GET", "/", &[]);
    let mut policy = CacheOptions::default().policy_for_at(
        &request,
        &res(
            200,
            &[
                ("cache-control", "max-age=100"),
                ("etag", "\"v1\""),
                ("x-version", "one"),
            ],
        ),
        T0,
    );
    let not_modified = res(
        304,
        &[
            ("etag", "\"v1\""),
            ("x-version", "two"),
            ("cache-control", "max-age=500"),
        ],
    );
    let valid = policy.is_cached_response_valid_at(&request, &not_modified, T0 + 90);
    assert!(valid);
    let headers = policy.response_headers_at(T0 + 90);
    assert_eq!(get(&headers, "x-version").unwrap(), "two");
    assert_eq!(policy.max_age(), 500);
    assert!(!policy.is_stale_at(T0 + 90));
}

#[test]
fn test_etag_mismatch_is_refused() {
    let request = req("GET", "/", &[]);
    let mut policy = CacheOptions::default().policy_for_at(
        &request,
        &res(
            200,
            &[
                ("cache-control", "max-age=100"),
                ("etag", "\"v1\""),
                ("x-version", "one"),
            ],
        ),
        T0,
    );
    let not_modified = res(304, &[("etag", "\"other\""), ("x-version", "two")]);
    let valid = policy.is_cached_response_valid_at(&request, &not_modified, T0 + 10);
    assert!(!valid);
    // The record is untouched.
    let headers = policy.response_headers_at(T0 + 10);
    assert_eq!(get(&headers, "x-version").unwrap(), "one");
}

#[test]
fn test_last_modified_match_updates() {
    let request = req("GET", "/", &[]);
    let mut policy = CacheOptions::default().policy_for_at(
        &request,
        &res(
            200,
            &[
                ("cache-control", "max-age=100"),
                ("last-modified", "Tue, 15 Nov 1994 12:45:26 GMT"),
                ("x-version", "one"),
            ],
        ),
        T0,
    );
    let not_modified = res(
        304,
        &[
            ("last-modified", "Tue, 15 Nov 1994 12:45:26 GMT"),
            ("x-version", "two"),
        ],
    );
    assert!(policy.is_cached_response_valid_at(&request, &not_modified, T0 + 10));
    let headers = policy.response_headers_at(T0 + 10);
    assert_eq!(get(&headers, "x-version").unwrap(), "two");
}

#[test]
fn test_merge_skips_content_headers() {
    let request = req("GET", "/", &[]);
    let mut policy = CacheOptions::default().policy_for_at(
        &request,
        &res(
            200,
            &[
                ("cache-control", "max-age=100"),
                ("etag", "\"v1\""),
                ("content-length", "10"),
            ],
        ),
        T0,
    );
    let not_modified = res(304, &[("etag", "\"v1\""), ("content-length", "0")]);
    assert!(policy.is_cached_response_valid_at(&request, &not_modified, T0 + 10));
    let headers = policy.response_headers_at(T0 + 10);
    assert_eq!(get(&headers, "content-length").unwrap(), "10");
}

#[test]
fn test_non_304_replaces_the_record() {
    let request = req("GET", "/", &[]);
    let mut policy = CacheOptions::default().policy_for_at(
        &request,
        &res(200, &[("cache-control", "max-age=100"), ("etag", "\"v1\"")]),
        T0,
    );
    let full = res(200, &[("cache-control", "max-age=7")]);
    let valid = policy.is_cached_response_valid_at(&request, &full, T0 + 10);
    assert!(!valid);
    assert_eq!(policy.max_age(), 7);
}

#[test]
fn test_revalidation_applied_twice_changes_nothing() {
    let request = req("GET", "/", &[]);
    let build = || {
        CacheOptions::default().policy_for_at(
            &request,
            &res(
                200,
                &[
                    ("cache-control", "max-age=100"),
                    ("etag", "\"v1\""),
                    ("x-version", "one"),
                ],
            ),
            T0,
        )
    };
    let not_modified = res(304, &[("etag", "\"v1\""), ("x-version", "two")]);
    let mut once = build();
    once.is_cached_response_valid_at(&request, &not_modified, T0 + 5);
    let mut twice = build();
    twice.is_cached_response_valid_at(&request, &not_modified, T0 + 5);
    let second = twice.is_cached_response_valid_at(&request, &not_modified, T0 + 5);
    assert!(second);
    assert_eq!(
        once.response_headers_at(T0 + 6),
        twice.response_headers_at(T0 + 6)
    );
}

#[test]
fn test_update_response_headers_rewrites_in_place() {
    let policy = CacheOptions::default().policy_for_at(
        &req("GET", "/", &[]),
        &res(
            200,
            &[("cache-control", "max-age=60"), ("warning", "110 - stale")],
        ),
        T0,
    );
    let mut served = res(200, &[("x-old", "value")]);
    policy.update_response_headers_at(&mut served, T0 + 3);
    assert_eq!(served.status, 200);
    assert!(get(&served.headers, "x-old").is_none());
    assert!(get(&served.headers, "warning").is_none());
    assert_eq!(get(&served.headers, "age").unwrap(), "3");
    assert_eq!(get(&served.headers, "cache-control").unwrap(), "max-age=60");
}

#[test]
fn test_header_names_ignore_case_in_requests() {
    let policy = CacheOptions::default().policy_for_at(
        &req("GET", "/", &[("AUTHORIZATION", "test")]),
        &res(200, &[("CACHE-CONTROL", "max-age=111")]),
        T0,
    );
    assert!(!policy.is_storable());
}

#[test]
fn test_duplicate_header_uses_first_value() {
    let policy = CacheOptions::default().policy_for_at(
        &req("GET", "/", &[("host", "a.example"), ("host", "b.example")]),
        &res(200, &[("cache-control", "max-age=60")]),
        T0,
    );
    assert!(policy.is_cached_response_fresh_at(&req("GET", "/", &[("host", "a.example")]), T0));
    assert!(!policy.is_cached_response_fresh_at(&req("GET", "/", &[("host", "b.example")]), T0));
}

#[test]
fn test_head_request_reuses_get_entry() {
    let policy = CacheOptions::default().policy_for_at(
        &req("GET", "/", &[]),
        &res(200, &[("cache-control", "max-age=60")]),
        T0,
    );
    assert!(policy.is_cached_response_fresh_at(&req("HEAD", "/", &[]), T0));
}

#[test]
fn test_min_fresh_boundary() {
    let policy = CacheOptions::default().policy_for_at(
        &req("GET", "/", &[]),
        &res(
            200,
            &[("cache-control", "max-age=60"), ("date", &(T0 - 20).to_string())],
        ),
        T0,
    );
    // 40 seconds of freshness remain; min-fresh up to 39 passes.
    assert!(policy.is_cached_response_fresh_at(
        &req("GET", "/", &[("cache-control", "min-fresh=39")]),
        T0
    ));
    assert!(!policy.is_cached_response_fresh_at(
        &req("GET", "/", &[("cache-control", "min-fresh=40")]),
        T0
    ));
}

#[test]
fn test_valueless_max_stale_accepts_any_age() {
    let policy = CacheOptions::new_unshared().policy_for_at(
        &req("GET", "/", &[]),
        &res(
            200,
            &[
                ("cache-control", "max-age=1"),
                ("date", &(T0 - 100000).to_string()),
            ],
        ),
        T0,
    );
    assert!(policy.is_stale_at(T0));
    assert!(policy.is_cached_response_fresh_at(
        &req("GET", "/", &[("cache-control", "max-stale")]),
        T0
    ));
}

#[test]
fn test_future_server_date_is_tolerated() {
    // Clock skew: the server's Date is ahead of the arrival instant.
    let policy = CacheOptions::default().policy_for_at(
        &req("GET", "/", &[]),
        &res(
            200,
            &[
                ("cache-control", "max-age=100"),
                ("date", &(T0 + 500).to_string()),
            ],
        ),
        T0,
    );
    assert_eq!(policy.age_at(T0), 0);
    assert!(!policy.is_stale_at(T0));
}
