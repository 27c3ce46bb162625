use http_cache_semantics::{CacheOptions, HttpRequest, HttpResponse};

fn request_parts(headers: &[(&str, &str)]) -> HttpRequest {
    HttpRequest {
        method: "GET".to_string(),
        uri: "/".to_string(),
        headers: headers
            .iter()
            .map(|(n, v)| (n.to_string(), v.to_string()))
            .collect(),
    }
}

fn response_parts(headers: &[(&str, &str)]) -> HttpResponse {
    HttpResponse {
        status: 200,
        headers: headers
            .iter()
            .map(|(n, v)| (n.to_string(), v.to_string()))
            .collect(),
    }
}

#[test]
fn test_vary_basic() {
    let response = response_parts(&[("cache-control", "max-age=5"), ("vary", "weather")]);

    let policy =
        CacheOptions::default().policy_for(&request_parts(&[("weather", "nice")]), &response);

    assert!(policy.is_cached_response_fresh(&request_parts(&[("weather", "nice")])));

    assert!(!policy.is_cached_response_fresh(&request_parts(&[("weather", "bad")])));
}

#[test]
fn test_asterisks_does_not_match() {
    let response = response_parts(&[("cache-control", "max-age=5"), ("vary", "*")]);

    let policy =
        CacheOptions::default().policy_for(&request_parts(&[("weather", "ok")]), &response);

    assert!(!policy.is_cached_response_fresh(&request_parts(&[("weather", "ok")])));
}

#[test]
fn test_asterisks_is_stale() {
    let policy_one = CacheOptions::default().policy_for(
        &request_parts(&[("weather", "ok")]),
        &response_parts(&[("cache-control", "public,max-age=99"), ("vary", "*")]),
    );

    let policy_two = CacheOptions::default().policy_for(
        &request_parts(&[("weather", "ok")]),
        &response_parts(&[("cache-control", "public,max-age=99"), ("vary", "weather")]),
    );

    assert!(policy_one.is_stale());
    assert!(!policy_two.is_stale());
}

#[test]
fn test_values_are_case_sensitive() {
    let response = response_parts(&[("cache-control", "public,max-age=5"), ("vary", "weather")]);

    let policy =
        CacheOptions::default().policy_for(&request_parts(&[("weather", "BAD")]), &response);

    assert!(policy.is_cached_response_fresh(&request_parts(&[("weather", "BAD")])));

    assert!(!policy.is_cached_response_fresh(&request_parts(&[("weather", "bad")])));
}

#[test]
fn test_irrelevant_headers_ignored() {
    let response = response_parts(&[("cache-control", "max-age=5"), ("vary", "moon-phase")]);

    let policy =
        CacheOptions::default().policy_for(&request_parts(&[("weather", "nice")]), &response);

    assert!(policy.is_cached_response_fresh(&request_parts(&[("weather", "bad")])));

    assert!(policy.is_cached_response_fresh(&request_parts(&[("weather", "shining")])));

    assert!(!policy.is_cached_response_fresh(&request_parts(&[("moon-phase", "full")])));
}

#[test]
fn test_absence_is_meaningful() {
    let response = response_parts(&[
        ("cache-control", "max-age=5"),
        ("vary", "moon-phase, weather"),
    ]);

    let policy =
        CacheOptions::default().policy_for(&request_parts(&[("weather", "nice")]), &response);

    assert!(policy.is_cached_response_fresh(&request_parts(&[("weather", "nice")])));

    assert!(!policy.is_cached_response_fresh(&request_parts(&[
        ("weather", "nice"),
        ("moon-phase", "")
    ])));

    assert!(!policy.is_cached_response_fresh(&request_parts(&[])));
}

#[test]
fn test_all_values_must_match() {
    let response = response_parts(&[("cache-control", "max-age=5"), ("vary", "weather, sun")]);

    let policy = CacheOptions::default().policy_for(
        &request_parts(&[("sun", "shining"), ("weather", "nice")]),
        &response,
    );

    assert!(policy.is_cached_response_fresh(&request_parts(&[
        ("sun", "shining"),
        ("weather", "nice")
    ])));

    assert!(!policy.is_cached_response_fresh(&request_parts(&[
        ("sun", "shining"),
        ("weather", "bad")
    ])));
}

#[test]
fn test_whitespace_is_okay() {
    let response = response_parts(&[
        ("cache-control", "max-age=5"),
        ("vary", "    weather       ,     sun     "),
    ]);

    let policy = CacheOptions::default().policy_for(
        &request_parts(&[("sun", "shining"), ("weather", "nice")]),
        &response,
    );

    assert!(policy.is_cached_response_fresh(&request_parts(&[
        ("sun", "shining"),
        ("weather", "nice")
    ])));

    assert!(!policy.is_cached_response_fresh(&request_parts(&[("weather", "nice")])));

    assert!(!policy.is_cached_response_fresh(&request_parts(&[("sun", "shining")])));
}

#[test]
fn test_order_is_irrelevant() {
    let response_one = response_parts(&[("cache-control", "max-age=5"), ("vary", "weather, sun")]);

    let response_two = response_parts(&[("cache-control", "max-age=5"), ("vary", "sun, weather")]);

    let policy_one = CacheOptions::default().policy_for(
        &request_parts(&[("sun", "shining"), ("weather", "nice")]),
        &response_one,
    );

    let policy_two = CacheOptions::default().policy_for(
        &request_parts(&[("sun", "shining"), ("weather", "nice")]),
        &response_two,
    );

    assert!(policy_one.is_cached_response_fresh(&request_parts(&[
        ("weather", "nice"),
        ("sun", "shining")
    ])));

    assert!(policy_one.is_cached_response_fresh(&request_parts(&[
        ("sun", "shining"),
        ("weather", "nice")
    ])));

    assert!(policy_two.is_cached_response_fresh(&request_parts(&[
        ("weather", "nice"),
        ("sun", "shining")
    ])));

    assert!(policy_two.is_cached_response_fresh(&request_parts(&[
        ("sun", "shining"),
        ("weather", "nice")
    ])));
}
