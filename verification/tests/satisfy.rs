use http_cache_semantics::{CacheOptions, HttpRequest, HttpResponse};

fn request_parts(method: &str, uri: &str, headers: &[(&str, &str)]) -> HttpRequest {
    HttpRequest {
        method: method.to_string(),
        uri: uri.to_string(),
        headers: headers
            .iter()
            .map(|(n, v)| (n.to_string(), v.to_string()))
            .collect(),
    }
}

fn response_parts(status: u16, headers: &[(&str, &str)]) -> HttpResponse {
    HttpResponse {
        status,
        headers: headers
            .iter()
            .map(|(n, v)| (n.to_string(), v.to_string()))
            .collect(),
    }
}

#[test]
fn test_when_urls_match() {
    let response = response_parts(200, &[("cache-control", "max-age=2")]);

    let policy = CacheOptions::default().policy_for(&request_parts("GET", "/", &[]), &response);

    assert!(policy.is_cached_response_fresh(&request_parts("GET", "/", &[])));
}

#[test]
fn test_when_expires_is_present() {
    let two_seconds_later = chrono::Utc::now()
        .checked_add_signed(chrono::Duration::seconds(2))
        .unwrap()
        .to_rfc3339();
    let response = response_parts(302, &[("expires", &two_seconds_later)]);

    let policy = CacheOptions::default().policy_for(&request_parts("GET", "/", &[]), &response);

    assert!(policy.is_cached_response_fresh(&request_parts("GET", "/", &[])));
}

#[test]
fn test_not_when_urls_mismatch() {
    let response = response_parts(200, &[("cache-control", "max-age=2")]);
    let policy = CacheOptions::default().policy_for(&request_parts("GET", "/foo", &[]), &response);

    assert!(!policy.is_cached_response_fresh(&request_parts("GET", "/foo?bar", &[])));
}

#[test]
fn test_when_methods_match() {
    let response = response_parts(200, &[("cache-control", "max-age=2")]);
    let policy = CacheOptions::default().policy_for(&request_parts("GET", "/", &[]), &response);

    assert!(policy.is_cached_response_fresh(&request_parts("GET", "/", &[])));
}

#[test]
fn test_not_when_hosts_mismatch() {
    let response = response_parts(200, &[("cache-control", "max-age=2")]);
    let policy = CacheOptions::default().policy_for(
        &request_parts("GET", "/", &[("host", "foo")]),
        &response,
    );

    assert!(policy.is_cached_response_fresh(&request_parts("GET", "/", &[("host", "foo")])));

    assert!(!policy.is_cached_response_fresh(&request_parts("GET", "/", &[("host", "foofoo")])));
}

#[test]
fn test_when_methods_match_head() {
    let response = response_parts(200, &[("cache-control", "max-age=2")]);
    let policy = CacheOptions::default().policy_for(&request_parts("HEAD", "/", &[]), &response);

    assert!(policy.is_cached_response_fresh(&request_parts("HEAD", "/", &[])));
}

#[test]
fn test_not_when_methods_mismatch() {
    let response = response_parts(200, &[("cache-control", "max-age=2")]);
    let policy = CacheOptions::default().policy_for(&request_parts("POST", "/", &[]), &response);

    assert!(!policy.is_cached_response_fresh(&request_parts("GET", "/", &[])));
}

#[test]
fn test_not_when_methods_mismatch_head() {
    let response = response_parts(200, &[("cache-control", "max-age=2")]);
    let policy = CacheOptions::default().policy_for(&request_parts("HEAD", "/", &[]), &response);

    assert!(!policy.is_cached_response_fresh(&request_parts("GET", "/", &[])));
}

#[test]
fn test_not_when_proxy_revalidating() {
    let response = response_parts(200, &[("cache-control", "max-age=2, proxy-revalidate ")]);
    let policy = CacheOptions::default().policy_for(&request_parts("GET", "/", &[]), &response);

    assert!(!policy.is_cached_response_fresh(&request_parts("GET", "/", &[])));
}

#[test]
fn test_when_not_a_proxy_revalidating() {
    let response = response_parts(200, &[("cache-control", "max-age=2, proxy-revalidate ")]);
    let policy =
        CacheOptions::new_unshared().policy_for(&request_parts("GET", "/", &[]), &response);

    assert!(policy.is_cached_response_fresh(&request_parts("GET", "/", &[])));
}

#[test]
fn test_not_when_no_cache_requesting() {
    let response = response_parts(200, &[("cache-control", "max-age=2")]);
    let policy = CacheOptions::default().policy_for(&request_parts("GET", "/", &[]), &response);

    assert!(policy.is_cached_response_fresh(&request_parts(
        "GET",
        "/",
        &[("cache-control", "fine")]
    )));

    assert!(!policy.is_cached_response_fresh(&request_parts(
        "GET",
        "/",
        &[("cache-control", "no-cache")]
    )));

    assert!(!policy.is_cached_response_fresh(&request_parts(
        "GET",
        "/",
        &[("pragma", "no-cache")]
    )));
}
