//! Headers that only go to allowed hosts.

use http::{HeaderMap, HeaderName, HeaderValue};
use networkquality::access::{cf_access_scoped_headers, AccessError};
use networkquality::scoped_headers::ScopedHeaders;
use networkquality::uri::Uri;

const TEST_HEADER: &str = "x-test-token";
const SUFFIX: &str = "speed.cloudflare.com";

/// Headers with a single `x-test-token` header scoped to the given suffixes.
fn scoped(suffixes: &[&str]) -> ScopedHeaders {
    let mut headers = HeaderMap::new();
    headers.insert(
        HeaderName::from_static(TEST_HEADER),
        HeaderValue::from_static("secret"),
    );
    ScopedHeaders::new(headers, suffixes.iter().map(|s| s.to_string()).collect())
}

fn uri(text: &str) -> Uri {
    Uri::parse(text).unwrap()
}

#[test]
fn allows_exact_match() {
    assert!(scoped(&[SUFFIX]).allows_host("speed.cloudflare.com"));
}

#[test]
fn allows_subdomain_match() {
    assert!(scoped(&[SUFFIX]).allows_host("staging.speed.cloudflare.com"));
}

#[test]
fn allows_deep_subdomain_match() {
    assert!(scoped(&[SUFFIX]).allows_host("a.b.speed.cloudflare.com"));
}

#[test]
fn allows_any_of_multiple_suffixes() {
    let scoped = scoped(&["example.com", SUFFIX]);
    assert!(scoped.allows_host("speed.cloudflare.com"));
    assert!(scoped.allows_host("www.example.com"));
}

#[test]
fn allows_case_insensitive_host() {
    assert!(scoped(&[SUFFIX]).allows_host("SPEED.Cloudflare.COM"));
}

#[test]
fn allows_trailing_dot_fqdn() {
    assert!(scoped(&[SUFFIX]).allows_host("speed.cloudflare.com."));
}

#[test]
fn allows_trailing_dot_subdomain() {
    assert!(scoped(&[SUFFIX]).allows_host("staging.speed.cloudflare.com."));
}

#[test]
fn allows_suffix_normalized_case_and_trailing_dot() {
    // Suffix supplied with mixed case and a trailing dot must still match a
    // lowercase host.
    assert!(scoped(&["SPEED.Cloudflare.com."]).allows_host("speed.cloudflare.com"));
}

#[test]
fn rejects_look_alike_prefix() {
    assert!(!scoped(&[SUFFIX]).allows_host("notspeed.cloudflare.com"));
}

#[test]
fn rejects_look_alike_suffix() {
    assert!(!scoped(&[SUFFIX]).allows_host("speed.cloudflare.com.evil.com"));
}

#[test]
fn rejects_empty_host() {
    assert!(!scoped(&[SUFFIX]).allows_host(""));
}

#[test]
fn rejects_unrelated_host() {
    assert!(!scoped(&[SUFFIX]).allows_host("example.com"));
}

#[test]
fn rejects_host_shorter_than_suffix() {
    assert!(!scoped(&[SUFFIX]).allows_host("cloudflare.com"));
}

#[test]
fn rejects_partial_trailing_label() {
    // Host ends with the suffix bytes but not on a label boundary.
    assert!(!scoped(&[SUFFIX]).allows_host("xspeed.cloudflare.com"));
}

#[test]
fn apply_attaches_header_to_matching_host() {
    let uri = uri("https://staging.speed.cloudflare.com/config");
    let mut headers = HeaderMap::new();
    scoped(&[SUFFIX]).apply(&uri, &mut headers);
    assert_eq!(
        headers.get(TEST_HEADER).map(|v| v.as_bytes()),
        Some(b"secret".as_slice())
    );
}

#[test]
fn apply_does_not_attach_header_to_non_matching_host() {
    let uri = uri("https://evil.com/config");
    let mut headers = HeaderMap::new();
    scoped(&[SUFFIX]).apply(&uri, &mut headers);
    assert!(!headers.contains_key(TEST_HEADER));
}

#[test]
fn apply_is_noop_when_uri_has_no_host() {
    let uri = uri("/relative/path");
    assert!(uri.host.is_none());
    let mut headers = HeaderMap::new();
    scoped(&[SUFFIX]).apply(&uri, &mut headers);
    assert!(headers.is_empty());
}

#[test]
fn apply_does_not_overwrite_existing_header() {
    let uri = uri("https://speed.cloudflare.com/config");
    let mut headers = HeaderMap::new();
    headers.insert(
        HeaderName::from_static(TEST_HEADER),
        HeaderValue::from_static("explicit"),
    );
    scoped(&[SUFFIX]).apply(&uri, &mut headers);
    assert_eq!(
        headers.get(TEST_HEADER).map(|v| v.as_bytes()),
        Some(b"explicit".as_slice())
    );
}

#[test]
fn apply_attaches_every_value_of_a_name() {
    let mut both = HeaderMap::new();
    both.append("x-a", HeaderValue::from_static("1"));
    both.append("x-a", HeaderValue::from_static("2"));
    both.append("x-b", HeaderValue::from_static("3"));
    let scoped = ScopedHeaders::new(both, vec![SUFFIX.to_string()]);
    assert_eq!(scoped.len(), 3);

    let mut headers = HeaderMap::new();
    headers.insert("x-b", HeaderValue::from_static("mine"));
    assert!(scoped.fits(&headers));
    scoped.apply(&uri("https://speed.cloudflare.com/"), &mut headers);
    let values: Vec<&[u8]> = headers.get_all("x-b").iter().map(|v| v.as_bytes()).collect();
    assert_eq!(values, vec![b"mine".as_slice()]);
    let values: Vec<&[u8]> = headers.get_all("x-a").iter().map(|v| v.as_bytes()).collect();
    assert_eq!(values, vec![b"1".as_slice(), b"2".as_slice()]);
}

#[test]
fn apply_takes_every_name_of_a_map() {
    // A quote is no part of a name that is parsed, but of one that is given.
    let quoted = HeaderName::from_static("a\"b");
    let mut given = HeaderMap::new();
    given.insert(quoted.clone(), HeaderValue::from_static("1"));
    let scoped = ScopedHeaders::new(given, vec![SUFFIX.to_string()]);

    let mut headers = HeaderMap::new();
    scoped.apply(&uri("https://speed.cloudflare.com/"), &mut headers);
    assert_eq!(headers.get(&quoted).map(|v| v.as_bytes()), Some(b"1".as_slice()));

    let mut headers = HeaderMap::new();
    headers.insert(quoted.clone(), HeaderValue::from_static("mine"));
    scoped.apply(&uri("https://speed.cloudflare.com/"), &mut headers);
    assert_eq!(headers.len(), 1);
    assert_eq!(headers.get(&quoted).map(|v| v.as_bytes()), Some(b"mine".as_slice()));
}

#[test]
fn no_suffix_allows_no_host() {
    assert!(!scoped(&[]).allows_host("speed.cloudflare.com"));
    assert!(!ScopedHeaders::default().allows_host("speed.cloudflare.com"));
    assert_eq!(ScopedHeaders::default().len(), 0);
}

#[test]
fn copies_allow_the_same_hosts() {
    let copy = scoped(&[SUFFIX]).clone();
    assert_eq!(copy.len(), 1);
    assert!(copy.allows_host("a.speed.cloudflare.com"));
    assert!(!copy.allows_host("example.com"));
}

#[test]
fn access_token_goes_to_its_hosts_only() {
    let scoped = cf_access_scoped_headers(Some("  abc.def ")).unwrap().unwrap();
    let mut headers = HeaderMap::new();
    scoped.apply(&uri("https://staging.speed.cloudflare.com/x"), &mut headers);
    assert_eq!(headers.len(), 1);
    for value in headers.values() {
        assert_eq!(value.as_bytes(), b"abc.def");
        assert!(value.is_sensitive());
    }
    let mut headers = HeaderMap::new();
    scoped.apply(&uri("https://example.com/x"), &mut headers);
    assert!(headers.is_empty());
}

#[test]
fn no_access_token_gives_no_headers() {
    assert!(cf_access_scoped_headers(None).unwrap().is_none());
    assert!(cf_access_scoped_headers(Some("   ")).unwrap().is_none());
}

#[test]
fn malformed_access_token_is_refused() {
    let error = cf_access_scoped_headers(Some("a\nb")).unwrap_err();
    assert_eq!(error, AccessError::InvalidToken);
    assert!(!error.message().is_empty());
}
