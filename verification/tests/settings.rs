//! Arguments, configurations and targets.

use networkquality::access::cf_access_scoped_headers;
use networkquality::args::{
    log_filter, parse_upload_bytes_per_request, warn_on_small_requests, ConnType,
    ConnectionErrorPolicyArg, RpmArgs, UploadArgs, Verbosity, MIN_UPLOAD_BYTES_PER_REQUEST,
    SMALL_UPLOAD_BYTES_PER_REQUEST,
};
use networkquality::client::ConnectionChoice;
use networkquality::connection::{ConnectionTiming, ConnectionType};
use networkquality::latency::{
    check_runs, Latency, LatencyConfig, LatencyError, LatencyResult, Rtt, RttConfig, RttResult,
};
use networkquality::proxy::{ProxyConfig, ProxyError};
use networkquality::responsiveness::ConnectionErrorPolicy;
use networkquality::rpm_config::{
    config_rejection, config_request, resolve_url, upload_timeout_secs, warn_on_degraded_result,
    RpmServerUrls, RpmUrls, UrlSource,
};
use networkquality::saturate::{Direction, SaturateArgs};
use networkquality::stats::{Fraction, Ratio, TimeSeries};
use networkquality::text::{decimal_text, parse_whole_number, same_text, to_lower, trim};
use networkquality::time::{Timestamp, NANOS_PER_MILLI};
use networkquality::uri::{Uri, Url};
use networkquality::util::{hundredths_text, pretty_ms, pretty_secs, thousandths_text};
use serde_json::Value;

const START: Timestamp = Timestamp { nanos: 0 };

/// A configuration as Apple's server publishes it.
const APPLE_CONFIG: &str = r#"{ "version": 1,
  "test_endpoint": "esmad6-edge-fx-028.aaplimg.com",
  "urls": {
      "small_download_url": "https://mensura.cdn-apple.com/api/v1/gm/small",
      "large_download_url": "https://mensura.cdn-apple.com/api/v1/gm/large",
      "upload_url": "https://mensura.cdn-apple.com/api/v1/gm/slurp"
   }
}"#;

/// The addresses in the body of a configuration.
fn parse_rpm_config(body: &[u8]) -> Result<RpmUrls, String> {
    let config: Value = serde_json::from_slice(body).unwrap();
    let url = |key: &str| {
        config.get("urls").and_then(|urls| urls.get(key)).and_then(Value::as_str).map(str::to_owned)
    };
    RpmServerUrls {
        small_download_url: url("small_download_url"),
        small_https_download_url: url("small_https_download_url"),
        large_download_url: url("large_download_url"),
        large_https_download_url: url("large_https_download_url"),
        upload_url: url("upload_url"),
        https_upload_url: url("https_upload_url"),
    }
    .resolve()
}

#[test]
fn spec_only_keys_resolve() {
    let urls = parse_rpm_config(APPLE_CONFIG.as_bytes()).unwrap();
    assert_eq!(
        urls.small_download_url,
        "https://mensura.cdn-apple.com/api/v1/gm/small"
    );
    assert_eq!(
        urls.large_download_url,
        "https://mensura.cdn-apple.com/api/v1/gm/large"
    );
    assert_eq!(
        urls.upload_url,
        "https://mensura.cdn-apple.com/api/v1/gm/slurp"
    );
}

#[test]
fn https_keys_take_precedence() {
    let body = r#"{"urls": {
        "small_download_url": "http://a/small",
        "small_https_download_url": "https://a/small",
        "large_download_url": "http://a/large",
        "large_https_download_url": "https://a/large",
        "upload_url": "http://a/up",
        "https_upload_url": "https://a/up"
    }}"#;
    let urls = parse_rpm_config(body.as_bytes()).unwrap();
    assert_eq!(urls.small_download_url, "https://a/small");
    assert_eq!(urls.large_download_url, "https://a/large");
    assert_eq!(urls.upload_url, "https://a/up");
}

#[test]
fn missing_url_names_both_keys() {
    let body = r#"{"urls": {
        "small_download_url": "https://a/small",
        "large_https_download_url": "https://a/large"
    }}"#;
    let err = parse_rpm_config(body.as_bytes()).unwrap_err();
    assert!(err.contains("`upload_url`"), "{err}");
    assert!(err.contains("`https_upload_url`"), "{err}");
}

#[test]
fn one_address_of_two_is_chosen() {
    let url = |s: &str| Some(s.to_owned());
    assert_eq!(resolve_url(url("a"), url("b"), "h", "p"), Ok("a".to_owned()));
    assert_eq!(resolve_url(None, url("b"), "h", "p"), Ok("b".to_owned()));
    assert_eq!(
        resolve_url(None, None, "h", "p"),
        Err("rpm config is missing `p` (or `h`)".to_owned())
    );
}

#[test]
fn upload_sizes_are_checked() {
    assert_eq!(parse_upload_bytes_per_request("1048576"), Ok(MIN_UPLOAD_BYTES_PER_REQUEST));
    assert_eq!(parse_upload_bytes_per_request("+2000000"), Ok(2_000_000));
    assert_eq!(
        parse_upload_bytes_per_request("abc"),
        Err("`abc` is not a whole number of bytes".to_owned())
    );
    assert_eq!(
        parse_upload_bytes_per_request("-1").unwrap_err(),
        "`-1` is not a whole number of bytes"
    );
    assert!(parse_upload_bytes_per_request("1048575")
        .unwrap_err()
        .starts_with("1048575 is too small; the minimum is 1048576 (1 MiB)."));
    assert!(parse_upload_bytes_per_request("99999999999999999999999").is_err());
}

#[test]
fn small_uploads_are_warned_about() {
    assert_eq!(warn_on_small_requests(SMALL_UPLOAD_BYTES_PER_REQUEST), None);
    assert!(warn_on_small_requests(3 * 1_048_576)
        .unwrap()
        .starts_with("--upload-max-request-bytes is 3145728 (3 MiB);"));
}

#[test]
fn degraded_results_are_warned_about() {
    assert!(warn_on_degraded_result("download", 0, 1).is_empty());
    let down = warn_on_degraded_result("download", 2, 1);
    assert_eq!(down.len(), 1);
    assert!(down[0].starts_with("download: 2 load-generating connection(s) failed"));
    let up = warn_on_degraded_result("upload", 1, 777);
    assert_eq!(up.len(), 2);
    assert!(up[1].contains("(777)"));
}

#[test]
fn score_upload_waits_five_seconds_unless_told() {
    assert_eq!(upload_timeout_secs(None), 5);
    assert_eq!(upload_timeout_secs(Some("12")), 12);
    assert_eq!(upload_timeout_secs(Some("soon")), 5);
}

#[test]
fn command_line_names_are_mapped() {
    assert_eq!(
        ConnectionType::from(ConnType::H1ClearText),
        ConnectionType::H1 { use_tls: false }
    );
    assert_eq!(ConnectionType::from(ConnType::H1), ConnectionType::H1 { use_tls: true });
    assert_eq!(ConnectionType::from(ConnType::H2), ConnectionType::H2);
    assert_eq!(ConnectionType::from(ConnType::H3), ConnectionType::H3);
    assert_eq!(
        ConnectionErrorPolicy::from(ConnectionErrorPolicyArg::Abort),
        ConnectionErrorPolicy::Abort
    );
}

#[test]
fn responsiveness_arguments_become_a_configuration() {
    let args = RpmArgs::default();
    assert!(args.durations_in_range());
    match args.urls() {
        UrlSource::Given(urls) => assert_eq!(urls.upload_url, args.upload_url),
        other => panic!("{other:?}"),
    }
    let url = Url::parse("https://a.example/x").unwrap();
    let config = args.responsiveness_config(&url, &url, &url, None);
    assert_eq!(config.small_download_url, "https://a.example/x");
    assert_eq!(config.interval_duration, 1000 * NANOS_PER_MILLI);
    assert_eq!(config.std_tolerance, Fraction { num: 5, den: 100 });
    let fetched = RpmArgs { config: Some("https://c".to_owned()), ..RpmArgs::default() };
    assert!(matches!(fetched.urls(), UrlSource::Fetch(at) if at == "https://c"));
    let long = RpmArgs { test_duration_ms: u64::MAX, ..RpmArgs::default() };
    assert!(!long.durations_in_range());
}

#[test]
fn configuration_is_fetched() {
    let uri = Uri::parse("https://a.example/.well-known/nq").unwrap();
    let request = config_request::<u8>(&uri, None).unwrap();
    assert_eq!(request.method, "GET");
    assert_eq!(request.host_with_port, "a.example:443");
    assert!(matches!(request.connection, ConnectionChoice::New(ConnectionType::H2)));
    assert_eq!(config_rejection("https://a", 200), None);
    assert_eq!(
        config_rejection("https://a", 404).as_deref(),
        Some("could not fetch rpm config from: https://a")
    );
}

#[test]
fn upload_has_a_default_size() {
    let mut args = UploadArgs {
        url: "https://a".to_owned(),
        conn_type: ConnType::H2,
        bytes: None,
        headers: vec![],
    };
    assert_eq!(args.size(), 10_000_000);
    args.bytes = Some(7);
    assert_eq!(args.size(), 7);
}

fn latency_config(url: &str, runs: usize, no_tls: bool) -> LatencyConfig {
    LatencyConfig { url: Url::parse(url).unwrap(), runs, no_tls, scoped_headers: None }
}

#[test]
fn latency_requests_carry_scoped_headers_to_allowed_hosts() {
    let mut config = latency_config("https://staging.speed.cloudflare.com/x", 1, false);
    let uri = Uri::parse("https://staging.speed.cloudflare.com/x").unwrap();
    assert!(Latency::new(config, START).request_headers(&uri).is_empty());

    config = latency_config("https://staging.speed.cloudflare.com/x", 1, false);
    config.scoped_headers = cf_access_scoped_headers(Some("abc")).unwrap();
    let latency = Latency::new(config, START);
    let headers = latency.request_headers(&uri);
    assert_eq!(headers.len(), 1);
    assert_eq!(headers.get("cf-access-token").unwrap(), "abc");
    let other = Uri::parse("https://example.com/x").unwrap();
    assert!(latency.request_headers(&other).is_empty());
}

#[test]
fn scores_are_uploaded_unless_disabled() {
    let mut args = RpmArgs::default();
    assert!(args.uploads_scores());
    args.disable_aim_scores = true;
    assert!(!args.uploads_scores());
}

#[test]
fn log_filter_follows_the_verbosity() {
    for (verbosity, filter) in [
        (Verbosity::Off, "error"),
        (Verbosity::Error, "mach=info,error"),
        (Verbosity::Warn, "mach=info,nq_rpm=info,nq_latency=info,nq_core=error"),
        (Verbosity::Info, "mach=info,nq_rpm=info,nq_latency=info,nq_core=info"),
        (Verbosity::Debug, "debug"),
        (Verbosity::Trace, "trace"),
    ] {
        assert_eq!(log_filter(None, verbosity), filter);
        assert_eq!(log_filter(Some("warn".to_owned()), verbosity), "warn");
    }
}

#[test]
fn latency_runs_go_to_their_target() {
    let mut latency = Latency::new(latency_config("https://a.example/x", 2, false), START);
    let target = latency.next_run().unwrap().unwrap();
    assert_eq!(target.host, "a.example");
    assert_eq!(target.host_with_port, "a.example:443");
    assert_eq!(target.conn_type, ConnectionType::H2);

    let mut timing = ConnectionTiming::new(START);
    timing.set_connect(START + 30 * NANOS_PER_MILLI);
    // The time to look up the host does not count.
    let took = latency.record(START, START + 10 * NANOS_PER_MILLI, &timing);
    assert_eq!(took, 20 * NANOS_PER_MILLI);
    assert!(latency.next_run().is_some());
    latency.record(START + 1, START + 1, &timing);
    assert!(latency.next_run().is_none());
    assert_eq!(latency.finish().measurements.values().len(), 2);

    let clear = Latency::new(latency_config("http://a.example/x", 1, true), START);
    let target = clear.next_run().unwrap().unwrap();
    assert_eq!(target.host_with_port, "a.example:80");
    assert_eq!(target.conn_type, ConnectionType::H1 { use_tls: false });
}

#[test]
fn latency_needs_a_host_and_runs() {
    let latency = Latency::new(latency_config("data:text/plain,x", 1, false), START);
    assert_eq!(latency.next_run().unwrap().unwrap_err(), LatencyError::MissingDomain);
    assert_eq!(check_runs(0), Err(LatencyError::NoRuns));
    assert_eq!(check_runs(1), Ok(()));
    assert_eq!(LatencyError::NoRuns.message(), "latency runs must be >= 1");
    assert_eq!(
        LatencyError::MissingDomain.message(),
        "small download url must have a domain"
    );
}

#[test]
fn round_trip_test_has_one_target() {
    let config = RttConfig { url: Url::parse("https://a.example:8443/").unwrap(), runs: 3 };
    let mut rtt = Rtt::new(config, START);
    assert_eq!(rtt.target().unwrap().host_with_port, "a.example:8443");
    let mut timing = ConnectionTiming::new(START);
    timing.set_connect(START + 9);
    rtt.record(START, START, &timing);
    assert_eq!(rtt.finish().median(), Some(9));
}

fn latencies(nanos: &[u64]) -> LatencyResult {
    let mut measurements = TimeSeries::new();
    for (i, n) in nanos.iter().enumerate() {
        measurements.add(START + i as u64, *n);
    }
    LatencyResult { measurements }
}

#[test]
fn jitter_is_the_mean_step() {
    let result = latencies(&[10_000, 30_000, 20_000]);
    assert_eq!(result.median(), Some(20_000));
    assert_eq!(result.jitter(), Some(Ratio { num: 30_000, den: 2 }));
    assert_eq!(result.jitter_micros(), 15);
    let report = result.report().unwrap();
    assert_eq!(report.latency_us, 20);
    assert_eq!(report.jitter_us, 15);
    let steady = latencies(&[7, 7, 7]);
    assert_eq!(steady.jitter().map(|j| j.num), Some(0));
    assert_eq!(latencies(&[5]).jitter_micros(), 0);
    assert_eq!(latencies(&[]).report().unwrap_err(), LatencyError::NoMeasurements);
}

fn proxy(endpoint: &str, headers: Vec<(String, String)>) -> ProxyConfig {
    ProxyConfig::new(Uri::parse(endpoint).unwrap(), ConnectionType::H2, headers, None)
}

#[test]
fn proxy_is_asked_for_a_tunnel() {
    let config = proxy(
        "https://proxy.example:4433/",
        vec![("X-Auth".to_owned(), "secret".to_owned())],
    );
    let (authority, host) = config.endpoint_host().unwrap();
    assert_eq!(authority, "proxy.example:4433");
    assert_eq!(host, "proxy.example");
    let request = config.connect("target.example", "192.0.2.1:443").unwrap();
    assert_eq!(request.method, "CONNECT");
    assert_eq!(request.target.authority.as_deref(), Some("192.0.2.1:443"));
    assert_eq!(request.headers.get("x-auth").unwrap(), "secret");
    assert_eq!(request.headers.get("host").unwrap(), "target.example");
}

#[test]
fn unusable_proxies_are_refused() {
    let nowhere = proxy("/just/a/path", vec![]);
    assert_eq!(nowhere.endpoint_host().unwrap_err(), ProxyError::MissingAuthority);
    let bad_name = proxy("https://p/", vec![("a b".to_owned(), "1".to_owned())]);
    assert_eq!(
        bad_name.connect_headers("t").unwrap_err(),
        ProxyError::InvalidHeaderName
    );
    let bad_value = proxy("https://p/", vec![("a".to_owned(), "1\n".to_owned())]);
    assert_eq!(
        bad_value.connect_headers("t").unwrap_err(),
        ProxyError::InvalidHeaderValue
    );
    let good = proxy("https://p/", vec![]);
    assert_eq!(good.connect("t", "not an address").unwrap_err(), ProxyError::InvalidTarget);
    assert_eq!(
        ProxyError::MissingAuthority.message(),
        "proxy endpoint must have a valid authority"
    );
    assert_eq!(ProxyError::MissingHost.message(), "proxy endpoint most have a host");
}

#[test]
fn saturation_has_one_or_two_sides() {
    let down = Direction::default();
    assert!(down.legs().download && !down.legs().upload);
    assert_eq!(down.urls().upload, down.urls().download);
    let up = Direction::Up { upload_url: "http://u".to_owned() };
    assert!(!up.legs().download && up.legs().upload);
    assert_eq!(up.urls().download, "http://u");
    let both = Direction::Both {
        download_url: "http://d".to_owned(),
        upload_url: "http://u".to_owned(),
    };
    assert!(both.legs().download && both.legs().upload);
    assert_eq!(both.urls().download, "http://d");

    assert_eq!(down.collect(Some(Ok::<u8, u8>(1)), None), Ok((Some(1), None)));
    assert_eq!(down.collect(Some(Err::<u8, u8>(9)), None), Err(9));
    assert_eq!(up.collect(None, Some(Ok::<u8, u8>(2))), Ok((None, Some(2))));
    assert_eq!(both.collect(Some(Err::<u8, u8>(9)), Some(Ok(2))), Ok((None, Some(2))));
}

#[test]
fn saturation_only_loads_the_network() {
    let args = SaturateArgs {
        conn_type: ConnType::H1ClearText,
        direction: Direction::default(),
        duration: 30,
    };
    let url = Url::parse("http://a.example/").unwrap();
    let config = args.config(&url, &url);
    assert!(config.determine_load_only);
    assert_eq!(config.test_duration, 30_000_000_000);
    assert_eq!(config.conn_type, ConnectionType::H1 { use_tls: false });
    assert_eq!(config.max_loaded_connections, 16);
}

#[test]
fn whole_numbers_are_read_back() {
    for n in [0u64, 7, 10, 12345, u64::MAX] {
        assert_eq!(decimal_text(n), n.to_string());
        assert_eq!(parse_whole_number(&decimal_text(n)), Some(n));
    }
    assert_eq!(parse_whole_number(""), None);
    assert_eq!(parse_whole_number("18446744073709551616"), None);
}

#[test]
fn letters_and_blanks_are_told_apart() {
    assert_eq!(to_lower("MiXed-09"), "mixed-09");
    assert_eq!(trim("\t a b \u{3000}\n"), "a b");
    assert_eq!(trim(" \n"), "");
    assert!(same_text("a", "a"));
    assert!(!same_text("a", "b"));
}

#[test]
fn durations_are_shown_to_three_decimals() {
    assert_eq!(pretty_ms(12_034_999), 12_035);
    assert_eq!(pretty_ms(12_034_499), 12_034);
    assert_eq!(pretty_ms(1_999_600), 2_000);
    assert_eq!(pretty_ms(500), 1);
    assert_eq!(pretty_ms(499), 0);
    assert_eq!(pretty_ms(u64::MAX), 18_446_744_073_709_552);
    assert_eq!(thousandths_text(12_034), "12.034");
    assert_eq!(thousandths_text(7), "0.007");
    assert_eq!(pretty_secs(1_999_999_999), 2_000);
    assert_eq!(pretty_secs(1_999_499_999), 1_999);
    assert_eq!(hundredths_text(1_205), "12.05");
}

#[test]
fn latency_measurements_have_defaults() {
    let latency = LatencyConfig::default();
    assert_eq!(latency.runs, 20);
    assert!(!latency.no_tls);
    let rtt = RttConfig::default();
    assert_eq!(rtt.runs, 20);
    for (url, text) in [
        (latency.url, "https://h3.speed.cloudflare.com/__down?bytes=10"),
        (rtt.url, "https://aim.cloudflare.com/responsiveness/api/v1/small"),
    ] {
        let parsed = Url::parse(text).unwrap();
        assert_eq!(url.text, parsed.text);
        assert_eq!(url.scheme, parsed.scheme);
        assert_eq!(url.host, parsed.host);
        assert_eq!(url.port, parsed.port);
        assert_eq!(url.known_port, parsed.known_port);
    }
    assert_eq!(LatencyResult::default().median(), None);
    assert_eq!(RttResult::default().median(), None);
}
