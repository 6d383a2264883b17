//! Responsiveness: probes, intervals and reports.

use networkquality::aim::{
    upload_rejection, upload_request, BpsMeasurement, CloudflareAimResults, PacketLoss,
};
use networkquality::body::BodyEvent;
use networkquality::client::{ConnectionChoice, Direction};
use networkquality::connection::{ConnectionTiming, ConnectionType};
use networkquality::exact::Exact;
use networkquality::latency::LatencyResult;
use networkquality::load::{LoadError, LoadReport, LoadedConnection};
use networkquality::report::{
    is_zero, Report, ReportError, RpmReport, RpmReportError,
};
use networkquality::responsiveness::{
    Action, ConnectionErrorPolicy, Event, Responsiveness, ResponsivenessConfig,
    ResponsivenessResult, Tick, DEFAULT_UPLOAD_BYTES_PER_REQUEST,
};
use networkquality::rpm::{
    compute_responsiveness, ForeignProbeResult, ForeignProbeResults, Rpm, SelfProbeResult,
    SelfProbeResults,
};
use networkquality::saturate::{side_report, SideReport};
use networkquality::stats::{Fraction, Ratio, TimeSeries};
use networkquality::time::{Timestamp, NANOS_PER_MILLI, NANOS_PER_SEC};
use networkquality::up_down::Goodput;
use networkquality::uri::Uri;

const START: Timestamp = Timestamp { nanos: 0 };
const PERCENTILE: Fraction = Fraction { num: 95, den: 100 };

fn ms(v: f64) -> u64 {
    (v * NANOS_PER_MILLI as f64) as u64
}

fn value(rpm: Rpm) -> f64 {
    let mean = rpm.mean().unwrap();
    mean.num as f64 / mean.den as f64
}

/// Foreign and self probes with ten identical samples for the given latencies
/// (in milliseconds), and a window that covers all samples.
fn series(
    tcp_ms: f64,
    tls_ms: f64,
    http_f_ms: f64,
    http_l_ms: f64,
) -> (ForeignProbeResults, SelfProbeResults, Timestamp, Timestamp) {
    let start = START;
    let mut foreign = ForeignProbeResults::default();
    let mut selfp = SelfProbeResults::default();

    for i in 0..10u64 {
        let at = start + i * NANOS_PER_MILLI;
        foreign.add(ForeignProbeResult {
            start: at,
            time_connect: ms(tcp_ms),
            time_secure: ms(tls_ms),
            time_body: ms(http_f_ms),
        });
        selfp.add(SelfProbeResult { start: at, time_body: ms(http_l_ms) });
    }

    (foreign, selfp, start, start + 100 * NANOS_PER_MILLI)
}

/// The harmonic combination of both, which is biased towards the slower one.
fn draft03(tcp: f64, tls: f64, http_f: f64, http_l: f64) -> f64 {
    let foreign_sum = tcp + tls + http_f;
    60_000.0 / (foreign_sum / 6.0 + http_l / 2.0)
}

#[test]
fn arithmetic_mean_of_the_two_rpms() {
    // F = (30+30+30)/3 = 30 -> foreign_rpm = 2000
    // L = 30            -> loaded_rpm  = 2000
    // responsiveness    = (2000 + 2000) / 2 = 2000
    let (f, s, from, to) = series(30.0, 30.0, 30.0, 30.0);
    let rpm = value(compute_responsiveness(&f, &s, from, to, PERCENTILE).unwrap());
    assert!((rpm - 2000.0).abs() < 1e-6, "got {rpm}");
}

#[test]
fn equals_draft03_only_when_foreign_equals_loaded() {
    // When F == L the arithmetic and harmonic means coincide.
    let (f, s, from, to) = series(30.0, 30.0, 30.0, 30.0);
    let rpm = value(compute_responsiveness(&f, &s, from, to, PERCENTILE).unwrap());
    assert!((rpm - draft03(30.0, 30.0, 30.0, 30.0)).abs() < 1e-6);
}

#[test]
fn reports_higher_than_draft03_when_rtts_diverge() {
    // Foreign RTT (60ms) slower than loaded RTT (20ms): AM > HM.
    // arithmetic: (60000/60 + 60000/20)/2 = (1000 + 3000)/2 = 2000
    // harmonic: 60000/((180/6) + (20/2)) = 60000/40 = 1500
    let (f, s, from, to) = series(60.0, 60.0, 60.0, 20.0);
    let rpm = value(compute_responsiveness(&f, &s, from, to, PERCENTILE).unwrap());
    let old = draft03(60.0, 60.0, 60.0, 20.0);
    assert!((rpm - 2000.0).abs() < 1e-6, "got {rpm}");
    assert!(rpm > old, "new {rpm} should exceed draft-03 {old}");
}

#[test]
fn returns_none_without_samples() {
    let f = ForeignProbeResults::default();
    let s = SelfProbeResults::default();
    let start = START;
    let to = start + 100 * NANOS_PER_MILLI;
    assert!(compute_responsiveness(&f, &s, start, to, PERCENTILE).is_none());
}

#[test]
fn returns_none_on_zero_rtt() {
    // Degenerate all-zero latencies must not yield a non-finite RPM.
    let (f, s, from, to) = series(0.0, 0.0, 0.0, 0.0);
    assert!(compute_responsiveness(&f, &s, from, to, PERCENTILE).is_none());
}

#[test]
fn responsiveness_in_thousandths_is_rounded_down() {
    let third = Rpm {
        foreign: Ratio { num: 1, den: 3 },
        loaded: Ratio { num: 1, den: 3 },
    };
    assert_eq!(third.milli(), 333);
    // The exact mean of 1/3 and 2/3 is one half.
    let half = Rpm {
        foreign: Ratio { num: 1, den: 3 },
        loaded: Ratio { num: 2, den: 3 },
    };
    assert_eq!(half.milli(), 500);
    let wide = Rpm {
        foreign: Ratio { num: 7, den: u128::MAX },
        loaded: Ratio { num: 9, den: 2 },
    };
    assert_eq!(wide.mean(), None);
    assert_eq!(wide.milli(), 2250);
    // Both halves of 1/1000 and 1/1000 lose a half, which makes one.
    let small = Rpm {
        foreign: Ratio { num: 1 << 60, den: (1 << 60) * 1000 },
        loaded: Ratio { num: 1 << 60, den: (1 << 60) * 1000 },
    };
    assert_eq!(small.milli(), 1);
}

#[test]
fn foreign_probe_counts_each_handshake_by_itself() {
    let mut timing = ConnectionTiming::new(START);
    timing.set_lookup(START + 10);
    timing.set_connect(START + 40);
    timing.set_secure(START + 100);
    timing.set_tls_round_trips(2);
    let probe = ForeignProbeResult::new(&timing, START + 130);
    assert_eq!(
        probe,
        ForeignProbeResult { start: START, time_connect: 30, time_secure: 30, time_body: 130 }
    );
    assert_eq!(
        SelfProbeResult::new(START + 5, START + 9),
        SelfProbeResult { start: START + 5, time_body: 4 }
    );
}

/// A number of thousandths.
fn thousandths(n: u128) -> Exact {
    Exact::quotient(n, 1000)
}

/// How many whole thousandths a number has.
fn milli(n: &Exact) -> u64 {
    n.times(&Exact::whole(1000)).floor()
}

/// A throughput of some bytes per second.
fn per_second(bytes: i128) -> Goodput {
    Goodput { bytes, nanos: NANOS_PER_SEC }
}

/// A result with throughput and loaded latency present, so that the only thing
/// under test is how the responsiveness is handled.
fn result_with_rpm(milli: Option<u128>) -> ResponsivenessResult<u8> {
    let mut result =
        ResponsivenessResult { rpm: milli.map(thousandths), ..Default::default() };
    result.average_goodput_series.add(START, per_second(13_000_000));
    result.self_probe_latencies.add(START, 231_000_000);
    result
}

#[test]
fn absent_rpm_fails_the_report_instead_of_serializing_zero() {
    // A run that measured no responsiveness must not publish a
    // plausible-looking number: zero is indistinguishable from a real
    // measurement of a badly bufferbloated link.
    let err = match RpmReport::from_rpm_result(&result_with_rpm(None)) {
        Ok(_) => panic!("absent rpm must not produce a report"),
        Err(err) => err,
    };
    assert!(
        err.message().contains("no rpm measurements"),
        "unexpected error: {err:#?}"
    );
}

#[test]
fn present_rpm_is_reported_unchanged() {
    let report = RpmReport::from_rpm_result(&result_with_rpm(Some(347_900)))
        .expect("a measured rpm should report");
    let mut map = serde_json::Map::new();
    map.insert("rpm".to_owned(), serde_json::Value::from(report.rpm));
    let json = serde_json::to_string(&map).expect("serializing report");
    assert!(json.contains("\"rpm\":347"), "got {json}");
}

#[test]
fn leg_report_holds_what_was_measured() {
    let mut result = result_with_rpm(Some(347_900));
    result.failed_connections = 2;
    assert_eq!(
        RpmReport::from_rpm_result(&result),
        Ok(RpmReport {
            throughput: 104_000_000,
            loaded_latency_us: 231_000,
            rpm: 347,
            failed_connections: 2,
        })
    );
    assert!(!is_zero(&2));
    assert!(is_zero(&0));
}

#[test]
fn report_names_what_is_missing() {
    let empty: ResponsivenessResult<u8> = ResponsivenessResult::default();
    assert_eq!(RpmReport::from_rpm_result(&empty), Err(RpmReportError::NoThroughput));
    let mut no_latency: ResponsivenessResult<u8> = ResponsivenessResult::default();
    no_latency.average_goodput_series.add(START, per_second(1));
    assert_eq!(
        RpmReport::from_rpm_result(&no_latency),
        Err(RpmReportError::NoLoadedLatency)
    );
    assert_eq!(RpmReportError::NoThroughput.message(), "no throughputs available");
    assert_eq!(
        RpmReportError::NoLoadedLatency.message(),
        "no loaded latency measurements"
    );
}

fn latencies(nanos: &[u64]) -> LatencyResult {
    let mut measurements = TimeSeries::new();
    for (i, n) in nanos.iter().enumerate() {
        measurements.add(START + i as u64, *n);
    }
    LatencyResult { measurements }
}

#[test]
fn whole_report_needs_both_legs() {
    let good = result_with_rpm(Some(1_000_000));
    let bad = result_with_rpm(None);
    let rtt = latencies(&[10_000_000, 12_000_000, 14_000_500]);
    let report = Report::from_rtt_and_rpm_results(&rtt, &good, &good).unwrap();
    assert_eq!(report.unloaded_latency_us, 12_000);
    assert_eq!(report.jitter_us, 2_000);
    assert_eq!(report.download.rpm, 1_000);
    assert_eq!(report.upload, report.download);

    let none = latencies(&[]);
    let missing = Report::from_rtt_and_rpm_results(&none, &good, &good).unwrap_err();
    assert_eq!(missing, ReportError::NoUnloadedLatency);
    assert_eq!(missing.message(), "no unloaded latency measurements");
    let down = Report::from_rtt_and_rpm_results(&rtt, &bad, &good).unwrap_err();
    assert_eq!(down, ReportError::Download(RpmReportError::NoRpm));
    assert!(down.message().starts_with("building download report: no rpm"));
    let up = Report::from_rtt_and_rpm_results(&rtt, &good, &bad).unwrap_err();
    assert_eq!(up, ReportError::Upload(RpmReportError::NoRpm));
    assert!(up.message().starts_with("building upload report: no rpm"));
}

#[test]
fn throughput_is_the_ninetieth_percentile() {
    let mut result: ResponsivenessResult<u8> = ResponsivenessResult::default();
    assert_eq!(result.throughput(), None);
    for n in 1..=10u64 {
        result.average_goodput_series.add(START + n, per_second(n as i128 * 100));
    }
    assert_eq!(result.throughput(), Some(8000));
    result.average_goodput_series.add(START + 11, per_second(2000));
    assert_eq!(result.throughput(), Some(8000));
    // A third of a byte per second, in whole bits.
    let mut small: ResponsivenessResult<u8> = ResponsivenessResult::default();
    small.average_goodput_series.add(START, Goodput { bytes: 1, nanos: 3 * NANOS_PER_SEC });
    assert_eq!(small.throughput(), Some(2));
}

#[test]
fn summary_is_written_for_readers() {
    let mut result: ResponsivenessResult<u8> = ResponsivenessResult::default();
    result.capacity = Some(per_second(13_070_000));
    assert_eq!(result.capacity_rate(), 104_560_000);
    result.rpm = Some(Exact::quotient(695, 2));
    assert_eq!(result.summary_with("some"), "capacity: some/s\n     rpm: 348");
    assert_eq!(result.summary(), "capacity: 104.56 Mbit/s\n     rpm: 348");
    // The responsiveness is rounded once: two thirds make one, 0.4999 none.
    result.rpm = Some(Exact::quotient(2, 3));
    assert_eq!(result.summary_with("x"), "capacity: x/s\n     rpm: 1");
    result.rpm = Some(Exact::quotient(4999, 10_000));
    assert_eq!(result.summary_with("x"), "capacity: x/s\n     rpm: 0");
    result.rpm = None;
    assert_eq!(result.summary_with("x"), "capacity: x/s\n     rpm: 0");
}

#[test]
fn saturation_reports_the_capacity_or_the_throughput() {
    let mut result = result_with_rpm(None);
    result.duration = 1_999_999_999;
    assert_eq!(
        side_report(&result),
        SideReport { capacity: 104_000_000, duration_ms: 2000 }
    );
    result.capacity = Some(Goodput { bytes: 7, nanos: 8 * NANOS_PER_SEC });
    assert_eq!(side_report(&result).capacity, 7);
    // Less than one bit per second counts as none.
    result.capacity = Some(Goodput { bytes: 1, nanos: 9 * NANOS_PER_SEC });
    assert_eq!(side_report(&result).capacity, 104_000_000);
    let nothing: ResponsivenessResult<u8> = ResponsivenessResult::default();
    assert_eq!(side_report(&nothing).capacity, 0);
}

fn load_with(readings: &[(u64, u64)]) -> LoadedConnection<u8> {
    let mut load = LoadedConnection::new(0u8);
    for (at, total) in readings {
        load.update(vec![BodyEvent::ByteCount { at: START + *at, total: *total }], false);
    }
    load
}

#[test]
fn transfer_rates_are_in_bits() {
    let loads = vec![load_with(&[(0, 0), (NANOS_PER_SEC, 1000)]), load_with(&[])];
    assert_eq!(
        BpsMeasurement::from_loaded_connections(&loads),
        vec![
            BpsMeasurement { bytes: 1000, bps: 8000 },
            BpsMeasurement { bytes: 0, bps: 0 },
        ]
    );
    let mut result = result_with_rpm(None);
    result.duration = 2 * NANOS_PER_SEC;
    // 104 Mbit/s over two seconds are 26 MB.
    assert_eq!(
        BpsMeasurement::from_rpm_result(&result),
        BpsMeasurement { bytes: 26_000_000, bps: 104_000_000 }
    );
}

#[test]
fn collected_results_hold_both_legs() {
    let mut down = result_with_rpm(Some(5));
    down.duration = NANOS_PER_SEC;
    down.loaded_connections.push(load_with(&[(0, 0), (NANOS_PER_SEC, 10)]));
    let up = result_with_rpm(Some(9));
    let all = CloudflareAimResults::from_rpm_results(&latencies(&[1_500]), &down, &up, None);
    assert_eq!(all.latency_us, vec![2]);
    assert_eq!(all.download.len(), 2);
    assert_eq!(all.download[0], BpsMeasurement { bytes: 10, bps: 80 });
    assert_eq!(all.upload.len(), 1);
    assert_eq!(all.down_loaded_latency_us, vec![231_000]);
    assert_eq!(all.up_loaded_latency_us, vec![231_000]);
    assert_eq!(all.responsiveness.as_ref().map(milli), Some(5));
    assert_eq!(all.origin, "https://rpm.speed.cloudflare.com");
    assert_eq!(all.packet_loss, PacketLoss { num_messages: 0, loss_hundredths: 0 });
    assert_eq!(PacketLoss::default().num_messages, 1000);
    let given = CloudflareAimResults::from_rpm_results(
        &latencies(&[]),
        &down,
        &up,
        Some("https://a.example".to_owned()),
    );
    assert_eq!(given.origin, "https://a.example");
}

#[test]
fn collected_results_are_posted() {
    let uri = Uri::parse("https://aim.example.com/__log").unwrap();
    let request = upload_request::<u8>("https://a.example", &uri).unwrap();
    assert_eq!(request.method, "POST");
    assert_eq!(request.host, "aim.example.com");
    assert_eq!(request.host_with_port, "aim.example.com:443");
    assert_eq!(request.upload, None);
    assert_eq!(request.headers.get("origin").unwrap(), "https://a.example");
    assert_eq!(request.headers.get("content-type").unwrap(), "application/json");
    assert!(request.headers.contains_key("user-agent"));
    assert!(matches!(request.connection, ConnectionChoice::New(ConnectionType::H2)));
    assert_eq!(upload_rejection(200), None);
    assert_eq!(upload_rejection(500).as_deref(), Some("error uploading aim results"));
}

fn test_of(config: ResponsivenessConfig, download: bool) -> Responsiveness<u8> {
    Responsiveness::new(config, download, START).unwrap()
}

#[test]
fn responsiveness_test_has_defaults() {
    let config = ResponsivenessConfig::default();
    assert_eq!(config.moving_average_distance, 4);
    assert_eq!(config.interval_duration, NANOS_PER_SEC);
    assert_eq!(config.test_duration, 20 * NANOS_PER_SEC);
    assert_eq!(config.max_loaded_connections, 16);
    assert_eq!(config.conn_type, ConnectionType::H2);
    assert_eq!(config.on_connection_error, ConnectionErrorPolicy::Retire);
    assert_eq!(config.load_config().download_url, config.large_download_url);
    assert_eq!(config.load_config().upload_url, config.upload_url);
    let test = test_of(config, false);
    assert_eq!(test.direction, Direction::Up(DEFAULT_UPLOAD_BYTES_PER_REQUEST));
}

#[test]
fn responsiveness_test_begins_with_a_load_and_a_probe() {
    let test = test_of(ResponsivenessConfig::default(), true);
    assert_eq!(test.begin(), vec![Action::OpenLoad, Action::SendForeignProbe]);
    let only_load = ResponsivenessConfig {
        determine_load_only: true,
        ..ResponsivenessConfig::default()
    };
    assert_eq!(test_of(only_load, true).begin(), vec![Action::OpenLoad]);
}

#[test]
fn probes_take_turns() {
    let mut test = test_of(ResponsivenessConfig::default(), true);
    let foreign = ForeignProbeResult { start: START, time_connect: 1, time_secure: 1, time_body: 1 };
    // Without a load there is nothing to send a self probe on.
    assert_eq!(test.on_event(Event::ForeignProbe(foreign)), Action::SendForeignProbe);
    assert_eq!(
        test.on_event(Event::NewLoadedConnection(LoadedConnection::new(3u8))),
        Action::Wait
    );
    assert_eq!(test.on_event(Event::ForeignProbe(foreign)), Action::SendSelfProbe(0));
    let own = SelfProbeResult { start: START, time_body: 1 };
    assert_eq!(test.on_event(Event::SelfProbe(own)), Action::SendForeignProbe);
    assert_eq!(test.on_event(Event::Error), Action::Wait);
    assert_eq!(test.foreign_probe_results.len(), 2);
    assert_eq!(test.self_probe_results.http().values(), vec![1]);
}

#[test]
fn probes_are_small_downloads() {
    let test = test_of(ResponsivenessConfig::default(), true);
    let foreign = test.send_foreign_probe().unwrap();
    assert_eq!(foreign.method, "GET");
    assert_eq!(foreign.host, "h3.speed.cloudflare.com");
    assert!(matches!(foreign.connection, ConnectionChoice::New(ConnectionType::H2)));
    let own = test.send_self_probe(9).unwrap();
    assert!(matches!(own.connection, ConnectionChoice::Existing(9)));
    let load = test.new_load_generating_connection().unwrap();
    assert_eq!(load.request.method, "GET");

    let bad = ResponsivenessConfig {
        small_download_url: "no uri at all".to_owned(),
        ..ResponsivenessConfig::default()
    };
    assert_eq!(
        test_of(bad, true).send_foreign_probe().unwrap_err(),
        LoadError::InvalidUri
    );
}

#[test]
fn ticks_count_intervals() {
    let mut test = test_of(ResponsivenessConfig::default(), true);
    assert_eq!(test.next_interval(), None);
    assert_eq!(test.next_interval(), Some(0));
    assert_eq!(test.next_interval(), Some(1));
}

#[test]
fn test_ends_after_its_duration() {
    let test = test_of(ResponsivenessConfig::default(), true);
    assert!(!test.is_over(START + 20 * NANOS_PER_SEC));
    assert!(test.is_over(START + 20 * NANOS_PER_SEC + 1));
}

#[test]
fn failed_load_aborts_where_asked_to() {
    for (policy, aborts) in [
        (ConnectionErrorPolicy::Retire, false),
        (ConnectionErrorPolicy::Abort, true),
    ] {
        let config = ResponsivenessConfig {
            on_connection_error: policy,
            ..ResponsivenessConfig::default()
        };
        let mut test = test_of(config, true);
        test.on_event(Event::NewLoadedConnection(LoadedConnection::new(1u8)));
        assert!(!test.must_abort());
        let tick = test.on_tick(vec![LoadReport { events: vec![], disconnected: true }]);
        assert_eq!(tick == Tick::Aborted, aborts);
        assert_eq!(test.must_abort(), aborts);
        assert_eq!(test.interval, if aborts { None } else { Some(0) });
    }
}

/// A steady load of 1000 bytes per second, probed at a steady 30 ms.
fn steady() -> Responsiveness<u8> {
    let mut test = test_of(ResponsivenessConfig::default(), true);
    test.on_event(Event::NewLoadedConnection(LoadedConnection::new(1u8)));
    for n in 0..200u64 {
        let at = START + n * 100 * NANOS_PER_MILLI;
        let event = BodyEvent::ByteCount { at, total: n * 100 };
        test.load_generator
            .update(vec![LoadReport { events: vec![event], disconnected: false }]);
        test.on_event(Event::ForeignProbe(ForeignProbeResult {
            start: at,
            time_connect: ms(30.0),
            time_secure: ms(30.0),
            time_body: ms(30.0),
        }));
        test.on_event(Event::SelfProbe(SelfProbeResult { start: at, time_body: ms(30.0) }));
    }
    test
}

#[test]
fn steady_network_settles() {
    let mut test = steady();
    assert!(test.is_in_range(4));
    let end = START + 4 * NANOS_PER_SEC;
    assert_eq!(test.current_average_throughput(end).whole(), 8000);
    let mut done = false;
    for interval in 4..12 {
        assert!(!done);
        let outcome = test.on_interval(interval);
        assert_eq!(outcome.end, START + interval as u64 * NANOS_PER_SEC);
        assert_eq!(outcome.goodput.whole(), 8000);
        assert_eq!(outcome.rpm.milli(), 2_000_000);
        assert!(outcome.open_load);
        done = outcome.done;
        if done {
            break;
        }
    }
    assert!(done);
    assert_eq!(test.capacity.unwrap().whole(), 8000);
    assert_eq!(test.rpm.unwrap().milli(), 2_000_000);
    let result = test.finish(START + 10 * NANOS_PER_SEC, vec![vec![]]);
    assert_eq!(result.rpm.as_ref().map(milli), Some(2_000_000));
    assert_eq!(result.capacity.map(|c| c.whole()), Some(8000));
    assert_eq!(result.throughput(), Some(8000));
    assert_eq!(result.duration, 10 * NANOS_PER_SEC);
    assert_eq!(result.failed_connections, 0);
    assert!(!result.loaded_connections[0].has_failed());
}

#[test]
fn ticks_take_in_reports_and_end_intervals() {
    let mut test = test_of(ResponsivenessConfig::default(), true);
    test.on_event(Event::NewLoadedConnection(LoadedConnection::new(1u8)));
    let report = |n: u64| {
        let at = START + n * NANOS_PER_SEC;
        let event = BodyEvent::ByteCount { at, total: n * 1000 };
        vec![LoadReport { events: vec![event], disconnected: false }]
    };
    assert_eq!(test.on_tick(report(0)), Tick::Began);
    assert_eq!(test.interval, Some(0));
    for n in 0..6usize {
        match test.on_tick(report(n as u64 + 1)) {
            Tick::Ended(outcome) => {
                assert_eq!(outcome.end, START + n as u64 * NANOS_PER_SEC);
                assert!(outcome.open_load);
                assert_eq!(outcome.goodput.whole(), 2000 * n.min(4) as u64);
                assert_eq!(outcome.rpm, Rpm::none());
                assert!(!outcome.done);
            }
            other => panic!("{other:?}"),
        }
        assert_eq!(test.interval, Some(n + 1));
    }
    assert_eq!(test.load_generator.connections()[0].total_bytes_series().sum(), 6000);
}

fn milli_rpm(milli: u128) -> Rpm {
    let ratio = Ratio { num: milli, den: 1000 };
    Rpm { foreign: ratio, loaded: ratio }
}

/// A test that averages over `distance` intervals of three seconds.
fn averaging_over(distance: usize) -> Responsiveness<u8> {
    let config = ResponsivenessConfig {
        moving_average_distance: distance,
        interval_duration: 3 * NANOS_PER_SEC,
        ..ResponsivenessConfig::default()
    };
    let mut test = test_of(config, true);
    test.on_event(Event::NewLoadedConnection(LoadedConnection::new(1u8)));
    test
}

fn count(test: &mut Responsiveness<u8>, interval: u64, total: u64) {
    let at = START + interval * 3 * NANOS_PER_SEC;
    let events = vec![BodyEvent::ByteCount { at, total }];
    test.load_generator.update(vec![LoadReport { events, disconnected: false }]);
}

#[test]
fn throughput_covers_the_configured_intervals() {
    for (distance, bits) in [(1, 3200), (2, 1600), (4, 800)] {
        let mut test = averaging_over(distance);
        count(&mut test, 0, 0);
        count(&mut test, 4, 0);
        count(&mut test, 5, 1200);
        let end = START + 15 * NANOS_PER_SEC;
        let goodput = test.current_average_throughput(end);
        assert_eq!(goodput.bytes, 1200);
        assert_eq!(goodput.nanos, distance as u64 * 3 * NANOS_PER_SEC);
        assert_eq!(goodput.whole(), bits);
        assert!(goodput.exact().less_than(&Exact::whole(bits as i128 + 1)));
    }
}

#[test]
fn settling_looks_at_the_configured_number_of_values() {
    // One value has no deviation, whatever came before it.
    let mut test = averaging_over(1);
    count(&mut test, 0, 0);
    count(&mut test, 1, 100);
    count(&mut test, 2, 1100);
    assert_eq!(test.on_interval(1).goodput.bytes, 100);
    let outcome = test.on_interval(2);
    assert_eq!(outcome.goodput.bytes, 1000);
    assert!(outcome.goodput_settled);
    // Two values that differ that much have not settled.
    let mut test = averaging_over(2);
    count(&mut test, 0, 0);
    count(&mut test, 1, 100);
    count(&mut test, 2, 1100);
    assert!(test.on_interval(1).goodput_settled);
    assert!(!test.on_interval(2).goodput_settled);
}

#[test]
fn results_are_those_that_settled_last() {
    let mut test = averaging_over(2);
    let totals = [0u64, 100, 200, 302, 404, 1404, 1405];
    for (interval, total) in totals.iter().enumerate() {
        count(&mut test, interval as u64, *total);
    }
    let mut goodputs: Vec<f64> = Vec::new();
    let mut latest = None;
    for interval in 0..totals.len() {
        let outcome = test.on_interval(interval);
        goodputs.push(outcome.goodput.bytes as f64);
        let last = &goodputs[goodputs.len().saturating_sub(2)..];
        let mean = last.iter().sum::<f64>() / last.len() as f64;
        let variance = last.iter().map(|g| (g - mean).powi(2)).sum::<f64>() / last.len() as f64;
        let settled = variance.sqrt() < 0.05 * goodputs[interval];
        assert_eq!(outcome.goodput_settled, settled, "interval {interval}");
        if settled {
            latest = Some(outcome.goodput);
        }
        assert_eq!(test.capacity, latest);
        assert_eq!(test.goodput_saturated, latest.is_some());
        assert!(!outcome.done);
    }
    // Steady at first, then all over the place.
    assert_eq!(latest.map(|goodput| goodput.bytes), Some(204));
}

#[test]
fn less_than_a_bit_per_second_settles() {
    let mut test = averaging_over(4);
    count(&mut test, 0, 0);
    count(&mut test, 1, 1);
    let outcome = test.on_interval(1);
    assert_eq!(outcome.goodput.bytes, 1);
    assert_eq!(outcome.goodput.whole(), 0);
    assert!(outcome.goodput_settled);
    assert!(test.goodput_saturated);
    let result = test.finish(START + 3 * NANOS_PER_SEC, vec![vec![]]);
    assert_eq!(result.capacity, Some(Goodput { bytes: 1, nanos: 12 * NANOS_PER_SEC }));
    assert_eq!(result.capacity_rate(), 0);
}

#[test]
fn loads_are_added_up_to_the_limit() {
    let config = ResponsivenessConfig {
        max_loaded_connections: 2,
        ..ResponsivenessConfig::default()
    };
    let mut test = test_of(config, true);
    assert!(test.on_interval(0).open_load);
    test.on_event(Event::NewLoadedConnection(LoadedConnection::new(1u8)));
    assert!(test.on_interval(1).open_load);
    test.on_event(Event::NewLoadedConnection(LoadedConnection::new(2u8)));
    assert!(!test.on_interval(2).open_load);
    assert!(!test.on_interval(3).open_load);
}

#[test]
fn unsettled_test_falls_back_to_the_last_two_seconds() {
    let mut test = test_of(ResponsivenessConfig::default(), true);
    test.measured = true;
    test.rpm_series.add(START + 1 * NANOS_PER_SEC, milli_rpm(9_000));
    test.rpm_series.add(START + 4 * NANOS_PER_SEC, milli_rpm(1_000));
    test.rpm_series.add(START + 5 * NANOS_PER_SEC, milli_rpm(2_001));
    let now = START + 6 * NANOS_PER_SEC;
    // The mean of 1 and 2.001, of which nothing is cut off.
    let mean = test.reported_rpm(now).unwrap();
    assert_eq!(mean.times(&Exact::whole(10_000)).floor(), 15_005);
    let rpm = test.finish(now, vec![]).rpm.unwrap();
    assert_eq!(rpm.times(&Exact::whole(10_000)).floor(), 15_005);
}

#[test]
fn unmeasured_test_has_no_responsiveness() {
    let mut test = test_of(ResponsivenessConfig::default(), true);
    let outcome = test.on_interval(0);
    assert_eq!(outcome.rpm, Rpm::none());
    assert!(!outcome.rpm_settled);
    assert!(!outcome.goodput_settled);
    assert!(!outcome.done);
    assert!(outcome.open_load);
    assert!(test.finish(START + NANOS_PER_SEC, vec![]).rpm.is_none());
}
