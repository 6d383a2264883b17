//! Loads: counting their bytes, and when they end.

use networkquality::body::BodyEvent;
use networkquality::client::{ClientError, ConnectionChoice, Direction};
use networkquality::connection::ConnectionType;
use networkquality::counter::CounterSeries;
use networkquality::load::{
    build_headers, LoadConfig, LoadError, LoadGenerator, LoadReport, LoadState,
    LoadedConnection,
};
use networkquality::relay::{
    watch_tail, CumulativeRelay, ReissueAction, ReissueInput, RelayAction, UploadReissue,
};
use networkquality::time::{Timestamp, NANOS_PER_MILLI};

const AT: Timestamp = Timestamp { nanos: 0 };

/// Feeds a byte count through the relay and returns the total it forwarded.
fn forward_bytes(relay: &mut CumulativeRelay, at: Timestamp, total: u64) -> u64 {
    match relay.on_event(BodyEvent::ByteCount { at, total }) {
        RelayAction::Forward(BodyEvent::ByteCount { total, .. }) => total,
        other => panic!("a ByteCount must be forwarded, got {other:?}"),
    }
}

#[test]
fn totals_accumulate_across_request_boundaries() {
    let at = AT;
    let mut relay = CumulativeRelay::default();

    assert_eq!(forward_bytes(&mut relay, at, 40), 40);
    assert_eq!(forward_bytes(&mut relay, at, 100), 100);
    relay.on_event(BodyEvent::Finished { at });

    // The next request counts from zero again; the consumer must not see
    // that reset.
    assert_eq!(forward_bytes(&mut relay, at, 0), 100);
    assert_eq!(forward_bytes(&mut relay, at, 30), 130);
    relay.on_event(BodyEvent::Finished { at });

    assert_eq!(forward_bytes(&mut relay, at, 5), 135);
    assert_eq!(relay.total(), 135);
}

#[test]
fn request_finished_is_never_forwarded() {
    // A forwarded `Finished` would end the load, and the ramp would retire a
    // connection that is still running.
    let at = AT;
    let mut relay = CumulativeRelay::default();

    assert!(matches!(
        relay.on_event(BodyEvent::Finished { at }),
        RelayAction::RequestFinished
    ));
}

#[test]
fn failure_is_terminal_and_forwarded() {
    let at = AT;
    let mut relay = CumulativeRelay::default();

    let action = relay.on_event(BodyEvent::Failed {
        at,
        reason: "upload rejected with status 413 Payload Too Large".to_owned(),
    });

    match action {
        RelayAction::Fail(BodyEvent::Failed { reason, .. }) => {
            assert!(reason.contains("413"));
        }
        other => panic!("a Failed must be forwarded as terminal, got {other:?}"),
    }
}

// If a request boundary ever let a total reset to zero reach the series, the
// throughput of that window would be negative.
#[test]
fn relayed_totals_never_produce_negative_goodput() {
    let start = AT;
    let step = 50 * NANOS_PER_MILLI;

    let mut relay = CumulativeRelay::default();
    let mut series = CounterSeries::new();
    let mut at = start;

    // Three consecutive 100-byte requests, each reporting in 25-byte steps.
    for _ in 0..3 {
        for total in [0u64, 25, 50, 75, 100] {
            at = at + step;
            let forwarded = forward_bytes(&mut relay, at, total);
            series.add(at, forwarded);
        }
        at = at + step;
        relay.on_event(BodyEvent::Finished { at });
    }

    assert_eq!(relay.total(), 300, "three 100-byte requests");

    let mut window = start;
    while window.nanos < at.nanos {
        let next = window + step;
        let bytes = series.interval_sum(window, next);
        assert!(
            bytes >= 0,
            "negative goodput ({bytes}) in one window -- a request boundary leaked a reset"
        );
        window = next;
    }

    assert_eq!(
        series.interval_sum(start, at),
        300,
        "the whole run must account for every byte exactly once"
    );
}

#[test]
fn open_channel_leaves_transfer_ongoing() {
    let mut state = LoadState::default();
    state.drain(vec![BodyEvent::ByteCount { at: AT, total: 1024 }], false);

    assert!(state.is_ongoing());
    assert!(!state.failed);
}

#[test]
fn disconnect_without_finished_marks_failed() {
    // The body was dropped mid-transfer (e.g. the server rejected the upload
    // with 413), closing the channel without a `Finished` event.
    let mut state = LoadState::default();
    state.drain(vec![BodyEvent::ByteCount { at: AT, total: 10 * 1024 * 1024 }], true);

    assert!(state.failed, "early termination must be flagged");
    assert!(!state.is_ongoing(), "a failed load must not stay ongoing");
}

#[test]
fn finished_then_disconnect_is_not_a_failure() {
    let at = AT;
    // Normal completion: the body is dropped right after finishing. The
    // buffered events must be drained before the disconnect is observed.
    let mut state = LoadState::default();
    state.drain(
        vec![BodyEvent::ByteCount { at, total: 512 }, BodyEvent::Finished { at }],
        true,
    );

    assert!(!state.failed, "a completed transfer must not be a failure");
    assert_eq!(state.finished_at, Some(at));
    assert!(!state.is_ongoing(), "a completed load is no longer ongoing");
}

#[test]
fn teardown_disconnect_is_not_a_failure() {
    // Stopping closes the channel itself; that must not be mistaken for the
    // connection dying, otherwise every run would end "with failures".
    let mut state = LoadState::default();
    state.stopping = true;
    state.drain(vec![], true);

    assert!(!state.failed, "teardown must not be flagged as a failure");
}

#[test]
fn explicit_failed_event_retires_the_load_with_a_reason() {
    // e.g. an upload rejected with 413: the client reports the failure the
    // body itself cannot see.
    let at = AT;
    let mut state = LoadState::default();
    // The channel stays open: the failure must be recognised from the event
    // alone.
    state.drain(
        vec![
            BodyEvent::ByteCount { at, total: 1024 },
            BodyEvent::Failed {
                at,
                reason: "upload rejected with status 413 Payload Too Large".to_owned(),
            },
        ],
        false,
    );

    assert!(state.failed);
    assert!(!state.is_ongoing());
    assert_eq!(
        state.failure_reason.as_deref(),
        Some("upload rejected with status 413 Payload Too Large")
    );
}

#[test]
fn bytes_seen_before_failure_are_retained() {
    // A failed connection still transferred real bytes; goodput accounting
    // must keep them.
    let mut state = LoadState::default();
    state.drain(vec![BodyEvent::ByteCount { at: AT, total: 4096 }], true);

    assert!(state.failed);
    assert_eq!(state.total_bytes_series.sum(), 4096);
}

#[test]
fn ended_transfer_stays_ended() {
    let mut state = LoadState::default();
    state.apply(BodyEvent::Finished { at: AT });
    state.apply(BodyEvent::ByteCount { at: AT, total: 1 });
    state.on_disconnected();
    assert!(!state.is_ongoing());
    assert!(!state.failed);
}

#[test]
fn reissued_upload_reports_one_growing_total() {
    let mut upload = UploadReissue::new(100);
    let at = AT;
    match upload.on_event(Some(BodyEvent::ByteCount { at, total: 100 }), false, at) {
        ReissueAction::Forward(BodyEvent::ByteCount { total, .. }) => assert_eq!(total, 100),
        other => panic!("{other:?}"),
    }
    assert!(matches!(
        upload.on_event(Some(BodyEvent::Finished { at }), false, at),
        ReissueAction::Issue
    ));
    assert!(matches!(upload.on_started(), ReissueAction::Continue));
    match upload.on_event(Some(BodyEvent::ByteCount { at, total: 7 }), false, at) {
        ReissueAction::Forward(BodyEvent::ByteCount { total, .. }) => assert_eq!(total, 107),
        other => panic!("{other:?}"),
    }
    assert_eq!(upload.requests, 2);
}

#[test]
fn reissued_upload_stops_when_it_must() {
    let at = AT;
    let upload = UploadReissue::new(100);
    assert!(matches!(upload.on_shutdown(), ReissueAction::Stop));

    let mut upload = UploadReissue::new(100);
    assert!(matches!(
        upload.on_event(Some(BodyEvent::Finished { at }), true, at),
        ReissueAction::Stop
    ));

    let mut upload = UploadReissue::new(100);
    match upload.on_event(
        Some(BodyEvent::Failed { at, reason: "gone".to_owned() }),
        false,
        at,
    ) {
        ReissueAction::ForwardAndStop(BodyEvent::Failed { reason, .. }) => {
            assert!(reason.contains("gone"))
        }
        other => panic!("{other:?}"),
    }

    let mut upload = UploadReissue::new(100);
    match upload.on_event(None, false, at) {
        ReissueAction::ForwardAndStop(BodyEvent::Failed { reason, .. }) => {
            assert_eq!(reason, "upload terminated early after 1 request(s), 0 bytes")
        }
        other => panic!("{other:?}"),
    }
}

#[test]
fn reissue_failures_end_the_load_with_a_reason() {
    let at = AT;
    let upload = UploadReissue::new(100);
    for (action, expected) in [
        (upload.on_issue_failed("boom", at), "could not start upload request 1: boom"),
        (upload.on_start_failed("boom", at), "upload request 1 failed to start: boom"),
    ] {
        match action {
            ReissueAction::ForwardAndStop(BodyEvent::Failed { reason, .. }) => {
                assert_eq!(reason, expected)
            }
            other => panic!("{other:?}"),
        }
    }
}

#[test]
fn tail_of_a_request_keeps_failures_only() {
    assert!(matches!(
        watch_tail(BodyEvent::Failed { at: AT, reason: "late".to_owned() }),
        Some(BodyEvent::Failed { .. })
    ));
    assert!(watch_tail(BodyEvent::Finished { at: AT }).is_none());
    // Of a series the first failure ends the watch.
    let failed = |reason: &str| BodyEvent::Failed { at: AT, reason: reason.to_owned() };
    let events = vec![
        BodyEvent::ByteCount { at: AT, total: 1 },
        BodyEvent::Finished { at: AT },
        failed("first"),
        failed("second"),
    ];
    assert_eq!(events.into_iter().find_map(watch_tail), Some(failed("first")));
}

#[test]
fn every_finished_request_leads_to_another() {
    let at = AT;
    let mut upload = UploadReissue::new(100);
    let (mut issued, mut totals) = (0u64, vec![]);
    for _ in 0..3 {
        for total in [40, 100] {
            let event = Some(BodyEvent::ByteCount { at, total });
            match upload.advance(ReissueInput::Event(event), false, at) {
                ReissueAction::Forward(BodyEvent::ByteCount { total, .. }) => totals.push(total),
                other => panic!("{other:?}"),
            }
        }
        let end = ReissueInput::Event(Some(BodyEvent::Finished { at }));
        assert!(matches!(upload.advance(end, false, at), ReissueAction::Issue));
        issued += 1;
        assert!(matches!(
            upload.advance(ReissueInput::Started, false, at),
            ReissueAction::Continue
        ));
    }
    assert_eq!(totals, vec![40, 100, 140, 200, 240, 300]);
    assert_eq!(upload.requests, issued + 1);
    assert_eq!(upload.bound, 100);
    for (input, expected) in [
        (
            ReissueInput::Event(None),
            "upload terminated early after 4 request(s), 300 bytes",
        ),
        (
            ReissueInput::NotIssued("boom".to_owned()),
            "could not start upload request 4: boom",
        ),
        (
            ReissueInput::NotStarted("boom".to_owned()),
            "upload request 4 failed to start: boom",
        ),
    ] {
        match upload.advance(input, false, at) {
            ReissueAction::ForwardAndStop(BodyEvent::Failed { reason, .. }) => {
                assert_eq!(reason, expected)
            }
            other => panic!("{other:?}"),
        }
    }
    assert!(matches!(upload.advance(ReissueInput::Shutdown, false, at), ReissueAction::Stop));
}

fn config(headers: Vec<(String, String)>) -> LoadConfig {
    LoadConfig {
        headers,
        scoped_headers: None,
        download_url: "https://example.com/down".to_owned(),
        upload_url: "https://example.com/up".to_owned(),
    }
}

fn header(name: &str, value: &str) -> (String, String) {
    (name.to_owned(), value.to_owned())
}

#[test]
fn load_headers_are_checked() {
    let built = build_headers(&vec![header("X-One", "1"), header("x-two", "2")]).unwrap();
    assert_eq!(built.get("x-one").unwrap(), "1");
    assert_eq!(built.get("x-two").unwrap(), "2");
    assert_eq!(
        build_headers(&vec![header("bad name", "1")]).unwrap_err(),
        LoadError::InvalidHeaderName
    );
    assert_eq!(
        build_headers(&vec![header("x-one", "a\nb")]).unwrap_err(),
        LoadError::InvalidHeaderValue
    );
}

#[test]
fn download_load_is_planned() {
    let generator: LoadGenerator<u8> =
        LoadGenerator::new(config(vec![header("x-one", "1")])).unwrap();
    assert!(generator.within_limit());
    let plan = generator.new_loaded_connection(Direction::Down, ConnectionType::H2).unwrap();
    assert_eq!(plan.request.method, "GET");
    assert_eq!(plan.request.host, "example.com");
    assert_eq!(plan.request.port, 443);
    assert_eq!(plan.request.headers.get("x-one").unwrap(), "1");
    assert!(matches!(
        plan.request.connection,
        ConnectionChoice::New(ConnectionType::H2)
    ));
    assert!(plan.upload.is_none());
}

#[test]
fn upload_load_is_planned_to_be_reissued() {
    let generator: LoadGenerator<u8> = LoadGenerator::new(config(vec![])).unwrap();
    let plan = generator
        .new_loaded_connection(Direction::Up(1000), ConnectionType::H2)
        .unwrap();
    assert_eq!(plan.request.method, "POST");
    let (reissue, template) = plan.upload.unwrap();
    assert_eq!(reissue.bound, 1000);
    let next = template.issue(5u8).unwrap();
    assert_eq!(next.method, "POST");
    assert_eq!(next.host, "example.com");
    assert_eq!(next.host_with_port, "example.com:443");
    assert_eq!(next.upload, Some(1000));
    assert!(matches!(next.connection, ConnectionChoice::Existing(5)));
}

#[test]
fn unusable_load_addresses_are_refused() {
    let mut bad = config(vec![]);
    bad.download_url = "not a uri".to_owned();
    bad.upload_url = "/no/host".to_owned();
    let generator: LoadGenerator<u8> = LoadGenerator::new(bad).unwrap();
    assert_eq!(
        generator
            .new_loaded_connection(Direction::Down, ConnectionType::H2)
            .unwrap_err(),
        LoadError::InvalidUri
    );
    assert_eq!(
        generator
            .new_loaded_connection(Direction::Up(1), ConnectionType::H2)
            .unwrap_err(),
        LoadError::Client(ClientError::MissingHost)
    );
}

#[test]
fn random_connection_is_an_ongoing_one() {
    let mut generator: LoadGenerator<u8> = LoadGenerator::new(config(vec![])).unwrap();
    assert_eq!(generator.random_connection(), None);
    for n in 0..4u8 {
        generator.push(LoadedConnection::new(n));
    }
    generator.update(vec![
        LoadReport { events: vec![BodyEvent::Finished { at: AT }], disconnected: false },
        LoadReport { events: vec![], disconnected: false },
        LoadReport { events: vec![], disconnected: true },
        LoadReport { events: vec![], disconnected: false },
    ]);
    assert_eq!(generator.count_loads(), 2);
    assert_eq!(generator.count_failed_loads(), 1);
    assert_eq!(generator.ongoing_loads(), vec![1, 3]);
    let mut seen = [false; 4];
    for _ in 0..200 {
        seen[generator.random_connection().unwrap()] = true;
    }
    assert_eq!(seen, [false, true, false, true]);
    assert_eq!(generator.connections().len(), 4);
    assert_eq!(generator.into_connections().len(), 4);
}

#[test]
fn stopped_connection_has_not_failed() {
    let mut load = LoadedConnection::new(1u8);
    load.update(vec![BodyEvent::ByteCount { at: AT, total: 10 }], false);
    assert!(load.is_ongoing());
    load.stop(vec![BodyEvent::ByteCount { at: AT + 1, total: 20 }]);
    assert!(!load.has_failed());
    assert_eq!(load.failure_reason(), None);
    assert_eq!(load.total_bytes_series().sum(), 20);
}
