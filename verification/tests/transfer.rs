//! Bodies, clients and the transfers that they make.

use http::{HeaderMap, HeaderValue};
use networkquality::body::{
    BodyEvent, CountingBody, DummyBody, FramePoll, UploadBody, DUMMY_CHUNK_SIZE, UPLOAD_CHUNK_SIZE,
};
use networkquality::client::{
    consume_body, failure_event, hands_over_first, headers_within_limit, is_http_method,
    on_response, on_response_with, rejection, rejection_with, wait_for_finish, Client, ClientError,
    ConnectionChoice, Direction, FinishResult, FinishWait, ResponseAction, ThroughputClient,
    MACH_USER_AGENT,
};
use networkquality::connection::{ConnectionTiming, ConnectionType};
use networkquality::headers::{is_header_name, is_header_value, MAX_HEADERS};
use networkquality::scoped_headers::ScopedHeaders;
use networkquality::time::{Timestamp, NANOS_PER_MILLI, NANOS_PER_SEC};
use networkquality::up_down::{bit_rate, transfer_report, wide_bit_rate, TransferReport};
use networkquality::uri::Uri;

const START: Timestamp = Timestamp { nanos: 0 };

fn uri(text: &str) -> Uri {
    Uri::parse(text).unwrap()
}

type Polled = FramePoll<&'static str, &'static str>;

fn frame(frame: &'static str) -> Polled {
    FramePoll::Frame { frame, len: frame.len() as u64 }
}

#[test]
fn counting_body_reports_from_time_to_time() {
    let (mut body, first) = CountingBody::new(100, START);
    assert_eq!(first, BodyEvent::ByteCount { at: START, total: 0 });
    assert_eq!(body.poll_frame(frame("0123456789"), START + 99).1, vec![]);
    assert_eq!(
        body.poll_frame(frame("01234"), START + 100).1,
        vec![BodyEvent::ByteCount { at: START + 100, total: 15 }]
    );
    assert_eq!(body.poll_frame(frame("0"), START + 150).1, vec![]);
    assert_eq!(body.poll_frame(Polled::Pending, START + 900).1, vec![]);
    assert_eq!(
        body.poll_frame(Polled::End, START + 160).1,
        vec![
            BodyEvent::ByteCount { at: START + 160, total: 16 },
            BodyEvent::Finished { at: START + 160 },
        ]
    );
    assert_eq!(
        body.poll_frame(Polled::End, START + 170).1,
        vec![BodyEvent::ByteCount { at: START + 170, total: 16 }]
    );
    assert!(body.must_stop(true));
    assert!(!body.must_stop(false));
}

#[test]
fn counting_body_hands_frames_on_as_they_are() {
    let (mut body, _) = CountingBody::new(100, START);
    for text in ["some", "", "frames"] {
        match body.poll_frame(frame(text), START).0 {
            FramePoll::Frame { frame, len } => {
                assert_eq!(frame, text);
                assert_eq!(len, text.len() as u64);
            }
            other => panic!("{other:?}"),
        }
    }
    assert!(matches!(body.poll_frame(Polled::Pending, START).0, FramePoll::Pending));
    assert!(matches!(body.poll_frame(Polled::Error("gone"), START).0, FramePoll::Error("gone")));
    assert!(matches!(body.poll_frame(Polled::End, START).0, FramePoll::End));
    assert_eq!(body.total, 10);
}

#[test]
fn broken_body_never_finishes() {
    let (mut body, _) = CountingBody::new(0, START);
    assert_eq!(body.poll_frame(Polled::Error("broken"), START + 1).1, vec![]);
    assert!(!body.sent_finished);
}

#[test]
fn upload_body_sends_exactly_its_size() {
    let size = 2 * UPLOAD_CHUNK_SIZE + 10;
    let mut body = UploadBody::new(size);
    assert_eq!(body.size_hint(), size as u64);
    assert!(!body.is_end_stream());
    let mut sent = 0;
    let mut frames: Vec<Vec<u8>> = Vec::new();
    while let Some(frame) = body.poll_frame() {
        sent += frame.len();
        frames.push(frame);
    }
    assert_eq!(sent, size);
    assert_eq!(frames.len(), 3);
    assert!(body.is_end_stream());
    // The bytes are random: neither all the same nor repeated.
    assert!(frames[0].iter().any(|b| *b != frames[0][0]));
    assert_ne!(frames[0], frames[1]);
}

#[test]
fn empty_upload_ends_at_once() {
    let mut body = UploadBody::new(0);
    assert!(body.is_end_stream());
    assert_eq!(body.poll_frame(), None);
    assert_eq!(body.size_hint(), 0);
}

#[test]
fn dummy_body_repeats_one_byte() {
    let mut body = DummyBody::new(DUMMY_CHUNK_SIZE + 3);
    assert_eq!(body.size_hint(), (DUMMY_CHUNK_SIZE + 3) as u64);
    let first = body.poll_frame().unwrap();
    assert_eq!(first.len(), DUMMY_CHUNK_SIZE);
    assert_eq!(body.poll_frame(), Some(vec![0x55; 3]));
    assert_eq!(body.poll_frame(), None);
}

#[test]
fn download_request_names_its_sender() {
    let request = ThroughputClient::<u8>::download()
        .new_connection(ConnectionType::H2)
        .send(&uri("http://example.com/a"))
        .unwrap();
    assert_eq!(request.method, "GET");
    assert_eq!(request.host, "example.com");
    assert_eq!(request.port, 80);
    assert_eq!(request.host_with_port, "example.com:80");
    assert_eq!(request.headers.get("user-agent").unwrap(), MACH_USER_AGENT);
    assert!(!request.headers.contains_key("content-type"));
    assert!(matches!(request.connection, ConnectionChoice::New(ConnectionType::H2)));
}

#[test]
fn upload_request_says_what_it_sends() {
    let request = ThroughputClient::upload(1000)
        .with_connection(3u8)
        .send(&uri("https://example.com:8443/up"))
        .unwrap();
    assert_eq!(request.method, "POST");
    assert_eq!(request.port, 8443);
    assert_eq!(request.headers.get("content-type").unwrap(), "text/plain");
    assert!(matches!(request.connection, ConnectionChoice::Existing(3)));
}

#[test]
fn request_needs_a_host() {
    let client = ThroughputClient::<u8>::download().new_connection(ConnectionType::H2);
    assert_eq!(client.send(&uri("/a")).unwrap_err(), ClientError::MissingHost);
    let client = Client::<u8>::default().new_connection(ConnectionType::H2);
    assert_eq!(client.send(&uri("/a")).unwrap_err(), ClientError::MissingHost);
    assert_eq!(ClientError::MissingHost.message(), "uri is missing a host");
}

#[test]
fn scoped_headers_stay_with_their_host() {
    let mut secret = HeaderMap::new();
    secret.insert("x-token", HeaderValue::from_static("secret"));
    let scoped = ScopedHeaders::new(secret, vec!["example.com".to_owned()]);
    for (address, attached) in [("https://a.example.com/", true), ("https://example.org/", false)] {
        let request = ThroughputClient::<u8>::download()
            .new_connection(ConnectionType::H2)
            .scoped_headers(Some(scoped.clone()))
            .send(&uri(address))
            .unwrap();
        assert_eq!(request.headers.contains_key("x-token"), attached);
    }
    let mut own = HeaderMap::new();
    own.insert("x-token", HeaderValue::from_static("mine"));
    let request = Client::<u8>::default()
        .new_connection(ConnectionType::H2)
        .headers(own)
        .scoped_headers(Some(scoped))
        .send(&uri("https://example.com/"))
        .unwrap();
    assert_eq!(request.headers.get("x-token").unwrap(), "mine");
}

#[test]
fn client_takes_any_method() {
    let request = Client::default()
        .with_connection(1u8)
        .method("PUT")
        .send(&uri("https://example.com/"))
        .unwrap();
    assert_eq!(request.method, "PUT");
    assert_eq!(request.port, 443);
    let refused = Client::default()
        .with_connection(1u8)
        .method("NOT A METHOD")
        .send(&uri("https://example.com/"));
    assert_eq!(refused.unwrap_err(), ClientError::InvalidMethod);
    assert_eq!(ClientError::InvalidMethod.message(), "invalid HTTP method");
    assert!(is_http_method("GET"));
    assert!(!is_http_method(""));
}

#[test]
fn header_limits_are_kept() {
    assert!(headers_within_limit(&None, &None));
    let mut many = HeaderMap::new();
    for n in 0..MAX_HEADERS - 1 {
        many.append("x-many", HeaderValue::from(n as u64));
    }
    assert!(!headers_within_limit(&Some(many), &None));
    assert!(is_header_name("X-Token"));
    assert!(!is_header_name("x token"));
    assert!(is_header_value(b"plain\tvalue"));
    assert!(!is_header_value(b"two\nlines"));
}

#[test]
fn refused_transfers_are_told_apart() {
    assert_eq!(rejection(Direction::Down, 200), None);
    assert_eq!(rejection(Direction::Down, 299), None);
    assert_eq!(
        rejection(Direction::Up(1), 413).as_deref(),
        Some("upload rejected with status 413 Payload Too Large")
    );
    assert_eq!(
        rejection(Direction::Down, 404).as_deref(),
        Some("download rejected with status 404 Not Found")
    );
    assert_eq!(
        rejection(Direction::Down, 999).as_deref(),
        Some("download rejected with status 999 <unknown status code>")
    );
    assert_eq!(
        rejection_with(Direction::Down, 500, Some("Oops")).as_deref(),
        Some("download rejected with status 500 Oops")
    );
}

#[test]
fn responses_are_read_or_refused() {
    assert!(hands_over_first(Direction::Up(1)));
    assert!(!hands_over_first(Direction::Down));
    assert_eq!(on_response(Direction::Up(1), 200), ResponseAction::Consume);
    assert_eq!(on_response(Direction::Down, 206), ResponseAction::CountAndHandOver);
    assert_eq!(
        on_response(Direction::Up(1), 413),
        ResponseAction::Refuse {
            reason: "upload rejected with status 413 Payload Too Large".to_owned(),
            tell_caller: false,
        }
    );
    assert_eq!(
        on_response_with(Direction::Down, 503, Some("Busy")),
        ResponseAction::Refuse {
            reason: "download rejected with status 503 Busy".to_owned(),
            tell_caller: true,
        }
    );
}

#[test]
fn only_uploads_have_to_be_told_of_failure() {
    assert_eq!(
        failure_event(Direction::Up(1), "no route", START),
        Some(BodyEvent::Failed { at: START, reason: "no route".to_owned() })
    );
    assert_eq!(failure_event(Direction::Down, "no route", START), None);
}

#[test]
fn response_bodies_are_read_to_their_end() {
    assert!(consume_body(frame("0"), false));
    assert!(consume_body(Polled::Pending, false));
    assert!(!consume_body(Polled::End, false));
    assert!(!consume_body(Polled::Error("broken"), false));
    assert!(!consume_body(frame("0"), true));
}

#[test]
fn transfer_ends_with_its_last_count() {
    let at = START + 9;
    let events = vec![
        BodyEvent::ByteCount { at: START, total: 0 },
        BodyEvent::ByteCount { at, total: 70 },
        BodyEvent::Finished { at },
        BodyEvent::ByteCount { at, total: 99 },
    ];
    assert_eq!(wait_for_finish(&events), Ok(FinishResult { total: 70, finished_at: at }));
    assert_eq!(
        wait_for_finish(&vec![
            BodyEvent::ByteCount { at, total: 7 },
            BodyEvent::Failed { at, reason: "gone".to_owned() },
        ]),
        Err("body failed after 7 bytes: gone".to_owned())
    );
    assert_eq!(wait_for_finish(&vec![]), Err("body did not finish".to_owned()));
    let mut wait = FinishWait::new();
    assert_eq!(wait.on_event(Some(&BodyEvent::ByteCount { at, total: 5 })), None);
    assert_eq!(
        wait.on_event(Some(&BodyEvent::Finished { at })),
        Some(Ok(FinishResult { total: 5, finished_at: at }))
    );
}

#[test]
fn bit_rates_are_whole_bits_per_second() {
    assert_eq!(bit_rate(1000, NANOS_PER_SEC), 8000);
    assert_eq!(bit_rate(1, 3 * NANOS_PER_SEC), 2);
    assert_eq!(bit_rate(0, 0), 0);
    assert_eq!(bit_rate(1, 0), u64::MAX);
    assert_eq!(bit_rate(u64::MAX, 1), u64::MAX);
    assert_eq!(wide_bit_rate(-5, NANOS_PER_SEC), 0);
}

#[test]
fn transfer_is_reported_over_its_total_time() {
    let mut timing = ConnectionTiming::new(START);
    timing.set_connect(START + 30 * NANOS_PER_MILLI);
    timing.set_secure(START + 60 * NANOS_PER_MILLI);
    timing.set_dns_lookup(5 * NANOS_PER_MILLI);
    let report = transfer_report(
        &timing,
        START + 100 * NANOS_PER_MILLI,
        START + 1040 * NANOS_PER_MILLI,
        &FinishResult { total: 1000, finished_at: START },
    );
    assert_eq!(
        report,
        TransferReport {
            dns_time_ms: 5,
            time_connect_ms: 30,
            time_secure_ms: 60,
            time_body_ms: 940,
            time_total_ms: 1000,
            bytes_total: 1000,
            throughput: 8000,
        }
    );
}
