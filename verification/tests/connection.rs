//! Connections: their types, timing and requests.

use http::{HeaderMap, HeaderValue};
use networkquality::connection::{
    normalize_h1_request, tls_round_trips_of, ConnectionManager, ConnectionPlan, ConnectionTiming,
    ConnectionType, EstablishedConnection, TlsError, TlsSettings, TlsVersion,
};
use networkquality::connections::{ConnectionEstablished, Connections, NewConnectionArgs};
use networkquality::data_channel::SocketAddress;
use networkquality::time::{Timestamp, NANOS_PER_MILLI};
use networkquality::uri::{Uri, Url};

const START: Timestamp = Timestamp { nanos: 0 };

fn ms(n: u64) -> u64 {
    n * NANOS_PER_MILLI
}

/// A timing whose phases complete at the given millisecond offsets from the
/// start.
fn timing_at(lookup_ms: u64, connect_ms: u64, secure_ms: u64, application_ms: u64) -> ConnectionTiming {
    let mut t = ConnectionTiming::new(START);
    t.set_lookup(START + ms(lookup_ms));
    t.set_connect(START + ms(connect_ms));
    t.set_secure(START + ms(secure_ms));
    t.set_application(START + ms(application_ms));
    t
}

#[test]
fn independent_phase_deltas() {
    // Without lookup: connect at 30ms, secure at 60ms, application at 62ms.
    // Each network phase is ~30ms (1 RTT).
    let t = timing_at(0, 30, 60, 62);
    assert_eq!(t.tcp_handshake(), ms(30));
    assert_eq!(t.tls_handshake(), ms(30));
}

#[test]
fn tcp_handshake_excludes_dns_lookup() {
    // Lookup done at 10ms, connect at 40ms: the TCP handshake is connect -
    // lookup = 30ms, not 40ms.
    let t = timing_at(10, 40, 70, 72);
    assert_eq!(t.tcp_handshake(), ms(30));
    assert_eq!(t.tls_handshake(), ms(30));
}

#[test]
fn tls_handshake_saturates_for_quic_like_zero_secure() {
    // QUIC/H3: the secure time stays 0 while the connect time is set. Must not
    // underflow.
    let mut t = ConnectionTiming::new(START);
    t.set_connect(START + ms(30));
    // secure left at zero
    assert_eq!(t.tls_handshake(), 0);
}

#[test]
fn tls_round_trips_defaults_to_one_and_clamps() {
    let t = ConnectionTiming::new(START);
    assert_eq!(t.tls_round_trips(), 1);

    let mut t = t;
    t.set_tls_round_trips(2);
    assert_eq!(t.tls_round_trips(), 2);

    // A zero round-trip count would produce a divide-by-zero downstream;
    // it is clamped to 1.
    t.set_tls_round_trips(0);
    assert_eq!(t.tls_round_trips(), 1);
}

#[test]
fn timing_returns_what_was_set() {
    let mut t = timing_at(1, 2, 3, 4);
    t.set_dns_lookup(ms(9));
    assert_eq!(t.start(), START);
    assert_eq!(t.time_lookup(), ms(1));
    assert_eq!(t.time_connect(), ms(2));
    assert_eq!(t.time_secure(), ms(3));
    assert_eq!(t.time_application(), ms(4));
    assert_eq!(t.dns_time(), ms(9));
}

#[test]
fn older_tls_takes_two_round_trips() {
    assert_eq!(tls_round_trips_of(Some(TlsVersion::Tls12)), 2);
    assert_eq!(tls_round_trips_of(Some(TlsVersion::Tls13)), 1);
    assert_eq!(tls_round_trips_of(Some(TlsVersion::Other)), 1);
    assert_eq!(tls_round_trips_of(None), 1);
}

#[test]
fn connection_types_negotiate_their_protocol() {
    assert_eq!(ConnectionType::h1().alpn(), Ok(b"\x08http/1.1".to_vec()));
    assert_eq!(ConnectionType::h2().alpn(), Ok(b"\x02h2".to_vec()));
    assert_eq!(ConnectionType::h3().alpn(), Ok(b"\x02h3".to_vec()));
    assert_eq!(ConnectionType::h1_clear_text().alpn(), Err(TlsError::TlsDisabled));
    assert!(!TlsError::TlsDisabled.message().is_empty());
}

#[test]
fn connection_plans_follow_the_type() {
    assert_eq!(
        ConnectionType::h1_clear_text().plan(),
        ConnectionPlan { tls: false, http2: false }
    );
    assert_eq!(ConnectionType::h1().plan(), ConnectionPlan { tls: true, http2: false });
    assert_eq!(ConnectionType::h2().plan(), ConnectionPlan { tls: true, http2: true });
}

#[test]
fn certificates_are_checked_unless_told_otherwise() {
    let mut settings = TlsSettings::default();
    assert!(!settings.insecure_tls());
    settings.set_insecure_tls(true);
    assert!(settings.insecure_tls());
}

#[test]
fn established_connection_can_lose_its_sender() {
    let mut connection = EstablishedConnection::new(timing_at(0, 1, 2, 3), 7u8);
    assert_eq!(connection.timing().time_connect(), ms(1));
    assert_eq!(connection.send_request(), Some(&mut 7u8));
    connection.drop_send_request();
    assert_eq!(connection.send_request(), None);
}

#[test]
fn manager_counts_connections() {
    let mut manager: ConnectionManager<u8> = ConnectionManager::default();
    assert!(manager.is_empty());
    manager.push(1);
    assert_eq!(manager.len(), 1);
    assert!(!manager.is_empty());
}

#[test]
fn connections_are_found_by_their_identifier() {
    let mut connections = Connections::default();
    assert_eq!(connections.len(), 0);
    let first = connections.insert(70).unwrap();
    let second = connections.insert(80).unwrap();
    assert_ne!(first, second);
    assert_eq!(connections.len(), 2);
    assert_eq!(connections.send_request(first), Some(70));
    assert_eq!(connections.send_request(second), Some(80));
    assert_eq!(Connections::default().send_request(first), None);
    let established = ConnectionEstablished { id: first, timing: timing_at(0, 1, 2, 3) };
    assert_eq!(established.timing.time_secure(), ms(2));
}

#[test]
fn new_connections_name_their_protocol() {
    let to = SocketAddress::V4 { ip: 0x7f000001, port: 443 };
    let domain = || "a.example".to_owned();
    assert_eq!(
        NewConnectionArgs::h1(START, to, domain()).conn_type,
        ConnectionType::H1 { use_tls: true }
    );
    assert_eq!(NewConnectionArgs::h2(START, to, domain()).conn_type, ConnectionType::H2);
    let args = NewConnectionArgs::h3(START, to, domain());
    assert_eq!(args.conn_type, ConnectionType::H3);
    assert_eq!(args.remote_addr, to);
    assert_eq!(args.domain, "a.example");
}

#[test]
fn h1_request_gets_origin_form_and_host() {
    let uri = Uri::parse("https://example.com:8443/a/b?c=d").unwrap();
    let mut headers = HeaderMap::new();
    let target = normalize_h1_request(&uri, &mut headers).unwrap();
    assert_eq!(target.path_and_query.as_deref(), Some("/a/b?c=d"));
    assert!(target.scheme.is_none());
    assert!(target.authority.is_none());
    assert_eq!(headers.get("host").unwrap(), "example.com:8443");
}

#[test]
fn h1_request_keeps_its_own_host() {
    let uri = Uri::parse("https://example.com/").unwrap();
    let mut headers = HeaderMap::new();
    headers.insert("host", HeaderValue::from_static("other.example"));
    normalize_h1_request(&uri, &mut headers);
    assert_eq!(headers.get("host").unwrap(), "other.example");
}

#[test]
fn uris_are_taken_apart() {
    let uri = Uri::parse("http://Example.com:81/p?q").unwrap();
    assert_eq!(uri.scheme.as_deref(), Some("http"));
    assert_eq!(uri.authority.as_deref(), Some("Example.com:81"));
    assert_eq!(uri.host.as_deref(), Some("Example.com"));
    assert_eq!(uri.port, Some(81));
    assert_eq!(uri.path_and_query.as_deref(), Some("/p?q"));
    assert!(Uri::parse("not a uri").is_none());
    assert_eq!(uri.copy().host.as_deref(), Some("Example.com"));
}

#[test]
fn urls_are_taken_apart() {
    let url = Url::parse("https://EXAMPLE.com/a").unwrap();
    assert_eq!(url.text, "https://example.com/a");
    assert_eq!(url.scheme, "https");
    assert_eq!(url.host.as_deref(), Some("example.com"));
    assert_eq!(url.port, None);
    assert_eq!(url.known_port, Some(443));
    assert_eq!(Url::parse("http://a:8080/").unwrap().port, Some(8080));
    assert!(Url::parse("/relative").is_none());
}
