//! Connections: their kinds, how they are set up, and how long that took.

use std::collections::VecDeque;

use http::{HeaderMap, HeaderValue};
use vstd::prelude::*;

use crate::headers;
use crate::text;
use crate::time;
use crate::time::{Nanos, Timestamp};
use crate::uri;
use crate::uri::Uri;

verus! {

/// The application protocol of a connection.
#[derive(Debug, Clone, Copy, PartialEq, Eq, Structural)]
pub enum ConnectionType {
    /// An HTTP/1.1 connection. To disable TLS, set `use_tls: false`.
    H1 {
        /// Whether the connection is secured.
        use_tls: bool,
    },
    /// An HTTP/2 connection.
    H2,
    /// An HTTP/3 connection.
    H3,
}

/// Why a connection cannot be secured.
#[derive(Debug, Clone, Copy, PartialEq, Eq, Structural)]
pub enum TlsError {
    /// The connection type asks for clear text.
    TlsDisabled,
}

impl TlsError {
    /// The error as text.
    pub fn message(&self) -> (r: String)
        ensures
            r@ == "cannot create tls connection if `use_tls: false`"@,
    {
        String::from_str("cannot create tls connection if `use_tls: false`")
    }
}

/// What has to be done on a fresh byte stream to make it a connection.
#[derive(Debug, Clone, Copy, PartialEq, Eq, Structural)]
pub struct ConnectionPlan {
    /// Secure the stream first.
    pub tls: bool,
    /// Speak HTTP/2, otherwise HTTP/1.1.
    pub http2: bool,
}

/// The protocol list that offers `http/1.1`.
pub open spec fn alpn_http1() -> Seq<u8> {
    seq![8u8, 104u8, 116u8, 116u8, 112u8, 47u8, 49u8, 46u8, 49u8]
}

/// The protocol list that offers `h2` or `h3`.
pub open spec fn alpn_h(version: u8) -> Seq<u8> {
    seq![2u8, 104u8, version]
}

impl ConnectionType {
    /// HTTP/1.1 without TLS.
    pub fn h1_clear_text() -> (r: ConnectionType)
        ensures
            r == (ConnectionType::H1 { use_tls: false }),
    {
        ConnectionType::H1 { use_tls: false }
    }

    /// HTTP/1.1 over TLS.
    pub fn h1() -> (r: ConnectionType)
        ensures
            r == (ConnectionType::H1 { use_tls: true }),
    {
        ConnectionType::H1 { use_tls: true }
    }

    /// HTTP/2.
    pub fn h2() -> (r: ConnectionType)
        ensures
            r == ConnectionType::H2,
    {
        ConnectionType::H2
    }

    /// HTTP/3.
    pub fn h3() -> (r: ConnectionType)
        ensures
            r == ConnectionType::H3,
    {
        ConnectionType::H3
    }

    /// The protocols offered in the TLS handshake: one name, after its length.
    pub fn alpn(&self) -> (r: Result<Vec<u8>, TlsError>)
        ensures
            match *self {
                ConnectionType::H1 { use_tls: false } => r == Err::<Vec<u8>, TlsError>(
                    TlsError::TlsDisabled,
                ),
                ConnectionType::H1 { use_tls: true } => r is Ok && r->Ok_0@ == alpn_http1(),
                ConnectionType::H2 => r is Ok && r->Ok_0@ == alpn_h(50),
                ConnectionType::H3 => r is Ok && r->Ok_0@ == alpn_h(51),
            },
    {
        match self {
            ConnectionType::H1 { use_tls } => {
                if !*use_tls {
                    return Err(TlsError::TlsDisabled);
                }
                let protos: Vec<u8> = vec![
                    8u8,
                    104u8,
                    116u8,
                    116u8,
                    112u8,
                    47u8,
                    49u8,
                    46u8,
                    49u8,
                ];
                assert(protos@ =~= alpn_http1());
                Ok(protos)
            },
            ConnectionType::H2 => {
                let protos: Vec<u8> = vec![2u8, 104u8, 50u8];
                assert(protos@ =~= alpn_h(50));
                Ok(protos)
            },
            ConnectionType::H3 => {
                let protos: Vec<u8> = vec![2u8, 104u8, 51u8];
                assert(protos@ =~= alpn_h(51));
                Ok(protos)
            },
        }
    }

    /// How to set up a connection of this type. HTTP/3 does not run on a byte
    /// stream.
    pub fn plan(&self) -> (r: ConnectionPlan)
        requires
            !(*self is H3),
        ensures
            r == (ConnectionPlan {
                tls: *self != (ConnectionType::H1 { use_tls: false }),
                http2: *self == ConnectionType::H2,
            }),
    {
        match self {
            ConnectionType::H1 { use_tls } => ConnectionPlan { tls: *use_tls, http2: false },
            _ => ConnectionPlan { tls: true, http2: true },
        }
    }
}

/// The version of TLS that a handshake settled on.
#[derive(Debug, Clone, Copy, PartialEq, Eq, Structural)]
pub enum TlsVersion {
    Tls12,
    Tls13,
    Other,
}

/// How many round trips a TLS handshake takes: one with TLS 1.3, two with TLS
/// 1.2, and one where the version is not known.
pub fn tls_round_trips_of(version: Option<TlsVersion>) -> (r: u32)
    ensures
        r == (if version == Some(TlsVersion::Tls12) { 2u32 } else { 1u32 }),
{
    match version {
        Some(TlsVersion::Tls13) => 1,
        Some(TlsVersion::Tls12) => 2,
        _ => 1,
    }
}

/// Whether peers have to prove who they are. They do, unless verification was
/// switched off to test against a server with a self-signed certificate.
#[derive(Debug, Clone, Copy, PartialEq, Eq, Structural)]
pub struct TlsSettings {
    pub insecure: bool,
}

impl Default for TlsSettings {
    fn default() -> (r: Self)
        ensures
            r == (TlsSettings { insecure: false }),
    {
        TlsSettings { insecure: false }
    }
}

impl TlsSettings {
    /// Switches the verification of certificates off or on.
    pub fn set_insecure_tls(&mut self, insecure: bool)
        ensures
            *final(self) == (TlsSettings { insecure }),
    {
        self.insecure = insecure;
    }

    /// Whether the verification of certificates is switched off.
    pub fn insecure_tls(&self) -> (r: bool)
        ensures
            r == self.insecure,
    {
        self.insecure
    }
}

/// How long the phases of setting up a connection took. All lengths count from
/// the start of the connection.
#[derive(Debug, Clone, Copy, PartialEq, Eq, Structural, PartialOrd, Ord)]
pub struct ConnectionTiming {
    /// When the connection was started.
    start: Timestamp,
    /// How long it took to resolve the host.
    time_lookup: Nanos,
    /// How long it took until the transport was connected.
    time_connect: Nanos,
    /// How long it took until the stream was secured. Zero for QUIC, where the
    /// transport handshake implies a secured connection.
    time_secure: Nanos,
    /// How long it took until the application protocol was set up.
    time_application: Nanos,
    /// How long the DNS lookup took.
    dns_time: Nanos,
    /// Round trips of the TLS handshake.
    tls_round_trips: u32,
}

/// The phases of a connection setup.
pub struct Phases {
    pub start: Timestamp,
    pub lookup: int,
    pub connect: int,
    pub secure: int,
    pub application: int,
    pub dns: int,
    pub tls_round_trips: int,
}

impl View for ConnectionTiming {
    type V = Phases;

    closed spec fn view(&self) -> Phases {
        Phases {
            start: self.start,
            lookup: self.time_lookup as int,
            connect: self.time_connect as int,
            secure: self.time_secure as int,
            application: self.time_application as int,
            dns: self.dns_time as int,
            tls_round_trips: self.tls_round_trips as int,
        }
    }
}

/// The difference of two lengths of time, zero where it would be negative.
pub open spec fn saturating_difference(a: int, b: int) -> int {
    if a < b {
        0
    } else {
        a - b
    }
}

/// What is left of a length of time leads from the part that is taken off to the
/// whole. Nothing is left where the part is as long as the whole, or longer.
pub proof fn difference_leads_to_the_whole(whole: int, part: int)
    ensures
        part <= whole ==> part + saturating_difference(whole, part) == whole,
        whole <= part ==> saturating_difference(whole, part) == 0,
{
}

impl ConnectionTiming {
    #[verifier::type_invariant]
    spec fn at_least_one_round_trip(self) -> bool {
        self.tls_round_trips >= 1
    }

    /// A timing that starts now: no phase is complete, and the TLS handshake is
    /// taken to need one round trip.
    pub fn new(start: Timestamp) -> (r: Self)
        ensures
            r@ == (Phases {
                start,
                lookup: 0,
                connect: 0,
                secure: 0,
                application: 0,
                dns: 0,
                tls_round_trips: 1,
            }),
    {
        ConnectionTiming {
            start,
            time_lookup: 0,
            time_connect: 0,
            time_secure: 0,
            time_application: 0,
            dns_time: 0,
            tls_round_trips: 1,
        }
    }

    /// The host was resolved.
    pub fn set_lookup(&mut self, at: Timestamp)
        ensures
            final(self)@ == (Phases { lookup: time::span(old(self)@.start, at), ..old(self)@ }),
    {
        proof {
            use_type_invariant(&*self);
        }
        let took: Nanos = at.duration_since(self.start);
        self.time_lookup = took;
    }

    /// The transport was connected.
    pub fn set_connect(&mut self, at: Timestamp)
        ensures
            final(self)@ == (Phases { connect: time::span(old(self)@.start, at), ..old(self)@ }),
    {
        proof {
            use_type_invariant(&*self);
        }
        let took: Nanos = at.duration_since(self.start);
        self.time_connect = took;
    }

    /// The stream was secured.
    pub fn set_secure(&mut self, at: Timestamp)
        ensures
            final(self)@ == (Phases { secure: time::span(old(self)@.start, at), ..old(self)@ }),
    {
        proof {
            use_type_invariant(&*self);
        }
        let took: Nanos = at.duration_since(self.start);
        self.time_secure = took;
    }

    /// The application protocol was set up.
    pub fn set_application(&mut self, at: Timestamp)
        ensures
            final(self)@ == (Phases {
                application: time::span(old(self)@.start, at),
                ..old(self)@
            }),
    {
        proof {
            use_type_invariant(&*self);
        }
        let took: Nanos = at.duration_since(self.start);
        self.time_application = took;
    }

    /// Sets how long the DNS lookup took.
    pub fn set_dns_lookup(&mut self, duration: Nanos)
        ensures
            final(self)@ == (Phases { dns: duration as int, ..old(self)@ }),
    {
        proof {
            use_type_invariant(&*self);
        }
        self.dns_time = duration;
    }

    /// Sets how many round trips the TLS handshake took, at least one.
    pub fn set_tls_round_trips(&mut self, round_trips: u32)
        ensures
            final(self)@ == (Phases {
                tls_round_trips: if round_trips == 0 {
                    1
                } else {
                    round_trips as int
                },
                ..old(self)@
            }),
    {
        let at_least_one: u32 = if round_trips == 0 {
            1
        } else {
            round_trips
        };
        self.tls_round_trips = at_least_one;
    }

    /// When the connection was started.
    pub fn start(&self) -> (r: Timestamp)
        ensures
            r == self@.start,
    {
        self.start
    }

    /// How long it took to resolve the host.
    pub fn time_lookup(&self) -> (r: Nanos)
        ensures
            r == self@.lookup,
    {
        self.time_lookup
    }

    /// How long it took until the transport was connected.
    pub fn time_connect(&self) -> (r: Nanos)
        ensures
            r == self@.connect,
    {
        self.time_connect
    }

    /// How long the DNS lookup took.
    pub fn dns_time(&self) -> (r: Nanos)
        ensures
            r == self@.dns,
    {
        self.dns_time
    }

    /// How long it took until the stream was secured.
    pub fn time_secure(&self) -> (r: Nanos)
        ensures
            r == self@.secure,
    {
        self.time_secure
    }

    /// How long it took until the application protocol was set up.
    pub fn time_application(&self) -> (r: Nanos)
        ensures
            r == self@.application,
    {
        self.time_application
    }

    /// How many round trips the TLS handshake took, at least one.
    pub fn tls_round_trips(&self) -> (r: u32)
        ensures
            r == self@.tls_round_trips,
            r >= 1,
    {
        proof {
            use_type_invariant(self);
        }
        self.tls_round_trips
    }

    /// How long the transport handshake took, without resolving the host.
    pub fn tcp_handshake(&self) -> (r: Nanos)
        ensures
            r == saturating_difference(self@.connect, self@.lookup),
    {
        self.time_connect.saturating_sub(self.time_lookup)
    }

    /// How long the TLS handshake took, without the transport handshake. Zero
    /// for a transport that is secured by its own handshake.
    pub fn tls_handshake(&self) -> (r: Nanos)
        ensures
            r == saturating_difference(self@.secure, self@.connect),
    {
        self.time_secure.saturating_sub(self.time_connect)
    }
}

/// An open connection: how it was set up, and the handle that sends requests on
/// it, which is gone once the connection was given up.
#[derive(Debug)]
pub struct EstablishedConnection<S> {
    pub timing: ConnectionTiming,
    pub sender: Option<S>,
}

impl<S> EstablishedConnection<S> {
    /// A connection on which requests can be sent.
    pub fn new(timing: ConnectionTiming, sender: S) -> (r: Self)
        ensures
            r.timing == timing,
            r.sender == Some(sender),
    {
        EstablishedConnection { timing, sender: Some(sender) }
    }

    /// The handle that sends requests, unless it was dropped.
    pub fn send_request(&mut self) -> (r: Option<&mut S>)
        ensures
            r is Some == old(self).sender is Some,
            r matches Some(sender) ==> *sender == old(self).sender->0 && final(self).sender == Some(
                *final(sender),
            ),
            r is None ==> final(self).sender is None,
            final(self).timing == old(self).timing,
    {
        self.sender.as_mut()
    }

    /// How the connection was set up.
    pub fn timing(&self) -> (r: ConnectionTiming)
        ensures
            r == self.timing,
    {
        self.timing
    }

    /// Gives the connection up for further requests.
    pub fn drop_send_request(&mut self)
        ensures
            final(self).sender is None,
            final(self).timing == old(self).timing,
    {
        self.sender = None;
    }
}

/// All connections that were opened, in order.
#[derive(Debug)]
pub struct ConnectionManager<C> {
    pub connections: VecDeque<C>,
}

impl<C> Default for ConnectionManager<C> {
    fn default() -> (r: Self)
        ensures
            r.connections@ == Seq::<C>::empty(),
    {
        ConnectionManager { connections: VecDeque::new() }
    }
}

impl<C> ConnectionManager<C> {
    /// Keeps a new connection.
    pub fn push(&mut self, connection: C)
        ensures
            final(self).connections@ == old(self).connections@.push(connection),
    {
        self.connections.push_back(connection);
    }

    /// How many connections were opened.
    pub fn len(&self) -> (r: usize)
        ensures
            r == self.connections@.len(),
    {
        self.connections.len()
    }

    /// Whether no connection was opened.
    pub fn is_empty(&self) -> (r: bool)
        ensures
            r == (self.connections@.len() == 0),
    {
        self.connections.len() == 0
    }
}

/// The request target in the form that an origin server expects: path and query
/// only, the root where there is none.
pub open spec fn origin_form(parts: uri::UriParts) -> Seq<char> {
    match parts.path_and_query {
        Some(target) => target,
        None => "/"@,
    }
}

/// The headers of an HTTP/1.1 request: with a `host` header that carries the
/// authority, where none was given.
pub open spec fn with_host(present: Seq<headers::Entry>, authority: Option<Seq<char>>) -> Seq<
    headers::Entry,
> {
    match authority {
        Some(authority) => if headers::has_name(present, "host"@) || !headers::is_value(
            vstd::utf8::encode_utf8(authority),
        ) {
            present
        } else {
            present.push(("host"@, vstd::utf8::encode_utf8(authority), false))
        },
        None => present,
    }
}

/// A `host` header that is there stays the only one there is; where there is none,
/// the authority becomes it, as far as it can be sent. No other header changes.
pub proof fn host_is_the_authority(
    present: Seq<headers::Entry>,
    authority: Seq<char>,
    name: Seq<char>,
)
    requires
        headers::is_value(vstd::utf8::encode_utf8(authority)),
    ensures
        headers::has_name(present, "host"@) ==> with_host(present, Some(authority)) == present,
        !headers::has_name(present, "host"@) ==> headers::of_name(
            with_host(present, Some(authority)),
            "host"@,
        ) == seq![("host"@, vstd::utf8::encode_utf8(authority), false)],
        name != "host"@ ==> headers::of_name(with_host(present, Some(authority)), name)
            == headers::of_name(present, name),
        with_host(present, None) == present,
{
    let host = ("host"@, vstd::utf8::encode_utf8(authority), false);
    headers::name_occurs(present, "host"@);
    assert(present.push(host).drop_last() =~= present);
    if !headers::has_name(present, "host"@) {
        assert(headers::of_name(present, "host"@) =~= Seq::empty());
        assert(Seq::<headers::Entry>::empty().push(host) =~= seq![host]);
    }
}

/// Brings an HTTP/1.1 request into the form that an origin server expects.
///
/// Returns the request target in origin form as a URI, `None` where it cannot
/// be parsed and the target has to stay as it is. The headers gain a `Host`
/// with the full authority, unless they have one.
pub fn normalize_h1_request(uri: &Uri, headers: &mut HeaderMap<HeaderValue>) -> (target: Option<Uri>)
    requires
        headers::entries(*old(headers)).len() <= headers::MAX_HEADERS,
    ensures
        headers::entries(*final(headers)) == with_host(
            headers::entries(*old(headers)),
            uri@.authority,
        ),
        match target {
            Some(target) => uri::http_uri(origin_form(uri@)) == Some(target@),
            None => uri::http_uri(origin_form(uri@)) is None,
        },
{
    proof {
        reveal_strlit("host");
        assert(text::lower_text("host"@) =~= "host"@);
    }
    if let Some(authority) = &uri.authority {
        let bytes = authority.as_str().as_bytes();
        let name = headers::parse_name("host");
        if headers::is_header_value(bytes) && !headers::contains(headers, &name) {
            proof {
                headers::replaced_when_absent(
                    headers::entries(*headers),
                    ("host"@, bytes@, false),
                );
            }
            headers::insert(headers, name, bytes, false);
        }
    }
    match &uri.path_and_query {
        Some(path_and_query) => Uri::parse(path_and_query.as_str()),
        None => Uri::parse("/"),
    }
}

} // verus!
