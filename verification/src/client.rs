//! What HTTP clients send and how they judge what comes back.
//!
//! A [`ThroughputClient`] loads a connection with an upload or a download and
//! follows its progress. A [`Client`] makes a plain request.

use http::{HeaderMap, HeaderValue};
use vstd::prelude::*;

use crate::body::{BodyEvent, FramePoll};
use crate::connection::ConnectionType;
use crate::headers;
use crate::scoped_headers;
use crate::scoped_headers::ScopedHeaders;
use crate::text;
use crate::time::{Nanos, Timestamp};
use crate::uri;
use crate::uri::Uri;

verus! {

/// The user agent of all requests that name none.
pub const MACH_USER_AGENT: &'static str = "mach/0.1.0";

/// How often the progress of an upload is reported.
pub const UPLOAD_UPDATE_EVERY: Nanos = 50_000_000;

/// How often the progress of a download is reported.
pub const DOWNLOAD_UPDATE_EVERY: Nanos = 100_000_000;

/// Whether a client transfers its data down or up.
#[derive(Debug, Clone, Copy, PartialEq, Eq, Structural)]
pub enum Direction {
    /// Download the response body.
    Down,
    /// Upload the given number of bytes.
    Up(usize),
}

/// Why a request cannot be made.
#[derive(Debug, Clone, Copy, PartialEq, Eq, Structural)]
pub enum ClientError {
    /// The URI names no host.
    MissingHost,
    /// The method is not an HTTP method.
    InvalidMethod,
}

impl ClientError {
    /// The error as text.
    pub fn message(&self) -> (r: String)
        ensures
            r@ == match *self {
                ClientError::MissingHost => "uri is missing a host"@,
                ClientError::InvalidMethod => "invalid HTTP method"@,
            },
    {
        match self {
            ClientError::MissingHost => String::from_str("uri is missing a host"),
            ClientError::InvalidMethod => String::from_str("invalid HTTP method"),
        }
    }
}

/// The connection that a request is sent on.
#[derive(Debug)]
pub enum ConnectionChoice<C> {
    /// A connection that is already open.
    Existing(C),
    /// A new connection of this type.
    New(ConnectionType),
}

/// A request, ready to be sent.
#[derive(Debug)]
pub struct Prepared<C> {
    pub method: String,
    /// The host of the URI.
    pub host: String,
    /// The host and the port to connect to.
    pub host_with_port: String,
    pub port: u16,
    pub headers: HeaderMap<HeaderValue>,
    pub connection: ConnectionChoice<C>,
    /// How many bytes of body a transfer sends. Absent where the body is up to
    /// the caller, or there is none.
    pub upload: Option<usize>,
}

/// How many bytes of body a transfer sends.
pub open spec fn upload_size(direction: Direction) -> Option<usize> {
    match direction {
        Direction::Up(size) => Some(size),
        Direction::Down => None,
    }
}

/// The headers that a client was given.
pub open spec fn given(headers: Option<HeaderMap<HeaderValue>>) -> Seq<headers::Entry> {
    match headers {
        Some(headers) => headers::entries(headers),
        None => seq![],
    }
}

/// How many scoped headers a client was given.
pub open spec fn scoped_len(scoped: Option<ScopedHeaders>) -> nat {
    match scoped {
        Some(scoped) => scoped@.headers.len(),
        None => 0,
    }
}

/// The headers with a user agent: the one given, or that of this program.
pub open spec fn with_user_agent(present: Seq<headers::Entry>) -> Seq<headers::Entry> {
    if headers::has_name(present, "user-agent"@) {
        present
    } else {
        present.push(("user-agent"@, vstd::utf8::encode_utf8("mach/0.1.0"@), false))
    }
}

/// The headers with the content type of an upload.
pub open spec fn with_content_type(present: Seq<headers::Entry>, direction: Direction) -> Seq<
    headers::Entry,
> {
    match direction {
        Direction::Up(_) => headers::replaced(
            present,
            ("content-type"@, vstd::utf8::encode_utf8("text/plain"@), false),
        ),
        Direction::Down => present,
    }
}

/// The headers with those that are scoped to the host.
pub open spec fn with_scoped(
    present: Seq<headers::Entry>,
    scoped: Option<ScopedHeaders>,
    host: Seq<char>,
) -> Seq<headers::Entry> {
    match scoped {
        Some(scoped) => if scoped_headers::host_allowed(scoped@.suffixes, host) {
            scoped_headers::attached(present, scoped@.headers)
        } else {
            present
        },
        None => present,
    }
}

/// The port that a transfer connects to where the URI names none: that of clear
/// text for `http` and for no scheme at all, otherwise that of TLS.
pub open spec fn transfer_port(parts: uri::UriParts) -> u16 {
    match parts.port {
        Some(port) => port,
        None => match parts.scheme {
            Some(scheme) => if scheme == "http"@ {
                80
            } else {
                443
            },
            None => 80,
        },
    }
}

/// The port that a plain request connects to: that of TLS where the URI names
/// none.
pub open spec fn request_port(parts: uri::UriParts) -> u16 {
    match parts.port {
        Some(port) => port,
        None => 443,
    }
}

/// `{host}:{port}`
pub open spec fn host_and_port(host: Seq<char>, port: u16) -> Seq<char> {
    host + ":"@ + text::decimal(port as nat)
}

/// The connection that was chosen: an open one before a new one.
pub open spec fn choice<C>(
    connection: Option<C>,
    new_connection_type: Option<ConnectionType>,
) -> ConnectionChoice<C> {
    match connection {
        Some(connection) => ConnectionChoice::Existing(connection),
        None => ConnectionChoice::New(new_connection_type->0),
    }
}

/// A text of visible ASCII characters makes a header value.
pub proof fn visible_text_is_value(text: Seq<char>)
    requires
        forall|i: int| 0 <= i < text.len() ==> ' ' <= #[trigger] text[i] <= '~',
    ensures
        headers::is_value(vstd::utf8::encode_utf8(text)),
{
    assert(vstd::utf8::is_ascii_chars(text));
    vstd::utf8::is_ascii_chars_encode_utf8(text);
    assert forall|i: int| 0 <= i < vstd::utf8::encode_utf8(text).len() implies headers::is_value_byte(
        vstd::utf8::encode_utf8(text)[i],
    ) by {
        assert(text[i] as u8 == vstd::utf8::encode_utf8(text)[i]);
    }
}

/// Adds the user agent of this program where none was given.
fn add_user_agent(headers: &mut HeaderMap<HeaderValue>)
    requires
        headers::entries(*old(headers)).len() <= headers::MAX_HEADERS,
    ensures
        headers::entries(*final(headers)) == with_user_agent(headers::entries(*old(headers))),
{
    proof {
        reveal_strlit("User-Agent");
        reveal_strlit("user-agent");
        reveal_strlit("mach/0.1.0");
        assert(text::lower_text("User-Agent"@) =~= "user-agent"@);
        visible_text_is_value("mach/0.1.0"@);
    }
    if !headers::contains(headers, &headers::parse_name("User-Agent")) {
        proof {
            headers::replaced_when_absent(
                headers::entries(*headers),
                ("user-agent"@, vstd::utf8::encode_utf8("mach/0.1.0"@), false),
            );
        }
        let name = headers::parse_name("User-Agent");
        headers::insert(headers, name, MACH_USER_AGENT.as_bytes(), false);
    }
}

/// Sets the content type of an upload.
fn set_content_type(headers: &mut HeaderMap<HeaderValue>)
    requires
        headers::entries(*old(headers)).len() <= headers::MAX_HEADERS,
    ensures
        headers::entries(*final(headers)) == headers::replaced(
            headers::entries(*old(headers)),
            ("content-type"@, vstd::utf8::encode_utf8("text/plain"@), false),
        ),
        headers::entries(*final(headers)).len() <= headers::entries(*old(headers)).len() + 1,
{
    proof {
        reveal_strlit("Content-Type");
        reveal_strlit("content-type");
        reveal_strlit("text/plain");
        assert(text::lower_text("Content-Type"@) =~= "content-type"@);
        visible_text_is_value("text/plain"@);
        headers::replaced_len(
            headers::entries(*headers),
            ("content-type"@, vstd::utf8::encode_utf8("text/plain"@), false),
        );
    }
    headers::insert(headers, headers::parse_name("Content-Type"), "text/plain".as_bytes(), false);
}

/// The host and the port as text.
fn host_and_port_text(host: &str, port: u16) -> (r: String)
    ensures
        r@ == host_and_port(host@, port),
{
    let mut out = host.to_owned();
    out.append(":");
    text::push_decimal(&mut out, port as u64);
    out
}

/// The port that a transfer connects to.
fn transfer_port_of(uri: &Uri) -> (port: u16)
    ensures
        port == transfer_port(uri@),
{
    match uri.port {
        Some(port) => port,
        None => match &uri.scheme {
            Some(scheme) => if text::same_text(scheme.as_str(), "http") {
                80
            } else {
                443
            },
            None => 80,
        },
    }
}

/// The connection that a request is sent on.
fn choose_connection<C>(connection: Option<C>, new_connection_type: Option<ConnectionType>) -> (r:
    ConnectionChoice<C>)
    requires
        connection is Some || new_connection_type is Some,
    ensures
        r == choice(connection, new_connection_type),
{
    match connection {
        Some(connection) => ConnectionChoice::Existing(connection),
        None => ConnectionChoice::New(new_connection_type.unwrap()),
    }
}

/// Drives one request and its response to load a connection.
#[derive(Debug)]
pub struct ThroughputClient<C> {
    pub connection: Option<C>,
    pub new_connection_type: Option<ConnectionType>,
    pub headers: Option<HeaderMap<HeaderValue>>,
    pub scoped_headers: Option<ScopedHeaders>,
    pub direction: Direction,
}

impl<C> ThroughputClient<C> {
    /// A client that downloads.
    pub fn download() -> (r: Self)
        ensures
            r == (ThroughputClient::<C> {
                connection: None,
                new_connection_type: None,
                headers: None,
                scoped_headers: None,
                direction: Direction::Down,
            }),
    {
        ThroughputClient {
            connection: None,
            new_connection_type: None,
            headers: None,
            scoped_headers: None,
            direction: Direction::Down,
        }
    }

    /// A client that uploads `size` bytes.
    pub fn upload(size: usize) -> (r: Self)
        ensures
            r == (ThroughputClient::<C> {
                connection: None,
                new_connection_type: None,
                headers: None,
                scoped_headers: None,
                direction: Direction::Up(size),
            }),
    {
        ThroughputClient {
            connection: None,
            new_connection_type: None,
            headers: None,
            scoped_headers: None,
            direction: Direction::Up(size),
        }
    }

    /// Sends the request on an open connection.
    pub fn with_connection(self, connection: C) -> (r: Self)
        ensures
            r == (ThroughputClient { connection: Some(connection), ..self }),
    {
        ThroughputClient { connection: Some(connection), ..self }
    }

    /// Opens a new connection for the request.
    pub fn new_connection(self, conn_type: ConnectionType) -> (r: Self)
        ensures
            r == (ThroughputClient { new_connection_type: Some(conn_type), ..self }),
    {
        ThroughputClient { new_connection_type: Some(conn_type), ..self }
    }

    /// Sets the headers of the request.
    pub fn headers(self, headers: HeaderMap<HeaderValue>) -> (r: Self)
        ensures
            r == (ThroughputClient { headers: Some(headers), ..self }),
    {
        ThroughputClient { headers: Some(headers), ..self }
    }

    /// Sets headers that are only attached when the request's host matches
    /// their allowlist. Those set by [`Self::headers`] take precedence.
    pub fn scoped_headers(self, scoped_headers: Option<ScopedHeaders>) -> (r: Self)
        ensures
            r == (ThroughputClient { scoped_headers, ..self }),
    {
        ThroughputClient { scoped_headers, ..self }
    }

    /// Whether the client knows which connection to use.
    pub open spec fn has_connection(self) -> bool {
        self.connection is Some || self.new_connection_type is Some
    }

    /// Whether the headers of the request stay below the limit of a header map.
    pub open spec fn headers_fit(self) -> bool {
        given(self.headers).len() + 2 + scoped_len(self.scoped_headers) <= headers::MAX_HEADERS
    }

    /// The headers that the request is sent with.
    pub open spec fn request_headers(self, host: Seq<char>) -> Seq<headers::Entry> {
        with_scoped(
            with_content_type(with_user_agent(given(self.headers)), self.direction),
            self.scoped_headers,
            host,
        )
    }

    /// Makes the request that downloads from or uploads to `uri`.
    pub fn send(self, uri: &Uri) -> (r: Result<Prepared<C>, ClientError>)
        requires
            self.has_connection(),
            self.headers_fit(),
        ensures
            match uri@.host {
                None => r == Err::<Prepared<C>, ClientError>(ClientError::MissingHost),
                Some(host) => r matches Ok(request) && {
                    &&& request.method@ == match self.direction {
                        Direction::Down => "GET"@,
                        Direction::Up(_) => "POST"@,
                    }
                    &&& request.host@ == host
                    &&& request.port == transfer_port(uri@)
                    &&& request.host_with_port@ == host_and_port(host, transfer_port(uri@))
                    &&& headers::entries(request.headers) == self.request_headers(host)
                    &&& request.connection == choice(self.connection, self.new_connection_type)
                    &&& request.upload == upload_size(self.direction)
                    &&& self.connection matches Some(connection) ==> request.connection
                        == ConnectionChoice::Existing(connection)
                    &&& self.connection is None ==> request.connection == ConnectionChoice::<
                        C,
                    >::New(self.new_connection_type->0)
                    &&& self.direction matches Direction::Up(size) ==> request.upload == Some(size)
                    &&& self.direction is Down ==> request.upload is None
                },
            },
    {
        let mut request_headers = match self.headers {
            Some(headers) => headers,
            None => headers::new_map(),
        };
        add_user_agent(&mut request_headers);

        let host = match &uri.host {
            Some(host) => host.clone(),
            None => {
                return Err(ClientError::MissingHost);
            },
        };
        let port: u16 = transfer_port_of(uri);
        let host_with_port = host_and_port_text(host.as_str(), port);

        let method = match self.direction {
            Direction::Down => String::from_str("GET"),
            Direction::Up(_) => {
                set_content_type(&mut request_headers);
                String::from_str("POST")
            },
        };

        if let Some(scoped) = &self.scoped_headers {
            scoped.apply(uri, &mut request_headers);
        }
        let connection = choose_connection(self.connection, self.new_connection_type);
        let upload: Option<usize> = match self.direction {
            Direction::Up(size) => Some(size),
            Direction::Down => None,
        };
        Ok(
            Prepared {
                method,
                host,
                host_with_port,
                port,
                headers: request_headers,
                connection,
                upload,
            },
        )
    }
}

/// A method is made of the characters of header names, at least one of them.
pub proof fn methods_are_made_like_names(method: Seq<char>)
    requires
        method.len() <= 65_535,
    ensures
        is_method(method) == headers::is_name(method),
{
}

/// Every request says by whom it is sent: by the agent that the caller named, or
/// else by this program, whatever the scoped headers hold. An upload says that it
/// sends plain text, and only that.
pub proof fn requests_say_what_they_are<C>(client: ThroughputClient<C>, host: Seq<char>)
    ensures
        !headers::has_name(given(client.headers), "user-agent"@) ==> headers::of_name(
            client.request_headers(host),
            "user-agent"@,
        ) == seq![("user-agent"@, vstd::utf8::encode_utf8("mach/0.1.0"@), false)],
        client.direction is Up ==> headers::of_name(client.request_headers(host), "content-type"@)
            == seq![("content-type"@, vstd::utf8::encode_utf8("text/plain"@), false)],
{
    reveal_strlit("user-agent");
    reveal_strlit("content-type");
    assert("user-agent"@.len() != "content-type"@.len());
    let set = given(client.headers);
    let agent = with_user_agent(set);
    let typed = with_content_type(agent, client.direction);
    let user_agent = ("user-agent"@, vstd::utf8::encode_utf8("mach/0.1.0"@), false);
    let plain = ("content-type"@, vstd::utf8::encode_utf8("text/plain"@), false);
    headers::name_occurs(set, "user-agent"@);
    headers::name_occurs(typed, "user-agent"@);
    assert(set.push(user_agent).drop_last() =~= set);
    if client.direction is Up {
        headers::replaced_of_name(agent, plain, "user-agent"@);
        headers::replaced_holds_one(agent, plain);
    }
    if !headers::has_name(set, "user-agent"@) {
        assert(headers::of_name(set, "user-agent"@) =~= Seq::empty());
        assert(headers::of_name(agent, "user-agent"@) =~= seq![user_agent]);
    }
    if let Some(scoped) = client.scoped_headers {
        if headers::has_name(typed, "user-agent"@) {
            scoped_headers::explicit_header_wins(typed, scoped@.headers, "user-agent"@);
        }
        if client.direction is Up {
            scoped_headers::explicit_header_wins(typed, scoped@.headers, "content-type"@);
        }
    }
}

/// A name that neither the caller nor the client sets is sent with all the values
/// that the scoped headers have for it, where the host is allowed, and not at all
/// otherwise.
pub proof fn scoped_headers_reach_allowed_hosts<C>(
    client: ThroughputClient<C>,
    host: Seq<char>,
    name: Seq<char>,
)
    requires
        !headers::has_name(given(client.headers), name),
        name != "user-agent"@,
        name != "content-type"@,
    ensures
        headers::of_name(client.request_headers(host), name) == (match client.scoped_headers {
            Some(scoped) => if scoped_headers::host_allowed(scoped@.suffixes, host) {
                headers::of_name(scoped@.headers, name)
            } else {
                seq![]
            },
            None => seq![],
        }),
{
    let set = given(client.headers);
    let agent = with_user_agent(set);
    let typed = with_content_type(agent, client.direction);
    let user_agent = ("user-agent"@, vstd::utf8::encode_utf8("mach/0.1.0"@), false);
    headers::name_occurs(set, name);
    headers::name_occurs(typed, name);
    assert(set.push(user_agent).drop_last() =~= set);
    if client.direction is Up {
        headers::replaced_of_name(
            agent,
            ("content-type"@, vstd::utf8::encode_utf8("text/plain"@), false),
            name,
        );
    }
    assert(headers::of_name(typed, name) =~= Seq::empty());
    if let Some(scoped) = client.scoped_headers {
        scoped_headers::attaching_is_complete(typed, scoped@.headers, name);
    }
}

/// The headers that a client starts from are those that its caller gave it.
pub proof fn caller_headers_are_taken(headers: HeaderMap<HeaderValue>)
    ensures
        given(Some(headers)) == headers::entries(headers),
        given(None).len() == 0,
{
}

/// A port in the address is the one to connect to. Without one, a transfer goes to
/// the port of its scheme, and a plain request to that of TLS.
pub proof fn ports_follow_the_address(parts: uri::UriParts)
    ensures
        parts.port matches Some(port) ==> transfer_port(parts) == port && request_port(parts)
            == port,
        parts.port is None ==> request_port(parts) == 443,
        parts.port is None && parts.scheme == Some("https"@) ==> transfer_port(parts) == 443,
        parts.port is None && parts.scheme == Some("http"@) ==> transfer_port(parts) == 80,
        parts.port is None && parts.scheme is None ==> transfer_port(parts) == 80,
{
    reveal_strlit("http");
    reveal_strlit("https");
    assert("http"@.len() != "https"@.len());
}

/// Scoped headers never reach a host outside their allowlist: the request to
/// it is the one that is made without them.
pub proof fn scoped_headers_stay_in_scope<C>(client: ThroughputClient<C>, host: Seq<char>)
    requires
        client.scoped_headers is Some,
        !scoped_headers::host_allowed(client.scoped_headers->0@.suffixes, host),
    ensures
        client.request_headers(host) == (ThroughputClient { scoped_headers: None, ..client }).request_headers(
            host,
        ),
{
}

/// A name that the caller set is sent with the values that the caller gave it,
/// and no others. Only an upload's content type is replaced.
pub proof fn caller_headers_are_kept<C>(
    client: ThroughputClient<C>,
    host: Seq<char>,
    name: Seq<char>,
)
    requires
        headers::has_name(given(client.headers), name),
        client.direction == Direction::Down || name != "content-type"@,
    ensures
        headers::of_name(client.request_headers(host), name) == headers::of_name(
            given(client.headers),
            name,
        ),
{
    let set = given(client.headers);
    let agent = with_user_agent(set);
    let typed = with_content_type(agent, client.direction);
    let user_agent = ("user-agent"@, vstd::utf8::encode_utf8("mach/0.1.0"@), false);
    assert(set.push(user_agent).drop_last() =~= set);
    if client.direction is Up {
        headers::replaced_of_name(
            agent,
            ("content-type"@, vstd::utf8::encode_utf8("text/plain"@), false),
            name,
        );
    }
    headers::name_occurs(set, name);
    headers::name_occurs(typed, name);
    if let Some(scoped) = client.scoped_headers {
        scoped_headers::explicit_header_wins(typed, scoped@.headers, name);
    }
}

/// The headers of a download stay in the place in which the caller set them.
pub proof fn download_headers_stay_in_place<C>(client: ThroughputClient<C>, host: Seq<char>)
    requires
        client.direction == Direction::Down,
    ensures
        given(client.headers).is_prefix_of(client.request_headers(host)),
{
    let agent = with_user_agent(given(client.headers));
    if let Some(scoped) = client.scoped_headers {
        scoped_headers::attaching_keeps_present(agent, scoped@.headers);
    }
}

/// Makes one request and returns its response.
#[derive(Debug)]
pub struct Client<C> {
    pub connection: Option<C>,
    pub new_connection_type: Option<ConnectionType>,
    pub headers: Option<HeaderMap<HeaderValue>>,
    pub scoped_headers: Option<ScopedHeaders>,
    pub method: Option<String>,
}

impl<C> Default for Client<C> {
    fn default() -> (r: Self)
        ensures
            r == (Client::<C> {
                connection: None,
                new_connection_type: None,
                headers: None,
                scoped_headers: None,
                method: None,
            }),
    {
        Client {
            connection: None,
            new_connection_type: None,
            headers: None,
            scoped_headers: None,
            method: None,
        }
    }
}

/// Whether the characters make an HTTP method: at least one, none of them but
/// those of a header name.
pub open spec fn is_method(method: Seq<char>) -> bool {
    method.len() >= 1 && forall|i: int|
        0 <= i < method.len() ==> headers::is_name_char(method[i])
}

/// The method of a request, `GET` where none was set.
pub open spec fn method_of(method: Option<String>) -> Seq<char> {
    match method {
        Some(method) => method@,
        None => "GET"@,
    }
}

/// Whether a text is an HTTP method.
pub fn is_http_method(method: &str) -> (r: bool)
    ensures
        r == is_method(method@),
{
    let chars = text::chars_of(method);
    if chars.len() == 0 {
        return false;
    }
    let mut i: usize = 0;
    while i < chars.len()
        invariant
            i <= chars@.len(),
            chars@ == method@,
            forall|j: int| 0 <= j < i ==> headers::is_name_char(method@[j]),
        decreases chars@.len() - i,
    {
        if !headers::name_char(chars[i]) {
            assert(!headers::is_name_char(method@[i as int]));
            return false;
        }
        i = i + 1;
    }
    true
}

impl<C> Client<C> {
    /// Sends the request on an open connection.
    pub fn with_connection(self, connection: C) -> (r: Self)
        ensures
            r == (Client { connection: Some(connection), ..self }),
    {
        Client { connection: Some(connection), ..self }
    }

    /// Opens a new connection for the request.
    pub fn new_connection(self, conn_type: ConnectionType) -> (r: Self)
        ensures
            r == (Client { new_connection_type: Some(conn_type), ..self }),
    {
        Client { new_connection_type: Some(conn_type), ..self }
    }

    /// Sets the headers of the request.
    pub fn headers(self, headers: HeaderMap<HeaderValue>) -> (r: Self)
        ensures
            r == (Client { headers: Some(headers), ..self }),
    {
        Client { headers: Some(headers), ..self }
    }

    /// Sets headers that are only attached when the request's host matches
    /// their allowlist. Those set by [`Self::headers`] take precedence.
    pub fn scoped_headers(self, scoped_headers: Option<ScopedHeaders>) -> (r: Self)
        ensures
            r == (Client { scoped_headers, ..self }),
    {
        Client { scoped_headers, ..self }
    }

    /// Sets the method of the request.
    pub fn method(self, method: &str) -> (r: Self)
        ensures
            r.connection == self.connection,
            r.new_connection_type == self.new_connection_type,
            r.headers == self.headers,
            r.scoped_headers == self.scoped_headers,
            r.method matches Some(m) && m@ == method@,
    {
        Client { method: Some(method.to_owned()), ..self }
    }

    /// Whether the client knows which connection to use.
    pub open spec fn has_connection(self) -> bool {
        self.connection is Some || self.new_connection_type is Some
    }

    /// Whether the headers of the request stay below the limit of a header map.
    pub open spec fn headers_fit(self) -> bool {
        given(self.headers).len() + 1 + scoped_len(self.scoped_headers) <= headers::MAX_HEADERS
    }

    /// The headers that the request is sent with.
    pub open spec fn request_headers(self, host: Seq<char>) -> Seq<headers::Entry> {
        with_scoped(with_user_agent(given(self.headers)), self.scoped_headers, host)
    }

    /// Makes the request to `uri`.
    pub fn send(self, uri: &Uri) -> (r: Result<Prepared<C>, ClientError>)
        requires
            self.has_connection(),
            self.headers_fit(),
        ensures
            match uri@.host {
                None => r == Err::<Prepared<C>, ClientError>(ClientError::MissingHost),
                Some(host) => if !is_method(method_of(self.method)) {
                    r == Err::<Prepared<C>, ClientError>(ClientError::InvalidMethod)
                } else {
                    r matches Ok(request) && {
                        &&& request.method@ == method_of(self.method)
                        &&& request.host@ == host
                        &&& request.port == request_port(uri@)
                        &&& request.host_with_port@ == host_and_port(host, request_port(uri@))
                        &&& headers::entries(request.headers) == self.request_headers(host)
                        &&& request.connection == choice(
                            self.connection,
                            self.new_connection_type,
                        )
                        &&& request.upload is None
                        &&& self.connection matches Some(connection) ==> request.connection
                            == ConnectionChoice::Existing(connection)
                        &&& self.connection is None ==> request.connection == ConnectionChoice::<
                            C,
                        >::New(self.new_connection_type->0)
                    }
                },
            },
    {
        let mut request_headers = match self.headers {
            Some(headers) => headers,
            None => headers::new_map(),
        };
        add_user_agent(&mut request_headers);

        let host = match &uri.host {
            Some(host) => host.clone(),
            None => {
                return Err(ClientError::MissingHost);
            },
        };
        let port: u16 = match uri.port {
            Some(port) => port,
            None => 443,
        };
        let host_with_port = host_and_port_text(host.as_str(), port);

        let method = match self.method {
            Some(method) => method,
            None => String::from_str("GET"),
        };
        if !is_http_method(method.as_str()) {
            return Err(ClientError::InvalidMethod);
        }
        if let Some(scoped) = &self.scoped_headers {
            scoped.apply(uri, &mut request_headers);
        }
        let connection = choose_connection(self.connection, self.new_connection_type);
        Ok(
            Prepared {
                method,
                host,
                host_with_port,
                port,
                headers: request_headers,
                connection,
                upload: None,
            },
        )
    }
}

/// A plain request carries the headers of a download with the same ones.
pub proof fn plain_request_has_the_headers_of_a_download<C>(
    plain: Client<C>,
    download: ThroughputClient<C>,
    host: Seq<char>,
)
    requires
        download.direction == Direction::Down,
        download.headers == plain.headers,
        download.scoped_headers == plain.scoped_headers,
    ensures
        plain.request_headers(host) == download.request_headers(host),
{
}

/// Whether some headers can be sent together with some scoped ones: a client
/// adds two of its own.
pub fn headers_within_limit(
    headers: &Option<HeaderMap<HeaderValue>>,
    scoped: &Option<ScopedHeaders>,
) -> (r: bool)
    ensures
        r == (given(*headers).len() + 2 + scoped_len(*scoped) <= headers::MAX_HEADERS),
{
    let present: usize = match headers {
        Some(headers) => headers::count(headers),
        None => 0,
    };
    let attached: usize = match scoped {
        Some(scoped) => scoped.len(),
        None => 0,
    };
    present <= headers::MAX_HEADERS - 2 && attached <= headers::MAX_HEADERS - 2 - present
}

/// The reason phrase that `http::StatusCode` knows for a status code.
pub uninterp spec fn status_reason(code: u16) -> Option<Seq<char>>;

/// `http::StatusCode::canonical_reason`. A status code has three digits.
#[verifier::external_body]
pub(crate) fn canonical_reason(code: u16) -> (r: Option<&'static str>)
    requires
        100 <= code <= 999,
    ensures
        match r {
            Some(reason) => status_reason(code) == Some(reason@),
            None => status_reason(code) is None,
        },
{
    http::StatusCode::from_u16(code).unwrap().canonical_reason()
}

/// A status code with its reason phrase.
pub open spec fn status_text(code: u16, reason: Option<Seq<char>>) -> Seq<char> {
    text::decimal(code as nat) + " "@ + match reason {
        Some(reason) => reason,
        None => "<unknown status code>"@,
    }
}

/// Whether a status code stands for success.
pub open spec fn is_success(code: u16) -> bool {
    200 <= code < 300
}

/// Why a response is refused, given the reason phrase of its status.
pub open spec fn rejection_reason(direction: Direction, code: u16, reason: Option<Seq<char>>) -> Seq<
    char,
> {
    match direction {
        Direction::Up(_) => "upload rejected with status "@ + status_text(code, reason),
        Direction::Down => "download rejected with status "@ + status_text(code, reason),
    }
}

/// Appends a status code with its reason phrase.
pub(crate) fn push_status(out: &mut String, code: u16, reason: Option<&str>)
    ensures
        final(out)@ == old(out)@ + status_text(
            code,
            match reason {
                Some(reason) => Some(reason@),
                None => None,
            },
        ),
{
    text::push_decimal(out, code as u64);
    out.append(" ");
    match reason {
        Some(reason) => out.append(reason),
        None => out.append("<unknown status code>"),
    }
    assert(out@ =~= old(out)@ + status_text(
        code,
        match reason {
            Some(reason) => Some(reason@),
            None => None,
        },
    ));
}

/// Judges a response by its status code and the reason phrase of that code.
/// `None` accepts it.
///
/// A refused transfer is answered by a well-formed response. Without a look at
/// the status it would be taken for a healthy load that transfers nothing.
pub fn rejection_with(direction: Direction, code: u16, reason: Option<&str>) -> (r: Option<String>)
    ensures
        r is None == (200 <= code <= 299),
        is_success(code) ==> r is None,
        !is_success(code) ==> r is Some && r->0@ == rejection_reason(
            direction,
            code,
            match reason {
                Some(reason) => Some(reason@),
                None => None,
            },
        ),
{
    if 200 <= code && code < 300 {
        return None;
    }
    let mut message = match direction {
        Direction::Up(_) => String::from_str("upload rejected with status "),
        Direction::Down => String::from_str("download rejected with status "),
    };
    push_status(&mut message, code, reason);
    Some(message)
}

/// Judges a response by its status code. `None` accepts it.
pub fn rejection(direction: Direction, code: u16) -> (r: Option<String>)
    requires
        100 <= code <= 999,
    ensures
        is_success(code) ==> r is None,
        !is_success(code) ==> r is Some && r->0@ == rejection_reason(
            direction,
            code,
            status_reason(code),
        ),
{
    rejection_with(direction, code, canonical_reason(code))
}

/// What to do with a response to the request of a load.
#[derive(Debug, PartialEq, Eq)]
pub enum ResponseAction {
    /// Read its body to the end. The caller follows the body of the request.
    Consume,
    /// Count its body, hand the counts to the caller, and read it to the end.
    CountAndHandOver,
    /// Fail for this reason.
    Refuse {
        reason: String,
        /// The caller still waits for the transfer to begin, and is told.
        tell_caller: bool,
    },
}

/// Whether the caller is handed the counts before the response is there: those
/// of an upload come from the body of the request.
pub fn hands_over_first(direction: Direction) -> (r: bool)
    ensures
        r == (direction is Up),
{
    match direction {
        Direction::Up(_) => true,
        Direction::Down => false,
    }
}

/// Whether `action` is what to do with a response, given the reason phrase of
/// its status.
pub open spec fn is_response_action(
    action: ResponseAction,
    direction: Direction,
    code: u16,
    reason: Option<Seq<char>>,
) -> bool {
    if is_success(code) {
        match direction {
            Direction::Up(_) => action == ResponseAction::Consume,
            Direction::Down => action == ResponseAction::CountAndHandOver,
        }
    } else {
        action matches ResponseAction::Refuse { reason: message, tell_caller } && message@
            == rejection_reason(direction, code, reason) && tell_caller == (direction is Down)
    }
}

/// What to do with a response, given the reason phrase of its status. The
/// transfer of a refused download never begins.
pub fn on_response_with(direction: Direction, code: u16, reason: Option<&str>) -> (action:
    ResponseAction)
    ensures
        action is Refuse == !(200 <= code <= 299),
        action is Consume == (200 <= code <= 299 && direction is Up),
        action is CountAndHandOver == (200 <= code <= 299 && direction is Down),
        action matches ResponseAction::Refuse { tell_caller, .. } ==> tell_caller == (direction
            is Down),
        is_response_action(
            action,
            direction,
            code,
            match reason {
                Some(reason) => Some(reason@),
                None => None,
            },
        ),
{
    match rejection_with(direction, code, reason) {
        Some(reason) => ResponseAction::Refuse {
            reason,
            tell_caller: !hands_over_first(direction),
        },
        None => if hands_over_first(direction) {
            ResponseAction::Consume
        } else {
            ResponseAction::CountAndHandOver
        },
    }
}

/// What to do with a response.
pub fn on_response(direction: Direction, code: u16) -> (action: ResponseAction)
    requires
        100 <= code <= 999,
    ensures
        is_response_action(action, direction, code, status_reason(code)),
{
    on_response_with(direction, code, canonical_reason(code))
}

/// The event that tells a load about the failure of its request. An upload does
/// not notice by itself: its body is just not asked for more. A download is
/// told by its own body.
pub fn failure_event(direction: Direction, error: &str, now: Timestamp) -> (r: Option<BodyEvent>)
    ensures
        match direction {
            Direction::Up(_) => r matches Some(event) && event matches BodyEvent::Failed {
                at,
                reason,
            } && at == now && reason@ == error@,
            Direction::Down => r is None,
        },
{
    match direction {
        Direction::Up(_) => Some(BodyEvent::Failed { at: now, reason: error.to_owned() }),
        Direction::Down => None,
    }
}

/// Whether a response body is to be read on after what it gave last. Frames are
/// thrown away; they keep the connection alive.
pub fn consume_body<F, E>(polled: FramePoll<F, E>, shutdown: bool) -> (go_on: bool)
    ensures
        go_on == (!shutdown && (polled is Frame || polled is Pending)),
{
    if shutdown {
        return false;
    }
    match polled {
        FramePoll::Frame { .. } => true,
        FramePoll::Pending => true,
        _ => false,
    }
}

/// How a transfer ended.
#[derive(Debug, Clone, Copy, PartialEq, Eq, Structural)]
pub struct FinishResult {
    /// How many bytes the body had.
    pub total: u64,
    /// When the body finished.
    pub finished_at: Timestamp,
}

/// Whether an event ends the transfer.
pub open spec fn ends_transfer(event: BodyEvent) -> bool {
    event is Finished || event is Failed
}

/// The position of the first event that ends the transfer, the number of events
/// where none does.
pub open spec fn first_end(events: Seq<BodyEvent>) -> nat
    decreases events.len(),
{
    if events.len() == 0 || ends_transfer(events[0]) {
        0
    } else {
        1 + first_end(events.drop_first())
    }
}

/// The last byte count among the events, `start` where there is none.
pub open spec fn last_count(start: u64, events: Seq<BodyEvent>) -> u64
    decreases events.len(),
{
    if events.len() == 0 {
        start
    } else {
        match events.last() {
            BodyEvent::ByteCount { total, .. } => total,
            _ => last_count(start, events.drop_last()),
        }
    }
}

/// What is to be said of a transfer whose next event is `event`, `None` for the
/// end of the events, when `total` bytes were counted before.
pub open spec fn finish_outcome(
    r: Result<FinishResult, String>,
    total: u64,
    event: Option<BodyEvent>,
) -> bool {
    match event {
        Some(BodyEvent::Finished { at }) => r == Ok::<FinishResult, String>(
            FinishResult { total, finished_at: at },
        ),
        Some(BodyEvent::Failed { reason, .. }) => r matches Err(message) && message@
            == "body failed after "@ + text::decimal(total as nat) + " bytes: "@ + reason@,
        _ => r matches Err(message) && message@ == "body did not finish"@,
    }
}

/// Waits for a transfer to end.
#[derive(Debug, Clone, Copy, PartialEq, Eq, Structural)]
pub struct FinishWait {
    /// The last byte count.
    pub total: u64,
}

impl FinishWait {
    /// Nothing was counted yet.
    pub fn new() -> (r: Self)
        ensures
            r == (FinishWait { total: 0 }),
    {
        FinishWait { total: 0 }
    }

    /// Takes the next event of the body, `None` where there are no more. Gives
    /// the outcome once the transfer ended.
    pub fn on_event(&mut self, event: Option<&BodyEvent>) -> (r: Option<
        Result<FinishResult, String>,
    >)
        ensures
            match event {
                Some(BodyEvent::ByteCount { total, .. }) => r is None && *final(self) == (
                FinishWait { total: *total }),
                Some(e) => *final(self) == *old(self) && r is Some && finish_outcome(
                    r->0,
                    old(self).total,
                    Some(*e),
                ),
                None => *final(self) == *old(self) && r is Some && finish_outcome(
                    r->0,
                    old(self).total,
                    None,
                ),
            },
            event matches Some(BodyEvent::Finished { at }) ==> r == Some(
                Ok::<FinishResult, String>(
                    FinishResult { total: old(self).total, finished_at: *at },
                ),
            ),
            (event is None || event->0 is Failed) ==> r is Some && r->0 is Err,
    {
        match event {
            Some(BodyEvent::ByteCount { total, .. }) => {
                self.total = *total;
                None
            },
            Some(BodyEvent::Finished { at }) => Some(
                Ok(FinishResult { total: self.total, finished_at: *at }),
            ),
            Some(BodyEvent::Failed { reason, .. }) => {
                let mut message = String::from_str("body failed after ");
                text::push_decimal(&mut message, self.total);
                message.append(" bytes: ");
                message.append(reason.as_str());
                Some(Err(message))
            },
            None => Some(Err(String::from_str("body did not finish"))),
        }
    }
}

/// A transfer ends with its first event that says so, and its count is the last
/// one before that.
pub proof fn first_end_decides(events: Seq<BodyEvent>, end: int)
    requires
        0 <= end <= events.len(),
        forall|i: int| 0 <= i < end ==> (#[trigger] events[i]) is ByteCount,
        end < events.len() ==> events[end] is Finished || events[end] is Failed,
    ensures
        first_end(events) == end,
        end > 0 ==> last_count(0, events.take(end)) == events[end - 1]->total,
        end == 0 ==> last_count(0, events.take(end)) == 0,
    decreases events.len(),
{
    if end > 0 {
        let rest = events.drop_first();
        assert(events[0] is ByteCount);
        assert forall|i: int| 0 <= i < end - 1 implies (#[trigger] rest[i]) is ByteCount by {
            assert(rest[i] == events[i + 1]);
        }
        if end < events.len() {
            assert(rest[end - 1] == events[end]);
        }
        first_end_decides(rest, end - 1);
        assert(events.take(end).last() == events[end - 1]);
        assert(events[end - 1] is ByteCount);
    }
}

/// How a transfer with these events ended: the byte count when it finished, or
/// why it did not.
pub fn wait_for_finish(events: &Vec<BodyEvent>) -> (r: Result<FinishResult, String>)
    ensures
        ({
            let end = first_end(events@) as int;
            finish_outcome(
                r,
                last_count(0, events@.take(end)),
                if end < events@.len() {
                    Some(events@[end])
                } else {
                    None
                },
            )
        }),
{
    let mut wait = FinishWait::new();
    let mut i: usize = 0;
    assert(events@.skip(0) =~= events@);
    while i < events.len()
        invariant
            i <= events@.len(),
            first_end(events@) == i + first_end(events@.skip(i as int)),
            wait.total == last_count(0, events@.take(i as int)),
        decreases events@.len() - i,
    {
        proof {
            assert(events@.skip(i as int).drop_first() =~= events@.skip(i + 1));
            assert(events@.take(i + 1).drop_last() =~= events@.take(i as int));
        }
        if let Some(outcome) = wait.on_event(Some(&events[i])) {
            return outcome;
        }
        i = i + 1;
    }
    assert(events@.take(i as int) =~= events@);
    match wait.on_event(None) {
        Some(outcome) => outcome,
        None => Err(String::from_str("body did not finish")),
    }
}

} // verus!
