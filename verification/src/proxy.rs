//! Connections by way of a proxy.

use http::{HeaderMap, HeaderValue};
use vstd::prelude::*;

use crate::connection::ConnectionType;
use crate::headers;
use crate::load;
use crate::load::LoadError;
use crate::text;
use crate::uri;
use crate::uri::Uri;

verus! {

/// How a proxy is reached.
#[derive(Debug)]
pub struct ProxyConfig {
    pub endpoint: Uri,
    /// Headers sent to the proxy, as names and values.
    pub headers: Vec<(String, String)>,
    pub conn_type: ConnectionType,
    pub raw_public_key: Option<Vec<u8>>,
}

/// Why a proxy cannot be used.
#[derive(Debug, Clone, Copy, PartialEq, Eq, Structural)]
pub enum ProxyError {
    MissingAuthority,
    MissingHost,
    InvalidHeaderName,
    InvalidHeaderValue,
    InvalidTarget,
}

impl ProxyError {
    /// The error as text.
    pub fn message(&self) -> (r: String)
        ensures
            r@ == match *self {
                ProxyError::MissingAuthority => "proxy endpoint must have a valid authority"@,
                ProxyError::MissingHost => "proxy endpoint most have a host"@,
                ProxyError::InvalidHeaderName => "invalid HTTP header name"@,
                ProxyError::InvalidHeaderValue => "invalid HTTP header value"@,
                ProxyError::InvalidTarget => "invalid uri"@,
            },
    {
        match self {
            ProxyError::MissingAuthority => String::from_str(
                "proxy endpoint must have a valid authority",
            ),
            ProxyError::MissingHost => String::from_str("proxy endpoint most have a host"),
            ProxyError::InvalidHeaderName => String::from_str("invalid HTTP header name"),
            ProxyError::InvalidHeaderValue => String::from_str("invalid HTTP header value"),
            ProxyError::InvalidTarget => String::from_str("invalid uri"),
        }
    }
}

/// A request for a tunnel.
#[derive(Debug)]
pub struct ConnectRequest {
    pub method: String,
    pub target: Uri,
    pub headers: HeaderMap<HeaderValue>,
}

/// The headers one after the other, each behind others of its name.
pub open spec fn appended_all(headers: Seq<(Seq<char>, Seq<u8>)>) -> Seq<headers::Entry>
    decreases headers.len(),
{
    if headers.len() == 0 {
        seq![]
    } else {
        headers::appended(
            appended_all(headers.drop_last()),
            (text::lower_text(headers.last().0), headers.last().1, false),
        )
    }
}

/// The headers of a name are all that were given for it, in any letter case and in
/// that order.
pub proof fn proxy_gets_all_headers(headers: Seq<(Seq<char>, Seq<u8>)>, name: Seq<char>)
    ensures
        headers.len() == 0 ==> headers::of_name(appended_all(headers), name).len() == 0,
        headers.len() > 0 ==> headers::of_name(appended_all(headers), name) == (
        if text::lower_text(headers.last().0) == name {
            headers::of_name(appended_all(headers.drop_last()), name).push(
                (name, headers.last().1, false),
            )
        } else {
            headers::of_name(appended_all(headers.drop_last()), name)
        }),
{
    if headers.len() > 0 {
        headers::appended_of_name(
            appended_all(headers.drop_last()),
            (text::lower_text(headers.last().0), headers.last().1, false),
            name,
        );
    }
}

/// The first reason why the pairs are not headers, for a proxy.
pub open spec fn header_error(error: Option<LoadError>) -> Option<ProxyError> {
    match error {
        Some(LoadError::InvalidHeaderName) => Some(ProxyError::InvalidHeaderName),
        Some(_) => Some(ProxyError::InvalidHeaderValue),
        None => None,
    }
}

impl ProxyConfig {
    /// A proxy at an endpoint.
    pub fn new(
        endpoint: Uri,
        conn_type: ConnectionType,
        headers: Vec<(String, String)>,
        raw_public_key: Option<Vec<u8>>,
    ) -> (r: Self)
        ensures
            r.endpoint == endpoint,
            r.conn_type == conn_type,
            r.headers == headers,
            r.raw_public_key == raw_public_key,
    {
        ProxyConfig { endpoint, headers, conn_type, raw_public_key }
    }

    /// The authority to resolve and the host to connect to.
    pub fn endpoint_host(&self) -> (r: Result<(String, String), ProxyError>)
        ensures
            match self.endpoint@.authority {
                None => r == Err::<(String, String), ProxyError>(ProxyError::MissingAuthority),
                Some(authority) => match self.endpoint@.host {
                    None => r == Err::<(String, String), ProxyError>(ProxyError::MissingHost),
                    Some(host) => r is Ok && r->Ok_0.0@ == authority && r->Ok_0.1@ == host,
                },
            },
    {
        match &self.endpoint.authority {
            None => Err(ProxyError::MissingAuthority),
            Some(authority) => match &self.endpoint.host {
                None => Err(ProxyError::MissingHost),
                Some(host) => Ok((authority.clone(), host.clone())),
            },
        }
    }

    /// The headers of a `CONNECT` request: those of the proxy, then `Host`.
    pub fn connect_headers(&self, target_host: &str) -> (r: Result<
        HeaderMap<HeaderValue>,
        ProxyError,
    >)
        requires
            self.headers@.len() <= headers::MAX_HEADERS,
        ensures
            ({
                let pairs = load::pairs(self.headers@);
                let host = vstd::utf8::encode_utf8(target_host@);
                match header_error(load::first_invalid(pairs)) {
                    Some(error) => r == Err::<HeaderMap<HeaderValue>, ProxyError>(error),
                    None => if !headers::is_value(host) {
                        r == Err::<HeaderMap<HeaderValue>, ProxyError>(
                            ProxyError::InvalidHeaderValue,
                        )
                    } else {
                        r is Ok && headers::entries(r->Ok_0) == headers::appended(
                            appended_all(pairs),
                            ("host"@, host, false),
                        )
                    },
                }
            }),
    {
        let mut map = headers::new_map();
        let mut i: usize = 0;
        let ghost all = load::pairs(self.headers@);
        assert(all.skip(0) =~= all);
        assert(all.take(0) =~= Seq::empty());
        while i < self.headers.len()
            invariant
                i <= self.headers@.len() <= headers::MAX_HEADERS,
                all == load::pairs(self.headers@),
                load::first_invalid(all) == load::first_invalid(all.skip(i as int)),
                headers::entries(map) == appended_all(all.take(i as int)),
                headers::entries(map).len() == i,
            decreases self.headers@.len() - i,
        {
            let (name, value) = &self.headers[i];
            proof {
                assert(all[i as int] == (name@, vstd::utf8::encode_utf8(value@)));
                assert(all.skip(i as int)[0] == all[i as int]);
                assert(all.skip(i as int).drop_first() =~= all.skip(i + 1));
                assert(all.take(i + 1).drop_last() =~= all.take(i as int));
            }
            let bytes = value.as_str().as_bytes();
            if !headers::is_header_name(name.as_str()) {
                return Err(ProxyError::InvalidHeaderName);
            }
            if !headers::is_header_value(bytes) {
                return Err(ProxyError::InvalidHeaderValue);
            }
            proof {
                headers::appended_len(
                    headers::entries(map),
                    (text::lower_text(name@), bytes@, false),
                );
            }
            headers::append(&mut map, &headers::parse_name(name.as_str()), bytes, false);
            i = i + 1;
        }
        assert(all.take(i as int) =~= all);
        let host = target_host.as_bytes();
        if !headers::is_header_value(host) {
            return Err(ProxyError::InvalidHeaderValue);
        }
        proof {
            reveal_strlit("Host");
            reveal_strlit("host");
            assert(text::lower_text("Host"@) =~= "host"@);
        }
        headers::append(&mut map, &headers::parse_name("Host"), host, false);
        Ok(map)
    }

    /// The request that asks the proxy for a tunnel to `target_addr`, on behalf
    /// of `target_host`.
    pub fn connect(&self, target_host: &str, target_addr: &str) -> (r: Result<
        ConnectRequest,
        ProxyError,
    >)
        requires
            self.headers@.len() <= headers::MAX_HEADERS,
        ensures
            ({
                let pairs = load::pairs(self.headers@);
                let host = vstd::utf8::encode_utf8(target_host@);
                match header_error(load::first_invalid(pairs)) {
                    Some(error) => r == Err::<ConnectRequest, ProxyError>(error),
                    None => if !headers::is_value(host) {
                        r == Err::<ConnectRequest, ProxyError>(ProxyError::InvalidHeaderValue)
                    } else {
                        match uri::http_uri(target_addr@) {
                            None => r == Err::<ConnectRequest, ProxyError>(
                                ProxyError::InvalidTarget,
                            ),
                            Some(parts) => {
                                &&& r is Ok
                                &&& r->Ok_0.method@ == "CONNECT"@
                                &&& r->Ok_0.target@ == parts
                                &&& headers::entries(r->Ok_0.headers) == headers::appended(
                                    appended_all(pairs),
                                    ("host"@, host, false),
                                )
                            },
                        }
                    },
                }
            }),
    {
        let headers = match self.connect_headers(target_host) {
            Ok(headers) => headers,
            Err(error) => {
                return Err(error);
            },
        };
        match Uri::parse(target_addr) {
            Some(target) => Ok(ConnectRequest { method: String::from_str("CONNECT"), target, headers }),
            None => Err(ProxyError::InvalidTarget),
        }
    }
}

} // verus!
