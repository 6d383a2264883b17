//! Where a responsiveness test goes to, and what is said about its outcome.

use vstd::prelude::*;

use crate::args::RpmArgs;
use crate::client;
use crate::client::{Client, ClientError, ConnectionChoice, Prepared};
use crate::connection::ConnectionType;
use crate::headers;
use crate::responsiveness::{ConnectionErrorPolicy, ResponsivenessConfig};
use crate::scoped_headers::ScopedHeaders;
use crate::text;
use crate::uri;
use crate::uri::{Uri, Url};

verus! {

/// A configuration as published by a server.
#[derive(Debug)]
pub struct RpmServerConfig {
    pub urls: RpmServerUrls,
}

/// The addresses as published by a server, each under one of two names.
#[derive(Debug)]
pub struct RpmServerUrls {
    pub small_download_url: Option<String>,
    pub small_https_download_url: Option<String>,
    pub large_download_url: Option<String>,
    pub large_https_download_url: Option<String>,
    pub upload_url: Option<String>,
    pub https_upload_url: Option<String>,
}

/// The addresses of a responsiveness test.
#[derive(Debug)]
pub struct RpmUrls {
    pub small_download_url: String,
    pub large_download_url: String,
    pub upload_url: String,
}

/// Where the addresses of a test come from.
#[derive(Debug)]
pub enum UrlSource {
    /// A configuration at this address.
    Fetch(String),
    /// They were given.
    Given(RpmUrls),
}

/// The address under either name: the one for `https` where there is one.
pub open spec fn chosen(https: Option<Seq<char>>, plain: Option<Seq<char>>) -> Option<Seq<char>> {
    match https {
        Some(url) => Some(url),
        None => plain,
    }
}

/// An address for `https` is taken whatever the other one is, and the other one
/// only where there is none for `https`.
pub proof fn https_comes_first(https: Seq<char>, plain: Option<Seq<char>>)
    ensures
        chosen(Some(https), plain) == Some(https),
        chosen(None, plain) == plain,
{
}

/// The message about an address that has neither name.
pub open spec fn missing_message(https_key: Seq<char>, plain_key: Seq<char>) -> Seq<char> {
    "rpm config is missing `"@ + plain_key + "` (or `"@ + https_key + "`)"@
}

/// Whether `r` is the address under either name, or says that it is missing.
pub open spec fn resolves(
    r: Result<String, String>,
    https: Option<Seq<char>>,
    plain: Option<Seq<char>>,
    https_key: Seq<char>,
    plain_key: Seq<char>,
) -> bool {
    match chosen(https, plain) {
        Some(url) => r is Ok && r->Ok_0@ == url,
        None => r is Err && r->Err_0@ == missing_message(https_key, plain_key),
    }
}

/// Picks the address named for `https` where there is one, else the other.
pub fn resolve_url(
    https: Option<String>,
    plain: Option<String>,
    https_key: &str,
    plain_key: &str,
) -> (r: Result<String, String>)
    ensures
        resolves(r, uri::chars_of(https), uri::chars_of(plain), https_key@, plain_key@),
{
    match https {
        Some(url) => Ok(url),
        None => match plain {
            Some(url) => Ok(url),
            None => {
                let mut message = String::from_str("rpm config is missing `");
                message.append(plain_key);
                message.append("` (or `");
                message.append(https_key);
                message.append("`)");
                Err(message)
            },
        },
    }
}

impl RpmServerUrls {
    /// The addresses of a test. The first one that is missing is an error.
    pub fn resolve(self) -> (r: Result<RpmUrls, String>)
        ensures
            ({
                let small = chosen(
                    uri::chars_of(self.small_https_download_url),
                    uri::chars_of(self.small_download_url),
                );
                let large = chosen(
                    uri::chars_of(self.large_https_download_url),
                    uri::chars_of(self.large_download_url),
                );
                let upload = chosen(
                    uri::chars_of(self.https_upload_url),
                    uri::chars_of(self.upload_url),
                );
                if small is None {
                    r is Err && r->Err_0@ == missing_message(
                        "small_https_download_url"@,
                        "small_download_url"@,
                    )
                } else if large is None {
                    r is Err && r->Err_0@ == missing_message(
                        "large_https_download_url"@,
                        "large_download_url"@,
                    )
                } else if upload is None {
                    r is Err && r->Err_0@ == missing_message("https_upload_url"@, "upload_url"@)
                } else {
                    &&& r is Ok
                    &&& r->Ok_0.small_download_url@ == small->0
                    &&& r->Ok_0.large_download_url@ == large->0
                    &&& r->Ok_0.upload_url@ == upload->0
                }
            }),
    {
        let small = match resolve_url(
            self.small_https_download_url,
            self.small_download_url,
            "small_https_download_url",
            "small_download_url",
        ) {
            Ok(url) => url,
            Err(message) => {
                return Err(message);
            },
        };
        let large = match resolve_url(
            self.large_https_download_url,
            self.large_download_url,
            "large_https_download_url",
            "large_download_url",
        ) {
            Ok(url) => url,
            Err(message) => {
                return Err(message);
            },
        };
        let upload = match resolve_url(
            self.https_upload_url,
            self.upload_url,
            "https_upload_url",
            "upload_url",
        ) {
            Ok(url) => url,
            Err(message) => {
                return Err(message);
            },
        };
        Ok(RpmUrls { small_download_url: small, large_download_url: large, upload_url: upload })
    }
}

impl RpmArgs {
    /// Where the addresses of the test come from: a configuration to fetch, or
    /// else the command line.
    pub fn urls(&self) -> (r: UrlSource)
        ensures
            match self.config {
                Some(endpoint) => r matches UrlSource::Fetch(from) && from@ == endpoint@,
                None => r matches UrlSource::Given(urls) && {
                    &&& urls.small_download_url@ == self.small_download_url@
                    &&& urls.large_download_url@ == self.large_download_url@
                    &&& urls.upload_url@ == self.upload_url@
                },
            },
    {
        match &self.config {
            Some(endpoint) => UrlSource::Fetch(endpoint.clone()),
            None => UrlSource::Given(
                RpmUrls {
                    small_download_url: self.small_download_url.clone(),
                    large_download_url: self.large_download_url.clone(),
                    upload_url: self.upload_url.clone(),
                },
            ),
        }
    }

    /// The durations fit the clock.
    pub open spec fn durations_fit(&self) -> bool {
        self.interval_duration_ms * 1_000_000 <= u64::MAX && self.test_duration_ms * 1_000_000
            <= u64::MAX
    }

    /// Whether the durations fit the clock.
    pub fn durations_in_range(&self) -> (r: bool)
        ensures
            r == self.durations_fit(),
    {
        self.interval_duration_ms <= 18_446_744_073_709 && self.test_duration_ms
            <= 18_446_744_073_709
    }

    /// How the test at the given addresses is run.
    pub fn responsiveness_config(
        &self,
        small: &Url,
        large: &Url,
        upload: &Url,
        scoped_headers: Option<ScopedHeaders>,
    ) -> (r: ResponsivenessConfig)
        requires
            self.durations_fit(),
        ensures
            r.small_download_url@ == small@.text,
            r.large_download_url@ == large@.text,
            r.upload_url@ == upload@.text,
            r.moving_average_distance == self.moving_average_distance,
            r.interval_duration == self.interval_duration_ms * 1_000_000,
            r.test_duration == self.test_duration_ms * 1_000_000,
            r.trimmed_mean_percent == self.trimmed_mean_percent,
            r.std_tolerance == self.std_tolerance,
            r.max_loaded_connections == self.max_loaded_connections,
            r.conn_type == ConnectionType::H2,
            !r.determine_load_only,
            r.upload_bytes_per_request == self.upload_bytes_per_request,
            r.on_connection_error == ConnectionErrorPolicy::Retire
                <==> self.on_connection_error is Retire,
            r.scoped_headers == scoped_headers,
    {
        ResponsivenessConfig {
            large_download_url: large.text.clone(),
            small_download_url: small.text.clone(),
            upload_url: upload.text.clone(),
            moving_average_distance: self.moving_average_distance,
            interval_duration: self.interval_duration_ms * 1_000_000,
            test_duration: self.test_duration_ms * 1_000_000,
            trimmed_mean_percent: self.trimmed_mean_percent,
            std_tolerance: self.std_tolerance,
            max_loaded_connections: self.max_loaded_connections,
            conn_type: ConnectionType::H2,
            determine_load_only: false,
            upload_bytes_per_request: self.upload_bytes_per_request,
            on_connection_error: ConnectionErrorPolicy::from(self.on_connection_error),
            scoped_headers,
        }
    }
}

/// Makes the request for a configuration: a `GET` over HTTP/2.
pub fn config_request<C>(uri: &Uri, scoped_headers: Option<ScopedHeaders>) -> (r: Result<
    Prepared<C>,
    ClientError,
>)
    requires
        client::scoped_len(scoped_headers) + 1 <= headers::MAX_HEADERS,
    ensures
        match uri@.host {
            None => r == Err::<Prepared<C>, ClientError>(ClientError::MissingHost),
            Some(host) => r matches Ok(request) && {
                &&& request.method@ == "GET"@
                &&& request.host@ == host
                &&& request.port == client::request_port(uri@)
                &&& request.host_with_port@ == client::host_and_port(
                    host,
                    client::request_port(uri@),
                )
                &&& headers::entries(request.headers) == client::with_scoped(
                    client::with_user_agent(seq![]),
                    scoped_headers,
                    host,
                )
                &&& request.connection == ConnectionChoice::<C>::New(ConnectionType::H2)
                &&& request.upload is None
            },
        },
{
    proof {
        reveal_strlit("GET");
    }
    let client: Client<C> = Client::default();
    client.new_connection(ConnectionType::h2()).method("GET").scoped_headers(scoped_headers).send(
        uri,
    )
}

/// Why a configuration was not served. `None` for a response with success.
pub fn config_rejection(config_url: &str, status: u16) -> (r: Option<String>)
    ensures
        r is None == (200 <= status <= 299),
        client::is_success(status) ==> r is None,
        !client::is_success(status) ==> r is Some && r->0@ == "could not fetch rpm config from: "@
            + config_url@,
{
    if 200 <= status && status < 300 {
        return None;
    }
    let mut message = String::from_str("could not fetch rpm config from: ");
    message.append(config_url);
    Some(message)
}

/// The message about loads that failed.
pub open spec fn degraded_message(leg: Seq<char>, failed: nat) -> Seq<char> {
    leg + ": "@ + text::decimal(failed)
        + " load-generating connection(s) failed, so the link was not fully loaded for part of the test -- treat this "@
        + leg + " RPM score as unreliable (it will read higher than the truth)"@
}

/// The message about what may have made uploads fail.
pub open spec fn rejected_message(upload_bytes_per_request: nat) -> Seq<char> {
    "if these were HTTP 413 rejections, the server caps request bodies below the current --upload-max-request-bytes ("@
        + text::decimal(upload_bytes_per_request) + "); try a lower value"@
}

/// Warnings about a leg of the test that lost loads.
///
/// A load that failed left the network less busy than intended for a part of
/// the test. The result looks like any other number, and is too good.
pub fn warn_on_degraded_result(
    leg: &str,
    failed_connections: usize,
    upload_bytes_per_request: usize,
) -> (warnings: Vec<String>)
    ensures
        failed_connections == 0 ==> warnings@.len() == 0,
        failed_connections > 0 ==> {
            &&& warnings@.len() == (if leg@ == "upload"@ {
                2int
            } else {
                1int
            })
            &&& warnings@[0]@ == degraded_message(leg@, failed_connections as nat)
            &&& leg@ == "upload"@ ==> warnings@[1]@ == rejected_message(
                upload_bytes_per_request as nat,
            )
        },
{
    let mut warnings: Vec<String> = Vec::new();
    if failed_connections == 0 {
        return warnings;
    }
    let mut message = leg.to_owned();
    message.append(": ");
    text::push_decimal(&mut message, failed_connections as u64);
    message.append(
        " load-generating connection(s) failed, so the link was not fully loaded for part of the test -- treat this ",
    );
    message.append(leg);
    message.append(" RPM score as unreliable (it will read higher than the truth)");
    warnings.push(message);
    if text::same_text(leg, "upload") {
        let mut hint = String::from_str(
            "if these were HTTP 413 rejections, the server caps request bodies below the current --upload-max-request-bytes (",
        );
        text::push_decimal(&mut hint, upload_bytes_per_request as u64);
        hint.append("); try a lower value");
        warnings.push(hint);
    }
    warnings
}

/// How many seconds to wait for the upload of scores: five unless a whole
/// number is given.
pub fn upload_timeout_secs(given: Option<&str>) -> (r: u64)
    ensures
        r == (match given {
            Some(given) => match text::whole_number(given@) {
                Some(secs) => if secs <= u64::MAX {
                    secs as u64
                } else {
                    5
                },
                None => 5,
            },
            None => 5,
        }),
{
    match given {
        Some(given) => match text::parse_whole_number(given) {
            Some(secs) => secs,
            None => 5,
        },
        None => 5,
    }
}

} // verus!
