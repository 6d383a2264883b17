//! Command line arguments, as far as they are checked or computed with.

use vstd::prelude::*;

use crate::connection::ConnectionType;
use crate::responsiveness::{ConnectionErrorPolicy, DEFAULT_UPLOAD_BYTES_PER_REQUEST};
use crate::stats::Fraction;
use crate::text;

verus! {

/// The smallest size of an upload request that is accepted.
///
/// Below it a request completes almost immediately, and the time goes into
/// starting requests instead of moving bytes: that makes little load, and bothers
/// the server.
pub const MIN_UPLOAD_BYTES_PER_REQUEST: usize = 1_048_576;

/// The size of an upload request below which a warning is in order.
pub const SMALL_UPLOAD_BYTES_PER_REQUEST: usize = 16_777_216;

/// The application protocol of a connection, as named on the command line.
#[derive(Debug, Clone, Copy, PartialEq, Eq, Structural)]
pub enum ConnType {
    H1ClearText,
    H1,
    H2,
    H3,
}

impl From<ConnType> for ConnectionType {
    fn from(conn_type: ConnType) -> (r: ConnectionType) {
        match conn_type {
            ConnType::H1ClearText => ConnectionType::H1 { use_tls: false },
            ConnType::H1 => ConnectionType::H1 { use_tls: true },
            ConnType::H2 => ConnectionType::H2,
            ConnType::H3 => ConnectionType::H3,
        }
    }
}

impl vstd::std_specs::convert::FromSpecImpl<ConnType> for ConnectionType {
    open spec fn obeys_from_spec() -> bool {
        true
    }

    open spec fn from_spec(conn_type: ConnType) -> ConnectionType {
        match conn_type {
            ConnType::H1ClearText => ConnectionType::H1 { use_tls: false },
            ConnType::H1 => ConnectionType::H1 { use_tls: true },
            ConnType::H2 => ConnectionType::H2,
            ConnType::H3 => ConnectionType::H3,
        }
    }
}

/// What happens when a load-generating connection fails, as named on the
/// command line.
#[derive(Debug, Clone, Copy, PartialEq, Eq, Structural)]
pub enum ConnectionErrorPolicyArg {
    /// Retire the failed connection and keep measuring.
    Retire,
    /// Abort the test on the first failed connection.
    Abort,
}

impl From<ConnectionErrorPolicyArg> for ConnectionErrorPolicy {
    fn from(arg: ConnectionErrorPolicyArg) -> (r: ConnectionErrorPolicy) {
        match arg {
            ConnectionErrorPolicyArg::Retire => ConnectionErrorPolicy::Retire,
            ConnectionErrorPolicyArg::Abort => ConnectionErrorPolicy::Abort,
        }
    }
}

impl vstd::std_specs::convert::FromSpecImpl<ConnectionErrorPolicyArg> for ConnectionErrorPolicy {
    open spec fn obeys_from_spec() -> bool {
        true
    }

    open spec fn from_spec(arg: ConnectionErrorPolicyArg) -> ConnectionErrorPolicy {
        match arg {
            ConnectionErrorPolicyArg::Retire => ConnectionErrorPolicy::Retire,
            ConnectionErrorPolicyArg::Abort => ConnectionErrorPolicy::Abort,
        }
    }
}

/// `` `{raw}` is not a whole number of bytes ``
pub open spec fn not_a_number_message(raw: Seq<char>) -> Seq<char> {
    "`"@ + raw + "` is not a whole number of bytes"@
}

/// The message about a size that is too small.
pub open spec fn too_small_message(bytes: nat) -> Seq<char> {
    text::decimal(bytes) + " is too small; the minimum is "@ + text::decimal(
        MIN_UPLOAD_BYTES_PER_REQUEST as nat,
    )
        + " (1 MiB). Requests this small complete instantly, so the load generator would spend the test opening streams rather than saturating the link"@
}

/// Reads the size of an upload request.
pub fn parse_upload_bytes_per_request(raw: &str) -> (r: Result<usize, String>)
    ensures
        match text::whole_number(raw@) {
            None => r is Err && r->Err_0@ == not_a_number_message(raw@),
            Some(bytes) => if bytes > usize::MAX {
                r is Err && r->Err_0@ == not_a_number_message(raw@)
            } else if bytes < MIN_UPLOAD_BYTES_PER_REQUEST {
                r is Err && r->Err_0@ == too_small_message(bytes)
            } else {
                r is Ok && r->Ok_0 == bytes
            },
        },
{
    let bytes: usize = match text::parse_whole_number(raw) {
        Some(number) if number <= usize::MAX as u64 => number as usize,
        _ => {
            let mut message = String::from_str("`");
            message.append(raw);
            message.append("` is not a whole number of bytes");
            return Err(message);
        },
    };
    if bytes < MIN_UPLOAD_BYTES_PER_REQUEST {
        let mut message = text::decimal_text(bytes as u64);
        message.append(" is too small; the minimum is ");
        text::push_decimal(&mut message, MIN_UPLOAD_BYTES_PER_REQUEST as u64);
        message.append(
            " (1 MiB). Requests this small complete instantly, so the load generator would spend the test opening streams rather than saturating the link",
        );
        return Err(message);
    }
    Ok(bytes)
}

/// The message about a size that is accepted and small.
pub open spec fn small_message(bytes: nat) -> Seq<char> {
    "--upload-max-request-bytes is "@ + text::decimal(bytes) + " ("@ + text::decimal(
        bytes / 1_048_576,
    )
        + " MiB); request overhead becomes significant at this size and the upload leg may under-report capacity"@
}

/// A warning where the size of an upload request is small.
pub fn warn_on_small_requests(bytes: usize) -> (r: Option<String>)
    ensures
        bytes < SMALL_UPLOAD_BYTES_PER_REQUEST ==> r is Some && r->0@ == small_message(bytes as nat),
        bytes >= SMALL_UPLOAD_BYTES_PER_REQUEST ==> r is None,
        r is None == (bytes >= 16 * 1_048_576),
        r matches Some(message) ==> message@ == "--upload-max-request-bytes is "@ + text::decimal(
            bytes as nat,
        ) + " ("@ + text::decimal(bytes as nat / 1_048_576)
            + " MiB); request overhead becomes significant at this size and the upload leg may under-report capacity"@,
{
    if bytes >= SMALL_UPLOAD_BYTES_PER_REQUEST {
        return None;
    }
    let mut message = String::from_str("--upload-max-request-bytes is ");
    text::push_decimal(&mut message, bytes as u64);
    message.append(" (");
    text::push_decimal(&mut message, (bytes / 1_048_576) as u64);
    message.append(
        " MiB); request overhead becomes significant at this size and the upload leg may under-report capacity",
    );
    Some(message)
}

/// Arguments of a responsiveness test.
#[derive(Debug)]
pub struct RpmArgs {
    /// Where the addresses of the test come from.
    pub config: Option<String>,
    pub large_download_url: String,
    pub small_download_url: String,
    pub upload_url: String,
    /// Do not verify certificates.
    pub insecure: bool,
    pub on_connection_error: ConnectionErrorPolicyArg,
    pub moving_average_distance: usize,
    pub std_tolerance: Fraction,
    pub trimmed_mean_percent: Fraction,
    pub max_loaded_connections: usize,
    pub upload_bytes_per_request: usize,
    pub interval_duration_ms: u64,
    pub test_duration_ms: u64,
    /// Do not report scores.
    pub disable_aim_scores: bool,
}

impl Default for RpmArgs {
    fn default() -> (r: Self)
        ensures
            r.config is None,
            r.large_download_url@ == "https://h3.speed.cloudflare.com/__down?bytes=10000000000"@,
            r.small_download_url@ == "https://h3.speed.cloudflare.com/__down?bytes=10"@,
            r.upload_url@ == "https://h3.speed.cloudflare.com/__up"@,
            !r.insecure,
            r.on_connection_error == ConnectionErrorPolicyArg::Retire,
            r.moving_average_distance == 4,
            r.std_tolerance == (Fraction { num: 5, den: 100 }),
            r.trimmed_mean_percent == (Fraction { num: 95, den: 100 }),
            r.max_loaded_connections == 16,
            r.upload_bytes_per_request == DEFAULT_UPLOAD_BYTES_PER_REQUEST,
            r.interval_duration_ms == 1000,
            r.test_duration_ms == 12_000,
            !r.disable_aim_scores,
    {
        RpmArgs {
            config: None,
            large_download_url: String::from_str(
                "https://h3.speed.cloudflare.com/__down?bytes=10000000000",
            ),
            small_download_url: String::from_str("https://h3.speed.cloudflare.com/__down?bytes=10"),
            upload_url: String::from_str("https://h3.speed.cloudflare.com/__up"),
            insecure: false,
            on_connection_error: ConnectionErrorPolicyArg::Retire,
            moving_average_distance: 4,
            std_tolerance: Fraction { num: 5, den: 100 },
            trimmed_mean_percent: Fraction { num: 95, den: 100 },
            max_loaded_connections: 16,
            upload_bytes_per_request: DEFAULT_UPLOAD_BYTES_PER_REQUEST,
            interval_duration_ms: 1000,
            test_duration_ms: 12_000,
            disable_aim_scores: false,
        }
    }
}

impl RpmArgs {
    /// Whether results are reported for quality scores.
    pub fn uploads_scores(&self) -> (r: bool)
        ensures
            r == !self.disable_aim_scores,
    {
        !self.disable_aim_scores
    }
}

/// How much the program says about what it does.
#[derive(Debug, Clone, Copy, PartialEq, Eq, Structural)]
pub enum Verbosity {
    Off,
    Error,
    Warn,
    Info,
    Debug,
    Trace,
}

/// The filter of log messages: the one given in the environment, or else that of
/// the verbosity.
pub open spec fn filter_text(given: Option<Seq<char>>, verbosity: Verbosity) -> Seq<char> {
    match given {
        Some(filter) => filter,
        None => match verbosity {
            Verbosity::Off => "error"@,
            Verbosity::Error => "mach=info,error"@,
            Verbosity::Warn => "mach=info,nq_rpm=info,nq_latency=info,nq_core=error"@,
            Verbosity::Info => "mach=info,nq_rpm=info,nq_latency=info,nq_core=info"@,
            Verbosity::Debug => "debug"@,
            Verbosity::Trace => "trace"@,
        },
    }
}

/// The filter of log messages.
pub fn log_filter(given: Option<String>, verbosity: Verbosity) -> (r: String)
    ensures
        r@ == filter_text(
            match given {
                Some(filter) => Some(filter@),
                None => None,
            },
            verbosity,
        ),
{
    match given {
        Some(filter) => filter,
        None => match verbosity {
            Verbosity::Off => String::from_str("error"),
            Verbosity::Error => String::from_str("mach=info,error"),
            Verbosity::Warn => String::from_str(
                "mach=info,nq_rpm=info,nq_latency=info,nq_core=error",
            ),
            Verbosity::Info => String::from_str(
                "mach=info,nq_rpm=info,nq_latency=info,nq_core=info",
            ),
            Verbosity::Debug => String::from_str("debug"),
            Verbosity::Trace => String::from_str("trace"),
        },
    }
}

/// Arguments of a packet loss test.
#[derive(Debug)]
pub struct PacketLossArgs {
    /// The TURN server to send packets to.
    pub turn_uri: String,
    /// Where the credentials for the TURN server come from.
    pub turn_cred_url: String,
    /// How many packets to send.
    pub num_packets: usize,
    /// How many packets to send before a pause.
    pub batch_size: usize,
    pub batch_wait_time_ms: u64,
    pub response_wait_time_ms: u64,
    pub download_url: String,
    pub upload_url: String,
}

/// Arguments of a download.
#[derive(Debug)]
pub struct DownloadArgs {
    pub url: String,
    pub conn_type: ConnType,
    pub headers: Vec<String>,
}

/// Arguments of an upload.
#[derive(Debug)]
pub struct UploadArgs {
    pub url: String,
    pub conn_type: ConnType,
    /// How many bytes to upload.
    pub bytes: Option<usize>,
    pub headers: Vec<String>,
}

impl UploadArgs {
    /// How many bytes to upload: ten million unless told otherwise.
    pub fn size(&self) -> (r: usize)
        ensures
            r == (match self.bytes {
                Some(bytes) => bytes,
                None => 10_000_000,
            }),
    {
        match self.bytes {
            Some(bytes) => bytes,
            None => 10_000_000,
        }
    }
}

} // verus!
