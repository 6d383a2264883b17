//! Saturating the network in one or both directions, without probing it.

use vstd::prelude::*;

use crate::args::ConnType;
use crate::connection::ConnectionType;
use crate::responsiveness;
use crate::responsiveness::{ConnectionErrorPolicy, ResponsivenessConfig, ResponsivenessResult};
use crate::stats::Fraction;
use crate::uri::Url;
use crate::util;
use crate::util::pretty_secs;

verus! {

/// Which side of the network is saturated.
#[derive(Debug)]
pub enum Direction {
    /// The download side.
    Down {
        /// The address to download from.
        download_url: String,
    },
    /// The upload side.
    Up {
        /// The address to upload to.
        upload_url: String,
    },
    /// Both sides at once.
    Both {
        /// The address to download from.
        download_url: String,
        /// The address to upload to.
        upload_url: String,
    },
}

/// Arguments of a saturation test.
#[derive(Debug)]
pub struct SaturateArgs {
    pub conn_type: ConnType,
    pub direction: Direction,
    /// For how many seconds to saturate the network.
    pub duration: u64,
}

/// The addresses of a saturation test.
#[derive(Debug)]
pub struct Urls {
    pub upload: String,
    pub download: String,
}

/// Which legs a saturation test has.
#[derive(Debug, Clone, Copy, PartialEq, Eq, Structural)]
pub struct Legs {
    pub download: bool,
    pub upload: bool,
}

impl Default for Direction {
    fn default() -> (r: Self)
        ensures
            r matches Direction::Down { download_url } && download_url@
                == "http://speed.cloudflare.com/__down?bytes=1000000000"@,
    {
        Direction::Down {
            download_url: String::from_str(
                "http://speed.cloudflare.com/__down?bytes=1000000000",
            ),
        }
    }
}

impl Direction {
    /// The addresses to use. Where only one side is saturated, its address
    /// stands for both.
    pub fn urls(&self) -> (r: Urls)
        ensures
            match *self {
                Direction::Up { upload_url } => r.upload@ == upload_url@ && r.download@
                    == upload_url@,
                Direction::Down { download_url } => r.upload@ == download_url@ && r.download@
                    == download_url@,
                Direction::Both { download_url, upload_url } => r.upload@ == upload_url@
                    && r.download@ == download_url@,
            },
    {
        match self {
            Direction::Up { upload_url } => Urls {
                upload: upload_url.clone(),
                download: upload_url.clone(),
            },
            Direction::Down { download_url } => Urls {
                upload: download_url.clone(),
                download: download_url.clone(),
            },
            Direction::Both { download_url, upload_url } => Urls {
                upload: upload_url.clone(),
                download: download_url.clone(),
            },
        }
    }

    /// The legs to run.
    pub fn legs(&self) -> (r: Legs)
        ensures
            r == (Legs { download: !(*self is Up), upload: !(*self is Down) }),
    {
        match self {
            Direction::Down { .. } => Legs { download: true, upload: false },
            Direction::Up { .. } => Legs { download: false, upload: true },
            Direction::Both { .. } => Legs { download: true, upload: true },
        }
    }

    /// What to report, given how each leg that ran ended. A failure counts only
    /// where it leaves nothing to report: with both legs, the other one is
    /// reported, and even none.
    pub fn collect<R, E>(
        &self,
        download: Option<Result<R, E>>,
        upload: Option<Result<R, E>>,
    ) -> (r: Result<(Option<R>, Option<R>), E>)
        requires
            download is Some == !(*self is Up),
            upload is Some == !(*self is Down),
        ensures
            match *self {
                Direction::Down { .. } => match download->0 {
                    Ok(result) => r == Ok::<(Option<R>, Option<R>), E>((Some(result), None)),
                    Err(error) => r == Err::<(Option<R>, Option<R>), E>(error),
                },
                Direction::Up { .. } => match upload->0 {
                    Ok(result) => r == Ok::<(Option<R>, Option<R>), E>((None, Some(result))),
                    Err(error) => r == Err::<(Option<R>, Option<R>), E>(error),
                },
                Direction::Both { .. } => r == Ok::<(Option<R>, Option<R>), E>(
                    (
                        match download->0 {
                            Ok(result) => Some(result),
                            Err(_) => None,
                        },
                        match upload->0 {
                            Ok(result) => Some(result),
                            Err(_) => None,
                        },
                    ),
                ),
            },
    {
        match self {
            Direction::Down { .. } => match download.unwrap() {
                Ok(result) => Ok((Some(result), None)),
                Err(error) => Err(error),
            },
            Direction::Up { .. } => match upload.unwrap() {
                Ok(result) => Ok((None, Some(result))),
                Err(error) => Err(error),
            },
            Direction::Both { .. } => Ok((download.unwrap().ok(), upload.unwrap().ok())),
        }
    }
}

impl SaturateArgs {
    /// How the test at the given addresses is run: like a responsiveness test
    /// that only determines the load.
    pub fn config(&self, download: &Url, upload: &Url) -> (r: ResponsivenessConfig)
        requires
            self.duration * 1_000_000_000 <= u64::MAX,
        ensures
            r.large_download_url@ == download@.text,
            r.small_download_url@ == download@.text,
            r.upload_url@ == upload@.text,
            r.determine_load_only,
            r.conn_type == (match self.conn_type {
                ConnType::H1ClearText => ConnectionType::H1 { use_tls: false },
                ConnType::H1 => ConnectionType::H1 { use_tls: true },
                ConnType::H2 => ConnectionType::H2,
                ConnType::H3 => ConnectionType::H3,
            }),
            r.test_duration == self.duration * 1_000_000_000,
            r.moving_average_distance == 4,
            r.interval_duration == 1_000_000_000,
            r.max_loaded_connections == 16,
            r.trimmed_mean_percent == (Fraction { num: 95, den: 100 }),
            r.std_tolerance == (Fraction { num: 5, den: 100 }),
            r.upload_bytes_per_request == responsiveness::DEFAULT_UPLOAD_BYTES_PER_REQUEST,
            r.on_connection_error == ConnectionErrorPolicy::Retire,
            r.scoped_headers is None,
    {
        let defaults = ResponsivenessConfig::default();
        ResponsivenessConfig {
            large_download_url: download.text.clone(),
            small_download_url: download.text.clone(),
            upload_url: upload.text.clone(),
            determine_load_only: true,
            conn_type: ConnectionType::from(self.conn_type),
            test_duration: self.duration * 1_000_000_000,
            ..defaults
        }
    }
}

/// What a saturation test says about one side.
#[derive(Debug, Clone, Copy, PartialEq, Eq, Structural)]
pub struct SideReport {
    /// Bits per second.
    pub capacity: u64,
    /// How long the test took, in milliseconds.
    pub duration_ms: u64,
}

/// Reports one side: the throughput that settled, or else the one that nine in
/// ten intervals do not exceed, zero without any. A throughput of less than one
/// bit per second counts as none.
pub fn side_report<C>(result: &ResponsivenessResult<C>) -> (r: SideReport)
    ensures
        r.capacity == (if result.whole_capacity() != 0 {
            result.whole_capacity()
        } else {
            match result.reported_throughput() {
                Some(throughput) => throughput,
                None => 0,
            }
        }),
        r.duration_ms == util::nearest(result.duration as int, 1_000_000),
{
    let settled: u64 = result.capacity_rate();
    let capacity: u64 = if settled != 0 {
        settled
    } else {
        match result.throughput() {
            Some(throughput) => throughput,
            None => 0,
        }
    };
    SideReport { capacity, duration_ms: pretty_secs(result.duration) }
}

} // verus!
