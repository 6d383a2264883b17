//! The report of a responsiveness test.

use vstd::prelude::*;

use crate::exact;
use crate::latency;
use crate::latency::LatencyResult;
use crate::ranks;
use crate::responsiveness::ResponsivenessResult;
use crate::stats;
use crate::stats::Fraction;
use crate::util;
use crate::util::pretty_ms;

verus! {

/// The report about one leg of the test.
#[derive(Debug, Clone, Copy, PartialEq, Eq, Structural)]
pub struct RpmReport {
    /// Bits per second.
    pub throughput: u64,
    /// Whole microseconds.
    pub loaded_latency_us: u64,
    /// Whole round trips per minute.
    pub rpm: u64,
    /// Loads that ended early with an error. Where there are any, the network
    /// was not fully loaded for a part of the test.
    pub failed_connections: usize,
}

/// What a report about a leg lacks.
#[derive(Debug, Clone, Copy, PartialEq, Eq, Structural)]
pub enum RpmReportError {
    NoThroughput,
    NoLoadedLatency,
    NoRpm,
}

impl RpmReportError {
    pub open spec fn text(self) -> Seq<char> {
        match self {
            RpmReportError::NoThroughput => "no throughputs available"@,
            RpmReportError::NoLoadedLatency => "no loaded latency measurements"@,
            RpmReportError::NoRpm =>
                "no rpm measurements: no interval produced a responsiveness sample"@,
        }
    }

    /// The error as text.
    pub fn message(&self) -> (r: String)
        ensures
            r@ == self.text(),
    {
        match self {
            RpmReportError::NoThroughput => String::from_str("no throughputs available"),
            RpmReportError::NoLoadedLatency => String::from_str("no loaded latency measurements"),
            RpmReportError::NoRpm => String::from_str(
                "no rpm measurements: no interval produced a responsiveness sample",
            ),
        }
    }
}

/// Whether a number is zero, so that it can be left out of a report.
pub fn is_zero(n: &usize) -> (r: bool)
    ensures
        r == (*n == 0),
{
    *n == 0
}

/// The median of the latencies under load.
pub open spec fn loaded_median<C>(result: ResponsivenessResult<C>) -> Option<u64> {
    stats::quantile_of(stats::values_of(result.self_probe_latencies@), latency::half())
}

impl RpmReport {
    /// What the report about a leg says.
    pub open spec fn of<C>(result: ResponsivenessResult<C>) -> Result<RpmReport, RpmReportError> {
        if result.reported_throughput() is None {
            Err(RpmReportError::NoThroughput)
        } else if loaded_median(result) is None {
            Err(RpmReportError::NoLoadedLatency)
        } else if result.rpm is None {
            Err(RpmReportError::NoRpm)
        } else {
            Ok(
                RpmReport {
                    throughput: result.reported_throughput()->0,
                    loaded_latency_us: util::nearest(loaded_median(result)->0 as int, 1000) as u64,
                    rpm: exact::floor_of(result.rpm->0@),
                    failed_connections: result.failed_connections,
                },
            )
        }
    }

    /// Reports a leg. A responsiveness that was not measured is an error, not
    /// zero: zero would look like a measurement.
    pub fn from_rpm_result<C>(result: &ResponsivenessResult<C>) -> (r: Result<
        RpmReport,
        RpmReportError,
    >)
        ensures
            r == RpmReport::of(*result),
    {
        let throughput: u64 = match result.throughput() {
            Some(throughput) => throughput,
            None => {
                return Err(RpmReportError::NoThroughput);
            },
        };
        let latency: u64 = match result.self_probe_latencies.quantile(Fraction { num: 1, den: 2 }) {
            Some(latency) => latency,
            None => {
                return Err(RpmReportError::NoLoadedLatency);
            },
        };
        match &result.rpm {
            Some(rpm) => Ok(
                RpmReport {
                    throughput,
                    loaded_latency_us: pretty_ms(latency),
                    rpm: rpm.floor(),
                    failed_connections: result.failed_connections,
                },
            ),
            None => Err(RpmReportError::NoRpm),
        }
    }
}

/// The report about a leg says what was measured. The loaded latency is the median
/// of the latencies under load, to half a microsecond; the throughput is the one
/// to report; the responsiveness is rounded down. There is a report exactly where
/// all three were measured, and otherwise the first of them that is missing is
/// named.
pub proof fn leg_report_says_what_was_measured<C>(result: ResponsivenessResult<C>, n: u64)
    ensures
        ({
            let samples = result.self_probe_latencies@;
            let latencies = Seq::new(samples.len(), |i: int| samples[i].1);
            let intervals = result.average_goodput_series@.len();
            match RpmReport::of(result) {
                Ok(report) => {
                    &&& intervals > 0 && samples.len() > 0 && result.rpm is Some
                    &&& exists|median: u64| #[trigger]
                        ranks::is_median(latencies, median) && -1000 < 2 * (1000
                            * report.loaded_latency_us - median) <= 1000
                    &&& result.reported_throughput() == Some(report.throughput)
                    &&& (n as real) <= result.rpm->0@ && result.rpm->0@ < (n as real) + (1 as real)
                        ==> report.rpm == n
                    &&& report.failed_connections == result.failed_connections
                },
                Err(RpmReportError::NoThroughput) => intervals == 0,
                Err(RpmReportError::NoLoadedLatency) => intervals > 0 && samples.len() == 0,
                Err(RpmReportError::NoRpm) => intervals > 0 && samples.len() > 0 && result.rpm
                    is None,
            }
        }),
{
    let samples = result.self_probe_latencies@;
    let latencies = Seq::new(samples.len(), |i: int| samples[i].1);
    assert(stats::values_of(samples) =~= latencies);
    ranks::half_way_is_the_median(latencies);
    let intervals = result.average_goodput_series@.len();
    result.throughput_is_the_ninetieth_percentile((9 * intervals) / 10);
    if let Ok(report) = RpmReport::of(result) {
        let median = loaded_median(result)->0;
        util::rounding_is_close(median as int, 1000);
        util::rounding_keeps_order(0, median as int, 1000);
        util::rounding_keeps_order(median as int, u64::MAX as int, 1000);
        assert(ranks::is_median(latencies, median));
        exact::rounding_is_to_whole_numbers(n, result.rpm->0@);
    }
}

/// The report of a test holds the median of the latencies without load, their
/// jitter, and the reports about its two legs, each in its place. There is one
/// exactly where a latency was measured and both legs can be reported.
pub proof fn report_holds_both_legs(
    rtts: Seq<u64>,
    download: Result<RpmReport, RpmReportError>,
    upload: Result<RpmReport, RpmReportError>,
)
    requires
        rtts.len() <= usize::MAX,
    ensures
        match Report::of(rtts, download, upload) {
            Ok(report) => {
                &&& download == Ok::<RpmReport, RpmReportError>(report.download)
                &&& upload == Ok::<RpmReport, RpmReportError>(report.upload)
                &&& exists|median: u64| #[trigger]
                    ranks::is_median(rtts, median) && -1000 < 2 * (1000
                        * report.unloaded_latency_us - median) <= 1000
                &&& report.jitter_us == latency::jitter_us(rtts)
            },
            Err(ReportError::NoUnloadedLatency) => rtts.len() == 0,
            Err(ReportError::Download(error)) => rtts.len() > 0 && download == Err::<
                RpmReport,
                RpmReportError,
            >(error),
            Err(ReportError::Upload(error)) => rtts.len() > 0 && download is Ok && upload == Err::<
                RpmReport,
                RpmReportError,
            >(error),
        },
{
    ranks::half_way_is_the_median(rtts);
    latency::jitter_fits(rtts);
    if let Some(median) = stats::quantile_of(rtts, latency::half()) {
        util::rounding_is_close(median as int, 1000);
        util::rounding_keeps_order(0, median as int, 1000);
        util::rounding_keeps_order(median as int, u64::MAX as int, 1000);
        assert(ranks::is_median(rtts, median));
    }
}

/// The report of a responsiveness test.
#[derive(Debug, Clone, Copy, PartialEq, Eq, Structural)]
pub struct Report {
    /// Whole microseconds.
    pub unloaded_latency_us: u64,
    /// Whole microseconds.
    pub jitter_us: u64,
    pub download: RpmReport,
    pub upload: RpmReport,
}

/// What a report lacks.
#[derive(Debug, Clone, Copy, PartialEq, Eq, Structural)]
pub enum ReportError {
    NoUnloadedLatency,
    Download(RpmReportError),
    Upload(RpmReportError),
}

impl ReportError {
    /// The error as text, after what was being done.
    pub fn message(&self) -> (r: String)
        ensures
            r@ == match *self {
                ReportError::NoUnloadedLatency => "no unloaded latency measurements"@,
                ReportError::Download(error) => "building download report: "@ + error.text(),
                ReportError::Upload(error) => "building upload report: "@ + error.text(),
            },
    {
        match self {
            ReportError::NoUnloadedLatency => String::from_str("no unloaded latency measurements"),
            ReportError::Download(error) => {
                let mut message = String::from_str("building download report: ");
                message.append(error.message().as_str());
                message
            },
            ReportError::Upload(error) => {
                let mut message = String::from_str("building upload report: ");
                message.append(error.message().as_str());
                message
            },
        }
    }
}

impl Report {
    /// What the report says.
    pub open spec fn of(
        rtts: Seq<u64>,
        download: Result<RpmReport, RpmReportError>,
        upload: Result<RpmReport, RpmReportError>,
    ) -> Result<Report, ReportError> {
        let median = stats::quantile_of(rtts, latency::half());
        if median is None {
            Err(ReportError::NoUnloadedLatency)
        } else {
            match download {
                Err(error) => Err(ReportError::Download(error)),
                Ok(download) => match upload {
                    Err(error) => Err(ReportError::Upload(error)),
                    Ok(upload) => Ok(
                        Report {
                            unloaded_latency_us: util::nearest(median->0 as int, 1000) as u64,
                            jitter_us: latency::jitter_us(rtts) as u64,
                            download,
                            upload,
                        },
                    ),
                },
            }
        }
    }

    /// Reports a test. The jitter is zero where fewer than two latencies were
    /// measured.
    pub fn from_rtt_and_rpm_results<C>(
        rtt_result: &LatencyResult,
        download_rpm_result: &ResponsivenessResult<C>,
        upload_rpm_result: &ResponsivenessResult<C>,
    ) -> (r: Result<Report, ReportError>)
        ensures
            r == Report::of(
                stats::values_of(rtt_result.measurements@),
                RpmReport::of(*download_rpm_result),
                RpmReport::of(*upload_rpm_result),
            ),
    {
        let median: u64 = match rtt_result.median() {
            Some(median) => median,
            None => {
                return Err(ReportError::NoUnloadedLatency);
            },
        };
        let jitter_us: u64 = rtt_result.jitter_micros();
        let download = match RpmReport::from_rpm_result(download_rpm_result) {
            Ok(download) => download,
            Err(error) => {
                return Err(ReportError::Download(error));
            },
        };
        let upload = match RpmReport::from_rpm_result(upload_rpm_result) {
            Ok(upload) => upload,
            Err(error) => {
                return Err(ReportError::Upload(error));
            },
        };
        Ok(Report { unloaded_latency_us: pretty_ms(median), jitter_us, download, upload })
    }
}

} // verus!
