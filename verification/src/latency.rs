//! Latency without load: the time it takes to set up connections.

use http::{HeaderMap, HeaderValue};
use vstd::prelude::*;

use crate::client;
use crate::connection;
use crate::connection::{ConnectionTiming, ConnectionType};
use crate::headers;
use crate::ranks;
use crate::scoped_headers::ScopedHeaders;
use crate::stats;
use crate::stats::{Fraction, Ratio, TimeSeries};
use crate::text;
use crate::time;
use crate::time::{Nanos, Timestamp};
use crate::uri;
use crate::uri::{Uri, Url};
use crate::util;
use crate::util::{pretty_ms, rounded};

verus! {

/// The share at which the median of a series lies.
pub open spec fn half() -> Fraction {
    Fraction { num: 1, den: 2 }
}

/// How latency is measured.
#[derive(Debug)]
pub struct LatencyConfig {
    pub url: Url,
    /// How many connections are set up.
    pub runs: usize,
    /// Speak HTTP/1.1 without TLS.
    pub no_tls: bool,
    /// Headers attached only to requests whose host matches their allowlist.
    pub scoped_headers: Option<ScopedHeaders>,
}

impl Default for LatencyConfig {
    fn default() -> (r: Self)
        ensures
            r.url@ == (uri::UrlParts {
                text: "https://h3.speed.cloudflare.com/__down?bytes=10"@,
                scheme: "https"@,
                host: Some("h3.speed.cloudflare.com"@),
                port: None,
                known_port: Some(443),
            }),
            r.runs == 20,
            !r.no_tls,
            r.scoped_headers is None,
    {
        LatencyConfig {
            url: Url {
                text: String::from_str("https://h3.speed.cloudflare.com/__down?bytes=10"),
                scheme: String::from_str("https"),
                host: Some(String::from_str("h3.speed.cloudflare.com")),
                port: None,
                known_port: Some(443),
            },
            runs: 20,
            no_tls: false,
            scoped_headers: None,
        }
    }
}

/// How round trip times are measured.
#[derive(Debug)]
pub struct RttConfig {
    pub url: Url,
    /// How many connections are set up.
    pub runs: usize,
}

impl Default for RttConfig {
    fn default() -> (r: Self)
        ensures
            r.url@ == (uri::UrlParts {
                text: "https://aim.cloudflare.com/responsiveness/api/v1/small"@,
                scheme: "https"@,
                host: Some("aim.cloudflare.com"@),
                port: None,
                known_port: Some(443),
            }),
            r.runs == 20,
    {
        RttConfig {
            url: Url {
                text: String::from_str("https://aim.cloudflare.com/responsiveness/api/v1/small"),
                scheme: String::from_str("https"),
                host: Some(String::from_str("aim.cloudflare.com")),
                port: None,
                known_port: Some(443),
            },
            runs: 20,
        }
    }
}

/// Why latency cannot be measured.
#[derive(Debug, Clone, Copy, PartialEq, Eq, Structural)]
pub enum LatencyError {
    /// The address names no host.
    MissingDomain,
    /// Not a single run was asked for.
    NoRuns,
    /// There is no measurement to report.
    NoMeasurements,
}

impl LatencyError {
    /// The error as text.
    pub fn message(&self) -> (r: String)
        ensures
            r@ == match *self {
                LatencyError::MissingDomain => "small download url must have a domain"@,
                LatencyError::NoRuns => "latency runs must be >= 1"@,
                LatencyError::NoMeasurements => "no measurements found, median rtt is null"@,
            },
    {
        match self {
            LatencyError::MissingDomain => String::from_str(
                "small download url must have a domain",
            ),
            LatencyError::NoRuns => String::from_str("latency runs must be >= 1"),
            LatencyError::NoMeasurements => String::from_str(
                "no measurements found, median rtt is null",
            ),
        }
    }
}

/// Where a run connects to.
#[derive(Debug)]
pub struct Target {
    pub host: String,
    pub host_with_port: String,
    pub conn_type: ConnectionType,
}

/// The port of an address, or the default of its scheme: 80 for `http`, 443
/// for `https` and all others.
pub open spec fn latency_port(parts: uri::UrlParts) -> u16 {
    match parts.port {
        Some(port) => port,
        None => if parts.scheme == "http"@ {
            80
        } else {
            443
        },
    }
}

/// The port of an address, or the default of a well-known scheme, or 443.
pub open spec fn rtt_port(parts: uri::UrlParts) -> u16 {
    match parts.known_port {
        Some(port) => port,
        None => 443,
    }
}

/// Whether `r` is the target for an address.
pub open spec fn is_target(
    r: Result<Target, LatencyError>,
    parts: uri::UrlParts,
    port: u16,
    conn_type: ConnectionType,
) -> bool {
    match parts.host {
        None => r == Err::<Target, LatencyError>(LatencyError::MissingDomain),
        Some(host) => r matches Ok(target) && {
            &&& target.host@ == host
            &&& target.host_with_port@ == client::host_and_port(host, port)
            &&& target.conn_type == conn_type
        },
    }
}

/// The target at a port of the host of an address.
fn target_at(url: &Url, port: u16, conn_type: ConnectionType) -> (r: Result<Target, LatencyError>)
    ensures
        is_target(r, url@, port, conn_type),
{
    match &url.host {
        None => Err(LatencyError::MissingDomain),
        Some(host) => {
            let mut host_with_port = host.clone();
            host_with_port.append(":");
            text::push_decimal(&mut host_with_port, port as u64);
            Ok(Target { host: host.clone(), host_with_port, conn_type })
        },
    }
}

/// A port in the address is the one to connect to. Without one it is that of the
/// scheme.
pub proof fn ports_follow_the_address(parts: uri::UrlParts)
    ensures
        parts.port matches Some(port) ==> latency_port(parts) == port,
        parts.port is None && parts.scheme == "http"@ ==> latency_port(parts) == 80,
        parts.port is None && parts.scheme != "http"@ ==> latency_port(parts) == 443,
        parts.known_port matches Some(port) ==> rtt_port(parts) == port,
        parts.known_port is None ==> rtt_port(parts) == 443,
{
}

/// How long the transport handshake of a run took: from the time the host was
/// resolved to the time the transport was connected.
pub open spec fn handshake(phases: connection::Phases, resolved: Timestamp) -> int {
    connection::saturating_difference(phases.connect, time::span(phases.start, resolved))
}

/// How long the transport handshake took on a connection whose timing began
/// before the host was resolved.
fn handshake_of(timing: &ConnectionTiming, resolved: Timestamp) -> (r: Nanos)
    ensures
        r == handshake(timing@, resolved),
{
    let mut timing = *timing;
    timing.set_lookup(resolved);
    timing.tcp_handshake()
}

/// A latency measurement in progress.
#[derive(Debug)]
pub struct Latency {
    pub start: Timestamp,
    pub config: LatencyConfig,
    pub probe_results: TimeSeries<u64>,
    /// How many runs are done.
    pub done: usize,
}

/// A series with one more sample.
pub open spec fn with_sample(samples: Seq<(Timestamp, u64)>, at: Timestamp, value: u64) -> Seq<
    (Timestamp, u64),
> {
    samples.insert(stats::count_before(samples, at) as int, (at, value))
}

impl Latency {
    /// A measurement that starts at `start`.
    pub fn new(config: LatencyConfig, start: Timestamp) -> (r: Self)
        ensures
            r.start == start,
            r.config == config,
            r.probe_results@.len() == 0,
            r.done == 0,
    {
        Latency { start, config, probe_results: TimeSeries::new(), done: 0 }
    }

    /// Where the next run connects to, `None` when all runs are done. HTTP/1.1
    /// is used only without TLS.
    pub fn next_run(&self) -> (r: Option<Result<Target, LatencyError>>)
        ensures
            r is None == (self.done >= self.config.runs),
            r is Some ==> is_target(
                r->0,
                self.config.url@,
                latency_port(self.config.url@),
                if self.config.no_tls {
                    ConnectionType::H1 { use_tls: false }
                } else {
                    ConnectionType::H2
                },
            ),
    {
        if self.done >= self.config.runs {
            return None;
        }
        let port: u16 = match self.config.url.port {
            Some(port) => port,
            None => if text::same_text(self.config.url.scheme.as_str(), "http") {
                80
            } else {
                443
            },
        };
        let conn_type = if self.config.no_tls {
            ConnectionType::h1_clear_text()
        } else {
            ConnectionType::h2()
        };
        Some(target_at(&self.config.url, port, conn_type))
    }

    /// The headers of the request that each run makes: the scoped ones, where the
    /// host of the request is allowed.
    pub fn request_headers(&self, uri: &Uri) -> (r: HeaderMap<HeaderValue>)
        requires
            client::scoped_len(self.config.scoped_headers) <= headers::MAX_HEADERS,
        ensures
            headers::entries(r) == match uri@.host {
                Some(host) => client::with_scoped(seq![], self.config.scoped_headers, host),
                None => seq![],
            },
    {
        let mut map = headers::new_map();
        if let Some(scoped) = &self.config.scoped_headers {
            scoped.apply(uri, &mut map);
        }
        map
    }

    /// A run is done: its connection was begun at `conn_start`, its host was
    /// resolved at `resolved`, and it was set up as `timing` says.
    pub fn record(&mut self, conn_start: Timestamp, resolved: Timestamp, timing: &ConnectionTiming) -> (took:
        Nanos)
        requires
            old(self).done < old(self).config.runs,
        ensures
            took == handshake(timing@, resolved),
            final(self).probe_results@ == with_sample(old(self).probe_results@, conn_start, took),
            final(self).done == old(self).done + 1,
            final(self).config == old(self).config,
            final(self).start == old(self).start,
    {
        let took: Nanos = handshake_of(timing, resolved);
        self.probe_results.add(conn_start, took);
        self.done = self.done + 1;
        took
    }

    /// What was measured.
    pub fn finish(self) -> (r: LatencyResult)
        ensures
            r.measurements == self.probe_results,
    {
        LatencyResult { measurements: self.probe_results }
    }
}

/// A measurement of round trip times in progress. All runs go at once.
#[derive(Debug)]
pub struct Rtt {
    pub start: Timestamp,
    pub config: RttConfig,
    pub probe_results: TimeSeries<u64>,
}

impl Rtt {
    /// A measurement that starts at `start`.
    pub fn new(config: RttConfig, start: Timestamp) -> (r: Self)
        ensures
            r.start == start,
            r.config == config,
            r.probe_results@.len() == 0,
    {
        Rtt { start, config, probe_results: TimeSeries::new() }
    }

    /// Where all runs connect to.
    pub fn target(&self) -> (r: Result<Target, LatencyError>)
        ensures
            is_target(
                r,
                self.config.url@,
                rtt_port(self.config.url@),
                ConnectionType::H1 { use_tls: true },
            ),
    {
        let port: u16 = match self.config.url.known_port {
            Some(port) => port,
            None => 443,
        };
        target_at(&self.config.url, port, ConnectionType::h1())
    }

    /// A run is done.
    pub fn record(&mut self, conn_start: Timestamp, resolved: Timestamp, timing: &ConnectionTiming) -> (took:
        Nanos)
        ensures
            took == handshake(timing@, resolved),
            final(self).probe_results@ == with_sample(old(self).probe_results@, conn_start, took),
            final(self).config == old(self).config,
            final(self).start == old(self).start,
    {
        let took: Nanos = handshake_of(timing, resolved);
        self.probe_results.add(conn_start, took);
        took
    }

    /// What was measured.
    pub fn finish(self) -> (r: RttResult)
        ensures
            r.measurements == self.probe_results,
    {
        RttResult { measurements: self.probe_results }
    }
}

/// The round trip times that were measured.
#[derive(Debug)]
pub struct RttResult {
    pub measurements: TimeSeries<u64>,
}

impl Default for RttResult {
    fn default() -> (r: Self)
        ensures
            r.measurements@.len() == 0,
    {
        RttResult { measurements: TimeSeries::new() }
    }
}

/// The handshake times that were measured.
#[derive(Debug)]
pub struct LatencyResult {
    pub measurements: TimeSeries<u64>,
}

impl Default for LatencyResult {
    fn default() -> (r: Self)
        ensures
            r.measurements@.len() == 0,
    {
        LatencyResult { measurements: TimeSeries::new() }
    }
}

/// The distance of two values.
pub open spec fn distance(a: u64, b: u64) -> int {
    if a < b {
        b - a
    } else {
        a - b
    }
}

/// The sum of the distances of consecutive values.
pub open spec fn total_distance(values: Seq<u64>) -> int
    decreases values.len(),
{
    if values.len() < 2 {
        0
    } else {
        total_distance(values.drop_last()) + distance(
            values[values.len() - 2],
            values[values.len() - 1],
        )
    }
}

/// The average distance of consecutive values, `None` for fewer than two.
pub open spec fn jitter_of(values: Seq<u64>) -> Option<Ratio> {
    if values.len() < 2 {
        None
    } else {
        Some(
            Ratio { num: total_distance(values) as u128, den: (values.len() - 1) as u128 },
        )
    }
}

/// Jitter lies between zero and the largest value: it sums one distance per
/// pair of neighbours.
pub proof fn total_distance_bounds(values: Seq<u64>)
    ensures
        0 <= total_distance(values) <= values.len() * u64::MAX,
    decreases values.len(),
{
    if values.len() >= 2 {
        total_distance_bounds(values.drop_last());
        assert(values.len() * u64::MAX == (values.len() - 1) * u64::MAX + u64::MAX)
            by (nonlinear_arith);
    } else {
        assert(values.len() * u64::MAX >= 0) by (nonlinear_arith);
    }
}

/// The distances of consecutive values add up along the way: going on from `x`
/// adds the distances behind it to those before. A single step counts as far as
/// it leads, up or down, and standing still counts for nothing.
pub proof fn distances_add_up(before: Seq<u64>, x: u64, after: Seq<u64>, y: u64)
    ensures
        total_distance(before.push(x) + after) == total_distance(before.push(x)) + total_distance(
            seq![x] + after,
        ),
        total_distance(seq![x]) == 0,
        x <= y ==> total_distance(seq![x, y]) == y - x,
        y <= x ==> total_distance(seq![x, y]) == x - y,
    decreases after.len(),
{
    let (head, tail) = (before.push(x), seq![x] + after);
    reveal_with_fuel(total_distance, 2);
    assert(seq![x, y].drop_last() =~= seq![x]);
    if after.len() == 0 {
        assert(head + after =~= head);
        assert(tail =~= seq![x]);
    } else {
        distances_add_up(before, x, after.drop_last(), y);
        let all = head + after;
        assert(all.drop_last() =~= head + after.drop_last());
        assert(tail.drop_last() =~= seq![x] + after.drop_last());
        assert(all[all.len() - 1] == tail[tail.len() - 1]);
        assert(all[all.len() - 2] == tail[tail.len() - 2]);
    }
}

/// The jitter is the average distance of consecutive values: taken as often as
/// there are pairs of neighbours, it has their sum. Shown in microseconds, it is
/// off by half a microsecond at most. There is none of fewer than two values.
pub proof fn jitter_is_the_average_distance(values: Seq<u64>)
    requires
        values.len() <= usize::MAX,
    ensures
        jitter_of(values) is Some == (values.len() >= 2),
        jitter_of(values) matches Some(jitter) ==> jitter.value() * ((values.len() - 1) as real)
            == total_distance(values) as real,
        values.len() >= 2 ==> -1000 * (values.len() - 1) < 2 * (jitter_us(values) * (1000 * (
        values.len() - 1)) - total_distance(values)) <= 1000 * (values.len() - 1),
        values.len() < 2 ==> jitter_us(values) == 0,
{
    if values.len() >= 2 {
        total_distance_bounds(values);
        let n = values.len();
        assert(n * u64::MAX <= u128::MAX) by (nonlinear_arith)
            requires
                n <= u64::MAX,
        ;
        let (t, m) = (total_distance(values) as real, (n - 1) as real);
        assert((t / m) * m == t) by (nonlinear_arith)
            requires
                m > (0 as real),
        ;
        util::rounding_is_close(total_distance(values), (n - 1) * 1000);
    }
}

/// The transport handshake of a run begins when the host is resolved and ends
/// when the transport is connected, whenever the run itself began.
pub proof fn handshake_begins_when_resolved(
    phases: connection::Phases,
    resolved: Timestamp,
    connected: Timestamp,
)
    requires
        phases.start.nanos <= resolved.nanos <= connected.nanos,
        phases.start.nanos + phases.connect == connected.nanos,
    ensures
        resolved.nanos + handshake(phases, resolved) == connected.nanos,
{
}

/// A constant latency has no jitter.
pub proof fn constant_latency_has_no_jitter(values: Seq<u64>)
    requires
        forall|i: int, j: int| 0 <= i < values.len() && 0 <= j < values.len() ==> values[i] == values[j],
    ensures
        total_distance(values) == 0,
    decreases values.len(),
{
    if values.len() >= 2 {
        let rest = values.drop_last();
        assert forall|i: int, j: int| 0 <= i < rest.len() && 0 <= j < rest.len() implies rest[i]
            == rest[j] by {
            assert(values[i] == values[j]);
        }
        constant_latency_has_no_jitter(rest);
        assert(values[values.len() - 2] == values[values.len() - 1]);
    }
}

/// The average distance of consecutive values.
fn jitter_over(values: &Vec<u64>) -> (r: Option<Ratio>)
    ensures
        r == jitter_of(values@),
        r matches Some(j) ==> j.num == total_distance(values@) && j.den == values@.len() - 1
            && j.den > 0,
{
    if values.len() < 2 {
        return None;
    }
    let mut sum: u128 = 0;
    let mut i: usize = 1;
    while i < values.len()
        invariant
            1 <= i <= values@.len(),
            sum == total_distance(values@.take(i as int)),
        decreases values@.len() - i,
    {
        proof {
            let next = values@.take(i + 1);
            assert(next.drop_last() =~= values@.take(i as int));
            total_distance_bounds(next);
            assert((i + 1) * u64::MAX <= u128::MAX) by (nonlinear_arith)
                requires
                    i + 1 <= u64::MAX,
            ;
        }
        let a: u64 = values[i - 1];
        let b: u64 = values[i];
        let step: u64 = if a < b {
            b - a
        } else {
            a - b
        };
        sum = sum + step as u128;
        i = i + 1;
    }
    assert(values@.take(i as int) =~= values@);
    Some(Ratio { num: sum, den: (values.len() - 1) as u128 })
}

impl LatencyResult {
    /// The median of all measurements, `None` without any.
    pub fn median(&self) -> (r: Option<Nanos>)
        ensures
            r == stats::quantile_of(stats::values_of(self.measurements@), half()),
            r is Some == (self.measurements@.len() > 0),
            r matches Some(median) ==> ranks::is_median(
                stats::values_of(self.measurements@),
                median,
            ),
    {
        proof {
            ranks::half_way_is_the_median(stats::values_of(self.measurements@));
        }
        self.measurements.quantile(Fraction { num: 1, den: 2 })
    }

    /// The average distance of consecutive measurements, `None` for fewer than
    /// two.
    pub fn jitter(&self) -> (r: Option<Ratio>)
        ensures
            r == jitter_of(stats::values_of(self.measurements@)),
            r matches Some(j) ==> j.den > 0 && j.num == total_distance(
                stats::values_of(self.measurements@),
            ),
    {
        jitter_over(&self.measurements.values())
    }
}

impl RttResult {
    /// The median of all measurements, `None` without any.
    pub fn median(&self) -> (r: Option<Nanos>)
        ensures
            r == stats::quantile_of(stats::values_of(self.measurements@), half()),
            r is Some == (self.measurements@.len() > 0),
            r matches Some(median) ==> ranks::is_median(
                stats::values_of(self.measurements@),
                median,
            ),
    {
        proof {
            ranks::half_way_is_the_median(stats::values_of(self.measurements@));
        }
        self.measurements.quantile(Fraction { num: 1, den: 2 })
    }
}

/// There is a median as soon as there is a measurement.
pub proof fn median_exists(values: Seq<u64>)
    requires
        values.len() > 0,
    ensures
        stats::quantile_of(values, half()) is Some,
{
    stats::ascending_sorts(values);
    let n = values.len();
    assert((n * 1) / 2 < n) by (nonlinear_arith)
        requires
            n > 0,
    ;
}

/// A latency report, in microseconds.
#[derive(Debug, Clone, Copy, PartialEq, Eq, Structural)]
pub struct LatencyReport {
    pub latency_us: u64,
    pub jitter_us: u64,
}

/// A ratio of nanoseconds in whole microseconds, rounded to the nearest.
pub open spec fn ratio_us(ratio: Ratio) -> int {
    util::nearest(ratio.num as int, ratio.den * 1000)
}

/// The jitter of some measurements in whole microseconds, zero where there is
/// none.
pub open spec fn jitter_us(values: Seq<u64>) -> int {
    match jitter_of(values) {
        Some(jitter) => ratio_us(jitter),
        None => 0,
    }
}

impl LatencyResult {
    /// The jitter in whole microseconds, zero where there is none.
    pub fn jitter_micros(&self) -> (r: u64)
        ensures
            r == jitter_us(stats::values_of(self.measurements@)),
    {
        let values = self.measurements.values();
        match jitter_over(&values) {
            Some(jitter) => {
                let count: usize = values.len();
                assert(jitter.den < count);
                let whole: u128 = rounded(jitter.num, jitter.den * 1000);
                proof {
                    lemma_jitter_bound(values@, jitter);
                }
                whole as u64
            },
            None => 0,
        }
    }

    /// The median and the jitter in whole microseconds.
    pub fn report(&self) -> (r: Result<LatencyReport, LatencyError>)
        ensures
            match stats::quantile_of(stats::values_of(self.measurements@), half()) {
                None => r == Err::<LatencyReport, LatencyError>(LatencyError::NoMeasurements),
                Some(median) => r == Ok::<LatencyReport, LatencyError>(
                    LatencyReport {
                        latency_us: util::nearest(median as int, 1000) as u64,
                        jitter_us: jitter_us(stats::values_of(self.measurements@)) as u64,
                    },
                ),
            },
    {
        match self.median() {
            None => Err(LatencyError::NoMeasurements),
            Some(median) => Ok(
                LatencyReport { latency_us: pretty_ms(median), jitter_us: self.jitter_micros() },
            ),
        }
    }
}

proof fn lemma_jitter_bound(values: Seq<u64>, jitter: Ratio)
    requires
        values.len() >= 2,
        jitter.num == total_distance(values),
        jitter.den == values.len() - 1,
    ensures
        0 <= ratio_us(jitter) <= u64::MAX,
{
    total_distance_bounds(values);
    let n = values.len() as int;
    let num = jitter.num as int;
    let den = jitter.den as int;
    let unit = den * 1000;
    assert(2 * num + unit <= (2 * unit) * u64::MAX) by (nonlinear_arith)
        requires
            num <= n * u64::MAX,
            unit == den * 1000,
            den == n - 1,
            n >= 2,
    ;
    assert((2 * num + unit) / (2 * unit) <= u64::MAX) by (nonlinear_arith)
        requires
            2 * num + unit <= (2 * unit) * u64::MAX,
            unit >= 1,
            num >= 0,
    ;
    assert(0 <= (2 * num + unit) / (2 * unit)) by (nonlinear_arith)
        requires
            unit >= 1,
            num >= 0,
    ;
}

/// The jitter in whole microseconds fits the number that it is reported in.
pub proof fn jitter_fits(values: Seq<u64>)
    requires
        values.len() <= usize::MAX,
    ensures
        0 <= jitter_us(values) <= u64::MAX,
{
    if values.len() >= 2 {
        total_distance_bounds(values);
        let n = values.len();
        assert(n * u64::MAX <= u128::MAX) by (nonlinear_arith)
            requires
                n <= u64::MAX,
        ;
        lemma_jitter_bound(values, jitter_of(values)->0);
    }
}

/// Whether a measurement with that many runs can be made.
pub fn check_runs(runs: usize) -> (r: Result<(), LatencyError>)
    ensures
        r == (if runs == 0 {
            Err::<(), LatencyError>(LatencyError::NoRuns)
        } else {
            Ok::<(), LatencyError>(())
        }),
{
    if runs == 0 {
        Err(LatencyError::NoRuns)
    } else {
        Ok(())
    }
}

} // verus!
