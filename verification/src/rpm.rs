//! Probes under load, and the round trips per minute that they stand for.

use vstd::prelude::*;

use crate::connection;
use crate::connection::ConnectionTiming;
use crate::exact;
use crate::exact::Exact;
use crate::stats;
use crate::stats::{Fraction, Ratio, TimeSeries};
use crate::time;
use crate::time::{Nanos, Timestamp};

verus! {

/// The most probes that a test keeps.
pub const MAX_PROBES: u64 = 4_611_686_018_427_387_904;

/// Nanoseconds in one minute.
pub const NANOS_PER_MINUTE: u128 = 60_000_000_000;

/// A probe on a connection of its own.
#[derive(Debug, Clone, Copy, PartialEq, Eq, Structural)]
pub struct ForeignProbeResult {
    /// When the connection was started.
    pub start: Timestamp,
    /// How long the transport handshake took.
    pub time_connect: Nanos,
    /// How long one round trip of the TLS handshake took.
    pub time_secure: Nanos,
    /// How long it took until the response was complete.
    pub time_body: Nanos,
}

/// A probe on a load-generating connection.
#[derive(Debug, Clone, Copy, PartialEq, Eq, Structural)]
pub struct SelfProbeResult {
    /// When the request was sent.
    pub start: Timestamp,
    /// How long it took until the response was complete.
    pub time_body: Nanos,
}

impl ForeignProbeResult {
    /// The result of a probe whose connection was set up as `timing` says and
    /// whose response was complete at `finished_at`. The TLS handshake counts
    /// by itself, and per round trip.
    pub fn new(timing: &ConnectionTiming, finished_at: Timestamp) -> (r: Self)
        ensures
            r.start == timing@.start,
            r.time_connect == connection::saturating_difference(timing@.connect, timing@.lookup),
            r.time_secure == connection::saturating_difference(timing@.secure, timing@.connect)
                / timing@.tls_round_trips,
            r.time_body == time::span(timing@.start, finished_at),
    {
        ForeignProbeResult {
            start: timing.start(),
            time_connect: timing.tcp_handshake(),
            time_secure: timing.tls_handshake() / timing.tls_round_trips() as u64,
            time_body: finished_at.duration_since(timing.start()),
        }
    }
}

impl SelfProbeResult {
    /// The result of a probe sent at `start` whose response was complete at
    /// `finished_at`.
    pub fn new(start: Timestamp, finished_at: Timestamp) -> (r: Self)
        ensures
            r.start == start,
            r.time_body == time::span(start, finished_at),
    {
        SelfProbeResult { start, time_body: finished_at.duration_since(start) }
    }
}

/// The times of two series are the same.
pub open spec fn same_times(a: Seq<(Timestamp, u64)>, b: Seq<(Timestamp, u64)>) -> bool {
    a.len() == b.len() && forall|i: int| 0 <= i < a.len() ==> (#[trigger] a[i]).0 == b[i].0
}

/// All foreign probes so far.
#[derive(Debug)]
pub struct ForeignProbeResults {
    connect: TimeSeries<u64>,
    secure: TimeSeries<u64>,
    http: TimeSeries<u64>,
}

/// The three series of the foreign probes.
pub struct ForeignSamples {
    pub connect: Seq<(Timestamp, u64)>,
    pub secure: Seq<(Timestamp, u64)>,
    pub http: Seq<(Timestamp, u64)>,
}

impl ForeignSamples {
    /// All three series hold one sample per probe, at the same times.
    pub open spec fn wf(self) -> bool {
        same_times(self.connect, self.secure) && same_times(self.connect, self.http)
    }

    /// The samples with those of one more probe.
    pub open spec fn with(self, result: ForeignProbeResult) -> ForeignSamples {
        let at = stats::count_before(self.connect, result.start) as int;
        ForeignSamples {
            connect: self.connect.insert(at, (result.start, result.time_connect)),
            secure: self.secure.insert(at, (result.start, result.time_secure)),
            http: self.http.insert(at, (result.start, result.time_body)),
        }
    }
}

impl View for ForeignProbeResults {
    type V = ForeignSamples;

    closed spec fn view(&self) -> ForeignSamples {
        ForeignSamples { connect: self.connect@, secure: self.secure@, http: self.http@ }
    }
}

impl Default for ForeignProbeResults {
    fn default() -> (r: Self)
        ensures
            r@.connect.len() == 0,
            r@.secure.len() == 0,
            r@.http.len() == 0,
            r@.wf(),
    {
        ForeignProbeResults {
            connect: TimeSeries::new(),
            secure: TimeSeries::new(),
            http: TimeSeries::new(),
        }
    }
}

proof fn lemma_same_count_before(
    a: Seq<(Timestamp, u64)>,
    b: Seq<(Timestamp, u64)>,
    t: Timestamp,
)
    requires
        same_times(a, b),
    ensures
        stats::count_before(a, t) == stats::count_before(b, t),
        stats::count_before(a, t) <= a.len(),
    decreases a.len(),
{
    if a.len() > 0 {
        assert(a[0].0 == b[0].0);
        assert forall|i: int| 0 <= i < a.drop_first().len() implies (
        #[trigger] a.drop_first()[i]).0 == b.drop_first()[i].0 by {
            assert(a[i + 1].0 == b[i + 1].0);
        }
        lemma_same_count_before(a.drop_first(), b.drop_first(), t);
    }
}

/// Two series with the same times have as many samples in every interval.
pub proof fn same_times_same_window_len(
    a: Seq<(Timestamp, u64)>,
    b: Seq<(Timestamp, u64)>,
    from: Timestamp,
    to: Timestamp,
)
    requires
        same_times(a, b),
    ensures
        stats::window(a, from, to).len() == stats::window(b, from, to).len(),
    decreases a.len(),
{
    reveal(Seq::filter);
    if a.len() > 0 {
        assert(a[a.len() - 1].0 == b[a.len() - 1].0);
        assert forall|i: int| 0 <= i < a.drop_last().len() implies (
        #[trigger] a.drop_last()[i]).0 == b.drop_last()[i].0 by {
            assert(a[i].0 == b[i].0);
        }
        same_times_same_window_len(a.drop_last(), b.drop_last(), from, to);
    }
}

impl ForeignProbeResults {
    /// Adds a probe.
    pub fn add(&mut self, result: ForeignProbeResult)
        requires
            old(self)@.wf(),
        ensures
            final(self)@.wf(),
            final(self)@ == old(self)@.with(result),
            final(self)@.connect == old(self)@.connect.insert(
                stats::count_before(old(self)@.connect, result.start) as int,
                (result.start, result.time_connect),
            ),
            final(self)@.secure == old(self)@.secure.insert(
                stats::count_before(old(self)@.secure, result.start) as int,
                (result.start, result.time_secure),
            ),
            final(self)@.http == old(self)@.http.insert(
                stats::count_before(old(self)@.http, result.start) as int,
                (result.start, result.time_body),
            ),
            final(self)@.connect.len() == old(self)@.connect.len() + 1,
    {
        proof {
            lemma_same_count_before(self@.connect, self@.secure, result.start);
            lemma_same_count_before(self@.connect, self@.http, result.start);
        }
        self.connect.add(result.start, result.time_connect);
        self.secure.add(result.start, result.time_secure);
        self.http.add(result.start, result.time_body);
    }

    /// How long the transport handshakes took.
    pub fn connect(&self) -> (r: &TimeSeries<u64>)
        ensures
            r@ == self@.connect,
    {
        &self.connect
    }

    /// How long a round trip of the TLS handshakes took.
    pub fn secure(&self) -> (r: &TimeSeries<u64>)
        ensures
            r@ == self@.secure,
    {
        &self.secure
    }

    /// How long the responses took.
    pub fn http(&self) -> (r: &TimeSeries<u64>)
        ensures
            r@ == self@.http,
    {
        &self.http
    }

    /// How long the responses took, when nothing else is needed any more.
    pub fn into_http(self) -> (r: TimeSeries<u64>)
        ensures
            r@ == self@.http,
    {
        self.http
    }

    /// How many probes there are.
    pub fn len(&self) -> (r: usize)
        ensures
            r == self@.connect.len(),
    {
        self.connect.samples().len()
    }
}

/// All self probes so far.
#[derive(Debug)]
pub struct SelfProbeResults {
    http: TimeSeries<u64>,
}

impl View for SelfProbeResults {
    type V = Seq<(Timestamp, u64)>;

    closed spec fn view(&self) -> Seq<(Timestamp, u64)> {
        self.http@
    }
}

impl Default for SelfProbeResults {
    fn default() -> (r: Self)
        ensures
            r@.len() == 0,
    {
        SelfProbeResults { http: TimeSeries::new() }
    }
}

impl SelfProbeResults {
    /// Adds a probe.
    pub fn add(&mut self, result: SelfProbeResult)
        ensures
            final(self)@ == old(self)@.insert(
                stats::count_before(old(self)@, result.start) as int,
                (result.start, result.time_body),
            ),
    {
        self.http.add(result.start, result.time_body);
    }

    /// How long the responses took.
    pub fn http(&self) -> (r: &TimeSeries<u64>)
        ensures
            r@ == self@,
    {
        &self.http
    }

    /// How long the responses took, when nothing else is needed any more.
    pub fn into_http(self) -> (r: TimeSeries<u64>)
        ensures
            r@ == self@,
    {
        self.http
    }
}

/// Round trips per minute, by the two kinds of probes.
#[derive(Debug, Clone, Copy, PartialEq, Eq, Structural)]
pub struct Rpm {
    /// As seen by probes on connections of their own.
    pub foreign: Ratio,
    /// As seen by probes on load-generating connections.
    pub loaded: Ratio,
}

/// The numerator of the mean of both, over [`mean_den`].
pub open spec fn mean_num(rpm: Rpm) -> int {
    rpm.foreign.num * rpm.loaded.den + rpm.loaded.num * rpm.foreign.den
}

/// The denominator of the mean of both.
pub open spec fn mean_den(rpm: Rpm) -> int {
    2 * (rpm.foreign.den * rpm.loaded.den)
}

/// Whether the mean of both fits the integers of a ratio.
pub open spec fn mean_fits(rpm: Rpm) -> bool {
    mean_num(rpm) <= u128::MAX && mean_den(rpm) <= u128::MAX
}

/// No round trips.
pub open spec fn no_rpm() -> Rpm {
    Rpm { foreign: Ratio { num: 0, den: 1 }, loaded: Ratio { num: 0, den: 1 } }
}

impl Rpm {
    /// The responsiveness: the arithmetic mean of both.
    pub open spec fn value(self) -> real {
        (self.foreign.value() + self.loaded.value()) / (2 as real)
    }

    /// The rates are proper ones.
    pub open spec fn wf(self) -> bool {
        self.foreign.den > 0 && self.loaded.den > 0
    }

    /// The responsiveness: the arithmetic mean of both. `None` where it does
    /// not fit the integers of a ratio.
    pub fn mean(&self) -> (r: Option<Ratio>)
        requires
            self.wf(),
        ensures
            match r {
                Some(mean) => mean.num == mean_num(*self) && mean.den == mean_den(*self)
                    && mean.den > 0,
                None => !mean_fits(*self),
            },
    {
        proof {
            let a = self.foreign.num * self.loaded.den;
            let b = self.loaded.num * self.foreign.den;
            assert(a >= 0) by (nonlinear_arith)
                requires
                    a == self.foreign.num * self.loaded.den,
            ;
            assert(b >= 0) by (nonlinear_arith)
                requires
                    b == self.loaded.num * self.foreign.den,
            ;
            assert(self.foreign.den * self.loaded.den > 0) by (nonlinear_arith)
                requires
                    self.foreign.den > 0,
                    self.loaded.den > 0,
            ;
        }
        let left = self.foreign.num.checked_mul(self.loaded.den);
        let right = self.loaded.num.checked_mul(self.foreign.den);
        let product = self.foreign.den.checked_mul(self.loaded.den);
        match (left, right, product) {
            (Some(left), Some(right), Some(product)) => {
                match (left.checked_add(right), product.checked_mul(2)) {
                    (Some(num), Some(den)) => Some(Ratio { num, den }),
                    _ => None,
                }
            },
            _ => None,
        }
    }

    /// No round trips.
    pub fn none() -> (r: Self)
        ensures
            r == no_rpm(),
            r.wf(),
            r.value() == (0 as real),
    {
        let rpm = Rpm { foreign: Ratio { num: 0, den: 1 }, loaded: Ratio { num: 0, den: 1 } };
        proof {
            let (zero, one) = (0 as real, 1 as real);
            assert(zero / one == zero) by (nonlinear_arith)
                requires
                    one > zero,
                    zero == (0 as real),
            ;
            assert((zero + zero) / (2 as real) == zero);
        }
        rpm
    }

    /// The responsiveness as a number.
    pub fn exact(&self) -> (r: Exact)
        requires
            self.wf(),
        ensures
            r@ == self.value(),
    {
        let foreign = Exact::quotient(self.foreign.num, self.foreign.den);
        let loaded = Exact::quotient(self.loaded.num, self.loaded.den);
        let both = foreign.plus(&loaded);
        proof {
            let x = both@;
            assert(x * ((1 as real) / (2 as real)) == x / (2 as real)) by (nonlinear_arith);
        }
        both.times(&Exact::quotient(1, 2))
    }

    /// The responsiveness in thousandths of a round trip per minute, rounded
    /// down.
    pub fn milli(&self) -> (r: u64)
        requires
            self.wf(),
        ensures
            is_milli(r, self.value()),
    {
        self.exact().times(&Exact::whole(1000)).floor()
    }
}

/// Whether `n` is a number in thousandths, rounded down.
pub open spec fn is_milli(n: u64, x: real) -> bool {
    exact::is_floor(n, x * (1000 as real))
}

/// The mean of both rates is the quotient of its numerator and its denominator.
pub proof fn mean_is_the_value(rpm: Rpm)
    requires
        rpm.wf(),
    ensures
        rpm.value() == (mean_num(rpm) as real) / (mean_den(rpm) as real),
{
    let (a, b) = (rpm.foreign.num as real, rpm.foreign.den as real);
    let (c, d) = (rpm.loaded.num as real, rpm.loaded.den as real);
    let (p, q) = (rpm.foreign.num * rpm.loaded.den, rpm.loaded.num * rpm.foreign.den);
    let r = rpm.foreign.den * rpm.loaded.den;
    assert(p as real == a * d) by (nonlinear_arith)
        requires
            p == rpm.foreign.num * rpm.loaded.den,
            a == rpm.foreign.num as real,
            d == rpm.loaded.den as real,
    ;
    assert(q as real == c * b) by (nonlinear_arith)
        requires
            q == rpm.loaded.num * rpm.foreign.den,
            c == rpm.loaded.num as real,
            b == rpm.foreign.den as real,
    ;
    assert(r as real == b * d) by (nonlinear_arith)
        requires
            r == rpm.foreign.den * rpm.loaded.den,
            b == rpm.foreign.den as real,
            d == rpm.loaded.den as real,
    ;
    assert((a / b + c / d) / (2 as real) == (a * d + c * b) / ((2 as real) * (b * d)))
        by (nonlinear_arith)
        requires
            b > (0 as real),
            d > (0 as real),
    ;
}

/// The responsiveness is half way between the foreign and the loaded rate.
pub proof fn responsiveness_is_half_way(rpm: Rpm)
    requires
        rpm.wf(),
    ensures
        rpm.value() - rpm.foreign.value() == rpm.loaded.value() - rpm.value(),
        rpm.foreign.value() * (rpm.foreign.den as real) == rpm.foreign.num as real,
        rpm.loaded.value() * (rpm.loaded.den as real) == rpm.loaded.num as real,
{
    let (a, b) = (rpm.foreign.num as real, rpm.foreign.den as real);
    let (c, d) = (rpm.loaded.num as real, rpm.loaded.den as real);
    assert((a / b) * b == a) by (nonlinear_arith)
        requires
            b > (0 as real),
    ;
    assert((c / d) * d == c) by (nonlinear_arith)
        requires
            d > (0 as real),
    ;
    let s = a / b + c / d;
    assert(s / (2 as real) + s / (2 as real) == s);
}

/// The probes of an interval, trimmed.
pub struct Trimmed {
    pub connect: Seq<u64>,
    pub secure: Seq<u64>,
    pub http: Seq<u64>,
    pub loaded: Seq<u64>,
}

/// The probes from `from` to `to` below the given percentile.
pub open spec fn trimmed_probes(
    foreign: ForeignSamples,
    loaded: Seq<(Timestamp, u64)>,
    from: Timestamp,
    to: Timestamp,
    percentile: Fraction,
) -> Trimmed {
    Trimmed {
        connect: stats::trimmed(stats::window(foreign.connect, from, to), percentile),
        secure: stats::trimmed(stats::window(foreign.secure, from, to), percentile),
        http: stats::trimmed(stats::window(foreign.http, from, to), percentile),
        loaded: stats::trimmed(stats::window(loaded, from, to), percentile),
    }
}

/// The sum of all three phases over all foreign probes.
pub open spec fn foreign_total(probes: Trimmed) -> int {
    stats::total(probes.connect) + stats::total(probes.secure) + stats::total(probes.http)
}

/// The responsiveness that probes stand for: a minute divided by the mean round
/// trip time. The foreign round trip time is the mean of the three phases. There
/// is none without probes of both kinds, or where they took no time at all.
pub open spec fn responsiveness_of(probes: Trimmed) -> Option<Rpm> {
    if probes.connect.len() == 0 || probes.secure.len() == 0 || probes.http.len() == 0
        || probes.loaded.len() == 0 {
        None
    } else if foreign_total(probes) == 0 || stats::total(probes.loaded) == 0 {
        None
    } else {
        Some(
            Rpm {
                foreign: Ratio {
                    num: (3 * NANOS_PER_MINUTE * probes.connect.len()) as u128,
                    den: foreign_total(probes) as u128,
                },
                loaded: Ratio {
                    num: (NANOS_PER_MINUTE * probes.loaded.len()) as u128,
                    den: stats::total(probes.loaded) as u128,
                },
            },
        )
    }
}

/// The average of some values, in nanoseconds like them.
pub open spec fn mean_nanos(values: Seq<u64>) -> real {
    (stats::total(values) as real) / (values.len() as real)
}

proof fn lemma_rate_by_mean(minutes: int, count: int, total: int)
    requires
        count > 0,
        total > 0,
    ensures
        (((minutes * count) as real) / (total as real)) * ((total as real) / (count as real))
            == minutes as real,
{
    let (m, n, t) = (minutes as real, count as real, total as real);
    assert((minutes * count) as real == m * n) by (nonlinear_arith)
        requires
            m == minutes as real,
            n == count as real,
    ;
    assert(((m * n) / t) * (t / n) == m) by (nonlinear_arith)
        requires
            n > (0 as real),
            t > (0 as real),
    ;
}

proof fn lemma_rates(probes: Trimmed)
    requires
        probes.secure.len() == probes.connect.len(),
        probes.http.len() == probes.connect.len(),
        probes.connect.len() <= MAX_PROBES,
        probes.loaded.len() <= MAX_PROBES,
        responsiveness_of(probes) is Some,
    ensures
        ({
            let rpm = responsiveness_of(probes)->0;
            &&& rpm.foreign.num == 180_000_000_000 * probes.connect.len()
            &&& rpm.foreign.den == stats::total(probes.connect) + stats::total(probes.secure)
                + stats::total(probes.http)
            &&& rpm.loaded.num == 60_000_000_000 * probes.loaded.len()
            &&& rpm.loaded.den == stats::total(probes.loaded)
            &&& rpm.foreign.num > 0 && rpm.foreign.den > 0
            &&& rpm.loaded.num > 0 && rpm.loaded.den > 0
        }),
{
    stats::total_bounds(probes.connect);
    stats::total_bounds(probes.secure);
    stats::total_bounds(probes.http);
    stats::total_bounds(probes.loaded);
    let (n, m) = (probes.connect.len() as int, probes.loaded.len() as int);
    assert(n * u64::MAX <= MAX_PROBES * u64::MAX) by (nonlinear_arith)
        requires
            n <= MAX_PROBES,
    ;
    assert(m * u64::MAX <= MAX_PROBES * u64::MAX) by (nonlinear_arith)
        requires
            m <= MAX_PROBES,
    ;
}

/// The foreign rate is a minute divided by the mean of the three phases: that of
/// the transport handshakes, that of the TLS handshakes and that of the
/// responses, each by itself. The loaded rate is a minute divided by the mean of
/// the loaded round trips.
pub proof fn rates_are_a_minute_by_the_mean(probes: Trimmed)
    requires
        probes.secure.len() == probes.connect.len(),
        probes.http.len() == probes.connect.len(),
        probes.connect.len() <= MAX_PROBES,
        probes.loaded.len() <= MAX_PROBES,
        responsiveness_of(probes) is Some,
    ensures
        ({
            let rpm = responsiveness_of(probes)->0;
            &&& rpm.foreign.value() * (mean_nanos(probes.connect) + mean_nanos(probes.secure)
                + mean_nanos(probes.http)) == 180_000_000_000 as real
            &&& rpm.loaded.value() * mean_nanos(probes.loaded) == 60_000_000_000 as real
            &&& rpm.wf()
        }),
{
    lemma_rates(probes);
    let (n, m) = (probes.connect.len() as int, probes.loaded.len() as int);
    let (a, b, c) = (
        stats::total(probes.connect),
        stats::total(probes.secure),
        stats::total(probes.http),
    );
    lemma_rate_by_mean(180_000_000_000, n, a + b + c);
    lemma_rate_by_mean(60_000_000_000, m, stats::total(probes.loaded));
    let (x, y, z, k) = (a as real, b as real, c as real, n as real);
    assert(x / k + y / k + z / k == (x + y + z) / k) by (nonlinear_arith)
        requires
            k > (0 as real),
    ;
    let rpm = responsiveness_of(probes)->0;
    assert(rpm.foreign.value() * ((x + y + z) / k) == 180_000_000_000 as real);
}

/// The longer the phases of the foreign probes take together, the lower the
/// foreign rate is; whichever of them takes longer makes no difference. The same
/// holds of the loaded probes.
pub proof fn longer_probes_lower_the_rate(a: Trimmed, b: Trimmed)
    requires
        a.connect.len() == b.connect.len() && a.connect.len() <= MAX_PROBES,
        a.secure.len() == a.connect.len() && a.http.len() == a.connect.len(),
        b.secure.len() == b.connect.len() && b.http.len() == b.connect.len(),
        a.loaded.len() == b.loaded.len() && a.loaded.len() <= MAX_PROBES,
        responsiveness_of(a) is Some,
        responsiveness_of(b) is Some,
    ensures
        ({
            let (short, long) = (responsiveness_of(a)->0, responsiveness_of(b)->0);
            let times = |p: Trimmed|
                stats::total(p.connect) + stats::total(p.secure) + stats::total(p.http);
            &&& times(a) < times(b) ==> long.foreign.value() < short.foreign.value()
            &&& times(a) == times(b) ==> long.foreign.value() == short.foreign.value()
            &&& stats::total(a.loaded) < stats::total(b.loaded) ==> long.loaded.value()
                < short.loaded.value()
        }),
{
    rates_are_a_minute_by_the_mean(a);
    rates_are_a_minute_by_the_mean(b);
    let (p, q) = (responsiveness_of(a)->0, responsiveness_of(b)->0);
    responsiveness_is_half_way(p);
    responsiveness_is_half_way(q);
    lemma_rates(a);
    lemma_rates(b);
    lemma_lower_by_larger(p.foreign, q.foreign);
    lemma_lower_by_larger(p.loaded, q.loaded);
}

proof fn lemma_lower_by_larger(a: Ratio, b: Ratio)
    requires
        a.num == b.num && a.num > 0,
        a.den > 0 && b.den > 0,
    ensures
        a.den < b.den ==> b.value() < a.value(),
        a.den == b.den ==> b.value() == a.value(),
{
    let (n, x, y) = (a.num as real, a.den as real, b.den as real);
    if a.den < b.den {
        assert(n / y < n / x) by (nonlinear_arith)
            requires
                n > (0 as real),
                (0 as real) < x,
                x < y,
        ;
    }
}

proof fn lemma_trimmed_len(values: Seq<u64>, percentile: Fraction)
    ensures
        stats::trimmed(values, percentile).len() == {
            let keep = percentile.share_of(values.len());
            if keep <= values.len() {
                keep
            } else {
                values.len()
            }
        },
        stats::trimmed(values, percentile).len() <= values.len(),
{
    stats::ascending_sorts(values);
}

proof fn lemma_window_len(samples: Seq<(Timestamp, u64)>, from: Timestamp, to: Timestamp)
    ensures
        stats::window(samples, from, to).len() <= samples.len(),
{
    samples.lemma_filter_len(|s: (Timestamp, u64)| stats::within(s.0, from, to));
}

/// Computes the responsiveness in an interval: each kind of probe is turned
/// into round trips per minute first.
///
/// ```text
/// foreign = 60000 / ((TM(tcp) + TM(tls) + TM(http)) / 3)
/// loaded  = 60000 / TM(http on load-generating connections)
/// ```
///
/// with trimmed means in milliseconds. The responsiveness is the mean of both.
pub fn compute_responsiveness(
    foreign_results: &ForeignProbeResults,
    self_results: &SelfProbeResults,
    from: Timestamp,
    to: Timestamp,
    percentile: Fraction,
) -> (r: Option<Rpm>)
    requires
        foreign_results@.wf(),
        foreign_results@.connect.len() <= MAX_PROBES,
        self_results@.len() <= MAX_PROBES,
        percentile.wf(),
    ensures
        r == responsiveness_of(
            trimmed_probes(foreign_results@, self_results@, from, to, percentile),
        ),
        r matches Some(rpm) ==> {
            let probes = trimmed_probes(foreign_results@, self_results@, from, to, percentile);
            &&& rpm.foreign.num == 3 * NANOS_PER_MINUTE * probes.connect.len()
            &&& rpm.foreign.den == foreign_total(probes)
            &&& rpm.loaded.num == NANOS_PER_MINUTE * probes.loaded.len()
            &&& rpm.loaded.den == stats::total(probes.loaded)
            &&& rpm.wf()
        },
        ({
            let connect = stats::trimmed(
                stats::window(foreign_results@.connect, from, to),
                percentile,
            );
            let secure = stats::trimmed(
                stats::window(foreign_results@.secure, from, to),
                percentile,
            );
            let http = stats::trimmed(stats::window(foreign_results@.http, from, to), percentile);
            let loaded = stats::trimmed(stats::window(self_results@, from, to), percentile);
            &&& r is Some == (connect.len() > 0 && loaded.len() > 0 && stats::total(connect)
                + stats::total(secure) + stats::total(http) > 0 && stats::total(loaded) > 0)
            &&& r matches Some(rpm) ==> {
                &&& rpm.foreign.value() * (mean_nanos(connect) + mean_nanos(secure) + mean_nanos(
                    http,
                )) == 180_000_000_000 as real
                &&& rpm.loaded.value() * mean_nanos(loaded) == 60_000_000_000 as real
                &&& rpm.value() + rpm.value() == rpm.foreign.value() + rpm.loaded.value()
            }
        }),
{
    let ghost probes = trimmed_probes(foreign_results@, self_results@, from, to, percentile);
    proof {
        let foreign = foreign_results@;
        same_times_same_window_len(foreign.connect, foreign.secure, from, to);
        same_times_same_window_len(foreign.connect, foreign.http, from, to);
        lemma_window_len(foreign.connect, from, to);
        lemma_window_len(self_results@, from, to);
        lemma_trimmed_len(stats::window(foreign.connect, from, to), percentile);
        lemma_trimmed_len(stats::window(foreign.secure, from, to), percentile);
        lemma_trimmed_len(stats::window(foreign.http, from, to), percentile);
        lemma_trimmed_len(stats::window(self_results@, from, to), percentile);
        stats::total_bounds(probes.connect);
        stats::total_bounds(probes.secure);
        stats::total_bounds(probes.http);
        stats::total_bounds(probes.loaded);
        let n = probes.connect.len();
        assert(n * u64::MAX <= MAX_PROBES * u64::MAX) by (nonlinear_arith)
            requires
                n <= MAX_PROBES,
        ;
        let m = probes.loaded.len();
        assert(m * u64::MAX <= MAX_PROBES * u64::MAX) by (nonlinear_arith)
            requires
                m <= MAX_PROBES,
        ;
    }
    proof {
        if responsiveness_of(probes) is Some {
            rates_are_a_minute_by_the_mean(probes);
            responsiveness_is_half_way(responsiveness_of(probes)->0);
        }
    }
    let tcp_f = foreign_results.connect().interval_trimmed_mean(from, to, percentile);
    let tls_f = foreign_results.secure().interval_trimmed_mean(from, to, percentile);
    let http_f = foreign_results.http().interval_trimmed_mean(from, to, percentile);
    let http_l = self_results.http().interval_trimmed_mean(from, to, percentile);
    match (tcp_f, tls_f, http_f, http_l) {
        (Some(tcp), Some(tls), Some(http), Some(loaded)) => {
            let foreign_sum: u128 = tcp.num + tls.num + http.num;
            if foreign_sum == 0 || loaded.num == 0 {
                return None;
            }
            Some(
                Rpm {
                    foreign: Ratio { num: 3 * NANOS_PER_MINUTE * tcp.den, den: foreign_sum },
                    loaded: Ratio { num: NANOS_PER_MINUTE * loaded.den, den: loaded.num },
                },
            )
        },
        _ => None,
    }
}

/// The harmonic combination of both round trip times: a minute divided by the
/// mean of the foreign and the loaded round trip time, as numerator and
/// denominator.
pub open spec fn harmonic(rpm: Rpm) -> (int, int) {
    (2 * (rpm.foreign.num * rpm.loaded.num), rpm.foreign.num * rpm.loaded.den + rpm.loaded.num
        * rpm.foreign.den)
}

/// The mean of the two rates is never below their harmonic combination, and
/// equals it only where the foreign and the loaded rate are the same.
pub proof fn mean_is_not_below_harmonic(rpm: Rpm)
    requires
        rpm.foreign.num > 0,
        rpm.foreign.den > 0,
        rpm.loaded.num > 0,
        rpm.loaded.den > 0,
    ensures
        mean_num(rpm) * harmonic(rpm).1 >= harmonic(rpm).0 * mean_den(rpm),
        (mean_num(rpm) * harmonic(rpm).1 == harmonic(rpm).0 * mean_den(rpm)) <==> (rpm.foreign.num
            * rpm.loaded.den == rpm.loaded.num * rpm.foreign.den),
{
    let a = rpm.foreign.num as int;
    let b = rpm.foreign.den as int;
    let c = rpm.loaded.num as int;
    let d = rpm.loaded.den as int;
    let x = a * d;
    let y = c * b;
    assert(mean_num(rpm) * harmonic(rpm).1 == (x + y) * (x + y));
    assert(harmonic(rpm).0 * mean_den(rpm) == 4 * (x * y)) by {
        assert((2 * (a * c)) * (2 * (b * d)) == 4 * ((a * d) * (c * b))) by (nonlinear_arith);
    }
    assert((x + y) * (x + y) == 4 * (x * y) + (x - y) * (x - y)) by (nonlinear_arith);
    assert((x - y) * (x - y) >= 0) by (nonlinear_arith);
    assert((x - y) * (x - y) == 0 <==> x == y) by (nonlinear_arith);
}

/// Probes that took no time stand for no responsiveness, rather than for an
/// infinite one.
pub proof fn no_time_is_no_responsiveness(probes: Trimmed)
    requires
        foreign_total(probes) == 0 || stats::total(probes.loaded) == 0,
    ensures
        responsiveness_of(probes) is None,
{
}

} // verus!
