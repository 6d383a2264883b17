//! The responsiveness test: it loads the network with more and more
//! connections, probes it meanwhile, and stops once both the throughput and the
//! responsiveness have settled.
//!
//! The test is a state machine. A driver opens connections, sends probes and
//! reads the clock, and hands in what came of it. Throughput and responsiveness
//! are kept as exact ratios, and are rounded only where they are reported.

use vstd::prelude::*;

use crate::body::BodyEvent;
use crate::client;
use crate::client::{ClientError, ConnectionChoice, Direction, Prepared, ThroughputClient};
use crate::connection::ConnectionType;
use crate::counter;
use crate::exact;
use crate::exact::{has_settled, mean_of, Exact};
use crate::headers;
use crate::load;
use crate::load::{
    LoadConfig, LoadError, LoadGenerator, LoadReport, LoadedConnection, PlannedLoad,
};
use crate::ranks;
use crate::rpm;
use crate::rpm::{
    compute_responsiveness, ForeignProbeResult, ForeignProbeResults, Rpm, SelfProbeResult,
    SelfProbeResults,
};
use crate::scoped_headers::ScopedHeaders;
use crate::stats;
use crate::stats::{instant_minus_intervals, quantile, Fraction, TimeSeries};
use crate::text;
use crate::time;
use crate::time::{Nanos, Timestamp};
use crate::up_down;
use crate::up_down::Goodput;
use crate::uri;
use crate::uri::Uri;

verus! {

/// The most bytes that one request of an upload sends, unless configured
/// otherwise. Well below the size at which servers refuse a request body.
pub const DEFAULT_UPLOAD_BYTES_PER_REQUEST: usize = 268_435_456;

/// The end of the test over which the responsiveness is averaged where it did
/// not settle.
pub const FALLBACK_WINDOW: Nanos = 2_000_000_000;

/// The most loads that a test keeps.
pub const MAX_LOADS: u64 = 4_611_686_018_427_387_904;

/// What happens when a load-generating connection fails.
#[derive(Debug, Clone, Copy, PartialEq, Eq, Structural)]
pub enum ConnectionErrorPolicy {
    /// Drop the connection, let another take its place, and report how many
    /// failed.
    Retire,
    /// Stop the test at the first failure.
    Abort,
}

/// How a responsiveness test is run.
#[derive(Debug)]
pub struct ResponsivenessConfig {
    pub large_download_url: String,
    pub small_download_url: String,
    pub upload_url: String,
    /// Over how many intervals a measurement has to settle.
    pub moving_average_distance: usize,
    pub interval_duration: Nanos,
    pub test_duration: Nanos,
    /// Which share of the probes counts.
    pub trimmed_mean_percent: Fraction,
    /// How far a measurement may stray and still count as settled.
    pub std_tolerance: Fraction,
    pub max_loaded_connections: usize,
    pub conn_type: ConnectionType,
    /// Load the network without probing it.
    pub determine_load_only: bool,
    /// The most bytes that one request of an upload sends.
    pub upload_bytes_per_request: usize,
    pub on_connection_error: ConnectionErrorPolicy,
    /// Headers attached only to requests whose host matches their allowlist.
    pub scoped_headers: Option<ScopedHeaders>,
}

impl Default for ResponsivenessConfig {
    fn default() -> (r: Self)
        ensures
            r.large_download_url@ == "https://h3.speed.cloudflare.com/__down?bytes=10000000000"@,
            r.small_download_url@ == "https://h3.speed.cloudflare.com/__down?bytes=10"@,
            r.upload_url@ == "https://h3.speed.cloudflare.com/__up"@,
            r.moving_average_distance == 4,
            r.interval_duration == 1_000_000_000,
            r.test_duration == 20_000_000_000,
            r.trimmed_mean_percent == (Fraction { num: 95, den: 100 }),
            r.std_tolerance == (Fraction { num: 5, den: 100 }),
            r.max_loaded_connections == 16,
            r.conn_type == ConnectionType::H2,
            !r.determine_load_only,
            r.upload_bytes_per_request == DEFAULT_UPLOAD_BYTES_PER_REQUEST,
            r.upload_bytes_per_request == 268_435_456,
            r.on_connection_error == ConnectionErrorPolicy::Retire,
            r.scoped_headers is None,
    {
        ResponsivenessConfig {
            large_download_url: String::from_str(
                "https://h3.speed.cloudflare.com/__down?bytes=10000000000",
            ),
            small_download_url: String::from_str("https://h3.speed.cloudflare.com/__down?bytes=10"),
            upload_url: String::from_str("https://h3.speed.cloudflare.com/__up"),
            moving_average_distance: 4,
            interval_duration: 1_000_000_000,
            test_duration: 20_000_000_000,
            trimmed_mean_percent: Fraction { num: 95, den: 100 },
            std_tolerance: Fraction { num: 5, den: 100 },
            max_loaded_connections: 16,
            conn_type: ConnectionType::H2,
            determine_load_only: false,
            upload_bytes_per_request: DEFAULT_UPLOAD_BYTES_PER_REQUEST,
            on_connection_error: ConnectionErrorPolicy::Retire,
            scoped_headers: None,
        }
    }
}

impl ResponsivenessConfig {
    /// How the load-generating connections are made.
    pub fn load_config(&self) -> (r: LoadConfig)
        ensures
            r.headers@.len() == 0,
            r.scoped_headers is Some == self.scoped_headers is Some,
            r.scoped_headers is Some ==> r.scoped_headers->0@ == self.scoped_headers->0@,
            r.download_url@ == self.large_download_url@,
            r.upload_url@ == self.upload_url@,
    {
        LoadConfig {
            headers: Vec::new(),
            scoped_headers: match &self.scoped_headers {
                Some(scoped) => Some(scoped.clone()),
                None => None,
            },
            download_url: self.large_download_url.clone(),
            upload_url: self.upload_url.clone(),
        }
    }
}

/// What came of something that the driver did.
#[derive(Debug)]
pub enum Event<C> {
    /// A foreign probe returned.
    ForeignProbe(ForeignProbeResult),
    /// A self probe returned.
    SelfProbe(SelfProbeResult),
    /// A load-generating connection was set up.
    NewLoadedConnection(LoadedConnection<C>),
    /// Something failed. The test goes on without it.
    Error,
}

/// What the driver does next.
#[derive(Debug, Clone, Copy, PartialEq, Eq, Structural)]
pub enum Action {
    /// Set up a load-generating connection.
    OpenLoad,
    /// Send a probe on a new connection.
    SendForeignProbe,
    /// Send a probe on the load-generating connection at this position.
    SendSelfProbe(usize),
    /// Wait for the next event.
    Wait,
}

/// What came of an interval.
#[derive(Debug, Clone, Copy, PartialEq, Eq, Structural)]
pub struct Interval {
    /// Where the data of the interval ends.
    pub end: Timestamp,
    /// Where the measurements that have to settle begin.
    pub start: Timestamp,
    /// Set up another load-generating connection.
    pub open_load: bool,
    /// The throughput at the end of the interval.
    pub goodput: Goodput,
    /// The responsiveness at the end of the interval. Zero where probes do not
    /// tell.
    pub rpm: Rpm,
    /// The throughput has settled.
    pub goodput_settled: bool,
    /// The responsiveness has settled.
    pub rpm_settled: bool,
    /// Both have settled, now or in an earlier interval: the test is done.
    pub done: bool,
}

/// What a tick of the timer led to.
#[derive(Debug, Clone, Copy, PartialEq, Eq, Structural)]
pub enum Tick {
    /// A load-generating connection failed, and the test stops at the first
    /// failure.
    Aborted,
    /// The first interval began.
    Began,
    /// An interval ended, and the next one began.
    Ended(Interval),
}

/// A responsiveness test in progress.
#[derive(Debug)]
pub struct Responsiveness<C> {
    pub start: Timestamp,
    pub config: ResponsivenessConfig,
    pub load_generator: LoadGenerator<C>,
    pub foreign_probe_results: ForeignProbeResults,
    pub self_probe_results: SelfProbeResults,
    /// The throughput of each interval.
    pub average_goodput_series: TimeSeries<Goodput>,
    /// The responsiveness of each interval.
    pub rpm_series: TimeSeries<Rpm>,
    /// Some interval had a responsiveness.
    pub measured: bool,
    pub goodput_saturated: bool,
    pub rpm_saturated: bool,
    pub direction: Direction,
    /// The responsiveness that settled last.
    pub rpm: Option<Rpm>,
    /// The throughput that settled last.
    pub capacity: Option<Goodput>,
    /// The next interval, once the first one began.
    pub interval: Option<usize>,
}

/// The result of a responsiveness test.
#[derive(Debug)]
pub struct ResponsivenessResult<C> {
    pub duration: Nanos,
    /// The throughput that settled. Absent where none did.
    pub capacity: Option<Goodput>,
    /// The responsiveness in round trips per minute. Absent where it was not
    /// measured.
    pub rpm: Option<Exact>,
    pub foreign_loaded_latencies: TimeSeries<u64>,
    pub self_probe_latencies: TimeSeries<u64>,
    pub loaded_connections: Vec<LoadedConnection<C>>,
    /// The throughput of each interval.
    pub average_goodput_series: TimeSeries<Goodput>,
    /// How many load-generating connections failed.
    pub failed_connections: usize,
}

/// The bytes that all loads transferred from `from` to `to`.
pub open spec fn bytes_between<C>(
    loads: Seq<LoadedConnection<C>>,
    from: Timestamp,
    to: Timestamp,
) -> int
    decreases loads.len(),
{
    if loads.len() == 0 {
        0
    } else {
        bytes_between(loads.drop_last(), from, to) + counter::growth(
            loads.last().state@.readings,
            from,
            to,
        )
    }
}

proof fn lemma_bytes_between_bounds<C>(
    loads: Seq<LoadedConnection<C>>,
    from: Timestamp,
    to: Timestamp,
)
    ensures
        -(loads.len() * u64::MAX) <= bytes_between(loads, from, to) <= loads.len() * u64::MAX,
    decreases loads.len(),
{
    if loads.len() > 0 {
        lemma_bytes_between_bounds(loads.drop_last(), from, to);
        assert(loads.len() * u64::MAX == (loads.len() - 1) * u64::MAX + u64::MAX)
            by (nonlinear_arith);
    } else {
        assert(loads.len() * u64::MAX == 0);
    }
}

/// The bytes of two groups of loads add up, and those of a single load are what
/// its counter grew by: all loads count, and each of them once.
pub proof fn bytes_of_all_loads_add_up<C>(
    a: Seq<LoadedConnection<C>>,
    b: Seq<LoadedConnection<C>>,
    load: LoadedConnection<C>,
    from: Timestamp,
    to: Timestamp,
)
    ensures
        bytes_between(a + b, from, to) == bytes_between(a, from, to) + bytes_between(b, from, to),
        bytes_between(seq![load], from, to) == counter::growth(load.state@.readings, from, to),
        bytes_between(Seq::<LoadedConnection<C>>::empty(), from, to) == 0,
    decreases b.len(),
{
    assert(seq![load].drop_last() =~= Seq::<LoadedConnection<C>>::empty());
    assert(bytes_between(seq![load].drop_last(), from, to) == 0);
    assert(seq![load].last() == load);
    if b.len() == 0 {
        assert(a + b =~= a);
    } else {
        bytes_of_all_loads_add_up(a, b.drop_last(), load, from, to);
        assert((a + b).drop_last() =~= a + b.drop_last());
    }
}

/// The transfers of some loads, torn down with their last events.
pub open spec fn stopped(transfer: load::Transfer, events: Seq<BodyEvent>) -> load::Transfer {
    (load::Transfer { stopping: true, ..transfer }).drained(events, true)
}

/// Tearing a load down takes its last events in, and is no failure by itself.
pub proof fn teardown_takes_in_the_last_events(transfer: load::Transfer, events: Seq<BodyEvent>)
    requires
        stats::in_time_order(transfer.readings),
    ensures
        ({
            let after = stopped(transfer, events);
            &&& after.failed == (transfer.failed || exists|i: int|
                0 <= i < events.len() && (#[trigger] events[i]) is Failed)
            &&& forall|i: int|
                0 <= i < events.len() && (#[trigger] events[i]) is ByteCount
                    ==> after.readings.contains((events[i]->ByteCount_at, events[i]->total))
            &&& after.readings.len() == transfer.readings.len() + events.filter(
                |e: BodyEvent| e is ByteCount,
            ).len()
            &&& after.finished_at is Some == (transfer.finished_at is Some || exists|i: int|
                0 <= i < events.len() && (#[trigger] events[i]) is Finished)
        }),
{
    let stopping = load::Transfer { stopping: true, ..transfer };
    load::transfer_follows_its_events(stopping, events);
}

/// The throughputs as numbers: bits per second.
pub open spec fn goodput_values(goodputs: Seq<Goodput>) -> Seq<real> {
    goodputs.map_values(|g: Goodput| g.value())
}

/// The responsiveness values as numbers: round trips per minute.
pub open spec fn rpm_values(rpms: Seq<Rpm>) -> Seq<real> {
    rpms.map_values(|r: Rpm| r.value())
}

/// A throughput in whole bits per second, rounded down.
pub open spec fn whole_rate(goodput: Goodput) -> u64 {
    up_down::bits_per_second(goodput.bytes as int, goodput.nanos as int) as u64
}

/// Every measurement stands for itself, in its place.
pub proof fn measurements_stand_for_themselves(goodputs: Seq<Goodput>, rpms: Seq<Rpm>)
    ensures
        goodput_values(goodputs).len() == goodputs.len(),
        rpm_values(rpms).len() == rpms.len(),
        forall|i: int|
            0 <= i < goodputs.len() ==> #[trigger] goodput_values(goodputs)[i]
                == goodputs[i].value(),
        forall|i: int| 0 <= i < rpms.len() ==> #[trigger] rpm_values(rpms)[i] == rpms[i].value(),
{
}

/// Whether throughputs have settled at `current`, within `tolerance`.
fn goodput_has_settled(goodputs: &Vec<Goodput>, current: Goodput, tolerance: Fraction) -> (r: bool)
    requires
        tolerance.wf(),
        current.nanos == 0 ==> goodputs@.len() == 0,
        forall|i: int| 0 <= i < goodputs@.len() ==> (#[trigger] goodputs@[i]).nanos == current.nanos,
    ensures
        r == exact::settled_at(goodput_values(goodputs@), current.value(), tolerance.value()),
{
    if current.nanos == 0 {
        return false;
    }
    let mut fractions: Vec<Exact> = Vec::new();
    let mut i: usize = 0;
    while i < goodputs.len()
        invariant
            i <= goodputs@.len(),
            current.nanos > 0,
            forall|j: int|
                0 <= j < goodputs@.len() ==> (#[trigger] goodputs@[j]).nanos == current.nanos,
            fractions@.len() == i,
            forall|j: int| 0 <= j < i ==> (#[trigger] fractions@[j])@ == goodputs@[j].value(),
        decreases goodputs@.len() - i,
    {
        fractions.push(goodputs[i].exact());
        i = i + 1;
    }
    assert(exact::values_of(fractions@) =~= goodput_values(goodputs@));
    has_settled(&fractions, &current.exact(), &tolerance.exact())
}

/// The responsiveness values as fractions.
fn exact_rpms(rpms: &Vec<Rpm>) -> (r: Vec<Exact>)
    requires
        forall|i: int| 0 <= i < rpms@.len() ==> (#[trigger] rpms@[i]).wf(),
    ensures
        exact::values_of(r@) == rpm_values(rpms@),
{
    let mut fractions: Vec<Exact> = Vec::new();
    let mut i: usize = 0;
    while i < rpms.len()
        invariant
            i <= rpms@.len(),
            forall|j: int| 0 <= j < rpms@.len() ==> (#[trigger] rpms@[j]).wf(),
            fractions@.len() == i,
            forall|j: int| 0 <= j < i ==> (#[trigger] fractions@[j])@ == rpms@[j].value(),
        decreases rpms@.len() - i,
    {
        fractions.push(rpms[i].exact());
        i = i + 1;
    }
    assert(exact::values_of(fractions@) =~= rpm_values(rpms@));
    fractions
}

/// Whether responsiveness values have settled at `current`, within `tolerance`.
fn rpm_has_settled(rpms: &Vec<Rpm>, current: Rpm, tolerance: Fraction) -> (r: bool)
    requires
        tolerance.wf(),
        current.wf(),
        forall|i: int| 0 <= i < rpms@.len() ==> (#[trigger] rpms@[i]).wf(),
    ensures
        r == exact::settled_at(rpm_values(rpms@), current.value(), tolerance.value()),
{
    has_settled(&exact_rpms(rpms), &current.exact(), &tolerance.exact())
}

/// Throughputs in whole bits per second.
pub open spec fn whole_rates(goodputs: Seq<Goodput>) -> Seq<u64> {
    goodputs.map_values(|g: Goodput| whole_rate(g))
}

/// Throughputs in whole bits per second.
fn rates_of(goodputs: &Vec<Goodput>) -> (r: Vec<u64>)
    ensures
        r@ == whole_rates(goodputs@),
{
    let mut rates: Vec<u64> = Vec::new();
    let mut i: usize = 0;
    while i < goodputs.len()
        invariant
            i <= goodputs@.len(),
            rates@.len() == i,
            forall|j: int| 0 <= j < i ==> #[trigger] rates@[j] == whole_rate(goodputs@[j]),
        decreases goodputs@.len() - i,
    {
        rates.push(goodputs[i].whole());
        i = i + 1;
    }
    assert(rates@ =~= whole_rates(goodputs@));
    rates
}

proof fn lemma_count_before_len<V>(samples: Seq<(Timestamp, V)>, t: Timestamp)
    ensures
        stats::count_before(samples, t) <= samples.len(),
    decreases samples.len(),
{
    if samples.len() > 0 {
        lemma_count_before_len(samples.drop_first(), t);
    }
}

proof fn lemma_all_after_add<V>(
    samples: Seq<(Timestamp, V)>,
    at: Timestamp,
    value: V,
    property: spec_fn(V) -> bool,
)
    requires
        property(value),
        forall|i: int| 0 <= i < samples.len() ==> property((#[trigger] samples[i]).1),
    ensures
        ({
            let after = samples.insert(stats::count_before(samples, at) as int, (at, value));
            forall|i: int| 0 <= i < after.len() ==> property((#[trigger] after[i]).1)
        }),
{
    lemma_count_before_len(samples, at);
    let place = stats::count_before(samples, at) as int;
    let after = samples.insert(place, (at, value));
    assert forall|i: int| 0 <= i < after.len() implies property((#[trigger] after[i]).1) by {
        if i < place {
            assert(after[i] == samples[i]);
        } else if i > place {
            assert(after[i] == samples[i - 1]);
        }
    }
}

proof fn lemma_window_of_all<V>(
    samples: Seq<(Timestamp, V)>,
    from: Timestamp,
    to: Timestamp,
    property: spec_fn(V) -> bool,
)
    requires
        forall|i: int| 0 <= i < samples.len() ==> property((#[trigger] samples[i]).1),
    ensures
        forall|i: int|
            0 <= i < stats::window(samples, from, to).len() ==> property(
                #[trigger] stats::window(samples, from, to)[i],
            ),
{
    let inside = |s: (Timestamp, V)| stats::within(s.0, from, to);
    let kept = samples.filter(inside);
    let values = stats::window(samples, from, to);
    assert forall|i: int| 0 <= i < values.len() implies property(#[trigger] values[i]) by {
        let at = kept.len() - 1 - i;
        assert(kept.contains(kept[at]));
        samples.lemma_filter_contains_rev(inside, kept[at]);
        let k = choose|k: int| 0 <= k < samples.len() && samples[k] == kept[at];
        assert(property(samples[k].1));
    }
}

proof fn lemma_recent_of_all<V>(
    samples: Seq<(Timestamp, V)>,
    from: Timestamp,
    to: Timestamp,
    property: spec_fn(V) -> bool,
)
    requires
        forall|i: int| 0 <= i < samples.len() ==> property((#[trigger] samples[i]).1),
    ensures
        forall|i: int|
            0 <= i < stats::recent(samples, from, to).len() ==> property(
                #[trigger] stats::recent(samples, from, to)[i],
            ),
{
    lemma_window_of_all(samples, Timestamp { nanos: (from.nanos + 1) as i64 }, to, property);
}

proof fn lemma_nothing_is_recent<V>(samples: Seq<(Timestamp, V)>, from: Timestamp, to: Timestamp)
    requires
        to.nanos <= from.nanos < i64::MAX,
    ensures
        stats::recent(samples, from, to).len() == 0,
{
    let after = Timestamp { nanos: (from.nanos + 1) as i64 };
    let inside = |s: (Timestamp, V)| stats::within(s.0, after, to);
    assert(samples.all(|s: (Timestamp, V)| !inside(s)));
    samples.lemma_all_neg_filter_empty(inside);
}

impl<C> Responsiveness<C> {
    /// Where the data of an interval ends.
    pub open spec fn interval_end(&self, interval: usize) -> int {
        self.start.nanos + self.config.interval_duration * (interval as u32)
    }

    /// The length of time that measurements are averaged over and have to settle
    /// in.
    pub open spec fn window_length(&self) -> int {
        self.config.interval_duration * (self.config.moving_average_distance as u32)
    }

    /// Where the data for the measurements of an interval begins.
    pub open spec fn interval_start(&self, interval: usize) -> int {
        self.interval_end(interval) - self.window_length()
    }

    /// Whether all points in time of an interval, and all that was measured,
    /// stay within the range of their types.
    pub open spec fn in_range(&self, interval: usize) -> bool {
        &&& self.config.interval_duration * (interval as u32) <= u64::MAX
        &&& self.window_length() <= u64::MAX
        &&& self.interval_end(interval) <= i64::MAX
        &&& i64::MIN <= self.interval_start(interval) < i64::MAX
        &&& self.load_generator.loads().len() <= MAX_LOADS
        &&& self.foreign_probe_results@.connect.len() <= rpm::MAX_PROBES
        &&& self.self_probe_results@.len() <= rpm::MAX_PROBES
        &&& self.config.trimmed_mean_percent.wf()
        &&& self.config.std_tolerance.wf()
    }

    /// A throughput of this test.
    pub open spec fn is_goodput(&self, goodput: Goodput) -> bool {
        goodput.nanos == self.window_length()
    }

    /// All measurements are of this test, and what has settled is known.
    pub open spec fn wf(&self) -> bool {
        &&& self.foreign_probe_results@.wf()
        &&& self.load_generator.headers_fit()
        &&& self.goodput_saturated == (self.capacity is Some)
        &&& self.rpm_saturated == (self.rpm is Some)
        &&& self.capacity matches Some(goodput) ==> self.is_goodput(goodput)
        &&& self.rpm matches Some(rpm) ==> rpm.wf()
        &&& forall|i: int|
            0 <= i < self.average_goodput_series@.len() ==> self.is_goodput(
                (#[trigger] self.average_goodput_series@[i]).1,
            )
        &&& forall|i: int|
            0 <= i < self.rpm_series@.len() ==> (#[trigger] self.rpm_series@[i]).1.wf()
    }

    /// The bytes of all loads within the window of an interval.
    pub open spec fn bytes_at(&self, interval: usize) -> int {
        bytes_between(
            self.load_generator.loads(),
            Timestamp { nanos: self.interval_start(interval) as i64 },
            Timestamp { nanos: self.interval_end(interval) as i64 },
        )
    }

    /// The responsiveness of an interval, where probes tell.
    pub open spec fn responsiveness_at(&self, interval: usize) -> Option<Rpm> {
        rpm::responsiveness_of(
            rpm::trimmed_probes(
                self.foreign_probe_results@,
                self.self_probe_results@,
                Timestamp { nanos: self.interval_start(interval) as i64 },
                Timestamp { nanos: self.interval_end(interval) as i64 },
                self.config.trimmed_mean_percent,
            ),
        )
    }

    /// The responsiveness of an interval, zero where probes do not tell.
    pub open spec fn rpm_at(&self, interval: usize) -> Rpm {
        match self.responsiveness_at(interval) {
            Some(rpm) => rpm,
            None => rpm::no_rpm(),
        }
    }

    /// A test of the download or the upload side that starts at `start`.
    pub fn new(config: ResponsivenessConfig, download: bool, start: Timestamp) -> (r: Result<
        Self,
        LoadError,
    >)
        requires
            client::scoped_len(config.scoped_headers) + 2 <= headers::MAX_HEADERS,
        ensures
            r matches Ok(test) && {
                &&& test.wf()
                &&& test.start == start
                &&& test.config == config
                &&& test.load_generator.loads().len() == 0
                &&& headers::entries(test.load_generator.headers()).len() == 0
                &&& test.load_generator.config().download_url@ == config.large_download_url@
                &&& test.load_generator.config().upload_url@ == config.upload_url@
                &&& test.load_generator.config().scoped_headers is Some
                    == config.scoped_headers is Some
                &&& config.scoped_headers is Some
                    ==> test.load_generator.config().scoped_headers->0@
                    == config.scoped_headers->0@
                &&& test.foreign_probe_results@.connect.len() == 0
                &&& test.self_probe_results@.len() == 0
                &&& test.average_goodput_series@.len() == 0
                &&& test.rpm_series@.len() == 0
                &&& !test.measured
                &&& !test.goodput_saturated
                &&& !test.rpm_saturated
                &&& test.direction == (if download {
                    Direction::Down
                } else {
                    Direction::Up(config.upload_bytes_per_request)
                })
                &&& test.rpm is None
                &&& test.capacity is None
                &&& test.interval is None
            },
    {
        let load_config = config.load_config();
        assert(load::first_invalid(load::pairs(load_config.headers@)) is None);
        assert(headers::built(load::pairs(load_config.headers@)).len() == 0);
        let load_generator = match LoadGenerator::new(load_config) {
            Ok(load_generator) => load_generator,
            Err(error) => {
                return Err(error);
            },
        };
        let direction = if download {
            Direction::Down
        } else {
            Direction::Up(config.upload_bytes_per_request)
        };
        Ok(
            Responsiveness {
                start,
                config,
                load_generator,
                foreign_probe_results: ForeignProbeResults::default(),
                self_probe_results: SelfProbeResults::default(),
                average_goodput_series: TimeSeries::new(),
                rpm_series: TimeSeries::new(),
                measured: false,
                goodput_saturated: false,
                rpm_saturated: false,
                direction,
                rpm: None,
                capacity: None,
                interval: None,
            },
        )
    }

    /// What to do first: set up a load, and probe unless only the load matters.
    pub fn begin(&self) -> (actions: Vec<Action>)
        ensures
            actions@ == (if self.config.determine_load_only {
                seq![Action::OpenLoad]
            } else {
                seq![Action::OpenLoad, Action::SendForeignProbe]
            }),
    {
        let mut actions: Vec<Action> = Vec::new();
        actions.push(Action::OpenLoad);
        if !self.config.determine_load_only {
            actions.push(Action::SendForeignProbe);
        }
        assert(actions@ =~= if self.config.determine_load_only {
            seq![Action::OpenLoad]
        } else {
            seq![Action::OpenLoad, Action::SendForeignProbe]
        });
        actions
    }

    /// Everything but the probes and the loads is as before.
    pub open spec fn same_otherwise(&self, other: &Self) -> bool {
        &&& self.start == other.start
        &&& self.config == other.config
        &&& self.average_goodput_series == other.average_goodput_series
        &&& self.rpm_series == other.rpm_series
        &&& self.measured == other.measured
        &&& self.goodput_saturated == other.goodput_saturated
        &&& self.rpm_saturated == other.rpm_saturated
        &&& self.direction == other.direction
        &&& self.rpm == other.rpm
        &&& self.capacity == other.capacity
        &&& self.interval == other.interval
    }

    /// Whether `action` follows a foreign probe: a self probe on some load that
    /// still runs, or another foreign probe where none does.
    pub open spec fn follows_foreign_probe(&self, action: Action) -> bool {
        match action {
            Action::SendSelfProbe(at) => at < self.load_generator.loads().len()
                && self.load_generator.loads()[at as int].state@.ongoing(),
            Action::SendForeignProbe => load::ongoing_positions(self.load_generator.loads()).len()
                == 0,
            _ => false,
        }
    }

    /// Takes in an event. Self probes and foreign probes take turns.
    pub fn on_event(&mut self, event: Event<C>) -> (action: Action)
        requires
            old(self).wf(),
        ensures
            final(self).wf(),
            final(self).same_otherwise(old(self)),
            match event {
                Event::NewLoadedConnection(connection) => {
                    &&& action == Action::Wait
                    &&& final(self).load_generator.loads() == old(self).load_generator.loads().push(connection)
                    &&& final(self).load_generator.config() == old(self).load_generator.config()
                    &&& final(self).load_generator.headers() == old(self).load_generator.headers()
                    &&& final(self).foreign_probe_results == old(self).foreign_probe_results
                    &&& final(self).self_probe_results == old(self).self_probe_results
                },
                Event::ForeignProbe(result) => {
                    &&& final(self).follows_foreign_probe(action)
                    &&& match action {
                        Action::SendSelfProbe(at) => at < old(self).load_generator.loads().len() && {
                            let load = old(self).load_generator.loads()[at as int].state@;
                            load.finished_at is None && !load.failed
                        },
                        Action::SendForeignProbe => forall|i: int|
                            0 <= i < old(self).load_generator.loads().len() ==> ((
                            #[trigger] old(self).load_generator.loads()[i]).state@.finished_at
                                is Some || old(self).load_generator.loads()[i].state@.failed),
                        _ => false,
                    }
                    &&& final(self).foreign_probe_results@ == old(self).foreign_probe_results@.with(
                        result,
                    )
                    &&& final(self).self_probe_results == old(self).self_probe_results
                    &&& final(self).load_generator == old(self).load_generator
                },
                Event::SelfProbe(result) => {
                    &&& action == Action::SendForeignProbe
                    &&& final(self).self_probe_results@ == old(self).self_probe_results@.insert(
                        stats::count_before(old(self).self_probe_results@, result.start) as int,
                        (result.start, result.time_body),
                    )
                    &&& final(self).foreign_probe_results == old(self).foreign_probe_results
                    &&& final(self).load_generator == old(self).load_generator
                },
                Event::Error => action == Action::Wait && *final(self) == *old(self),
            },
    {
        match event {
            Event::NewLoadedConnection(connection) => {
                self.load_generator.push(connection);
                Action::Wait
            },
            Event::ForeignProbe(result) => {
                self.foreign_probe_results.add(result);
                let count: usize = self.load_generator.connections().len();
                proof {
                    let loads = self.load_generator.loads();
                    assert(loads.len() == count);
                    load::running_loads_are_found(loads);
                    let running = load::ongoing_positions(loads);
                    assert forall|i: int| 0 <= i < loads.len() && running.len() == 0 implies ((
                    #[trigger] loads[i]).state@.finished_at is Some || loads[i].state@.failed) by {
                        assert(!running.contains(i as usize));
                    }
                }
                match self.load_generator.random_connection() {
                    Some(at) => Action::SendSelfProbe(at),
                    None => Action::SendForeignProbe,
                }
            },
            Event::SelfProbe(result) => {
                self.self_probe_results.add(result);
                Action::SendForeignProbe
            },
            Event::Error => Action::Wait,
        }
    }

    /// Whether `r` is the request of a probe to the given URI.
    pub open spec fn is_probe(
        &self,
        parts: uri::UriParts,
        connection: ConnectionChoice<C>,
        r: Result<Prepared<C>, LoadError>,
    ) -> bool {
        match parts.host {
            None => r == Err::<Prepared<C>, LoadError>(
                LoadError::Client(ClientError::MissingHost),
            ),
            Some(host) => r matches Ok(request) && {
                &&& request.method@ == "GET"@
                &&& request.host@ == host
                &&& request.port == client::transfer_port(parts)
                &&& request.host_with_port@ == client::host_and_port(
                    host,
                    client::transfer_port(parts),
                )
                &&& headers::entries(request.headers) == client::with_scoped(
                    client::with_user_agent(seq![]),
                    self.config.scoped_headers,
                    host,
                )
                &&& request.connection == connection
                &&& request.upload is None
            },
        }
    }

    /// Makes the request of a probe to a URI, on an open connection or a new
    /// one.
    pub fn probe_request(&self, connection: Option<C>, uri: &Uri) -> (r: Result<
        Prepared<C>,
        LoadError,
    >)
        requires
            client::scoped_len(self.config.scoped_headers) + 2 <= headers::MAX_HEADERS,
        ensures
            self.is_probe(
                uri@,
                match connection {
                    Some(connection) => ConnectionChoice::Existing(connection),
                    None => ConnectionChoice::New(ConnectionType::H2),
                },
                r,
            ),
    {
        let scoped = match &self.config.scoped_headers {
            Some(scoped) => Some(scoped.clone()),
            None => None,
        };
        let client: ThroughputClient<C> = ThroughputClient::download().scoped_headers(scoped);
        let sent = match connection {
            Some(connection) => client.with_connection(connection).send(uri),
            None => client.new_connection(ConnectionType::H2).send(uri),
        };
        match sent {
            Ok(request) => Ok(request),
            Err(error) => Err(LoadError::Client(error)),
        }
    }

    /// Makes the request of a foreign probe: a small download on a new HTTP/2
    /// connection, as a browser makes it that opens a page.
    pub fn send_foreign_probe(&self) -> (r: Result<Prepared<C>, LoadError>)
        requires
            client::scoped_len(self.config.scoped_headers) + 2 <= headers::MAX_HEADERS,
        ensures
            match uri::http_uri(self.config.small_download_url@) {
                None => r == Err::<Prepared<C>, LoadError>(LoadError::InvalidUri),
                Some(parts) => self.is_probe(
                    parts,
                    ConnectionChoice::New(ConnectionType::H2),
                    r,
                ),
            },
    {
        match Uri::parse(self.config.small_download_url.as_str()) {
            Some(uri) => self.probe_request(None, &uri),
            None => Err(LoadError::InvalidUri),
        }
    }

    /// Makes the request of a self probe: a small download on a load-generating
    /// connection, as a player makes it that skips ahead in a video.
    pub fn send_self_probe(&self, connection: C) -> (r: Result<Prepared<C>, LoadError>)
        requires
            client::scoped_len(self.config.scoped_headers) + 2 <= headers::MAX_HEADERS,
        ensures
            match uri::http_uri(self.config.small_download_url@) {
                None => r == Err::<Prepared<C>, LoadError>(LoadError::InvalidUri),
                Some(parts) => self.is_probe(parts, ConnectionChoice::Existing(connection), r),
            },
    {
        match Uri::parse(self.config.small_download_url.as_str()) {
            Some(uri) => self.probe_request(Some(connection), &uri),
            None => Err(LoadError::InvalidUri),
        }
    }

    /// Plans another load-generating connection.
    pub fn new_load_generating_connection(&self) -> (r: Result<PlannedLoad<C>, LoadError>)
        requires
            self.wf(),
        ensures
            ({
                let address = match self.direction {
                    Direction::Up(_) => self.load_generator.config().upload_url@,
                    Direction::Down => self.load_generator.config().download_url@,
                };
                match uri::http_uri(address) {
                    None => r == Err::<PlannedLoad<C>, LoadError>(LoadError::InvalidUri),
                    Some(parts) => self.load_generator.is_plan(
                        self.direction,
                        self.config.conn_type,
                        parts,
                        r,
                    ),
                }
            }),
    {
        self.load_generator.new_loaded_connection(self.direction, self.config.conn_type)
    }

    /// Moves on to the next interval. Returns the one that ended, where one had
    /// begun.
    pub fn next_interval(&mut self) -> (ended: Option<usize>)
        requires
            old(self).interval matches Some(interval) ==> interval < usize::MAX,
        ensures
            ended == old(self).interval,
            *final(self) == (Responsiveness {
                interval: match old(self).interval {
                    Some(interval) => Some((interval + 1) as usize),
                    None => Some(0),
                },
                ..*old(self)
            }),
    {
        match self.interval {
            Some(interval) => {
                self.interval = Some(interval + 1);
                Some(interval)
            },
            None => {
                self.interval = Some(0);
                None
            },
        }
    }

    /// A failed connection ends the test.
    pub open spec fn aborts(&self) -> bool {
        self.config.on_connection_error == ConnectionErrorPolicy::Abort && load::count_where(
            self.load_generator.loads(),
            |t: load::Transfer| t.failed,
        ) > 0
    }

    /// Whether a failed connection ends the test.
    pub fn must_abort(&self) -> (r: bool)
        ensures
            r == self.aborts(),
            r == (self.config.on_connection_error == ConnectionErrorPolicy::Abort && exists|i: int|
                0 <= i < self.load_generator.loads().len() && (
                #[trigger] self.load_generator.loads()[i]).state@.failed),
    {
        proof {
            load::counted_load_is_there(
                self.load_generator.loads(),
                |t: load::Transfer| t.failed,
            );
        }
        match self.config.on_connection_error {
            ConnectionErrorPolicy::Retire => false,
            ConnectionErrorPolicy::Abort => self.load_generator.count_failed_loads() > 0,
        }
    }

    /// Whether the test has run for longer than it may.
    pub fn is_over(&self, now: Timestamp) -> (r: bool)
        ensures
            r == (time::span(self.start, now) > self.config.test_duration),
    {
        now.duration_since(self.start) > self.config.test_duration
    }

    /// Whether all points in time of an interval, and all that was measured,
    /// stay within the range of their types.
    pub fn is_in_range(&self, interval: usize) -> (r: bool)
        ensures
            r == self.in_range(interval),
    {
        let duration: u128 = self.config.interval_duration as u128;
        let count: u32 = interval as u32;
        let distance: u32 = self.config.moving_average_distance as u32;
        assert(duration * count <= u64::MAX * u32::MAX) by (nonlinear_arith)
            requires
                duration <= u64::MAX,
                count <= u32::MAX,
        ;
        assert(duration * distance <= u64::MAX * u32::MAX) by (nonlinear_arith)
            requires
                duration <= u64::MAX,
                distance <= u32::MAX,
        ;
        let elapsed: u128 = duration * count as u128;
        let back: u128 = duration * distance as u128;
        if elapsed > u64::MAX as u128 || back > u64::MAX as u128 {
            return false;
        }
        let end: i128 = self.start.nanos as i128 + elapsed as i128;
        let start: i128 = end - back as i128;
        end <= i64::MAX as i128 && i64::MIN as i128 <= start && start < i64::MAX as i128
            && self.load_generator.connections().len() as u64 <= MAX_LOADS
            && self.foreign_probe_results.len() as u64 <= rpm::MAX_PROBES
            && self.self_probe_results.http().samples().len() as u64 <= rpm::MAX_PROBES
            && self.config.trimmed_mean_percent.den > 0 && self.config.std_tolerance.den > 0
    }

    /// The throughput up to `end`: the bytes of all loads within as many
    /// intervals as a measurement has to settle in, and how long these take.
    pub fn current_average_throughput(&self, end: Timestamp) -> (r: Goodput)
        requires
            self.window_length() <= u64::MAX,
            end.nanos - self.window_length() >= i64::MIN,
            self.load_generator.loads().len() <= MAX_LOADS,
        ensures
            r.nanos == self.window_length(),
            r.bytes == bytes_between(
                self.load_generator.loads(),
                Timestamp { nanos: (end.nanos - self.window_length()) as i64 },
                end,
            ),
    {
        let from = instant_minus_intervals(
            end,
            self.config.moving_average_distance,
            self.config.interval_duration,
        );
        let ghost loads = self.load_generator.loads();
        let connections = self.load_generator.connections();
        let mut bytes: i128 = 0;
        let mut i: usize = 0;
        assert(loads.take(0) =~= Seq::empty());
        while i < connections.len()
            invariant
                i <= connections@.len() <= MAX_LOADS,
                connections@ == loads,
                bytes == bytes_between(loads.take(i as int), from, end),
            decreases connections@.len() - i,
        {
            proof {
                assert(loads.take(i + 1).drop_last() =~= loads.take(i as int));
                lemma_bytes_between_bounds(loads.take(i + 1), from, end);
                lemma_bytes_between_bounds(loads.take(i as int), from, end);
                assert((i + 1) * u64::MAX <= MAX_LOADS * u64::MAX) by (nonlinear_arith)
                    requires
                        i + 1 <= MAX_LOADS,
                ;
                assert(i * u64::MAX <= MAX_LOADS * u64::MAX) by (nonlinear_arith)
                    requires
                        i <= MAX_LOADS,
                ;
            }
            bytes = bytes + connections[i].total_bytes_series().interval_sum(from, end);
            i = i + 1;
        }
        proof {
            assert(loads.take(i as int) =~= loads);
            lemma_bytes_between_bounds(loads, from, end);
            assert(loads.len() * u64::MAX <= MAX_LOADS * u64::MAX) by (nonlinear_arith)
                requires
                    loads.len() <= MAX_LOADS,
            ;
        }
        Goodput { bytes, nanos: end.duration_since(from) }
    }

    /// Whether `outcome` is what came of an interval, and `after` the test after
    /// it.
    pub open spec fn ends(&self, interval: usize, outcome: Interval, after: Self) -> bool {
        &&& outcome.end.nanos == self.interval_end(interval)
        &&& outcome.start.nanos == self.interval_start(interval)
        &&& outcome.open_load == (load::count_where(
            self.load_generator.loads(),
            |t: load::Transfer| t.ongoing(),
        ) < self.config.max_loaded_connections)
        &&& outcome.goodput.bytes == self.bytes_at(interval)
        &&& outcome.goodput.nanos == self.window_length()
        &&& outcome.rpm == self.rpm_at(interval)
        &&& after.average_goodput_series@ == self.average_goodput_series@.insert(
            stats::count_before(self.average_goodput_series@, outcome.end) as int,
            (outcome.end, outcome.goodput),
        )
        &&& after.rpm_series@ == self.rpm_series@.insert(
            stats::count_before(self.rpm_series@, outcome.end) as int,
            (outcome.end, outcome.rpm),
        )
        &&& outcome.goodput_settled == exact::settled_at(
            goodput_values(
                stats::recent(after.average_goodput_series@, outcome.start, outcome.end),
            ),
            outcome.goodput.value(),
            self.config.std_tolerance.value(),
        )
        &&& outcome.rpm_settled == exact::settled_at(
            rpm_values(stats::recent(after.rpm_series@, outcome.start, outcome.end)),
            outcome.rpm.value(),
            self.config.std_tolerance.value(),
        )
        &&& (after.goodput_saturated, after.rpm_saturated) == settled(
            self.goodput_saturated,
            self.rpm_saturated,
            seq![(outcome.goodput_settled, outcome.rpm_settled)],
        )
        &&& outcome.done == (after.goodput_saturated && after.rpm_saturated)
        &&& after == (Responsiveness {
            average_goodput_series: after.average_goodput_series,
            rpm_series: after.rpm_series,
            measured: self.measured || self.responsiveness_at(interval) is Some,
            goodput_saturated: after.goodput_saturated,
            rpm_saturated: after.rpm_saturated,
            capacity: if outcome.goodput_settled {
                Some(outcome.goodput)
            } else {
                self.capacity
            },
            rpm: if outcome.rpm_settled {
                Some(outcome.rpm)
            } else {
                self.rpm
            },
            ..*self
        })
    }

    /// Looks at an interval that ended: whether to add a load, what the
    /// throughput and the responsiveness are, and whether they have settled.
    ///
    /// Every interval adds a load, as long as there are fewer than allowed. A
    /// measurement has settled when the standard deviation of the last ones, as
    /// many as configured, is within the tolerance of the present one. What has settled
    /// once stays settled; when it settles again the value is renewed.
    pub fn on_interval(&mut self, interval: usize) -> (r: Interval)
        requires
            old(self).wf(),
            old(self).in_range(interval),
        ensures
            final(self).wf(),
            old(self).ends(interval, r, *final(self)),
            r.end.nanos == old(self).start.nanos + old(self).config.interval_duration * (
            interval as u32),
            r.start.nanos == r.end.nanos - old(self).config.interval_duration * (old(
                self,
            ).config.moving_average_distance as u32),
            r.open_load == (load::ongoing_positions(old(self).load_generator.loads()).len() < old(
                self,
            ).config.max_loaded_connections),
            r.goodput.bytes == bytes_between(old(self).load_generator.loads(), r.start, r.end),
            r.goodput.nanos == old(self).config.interval_duration * (old(
                self,
            ).config.moving_average_distance as u32),
            r.rpm == (match rpm::responsiveness_of(
                rpm::trimmed_probes(
                    old(self).foreign_probe_results@,
                    old(self).self_probe_results@,
                    r.start,
                    r.end,
                    old(self).config.trimmed_mean_percent,
                ),
            ) {
                Some(rpm) => rpm,
                None => rpm::no_rpm(),
            }),
            final(self).capacity == (if r.goodput_settled {
                Some(r.goodput)
            } else {
                old(self).capacity
            }),
            final(self).rpm == (if r.rpm_settled {
                Some(r.rpm)
            } else {
                old(self).rpm
            }),
            final(self).measured == (old(self).measured || rpm::responsiveness_of(
                rpm::trimmed_probes(
                    old(self).foreign_probe_results@,
                    old(self).self_probe_results@,
                    r.start,
                    r.end,
                    old(self).config.trimmed_mean_percent,
                ),
            ) is Some),
            r.done == ((old(self).goodput_saturated || r.goodput_settled) && (old(
                self,
            ).rpm_saturated || r.rpm_settled)),
    {
        let elapsed: u64 = self.config.interval_duration * (interval as u32) as u64;
        let end = self.start + elapsed;
        let start = instant_minus_intervals(
            end,
            self.config.moving_average_distance,
            self.config.interval_duration,
        );
        let tolerance = self.config.std_tolerance;
        let open_load = self.load_generator.count_loads() < self.config.max_loaded_connections;

        let goodput: Goodput = self.current_average_throughput(end);
        let responsiveness = compute_responsiveness(
            &self.foreign_probe_results,
            &self.self_probe_results,
            start,
            end,
            self.config.trimmed_mean_percent,
        );
        let rpm: Rpm = match responsiveness {
            Some(rpm) => rpm,
            None => Rpm::none(),
        };

        let ghost before = *self;
        let ghost of_this_test = |g: Goodput| before.is_goodput(g);
        proof {
            lemma_all_after_add(self.average_goodput_series@, end, goodput, of_this_test);
            lemma_all_after_add(self.rpm_series@, end, rpm, |r: Rpm| r.wf());
        }
        self.average_goodput_series.add(end, goodput);
        let goodputs = self.average_goodput_series.sample_recent(start, end);
        proof {
            if goodput.nanos == 0 {
                lemma_nothing_is_recent(self.average_goodput_series@, start, end);
            }
            lemma_recent_of_all(self.average_goodput_series@, start, end, of_this_test);
            assert forall|i: int| 0 <= i < goodputs@.len() implies (#[trigger] goodputs@[i]).nanos
                == goodput.nanos by {
                assert(of_this_test(goodputs@[i]));
            }
        }
        let goodput_settled = goodput_has_settled(&goodputs, goodput, tolerance);
        self.rpm_series.add(end, rpm);
        let rpms = self.rpm_series.sample_recent(start, end);
        proof {
            lemma_recent_of_all(self.rpm_series@, start, end, |r: Rpm| r.wf());
        }
        let rpm_settled = rpm_has_settled(&rpms, rpm, tolerance);
        proof {
            reveal_with_fuel(settled, 2);
            let one = seq![(goodput_settled, rpm_settled)];
            assert(one.drop_last() =~= Seq::empty());
            assert(one.last() == (goodput_settled, rpm_settled));
        }
        if goodput_settled {
            self.capacity = Some(goodput);
            self.goodput_saturated = true;
        }
        if rpm_settled {
            self.rpm = Some(rpm);
            self.rpm_saturated = true;
        }
        if responsiveness.is_some() {
            self.measured = true;
        }
        Interval {
            end,
            start,
            open_load,
            goodput,
            rpm,
            goodput_settled,
            rpm_settled,
            done: self.goodput_saturated && self.rpm_saturated,
        }
    }

    /// The timer ticked. Takes in what the loads reported, and then ends the
    /// interval that ran, unless a failed load ends the test. The first tick
    /// ends none and begins the first interval.
    pub fn on_tick(&mut self, reports: Vec<LoadReport>) -> (tick: Tick)
        requires
            old(self).wf(),
            reports@.len() == old(self).load_generator.loads().len(),
            old(self).interval matches Some(interval) ==> interval < usize::MAX
                && old(self).in_range(interval),
        ensures
            final(self).wf(),
            load::updated(
                old(self).load_generator.loads(),
                reports@,
                final(self).load_generator.loads(),
            ),
            final(self).load_generator.headers() == old(self).load_generator.headers(),
            final(self).load_generator.config() == old(self).load_generator.config(),
            ({
                let reported = Responsiveness {
                    load_generator: final(self).load_generator,
                    ..*old(self)
                };
                if reported.aborts() {
                    tick == Tick::Aborted && *final(self) == reported
                } else {
                    match old(self).interval {
                        None => tick == Tick::Began && *final(self) == (Responsiveness {
                            interval: Some(0),
                            ..reported
                        }),
                        Some(interval) => tick matches Tick::Ended(outcome) && (Responsiveness {
                            interval: Some((interval + 1) as usize),
                            ..reported
                        }).ends(interval, outcome, *final(self)),
                    }
                }
            }),
    {
        self.load_generator.update(reports);
        if self.must_abort() {
            return Tick::Aborted;
        }
        match self.next_interval() {
            Some(interval) => Tick::Ended(self.on_interval(interval)),
            None => Tick::Began,
        }
    }

    /// The responsiveness to report at `now`: the one that settled, else the
    /// average of the last two seconds. There is none where no interval had
    /// one.
    pub open spec fn final_rpm(&self, now: Timestamp) -> Option<real> {
        let last = stats::window(
            self.rpm_series@,
            Timestamp { nanos: (now.nanos - FALLBACK_WINDOW) as i64 },
            now,
        );
        match self.rpm {
            Some(rpm) => Some(rpm.value()),
            None => if self.measured && last.len() > 0 {
                Some(exact::mean(rpm_values(last)))
            } else {
                None
            },
        }
    }

    /// Whether `r` is the responsiveness to report at `now`.
    pub open spec fn reports(&self, now: Timestamp, r: Option<Exact>) -> bool {
        match self.final_rpm(now) {
            Some(rpm) => r matches Some(reported) && reported@ == rpm,
            None => r is None,
        }
    }

    /// The responsiveness to report at `now`, in round trips per minute.
    pub fn reported_rpm(&self, now: Timestamp) -> (r: Option<Exact>)
        requires
            self.wf(),
            now.nanos - FALLBACK_WINDOW >= i64::MIN,
        ensures
            self.reports(now, r),
            r is Some == self.final_rpm(now) is Some,
            r matches Some(rpm) ==> rpm@ == self.final_rpm(now)->0,
    {
        match self.rpm {
            Some(rpm) => Some(rpm.exact()),
            None => if self.measured {
                let from = now - FALLBACK_WINDOW;
                let last = self.rpm_series.sample_interval(from, now);
                proof {
                    lemma_window_of_all(self.rpm_series@, from, now, |r: Rpm| r.wf());
                }
                mean_of(&exact_rpms(&last))
            } else {
                None
            },
        }
    }

    /// Ends the test at `now`: tears down all loads, given their last events,
    /// and sums up.
    pub fn finish(self, now: Timestamp, last_events: Vec<Vec<BodyEvent>>) -> (r:
        ResponsivenessResult<C>)
        requires
            self.wf(),
            last_events@.len() == self.load_generator.loads().len(),
            now.nanos - FALLBACK_WINDOW >= i64::MIN,
        ensures
            r.duration == time::span(self.start, now),
            r.capacity == self.capacity,
            self.reports(now, r.rpm),
            r.rpm is Some == self.final_rpm(now) is Some,
            r.rpm matches Some(rpm) ==> rpm@ == self.final_rpm(now)->0,
            r.foreign_loaded_latencies@ == self.foreign_probe_results@.http,
            r.self_probe_latencies@ == self.self_probe_results@,
            r.average_goodput_series == self.average_goodput_series,
            r.failed_connections == load::count_where(
                self.load_generator.loads(),
                |t: load::Transfer| t.failed,
            ),
            r.loaded_connections@.len() == self.load_generator.loads().len(),
            forall|i: int|
                0 <= i < r.loaded_connections@.len() ==> {
                    let before = self.load_generator.loads()[i];
                    let after = #[trigger] r.loaded_connections@[i];
                    &&& after.connection == before.connection
                    &&& after.state@ == stopped(before.state@, last_events@[i]@)
                },
    {
        let failed_connections: usize = self.load_generator.count_failed_loads();
        let rpm = self.reported_rpm(now);
        let duration: Nanos = now.duration_since(self.start);
        let loads = self.load_generator.into_connections();
        let loaded_connections = stop_all(loads, last_events);
        ResponsivenessResult {
            duration,
            capacity: self.capacity,
            rpm,
            foreign_loaded_latencies: self.foreign_probe_results.into_http(),
            self_probe_latencies: self.self_probe_results.into_http(),
            loaded_connections,
            average_goodput_series: self.average_goodput_series,
            failed_connections,
        }
    }
}

impl<C> Default for ResponsivenessResult<C> {
    /// The result of a test that measured nothing.
    fn default() -> (r: Self)
        ensures
            r.duration == 0,
            r.capacity is None,
            r.rpm is None,
            r.foreign_loaded_latencies@.len() == 0,
            r.self_probe_latencies@.len() == 0,
            r.loaded_connections@.len() == 0,
            r.average_goodput_series@.len() == 0,
            r.failed_connections == 0,
    {
        ResponsivenessResult {
            duration: 0,
            capacity: None,
            rpm: None,
            foreign_loaded_latencies: TimeSeries::new(),
            self_probe_latencies: TimeSeries::new(),
            loaded_connections: Vec::new(),
            average_goodput_series: TimeSeries::new(),
            failed_connections: 0,
        }
    }
}

/// The share of the intervals whose throughput is at most the one reported.
pub open spec fn ninety_percent() -> Fraction {
    Fraction { num: 90, den: 100 }
}

impl<C> ResponsivenessResult<C> {
    /// The throughput to report, in bits per second: the one that nine in ten
    /// intervals do not exceed.
    pub open spec fn reported_throughput(&self) -> Option<u64> {
        stats::quantile_of(
            whole_rates(stats::values_of(self.average_goodput_series@)),
            ninety_percent(),
        )
    }

    /// The throughput to report. `None` where no interval was measured.
    pub fn throughput(&self) -> (r: Option<u64>)
        ensures
            r == self.reported_throughput(),
    {
        quantile(&rates_of(&self.average_goodput_series.values()), Fraction { num: 90, den: 100 })
    }

    /// The throughput to report. `None` where no interval was measured.
    ///
    /// It is the rate of one of the intervals. More than nine in ten of them have
    /// at most that rate, and the others at least.
    pub proof fn throughput_is_the_ninetieth_percentile(&self, k: nat)
        requires
            10 * k <= 9 * self.average_goodput_series@.len() < 10 * (k + 1),
        ensures
            ({
                let series = self.average_goodput_series@;
                let rates = Seq::new(
                    series.len(),
                    |i: int|
                        up_down::bits_per_second(
                            series[i].1.bytes as int,
                            series[i].1.nanos as int,
                        ) as u64,
                );
                &&& self.reported_throughput() is Some == (series.len() > 0)
                &&& self.reported_throughput() matches Some(rate) ==> {
                    &&& rates.contains(rate)
                    &&& ranks::count_between(rates, 0, rate) > k
                    &&& ranks::count_between(rates, rate, u64::MAX) >= series.len() - k
                }
            }),
    {
        let series = self.average_goodput_series@;
        let rates = Seq::new(
            series.len(),
            |i: int|
                up_down::bits_per_second(
                    series[i].1.bytes as int,
                    series[i].1.nanos as int,
                ) as u64,
        );
        assert(whole_rates(stats::values_of(series)) =~= rates);
        ranks::quantile_has_its_rank(rates, ninety_percent(), k);
    }

    /// The throughput that settled in whole bits per second, zero where none did.
    pub open spec fn whole_capacity(&self) -> u64 {
        match self.capacity {
            Some(goodput) => whole_rate(goodput),
            None => 0,
        }
    }

    /// The throughput that settled in whole bits per second, zero where none did.
    pub fn capacity_rate(&self) -> (r: u64)
        ensures
            r == self.whole_capacity(),
            self.capacity is None ==> r == 0,
            self.capacity matches Some(goodput) ==> r == up_down::bits_per_second(
                goodput.bytes as int,
                goodput.nanos as int,
            ),
    {
        match self.capacity {
            Some(goodput) => goodput.whole(),
            None => 0,
        }
    }

    /// Whole round trips per minute, rounded to the nearest. Zero where none
    /// were measured.
    pub open spec fn whole_rpm(&self) -> nat {
        match self.rpm {
            Some(rpm) => exact::rounded_of(rpm@) as nat,
            None => 0,
        }
    }

    /// The result in two lines, given the text of the capacity: the capacity,
    /// then the responsiveness.
    pub open spec fn summary_text(&self, capacity: Seq<char>) -> Seq<char> {
        "capacity: "@ + capacity + "/s\n     rpm: "@ + text::decimal(self.whole_rpm())
    }

    /// The result in two lines, given the text of the capacity.
    pub fn summary_with(&self, capacity: &str) -> (r: String)
        ensures
            r@ == self.summary_text(capacity@),
    {
        let rpm: u64 = match &self.rpm {
            Some(rpm) => rpm.round(),
            None => 0,
        };
        let mut out = String::from_str("capacity: ");
        out.append(capacity);
        out.append("/s\n     rpm: ");
        text::push_decimal(&mut out, rpm);
        out
    }

    /// The result in two lines, for readers.
    pub fn summary(&self) -> (r: String)
        ensures
            r@ == self.summary_text(text::bits_text(self.whole_capacity(), 2)),
    {
        self.summary_with(text::format_bits(self.capacity_rate(), 2).as_str())
    }
}

/// Tears down all loads, each with its last events.
fn stop_all<C>(loads: Vec<LoadedConnection<C>>, last_events: Vec<Vec<BodyEvent>>) -> (r: Vec<
    LoadedConnection<C>,
>)
    requires
        last_events@.len() == loads@.len(),
    ensures
        r@.len() == loads@.len(),
        forall|i: int|
            0 <= i < r@.len() ==> {
                let after = #[trigger] r@[i];
                &&& after.connection == loads@[i].connection
                &&& after.state@ == stopped(loads@[i].state@, last_events@[i]@)
            },
{
    let ghost before = loads@;
    let ghost events_before = last_events@;
    let mut loads = loads;
    let mut last_events = last_events;
    let mut i: usize = loads.len();
    while i > 0
        invariant
            i <= loads@.len() == before.len(),
            last_events@ == events_before.take(i as int),
            before.len() == events_before.len(),
            forall|j: int| 0 <= j < i ==> #[trigger] loads@[j] == before[j],
            forall|j: int|
                i <= j < before.len() ==> {
                    let after = #[trigger] loads@[j];
                    &&& after.connection == before[j].connection
                    &&& after.state@ == stopped(before[j].state@, events_before[j]@)
                },
        decreases i,
    {
        i = i - 1;
        if let Some(events) = last_events.pop() {
            assert(events == events_before[i as int]);
            loads[i].stop(events);
        }
    }
    loads
}

/// A probe is a plain download from the host of its address, with the headers that
/// any download to that host carries.
pub proof fn probe_is_a_download<C>(
    test: Responsiveness<C>,
    client: ThroughputClient<C>,
    parts: uri::UriParts,
    connection: ConnectionChoice<C>,
    r: Result<Prepared<C>, LoadError>,
)
    requires
        test.is_probe(parts, connection, r),
        client.direction == Direction::Down,
        client.headers is None,
        client.scoped_headers == test.config.scoped_headers,
    ensures
        r is Ok == parts.host is Some,
        r matches Ok(request) ==> {
            &&& request.method@ == "GET"@
            &&& request.host@ == parts.host->0
            &&& parts.port matches Some(port) ==> request.port == port
            &&& headers::entries(request.headers) == client.request_headers(parts.host->0)
            &&& request.connection == connection
            &&& request.upload is None
        },
{
}

/// The intervals of a test follow each other from its start on, each as long as
/// configured. The measurements of an interval look back over as many intervals
/// as configured.
pub proof fn intervals_follow_each_other<C>(test: Responsiveness<C>, interval: usize)
    requires
        interval < u32::MAX,
        test.config.moving_average_distance <= u32::MAX,
    ensures
        test.interval_end(0) == test.start.nanos,
        test.interval_end((interval + 1) as usize) - test.interval_end(interval)
            == test.config.interval_duration,
        test.interval_end(interval) - test.interval_start(interval)
            == test.config.moving_average_distance * test.config.interval_duration,
        test.window_length() == test.config.moving_average_distance
            * test.config.interval_duration,
{
    let (d, i, m) = (
        test.config.interval_duration as int,
        interval as int,
        test.config.moving_average_distance as int,
    );
    assert(d * (i + 1) == d * i + d) by (nonlinear_arith);
    assert(d * m == m * d) by (nonlinear_arith);
    assert(d * 0 == 0) by (nonlinear_arith);
}

/// The responsiveness to report is the one that settled. Where none did it is the
/// average over the last two seconds: taken as often as there are values, it has
/// their sum. There is none where no interval measured one.
pub proof fn reported_responsiveness_is_settled_or_recent<C>(
    test: Responsiveness<C>,
    now: Timestamp,
)
    ensures
        ({
            let last = stats::window(
                test.rpm_series@,
                Timestamp { nanos: (now.nanos - 2_000_000_000) as i64 },
                now,
            );
            &&& test.rpm matches Some(rpm) ==> test.final_rpm(now) == Some(rpm.value())
            &&& test.rpm is None ==> (test.final_rpm(now) is Some == (test.measured && last.len()
                > 0))
            &&& test.rpm is None && test.final_rpm(now) is Some ==> test.final_rpm(now)->0 * (
            last.len() as real) == exact::sum(last.map_values(|r: Rpm| r.value()))
        }),
{
    let last = stats::window(
        test.rpm_series@,
        Timestamp { nanos: (now.nanos - 2_000_000_000) as i64 },
        now,
    );
    assert(rpm_values(last) =~= last.map_values(|r: Rpm| r.value()));
    if last.len() > 0 {
        exact::variance_is_the_average_squared_distance(rpm_values(last));
    }
}

/// Loads whose byte counts never fall show no negative throughput.
pub proof fn throughput_is_not_negative<C>(
    loads: Seq<LoadedConnection<C>>,
    from: Timestamp,
    to: Timestamp,
)
    requires
        from.nanos <= to.nanos,
        forall|i: int|
            0 <= i < loads.len() ==> stats::in_time_order((#[trigger] loads[i]).state@.readings)
                && counter::never_decreases(loads[i].state@.readings),
    ensures
        bytes_between(loads, from, to) >= 0,
    decreases loads.len(),
{
    if loads.len() > 0 {
        let rest = loads.drop_last();
        assert(forall|i: int| 0 <= i < rest.len() ==> #[trigger] rest[i] == loads[i]);
        assert(loads[loads.len() - 1] == loads.last());
        throughput_is_not_negative(rest, from, to);
        counter::growth_is_not_negative(loads.last().state@.readings, from, to);
    }
}

/// Once the throughput or the responsiveness has settled it stays so, whatever
/// later intervals bring, and it counts as settled only after an interval in
/// which it did.
pub proof fn settling_is_final(
    goodput_saturated: bool,
    rpm_saturated: bool,
    later: Seq<(bool, bool)>,
)
    ensures
        settled(goodput_saturated, rpm_saturated, later).0 == (goodput_saturated || exists|i: int|
            0 <= i < later.len() && (#[trigger] later[i]).0),
        settled(goodput_saturated, rpm_saturated, later).1 == (rpm_saturated || exists|i: int|
            0 <= i < later.len() && (#[trigger] later[i]).1),
    decreases later.len(),
{
    if later.len() > 0 {
        let rest = later.drop_last();
        settling_is_final(goodput_saturated, rpm_saturated, rest);
        assert(forall|i: int| 0 <= i < rest.len() ==> #[trigger] rest[i] == later[i]);
        assert(later[later.len() - 1] == later.last());
        if exists|i: int| 0 <= i < later.len() && (#[trigger] later[i]).0 {
            let i = choose|i: int| 0 <= i < later.len() && (#[trigger] later[i]).0;
            if i < rest.len() {
                assert(rest[i].0);
            }
        }
        if exists|i: int| 0 <= i < later.len() && (#[trigger] later[i]).1 {
            let i = choose|i: int| 0 <= i < later.len() && (#[trigger] later[i]).1;
            if i < rest.len() {
                assert(rest[i].1);
            }
        }
    }
}

/// Which of throughput and responsiveness have settled after a series of
/// intervals.
pub open spec fn settled(
    goodput_saturated: bool,
    rpm_saturated: bool,
    intervals: Seq<(bool, bool)>,
) -> (bool, bool)
    decreases intervals.len(),
{
    if intervals.len() == 0 {
        (goodput_saturated, rpm_saturated)
    } else {
        let before = settled(goodput_saturated, rpm_saturated, intervals.drop_last());
        (before.0 || intervals.last().0, before.1 || intervals.last().1)
    }
}

} // verus!
