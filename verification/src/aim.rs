//! Results in the form in which they are collected for quality scores.

use http::{HeaderMap, HeaderValue};
use vstd::prelude::*;

use crate::client;
use crate::client::{Client, ClientError, ConnectionChoice, Prepared};
use crate::connection::ConnectionType;
use crate::counter;
use crate::counter::CounterAverage;
use crate::exact::Exact;
use crate::headers;
use crate::latency::LatencyResult;
use crate::load::LoadedConnection;
use crate::responsiveness::ResponsivenessResult;
use crate::stats;
use crate::text;
use crate::time::{Nanos, Timestamp};
use crate::up_down;
use crate::uri::Uri;
use crate::util;
use crate::util::pretty_ms;

verus! {

/// The rate of some transfer.
#[derive(Debug, Clone, Copy, PartialEq, Eq, Structural)]
pub struct BpsMeasurement {
    /// The total number of bytes.
    pub bytes: u64,
    /// The bits per second of the transfer.
    pub bps: u64,
}

/// The rate at which a counter of bytes advanced, in bits per second.
pub open spec fn rate_of(average: Option<CounterAverage>) -> int {
    match average {
        Some(CounterAverage::Total(total)) => if total * 8 > u64::MAX {
            u64::MAX as int
        } else {
            total * 8
        },
        Some(CounterAverage::Growth { amount, nanos }) => up_down::bits_per_second(
            amount as int,
            nanos as int,
        ),
        None => 0,
    }
}

/// The rate of one load: all bytes it moved, and its average over its whole
/// life.
pub open spec fn load_rate(readings: Seq<(Timestamp, u64)>) -> BpsMeasurement {
    BpsMeasurement {
        bytes: if readings.len() == 0 {
            0
        } else {
            readings.last().1
        },
        bps: rate_of(
            if readings.len() == 0 {
                None
            } else {
                counter::advance(readings, readings[0].0, readings.last().0)
            },
        ) as u64,
    }
}

/// The rate of a whole test: its throughput, and the bytes that this is over its
/// duration. Zero where the throughput is not known.
pub open spec fn whole_rate(throughput: Option<u64>, duration: Nanos) -> BpsMeasurement {
    let bps = match throughput {
        Some(throughput) => throughput,
        None => 0,
    };
    let bytes = (bps * duration) / 8_000_000_000;
    BpsMeasurement {
        bytes: if bytes > u64::MAX {
            u64::MAX
        } else {
            bytes as u64
        },
        bps,
    }
}

fn rate(average: Option<CounterAverage>) -> (r: u64)
    ensures
        r == rate_of(average),
{
    match average {
        Some(CounterAverage::Total(total)) => if total > 2_305_843_009_213_693_951 {
            u64::MAX
        } else {
            total * 8
        },
        Some(CounterAverage::Growth { amount, nanos }) => up_down::wide_bit_rate(amount, nanos),
        None => 0,
    }
}

impl BpsMeasurement {
    /// The rates of all loads.
    pub fn from_loaded_connections<C>(connections: &Vec<LoadedConnection<C>>) -> (r: Vec<
        BpsMeasurement,
    >)
        ensures
            r@.len() == connections@.len(),
            forall|i: int|
                0 <= i < r@.len() ==> #[trigger] r@[i] == load_rate(
                    connections@[i].state@.readings,
                ),
    {
        let mut out: Vec<BpsMeasurement> = Vec::new();
        let mut i: usize = 0;
        while i < connections.len()
            invariant
                i <= connections@.len(),
                out@.len() == i,
                forall|j: int|
                    0 <= j < i ==> #[trigger] out@[j] == load_rate(
                        connections@[j].state@.readings,
                    ),
            decreases connections@.len() - i,
        {
            let series = connections[i].total_bytes_series();
            let bytes: u64 = series.sum();
            let bps: u64 = rate(series.average());
            out.push(BpsMeasurement { bytes, bps });
            i = i + 1;
        }
        out
    }

    /// The rate of a whole test: its throughput, and the bytes that this is over
    /// its duration. Zero where the throughput is not known.
    pub fn from_rpm_result<C>(result: &ResponsivenessResult<C>) -> (r: BpsMeasurement)
        ensures
            r == whole_rate(result.reported_throughput(), result.duration),
    {
        let bps: u64 = match result.throughput() {
            Some(throughput) => throughput,
            None => 0,
        };
        let duration: Nanos = result.duration;
        assert(bps * duration <= u64::MAX * u64::MAX) by (nonlinear_arith)
            requires
                bps <= u64::MAX,
                duration <= u64::MAX,
        ;
        let bytes: u128 = (bps as u128 * duration as u128) / 8_000_000_000;
        BpsMeasurement {
            bytes: if bytes > u64::MAX as u128 {
                u64::MAX
            } else {
                bytes as u64
            },
            bps,
        }
    }
}

/// A measure of packet loss.
#[derive(Debug, Clone, Copy, PartialEq, Eq, Structural)]
pub struct PacketLoss {
    pub num_messages: usize,
    /// The share of lost packets in hundredths of a percent.
    pub loss_hundredths: u64,
}

impl Default for PacketLoss {
    /// No loss at all.
    fn default() -> (r: Self)
        ensures
            r == (PacketLoss { num_messages: 1000, loss_hundredths: 0 }),
    {
        PacketLoss { num_messages: 1000, loss_hundredths: 0 }
    }
}

/// The results that are collected.
#[derive(Debug)]
pub struct CloudflareAimResults {
    /// Whole microseconds.
    pub latency_us: Vec<u64>,
    pub download: Vec<BpsMeasurement>,
    pub upload: Vec<BpsMeasurement>,
    /// Whole microseconds.
    pub down_loaded_latency_us: Vec<u64>,
    /// Whole microseconds.
    pub up_loaded_latency_us: Vec<u64>,
    pub packet_loss: PacketLoss,
    /// The responsiveness of the download side, in round trips per minute.
    pub responsiveness: Option<Exact>,
    pub origin: String,
}

/// Nanoseconds in whole microseconds, rounded to the nearest.
pub open spec fn in_micros(nanos: Seq<u64>) -> Seq<u64> {
    nanos.map_values(|n: u64| util::nearest(n as int, 1000) as u64)
}

fn as_micros(nanos: &Vec<u64>) -> (r: Vec<u64>)
    ensures
        r@ == in_micros(nanos@),
{
    let mut out: Vec<u64> = Vec::new();
    let mut i: usize = 0;
    while i < nanos.len()
        invariant
            i <= nanos@.len(),
            out@ =~= in_micros(nanos@.take(i as int)),
        decreases nanos@.len() - i,
    {
        out.push(pretty_ms(nanos[i]));
        i = i + 1;
    }
    assert(nanos@.take(i as int) =~= nanos@);
    out
}

/// The rates of a leg: those of its loads, then that of the leg as a whole.
pub open spec fn is_leg_rates(
    rates: Seq<BpsMeasurement>,
    loads: Seq<Seq<(Timestamp, u64)>>,
    whole: BpsMeasurement,
) -> bool {
    &&& rates.len() == loads.len() + 1
    &&& forall|i: int| 0 <= i < loads.len() ==> #[trigger] rates[i] == load_rate(loads[i])
    &&& rates.last() == whole
}

/// The readings of some loads.
pub open spec fn readings_of<C>(loads: Seq<LoadedConnection<C>>) -> Seq<Seq<(Timestamp, u64)>> {
    loads.map_values(|l: LoadedConnection<C>| l.state@.readings)
}

fn leg_rates<C>(result: &ResponsivenessResult<C>) -> (r: Vec<BpsMeasurement>)
    ensures
        is_leg_rates(
            r@,
            readings_of(result.loaded_connections@),
            whole_rate(result.reported_throughput(), result.duration),
        ),
{
    let mut rates = BpsMeasurement::from_loaded_connections(&result.loaded_connections);
    rates.push(BpsMeasurement::from_rpm_result(result));
    rates
}

impl CloudflareAimResults {
    /// Collects the results of a test.
    pub fn from_rpm_results<C>(
        rtt_result: &LatencyResult,
        download_result: &ResponsivenessResult<C>,
        upload_result: &ResponsivenessResult<C>,
        config_url: Option<String>,
    ) -> (r: Self)
        ensures
            r.latency_us@ == in_micros(stats::values_of(rtt_result.measurements@)),
            is_leg_rates(
                r.download@,
                readings_of(download_result.loaded_connections@),
                whole_rate(download_result.reported_throughput(), download_result.duration),
            ),
            is_leg_rates(
                r.upload@,
                readings_of(upload_result.loaded_connections@),
                whole_rate(upload_result.reported_throughput(), upload_result.duration),
            ),
            r.download@.len() == download_result.loaded_connections@.len() + 1,
            r.upload@.len() == upload_result.loaded_connections@.len() + 1,
            forall|i: int|
                0 <= i < download_result.loaded_connections@.len() ==> #[trigger] r.download@[i]
                    == load_rate(download_result.loaded_connections@[i].state@.readings),
            forall|i: int|
                0 <= i < upload_result.loaded_connections@.len() ==> #[trigger] r.upload@[i]
                    == load_rate(upload_result.loaded_connections@[i].state@.readings),
            r.download@.last() == whole_rate(
                download_result.reported_throughput(),
                download_result.duration,
            ),
            r.upload@.last() == whole_rate(
                upload_result.reported_throughput(),
                upload_result.duration,
            ),
            r.down_loaded_latency_us@ == in_micros(
                stats::values_of(download_result.self_probe_latencies@),
            ),
            r.up_loaded_latency_us@ == in_micros(
                stats::values_of(upload_result.self_probe_latencies@),
            ),
            r.packet_loss == (PacketLoss { num_messages: 0, loss_hundredths: 0 }),
            r.responsiveness is Some == download_result.rpm is Some,
            r.responsiveness matches Some(rpm) ==> rpm@ == download_result.rpm->0@,
            r.origin@ == (match config_url {
                Some(url) => url@,
                None => "https://rpm.speed.cloudflare.com"@,
            }),
    {
        proof {
            let down = readings_of(download_result.loaded_connections@);
            let up = readings_of(upload_result.loaded_connections@);
            assert(forall|i: int|
                0 <= i < down.len() ==> #[trigger] down[i]
                    == download_result.loaded_connections@[i].state@.readings);
            assert(forall|i: int|
                0 <= i < up.len() ==> #[trigger] up[i]
                    == upload_result.loaded_connections@[i].state@.readings);
        }
        CloudflareAimResults {
            latency_us: as_micros(&rtt_result.measurements.values()),
            download: leg_rates(download_result),
            upload: leg_rates(upload_result),
            down_loaded_latency_us: as_micros(&download_result.self_probe_latencies.values()),
            up_loaded_latency_us: as_micros(&upload_result.self_probe_latencies.values()),
            packet_loss: PacketLoss { num_messages: 0, loss_hundredths: 0 },
            responsiveness: match &download_result.rpm {
                Some(rpm) => Some(rpm.clone()),
                None => None,
            },
            origin: match config_url {
                Some(url) => url,
                None => String::from_str("https://rpm.speed.cloudflare.com"),
            },
        }
    }
}

/// The rate of a load spreads the bytes that it moved from its first reading to
/// its last over the time between the two, and the bytes are those of its last
/// reading.
pub proof fn load_rate_is_over_its_life(readings: Seq<(Timestamp, u64)>)
    requires
        stats::in_time_order(readings),
        readings.len() >= 2,
        readings[readings.len() - 2].0.nanos < readings.last().0.nanos,
        readings[0].1 <= readings.last().1,
    ensures
        ({
            let (first, last) = (readings[0], readings.last());
            let time = last.0.nanos - first.0.nanos;
            let bits = (last.1 - first.1) * 8_000_000_000;
            let rate = load_rate(readings);
            &&& rate.bytes == last.1
            &&& rate.bps * time <= bits
            &&& bits < (rate.bps + 1) * time || rate.bps == u64::MAX
        }),
{
    let n = readings.len() as int;
    let (first, last) = (readings[0], readings[n - 1]);
    assert(readings[n - 2].0.nanos < last.0.nanos);
    counter::growth_is_between_the_first_readings(readings, first.0, last.0, 0, n - 1);
    up_down::rate_is_the_bits_of_a_second(last.1 - first.1, last.0.nanos - first.0.nanos);
}

/// A load that was read at a single point in time has moved what it read there,
/// and all of that counts as its rate.
pub proof fn load_rate_of_one_reading(at: Timestamp, total: u64)
    ensures
        ({
            let rate = load_rate(seq![(at, total)]);
            &&& rate.bytes == total
            &&& total * 8 <= u64::MAX ==> rate.bps == total * 8
            &&& total * 8 > u64::MAX ==> rate.bps == u64::MAX
        }),
{
    let readings = seq![(at, total)];
    counter::growth_is_between_the_first_readings(readings, at, at, 0, 0);
}

/// A load without readings has moved nothing.
pub proof fn no_readings_are_no_rate()
    ensures
        load_rate(seq![]) == (BpsMeasurement { bytes: 0, bps: 0 }),
{
}

/// The rate of a leg is the throughput to report, zero where there is none. Its
/// bytes are an eighth of the bits that it makes in the time taken, rounded down,
/// as far as they fit.
pub proof fn leg_rate_is_its_throughput(throughput: Option<u64>, duration: Nanos)
    ensures
        ({
            let rate = whole_rate(throughput, duration);
            let bits = rate.bps * duration;
            &&& throughput matches Some(bps) ==> rate.bps == bps
            &&& throughput is None ==> rate.bps == 0
            &&& rate.bytes * 8_000_000_000 <= bits
            &&& bits < (rate.bytes + 1) * 8_000_000_000 || rate.bytes == u64::MAX
        }),
{
    let rate = whole_rate(throughput, duration);
    let bits = rate.bps * duration;
    assert(bits >= 0) by (nonlinear_arith)
        requires
            bits == rate.bps * duration,
    ;
    assert((rate.bps * duration) / 8_000_000_000 >= 0);
}

/// Each latency is collected in its place, to half a microsecond.
pub proof fn latencies_are_collected_in_order(nanos: Seq<u64>)
    ensures
        in_micros(nanos).len() == nanos.len(),
        forall|i: int|
            0 <= i < nanos.len() ==> -1000 < 2 * (1000 * (#[trigger] in_micros(nanos)[i])
                - nanos[i]) <= 1000,
{
    assert forall|i: int| 0 <= i < nanos.len() implies -1000 < 2 * (1000 * (
    #[trigger] in_micros(nanos)[i]) - nanos[i]) <= 1000 by {
        util::rounding_is_close(nanos[i] as int, 1000);
        util::rounding_keeps_order(0, nanos[i] as int, 1000);
        util::rounding_keeps_order(nanos[i] as int, u64::MAX as int, 1000);
    }
}

/// The headers of the request that reports results.
pub open spec fn upload_headers(origin: Seq<char>) -> Seq<headers::Entry> {
    client::with_user_agent(
        seq![
            ("origin"@, vstd::utf8::encode_utf8(origin), false),
            ("content-type"@, vstd::utf8::encode_utf8("application/json"@), false),
        ],
    )
}

/// Makes the request that reports results, to the URI that they are collected
/// at. The origin has to be a header value.
pub fn upload_request<C>(origin: &str, uri: &Uri) -> (r: Result<Prepared<C>, ClientError>)
    requires
        headers::is_value(vstd::utf8::encode_utf8(origin@)),
    ensures
        match uri@.host {
            None => r == Err::<Prepared<C>, ClientError>(ClientError::MissingHost),
            Some(host) => r matches Ok(request) && {
                &&& request.method@ == "POST"@
                &&& request.host@ == host
                &&& request.port == client::request_port(uri@)
                &&& request.host_with_port@ == client::host_and_port(
                    host,
                    client::request_port(uri@),
                )
                &&& headers::entries(request.headers) == upload_headers(origin@)
                &&& request.connection == ConnectionChoice::<C>::New(ConnectionType::H2)
                &&& request.upload is None
            },
        },
{
    let mut map: HeaderMap<HeaderValue> = headers::new_map();
    proof {
        reveal_strlit("Origin");
        reveal_strlit("origin");
        reveal_strlit("Content-Type");
        reveal_strlit("content-type");
        reveal_strlit("application/json");
        reveal_strlit("POST");
        assert(text::lower_text("Origin"@) =~= "origin"@);
        assert(text::lower_text("Content-Type"@) =~= "content-type"@);
        client::visible_text_is_value("application/json"@);
    }
    headers::append(&mut map, &headers::parse_name("Origin"), origin.as_bytes(), false);
    let ghost first = ("origin"@, vstd::utf8::encode_utf8(origin@), false);
    proof {
        assert(headers::entries(map) =~= seq![first]);
        assert(headers::entries(map)[0].0 != "content-type"@) by {
            assert("origin"@.len() != "content-type"@.len());
        }
    }
    let content_type = headers::parse_name("Content-Type");
    headers::append(&mut map, &content_type, "application/json".as_bytes(), false);
    assert(headers::entries(map) =~= seq![
        first,
        ("content-type"@, vstd::utf8::encode_utf8("application/json"@), false),
    ]);
    let client: Client<C> = Client::default();
    client.new_connection(ConnectionType::h2()).headers(map).method("POST").send(uri)
}

/// Why a report was not taken. `None` where it was.
pub fn upload_rejection(status: u16) -> (r: Option<String>)
    ensures
        status == 200 ==> r is None,
        status != 200 ==> r is Some && r->0@ == "error uploading aim results"@,
{
    if status == 200 {
        None
    } else {
        Some(String::from_str("error uploading aim results"))
    }
}

/// Quality scores, as they are computed from collected results.
#[derive(Debug)]
pub enum AimScore {
    Streaming { points: usize, classification: String },
    Gaming { points: usize, classification: String },
    Rtc { points: usize, classification: String },
}

} // verus!
