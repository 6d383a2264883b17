//! Timing a single download or upload.

use vstd::prelude::*;

use crate::client::FinishResult;
use crate::connection::ConnectionTiming;
use crate::exact;
use crate::exact::Exact;
use crate::time;
use crate::time::{Nanos, Timestamp};
use crate::util;
use crate::util::pretty_secs;

verus! {

/// The report about a transfer. Times are in whole milliseconds, rounded
/// to the nearest.
#[derive(Debug, Clone, Copy, PartialEq, Eq, Structural)]
pub struct TransferReport {
    pub dns_time_ms: u64,
    pub time_connect_ms: u64,
    pub time_secure_ms: u64,
    pub time_body_ms: u64,
    pub time_total_ms: u64,
    pub bytes_total: u64,
    /// Bits per second over the total time.
    pub throughput: u64,
}

/// How many bits per second `bytes` bytes in `nanos` nanoseconds are, rounded
/// down. What does not fit becomes the largest number that does, as does any
/// transfer that takes no time, unless it has no bytes either.
pub open spec fn bits_per_second(bytes: int, nanos: int) -> int {
    if nanos <= 0 {
        if bytes <= 0 {
            0
        } else {
            u64::MAX as int
        }
    } else if bytes <= 0 {
        0
    } else if (bytes * 8_000_000_000) / nanos > u64::MAX {
        u64::MAX as int
    } else {
        (bytes * 8_000_000_000) / nanos
    }
}

/// How many bits per second `bytes` bytes in `nanos` nanoseconds are, none where
/// there are less than no bytes.
pub fn wide_bit_rate(bytes: i128, nanos: Nanos) -> (r: u64)
    ensures
        r == bits_per_second(bytes as int, nanos as int),
{
    if bytes <= 0 {
        return 0;
    }
    if nanos == 0 {
        return u64::MAX;
    }
    let bits: u128 = match (bytes as u128).checked_mul(8_000_000_000) {
        Some(bits) => bits,
        None => {
            proof {
                let (top, n) = (bytes * 8_000_000_000, nanos as int);
                assert(top / n > u64::MAX) by (nonlinear_arith)
                    requires
                        top > u128::MAX,
                        0 < n <= u64::MAX,
                ;
            }
            return u64::MAX;
        },
    };
    let rate: u128 = bits / nanos as u128;
    if rate > u64::MAX as u128 {
        u64::MAX
    } else {
        rate as u64
    }
}

/// How many bits per second `bytes` bytes in `nanos` nanoseconds are.
pub fn bit_rate(bytes: u64, nanos: Nanos) -> (r: u64)
    ensures
        r == bits_per_second(bytes as int, nanos as int),
{
    wide_bit_rate(bytes as i128, nanos)
}

/// A throughput: the bytes moved in a length of time.
#[derive(Debug, Clone, Copy, PartialEq, Eq, Structural)]
pub struct Goodput {
    pub bytes: i128,
    pub nanos: Nanos,
}

impl Goodput {
    /// Bits per second.
    pub open spec fn value(self) -> real {
        (self.bytes as real) * ((8_000_000_000 as real) / (self.nanos as real))
    }

    /// Bits per second.
    pub fn exact(&self) -> (r: Exact)
        requires
            self.nanos > 0,
        ensures
            r@ == self.value(),
    {
        Exact::whole(self.bytes).times(&Exact::quotient(8_000_000_000, self.nanos as u128))
    }

    /// Bits per second, rounded down.
    pub fn whole(&self) -> (r: u64)
        ensures
            r == bits_per_second(self.bytes as int, self.nanos as int),
    {
        wide_bit_rate(self.bytes, self.nanos)
    }
}

/// A throughput is the eight bits of each byte, spread over the time: over a
/// second where it is taken for a thousand million nanoseconds.
pub proof fn throughput_times_time_is_the_bits(goodput: Goodput)
    requires
        goodput.nanos > 0,
    ensures
        goodput.value() * (goodput.nanos as real) == (goodput.bytes as real) * (
        8_000_000_000 as real),
{
    let (b, n, k) = (goodput.bytes as real, goodput.nanos as real, 8_000_000_000 as real);
    assert((b * (k / n)) * n == b * k) by (nonlinear_arith)
        requires
            n > (0 as real),
    ;
}

/// The whole bits per second are the exact ones, rounded down.
pub proof fn whole_rate_is_rounded_down(goodput: Goodput)
    requires
        goodput.nanos > 0,
    ensures
        exact::is_floor(
            bits_per_second(goodput.bytes as int, goodput.nanos as int) as u64,
            goodput.value(),
        ),
{
    let (b, n) = (goodput.bytes as int, goodput.nanos as int);
    let (x, y) = (b as real, n as real);
    let k = 8_000_000_000 as real;
    let v = goodput.value();
    assert(v * y == x * k) by (nonlinear_arith)
        requires
            v == x * (k / y),
            y > (0 as real),
    ;
    if b <= 0 {
        assert(v <= (0 as real)) by (nonlinear_arith)
            requires
                v * y == x * k,
                x <= (0 as real),
                k > (0 as real),
                y > (0 as real),
        ;
    } else {
        let q = (b * 8_000_000_000) / n;
        vstd::arithmetic::div_mod::lemma_fundamental_div_mod(b * 8_000_000_000, n);
        assert(q >= 0) by (nonlinear_arith)
            requires
                q == (b * 8_000_000_000) / n,
                b > 0,
                n > 0,
        ;
        let top = b * 8_000_000_000;
        let nq = n * q;
        assert(nq as real == y * (q as real)) by (nonlinear_arith)
            requires
                nq == n * q,
                y == n as real,
        ;
        assert(nq as real <= x * k && x * k < nq as real + y);
        let z = q as real;
        assert(z <= v && v < z + (1 as real)) by (nonlinear_arith)
            requires
                v * y == x * k,
                y * z <= x * k,
                x * k < y * z + y,
                y > (0 as real),
        ;
    }
}

/// Bits per second are rounded down: in the time taken they make no more than the
/// bits that were moved, and one more would make too many. Only a rate that does
/// not fit falls short of that.
pub proof fn rate_is_the_bits_of_a_second(bytes: int, nanos: int)
    requires
        nanos > 0,
        bytes >= 0,
    ensures
        ({
            let rate = bits_per_second(bytes, nanos);
            &&& 0 <= rate <= u64::MAX
            &&& rate * nanos <= bytes * 8_000_000_000
            &&& bytes * 8_000_000_000 < (rate + 1) * nanos || rate == u64::MAX
        }),
{
    let top = bytes * 8_000_000_000;
    let q = top / nanos;
    vstd::arithmetic::div_mod::lemma_fundamental_div_mod(top, nanos);
    assert(q >= 0 && q * nanos <= top < (q + 1) * nanos) by (nonlinear_arith)
        requires
            top == nanos * q + top % nanos,
            0 <= top % nanos < nanos,
            top >= 0,
            nanos > 0,
    ;
    if q > u64::MAX {
        assert(u64::MAX * nanos <= q * nanos) by (nonlinear_arith)
            requires
                q > u64::MAX,
                nanos > 0,
        ;
    }
    assert(0 * nanos == 0) by (nonlinear_arith);
}

/// Reports a transfer over a new connection, whose body began at `body_start`
/// and was seen to be finished at `finished`. The total time is that of setting
/// up a secure connection and that of the body.
pub fn transfer_report(
    timing: &ConnectionTiming,
    body_start: Timestamp,
    finished: Timestamp,
    result: &FinishResult,
) -> (r: TransferReport)
    requires
        timing@.secure + time::span(body_start, finished) <= u64::MAX,
    ensures
        ({
            let body = time::span(body_start, finished);
            let total = timing@.secure + body;
            &&& r.dns_time_ms == util::nearest(timing@.dns, 1_000_000)
            &&& r.time_connect_ms == util::nearest(timing@.connect, 1_000_000)
            &&& r.time_secure_ms == util::nearest(timing@.secure, 1_000_000)
            &&& r.time_body_ms == util::nearest(body, 1_000_000)
            &&& r.time_total_ms == util::nearest(total, 1_000_000)
            &&& r.bytes_total == result.total
            &&& r.throughput == bits_per_second(result.total as int, total)
        }),
{
    let body: Nanos = finished.duration_since(body_start);
    let total: Nanos = timing.time_secure() + body;
    TransferReport {
        dns_time_ms: pretty_secs(timing.dns_time()),
        time_connect_ms: pretty_secs(timing.time_connect()),
        time_secure_ms: pretty_secs(timing.time_secure()),
        time_body_ms: pretty_secs(body),
        time_total_ms: pretty_secs(total),
        bytes_total: result.total,
        throughput: bit_rate(result.total, total),
    }
}

/// The total time is never less than that of the body, nor than that of setting
/// up the connection.
pub proof fn total_covers_its_parts(secure: int, body: int)
    requires
        secure >= 0,
        body >= 0,
    ensures
        util::nearest(secure + body, 1_000_000) >= util::nearest(secure, 1_000_000),
        util::nearest(secure + body, 1_000_000) >= util::nearest(body, 1_000_000),
{
    util::rounding_keeps_order(secure, secure + body, 1_000_000);
    util::rounding_keeps_order(body, secure + body, 1_000_000);
}

/// What a load test transferred, and in what time.
#[derive(Debug, Clone, Copy, PartialEq, Eq, Structural)]
pub struct LoadTestResult {
    pub total_bytes: u64,
    pub total_time: Nanos,
}

} // verus!
