//! Samples of a counter that only ever grows, such as bytes transferred.

use vstd::prelude::*;

use crate::stats;
use crate::time;
use crate::time::Timestamp;

verus! {

/// The first and the last sample of an interval.
#[derive(Debug, Clone, Copy, PartialEq, Eq)]
pub struct SampleRange {
    pub start: (Timestamp, u64),
    pub end: (Timestamp, u64),
}

/// How a counter advanced over an interval.
#[derive(Debug, Clone, Copy, PartialEq, Eq, Structural)]
pub enum CounterAverage {
    /// Both ends fall on one point in time: the count reached there.
    Total(u64),
    /// The count grew by `amount` in `nanos` nanoseconds.
    Growth { amount: i128, nanos: u64 },
}

/// The samples that bound the interval from `from` to `to`: the first one at or
/// after each end, or the last sample of all where none comes at or after `to`.
/// `None` where no sample comes at or after `from`.
pub open spec fn range_of(
    samples: Seq<(Timestamp, u64)>,
    from: Timestamp,
    to: Timestamp,
) -> Option<SampleRange> {
    let start = stats::count_before(samples, from);
    let end = stats::count_before(samples, to);
    if start >= samples.len() {
        None
    } else {
        Some(
            SampleRange {
                start: samples[start as int],
                end: if end < samples.len() {
                    samples[end as int]
                } else {
                    samples.last()
                },
            },
        )
    }
}

/// By how much the counter grew from `from` to `to`.
pub open spec fn growth(samples: Seq<(Timestamp, u64)>, from: Timestamp, to: Timestamp) -> int {
    match range_of(samples, from, to) {
        Some(range) => range.end.1 - range.start.1,
        None => 0,
    }
}

/// How the counter advanced from `from` to `to`.
pub open spec fn advance(
    samples: Seq<(Timestamp, u64)>,
    from: Timestamp,
    to: Timestamp,
) -> Option<CounterAverage> {
    match range_of(samples, from, to) {
        Some(range) => Some(
            if range.start.0 == range.end.0 {
                CounterAverage::Total(range.end.1)
            } else {
                CounterAverage::Growth {
                    amount: (range.end.1 - range.start.1) as i128,
                    nanos: time::span(range.start.0, range.end.0) as u64,
                }
            },
        ),
        None => None,
    }
}

/// A series of counter readings, kept in time order.
#[derive(Debug)]
pub struct CounterSeries {
    samples: Vec<(Timestamp, u64)>,
}

impl View for CounterSeries {
    type V = Seq<(Timestamp, u64)>;

    closed spec fn view(&self) -> Seq<(Timestamp, u64)> {
        self.samples@
    }
}

impl Default for CounterSeries {
    fn default() -> (r: Self)
        ensures
            r@ == Seq::<(Timestamp, u64)>::empty(),
            stats::in_time_order(r@),
    {
        CounterSeries::new()
    }
}

impl CounterSeries {
    #[verifier::type_invariant]
    spec fn ordered(self) -> bool {
        stats::in_time_order(self.samples@)
    }

    /// A series without readings.
    pub fn new() -> (r: Self)
        ensures
            r@ == Seq::<(Timestamp, u64)>::empty(),
            stats::in_time_order(r@),
    {
        CounterSeries { samples: Vec::new() }
    }

    /// Adds a reading at its place in time, before readings of the same time.
    pub fn add(&mut self, timestamp: Timestamp, sample: u64)
        ensures
            final(self)@ == old(self)@.insert(
                stats::count_before(old(self)@, timestamp) as int,
                (timestamp, sample),
            ),
            stats::in_time_order(final(self)@),
    {
        proof {
            use_type_invariant(&*self);
            stats::insertion_keeps_order(self@, timestamp, sample);
        }
        let mut samples: Vec<(Timestamp, u64)> = Vec::new();
        core::mem::swap(&mut samples, &mut self.samples);
        let at: usize = stats::position_of(&samples, timestamp);
        samples.insert(at, (timestamp, sample));
        self.samples = samples;
    }

    /// The readings that bound the interval from `from` to `to`.
    pub fn sample_interval(&self, from: Timestamp, to: Timestamp) -> (r: Option<SampleRange>)
        ensures
            r == range_of(self@, from, to),
    {
        proof {
            use_type_invariant(self);
            stats::count_before_parts(self@, from);
            stats::count_before_parts(self@, to);
        }
        let start: usize = stats::position_of(&self.samples, from);
        let mut end: usize = stats::position_of(&self.samples, to);
        if start >= self.samples.len() {
            return None;
        }
        if end >= self.samples.len() {
            end = self.samples.len() - 1;
        }
        Some(SampleRange { start: self.samples[start], end: self.samples[end] })
    }

    /// How the counter advanced over all readings, `None` without readings.
    pub fn average(&self) -> (r: Option<CounterAverage>)
        ensures
            r == (if self@.len() == 0 {
                None
            } else {
                advance(self@, self@[0].0, self@.last().0)
            }),
    {
        if self.samples.len() == 0 {
            None
        } else {
            self.interval_average(self.samples[0].0, self.samples[self.samples.len() - 1].0)
        }
    }

    /// The latest reading, zero without readings.
    pub fn sum(&self) -> (r: u64)
        ensures
            r == (if self@.len() == 0 { 0 } else { self@.last().1 }),
    {
        if self.samples.len() == 0 {
            0
        } else {
            self.samples[self.samples.len() - 1].1
        }
    }

    /// By how much the counter grew from `from` to `to`.
    pub fn interval_sum(&self, from: Timestamp, to: Timestamp) -> (r: i128)
        ensures
            r == growth(self@, from, to),
    {
        match self.sample_interval(from, to) {
            Some(range) => range.end.1 as i128 - range.start.1 as i128,
            None => 0,
        }
    }

    /// How the counter advanced from `from` to `to`, `None` where no reading
    /// comes at or after `from`.
    pub fn interval_average(&self, from: Timestamp, to: Timestamp) -> (r: Option<CounterAverage>)
        ensures
            r == advance(self@, from, to),
    {
        match self.sample_interval(from, to) {
            Some(range) => {
                if range.start.0.nanos == range.end.0.nanos {
                    Some(CounterAverage::Total(range.end.1))
                } else {
                    Some(
                        CounterAverage::Growth {
                            amount: range.end.1 as i128 - range.start.1 as i128,
                            nanos: range.end.0.duration_since(range.start.0),
                        },
                    )
                }
            },
            None => None,
        }
    }

    /// All readings in time order.
    pub fn samples(&self) -> (r: &Vec<(Timestamp, u64)>)
        ensures
            r@ == self@,
            stats::in_time_order(r@),
    {
        proof {
            use_type_invariant(self);
        }
        &self.samples
    }
}

/// The readings never decrease over time.
pub open spec fn never_decreases(samples: Seq<(Timestamp, u64)>) -> bool {
    forall|i: int, j: int| 0 <= i <= j < samples.len() ==> samples[i].1 <= samples[j].1
}

/// Growth over adjacent intervals adds up: no byte is counted twice, none is
/// lost at the boundary.
pub proof fn growth_adds_up(
    samples: Seq<(Timestamp, u64)>,
    a: Timestamp,
    b: Timestamp,
    c: Timestamp,
)
    requires
        stats::in_time_order(samples),
        a.nanos <= b.nanos <= c.nanos,
    ensures
        growth(samples, a, b) + growth(samples, b, c) == growth(samples, a, c),
{
    lemma_count_before_monotonic(samples, a, b);
    lemma_count_before_monotonic(samples, b, c);
}

/// A counter grew by the difference of two readings: the first ones at or after
/// either end of the interval, or the last reading of all where none comes at or
/// after the end. Where no reading comes at or after its start, it did not grow.
pub proof fn growth_is_between_the_first_readings(
    samples: Seq<(Timestamp, u64)>,
    from: Timestamp,
    to: Timestamp,
    i: int,
    j: int,
)
    requires
        stats::in_time_order(samples),
        0 <= i < samples.len(),
        samples[i].0.nanos >= from.nanos,
        i > 0 ==> samples[i - 1].0.nanos < from.nanos,
        0 <= j < samples.len(),
        samples[j].0.nanos >= to.nanos || j == samples.len() - 1,
        j > 0 ==> samples[j - 1].0.nanos < to.nanos,
    ensures
        growth(samples, from, to) == samples[j].1 - samples[i].1,
        samples[i].0.nanos < samples[j].0.nanos ==> advance(samples, from, to) == Some(
            CounterAverage::Growth {
                amount: (samples[j].1 - samples[i].1) as i128,
                nanos: (samples[j].0.nanos - samples[i].0.nanos) as u64,
            },
        ),
        samples[i].0.nanos == samples[j].0.nanos ==> advance(samples, from, to) == Some(
            CounterAverage::Total(samples[j].1),
        ),
{
    stats::count_before_parts(samples, from);
    stats::count_before_parts(samples, to);
    let (s, e) = (stats::count_before(samples, from) as int, stats::count_before(samples, to) as int);
    if s < i {
        assert(samples[i - 1].0.nanos >= from.nanos);
    }
    if e < j {
        assert(samples[j - 1].0.nanos >= to.nanos);
    }
    assert(s == i);
    assert(e == j || (e == samples.len() && j == samples.len() - 1));
}

/// Without a reading at or after the start of an interval there is nothing to
/// say about it.
pub proof fn no_reading_is_no_growth(
    samples: Seq<(Timestamp, u64)>,
    from: Timestamp,
    to: Timestamp,
)
    requires
        stats::in_time_order(samples),
        forall|i: int| 0 <= i < samples.len() ==> (#[trigger] samples[i]).0.nanos < from.nanos,
    ensures
        growth(samples, from, to) == 0,
        advance(samples, from, to) is None,
{
    stats::count_before_parts(samples, from);
    if stats::count_before(samples, from) < samples.len() {
        assert(samples[stats::count_before(samples, from) as int].0.nanos < from.nanos);
    }
}

/// A counter that never decreases shows no negative growth.
pub proof fn growth_is_not_negative(
    samples: Seq<(Timestamp, u64)>,
    from: Timestamp,
    to: Timestamp,
)
    requires
        stats::in_time_order(samples),
        never_decreases(samples),
        from.nanos <= to.nanos,
    ensures
        growth(samples, from, to) >= 0,
{
    lemma_count_before_monotonic(samples, from, to);
}

/// The growth over all readings is the difference of the last and the first.
pub proof fn growth_over_all(samples: Seq<(Timestamp, u64)>, from: Timestamp, to: Timestamp)
    requires
        stats::in_time_order(samples),
        samples.len() > 0,
        from.nanos <= samples[0].0.nanos,
        samples.last().0.nanos < to.nanos,
    ensures
        growth(samples, from, to) == samples.last().1 - samples[0].1,
{
    stats::count_before_parts(samples, from);
    stats::count_before_parts(samples, to);
    assert(samples[samples.len() - 1] == samples.last());
}

/// A reading later than all others, and not below them, keeps the counter from
/// decreasing.
pub proof fn later_reading_keeps_growth(
    samples: Seq<(Timestamp, u64)>,
    at: Timestamp,
    sample: u64,
)
    requires
        stats::in_time_order(samples),
        never_decreases(samples),
        samples.len() > 0 ==> samples.last().0.nanos < at.nanos && samples.last().1 <= sample,
    ensures
        samples.insert(stats::count_before(samples, at) as int, (at, sample)) == samples.push(
            (at, sample),
        ),
        never_decreases(samples.push((at, sample))),
        stats::in_time_order(samples.push((at, sample))),
{
    stats::count_before_parts(samples, at);
    if stats::count_before(samples, at) < samples.len() {
        assert(samples[samples.len() - 1] == samples.last());
        assert(false);
    }
    assert(samples.insert(samples.len() as int, (at, sample)) =~= samples.push((at, sample)));
    if samples.len() > 0 {
        assert(samples[samples.len() - 1] == samples.last());
    }
}

proof fn lemma_count_before_monotonic(
    samples: Seq<(Timestamp, u64)>,
    earlier: Timestamp,
    later: Timestamp,
)
    requires
        stats::in_time_order(samples),
        earlier.nanos <= later.nanos,
    ensures
        stats::count_before(samples, earlier) <= stats::count_before(samples, later) <= samples.len(),
{
    stats::count_before_parts(samples, earlier);
    stats::count_before_parts(samples, later);
    let e = stats::count_before(samples, earlier) as int;
    let l = stats::count_before(samples, later) as int;
    if e > l {
        assert(samples[l].0.nanos < earlier.nanos);
    }
}

} // verus!
