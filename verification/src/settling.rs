//! What holds of a responsiveness test over all its intervals: when it is done,
//! and which values it reports then.

use vstd::prelude::*;

use crate::exact;
use crate::responsiveness;
use crate::responsiveness::{Interval, Responsiveness};
use crate::rpm::Rpm;
use crate::stats;
use crate::time::Timestamp;
use crate::up_down::Goodput;

verus! {

/// Whether a test has measured nothing yet.
pub open spec fn is_fresh<C>(test: Responsiveness<C>) -> bool {
    &&& test.average_goodput_series@.len() == 0
    &&& test.rpm_series@.len() == 0
    &&& !test.goodput_saturated
    &&& !test.rpm_saturated
    &&& test.capacity is None
    &&& test.rpm is None
}

/// Whether two states of a test have measured the same. Loads, probes and the
/// number of the next interval may differ.
pub open spec fn same_measurements<C>(a: Responsiveness<C>, b: Responsiveness<C>) -> bool {
    &&& a.start == b.start
    &&& a.config == b.config
    &&& a.average_goodput_series@ == b.average_goodput_series@
    &&& a.rpm_series@ == b.rpm_series@
    &&& a.goodput_saturated == b.goodput_saturated
    &&& a.rpm_saturated == b.rpm_saturated
    &&& a.capacity == b.capacity
    &&& a.rpm == b.rpm
}

/// Whether these are the first intervals of a test: the states before and after
/// each of them ended, and what came of it. In between there may be any events.
pub open spec fn is_run<C>(
    before: Seq<Responsiveness<C>>,
    outcomes: Seq<Interval>,
    after: Seq<Responsiveness<C>>,
) -> bool {
    &&& before.len() == outcomes.len()
    &&& after.len() == outcomes.len()
    &&& outcomes.len() > 0 ==> is_fresh(before[0])
    &&& forall|i: int|
        0 <= i < outcomes.len() ==> (#[trigger] before[i]).ends(i as usize, outcomes[i], after[i])
    &&& forall|i: int|
        0 < i < outcomes.len() ==> same_measurements(#[trigger] before[i], after[i - 1])
}

/// The last `count` items, or all of them where there are fewer.
pub open spec fn last_few<V>(items: Seq<V>, count: int) -> Seq<V> {
    items.skip(
        if count < items.len() {
            items.len() - count
        } else {
            0
        },
    )
}

/// The value of the latest step that settled. `None` where no step did.
pub open spec fn latest<V>(steps: Seq<(bool, V)>) -> Option<V>
    decreases steps.len(),
{
    if steps.len() == 0 {
        None
    } else if steps.last().0 {
        Some(steps.last().1)
    } else {
        latest(steps.drop_last())
    }
}

/// The throughputs of some intervals, each with whether it settled.
pub open spec fn goodput_steps(outcomes: Seq<Interval>) -> Seq<(bool, Goodput)> {
    outcomes.map_values(|o: Interval| (o.goodput_settled, o.goodput))
}

/// The responsiveness of some intervals, each with whether it settled.
pub open spec fn rpm_steps(outcomes: Seq<Interval>) -> Seq<(bool, Rpm)> {
    outcomes.map_values(|o: Interval| (o.rpm_settled, o.rpm))
}

/// The throughputs of some intervals.
pub open spec fn goodputs_of(outcomes: Seq<Interval>) -> Seq<Goodput> {
    outcomes.map_values(|o: Interval| o.goodput)
}

/// The responsiveness of some intervals.
pub open spec fn rpms_of(outcomes: Seq<Interval>) -> Seq<Rpm> {
    outcomes.map_values(|o: Interval| o.rpm)
}

/// Whether some step settled.
pub open spec fn any_settled<V>(steps: Seq<(bool, V)>) -> bool {
    exists|i: int| 0 <= i < steps.len() && (#[trigger] steps[i]).0
}

/// The latest value is that of a step that settled and that no later one
/// followed that settled too. There is one as soon as any step settled.
pub proof fn latest_is_the_last_settled<V>(steps: Seq<(bool, V)>)
    ensures
        latest(steps) is Some == any_settled(steps),
        latest(steps) matches Some(value) ==> exists|i: int|
            0 <= i < steps.len() && #[trigger] steps[i] == (true, value) && forall|j: int|
                i < j < steps.len() ==> !(#[trigger] steps[j]).0,
    decreases steps.len(),
{
    if steps.len() > 0 {
        let n = steps.len() - 1;
        let rest = steps.drop_last();
        latest_is_the_last_settled(rest);
        assert(steps[n] == steps.last());
        assert(forall|i: int| 0 <= i < rest.len() ==> #[trigger] rest[i] == steps[i]);
        if steps.last().0 {
            assert(steps[n] == (true, steps.last().1));
        } else {
            if any_settled(steps) {
                let i = choose|i: int| 0 <= i < steps.len() && (#[trigger] steps[i]).0;
                assert(rest[i].0);
            }
            if let Some(value) = latest(rest) {
                let i = choose|i: int|
                    0 <= i < rest.len() && #[trigger] rest[i] == (true, value) && forall|j: int|
                        i < j < rest.len() ==> !(#[trigger] rest[j]).0;
                assert(steps[i].0);
                assert(steps[i] == (true, value));
                assert forall|j: int| i < j < steps.len() implies !(#[trigger] steps[j]).0 by {
                    if j < n {
                        assert(rest[j] == steps[j]);
                    }
                }
            }
        }
    }
}

proof fn lemma_later_goes_last<V>(samples: Seq<(Timestamp, V)>, t: Timestamp, value: V)
    requires
        forall|i: int| 0 <= i < samples.len() ==> (#[trigger] samples[i]).0.nanos < t.nanos,
    ensures
        samples.insert(stats::count_before(samples, t) as int, (t, value)) == samples.push(
            (t, value),
        ),
{
    lemma_all_before(samples, t);
    assert(samples.insert(samples.len() as int, (t, value)) =~= samples.push((t, value)));
}

proof fn lemma_all_before<V>(samples: Seq<(Timestamp, V)>, t: Timestamp)
    requires
        forall|i: int| 0 <= i < samples.len() ==> (#[trigger] samples[i]).0.nanos < t.nanos,
    ensures
        stats::count_before(samples, t) == samples.len(),
    decreases samples.len(),
{
    if samples.len() > 0 {
        let rest = samples.drop_first();
        assert(samples[0].0.nanos < t.nanos);
        assert forall|i: int| 0 <= i < rest.len() implies (#[trigger] rest[i]).0.nanos
            < t.nanos by {
            assert(rest[i] == samples[i + 1]);
        }
        lemma_all_before(rest, t);
    }
}

/// The throughputs of some intervals, at their ends.
spec fn timed_goodputs(outcomes: Seq<Interval>) -> Seq<(Timestamp, Goodput)> {
    outcomes.map_values(|o: Interval| (o.end, o.goodput))
}

/// The responsiveness of some intervals, at their ends.
spec fn timed_rpms(outcomes: Seq<Interval>) -> Seq<(Timestamp, Rpm)> {
    outcomes.map_values(|o: Interval| (o.end, o.rpm))
}

/// What holds of a test after its first intervals, `first` being the test before
/// them.
spec fn holds_after<C>(
    first: Responsiveness<C>,
    outcomes: Seq<Interval>,
    test: Responsiveness<C>,
) -> bool {
    &&& test.start == first.start
    &&& test.config == first.config
    &&& test.average_goodput_series@ == timed_goodputs(outcomes)
    &&& test.rpm_series@ == timed_rpms(outcomes)
    &&& test.goodput_saturated == any_settled(goodput_steps(outcomes))
    &&& test.rpm_saturated == any_settled(rpm_steps(outcomes))
    &&& test.capacity == latest(goodput_steps(outcomes))
    &&& test.rpm == latest(rpm_steps(outcomes))
    &&& forall|i: int|
        0 <= i < outcomes.len() ==> (#[trigger] outcomes[i]).end.nanos == first.start.nanos
            + first.config.interval_duration * i
}

proof fn lemma_any_settled_push<V>(steps: Seq<(bool, V)>)
    requires
        steps.len() > 0,
    ensures
        any_settled(steps) == (any_settled(steps.drop_last()) || steps.last().0),
{
    let rest = steps.drop_last();
    let n = steps.len() - 1;
    assert(steps[n] == steps.last());
    if any_settled(steps) {
        let i = choose|i: int| 0 <= i < steps.len() && (#[trigger] steps[i]).0;
        if i < n {
            assert(rest[i].0);
        }
    }
    if any_settled(rest) {
        let i = choose|i: int| 0 <= i < rest.len() && (#[trigger] rest[i]).0;
        assert(steps[i].0);
    }
}

proof fn lemma_one_interval<C>(
    first: Responsiveness<C>,
    earlier: Seq<Interval>,
    test: Responsiveness<C>,
    outcome: Interval,
    after: Responsiveness<C>,
)
    requires
        holds_after(first, earlier, test),
        test.ends(earlier.len() as usize, outcome, after),
        earlier.len() <= u32::MAX,
        first.config.interval_duration > 0,
    ensures
        holds_after(first, earlier.push(outcome), after),
{
    let all = earlier.push(outcome);
    let k = earlier.len() as int;
    let d = first.config.interval_duration as int;
    assert(all.drop_last() =~= earlier);
    assert(outcome.end.nanos == first.start.nanos + d * k);
    let (goodputs, rpms) = (timed_goodputs(earlier), timed_rpms(earlier));
    assert forall|i: int| 0 <= i < k implies (#[trigger] earlier[i]).end.nanos
        < outcome.end.nanos by {
        assert(d * i < d * k) by (nonlinear_arith)
            requires
                i < k,
                d > 0,
        ;
    }
    assert forall|i: int| 0 <= i < goodputs.len() implies (#[trigger] goodputs[i]).0.nanos
        < outcome.end.nanos by {
        assert(earlier[i].end.nanos < outcome.end.nanos);
    }
    assert forall|i: int| 0 <= i < rpms.len() implies (#[trigger] rpms[i]).0.nanos
        < outcome.end.nanos by {
        assert(earlier[i].end.nanos < outcome.end.nanos);
    }
    lemma_later_goes_last(goodputs, outcome.end, outcome.goodput);
    lemma_later_goes_last(rpms, outcome.end, outcome.rpm);
    assert(timed_goodputs(all) =~= goodputs.push((outcome.end, outcome.goodput)));
    assert(timed_rpms(all) =~= rpms.push((outcome.end, outcome.rpm)));
    assert(goodput_steps(all).drop_last() =~= goodput_steps(earlier));
    assert(rpm_steps(all).drop_last() =~= rpm_steps(earlier));
    lemma_any_settled_push(goodput_steps(all));
    lemma_any_settled_push(rpm_steps(all));
    reveal_with_fuel(responsiveness::settled, 2);
    let one = seq![(outcome.goodput_settled, outcome.rpm_settled)];
    assert(one.drop_last() =~= Seq::empty());
    assert(one.last() == (outcome.goodput_settled, outcome.rpm_settled));
}

proof fn lemma_run<C>(
    before: Seq<Responsiveness<C>>,
    outcomes: Seq<Interval>,
    after: Seq<Responsiveness<C>>,
    k: int,
)
    requires
        is_run(before, outcomes, after),
        0 <= k < outcomes.len() <= 0x1_0000_0000,
        before[0].config.interval_duration > 0,
    ensures
        holds_after(before[0], outcomes.take(k + 1), after[k]),
    decreases k,
{
    let earlier = outcomes.take(k);
    assert(before[k].ends(k as usize, outcomes[k], after[k]));
    if k == 0 {
        assert(timed_goodputs(earlier) =~= before[0].average_goodput_series@);
        assert(timed_rpms(earlier) =~= before[0].rpm_series@);
        assert(!any_settled(goodput_steps(earlier)));
        assert(!any_settled(rpm_steps(earlier)));
    } else {
        lemma_run(before, outcomes, after, k - 1);
        assert(same_measurements(before[k], after[k - 1]));
    }
    lemma_one_interval(before[0], earlier, before[k], outcomes[k], after[k]);
    assert(earlier.push(outcomes[k]) =~= outcomes.take(k + 1));
}

/// A test settles over its intervals. The throughput of an interval has settled
/// where the standard deviation of the last throughputs, as many as configured,
/// is within the tolerance of the present one, and so has the responsiveness. The
/// test is done as soon as each of them has settled in this interval or in an
/// earlier one, and its results are those that settled last.
pub proof fn test_settles_over_its_intervals<C>(
    before: Seq<Responsiveness<C>>,
    outcomes: Seq<Interval>,
    after: Seq<Responsiveness<C>>,
)
    requires
        is_run(before, outcomes, after),
        0 < outcomes.len() <= 0x1_0000_0000,
        before[0].config.interval_duration > 0,
        0 < before[0].config.moving_average_distance <= u32::MAX,
    ensures
        ({
            let config = before[0].config;
            let count = config.moving_average_distance as int;
            let present = outcomes.last();
            &&& present.goodput_settled == exact::settled_at(
                responsiveness::goodput_values(last_few(goodputs_of(outcomes), count)),
                present.goodput.value(),
                config.std_tolerance.value(),
            )
            &&& present.rpm_settled == exact::settled_at(
                responsiveness::rpm_values(last_few(rpms_of(outcomes), count)),
                present.rpm.value(),
                config.std_tolerance.value(),
            )
            &&& present.done == (any_settled(goodput_steps(outcomes)) && any_settled(
                rpm_steps(outcomes),
            ))
            &&& after.last().capacity == latest(goodput_steps(outcomes))
            &&& after.last().rpm == latest(rpm_steps(outcomes))
        }),
{
    let n = outcomes.len() as int;
    let first = before[0];
    let (step, count) = (
        first.config.interval_duration as int,
        first.config.moving_average_distance as int,
    );
    let present = outcomes.last();
    let test = before[n - 1];
    lemma_run(before, outcomes, after, n - 1);
    assert(outcomes.take(n) =~= outcomes);
    assert(test.ends((n - 1) as usize, outcomes[n - 1], after[n - 1]));
    if n > 1 {
        lemma_run(before, outcomes, after, n - 2);
        assert(same_measurements(test, after[n - 2]));
    }
    assert(test.config == first.config && test.start == first.start);
    assert(present.start.nanos == present.end.nanos - step * count);
    let goodputs = timed_goodputs(outcomes);
    let rpms = timed_rpms(outcomes);
    assert forall|i: int| 0 <= i < goodputs.len() implies (#[trigger] goodputs[i]).0.nanos
        == first.start.nanos + step * i by {
        assert(outcomes[i].end.nanos == first.start.nanos + step * i);
    }
    assert forall|i: int| 0 <= i < rpms.len() implies (#[trigger] rpms[i]).0.nanos
        == first.start.nanos + step * i by {
        assert(outcomes[i].end.nanos == first.start.nanos + step * i);
    }
    stats::recent_holds_the_last(goodputs, first.start.nanos as int, step, count, present.start);
    stats::recent_holds_the_last(rpms, first.start.nanos as int, step, count, present.start);
    let last_goodputs = last_few(goodputs_of(outcomes), count);
    let last_rpms = last_few(rpms_of(outcomes), count);
    assert(stats::recent(goodputs, present.start, present.end) =~= last_goodputs.reverse());
    assert(stats::recent(rpms, present.start, present.end) =~= last_rpms.reverse());
    let goodput_values = responsiveness::goodput_values(last_goodputs);
    let rpm_values = responsiveness::rpm_values(last_rpms);
    assert(responsiveness::goodput_values(last_goodputs.reverse()) =~= goodput_values.reverse());
    assert(responsiveness::rpm_values(last_rpms.reverse()) =~= rpm_values.reverse());
    let tolerance = first.config.std_tolerance.value();
    exact::settling_ignores_the_order(goodput_values, present.goodput.value(), tolerance);
    exact::settling_ignores_the_order(rpm_values, present.rpm.value(), tolerance);
}

} // verus!
