//! Samples taken over time, and exact statistics over them.
//!
//! Averages and variances are kept as exact ratios of integers, so that nothing
//! is lost before a value is rounded for display.

use vstd::prelude::*;

use crate::exact::Exact;
use crate::time::{Nanos, Timestamp};

verus! {

/// A non-negative rational number. The denominator is positive.
#[derive(Debug, Clone, Copy, PartialEq, Eq, Structural)]
pub struct Ratio {
    pub num: u128,
    pub den: u128,
}

impl Ratio {
    /// The ratio as a number.
    pub open spec fn value(self) -> real {
        (self.num as real) / (self.den as real)
    }
}

/// A share of a whole, such as the 95 of 100 of a percentile.
#[derive(Debug, Clone, Copy, PartialEq, Eq, Structural)]
pub struct Fraction {
    pub num: u64,
    pub den: u64,
}

impl Fraction {
    /// The share as a number.
    pub open spec fn value(self) -> real {
        (self.num as real) / (self.den as real)
    }

    /// The share as a number.
    pub fn exact(self) -> (r: Exact)
        requires
            self.wf(),
        ensures
            r@ == self.value(),
    {
        Exact::quotient(self.num as u128, self.den as u128)
    }

    pub open spec fn wf(self) -> bool {
        self.den > 0
    }

    /// The share of `n` things, rounded down.
    pub open spec fn share_of(self, n: nat) -> nat
        recommends
            self.wf(),
    {
        (n * self.num as nat) / (self.den as nat)
    }

    /// Computes `min(share_of(n), n)`.
    fn capped_share_of(self, n: usize) -> (r: usize)
        requires
            self.wf(),
        ensures
            r == (if self.share_of(n as nat) <= n { self.share_of(n as nat) as int } else { n as int }),
    {
        assert(n * self.num <= u64::MAX * u64::MAX) by (nonlinear_arith)
            requires
                n <= u64::MAX,
                self.num <= u64::MAX,
        ;
        let share: u128 = (n as u128 * self.num as u128) / self.den as u128;
        if share <= n as u128 {
            share as usize
        } else {
            n
        }
    }
}

/// A share is the number that gives its part when it is taken of its whole.
pub proof fn share_of_the_whole_is_the_part(share: Fraction)
    requires
        share.wf(),
    ensures
        share.value() * (share.den as real) == share.num as real,
{
    let (n, d) = (share.num as real, share.den as real);
    assert((n / d) * d == n) by (nonlinear_arith)
        requires
            d > (0 as real),
    ;
}

/// The start of the last `intervals` intervals that end at `to`.
///
/// As many whole interval lengths are subtracted as the low 32 bits of
/// `intervals` say.
pub fn instant_minus_intervals(to: Timestamp, intervals: usize, interval_length: Nanos) -> (from:
    Timestamp)
    requires
        interval_length * (intervals as u32) <= u64::MAX,
        to.nanos - interval_length * (intervals as u32) >= i64::MIN,
    ensures
        from.nanos == to.nanos - interval_length * (intervals as u32),
{
    let count: u64 = intervals as u32 as u64;
    to - interval_length * count
}

/// The sum of all values.
pub open spec fn total(values: Seq<u64>) -> int
    decreases values.len(),
{
    if values.len() == 0 {
        0
    } else {
        total(values.drop_last()) + values.last()
    }
}

/// The sum of the squares of all values.
pub open spec fn total_of_squares(values: Seq<u64>) -> int
    decreases values.len(),
{
    if values.len() == 0 {
        0
    } else {
        total_of_squares(values.drop_last()) + values.last() * values.last()
    }
}

/// An ascending sequence with `x` put in its place, behind what equals it.
pub open spec fn placed(sorted: Seq<u64>, x: u64) -> Seq<u64>
    decreases sorted.len(),
{
    if sorted.len() == 0 || sorted.last() <= x {
        sorted.push(x)
    } else {
        placed(sorted.drop_last(), x).push(sorted.last())
    }
}

/// The values in ascending order.
pub open spec fn ascending(values: Seq<u64>) -> Seq<u64>
    decreases values.len(),
{
    if values.len() == 0 {
        values
    } else {
        placed(ascending(values.drop_last()), values.last())
    }
}

/// No value is followed by a smaller one.
pub open spec fn is_ascending(values: Seq<u64>) -> bool {
    forall|i: int, j: int| 0 <= i <= j < values.len() ==> values[i] <= values[j]
}

proof fn lemma_placed(sorted: Seq<u64>, x: u64)
    requires
        is_ascending(sorted),
    ensures
        is_ascending(placed(sorted, x)),
        placed(sorted, x).to_multiset() == sorted.to_multiset().insert(x),
        placed(sorted, x).len() == sorted.len() + 1,
        forall|bound: u64|
            (x <= bound && forall|i: int| 0 <= i < sorted.len() ==> sorted[i] <= bound)
                ==> #[trigger] bounded(placed(sorted, x), bound),
    decreases sorted.len(),
{
    broadcast use vstd::seq_lib::group_to_multiset_ensures;

    if sorted.len() == 0 || sorted.last() <= x {
        assert(sorted.push(x).to_multiset() =~= sorted.to_multiset().insert(x));
    } else {
        let rest = sorted.drop_last();
        lemma_placed(rest, x);
        assert(bounded(placed(rest, x), sorted.last()));
        assert(sorted =~= rest.push(sorted.last()));
        assert(sorted.to_multiset() =~= rest.to_multiset().insert(sorted.last()));
        assert(placed(sorted, x).to_multiset() =~= placed(rest, x).to_multiset().insert(
            sorted.last(),
        ));
        assert(placed(sorted, x).to_multiset() =~= sorted.to_multiset().insert(x));
    }
}

/// Every value is at most `bound`.
pub open spec fn bounded(values: Seq<u64>, bound: u64) -> bool {
    forall|i: int| 0 <= i < values.len() ==> values[i] <= bound
}

/// Sorting orders the values and neither adds nor drops any.
pub proof fn ascending_sorts(values: Seq<u64>)
    ensures
        is_ascending(ascending(values)),
        ascending(values).to_multiset() == values.to_multiset(),
        ascending(values).len() == values.len(),
    decreases values.len(),
{
    broadcast use vstd::seq_lib::group_to_multiset_ensures;

    if values.len() > 0 {
        let rest = values.drop_last();
        ascending_sorts(rest);
        lemma_placed(ascending(rest), values.last());
        assert(values =~= rest.push(values.last()));
        assert(values.to_multiset() =~= rest.to_multiset().insert(values.last()));
    }
}

/// The sum of values lies between zero and as many of the largest.
pub proof fn total_bounds(values: Seq<u64>)
    ensures
        0 <= total(values) <= values.len() * u64::MAX,
    decreases values.len(),
{
    if values.len() > 0 {
        total_bounds(values.drop_last());
        assert(values.len() * u64::MAX == (values.len() - 1) * u64::MAX + u64::MAX)
            by (nonlinear_arith);
    }
}

proof fn lemma_total_of_squares_monotonic(values: Seq<u64>, k: int)
    requires
        0 <= k <= values.len(),
    ensures
        0 <= total_of_squares(values.take(k)) <= total_of_squares(values),
    decreases values.len(),
{
    if k < values.len() {
        lemma_total_of_squares_monotonic(values.drop_last(), k);
        assert(values.drop_last().take(k) =~= values.take(k));
        assert(values.last() * values.last() >= 0) by (nonlinear_arith);
    } else {
        assert(values.take(k) =~= values);
        if values.len() > 0 {
            lemma_total_of_squares_monotonic(values.drop_last(), values.len() - 1);
            assert(values.drop_last().take(values.len() - 1) =~= values.drop_last());
            assert(values.last() * values.last() >= 0) by (nonlinear_arith);
        }
    }
}

/// The sums of two groups of values add up, and the sum of a single value is that
/// value. The same holds of the sums of squares.
pub proof fn totals_add_up(a: Seq<u64>, b: Seq<u64>, x: u64)
    ensures
        total(a + b) == total(a) + total(b),
        total(seq![x]) == x,
        total_of_squares(a + b) == total_of_squares(a) + total_of_squares(b),
        total_of_squares(seq![x]) == x * x,
    decreases b.len(),
{
    reveal_with_fuel(total, 2);
    reveal_with_fuel(total_of_squares, 2);
    assert(seq![x].drop_last() =~= Seq::<u64>::empty());
    if b.len() == 0 {
        assert(a + b =~= a);
    } else {
        totals_add_up(a, b.drop_last(), x);
        assert((a + b).drop_last() =~= a + b.drop_last());
    }
}

/// The average of values is what each of them would be if they were all the same
/// and had the same sum. There is one exactly where there are values.
pub proof fn average_times_count_is_the_sum(values: Seq<u64>)
    requires
        values.len() <= usize::MAX,
    ensures
        average_of(values) is Some == (values.len() > 0),
        average_of(values) matches Some(a) ==> a.value() * (values.len() as real) == total(
            values,
        ) as real,
{
    if values.len() > 0 {
        total_bounds(values);
        let n = values.len();
        assert(n * u64::MAX <= u128::MAX) by (nonlinear_arith)
            requires
                n <= u64::MAX,
        ;
        let (t, m) = (total(values) as real, n as real);
        assert((t / m) * m == t) by (nonlinear_arith)
            requires
                m > (0 as real),
        ;
    }
}

/// The squares of the distances of all values from `t`, where each value counts
/// `n` times.
pub open spec fn squared_distances(values: Seq<u64>, n: int, t: int) -> int
    decreases values.len(),
{
    if values.len() == 0 {
        0
    } else {
        squared_distances(values.drop_last(), n, t) + (n * values.last() - t) * (n * values.last()
            - t)
    }
}

proof fn lemma_squared_distances(values: Seq<u64>, n: int, t: int)
    ensures
        squared_distances(values, n, t) == (n * n) * total_of_squares(values) - (2 * (n * t))
            * total(values) + values.len() * (t * t),
    decreases values.len(),
{
    if values.len() > 0 {
        let rest = values.drop_last();
        lemma_squared_distances(rest, n, t);
        let (x, q, s, m) = (
            values.last() as int,
            total_of_squares(rest),
            total(rest),
            rest.len() as int,
        );
        assert((n * x - t) * (n * x - t) == (n * n) * (x * x) - (2 * (n * t)) * x + t * t)
            by (nonlinear_arith);
        assert((n * n) * (q + x * x) == (n * n) * q + (n * n) * (x * x)) by (nonlinear_arith);
        assert((2 * (n * t)) * (s + x) == (2 * (n * t)) * s + (2 * (n * t)) * x)
            by (nonlinear_arith);
        assert((m + 1) * (t * t) == m * (t * t) + t * t) by (nonlinear_arith);
    } else {
        assert((n * n) * 0 == 0 && (2 * (n * t)) * 0 == 0 && 0 * (t * t) == 0) by (nonlinear_arith);
    }
}

/// The variance of values is the average of the squares of their distances from
/// their average. With a number of values `n` and a sum `t`, every distance is
/// taken `n` times: from `n` times the value to `t`.
pub proof fn variance_is_the_average_squared_distance(values: Seq<u64>)
    ensures
        values.len() * scaled_variance(values) == squared_distances(
            values,
            values.len() as int,
            total(values),
        ),
{
    let (n, t, q) = (values.len() as int, total(values), total_of_squares(values));
    lemma_squared_distances(values, n, t);
    assert(n * (n * q - t * t) == (n * n) * q - (2 * (n * t)) * t + n * (t * t))
        by (nonlinear_arith);
}

/// The sum of all values.
pub fn sum_of(values: &Vec<u64>) -> (r: u128)
    ensures
        r == total(values@),
{
    let mut sum: u128 = 0;
    let mut i: usize = 0;
    assert(values@.take(0) =~= Seq::<u64>::empty());
    while i < values.len()
        invariant
            i <= values.len(),
            sum == total(values@.take(i as int)),
        decreases values.len() - i,
    {
        proof {
            let next = values@.take(i + 1);
            assert(next.drop_last() =~= values@.take(i as int));
            total_bounds(next);
            assert((i + 1) * u64::MAX <= u128::MAX) by (nonlinear_arith)
                requires
                    i + 1 <= u64::MAX,
            ;
        }
        sum = sum + values[i] as u128;
        i = i + 1;
    }
    assert(values@.take(i as int) =~= values@);
    sum
}

/// What the average of the values is, `None` for no values.
pub open spec fn average_of(values: Seq<u64>) -> Option<Ratio> {
    if values.len() == 0 {
        None
    } else {
        Some(Ratio { num: total(values) as u128, den: values.len() as u128 })
    }
}

/// The exact average of the values, `None` for no values.
pub fn average(values: &Vec<u64>) -> (r: Option<Ratio>)
    ensures
        r == average_of(values@),
        r matches Some(a) ==> a.num == total(values@) && a.den == values@.len() && a.den > 0,
{
    if values.len() == 0 {
        None
    } else {
        let num: u128 = sum_of(values);
        Some(Ratio { num, den: values.len() as u128 })
    }
}

/// `n * sum(x^2) - sum(x)^2`: the variance times the square of the count.
pub open spec fn scaled_variance(values: Seq<u64>) -> int {
    values.len() * total_of_squares(values) - total(values) * total(values)
}

/// Whether the variance of the values can be computed without overflow.
pub open spec fn variance_fits(values: Seq<u64>) -> bool {
    values.len() * total_of_squares(values) <= u128::MAX && values.len() * values.len()
        <= u128::MAX
}

proof fn lemma_scaled_variance_bounds(values: Seq<u64>)
    ensures
        0 <= scaled_variance(values),
        0 <= total(values) * total(values),
    decreases values.len(),
{
    total_bounds(values);
    assert(0 <= total(values) * total(values)) by (nonlinear_arith);
    if values.len() > 0 {
        let rest = values.drop_last();
        lemma_scaled_variance_bounds(rest);
        total_bounds(rest);
        lemma_total_of_squares_monotonic(rest, rest.len() as int);
        assert(rest.take(rest.len() as int) =~= rest);
        lemma_variance_step(
            rest.len() as int,
            total_of_squares(rest),
            total(rest),
            values.last() as int,
        );
    }
}

/// One more value `x` keeps `n * q >= s * s`, since `n * x^2 + q >= 2 * s * x`.
proof fn lemma_variance_step(n: int, q: int, s: int, x: int)
    requires
        n >= 0,
        q >= 0,
        s >= 0,
        x >= 0,
        n * q >= s * s,
    ensures
        (n + 1) * (q + x * x) >= (s + x) * (s + x),
{
    assert(n * (x * x) + q >= 2 * (s * x)) by {
        if n == 0 {
            assert(n * q == 0) by (nonlinear_arith)
                requires
                    n == 0,
            ;
            assert(s == 0) by (nonlinear_arith)
                requires
                    s >= 0,
                    s * s <= 0,
            ;
            assert(s * x == 0) by (nonlinear_arith)
                requires
                    s == 0,
            ;
            assert(n * (x * x) == 0) by (nonlinear_arith)
                requires
                    n == 0,
            ;
        } else {
            assert((n * x - s) * (n * x - s) >= 0) by (nonlinear_arith);
            assert((n * x - s) * (n * x - s) == n * (n * (x * x)) - 2 * (n * (s * x)) + s * s)
                by (nonlinear_arith);
            assert(n * (n * (x * x)) - 2 * (n * (s * x)) + n * q == n * (n * (x * x) + q - 2 * (s
                * x))) by (nonlinear_arith);
            assert(n * (x * x) + q - 2 * (s * x) >= 0) by (nonlinear_arith)
                requires
                    n > 0,
                    n * (n * (x * x) + q - 2 * (s * x)) >= 0,
            ;
        }
    }
    assert((n + 1) * (q + x * x) == n * q + n * (x * x) + q + x * x) by (nonlinear_arith);
    assert((s + x) * (s + x) == s * s + 2 * (s * x) + x * x) by (nonlinear_arith);
}

/// Whether the variance of the values can be computed without overflow.
pub fn variance_in_range(values: &Vec<u64>) -> (r: bool)
    ensures
        r == variance_fits(values@),
{
    let mut squares: u128 = 0;
    let mut i: usize = 0;
    let n: u128 = values.len() as u128;
    assert(values@.take(0) =~= Seq::<u64>::empty());
    assert(n * n <= u128::MAX) by (nonlinear_arith)
        requires
            n <= u64::MAX,
    ;
    while i < values.len()
        invariant
            i <= values.len(),
            n == values.len(),
            squares == total_of_squares(values@.take(i as int)),
            n * n <= u128::MAX,
        decreases values.len() - i,
    {
        let x: u128 = values[i] as u128;
        assert(x * x <= u128::MAX) by (nonlinear_arith)
            requires
                x <= u64::MAX,
        ;
        proof {
            assert(values@.take(i + 1).drop_last() =~= values@.take(i as int));
            lemma_total_of_squares_monotonic(values@, i + 1);
        }
        match squares.checked_add(x * x) {
            Some(next) => {
                squares = next;
            },
            None => {
                assert(n * total_of_squares(values@) > u128::MAX) by (nonlinear_arith)
                    requires
                        n >= 1,
                        total_of_squares(values@) > u128::MAX,
                ;
                return false;
            },
        }
        i = i + 1;
    }
    assert(values@.take(i as int) =~= values@);
    match n.checked_mul(squares) {
        Some(_) => true,
        None => false,
    }
}

/// A standard deviation, held by its exact square.
#[derive(Debug, Clone, Copy, PartialEq, Eq, Structural)]
pub struct Deviation {
    pub squared: Ratio,
}

/// What the standard deviation of the values is, `None` for no values.
pub open spec fn deviation_of(values: Seq<u64>) -> Option<Deviation> {
    if values.len() == 0 {
        None
    } else {
        Some(
            Deviation {
                squared: Ratio {
                    num: scaled_variance(values) as u128,
                    den: (values.len() * values.len()) as u128,
                },
            },
        )
    }
}

/// The standard deviation of the values, `None` for no values.
pub fn standard_deviation(values: &Vec<u64>) -> (r: Option<Deviation>)
    requires
        variance_fits(values@),
    ensures
        r == deviation_of(values@),
        r matches Some(d) ==> d.squared.num == scaled_variance(values@) && d.squared.den
            == values@.len() * values@.len() && d.squared.den > 0,
{
    if values.len() == 0 {
        return None;
    }
    let n: u128 = values.len() as u128;
    let sum: u128 = sum_of(values);
    let mut squares: u128 = 0;
    let mut i: usize = 0;
    assert(values@.take(0) =~= Seq::<u64>::empty());
    while i < values.len()
        invariant
            i <= values.len(),
            n == values.len(),
            n >= 1,
            squares == total_of_squares(values@.take(i as int)),
            variance_fits(values@),
        decreases values.len() - i,
    {
        let x: u128 = values[i] as u128;
        proof {
            assert(values@.take(i + 1).drop_last() =~= values@.take(i as int));
            lemma_total_of_squares_monotonic(values@, i + 1);
            lemma_total_of_squares_monotonic(values@, i as int);
            assert(total_of_squares(values@) <= n * total_of_squares(values@)) by (nonlinear_arith)
                requires
                    n >= 1,
                    total_of_squares(values@) >= 0,
            ;
            assert(x * x <= u128::MAX) by (nonlinear_arith)
                requires
                    x <= u64::MAX,
            ;
        }
        squares = squares + x * x;
        i = i + 1;
    }
    proof {
        assert(values@.take(i as int) =~= values@);
        lemma_scaled_variance_bounds(values@);
        assert(n * n > 0) by (nonlinear_arith)
            requires
                n >= 1,
        ;
    }
    Some(Deviation { squared: Ratio { num: n * squares - sum * sum, den: n * n } })
}

/// Puts `x` in its place in an ascending vector.
fn place(sorted: &mut Vec<u64>, x: u64)
    ensures
        final(sorted)@ == placed(old(sorted)@, x),
{
    let mut at: usize = sorted.len();
    assert(sorted@.take(at as int) =~= sorted@);
    assert(sorted@.skip(at as int) =~= Seq::<u64>::empty());
    while at > 0 && sorted[at - 1] > x
        invariant
            at <= sorted.len(),
            placed(sorted@, x) =~= placed(sorted@.take(at as int), x) + sorted@.skip(at as int),
        decreases at,
    {
        proof {
            let head = sorted@.take(at as int);
            assert(head.drop_last() =~= sorted@.take(at - 1));
            assert(sorted@.skip(at - 1) =~= seq![sorted@[at - 1]] + sorted@.skip(at as int));
        }
        at = at - 1;
    }
    proof {
        assert(placed(sorted@.take(at as int), x) =~= sorted@.take(at as int).push(x));
        assert(sorted@.insert(at as int, x) =~= sorted@.take(at as int).push(x) + sorted@.skip(
            at as int,
        ));
    }
    sorted.insert(at, x);
}

/// The values in ascending order.
pub fn sort_ascending(values: &Vec<u64>) -> (r: Vec<u64>)
    ensures
        r@ == ascending(values@),
{
    let mut sorted: Vec<u64> = Vec::new();
    let mut i: usize = 0;
    assert(values@.take(0) =~= Seq::<u64>::empty());
    while i < values.len()
        invariant
            i <= values.len(),
            sorted@ == ascending(values@.take(i as int)),
        decreases values.len() - i,
    {
        assert(values@.take(i + 1).drop_last() =~= values@.take(i as int));
        place(&mut sorted, values[i]);
        i = i + 1;
    }
    assert(values@.take(i as int) =~= values@);
    sorted
}

/// The values below a percentile: that share of them, the smallest ones.
pub open spec fn trimmed(values: Seq<u64>, percentile: Fraction) -> Seq<u64> {
    let keep = percentile.share_of(values.len());
    if keep <= values.len() {
        ascending(values).take(keep as int)
    } else {
        ascending(values)
    }
}

/// The trimmed mean of a series: the average of all values below the given
/// percentile. `None` where that leaves no value.
pub fn trimmed_mean(values: &Vec<u64>, percentile: Fraction) -> (r: Option<Ratio>)
    requires
        percentile.wf(),
    ensures
        r == average_of(trimmed(values@, percentile)),
        r matches Some(a) ==> a.num == total(trimmed(values@, percentile)) && a.den == trimmed(
            values@,
            percentile,
        ).len() && a.den > 0,
{
    let mut sorted = sort_ascending(values);
    proof {
        ascending_sorts(values@);
    }
    let keep: usize = percentile.capped_share_of(sorted.len());
    sorted.truncate(keep);
    assert(sorted@ =~= trimmed(values@, percentile));
    average(&sorted)
}

/// The value found at the given share of the way through the ascending values.
pub open spec fn quantile_of(values: Seq<u64>, quantile: Fraction) -> Option<u64> {
    let index = quantile.share_of(values.len());
    if index < values.len() {
        Some(ascending(values)[index as int])
    } else {
        None
    }
}

/// A quantile of the values, `None` where the share reaches past the last one.
pub fn quantile(values: &Vec<u64>, share: Fraction) -> (r: Option<u64>)
    requires
        share.wf(),
    ensures
        r == quantile_of(values@, share),
{
    let sorted = sort_ascending(values);
    proof {
        ascending_sorts(values@);
    }
    let index: usize = share.capped_share_of(sorted.len());
    if index < sorted.len() {
        Some(sorted[index])
    } else {
        None
    }
}

/// The samples are in time order.
pub open spec fn in_time_order<V>(samples: Seq<(Timestamp, V)>) -> bool {
    forall|i: int, j: int|
        0 <= i <= j < samples.len() ==> samples[i].0.nanos <= samples[j].0.nanos
}

/// How many samples at the front were taken before `t`.
pub open spec fn count_before<V>(samples: Seq<(Timestamp, V)>, t: Timestamp) -> nat
    decreases samples.len(),
{
    if samples.len() == 0 || samples[0].0.nanos >= t.nanos {
        0
    } else {
        1 + count_before(samples.drop_first(), t)
    }
}

/// `count_before` parts the samples before `t` from those at or after `t`.
pub proof fn count_before_parts<V>(samples: Seq<(Timestamp, V)>, t: Timestamp)
    requires
        in_time_order(samples),
    ensures
        count_before(samples, t) <= samples.len(),
        forall|i: int|
            0 <= i < count_before(samples, t) ==> (#[trigger] samples[i]).0.nanos < t.nanos,
        forall|i: int|
            count_before(samples, t) <= i < samples.len() ==> (#[trigger] samples[i]).0.nanos
                >= t.nanos,
    decreases samples.len(),
{
    if samples.len() > 0 && samples[0].0.nanos < t.nanos {
        let rest = samples.drop_first();
        count_before_parts(rest, t);
        assert forall|i: int| 0 <= i < count_before(samples, t) implies (
        #[trigger] samples[i]).0.nanos < t.nanos by {
            if i > 0 {
                assert(rest[i - 1] == samples[i]);
            }
        }
        assert forall|i: int| count_before(samples, t) <= i < samples.len() implies (
        #[trigger] samples[i]).0.nanos >= t.nanos by {
            assert(rest[i - 1] == samples[i]);
        }
    }
}

/// Finds the position of the first sample at or after `t` by bisection.
pub(crate) fn position_of<V>(samples: &Vec<(Timestamp, V)>, t: Timestamp) -> (at: usize)
    requires
        in_time_order(samples@),
    ensures
        at == count_before(samples@, t),
        at <= samples@.len(),
{
    let mut low: usize = 0;
    let mut high: usize = samples.len();
    proof {
        count_before_parts(samples@, t);
    }
    while low < high
        invariant
            low <= count_before(samples@, t) <= high <= samples@.len(),
            in_time_order(samples@),
        decreases high - low,
    {
        let mid: usize = low + (high - low) / 2;
        proof {
            count_before_parts(samples@, t);
            assert(samples@[mid as int].0.nanos < t.nanos <==> mid < count_before(samples@, t));
        }
        if samples[mid].0.nanos < t.nanos {
            low = mid + 1;
        } else {
            high = mid;
        }
    }
    low
}

/// A sample added at its place keeps the samples in time order.
pub proof fn insertion_keeps_order<V>(samples: Seq<(Timestamp, V)>, t: Timestamp, sample: V)
    requires
        in_time_order(samples),
    ensures
        in_time_order(samples.insert(count_before(samples, t) as int, (t, sample))),
{
    count_before_parts(samples, t);
}

/// Whether `t` lies in the closed interval from `from` to `to`.
pub open spec fn within(t: Timestamp, from: Timestamp, to: Timestamp) -> bool {
    from.nanos <= t.nanos <= to.nanos
}

/// The values sampled in the closed interval from `from` to `to`, newest first.
pub open spec fn window<V>(samples: Seq<(Timestamp, V)>, from: Timestamp, to: Timestamp) -> Seq<V> {
    samples.filter(|s: (Timestamp, V)| within(s.0, from, to)).map_values(
        |s: (Timestamp, V)| s.1,
    ).reverse()
}

/// The values sampled after `from` and up to `to`, newest first. Points in time
/// are whole nanoseconds.
pub open spec fn recent<V>(samples: Seq<(Timestamp, V)>, from: Timestamp, to: Timestamp) -> Seq<V> {
    window(samples, Timestamp { nanos: (from.nanos + 1) as i64 }, to)
}

/// The samples of an interval are those of its parts, the later part first. A
/// single sample is among them exactly where it was taken neither before the
/// interval nor after it.
pub proof fn window_is_of_the_interval<V>(
    a: Seq<(Timestamp, V)>,
    b: Seq<(Timestamp, V)>,
    sample: (Timestamp, V),
    from: Timestamp,
    to: Timestamp,
)
    ensures
        window(a + b, from, to) == window(b, from, to) + window(a, from, to),
        window(seq![sample], from, to) == (if from.nanos <= sample.0.nanos <= to.nanos {
            seq![sample.1]
        } else {
            seq![]
        }),
        window(Seq::<(Timestamp, V)>::empty(), from, to).len() == 0,
{
    reveal(Seq::filter);
    let inside = |s: (Timestamp, V)| within(s.0, from, to);
    Seq::filter_distributes_over_add(a, b, inside);
    let one = seq![sample];
    assert(one.drop_last() =~= Seq::empty());
    assert(one.drop_last().filter(inside) =~= Seq::empty());
    assert(window(a + b, from, to) =~= window(b, from, to) + window(a, from, to));
    assert(window(one, from, to) =~= if from.nanos <= sample.0.nanos <= to.nanos {
        seq![sample.1]
    } else {
        seq![]
    });
}

/// The recent samples are those of all parts, the later part first. A single
/// sample is among them exactly where it was taken after `from` and not after
/// `to`.
pub proof fn recent_is_of_the_interval<V>(
    a: Seq<(Timestamp, V)>,
    b: Seq<(Timestamp, V)>,
    sample: (Timestamp, V),
    from: Timestamp,
    to: Timestamp,
)
    requires
        from.nanos < i64::MAX,
    ensures
        recent(a + b, from, to) == recent(b, from, to) + recent(a, from, to),
        recent(seq![sample], from, to) == (if from.nanos < sample.0.nanos <= to.nanos {
            seq![sample.1]
        } else {
            seq![]
        }),
{
    window_is_of_the_interval(a, b, sample, Timestamp { nanos: (from.nanos + 1) as i64 }, to);
}

proof fn lemma_filter_of_all<A>(items: Seq<A>, condition: spec_fn(A) -> bool)
    requires
        forall|i: int| 0 <= i < items.len() ==> condition(#[trigger] items[i]),
    ensures
        items.filter(condition) == items,
    decreases items.len(),
{
    reveal(Seq::filter);
    if items.len() > 0 {
        let rest = items.drop_last();
        assert forall|i: int| 0 <= i < rest.len() implies condition(#[trigger] rest[i]) by {
            assert(rest[i] == items[i]);
        }
        lemma_filter_of_all(rest, condition);
        assert(condition(items[items.len() - 1]));
        assert(items.filter(condition) =~= items);
    }
}

/// Of samples taken at regular steps, the ones after `count` steps before the
/// last one are the last `count` samples, or all of them where there are fewer.
pub proof fn recent_holds_the_last<V>(
    samples: Seq<(Timestamp, V)>,
    first: int,
    step: int,
    count: int,
    from: Timestamp,
)
    requires
        samples.len() > 0,
        step > 0,
        count > 0,
        forall|i: int|
            0 <= i < samples.len() ==> (#[trigger] samples[i]).0.nanos == first + step * i,
        from.nanos == samples.last().0.nanos - step * count,
    ensures
        recent(samples, from, samples.last().0) == values_of(
            samples.skip(
                if count < samples.len() {
                    samples.len() - count
                } else {
                    0
                },
            ),
        ).reverse(),
{
    let n = samples.len() as int;
    let to = samples.last().0;
    let at = if count < n {
        n - count
    } else {
        0
    };
    let after = Timestamp { nanos: (from.nanos + 1) as i64 };
    let inside = |s: (Timestamp, V)| within(s.0, after, to);
    let (old, new) = (samples.take(at), samples.skip(at));
    assert(step * count >= step) by (nonlinear_arith)
        requires
            step > 0,
            count > 0,
    ;
    assert(samples[n - 1].0.nanos == first + step * (n - 1));
    assert forall|i: int| 0 <= i < old.len() implies !inside(#[trigger] old[i]) by {
        assert(old[i] == samples[i]);
        assert(step * i <= step * (n - 1) - step * count) by (nonlinear_arith)
            requires
                i <= n - 1 - count,
                step > 0,
        ;
    }
    assert(old.all(|s: (Timestamp, V)| !inside(s)));
    old.lemma_all_neg_filter_empty(inside);
    assert forall|i: int| 0 <= i < new.len() implies inside(#[trigger] new[i]) by {
        let k = at + i;
        assert(new[i] == samples[k]);
        assert(step * k >= step * (n - 1) - step * count + step && step * k <= step * (n - 1))
            by (nonlinear_arith)
            requires
                n - count <= k <= n - 1,
                step > 0,
        ;
    }
    lemma_filter_of_all(new, inside);
    assert(samples =~= old + new);
    Seq::filter_distributes_over_add(old, new, inside);
    assert(samples.filter(inside) =~= new);
}

/// All sampled values, oldest first.
pub open spec fn values_of<V>(samples: Seq<(Timestamp, V)>) -> Seq<V> {
    samples.map_values(|s: (Timestamp, V)| s.1)
}

/// The values of a series are those of its samples, in their order.
pub proof fn values_are_those_sampled<V>(samples: Seq<(Timestamp, V)>)
    ensures
        values_of(samples).len() == samples.len(),
        forall|i: int|
            0 <= i < samples.len() ==> #[trigger] values_of(samples)[i] == samples[i].1,
{
}

/// A series of timed samples, kept in time order.
#[derive(Debug)]
pub struct TimeSeries<V> {
    samples: Vec<(Timestamp, V)>,
}

impl<V> View for TimeSeries<V> {
    type V = Seq<(Timestamp, V)>;

    closed spec fn view(&self) -> Seq<(Timestamp, V)> {
        self.samples@
    }
}

impl<V> TimeSeries<V> {
    #[verifier::type_invariant]
    spec fn ordered(self) -> bool {
        in_time_order(self.samples@)
    }
}

impl<V: Copy> TimeSeries<V> {
    /// A series without samples.
    pub fn new() -> (r: Self)
        ensures
            r@ == Seq::<(Timestamp, V)>::empty(),
            in_time_order(r@),
    {
        TimeSeries { samples: Vec::new() }
    }

    /// Adds a sample at its place in time, before samples of the same time.
    pub fn add(&mut self, time: Timestamp, sample: V)
        ensures
            final(self)@ == old(self)@.insert(
                count_before(old(self)@, time) as int,
                (time, sample),
            ),
            in_time_order(final(self)@),
    {
        proof {
            use_type_invariant(&*self);
            insertion_keeps_order(self@, time, sample);
        }
        let mut samples: Vec<(Timestamp, V)> = Vec::new();
        core::mem::swap(&mut samples, &mut self.samples);
        let at: usize = position_of(&samples, time);
        samples.insert(at, (time, sample));
        self.samples = samples;
    }

    /// The values sampled from `from` to `to`, both inclusive, newest first.
    pub fn sample_interval(&self, from: Timestamp, to: Timestamp) -> (r: Vec<V>)
        ensures
            r@ == window(self@, from, to),
    {
        proof {
            use_type_invariant(self);
        }
        let ghost inside = |s: (Timestamp, V)| within(s.0, from, to);
        let ghost value = |s: (Timestamp, V)| s.1;
        let ghost samples = self.samples@;
        let mut values: Vec<V> = Vec::new();
        let mut i: usize = self.samples.len();
        proof {
            reveal(Seq::filter);
            assert(samples.skip(i as int) =~= Seq::empty());
            assert(values@ =~= samples.skip(i as int).filter(inside).map_values(value).reverse());
        }
        while i > 0 && self.samples[i - 1].0.nanos >= from.nanos
            invariant
                i <= samples.len(),
                samples == self.samples@,
                inside == (|s: (Timestamp, V)| within(s.0, from, to)),
                value == (|s: (Timestamp, V)| s.1),
                values@ =~= samples.skip(i as int).filter(inside).map_values(value).reverse(),
            decreases i,
        {
            let (at, sample) = self.samples[i - 1];
            proof {
                let one = seq![samples[i - 1]];
                let rest = samples.skip(i as int);
                assert(samples.skip(i - 1) =~= one + rest);
                Seq::filter_distributes_over_add(one, rest, inside);
                reveal(Seq::filter);
                assert(one.drop_last() =~= Seq::empty());
                assert(one.drop_last().filter(inside) =~= Seq::empty());
            }
            if at.nanos <= to.nanos {
                values.push(sample);
            }
            i = i - 1;
        }
        proof {
            let front = samples.take(i as int);
            assert(samples =~= front + samples.skip(i as int));
            Seq::filter_distributes_over_add(front, samples.skip(i as int), inside);
            assert(front.all(|s: (Timestamp, V)| !inside(s)));
            front.lemma_all_neg_filter_empty(inside);
            assert(samples.filter(inside) =~= samples.skip(i as int).filter(inside));
        }
        values
    }

    /// The values sampled after `from` and up to `to`, newest first.
    pub fn sample_recent(&self, from: Timestamp, to: Timestamp) -> (r: Vec<V>)
        requires
            from.nanos < i64::MAX,
        ensures
            r@ == recent(self@, from, to),
    {
        self.sample_interval(Timestamp { nanos: from.nanos + 1 }, to)
    }

    /// All values, oldest first.
    pub fn values(&self) -> (r: Vec<V>)
        ensures
            r@ == values_of(self@),
    {
        let mut values: Vec<V> = Vec::new();
        let mut i: usize = 0;
        while i < self.samples.len()
            invariant
                i <= self.samples.len(),
                values@ =~= values_of(self.samples@.take(i as int)),
            decreases self.samples.len() - i,
        {
            values.push(self.samples[i].1);
            i = i + 1;
        }
        assert(self.samples@.take(i as int) =~= self.samples@);
        values
    }

    /// All samples in time order.
    pub fn samples(&self) -> (r: &Vec<(Timestamp, V)>)
        ensures
            r@ == self@,
            in_time_order(r@),
    {
        proof {
            use_type_invariant(self);
        }
        &self.samples
    }
}

impl TimeSeries<u64> {
    /// The exact average of all samples, `None` without samples.
    pub fn average(&self) -> (r: Option<Ratio>)
        ensures
            r == average_of(values_of(self@)),
    {
        average(&self.values())
    }

    /// The standard deviation of all samples, `None` without samples.
    pub fn deviation(&self) -> (r: Option<Deviation>)
        requires
            variance_fits(values_of(self@)),
        ensures
            r == deviation_of(values_of(self@)),
    {
        standard_deviation(&self.values())
    }

    /// The average of all samples below the given percentile.
    pub fn trimmed_mean(&self, percentile: Fraction) -> (r: Option<Ratio>)
        requires
            percentile.wf(),
        ensures
            r == average_of(trimmed(values_of(self@), percentile)),
    {
        trimmed_mean(&self.values(), percentile)
    }

    /// The sum of all samples.
    pub fn sum(&self) -> (r: u128)
        ensures
            r == total(values_of(self@)),
    {
        sum_of(&self.values())
    }

    /// The sum of the samples from `from` to `to`.
    pub fn interval_sum(&self, from: Timestamp, to: Timestamp) -> (r: u128)
        ensures
            r == total(window(self@, from, to)),
    {
        sum_of(&self.sample_interval(from, to))
    }

    /// The exact average of the samples from `from` to `to`.
    pub fn interval_average(&self, from: Timestamp, to: Timestamp) -> (r: Option<Ratio>)
        ensures
            r == average_of(window(self@, from, to)),
    {
        average(&self.sample_interval(from, to))
    }

    /// The standard deviation of the samples from `from` to `to`.
    pub fn interval_std(&self, from: Timestamp, to: Timestamp) -> (r: Option<Deviation>)
        requires
            variance_fits(window(self@, from, to)),
        ensures
            r == deviation_of(window(self@, from, to)),
    {
        standard_deviation(&self.sample_interval(from, to))
    }

    /// The average of the samples from `from` to `to` below the given
    /// percentile.
    pub fn interval_trimmed_mean(&self, from: Timestamp, to: Timestamp, percentile: Fraction) -> (r:
        Option<Ratio>)
        requires
            percentile.wf(),
        ensures
            r == average_of(trimmed(window(self@, from, to), percentile)),
    {
        trimmed_mean(&self.sample_interval(from, to), percentile)
    }

    /// A quantile of all samples.
    pub fn quantile(&self, share: Fraction) -> (r: Option<u64>)
        requires
            share.wf(),
        ensures
            r == quantile_of(values_of(self@), share),
    {
        quantile(&self.values(), share)
    }
}

} // verus!
