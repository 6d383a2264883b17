//! What quantiles, medians and trimmed values are, told by counting: how many
//! values lie below, above and among them.

use vstd::prelude::*;

use crate::latency;
use crate::stats;
use crate::stats::Fraction;

verus! {

/// How many values lie from `low` to `high`, both inclusive.
pub open spec fn count_between(values: Seq<u64>, low: u64, high: u64) -> nat
    decreases values.len(),
{
    if values.len() == 0 {
        0
    } else {
        count_between(values.drop_last(), low, high) + if low <= values.last() <= high {
            1nat
        } else {
            0nat
        }
    }
}

proof fn lemma_count_of_push(values: Seq<u64>, x: u64, low: u64, high: u64)
    ensures
        count_between(values.push(x), low, high) == count_between(values, low, high) + if low <= x
            <= high {
            1nat
        } else {
            0nat
        },
{
    assert(values.push(x).drop_last() =~= values);
}

proof fn lemma_count_of_sum(a: Seq<u64>, b: Seq<u64>, low: u64, high: u64)
    ensures
        count_between(a + b, low, high) == count_between(a, low, high) + count_between(
            b,
            low,
            high,
        ),
    decreases b.len(),
{
    if b.len() == 0 {
        assert(a + b =~= a);
    } else {
        lemma_count_of_sum(a, b.drop_last(), low, high);
        assert((a + b).drop_last() =~= a + b.drop_last());
    }
}

proof fn lemma_count_of_all(values: Seq<u64>, low: u64, high: u64)
    requires
        forall|i: int| 0 <= i < values.len() ==> low <= #[trigger] values[i] <= high,
    ensures
        count_between(values, low, high) == values.len(),
    decreases values.len(),
{
    if values.len() > 0 {
        let rest = values.drop_last();
        assert forall|i: int| 0 <= i < rest.len() implies low <= #[trigger] rest[i] <= high by {
            assert(rest[i] == values[i]);
        }
        lemma_count_of_all(rest, low, high);
        assert(low <= values[values.len() - 1] <= high);
    }
}

proof fn lemma_counted_is_there(values: Seq<u64>, x: u64)
    ensures
        (count_between(values, x, x) > 0) == values.contains(x),
    decreases values.len(),
{
    if values.len() > 0 {
        let rest = values.drop_last();
        lemma_counted_is_there(rest, x);
        if values.contains(x) {
            let i = choose|i: int| 0 <= i < values.len() && values[i] == x;
            if i < rest.len() {
                assert(rest[i] == x);
            }
        }
        if rest.contains(x) {
            let i = choose|i: int| 0 <= i < rest.len() && rest[i] == x;
            assert(values[i] == x);
        }
        if values.last() == x {
            assert(values[values.len() - 1] == x);
        }
    }
}

proof fn lemma_count_of_placed(sorted: Seq<u64>, x: u64, low: u64, high: u64)
    ensures
        count_between(stats::placed(sorted, x), low, high) == count_between(sorted.push(x), low, high),
    decreases sorted.len(),
{
    lemma_count_of_push(sorted, x, low, high);
    if sorted.len() > 0 && sorted.last() > x {
        let rest = sorted.drop_last();
        lemma_count_of_placed(rest, x, low, high);
        lemma_count_of_push(rest, x, low, high);
        lemma_count_of_push(stats::placed(rest, x), sorted.last(), low, high);
    }
}

/// Sorting changes no count.
pub proof fn sorting_keeps_counts(values: Seq<u64>, low: u64, high: u64)
    ensures
        count_between(stats::ascending(values), low, high) == count_between(values, low, high),
    decreases values.len(),
{
    if values.len() > 0 {
        let rest = values.drop_last();
        sorting_keeps_counts(rest, low, high);
        lemma_count_of_placed(stats::ascending(rest), values.last(), low, high);
        lemma_count_of_push(stats::ascending(rest), values.last(), low, high);
    }
}

/// The share of `n` things is the one whole number that the product with the
/// share reaches and does not exceed by one.
pub proof fn share_is_rounded_down(share: Fraction, n: nat, k: nat)
    requires
        share.wf(),
    ensures
        (share.share_of(n) == k) == (k * share.den <= n * share.num < (k + 1) * share.den),
{
    let (top, den, q) = (n * share.num, share.den as int, share.share_of(n) as int);
    assert(top >= 0) by (nonlinear_arith)
        requires
            top == n * share.num,
    ;
    vstd::arithmetic::div_mod::lemma_fundamental_div_mod(top, den);
    assert(q == top / den);
    assert(q * den <= top < (q + 1) * den) by (nonlinear_arith)
        requires
            top == den * q + top % den,
            0 <= top % den < den,
    ;
    if k < q {
        assert((k + 1) * den <= q * den) by (nonlinear_arith)
            requires
                k + 1 <= q,
                den > 0,
        ;
    } else if k > q {
        assert((q + 1) * den <= k * den) by (nonlinear_arith)
            requires
                q + 1 <= k,
                den > 0,
        ;
    }
}

/// A quantile is one of the values. More values than the given share of them,
/// rounded down, are at most as large; all the others, and itself, are at least
/// as large. There is one exactly where there are values and the share is less
/// than the whole.
pub proof fn quantile_has_its_rank(values: Seq<u64>, share: Fraction, k: nat)
    requires
        share.wf(),
        k * share.den <= values.len() * share.num < (k + 1) * share.den,
    ensures
        stats::quantile_of(values, share) is Some == (values.len() > 0 && share.num < share.den),
        stats::quantile_of(values, share) matches Some(x) ==> {
            &&& values.contains(x)
            &&& count_between(values, 0, x) >= k + 1
            &&& count_between(values, x, u64::MAX) >= values.len() - k
        },
{
    let n = values.len();
    share_is_rounded_down(share, n, k);
    stats::ascending_sorts(values);
    let sorted = stats::ascending(values);
    let (num, den) = (share.num as int, share.den as int);
    if n > 0 && num < den {
        assert(k < n) by (nonlinear_arith)
            requires
                k * den <= n * num,
                num < den,
                num >= 0,
                n > 0,
        ;
    }
    if n > 0 && num >= den {
        assert(k >= n) by (nonlinear_arith)
            requires
                n * num < (k + 1) * den,
                num >= den,
                den > 0,
                n > 0,
        ;
    }
    if k < n {
        let x = sorted[k as int];
        let (head, tail) = (sorted.take((k + 1) as int), sorted.skip(k as int));
        assert(sorted =~= head + sorted.skip((k + 1) as int));
        assert(sorted =~= sorted.take(k as int) + tail);
        lemma_count_of_sum(head, sorted.skip((k + 1) as int), 0, x);
        lemma_count_of_sum(sorted.take(k as int), tail, x, u64::MAX);
        lemma_count_of_all(head, 0, x);
        lemma_count_of_all(tail, x, u64::MAX);
        sorting_keeps_counts(values, 0, x);
        sorting_keeps_counts(values, x, u64::MAX);
        sorting_keeps_counts(values, x, x);
        assert(sorted.contains(x));
        lemma_counted_is_there(sorted, x);
        lemma_counted_is_there(values, x);
    }
}

/// Whether `x` is a median: one of the values, with more than half of them,
/// rounded down, at most as large, and at least half of them, rounded up, at
/// least as large.
pub open spec fn is_median(values: Seq<u64>, x: u64) -> bool {
    &&& values.contains(x)
    &&& count_between(values, 0, x) > values.len() / 2
    &&& 2 * count_between(values, x, u64::MAX) >= values.len()
}

/// The value half way through is a median, and there is one as soon as there are
/// values.
pub proof fn half_way_is_the_median(values: Seq<u64>)
    ensures
        stats::quantile_of(values, latency::half()) is Some == (values.len() > 0),
        stats::quantile_of(values, latency::half()) matches Some(x) ==> is_median(values, x),
{
    let k = values.len() / 2;
    quantile_has_its_rank(values, latency::half(), k);
}

/// There is only one median.
pub proof fn median_is_unique(values: Seq<u64>, x: u64, y: u64)
    requires
        is_median(values, x),
        is_median(values, y),
    ensures
        x == y,
{
    if x < y {
        lemma_counts_part(values, x, y);
    } else if y < x {
        lemma_counts_part(values, y, x);
    }
}

proof fn lemma_counts_part(values: Seq<u64>, x: u64, y: u64)
    requires
        x < y,
    ensures
        count_between(values, 0, x) + count_between(values, y, u64::MAX) <= values.len(),
    decreases values.len(),
{
    if values.len() > 0 {
        lemma_counts_part(values.drop_last(), x, y);
    }
}

/// Trimming keeps as many values as the given share of them, rounded down, and
/// never more than all. It keeps none that was not there, and drops none that is
/// smaller than one it keeps.
pub proof fn trimming_keeps_the_smallest(values: Seq<u64>, share: Fraction, k: nat)
    requires
        share.wf(),
        k * share.den <= values.len() * share.num < (k + 1) * share.den,
    ensures
        ({
            let kept = stats::trimmed(values, share);
            &&& kept.len() == if k < values.len() {
                k
            } else {
                values.len()
            }
            &&& forall|x: u64|
                #![trigger count_between(kept, x, x)]
                count_between(kept, x, x) <= count_between(values, x, x)
            &&& forall|x: u64, y: u64|
                #![trigger count_between(kept, y, y), kept.contains(x)]
                kept.contains(x) && count_between(kept, y, y) < count_between(values, y, y) ==> x
                    <= y
        }),
{
    share_is_rounded_down(share, values.len(), k);
    stats::ascending_sorts(values);
    let sorted = stats::ascending(values);
    let kept = stats::trimmed(values, share);
    let dropped = sorted.skip(kept.len() as int);
    assert(sorted =~= kept + dropped);
    assert forall|x: u64|
        #![trigger count_between(kept, x, x)]
        count_between(kept, x, x) <= count_between(values, x, x) by {
        sorting_keeps_counts(values, x, x);
        lemma_count_of_sum(kept, dropped, x, x);
    }
    assert forall|x: u64, y: u64|
        #![trigger count_between(kept, y, y), kept.contains(x)]
        kept.contains(x) && count_between(kept, y, y) < count_between(values, y, y) implies x
        <= y by {
        sorting_keeps_counts(values, y, y);
        lemma_count_of_sum(kept, dropped, y, y);
        lemma_counted_is_there(dropped, y);
        let i = choose|i: int| 0 <= i < kept.len() && kept[i] == x;
        let j = choose|j: int| 0 <= j < dropped.len() && dropped[j] == y;
        assert(sorted[i] == x && sorted[kept.len() + j] == y);
    }
}

} // verus!
