//! Exact fractions of any size, and what is decided by comparing them.

use vstd::prelude::*;

use crate::wide::Wide;

verus! {

/// A fraction: the difference of two natural numbers over a third one, which is
/// not zero.
#[derive(Debug)]
pub struct Exact {
    plus: Wide,
    minus: Wide,
    over: Wide,
}

impl View for Exact {
    type V = real;

    closed spec fn view(&self) -> real {
        ((self.plus@ - self.minus@) as real) / (self.over@ as real)
    }
}

/// What a fraction is, by its parts.
proof fn lemma_quotient(top: int, over: int, value: real)
    requires
        over > 0,
        value * (over as real) == top as real,
    ensures
        value == (top as real) / (over as real),
{
    let (p, q) = (top as real, over as real);
    assert(value == p / q) by (nonlinear_arith)
        requires
            q > (0 as real),
            value * q == p,
    ;
}

proof fn lemma_times_over(top: int, over: int)
    requires
        over > 0,
    ensures
        ((top as real) / (over as real)) * (over as real) == top as real,
{
    let (p, q) = (top as real, over as real);
    assert((p / q) * q == p) by (nonlinear_arith)
        requires
            q > (0 as real),
    ;
}

proof fn lemma_real_of_product(a: int, b: int)
    ensures
        (a * b) as real == (a as real) * (b as real),
{
    assert((a * b) as real == (a as real) * (b as real)) by (nonlinear_arith);
}

proof fn lemma_product_positive(a: int, b: int)
    requires
        a > 0,
        b > 0,
    ensures
        a * b > 0,
{
    assert(a * b > 0) by (nonlinear_arith)
        requires
            a > 0,
            b > 0,
    ;
}

impl Clone for Exact {
    fn clone(&self) -> (r: Self)
        ensures
            r@ == self@,
    {
        proof {
            use_type_invariant(self);
        }
        Exact { plus: self.plus.clone(), minus: self.minus.clone(), over: self.over.clone() }
    }
}

impl Exact {
    #[verifier::type_invariant]
    spec fn proper(self) -> bool {
        self.over@ > 0
    }

    /// A quotient of natural numbers.
    pub fn quotient(num: u128, den: u128) -> (r: Self)
        requires
            den > 0,
        ensures
            r@ == (num as real) / (den as real),
    {
        Exact { plus: Wide::new(num), minus: Wide::new(0), over: Wide::new(den) }
    }

    /// A whole number.
    pub fn whole(n: i128) -> (r: Self)
        ensures
            r@ == n as real,
    {
        let (plus, minus): (u128, u128) = if n >= 0 {
            (n as u128, 0)
        } else if n == i128::MIN {
            (0, 0x8000_0000_0000_0000_0000_0000_0000_0000)
        } else {
            (0, (-n) as u128)
        };
        proof {
            lemma_quotient(plus - minus, 1, n as real);
        }
        Exact { plus: Wide::new(plus), minus: Wide::new(minus), over: Wide::new(1) }
    }

    /// The sum with another fraction.
    pub fn plus(&self, other: &Exact) -> (r: Self)
        ensures
            r@ == self@ + other@,
    {
        proof {
            use_type_invariant(self);
            use_type_invariant(other);
            lemma_product_positive(self.over@, other.over@);
        }
        let plus = self.plus.times(&other.over).plus(&other.plus.times(&self.over));
        let minus = self.minus.times(&other.over).plus(&other.minus.times(&self.over));
        let over = self.over.times(&other.over);
        proof {
            let (a, b, e) = (self.plus@, self.minus@, self.over@);
            let (c, d, f) = (other.plus@, other.minus@, other.over@);
            let top = plus@ - minus@;
            assert(top == (a - b) * f + (c - d) * e) by (nonlinear_arith)
                requires
                    top == (a * f + c * e) - (b * f + d * e),
            ;
            lemma_real_of_product(a - b, f);
            lemma_real_of_product(c - d, e);
            lemma_real_of_product(e, f);
            lemma_times_over(a - b, e);
            lemma_times_over(c - d, f);
            let (x, y) = (self@, other@);
            let (p, q) = ((a - b) as real, (c - d) as real);
            let (u, v) = (e as real, f as real);
            assert((x + y) * (u * v) == p * v + q * u) by (nonlinear_arith)
                requires
                    x * u == p,
                    y * v == q,
            ;
            lemma_quotient(top, e * f, x + y);
        }
        Exact { plus, minus, over }
    }

    /// The difference to another fraction.
    pub fn less(&self, other: Exact) -> (r: Self)
        ensures
            r@ == self@ - other@,
    {
        proof {
            use_type_invariant(&other);
            let (c, d, f) = (other.plus@, other.minus@, other.over@);
            let (x, q, v) = (other@, (c - d) as real, f as real);
            lemma_times_over(c - d, f);
            assert((-x) * v == -q) by (nonlinear_arith)
                requires
                    x * v == q,
            ;
            lemma_quotient(d - c, f, -x);
        }
        self.plus(&Exact { plus: other.minus, minus: other.plus, over: other.over })
    }

    /// The product with another fraction.
    pub fn times(&self, other: &Exact) -> (r: Self)
        ensures
            r@ == self@ * other@,
    {
        proof {
            use_type_invariant(self);
            use_type_invariant(other);
            lemma_product_positive(self.over@, other.over@);
        }
        let plus = self.plus.times(&other.plus).plus(&self.minus.times(&other.minus));
        let minus = self.plus.times(&other.minus).plus(&self.minus.times(&other.plus));
        let over = self.over.times(&other.over);
        proof {
            let (a, b, e) = (self.plus@, self.minus@, self.over@);
            let (c, d, f) = (other.plus@, other.minus@, other.over@);
            let top = plus@ - minus@;
            assert(top == (a - b) * (c - d)) by (nonlinear_arith)
                requires
                    top == (a * c + b * d) - (a * d + b * c),
            ;
            lemma_real_of_product(a - b, c - d);
            lemma_real_of_product(e, f);
            lemma_times_over(a - b, e);
            lemma_times_over(c - d, f);
            let (x, y) = (self@, other@);
            let (p, q) = ((a - b) as real, (c - d) as real);
            let (u, v) = (e as real, f as real);
            assert((x * y) * (u * v) == p * q) by (nonlinear_arith)
                requires
                    x * u == p,
                    y * v == q,
            ;
            lemma_quotient(top, e * f, x * y);
        }
        Exact { plus, minus, over }
    }

    /// Whether the fraction is less than another.
    pub fn less_than(&self, other: &Exact) -> (r: bool)
        ensures
            r == (self@ < other@),
    {
        let left = self.plus.times(&other.over).plus(&other.minus.times(&self.over));
        let right = other.plus.times(&self.over).plus(&self.minus.times(&other.over));
        proof {
            use_type_invariant(self);
            use_type_invariant(other);
            let (a, b, e) = (self.plus@, self.minus@, self.over@);
            let (c, d, f) = (other.plus@, other.minus@, other.over@);
            let (l, r) = (left@, right@);
            assert(l - r == (a - b) * f - (c - d) * e) by (nonlinear_arith)
                requires
                    l == a * f + d * e,
                    r == c * e + b * f,
            ;
            lemma_real_of_product(a - b, f);
            lemma_real_of_product(c - d, e);
            lemma_times_over(a - b, e);
            lemma_times_over(c - d, f);
            let (x, y) = (self@, other@);
            let (p, q) = ((a - b) as real, (c - d) as real);
            let (u, v) = (e as real, f as real);
            assert((x < y) == (p * v < q * u)) by (nonlinear_arith)
                requires
                    x * u == p,
                    y * v == q,
                    u > (0 as real),
                    v > (0 as real),
            ;
        }
        left.less_than(&right)
    }

    /// The fraction as a whole number, rounded down, by bisection.
    fn bisect(&self) -> (r: u64)
        ensures
            is_floor(r, self@),
    {
        let mut low: u128 = 0;
        let mut high: u128 = 0x1_0000_0000_0000_0000;
        while high - low > 1
            invariant
                low < high <= 0x1_0000_0000_0000_0000,
                low > 0 ==> (low as real) <= self@,
                high < 0x1_0000_0000_0000_0000 ==> self@ < (high as real),
            decreases high - low,
        {
            let middle: u128 = low + (high - low) / 2;
            if self.less_than(&Exact::whole(middle as i128)) {
                high = middle;
            } else {
                low = middle;
            }
        }
        low as u64
    }

    /// The fraction as a whole number, rounded down.
    pub fn floor(&self) -> (r: u64)
        ensures
            is_floor(r, self@),
            r == floor_of(self@),
    {
        let floor: u64 = self.bisect();
        proof {
            floor_is(floor, self@);
        }
        floor
    }

    /// The fraction as a whole number, rounded to the nearest, halves upwards.
    pub fn round(&self) -> (r: u64)
        ensures
            r == rounded_of(self@),
    {
        self.plus(&Exact::quotient(1, 2)).floor()
    }
}

/// Whether `n` is a number rounded down to a whole one. Where none of its type
/// is, it is the nearest: zero for what is negative, or the largest.
pub open spec fn is_floor(n: u64, x: real) -> bool {
    &&& n > 0 ==> (n as real) <= x
    &&& n < u64::MAX ==> x < ((n + 1) as real)
}

/// A number rounded down to a whole one.
#[verifier::opaque]
pub open spec fn floor_of(x: real) -> u64 {
    choose|n: u64| is_floor(n, x)
}

/// What a number is rounded down to, by its bounds.
pub proof fn floor_is(n: u64, x: real)
    requires
        is_floor(n, x),
    ensures
        floor_of(x) == n,
{
    reveal(floor_of);
    floor_is_unique(n, floor_of(x), x);
}

/// A number rounded to the nearest whole one, halves upwards.
pub open spec fn rounded_of(x: real) -> u64 {
    floor_of(x + (1 as real) / (2 as real))
}

/// A number is rounded down to one whole number only.
pub proof fn floor_is_unique(n: u64, m: u64, x: real)
    requires
        is_floor(n, x),
        is_floor(m, x),
    ensures
        n == m,
{
}

/// A number that is not negative is rounded down to the whole number that it
/// reaches, and to the nearest one by what it is at most one half away from.
pub proof fn rounding_is_to_whole_numbers(n: u64, x: real)
    ensures
        (n as real) <= x && x < (n as real) + (1 as real) ==> floor_of(x) == n,
        (n as real) - (1 as real) / (2 as real) <= x && x < (n as real) + (1 as real) / (2 as real)
            ==> rounded_of(x) == n,
{
    let half = (1 as real) / (2 as real);
    assert(half + half == (1 as real));
    if (n as real) <= x && x < (n as real) + (1 as real) {
        floor_is(n, x);
    }
    if (n as real) - half <= x && x < (n as real) + half {
        floor_is(n, x + half);
    }
}

/// The numbers that fractions stand for.
pub open spec fn values_of(fractions: Seq<Exact>) -> Seq<real> {
    fractions.map_values(|f: Exact| f@)
}

/// The sum of some numbers.
pub open spec fn sum(values: Seq<real>) -> real
    decreases values.len(),
{
    if values.len() == 0 {
        0 as real
    } else {
        sum(values.drop_last()) + values.last()
    }
}

/// The sum of the squares of some numbers.
pub open spec fn sum_of_squares(values: Seq<real>) -> real
    decreases values.len(),
{
    if values.len() == 0 {
        0 as real
    } else {
        sum_of_squares(values.drop_last()) + values.last() * values.last()
    }
}

/// The average of some numbers.
pub open spec fn mean(values: Seq<real>) -> real {
    sum(values) / (values.len() as real)
}

/// The variance of some numbers, which is the square of their standard
/// deviation: the average of their squares, less the square of their average.
pub open spec fn variance(values: Seq<real>) -> real {
    sum_of_squares(values) / (values.len() as real) - mean(values) * mean(values)
}

/// Whether some numbers have settled at `current`: their standard deviation is
/// less than `tolerance` times `current`. No numbers have not settled.
pub open spec fn settled_at(values: Seq<real>, current: real, tolerance: real) -> bool {
    &&& values.len() > 0
    &&& tolerance * current > (0 as real)
    &&& variance(values) < (tolerance * current) * (tolerance * current)
}

/// The sums of two groups of numbers add up, and the sum of a single number is
/// that number. The same holds of the sums of squares.
pub proof fn sums_add_up(a: Seq<real>, b: Seq<real>, x: real)
    ensures
        sum(a + b) == sum(a) + sum(b),
        sum(seq![x]) == x,
        sum_of_squares(a + b) == sum_of_squares(a) + sum_of_squares(b),
        sum_of_squares(seq![x]) == x * x,
    decreases b.len(),
{
    reveal_with_fuel(sum, 2);
    reveal_with_fuel(sum_of_squares, 2);
    assert(seq![x].drop_last() =~= Seq::<real>::empty());
    if b.len() == 0 {
        assert(a + b =~= a);
    } else {
        sums_add_up(a, b.drop_last(), x);
        assert((a + b).drop_last() =~= a + b.drop_last());
    }
}

/// The squares of the distances of some numbers from `m`.
pub open spec fn squared_distances(values: Seq<real>, m: real) -> real
    decreases values.len(),
{
    if values.len() == 0 {
        0 as real
    } else {
        squared_distances(values.drop_last(), m) + (values.last() - m) * (values.last() - m)
    }
}

proof fn lemma_squared_distances(values: Seq<real>, m: real)
    ensures
        squared_distances(values, m) == sum_of_squares(values) - ((2 as real) * m) * sum(values) + (
        values.len() as real) * (m * m),
    decreases values.len(),
{
    if values.len() > 0 {
        let rest = values.drop_last();
        lemma_squared_distances(rest, m);
        let (x, s, n, two) = (values.last(), sum(rest), rest.len() as real, 2 as real);
        assert((x - m) * (x - m) == x * x - (two * m) * x + m * m) by (nonlinear_arith)
            requires
                two == (2 as real),
        ;
        assert((two * m) * (s + x) == (two * m) * s + (two * m) * x) by (nonlinear_arith);
        assert((n + (1 as real)) * (m * m) == n * (m * m) + m * m) by (nonlinear_arith);
        assert(values.len() as real == n + (1 as real));
    } else {
        let (two, n) = (2 as real, values.len() as real);
        assert((two * m) * (0 as real) == (0 as real) && n * (m * m) == (0 as real))
            by (nonlinear_arith)
            requires
                n == (0 as real),
        ;
    }
}

/// The average of some numbers has their sum when it is taken as often, and their
/// variance is the average of the squares of their distances from it.
pub proof fn variance_is_the_average_squared_distance(values: Seq<real>)
    requires
        values.len() > 0,
    ensures
        mean(values) * (values.len() as real) == sum(values),
        variance(values) * (values.len() as real) == squared_distances(values, mean(values)),
{
    let (n, s, q) = (values.len() as real, sum(values), sum_of_squares(values));
    let m = s / n;
    lemma_squared_distances(values, m);
    let two = 2 as real;
    assert(m * n == s) by (nonlinear_arith)
        requires
            m == s / n,
            n > (0 as real),
    ;
    let r = q / n;
    assert(r * n == q) by (nonlinear_arith)
        requires
            r == q / n,
            n > (0 as real),
    ;
    assert((r - m * m) * n == q - (two * m) * s + n * (m * m)) by (nonlinear_arith)
        requires
            r * n == q,
            m * n == s,
            two == (2 as real),
    ;
}

/// Numbers have settled exactly where there are any, the bound that the tolerance
/// sets around the present one is positive, and their squared distances from
/// their average stay below its square on average.
pub proof fn settling_bounds_the_distances(values: Seq<real>, current: real, tolerance: real)
    requires
        values.len() > 0,
    ensures
        settled_at(values, current, tolerance) == (tolerance * current > (0 as real)
            && squared_distances(values, sum(values) / (values.len() as real)) < (
        values.len() as real) * ((tolerance * current) * (tolerance * current))),
        !settled_at(Seq::<real>::empty(), current, tolerance),
{
    variance_is_the_average_squared_distance(values);
    let (n, v, u) = (
        values.len() as real,
        variance(values),
        (tolerance * current) * (tolerance * current),
    );
    assert((v < u) == (v * n < n * u)) by (nonlinear_arith)
        requires
            n > (0 as real),
    ;
}

/// The sum of some fractions.
pub fn sum_of(fractions: &Vec<Exact>) -> (r: Exact)
    ensures
        r@ == sum(values_of(fractions@)),
{
    let ghost values = values_of(fractions@);
    let mut total = Exact::whole(0);
    let mut i: usize = 0;
    assert(values.take(0) =~= Seq::empty());
    while i < fractions.len()
        invariant
            i <= fractions@.len(),
            values == values_of(fractions@),
            total@ == sum(values.take(i as int)),
        decreases fractions@.len() - i,
    {
        assert(values.take(i + 1).drop_last() =~= values.take(i as int));
        total = total.plus(&fractions[i]);
        i = i + 1;
    }
    assert(values.take(i as int) =~= values);
    total
}

/// The sum of the squares of some fractions.
fn squares_of(fractions: &Vec<Exact>) -> (r: Exact)
    ensures
        r@ == sum_of_squares(values_of(fractions@)),
{
    let ghost values = values_of(fractions@);
    let mut total = Exact::whole(0);
    let mut i: usize = 0;
    assert(values.take(0) =~= Seq::empty());
    while i < fractions.len()
        invariant
            i <= fractions@.len(),
            values == values_of(fractions@),
            total@ == sum_of_squares(values.take(i as int)),
        decreases fractions@.len() - i,
    {
        assert(values.take(i + 1).drop_last() =~= values.take(i as int));
        total = total.plus(&fractions[i].times(&fractions[i]));
        i = i + 1;
    }
    assert(values.take(i as int) =~= values);
    total
}

/// The average of some fractions, `None` of none.
pub fn mean_of(fractions: &Vec<Exact>) -> (r: Option<Exact>)
    ensures
        match r {
            Some(average) => fractions@.len() > 0 && average@ == mean(values_of(fractions@)),
            None => fractions@.len() == 0,
        },
{
    if fractions.len() == 0 {
        return None;
    }
    let share = Exact::quotient(1, fractions.len() as u128);
    let total = sum_of(fractions);
    proof {
        let (s, n) = (total@, fractions@.len() as real);
        assert(s * ((1 as real) / n) == s / n) by (nonlinear_arith)
            requires
                n > (0 as real),
        ;
    }
    Some(total.times(&share))
}

/// Whether some fractions have settled at `current`, within `tolerance`.
pub fn has_settled(fractions: &Vec<Exact>, current: &Exact, tolerance: &Exact) -> (r: bool)
    ensures
        r == settled_at(values_of(fractions@), current@, tolerance@),
{
    let average = match mean_of(fractions) {
        Some(average) => average,
        None => {
            return false;
        },
    };
    let share = Exact::quotient(1, fractions.len() as u128);
    let squares = squares_of(fractions);
    let bound = tolerance.times(current);
    proof {
        let (s, n) = (squares@, fractions@.len() as real);
        assert(s * ((1 as real) / n) == s / n) by (nonlinear_arith)
            requires
                n > (0 as real),
        ;
    }
    let spread = squares.times(&share).less(average.times(&average));
    Exact::whole(0).less_than(&bound) && spread.less_than(&bound.times(&bound))
}

proof fn lemma_constant_sums(values: Seq<real>, x: real)
    requires
        forall|i: int| 0 <= i < values.len() ==> values[i] == x,
    ensures
        sum(values) == (values.len() as real) * x,
        sum_of_squares(values) == (values.len() as real) * (x * x),
    decreases values.len(),
{
    if values.len() > 0 {
        let rest = values.drop_last();
        assert(forall|i: int| 0 <= i < rest.len() ==> rest[i] == values[i]);
        lemma_constant_sums(rest, x);
        let (n, m, y) = (values.len() as real, rest.len() as real, x * x);
        assert(n == m + (1 as real));
        assert(n * x == m * x + x) by (nonlinear_arith)
            requires
                n == m + (1 as real),
        ;
        assert(n * y == m * y + y) by (nonlinear_arith)
            requires
                n == m + (1 as real),
        ;
    } else {
        let (n, y) = (values.len() as real, x * x);
        assert(n * x == (0 as real) && n * y == (0 as real)) by (nonlinear_arith)
            requires
                n == (0 as real),
        ;
    }
}

/// A constant measurement has settled, whatever the tolerance.
pub proof fn constant_has_settled(values: Seq<real>, current: real, tolerance: real)
    requires
        values.len() > 0,
        forall|i: int| 0 <= i < values.len() ==> values[i] == current,
        current > (0 as real),
        tolerance > (0 as real),
    ensures
        settled_at(values, current, tolerance),
{
    lemma_constant_sums(values, current);
    let (n, x) = (values.len() as real, current);
    let b = tolerance * current;
    assert((n * x) / n == x) by (nonlinear_arith)
        requires
            n > (0 as real),
    ;
    assert((n * (x * x)) / n == x * x) by (nonlinear_arith)
        requires
            n > (0 as real),
    ;
    assert(b > (0 as real)) by (nonlinear_arith)
        requires
            b == tolerance * current,
            tolerance > (0 as real),
            current > (0 as real),
    ;
    assert(b * b > (0 as real)) by (nonlinear_arith)
        requires
            b > (0 as real),
    ;
}

/// Nothing settles at zero, nor below: no deviation is less than none.
pub proof fn nothing_settles_at_zero(values: Seq<real>, current: real, tolerance: real)
    requires
        current <= (0 as real),
        tolerance >= (0 as real),
    ensures
        !settled_at(values, current, tolerance),
{
    assert(tolerance * current <= (0 as real)) by (nonlinear_arith)
        requires
            current <= (0 as real),
            tolerance >= (0 as real),
    ;
}

proof fn lemma_sums_from_the_front(x: real, values: Seq<real>)
    ensures
        sum(seq![x] + values) == x + sum(values),
        sum_of_squares(seq![x] + values) == x * x + sum_of_squares(values),
    decreases values.len(),
{
    let all = seq![x] + values;
    if values.len() == 0 {
        assert(all.drop_last() =~= Seq::empty());
        assert(all.last() == x);
        reveal_with_fuel(sum, 2);
        reveal_with_fuel(sum_of_squares, 2);
    } else {
        lemma_sums_from_the_front(x, values.drop_last());
        assert(all.drop_last() =~= seq![x] + values.drop_last());
        assert(all.last() == values.last());
    }
}

proof fn lemma_reversed_sums(values: Seq<real>)
    ensures
        sum(values.reverse()) == sum(values),
        sum_of_squares(values.reverse()) == sum_of_squares(values),
    decreases values.len(),
{
    if values.len() == 0 {
        assert(values.reverse() =~= values);
    } else {
        lemma_reversed_sums(values.drop_last());
        lemma_sums_from_the_front(values.last(), values.drop_last().reverse());
        assert(values.reverse() =~= seq![values.last()] + values.drop_last().reverse());
    }
}

/// Whether a measurement has settled does not depend on whether its values are
/// read forwards or backwards.
pub proof fn settling_ignores_the_order(values: Seq<real>, current: real, tolerance: real)
    ensures
        settled_at(values.reverse(), current, tolerance) == settled_at(values, current, tolerance),
{
    lemma_reversed_sums(values);
}

proof fn lemma_scaled_sums(values: Seq<real>, k: real)
    ensures
        sum(values.map_values(|v: real| k * v)) == k * sum(values),
        sum_of_squares(values.map_values(|v: real| k * v)) == (k * k) * sum_of_squares(values),
    decreases values.len(),
{
    let scaled = values.map_values(|v: real| k * v);
    if values.len() == 0 {
        assert(k * (0 as real) == (0 as real)) by (nonlinear_arith);
        assert((k * k) * (0 as real) == (0 as real)) by (nonlinear_arith);
    } else {
        let rest = values.drop_last();
        lemma_scaled_sums(rest, k);
        assert(scaled.drop_last() =~= rest.map_values(|v: real| k * v));
        let (s, q, x) = (sum(rest), sum_of_squares(rest), values.last());
        assert(k * s + k * x == k * (s + x)) by (nonlinear_arith);
        assert((k * k) * q + (k * x) * (k * x) == (k * k) * (q + x * x)) by (nonlinear_arith);
    }
}

/// Whether a measurement has settled does not depend on the unit it is taken in.
pub proof fn settling_ignores_the_unit(values: Seq<real>, current: real, tolerance: real, k: real)
    requires
        k > (0 as real),
    ensures
        settled_at(values.map_values(|v: real| k * v), k * current, tolerance) == settled_at(
            values,
            current,
            tolerance,
        ),
{
    lemma_scaled_sums(values, k);
    if values.len() > 0 {
        let n = values.len() as real;
        let (s, q) = (sum(values), sum_of_squares(values));
        let v = q / n - (s / n) * (s / n);
        let b = tolerance * current;
        let m = s / n;
        assert((k * s) / n == k * m) by (nonlinear_arith)
            requires
                m == s / n,
                n > (0 as real),
        ;
        let r = q / n;
        assert(((k * k) * q) / n == (k * k) * r) by (nonlinear_arith)
            requires
                r == q / n,
                n > (0 as real),
        ;
        assert((k * k) * r - (k * m) * (k * m) == (k * k) * (r - m * m)) by (nonlinear_arith);
        assert(tolerance * (k * current) == k * b) by (nonlinear_arith)
            requires
                b == tolerance * current,
        ;
        assert((k * b > (0 as real)) == (b > (0 as real))) by (nonlinear_arith)
            requires
                k > (0 as real),
        ;
        assert((k * b) * (k * b) == (k * k) * (b * b)) by (nonlinear_arith);
        let (l, u) = (r - m * m, b * b);
        assert(((k * k) * l < (k * k) * u) == (l < u)) by (nonlinear_arith)
            requires
                k > (0 as real),
        ;
    }
}

} // verus!
