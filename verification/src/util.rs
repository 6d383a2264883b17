//! Durations as they are shown to readers: to three decimals.

use vstd::prelude::*;

use crate::text;
use crate::time::Nanos;

verus! {

/// A number in whole units, rounded to the nearest: up from the half on.
pub open spec fn nearest(n: int, unit: int) -> int {
    (2 * n + unit) / (2 * unit)
}

/// Rounding by quotient and remainder.
proof fn lemma_nearest(n: int, unit: int)
    requires
        n >= 0,
        unit > 0,
    ensures
        nearest(n, unit) == n / unit + (if 2 * (n % unit) >= unit {
            1int
        } else {
            0int
        }),
        0 <= n / unit <= n,
{
    let (q, r) = (n / unit, n % unit);
    vstd::arithmetic::div_mod::lemma_fundamental_div_mod(n, unit);
    assert(0 <= q <= n) by (nonlinear_arith)
        requires
            q == n / unit,
            n >= 0,
            unit > 0,
    ;
    if 2 * r >= unit {
        assert(2 * n + unit == (q + 1) * (2 * unit) + (2 * r - unit)) by (nonlinear_arith)
            requires
                n == unit * q + r,
        ;
        vstd::arithmetic::div_mod::lemma_fundamental_div_mod_converse(
            2 * n + unit,
            2 * unit,
            q + 1,
            2 * r - unit,
        );
    } else {
        assert(2 * n + unit == q * (2 * unit) + (2 * r + unit)) by (nonlinear_arith)
            requires
                n == unit * q + r,
        ;
        vstd::arithmetic::div_mod::lemma_fundamental_div_mod_converse(
            2 * n + unit,
            2 * unit,
            q,
            2 * r + unit,
        );
    }
}

/// A number is less than half a unit away from what it is rounded to, or half a
/// unit below it.
pub proof fn rounding_is_close(n: int, unit: int)
    requires
        unit > 0,
    ensures
        -unit < 2 * (nearest(n, unit) * unit - n) <= unit,
{
    let (top, q) = (2 * n + unit, nearest(n, unit));
    vstd::arithmetic::div_mod::lemma_fundamental_div_mod(top, 2 * unit);
    assert((2 * unit) * q == 2 * (q * unit)) by (nonlinear_arith);
}

/// A longer time is never shown as less.
pub proof fn rounding_keeps_order(n: int, m: int, unit: int)
    requires
        n <= m,
        unit > 0,
    ensures
        nearest(n, unit) <= nearest(m, unit),
{
    vstd::arithmetic::div_mod::lemma_div_is_ordered(2 * n + unit, 2 * m + unit, 2 * unit);
}

/// A number in whole units, rounded to the nearest.
pub fn rounded(n: u128, unit: u128) -> (r: u128)
    requires
        1 < unit <= u128::MAX / 2,
    ensures
        r == nearest(n as int, unit as int),
        r <= n,
{
    proof {
        let (q, r) = (n as int / (unit as int), n as int % (unit as int));
        lemma_nearest(n as int, unit as int);
        vstd::arithmetic::div_mod::lemma_fundamental_div_mod(n as int, unit as int);
        assert(2 * q + r <= n) by (nonlinear_arith)
            requires
                n == unit * q + r,
                q >= 0,
                unit >= 2,
        ;
    }
    let whole: u128 = n / unit;
    if 2 * (n % unit) >= unit {
        whole + 1
    } else {
        whole
    }
}

/// A duration in milliseconds, rounded to three decimals: in whole
/// microseconds.
pub fn pretty_ms(duration: Nanos) -> (micros: u64)
    ensures
        micros == nearest(duration as int, 1000),
{
    rounded(duration as u128, 1000) as u64
}

/// A duration in seconds, rounded to three decimals: in whole milliseconds.
pub fn pretty_secs(duration: Nanos) -> (millis: u64)
    ensures
        millis == nearest(duration as int, 1_000_000),
{
    rounded(duration as u128, 1_000_000) as u64
}

/// The digits of a number of thousandths: whole ones, a point, three digits.
pub open spec fn thousandths(n: nat) -> Seq<char> {
    text::decimal(n / 1000) + "."@ + text::decimal((n % 1000) / 100) + text::decimal(
        (n % 100) / 10,
    ) + text::decimal(n % 10)
}

/// A number of thousandths with its three decimals.
pub fn thousandths_text(n: u64) -> (r: String)
    ensures
        r@ == thousandths(n as nat),
{
    let mut out = text::decimal_text(n / 1000);
    out.append(".");
    text::push_decimal(&mut out, (n % 1000) / 100);
    text::push_decimal(&mut out, (n % 100) / 10);
    text::push_decimal(&mut out, n % 10);
    out
}

/// The digits of a number of hundredths: whole ones, a point, two digits.
pub open spec fn hundredths(n: nat) -> Seq<char> {
    text::decimal(n / 100) + "."@ + text::decimal((n % 100) / 10) + text::decimal(n % 10)
}

/// A number of hundredths with its two decimals.
pub fn hundredths_text(n: u64) -> (r: String)
    ensures
        r@ == hundredths(n as nat),
{
    let mut out = text::decimal_text(n / 100);
    out.append(".");
    text::push_decimal(&mut out, (n % 100) / 10);
    text::push_decimal(&mut out, n % 10);
    out
}

} // verus!
