//! Text: decimal numbers, messages and ASCII letter case.

use humansize::{format_size, BaseUnit, FormatSizeOptions, DECIMAL};
use vstd::prelude::*;

verus! {

/// `String::push`: appends one character.
pub assume_specification[ String::push ](s: &mut String, c: char)
    ensures
        final(s)@ == old(s)@.push(c),
;

/// The character of a decimal digit.
pub open spec fn digit(d: nat) -> char {
    (48 + d) as char
}

/// A number in decimal digits, without leading zeros.
pub open spec fn decimal(n: nat) -> Seq<char>
    decreases n,
{
    if n < 10 {
        seq![digit(n)]
    } else {
        decimal(n / 10).push(digit(n % 10))
    }
}

/// Appends a number in decimal digits.
pub fn push_decimal(out: &mut String, n: u64)
    ensures
        final(out)@ == old(out)@ + decimal(n as nat),
    decreases n,
{
    if n >= 10 {
        push_decimal(out, n / 10);
    }
    out.push((48u8 + (n % 10) as u8) as char);
    assert(out@ =~= old(out)@ + decimal(n as nat));
}

/// The number in decimal digits.
pub fn decimal_text(n: u64) -> (r: String)
    ensures
        r@ == decimal(n as nat),
{
    let mut out = String::new();
    push_decimal(&mut out, n);
    assert(out@ =~= decimal(n as nat));
    out
}

/// An amount of bits as `humansize::format_size` writes it for readers, in
/// powers of a thousand and with abbreviated units.
pub uninterp spec fn bits_text(amount: u64, decimal_places: usize) -> Seq<char>;

/// The most decimal places that an amount is written with.
pub const MAX_DECIMAL_PLACES: usize = 16;

/// `humansize::format_size` on an amount of bits: the text is a function of the
/// amount and of the number of decimal places.
#[verifier::external_body]
pub(crate) fn format_bits(amount: u64, decimal_places: usize) -> (r: String)
    requires
        decimal_places <= MAX_DECIMAL_PLACES,
    ensures
        r@ == bits_text(amount, decimal_places),
{
    let options = FormatSizeOptions::from(DECIMAL)
        .base_unit(BaseUnit::Bit)
        .long_units(false)
        .decimal_places(decimal_places);
    format_size(amount, options)
}

/// The characters of a text.
pub fn chars_of(text: &str) -> (r: Vec<char>)
    ensures
        r@ == text@,
{
    let mut out: Vec<char> = Vec::new();
    for c in it: text.chars()
        invariant
            it.seq() == text@,
            out@ == text@.take(it.index()),
    {
        out.push(c);
        assert(text@.take(it.index() + 1) =~= text@.take(it.index()).push(c));
    }
    assert(text@.take(text@.len() as int) =~= text@);
    out
}

/// The text made of the given characters.
pub fn text_of(chars: &Vec<char>) -> (r: String)
    ensures
        r@ == chars@,
{
    let mut out = String::new();
    let mut i: usize = 0;
    while i < chars.len()
        invariant
            i <= chars.len(),
            out@ == chars@.take(i as int),
        decreases chars.len() - i,
    {
        out.push(chars[i]);
        assert(chars@.take(i + 1) =~= chars@.take(i as int).push(chars@[i as int]));
        i = i + 1;
    }
    assert(chars@.take(i as int) =~= chars@);
    out
}

/// Whether two texts hold the same characters.
pub fn same_text(a: &str, b: &str) -> (r: bool)
    ensures
        r == (a@ == b@),
{
    a.to_owned() == b.to_owned()
}

/// An ASCII upper case letter in lower case, any other character as it is.
pub open spec fn lower(c: char) -> char {
    if 'A' <= c && c <= 'Z' {
        (c as int + 32) as char
    } else {
        c
    }
}

/// A text with all ASCII letters in lower case.
pub open spec fn lower_text(text: Seq<char>) -> Seq<char> {
    text.map_values(|c: char| lower(c))
}

/// An ASCII upper case letter in lower case, any other character as it is.
pub fn lower_char(c: char) -> (r: char)
    ensures
        r == lower(c),
{
    if 'A' <= c && c <= 'Z' {
        (c as u8 + 32u8) as char
    } else {
        c
    }
}

/// A text with all ASCII letters in lower case.
pub fn to_lower(text: &str) -> (r: String)
    ensures
        r@ == lower_text(text@),
{
    let chars = chars_of(text);
    let mut out = String::new();
    let mut i: usize = 0;
    while i < chars.len()
        invariant
            i <= chars.len(),
            chars@ == text@,
            out@ =~= lower_text(text@.take(i as int)),
        decreases chars.len() - i,
    {
        out.push(lower_char(chars[i]));
        i = i + 1;
    }
    assert(text@.take(i as int) =~= text@);
    out
}

/// A decimal digit.
pub open spec fn is_digit(c: char) -> bool {
    '0' <= c <= '9'
}

/// The number that decimal digits stand for.
pub open spec fn digits_value(digits: Seq<char>) -> nat
    decreases digits.len(),
{
    if digits.len() == 0 {
        0
    } else {
        digits_value(digits.drop_last()) * 10 + (digits.last() as int - 48) as nat
    }
}

/// The digits of a text that may start with a plus sign.
pub open spec fn unsigned_digits(text: Seq<char>) -> Seq<char> {
    if text.len() > 0 && text[0] == '+' {
        text.drop_first()
    } else {
        text
    }
}

/// The whole number that a text stands for: at least one digit, nothing but
/// digits, perhaps a plus sign before them.
pub open spec fn whole_number(text: Seq<char>) -> Option<nat> {
    let digits = unsigned_digits(text);
    if digits.len() > 0 && forall|i: int| 0 <= i < digits.len() ==> is_digit(digits[i]) {
        Some(digits_value(digits))
    } else {
        None
    }
}

proof fn lemma_digits_value_grows(digits: Seq<char>, k: int)
    requires
        0 <= k <= digits.len(),
    ensures
        digits_value(digits.take(k)) <= digits_value(digits),
    decreases digits.len(),
{
    if k < digits.len() {
        lemma_digits_value_grows(digits.drop_last(), k);
        assert(digits.drop_last().take(k) =~= digits.take(k));
    } else {
        assert(digits.take(k) =~= digits);
    }
}

/// The whole number that a text stands for, `None` where it stands for none or
/// for one that does not fit.
pub fn parse_whole_number(text: &str) -> (r: Option<u64>)
    ensures
        match r {
            Some(number) => whole_number(text@) == Some(number as nat),
            None => whole_number(text@) is None || whole_number(text@)->0 > u64::MAX,
        },
{
    let chars = chars_of(text);
    let start: usize = if chars.len() > 0 && chars[0] == '+' {
        1
    } else {
        0
    };
    let ghost digits = unsigned_digits(text@);
    assert(digits =~= chars@.skip(start as int));
    if chars.len() == start {
        return None;
    }
    let mut number: u64 = 0;
    let mut fits = true;
    let mut i: usize = start;
    assert(digits.take(0) =~= Seq::empty());
    while i < chars.len()
        invariant
            start <= i <= chars@.len(),
            digits == chars@.skip(start as int),
            digits == unsigned_digits(text@),
            fits ==> number == digits_value(digits.take(i - start)),
            !fits ==> digits_value(digits) > u64::MAX,
            forall|j: int| 0 <= j < i - start ==> is_digit(digits[j]),
        decreases chars@.len() - i,
    {
        let c = chars[i];
        assert(c == digits[i - start]);
        if !('0' <= c && c <= '9') {
            assert(!is_digit(digits[i - start]));
            return None;
        }
        let digit: u64 = (c as u32 - 48) as u64;
        proof {
            assert(digits.take(i - start + 1).drop_last() =~= digits.take(i - start));
            lemma_digits_value_grows(digits, i - start + 1);
        }
        if fits {
            match number.checked_mul(10) {
                Some(tens) => match tens.checked_add(digit) {
                    Some(next) => {
                        number = next;
                    },
                    None => {
                        fits = false;
                    },
                },
                None => {
                    fits = false;
                },
            }
        }
        i = i + 1;
    }
    assert(digits.take(digits.len() as int) =~= digits);
    if fits {
        Some(number)
    } else {
        None
    }
}

/// A decimal number reads back as the number that was written.
pub proof fn decimal_reads_back(n: nat)
    ensures
        whole_number(decimal(n)) == Some(n),
        decimal(n).len() > 0,
        forall|i: int| 0 <= i < decimal(n).len() ==> is_digit(decimal(n)[i]),
        digits_value(decimal(n)) == n,
    decreases n,
{
    if n >= 10 {
        decimal_reads_back(n / 10);
        let rest = decimal(n / 10);
        assert(decimal(n).drop_last() =~= rest);
    } else {
        assert(decimal(n).drop_last() =~= Seq::empty());
        assert(digits_value(decimal(n).drop_last()) == 0);
    }
    assert(is_digit(decimal(n)[0]));
}

/// White space, as Unicode defines it.
pub open spec fn is_white_space(c: char) -> bool {
    ||| '\u{9}' <= c <= '\u{d}'
    ||| c == ' '
    ||| c == '\u{85}'
    ||| c == '\u{a0}'
    ||| c == '\u{1680}'
    ||| '\u{2000}' <= c <= '\u{200a}'
    ||| c == '\u{2028}'
    ||| c == '\u{2029}'
    ||| c == '\u{202f}'
    ||| c == '\u{205f}'
    ||| c == '\u{3000}'
}

/// A text without the white space at its start.
pub open spec fn without_leading_space(text: Seq<char>) -> Seq<char>
    decreases text.len(),
{
    if text.len() > 0 && is_white_space(text[0]) {
        without_leading_space(text.drop_first())
    } else {
        text
    }
}

/// A text without the white space at its end.
pub open spec fn without_trailing_space(text: Seq<char>) -> Seq<char>
    decreases text.len(),
{
    if text.len() > 0 && is_white_space(text.last()) {
        without_trailing_space(text.drop_last())
    } else {
        text
    }
}

/// A text without the white space around it.
pub open spec fn trimmed(text: Seq<char>) -> Seq<char> {
    without_trailing_space(without_leading_space(text))
}

/// Trimming takes white space off both ends and nothing else: what is left neither
/// starts nor ends with any, and stands in the text between white space.
pub proof fn trimming_takes_off_white_space(text: Seq<char>)
    ensures
        ({
            let inner = trimmed(text);
            &&& inner.len() > 0 ==> !is_white_space(inner[0]) && !is_white_space(inner.last())
            &&& exists|start: int|
                0 <= start <= start + inner.len() <= text.len() && #[trigger] text.skip(start).take(
                    inner.len() as int,
                ) == inner && (forall|i: int|
                    0 <= i < text.len() && (i < start || i >= start + inner.len())
                        ==> is_white_space(#[trigger] text[i]))
        }),
{
    let rest = without_leading_space(text);
    let inner = trimmed(text);
    lemma_leading(text);
    lemma_trailing(rest);
    let start = text.len() - rest.len();
    assert(text.skip(start).take(inner.len() as int) =~= inner);
    assert forall|i: int|
        0 <= i < text.len() && (i < start || i >= start + inner.len()) implies is_white_space(
        #[trigger] text[i],
    ) by {
        if i >= start {
            assert(rest[i - start] == text[i]);
        }
    }
}

proof fn lemma_leading(text: Seq<char>)
    ensures
        ({
            let rest = without_leading_space(text);
            &&& rest.len() <= text.len()
            &&& rest == text.skip(text.len() - rest.len())
            &&& rest.len() > 0 ==> !is_white_space(rest[0])
            &&& forall|i: int|
                0 <= i < text.len() - rest.len() ==> is_white_space(#[trigger] text[i])
        }),
    decreases text.len(),
{
    if text.len() > 0 && is_white_space(text[0]) {
        let tail = text.drop_first();
        lemma_leading(tail);
        let rest = without_leading_space(text);
        assert(rest =~= text.skip(text.len() - rest.len()));
        assert forall|i: int| 0 <= i < text.len() - rest.len() implies is_white_space(
            #[trigger] text[i],
        ) by {
            if i > 0 {
                assert(tail[i - 1] == text[i]);
            }
        }
    } else {
        assert(text.skip(0) =~= text);
    }
}

proof fn lemma_trailing(text: Seq<char>)
    ensures
        ({
            let rest = without_trailing_space(text);
            &&& rest.len() <= text.len()
            &&& rest == text.take(rest.len() as int)
            &&& rest.len() > 0 ==> !is_white_space(rest.last())
            &&& forall|i: int| rest.len() <= i < text.len() ==> is_white_space(#[trigger] text[i])
        }),
    decreases text.len(),
{
    if text.len() > 0 && is_white_space(text.last()) {
        let head = text.drop_last();
        lemma_trailing(head);
        let rest = without_trailing_space(text);
        assert(rest =~= text.take(rest.len() as int));
        assert forall|i: int| rest.len() <= i < text.len() implies is_white_space(
            #[trigger] text[i],
        ) by {
            if i < head.len() {
                assert(head[i] == text[i]);
            }
        }
    } else {
        assert(text.take(text.len() as int) =~= text);
    }
}

/// Whether a character is white space.
pub fn white_space(c: char) -> (r: bool)
    ensures
        r == is_white_space(c),
{
    ('\u{9}' <= c && c <= '\u{d}') || c == ' ' || c == '\u{85}' || c == '\u{a0}' || c == '\u{1680}' || (
    '\u{2000}' <= c && c <= '\u{200a}') || c == '\u{2028}' || c == '\u{2029}' || c == '\u{202f}' || c
        == '\u{205f}' || c == '\u{3000}'
}

/// A text without the white space around it.
pub fn trim(text: &str) -> (r: String)
    ensures
        r@ == trimmed(text@),
{
    let chars = chars_of(text);
    let mut start: usize = 0;
    assert(chars@.skip(0) =~= chars@);
    while start < chars.len() && white_space(chars[start])
        invariant
            start <= chars@.len(),
            without_leading_space(chars@) == without_leading_space(chars@.skip(start as int)),
        decreases chars@.len() - start,
    {
        assert(chars@.skip(start as int).drop_first() =~= chars@.skip(start + 1));
        start = start + 1;
    }
    let ghost rest = chars@.skip(start as int);
    assert(without_leading_space(chars@) == rest);
    let mut end: usize = chars.len();
    assert(rest.take(end - start) =~= rest);
    while end > start && white_space(chars[end - 1])
        invariant
            start <= end <= chars@.len(),
            rest == chars@.skip(start as int),
            without_trailing_space(rest) == without_trailing_space(rest.take(end - start)),
        decreases end,
    {
        assert(rest.take(end - start).drop_last() =~= rest.take(end - start - 1));
        end = end - 1;
    }
    let mut out = String::new();
    let mut i: usize = start;
    while i < end
        invariant
            start <= i <= end <= chars@.len(),
            rest == chars@.skip(start as int),
            out@ =~= rest.take(i - start),
        decreases end - i,
    {
        out.push(chars[i]);
        i = i + 1;
    }
    out
}

} // verus!
