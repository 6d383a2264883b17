//! Natural numbers of any size, for comparisons of products that no machine
//! integer holds.

use vstd::prelude::*;

verus! {

/// How many values a digit has.
pub open spec fn base() -> int {
    0x1_0000_0000_0000_0000
}

/// The number that digits stand for, the lowest one first.
pub open spec fn number(digits: Seq<u64>) -> int
    decreases digits.len(),
{
    if digits.len() == 0 {
        0
    } else {
        digits[0] + base() * number(digits.drop_first())
    }
}

/// What a one stands for behind `n` digits.
pub open spec fn weight(n: nat) -> int
    decreases n,
{
    if n == 0 {
        1
    } else {
        base() * weight((n - 1) as nat)
    }
}

proof fn lemma_number_of_push(digits: Seq<u64>, digit: u64)
    ensures
        number(digits.push(digit)) == number(digits) + digit * weight(digits.len()),
    decreases digits.len(),
{
    let more = digits.push(digit);
    if digits.len() == 0 {
        assert(more.drop_first() =~= Seq::<u64>::empty());
        assert(number(more.drop_first()) == 0);
        assert(more[0] == digit);
        assert(number(more) == digit);
    } else {
        let rest = digits.drop_first();
        assert(more.drop_first() =~= rest.push(digit));
        lemma_number_of_push(rest, digit);
        let (b, r, w) = (base(), number(rest), weight(rest.len()));
        assert(b * (r + digit * w) == b * r + digit * (b * w)) by (nonlinear_arith);
        assert(more[0] == digits[0]);
        assert(number(more) == digits[0] + b * (r + digit * w));
    }
}

proof fn lemma_number_bounds(digits: Seq<u64>)
    ensures
        0 <= number(digits) < weight(digits.len()),
    decreases digits.len(),
{
    if digits.len() > 0 {
        let rest = digits.drop_first();
        lemma_number_bounds(rest);
        let (b, r, w) = (base(), number(rest), weight(rest.len()));
        assert(0 <= b * r && b * r + b <= b * w) by (nonlinear_arith)
            requires
                0 <= r < w,
                b > 0,
        ;
    }
}

/// A natural number.
#[derive(Debug)]
pub struct Wide {
    digits: Vec<u64>,
}

impl View for Wide {
    type V = int;

    closed spec fn view(&self) -> int {
        number(self.digits@)
    }
}

impl Clone for Wide {
    fn clone(&self) -> (r: Self)
        ensures
            r@ == self@,
    {
        Wide { digits: self.digits.clone() }
    }
}

impl Wide {
    /// The number as it is.
    pub fn new(n: u128) -> (r: Self)
        ensures
            r@ == n,
    {
        let low: u64 = (n % 0x1_0000_0000_0000_0000) as u64;
        let high: u64 = (n / 0x1_0000_0000_0000_0000) as u64;
        let digits = vec![low, high];
        proof {
            reveal_with_fuel(number, 3);
            assert(digits@.drop_first().drop_first() =~= Seq::<u64>::empty());
        }
        Wide { digits }
    }

    /// The product with a single digit.
    fn times_digit(&self, digit: u64) -> (r: Self)
        ensures
            r@ == self@ * digit,
    {
        let mut digits: Vec<u64> = Vec::new();
        let mut carry: u64 = 0;
        let mut i: usize = 0;
        assert(self.digits@.take(0) =~= Seq::<u64>::empty());
        while i < self.digits.len()
            invariant
                i <= self.digits@.len(),
                digits@.len() == i,
                number(digits@) + carry * weight(i as nat) == number(self.digits@.take(i as int))
                    * digit,
            decreases self.digits@.len() - i,
        {
            let own: u64 = self.digits[i];
            let ghost before = digits@;
            let ghost carried = carry;
            assert(own * digit <= 0xffff_ffff_ffff_ffff * 0xffff_ffff_ffff_ffff)
                by (nonlinear_arith)
                requires
                    own <= 0xffff_ffff_ffff_ffff,
                    digit <= 0xffff_ffff_ffff_ffff,
            ;
            let product: u128 = own as u128 * digit as u128 + carry as u128;
            let low: u64 = (product % 0x1_0000_0000_0000_0000) as u64;
            carry = (product / 0x1_0000_0000_0000_0000) as u64;
            digits.push(low);
            proof {
                let next = self.digits@.take(i + 1);
                assert(next =~= self.digits@.take(i as int).push(own));
                lemma_number_of_push(self.digits@.take(i as int), own);
                lemma_number_of_push(before, low);
                let w = weight(i as nat);
                let (n, m) = (number(before), number(self.digits@.take(i as int)));
                assert(weight((i + 1) as nat) == base() * w);
                assert(n + low * w + carry * (base() * w) == (m + own * w) * digit)
                    by (nonlinear_arith)
                    requires
                        n + carried * w == m * digit,
                        low + carry * base() == own * digit + carried,
                ;
            }
            i = i + 1;
        }
        proof {
            assert(self.digits@.take(i as int) =~= self.digits@);
            lemma_number_of_push(digits@, carry);
        }
        digits.push(carry);
        Wide { digits }
    }

    /// The digits, with zeros above them up to a length.
    fn padded(&self, len: usize) -> (r: Vec<u64>)
        requires
            self.digits@.len() <= len,
        ensures
            r@.len() == len,
            number(r@) == self@,
    {
        let mut r = self.digits.clone();
        while r.len() < len
            invariant
                r@.len() <= len,
                number(r@) == self@,
            decreases len - r@.len(),
        {
            proof {
                lemma_number_of_push(r@, 0);
            }
            r.push(0);
        }
        r
    }

    /// Both numbers with as many digits.
    fn aligned(&self, other: &Wide) -> (r: (Vec<u64>, Vec<u64>))
        ensures
            r.0@.len() == r.1@.len(),
            number(r.0@) == self@,
            number(r.1@) == other@,
    {
        let len: usize = if self.digits.len() < other.digits.len() {
            other.digits.len()
        } else {
            self.digits.len()
        };
        (self.padded(len), other.padded(len))
    }

    /// The sum with another number.
    pub fn plus(&self, other: &Wide) -> (r: Self)
        ensures
            r@ == self@ + other@,
    {
        let (left, right) = self.aligned(other);
        let mut digits: Vec<u64> = Vec::new();
        let mut carry: u64 = 0;
        let mut i: usize = 0;
        assert(left@.take(0) =~= Seq::<u64>::empty());
        assert(right@.take(0) =~= Seq::<u64>::empty());
        while i < left.len()
            invariant
                i <= left@.len() == right@.len(),
                digits@.len() == i,
                number(digits@) + carry * weight(i as nat) == number(left@.take(i as int))
                    + number(right@.take(i as int)),
            decreases left@.len() - i,
        {
            let (a, b) = (left[i], right[i]);
            let ghost before = digits@;
            let ghost carried = carry;
            let sum: u128 = a as u128 + b as u128 + carry as u128;
            let low: u64 = (sum % 0x1_0000_0000_0000_0000) as u64;
            carry = (sum / 0x1_0000_0000_0000_0000) as u64;
            digits.push(low);
            proof {
                assert(left@.take(i + 1) =~= left@.take(i as int).push(a));
                assert(right@.take(i + 1) =~= right@.take(i as int).push(b));
                lemma_number_of_push(left@.take(i as int), a);
                lemma_number_of_push(right@.take(i as int), b);
                lemma_number_of_push(before, low);
                let w = weight(i as nat);
                assert(weight((i + 1) as nat) == base() * w);
                assert(low * w + carry * (base() * w) == a * w + b * w + carried * w)
                    by (nonlinear_arith)
                    requires
                        low + carry * base() == a + b + carried,
                ;
            }
            i = i + 1;
        }
        proof {
            assert(left@.take(i as int) =~= left@);
            assert(right@.take(i as int) =~= right@);
            lemma_number_of_push(digits@, carry);
        }
        digits.push(carry);
        Wide { digits }
    }

    /// The product with another number.
    pub fn times(&self, other: &Wide) -> (r: Self)
        ensures
            r@ == self@ * other@,
    {
        let mut r = Wide { digits: Vec::new() };
        let mut i: usize = other.digits.len();
        assert(other.digits@.skip(i as int) =~= Seq::<u64>::empty());
        while i > 0
            invariant
                i <= other.digits@.len(),
                r@ == self@ * number(other.digits@.skip(i as int)),
            decreases i,
        {
            let ghost above = other.digits@.skip(i as int);
            i = i - 1;
            let digit: u64 = other.digits[i];
            let ghost before = r.digits@;
            r.digits.insert(0, 0);
            proof {
                assert(r.digits@.drop_first() =~= before);
                let here = other.digits@.skip(i as int);
                assert(here.drop_first() =~= above);
                assert(here[0] == digit);
                let (b, s, n) = (base(), self@, number(above));
                assert(b * (s * n) + s * digit == s * (digit + b * n)) by (nonlinear_arith);
            }
            r = r.plus(&self.times_digit(digit));
        }
        assert(other.digits@.skip(0) =~= other.digits@);
        r
    }

    /// Whether the number is less than another.
    pub fn less_than(&self, other: &Wide) -> (r: bool)
        ensures
            r == (self@ < other@),
    {
        let (left, right) = self.aligned(other);
        let mut i: usize = left.len();
        assert(left@.take(i as int) =~= left@);
        assert(right@.take(i as int) =~= right@);
        while i > 0
            invariant
                i <= left@.len() == right@.len(),
                number(left@) == self@,
                number(right@) == other@,
                number(left@) - number(right@) == number(left@.take(i as int)) - number(
                    right@.take(i as int),
                ),
            decreases i,
        {
            i = i - 1;
            let (a, b) = (left[i], right[i]);
            proof {
                let (l, r) = (left@.take(i as int), right@.take(i as int));
                assert(left@.take(i + 1) =~= l.push(a));
                assert(right@.take(i + 1) =~= r.push(b));
                lemma_number_of_push(l, a);
                lemma_number_of_push(r, b);
                lemma_number_bounds(l);
                lemma_number_bounds(r);
                let w = weight(i as nat);
                if a < b {
                    assert(a * w + w <= b * w) by (nonlinear_arith)
                        requires
                            a + 1 <= b,
                            w > 0,
                    ;
                }
                if b < a {
                    assert(b * w + w <= a * w) by (nonlinear_arith)
                        requires
                            b + 1 <= a,
                            w > 0,
                    ;
                }
            }
            if a != b {
                return a < b;
            }
        }
        proof {
            assert(left@.take(0) =~= Seq::<u64>::empty());
            assert(right@.take(0) =~= Seq::<u64>::empty());
        }
        false
    }
}

} // verus!
