//! Numbers as they are sent over the wire: eight bytes, the highest first.

use vstd::prelude::*;

verus! {

/// The number that some bytes stand for, the highest byte first.
pub open spec fn number_of(bytes: Seq<u8>) -> nat
    decreases bytes.len(),
{
    if bytes.len() == 0 {
        0
    } else {
        number_of(bytes.drop_last()) * 256 + bytes.last() as nat
    }
}

/// The lowest `count` bytes of a number, the highest first.
pub open spec fn bytes_of(number: nat, count: nat) -> Seq<u8>
    decreases count,
{
    if count == 0 {
        seq![]
    } else {
        bytes_of(number / 256, (count - 1) as nat).push((number % 256) as u8)
    }
}

/// The power of 256 that numbers of `count` bytes stay below.
pub open spec fn limit(count: nat) -> nat
    decreases count,
{
    if count == 0 {
        1
    } else {
        256 * limit((count - 1) as nat)
    }
}

/// Reading bytes gives back the number that was written, and writing a number
/// gives back the bytes that were read.
pub proof fn write_then_read(number: nat, count: nat)
    requires
        number < limit(count),
    ensures
        number_of(bytes_of(number, count)) == number,
        bytes_of(number, count).len() == count,
    decreases count,
{
    if count > 0 {
        assert(number / 256 < limit((count - 1) as nat));
        write_then_read(number / 256, (count - 1) as nat);
        let bytes = bytes_of(number, count);
        assert(bytes.drop_last() =~= bytes_of(number / 256, (count - 1) as nat));
    }
}

/// Writing the number that bytes stand for gives back the bytes.
pub proof fn read_then_write(bytes: Seq<u8>)
    ensures
        bytes_of(number_of(bytes), bytes.len()) == bytes,
        number_of(bytes) < limit(bytes.len()),
    decreases bytes.len(),
{
    if bytes.len() > 0 {
        let rest = bytes.drop_last();
        read_then_write(rest);
        let number = number_of(bytes);
        assert(number / 256 == number_of(rest));
        assert(number % 256 == bytes.last());
        assert(bytes =~= rest.push(bytes.last()));
        assert(limit(bytes.len()) == 256 * limit(rest.len()));
    } else {
        assert(bytes =~= seq![]);
    }
}

/// The first byte weighs the most: one more of it is worth more than all that can
/// stand behind it. The last byte counts by itself.
pub proof fn first_byte_weighs_the_most(first: u8, rest: Seq<u8>, last: u8)
    ensures
        number_of(seq![first] + rest) == first * limit(rest.len()) + number_of(rest),
        number_of(rest.push(last)) == 256 * number_of(rest) + last,
        number_of(rest) < limit(rest.len()),
    decreases rest.len(),
{
    read_then_write(rest);
    assert(rest.push(last).drop_last() =~= rest);
    let all = seq![first] + rest;
    if rest.len() == 0 {
        reveal_with_fuel(number_of, 2);
        assert(all.drop_last() =~= Seq::empty());
        assert(all.last() == first);
    } else {
        first_byte_weighs_the_most(first, rest.drop_last(), last);
        assert(all.drop_last() =~= seq![first] + rest.drop_last());
        let (f, l, n) = (first as int, limit(rest.drop_last().len()) as int, number_of(
            rest.drop_last(),
        ) as int);
        assert((f * l + n) * 256 == f * (256 * l) + n * 256) by (nonlinear_arith);
    }
}

/// Numbers of 64 bits are those of eight bytes.
pub proof fn eight_bytes_limit()
    ensures
        limit(8) == 0x1_0000_0000_0000_0000,
{
    reveal_with_fuel(limit, 9);
}

/// A number as eight bytes.
pub fn encode(number: u64) -> (bytes: Vec<u8>)
    ensures
        bytes@ == bytes_of(number as nat, 8),
        bytes@.len() == 8,
        number_of(bytes@) == number,
{
    let mut reversed: Vec<u8> = Vec::new();
    let mut rest: u64 = number;
    let mut i: usize = 0;
    proof {
        eight_bytes_limit();
        write_then_read(number as nat, 8);
        assert(bytes_of(number as nat, 8) =~= bytes_of(rest as nat, 8) + reversed@.reverse());
    }
    while i < 8
        invariant
            i <= 8,
            reversed@.len() == i,
            bytes_of(number as nat, 8) == bytes_of(rest as nat, (8 - i) as nat)
                + reversed@.reverse(),
        decreases 8 - i,
    {
        let ghost before = reversed@;
        let ghost count = (8 - i) as nat;
        reversed.push((rest % 256) as u8);
        proof {
            let head = bytes_of((rest / 256) as nat, (count - 1) as nat);
            let low = (rest % 256) as u8;
            assert(bytes_of(rest as nat, count) == head.push(low));
            assert(reversed@.reverse() =~= seq![low] + before.reverse());
            assert(head.push(low) + before.reverse() =~= head + reversed@.reverse());
        }
        rest = rest / 256;
        i = i + 1;
    }
    assert(bytes_of(rest as nat, 0) =~= Seq::empty());
    assert(bytes_of(number as nat, 8) =~= reversed@.reverse());
    let mut bytes: Vec<u8> = Vec::new();
    let mut j: usize = 8;
    while j > 0
        invariant
            j <= 8,
            reversed@.len() == 8,
            bytes@ =~= reversed@.reverse().take(8 - j),
        decreases j,
    {
        bytes.push(reversed[j - 1]);
        j = j - 1;
    }
    bytes
}

/// The number that eight bytes stand for, `None` for any other length.
pub fn decode(bytes: &Vec<u8>) -> (number: Option<u64>)
    ensures
        match number {
            Some(number) => bytes@.len() == 8 && number == number_of(bytes@),
            None => bytes@.len() != 8,
        },
{
    if bytes.len() != 8 {
        return None;
    }
    let mut number: u64 = 0;
    let mut i: usize = 0;
    assert(bytes@.take(0) =~= Seq::empty());
    while i < 8
        invariant
            i <= 8,
            bytes@.len() == 8,
            number == number_of(bytes@.take(i as int)),
        decreases 8 - i,
    {
        proof {
            let next = bytes@.take(i + 1);
            assert(next.drop_last() =~= bytes@.take(i as int));
            read_then_write(next);
            lemma_limit_rises((i + 1) as nat);
            eight_bytes_limit();
        }
        number = number * 256 + bytes[i] as u64;
        i = i + 1;
    }
    assert(bytes@.take(8) =~= bytes@);
    Some(number)
}

proof fn lemma_limit_rises(count: nat)
    requires
        count <= 8,
    ensures
        limit(count) <= limit(8),
    decreases 8 - count,
{
    if count < 8 {
        lemma_limit_rises(count + 1);
        lemma_limit_positive(count);
    }
}

proof fn lemma_limit_positive(count: nat)
    ensures
        limit(count) >= 1,
    decreases count,
{
    if count > 0 {
        lemma_limit_positive((count - 1) as nat);
    }
}

} // verus!
