//! Byte-level renderings shared by the hashing layouts: decimal numbers and
//! comma-separated lists of them.

use vstd::prelude::*;

verus! {

/// The ASCII decimal digits of `n`, most significant first, without leading
/// zeros (`0` itself is one digit).
pub open spec fn decimal_digits(n: nat) -> Seq<u8>
    decreases n,
{
    if n < 10 {
        seq![(48 + n) as u8]
    } else {
        decimal_digits(n / 10).push((48 + n % 10) as u8)
    }
}

/// The decimal renderings of `values`, separated by commas.
pub open spec fn decimal_list(values: Seq<u8>) -> Seq<u8>
    decreases values.len(),
{
    if values.len() == 0 {
        Seq::empty()
    } else if values.len() == 1 {
        decimal_digits(values[0] as nat)
    } else {
        decimal_list(values.drop_last()).push(44u8) + decimal_digits(values.last() as nat)
    }
}

/// Appends the decimal rendering of `n` to `buffer`.
pub fn push_decimal(buffer: &mut Vec<u8>, n: u128)
    ensures
        final(buffer)@ == old(buffer)@ + decimal_digits(n as nat),
    decreases n,
{
    if n >= 10 {
        push_decimal(buffer, n / 10);
    }
    let digit: u8 = (n % 10) as u8;
    buffer.push(48 + digit);
    proof {
        assert(buffer@ =~= old(buffer)@ + decimal_digits(n as nat));
    }
}

/// Appends the decimal renderings of `values`, separated by commas.
pub fn push_decimal_list(buffer: &mut Vec<u8>, values: &[u8])
    ensures
        final(buffer)@ == old(buffer)@ + decimal_list(values@),
{
    let mut i: usize = 0;
    while i < values.len()
        invariant
            i <= values.len(),
            buffer@ == old(buffer)@ + decimal_list(values@.take(i as int)),
        decreases values.len() - i,
    {
        if i > 0 {
            buffer.push(44u8);
        }
        push_decimal(buffer, values[i] as u128);
        proof {
            let head = values@.take(i as int);
            let next = values@.take(i + 1);
            assert(next.drop_last() == head);
            assert(next.last() == values@[i as int]);
            if i == 0 {
                assert(decimal_list(head) == Seq::<u8>::empty());
                assert(next[0] == values@[0]);
            }
            assert(buffer@ == old(buffer)@ + decimal_list(next));
        }
        i = i + 1;
    }
    proof {
        assert(values@.take(i as int) == values@);
    }
}

} // verus!
