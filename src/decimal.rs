//! Decimal rendering of unsigned integers.
use vstd::prelude::*;

use crate::hex::{digit_str, hex_digit};

verus! {

/// The decimal digits of `n`, most significant first, without leading zeros.
pub open spec fn decimal(n: nat) -> Seq<char>
    decreases n,
{
    if n < 10 {
        seq![hex_digit(n as u8)]
    } else {
        decimal(n / 10).push(hex_digit((n % 10) as u8))
    }
}

/// `k` zero characters.
pub open spec fn zeros(k: nat) -> Seq<char> {
    Seq::new(k, |i: int| '0')
}

/// The decimal digits of `n`, with zeros in front up to `width` characters.
pub open spec fn padded_decimal(n: nat, width: nat) -> Seq<char> {
    if decimal(n).len() < width {
        zeros((width - decimal(n).len()) as nat) + decimal(n)
    } else {
        decimal(n)
    }
}

/// Appends the decimal digits of `n`.
pub fn push_decimal(r: &mut String, n: u64)
    ensures
        final(r)@ == old(r)@ + decimal(n as nat),
    decreases n,
{
    if n >= 10 {
        push_decimal(r, n / 10);
    }
    r.append(digit_str((n % 10) as u8));
    proof {
        if n >= 10 {
            assert(final(r)@ =~= old(r)@ + decimal(n as nat));
        } else {
            assert(final(r)@ =~= old(r)@ + decimal(n as nat));
        }
    }
}

/// The number of decimal digits of `n`.
fn decimal_len(n: u64) -> (r: u64)
    ensures
        r == decimal(n as nat).len(),
        r <= n as int + 1,
    decreases n,
{
    if n < 10 {
        1
    } else {
        decimal_len(n / 10) + 1
    }
}

/// Appends `n` in decimal, zero-padded to at least `width` characters.
pub fn push_padded_decimal(r: &mut String, n: u64, width: u64)
    ensures
        final(r)@ == old(r)@ + padded_decimal(n as nat, width as nat),
{
    let len = decimal_len(n);
    let mut k: u64 = len;
    while k < width
        invariant
            len == decimal(n as nat).len(),
            len <= k <= width || (k == len && len >= width),
            r@ == old(r)@ + zeros((k - len) as nat),
        decreases width - k,
    {
        r.append("0");
        proof {
            reveal_strlit("0");
            assert(r@ =~= old(r)@ + zeros((k + 1 - len) as nat));
        }
        k = k + 1;
    }
    push_decimal(r, n);
    proof {
        if len < width {
            assert(k == width);
        } else {
            assert(zeros(0) =~= Seq::<char>::empty());
        }
        assert(final(r)@ =~= old(r)@ + padded_decimal(n as nat, width as nat));
    }
}

} // verus!
