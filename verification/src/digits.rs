//! Decimal digit counting and rendering for the numbering suffix.

use vstd::prelude::*;

verus! {

/// Number of decimal digits of `n` (1 for 0..=9, 2 for 10..=99, ...).
pub open spec fn spec_digits(n: nat) -> nat
    decreases n,
{
    if n < 10 {
        1
    } else {
        1 + spec_digits(n / 10)
    }
}

/// `pow10(k)` is `10^k`.
pub open spec fn pow10(k: nat) -> nat
    decreases k,
{
    if k == 0 {
        1
    } else {
        10 * pow10((k - 1) as nat)
    }
}

/// Any value below `10^k` has at most `k` decimal digits.
proof fn lemma_digits_below_pow(n: nat, k: nat)
    requires
        k >= 1,
        n < pow10(k),
    ensures
        spec_digits(n) <= k,
    decreases k,
{
    if n >= 10 {
        assert(pow10(k) == 10 * pow10((k - 1) as nat));
        lemma_digits_below_pow(n / 10, (k - 1) as nat);
    }
}

/// Every value that fits in a machine word has at most 20 decimal digits.
pub proof fn lemma_digits_fit(n: usize)
    ensures
        spec_digits(n as nat) <= 20,
{
    reveal_with_fuel(pow10, 21);
    assert(n < pow10(20));
    lemma_digits_below_pow(n as nat, 20);
}

/// Counts the decimal digits of `n`.
pub fn decimal_digits(n: usize) -> (d: usize)
    ensures
        d == spec_digits(n as nat),
{
    proof {
        lemma_digits_fit(n);
    }
    let mut rest: usize = n;
    let mut d: usize = 1;
    while rest >= 10
        invariant
            1 <= d,
            d - 1 + spec_digits(rest as nat) == spec_digits(n as nat),
            spec_digits(n as nat) <= 20,
        decreases rest,
    {
        rest = rest / 10;
        d = d + 1;
    }
    d
}

/// The decimal representation of `n`, as ASCII bytes, most significant digit
/// first and without leading zeroes (`0` is rendered as the single byte `48`).
pub open spec fn spec_decimal(n: nat) -> Seq<u8>
    decreases n,
{
    if n < 10 {
        seq![(48 + n) as u8]
    } else {
        spec_decimal(n / 10).push((48 + n % 10) as u8)
    }
}

/// The decimal representation is exactly as long as the digit count says.
pub proof fn lemma_decimal_len(n: nat)
    ensures
        spec_decimal(n).len() == spec_digits(n),
    decreases n,
{
    if n >= 10 {
        lemma_decimal_len(n / 10);
    }
}

/// Appends the decimal representation of `n` to `out`.
pub fn push_decimal(out: &mut Vec<u8>, n: usize)
    ensures
        final(out)@ == old(out)@ + spec_decimal(n as nat),
    decreases n,
{
    if n < 10 {
        out.push(48 + n as u8);
        assert(out@ =~= old(out)@ + spec_decimal(n as nat));
    } else {
        push_decimal(out, n / 10);
        out.push(48 + (n % 10) as u8);
        assert(out@ =~= old(out)@ + spec_decimal(n as nat));
    }
}

} // verus!
