//! Exact integer arithmetic used for physical scaling and coordinate
//! quantization: powers of ten, ceiling division, and round-to-nearest
//! division (ties away from zero).

use vstd::prelude::*;

verus! {

/// 10 to the power `n`.
pub open spec fn pow10(n: nat) -> int
    decreases n,
{
    if n == 0 {
        1
    } else {
        10 * pow10((n - 1) as nat)
    }
}

/// pow10 grows monotonically and stays within u128 range for the exponents
/// the pipeline uses.
pub proof fn lemma_pow10_bounds(n: nat)
    requires
        n <= 12,
    ensures
        1 <= pow10(n) <= 1_000_000_000_000,
{
    lemma_pow10_pos(n);
    lemma_pow10_le(n, 12);
    assert(pow10(12) == 1_000_000_000_000int) by {
        reveal_with_fuel(pow10, 13);
    }
}

/// pow10 is monotone in the exponent.
pub proof fn lemma_pow10_le(m: nat, n: nat)
    requires
        m <= n,
    ensures
        pow10(m) <= pow10(n),
    decreases n,
{
    if m < n {
        lemma_pow10_le(m, (n - 1) as nat);
        lemma_pow10_pos((n - 1) as nat);
    }
}

/// pow10 is positive.
pub proof fn lemma_pow10_pos(n: nat)
    ensures
        pow10(n) >= 1,
    decreases n,
{
    if n > 0 {
        lemma_pow10_pos((n - 1) as nat);
    }
}

/// Computes 10^n.
pub fn pow10_u128(n: u32) -> (r: u128)
    requires
        n <= 12,
    ensures
        r == pow10(n as nat),
{
    let mut r: u128 = 1;
    let mut i: u32 = 0;
    while i < n
        invariant
            i <= n <= 12,
            r == pow10(i as nat),
        decreases n - i,
    {
        proof {
            lemma_pow10_bounds(i as nat);
            assert(pow10((i + 1) as nat) == 10 * pow10(i as nat));
        }
        r = r * 10;
        i = i + 1;
    }
    r
}

/// Ceiling division for non-negative numerator and positive denominator.
pub open spec fn ceil_div(n: int, d: int) -> int {
    (n + d - 1) / d
}

/// Round-to-nearest division, ties away from zero, for non-negative
/// numerator and positive denominator.
pub open spec fn round_div(n: int, d: int) -> int {
    (2 * n + d) / (2 * d)
}

/// Computes round_div. The arguments must be small enough that doubling
/// cannot overflow.
pub fn round_div_u128(n: u128, d: u128) -> (r: u128)
    requires
        0 < d <= u128::MAX / 2,
        2 * n + d <= u128::MAX,
    ensures
        r == round_div(n as int, d as int),
{
    (2 * n + d) / (2 * d)
}

/// Ceiling division. The arguments must be small enough that the shifted
/// numerator cannot overflow.
pub fn ceil_div_u128(n: u128, d: u128) -> (r: u128)
    requires
        d > 0,
        n + d <= u128::MAX,
    ensures
        r == ceil_div(n as int, d as int),
{
    (n + d - 1) / d
}

} // verus!
