//! Exact monetary arithmetic. External amounts are scaled integers in minor
//! units (`AMOUNT_DENOM`ths of a currency unit); ledger values are exact
//! rationals `value_num / value_denom`. All comparisons are exact — no
//! floating point is involved anywhere.
use vstd::prelude::*;

verus! {

/// Minor units per currency unit in which external record amounts are kept.
pub const AMOUNT_DENOM: i64 = 100;

/// Exact equality between a ledger value `num / denom` and an external
/// amount `cents / AMOUNT_DENOM`, by cross-multiplication.
pub open spec fn amount_eq_spec(num: i64, denom: i64, cents: i64) -> bool {
    num * AMOUNT_DENOM == cents * denom
}

/// Exact test of `num / denom == cents / AMOUNT_DENOM`, carried out in `i128`
/// so that no intermediate product can overflow.
pub fn amount_eq(num: i64, denom: i64, cents: i64) -> (r: bool)
    ensures
        r == amount_eq_spec(num, denom, cents),
{
    proof {
        assert((num as int) * (AMOUNT_DENOM as int) < i128::MAX && (num as int) * (
        AMOUNT_DENOM as int) > i128::MIN) by (nonlinear_arith)
            requires
                i64::MIN <= num <= i64::MAX,
        ;
        assert((cents as int) * (denom as int) < i128::MAX && (cents as int) * (denom as int)
            > i128::MIN) by (nonlinear_arith)
            requires
                i64::MIN <= cents <= i64::MAX,
                i64::MIN <= denom <= i64::MAX,
        ;
    }
    let lhs: i128 = (num as i128) * (AMOUNT_DENOM as i128);
    let rhs: i128 = (cents as i128) * (denom as i128);
    lhs == rhs
}

/// Rounding to the nearest integer of `n / d` (for `d > 0`), ties away from
/// zero — the rounding used when an amount is converted to an account's
/// minor-unit precision.
pub open spec fn round_half_away(n: int, d: int) -> int
    recommends
        d > 0,
{
    if n >= 0 {
        (n + d / 2) / d
    } else {
        -(((-n) + d / 2) / d)
    }
}

/// `round_half_away` is odd: rounding `-n` gives the negation of rounding
/// `n`. This is what makes the two legs of a double-entry transaction
/// balance exactly.
pub proof fn lemma_round_negate(n: int, d: int)
    requires
        d > 0,
    ensures
        round_half_away(-n, d) == -round_half_away(n, d),
{
    if n == 0 {
        assert(0 <= d / 2 < d);
        assert((d / 2) / d == 0) by (nonlinear_arith)
            requires
                0 <= d / 2 < d,
        ;
        assert(round_half_away(0, d) == 0);
        assert(round_half_away(-0, d) == 0);
    } else if n > 0 {
        assert(round_half_away(-n, d) == -((n + d / 2) / d));
    } else {
        assert(-n > 0);
        assert(round_half_away(-n, d) == (-n + d / 2) / d);
        assert(-round_half_away(n, d) == (-n + d / 2) / d);
    }
}

/// Rounds `n / d` to the nearest integer, ties away from zero.
pub fn round_scaled(n: i128, d: i128) -> (r: i128)
    requires
        0 < d <= 0x4000_0000_0000_0000,
        -0x1000_0000_0000_0000_0000_0000_0000_0000 <= n
            <= 0x1000_0000_0000_0000_0000_0000_0000_0000,
    ensures
        r == round_half_away(n as int, d as int),
{
    let half: i128 = d / 2;
    if n >= 0 {
        (n + half) / d
    } else {
        -((-n + half) / d)
    }
}

} // verus!
