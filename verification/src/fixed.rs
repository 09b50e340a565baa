//! Fixed-point conventions and exact rounding of ratios.

use vstd::prelude::*;
use vstd::arithmetic::div_mod::{lemma_fundamental_div_mod, lemma_fundamental_div_mod_converse, lemma_mod_bound};

verus! {

/// The fixed-point representation of the number one: a score of `0.9` is
/// stored as `9_000`, a length of `320` network pixels as `3_200_000`.
pub const UNIT: i32 = 10_000;

/// The ratio `num / den` rounded to the nearest integer, with halves rounded
/// away from zero.
pub open spec fn round_half_away(num: int, den: int) -> int
    recommends
        den > 0,
{
    if num >= 0 {
        (2 * num + den) / (2 * den)
    } else {
        -((2 * (-num) + den) / (2 * den))
    }
}

/// `round_half_away(num, den)` is the integer nearest to `num / den`: it is
/// off by at most one half, it has the sign of `num`, and it is off by
/// exactly one half only on the side away from zero.
pub proof fn lemma_round_half_away_nearest(num: int, den: int)
    requires
        den > 0,
    ensures
        num >= 0 ==> round_half_away(num, den) >= 0 && -den <= 2 * (num - round_half_away(
            num,
            den,
        ) * den) < den,
        num <= 0 ==> round_half_away(num, den) <= 0 && -den < 2 * (num - round_half_away(
            num,
            den,
        ) * den) <= den,
{
    let m = if num >= 0 { num } else { -num };
    let q = (2 * m + den) / (2 * den);
    lemma_fundamental_div_mod(2 * m + den, 2 * den);
    lemma_mod_bound(2 * m + den, 2 * den);
    assert((2 * den) * q == 2 * (q * den)) by (nonlinear_arith);
    assert(q >= 0) by (nonlinear_arith)
        requires
            2 * (q * den) + 2 * den > 2 * m + den,
            m >= 0,
            den > 0,
    ;
    if num < 0 {
        assert((-q) * den == -(q * den)) by (nonlinear_arith);
    } else if num == 0 {
        assert(q <= 0) by (nonlinear_arith)
            requires
                2 * (q * den) <= den,
                den > 0,
        ;
        assert(q * den == 0) by (nonlinear_arith)
            requires
                q == 0,
        ;
    }
}

/// No other integer meets the bounds of `lemma_round_half_away_nearest`.
pub proof fn lemma_round_half_away_unique(num: int, den: int, q: int)
    requires
        den > 0,
        num >= 0 ==> -den <= 2 * (num - q * den) < den,
        num < 0 ==> -den < 2 * (num - q * den) <= den,
    ensures
        q == round_half_away(num, den),
{
    if num >= 0 {
        let r = 2 * num + den - 2 * (q * den);
        assert(2 * num + den == q * (2 * den) + r) by (nonlinear_arith)
            requires
                r == 2 * num + den - 2 * (q * den),
        ;
        lemma_fundamental_div_mod_converse(2 * num + den, 2 * den, q, r);
    } else {
        let p = -q;
        let r = 2 * (-num) + den - 2 * (p * den);
        assert(p * den == -(q * den)) by (nonlinear_arith)
            requires
                p == -q,
        ;
        assert(2 * (-num) + den == p * (2 * den) + r) by (nonlinear_arith)
            requires
                r == 2 * (-num) + den - 2 * (p * den),
        ;
        lemma_fundamental_div_mod_converse(2 * (-num) + den, 2 * den, p, r);
    }
}

/// Rounding commutes with negation.
pub proof fn lemma_round_half_away_odd(num: int, den: int)
    requires
        den > 0,
    ensures
        round_half_away(-num, den) == -round_half_away(num, den),
{
    if num == 0 {
        lemma_round_half_away_exact(0, den);
    }
}

/// An exact multiple rounds to its quotient.
pub proof fn lemma_round_half_away_exact(q: int, den: int)
    requires
        den > 0,
    ensures
        round_half_away(q * den, den) == q,
{
    if q >= 0 {
        assert(q * den >= 0) by (nonlinear_arith)
            requires
                q >= 0,
                den > 0,
        ;
    } else {
        assert(q * den < 0) by (nonlinear_arith)
            requires
                q < 0,
                den > 0,
        ;
    }
    lemma_round_half_away_unique(q * den, den, q);
}

/// The magnitude of a non-negative ratio, rounded half up.
proof fn lemma_round_from_quotient(m: int, den: int)
    requires
        m >= 0,
        den > 0,
    ensures
        round_half_away(m, den) == m / den + (if (m % den) >= den - (m % den) {
            1int
        } else {
            0int
        }),
{
    let q = m / den;
    let r = m % den;
    lemma_fundamental_div_mod(m, den);
    lemma_mod_bound(m, den);
    assert(den * q == q * den) by (nonlinear_arith);
    if r >= den - r {
        assert((q + 1) * den == q * den + den) by (nonlinear_arith);
        lemma_round_half_away_unique(m, den, q + 1);
    } else {
        lemma_round_half_away_unique(m, den, q);
    }
}

/// Divides `num` by `den` and rounds half away from zero.
pub fn round_ratio(num: i128, den: u128) -> (q: i128)
    requires
        den > 0,
    ensures
        q == round_half_away(num as int, den as int),
{
    let negative = num < 0;
    let m: u128 = if negative {
        ((-(num + 1)) as u128) + 1
    } else {
        num as u128
    };
    let whole: u128 = m / den;
    let rest: u128 = m % den;
    proof {
        lemma_fundamental_div_mod(m as int, den as int);
        lemma_round_from_quotient(m as int, den as int);
        assert(whole * 1 <= m - rest) by (nonlinear_arith)
            requires
                m == den * whole + rest,
                den >= 1,
                whole >= 0,
        ;
    }
    let mag: u128 = if rest >= den - rest {
        whole + 1
    } else {
        whole
    };
    if negative {
        if mag == 0 {
            0
        } else {
            -((mag - 1) as i128) - 1
        }
    } else {
        mag as i128
    }
}

} // verus!
