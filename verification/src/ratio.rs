//! Rounded quotients: every percentage and scaled value the sampler reports is
//! a quotient of two naturals, rounded to the nearest whole number.

use vstd::prelude::*;
use vstd::arithmetic::div_mod::lemma_fundamental_div_mod_converse;
use vstd::arithmetic::div_mod::lemma_fundamental_div_mod;
use vstd::arithmetic::div_mod::lemma_div_is_ordered;
use vstd::arithmetic::div_mod::lemma_div_multiples_vanish_quotient;
use vstd::arithmetic::div_mod::lemma_div_denominator;

verus! {

/// The whole number nearest to `num / den`; a quotient exactly halfway between
/// two whole numbers goes to the larger one.
pub open spec fn round_div(num: nat, den: nat) -> nat
    recommends
        den > 0,
{
    (2 * num + den) / (2 * den)
}

/// `part` as a percentage of `whole`, rounded to the nearest whole percent.
pub open spec fn percent_of(part: nat, whole: nat) -> nat
    recommends
        whole > 0,
{
    round_div(100 * part, whole)
}

/// Rounding adds one to the floor of the quotient exactly when the remainder is
/// at least half of the divisor.
pub proof fn lemma_round_div_by_remainder(num: nat, den: nat)
    requires
        den > 0,
    ensures
        round_div(num, den) == num / den + if 2 * (num % den) >= den { 1nat } else { 0nat },
{
    let w = (num / den) as int;
    let r = (num % den) as int;
    lemma_fundamental_div_mod(num as int, den as int);
    assert(num == den * w + r);
    if 2 * r >= den {
        assert(2 * num + den == (w + 1) * (2 * den) + (2 * r - den)) by (nonlinear_arith)
            requires
                num == den * w + r,
        ;
        lemma_fundamental_div_mod_converse(
            (2 * num + den) as int,
            (2 * den) as int,
            w + 1,
            2 * r - den,
        );
    } else {
        assert(2 * num + den == w * (2 * den) + (2 * r + den)) by (nonlinear_arith)
            requires
                num == den * w + r,
        ;
        lemma_fundamental_div_mod_converse(
            (2 * num + den) as int,
            (2 * den) as int,
            w,
            2 * r + den,
        );
    }
}

/// The rounded quotient is a nearest whole number: it lies within half a unit
/// of the exact quotient, and no other whole number lies strictly nearer.
pub proof fn lemma_round_div_is_nearest(num: nat, den: nat)
    requires
        den > 0,
    ensures
        2 * num - den < 2 * round_div(num, den) * den <= 2 * num + den,
{
    let q = ((2 * num + den) / (2 * den)) as int;
    let r = ((2 * num + den) % (2 * den)) as int;
    lemma_fundamental_div_mod((2 * num + den) as int, (2 * den) as int);
    assert(2 * num + den == (2 * den) * q + r);
    assert((2 * den) * q == 2 * q * den) by (nonlinear_arith);
}

/// The rounded quotient is zero exactly when the exact quotient is below one
/// half.
pub proof fn lemma_round_div_zero(num: nat, den: nat)
    requires
        den > 0,
    ensures
        round_div(num, den) == 0 <==> 2 * num < den,
{
    lemma_round_div_is_nearest(num, den);
    let q = round_div(num, den);
    if q == 0 {
        assert(2 * q * den == 0) by (nonlinear_arith)
            requires
                q == 0,
        ;
    } else {
        assert(2 * q * den >= 2 * den) by (nonlinear_arith)
            requires
                q >= 1,
                den > 0,
        ;
    }
}

/// Rounding never decreases when the numerator grows.
pub proof fn lemma_round_div_monotone(a: nat, b: nat, den: nat)
    requires
        den > 0,
        a <= b,
    ensures
        round_div(a, den) <= round_div(b, den),
{
    lemma_div_is_ordered((2 * a + den) as int, (2 * b + den) as int, (2 * den) as int);
}

/// Rounding depends on the quotient alone: a factor common to numerator and
/// denominator changes nothing.
pub proof fn lemma_round_div_scales(num: nat, den: nat, factor: nat)
    requires
        den > 0,
        factor > 0,
    ensures
        round_div(factor * num, factor * den) == round_div(num, den),
{
    assert(2 * (factor * num) + factor * den == factor * (2 * num + den)) by (nonlinear_arith);
    assert(2 * (factor * den) == factor * (2 * den)) by (nonlinear_arith);
    lemma_div_multiples_vanish_quotient(factor as int, (2 * num + den) as int, (2 * den) as int);
}

/// A whole number of units rounds to itself.
pub proof fn lemma_round_div_whole(n: nat, den: nat)
    requires
        den > 0,
    ensures
        round_div(den * n, den) == n,
{
    lemma_round_div_scales(n, 1, den);
    assert(den * 1 == den);
    assert(round_div(n, 1) == n) by {
        assert((2 * n + 1) / 2 == n);
    }
}

/// Before rounding by an even divisor the numerator may be truncated: what
/// truncation drops lies below the halfway mark's own unit.
pub proof fn lemma_round_div_truncated(x: nat, unit: nat, den: nat)
    requires
        unit > 0,
        den > 0,
        den % 2 == 0,
    ensures
        round_div(x, unit * den) == round_div(x / unit, den),
{
    let half = den / 2;
    let v = x / unit;
    assert(den == 2 * half);
    assert(unit * den == 2 * (unit * half)) by (nonlinear_arith)
        requires
            den == 2 * half,
    ;
    assert(unit * half > 0) by (nonlinear_arith)
        requires
            unit > 0,
            half > 0,
    ;
    // round_div(x, unit * den) == (x + unit * half) / (unit * den)
    assert(2 * x + unit * den == 2 * (x + unit * half));
    assert(2 * (unit * den) == 2 * (unit * den));
    lemma_div_multiples_vanish_quotient(2, (x + unit * half) as int, (unit * den) as int);
    assert(round_div(x, unit * den) == (x + unit * half) / (unit * den));
    // ... == ((x + unit * half) / unit) / den
    lemma_div_denominator((x + unit * half) as int, unit as int, den as int);
    // (x + unit * half) / unit == x / unit + half
    lemma_fundamental_div_mod(x as int, unit as int);
    assert(x + unit * half == unit * (v + half) + x % unit) by (nonlinear_arith)
        requires
            x == unit * v + x % unit,
    ;
    lemma_fundamental_div_mod_converse(
        (x + unit * half) as int,
        unit as int,
        (v + half) as int,
        (x % unit) as int,
    );
    // round_div(v, den) == (v + half) / den
    assert(2 * v + den == 2 * (v + half));
    lemma_div_multiples_vanish_quotient(2, (v + half) as int, den as int);
}

/// A part that does not exceed the whole is at most one hundred percent of it,
/// and the whole itself is exactly one hundred percent.
pub proof fn lemma_percent_bounds(part: nat, whole: nat)
    requires
        whole > 0,
    ensures
        part <= whole ==> percent_of(part, whole) <= 100,
        percent_of(whole, whole) == 100,
        percent_of(0, whole) == 0,
{
    lemma_fundamental_div_mod_converse(
        (200 * whole + whole) as int,
        (2 * whole) as int,
        100,
        whole as int,
    );
    if part <= whole {
        lemma_round_div_monotone(100 * part, 100 * whole, whole);
    }
    lemma_round_div_zero(0, whole);
}

/// Divides and rounds to the nearest whole number. Nothing can be divided by
/// zero.
pub fn rounded_ratio(num: u128, den: u128) -> (q: Option<u128>)
    ensures
        q == if den > 0 {
            Some(round_div(num as nat, den as nat) as u128)
        } else {
            None
        },
        den > 0 ==> round_div(num as nat, den as nat) <= u128::MAX,
{
    if den == 0 {
        return None;
    }
    let whole: u128 = num / den;
    let rest: u128 = num % den;
    proof {
        lemma_round_div_by_remainder(num as nat, den as nat);
        lemma_fundamental_div_mod(num as int, den as int);
        if den >= 2 {
            assert(2 * whole <= num) by (nonlinear_arith)
                requires
                    num == den * whole + rest,
                    den >= 2,
                    rest >= 0,
                    whole >= 0,
            ;
        }
    }
    if rest >= den - rest {
        Some(whole + 1)
    } else {
        Some(whole)
    }
}

/// `part` as a percentage of `whole`, rounded to the nearest whole percent.
///
/// There is no percentage of an empty whole, and none is reported when the
/// rounded value does not fit the result type.
pub fn percent(part: u64, whole: u64) -> (r: Option<u64>)
    ensures
        r == if whole > 0 && percent_of(part as nat, whole as nat) <= u64::MAX {
            Some(percent_of(part as nat, whole as nat) as u64)
        } else {
            None
        },
{
    match rounded_ratio(100 * (part as u128), whole as u128) {
        Some(q) if q <= u64::MAX as u128 => Some(q as u64),
        _ => None,
    }
}

} // verus!
