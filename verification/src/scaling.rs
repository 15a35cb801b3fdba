//! A share of a budget, rounded as double-precision arithmetic rounds it.
//!
//! A double holds 53 significant bits, and every operation gives the nearest
//! double, of two equally near ones the even one. Taking eighty percent of a
//! whole number is therefore exact integer arithmetic: the number is rounded,
//! multiplied with the double nearest to 0.8, rounded again and cut to a whole
//! number.

use vstd::prelude::*;

verus! {

/// Whole numbers below this bound are doubles.
pub const DOUBLE_LIMIT: u128 = 9007199254740992;

/// The double nearest to 0.8, in units of one part in `DOUBLE_LIMIT`.
pub const EIGHTY_PERCENT: u128 = 7205759403792794;

/// The distance between the doubles around a value: the smallest power of two
/// that brings the value below the limit.
pub open spec fn spacing(value: nat) -> nat
    decreases value,
{
    if value < DOUBLE_LIMIT {
        1
    } else {
        2 * spacing(value / 2)
    }
}

/// The double nearest to a value; of two equally near ones, the even multiple of
/// their distance.
pub open spec fn nearest_double(value: nat) -> nat {
    let step = spacing(value);
    let below = value / step;
    let rest = value % step;
    if 2 * rest > step || (2 * rest == step && below % 2 == 1) {
        (below + 1) * step
    } else {
        below * step
    }
}

/// Eighty percent of a number in double-precision arithmetic, cut to a whole
/// number.
pub open spec fn eighty_percent(value: nat) -> nat {
    nearest_double(nearest_double(value) * EIGHTY_PERCENT as nat) / (DOUBLE_LIMIT as nat)
}

/// The distance between doubles is positive and small against their size.
proof fn lemma_spacing(value: nat)
    ensures
        spacing(value) >= 1,
        value >= DOUBLE_LIMIT ==> spacing(value) * (DOUBLE_LIMIT / 2) <= value,
    decreases value,
{
    if value >= DOUBLE_LIMIT {
        lemma_spacing(value / 2);
        let half = spacing(value / 2);
        if value / 2 >= DOUBLE_LIMIT {
            assert(half * (DOUBLE_LIMIT / 2) <= value / 2);
        } else {
            assert(half == 1);
        }
        assert(2 * half * (DOUBLE_LIMIT / 2) == 2 * (half * (DOUBLE_LIMIT / 2)))
            by (nonlinear_arith);
    }
}

/// Rounding moves a value by no more than the distance between doubles.
proof fn lemma_nearest_double(value: nat)
    ensures
        nearest_double(value) <= value + spacing(value),
        value <= nearest_double(value) + spacing(value),
        value < DOUBLE_LIMIT ==> nearest_double(value) == value,
{
    lemma_spacing(value);
    let step = spacing(value) as int;
    let below = value as int / step;
    vstd::arithmetic::div_mod::lemma_fundamental_div_mod(value as int, step);
    vstd::arithmetic::div_mod::lemma_mod_bound(value as int, step);
    assert((below + 1) * step == below * step + step) by (nonlinear_arith);
    assert(step * below == below * step) by (nonlinear_arith);
}

fn spacing_of(value: u128) -> (step: u128)
    ensures
        step == spacing(value as nat),
{
    let mut rest: u128 = value;
    let mut step: u128 = 1;
    while rest >= DOUBLE_LIMIT
        invariant
            spacing(value as nat) == step * spacing(rest as nat),
            step * rest <= value,
            step >= 1,
        decreases rest,
    {
        assert(2 * step <= step * rest) by (nonlinear_arith)
            requires
                rest >= 2,
                step >= 1,
        ;
        assert(step * spacing(rest as nat) == (2 * step) * spacing((rest / 2) as nat)) by {
            let inner = spacing((rest / 2) as nat);
            assert(spacing(rest as nat) == 2 * inner);
            assert(step * (2 * inner) == (2 * step) * inner) by (nonlinear_arith);
        }
        assert((2 * step) * (rest / 2) <= step * rest) by (nonlinear_arith)
            requires
                2 * (rest / 2) <= rest,
                step >= 1,
        ;
        rest = rest / 2;
        step = step * 2;
    }
    assert(spacing(rest as nat) == 1);
    assert(step * 1 == step);
    step
}

fn round_to_double(value: u128) -> (rounded: u128)
    requires
        value <= u128::MAX / 4,
    ensures
        rounded == nearest_double(value as nat),
{
    let step: u128 = spacing_of(value);
    proof {
        lemma_spacing(value as nat);
        lemma_nearest_double(value as nat);
        if value >= DOUBLE_LIMIT {
            assert(step <= step * (DOUBLE_LIMIT / 2)) by (nonlinear_arith)
                requires
                    step >= 1,
                    DOUBLE_LIMIT / 2 >= 1,
            ;
        }
        vstd::arithmetic::div_mod::lemma_fundamental_div_mod(value as int, step as int);
        vstd::arithmetic::div_mod::lemma_mod_bound(value as int, step as int);
    }
    let below: u128 = value / step;
    let rest: u128 = value % step;
    assert(step * below == below * step) by (nonlinear_arith);
    assert((below + 1) * step == below * step + step) by (nonlinear_arith);
    assert(below <= below * step) by (nonlinear_arith)
        requires
            below >= 0,
            step >= 1,
    ;
    if 2 * rest > step || (2 * rest == step && below % 2 == 1) {
        (below + 1) * step
    } else {
        below * step
    }
}

/// Eighty percent of `value`.
pub fn eighty_percent_of(value: u64) -> (share: u64)
    ensures
        share == eighty_percent(value as nat),
{
    proof {
        lemma_spacing(value as nat);
        lemma_nearest_double(value as nat);
    }
    let rounded: u128 = round_to_double(value as u128);
    assert(rounded <= 0x1_0010_0000_0000_0000) by {
        if value >= DOUBLE_LIMIT {
            let step = spacing(value as nat);
            assert(step <= 0x10_0000_0000_0000) by (nonlinear_arith)
                requires
                    step * (DOUBLE_LIMIT / 2) <= value,
                    value <= 0xffff_ffff_ffff_ffff,
            ;
        }
    }
    let product: u128 = rounded * EIGHTY_PERCENT;
    proof {
        lemma_spacing(product as nat);
        lemma_nearest_double(product as nat);
    }
    let share: u128 = round_to_double(product) / DOUBLE_LIMIT;
    assert(share <= u64::MAX);
    share as u64
}

/// Below the numbers that a double cannot tell apart, eighty percent is four fifths
/// up to the rounding of the steps it is taken in: within three of the exact value.
pub proof fn lemma_eighty_percent(value: nat)
    requires
        value < 9007199254740992,
    ensures
        4 * value - 15 <= 5 * eighty_percent(value) <= 4 * value + 15,
{
    let product = (nearest_double(value) * EIGHTY_PERCENT as nat) as nat;
    lemma_nearest_double(value);
    assert(product == value * 7205759403792794);
    lemma_nearest_double(product);
    lemma_spacing(product);
    let step = spacing(product) as int;
    let rounded = nearest_double(product) as int;
    let share = rounded / 9007199254740992;
    vstd::arithmetic::div_mod::lemma_fundamental_div_mod(rounded, 9007199254740992);
    vstd::arithmetic::div_mod::lemma_mod_bound(rounded, 9007199254740992);
    if product >= DOUBLE_LIMIT {
        assert(step * 4503599627370496 <= product);
    } else {
        assert(rounded == product);
    }
}

} // verus!
