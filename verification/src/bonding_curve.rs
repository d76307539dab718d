//! The bonding curve: the price of a post as a function of its signed supply,
//! and the cost of moving the supply along the curve.
//!
//! For a supply `s` above zero the price is `1 + sqrt(s)`, below zero it is
//! `1 / (1 + sqrt(|s|))`, and at zero it is 1. The cost of moving the supply
//! from `a` to `b` is the integral of the price between them, evaluated in
//! closed form.

use vstd::prelude::*;
use crate::constants::{BONDING_CURVE_EPSILON, SCALE};
use crate::fixed::{
    abs_int, add_amounts, checked, fits_i128, is_isqrt, isqrt, lemma_isqrt_exists, lemma_isqrt_is,
    lemma_isqrt_monotonic, ln_amount, ln_fixed, magnitude, mul_div_floor, sqrt_of_product,
    sub_amounts,
};

verus! {

/// The square root of the amount `t`, as an amount, rounded down.
pub open spec fn sqrt_amount(t: int) -> int {
    isqrt(t * SCALE)
}

/// The price at a supply.
pub open spec fn price_at(supply: int) -> int {
    if supply > BONDING_CURVE_EPSILON {
        SCALE + sqrt_amount(supply)
    } else if supply < -BONDING_CURVE_EPSILON {
        SCALE * SCALE / (SCALE + sqrt_amount(-supply))
    } else {
        SCALE as int
    }
}

/// The integral of the price from zero to `s`, for `s` above zero:
/// `s + (2/3) * s^(3/2)`.
pub open spec fn integral_pos_spec(s: int) -> int {
    if s <= BONDING_CURVE_EPSILON {
        0
    } else {
        s + (2 * s * sqrt_amount(s)) / (3 * SCALE)
    }
}

/// The integral of the price from `s` to zero, for `s` below zero:
/// `2 * sqrt(|s|) - 2 * ln(1 + sqrt(|s|))`.
pub open spec fn integral_neg_to_zero_spec(s: int) -> int {
    if s >= -BONDING_CURVE_EPSILON {
        0
    } else {
        2 * sqrt_amount(-s) - 2 * ln_amount(SCALE + sqrt_amount(-s))
    }
}

/// The integral of the price from zero to `s`.
pub open spec fn curve_integral(s: int) -> int {
    if s > BONDING_CURVE_EPSILON {
        integral_pos_spec(s)
    } else if s < -BONDING_CURVE_EPSILON {
        -integral_neg_to_zero_spec(s)
    } else {
        0
    }
}

/// The cost of moving the supply from `s1` to `s2` along the curve.
pub open spec fn smooth_cost(s1: int, s2: int) -> int {
    curve_integral(s2) - curve_integral(s1)
}

/// The cost of moving the supply from `s1` to `s2`, as the engine holds it:
/// `None` when the integral at one of the two supplies, or the cost, is too
/// large to hold.
pub open spec fn priced(s1: int, s2: int) -> Option<i128> {
    if fits_i128(curve_integral(s1)) && fits_i128(curve_integral(s2)) {
        checked(smooth_cost(s1, s2))
    } else {
        None
    }
}

/// A number whose square does not exceed `n` is below every number whose
/// square does.
proof fn lemma_root_below(r: int, n: int, bound: int)
    by (nonlinear_arith)
    requires
        0 <= r,
        0 <= bound,
        r * r <= n,
        n < bound * bound,
    ensures
        r < bound,
{
}

/// The square root of a non-negative amount, as an amount.
fn amount_sqrt(t: u128) -> (r: u128)
    requires
        t <= 0x8000_0000_0000_0000_0000_0000_0000_0000,
    ensures
        r == sqrt_amount(t as int),
        is_isqrt(t * SCALE, r as int),
        r <= 13_043_817_825_332_782_212_349_571_806,
{
    let r: u128 = sqrt_of_product(t, SCALE as u128);
    proof {
        assert(t * SCALE <= 0x8000_0000_0000_0000_0000_0000_0000_0000
            * 1_000_000_000_000_000_000);
        lemma_root_below(r as int, t * SCALE, 13_043_817_825_332_782_212_349_571_807);
    }
    r
}

/// The price at a supply.
pub fn get_price(supply: i128) -> (price: i128)
    ensures
        price == price_at(supply as int),
        0 < price,
{
    if supply > BONDING_CURVE_EPSILON {
        let r: u128 = amount_sqrt(supply as u128);
        SCALE + (r as i128)
    } else if supply < -BONDING_CURVE_EPSILON {
        let r: u128 = amount_sqrt(magnitude(supply));
        let unit: u128 = SCALE as u128;
        let price: u128 = unit * unit / (unit + r);
        assert(0 < 1_000_000_000_000_000_000_000_000_000_000_000_000int / (
        1_000_000_000_000_000_000 + r as int) <= 1_000_000_000_000_000_000_000_000_000_000_000_000int)
            by (nonlinear_arith)
            requires
                0 <= r <= 13_043_817_825_332_782_212_349_571_806,
        ;
        price as i128
    } else {
        SCALE
    }
}

/// The integral of the price from zero to `s`; zero unless `s` is above
/// zero. `None` when it is too large to hold.
fn integral_pos(s: i128) -> (r: Option<i128>)
    ensures
        r == checked(integral_pos_spec(s as int)),
{
    if s <= BONDING_CURVE_EPSILON {
        Some(0)
    } else {
        let root: u128 = amount_sqrt(s as u128);
        let unit: u128 = SCALE as u128;
        assert(0 <= (2 * s) * root) by (nonlinear_arith)
            requires
                0 <= s,
                0 <= root,
        ;
        assert((2 * s) * root == 2 * s * root);
        assert(0 <= ((2 * s) * root) / ((3 * unit) as int)) by (nonlinear_arith)
            requires
                0 <= (2 * s) * root,
                unit == 1_000_000_000_000_000_000,
        ;
        match mul_div_floor(2 * (s as u128), root, 3 * unit, i128::MAX as u128) {
            Some(curved) => add_amounts(s, curved as i128),
            None => None,
        }
    }
}

/// The integral of the price from `s` to zero; zero unless `s` is below zero.
fn integral_neg_to_zero(s: i128) -> (r: i128)
    ensures
        r == integral_neg_to_zero_spec(s as int),
        -200_000_000_000_000_000_000 <= r <= 30_000_000_000_000_000_000_000_000_000,
{
    if s >= -BONDING_CURVE_EPSILON {
        0
    } else {
        let r: u128 = amount_sqrt(magnitude(s));
        let log: i128 = ln_fixed((SCALE as u128) + r);
        2 * (r as i128) - 2 * log
    }
}

/// The integral of the price from zero to `s`; `None` when it is too large
/// to hold.
fn integral(s: i128) -> (r: Option<i128>)
    ensures
        r == checked(curve_integral(s as int)),
{
    if s > BONDING_CURVE_EPSILON {
        integral_pos(s)
    } else if s < -BONDING_CURVE_EPSILON {
        Some(-integral_neg_to_zero(s))
    } else {
        Some(0)
    }
}

/// The cost of moving the supply from `s1` to `s2` along the curve: positive
/// for a buy, negative for a sell. `None` when the integral at one of the
/// two supplies, or the cost, is too large to hold.
pub fn calculate_smooth_cost(s1: i128, s2: i128) -> (cost: Option<i128>)
    ensures
        cost == priced(s1 as int, s2 as int),
{
    match (integral(s2), integral(s1)) {
        (Some(at_s2), Some(at_s1)) => sub_amounts(at_s2, at_s1),
        _ => None,
    }
}

/// Moving the supply from `a` to `b` and back costs nothing in total.
pub proof fn lemma_smooth_cost_round_trip(a: int, b: int)
    ensures
        smooth_cost(a, b) + smooth_cost(b, a) == 0,
{
}

/// The cost of a move is the sum of the costs of its two parts, wherever the
/// move is divided.
pub proof fn lemma_smooth_cost_additive(a: int, b: int, c: int)
    ensures
        smooth_cost(a, c) == smooth_cost(a, b) + smooth_cost(b, c),
{
}

/// The price is continuous at zero supply: it is exactly 1 there, and it
/// stays within `e` of 1 for every supply `s` with `|s| <= e^2`, on either
/// side of zero.
pub proof fn lemma_price_continuous_at_zero(s: int, e: int)
    requires
        0 <= e,
        abs_int(s) * SCALE <= e * e,
    ensures
        price_at(0) == SCALE,
        abs_int(price_at(s) - SCALE) <= e,
{
    let t = abs_int(s);
    assert(t * SCALE >= 0) by (nonlinear_arith)
        requires
            t >= 0,
            SCALE > 0,
    ;
    assert(e * e >= 0) by (nonlinear_arith);
    lemma_isqrt_monotonic(t * SCALE, e * e);
    assert(is_isqrt(e * e, e)) by (nonlinear_arith)
        requires
            e >= 0,
    ;
    lemma_isqrt_is(e * e, e);
    lemma_isqrt_exists(t * SCALE);
    let r = sqrt_amount(t);
    assert(0 <= r <= e);
    if s < -BONDING_CURVE_EPSILON {
        let unit = SCALE as int;
        assert(unit - r <= unit * unit / (unit + r) <= unit) by (nonlinear_arith)
            requires
                0 <= r,
                unit > 0,
        ;
    }
}

/// The price does not fall when the supply grows.
pub proof fn lemma_price_monotonic(a: int, b: int)
    requires
        a <= b,
    ensures
        price_at(a) <= price_at(b),
{
    let unit = SCALE as int;
    if a > BONDING_CURVE_EPSILON {
        assert(0 <= a * SCALE <= b * SCALE) by (nonlinear_arith)
            requires
                0 <= a <= b,
                SCALE > 0,
        ;
        lemma_isqrt_monotonic(a * SCALE, b * SCALE);
    } else {
        if b > BONDING_CURVE_EPSILON {
            assert(0 <= b * SCALE) by (nonlinear_arith)
                requires
                    0 <= b,
                    SCALE > 0,
            ;
            lemma_isqrt_exists(b * SCALE);
        }
        if a < -BONDING_CURVE_EPSILON {
            assert(0 <= (-a) * SCALE) by (nonlinear_arith)
                requires
                    a <= 0,
                    SCALE > 0,
            ;
            lemma_isqrt_exists((-a) * SCALE);
            let ra = sqrt_amount(-a);
            assert(unit * unit / (unit + ra) <= unit) by (nonlinear_arith)
                requires
                    0 <= ra,
                    unit > 0,
            ;
            if b < -BONDING_CURVE_EPSILON {
                assert(0 <= (-b) * SCALE <= (-a) * SCALE) by (nonlinear_arith)
                    requires
                        a <= b <= 0,
                        SCALE > 0,
                ;
                lemma_isqrt_monotonic((-b) * SCALE, (-a) * SCALE);
                lemma_isqrt_exists((-b) * SCALE);
                let rb = sqrt_amount(-b);
                assert(unit * unit / (unit + ra) <= unit * unit / (unit + rb)) by (nonlinear_arith)
                    requires
                        0 <= rb <= ra,
                        unit > 0,
                ;
            }
        }
    }
}

/// Above zero supply the integral of the price does not fall when the
/// supply grows: a buy that starts at zero supply or above costs at least
/// nothing, and a sell that ends there returns at least nothing.
pub proof fn lemma_cost_above_zero(a: int, b: int)
    requires
        0 <= a <= b,
    ensures
        smooth_cost(a, b) >= 0,
        smooth_cost(b, a) <= 0,
{
    let scale = SCALE as int;
    let third = 3 * (SCALE as int);
    if b > BONDING_CURVE_EPSILON {
        assert(0 <= a * scale <= b * scale) by (nonlinear_arith)
            requires
                0 <= a <= b,
                scale > 0,
        ;
        lemma_isqrt_monotonic(a * scale, b * scale);
        lemma_isqrt_exists(a * scale);
        let ra = isqrt(a * scale);
        let rb = isqrt(b * scale);
        assert(0 <= 2 * a * ra <= 2 * b * rb) by (nonlinear_arith)
            requires
                0 <= a <= b,
                0 <= ra <= rb,
        ;
        assert(0 <= (2 * a * ra) / third <= (2 * b * rb) / third) by (nonlinear_arith)
            requires
                0 <= 2 * a * ra <= 2 * b * rb,
                third > 0,
        ;
    }
}

/// The prices at opposite supplies are inverse to each other: outside the
/// curve's tolerance of zero their product falls short of 1 by less than
/// one unit of the last place of the larger price.
pub proof fn lemma_prices_at_opposite_supplies(s: int)
    requires
        s > BONDING_CURVE_EPSILON,
    ensures
        SCALE * SCALE - price_at(s) < price_at(s) * price_at(-s) <= SCALE * SCALE,
{
    let unit = SCALE as int;
    assert(0 <= s * SCALE) by (nonlinear_arith)
        requires
            0 <= s,
            SCALE > 0,
    ;
    lemma_isqrt_exists(s * SCALE);
    let above = unit + sqrt_amount(s);
    assert(-(-s) == s);
    assert(unit * unit - above < above * (unit * unit / above) <= unit * unit) by (nonlinear_arith)
        requires
            above > 0,
            unit > 0,
    ;
}

/// Three times a number divided by three, rounded down, falls short of the
/// number by less than three.
proof fn lemma_thirds(n: int, d: int)
    by (nonlinear_arith)
    requires
        0 <= n,
        0 < d,
    ensures
        n - d < d * (n / d) <= n,
{
}

/// With `x` and `y` the square roots of `a` and `b` (each scaled), the
/// weighted differences that the bounds of a cost rest on are not far below
/// zero.
proof fn lemma_root_weights(a: int, b: int, x: int, y: int, unit: int)
    requires
        0 < unit,
        0 <= x <= y,
        x * x <= a * unit < (x + 1) * (x + 1),
        y * y <= b * unit < (y + 1) * (y + 1),
        0 <= a <= b,
    ensures
        2 * (b * y) - 3 * (b * x) + a * x >= -3 * b,
        b * y - 3 * (a * y) + 2 * (a * x) >= -9 * b,
{
    let bu = b * unit;
    let au = a * unit;
    // The two cubic identities.
    assert(y * y * (2 * y - 3 * x) + x * x * x == (y - x) * (y - x) * (2 * y + x))
        by (nonlinear_arith);
    assert(y * y * y + x * x * (2 * x - 3 * y) == (y - x) * (y - x) * (y + 2 * x))
        by (nonlinear_arith);
    assert((y - x) * (y - x) * (2 * y + x) >= 0 && (y - x) * (y - x) * (y + 2 * x) >= 0)
        by (nonlinear_arith)
        requires
            0 <= x <= y,
    ;
    assert(y <= bu && 2 * (y * y) + y <= 3 * bu && x * x * x >= 0) by (nonlinear_arith)
        requires
            0 <= x,
            0 <= y,
            y * y <= bu,
    ;
    // The first weight, times the unit.
    let first = bu * (2 * y - 3 * x) + au * x;
    assert(first >= -3 * bu) by (nonlinear_arith)
        requires
            first == bu * (2 * y - 3 * x) + au * x,
            0 <= x <= y,
            x * x <= au,
            y * y <= bu < (y + 1) * (y + 1),
            y * y * (2 * y - 3 * x) + x * x * x >= 0,
            2 * (y * y) + y <= 3 * bu,
    ;
    assert(first == unit * (2 * (b * y) - 3 * (b * x) + a * x)) by (nonlinear_arith)
        requires
            first == bu * (2 * y - 3 * x) + au * x,
            bu == b * unit,
            au == a * unit,
    ;
    assert(2 * (b * y) - 3 * (b * x) + a * x >= -3 * b) by (nonlinear_arith)
        requires
            unit * (2 * (b * y) - 3 * (b * x) + a * x) >= -3 * (b * unit),
            unit > 0,
    ;
    // The second weight, times the unit.
    let second = bu * y + au * (2 * x - 3 * y);
    assert(second >= -9 * bu) by (nonlinear_arith)
        requires
            second == bu * y + au * (2 * x - 3 * y),
            0 <= x <= y,
            x * x <= au < (x + 1) * (x + 1),
            y * y <= bu,
            y * y * y + x * x * (2 * x - 3 * y) >= 0,
            2 * (y * y) + y <= 3 * bu,
    ;
    assert(second == unit * (b * y - 3 * (a * y) + 2 * (a * x))) by (nonlinear_arith)
        requires
            second == bu * y + au * (2 * x - 3 * y),
            bu == b * unit,
            au == a * unit,
    ;
    assert(b * y - 3 * (a * y) + 2 * (a * x) >= -9 * b) by (nonlinear_arith)
        requires
            unit * (b * y - 3 * (a * y) + 2 * (a * x)) >= -9 * (b * unit),
            unit > 0,
    ;
}

/// The cost is the integral of the price: above zero supply the cost of a
/// move from `a` up to `b` lies between the quantity times the price at
/// `a` and the quantity times the price at `b`, up to a few units of the
/// last place for each whole unit of `b`.
pub proof fn lemma_cost_between_end_prices(a: int, b: int)
    requires
        BONDING_CURVE_EPSILON < a <= b,
    ensures
        (b - a) * price_at(a) - (b + SCALE) <= SCALE * smooth_cost(a, b),
        SCALE * smooth_cost(a, b) <= (b - a) * price_at(b) + (3 * b + SCALE),
{
    let unit = SCALE as int;
    assert(0 <= a * unit <= b * unit) by (nonlinear_arith)
        requires
            0 <= a <= b,
            unit > 0,
    ;
    lemma_isqrt_exists(a * unit);
    lemma_isqrt_exists(b * unit);
    lemma_isqrt_monotonic(a * unit, b * unit);
    let x = isqrt(a * unit);
    let y = isqrt(b * unit);
    lemma_root_weights(a, b, x, y, unit);
    let na = 2 * a * x;
    let nb = 2 * b * y;
    assert(0 <= na && 0 <= nb && na == 2 * (a * x) && nb == 2 * (b * y)) by (nonlinear_arith)
        requires
            na == 2 * a * x,
            nb == 2 * b * y,
            0 <= a,
            0 <= b,
            0 <= x,
            0 <= y,
    ;
    lemma_thirds(na, 3 * unit);
    lemma_thirds(nb, 3 * unit);
    let ga = na / (3 * unit);
    let gb = nb / (3 * unit);
    let cost = smooth_cost(a, b);
    assert(cost == (b - a) + gb - ga);
    assert(3 * (unit * cost) == 3 * unit * (b - a) + (3 * unit) * gb - (3 * unit) * ga)
        by (nonlinear_arith)
        requires
            cost == (b - a) + gb - ga,
    ;
    assert(3 * ((b - a) * (unit + x)) == 3 * unit * (b - a) + 3 * (b * x) - 3 * (a * x))
        by (nonlinear_arith);
    assert(3 * ((b - a) * (unit + y)) == 3 * unit * (b - a) + 3 * (b * y) - 3 * (a * y))
        by (nonlinear_arith);
}

} // verus!
