use fluke_server::bonding_curve::{calculate_smooth_cost, get_price};
use fluke_server::constants::{BONDING_CURVE_EPSILON, EPSILON, INITIAL_BALANCE, SCALE};

fn as_real(amount: i128) -> f64 {
    amount as f64 / 1e18
}

fn closed_integral(s: f64) -> f64 {
    if s > 0.0 {
        s + 2.0 / 3.0 * s.powf(1.5)
    } else if s < 0.0 {
        let t = (-s).sqrt();
        -(2.0 * t - 2.0 * (1.0 + t).ln())
    } else {
        0.0
    }
}

#[test]
fn constants_are_eighteen_decimal_places() {
    assert_eq!(SCALE, 1_000_000_000_000_000_000);
    assert_eq!(EPSILON, SCALE / 1_000_000_000);
    assert_eq!(BONDING_CURVE_EPSILON, SCALE / 1_000_000_000);
    assert_eq!(INITIAL_BALANCE, 1000 * SCALE);
}

#[test]
fn price_at_zero_supply_is_one() {
    assert_eq!(get_price(0), SCALE);
}

#[test]
fn price_within_tolerance_of_zero_is_one() {
    assert_eq!(get_price(BONDING_CURVE_EPSILON), SCALE);
    assert_eq!(get_price(-BONDING_CURVE_EPSILON), SCALE);
    assert_eq!(get_price(1), SCALE);
    assert!(get_price(BONDING_CURVE_EPSILON + 1) > SCALE);
    assert!(get_price(-BONDING_CURVE_EPSILON - 1) < SCALE);
}

#[test]
fn price_above_zero_is_one_plus_root() {
    assert_eq!(get_price(SCALE), 2 * SCALE);
    assert_eq!(get_price(4 * SCALE), 3 * SCALE);
    assert_eq!(get_price(2 * SCALE), 2_414_213_562_373_095_048);
    assert_eq!(get_price(SCALE / 4), 1_500_000_000_000_000_000);
    assert_eq!(get_price(22_500_000_000), 1_000_150_000_000_000_000);
}

#[test]
fn price_below_zero_is_inverse_of_one_plus_root() {
    assert_eq!(get_price(-SCALE), 500_000_000_000_000_000);
    assert_eq!(get_price(-4 * SCALE), 333_333_333_333_333_333);
    assert_eq!(get_price(-2 * SCALE), 414_213_562_373_095_048);
}

#[test]
fn prices_at_opposite_supplies_are_inverse() {
    for whole in [1i128, 2, 3, 7, 50, 1234] {
        let s = whole * SCALE;
        let product = as_real(get_price(s)) * as_real(get_price(-s));
        assert!((product - 1.0).abs() < 1e-12);
        // Exactly: the product is within two units of the last place of 1.
        let exact = get_price(s) * get_price(-s);
        assert!((exact - SCALE * SCALE).abs() <= 2 * get_price(s));
    }
}

#[test]
fn price_is_continuous_at_zero() {
    // Within e of 1 for every supply no larger than e * e.
    for e in [1_000i128, 100_000, 1_000_000_000_000, 31_622_776_601_683] {
        let supply: i128 = (e * e) / SCALE;
        assert!((get_price(supply) - SCALE).abs() <= e);
        assert!((get_price(-supply) - SCALE).abs() <= e);
    }
}

#[test]
fn price_grows_with_supply() {
    let supplies = [-9 * SCALE, -SCALE, -5 * EPSILON, -5, 0, 5, 5 * EPSILON, SCALE, 9 * SCALE];
    for pair in supplies.windows(2) {
        assert!(get_price(pair[0]) <= get_price(pair[1]));
    }
}

#[test]
fn open_long_costs_five_thirds() {
    let cost = calculate_smooth_cost(0, SCALE).unwrap();
    assert_eq!(cost, 1_666_666_666_666_666_666);
    assert!((as_real(cost) - 5.0 / 3.0).abs() < 1e-9);
}

#[test]
fn chain_buy_costs_twenty_three_thirds() {
    let cost = calculate_smooth_cost(SCALE, 4 * SCALE).unwrap();
    assert_eq!(cost, 7_666_666_666_666_666_667);
    assert!((as_real(cost) - 23.0 / 3.0).abs() < 1e-9);
}

#[test]
fn open_short_receives_two_minus_two_ln_two() {
    let cost = calculate_smooth_cost(0, -SCALE).unwrap();
    assert_eq!(cost, -613_705_638_880_109_382);
    assert!((as_real(cost) + (2.0 - 2.0 * 2.0f64.ln())).abs() < 1e-9);
}

#[test]
fn flip_from_long_to_short() {
    let cost = calculate_smooth_cost(SCALE, -SCALE).unwrap();
    assert_eq!(cost, -2_280_372_305_546_776_048);
    assert!((as_real(cost) - (closed_integral(-1.0) - closed_integral(1.0))).abs() < 1e-9);
}

#[test]
fn cost_is_within_the_tolerance_of_the_closed_form() {
    let points = [-1000 * SCALE, -4 * SCALE, -SCALE, -SCALE / 4, -5 * EPSILON, 0, 7 * EPSILON,
        SCALE / 3, SCALE, 3 * SCALE, 100 * SCALE];
    for a in points {
        for b in points {
            let cost = calculate_smooth_cost(a, b).unwrap();
            let closed = closed_integral(as_real(b)) - closed_integral(as_real(a));
            assert!((as_real(cost) - closed).abs() < 1e-9 * (1.0 + closed.abs()));
        }
    }
}

#[test]
fn cost_lies_between_quantity_times_the_prices_at_the_ends() {
    let points = [-1000 * SCALE, -4 * SCALE, -SCALE, -SCALE / 4, 0, SCALE / 3, SCALE, 3 * SCALE,
        100 * SCALE];
    for pair in points.windows(2) {
        let (a, b) = (pair[0], pair[1]);
        let cost = as_real(calculate_smooth_cost(a, b).unwrap());
        let width = as_real(b - a);
        let tol = 4e-9 * (as_real(a).abs() + as_real(b).abs() + 1.0);
        assert!(as_real(get_price(a)) * width - tol <= cost);
        assert!(cost <= as_real(get_price(b)) * width + tol);
    }
}

#[test]
fn cost_of_no_move_is_zero() {
    assert_eq!(calculate_smooth_cost(3 * SCALE, 3 * SCALE), Some(0));
    assert_eq!(calculate_smooth_cost(-3 * SCALE, -3 * SCALE), Some(0));
    assert_eq!(calculate_smooth_cost(0, BONDING_CURVE_EPSILON), Some(0));
}

#[test]
fn cost_there_and_back_is_zero() {
    let points = [-4 * SCALE, -SCALE, -250_000_001, 0, 123_456_789, SCALE, 1000 * SCALE];
    for a in points {
        for b in points {
            let there = calculate_smooth_cost(a, b).unwrap();
            let back = calculate_smooth_cost(b, a).unwrap();
            assert_eq!(there + back, 0);
        }
    }
}

#[test]
fn cost_is_additive() {
    let points = [-4 * SCALE, -SCALE, -5, 0, 7, SCALE, 3 * SCALE, 1000 * SCALE];
    for a in points {
        for b in points {
            for c in points {
                let whole = calculate_smooth_cost(a, c).unwrap();
                let first = calculate_smooth_cost(a, b).unwrap();
                let second = calculate_smooth_cost(b, c).unwrap();
                assert_eq!(whole, first + second);
            }
        }
    }
}

#[test]
fn cost_is_positive_for_a_buy_and_negative_for_a_sell() {
    assert!(calculate_smooth_cost(-SCALE, SCALE).unwrap() > 0);
    assert!(calculate_smooth_cost(SCALE, -SCALE).unwrap() < 0);
    assert!(calculate_smooth_cost(-2 * SCALE, -SCALE).unwrap() > 0);
}

#[test]
fn cost_too_large_to_hold_is_none() {
    assert_eq!(calculate_smooth_cost(0, i128::MAX), None);
    assert_eq!(calculate_smooth_cost(i128::MAX, 0), None);
    assert_eq!(calculate_smooth_cost(i128::MAX, i128::MAX), None);
}

#[test]
fn cost_at_the_ends_of_the_range() {
    assert!(calculate_smooth_cost(i128::MIN, 0).is_some());
    assert_eq!(calculate_smooth_cost(0, 200 * SCALE), Some(2_085_618_083_164_126_731_733));
}
