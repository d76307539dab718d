//! What holds of every trade: theorems over the functions that the contracts
//! of the engine are written in.

use vstd::prelude::*;
use crate::bonding_curve::{price_at, priced, smooth_cost, sqrt_amount};
use crate::calculations::{
    add_segment, ends_at, liquidation_price, liquidation_supply, next_threshold, reaches,
    supply_at_price, unrealized_pnl, unwind_from, walk, Walked,
};
use crate::constants::{BONDING_CURVE_EPSILON, EPSILON, SCALE};
use crate::errors::TradeError;
use crate::fixed::{
    abs_int, div_amounts, fits_i128, is_isqrt, isqrt, lemma_isqrt_exists, lemma_isqrt_is,
    lemma_isqrt_monotonic, mul_amounts, trunc_div,
};
use crate::handlers::{
    affected_from, is_trade_reply, market_opened, names_user, request_handled, trade_applied,
    trade_handled, trade_settlement, with_user, TradeOutcome,
};
use crate::settlement::{
    accounts_after_trade, exposure_from, exposure_of, held_in, liquidated_after, position_after,
    settle_from, trader_after,
};
use crate::thresholds::{
    entry_matches, has_entry, holds_position, lists_user, threshold_of, thresholds_match,
    Threshold,
};
use crate::models::{Client, ClientMessage, UserPositionDetail};
use crate::websocket::Delivery;
use crate::state::{
    initial_account, lemma_position_removed_elsewhere, lemma_position_set,
    lemma_position_set_elsewhere, lemma_position_slot, position_of, position_slot, with_position,
    without_position, AccountView, HeldPosition, MarketView,
};
use crate::threshold_index::LiquidationEntry;

verus! {

/// A trade that leaves a position of negligible size resets the position:
/// its size and its cost basis are exactly zero.
pub proof fn lemma_negligible_position_is_reset(
    held: UserPositionDetail,
    quantity: i128,
    cost: i128,
)
    requires
        position_after(held, quantity, cost) is Some,
        abs_int(held.size + quantity) < EPSILON,
    ensures
        position_after(held, quantity, cost) == Some(
            UserPositionDetail { size: 0, total_cost_basis: 0 },
        ),
{
}

/// The same, of the trader's account after a trade: a position that the
/// trade leaves with a negligible size has a cost basis of exactly zero.
pub proof fn lemma_trader_position_is_reset(
    account: AccountView,
    post_id: u128,
    quantity: i128,
    cost: i128,
)
    requires
        trader_after(account, post_id, quantity, cost) is Some,
    ensures
        position_of(trader_after(account, post_id, quantity, cost).unwrap().positions, post_id)
            == position_after(held_in(account.positions, post_id), quantity, cost),
        abs_int(held_in(
            trader_after(account, post_id, quantity, cost).unwrap().positions,
            post_id,
        ).size as int) < EPSILON ==> held_in(
            trader_after(account, post_id, quantity, cost).unwrap().positions,
            post_id,
        ).total_cost_basis == 0,
{
    let position = position_after(held_in(account.positions, post_id), quantity, cost).unwrap();
    lemma_position_set(account.positions, post_id, position);
}

/// A round trip conserves the trader's equity. A trader without a position
/// in a post buys `quantity` while the supply moves along the curve from
/// `start` to `start + quantity`, and sells the same quantity while it moves
/// back. Afterwards the position is flat, and the balance and the realized
/// profit are what they were: the equity (balance, realized and unrealized
/// profit) is exactly what it was before, at any price.
pub proof fn lemma_round_trip_conserves(
    account: AccountView,
    post_id: u128,
    quantity: i128,
    start: i128,
    price: i128,
)
    requires
        position_of(account.positions, post_id) is None,
        fits_i128(start + quantity),
        fits_i128(-quantity),
        fits_i128(smooth_cost(start as int, start + quantity)),
        fits_i128(smooth_cost(start + quantity, start as int)),
        trader_after(
            account,
            post_id,
            quantity,
            smooth_cost(start as int, start + quantity) as i128,
        ) is Some,
        trader_after(
            trader_after(
                account,
                post_id,
                quantity,
                smooth_cost(start as int, start + quantity) as i128,
            ).unwrap(),
            post_id,
            (-quantity) as i128,
            smooth_cost(start + quantity, start as int) as i128,
        ) is Some,
    ensures
        ({
            let bought = trader_after(
                account,
                post_id,
                quantity,
                smooth_cost(start as int, start + quantity) as i128,
            ).unwrap();
            let sold = trader_after(
                bought,
                post_id,
                (-quantity) as i128,
                smooth_cost(start + quantity, start as int) as i128,
            ).unwrap();
            &&& sold.balance == account.balance
            &&& sold.realized_pnl == account.realized_pnl
            &&& position_of(sold.positions, post_id) == Some(
                UserPositionDetail { size: 0, total_cost_basis: 0 },
            )
            &&& unrealized_pnl(held_in(sold.positions, post_id), price) == Some(0i128)
            &&& sold.balance + sold.realized_pnl + unrealized_pnl(
                held_in(sold.positions, post_id),
                price,
            ).unwrap() == account.balance + account.realized_pnl
        }),
{
    let out = smooth_cost(start as int, start + quantity) as i128;
    let back = smooth_cost(start + quantity, start as int) as i128;
    assert(smooth_cost(start as int, start + quantity) + smooth_cost(start + quantity, start as int)
        == 0);
    let bought = trader_after(account, post_id, quantity, out).unwrap();
    let sold = trader_after(bought, post_id, (-quantity) as i128, back).unwrap();
    lemma_trader_position_is_reset(account, post_id, quantity, out);
    lemma_trader_position_is_reset(bought, post_id, (-quantity) as i128, back);
    assert(out + back == 0);
    assert(bought.realized_pnl == account.realized_pnl - out);
    assert(sold.realized_pnl == bought.realized_pnl - back);
    let flat = UserPositionDetail { size: 0, total_cost_basis: 0 };
    assert(held_in(account.positions, post_id) == flat);
    assert(position_of(bought.positions, post_id) == position_after(flat, quantity, out));
    assert(position_of(sold.positions, post_id) == Some(flat));
}

/// A trade of no more than the tolerance trades nothing: it costs nothing,
/// leaves the supply where it was and liquidates nobody.
pub proof fn lemma_negligible_trade(
    index: Map<i128, Seq<LiquidationEntry>>,
    start: i128,
    quantity: i128,
)
    requires
        abs_int(quantity as int) <= EPSILON,
    ensures
        walk(index, start, quantity, 0, Seq::empty()) == Some(
            Walked { cost: 0, supply: start, unwound: Seq::empty() },
        ),
{
}

/// A trade that meets no threshold, and does not end within the tolerance
/// of one, moves the supply by its quantity and costs what the curve says;
/// it fails exactly when the final supply or that cost cannot be held.
pub proof fn lemma_trade_on_clear_path(
    index: Map<i128, Seq<LiquidationEntry>>,
    start: i128,
    quantity: i128,
)
    requires
        abs_int(quantity as int) > EPSILON,
        fits_i128(start + quantity),
        !reaches(next_threshold(index.dom(), start, quantity > 0), start, quantity),
        !ends_at(next_threshold(index.dom(), start, quantity > 0), (start + quantity) as i128),
    ensures
        walk(index, start, quantity, 0, Seq::empty()) == (match priced(
            start as int,
            start + quantity,
        ) {
            Some(cost) => Some(
                Walked { cost, supply: (start + quantity) as i128, unwound: Seq::empty() },
            ),
            None => None,
        }),
{
}

/// In a market without thresholds every trade moves the supply by its
/// quantity and costs what the curve says.
pub proof fn lemma_trade_without_thresholds(start: i128, quantity: i128)
    requires
        abs_int(quantity as int) > EPSILON,
        fits_i128(start + quantity),
        priced(start as int, start + quantity) is Some,
    ensures
        walk(Map::empty(), start, quantity, 0, Seq::empty()) == Some(
            Walked {
                cost: smooth_cost(start as int, start + quantity) as i128,
                supply: (start + quantity) as i128,
                unwound: Seq::empty(),
            },
        ),
{
    lemma_trade_on_clear_path(Map::empty(), start, quantity);
}

/// A refused trade changes nothing: when a trade by a trader who has an
/// account is refused (for want of collateral, or for any other reason), no
/// account and no market is other than before.
pub proof fn lemma_refused_trade_changes_nothing(
    markets_before: Map<u128, MarketView>,
    accounts_before: Map<Seq<char>, AccountView>,
    markets_after: Map<u128, MarketView>,
    accounts_after: Map<Seq<char>, AccountView>,
    trader: Seq<char>,
    post_id: u128,
    quantity: i128,
    result: Result<TradeOutcome, TradeError>,
)
    requires
        trade_applied(
            markets_before,
            accounts_before,
            markets_after,
            accounts_after,
            trader,
            post_id,
            quantity,
            result,
        ),
        result is Err,
        accounts_before.contains_key(trader),
    ensures
        markets_after == markets_before,
        accounts_after == accounts_before,
{
}

/// A trade is determined by the state before it and the request: two runs
/// of the same request on the same state are both carried out or both
/// refused for the same reason, and leave the same accounts, the same post
/// and the same outcome.
pub proof fn lemma_trade_is_determined(
    markets_before: Map<u128, MarketView>,
    accounts_before: Map<Seq<char>, AccountView>,
    trader: Seq<char>,
    post_id: u128,
    quantity: i128,
    markets_one: Map<u128, MarketView>,
    accounts_one: Map<Seq<char>, AccountView>,
    result_one: Result<TradeOutcome, TradeError>,
    markets_two: Map<u128, MarketView>,
    accounts_two: Map<Seq<char>, AccountView>,
    result_two: Result<TradeOutcome, TradeError>,
)
    requires
        trade_applied(
            markets_before,
            accounts_before,
            markets_one,
            accounts_one,
            trader,
            post_id,
            quantity,
            result_one,
        ),
        trade_applied(
            markets_before,
            accounts_before,
            markets_two,
            accounts_two,
            trader,
            post_id,
            quantity,
            result_two,
        ),
    ensures
        accounts_one == accounts_two,
        match (result_one, result_two) {
            (Ok(one), Ok(two)) => {
                &&& markets_one[post_id].post == markets_two[post_id].post
                &&& one.supply == two.supply
                &&& one.price == two.price
                &&& one.effective_cost == two.effective_cost
            },
            (Err(one), Err(two)) => one == two && markets_one == markets_two,
            _ => false,
        },
{
}

/// How far the price at a liquidation supply outside the curve's tolerance
/// of zero can be from the price it was computed for: 1.6e-14, a small
/// part of the tolerance.
pub const PRICE_SLACK: i128 = 16_001;

/// The quotient of a non-negative number by the scale, in bounds.
proof fn lemma_scale_quotient(n: int)
    by (nonlinear_arith)
    requires
        0 <= n,
    ensures
        0 <= (n / 1_000_000_000_000_000_000) * 1_000_000_000_000_000_000 <= n < (n
            / 1_000_000_000_000_000_000) * 1_000_000_000_000_000_000 + 1_000_000_000_000_000_000,
{
}

/// The square root of `m * SCALE`, where `m` is `base^2 / SCALE` rounded
/// down and above the curve's tolerance, is `base` or falls short of it by
/// no more than 16000.
proof fn lemma_root_of_scaled_square(base: int)
    requires
        0 <= base,
        base * base / 1_000_000_000_000_000_000 > 1_000_000_000,
    ensures
        base - 16_000 <= isqrt((base * base / 1_000_000_000_000_000_000) * 1_000_000_000_000_000_000)
            <= base,
{
    let n = base * base;
    assert(0 <= n) by (nonlinear_arith)
        requires
            n == base * base,
    ;
    lemma_scale_quotient(n);
    let m = n / 1_000_000_000_000_000_000;
    let scaled = m * 1_000_000_000_000_000_000;
    assert(is_isqrt(n, base)) by (nonlinear_arith)
        requires
            0 <= base,
            n == base * base,
    ;
    lemma_isqrt_is(n, base);
    lemma_isqrt_monotonic(scaled, n);
    lemma_isqrt_exists(scaled);
    assert(base > 31_622_776_601_683) by (nonlinear_arith)
        requires
            0 <= base,
            base * base >= 1_000_000_000_000_000_000_000_000_000,
    ;
    let short = base - 16_000;
    assert(short * short <= n - 1_000_000_000_000_000_000) by (nonlinear_arith)
        requires
            short == base - 16_000,
            base > 31_622_776_601_683,
            n == base * base,
    ;
    assert(is_isqrt(short * short, short)) by (nonlinear_arith)
        requires
            0 <= short,
    ;
    lemma_isqrt_is(short * short, short);
    assert(0 <= short * short) by (nonlinear_arith);
    lemma_isqrt_monotonic(short * short, scaled);
}

/// The liquidation supply inverts the curve: the price at the supply that
/// `supply_at_price` gives for a price is within the tolerance of that
/// price, wherever the supply is zero or outside the curve's tolerance of
/// zero (within it, but for zero itself, every supply is priced as zero).
pub proof fn lemma_supply_at_price_inverts(target_price: int)
    requires
        supply_at_price(target_price) is Some,
        supply_at_price(target_price).unwrap() == 0 || abs_int(
            supply_at_price(target_price).unwrap() as int,
        ) > BONDING_CURVE_EPSILON,
    ensures
        abs_int(price_at(supply_at_price(target_price).unwrap() as int) - target_price)
            < EPSILON,
        supply_at_price(target_price).unwrap() != 0 ==> abs_int(
            price_at(supply_at_price(target_price).unwrap() as int) - target_price,
        ) <= PRICE_SLACK,
{
    let unit = SCALE as int;
    assert(unit == 1_000_000_000_000_000_000);
    let supply = supply_at_price(target_price).unwrap() as int;
    if abs_int(target_price - unit) < BONDING_CURVE_EPSILON {
    } else if target_price > unit {
        let base = target_price - unit;
        assert(base * base >= 0) by (nonlinear_arith);
        assert(mul_amounts(base, base) == base * base / 1_000_000_000_000_000_000);
        assert(supply == base * base / 1_000_000_000_000_000_000);
        assert(base * base / 1_000_000_000_000_000_000 >= 1) by (nonlinear_arith)
            requires
                base >= 1_000_000_000,
        ;
        lemma_root_of_scaled_square(base);
        assert(supply * unit == (base * base / 1_000_000_000_000_000_000)
            * 1_000_000_000_000_000_000) by (nonlinear_arith)
            requires
                supply == base * base / 1_000_000_000_000_000_000,
                unit == 1_000_000_000_000_000_000,
        ;
    } else {
        let inverse = unit * unit / target_price;
        assert(unit * unit == 1_000_000_000_000_000_000_000_000_000_000_000_000)
            by (nonlinear_arith)
            requires
                unit == 1_000_000_000_000_000_000,
        ;
        assert(inverse * target_price <= unit * unit < inverse * target_price + target_price
            && inverse >= unit) by (nonlinear_arith)
            requires
                0 < target_price < unit,
                inverse == unit * unit / target_price,
                unit == 1_000_000_000_000_000_000,
        ;
        let base = inverse - unit;
        assert(base * base >= 0) by (nonlinear_arith);
        let m = base * base / 1_000_000_000_000_000_000;
        assert(m >= 0) by (nonlinear_arith)
            requires
                m == base * base / 1_000_000_000_000_000_000,
                base * base >= 0,
        ;
        assert(mul_amounts(base, base) == m);
        assert(supply == -m);
        assert(base >= 1_000_000_000) by (nonlinear_arith)
            requires
                0 < target_price <= unit - 1_000_000_000,
                unit * unit < inverse * target_price + target_price,
                base == inverse - unit,
                unit == 1_000_000_000_000_000_000,
        ;
        assert(m >= 1) by (nonlinear_arith)
            requires
                base >= 1_000_000_000,
                m == base * base / 1_000_000_000_000_000_000,
        ;
        lemma_root_of_scaled_square(base);
        let root = isqrt(m * 1_000_000_000_000_000_000);
        assert(sqrt_amount(-supply) == root) by {
            assert(-supply * unit == m * 1_000_000_000_000_000_000) by (nonlinear_arith)
                requires
                    supply == -m,
                    unit == 1_000_000_000_000_000_000,
            ;
        }
        lemma_isqrt_exists(m * 1_000_000_000_000_000_000);
        let price = unit * unit / (unit + root);
        assert(price_at(supply) == price);
        assert(target_price <= price <= target_price + 16_001) by (nonlinear_arith)
            requires
                0 < target_price < unit,
                unit == 1_000_000_000_000_000_000,
                0 <= root,
                base - 16_000 <= root <= base,
                base == inverse - unit,
                inverse * target_price <= unit * unit < inverse * target_price + target_price,
                price == unit * unit / (unit + root),
        ;
    }
}

/// At the liquidation supply of a position the owner's equity is spent: the
/// price there is within the tolerance of the liquidation price, at which
/// the collateral and the position's loss cancel.
pub proof fn lemma_price_at_liquidation_supply(
    balance: i128,
    total_realized_pnl: i128,
    position_size: i128,
    average_entry_price: i128,
)
    requires
        liquidation_supply(balance, total_realized_pnl, position_size, average_entry_price)
            matches Some(key) && (key == 0 || abs_int(key as int) > BONDING_CURVE_EPSILON),
    ensures
        liquidation_price(balance, total_realized_pnl, position_size, average_entry_price)
            is Some,
        abs_int(
            price_at(
                liquidation_supply(
                    balance,
                    total_realized_pnl,
                    position_size,
                    average_entry_price,
                ).unwrap() as int,
            ) - liquidation_price(
                balance,
                total_realized_pnl,
                position_size,
                average_entry_price,
            ).unwrap(),
        ) < EPSILON,
{
    lemma_supply_at_price_inverts(
        liquidation_price(
            balance,
            total_realized_pnl,
            position_size,
            average_entry_price,
        ).unwrap() as int,
    );
}

/// The equity of a user at a price, taking one position alone: the balance,
/// the realized profit and what the position would gain at that price.
pub open spec fn equity_at(
    balance: i128,
    total_realized_pnl: i128,
    position_size: i128,
    average_entry_price: i128,
    price: int,
) -> int {
    balance + total_realized_pnl + mul_amounts(price - average_entry_price, position_size as int)
}

/// What a division of a natural number leaves is less than the divisor.
proof fn lemma_floor_remainder(x: int, y: int)
    by (nonlinear_arith)
    requires
        0 <= x,
        0 < y,
    ensures
        0 <= x - (x / y) * y < y,
{
}

/// What a division rounded toward zero leaves is less than the divisor in
/// magnitude.
pub proof fn lemma_trunc_remainder(a: int, b: int)
    requires
        b != 0,
    ensures
        abs_int(a - trunc_div(a, b) * b) < abs_int(b),
{
    let x = abs_int(a);
    let y = abs_int(b);
    let q = x / y;
    lemma_floor_remainder(x, y);
    assert(q * b == (if b > 0 {
        q * y
    } else {
        -(q * y)
    })) by (nonlinear_arith)
        requires
            y == abs_int(b),
    ;
    assert((-q) * b == -(q * b)) by (nonlinear_arith);
}

/// At the liquidation supply of a position the owner's equity is spent:
/// taking the position alone, the equity at the price of that supply is
/// zero within the tolerance times one plus the size of the position. This
/// holds wherever the liquidation supply is zero or outside the curve's
/// tolerance of zero.
pub proof fn lemma_equity_spent_at_liquidation_supply(
    balance: i128,
    total_realized_pnl: i128,
    position_size: i128,
    average_entry_price: i128,
)
    requires
        liquidation_supply(balance, total_realized_pnl, position_size, average_entry_price)
            matches Some(key) && (key == 0 || abs_int(key as int) > BONDING_CURVE_EPSILON),
    ensures
        abs_int(
            equity_at(
                balance,
                total_realized_pnl,
                position_size,
                average_entry_price,
                price_at(
                    liquidation_supply(
                        balance,
                        total_realized_pnl,
                        position_size,
                        average_entry_price,
                    ).unwrap() as int,
                ),
            ),
        ) * SCALE <= EPSILON * (SCALE + abs_int(position_size as int)),
{
    lemma_price_at_liquidation_supply(
        balance,
        total_realized_pnl,
        position_size,
        average_entry_price,
    );
    let key = liquidation_supply(
        balance,
        total_realized_pnl,
        position_size,
        average_entry_price,
    ).unwrap();
    let unit = SCALE as int;
    let size = position_size as int;
    let collateral = balance + total_realized_pnl;
    let per_unit = div_amounts(collateral, size);
    let target = average_entry_price - per_unit;
    let price = price_at(key as int);
    let off = price - target;
    let gain = (price - average_entry_price) * size;
    let settled = trunc_div(gain, unit);
    lemma_trunc_remainder(collateral * unit, size);
    lemma_trunc_remainder(gain, unit);
    assert(gain == off * size - per_unit * size) by (nonlinear_arith)
        requires
            gain == (price - average_entry_price) * size,
            off == price - (average_entry_price - per_unit),
    ;
    assert(abs_int(off * size) <= 999_999_999 * abs_int(size)) by (nonlinear_arith)
        requires
            abs_int(off) <= 999_999_999,
    ;
    assert((collateral + settled) * unit == collateral * unit + settled * unit)
        by (nonlinear_arith);
    assert(abs_int((collateral + settled) * unit) == abs_int(collateral + settled) * unit)
        by (nonlinear_arith)
        requires
            unit > 0,
    ;
    assert(1_000_000_000 * (unit + abs_int(size)) == 1_000_000_000 * unit + 1_000_000_000
        * abs_int(size)) by (nonlinear_arith);
}

/// At every threshold of an index that matches the accounts, if it is zero
/// or outside the curve's tolerance of zero, the price is within the
/// tolerance of the liquidation price of each user recorded there.
pub proof fn lemma_threshold_keys_invert_price(
    index: Map<i128, Seq<LiquidationEntry>>,
    accounts: Map<Seq<char>, AccountView>,
    post_id: u128,
    key: i128,
    i: int,
)
    requires
        thresholds_match(index, accounts, post_id),
        has_entry(index, key, i),
        key == 0 || abs_int(key as int) > BONDING_CURVE_EPSILON,
    ensures
        ({
            let account = accounts[index[key][i].user_id@];
            let position = held_in(account.positions, post_id);
            &&& crate::calculations::average_price(position) is Some
            &&& liquidation_price(
                account.balance,
                account.realized_pnl,
                position.size,
                crate::calculations::average_price(position).unwrap(),
            ) matches Some(target) && abs_int(price_at(key as int) - target) < EPSILON
        }),
{
    assert(entry_matches(index[key][i], key, accounts, post_id));
    let account = accounts[index[key][i].user_id@];
    let position = held_in(account.positions, post_id);
    lemma_price_at_liquidation_supply(
        account.balance,
        account.realized_pnl,
        position.size,
        crate::calculations::average_price(position).unwrap(),
    );
}

/// At every threshold of an index that matches the accounts, if it is zero
/// or outside the curve's tolerance of zero, the equity of each user
/// recorded there (taking the position in the post alone) is zero within
/// the tolerance times one plus the size of the position.
pub proof fn lemma_equity_spent_at_threshold_keys(
    index: Map<i128, Seq<LiquidationEntry>>,
    accounts: Map<Seq<char>, AccountView>,
    post_id: u128,
    key: i128,
    i: int,
)
    requires
        thresholds_match(index, accounts, post_id),
        has_entry(index, key, i),
        key == 0 || abs_int(key as int) > BONDING_CURVE_EPSILON,
    ensures
        ({
            let account = accounts[index[key][i].user_id@];
            let position = held_in(account.positions, post_id);
            &&& crate::calculations::average_price(position) is Some
            &&& abs_int(
                equity_at(
                    account.balance,
                    account.realized_pnl,
                    position.size,
                    crate::calculations::average_price(position).unwrap(),
                    price_at(key as int),
                ),
            ) * SCALE <= EPSILON * (SCALE + abs_int(position.size as int))
        }),
{
    assert(entry_matches(index[key][i], key, accounts, post_id));
    let account = accounts[index[key][i].user_id@];
    let position = held_in(account.positions, post_id);
    lemma_equity_spent_at_liquidation_supply(
        account.balance,
        account.realized_pnl,
        position.size,
        crate::calculations::average_price(position).unwrap(),
    );
}

/// Every market's liquidation thresholds are those that the accounts give
/// it.
pub open spec fn thresholds_fresh(
    markets: Map<u128, MarketView>,
    accounts: Map<Seq<char>, AccountView>,
) -> bool {
    forall|id: u128| #[trigger]
        markets.contains_key(id) ==> thresholds_match(markets[id].thresholds, accounts, id)
}

/// The liquidation threshold that a user has in a post.
pub open spec fn threshold_for(
    accounts: Map<Seq<char>, AccountView>,
    user_id: Seq<char>,
    post_id: u128,
) -> Option<Threshold> {
    if accounts.contains_key(user_id) {
        threshold_of(accounts[user_id], post_id)
    } else {
        None
    }
}

/// An index that matches the accounts matches all accounts that give every
/// user the same threshold in the post.
pub proof fn lemma_thresholds_match_same_thresholds(
    index: Map<i128, Seq<LiquidationEntry>>,
    before: Map<Seq<char>, AccountView>,
    after: Map<Seq<char>, AccountView>,
    post_id: u128,
)
    requires
        thresholds_match(index, before, post_id),
        forall|user_id: Seq<char>| #[trigger]
            threshold_for(before, user_id, post_id) == threshold_for(after, user_id, post_id),
    ensures
        thresholds_match(index, after, post_id),
{
    assert forall|key: i128, i: int| has_entry(index, key, i) implies entry_matches(
        index[key][i],
        key,
        after,
        post_id,
    ) by {
        assert(entry_matches(index[key][i], key, before, post_id));
        let user_id = index[key][i].user_id@;
        assert(threshold_for(before, user_id, post_id) == threshold_for(after, user_id, post_id));
    }
    assert forall|user_id: Seq<char>|
        after.contains_key(user_id) && threshold_of(
            after[user_id],
            post_id,
        ) is Some implies lists_user(index, user_id) by {
        assert(threshold_for(before, user_id, post_id) == threshold_for(after, user_id, post_id));
    }
}

/// What the liquidations of a trade leave of the accounts: the same users,
/// each with the same balance and the same positions in every other post,
/// and the whole account of every user that is not liquidated.
pub proof fn lemma_settle_keeps(
    accounts: Map<Seq<char>, AccountView>,
    liquidated: Seq<(String, i128)>,
    from: int,
    post_id: u128,
)
    requires
        0 <= from <= liquidated.len(),
        settle_from(accounts, liquidated, from, post_id) is Some,
    ensures
        settle_from(accounts, liquidated, from, post_id).unwrap().dom() == accounts.dom(),
        forall|user_id: Seq<char>| #[trigger]
            accounts.contains_key(user_id) ==> settle_from(
                accounts,
                liquidated,
                from,
                post_id,
            ).unwrap()[user_id].balance == accounts[user_id].balance,
        forall|user_id: Seq<char>, other: u128|
            accounts.contains_key(user_id) && other != post_id ==> #[trigger] position_of(
                settle_from(accounts, liquidated, from, post_id).unwrap()[user_id].positions,
                other,
            ) == position_of(accounts[user_id].positions, other),
        forall|user_id: Seq<char>| #[trigger]
            accounts.contains_key(user_id) && !named_from(liquidated, from, user_id) ==> settle_from(
                accounts,
                liquidated,
                from,
                post_id,
            ).unwrap()[user_id] == accounts[user_id],
    decreases liquidated.len() - from,
{
    if from < liquidated.len() {
        let name = liquidated[from].0@;
        let settled = settle_from(accounts, liquidated, from, post_id).unwrap();
        if accounts.contains_key(name) {
            let account = liquidated_after(accounts[name], post_id, liquidated[from].1).unwrap();
            let next = accounts.insert(name, account);
            lemma_settle_keeps(next, liquidated, from + 1, post_id);
            assert(next.dom() =~= accounts.dom());
            assert forall|user_id: Seq<char>| #[trigger]
                accounts.contains_key(user_id) implies settled[user_id].balance
                == accounts[user_id].balance by {
                assert(next.contains_key(user_id));
            }
            assert forall|user_id: Seq<char>, other: u128|
                accounts.contains_key(user_id) && other != post_id implies #[trigger] position_of(
                settled[user_id].positions,
                other,
            ) == position_of(accounts[user_id].positions, other) by {
                assert(next.contains_key(user_id));
                if user_id == name {
                    lemma_position_removed_elsewhere(accounts[name].positions, post_id, other);
                }
            }
            assert forall|user_id: Seq<char>| #[trigger]
                accounts.contains_key(user_id) && !named_from(
                    liquidated,
                    from,
                    user_id,
                ) implies settled[user_id] == accounts[user_id] by {
                assert(next.contains_key(user_id));
            }
        } else {
            lemma_settle_keeps(accounts, liquidated, from + 1, post_id);
        }
    }
}

/// Whether one of `liquidated[from..]` is the user.
pub open spec fn named_from(liquidated: Seq<(String, i128)>, from: int, user_id: Seq<char>) -> bool
    decreases liquidated.len() - from,
{
    if from < 0 || from >= liquidated.len() {
        false
    } else {
        liquidated[from].0@ == user_id || named_from(liquidated, from + 1, user_id)
    }
}

/// One of the liquidated is a liquidated user.
pub proof fn lemma_named_is_liquidated(liquidated: Seq<(String, i128)>, from: int, user_id: Seq<char>)
    requires
        0 <= from,
        named_from(liquidated, from, user_id),
    ensures
        exists|i: int| from <= i < liquidated.len() && #[trigger] liquidated[i].0@ == user_id,
    decreases liquidated.len() - from,
{
    if liquidated[from].0@ != user_id {
        lemma_named_is_liquidated(liquidated, from + 1, user_id);
    }
}

/// The users that a trade touches include every user named before and
/// every liquidated user.
pub proof fn lemma_affected_names(users: Seq<String>, liquidated: Seq<(String, i128)>, from: int)
    requires
        0 <= from <= liquidated.len(),
    ensures
        forall|user_id: Seq<char>|
            names_user(users, user_id) ==> names_user(
                affected_from(users, liquidated, from),
                user_id,
            ),
        forall|i: int|
            from <= i < liquidated.len() ==> names_user(
                affected_from(users, liquidated, from),
                #[trigger] liquidated[i].0@,
            ),
    decreases liquidated.len() - from,
{
    if from < liquidated.len() {
        let name = liquidated[from].0@;
        if names_user(users, name) {
            lemma_affected_names(users, liquidated, from + 1);
        } else {
            let more = users.push(liquidated[from].0);
            lemma_affected_names(more, liquidated, from + 1);
            assert(more[users.len() as int]@ == name);
            assert(names_user(more, name));
            assert forall|user_id: Seq<char>| names_user(users, user_id) implies names_user(
                more,
                user_id,
            ) by {
                let w = choose|w: int| 0 <= w < users.len() && users[w]@ == user_id;
                assert(more[w]@ == user_id);
            }
        }
    }
}

/// Trades keep the liquidation thresholds fresh: if, before a trade
/// request, every market's thresholds are those that the accounts give it,
/// then so they are afterwards, whether the trade was carried out or
/// refused.
pub proof fn lemma_trade_keeps_thresholds_fresh(
    markets_before: Map<u128, MarketView>,
    accounts_before: Map<Seq<char>, AccountView>,
    markets_after: Map<u128, MarketView>,
    accounts_after: Map<Seq<char>, AccountView>,
    trader: Seq<char>,
    post_id: u128,
    quantity: i128,
    result: Result<TradeOutcome, TradeError>,
)
    requires
        trade_applied(
            markets_before,
            accounts_before,
            markets_after,
            accounts_after,
            trader,
            post_id,
            quantity,
            result,
        ),
        thresholds_fresh(markets_before, accounts_before),
    ensures
        thresholds_fresh(markets_after, accounts_after),
{
    let ensured = with_user(accounts_before, trader);
    match result {
        Ok(outcome) => {
            let settlement = trade_settlement(markets_before, ensured, trader, post_id, quantity)->Ok_0;
            let affected = outcome.affected_users@;
            let account = trader_after(ensured[trader], post_id, quantity, settlement.cost).unwrap();
            let traded = ensured.insert(trader, account);
            assert(accounts_after_trade(
                ensured,
                trader,
                post_id,
                quantity,
                settlement.cost,
                settlement.liquidated,
            ) == Some(accounts_after));
            lemma_settle_keeps(traded, settlement.liquidated, 0, post_id);
            lemma_affected_names(seq![affected[0]], settlement.liquidated, 0);
            assert(names_user(seq![affected[0]], trader)) by {
                assert(seq![affected[0]][0]@ == trader);
            }
            assert(names_user(affected, trader));
            let held = position_after(
                held_in(ensured[trader].positions, post_id),
                quantity,
                settlement.cost,
            ).unwrap();
            let patched = markets_before.insert(post_id, markets_after[post_id]);
            assert forall|id: u128| #[trigger] markets_after.contains_key(id) implies thresholds_match(
                markets_after[id].thresholds,
                accounts_after,
                id,
            ) by {
                if id != post_id && !thresholds_match(
                    markets_after[id].thresholds,
                    accounts_after,
                    id,
                ) {
                    assert(patched.contains_key(id));
                    assert(markets_before.contains_key(id));
                    assert(markets_after[id].thresholds == markets_before[id].thresholds);
                    assert(!holds_position(affected, accounts_after, id));
                    assert forall|user_id: Seq<char>| #[trigger]
                        threshold_for(accounts_before, user_id, id) == threshold_for(
                            accounts_after,
                            user_id,
                            id,
                        ) by {
                        if accounts_after.contains_key(user_id) {
                            assert(traded.contains_key(user_id));
                            assert(position_of(accounts_after[user_id].positions, id)
                                == position_of(traded[user_id].positions, id));
                            if names_user(affected, user_id) {
                                let w = choose|w: int|
                                    0 <= w < affected.len() && affected[w]@ == user_id;
                                assert(accounts_after.contains_key(affected[w]@));
                                assert(position_of(accounts_after[user_id].positions, id) is None);
                                if user_id == trader {
                                    lemma_position_set_elsewhere(
                                        ensured[trader].positions,
                                        post_id,
                                        held,
                                        id,
                                    );
                                }
                            } else {
                                assert(user_id != trader);
                                if named_from(settlement.liquidated, 0, user_id) {
                                    lemma_named_is_liquidated(settlement.liquidated, 0, user_id);
                                    let i = choose|i: int|
                                        0 <= i < settlement.liquidated.len()
                                            && #[trigger] settlement.liquidated[i].0@ == user_id;
                                    assert(names_user(affected, settlement.liquidated[i].0@));
                                }
                                assert(accounts_after[user_id] == traded[user_id]);
                            }
                        }
                    }
                    lemma_thresholds_match_same_thresholds(
                        markets_before[id].thresholds,
                        accounts_before,
                        accounts_after,
                        id,
                    );
                }
            }
        },
        Err(_) => {
            assert forall|id: u128| #[trigger] markets_after.contains_key(id) implies thresholds_match(
                markets_after[id].thresholds,
                accounts_after,
                id,
            ) by {
                assert forall|user_id: Seq<char>| #[trigger]
                    threshold_for(accounts_before, user_id, id) == threshold_for(
                        accounts_after,
                        user_id,
                        id,
                    ) by {}
                lemma_thresholds_match_same_thresholds(
                    markets_before[id].thresholds,
                    accounts_before,
                    accounts_after,
                    id,
                );
            }
        },
    }
}

/// Opening a market keeps the liquidation thresholds fresh.
pub proof fn lemma_open_market_keeps_thresholds_fresh(
    markets_before: Map<u128, MarketView>,
    markets_after: Map<u128, MarketView>,
    accounts: Map<Seq<char>, AccountView>,
    post: crate::models::Post,
)
    requires
        market_opened(markets_before, markets_after, accounts, post),
        thresholds_fresh(markets_before, accounts),
    ensures
        thresholds_fresh(markets_after, accounts),
{
    assert forall|id: u128| #[trigger] markets_after.contains_key(id) implies thresholds_match(
        markets_after[id].thresholds,
        accounts,
        id,
    ) by {
        if id != post.id {
            assert(markets_before.contains_key(id));
        }
    }
}

/// Giving a user an initial account keeps the liquidation thresholds fresh.
pub proof fn lemma_new_user_keeps_thresholds_fresh(
    markets: Map<u128, MarketView>,
    accounts: Map<Seq<char>, AccountView>,
    user_id: Seq<char>,
)
    requires
        thresholds_fresh(markets, accounts),
    ensures
        thresholds_fresh(markets, with_user(accounts, user_id)),
{
    let after = with_user(accounts, user_id);
    assert forall|id: u128| #[trigger] markets.contains_key(id) implies thresholds_match(
        markets[id].thresholds,
        after,
        id,
    ) by {
        assert forall|other: Seq<char>| #[trigger]
            threshold_for(accounts, other, id) == threshold_for(after, other, id) by {}
        lemma_thresholds_match_same_thresholds(markets[id].thresholds, accounts, after, id);
    }
}

/// A position of negligible size has no cost basis.
pub open spec fn position_settled(position: UserPositionDetail) -> bool {
    abs_int(position.size as int) < EPSILON ==> position.total_cost_basis == 0
}

/// An account is consistent: its exposure is the sum of the magnitudes of
/// the cost bases of its positions, every position of negligible size has
/// no cost basis, and no two positions are held in the same post.
pub open spec fn account_consistent(account: AccountView) -> bool {
    &&& exposure_of(account.positions) == Some(account.exposure)
    &&& forall|i: int|
        0 <= i < account.positions.len() ==> position_settled(
            #[trigger] account.positions[i].detail,
        )
    &&& forall|i: int, j: int|
        0 <= i < j < account.positions.len() ==> account.positions[i].post_id
            != account.positions[j].post_id
}

/// Every account is consistent.
pub open spec fn accounts_consistent(accounts: Map<Seq<char>, AccountView>) -> bool {
    forall|user_id: Seq<char>| #[trigger]
        accounts.contains_key(user_id) ==> account_consistent(accounts[user_id])
}

/// Every post is quoted at the price of its supply.
pub open spec fn prices_current(markets: Map<u128, MarketView>) -> bool {
    forall|id: u128| #[trigger]
        markets.contains_key(id) ==> markets[id].post.price == Some(
            price_at(markets[id].post.supply as int) as i128,
        )
}

/// A trade keeps the trader's account consistent.
pub proof fn lemma_trader_stays_consistent(
    account: AccountView,
    post_id: u128,
    quantity: i128,
    cost: i128,
)
    requires
        account_consistent(account),
        trader_after(account, post_id, quantity, cost) is Some,
    ensures
        account_consistent(trader_after(account, post_id, quantity, cost).unwrap()),
{
    let position = position_after(held_in(account.positions, post_id), quantity, cost).unwrap();
    let after = with_position(account.positions, post_id, position);
    lemma_position_slot(account.positions, post_id, 0);
    let slot = position_slot(account.positions, post_id, 0);
    assert(position_settled(position));
    assert forall|i: int| 0 <= i < after.len() implies position_settled(#[trigger] after[i].detail) by {
        if i != slot {
            assert(after[i] == account.positions[i]);
        }
    }
    assert forall|i: int, j: int| 0 <= i < j < after.len() implies after[i].post_id
        != after[j].post_id by {
        if i != slot && j != slot {
            assert(after[i] == account.positions[i] && after[j] == account.positions[j]);
        }
    }
}

/// A liquidation keeps the liquidated user's account consistent.
pub proof fn lemma_liquidated_stays_consistent(account: AccountView, post_id: u128, pnl: i128)
    requires
        account_consistent(account),
        liquidated_after(account, post_id, pnl) is Some,
    ensures
        account_consistent(liquidated_after(account, post_id, pnl).unwrap()),
{
    if position_of(account.positions, post_id) is Some {
        let after = without_position(account.positions, post_id);
        lemma_position_slot(account.positions, post_id, 0);
        let slot = position_slot(account.positions, post_id, 0);
        assert forall|i: int| 0 <= i < after.len() implies position_settled(
            #[trigger] after[i].detail,
        ) by {
            if i < slot {
                assert(after[i] == account.positions[i]);
            } else {
                assert(after[i] == account.positions[i + 1]);
            }
        }
        assert forall|i: int, j: int| 0 <= i < j < after.len() implies after[i].post_id
            != after[j].post_id by {
            let before_i = if i < slot {
                i
            } else {
                i + 1
            };
            let before_j = if j < slot {
                j
            } else {
                j + 1
            };
            assert(after[i] == account.positions[before_i]);
            assert(after[j] == account.positions[before_j]);
        }
    }
}

/// The liquidations of a trade keep the accounts consistent.
pub proof fn lemma_settle_stays_consistent(
    accounts: Map<Seq<char>, AccountView>,
    liquidated: Seq<(String, i128)>,
    from: int,
    post_id: u128,
)
    requires
        0 <= from <= liquidated.len(),
        accounts_consistent(accounts),
        settle_from(accounts, liquidated, from, post_id) is Some,
    ensures
        accounts_consistent(settle_from(accounts, liquidated, from, post_id).unwrap()),
    decreases liquidated.len() - from,
{
    if from < liquidated.len() {
        let name = liquidated[from].0@;
        if accounts.contains_key(name) {
            lemma_liquidated_stays_consistent(accounts[name], post_id, liquidated[from].1);
            let account = liquidated_after(accounts[name], post_id, liquidated[from].1).unwrap();
            let next = accounts.insert(name, account);
            assert forall|user_id: Seq<char>| #[trigger]
                next.contains_key(user_id) implies account_consistent(next[user_id]) by {
                if user_id != name {
                    assert(accounts.contains_key(user_id));
                }
            }
            lemma_settle_stays_consistent(next, liquidated, from + 1, post_id);
        } else {
            lemma_settle_stays_consistent(accounts, liquidated, from + 1, post_id);
        }
    }
}

/// Trades keep the state consistent: if, before a trade request, every
/// account is consistent and every post is quoted at the price of its
/// supply, then so it is afterwards, whether the trade was carried out or
/// refused.
pub proof fn lemma_trade_keeps_state_consistent(
    markets_before: Map<u128, MarketView>,
    accounts_before: Map<Seq<char>, AccountView>,
    markets_after: Map<u128, MarketView>,
    accounts_after: Map<Seq<char>, AccountView>,
    trader: Seq<char>,
    post_id: u128,
    quantity: i128,
    result: Result<TradeOutcome, TradeError>,
)
    requires
        trade_applied(
            markets_before,
            accounts_before,
            markets_after,
            accounts_after,
            trader,
            post_id,
            quantity,
            result,
        ),
        accounts_consistent(accounts_before),
        prices_current(markets_before),
    ensures
        accounts_consistent(accounts_after),
        prices_current(markets_after),
{
    let ensured = with_user(accounts_before, trader);
    lemma_new_user_stays_consistent(accounts_before, trader);
    match result {
        Ok(outcome) => {
            let settlement = trade_settlement(markets_before, ensured, trader, post_id, quantity)->Ok_0;
            lemma_trader_stays_consistent(ensured[trader], post_id, quantity, settlement.cost);
            let account = trader_after(ensured[trader], post_id, quantity, settlement.cost).unwrap();
            let traded = ensured.insert(trader, account);
            assert forall|user_id: Seq<char>| #[trigger]
                traded.contains_key(user_id) implies account_consistent(traded[user_id]) by {
                if user_id != trader {
                    assert(ensured.contains_key(user_id));
                }
            }
            lemma_settle_stays_consistent(traded, settlement.liquidated, 0, post_id);
            let patched = markets_before.insert(post_id, markets_after[post_id]);
            assert forall|id: u128| #[trigger] markets_after.contains_key(id) implies markets_after[id].post.price
                == Some(price_at(markets_after[id].post.supply as int) as i128) by {
                assert(patched.contains_key(id));
                if id != post_id {
                    assert(markets_before.contains_key(id));
                }
            }
        },
        Err(_) => {},
    }
}

/// Giving a user an initial account keeps the accounts consistent.
pub proof fn lemma_new_user_stays_consistent(
    accounts: Map<Seq<char>, AccountView>,
    user_id: Seq<char>,
)
    requires
        accounts_consistent(accounts),
    ensures
        accounts_consistent(with_user(accounts, user_id)),
{
    let after = with_user(accounts, user_id);
    assert(account_consistent(initial_account()));
    assert forall|other: Seq<char>| #[trigger] after.contains_key(other) implies account_consistent(
        after[other],
    ) by {
        if other != user_id {
            assert(accounts.contains_key(other));
        }
    }
}

/// The state is sound: every account is consistent, every post is quoted at
/// the price of its supply, and every market's liquidation thresholds are
/// those that the accounts give it.
pub open spec fn state_sound(
    markets: Map<u128, MarketView>,
    accounts: Map<Seq<char>, AccountView>,
) -> bool {
    &&& accounts_consistent(accounts)
    &&& prices_current(markets)
    &&& thresholds_fresh(markets, accounts)
}

/// The state without markets and accounts is sound.
pub proof fn lemma_empty_state_is_sound()
    ensures
        state_sound(Map::empty(), Map::empty()),
{
}

/// Admitting a session keeps the state sound.
pub proof fn lemma_new_user_keeps_state_sound(
    markets: Map<u128, MarketView>,
    accounts: Map<Seq<char>, AccountView>,
    user_id: Seq<char>,
)
    requires
        state_sound(markets, accounts),
    ensures
        state_sound(markets, with_user(accounts, user_id)),
{
    lemma_new_user_keeps_thresholds_fresh(markets, accounts, user_id);
    lemma_new_user_stays_consistent(accounts, user_id);
}

/// Requests keep the state sound: if the state is sound before a request of
/// a session, it is sound once the request is handled. With the two
/// theorems before, every state that the engine reaches from the empty
/// state is sound.
pub proof fn lemma_request_keeps_state_sound(
    markets_before: Map<u128, MarketView>,
    accounts_before: Map<Seq<char>, AccountView>,
    markets_after: Map<u128, MarketView>,
    accounts_after: Map<Seq<char>, AccountView>,
    client_id: u128,
    user_id: Seq<char>,
    msg: ClientMessage,
    clients: Seq<Client>,
    deliveries: Seq<Delivery>,
)
    requires
        request_handled(
            markets_before,
            accounts_before,
            markets_after,
            accounts_after,
            client_id,
            user_id,
            msg,
            clients,
            deliveries,
        ),
        state_sound(markets_before, accounts_before),
    ensures
        state_sound(markets_after, accounts_after),
{
    let ensured = with_user(accounts_before, user_id);
    lemma_new_user_keeps_state_sound(markets_before, accounts_before, user_id);
    assert(with_user(ensured, user_id) == ensured);
    match msg {
        ClientMessage::CreatePost { content } => {
            let post = deliveries[0].message->NewPost_post;
            lemma_open_market_keeps_thresholds_fresh(
                markets_before,
                markets_after,
                accounts_after,
                post,
            );
            assert forall|id: u128| #[trigger] markets_after.contains_key(id) implies markets_after[id].post.price
                == Some(price_at(markets_after[id].post.supply as int) as i128) by {
                if id != post.id {
                    assert(markets_before.contains_key(id));
                }
            }
        },
        ClientMessage::Buy { post_id, quantity } => {
            let result = choose|result: Result<TradeOutcome, TradeError>|
                #[trigger] is_trade_reply(
                    deliveries,
                    client_id,
                    result,
                    clients,
                    accounts_after,
                    markets_after,
                ) && trade_handled(
                    markets_before,
                    ensured,
                    markets_after,
                    accounts_after,
                    user_id,
                    post_id,
                    quantity,
                    quantity,
                    result,
                );
            if quantity > EPSILON {
                lemma_trade_keeps_thresholds_fresh(
                    markets_before,
                    ensured,
                    markets_after,
                    accounts_after,
                    user_id,
                    post_id,
                    quantity,
                    result,
                );
                lemma_trade_keeps_state_consistent(
                    markets_before,
                    ensured,
                    markets_after,
                    accounts_after,
                    user_id,
                    post_id,
                    quantity,
                    result,
                );
            }
        },
        ClientMessage::Sell { post_id, quantity } => {
            let result = choose|result: Result<TradeOutcome, TradeError>|
                #[trigger] is_trade_reply(
                    deliveries,
                    client_id,
                    result,
                    clients,
                    accounts_after,
                    markets_after,
                ) && trade_handled(
                    markets_before,
                    ensured,
                    markets_after,
                    accounts_after,
                    user_id,
                    post_id,
                    quantity,
                    (-quantity) as i128,
                    result,
                );
            if quantity > EPSILON {
                lemma_trade_keeps_thresholds_fresh(
                    markets_before,
                    ensured,
                    markets_after,
                    accounts_after,
                    user_id,
                    post_id,
                    (-quantity) as i128,
                    result,
                );
                lemma_trade_keeps_state_consistent(
                    markets_before,
                    ensured,
                    markets_after,
                    accounts_after,
                    user_id,
                    post_id,
                    (-quantity) as i128,
                    result,
                );
            }
        },
    }
}

/// The sum of the supply changes of the forced trades `entries[from..]`.
pub open spec fn unwound_size(entries: Seq<LiquidationEntry>, from: int) -> int
    decreases entries.len() - from,
{
    if from < 0 || from >= entries.len() {
        0
    } else {
        entries[from].size_unwind + unwound_size(entries, from + 1)
    }
}

/// The sum of the costs of the forced trades `entries[from..]`.
pub open spec fn unwound_cost(entries: Seq<LiquidationEntry>, from: int) -> int
    decreases entries.len() - from,
{
    if from < 0 || from >= entries.len() {
        0
    } else {
        entries[from].cost_unwind + unwound_cost(entries, from + 1)
    }
}

/// The forced trades of one threshold move the supply by the sum of their
/// sizes and add the sum of their costs.
pub proof fn lemma_unwind_sums(entries: Seq<LiquidationEntry>, from: int, supply: i128, cost: i128)
    requires
        0 <= from <= entries.len(),
        unwind_from(entries, from, supply, cost) is Some,
    ensures
        unwind_from(entries, from, supply, cost).unwrap().0 == supply + unwound_size(entries, from),
        unwind_from(entries, from, supply, cost).unwrap().1 == cost + unwound_cost(entries, from),
    decreases entries.len() - from,
{
    if from < entries.len() {
        lemma_unwind_sums(
            entries,
            from + 1,
            (supply + entries[from].size_unwind) as i128,
            (cost + entries[from].cost_unwind) as i128,
        );
    }
}

/// The sizes of forced trades add up over a sequence and one that follows
/// it.
pub proof fn lemma_unwound_size_splits(
    first: Seq<LiquidationEntry>,
    second: Seq<LiquidationEntry>,
    from: int,
)
    requires
        0 <= from <= first.len(),
    ensures
        unwound_size(first + second, from) == unwound_size(first, from) + unwound_size(second, 0),
    decreases first.len() + second.len() - from,
{
    let both = first + second;
    if from < first.len() {
        assert(both[from] == first[from]);
        lemma_unwound_size_splits(first, second, from + 1);
    } else {
        lemma_unwound_size_shifts(first, second, 0);
    }
}

/// The sizes of forced trades that follow a sequence add up as they do
/// alone.
pub proof fn lemma_unwound_size_shifts(
    first: Seq<LiquidationEntry>,
    second: Seq<LiquidationEntry>,
    from: int,
)
    requires
        0 <= from <= second.len(),
    ensures
        unwound_size(first + second, first.len() + from) == unwound_size(second, from),
    decreases second.len() - from,
{
    let both = first + second;
    if from < second.len() {
        assert(both[first.len() + from] == second[from]);
        lemma_unwound_size_shifts(first, second, from + 1);
    }
}

/// A trade conserves supply: where it ends, the supply has moved by the
/// quantity traded and by the sizes of all forced trades on the way, up to
/// a remainder of no more than the tolerance that is left untraded.
pub proof fn lemma_trade_conserves_supply(
    index: Map<i128, Seq<LiquidationEntry>>,
    supply: i128,
    remaining: i128,
    cost: i128,
    unwound: Seq<LiquidationEntry>,
)
    requires
        walk(index, supply, remaining, cost, unwound) is Some,
    ensures
        ({
            let end = walk(index, supply, remaining, cost, unwound).unwrap();
            &&& end.unwound.len() >= unwound.len()
            &&& end.unwound.subrange(0, unwound.len() as int) == unwound
            &&& abs_int(
                supply + remaining + unwound_size(end.unwound, unwound.len() as int) - end.supply,
            ) <= EPSILON
        }),
    decreases abs_int(remaining as int),
{
    let end = walk(index, supply, remaining, cost, unwound).unwrap();
    if abs_int(remaining as int) <= EPSILON {
        assert(end.unwound.subrange(0, unwound.len() as int) =~= unwound);
        lemma_unwound_size_shifts(unwound, Seq::empty(), 0);
        assert(unwound + Seq::<LiquidationEntry>::empty() =~= unwound);
    } else {
        let key = next_threshold(index.dom(), supply, remaining > 0);
        if reaches(key, supply, remaining) {
            let k = key.unwrap();
            let paid = add_segment(cost, supply, k).unwrap();
            let jumped = unwind_from(index[k], 0, k, paid).unwrap();
            let rest = (remaining - (k - supply)) as i128;
            let more = unwound + index[k];
            lemma_unwind_sums(index[k], 0, k, paid);
            lemma_trade_conserves_supply(index, jumped.0, rest, jumped.1, more);
            assert(end.unwound.subrange(0, unwound.len() as int) =~= more.subrange(
                0,
                unwound.len() as int,
            )) by {
                assert(end.unwound.subrange(0, more.len() as int) == more);
                assert forall|i: int| 0 <= i < unwound.len() implies end.unwound[i] == more[i] by {
                    assert(end.unwound.subrange(0, more.len() as int)[i] == end.unwound[i]);
                }
            }
            assert(more.subrange(0, unwound.len() as int) =~= unwound);
            let tail = end.unwound.subrange(more.len() as int, end.unwound.len() as int);
            assert(end.unwound =~= more + tail) by {
                assert forall|i: int| 0 <= i < more.len() implies end.unwound[i] == more[i] by {
                    assert(end.unwound.subrange(0, more.len() as int)[i] == end.unwound[i]);
                }
            }
            assert(more + tail =~= unwound + (index[k] + tail));
            lemma_unwound_size_shifts(more, tail, 0);
            lemma_unwound_size_shifts(unwound, index[k] + tail, 0);
            lemma_unwound_size_splits(index[k], tail, 0);
        } else {
            let stop = (supply + remaining) as i128;
            let paid = add_segment(cost, supply, stop).unwrap();
            if ends_at(key, stop) {
                let k = key.unwrap();
                lemma_unwind_sums(index[k], 0, stop, paid);
                assert(end.unwound == unwound + index[k]);
                assert(end.unwound.subrange(0, unwound.len() as int) =~= unwound);
                lemma_unwound_size_shifts(unwound, index[k], 0);
            } else {
                assert(end.unwound.subrange(0, unwound.len() as int) =~= unwound);
                lemma_unwound_size_shifts(unwound, Seq::empty(), 0);
                assert(unwound + Seq::<LiquidationEntry>::empty() =~= unwound);
            }
        }
    }
}

/// An exposure is never below zero.
pub proof fn lemma_exposure_non_negative(positions: Seq<HeldPosition>, from: int, sum: i128)
    requires
        0 <= from <= positions.len(),
        0 <= sum,
        exposure_from(positions, from, sum) is Some,
    ensures
        exposure_from(positions, from, sum).unwrap() >= sum,
    decreases positions.len() - from,
{
    if from < positions.len() {
        lemma_exposure_non_negative(
            positions,
            from + 1,
            (sum + abs_int(positions[from].detail.total_cost_basis as int)) as i128,
        );
    }
}

} // verus!
