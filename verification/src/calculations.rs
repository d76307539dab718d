//! Positions and trades: the average entry price, the unrealized profit and
//! the liquidation supply of a position, and the execution of one trade
//! through the liquidation thresholds that it crosses.

use vstd::prelude::*;
use crate::bonding_curve::{calculate_smooth_cost, get_price, price_at, priced};
use crate::constants::{BONDING_CURVE_EPSILON, EPSILON, INITIAL_BALANCE, SCALE};
use crate::errors::TradeError;
use crate::fixed::{
    abs_int, add_amounts, checked, div_amounts, fits_i128, fx_div, fx_mul, is_negligible,
    mul_amounts, sub_amounts,
};
use crate::models::{Post, UserPositionDetail};
use crate::state::{position_of, AccountView, AppState, HeldPosition, MarketView};
use crate::threshold_index::{is_first_above, is_last_below, LiquidationEntry, ThresholdIndex};

verus! {

/// The average price at which a position was entered: its cost basis divided
/// by its size, and zero for a position of negligible size. `None` when the
/// price is too large to hold.
pub open spec fn average_price(position: UserPositionDetail) -> Option<i128> {
    if abs_int(position.size as int) < EPSILON {
        Some(0i128)
    } else {
        checked(div_amounts(position.total_cost_basis as int, position.size as int))
    }
}

/// What a position would gain if it were closed at `market_price`: the
/// difference between that price and the average entry price, times the
/// size; zero for a position of negligible size. `None` when the average
/// price, the difference or the gain is too large to hold.
pub open spec fn unrealized_pnl(position: UserPositionDetail, market_price: i128) -> Option<i128> {
    if abs_int(position.size as int) < EPSILON {
        Some(0i128)
    } else {
        match average_price(position) {
            Some(entry) => match checked(market_price - entry) {
                Some(above) => checked(mul_amounts(above as int, position.size as int)),
                None => None,
            },
            None => None,
        }
    }
}

/// The price at which a position's owner has no equity left, taking the
/// position alone: the average entry price less the collateral per unit of
/// size, where the collateral is the balance and the realized profit
/// together. `None` when one of these amounts is too large to hold.
pub open spec fn liquidation_price(
    balance: i128,
    total_realized_pnl: i128,
    position_size: i128,
    average_entry_price: i128,
) -> Option<i128> {
    match checked(balance + total_realized_pnl) {
        Some(collateral) => match checked(div_amounts(collateral as int, position_size as int)) {
            Some(per_unit) => checked(average_entry_price - per_unit),
            None => None,
        },
        None => None,
    }
}

/// The supply at which the curve quotes `target_price`: zero for a price
/// within the curve's tolerance of 1, `(p - 1)^2` for a price `p` above 1,
/// `-((1 / p) - 1)^2` for a price `p` between 0 and 1. `None` for a price
/// that the curve never quotes (zero or below), and for a supply too large
/// to hold.
pub open spec fn supply_at_price(target_price: int) -> Option<i128> {
    if target_price <= 0 {
        None
    } else if abs_int(target_price - SCALE) < BONDING_CURVE_EPSILON {
        Some(0i128)
    } else if target_price > SCALE {
        checked(mul_amounts(target_price - SCALE, target_price - SCALE))
    } else {
        match checked(
            mul_amounts(
                div_amounts(SCALE as int, target_price) - SCALE,
                div_amounts(SCALE as int, target_price) - SCALE,
            ),
        ) {
            Some(magnitude) => checked(-magnitude),
            None => None,
        }
    }
}

/// The supply at which a position is liquidated; `None` for a position of
/// negligible size and where `liquidation_price` or `supply_at_price` gives
/// none.
pub open spec fn liquidation_supply(
    balance: i128,
    total_realized_pnl: i128,
    position_size: i128,
    average_entry_price: i128,
) -> Option<i128> {
    if abs_int(position_size as int) < EPSILON {
        None
    } else {
        match liquidation_price(balance, total_realized_pnl, position_size, average_entry_price) {
            Some(target) => supply_at_price(target as int),
            None => None,
        }
    }
}

/// The average price at which a position was entered.
pub fn calculate_average_price(position: &UserPositionDetail) -> (price: Option<i128>)
    ensures
        price == average_price(*position),
{
    if is_negligible(position.size) {
        Some(0)
    } else {
        fx_div(position.total_cost_basis, position.size)
    }
}

/// What a position would gain if it were closed at `current_market_price`.
pub fn calculate_unrealized_pnl(position: &UserPositionDetail, current_market_price: i128) -> (pnl:
    Option<i128>)
    ensures
        pnl == unrealized_pnl(*position, current_market_price),
{
    if is_negligible(position.size) {
        Some(0)
    } else {
        match calculate_average_price(position) {
            Some(entry) => match sub_amounts(current_market_price, entry) {
                Some(above) => fx_mul(above, position.size),
                None => None,
            },
            None => None,
        }
    }
}

/// The supply at which the curve quotes a price.
pub fn invert_price(target_price: i128) -> (supply: Option<i128>)
    ensures
        supply == supply_at_price(target_price as int),
{
    if target_price <= 0 {
        None
    } else if target_price > SCALE - BONDING_CURVE_EPSILON && target_price < SCALE
        + BONDING_CURVE_EPSILON {
        Some(0)
    } else if target_price > SCALE {
        fx_mul(target_price - SCALE, target_price - SCALE)
    } else {
        let inverse = match fx_div(SCALE, target_price) {
            Some(inverse) => inverse,
            None => {
                proof {
                    lemma_inverse_fits(target_price as int);
                }
                return None;
            },
        };
        proof {
            lemma_inverse_fits(target_price as int);
        }
        match fx_mul(inverse - SCALE, inverse - SCALE) {
            Some(magnitude) => {
                proof {
                    assert(magnitude >= 0) by (nonlinear_arith)
                        requires
                            magnitude == ((inverse - SCALE) * (inverse - SCALE)) / (
                            1_000_000_000_000_000_000int),
                            inverse - SCALE >= 0,
                    ;
                }
                Some(-magnitude)
            },
            None => None,
        }
    }
}

/// The inverse of a price between 0 and 1 is an amount from 1 up.
proof fn lemma_inverse_fits(target_price: int)
    requires
        0 < target_price < SCALE,
    ensures
        SCALE <= div_amounts(SCALE as int, target_price) <= SCALE * SCALE,
        (div_amounts(SCALE as int, target_price) - SCALE) * (div_amounts(
            SCALE as int,
            target_price,
        ) - SCALE) >= 0,
{
    let unit = SCALE as int;
    let q = (unit * unit) / target_price;
    assert(unit <= q <= unit * unit && (q - unit) * (q - unit) >= 0) by (nonlinear_arith)
        requires
            0 < target_price < unit,
            q == (unit * unit) / target_price,
            unit == 1_000_000_000_000_000_000,
    ;
    assert(unit * unit == 1_000_000_000_000_000_000_000_000_000_000_000_000) by (nonlinear_arith)
        requires
            unit == 1_000_000_000_000_000_000,
    ;
}

/// The supply at which a user with the given balance and realized profit
/// would be liquidated out of a position, taking the position alone.
pub fn calculate_liquidation_supply(
    balance: i128,
    total_realized_pnl: i128,
    position_size: i128,
    average_entry_price: i128,
) -> (supply: Option<i128>)
    ensures
        supply == liquidation_supply(
            balance,
            total_realized_pnl,
            position_size,
            average_entry_price,
        ),
{
    if is_negligible(position_size) {
        return None;
    }
    let collateral = match add_amounts(balance, total_realized_pnl) {
        Some(collateral) => collateral,
        None => {
            return None;
        },
    };
    let per_unit = match fx_div(collateral, position_size) {
        Some(per_unit) => per_unit,
        None => {
            return None;
        },
    };
    match sub_amounts(average_entry_price, per_unit) {
        Some(target) => invert_price(target),
        None => None,
    }
}

/// What one trade does to a market.
#[derive(Debug)]
pub struct EffectiveTradeResult {
    /// What the trader pays: above zero for a cost, below zero for proceeds.
    /// The forced trades of the liquidated users are part of it.
    pub effective_cost: i128,
    /// The supply after the trade and every forced trade.
    pub final_supply: i128,
    /// The liquidated users, in the order of their liquidation, each with
    /// the profit (mostly a loss) that the forced trade settles.
    pub liquidated_users: Vec<(String, i128)>,
}

/// The first threshold that a trade from `supply` meets: for a buy the least
/// key above the supply, for a sell the greatest key below it.
pub open spec fn next_threshold(keys: Set<i128>, supply: i128, buying: bool) -> Option<i128> {
    if buying {
        if exists|k: i128| is_first_above(keys, supply, k) {
            Some(choose|k: i128| is_first_above(keys, supply, k))
        } else {
            None
        }
    } else {
        if exists|k: i128| is_last_below(keys, supply, k) {
            Some(choose|k: i128| is_last_below(keys, supply, k))
        } else {
            None
        }
    }
}

/// Whether a trade of `remaining` from `supply` gets as far as the
/// threshold `key`.
pub open spec fn reaches(key: Option<i128>, supply: i128, remaining: i128) -> bool {
    match key {
        Some(k) => if remaining > 0 {
            supply < k && k - supply <= remaining
        } else {
            k < supply && k - supply >= remaining
        },
        None => false,
    }
}

/// The cost so far with the cost of the segment from `from` to `to` added;
/// `None` when the segment's cost or the sum cannot be held.
pub open spec fn add_segment(cost: i128, from: i128, to: i128) -> Option<i128> {
    match priced(from as int, to as int) {
        Some(segment) => checked(cost + segment),
        None => None,
    }
}

/// The supply and the cost after the forced trades `entries[from..]`, each
/// of which moves the supply by its size and adds its cost; `None` when one
/// of the sums cannot be held.
pub open spec fn unwind_from(entries: Seq<LiquidationEntry>, from: int, supply: i128, cost: i128) -> Option<
    (i128, i128),
>
    decreases entries.len() - from,
{
    if from < 0 || from >= entries.len() {
        Some((supply, cost))
    } else if fits_i128(supply + entries[from].size_unwind) && fits_i128(
        cost + entries[from].cost_unwind,
    ) {
        unwind_from(
            entries,
            from + 1,
            (supply + entries[from].size_unwind) as i128,
            (cost + entries[from].cost_unwind) as i128,
        )
    } else {
        None
    }
}

/// Where a trade ends.
pub struct Walked {
    pub cost: i128,
    pub supply: i128,
    /// The forced trades that were carried out, in their order.
    pub unwound: Seq<LiquidationEntry>,
}

/// Whether a trade that ends at `end` ends within the tolerance of the
/// threshold `key`.
pub open spec fn ends_at(key: Option<i128>, end: i128) -> bool {
    match key {
        Some(k) => abs_int(end - k) < EPSILON,
        None => false,
    }
}

/// The rest of a trade: `remaining` is still to be traded from `supply`,
/// `cost` has been paid and `unwound` carried out so far.
///
/// While more than the tolerance remains, the trade moves along the curve to
/// the next threshold in its direction, or to its end if that comes first.
/// On a threshold every forced trade recorded there is carried out, in the
/// recorded order, and the trade goes on from the supply they leave. A
/// trade that ends within the tolerance of the next threshold carries out
/// the forced trades of that threshold too.
/// `None` when a supply or a cost on the way cannot be held.
pub open spec fn walk(
    index: Map<i128, Seq<LiquidationEntry>>,
    supply: i128,
    remaining: i128,
    cost: i128,
    unwound: Seq<LiquidationEntry>,
) -> Option<Walked>
    decreases abs_int(remaining as int),
{
    if abs_int(remaining as int) <= EPSILON {
        Some(Walked { cost, supply, unwound })
    } else {
        let key = next_threshold(index.dom(), supply, remaining > 0);
        if reaches(key, supply, remaining) {
            let k = key.unwrap();
            match add_segment(cost, supply, k) {
                Some(paid) => match unwind_from(index[k], 0, k, paid) {
                    Some((after, total)) => walk(
                        index,
                        after,
                        (remaining - (k - supply)) as i128,
                        total,
                        unwound + index[k],
                    ),
                    None => None,
                },
                None => None,
            }
        } else if fits_i128(supply + remaining) {
            match add_segment(cost, supply, (supply + remaining) as i128) {
                Some(paid) => if ends_at(key, (supply + remaining) as i128) {
                    match unwind_from(
                        index[key.unwrap()],
                        0,
                        (supply + remaining) as i128,
                        paid,
                    ) {
                        Some((after, total)) => Some(
                            Walked {
                                cost: total,
                                supply: after,
                                unwound: unwound + index[key.unwrap()],
                            },
                        ),
                        None => None,
                    }
                } else {
                    Some(Walked { cost: paid, supply: (supply + remaining) as i128, unwound })
                },
                None => None,
            }
        } else {
            None
        }
    }
}

/// The average entry price of a user's position in a post, and zero where
/// the user holds none.
pub open spec fn entry_price(
    accounts: Map<Seq<char>, AccountView>,
    user_id: Seq<char>,
    post_id: u128,
) -> Option<i128> {
    if accounts.contains_key(user_id) {
        match position_of(accounts[user_id].positions, post_id) {
            Some(position) => average_price(position),
            None => Some(0i128),
        }
    } else {
        Some(0i128)
    }
}

/// What a forced trade settles for the liquidated user: the proceeds of the
/// forced trade (its negated cost) less what the user paid for the position,
/// which is the average entry price times the position's size. The size is
/// the negated size of the forced trade, so this is the entry price times
/// the size of the forced trade, less its cost.
pub open spec fn forced_pnl(entry: LiquidationEntry, entry_price: i128) -> Option<i128> {
    match checked(mul_amounts(entry_price as int, entry.size_unwind as int)) {
        Some(basis) => checked(basis - entry.cost_unwind),
        None => None,
    }
}

/// `done`, followed by the users of `unwound[from..]`, each with what the
/// forced trade settles for that user.
pub open spec fn forced_pnls(
    unwound: Seq<LiquidationEntry>,
    from: int,
    accounts: Map<Seq<char>, AccountView>,
    post_id: u128,
    done: Seq<(String, i128)>,
) -> Option<Seq<(String, i128)>>
    decreases unwound.len() - from,
{
    if from < 0 || from >= unwound.len() {
        Some(done)
    } else {
        match entry_price(accounts, unwound[from].user_id@, post_id) {
            Some(price) => match forced_pnl(unwound[from], price) {
                Some(pnl) => forced_pnls(
                    unwound,
                    from + 1,
                    accounts,
                    post_id,
                    done.push((unwound[from].user_id, pnl)),
                ),
                None => None,
            },
            None => None,
        }
    }
}

/// The thresholds of a post, and none for a post that does not exist.
pub open spec fn thresholds_of(markets: Map<u128, MarketView>, post_id: u128) -> Map<
    i128,
    Seq<LiquidationEntry>,
> {
    if markets.contains_key(post_id) {
        markets[post_id].thresholds
    } else {
        Map::empty()
    }
}

/// The key that the index finds is the next threshold.
proof fn lemma_next_threshold(keys: Set<i128>, supply: i128, buying: bool, key: Option<i128>)
    requires
        buying ==> match key {
            Some(k) => is_first_above(keys, supply, k),
            None => forall|j: i128| keys.contains(j) ==> j <= supply,
        },
        !buying ==> match key {
            Some(k) => is_last_below(keys, supply, k),
            None => forall|j: i128| keys.contains(j) ==> j >= supply,
        },
    ensures
        key == next_threshold(keys, supply, buying),
{
    if buying {
        if key is Some {
            let k = key.unwrap();
            let c = choose|c: i128| is_first_above(keys, supply, c);
            assert(is_first_above(keys, supply, c));
            assert(c == k);
        } else {
            assert(forall|c: i128| !is_first_above(keys, supply, c));
        }
    } else {
        if key is Some {
            let k = key.unwrap();
            let c = choose|c: i128| is_last_below(keys, supply, c);
            assert(is_last_below(keys, supply, c));
            assert(c == k);
        } else {
            assert(forall|c: i128| !is_last_below(keys, supply, c));
        }
    }
}

/// Carries out the forced trades recorded on one threshold.
fn unwind_entries(
    entries: &Vec<LiquidationEntry>,
    supply: i128,
    cost: i128,
    unwound: &mut Vec<LiquidationEntry>,
) -> (r: Option<(i128, i128)>)
    ensures
        r == unwind_from(entries@, 0, supply, cost),
        r is Some ==> final(unwound)@ == old(unwound)@ + entries@,
{
    let mut current: i128 = supply;
    let mut total: i128 = cost;
    let mut i: usize = 0;
    while i < entries.len()
        invariant
            i <= entries@.len(),
            unwind_from(entries@, i as int, current, total) == unwind_from(entries@, 0, supply, cost),
            unwound@ == old(unwound)@ + entries@.subrange(0, i as int),
        decreases entries@.len() - i,
    {
        let entry = &entries[i];
        let moved = add_amounts(current, entry.size_unwind);
        let paid = add_amounts(total, entry.cost_unwind);
        match (moved, paid) {
            (Some(s), Some(c)) => {
                current = s;
                total = c;
            },
            _ => {
                return None;
            },
        }
        unwound.push(
            LiquidationEntry {
                cost_unwind: entry.cost_unwind,
                size_unwind: entry.size_unwind,
                user_id: entry.user_id.clone(),
            },
        );
        proof {
            assert(entries@.subrange(0, i as int).push(entries@[i as int]) =~= entries@.subrange(
                0,
                i + 1,
            ));
        }
        i = i + 1;
    }
    proof {
        assert(entries@.subrange(0, i as int) =~= entries@);
    }
    Some((current, total))
}

/// Adds the cost of one segment of the curve to the cost so far.
fn pay_segment(cost: i128, from: i128, to: i128) -> (r: Option<i128>)
    ensures
        r == add_segment(cost, from, to),
{
    match calculate_smooth_cost(from, to) {
        Some(segment) => add_amounts(cost, segment),
        None => None,
    }
}

/// Executes a trade of `trade_quantity` from `start_supply` against an index
/// of liquidation thresholds.
pub fn walk_thresholds(
    index: &ThresholdIndex,
    start_supply: i128,
    trade_quantity: i128,
) -> (r: Option<(i128, i128, Vec<LiquidationEntry>)>)
    ensures
        match r {
            Some((cost, supply, unwound)) => walk(
                index@,
                start_supply,
                trade_quantity,
                0,
                Seq::empty(),
            ) == Some(Walked { cost, supply, unwound: unwound@ }),
            None => walk(index@, start_supply, trade_quantity, 0, Seq::empty()) is None,
        },
{
    let mut supply: i128 = start_supply;
    let mut remaining: i128 = trade_quantity;
    let mut cost: i128 = 0;
    let mut unwound: Vec<LiquidationEntry> = Vec::new();
    while remaining > EPSILON || remaining < -EPSILON
        invariant
            walk(index@, supply, remaining, cost, unwound@) == walk(
                index@,
                start_supply,
                trade_quantity,
                0,
                Seq::empty(),
            ),
        decreases abs_int(remaining as int),
    {
        let buying = remaining > 0;
        let key = if buying {
            index.first_key_above(supply)
        } else {
            index.last_key_below(supply)
        };
        proof {
            lemma_next_threshold(index@.dom(), supply, buying, key);
        }
        let to_key: Option<i128> = match key {
            Some(k) => match sub_amounts(k, supply) {
                Some(distance) => {
                    if (buying && distance <= remaining) || (!buying && distance >= remaining) {
                        Some(distance)
                    } else {
                        None
                    }
                },
                None => None,
            },
            None => None,
        };
        match to_key {
            Some(distance) => {
                let k: i128 = supply + distance;
                let paid = match pay_segment(cost, supply, k) {
                    Some(c) => c,
                    None => {
                        return None;
                    },
                };
                let entries = match index.entries_at(k) {
                    Some(entries) => entries,
                    None => {
                        return None;
                    },
                };
                match unwind_entries(entries, k, paid, &mut unwound) {
                    Some((after, total)) => {
                        supply = after;
                        cost = total;
                        remaining = remaining - distance;
                    },
                    None => {
                        return None;
                    },
                }
            },
            None => {
                let end = match add_amounts(supply, remaining) {
                    Some(end) => end,
                    None => {
                        return None;
                    },
                };
                let paid = match pay_segment(cost, supply, end) {
                    Some(c) => c,
                    None => {
                        return None;
                    },
                };
                let near: Option<i128> = match key {
                    Some(k) => match sub_amounts(end, k) {
                        Some(gap) => if is_negligible(gap) {
                            Some(k)
                        } else {
                            None
                        },
                        None => None,
                    },
                    None => None,
                };
                match near {
                    Some(k) => {
                        let entries = match index.entries_at(k) {
                            Some(entries) => entries,
                            None => {
                                return None;
                            },
                        };
                        match unwind_entries(entries, end, paid, &mut unwound) {
                            Some((after, total)) => {
                                return Some((total, after, unwound));
                            },
                            None => {
                                return None;
                            },
                        }
                    },
                    None => {
                        return Some((paid, end, unwound));
                    },
                }
            },
        }
    }
    Some((cost, supply, unwound))
}

/// What a trade does to a market, as the contracts speak of it.
pub struct TradeEffect {
    pub cost: i128,
    pub supply: i128,
    pub liquidated: Seq<(String, i128)>,
}

/// What a trade of `trade_quantity` does to the market of a post whose
/// supply is `start_supply`: the trade is walked through the post's
/// thresholds, and each forced trade on the way is settled against the
/// liquidated user's position. `None` when an amount on the way cannot be
/// held.
pub open spec fn effective_trade(
    markets: Map<u128, MarketView>,
    accounts: Map<Seq<char>, AccountView>,
    post_id: u128,
    start_supply: i128,
    trade_quantity: i128,
) -> Option<TradeEffect> {
    match walk(thresholds_of(markets, post_id), start_supply, trade_quantity, 0, Seq::empty()) {
        Some(walked) => match forced_pnls(walked.unwound, 0, accounts, post_id, Seq::empty()) {
            Some(liquidated) => Some(
                TradeEffect { cost: walked.cost, supply: walked.supply, liquidated },
            ),
            None => None,
        },
        None => None,
    }
}

/// The average entry price of a user's position in a post, and zero where
/// the user holds none.
fn entry_price_of(state: &AppState, user_id: &str, post_id: u128) -> (price: Option<i128>)
    ensures
        price == entry_price(state.accounts(), user_id@, post_id),
{
    match state.account(user_id) {
        Some(account) => match account.position(post_id) {
            Some(position) => calculate_average_price(&position),
            None => Some(0),
        },
        None => Some(0),
    }
}

/// What a forced trade settles for the liquidated user.
fn settle_entry(entry: &LiquidationEntry, entry_price: i128) -> (pnl: Option<i128>)
    ensures
        pnl == forced_pnl(*entry, entry_price),
{
    match fx_mul(entry_price, entry.size_unwind) {
        Some(basis) => sub_amounts(basis, entry.cost_unwind),
        None => None,
    }
}

/// What the forced trades of one trade settle, user by user.
fn settle_unwound(unwound: &Vec<LiquidationEntry>, post_id: u128, state: &AppState) -> (r: Option<
    Vec<(String, i128)>,
>)
    ensures
        match r {
            Some(liquidated) => forced_pnls(unwound@, 0, state.accounts(), post_id, Seq::empty())
                == Some(liquidated@),
            None => forced_pnls(unwound@, 0, state.accounts(), post_id, Seq::empty()) is None,
        },
{
    let mut liquidated: Vec<(String, i128)> = Vec::new();
    let mut i: usize = 0;
    while i < unwound.len()
        invariant
            i <= unwound@.len(),
            forced_pnls(unwound@, i as int, state.accounts(), post_id, liquidated@) == forced_pnls(
                unwound@,
                0,
                state.accounts(),
                post_id,
                Seq::empty(),
            ),
        decreases unwound@.len() - i,
    {
        let entry = &unwound[i];
        let price = match entry_price_of(state, entry.user_id.as_str(), post_id) {
            Some(price) => price,
            None => {
                return None;
            },
        };
        let pnl = match settle_entry(entry, price) {
            Some(pnl) => pnl,
            None => {
                return None;
            },
        };
        liquidated.push((entry.user_id.clone(), pnl));
        i = i + 1;
    }
    Some(liquidated)
}

/// The effective cost and the final supply of a trade of `trade_quantity`
/// (above zero for a buy, below zero for a sell) in the market of a post,
/// and what it settles for each user it liquidates. The state is read, not
/// changed. A quantity within the tolerance trades nothing. The only error
/// is `NumericFault`, which is returned exactly when an amount on the way
/// cannot be held.
pub fn calculate_effective_cost_and_final_supply(
    start_supply: i128,
    trade_quantity: i128,
    post_id: u128,
    state: &AppState,
) -> (result: Result<EffectiveTradeResult, TradeError>)
    ensures
        match result {
            Ok(r) => effective_trade(
                state.markets(),
                state.accounts(),
                post_id,
                start_supply,
                trade_quantity,
            ) == Some(
                TradeEffect {
                    cost: r.effective_cost,
                    supply: r.final_supply,
                    liquidated: r.liquidated_users@,
                },
            ),
            Err(e) => e == TradeError::NumericFault && effective_trade(
                state.markets(),
                state.accounts(),
                post_id,
                start_supply,
                trade_quantity,
            ) is None,
        },
{
    let walked = match state.market(post_id) {
        Some(market) => walk_thresholds(&market.thresholds, start_supply, trade_quantity),
        None => {
            let empty = ThresholdIndex::new();
            walk_thresholds(&empty, start_supply, trade_quantity)
        },
    };
    match walked {
        Some((cost, supply, unwound)) => match settle_unwound(&unwound, post_id, state) {
            Some(liquidated_users) => Ok(
                EffectiveTradeResult { effective_cost: cost, final_supply: supply, liquidated_users },
            ),
            None => Err(TradeError::NumericFault),
        },
        None => Err(TradeError::NumericFault),
    }
}

/// The price of a post: the price last quoted, or the price at its supply
/// where none was quoted.
pub open spec fn quoted_price(post: Post) -> i128 {
    match post.price {
        Some(price) => price,
        None => price_at(post.supply as int) as i128,
    }
}

/// The price of a post.
pub fn current_price(post: &Post) -> (price: i128)
    ensures
        price == quoted_price(*post),
{
    match post.price {
        Some(price) => price,
        None => get_price(post.supply),
    }
}

/// `sum` and the unrealized profits of `positions[from..]`, counting each
/// position that is larger than `floor` and whose post exists, at the price
/// of its post. `None` when a profit or a sum cannot be held.
pub open spec fn unrealized_from(
    positions: Seq<HeldPosition>,
    from: int,
    markets: Map<u128, MarketView>,
    floor: i128,
    sum: i128,
) -> Option<i128>
    decreases positions.len() - from,
{
    if from < 0 || from >= positions.len() {
        Some(sum)
    } else if abs_int(positions[from].detail.size as int) > floor && markets.contains_key(
        positions[from].post_id,
    ) {
        match unrealized_pnl(
            positions[from].detail,
            quoted_price(markets[positions[from].post_id].post),
        ) {
            Some(pnl) => if fits_i128(sum + pnl) {
                unrealized_from(positions, from + 1, markets, floor, (sum + pnl) as i128)
            } else {
                None
            },
            None => None,
        }
    } else {
        unrealized_from(positions, from + 1, markets, floor, sum)
    }
}

/// The sum of the unrealized profits of the positions that are larger than
/// `floor` and whose post exists.
pub(crate) fn sum_unrealized(positions: &Vec<HeldPosition>, state: &AppState, floor: i128) -> (total: Option<
    i128,
>)
    requires
        0 <= floor,
    ensures
        total == unrealized_from(positions@, 0, state.markets(), floor, 0),
{
    let mut sum: i128 = 0;
    let mut i: usize = 0;
    while i < positions.len()
        invariant
            i <= positions@.len(),
            0 <= floor,
            unrealized_from(positions@, i as int, state.markets(), floor, sum) == unrealized_from(
                positions@,
                0,
                state.markets(),
                floor,
                0,
            ),
        decreases positions@.len() - i,
    {
        let held = positions[i];
        if held.detail.size > floor || held.detail.size < -floor {
            match state.market(held.post_id) {
                Some(market) => {
                    let pnl = match calculate_unrealized_pnl(&held.detail, current_price(&market.post)) {
                        Some(pnl) => pnl,
                        None => {
                            return None;
                        },
                    };
                    sum = match add_amounts(sum, pnl) {
                        Some(sum) => sum,
                        None => {
                            return None;
                        },
                    };
                },
                None => {},
            }
        }
        i = i + 1;
    }
    Some(sum)
}

/// A user's margin: the balance and the unrealized profits of the positions
/// that are larger than the tolerance. A user without an account has the
/// initial balance and no positions.
pub open spec fn user_margin(
    accounts: Map<Seq<char>, AccountView>,
    markets: Map<u128, MarketView>,
    user_id: Seq<char>,
) -> Option<i128> {
    if accounts.contains_key(user_id) {
        match unrealized_from(accounts[user_id].positions, 0, markets, EPSILON, 0) {
            Some(unrealized) => checked(accounts[user_id].balance + unrealized),
            None => None,
        }
    } else {
        Some(INITIAL_BALANCE)
    }
}

/// A user's margin; `None` when it cannot be held.
pub fn calculate_user_margin(user_id: &str, state: &AppState) -> (margin: Option<i128>)
    ensures
        margin == user_margin(state.accounts(), state.markets(), user_id@),
{
    match state.account(user_id) {
        Some(account) => match sum_unrealized(&account.positions, state, EPSILON) {
            Some(unrealized) => add_amounts(account.balance, unrealized),
            None => None,
        },
        None => Some(INITIAL_BALANCE),
    }
}

} // verus!
