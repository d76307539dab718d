use fluke_server::calculations::{
    calculate_effective_cost_and_final_supply, calculate_user_margin, walk_thresholds,
};
use fluke_server::constants::{EPSILON, INITIAL_BALANCE, SCALE};
use fluke_server::errors::TradeError;
use fluke_server::handlers::{
    build_user_sync, calculate_total_exposure, calculate_total_unrealized_pnl,
    ensure_user_state_exists, execute_trade, handle_buy, handle_create_post, handle_sell,
    open_market,
};
use fluke_server::models::{PositionDetail, ServerMessage, UserPositionDetail};
use fluke_server::settlement::sum_exposure;
use fluke_server::state::{AppState, HeldPosition, UserAccount};
use fluke_server::threshold_index::{LiquidationEntry, ThresholdIndex};
use fluke_server::thresholds::{build_thresholds, compute_threshold, update_liquidation_thresholds};

const POST: u128 = 7;

/// 5/3 as the nearest amount of nine places.
const FIVE_THIRDS: i128 = 1_666_666_667_000_000_000;

fn as_real(amount: i128) -> f64 {
    amount as f64 / 1e18
}

fn closed_integral(s: f64) -> f64 {
    if s > 0.0 {
        s + 2.0 / 3.0 * s.powf(1.5)
    } else if s < 0.0 {
        let t = (-s).sqrt();
        -(2.0 * t - 2.0 * (1.0 + t).ln())
    } else {
        0.0
    }
}

fn market_state() -> AppState {
    let mut state = AppState::new();
    open_market(POST, 1_700_000_000_000, "author", "a post".to_string(), &mut state);
    state
}

fn held(post_id: u128, size: i128, total_cost_basis: i128) -> HeldPosition {
    HeldPosition { post_id, detail: UserPositionDetail { size, total_cost_basis } }
}

fn entry(cost_unwind: i128, size_unwind: i128, user_id: &str) -> LiquidationEntry {
    LiquidationEntry { cost_unwind, size_unwind, user_id: user_id.to_string() }
}

/// A long of size 1 bought for 5/3 by a user whose collateral is 1.
fn thin_long(state: &mut AppState) {
    state.set_account(
        "u1",
        UserAccount {
            balance: SCALE,
            realized_pnl: 0,
            exposure: FIVE_THIRDS,
            positions: vec![held(POST, SCALE, FIVE_THIRDS)],
        },
    );
    update_liquidation_thresholds(POST, state);
}

#[test]
fn new_state_is_empty() {
    let state = AppState::new();
    assert!(state.post_ids().is_empty());
    assert!(state.user_ids().is_empty());
    assert!(state.market(POST).is_none());
    assert!(state.account("nobody").is_none());
}

#[test]
fn stored_markets_and_accounts_are_found_again() {
    let mut state = market_state();
    open_market(8, 5, "author", "another".to_string(), &mut state);
    let mut account = UserAccount::new();
    account.realized_pnl = 42;
    state.set_account("ann", account);
    state.set_account("ben", UserAccount::new());
    assert_eq!(state.account("ann").unwrap().realized_pnl, 42);
    assert_eq!(state.account("ben").unwrap().realized_pnl, 0);
    assert!(state.account("cy").is_none());
    assert_eq!(state.market(8).unwrap().post.content, "another");
    assert_eq!(state.market(POST).unwrap().post.content, "a post");
    let mut posts = state.post_ids();
    posts.sort();
    assert_eq!(posts, vec![POST, 8]);
    let mut users = state.user_ids();
    users.sort();
    assert_eq!(users, vec!["ann".to_string(), "ben".to_string()]);
}

#[test]
fn storing_again_replaces() {
    let mut state = AppState::new();
    state.set_account("ann", UserAccount::new());
    let mut account = UserAccount::new();
    account.balance = 5;
    state.set_account("ann", account);
    assert_eq!(state.account("ann").unwrap().balance, 5);
    assert_eq!(state.user_ids(), vec!["ann".to_string()]);
}

#[test]
fn open_market_starts_at_zero_supply_and_price_one() {
    let mut state = AppState::new();
    let post = open_market(POST, 99, "author", "hello".to_string(), &mut state);
    assert_eq!(post.id, POST);
    assert_eq!(post.user_id, "author");
    assert_eq!(post.content, "hello");
    assert_eq!(post.timestamp, 99);
    assert_eq!(post.supply, 0);
    assert_eq!(post.price, Some(SCALE));
    let market = state.market(POST).unwrap();
    assert_eq!(market.post.supply, 0);
    assert_eq!(market.post.price, Some(SCALE));
    assert_eq!(market.post.user_id, "author");
    assert!(market.thresholds.keys().is_empty());
    assert!(state.user_ids().is_empty());
}

#[test]
fn created_posts_get_fresh_identifiers() {
    let mut state = AppState::new();
    let first = handle_create_post("author", "one".to_string(), &mut state);
    let second = handle_create_post("author", "two".to_string(), &mut state);
    assert_ne!(first.id, second.id);
    assert_eq!(first.supply, 0);
    assert_eq!(first.price, Some(SCALE));
    assert_eq!(second.content, "two");
    assert!(first.timestamp > 1_600_000_000_000);
    assert!(second.timestamp >= first.timestamp);
    assert_eq!(state.post_ids().len(), 2);
    assert_eq!(state.market(first.id).unwrap().post.content, "one");
}

#[test]
fn ensure_user_creates_an_account_once() {
    let mut state = AppState::new();
    ensure_user_state_exists("ann", &mut state);
    assert_eq!(state.account("ann").unwrap().balance, INITIAL_BALANCE);
    let mut account = state.account("ann").unwrap();
    account.realized_pnl = 3;
    state.set_account("ann", account);
    ensure_user_state_exists("ann", &mut state);
    assert_eq!(state.account("ann").unwrap().realized_pnl, 3);
}

#[test]
fn open_long() {
    let mut state = market_state();
    let outcome = handle_buy("bob", POST, SCALE, &mut state).unwrap();
    assert_eq!(outcome.post_id, POST);
    assert_eq!(outcome.effective_cost, 1_666_666_666_666_666_666);
    assert!((as_real(outcome.effective_cost) - 5.0 / 3.0).abs() < 1e-9);
    assert_eq!(outcome.supply, SCALE);
    assert_eq!(outcome.price, 2 * SCALE);
    assert_eq!(outcome.affected_users, vec!["bob".to_string()]);
    let market = state.market(POST).unwrap();
    assert_eq!(market.post.supply, SCALE);
    assert_eq!(market.post.price, Some(2 * SCALE));
    assert_eq!(market.post.content, "a post");
    let bob = state.account("bob").unwrap();
    assert_eq!(bob.positions, vec![held(POST, SCALE, 1_666_666_666_666_666_666)]);
    assert_eq!(bob.balance, INITIAL_BALANCE);
    assert_eq!(bob.realized_pnl, -1_666_666_666_666_666_666);
    assert_eq!(bob.exposure, 1_666_666_666_666_666_666);
    assert!(market.thresholds.keys().is_empty());
}

#[test]
fn chain_buy() {
    let mut state = market_state();
    handle_buy("bob", POST, SCALE, &mut state).unwrap();
    let outcome = handle_buy("cat", POST, 3 * SCALE, &mut state).unwrap();
    assert_eq!(outcome.effective_cost, 7_666_666_666_666_666_667);
    assert!((as_real(outcome.effective_cost) - 23.0 / 3.0).abs() < 1e-9);
    assert_eq!(outcome.supply, 4 * SCALE);
    assert_eq!(outcome.price, 3 * SCALE);
    assert_eq!(state.account("cat").unwrap().positions, vec![held(POST, 3 * SCALE, 7_666_666_666_666_666_667)]);
    assert_eq!(state.account("bob").unwrap().positions, vec![held(POST, SCALE, 1_666_666_666_666_666_666)]);
}

#[test]
fn open_short_from_zero() {
    let mut state = market_state();
    let outcome = handle_sell("bob", POST, SCALE, &mut state).unwrap();
    let closed = -(2.0 - 2.0 * 2.0f64.ln());
    assert_eq!(outcome.effective_cost, -613_705_638_880_109_382);
    assert!((as_real(outcome.effective_cost) - closed).abs() < 1e-9);
    assert_eq!(outcome.supply, -SCALE);
    assert_eq!(outcome.price, SCALE / 2);
    let bob = state.account("bob").unwrap();
    assert_eq!(bob.positions, vec![held(POST, -SCALE, -613_705_638_880_109_382)]);
    assert!((as_real(bob.positions[0].detail.total_cost_basis) - closed).abs() < 1e-9);
    assert_eq!(bob.realized_pnl, 613_705_638_880_109_382);
    assert!((as_real(bob.realized_pnl) + closed).abs() < 1e-9);
    assert_eq!(bob.exposure, 613_705_638_880_109_382);
    // The short has a threshold far above the market.
    let market = state.market(POST).unwrap();
    assert_eq!(market.thresholds.keys(), vec![1_000_454_874_271_409_690_063_369]);
    let entries = market.thresholds.entries_at(1_000_454_874_271_409_690_063_369).unwrap();
    assert_eq!(entries.len(), 1);
    assert_eq!(entries[0].user_id, "bob");
    assert_eq!(entries[0].size_unwind, SCALE);
    assert_eq!(entries[0].cost_unwind, 1_001_227_661_220_879_119_647);
}

#[test]
fn flip_long_to_short() {
    let mut state = market_state();
    handle_buy("bob", POST, SCALE, &mut state).unwrap();
    let outcome = handle_sell("bob", POST, 2 * SCALE, &mut state).unwrap();
    assert_eq!(outcome.effective_cost, -2_280_372_305_546_776_048);
    assert!((as_real(outcome.effective_cost) - (closed_integral(-1.0) - closed_integral(1.0))).abs() < 1e-9);
    assert_eq!(outcome.supply, -SCALE);
    let bob = state.account("bob").unwrap();
    assert_eq!(bob.positions, vec![held(POST, -SCALE, -613_705_638_880_109_382)]);
    assert_eq!(bob.realized_pnl, 613_705_638_880_109_382);
    assert_eq!(bob.balance, INITIAL_BALANCE);
}

#[test]
fn thresholds_of_a_thin_long() {
    let mut state = market_state();
    thin_long(&mut state);
    let account = state.account("u1").unwrap();
    let threshold = compute_threshold(&account, POST).unwrap();
    assert_eq!(threshold.key, -249_999_999_250_000_000);
    assert!((as_real(threshold.key) + 0.25).abs() < 1e-9);
    assert_eq!(threshold.size_unwind, -SCALE);
    assert_eq!(threshold.cost_unwind, -546_021_604_624_286_430);
    let closed = closed_integral(as_real(threshold.key) - 1.0) - closed_integral(as_real(threshold.key));
    assert!((as_real(threshold.cost_unwind) - closed).abs() < 1e-9);
    assert!((as_real(threshold.cost_unwind) + 0.5460216045).abs() < 2e-9);
    assert!(compute_threshold(&account, 8).is_none());
    let market = state.market(POST).unwrap();
    assert_eq!(market.thresholds.keys(), vec![-249_999_999_250_000_000]);
    let entries = market.thresholds.entries_at(-249_999_999_250_000_000).unwrap();
    assert_eq!(entries.len(), 1);
    assert_eq!(entries[0].user_id, "u1");
    assert_eq!(entries[0].size_unwind, -SCALE);
    assert_eq!(entries[0].cost_unwind, -546_021_604_624_286_430);
}

#[test]
fn trade_triggers_one_liquidation() {
    let mut state = market_state();
    thin_long(&mut state);
    let outcome = handle_sell("trader", POST, SCALE, &mut state).unwrap();
    // 0 -> the key near -0.25 along the curve, the forced trade of u1 from there, then on to -2.
    assert_eq!(outcome.effective_cost, -1_065_679_950_707_104_050);
    assert!((as_real(outcome.effective_cost) + 1.0656799507).abs() < 1e-9);
    assert_eq!(outcome.supply, -2 * SCALE);
    assert_eq!(outcome.price, 414_213_562_373_095_048);
    assert_eq!(outcome.affected_users, vec!["trader".to_string(), "u1".to_string()]);
    let u1 = state.account("u1").unwrap();
    assert!(u1.positions.is_empty());
    assert_eq!(u1.realized_pnl, -1_120_645_062_375_713_570);
    assert!((as_real(u1.realized_pnl) - (0.5460216045 - 5.0 / 3.0)).abs() < 2e-9);
    assert_eq!(u1.exposure, 0);
    assert_eq!(u1.balance, SCALE);
    let trader = state.account("trader").unwrap();
    assert_eq!(trader.positions, vec![held(POST, -SCALE, -1_065_679_950_707_104_050)]);
    assert_eq!(trader.realized_pnl, 1_065_679_950_707_104_050);
    assert_eq!(trader.exposure, 1_065_679_950_707_104_050);
    // The index is rebuilt: u1 is gone, the trader's short is there.
    let market = state.market(POST).unwrap();
    assert_eq!(market.post.supply, -2 * SCALE);
    assert_eq!(market.thresholds.keys(), vec![1_002_263_999_778_054_944_166_671]);
    let entries = market.thresholds.entries_at(1_002_263_999_778_054_944_166_671).unwrap();
    assert_eq!(entries[0].user_id, "trader");
    assert_eq!(entries[0].cost_unwind, 1_002_131_609_618_852_997_042);
}

#[test]
fn sell_of_a_half_across_the_threshold() {
    let mut state = market_state();
    thin_long(&mut state);
    let outcome = handle_sell("trader", POST, SCALE / 2, &mut state).unwrap();
    assert_eq!(outcome.effective_cost, -850_205_253_781_945_724);
    assert_eq!(outcome.supply, -3 * SCALE / 2);
    assert_eq!(outcome.affected_users.len(), 2);
}

#[test]
fn sell_that_stops_short_of_the_threshold_liquidates_nobody() {
    let mut state = market_state();
    thin_long(&mut state);
    let outcome = handle_sell("trader", POST, SCALE / 5, &mut state).unwrap();
    assert_eq!(outcome.supply, -SCALE / 5);
    assert_eq!(outcome.effective_cost, -155_147_092_194_918_742);
    assert_eq!(outcome.affected_users, vec!["trader".to_string()]);
    assert_eq!(state.account("u1").unwrap().positions.len(), 1);
    // Further than the tolerance from the key, and still short of it.
    let mut state = market_state();
    thin_long(&mut state);
    let outcome = handle_sell("trader", POST, 249_999_998_250_000_000, &mut state).unwrap();
    assert_eq!(outcome.supply, -249_999_998_250_000_000);
    assert_eq!(outcome.affected_users, vec!["trader".to_string()]);
}

#[test]
fn sell_of_a_quarter_crosses_the_threshold() {
    let mut state = market_state();
    thin_long(&mut state);
    let outcome = handle_sell("trader", POST, SCALE / 4, &mut state).unwrap();
    assert_eq!(outcome.supply, -1_249_999_999_250_000_000);
    assert_eq!(outcome.effective_cost, -735_091_387_907_957_668);
    assert_eq!(outcome.affected_users, vec!["trader".to_string(), "u1".to_string()]);
    assert!(state.account("u1").unwrap().positions.is_empty());
}

#[test]
fn sell_that_ends_within_the_tolerance_of_the_threshold_liquidates() {
    let mut state = market_state();
    thin_long(&mut state);
    let outcome = handle_sell("trader", POST, 249_999_999_000_000_000, &mut state).unwrap();
    assert_eq!(outcome.supply, -1_249_999_999_000_000_000);
    assert_eq!(outcome.supply, -249_999_999_000_000_000 - SCALE);
    assert_eq!(outcome.effective_cost, -735_091_387_741_291_002);
    assert!(state.account("u1").unwrap().positions.is_empty());
}

#[test]
fn buy_does_not_meet_a_threshold_below() {
    let mut state = market_state();
    thin_long(&mut state);
    let outcome = handle_buy("trader", POST, SCALE, &mut state).unwrap();
    assert_eq!(outcome.effective_cost, 1_666_666_666_666_666_666);
    assert_eq!(outcome.affected_users, vec!["trader".to_string()]);
}

#[test]
fn zero_quantity_trade_is_malformed() {
    let mut state = market_state();
    assert_eq!(handle_buy("bob", POST, 0, &mut state).unwrap_err(), TradeError::MalformedRequest);
    assert_eq!(handle_sell("bob", POST, 0, &mut state).unwrap_err(), TradeError::MalformedRequest);
    assert_eq!(handle_buy("bob", POST, 1, &mut state).unwrap_err(), TradeError::MalformedRequest);
    assert_eq!(
        handle_buy("bob", POST, EPSILON - 1, &mut state).unwrap_err(),
        TradeError::MalformedRequest
    );
    assert_eq!(handle_buy("bob", POST, EPSILON, &mut state).unwrap_err(), TradeError::MalformedRequest);
    assert_eq!(handle_sell("bob", POST, -5 * SCALE, &mut state).unwrap_err(), TradeError::MalformedRequest);
    assert!(state.account("bob").is_none());
    assert_eq!(state.market(POST).unwrap().post.supply, 0);
}

#[test]
fn smallest_quantity_above_the_tolerance_trades() {
    let mut state = market_state();
    let outcome = handle_buy("bob", POST, EPSILON + 1, &mut state).unwrap();
    assert_eq!(outcome.supply, EPSILON + 1);
    assert_eq!(outcome.effective_cost, 1_000_021_082);
}

#[test]
fn trade_in_an_unknown_post_is_refused() {
    let mut state = market_state();
    assert_eq!(handle_buy("bob", 8, SCALE, &mut state).unwrap_err(), TradeError::UnknownPost);
    assert_eq!(handle_sell("bob", 8, SCALE, &mut state).unwrap_err(), TradeError::UnknownPost);
    assert_eq!(state.account("bob").unwrap().balance, INITIAL_BALANCE);
    assert!(state.account("bob").unwrap().positions.is_empty());
}

#[test]
fn trade_beyond_the_collateral_is_refused_and_changes_nothing() {
    let mut state = market_state();
    handle_buy("bob", POST, SCALE, &mut state).unwrap();
    let before_bob = state.account("bob").unwrap();
    let before_market = state.market(POST).unwrap();
    // Moving the supply from 1 to 201 costs more than 2000.
    let refused = handle_buy("bob", POST, 200 * SCALE, &mut state).unwrap_err();
    assert_eq!(refused, TradeError::InsufficientCollateral);
    let bob = state.account("bob").unwrap();
    assert_eq!(bob.balance, before_bob.balance);
    assert_eq!(bob.realized_pnl, before_bob.realized_pnl);
    assert_eq!(bob.exposure, before_bob.exposure);
    assert_eq!(bob.positions, before_bob.positions);
    let market = state.market(POST).unwrap();
    assert_eq!(market.post.supply, before_market.post.supply);
    assert_eq!(market.post.price, before_market.post.price);
    assert_eq!(market.thresholds.keys(), before_market.thresholds.keys());
}

#[test]
fn collateral_gate_allows_the_tolerance() {
    let mut state = market_state();
    let mut account = UserAccount::new();
    account.balance = 1_666_666_666_666_666_666 - EPSILON;
    state.set_account("bob", account);
    assert!(handle_buy("bob", POST, SCALE, &mut state).is_ok());
    let mut state = market_state();
    let mut account = UserAccount::new();
    account.balance = 1_666_666_666_666_666_666 - EPSILON - 1;
    state.set_account("bob", account);
    assert_eq!(
        handle_buy("bob", POST, SCALE, &mut state).unwrap_err(),
        TradeError::InsufficientCollateral
    );
}

#[test]
fn trade_too_large_to_price_is_a_numeric_fault() {
    let mut state = market_state();
    assert_eq!(handle_buy("bob", POST, i128::MAX, &mut state).unwrap_err(), TradeError::NumericFault);
    assert_eq!(state.market(POST).unwrap().post.supply, 0);
    assert!(state.account("bob").unwrap().positions.is_empty());
}

#[test]
fn trade_past_the_end_of_the_supply_range_is_a_numeric_fault() {
    let mut state = market_state();
    handle_sell("bob", POST, 5 * SCALE, &mut state).unwrap();
    assert_eq!(
        execute_trade("bob", POST, i128::MIN, &mut state).unwrap_err(),
        TradeError::NumericFault
    );
    assert_eq!(state.market(POST).unwrap().post.supply, -5 * SCALE);
}

#[test]
fn round_trip_conserves_equity() {
    let mut state = market_state();
    let bought = handle_buy("bob", POST, 5 * SCALE / 2, &mut state).unwrap();
    assert_eq!(bought.effective_cost, 5_135_231_383_473_649_441);
    let sold = handle_sell("bob", POST, 5 * SCALE / 2, &mut state).unwrap();
    assert_eq!(sold.effective_cost, -5_135_231_383_473_649_441);
    assert_eq!(sold.supply, 0);
    assert_eq!(sold.price, SCALE);
    let bob = state.account("bob").unwrap();
    assert_eq!(bob.balance, INITIAL_BALANCE);
    assert_eq!(bob.realized_pnl, 0);
    assert_eq!(bob.exposure, 0);
    assert_eq!(bob.positions, vec![held(POST, 0, 0)]);
    assert_eq!(calculate_total_unrealized_pnl("bob", &state), Some(0));
    assert_eq!(calculate_user_margin("bob", &state), Some(INITIAL_BALANCE));
}

#[test]
fn closing_a_position_resets_its_basis() {
    let mut state = market_state();
    handle_buy("bob", POST, SCALE, &mut state).unwrap();
    handle_buy("cat", POST, SCALE, &mut state).unwrap();
    // Bob closes at a higher price: the basis would be negative, and is reset.
    handle_sell("bob", POST, SCALE, &mut state).unwrap();
    let bob = state.account("bob").unwrap();
    assert_eq!(bob.positions, vec![held(POST, 0, 0)]);
    assert_eq!(bob.realized_pnl, 552_284_749_830_793_398);
    assert!(bob.realized_pnl > 0);
    assert_eq!(bob.exposure, 0);
}

#[test]
fn position_within_the_tolerance_of_flat_is_reset() {
    let mut state = market_state();
    handle_buy("bob", POST, SCALE, &mut state).unwrap();
    handle_sell("bob", POST, SCALE - 999_999_999, &mut state).unwrap();
    assert_eq!(state.account("bob").unwrap().positions, vec![held(POST, 0, 0)]);
    let mut state = market_state();
    handle_buy("bob", POST, SCALE, &mut state).unwrap();
    handle_sell("bob", POST, SCALE - 1_000_000_000, &mut state).unwrap();
    assert_eq!(state.account("bob").unwrap().positions[0].detail.size, 1_000_000_000);
}

#[test]
fn simulation_reads_and_does_not_write() {
    let mut state = market_state();
    thin_long(&mut state);
    let result = calculate_effective_cost_and_final_supply(0, -SCALE, POST, &state).unwrap();
    assert_eq!(result.effective_cost, -1_065_679_950_707_104_050);
    assert_eq!(result.final_supply, -2 * SCALE);
    assert_eq!(result.liquidated_users, vec![("u1".to_string(), -1_120_645_062_375_713_570)]);
    assert!((as_real(result.liquidated_users[0].1) + 1.1206450622).abs() < 1e-9);
    assert_eq!(state.market(POST).unwrap().post.supply, 0);
    assert_eq!(state.account("u1").unwrap().positions.len(), 1);
}

#[test]
fn simulation_of_a_negligible_quantity_trades_nothing() {
    let state = market_state();
    for quantity in [0, 1, -1, EPSILON, -EPSILON] {
        let result = calculate_effective_cost_and_final_supply(5, quantity, POST, &state).unwrap();
        assert_eq!(result.effective_cost, 0);
        assert_eq!(result.final_supply, 5);
        assert!(result.liquidated_users.is_empty());
    }
}

#[test]
fn simulation_in_a_post_without_market_follows_the_curve() {
    let state = AppState::new();
    let result = calculate_effective_cost_and_final_supply(SCALE, 3 * SCALE, 99, &state).unwrap();
    assert_eq!(result.effective_cost, 7_666_666_666_666_666_667);
    assert_eq!(result.final_supply, 4 * SCALE);
}

#[test]
fn simulation_reports_a_numeric_fault() {
    let state = market_state();
    let result = calculate_effective_cost_and_final_supply(0, i128::MAX, POST, &state);
    assert_eq!(result.unwrap_err(), TradeError::NumericFault);
    let result = calculate_effective_cost_and_final_supply(i128::MAX, SCALE, POST, &state);
    assert_eq!(result.unwrap_err(), TradeError::NumericFault);
}

#[test]
fn walk_crosses_a_threshold_going_up() {
    let index = ThresholdIndex::new()
        .record(2 * SCALE, entry(5, SCALE, "x"))
        .record(-SCALE, entry(1000, SCALE, "below"));
    let (cost, supply, unwound) = walk_thresholds(&index, 0, 3 * SCALE).unwrap();
    // 0 -> 2 along the curve, the jump to 3, then 3 -> 4.
    assert_eq!(cost, 6_754_849_801_359_705_482);
    assert!((as_real(cost) - (closed_integral(2.0) + closed_integral(4.0) - closed_integral(3.0))).abs() < 1e-9);
    assert_eq!(supply, 4 * SCALE);
    assert_eq!(unwound.len(), 1);
    assert_eq!(unwound[0].user_id, "x");
}

#[test]
fn walk_skips_a_threshold_at_the_start() {
    let index = ThresholdIndex::new().record(0, entry(-613_705_638_880_109_382, -SCALE, "x"));
    let (cost, supply, unwound) = walk_thresholds(&index, 0, SCALE).unwrap();
    assert_eq!(cost, 1_666_666_666_666_666_666);
    assert_eq!(supply, SCALE);
    assert!(unwound.is_empty());
    let (cost, supply, unwound) = walk_thresholds(&index, 0, -SCALE).unwrap();
    assert_eq!(cost, -613_705_638_880_109_382);
    assert!((as_real(cost) + (2.0 - 2.0 * 2.0f64.ln())).abs() < 1e-9);
    assert_eq!(supply, -SCALE);
    assert!(unwound.is_empty());
}

#[test]
fn walk_unwinds_every_entry_of_a_threshold_in_order() {
    let index = ThresholdIndex::new()
        .record(-SCALE, entry(-10, -SCALE, "first"))
        .record(-3 * SCALE, entry(-40, -SCALE, "passed over"))
        .record(-SCALE, entry(-20, -2 * SCALE, "second"));
    let (cost, supply, unwound) = walk_thresholds(&index, 0, -2 * SCALE).unwrap();
    // 0 -> -1, both jumps to -4, then -4 -> -5.
    assert_eq!(supply, -5 * SCALE);
    let names: Vec<&str> = unwound.iter().map(|e| e.user_id.as_str()).collect();
    assert_eq!(names, vec!["first", "second"]);
    assert_eq!(cost, -934_348_159_976_810_674);
}

#[test]
fn walk_faults_when_a_jump_leaves_the_range() {
    let index = ThresholdIndex::new().record(SCALE, entry(0, i128::MAX, "x"));
    assert!(walk_thresholds(&index, 0, 2 * SCALE).is_none());
    let index = ThresholdIndex::new().record(SCALE, entry(i128::MAX, 0, "x"));
    assert!(walk_thresholds(&index, 0, 2 * SCALE).is_none());
}

#[test]
fn users_on_one_threshold_are_all_recorded() {
    let mut state = market_state();
    for user in ["u1", "u2", "u3"] {
        state.set_account(
            user,
            UserAccount {
                balance: SCALE,
                realized_pnl: 0,
                exposure: FIVE_THIRDS,
                positions: vec![held(POST, SCALE, FIVE_THIRDS)],
            },
        );
    }
    state.set_account("flat", UserAccount::new());
    let index = build_thresholds(POST, &state);
    assert_eq!(index.keys(), vec![-249_999_999_250_000_000]);
    let mut names: Vec<String> =
        index.entries_at(-249_999_999_250_000_000).unwrap().iter().map(|e| e.user_id.clone()).collect();
    names.sort();
    assert_eq!(names, vec!["u1".to_string(), "u2".to_string(), "u3".to_string()]);
    assert!(build_thresholds(8, &state).keys().is_empty());
    update_liquidation_thresholds(POST, &mut state);
    let outcome = handle_sell("trader", POST, SCALE, &mut state).unwrap();
    assert_eq!(outcome.affected_users.len(), 4);
    assert_eq!(outcome.supply, -4 * SCALE);
    assert_eq!(outcome.effective_cost, -2_085_579_195_341_075_872);
    for user in ["u1", "u2", "u3"] {
        assert!(state.account(user).unwrap().positions.is_empty());
    }
}

#[test]
fn rebuilding_thresholds_of_a_missing_post_does_nothing() {
    let mut state = market_state();
    update_liquidation_thresholds(99, &mut state);
    assert_eq!(state.post_ids(), vec![POST]);
}

#[test]
fn exposure_is_the_sum_of_basis_magnitudes() {
    let positions = vec![held(1, SCALE, 300), held(2, -SCALE, -200), held(3, 0, 0)];
    assert_eq!(sum_exposure(&positions), Some(500));
    assert_eq!(sum_exposure(&vec![held(1, 1, i128::MAX), held(2, 1, 1)]), None);
    assert_eq!(sum_exposure(&vec![held(1, 1, i128::MIN)]), None);
    assert_eq!(sum_exposure(&vec![held(1, 1, i128::MIN + 1)]), Some(i128::MAX));
    let mut state = market_state();
    assert_eq!(calculate_total_exposure("nobody", &state), Some(0));
    handle_buy("bob", POST, SCALE, &mut state).unwrap();
    assert_eq!(calculate_total_exposure("bob", &state), Some(1_666_666_666_666_666_666));
}

#[test]
fn unrealized_pnl_and_margin_after_a_buy() {
    let mut state = market_state();
    assert_eq!(calculate_total_unrealized_pnl("nobody", &state), Some(0));
    assert_eq!(calculate_user_margin("nobody", &state), Some(INITIAL_BALANCE));
    handle_buy("bob", POST, SCALE, &mut state).unwrap();
    assert_eq!(calculate_total_unrealized_pnl("bob", &state), Some(333_333_333_333_333_334));
    assert_eq!(calculate_user_margin("bob", &state), Some(1_000_333_333_333_333_333_334));
}

#[test]
fn positions_in_missing_posts_count_for_nothing() {
    let mut state = market_state();
    state.set_account(
        "bob",
        UserAccount {
            balance: 5 * SCALE,
            realized_pnl: 0,
            exposure: 0,
            positions: vec![held(99, SCALE, SCALE / 2)],
        },
    );
    assert_eq!(calculate_total_unrealized_pnl("bob", &state), Some(0));
    assert_eq!(calculate_user_margin("bob", &state), Some(5 * SCALE));
}

#[test]
fn user_sync_after_a_buy() {
    let mut state = market_state();
    handle_buy("bob", POST, SCALE, &mut state).unwrap();
    match build_user_sync("bob", &state).unwrap() {
        ServerMessage::UserSync { balance, exposure, equity, positions, total_realized_pnl } => {
            assert_eq!(balance, INITIAL_BALANCE);
            assert_eq!(exposure, 1_666_666_666_666_666_666);
            assert_eq!(total_realized_pnl, -1_666_666_666_666_666_666);
            assert_eq!(equity, 998_666_666_666_666_666_668);
            assert_eq!(
                positions,
                vec![PositionDetail {
                    post_id: POST,
                    size: SCALE,
                    average_price: 1_666_666_666_666_666_666,
                    unrealized_pnl: 333_333_333_333_333_334,
                    liquidation_supply: None,
                }]
            );
        },
        other => panic!("{:?}", other),
    }
}

#[test]
fn user_sync_of_a_user_without_account_is_the_initial_account() {
    let state = market_state();
    match build_user_sync("nobody", &state).unwrap() {
        ServerMessage::UserSync { balance, exposure, equity, positions, total_realized_pnl } => {
            assert_eq!(balance, INITIAL_BALANCE);
            assert_eq!(exposure, 0);
            assert_eq!(equity, INITIAL_BALANCE);
            assert!(positions.is_empty());
            assert_eq!(total_realized_pnl, 0);
        },
        other => panic!("{:?}", other),
    }
}

#[test]
fn user_sync_shows_the_liquidation_supply_and_hides_flat_positions() {
    let mut state = market_state();
    thin_long(&mut state);
    let mut account = state.account("u1").unwrap();
    account.positions.push(held(POST + 1, 0, 0));
    state.set_account("u1", account);
    match build_user_sync("u1", &state).unwrap() {
        ServerMessage::UserSync { positions, equity, .. } => {
            assert_eq!(positions.len(), 1);
            assert_eq!(positions[0].liquidation_supply, Some(-249_999_999_250_000_000));
            assert_eq!(positions[0].average_price, FIVE_THIRDS);
            // Collateral 1, and the position is 2/3 under water at the price 1.
            assert_eq!(equity, 333_333_333_000_000_000);
        },
        other => panic!("{:?}", other),
    }
}

#[test]
fn user_sync_that_cannot_be_held_is_a_numeric_fault() {
    let mut state = market_state();
    state.set_account(
        "bob",
        UserAccount {
            balance: 0,
            realized_pnl: 0,
            exposure: 0,
            positions: vec![held(POST, 2_000_000_000, i128::MAX)],
        },
    );
    assert_eq!(build_user_sync("bob", &state).unwrap_err(), TradeError::NumericFault);
}

#[test]
fn trade_rebuilds_the_thresholds_of_the_traders_other_posts() {
    let mut state = market_state();
    open_market(8, 2, "author", "another".to_string(), &mut state);
    let mut account = UserAccount::new();
    account.balance = 2 * SCALE;
    state.set_account("u", account);
    handle_buy("u", POST, SCALE, &mut state).unwrap();
    assert_eq!(state.market(POST).unwrap().thresholds.keys(), vec![111_111_111_111_111_110]);
    // A trade in the other post spends collateral, which moves the threshold in the first.
    let outcome = handle_buy("u", 8, SCALE / 5, &mut state).unwrap();
    assert_eq!(outcome.effective_cost, 259_628_479_399_994_391);
    assert_eq!(state.market(POST).unwrap().thresholds.keys(), vec![351_603_711_359_994_015]);
    assert_eq!(state.market(8).unwrap().thresholds.keys(), vec![-5_732_082_976_291_154]);
    assert_eq!(state.account("u").unwrap().exposure, 1_926_295_146_066_661_057);
    assert_eq!(state.market(POST).unwrap().post.supply, SCALE);
}

#[test]
fn state_stays_sound_through_a_sequence_of_trades() {
    let mut state = market_state();
    open_market(8, 2, "author", "another".to_string(), &mut state);
    let mut thin = UserAccount::new();
    thin.balance = 3 * SCALE;
    state.set_account("thin", thin);
    let steps: [(&str, u128, i128); 8] = [
        ("ann", POST, 2 * SCALE),
        ("thin", POST, SCALE),
        ("ben", 8, -3 * SCALE),
        ("thin", 8, SCALE / 2),
        ("ann", POST, -2 * SCALE),
        ("ben", POST, -4 * SCALE),
        ("ann", 8, 5 * SCALE),
        ("ben", 8, 3 * SCALE),
    ];
    for (user, post, quantity) in steps {
        let result = if quantity > 0 {
            handle_buy(user, post, quantity, &mut state)
        } else {
            handle_sell(user, post, -quantity, &mut state)
        };
        assert!(result.is_ok());
        for id in state.post_ids() {
            let market = state.market(id).unwrap();
            assert_eq!(market.post.price, Some(fluke_server::bonding_curve::get_price(market.post.supply)));
            let rebuilt = build_thresholds(id, &state);
            assert_eq!(market.thresholds.keys(), rebuilt.keys());
            for key in rebuilt.keys() {
                let mut stored: Vec<String> = market
                    .thresholds
                    .entries_at(key)
                    .unwrap()
                    .iter()
                    .map(|e| e.user_id.clone())
                    .collect();
                let mut fresh: Vec<String> =
                    rebuilt.entries_at(key).unwrap().iter().map(|e| e.user_id.clone()).collect();
                stored.sort();
                fresh.sort();
                assert_eq!(stored, fresh);
            }
        }
        for name in state.user_ids() {
            let account = state.account(&name).unwrap();
            assert_eq!(sum_exposure(&account.positions), Some(account.exposure));
            for held in &account.positions {
                if held.detail.size.abs() < EPSILON {
                    assert_eq!(held.detail.size, 0);
                    assert_eq!(held.detail.total_cost_basis, 0);
                }
            }
        }
    }
}

#[test]
fn refusing_twice_gives_the_same_answer() {
    let mut state = market_state();
    let first = handle_buy("bob", POST, 500 * SCALE, &mut state).unwrap_err();
    let second = handle_buy("bob", POST, 500 * SCALE, &mut state).unwrap_err();
    assert_eq!(first, second);
    assert_eq!(first, TradeError::InsufficientCollateral);
}
