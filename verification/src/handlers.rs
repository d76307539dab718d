//! The requests: creating a post, buying and selling, and the messages that
//! follow from them.

use vstd::prelude::*;
use crate::bonding_curve::{get_price, price_at};
use crate::calculations::{
    average_price, calculate_average_price, calculate_effective_cost_and_final_supply,
    calculate_liquidation_supply, calculate_unrealized_pnl, current_price, effective_trade,
    liquidation_supply, quoted_price, sum_unrealized, unrealized_from, unrealized_pnl,
};
use crate::constants::{EPSILON, SCALE};
use crate::errors::TradeError;
use crate::fixed::{abs_int, add_amounts, checked, fits_i128};
use crate::models::{
    Client, ClientMessage, Post, PositionDetail, ServerMessage,
};
use crate::settlement::{
    accounts_after_trade, exposure_of, settle_accounts, sum_exposure, write_accounts,
};
use crate::state::{
    initial_account, AccountView, AppState, HeldPosition, Market, MarketView, UserAccount,
};
use crate::thresholds::{
    build_thresholds, refresh_thresholds, thresholds_match, thresholds_refreshed,
};
use crate::websocket::{
    broadcast_message, send_to_client, sessions_of, user_sessions, Audience, Delivery,
};

verus! {

/// The accounts with an initial account for the user, unless the user has
/// one.
pub open spec fn with_user(accounts: Map<Seq<char>, AccountView>, user_id: Seq<char>) -> Map<
    Seq<char>,
    AccountView,
> {
    if accounts.contains_key(user_id) {
        accounts
    } else {
        accounts.insert(user_id, initial_account())
    }
}

/// Gives the user an initial account, unless the user has one.
pub fn ensure_user_state_exists(user_id: &str, state: &mut AppState)
    ensures
        final(state).accounts() == with_user(old(state).accounts(), user_id@),
        final(state).markets() == old(state).markets(),
{
    if state.account(user_id).is_none() {
        state.set_account(user_id, UserAccount::new());
    }
}

/// The sum of the unrealized profits of a user's positions, each at the
/// price of its post; zero for a user without an account.
pub open spec fn total_unrealized_pnl(
    accounts: Map<Seq<char>, AccountView>,
    markets: Map<u128, MarketView>,
    user_id: Seq<char>,
) -> Option<i128> {
    if accounts.contains_key(user_id) {
        unrealized_from(accounts[user_id].positions, 0, markets, 0, 0)
    } else {
        Some(0i128)
    }
}

/// The sum of the unrealized profits of a user's positions; `None` when it
/// cannot be held.
pub fn calculate_total_unrealized_pnl(user_id: &str, state: &AppState) -> (total: Option<i128>)
    ensures
        total == total_unrealized_pnl(state.accounts(), state.markets(), user_id@),
{
    match state.account(user_id) {
        Some(account) => sum_unrealized(&account.positions, state, 0),
        None => Some(0),
    }
}

/// A user's exposure: the sum of the magnitudes of the cost bases of the
/// user's positions; zero for a user without an account.
pub open spec fn total_exposure(accounts: Map<Seq<char>, AccountView>, user_id: Seq<char>) -> Option<
    i128,
> {
    if accounts.contains_key(user_id) {
        exposure_of(accounts[user_id].positions)
    } else {
        Some(0i128)
    }
}

/// A user's exposure; `None` when it cannot be held.
pub fn calculate_total_exposure(user_id: &str, state: &AppState) -> (total: Option<i128>)
    ensures
        total == total_exposure(state.accounts(), user_id@),
{
    match state.account(user_id) {
        Some(account) => sum_exposure(&account.positions),
        None => Some(0),
    }
}

/// What a trade has done, for those who must be told of it.
#[derive(Debug)]
pub struct TradeOutcome {
    pub post_id: u128,
    /// The price after the trade.
    pub price: i128,
    /// The supply after the trade.
    pub supply: i128,
    /// What the trader paid.
    pub effective_cost: i128,
    /// The users whose accounts the trade touched: the trader, then the
    /// liquidated users in the order of their liquidation, each user once.
    pub affected_users: Vec<String>,
}

/// What a trade does, as the contracts speak of it.
pub struct Settlement {
    /// The accounts after the trade.
    pub accounts: Map<Seq<char>, AccountView>,
    /// The post after the trade.
    pub post: Post,
    pub cost: i128,
    pub liquidated: Seq<(String, i128)>,
}

/// A post with another supply, quoted at the price of that supply.
pub open spec fn moved_post(post: Post, supply: i128) -> Post {
    Post {
        id: post.id,
        user_id: post.user_id,
        content: post.content,
        timestamp: post.timestamp,
        price: Some(price_at(supply as int) as i128),
        supply,
    }
}

/// What a trade of `quantity` (above zero for a buy, below zero for a sell)
/// by a trader who has an account does, or why it is refused:
/// - `UnknownPost` when the post does not exist;
/// - `NumericFault` when an amount of the trade cannot be held;
/// - `InsufficientCollateral` when the effective cost is more than the
///   trader's balance and realized profit together, by more than the
///   tolerance;
/// - `NumericFault` when an amount in one of the accounts cannot be held.
pub open spec fn trade_settlement(
    markets: Map<u128, MarketView>,
    accounts: Map<Seq<char>, AccountView>,
    trader: Seq<char>,
    post_id: u128,
    quantity: i128,
) -> Result<Settlement, TradeError> {
    if !markets.contains_key(post_id) {
        Err(TradeError::UnknownPost)
    } else {
        match effective_trade(markets, accounts, post_id, markets[post_id].post.supply, quantity) {
            Some(effect) => if effect.cost > accounts[trader].balance
                + accounts[trader].realized_pnl + EPSILON {
                Err(TradeError::InsufficientCollateral)
            } else {
                match accounts_after_trade(
                    accounts,
                    trader,
                    post_id,
                    quantity,
                    effect.cost,
                    effect.liquidated,
                ) {
                    Some(after) => Ok(
                        Settlement {
                            accounts: after,
                            post: moved_post(markets[post_id].post, effect.supply),
                            cost: effect.cost,
                            liquidated: effect.liquidated,
                        },
                    ),
                    None => Err(TradeError::NumericFault),
                }
            },
            None => Err(TradeError::NumericFault),
        }
    }
}

/// Whether one of the users has the identifier.
pub open spec fn names_user(users: Seq<String>, user_id: Seq<char>) -> bool {
    exists|i: int| 0 <= i < users.len() && users[i]@ == user_id
}

/// `users`, followed by the users of `liquidated[from..]` that are not named
/// before.
pub open spec fn affected_from(users: Seq<String>, liquidated: Seq<(String, i128)>, from: int) -> Seq<
    String,
>
    decreases liquidated.len() - from,
{
    if from < 0 || from >= liquidated.len() {
        users
    } else if names_user(users, liquidated[from].0@) {
        affected_from(users, liquidated, from + 1)
    } else {
        affected_from(users.push(liquidated[from].0), liquidated, from + 1)
    }
}

/// A trade request was carried out as `trade_settlement` says. On an error
/// nothing has changed but that the trader has an account. On success the
/// accounts are those of the settlement and the post has its new supply and
/// price. The liquidation thresholds of the post are rebuilt from the new
/// accounts, and so are those of every post in which a user that the trade
/// touched holds a position; nothing else has changed in any market.
pub open spec fn trade_applied(
    markets_before: Map<u128, MarketView>,
    accounts_before: Map<Seq<char>, AccountView>,
    markets_after: Map<u128, MarketView>,
    accounts_after: Map<Seq<char>, AccountView>,
    trader: Seq<char>,
    post_id: u128,
    quantity: i128,
    result: Result<TradeOutcome, TradeError>,
) -> bool {
    match result {
        Ok(outcome) => match trade_settlement(
            markets_before,
            with_user(accounts_before, trader),
            trader,
            post_id,
            quantity,
        ) {
            Ok(settlement) => {
                &&& accounts_after == settlement.accounts
                &&& markets_after[post_id].post == settlement.post
                &&& thresholds_refreshed(
                    markets_before.insert(post_id, markets_after[post_id]),
                    markets_after,
                    accounts_after,
                    outcome.affected_users@,
                )
                &&& thresholds_match(markets_after[post_id].thresholds, accounts_after, post_id)
                &&& outcome.post_id == post_id
                &&& outcome.supply == settlement.post.supply
                &&& Some(outcome.price) == settlement.post.price
                &&& outcome.effective_cost == settlement.cost
                &&& outcome.affected_users@.len() > 0
                &&& outcome.affected_users@[0]@ == trader
                &&& outcome.affected_users@ == affected_from(
                    seq![outcome.affected_users@[0]],
                    settlement.liquidated,
                    0,
                )
            },
            Err(_) => false,
        },
        Err(e) => {
            &&& trade_settlement(
                markets_before,
                with_user(accounts_before, trader),
                trader,
                post_id,
                quantity,
            ) matches Err(refusal) && refusal == e
            &&& accounts_after == with_user(accounts_before, trader)
            &&& markets_after == markets_before
        },
    }
}

/// Whether one of the users has the identifier.
fn contains_user(users: &Vec<String>, user_id: &String) -> (found: bool)
    ensures
        found == names_user(users@, user_id@),
{
    let mut i: usize = 0;
    while i < users.len()
        invariant
            i <= users@.len(),
            forall|j: int| 0 <= j < i ==> users@[j]@ != user_id@,
        decreases users@.len() - i,
    {
        if users[i] == *user_id {
            return true;
        }
        i = i + 1;
    }
    false
}

/// The trader and the liquidated users, each once.
fn affected_users(trader: String, liquidated: &Vec<(String, i128)>) -> (users: Vec<String>)
    ensures
        users@.len() > 0,
        users@[0] == trader,
        users@ == affected_from(seq![trader], liquidated@, 0),
{
    let mut users: Vec<String> = Vec::new();
    users.push(trader);
    assert(users@ =~= seq![trader]);
    let mut i: usize = 0;
    while i < liquidated.len()
        invariant
            i <= liquidated@.len(),
            users@.len() > 0,
            users@[0] == trader,
            affected_from(users@, liquidated@, i as int) == affected_from(
                seq![trader],
                liquidated@,
                0,
            ),
        decreases liquidated@.len() - i,
    {
        if !contains_user(&users, &liquidated[i].0) {
            users.push(liquidated[i].0.clone());
        }
        i = i + 1;
    }
    users
}

/// Whether a cost is more than a balance and a realized profit together, by
/// more than the tolerance.
fn exceeds_collateral(cost: i128, balance: i128, realized_pnl: i128) -> (refused: bool)
    ensures
        refused == (cost > balance + realized_pnl + EPSILON),
{
    match add_amounts(balance, realized_pnl) {
        Some(collateral) => match add_amounts(collateral, EPSILON) {
            Some(limit) => cost > limit,
            None => false,
        },
        None => {
            if balance > 0 {
                false
            } else {
                match add_amounts(balance + EPSILON, realized_pnl) {
                    Some(limit) => cost > limit,
                    None => true,
                }
            }
        },
    }
}

/// Carries out a trade of `trade_quantity` (above zero for a buy, below zero
/// for a sell) for a trader in the market of a post: the trade is executed
/// through the post's liquidation thresholds, held against the trader's
/// collateral, and then written to the accounts and the market in one step;
/// at the end the thresholds of the post are rebuilt, and those of every
/// post in which the trader or a liquidated user holds a position. A refused
/// trade changes nothing, but that the trader has an account afterwards.
pub fn execute_trade(
    trader_user_id: &str,
    post_id: u128,
    trade_quantity: i128,
    state: &mut AppState,
) -> (result: Result<TradeOutcome, TradeError>)
    ensures
        trade_applied(
            old(state).markets(),
            old(state).accounts(),
            final(state).markets(),
            final(state).accounts(),
            trader_user_id@,
            post_id,
            trade_quantity,
            result,
        ),
{
    ensure_user_state_exists(trader_user_id, state);
    let market = match state.market(post_id) {
        Some(market) => market,
        None => {
            return Err(TradeError::UnknownPost);
        },
    };
    let trade = match calculate_effective_cost_and_final_supply(
        market.post.supply,
        trade_quantity,
        post_id,
        state,
    ) {
        Ok(trade) => trade,
        Err(e) => {
            return Err(e);
        },
    };
    let account = match state.account(trader_user_id) {
        Some(account) => account,
        None => {
            return Err(TradeError::Internal);
        },
    };
    if exceeds_collateral(trade.effective_cost, account.balance, account.realized_pnl) {
        return Err(TradeError::InsufficientCollateral);
    }
    let trader = trader_user_id.to_owned();
    let changes = match settle_accounts(
        &trader,
        post_id,
        trade_quantity,
        trade.effective_cost,
        &trade.liquidated_users,
        state,
    ) {
        Some(changes) => changes,
        None => {
            return Err(TradeError::NumericFault);
        },
    };
    write_accounts(&changes, state);
    let price = get_price(trade.final_supply);
    let post = Post {
        id: market.post.id,
        user_id: market.post.user_id,
        content: market.post.content,
        timestamp: market.post.timestamp,
        price: Some(price),
        supply: trade.final_supply,
    };
    let thresholds = build_thresholds(post_id, state);
    state.set_market(post_id, Market { post, thresholds });
    let affected = affected_users(trader, &trade.liquidated_users);
    let ghost moved = state.markets();
    refresh_thresholds(&affected, state);
    proof {
        assert(moved.contains_key(post_id));
        assert(state.markets().dom() == moved.dom());
        assert(state.markets().contains_key(post_id));
        assert(state.markets()[post_id].post == moved[post_id].post);
        assert(moved.insert(post_id, state.markets()[post_id]) =~= old(state).markets().insert(
            post_id,
            state.markets()[post_id],
        ));
        assert(thresholds_refreshed(
            old(state).markets().insert(post_id, state.markets()[post_id]),
            state.markets(),
            state.accounts(),
            affected@,
        )) by {
            assert(state.markets().contains_key(post_id));
        }
    }
    Ok(
        TradeOutcome {
            post_id,
            price,
            supply: trade.final_supply,
            effective_cost: trade.effective_cost,
            affected_users: affected,
        },
    )
}

/// A request to buy `quantity` of a post. A quantity that is not above the
/// tolerance is refused as `MalformedRequest`, and nothing changes; any
/// other is carried out as `execute_trade` does.
pub fn handle_buy(trader_user_id: &str, post_id: u128, quantity: i128, state: &mut AppState) -> (result:
    Result<TradeOutcome, TradeError>)
    ensures
        quantity <= EPSILON ==> {
            &&& result matches Err(e) && e == TradeError::MalformedRequest
            &&& final(state).markets() == old(state).markets()
            &&& final(state).accounts() == old(state).accounts()
        },
        quantity > EPSILON ==> trade_applied(
            old(state).markets(),
            old(state).accounts(),
            final(state).markets(),
            final(state).accounts(),
            trader_user_id@,
            post_id,
            quantity,
            result,
        ),
{
    if quantity <= EPSILON {
        return Err(TradeError::MalformedRequest);
    }
    execute_trade(trader_user_id, post_id, quantity, state)
}

/// A request to sell `quantity` of a post: the trade of the quantity
/// `-quantity`. A quantity that is not above the tolerance is refused as
/// `MalformedRequest`, and nothing changes.
pub fn handle_sell(trader_user_id: &str, post_id: u128, quantity: i128, state: &mut AppState) -> (result:
    Result<TradeOutcome, TradeError>)
    ensures
        quantity <= EPSILON ==> {
            &&& result matches Err(e) && e == TradeError::MalformedRequest
            &&& final(state).markets() == old(state).markets()
            &&& final(state).accounts() == old(state).accounts()
        },
        quantity > EPSILON ==> trade_applied(
            old(state).markets(),
            old(state).accounts(),
            final(state).markets(),
            final(state).accounts(),
            trader_user_id@,
            post_id,
            (-quantity) as i128,
            result,
        ),
{
    if quantity <= EPSILON {
        return Err(TradeError::MalformedRequest);
    }
    execute_trade(trader_user_id, post_id, -quantity, state)
}

/// The markets are as before, but that there is a market for the post,
/// with the liquidation thresholds that the accounts give it.
pub open spec fn market_opened(
    markets_before: Map<u128, MarketView>,
    markets_after: Map<u128, MarketView>,
    accounts: Map<Seq<char>, AccountView>,
    post: Post,
) -> bool {
    &&& markets_after == markets_before.insert(post.id, markets_after[post.id])
    &&& markets_after[post.id].post == post
    &&& thresholds_match(markets_after[post.id].thresholds, accounts, post.id)
}

/// `uuid::Uuid::new_v4`, as an integer: a random identifier. Nothing is
/// claimed of it. The call fails only where the operating system gives no
/// random bytes.
#[verifier::external_body]
fn fresh_post_id() -> (id: u128) {
    uuid::Uuid::new_v4().as_u128()
}

/// `chrono::Utc::now`, in milliseconds since the Unix epoch. Nothing is
/// claimed of it. The call fails only where the system clock stands before
/// 1970.
#[verifier::external_body]
fn current_time_millis() -> (now: i64) {
    chrono::Utc::now().timestamp_millis()
}

/// Opens the market of a new post: the supply is zero, the price is the
/// price at zero supply, and the liquidation thresholds are built from the
/// accounts (there are none while nobody holds a position in the post).
pub fn open_market(
    post_id: u128,
    timestamp: i64,
    user_id: &str,
    content: String,
    state: &mut AppState,
) -> (post: Post)
    ensures
        post.id == post_id,
        post.timestamp == timestamp,
        post.user_id@ == user_id@,
        post.content == content,
        post.supply == 0,
        post.price == Some(SCALE),
        market_opened(old(state).markets(), final(state).markets(), final(state).accounts(), post),
        final(state).accounts() == old(state).accounts(),
{
    let price = get_price(0);
    let thresholds = build_thresholds(post_id, state);
    let author = user_id.to_owned();
    let stored = Post {
        id: post_id,
        user_id: author.clone(),
        content: content.clone(),
        timestamp,
        price: Some(price),
        supply: 0,
    };
    let post = Post {
        id: post_id,
        user_id: author,
        content,
        timestamp,
        price: Some(price),
        supply: 0,
    };
    state.set_market(post_id, Market { post: stored, thresholds });
    post
}

/// A request to publish a post: a market is opened for it under a new
/// identifier, with the time of the request. The post is returned.
pub fn handle_create_post(user_id: &str, content: String, state: &mut AppState) -> (post: Post)
    ensures
        post.user_id@ == user_id@,
        post.content == content,
        post.supply == 0,
        post.price == Some(SCALE),
        market_opened(old(state).markets(), final(state).markets(), final(state).accounts(), post),
        final(state).accounts() == old(state).accounts(),
{
    let post_id = fresh_post_id();
    let timestamp = current_time_millis();
    open_market(post_id, timestamp, user_id, content, state)
}

/// What a user is told of one position: its size, the magnitude of its
/// average entry price, its unrealized profit at `price` and its liquidation
/// supply. `None` when one of them cannot be held.
pub open spec fn position_detail(
    held: HeldPosition,
    balance: i128,
    realized_pnl: i128,
    price: i128,
) -> Option<PositionDetail> {
    match average_price(held.detail) {
        Some(entry) => match unrealized_pnl(held.detail, price) {
            Some(pnl) => if fits_i128(abs_int(entry as int)) {
                Some(
                    PositionDetail {
                        post_id: held.post_id,
                        size: held.detail.size,
                        average_price: abs_int(entry as int) as i128,
                        unrealized_pnl: pnl,
                        liquidation_supply: liquidation_supply(
                            balance,
                            realized_pnl,
                            held.detail.size,
                            entry,
                        ),
                    },
                )
            } else {
                None
            },
            None => None,
        },
        None => None,
    }
}

/// `done`, followed by what the user is told of each of `positions[from..]`
/// that is larger than the tolerance and whose post exists.
pub open spec fn details_from(
    positions: Seq<HeldPosition>,
    from: int,
    balance: i128,
    realized_pnl: i128,
    markets: Map<u128, MarketView>,
    done: Seq<PositionDetail>,
) -> Option<Seq<PositionDetail>>
    decreases positions.len() - from,
{
    if from < 0 || from >= positions.len() {
        Some(done)
    } else if abs_int(positions[from].detail.size as int) > EPSILON && markets.contains_key(
        positions[from].post_id,
    ) {
        match position_detail(
            positions[from],
            balance,
            realized_pnl,
            quoted_price(markets[positions[from].post_id].post),
        ) {
            Some(detail) => details_from(
                positions,
                from + 1,
                balance,
                realized_pnl,
                markets,
                done.push(detail),
            ),
            None => None,
        }
    } else {
        details_from(positions, from + 1, balance, realized_pnl, markets, done)
    }
}

/// What a user is told of the account.
pub struct UserSyncView {
    pub balance: i128,
    pub exposure: i128,
    pub equity: i128,
    pub positions: Seq<PositionDetail>,
    pub total_realized_pnl: i128,
}

/// The account of a user, and the initial account for a user without one.
pub open spec fn account_or_initial(accounts: Map<Seq<char>, AccountView>, user_id: Seq<char>) -> AccountView {
    if accounts.contains_key(user_id) {
        accounts[user_id]
    } else {
        initial_account()
    }
}

/// What a user is told of the account: the balance, the exposure, the
/// realized profit, the positions that are larger than the tolerance, and
/// the equity, which is the balance, the realized profit and the unrealized
/// profits of those positions together (the balance and the realized
/// profit are added first). `None` when one of these amounts cannot be held.
pub open spec fn user_sync(
    accounts: Map<Seq<char>, AccountView>,
    markets: Map<u128, MarketView>,
    user_id: Seq<char>,
) -> Option<UserSyncView> {
    let account = account_or_initial(accounts, user_id);
    match details_from(
        account.positions,
        0,
        account.balance,
        account.realized_pnl,
        markets,
        Seq::empty(),
    ) {
        Some(positions) => match unrealized_from(account.positions, 0, markets, EPSILON, 0) {
            Some(unrealized) => match checked(account.balance + account.realized_pnl) {
                Some(collateral) => match checked(collateral + unrealized) {
                    Some(equity) => Some(
                        UserSyncView {
                            balance: account.balance,
                            exposure: account.exposure,
                            equity,
                            positions,
                            total_realized_pnl: account.realized_pnl,
                        },
                    ),
                    None => None,
                },
                None => None,
            },
            None => None,
        },
        None => None,
    }
}

/// The message tells the user what `view` holds.
pub open spec fn is_user_sync(message: ServerMessage, view: UserSyncView) -> bool {
    match message {
        ServerMessage::UserSync { balance, exposure, equity, positions, total_realized_pnl } => {
            &&& balance == view.balance
            &&& exposure == view.exposure
            &&& equity == view.equity
            &&& positions@ == view.positions
            &&& total_realized_pnl == view.total_realized_pnl
        },
        _ => false,
    }
}

/// The message reports the error.
pub open spec fn is_error(message: ServerMessage, error: TradeError) -> bool {
    match message {
        ServerMessage::Error { message } => message@ == (match error {
            TradeError::MalformedRequest => "Malformed request"@,
            TradeError::UnknownPost => "Post not found"@,
            TradeError::InsufficientCollateral => "Insufficient collateral"@,
            TradeError::NumericFault => "Trade calculation error"@,
            TradeError::Internal => "Internal error"@,
        }),
        _ => false,
    }
}

/// What a user is told of one position.
fn detail_position(held: &HeldPosition, balance: i128, realized_pnl: i128, price: i128) -> (detail:
    Option<PositionDetail>)
    ensures
        detail == position_detail(*held, balance, realized_pnl, price),
{
    let entry = match calculate_average_price(&held.detail) {
        Some(entry) => entry,
        None => {
            return None;
        },
    };
    let pnl = match calculate_unrealized_pnl(&held.detail, price) {
        Some(pnl) => pnl,
        None => {
            return None;
        },
    };
    if entry == i128::MIN {
        return None;
    }
    let magnitude: i128 = if entry < 0 {
        -entry
    } else {
        entry
    };
    Some(
        PositionDetail {
            post_id: held.post_id,
            size: held.detail.size,
            average_price: magnitude,
            unrealized_pnl: pnl,
            liquidation_supply: calculate_liquidation_supply(
                balance,
                realized_pnl,
                held.detail.size,
                entry,
            ),
        },
    )
}

/// The message that tells a user of the account: `UserSync`. The only error
/// is `NumericFault`, which is returned exactly when an amount of the
/// message cannot be held.
pub fn build_user_sync(user_id: &str, state: &AppState) -> (result: Result<ServerMessage, TradeError>)
    ensures
        match result {
            Ok(message) => user_sync(state.accounts(), state.markets(), user_id@) matches Some(view)
                && is_user_sync(message, view),
            Err(e) => e == TradeError::NumericFault && user_sync(
                state.accounts(),
                state.markets(),
                user_id@,
            ) is None,
        },
{
    let account = match state.account(user_id) {
        Some(account) => account,
        None => UserAccount::new(),
    };
    let mut details: Vec<PositionDetail> = Vec::new();
    let mut i: usize = 0;
    while i < account.positions.len()
        invariant
            i <= account.positions@.len(),
            account@ == account_or_initial(state.accounts(), user_id@),
            details_from(
                account.positions@,
                i as int,
                account.balance,
                account.realized_pnl,
                state.markets(),
                details@,
            ) == details_from(
                account.positions@,
                0,
                account.balance,
                account.realized_pnl,
                state.markets(),
                Seq::empty(),
            ),
        decreases account.positions@.len() - i,
    {
        let held = account.positions[i];
        if held.detail.size > EPSILON || held.detail.size < -EPSILON {
            match state.market(held.post_id) {
                Some(market) => {
                    match detail_position(
                        &held,
                        account.balance,
                        account.realized_pnl,
                        current_price(&market.post),
                    ) {
                        Some(detail) => {
                            details.push(detail);
                        },
                        None => {
                            return Err(TradeError::NumericFault);
                        },
                    }
                },
                None => {},
            }
        }
        i = i + 1;
    }
    let unrealized = match sum_unrealized(&account.positions, state, EPSILON) {
        Some(unrealized) => unrealized,
        None => {
            return Err(TradeError::NumericFault);
        },
    };
    let collateral = match add_amounts(account.balance, account.realized_pnl) {
        Some(collateral) => collateral,
        None => {
            return Err(TradeError::NumericFault);
        },
    };
    let equity = match add_amounts(collateral, unrealized) {
        Some(equity) => equity,
        None => {
            return Err(TradeError::NumericFault);
        },
    };
    Ok(
        ServerMessage::UserSync {
            balance: account.balance,
            exposure: account.exposure,
            equity,
            positions: details,
            total_realized_pnl: account.realized_pnl,
        },
    )
}

/// The message reports the state of a user's account, or that an amount of
/// it cannot be held.
pub open spec fn reports_account(
    message: ServerMessage,
    accounts: Map<Seq<char>, AccountView>,
    markets: Map<u128, MarketView>,
    user_id: Seq<char>,
) -> bool {
    match user_sync(accounts, markets, user_id) {
        Some(view) => is_user_sync(message, view),
        None => is_error(message, TradeError::NumericFault),
    }
}

/// The message that reports an error.
pub fn error_message(error: TradeError) -> (message: ServerMessage)
    ensures
        is_error(message, error),
{
    ServerMessage::Error { message: error.message().to_owned() }
}

/// The message that reports the state of a user's account.
pub fn send_user_sync_update(user_id: &String, clients: &Vec<Client>, state: &AppState) -> (delivery:
    Delivery)
    ensures
        delivery.recipients@ == sessions_of(clients@, Audience::User(user_id@)),
        reports_account(delivery.message, state.accounts(), state.markets(), user_id@),
{
    let message = match build_user_sync(user_id.as_str(), state) {
        Ok(message) => message,
        Err(e) => error_message(e),
    };
    Delivery { recipients: user_sessions(clients, user_id), message }
}

/// The messages that follow a trade: first every session is told of the
/// post's new price and supply, then every session of each user that the
/// trade touched is told of that user's account, in the order of those
/// users.
pub open spec fn is_trade_report(
    deliveries: Seq<Delivery>,
    outcome: TradeOutcome,
    clients: Seq<Client>,
    accounts: Map<Seq<char>, AccountView>,
    markets: Map<u128, MarketView>,
) -> bool {
    &&& deliveries.len() == 1 + outcome.affected_users@.len()
    &&& deliveries[0].recipients@ == sessions_of(clients, Audience::Everyone)
    &&& deliveries[0].message == (ServerMessage::MarketUpdate {
        post_id: outcome.post_id,
        price: outcome.price,
        supply: outcome.supply,
    })
    &&& forall|i: int|
        0 <= i < outcome.affected_users@.len() ==> {
            &&& (#[trigger] deliveries[1 + i]).recipients@ == sessions_of(
                clients,
                Audience::User(outcome.affected_users@[i]@),
            )
            &&& reports_account(
                deliveries[1 + i].message,
                accounts,
                markets,
                outcome.affected_users@[i]@,
            )
        }
}

/// The messages that follow a trade.
pub fn broadcast_market_and_position_updates(
    outcome: &TradeOutcome,
    clients: &Vec<Client>,
    state: &AppState,
) -> (deliveries: Vec<Delivery>)
    ensures
        is_trade_report(deliveries@, *outcome, clients@, state.accounts(), state.markets()),
{
    let mut deliveries: Vec<Delivery> = Vec::new();
    deliveries.push(
        broadcast_message(
            ServerMessage::MarketUpdate {
                post_id: outcome.post_id,
                price: outcome.price,
                supply: outcome.supply,
            },
            clients,
        ),
    );
    let mut i: usize = 0;
    while i < outcome.affected_users.len()
        invariant
            i <= outcome.affected_users@.len(),
            deliveries@.len() == 1 + i,
            deliveries@[0].recipients@ == sessions_of(clients@, Audience::Everyone),
            deliveries@[0].message == (ServerMessage::MarketUpdate {
                post_id: outcome.post_id,
                price: outcome.price,
                supply: outcome.supply,
            }),
            forall|j: int|
                0 <= j < i ==> {
                    &&& (#[trigger] deliveries@[1 + j]).recipients@ == sessions_of(
                        clients@,
                        Audience::User(outcome.affected_users@[j]@),
                    )
                    &&& reports_account(
                        deliveries@[1 + j].message,
                        state.accounts(),
                        state.markets(),
                        outcome.affected_users@[j]@,
                    )
                },
        decreases outcome.affected_users@.len() - i,
    {
        deliveries.push(send_user_sync_update(&outcome.affected_users[i], clients, state));
        i = i + 1;
    }
    deliveries
}

/// The messages that answer a trade request: the report of the trade, or
/// the error for the session that asked.
pub open spec fn is_trade_reply(
    deliveries: Seq<Delivery>,
    client_id: u128,
    result: Result<TradeOutcome, TradeError>,
    clients: Seq<Client>,
    accounts: Map<Seq<char>, AccountView>,
    markets: Map<u128, MarketView>,
) -> bool {
    match result {
        Ok(outcome) => is_trade_report(deliveries, outcome, clients, accounts, markets),
        Err(e) => {
            &&& deliveries.len() == 1
            &&& deliveries[0].recipients@ == sessions_of(clients, Audience::Session(client_id))
            &&& is_error(deliveries[0].message, e)
        },
    }
}

/// The messages that answer a trade request.
pub fn report_trade(
    client_id: u128,
    result: &Result<TradeOutcome, TradeError>,
    clients: &Vec<Client>,
    state: &AppState,
) -> (deliveries: Vec<Delivery>)
    ensures
        is_trade_reply(
            deliveries@,
            client_id,
            *result,
            clients@,
            state.accounts(),
            state.markets(),
        ),
{
    match result {
        Ok(outcome) => broadcast_market_and_position_updates(outcome, clients, state),
        Err(e) => {
            let mut deliveries: Vec<Delivery> = Vec::new();
            deliveries.push(send_to_client(client_id, error_message(*e), clients));
            deliveries
        },
    }
}

/// A request was handled. Whatever the request, its user has an account
/// afterwards.
/// - `CreatePost`: a market is open for the new post, and every session is
///   told of the post.
/// - `Buy` and `Sell`: the trade was carried out or refused as `handle_buy`
///   and `handle_sell` say, with some result, and the messages are the
///   reply to that result.
pub open spec fn request_handled(
    markets_before: Map<u128, MarketView>,
    accounts_before: Map<Seq<char>, AccountView>,
    markets_after: Map<u128, MarketView>,
    accounts_after: Map<Seq<char>, AccountView>,
    client_id: u128,
    user_id: Seq<char>,
    msg: ClientMessage,
    clients: Seq<Client>,
    deliveries: Seq<Delivery>,
) -> bool {
    match msg {
        ClientMessage::CreatePost { content } => {
            &&& accounts_after == with_user(accounts_before, user_id)
            &&& deliveries.len() == 1
            &&& deliveries[0].recipients@ == sessions_of(clients, Audience::Everyone)
            &&& deliveries[0].message matches ServerMessage::NewPost { post }
            &&& post.user_id@ == user_id
            &&& post.content == content
            &&& post.supply == 0
            &&& post.price == Some(SCALE)
            &&& market_opened(markets_before, markets_after, accounts_after, post)
        },
        ClientMessage::Buy { post_id, quantity } => exists|
            result: Result<TradeOutcome, TradeError>,
        |
            {
                &&& #[trigger] is_trade_reply(
                    deliveries,
                    client_id,
                    result,
                    clients,
                    accounts_after,
                    markets_after,
                )
                &&& trade_handled(
                    markets_before,
                    with_user(accounts_before, user_id),
                    markets_after,
                    accounts_after,
                    user_id,
                    post_id,
                    quantity,
                    quantity,
                    result,
                )
            },
        ClientMessage::Sell { post_id, quantity } => exists|
            result: Result<TradeOutcome, TradeError>,
        |
            {
                &&& #[trigger] is_trade_reply(
                    deliveries,
                    client_id,
                    result,
                    clients,
                    accounts_after,
                    markets_after,
                )
                &&& trade_handled(
                    markets_before,
                    with_user(accounts_before, user_id),
                    markets_after,
                    accounts_after,
                    user_id,
                    post_id,
                    quantity,
                    (-quantity) as i128,
                    result,
                )
            },
    }
}

/// A request to trade `quantity` was handled: refused as `MalformedRequest`
/// with nothing changed if the quantity is not above the tolerance, and
/// else carried out as the trade of `signed_quantity`.
pub open spec fn trade_handled(
    markets_before: Map<u128, MarketView>,
    accounts_before: Map<Seq<char>, AccountView>,
    markets_after: Map<u128, MarketView>,
    accounts_after: Map<Seq<char>, AccountView>,
    trader: Seq<char>,
    post_id: u128,
    quantity: i128,
    signed_quantity: i128,
    result: Result<TradeOutcome, TradeError>,
) -> bool {
    if quantity <= EPSILON {
        &&& result matches Err(e) && e == TradeError::MalformedRequest
        &&& markets_after == markets_before
        &&& accounts_after == accounts_before
    } else {
        trade_applied(
            markets_before,
            accounts_before,
            markets_after,
            accounts_after,
            trader,
            post_id,
            signed_quantity,
            result,
        )
    }
}

/// Handles one request of a session: gives the user an account if the user
/// has none, carries the request out, and returns the messages that follow
/// from it, in the order in which they are to be queued.
pub fn handle_client_message(
    client_id: u128,
    user_id: &str,
    msg: ClientMessage,
    clients: &Vec<Client>,
    state: &mut AppState,
) -> (deliveries: Vec<Delivery>)
    ensures
        request_handled(
            old(state).markets(),
            old(state).accounts(),
            final(state).markets(),
            final(state).accounts(),
            client_id,
            user_id@,
            msg,
            clients@,
            deliveries@,
        ),
{
    ensure_user_state_exists(user_id, state);
    match msg {
        ClientMessage::CreatePost { content } => {
            let post = handle_create_post(user_id, content, state);
            let mut deliveries: Vec<Delivery> = Vec::new();
            deliveries.push(broadcast_message(ServerMessage::NewPost { post }, clients));
            deliveries
        },
        ClientMessage::Buy { post_id, quantity } => {
            let result = handle_buy(user_id, post_id, quantity, state);
            let deliveries = report_trade(client_id, &result, clients, state);
            proof {
                assert(is_trade_reply(
                    deliveries@,
                    client_id,
                    result,
                    clients@,
                    state.accounts(),
                    state.markets(),
                ));
            }
            deliveries
        },
        ClientMessage::Sell { post_id, quantity } => {
            let result = handle_sell(user_id, post_id, quantity, state);
            let deliveries = report_trade(client_id, &result, clients, state);
            proof {
                assert(is_trade_reply(
                    deliveries@,
                    client_id,
                    result,
                    clients@,
                    state.accounts(),
                    state.markets(),
                ));
            }
            deliveries
        },
    }
}

/// A post as a new session is told of it: quoted at the price of its supply.
pub open spec fn current_post(post: Post) -> Post {
    moved_post(post, post.supply)
}

/// The posts are those of the markets, each once and each quoted at the
/// price of its supply.
pub open spec fn lists_markets(posts: Seq<Post>, markets: Map<u128, MarketView>) -> bool {
    exists|ids: Seq<u128>|
        {
            &&& ids.no_duplicates()
            &&& forall|id: u128| ids.contains(id) <==> markets.contains_key(id)
            &&& #[trigger] ids.len() == posts.len()
            &&& forall|i: int| 0 <= i < ids.len() ==> posts[i] == current_post(markets[ids[i]].post)
        }
}

/// The message that tells a new session of every post: `InitialState`.
pub fn initial_state(state: &AppState) -> (message: ServerMessage)
    ensures
        message matches ServerMessage::InitialState { posts } && lists_markets(
            posts@,
            state.markets(),
        ),
{
    let ids = state.post_ids();
    let mut posts: Vec<Post> = Vec::new();
    let mut i: usize = 0;
    while i < ids.len()
        invariant
            i <= ids@.len(),
            posts@.len() == i,
            forall|id: u128| ids@.contains(id) <==> state.markets().contains_key(id),
            forall|j: int| 0 <= j < i ==> posts@[j] == current_post(state.markets()[ids@[j]].post),
        decreases ids@.len() - i,
    {
        assert(ids@.contains(ids@[i as int]));
        match state.market(ids[i]) {
            Some(market) => {
                let price = get_price(market.post.supply);
                posts.push(
                    Post {
                        id: market.post.id,
                        user_id: market.post.user_id,
                        content: market.post.content,
                        timestamp: market.post.timestamp,
                        price: Some(price),
                        supply: market.post.supply,
                    },
                );
            },
            None => {},
        }
        i = i + 1;
    }
    ServerMessage::InitialState { posts }
}

/// Admits a session: the user is given an account if the user has none, and
/// the session is told of every post and then of the user's account.
pub fn handle_connection(client_id: u128, user_id: &str, state: &mut AppState) -> (deliveries: Vec<
    Delivery,
>)
    ensures
        final(state).accounts() == with_user(old(state).accounts(), user_id@),
        final(state).markets() == old(state).markets(),
        deliveries@.len() == 2,
        deliveries@[0].recipients@ == seq![client_id],
        deliveries@[0].message matches ServerMessage::InitialState { posts } && lists_markets(
            posts@,
            final(state).markets(),
        ),
        deliveries@[1].recipients@ == seq![client_id],
        reports_account(
            deliveries@[1].message,
            final(state).accounts(),
            final(state).markets(),
            user_id@,
        ),
{
    ensure_user_state_exists(user_id, state);
    let sync = match build_user_sync(user_id, state) {
        Ok(message) => message,
        Err(e) => error_message(e),
    };
    let mut first: Vec<u128> = Vec::new();
    first.push(client_id);
    let mut second: Vec<u128> = Vec::new();
    second.push(client_id);
    let mut deliveries: Vec<Delivery> = Vec::new();
    deliveries.push(Delivery { recipients: first, message: initial_state(state) });
    deliveries.push(Delivery { recipients: second, message: sync });
    assert(deliveries@[0].recipients@ =~= seq![client_id]);
    assert(deliveries@[1].recipients@ =~= seq![client_id]);
    deliveries
}

} // verus!
