//! What a trade does to the accounts: the trader's position, realized
//! profit and exposure, and the same of every user the trade liquidates.
//! The changes are computed first and written only when all of them can be
//! held.

use vstd::prelude::*;
use crate::constants::EPSILON;
use crate::fixed::{abs_int, add_amounts, fits_i128, is_negligible, sub_amounts};
use crate::models::UserPositionDetail;
use crate::state::{
    position_of, with_position, without_position, AccountView, AppState, HeldPosition,
    UserAccount,
};

verus! {

/// `sum` and the magnitudes of the cost bases of `positions[from..]`; `None`
/// when a sum cannot be held.
pub open spec fn exposure_from(positions: Seq<HeldPosition>, from: int, sum: i128) -> Option<i128>
    decreases positions.len() - from,
{
    if from < 0 || from >= positions.len() {
        Some(sum)
    } else if fits_i128(sum + abs_int(positions[from].detail.total_cost_basis as int)) {
        exposure_from(
            positions,
            from + 1,
            (sum + abs_int(positions[from].detail.total_cost_basis as int)) as i128,
        )
    } else {
        None
    }
}

/// The exposure of a set of positions: the sum of the magnitudes of their
/// cost bases.
pub open spec fn exposure_of(positions: Seq<HeldPosition>) -> Option<i128> {
    exposure_from(positions, 0, 0)
}

/// The exposure of a set of positions.
pub fn sum_exposure(positions: &Vec<HeldPosition>) -> (total: Option<i128>)
    ensures
        total == exposure_of(positions@),
{
    let mut sum: i128 = 0;
    let mut i: usize = 0;
    while i < positions.len()
        invariant
            i <= positions@.len(),
            0 <= sum,
            exposure_from(positions@, i as int, sum) == exposure_of(positions@),
        decreases positions@.len() - i,
    {
        let basis: i128 = positions[i].detail.total_cost_basis;
        if basis == i128::MIN {
            return None;
        }
        let magnitude: i128 = if basis < 0 {
            -basis
        } else {
            basis
        };
        sum = match add_amounts(sum, magnitude) {
            Some(sum) => sum,
            None => {
                return None;
            },
        };
        i = i + 1;
    }
    Some(sum)
}

/// A position after a trade of `quantity` that costs `cost`: the size grows
/// by the quantity and the cost basis by the cost, and a position whose size
/// has become negligible is reset to zero size and zero basis. `None` when
/// the size or the basis cannot be held.
pub open spec fn position_after(held: UserPositionDetail, quantity: i128, cost: i128) -> Option<
    UserPositionDetail,
> {
    if fits_i128(held.size + quantity) && fits_i128(held.total_cost_basis + cost) {
        if abs_int(held.size + quantity) < EPSILON {
            Some(UserPositionDetail { size: 0, total_cost_basis: 0 })
        } else {
            Some(
                UserPositionDetail {
                    size: (held.size + quantity) as i128,
                    total_cost_basis: (held.total_cost_basis + cost) as i128,
                },
            )
        }
    } else {
        None
    }
}

/// The position that an account holds in a post, and a position of zero
/// size where it holds none.
pub open spec fn held_in(positions: Seq<HeldPosition>, post_id: u128) -> UserPositionDetail {
    match position_of(positions, post_id) {
        Some(position) => position,
        None => UserPositionDetail { size: 0, total_cost_basis: 0 },
    }
}

/// The trader's account after a trade: the position in the post is updated,
/// the realized profit falls by the cost, and the exposure is that of the
/// new positions. The balance stays.
pub open spec fn trader_after(account: AccountView, post_id: u128, quantity: i128, cost: i128) -> Option<
    AccountView,
> {
    match position_after(held_in(account.positions, post_id), quantity, cost) {
        Some(position) => match exposure_of(with_position(account.positions, post_id, position)) {
            Some(exposure) => if fits_i128(account.realized_pnl - cost) {
                Some(
                    AccountView {
                        balance: account.balance,
                        realized_pnl: (account.realized_pnl - cost) as i128,
                        exposure,
                        positions: with_position(account.positions, post_id, position),
                    },
                )
            } else {
                None
            },
            None => None,
        },
        None => None,
    }
}

/// A liquidated user's account after the forced trade: the position in the
/// post is gone, the realized profit has grown by what the forced trade
/// settles, and the exposure is that of the positions left. An account
/// without a position in the post stays as it is.
pub open spec fn liquidated_after(account: AccountView, post_id: u128, pnl: i128) -> Option<
    AccountView,
> {
    if position_of(account.positions, post_id) is None {
        Some(account)
    } else {
        match exposure_of(without_position(account.positions, post_id)) {
            Some(exposure) => if fits_i128(account.realized_pnl + pnl) {
                Some(
                    AccountView {
                        balance: account.balance,
                        realized_pnl: (account.realized_pnl + pnl) as i128,
                        exposure,
                        positions: without_position(account.positions, post_id),
                    },
                )
            } else {
                None
            },
            None => None,
        }
    }
}

/// The accounts after the liquidations `liquidated[from..]`, one after the
/// other.
pub open spec fn settle_from(
    accounts: Map<Seq<char>, AccountView>,
    liquidated: Seq<(String, i128)>,
    from: int,
    post_id: u128,
) -> Option<Map<Seq<char>, AccountView>>
    decreases liquidated.len() - from,
{
    if from < 0 || from >= liquidated.len() {
        Some(accounts)
    } else if accounts.contains_key(liquidated[from].0@) {
        match liquidated_after(accounts[liquidated[from].0@], post_id, liquidated[from].1) {
            Some(account) => settle_from(
                accounts.insert(liquidated[from].0@, account),
                liquidated,
                from + 1,
                post_id,
            ),
            None => None,
        }
    } else {
        settle_from(accounts, liquidated, from + 1, post_id)
    }
}

/// The accounts after a trade: first the trader's account is updated, then
/// each liquidated user's, in the order of the liquidations. `None` when an
/// amount in one of the accounts cannot be held.
pub open spec fn accounts_after_trade(
    accounts: Map<Seq<char>, AccountView>,
    trader: Seq<char>,
    post_id: u128,
    quantity: i128,
    cost: i128,
    liquidated: Seq<(String, i128)>,
) -> Option<Map<Seq<char>, AccountView>> {
    match trader_after(accounts[trader], post_id, quantity, cost) {
        Some(account) => settle_from(accounts.insert(trader, account), liquidated, 0, post_id),
        None => None,
    }
}

/// The accounts with the first `upto` changes written, each over what was
/// there.
pub open spec fn apply_changes(
    accounts: Map<Seq<char>, AccountView>,
    changes: Seq<(String, UserAccount)>,
    upto: int,
) -> Map<Seq<char>, AccountView>
    decreases upto,
{
    if upto <= 0 {
        accounts
    } else {
        apply_changes(accounts, changes, upto - 1).insert(
            changes[upto - 1].0@,
            changes[upto - 1].1@,
        )
    }
}

/// Changes that do not name a user leave that user's account as it is.
proof fn lemma_changes_elsewhere(
    accounts: Map<Seq<char>, AccountView>,
    changes: Seq<(String, UserAccount)>,
    from: int,
    upto: int,
    user_id: Seq<char>,
)
    requires
        0 <= from <= upto <= changes.len(),
        forall|j: int| from <= j < upto ==> changes[j].0@ != user_id,
    ensures
        apply_changes(accounts, changes, upto).contains_key(user_id) == apply_changes(
            accounts,
            changes,
            from,
        ).contains_key(user_id),
        apply_changes(accounts, changes, upto)[user_id] == apply_changes(accounts, changes, from)[user_id],
    decreases upto - from,
{
    if from < upto {
        lemma_changes_elsewhere(accounts, changes, from, upto - 1, user_id);
    }
}

/// A copy of an account.
fn copy_account(account: &UserAccount) -> (copy: UserAccount)
    ensures
        copy@ == account@,
{
    let mut positions: Vec<HeldPosition> = Vec::new();
    let mut i: usize = 0;
    while i < account.positions.len()
        invariant
            i <= account.positions@.len(),
            positions@ == account.positions@.subrange(0, i as int),
        decreases account.positions@.len() - i,
    {
        positions.push(account.positions[i]);
        proof {
            assert(account.positions@.subrange(0, i as int).push(account.positions@[i as int])
                =~= account.positions@.subrange(0, i + 1));
        }
        i = i + 1;
    }
    proof {
        assert(account.positions@.subrange(0, i as int) =~= account.positions@);
    }
    UserAccount {
        balance: account.balance,
        realized_pnl: account.realized_pnl,
        exposure: account.exposure,
        positions,
    }
}

/// The account of a user once the changes are written.
fn changed_account(changes: &Vec<(String, UserAccount)>, state: &AppState, user_id: &String) -> (found:
    Option<UserAccount>)
    ensures
        match found {
            Some(account) => apply_changes(
                state.accounts(),
                changes@,
                changes@.len() as int,
            ).contains_key(user_id@) && account@ == apply_changes(
                state.accounts(),
                changes@,
                changes@.len() as int,
            )[user_id@],
            None => !apply_changes(state.accounts(), changes@, changes@.len() as int).contains_key(
                user_id@,
            ),
        },
{
    let mut i: usize = changes.len();
    while i > 0
        invariant
            i <= changes@.len(),
            forall|j: int| i <= j < changes@.len() ==> changes@[j].0@ != user_id@,
        decreases i,
    {
        i = i - 1;
        if changes[i].0 == *user_id {
            proof {
                lemma_changes_elsewhere(
                    state.accounts(),
                    changes@,
                    i + 1,
                    changes@.len() as int,
                    user_id@,
                );
            }
            return Some(copy_account(&changes[i].1));
        }
    }
    proof {
        lemma_changes_elsewhere(state.accounts(), changes@, 0, changes@.len() as int, user_id@);
    }
    state.account(user_id.as_str())
}

/// The trader's position after a trade.
fn update_position(held: UserPositionDetail, quantity: i128, cost: i128) -> (position: Option<
    UserPositionDetail,
>)
    ensures
        position == position_after(held, quantity, cost),
{
    let size = add_amounts(held.size, quantity);
    let basis = add_amounts(held.total_cost_basis, cost);
    match (size, basis) {
        (Some(size), Some(basis)) => {
            if is_negligible(size) {
                Some(UserPositionDetail { size: 0, total_cost_basis: 0 })
            } else {
                Some(UserPositionDetail { size, total_cost_basis: basis })
            }
        },
        _ => None,
    }
}

/// The trader's account after a trade.
fn update_trader(account: UserAccount, post_id: u128, quantity: i128, cost: i128) -> (updated: Option<
    UserAccount,
>)
    ensures
        match updated {
            Some(updated) => trader_after(account@, post_id, quantity, cost) == Some(updated@),
            None => trader_after(account@, post_id, quantity, cost) is None,
        },
{
    let mut account = account;
    let held = match account.position(post_id) {
        Some(position) => position,
        None => UserPositionDetail { size: 0, total_cost_basis: 0 },
    };
    let position = match update_position(held, quantity, cost) {
        Some(position) => position,
        None => {
            return None;
        },
    };
    account.set_position(post_id, position);
    let exposure = match sum_exposure(&account.positions) {
        Some(exposure) => exposure,
        None => {
            return None;
        },
    };
    let realized = match sub_amounts(account.realized_pnl, cost) {
        Some(realized) => realized,
        None => {
            return None;
        },
    };
    account.exposure = exposure;
    account.realized_pnl = realized;
    Some(account)
}

/// A liquidated user's account after the forced trade.
fn update_liquidated(account: UserAccount, post_id: u128, pnl: i128) -> (updated: Option<UserAccount>)
    ensures
        match updated {
            Some(updated) => liquidated_after(account@, post_id, pnl) == Some(updated@),
            None => liquidated_after(account@, post_id, pnl) is None,
        },
{
    let mut account = account;
    if !account.remove_position(post_id) {
        return Some(account);
    }
    let exposure = match sum_exposure(&account.positions) {
        Some(exposure) => exposure,
        None => {
            return None;
        },
    };
    let realized = match add_amounts(account.realized_pnl, pnl) {
        Some(realized) => realized,
        None => {
            return None;
        },
    };
    account.exposure = exposure;
    account.realized_pnl = realized;
    Some(account)
}

/// The changes that a trade makes to the accounts, in the order in which
/// they are to be written. Nothing is written here.
pub(crate) fn settle_accounts(
    trader: &String,
    post_id: u128,
    quantity: i128,
    cost: i128,
    liquidated: &Vec<(String, i128)>,
    state: &AppState,
) -> (r: Option<Vec<(String, UserAccount)>>)
    requires
        state.accounts().contains_key(trader@),
    ensures
        match r {
            Some(changes) => accounts_after_trade(
                state.accounts(),
                trader@,
                post_id,
                quantity,
                cost,
                liquidated@,
            ) == Some(apply_changes(state.accounts(), changes@, changes@.len() as int)),
            None => accounts_after_trade(
                state.accounts(),
                trader@,
                post_id,
                quantity,
                cost,
                liquidated@,
            ) is None,
        },
{
    let account = match state.account(trader.as_str()) {
        Some(account) => account,
        None => {
            return None;
        },
    };
    let updated = match update_trader(account, post_id, quantity, cost) {
        Some(updated) => updated,
        None => {
            return None;
        },
    };
    let mut changes: Vec<(String, UserAccount)> = Vec::new();
    changes.push((trader.clone(), updated));
    assert(apply_changes(state.accounts(), changes@, 1) == state.accounts().insert(
        trader@,
        updated@,
    )) by {
        assert(apply_changes(state.accounts(), changes@, 0) == state.accounts());
    }
    let mut i: usize = 0;
    while i < liquidated.len()
        invariant
            i <= liquidated@.len(),
            settle_from(
                apply_changes(state.accounts(), changes@, changes@.len() as int),
                liquidated@,
                i as int,
                post_id,
            ) == accounts_after_trade(
                state.accounts(),
                trader@,
                post_id,
                quantity,
                cost,
                liquidated@,
            ),
        decreases liquidated@.len() - i,
    {
        let ghost before = changes@;
        match changed_account(&changes, state, &liquidated[i].0) {
            Some(account) => {
                let updated = match update_liquidated(account, post_id, liquidated[i].1) {
                    Some(updated) => updated,
                    None => {
                        return None;
                    },
                };
                changes.push((liquidated[i].0.clone(), updated));
                proof {
                    lemma_changes_prefix(
                        state.accounts(),
                        before,
                        changes@,
                        before.len() as int,
                    );
                }
            },
            None => {},
        }
        i = i + 1;
    }
    Some(changes)
}

/// Changes that were made before others are what they were alone.
proof fn lemma_changes_prefix(
    accounts: Map<Seq<char>, AccountView>,
    shorter: Seq<(String, UserAccount)>,
    longer: Seq<(String, UserAccount)>,
    upto: int,
)
    requires
        0 <= upto <= shorter.len() <= longer.len(),
        forall|j: int| 0 <= j < shorter.len() ==> shorter[j] == longer[j],
    ensures
        apply_changes(accounts, longer, upto) == apply_changes(accounts, shorter, upto),
    decreases upto,
{
    if upto > 0 {
        lemma_changes_prefix(accounts, shorter, longer, upto - 1);
    }
}

/// Writes the changes to the accounts.
pub(crate) fn write_accounts(changes: &Vec<(String, UserAccount)>, state: &mut AppState)
    ensures
        final(state).accounts() == apply_changes(
            old(state).accounts(),
            changes@,
            changes@.len() as int,
        ),
        final(state).markets() == old(state).markets(),
{
    let mut i: usize = 0;
    while i < changes.len()
        invariant
            i <= changes@.len(),
            state.accounts() == apply_changes(old(state).accounts(), changes@, i as int),
            state.markets() == old(state).markets(),
        decreases changes@.len() - i,
    {
        state.set_account(changes[i].0.as_str(), copy_account(&changes[i].1));
        i = i + 1;
    }
}

} // verus!
