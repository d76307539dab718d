//! The liquidation thresholds of a post: for each account the supply at
//! which its position in the post is liquidated, and the index of all of
//! them, which is rebuilt from the accounts.

use vstd::prelude::*;
use crate::bonding_curve::{calculate_smooth_cost, priced};
use crate::calculations::{
    average_price, calculate_average_price, calculate_liquidation_supply, liquidation_supply,
};
use crate::constants::EPSILON;
use crate::fixed::{abs_int, fits_i128, is_negligible, sub_amounts};
use crate::state::{
    lemma_position_slot, position_of, AccountView, AppState, Market, MarketView, UserAccount,
};
use crate::threshold_index::{with_entry, LiquidationEntry, ThresholdIndex};

verus! {

/// The liquidation threshold of one position.
pub struct Threshold {
    /// The liquidation supply.
    pub key: i128,
    pub cost_unwind: i128,
    pub size_unwind: i128,
}

/// The liquidation threshold that an account has in a post: the liquidation
/// supply of its position there, the supply change of the forced trade (the
/// negated size) and what that trade costs along the curve from the
/// liquidation supply. `None` for an account without a position of more
/// than negligible size in the post, for a position that cannot be
/// liquidated, and where one of these amounts cannot be held.
pub open spec fn threshold_of(account: AccountView, post_id: u128) -> Option<Threshold> {
    match position_of(account.positions, post_id) {
        Some(position) => if abs_int(position.size as int) < EPSILON {
            None
        } else {
            match average_price(position) {
                Some(entry) => match liquidation_supply(
                    account.balance,
                    account.realized_pnl,
                    position.size,
                    entry,
                ) {
                    Some(key) => if fits_i128(-position.size) && fits_i128(key - position.size) {
                        match priced(key as int, key - position.size) {
                            Some(cost) => Some(
                                Threshold {
                                    key,
                                    cost_unwind: cost,
                                    size_unwind: (-position.size) as i128,
                                },
                            ),
                            None => None,
                        }
                    } else {
                        None
                    },
                    None => None,
                },
                None => None,
            }
        },
        None => None,
    }
}

/// The liquidation threshold that an account has in a post.
pub fn compute_threshold(account: &UserAccount, post_id: u128) -> (threshold: Option<Threshold>)
    ensures
        threshold == threshold_of(account@, post_id),
{
    let position = match account.position(post_id) {
        Some(position) => position,
        None => {
            return None;
        },
    };
    if is_negligible(position.size) {
        return None;
    }
    let entry = match calculate_average_price(&position) {
        Some(entry) => entry,
        None => {
            return None;
        },
    };
    let key = match calculate_liquidation_supply(
        account.balance,
        account.realized_pnl,
        position.size,
        entry,
    ) {
        Some(key) => key,
        None => {
            return None;
        },
    };
    let size_unwind = match sub_amounts(0, position.size) {
        Some(size) => size,
        None => {
            return None;
        },
    };
    let after = match sub_amounts(key, position.size) {
        Some(after) => after,
        None => {
            return None;
        },
    };
    match calculate_smooth_cost(key, after) {
        Some(cost) => Some(Threshold { key, cost_unwind: cost, size_unwind }),
        None => None,
    }
}

/// The entry `index[key][i]` exists.
pub open spec fn has_entry(index: Map<i128, Seq<LiquidationEntry>>, key: i128, i: int) -> bool {
    index.contains_key(key) && 0 <= i < index[key].len()
}

/// An entry recorded under `key` is the liquidation threshold of its user's
/// account.
pub open spec fn entry_matches(
    entry: LiquidationEntry,
    key: i128,
    accounts: Map<Seq<char>, AccountView>,
    post_id: u128,
) -> bool {
    accounts.contains_key(entry.user_id@) && threshold_of(accounts[entry.user_id@], post_id)
        == Some(
        Threshold { key, cost_unwind: entry.cost_unwind, size_unwind: entry.size_unwind },
    )
}

/// The index has an entry for the user.
pub open spec fn lists_user(index: Map<i128, Seq<LiquidationEntry>>, user_id: Seq<char>) -> bool {
    exists|key: i128, i: int| has_entry(index, key, i) && index[key][i].user_id@ == user_id
}

/// No user has two entries in the index, and no key an empty list.
pub open spec fn index_well_formed(index: Map<i128, Seq<LiquidationEntry>>) -> bool {
    &&& forall|k1: i128, i1: int, k2: i128, i2: int|
        has_entry(index, k1, i1) && has_entry(index, k2, i2) && index[k1][i1].user_id@
            == index[k2][i2].user_id@ ==> k1 == k2 && i1 == i2
    &&& forall|key: i128| index.contains_key(key) ==> index[key].len() > 0
}

/// The index is the index of the post's liquidation thresholds: every entry
/// is the threshold of its user's account, every account that has a
/// threshold in the post has an entry, and the index is well-formed.
pub open spec fn thresholds_match(
    index: Map<i128, Seq<LiquidationEntry>>,
    accounts: Map<Seq<char>, AccountView>,
    post_id: u128,
) -> bool {
    &&& index_well_formed(index)
    &&& forall|key: i128, i: int|
        has_entry(index, key, i) ==> entry_matches(index[key][i], key, accounts, post_id)
    &&& forall|user_id: Seq<char>|
        accounts.contains_key(user_id) && threshold_of(accounts[user_id], post_id) is Some
            ==> lists_user(index, user_id)
}

/// Every entry of the index belongs to one of the first `n` users.
spec fn entries_among(index: Map<i128, Seq<LiquidationEntry>>, ids: Seq<String>, n: int) -> bool {
    forall|key: i128, i: int|
        has_entry(index, key, i) ==> exists|j: int|
            0 <= j < n && #[trigger] ids[j]@ == index[key][i].user_id@
}

/// What holds of the index once the first `n` users have been swept.
spec fn swept(
    index: Map<i128, Seq<LiquidationEntry>>,
    accounts: Map<Seq<char>, AccountView>,
    post_id: u128,
    ids: Seq<String>,
    n: int,
) -> bool {
    &&& index_well_formed(index)
    &&& forall|key: i128, i: int|
        has_entry(index, key, i) ==> entry_matches(index[key][i], key, accounts, post_id)
    &&& forall|j: int|
        0 <= j < n && threshold_of(accounts[#[trigger] ids[j]@], post_id) is Some ==> lists_user(
            index,
            ids[j]@,
        )
    &&& entries_among(index, ids, n)
}

/// Sweeping a user who has no threshold leaves the index as it is.
proof fn lemma_sweep_skip(
    index: Map<i128, Seq<LiquidationEntry>>,
    accounts: Map<Seq<char>, AccountView>,
    post_id: u128,
    ids: Seq<String>,
    n: int,
)
    requires
        0 <= n < ids.len(),
        swept(index, accounts, post_id, ids, n),
        threshold_of(accounts[ids[n]@], post_id) is None,
    ensures
        swept(index, accounts, post_id, ids, n + 1),
{
    assert forall|key: i128, i: int| has_entry(index, key, i) implies exists|j: int|
        0 <= j < n + 1 && #[trigger] ids[j]@ == index[key][i].user_id@ by {
        let j = choose|j: int| 0 <= j < n && #[trigger] ids[j]@ == index[key][i].user_id@;
        assert(0 <= j < n + 1 && ids[j]@ == index[key][i].user_id@);
    }
}

/// Sweeping a user who has a threshold, and recording it, keeps the index
/// in step with the accounts.
proof fn lemma_sweep_add(
    index: Map<i128, Seq<LiquidationEntry>>,
    accounts: Map<Seq<char>, AccountView>,
    post_id: u128,
    ids: Seq<String>,
    n: int,
    entry: LiquidationEntry,
    key: i128,
)
    requires
        0 <= n < ids.len(),
        forall|i: int, j: int| 0 <= i < j < ids.len() ==> ids[i]@ != ids[j]@,
        swept(index, accounts, post_id, ids, n),
        entry.user_id@ == ids[n]@,
        entry_matches(entry, key, accounts, post_id),
    ensures
        swept(with_entry(index, key, entry), accounts, post_id, ids, n + 1),
{
    let grown = with_entry(index, key, entry);
    let before: int = if index.contains_key(key) {
        index[key].len() as int
    } else {
        0
    };
    assert(grown[key].len() == before + 1);
    assert(grown[key][before] == entry);
    assert forall|k: i128, i: int| has_entry(index, k, i) implies has_entry(grown, k, i) && grown[k][i]
        == index[k][i] by {}
    assert forall|k: i128, i: int| has_entry(grown, k, i) implies (k == key && i == before)
        || has_entry(index, k, i) by {}
    assert forall|k: i128, i: int| has_entry(grown, k, i) implies exists|j: int|
        0 <= j < n + 1 && #[trigger] ids[j]@ == grown[k][i].user_id@ by {
        if k == key && i == before {
            assert(ids[n]@ == grown[k][i].user_id@);
        } else {
            assert(has_entry(index, k, i));
            let j = choose|j: int| 0 <= j < n && #[trigger] ids[j]@ == index[k][i].user_id@;
            assert(0 <= j < n + 1 && ids[j]@ == grown[k][i].user_id@);
        }
    }
    assert forall|k: i128, i: int| has_entry(grown, k, i) implies entry_matches(
        grown[k][i],
        k,
        accounts,
        post_id,
    ) by {
        if !(k == key && i == before) {
            assert(has_entry(index, k, i));
        }
    }
    assert forall|j: int|
        0 <= j < n + 1 && threshold_of(
            accounts[#[trigger] ids[j]@],
            post_id,
        ) is Some implies lists_user(grown, ids[j]@) by {
        if j == n {
            assert(has_entry(grown, key, before) && grown[key][before].user_id@ == ids[n]@);
        } else {
            assert(lists_user(index, ids[j]@));
            let found = choose|k: i128, i: int|
                has_entry(index, k, i) && index[k][i].user_id@ == ids[j]@;
            assert(has_entry(grown, found.0, found.1) && grown[found.0][found.1].user_id@
                == ids[j]@);
        }
    }
    assert forall|k1: i128, i1: int, k2: i128, i2: int|
        has_entry(grown, k1, i1) && has_entry(grown, k2, i2) && grown[k1][i1].user_id@
            == grown[k2][i2].user_id@ implies k1 == k2 && i1 == i2 by {
        let new1 = k1 == key && i1 == before;
        let new2 = k2 == key && i2 == before;
        if !new1 && !new2 {
            assert(has_entry(index, k1, i1) && has_entry(index, k2, i2));
        } else if new1 && !new2 {
            assert(has_entry(index, k2, i2));
            let j = choose|j: int| 0 <= j < n && #[trigger] ids[j]@ == index[k2][i2].user_id@;
            assert(ids[j]@ != ids[n]@);
        } else if !new1 && new2 {
            assert(has_entry(index, k1, i1));
            let j = choose|j: int| 0 <= j < n && #[trigger] ids[j]@ == index[k1][i1].user_id@;
            assert(ids[j]@ != ids[n]@);
        }
    }
    assert forall|k: i128| grown.contains_key(k) implies grown[k].len() > 0 by {
        if k != key {
            assert(index.contains_key(k));
        }
    }
}

/// Builds the index of a post's liquidation thresholds from the accounts, in
/// one sweep over the users. Users whose thresholds fall on one supply are
/// recorded there in the order of the sweep.
pub fn build_thresholds(post_id: u128, state: &AppState) -> (index: ThresholdIndex)
    ensures
        thresholds_match(index@, state.accounts(), post_id),
{
    let ids = state.user_ids();
    let mut index = ThresholdIndex::new();
    let mut n: usize = 0;
    while n < ids.len()
        invariant
            n <= ids@.len(),
            forall|i: int, j: int| 0 <= i < j < ids@.len() ==> ids@[i]@ != ids@[j]@,
            forall|i: int| 0 <= i < ids@.len() ==> state.accounts().contains_key(#[trigger] ids@[i]@),
            swept(index@, state.accounts(), post_id, ids@, n as int),
        decreases ids@.len() - n,
    {
        let found = state.account(ids[n].as_str());
        let threshold = match found {
            Some(account) => compute_threshold(&account, post_id),
            None => None,
        };
        match threshold {
            Some(threshold) => {
                let ghost before = index@;
                let entry = LiquidationEntry {
                    cost_unwind: threshold.cost_unwind,
                    size_unwind: threshold.size_unwind,
                    user_id: ids[n].clone(),
                };
                let ghost recorded = entry;
                index = index.record(threshold.key, entry);
                proof {
                    lemma_sweep_add(
                        before,
                        state.accounts(),
                        post_id,
                        ids@,
                        n as int,
                        recorded,
                        threshold.key,
                    );
                }
            },
            None => {
                proof {
                    lemma_sweep_skip(index@, state.accounts(), post_id, ids@, n as int);
                }
            },
        }
        n = n + 1;
    }
    index
}

/// Rebuilds the liquidation thresholds of a post from the accounts. Nothing
/// happens for a post that does not exist.
pub fn update_liquidation_thresholds(post_id: u128, state: &mut AppState)
    ensures
        final(state).accounts() == old(state).accounts(),
        !old(state).markets().contains_key(post_id) ==> final(state).markets() == old(
            state,
        ).markets(),
        old(state).markets().contains_key(post_id) ==> {
            &&& final(state).markets() == old(state).markets().insert(
                post_id,
                final(state).markets()[post_id],
            )
            &&& final(state).markets()[post_id].post == old(state).markets()[post_id].post
            &&& thresholds_match(
                final(state).markets()[post_id].thresholds,
                final(state).accounts(),
                post_id,
            )
        },
{
    match state.market(post_id) {
        Some(market) => {
            let thresholds = build_thresholds(post_id, state);
            state.set_market(post_id, Market { post: market.post, thresholds });
        },
        None => {},
    }
}

/// One of the users holds a position in the post.
pub open spec fn holds_position(
    users: Seq<String>,
    accounts: Map<Seq<char>, AccountView>,
    post_id: u128,
) -> bool {
    exists|i: int|
        0 <= i < users.len() && accounts.contains_key(#[trigger] users[i]@) && position_of(
            accounts[users[i]@].positions,
            post_id,
        ) is Some
}

/// The markets are as before, but for liquidation thresholds that were
/// rebuilt from the accounts; those of every post in which one of the users
/// holds a position were.
pub open spec fn thresholds_refreshed(
    markets_before: Map<u128, MarketView>,
    markets_after: Map<u128, MarketView>,
    accounts: Map<Seq<char>, AccountView>,
    users: Seq<String>,
) -> bool {
    &&& markets_after.dom() == markets_before.dom()
    &&& forall|id: u128| #[trigger]
        markets_after.contains_key(id) ==> {
            &&& markets_after[id].post == markets_before[id].post
            &&& markets_after[id].thresholds == markets_before[id].thresholds || thresholds_match(
                markets_after[id].thresholds,
                accounts,
                id,
            )
            &&& holds_position(users, accounts, id) ==> thresholds_match(
                markets_after[id].thresholds,
                accounts,
                id,
            )
        }
}

/// Rebuilds the liquidation thresholds of every post in which one of the
/// users holds a position.
pub(crate) fn refresh_thresholds(users: &Vec<String>, state: &mut AppState)
    ensures
        final(state).accounts() == old(state).accounts(),
        thresholds_refreshed(
            old(state).markets(),
            final(state).markets(),
            final(state).accounts(),
            users@,
        ),
{
    let mut i: usize = 0;
    while i < users.len()
        invariant
            i <= users@.len(),
            state.accounts() == old(state).accounts(),
            thresholds_refreshed(
                old(state).markets(),
                state.markets(),
                state.accounts(),
                users@.subrange(0, i as int),
            ),
        decreases users@.len() - i,
    {
        let ghost swept = users@.subrange(0, i as int);
        match state.account(users[i].as_str()) {
            Some(account) => {
                let mut j: usize = 0;
                while j < account.positions.len()
                    invariant
                        j <= account.positions@.len(),
                        i < users@.len(),
                        swept == users@.subrange(0, i as int),
                        state.accounts() == old(state).accounts(),
                        thresholds_refreshed(
                            old(state).markets(),
                            state.markets(),
                            state.accounts(),
                            swept,
                        ),
                        forall|k: int|
                            0 <= k < j && state.markets().contains_key(
                                #[trigger] account.positions@[k].post_id,
                            ) ==> thresholds_match(
                                state.markets()[account.positions@[k].post_id].thresholds,
                                state.accounts(),
                                account.positions@[k].post_id,
                            ),
                    decreases account.positions@.len() - j,
                {
                    let ghost before = state.markets();
                    update_liquidation_thresholds(account.positions[j].post_id, state);
                    proof {
                        assert forall|id: u128| #[trigger]
                            state.markets().contains_key(id) implies before.contains_key(id)
                            && state.markets()[id].post == before[id].post && (
                        state.markets()[id].thresholds == before[id].thresholds
                            || thresholds_match(
                            state.markets()[id].thresholds,
                            state.accounts(),
                            id,
                        )) by {}
                        assert(state.markets().dom() =~= before.dom());
                    }
                    j = j + 1;
                }
                proof {
                    let grown = users@.subrange(0, i + 1);
                    assert(grown.drop_last() =~= swept);
                    assert forall|id: u128|
                        state.markets().contains_key(id) && holds_position(
                            grown,
                            state.accounts(),
                            id,
                        ) implies thresholds_match(
                        state.markets()[id].thresholds,
                        state.accounts(),
                        id,
                    ) by {
                        let w = choose|w: int|
                            0 <= w < grown.len() && state.accounts().contains_key(
                                #[trigger] grown[w]@,
                            ) && position_of(state.accounts()[grown[w]@].positions, id) is Some;
                        if w < i {
                            assert(swept[w] == grown[w]);
                            assert(holds_position(swept, state.accounts(), id));
                        } else {
                            lemma_position_slot(account.positions@, id, 0);
                        }
                    }
                }
            },
            None => {
                proof {
                    let grown = users@.subrange(0, i + 1);
                    assert forall|id: u128|
                        holds_position(grown, state.accounts(), id) implies holds_position(
                        swept,
                        state.accounts(),
                        id,
                    ) by {
                        let w = choose|w: int|
                            0 <= w < grown.len() && state.accounts().contains_key(
                                #[trigger] grown[w]@,
                            ) && position_of(state.accounts()[grown[w]@].positions, id) is Some;
                        assert(w < i);
                        assert(swept[w] == grown[w]);
                    }
                }
            },
        }
        i = i + 1;
    }
    proof {
        assert(users@.subrange(0, i as int) =~= users@);
    }
}

} // verus!
