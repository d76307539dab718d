//! The state of the engine: every market and every user's account.
//!
//! The two tables are concurrent hash maps of the `dashmap` crate. What they
//! hold is named by `markets_of` and `accounts_of`; the functions in this
//! file that touch a table state, without proof, what `dashmap` does to it.
//! Every change goes through an exclusive reference to the table, so the
//! engine's steps see one state at a time.

use vstd::prelude::*;
use dashmap::DashMap;
use crate::constants::INITIAL_BALANCE;
use crate::models::{Post, UserPositionDetail};
use crate::threshold_index::{LiquidationEntry, ThresholdIndex};

verus! {

/// The concurrent hash map of the `dashmap` crate, opaque to the verifier.
#[verifier::external_type_specification]
#[verifier::external_body]
#[verifier::reject_recursive_types(K)]
#[verifier::reject_recursive_types(V)]
#[verifier::reject_recursive_types(S)]
pub struct ExDashMap<K, V, S>(DashMap<K, V, S>);

/// A position together with the post it is held in.
#[derive(Debug, Clone, Copy, PartialEq, Eq, Structural)]
pub struct HeldPosition {
    pub post_id: u128,
    pub detail: UserPositionDetail,
}

/// A user's account.
#[derive(Debug, Clone)]
pub struct UserAccount {
    /// What the user deposited. Trading does not change it.
    pub balance: i128,
    /// The sum of all profits and losses that trades have settled.
    pub realized_pnl: i128,
    /// The sum of the magnitudes of the cost bases of the positions.
    pub exposure: i128,
    /// The positions, at most one for a post.
    pub positions: Vec<HeldPosition>,
}

/// A post with its liquidation thresholds: for each supply at which some
/// position is liquidated, the forced trades that happen there, in the order
/// in which they are carried out.
#[derive(Debug, Clone)]
pub struct Market {
    pub post: Post,
    pub thresholds: ThresholdIndex,
}

/// A user's account as the contracts speak of it.
pub struct AccountView {
    pub balance: i128,
    pub realized_pnl: i128,
    pub exposure: i128,
    pub positions: Seq<HeldPosition>,
}

impl View for UserAccount {
    type V = AccountView;

    open spec fn view(&self) -> AccountView {
        AccountView {
            balance: self.balance,
            realized_pnl: self.realized_pnl,
            exposure: self.exposure,
            positions: self.positions@,
        }
    }
}

/// A market as the contracts speak of it.
pub struct MarketView {
    pub post: Post,
    pub thresholds: Map<i128, Seq<LiquidationEntry>>,
}

impl View for Market {
    type V = MarketView;

    open spec fn view(&self) -> MarketView {
        MarketView { post: self.post, thresholds: self.thresholds@ }
    }
}

/// The state of the engine. The tables are reached through the methods of
/// the state only.
pub struct AppState {
    posts: DashMap<u128, Market>,
    users: DashMap<String, UserAccount>,
}

/// The markets that a table holds, by the identifier of the post.
pub uninterp spec fn markets_of(table: DashMap<u128, Market>) -> Map<u128, MarketView>;

/// The accounts that a table holds, by the user's identifier.
pub uninterp spec fn accounts_of(table: DashMap<String, UserAccount>) -> Map<Seq<char>, AccountView>;

/// `DashMap::new`: the new table holds nothing.
#[verifier::external_body]
fn new_markets() -> (fresh: DashMap<u128, Market>)
    ensures
        markets_of(fresh) =~= Map::empty(),
{
    DashMap::new()
}

/// `DashMap::new`: the new table holds nothing.
#[verifier::external_body]
fn new_accounts() -> (fresh: DashMap<String, UserAccount>)
    ensures
        accounts_of(fresh) =~= Map::empty(),
{
    DashMap::new()
}

/// `DashMap::get`, and a clone of what it refers to: the market stored under
/// `post_id`, if there is one.
#[verifier::external_body]
fn market_get(table: &DashMap<u128, Market>, post_id: u128) -> (found: Option<Market>)
    ensures
        match found {
            Some(market) => markets_of(*table).contains_key(post_id) && market@ == markets_of(
                *table,
            )[post_id],
            None => !markets_of(*table).contains_key(post_id),
        },
{
    match table.get(&post_id) {
        Some(entry) => Some(entry.value().clone()),
        None => None,
    }
}

/// `DashMap::insert`: afterwards the table holds `market` under `post_id`,
/// and under every other key what it held before.
#[verifier::external_body]
fn market_put(table: &mut DashMap<u128, Market>, post_id: u128, market: Market)
    ensures
        markets_of(*final(table)) == markets_of(*old(table)).insert(post_id, market@),
{
    table.insert(post_id, market);
}

/// `DashMap::iter`, keeping each entry's key: every key of the table once,
/// in no particular order.
#[verifier::external_body]
fn market_ids(table: &DashMap<u128, Market>) -> (ids: Vec<u128>)
    ensures
        ids@.no_duplicates(),
        forall|id: u128| ids@.contains(id) <==> markets_of(*table).contains_key(id),
{
    table.iter().map(|entry| *entry.key()).collect()
}

/// `DashMap::get`, and a clone of what it refers to: the account stored
/// under `user_id`, if there is one.
#[verifier::external_body]
fn account_get(table: &DashMap<String, UserAccount>, user_id: &str) -> (found: Option<UserAccount>)
    ensures
        match found {
            Some(account) => accounts_of(*table).contains_key(user_id@) && account@ == accounts_of(
                *table,
            )[user_id@],
            None => !accounts_of(*table).contains_key(user_id@),
        },
{
    match table.get(user_id) {
        Some(entry) => Some(entry.value().clone()),
        None => None,
    }
}

/// `DashMap::insert`: afterwards the table holds `account` under `user_id`,
/// and under every other key what it held before.
#[verifier::external_body]
fn account_put(table: &mut DashMap<String, UserAccount>, user_id: &str, account: UserAccount)
    ensures
        accounts_of(*final(table)) == accounts_of(*old(table)).insert(user_id@, account@),
{
    table.insert(user_id.to_string(), account);
}

/// `DashMap::iter`, keeping a clone of each entry's key: every key of the
/// table once, in no particular order.
#[verifier::external_body]
fn account_ids(table: &DashMap<String, UserAccount>) -> (ids: Vec<String>)
    ensures
        forall|i: int, j: int| 0 <= i < j < ids@.len() ==> ids@[i]@ != ids@[j]@,
        forall|i: int| 0 <= i < ids@.len() ==> accounts_of(*table).contains_key(#[trigger] ids@[i]@),
        forall|id: Seq<char>|
            accounts_of(*table).contains_key(id) ==> exists|i: int|
                0 <= i < ids@.len() && #[trigger] ids@[i]@ == id,
{
    table.iter().map(|entry| entry.key().clone()).collect()
}

/// The account that a user has before the first request: the initial
/// balance and nothing else.
pub open spec fn initial_account() -> AccountView {
    AccountView {
        balance: INITIAL_BALANCE,
        realized_pnl: 0,
        exposure: 0,
        positions: Seq::empty(),
    }
}

/// The index of the first position at or after `from` that is held in the
/// post, or the number of positions if there is none.
pub open spec fn position_slot(positions: Seq<HeldPosition>, post_id: u128, from: int) -> int
    decreases positions.len() - from,
{
    if from < 0 || from >= positions.len() {
        positions.len() as int
    } else if positions[from].post_id == post_id {
        from
    } else {
        position_slot(positions, post_id, from + 1)
    }
}

/// The position held in a post, if there is one.
pub open spec fn position_of(positions: Seq<HeldPosition>, post_id: u128) -> Option<
    UserPositionDetail,
> {
    if position_slot(positions, post_id, 0) < positions.len() {
        Some(positions[position_slot(positions, post_id, 0)].detail)
    } else {
        None
    }
}

/// The positions with the one held in the post replaced by `detail`, or with
/// `detail` added at the end if none was held there.
pub open spec fn with_position(
    positions: Seq<HeldPosition>,
    post_id: u128,
    detail: UserPositionDetail,
) -> Seq<HeldPosition> {
    if position_slot(positions, post_id, 0) < positions.len() {
        positions.update(position_slot(positions, post_id, 0), HeldPosition { post_id, detail })
    } else {
        positions.push(HeldPosition { post_id, detail })
    }
}

/// The positions without the one held in the post.
pub open spec fn without_position(positions: Seq<HeldPosition>, post_id: u128) -> Seq<
    HeldPosition,
> {
    if position_slot(positions, post_id, 0) < positions.len() {
        positions.remove(position_slot(positions, post_id, 0))
    } else {
        positions
    }
}

/// The slot of a post's position is the first index at or after `from` that
/// holds the post.
pub proof fn lemma_position_slot(positions: Seq<HeldPosition>, post_id: u128, from: int)
    requires
        0 <= from <= positions.len(),
    ensures
        from <= position_slot(positions, post_id, from) <= positions.len(),
        forall|j: int|
            from <= j < position_slot(positions, post_id, from) ==> positions[j].post_id != post_id,
        position_slot(positions, post_id, from) < positions.len() ==> positions[position_slot(
            positions,
            post_id,
            from,
        )].post_id == post_id,
    decreases positions.len() - from,
{
    if from < positions.len() && positions[from].post_id != post_id {
        lemma_position_slot(positions, post_id, from + 1);
    }
}

/// The first index at or after `from` that holds the post is the slot of
/// the post's position.
pub proof fn lemma_position_slot_is(positions: Seq<HeldPosition>, post_id: u128, from: int, slot: int)
    requires
        0 <= from <= slot <= positions.len(),
        forall|j: int| from <= j < slot ==> positions[j].post_id != post_id,
        slot < positions.len() ==> positions[slot].post_id == post_id,
    ensures
        position_slot(positions, post_id, from) == slot,
    decreases slot - from,
{
    if from < slot {
        lemma_position_slot_is(positions, post_id, from + 1, slot);
    }
}

/// After a position has been set for a post, it is the position held there.
pub proof fn lemma_position_set(positions: Seq<HeldPosition>, post_id: u128, detail: UserPositionDetail)
    ensures
        position_of(with_position(positions, post_id, detail), post_id) == Some(detail),
{
    lemma_position_slot(positions, post_id, 0);
    let slot = position_slot(positions, post_id, 0);
    lemma_position_slot_is(with_position(positions, post_id, detail), post_id, 0, slot);
}

/// Setting the position of one post leaves the positions of the others.
pub proof fn lemma_position_set_elsewhere(
    positions: Seq<HeldPosition>,
    post_id: u128,
    detail: UserPositionDetail,
    other: u128,
)
    requires
        other != post_id,
    ensures
        position_of(with_position(positions, post_id, detail), other) == position_of(
            positions,
            other,
        ),
{
    lemma_position_slot(positions, post_id, 0);
    lemma_position_slot(positions, other, 0);
    let slot = position_slot(positions, other, 0);
    let changed = with_position(positions, post_id, detail);
    if slot < positions.len() {
        lemma_position_slot_is(changed, other, 0, slot);
    } else {
        lemma_position_slot_is(changed, other, 0, changed.len() as int);
    }
}

/// Dropping the position of one post leaves the positions of the others.
pub proof fn lemma_position_removed_elsewhere(
    positions: Seq<HeldPosition>,
    post_id: u128,
    other: u128,
)
    requires
        other != post_id,
    ensures
        position_of(without_position(positions, post_id), other) == position_of(positions, other),
{
    lemma_position_slot(positions, post_id, 0);
    lemma_position_slot(positions, other, 0);
    let gone = position_slot(positions, post_id, 0);
    let slot = position_slot(positions, other, 0);
    let changed = without_position(positions, post_id);
    if gone < positions.len() {
        if slot < gone {
            lemma_position_slot_is(changed, other, 0, slot);
        } else {
            lemma_position_slot_is(changed, other, 0, slot - 1);
        }
    }
}

/// Where the position of a post stands among the positions.
pub fn find_position(positions: &Vec<HeldPosition>, post_id: u128) -> (slot: Option<usize>)
    ensures
        match slot {
            Some(i) => i < positions@.len() && i == position_slot(positions@, post_id, 0),
            None => position_slot(positions@, post_id, 0) == positions@.len(),
        },
{
    let mut i: usize = 0;
    while i < positions.len()
        invariant
            i <= positions@.len(),
            position_slot(positions@, post_id, i as int) == position_slot(positions@, post_id, 0),
        decreases positions@.len() - i,
    {
        if positions[i].post_id == post_id {
            return Some(i);
        }
        i = i + 1;
    }
    None
}

impl UserAccount {
    /// The account that a user has before the first request.
    pub fn new() -> (account: UserAccount)
        ensures
            account@ == initial_account(),
    {
        UserAccount { balance: INITIAL_BALANCE, realized_pnl: 0, exposure: 0, positions: Vec::new() }
    }

    /// The position held in a post, if there is one.
    pub fn position(&self, post_id: u128) -> (found: Option<UserPositionDetail>)
        ensures
            found == position_of(self.positions@, post_id),
    {
        match find_position(&self.positions, post_id) {
            Some(i) => Some(self.positions[i].detail),
            None => None,
        }
    }

    /// Makes `detail` the position held in a post.
    pub fn set_position(&mut self, post_id: u128, detail: UserPositionDetail)
        ensures
            final(self).positions@ == with_position(old(self).positions@, post_id, detail),
            final(self).balance == old(self).balance,
            final(self).realized_pnl == old(self).realized_pnl,
            final(self).exposure == old(self).exposure,
    {
        match find_position(&self.positions, post_id) {
            Some(i) => {
                self.positions[i] = HeldPosition { post_id, detail };
            },
            None => {
                self.positions.push(HeldPosition { post_id, detail });
            },
        }
    }

    /// Drops the position held in a post; tells whether there was one.
    pub fn remove_position(&mut self, post_id: u128) -> (removed: bool)
        ensures
            removed == (position_of(old(self).positions@, post_id) is Some),
            final(self).positions@ == without_position(old(self).positions@, post_id),
            final(self).balance == old(self).balance,
            final(self).realized_pnl == old(self).realized_pnl,
            final(self).exposure == old(self).exposure,
    {
        match find_position(&self.positions, post_id) {
            Some(i) => {
                self.positions.remove(i);
                true
            },
            None => false,
        }
    }
}

impl AppState {
    /// The markets, by the identifier of the post.
    pub closed spec fn markets(&self) -> Map<u128, MarketView> {
        markets_of(self.posts)
    }

    /// The accounts, by the user's identifier.
    pub closed spec fn accounts(&self) -> Map<Seq<char>, AccountView> {
        accounts_of(self.users)
    }

    /// A state without markets and without accounts.
    pub fn new() -> (state: AppState)
        ensures
            state.markets() =~= Map::empty(),
            state.accounts() =~= Map::empty(),
    {
        AppState { posts: new_markets(), users: new_accounts() }
    }

    /// The market of a post.
    pub fn market(&self, post_id: u128) -> (found: Option<Market>)
        ensures
            match found {
                Some(market) => self.markets().contains_key(post_id) && market@
                    == self.markets()[post_id],
                None => !self.markets().contains_key(post_id),
            },
    {
        market_get(&self.posts, post_id)
    }

    /// Stores a market under the identifier of a post, as it is given: it
    /// is for the caller to give a market that fits the accounts.
    pub fn set_market(&mut self, post_id: u128, market: Market)
        ensures
            final(self).markets() == old(self).markets().insert(post_id, market@),
            final(self).accounts() == old(self).accounts(),
    {
        market_put(&mut self.posts, post_id, market);
    }

    /// The identifiers of all posts, each once, in no particular order.
    pub fn post_ids(&self) -> (ids: Vec<u128>)
        ensures
            ids@.no_duplicates(),
            forall|id: u128| ids@.contains(id) <==> self.markets().contains_key(id),
    {
        market_ids(&self.posts)
    }

    /// The account of a user.
    pub fn account(&self, user_id: &str) -> (found: Option<UserAccount>)
        ensures
            match found {
                Some(account) => self.accounts().contains_key(user_id@) && account@
                    == self.accounts()[user_id@],
                None => !self.accounts().contains_key(user_id@),
            },
    {
        account_get(&self.users, user_id)
    }

    /// Stores an account under a user's identifier, as it is given: it is
    /// for the caller to give an account that is consistent, and to rebuild
    /// the liquidation thresholds that depend on it.
    pub fn set_account(&mut self, user_id: &str, account: UserAccount)
        ensures
            final(self).accounts() == old(self).accounts().insert(user_id@, account@),
            final(self).markets() == old(self).markets(),
    {
        account_put(&mut self.users, user_id, account);
    }

    /// The identifiers of all users, each once, in no particular order.
    pub fn user_ids(&self) -> (ids: Vec<String>)
        ensures
            forall|i: int, j: int| 0 <= i < j < ids@.len() ==> ids@[i]@ != ids@[j]@,
            forall|i: int| 0 <= i < ids@.len() ==> self.accounts().contains_key(#[trigger] ids@[i]@),
            forall|id: Seq<char>|
                self.accounts().contains_key(id) ==> exists|i: int|
                    0 <= i < ids@.len() && #[trigger] ids@[i]@ == id,
    {
        account_ids(&self.users)
    }
}

} // verus!
