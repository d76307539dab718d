//! The values the engine exchanges with its callers: posts, positions and the
//! messages of the wire protocol. Amounts are fixed-point numbers (see
//! `constants`), identifiers of posts and sessions are 128-bit integers, and
//! times are milliseconds since the Unix epoch.

use vstd::prelude::*;

verus! {

/// The claims carried by a bearer token.
#[derive(Debug, Clone)]
pub struct Claims {
    /// The subject: the user's identifier.
    pub sub: String,
    /// The audience the token was issued for.
    pub aud: String,
    /// The time the token expires, in seconds since the Unix epoch.
    pub exp: usize,
}

/// The query of a connection request: the bearer token.
#[derive(Debug, Clone)]
pub struct AuthQuery {
    pub token: String,
}

/// A post, which is also a market.
#[derive(Debug, Clone)]
pub struct Post {
    pub id: u128,
    /// The author.
    pub user_id: String,
    pub content: String,
    /// The time of creation.
    pub timestamp: i64,
    /// The price last quoted.
    pub price: Option<i128>,
    /// The signed supply: above zero when longs outweigh shorts.
    pub supply: i128,
}

/// A user's position in one post.
#[derive(Debug, Clone, Copy, PartialEq, Eq, Structural)]
pub struct UserPositionDetail {
    /// Above zero for a long position, below zero for a short one.
    pub size: i128,
    /// The collateral paid for the position, of the same sign as `size`.
    pub total_cost_basis: i128,
}

impl Default for UserPositionDetail {
    fn default() -> (position: UserPositionDetail)
        ensures
            position.size == 0,
            position.total_cost_basis == 0,
    {
        UserPositionDetail { size: 0, total_cost_basis: 0 }
    }
}

/// An open session: a connected client and the user it belongs to.
#[derive(Debug, Clone)]
pub struct Client {
    pub client_id: u128,
    pub user_id: String,
}

/// A request of a client.
#[derive(Debug, Clone)]
pub enum ClientMessage {
    CreatePost { content: String },
    Buy { post_id: u128, quantity: i128 },
    Sell { post_id: u128, quantity: i128 },
}

/// A position as a user is told of it.
#[derive(Debug, Clone, Copy, PartialEq, Eq, Structural)]
pub struct PositionDetail {
    pub post_id: u128,
    pub size: i128,
    /// The magnitude of the average entry price.
    pub average_price: i128,
    pub unrealized_pnl: i128,
    /// The supply at which the position would be liquidated, if there is one.
    pub liquidation_supply: Option<i128>,
}

/// A message to a client.
#[derive(Debug, Clone)]
pub enum ServerMessage {
    InitialState { posts: Vec<Post> },
    UserSync {
        balance: i128,
        exposure: i128,
        equity: i128,
        positions: Vec<PositionDetail>,
        total_realized_pnl: i128,
    },
    NewPost { post: Post },
    MarketUpdate { post_id: u128, price: i128, supply: i128 },
    BalanceUpdate { balance: i128 },
    PositionUpdate { post_id: u128, size: i128, average_price: i128, unrealized_pnl: i128 },
    RealizedPnlUpdate { total_realized_pnl: i128 },
    ExposureUpdate { exposure: i128 },
    EquityUpdate { equity: i128 },
    Error { message: String },
}

} // verus!
