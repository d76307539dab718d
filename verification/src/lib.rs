//! The trading engine of a social-trading service: users publish posts and
//! take long or short exposure on each post along a fixed bonding curve.
//!
//! - `constants`, `fixed`: the fixed-point amounts and their arithmetic.
//! - `bonding_curve`: the price at a supply and the cost of moving it.
//! - `models`, `errors`: the values exchanged with callers.
//! - `state`: the markets and the accounts.
//! - `calculations`: positions, and the execution of one trade through the
//!   liquidation thresholds it crosses.
//! - `threshold_index`: the ordered index of a post's liquidation
//!   thresholds.
//! - `thresholds`: the thresholds that the accounts give a post.
//! - `settlement`: what a trade does to the accounts.
//! - `handlers`: the requests and the messages that follow from them.
//! - `websocket`: which sessions a message goes to.
//! - `auth`: admission of a session.
//! - `guarantees`: theorems about all of these.
//!
//! The engine does no input or output. A caller hands it one request at a
//! time, through an exclusive reference to the state, and queues the
//! messages it returns.

pub mod auth;
pub mod bonding_curve;
pub mod calculations;
pub mod constants;
pub mod errors;
pub mod fixed;
pub mod guarantees;
pub mod handlers;
pub mod models;
pub mod settlement;
pub mod state;
pub mod threshold_index;
pub mod thresholds;
pub mod websocket;
