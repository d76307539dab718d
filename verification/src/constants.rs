//! Units and tolerances shared by the whole engine.
//!
//! Every amount the engine handles (supply, position size, price, cost,
//! balance, profit and loss) is a signed fixed-point number with eighteen
//! decimal places, held in an `i128`: the integer `n` stands for
//! `n / SCALE`. Sums are exact; products, quotients and curve values are
//! taken at double width and rounded once, so that what the engine returns
//! is far nearer to the real value than the tolerance.

use vstd::prelude::*;

verus! {

/// The integer that stands for the amount 1.
pub const SCALE: i128 = 1_000_000_000_000_000_000;

/// The tolerance of position and quantity comparisons: the amount 1e-9.
pub const EPSILON: i128 = 1_000_000_000;

/// The tolerance of curve evaluations: supplies no further than this from
/// zero are priced as zero supply, and a price no further than this from 1
/// is quoted at zero supply.
pub const BONDING_CURVE_EPSILON: i128 = 1_000_000_000;

/// The balance a user starts with: the amount 1000.
pub const INITIAL_BALANCE: i128 = 1_000_000_000_000_000_000_000;

} // verus!
