//! The ways a request can fail.

use vstd::prelude::*;

verus! {

/// A connection request was refused.
#[derive(Debug, Clone, Copy, PartialEq, Eq, Structural)]
pub enum AuthError {
    InvalidToken,
}

/// A request was refused; the state is as it was before the request.
#[derive(Debug, Clone, Copy, PartialEq, Eq, Structural)]
pub enum TradeError {
    /// A field of the request is out of range, such as a quantity that is not
    /// above the tolerance.
    MalformedRequest,
    /// The request names a post that does not exist.
    UnknownPost,
    /// The trade costs more than the trader's collateral.
    InsufficientCollateral,
    /// An amount that the trade needs cannot be held.
    NumericFault,
    /// The state is not as the engine left it.
    Internal,
}

impl TradeError {
    /// The text sent to the client.
    pub fn message(&self) -> (text: &'static str)
        ensures
            text@ == (match *self {
                TradeError::MalformedRequest => "Malformed request"@,
                TradeError::UnknownPost => "Post not found"@,
                TradeError::InsufficientCollateral => "Insufficient collateral"@,
                TradeError::NumericFault => "Trade calculation error"@,
                TradeError::Internal => "Internal error"@,
            }),
    {
        match self {
            TradeError::MalformedRequest => "Malformed request",
            TradeError::UnknownPost => "Post not found",
            TradeError::InsufficientCollateral => "Insufficient collateral",
            TradeError::NumericFault => "Trade calculation error",
            TradeError::Internal => "Internal error",
        }
    }
}

/// What is known of a refused HTTP request.
#[derive(Debug, Clone, Copy, PartialEq, Eq, Structural)]
pub struct Rejection {
    pub not_found: bool,
    pub invalid_token: bool,
    pub method_not_allowed: bool,
    pub invalid_query: bool,
}

/// The status code that answers a refused HTTP request. The first of these
/// that holds decides: nothing found at the path (404), an invalid token
/// (401), a method that is not allowed (405), a missing or invalid query
/// (400); otherwise 500.
pub open spec fn rejection_status(rejection: Rejection) -> u16 {
    if rejection.not_found {
        404
    } else if rejection.invalid_token {
        401
    } else if rejection.method_not_allowed {
        405
    } else if rejection.invalid_query {
        400
    } else {
        500
    }
}

/// The text that goes with a status code of `rejection_status`.
pub open spec fn rejection_text(status: u16) -> Seq<char> {
    if status == 404 {
        "NOT_FOUND"@
    } else if status == 401 {
        "UNAUTHORIZED"@
    } else if status == 405 {
        "METHOD_NOT_ALLOWED"@
    } else if status == 400 {
        "BAD_REQUEST - Missing or invalid token query parameter"@
    } else {
        "INTERNAL_SERVER_ERROR"@
    }
}

/// The status code and text that answer a refused HTTP request.
pub fn handle_rejection(rejection: Rejection) -> (reply: (u16, &'static str))
    ensures
        reply.0 == rejection_status(rejection),
        reply.1@ == rejection_text(reply.0),
{
    if rejection.not_found {
        (404, "NOT_FOUND")
    } else if rejection.invalid_token {
        (401, "UNAUTHORIZED")
    } else if rejection.method_not_allowed {
        (405, "METHOD_NOT_ALLOWED")
    } else if rejection.invalid_query {
        (400, "BAD_REQUEST - Missing or invalid token query parameter")
    } else {
        (500, "INTERNAL_SERVER_ERROR")
    }
}

} // verus!
