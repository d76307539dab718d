//! Admission: from the claims of a bearer token to the user.

use vstd::prelude::*;
use crate::errors::AuthError;
use crate::models::Claims;

verus! {

/// The user that a validated token stands for: its subject. A token that
/// did not validate, and one without a subject, is refused.
pub fn with_auth(validated: Result<Claims, String>) -> (admitted: Result<String, AuthError>)
    ensures
        match validated {
            Ok(claims) => if claims.sub@.len() == 0 {
                admitted == Err::<String, AuthError>(AuthError::InvalidToken)
            } else {
                admitted == Ok::<String, AuthError>(claims.sub)
            },
            Err(_) => admitted == Err::<String, AuthError>(AuthError::InvalidToken),
        },
{
    match validated {
        Ok(claims) => {
            if claims.sub.as_str().is_empty() {
                Err(AuthError::InvalidToken)
            } else {
                Ok(claims.sub)
            }
        },
        Err(_) => Err(AuthError::InvalidToken),
    }
}

} // verus!
