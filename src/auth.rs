//! Admission of requests by their token.

use vstd::prelude::*;

use crate::error::ApiError;
use crate::agenda::chars_eq;
use crate::settings::Settings;
use crate::text::chars_of;

verus! {

/// The token that a request presents: the bearer token of its header, else
/// the one of its query.
pub open spec fn presented_token(bearer: Option<&str>, query_token: Option<&str>) -> Option<Seq<char>> {
    match bearer {
        Some(t) => Some(t@),
        None => match query_token {
            Some(t) => Some(t@),
            None => None,
        },
    }
}

/// Admits a request whose presented token is the configured one.
pub fn verify_token(settings: &Settings, bearer: Option<&str>, query_token: Option<&str>) -> (r: Result<(), ApiError>)
    ensures
        presented_token(bearer, query_token) == Some(settings.auth_token@) ==> r is Ok,
        presented_token(bearer, query_token) != Some(settings.auth_token@) ==> (r matches Err(
            ApiError::Unauthorized(m),
        ) && m@ == "Invalid authentication token"@),
{
    let provided = match bearer {
        Some(t) => Some(t),
        None => query_token,
    };
    let expected = chars_of(settings.auth_token.as_str());
    match provided {
        Some(token) => {
            let given = chars_of(token);
            if chars_eq(&given, &expected) {
                return Ok(());
            }
        },
        None => {},
    }
    Err(ApiError::Unauthorized("Invalid authentication token".to_owned()))
}

} // verus!
