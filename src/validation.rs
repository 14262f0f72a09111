//! Checks on request parameters and results.

use vstd::prelude::*;

use crate::error::ApiError;
use crate::models::ClassItem;

verus! {

/// The query of a timetable request.
pub struct TimetableQuery {
    /// Number of weeks to read, from 1 to 6.
    pub weeks: u8,
    /// Access token, where it is not given in a header.
    pub token: Option<String>,
}

/// Weeks read when a request names none.
pub fn default_weeks() -> (r: u8)
    ensures
        r == 1,
{
    1
}

/// The number of weeks, where it lies from 1 to 6.
pub fn validate_weeks(value: u8) -> (r: Result<u8, ApiError>)
    ensures
        1 <= value <= 6 ==> r == Ok::<u8, ApiError>(value),
        !(1 <= value <= 6) ==> (r matches Err(ApiError::BadRequest(m)) && m@
            == "weeks must be between 1 and 6"@),
{
    if 1 <= value && value <= 6 {
        Ok(value)
    } else {
        Err(ApiError::BadRequest("weeks must be between 1 and 6".to_owned()))
    }
}

/// The classes found, or `NotFound` where there is none.
pub fn require_classes(classes: Vec<ClassItem>) -> (r: Result<Vec<ClassItem>, ApiError>)
    ensures
        classes@.len() > 0 ==> r == Ok::<Vec<ClassItem>, ApiError>(classes),
        classes@.len() == 0 ==> (r matches Err(ApiError::NotFound(m)) && m@ == "No classes found"@),
{
    if classes.len() == 0 {
        Err(ApiError::NotFound("No classes found".to_owned()))
    } else {
        Ok(classes)
    }
}

} // verus!
