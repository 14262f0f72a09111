//! Errors as a request reports them.

use vstd::prelude::*;

use crate::schedule::ScrapeError;

verus! {

/// What a request can fail with, as the caller reports it.
#[derive(Debug)]
pub enum ApiError {
    Unauthorized(String),
    BadRequest(String),
    NotFound(String),
    Internal(String),
}

/// The HTTP status that reports a failed scrape.
pub open spec fn scrape_status(e: ScrapeError) -> u16 {
    match e {
        ScrapeError::InvalidMonday | ScrapeError::TooOld => 400,
        ScrapeError::MissingTable | ScrapeError::Http(_) => 500,
    }
}

/// The message that reports a failed scrape: the scrape's own message, but
/// for a failed fetch, whose transport detail is not passed on.
pub open spec fn scrape_message(e: ScrapeError) -> Seq<char> {
    match e {
        ScrapeError::Http(_) => "Failed to fetch timetable"@,
        _ => e.message_of(),
    }
}

impl ApiError {
    pub open spec fn message_of(&self) -> Seq<char> {
        match self {
            ApiError::Unauthorized(m) => m@,
            ApiError::BadRequest(m) => m@,
            ApiError::NotFound(m) => m@,
            ApiError::Internal(m) => m@,
        }
    }

    pub open spec fn status_of(&self) -> u16 {
        match self {
            ApiError::Unauthorized(_) => 401,
            ApiError::BadRequest(_) => 400,
            ApiError::NotFound(_) => 404,
            ApiError::Internal(_) => 500,
        }
    }

    /// The HTTP status that reports the error.
    pub fn status_code(&self) -> (r: u16)
        ensures
            r == self.status_of(),
    {
        match self {
            ApiError::Unauthorized(_) => 401,
            ApiError::BadRequest(_) => 400,
            ApiError::NotFound(_) => 404,
            ApiError::Internal(_) => 500,
        }
    }

    /// The text that goes with the error.
    pub fn message(&self) -> (r: &String)
        ensures
            r == match self {
                ApiError::Unauthorized(m) => m,
                ApiError::BadRequest(m) => m,
                ApiError::NotFound(m) => m,
                ApiError::Internal(m) => m,
            },
    {
        match self {
            ApiError::Unauthorized(m) => m,
            ApiError::BadRequest(m) => m,
            ApiError::NotFound(m) => m,
            ApiError::Internal(m) => m,
        }
    }

    /// How a failed scrape is reported: a wrong date is the caller's mistake;
    /// a missing table or a failed fetch is ours, and the transport's own
    /// words are not passed on.
    pub fn from_scrape_error(value: ScrapeError) -> (r: ApiError)
        ensures
            match value {
                ScrapeError::InvalidMonday | ScrapeError::TooOld => r matches ApiError::BadRequest(m)
                    && m@ == value.message_of(),
                ScrapeError::MissingTable => r matches ApiError::Internal(m) && m@ == value.message_of(),
                ScrapeError::Http(_) => r matches ApiError::Internal(m) && m@ == "Failed to fetch timetable"@,
            },
            r.status_of() == scrape_status(value),
            r.message_of() == scrape_message(value),
    {
        match value {
            ScrapeError::InvalidMonday | ScrapeError::TooOld => ApiError::BadRequest(value.message()),
            ScrapeError::MissingTable => ApiError::Internal(value.message()),
            ScrapeError::Http(_) => ApiError::Internal("Failed to fetch timetable".to_owned()),
        }
    }
}

} // verus!
