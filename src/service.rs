//! The decisions of a timetable request around its fetches: which weeks to
//! read, and what to answer from their results.

use vstd::prelude::*;

use crate::auth::{presented_token, verify_token};
use crate::date::Date;
use crate::error::{scrape_message, scrape_status, ApiError};
use crate::ical::{has_end, ICalExporter};
use crate::models::{all_wf, sort_classes, views, ClassItem};
use crate::schedule::{all_classes, first_error, monday_of, weeks_wf, CrossfitScraper, ScrapeError};
use crate::settings::Settings;
use crate::validation::{default_weeks, require_classes, validate_weeks};

verus! {

/// The number of weeks a request asks for: the given one, else one.
pub open spec fn weeks_asked(weeks: Option<u8>) -> u8 {
    match weeks {
        Some(n) => n,
        None => 1,
    }
}

/// The Mondays of the weeks that a request asks for, starting with the week
/// that holds `today`: refused where the presented token is not the
/// configured one, then where the number of weeks is not from 1 to 6.
pub fn plan_weeks(
    settings: &Settings,
    bearer: Option<&str>,
    query_token: Option<&str>,
    weeks: Option<u8>,
    today: Date,
) -> (r: Result<Vec<Date>, ApiError>)
    requires
        today.wf(),
    ensures
        presented_token(bearer, query_token) != Some(settings.auth_token@) ==> (r matches Err(e)
            && e is Unauthorized && e.message_of() == "Invalid authentication token"@),
        presented_token(bearer, query_token) == Some(settings.auth_token@) && !(1 <= weeks_asked(weeks)
            <= 6) ==> (r matches Err(e) && e is BadRequest && e.message_of()
            == "weeks must be between 1 and 6"@),
        presented_token(bearer, query_token) == Some(settings.auth_token@) && 1 <= weeks_asked(weeks)
            <= 6 ==> (r matches Ok(v) && v@.len() == weeks_asked(weeks) && forall|i: int|
            0 <= i < v@.len() ==> (#[trigger] v@[i]).days == monday_of(today).days + 7 * i),
{
    match verify_token(settings, bearer, query_token) {
        Ok(()) => {},
        Err(e) => return Err(e),
    }
    let asked = match weeks {
        Some(n) => n,
        None => default_weeks(),
    };
    match validate_weeks(asked) {
        Ok(n) => Ok(CrossfitScraper::week_mondays(today, n)),
        Err(e) => Err(e),
    }
}

/// The answer to a request from the results of its weeks: the error of the
/// first week that failed; else `NotFound` where no class was found; else
/// all classes, sorted.
pub fn finish_weeks(results: Vec<Result<Vec<ClassItem>, ScrapeError>>) -> (r: Result<Vec<ClassItem>, ApiError>)
    requires
        weeks_wf(results@),
    ensures
        match first_error(results@) {
            Some(e) => r matches Err(x) && x.status_of() == scrape_status(e) && x.message_of()
                == scrape_message(e),
            None => if all_classes(results@).len() == 0 {
                r matches Err(x) && x is NotFound && x.message_of() == "No classes found"@
            } else {
                r matches Ok(v) && views(v@) == sort_classes(all_classes(results@)) && all_wf(
                    views(v@),
                )
            },
        },
{
    match CrossfitScraper::merge_weeks(results) {
        Ok(classes) => {
            proof {
                crate::models::lemma_sort_members(all_classes(results@));
            }
            require_classes(classes)
        },
        Err(e) => Err(ApiError::from_scrape_error(e)),
    }
}

/// Whether every class ends at an instant that the calendar can hold.
pub fn can_export(classes: &[ClassItem]) -> (r: bool)
    requires
        all_wf(views(classes@)),
    ensures
        r == forall|i: int| 0 <= i < classes@.len() ==> has_end(#[trigger] classes@[i]@),
{
    let mut i: usize = 0;
    while i < classes.len()
        invariant
            i <= classes@.len(),
            all_wf(views(classes@)),
            forall|k: int| 0 <= k < i ==> has_end(#[trigger] classes@[k]@),
        decreases classes@.len() - i,
    {
        assert(views(classes@)[i as int] == classes@[i as int]@);
        if ICalExporter::event_end(&classes[i]).is_none() {
            return false;
        }
        i += 1;
    }
    true
}

} // verus!
