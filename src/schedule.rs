//! The scraper itself: which week to read, the agenda address of a week, and
//! the merge of weeks read in parallel.

use vstd::prelude::*;

use crate::date::{weekday_of, Date, DAY_LIMIT};
use crate::models::{all_wf, opt_view, sort_classes, sort_classes_by_start, views, ClassItem, ClassView};
use crate::text::{chars_of, push_str_chars, string_of};

verus! {

/// Why a week could not be read.
#[derive(Debug)]
pub enum ScrapeError {
    /// The requested start date is not a Monday.
    InvalidMonday,
    /// The requested start date lies more than two weeks in the past.
    TooOld,
    /// The page could not be fetched; the transport's own description.
    Http(String),
    /// The page holds no agenda table.
    MissingTable,
}

impl ScrapeError {
    pub open spec fn message_of(&self) -> Seq<char> {
        match self {
            ScrapeError::InvalidMonday => "Date must be a Monday"@,
            ScrapeError::TooOld => "Date cannot be more than 2 weeks in the past"@,
            ScrapeError::Http(detail) => "HTTP error: "@ + detail@,
            ScrapeError::MissingTable => "Table with class schedule not found on the page"@,
        }
    }

    /// The message shown for the error.
    pub fn message(&self) -> (r: String)
        ensures
            r@ == self.message_of(),
    {
        match self {
            ScrapeError::InvalidMonday => "Date must be a Monday".to_owned(),
            ScrapeError::TooOld => "Date cannot be more than 2 weeks in the past".to_owned(),
            ScrapeError::Http(detail) => {
                let mut m = chars_of("HTTP error: ");
                push_str_chars(&mut m, detail.as_str());
                string_of(&m)
            },
            ScrapeError::MissingTable => "Table with class schedule not found on the page".to_owned(),
        }
    }
}

/// Reads the gym's schedule site.
pub struct CrossfitScraper {
    /// Address of the site, as configured.
    pub base_url: String,
}

/// The Monday of the week that holds `today`.
pub open spec fn monday_of(today: Date) -> Date {
    Date { days: (today.days - weekday_of(today.days as int)) as i32 }
}

/// The start of the requested week: the Monday of `today`'s week where no
/// date is given; else the given date, where it is a Monday no more than 14
/// days before `today`.
pub open spec fn valid_monday_of(target: Option<Date>, today: Date) -> Result<Date, ScrapeError> {
    match target {
        None => Ok(monday_of(today)),
        Some(d) => if !d.is_monday() {
            Err(ScrapeError::InvalidMonday)
        } else if d.days < today.days - 14 {
            Err(ScrapeError::TooOld)
        } else {
            Ok(d)
        },
    }
}

impl CrossfitScraper {
    /// A scraper of the site at `base_url`.
    pub fn new(base_url: String) -> (r: Self)
        ensures
            r.base_url@ == base_url@,
    {
        CrossfitScraper { base_url }
    }

    /// The Monday that starts the requested week: the Monday of `today`'s week
    /// where no date is given, else the given date where it is a Monday no
    /// more than 14 days before `today`.
    pub fn get_valid_monday(target: Option<Date>, today: Date) -> (r: Result<Date, ScrapeError>)
        ensures
            r == valid_monday_of(target, today),
    {
        match target {
            Some(given) => {
                if given.num_days_from_monday() != 0 {
                    Err(ScrapeError::InvalidMonday)
                } else if (given.days as i64) < today.days as i64 - 14 {
                    Err(ScrapeError::TooOld)
                } else {
                    Ok(given)
                }
            },
            None => {
                let offset = today.num_days_from_monday();
                Ok(Date { days: (today.days as i64 - offset as i64) as i32 })
            },
        }
    }
}

/// The address with the given query parameters, as the url crate writes it;
/// `None` where the address does not parse.
pub uninterp spec fn query_url_of(address: Seq<char>, params: Seq<(Seq<char>, Seq<char>)>) -> Option<Seq<char>>;

pub open spec fn pairs_view(p: Seq<(String, String)>) -> Seq<(Seq<char>, Seq<char>)> {
    p.map_values(|kv: (String, String)| (kv.0@, kv.1@))
}

/// Relies on url's `Url::parse_with_params`, written out by its `Display`.
#[verifier::external_body]
fn url_with_query(address: &str, params: &Vec<(String, String)>) -> (r: Option<String>)
    ensures
        opt_view(r) == query_url_of(address@, pairs_view(params@)),
{
    url::Url::parse_with_params(address, params.iter()).ok().map(|u| u.to_string())
}

/// The address of the agenda page of the site at `base`.
pub open spec fn agenda_address(base: Seq<char>) -> Seq<char> {
    base + "/kalendarz-zajec"@
}

/// The address of the agenda of the week starting on `monday`.
pub open spec fn agenda_url_of(base: Seq<char>, monday: Date) -> Option<Seq<char>> {
    query_url_of(
        agenda_address(base),
        seq![("day"@, crate::date::iso_date_of(monday.days as int)), ("view"@, "Agenda"@)],
    )
}

/// The first error among the results of the weeks, in week order.
pub open spec fn first_error(rs: Seq<Result<Vec<ClassItem>, ScrapeError>>) -> Option<ScrapeError>
    decreases rs.len(),
{
    if rs.len() == 0 {
        None
    } else {
        match rs[0] {
            Err(e) => Some(e),
            Ok(_) => first_error(rs.drop_first()),
        }
    }
}

/// The classes of all the weeks that were read, in week order.
pub open spec fn all_classes(rs: Seq<Result<Vec<ClassItem>, ScrapeError>>) -> Seq<ClassView>
    decreases rs.len(),
{
    if rs.len() == 0 {
        Seq::empty()
    } else {
        let rest = all_classes(rs.drop_first());
        match rs[0] {
            Ok(v) => views(v@) + rest,
            Err(_) => rest,
        }
    }
}

/// Whether every instant of the weeks that were read is well formed.
pub open spec fn weeks_wf(rs: Seq<Result<Vec<ClassItem>, ScrapeError>>) -> bool {
    forall|i: int| 0 <= i < rs.len() ==> match #[trigger] rs[i] {
        Ok(v) => all_wf(views(v@)),
        Err(_) => true,
    }
}

proof fn lemma_all_classes_wf(rs: Seq<Result<Vec<ClassItem>, ScrapeError>>)
    requires
        weeks_wf(rs),
    ensures
        all_wf(all_classes(rs)),
    decreases rs.len(),
{
    if rs.len() > 0 {
        assert(weeks_wf(rs.drop_first())) by {
            assert forall|i: int| 0 <= i < rs.drop_first().len() implies match #[trigger] rs.drop_first()[i] {
                Ok(v) => all_wf(views(v@)),
                Err(_) => true,
            } by {
                assert(rs.drop_first()[i] == rs[i + 1]);
            }
        }
        lemma_all_classes_wf(rs.drop_first());
        let rest = all_classes(rs.drop_first());
        match rs[0] {
            Ok(v) => {
                assert(all_wf(views(v@)));
                assert forall|i: int| 0 <= i < (views(v@) + rest).len() implies (#[trigger] (views(v@) + rest)[i]).date.wf() by {
                    if i >= views(v@).len() {
                        assert((views(v@) + rest)[i] == rest[i - views(v@).len()]);
                    }
                }
            },
            Err(_) => {},
        }
    }
}

impl CrossfitScraper {
    /// The address of the agenda of the week starting on `monday`.
    pub fn agenda_url(&self, monday: Date) -> (r: Option<String>)
        requires
            monday.wf(),
        ensures
            opt_view(r) == agenda_url_of(self.base_url@, monday),
    {
        let mut address = chars_of(self.base_url.as_str());
        push_str_chars(&mut address, "/kalendarz-zajec");
        let address = string_of(&address);
        let mut params: Vec<(String, String)> = Vec::new();
        params.push(("day".to_owned(), monday.to_iso_string()));
        params.push(("view".to_owned(), "Agenda".to_owned()));
        assert(pairs_view(params@) =~= seq![
            ("day"@, crate::date::iso_date_of(monday.days as int)),
            ("view"@, "Agenda"@),
        ]);
        url_with_query(address.as_str(), &params)
    }

    /// The Mondays of `weeks` consecutive weeks, the first being the week that
    /// holds `today`.
    pub fn week_mondays(today: Date, weeks: u8) -> (r: Vec<Date>)
        requires
            today.wf(),
        ensures
            r@.len() == weeks,
            forall|i: int| 0 <= i < weeks ==> (#[trigger] r@[i]).days == monday_of(today).days + 7 * i,
            forall|i: int| 0 <= i < weeks ==> (#[trigger] r@[i]).is_monday(),
    {
        let first: i64 = today.days as i64 - today.num_days_from_monday() as i64;
        proof {
            lemma_monday_of(today.days as int);
        }
        let mut cur: i64 = first;
        let mut r: Vec<Date> = Vec::new();
        let mut i: u8 = 0;
        while i < weeks
            invariant
                i <= weeks,
                -DAY_LIMIT - 6 <= first <= DAY_LIMIT,
                first == monday_of(today).days,
                cur == first + 7 * i,
                weekday_of(cur as int) == 0,
                r@.len() == i,
                forall|k: int| 0 <= k < i ==> (#[trigger] r@[k]).days == first + 7 * k,
                forall|k: int| 0 <= k < i ==> (#[trigger] r@[k]).is_monday(),
            decreases weeks - i,
        {
            r.push(Date { days: cur as i32 });
            proof {
                lemma_next_week(cur as int);
            }
            cur = cur + 7;
            i += 1;
        }
        r
    }

    /// The classes of all weeks, sorted, where every week was read; else the
    /// error of the first week that failed.
    pub fn merge_weeks(results: Vec<Result<Vec<ClassItem>, ScrapeError>>) -> (r: Result<Vec<ClassItem>, ScrapeError>)
        requires
            weeks_wf(results@),
        ensures
            match first_error(results@) {
                Some(e) => r == Err::<Vec<ClassItem>, ScrapeError>(e),
                None => r matches Ok(v) && views(v@) == sort_classes(all_classes(results@)) && all_wf(views(v@)),
            },
    {
        let mut pending = results;
        Self::merge_pending(&mut pending)
    }

    fn merge_pending(results: &mut Vec<Result<Vec<ClassItem>, ScrapeError>>) -> (r: Result<Vec<ClassItem>, ScrapeError>)
        requires
            weeks_wf(old(results)@),
        ensures
            match first_error(old(results)@) {
                Some(e) => r == Err::<Vec<ClassItem>, ScrapeError>(e),
                None => r matches Ok(v) && views(v@) == sort_classes(all_classes(old(results)@)) && all_wf(views(v@)),
            },
    {
        let ghost orig = results@;
        let mut out: Vec<ClassItem> = Vec::new();
        let ghost mut k: int = 0;
        proof {
            assert(orig.skip(0) =~= orig);
            assert(views(out@) + all_classes(orig) =~= all_classes(orig));
        }
        while results.len() > 0
            invariant
                0 <= k <= orig.len(),
                orig == old(results)@,
                results@ == orig.skip(k),
                first_error(orig.skip(k)) == first_error(orig),
                views(out@) + all_classes(orig.skip(k)) == all_classes(orig),
            decreases results@.len(),
        {
            let item = results.remove(0);
            let ghost at = orig.skip(k);
            proof {
                assert(at[0] == item);
                assert(at.drop_first() =~= orig.skip(k + 1));
                k = k + 1;
            }
            match item {
                Ok(mut week) => {
                    let ghost prev = out@;
                    let ghost wv = views(week@);
                    out.append(&mut week);
                    proof {
                        assert(first_error(at) == first_error(orig.skip(k)));
                        assert(views(out@) =~= views(prev) + wv);
                        assert(views(prev) + wv + all_classes(orig.skip(k)) =~= views(prev) + (wv + all_classes(orig.skip(k))));
                    }
                },
                Err(e) => {
                    assert(first_error(at) == Some(e));
                    return Err(e);
                },
            }
        }
        proof {
            assert(orig.skip(k).len() == 0);
            assert(views(out@) + Seq::<ClassView>::empty() =~= views(out@));
            lemma_all_classes_wf(orig);
        }
        Ok(sort_classes_by_start(out))
    }
}


proof fn lemma_next_week(x: int)
    ensures
        weekday_of(x + 7) == weekday_of(x),
{
    assert((x + 7 - 1) % 7 == (x - 1) % 7) by (nonlinear_arith);
}

proof fn lemma_monday_of(x: int)
    ensures
        weekday_of(x - weekday_of(x)) == 0,
{
    assert((x - (x - 1) % 7 - 1) % 7 == 0) by (nonlinear_arith);
}

/// A Monday from the fourteen days before `today` up to `today` is taken as it is.
pub proof fn lemma_recent_monday_accepted(d: Date, today: Date)
    requires
        d.is_monday(),
        today.days - 14 <= d.days <= today.days,
    ensures
        valid_monday_of(Some(d), today) == Ok::<Date, ScrapeError>(d),
{
}

/// A date that is not a Monday is refused as such, however far it lies from `today`.
pub proof fn lemma_not_monday_refused(d: Date, today: Date)
    requires
        !d.is_monday(),
    ensures
        valid_monday_of(Some(d), today) == Err::<Date, ScrapeError>(ScrapeError::InvalidMonday),
{
}

/// A Monday more than fourteen days before `today` is refused as too old.
pub proof fn lemma_old_monday_refused(d: Date, today: Date)
    requires
        d.is_monday(),
        d.days < today.days - 14,
    ensures
        valid_monday_of(Some(d), today) == Err::<Date, ScrapeError>(ScrapeError::TooOld),
{
}

/// Where the fetch of any week failed, the weeks together fail.
pub proof fn lemma_failed_week_fails_all(rs: Seq<Result<Vec<ClassItem>, ScrapeError>>, i: int)
    requires
        0 <= i < rs.len(),
        rs[i] is Err,
    ensures
        first_error(rs) is Some,
    decreases i,
{
    if i > 0 && rs[0] is Ok {
        assert(rs.drop_first()[i - 1] == rs[i]);
        lemma_failed_week_fails_all(rs.drop_first(), i - 1);
    }
}

} // verus!
