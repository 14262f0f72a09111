//! Reading one week's agenda table: the row-by-row state machine that carries
//! the current day, time ranges, coaches and entry links.

use chrono::Datelike;
use vstd::prelude::*;

use crate::date::{Date, DateTime, DAY_LIMIT};
use crate::models::{
    all_wf, lemma_sort_members, lemma_sort_starts_sorted, opt_view, sort_classes,
    sort_classes_by_start, starts_sorted, views, ClassItem, ClassView,
};
use crate::page::{
    cell_read_view, cells_read_view, links_view, table_cells, table_cells_of, table_links,
    table_links_of, CellRead, CellReadView,
};
use crate::schedule::{CrossfitScraper, ScrapeError};
use crate::text::{
    chars_of, first_piece, first_piece_chars, i32_of, join, join_chars, parse_i32, parse_u32,
    split_pair, split_pair_chars, string_of, trim, trim_chars, u32_of,
};

verus! {

/// A table cell of the agenda, as read from the page.
pub struct AgendaCell {
    /// The value of the cell's `rowspan` attribute, if it has one.
    pub rowspan: Option<String>,
    /// The text nodes under the cell, in document order.
    pub texts: Vec<String>,
    /// The text nodes of the cell's first event-name element, if it has one.
    pub event_texts: Option<Vec<String>>,
    /// The `href` of the cell's first schedule link, if it has one with an `href`.
    pub link_href: Option<String>,
}

/// A table row of the agenda: its cells in order.
pub struct AgendaRow {
    pub cells: Vec<AgendaCell>,
}

pub struct CellView {
    pub rowspan: Option<Seq<char>>,
    pub texts: Seq<Seq<char>>,
    pub event_texts: Option<Seq<Seq<char>>>,
    pub link_href: Option<Seq<char>>,
}

pub open spec fn strings_view(v: Seq<String>) -> Seq<Seq<char>> {
    v.map_values(|s: String| s@)
}

impl View for AgendaCell {
    type V = CellView;

    open spec fn view(&self) -> CellView {
        CellView {
            rowspan: opt_view(self.rowspan),
            texts: strings_view(self.texts@),
            event_texts: match self.event_texts {
                Some(v) => Some(strings_view(v@)),
                None => None,
            },
            link_href: opt_view(self.link_href),
        }
    }
}

impl View for AgendaRow {
    type V = Seq<CellView>;

    open spec fn view(&self) -> Seq<CellView> {
        self.cells@.map_values(|c: AgendaCell| c@)
    }
}

pub open spec fn rows_view(rows: Seq<AgendaRow>) -> Seq<Seq<CellView>> {
    rows.map_values(|r: AgendaRow| r@)
}

/// The first match of the regular expression `pattern` in `text`, as the
/// regex crate finds it; `None` where there is none or the pattern is invalid.
pub uninterp spec fn regex_find_of(pattern: Seq<char>, text: Seq<char>) -> Option<Seq<char>>;

/// The day number of the date written `YYYY-MM-DD` in `text`, as chrono's
/// `NaiveDate::parse_from_str` reads it.
pub uninterp spec fn iso_day_number_of(text: Seq<char>) -> Option<int>;

/// `href` resolved against the address `base` by the url crate.
pub uninterp spec fn resolved_url_of(base: Seq<char>, href: Seq<char>) -> Option<Seq<char>>;

/// Relies on regex's `Regex::new` and `Regex::find`: the leftmost match.
#[verifier::external_body]
fn regex_find(pattern: &str, text: &str) -> (r: Option<String>)
    ensures
        opt_view(r) == regex_find_of(pattern@, text@),
{
    regex::Regex::new(pattern).ok()?.find(text).map(|m| m.as_str().to_string())
}

/// Relies on chrono's `NaiveDate::parse_from_str` with `%Y-%m-%d`, read as a
/// day number through `Datelike::num_days_from_ce`.
#[verifier::external_body]
fn parse_iso_day(text: &str) -> (r: Option<i32>)
    ensures
        match r {
            Some(n) => iso_day_number_of(text@) == Some(n as int),
            None => iso_day_number_of(text@) is None,
        },
{
    chrono::NaiveDate::parse_from_str(text, "%Y-%m-%d").ok().map(|d| d.num_days_from_ce())
}

/// Relies on url's `Url::parse` and `Url::join`: `href` resolved against `base`.
#[verifier::external_body]
fn resolve_url(base: &str, href: &str) -> (r: Option<String>)
    ensures
        opt_view(r) == resolved_url_of(base@, href@),
{
    url::Url::parse(base).ok()?.join(href).ok().map(|u| u.to_string())
}

/// The pattern of a date in an agenda header cell, as characters.
pub open spec fn date_pattern() -> Seq<char> {
    seq!['\\', 'd', '{', '4', '}', '-', '\\', 'd', '{', '2', '}', '-', '\\', 'd', '{', '2', '}']
}

/// The text of a cell: its text nodes put together, without surrounding white space.
pub open spec fn text_of(texts: Seq<Seq<char>>) -> Seq<char> {
    trim(join(texts, Seq::empty()))
}

/// The date named in an agenda header text: the first `YYYY-MM-DD` in it, where
/// it is a date in the range of this library.
pub open spec fn agenda_date_of(text: Seq<char>) -> Option<Date> {
    match regex_find_of(date_pattern(), text) {
        Some(m) => match iso_day_number_of(m) {
            Some(n) => if -DAY_LIMIT <= n <= DAY_LIMIT {
                Some(Date { days: n as i32 })
            } else {
                None
            },
            None => None,
        },
        None => None,
    }
}

/// Minutes from `h:m` of the start to `h:m` of the end of a time range written
/// `HH:MM - HH:MM`, where both times read as integers and the difference is
/// not negative.
pub open spec fn time_range_minutes(s: Seq<char>) -> Option<u32> {
    match split_pair(s, '-') {
        Some((a, b)) => match (split_pair(trim(a), ':'), split_pair(trim(b), ':')) {
            (Some((sh, sm)), Some((eh, em))) => match (i32_of(sh), i32_of(sm), i32_of(eh), i32_of(em)) {
                (Some(h1), Some(m1), Some(h2), Some(m2)) => {
                    let d = (h2 * 60 + m2) - (h1 * 60 + m1);
                    if 0 <= d <= u32::MAX {
                        Some(d as u32)
                    } else {
                        None
                    }
                },
                _ => None,
            },
            _ => None,
        },
        None => None,
    }
}

/// Hour and minute of the start of a time range: the text before the first
/// `-`, written `H:M`.
pub open spec fn start_of(s: Seq<char>) -> Option<(u32, u32)> {
    match split_pair(trim(first_piece(s, '-')), ':') {
        Some((h, m)) => match (u32_of(h), u32_of(m)) {
            (Some(hv), Some(mv)) => Some((hv as u32, mv as u32)),
            _ => None,
        },
        None => None,
    }
}

/// The coach of a content cell: its first text node that is not blank and is
/// not the class name, without surrounding white space; empty where there is none.
pub open spec fn coach_of(texts: Seq<Seq<char>>, name: Seq<char>) -> Seq<char>
    decreases texts.len(),
{
    if texts.len() == 0 {
        Seq::empty()
    } else if trim(texts[0]).len() > 0 && trim(texts[0]) != name {
        trim(texts[0])
    } else {
        coach_of(texts.drop_first(), name)
    }
}

/// The link of an entry: its `href` resolved against the site, or else the page's address.
pub open spec fn entry_url(link: Option<Seq<char>>, base: Seq<char>, page: Seq<char>) -> Seq<char> {
    match link {
        Some(h) => match resolved_url_of(base, h) {
            Some(u) => u,
            None => page,
        },
        None => page,
    }
}

/// Whether `d` lies in the week that starts on `monday`.
pub open spec fn in_week(d: Date, monday: Date) -> bool {
    monday.days <= d.days <= monday.days + 6
}

/// The current date after a row: the date of its header cell where it has one
/// that names a date, and otherwise the date before it.
pub open spec fn row_date(row: Seq<CellView>, current: Option<Date>) -> Option<Date> {
    if row.len() > 0 && row[0].rowspan is Some {
        match agenda_date_of(text_of(row[0].texts)) {
            Some(d) => Some(d),
            None => current,
        }
    } else {
        current
    }
}

/// The class that a row describes, given the current date before it.
pub open spec fn row_class(
    row: Seq<CellView>,
    current: Option<Date>,
    monday: Date,
    location: Option<Seq<char>>,
    page: Seq<char>,
    base: Seq<char>,
) -> Option<ClassView> {
    if row.len() == 0 {
        None
    } else if row[0].rowspan is Some && agenda_date_of(text_of(row[0].texts)) is None {
        None
    } else {
        let off: int = if row[0].rowspan is Some { 1 } else { 0 };
        if row.len() < off + 2 {
            None
        } else {
            let time_text = text_of(row[off].texts);
            let content = row[off + 1];
            match (row_date(row, current), start_of(time_text), content.event_texts) {
                (Some(d), Some((h, m)), Some(ev)) => {
                    let name = text_of(ev);
                    if !in_week(d, monday) || h >= 24 || m >= 60 || name.len() == 0 {
                        None
                    } else {
                        Some(
                            ClassView {
                                date: DateTime { date: d, hour: h, minute: m },
                                event_name: name,
                                coach: coach_of(content.texts, name),
                                duration_min: time_range_minutes(time_text),
                                source_url: entry_url(content.link_href, base, page),
                                location,
                            },
                        )
                    }
                },
                _ => None,
            }
        }
    }
}

/// The classes of `rows` in table order, the current date being `current`
/// before the first of them.
pub open spec fn parse_rows(
    rows: Seq<Seq<CellView>>,
    current: Option<Date>,
    monday: Date,
    location: Option<Seq<char>>,
    page: Seq<char>,
    base: Seq<char>,
) -> Seq<ClassView>
    decreases rows.len(),
{
    if rows.len() == 0 {
        Seq::empty()
    } else {
        let rest = parse_rows(
            rows.drop_first(),
            row_date(rows[0], current),
            monday,
            location,
            page,
            base,
        );
        match row_class(rows[0], current, monday, location, page, base) {
            Some(c) => seq![c] + rest,
            None => rest,
        }
    }
}

/// The classes of an agenda table, sorted.
pub open spec fn agenda_classes(
    rows: Seq<Seq<CellView>>,
    monday: Date,
    location: Option<Seq<char>>,
    page: Seq<char>,
    base: Seq<char>,
) -> Seq<ClassView> {
    sort_classes(parse_rows(rows, None, monday, location, page, base))
}


/// A copy of an optional text.
pub(crate) fn copy_opt(o: &Option<String>) -> (r: Option<String>)
    ensures
        opt_view(r) == opt_view(*o),
{
    match o {
        Some(s) => Some(s.clone()),
        None => None,
    }
}

/// Whether `a` and `b` hold the same characters.
pub(crate) fn chars_eq(a: &Vec<char>, b: &Vec<char>) -> (r: bool)
    ensures
        r == (a@ == b@),
{
    if a.len() != b.len() {
        return false;
    }
    let mut i: usize = 0;
    while i < a.len()
        invariant
            i <= a@.len(),
            a@.len() == b@.len(),
            forall|j: int| 0 <= j < i ==> a@[j] == b@[j],
        decreases a@.len() - i,
    {
        if a[i] != b[i] {
            return false;
        }
        i += 1;
    }
    assert(a@ =~= b@);
    true
}

/// The characters of each text, in order.
fn char_lines(texts: &Vec<String>) -> (r: Vec<Vec<char>>)
    ensures
        r@.map_values(|p: Vec<char>| p@) == strings_view(texts@),
{
    let mut r: Vec<Vec<char>> = Vec::new();
    let mut i: usize = 0;
    while i < texts.len()
        invariant
            i <= texts@.len(),
            r@.map_values(|p: Vec<char>| p@) == strings_view(texts@).take(i as int),
        decreases texts@.len() - i,
    {
        let line = chars_of(texts[i].as_str());
        let ghost prev = r@;
        r.push(line);
        proof {
            assert(r@.map_values(|p: Vec<char>| p@) =~= prev.map_values(|p: Vec<char>| p@).push(line@));
            assert(strings_view(texts@).take(i + 1) =~= strings_view(texts@).take(i as int).push(texts@[i as int]@));
        }
        i += 1;
    }
    proof {
        assert(strings_view(texts@).take(i as int) =~= strings_view(texts@));
    }
    r
}

/// The text of a cell from its text nodes.
pub fn cell_text(texts: &Vec<String>) -> (r: Vec<char>)
    ensures
        r@ == text_of(strings_view(texts@)),
{
    let lines = char_lines(texts);
    let none: Vec<char> = Vec::new();
    let joined = join_chars(&lines, &none);
    proof {
        assert(none@ =~= Seq::<char>::empty());
    }
    trim_chars(&joined)
}

/// The coach named among the text nodes of a content cell.
fn coach_in(texts: &Vec<String>, name: &Vec<char>) -> (r: Vec<char>)
    ensures
        r@ == coach_of(strings_view(texts@), name@),
{
    let ghost all = strings_view(texts@);
    let mut i: usize = 0;
    assert(all.skip(0) =~= all);
    while i < texts.len()
        invariant
            i <= texts@.len(),
            all == strings_view(texts@),
            coach_of(all.skip(i as int), name@) == coach_of(all, name@),
        decreases texts@.len() - i,
    {
        let raw = chars_of(texts[i].as_str());
        let t = trim_chars(&raw);
        proof {
            let rest = all.skip(i as int);
            assert(rest[0] == raw@);
            assert(rest.drop_first() =~= all.skip(i + 1));
        }
        if t.len() > 0 && !chars_eq(&t, name) {
            return t;
        }
        i += 1;
    }
    proof {
        assert(all.skip(i as int).len() == 0);
    }
    Vec::new()
}

/// Minutes between the start and the end of a time range.
fn time_range_chars(s: &Vec<char>) -> (r: Option<u32>)
    ensures
        r == time_range_minutes(s@),
{
    let (a, b) = match split_pair_chars(s, '-') {
        Some(p) => p,
        None => return None,
    };
    let ta = trim_chars(&a);
    let tb = trim_chars(&b);
    let (sh, sm) = match split_pair_chars(&ta, ':') {
        Some(p) => p,
        None => return None,
    };
    let (eh, em) = match split_pair_chars(&tb, ':') {
        Some(p) => p,
        None => return None,
    };
    let h1 = match parse_i32(&sh) {
        Some(v) => v,
        None => return None,
    };
    let m1 = match parse_i32(&sm) {
        Some(v) => v,
        None => return None,
    };
    let h2 = match parse_i32(&eh) {
        Some(v) => v,
        None => return None,
    };
    let m2 = match parse_i32(&em) {
        Some(v) => v,
        None => return None,
    };
    let d: i64 = (h2 as i64 * 60 + m2 as i64) - (h1 as i64 * 60 + m1 as i64);
    if d < 0 || d > 4294967295 {
        None
    } else {
        Some(d as u32)
    }
}

/// Hour and minute of the start of a time range.
fn start_time(s: &Vec<char>) -> (r: Option<(u32, u32)>)
    ensures
        r == start_of(s@),
{
    let head = first_piece_chars(s, '-');
    let t = trim_chars(&head);
    let (h, m) = match split_pair_chars(&t, ':') {
        Some(p) => p,
        None => return None,
    };
    match (parse_u32(&h), parse_u32(&m)) {
        (Some(hv), Some(mv)) => Some((hv, mv)),
        _ => None,
    }
}

impl CrossfitScraper {
    /// Minutes from the start to the end of a time range written `HH:MM - HH:MM`.
    pub fn parse_time_range(&self, time_range: &str) -> (r: Option<u32>)
        ensures
            r == time_range_minutes(time_range@),
    {
        let s = chars_of(time_range);
        time_range_chars(&s)
    }

    /// The date named in an agenda header text.
    pub fn parse_agenda_date(&self, text: &str) -> (r: Option<Date>)
        ensures
            r == agenda_date_of(text@),
    {
        let pattern = "\\d{4}-\\d{2}-\\d{2}";
        proof {
            reveal_strlit("\\d{4}-\\d{2}-\\d{2}");
            assert(pattern@ =~= date_pattern());
        }
        let found = match regex_find(pattern, text) {
            Some(m) => m,
            None => return None,
        };
        match parse_iso_day(found.as_str()) {
            Some(n) => if -DAY_LIMIT <= n && n <= DAY_LIMIT {
                Some(Date { days: n })
            } else {
                None
            },
            None => None,
        }
    }

    /// The link of an entry: its `href` resolved against the site, or else `page_url`.
    fn entry_link(&self, link: &Option<String>, page_url: &str) -> (r: String)
        ensures
            r@ == entry_url(opt_view(*link), self.base_url@, page_url@),
    {
        match link {
            Some(h) => match resolve_url(self.base_url.as_str(), h.as_str()) {
                Some(u) => u,
                None => page_url.to_owned(),
            },
            None => page_url.to_owned(),
        }
    }

    /// The current date after `row`.
    pub fn next_date(&self, row: &AgendaRow, current: Option<Date>) -> (r: Option<Date>)
        requires
            current matches Some(d) ==> d.wf(),
        ensures
            r == row_date(row@, current),
            r matches Some(d) ==> d.wf(),
    {
        if row.cells.len() > 0 && row.cells[0].rowspan.is_some() {
            let t = cell_text(&row.cells[0].texts);
            let ts = string_of(&t);
            proof {
                assert(row@[0] == row.cells@[0]@);
            }
            match self.parse_agenda_date(ts.as_str()) {
                Some(d) => Some(d),
                None => current,
            }
        } else {
            current
        }
    }

    /// The class that `row` describes, given the current date before it.
    pub fn class_of_row(
        &self,
        row: &AgendaRow,
        current: Option<Date>,
        monday: Date,
        location: &Option<String>,
        page_url: &str,
    ) -> (r: Option<ClassItem>)
        requires
            current matches Some(d) ==> d.wf(),
        ensures
            match r {
                Some(c) => row_class(row@, current, monday, opt_view(*location), page_url@, self.base_url@)
                    == Some(c@) && c.date.wf(),
                None => row_class(row@, current, monday, opt_view(*location), page_url@, self.base_url@) is None,
            },
    {
        let cells = &row.cells;
        let ghost rv = row@;
        if cells.len() == 0 {
            return None;
        }
        proof {
            assert(rv[0] == cells@[0]@);
        }
        let header = cells[0].rowspan.is_some();
        let date = self.next_date(row, current);
        if header {
            let t = cell_text(&cells[0].texts);
            let ts = string_of(&t);
            if self.parse_agenda_date(ts.as_str()).is_none() {
                return None;
            }
        }
        let off: usize = if header { 1 } else { 0 };
        if cells.len() < off + 2 {
            return None;
        }
        proof {
            assert(rv[off as int] == cells@[off as int]@);
            assert(rv[off + 1] == cells@[off + 1]@);
        }
        let time_text = cell_text(&cells[off].texts);
        let content = &cells[off + 1];
        let d = match date {
            Some(d) => d,
            None => return None,
        };
        let (h, m) = match start_time(&time_text) {
            Some(p) => p,
            None => return None,
        };
        let ev = match &content.event_texts {
            Some(ev) => ev,
            None => return None,
        };
        let name = cell_text(ev);
        if (d.days as i64) < monday.days as i64 || d.days as i64 > monday.days as i64 + 6 || h >= 24
            || m >= 60 || name.len() == 0 {
            return None;
        }
        let coach = coach_in(&content.texts, &name);
        let duration = time_range_chars(&time_text);
        let source = self.entry_link(&content.link_href, page_url);
        Some(
            ClassItem {
                date: DateTime { date: d, hour: h, minute: m },
                event_name: string_of(&name),
                coach: string_of(&coach),
                duration_min: duration,
                source_url: source,
                location: copy_opt(location),
            },
        )
    }

    /// The classes of an agenda table's rows that fall in the week starting on
    /// `expected_monday`, sorted by start, name and coach.
    pub fn parse_agenda_rows(
        &self,
        rows: &Vec<AgendaRow>,
        expected_monday: Date,
        location: Option<String>,
        source_url: &str,
    ) -> (r: Vec<ClassItem>)
        ensures
            views(r@) == agenda_classes(
                rows_view(rows@),
                expected_monday,
                opt_view(location),
                source_url@,
                self.base_url@,
            ),
            all_wf(views(r@)),
    {
        let ghost rv = rows_view(rows@);
        let ghost loc = opt_view(location);
        let mut out: Vec<ClassItem> = Vec::new();
        let mut current: Option<Date> = None;
        let mut i: usize = 0;
        proof {
            assert(rv.skip(0) =~= rv);
            assert(views(out@) =~= Seq::<ClassView>::empty());
        }
        while i < rows.len()
            invariant
                i <= rows@.len(),
                rv == rows_view(rows@),
                loc == opt_view(location),
                current matches Some(d) ==> d.wf(),
                all_wf(views(out@)),
                views(out@) + parse_rows(rv.skip(i as int), current, expected_monday, loc, source_url@, self.base_url@)
                    == parse_rows(rv, None, expected_monday, loc, source_url@, self.base_url@),
            decreases rows@.len() - i,
        {
            let c = self.class_of_row(&rows[i], current, expected_monday, &location, source_url);
            let next = self.next_date(&rows[i], current);
            proof {
                let rest = rv.skip(i as int);
                assert(rest[0] == rows@[i as int]@);
                assert(rest.drop_first() =~= rv.skip(i + 1));
            }
            let ghost prev = out@;
            match c {
                Some(x) => {
                    out.push(x);
                    proof {
                        assert(views(out@) =~= views(prev).push(x@));
                        assert(views(prev).push(x@) + parse_rows(rv.skip(i + 1), next, expected_monday, loc, source_url@, self.base_url@)
                            =~= views(prev) + (seq![x@] + parse_rows(rv.skip(i + 1), next, expected_monday, loc, source_url@, self.base_url@)));
                    }
                },
                None => {},
            }
            current = next;
            i += 1;
        }
        proof {
            assert(rv.skip(i as int) =~= Seq::<Seq<CellView>>::empty());
            assert(views(out@) + Seq::<ClassView>::empty() =~= views(out@));
        }
        sort_classes_by_start(out)
    }
}


/// The selectors by which the agenda's cells are read: the table, its rows,
/// their cells, and a class's name.
pub open spec fn cell_css() -> Seq<Seq<char>> {
    seq!["table.calendar_table_agenda"@, "tr"@, "td"@, "p.event_name"@]
}

/// The selectors by which the agenda's links are read: the table, its rows,
/// their cells, and an entry's link.
pub open spec fn link_css() -> Seq<Seq<char>> {
    seq!["table.calendar_table_agenda"@, "tr"@, "td"@, "a.schedule-agenda-link"@]
}

/// The link read for cell `j` of row `i`, where there is one.
pub open spec fn link_at(links: Seq<Seq<Option<Seq<char>>>>, i: int, j: int) -> Option<Seq<char>> {
    if 0 <= i < links.len() && 0 <= j < links[i].len() {
        links[i][j]
    } else {
        None
    }
}

pub open spec fn merged_cell(c: CellReadView, link: Option<Seq<char>>) -> CellView {
    CellView { rowspan: c.0, texts: c.1, event_texts: c.2, link_href: link }
}

/// The cells of a table, each with the link read at its place.
pub open spec fn merge_rows(cells: Seq<Seq<CellReadView>>, links: Seq<Seq<Option<Seq<char>>>>) -> Seq<Seq<CellView>> {
    Seq::new(
        cells.len(),
        |i: int| Seq::new(cells[i].len(), |j: int| merged_cell(cells[i][j], link_at(links, i, j))),
    )
}

/// The rows of the page's agenda table, as scraper reads them; `None` where
/// the page has no agenda table.
pub open spec fn page_rows(html: Seq<char>) -> Option<Seq<Seq<CellView>>> {
    match table_cells_of(html, cell_css(), "rowspan"@) {
        Some(cells) => Some(
            merge_rows(
                cells,
                match table_links_of(html, link_css(), "href"@) {
                    Some(l) => l,
                    None => Seq::empty(),
                },
            ),
        ),
        None => None,
    }
}

fn css_list(a: &str, b: &str, c: &str, d: &str) -> (r: Vec<String>)
    ensures
        strings_view(r@) == seq![a@, b@, c@, d@],
        r@.len() == 4,
{
    let mut r: Vec<String> = Vec::new();
    r.push(a.to_owned());
    r.push(b.to_owned());
    r.push(c.to_owned());
    r.push(d.to_owned());
    assert(strings_view(r@) =~= seq![a@, b@, c@, d@]);
    r
}

/// The link read for cell `j` of row `i`.
fn link_of(links: &Vec<Vec<Option<String>>>, i: usize, j: usize) -> (r: Option<String>)
    ensures
        opt_view(r) == link_at(links_view(links@), i as int, j as int),
{
    if i < links.len() && j < links[i].len() {
        copy_opt(&links[i][j])
    } else {
        None
    }
}

/// The rows of the page's agenda table, or `None` where the page has none.
fn read_agenda(html: &str) -> (r: Option<Vec<AgendaRow>>)
    ensures
        match r {
            Some(rows) => page_rows(html@) == Some(rows_view(rows@)),
            None => page_rows(html@) is None,
        },
{
    let css_cells = css_list("table.calendar_table_agenda", "tr", "td", "p.event_name");
    let css_links = css_list("table.calendar_table_agenda", "tr", "td", "a.schedule-agenda-link");
    let cells = match table_cells(html, &css_cells, "rowspan") {
        Some(c) => c,
        None => return None,
    };
    let links = match table_links(html, &css_links, "href") {
        Some(l) => l,
        None => Vec::new(),
    };
    let ghost cv = cells_read_view(cells@);
    let ghost lv = links_view(links@);
    proof {
        if table_links_of(html@, link_css(), "href"@) is None {
            assert(lv =~= Seq::<Seq<Option<Seq<char>>>>::empty());
        }
    }
    let ghost all = merge_rows(cv, lv);
    let mut rest = cells;
    let n_rows = rest.len();
    let mut out: Vec<AgendaRow> = Vec::new();
    let mut i: usize = 0;
    assert(all.len() == cv.len());
    proof {
        assert(cells_read_view(rest@) =~= cv.skip(0));
        assert(rows_view(out@) =~= all.take(0));
    }
    while rest.len() > 0
        invariant
            i + rest@.len() == cv.len(),
            cv.len() == n_rows,
            all.len() == cv.len(),
            cells_read_view(rest@) == cv.skip(i as int),
            lv == links_view(links@),
            all == merge_rows(cv, lv),
            rows_view(out@) == all.take(i as int),
        decreases rest@.len(),
    {
        let ghost before = rest@;
        let mut row_in = rest.remove(0);
        let ghost rv = cv[i as int];
        proof {
            assert(cells_read_view(before)[0] == cv.skip(i as int)[0]);
            assert(row_in@.map_values(|c: CellRead| cell_read_view(c)) == rv);
            assert(cells_read_view(rest@) =~= cv.skip(i + 1)) by {
                assert(cells_read_view(rest@) =~= cells_read_view(before).drop_first());
            }
        }
        let n_cells = row_in.len();
        let mut cells_out: Vec<AgendaCell> = Vec::new();
        let mut j: usize = 0;
        assert(all[i as int].len() == rv.len());
        proof {
            assert(row_in@.map_values(|c: CellRead| cell_read_view(c)) =~= rv.skip(0));
            assert(cells_out@.map_values(|c: AgendaCell| c@) =~= all[i as int].take(0));
        }
        while row_in.len() > 0
            invariant
                i < cv.len(),
                rv == cv[i as int],
                j + row_in@.len() == rv.len(),
                rv.len() == n_cells,
                all[i as int].len() == rv.len(),
                row_in@.map_values(|c: CellRead| cell_read_view(c)) == rv.skip(j as int),
                lv == links_view(links@),
                all == merge_rows(cv, lv),
                cells_out@.map_values(|c: AgendaCell| c@) == all[i as int].take(j as int),
            decreases row_in@.len(),
        {
            let ghost rb = row_in@;
            let (span, texts, event) = row_in.remove(0);
            proof {
                assert(rb.map_values(|c: CellRead| cell_read_view(c))[0] == rv.skip(j as int)[0]);
                assert(row_in@.map_values(|c: CellRead| cell_read_view(c)) =~= rv.skip(j + 1)) by {
                    assert(row_in@.map_values(|c: CellRead| cell_read_view(c))
                        =~= rb.map_values(|c: CellRead| cell_read_view(c)).drop_first());
                }
            }
            let link = link_of(&links, i, j);
            proof {
                assert(rv[j as int] == rv.skip(j as int)[0]);
                assert(all[i as int][j as int] == merged_cell(rv[j as int], link_at(lv, i as int, j as int)));
            }
            let cell = AgendaCell { rowspan: span, texts, event_texts: event, link_href: link };
            let ghost prev = cells_out@;
            cells_out.push(cell);
            proof {
                assert(cell@ == merged_cell(rv[j as int], link_at(lv, i as int, j as int)));
                assert(cells_out@.map_values(|c: AgendaCell| c@)
                    =~= prev.map_values(|c: AgendaCell| c@).push(cell@));
                assert(all[i as int].take(j + 1) =~= all[i as int].take(j as int).push(all[i as int][j as int]));
                assert(cells_out@.map_values(|c: AgendaCell| c@) =~= all[i as int].take(j + 1));
            }
            j += 1;
        }
        let row = AgendaRow { cells: cells_out };
        proof {
            assert(all[i as int].take(j as int) =~= all[i as int]);
            assert(row@ == all[i as int]);
        }
        let ghost prev_out = out@;
        out.push(row);
        proof {
            assert(rows_view(out@) =~= rows_view(prev_out).push(row@));
            assert(all.take(i + 1) =~= all.take(i as int).push(all[i as int]));
            assert(rows_view(out@) =~= all.take(i + 1));
        }
        i += 1;
    }
    proof {
        assert(all.take(i as int) =~= all);
    }
    Some(out)
}

impl CrossfitScraper {
    /// The classes of the page's agenda table that fall in the week starting on
    /// `expected_monday`, sorted; `MissingTable` where the page has no agenda table.
    pub fn parse_timetable_html(
        &self,
        html: &str,
        expected_monday: Date,
        location: Option<String>,
        source_url: &str,
    ) -> (r: Result<Vec<ClassItem>, ScrapeError>)
        ensures
            match page_rows(html@) {
                Some(rows) => r matches Ok(v) && all_wf(views(v@)) && views(v@) == agenda_classes(
                    rows,
                    expected_monday,
                    opt_view(location),
                    source_url@,
                    self.base_url@,
                ),
                None => r matches Err(e) && e is MissingTable,
            },
    {
        match read_agenda(html) {
            Some(rows) => Ok(self.parse_agenda_rows(&rows, expected_monday, location, source_url)),
            None => Err(ScrapeError::MissingTable),
        }
    }
}

proof fn lemma_continuation_rows(
    rows: Seq<Seq<CellView>>,
    d: Date,
    monday: Date,
    location: Option<Seq<char>>,
    page: Seq<char>,
    base: Seq<char>,
)
    requires
        forall|i: int| 0 <= i < rows.len() ==> (#[trigger] rows[i]).len() > 0 && rows[i][0].rowspan is None
            && row_class(rows[i], Some(d), monday, location, page, base) is Some,
    ensures
        parse_rows(rows, Some(d), monday, location, page, base).len() == rows.len(),
        forall|k: int| 0 <= k < rows.len() ==> (#[trigger] parse_rows(rows, Some(d), monday, location, page, base)[k]).date.date == d,
        forall|k: int| 0 <= k < rows.len() ==> #[trigger] parse_rows(rows, Some(d), monday, location, page, base)[k]
            == row_class(rows[k], Some(d), monday, location, page, base)->Some_0,
    decreases rows.len(),
{
    if rows.len() > 0 {
        let rest = rows.drop_first();
        assert forall|i: int| 0 <= i < rest.len() implies (#[trigger] rest[i]).len() > 0 && rest[i][0].rowspan is None
            && row_class(rest[i], Some(d), monday, location, page, base) is Some by {
            assert(rest[i] == rows[i + 1]);
        }
        lemma_continuation_rows(rest, d, monday, location, page, base);
        assert(row_date(rows[0], Some(d)) == Some(d));
        let c = row_class(rows[0], Some(d), monday, location, page, base)->Some_0;
        assert(c.date.date == d);
        let tail = parse_rows(rest, Some(d), monday, location, page, base);
        assert forall|k: int| 0 <= k < rows.len() implies (#[trigger] parse_rows(rows, Some(d), monday, location, page, base)[k]).date.date == d
            && parse_rows(rows, Some(d), monday, location, page, base)[k]
            == row_class(rows[k], Some(d), monday, location, page, base)->Some_0 by {
            if k > 0 {
                assert((seq![c] + tail)[k] == tail[k - 1]);
                assert(rest[k - 1] == rows[k]);
            }
        }
    }
}

/// The class of row `i` of a day whose header row names `d`: the header row is
/// read with no current date, the rows after it with `d`.
pub open spec fn day_row_class(
    rows: Seq<Seq<CellView>>,
    i: int,
    d: Date,
    monday: Date,
    location: Option<Seq<char>>,
    page: Seq<char>,
    base: Seq<char>,
) -> ClassView {
    row_class(rows[i], if i == 0 { None } else { Some(d) }, monday, location, page, base)->Some_0
}

/// A header row that names day `d`, followed by rows of the same day, gives one
/// class per row, all on day `d`, in order of their start: the classes given are
/// exactly those of the rows, each with its row's start time.
pub proof fn lemma_one_day_in_order(
    rows: Seq<Seq<CellView>>,
    d: Date,
    monday: Date,
    location: Option<Seq<char>>,
    page: Seq<char>,
    base: Seq<char>,
)
    requires
        rows.len() > 0,
        rows[0].len() > 0,
        rows[0][0].rowspan is Some,
        agenda_date_of(text_of(rows[0][0].texts)) == Some(d),
        row_class(rows[0], None, monday, location, page, base) is Some,
        forall|i: int| 1 <= i < rows.len() ==> (#[trigger] rows[i]).len() > 0 && rows[i][0].rowspan is None
            && row_class(rows[i], Some(d), monday, location, page, base) is Some,
    ensures
        agenda_classes(rows, monday, location, page, base).len() == rows.len(),
        forall|k: int| 0 <= k < rows.len() ==> (#[trigger] agenda_classes(rows, monday, location, page, base)[k]).date.date == d,
        starts_sorted(agenda_classes(rows, monday, location, page, base)),
        forall|i: int| 0 <= i < rows.len() ==> agenda_classes(rows, monday, location, page, base).contains(
            #[trigger] day_row_class(rows, i, d, monday, location, page, base),
        ),
        forall|k: int| 0 <= k < rows.len() ==> exists|i: int| 0 <= i < rows.len()
            && #[trigger] agenda_classes(rows, monday, location, page, base)[k] == day_row_class(
                rows, i, d, monday, location, page, base),
{
    let rest = rows.drop_first();
    assert forall|i: int| 0 <= i < rest.len() implies (#[trigger] rest[i]).len() > 0 && rest[i][0].rowspan is None
        && row_class(rest[i], Some(d), monday, location, page, base) is Some by {
        assert(rest[i] == rows[i + 1]);
    }
    lemma_continuation_rows(rest, d, monday, location, page, base);
    assert(row_date(rows[0], None) == Some(d));
    let c = row_class(rows[0], None, monday, location, page, base)->Some_0;
    assert(c.date.date == d);
    let tail = parse_rows(rest, Some(d), monday, location, page, base);
    let all = parse_rows(rows, None, monday, location, page, base);
    assert(all == seq![c] + tail);
    assert forall|k: int| 0 <= k < all.len() implies (#[trigger] all[k]).date.date == d by {
        if k > 0 {
            assert(all[k] == tail[k - 1]);
        }
    }
    lemma_sort_members(all);
    lemma_sort_starts_sorted(all);
    let r = sort_classes(all);
    assert forall|i: int| 0 <= i < all.len() implies #[trigger] all[i] == day_row_class(rows, i, d, monday, location, page, base) by {
        if i > 0 {
            assert(all[i] == tail[i - 1]);
            assert(rest[i - 1] == rows[i]);
        }
    }
    assert forall|k: int| 0 <= k < rows.len() implies (#[trigger] agenda_classes(rows, monday, location, page, base)[k]).date.date == d by {
        assert(all.contains(r[k]));
    }
    assert forall|i: int| 0 <= i < rows.len() implies agenda_classes(rows, monday, location, page, base).contains(
        #[trigger] day_row_class(rows, i, d, monday, location, page, base)) by {
        assert(all[i] == day_row_class(rows, i, d, monday, location, page, base));
    }
    assert forall|k: int| 0 <= k < rows.len() implies exists|i: int| 0 <= i < rows.len()
        && #[trigger] agenda_classes(rows, monday, location, page, base)[k] == day_row_class(
            rows, i, d, monday, location, page, base) by {
        assert(all.contains(r[k]));
        let i = choose|i: int| 0 <= i < all.len() && all[i] == r[k];
        assert(all[i] == day_row_class(rows, i, d, monday, location, page, base));
    }
}

/// A page whose agenda table holds no row gives an empty list, not an error.
pub proof fn lemma_empty_table_no_classes(
    monday: Date,
    location: Option<Seq<char>>,
    page: Seq<char>,
    base: Seq<char>,
)
    ensures
        agenda_classes(Seq::empty(), monday, location, page, base) == Seq::<ClassView>::empty(),
{
}

proof fn lemma_rows_in_week(
    rows: Seq<Seq<CellView>>,
    current: Option<Date>,
    monday: Date,
    location: Option<Seq<char>>,
    page: Seq<char>,
    base: Seq<char>,
)
    ensures
        forall|k: int| 0 <= k < parse_rows(rows, current, monday, location, page, base).len()
            ==> in_week((#[trigger] parse_rows(rows, current, monday, location, page, base)[k]).date.date, monday),
    decreases rows.len(),
{
    if rows.len() > 0 {
        let rest = rows.drop_first();
        let next = row_date(rows[0], current);
        lemma_rows_in_week(rest, next, monday, location, page, base);
        let tail = parse_rows(rest, next, monday, location, page, base);
        match row_class(rows[0], current, monday, location, page, base) {
            Some(c) => {
                assert(in_week(c.date.date, monday));
                assert forall|k: int| 0 <= k < tail.len() + 1 implies in_week(
                    (#[trigger] (seq![c] + tail)[k]).date.date,
                    monday,
                ) by {
                    if k > 0 {
                        assert((seq![c] + tail)[k] == tail[k - 1]);
                    }
                }
            },
            None => {},
        }
    }
}

/// Every class read from an agenda lies in the requested week: rows of other
/// weeks are left out.
pub proof fn lemma_classes_in_week(
    rows: Seq<Seq<CellView>>,
    monday: Date,
    location: Option<Seq<char>>,
    page: Seq<char>,
    base: Seq<char>,
)
    ensures
        forall|k: int| 0 <= k < agenda_classes(rows, monday, location, page, base).len()
            ==> in_week((#[trigger] agenda_classes(rows, monday, location, page, base)[k]).date.date, monday),
{
    let all = parse_rows(rows, None, monday, location, page, base);
    lemma_rows_in_week(rows, None, monday, location, page, base);
    lemma_sort_members(all);
    assert forall|k: int| 0 <= k < agenda_classes(rows, monday, location, page, base).len()
        implies in_week((#[trigger] agenda_classes(rows, monday, location, page, base)[k]).date.date, monday) by {
        let j = choose|j: int| 0 <= j < all.len() && all[j] == sort_classes(all)[k];
        assert(in_week(all[j].date.date, monday));
    }
}

} // verus!
