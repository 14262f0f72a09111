use crossfit_timetable::date::Date;
use crossfit_timetable::models::ClassItem;
use crossfit_timetable::schedule::{CrossfitScraper, ScrapeError};

fn ymd(y: i32, m: u32, d: u32) -> Date {
    Date::from_ymd(y, m, d).unwrap()
}

fn scraper() -> CrossfitScraper {
    CrossfitScraper::new("https://example.com".to_string())
}

#[test]
fn test_get_valid_monday_valid() {
    let today = Date::today().unwrap();
    let monday = Date { days: today.days - today.num_days_from_monday() as i32 };
    assert_eq!(CrossfitScraper::get_valid_monday(Some(monday), today).unwrap(), monday);
}

#[test]
fn test_get_valid_monday_not_monday() {
    let tuesday = ymd(2025, 11, 11);
    let today = Date::today().unwrap();
    let err = CrossfitScraper::get_valid_monday(Some(tuesday), today).unwrap_err();
    assert!(matches!(err, ScrapeError::InvalidMonday));
}

#[test]
fn test_parse_time_range() {
    let scraper = scraper();
    assert_eq!(scraper.parse_time_range("06:00 - 07:00"), Some(60));
    assert_eq!(scraper.parse_time_range("18:00-19:30"), Some(90));
    assert_eq!(scraper.parse_time_range("invalid"), None);
}

#[test]
fn test_parse_agenda_date() {
    let scraper = scraper();
    let parsed = scraper.parse_agenda_date("Pn, 2025-11-24");
    assert_eq!(parsed, Some(ymd(2025, 11, 24)));
    assert!(scraper.parse_agenda_date("no date").is_none());
}

#[test]
fn test_parse_timetable_html() {
    let scraper = scraper();
    let html = r#"
        <html>
        <body>
        <table class="calendar_table_agenda">
            <tr>
                <td rowspan="2">Pn, 2025-12-15</td>
                <td>06:00 - 07:00</td>
                <td>
                    <p class="event_name">WOD</p>
                    Tomasz Nowosielski
                </td>
            </tr>
            <tr>
                <td>07:00 - 08:00</td>
                <td>
                    <p class="event_name">HYROX</p>
                    Jan Kowalski
                </td>
            </tr>
        </table>
        </body>
        </html>
        "#;
    let monday = ymd(2025, 12, 15);
    let result = scraper
        .parse_timetable_html(html, monday, None, "https://example.com/kalendarz")
        .unwrap();
    assert_eq!(result.len(), 2);
    assert_eq!(result[0].event_name, "WOD");
    assert_eq!(result[1].event_name, "HYROX");
}

#[test]
fn monday_resolution_against_fixed_today() {
    let today = ymd(2025, 11, 26);
    let this_monday = ymd(2025, 11, 24);
    assert_eq!(CrossfitScraper::get_valid_monday(None, today).unwrap(), this_monday);
    assert_eq!(CrossfitScraper::get_valid_monday(Some(this_monday), today).unwrap(), this_monday);
    let last_monday = ymd(2025, 11, 17);
    assert_eq!(CrossfitScraper::get_valid_monday(Some(last_monday), today).unwrap(), last_monday);
    let next_monday = ymd(2025, 12, 1);
    assert_eq!(CrossfitScraper::get_valid_monday(Some(next_monday), today).unwrap(), next_monday);
}

#[test]
fn monday_exactly_fourteen_days_back_is_accepted() {
    let today = ymd(2025, 11, 24);
    let monday = ymd(2025, 11, 10);
    assert_eq!(CrossfitScraper::get_valid_monday(Some(monday), today).unwrap(), monday);
}

#[test]
fn old_monday_is_too_old() {
    let today = ymd(2025, 11, 26);
    let err = CrossfitScraper::get_valid_monday(Some(ymd(2025, 11, 10)), today).unwrap_err();
    assert!(matches!(err, ScrapeError::TooOld));
}

#[test]
fn non_monday_in_the_far_past_is_invalid_not_old() {
    let today = ymd(2025, 11, 26);
    let err = CrossfitScraper::get_valid_monday(Some(ymd(2020, 1, 1)), today).unwrap_err();
    assert!(matches!(err, ScrapeError::InvalidMonday));
}

#[test]
fn time_range_edge_cases() {
    let scraper = scraper();
    assert_eq!(scraper.parse_time_range("07:00 - 06:00"), None);
    assert_eq!(scraper.parse_time_range("06:00 - 07:00 - 08:00"), None);
    assert_eq!(scraper.parse_time_range("6:5 - 7:15"), Some(70));
    assert_eq!(scraper.parse_time_range("aa:00 - 07:00"), None);
    assert_eq!(scraper.parse_time_range("+06:00 - 07:00"), Some(60));
    assert_eq!(scraper.parse_time_range("\t09:00 -\n10:45 "), Some(105));
}

#[test]
fn agenda_date_takes_first_date() {
    let scraper = scraper();
    assert_eq!(scraper.parse_agenda_date("Wt, 2025-11-25 / 2025-12-02"), Some(ymd(2025, 11, 25)));
    assert_eq!(scraper.parse_agenda_date("2025-13-40"), None);
}

fn agenda(rows: &str) -> String {
    format!("<html><body><table class=\"calendar_table_agenda\">{}</table></body></html>", rows)
}

#[test]
fn one_day_rows_share_the_date_and_come_out_in_start_order() {
    let html = agenda(
        r#"<tr><td rowspan="3">Pn, 2025-11-24</td><td>18:00 - 19:00</td><td><p class="event_name">WOD</p>Anna</td></tr>
           <tr><td>06:00 - 07:00</td><td><p class="event_name">WOD</p>Ewa</td></tr>
           <tr><td>12:00 - 12:45</td><td><p class="event_name">Mobility</p>Ola</td></tr>"#,
    );
    let monday = ymd(2025, 11, 24);
    let r = scraper().parse_timetable_html(&html, monday, None, "https://example.com/a").unwrap();
    assert_eq!(r.len(), 3);
    assert!(r.iter().all(|c| c.date.date == monday));
    let hours: Vec<u32> = r.iter().map(|c| c.date.hour).collect();
    assert_eq!(hours, vec![6, 12, 18]);
    assert_eq!(r[1].duration_min, Some(45));
    assert_eq!(r[0].coach, "Ewa");
}

#[test]
fn rows_of_another_week_are_left_out() {
    let html = agenda(
        r#"<tr><td rowspan="1">Nd, 2025-11-23</td><td>10:00 - 11:00</td><td><p class="event_name">WOD</p>Piotr</td></tr>
           <tr><td rowspan="1">Pn, 2025-11-24</td><td>10:00 - 11:00</td><td><p class="event_name">HYROX</p>Piotr</td></tr>
           <tr><td rowspan="1">Pn, 2025-12-01</td><td>10:00 - 11:00</td><td><p class="event_name">Open</p>Piotr</td></tr>
           <tr><td>12:00 - 13:00</td><td><p class="event_name">Late</p>Piotr</td></tr>"#,
    );
    let r = scraper().parse_timetable_html(&html, ymd(2025, 11, 24), None, "https://example.com/a").unwrap();
    assert_eq!(r.len(), 1);
    assert_eq!(r[0].event_name, "HYROX");
}

#[test]
fn missing_table_is_an_error() {
    let html = "<html><body><table class=\"other\"><tr><td>x</td></tr></table></body></html>";
    let err = scraper().parse_timetable_html(html, ymd(2025, 11, 24), None, "https://example.com/a").unwrap_err();
    assert!(matches!(err, ScrapeError::MissingTable));
}

#[test]
fn empty_table_gives_empty_list() {
    let html = agenda("");
    let r = scraper().parse_timetable_html(&html, ymd(2025, 11, 24), None, "https://example.com/a").unwrap();
    assert!(r.is_empty());
}

#[test]
fn malformed_rows_are_skipped() {
    let html = agenda(
        r#"<tr><td>08:00 - 09:00</td><td><p class="event_name">Orphan</p>X</td></tr>
           <tr><td rowspan="2">no date here</td><td>08:00 - 09:00</td><td><p class="event_name">Bad</p>X</td></tr>
           <tr><td rowspan="3">Pn, 2025-11-24</td><td>25:00 - 26:00</td><td><p class="event_name">Late</p>X</td></tr>
           <tr><td>08:00 - 09:00</td><td><p class="event_name">  </p>X</td></tr>
           <tr><td>08:00 - 09:00</td><td>no name element</td></tr>
           <tr><td>9:30</td><td><p class="event_name">Open Gym</p></td></tr>"#,
    );
    let r = scraper().parse_timetable_html(&html, ymd(2025, 11, 24), None, "https://example.com/a").unwrap();
    assert_eq!(r.len(), 1);
    assert_eq!(r[0].event_name, "Open Gym");
    assert_eq!(r[0].coach, "");
    assert_eq!(r[0].duration_min, None);
    assert_eq!((r[0].date.hour, r[0].date.minute), (9, 30));
}

#[test]
fn entry_link_and_location_are_carried() {
    let html = agenda(
        r#"<tr><td rowspan="1">Pn, 2025-11-24</td><td>06:00 - 07:00</td>
           <td><p class="event_name">WOD</p><span>Coach Kate</span><a class="schedule-agenda-link" href="/zajecia/5">more</a></td></tr>
           <tr><td>07:00 - 08:00</td><td><p class="event_name">WOD</p>Kate</td></tr>"#,
    );
    let r = scraper()
        .parse_timetable_html(&html, ymd(2025, 11, 24), Some("Main St 1".to_string()), "https://example.com/page")
        .unwrap();
    assert_eq!(r.len(), 2);
    assert_eq!(r[0].source_url, "https://example.com/zajecia/5");
    assert_eq!(r[0].coach, "Coach Kate");
    assert_eq!(r[1].source_url, "https://example.com/page");
    assert_eq!(r[1].location, Some("Main St 1".to_string()));
}

#[test]
fn equal_starts_are_ordered_by_name_then_coach() {
    let html = agenda(
        r#"<tr><td rowspan="1">Pn, 2025-11-24</td><td>06:00 - 07:00</td><td><p class="event_name">WOD</p>Zed</td></tr>
           <tr><td>06:00 - 07:00</td><td><p class="event_name">WOD</p>Adam</td></tr>
           <tr><td>06:00 - 07:00</td><td><p class="event_name">Box</p>Zed</td></tr>"#,
    );
    let r = scraper().parse_timetable_html(&html, ymd(2025, 11, 24), None, "https://example.com/a").unwrap();
    let keys: Vec<(String, String)> = r.iter().map(|c| (c.event_name.clone(), c.coach.clone())).collect();
    assert_eq!(
        keys,
        vec![
            ("Box".to_string(), "Zed".to_string()),
            ("WOD".to_string(), "Adam".to_string()),
            ("WOD".to_string(), "Zed".to_string())
        ]
    );
}

#[test]
fn location_from_contact_block() {
    let html = r#"<html><body><address>
        <p>Kontakt</p><p>CrossFit Rzeszów 2.0</p><p>  </p>
        <p>Boya-Żeleńskiego 15</p><p>35-105 Rzeszów</p></address>
        <address><p>Other</p></address></body></html>"#;
    assert_eq!(
        scraper().resolve_location(html),
        Some("Boya-Żeleńskiego 15, 35-105 Rzeszów, Poland".to_string())
    );
    let with_country = "<address><p>Main 1</p><p>Poland</p></address>";
    assert_eq!(scraper().resolve_location(with_country), Some("Main 1, Poland".to_string()));
    assert_eq!(scraper().resolve_location("<address><p>Kontakt</p></address>"), None);
    assert_eq!(scraper().resolve_location("<p>no address</p>"), None);
}

#[test]
fn agenda_url_has_day_and_view() {
    let url = scraper().agenda_url(ymd(2025, 11, 24)).unwrap();
    assert_eq!(url, "https://example.com/kalendarz-zajec?day=2025-11-24&view=Agenda");
}

#[test]
fn week_mondays_are_consecutive() {
    let mondays = CrossfitScraper::week_mondays(ymd(2025, 11, 26), 3);
    assert_eq!(mondays, vec![ymd(2025, 11, 24), ymd(2025, 12, 1), ymd(2025, 12, 8)]);
    assert!(CrossfitScraper::week_mondays(ymd(2025, 11, 26), 0).is_empty());
}

fn class(d: Date, hour: u32, name: &str) -> ClassItem {
    ClassItem {
        date: crossfit_timetable::date::DateTime { date: d, hour, minute: 0 },
        event_name: name.to_string(),
        coach: "C".to_string(),
        duration_min: Some(60),
        source_url: "https://example.com".to_string(),
        location: None,
    }
}

#[test]
fn failing_second_week_fails_the_whole_fetch() {
    let week1 = vec![class(ymd(2025, 11, 24), 6, "WOD")];
    let results = vec![Ok(week1), Err(ScrapeError::Http("connection refused".to_string()))];
    let err = CrossfitScraper::merge_weeks(results).unwrap_err();
    assert!(matches!(err, ScrapeError::Http(_)));
}

#[test]
fn first_failing_week_decides_the_error() {
    let results = vec![
        Err(ScrapeError::MissingTable),
        Err(ScrapeError::Http("timeout".to_string())),
    ];
    assert!(matches!(CrossfitScraper::merge_weeks(results).unwrap_err(), ScrapeError::MissingTable));
}

#[test]
fn weeks_are_merged_and_sorted() {
    let w1 = vec![class(ymd(2025, 12, 1), 6, "B"), class(ymd(2025, 12, 1), 5, "A")];
    let w2 = vec![class(ymd(2025, 11, 24), 7, "C")];
    let merged = CrossfitScraper::merge_weeks(vec![Ok(w1), Ok(w2), Ok(vec![])]).unwrap();
    let names: Vec<&str> = merged.iter().map(|c| c.event_name.as_str()).collect();
    assert_eq!(names, vec!["C", "A", "B"]);
    assert!(CrossfitScraper::merge_weeks(vec![]).unwrap().is_empty());
}

#[test]
fn scrape_error_messages() {
    assert_eq!(ScrapeError::InvalidMonday.message(), "Date must be a Monday");
    assert_eq!(ScrapeError::TooOld.message(), "Date cannot be more than 2 weeks in the past");
    assert_eq!(ScrapeError::MissingTable.message(), "Table with class schedule not found on the page");
}

#[test]
fn transport_error_message_keeps_its_detail() {
    assert_eq!(ScrapeError::Http("timeout".to_string()).message(), "HTTP error: timeout");
}
