use crossfit_timetable::date::{Date, DateTime};
use crossfit_timetable::ical::{GymProfile, ICalExporter};
use crossfit_timetable::models::ClassItem;

fn create_test_gym() -> GymProfile {
    GymProfile {
        title: "CrossFit 2.0 Rzeszów".to_string(),
        location: "Boya-Żeleńskiego 15, 35-105 Rzeszów, Poland".to_string(),
        latitude: format!("{}", 50.0386f64),
        longitude: format!("{}", 22.0026f64),
    }
}

fn at(y: i32, mo: u32, d: u32, hour: u32, minute: u32) -> DateTime {
    DateTime { date: Date::from_ymd(y, mo, d).unwrap(), hour, minute }
}

fn wod(location: Option<String>, duration_min: Option<u32>) -> ClassItem {
    ClassItem {
        date: at(2025, 11, 24, 6, 0),
        event_name: "WOD".to_string(),
        coach: "Coach".to_string(),
        duration_min,
        source_url: "https://example.com".to_string(),
        location,
    }
}

fn unfold(body: &str) -> String {
    body.replace("\r\n ", "").replace("\n ", "")
}

#[test]
fn test_generate_single_class() {
    let exporter = ICalExporter::new();
    let gym = create_test_gym();
    let class = wod(None, Some(60));
    let bytes = exporter.generate(&[class], &gym);
    let body = String::from_utf8(bytes).unwrap();
    assert!(body.contains("BEGIN:VEVENT"));
    assert!(body.contains("CrossFit: WOD"));
}

#[test]
fn test_generate_empty() {
    let exporter = ICalExporter::new();
    let gym = create_test_gym();
    let bytes = exporter.generate(&[], &gym);
    assert!(bytes.is_empty());
}

#[test]
fn test_x_apple_structured_location() {
    let exporter = ICalExporter::new();
    let gym = create_test_gym();
    let class = wod(Some("Boya-Żeleńskiego 15, 35-105 Rzeszów, Poland".to_string()), Some(60));
    let bytes = exporter.generate(&[class], &gym);
    let body = String::from_utf8(bytes).unwrap();
    let normalized = unfold(&body);
    assert!(normalized.contains("X-APPLE-STRUCTURED-LOCATION"));
    assert!(normalized.contains("geo:50.0386,22.0026"));
    assert!(normalized.contains("VALUE=URI"));
    assert!(normalized.contains("X-TITLE=CrossFit 2.0 Rzeszów"));
    assert!(normalized.contains("X-APPLE-RADIUS=49.91"));
    assert!(normalized.contains("X-ADDRESS="));
}

#[test]
fn one_class_gives_one_event_with_its_fields() {
    let body = String::from_utf8(ICalExporter::new().generate(&[wod(None, Some(60))], &create_test_gym())).unwrap();
    let body = unfold(&body);
    assert_eq!(body.matches("BEGIN:VEVENT").count(), 1);
    assert_eq!(body.matches("BEGIN:VCALENDAR").count(), 1);
    assert!(body.contains("SUMMARY:CrossFit: WOD"));
    assert!(body.contains("DTSTART:20251124T060000"));
    assert!(body.contains("DTEND:20251124T070000"));
    assert!(body.contains("UID:20251124T060000-WOD-Coach-crossfit-timetable"));
    assert!(body.contains("DTSTAMP:20251124T060000Z"));
    assert!(body.contains("Boya-Żeleńskiego 15\\\\, 35-105 Rzeszów\\\\, Poland") || body.contains("LOCATION:Boya"));
    assert!(body.contains("X-ADDRESS=Boya-Żeleńskiego 15\\n35-105 Rzeszów\\nPoland"));
}

#[test]
fn class_without_duration_lasts_an_hour_and_ends_past_midnight() {
    let mut c = wod(None, None);
    c.date = at(2025, 11, 24, 23, 30);
    let body = unfold(&String::from_utf8(ICalExporter::new().generate(&[c], &create_test_gym())).unwrap());
    assert!(body.contains("DTSTART:20251124T233000"));
    assert!(body.contains("DTEND:20251125T003000"));
}

#[test]
fn spaces_become_hyphens_in_the_uid() {
    let mut c = wod(None, Some(90));
    c.event_name = "Open Gym".to_string();
    c.coach = "Jan Kowalski".to_string();
    let body = unfold(&String::from_utf8(ICalExporter::new().generate(&[c], &create_test_gym())).unwrap());
    assert!(body.contains("UID:20251124T060000-Open-Gym-Jan-Kowalski-crossfit-timetable"));
    assert!(body.contains("DTEND:20251124T073000"));
}

#[test]
fn exporting_twice_gives_the_same_bytes() {
    let classes = vec![wod(None, Some(60)), wod(Some("Elsewhere 1".to_string()), None)];
    let gym = create_test_gym();
    let a = ICalExporter::new().generate(&classes, &gym);
    let b = ICalExporter::new().generate(&classes, &gym);
    assert!(!a.is_empty());
    assert_eq!(a, b);
    let body = unfold(&String::from_utf8(a).unwrap());
    assert_eq!(body.matches("BEGIN:VEVENT").count(), 2);
    assert!(body.contains("LOCATION:Elsewhere 1"));
}

#[test]
fn event_end_adds_duration() {
    let c = wod(None, Some(150));
    let end = ICalExporter::event_end(&c).unwrap();
    assert_eq!((end.hour, end.minute), (8, 30));
    assert_eq!(end.date, c.date.date);
}

#[test]
fn date_helpers() {
    let d = Date::from_ymd(2025, 11, 24).unwrap();
    assert_eq!(d.num_days_from_monday(), 0);
    assert_eq!(d.to_iso_string(), "2025-11-24");
    assert_eq!(d.plus_days(7), Date::from_ymd(2025, 12, 1));
    assert_eq!(Date::from_ymd(2025, 2, 29), None);
    assert_eq!(at(2025, 11, 24, 6, 5).to_compact_string(), "20251124T060500");
    assert_eq!(DateTime::at(d, 24, 0), None);
}
