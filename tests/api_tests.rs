use crossfit_timetable::auth::verify_token;
use crossfit_timetable::date::Date;
use crossfit_timetable::service::{finish_weeks, plan_weeks};
use crossfit_timetable::error::ApiError;
use crossfit_timetable::schedule::ScrapeError;
use crossfit_timetable::settings::Settings;
use crossfit_timetable::validation::{default_weeks, require_classes, validate_weeks};

fn secret_settings() -> Settings {
    Settings {
        scraper_base_url: "https://example.com".to_string(),
        debug: false,
        auth_token: "secret".to_string(),
        enable_swagger: true,
        port: 8080,
        location: None,
    }
}

#[test]
fn test_verify_token_header() {
    let settings = secret_settings();
    assert!(verify_token(&settings, Some("secret"), None).is_ok());
}

#[test]
fn test_verify_token_query() {
    let settings = secret_settings();
    assert!(verify_token(&settings, None, Some("secret")).is_ok());
    assert!(verify_token(&settings, None, Some("bad")).is_err());
}

#[test]
fn header_token_takes_precedence_and_missing_token_fails() {
    let settings = secret_settings();
    assert!(verify_token(&settings, Some("bad"), Some("secret")).is_err());
    let err = verify_token(&settings, None, None).unwrap_err();
    assert_eq!(err.status_code(), 401);
    assert_eq!(err.message(), "Invalid authentication token");
}

#[test]
fn test_settings_with_environment_variables() {
    let settings = Settings {
        scraper_base_url: "https://example.com".to_string(),
        debug: true,
        auth_token: "test-token-123".to_string(),
        enable_swagger: true,
        port: 9000,
        location: Some("Test Location".to_string()),
    };
    assert_eq!(settings.scraper_base_url, "https://example.com");
    assert_eq!(settings.debug, true);
    assert_eq!(settings.auth_token, "test-token-123");
    assert_eq!(settings.enable_swagger, true);
    assert_eq!(settings.port, 9000);
    assert_eq!(settings.location, Some("Test Location".to_string()));
}

#[test]
fn test_validate_weeks() {
    assert!(validate_weeks(1).is_ok());
    assert!(validate_weeks(6).is_ok());
    assert!(validate_weeks(0).is_err());
    assert!(validate_weeks(7).is_err());
}

#[test]
fn weeks_bounds_and_default() {
    assert_eq!(validate_weeks(3).unwrap(), 3);
    let err = validate_weeks(255).unwrap_err();
    assert_eq!(err.status_code(), 400);
    assert_eq!(err.message(), "weeks must be between 1 and 6");
    assert_eq!(default_weeks(), 1);
}

#[test]
fn scrape_errors_map_to_api_errors() {
    let e = ApiError::from_scrape_error(ScrapeError::InvalidMonday);
    assert_eq!((e.status_code(), e.message().as_str()), (400, "Date must be a Monday"));
    let e = ApiError::from_scrape_error(ScrapeError::TooOld);
    assert_eq!(e.status_code(), 400);
    let e = ApiError::from_scrape_error(ScrapeError::MissingTable);
    assert_eq!((e.status_code(), e.message().as_str()), (500, "Table with class schedule not found on the page"));
    let e = ApiError::from_scrape_error(ScrapeError::Http("dns failure".to_string()));
    assert_eq!((e.status_code(), e.message().as_str()), (500, "Failed to fetch timetable"));
}

#[test]
fn no_classes_is_not_found() {
    let err = require_classes(vec![]).unwrap_err();
    assert_eq!(err.status_code(), 404);
    assert_eq!(err.message(), "No classes found");
    assert!(matches!(err, ApiError::NotFound(_)));
}

#[test]
fn planned_weeks_follow_token_and_count() {
    let settings = secret_settings();
    let today = Date::from_ymd(2025, 11, 26).unwrap();
    let err = plan_weeks(&settings, None, Some("bad"), Some(2), today).unwrap_err();
    assert_eq!(err.status_code(), 401);
    let err = plan_weeks(&settings, Some("secret"), None, Some(7), today).unwrap_err();
    assert_eq!(err.status_code(), 400);
    let one = plan_weeks(&settings, None, Some("secret"), None, today).unwrap();
    assert_eq!(one, vec![Date::from_ymd(2025, 11, 24).unwrap()]);
    let two = plan_weeks(&settings, Some("secret"), None, Some(2), today).unwrap();
    assert_eq!(two, vec![Date::from_ymd(2025, 11, 24).unwrap(), Date::from_ymd(2025, 12, 1).unwrap()]);
}

#[test]
fn finished_weeks_map_errors_and_emptiness() {
    let err = finish_weeks(vec![Ok(vec![]), Err(ScrapeError::Http("reset".to_string()))]).unwrap_err();
    assert_eq!((err.status_code(), err.message().as_str()), (500, "Failed to fetch timetable"));
    let err = finish_weeks(vec![Err(ScrapeError::TooOld)]).unwrap_err();
    assert_eq!(err.status_code(), 400);
    let err = finish_weeks(vec![Ok(vec![]), Ok(vec![])]).unwrap_err();
    assert_eq!(err.status_code(), 404);
}
