//! Scraping and republishing a gym's weekly class schedule.
//!
//! The library turns the agenda table of a schedule page into ordered class
//! records, resolves the week windows that may be requested, merges the weeks
//! fetched in parallel, and renders the records as an iCalendar document.

pub mod agenda;
pub mod auth;
pub mod date;
pub mod error;
pub mod ical;
pub mod location;
pub mod models;
pub mod page;
pub mod schedule;
pub mod service;
pub mod settings;
pub mod text;
pub mod validation;
