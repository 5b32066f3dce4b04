//! Verified core of the Dualis timetable scraper and iCalendar exporter.
pub mod text;
pub mod num;
pub mod date;
pub mod html;
pub mod dualis;
pub mod ical;
pub mod error;
pub mod config;
pub mod routes;
