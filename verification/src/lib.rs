//! Cron-style schedules over a minute-resolution calendar.
//!
//! A [`Schedule`] is compiled from a five-field expression into four sets of
//! permitted values (minutes, hours, days of the month, months).  Given an
//! [`Instant`], [`Schedule::get_next_match`] finds the earliest later minute
//! that every field permits.
//!
//! Contracts are stated over [`moment::Moment`], the calendar fields of an
//! instant as mathematical integers.

pub mod error;
pub mod text;
pub mod bits;
pub mod parser;
pub mod moment;
pub mod instant;
pub mod time_extension;
pub mod schedule;
pub mod laws;

pub use error::ParsingError;
pub use instant::Instant;
pub use schedule::Schedule;
pub use time_extension::TimeExtension;
