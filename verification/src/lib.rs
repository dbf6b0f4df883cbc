//! Analysis-and-history core of a daily weather mail job.
//!
//! The library reduces an hourly forecast series to daily temperature
//! statistics, renders a structured textual narrative, keeps an append-only
//! deduplicated per-city temperature history in a delimited text format, and
//! computes the day-over-day temperature change.  Temperatures are carried as
//! fixed-point integers in hundredths of a degree; the boundary code parses
//! the textual decimals of the wire model with the verified parser in
//! [`fixed`].

pub mod analyse;
pub mod dates;
pub mod errors;
pub mod fixed;
pub mod mailserv;
pub mod models;
pub mod staticconfig;
pub mod weather;
