//! Verified core of a command-line client for hourly electricity prices:
//! option validation, interval parsing, price-feed entry parsing and
//! time-bucketing of price points.

pub mod text;
pub mod time;
pub mod error;
pub mod api;
pub mod bucket;
pub mod config;
