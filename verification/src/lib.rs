//! Telemetry from solar charge controllers: reading the two dialects of
//! their logs, keeping what was read in one store ordered by time, and
//! answering requests for charts with series folded into buckets of time.
//!
//! Every measurement is held as a signed count of millionths of its unit,
//! and every moment as a count of seconds since 1970-01-01T00:00:00Z, so
//! that all arithmetic is exact integer arithmetic.
//!
//! - `fixed_point`: decimal and integer text, products of measurements.
//! - `calendar`: dates and times of day, placed on the time line by the
//!   `time` crate.
//! - `solar_data`: a measurement and its kind, a record, the store, the
//!   registries of cell and controller ids.
//! - `parse`: the readers of the live and of the stored dialect.
//! - `text`: cutting a file into lines and a line into entries.
//! - `ingest`: taking in a file.
//! - `graph`: what a chart asks for and what it gets.
//! - `aggregate`: folding a stream of samples into buckets.
//! - `series`: answering a request.
//! - `theme`: the colours of a theme, read from hex codes.
//! - `types`: a bounded queue.

pub mod aggregate;
pub mod calendar;
pub mod fixed_point;
pub mod graph;
pub mod ingest;
pub mod parse;
pub mod series;
pub mod solar_data;
pub mod text;
pub mod theme;
pub mod types;
