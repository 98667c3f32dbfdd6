//! Density and cumulative density of tab-delimited records.
//!
//! Each record is a line of text, and one of its tab-delimited fields is a
//! numeric weight. The density of a record is its weight as a fraction of
//! the total of all weights; its cumulative density is the same fraction of
//! the running total, up to and including the record. A run reads all
//! records, and then writes each one back with these two ratios as two more
//! fields.
//!
//! This library is the text side of such a run:
//!
//! - [`fields`] cuts a line at its tabs and selects a field;
//! - [`literal`] decides whether a field is the text of a number;
//! - [`record`] parses lines into records and keeps them in input order,
//!   all or nothing;
//! - [`emit`] lays out the lines of the output;
//! - [`config`] holds the settings of a run, and [`control`] and [`error`]
//!   say how a run ends.
//!
//! The arithmetic on the weights is done by the caller, on 64-bit floats:
//! the library hands over the text of each weight, which the caller
//! converts, and takes back the text of the two ratios of each record.

pub mod config;
pub mod control;
pub mod emit;
pub mod error;
pub mod fields;
pub mod literal;
pub mod record;

pub use config::Density;
pub use control::{exit_status, settle, EXIT_CLEAN, EXIT_FAILURE};
pub use emit::{emit, render, Columns};
pub use error::{AppError, IoFailure};
pub use fields::select_field;
pub use literal::is_literal;
pub use record::{ingest, parse_line, Record, Records};
