//! A personal ledger engine: dated entries, a running balance, an overdraft
//! limit on expenses, and a recurring monthly income that is filled in for
//! every month that has passed since the ledger was last opened.
//!
//! Amounts are whole hundredths of the currency unit, held in `i64`. An
//! amount that the user types is read as the very number typed, and the
//! rules are held against that number; what is written of it is its
//! hundredths, rounded half away from zero. Times of writing are seconds
//! since the Unix epoch.
//!
//! - [`store`] holds the entries and the configuration.
//! - [`database`] is the opened ledger: settings, balance, admission of
//!   expenses, recording, and the monthly fill-in.
//! - [`rules`] and [`backfill`] say what these do, and state the laws that
//!   follow.
//! - [`listing`] orders the most recent entries; [`report`] writes them.
//! - [`amount`], [`period`] and [`text`] read and write amounts, months and
//!   digits.
//! - [`command`], [`util`] and [`text_resources`] serve the terminal.
//! - [`clock`] reads the time.

pub mod error;
pub mod text;
pub mod util;
pub mod command;
pub mod amount;
pub mod period;
pub mod clock;
pub mod entry;
pub mod listing;
pub mod store;
pub mod rules;
pub mod backfill;
pub mod report;
pub mod database;
pub mod text_resources;
