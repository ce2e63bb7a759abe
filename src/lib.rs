//! Scraping of an upstream finance application's HTML into records:
//! a positional header/cell table join, and a ledger of account
//! transactions that is deduplicated by date, optionally negated and
//! reversed.

pub mod amount;
pub mod envelope;
pub mod ledger;
pub mod markup;
pub mod table;
pub mod text;
pub mod upstream;

