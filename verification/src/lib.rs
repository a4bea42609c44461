//! Verified core of a fisheries-stocking data pipeline: it locates and
//! parses a spreadsheet response published behind a fixed envelope,
//! reshapes the table into a label-keyed view, derives compact index
//! records, and backfills older persisted records, all behind explicit
//! error results.
pub mod errors;
pub mod indexing;
pub mod json;
pub mod migration;
pub mod models;
pub mod records;
pub mod scraping;
pub mod trigger;
