//! Purchase-order splitting and reporting.
//!
//! The pipeline loads a comma-delimited purchase-order export, keeps the
//! rows that belong to a caller-supplied list of store identifiers,
//! classifies each row by a `$` marker in its style description, and then
//! either renders one normalized output file per store or aggregates the
//! rows into a per-store and grand-total report.

pub mod error;
pub mod filter;
pub mod loader;
pub mod message_box;
pub mod qty;
pub mod report;
pub mod row;
pub mod store_list;
pub mod writer;
