//! Resumable crawl-and-enrich control logic for real-estate listings.

pub mod cache;
pub mod config;
pub mod enrichment;
pub mod ledger;
pub mod pagination;
pub mod retry;
pub mod schema;
pub mod text;
