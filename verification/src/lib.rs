//! Ingestion of CDN download logs: aggregating parsed download records into
//! per-(crate, version, day) counts and merging those counts additively into
//! the download ledger.

pub mod aggregate;
pub mod catalog;
pub mod compression;
pub mod date;
pub mod downloads;
pub mod job;
pub mod ledger;
pub mod merge;
pub mod path;
pub mod ranking;
pub mod staging;
pub mod store;
pub mod text;
pub mod version;
