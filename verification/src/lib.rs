//! Finds out how much AI a machine has used, from the logs that AI tools leave on it.

pub mod browser_data_audit;
pub mod browser_local_storage;
pub mod browser_transcripts;
pub mod collections;
pub mod device_id;
pub mod harvest;
pub mod json;
pub mod ledger;
pub mod logs;
pub mod names;
pub mod platform;
pub mod providers;
pub mod scan;
pub mod share;
pub mod tally;
pub mod text;
pub mod tier;
pub mod time_util;
pub mod token_estimate;
pub mod types;
