//! Synchronization engine for day-ahead electricity prices: plans which time
//! range to fetch, expands published reporting periods into dense per-timestamp
//! series, enriches every sample with the tax rate in force, and decides how the
//! resulting records are written into the configured time-series stores.
pub mod coordinator;
pub mod instant;
pub mod models;
pub mod planner;
pub mod records;
pub mod series;
pub mod tax;
pub mod upsert;
