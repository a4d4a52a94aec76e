//! In-process telemetry store: owner-keyed histories of immutable records
//! with a session-scoped secondary index, filtered queries and retention
//! deletion. The store and the filter engine are verified; transport,
//! configuration loading and process bootstrap live outside this crate.

pub mod config;
mod concurrent_map;
pub mod errors;
pub mod filter;
pub mod laws;
pub mod models;
pub mod retention;
pub mod service;
mod shims;
pub mod storage;
