//! Property-value aggregation: events fan out into `(team, type, key, value)`
//! tuples, tuples are counted in memory, and counts are flushed to an output
//! stage before the input offsets they came from are committed.

pub mod aggregator;
pub mod app_context;
pub mod config;
pub mod decimal;
pub mod fan_out;
pub mod flush;
pub mod history;
pub mod json;
pub mod producer;
pub mod types;
pub mod worker;
