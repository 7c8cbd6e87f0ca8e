//! Verified core of the PUBG position analyzer: identifier and settings
//! validation, match document extraction, telemetry payload decoding,
//! collection bookkeeping, dashboard aggregation and request pacing.
pub mod text;
pub mod decimal;
pub mod error;
pub mod models;
pub mod pubg_api;
pub mod telemetry;
pub mod collector;
pub mod storage;
pub mod rate_limit;
pub mod analysis;
pub mod credentials;
pub mod grouping;
pub mod key_order;
