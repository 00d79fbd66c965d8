//! Verified core of the telemetry ingest gateway: the event standard, the
//! read-query builders, API-key handling, admin authorization decisions and
//! the drain's batching rules.

pub mod text;
pub mod json;
pub mod schema;
pub mod time;
pub mod query;
pub mod read;
pub mod keys;
pub mod auth;
pub mod ingest;
pub mod drain;
pub mod ch;
pub mod admin;
