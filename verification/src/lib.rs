//! Event analytics core: a typed property store, the filter language that
//! queries it, all-or-nothing event ingestion and the daily rotating session
//! identity that correlates events without keeping client identifiers.

pub mod assets;
pub mod clock;
pub mod condition;
pub mod error;
pub mod filter;
pub mod ingest;
pub mod json;
pub mod laws;
pub mod query;
pub mod session;
pub mod store;
pub mod text;
pub mod token;
pub mod user_agent;
pub mod value;
pub mod wire;
