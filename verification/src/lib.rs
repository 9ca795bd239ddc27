//! KevinDB: the rules of an agent-observability database.

pub mod float;
pub mod ingest;
pub mod json;
pub mod metrics;
pub mod otlp;
pub mod query;
pub mod record;
pub mod search;
pub mod sorting;
pub mod sql;
pub mod statement;
pub mod text;
pub mod time;
