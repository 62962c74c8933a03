//! A small time-series database node: line-protocol ingestion, a documented
//! configuration, segment naming for storage, and peer replication decisions.

pub mod text;
pub mod types;
pub mod parser;
pub mod app_config;
pub mod table;
pub mod replicator;
pub mod offsets;
pub mod wal;
pub mod storage;
pub mod ingest;
