//! A run of the monitor: what it is asked to do, and what comes of it.
pub mod config;
pub mod export;
pub mod ingest;
pub mod pace;
pub mod publish;
pub mod query;
pub mod replay;
pub mod view;
