//! Stream quality.
pub mod media_stats;
pub mod mos;
