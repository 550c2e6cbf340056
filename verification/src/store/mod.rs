//! What the monitor keeps.
pub mod evict;
pub mod focus;
pub mod heatmap;
pub mod index;
pub mod ipstats;
pub mod legs;
pub mod registry;
pub mod ring;
pub mod snapshot;
