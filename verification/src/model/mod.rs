//! What the monitor knows: messages, calls, streams and findings.
pub mod diag;
pub mod media;
pub mod ratio;
pub mod sip;
pub mod stats;
