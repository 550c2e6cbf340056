//! Packets into calls.
pub mod call;
pub mod stream;
pub mod turn;
