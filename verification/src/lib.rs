//! The model and logic of a SIP and RTP monitor.
pub mod addr;
pub mod analyze;
pub mod bits;
pub mod correlate;
pub mod decode;
pub mod digits;
pub mod double;
pub mod endpoint;
pub mod filter;
pub mod lines;
pub mod model;
pub mod octets;
pub mod order;
pub mod session;
pub mod small;
pub mod store;
pub mod table;
pub mod text;
pub mod uri;
