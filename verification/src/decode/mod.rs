//! Packet decoding.
pub mod frame;
pub mod pcap;
pub mod pcapng;
pub mod rtp;
pub mod sip;
pub mod stun;
