//! Passive DNS observation: wire-format decoding, transport reassembly,
//! protocol classification and the bookkeeping around them.

pub mod error;
pub mod stats;
pub mod text;
pub mod dns;
pub mod wire;
pub mod session;
pub mod tcp;
pub mod dot;
pub mod doq;
pub mod doh;
pub mod detect;
pub mod capture;
pub mod dpdk;
pub mod source;
pub mod output;
pub mod json;
pub mod driver;
pub mod mempool;
pub mod timer;
pub mod naming;
pub mod http;
