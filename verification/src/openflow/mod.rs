//! `OpenFlow` 1.5 wire format and connection bookkeeping.
pub mod client;
pub mod protocol;
