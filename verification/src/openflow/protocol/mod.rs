//! Encoders and decoders for the `OpenFlow` 1.5 messages used by Hull.
pub mod constants;
pub mod error;
pub mod header;
pub mod oxm;
pub mod ofmatch;
pub mod action;
pub mod instruction;
pub mod rule;
pub mod features;
pub mod message;
