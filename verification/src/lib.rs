//! Hull: a single-node SDN controller.
//!
//! The verified library holds the wire format of the `OpenFlow` 1.5 subset the
//! controller speaks, IPv4 network arithmetic, the textual formats used for
//! addresses, and the planning logic that turns stored switch/router state into
//! dataplane updates.
pub mod bytes;
pub mod cidr;
pub mod cli;
pub mod config;
pub mod daemon;
pub mod dataplane;
pub mod ipnet;
pub mod database;
pub mod mac;
pub mod switches;
pub mod text;
pub mod utils;
pub mod openflow;
pub mod protocol;
pub mod routers;
