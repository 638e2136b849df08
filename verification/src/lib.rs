//! Verified core of a command-line controller for lights that speak the
//! Govee LAN protocol: the message model, the command and status packets,
//! the alias table, the pairing animation and the parsers of user input.

pub mod packet;
pub mod text;
pub mod ipv4;
pub mod hex;
pub mod alias;
pub mod naming;
pub mod net;
pub mod cli;
