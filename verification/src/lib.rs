//! The decisions behind `orbit-rs`, a capture process for the live H.264
//! stream of DJI goggles: wire formats, checksums, reassembly, configuration
//! parsing and the lifecycles of the USB gadget and of the network link.
//!
//! Everything here is plain computation. A program around this library does
//! the system calls: it hands in what it read and carries out what comes back.
pub mod capture;
pub mod cli;
pub mod common;
pub mod envcfg;
pub mod gadget;
pub mod goggles_net;
pub mod text;
