//! Inventory of the host's input devices and their event streams.
//!
//! The library holds the verified logic of the tool: the parser for the
//! kernel's textual device registry, the compiler that turns command tokens
//! into query/bind action groups, the resolver that hands each device to at
//! most one group, the decoder for the fixed 24-byte input-event record, and
//! the rendering and per-record decisions of a logging worker.  All I/O (the
//! registry file, the device streams, terminals, log files, threads) stays
//! outside and hands the library plain values.

pub mod actions;
pub mod bytes;
pub mod codes;
pub mod event;
pub mod numbers;
pub mod registry;
pub mod render;
pub mod resolve;
pub mod text;
pub mod types;

