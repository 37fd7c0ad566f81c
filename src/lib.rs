//! A single-threaded TCP relay core: fixed-capacity ring buffers, the
//! per-connection relay state machine with half-close propagation, and the
//! registry of live connections that a readiness-driven reactor dispatches to.

pub mod channel;
pub mod connection;
pub mod memory;
pub mod network_params;
pub mod port_parser;
pub mod registry;
pub mod stream;
pub mod token_gen;
