//! Core of an asynchronous client for a Redis-compatible server: the RESP
//! codec, the command catalog, the multiplexer's reply queue and the
//! cluster router's dispatch and aggregation rules.
//!
//! Everything here works on plain values. Sockets, timers and channels stay
//! with the caller, who performs the actions that the functions of this
//! crate decide on.

pub mod commands;
pub mod client;
pub mod error;
pub mod network;
pub mod resp;
