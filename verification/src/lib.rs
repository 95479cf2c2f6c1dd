//! dap-mux: a language-agnostic DAP multiplexer.
//!
//! One upstream debug adapter, many downstream DAP clients. The mux rewrites
//! sequence numbers, routes responses, broadcasts events, and replays session
//! state to late joiners, independently of transport and language.
//!
//! This crate holds the decisions. Every function is a step from plain values
//! to plain values: sockets, processes, the terminal and the clock belong to
//! the program around it.

pub mod cli;
pub mod compat;
pub mod json;
pub mod laws;
pub mod level;
pub mod model;
pub mod mux;
pub mod owned;
pub mod owners;
pub mod promises;
pub mod protocol;
pub mod runs;
pub mod seq;
pub mod text;
pub mod tui;
pub mod upstream;

pub use mux::{ClientInfo, Multiplexer, MuxSnapshot, SessionPhase};
pub use upstream::{TcpUpstream, UpstreamTransport};
