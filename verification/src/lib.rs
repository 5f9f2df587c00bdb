//! Core of a line-oriented chat relay: sanitization of inbound bytes,
//! per-connection read-event decisions, the registry of live connections,
//! admission control, and broadcast fan-out.

pub mod config;
pub mod laws;
pub mod reader;
pub mod registry;
pub mod sanitize;
pub mod server;
