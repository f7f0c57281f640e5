//! Answer synthesis and serving logic for a small DNS server that speaks
//! plain UDP and DNS-over-TLS: exact wire-format response encoding, a
//! bounded least-recently-used response cache, a token-bucket admission
//! gate, a resolution adapter with a fixed fallback address, per-message
//! serving steps for both transports, and observability counters.
//!
//! The transport loops themselves — sockets, TLS, the task scheduler —
//! live outside this crate and only move bytes in and out of the functions
//! here.

pub mod cache;
pub mod config;
pub mod encoder;
pub mod limiter;
pub mod metrics;
pub mod parser;
pub mod resolver;
pub mod service;
