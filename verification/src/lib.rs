//! Parsing and rendering for a local container dashboard.
//!
//! The library turns the delimited listing lines of a container engine's
//! list command into typed records (`Container`, `PortMapping`, `Protocol`)
//! and renders those records as HTML fragments. Every function is verified
//! against a mathematical model of the text it consumes and produces.

pub mod containers;
pub mod ports;
pub mod protocol;
pub mod text;
