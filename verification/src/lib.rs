//! Dynamic Label-based Source Routing (DL-DSR) and plain DSR: protocol
//! data structures, route and label tables, the deterministic benchmark
//! model, and the per-node protocol state machine.
pub mod text;
pub mod error;
pub mod packet;
pub mod topology;
pub mod tables;
pub mod route;
pub mod metrics;
pub mod protocol_spec;
pub mod clock;
pub mod protocol;
pub mod config;
pub mod laws;
pub mod protocol_laws;
