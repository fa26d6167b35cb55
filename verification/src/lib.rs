//! A boundary bridge exposing an in-process feature-toggle evaluation engine
//! to foreign callers through a stable, crash-proof binary calling convention.
//!
//! The engine itself (toggle matching, strategy evaluation, variant selection)
//! is an external collaborator reached through a narrow API behind trusted
//! wrappers. This crate verifies everything that makes calling that engine
//! safe across a foreign-code boundary: handle lifecycle, the buffer
//! ownership/transfer protocol, and the binary message codec.

pub mod bridge;
pub mod buffers;
pub mod engine;
pub mod errors;
pub mod messages;
pub mod reports;
pub mod responses;
pub mod state_response;
pub mod wire;
