//! Talking to the upstream.

pub mod payload;
pub mod payload_laws;
