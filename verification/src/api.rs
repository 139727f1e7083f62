//! What the endpoints of the gateway take and give.

pub mod admission;
pub mod embeddings;
pub mod files;
pub mod gemini;
pub mod laws;
pub mod messages;
pub mod probes;
pub mod responses;
