//! The core of a gateway that offers one upstream chat service under the common chat
//! protocols: what requests mean, what the upstream is asked, what the clients are answered,
//! and how calls of tools are read out of plain text.
//!
//! All of it is plain values in and plain values out. Reading, sending and waiting are the
//! caller's.

pub mod account;
pub mod api;
pub mod auth;
pub mod codec;
pub mod config;
pub mod context;
pub mod error;
pub mod execution;
pub mod ident;
pub mod json;
pub mod json_text;
pub mod media;
pub mod refresh;
pub mod request;
pub mod state;
pub mod text;
pub mod text_laws;
pub mod text_map;
pub mod text_set;
pub mod toolcall;
pub mod upkeep_laws;
pub mod upstream;
