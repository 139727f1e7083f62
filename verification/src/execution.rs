//! What a completion brings forth, and how it is presented to the clients.

pub mod presenter;
pub mod stream_laws;

use crate::toolcall::parse::ParsedToolCall;
use vstd::prelude::*;

verus! {

/// How many tokens a completion took.
#[derive(Debug, Clone, Copy)]
pub struct Usage {
    pub prompt_tokens: i64,
    pub completion_tokens: i64,
    pub total_tokens: i64,
}

/// What a completion brings forth, piece by piece.
#[derive(Debug)]
pub enum OutEvent {
    /// A piece of the model's reasoning.
    ReasoningDelta(String),
    /// A piece of the answer.
    ContentDelta(String),
    /// Calls of tools.
    ToolCalls(Vec<ParsedToolCall>),
    /// The end, and why it came.
    Done { usage: Usage, finish_reason: String },
    /// The end by a failure.
    Error(String),
}

} // verus!
