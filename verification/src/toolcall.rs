//! Tool calls in text: the definitions of tools, the instructions that teach them to the
//! model, and the calls that the model writes into its answer.
//!
//! The upstream knows no tools. They are described to the model in words, and the model
//! answers with `<tool_call>{json}</tool_call>`, with a fenced block, with a
//! `<function=..>` block, or now and then with a bare JSON object; the calls are read back
//! from that text.

pub mod blocks;
pub mod call_laws;
pub mod fence_laws;
pub mod function_laws;
pub mod laws;
pub mod mark_laws;
pub mod markers;
pub mod naked_laws;
pub mod obfuscation;
pub mod parse;
pub mod round_trip;
pub mod scan;
pub mod shift;
pub mod strip;
pub mod tool_laws;
pub mod tools;

pub use crate::toolcall::parse::{parse_tool_calls, ParsedToolCall};
pub use crate::toolcall::strip::{strip_tool_calls, strip_tool_calls_with};
pub use crate::toolcall::tools::{
    build_registry, build_tool_instruction_block, looks_like_tool_call, normalize_tools,
    NormalizedTool,
};
