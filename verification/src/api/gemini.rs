//! The endpoint whose address names the model and what to do with it.

use crate::execution::presenter::{
    data_text, gemini_error_chunk, gemini_final, gemini_final_chunk, gemini_text,
    gemini_text_chunk,
};
use crate::execution::OutEvent;
use crate::json::{object, JsonView};
use crate::text::{
    char_vec, contains_text, last_index, last_index_of, occurs, opt_string, text_between,
};
use vstd::prelude::*;

verus! {

/// The model and the action of an address `model:action`, parted at the last colon. Without a
/// colon the action is to generate.
pub open spec fn model_action(raw: Seq<char>) -> (Seq<char>, Seq<char>) {
    match last_index(raw, ':') {
        Some(i) => (raw.take(i), raw.skip(i + 1)),
        None => (raw, "generateContent"@),
    }
}

/// The model and the action of an address.
pub fn split_model_action(raw: &str) -> (r: (String, String))
    ensures
        (r.0@, r.1@) == model_action(raw@),
{
    let chars = char_vec(raw);
    let n: usize = chars.len();
    match last_index_of(&chars, ':') {
        Some(i) => {
            assert(i < n);
            let model = text_between(&chars, 0, i);
            let action = text_between(&chars, i + 1, n);
            proof {
                assert(model@ =~= raw@.take(i as int));
                assert(action@ =~= raw@.skip(i + 1));
            }
            (model, action)
        },
        None => (raw.to_string(), "generateContent".to_string()),
    }
}

/// Whether an action asks for a stream.
pub fn is_stream_action(action: &str) -> (r: bool)
    ensures
        r == occurs(action@, "stream"@),
{
    contains_text(action, "stream")
}

/// The chunk that an event of a completion brings, where it brings one.
pub open spec fn chunk_of(ev: OutEvent) -> Option<Seq<char>> {
    match ev {
        OutEvent::ContentDelta(text) => Some(data_text(gemini_text(text@))),
        OutEvent::Done { usage, .. } => Some(data_text(gemini_final(usage))),
        OutEvent::Error(e) => Some(
            data_text(object().with("error"@, object().with("message"@, JsonView::Str(e@)))),
        ),
        _ => None,
    }
}

/// The chunk that an event of a completion brings, where it brings one: reasoning and calls
/// bring none.
pub fn stream_chunk(ev: &OutEvent) -> (r: Option<String>)
    ensures
        opt_string(r) == chunk_of(*ev),
{
    match ev {
        OutEvent::ContentDelta(text) => Some(gemini_text_chunk(text.as_str())),
        OutEvent::Done { usage, .. } => Some(gemini_final_chunk(usage)),
        OutEvent::Error(e) => Some(gemini_error_chunk(e.as_str())),
        _ => None,
    }
}

} // verus!
