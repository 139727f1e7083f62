//! What the clients of a stream are shown, taken from the data of the events that they get.

use crate::execution::presenter::{
    after_events, all_frames, call_frames, calls_frames, data_text, empty_block, event_text,
    frame_texts, gemini_final, gemini_text, openai_error_sse, piece, signature_delta,
    AnthropicStreamTranslator, BlockKind, Frame, StreamView,
};
use crate::execution::{OutEvent, Usage};
use crate::json::{object, JsonView};
use crate::json_text::json_text;
use crate::text::{begins_with, ends_in, stands_at, texts};
use crate::text_laws::{gathered, lemma_gathered_concat, lemma_gathered_one, lemma_gathered_push};
use crate::toolcall::parse::ParsedToolCall;
use vstd::prelude::*;

verus! {

/// The field of a piece of a block: of the pieces of one type, the text that they carry.
pub open spec fn piece_field(data: JsonView, kind: Seq<char>, field: Seq<char>) -> Seq<char> {
    match data.get("delta"@) {
        Some(delta) => if data.get("type"@) == Some(JsonView::Str("content_block_delta"@))
            && delta.get("type"@) == Some(JsonView::Str(kind)) {
            match delta.get(field) {
                Some(JsonView::Str(text)) => text,
                _ => Seq::empty(),
            }
        } else {
            Seq::empty()
        },
        None => Seq::empty(),
    }
}

/// What an event adds to the answer that a client sees.
pub open spec fn shown_answer(f: Frame) -> Seq<char> {
    piece_field(f.data(), "text_delta"@, "text"@)
}

/// What an event adds to the reasoning that a client sees.
pub open spec fn shown_reasoning(f: Frame) -> Seq<char> {
    piece_field(f.data(), "thinking_delta"@, "thinking"@)
}

/// What an event adds to the arguments of calls that a client sees.
pub open spec fn shown_arguments(f: Frame) -> Seq<char> {
    piece_field(f.data(), "input_json_delta"@, "partial_json"@)
}

/// The call that an event opens to a client: its identifier and its name.
pub open spec fn shown_call(f: Frame) -> Seq<(JsonView, JsonView)> {
    match f.data().get("content_block"@) {
        Some(block) => if f.data().get("type"@) == Some(JsonView::Str("content_block_start"@))
            && block.get("type"@) == Some(JsonView::Str("tool_use"@)) {
            match (block.get("id"@), block.get("name"@)) {
                (Some(id), Some(name)) => seq![(id, name)],
                _ => Seq::empty(),
            }
        } else {
            Seq::empty()
        },
        None => Seq::empty(),
    }
}

/// What a completion adds to its answer by an event.
pub open spec fn given_answer(ev: OutEvent) -> Seq<char> {
    match ev {
        OutEvent::ContentDelta(text) => text@,
        _ => Seq::empty(),
    }
}

/// What a completion adds to its reasoning by an event.
pub open spec fn given_reasoning(ev: OutEvent) -> Seq<char> {
    match ev {
        OutEvent::ReasoningDelta(text) => text@,
        _ => Seq::empty(),
    }
}

/// The calls that a completion makes by an event.
pub open spec fn given_calls(ev: OutEvent) -> Seq<ParsedToolCall> {
    match ev {
        OutEvent::ToolCalls(calls) => calls@,
        _ => Seq::empty(),
    }
}

/// What names a call.
pub open spec fn call_head(tc: ParsedToolCall) -> Seq<(JsonView, JsonView)> {
    seq![(JsonView::Str(tc.id@), JsonView::Str(tc.name@))]
}

/// The text of the arguments of a call.
pub open spec fn call_text(tc: ParsedToolCall) -> Seq<char> {
    json_text(tc.arguments@)
}

proof fn lemma_stream_words()
    ensures
        "type"@ != "index"@,
        "type"@ != "delta"@,
        "type"@ != "content_block"@,
        "type"@ != "message"@,
        "type"@ != "usage"@,
        "type"@ != "error"@,
        "type"@ != "text"@,
        "type"@ != "thinking"@,
        "type"@ != "signature"@,
        "type"@ != "partial_json"@,
        "type"@ != "id"@,
        "type"@ != "name"@,
        "type"@ != "input"@,
        "id"@ != "name"@,
        "id"@ != "input"@,
        "name"@ != "input"@,
        "index"@ != "delta"@,
        "index"@ != "content_block"@,
        "delta"@ != "content_block"@,
        "delta"@ != "message"@,
        "delta"@ != "usage"@,
        "delta"@ != "error"@,
        "content_block"@ != "message"@,
        "content_block"@ != "usage"@,
        "content_block"@ != "error"@,
        "text_delta"@ != "thinking_delta"@,
        "text_delta"@ != "signature_delta"@,
        "text_delta"@ != "input_json_delta"@,
        "thinking_delta"@ != "signature_delta"@,
        "thinking_delta"@ != "input_json_delta"@,
        "signature_delta"@ != "input_json_delta"@,
        "content_block_delta"@ != "message_delta"@,
        "tool_use"@ != "text"@,
        "tool_use"@ != "thinking"@,
        "thinking"@ != "signature"@,
{
    reveal_strlit("type");
    reveal_strlit("index");
    reveal_strlit("delta");
    reveal_strlit("content_block");
    reveal_strlit("message");
    reveal_strlit("usage");
    reveal_strlit("error");
    reveal_strlit("text");
    reveal_strlit("thinking");
    reveal_strlit("signature");
    reveal_strlit("partial_json");
    reveal_strlit("id");
    reveal_strlit("name");
    reveal_strlit("input");
    reveal_strlit("text_delta");
    reveal_strlit("thinking_delta");
    reveal_strlit("signature_delta");
    reveal_strlit("input_json_delta");
    reveal_strlit("content_block_delta");
    reveal_strlit("message_delta");
    reveal_strlit("tool_use");
    assert("type"@.len() == 4 && "type"@[0] == 't' && "type"@[1] == 'y');
    assert("index"@.len() == 5 && "index"@[0] == 'i' && "index"@[2] == 'd');
    assert("delta"@.len() == 5 && "delta"@[0] == 'd');
    assert("content_block"@.len() == 13 && "content_block"@[0] == 'c');
    assert("message"@.len() == 7);
    assert("usage"@.len() == 5 && "usage"@[0] == 'u');
    assert("error"@.len() == 5 && "error"@[0] == 'e');
    assert("text"@.len() == 4 && "text"@[0] == 't' && "text"@[1] == 'e');
    assert("thinking"@.len() == 8 && "thinking"@[1] == 'h');
    assert("signature"@.len() == 9);
    assert("partial_json"@.len() == 12);
    assert("id"@.len() == 2);
    assert("name"@.len() == 4 && "name"@[0] == 'n');
    assert("input"@.len() == 5 && "input"@[0] == 'i' && "input"@[2] == 'p');
    assert("text_delta"@.len() == 10);
    assert("thinking_delta"@.len() == 14);
    assert("signature_delta"@.len() == 15);
    assert("input_json_delta"@.len() == 16);
    assert("content_block_delta"@.len() == 19);
    assert("message_delta"@.len() == 13 && "message_delta"@[0] == 'm');
    assert("tool_use"@.len() == 8 && "tool_use"@[1] == 'o');
}

/// An event that adds nothing to what a client sees.
spec fn is_silent(f: Frame) -> bool {
    &&& shown_answer(f) == Seq::<char>::empty()
    &&& shown_reasoning(f) == Seq::<char>::empty()
    &&& shown_arguments(f) == Seq::<char>::empty()
    &&& shown_call(f) == Seq::<(JsonView, JsonView)>::empty()
}

proof fn lemma_silent_frame(f: Frame)
    requires
        match f {
            Frame::BlockStart { block, .. } => block
                == empty_block(BlockKind::Thinking) || block
                == empty_block(BlockKind::Text),
            Frame::BlockDelta { delta, .. } => delta
                == signature_delta(),
            _ => true,
        },
    ensures
        is_silent(f),
{
    lemma_stream_words();
}

proof fn lemma_silent(frames: Seq<Frame>)
    requires
        forall|i: int|
            0 <= i < frames.len() ==> match #[trigger] frames[i] {
                Frame::BlockStart { block, .. } => block
                    == empty_block(BlockKind::Thinking) || block
                    == empty_block(BlockKind::Text),
                Frame::BlockDelta { delta, .. } => delta
                    == signature_delta(),
                _ => true,
            },
    ensures
        gathered(frames, |f: Frame| shown_answer(f)) == Seq::<char>::empty(),
        gathered(frames, |f: Frame| shown_reasoning(f)) == Seq::<char>::empty(),
        gathered(frames, |f: Frame| shown_arguments(f)) == Seq::<char>::empty(),
        gathered(frames, |f: Frame| shown_call(f)) == Seq::<(JsonView, JsonView)>::empty(),
    decreases frames.len(),
{
    if frames.len() > 0 {
        let rest = frames.drop_last();
        assert forall|i: int| 0 <= i < rest.len() implies match #[trigger] rest[i] {
            Frame::BlockStart { block, .. } => block
                == empty_block(BlockKind::Thinking) || block
                == empty_block(BlockKind::Text),
            Frame::BlockDelta { delta, .. } => delta
                == signature_delta(),
            _ => true,
        } by {
            assert(rest[i] == frames[i]);
        }
        lemma_silent(rest);
        assert(frames.last() == frames[frames.len() - 1]);
        lemma_silent_frame(frames.last());
        assert(gathered(frames, |f: Frame| shown_answer(f)) =~= Seq::<char>::empty());
        assert(gathered(frames, |f: Frame| shown_reasoning(f)) =~= Seq::<char>::empty());
        assert(gathered(frames, |f: Frame| shown_arguments(f)) =~= Seq::<char>::empty());
        assert(gathered(frames, |f: Frame| shown_call(f)) =~= Seq::<
            (JsonView, JsonView),
        >::empty());
    }
}

proof fn lemma_three<B>(a: Frame, b: Frame, c: Frame, of: spec_fn(Frame) -> Seq<B>)
    ensures
        gathered(seq![a].push(b).push(c), of) == of(a) + of(b) + of(c),
{
    lemma_gathered_push(seq![a].push(b), c, of);
    lemma_gathered_push(seq![a], b, of);
    lemma_gathered_one(a, of);
}

proof fn lemma_one_call(index: int, tc: ParsedToolCall)
    ensures
        gathered(call_frames(index, tc), |f: Frame| shown_answer(f)) == Seq::<char>::empty(),
        gathered(call_frames(index, tc), |f: Frame| shown_reasoning(f)) == Seq::<char>::empty(),
        gathered(call_frames(index, tc), |f: Frame| shown_arguments(f)) == json_text(
            tc.arguments@,
        ),
        gathered(call_frames(index, tc), |f: Frame| shown_call(f)) == seq![
            (JsonView::Str(tc.id@), JsonView::Str(tc.name@)),
        ],
{
    lemma_stream_words();
    let fs = call_frames(index, tc);
    assert(fs =~= seq![fs[0]].push(fs[1]).push(fs[2]));
    lemma_three(fs[0], fs[1], fs[2], |f: Frame| shown_answer(f));
    lemma_three(fs[0], fs[1], fs[2], |f: Frame| shown_reasoning(f));
    lemma_three(fs[0], fs[1], fs[2], |f: Frame| shown_arguments(f));
    lemma_three(fs[0], fs[1], fs[2], |f: Frame| shown_call(f));
    lemma_silent_frame(fs[2]);
    assert(gathered(fs, |f: Frame| shown_answer(f)) =~= Seq::<char>::empty());
    assert(gathered(fs, |f: Frame| shown_reasoning(f)) =~= Seq::<char>::empty());
    assert(gathered(fs, |f: Frame| shown_arguments(f)) =~= json_text(tc.arguments@));
    assert(gathered(fs, |f: Frame| shown_call(f)) =~= call_head(tc));
}

proof fn lemma_calls(index: int, calls: Seq<ParsedToolCall>)
    ensures
        gathered(calls_frames(index, calls), |f: Frame| shown_answer(f)) == Seq::<char>::empty(),
        gathered(calls_frames(index, calls), |f: Frame| shown_reasoning(f)) == Seq::<char>::empty(),
        gathered(calls_frames(index, calls), |f: Frame| shown_arguments(f)) == gathered(
            calls,
            |tc: ParsedToolCall| call_text(tc),
        ),
        gathered(calls_frames(index, calls), |f: Frame| shown_call(f)) == gathered(
            calls,
            |tc: ParsedToolCall| call_head(tc),
        ),
    decreases calls.len(),
{
    if calls.len() > 0 {
        let head = calls_frames(index, calls.drop_last());
        let one = call_frames(index + calls.len() - 1, calls.last());
        lemma_calls(index, calls.drop_last());
        lemma_one_call(index + calls.len() - 1, calls.last());
        lemma_gathered_concat(head, one, |f: Frame| shown_answer(f));
        lemma_gathered_concat(head, one, |f: Frame| shown_reasoning(f));
        lemma_gathered_concat(head, one, |f: Frame| shown_arguments(f));
        lemma_gathered_concat(head, one, |f: Frame| shown_call(f));
        let fs = calls_frames(index, calls);
        assert(gathered(fs, |f: Frame| shown_answer(f)) =~= Seq::<char>::empty());
        assert(gathered(fs, |f: Frame| shown_reasoning(f)) =~= Seq::<char>::empty());
    }
}

/// The events behind the opening of a stream that an event of a completion brings.
spec fn body_frames(st: StreamView, ev: OutEvent) -> (Seq<Frame>, Seq<Frame>) {
    match ev {
        OutEvent::ReasoningDelta(text) => (
            st.turn_frames(BlockKind::Thinking),
            seq![
                Frame::BlockDelta {
                    index: st.turn(BlockKind::Thinking).index,
                    delta: piece(BlockKind::Thinking, text@),
                },
            ],
        ),
        OutEvent::ContentDelta(text) => (
            st.turn_frames(BlockKind::Text),
            seq![
                Frame::BlockDelta {
                    index: st.turn(BlockKind::Text).index,
                    delta: piece(BlockKind::Text, text@),
                },
            ],
        ),
        OutEvent::ToolCalls(calls) => (
            st.close_frames(),
            calls_frames(st.close().index, calls@),
        ),
        _ => (st.close_frames(), ending(ev)),
    }
}

/// The events that end a stream.
spec fn ending(ev: OutEvent) -> Seq<Frame> {
    match ev {
        OutEvent::Done { usage, finish_reason } => seq![
            Frame::MessageDelta {
                stop_reason: if finish_reason@ == "tool_calls"@ {
                    "tool_use"@
                } else {
                    "end_turn"@
                },
                output_tokens: usage.completion_tokens as int,
            },
            Frame::MessageStop,
        ],
        OutEvent::Error(message) => seq![Frame::Error { message: message@ }, Frame::MessageStop],
        _ => Seq::empty(),
    }
}

proof fn lemma_event<B>(st: StreamView, ev: OutEvent, of: spec_fn(Frame) -> Seq<B>)
    ensures
        gathered(st.frames(ev), of) == gathered(st.start_frames(), of) + (gathered(
            body_frames(st.start(), ev).0,
            of,
        ) + gathered(body_frames(st.start(), ev).1, of)),
{
    let (lead, tail) = body_frames(st.start(), ev);
    assert(st.frames(ev) =~= st.start_frames() + (lead + tail));
    lemma_gathered_concat(st.start_frames(), lead + tail, of);
    lemma_gathered_concat(lead, tail, of);
}

/// What one event of a completion adds to what a client sees is what it brings: its piece of
/// the answer or of the reasoning, or its calls.
pub proof fn events_are_shown_whole(st: StreamView, ev: OutEvent)
    ensures
        gathered(st.frames(ev), |f: Frame| shown_answer(f)) == given_answer(ev),
        gathered(st.frames(ev), |f: Frame| shown_reasoning(f)) == given_reasoning(ev),
        gathered(st.frames(ev), |f: Frame| shown_arguments(f)) == gathered(
            given_calls(ev),
            |tc: ParsedToolCall| call_text(tc),
        ),
        gathered(st.frames(ev), |f: Frame| shown_call(f)) == gathered(
            given_calls(ev),
            |tc: ParsedToolCall| call_head(tc),
        ),
{
    lemma_event(st, ev, |f: Frame| shown_answer(f));
    lemma_event(st, ev, |f: Frame| shown_reasoning(f));
    lemma_event(st, ev, |f: Frame| shown_arguments(f));
    lemma_event(st, ev, |f: Frame| shown_call(f));
    let (lead, tail) = body_frames(st.start(), ev);
    lemma_silent(st.start_frames());
    lemma_silent(lead);
    match ev {
        OutEvent::ToolCalls(calls) => {
            lemma_calls(st.start().close().index, calls@);
        },
        OutEvent::Done { .. } | OutEvent::Error(_) => {
            lemma_silent(tail);
        },
        OutEvent::ReasoningDelta(text) | OutEvent::ContentDelta(text) => {
            lemma_piece(st.start().turn(BlockKind::Thinking).index, text@);
            lemma_piece(st.start().turn(BlockKind::Text).index, text@);
            lemma_gathered_one(tail[0], |f: Frame| shown_answer(f));
            lemma_gathered_one(tail[0], |f: Frame| shown_reasoning(f));
            lemma_gathered_one(tail[0], |f: Frame| shown_arguments(f));
            lemma_gathered_one(tail[0], |f: Frame| shown_call(f));
            assert(tail =~= seq![tail[0]]);
        },
    }
    assert(gathered(st.frames(ev), |f: Frame| shown_answer(f)) =~= given_answer(ev));
    assert(gathered(st.frames(ev), |f: Frame| shown_reasoning(f)) =~= given_reasoning(ev));
    assert(gathered(st.frames(ev), |f: Frame| shown_arguments(f)) =~= gathered(
        given_calls(ev),
        |tc: ParsedToolCall| call_text(tc),
    ));
    assert(gathered(st.frames(ev), |f: Frame| shown_call(f)) =~= gathered(
        given_calls(ev),
        |tc: ParsedToolCall| call_head(tc),
    ));
}

proof fn lemma_piece(index: int, text: Seq<char>)
    ensures
        ({
            let f = Frame::BlockDelta { index, delta: piece(BlockKind::Text, text) };
            &&& shown_answer(f) == text
            &&& shown_reasoning(f) == Seq::<char>::empty()
            &&& shown_arguments(f) == Seq::<char>::empty()
            &&& shown_call(f) == Seq::<(JsonView, JsonView)>::empty()
        }),
        ({
            let f = Frame::BlockDelta { index, delta: piece(BlockKind::Thinking, text) };
            &&& shown_answer(f) == Seq::<char>::empty()
            &&& shown_reasoning(f) == text
            &&& shown_arguments(f) == Seq::<char>::empty()
            &&& shown_call(f) == Seq::<(JsonView, JsonView)>::empty()
        }),
{
    lemma_stream_words();
}

/// A client is shown exactly what the completion brings, from the first event to the last: the
/// pieces of text, put together, are the pieces of the answer; the pieces of thinking are the
/// pieces of the reasoning; and the calls are those that were made, in order, each with the
/// JSON text of its arguments.
pub proof fn streams_are_shown_whole(st: StreamView, evs: Seq<OutEvent>)
    ensures
        gathered(all_frames(st, evs), |f: Frame| shown_answer(f)) == gathered(
            evs,
            |ev: OutEvent| given_answer(ev),
        ),
        gathered(all_frames(st, evs), |f: Frame| shown_reasoning(f)) == gathered(
            evs,
            |ev: OutEvent| given_reasoning(ev),
        ),
        gathered(all_frames(st, evs), |f: Frame| shown_arguments(f)) == gathered(
            gathered(evs, |ev: OutEvent| given_calls(ev)),
            |tc: ParsedToolCall| call_text(tc),
        ),
        gathered(all_frames(st, evs), |f: Frame| shown_call(f)) == gathered(
            gathered(evs, |ev: OutEvent| given_calls(ev)),
            |tc: ParsedToolCall| call_head(tc),
        ),
    decreases evs.len(),
{
    if evs.len() > 0 {
        let rest = evs.drop_last();
        let ev = evs.last();
        streams_are_shown_whole(st, rest);
        events_are_shown_whole(after_events(st, rest), ev);
        let a = all_frames(st, rest);
        let b = after_events(st, rest).frames(ev);
        lemma_gathered_concat(a, b, |f: Frame| shown_answer(f));
        lemma_gathered_concat(a, b, |f: Frame| shown_reasoning(f));
        lemma_gathered_concat(a, b, |f: Frame| shown_arguments(f));
        lemma_gathered_concat(a, b, |f: Frame| shown_call(f));
        let calls = gathered(rest, |ev: OutEvent| given_calls(ev));
        lemma_gathered_concat(calls, given_calls(ev), |tc: ParsedToolCall| call_text(tc));
        lemma_gathered_concat(calls, given_calls(ev), |tc: ParsedToolCall| call_head(tc));
    } else {
        assert(all_frames(st, evs) == Seq::<Frame>::empty());
    }
}

/// Each call of a batch has a block of its own: it opens with the call's identifier and name,
/// brings the text of the arguments, and closes, all under one number; the next call has the
/// next number.
pub proof fn calls_have_blocks_of_their_own(st: StreamView, calls: Vec<ParsedToolCall>, i: int)
    requires
        0 <= i < calls@.len(),
    ensures
        ({
            let frames = st.frames(OutEvent::ToolCalls(calls));
            let at = frames.len() - 3 * (calls@.len() - i);
            let open = frames[at].data();
            let block = open.get("content_block"@)->0;
            let delta = frames[at + 1].data().get("delta"@)->0;
            let number = Some(JsonView::Int(st.next(OutEvent::ToolCalls(calls)).index
                - calls@.len() + i));
            &&& open.get("type"@) == Some(JsonView::Str("content_block_start"@))
            &&& open.get("index"@) == number
            &&& block.get("type"@) == Some(JsonView::Str("tool_use"@))
            &&& block.get("id"@) == Some(JsonView::Str(calls@[i].id@))
            &&& block.get("name"@) == Some(JsonView::Str(calls@[i].name@))
            &&& block.get("input"@) == Some(JsonView::Object(Map::empty()))
            &&& frames[at + 1].data().get("type"@) == Some(JsonView::Str("content_block_delta"@))
            &&& frames[at + 1].data().get("index"@) == number
            &&& delta.get("type"@) == Some(JsonView::Str("input_json_delta"@))
            &&& delta.get("partial_json"@) == Some(JsonView::Str(json_text(calls@[i].arguments@)))
            &&& frames[at + 2].data().get("type"@) == Some(JsonView::Str("content_block_stop"@))
            &&& frames[at + 2].data().get("index"@) == number
        }),
{
    lemma_stream_words();
    let close = st.start().close();
    lemma_call_places(close.index, calls@, i);
    let frames = st.frames(OutEvent::ToolCalls(calls));
    let lead = st.start_frames() + st.start().close_frames();
    let tail = calls_frames(close.index, calls@);
    assert(frames =~= lead + tail);
    let at = frames.len() - 3 * (calls@.len() - i);
    assert(at == lead.len() + 3 * i);
    assert(frames[at] == tail[3 * i]);
    assert(frames[at + 1] == tail[3 * i + 1]);
    assert(frames[at + 2] == tail[3 * i + 2]);
}

proof fn lemma_call_places(index: int, calls: Seq<ParsedToolCall>, i: int)
    requires
        0 <= i < calls.len(),
    ensures
        calls_frames(index, calls).len() == 3 * calls.len(),
        calls_frames(index, calls)[3 * i] == call_frames(index + i, calls[i])[0],
        calls_frames(index, calls)[3 * i + 1] == call_frames(index + i, calls[i])[1],
        calls_frames(index, calls)[3 * i + 2] == call_frames(index + i, calls[i])[2],
    decreases calls.len(),
{
    let rest = calls.drop_last();
    lemma_calls_count(index, rest);
    if i < calls.len() - 1 {
        lemma_call_places(index, rest, i);
    }
}

proof fn lemma_calls_count(index: int, calls: Seq<ParsedToolCall>)
    ensures
        calls_frames(index, calls).len() == 3 * calls.len(),
    decreases calls.len(),
{
    if calls.len() > 0 {
        lemma_calls_count(index, calls.drop_last());
    }
}

/// A stream opens with the message that it is: its identifier, its model and the tokens of the
/// prompt. It opens once.
pub proof fn streams_open_with_their_message(st: StreamView, ev: OutEvent)
    ensures
        !st.started ==> {
            let open = st.frames(ev)[0].data();
            let message = open.get("message"@)->0;
            &&& st.frames(ev).len() > 0
            &&& open.get("type"@) == Some(JsonView::Str("message_start"@))
            &&& message.get("id"@) == Some(JsonView::Str(st.id))
            &&& message.get("type"@) == Some(JsonView::Str("message"@))
            &&& message.get("role"@) == Some(JsonView::Str("assistant"@))
            &&& message.get("model"@) == Some(JsonView::Str(st.model))
            &&& message.get("content"@) == Some(JsonView::Array(Seq::empty()))
            &&& message.get("stop_reason"@) == Some(JsonView::Null)
            &&& message.get("stop_sequence"@) == Some(JsonView::Null)
            &&& message.get("usage"@)->0.get("input_tokens"@) == Some(
                JsonView::Int(st.prompt_tokens),
            )
            &&& message.get("usage"@)->0.get("output_tokens"@) == Some(JsonView::Int(0))
        },
        st.next(ev).started,
        st.next(ev).id == st.id && st.next(ev).model == st.model && st.next(ev).prompt_tokens
            == st.prompt_tokens,
{
    reveal_strlit("type");
    reveal_strlit("message");
    reveal_strlit("id");
    reveal_strlit("role");
    reveal_strlit("model");
    reveal_strlit("content");
    reveal_strlit("stop_reason");
    reveal_strlit("stop_sequence");
    reveal_strlit("usage");
    reveal_strlit("input_tokens");
    reveal_strlit("output_tokens");
    assert("type"@.len() == 4 && "type"@[0] == 't');
    assert("message"@.len() == 7 && "message"@[0] == 'm');
    assert("id"@.len() == 2);
    assert("role"@.len() == 4 && "role"@[0] == 'r');
    assert("model"@.len() == 5 && "model"@[0] == 'm');
    assert("content"@.len() == 7 && "content"@[0] == 'c');
    assert("stop_reason"@.len() == 11);
    assert("stop_sequence"@.len() == 13 && "stop_sequence"@[0] == 's');
    assert("usage"@.len() == 5 && "usage"@[0] == 'u');
    assert("input_tokens"@.len() == 12);
    assert("output_tokens"@.len() == 13 && "output_tokens"@[0] == 'o');
    if !st.started {
        assert(st.frames(ev)[0] == st.start_frames()[0]);
    }
}

/// A stream ends with why it ended: at the end of a completion with the tokens of the answer
/// and the reason, which is the use of tools exactly where calls were made; at a failure with
/// its message.
pub proof fn streams_end_with_their_reason(
    st: StreamView,
    usage: Usage,
    finish_reason: String,
    message: String,
)
    ensures
        ({
            let done = st.frames(OutEvent::Done { usage, finish_reason });
            let delta = done[done.len() - 2].data();
            &&& done.len() >= 2
            &&& delta.get("type"@) == Some(JsonView::Str("message_delta"@))
            &&& delta.get("delta"@)->0.get("stop_reason"@) == Some(JsonView::Str("tool_use"@))
                <==> finish_reason@ == "tool_calls"@
            &&& delta.get("delta"@)->0.get("stop_reason"@) == Some(JsonView::Str("end_turn"@))
                <==> finish_reason@ != "tool_calls"@
            &&& delta.get("delta"@)->0.get("stop_sequence"@) == Some(JsonView::Null)
            &&& delta.get("usage"@)->0.get("output_tokens"@) == Some(
                JsonView::Int(usage.completion_tokens as int),
            )
            &&& done.last().data().get("type"@) == Some(JsonView::Str("message_stop"@))
        }),
        ({
            let failed = st.frames(OutEvent::Error(message));
            let error = failed[failed.len() - 2].data();
            &&& failed.len() >= 2
            &&& error.get("type"@) == Some(JsonView::Str("error"@))
            &&& error.get("error"@)->0.get("type"@) == Some(JsonView::Str("upstream_error"@))
            &&& error.get("error"@)->0.get("message"@) == Some(JsonView::Str(message@))
            &&& failed.last().data().get("type"@) == Some(JsonView::Str("message_stop"@))
        }),
{
    reveal_strlit("type");
    reveal_strlit("message");
    reveal_strlit("delta");
    reveal_strlit("stop_reason");
    reveal_strlit("stop_sequence");
    reveal_strlit("usage");
    reveal_strlit("output_tokens");
    reveal_strlit("error");
    reveal_strlit("tool_use");
    reveal_strlit("end_turn");
    assert("type"@.len() == 4);
    assert("message"@.len() == 7);
    assert("delta"@.len() == 5 && "delta"@[0] == 'd');
    assert("stop_reason"@.len() == 11);
    assert("stop_sequence"@.len() == 13 && "stop_sequence"@[0] == 's');
    assert("usage"@.len() == 5 && "usage"@[0] == 'u');
    assert("output_tokens"@.len() == 13 && "output_tokens"@[0] == 'o');
    assert("error"@.len() == 5 && "error"@[0] == 'e');
    assert("tool_use"@.len() == 8 && "tool_use"@[0] == 't');
    assert("end_turn"@.len() == 8 && "end_turn"@[0] == 'e');
    let done = OutEvent::Done { usage, finish_reason };
    let a = st.start_frames() + st.start().close_frames();
    assert(st.frames(done) =~= a + ending(done));
    let failed = OutEvent::Error(message);
    assert(st.frames(failed) =~= a + ending(failed));
}

/// Every event says of which type it is, and that is its name; the events of a block say which
/// block they belong to.
pub proof fn events_say_what_they_are(f: Frame)
    ensures
        f.data().get("type"@) == Some(JsonView::Str(f.name())),
        f matches Frame::BlockStart { index, block } ==> f.data().get("index"@) == Some(
            JsonView::Int(index),
        ) && f.data().get("content_block"@) == Some(block),
        f matches Frame::BlockDelta { index, delta } ==> f.data().get("index"@) == Some(
            JsonView::Int(index),
        ) && f.data().get("delta"@) == Some(delta),
        f matches Frame::BlockStop { index } ==> f.data().get("index"@) == Some(
            JsonView::Int(index),
        ),
{
    lemma_stream_words();
}

/// The block that a stretch of reasoning or of the answer opens with is empty and of its kind;
/// reasoning is signed when it ends.
pub proof fn blocks_open_empty(st: StreamView, kind: BlockKind)
    requires
        kind != BlockKind::Nothing,
        st.current != kind,
    ensures
        ({
            let open = st.turn_frames(kind).last().data();
            let block = open.get("content_block"@)->0;
            &&& st.turn_frames(kind).len() > 0
            &&& open.get("type"@) == Some(JsonView::Str("content_block_start"@))
            &&& kind == BlockKind::Text ==> block.get("type"@) == Some(JsonView::Str("text"@))
                && block.get("text"@) == Some(JsonView::Str(Seq::empty()))
            &&& kind == BlockKind::Thinking ==> block.get("type"@) == Some(
                JsonView::Str("thinking"@),
            ) && block.get("thinking"@) == Some(JsonView::Str(Seq::empty())) && block.get(
                "signature"@,
            ) is Some
            &&& st.current == BlockKind::Thinking ==> st.turn_frames(kind)[0].data().get(
                "delta"@,
            )->0.get("type"@) == Some(JsonView::Str("signature_delta"@))
        }),
{
    lemma_stream_words();
    reveal_strlit("");
    assert(""@ =~= Seq::empty());
}

/// The text of an event is its name on one line and the JSON text of its data on the next,
/// with a blank line at the end; an event without a name has only its data.
pub proof fn event_texts_hold_name_and_data(name: Seq<char>, data: JsonView)
    ensures
        ({
            let text = event_text(name, data);
            let at = 7 + name.len() + 1;
            &&& begins_with(text, "event: "@ + name + "\n"@)
            &&& stands_at(text, "data: "@ + json_text(data), at as int)
            &&& ends_in(text, "\n\n"@)
            &&& text.len() == at + 6 + json_text(data).len() + 2
        }),
        begins_with(data_text(data), "data: "@ + json_text(data)),
        ends_in(data_text(data), "\n\n"@),
        data_text(data).len() == 6 + json_text(data).len() + 2,
{
    reveal_strlit("event: ");
    reveal_strlit("\n");
    reveal_strlit("\n\n");
    reveal_strlit("data: ");
    reveal_strlit("\ndata: ");
    assert("\ndata: "@ =~= "\n"@ + "data: "@);
    let text = event_text(name, data);
    let at = 7 + name.len() as int + 1;
    let j = json_text(data);
    assert(text =~= ("event: "@ + name + "\n"@) + ("data: "@ + j) + "\n\n"@);
    assert(text.subrange(0, at) =~= "event: "@ + name + "\n"@);
    assert(text.subrange(at, at + 6 + j.len()) =~= "data: "@ + j);
    assert(text.subrange(text.len() - 2, text.len() as int) =~= "\n\n"@);
    let bare = data_text(data);
    assert(bare.subrange(0, 6 + j.len() as int) =~= "data: "@ + j);
    assert(bare.subrange(bare.len() - 2, bare.len() as int) =~= "\n\n"@);
}

/// The text of a chunk of an answer is where its client looks for it: in the first part of the
/// content of the first candidate.
pub open spec fn chunk_text(chunk: JsonView) -> Option<JsonView> {
    match chunk.get("candidates"@) {
        Some(JsonView::Array(candidates)) => match candidates[0].get("content"@)->0.get("parts"@) {
            Some(JsonView::Array(parts)) => parts[0].get("text"@),
            _ => None,
        },
        _ => None,
    }
}

/// A chunk holds its piece of the answer, word for word; the last one adds nothing to it, says
/// that the answer has stopped, and counts the tokens.
pub proof fn chunks_hold_their_pieces(text: Seq<char>, usage: Usage)
    ensures
        chunk_text(gemini_text(text)) == Some(JsonView::Str(text)),
        gemini_text(text).get("usageMetadata"@) is None,
        chunk_text(gemini_final(usage)) == Some(JsonView::Str(Seq::empty())),
        ({
            let c = gemini_text(text).get("candidates"@)->0->Array_0;
            &&& c.len() == 1
            &&& c[0].get("index"@) == Some(JsonView::Int(0))
            &&& c[0].get("finishReason"@) is None
            &&& c[0].get("content"@)->0.get("role"@) == Some(JsonView::Str("model"@))
            &&& c[0].get("content"@)->0.get("parts"@)->0->Array_0.len() == 1
        }),
        ({
            let c = gemini_final(usage).get("candidates"@)->0->Array_0;
            let count = gemini_final(usage).get("usageMetadata"@)->0;
            &&& c.len() == 1
            &&& c[0].get("finishReason"@) == Some(JsonView::Str("STOP"@))
            &&& c[0].get("content"@)->0.get("role"@) == Some(JsonView::Str("model"@))
            &&& count.get("promptTokenCount"@) == Some(JsonView::Int(usage.prompt_tokens as int))
            &&& count.get("candidatesTokenCount"@) == Some(
                JsonView::Int(usage.completion_tokens as int),
            )
            &&& count.get("totalTokenCount"@) == Some(JsonView::Int(usage.total_tokens as int))
        }),
{
    reveal_strlit("candidates");
    reveal_strlit("content");
    reveal_strlit("parts");
    reveal_strlit("text");
    reveal_strlit("role");
    reveal_strlit("index");
    reveal_strlit("finishReason");
    reveal_strlit("usageMetadata");
    reveal_strlit("promptTokenCount");
    reveal_strlit("candidatesTokenCount");
    reveal_strlit("totalTokenCount");
    assert("candidates"@.len() == 10);
    assert("content"@.len() == 7);
    assert("parts"@.len() == 5 && "parts"@[0] == 'p');
    assert("text"@.len() == 4 && "text"@[0] == 't');
    assert("role"@.len() == 4 && "role"@[0] == 'r');
    assert("index"@.len() == 5 && "index"@[0] == 'i');
    assert("finishReason"@.len() == 12);
    assert("usageMetadata"@.len() == 13);
    assert("promptTokenCount"@.len() == 16);
    assert("candidatesTokenCount"@.len() == 20);
    assert("totalTokenCount"@.len() == 15);
    reveal_strlit("");
    assert(""@ =~= Seq::empty());
}

/// A failure of a chat is told as one event with its message, and the mark of the end behind it.
pub proof fn chat_failures_are_told(msg: &str, r: String) -> (data: JsonView)
    requires
        call_ensures(openai_error_sse, (msg,), r),
    ensures
        r@ == data_text(data) + "data: [DONE]\n\n"@,
        data.get("error"@)->0.get("message"@) == Some(JsonView::Str(msg@)),
        data.get("error"@)->0.get("type"@) == Some(JsonView::Str("upstream_error"@)),
{
    reveal_strlit("message");
    reveal_strlit("type");
    assert("message"@.len() == 7);
    assert("type"@.len() == 4);
    object().with(
        "error"@,
        object().with("message"@, JsonView::Str(msg@)).with(
            "type"@,
            JsonView::Str("upstream_error"@),
        ),
    )
}

/// A stream that has not begun knows its model and the tokens of its prompt, and has no block.
pub proof fn streams_begin_with_their_model(
    model: &str,
    prompt_tokens: i64,
    r: AnthropicStreamTranslator,
)
    requires
        call_ensures(AnthropicStreamTranslator::new, (model, prompt_tokens), r),
    ensures
        r.model@ == model@,
        r.prompt_tokens == prompt_tokens,
        !r.started,
        r.index == 0,
        r.current == BlockKind::Nothing,
{
}

/// The texts that a client gets are those of the events, in order: each holds the name of its
/// event and the JSON text of its data.
pub proof fn texts_are_those_of_the_events(frames: Seq<Frame>, i: int)
    requires
        0 <= i < frames.len(),
    ensures
        frame_texts(frames).len() == frames.len(),
        begins_with(frame_texts(frames)[i], "event: "@ + frames[i].name() + "\n"@),
        stands_at(
            frame_texts(frames)[i],
            "data: "@ + json_text(frames[i].data()),
            8 + frames[i].name().len() as int,
        ),
        ends_in(frame_texts(frames)[i], "\n\n"@),
{
    event_texts_hold_name_and_data(frames[i].name(), frames[i].data());
}

/// What a client is sent for an event of a completion adds to what it sees just what the event
/// brings: the piece of the answer, the piece of the reasoning, or the calls. The stream goes on
/// for the same message.
pub proof fn clients_are_sent_what_comes(
    stream: &mut AnthropicStreamTranslator,
    ev: &OutEvent,
    sent: Vec<String>,
) -> (frames: Seq<Frame>)
    requires
        call_ensures(AnthropicStreamTranslator::on_event, (stream, ev), sent),
    ensures
        sent@.len() == frames.len(),
        forall|i: int| 0 <= i < frames.len() ==> (#[trigger] sent@[i])@ == frames[i].text(),
        gathered(frames, |f: Frame| shown_answer(f)) == given_answer(*ev),
        gathered(frames, |f: Frame| shown_reasoning(f)) == given_reasoning(*ev),
        gathered(frames, |f: Frame| shown_arguments(f)) == gathered(
            given_calls(*ev),
            |tc: ParsedToolCall| call_text(tc),
        ),
        gathered(frames, |f: Frame| shown_call(f)) == gathered(
            given_calls(*ev),
            |tc: ParsedToolCall| call_head(tc),
        ),
        final(stream).id@ == old(stream).id@,
        final(stream).model@ == old(stream).model@,
        final(stream).prompt_tokens == old(stream).prompt_tokens,
        final(stream).started,
{
    let frames = old(stream)@.frames(*ev);
    events_are_shown_whole(old(stream)@, *ev);
    let views = texts(sent@);
    assert(views == frame_texts(frames));
    assert forall|i: int| 0 <= i < frames.len() implies (#[trigger] sent@[i])@
        == frames[i].text() by {
        assert(views[i] == sent@[i]@);
    }
    assert(views.len() == sent@.len());
    assert(final(stream)@ == old(stream)@.next(*ev));
    frames
}

/// A stream can take every event as long as its blocks are numbered by numbers of sixty-four
/// bits.
pub proof fn streams_take_all_events(st: &AnthropicStreamTranslator, ev: &OutEvent, r: bool)
    requires
        call_ensures(AnthropicStreamTranslator::can_take, (st, ev), r),
    ensures
        !(*ev is ToolCalls) && st.index < i64::MAX ==> r,
        *ev matches OutEvent::ToolCalls(calls) ==> (r <==> st.index + 1 + calls@.len() <= i64::MAX),
{
}

} // verus!
