//! The events that the clients get to see while an answer is still coming in.

use crate::execution::{OutEvent, Usage};
use crate::ident::{is_hex_text, short_id};
use crate::json::{array, object, Json, JsonView};
use crate::json_text::{json_text, json_to_string, no_control};
use crate::text::{same_text, stands_at, texts};
use crate::toolcall::parse::ParsedToolCall;
use vstd::prelude::*;

verus! {

/// The signature of reasoning that nobody signed.
pub const UNSIGNED_THINKING_SIGNATURE: &'static str = "cXdlbjJhcGktcnMtdW5zaWduZWQtdGhpbmtpbmc=";

// ---------------------------------------------------------------------------
// Frames
// ---------------------------------------------------------------------------

/// A named event: its name, its data, and the blank line that ends it.
pub open spec fn named_frame(event: Seq<char>, body: Seq<char>) -> Seq<char> {
    "event: "@ + event + "\ndata: "@ + body + "\n\n"@
}

/// An event without a name.
pub open spec fn bare_frame(body: Seq<char>) -> Seq<char> {
    "data: "@ + body + "\n\n"@
}

/// The text of a named event.
pub open spec fn event_text(event: Seq<char>, data: JsonView) -> Seq<char> {
    named_frame(event, json_text(data))
}

/// The text of an event without a name.
pub open spec fn data_text(data: JsonView) -> Seq<char> {
    bare_frame(json_text(data))
}

/// A blank line stands at the end of a text and nowhere else, so that a reader takes the text
/// for one event.
pub open spec fn one_frame(text: Seq<char>) -> bool {
    &&& stands_at(text, "\n\n"@, text.len() - 2)
    &&& forall|i: int| #[trigger] stands_at(text, "\n\n"@, i) ==> i == text.len() - 2
}

proof fn lemma_one_frame(head: Seq<char>, body: Seq<char>)
    requires
        head.len() > 0,
        forall|i: int|
            0 <= i < head.len() - 1 ==> (#[trigger] head[i]) != '\n' || head[i + 1] != '\n',
        head.last() != '\n',
        no_control(body),
    ensures
        one_frame(head + body + "\n\n"@),
{
    reveal_strlit("\n\n");
    let nl = "\n\n"@;
    let t = head + body + nl;
    assert(t.subrange(t.len() - 2, t.len() as int) =~= nl);
    assert forall|i: int| #[trigger] stands_at(t, nl, i) implies i == t.len() - 2 by {
        let w = t.subrange(i, i + 2);
        assert(w[0] == t[i] && w[1] == t[i + 1]);
        assert(nl[0] == '\n' && nl[1] == '\n');
        if i < head.len() - 1 {
            assert(t[i] == head[i] && t[i + 1] == head[i + 1]);
        } else if i == head.len() - 1 {
            assert(t[i] == head.last());
        } else if i < head.len() + body.len() {
            assert(t[i] == body[i - head.len()]);
        }
    }
}

/// A named event, given the text of its data. It is one event to its reader where neither the
/// name nor the data break the line.
pub fn frame_named(event: &str, body: &str) -> (r: String)
    ensures
        r@ == named_frame(event@, body@),
        no_control(event@) && no_control(body@) ==> one_frame(r@),
{
    let mut r = "event: ".to_string();
    r.append(event);
    r.append("\ndata: ");
    let ghost head = r@;
    r.append(body);
    r.append("\n\n");
    proof {
        if no_control(event@) && no_control(body@) {
            reveal_strlit("event: ");
            reveal_strlit("\ndata: ");
            lemma_one_frame(head, body@);
        }
    }
    r
}

/// An event without a name, given the text of its data.
pub fn frame_bare(body: &str) -> (r: String)
    ensures
        r@ == bare_frame(body@),
        no_control(body@) ==> one_frame(r@),
{
    let mut r = "data: ".to_string();
    r.append(body);
    r.append("\n\n");
    proof {
        if no_control(body@) {
            reveal_strlit("data: ");
            lemma_one_frame("data: "@, body@);
        }
    }
    r
}

/// The text of a named event.
pub fn sse_event(event: &str, data: &Json) -> (r: String)
    ensures
        r@ == event_text(event@, data@),
        no_control(event@) ==> one_frame(r@),
{
    frame_named(event, json_to_string(data).as_str())
}

/// The text of an event without a name.
pub fn sse_data(data: &Json) -> (r: String)
    ensures
        r@ == data_text(data@),
        one_frame(r@),
{
    frame_bare(json_to_string(data).as_str())
}

// ---------------------------------------------------------------------------
// Messages as a stream of events
// ---------------------------------------------------------------------------

/// What kind of block is open.
#[derive(Debug, Clone, Copy, PartialEq, Eq, Structural)]
pub enum BlockKind {
    Nothing,
    Thinking,
    Text,
}

/// An event of a message stream.
pub enum Frame {
    MessageStart { id: Seq<char>, model: Seq<char>, prompt_tokens: int },
    BlockStart { index: int, block: JsonView },
    BlockDelta { index: int, delta: JsonView },
    BlockStop { index: int },
    MessageDelta { stop_reason: Seq<char>, output_tokens: int },
    Error { message: Seq<char> },
    MessageStop,
}

impl Frame {
    /// The name of an event.
    pub open spec fn name(self) -> Seq<char> {
        match self {
            Frame::MessageStart { .. } => "message_start"@,
            Frame::BlockStart { .. } => "content_block_start"@,
            Frame::BlockDelta { .. } => "content_block_delta"@,
            Frame::BlockStop { .. } => "content_block_stop"@,
            Frame::MessageDelta { .. } => "message_delta"@,
            Frame::Error { .. } => "error"@,
            Frame::MessageStop => "message_stop"@,
        }
    }

    /// The data of an event.
    pub open spec fn data(self) -> JsonView {
        match self {
            Frame::MessageStart { id, model, prompt_tokens } => object().with(
                "type"@,
                JsonView::Str("message_start"@),
            ).with(
                "message"@,
                object().with("id"@, JsonView::Str(id)).with("type"@, JsonView::Str("message"@)).with(
                    "role"@,
                    JsonView::Str("assistant"@),
                ).with("model"@, JsonView::Str(model)).with("content"@, array()).with(
                    "stop_reason"@,
                    JsonView::Null,
                ).with("stop_sequence"@, JsonView::Null).with(
                    "usage"@,
                    object().with("input_tokens"@, JsonView::Int(prompt_tokens)).with(
                        "output_tokens"@,
                        JsonView::Int(0),
                    ),
                ),
            ),
            Frame::BlockStart { index, block } => object().with(
                "type"@,
                JsonView::Str("content_block_start"@),
            ).with("index"@, JsonView::Int(index)).with("content_block"@, block),
            Frame::BlockDelta { index, delta } => object().with(
                "type"@,
                JsonView::Str("content_block_delta"@),
            ).with("index"@, JsonView::Int(index)).with("delta"@, delta),
            Frame::BlockStop { index } => object().with(
                "type"@,
                JsonView::Str("content_block_stop"@),
            ).with("index"@, JsonView::Int(index)),
            Frame::MessageDelta { stop_reason, output_tokens } => object().with(
                "type"@,
                JsonView::Str("message_delta"@),
            ).with(
                "delta"@,
                object().with("stop_reason"@, JsonView::Str(stop_reason)).with(
                    "stop_sequence"@,
                    JsonView::Null,
                ),
            ).with("usage"@, object().with("output_tokens"@, JsonView::Int(output_tokens))),
            Frame::Error { message } => object().with("type"@, JsonView::Str("error"@)).with(
                "error"@,
                object().with("type"@, JsonView::Str("upstream_error"@)).with(
                    "message"@,
                    JsonView::Str(message),
                ),
            ),
            Frame::MessageStop => object().with("type"@, JsonView::Str("message_stop"@)),
        }
    }

    /// The text of an event.
    pub open spec fn text(self) -> Seq<char> {
        event_text(self.name(), self.data())
    }
}

/// The texts of events.
pub open spec fn frame_texts(frames: Seq<Frame>) -> Seq<Seq<char>> {
    frames.map_values(|f: Frame| f.text())
}

/// Turns what a completion brings forth into the events of a message stream.
#[derive(Debug)]
pub struct AnthropicStreamTranslator {
    pub id: String,
    pub model: String,
    pub prompt_tokens: i64,
    pub current: BlockKind,
    pub index: i64,
    pub started: bool,
}

/// The state of a message stream.
pub struct StreamView {
    pub id: Seq<char>,
    pub model: Seq<char>,
    pub prompt_tokens: int,
    pub current: BlockKind,
    pub index: int,
    pub started: bool,
}

impl View for AnthropicStreamTranslator {
    type V = StreamView;

    open spec fn view(&self) -> StreamView {
        StreamView {
            id: self.id@,
            model: self.model@,
            prompt_tokens: self.prompt_tokens as int,
            current: self.current,
            index: self.index as int,
            started: self.started,
        }
    }
}

/// The block that a stretch of reasoning or of the answer begins with.
pub open spec fn empty_block(kind: BlockKind) -> JsonView {
    match kind {
        BlockKind::Thinking => object().with("type"@, JsonView::Str("thinking"@)).with(
            "thinking"@,
            JsonView::Str(""@),
        ).with("signature"@, JsonView::Str(UNSIGNED_THINKING_SIGNATURE@)),
        _ => object().with("type"@, JsonView::Str("text"@)).with("text"@, JsonView::Str(""@)),
    }
}

/// The piece that signs reasoning at its end.
pub open spec fn signature_delta() -> JsonView {
    object().with("type"@, JsonView::Str("signature_delta"@)).with(
        "signature"@,
        JsonView::Str(UNSIGNED_THINKING_SIGNATURE@),
    )
}

/// A piece of a stretch of reasoning or of the answer.
pub open spec fn piece(kind: BlockKind, text: Seq<char>) -> JsonView {
    match kind {
        BlockKind::Thinking => object().with("type"@, JsonView::Str("thinking_delta"@)).with(
            "thinking"@,
            JsonView::Str(text),
        ),
        _ => object().with("type"@, JsonView::Str("text_delta"@)).with(
            "text"@,
            JsonView::Str(text),
        ),
    }
}

/// The events of a call: its block opens, its arguments come in one piece, the block closes.
pub open spec fn call_frames(index: int, tc: ParsedToolCall) -> Seq<Frame> {
    seq![
        Frame::BlockStart {
            index,
            block: object().with("type"@, JsonView::Str("tool_use"@)).with(
                "id"@,
                JsonView::Str(tc.id@),
            ).with("name"@, JsonView::Str(tc.name@)).with("input"@, object()),
        },
        Frame::BlockDelta {
            index,
            delta: object().with("type"@, JsonView::Str("input_json_delta"@)).with(
                "partial_json"@,
                JsonView::Str(json_text(tc.arguments@)),
            ),
        },
        Frame::BlockStop { index },
    ]
}

/// The events of calls, each in a block of its own.
pub open spec fn calls_frames(index: int, calls: Seq<ParsedToolCall>) -> Seq<Frame>
    decreases calls.len(),
{
    if calls.len() == 0 {
        Seq::empty()
    } else {
        calls_frames(index, calls.drop_last()) + call_frames(
            index + calls.len() - 1,
            calls.last(),
        )
    }
}

impl StreamView {
    /// The event that a stream begins with, where it has not begun.
    pub open spec fn start_frames(self) -> Seq<Frame> {
        if self.started {
            Seq::empty()
        } else {
            seq![
                Frame::MessageStart {
                    id: self.id,
                    model: self.model,
                    prompt_tokens: self.prompt_tokens,
                },
            ]
        }
    }

    /// The stream, begun.
    pub open spec fn start(self) -> StreamView {
        StreamView { started: true, ..self }
    }

    /// The events that close the open block, where there is one.
    pub open spec fn close_frames(self) -> Seq<Frame> {
        match self.current {
            BlockKind::Nothing => Seq::empty(),
            BlockKind::Thinking => seq![
                Frame::BlockDelta { index: self.index, delta: signature_delta() },
                Frame::BlockStop { index: self.index },
            ],
            BlockKind::Text => seq![Frame::BlockStop { index: self.index }],
        }
    }

    /// The stream with no block open.
    pub open spec fn close(self) -> StreamView {
        if self.current == BlockKind::Nothing {
            self
        } else {
            StreamView { current: BlockKind::Nothing, index: self.index + 1, ..self }
        }
    }

    /// The events that lead to an open block of a kind.
    pub open spec fn turn_frames(self, kind: BlockKind) -> Seq<Frame> {
        if self.current == kind {
            Seq::empty()
        } else {
            self.close_frames().push(
                Frame::BlockStart { index: self.close().index, block: empty_block(kind) },
            )
        }
    }

    /// The stream with a block of a kind open.
    pub open spec fn turn(self, kind: BlockKind) -> StreamView {
        if self.current == kind {
            self
        } else {
            StreamView { current: kind, ..self.close() }
        }
    }

    /// The events that an event of a completion brings.
    pub open spec fn frames(self, ev: OutEvent) -> Seq<Frame> {
        let st = self.start();
        self.start_frames() + match ev {
            OutEvent::ReasoningDelta(text) => st.turn_frames(BlockKind::Thinking).push(
                Frame::BlockDelta {
                    index: st.turn(BlockKind::Thinking).index,
                    delta: piece(BlockKind::Thinking, text@),
                },
            ),
            OutEvent::ContentDelta(text) => st.turn_frames(BlockKind::Text).push(
                Frame::BlockDelta {
                    index: st.turn(BlockKind::Text).index,
                    delta: piece(BlockKind::Text, text@),
                },
            ),
            OutEvent::ToolCalls(calls) => st.close_frames() + calls_frames(
                st.close().index,
                calls@,
            ),
            OutEvent::Done { usage, finish_reason } => st.close_frames() + seq![
                Frame::MessageDelta {
                    stop_reason: if finish_reason@ == "tool_calls"@ {
                        "tool_use"@
                    } else {
                        "end_turn"@
                    },
                    output_tokens: usage.completion_tokens as int,
                },
                Frame::MessageStop,
            ],
            OutEvent::Error(message) => st.close_frames() + seq![
                Frame::Error { message: message@ },
                Frame::MessageStop,
            ],
        }
    }

    /// The stream behind an event of a completion.
    pub open spec fn next(self, ev: OutEvent) -> StreamView {
        let st = self.start();
        match ev {
            OutEvent::ReasoningDelta(_) => st.turn(BlockKind::Thinking),
            OutEvent::ContentDelta(_) => st.turn(BlockKind::Text),
            OutEvent::ToolCalls(calls) => StreamView {
                index: st.close().index + calls@.len(),
                ..st.close()
            },
            OutEvent::Done { .. } => st.close(),
            OutEvent::Error(_) => st.close(),
        }
    }

    /// The indices of the blocks that an event brings are still numbers of sixty-four bits.
    pub open spec fn has_room(self, ev: OutEvent) -> bool {
        self.index + 1 + (match ev {
            OutEvent::ToolCalls(calls) => calls@.len() as int,
            _ => 0,
        }) <= i64::MAX
    }
}

/// Adds the text of an event.
fn push_frame(out: &mut Vec<String>, name: &str, data: Json, Ghost(f): Ghost<Frame>)
    requires
        name@ == f.name(),
        data@ == f.data(),
    ensures
        texts(final(out)@) == texts(old(out)@).push(f.text()),
{
    let ghost before = out@;
    out.push(sse_event(name, &data));
    proof {
        assert(texts(out@) =~= texts(before).push(f.text()));
    }
}

/// The texts of more events are more texts.
proof fn lemma_texts_push(frames: Seq<Frame>, f: Frame)
    ensures
        frame_texts(frames.push(f)) == frame_texts(frames).push(f.text()),
{
    assert(frame_texts(frames.push(f)) =~= frame_texts(frames).push(f.text()));
}

impl AnthropicStreamTranslator {
    /// A stream that has not begun, with a fresh identifier.
    pub fn new(model: &str, prompt_tokens: i64) -> (r: AnthropicStreamTranslator)
        ensures
            exists|digits: Seq<char>| #[trigger]
                is_hex_text(digits, 12) && r@.id == "msg_"@ + digits,
            r@.model == model@,
            r@.prompt_tokens == prompt_tokens,
            r@.current == BlockKind::Nothing,
            r@.index == 0,
            !r@.started,
    {
        let digits = short_id(12);
        let mut id = "msg_".to_string();
        id.append(digits.as_str());
        AnthropicStreamTranslator {
            id,
            model: model.to_string(),
            prompt_tokens,
            current: BlockKind::Nothing,
            index: 0,
            started: false,
        }
    }

    /// Whether the indices of the blocks that an event brings are still numbers of
    /// sixty-four bits.
    pub fn can_take(&self, ev: &OutEvent) -> (r: bool)
        ensures
            r == self@.has_room(*ev),
    {
        if self.index == i64::MAX {
            return false;
        }
        match ev {
            OutEvent::ToolCalls(calls) => {
                let left: i64 = i64::MAX - 1;
                if self.index >= 0 {
                    calls.len() as u128 <= (left - self.index) as u128
                } else {
                    calls.len() as i128 <= left as i128 - self.index as i128
                }
            },
            _ => true,
        }
    }

    fn ensure_started(&mut self, out: &mut Vec<String>)
        ensures
            final(self)@ == old(self)@.start(),
            texts(final(out)@) == texts(old(out)@) + frame_texts(
                old(self)@.start_frames(),
            ),
    {
        if self.started {
            proof {
                assert(texts(out@) =~= texts(out@) + frame_texts(Seq::empty()));
            }
            return;
        }
        let ghost before = texts(out@);
        let ghost st = self@;
        self.started = true;
        let msg = Json::object().with("type", Json::str("message_start")).with(
            "message",
            Json::object().with("id", Json::str(self.id.as_str())).with(
                "type",
                Json::str("message"),
            ).with("role", Json::str("assistant")).with(
                "model",
                Json::str(self.model.as_str()),
            ).with("content", Json::array()).with("stop_reason", Json::Null).with(
                "stop_sequence",
                Json::Null,
            ).with(
                "usage",
                Json::object().with("input_tokens", Json::integer(self.prompt_tokens)).with(
                    "output_tokens",
                    Json::integer(0),
                ),
            ),
        );
        let ghost f = st.start_frames()[0];
        push_frame(out, "message_start", msg, Ghost(f));
        proof {
            assert(texts(out@) =~= before + frame_texts(st.start_frames()));
        }
    }

    fn close_block(&mut self, out: &mut Vec<String>)
        requires
            old(self)@.index < i64::MAX,
        ensures
            final(self)@ == old(self)@.close(),
            texts(final(out)@) == texts(old(out)@) + frame_texts(
                old(self)@.close_frames(),
            ),
    {
        let ghost before = texts(out@);
        let ghost st = self@;
        if self.current != BlockKind::Nothing {
            if self.current == BlockKind::Thinking {
                let delta = Json::object().with("type", Json::str("signature_delta")).with(
                    "signature",
                    Json::str(UNSIGNED_THINKING_SIGNATURE),
                );
                self.push_delta(out, delta);
            }
            let data = Json::object().with("type", Json::str("content_block_stop")).with(
                "index",
                Json::integer(self.index),
            );
            push_frame(
                out,
                "content_block_stop",
                data,
                Ghost(Frame::BlockStop { index: st.index }),
            );
            self.index = self.index + 1;
            self.current = BlockKind::Nothing;
        }
        proof {
            assert(texts(out@) =~= before + frame_texts(st.close_frames()));
        }
    }

    fn push_delta(&self, out: &mut Vec<String>, delta: Json)
        ensures
            texts(final(out)@) == texts(old(out)@).push(
                (Frame::BlockDelta { index: self@.index, delta: delta@ }).text(),
            ),
    {
        let ghost f = Frame::BlockDelta { index: self@.index, delta: delta@ };
        let data = Json::object().with("type", Json::str("content_block_delta")).with(
            "index",
            Json::integer(self.index),
        ).with("delta", delta);
        push_frame(out, "content_block_delta", data, Ghost(f));
    }

    fn push_start(&self, out: &mut Vec<String>, block: Json)
        ensures
            texts(final(out)@) == texts(old(out)@).push(
                (Frame::BlockStart { index: self@.index, block: block@ }).text(),
            ),
    {
        let ghost f = Frame::BlockStart { index: self@.index, block: block@ };
        let data = Json::object().with("type", Json::str("content_block_start")).with(
            "index",
            Json::integer(self.index),
        ).with("content_block", block);
        push_frame(out, "content_block_start", data, Ghost(f));
    }

    fn open_block(&mut self, out: &mut Vec<String>, kind: BlockKind)
        requires
            kind != BlockKind::Nothing,
        ensures
            final(self)@ == (StreamView { current: kind, ..old(self)@ }),
            texts(final(out)@) == texts(old(out)@).push(
                (Frame::BlockStart { index: old(self)@.index, block: empty_block(kind) }).text(),
            ),
    {
        let block = if kind == BlockKind::Thinking {
            Json::object().with("type", Json::str("thinking")).with(
                "thinking",
                Json::str(""),
            ).with("signature", Json::str(UNSIGNED_THINKING_SIGNATURE))
        } else {
            Json::object().with("type", Json::str("text")).with("text", Json::str(""))
        };
        self.push_start(out, block);
        self.current = kind;
    }

    /// Opens a block of a kind unless one is open, and adds a piece to it.
    fn add_piece(&mut self, out: &mut Vec<String>, kind: BlockKind, delta: Json)
        requires
            kind != BlockKind::Nothing,
            old(self)@.index < i64::MAX,
        ensures
            final(self)@ == old(self)@.turn(kind),
            texts(final(out)@) == texts(old(out)@) + frame_texts(
                old(self)@.turn_frames(kind).push(
                    Frame::BlockDelta { index: old(self)@.turn(kind).index, delta: delta@ },
                ),
            ),
    {
        let ghost before = texts(out@);
        let ghost st = self@;
        if self.current != kind {
            self.close_block(out);
            self.open_block(out, kind);
            proof {
                lemma_texts_push(
                    st.close_frames(),
                    Frame::BlockStart { index: st.close().index, block: empty_block(kind) },
                );
                assert(texts(out@) =~= before + frame_texts(st.turn_frames(kind)));
            }
        } else {
            proof {
                assert(texts(out@) =~= before + frame_texts(st.turn_frames(kind)));
            }
        }
        let ghost f = Frame::BlockDelta { index: self@.index, delta: delta@ };
        self.push_delta(out, delta);
        proof {
            lemma_texts_push(st.turn_frames(kind), f);
            assert(texts(out@) =~= before + frame_texts(st.turn_frames(kind).push(f)));
        }
    }

    /// Adds a block for a call.
    fn add_call(&mut self, out: &mut Vec<String>, tc: &ParsedToolCall)
        requires
            old(self)@.index < i64::MAX,
        ensures
            final(self)@ == (StreamView { index: old(self)@.index + 1, ..old(self)@ }),
            texts(final(out)@) == texts(old(out)@) + frame_texts(
                call_frames(old(self)@.index, *tc),
            ),
    {
        let ghost before = texts(out@);
        let ghost st = self@;
        let block = Json::object().with("type", Json::str("tool_use")).with(
            "id",
            Json::str(tc.id.as_str()),
        ).with("name", Json::str(tc.name.as_str())).with("input", Json::object());
        self.push_start(out, block);
        let text = json_to_string(&tc.arguments);
        let delta = Json::object().with("type", Json::str("input_json_delta")).with(
            "partial_json",
            Json::str(text.as_str()),
        );
        self.push_delta(out, delta);
        let data = Json::object().with("type", Json::str("content_block_stop")).with(
            "index",
            Json::integer(self.index),
        );
        push_frame(out, "content_block_stop", data, Ghost(Frame::BlockStop { index: st.index }));
        self.index = self.index + 1;
        proof {
            assert(texts(out@) =~= before + frame_texts(call_frames(st.index, *tc)));
        }
    }

    /// Adds a block for each call.
    fn add_calls(&mut self, out: &mut Vec<String>, calls: &Vec<ParsedToolCall>)
        requires
            old(self)@.index + calls@.len() <= i64::MAX,
        ensures
            final(self)@ == (StreamView { index: old(self)@.index + calls@.len(), ..old(self)@ }),
            texts(final(out)@) == texts(old(out)@) + frame_texts(
                calls_frames(old(self)@.index, calls@),
            ),
    {
        let ghost before = texts(out@);
        let ghost st = self@;
        let n: usize = calls.len();
        proof {
            assert(calls@.take(0) =~= Seq::empty());
            assert(before =~= before + frame_texts(calls_frames(st.index, calls@.take(0))));
        }
        let mut i: usize = 0;
        while i < n
            invariant
                n == calls@.len(),
                i <= n,
                st.index + n <= i64::MAX,
                self@ == (StreamView { index: st.index + i, ..st }),
                texts(out@) == before + frame_texts(
                    calls_frames(st.index, calls@.take(i as int)),
                ),
            decreases n - i,
        {
            self.add_call(out, &calls[i]);
            proof {
                let head = calls_frames(st.index, calls@.take(i as int));
                let more = call_frames(st.index + i, calls@[i as int]);
                assert(calls@.take(i as int + 1).drop_last() =~= calls@.take(i as int));
                assert(frame_texts(head + more) =~= frame_texts(head) + frame_texts(more));
                assert(texts(out@) =~= before + frame_texts(head + more));
            }
            i += 1;
        }
        proof {
            assert(calls@.take(n as int) =~= calls@);
        }
    }

    /// The texts of the events that an event of a completion brings.
    pub fn on_event(&mut self, ev: &OutEvent) -> (r: Vec<String>)
        requires
            old(self)@.has_room(*ev),
        ensures
            final(self)@ == old(self)@.next(*ev),
            texts(r@) == frame_texts(old(self)@.frames(*ev)),
    {
        let ghost st0 = self@;
        let ghost st = self@.start();
        let mut out: Vec<String> = Vec::new();
        self.ensure_started(&mut out);
        let ghost head = st0.start_frames();
        proof {
            assert(texts(out@) =~= frame_texts(head));
        }
        match ev {
            OutEvent::ReasoningDelta(text) => {
                let delta = Json::object().with("type", Json::str("thinking_delta")).with(
                    "thinking",
                    Json::str(text.as_str()),
                );
                self.add_piece(&mut out, BlockKind::Thinking, delta);
            },
            OutEvent::ContentDelta(text) => {
                let delta = Json::object().with("type", Json::str("text_delta")).with(
                    "text",
                    Json::str(text.as_str()),
                );
                self.add_piece(&mut out, BlockKind::Text, delta);
            },
            OutEvent::ToolCalls(calls) => {
                self.close_block(&mut out);
                self.add_calls(&mut out, calls);
            },
            OutEvent::Done { usage, finish_reason } => {
                self.close_block(&mut out);
                let stop_reason = if same_text(finish_reason.as_str(), "tool_calls") {
                    "tool_use"
                } else {
                    "end_turn"
                };
                let delta = Json::object().with("type", Json::str("message_delta")).with(
                    "delta",
                    Json::object().with("stop_reason", Json::str(stop_reason)).with(
                        "stop_sequence",
                        Json::Null,
                    ),
                ).with(
                    "usage",
                    Json::object().with("output_tokens", Json::integer(usage.completion_tokens)),
                );
                let ghost f = Frame::MessageDelta {
                    stop_reason: stop_reason@,
                    output_tokens: usage.completion_tokens as int,
                };
                push_frame(&mut out, "message_delta", delta, Ghost(f));
                let stop = Json::object().with("type", Json::str("message_stop"));
                push_frame(&mut out, "message_stop", stop, Ghost(Frame::MessageStop));
            },
            OutEvent::Error(message) => {
                self.close_block(&mut out);
                let data = Json::object().with("type", Json::str("error")).with(
                    "error",
                    Json::object().with("type", Json::str("upstream_error")).with(
                        "message",
                        Json::str(message.as_str()),
                    ),
                );
                push_frame(&mut out, "error", data, Ghost(Frame::Error { message: message@ }));
                let stop = Json::object().with("type", Json::str("message_stop"));
                push_frame(&mut out, "message_stop", stop, Ghost(Frame::MessageStop));
            },
        }
        proof {
            assert(texts(out@) =~= frame_texts(st0.frames(*ev)));
        }
        out
    }
}

// ---------------------------------------------------------------------------
// The order of events
// ---------------------------------------------------------------------------

/// How far a reader of a message stream has come.
pub enum Reader {
    /// Nothing has been read.
    Fresh,
    /// No block is open, and the next one has this index.
    Between(int),
    /// The block of this index is open.
    Inside(int),
    /// The message has ended.
    Ended,
}

/// How far a reader has come behind an event; `None` where the event may not come there: a
/// message begins once and first, blocks do not nest and are numbered from zero on, pieces
/// come inside their block, and nothing comes behind the end.
pub open spec fn read_frame(at: Reader, f: Frame) -> Option<Reader> {
    match (at, f) {
        (Reader::Fresh, Frame::MessageStart { .. }) => Some(Reader::Between(0)),
        (Reader::Between(n), Frame::BlockStart { index, .. }) => if index == n {
            Some(Reader::Inside(n))
        } else {
            None
        },
        (Reader::Inside(n), Frame::BlockDelta { index, .. }) => if index == n {
            Some(Reader::Inside(n))
        } else {
            None
        },
        (Reader::Inside(n), Frame::BlockStop { index }) => if index == n {
            Some(Reader::Between(n + 1))
        } else {
            None
        },
        (Reader::Between(n), Frame::MessageDelta { .. }) => Some(Reader::Between(n)),
        (Reader::Between(n), Frame::Error { .. }) => Some(Reader::Between(n)),
        (Reader::Between(_), Frame::MessageStop) => Some(Reader::Ended),
        _ => None,
    }
}

/// How far a reader has come behind events.
pub open spec fn read_frames(at: Reader, frames: Seq<Frame>) -> Option<Reader>
    decreases frames.len(),
{
    if frames.len() == 0 {
        Some(at)
    } else {
        match read_frames(at, frames.drop_last()) {
            Some(mid) => read_frame(mid, frames.last()),
            None => None,
        }
    }
}

impl StreamView {
    /// How far a reader of the stream has come.
    pub open spec fn reader(self) -> Reader {
        if !self.started {
            Reader::Fresh
        } else if self.current == BlockKind::Nothing {
            Reader::Between(self.index)
        } else {
            Reader::Inside(self.index)
        }
    }

    /// A stream that has not begun has no block behind it.
    pub open spec fn wf(self) -> bool {
        !self.started ==> self.index == 0 && self.current == BlockKind::Nothing
    }
}

/// An event after which nothing comes.
pub open spec fn is_last(ev: OutEvent) -> bool {
    ev is Done || ev is Error
}

proof fn lemma_read_concat(at: Reader, a: Seq<Frame>, b: Seq<Frame>)
    requires
        read_frames(at, a) is Some,
    ensures
        read_frames(at, a + b) == read_frames(read_frames(at, a)->0, b),
    decreases b.len(),
{
    if b.len() == 0 {
        assert(a + b =~= a);
    } else {
        lemma_read_concat(at, a, b.drop_last());
        assert((a + b).drop_last() =~= a + b.drop_last());
    }
}

proof fn lemma_read_one(at: Reader, f: Frame)
    ensures
        read_frames(at, seq![f]) == read_frame(at, f),
{
    assert(seq![f].drop_last() =~= Seq::<Frame>::empty());
    assert(read_frames(at, seq![f].drop_last()) == Some(at));
}

proof fn lemma_read_close(st: StreamView)
    requires
        st.started,
    ensures
        read_frames(st.reader(), st.close_frames()) == Some(Reader::Between(st.close().index)),
{
    let at = st.reader();
    match st.current {
        BlockKind::Nothing => {},
        BlockKind::Thinking => {
            let d = Frame::BlockDelta { index: st.index, delta: signature_delta() };
            let s = Frame::BlockStop { index: st.index };
            lemma_read_one(at, d);
            lemma_read_concat(at, seq![d], seq![s]);
            lemma_read_one(at, s);
            assert(seq![d] + seq![s] =~= st.close_frames());
        },
        BlockKind::Text => {
            lemma_read_one(at, Frame::BlockStop { index: st.index });
        },
    }
}

proof fn lemma_read_calls(index: int, calls: Seq<ParsedToolCall>)
    ensures
        read_frames(Reader::Between(index), calls_frames(index, calls)) == Some(
            Reader::Between(index + calls.len()),
        ),
    decreases calls.len(),
{
    if calls.len() > 0 {
        lemma_read_calls(index, calls.drop_last());
        let at = Reader::Between(index);
        let head = calls_frames(index, calls.drop_last());
        let k = index + calls.len() - 1;
        let more = call_frames(k, calls.last());
        lemma_read_concat(at, head, more);
        let a = seq![more[0]];
        let b = seq![more[1]];
        let c = seq![more[2]];
        assert(more =~= a + b + c);
        lemma_read_one(Reader::Between(k), more[0]);
        lemma_read_concat(Reader::Between(k), a, b);
        lemma_read_one(Reader::Inside(k), more[1]);
        lemma_read_concat(Reader::Between(k), a + b, c);
        lemma_read_one(Reader::Inside(k), more[2]);
    }
}

/// The events of a stream come in an order that its reader accepts: whatever a completion
/// brings forth next, the reader can follow, and comes to where the stream stands.
pub proof fn events_come_in_order(st: StreamView, ev: OutEvent)
    requires
        st.wf(),
    ensures
        st.next(ev).wf(),
        st.next(ev).started,
        read_frames(st.reader(), st.frames(ev)) == Some(
            if is_last(ev) {
                Reader::Ended
            } else {
                st.next(ev).reader()
            },
        ),
{
    let at = st.reader();
    let begun = st.start();
    let head = st.start_frames();
    if !st.started {
        lemma_read_one(at, head[0]);
        assert(head =~= seq![head[0]]);
    }
    assert(read_frames(at, head) == Some(begun.reader()));
    lemma_read_close(begun);
    let mid = begun.reader();
    let between = Reader::Between(begun.close().index);
    let shut = begun.close_frames();
    match ev {
        OutEvent::ReasoningDelta(text) => {
            lemma_read_piece(begun, BlockKind::Thinking, text@);
            lemma_read_concat(
                at,
                head,
                begun.turn_frames(BlockKind::Thinking).push(
                    Frame::BlockDelta {
                        index: begun.turn(BlockKind::Thinking).index,
                        delta: piece(BlockKind::Thinking, text@),
                    },
                ),
            );
        },
        OutEvent::ContentDelta(text) => {
            lemma_read_piece(begun, BlockKind::Text, text@);
            lemma_read_concat(
                at,
                head,
                begun.turn_frames(BlockKind::Text).push(
                    Frame::BlockDelta {
                        index: begun.turn(BlockKind::Text).index,
                        delta: piece(BlockKind::Text, text@),
                    },
                ),
            );
        },
        OutEvent::ToolCalls(calls) => {
            let more = calls_frames(begun.close().index, calls@);
            lemma_read_calls(begun.close().index, calls@);
            lemma_read_concat(mid, shut, more);
            lemma_read_concat(at, head, shut + more);
        },
        OutEvent::Done { usage, finish_reason } => {
            let d = Frame::MessageDelta {
                stop_reason: if finish_reason@ == "tool_calls"@ {
                    "tool_use"@
                } else {
                    "end_turn"@
                },
                output_tokens: usage.completion_tokens as int,
            };
            lemma_read_end(between, d);
            lemma_read_concat(mid, shut, seq![d, Frame::MessageStop]);
            lemma_read_concat(at, head, shut + seq![d, Frame::MessageStop]);
        },
        OutEvent::Error(message) => {
            let d = Frame::Error { message: message@ };
            lemma_read_end(between, d);
            lemma_read_concat(mid, shut, seq![d, Frame::MessageStop]);
            lemma_read_concat(at, head, shut + seq![d, Frame::MessageStop]);
        },
    }
}

proof fn lemma_read_end(at: Reader, d: Frame)
    requires
        at is Between,
        d is MessageDelta || d is Error,
    ensures
        read_frames(at, seq![d, Frame::MessageStop]) == Some(Reader::Ended),
{
    lemma_read_one(at, d);
    lemma_read_concat(at, seq![d], seq![Frame::MessageStop]);
    lemma_read_one(at, Frame::MessageStop);
    assert(seq![d] + seq![Frame::MessageStop] =~= seq![d, Frame::MessageStop]);
}

proof fn lemma_read_piece(st: StreamView, kind: BlockKind, text: Seq<char>)
    requires
        st.started,
        kind != BlockKind::Nothing,
    ensures
        read_frames(
            st.reader(),
            st.turn_frames(kind).push(
                Frame::BlockDelta { index: st.turn(kind).index, delta: piece(kind, text) },
            ),
        ) == Some(st.turn(kind).reader()),
{
    let at = st.reader();
    let turn = st.turn_frames(kind);
    let d = Frame::BlockDelta { index: st.turn(kind).index, delta: piece(kind, text) };
    if st.current != kind {
        lemma_read_close(st);
        let o = Frame::BlockStart { index: st.close().index, block: empty_block(kind) };
        assert(turn.drop_last() =~= st.close_frames());
        assert(turn.last() == o);
    }
    assert(read_frames(at, turn) == Some(st.turn(kind).reader()));
    assert(turn.push(d).drop_last() =~= turn);
}

/// The stream behind a number of events.
pub open spec fn after_events(st: StreamView, evs: Seq<OutEvent>) -> StreamView
    decreases evs.len(),
{
    if evs.len() == 0 {
        st
    } else {
        after_events(st, evs.drop_last()).next(evs.last())
    }
}

/// All the events that a number of events bring.
pub open spec fn all_frames(st: StreamView, evs: Seq<OutEvent>) -> Seq<Frame>
    decreases evs.len(),
{
    if evs.len() == 0 {
        Seq::empty()
    } else {
        all_frames(st, evs.drop_last()) + after_events(st, evs.drop_last()).frames(evs.last())
    }
}

/// A whole stream is a message that its reader accepts from its beginning, as long as nothing
/// is handed on behind the end; and with the end the reader has come to the end.
pub proof fn whole_stream_is_in_order(st: StreamView, evs: Seq<OutEvent>)
    requires
        st.wf(),
        !st.started,
        forall|i: int| 0 <= i < evs.len() - 1 ==> !is_last(#[trigger] evs[i]),
    ensures
        after_events(st, evs).wf(),
        read_frames(Reader::Fresh, all_frames(st, evs)) == Some(
            if evs.len() > 0 && is_last(evs.last()) {
                Reader::Ended
            } else {
                after_events(st, evs).reader()
            },
        ),
    decreases evs.len(),
{
    if evs.len() > 0 {
        let rest = evs.drop_last();
        assert forall|i: int| 0 <= i < rest.len() - 1 implies !is_last(#[trigger] rest[i]) by {
            assert(rest[i] == evs[i]);
        }
        whole_stream_is_in_order(st, rest);
        if rest.len() > 0 {
            assert(rest.last() == evs[rest.len() - 1]);
        }
        let mid = after_events(st, rest);
        events_come_in_order(mid, evs.last());
        lemma_read_concat(Reader::Fresh, all_frames(st, rest), mid.frames(evs.last()));
    }
}

/// Which block a reader of a message stream is in, or the index of the next one.
pub enum BlockReader {
    /// No block is open, and the next one has this index.
    Between(int),
    /// The block of this index is open.
    Inside(int),
}

/// Which block a reader is in behind an event; `None` where the event may not come there: a
/// block opens only where none is open and with the next index, pieces come inside their block,
/// and all that is no part of a block comes between blocks.
pub open spec fn read_block(at: BlockReader, f: Frame) -> Option<BlockReader> {
    match (at, f) {
        (BlockReader::Between(n), Frame::BlockStart { index, .. }) => if index == n {
            Some(BlockReader::Inside(n))
        } else {
            None
        },
        (BlockReader::Inside(n), Frame::BlockDelta { index, .. }) => if index == n {
            Some(BlockReader::Inside(n))
        } else {
            None
        },
        (BlockReader::Inside(n), Frame::BlockStop { index }) => if index == n {
            Some(BlockReader::Between(n + 1))
        } else {
            None
        },
        (BlockReader::Inside(_), _) => None,
        (BlockReader::Between(_), Frame::BlockDelta { .. }) => None,
        (BlockReader::Between(_), Frame::BlockStop { .. }) => None,
        (BlockReader::Between(n), _) => Some(BlockReader::Between(n)),
    }
}

/// Which block a reader is in behind events.
pub open spec fn read_blocks(at: BlockReader, frames: Seq<Frame>) -> Option<BlockReader>
    decreases frames.len(),
{
    if frames.len() == 0 {
        Some(at)
    } else {
        match read_blocks(at, frames.drop_last()) {
            Some(mid) => read_block(mid, frames.last()),
            None => None,
        }
    }
}

impl Reader {
    /// Which block the reader is in, as long as the message has not ended.
    pub open spec fn block(self) -> BlockReader {
        match self {
            Reader::Between(n) => BlockReader::Between(n),
            Reader::Inside(n) => BlockReader::Inside(n),
            _ => BlockReader::Between(0),
        }
    }
}

impl StreamView {
    /// Which block a reader of the stream is in.
    pub open spec fn block_reader(self) -> BlockReader {
        if self.current == BlockKind::Nothing {
            BlockReader::Between(self.index)
        } else {
            BlockReader::Inside(self.index)
        }
    }
}

proof fn lemma_blocks_concat(at: BlockReader, a: Seq<Frame>, b: Seq<Frame>)
    requires
        read_blocks(at, a) is Some,
    ensures
        read_blocks(at, a + b) == read_blocks(read_blocks(at, a)->0, b),
    decreases b.len(),
{
    if b.len() == 0 {
        assert(a + b =~= a);
    } else {
        lemma_blocks_concat(at, a, b.drop_last());
        assert((a + b).drop_last() =~= a + b.drop_last());
    }
}

/// A reader that follows the message as a whole follows its blocks.
proof fn lemma_reader_blocks(at: Reader, frames: Seq<Frame>)
    requires
        read_frames(at, frames) is Some,
        !(read_frames(at, frames)->0 is Ended),
    ensures
        read_blocks(at.block(), frames) == Some((read_frames(at, frames)->0).block()),
    decreases frames.len(),
{
    if frames.len() > 0 {
        lemma_reader_blocks(at, frames.drop_last());
    }
}

/// Up to the mark of its end, the last event of a completion leaves the reader between blocks.
proof fn lemma_end_between(st: StreamView, ev: OutEvent)
    requires
        st.wf(),
        is_last(ev),
    ensures
        st.frames(ev).len() > 0,
        st.frames(ev).last() == Frame::MessageStop,
        read_frames(st.reader(), st.frames(ev).drop_last()) == Some(
            Reader::Between(st.next(ev).index),
        ),
{
    let at = st.reader();
    let begun = st.start();
    let head = st.start_frames();
    if !st.started {
        lemma_read_one(at, head[0]);
        assert(head =~= seq![head[0]]);
    }
    assert(read_frames(at, head) == Some(begun.reader()));
    lemma_read_close(begun);
    let mid = begun.reader();
    let between = Reader::Between(begun.close().index);
    let shut = begun.close_frames();
    let d = st.frames(ev)[head.len() as int + shut.len()];
    assert(d is MessageDelta || d is Error);
    lemma_read_one(between, d);
    lemma_read_concat(mid, shut, seq![d]);
    lemma_read_concat(at, head, shut + seq![d]);
    assert(st.frames(ev).drop_last() =~= head + (shut + seq![d]));
}

/// Blocks are in order whatever comes: at most one is open at a time, they are numbered without
/// gaps, and each piece comes inside the open block; an event leaves the reader of the blocks
/// where the stream stands.
pub proof fn blocks_stay_in_order(st: StreamView, ev: OutEvent)
    requires
        st.wf(),
    ensures
        st.next(ev).wf(),
        read_blocks(st.block_reader(), st.frames(ev)) == Some(st.next(ev).block_reader()),
        forall|i: int|
            0 <= i < st.frames(ev).len() && #[trigger] st.frames(ev)[i] is MessageStart ==> i == 0
                && !st.started,
{
    events_come_in_order(st, ev);
    assert(st.reader().block() == st.block_reader());
    let frames = st.frames(ev);
    if is_last(ev) {
        lemma_end_between(st, ev);
        lemma_reader_blocks(st.reader(), frames.drop_last());
    } else {
        lemma_reader_blocks(st.reader(), frames);
    }
    lemma_start_once(st, ev);
}

/// Only a stream that has not begun begins, and with its first event.
proof fn lemma_start_once(st: StreamView, ev: OutEvent)
    ensures
        forall|i: int|
            0 <= i < st.frames(ev).len() && #[trigger] st.frames(ev)[i] is MessageStart ==> i == 0
                && !st.started,
{
    match ev {
        OutEvent::ToolCalls(calls) => {
            lemma_calls_start_nothing(st.start().close().index, calls@);
        },
        _ => {},
    }
}

proof fn lemma_calls_start_nothing(index: int, calls: Seq<ParsedToolCall>)
    ensures
        forall|i: int|
            0 <= i < calls_frames(index, calls).len() ==> !(#[trigger] calls_frames(
                index,
                calls,
            )[i] is MessageStart),
    decreases calls.len(),
{
    if calls.len() > 0 {
        lemma_calls_start_nothing(index, calls.drop_last());
        let head = calls_frames(index, calls.drop_last());
        let all = calls_frames(index, calls);
        assert forall|i: int| 0 <= i < all.len() implies !(#[trigger] all[i] is MessageStart) by {
            if i < head.len() {
                assert(all[i] == head[i]);
            }
        }
    }
}

/// The blocks of a whole stream are in order whatever is handed on, behind its end too: at most
/// one is open at a time, they are numbered from zero on without gaps, and each piece comes
/// inside the open block. The message begins once, with the first event.
pub proof fn all_blocks_are_in_order(st: StreamView, evs: Seq<OutEvent>)
    requires
        st.wf(),
        !st.started,
    ensures
        after_events(st, evs).wf(),
        read_blocks(BlockReader::Between(0), all_frames(st, evs)) == Some(
            after_events(st, evs).block_reader(),
        ),
        forall|i: int|
            0 <= i < all_frames(st, evs).len() ==> (#[trigger] all_frames(
                st,
                evs,
            )[i] is MessageStart <==> i == 0),
        evs.len() > 0 ==> after_events(st, evs).started && all_frames(st, evs).len() > 0,
    decreases evs.len(),
{
    if evs.len() > 0 {
        let rest = evs.drop_last();
        all_blocks_are_in_order(st, rest);
        let mid = after_events(st, rest);
        let ev = evs.last();
        events_come_in_order(mid, ev);
        blocks_stay_in_order(mid, ev);
        let head = all_frames(st, rest);
        let more = mid.frames(ev);
        lemma_blocks_concat(BlockReader::Between(0), head, more);
        let all = all_frames(st, evs);
        assert(all == head + more);
        if rest.len() == 0 {
            assert(more[0] is MessageStart);
        }
        assert forall|i: int| 0 <= i < all.len() implies (#[trigger] all[i] is MessageStart <==> i
            == 0) by {
            if i < head.len() {
                assert(all[i] == head[i]);
            } else {
                assert(all[i] == more[i - head.len()]);
            }
        }
    }
}

// ---------------------------------------------------------------------------
// Chunks
// ---------------------------------------------------------------------------

/// A candidate with a text.
pub open spec fn gemini_content(text: Seq<char>) -> JsonView {
    object().with(
        "parts"@,
        array().item(object().with("text"@, JsonView::Str(text))),
    ).with("role"@, JsonView::Str("model"@))
}

/// A chunk with a piece of the answer.
pub open spec fn gemini_text(text: Seq<char>) -> JsonView {
    object().with(
        "candidates"@,
        array().item(
            object().with("content"@, gemini_content(text)).with("index"@, JsonView::Int(0)),
        ),
    )
}

/// The last chunk, with the count of tokens.
pub open spec fn gemini_final(usage: Usage) -> JsonView {
    object().with(
        "candidates"@,
        array().item(
            object().with("content"@, gemini_content(""@)).with(
                "finishReason"@,
                JsonView::Str("STOP"@),
            ).with("index"@, JsonView::Int(0)),
        ),
    ).with(
        "usageMetadata"@,
        object().with("promptTokenCount"@, JsonView::Int(usage.prompt_tokens as int)).with(
            "candidatesTokenCount"@,
            JsonView::Int(usage.completion_tokens as int),
        ).with("totalTokenCount"@, JsonView::Int(usage.total_tokens as int)),
    )
}

fn gemini_content_json(text: &str) -> (r: Json)
    ensures
        r@ == gemini_content(text@),
{
    Json::object().with(
        "parts",
        Json::array().item(Json::object().with("text", Json::str(text))),
    ).with("role", Json::str("model"))
}

/// A chunk with a piece of the answer.
pub fn gemini_text_chunk(text: &str) -> (r: String)
    ensures
        r@ == data_text(gemini_text(text@)),
        one_frame(r@),
{
    let v = Json::object().with(
        "candidates",
        Json::array().item(
            Json::object().with("content", gemini_content_json(text)).with(
                "index",
                Json::integer(0),
            ),
        ),
    );
    sse_data(&v)
}

/// The last chunk, with the count of tokens.
pub fn gemini_final_chunk(usage: &Usage) -> (r: String)
    ensures
        r@ == data_text(gemini_final(*usage)),
        one_frame(r@),
{
    let v = Json::object().with(
        "candidates",
        Json::array().item(
            Json::object().with("content", gemini_content_json("")).with(
                "finishReason",
                Json::str("STOP"),
            ).with("index", Json::integer(0)),
        ),
    ).with(
        "usageMetadata",
        Json::object().with("promptTokenCount", Json::integer(usage.prompt_tokens)).with(
            "candidatesTokenCount",
            Json::integer(usage.completion_tokens),
        ).with("totalTokenCount", Json::integer(usage.total_tokens)),
    );
    sse_data(&v)
}

/// The chunk of a failure.
pub fn gemini_error_chunk(msg: &str) -> (r: String)
    ensures
        r@ == data_text(
            object().with("error"@, object().with("message"@, JsonView::Str(msg@))),
        ),
        one_frame(r@),
{
    let v = Json::object().with("error", Json::object().with("message", Json::str(msg)));
    sse_data(&v)
}

/// The event of a failure and the mark of the end.
pub fn openai_error_sse(msg: &str) -> (r: String)
    ensures
        r@ == data_text(
            object().with(
                "error"@,
                object().with("message"@, JsonView::Str(msg@)).with(
                    "type"@,
                    JsonView::Str("upstream_error"@),
                ),
            ),
        ) + "data: [DONE]\n\n"@,
{
    let v = Json::object().with(
        "error",
        Json::object().with("message", Json::str(msg)).with("type", Json::str("upstream_error")),
    );
    let mut r = sse_data(&v);
    r.append("data: [DONE]\n\n");
    r
}

} // verus!
