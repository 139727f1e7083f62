//! The endpoint of responses: its requests as chats, and its answers, whole or as a stream.

use crate::execution::presenter::{event_text, sse_event};
use crate::execution::{OutEvent, Usage};
use crate::ident::{is_hex_text, short_id};
use crate::json::{array, items_view, lemma_items_push, lemma_items_view, object, Json, JsonView};
use crate::text::texts;
use vstd::prelude::*;

verus! {

// ---------------------------------------------------------------------------
// Requests
// ---------------------------------------------------------------------------

/// A value, or another where there is none.
pub open spec fn value_or(v: Option<JsonView>, other: JsonView) -> JsonView {
    match v {
        Some(x) => x,
        None => other,
    }
}

/// The message that an item of the input is.
pub open spec fn input_message(it: JsonView) -> JsonView {
    object().with(
        "role"@,
        JsonView::Str(
            match it.get_str("role"@) {
                Some(r) => r,
                None => "user"@,
            },
        ),
    ).with("content"@, value_or(it.get("content"@), JsonView::Null))
}

/// The messages that the input is: one of the user where it is a text, one for each item where
/// it is a list.
pub open spec fn input_messages(input: Option<JsonView>) -> Seq<JsonView> {
    match input {
        Some(JsonView::Str(s)) => seq![
            object().with("role"@, JsonView::Str("user"@)).with("content"@, JsonView::Str(s)),
        ],
        Some(JsonView::Array(items)) => items.map_values(|it: JsonView| input_message(it)),
        _ => Seq::empty(),
    }
}

/// The chat that a request is.
pub open spec fn chat_body(body: JsonView) -> JsonView {
    object().with("model"@, value_or(body.get("model"@), JsonView::Str("gpt-5"@))).with(
        "system"@,
        value_or(body.get("instructions"@), JsonView::Null),
    ).with("messages"@, JsonView::Array(input_messages(body.get("input"@)))).with(
        "tools"@,
        value_or(body.get("tools"@), array()),
    ).with("stream"@, value_or(body.get("stream"@), JsonView::Bool(false))).with(
        "enable_thinking"@,
        JsonView::Bool(body.get("reasoning"@) is Some),
    )
}

fn copy_or(v: Option<&Json>, other: Json) -> (r: Json)
    ensures
        r@ == value_or(crate::json::opt_json(v), other@),
{
    match v {
        Some(x) => x.copy(),
        None => other,
    }
}

fn message_of_item(it: &Json) -> (r: Json)
    ensures
        r@ == input_message(it@),
{
    let role = match it.get_str("role") {
        Some(r) => r,
        None => "user",
    };
    Json::object().with("role", Json::str(role)).with(
        "content",
        copy_or(it.get("content"), Json::Null),
    )
}

fn messages_of_items(items: &Vec<Json>) -> (r: Vec<Json>)
    ensures
        items_view(r@) == items_view(items@).map_values(|it: JsonView| input_message(it)),
{
    let mut out: Vec<Json> = Vec::new();
    let n: usize = items.len();
    let ghost views = items_view(items@);
    let ghost all = views.map_values(|it: JsonView| input_message(it));
    proof {
        lemma_items_view(items@);
        assert(items_view(out@) =~= all.take(0));
    }
    let mut i: usize = 0;
    while i < n
        invariant
            n == items@.len(),
            n == views.len(),
            all == views.map_values(|it: JsonView| input_message(it)),
            forall|k: int| 0 <= k < n ==> #[trigger] views[k] == items@[k]@,
            i <= n,
            items_view(out@) == all.take(i as int),
        decreases n - i,
    {
        let m = message_of_item(&items[i]);
        proof {
            lemma_items_push(out@, m);
            assert(all[i as int] == input_message(views[i as int]));
        }
        out.push(m);
        proof {
            assert(items_view(out@) =~= all.take(i as int + 1));
        }
        i += 1;
    }
    proof {
        assert(all.take(n as int) =~= all);
    }
    out
}

/// The chat that a request is.
pub fn responses_to_chat_body(body: &Json) -> (r: Json)
    ensures
        r@ == chat_body(body@),
{
    let mut messages: Vec<Json> = Vec::new();
    match body.get("input") {
        Some(input) => match input {
            Json::Str(s) => {
                let m = Json::object().with("role", Json::str("user")).with(
                    "content",
                    Json::str(s.as_str()),
                );
                proof {
                    lemma_items_push(messages@, m);
                }
                messages.push(m);
                proof {
                    assert(items_view(messages@) =~= input_messages(body@.get("input"@)));
                }
            },
            Json::Array(items) => {
                messages = messages_of_items(items);
            },
            _ => {
                proof {
                    assert(items_view(messages@) =~= Seq::empty());
                }
            },
        },
        None => {
            proof {
                assert(items_view(messages@) =~= Seq::empty());
            }
        },
    }
    Json::object().with("model", copy_or(body.get("model"), Json::str("gpt-5"))).with(
        "system",
        copy_or(body.get("instructions"), Json::Null),
    ).with("messages", Json::Array(messages)).with(
        "tools",
        copy_or(body.get("tools"), Json::array()),
    ).with("stream", copy_or(body.get("stream"), Json::Bool(false))).with(
        "enable_thinking",
        Json::Bool(body.get("reasoning").is_some()),
    )
}

// ---------------------------------------------------------------------------
// Answers
// ---------------------------------------------------------------------------

/// A whole answer.
pub open spec fn response_object(
    id: Seq<char>,
    model: Seq<char>,
    text: Seq<char>,
    usage: Usage,
    created_at: int,
    message_id: Seq<char>,
) -> JsonView {
    object().with("id"@, JsonView::Str(id)).with("object"@, JsonView::Str("response"@)).with(
        "created_at"@,
        JsonView::Int(created_at),
    ).with("model"@, JsonView::Str(model)).with("status"@, JsonView::Str("completed"@)).with(
        "output"@,
        array().item(
            object().with("type"@, JsonView::Str("message"@)).with(
                "id"@,
                JsonView::Str(message_id),
            ).with("role"@, JsonView::Str("assistant"@)).with(
                "status"@,
                JsonView::Str("completed"@),
            ).with(
                "content"@,
                array().item(
                    object().with("type"@, JsonView::Str("output_text"@)).with(
                        "text"@,
                        JsonView::Str(text),
                    ).with("annotations"@, array()),
                ),
            ),
        ),
    ).with(
        "usage"@,
        object().with("input_tokens"@, JsonView::Int(usage.prompt_tokens as int)).with(
            "output_tokens"@,
            JsonView::Int(usage.completion_tokens as int),
        ).with("total_tokens"@, JsonView::Int(usage.total_tokens as int)),
    )
}

/// A whole answer, given the time and the identifier of its message.
pub fn build_response_object(
    id: &str,
    model: &str,
    text: &str,
    usage: &Usage,
    created_at: i64,
    message_id: &str,
) -> (r: Json)
    ensures
        r@ == response_object(id@, model@, text@, *usage, created_at as int, message_id@),
{
    let content = Json::object().with("type", Json::str("output_text")).with(
        "text",
        Json::str(text),
    ).with("annotations", Json::array());
    let message = Json::object().with("type", Json::str("message")).with(
        "id",
        Json::str(message_id),
    ).with("role", Json::str("assistant")).with("status", Json::str("completed")).with(
        "content",
        Json::array().item(content),
    );
    Json::object().with("id", Json::str(id)).with("object", Json::str("response")).with(
        "created_at",
        Json::integer(created_at),
    ).with("model", Json::str(model)).with("status", Json::str("completed")).with(
        "output",
        Json::array().item(message),
    ).with(
        "usage",
        Json::object().with("input_tokens", Json::integer(usage.prompt_tokens)).with(
            "output_tokens",
            Json::integer(usage.completion_tokens),
        ).with("total_tokens", Json::integer(usage.total_tokens)),
    )
}

/// A text of a prefix and so many hexadecimal digits.
pub open spec fn is_id(s: Seq<char>, prefix: Seq<char>, n: int) -> bool {
    exists|digits: Seq<char>| #[trigger] is_hex_text(digits, n) && s == prefix + digits
}

/// A fresh identifier of an answer.
pub fn response_id() -> (r: String)
    ensures
        is_id(r@, "resp_"@, 24),
{
    let digits = short_id(24);
    let mut r = "resp_".to_string();
    r.append(digits.as_str());
    r
}

/// A fresh identifier of a message.
pub fn message_id() -> (r: String)
    ensures
        is_id(r@, "msg_"@, 16),
{
    let digits = short_id(16);
    let mut r = "msg_".to_string();
    r.append(digits.as_str());
    r
}

// ---------------------------------------------------------------------------
// Streams
// ---------------------------------------------------------------------------

/// An answer that is still coming in.
#[derive(Debug)]
pub struct ResponseStream {
    pub id: String,
    pub model: String,
    pub text: String,
}

/// An answer that is still coming in, as values.
pub struct ResponseView {
    pub id: Seq<char>,
    pub model: Seq<char>,
    pub text: Seq<char>,
}

impl View for ResponseStream {
    type V = ResponseView;

    open spec fn view(&self) -> ResponseView {
        ResponseView { id: self.id@, model: self.model@, text: self.text@ }
    }
}

impl ResponseView {
    /// The event that a stream begins with.
    pub open spec fn created(self) -> Seq<char> {
        event_text(
            "response.created"@,
            object().with("type"@, JsonView::Str("response.created"@)).with(
                "response"@,
                object().with("id"@, JsonView::Str(self.id)).with(
                    "object"@,
                    JsonView::Str("response"@),
                ).with("model"@, JsonView::Str(self.model)).with(
                    "status"@,
                    JsonView::Str("in_progress"@),
                ),
            ),
        )
    }

    /// The stream behind an event of a completion: it holds the answer so far.
    pub open spec fn next(self, ev: OutEvent) -> ResponseView {
        match ev {
            OutEvent::ContentDelta(c) => ResponseView { text: self.text + c@, ..self },
            _ => self,
        }
    }

    /// The events that an event of a completion brings.
    pub open spec fn events(
        self,
        ev: OutEvent,
        created_at: int,
        message_id: Seq<char>,
    ) -> Seq<Seq<char>> {
        match ev {
            OutEvent::ReasoningDelta(r) => seq![
                event_text(
                    "response.reasoning_text.delta"@,
                    object().with("type"@, JsonView::Str("response.reasoning_text.delta"@)).with(
                        "delta"@,
                        JsonView::Str(r@),
                    ),
                ),
            ],
            OutEvent::ContentDelta(c) => seq![
                event_text(
                    "response.output_text.delta"@,
                    object().with("type"@, JsonView::Str("response.output_text.delta"@)).with(
                        "delta"@,
                        JsonView::Str(c@),
                    ),
                ),
            ],
            OutEvent::Done { usage, .. } => seq![
                event_text(
                    "response.completed"@,
                    object().with("type"@, JsonView::Str("response.completed"@)).with(
                        "response"@,
                        response_object(
                            self.id,
                            self.model,
                            self.text,
                            usage,
                            created_at,
                            message_id,
                        ),
                    ),
                ),
                "data: [DONE]\n\n"@,
            ],
            OutEvent::Error(e) => seq![
                event_text(
                    "error"@,
                    object().with("type"@, JsonView::Str("error"@)).with(
                        "error"@,
                        object().with("message"@, JsonView::Str(e@)),
                    ),
                ),
            ],
            OutEvent::ToolCalls(_) => Seq::empty(),
        }
    }
}

impl ResponseStream {
    /// A stream with nothing in it yet.
    pub fn new(id: &str, model: &str) -> (r: ResponseStream)
        ensures
            r@ == (ResponseView { id: id@, model: model@, text: Seq::empty() }),
    {
        let r = ResponseStream {
            id: id.to_string(),
            model: model.to_string(),
            text: String::new(),
        };
        proof {
            assert(r.text@ =~= Seq::empty());
        }
        r
    }

    /// The event that a stream begins with.
    pub fn created(&self) -> (r: String)
        ensures
            r@ == self@.created(),
    {
        let data = Json::object().with("type", Json::str("response.created")).with(
            "response",
            Json::object().with("id", Json::str(self.id.as_str())).with(
                "object",
                Json::str("response"),
            ).with("model", Json::str(self.model.as_str())).with(
                "status",
                Json::str("in_progress"),
            ),
        );
        sse_event("response.created", &data)
    }

    /// The events that an event of a completion brings, given the time and an identifier for
    /// the message.
    pub fn on_event(&mut self, ev: &OutEvent, created_at: i64, message_id: &str) -> (r: Vec<
        String,
    >)
        ensures
            final(self)@ == old(self)@.next(*ev),
            texts(r@) == old(self)@.events(*ev, created_at as int, message_id@),
    {
        let ghost st = self@;
        let mut out: Vec<String> = Vec::new();
        match ev {
            OutEvent::ReasoningDelta(text) => {
                let data = Json::object().with(
                    "type",
                    Json::str("response.reasoning_text.delta"),
                ).with("delta", Json::str(text.as_str()));
                out.push(sse_event("response.reasoning_text.delta", &data));
            },
            OutEvent::ContentDelta(text) => {
                self.text.append(text.as_str());
                let data = Json::object().with(
                    "type",
                    Json::str("response.output_text.delta"),
                ).with("delta", Json::str(text.as_str()));
                out.push(sse_event("response.output_text.delta", &data));
            },
            OutEvent::Done { usage, .. } => {
                let whole = build_response_object(
                    self.id.as_str(),
                    self.model.as_str(),
                    self.text.as_str(),
                    usage,
                    created_at,
                    message_id,
                );
                let data = Json::object().with("type", Json::str("response.completed")).with(
                    "response",
                    whole,
                );
                out.push(sse_event("response.completed", &data));
                out.push("data: [DONE]\n\n".to_string());
            },
            OutEvent::Error(e) => {
                let data = Json::object().with("type", Json::str("error")).with(
                    "error",
                    Json::object().with("message", Json::str(e.as_str())),
                );
                out.push(sse_event("error", &data));
            },
            OutEvent::ToolCalls(_) => {},
        }
        proof {
            assert(texts(out@) =~= st.events(*ev, created_at as int, message_id@));
        }
        out
    }
}

/// The stream behind a number of events.
pub open spec fn after_all(st: ResponseView, evs: Seq<OutEvent>) -> ResponseView
    decreases evs.len(),
{
    if evs.len() == 0 {
        st
    } else {
        after_all(st, evs.drop_last()).next(evs.last())
    }
}

/// The pieces of the answer among events, one behind the other.
pub open spec fn answer_text(evs: Seq<OutEvent>) -> Seq<char>
    decreases evs.len(),
{
    if evs.len() == 0 {
        Seq::empty()
    } else {
        answer_text(evs.drop_last()) + match evs.last() {
            OutEvent::ContentDelta(c) => c@,
            _ => Seq::empty(),
        }
    }
}

/// The whole answer at the end of a stream is what its pieces were, one behind the other.
pub proof fn completed_text_is_all_pieces(st: ResponseView, evs: Seq<OutEvent>)
    requires
        st.text.len() == 0,
    ensures
        after_all(st, evs).text == answer_text(evs),
        after_all(st, evs).id == st.id,
        after_all(st, evs).model == st.model,
    decreases evs.len(),
{
    if evs.len() > 0 {
        completed_text_is_all_pieces(st, evs.drop_last());
        assert(after_all(st, evs).text =~= answer_text(evs));
    } else {
        assert(st.text =~= Seq::empty());
    }
}

} // verus!
