//! Requests of the protocol that speaks of contents and parts.

use crate::config::resolve_upstream_model;
use crate::json::{items_view, lemma_items_push, lemma_items_view, object, Json, JsonView};
use crate::json_text::{json_text, json_to_string};
use crate::request::{Models, RequestParts, StandardRequest};
use crate::text::same_text;
use crate::text_set::TextSet;
use crate::toolcall::parse::first_of;
use vstd::prelude::*;

verus! {

/// The text of a part: its text, or a note of a call or of its result.
pub open spec fn part_text(p: JsonView) -> Seq<char> {
    match p.get_str("text"@) {
        Some(t) => t,
        None => match p.get("functionCall"@) {
            Some(call) => "[tool call "@ + json_text(call) + "]"@,
            None => match p.get("functionResponse"@) {
                Some(result) => "[tool result "@ + json_text(result) + "]"@,
                None => Seq::empty(),
            },
        },
    }
}

/// The texts of parts, one behind the other.
pub open spec fn parts_text(parts: Seq<JsonView>) -> Seq<char>
    decreases parts.len(),
{
    if parts.len() == 0 {
        Seq::empty()
    } else {
        parts_text(parts.drop_last()) + part_text(parts.last())
    }
}

/// The items of an array, none where there is no array.
pub open spec fn items_of(v: JsonView, key: Seq<char>) -> Seq<JsonView> {
    match v.get_array(key) {
        Some(a) => a,
        None => Seq::empty(),
    }
}

/// The message that a content is.
pub open spec fn content_message(c: JsonView) -> JsonView {
    object().with(
        "role"@,
        JsonView::Str(
            if c.get_str("role"@) == Some("model"@) {
                "assistant"@
            } else {
                "user"@
            },
        ),
    ).with("content"@, JsonView::Str(parts_text(items_of(c, "parts"@))))
}

/// The messages of a request.
pub open spec fn content_messages(body: JsonView) -> Seq<JsonView> {
    items_of(body, "contents"@).map_values(|c: JsonView| content_message(c))
}

/// The texts of parts, on a line each. A part without a text is left out.
pub open spec fn text_lines(parts: Seq<JsonView>) -> Option<Seq<char>>
    decreases parts.len(),
{
    if parts.len() == 0 {
        None
    } else {
        let head = text_lines(parts.drop_last());
        match parts.last().get_str("text"@) {
            Some(t) => match head {
                Some(h) => Some(h + "\n"@ + t),
                None => Some(t),
            },
            None => head,
        }
    }
}

/// What a request tells the model about its role.
pub open spec fn system_text(body: JsonView) -> Seq<char> {
    match first_of(body.get("systemInstruction"@), body.get("system_instruction"@)) {
        Some(si) => match text_lines(items_of(si, "parts"@)) {
            Some(t) => t,
            None => Seq::empty(),
        },
        None => Seq::empty(),
    }
}

/// The declarations of all tools, one behind the other.
pub open spec fn declarations(tools: Seq<JsonView>) -> Seq<JsonView>
    decreases tools.len(),
{
    if tools.len() == 0 {
        Seq::empty()
    } else {
        declarations(tools.drop_last()) + items_of(tools.last(), "functionDeclarations"@)
    }
}

/// The request in the form of the chat protocols.
pub open spec fn synthetic(body: JsonView) -> JsonView {
    object().with("system"@, JsonView::Str(system_text(body))).with(
        "messages"@,
        JsonView::Array(content_messages(body)),
    ).with("tools"@, JsonView::Array(declarations(items_of(body, "tools"@))))
}

/// Adds the text of a part.
fn append_part(text: &mut String, p: &Json)
    ensures
        final(text)@ == old(text)@ + part_text(p@),
{
    let ghost before = text@;
    match p.get_str("text") {
        Some(t) => {
            text.append(t);
        },
        None => match p.get("functionCall") {
            Some(call) => {
                text.append("[tool call ");
                text.append(json_to_string(call).as_str());
                text.append("]");
            },
            None => match p.get("functionResponse") {
                Some(result) => {
                    text.append("[tool result ");
                    text.append(json_to_string(result).as_str());
                    text.append("]");
                },
                None => {},
            },
        },
    }
    proof {
        assert(text@ =~= before + part_text(p@));
    }
}

/// The texts of parts, one behind the other.
pub fn join_parts(parts: &Vec<Json>) -> (r: String)
    ensures
        r@ == parts_text(items_view(parts@)),
{
    let mut text = String::new();
    let n: usize = parts.len();
    let ghost views = items_view(parts@);
    proof {
        lemma_items_view(parts@);
        assert(text@ =~= parts_text(views.take(0)));
    }
    let mut i: usize = 0;
    while i < n
        invariant
            n == parts@.len(),
            n == views.len(),
            forall|k: int| 0 <= k < n ==> #[trigger] views[k] == parts@[k]@,
            i <= n,
            text@ == parts_text(views.take(i as int)),
        decreases n - i,
    {
        append_part(&mut text, &parts[i]);
        proof {
            assert(views.take(i as int + 1).drop_last() =~= views.take(i as int));
            assert(views.take(i as int + 1).last() == views[i as int]);
        }
        i += 1;
    }
    proof {
        assert(views.take(n as int) =~= views);
    }
    text
}

/// The message that a content is.
pub fn message_of_content(c: &Json) -> (r: Json)
    ensures
        r@ == content_message(c@),
{
    let model = match c.get_str("role") {
        Some(role) => same_text(role, "model"),
        None => false,
    };
    let text = match c.get_array("parts") {
        Some(parts) => join_parts(parts),
        None => {
            let text = String::new();
            proof {
                assert(text@ =~= Seq::empty());
            }
            text
        },
    };
    Json::object().with(
        "role",
        Json::str(
            if model {
                "assistant"
            } else {
                "user"
            },
        ),
    ).with("content", Json::Str(text))
}

fn messages_of_contents(body: &Json) -> (r: Vec<Json>)
    ensures
        items_view(r@) == content_messages(body@),
{
    let mut out: Vec<Json> = Vec::new();
    match body.get_array("contents") {
        Some(contents) => {
            let n: usize = contents.len();
            let ghost views = items_view(contents@);
            proof {
                lemma_items_view(contents@);
            }
            let mut i: usize = 0;
            while i < n
                invariant
                    n == contents@.len(),
                    n == views.len(),
                    forall|k: int| 0 <= k < n ==> #[trigger] views[k] == contents@[k]@,
                    i <= n,
                    items_view(out@).len() == i,
                    forall|k: int|
                        0 <= k < i ==> #[trigger] items_view(out@)[k] == content_message(views[k]),
                decreases n - i,
            {
                let m = message_of_content(&contents[i]);
                proof {
                    lemma_items_push(out@, m);
                }
                out.push(m);
                i += 1;
            }
            proof {
                assert(items_view(out@) =~= content_messages(body@));
            }
        },
        None => {
            proof {
                assert(items_view(out@) =~= content_messages(body@));
            }
        },
    }
    out
}

/// The texts of parts, on a line each.
pub fn join_lines(parts: &Vec<Json>) -> (r: Option<String>)
    ensures
        match r {
            Some(s) => text_lines(items_view(parts@)) == Some(s@),
            None => text_lines(items_view(parts@)) is None,
        },
{
    let mut out: Option<String> = None;
    let n: usize = parts.len();
    let ghost views = items_view(parts@);
    proof {
        lemma_items_view(parts@);
    }
    let mut i: usize = 0;
    while i < n
        invariant
            n == parts@.len(),
            n == views.len(),
            forall|k: int| 0 <= k < n ==> #[trigger] views[k] == parts@[k]@,
            i <= n,
            crate::text::opt_string(out) == text_lines(views.take(i as int)),
        decreases n - i,
    {
        proof {
            assert(views.take(i as int + 1).drop_last() =~= views.take(i as int));
            assert(views.take(i as int + 1).last() == views[i as int]);
        }
        match parts[i].get_str("text") {
            Some(t) => {
                out =
                match out {
                    Some(h) => {
                        let mut h = h;
                        h.append("\n");
                        h.append(t);
                        Some(h)
                    },
                    None => Some(t.to_string()),
                };
            },
            None => {},
        }
        i += 1;
    }
    proof {
        assert(views.take(n as int) =~= views);
    }
    out
}

fn read_system(body: &Json) -> (r: String)
    ensures
        r@ == system_text(body@),
{
    let si = match body.get("systemInstruction") {
        Some(x) => Some(x),
        None => body.get("system_instruction"),
    };
    let text = match si {
        Some(x) => match x.get_array("parts") {
            Some(parts) => join_lines(parts),
            None => None,
        },
        None => None,
    };
    match text {
        Some(t) => t,
        None => {
            let t = String::new();
            proof {
                assert(t@ =~= Seq::empty());
            }
            t
        },
    }
}

/// Adds copies of items.
fn append_copies(out: &mut Vec<Json>, items: &Vec<Json>)
    ensures
        items_view(final(out)@) == items_view(old(out)@) + items_view(items@),
{
    let n: usize = items.len();
    let ghost before = items_view(out@);
    let ghost views = items_view(items@);
    proof {
        lemma_items_view(items@);
        assert(before =~= before + views.take(0));
    }
    let mut i: usize = 0;
    while i < n
        invariant
            n == items@.len(),
            n == views.len(),
            forall|k: int| 0 <= k < n ==> #[trigger] views[k] == items@[k]@,
            i <= n,
            items_view(out@) == before + views.take(i as int),
        decreases n - i,
    {
        let copy = items[i].copy();
        proof {
            lemma_items_push(out@, copy);
        }
        out.push(copy);
        proof {
            assert(items_view(out@) =~= before + views.take(i as int + 1));
        }
        i += 1;
    }
    proof {
        assert(views.take(n as int) =~= views);
    }
}

fn read_declarations(body: &Json) -> (r: Vec<Json>)
    ensures
        items_view(r@) == declarations(items_of(body@, "tools"@)),
{
    let mut out: Vec<Json> = Vec::new();
    match body.get_array("tools") {
        Some(tools) => {
            let n: usize = tools.len();
            let ghost views = items_view(tools@);
            proof {
                lemma_items_view(tools@);
                assert(items_view(out@) =~= declarations(views.take(0)));
            }
            let mut i: usize = 0;
            while i < n
                invariant
                    n == tools@.len(),
                    n == views.len(),
                    forall|k: int| 0 <= k < n ==> #[trigger] views[k] == tools@[k]@,
                    i <= n,
                    items_view(out@) == declarations(views.take(i as int)),
                decreases n - i,
            {
                proof {
                    assert(views.take(i as int + 1).drop_last() =~= views.take(i as int));
                    assert(views.take(i as int + 1).last() == views[i as int]);
                }
                match tools[i].get_array("functionDeclarations") {
                    Some(fds) => {
                        append_copies(&mut out, fds);
                    },
                    None => {
                        proof {
                            assert(items_view(out@) =~= items_view(out@)
                                + Seq::<JsonView>::empty());
                        }
                    },
                }
                i += 1;
            }
            proof {
                assert(views.take(n as int) =~= views);
            }
        },
        None => {
            proof {
                assert(items_view(out@) =~= declarations(Seq::empty()));
            }
        },
    }
    out
}

/// The request in the form of the chat protocols: contents become messages, what the model is
/// told about its role becomes one text, and all declarations of tools one list.
pub fn synthetic_body(body: &Json) -> (r: Json)
    ensures
        r@ == synthetic(body@),
{
    let system = read_system(body);
    let messages = messages_of_contents(body);
    let tools = read_declarations(body);
    Json::object().with("system", Json::Str(system)).with(
        "messages",
        Json::Array(messages),
    ).with("tools", Json::Array(tools))
}

/// A request of this protocol. Whether it streams, its address says: the caller sets it.
pub fn build_gemini_request(model_name: &str, models: &Models, parts: RequestParts) -> (r:
    StandardRequest)
    ensures
        r.takes_over(parts, *models),
        r.response_model@ == model_name@,
        r.prompt@ == parts.built.prompt@,
        !r.stream,
        r.thinking_enabled == (if parts.mode.force_thinking {
            Some(true)
        } else {
            None
        }),
        r.enable_search == (parts.mode.chat_type@ == "deep_research"@),
        r.surface@ == "gemini"@,
        r.max_tokens is None,
{
    let mode = parts.mode;
    let built = parts.built;
    let attach = parts.attachments;
    let resolved = resolve_upstream_model(
        models.aliases,
        models.default_model,
        mode.base_model.as_str(),
    );
    let enable_search = same_text(mode.chat_type.as_str(), "deep_research");
    StandardRequest {
        response_model: model_name.to_string(),
        resolved_model: resolved,
        prompt: built.prompt,
        stream: false,
        thinking_enabled: if mode.force_thinking {
            Some(true)
        } else {
            None
        },
        force_thinking: mode.force_thinking,
        enable_search,
        chat_type: mode.chat_type,
        tools: built.tools,
        tool_names: built.tool_names,
        surface: "gemini".to_string(),
        image_options: None,
        max_tokens: None,
        client_profile: parts.profile,
        files: attach.files,
        bound_account: attach.bound_account,
        caller: None,
        exclude_accounts: TextSet::new(),
    }
}

} // verus!
