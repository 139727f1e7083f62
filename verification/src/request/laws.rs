//! What a request comes to, told by the fields that it was sent with.

use crate::json::{opt_json, Json, JsonView};
use crate::json_text::json_text;
use crate::request::gemini::{
    build_gemini_request, content_message, declarations, items_of, message_of_content, part_text,
    parts_text, synthetic_body, system_text, text_lines,
};
use crate::request::{
    as_bool, build_openai_request, coerce_bool, extract_thinking, from_user, last_text, messages_of,
    Models, RequestParts, StandardRequest,
};
use crate::text::{begins_with, lower, stands_at, texts, trimmed};
use crate::text_laws::gathered;
use vstd::prelude::*;

verus! {

// ---------------------------------------------------------------------------
// Truth values
// ---------------------------------------------------------------------------

proof fn lemma_truth_words()
    ensures
        "true"@ != "false"@,
        "true"@ != "0"@,
        "true"@ != "no"@,
        "true"@ != "off"@,
        "1"@ != "false"@,
        "1"@ != "0"@,
        "1"@ != "no"@,
        "1"@ != "off"@,
        "yes"@ != "false"@,
        "yes"@ != "0"@,
        "yes"@ != "no"@,
        "yes"@ != "off"@,
        "on"@ != "false"@,
        "on"@ != "0"@,
        "on"@ != "no"@,
        "on"@ != "off"@,
{
    reveal_strlit("true");
    reveal_strlit("1");
    reveal_strlit("yes");
    reveal_strlit("on");
    reveal_strlit("false");
    reveal_strlit("0");
    reveal_strlit("no");
    reveal_strlit("off");
    assert("true"@.len() == 4);
    assert("1"@.len() == 1 && "1"@[0] == '1');
    assert("yes"@.len() == 3 && "yes"@[0] == 'y');
    assert("on"@.len() == 2 && "on"@[0] == 'o');
    assert("false"@.len() == 5);
    assert("0"@.len() == 1 && "0"@[0] == '0');
    assert("no"@.len() == 2 && "no"@[0] == 'n');
    assert("off"@.len() == 3 && "off"@[0] == 'o');
}

/// A truth value stands for itself; so do the words for one, in capitals or not, and the whole
/// numbers, of which only zero is false. A fraction is false; nothing else is a truth value.
pub proof fn truth_values_are_read(v: Option<&Json>, r: Option<bool>, s: Seq<char>)
    requires
        call_ensures(coerce_bool, (v,), r),
    ensures
        opt_json(v) == Some(JsonView::Bool(true)) ==> r == Some(true),
        opt_json(v) == Some(JsonView::Bool(false)) ==> r == Some(false),
        opt_json(v) == Some(JsonView::Str(s)) && (lower(s) == "true"@ || lower(s) == "1"@ || lower(
            s,
        ) == "yes"@ || lower(s) == "on"@) <==> opt_json(v) == Some(JsonView::Str(s)) && r == Some(
            true,
        ),
        opt_json(v) == Some(JsonView::Str(s)) && (lower(s) == "false"@ || lower(s) == "0"@
            || lower(s) == "no"@ || lower(s) == "off"@) <==> opt_json(v) == Some(JsonView::Str(s))
            && r == Some(false),
        opt_json(v) == Some(JsonView::Int(0)) ==> r == Some(false),
        opt_json(v) matches Some(JsonView::Int(n)) && n != 0 && i64::MIN <= n <= i64::MAX ==> r
            == Some(true),
        opt_json(v) matches Some(JsonView::Float(_)) ==> r == Some(false),
        opt_json(v) matches Some(JsonView::Array(_)) ==> r is None,
        opt_json(v) matches Some(JsonView::Object(_)) ==> r is None,
        opt_json(v) == Some(JsonView::Null) ==> r is None,
        v is None ==> r is None,
{
    lemma_truth_words();
}

// ---------------------------------------------------------------------------
// Thinking
// ---------------------------------------------------------------------------

/// A model that has to think always thinks. Otherwise the type of `thinking` decides before all
/// else, then `enable_thinking`, then `thinking` as a truth value, then `include_reasoning`,
/// and last an effort, which is a wish unless it is none; a request with none of these leaves
/// it open.
pub proof fn thinking_is_asked_for(body: &Json, force: bool, r: (Option<bool>, bool), b: bool)
    requires
        call_ensures(extract_thinking, (body, force), r),
    ensures
        r.1 == force,
        force ==> r.0 == Some(true),
        !force ==> {
            let typed = body@.get("thinking"@) matches Some(t) && (t.get("type"@) matches Some(
                JsonView::Str(_),
            ));
            let switched = as_bool(body@.get("enable_thinking"@)) is Some;
            let thinking = as_bool(body@.get("thinking"@)) is Some;
            let reasoning = as_bool(body@.get("include_reasoning"@)) is Some;
            &&& typed ==> r.0 == Some(
                body@.get("thinking"@)->0.get("type"@) == Some(JsonView::Str("enabled"@)),
            )
            &&& !typed && as_bool(body@.get("enable_thinking"@)) == Some(b) ==> r.0 == Some(b)
            &&& !typed && !switched && as_bool(body@.get("thinking"@)) == Some(b) ==> r.0 == Some(b)
            &&& !typed && !switched && !thinking && as_bool(body@.get("include_reasoning"@))
                == Some(b) ==> r.0 == Some(b)
            &&& !typed && !switched && !thinking && !reasoning && (body@.get(
                "reasoning_effort"@,
            ) matches Some(JsonView::Str(_))) ==> r.0 == Some(
                body@.get("reasoning_effort"@) != Some(JsonView::Str("none"@)),
            )
            &&& !typed && !switched && !thinking && !reasoning && !(body@.get(
                "reasoning_effort"@,
            ) matches Some(JsonView::Str(_))) ==> r.0 is None
        },
{
}

// ---------------------------------------------------------------------------
// What the user said last
// ---------------------------------------------------------------------------

/// The user's last text is the content of the last message that is the user's and not blank:
/// it is some such message's, and none behind it is one.
pub proof fn last_texts_are_the_users(messages: Seq<JsonView>, contents: Seq<Seq<char>>) -> (at:
    int)
    requires
        contents.len() == messages.len(),
    ensures
        match last_text(messages, contents) {
            Some(text) => {
                &&& 0 <= at < messages.len()
                &&& messages[at].get("role"@) == Some(JsonView::Str("user"@))
                &&& trimmed(contents[at]).len() > 0
                &&& text == contents[at]
                &&& forall|k: int|
                    at < k < messages.len() && (#[trigger] messages[k]).get("role"@) == Some(
                        JsonView::Str("user"@),
                    ) ==> trimmed(contents[k]).len() == 0
            },
            None => forall|k: int|
                0 <= k < messages.len() && (#[trigger] messages[k]).get("role"@) == Some(
                    JsonView::Str("user"@),
                ) ==> trimmed(contents[k]).len() == 0,
        },
{
    lemma_last_text(messages, contents)
}

proof fn lemma_last_text(messages: Seq<JsonView>, contents: Seq<Seq<char>>) -> (at: int)
    requires
        contents.len() >= messages.len(),
    ensures
        match last_text(messages, contents) {
            Some(text) => {
                &&& 0 <= at < messages.len()
                &&& messages[at].get("role"@) == Some(JsonView::Str("user"@))
                &&& trimmed(contents[at]).len() > 0
                &&& text == contents[at]
                &&& forall|k: int|
                    at < k < messages.len() && (#[trigger] messages[k]).get("role"@) == Some(
                        JsonView::Str("user"@),
                    ) ==> trimmed(contents[k]).len() == 0
            },
            None => forall|k: int|
                0 <= k < messages.len() && (#[trigger] messages[k]).get("role"@) == Some(
                    JsonView::Str("user"@),
                ) ==> trimmed(contents[k]).len() == 0,
        },
    decreases messages.len(),
{
    if messages.len() == 0 {
        0
    } else {
        let n = messages.len() - 1;
        assert(messages.last() == messages[n]);
        if from_user(messages.last()) && trimmed(contents[n]).len() > 0 {
            n
        } else {
            let rest = messages.drop_last();
            let at = lemma_last_text(rest, contents);
            assert(forall|k: int| 0 <= k < rest.len() ==> rest[k] == #[trigger] messages[k]);
            at
        }
    }
}

// ---------------------------------------------------------------------------
// Requests of the chat protocols
// ---------------------------------------------------------------------------

/// A request searches where it asks for it or its model researches, and nowhere else; it
/// streams where it asks for it; it answers under the name of the model that it names; and it
/// is limited by `max_tokens`, or else by `max_completion_tokens`.
pub proof fn requests_get_what_they_ask_for(
    body: &Json,
    surface: &str,
    default_model: &str,
    models: &Models,
    parts: RequestParts,
    contents: &Vec<String>,
    thinking_profile: &str,
    r: StandardRequest,
    n: int,
)
    requires
        call_ensures(
            build_openai_request,
            (body, surface, default_model, models, parts, contents, thinking_profile),
            r,
        ),
        i64::MIN <= n <= i64::MAX,
    ensures
        parts.mode.chat_type@ == "deep_research"@ ==> r.enable_search,
        parts.mode.chat_type@ != "deep_research"@ ==> (r.enable_search <==> as_bool(
            body@.get("enable_search"@),
        ) == Some(true)),
        r.stream <==> as_bool(body@.get("stream"@)) == Some(true),
        body@.get("model"@) matches Some(JsonView::Str(m)) ==> r.response_model@ == m,
        !(body@.get("model"@) matches Some(JsonView::Str(_))) ==> r.response_model@
            == default_model@,
        body@.get("max_tokens"@) == Some(JsonView::Int(n)) ==> r.max_tokens == Some(n as i64),
        body@.get("max_tokens"@) is None && body@.get("max_completion_tokens"@) == Some(
            JsonView::Int(n),
        ) ==> r.max_tokens == Some(n as i64),
        body@.get("max_tokens"@) is None && body@.get("max_completion_tokens"@) is None
            ==> r.max_tokens is None,
        body@.get("max_tokens"@) matches Some(v) && !(v is Int) ==> r.max_tokens is None,
        r.surface@ == surface@,
        r.chat_type@ == parts.mode.chat_type@,
        r.force_thinking == parts.mode.force_thinking,
        r.client_profile@ == parts.profile@,
        r.tools == parts.built.tools && r.tool_names == parts.built.tool_names,
        r.files == parts.attachments.files,
        r.bound_account == parts.attachments.bound_account,
        r.exclude_accounts@ == Set::<Seq<char>>::empty(),
        r.caller is None && r.image_options is None,
        r.resolved_model@ == crate::config::upstream_model(
            models.aliases@,
            models.default_model@,
            parts.mode.base_model@,
        ),
{
}

/// The prompt is the one that the messages were turned into, unless an image or a video is
/// made: that is made from what the user said last.
pub proof fn pictures_are_made_from_the_last_text(
    body: &Json,
    surface: &str,
    default_model: &str,
    models: &Models,
    parts: RequestParts,
    contents: &Vec<String>,
    thinking_profile: &str,
    r: StandardRequest,
)
    requires
        call_ensures(
            build_openai_request,
            (body, surface, default_model, models, parts, contents, thinking_profile),
            r,
        ),
    ensures
        parts.mode.chat_type@ != "t2i"@ && parts.mode.chat_type@ != "t2v"@ ==> r.prompt@
            == parts.built.prompt@,
        (parts.mode.chat_type@ == "t2i"@ || parts.mode.chat_type@ == "t2v"@) ==> match last_text(
            messages_of(body@),
            texts(contents@),
        ) {
            Some(text) => r.prompt@ == text,
            None => r.prompt@ == parts.built.prompt@,
        },
        body@.get("messages"@) matches Some(JsonView::Array(m)) ==> messages_of(body@) == m,
{
}

/// A client of the kind that always gets thinking gets it where it streams messages of a plain
/// chat, and so does a model that has to think; all others get what they wish.
pub proof fn thinking_is_given(
    body: &Json,
    surface: &str,
    default_model: &str,
    models: &Models,
    parts: RequestParts,
    contents: &Vec<String>,
    thinking_profile: &str,
    r: StandardRequest,
)
    requires
        call_ensures(
            build_openai_request,
            (body, surface, default_model, models, parts, contents, thinking_profile),
            r,
        ),
    ensures
        ({
            let always = surface@ == "anthropic"@ && r.stream && parts.mode.chat_type@ == "t2t"@
                && parts.profile@ == thinking_profile@;
            &&& always || parts.mode.force_thinking ==> r.thinking_enabled == Some(true)
            &&& !always && !parts.mode.force_thinking ==> forall|w: (Option<bool>, bool)| #[trigger]
                call_ensures(extract_thinking, (body, false), w) ==> r.thinking_enabled == w.0
        }),
{
}

// ---------------------------------------------------------------------------
// Contents and parts
// ---------------------------------------------------------------------------

proof fn lemma_message_fields()
    ensures
        "role"@ != "content"@,
        "system"@ != "messages"@,
        "system"@ != "tools"@,
        "messages"@ != "tools"@,
        "assistant"@ != "user"@,
        "user"@ != "model"@,
{
    reveal_strlit("role");
    reveal_strlit("content");
    reveal_strlit("system");
    reveal_strlit("messages");
    reveal_strlit("tools");
    reveal_strlit("assistant");
    reveal_strlit("user");
    reveal_strlit("model");
    assert("role"@.len() == 4 && "role"@[0] == 'r');
    assert("content"@.len() == 7);
    assert("system"@.len() == 6);
    assert("messages"@.len() == 8);
    assert("tools"@.len() == 5 && "tools"@[0] == 't');
    assert("assistant"@.len() == 9);
    assert("user"@.len() == 4 && "user"@[0] == 'u');
    assert("model"@.len() == 5 && "model"@[0] == 'm');
}

/// A content is the assistant's exactly where its role is the model's, and otherwise the
/// user's; its text is that of its parts, one behind the other.
pub proof fn roles_carry_over(c: &Json, m: Json)
    requires
        call_ensures(message_of_content, (c,), m),
    ensures
        m@.get("role"@) == Some(JsonView::Str("assistant"@)) <==> c@.get("role"@) == Some(
            JsonView::Str("model"@),
        ),
        c@.get("role"@) != Some(JsonView::Str("model"@)) ==> m@.get("role"@) == Some(
            JsonView::Str("user"@),
        ),
        c@.get("role"@) == Some(JsonView::Str("user"@)) ==> m@.get("role"@) == Some(
            JsonView::Str("user"@),
        ),
        c@.get("parts"@) matches Some(JsonView::Array(parts)) ==> m@.get("content"@) == Some(
            JsonView::Str(gathered(parts, |p: JsonView| part_text(p))),
        ),
        !(c@.get("parts"@) matches Some(JsonView::Array(_))) ==> m@.get("content"@) == Some(
            JsonView::Str(Seq::empty()),
        ),
{
    lemma_message_fields();
    lemma_parts_text(items_of(c@, "parts"@));
}

proof fn lemma_parts_text(parts: Seq<JsonView>)
    ensures
        parts_text(parts) == gathered(parts, |p: JsonView| part_text(p)),
    decreases parts.len(),
{
    if parts.len() > 0 {
        lemma_parts_text(parts.drop_last());
    }
}

/// A part with a text is that text; a call and a result are noted with the whole of their JSON;
/// any other part says nothing.
pub proof fn parts_say_what_they_hold(p: JsonView, t: Seq<char>, v: JsonView)
    ensures
        p.get("text"@) == Some(JsonView::Str(t)) ==> part_text(p) == t,
        !(p.get("text"@) matches Some(JsonView::Str(_))) && p.get("functionCall"@) == Some(v) ==> {
            &&& begins_with(part_text(p), "[tool call "@)
            &&& stands_at(part_text(p), json_text(v), 11)
            &&& part_text(p).len() == json_text(v).len() + 12
        },
        !(p.get("text"@) matches Some(JsonView::Str(_))) && p.get("functionCall"@) is None && p.get(
            "functionResponse"@,
        ) == Some(v) ==> {
            &&& begins_with(part_text(p), "[tool result "@)
            &&& stands_at(part_text(p), json_text(v), 13)
            &&& part_text(p).len() == json_text(v).len() + 14
        },
        p.get("text"@) is None && p.get("functionCall"@) is None && p.get("functionResponse"@)
            is None ==> part_text(p).len() == 0,
{
    reveal_strlit("[tool call ");
    reveal_strlit("[tool result ");
    reveal_strlit("]");
    let j = json_text(v);
    let call = "[tool call "@ + j + "]"@;
    assert(call.subrange(0, 11) =~= "[tool call "@);
    assert(call.subrange(11, 11 + j.len() as int) =~= j);
    let result = "[tool result "@ + j + "]"@;
    assert(result.subrange(0, 13) =~= "[tool result "@);
    assert(result.subrange(13, 13 + j.len() as int) =~= j);
}

/// Every content is a message, in its place; all declarations of all tools stand in one list,
/// in order; and what the model is told about its role is the texts of its parts, a line each.
pub proof fn contents_become_messages(body: &Json, r: Json, i: int)
    requires
        call_ensures(synthetic_body, (body,), r),
    ensures
        r@.get("messages"@) matches Some(JsonView::Array(messages)) && {
            &&& body@.get("contents"@) matches Some(JsonView::Array(contents)) ==> {
                &&& messages.len() == contents.len()
                &&& 0 <= i < contents.len() ==> messages[i] == content_message(contents[i])
            }
            &&& !(body@.get("contents"@) matches Some(JsonView::Array(_))) ==> messages.len() == 0
        },
        r@.get("tools"@) matches Some(JsonView::Array(tools)) && {
            &&& body@.get("tools"@) matches Some(JsonView::Array(given)) ==> tools == gathered(
                given,
                |t: JsonView| items_of(t, "functionDeclarations"@),
            )
            &&& !(body@.get("tools"@) matches Some(JsonView::Array(_))) ==> tools.len() == 0
        },
        r@.get("system"@) == Some(JsonView::Str(system_text(body@))),
{
    lemma_message_fields();
    lemma_declarations(items_of(body@, "tools"@));
}

proof fn lemma_declarations(tools: Seq<JsonView>)
    ensures
        declarations(tools) == gathered(
            tools,
            |t: JsonView| items_of(t, "functionDeclarations"@),
        ),
    decreases tools.len(),
{
    if tools.len() > 0 {
        lemma_declarations(tools.drop_last());
    }
}

/// What the model is told about its role stands under `systemInstruction`, or else under
/// `system_instruction`: where it has no part with a text it is nothing; a part with a text
/// adds a line, and any other part adds nothing.
pub proof fn instructions_are_read_line_by_line(
    body: JsonView,
    si: JsonView,
    parts: Seq<JsonView>,
    t: Seq<char>,
)
    requires
        body.get("systemInstruction"@) == Some(si) || (body.get("systemInstruction"@) is None
            && body.get("system_instruction"@) == Some(si)),
        si.get("parts"@) == Some(JsonView::Array(parts)),
    ensures
        text_lines(parts) matches Some(lines) ==> system_text(body) == lines,
        (forall|k: int|
            0 <= k < parts.len() ==> !((#[trigger] parts[k]).get("text"@) matches Some(
                JsonView::Str(_),
            ))) ==> system_text(body).len() == 0,
        parts.len() > 0 && parts.last().get("text"@) == Some(JsonView::Str(t)) ==> match text_lines(
            parts.drop_last(),
        ) {
            Some(lines) => system_text(body) == lines + seq!['\n'] + t,
            None => system_text(body) == t,
        },
        parts.len() > 0 && !(parts.last().get("text"@) matches Some(JsonView::Str(_)))
            ==> text_lines(parts) == text_lines(parts.drop_last()),
{
    reveal_strlit("\n");
    assert("\n"@ =~= seq!['\n']);
    if forall|k: int|
        0 <= k < parts.len() ==> !((#[trigger] parts[k]).get("text"@) matches Some(
            JsonView::Str(_),
        )) {
        lemma_no_lines(parts);
    }
}

proof fn lemma_no_lines(parts: Seq<JsonView>)
    requires
        forall|k: int|
            0 <= k < parts.len() ==> !((#[trigger] parts[k]).get("text"@) matches Some(
                JsonView::Str(_),
            )),
    ensures
        text_lines(parts) is None,
    decreases parts.len(),
{
    if parts.len() > 0 {
        let rest = parts.drop_last();
        assert(forall|k: int| 0 <= k < rest.len() ==> #[trigger] rest[k] == parts[k]);
        assert(parts.last() == parts[parts.len() - 1]);
        lemma_no_lines(rest);
    }
}

/// A request of this protocol is for the model in its address, searches exactly where its model
/// researches, and thinks where its model has to.
pub proof fn gemini_requests_follow_their_model(
    model_name: &str,
    models: &Models,
    parts: RequestParts,
    r: StandardRequest,
)
    requires
        call_ensures(build_gemini_request, (model_name, models, parts), r),
    ensures
        r.response_model@ == model_name@,
        r.prompt@ == parts.built.prompt@,
        r.enable_search <==> parts.mode.chat_type@ == "deep_research"@,
        parts.mode.force_thinking ==> r.thinking_enabled == Some(true),
        !parts.mode.force_thinking ==> r.thinking_enabled is None,
        r.max_tokens is None && !r.stream,
        r.surface@ == "gemini"@,
        r.files == parts.attachments.files,
        r.bound_account == parts.attachments.bound_account,
        r.tools == parts.built.tools && r.tool_names == parts.built.tool_names,
        r.chat_type@ == parts.mode.chat_type@,
        r.client_profile@ == parts.profile@,
        r.force_thinking == parts.mode.force_thinking,
        r.resolved_model@ == crate::config::upstream_model(
            models.aliases@,
            models.default_model@,
            parts.mode.base_model@,
        ),
{
}

} // verus!
