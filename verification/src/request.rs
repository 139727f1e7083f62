//! Requests of the different protocols, turned into requests of one kind.

pub mod gemini;
pub mod laws;

use crate::config::{resolve_upstream_model, upstream_model};
use crate::context::AttachmentResult;
use crate::json::{items_view, lemma_items_view, opt_json, Json, JsonView};
use crate::text::{is_blank, lower, lower_text, opt_text, same_text, texts, trimmed};
use crate::text_map::TextMap;
use crate::text_set::TextSet;
use crate::toolcall::parse::first_of;
use crate::toolcall::tools::NormalizedTool;
use crate::upstream::payload::ImageOptions;
use vstd::prelude::*;

verus! {

/// What the name of a model asks for: the model itself, the kind of chat, and whether it has
/// to think.
#[derive(Debug)]
pub struct ModelMode {
    pub base_model: String,
    pub chat_type: String,
    pub force_thinking: bool,
}

/// The prompt that messages were turned into, and the tools that they may use.
#[derive(Debug)]
pub struct BuiltPrompt {
    pub prompt: String,
    pub tools: Vec<NormalizedTool>,
    pub tool_names: Vec<String>,
}

/// A request, whichever protocol it came by.
#[derive(Debug)]
pub struct StandardRequest {
    pub response_model: String,
    pub resolved_model: String,
    pub prompt: String,
    pub stream: bool,
    pub thinking_enabled: Option<bool>,
    pub force_thinking: bool,
    pub enable_search: bool,
    pub chat_type: String,
    pub tools: Vec<NormalizedTool>,
    pub tool_names: Vec<String>,
    pub surface: String,
    pub image_options: Option<ImageOptions>,
    pub max_tokens: Option<i64>,
    pub client_profile: String,
    pub files: Vec<Json>,
    pub bound_account: Option<String>,
    pub caller: Option<String>,
    pub exclude_accounts: TextSet,
}

// ---------------------------------------------------------------------------
// Reading a request
// ---------------------------------------------------------------------------

/// A message of the user.
pub open spec fn from_user(m: JsonView) -> bool {
    m.get_str("role"@) == Some("user"@)
}

/// The last of the all_texts that is a user's and not blank.
pub open spec fn last_text(messages: Seq<JsonView>, contents: Seq<Seq<char>>) -> Option<Seq<char>>
    decreases messages.len(),
{
    if messages.len() == 0 {
        None
    } else {
        let text = contents[messages.len() - 1];
        if from_user(messages.last()) && trimmed(text).len() > 0 {
            Some(text)
        } else {
            last_text(messages.drop_last(), contents)
        }
    }
}

/// The messages of a request.
pub open spec fn messages_of(body: JsonView) -> Seq<JsonView> {
    match body.get_array("messages"@) {
        Some(m) => m,
        None => Seq::empty(),
    }
}

/// The text of the user's last message that has one. `contents` holds the text of each
/// message.
pub fn last_user_text<'a>(body: &Json, contents: &'a Vec<String>) -> (r: Option<&'a str>)
    requires
        contents@.len() == messages_of(body@).len(),
    ensures
        opt_text(r) == last_text(messages_of(body@), texts(contents@)),
{
    match body.get_array("messages") {
        Some(messages) => {
            let ghost views = items_view(messages@);
            let ghost all_texts = texts(contents@);
            proof {
                lemma_items_view(messages@);
                assert(views.take(messages@.len() as int) =~= views);
            }
            let mut n: usize = messages.len();
            while n > 0
                invariant
                    n <= messages@.len(),
                    views == messages_of(body@),
                    messages@.len() == views.len(),
                    messages@.len() == contents@.len(),
                    all_texts == texts(contents@),
                    forall|k: int|
                        0 <= k < messages@.len() ==> #[trigger] views[k] == messages@[k]@,
                    last_text(views, all_texts) == last_text(views.take(n as int), all_texts),
                decreases n,
            {
                proof {
                    assert(views.take(n as int).drop_last() =~= views.take(n as int - 1));
                    assert(views.take(n as int).last() == views[n - 1]);
                    assert(all_texts[n - 1] == contents@[n - 1]@);
                }
                let user = match messages[n - 1].get_str("role") {
                    Some(role) => same_text(role, "user"),
                    None => false,
                };
                if user && !is_blank(contents[n - 1].as_str()) {
                    return Some(contents[n - 1].as_str());
                }
                n -= 1;
            }
            None
        },
        None => None,
    }
}

/// The truth value that a value is meant to be.
pub open spec fn as_bool(v: Option<JsonView>) -> Option<bool> {
    match v {
        Some(JsonView::Bool(b)) => Some(b),
        Some(JsonView::Str(s)) => {
            let l = lower(s);
            if l == "true"@ || l == "1"@ || l == "yes"@ || l == "on"@ {
                Some(true)
            } else if l == "false"@ || l == "0"@ || l == "no"@ || l == "off"@ {
                Some(false)
            } else {
                None
            }
        },
        Some(JsonView::Int(n)) => Some(n != 0 && i64::MIN <= n <= i64::MAX),
        Some(JsonView::Float(_)) => Some(false),
        _ => None,
    }
}

/// The truth value that a value is meant to be: a truth value, a word for one, or a number.
pub fn coerce_bool(v: Option<&Json>) -> (r: Option<bool>)
    ensures
        r == as_bool(opt_json(v)),
{
    match v {
        Some(j) => match j {
            Json::Bool(b) => Some(*b),
            Json::Str(s) => {
                let l = lower_text(s.as_str());
                let l = l.as_str();
                if same_text(l, "true") || same_text(l, "1") || same_text(l, "yes") || same_text(
                    l,
                    "on",
                ) {
                    Some(true)
                } else if same_text(l, "false") || same_text(l, "0") || same_text(l, "no")
                    || same_text(l, "off") {
                    Some(false)
                } else {
                    None
                }
            },
            Json::PosInt(n) => Some(*n != 0 && *n <= i64::MAX as u64),
            Json::NegInt(n) => Some(*n != 0),
            Json::Float(_) => Some(false),
            _ => None,
        },
        None => None,
    }
}

/// Whether a request asks for thinking: by the type of its `thinking`, by one of the fields
/// that switch it, or by an effort.
pub open spec fn thinking_wish(body: JsonView) -> Option<bool> {
    match body.get("thinking"@) {
        Some(JsonView::Object(m)) => match JsonView::Object(m).get_str("type"@) {
            Some(t) => Some(t == "enabled"@),
            None => thinking_switch(body),
        },
        _ => thinking_switch(body),
    }
}

/// Whether a request switches thinking by a field, or asks for it by an effort.
pub open spec fn thinking_switch(body: JsonView) -> Option<bool> {
    match as_bool(body.get("enable_thinking"@)) {
        Some(b) => Some(b),
        None => match as_bool(body.get("thinking"@)) {
            Some(b) => Some(b),
            None => match as_bool(body.get("include_reasoning"@)) {
                Some(b) => Some(b),
                None => match body.get_str("reasoning_effort"@) {
                    Some(e) => Some(e != "none"@),
                    None => None,
                },
            },
        },
    }
}

/// Whether a request asks for thinking, and whether that is because its model has to.
pub fn extract_thinking(body: &Json, force_thinking: bool) -> (r: (Option<bool>, bool))
    ensures
        r == (if force_thinking {
            (Some(true), true)
        } else {
            (thinking_wish(body@), false)
        }),
{
    if force_thinking {
        return (Some(true), true);
    }
    match body.get("thinking") {
        Some(obj) => if obj.is_object() {
            match obj.get_str("type") {
                Some(t) => {
                    return (Some(same_text(t, "enabled")), false);
                },
                None => {},
            }
        },
        None => {},
    }
    match coerce_bool(body.get("enable_thinking")) {
        Some(b) => {
            return (Some(b), false);
        },
        None => {},
    }
    match coerce_bool(body.get("thinking")) {
        Some(b) => {
            return (Some(b), false);
        },
        None => {},
    }
    match coerce_bool(body.get("include_reasoning")) {
        Some(b) => {
            return (Some(b), false);
        },
        None => {},
    }
    match body.get_str("reasoning_effort") {
        Some(e) => (Some(!same_text(e, "none")), false),
        None => (None, false),
    }
}

/// The model that a request names, or the default.
pub open spec fn model_name(body: JsonView, default_model: Seq<char>) -> Seq<char> {
    match body.get_str("model"@) {
        Some(m) => m,
        None => default_model,
    }
}

/// The model that a request names, or the default.
pub fn requested_model(body: &Json, default_model: &str) -> (r: String)
    ensures
        r@ == model_name(body@, default_model@),
{
    match body.get_str("model") {
        Some(m) => m.to_string(),
        None => default_model.to_string(),
    }
}

/// The largest number of tokens that a request allows.
pub open spec fn token_limit(body: JsonView) -> Option<int> {
    match first_of(body.get("max_tokens"@), body.get("max_completion_tokens"@)) {
        Some(v) => v.as_i64(),
        None => None,
    }
}

/// A truth value, or false where there is none.
pub open spec fn or_false(b: Option<bool>) -> bool {
    match b {
        Some(x) => x,
        None => false,
    }
}

fn is_true(b: Option<bool>) -> (r: bool)
    ensures
        r == or_false(b),
{
    match b {
        Some(x) => x,
        None => false,
    }
}

/// The parts that a request is put together from.
#[derive(Debug)]
pub struct RequestParts {
    pub mode: ModelMode,
    pub profile: String,
    pub attachments: AttachmentResult,
    pub built: BuiltPrompt,
}

/// Where the models of the upstream are found.
#[derive(Debug)]
pub struct Models<'a> {
    pub aliases: &'a TextMap,
    pub default_model: &'a str,
}

impl StandardRequest {
    /// What a request takes over from its parts as it is.
    pub open spec fn takes_over(self, parts: RequestParts, models: Models) -> bool {
        &&& self.resolved_model@ == upstream_model(
            models.aliases@,
            models.default_model@,
            parts.mode.base_model@,
        )
        &&& self.force_thinking == parts.mode.force_thinking
        &&& self.chat_type@ == parts.mode.chat_type@
        &&& self.tools == parts.built.tools
        &&& self.tool_names == parts.built.tool_names
        &&& self.client_profile@ == parts.profile@
        &&& self.files == parts.attachments.files
        &&& self.bound_account == parts.attachments.bound_account
        &&& self.image_options is None
        &&& self.caller is None
        &&& self.exclude_accounts@ == Set::<Seq<char>>::empty()
    }
}

/// The prompt of a request: what the user said last where an image or a video is made, else
/// the prompt that the messages were turned into.
pub open spec fn chosen_prompt(
    body: JsonView,
    chat_type: Seq<char>,
    built: Seq<char>,
    contents: Seq<Seq<char>>,
) -> Seq<char> {
    if chat_type == "t2i"@ || chat_type == "t2v"@ {
        match last_text(messages_of(body), contents) {
            Some(text) => text,
            None => built,
        }
    } else {
        built
    }
}

/// Whether a request thinks: as it asks, except that a client of the kind `thinking_profile`
/// that streams messages always gets it.
pub open spec fn chosen_thinking(
    body: JsonView,
    surface: Seq<char>,
    mode: ModelMode,
    profile: Seq<char>,
    thinking_profile: Seq<char>,
) -> Option<bool> {
    if surface == "anthropic"@ && or_false(as_bool(body.get("stream"@))) && mode.chat_type@
        == "t2t"@ && profile == thinking_profile {
        Some(true)
    } else if mode.force_thinking {
        Some(true)
    } else {
        thinking_wish(body)
    }
}

/// A request of a chat protocol. `contents` holds the text of each of its messages;
/// `thinking_profile` is the kind of client that always gets thinking where it streams
/// messages.
pub fn build_openai_request(
    body: &Json,
    surface: &str,
    default_model: &str,
    models: &Models,
    parts: RequestParts,
    contents: &Vec<String>,
    thinking_profile: &str,
) -> (r: StandardRequest)
    requires
        contents@.len() == messages_of(body@).len(),
    ensures
        r.takes_over(parts, *models),
        r.response_model@ == model_name(body@, default_model@),
        r.prompt@ == chosen_prompt(
            body@,
            parts.mode.chat_type@,
            parts.built.prompt@,
            texts(contents@),
        ),
        r.stream == or_false(as_bool(body@.get("stream"@))),
        r.thinking_enabled == chosen_thinking(
            body@,
            surface@,
            parts.mode,
            parts.profile@,
            thinking_profile@,
        ),
        r.enable_search == (parts.mode.chat_type@ == "deep_research"@ || or_false(
            as_bool(body@.get("enable_search"@)),
        )),
        r.surface@ == surface@,
        match r.max_tokens {
            Some(n) => token_limit(body@) == Some(n as int),
            None => token_limit(body@) is None,
        },
{
    let mode = parts.mode;
    let built = parts.built;
    let attach = parts.attachments;
    let chat_type = mode.chat_type.as_str();
    let resolved = resolve_upstream_model(
        models.aliases,
        models.default_model,
        mode.base_model.as_str(),
    );
    let last = if same_text(chat_type, "t2i") || same_text(chat_type, "t2v") {
        last_user_text(body, contents)
    } else {
        None
    };
    let prompt = match last {
        Some(text) => text.to_string(),
        None => built.prompt,
    };
    let (mut thinking_enabled, _forced) = extract_thinking(body, mode.force_thinking);
    let enable_search = same_text(chat_type, "deep_research") || is_true(
        coerce_bool(body.get("enable_search")),
    );
    let stream = is_true(coerce_bool(body.get("stream")));
    if same_text(surface, "anthropic") && stream && same_text(chat_type, "t2t") && same_text(
        parts.profile.as_str(),
        thinking_profile,
    ) {
        thinking_enabled = Some(true);
    }
    let limit = match body.get("max_tokens") {
        Some(v) => Some(v),
        None => body.get("max_completion_tokens"),
    };
    let max_tokens = match limit {
        Some(v) => v.as_i64(),
        None => None,
    };
    StandardRequest {
        response_model: requested_model(body, default_model),
        resolved_model: resolved,
        prompt,
        stream,
        thinking_enabled,
        force_thinking: mode.force_thinking,
        enable_search,
        chat_type: mode.chat_type,
        tools: built.tools,
        tool_names: built.tool_names,
        surface: surface.to_string(),
        image_options: None,
        max_tokens,
        client_profile: parts.profile,
        files: attach.files,
        bound_account: attach.bound_account,
        caller: None,
        exclude_accounts: TextSet::new(),
    }
}

} // verus!
