//! The body of a request for a completion.

use crate::ident::{uuid4, uuid_of};
use crate::json::{array, copy_items, items_view, object, Json, JsonView};
use crate::text::{opt_string, same_text};
use vstd::prelude::*;

verus! {

/// What an image should look like.
#[derive(Debug, Clone)]
pub struct ImageOptions {
    pub size: Option<String>,
    pub ratio: Option<String>,
    pub width: Option<i64>,
    pub height: Option<i64>,
}

/// What a request for a completion is made from.
#[derive(Debug)]
pub struct BuildPayloadArgs<'a> {
    pub chat_id: &'a str,
    pub model: &'a str,
    pub content: &'a str,
    pub has_custom_tools: bool,
    pub files: Vec<Json>,
    pub chat_type: &'a str,
    pub image_options: Option<ImageOptions>,
    pub thinking_enabled: Option<bool>,
    pub enable_search: bool,
}

impl Default for ImageOptions {
    /// No wishes.
    fn default() -> (r: ImageOptions)
        ensures
            r.size is None,
            r.ratio is None,
            r.width is None,
            r.height is None,
    {
        ImageOptions { size: None, ratio: None, width: None, height: None }
    }
}

// ---------------------------------------------------------------------------
// What the body says
// ---------------------------------------------------------------------------

/// The size of an image, where one is wished for.
pub open spec fn image_size(o: Option<ImageOptions>) -> Option<Seq<char>> {
    match o {
        Some(i) => opt_string(i.size),
        None => None,
    }
}

/// The ratio of an image's sides, where one is wished for.
pub open spec fn image_ratio(o: Option<ImageOptions>) -> Option<Seq<char>> {
    match o {
        Some(i) => opt_string(i.ratio),
        None => None,
    }
}

/// The width of an image, where one is wished for.
pub open spec fn image_width(o: Option<ImageOptions>) -> Option<i64> {
    match o {
        Some(i) => i.width,
        None => None,
    }
}

/// The height of an image, where one is wished for.
pub open spec fn image_height(o: Option<ImageOptions>) -> Option<i64> {
    match o {
        Some(i) => i.height,
        None => None,
    }
}

/// An object with a text set where there is one.
pub open spec fn with_text(j: JsonView, key: Seq<char>, s: Option<Seq<char>>) -> JsonView {
    match s {
        Some(x) => j.with(key, JsonView::Str(x)),
        None => j,
    }
}

/// An object with a number set where there is one.
pub open spec fn with_number(j: JsonView, key: Seq<char>, n: Option<i64>) -> JsonView {
    match n {
        Some(x) => j.with(key, JsonView::Int(x as int)),
        None => j,
    }
}

/// A kind of chat that makes images.
pub open spec fn makes_images(chat_type: Seq<char>) -> bool {
    chat_type == "image_gen"@ || chat_type == "t2i"@
}

/// A kind of chat that makes videos.
pub open spec fn makes_videos(chat_type: Seq<char>) -> bool {
    chat_type == "t2v"@
}

/// The features with thinking switched on or off.
pub open spec fn with_thinking(fc: JsonView, enabled: bool) -> JsonView {
    fc.with("thinking_enabled"@, JsonView::Bool(enabled)).with(
        "auto_thinking"@,
        JsonView::Bool(enabled),
    ).with(
        "thinking_mode"@,
        JsonView::Str(
            if enabled {
                "Auto"@
            } else {
                "Disabled"@
            },
        ),
    )
}

/// The features before any wish.
pub open spec fn base_features(images: bool, search: bool) -> JsonView {
    object().with("thinking_enabled"@, JsonView::Bool(true)).with(
        "output_schema"@,
        JsonView::Str("phase"@),
    ).with("research_mode"@, JsonView::Str("normal"@)).with(
        "auto_thinking"@,
        JsonView::Bool(true),
    ).with("thinking_mode"@, JsonView::Str("Auto"@)).with(
        "thinking_format"@,
        JsonView::Str("summary"@),
    ).with("code_interpreter"@, JsonView::Bool(false)).with(
        "function_calling"@,
        JsonView::Bool(false),
    ).with("enable_tools"@, JsonView::Bool(false)).with(
        "enable_function_call"@,
        JsonView::Bool(false),
    ).with("tool_choice"@, JsonView::Str("none"@)).with(
        "auto_search"@,
        JsonView::Bool(search),
    ).with("plugins_enabled"@, JsonView::Bool(images)).with(
        "image_gen"@,
        JsonView::Bool(images),
    ).with("image_generation"@, JsonView::Bool(images))
}

/// The features: thinking as it is wished for, but never where an image or a video is made;
/// the look of an image where one is made.
pub open spec fn feature_config(args: BuildPayloadArgs) -> JsonView {
    let images = makes_images(args.chat_type@);
    let o = args.image_options;
    let base = base_features(
        images,
        args.enable_search || args.chat_type@ == "deep_research"@,
    );
    let wished = match args.thinking_enabled {
        Some(t) => with_thinking(base, t),
        None => base,
    };
    let fc = if images || makes_videos(args.chat_type@) {
        with_thinking(wished, false)
    } else {
        wished
    };
    if images {
        with_number(
            with_number(
                with_text(
                    with_text(
                        with_text(fc, "image_size"@, image_size(o)),
                        "image_ratio"@,
                        image_ratio(o),
                    ),
                    "aspect_ratio"@,
                    image_ratio(o),
                ),
                "width"@,
                image_width(o),
            ),
            "height"@,
            image_height(o),
        )
    } else {
        fc
    }
}

/// What is told besides: the kind of chat, and the look of an image where one is made.
pub open spec fn extra_meta(args: BuildPayloadArgs) -> JsonView {
    let o = args.image_options;
    let meta = object().with("subChatType"@, JsonView::Str(args.chat_type@));
    if makes_images(args.chat_type@) {
        with_number(
            with_number(
                with_text(
                    with_text(
                        with_text(meta, "imageSize"@, image_size(o)),
                        "imageRatio"@,
                        image_ratio(o),
                    ),
                    "aspectRatio"@,
                    image_ratio(o),
                ),
                "width"@,
                image_width(o),
            ),
            "height"@,
            image_height(o),
        )
    } else {
        meta
    }
}

/// The size of an image or a video: the ratio of its sides.
pub open spec fn media_size(args: BuildPayloadArgs) -> Option<Seq<char>> {
    if makes_images(args.chat_type@) || makes_videos(args.chat_type@) {
        match image_ratio(args.image_options) {
            Some(r) => Some(r),
            None => Some("1:1"@),
        }
    } else {
        None
    }
}

/// The message of a request.
pub open spec fn payload_message(
    args: BuildPayloadArgs,
    ts: int,
    fid: Seq<char>,
    child: Seq<char>,
) -> JsonView {
    with_text(
        object().with("fid"@, JsonView::Str(fid)).with("parentId"@, JsonView::Null).with(
            "childrenIds"@,
            array().item(JsonView::Str(child)),
        ).with("role"@, JsonView::Str("user"@)).with(
            "content"@,
            JsonView::Str(args.content@),
        ).with("user_action"@, JsonView::Str("chat"@)).with(
            "files"@,
            JsonView::Array(items_view(args.files@)),
        ).with("timestamp"@, JsonView::Int(ts)).with(
            "models"@,
            array().item(JsonView::Str(args.model@)),
        ).with("chat_type"@, JsonView::Str(args.chat_type@)).with(
            "feature_config"@,
            feature_config(args),
        ).with("extra"@, object().with("meta"@, extra_meta(args))).with(
            "sub_chat_type"@,
            JsonView::Str(args.chat_type@),
        ).with("parent_id"@, JsonView::Null),
        "size"@,
        media_size(args),
    )
}

/// The body of a request.
pub open spec fn chat_payload(
    args: BuildPayloadArgs,
    ts: int,
    fid: Seq<char>,
    child: Seq<char>,
) -> JsonView {
    with_text(
        object().with("stream"@, JsonView::Bool(true)).with(
            "version"@,
            JsonView::Str("2.1"@),
        ).with("incremental_output"@, JsonView::Bool(true)).with(
            "chat_id"@,
            JsonView::Str(args.chat_id@),
        ).with("chat_mode"@, JsonView::Str("normal"@)).with(
            "model"@,
            JsonView::Str(args.model@),
        ).with("parent_id"@, JsonView::Null).with(
            "messages"@,
            array().item(payload_message(args, ts, fid, child)),
        ).with("timestamp"@, JsonView::Int(ts)),
        "size"@,
        media_size(args),
    )
}

// ---------------------------------------------------------------------------
// Building the body
// ---------------------------------------------------------------------------

fn set_text(j: Json, key: &str, s: Option<&str>) -> (r: Json)
    ensures
        r@ == with_text(j@, key@, crate::text::opt_text(s)),
{
    match s {
        Some(x) => j.with(key, Json::str(x)),
        None => j,
    }
}

fn set_number(j: Json, key: &str, n: Option<i64>) -> (r: Json)
    ensures
        r@ == with_number(j@, key@, n),
{
    match n {
        Some(x) => j.with(key, Json::integer(x)),
        None => j,
    }
}

fn option_str(s: &Option<String>) -> (r: Option<&str>)
    ensures
        crate::text::opt_text(r) == opt_string(*s),
{
    match s {
        Some(x) => Some(x.as_str()),
        None => None,
    }
}

/// The features with thinking switched on or off.
fn apply_thinking(fc: Json, enabled: bool) -> (r: Json)
    ensures
        r@ == with_thinking(fc@, enabled),
{
    fc.with("thinking_enabled", Json::Bool(enabled)).with(
        "auto_thinking",
        Json::Bool(enabled),
    ).with(
        "thinking_mode",
        Json::str(
            if enabled {
                "Auto"
            } else {
                "Disabled"
            },
        ),
    )
}

fn is_image_chat(chat_type: &str) -> (r: bool)
    ensures
        r == makes_images(chat_type@),
{
    same_text(chat_type, "image_gen") || same_text(chat_type, "t2i")
}

fn size_of_options(o: &Option<ImageOptions>) -> (r: Option<&str>)
    ensures
        crate::text::opt_text(r) == image_size(*o),
{
    match o {
        Some(i) => option_str(&i.size),
        None => None,
    }
}

fn ratio_of_options(o: &Option<ImageOptions>) -> (r: Option<&str>)
    ensures
        crate::text::opt_text(r) == image_ratio(*o),
{
    match o {
        Some(i) => option_str(&i.ratio),
        None => None,
    }
}

fn width_of_options(o: &Option<ImageOptions>) -> (r: Option<i64>)
    ensures
        r == image_width(*o),
{
    match o {
        Some(i) => i.width,
        None => None,
    }
}

fn height_of_options(o: &Option<ImageOptions>) -> (r: Option<i64>)
    ensures
        r == image_height(*o),
{
    match o {
        Some(i) => i.height,
        None => None,
    }
}

/// The features.
fn build_features(args: &BuildPayloadArgs) -> (r: Json)
    ensures
        r@ == feature_config(*args),
{
    let images = is_image_chat(args.chat_type);
    let videos = same_text(args.chat_type, "t2v");
    let o = &args.image_options;
    let search = args.enable_search || same_text(args.chat_type, "deep_research");
    let mut fc = Json::object().with("thinking_enabled", Json::Bool(true)).with(
        "output_schema",
        Json::str("phase"),
    ).with("research_mode", Json::str("normal")).with("auto_thinking", Json::Bool(true)).with(
        "thinking_mode",
        Json::str("Auto"),
    ).with("thinking_format", Json::str("summary")).with(
        "code_interpreter",
        Json::Bool(false),
    ).with("function_calling", Json::Bool(false)).with("enable_tools", Json::Bool(false)).with(
        "enable_function_call",
        Json::Bool(false),
    ).with("tool_choice", Json::str("none")).with("auto_search", Json::Bool(search)).with(
        "plugins_enabled",
        Json::Bool(images),
    ).with("image_gen", Json::Bool(images)).with("image_generation", Json::Bool(images));
    match args.thinking_enabled {
        Some(t) => {
            fc = apply_thinking(fc, t);
        },
        None => {},
    }
    if images || videos {
        fc = apply_thinking(fc, false);
    }
    if images {
        fc = set_text(fc, "image_size", size_of_options(o));
        fc = set_text(fc, "image_ratio", ratio_of_options(o));
        fc = set_text(fc, "aspect_ratio", ratio_of_options(o));
        fc = set_number(fc, "width", width_of_options(o));
        fc = set_number(fc, "height", height_of_options(o));
    }
    fc
}

/// What is told besides.
fn build_meta(args: &BuildPayloadArgs) -> (r: Json)
    ensures
        r@ == extra_meta(*args),
{
    let o = &args.image_options;
    let mut meta = Json::object().with("subChatType", Json::str(args.chat_type));
    if is_image_chat(args.chat_type) {
        meta = set_text(meta, "imageSize", size_of_options(o));
        meta = set_text(meta, "imageRatio", ratio_of_options(o));
        meta = set_text(meta, "aspectRatio", ratio_of_options(o));
        meta = set_number(meta, "width", width_of_options(o));
        meta = set_number(meta, "height", height_of_options(o));
    }
    meta
}

/// The body of a request made at the time `ts`, with the identifiers of its message and of
/// the answer to come.
pub fn build_payload_with(args: &BuildPayloadArgs, ts: i64, fid: &str, child: &str) -> (r: Json)
    ensures
        r@ == chat_payload(*args, ts as int, fid@, child@),
{
    let media = is_image_chat(args.chat_type) || same_text(args.chat_type, "t2v");
    let size = if media {
        match ratio_of_options(&args.image_options) {
            Some(r) => Some(r),
            None => Some("1:1"),
        }
    } else {
        None
    };
    let message = Json::object().with("fid", Json::str(fid)).with("parentId", Json::Null).with(
        "childrenIds",
        Json::array().item(Json::str(child)),
    ).with("role", Json::str("user")).with("content", Json::str(args.content)).with(
        "user_action",
        Json::str("chat"),
    ).with("files", Json::Array(copy_items(&args.files))).with(
        "timestamp",
        Json::integer(ts),
    ).with("models", Json::array().item(Json::str(args.model))).with(
        "chat_type",
        Json::str(args.chat_type),
    ).with("feature_config", build_features(args)).with(
        "extra",
        Json::object().with("meta", build_meta(args)),
    ).with("sub_chat_type", Json::str(args.chat_type)).with("parent_id", Json::Null);
    let message = set_text(message, "size", size);
    let payload = Json::object().with("stream", Json::Bool(true)).with(
        "version",
        Json::str("2.1"),
    ).with("incremental_output", Json::Bool(true)).with(
        "chat_id",
        Json::str(args.chat_id),
    ).with("chat_mode", Json::str("normal")).with("model", Json::str(args.model)).with(
        "parent_id",
        Json::Null,
    ).with("messages", Json::array().item(message)).with("timestamp", Json::integer(ts));
    set_text(payload, "size", size)
}

/// The body of a request made at the time `ts`, with fresh identifiers.
pub fn build_chat_payload(args: &BuildPayloadArgs, ts: i64) -> (r: Json)
    ensures
        exists|a: u64, b: u64, c: u64, d: u64|
            r@ == chat_payload(
                *args,
                ts as int,
                #[trigger] uuid_of(a as int, b as int),
                #[trigger] uuid_of(c as int, d as int),
            ),
{
    let fid = uuid4();
    let child = uuid4();
    let r = build_payload_with(args, ts, fid.as_str(), child.as_str());
    proof {
        let (a, b) = choose|a: u64, b: u64| fid@ == #[trigger] uuid_of(a as int, b as int);
        let (c, d) = choose|c: u64, d: u64| child@ == #[trigger] uuid_of(c as int, d as int);
        assert(r@ == chat_payload(
            *args,
            ts as int,
            uuid_of(a as int, b as int),
            uuid_of(c as int, d as int),
        ));
    }
    r
}

// ---------------------------------------------------------------------------
// What holds of every body
// ---------------------------------------------------------------------------

/// The upstream's own tools are always off: whatever is asked for, no request lets the
/// upstream call functions, so that a call described in words is never taken away.
pub proof fn native_tools_are_off(args: BuildPayloadArgs)
    ensures
        feature_config(args).get("function_calling"@) == Some(JsonView::Bool(false)),
        feature_config(args).get("enable_tools"@) == Some(JsonView::Bool(false)),
        feature_config(args).get("enable_function_call"@) == Some(JsonView::Bool(false)),
        feature_config(args).get("tool_choice"@) == Some(JsonView::Str("none"@)),
        feature_config(args).get("code_interpreter"@) == Some(JsonView::Bool(false)),
{
    lemma_names_differ();
}

/// A request thinks: as it is asked for, and on where nothing is asked, but never about an image
/// or a video.
pub open spec fn thinks(args: BuildPayloadArgs) -> bool {
    if makes_images(args.chat_type@) || makes_videos(args.chat_type@) {
        false
    } else {
        match args.thinking_enabled {
            Some(t) => t,
            None => true,
        }
    }
}

/// Nothing thinks about an image or a video, even where thinking is asked for; elsewhere it
/// is as it is asked for, and on where nothing is asked. The three switches of thinking agree.
pub proof fn thinking_follows_the_wish(args: BuildPayloadArgs)
    ensures
        feature_config(args).get("thinking_enabled"@) == Some(JsonView::Bool(thinks(args))),
        feature_config(args).get("auto_thinking"@) == Some(JsonView::Bool(thinks(args))),
        feature_config(args).get("thinking_mode"@) == Some(
            JsonView::Str(
                if thinks(args) {
                    "Auto"@
                } else {
                    "Disabled"@
                },
            ),
        ),
{
    lemma_names_differ();
}

/// The names of the features, told apart by their lengths and their first letters.
pub proof fn lemma_names_differ()
    ensures
        "function_calling"@.len() == 16 && "function_calling"@[0] == 'f',
        "enable_tools"@.len() == 12 && "enable_tools"@[0] == 'e',
        "enable_function_call"@.len() == 20 && "enable_function_call"@[0] == 'e',
        "tool_choice"@.len() == 11 && "tool_choice"@[0] == 't',
        "auto_search"@.len() == 11 && "auto_search"@[0] == 'a',
        "plugins_enabled"@.len() == 15 && "plugins_enabled"@[0] == 'p',
        "image_gen"@.len() == 9 && "image_gen"@[0] == 'i',
        "image_generation"@.len() == 16 && "image_generation"@[0] == 'i',
        "thinking_enabled"@.len() == 16 && "thinking_enabled"@[0] == 't',
        "auto_thinking"@.len() == 13 && "auto_thinking"@[0] == 'a',
        "thinking_mode"@.len() == 13 && "thinking_mode"@[0] == 't',
        "image_size"@.len() == 10 && "image_size"@[0] == 'i',
        "image_ratio"@.len() == 11 && "image_ratio"@[0] == 'i',
        "aspect_ratio"@.len() == 12 && "aspect_ratio"@[0] == 'a',
        "width"@.len() == 5 && "width"@[0] == 'w',
        "output_schema"@.len() == 13 && "output_schema"@[0] == 'o',
        "research_mode"@.len() == 13 && "research_mode"@[0] == 'r',
        "thinking_format"@.len() == 15 && "thinking_format"@[0] == 't',
        "code_interpreter"@.len() == 16 && "code_interpreter"@[0] == 'c',
        "height"@.len() == 6 && "height"@[0] == 'h',
{
    reveal_strlit("function_calling");
    reveal_strlit("enable_tools");
    reveal_strlit("enable_function_call");
    reveal_strlit("tool_choice");
    reveal_strlit("auto_search");
    reveal_strlit("plugins_enabled");
    reveal_strlit("image_gen");
    reveal_strlit("image_generation");
    reveal_strlit("thinking_enabled");
    reveal_strlit("auto_thinking");
    reveal_strlit("thinking_mode");
    reveal_strlit("image_size");
    reveal_strlit("image_ratio");
    reveal_strlit("aspect_ratio");
    reveal_strlit("width");
    reveal_strlit("output_schema");
    reveal_strlit("research_mode");
    reveal_strlit("thinking_format");
    reveal_strlit("code_interpreter");
    reveal_strlit("height");
}

} // verus!
