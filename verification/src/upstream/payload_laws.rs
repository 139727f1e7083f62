//! What the upstream is asked, told by the fields of the body that it gets.

use crate::ident::uuid_of;
use crate::json::{items_view, Json, JsonView};
use crate::upstream::payload::{
    build_chat_payload, build_payload_with, chat_payload, extra_meta, feature_config,
    lemma_names_differ, payload_message, BuildPayloadArgs,
};
use vstd::prelude::*;

verus! {

/// The one message of a body.
pub open spec fn sent_message(body: JsonView) -> JsonView {
    body.get("messages"@)->0->Array_0[0]
}

/// The features that a body asks for.
pub open spec fn sent_features(body: JsonView) -> JsonView {
    sent_message(body).get("feature_config"@)->0
}

/// What a body tells besides.
pub open spec fn sent_meta(body: JsonView) -> JsonView {
    sent_message(body).get("extra"@)->0.get("meta"@)->0
}

proof fn lemma_fields(args: BuildPayloadArgs, ts: int, fid: Seq<char>, child: Seq<char>)
    ensures
        sent_message(chat_payload(args, ts, fid, child)) == payload_message(args, ts, fid, child),
        sent_features(chat_payload(args, ts, fid, child)) == feature_config(args),
        sent_meta(chat_payload(args, ts, fid, child)) == extra_meta(args),
        chat_payload(args, ts, fid, child).get("messages"@) is Some,
        chat_payload(args, ts, fid, child).get("messages"@)->0 is Array,
        chat_payload(args, ts, fid, child).get("messages"@)->0->Array_0.len() == 1,
        payload_message(args, ts, fid, child).get("feature_config"@) == Some(feature_config(args)),
{
    reveal_strlit("stream");
    reveal_strlit("version");
    reveal_strlit("incremental_output");
    reveal_strlit("chat_id");
    reveal_strlit("chat_mode");
    reveal_strlit("model");
    reveal_strlit("parent_id");
    reveal_strlit("messages");
    reveal_strlit("timestamp");
    reveal_strlit("size");
    reveal_strlit("fid");
    reveal_strlit("parentId");
    reveal_strlit("childrenIds");
    reveal_strlit("role");
    reveal_strlit("content");
    reveal_strlit("user_action");
    reveal_strlit("files");
    reveal_strlit("models");
    reveal_strlit("chat_type");
    reveal_strlit("feature_config");
    reveal_strlit("extra");
    reveal_strlit("sub_chat_type");
    reveal_strlit("meta");
    assert("stream"@.len() == 6 && "stream"@[0] == 's');
    assert("version"@.len() == 7 && "version"@[0] == 'v');
    assert("incremental_output"@.len() == 18);
    assert("chat_id"@.len() == 7 && "chat_id"@[0] == 'c' && "chat_id"@[1] == 'h');
    assert("chat_mode"@.len() == 9 && "chat_mode"@[0] == 'c' && "chat_mode"@[5] == 'm');
    assert("model"@.len() == 5 && "model"@[0] == 'm');
    assert("parent_id"@.len() == 9 && "parent_id"@[0] == 'p');
    assert("messages"@.len() == 8 && "messages"@[0] == 'm');
    assert("timestamp"@.len() == 9 && "timestamp"@[0] == 't');
    assert("size"@.len() == 4 && "size"@[0] == 's');
    assert("fid"@.len() == 3);
    assert("parentId"@.len() == 8 && "parentId"@[0] == 'p');
    assert("childrenIds"@.len() == 11 && "childrenIds"@[0] == 'c');
    assert("role"@.len() == 4 && "role"@[0] == 'r');
    assert("content"@.len() == 7 && "content"@[0] == 'c' && "content"@[1] == 'o');
    assert("user_action"@.len() == 11 && "user_action"@[0] == 'u');
    assert("files"@.len() == 5 && "files"@[0] == 'f');
    assert("models"@.len() == 6 && "models"@[0] == 'm');
    assert("chat_type"@.len() == 9 && "chat_type"@[0] == 'c' && "chat_type"@[5] == 't');
    assert("feature_config"@.len() == 14);
    assert("extra"@.len() == 5 && "extra"@[0] == 'e');
    assert("sub_chat_type"@.len() == 13);
    assert("meta"@.len() == 4 && "meta"@[0] == 'm');
}

/// A body searches exactly where that is asked for or where the chat is research, whatever
/// else is asked for.
pub proof fn searching_follows_the_wish(
    args: &BuildPayloadArgs,
    ts: i64,
    fid: &str,
    child: &str,
    r: Json,
)
    requires
        call_ensures(build_payload_with, (args, ts, fid, child), r),
    ensures
        args.enable_search ==> sent_features(r@).get("auto_search"@) == Some(JsonView::Bool(true)),
        args.chat_type@ == "deep_research"@ ==> sent_features(r@).get("auto_search"@) == Some(
            JsonView::Bool(true),
        ),
        !args.enable_search && args.chat_type@ != "deep_research"@ ==> sent_features(r@).get(
            "auto_search"@,
        ) == Some(JsonView::Bool(false)),
{
    lemma_fields(*args, ts as int, fid@, child@);
    lemma_names_differ();
}

/// A body thinks as it is asked to, and where nothing is asked; but never where an image or a
/// video is made.
pub proof fn thinking_reaches_the_body(
    args: &BuildPayloadArgs,
    ts: i64,
    fid: &str,
    child: &str,
    r: Json,
)
    requires
        call_ensures(build_payload_with, (args, ts, fid, child), r),
    ensures
        ({
            let features = sent_features(r@);
            let media = args.chat_type@ == "image_gen"@ || args.chat_type@ == "t2i"@
                || args.chat_type@ == "t2v"@;
            &&& media || args.thinking_enabled == Some(false) ==> features.get("thinking_enabled"@)
                == Some(JsonView::Bool(false)) && features.get("auto_thinking"@) == Some(
                JsonView::Bool(false),
            ) && features.get("thinking_mode"@) == Some(JsonView::Str("Disabled"@))
            &&& !media && args.thinking_enabled != Some(false) ==> features.get(
                "thinking_enabled"@,
            ) == Some(JsonView::Bool(true)) && features.get("auto_thinking"@) == Some(
                JsonView::Bool(true),
            ) && features.get("thinking_mode"@) == Some(JsonView::Str("Auto"@))
        }),
{
    lemma_fields(*args, ts as int, fid@, child@);
    lemma_names_differ();
}

/// A body makes images exactly where the chat does, and lets the upstream call no functions.
pub proof fn images_are_made_where_asked(
    args: &BuildPayloadArgs,
    ts: i64,
    fid: &str,
    child: &str,
    r: Json,
)
    requires
        call_ensures(build_payload_with, (args, ts, fid, child), r),
    ensures
        ({
            let features = sent_features(r@);
            let images = args.chat_type@ == "image_gen"@ || args.chat_type@ == "t2i"@;
            &&& features.get("image_gen"@) == Some(JsonView::Bool(images))
            &&& features.get("image_generation"@) == Some(JsonView::Bool(images))
            &&& features.get("plugins_enabled"@) == Some(JsonView::Bool(images))
            &&& features.get("function_calling"@) == Some(JsonView::Bool(false))
            &&& features.get("enable_tools"@) == Some(JsonView::Bool(false))
            &&& features.get("enable_function_call"@) == Some(JsonView::Bool(false))
            &&& features.get("tool_choice"@) == Some(JsonView::Str("none"@))
            &&& features.get("code_interpreter"@) == Some(JsonView::Bool(false))
            &&& features.get("output_schema"@) == Some(JsonView::Str("phase"@))
            &&& features.get("research_mode"@) == Some(JsonView::Str("normal"@))
            &&& features.get("thinking_format"@) == Some(JsonView::Str("summary"@))
        }),
{
    lemma_fields(*args, ts as int, fid@, child@);
    lemma_names_differ();
}

/// The text that an optional text is under a name of an object: it is there exactly where the
/// text is.
pub open spec fn text_under(j: JsonView, key: Seq<char>, text: Option<String>) -> bool {
    match text {
        Some(s) => j.get(key) == Some(JsonView::Str(s@)),
        None => j.get(key) is None,
    }
}

/// The number that an optional number is under a name of an object.
pub open spec fn number_under(j: JsonView, key: Seq<char>, number: Option<i64>) -> bool {
    match number {
        Some(n) => j.get(key) == Some(JsonView::Int(n as int)),
        None => j.get(key) is None,
    }
}

/// The look of an image is told where an image is made, wish for wish, among the features and
/// besides; and nowhere else.
pub proof fn looks_are_told_for_images(
    args: &BuildPayloadArgs,
    ts: i64,
    fid: &str,
    child: &str,
    r: Json,
)
    requires
        call_ensures(build_payload_with, (args, ts, fid, child), r),
    ensures
        ({
            let features = sent_features(r@);
            let meta = sent_meta(r@);
            let images = args.chat_type@ == "image_gen"@ || args.chat_type@ == "t2i"@;
            let (size, ratio, width, height) = if images && args.image_options is Some {
                let o = args.image_options->0;
                (o.size, o.ratio, o.width, o.height)
            } else {
                (None, None, None, None)
            };
            &&& text_under(features, "image_size"@, size)
            &&& text_under(features, "image_ratio"@, ratio)
            &&& text_under(features, "aspect_ratio"@, ratio)
            &&& number_under(features, "width"@, width)
            &&& number_under(features, "height"@, height)
            &&& text_under(meta, "imageSize"@, size)
            &&& text_under(meta, "imageRatio"@, ratio)
            &&& text_under(meta, "aspectRatio"@, ratio)
            &&& number_under(meta, "width"@, width)
            &&& number_under(meta, "height"@, height)
            &&& meta.get("subChatType"@) == Some(JsonView::Str(args.chat_type@))
        }),
{
    lemma_fields(*args, ts as int, fid@, child@);
    lemma_looks(*args);
    lemma_told(*args);
}

proof fn lemma_looks(args: BuildPayloadArgs)
    ensures
        ({
            let features = feature_config(args);
            let images = args.chat_type@ == "image_gen"@ || args.chat_type@ == "t2i"@;
            let (size, ratio, width, height) = if images && args.image_options is Some {
                let o = args.image_options->0;
                (o.size, o.ratio, o.width, o.height)
            } else {
                (None, None, None, None)
            };
            &&& text_under(features, "image_size"@, size)
            &&& text_under(features, "image_ratio"@, ratio)
            &&& text_under(features, "aspect_ratio"@, ratio)
            &&& number_under(features, "width"@, width)
            &&& number_under(features, "height"@, height)
        }),
{
    lemma_names_differ();
}

proof fn lemma_told(args: BuildPayloadArgs)
    ensures
        ({
            let meta = extra_meta(args);
            let images = args.chat_type@ == "image_gen"@ || args.chat_type@ == "t2i"@;
            let (size, ratio, width, height) = if images && args.image_options is Some {
                let o = args.image_options->0;
                (o.size, o.ratio, o.width, o.height)
            } else {
                (None, None, None, None)
            };
            &&& text_under(meta, "imageSize"@, size)
            &&& text_under(meta, "imageRatio"@, ratio)
            &&& text_under(meta, "aspectRatio"@, ratio)
            &&& number_under(meta, "width"@, width)
            &&& number_under(meta, "height"@, height)
            &&& meta.get("subChatType"@) == Some(JsonView::Str(args.chat_type@))
        }),
{
    reveal_strlit("subChatType");
    reveal_strlit("imageSize");
    reveal_strlit("imageRatio");
    reveal_strlit("aspectRatio");
    reveal_strlit("width");
    reveal_strlit("height");
    assert("subChatType"@.len() == 11 && "subChatType"@[0] == 's');
    assert("imageSize"@.len() == 9);
    assert("imageRatio"@.len() == 10);
    assert("aspectRatio"@.len() == 11 && "aspectRatio"@[0] == 'a');
    assert("width"@.len() == 5);
    assert("height"@.len() == 6);
}

/// A body is for one chat and one model, and holds one message: the user's, with the content,
/// the files and the kind of chat that were given, and with the identifiers of itself and of
/// the answer to come.
pub proof fn bodies_carry_the_message(
    args: &BuildPayloadArgs,
    ts: i64,
    fid: &str,
    child: &str,
    r: Json,
)
    requires
        call_ensures(build_payload_with, (args, ts, fid, child), r),
    ensures
        r@.get("chat_id"@) == Some(JsonView::Str(args.chat_id@)),
        r@.get("model"@) == Some(JsonView::Str(args.model@)),
        r@.get("stream"@) == Some(JsonView::Bool(true)),
        r@.get("incremental_output"@) == Some(JsonView::Bool(true)),
        r@.get("timestamp"@) == Some(JsonView::Int(ts as int)),
        r@.get("parent_id"@) == Some(JsonView::Null),
        r@.get("chat_mode"@) == Some(JsonView::Str("normal"@)),
        r@.get("version"@) == Some(JsonView::Str("2.1"@)),
        r@.get("messages"@) matches Some(JsonView::Array(m)) && m.len() == 1,
        ({
            let m = sent_message(r@);
            &&& m.get("content"@) == Some(JsonView::Str(args.content@))
            &&& m.get("role"@) == Some(JsonView::Str("user"@))
            &&& m.get("files"@) == Some(JsonView::Array(items_view(args.files@)))
            &&& m.get("fid"@) == Some(JsonView::Str(fid@))
            &&& m.get("childrenIds"@) == Some(JsonView::Array(seq![JsonView::Str(child@)]))
            &&& m.get("models"@) == Some(JsonView::Array(seq![JsonView::Str(args.model@)]))
            &&& m.get("timestamp"@) == Some(JsonView::Int(ts as int))
            &&& m.get("chat_type"@) == Some(JsonView::Str(args.chat_type@))
            &&& m.get("sub_chat_type"@) == Some(JsonView::Str(args.chat_type@))
            &&& m.get("user_action"@) == Some(JsonView::Str("chat"@))
            &&& m.get("parent_id"@) == Some(JsonView::Null)
            &&& m.get("parentId"@) == Some(JsonView::Null)
        }),
{
    reveal_strlit("stream");
    reveal_strlit("version");
    reveal_strlit("incremental_output");
    reveal_strlit("chat_id");
    reveal_strlit("chat_mode");
    reveal_strlit("model");
    reveal_strlit("parent_id");
    reveal_strlit("messages");
    reveal_strlit("timestamp");
    reveal_strlit("size");
    reveal_strlit("fid");
    reveal_strlit("parentId");
    reveal_strlit("childrenIds");
    reveal_strlit("role");
    reveal_strlit("content");
    reveal_strlit("user_action");
    reveal_strlit("files");
    reveal_strlit("models");
    reveal_strlit("chat_type");
    reveal_strlit("feature_config");
    reveal_strlit("extra");
    reveal_strlit("sub_chat_type");
    assert("stream"@.len() == 6 && "stream"@[0] == 's');
    assert("version"@.len() == 7 && "version"@[0] == 'v');
    assert("incremental_output"@.len() == 18);
    assert("chat_id"@.len() == 7 && "chat_id"@[0] == 'c' && "chat_id"@[1] == 'h');
    assert("chat_mode"@.len() == 9 && "chat_mode"@[0] == 'c' && "chat_mode"@[5] == 'm');
    assert("model"@.len() == 5 && "model"@[0] == 'm');
    assert("parent_id"@.len() == 9 && "parent_id"@[0] == 'p');
    assert("messages"@.len() == 8 && "messages"@[0] == 'm');
    assert("timestamp"@.len() == 9 && "timestamp"@[0] == 't');
    assert("size"@.len() == 4 && "size"@[0] == 's');
    assert("fid"@.len() == 3);
    assert("parentId"@.len() == 8 && "parentId"@[0] == 'p');
    assert("childrenIds"@.len() == 11 && "childrenIds"@[0] == 'c');
    assert("role"@.len() == 4 && "role"@[0] == 'r');
    assert("content"@.len() == 7 && "content"@[0] == 'c' && "content"@[1] == 'o');
    assert("user_action"@.len() == 11 && "user_action"@[0] == 'u');
    assert("files"@.len() == 5 && "files"@[0] == 'f');
    assert("models"@.len() == 6 && "models"@[0] == 'm');
    assert("chat_type"@.len() == 9 && "chat_type"@[0] == 'c' && "chat_type"@[5] == 't');
    assert("feature_config"@.len() == 14);
    assert("extra"@.len() == 5 && "extra"@[0] == 'e');
    assert("sub_chat_type"@.len() == 13);
    assert(sent_message(r@).get("childrenIds"@)->0->Array_0 =~= seq![JsonView::Str(child@)]);
    assert(sent_message(r@).get("models"@)->0->Array_0 =~= seq![JsonView::Str(args.model@)]);
}

/// Where an image or a video is made, the body and its message give its size: the ratio that is
/// wished for, or a square. Elsewhere neither gives one.
pub proof fn media_have_a_size(
    args: &BuildPayloadArgs,
    ts: i64,
    fid: &str,
    child: &str,
    r: Json,
)
    requires
        call_ensures(build_payload_with, (args, ts, fid, child), r),
    ensures
        r@.get("size"@) == sent_message(r@).get("size"@),
        ({
            let media = args.chat_type@ == "image_gen"@ || args.chat_type@ == "t2i"@
                || args.chat_type@ == "t2v"@;
            &&& !media ==> r@.get("size"@) is None
            &&& media && args.image_options is Some && args.image_options->0.ratio is Some
                ==> r@.get("size"@) == Some(JsonView::Str(args.image_options->0.ratio->0@))
            &&& media && (args.image_options is None || args.image_options->0.ratio is None)
                ==> r@.get("size"@) == Some(JsonView::Str("1:1"@))
        }),
{
    reveal_strlit("stream");
    reveal_strlit("version");
    reveal_strlit("incremental_output");
    reveal_strlit("chat_id");
    reveal_strlit("chat_mode");
    reveal_strlit("model");
    reveal_strlit("parent_id");
    reveal_strlit("messages");
    reveal_strlit("timestamp");
    reveal_strlit("size");
    reveal_strlit("fid");
    reveal_strlit("parentId");
    reveal_strlit("childrenIds");
    reveal_strlit("role");
    reveal_strlit("content");
    reveal_strlit("user_action");
    reveal_strlit("files");
    reveal_strlit("models");
    reveal_strlit("chat_type");
    reveal_strlit("feature_config");
    reveal_strlit("extra");
    reveal_strlit("sub_chat_type");
    assert("stream"@.len() == 6 && "stream"@[0] == 's');
    assert("version"@.len() == 7 && "version"@[0] == 'v');
    assert("incremental_output"@.len() == 18);
    assert("chat_id"@.len() == 7 && "chat_id"@[0] == 'c' && "chat_id"@[1] == 'h');
    assert("chat_mode"@.len() == 9 && "chat_mode"@[0] == 'c' && "chat_mode"@[5] == 'm');
    assert("model"@.len() == 5 && "model"@[0] == 'm');
    assert("parent_id"@.len() == 9 && "parent_id"@[0] == 'p');
    assert("messages"@.len() == 8 && "messages"@[0] == 'm');
    assert("timestamp"@.len() == 9 && "timestamp"@[0] == 't');
    assert("size"@.len() == 4 && "size"@[0] == 's');
    assert("fid"@.len() == 3);
    assert("parentId"@.len() == 8 && "parentId"@[0] == 'p');
    assert("childrenIds"@.len() == 11 && "childrenIds"@[0] == 'c');
    assert("role"@.len() == 4 && "role"@[0] == 'r');
    assert("content"@.len() == 7 && "content"@[0] == 'c' && "content"@[1] == 'o');
    assert("user_action"@.len() == 11 && "user_action"@[0] == 'u');
    assert("files"@.len() == 5 && "files"@[0] == 'f');
    assert("models"@.len() == 6 && "models"@[0] == 'm');
    assert("chat_type"@.len() == 9 && "chat_type"@[0] == 'c' && "chat_type"@[5] == 't');
    assert("feature_config"@.len() == 14);
    assert("extra"@.len() == 5 && "extra"@[0] == 'e');
    assert("sub_chat_type"@.len() == 13);
}

/// A body with fresh identifiers is otherwise the body that the arguments make.
pub proof fn fresh_bodies_are_bodies(args: &BuildPayloadArgs, ts: i64, r: Json)
    requires
        call_ensures(build_chat_payload, (args, ts), r),
    ensures
        exists|fid: Seq<char>, child: Seq<char>|
            r@ == #[trigger] chat_payload(*args, ts as int, fid, child),
{
    let (a, b, c, d) = choose|a: u64, b: u64, c: u64, d: u64|
        r@ == chat_payload(
            *args,
            ts as int,
            #[trigger] uuid_of(a as int, b as int),
            #[trigger] uuid_of(c as int, d as int),
        );
}

} // verus!
