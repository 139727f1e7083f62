use qwen2api_rs::config::default_model_map;
use qwen2api_rs::context::AttachmentResult;
use qwen2api_rs::json::Json;
use qwen2api_rs::json_text::{json_to_string, parse_json};
use qwen2api_rs::request::gemini::{build_gemini_request, synthetic_body};
use qwen2api_rs::request::{
    build_openai_request, coerce_bool, extract_thinking, last_user_text, requested_model,
    BuiltPrompt, ModelMode, Models, RequestParts,
};
use qwen2api_rs::upstream::payload::{
    build_chat_payload, build_payload_with, BuildPayloadArgs, ImageOptions,
};

fn json(text: &str) -> Json {
    parse_json(text).unwrap()
}

fn parts(chat_type: &str, force: bool, profile: &str) -> RequestParts {
    RequestParts {
        mode: ModelMode {
            base_model: "gpt-4o".into(),
            chat_type: chat_type.into(),
            force_thinking: force,
        },
        profile: profile.into(),
        attachments: AttachmentResult {
            files: vec![json("{\"f\":1}")],
            inline_note: String::new(),
            bound_account: Some("a@b".into()),
        },
        built: BuiltPrompt {
            prompt: "PROMPT".into(),
            tools: vec![],
            tool_names: vec!["t".into()],
        },
    }
}

#[test]
fn truth_values_are_coerced() {
    let b = |t: &str| coerce_bool(Some(&json(t)));
    assert_eq!(b("true"), Some(true));
    assert_eq!(b("\"YES\""), Some(true));
    assert_eq!(b("\"on\""), Some(true));
    assert_eq!(b("\"Off\""), Some(false));
    assert_eq!(b("\"0\""), Some(false));
    assert_eq!(b("\"maybe\""), None);
    assert_eq!(b("2"), Some(true));
    assert_eq!(b("-1"), Some(true));
    assert_eq!(b("0"), Some(false));
    assert_eq!(b("1.5"), Some(false));
    assert_eq!(b("18446744073709551615"), Some(false));
    assert_eq!(b("null"), None);
    assert_eq!(b("[]"), None);
    assert_eq!(coerce_bool(None), None);
}

#[test]
fn thinking_is_extracted() {
    let t = |text: &str| extract_thinking(&json(text), false);
    assert_eq!(t(r#"{"thinking":{"type":"enabled"}}"#), (Some(true), false));
    assert_eq!(t(r#"{"thinking":{"type":"disabled"},"enable_thinking":true}"#), (Some(false), false));
    assert_eq!(t(r#"{"thinking":{},"enable_thinking":"no"}"#), (Some(false), false));
    assert_eq!(t(r#"{"thinking":true}"#), (Some(true), false));
    assert_eq!(t(r#"{"include_reasoning":1}"#), (Some(true), false));
    assert_eq!(t(r#"{"reasoning_effort":"none"}"#), (Some(false), false));
    assert_eq!(t(r#"{"reasoning_effort":"high"}"#), (Some(true), false));
    assert_eq!(t("{}"), (None, false));
    assert_eq!(extract_thinking(&json(r#"{"thinking":false}"#), true), (Some(true), true));
}

#[test]
fn last_text_of_the_user_is_found() {
    let body = json(r#"{"messages":[{"role":"user"},{"role":"user"},{"role":"assistant"},{"role":"user"}]}"#);
    let contents: Vec<String> = ["a", "b", "c", "  "].iter().map(|s| s.to_string()).collect();
    assert_eq!(last_user_text(&body, &contents), Some("b"));
    assert_eq!(last_user_text(&json("{}"), &vec![]), None);
    assert_eq!(requested_model(&json(r#"{"model":"x"}"#), "d"), "x");
    assert_eq!(requested_model(&json(r#"{"model":1}"#), "d"), "d");
}

#[test]
fn chat_requests_are_built() {
    let map = default_model_map("family");
    let models = Models { aliases: &map, default_model: "qwen-d" };
    let body = json(
        r#"{"model":"gpt-4o","stream":"1","enable_search":true,"max_completion_tokens":9,
            "messages":[{"role":"user","content":"cat"}]}"#,
    );
    let contents = vec!["cat".to_string()];
    let r = build_openai_request(&body, "openai", "d", &models, parts("t2t", false, "p"), &contents, "cli");
    assert_eq!(r.response_model, "gpt-4o");
    assert_eq!(r.resolved_model, "qwen3.7-plus");
    assert_eq!(r.prompt, "PROMPT");
    assert!(r.stream && r.enable_search);
    assert_eq!((r.thinking_enabled, r.max_tokens), (None, Some(9)));
    assert_eq!(r.bound_account.as_deref(), Some("a@b"));
    assert_eq!((r.files.len(), r.tool_names.len(), r.exclude_accounts.len()), (1, 1, 0));
    let r = build_openai_request(&body, "openai", "d", &models, parts("t2i", true, "p"), &contents, "cli");
    assert_eq!((r.prompt.as_str(), r.thinking_enabled), ("cat", Some(true)));
    let r = build_openai_request(&body, "anthropic", "d", &models, parts("t2t", false, "cli"), &contents, "cli");
    assert_eq!(r.thinking_enabled, Some(true));
    let r = build_openai_request(&body, "anthropic", "d", &models, parts("t2t", false, "other"), &contents, "cli");
    assert_eq!(r.thinking_enabled, None);
}

#[test]
fn contents_become_messages() {
    let body = json(
        r#"{"systemInstruction":{"parts":[{"text":"a"},{"x":1},{"text":"b"}]},
            "contents":[{"role":"model","parts":[{"text":"x"},{"functionCall":{"n":1}}]},
                        {"parts":[{"functionResponse":[2]},{"other":1}]}],
            "tools":[{"functionDeclarations":[{"name":"f"}]},{"y":1},{"functionDeclarations":[{"name":"g"}]}]}"#,
    );
    assert_eq!(
        json_to_string(&synthetic_body(&body)),
        r#"{"messages":[{"content":"x[tool call {\"n\":1}]","role":"assistant"},{"content":"[tool result [2]]","role":"user"}],"system":"a\nb","tools":[{"name":"f"},{"name":"g"}]}"#
    );
    assert_eq!(
        json_to_string(&synthetic_body(&json("{}"))),
        r#"{"messages":[],"system":"","tools":[]}"#
    );
}

#[test]
fn contents_requests_are_built() {
    let map = default_model_map("family");
    let models = Models { aliases: &map, default_model: "qwen-d" };
    let r = build_gemini_request("gem", &models, parts("deep_research", true, "p"));
    assert_eq!((r.response_model.as_str(), r.surface.as_str()), ("gem", "gemini"));
    assert!(!r.stream && r.enable_search);
    assert_eq!((r.thinking_enabled, r.max_tokens), (Some(true), None));
    let r = build_gemini_request("gem", &models, parts("t2t", false, "p"));
    assert_eq!((r.thinking_enabled, r.enable_search), (None, false));
}

fn args(chat_type: &'static str) -> BuildPayloadArgs<'static> {
    BuildPayloadArgs {
        chat_id: "c",
        model: "m",
        content: "hi",
        has_custom_tools: true,
        files: vec![json("{\"f\":1}")],
        chat_type,
        image_options: None,
        thinking_enabled: None,
        enable_search: false,
    }
}

#[test]
fn payload_of_a_chat() {
    let p = build_payload_with(&args("t2t"), 5, "F", "C");
    assert_eq!(
        json_to_string(&p),
        r#"{"chat_id":"c","chat_mode":"normal","incremental_output":true,"messages":[{"chat_type":"t2t","childrenIds":["C"],"content":"hi","extra":{"meta":{"subChatType":"t2t"}},"feature_config":{"auto_search":false,"auto_thinking":true,"code_interpreter":false,"enable_function_call":false,"enable_tools":false,"function_calling":false,"image_gen":false,"image_generation":false,"output_schema":"phase","plugins_enabled":false,"research_mode":"normal","thinking_enabled":true,"thinking_format":"summary","thinking_mode":"Auto","tool_choice":"none"},"fid":"F","files":[{"f":1}],"models":["m"],"parentId":null,"parent_id":null,"role":"user","sub_chat_type":"t2t","timestamp":5,"user_action":"chat"}],"model":"m","parent_id":null,"stream":true,"timestamp":5,"version":"2.1"}"#
    );
}

#[test]
fn payload_of_an_image_has_its_look_and_no_thinking() {
    let mut a = args("t2i");
    a.thinking_enabled = Some(true);
    a.image_options = Some(ImageOptions {
        size: Some("s".into()),
        ratio: Some("3:4".into()),
        width: Some(7),
        height: None,
    });
    let p = build_chat_payload(&a, 5);
    assert_eq!(p.get_str("size"), Some("3:4"));
    let m = &p.get_array("messages").unwrap()[0];
    assert_eq!(m.get_str("size"), Some("3:4"));
    let fc = m.get("feature_config").unwrap();
    assert_eq!(fc.get_str("thinking_mode"), Some("Disabled"));
    assert_eq!(fc.get_str("aspect_ratio"), Some("3:4"));
    assert_eq!(fc.get("width").unwrap().as_i64(), Some(7));
    assert!(fc.get("height").is_none());
    let meta = m.get("extra").unwrap().get("meta").unwrap();
    assert_eq!(json_to_string(meta), r#"{"aspectRatio":"3:4","imageRatio":"3:4","imageSize":"s","subChatType":"t2i","width":7}"#);
    let fid = m.get_str("fid").unwrap();
    let child = m.get_array("childrenIds").unwrap()[0].as_str().unwrap();
    assert_ne!(fid, child);
    assert_eq!((fid.len(), &fid[14..15]), (36, "4"));
}

#[test]
fn payload_of_a_video_is_square_unless_asked() {
    let p = build_payload_with(&args("t2v"), 5, "F", "C");
    assert_eq!(p.get_str("size"), Some("1:1"));
    let fc = p.get_array("messages").unwrap()[0].get("feature_config").unwrap();
    assert_eq!(fc.get_str("thinking_mode"), Some("Disabled"));
    let p = build_payload_with(&args("deep_research"), 5, "F", "C");
    let fc = p.get_array("messages").unwrap()[0].get("feature_config").unwrap();
    assert_eq!(json_to_string(fc.get("auto_search").unwrap()), "true");
}
