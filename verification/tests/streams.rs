use qwen2api_rs::api::gemini::{is_stream_action, split_model_action, stream_chunk};
use qwen2api_rs::api::responses::{
    build_response_object, message_id, response_id, responses_to_chat_body, ResponseStream,
};
use qwen2api_rs::execution::presenter::{
    frame_bare, frame_named, gemini_error_chunk, gemini_final_chunk, gemini_text_chunk,
    openai_error_sse, sse_event,
    AnthropicStreamTranslator,
};
use qwen2api_rs::execution::{OutEvent, Usage};
use qwen2api_rs::json::Json;
use qwen2api_rs::json_text::{json_to_string, parse_json};
use qwen2api_rs::toolcall::ParsedToolCall;

fn json(text: &str) -> Json {
    parse_json(text).unwrap()
}

fn usage() -> Usage {
    Usage { prompt_tokens: 3, completion_tokens: 5, total_tokens: 8 }
}

fn done(reason: &str) -> OutEvent {
    OutEvent::Done { usage: usage(), finish_reason: reason.to_string() }
}

fn names(lines: &[String]) -> Vec<&str> {
    lines
        .iter()
        .map(|l| l.strip_prefix("event: ").unwrap().split('\n').next().unwrap())
        .collect()
}

fn data(line: &str) -> Json {
    json(line.split("\ndata: ").nth(1).unwrap().trim_end())
}

#[test]
fn events_have_one_blank_line() {
    let text = sse_event("e", &json(r#"{"a":"x\n\ny\u0001"}"#));
    assert_eq!(text, "event: e\ndata: {\"a\":\"x\\n\\ny\\u0001\"}\n\n");
    assert_eq!(text.matches("\n\n").count(), 1);
    assert_eq!(frame_named("a", "b"), "event: a\ndata: b\n\n");
    assert_eq!(frame_bare("b"), "data: b\n\n");
}

#[test]
fn message_stream_opens_and_closes_blocks_in_order() {
    let mut tr = AnthropicStreamTranslator::new("m", 7);
    assert!(tr.id.starts_with("msg_") && tr.id.len() == 16);
    let a = tr.on_event(&OutEvent::ReasoningDelta("think".into()));
    assert_eq!(names(&a), ["message_start", "content_block_start", "content_block_delta"]);
    assert_eq!(
        a[1],
        "event: content_block_start\ndata: {\"content_block\":{\"signature\":\"cXdlbjJhcGktcnMtdW5zaWduZWQtdGhpbmtpbmc=\",\"thinking\":\"\",\"type\":\"thinking\"},\"index\":0,\"type\":\"content_block_start\"}\n\n"
    );
    let start = data(&a[0]);
    let message = start.get("message").unwrap();
    assert_eq!(message.get_str("model"), Some("m"));
    assert_eq!(message.get("usage").unwrap().get("input_tokens").unwrap().as_i64(), Some(7));
    let b = tr.on_event(&OutEvent::ContentDelta("hi".into()));
    assert_eq!(
        names(&b),
        ["content_block_delta", "content_block_stop", "content_block_start", "content_block_delta"]
    );
    assert_eq!(data(&b[0]).get("delta").unwrap().get_str("type"), Some("signature_delta"));
    assert_eq!(data(&b[3]).get("index").unwrap().as_i64(), Some(1));
    let c = tr.on_event(&OutEvent::ContentDelta("again".into()));
    assert_eq!(names(&c), ["content_block_delta"]);
    let d = tr.on_event(&done("stop"));
    assert_eq!(names(&d), ["content_block_stop", "message_delta", "message_stop"]);
    assert_eq!(data(&d[1]).get("delta").unwrap().get_str("stop_reason"), Some("end_turn"));
    assert_eq!(
        data(&d[1]).get("usage").unwrap().get("output_tokens").unwrap().as_i64(),
        Some(5)
    );
}

#[test]
fn calls_get_blocks_of_their_own() {
    let mut tr = AnthropicStreamTranslator::new("m", 0);
    tr.on_event(&OutEvent::ContentDelta("x".into()));
    let calls = OutEvent::ToolCalls(vec![
        ParsedToolCall { id: "i1".into(), name: "A".into(), arguments: json(r#"{"k":1}"#) },
        ParsedToolCall { id: "i2".into(), name: "B".into(), arguments: json("{}") },
    ]);
    assert!(tr.can_take(&calls));
    let lines = tr.on_event(&calls);
    assert_eq!(lines.len(), 7);
    let open = data(&lines[1]);
    assert_eq!(open.get("index").unwrap().as_i64(), Some(1));
    assert_eq!(open.get("content_block").unwrap().get_str("name"), Some("A"));
    assert_eq!(
        data(&lines[2]).get("delta").unwrap().get_str("partial_json"),
        Some(r#"{"k":1}"#)
    );
    assert_eq!(data(&lines[6]).get("index").unwrap().as_i64(), Some(2));
    let end = tr.on_event(&done("tool_calls"));
    assert_eq!(names(&end), ["message_delta", "message_stop"]);
    assert_eq!(data(&end[0]).get("delta").unwrap().get_str("stop_reason"), Some("tool_use"));
}

#[test]
fn blocks_stay_numbered_behind_the_end() {
    let mut tr = AnthropicStreamTranslator::new("m", 0);
    tr.on_event(&OutEvent::ContentDelta("x".into()));
    tr.on_event(&done("stop"));
    let lines = tr.on_event(&OutEvent::ReasoningDelta("late".into()));
    assert_eq!(names(&lines), ["content_block_start", "content_block_delta"]);
    assert_eq!(data(&lines[0]).get("index").unwrap().as_i64(), Some(1));
}

#[test]
fn failure_closes_the_open_block_first() {
    let mut tr = AnthropicStreamTranslator::new("m", 0);
    tr.on_event(&OutEvent::ContentDelta("x".into()));
    let lines = tr.on_event(&OutEvent::Error("bad".into()));
    assert_eq!(names(&lines), ["content_block_stop", "error", "message_stop"]);
    assert_eq!(
        lines[1],
        "event: error\ndata: {\"error\":{\"message\":\"bad\",\"type\":\"upstream_error\"},\"type\":\"error\"}\n\n"
    );
}

#[test]
fn chunks_of_text_end_and_failure() {
    assert_eq!(
        gemini_text_chunk("é"),
        "data: {\"candidates\":[{\"content\":{\"parts\":[{\"text\":\"é\"}],\"role\":\"model\"},\"index\":0}]}\n\n"
    );
    assert_eq!(
        gemini_final_chunk(&usage()),
        "data: {\"candidates\":[{\"content\":{\"parts\":[{\"text\":\"\"}],\"role\":\"model\"},\"finishReason\":\"STOP\",\"index\":0}],\"usageMetadata\":{\"candidatesTokenCount\":5,\"promptTokenCount\":3,\"totalTokenCount\":8}}\n\n"
    );
    assert_eq!(gemini_error_chunk("e"), "data: {\"error\":{\"message\":\"e\"}}\n\n");
    assert_eq!(
        openai_error_sse("e"),
        "data: {\"error\":{\"message\":\"e\",\"type\":\"upstream_error\"}}\n\ndata: [DONE]\n\n"
    );
    assert_eq!(stream_chunk(&OutEvent::ContentDelta("é".into())), Some(gemini_text_chunk("é")));
    assert_eq!(stream_chunk(&OutEvent::ReasoningDelta("r".into())), None);
    assert_eq!(stream_chunk(&OutEvent::Error("e".into())), Some(gemini_error_chunk("e")));
    assert_eq!(stream_chunk(&done("stop")), Some(gemini_final_chunk(&usage())));
}

#[test]
fn addresses_name_model_and_action() {
    let split = |s: &str| split_model_action(s);
    assert_eq!(split("a:b:streamGenerateContent"), ("a:b".into(), "streamGenerateContent".into()));
    assert_eq!(split("gemini"), ("gemini".into(), "generateContent".into()));
    assert_eq!(split("m:"), ("m".into(), "".into()));
    assert!(is_stream_action("streamGenerateContent"));
    assert!(!is_stream_action("generateContent"));
}

#[test]
fn responses_become_chats() {
    let body = json(r#"{"input":"hi","instructions":"be","reasoning":{}}"#);
    assert_eq!(
        json_to_string(&responses_to_chat_body(&body)),
        r#"{"enable_thinking":true,"messages":[{"content":"hi","role":"user"}],"model":"gpt-5","stream":false,"system":"be","tools":[]}"#
    );
    let body = json(r#"{"model":"m","input":[{"role":"assistant","content":[1]},{}],"stream":true}"#);
    assert_eq!(
        json_to_string(&responses_to_chat_body(&body)),
        r#"{"enable_thinking":false,"messages":[{"content":[1],"role":"assistant"},{"content":null,"role":"user"}],"model":"m","stream":true,"system":null,"tools":[]}"#
    );
    assert!(responses_to_chat_body(&json("{}")).get_array("messages").unwrap().is_empty());
}

#[test]
fn response_stream_ends_with_all_its_text() {
    let id = response_id();
    assert!(id.starts_with("resp_") && id.len() == 29);
    assert!(message_id().starts_with("msg_") && message_id().len() == 20);
    let mut s = ResponseStream::new("r1", "m");
    assert_eq!(
        s.created(),
        "event: response.created\ndata: {\"response\":{\"id\":\"r1\",\"model\":\"m\",\"object\":\"response\",\"status\":\"in_progress\"},\"type\":\"response.created\"}\n\n"
    );
    let a = s.on_event(&OutEvent::ContentDelta("Hel".into()), 1, "m1");
    assert_eq!(names(&a), ["response.output_text.delta"]);
    let r = s.on_event(&OutEvent::ReasoningDelta("why".into()), 1, "m1");
    assert_eq!(names(&r), ["response.reasoning_text.delta"]);
    s.on_event(&OutEvent::ContentDelta("lo".into()), 1, "m1");
    assert!(s.on_event(&OutEvent::ToolCalls(vec![]), 1, "m1").is_empty());
    let d = s.on_event(&done("stop"), 9, "m1");
    assert_eq!(d.len(), 2);
    assert_eq!(d[1], "data: [DONE]\n\n");
    let whole = build_response_object("r1", "m", "Hello", &usage(), 9, "m1");
    assert_eq!(json_to_string(data(&d[0]).get("response").unwrap()), json_to_string(&whole));
    assert_eq!(
        json_to_string(&whole),
        r#"{"created_at":9,"id":"r1","model":"m","object":"response","output":[{"content":[{"annotations":[],"text":"Hello","type":"output_text"}],"id":"m1","role":"assistant","status":"completed","type":"message"}],"status":"completed","usage":{"input_tokens":3,"output_tokens":5,"total_tokens":8}}"#
    );
    let e = s.on_event(&OutEvent::Error("x".into()), 1, "m1");
    assert_eq!(e[0], "event: error\ndata: {\"error\":{\"message\":\"x\"},\"type\":\"error\"}\n\n");
}
