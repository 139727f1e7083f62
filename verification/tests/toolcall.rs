use qwen2api_rs::text_map::TextMap;
use qwen2api_rs::toolcall::obfuscation::norm_key;
use qwen2api_rs::toolcall::{parse_tool_calls, strip_tool_calls, strip_tool_calls_with};

fn bash_registry() -> TextMap {
    let mut m = TextMap::new();
    m.insert(norm_key("shell_run"), "Bash".to_string());
    m.insert(norm_key("Bash"), "Bash".to_string());
    m
}

#[test]
fn nested_braces_in_args_parse_correctly() {
    let reg = bash_registry();
    let text = r#"<tool_call>{"name":"shell_run","arguments":{"command":"jq -r '{a: 1, b: {c: 2}}'"}}</tool_call>"#;
    let calls = parse_tool_calls(text, &reg);
    assert_eq!(calls.len(), 1, "{calls:?}");
    assert_eq!(calls[0].name, "Bash");
    assert_eq!(calls[0].arguments.get_str("command"), Some(r#"jq -r '{a: 1, b: {c: 2}}'"#));
    assert_eq!(strip_tool_calls(text), "");
}

#[test]
fn multiple_json_objects_in_one_block_all_parse() {
    let reg = bash_registry();
    let text = r#"<tool_call>{"name":"shell_run","arguments":{"command":"ls"}}
{"name":"shell_run","arguments":{"command":"pwd"}}</tool_call>"#;
    let calls = parse_tool_calls(text, &reg);
    assert_eq!(calls.len(), 2, "{calls:?}");
    assert_eq!(calls[0].arguments.get_str("command"), Some("ls"));
    assert_eq!(calls[1].arguments.get_str("command"), Some("pwd"));
    assert_eq!(strip_tool_calls(text), "");
}

#[test]
fn unclosed_tool_call_still_parses_inner_json() {
    let reg = bash_registry();
    let text = r#"<tool_call>{"name":"shell_run","arguments":{"command":"ls /tmp"}}"#;
    let calls = parse_tool_calls(text, &reg);
    assert_eq!(calls.len(), 1);
    assert_eq!(calls[0].arguments.get_str("command"), Some("ls /tmp"));
    assert_eq!(strip_tool_calls(text), "");
}

#[test]
fn two_separate_tool_call_blocks_parse_both() {
    let reg = bash_registry();
    let text = r#"<tool_call>{"name":"shell_run","arguments":{"command":"a"}}</tool_call>
some text
<tool_call>{"name":"shell_run","arguments":{"command":"b"}}</tool_call>"#;
    let calls = parse_tool_calls(text, &reg);
    assert_eq!(calls.len(), 2);
    assert_eq!(calls[0].arguments.get_str("command"), Some("a"));
    assert_eq!(calls[1].arguments.get_str("command"), Some("b"));
    assert_eq!(strip_tool_calls(text).trim(), "some text");
}

#[test]
fn fenced_block_parses_and_strips() {
    let reg = bash_registry();
    let text = "```tool_call\n{\"name\":\"shell_run\",\"arguments\":{\"command\":\"jq '{x:1}'\"}}\n```";
    let calls = parse_tool_calls(text, &reg);
    assert_eq!(calls.len(), 1, "{calls:?}");
    assert_eq!(calls[0].arguments.get_str("command"), Some("jq '{x:1}'"));
    assert!(strip_tool_calls(text).trim().is_empty());
}

#[test]
fn plain_text_passes_through_untouched() {
    let reg = bash_registry();
    let text = "這是一段普通回覆，沒有任何 tool_call 標記。";
    assert!(parse_tool_calls(text, &reg).is_empty());
    assert_eq!(strip_tool_calls(text), text);
}

#[test]
fn braces_inside_strings_dont_confuse_scanner() {
    let reg = bash_registry();
    let text = r#"<tool_call>{"name":"shell_run","arguments":{"command":"echo \"{not_json}\" }"}}
{"name":"shell_run","arguments":{"command":"true"}}</tool_call>"#;
    let calls = parse_tool_calls(text, &reg);
    assert_eq!(calls.len(), 2, "{calls:?}");
    assert_eq!(calls[1].arguments.get_str("command"), Some("true"));
}

#[test]
fn obfuscated_tool_name_resolves_to_canonical() {
    let reg = bash_registry();
    let text = r#"<tool_call>{"name":"shell_run","arguments":{"command":"ls"}}</tool_call>"#;
    let calls = parse_tool_calls(text, &reg);
    assert_eq!(calls.len(), 1);
    assert_eq!(calls[0].name, "Bash");
}

#[test]
fn function_parameter_block_parses_as_tool_call() {
    let reg = registry_with(&[("fs_open_file", "Read")]);
    let text = r#"<function="fs_open_file">
  <parameter=file_path>
  /Users/bryceloskie/i/FreeAIchat-2api/app/core/config.py
"#;
    let calls = parse_tool_calls(text, &reg);
    assert_eq!(calls.len(), 1, "{calls:?}");
    assert_eq!(calls[0].name, "Read");
    assert_eq!(
        calls[0].arguments.get_str("file_path"),
        Some("/Users/bryceloskie/i/FreeAIchat-2api/app/core/config.py")
    );
    assert!(strip_tool_calls(text).trim().is_empty());
}

#[test]
fn multiple_function_parameter_blocks_parse_separately() {
    let reg = registry_with(&[("fs_open_file", "Read"), ("shell_run", "Bash")]);
    let text = r#"<function="fs_open_file">
<parameter=file_path>
/tmp/a.txt
<function="shell_run">
<parameter=command>
pwd
"#;
    let calls = parse_tool_calls(text, &reg);
    assert_eq!(calls.len(), 2, "{calls:?}");
    assert_eq!(calls[0].name, "Read");
    assert_eq!(calls[0].arguments.get_str("file_path"), Some("/tmp/a.txt"));
    assert_eq!(calls[1].name, "Bash");
    assert_eq!(calls[1].arguments.get_str("command"), Some("pwd"));
    assert!(strip_tool_calls(text).trim().is_empty());
}

fn registry_with(tools: &[(&str, &str)]) -> TextMap {
    let mut m = TextMap::new();
    for (qwen, canonical) in tools {
        m.insert(norm_key(qwen), canonical.to_string());
    }
    m
}

#[test]
fn naked_json_with_known_name_and_arguments_parses_as_tool_call() {
    let reg = registry_with(&[("u_ToolSearch", "ToolSearch")]);
    let text = r#"{"name": "u_ToolSearch", "arguments": {"query": "+tg notify"}}"#;
    let calls = parse_tool_calls(text, &reg);
    assert_eq!(calls.len(), 1, "{calls:?}");
    assert_eq!(calls[0].name, "ToolSearch");
    assert_eq!(calls[0].arguments.get_str("query"), Some("+tg notify"));
    assert!(strip_tool_calls_with(text, &reg).trim().is_empty());
}

#[test]
fn naked_json_with_unknown_name_passes_through_as_text() {
    let reg = registry_with(&[("Bash", "Bash")]);
    let text = r#"{"name": "random_thing", "arguments": {"a": 1}}"#;
    assert!(parse_tool_calls(text, &reg).is_empty());
    assert_eq!(strip_tool_calls_with(text, &reg), text);
}

#[test]
fn naked_json_without_args_field_passes_through() {
    let reg = registry_with(&[("Bash", "Bash")]);
    let text = r#"{"name": "Bash", "description": "Executes shell commands"}"#;
    assert!(parse_tool_calls(text, &reg).is_empty());
    assert_eq!(strip_tool_calls_with(text, &reg), text);
}

#[test]
fn empty_registry_disables_naked_detection() {
    let empty = TextMap::new();
    let text = r#"{"name": "Bash", "arguments": {"command": "ls"}}"#;
    assert!(parse_tool_calls(text, &empty).is_empty());
    assert_eq!(strip_tool_calls_with(text, &empty), text);
}

#[test]
fn mixed_text_and_naked_tool_calls() {
    let reg = registry_with(&[("Bash", "Bash")]);
    let text = r#"先說明一下{"name": "Bash", "arguments": {"command": "ls"}}然後{"name": "Bash", "arguments": {"command": "pwd"}}結束"#;
    let calls = parse_tool_calls(text, &reg);
    assert_eq!(calls.len(), 2, "{calls:?}");
    assert_eq!(calls[0].arguments.get_str("command"), Some("ls"));
    assert_eq!(calls[1].arguments.get_str("command"), Some("pwd"));
    let stripped = strip_tool_calls_with(text, &reg);
    assert!(stripped.contains("先說明一下"));
    assert!(stripped.contains("然後"));
    assert!(stripped.contains("結束"));
    assert!(!stripped.contains("\"name\""));
}

#[test]
fn tool_call_block_takes_priority_over_naked_detection() {
    let reg = registry_with(&[("Bash", "Bash")]);
    let text = r#"<tool_call>{"name":"Bash","arguments":{"command":"ls"}}</tool_call> 另外 {"name":"Bash","arguments":{"command":"pwd"}}"#;
    let calls = parse_tool_calls(text, &reg);
    assert_eq!(calls.len(), 1);
    assert_eq!(calls[0].arguments.get_str("command"), Some("ls"));
}
