use qwen2api_rs::json::Json;
use qwen2api_rs::json_text::{json_to_string, parse_json};
use qwen2api_rs::text_map::TextMap;
use qwen2api_rs::toolcall::blocks::{find_function_blocks, find_tool_blocks};
use qwen2api_rs::toolcall::markers::{find_marks, Marker};
use qwen2api_rs::toolcall::obfuscation::{norm_key, to_qwen_name};
use qwen2api_rs::toolcall::parse::{
    parse_block_value, parse_function_block, parse_naked_value, parse_obj,
};
use qwen2api_rs::toolcall::scan::{find_subslice, scan_json_object_end, split_json_objects};
use qwen2api_rs::toolcall::tools::{compact_schema, describe_tool};
use qwen2api_rs::toolcall::{
    build_registry, build_tool_instruction_block, looks_like_tool_call, normalize_tools,
    parse_tool_calls, strip_tool_calls, strip_tool_calls_with,
};

fn json(text: &str) -> Json {
    parse_json(text).unwrap()
}

fn registry(pairs: &[(&str, &str)]) -> TextMap {
    let mut m = TextMap::new();
    for (key, name) in pairs {
        m.insert(norm_key(key), name.to_string());
    }
    m
}

#[test]
fn names_are_compared_without_case_and_punctuation() {
    assert_eq!(norm_key("u_Tool-Search.v2"), "utoolsearchv2");
    assert_eq!(norm_key(&norm_key("Shell_RUN")), norm_key("shell run"));
    assert_eq!(norm_key("工具 A"), "工具a");
    assert_eq!(norm_key(""), "");
}

#[test]
fn upstream_names_differ_from_the_clients() {
    assert_eq!(to_qwen_name("Bash"), "shell_run");
    assert_eq!(to_qwen_name("Read"), "fs_open_file");
    assert_eq!(to_qwen_name("ToolSearch"), "u_ToolSearch");
    assert_ne!(to_qwen_name("shell_run"), to_qwen_name("Bash"));
}

#[test]
fn scanner_passes_over_braces_in_literals() {
    let b = br#"{"a":"}{\"}","b":{}} tail"#;
    assert_eq!(scan_json_object_end(b, 0), Some(19));
    assert_eq!(scan_json_object_end(b"{{}", 0), None);
    assert_eq!(scan_json_object_end(b"x{}", 0), None);
    assert_eq!(scan_json_object_end(b"x{}", 1), Some(2));
    assert_eq!(scan_json_object_end(b"", 0), None);
}

#[test]
fn objects_are_split_up_to_an_open_one() {
    let b = b"{} , {\"a\":1} {\"b\":";
    assert_eq!(split_json_objects(b, 0, b.len()), vec![(0, 1), (5, 11)]);
    assert_eq!(split_json_objects(b, 3, 8), vec![]);
    assert_eq!(find_subslice(b"abcabc", b"ca"), Some(2));
    assert_eq!(find_subslice(b"abc", b""), None);
    assert_eq!(find_subslice(b"ab", b"abc"), None);
}

#[test]
fn marks_of_functions_take_names_with_and_without_quotes() {
    let text = "é<function = \"a.b:c-1\" ><function=x><function=><functionx>";
    let marks = find_marks(Marker::FunctionOpen, text);
    assert_eq!(marks.len(), 2);
    assert_eq!((marks[0].start, marks[0].end), (2, 25));
    let name = marks[0].name.unwrap();
    assert_eq!(&text[name.0..name.1], "a.b:c-1");
    let name = marks[1].name.unwrap();
    assert_eq!(&text[name.0..name.1], "x");
}

#[test]
fn marks_of_functions_allow_any_white_space() {
    let text = "<function\u{3000}=\u{a0}\n\"n\"\u{2003}>";
    let marks = find_marks(Marker::FunctionOpen, text);
    assert_eq!(marks.len(), 1);
    assert_eq!(marks[0].end, text.len());
    assert_eq!(find_marks(Marker::FunctionOpen, "<function=\"a b\">").len(), 0);
    assert_eq!(find_marks(Marker::ParameterOpen, "<parameter=p><parameter=q>").len(), 2);
}

#[test]
fn marks_of_fences_take_the_rest_of_a_blank_line() {
    let spans: Vec<(usize, usize)> = find_marks(Marker::FenceOpen, "```json \t\n{}```x``````tool_call")
        .iter()
        .map(|s| (s.start, s.end))
        .collect();
    assert_eq!(spans, vec![(0, 10), (12, 15), (16, 19), (19, 31)]);
}

#[test]
fn marks_of_links_end_at_brackets_and_quotes() {
    let text = "(http://a.b/c) https://é.x/y\u{3000}z http:// httpss://q 'https://k'";
    let links: Vec<&str> =
        find_marks(Marker::Link, text).iter().map(|s| &text[s.start..s.end]).collect();
    assert_eq!(links, vec!["http://a.b/c", "https://é.x/y", "https://k"]);
}

#[test]
fn blocks_end_at_the_tag_the_next_block_or_the_end() {
    let b = find_tool_blocks("<tool_call>a<tool_call>b");
    assert_eq!(b.len(), 2);
    assert_eq!((b[0].open_start, b[0].block_end, b[0].inner_start, b[0].inner_end), (0, 12, 11, 12));
    assert_eq!((b[1].open_start, b[1].block_end, b[1].inner_start, b[1].inner_end), (12, 24, 23, 24));
    let b = find_tool_blocks("x<tool_call>a</tool_call>y");
    assert_eq!((b[0].open_start, b[0].block_end, b[0].inner_start, b[0].inner_end), (1, 25, 12, 13));
    let f = find_function_blocks("<function=a>1<function=b>2</function>3");
    assert_eq!(f.len(), 2);
    assert_eq!((f[0].name.as_str(), f[0].block.block_end), ("a", 13));
    assert_eq!((f[1].name.as_str(), f[1].block.inner_end, f[1].block.block_end), ("b", 26, 37));
}

#[test]
fn fences_count_only_without_tagged_blocks() {
    let reg = registry(&[]);
    let text = "```json\n{\"name\":\"a\"}\n``` <tool_call>{\"name\":\"b\"}</tool_call>";
    let calls = parse_tool_calls(text, &reg);
    assert_eq!(calls.len(), 1);
    assert_eq!(calls[0].name, "b");
}

#[test]
fn text_behind_a_fenced_block_stays() {
    let reg = registry(&[("Bash", "Bash")]);
    let text = "```tool_call\n{\"name\":\"Bash\",\"arguments\":{}}\n```\ndone";
    assert_eq!(strip_tool_calls(text), "\ndone");
    assert_eq!(parse_tool_calls(text, &reg).len(), 1);
    let text = "a\n```json \n{\"name\":\"x\"}```json b\n```\n{\"name\":\"y\"}\n``` c";
    assert_eq!(strip_tool_calls(text), "a\njson b\n c");
    let names: Vec<String> = parse_tool_calls(text, &reg).into_iter().map(|c| c.name).collect();
    assert_eq!(names, ["x", "y"]);
    assert_eq!(strip_tool_calls("a ```\nb"), "a ");
    let b = find_tool_blocks("```a```b```c");
    assert_eq!(b.len(), 2);
    assert_eq!((b[0].block_end, b[1].open_start, b[1].block_end), (7, 8, 12));
}

#[test]
fn objects_end_at_the_first_balance() {
    assert_eq!(scan_json_object_end(br#"{"\\":{"}":1}}}"#, 0), Some(13));
    assert_eq!(scan_json_object_end(br#"{"\"}"#, 0), None);
}

#[test]
fn written_call_is_read_back_amid_text() {
    let reg = registry(&[("shell_run", "Bash")]);
    let text = "前 <tool_call>{\"name\":\"shell_run\",\"input\":{\"c\":\"}\"}}</tool_call> 後";
    let calls = parse_tool_calls(text, &reg);
    assert_eq!(calls.len(), 1);
    assert_eq!(calls[0].name, "Bash");
    assert_eq!(calls[0].arguments.get_str("c"), Some("}"));
    assert_eq!(strip_tool_calls(text), "前  後");
}

#[test]
fn removed_blocks_can_leave_what_looks_like_a_mark() {
    let text = "<tool_<tool_call></tool_call>call>";
    assert_eq!(strip_tool_calls(text), "<tool_call>");
}

#[test]
fn identifiers_of_calls_have_their_form() {
    let reg = registry(&[]);
    let text = "<tool_call>{\"name\":\"a\"}{\"name\":\"b\"}</tool_call>";
    let calls = parse_tool_calls(text, &reg);
    for c in &calls {
        assert!(c.id.starts_with("toolu_") && c.id.len() == 14);
        assert!(c.id[6..].bytes().all(|b| b.is_ascii_digit() || (b'a'..=b'f').contains(&b)));
    }
    assert_ne!(calls[0].id, calls[1].id);
}

#[test]
fn values_are_read_as_calls() {
    let reg = registry(&[("x", "X")]);
    let c = parse_obj(&json(r#"{"tool":"x","parameters":"{\"a\":1}"}"#), &reg).unwrap();
    assert_eq!(c.name, "X");
    assert_eq!(json_to_string(&c.arguments), r#"{"a":1}"#);
    let c = parse_obj(&json(r#"{"name":"y","arguments":"plain"}"#), &reg).unwrap();
    assert_eq!((c.name.as_str(), c.arguments.as_str()), ("y", Some("plain")));
    let c = parse_obj(&json(r#"{"name":"y"}"#), &reg).unwrap();
    assert_eq!(json_to_string(&c.arguments), "{}");
    assert!(parse_obj(&json(r#"{"name":1,"tool":"x"}"#), &reg).is_none());
    assert!(parse_obj(&json("[]"), &reg).is_none());
}

#[test]
fn lists_of_calls_give_their_first() {
    let reg = registry(&[]);
    let v = json(r#"{"tool_calls":[{"name":"a"},{"name":"b"}]}"#);
    assert_eq!(parse_block_value(&v, &reg).unwrap().name, "a");
    assert!(parse_block_value(&json(r#"{"tool_calls":[],"name":"a"}"#), &reg).is_none());
}

#[test]
fn naked_values_need_a_registered_name_and_arguments() {
    let reg = registry(&[("a", "A")]);
    assert_eq!(parse_naked_value(&json(r#"{"name":"a","input":"x"}"#), &reg).unwrap().name, "A");
    assert!(parse_naked_value(&json(r#"{"name":"a","input":1}"#), &reg).is_none());
    assert!(parse_naked_value(&json(r#"{"tool":"a","input":{}}"#), &reg).is_none());
    assert!(parse_naked_value(&json(r#"{"name":"b","input":{}}"#), &reg).is_none());
}

#[test]
fn naked_calls_found_and_removed_are_the_same() {
    let reg = registry(&[("a", "A")]);
    let text = "{ {\"name\":\"a\",\"input\":{}} {\"k\":1} x";
    assert_eq!(parse_tool_calls(text, &reg).len(), 1);
    assert_eq!(strip_tool_calls_with(text, &reg), "{  {\"k\":1} x");
}

#[test]
fn function_blocks_read_parameters() {
    let reg = registry(&[("f", "F")]);
    let body = "<parameter=a> 1 </parameter><parameter=b>\n x y\n<parameter=a>[true]";
    let c = parse_function_block("f", body, &reg);
    assert_eq!(c.name, "F");
    assert_eq!(json_to_string(&c.arguments), r#"{"a":[true],"b":"x y"}"#);
    assert_eq!(json_to_string(&parse_function_block("g", "none", &reg).arguments), "{}");
}

#[test]
fn definitions_are_normalized() {
    let raw = json(
        r#"[{"type":"function","function":{"name":"Bash","description":"d","parameters":{"p":1}}},
            {"name":"T","input_schema":{"q":2},"parameters":{"r":3}},
            {"name":"U","parameters":{"r":3}},
            {"function":{"description":"nameless"}},{"name":""},{"x":1}]"#,
    );
    let tools = normalize_tools(raw.as_array().unwrap());
    let names: Vec<(&str, &str, &str)> = tools
        .iter()
        .map(|t| (t.name.as_str(), t.qwen_name.as_str(), t.description.as_str()))
        .collect();
    assert_eq!(names, vec![("Bash", "shell_run", "d"), ("T", "u_T", ""), ("U", "u_U", "")]);
    assert_eq!(json_to_string(&tools[1].parameters), r#"{"q":2}"#);
    let reg = build_registry(&tools);
    assert_eq!(reg.get("shellrun"), Some("Bash"));
    assert_eq!(reg.get("bash"), Some("Bash"));
    assert_eq!(reg.get("ut"), Some("T"));
    assert_eq!(reg.get("x"), None);
}

#[test]
fn schemas_are_cut() {
    let schema = json(r#"{"b":1,"a":"é"}"#);
    assert_eq!(compact_schema(&schema, 15), r#"{"a":"é","b":1}"#);
    assert_eq!(compact_schema(&schema, 6), r#"{"a":"…"#);
}

#[test]
fn instructions_list_the_tools() {
    let raw = json(r#"[{"name":"Bash","description":"runs"},{"name":"T"}]"#);
    let text = build_tool_instruction_block(&normalize_tools(raw.as_array().unwrap()), "any");
    assert!(text.starts_with("# 可用工具\n你可以呼叫下列工具。"));
    assert!(text.ends_with(
        "## 工具列表\n### shell_run\n說明: runs\n參數(JSON Schema): {}\n\n### u_T\n參數(JSON Schema): {}\n\n"
    ));
}

#[test]
fn tools_are_described() {
    assert_eq!(describe_tool("n", "", "{}"), "### n\n參數(JSON Schema): {}\n\n");
    assert_eq!(describe_tool("n", "d", "s"), "### n\n說明: d\n參數(JSON Schema): s\n\n");
}

#[test]
fn function_blocks_end_where_the_next_begins() {
    let reg = registry(&[("a", "A")]);
    let text = "x <function=a>\n<parameter=p>1<function=\"b\">\n<parameter=q>two";
    let calls = parse_tool_calls(text, &reg);
    let read: Vec<(&str, String)> =
        calls.iter().map(|c| (c.name.as_str(), json_to_string(&c.arguments))).collect();
    assert_eq!(read, [("A", r#"{"p":1}"#.to_string()), ("b", r#"{"q":"two"}"#.to_string())]);
    assert_eq!(strip_tool_calls(text), "x ");
}

#[test]
fn function_blocks_end_with_their_closing_tag() {
    let reg = registry(&[("a", "A")]);
    let text = "x <function = \"a\" ><parameter=p>1</parameter></function> y {\"k\":1} <function=b>z";
    let calls = parse_tool_calls(text, &reg);
    let read: Vec<(&str, String)> =
        calls.iter().map(|c| (c.name.as_str(), json_to_string(&c.arguments))).collect();
    assert_eq!(read, [("A", r#"{"p":1}"#.to_string()), ("b", "{}".to_string())]);
    assert_eq!(strip_tool_calls(text), "x  y {\"k\":1} ");
}

#[test]
fn text_around_a_block_stays_whatever_opens_inside() {
    let text = "a<tool_call>{\"name\":\"x\"}<tool_call>{\"name\":\"y\"}</tool_call>b";
    assert_eq!(strip_tool_calls(text), "ab");
    assert_eq!(strip_tool_calls("a<tool_call>1<tool_call>2"), "a");
}

#[test]
fn texts_that_look_like_calls() {
    assert!(looks_like_tool_call("a <tool_call>"));
    assert!(looks_like_tool_call("```tool_call"));
    assert!(looks_like_tool_call("<function=x"));
    assert!(!looks_like_tool_call("```json <tool_call"));
}
