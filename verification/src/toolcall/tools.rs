//! The definitions of tools: reading them, finding them again by name, and describing them to
//! the model.

use crate::json::{items_view, lemma_items_view, object, Json, JsonView};
use crate::json_text::{json_text, json_to_string};
use crate::text::{char_vec, contains_text, occurs, text_between};
use crate::text_map::{lookup, TextMap};
use crate::toolcall::obfuscation::{norm, norm_key, qwen_name, to_qwen_name};
use crate::toolcall::parse::{first_of, opt_seq, resolve_name};
use vstd::prelude::*;

verus! {

/// A tool: the client's name of it, the upstream's, what it does, and the JSON schema of its
/// parameters.
#[derive(Debug)]
pub struct NormalizedTool {
    pub name: String,
    pub qwen_name: String,
    pub description: String,
    pub parameters: Json,
}

/// A tool, as values.
pub struct ToolView {
    pub name: Seq<char>,
    pub qwen_name: Seq<char>,
    pub description: Seq<char>,
    pub parameters: JsonView,
}

impl View for NormalizedTool {
    type V = ToolView;

    open spec fn view(&self) -> ToolView {
        ToolView {
            name: self.name@,
            qwen_name: self.qwen_name@,
            description: self.description@,
            parameters: self.parameters@,
        }
    }
}

/// The tools, as values.
pub open spec fn tools_view(tools: Seq<NormalizedTool>) -> Seq<ToolView> {
    tools.map_values(|t: NormalizedTool| t@)
}

// ---------------------------------------------------------------------------
// Reading definitions
// ---------------------------------------------------------------------------

/// A text, or the empty one where there is none.
pub open spec fn or_empty(s: Option<Seq<char>>) -> Seq<char> {
    match s {
        Some(x) => x,
        None => Seq::empty(),
    }
}

/// A value, or the empty object where there is none.
pub open spec fn or_object(v: Option<JsonView>) -> JsonView {
    match v {
        Some(x) => x,
        None => object(),
    }
}

/// The tool of a name, unless the name is empty.
pub open spec fn tool_named(
    name: Seq<char>,
    description: Option<Seq<char>>,
    parameters: Option<JsonView>,
) -> Option<ToolView> {
    if name.len() == 0 {
        None
    } else {
        Some(
            ToolView {
                name,
                qwen_name: qwen_name(name),
                description: or_empty(description),
                parameters: or_object(parameters),
            },
        )
    }
}

/// The tool that a definition defines: under `function`, or by its own `name`.
pub open spec fn defined_tool(t: JsonView) -> Option<ToolView> {
    match t.get("function"@) {
        Some(func) => tool_named(
            or_empty(func.get_str("name"@)),
            func.get_str("description"@),
            func.get("parameters"@),
        ),
        None => tool_named(
            or_empty(t.get_str("name"@)),
            t.get_str("description"@),
            first_of(t.get("input_schema"@), t.get("parameters"@)),
        ),
    }
}

/// The tools that definitions define, without those that have no name.
pub open spec fn defined_tools(raw: Seq<JsonView>) -> Seq<ToolView>
    decreases raw.len(),
{
    if raw.len() == 0 {
        Seq::empty()
    } else {
        defined_tools(raw.drop_last()) + opt_seq(defined_tool(raw.last()))
    }
}

fn text_or_empty(s: Option<&str>) -> (r: String)
    ensures
        r@ == or_empty(crate::text::opt_text(s)),
{
    match s {
        Some(x) => x.to_string(),
        None => {
            let r = String::new();
            proof {
                assert(r@ =~= Seq::empty());
            }
            r
        },
    }
}

fn copy_or_object(v: Option<&Json>) -> (r: Json)
    ensures
        r@ == or_object(crate::json::opt_json(v)),
{
    match v {
        Some(x) => x.copy(),
        None => Json::object(),
    }
}

/// The tool that a definition defines.
pub fn normalize_tool(t: &Json) -> (r: Option<NormalizedTool>)
    ensures
        match r {
            Some(tool) => defined_tool(t@) == Some(tool@),
            None => defined_tool(t@) is None,
        },
{
    let (name, description, parameters) = match t.get("function") {
        Some(func) => (func.get_str("name"), func.get_str("description"), func.get("parameters")),
        None => (
            t.get_str("name"),
            t.get_str("description"),
            match t.get("input_schema") {
                Some(x) => Some(x),
                None => t.get("parameters"),
            },
        ),
    };
    let name = text_or_empty(name);
    if name.as_str().is_empty() {
        return None;
    }
    Some(
        NormalizedTool {
            qwen_name: to_qwen_name(name.as_str()),
            description: text_or_empty(description),
            parameters: copy_or_object(parameters),
            name,
        },
    )
}

/// The tools that definitions define, in either of the two common forms. One without a name
/// is left out.
pub fn normalize_tools(raw: &Vec<Json>) -> (r: Vec<NormalizedTool>)
    ensures
        tools_view(r@) == defined_tools(items_view(raw@)),
{
    let mut out: Vec<NormalizedTool> = Vec::new();
    let n: usize = raw.len();
    let ghost views = items_view(raw@);
    proof {
        lemma_items_view(raw@);
        assert(tools_view(out@) =~= defined_tools(views.take(0)));
    }
    let mut i: usize = 0;
    while i < n
        invariant
            n == raw@.len(),
            n == views.len(),
            forall|k: int| 0 <= k < n ==> #[trigger] views[k] == raw@[k]@,
            i <= n,
            tools_view(out@) == defined_tools(views.take(i as int)),
        decreases n - i,
    {
        let ghost before = out@;
        proof {
            assert(views.take(i as int + 1).drop_last() =~= views.take(i as int));
            assert(views.take(i as int + 1).last() == views[i as int]);
        }
        match normalize_tool(&raw[i]) {
            Some(tool) => {
                out.push(tool);
                proof {
                    assert(tools_view(out@) =~= tools_view(before) + seq![tool@]);
                }
            },
            None => {
                proof {
                    assert(tools_view(out@) =~= tools_view(before) + Seq::<ToolView>::empty());
                }
            },
        }
        i += 1;
    }
    proof {
        assert(views.take(n as int) =~= views);
    }
    out
}

// ---------------------------------------------------------------------------
// Finding tools by name
// ---------------------------------------------------------------------------

/// The names under which tools are found, each with the client's name of the tool: the
/// upstream's name and the client's own. A later tool overrides an earlier one.
pub open spec fn registry_of(tools: Seq<ToolView>) -> Map<Seq<char>, Seq<char>>
    decreases tools.len(),
{
    if tools.len() == 0 {
        Map::empty()
    } else {
        let t = tools.last();
        registry_of(tools.drop_last()).insert(norm(t.qwen_name), t.name).insert(
            norm(t.name),
            t.name,
        )
    }
}

/// The names under which tools are found.
pub fn build_registry(tools: &Vec<NormalizedTool>) -> (r: TextMap)
    ensures
        r@ == registry_of(tools_view(tools@)),
{
    let mut m = TextMap::new();
    let n: usize = tools.len();
    let ghost views = tools_view(tools@);
    let mut i: usize = 0;
    while i < n
        invariant
            n == tools@.len(),
            views == tools_view(tools@),
            i <= n,
            m@ == registry_of(views.take(i as int)),
        decreases n - i,
    {
        let t = &tools[i];
        m.insert(norm_key(t.qwen_name.as_str()), t.name.as_str().to_string());
        m.insert(norm_key(t.name.as_str()), t.name.as_str().to_string());
        proof {
            assert(views.take(i as int + 1).drop_last() =~= views.take(i as int));
            assert(views.take(i as int + 1).last() == views[i as int]);
        }
        i += 1;
    }
    proof {
        assert(views.take(n as int) =~= views);
    }
    m
}

/// No tool behind the `i`th goes by the same name as it, in whichever spelling.
pub open spec fn not_overridden(tools: Seq<ToolView>, i: int, key: Seq<char>) -> bool {
    forall|j: int|
        i < j < tools.len() ==> norm((#[trigger] tools[j]).name) != key && norm(
            tools[j].qwen_name,
        ) != key
}

proof fn lemma_registered(tools: Seq<ToolView>, i: int, key: Seq<char>)
    requires
        0 <= i < tools.len(),
        key == norm(tools[i].name) || key == norm(tools[i].qwen_name),
        not_overridden(tools, i, key),
    ensures
        lookup(registry_of(tools), key) == Some(tools[i].name),
    decreases tools.len(),
{
    if i < tools.len() - 1 {
        let rest = tools.drop_last();
        assert forall|j: int| i < j < rest.len() implies norm((#[trigger] rest[j]).name) != key
            && norm(rest[j].qwen_name) != key by {
            assert(rest[j] == tools[j]);
        }
        lemma_registered(rest, i, key);
        assert(tools.last() == tools[tools.len() - 1]);
    }
}

/// A tool is found by the upstream's name and by the client's own, and goes by the client's
/// name again, unless a later tool has taken the name.
pub proof fn registered_tools_are_found(tools: Seq<ToolView>, i: int)
    requires
        0 <= i < tools.len(),
    ensures
        not_overridden(tools, i, norm(tools[i].qwen_name)) ==> resolve_name(
            registry_of(tools),
            tools[i].qwen_name,
        ) == tools[i].name,
        not_overridden(tools, i, norm(tools[i].name)) ==> resolve_name(
            registry_of(tools),
            tools[i].name,
        ) == tools[i].name,
{
    if not_overridden(tools, i, norm(tools[i].qwen_name)) {
        lemma_registered(tools, i, norm(tools[i].qwen_name));
    }
    if not_overridden(tools, i, norm(tools[i].name)) {
        lemma_registered(tools, i, norm(tools[i].name));
    }
}

/// Every definition that has a name gives a tool whose upstream name is made from its name.
pub proof fn defined_tools_are_named(raw: Seq<JsonView>)
    ensures
        forall|i: int|
            0 <= i < defined_tools(raw).len() ==> (#[trigger] defined_tools(raw)[i]).name.len()
                > 0 && defined_tools(raw)[i].qwen_name == qwen_name(defined_tools(raw)[i].name),
        defined_tools(raw).len() <= raw.len(),
    decreases raw.len(),
{
    if raw.len() > 0 {
        defined_tools_are_named(raw.drop_last());
        let head = defined_tools(raw.drop_last());
        let all = defined_tools(raw);
        assert forall|i: int| 0 <= i < all.len() implies (#[trigger] all[i]).name.len() > 0
            && all[i].qwen_name == qwen_name(all[i].name) by {
            if i < head.len() {
                assert(all[i] == head[i]);
            }
        }
    }
}

// ---------------------------------------------------------------------------
// Describing tools
// ---------------------------------------------------------------------------

/// A text, cut behind `cap` characters and marked with an ellipsis where it is longer.
pub open spec fn capped(s: Seq<char>, cap: int) -> Seq<char> {
    if s.len() > cap {
        s.take(cap).push('…')
    } else {
        s
    }
}

/// The text of a schema, cut behind `cap` characters.
pub fn compact_schema(schema: &Json, cap: usize) -> (r: String)
    ensures
        r@ == capped(json_text(schema@), cap as int),
{
    let s = json_to_string(schema);
    cap_text(s, cap)
}

/// A text, cut behind `cap` characters and marked with an ellipsis where it is longer.
pub fn cap_text(s: String, cap: usize) -> (r: String)
    ensures
        r@ == capped(s@, cap as int),
{
    let chars = char_vec(s.as_str());
    if chars.len() > cap {
        let mut r = text_between(&chars, 0, cap);
        proof {
            assert(s@.subrange(0, cap as int) =~= s@.take(cap as int));
        }
        r.push('…');
        r
    } else {
        s
    }
}

/// What the model is told before the list of the tools.
pub open spec fn instruction_head() -> Seq<char> {
    "# 可用工具\n"@
        + "你可以呼叫下列工具。**需要呼叫工具時**，請輸出一個或多個 `<tool_call>` 區塊，格式如下（每個工具一個區塊，內容為合法 JSON）：\n"@
        + "<tool_call>{\"name\": \"工具名\", \"arguments\": {\"參數\": \"值\"}}</tool_call>\n"@
        + "不要在 <tool_call> 之外解釋你要呼叫工具；若不需要工具則正常自然語言回答。\n\n"@
        + "## 工具列表\n"@
}

/// What the model is told of a tool: its name for the upstream, what it does where that is
/// known, and the text of its schema, cut where it is long.
pub open spec fn section_text(
    qwen_name: Seq<char>,
    description: Seq<char>,
    schema: Seq<char>,
) -> Seq<char> {
    "### "@ + qwen_name + "\n"@ + (if description.len() > 0 {
        "說明: "@ + description + "\n"@
    } else {
        Seq::empty()
    }) + "參數(JSON Schema): "@ + schema + "\n\n"@
}

/// What the model is told of a tool.
pub open spec fn tool_section(t: ToolView) -> Seq<char> {
    section_text(t.qwen_name, t.description, capped(json_text(t.parameters), 700))
}

/// What the model is told of the tools.
pub open spec fn tool_sections(tools: Seq<ToolView>) -> Seq<char>
    decreases tools.len(),
{
    if tools.len() == 0 {
        Seq::empty()
    } else {
        tool_sections(tools.drop_last()) + tool_section(tools.last())
    }
}

/// What the model is told of a tool, given the text of its schema.
pub fn describe_tool(qwen_name: &str, description: &str, schema: &str) -> (r: String)
    ensures
        r@ == section_text(qwen_name@, description@, schema@),
{
    let mut s = "### ".to_string();
    s.append(qwen_name);
    s.append("\n");
    if !description.is_empty() {
        s.append("說明: ");
        s.append(description);
        s.append("\n");
    }
    s.append("參數(JSON Schema): ");
    s.append(schema);
    s.append("\n\n");
    proof {
        assert(s@ =~= section_text(qwen_name@, description@, schema@));
    }
    s
}

fn append_section(s: &mut String, t: &NormalizedTool)
    ensures
        final(s)@ == old(s)@ + tool_section(t@),
{
    let schema = compact_schema(&t.parameters, 700);
    let text = describe_tool(t.qwen_name.as_str(), t.description.as_str(), schema.as_str());
    s.append(text.as_str());
}

/// The instructions that teach the tools to the model. They are the same for every client.
pub fn build_tool_instruction_block(tools: &Vec<NormalizedTool>, _client_profile: &str) -> (r:
    String)
    ensures
        r@ == instruction_head() + tool_sections(tools_view(tools@)),
{
    let mut s = String::new();
    s.append("# 可用工具\n");
    s.append(
        "你可以呼叫下列工具。**需要呼叫工具時**，請輸出一個或多個 `<tool_call>` 區塊，格式如下（每個工具一個區塊，內容為合法 JSON）：\n",
    );
    s.append("<tool_call>{\"name\": \"工具名\", \"arguments\": {\"參數\": \"值\"}}</tool_call>\n");
    s.append("不要在 <tool_call> 之外解釋你要呼叫工具；若不需要工具則正常自然語言回答。\n\n");
    s.append("## 工具列表\n");
    let n: usize = tools.len();
    let ghost views = tools_view(tools@);
    proof {
        assert(s@ =~= instruction_head() + tool_sections(views.take(0)));
    }
    let mut i: usize = 0;
    while i < n
        invariant
            n == tools@.len(),
            views == tools_view(tools@),
            i <= n,
            s@ == instruction_head() + tool_sections(views.take(i as int)),
        decreases n - i,
    {
        append_section(&mut s, &tools[i]);
        proof {
            assert(views.take(i as int + 1).drop_last() =~= views.take(i as int));
            assert(views.take(i as int + 1).last() == views[i as int]);
            assert(s@ =~= instruction_head() + tool_sections(views.take(i as int + 1)));
        }
        i += 1;
    }
    proof {
        assert(views.take(n as int) =~= views);
    }
    s
}

/// Whether a text seems to hold a call: a sign to hold it back while it is still coming in.
pub fn looks_like_tool_call(text: &str) -> (r: bool)
    ensures
        r == (occurs(text@, "<tool_call>"@) || occurs(text@, "```tool_call"@) || occurs(
            text@,
            "<function="@,
        )),
{
    contains_text(text, "<tool_call>") || contains_text(text, "```tool_call") || contains_text(
        text,
        "<function=",
    )
}

} // verus!
