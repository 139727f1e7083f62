//! What becomes of the definition of a tool: what is taken out of it, and what the model is
//! told of it.

use crate::json::{items_view, lemma_items_view, object, Json, JsonView};
use crate::json_text::json_text;
use crate::text::{occurs, stands_at};
use crate::toolcall::obfuscation::qwen_name;
use crate::toolcall::parse::opt_seq;
use crate::toolcall::tools::{
    build_tool_instruction_block, capped, defined_tool, defined_tools, instruction_head,
    looks_like_tool_call, normalize_tool, section_text, tool_section, tool_sections, tools_view,
    NormalizedTool, ToolView,
};
use vstd::prelude::*;

verus! {

/// A definition under `function` gives the tool of that name, with the schema that stands
/// under `parameters` and the description that stands beside it.
pub proof fn function_definitions_are_taken(
    t: JsonView,
    f: JsonView,
    name: Seq<char>,
    schema: JsonView,
    description: Seq<char>,
)
    requires
        t.get("function"@) == Some(f),
        f.get("name"@) == Some(JsonView::Str(name)),
        name.len() > 0,
        f.get("parameters"@) == Some(schema) || (f.get("parameters"@) is None && schema
            == JsonView::Object(Map::empty())),
        f.get("description"@) == Some(JsonView::Str(description)) || (!(f.get(
            "description"@,
        ) matches Some(JsonView::Str(_))) && description.len() == 0),
    ensures
        defined_tool(t) matches Some(tool) && tool.name == name && tool.parameters == schema
            && tool.description == description && tool.qwen_name == qwen_name(name),
{
    assert(description.len() == 0 ==> description =~= Seq::empty());
}

/// A definition with a name of its own gives the tool of that name, with the schema that stands
/// under `input_schema`, or else under `parameters`, and the description that stands beside it.
pub proof fn plain_definitions_are_taken(
    t: JsonView,
    name: Seq<char>,
    schema: JsonView,
    description: Seq<char>,
)
    requires
        t.get("function"@) is None,
        t.get("name"@) == Some(JsonView::Str(name)),
        name.len() > 0,
        t.get("input_schema"@) == Some(schema) || (t.get("input_schema"@) is None && t.get(
            "parameters"@,
        ) == Some(schema)) || (t.get("input_schema"@) is None && t.get("parameters"@) is None
            && schema == JsonView::Object(Map::empty())),
        t.get("description"@) == Some(JsonView::Str(description)) || (!(t.get(
            "description"@,
        ) matches Some(JsonView::Str(_))) && description.len() == 0),
    ensures
        defined_tool(t) matches Some(tool) && tool.name == name && tool.parameters == schema
            && tool.description == description && tool.qwen_name == qwen_name(name),
{
    assert(description.len() == 0 ==> description =~= Seq::empty());
}

/// The forms in which a tool can be defined say the same.
pub proof fn definition_forms_agree(name: Seq<char>, description: Seq<char>, schema: JsonView)
    ensures
        ({
            let base = object().with("name"@, JsonView::Str(name)).with(
                "description"@,
                JsonView::Str(description),
            );
            let nested = object().with("type"@, JsonView::Str("function"@)).with(
                "function"@,
                base.with("parameters"@, schema),
            );
            &&& defined_tool(nested) == defined_tool(base.with("input_schema"@, schema))
            &&& defined_tool(nested) == defined_tool(base.with("parameters"@, schema))
            &&& defined_tool(nested) is Some <==> name.len() > 0
        }),
{
    reveal_strlit("type");
    reveal_strlit("function");
    reveal_strlit("name");
    reveal_strlit("description");
    reveal_strlit("parameters");
    reveal_strlit("input_schema");
    assert("type"@.len() == 4 && "type"@[0] == 't');
    assert("function"@.len() == 8);
    assert("name"@.len() == 4 && "name"@[0] == 'n');
    assert("description"@.len() == 11);
    assert("parameters"@.len() == 10);
    assert("input_schema"@.len() == 12);
}

/// A definition gives no tool exactly where it has no name: not under `function` where that is
/// there, and not of its own where it is not.
pub proof fn nameless_definitions_give_no_tool(t: JsonView)
    ensures
        defined_tool(t) is None <==> match t.get("function"@) {
            Some(f) => !(f.get("name"@) matches Some(JsonView::Str(n)) && n.len() > 0),
            None => !(t.get("name"@) matches Some(JsonView::Str(n)) && n.len() > 0),
        },
{
}

/// Definitions are read one by one, in order.
pub proof fn definitions_are_read_one_by_one(a: Seq<JsonView>, b: Seq<JsonView>)
    ensures
        defined_tools(a + b) == defined_tools(a) + defined_tools(b),
        a.len() == 1 ==> defined_tools(a) == opt_seq(defined_tool(a[0])),
        a.len() == 1 && defined_tool(a[0]) is Some ==> defined_tools(a) == seq![
            defined_tool(a[0])->0,
        ],
        a.len() == 1 && defined_tool(a[0]) is None ==> defined_tools(a).len() == 0,
    decreases b.len(),
{
    if a.len() == 1 {
        assert(a.drop_last() =~= Seq::empty());
        assert(defined_tools(a.drop_last()) =~= Seq::empty());
        assert(defined_tools(a) =~= opt_seq(defined_tool(a[0])));
    }
    if b.len() > 0 {
        assert((a + b).drop_last() =~= a + b.drop_last());
        assert((a + b).last() == b.last());
        definitions_are_read_one_by_one(a, b.drop_last());
        assert(defined_tools(a + b) =~= defined_tools(a) + defined_tools(b));
    } else {
        assert(a + b =~= a);
        assert(defined_tools(b) =~= Seq::empty());
        assert(defined_tools(a) + defined_tools(b) =~= defined_tools(a));
    }
}

/// A text within the limit is left alone; of a longer one the first characters stay, as many as
/// the limit says, with an ellipsis behind them.
pub proof fn long_texts_are_cut(s: Seq<char>, cap: int)
    requires
        0 <= cap,
    ensures
        s.len() <= cap ==> capped(s, cap) == s,
        s.len() > cap ==> capped(s, cap).len() == cap + 1 && capped(s, cap).last() == '…'
            && forall|i: int| 0 <= i < cap ==> #[trigger] capped(s, cap)[i] == s[i],
{
}

proof fn lemma_sections(tools: Seq<ToolView>, i: int)
    requires
        0 <= i < tools.len(),
    ensures
        tool_sections(tools) == tool_sections(tools.take(i)) + tool_section(tools[i])
            + tool_sections(tools.skip(i + 1)),
    decreases tools.len(),
{
    if i == tools.len() - 1 {
        assert(tools.drop_last() =~= tools.take(i));
        assert(tools.skip(i + 1) =~= Seq::empty());
        assert(tool_sections(tools.skip(i + 1)) =~= Seq::empty());
        assert(tool_sections(tools) =~= tool_sections(tools.take(i)) + tool_section(tools[i])
            + tool_sections(tools.skip(i + 1)));
    } else {
        let rest = tools.drop_last();
        lemma_sections(rest, i);
        assert(rest.take(i) =~= tools.take(i));
        assert(tools.skip(i + 1).drop_last() =~= rest.skip(i + 1));
        assert(tools.skip(i + 1).last() == tools.last());
        assert(tool_sections(tools) =~= tool_sections(tools.take(i)) + tool_section(tools[i])
            + tool_sections(tools.skip(i + 1)));
    }
}

/// The model is told of every tool in its turn: its name for the upstream as a heading, behind
/// that its description, and behind that the text of its schema, of which a long one shows the
/// first 700 characters. The next tool comes behind all of it.
pub proof fn instructions_tell_of_every_tool(tools: Seq<ToolView>, i: int) -> (r: (int, int, int))
    requires
        0 <= i < tools.len(),
    ensures
        ({
            let text = instruction_head() + tool_sections(tools);
            let schema = json_text(tools[i].parameters);
            let (name_at, description_at, schema_at) = r;
            &&& instruction_head().len() + tool_sections(tools.take(i)).len() == name_at
            &&& stands_at(text, "### "@ + tools[i].qwen_name + "\n"@, name_at)
            &&& name_at + tools[i].qwen_name.len() < description_at
            &&& stands_at(text, tools[i].description, description_at)
            &&& description_at + tools[i].description.len() <= schema_at
            &&& schema.len() <= 700 ==> stands_at(text, schema, schema_at)
            &&& schema.len() > 700 ==> stands_at(text, schema.take(700).push('…'), schema_at)
            &&& schema_at + (if schema.len() <= 700 {
                schema.len() as int
            } else {
                701
            }) < instruction_head().len() + tool_sections(tools.take(i + 1)).len()
        }),
{
    lemma_sections(tools, i);
    let t = tools[i];
    let text = instruction_head() + tool_sections(tools);
    let schema = capped(json_text(t.parameters), 700);
    let at = (instruction_head() + tool_sections(tools.take(i))).len() as int;
    let heading = "### "@ + t.qwen_name + "\n"@;
    reveal_strlit("### ");
    reveal_strlit("\n");
    reveal_strlit("\n\n");
    reveal_strlit("說明: ");
    reveal_strlit("參數(JSON Schema): ");
    let told = if t.description.len() > 0 {
        "說明: "@ + t.description + "\n"@
    } else {
        Seq::empty()
    };
    let lead = "參數(JSON Schema): "@;
    let section = heading + told + lead + schema + "\n\n"@;
    assert(section_text(t.qwen_name, t.description, schema) =~= section);
    assert(tools.take(i + 1).drop_last() =~= tools.take(i));
    assert(tools.take(i + 1).last() == t);
    assert(tool_sections(tools.take(i + 1)) == tool_sections(tools.take(i)) + section);
    assert(forall|k: int|
        0 <= k < section.len() ==> #[trigger] text[at + k] == section[k]) by {
        assert(text =~= (instruction_head() + tool_sections(tools.take(i))) + section
            + tool_sections(tools.skip(i + 1)));
    }
    assert(at + section.len() <= text.len());
    let d = if t.description.len() > 0 {
        at + heading.len() + "說明: "@.len()
    } else {
        at + heading.len()
    };
    let s = at + heading.len() + told.len() + lead.len();
    assert(text.subrange(at, at + heading.len()) =~= heading) by {
        assert forall|k: int| 0 <= k < heading.len() implies text[at + k] == heading[k] by {
            assert(section[k] == heading[k]);
        }
    }
    assert(text.subrange(d, d + t.description.len()) =~= t.description) by {
        assert forall|k: int| 0 <= k < t.description.len() implies text[d + k]
            == t.description[k] by {
            assert(section[d - at + k] == told[d - at - heading.len() + k]);
            assert(text[at + (d - at + k)] == section[d - at + k]);
        }
    }
    assert(text.subrange(s, s + schema.len()) =~= schema) by {
        assert forall|k: int| 0 <= k < schema.len() implies text[s + k] == schema[k] by {
            assert(section[s - at + k] == schema[k]);
            assert(text[at + (s - at + k)] == section[s - at + k]);
        }
    }
    (at, d, s)
}

/// The schema that a client sends with a tool is the one whose text the model is given, under
/// the tool's name, in whichever form the tool is defined.
pub proof fn schemas_reach_the_model(
    raw: Seq<JsonView>,
    i: int,
    name: Seq<char>,
    schema: JsonView,
) -> (r: (int, int))
    requires
        0 <= i < raw.len(),
        name.len() > 0,
        ({
            ||| raw[i].get("function"@) matches Some(f) && f.get("name"@) == Some(
                JsonView::Str(name),
            ) && f.get("parameters"@) == Some(schema)
            ||| raw[i].get("function"@) is None && raw[i].get("name"@) == Some(JsonView::Str(name))
                && raw[i].get("input_schema"@) == Some(schema)
            ||| raw[i].get("function"@) is None && raw[i].get("name"@) == Some(JsonView::Str(name))
                && raw[i].get("input_schema"@) is None && raw[i].get("parameters"@) == Some(schema)
        }),
    ensures
        ({
            let text = instruction_head() + tool_sections(defined_tools(raw));
            let (name_at, schema_at) = r;
            &&& stands_at(text, "### "@ + qwen_name(name) + "\n"@, name_at)
            &&& name_at + qwen_name(name).len() < schema_at
            &&& json_text(schema).len() <= 700 ==> stands_at(text, json_text(schema), schema_at)
            &&& json_text(schema).len() > 700 ==> stands_at(
                text,
                json_text(schema).take(700).push('…'),
                schema_at,
            )
        }),
{
    let tools = defined_tools(raw);
    let before = raw.take(i);
    let one = raw.subrange(i, i + 1);
    let after = raw.skip(i + 1);
    assert(raw =~= before + one + after);
    definitions_are_read_one_by_one(before + one, after);
    definitions_are_read_one_by_one(before, one);
    definitions_are_read_one_by_one(one, after);
    let k = defined_tools(before).len() as int;
    let tool = defined_tool(raw[i])->0;
    assert(one[0] == raw[i]);
    assert(tools[k] == tool);
    let (name_at, _description_at, schema_at) = instructions_tell_of_every_tool(tools, k);
    assert(tool.name == name && tool.parameters == schema && tool.qwen_name == qwen_name(name));
    (name_at, schema_at)
}

/// A definition of either form becomes the tool that it names, with the schema and the
/// description that it gives.
pub proof fn definitions_become_tools(
    t: &Json,
    r: Option<NormalizedTool>,
    name: Seq<char>,
    schema: JsonView,
    description: Seq<char>,
)
    requires
        call_ensures(normalize_tool, (t,), r),
        name.len() > 0,
        ({
            let d = match t@.get("function"@) {
                Some(f) => f,
                None => t@,
            };
            &&& d.get("name"@) == Some(JsonView::Str(name))
            &&& d.get("description"@) == Some(JsonView::Str(description))
            &&& t@.get("function"@) is Some ==> d.get("parameters"@) == Some(schema)
            &&& t@.get("function"@) is None ==> d.get("input_schema"@) == Some(schema) || (d.get(
                "input_schema"@,
            ) is None && d.get("parameters"@) == Some(schema))
        }),
    ensures
        r matches Some(tool) && tool.name@ == name && tool.parameters@ == schema
            && tool.description@ == description && tool.qwen_name@ == qwen_name(name),
{
}

/// The instructions for the tools of a list of definitions give every schema that was sent,
/// under the name of its tool.
pub proof fn sent_schemas_are_in_the_instructions(
    raw: &Vec<Json>,
    tools: &Vec<NormalizedTool>,
    profile: &str,
    text: String,
    i: int,
    name: Seq<char>,
    schema: JsonView,
) -> (r: (int, int))
    requires
        tools_view(tools@) == defined_tools(items_view(raw@)),
        call_ensures(build_tool_instruction_block, (tools, profile), text),
        0 <= i < raw@.len(),
        name.len() > 0,
        ({
            let d = raw@[i]@;
            ||| d.get("function"@) matches Some(f) && f.get("name"@) == Some(JsonView::Str(name))
                && f.get("parameters"@) == Some(schema)
            ||| d.get("function"@) is None && d.get("name"@) == Some(JsonView::Str(name)) && d.get(
                "input_schema"@,
            ) == Some(schema)
            ||| d.get("function"@) is None && d.get("name"@) == Some(JsonView::Str(name)) && d.get(
                "input_schema"@,
            ) is None && d.get("parameters"@) == Some(schema)
        }),
    ensures
        stands_at(text@, "### "@ + qwen_name(name) + "\n"@, r.0),
        r.0 < r.1,
        json_text(schema).len() <= 700 ==> stands_at(text@, json_text(schema), r.1),
        json_text(schema).len() > 700 ==> stands_at(
            text@,
            json_text(schema).take(700).push('…'),
            r.1,
        ),
{
    lemma_items_view(raw@);
    schemas_reach_the_model(items_view(raw@), i, name, schema)
}

/// A text seems to hold a call exactly where one of the three beginnings of a call stands in it.
pub proof fn signs_of_calls_are_seen(text: &str, r: bool, a: Seq<char>, b: Seq<char>)
    requires
        call_ensures(looks_like_tool_call, (text,), r),
    ensures
        text@ == a + "<tool_call>"@ + b ==> r,
        text@ == a + "```tool_call"@ + b ==> r,
        text@ == a + "<function="@ + b ==> r,
        !text@.contains('<') && !text@.contains('`') ==> !r,
{
    let n = a.len() as int;
    lemma_between(a, "<tool_call>"@, b);
    lemma_between(a, "```tool_call"@, b);
    lemma_between(a, "<function="@, b);
    reveal_strlit("<tool_call>");
    reveal_strlit("```tool_call");
    reveal_strlit("<function=");
    if r && !text@.contains('<') && !text@.contains('`') {
        assert forall|i: int| !stands_at(text@, "<tool_call>"@, i) by {
            if stands_at(text@, "<tool_call>"@, i) {
                assert(text@.subrange(i, i + 11)[0] == text@[i]);
                assert("<tool_call>"@[0] == '<');
            }
        }
        assert forall|i: int| !stands_at(text@, "```tool_call"@, i) by {
            if stands_at(text@, "```tool_call"@, i) {
                assert(text@.subrange(i, i + 12)[0] == text@[i]);
                assert("```tool_call"@[0] == '`');
            }
        }
        assert forall|i: int| !stands_at(text@, "<function="@, i) by {
            if stands_at(text@, "<function="@, i) {
                assert(text@.subrange(i, i + 10)[0] == text@[i]);
                assert("<function="@[0] == '<');
            }
        }
    }
}

/// A text stands between what stands before it and what stands behind it.
pub proof fn lemma_between(a: Seq<char>, s: Seq<char>, b: Seq<char>)
    ensures
        stands_at(a + s + b, s, a.len() as int),
        occurs(a + s + b, s),
{
    let t = a + s + b;
    assert(t.subrange(a.len() as int, a.len() as int + s.len()) =~= s);
    assert(stands_at(t, s, a.len() as int));
}

/// Whatever tools there are, the model is first told the form of a call, which is the one that
/// calls are read back from, and it is told the same for every client.
pub proof fn instructions_show_the_form_of_a_call(
    tools: &Vec<NormalizedTool>,
    profile: &str,
    other: &str,
    text: String,
    same: String,
)
    requires
        call_ensures(build_tool_instruction_block, (tools, profile), text),
        call_ensures(build_tool_instruction_block, (tools, other), same),
    ensures
        occurs(
            text@,
            "<tool_call>{\"name\": \"工具名\", \"arguments\": {\"參數\": \"值\"}}</tool_call>\n"@,
        ),
        text@ == same@,
{
    let a = "# 可用工具\n"@
        + "你可以呼叫下列工具。**需要呼叫工具時**，請輸出一個或多個 `<tool_call>` 區塊，格式如下（每個工具一個區塊，內容為合法 JSON）：\n"@;
    let form = "<tool_call>{\"name\": \"工具名\", \"arguments\": {\"參數\": \"值\"}}</tool_call>\n"@;
    let b = "不要在 <tool_call> 之外解釋你要呼叫工具；若不需要工具則正常自然語言回答。\n\n"@ + "## 工具列表\n"@
        + tool_sections(tools_view(tools@));
    assert(text@ =~= a + form + b);
    lemma_between(a, form, b);
}

} // verus!
