//! What the call is that a value says: whose name it goes by, and what its arguments are.

use crate::ident::{is_hex, is_hex_text};
use crate::json::{object, JsonView};
use crate::json_text::{json_parse, reads_as};
use crate::text::{
    ascii_lower, find, is_white, lemma_encode_injective, lemma_find_from, occurs, stands_at,
    trim_back, trim_front,
};
use crate::text_laws::{
    all_white, is_bare, lemma_trim_front, trimming_takes_the_white_space_around,
};
use crate::text_map::TextMap;
use crate::toolcall::blocks::name_text;
use crate::toolcall::markers::{spans, Marker};
use crate::toolcall::obfuscation::{counts, norm, qwen_name};
use crate::toolcall::parse::{
    block_call, block_text_call, call_of, calls_view, found_calls, function_call, is_call_id,
    naked_call, naked_text_call, parameter_text, parameter_value, parameters, parse_tool_calls,
    resolve_name, CallView, ParsedToolCall,
};
use crate::toolcall::round_trip::{
    block_text, defined_tool_is_called_back, free_of_tags, opens_nothing,
};
use crate::toolcall::scan::object_end;
use crate::toolcall::strip::strip_tool_calls_with;
use crate::toolcall::tools::{
    build_registry, not_overridden, registry_of, tools_view, NormalizedTool, ToolView,
};
use vstd::prelude::*;
use vstd::utf8::*;

verus! {

proof fn lemma_call_fields()
    ensures
        "name"@ != "tool"@,
        "name"@ != "arguments"@,
        "name"@ != "input"@,
        "name"@ != "parameters"@,
        "name"@ != "tool_calls"@,
        "tool"@ != "arguments"@,
        "tool"@ != "input"@,
        "tool"@ != "parameters"@,
        "tool"@ != "tool_calls"@,
        "arguments"@ != "input"@,
        "arguments"@ != "parameters"@,
        "arguments"@ != "tool_calls"@,
        "input"@ != "parameters"@,
        "input"@ != "tool_calls"@,
        "parameters"@ != "tool_calls"@,
{
    reveal_strlit("name");
    reveal_strlit("tool");
    reveal_strlit("arguments");
    reveal_strlit("input");
    reveal_strlit("parameters");
    reveal_strlit("tool_calls");
    assert("name"@.len() == 4 && "name"@[0] == 'n');
    assert("tool"@.len() == 4 && "tool"@[0] == 't');
    assert("arguments"@.len() == 9);
    assert("input"@.len() == 5);
    assert("parameters"@.len() == 10 && "parameters"@[0] == 'p');
    assert("tool_calls"@.len() == 10 && "tool_calls"@[0] == 't');
}

/// A value is a call exactly where it has a `name` that is a text, or has no `name` and a
/// `tool` that is one.
pub proof fn named_values_are_calls(v: JsonView, registry: Map<Seq<char>, Seq<char>>)
    ensures
        call_of(v, registry) is Some <==> (v.get("name"@) matches Some(JsonView::Str(_))) || (
        v.get("name"@) is None && (v.get("tool"@) matches Some(JsonView::Str(_)))),
{
}

/// A call goes by the name that is registered for the one it gives, in whichever spelling it
/// gives it, and by the one it gives where none is registered.
pub proof fn calls_go_by_registered_names(
    v: JsonView,
    raw: Seq<char>,
    registry: Map<Seq<char>, Seq<char>>,
)
    requires
        v.get("name"@) == Some(JsonView::Str(raw)) || (v.get("name"@) is None && v.get("tool"@)
            == Some(JsonView::Str(raw))),
    ensures
        registry.contains_key(norm(raw)) ==> call_of(v, registry)->0.name == registry[norm(raw)],
        !registry.contains_key(norm(raw)) ==> call_of(v, registry)->0.name == raw,
        call_of(v, registry) is Some,
{
}

/// Arguments that come as a text are the value that the text is in JSON; a text that is no
/// JSON stays the text that it is.
pub proof fn argument_texts_are_read(
    v: JsonView,
    s: Seq<char>,
    registry: Map<Seq<char>, Seq<char>>,
)
    requires
        v.get("arguments"@) == Some(JsonView::Str(s)) || (v.get("arguments"@) is None && v.get(
            "input"@,
        ) == Some(JsonView::Str(s))) || (v.get("arguments"@) is None && v.get("input"@) is None
            && v.get("parameters"@) == Some(JsonView::Str(s))),
    ensures
        call_of(v, registry) matches Some(c) ==> match json_parse(encode_utf8(s)) {
            Ok(j) => c.arguments == j,
            Err(_) => c.arguments == JsonView::Str(s),
        },
{
}

/// Arguments that come as anything but a text are taken as they are; a call without any has
/// the empty object.
pub proof fn argument_values_are_kept(
    v: JsonView,
    a: JsonView,
    registry: Map<Seq<char>, Seq<char>>,
)
    requires
        !(a is Str),
        v.get("arguments"@) == Some(a) || (v.get("arguments"@) is None && v.get("input"@) == Some(
            a,
        )) || (v.get("arguments"@) is None && v.get("input"@) is None && v.get("parameters"@)
            == Some(a)) || (v.get("arguments"@) is None && v.get("input"@) is None && v.get(
            "parameters"@,
        ) is None && a == JsonView::Object(Map::empty())),
    ensures
        call_of(v, registry) matches Some(c) ==> c.arguments == a,
{
}

/// It makes no difference whether a call gives its arguments as a value or as the JSON text of
/// that value: it is the same call, in a block and bare.
pub proof fn written_arguments_make_the_same_call(
    v: JsonView,
    s: Seq<char>,
    j: JsonView,
    registry: Map<Seq<char>, Seq<char>>,
)
    requires
        v is Object,
        json_parse(encode_utf8(s)) == Ok::<JsonView, Seq<char>>(j),
        !(j is Str),
    ensures
        call_of(v.with("arguments"@, JsonView::Str(s)), registry) == call_of(
            v.with("arguments"@, j),
            registry,
        ),
        block_call(v.with("arguments"@, JsonView::Str(s)), registry) == block_call(
            v.with("arguments"@, j),
            registry,
        ),
        j is Object ==> naked_call(v.with("arguments"@, JsonView::Str(s)), registry) == naked_call(
            v.with("arguments"@, j),
            registry,
        ),
        v.get("arguments"@) is None ==> call_of(v.with("input"@, JsonView::Str(s)), registry)
            == call_of(v.with("input"@, j), registry),
        v.get("arguments"@) is None && v.get("input"@) is None ==> call_of(
            v.with("parameters"@, JsonView::Str(s)),
            registry,
        ) == call_of(v.with("parameters"@, j), registry),
{
    lemma_call_fields();
}

/// It makes no difference under which of its three names a call gives its arguments, nor under
/// which of its two names it gives the name of its tool.
pub proof fn field_names_make_no_difference(
    name: Seq<char>,
    arguments: JsonView,
    registry: Map<Seq<char>, Seq<char>>,
)
    ensures
        ({
            let named = object().with("name"@, JsonView::Str(name));
            let tooled = object().with("tool"@, JsonView::Str(name));
            let call = call_of(named.with("arguments"@, arguments), registry);
            &&& call is Some
            &&& call_of(named.with("input"@, arguments), registry) == call
            &&& call_of(named.with("parameters"@, arguments), registry) == call
            &&& call_of(tooled.with("arguments"@, arguments), registry) == call
            &&& call_of(tooled.with("input"@, arguments), registry) == call
            &&& call_of(tooled.with("parameters"@, arguments), registry) == call
            &&& !(arguments is Str) ==> call->0.arguments == arguments
        }),
{
    lemma_call_fields();
}

/// In a block, a list under `tool_calls` stands for its first item, and a value without such a
/// list for itself.
pub proof fn block_lists_give_their_first_call(
    v: JsonView,
    list: Seq<JsonView>,
    registry: Map<Seq<char>, Seq<char>>,
)
    ensures
        v.get("tool_calls"@) == Some(JsonView::Array(list)) && list.len() > 0 ==> block_call(
            v,
            registry,
        ) == call_of(list[0], registry),
        v.get("tool_calls"@) == Some(JsonView::Array(list)) && list.len() == 0 ==> block_call(
            v,
            registry,
        ) is None,
        !(v.get("tool_calls"@) matches Some(JsonView::Array(_))) ==> block_call(v, registry)
            == call_of(v, registry),
{
}

/// A bare object is a call exactly where its `name` is registered and one of its three fields
/// for arguments holds an object or a text; it is then the call that it would be in a block.
pub proof fn bare_objects_need_name_and_arguments(
    v: JsonView,
    registry: Map<Seq<char>, Seq<char>>,
)
    ensures
        naked_call(v, registry) is Some <==> {
            &&& v.get("name"@) matches Some(JsonView::Str(raw)) && registry.contains_key(norm(raw))
            &&& {
                ||| v.get("arguments"@) matches Some(JsonView::Object(_))
                ||| v.get("arguments"@) matches Some(JsonView::Str(_))
                ||| v.get("input"@) matches Some(JsonView::Object(_))
                ||| v.get("input"@) matches Some(JsonView::Str(_))
                ||| v.get("parameters"@) matches Some(JsonView::Object(_))
                ||| v.get("parameters"@) matches Some(JsonView::Str(_))
            }
        },
        naked_call(v, registry) is Some ==> naked_call(v, registry) == call_of(v, registry),
{
}

/// A text is a call only as the JSON value that it is.
pub proof fn texts_are_calls_as_values(
    text: Seq<u8>,
    v: JsonView,
    registry: Map<Seq<char>, Seq<char>>,
)
    ensures
        json_parse(text) is Err ==> block_text_call(text, registry) is None && naked_text_call(
            text,
            registry,
        ) is None,
        json_parse(text) == Ok::<JsonView, Seq<char>>(v) ==> block_text_call(text, registry)
            == block_call(v, registry) && naked_text_call(text, registry) == naked_call(
            v,
            registry,
        ),
{
}

/// A parameter's value is what stands behind its tag without the white space around it.
pub proof fn open_parameters_run_to_the_end(front: Seq<char>, value: Seq<char>, back: Seq<char>)
    requires
        all_white(front),
        all_white(back),
        is_bare(value),
        !occurs(value, "</parameter>"@),
    ensures
        parameter_text(front + value + back) == value,
{
    trimming_takes_the_white_space_around(front, value, back);
    lemma_find_from(value, "</parameter>"@, 0);
}

/// A parameter's value ends at the first closing tag, whatever stands behind it.
pub proof fn closed_parameters_end_at_their_tag(
    front: Seq<char>,
    value: Seq<char>,
    back: Seq<char>,
    rest: Seq<char>,
)
    requires
        all_white(front),
        all_white(back),
        is_bare(value),
        !occurs(value + back, "</parameter>"@),
    ensures
        parameter_text(front + value + back + "</parameter>"@ + rest) == value,
{
    reveal_strlit("</parameter>");
    let tag = "</parameter>"@;
    let vb = value + back;
    let n = vb.len() as int;
    let raw = front + value + back + tag + rest;
    // The white space in front goes, as far as the value or the tag.
    let lead = if value.len() > 0 {
        Seq::empty()
    } else {
        back
    };
    let kept = if value.len() > 0 {
        vb
    } else {
        Seq::empty()
    };
    let t = kept + tag + rest;
    assert(raw =~= (front + lead) + t);
    assert(all_white(front + lead));
    lemma_trim_front(front + lead, t);
    if value.len() > 0 {
        assert(t[0] == value[0]);
    } else {
        assert(t[0] == tag[0]);
    }
    assert(trim_front(raw) == t);
    // Behind, no more than the rest goes.
    lemma_trim_keeps(kept + tag, rest);
    let s = trim_back(t);
    let m = kept.len() as int;
    assert(s.subrange(m, m + 12) =~= tag) by {
        assert forall|i: int| 0 <= i < 12 implies s[m + i] == tag[i] by {
            assert(s[m + i] == (kept + tag)[m + i]);
        }
    }
    assert(stands_at(s, tag, m));
    assert forall|i: int| 0 <= i < m implies !stands_at(s, tag, i) by {
        if stands_at(s, tag, i) {
            let w = s.subrange(i, i + 12);
            if i + 12 <= m {
                assert(vb.subrange(i, i + 12) =~= tag) by {
                    assert forall|k: int| 0 <= k < 12 implies vb[i + k] == tag[k] by {
                        assert(w[k] == s[i + k]);
                        assert(s[i + k] == (kept + tag)[i + k]);
                    }
                }
                assert(stands_at(vb, tag, i));
            } else {
                assert(w[m - i] == s[m]);
                assert(s[m] == (kept + tag)[m]);
                assert(tag[0] == '<');
                assert(tag[m - i] != '<');
            }
        }
    }
    lemma_find_from(s, tag, 0);
    assert(find(s, tag) == Some(m));
    assert(s.take(m) =~= kept);
    if value.len() > 0 {
        assert(Seq::<char>::empty() + value + back =~= kept);
        trimming_takes_the_white_space_around(Seq::empty(), value, back);
    } else {
        assert(kept =~= value);
    }
}

proof fn lemma_trim_keeps(s: Seq<char>, rest: Seq<char>)
    requires
        s.len() > 0,
        !is_white(s.last()),
    ensures
        trim_back(s + rest).len() >= s.len(),
        trim_back(s + rest).len() <= (s + rest).len(),
        forall|i: int| 0 <= i < s.len() ==> #[trigger] trim_back(s + rest)[i] == s[i],
    decreases rest.len(),
{
    let t = s + rest;
    if rest.len() > 0 {
        if is_white(t.last()) {
            assert(t.drop_last() =~= s + rest.drop_last());
            lemma_trim_keeps(s, rest.drop_last());
        }
    } else {
        assert(t =~= s);
    }
}

/// Every parameter of a function block is an argument of its call, under its name, read as the
/// JSON that it is or else as the text that it is; of several with one name the last counts.
/// The call has no other arguments.
pub proof fn parameters_are_the_arguments(
    raw_name: Seq<char>,
    body: Seq<u8>,
    i: int,
    value: Seq<char>,
    registry: Map<Seq<char>, Seq<char>>,
)
    requires
        ({
            let tags = spans(Marker::ParameterOpen, body);
            &&& 0 <= i < tags.len()
            &&& forall|j: int|
                i < j < tags.len() ==> name_text(body, #[trigger] tags[j]) != name_text(
                    body,
                    tags[i],
                )
            &&& value == parameter_text(
                decode_utf8(
                    body.subrange(tags[i].end, if i + 1 < tags.len() {
                        tags[i + 1].start
                    } else {
                        body.len() as int
                    }),
                ),
            )
        }),
    ensures
        ({
            let tags = spans(Marker::ParameterOpen, body);
            let arguments = function_call(raw_name, body, registry).arguments;
            &&& arguments.get(name_text(body, tags[i])) == Some(
                match json_parse(encode_utf8(value)) {
                    Ok(j) => j,
                    Err(_) => JsonView::Str(value),
                },
            )
            &&& forall|key: Seq<char>| #[trigger]
                arguments.get(key) is Some ==> exists|k: int|
                    0 <= k < tags.len() && name_text(body, #[trigger] tags[k]) == key
        }),
{
    let tags = spans(Marker::ParameterOpen, body);
    lemma_parameters(body, tags.len() as int, i);
}

proof fn lemma_parameters(body: Seq<u8>, n: int, i: int)
    requires
        0 <= i < n <= spans(Marker::ParameterOpen, body).len(),
        forall|j: int|
            i < j < n ==> name_text(body, #[trigger] spans(Marker::ParameterOpen, body)[j])
                != name_text(body, spans(Marker::ParameterOpen, body)[i]),
    ensures
        parameters(body, n).contains_key(name_text(body, spans(Marker::ParameterOpen, body)[i])),
        parameters(body, n)[name_text(body, spans(Marker::ParameterOpen, body)[i])]
            == parameter_value(body, i),
        forall|key: Seq<char>| #[trigger]
            parameters(body, n).contains_key(key) ==> exists|k: int|
                0 <= k < n && name_text(body, #[trigger] spans(Marker::ParameterOpen, body)[k])
                    == key,
    decreases n,
{
    let tags = spans(Marker::ParameterOpen, body);
    lemma_parameter_names(body, n);
    if i < n - 1 {
        lemma_parameters(body, n - 1, i);
        assert(name_text(body, tags[n - 1]) != name_text(body, tags[i]));
    }
}

proof fn lemma_parameter_names(body: Seq<u8>, n: int)
    requires
        n <= spans(Marker::ParameterOpen, body).len(),
    ensures
        forall|key: Seq<char>| #[trigger]
            parameters(body, n).contains_key(key) ==> exists|k: int|
                0 <= k < n && name_text(body, #[trigger] spans(Marker::ParameterOpen, body)[k])
                    == key,
    decreases n,
{
    if n > 0 {
        let tags = spans(Marker::ParameterOpen, body);
        lemma_parameter_names(body, n - 1);
        assert forall|key: Seq<char>| #[trigger]
            parameters(body, n).contains_key(key) implies exists|k: int|
            0 <= k < n && name_text(body, #[trigger] tags[k]) == key by {
            if parameters(body, n - 1).contains_key(key) {
                let k = choose|k: int| 0 <= k < n - 1 && name_text(body, #[trigger] tags[k]) == key;
                assert(name_text(body, tags[k]) == key);
            } else {
                assert(name_text(body, tags[n - 1]) == key);
            }
        }
    }
}

proof fn lemma_norm_concat(a: Seq<char>, b: Seq<char>)
    ensures
        norm(a + b) == norm(a) + norm(b),
    decreases b.len(),
{
    if b.len() > 0 {
        assert((a + b).drop_last() =~= a + b.drop_last());
        assert((a + b).last() == b.last());
        lemma_norm_concat(a, b.drop_last());
        assert(norm(a + b) =~= norm(a) + norm(b));
    } else {
        assert(a + b =~= a);
        assert(norm(a) + norm(b) =~= norm(a));
    }
}

proof fn lemma_norm_one(c: char)
    ensures
        norm(seq![c]) == (if counts(c) {
            seq![ascii_lower(c)]
        } else {
            Seq::empty()
        }),
{
    assert(seq![c].drop_last() =~= Seq::empty());
    assert(norm(Seq::<char>::empty()) =~= Seq::empty());
    assert(norm(seq![c]) =~= if counts(c) {
        seq![ascii_lower(c)]
    } else {
        Seq::empty()
    });
}

/// An ASCII character that is neither a letter nor a digit makes no difference to a name,
/// wherever it stands.
pub proof fn punctuation_makes_no_difference(a: Seq<char>, c: char, b: Seq<char>)
    requires
        (c as u32) < 0x80,
        !('a' <= c <= 'z'),
        !('A' <= c <= 'Z'),
        !('0' <= c <= '9'),
    ensures
        norm(a + seq![c] + b) == norm(a + b),
{
    lemma_norm_concat(a + seq![c], b);
    lemma_norm_concat(a, seq![c]);
    lemma_norm_concat(a, b);
    lemma_norm_one(c);
    assert(norm(a) + Seq::empty() =~= norm(a));
}

/// Whether an ASCII letter is a capital makes no difference to a name.
pub proof fn capitals_make_no_difference(a: Seq<char>, upper: char, small: char, b: Seq<char>)
    requires
        'A' <= upper <= 'Z',
        small as u32 == upper as u32 + 32,
    ensures
        norm(a + seq![upper] + b) == norm(a + seq![small] + b),
{
    lemma_norm_concat(a + seq![upper], b);
    lemma_norm_concat(a, seq![upper]);
    lemma_norm_concat(a + seq![small], b);
    lemma_norm_concat(a, seq![small]);
    lemma_norm_one(upper);
    lemma_norm_one(small);
    assert(ascii_lower(upper) == small);
}

/// All else does: two names in small letters, digits and characters outside ASCII are found
/// as one only if they are one.
pub proof fn plain_names_stand_for_themselves(name: Seq<char>)
    requires
        forall|i: int|
            0 <= i < name.len() ==> 'a' <= #[trigger] name[i] <= 'z' || '0' <= name[i] <= '9' || (
            name[i] as u32) >= 0x80,
    ensures
        norm(name) == name,
    decreases name.len(),
{
    if name.len() > 0 {
        plain_names_stand_for_themselves(name.drop_last());
        assert(name.last() == name[name.len() - 1]);
        assert(name.drop_last().push(name.last()) =~= name);
    }
}

/// A name that the model gives is looked up without regard to its spelling; one that is not
/// registered stays as it was given.
pub proof fn names_are_looked_up(registry: Map<Seq<char>, Seq<char>>, raw: Seq<char>)
    ensures
        registry.contains_key(norm(raw)) ==> resolve_name(registry, raw) == registry[norm(raw)],
        !registry.contains_key(norm(raw)) ==> resolve_name(registry, raw) == raw,
{
}

/// A defined tool that the model calls in a block by its upstream name is called back by the
/// client's name, with the arguments that stand in the block: the value under `arguments`, or
/// what a text there is in JSON.
pub proof fn arguments_reach_the_client(
    tools: Seq<ToolView>,
    i: int,
    pre: Seq<char>,
    json: Seq<char>,
    post: Seq<char>,
    v: JsonView,
    j: JsonView,
)
    requires
        0 <= i < tools.len(),
        not_overridden(tools, i, norm(tools[i].qwen_name)),
        opens_nothing(encode_utf8(pre)),
        opens_nothing(encode_utf8(post)),
        free_of_tags(encode_utf8(json)),
        object_end(encode_utf8(json), 0) == Some(encode_utf8(json).len() - 1),
        reads_as(encode_utf8(json), v),
        v.get("name"@) == Some(JsonView::Str(tools[i].qwen_name)),
        !(v.get("tool_calls"@) matches Some(JsonView::Array(_))),
        v.get("arguments"@) matches Some(JsonView::Str(s)) ==> reads_as(encode_utf8(s), j),
        v.get("arguments"@) is Some && !(v.get("arguments"@)->0 is Str) ==> v.get("arguments"@)
            == Some(j),
        v.get("arguments"@) is Some,
    ensures
        found_calls(encode_utf8(block_text(pre, json, post)), registry_of(tools)) == seq![
            CallView { name: tools[i].name, arguments: j },
        ],
{
    defined_tool_is_called_back(tools, i, pre, json, post, v);
}

/// A function block is a call of the tool that its tag names, found like any other name.
pub proof fn function_blocks_go_by_registered_names(
    raw_name: Seq<char>,
    body: Seq<u8>,
    registry: Map<Seq<char>, Seq<char>>,
)
    ensures
        registry.contains_key(norm(raw_name)) ==> function_call(raw_name, body, registry).name
            == registry[norm(raw_name)],
        !registry.contains_key(norm(raw_name)) ==> function_call(raw_name, body, registry).name
            == raw_name,
        function_call(raw_name, body, registry).arguments is Object,
{
}

/// The identifier of a call is its prefix and eight hexadecimal digits.
pub proof fn call_identifiers_have_their_form(id: Seq<char>)
    requires
        is_call_id(id),
    ensures
        id.len() == 14,
        stands_at(id, "toolu_"@, 0),
        forall|i: int| 6 <= i < 14 ==> is_hex(#[trigger] id[i]),
{
    reveal_strlit("toolu_");
    let digits = choose|digits: Seq<char>| #[trigger]
        is_hex_text(digits, 8) && id == "toolu_"@ + digits;
    assert(id.subrange(0, 6) =~= "toolu_"@);
    assert forall|i: int| 6 <= i < 14 implies is_hex(#[trigger] id[i]) by {
        assert(id[i] == digits[i - 6]);
    }
}

/// A text in which the model calls a defined tool by its upstream name gives the client one
/// call: of that tool, by the client's name, with the arguments that stand in the block, whether
/// as a value or as the JSON text of it. The rest of the text stays, and the call is gone from
/// it.
pub proof fn parsed_calls_are_those_that_were_written(
    tools: &Vec<NormalizedTool>,
    registry: TextMap,
    text: &str,
    calls: Vec<ParsedToolCall>,
    left: String,
    i: int,
    pre: Seq<char>,
    json: Seq<char>,
    post: Seq<char>,
    v: JsonView,
    j: JsonView,
)
    requires
        call_ensures(build_registry, (tools,), registry),
        call_ensures(parse_tool_calls, (text, &registry), calls),
        call_ensures(strip_tool_calls_with, (text, &registry), left),
        text@ == pre + "<tool_call>"@ + json + "</tool_call>"@ + post,
        0 <= i < tools@.len(),
        not_overridden(tools_view(tools@), i, norm(tools@[i].qwen_name@)),
        opens_nothing(encode_utf8(pre)),
        opens_nothing(encode_utf8(post)),
        free_of_tags(encode_utf8(json)),
        object_end(encode_utf8(json), 0) == Some(encode_utf8(json).len() - 1),
        reads_as(encode_utf8(json), v),
        v.get("name"@) == Some(JsonView::Str(tools@[i].qwen_name@)),
        !(v.get("tool_calls"@) matches Some(JsonView::Array(_))),
        v.get("arguments"@) is Some,
        v.get("arguments"@) matches Some(JsonView::Str(s)) ==> reads_as(encode_utf8(s), j),
        !(v.get("arguments"@)->0 is Str) ==> v.get("arguments"@) == Some(j),
    ensures
        calls@.len() == 1,
        calls@[0].name@ == tools@[i].name@,
        calls@[0].arguments@ == j,
        left@ == pre + post,
{
    let views = tools_view(tools@);
    assert(text@ =~= block_text(pre, json, post));
    assert(views[i] == tools@[i]@);
    arguments_reach_the_client(views, i, pre, json, post, v, j);
    defined_tool_is_called_back(views, i, pre, json, post, v);
    let shown = calls_view(calls@);
    assert(shown.len() == calls@.len());
    assert(shown[0] == calls@[0]@);
    lemma_encode_injective(left@, pre + post);
}

/// Nothing is registered but the names of the tools, each for a tool that goes by it.
pub proof fn only_tools_are_registered(tools: Seq<ToolView>, key: Seq<char>)
    requires
        registry_of(tools).contains_key(key),
    ensures
        exists|i: int|
            0 <= i < tools.len() && registry_of(tools)[key] == (#[trigger] tools[i]).name && (key
                == norm(tools[i].name) || key == norm(tools[i].qwen_name)),
    decreases tools.len(),
{
    let n = tools.len() - 1;
    let rest = tools.drop_last();
    assert(tools.last() == tools[n]);
    if key != norm(tools[n].name) && key != norm(tools[n].qwen_name) {
        only_tools_are_registered(rest, key);
        let i = choose|i: int|
            0 <= i < rest.len() && registry_of(rest)[key] == (#[trigger] rest[i]).name && (key
                == norm(rest[i].name) || key == norm(rest[i].qwen_name));
        assert(tools[i] == rest[i]);
    }
}

/// The upstream hears of a tool under a name that holds the client's, except for the two that it
/// would take for its own.
pub proof fn upstream_names_hold_the_clients(name: Seq<char>)
    ensures
        name != "Bash"@ && name != "Read"@ ==> qwen_name(name).len() == name.len() + 2 && stands_at(
            qwen_name(name),
            name,
            2,
        ) && stands_at(qwen_name(name), "u_"@, 0),
        qwen_name("Bash"@) == "shell_run"@,
        qwen_name("Read"@) == "fs_open_file"@,
{
    reveal_strlit("Bash");
    reveal_strlit("Read");
    assert("Bash"@.len() == 4 && "Bash"@[0] == 'B');
    assert("Read"@.len() == 4 && "Read"@[0] == 'R');
    reveal_strlit("u_");
    let q = "u_"@ + name;
    assert(q.subrange(2, 2 + name.len() as int) =~= name);
    assert(q.subrange(0, 2) =~= "u_"@);
}

} // verus!
