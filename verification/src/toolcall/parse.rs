//! Reading the calls out of a model's answer.

use crate::ident::{is_hex_text, short_id};
use crate::json::{object, Json, JsonView};
use crate::json_text::{json_parse, parse_json};
use crate::text::{
    char_vec, find, find_chars, lemma_boundary_after_ascii, lemma_find_from, slice_text, text_between,
    trim_text, trimmed,
};
use crate::text_map::{lookup, TextMap};
use crate::toolcall::blocks::{
    find_function_blocks, find_tool_blocks, function_blocks, lemma_function_blocks,
    lemma_next_start, lemma_tool_blocks, mark_name, name_text, next_start, tool_blocks, Block,
    BlockView, FunctionBlock, FunctionBlockView,
};
use crate::toolcall::markers::{find_marks, spans, Marker, Span};
use crate::toolcall::obfuscation::{norm, norm_key};
use crate::toolcall::scan::{
    lemma_objects_between, lemma_scan_end, object_end, objects_between, pair_view,
    scan_json_object_end, split_json_objects,
};
use vstd::prelude::*;
use vstd::utf8::*;

verus! {

/// A call: its identifier, the client's name of the tool, and the arguments.
#[derive(Debug)]
pub struct ParsedToolCall {
    pub id: String,
    pub name: String,
    pub arguments: Json,
}

/// What a call says: which tool, with which arguments.
pub struct CallView {
    pub name: Seq<char>,
    pub arguments: JsonView,
}

impl View for ParsedToolCall {
    type V = CallView;

    open spec fn view(&self) -> CallView {
        CallView { name: self.name@, arguments: self.arguments@ }
    }
}

/// The identifier of a call: `toolu_` and eight hexadecimal digits.
pub open spec fn is_call_id(id: Seq<char>) -> bool {
    exists|digits: Seq<char>| #[trigger] is_hex_text(digits, 8) && id == "toolu_"@ + digits
}

/// What the calls say.
pub open spec fn calls_view(calls: Seq<ParsedToolCall>) -> Seq<CallView> {
    calls.map_values(|c: ParsedToolCall| c@)
}

/// Every call has an identifier of its kind.
pub open spec fn have_ids(calls: Seq<ParsedToolCall>) -> bool {
    forall|i: int| 0 <= i < calls.len() ==> is_call_id((#[trigger] calls[i]).id@)
}

// ---------------------------------------------------------------------------
// What a value says
// ---------------------------------------------------------------------------

/// The client's name of a tool that the model names; a name that is not registered stays as
/// it is.
pub open spec fn resolve_name(registry: Map<Seq<char>, Seq<char>>, raw: Seq<char>) -> Seq<char> {
    match lookup(registry, norm(raw)) {
        Some(name) => name,
        None => raw,
    }
}

/// The first value that is there.
pub open spec fn first_of(a: Option<JsonView>, b: Option<JsonView>) -> Option<JsonView> {
    match a {
        Some(_) => a,
        None => b,
    }
}

/// A text as a value: the JSON that it is, or else the text itself.
pub open spec fn read_value(s: Seq<char>) -> JsonView {
    match json_parse(encode_utf8(s)) {
        Ok(j) => j,
        Err(_) => JsonView::Str(s),
    }
}

/// The arguments of a call: its `arguments`, else its `input`, else its `parameters`, else
/// none. A text is read as JSON where it is that.
pub open spec fn call_arguments(v: JsonView) -> JsonView {
    match first_of(v.get("arguments"@), first_of(v.get("input"@), v.get("parameters"@))) {
        Some(JsonView::Str(s)) => read_value(s),
        Some(other) => other,
        None => object(),
    }
}

/// The call that a value is: it has a `name`, or else a `tool`, that is a text.
pub open spec fn call_of(v: JsonView, registry: Map<Seq<char>, Seq<char>>) -> Option<CallView> {
    match first_of(v.get("name"@), v.get("tool"@)) {
        Some(JsonView::Str(raw)) => Some(
            CallView { name: resolve_name(registry, raw), arguments: call_arguments(v) },
        ),
        _ => None,
    }
}

/// The call that a value in a block is: of a list under `tool_calls` the first, otherwise the
/// value itself.
pub open spec fn block_call(v: JsonView, registry: Map<Seq<char>, Seq<char>>) -> Option<
    CallView,
> {
    match v.get_array("tool_calls"@) {
        Some(list) => if list.len() > 0 {
            call_of(list[0], registry)
        } else {
            None
        },
        None => call_of(v, registry),
    }
}

/// A value that arguments can be.
pub open spec fn argument_like(v: Option<JsonView>) -> bool {
    v matches Some(JsonView::Object(_)) || v matches Some(JsonView::Str(_))
}

/// The call that a bare value is: only one whose name is registered and that has arguments.
pub open spec fn naked_call(v: JsonView, registry: Map<Seq<char>, Seq<char>>) -> Option<
    CallView,
> {
    match v.get_str("name"@) {
        Some(raw) => if registry.contains_key(norm(raw)) && (argument_like(v.get("arguments"@))
            || argument_like(v.get("input"@)) || argument_like(v.get("parameters"@))) {
            call_of(v, registry)
        } else {
            None
        },
        None => None,
    }
}

/// The call that a text in a block is.
pub open spec fn block_text_call(
    text: Seq<u8>,
    registry: Map<Seq<char>, Seq<char>>,
) -> Option<CallView> {
    match json_parse(text) {
        Ok(v) => block_call(v, registry),
        Err(_) => None,
    }
}

/// The call that a bare text is.
pub open spec fn naked_text_call(
    text: Seq<u8>,
    registry: Map<Seq<char>, Seq<char>>,
) -> Option<CallView> {
    match json_parse(text) {
        Ok(v) => naked_call(v, registry),
        Err(_) => None,
    }
}

/// The value of a parameter: what stands behind its tag, without the white space around it,
/// up to its closing tag where there is one.
pub open spec fn parameter_text(raw: Seq<char>) -> Seq<char> {
    let s = trimmed(raw);
    match find(s, "</parameter>"@) {
        Some(at) => trimmed(s.take(at)),
        None => s,
    }
}

/// The value of the `i`th parameter in the body of a function block.
pub open spec fn parameter_value(body: Seq<u8>, i: int) -> JsonView {
    let params = spans(Marker::ParameterOpen, body);
    read_value(
        parameter_text(
            decode_utf8(
                body.subrange(params[i].end, next_start(params, i, body.len() as int)),
            ),
        ),
    )
}

/// The first `n` parameters in the body of a function block.
pub open spec fn parameters(body: Seq<u8>, n: int) -> Map<Seq<char>, JsonView>
    decreases n,
{
    if n <= 0 {
        Map::empty()
    } else {
        parameters(body, n - 1).insert(
            name_text(body, spans(Marker::ParameterOpen, body)[n - 1]),
            parameter_value(body, n - 1),
        )
    }
}

/// The call that a function block is.
pub open spec fn function_call(
    raw_name: Seq<char>,
    body: Seq<u8>,
    registry: Map<Seq<char>, Seq<char>>,
) -> CallView {
    CallView {
        name: resolve_name(registry, raw_name),
        arguments: JsonView::Object(
            parameters(body, spans(Marker::ParameterOpen, body).len() as int),
        ),
    }
}

// ---------------------------------------------------------------------------
// What a text says
// ---------------------------------------------------------------------------

/// A call where there is one.
pub open spec fn opt_seq<T>(x: Option<T>) -> Seq<T> {
    match x {
        Some(v) => seq![v],
        None => Seq::empty(),
    }
}

/// The text of an object.
pub open spec fn object_text(b: Seq<u8>, o: (int, int)) -> Seq<u8> {
    b.subrange(o.0, o.1 + 1)
}

/// The calls among the objects of a block.
pub open spec fn object_calls(
    b: Seq<u8>,
    objects: Seq<(int, int)>,
    registry: Map<Seq<char>, Seq<char>>,
) -> Seq<CallView>
    decreases objects.len(),
{
    if objects.len() == 0 {
        Seq::empty()
    } else {
        object_calls(b, objects.drop_last(), registry) + opt_seq(
            block_text_call(object_text(b, objects.last()), registry),
        )
    }
}

/// The calls in the blocks.
pub open spec fn block_calls(
    b: Seq<u8>,
    blocks: Seq<BlockView>,
    registry: Map<Seq<char>, Seq<char>>,
) -> Seq<CallView>
    decreases blocks.len(),
{
    if blocks.len() == 0 {
        Seq::empty()
    } else {
        let last = blocks.last();
        block_calls(b, blocks.drop_last(), registry) + object_calls(
            b,
            objects_between(b, last.inner_start, last.inner_end),
            registry,
        )
    }
}

/// The calls that the function blocks are.
pub open spec fn function_calls(
    b: Seq<u8>,
    blocks: Seq<FunctionBlockView>,
    registry: Map<Seq<char>, Seq<char>>,
) -> Seq<CallView> {
    Seq::new(
        blocks.len(),
        |i: int|
            function_call(
                blocks[i].name,
                b.subrange(blocks[i].block.inner_start, blocks[i].block.inner_end),
                registry,
            ),
    )
}

/// The objects in a text from `i` on; a brace that is never closed is passed over.
pub open spec fn all_objects(b: Seq<u8>, i: int) -> Seq<(int, int)>
    decreases b.len() - i,
{
    if i < 0 || i >= b.len() {
        Seq::empty()
    } else {
        match object_end(b, i) {
            Some(e) => if i <= e < b.len() {
                seq![(i, e)] + all_objects(b, e + 1)
            } else {
                Seq::empty()
            },
            None => all_objects(b, i + 1),
        }
    }
}

/// The bare calls among the objects.
pub open spec fn naked_calls(
    b: Seq<u8>,
    objects: Seq<(int, int)>,
    registry: Map<Seq<char>, Seq<char>>,
) -> Seq<CallView>
    decreases objects.len(),
{
    if objects.len() == 0 {
        Seq::empty()
    } else {
        naked_calls(b, objects.drop_last(), registry) + opt_seq(
            naked_text_call(object_text(b, objects.last()), registry),
        )
    }
}

/// Whether bare objects are looked at: where there is no block and some tool is registered.
pub open spec fn seeks_naked(b: Seq<u8>, registry: Map<Seq<char>, Seq<char>>) -> bool {
    &&& tool_blocks(b).len() == 0
    &&& function_blocks(b).len() == 0
    &&& registry != Map::<Seq<char>, Seq<char>>::empty()
}

/// The calls in a text: those in the blocks, then the function blocks; bare objects where
/// they are looked at.
pub open spec fn found_calls(b: Seq<u8>, registry: Map<Seq<char>, Seq<char>>) -> Seq<CallView> {
    block_calls(b, tool_blocks(b), registry) + function_calls(b, function_blocks(b), registry) + (
    if seeks_naked(b, registry) {
        naked_calls(b, all_objects(b, 0), registry)
    } else {
        Seq::empty()
    })
}

/// The objects of a text lie in it, begin and end with a brace, and follow one another.
pub proof fn lemma_all_objects(b: Seq<u8>, i: int)
    requires
        0 <= i,
    ensures
        forall|k: int|
            #![trigger all_objects(b, i)[k]]
            0 <= k < all_objects(b, i).len() ==> {
                let o = all_objects(b, i)[k];
                i <= o.0 <= o.1 < b.len() && b[o.0] == 0x7b && b[o.1] == 0x7d
            },
    decreases b.len() - i,
{
    let all = all_objects(b, i);
    if i < b.len() {
        lemma_scan_end(b, i, 0, false, false);
        match object_end(b, i) {
            Some(e) => {
                lemma_all_objects(b, e + 1);
                let rest = all_objects(b, e + 1);
                assert(all =~= seq![(i, e)] + rest);
                assert forall|k: int| #![trigger all[k]] 0 <= k < all.len() implies {
                    let o = all[k];
                    i <= o.0 <= o.1 < b.len() && b[o.0] == 0x7b && b[o.1] == 0x7d
                } by {
                    if k > 0 {
                        assert(all[k] == rest[k - 1]);
                    }
                }
            },
            None => {
                lemma_all_objects(b, i + 1);
                assert(all == all_objects(b, i + 1));
            },
        }
    }
}

// ---------------------------------------------------------------------------
// Reading values
// ---------------------------------------------------------------------------

/// A fresh identifier for a call.
fn call_id() -> (r: String)
    ensures
        is_call_id(r@),
{
    let digits = short_id(8);
    let mut r = "toolu_".to_string();
    r.append(digits.as_str());
    r
}

/// The client's name of a tool that the model names.
pub fn canonical_name(registry: &TextMap, raw: &str) -> (r: String)
    ensures
        r@ == resolve_name(registry@, raw@),
{
    match registry.get(norm_key(raw).as_str()) {
        Some(name) => name.to_string(),
        None => raw.to_string(),
    }
}

/// A text as a value: the JSON that it is, or else the text itself.
pub fn value_of_text(s: &str) -> (r: Json)
    ensures
        r@ == read_value(s@),
{
    match parse_json(s) {
        Some(j) => j,
        None => Json::str(s),
    }
}

/// The call that a value is.
pub fn parse_obj(v: &Json, registry: &TextMap) -> (r: Option<ParsedToolCall>)
    ensures
        match r {
            Some(c) => call_of(v@, registry@) == Some(c@) && is_call_id(c.id@),
            None => call_of(v@, registry@) is None,
        },
{
    let named = match v.get("name") {
        Some(x) => Some(x),
        None => v.get("tool"),
    };
    let raw_name = match named {
        Some(x) => match x.as_str() {
            Some(s) => s,
            None => {
                return None;
            },
        },
        None => {
            return None;
        },
    };
    let found = match v.get("arguments") {
        Some(x) => Some(x),
        None => match v.get("input") {
            Some(x) => Some(x),
            None => v.get("parameters"),
        },
    };
    let arguments = match found {
        Some(x) => match x.as_str() {
            Some(s) => value_of_text(s),
            None => x.copy(),
        },
        None => Json::object(),
    };
    Some(ParsedToolCall { id: call_id(), name: canonical_name(registry, raw_name), arguments })
}

/// The call that a value in a block is.
pub fn parse_block_value(v: &Json, registry: &TextMap) -> (r: Option<ParsedToolCall>)
    ensures
        match r {
            Some(c) => block_call(v@, registry@) == Some(c@) && is_call_id(c.id@),
            None => block_call(v@, registry@) is None,
        },
{
    match v.get_array("tool_calls") {
        Some(list) => if list.len() > 0 {
            proof {
                crate::json::lemma_items_view(list@);
            }
            parse_obj(&list[0], registry)
        } else {
            proof {
                crate::json::lemma_items_view(list@);
            }
            None
        },
        None => parse_obj(v, registry),
    }
}

/// The call that a text in a block is.
pub fn parse_one(json_str: &str, registry: &TextMap) -> (r: Option<ParsedToolCall>)
    ensures
        match r {
            Some(c) => block_text_call(encode_utf8(json_str@), registry@) == Some(c@)
                && is_call_id(c.id@),
            None => block_text_call(encode_utf8(json_str@), registry@) is None,
        },
{
    match parse_json(json_str) {
        Some(v) => parse_block_value(&v, registry),
        None => None,
    }
}

fn can_be_arguments(v: Option<&Json>) -> (r: bool)
    ensures
        r == argument_like(crate::json::opt_json(v)),
{
    match v {
        Some(x) => x.is_object() || x.is_string(),
        None => false,
    }
}

/// The call that a bare value is.
pub fn parse_naked_value(v: &Json, registry: &TextMap) -> (r: Option<ParsedToolCall>)
    ensures
        match r {
            Some(c) => naked_call(v@, registry@) == Some(c@) && is_call_id(c.id@),
            None => naked_call(v@, registry@) is None,
        },
{
    let raw_name = match v.get_str("name") {
        Some(s) => s,
        None => {
            return None;
        },
    };
    if !registry.contains_key(norm_key(raw_name).as_str()) {
        return None;
    }
    if can_be_arguments(v.get("arguments")) || can_be_arguments(v.get("input"))
        || can_be_arguments(v.get("parameters")) {
        parse_obj(v, registry)
    } else {
        None
    }
}

/// The call that a bare text is.
pub fn parse_naked_one(json_str: &str, registry: &TextMap) -> (r: Option<ParsedToolCall>)
    ensures
        match r {
            Some(c) => naked_text_call(encode_utf8(json_str@), registry@) == Some(c@)
                && is_call_id(c.id@),
            None => naked_text_call(encode_utf8(json_str@), registry@) is None,
        },
{
    match parse_json(json_str) {
        Some(v) => parse_naked_value(&v, registry),
        None => None,
    }
}

/// The value of a parameter out of what stands behind its tag.
pub fn read_parameter(raw: &str) -> (r: Json)
    ensures
        r@ == read_value(parameter_text(raw@)),
{
    let s = trim_text(raw);
    let chars = char_vec(s.as_str());
    let close = char_vec("</parameter>");
    match find_chars(&chars, &close) {
        Some(at) => {
            proof {
                lemma_find_from(s@, "</parameter>"@, 0);
            }
            let head = text_between(&chars, 0, at);
            proof {
                assert(s@.subrange(0, at as int) =~= s@.take(at as int));
            }
            value_of_text(trim_text(head.as_str()).as_str())
        },
        None => value_of_text(s.as_str()),
    }
}

/// The call that a function block is.
pub fn parse_function_block(raw_name: &str, body: &str, registry: &TextMap) -> (r: ParsedToolCall)
    ensures
        r@ == function_call(raw_name@, encode_utf8(body@), registry@),
        is_call_id(r.id@),
{
    let ghost b = encode_utf8(body@);
    proof {
        encode_utf8_valid_utf8(body@);
    }
    let len: usize = body.as_bytes().len();
    let marks = find_marks(Marker::ParameterOpen, body);
    let ghost params = spans(Marker::ParameterOpen, b);
    let n: usize = marks.len();
    proof {
        assert(n == params.len());
    }
    let mut args = Json::object();
    let mut i: usize = 0;
    while i < n
        invariant
            valid_utf8(b),
            b == encode_utf8(body@),
            len == b.len(),
            n == marks@.len(),
            n == params.len(),
            params == spans(Marker::ParameterOpen, b),
            marks@.map_values(|s: Span| s@) == params,
            i <= n,
            args@ == JsonView::Object(parameters(b, i as int)),
        decreases n - i,
    {
        proof {
            lemma_next_start(Marker::ParameterOpen, b, i as int);
            assert(params[i as int] == marks@[i as int]@);
        }
        let value_end: usize = if i + 1 < n {
            proof {
                assert(params[i as int + 1] == marks@[i as int + 1]@);
            }
            marks[i + 1].start
        } else {
            len
        };
        let name = mark_name(body, &marks[i]);
        let value = read_parameter(slice_text(body, marks[i].end, value_end));
        args = args.with(name.as_str(), value);
        i += 1;
    }
    ParsedToolCall { id: call_id(), name: canonical_name(registry, raw_name), arguments: args }
}

// ---------------------------------------------------------------------------
// Reading texts
// ---------------------------------------------------------------------------

/// The text of an object.
pub fn slice_object(text: &str, start: usize, last: usize) -> (r: &str)
    requires
        start <= last < encode_utf8(text@).len(),
        encode_utf8(text@)[start as int] == 0x7b,
        encode_utf8(text@)[last as int] == 0x7d,
    ensures
        encode_utf8(r@) == object_text(encode_utf8(text@), (start as int, last as int)),
{
    proof {
        encode_utf8_valid_utf8(text@);
        lemma_boundary_after_ascii(encode_utf8(text@), start as int);
        lemma_boundary_after_ascii(encode_utf8(text@), last as int);
    }
    let len: usize = text.as_bytes().len();
    assert(last < len);
    slice_text(text, start, last + 1)
}

/// Adds a call where there is one.
fn add_call(calls: &mut Vec<ParsedToolCall>, call: Option<ParsedToolCall>)
    requires
        have_ids(old(calls)@),
        call matches Some(c) ==> is_call_id(c.id@),
    ensures
        have_ids(final(calls)@),
        calls_view(final(calls)@) == calls_view(old(calls)@) + opt_seq(
            match call {
                Some(c) => Some(c@),
                None => None,
            },
        ),
{
    let ghost before = calls@;
    match call {
        Some(c) => {
            calls.push(c);
            proof {
                assert(calls_view(calls@) =~= calls_view(before) + seq![c@]);
            }
        },
        None => {
            proof {
                assert(calls_view(calls@) =~= calls_view(before) + Seq::<CallView>::empty());
            }
        },
    }
}

/// Adds the calls among the objects of a block.
fn add_block_calls(text: &str, block: &Block, registry: &TextMap, calls: &mut Vec<ParsedToolCall>)
    requires
        block.inner_end <= encode_utf8(text@).len(),
        have_ids(old(calls)@),
    ensures
        have_ids(final(calls)@),
        calls_view(final(calls)@) == calls_view(old(calls)@) + object_calls(
            encode_utf8(text@),
            objects_between(
                encode_utf8(text@),
                block.inner_start as int,
                block.inner_end as int,
            ),
            registry@,
        ),
{
    let ghost b = encode_utf8(text@);
    let ghost before = calls_view(calls@);
    let objects = split_json_objects(text.as_bytes(), block.inner_start, block.inner_end);
    let ghost all = objects_between(b, block.inner_start as int, block.inner_end as int);
    let n: usize = objects.len();
    proof {
        assert(n == all.len());
        lemma_objects_between(b, block.inner_start as int, block.inner_end as int);
        assert(before =~= before + object_calls(b, all.take(0), registry@));
    }
    let mut i: usize = 0;
    while i < n
        invariant
            b == encode_utf8(text@),
            n == objects@.len(),
            n == all.len(),
            objects@.map_values(|p: (usize, usize)| pair_view(p)) == all,
            forall|k: int|
                #![trigger all[k]]
                0 <= k < all.len() ==> 0 <= all[k].0 <= all[k].1 < b.len() && b[all[k].0] == 0x7b
                    && b[all[k].1] == 0x7d,
            i <= n,
            have_ids(calls@),
            calls_view(calls@) == before + object_calls(b, all.take(i as int), registry@),
        decreases n - i,
    {
        proof {
            assert(all[i as int] == pair_view(objects@[i as int]));
        }
        let part = slice_object(text, objects[i].0, objects[i].1);
        add_call(calls, parse_one(part, registry));
        proof {
            assert(all.take(i as int + 1).drop_last() =~= all.take(i as int));
            assert(calls_view(calls@) =~= before + object_calls(
                b,
                all.take(i as int + 1),
                registry@,
            ));
        }
        i += 1;
    }
    proof {
        assert(all.take(n as int) =~= all);
    }
}

/// The objects in a text; a brace that is never closed is passed over.
pub fn find_objects(bytes: &[u8]) -> (r: Vec<(usize, usize)>)
    ensures
        r@.map_values(|p: (usize, usize)| pair_view(p)) == all_objects(bytes@, 0),
{
    let ghost b = bytes@;
    let mut out: Vec<(usize, usize)> = Vec::new();
    let n: usize = bytes.len();
    let mut i: usize = 0;
    proof {
        assert(out@.map_values(|p: (usize, usize)| pair_view(p)) + all_objects(b, 0)
            =~= all_objects(b, 0));
    }
    while i < n
        invariant
            b == bytes@,
            n == b.len(),
            i <= n,
            out@.map_values(|p: (usize, usize)| pair_view(p)) + all_objects(b, i as int)
                == all_objects(b, 0),
        decreases n - i,
    {
        let ghost done = out@.map_values(|p: (usize, usize)| pair_view(p));
        match scan_json_object_end(bytes, i) {
            Some(e) => {
                out.push((i, e));
                proof {
                    let now = out@.map_values(|p: (usize, usize)| pair_view(p));
                    let rest = all_objects(b, e + 1);
                    assert(now =~= done.push((i as int, e as int)));
                    assert(now + rest =~= done + (seq![(i as int, e as int)] + rest));
                }
                i = e + 1;
            },
            None => {
                i += 1;
            },
        }
    }
    proof {
        let done = out@.map_values(|p: (usize, usize)| pair_view(p));
        assert(done + Seq::<(int, int)>::empty() =~= done);
    }
    out
}

/// Adds the bare calls in a text.
fn add_naked_calls(text: &str, registry: &TextMap, calls: &mut Vec<ParsedToolCall>)
    requires
        have_ids(old(calls)@),
    ensures
        have_ids(final(calls)@),
        calls_view(final(calls)@) == calls_view(old(calls)@) + naked_calls(
            encode_utf8(text@),
            all_objects(encode_utf8(text@), 0),
            registry@,
        ),
{
    let ghost b = encode_utf8(text@);
    let ghost before = calls_view(calls@);
    let objects = find_objects(text.as_bytes());
    let ghost all = all_objects(b, 0);
    let n: usize = objects.len();
    proof {
        assert(n == all.len());
        lemma_all_objects(b, 0);
        assert(before =~= before + naked_calls(b, all.take(0), registry@));
    }
    let mut i: usize = 0;
    while i < n
        invariant
            b == encode_utf8(text@),
            n == objects@.len(),
            n == all.len(),
            objects@.map_values(|p: (usize, usize)| pair_view(p)) == all,
            forall|k: int|
                #![trigger all[k]]
                0 <= k < all.len() ==> 0 <= all[k].0 <= all[k].1 < b.len() && b[all[k].0] == 0x7b
                    && b[all[k].1] == 0x7d,
            i <= n,
            have_ids(calls@),
            calls_view(calls@) == before + naked_calls(b, all.take(i as int), registry@),
        decreases n - i,
    {
        proof {
            assert(all[i as int] == pair_view(objects@[i as int]));
        }
        let part = slice_object(text, objects[i].0, objects[i].1);
        add_call(calls, parse_naked_one(part, registry));
        proof {
            assert(all.take(i as int + 1).drop_last() =~= all.take(i as int));
            assert(calls_view(calls@) =~= before + naked_calls(
                b,
                all.take(i as int + 1),
                registry@,
            ));
        }
        i += 1;
    }
    proof {
        assert(all.take(n as int) =~= all);
    }
}

/// The bare calls in a text.
pub fn parse_naked_json_tool_calls(text: &str, registry: &TextMap) -> (r: Vec<ParsedToolCall>)
    ensures
        have_ids(r@),
        calls_view(r@) == naked_calls(
            encode_utf8(text@),
            all_objects(encode_utf8(text@), 0),
            registry@,
        ),
{
    let mut calls: Vec<ParsedToolCall> = Vec::new();
    add_naked_calls(text, registry, &mut calls);
    proof {
        let found = naked_calls(
            encode_utf8(text@),
            all_objects(encode_utf8(text@), 0),
            registry@,
        );
        assert(calls_view(Seq::<ParsedToolCall>::empty()) =~= Seq::<CallView>::empty());
        assert(Seq::<CallView>::empty() + found =~= found);
    }
    calls
}

/// The calls in a text. Each names its tool as the client does.
///
/// A block may hold several objects, may hold them without separators, and need not be
/// closed. Where there is no block at all and some tool is registered, a bare object counts
/// as a call if its name is registered and it has arguments.
pub fn parse_tool_calls(text: &str, registry: &TextMap) -> (r: Vec<ParsedToolCall>)
    ensures
        have_ids(r@),
        calls_view(r@) == found_calls(encode_utf8(text@), registry@),
{
    let ghost b = encode_utf8(text@);
    proof {
        encode_utf8_valid_utf8(text@);
        lemma_tool_blocks(b);
        lemma_function_blocks(b);
    }
    let mut calls: Vec<ParsedToolCall> = Vec::new();
    let blocks = find_tool_blocks(text);
    let ghost tools = tool_blocks(b);
    let functions = find_function_blocks(text);
    let ghost fns = function_blocks(b);
    let n: usize = blocks.len();
    let m: usize = functions.len();
    proof {
        assert(n == tools.len());
        assert(m == fns.len());
        assert(calls_view(calls@) =~= block_calls(b, tools.take(0), registry@));
    }
    let mut i: usize = 0;
    while i < n
        invariant
            b == encode_utf8(text@),
            n == blocks@.len(),
            n == tools.len(),
            tools == tool_blocks(b),
            blocks@.map_values(|x: Block| x@) == tools,
            forall|k: int|
                0 <= k < tool_blocks(b).len() ==> crate::toolcall::blocks::block_in(
                    b,
                    #[trigger] tool_blocks(b)[k],
                ),
            i <= n,
            have_ids(calls@),
            calls_view(calls@) == block_calls(b, tools.take(i as int), registry@),
        decreases n - i,
    {
        proof {
            assert(tools[i as int] == blocks@[i as int]@);
        }
        add_block_calls(text, &blocks[i], registry, &mut calls);
        proof {
            assert(tools.take(i as int + 1).drop_last() =~= tools.take(i as int));
        }
        i += 1;
    }
    let ghost in_blocks = block_calls(b, tools, registry@);
    let ghost in_functions = function_calls(b, fns, registry@);
    proof {
        assert(tools.take(n as int) =~= tools);
        assert(calls_view(calls@) =~= in_blocks + in_functions.take(0));
    }
    let mut j: usize = 0;
    while j < m
        invariant
            b == encode_utf8(text@),
            m == functions@.len(),
            m == fns.len(),
            fns == function_blocks(b),
            in_functions == function_calls(b, fns, registry@),
            functions@.map_values(|x: FunctionBlock| x@) == fns,
            forall|k: int|
                0 <= k < function_blocks(b).len() ==> crate::toolcall::blocks::block_in(
                    b,
                    (#[trigger] function_blocks(b)[k]).block,
                ),
            j <= m,
            have_ids(calls@),
            calls_view(calls@) == in_blocks + in_functions.take(j as int),
        decreases m - j,
    {
        proof {
            assert(fns[j as int] == functions@[j as int]@);
        }
        let f = &functions[j];
        let body = slice_text(text, f.block.inner_start, f.block.inner_end);
        let call = parse_function_block(f.name.as_str(), body, registry);
        proof {
            assert(call@ == in_functions[j as int]);
        }
        add_call(&mut calls, Some(call));
        proof {
            assert(calls_view(calls@) =~= in_blocks + in_functions.take(j as int + 1));
        }
        j += 1;
    }
    proof {
        assert(in_functions.take(m as int) =~= in_functions);
    }
    if n == 0 && m == 0 && !registry.is_empty() {
        add_naked_calls(text, registry, &mut calls);
    } else {
        proof {
            assert(calls_view(calls@) =~= in_blocks + in_functions + Seq::<CallView>::empty());
        }
    }
    calls
}

} // verus!
