//! What holds of reading calls and of taking them out, taken together.

use crate::text::{occurs, stands_at};
use crate::toolcall::blocks::{function_blocks, tool_blocks};
use crate::toolcall::markers::{
    lemma_fence_there, lemma_function_there, lemma_no_spans, match_at, Marker,
};
use crate::toolcall::obfuscation::norm;
use crate::toolcall::parse::{
    all_objects, argument_like, block_calls, call_arguments, found_calls, function_calls,
    naked_call, naked_calls, naked_text_call, seeks_naked, CallView,
};
use crate::toolcall::strip::{block_ranges, call_ranges, covered, kept, naked_ranges, stripped};
use crate::json::JsonView;
use vstd::prelude::*;
use vstd::utf8::*;

verus! {

/// A text without any of the marks that open a block: no `<tool_call>`, no fence, no
/// `<function`.
pub open spec fn without_blocks(b: Seq<u8>) -> bool {
    &&& !occurs(b, encode_utf8("<tool_call>"@))
    &&& !occurs(b, encode_utf8("```"@))
    &&& !occurs(b, encode_utf8("<function"@))
}

/// A text without marks has no blocks.
pub proof fn lemma_without_blocks(b: Seq<u8>)
    requires
        valid_utf8(b),
        without_blocks(b),
    ensures
        tool_blocks(b).len() == 0,
        function_blocks(b).len() == 0,
{
    assert forall|p: int| 0 <= p < b.len() implies #[trigger] match_at(
        Marker::ToolOpen,
        b,
        p,
    ) is None by {
        assert(!stands_at(b, encode_utf8("<tool_call>"@), p));
    }
    lemma_no_spans(Marker::ToolOpen, b, 0);
    assert forall|p: int| 0 <= p < b.len() implies #[trigger] match_at(
        Marker::FenceOpen,
        b,
        p,
    ) is None by {
        assert(!stands_at(b, encode_utf8("```"@), p));
        lemma_fence_there(b, p);
    }
    lemma_no_spans(Marker::FenceOpen, b, 0);
    assert forall|p: int| 0 <= p < b.len() implies #[trigger] match_at(
        Marker::FunctionOpen,
        b,
        p,
    ) is None by {
        assert(!stands_at(b, encode_utf8("<function"@), p));
        if match_at(Marker::FunctionOpen, b, p) is Some {
            lemma_function_there(b, p);
        }
    }
    lemma_no_spans(Marker::FunctionOpen, b, 0);
}

/// Where nothing is covered, everything stays.
pub proof fn lemma_kept_all(b: Seq<u8>, ranges: Seq<(int, int)>, n: int)
    requires
        0 <= n <= b.len(),
        ranges.len() == 0,
    ensures
        kept(b, ranges, n) == b.take(n),
    decreases n,
{
    if n > 0 {
        lemma_kept_all(b, ranges, n - 1);
        assert(b.take(n) =~= b.take(n - 1).push(b[n - 1]));
    } else {
        assert(kept(b, ranges, n) =~= b.take(n));
    }
}

proof fn lemma_no_braces(b: Seq<u8>, i: int)
    requires
        0 <= i,
        forall|p: int| 0 <= p < b.len() ==> #[trigger] b[p] != 0x7b,
    ensures
        all_objects(b, i) == Seq::<(int, int)>::empty(),
    decreases b.len() - i,
{
    if i < b.len() {
        lemma_no_braces(b, i + 1);
    }
}

/// Plain text passes through: where no mark and no brace stands, no call is found, whatever
/// tools there are, and nothing is taken out.
pub proof fn plain_text_passes_through(text: Seq<char>, registry: Map<Seq<char>, Seq<char>>)
    requires
        without_blocks(encode_utf8(text)),
        forall|p: int| 0 <= p < encode_utf8(text).len() ==> #[trigger] encode_utf8(text)[p] != 0x7b,
    ensures
        found_calls(encode_utf8(text), registry) == Seq::<CallView>::empty(),
        stripped(encode_utf8(text), registry) == encode_utf8(text),
{
    let b = encode_utf8(text);
    encode_utf8_valid_utf8(text);
    lemma_without_blocks(b);
    lemma_no_braces(b, 0);
    assert(found_calls(b, registry) =~= Seq::<CallView>::empty());
    assert(call_ranges(b, registry) =~= Seq::<(int, int)>::empty());
    lemma_kept_all(b, call_ranges(b, registry), b.len() as int);
    assert(b.take(b.len() as int) =~= b);
}

/// Without registered tools a bare object is never a call: where no block stands, nothing is
/// found and nothing is taken out.
pub proof fn empty_registry_leaves_naked_objects(text: Seq<char>)
    requires
        without_blocks(encode_utf8(text)),
    ensures
        found_calls(encode_utf8(text), Map::empty()) == Seq::<CallView>::empty(),
        stripped(encode_utf8(text), Map::empty()) == encode_utf8(text),
{
    let b = encode_utf8(text);
    let none = Map::<Seq<char>, Seq<char>>::empty();
    encode_utf8_valid_utf8(text);
    lemma_without_blocks(b);
    assert(found_calls(b, none) =~= Seq::<CallView>::empty());
    assert(call_ranges(b, none) =~= Seq::<(int, int)>::empty());
    lemma_kept_all(b, call_ranges(b, none), b.len() as int);
    assert(b.take(b.len() as int) =~= b);
}

/// Blocks come before bare objects: where there is a block, the calls are those of the blocks
/// and no other, and exactly the blocks are taken out.
pub proof fn blocks_take_priority(b: Seq<u8>, registry: Map<Seq<char>, Seq<char>>)
    requires
        tool_blocks(b).len() > 0 || function_blocks(b).len() > 0,
    ensures
        found_calls(b, registry) == block_calls(b, tool_blocks(b), registry) + function_calls(
            b,
            function_blocks(b),
            registry,
        ),
        call_ranges(b, registry) == block_ranges(b),
{
    assert(found_calls(b, registry) =~= block_calls(b, tool_blocks(b), registry)
        + function_calls(b, function_blocks(b), registry));
    assert(call_ranges(b, registry) =~= block_ranges(b));
}

proof fn lemma_naked_agree(
    b: Seq<u8>,
    objects: Seq<(int, int)>,
    registry: Map<Seq<char>, Seq<char>>,
)
    ensures
        naked_calls(b, objects, registry).len() == naked_ranges(b, objects, registry).len(),
        forall|k: int|
            #![trigger naked_ranges(b, objects, registry)[k]]
            0 <= k < naked_ranges(b, objects, registry).len() ==> {
                let r = naked_ranges(b, objects, registry)[k];
                naked_text_call(b.subrange(r.0, r.1), registry) == Some(
                    naked_calls(b, objects, registry)[k],
                )
            },
    decreases objects.len(),
{
    if objects.len() > 0 {
        let rest = objects.drop_last();
        lemma_naked_agree(b, rest, registry);
        let calls = naked_calls(b, objects, registry);
        let ranges = naked_ranges(b, objects, registry);
        let calls0 = naked_calls(b, rest, registry);
        let ranges0 = naked_ranges(b, rest, registry);
        assert forall|k: int| #![trigger ranges[k]] 0 <= k < ranges.len() implies {
            let r = ranges[k];
            naked_text_call(b.subrange(r.0, r.1), registry) == Some(calls[k])
        } by {
            if k < ranges0.len() {
                assert(ranges[k] == ranges0[k]);
                assert(calls[k] == calls0[k]);
            }
        }
    }
}

/// Reading and taking out agree on bare calls: where bare objects are looked at, what is
/// taken out are exactly the texts of the calls that are found, one for one and in order.
pub proof fn naked_calls_are_taken_out(b: Seq<u8>, registry: Map<Seq<char>, Seq<char>>)
    requires
        seeks_naked(b, registry),
    ensures
        found_calls(b, registry).len() == call_ranges(b, registry).len(),
        forall|k: int|
            #![trigger call_ranges(b, registry)[k]]
            0 <= k < call_ranges(b, registry).len() ==> {
                let r = call_ranges(b, registry)[k];
                naked_text_call(b.subrange(r.0, r.1), registry) == Some(
                    found_calls(b, registry)[k],
                )
            },
{
    let objects = all_objects(b, 0);
    lemma_naked_agree(b, objects, registry);
    assert(found_calls(b, registry) =~= naked_calls(b, objects, registry));
    assert(call_ranges(b, registry) =~= naked_ranges(b, objects, registry));
}

/// A bare object is a call only if its name is registered; the call then goes by the
/// registered name.
pub proof fn naked_calls_are_registered(v: JsonView, registry: Map<Seq<char>, Seq<char>>)
    ensures
        naked_call(v, registry) matches Some(c) ==> {
            &&& v.get_str("name"@) matches Some(raw) && registry.contains_key(norm(raw)) && c.name
                == registry[norm(raw)]
            &&& argument_like(v.get("arguments"@)) || argument_like(v.get("input"@))
                || argument_like(v.get("parameters"@))
            &&& c.arguments == call_arguments(v)
        },
{
}

/// A text never grows by taking calls out of it.
pub proof fn stripping_only_removes(b: Seq<u8>, ranges: Seq<(int, int)>, n: int)
    requires
        0 <= n <= b.len(),
    ensures
        kept(b, ranges, n).len() <= n,
        kept(b, ranges, n).len() == n ==> kept(b, ranges, n) == b.take(n),
    decreases n,
{
    if n > 0 {
        stripping_only_removes(b, ranges, n - 1);
        assert(b.take(n) =~= b.take(n - 1).push(b[n - 1]));
    } else {
        assert(kept(b, ranges, n) =~= b.take(n));
    }
}

} // verus!
