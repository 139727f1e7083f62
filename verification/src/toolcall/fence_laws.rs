//! A call that is written into a fenced block is read back, and the text around the block stays.

use crate::text::{lemma_find_from, occurs, stands_at};
use crate::toolcall::blocks::{
    block_in, fenced_blocks, fenced_from, find_between, function_blocks, lemma_fenced_from,
    lemma_fenced_step, lemma_function_blocks, tool_blocks, BlockView,
};
use crate::toolcall::laws::naked_calls_are_taken_out;
use crate::toolcall::markers::{
    fence_at, lemma_ascii_bytes, lemma_fence_tail, lemma_fence_there, lemma_function_there,
    lemma_no_spans, lemma_span_step, lemma_spans_skip, lemma_stands_bytes, lemma_stands_in_part,
    match_at, skip_blank, skip_one, spans, spans_from, Marker, SpanView,
};
use crate::toolcall::parse::{block_calls, found_calls, function_calls, seeks_naked};
use crate::toolcall::round_trip::{
    inside_calls, lemma_cut_kept, lemma_region_calls, lemma_rest_calls,
};
use crate::toolcall::shift::{
    later_block, later_blocks, later_spans, lemma_later_fenced, lemma_later_function_calls,
    lemma_later_functions, lemma_later_match, lemma_later_spans,
};
use crate::toolcall::strip::{
    block_ranges, call_ranges, kept, lemma_encode_concat, stripped,
};
use vstd::prelude::*;
use vstd::utf8::*;

verus! {

/// A fenced block with a text inside and text around it.
pub open spec fn fenced_text(
    pre: Seq<char>,
    fence: Seq<char>,
    body: Seq<char>,
    rest: Seq<char>,
) -> Seq<char> {
    pre + fence + body + "```"@ + rest
}

/// A fence that opens a block, with the end of its line.
pub open spec fn is_fence(f: Seq<u8>) -> bool {
    &&& f.len() > 0
    &&& f.last() == 0x0a
    &&& fence_at(f, 0) == Some((f.len() as int, None::<(int, int)>))
}

/// A text in which no fence and no function begins, nor a fence with what may follow it.
pub open spec fn free_of_fences(b: Seq<u8>) -> bool {
    &&& !occurs(b, encode_utf8("```"@))
    &&& !occurs(b, encode_utf8("<function"@))
    &&& b.len() > 0 ==> b.last() != 0x60
}

/// The bytes from the fence up to the end of the block.
spec fn middle(f: Seq<u8>, e: Seq<u8>) -> Seq<u8> {
    f + e + encode_utf8("```"@)
}

/// What is asked of the parts of the whole.
spec fn parts_fit(x: Seq<u8>, f: Seq<u8>, e: Seq<u8>, r: Seq<u8>) -> bool {
    &&& valid_utf8(x + middle(f, e) + r)
    &&& valid_utf8(f)
    &&& valid_utf8(r)
    &&& is_fence(f)
    &&& free_of_fences(x)
    &&& free_of_fences(e)
}

/// The bytes of the fence and of the tag of a function.
proof fn lemma_fence_bytes()
    ensures
        ({
            let t = encode_utf8("```"@);
            let g = encode_utf8("<function"@);
            &&& t.len() == 3 && g.len() == 9
            &&& g[0] == 0x3c
            &&& forall|k: int| 0 <= k < 3 ==> #[trigger] t[k] == 0x60
            &&& forall|k: int| 0 <= k < 9 ==> #[trigger] g[k] != 0x60
        }),
{
    reveal_strlit("```");
    reveal_strlit("<function");
    lemma_ascii_bytes("```"@);
    lemma_ascii_bytes("<function"@);
}

/// The bytes of the words of a fence: none ends a line.
proof fn lemma_word_bytes()
    ensures
        ({
            let tool = encode_utf8("tool_call"@);
            let json = encode_utf8("json"@);
            &&& tool.len() == 9 && json.len() == 4
            &&& forall|k: int| 0 <= k < 9 ==> #[trigger] tool[k] != 0x0a
            &&& forall|k: int| 0 <= k < 4 ==> #[trigger] json[k] != 0x0a
        }),
{
    reveal_strlit("tool_call");
    reveal_strlit("json");
    lemma_ascii_bytes("tool_call"@);
    lemma_ascii_bytes("json"@);
}

/// A fence begins with three backquotes and goes on behind them.
proof fn lemma_fence_front(f: Seq<u8>)
    requires
        is_fence(f),
    ensures
        f.len() >= 4,
        f[0] == 0x60 && f[1] == 0x60 && f[2] == 0x60,
{
    reveal(fence_at);
    lemma_fence_bytes();
    let t = encode_utf8("```"@);
    assert(stands_at(f, t, 0));
    lemma_stands_bytes(f, t, 0);
    assert(f[0] == t[0] && f[1] == t[1] && f[2] == t[2]);
}

/// A word without the end of a line stands in a line exactly where it stands in what begins
/// with the line.
proof fn lemma_word_in_line(f: Seq<u8>, u: Seq<u8>, w: Seq<u8>)
    requires
        f.len() >= 4,
        f.last() == 0x0a,
        forall|k: int| 0 <= k < w.len() ==> #[trigger] w[k] != 0x0a,
    ensures
        stands_at(f + u, w, 3) == stands_at(f, w, 3),
{
    let b = f + u;
    if stands_at(f, w, 3) {
        assert(b.subrange(3, 3int + w.len()) =~= f.subrange(3, 3int + w.len()));
    }
    if stands_at(b, w, 3) {
        if 3 + w.len() <= f.len() {
            assert(b.subrange(3, 3int + w.len()) =~= f.subrange(3, 3int + w.len()));
        } else {
            lemma_stands_bytes(b, w, 3);
            let k = f.len() - 1 - 3;
            assert(b[3 + k] == w[k]);
            assert(b[f.len() - 1] == f.last());
        }
    }
}

proof fn lemma_blank_run(b: Seq<u8>, i: int, j: int)
    requires
        0 <= i <= j < b.len(),
        forall|k: int| i <= k < j ==> #[trigger] b[k] == 0x20 || b[k] == 0x09,
        b[j] == 0x0a,
    ensures
        skip_blank(b, i) == j,
    decreases j - i,
{
    if i < j {
        lemma_blank_run(b, i + 1, j);
    }
}

proof fn lemma_blank_end(f: Seq<u8>, i: int)
    requires
        0 <= i <= f.len(),
    ensures
        i <= skip_blank(f, i) <= f.len(),
        forall|k: int| i <= k < skip_blank(f, i) ==> #[trigger] f[k] == 0x20 || f[k] == 0x09,
    decreases f.len() - i,
{
    if i < f.len() && (f[i] == 0x20 || f[i] == 0x09) {
        lemma_blank_end(f, i + 1);
    }
}

/// A fence with the end of its line stays the same fence, whatever follows.
proof fn lemma_fence_extends(f: Seq<u8>, u: Seq<u8>)
    requires
        is_fence(f),
    ensures
        fence_at(f + u, 0) == Some((f.len() as int, None::<(int, int)>)),
{
    reveal(fence_at);
    lemma_fence_front(f);
    lemma_fence_bytes();
    lemma_word_bytes();
    let b = f + u;
    let t = encode_utf8("```"@);
    let tool = encode_utf8("tool_call"@);
    let json = encode_utf8("json"@);
    lemma_word_in_line(f, u, tool);
    lemma_word_in_line(f, u, json);
    assert(b.subrange(0, 3) =~= f.subrange(0, 3));
    assert(stands_at(b, t, 0));
    let last = f.len() - 1;
    let rest = if stands_at(f, tool, 3) {
        12int
    } else if stands_at(f, json, 3) {
        7
    } else {
        3
    };
    assert(rest <= last) by {
        if stands_at(f, tool, 3) && last < 12 {
            lemma_stands_bytes(f, tool, 3);
            assert(f[11] == tool[8]);
        } else if stands_at(f, json, 3) && last < 7 {
            lemma_stands_bytes(f, json, 3);
            assert(f[6] == json[3]);
        }
    }
    lemma_blank_end(f, rest);
    let j = skip_blank(f, rest);
    assert(skip_one(f, j, 0x0a) == f.len());
    assert(j == last) by {
        if j > last {
            assert(f[last] == 0x20 || f[last] == 0x09);
        }
    }
    assert forall|k: int| rest <= k < j implies #[trigger] b[k] == 0x20 || b[k] == 0x09 by {
        assert(b[k] == f[k]);
    }
    assert(b[j] == f[j]);
    lemma_blank_run(b, rest, j);
}

/// The mark of the block.
spec fn own_span(x: Seq<u8>, f: Seq<u8>) -> SpanView {
    SpanView { start: x.len() as int, end: x.len() as int + f.len(), name: None }
}

/// The fence of the block is its mark.
proof fn lemma_own_fence(x: Seq<u8>, f: Seq<u8>, u: Seq<u8>)
    requires
        is_fence(f),
    ensures
        match_at(Marker::FenceOpen, x + (f + u), x.len() as int) == Some(
            (own_span(x, f).end, own_span(x, f).name),
        ),
{
    lemma_fence_extends(f, u);
    lemma_later_match(Marker::FenceOpen, x, f + u, 0);
}

/// No fence stands before the block.
proof fn lemma_no_fence_before(x: Seq<u8>, u: Seq<u8>, p: int)
    requires
        free_of_fences(x),
        0 <= p < x.len(),
    ensures
        !stands_at(x + u, encode_utf8("```"@), p),
{
    lemma_fence_bytes();
    let t = encode_utf8("```"@);
    let b = x + u;
    let a = x.len() as int;
    if stands_at(b, t, p) {
        assert(b.subrange(0, a) =~= x);
        if p + 3 <= a {
            lemma_stands_in_part(b, t, p, 0, a);
        } else {
            lemma_stands_bytes(b, t, p);
            assert(b[p + (a - 1 - p)] == t[a - 1 - p]);
            assert(b[a - 1] == x.last());
        }
    }
}

/// The block is closed by the fence behind the text inside it.
proof fn lemma_own_close(x: Seq<u8>, f: Seq<u8>, e: Seq<u8>, r: Seq<u8>)
    requires
        free_of_fences(e),
    ensures
        find_between(
            x + middle(f, e) + r,
            "```"@,
            x.len() as int + f.len(),
            (x + middle(f, e) + r).len() as int,
        ) == Some(x.len() as int + f.len() + e.len()),
{
    lemma_fence_bytes();
    let t = encode_utf8("```"@);
    let b = x + middle(f, e) + r;
    let i = x.len() as int + f.len();
    let n = e.len() as int;
    let part = b.subrange(i, b.len() as int);
    assert(part =~= e + (t + r));
    assert(part.subrange(n, n + 3) =~= t);
    assert(stands_at(part, t, n));
    lemma_find_from(part, t, 0);
    assert forall|q: int| 0 <= q < n implies !stands_at(part, t, q) by {
        lemma_no_fence_before(e, t + r, q);
    }
}

/// The fenced blocks of the whole: the block's own and those of the rest.
proof fn lemma_whole_fences(x: Seq<u8>, f: Seq<u8>, e: Seq<u8>, r: Seq<u8>)
    requires
        parts_fit(x, f, e, r),
    ensures
        ({
            let n = (x + middle(f, e)).len() as int;
            let own = BlockView {
                open_start: x.len() as int,
                block_end: n,
                inner_start: x.len() as int + f.len(),
                inner_end: x.len() as int + f.len() + e.len(),
            };
            &&& n == x.len() as int + f.len() + e.len() + 3
            &&& fenced_blocks(x + middle(f, e) + r) == seq![own] + later_blocks(
                fenced_blocks(r),
                n,
            )
        }),
{
    let m = Marker::FenceOpen;
    let t = encode_utf8("```"@);
    lemma_fence_bytes();
    let p0 = x + middle(f, e);
    let b = p0 + r;
    let n = p0.len() as int;
    let mark = own_span(x, f);
    let u = e + t + r;
    assert(b =~= x + (f + u));
    lemma_own_fence(x, f, u);
    assert forall|p: int| 0 <= p < mark.start implies #[trigger] match_at(m, b, p) is None by {
        lemma_no_fence_before(x, f + u, p);
        lemma_fence_there(b, p);
    }
    lemma_spans_skip(m, b, 0, mark.start);
    lemma_fence_front(f);
    lemma_span_step(m, b, mark.start, mark.end, mark.name);
    assert(spans_from(m, b, 0)[0] == mark);
    lemma_own_close(x, f, e, r);
    reveal_strlit("```");
    lemma_fenced_step(b, 0);
    lemma_later_fenced(p0, r, 0);
}

/// No function begins before the rest.
proof fn lemma_no_function_before(x: Seq<u8>, f: Seq<u8>, e: Seq<u8>, r: Seq<u8>, p: int)
    requires
        parts_fit(x, f, e, r),
        0 <= p < (x + middle(f, e)).len(),
    ensures
        !stands_at(x + middle(f, e) + r, encode_utf8("<function"@), p),
{
    lemma_fence_bytes();
    let t = encode_utf8("```"@);
    let g = encode_utf8("<function"@);
    let b = x + middle(f, e) + r;
    let a = x.len() as int;
    let i = a + f.len();
    let z = i + e.len();
    if stands_at(b, g, p) {
        lemma_stands_bytes(b, g, p);
        assert(b[p + 0] == g[0]);
        lemma_fence_front(f);
        lemma_fence_tail(f, 0);
        assert(b.subrange(0, a) =~= x);
        assert(b.subrange(i, z) =~= e);
        assert forall|k: int| 0 <= k < f.len() implies b[a + k] == #[trigger] f[k] by {}
        assert forall|k: int| 0 <= k < 3 implies b[z + k] == #[trigger] t[k] by {}
        if p + 9 <= a {
            lemma_stands_in_part(b, g, p, 0, a);
        } else if p < a {
            assert(b[p + (a - p)] == g[a - p]);
            assert(b[a + 0] == f[0]);
        } else if p < i {
            assert(b[a + (p - a)] == f[p - a]);
        } else if p + 9 <= z {
            lemma_stands_in_part(b, g, p, i, z);
        } else if p < z {
            assert(b[p + (z - p)] == g[z - p]);
            assert(b[z + 0] == t[0]);
        } else {
            assert(b[z + (p - z)] == t[p - z]);
        }
    }
}

/// The marks of functions of the whole are those of the rest.
proof fn lemma_whole_functions(x: Seq<u8>, f: Seq<u8>, e: Seq<u8>, r: Seq<u8>)
    requires
        parts_fit(x, f, e, r),
    ensures
        spans(Marker::FunctionOpen, x + middle(f, e) + r) == later_spans(
            spans(Marker::FunctionOpen, r),
            (x + middle(f, e)).len() as int,
        ),
{
    let p0 = x + middle(f, e);
    let b = p0 + r;
    let n = p0.len() as int;
    assert forall|p: int| 0 <= p < n implies #[trigger] match_at(
        Marker::FunctionOpen,
        b,
        p,
    ) is None by {
        if match_at(Marker::FunctionOpen, b, p) is Some {
            lemma_function_there(b, p);
            lemma_no_function_before(x, f, e, r, p);
        }
    }
    lemma_spans_skip(Marker::FunctionOpen, b, 0, n);
    lemma_later_spans(Marker::FunctionOpen, p0, r, 0);
}

/// Without `<tool_call>` tags the blocks of a text are the fenced ones.
proof fn lemma_fences_only(b: Seq<u8>)
    requires
        valid_utf8(b),
        !occurs(b, encode_utf8("<tool_call>"@)),
    ensures
        tool_blocks(b) == fenced_blocks(b),
{
    assert forall|p: int| 0 <= p < b.len() implies #[trigger] match_at(
        Marker::ToolOpen,
        b,
        p,
    ) is None by {
        assert(!stands_at(b, encode_utf8("<tool_call>"@), p));
    }
    lemma_no_spans(Marker::ToolOpen, b, 0);
}

/// What does not stand in a text does not stand in its end.
pub proof fn lemma_not_in_tail(p0: Seq<u8>, r: Seq<u8>, t: Seq<u8>)
    requires
        !occurs(p0 + r, t),
    ensures
        !occurs(r, t),
{
    if occurs(r, t) {
        let k = choose|k: int| stands_at(r, t, k);
        crate::toolcall::shift::lemma_later_stands(p0, r, t, k);
        assert(stands_at(p0 + r, t, p0.len() + k));
    }
}

/// The calls of the whole.
proof fn lemma_whole_calls(
    x: Seq<u8>,
    f: Seq<u8>,
    e: Seq<u8>,
    r: Seq<u8>,
    registry: Map<Seq<char>, Seq<char>>,
)
    requires
        parts_fit(x, f, e, r),
    ensures
        block_calls(
            x + middle(f, e) + r,
            fenced_blocks(x + middle(f, e) + r),
            registry,
        ) == inside_calls(e, registry) + block_calls(r, fenced_blocks(r), registry),
{
    let p0 = x + middle(f, e);
    let b = p0 + r;
    let t = encode_utf8("```"@);
    let i = x.len() as int + f.len();
    let own = BlockView {
        open_start: x.len() as int,
        block_end: p0.len() as int,
        inner_start: i,
        inner_end: i + e.len(),
    };
    lemma_whole_fences(x, f, e, r);
    lemma_fenced_from(r, 0);
    let blocks = fenced_blocks(r);
    assert forall|k: int| #![trigger blocks[k]] 0 <= k < blocks.len() implies 0
        <= blocks[k].inner_start && blocks[k].inner_end <= r.len() by {
        assert(block_in(r, fenced_from(r, 0)[k]));
    }
    lemma_rest_calls(p0, r, own, blocks, registry);
    assert(b =~= (x + f) + (e + (t + r)));
    lemma_region_calls(x + f, e, t + r, registry);
}

/// What is left of the whole.
proof fn lemma_whole_kept(x: Seq<u8>, f: Seq<u8>, e: Seq<u8>, r: Seq<u8>)
    requires
        parts_fit(x, f, e, r),
        tool_blocks(x + middle(f, e) + r) == fenced_blocks(x + middle(f, e) + r),
        tool_blocks(r) == fenced_blocks(r),
    ensures
        ({
            let b = x + middle(f, e) + r;
            kept(b, block_ranges(b), b.len() as int) == x + kept(
                r,
                block_ranges(r),
                r.len() as int,
            )
        }),
{
    let mid = middle(f, e);
    let p0 = x + mid;
    let b = p0 + r;
    let n = p0.len() as int;
    lemma_whole_fences(x, f, e, r);
    lemma_whole_functions(x, f, e, r);
    lemma_later_functions(p0, r);
    lemma_fenced_from(r, 0);
    lemma_function_blocks(r);
    let ranges = block_ranges(b);
    let inner = block_ranges(r);
    let nt = tool_blocks(r).len() as int;
    assert forall|k: int| 0 <= k < inner.len() implies #[trigger] ranges[k + 1] == (
        inner[k].0 + n,
        inner[k].1 + n,
    ) && inner[k].0 >= 0 by {
        if k < nt {
            assert(tool_blocks(b)[k + 1] == later_block(tool_blocks(r)[k], n));
            assert(block_in(r, fenced_from(r, 0)[k]));
        } else {
            assert(function_blocks(b)[k - nt].block == later_block(
                function_blocks(r)[k - nt].block,
                n,
            ));
            assert(block_in(r, function_blocks(r)[k - nt].block));
        }
    }
    lemma_cut_kept(x, mid, r, ranges, inner);
}

/// Where bare objects are not looked at, or none of them is a call, the calls of a text are
/// those of its blocks.
pub proof fn lemma_blocks_only(b: Seq<u8>, registry: Map<Seq<char>, Seq<char>>)
    requires
        seeks_naked(b, registry) ==> found_calls(b, registry).len() == 0,
    ensures
        found_calls(b, registry) == block_calls(b, tool_blocks(b), registry) + function_calls(
            b,
            function_blocks(b),
            registry,
        ),
        call_ranges(b, registry) == block_ranges(b),
{
    if seeks_naked(b, registry) {
        naked_calls_are_taken_out(b, registry);
    }
    assert(call_ranges(b, registry) =~= block_ranges(b));
    assert(found_calls(b, registry) =~= block_calls(b, tool_blocks(b), registry)
        + function_calls(b, function_blocks(b), registry));
}

proof fn lemma_whole(
    x: Seq<u8>,
    f: Seq<u8>,
    e: Seq<u8>,
    r: Seq<u8>,
    registry: Map<Seq<char>, Seq<char>>,
)
    requires
        parts_fit(x, f, e, r),
        !occurs(x + middle(f, e) + r, encode_utf8("<tool_call>"@)),
        seeks_naked(r, registry) ==> found_calls(r, registry).len() == 0,
    ensures
        found_calls(x + middle(f, e) + r, registry) == inside_calls(e, registry) + found_calls(
            r,
            registry,
        ),
        stripped(x + middle(f, e) + r, registry) == x + stripped(r, registry),
{
    let p0 = x + middle(f, e);
    let b = p0 + r;
    lemma_fences_only(b);
    lemma_not_in_tail(p0, r, encode_utf8("<tool_call>"@));
    lemma_fences_only(r);
    lemma_whole_fences(x, f, e, r);
    lemma_whole_calls(x, f, e, r, registry);
    lemma_whole_functions(x, f, e, r);
    lemma_later_function_calls(p0, r, registry);
    lemma_blocks_only(b, registry);
    lemma_blocks_only(r, registry);
    lemma_whole_kept(x, f, e, r);
    assert(found_calls(b, registry) =~= inside_calls(e, registry) + found_calls(r, registry));
}

/// A fenced block is read, and taken out up to the fence that closes it: its calls are those of
/// the text inside it, and behind them come the calls of the rest; what the client sees is what
/// stands before the block, and what is left of the rest. A bare call in the rest does not
/// count, because a block stands before it: the law speaks of a rest without such calls.
pub proof fn fenced_blocks_are_read_in_order(
    pre: Seq<char>,
    fence: Seq<char>,
    body: Seq<char>,
    rest: Seq<char>,
    registry: Map<Seq<char>, Seq<char>>,
)
    requires
        is_fence(encode_utf8(fence)),
        free_of_fences(encode_utf8(pre)),
        free_of_fences(encode_utf8(body)),
        !occurs(
            encode_utf8(fenced_text(pre, fence, body, rest)),
            encode_utf8("<tool_call>"@),
        ),
        seeks_naked(encode_utf8(rest), registry) ==> found_calls(
            encode_utf8(rest),
            registry,
        ).len() == 0,
    ensures
        found_calls(encode_utf8(fenced_text(pre, fence, body, rest)), registry) == inside_calls(
            encode_utf8(body),
            registry,
        ) + found_calls(encode_utf8(rest), registry),
        stripped(encode_utf8(fenced_text(pre, fence, body, rest)), registry) == encode_utf8(pre)
            + stripped(encode_utf8(rest), registry),
{
    let x = encode_utf8(pre);
    let f = encode_utf8(fence);
    let e = encode_utf8(body);
    let r = encode_utf8(rest);
    let t = "```"@;
    lemma_encode_concat(fence, body);
    lemma_encode_concat(fence + body, t);
    lemma_encode_concat(pre, fence + body + t);
    lemma_encode_concat(pre + (fence + body + t), rest);
    assert(fenced_text(pre, fence, body, rest) =~= pre + (fence + body + t) + rest);
    encode_utf8_valid_utf8(fenced_text(pre, fence, body, rest));
    encode_utf8_valid_utf8(fence);
    encode_utf8_valid_utf8(rest);
    lemma_whole(x, f, e, r, registry);
}

/// The fences that are usual open blocks.
pub proof fn usual_fences()
    ensures
        is_fence(encode_utf8("```tool_call\n"@)),
        is_fence(encode_utf8("```json\n"@)),
        is_fence(encode_utf8("```\n"@)),
{
    lemma_usual_fence("```tool_call\n"@, 12);
    lemma_usual_fence("```json\n"@, 7);
    lemma_usual_fence("```\n"@, 3);
}

proof fn lemma_usual_fence(s: Seq<char>, rest: int)
    requires
        s == "```tool_call\n"@ && rest == 12 || s == "```json\n"@ && rest == 7 || s == "```\n"@
            && rest == 3,
    ensures
        is_fence(encode_utf8(s)),
{
    reveal(fence_at);
    reveal_strlit("```tool_call\n");
    reveal_strlit("```json\n");
    reveal_strlit("```\n");
    reveal_strlit("```");
    reveal_strlit("tool_call");
    reveal_strlit("json");
    lemma_ascii_bytes(s);
    lemma_ascii_bytes("```"@);
    lemma_ascii_bytes("tool_call"@);
    lemma_ascii_bytes("json"@);
    let b = encode_utf8(s);
    let tool = encode_utf8("tool_call"@);
    let json = encode_utf8("json"@);
    assert(b.subrange(0, 3) =~= encode_utf8("```"@));
    assert(b[rest] == 0x0a && b.len() == rest + 1);
    lemma_blank_run(b, rest, rest);
    if rest == 12 {
        assert(b.subrange(3, 12) =~= tool);
    } else if rest == 7 {
        assert(b.subrange(3, 7) =~= json);
    } else {
        if stands_at(b, json, 3) {
            lemma_stands_bytes(b, json, 3);
        }
    }
}

} // verus!
