//! What stands before a text does not change how the text is read: all that is found in it is
//! found behind it too, further on by the length of what stands before.

use crate::text::stands_at;
use crate::toolcall::blocks::{
    block_in, closed_block, fenced_from, find_between, function_blocks, lemma_fenced_step,
    lemma_function_blocks, lemma_next_start, next_start, BlockView, FunctionBlockView,
};
use crate::toolcall::markers::{
    char_len, char_stands, fence_at, is_name_byte, lemma_ascii_bytes, lemma_span_step,
    lemma_spans_from, match_at, skip_blank, skip_name, skip_one, skip_white, span_in, spans,
    spans_from, tag_at, Marker, SpanView,
};
use crate::toolcall::parse::{function_call, function_calls, object_calls, object_text};
use crate::toolcall::scan::{object_end, objects_between, scan_from};
use vstd::prelude::*;
use vstd::utf8::*;

verus! {

/// A mark, further on.
pub open spec fn later_span(s: SpanView, n: int) -> SpanView {
    SpanView {
        start: s.start + n,
        end: s.end + n,
        name: match s.name {
            Some(x) => Some((x.0 + n, x.1 + n)),
            None => None,
        },
    }
}

/// Marks, further on.
pub open spec fn later_spans(s: Seq<SpanView>, n: int) -> Seq<SpanView> {
    s.map_values(|x: SpanView| later_span(x, n))
}

/// A block, further on.
pub open spec fn later_block(x: BlockView, n: int) -> BlockView {
    BlockView {
        open_start: x.open_start + n,
        block_end: x.block_end + n,
        inner_start: x.inner_start + n,
        inner_end: x.inner_end + n,
    }
}

/// Blocks, further on.
pub open spec fn later_blocks(s: Seq<BlockView>, n: int) -> Seq<BlockView> {
    s.map_values(|x: BlockView| later_block(x, n))
}

/// Objects, further on.
pub open spec fn later_objects(s: Seq<(int, int)>, n: int) -> Seq<(int, int)> {
    s.map_values(|o: (int, int)| (o.0 + n, o.1 + n))
}

/// The end of a mark and its name, further on.
pub open spec fn later_match(m: Option<(int, Option<(int, int)>)>, n: int) -> Option<
    (int, Option<(int, int)>),
> {
    match m {
        Some((end, Some(x))) => Some((end + n, Some((x.0 + n, x.1 + n)))),
        Some((end, None)) => Some((end + n, None)),
        None => None,
    }
}

// ---------------------------------------------------------------------------
// Marks
// ---------------------------------------------------------------------------

pub proof fn lemma_later_stands(p: Seq<u8>, r: Seq<u8>, needle: Seq<u8>, k: int)
    requires
        0 <= k,
    ensures
        stands_at(p + r, needle, p.len() + k) == stands_at(r, needle, k),
{
    let b = p + r;
    let n = p.len() as int;
    if k + needle.len() <= r.len() {
        assert(b.subrange(n + k, n + k + needle.len()) =~= r.subrange(k, k + needle.len()));
    }
}

proof fn lemma_later_white(p: Seq<u8>, r: Seq<u8>, k: int)
    requires
        0 <= k <= r.len(),
    ensures
        skip_white(p + r, p.len() + k) == p.len() + skip_white(r, k),
        k <= skip_white(r, k) <= r.len(),
    decreases r.len() - k,
{
    let b = p + r;
    let n = p.len() as int;
    assert(b.skip(n + k) =~= r.skip(k));
    if char_stands(r, k) {
        let step = char_len(r, k);
        if crate::text::is_white(crate::toolcall::markers::char_at(r, k)) {
            lemma_later_white(p, r, k + step);
        }
    }
}

proof fn lemma_later_name(p: Seq<u8>, r: Seq<u8>, k: int)
    requires
        0 <= k <= r.len(),
    ensures
        skip_name(p + r, p.len() + k) == p.len() + skip_name(r, k),
        k <= skip_name(r, k) <= r.len(),
    decreases r.len() - k,
{
    let b = p + r;
    if k < r.len() {
        assert(b[p.len() + k] == r[k]);
        if is_name_byte(r[k]) {
            lemma_later_name(p, r, k + 1);
        }
    }
}

proof fn lemma_later_one(p: Seq<u8>, r: Seq<u8>, k: int, c: u8)
    requires
        0 <= k <= r.len(),
    ensures
        skip_one(p + r, p.len() + k, c) == p.len() + skip_one(r, k, c),
        k <= skip_one(r, k, c) <= r.len(),
{
    if k < r.len() {
        assert((p + r)[p.len() + k] == r[k]);
    }
}

proof fn lemma_later_tag(p: Seq<u8>, r: Seq<u8>, keyword: Seq<char>, k: int)
    requires
        0 <= k,
    ensures
        tag_at(p + r, keyword, p.len() + k) == later_match(tag_at(r, keyword, k), p.len() as int),
{
    reveal(tag_at);
    let b = p + r;
    let n = p.len() as int;
    let word = encode_utf8(keyword);
    lemma_later_stands(p, r, word, k);
    if stands_at(r, word, k) {
        lemma_later_white(p, r, k + word.len());
        let equals = skip_white(r, k + word.len());
        assert(n + k + word.len() == n + (k + word.len()));
        if equals < r.len() {
            assert(b[n + equals] == r[equals]);
            lemma_later_white(p, r, equals + 1);
            let after = skip_white(r, equals + 1);
            lemma_later_one(p, r, after, 0x22);
            let name = skip_one(r, after, 0x22);
            lemma_later_name(p, r, name);
            let name_end = skip_name(r, name);
            lemma_later_one(p, r, name_end, 0x22);
            let quote = skip_one(r, name_end, 0x22);
            lemma_later_white(p, r, quote);
            let close = skip_white(r, quote);
            assert(n + equals + 1 == n + (equals + 1));
            if close < r.len() {
                assert(b[n + close] == r[close]);
            }
        }
    }
}

proof fn lemma_later_blank(p: Seq<u8>, r: Seq<u8>, k: int)
    requires
        0 <= k <= r.len(),
    ensures
        skip_blank(p + r, p.len() + k) == p.len() + skip_blank(r, k),
        k <= skip_blank(r, k) <= r.len(),
    decreases r.len() - k,
{
    let b = p + r;
    if k < r.len() {
        assert(b[p.len() + k] == r[k]);
        if r[k] == 0x20 || r[k] == 0x09 {
            lemma_later_blank(p, r, k + 1);
        }
    }
}

proof fn lemma_later_fence(p: Seq<u8>, r: Seq<u8>, k: int)
    requires
        0 <= k,
    ensures
        fence_at(p + r, p.len() + k) == later_match(fence_at(r, k), p.len() as int),
{
    reveal(fence_at);
    let n = p.len() as int;
    let tool = encode_utf8("tool_call"@);
    let json = encode_utf8("json"@);
    reveal_strlit("```");
    reveal_strlit("tool_call");
    reveal_strlit("json");
    lemma_ascii_bytes("```"@);
    lemma_ascii_bytes("tool_call"@);
    lemma_ascii_bytes("json"@);
    lemma_later_stands(p, r, encode_utf8("```"@), k);
    lemma_later_stands(p, r, tool, k + 3);
    lemma_later_stands(p, r, json, k + 3);
    assert(n + k + 3 == n + (k + 3));
    if stands_at(r, encode_utf8("```"@), k) {
        let rest = if stands_at(r, tool, k + 3) {
            k + 3 + 9
        } else if stands_at(r, json, k + 3) {
            k + 3 + 4
        } else {
            k + 3
        };
        lemma_later_blank(p, r, rest);
        lemma_later_one(p, r, skip_blank(r, rest), 0x0a);
    }
}

/// The marks of calls, of functions and of fences do not depend on what stands before.
pub proof fn lemma_later_match(m: Marker, p: Seq<u8>, r: Seq<u8>, k: int)
    requires
        m == Marker::ToolOpen || m == Marker::FunctionOpen || m == Marker::FenceOpen,
        0 <= k,
    ensures
        match_at(m, p + r, p.len() + k) == later_match(match_at(m, r, k), p.len() as int),
{
    match m {
        Marker::ToolOpen => {
            lemma_later_stands(p, r, encode_utf8("<tool_call>"@), k);
        },
        Marker::FenceOpen => {
            lemma_later_fence(p, r, k);
        },
        _ => {
            lemma_later_tag(p, r, "<function"@, k);
        },
    }
}

/// The marks of calls, of functions and of fences do not depend on what stands before.
pub proof fn lemma_later_spans(m: Marker, p: Seq<u8>, r: Seq<u8>, k: int)
    requires
        m == Marker::ToolOpen || m == Marker::FunctionOpen || m == Marker::FenceOpen,
        0 <= k,
    ensures
        spans_from(m, p + r, p.len() + k) == later_spans(spans_from(m, r, k), p.len() as int),
    decreases r.len() - k,
{
    let b = p + r;
    let n = p.len() as int;
    if k < r.len() {
        lemma_later_match(m, p, r, k);
        match match_at(m, r, k) {
            Some((end, name)) => {
                if k < end <= r.len() {
                    lemma_later_spans(m, p, r, end);
                    lemma_later_step(m, p, r, k, end, name);
                } else {
                    assert(spans_from(m, b, n + k) =~= Seq::<SpanView>::empty());
                    assert(later_spans(spans_from(m, r, k), n) =~= Seq::<SpanView>::empty());
                }
            },
            None => {
                lemma_later_spans(m, p, r, k + 1);
                assert(n + k + 1 == n + (k + 1));
                assert(spans_from(m, b, n + k) == spans_from(m, b, n + k + 1));
            },
        }
    } else {
        assert(spans_from(m, b, n + k) =~= Seq::<SpanView>::empty());
        assert(later_spans(spans_from(m, r, k), n) =~= Seq::<SpanView>::empty());
    }
}

proof fn lemma_later_step(
    m: Marker,
    p: Seq<u8>,
    r: Seq<u8>,
    k: int,
    end: int,
    name: Option<(int, int)>,
)
    requires
        0 <= k < end <= r.len(),
        match_at(m, r, k) == Some((end, name)),
        match_at(m, p + r, p.len() + k) == later_match(match_at(m, r, k), p.len() as int),
        spans_from(m, p + r, p.len() + end) == later_spans(
            spans_from(m, r, end),
            p.len() as int,
        ),
    ensures
        spans_from(m, p + r, p.len() + k) == later_spans(spans_from(m, r, k), p.len() as int),
{
    let n = p.len() as int;
    let mark = SpanView { start: k, end, name };
    lemma_span_step(m, r, k, end, name);
    lemma_span_step(m, p + r, n + k, n + end, later_span(mark, n).name);
    assert(later_spans(seq![mark] + spans_from(m, r, end), n) =~= seq![later_span(mark, n)]
        + later_spans(spans_from(m, r, end), n));
}

// ---------------------------------------------------------------------------
// Blocks
// ---------------------------------------------------------------------------

pub proof fn lemma_later_find(p: Seq<u8>, r: Seq<u8>, needle: Seq<char>, from: int, to: int)
    requires
        0 <= from <= to <= r.len(),
    ensures
        find_between(p + r, needle, p.len() + from, p.len() + to) == (match find_between(
            r,
            needle,
            from,
            to,
        ) {
            Some(at) => Some(p.len() + at),
            None => None,
        }),
{
    assert((p + r).subrange(p.len() + from, p.len() + to) =~= r.subrange(from, to));
}

pub proof fn lemma_later_closed(
    p: Seq<u8>,
    r: Seq<u8>,
    open: SpanView,
    close: Seq<char>,
    limit: int,
    fallback: int,
)
    requires
        0 <= open.end <= limit <= r.len(),
    ensures
        closed_block(
            p + r,
            later_span(open, p.len() as int),
            close,
            p.len() + limit,
            p.len() + fallback,
        ) == later_block(closed_block(r, open, close, limit, fallback), p.len() as int),
{
    lemma_later_find(p, r, close, open.end, limit);
    assert(open.end + p.len() == p.len() + open.end);
}

/// The fenced blocks do not depend on what stands before.
pub proof fn lemma_later_fenced(p: Seq<u8>, r: Seq<u8>, k: int)
    requires
        valid_utf8(r),
        0 <= k <= r.len(),
    ensures
        fenced_from(p + r, p.len() + k) == later_blocks(fenced_from(r, k), p.len() as int),
    decreases r.len() - k,
{
    let b = p + r;
    let n = p.len() as int;
    let len = r.len() as int;
    let here = spans_from(Marker::FenceOpen, r, k);
    let there = spans_from(Marker::FenceOpen, b, n + k);
    lemma_later_spans(Marker::FenceOpen, p, r, k);
    assert(there == later_spans(here, n));
    if here.len() > 0 {
        lemma_fenced_step(r, k);
        lemma_spans_from(Marker::FenceOpen, r, k);
        assert(span_in(r, here[0]));
        assert(there[0] == later_span(here[0], n));
        lemma_later_closed(p, r, here[0], "```"@, len, len);
        let block = closed_block(r, here[0], "```"@, len, len);
        lemma_later_fenced(p, r, block.block_end);
        let rest = fenced_from(r, block.block_end);
        assert(n + block.block_end == block.block_end + n);
        assert(fenced_from(b, n + k) =~= seq![later_block(block, n)] + later_blocks(rest, n));
        assert(fenced_from(b, n + k) =~= later_blocks(fenced_from(r, k), n));
    } else {
        assert(fenced_from(b, n + k) =~= later_blocks(fenced_from(r, k), n));
    }
}

/// Where all marks of functions stand in the rest, the function blocks are those of the rest.
pub proof fn lemma_later_functions(p: Seq<u8>, r: Seq<u8>)
    requires
        valid_utf8(r),
        spans(Marker::FunctionOpen, p + r) == later_spans(
            spans(Marker::FunctionOpen, r),
            p.len() as int,
        ),
    ensures
        function_blocks(p + r).len() == function_blocks(r).len(),
        forall|i: int|
            #![trigger function_blocks(r)[i]]
            0 <= i < function_blocks(r).len() ==> function_blocks(p + r)[i].block == later_block(
                function_blocks(r)[i].block,
                p.len() as int,
            ) && function_blocks(p + r)[i].name == function_blocks(r)[i].name,
{
    let b = p + r;
    let n = p.len() as int;
    let len = r.len() as int;
    let there = spans(Marker::FunctionOpen, b);
    let here = spans(Marker::FunctionOpen, r);
    assert forall|i: int| #![trigger function_blocks(r)[i]] 0 <= i < here.len() implies {
        &&& function_blocks(b)[i].block == later_block(function_blocks(r)[i].block, n)
        &&& function_blocks(b)[i].name == function_blocks(r)[i].name
    } by {
        lemma_next_start(Marker::FunctionOpen, r, i);
        assert(there[i] == later_span(here[i], n));
        if i + 1 < here.len() {
            assert(there[i + 1] == later_span(here[i + 1], n));
        }
        let limit = next_start(here, i, len);
        assert(next_start(there, i, n + len) == n + limit);
        lemma_later_closed(p, r, here[i], "</function>"@, limit, limit);
        let s = here[i].name->0;
        assert(b.subrange(s.0 + n, s.1 + n) =~= r.subrange(s.0, s.1));
    }
}

/// Where all marks of functions stand in the rest, the calls of functions are those of the
/// rest.
pub proof fn lemma_later_function_calls(
    p: Seq<u8>,
    r: Seq<u8>,
    registry: Map<Seq<char>, Seq<char>>,
)
    requires
        valid_utf8(r),
        spans(Marker::FunctionOpen, p + r) == later_spans(
            spans(Marker::FunctionOpen, r),
            p.len() as int,
        ),
    ensures
        function_calls(p + r, function_blocks(p + r), registry) == function_calls(
            r,
            function_blocks(r),
            registry,
        ),
{
    let b = p + r;
    let n = p.len() as int;
    let fb = function_blocks(b);
    let fr = function_blocks(r);
    lemma_later_functions(p, r);
    lemma_function_blocks(r);
    assert forall|i: int| 0 <= i < fr.len() implies function_calls(b, fb, registry)[i]
        == function_calls(r, fr, registry)[i] by {
        assert(fb[i].block == later_block(fr[i].block, n));
        assert(block_in(r, fr[i].block));
        lemma_rest_call(p, r, fb[i], fr[i], registry);
    }
    assert(function_calls(b, fb, registry) =~= function_calls(r, fr, registry));
}

/// A block of the rest says what it says without what stands before.
pub proof fn lemma_rest_call(
    p0: Seq<u8>,
    r: Seq<u8>,
    there: FunctionBlockView,
    here: FunctionBlockView,
    registry: Map<Seq<char>, Seq<char>>,
)
    requires
        there.block == later_block(here.block, p0.len() as int),
        there.name == here.name,
        0 <= here.block.inner_start <= here.block.inner_end <= r.len(),
    ensures
        function_call(
            there.name,
            (p0 + r).subrange(there.block.inner_start, there.block.inner_end),
            registry,
        ) == function_call(
            here.name,
            r.subrange(here.block.inner_start, here.block.inner_end),
            registry,
        ),
{
    assert((p0 + r).subrange(there.block.inner_start, there.block.inner_end) =~= r.subrange(
        here.block.inner_start,
        here.block.inner_end,
    ));
}

// ---------------------------------------------------------------------------
// Objects and calls
// ---------------------------------------------------------------------------

/// Scanning does not depend on what stands before.
pub proof fn lemma_later_scan(
    x: Seq<u8>,
    e: Seq<u8>,
    i: int,
    depth: int,
    in_str: bool,
    escape: bool,
)
    requires
        0 <= i,
    ensures
        match scan_from(e, i, depth, in_str, escape) {
            Some(k) => scan_from(x + e, x.len() + i, depth, in_str, escape) == Some(x.len() + k),
            None => scan_from(x + e, x.len() + i, depth, in_str, escape) is None,
        },
    decreases e.len() - i,
{
    if i < e.len() {
        let c = e[i];
        assert((x + e)[x.len() + i] == c);
        if in_str {
            if escape {
                lemma_later_scan(x, e, i + 1, depth, true, false);
            } else if c == 0x5c {
                lemma_later_scan(x, e, i + 1, depth, true, true);
            } else if c == 0x22 {
                lemma_later_scan(x, e, i + 1, depth, false, false);
            } else {
                lemma_later_scan(x, e, i + 1, depth, true, false);
            }
        } else if c == 0x22 {
            lemma_later_scan(x, e, i + 1, depth, true, false);
        } else if c == 0x7b {
            lemma_later_scan(x, e, i + 1, depth + 1, false, false);
        } else if c == 0x7d {
            if depth != 1 {
                lemma_later_scan(x, e, i + 1, depth - 1, false, false);
            }
        } else {
            lemma_later_scan(x, e, i + 1, depth, false, false);
        }
    }
}

/// The objects of a region do not depend on what stands before.
pub proof fn lemma_later_objects(p: Seq<u8>, r: Seq<u8>, i: int, end: int)
    requires
        0 <= i,
        end <= r.len(),
    ensures
        objects_between(p + r, p.len() + i, p.len() + end) == later_objects(
            objects_between(r, i, end),
            p.len() as int,
        ),
    decreases end - i,
{
    let b = p + r;
    let n = p.len() as int;
    let here = objects_between(r, i, end);
    let there = objects_between(b, n + i, n + end);
    if i >= end {
        assert(there =~= later_objects(here, n));
    } else {
        assert(b[n + i] == r[i]);
        if r[i] == 0x7b {
            assert(b.take(n + end) =~= p + r.take(end));
            assert(b.take(n + end)[n + i] == r[i]);
            assert(r.take(end)[i] == r[i]);
            lemma_later_scan(p, r.take(end), i, 0, false, false);
            match object_end(r.take(end), i) {
                Some(e) => {
                    if i <= e < end {
                        lemma_later_objects(p, r, e + 1, end);
                        let rest = objects_between(r, e + 1, end);
                        assert(n + e + 1 == n + (e + 1));
                        assert(there =~= seq![(i + n, e + n)] + later_objects(rest, n));
                        assert(there =~= later_objects(here, n));
                    } else {
                        assert(there =~= later_objects(here, n));
                    }
                },
                None => {
                    assert(there =~= later_objects(here, n));
                },
            }
        } else {
            lemma_later_objects(p, r, i + 1, end);
            assert(n + i + 1 == n + (i + 1));
        }
    }
}

/// What objects say does not depend on what stands before.
pub proof fn lemma_later_calls(
    p: Seq<u8>,
    r: Seq<u8>,
    objects: Seq<(int, int)>,
    registry: Map<Seq<char>, Seq<char>>,
)
    requires
        forall|k: int|
            #![trigger objects[k]]
            0 <= k < objects.len() ==> 0 <= objects[k].0 <= objects[k].1 < r.len(),
    ensures
        object_calls(p + r, later_objects(objects, p.len() as int), registry) == object_calls(
            r,
            objects,
            registry,
        ),
    decreases objects.len(),
{
    let n = p.len() as int;
    let there = later_objects(objects, n);
    if objects.len() > 0 {
        let rest = objects.drop_last();
        assert forall|k: int| #![trigger rest[k]] 0 <= k < rest.len() implies 0 <= rest[k].0
            <= rest[k].1 < r.len() by {
            assert(rest[k] == objects[k]);
        }
        lemma_later_calls(p, r, rest, registry);
        assert(there.drop_last() =~= later_objects(rest, n));
        let o = objects[objects.len() - 1];
        assert(object_text(p + r, (o.0 + n, o.1 + n)) =~= object_text(r, o));
    }
}

/// The objects of a region that holds a text, and before it other text of the region without
/// a brace, are those of the text.
pub proof fn lemma_skip_to_objects(b: Seq<u8>, i: int, j: int, end: int)
    requires
        0 <= i <= j <= end,
        end <= b.len(),
        forall|k: int| i <= k < j ==> #[trigger] b[k] != 0x7b,
    ensures
        objects_between(b, i, end) == objects_between(b, j, end),
    decreases j - i,
{
    if i < j {
        lemma_skip_to_objects(b, i + 1, j, end);
    }
}

} // verus!
