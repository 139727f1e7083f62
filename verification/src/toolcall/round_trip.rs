//! A call that is written into a block is read back, and the text around the block stays.

use crate::json::JsonView;
use crate::json_text::reads_as;
use crate::text::{find, find_from, lemma_find_from, occurs, stands_at};
use crate::toolcall::blocks::{
    block_in, find_between, function_blocks, lemma_function_blocks, lemma_next_start, next_start,
    tagged_blocks, tool_blocks, BlockView,
};
use crate::toolcall::laws::{blocks_take_priority, lemma_kept_all};
use crate::toolcall::markers::{
    lemma_ascii_bytes, lemma_function_there, lemma_no_spans, lemma_span_step, lemma_spans_from,
    lemma_spans_skip, lemma_spans_split, lemma_stands_bytes, lemma_stands_in_part,
    lemma_stands_in_tail, match_at, spans, spans_from, Marker, SpanView,
};
use crate::toolcall::obfuscation::norm;
use crate::toolcall::parse::{
    block_calls, block_text_call, call_arguments, found_calls, function_calls, object_calls,
    object_text, opt_seq, CallView,
};
use crate::toolcall::scan::{lemma_objects_between, lemma_scan_end, object_end, objects_between};
use crate::toolcall::shift::{
    later_block, later_blocks, later_objects, later_span, later_spans, lemma_later_calls,
    lemma_later_closed, lemma_later_function_calls, lemma_later_functions, lemma_later_objects,
    lemma_later_spans, lemma_skip_to_objects,
};
use crate::toolcall::strip::{
    block_ranges, call_ranges, covered, kept, lemma_encode_concat, lemma_kept_covered,
    lemma_kept_free, stripped,
};
use crate::toolcall::tools::{not_overridden, registered_tools_are_found, registry_of, ToolView};
use vstd::prelude::*;
use vstd::utf8::*;

verus! {

/// A block with a text inside and text around it.
pub open spec fn block_text(pre: Seq<char>, inner: Seq<char>, rest: Seq<char>) -> Seq<char> {
    pre + "<tool_call>"@ + inner + "</tool_call>"@ + rest
}

/// A text in which no block or function opens.
pub open spec fn opens_nothing(b: Seq<u8>) -> bool {
    &&& !occurs(b, encode_utf8("<tool_call>"@))
    &&& !occurs(b, encode_utf8("<function"@))
}

/// A text in which no block or function opens and no block closes.
pub open spec fn free_of_tags(b: Seq<u8>) -> bool {
    opens_nothing(b) && !occurs(b, encode_utf8("</tool_call>"@))
}

/// A text in which no block closes and no function opens.
pub open spec fn closes_nothing(b: Seq<u8>) -> bool {
    &&& !occurs(b, encode_utf8("</tool_call>"@))
    &&& !occurs(b, encode_utf8("<function"@))
}

/// The calls among the objects of a text.
pub open spec fn inside_calls(e: Seq<u8>, registry: Map<Seq<char>, Seq<char>>) -> Seq<CallView> {
    object_calls(e, objects_between(e, 0, e.len() as int), registry)
}

/// The calls in the `<tool_call>` blocks and the function blocks of a text.
pub open spec fn tagged_calls(b: Seq<u8>, registry: Map<Seq<char>, Seq<char>>) -> Seq<CallView> {
    block_calls(b, tagged_blocks(b), registry) + function_calls(b, function_blocks(b), registry)
}

/// The places of the `<tool_call>` blocks and the function blocks of a text.
pub open spec fn tagged_ranges(b: Seq<u8>) -> Seq<(int, int)> {
    Seq::new(
        tagged_blocks(b).len(),
        |i: int| (tagged_blocks(b)[i].open_start, tagged_blocks(b)[i].block_end),
    ) + Seq::new(
        function_blocks(b).len(),
        |i: int|
            (function_blocks(b)[i].block.open_start, function_blocks(b)[i].block.block_end),
    )
}

/// What is left of a text without its `<tool_call>` blocks and its function blocks.
pub open spec fn untagged(b: Seq<u8>) -> Seq<u8> {
    kept(b, tagged_ranges(b), b.len() as int)
}

/// The bytes up to the end of a block.
spec fn head_of(x: Seq<u8>, e: Seq<u8>) -> Seq<u8> {
    x + encode_utf8("<tool_call>"@) + e + encode_utf8("</tool_call>"@)
}

/// The bytes of the three tags: an angle bracket opens each and stands nowhere else in it, and
/// none closes but at its end.
proof fn lemma_tag_bytes()
    ensures
        ({
            let o = encode_utf8("<tool_call>"@);
            let c = encode_utf8("</tool_call>"@);
            let f = encode_utf8("<function"@);
            &&& o.len() == 11 && c.len() == 12 && f.len() == 9
            &&& o[0] == 0x3c && c[0] == 0x3c && f[0] == 0x3c
            &&& o[1] == 0x74 && c[1] == 0x2f && f[1] == 0x66
            &&& o[10] == 0x3e && c[11] == 0x3e
            &&& forall|k: int| 0 < k < 11 ==> #[trigger] o[k] != 0x3c
            &&& forall|k: int| 0 < k < 12 ==> #[trigger] c[k] != 0x3c
            &&& forall|k: int| 0 < k < 9 ==> #[trigger] f[k] != 0x3c
            &&& forall|k: int| 0 <= k < 10 ==> #[trigger] o[k] != 0x3e
            &&& forall|k: int| 0 <= k < 9 ==> #[trigger] f[k] != 0x3e
        }),
{
    reveal_strlit("<tool_call>");
    reveal_strlit("</tool_call>");
    reveal_strlit("<function");
    lemma_ascii_bytes("<tool_call>"@);
    lemma_ascii_bytes("</tool_call>"@);
    lemma_ascii_bytes("<function"@);
}

/// An opening tag that begins before the end of the block is the block's own, or stands in the
/// text inside it.
proof fn lemma_tag_places(x: Seq<u8>, e: Seq<u8>, r: Seq<u8>, m: Seq<u8>, p: int)
    requires
        m == encode_utf8("<tool_call>"@) || m == encode_utf8("<function"@),
        !occurs(x, m),
        stands_at(head_of(x, e) + r, m, p),
        0 <= p < head_of(x, e).len(),
    ensures
        p == x.len() && m == encode_utf8("<tool_call>"@) || (x.len() + 11 <= p && p + m.len()
            <= x.len() + 11 + e.len() && occurs(e, m)),
{
    lemma_tag_bytes();
    let o = encode_utf8("<tool_call>"@);
    let c = encode_utf8("</tool_call>"@);
    let b = head_of(x, e) + r;
    let a = x.len() as int;
    let i = a + 11;
    let z = i + e.len();
    let w = z + 12;
    let n = m.len() as int;
    assert(head_of(x, e).len() == w);
    lemma_stands_bytes(b, m, p);
    assert(b[p] == m[0]);
    assert(b[p + 1] == m[1]);
    assert(b.subrange(0, a) =~= x);
    assert(b.subrange(i, z) =~= e);
    assert forall|k: int| 0 <= k < 11 implies b[a + k] == #[trigger] o[k] by {}
    assert forall|k: int| 0 <= k < 12 implies b[z + k] == #[trigger] c[k] by {}
    if p + n <= a {
        lemma_stands_in_part(b, m, p, 0, a);
    } else if p < a {
        assert(b[p + (a - p)] == m[a - p]);
        assert(b[a] == o[0]);
    } else if p == a {
        if m == encode_utf8("<function"@) {
            assert(b[a + 1] == o[1]);
        }
    } else if p < i {
        assert(b[a + (p - a)] == o[p - a]);
    } else if p + n <= z {
        lemma_stands_in_part(b, m, p, i, z);
    } else if p < z {
        assert(b[p + (z - p)] == m[z - p]);
        assert(b[z] == c[0]);
    } else if p == z {
        assert(b[z + 1] == c[1]);
    } else {
        assert(b[z + (p - z)] == c[p - z]);
    }
}

/// An opening tag that begins before the end of the block is the block's own, where none stands
/// in the text inside it.
proof fn lemma_only_tag(x: Seq<u8>, e: Seq<u8>, r: Seq<u8>, m: Seq<u8>, p: int)
    requires
        m == encode_utf8("<tool_call>"@) || m == encode_utf8("<function"@),
        !occurs(x, m),
        !occurs(e, m),
        stands_at(head_of(x, e) + r, m, p),
        0 <= p < head_of(x, e).len(),
    ensures
        p == x.len(),
        m == encode_utf8("<tool_call>"@),
{
    lemma_tag_places(x, e, r, m, p);
}

/// Behind a text without a closing tag, a closing tag is the first one.
proof fn lemma_close_behind(part: Seq<u8>, tail: Seq<u8>)
    requires
        !occurs(tail, encode_utf8("</tool_call>"@)),
        part.len() >= tail.len() + 12,
        part.subrange(0, tail.len() as int) == tail,
        part.subrange(tail.len() as int, tail.len() as int + 12) == encode_utf8("</tool_call>"@),
    ensures
        find(part, encode_utf8("</tool_call>"@)) == Some(tail.len() as int),
{
    lemma_tag_bytes();
    let c = encode_utf8("</tool_call>"@);
    let n = tail.len() as int;
    assert(stands_at(part, c, n));
    lemma_find_from(part, c, 0);
    assert forall|q: int| 0 <= q < n implies !stands_at(part, c, q) by {
        if stands_at(part, c, q) {
            if q + 12 <= n {
                lemma_stands_in_part(part, c, q, 0, n);
            } else {
                lemma_stands_bytes(part, c, q);
                assert(part.subrange(n, n + 12)[0] == part[n]);
                assert(part[q + (n - q)] == c[n - q]);
            }
        }
    }
}

/// From any place in the text inside a block on, no closing tag stands before the block's own.
proof fn lemma_first_close(x: Seq<u8>, e: Seq<u8>, r: Seq<u8>, from: int)
    requires
        !occurs(e, encode_utf8("</tool_call>"@)),
        0 <= from <= e.len(),
    ensures
        find_between(
            head_of(x, e) + r,
            "</tool_call>"@,
            x.len() as int + 11 + from,
            (head_of(x, e) + r).len() as int,
        ) == Some(x.len() as int + 11 + e.len()),
{
    let c = encode_utf8("</tool_call>"@);
    let b = head_of(x, e) + r;
    let i = x.len() as int + 11 + from;
    let n = e.len() - from;
    let part = b.subrange(i, b.len() as int);
    let tail = e.subrange(from, e.len() as int);
    assert(encode_utf8("<tool_call>"@).len() == 11 && c.len() == 12) by {
        lemma_tag_bytes();
    }
    assert(part.subrange(0, n) =~= tail);
    assert(!occurs(tail, c)) by {
        if occurs(tail, c) {
            let k = choose|k: int| stands_at(tail, c, k);
            lemma_stands_in_tail(e, c, from, from + k);
            assert(stands_at(e, c, from + k));
        }
    }
    assert(part.subrange(n, n + 12) =~= c);
    lemma_close_behind(part, tail);
}

/// The block of the whole.
spec fn own_block(x: Seq<u8>, e: Seq<u8>) -> BlockView {
    BlockView {
        open_start: x.len() as int,
        block_end: x.len() as int + 11 + e.len() + 12,
        inner_start: x.len() as int + 11,
        inner_end: x.len() as int + 11 + e.len(),
    }
}

/// The marks of functions of the whole are those of the rest.
proof fn lemma_whole_function_marks(x: Seq<u8>, e: Seq<u8>, r: Seq<u8>)
    requires
        opens_nothing(x),
        !occurs(e, encode_utf8("<function"@)),
    ensures
        spans(Marker::FunctionOpen, head_of(x, e) + r) == later_spans(
            spans(Marker::FunctionOpen, r),
            head_of(x, e).len() as int,
        ),
{
    lemma_tag_bytes();
    let o = encode_utf8("<tool_call>"@);
    let f = encode_utf8("<function"@);
    let p0 = head_of(x, e);
    let b = p0 + r;
    let n = p0.len() as int;
    assert forall|p: int| 0 <= p < n implies #[trigger] match_at(
        Marker::FunctionOpen,
        b,
        p,
    ) is None by {
        if match_at(Marker::FunctionOpen, b, p) is Some {
            lemma_function_there(b, p);
            lemma_only_tag(x, e, r, f, p);
            assert(f.len() != o.len());
        }
    }
    lemma_spans_skip(Marker::FunctionOpen, b, 0, n);
    lemma_later_spans(Marker::FunctionOpen, p0, r, 0);
}

/// The marks of the whole: the block's own and those of the rest.
proof fn lemma_whole_spans(x: Seq<u8>, e: Seq<u8>, r: Seq<u8>)
    requires
        valid_utf8(head_of(x, e) + r),
        opens_nothing(x),
        free_of_tags(e),
    ensures
        ({
            let b = head_of(x, e) + r;
            let n = head_of(x, e).len() as int;
            let a = x.len() as int;
            &&& n == a + 11 + e.len() + 12
            &&& spans(Marker::ToolOpen, b) == seq![
                SpanView { start: a, end: a + 11, name: None },
            ] + later_spans(spans(Marker::ToolOpen, r), n)
            &&& spans(Marker::FunctionOpen, b) == later_spans(spans(Marker::FunctionOpen, r), n)
        }),
{
    lemma_tag_bytes();
    let o = encode_utf8("<tool_call>"@);
    let p0 = head_of(x, e);
    let b = p0 + r;
    let n = p0.len() as int;
    let a = x.len() as int;
    let i = a + 11;
    assert(b.subrange(a, i) =~= o);
    assert(stands_at(b, o, a));
    assert forall|p: int| 0 <= p < n && p != a implies #[trigger] match_at(
        Marker::ToolOpen,
        b,
        p,
    ) is None by {
        if stands_at(b, o, p) {
            lemma_only_tag(x, e, r, o, p);
        }
    }
    lemma_whole_function_marks(x, e, r);
    lemma_spans_skip(Marker::ToolOpen, b, 0, a);
    lemma_spans_skip(Marker::ToolOpen, b, i, n);
    lemma_later_spans(Marker::ToolOpen, p0, r, 0);
    assert(match_at(Marker::ToolOpen, b, a) == Some((i, None::<(int, int)>)));
}

/// The blocks of the whole: the block's own and those of the rest.
proof fn lemma_whole_blocks(x: Seq<u8>, e: Seq<u8>, r: Seq<u8>)
    requires
        valid_utf8(head_of(x, e) + r),
        valid_utf8(r),
        opens_nothing(x),
        free_of_tags(e),
    ensures
        ({
            let b = head_of(x, e) + r;
            let n = head_of(x, e).len() as int;
            &&& tool_blocks(b) == seq![own_block(x, e)] + later_blocks(tagged_blocks(r), n)
            &&& function_blocks(b).len() == function_blocks(r).len()
            &&& forall|i: int|
                0 <= i < function_blocks(r).len() ==> (#[trigger] function_blocks(b)[i]).block
                    == later_block(function_blocks(r)[i].block, n)
            &&& forall|i: int|
                0 <= i < function_blocks(r).len() ==> (#[trigger] function_blocks(b)[i]).name
                    == function_blocks(r)[i].name
        }),
{
    lemma_whole_spans(x, e, r);
    lemma_first_close(x, e, r, 0);
    reveal_strlit("</tool_call>");
    let p0 = head_of(x, e);
    let b = p0 + r;
    let n = p0.len() as int;
    let len = r.len() as int;
    let opens = spans(Marker::ToolOpen, b);
    let rest = spans(Marker::ToolOpen, r);
    let all = tool_blocks(b);
    let expected = seq![own_block(x, e)] + later_blocks(tagged_blocks(r), n);
    assert(all == tagged_blocks(b));
    assert(all.len() == expected.len());
    assert forall|i: int| 0 <= i < all.len() implies all[i] == expected[i] by {
        if i > 0 {
            let k = i - 1;
            lemma_next_start(Marker::ToolOpen, r, k);
            assert(opens[i] == later_span(rest[k], n));
            if k + 1 < rest.len() {
                assert(opens[i + 1] == later_span(rest[k + 1], n));
            }
            assert(next_start(opens, i, n + len) == n + next_start(rest, k, len));
            lemma_later_closed(
                p0,
                r,
                rest[k],
                "</tool_call>"@,
                len,
                next_start(rest, k, len),
            );
        }
    }
    assert(all =~= expected);
    lemma_later_functions(p0, r);
    assert forall|i: int| 0 <= i < function_blocks(r).len() implies {
        &&& (#[trigger] function_blocks(b)[i]).block == later_block(
            function_blocks(r)[i].block,
            n,
        )
        &&& function_blocks(b)[i].name == function_blocks(r)[i].name
    } by {}
}

/// What the blocks of the rest say does not depend on what stands before.
pub proof fn lemma_rest_calls(
    p0: Seq<u8>,
    r: Seq<u8>,
    own: BlockView,
    blocks: Seq<BlockView>,
    registry: Map<Seq<char>, Seq<char>>,
)
    requires
        forall|k: int|
            #![trigger blocks[k]]
            0 <= k < blocks.len() ==> 0 <= blocks[k].inner_start && blocks[k].inner_end
                <= r.len(),
    ensures
        block_calls(p0 + r, seq![own] + later_blocks(blocks, p0.len() as int), registry)
            == object_calls(
            p0 + r,
            objects_between(p0 + r, own.inner_start, own.inner_end),
            registry,
        ) + block_calls(r, blocks, registry),
    decreases blocks.len(),
{
    let b = p0 + r;
    let n = p0.len() as int;
    let whole = seq![own] + later_blocks(blocks, n);
    let first = object_calls(b, objects_between(b, own.inner_start, own.inner_end), registry);
    if blocks.len() == 0 {
        assert(whole =~= seq![own]);
        assert(whole.drop_last() =~= Seq::<BlockView>::empty());
        assert(block_calls(b, whole.drop_last(), registry) == Seq::<CallView>::empty());
        assert(block_calls(b, whole, registry) =~= first + Seq::<CallView>::empty());
    } else {
        let rest = blocks.drop_last();
        assert forall|k: int| #![trigger rest[k]] 0 <= k < rest.len() implies 0
            <= rest[k].inner_start && rest[k].inner_end <= r.len() by {
            assert(rest[k] == blocks[k]);
        }
        lemma_rest_calls(p0, r, own, rest, registry);
        assert(whole.drop_last() =~= seq![own] + later_blocks(rest, n));
        let last = blocks[blocks.len() - 1];
        assert(whole.last() == later_block(last, n));
        lemma_later_objects(p0, r, last.inner_start, last.inner_end);
        lemma_objects_between(r, last.inner_start, last.inner_end);
        lemma_later_calls(
            p0,
            r,
            objects_between(r, last.inner_start, last.inner_end),
            registry,
        );
        assert(last.inner_start + n == n + last.inner_start);
        assert(last.inner_end + n == n + last.inner_end);
        let more = object_calls(
            r,
            objects_between(r, last.inner_start, last.inner_end),
            registry,
        );
        assert(block_calls(b, whole, registry) =~= first + (block_calls(r, rest, registry)
            + more));
    }
}

/// The calls inside the block are those of the text inside it.
proof fn lemma_own_calls(
    x: Seq<u8>,
    e: Seq<u8>,
    r: Seq<u8>,
    registry: Map<Seq<char>, Seq<char>>,
)
    ensures
        object_calls(
            head_of(x, e) + r,
            objects_between(
                head_of(x, e) + r,
                own_block(x, e).inner_start,
                own_block(x, e).inner_end,
            ),
            registry,
        ) == inside_calls(e, registry),
{
    lemma_tag_bytes();
    let p1 = x + encode_utf8("<tool_call>"@);
    let t = encode_utf8("</tool_call>"@) + r;
    assert(head_of(x, e) + r =~= p1 + (e + t));
    lemma_region_calls(p1, e, t, registry);
}

/// The calls among the objects of a part of a text are those of the part.
pub proof fn lemma_region_calls(
    p1: Seq<u8>,
    e: Seq<u8>,
    t: Seq<u8>,
    registry: Map<Seq<char>, Seq<char>>,
)
    ensures
        object_calls(
            p1 + (e + t),
            objects_between(p1 + (e + t), p1.len() as int, p1.len() as int + e.len()),
            registry,
        ) == inside_calls(e, registry),
{
    let et = e + t;
    let n = e.len() as int;
    lemma_objects_within(e, t);
    lemma_later_objects(p1, et, 0, n);
    lemma_objects_between(e, 0, n);
    let objects = objects_between(e, 0, n);
    lemma_later_calls(p1, et, objects, registry);
    lemma_calls_within(e, t, objects, registry);
}

/// The objects of the beginning of a text do not depend on what follows.
proof fn lemma_objects_within(e: Seq<u8>, t: Seq<u8>)
    ensures
        objects_between(e + t, 0, e.len() as int) == objects_between(e, 0, e.len() as int),
{
    lemma_objects_within_from(e, t, 0);
}

proof fn lemma_objects_within_from(e: Seq<u8>, t: Seq<u8>, i: int)
    requires
        0 <= i,
    ensures
        objects_between(e + t, i, e.len() as int) == objects_between(e, i, e.len() as int),
    decreases e.len() - i,
{
    let n = e.len() as int;
    if i < n {
        assert((e + t).take(n) =~= e);
        assert(e.take(n) =~= e);
        assert((e + t)[i] == e[i]);
        if e[i] == 0x7b {
            match object_end(e, i) {
                Some(k) => {
                    if i <= k < n {
                        lemma_objects_within_from(e, t, k + 1);
                    }
                },
                None => {},
            }
        } else {
            lemma_objects_within_from(e, t, i + 1);
        }
    }
}

proof fn lemma_calls_within(
    e: Seq<u8>,
    t: Seq<u8>,
    objects: Seq<(int, int)>,
    registry: Map<Seq<char>, Seq<char>>,
)
    requires
        forall|k: int|
            #![trigger objects[k]]
            0 <= k < objects.len() ==> 0 <= objects[k].0 <= objects[k].1 < e.len(),
    ensures
        object_calls(e + t, objects, registry) == object_calls(e, objects, registry),
    decreases objects.len(),
{
    if objects.len() > 0 {
        let rest = objects.drop_last();
        assert forall|k: int| #![trigger rest[k]] 0 <= k < rest.len() implies 0 <= rest[k].0
            <= rest[k].1 < e.len() by {
            assert(rest[k] == objects[k]);
        }
        lemma_calls_within(e, t, rest, registry);
        let o = objects[objects.len() - 1];
        assert(object_text(e + t, o) =~= object_text(e, o));
    }
}

/// The `<tool_call>` blocks of the whole that open before its end are the block's own, which is
/// the first, and others that end with it; the further ones are those of the rest.
proof fn lemma_around_blocks(x: Seq<u8>, e: Seq<u8>, r: Seq<u8>) -> (m: int)
    requires
        valid_utf8(head_of(x, e) + r),
        valid_utf8(r),
        opens_nothing(x),
        closes_nothing(e),
    ensures
        ({
            let b = head_of(x, e) + r;
            let n = head_of(x, e).len() as int;
            let all = tool_blocks(b);
            &&& 0 < m && all.len() == m + tagged_blocks(r).len()
            &&& all[0].open_start == x.len()
            &&& forall|k: int|
                #![trigger all[k]]
                0 <= k < m ==> x.len() <= all[k].open_start && all[k].block_end == n
            &&& forall|k: int|
                #![trigger tagged_blocks(r)[k]]
                0 <= k < tagged_blocks(r).len() ==> all[m + k] == later_block(
                    tagged_blocks(r)[k],
                    n,
                )
        }),
{
    lemma_tag_bytes();
    let t = Marker::ToolOpen;
    let o = encode_utf8("<tool_call>"@);
    let p0 = head_of(x, e);
    let b = p0 + r;
    let n = p0.len() as int;
    let a = x.len() as int;
    let len = r.len() as int;
    assert(n == a + 11 + e.len() + 12);
    assert(b.subrange(a, a + 11) =~= o);
    assert(stands_at(b, o, a));
    assert forall|p: int| #![trigger match_at(t, b, p)] 0 <= p < n && match_at(t, b, p) is Some
        implies p < (match_at(t, b, p)->0).0 <= n by {
        lemma_tag_places(x, e, r, o, p);
    }
    let first = lemma_spans_split(t, b, 0, n);
    let m = first.len() as int;
    lemma_later_spans(t, p0, r, 0);
    let opens = spans(t, b);
    let rest = spans(t, r);
    assert(opens == first + later_spans(rest, n));
    assert forall|p: int| 0 <= p < a implies #[trigger] match_at(t, b, p) is None by {
        if stands_at(b, o, p) {
            lemma_tag_places(x, e, r, o, p);
        }
    }
    lemma_spans_skip(t, b, 0, a);
    lemma_span_step(t, b, a, a + 11, None);
    assert(opens[0].start == a);
    assert(m > 0) by {
        if m == 0 {
            assert(opens[0] == later_span(rest[0], n));
            lemma_next_start(t, r, 0);
        }
    }
    let all = tool_blocks(b);
    assert(all == tagged_blocks(b));
    assert forall|k: int| #![trigger all[k]] 0 <= k < m implies a <= all[k].open_start
        && all[k].block_end == n by {
        assert(opens[k] == first[k]);
        let p = first[k].start;
        lemma_tag_places(x, e, r, o, p);
        lemma_first_close(x, e, r, p - a);
        reveal_strlit("</tool_call>");
    }
    assert forall|k: int| #![trigger tagged_blocks(r)[k]] 0 <= k < rest.len() implies all[m + k]
        == later_block(tagged_blocks(r)[k], n) by {
        lemma_next_start(t, r, k);
        assert(opens[m + k] == later_span(rest[k], n));
        if k + 1 < rest.len() {
            assert(opens[m + k + 1] == later_span(rest[k + 1], n));
        }
        assert(next_start(opens, m + k, n + len) == n + next_start(rest, k, len));
        lemma_later_closed(p0, r, rest[k], "</tool_call>"@, len, next_start(rest, k, len));
    }
    m
}

/// What is left of the whole: what stands before the block, and what is left of the rest.
proof fn lemma_around_kept(x: Seq<u8>, e: Seq<u8>, r: Seq<u8>)
    requires
        valid_utf8(head_of(x, e) + r),
        valid_utf8(r),
        opens_nothing(x),
        closes_nothing(e),
    ensures
        ({
            let b = head_of(x, e) + r;
            &&& tool_blocks(b).len() > 0
            &&& kept(b, block_ranges(b), b.len() as int) == x + untagged(r)
        }),
{
    let p0 = head_of(x, e);
    let b = p0 + r;
    let n = p0.len() as int;
    let a = x.len() as int;
    let m = lemma_around_blocks(x, e, r);
    lemma_whole_function_marks(x, e, r);
    lemma_later_functions(p0, r);
    lemma_function_blocks(r);
    let ranges = block_ranges(b);
    let inner = tagged_ranges(r);
    let nt = tagged_blocks(r).len() as int;
    assert forall|k: int| #![trigger ranges[k]] 0 <= k < m implies a <= ranges[k].0
        && ranges[k].1 == n by {
        assert(ranges[k] == (tool_blocks(b)[k].open_start, tool_blocks(b)[k].block_end));
    }
    assert(ranges[0] == (a, n));
    assert(ranges.len() == m + inner.len());
    assert forall|k: int| #![trigger inner[k]] 0 <= k < inner.len() implies ranges[m + k] == (
        inner[k].0 + n,
        inner[k].1 + n,
    ) && inner[k].0 >= 0 by {
        if k < nt {
            assert(tool_blocks(b)[m + k] == later_block(tagged_blocks(r)[k], n));
            lemma_next_start(Marker::ToolOpen, r, k);
        } else {
            assert(function_blocks(b)[k - nt].block == later_block(
                function_blocks(r)[k - nt].block,
                n,
            ));
            assert(block_in(r, function_blocks(r)[k - nt].block));
        }
    }
    let mid = encode_utf8("<tool_call>"@) + e + encode_utf8("</tool_call>"@);
    assert(p0 =~= x + mid);
    lemma_split_cover(x, mid, r, ranges, inner, m);
    lemma_cover_kept(x, mid, r, ranges, inner);
}

/// Which bytes are covered where a number of ranges end with a part, and the others are those
/// of the rest.
proof fn lemma_split_cover(
    x: Seq<u8>,
    mid: Seq<u8>,
    r: Seq<u8>,
    ranges: Seq<(int, int)>,
    inner: Seq<(int, int)>,
    m: int,
)
    requires
        0 < m,
        ranges.len() == m + inner.len(),
        ranges[0].0 == x.len(),
        forall|k: int|
            #![trigger ranges[k]]
            0 <= k < m ==> x.len() <= ranges[k].0 && ranges[k].1 == (x + mid).len(),
        forall|k: int|
            #![trigger inner[k]]
            0 <= k < inner.len() ==> ranges[m + k] == (
                inner[k].0 + (x + mid).len(),
                inner[k].1 + (x + mid).len(),
            ) && inner[k].0 >= 0,
    ensures
        forall|p: int| 0 <= p < x.len() ==> !covered(ranges, p),
        forall|p: int| x.len() <= p < (x + mid).len() ==> covered(ranges, p),
        forall|q: int|
            0 <= q ==> (#[trigger] covered(inner, q) <==> covered(ranges, (x + mid).len() + q)),
{
    let n = (x + mid).len() as int;
    assert forall|p: int| 0 <= p < x.len() implies !covered(ranges, p) by {
        if covered(ranges, p) {
            let k = choose|k: int|
                0 <= k < ranges.len() && (#[trigger] ranges[k]).0 <= p < ranges[k].1;
            if k >= m {
                assert(inner[k - m].0 >= 0);
                assert(ranges[m + (k - m)] == (inner[k - m].0 + n, inner[k - m].1 + n));
            }
        }
    }
    assert forall|p: int| x.len() <= p < n implies covered(ranges, p) by {
        assert(ranges[0].0 <= p < ranges[0].1);
    }
    assert forall|q: int| 0 <= q implies (#[trigger] covered(inner, q) <==> covered(
        ranges,
        n + q,
    )) by {
        if covered(ranges, n + q) {
            let k = choose|k: int|
                0 <= k < ranges.len() && (#[trigger] ranges[k]).0 <= n + q < ranges[k].1;
            assert(k >= m);
            let j = k - m;
            assert(inner[j].0 >= 0);
            assert(ranges[m + j] == (inner[j].0 + n, inner[j].1 + n));
            assert(inner[j].0 <= q < inner[j].1);
        }
        if covered(inner, q) {
            let j = choose|j: int|
                0 <= j < inner.len() && (#[trigger] inner[j]).0 <= q < inner[j].1;
            assert(ranges[m + j] == (inner[j].0 + n, inner[j].1 + n));
            assert(ranges[m + j].0 <= n + q < ranges[m + j].1);
        }
    }
}

/// What is left of a text of which a part is taken out, by which bytes are covered.
proof fn lemma_cover_kept(
    x: Seq<u8>,
    mid: Seq<u8>,
    r: Seq<u8>,
    ranges: Seq<(int, int)>,
    inner: Seq<(int, int)>,
)
    requires
        forall|p: int| 0 <= p < x.len() ==> !covered(ranges, p),
        forall|p: int| x.len() <= p < (x + mid).len() ==> covered(ranges, p),
        forall|q: int|
            0 <= q ==> (#[trigger] covered(inner, q) <==> covered(ranges, (x + mid).len() + q)),
    ensures
        kept(x + mid + r, ranges, (x + mid + r).len() as int) == x + kept(
            r,
            inner,
            r.len() as int,
        ),
{
    let p0 = x + mid;
    let b = p0 + r;
    let n = p0.len() as int;
    let a = x.len() as int;
    lemma_kept_free(b, ranges, 0, a);
    lemma_kept_covered(b, ranges, a, n);
    assert(b.subrange(0, a) =~= x);
    assert(kept(b, ranges, 0) =~= Seq::empty());
    assert(kept(b, ranges, n) =~= x);
    lemma_cover_later(p0, r, ranges, inner, x, r.len() as int);
}

proof fn lemma_cover_later(
    p0: Seq<u8>,
    r: Seq<u8>,
    ranges: Seq<(int, int)>,
    inner: Seq<(int, int)>,
    x: Seq<u8>,
    q: int,
)
    requires
        0 <= q <= r.len(),
        forall|k: int|
            0 <= k ==> (#[trigger] covered(inner, k) <==> covered(ranges, p0.len() + k)),
        kept(p0 + r, ranges, p0.len() as int) == x,
    ensures
        kept(p0 + r, ranges, p0.len() + q) == x + kept(r, inner, q),
    decreases q,
{
    let b = p0 + r;
    let n = p0.len() as int;
    if q == 0 {
        assert(kept(b, ranges, n) =~= x + kept(r, inner, 0));
    } else {
        lemma_cover_later(p0, r, ranges, inner, x, q - 1);
        let p = q - 1;
        assert(b[n + p] == r[p]);
        assert(covered(inner, p) <==> covered(ranges, n + p));
        assert(n + q - 1 == n + p);
        assert(kept(b, ranges, n + q) =~= x + kept(r, inner, q));
    }
}

/// What is left of a text of which a part is taken out: what stands before the part, and what
/// is left of the rest.
pub proof fn lemma_cut_kept(
    x: Seq<u8>,
    mid: Seq<u8>,
    r: Seq<u8>,
    ranges: Seq<(int, int)>,
    inner: Seq<(int, int)>,
)
    requires
        ranges.len() == 1 + inner.len(),
        ranges[0] == (x.len() as int, (x + mid).len() as int),
        forall|k: int|
            0 <= k < inner.len() ==> #[trigger] ranges[k + 1] == (
                inner[k].0 + (x + mid).len(),
                inner[k].1 + (x + mid).len(),
            ) && inner[k].0 >= 0,
    ensures
        kept(x + mid + r, ranges, (x + mid + r).len() as int) == x + kept(
            r,
            inner,
            r.len() as int,
        ),
{
    assert forall|k: int| #![trigger inner[k]] 0 <= k < inner.len() implies ranges[1 + k] == (
        inner[k].0 + (x + mid).len(),
        inner[k].1 + (x + mid).len(),
    ) && inner[k].0 >= 0 by {
        assert(ranges[k + 1] == ranges[1 + k]);
    }
    lemma_split_cover(x, mid, r, ranges, inner, 1);
    lemma_cover_kept(x, mid, r, ranges, inner);
}

/// What is left of a text behind a place: what is left before it, and what is left of the
/// rest.
pub proof fn lemma_later_kept(
    p0: Seq<u8>,
    r: Seq<u8>,
    ranges: Seq<(int, int)>,
    inner: Seq<(int, int)>,
    x: Seq<u8>,
    q: int,
)
    requires
        0 <= q <= r.len(),
        ranges.len() == 1 + inner.len(),
        ranges[0].1 <= p0.len(),
        forall|k: int|
            0 <= k < inner.len() ==> #[trigger] ranges[k + 1] == (
                inner[k].0 + p0.len(),
                inner[k].1 + p0.len(),
            ),
        kept(p0 + r, ranges, p0.len() as int) == x,
    ensures
        kept(p0 + r, ranges, p0.len() + q) == x + kept(r, inner, q),
{
    let n = p0.len() as int;
    assert forall|p: int| 0 <= p implies (#[trigger] covered(inner, p) <==> covered(
        ranges,
        n + p,
    )) by {
        if covered(ranges, n + p) {
            let k = choose|k: int|
                0 <= k < ranges.len() && (#[trigger] ranges[k]).0 <= n + p < ranges[k].1;
            assert(k > 0);
            assert(ranges[k - 1 + 1] == (inner[k - 1].0 + n, inner[k - 1].1 + n));
            assert(inner[k - 1].0 <= p < inner[k - 1].1);
        }
        if covered(inner, p) {
            let k = choose|k: int|
                0 <= k < inner.len() && (#[trigger] inner[k]).0 <= p < inner[k].1;
            assert(ranges[k + 1] == (inner[k].0 + n, inner[k].1 + n));
            assert(ranges[k + 1].0 <= n + p < ranges[k + 1].1);
        }
    }
    lemma_cover_later(p0, r, ranges, inner, x, q);
}

/// The function blocks of the rest say what they say without what stands before.
proof fn lemma_rest_functions(
    x: Seq<u8>,
    e: Seq<u8>,
    r: Seq<u8>,
    registry: Map<Seq<char>, Seq<char>>,
)
    requires
        valid_utf8(head_of(x, e) + r),
        valid_utf8(r),
        opens_nothing(x),
        free_of_tags(e),
    ensures
        function_calls(
            head_of(x, e) + r,
            function_blocks(head_of(x, e) + r),
            registry,
        ) == function_calls(r, function_blocks(r), registry),
{
    lemma_whole_spans(x, e, r);
    lemma_later_function_calls(head_of(x, e), r, registry);
}

/// The calls of the whole.
proof fn lemma_whole_calls(
    x: Seq<u8>,
    e: Seq<u8>,
    r: Seq<u8>,
    registry: Map<Seq<char>, Seq<char>>,
)
    requires
        valid_utf8(head_of(x, e) + r),
        valid_utf8(r),
        opens_nothing(x),
        free_of_tags(e),
    ensures
        found_calls(head_of(x, e) + r, registry) == block_calls_then(e, r, registry),
{
    let b = head_of(x, e) + r;
    lemma_whole_blocks(x, e, r);
    lemma_own_calls(x, e, r, registry);
    lemma_rest_functions(x, e, r, registry);
    let blocks = tagged_blocks(r);
    assert forall|k: int| #![trigger blocks[k]] 0 <= k < blocks.len() implies 0
        <= blocks[k].inner_start && blocks[k].inner_end <= r.len() by {
        lemma_tagged_in(r, k);
    }
    lemma_rest_calls(head_of(x, e), r, own_block(x, e), blocks, registry);
    let tags = block_calls(b, tool_blocks(b), registry);
    let functions = function_calls(b, function_blocks(b), registry);
    assert(tags == inside_calls(e, registry) + block_calls(r, blocks, registry));
    assert(tool_blocks(b).len() > 0);
    blocks_take_priority(b, registry);
    assert(tags + functions =~= block_calls_then(e, r, registry));
}

/// A block is read wherever it stands: what the client sees is what stands before it, and what
/// is left of the rest. Where no other block opens inside it, the calls are those of the text
/// inside it, whatever that is, and behind them those of the blocks in the rest.
pub proof fn first_block_is_read(
    pre: Seq<char>,
    inner: Seq<char>,
    rest: Seq<char>,
    registry: Map<Seq<char>, Seq<char>>,
)
    requires
        opens_nothing(encode_utf8(pre)),
        closes_nothing(encode_utf8(inner)),
    ensures
        opens_nothing(encode_utf8(inner)) ==> found_calls(
            encode_utf8(block_text(pre, inner, rest)),
            registry,
        ) == block_calls_then(encode_utf8(inner), encode_utf8(rest), registry),
        stripped(encode_utf8(block_text(pre, inner, rest)), registry) == encode_utf8(pre)
            + untagged(encode_utf8(rest)),
{
    let x = encode_utf8(pre);
    let e = encode_utf8(inner);
    let r = encode_utf8(rest);
    lemma_encode_concat(pre, "<tool_call>"@);
    lemma_encode_concat(pre + "<tool_call>"@, inner);
    lemma_encode_concat(pre + "<tool_call>"@ + inner, "</tool_call>"@);
    lemma_encode_concat(pre + "<tool_call>"@ + inner + "</tool_call>"@, rest);
    encode_utf8_valid_utf8(block_text(pre, inner, rest));
    encode_utf8_valid_utf8(rest);
    lemma_around_kept(x, e, r);
    blocks_take_priority(head_of(x, e) + r, registry);
    if opens_nothing(e) {
        lemma_whole_calls(x, e, r, registry);
    }
}

/// The calls of a text, and behind them those of the blocks in another.
pub open spec fn block_calls_then(
    inner: Seq<u8>,
    rest: Seq<u8>,
    registry: Map<Seq<char>, Seq<char>>,
) -> Seq<CallView> {
    inside_calls(inner, registry) + tagged_calls(rest, registry)
}

/// The `<tool_call>` blocks of a text lie in it.
proof fn lemma_tagged_in(r: Seq<u8>, k: int)
    requires
        valid_utf8(r),
        0 <= k < tagged_blocks(r).len(),
    ensures
        0 <= tagged_blocks(r)[k].inner_start,
        tagged_blocks(r)[k].inner_end <= r.len(),
{
    crate::toolcall::blocks::lemma_tool_blocks(r);
    assert(tool_blocks(r) == tagged_blocks(r));
    assert(block_in(r, tool_blocks(r)[k]));
}

/// Blocks are read one after the other: with another block behind it, what is left of the whole
/// is what stands before the first block and what is left of the rest; and where no other block
/// opens inside the first, its calls come before those of the rest.
pub proof fn blocks_are_read_in_order(
    pre: Seq<char>,
    inner: Seq<char>,
    rest: Seq<char>,
    registry: Map<Seq<char>, Seq<char>>,
)
    requires
        opens_nothing(encode_utf8(pre)),
        closes_nothing(encode_utf8(inner)),
        tagged_blocks(encode_utf8(rest)).len() > 0,
    ensures
        opens_nothing(encode_utf8(inner)) ==> found_calls(
            encode_utf8(block_text(pre, inner, rest)),
            registry,
        ) == inside_calls(encode_utf8(inner), registry) + found_calls(
            encode_utf8(rest),
            registry,
        ),
        stripped(encode_utf8(block_text(pre, inner, rest)), registry) == encode_utf8(pre)
            + stripped(encode_utf8(rest), registry),
{
    let r = encode_utf8(rest);
    first_block_is_read(pre, inner, rest, registry);
    assert(tool_blocks(r) == tagged_blocks(r));
    assert(found_calls(r, registry) =~= tagged_calls(r, registry));
    assert(call_ranges(r, registry) =~= tagged_ranges(r));
}

/// The text around a block is what the client sees, byte for byte, whatever stands in the block;
/// and a call in the block, if it is one object in which no other block opens, is read back as
/// the call that it is.
pub proof fn written_call_is_read_back(
    pre: Seq<char>,
    json: Seq<char>,
    post: Seq<char>,
    registry: Map<Seq<char>, Seq<char>>,
)
    requires
        opens_nothing(encode_utf8(pre)),
        opens_nothing(encode_utf8(post)),
        closes_nothing(encode_utf8(json)),
    ensures
        opens_nothing(encode_utf8(json)) && object_end(encode_utf8(json), 0) == Some(
            encode_utf8(json).len() - 1,
        ) ==> found_calls(encode_utf8(block_text(pre, json, post)), registry) == opt_seq(
            block_text_call(encode_utf8(json), registry),
        ),
        stripped(encode_utf8(block_text(pre, json, post)), registry) == encode_utf8(pre + post),
{
    let e = encode_utf8(json);
    let r = encode_utf8(post);
    first_block_is_read(pre, json, post, registry);
    encode_utf8_valid_utf8(post);
    lemma_opens_nothing(r);
    assert(tagged_ranges(r) =~= Seq::<(int, int)>::empty());
    lemma_kept_all(r, tagged_ranges(r), r.len() as int);
    assert(r.take(r.len() as int) =~= r);
    lemma_encode_concat(pre, post);
    if opens_nothing(e) && object_end(e, 0) == Some(e.len() - 1) {
        objects_are_read_in_order(e, Seq::empty(), registry);
        assert(e + Seq::<u8>::empty() =~= e);
        let call = opt_seq(block_text_call(e, registry));
        assert(inside_calls(Seq::<u8>::empty(), registry) == Seq::<CallView>::empty());
        assert(tagged_calls(r, registry) =~= Seq::<CallView>::empty());
        assert(inside_calls(e, registry) + tagged_calls(r, registry) =~= call);
    }
}

/// A text in which nothing opens has no `<tool_call>` blocks and no function blocks.
proof fn lemma_opens_nothing(b: Seq<u8>)
    requires
        valid_utf8(b),
        opens_nothing(b),
    ensures
        tagged_blocks(b).len() == 0,
        function_blocks(b).len() == 0,
{
    assert forall|p: int| 0 <= p < b.len() implies #[trigger] match_at(
        Marker::ToolOpen,
        b,
        p,
    ) is None by {
        assert(!stands_at(b, encode_utf8("<tool_call>"@), p));
    }
    lemma_no_spans(Marker::ToolOpen, b, 0);
    assert forall|p: int| 0 <= p < b.len() implies #[trigger] match_at(
        Marker::FunctionOpen,
        b,
        p,
    ) is None by {
        assert(!stands_at(b, encode_utf8("<function"@), p));
        if match_at(Marker::FunctionOpen, b, p) is Some {
            lemma_function_there(b, p);
        }
    }
    lemma_no_spans(Marker::FunctionOpen, b, 0);
}

/// Several objects in one block are all read: an object gives its call, and behind it come
/// the calls of what follows it, with or without anything between them.
pub proof fn objects_are_read_in_order(
    x: Seq<u8>,
    rest: Seq<u8>,
    registry: Map<Seq<char>, Seq<char>>,
)
    requires
        object_end(x, 0) == Some(x.len() - 1),
    ensures
        inside_calls(x + rest, registry) == opt_seq(block_text_call(x, registry)) + inside_calls(
            rest,
            registry,
        ),
{
    let b = x + rest;
    let n = x.len() as int;
    let m = rest.len() as int;
    lemma_scan_end(x, 0, 0, false, false);
    crate::toolcall::scan::object_end_ignores_what_follows(x, rest, 0, 0, false, false);
    assert(b.take(b.len() as int) =~= b);
    assert(b[0] == x[0]);
    assert(object_end(b, 0) == Some(n - 1));
    lemma_later_objects(x, rest, 0, m);
    let later = later_objects(objects_between(rest, 0, m), n);
    assert(objects_between(b, 0, n + m) =~= seq![(0int, n - 1)] + later);
    lemma_objects_between(rest, 0, m);
    lemma_first_then(x, rest, objects_between(rest, 0, m), registry);
}

proof fn lemma_first_then(
    x: Seq<u8>,
    rest: Seq<u8>,
    objects: Seq<(int, int)>,
    registry: Map<Seq<char>, Seq<char>>,
)
    requires
        x.len() > 0,
        forall|k: int|
            #![trigger objects[k]]
            0 <= k < objects.len() ==> 0 <= objects[k].0 <= objects[k].1 < rest.len(),
    ensures
        object_calls(
            x + rest,
            seq![(0int, x.len() - 1)] + later_objects(objects, x.len() as int),
            registry,
        ) == opt_seq(block_text_call(x, registry)) + object_calls(rest, objects, registry),
    decreases objects.len(),
{
    let b = x + rest;
    let n = x.len() as int;
    let whole = seq![(0int, n - 1)] + later_objects(objects, n);
    let first = opt_seq(block_text_call(x, registry));
    if objects.len() == 0 {
        assert(whole =~= seq![(0int, n - 1)]);
        assert(whole.drop_last() =~= Seq::<(int, int)>::empty());
        assert(object_text(b, (0int, n - 1)) =~= x);
        assert(object_calls(b, whole.drop_last(), registry) == Seq::<CallView>::empty());
        assert(object_calls(b, whole, registry) =~= first + Seq::<CallView>::empty());
    } else {
        let head = objects.drop_last();
        assert forall|k: int| #![trigger head[k]] 0 <= k < head.len() implies 0 <= head[k].0
            <= head[k].1 < rest.len() by {
            assert(head[k] == objects[k]);
        }
        lemma_first_then(x, rest, head, registry);
        assert(whole.drop_last() =~= seq![(0int, n - 1)] + later_objects(head, n));
        let o = objects[objects.len() - 1];
        assert(whole.last() == (o.0 + n, o.1 + n));
        assert(object_text(b, (o.0 + n, o.1 + n)) =~= object_text(rest, o));
        let more = opt_seq(block_text_call(object_text(rest, o), registry));
        assert(object_calls(b, whole, registry) =~= first + (object_calls(rest, head, registry)
            + more));
    }
}

/// What stands between objects is passed over, as long as no brace is in it.
pub proof fn separators_are_passed_over(
    sep: Seq<u8>,
    rest: Seq<u8>,
    registry: Map<Seq<char>, Seq<char>>,
)
    requires
        forall|k: int| 0 <= k < sep.len() ==> #[trigger] sep[k] != 0x7b,
    ensures
        inside_calls(sep + rest, registry) == inside_calls(rest, registry),
{
    let b = sep + rest;
    let n = sep.len() as int;
    let m = rest.len() as int;
    assert forall|k: int| 0 <= k < n implies #[trigger] b[k] != 0x7b by {
        assert(b[k] == sep[k]);
    }
    lemma_skip_to_objects(b, 0, n, n + m);
    lemma_later_objects(sep, rest, 0, m);
    lemma_objects_between(rest, 0, m);
    lemma_later_calls(sep, rest, objects_between(rest, 0, m), registry);
}

/// The bytes of a block that is never closed hold no closing tag behind its opening one, and no
/// function opens in the whole.
proof fn lemma_unclosed_tags(x: Seq<u8>, e: Seq<u8>)
    requires
        opens_nothing(x),
        closes_nothing(e),
    ensures
        ({
            let b = x + encode_utf8("<tool_call>"@) + e;
            let i = x.len() as int + 11;
            &&& stands_at(b, encode_utf8("<tool_call>"@), x.len() as int)
            &&& forall|p: int|
                0 <= p < x.len() ==> !stands_at(b, encode_utf8("<tool_call>"@), p)
            &&& forall|p: int| i <= p ==> !stands_at(b, encode_utf8("</tool_call>"@), p)
            &&& forall|p: int| 0 <= p ==> !stands_at(b, encode_utf8("<function"@), p)
            &&& forall|p: int|
                i <= p && stands_at(b, encode_utf8("<tool_call>"@), p) ==> occurs(
                    e,
                    encode_utf8("<tool_call>"@),
                )
            &&& forall|p: int|
                x.len() < p < i ==> !stands_at(b, encode_utf8("<tool_call>"@), p)
        }),
{
    lemma_tag_bytes();
    let o = encode_utf8("<tool_call>"@);
    let f = encode_utf8("<function"@);
    let c = encode_utf8("</tool_call>"@);
    let b = x + o + e;
    let a = x.len() as int;
    let i = a + 11;
    let len = b.len() as int;
    assert(b.subrange(a, i) =~= o);
    assert(b.subrange(i, len) =~= e);
    assert forall|p: int| 0 <= p < i && p != a implies !stands_at(b, o, p) by {
        if stands_at(b, o, p) {
            lemma_open_tag(x, e, o, p);
        }
    }
    assert forall|p: int| 0 <= p implies !stands_at(b, f, p) by {
        if stands_at(b, f, p) {
            if p < i {
                lemma_open_tag(x, e, f, p);
                assert(f.len() != o.len());
            } else {
                lemma_stands_in_part(b, f, p, i, len);
            }
        }
    }
    assert forall|p: int| i <= p implies !stands_at(b, c, p) by {
        if stands_at(b, c, p) {
            lemma_stands_in_part(b, c, p, i, len);
        }
    }
    assert forall|p: int| i <= p && stands_at(b, o, p) implies occurs(e, o) by {
        lemma_stands_in_part(b, o, p, i, len);
    }
}

/// The blocks of a text with a block that is never closed: each ends where the next one opens,
/// and the last one with the text.
proof fn lemma_unclosed_blocks(x: Seq<u8>, e: Seq<u8>)
    requires
        valid_utf8(x + encode_utf8("<tool_call>"@) + e),
        opens_nothing(x),
        closes_nothing(e),
    ensures
        ({
            let b = x + encode_utf8("<tool_call>"@) + e;
            let opens = spans(Marker::ToolOpen, b);
            let len = b.len() as int;
            &&& function_blocks(b).len() == 0
            &&& opens.len() > 0 && opens[0].start == x.len() && opens[0].end == x.len() + 11
            &&& tool_blocks(b).len() == opens.len()
            &&& forall|k: int|
                #![trigger tool_blocks(b)[k]]
                0 <= k < opens.len() ==> tool_blocks(b)[k] == (BlockView {
                    open_start: opens[k].start,
                    block_end: next_start(opens, k, len),
                    inner_start: opens[k].end,
                    inner_end: next_start(opens, k, len),
                }) && x.len() <= opens[k].start
            &&& opens_nothing(e) ==> opens.len() == 1
        }),
{
    lemma_tag_bytes();
    lemma_unclosed_tags(x, e);
    let t = Marker::ToolOpen;
    let o = encode_utf8("<tool_call>"@);
    let c = encode_utf8("</tool_call>"@);
    let b = x + o + e;
    let a = x.len() as int;
    let i = a + 11;
    let len = b.len() as int;
    assert forall|p: int| 0 <= p < len implies #[trigger] match_at(
        Marker::FunctionOpen,
        b,
        p,
    ) is None by {
        if match_at(Marker::FunctionOpen, b, p) is Some {
            lemma_function_there(b, p);
        }
    }
    lemma_no_spans(Marker::FunctionOpen, b, 0);
    assert forall|p: int| 0 <= p < a implies #[trigger] match_at(t, b, p) is None by {}
    lemma_spans_skip(t, b, 0, a);
    lemma_span_step(t, b, a, i, None);
    let opens = spans(t, b);
    assert(opens[0] == (SpanView { start: a, end: i, name: None }));
    lemma_spans_from(t, b, 0);
    assert forall|k: int| #![trigger tool_blocks(b)[k]] 0 <= k < opens.len() implies tool_blocks(
        b,
    )[k] == (BlockView {
        open_start: opens[k].start,
        block_end: next_start(opens, k, len),
        inner_start: opens[k].end,
        inner_end: next_start(opens, k, len),
    }) && a <= opens[k].start by {
        assert(spans_from(t, b, 0)[k] == opens[k]);
        assert(match_at(t, b, opens[k].start) == Some((opens[k].end, opens[k].name)));
        let from = opens[k].end;
        if k > 0 {
            assert(spans_from(t, b, 0)[0] == opens[0]);
            assert(opens[0].end <= opens[k].start);
        }
        let part = b.subrange(from, len);
        lemma_find_from(part, c, 0);
        if find_from(part, c, 0) is Some {
            let q = find_from(part, c, 0)->0;
            lemma_stands_in_tail(b, c, from, from + q);
        }
        assert(find_between(b, "</tool_call>"@, from, len) is None);
    }
    if opens_nothing(e) {
        assert forall|p: int| i <= p < len implies #[trigger] match_at(t, b, p) is None by {}
        lemma_no_spans(t, b, i);
    }
}

/// Of ranges that follow one another without gaps up to the end, one covers each place behind
/// their beginning.
proof fn lemma_slot(opens: Seq<SpanView>, len: int, k: int, p: int) -> (j: int)
    requires
        0 <= k < opens.len(),
        opens[k].start <= p < len,
    ensures
        0 <= j < opens.len(),
        opens[j].start <= p < next_start(opens, j, len),
    decreases opens.len() - k,
{
    if p < next_start(opens, k, len) {
        k
    } else {
        lemma_slot(opens, len, k + 1, p)
    }
}

/// A block that is never closed is taken out to the end of the text, whatever stands in it; and
/// where no other block opens inside it, it is read to the end.
pub proof fn unclosed_block_is_read(
    pre: Seq<char>,
    inner: Seq<char>,
    registry: Map<Seq<char>, Seq<char>>,
)
    requires
        opens_nothing(encode_utf8(pre)),
        closes_nothing(encode_utf8(inner)),
    ensures
        opens_nothing(encode_utf8(inner)) ==> found_calls(
            encode_utf8(pre + "<tool_call>"@ + inner),
            registry,
        ) == inside_calls(encode_utf8(inner), registry),
        stripped(encode_utf8(pre + "<tool_call>"@ + inner), registry) == encode_utf8(pre),
{
    lemma_tag_bytes();
    let x = encode_utf8(pre);
    let e = encode_utf8(inner);
    lemma_encode_concat(pre, "<tool_call>"@);
    lemma_encode_concat(pre + "<tool_call>"@, inner);
    let p1 = x + encode_utf8("<tool_call>"@);
    let b = p1 + e;
    encode_utf8_valid_utf8(pre + "<tool_call>"@ + inner);
    lemma_unclosed_blocks(x, e);
    blocks_take_priority(b, registry);
    let a = x.len() as int;
    let len = b.len() as int;
    let opens = spans(Marker::ToolOpen, b);
    let ranges = block_ranges(b);
    assert forall|k: int| #![trigger ranges[k]] 0 <= k < opens.len() implies ranges[k] == (
        opens[k].start,
        next_start(opens, k, len),
    ) && a <= opens[k].start by {
        assert(ranges[k] == (tool_blocks(b)[k].open_start, tool_blocks(b)[k].block_end));
    }
    assert(ranges.len() == opens.len());
    assert forall|p: int| 0 <= p < a implies !covered(ranges, p) by {
        if covered(ranges, p) {
            let k = choose|k: int|
                0 <= k < ranges.len() && (#[trigger] ranges[k]).0 <= p < ranges[k].1;
        }
    }
    assert forall|p: int| a <= p < len implies covered(ranges, p) by {
        let j = lemma_slot(opens, len, 0, p);
        assert(ranges[j].0 <= p < ranges[j].1);
    }
    lemma_kept_free(b, ranges, 0, a);
    lemma_kept_covered(b, ranges, a, len);
    assert(b.subrange(0, a) =~= x);
    assert(kept(b, ranges, 0) =~= Seq::empty());
    assert(stripped(b, registry) =~= x);
    if opens_nothing(e) {
        lemma_unclosed_calls(x, e, registry);
    }
}

proof fn lemma_unclosed_calls(
    x: Seq<u8>,
    e: Seq<u8>,
    registry: Map<Seq<char>, Seq<char>>,
)
    requires
        valid_utf8(x + encode_utf8("<tool_call>"@) + e),
        opens_nothing(x),
        free_of_tags(e),
    ensures
        found_calls(x + encode_utf8("<tool_call>"@) + e, registry) == inside_calls(e, registry),
{
    lemma_tag_bytes();
    lemma_unclosed_blocks(x, e);
    let p1 = x + encode_utf8("<tool_call>"@);
    let b = p1 + e;
    let i = p1.len() as int;
    let n = e.len() as int;
    let own = BlockView {
        open_start: x.len() as int,
        block_end: i + n,
        inner_start: i,
        inner_end: i + n,
    };
    assert(tool_blocks(b) =~= seq![own]) by {
        assert(tool_blocks(b)[0] == own);
    }
    blocks_take_priority(b, registry);
    lemma_later_objects(p1, e, 0, n);
    lemma_objects_between(e, 0, n);
    lemma_later_calls(p1, e, objects_between(e, 0, n), registry);
    assert(seq![own].drop_last() =~= Seq::<BlockView>::empty());
    assert(block_calls(b, seq![own].drop_last(), registry) == Seq::<CallView>::empty());
    assert(found_calls(b, registry) =~= inside_calls(e, registry));
}

/// An opening tag that begins before the text inside the block is the block's own.
proof fn lemma_open_tag(x: Seq<u8>, e: Seq<u8>, m: Seq<u8>, p: int)
    requires
        m == encode_utf8("<tool_call>"@) || m == encode_utf8("<function"@),
        !occurs(x, m),
        stands_at(x + encode_utf8("<tool_call>"@) + e, m, p),
        0 <= p < x.len() + 11,
    ensures
        p == x.len(),
        m == encode_utf8("<tool_call>"@),
{
    lemma_tag_bytes();
    let o = encode_utf8("<tool_call>"@);
    let b = x + o + e;
    let a = x.len() as int;
    let n = m.len() as int;
    lemma_stands_bytes(b, m, p);
    assert(b[p] == m[0]);
    assert(b[p + 1] == m[1]);
    assert(b.subrange(0, a) =~= x);
    assert forall|k: int| 0 <= k < 11 implies b[a + k] == #[trigger] o[k] by {}
    if p + n <= a {
        lemma_stands_in_part(b, m, p, 0, a);
    } else if p < a {
        assert(b[p + (a - p)] == m[a - p]);
        assert(b[a] == o[0]);
    } else if p == a {
        if m == encode_utf8("<function"@) {
            assert(b[a + 1] == o[1]);
        }
    } else {
        assert(b[a + (p - a)] == o[p - a]);
    }
}

/// A tool comes back under the client's name: where a model calls a tool of the client by the
/// name under which it was told of it, the call that the client gets is of that tool, with the
/// arguments that the model wrote, and the text around it is what the client sees.
pub proof fn defined_tool_is_called_back(
    tools: Seq<ToolView>,
    i: int,
    pre: Seq<char>,
    json: Seq<char>,
    post: Seq<char>,
    v: JsonView,
)
    requires
        0 <= i < tools.len(),
        not_overridden(tools, i, norm(tools[i].qwen_name)),
        opens_nothing(encode_utf8(pre)),
        opens_nothing(encode_utf8(post)),
        free_of_tags(encode_utf8(json)),
        object_end(encode_utf8(json), 0) == Some(encode_utf8(json).len() - 1),
        reads_as(encode_utf8(json), v),
        v.get_str("name"@) == Some(tools[i].qwen_name),
        v.get_array("tool_calls"@) is None,
    ensures
        found_calls(encode_utf8(block_text(pre, json, post)), registry_of(tools)) == seq![
            CallView { name: tools[i].name, arguments: call_arguments(v) },
        ],
        stripped(encode_utf8(block_text(pre, json, post)), registry_of(tools)) == encode_utf8(
            pre + post,
        ),
{
    registered_tools_are_found(tools, i);
    written_call_is_read_back(pre, json, post, registry_of(tools));
}

} // verus!
