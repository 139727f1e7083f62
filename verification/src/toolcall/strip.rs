//! Taking the calls out of the text that the client sees.

use crate::text::{lemma_boundary_after_ascii, slice_text};
use crate::text_map::TextMap;
use crate::toolcall::blocks::{
    block_in, find_function_blocks, find_tool_blocks, function_blocks, lemma_function_blocks,
    lemma_tool_blocks, tool_blocks, Block, FunctionBlock,
};
use crate::toolcall::parse::{
    all_objects, find_objects, lemma_all_objects, naked_text_call, object_text, parse_naked_one,
    seeks_naked, slice_object,
};
use crate::toolcall::scan::pair_view;
use vstd::prelude::*;
use vstd::utf8::*;

verus! {

// ---------------------------------------------------------------------------
// What is taken out and what stays
// ---------------------------------------------------------------------------

/// The places of the bare calls among the objects, each with its first byte and the byte
/// behind it.
pub open spec fn naked_ranges(
    b: Seq<u8>,
    objects: Seq<(int, int)>,
    registry: Map<Seq<char>, Seq<char>>,
) -> Seq<(int, int)>
    decreases objects.len(),
{
    if objects.len() == 0 {
        Seq::empty()
    } else {
        let o = objects.last();
        let rest = naked_ranges(b, objects.drop_last(), registry);
        if naked_text_call(object_text(b, o), registry) is Some {
            rest.push((o.0, o.1 + 1))
        } else {
            rest
        }
    }
}

/// The places of the blocks.
pub open spec fn block_ranges(b: Seq<u8>) -> Seq<(int, int)> {
    Seq::new(
        tool_blocks(b).len(),
        |i: int| (tool_blocks(b)[i].open_start, tool_blocks(b)[i].block_end),
    ) + Seq::new(
        function_blocks(b).len(),
        |i: int|
            (function_blocks(b)[i].block.open_start, function_blocks(b)[i].block.block_end),
    )
}

/// The places of all that is taken out.
pub open spec fn call_ranges(b: Seq<u8>, registry: Map<Seq<char>, Seq<char>>) -> Seq<
    (int, int),
> {
    block_ranges(b) + (if seeks_naked(b, registry) {
        naked_ranges(b, all_objects(b, 0), registry)
    } else {
        Seq::empty()
    })
}

/// The byte at `p` lies in one of the ranges.
pub open spec fn covered(ranges: Seq<(int, int)>, p: int) -> bool {
    exists|k: int| 0 <= k < ranges.len() && (#[trigger] ranges[k]).0 <= p < ranges[k].1
}

/// The bytes before `n` that lie in none of the ranges.
pub open spec fn kept(b: Seq<u8>, ranges: Seq<(int, int)>, n: int) -> Seq<u8>
    decreases n,
{
    if n <= 0 {
        Seq::empty()
    } else if covered(ranges, n - 1) {
        kept(b, ranges, n - 1)
    } else {
        kept(b, ranges, n - 1).push(b[n - 1])
    }
}

/// What is left of a text: every byte that belongs to no call, in its order.
pub open spec fn stripped(b: Seq<u8>, registry: Map<Seq<char>, Seq<char>>) -> Seq<u8> {
    kept(b, call_ranges(b, registry), b.len() as int)
}

/// A range lies in the text and ends on boundaries.
pub open spec fn range_in(b: Seq<u8>, r: (int, int)) -> bool {
    &&& 0 <= r.0 <= r.1 <= b.len()
    &&& is_char_boundary(b, r.0)
    &&& is_char_boundary(b, r.1)
}

// ---------------------------------------------------------------------------
// Lemmas
// ---------------------------------------------------------------------------

/// Text behind text is encoded as bytes behind bytes.
pub proof fn lemma_encode_concat(a: Seq<char>, c: Seq<char>)
    ensures
        encode_utf8(a + c) == encode_utf8(a) + encode_utf8(c),
{
    let x = encode_utf8(a);
    let y = encode_utf8(c);
    let z = x + y;
    let n = x.len() as int;
    encode_utf8_valid_utf8(a);
    encode_utf8_valid_utf8(c);
    valid_utf8_concat(x, y);
    assert(z.subrange(0, n) =~= x);
    assert(z.subrange(n, z.len() as int) =~= y);
    if y.len() > 0 {
        is_char_boundary_start_end_of_seq(y);
        is_char_boundary_iff_not_is_continuation_byte(y, 0);
        assert(z[n] == y[0]);
        is_char_boundary_iff_not_is_continuation_byte(z, n);
    } else {
        is_char_boundary_start_end_of_seq(z);
    }
    decode_utf8_split(z, n);
    encode_utf8_decode_utf8(a);
    encode_utf8_decode_utf8(c);
    assert(decode_utf8(z) =~= a + c);
    decode_utf8_encode_utf8(z);
}

/// Nothing stays of a stretch that is covered.
pub proof fn lemma_kept_covered(b: Seq<u8>, ranges: Seq<(int, int)>, from: int, to: int)
    requires
        0 <= from <= to <= b.len(),
        forall|p: int| from <= p < to ==> covered(ranges, p),
    ensures
        kept(b, ranges, to) == kept(b, ranges, from),
    decreases to - from,
{
    if from < to {
        lemma_kept_covered(b, ranges, from, to - 1);
    }
}

/// All stays of a stretch that is not covered.
pub proof fn lemma_kept_free(b: Seq<u8>, ranges: Seq<(int, int)>, from: int, to: int)
    requires
        0 <= from <= to <= b.len(),
        forall|p: int| from <= p < to ==> !covered(ranges, p),
    ensures
        kept(b, ranges, to) == kept(b, ranges, from) + b.subrange(from, to),
    decreases to - from,
{
    if from < to {
        lemma_kept_free(b, ranges, from, to - 1);
        assert(b.subrange(from, to) =~= b.subrange(from, to - 1).push(b[to - 1]));
    } else {
        assert(kept(b, ranges, to) =~= kept(b, ranges, from) + b.subrange(from, to));
    }
}

/// Which bytes stay depends only on which are covered.
pub proof fn lemma_kept_same(b: Seq<u8>, x: Seq<(int, int)>, y: Seq<(int, int)>, n: int)
    requires
        forall|p: int| covered(x, p) <==> covered(y, p),
    ensures
        kept(b, x, n) == kept(b, y, n),
    decreases n,
{
    if n > 0 {
        lemma_kept_same(b, x, y, n - 1);
    }
}

proof fn lemma_naked_ranges(
    b: Seq<u8>,
    objects: Seq<(int, int)>,
    registry: Map<Seq<char>, Seq<char>>,
)
    requires
        valid_utf8(b),
        forall|k: int|
            #![trigger objects[k]]
            0 <= k < objects.len() ==> 0 <= objects[k].0 <= objects[k].1 < b.len()
                && b[objects[k].0] == 0x7b && b[objects[k].1] == 0x7d,
    ensures
        forall|k: int|
            0 <= k < naked_ranges(b, objects, registry).len() ==> range_in(
                b,
                #[trigger] naked_ranges(b, objects, registry)[k],
            ),
    decreases objects.len(),
{
    if objects.len() > 0 {
        let rest = objects.drop_last();
        assert forall|k: int| #![trigger rest[k]] 0 <= k < rest.len() implies 0 <= rest[k].0
            <= rest[k].1 < b.len() && b[rest[k].0] == 0x7b && b[rest[k].1] == 0x7d by {
            assert(rest[k] == objects[k]);
        }
        lemma_naked_ranges(b, rest, registry);
        let o = objects[objects.len() - 1];
        assert(o == objects.last());
        lemma_boundary_after_ascii(b, o.0);
        lemma_boundary_after_ascii(b, o.1);
        let all = naked_ranges(b, objects, registry);
        let head = naked_ranges(b, rest, registry);
        assert forall|k: int| 0 <= k < all.len() implies range_in(b, #[trigger] all[k]) by {
            if k < head.len() {
                assert(all[k] == head[k]);
            }
        }
    }
}

/// All that is taken out lies in the text, on boundaries.
pub proof fn lemma_call_ranges(b: Seq<u8>, registry: Map<Seq<char>, Seq<char>>)
    requires
        valid_utf8(b),
    ensures
        forall|k: int|
            0 <= k < call_ranges(b, registry).len() ==> range_in(
                b,
                #[trigger] call_ranges(b, registry)[k],
            ),
{
    lemma_tool_blocks(b);
    lemma_function_blocks(b);
    lemma_all_objects(b, 0);
    lemma_naked_ranges(b, all_objects(b, 0), registry);
    let nt = tool_blocks(b).len() as int;
    let nf = function_blocks(b).len() as int;
    let all = call_ranges(b, registry);
    assert forall|k: int| 0 <= k < all.len() implies range_in(b, #[trigger] all[k]) by {
        if k < nt {
            assert(block_in(b, tool_blocks(b)[k]));
        } else if k < nt + nf {
            assert(block_in(b, function_blocks(b)[k - nt].block));
        } else {
            assert(all[k] == naked_ranges(b, all_objects(b, 0), registry)[k - nt - nf]);
        }
    }
}

// ---------------------------------------------------------------------------
// Executable functions
// ---------------------------------------------------------------------------

/// The ranges as pairs of integers.
pub open spec fn pairs(ranges: Seq<(usize, usize)>) -> Seq<(int, int)> {
    ranges.map_values(|p: (usize, usize)| pair_view(p))
}

/// Ordered by where they begin.
pub open spec fn sorted(ranges: Seq<(usize, usize)>) -> bool {
    forall|i: int, j: int|
        0 <= i < j < ranges.len() ==> (#[trigger] ranges[i]).0 <= (#[trigger] ranges[j]).0
}

/// Puts ranges into the order in which they begin.
fn sort_ranges(ranges: &Vec<(usize, usize)>) -> (r: Vec<(usize, usize)>)
    ensures
        sorted(r@),
        forall|x: (usize, usize)| r@.contains(x) <==> ranges@.contains(x),
{
    let mut out: Vec<(usize, usize)> = Vec::new();
    let n: usize = ranges.len();
    let mut i: usize = 0;
    while i < n
        invariant
            n == ranges@.len(),
            i <= n,
            sorted(out@),
            forall|x: (usize, usize)| out@.contains(x) <==> ranges@.take(i as int).contains(x),
            out@.len() == i,
        decreases n - i,
    {
        let x = ranges[i];
        let mut k: usize = out.len();
        while k > 0 && out[k - 1].0 > x.0
            invariant
                k <= out@.len(),
                sorted(out@),
                forall|j: int| k <= j < out@.len() ==> (#[trigger] out@[j]).0 > x.0,
            decreases k,
        {
            k -= 1;
        }
        let ghost before = out@;
        out.insert(k, x);
        proof {
            assert(out@ == before.insert(k as int, x));
            assert forall|p: int, q: int| 0 <= p < q < out@.len() implies (#[trigger] out@[p]).0
                <= (#[trigger] out@[q]).0 by {
                let p0 = if p > k {
                    p - 1
                } else {
                    p
                };
                let q0 = if q > k {
                    q - 1
                } else {
                    q
                };
                if p != k {
                    assert(out@[p] == before[p0]);
                }
                if q != k {
                    assert(out@[q] == before[q0]);
                }
                if p == k {
                    assert(before[q0].0 > x.0);
                } else if q == k && k > 0 {
                    assert(before[k - 1].0 <= x.0);
                    assert(p0 <= k - 1);
                    if p0 < k - 1 {
                        assert(before[p0].0 <= before[k - 1].0);
                    }
                }
            }
            let seen = ranges@.take(i as int + 1);
            assert(seen =~= ranges@.take(i as int).push(x));
            assert forall|y: (usize, usize)| out@.contains(y) <==> seen.contains(y) by {
                if out@.contains(y) {
                    let p = choose|p: int| 0 <= p < out@.len() && out@[p] == y;
                    if p == k {
                        assert(seen[i as int] == y);
                    } else {
                        let p0 = if p > k {
                            p - 1
                        } else {
                            p
                        };
                        assert(before[p0] == y);
                        assert(before.contains(y));
                        let q = choose|q: int|
                            0 <= q < ranges@.take(i as int).len() && ranges@.take(i as int)[q]
                                == y;
                        assert(seen[q] == y);
                    }
                }
                if seen.contains(y) {
                    let q = choose|q: int| 0 <= q < seen.len() && seen[q] == y;
                    if q == i {
                        assert(out@[k as int] == y);
                    } else {
                        assert(ranges@.take(i as int)[q] == y);
                        assert(before.contains(y));
                        let p0 = choose|p: int| 0 <= p < before.len() && before[p] == y;
                        let p = if p0 >= k {
                            p0 + 1
                        } else {
                            p0
                        };
                        assert(out@[p] == y);
                    }
                }
            }
        }
        i += 1;
    }
    proof {
        assert(ranges@.take(n as int) =~= ranges@);
    }
    out
}

/// The same ranges cover the same bytes in any order.
proof fn lemma_covered_same(x: Seq<(usize, usize)>, y: Seq<(usize, usize)>)
    requires
        forall|r: (usize, usize)| x.contains(r) <==> y.contains(r),
    ensures
        forall|p: int| covered(pairs(x), p) <==> covered(pairs(y), p),
{
    assert forall|p: int| covered(pairs(x), p) <==> covered(pairs(y), p) by {
        if covered(pairs(x), p) {
            let k = choose|k: int|
                0 <= k < pairs(x).len() && (#[trigger] pairs(x)[k]).0 <= p < pairs(x)[k].1;
            assert(x.contains(x[k]));
            let l = choose|l: int| 0 <= l < y.len() && y[l] == x[k];
            assert(pairs(y)[l] == pairs(x)[k]);
        }
        if covered(pairs(y), p) {
            let k = choose|k: int|
                0 <= k < pairs(y).len() && (#[trigger] pairs(y)[k]).0 <= p < pairs(y)[k].1;
            assert(y.contains(y[k]));
            let l = choose|l: int| 0 <= l < x.len() && x[l] == y[k];
            assert(pairs(x)[l] == pairs(y)[k]);
        }
    }
}

/// A text without the bytes in the ranges.
pub fn remove_ranges(text: &str, ranges: &Vec<(usize, usize)>) -> (r: String)
    requires
        forall|k: int|
            0 <= k < ranges@.len() ==> range_in(
                encode_utf8(text@),
                pair_view(#[trigger] ranges@[k]),
            ),
    ensures
        encode_utf8(r@) == kept(
            encode_utf8(text@),
            pairs(ranges@),
            encode_utf8(text@).len() as int,
        ),
{
    let ghost b = encode_utf8(text@);
    let order = sort_ranges(ranges);
    let ghost all = pairs(order@);
    let n: usize = order.len();
    let len: usize = text.as_bytes().len();
    proof {
        encode_utf8_valid_utf8(text@);
        is_char_boundary_start_end_of_seq(b);
        lemma_covered_same(order@, ranges@);
        lemma_kept_same(b, all, pairs(ranges@), b.len() as int);
        assert forall|k: int| 0 <= k < order@.len() implies range_in(
            b,
            pair_view(#[trigger] order@[k]),
        ) by {
            assert(order@.contains(order@[k]));
            let l = choose|l: int| 0 <= l < ranges@.len() && ranges@[l] == order@[k];
            assert(range_in(b, pair_view(ranges@[l])));
        }
    }
    let mut out = String::new();
    let mut cursor: usize = 0;
    proof {
        assert(out@ =~= Seq::empty());
        assert(encode_utf8(out@) =~= Seq::empty()) by {
            reveal_with_fuel(encode_utf8, 1);
        }
        assert(kept(b, all, 0) =~= Seq::empty());
    }
    let mut i: usize = 0;
    while i < n
        invariant
            b == encode_utf8(text@),
            valid_utf8(b),
            len == b.len(),
            n == order@.len(),
            all == pairs(order@),
            sorted(order@),
            forall|k: int|
                0 <= k < order@.len() ==> range_in(b, pair_view(#[trigger] order@[k])),
            i <= n,
            cursor <= len,
            is_char_boundary(b, cursor as int),
            forall|k: int| 0 <= k < i ==> (#[trigger] order@[k]).1 <= cursor,
            encode_utf8(out@) == kept(b, all, cursor as int),
        decreases n - i,
    {
        let start: usize = order[i].0;
        let end: usize = order[i].1;
        proof {
            assert(range_in(b, pair_view(order@[i as int])));
        }
        if cursor < start {
            let part = slice_text(text, cursor, start);
            proof {
                lemma_encode_concat(out@, part@);
                assert forall|p: int| cursor <= p < start implies !covered(all, p) by {
                    if covered(all, p) {
                        let k = choose|k: int|
                            0 <= k < all.len() && (#[trigger] all[k]).0 <= p < all[k].1;
                        assert(all[k] == pair_view(order@[k]));
                        if k >= i {
                            if k > i {
                                assert(order@[i as int].0 <= order@[k].0);
                            }
                        }
                    }
                }
                lemma_kept_free(b, all, cursor as int, start as int);
            }
            out.append(part);
            proof {
                assert(encode_utf8(out@) == kept(b, all, start as int));
            }
        }
        let ghost reached = if cursor < start {
            start as int
        } else {
            cursor as int
        };
        if end > cursor {
            proof {
                assert forall|p: int| reached <= p < end implies covered(all, p) by {
                    assert(all[i as int] == pair_view(order@[i as int]));
                }
                lemma_kept_covered(b, all, reached, end as int);
            }
            cursor = end;
        }
        i += 1;
    }
    if cursor < len {
        let part = slice_text(text, cursor, len);
        proof {
            lemma_encode_concat(out@, part@);
            assert forall|p: int| cursor <= p < len implies !covered(all, p) by {
                if covered(all, p) {
                    let k = choose|k: int|
                        0 <= k < all.len() && (#[trigger] all[k]).0 <= p < all[k].1;
                    assert(all[k] == pair_view(order@[k]));
                }
            }
            lemma_kept_free(b, all, cursor as int, len as int);
        }
        out.append(part);
    }
    out
}

/// The places of the bare calls in a text.
fn find_naked_ranges(text: &str, registry: &TextMap) -> (r: Vec<(usize, usize)>)
    ensures
        pairs(r@) == naked_ranges(
            encode_utf8(text@),
            all_objects(encode_utf8(text@), 0),
            registry@,
        ),
{
    let ghost b = encode_utf8(text@);
    let objects = find_objects(text.as_bytes());
    let ghost all = all_objects(b, 0);
    let n: usize = objects.len();
    let len: usize = text.as_bytes().len();
    let mut out: Vec<(usize, usize)> = Vec::new();
    proof {
        assert(n == all.len());
        lemma_all_objects(b, 0);
        assert(pairs(out@) =~= naked_ranges(b, all.take(0), registry@));
    }
    let mut i: usize = 0;
    while i < n
        invariant
            b == encode_utf8(text@),
            len == b.len(),
            n == objects@.len(),
            n == all.len(),
            objects@.map_values(|p: (usize, usize)| pair_view(p)) == all,
            forall|k: int|
                #![trigger all[k]]
                0 <= k < all.len() ==> 0 <= all[k].0 <= all[k].1 < b.len() && b[all[k].0] == 0x7b
                    && b[all[k].1] == 0x7d,
            i <= n,
            pairs(out@) == naked_ranges(b, all.take(i as int), registry@),
        decreases n - i,
    {
        proof {
            assert(all[i as int] == pair_view(objects@[i as int]));
            assert(all.take(i as int + 1).drop_last() =~= all.take(i as int));
            assert(all.take(i as int + 1).last() == all[i as int]);
        }
        let o = objects[i];
        let part = slice_object(text, o.0, o.1);
        let ghost before = out@;
        if parse_naked_one(part, registry).is_some() {
            assert(o.1 < len);
            out.push((o.0, o.1 + 1));
            proof {
                assert(pairs(out@) =~= pairs(before).push((o.0 as int, o.1 + 1)));
            }
        }
        i += 1;
    }
    proof {
        assert(all.take(n as int) =~= all);
    }
    out
}

/// A text without the calls in it. What belongs to no call stays as it is. Bare calls are
/// taken out exactly where they are read as calls.
pub fn strip_tool_calls_with(text: &str, registry: &TextMap) -> (r: String)
    ensures
        encode_utf8(r@) == stripped(encode_utf8(text@), registry@),
{
    let ghost b = encode_utf8(text@);
    proof {
        encode_utf8_valid_utf8(text@);
        lemma_call_ranges(b, registry@);
    }
    let blocks = find_tool_blocks(text);
    let functions = find_function_blocks(text);
    let ghost all = block_ranges(b);
    let n: usize = blocks.len();
    let m: usize = functions.len();
    let mut ranges: Vec<(usize, usize)> = Vec::new();
    proof {
        assert(n == tool_blocks(b).len());
        assert(m == function_blocks(b).len());
    }
    let mut i: usize = 0;
    while i < n
        invariant
            n == blocks@.len(),
            n == tool_blocks(b).len(),
            all == block_ranges(b),
            blocks@.map_values(|x: Block| x@) == tool_blocks(b),
            i <= n,
            ranges@.len() == i,
            forall|k: int| 0 <= k < i ==> pair_view(#[trigger] ranges@[k]) == all[k],
        decreases n - i,
    {
        proof {
            assert(tool_blocks(b)[i as int] == blocks@[i as int]@);
        }
        ranges.push((blocks[i].open_start, blocks[i].block_end));
        i += 1;
    }
    let mut j: usize = 0;
    while j < m
        invariant
            n == tool_blocks(b).len(),
            m == functions@.len(),
            m == function_blocks(b).len(),
            all == block_ranges(b),
            functions@.map_values(|x: FunctionBlock| x@) == function_blocks(b),
            j <= m,
            ranges@.len() == n + j,
            forall|k: int| 0 <= k < n + j ==> pair_view(#[trigger] ranges@[k]) == all[k],
        decreases m - j,
    {
        proof {
            assert(function_blocks(b)[j as int] == functions@[j as int]@);
        }
        let x = functions[j].block;
        ranges.push((x.open_start, x.block_end));
        j += 1;
    }
    proof {
        assert(pairs(ranges@) =~= all);
    }
    if n == 0 && m == 0 && !registry.is_empty() {
        ranges = find_naked_ranges(text, registry);
        proof {
            assert(pairs(ranges@) =~= call_ranges(b, registry@));
        }
    } else {
        proof {
            assert(pairs(ranges@) =~= call_ranges(b, registry@));
        }
    }
    proof {
        assert forall|k: int| 0 <= k < ranges@.len() implies range_in(
            b,
            pair_view(#[trigger] ranges@[k]),
        ) by {
            assert(pairs(ranges@)[k] == pair_view(ranges@[k]));
            assert(range_in(b, call_ranges(b, registry@)[k]));
        }
    }
    remove_ranges(text, &ranges)
}

/// A text without the calls in it, bare ones left alone.
pub fn strip_tool_calls(text: &str) -> (r: String)
    ensures
        encode_utf8(r@) == stripped(encode_utf8(text@), Map::empty()),
{
    strip_tool_calls_with(text, &TextMap::new())
}

} // verus!
