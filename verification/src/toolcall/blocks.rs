//! The blocks in which a model writes its calls.

use crate::text::{find, lemma_find_from, slice_text, stands_at};
use crate::toolcall::markers::{
    find_marks, lemma_ascii_bytes, lemma_ascii_stands, lemma_fences_pair, lemma_spans_from, span_in,
    spans, spans_from, Marker, Span, SpanView,
};
use crate::toolcall::scan::find_subslice;
use vstd::prelude::*;
use vstd::utf8::*;

verus! {

/// A block: where it begins and the byte behind it, and the same of what stands inside.
#[derive(Debug, Clone, Copy)]
pub struct Block {
    pub open_start: usize,
    pub block_end: usize,
    pub inner_start: usize,
    pub inner_end: usize,
}

/// A block, in integers.
pub struct BlockView {
    pub open_start: int,
    pub block_end: int,
    pub inner_start: int,
    pub inner_end: int,
}

impl View for Block {
    type V = BlockView;

    open spec fn view(&self) -> BlockView {
        BlockView {
            open_start: self.open_start as int,
            block_end: self.block_end as int,
            inner_start: self.inner_start as int,
            inner_end: self.inner_end as int,
        }
    }
}

/// A `<function=name>` block and its name.
#[derive(Debug)]
pub struct FunctionBlock {
    pub block: Block,
    pub name: String,
}

/// A `<function=name>` block, in integers, and its name.
pub struct FunctionBlockView {
    pub block: BlockView,
    pub name: Seq<char>,
}

impl View for FunctionBlock {
    type V = FunctionBlockView;

    open spec fn view(&self) -> FunctionBlockView {
        FunctionBlockView { block: self.block@, name: self.name@ }
    }
}

// ---------------------------------------------------------------------------
// What the blocks of a text are
// ---------------------------------------------------------------------------

/// The first place of `needle` that lies between `from` and `to`.
pub open spec fn find_between(b: Seq<u8>, needle: Seq<char>, from: int, to: int) -> Option<int> {
    match find(b.subrange(from, to), encode_utf8(needle)) {
        Some(rel) => Some(from + rel),
        None => None,
    }
}

/// Where the mark behind the `i`th begins, or the end of the text.
pub open spec fn next_start(opens: Seq<SpanView>, i: int, len: int) -> int {
    if i + 1 < opens.len() {
        opens[i + 1].start
    } else {
        len
    }
}

/// The block that is opened by `open` and closed by the tag `close`, sought up to `limit`; one
/// that is not closed ends at `fallback`.
pub open spec fn closed_block(
    b: Seq<u8>,
    open: SpanView,
    close: Seq<char>,
    limit: int,
    fallback: int,
) -> BlockView {
    match find_between(b, close, open.end, limit) {
        Some(at) => BlockView {
            open_start: open.start,
            block_end: at + close.len(),
            inner_start: open.end,
            inner_end: at,
        },
        None => BlockView {
            open_start: open.start,
            block_end: fallback,
            inner_start: open.end,
            inner_end: fallback,
        },
    }
}

/// The `<tool_call>` blocks. One that is never closed ends where the next one opens.
pub open spec fn tagged_blocks(b: Seq<u8>) -> Seq<BlockView> {
    let opens = spans(Marker::ToolOpen, b);
    let len = b.len() as int;
    Seq::new(
        opens.len(),
        |i: int|
            closed_block(b, opens[i], "</tool_call>"@, len, next_start(opens, i, len)),
    )
}

/// The fenced blocks at or behind `from`. A block ends right behind the fence that closes it,
/// and the next one is sought from there; one that is not closed ends with the text.
pub open spec fn fenced_from(b: Seq<u8>, from: int) -> Seq<BlockView>
    decreases b.len() - from,
{
    let opens = spans_from(Marker::FenceOpen, b, from);
    let len = b.len() as int;
    if opens.len() == 0 {
        Seq::empty()
    } else {
        let block = closed_block(b, opens[0], "```"@, len, len);
        if from < block.block_end <= len {
            seq![block] + fenced_from(b, block.block_end)
        } else {
            Seq::empty()
        }
    }
}

/// The fenced blocks of a text.
pub open spec fn fenced_blocks(b: Seq<u8>) -> Seq<BlockView> {
    fenced_from(b, 0)
}

/// The blocks of a text: those in `<tool_call>` tags, and only where there is none the fenced
/// ones.
pub open spec fn tool_blocks(b: Seq<u8>) -> Seq<BlockView> {
    if spans(Marker::ToolOpen, b).len() > 0 {
        tagged_blocks(b)
    } else {
        fenced_blocks(b)
    }
}

/// The text of a mark's name.
pub open spec fn name_text(b: Seq<u8>, s: SpanView) -> Seq<char> {
    match s.name {
        Some(n) => decode_utf8(b.subrange(n.0, n.1)),
        None => Seq::empty(),
    }
}

/// The `<function=..>` blocks. One that is not closed before the next one opens ends there.
pub open spec fn function_blocks(b: Seq<u8>) -> Seq<FunctionBlockView> {
    let opens = spans(Marker::FunctionOpen, b);
    Seq::new(
        opens.len(),
        |i: int|
            {
                let limit = next_start(opens, i, b.len() as int);
                FunctionBlockView {
                    block: closed_block(b, opens[i], "</function>"@, limit, limit),
                    name: name_text(b, opens[i]),
                }
            },
    )
}

/// A block lies in the text, its inside lies in it, and all its ends are on boundaries.
pub open spec fn block_in(b: Seq<u8>, x: BlockView) -> bool {
    &&& 0 <= x.open_start < x.inner_start <= x.inner_end <= x.block_end <= b.len()
    &&& is_char_boundary(b, x.open_start)
    &&& is_char_boundary(b, x.inner_start)
    &&& is_char_boundary(b, x.inner_end)
    &&& is_char_boundary(b, x.block_end)
}

// ---------------------------------------------------------------------------
// Lemmas
// ---------------------------------------------------------------------------

/// An ASCII text that is found between two places lies between them, on boundaries.
pub proof fn lemma_find_between(b: Seq<u8>, needle: Seq<char>, from: int, to: int)
    requires
        valid_utf8(b),
        is_ascii_chars(needle),
        needle.len() > 0,
        0 <= from <= to <= b.len(),
    ensures
        find_between(b, needle, from, to) matches Some(at) ==> {
            &&& from <= at
            &&& at + needle.len() <= to
            &&& stands_at(b, encode_utf8(needle), at)
            &&& is_char_boundary(b, at)
            &&& is_char_boundary(b, at + needle.len())
        },
{
    let n = encode_utf8(needle);
    let part = b.subrange(from, to);
    lemma_ascii_bytes(needle);
    lemma_find_from(part, n, 0);
    if let Some(rel) = find(part, n) {
        assert(part.subrange(rel, rel + n.len()) =~= b.subrange(from + rel, from + rel + n.len()));
        lemma_ascii_stands(b, needle, from + rel);
    }
}

proof fn lemma_closed_block(
    b: Seq<u8>,
    open: SpanView,
    close: Seq<char>,
    limit: int,
    fallback: int,
)
    requires
        valid_utf8(b),
        is_ascii_chars(close),
        close.len() > 0,
        span_in(b, open),
        open.end <= limit <= b.len(),
        open.end <= fallback <= b.len(),
        is_char_boundary(b, fallback),
    ensures
        block_in(b, closed_block(b, open, close, limit, fallback)),
        open.end <= closed_block(b, open, close, limit, fallback).block_end,
        fallback == limit ==> closed_block(b, open, close, limit, fallback).block_end <= limit,
{
    lemma_find_between(b, close, open.end, limit);
}

/// The place where the next mark begins is a boundary behind the mark.
pub proof fn lemma_next_start(m: Marker, b: Seq<u8>, i: int)
    requires
        valid_utf8(b),
        0 <= i < spans(m, b).len(),
    ensures
        span_in(b, spans(m, b)[i]),
        spans(m, b)[i].end <= next_start(spans(m, b), i, b.len() as int) <= b.len(),
        is_char_boundary(b, next_start(spans(m, b), i, b.len() as int)),
        m == Marker::FunctionOpen || m == Marker::ParameterOpen ==> spans(m, b)[i].name is Some,
{
    lemma_spans_from(m, b, 0);
    is_char_boundary_start_end_of_seq(b);
    let opens = spans_from(m, b, 0);
    assert(opens[i].end <= b.len());
    if i + 1 < opens.len() {
        assert(opens[i].end <= opens[i + 1].start);
    }
}

/// The first of the fenced blocks, and those behind it.
pub proof fn lemma_fenced_step(b: Seq<u8>, from: int)
    requires
        valid_utf8(b),
        0 <= from,
        spans_from(Marker::FenceOpen, b, from).len() > 0,
    ensures
        ({
            let open = spans_from(Marker::FenceOpen, b, from)[0];
            let block = closed_block(b, open, "```"@, b.len() as int, b.len() as int);
            &&& block_in(b, block)
            &&& from <= open.start
            &&& fenced_from(b, from) == seq![block] + fenced_from(b, block.block_end)
        }),
{
    let len = b.len() as int;
    let opens = spans_from(Marker::FenceOpen, b, from);
    lemma_spans_from(Marker::FenceOpen, b, from);
    is_char_boundary_start_end_of_seq(b);
    reveal_strlit("```");
    assert(span_in(b, opens[0]));
    lemma_closed_block(b, opens[0], "```"@, len, len);
}

/// The fenced blocks lie in the text, on boundaries.
pub proof fn lemma_fenced_from(b: Seq<u8>, from: int)
    requires
        valid_utf8(b),
        0 <= from,
    ensures
        forall|i: int|
            0 <= i < fenced_from(b, from).len() ==> block_in(b, #[trigger] fenced_from(b, from)[i]),
    decreases b.len() - from,
{
    let all = fenced_from(b, from);
    if spans_from(Marker::FenceOpen, b, from).len() > 0 {
        lemma_fenced_step(b, from);
        let end = all[0].block_end;
        lemma_fenced_from(b, end);
        let rest = fenced_from(b, end);
        assert forall|i: int| 0 <= i < all.len() implies block_in(b, #[trigger] all[i]) by {
            if i > 0 {
                assert(all[i] == rest[i - 1]);
            }
        }
    }
}

/// Fenced blocks do not overlap: each begins at or behind the end of the one before it.
pub proof fn fenced_blocks_follow_one_another(b: Seq<u8>, from: int)
    requires
        valid_utf8(b),
        0 <= from,
    ensures
        fenced_from(b, from).len() > 0 ==> from <= fenced_from(b, from)[0].open_start,
        forall|i: int|
            0 <= i && i + 1 < fenced_from(b, from).len() ==> (#[trigger] fenced_from(
                b,
                from,
            )[i]).block_end <= fenced_from(b, from)[i + 1].open_start,
    decreases b.len() - from,
{
    let all = fenced_from(b, from);
    if spans_from(Marker::FenceOpen, b, from).len() > 0 {
        lemma_fenced_step(b, from);
        let end = all[0].block_end;
        fenced_blocks_follow_one_another(b, end);
        let rest = fenced_from(b, end);
        assert forall|i: int| 0 <= i && i + 1 < all.len() implies (#[trigger] all[i]).block_end
            <= all[i + 1].open_start by {
            assert(all[i + 1] == rest[i]);
            if i > 0 {
                assert(all[i] == rest[i - 1]);
            }
        }
    }
}

/// The blocks of a text lie in it, on boundaries.
pub proof fn lemma_tool_blocks(b: Seq<u8>)
    requires
        valid_utf8(b),
    ensures
        forall|i: int|
            0 <= i < tool_blocks(b).len() ==> block_in(b, #[trigger] tool_blocks(b)[i]),
{
    let len = b.len() as int;
    is_char_boundary_start_end_of_seq(b);
    reveal_strlit("</tool_call>");
    lemma_fenced_from(b, 0);
    assert forall|i: int| 0 <= i < tool_blocks(b).len() implies block_in(
        b,
        #[trigger] tool_blocks(b)[i],
    ) by {
        if spans(Marker::ToolOpen, b).len() > 0 {
            let opens = spans(Marker::ToolOpen, b);
            lemma_next_start(Marker::ToolOpen, b, i);
            lemma_closed_block(b, opens[i], "</tool_call>"@, len, next_start(opens, i, len));
        }
    }
}

/// The function blocks of a text lie in it, on boundaries, one behind the other.
pub proof fn lemma_function_blocks(b: Seq<u8>)
    requires
        valid_utf8(b),
    ensures
        forall|i: int|
            0 <= i < function_blocks(b).len() ==> block_in(
                b,
                (#[trigger] function_blocks(b)[i]).block,
            ),
        forall|i: int|
            0 <= i && i + 1 < function_blocks(b).len() ==> (#[trigger] function_blocks(
                b,
            )[i]).block.block_end <= function_blocks(b)[i + 1].block.open_start,
{
    reveal_strlit("</function>");
    let opens = spans(Marker::FunctionOpen, b);
    assert forall|i: int| 0 <= i < function_blocks(b).len() implies {
        &&& block_in(b, (#[trigger] function_blocks(b)[i]).block)
        &&& function_blocks(b)[i].block.block_end <= next_start(opens, i, b.len() as int)
    } by {
        lemma_next_start(Marker::FunctionOpen, b, i);
        let limit = next_start(opens, i, b.len() as int);
        lemma_closed_block(b, opens[i], "</function>"@, limit, limit);
    }
}

// ---------------------------------------------------------------------------
// Executable functions
// ---------------------------------------------------------------------------

/// Finds an ASCII tag between two places.
pub fn find_tag(text: &str, tag: &str, from: usize, to: usize) -> (r: Option<usize>)
    requires
        is_ascii_chars(tag@),
        tag@.len() > 0,
        from <= to <= encode_utf8(text@).len(),
    ensures
        match r {
            Some(at) => find_between(encode_utf8(text@), tag@, from as int, to as int) == Some(
                at as int,
            ) && from <= at && at + tag@.len() <= to,
            None => find_between(encode_utf8(text@), tag@, from as int, to as int) is None,
        },
{
    proof {
        encode_utf8_valid_utf8(text@);
        lemma_ascii_bytes(tag@);
        lemma_find_between(encode_utf8(text@), tag@, from as int, to as int);
    }
    let bytes = text.as_bytes();
    let part: &[u8] = &bytes[from..to];
    match find_subslice(part, tag.as_bytes()) {
        Some(rel) => Some(from + rel),
        None => None,
    }
}

/// The block that is opened by `open`.
fn close_block(text: &str, open: Span, close: &str, limit: usize, fallback: usize) -> (r: Block)
    requires
        is_ascii_chars(close@),
        close@.len() > 0,
        open.end <= limit <= encode_utf8(text@).len(),
    ensures
        r@ == closed_block(
            encode_utf8(text@),
            open@,
            close@,
            limit as int,
            fallback as int,
        ),
{
    match find_tag(text, close, open.end, limit) {
        Some(at) => {
            proof {
                lemma_ascii_bytes(close@);
            }
            Block {
                open_start: open.start,
                block_end: at + close.as_bytes().len(),
                inner_start: open.end,
                inner_end: at,
            }
        },
        None => Block {
            open_start: open.start,
            block_end: fallback,
            inner_start: open.end,
            inner_end: fallback,
        },
    }
}

/// The blocks of a text: those in `<tool_call>` tags, and only where there is none the fenced
/// ones. A `<tool_call>` block ends at the first closing tag behind it, else where the next
/// one opens, else with the text. A fenced block ends right behind the fence that closes it,
/// else with the text, and the next one opens behind it.
pub fn find_tool_blocks(text: &str) -> (r: Vec<Block>)
    ensures
        r@.map_values(|x: Block| x@) == tool_blocks(encode_utf8(text@)),
{
    let ghost b = encode_utf8(text@);
    proof {
        encode_utf8_valid_utf8(text@);
        reveal_strlit("</tool_call>");
        reveal_strlit("```");
    }
    let len: usize = text.as_bytes().len();
    let mut blocks: Vec<Block> = Vec::new();
    let opens = find_marks(Marker::ToolOpen, text);
    let ghost marks = spans(Marker::ToolOpen, b);
    let n: usize = opens.len();
    proof {
        assert(n == marks.len());
    }
    let mut i: usize = 0;
    while i < n
        invariant
            valid_utf8(b),
            b == encode_utf8(text@),
            len == b.len(),
            n == opens@.len(),
            n == marks.len(),
            marks == spans(Marker::ToolOpen, b),
            opens@.map_values(|s: Span| s@) == marks,
            i <= n,
            is_ascii_chars("</tool_call>"@),
            "</tool_call>"@.len() == 12,
            blocks@.len() == i,
            forall|k: int| 0 <= k < i ==> (#[trigger] blocks@[k])@ == tagged_blocks(b)[k],
        decreases n - i,
    {
        proof {
            lemma_next_start(Marker::ToolOpen, b, i as int);
            assert(marks[i as int] == opens@[i as int]@);
        }
        let fallback: usize = if i + 1 < n {
            proof {
                assert(marks[i as int + 1] == opens@[i as int + 1]@);
            }
            opens[i + 1].start
        } else {
            len
        };
        blocks.push(close_block(text, opens[i], "</tool_call>", len, fallback));
        i += 1;
    }
    if n > 0 {
        proof {
            assert(blocks@.map_values(|x: Block| x@) =~= tool_blocks(b));
        }
        return blocks;
    }
    let fences = find_marks(Marker::FenceOpen, text);
    let ghost marks = spans(Marker::FenceOpen, b);
    let n: usize = fences.len();
    let ghost mut from = 0int;
    proof {
        assert(n == marks.len());
        assert(marks.skip(0) =~= marks);
        assert(blocks@.map_values(|x: Block| x@) + fenced_from(b, 0) =~= fenced_blocks(b));
    }
    let mut i: usize = 0;
    while i < n
        invariant
            valid_utf8(b),
            b == encode_utf8(text@),
            len == b.len(),
            n == fences@.len(),
            n == marks.len(),
            marks == spans(Marker::FenceOpen, b),
            fences@.map_values(|s: Span| s@) == marks,
            is_ascii_chars("```"@),
            "```"@.len() == 3,
            0 <= from,
            i <= n,
            spans_from(Marker::FenceOpen, b, from) == marks.skip(i as int),
            blocks@.map_values(|x: Block| x@) + fenced_from(b, from) == fenced_blocks(b),
        decreases n - i,
    {
        let ghost done = blocks@.map_values(|x: Block| x@);
        proof {
            assert(marks.skip(i as int)[0] == marks[i as int]);
            assert(marks[i as int] == fences@[i as int]@);
            lemma_next_start(Marker::FenceOpen, b, i as int);
            lemma_fenced_step(b, from);
            lemma_fences_pair(b, from);
        }
        let block = close_block(text, fences[i], "```", len, len);
        blocks.push(block);
        proof {
            let rest = fenced_from(b, block@.block_end);
            let now = blocks@.map_values(|x: Block| x@);
            assert(now =~= done.push(block@));
            assert(now + rest =~= done + (seq![block@] + rest));
            if find_between(b, "```"@, marks[i as int].end, len as int) is Some {
                assert(marks.skip(i as int).skip(2) =~= marks.skip(i as int + 2));
            } else {
                assert(spans_from(Marker::FenceOpen, b, len as int) =~= Seq::<SpanView>::empty());
            }
            from = block@.block_end;
        }
        i = if n - i < 2 {
            n
        } else {
            i + 2
        };
    }
    proof {
        assert(fenced_from(b, from) =~= Seq::<BlockView>::empty());
        assert(blocks@.map_values(|x: Block| x@) =~= tool_blocks(b));
    }
    blocks
}

/// The text of the name in a mark.
pub fn mark_name(text: &str, s: &Span) -> (r: String)
    requires
        span_in(encode_utf8(text@), s@),
    ensures
        r@ == name_text(encode_utf8(text@), s@),
{
    match s.name {
        Some(n) => slice_text(text, n.0, n.1).to_string(),
        None => {
            let r = String::new();
            proof {
                assert(r@ =~= Seq::empty());
            }
            r
        },
    }
}

/// The `<function=..>` blocks of a text. A block ends at its closing tag, else where the next
/// one opens, else with the text.
pub fn find_function_blocks(text: &str) -> (r: Vec<FunctionBlock>)
    ensures
        r@.map_values(|x: FunctionBlock| x@) == function_blocks(encode_utf8(text@)),
{
    let ghost b = encode_utf8(text@);
    proof {
        encode_utf8_valid_utf8(text@);
        reveal_strlit("</function>");
    }
    let len: usize = text.as_bytes().len();
    let mut blocks: Vec<FunctionBlock> = Vec::new();
    let opens = find_marks(Marker::FunctionOpen, text);
    let ghost marks = spans(Marker::FunctionOpen, b);
    let n: usize = opens.len();
    proof {
        assert(n == marks.len());
    }
    let mut i: usize = 0;
    while i < n
        invariant
            valid_utf8(b),
            b == encode_utf8(text@),
            len == b.len(),
            n == opens@.len(),
            n == marks.len(),
            marks == spans(Marker::FunctionOpen, b),
            opens@.map_values(|s: Span| s@) == marks,
            i <= n,
            is_ascii_chars("</function>"@),
            "</function>"@.len() == 11,
            blocks@.len() == i,
            forall|k: int| 0 <= k < i ==> (#[trigger] blocks@[k])@ == function_blocks(b)[k],
        decreases n - i,
    {
        proof {
            lemma_next_start(Marker::FunctionOpen, b, i as int);
            assert(marks[i as int] == opens@[i as int]@);
        }
        let limit: usize = if i + 1 < n {
            proof {
                assert(marks[i as int + 1] == opens@[i as int + 1]@);
            }
            opens[i + 1].start
        } else {
            len
        };
        let block = close_block(text, opens[i], "</function>", limit, limit);
        let name = mark_name(text, &opens[i]);
        blocks.push(FunctionBlock { block, name });
        i += 1;
    }
    proof {
        assert(blocks@.map_values(|x: FunctionBlock| x@) =~= function_blocks(b));
    }
    blocks
}

} // verus!
