//! A call that is written as a function block is read back, and so are the blocks behind it.

use crate::text::{is_white, lemma_boundary_after_ascii, lemma_find_from, occurs, stands_at};
use crate::toolcall::blocks::{
    block_in, find_between, function_blocks, lemma_function_blocks, lemma_next_start, next_start,
    tool_blocks,
};
use crate::toolcall::fence_laws::lemma_blocks_only;
use crate::toolcall::markers::{
    char_at, char_len, char_stands, is_name_byte, lemma_ascii_bytes, lemma_function_there,
    lemma_lone_mark, lemma_match_at, lemma_next_boundary, lemma_spans_from, lemma_stands_bytes,
    lemma_stands_in_part, match_at, skip_name, skip_one, skip_white, spans, spans_from, tag_at,
    Marker, SpanView,
};
use crate::toolcall::parse::{
    all_objects, block_calls, found_calls, function_call, function_calls, naked_calls, seeks_naked,
    CallView,
};
use crate::toolcall::round_trip::lemma_cut_kept;
use crate::toolcall::shift::{
    later_block, later_span, later_spans, lemma_later_closed, lemma_later_match,
    lemma_later_spans, lemma_rest_call,
};
use crate::toolcall::strip::{block_ranges, lemma_encode_concat, stripped};
use vstd::prelude::*;
use vstd::utf8::*;

verus! {

/// A character of the name of a function.
pub open spec fn is_name_char(c: char) -> bool {
    '\0' <= c <= '\x7f' && is_name_byte(c as u8)
}

/// The name of a function.
pub open spec fn is_function_name(name: Seq<char>) -> bool {
    name.len() > 0 && forall|i: int| 0 <= i < name.len() ==> is_name_char(#[trigger] name[i])
}

/// The tag that opens a function block, in any of its forms: the name in quotes or not, and
/// white space around the equals sign and before the end, or none.
pub open spec fn is_function_tag(t: Seq<u8>) -> bool {
    tag_at(t, "<function"@, 0) matches Some((end, Some(_))) && end == t.len()
}

/// The name in the tag that opens a function block.
pub open spec fn tag_name(t: Seq<u8>) -> Seq<char> {
    match tag_at(t, "<function"@, 0) {
        Some((_, Some(n))) => decode_utf8(t.subrange(n.0, n.1)),
        _ => Seq::empty(),
    }
}

/// A function block, with its closing tag or without, and text before it and behind it.
pub open spec fn function_text(
    pre: Seq<char>,
    tag: Seq<char>,
    body: Seq<char>,
    closed: bool,
    rest: Seq<char>,
) -> Seq<char> {
    pre + tag + body + (if closed {
        "</function>"@
    } else {
        Seq::empty()
    }) + rest
}

/// A text that is empty or begins with a function block.
pub open spec fn begins_with_function(b: Seq<u8>) -> bool {
    b.len() == 0 || match_at(Marker::FunctionOpen, b, 0) is Some
}

/// An ASCII byte is the character that it is.
pub proof fn lemma_ascii_char(b: Seq<u8>, i: int)
    requires
        0 <= i < b.len(),
        b[i] < 0x80,
    ensures
        char_at(b, i) == b[i] as char,
{
    let s = b.skip(i);
    let c = b[i];
    assert(s[0] == c);
    assert(c & 0x7f == c) by (bit_vector)
        requires
            c < 0x80,
    ;
}

/// The bytes of the tags of a function block: an angle bracket opens each and opens nowhere else
/// in it.
proof fn lemma_function_bytes()
    ensures
        ({
            let f = encode_utf8("<function"@);
            let c = encode_utf8("</function>"@);
            &&& f.len() == 9 && c.len() == 11
            &&& f[0] == 0x3c && c[0] == 0x3c
            &&& f[1] == 0x66 && c[1] == 0x2f
            &&& f[8] < 0x80
            &&& forall|k: int| 0 < k < 9 ==> #[trigger] f[k] != 0x3c
            &&& forall|k: int| 0 < k < 11 ==> #[trigger] c[k] != 0x3c
        }),
{
    reveal_strlit("<function");
    reveal_strlit("</function>");
    lemma_ascii_bytes("<function"@);
    lemma_ascii_bytes("</function>"@);
}

pub proof fn lemma_name_run(b: Seq<u8>, i: int, j: int)
    requires
        0 <= i <= j < b.len(),
        forall|k: int| i <= k < j ==> is_name_byte(#[trigger] b[k]),
        !is_name_byte(b[j]),
    ensures
        skip_name(b, i) == j,
    decreases j - i,
{
    if i < j {
        lemma_name_run(b, i + 1, j);
    }
}

// ---------------------------------------------------------------------------
// Tags
// ---------------------------------------------------------------------------

/// The bytes of a character behind its first one are not ASCII.
proof fn lemma_char_bytes(t: Seq<u8>, i: int)
    requires
        valid_utf8(t),
        0 <= i < t.len(),
        is_char_boundary(t, i),
    ensures
        forall|k: int| i < k < i + char_len(t, i) ==> #[trigger] t[k] >= 0x80,
{
    let tail = t.subrange(i, t.len() as int);
    assert(tail =~= t.skip(i));
    valid_utf8_split(t, i);
    let n = length_of_first_scalar(tail);
    assert forall|k: int| i < k < i + n implies #[trigger] t[k] >= 0x80 by {
        assert(tail[k - i] == t[k]);
        assert(is_continuation_byte(tail[k - i]));
    }
}

/// White space has no angle bracket in it, and ends on a boundary.
proof fn lemma_white_clean(t: Seq<u8>, i: int)
    requires
        valid_utf8(t),
        0 <= i <= t.len(),
        is_char_boundary(t, i),
    ensures
        i <= skip_white(t, i) <= t.len(),
        is_char_boundary(t, skip_white(t, i)),
        forall|k: int| i <= k < skip_white(t, i) ==> #[trigger] t[k] != 0x3c,
    decreases t.len() - i,
{
    if char_stands(t, i) && is_white(char_at(t, i)) {
        let j = i + char_len(t, i);
        lemma_next_boundary(t, i);
        lemma_char_bytes(t, i);
        lemma_white_clean(t, j);
        if t[i] == 0x3c {
            lemma_ascii_char(t, i);
        }
    }
}

/// White space that ends before the end of a text ends there whatever follows.
proof fn lemma_white_extends(t: Seq<u8>, u: Seq<u8>, i: int)
    requires
        0 <= i,
        skip_white(t, i) < t.len(),
        t[skip_white(t, i)] < 0x80,
    ensures
        skip_white(t + u, i) == skip_white(t, i),
    decreases t.len() - i,
{
    let b = t + u;
    if char_stands(t, i) && is_white(char_at(t, i)) {
        let n = char_len(t, i);
        let here = t.skip(i);
        let there = b.skip(i);
        assert forall|k: int| 0 <= k < n implies there[k] == here[k] by {}
        assert(there[0] == here[0]);
        assert(char_len(b, i) == n);
        assert(char_at(b, i) == char_at(t, i));
        lemma_white_extends(t, u, i + n);
    } else {
        assert(b[i] == t[i]);
        lemma_ascii_char(t, i);
        lemma_ascii_char(b, i);
        assert(char_len(t, i) == 1) by {
            assert(t.skip(i)[0] == t[i]);
        }
    }
}

/// What a tag holds: no other angle bracket opens in it, and it is the same tag whatever
/// follows.
proof fn lemma_tag_clean(t: Seq<u8>)
    requires
        valid_utf8(t),
        is_function_tag(t),
    ensures
        t.len() > 9,
        stands_at(t, encode_utf8("<function"@), 0),
        forall|k: int| 0 < k < t.len() ==> #[trigger] t[k] != 0x3c,
{
    reveal(tag_at);
    lemma_function_bytes();
    let f = encode_utf8("<function"@);
    lemma_stands_bytes(t, f, 0);
    assert(t[8] == f[8]) by {
        assert(t[0int + 8] == f[8]);
    }
    lemma_boundary_after_ascii(t, 8);
    lemma_white_clean(t, 9);
    let equals = skip_white(t, 9);
    lemma_boundary_after_ascii(t, equals);
    lemma_white_clean(t, equals + 1);
    let after = skip_white(t, equals + 1);
    let name = skip_one(t, after, 0x22);
    lemma_name_end(t, name);
    let name_end = skip_name(t, name);
    let quote = skip_one(t, name_end, 0x22);
    lemma_boundary_after_ascii(t, name_end - 1);
    if quote > name_end {
        lemma_boundary_after_ascii(t, name_end);
    }
    lemma_white_clean(t, quote);
    let close = skip_white(t, quote);
    assert(t.len() == close + 1);
    assert forall|k: int| 0 < k < t.len() implies #[trigger] t[k] != 0x3c by {
        if k < 9 {
            assert(t[0 + k] == f[k]);
        }
    }
}

/// A name ends where its last byte does.
proof fn lemma_name_end(t: Seq<u8>, i: int)
    requires
        0 <= i,
    ensures
        i <= skip_name(t, i),
        i < skip_name(t, i) ==> skip_name(t, i) <= t.len(),
        skip_name(t, i) < t.len() ==> !is_name_byte(t[skip_name(t, i)]),
        forall|k: int| i <= k < skip_name(t, i) ==> is_name_byte(#[trigger] t[k]),
    decreases t.len() - i,
{
    if i < t.len() && is_name_byte(t[i]) {
        lemma_name_end(t, i + 1);
    }
}

/// A tag is the same tag whatever follows.
proof fn lemma_tag_extends(t: Seq<u8>, u: Seq<u8>)
    requires
        is_function_tag(t),
    ensures
        tag_at(t + u, "<function"@, 0) == tag_at(t, "<function"@, 0),
{
    reveal(tag_at);
    lemma_function_bytes();
    let b = t + u;
    let f = encode_utf8("<function"@);
    assert(b.subrange(0, 9) =~= t.subrange(0, 9));
    let equals = skip_white(t, 9);
    lemma_white_extends(t, u, 9);
    assert(b[equals] == t[equals]);
    let after = skip_white(t, equals + 1);
    let name = skip_one(t, after, 0x22);
    lemma_name_end(t, name);
    let name_end = skip_name(t, name);
    assert(after < t.len());
    assert(t[after] < 0x80);
    lemma_white_extends(t, u, equals + 1);
    assert(b[after] == t[after]);
    let quote = skip_one(t, name_end, 0x22);
    let close = skip_white(t, quote);
    lemma_white_grows(t, quote);
    assert(name_end < t.len());
    assert(b[name_end] == t[name_end]);
    assert forall|k: int| name <= k < name_end implies is_name_byte(#[trigger] b[k]) by {
        assert(b[k] == t[k]);
    }
    lemma_name_run(b, name, name_end);
    lemma_white_extends(t, u, quote);
    assert(b[close] == t[close]);
}

proof fn lemma_white_grows(t: Seq<u8>, i: int)
    requires
        0 <= i,
    ensures
        i <= skip_white(t, i),
    decreases t.len() - i,
{
    if char_stands(t, i) && is_white(char_at(t, i)) {
        lemma_white_grows(t, i + char_len(t, i));
    }
}

/// What stands before the name in the usual tag, with a quote or without.
pub open spec fn tag_head(quoted: bool) -> Seq<char> {
    if quoted {
        "<function=\""@
    } else {
        "<function="@
    }
}

/// What stands behind the name in the usual tag, with a quote or without.
pub open spec fn tag_tail(quoted: bool) -> Seq<char> {
    if quoted {
        "\">"@
    } else {
        ">"@
    }
}

/// The tag of a name, in quotes or not, is a tag with that name.
pub proof fn usual_tags(name: Seq<char>, quoted: bool)
    requires
        is_function_name(name),
    ensures
        ({
            let t = encode_utf8(tag_head(quoted) + name + tag_tail(quoted));
            is_function_tag(t) && tag_name(t) == name
        }),
{
    lemma_function_name(name);
    let w = encode_utf8(name);
    let head = tag_head(quoted);
    let tail = tag_tail(quoted);
    lemma_encode_concat(head, name);
    lemma_encode_concat(head + name, tail);
    let t = encode_utf8(head + name + tail);
    let a = encode_utf8(head);
    let z = encode_utf8(tail);
    assert(t =~= a + w + z);
    let q = if quoted {
        1int
    } else {
        0
    };
    lemma_head_bytes(quoted);
    let n = w.len() as int;
    let from = 10 + q;
    assert(t.subrange(from, from + n) =~= w);
    reveal(tag_at);
    lemma_function_bytes();
    let f = encode_utf8("<function"@);
    assert(t.subrange(0, 9) =~= f) by {
        assert forall|k: int| 0 <= k < 9 implies t.subrange(0, 9)[k] == f[k] by {
            assert(a[k] == f[k]);
        }
    }
    assert(t[9] == a[9]);
    lemma_ascii_char(t, 9);
    assert(skip_white(t, 9) == 9);
    assert(t[from] == w[0]);
    if quoted {
        assert(t[10] == a[10]);
    }
    lemma_ascii_char(t, 10);
    assert(skip_white(t, 10) == 10);
    assert(skip_one(t, 10, 0x22) == from);
    assert forall|k: int| from <= k < from + n implies is_name_byte(#[trigger] t[k]) by {
        assert(t[k] == w[k - from]);
    }
    assert(t[from + n] == z[0]);
    lemma_name_run(t, from, from + n);
    let close = from + n + q;
    assert(t[close] == z[q]);
    assert(skip_one(t, from + n, 0x22) == close);
    lemma_ascii_char(t, close);
    assert(skip_white(t, close) == close);
}

proof fn lemma_head_bytes(quoted: bool)
    ensures
        ({
            let f = encode_utf8("<function"@);
            let a = encode_utf8(tag_head(quoted));
            let z = encode_utf8(tag_tail(quoted));
            let q = if quoted {
                1int
            } else {
                0
            };
            &&& a.len() == 10 + q && z.len() == 1 + q
            &&& forall|k: int| 0 <= k < 9 ==> #[trigger] a[k] == f[k]
            &&& a[9] == 0x3d && z[q] == 0x3e
            &&& quoted ==> a[10] == 0x22 && z[0] == 0x22
        }),
{
    reveal_strlit("<function");
    reveal_strlit("<function=");
    reveal_strlit("<function=\"");
    reveal_strlit(">");
    reveal_strlit("\">");
    lemma_ascii_bytes("<function"@);
    lemma_ascii_bytes("<function="@);
    lemma_ascii_bytes("<function=\""@);
    lemma_ascii_bytes(">"@);
    lemma_ascii_bytes("\">"@);
}

// ---------------------------------------------------------------------------
// Blocks
// ---------------------------------------------------------------------------

/// The bytes from the tag up to the end of the block.
spec fn middle(t: Seq<u8>, e: Seq<u8>, c: Seq<u8>) -> Seq<u8> {
    t + e + c
}

/// What is asked of the parts of the whole: the block is closed, or ends where the next one
/// begins or with the text.
spec fn parts_fit(x: Seq<u8>, t: Seq<u8>, e: Seq<u8>, c: Seq<u8>, r: Seq<u8>) -> bool {
    &&& valid_utf8(x + middle(t, e, c) + r)
    &&& valid_utf8(t)
    &&& valid_utf8(r)
    &&& is_function_tag(t)
    &&& !occurs(x, encode_utf8("<function"@))
    &&& !occurs(e, encode_utf8("<function"@))
    &&& !occurs(e, encode_utf8("</function>"@))
    &&& c == encode_utf8("</function>"@) || c.len() == 0 && begins_with_function(r)
}

/// A text that begins with a function block begins with an angle bracket.
proof fn lemma_first_byte(r: Seq<u8>)
    requires
        begins_with_function(r),
    ensures
        r.len() > 0 ==> r[0] == 0x3c,
{
    if r.len() > 0 {
        lemma_function_bytes();
        let f = encode_utf8("<function"@);
        lemma_function_there(r, 0);
        lemma_stands_bytes(r, f, 0);
        assert(r[0] == f[0]);
    }
}

/// What follows the text inside the block begins with an angle bracket.
proof fn lemma_tail_byte(c: Seq<u8>, r: Seq<u8>)
    requires
        c == encode_utf8("</function>"@) || c.len() == 0 && begins_with_function(r),
    ensures
        (c + r).len() > 0 ==> (c + r)[0] == 0x3c,
{
    lemma_function_bytes();
    if c.len() == 0 {
        lemma_first_byte(r);
        assert(c + r =~= r);
    }
}

/// A tag that begins before the end of the block is the block's own.
proof fn lemma_only_function(
    x: Seq<u8>,
    t: Seq<u8>,
    e: Seq<u8>,
    c: Seq<u8>,
    r: Seq<u8>,
    p: int,
)
    requires
        parts_fit(x, t, e, c, r),
        stands_at(x + middle(t, e, c) + r, encode_utf8("<function"@), p),
        0 <= p < (x + middle(t, e, c)).len(),
    ensures
        p == x.len(),
{
    lemma_function_bytes();
    lemma_tag_clean(t);
    lemma_tail_byte(c, r);
    let f = encode_utf8("<function"@);
    let b = x + middle(t, e, c) + r;
    let a = x.len() as int;
    let i = a + t.len();
    let z = i + e.len();
    lemma_stands_bytes(b, f, p);
    assert(b[p] == f[0]) by {
        assert(b[p + 0] == f[0]);
    }
    assert(b[p + 1] == f[1]);
    lemma_stands_bytes(t, f, 0);
    assert(t[0] == f[0]) by {
        assert(t[0 + 0int] == f[0]);
    }
    assert(b.subrange(0, a) =~= x);
    assert(b.subrange(i, z) =~= e);
    assert forall|k: int| 0 <= k < t.len() implies b[a + k] == #[trigger] t[k] by {}
    assert forall|k: int| 0 <= k < c.len() implies b[z + k] == #[trigger] c[k] by {}
    if p + 9 <= a {
        lemma_stands_in_part(b, f, p, 0, a);
    } else if p < a {
        assert(b[p + (a - p)] == f[a - p]);
        assert(b[a + 0] == t[0]);
    } else if p == a {
    } else if p < i {
        assert(b[a + (p - a)] == t[p - a]);
    } else if p + 9 <= z {
        lemma_stands_in_part(b, f, p, i, z);
    } else if p < z {
        assert(b[p + (z - p)] == f[z - p]);
        assert(b[z] == (c + r)[0]);
    } else if p == z {
        assert(b[z + 1] == c[1]);
    } else {
        assert(b[z + (p - z)] == c[p - z]);
    }
}

/// The mark of the block.
spec fn own_span(x: Seq<u8>, t: Seq<u8>) -> SpanView {
    let a = x.len() as int;
    let n = (tag_at(t, "<function"@, 0)->0).1->0;
    SpanView { start: a, end: a + t.len(), name: Some((n.0 + a, n.1 + a)) }
}

/// The tag of the block is its mark.
proof fn lemma_own_mark(x: Seq<u8>, t: Seq<u8>, u: Seq<u8>)
    requires
        is_function_tag(t),
    ensures
        match_at(Marker::FunctionOpen, x + (t + u), x.len() as int) == Some(
            (own_span(x, t).end, own_span(x, t).name),
        ),
{
    lemma_tag_extends(t, u);
    lemma_later_match(Marker::FunctionOpen, x, t + u, 0);
}

/// The marks of the whole: the block's own and those of the rest.
proof fn lemma_whole_marks(x: Seq<u8>, t: Seq<u8>, e: Seq<u8>, c: Seq<u8>, r: Seq<u8>)
    requires
        parts_fit(x, t, e, c, r),
    ensures
        ({
            let p0 = x + middle(t, e, c);
            let n = p0.len() as int;
            &&& n == x.len() as int + t.len() + e.len() + c.len()
            &&& spans(Marker::FunctionOpen, p0 + r) == seq![own_span(x, t)] + later_spans(
                spans(Marker::FunctionOpen, r),
                n,
            )
        }),
{
    let p0 = x + middle(t, e, c);
    let b = p0 + r;
    let n = p0.len() as int;
    let a = x.len() as int;
    let mark = own_span(x, t);
    assert(b =~= x + (t + (e + c + r)));
    lemma_own_mark(x, t, e + c + r);
    lemma_tag_clean(t);
    assert forall|p: int| 0 <= p < a || mark.end <= p < n implies #[trigger] match_at(
        Marker::FunctionOpen,
        b,
        p,
    ) is None by {
        if match_at(Marker::FunctionOpen, b, p) is Some {
            lemma_function_there(b, p);
            lemma_only_function(x, t, e, c, r, p);
        }
    }
    lemma_lone_mark(Marker::FunctionOpen, b, mark, n);
    lemma_later_spans(Marker::FunctionOpen, p0, r, 0);
}

/// Where the block is closed.
proof fn lemma_own_close(b: Seq<u8>, e: Seq<u8>, c: Seq<u8>, i: int, limit: int)
    requires
        0 <= i,
        i + e.len() + c.len() <= limit <= b.len(),
        b.subrange(i, i + e.len() + c.len()) == e + c,
        !occurs(e, encode_utf8("</function>"@)),
        c == encode_utf8("</function>"@) || c.len() == 0 && limit == i + e.len(),
    ensures
        find_between(b, "</function>"@, i, limit) == (if c.len() == 0 {
            None
        } else {
            Some(i + e.len())
        }),
{
    lemma_function_bytes();
    let close = encode_utf8("</function>"@);
    let part = b.subrange(i, limit);
    let n = e.len() as int;
    assert forall|k: int| 0 <= k < n + c.len() implies part[k] == #[trigger] (e + c)[k] by {
        assert(b.subrange(i, i + e.len() + c.len())[k] == b[i + k]);
    }
    assert(part.subrange(0, n) =~= e) by {
        assert forall|k: int| 0 <= k < n implies part.subrange(0, n)[k] == e[k] by {
            assert(part[k] == (e + c)[k]);
        }
    }
    lemma_find_from(part, close, 0);
    assert forall|q: int| 0 <= q < n implies !stands_at(part, close, q) by {
        if stands_at(part, close, q) {
            if q + 11 <= n {
                lemma_stands_in_part(part, close, q, 0, n);
            } else {
                lemma_stands_bytes(part, close, q);
                assert(part[q + (n - q)] == close[n - q]);
                assert(part[n] == (e + c)[n]);
            }
        }
    }
    if c.len() > 0 {
        assert(part.subrange(n, n + 11) =~= close) by {
            assert forall|k: int| 0 <= k < 11 implies part.subrange(n, n + 11)[k] == close[k] by {
                assert(part[n + k] == (e + c)[n + k]);
            }
        }
        assert(stands_at(part, close, n));
    }
}

/// The first mark of a text that begins with a function block stands at its beginning.
proof fn lemma_own_start(r: Seq<u8>)
    requires
        valid_utf8(r),
        r.len() > 0,
        match_at(Marker::FunctionOpen, r, 0) is Some,
    ensures
        spans(Marker::FunctionOpen, r).len() > 0,
        spans(Marker::FunctionOpen, r)[0].start == 0,
{
    crate::toolcall::markers::lemma_match_at(Marker::FunctionOpen, r, 0);
}

/// Where the marks behind the block begin.
proof fn lemma_own_limit(x: Seq<u8>, t: Seq<u8>, e: Seq<u8>, c: Seq<u8>, r: Seq<u8>)
    requires
        parts_fit(x, t, e, c, r),
    ensures
        ({
            let p0 = x + middle(t, e, c);
            let b = p0 + r;
            let limit = next_start(spans(Marker::FunctionOpen, b), 0, b.len() as int);
            &&& p0.len() <= limit <= b.len()
            &&& c.len() == 0 ==> limit == p0.len()
        }),
{
    lemma_function_bytes();
    lemma_whole_marks(x, t, e, c, r);
    let p0 = x + middle(t, e, c);
    let b = p0 + r;
    let n = p0.len() as int;
    let opens = spans(Marker::FunctionOpen, b);
    let rest = spans(Marker::FunctionOpen, r);
    if rest.len() > 0 {
        lemma_spans_from(Marker::FunctionOpen, r, 0);
        assert(spans_from(Marker::FunctionOpen, r, 0)[0] == rest[0]);
        assert(opens[1] == later_span(rest[0], n));
    }
    if c.len() == 0 {
        if r.len() > 0 {
            lemma_own_start(r);
        } else {
            assert(rest =~= Seq::<SpanView>::empty());
        }
    }
}

/// The block itself.
proof fn lemma_own_function(x: Seq<u8>, t: Seq<u8>, e: Seq<u8>, c: Seq<u8>, r: Seq<u8>)
    requires
        parts_fit(x, t, e, c, r),
    ensures
        ({
            let p0 = x + middle(t, e, c);
            let a = x.len() as int;
            let own = function_blocks(p0 + r)[0];
            &&& own.block.open_start == a && own.block.block_end == p0.len()
            &&& own.block.inner_start == a + t.len()
            &&& own.block.inner_end == a + t.len() + e.len()
            &&& own.name == tag_name(t)
        }),
{
    lemma_function_bytes();
    lemma_whole_marks(x, t, e, c, r);
    lemma_own_limit(x, t, e, c, r);
    let p0 = x + middle(t, e, c);
    let b = p0 + r;
    let a = x.len() as int;
    let i = a + t.len();
    let opens = spans(Marker::FunctionOpen, b);
    assert(opens[0] == own_span(x, t));
    let limit = next_start(opens, 0, b.len() as int);
    assert(b.subrange(i, i + e.len() + c.len()) =~= e + c);
    lemma_own_close(b, e, c, i, limit);
    reveal_strlit("</function>");
    lemma_match_at(Marker::FunctionOpen, t, 0);
    let n = (tag_at(t, "<function"@, 0)->0).1->0;
    assert(b.subrange(n.0 + a, n.1 + a) =~= t.subrange(n.0, n.1));
}

/// The function blocks of the whole: the block's own and those of the rest.
proof fn lemma_whole_functions(x: Seq<u8>, t: Seq<u8>, e: Seq<u8>, c: Seq<u8>, r: Seq<u8>)
    requires
        parts_fit(x, t, e, c, r),
    ensures
        ({
            let p0 = x + middle(t, e, c);
            let b = p0 + r;
            let n = p0.len() as int;
            &&& function_blocks(b).len() == 1 + function_blocks(r).len()
            &&& forall|i: int|
                #![trigger function_blocks(r)[i]]
                0 <= i < function_blocks(r).len() ==> function_blocks(b)[i + 1].block
                    == later_block(function_blocks(r)[i].block, n) && function_blocks(b)[i
                    + 1].name == function_blocks(r)[i].name
        }),
{
    lemma_whole_marks(x, t, e, c, r);
    let p0 = x + middle(t, e, c);
    let b = p0 + r;
    let n = p0.len() as int;
    let opens = spans(Marker::FunctionOpen, b);
    let rest = spans(Marker::FunctionOpen, r);
    let len = r.len() as int;
    assert forall|k: int| #![trigger function_blocks(r)[k]] 0 <= k < rest.len() implies {
        &&& function_blocks(b)[k + 1].block == later_block(function_blocks(r)[k].block, n)
        &&& function_blocks(b)[k + 1].name == function_blocks(r)[k].name
    } by {
        lemma_next_start(Marker::FunctionOpen, r, k);
        assert(opens[k + 1] == later_span(rest[k], n));
        if k + 1 < rest.len() {
            assert(opens[k + 2] == later_span(rest[k + 1], n));
        }
        let limit = next_start(rest, k, len);
        assert(next_start(opens, k + 1, n + len) == n + limit);
        lemma_later_closed(p0, r, rest[k], "</function>"@, limit, limit);
        let s = rest[k].name->0;
        assert(b.subrange(s.0 + n, s.1 + n) =~= r.subrange(s.0, s.1));
    }
}

/// The call of the block itself.
proof fn lemma_own_call(
    x: Seq<u8>,
    t: Seq<u8>,
    e: Seq<u8>,
    c: Seq<u8>,
    r: Seq<u8>,
    registry: Map<Seq<char>, Seq<char>>,
)
    requires
        parts_fit(x, t, e, c, r),
    ensures
        ({
            let b = x + middle(t, e, c) + r;
            let own = function_blocks(b)[0];
            function_call(
                own.name,
                b.subrange(own.block.inner_start, own.block.inner_end),
                registry,
            ) == function_call(tag_name(t), e, registry)
        }),
{
    let b = x + middle(t, e, c) + r;
    let i = x.len() as int + t.len();
    lemma_own_function(x, t, e, c, r);
    assert(b.subrange(i, i + e.len()) =~= e);
}

/// The calls of the whole: the block's own and those of the rest.
proof fn lemma_function_calls(
    x: Seq<u8>,
    t: Seq<u8>,
    e: Seq<u8>,
    c: Seq<u8>,
    r: Seq<u8>,
    registry: Map<Seq<char>, Seq<char>>,
)
    requires
        parts_fit(x, t, e, c, r),
    ensures
        ({
            let b = x + middle(t, e, c) + r;
            function_calls(b, function_blocks(b), registry) == seq![
                function_call(tag_name(t), e, registry),
            ] + function_calls(r, function_blocks(r), registry)
        }),
{
    let p0 = x + middle(t, e, c);
    let b = p0 + r;
    let fb = function_blocks(b);
    let fr = function_blocks(r);
    let all = function_calls(b, fb, registry);
    let rest = function_calls(r, fr, registry);
    let first = function_call(tag_name(t), e, registry);
    lemma_own_call(x, t, e, c, r, registry);
    lemma_whole_functions(x, t, e, c, r);
    lemma_function_blocks(r);
    assert forall|i: int| 0 <= i < all.len() implies all[i] == (seq![first] + rest)[i] by {
        if i > 0 {
            let k = i - 1;
            assert(block_in(r, fr[k].block));
            lemma_rest_call(p0, r, fb[k + 1], fr[k], registry);
        }
    }
    assert(all =~= seq![first] + rest);
}

/// The empty text has no calls.
proof fn lemma_empty_text(b: Seq<u8>, registry: Map<Seq<char>, Seq<char>>)
    requires
        b.len() == 0,
    ensures
        function_blocks(b).len() == 0,
        tool_blocks(b).len() == 0,
        found_calls(b, registry).len() == 0,
{
    assert(spans(Marker::FunctionOpen, b) =~= Seq::<SpanView>::empty());
    assert(spans(Marker::ToolOpen, b) =~= Seq::<SpanView>::empty());
    assert(spans(Marker::FenceOpen, b) =~= Seq::<SpanView>::empty());
    assert(all_objects(b, 0) =~= Seq::<(int, int)>::empty());
    assert(naked_calls(b, all_objects(b, 0), registry) =~= Seq::<CallView>::empty());
}

proof fn lemma_function_whole(
    x: Seq<u8>,
    t: Seq<u8>,
    e: Seq<u8>,
    c: Seq<u8>,
    r: Seq<u8>,
    registry: Map<Seq<char>, Seq<char>>,
)
    requires
        parts_fit(x, t, e, c, r),
        tool_blocks(x + middle(t, e, c) + r).len() == 0,
        tool_blocks(r).len() == 0,
        seeks_naked(r, registry) ==> found_calls(r, registry).len() == 0,
    ensures
        found_calls(x + middle(t, e, c) + r, registry) == seq![
            function_call(tag_name(t), e, registry),
        ] + found_calls(r, registry),
        stripped(x + middle(t, e, c) + r, registry) == x + stripped(r, registry),
{
    let mid = middle(t, e, c);
    let p0 = x + mid;
    let b = p0 + r;
    let n = p0.len() as int;
    lemma_own_function(x, t, e, c, r);
    lemma_whole_functions(x, t, e, c, r);
    lemma_function_calls(x, t, e, c, r, registry);
    lemma_function_blocks(r);
    lemma_blocks_only(b, registry);
    lemma_blocks_only(r, registry);
    let fb = function_blocks(b);
    let fr = function_blocks(r);
    let ranges = block_ranges(b);
    let inner = block_ranges(r);
    assert(block_calls(b, tool_blocks(b), registry) =~= Seq::<CallView>::empty());
    assert(block_calls(r, tool_blocks(r), registry) =~= Seq::<CallView>::empty());
    assert(found_calls(b, registry) =~= function_calls(b, fb, registry));
    assert(found_calls(r, registry) =~= function_calls(r, fr, registry));
    assert(ranges[0] == (fb[0].block.open_start, fb[0].block.block_end));
    assert forall|k: int| 0 <= k < inner.len() implies #[trigger] ranges[k + 1] == (
        inner[k].0 + n,
        inner[k].1 + n,
    ) && inner[k].0 >= 0 by {
        assert(fb[k + 1].block == later_block(fr[k].block, n));
        assert(block_in(r, fr[k].block));
        assert(inner[k] == (fr[k].block.open_start, fr[k].block.block_end));
    }
    lemma_cut_kept(x, mid, r, ranges, inner);
}

/// Function blocks are read one after the other: a block ends with its closing tag, and one that
/// nothing closes ends where the next one begins or with the text. Its call has the name in its
/// tag and the parameters of the text inside it, and behind it come the calls of the rest; what
/// the client sees is what stands before the block, and what is left of the rest. A bare call in
/// the rest does not count, because a block stands before it: the law speaks of a rest without
/// such calls.
pub proof fn function_blocks_are_read_in_order(
    pre: Seq<char>,
    tag: Seq<char>,
    body: Seq<char>,
    closed: bool,
    rest: Seq<char>,
    registry: Map<Seq<char>, Seq<char>>,
)
    requires
        is_function_tag(encode_utf8(tag)),
        !occurs(encode_utf8(pre), encode_utf8("<function"@)),
        !occurs(encode_utf8(body), encode_utf8("<function"@)),
        !occurs(encode_utf8(body), encode_utf8("</function>"@)),
        !closed ==> begins_with_function(encode_utf8(rest)),
        tool_blocks(encode_utf8(function_text(pre, tag, body, closed, rest))).len() == 0,
        tool_blocks(encode_utf8(rest)).len() == 0,
        closed && seeks_naked(encode_utf8(rest), registry) ==> found_calls(
            encode_utf8(rest),
            registry,
        ).len() == 0,
    ensures
        found_calls(
            encode_utf8(function_text(pre, tag, body, closed, rest)),
            registry,
        ) == seq![function_call(tag_name(encode_utf8(tag)), encode_utf8(body), registry)]
            + found_calls(encode_utf8(rest), registry),
        stripped(
            encode_utf8(function_text(pre, tag, body, closed, rest)),
            registry,
        ) == encode_utf8(pre) + stripped(encode_utf8(rest), registry),
{
    let x = encode_utf8(pre);
    let t = encode_utf8(tag);
    let e = encode_utf8(body);
    let r = encode_utf8(rest);
    let close = if closed {
        "</function>"@
    } else {
        Seq::empty()
    };
    let c = encode_utf8(close);
    lemma_encode_concat(tag, body);
    lemma_encode_concat(tag + body, close);
    lemma_encode_concat(pre, tag + body + close);
    lemma_encode_concat(pre + (tag + body + close), rest);
    assert(function_text(pre, tag, body, closed, rest) =~= pre + (tag + body + close) + rest);
    encode_utf8_valid_utf8(function_text(pre, tag, body, closed, rest));
    encode_utf8_valid_utf8(tag);
    encode_utf8_valid_utf8(rest);
    if !closed {
        lemma_ascii_bytes(close);
        if r.len() == 0 {
            lemma_empty_text(r, registry);
        } else {
            lemma_own_start(r);
        }
    }
    lemma_function_whole(x, t, e, c, r, registry);
}

/// The bytes of the name of a function.
pub proof fn lemma_function_name(name: Seq<char>)
    requires
        is_function_name(name),
    ensures
        encode_utf8(name).len() > 0,
        forall|k: int|
            0 <= k < encode_utf8(name).len() ==> is_name_byte(#[trigger] encode_utf8(name)[k]),
        decode_utf8(encode_utf8(name)) == name,
{
    assert(is_ascii_chars(name)) by {
        assert forall|i: int| 0 <= i < name.len() implies '\0' <= #[trigger] name[i] <= '\x7f' by {
            assert(is_name_char(name[i]));
        }
    }
    lemma_ascii_bytes(name);
    encode_utf8_decode_utf8(name);
    let w = encode_utf8(name);
    assert forall|k: int| 0 <= k < w.len() implies is_name_byte(#[trigger] w[k]) by {
        assert(is_name_char(name[k]));
    }
}

} // verus!
