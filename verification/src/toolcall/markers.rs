//! The marks in a text that the patterns of `regex` find: the openings of calls, of fences,
//! of functions and of parameters, and links.

use crate::text::{
    find, is_white, lemma_boundary_after_ascii, lemma_boundary_at, lemma_find_from, occurs,
    stands_at,
};
use vstd::prelude::*;
use vstd::utf8::*;

verus! {

/// What is looked for.
#[derive(Debug, Clone, Copy, PartialEq, Eq, Structural)]
pub enum Marker {
    /// `<tool_call>`
    ToolOpen,
    /// Three backquotes, with `tool_call` or `json` behind them or neither, and the rest of
    /// that line where it is blank.
    FenceOpen,
    /// `<function=name>`, the name in quotes or not.
    FunctionOpen,
    /// `<parameter=name>`, the name in quotes or not.
    ParameterOpen,
    /// A link: `http://` or `https://` and what follows up to white space, a quote, an angle
    /// bracket, a closing parenthesis or a closing bracket.
    Link,
}

impl Marker {
    /// The regular expression of a mark.
    pub open spec fn source(self) -> Seq<char> {
        match self {
            Marker::ToolOpen => "<tool_call>"@,
            Marker::FenceOpen => "```(?:tool_call|json)?[ \\t]*\\n?"@,
            Marker::FunctionOpen => "<function\\s*=\\s*\"?([A-Za-z0-9_.:-]+)\"?\\s*>"@,
            Marker::ParameterOpen => "<parameter\\s*=\\s*\"?([A-Za-z0-9_.:-]+)\"?\\s*>"@,
            Marker::Link => "https?://[^\\s\"'<>)\\]]+"@,
        }
    }

    /// The regular expression of a mark.
    fn pattern(self) -> (r: &'static str)
        ensures
            r@ == self.source(),
    {
        match self {
            Marker::ToolOpen => "<tool_call>",
            Marker::FenceOpen => "```(?:tool_call|json)?[ \\t]*\\n?",
            Marker::FunctionOpen => "<function\\s*=\\s*\"?([A-Za-z0-9_.:-]+)\"?\\s*>",
            Marker::ParameterOpen => "<parameter\\s*=\\s*\"?([A-Za-z0-9_.:-]+)\"?\\s*>",
            Marker::Link => "https?://[^\\s\"'<>)\\]]+",
        }
    }
}

/// Where a mark stands: its first byte, the byte behind it, and the first byte and the byte
/// behind of the name in it, where it has one.
#[derive(Debug, Clone, Copy)]
pub struct Span {
    pub start: usize,
    pub end: usize,
    pub name: Option<(usize, usize)>,
}

/// Where a mark stands.
pub struct SpanView {
    pub start: int,
    pub end: int,
    pub name: Option<(int, int)>,
}

impl View for Span {
    type V = SpanView;

    open spec fn view(&self) -> SpanView {
        SpanView {
            start: self.start as int,
            end: self.end as int,
            name: match self.name {
                Some(n) => Some((n.0 as int, n.1 as int)),
                None => None,
            },
        }
    }
}

// ---------------------------------------------------------------------------
// What the patterns match
// ---------------------------------------------------------------------------

/// The character whose encoding begins at `i`.
pub open spec fn char_at(b: Seq<u8>, i: int) -> char {
    decode_first_scalar(b.skip(i)) as char
}

/// How many bytes the character takes whose encoding begins at `i`.
pub open spec fn char_len(b: Seq<u8>, i: int) -> int {
    length_of_first_scalar(b.skip(i))
}

/// There is a whole character at `i`.
pub open spec fn char_stands(b: Seq<u8>, i: int) -> bool {
    &&& 0 <= i < b.len()
    &&& 0 < char_len(b, i) <= b.len() - i
}

/// The first place at or after `i` at which no white space stands.
pub open spec fn skip_white(b: Seq<u8>, i: int) -> int
    decreases b.len() - i,
{
    if char_stands(b, i) && is_white(char_at(b, i)) {
        skip_white(b, i + char_len(b, i))
    } else {
        i
    }
}

/// The first place at or after `i` at which neither a space nor a tab stands.
pub open spec fn skip_blank(b: Seq<u8>, i: int) -> int
    decreases b.len() - i,
{
    if 0 <= i < b.len() && (b[i] == 0x20 || b[i] == 0x09) {
        skip_blank(b, i + 1)
    } else {
        i
    }
}

/// A byte of a name: a letter, a digit, an underscore, a dot, a colon or a hyphen.
pub open spec fn is_name_byte(c: u8) -> bool {
    ||| 0x41 <= c <= 0x5a
    ||| 0x61 <= c <= 0x7a
    ||| 0x30 <= c <= 0x39
    ||| c == 0x5f
    ||| c == 0x2e
    ||| c == 0x3a
    ||| c == 0x2d
}

/// The first place at or after `i` at which no byte of a name stands.
pub open spec fn skip_name(b: Seq<u8>, i: int) -> int
    decreases b.len() - i,
{
    if 0 <= i < b.len() && is_name_byte(b[i]) {
        skip_name(b, i + 1)
    } else {
        i
    }
}

/// A character that ends a link.
pub open spec fn ends_link(c: char) -> bool {
    is_white(c) || c == '"' || c == '\'' || c == '<' || c == '>' || c == ')' || c == ']'
}

/// The first place at or after `i` at which a link ends.
pub open spec fn skip_link(b: Seq<u8>, i: int) -> int
    decreases b.len() - i,
{
    if char_stands(b, i) && !ends_link(char_at(b, i)) {
        skip_link(b, i + char_len(b, i))
    } else {
        i
    }
}

/// Past `i` where the byte `c` stands there, `i` otherwise.
pub open spec fn skip_one(b: Seq<u8>, i: int, c: u8) -> int {
    if 0 <= i < b.len() && b[i] == c {
        i + 1
    } else {
        i
    }
}

/// The end of the opening tag `<keyword = "name" >` that begins at `p`, and its name.
#[verifier::opaque]
pub open spec fn tag_at(b: Seq<u8>, keyword: Seq<char>, p: int) -> Option<
    (int, Option<(int, int)>),
> {
    let k = encode_utf8(keyword);
    let equals = skip_white(b, p + k.len());
    let name = skip_one(b, skip_white(b, equals + 1), 0x22);
    let name_end = skip_name(b, name);
    let close = skip_white(b, skip_one(b, name_end, 0x22));
    if stands_at(b, k, p) && 0 <= equals < b.len() && b[equals] == 0x3d && name < name_end && 0
        <= close < b.len() && b[close] == 0x3e {
        Some((close + 1, Some((name, name_end))))
    } else {
        None
    }
}

/// The end of the fence that begins at `p`.
#[verifier::opaque]
pub open spec fn fence_at(b: Seq<u8>, p: int) -> Option<(int, Option<(int, int)>)> {
    let word = p + 3;
    let rest = if stands_at(b, encode_utf8("tool_call"@), word) {
        word + 9
    } else if stands_at(b, encode_utf8("json"@), word) {
        word + 4
    } else {
        word
    };
    if stands_at(b, encode_utf8("```"@), p) {
        Some((skip_one(b, skip_blank(b, rest), 0x0a), None))
    } else {
        None
    }
}

/// The end of the link that begins at `p`.
#[verifier::opaque]
pub open spec fn link_at(b: Seq<u8>, p: int) -> Option<(int, Option<(int, int)>)> {
    let colon = skip_one(b, p + 4, 0x73);
    let host = colon + 3;
    let end = skip_link(b, host);
    if stands_at(b, encode_utf8("http"@), p) && stands_at(b, encode_utf8("://"@), colon) && host
        < end {
        Some((end, None))
    } else {
        None
    }
}

/// The end of the mark that begins at `p`, and the name in it.
pub open spec fn match_at(m: Marker, b: Seq<u8>, p: int) -> Option<(int, Option<(int, int)>)> {
    match m {
        Marker::ToolOpen => if stands_at(b, encode_utf8("<tool_call>"@), p) {
            Some((p + 11, None))
        } else {
            None
        },
        Marker::FenceOpen => fence_at(b, p),
        Marker::FunctionOpen => tag_at(b, "<function"@, p),
        Marker::ParameterOpen => tag_at(b, "<parameter"@, p),
        Marker::Link => link_at(b, p),
    }
}

/// The marks at or after `from`, from left to right, each sought behind the one before it.
pub open spec fn spans_from(m: Marker, b: Seq<u8>, from: int) -> Seq<SpanView>
    decreases b.len() - from,
{
    if from < 0 || from >= b.len() {
        Seq::empty()
    } else {
        match match_at(m, b, from) {
            Some((end, name)) => if from < end <= b.len() {
                seq![SpanView { start: from, end, name }] + spans_from(m, b, end)
            } else {
                Seq::empty()
            },
            None => spans_from(m, b, from + 1),
        }
    }
}

/// The marks in a text.
pub open spec fn spans(m: Marker, b: Seq<u8>) -> Seq<SpanView> {
    spans_from(m, b, 0)
}

/// `regex::Regex::captures_iter` with the expression of a mark: the byte offsets of each
/// match and of its first group. The successive matches do not overlap and are found from
/// left to right; each repetition takes as much as it can, and none of the expressions ever
/// has to give any of that back, because what may follow a repetition cannot continue it.
#[verifier::external_body]
fn regex_captures(pattern: &str, text: &str) -> (r: Vec<Span>)
    requires
        exists|m: Marker| pattern@ == #[trigger] m.source(),
    ensures
        forall|m: Marker|
            pattern@ == #[trigger] m.source() ==> r@.map_values(|s: Span| s@) == spans(
                m,
                encode_utf8(text@),
            ),
{
    let re = regex::Regex::new(pattern).unwrap();
    re.captures_iter(text).map(
        |c| {
            let whole = c.get(0).unwrap();
            let name = c.get(1).map(|g| (g.start(), g.end()));
            Span { start: whole.start(), end: whole.end(), name }
        },
    ).collect()
}

/// The marks in a text.
pub fn find_marks(m: Marker, text: &str) -> (r: Vec<Span>)
    ensures
        r@.map_values(|s: Span| s@) == spans(m, encode_utf8(text@)),
{
    regex_captures(m.pattern(), text)
}

// ---------------------------------------------------------------------------
// Lemmas
// ---------------------------------------------------------------------------

/// Behind a character of a valid text there is a boundary.
pub proof fn lemma_next_boundary(b: Seq<u8>, i: int)
    requires
        valid_utf8(b),
        0 <= i < b.len(),
        is_char_boundary(b, i),
    ensures
        i < i + char_len(b, i) <= b.len(),
        is_char_boundary(b, i + char_len(b, i)),
{
    let tail = b.subrange(i, b.len() as int);
    assert(tail =~= b.skip(i));
    valid_utf8_split(b, i);
    let n = length_of_first_scalar(tail);
    let rest = pop_first_scalar(tail);
    assert(valid_utf8(rest));
    if i + n < b.len() {
        assert(rest[0] == b[i + n]);
        is_char_boundary_start_end_of_seq(rest);
        is_char_boundary_iff_not_is_continuation_byte(rest, 0);
    }
    lemma_boundary_at(b, i + n);
}

proof fn lemma_skip_white(b: Seq<u8>, i: int)
    requires
        0 <= i,
    ensures
        i <= skip_white(b, i),
    decreases b.len() - i,
{
    if char_stands(b, i) && is_white(char_at(b, i)) {
        lemma_skip_white(b, i + char_len(b, i));
    }
}

proof fn lemma_skip_blank(b: Seq<u8>, i: int)
    requires
        0 <= i <= b.len(),
    ensures
        i <= skip_blank(b, i) <= b.len(),
        i < skip_blank(b, i) ==> b[skip_blank(b, i) - 1] < 0x80,
        forall|k: int|
            i <= k < skip_blank(b, i) ==> #[trigger] b[k] == 0x20 || b[k] == 0x09,
    decreases b.len() - i,
{
    if i < b.len() && (b[i] == 0x20 || b[i] == 0x09) {
        lemma_skip_blank(b, i + 1);
    }
}

proof fn lemma_skip_name(b: Seq<u8>, i: int)
    requires
        0 <= i,
    ensures
        i <= skip_name(b, i),
        i < skip_name(b, i) ==> skip_name(b, i) <= b.len() && b[skip_name(b, i) - 1] < 0x80
            && b[i] < 0x80,
        forall|k: int| i <= k < skip_name(b, i) ==> is_name_byte(#[trigger] b[k]),
    decreases b.len() - i,
{
    if i < b.len() && is_name_byte(b[i]) {
        lemma_skip_name(b, i + 1);
    }
}

proof fn lemma_skip_link(b: Seq<u8>, i: int)
    requires
        valid_utf8(b),
        0 <= i <= b.len(),
        is_char_boundary(b, i),
    ensures
        i <= skip_link(b, i) <= b.len(),
        is_char_boundary(b, skip_link(b, i)),
    decreases b.len() - i,
{
    if char_stands(b, i) && !ends_link(char_at(b, i)) {
        lemma_next_boundary(b, i);
        lemma_skip_link(b, i + char_len(b, i));
    }
}

/// The bytes of an ASCII text are its characters.
pub proof fn lemma_ascii_bytes(s: Seq<char>)
    requires
        is_ascii_chars(s),
    ensures
        encode_utf8(s).len() == s.len(),
        forall|i: int| 0 <= i < s.len() ==> #[trigger] encode_utf8(s)[i] == s[i] as u8,
        forall|i: int| 0 <= i < s.len() ==> #[trigger] encode_utf8(s)[i] < 0x80,
{
    is_ascii_chars_encode_utf8(s);
}

/// An ASCII text that stands in a valid one begins and ends on boundaries.
pub proof fn lemma_ascii_stands(b: Seq<u8>, s: Seq<char>, p: int)
    requires
        valid_utf8(b),
        is_ascii_chars(s),
        s.len() > 0,
        stands_at(b, encode_utf8(s), p),
    ensures
        encode_utf8(s).len() == s.len(),
        p + s.len() <= b.len(),
        b[p] == s[0] as u8,
        is_char_boundary(b, p),
        is_char_boundary(b, p + s.len()),
{
    lemma_ascii_bytes(s);
    let e = encode_utf8(s);
    let w = b.subrange(p, p + e.len());
    assert(w[0] == b[p]);
    assert(w[e.len() - 1] == b[p + e.len() - 1]);
    assert(e[0] < 0x80);
    assert(e[e.len() - 1] < 0x80);
    lemma_boundary_after_ascii(b, p);
    lemma_boundary_after_ascii(b, p + e.len() - 1);
}

/// What is known of a mark: it has its place in the text, it begins and ends on boundaries,
/// and its name lies in it.
pub open spec fn span_in(b: Seq<u8>, s: SpanView) -> bool {
    &&& 0 <= s.start < s.end <= b.len()
    &&& is_char_boundary(b, s.start)
    &&& is_char_boundary(b, s.end)
    &&& s.name matches Some(n) ==> s.start < n.0 < n.1 < s.end && is_char_boundary(b, n.0)
        && is_char_boundary(b, n.1)
}

proof fn lemma_tag_at(b: Seq<u8>, keyword: Seq<char>, p: int)
    requires
        valid_utf8(b),
        0 <= p,
        is_ascii_chars(keyword),
        keyword.len() > 0,
        tag_at(b, keyword, p) is Some,
    ensures
        ({
            let t = tag_at(b, keyword, p)->0;
            &&& t.1 is Some
            &&& span_in(b, SpanView { start: p, end: t.0, name: t.1 })
        }),
{
    reveal(tag_at);
    lemma_ascii_stands(b, keyword, p);
    let k = encode_utf8(keyword);
    let equals = skip_white(b, p + k.len());
    lemma_skip_white(b, p + k.len());
    let after = skip_white(b, equals + 1);
    lemma_skip_white(b, equals + 1);
    let name = skip_one(b, after, 0x22);
    lemma_skip_name(b, name);
    let name_end = skip_name(b, name);
    let q = skip_one(b, name_end, 0x22);
    lemma_skip_white(b, q);
    let close = skip_white(b, q);
    lemma_boundary_at(b, name);
    lemma_boundary_after_ascii(b, name_end - 1);
    lemma_boundary_after_ascii(b, close);
}

proof fn lemma_fence_at(b: Seq<u8>, p: int)
    requires
        valid_utf8(b),
        0 <= p,
        fence_at(b, p) is Some,
    ensures
        span_in(b, SpanView { start: p, end: (fence_at(b, p)->0).0, name: None }),
        (fence_at(b, p)->0).1 is None,
{
    reveal(fence_at);
    reveal_strlit("```");
    lemma_ascii_stands(b, "```"@, p);
    let word = p + 3;
    let rest = if stands_at(b, encode_utf8("tool_call"@), word) {
        word + 9
    } else if stands_at(b, encode_utf8("json"@), word) {
        word + 4
    } else {
        word
    };
    if stands_at(b, encode_utf8("tool_call"@), word) {
        reveal_strlit("tool_call");
        lemma_ascii_stands(b, "tool_call"@, word);
    } else if stands_at(b, encode_utf8("json"@), word) {
        reveal_strlit("json");
        lemma_ascii_stands(b, "json"@, word);
    }
    lemma_skip_blank(b, rest);
    let blank = skip_blank(b, rest);
    if rest < blank {
        lemma_boundary_after_ascii(b, blank - 1);
    }
    if blank < b.len() && b[blank] == 0x0a {
        lemma_boundary_after_ascii(b, blank);
    }
}

proof fn lemma_link_at(b: Seq<u8>, p: int)
    requires
        valid_utf8(b),
        0 <= p,
        link_at(b, p) is Some,
    ensures
        span_in(b, SpanView { start: p, end: (link_at(b, p)->0).0, name: None }),
        (link_at(b, p)->0).1 is None,
{
    reveal(link_at);
    reveal_strlit("http");
    reveal_strlit("://");
    lemma_ascii_stands(b, "http"@, p);
    let colon = skip_one(b, p + 4, 0x73);
    lemma_ascii_stands(b, "://"@, colon);
    lemma_skip_link(b, colon + 3);
}

/// A mark lies in the text, on boundaries.
pub proof fn lemma_match_at(m: Marker, b: Seq<u8>, p: int)
    requires
        valid_utf8(b),
        0 <= p,
        match_at(m, b, p) is Some,
    ensures
        ({
            let t = match_at(m, b, p)->0;
            span_in(b, SpanView { start: p, end: t.0, name: t.1 })
        }),
        m == Marker::FunctionOpen || m == Marker::ParameterOpen ==> (match_at(
            m,
            b,
            p,
        )->0).1 is Some,
{
    match m {
        Marker::ToolOpen => {
            reveal_strlit("<tool_call>");
            lemma_ascii_stands(b, "<tool_call>"@, p);
        },
        Marker::FenceOpen => {
            lemma_fence_at(b, p);
        },
        Marker::FunctionOpen => {
            reveal_strlit("<function");
            lemma_tag_at(b, "<function"@, p);
        },
        Marker::ParameterOpen => {
            reveal_strlit("<parameter");
            lemma_tag_at(b, "<parameter"@, p);
        },
        Marker::Link => {
            lemma_link_at(b, p);
        },
    }
}

/// The marks of a text lie in it, on boundaries, one behind the other, and each is where the
/// pattern matches.
pub proof fn lemma_spans_from(m: Marker, b: Seq<u8>, from: int)
    requires
        valid_utf8(b),
        0 <= from,
    ensures
        forall|i: int|
            #![trigger spans_from(m, b, from)[i]]
            0 <= i < spans_from(m, b, from).len() ==> {
                let s = spans_from(m, b, from)[i];
                &&& from <= s.start
                &&& span_in(b, s)
                &&& match_at(m, b, s.start) == Some((s.end, s.name))
                &&& m == Marker::FunctionOpen || m == Marker::ParameterOpen ==> s.name is Some
            },
        forall|i: int, j: int|
            #![trigger spans_from(m, b, from)[i], spans_from(m, b, from)[j]]
            0 <= i < j < spans_from(m, b, from).len() ==> spans_from(m, b, from)[i].end
                <= spans_from(m, b, from)[j].start,
    decreases b.len() - from,
{
    let all = spans_from(m, b, from);
    if from >= b.len() {
        assert(all =~= Seq::empty());
    } else {
        match match_at(m, b, from) {
            Some((end, name)) => {
                lemma_match_at(m, b, from);
                lemma_spans_from(m, b, end);
                let rest = spans_from(m, b, end);
                let first = SpanView { start: from, end, name };
                assert(all =~= seq![first] + rest);
                assert forall|i: int| #![trigger all[i]] 0 <= i < all.len() implies {
                    let s = all[i];
                    &&& from <= s.start
                    &&& span_in(b, s)
                    &&& match_at(m, b, s.start) == Some((s.end, s.name))
                    &&& m == Marker::FunctionOpen || m == Marker::ParameterOpen ==> s.name is Some
                } by {
                    if i > 0 {
                        assert(all[i] == rest[i - 1]);
                    }
                }
                assert forall|i: int, j: int|
                    #![trigger all[i], all[j]]
                    0 <= i < j < all.len() implies all[i].end <= all[j].start by {
                    assert(all[j] == rest[j - 1]);
                    if i > 0 {
                        assert(all[i] == rest[i - 1]);
                    }
                }
            },
            None => {
                lemma_spans_from(m, b, from + 1);
                assert(all == spans_from(m, b, from + 1));
            },
        }
    }
}

/// A text has marks exactly where the pattern matches somewhere.
pub proof fn lemma_no_spans(m: Marker, b: Seq<u8>, from: int)
    requires
        valid_utf8(b),
        0 <= from,
        forall|p: int| from <= p < b.len() ==> #[trigger] match_at(m, b, p) is None,
    ensures
        spans_from(m, b, from) == Seq::<SpanView>::empty(),
    decreases b.len() - from,
{
    if from < b.len() {
        lemma_no_spans(m, b, from + 1);
    }
}

/// What stands in a whole at a place that lies in a part stands in the part.
pub proof fn lemma_stands_in_part(b: Seq<u8>, needle: Seq<u8>, p: int, from: int, to: int)
    requires
        0 <= from <= to <= b.len(),
        stands_at(b, needle, p),
        from <= p,
        p + needle.len() <= to,
    ensures
        stands_at(b.subrange(from, to), needle, p - from),
        occurs(b.subrange(from, to), needle),
{
    assert(b.subrange(from, to).subrange(p - from, p - from + needle.len()) =~= b.subrange(
        p,
        p + needle.len(),
    ));
    assert(stands_at(b.subrange(from, to), needle, p - from));
}

/// The bytes of what stands somewhere.
pub proof fn lemma_stands_bytes(b: Seq<u8>, needle: Seq<u8>, p: int)
    requires
        stands_at(b, needle, p),
    ensures
        forall|k: int| 0 <= k < needle.len() ==> b[p + k] == #[trigger] needle[k],
{
    assert forall|k: int| 0 <= k < needle.len() implies b[p + k] == #[trigger] needle[k] by {
        assert(b.subrange(p, p + needle.len())[k] == b[p + k]);
    }
}

/// A stretch without matches is passed over.
pub proof fn lemma_spans_skip(m: Marker, b: Seq<u8>, from: int, to: int)
    requires
        0 <= from <= to <= b.len(),
        forall|p: int| from <= p < to ==> #[trigger] match_at(m, b, p) is None,
    ensures
        spans_from(m, b, from) == spans_from(m, b, to),
    decreases to - from,
{
    if from < to {
        lemma_spans_skip(m, b, from + 1, to);
    }
}

/// The marks from a mark on.
pub proof fn lemma_span_step(m: Marker, b: Seq<u8>, p: int, end: int, name: Option<(int, int)>)
    requires
        0 <= p < end <= b.len(),
        match_at(m, b, p) == Some((end, name)),
    ensures
        spans_from(m, b, p) == seq![SpanView { start: p, end, name }] + spans_from(m, b, end),
{
}

/// The marks of a text where one mark stands, and no other before `n`.
pub proof fn lemma_lone_mark(m: Marker, b: Seq<u8>, mark: SpanView, n: int)
    requires
        0 <= mark.start < mark.end <= n <= b.len(),
        match_at(m, b, mark.start) == Some((mark.end, mark.name)),
        forall|p: int|
            0 <= p < mark.start || mark.end <= p < n ==> #[trigger] match_at(m, b, p) is None,
    ensures
        spans(m, b) == seq![mark] + spans_from(m, b, n),
{
    lemma_spans_skip(m, b, 0, mark.start);
    lemma_span_step(m, b, mark.start, mark.end, mark.name);
    lemma_spans_skip(m, b, mark.end, n);
}

/// The marks of a text in two parts, where no mark stands across the place between them.
pub proof fn lemma_spans_split(m: Marker, b: Seq<u8>, from: int, n: int) -> (first: Seq<SpanView>)
    requires
        0 <= from <= n <= b.len(),
        forall|p: int|
            #![trigger match_at(m, b, p)]
            from <= p < n && match_at(m, b, p) is Some ==> p < (match_at(m, b, p)->0).0 <= n,
    ensures
        spans_from(m, b, from) == first + spans_from(m, b, n),
        forall|k: int|
            #![trigger first[k]]
            0 <= k < first.len() ==> from <= first[k].start < n && match_at(
                m,
                b,
                first[k].start,
            ) == Some((first[k].end, first[k].name)),
    decreases n - from,
{
    if from == n {
        assert(spans_from(m, b, n) =~= Seq::<SpanView>::empty() + spans_from(m, b, n));
        Seq::empty()
    } else {
        match match_at(m, b, from) {
            Some((end, name)) => {
                let rest = lemma_spans_split(m, b, end, n);
                let mark = SpanView { start: from, end, name };
                lemma_span_step(m, b, from, end, name);
                let first = seq![mark] + rest;
                assert(spans_from(m, b, from) =~= first + spans_from(m, b, n));
                assert forall|k: int| #![trigger first[k]] 0 <= k < first.len() implies from
                    <= first[k].start < n && match_at(m, b, first[k].start) == Some(
                    (first[k].end, first[k].name),
                ) by {
                    if k > 0 {
                        assert(first[k] == rest[k - 1]);
                    }
                }
                first
            },
            None => { lemma_spans_split(m, b, from + 1, n) },
        }
    }
}

/// The marks from the first one on.
pub proof fn lemma_spans_head(m: Marker, b: Seq<u8>, from: int)
    requires
        spans_from(m, b, from).len() > 0,
    ensures
        spans_from(m, b, from) == seq![spans_from(m, b, from)[0]] + spans_from(
            m,
            b,
            spans_from(m, b, from)[0].end,
        ),
    decreases b.len() - from,
{
    match match_at(m, b, from) {
        Some((end, name)) => {
            assert(spans_from(m, b, from)[0] == (SpanView { start: from, end, name }));
        },
        None => {
            lemma_spans_head(m, b, from + 1);
        },
    }
}

/// Behind its three backquotes a fence has no other, and no angle bracket.
pub proof fn lemma_fence_tail(b: Seq<u8>, p: int)
    requires
        valid_utf8(b),
        0 <= p,
        fence_at(b, p) is Some,
    ensures
        forall|k: int|
            p + 3 <= k < (fence_at(b, p)->0).0 ==> #[trigger] b[k] != 0x60 && b[k] != 0x3c,
{
    reveal(fence_at);
    let word = p + 3;
    let tool = encode_utf8("tool_call"@);
    let json = encode_utf8("json"@);
    reveal_strlit("tool_call");
    reveal_strlit("json");
    lemma_ascii_bytes("tool_call"@);
    lemma_ascii_bytes("json"@);
    let rest = if stands_at(b, tool, word) {
        word + 9
    } else if stands_at(b, json, word) {
        word + 4
    } else {
        word
    };
    reveal_strlit("```");
    lemma_ascii_stands(b, "```"@, p);
    if stands_at(b, tool, word) {
        lemma_stands_bytes(b, tool, word);
    } else if stands_at(b, json, word) {
        lemma_stands_bytes(b, json, word);
    }
    lemma_skip_blank(b, rest);
    let end = (fence_at(b, p)->0).0;
    assert forall|k: int| word <= k < end implies #[trigger] b[k] != 0x60 && b[k] != 0x3c by {
        if k < rest {
            if stands_at(b, tool, word) {
                assert(b[word + (k - word)] == tool[k - word]);
            } else {
                assert(b[word + (k - word)] == json[k - word]);
            }
        }
    }
}

/// A function block opens only where its tag begins.
pub proof fn lemma_function_there(b: Seq<u8>, p: int)
    requires
        match_at(Marker::FunctionOpen, b, p) is Some,
    ensures
        stands_at(b, encode_utf8("<function"@), p),
{
    reveal(tag_at);
}

/// A fence is where three backquotes stand.
pub proof fn lemma_fence_there(b: Seq<u8>, p: int)
    ensures
        match_at(Marker::FenceOpen, b, p) is Some <==> stands_at(b, encode_utf8("```"@), p),
{
    reveal(fence_at);
}

/// Right behind the backquotes of a fence the fences go on as behind the whole of it.
pub proof fn lemma_behind_fence(b: Seq<u8>, at: int)
    requires
        valid_utf8(b),
        stands_at(b, encode_utf8("```"@), at),
    ensures
        spans_from(Marker::FenceOpen, b, at).len() > 0,
        spans_from(Marker::FenceOpen, b, at)[0].start == at,
        spans_from(Marker::FenceOpen, b, at + 3) == spans_from(Marker::FenceOpen, b, at).skip(1),
{
    let m = Marker::FenceOpen;
    let t = encode_utf8("```"@);
    reveal_strlit("```");
    lemma_ascii_bytes("```"@);
    lemma_fence_there(b, at);
    lemma_match_at(m, b, at);
    lemma_fence_tail(b, at);
    lemma_fence_long(b, at);
    let end = (fence_at(b, at)->0).0;
    assert forall|p: int| at + 3 <= p < end implies #[trigger] match_at(m, b, p) is None by {
        lemma_fence_there(b, p);
        if stands_at(b, t, p) {
            lemma_stands_bytes(b, t, p);
            assert(b[p + 0] == t[0]);
        }
    }
    lemma_spans_skip(m, b, at + 3, end);
    assert(spans_from(m, b, at).skip(1) =~= spans_from(m, b, end));
}

/// What stands in the end of a text stands in the text.
pub proof fn lemma_stands_in_tail(b: Seq<u8>, t: Seq<u8>, k: int, p: int)
    requires
        0 <= k <= p,
        k <= b.len(),
    ensures
        stands_at(b, t, p) <==> stands_at(b.subrange(k, b.len() as int), t, p - k),
{
    let part = b.subrange(k, b.len() as int);
    if p + t.len() <= b.len() {
        assert(part.subrange(p - k, p - k + t.len()) =~= b.subrange(p, p + t.len()));
    }
}

/// The next fence is where the next three backquotes stand.
proof fn lemma_next_fence(b: Seq<u8>, k: int)
    requires
        valid_utf8(b),
        0 <= k <= b.len(),
    ensures
        match find(b.subrange(k, b.len() as int), encode_utf8("```"@)) {
            Some(rel) => 0 <= rel && stands_at(b, encode_utf8("```"@), k + rel) && spans_from(
                Marker::FenceOpen,
                b,
                k,
            ) == spans_from(Marker::FenceOpen, b, k + rel),
            None => spans_from(Marker::FenceOpen, b, k) == Seq::<SpanView>::empty(),
        },
{
    let m = Marker::FenceOpen;
    let t = encode_utf8("```"@);
    let len = b.len() as int;
    let part = b.subrange(k, len);
    lemma_find_from(part, t, 0);
    let stop = match find(part, t) {
        Some(rel) => k + rel,
        None => len,
    };
    assert forall|p: int| k <= p < stop implies #[trigger] match_at(m, b, p) is None by {
        lemma_stands_in_tail(b, t, k, p);
        assert(!stands_at(part, t, p - k));
        lemma_fence_there(b, p);
    }
    match find(part, t) {
        Some(rel) => {
            lemma_stands_in_tail(b, t, k, k + rel);
            lemma_spans_skip(m, b, k, k + rel);
        },
        None => {
            lemma_no_spans(m, b, k);
        },
    }
}

/// The fence behind a fence is the one that closes it, and behind that one the next fence is
/// sought right behind its backquotes.
pub proof fn lemma_fences_pair(b: Seq<u8>, from: int)
    requires
        valid_utf8(b),
        0 <= from,
        spans_from(Marker::FenceOpen, b, from).len() > 0,
    ensures
        ({
            let s = spans_from(Marker::FenceOpen, b, from);
            match find(b.subrange(s[0].end, b.len() as int), encode_utf8("```"@)) {
                Some(rel) => s.len() >= 2 && s[1].start == s[0].end + rel && spans_from(
                    Marker::FenceOpen,
                    b,
                    s[0].end + rel + 3,
                ) == s.skip(2),
                None => s.len() == 1,
            }
        }),
{
    let m = Marker::FenceOpen;
    let s = spans_from(m, b, from);
    lemma_spans_head(m, b, from);
    lemma_spans_from(m, b, from);
    let k = s[0].end;
    assert(span_in(b, s[0]));
    lemma_next_fence(b, k);
    match find(b.subrange(k, b.len() as int), encode_utf8("```"@)) {
        Some(rel) => {
            lemma_behind_fence(b, k + rel);
            assert(s.skip(2) =~= spans_from(m, b, k).skip(1));
        },
        None => {},
    }
}

/// A fence has its three backquotes.
proof fn lemma_fence_long(b: Seq<u8>, p: int)
    requires
        valid_utf8(b),
        0 <= p,
        fence_at(b, p) is Some,
    ensures
        p + 3 <= (fence_at(b, p)->0).0,
{
    reveal(fence_at);
    reveal_strlit("```");
    reveal_strlit("tool_call");
    reveal_strlit("json");
    lemma_ascii_stands(b, "```"@, p);
    let word = p + 3;
    if stands_at(b, encode_utf8("tool_call"@), word) {
        lemma_ascii_stands(b, "tool_call"@, word);
        lemma_skip_blank(b, word + 9);
    } else if stands_at(b, encode_utf8("json"@), word) {
        lemma_ascii_stands(b, "json"@, word);
        lemma_skip_blank(b, word + 4);
    } else {
        lemma_skip_blank(b, word);
    }
}

} // verus!
