//! What is a mark in a text: the tag of a parameter, and a link.

use crate::json::JsonView;
use crate::json_text::json_parse;
use crate::text::{occurs, stands_at};
use crate::toolcall::blocks::name_text;
use crate::toolcall::call_laws::parameters_are_the_arguments;
use crate::toolcall::function_laws::{
    is_function_name, lemma_ascii_char, lemma_function_name, lemma_name_run,
};
use crate::toolcall::markers::{
    char_at, ends_link, is_name_byte, lemma_ascii_bytes, lemma_lone_mark, lemma_span_step,
    lemma_spans_skip, lemma_stands_bytes, lemma_stands_in_part, link_at, match_at, skip_link,
    skip_one, skip_white, spans, spans_from, tag_at, Marker, SpanView,
};
use crate::toolcall::parse::{function_call, parameter_text};
use crate::toolcall::strip::lemma_encode_concat;
use vstd::prelude::*;
use vstd::utf8::*;

verus! {

// ---------------------------------------------------------------------------
// Links
// ---------------------------------------------------------------------------

/// A link runs over all characters that do not end it.
proof fn lemma_link_run(b: Seq<u8>, i: int, s: Seq<char>, n: int)
    requires
        0 <= i <= b.len(),
        b.skip(i) == encode_utf8(s),
        0 <= n <= s.len(),
        forall|k: int| 0 <= k < n ==> !ends_link(#[trigger] s[k]),
        n < s.len() ==> ends_link(s[n]),
    ensures
        i <= skip_link(b, i) <= b.len(),
        b.skip(skip_link(b, i)) == encode_utf8(s.skip(n)),
    decreases n,
{
    if s.len() > 0 {
        encode_utf8_first_scalar(s);
        char_is_scalar(s[0]);
        let w = encode_scalar(s[0] as u32);
        let rest = s.drop_first();
        assert(encode_utf8(s) == w + encode_utf8(rest));
        char_u32_cast(s[0], s[0] as u32);
        assert(char_at(b, i) == s[0]);
        if n > 0 {
            let j = i + w.len();
            assert(b.skip(j) =~= encode_utf8(s).skip(w.len() as int));
            assert(encode_utf8(s).skip(w.len() as int) =~= encode_utf8(rest));
            assert forall|k: int| 0 <= k < n - 1 implies !ends_link(#[trigger] rest[k]) by {
                assert(rest[k] == s[k + 1]);
            }
            if n < s.len() {
                assert(rest[n - 1] == s[n]);
            }
            lemma_link_run(b, j, rest, n - 1);
            assert(rest.skip(n - 1) =~= s.skip(n));
        } else {
            assert(s.skip(0) =~= s);
        }
    } else {
        assert(b.skip(i).len() == 0);
        assert(s.skip(n) =~= s);
    }
}

/// What a link begins with.
pub open spec fn scheme(safe: bool) -> Seq<char> {
    if safe {
        "https://"@
    } else {
        "http://"@
    }
}

proof fn lemma_scheme_bytes(safe: bool)
    ensures
        ({
            let h = encode_utf8(scheme(safe));
            let w = encode_utf8("http"@);
            let c = encode_utf8("://"@);
            let k = if safe {
                5int
            } else {
                4
            };
            &&& h.len() == k + 3 && w.len() == 4 && c.len() == 3
            &&& h.subrange(0, 4) == w
            &&& h.subrange(k, k + 3) == c
            &&& safe ==> h[4] == 0x73
            &&& !safe ==> h[4] != 0x73
            &&& w[0] == 0x68 && w[1] != 0x68 && w[2] != 0x68 && w[3] != 0x68
            &&& h[0] == 0x68
        }),
{
    reveal_strlit("http");
    reveal_strlit("://");
    reveal_strlit("http://");
    reveal_strlit("https://");
    lemma_ascii_bytes("http"@);
    lemma_ascii_bytes("://"@);
    lemma_ascii_bytes(scheme(safe));
    let h = encode_utf8(scheme(safe));
    let k = if safe {
        5int
    } else {
        4
    };
    assert(h.subrange(0, 4) =~= encode_utf8("http"@));
    assert(h.subrange(k, k + 3) =~= encode_utf8("://"@));
}

/// No link begins before the first one.
proof fn lemma_before_link(x: Seq<u8>, safe: bool, u: Seq<u8>)
    requires
        !occurs(x, encode_utf8("http"@)),
    ensures
        forall|p: int|
            0 <= p < x.len() ==> #[trigger] match_at(
                Marker::Link,
                x + encode_utf8(scheme(safe)) + u,
                p,
            ) is None,
{
    let h = encode_utf8(scheme(safe));
    let b = x + h + u;
    let a = x.len() as int;
    let w = encode_utf8("http"@);
    lemma_scheme_bytes(safe);
    assert forall|p: int| 0 <= p < a implies #[trigger] match_at(Marker::Link, b, p) is None by {
        if stands_at(b, w, p) {
            lemma_stands_bytes(b, w, p);
            if p + 4 <= a {
                lemma_stands_in_part(b, w, p, 0, a);
                assert(b.subrange(0, a) =~= x);
            } else {
                assert(b[p + (a - p)] == w[a - p]);
                assert(b[a] == h[0]);
            }
        }
        reveal(link_at);
    }
}

/// A link begins with its scheme.
proof fn lemma_link_here(x: Seq<u8>, safe: bool, u: Seq<u8>, end: int)
    requires
        ({
            let b = x + encode_utf8(scheme(safe)) + u;
            let host = x.len() + encode_utf8(scheme(safe)).len();
            skip_link(b, host as int) == end && host < end
        }),
    ensures
        match_at(Marker::Link, x + encode_utf8(scheme(safe)) + u, x.len() as int) == Some(
            (end, None::<(int, int)>),
        ),
{
    let h = encode_utf8(scheme(safe));
    let b = x + h + u;
    let a = x.len() as int;
    let w = encode_utf8("http"@);
    let c = encode_utf8("://"@);
    lemma_scheme_bytes(safe);
    let k = if safe {
        5int
    } else {
        4
    };
    assert(b.subrange(a, a + 4) =~= h.subrange(0, 4));
    assert(stands_at(b, w, a));
    assert(b[a + 4] == h[4]);
    assert(skip_one(b, a + 4, 0x73) == a + k);
    assert(b.subrange(a + k, a + k + 3) =~= h.subrange(k, k + 3));
    assert(stands_at(b, c, a + k));
    reveal(link_at);
}

/// The first link of a text begins with its scheme and runs up to the first white space, quote
/// or bracket behind it, or to the end of the text.
pub proof fn links_run_to_their_end(
    pre: Seq<char>,
    safe: bool,
    path: Seq<char>,
    post: Seq<char>,
)
    requires
        !occurs(encode_utf8(pre), encode_utf8("http"@)),
        path.len() > 0,
        forall|k: int| 0 <= k < path.len() ==> !ends_link(#[trigger] path[k]),
        post.len() > 0 ==> ends_link(post[0]),
    ensures
        ({
            let b = encode_utf8(pre + scheme(safe) + path + post);
            let marks = spans(Marker::Link, b);
            &&& marks.len() > 0
            &&& b.subrange(marks[0].start, marks[0].end) == encode_utf8(scheme(safe) + path)
            &&& decode_utf8(b.subrange(marks[0].start, marks[0].end)) == scheme(safe) + path
            &&& marks[0].start == encode_utf8(pre).len()
        }),
{
    let x = encode_utf8(pre);
    let h = encode_utf8(scheme(safe));
    let q = encode_utf8(path);
    let r = encode_utf8(post);
    lemma_encode_concat(pre, scheme(safe));
    lemma_encode_concat(pre + scheme(safe), path);
    lemma_encode_concat(pre + scheme(safe) + path, post);
    lemma_encode_concat(path, post);
    lemma_encode_concat(scheme(safe), path);
    let b = encode_utf8(pre + scheme(safe) + path + post);
    assert(b == x + h + q + r);
    let a = x.len() as int;
    let host = a + h.len();
    let end = host + q.len();
    assert(b =~= x + h + (q + r));
    lemma_before_link(x, safe, q + r);
    lemma_spans_skip(Marker::Link, b, 0, a);
    assert(b.skip(host) =~= q + r);
    let s = path + post;
    assert forall|i: int| 0 <= i < path.len() implies !ends_link(#[trigger] s[i]) by {
        assert(s[i] == path[i]);
    }
    lemma_link_run(b, host, s, path.len() as int);
    assert(s.skip(path.len() as int) =~= post);
    assert(b.skip(skip_link(b, host)).len() == r.len());
    assert(skip_link(b, host) == end);
    assert(q.len() > 0) by {
        encode_utf8_first_scalar(path);
        char_is_scalar(path[0]);
    }
    lemma_link_here(x, safe, q + r, end);
    lemma_span_step(Marker::Link, b, a, end, None);
    assert(b.subrange(a, end) =~= h + q);
    encode_utf8_decode_utf8(scheme(safe) + path);
}

// ---------------------------------------------------------------------------
// Parameters
// ---------------------------------------------------------------------------

/// What stands before the name in the tag of a parameter, with a quote or without.
pub open spec fn parameter_head(quoted: bool) -> Seq<char> {
    if quoted {
        "<parameter=\""@
    } else {
        "<parameter="@
    }
}

/// What stands behind the name in the tag of a parameter, with a quote or without.
pub open spec fn parameter_tail(quoted: bool) -> Seq<char> {
    if quoted {
        "\">"@
    } else {
        ">"@
    }
}

/// The tag of a parameter, with its name in quotes or not.
pub open spec fn parameter_tag(name: Seq<char>, quoted: bool) -> Seq<char> {
    parameter_head(quoted) + name + parameter_tail(quoted)
}

proof fn lemma_parameter_bytes(quoted: bool)
    ensures
        ({
            let f = encode_utf8("<parameter"@);
            let head = encode_utf8(parameter_head(quoted));
            let tail = encode_utf8(parameter_tail(quoted));
            let q = if quoted {
                1int
            } else {
                0
            };
            &&& f.len() == 10 && head.len() == 11 + q && tail.len() == 1 + q
            &&& f[0] == 0x3c
            &&& forall|k: int| 0 < k < 10 ==> #[trigger] f[k] != 0x3c
            &&& head.subrange(0, 10) == f
            &&& head[10] == 0x3d && tail[q] == 0x3e
            &&& quoted ==> head[11] == 0x22 && tail[0] == 0x22
            &&& forall|k: int| 0 < k < head.len() ==> #[trigger] head[k] != 0x3c
            &&& forall|k: int| 0 <= k < tail.len() ==> #[trigger] tail[k] != 0x3c
        }),
{
    reveal_strlit("<parameter");
    reveal_strlit("<parameter=");
    reveal_strlit("<parameter=\"");
    reveal_strlit(">");
    reveal_strlit("\">");
    lemma_ascii_bytes("<parameter"@);
    lemma_ascii_bytes("<parameter="@);
    lemma_ascii_bytes("<parameter=\""@);
    lemma_ascii_bytes(">"@);
    lemma_ascii_bytes("\">"@);
    let f = encode_utf8("<parameter"@);
    if quoted {
        assert(encode_utf8("<parameter=\""@).subrange(0, 10) =~= f);
    } else {
        assert(encode_utf8("<parameter="@).subrange(0, 10) =~= f);
    }
}

/// The usual tag of a parameter, wherever it stands, is the tag of a parameter of its name.
proof fn lemma_usual_parameter(x: Seq<u8>, name: Seq<char>, quoted: bool, r: Seq<u8>)
    requires
        is_function_name(name),
    ensures
        ({
            let t = encode_utf8(parameter_tag(name, quoted));
            let b = x + t + r;
            let a = x.len() as int;
            let from = a + 11 + if quoted {
                1int
            } else {
                0
            };
            &&& tag_at(b, "<parameter"@, a) == Some(
                (a + t.len(), Some((from, from + encode_utf8(name).len()))),
            )
            &&& b.subrange(from, from + encode_utf8(name).len()) == encode_utf8(name)
            &&& t.len() > 10
            &&& t[0] == 0x3c
            &&& forall|k: int| 0 < k < t.len() ==> #[trigger] t[k] != 0x3c
        }),
{
    lemma_function_name(name);
    lemma_parameter_bytes(quoted);
    let head = parameter_head(quoted);
    let tail = parameter_tail(quoted);
    lemma_encode_concat(head, name);
    lemma_encode_concat(head + name, tail);
    let hb = encode_utf8(head);
    let w = encode_utf8(name);
    let z = encode_utf8(tail);
    let t = encode_utf8(parameter_tag(name, quoted));
    assert(t == hb + w + z);
    let b = x + t + r;
    let a = x.len() as int;
    let n = w.len() as int;
    let q = if quoted {
        1int
    } else {
        0
    };
    let from = a + 11 + q;
    let f = encode_utf8("<parameter"@);
    assert(b.subrange(from, from + n) =~= w);
    assert(b.subrange(a, a + 10) =~= hb.subrange(0, 10));
    assert(stands_at(b, f, a));
    assert(b[a + 10] == hb[10]);
    lemma_ascii_char(b, a + 10);
    assert(skip_white(b, a + 10) == a + 10);
    if quoted {
        assert(b[a + 11] == hb[11]);
    } else {
        assert(b[a + 11] == w[0]);
    }
    lemma_ascii_char(b, a + 11);
    assert(skip_white(b, a + 11) == a + 11);
    assert(b[from] == w[0]);
    assert(skip_one(b, a + 11, 0x22) == from);
    assert forall|k: int| from <= k < from + n implies is_name_byte(#[trigger] b[k]) by {
        assert(b[k] == w[k - from]);
    }
    assert(b[from + n] == z[0]);
    lemma_name_run(b, from, from + n);
    let close = from + n + q;
    assert(b[close] == z[q]);
    assert(skip_one(b, from + n, 0x22) == close);
    lemma_ascii_char(b, close);
    assert(skip_white(b, close) == close);
    assert(tag_at(b, "<parameter"@, a) == Some((close + 1, Some((from, from + n))))) by {
        reveal(tag_at);
    }
    assert forall|k: int| 0 < k < t.len() implies #[trigger] t[k] != 0x3c by {
        let i = k - hb.len();
        if i < 0 {
            assert(t[k] == hb[k]);
            assert(hb[k] != 0x3c);
        } else if i < n {
            assert(t[k] == w[i]);
            assert(is_name_byte(w[i]));
        } else {
            assert(t[k] == z[i - n]);
            assert(z[i - n] != 0x3c);
        }
    }
}

/// A function block with one parameter is a call with one argument: under the name in the tag,
/// the value behind it, read as the JSON that it is or else as the text that it is.
pub proof fn a_parameter_is_an_argument(
    raw_name: Seq<char>,
    pre: Seq<char>,
    name: Seq<char>,
    quoted: bool,
    rest: Seq<char>,
    registry: Map<Seq<char>, Seq<char>>,
)
    requires
        is_function_name(name),
        !occurs(encode_utf8(pre), encode_utf8("<parameter"@)),
        !occurs(encode_utf8(rest), encode_utf8("<parameter"@)),
    ensures
        ({
            let body = encode_utf8(pre + parameter_tag(name, quoted) + rest);
            let value = parameter_text(rest);
            function_call(raw_name, body, registry).arguments == JsonView::Object(
                Map::empty().insert(
                    name,
                    match json_parse(encode_utf8(value)) {
                        Ok(j) => j,
                        Err(_) => JsonView::Str(value),
                    },
                ),
            )
        }),
{
    let x = encode_utf8(pre);
    let t = encode_utf8(parameter_tag(name, quoted));
    let r = encode_utf8(rest);
    lemma_encode_concat(pre, parameter_tag(name, quoted));
    lemma_encode_concat(pre + parameter_tag(name, quoted), rest);
    let b = encode_utf8(pre + parameter_tag(name, quoted) + rest);
    assert(b == x + t + r);
    let f = encode_utf8("<parameter"@);
    let a = x.len() as int;
    let end = a + t.len();
    let len = b.len() as int;
    lemma_parameter_bytes(quoted);
    lemma_usual_parameter(x, name, quoted, r);
    let m = Marker::ParameterOpen;
    assert forall|p: int| 0 <= p < a || end <= p < len implies #[trigger] match_at(m, b, p)
        is None by {
        reveal(tag_at);
        if stands_at(b, f, p) {
            lemma_stands_bytes(b, f, p);
            if p + 10 <= a {
                lemma_stands_in_part(b, f, p, 0, a);
                assert(b.subrange(0, a) =~= x);
            } else if p < a {
                assert(b[p + (a - p)] == f[a - p]);
                assert(b[a] == t[0]);
            } else {
                lemma_stands_in_part(b, f, p, end, len);
                assert(b.subrange(end, len) =~= r);
            }
        }
    }
    let mark = SpanView { start: a, end, name: (tag_at(b, "<parameter"@, a)->0).1 };
    lemma_lone_mark(m, b, mark, len);
    assert(spans_from(m, b, len) =~= Seq::<SpanView>::empty());
    let tags = spans(m, b);
    assert(tags =~= seq![mark]);
    encode_utf8_decode_utf8(name);
    encode_utf8_decode_utf8(rest);
    assert(b.subrange(end, len) =~= r);
    assert(name_text(b, tags[0]) == name);
    parameters_are_the_arguments(raw_name, b, 0, parameter_text(rest), registry);
    let arguments = function_call(raw_name, b, registry).arguments;
    let got = arguments->Object_0;
    let want = Map::<Seq<char>, JsonView>::empty().insert(name, arguments.get(name)->0);
    assert forall|key: Seq<char>| got.contains_key(key) <==> want.contains_key(key) by {
        if got.contains_key(key) {
            assert(arguments.get(key) is Some);
            let k = choose|k: int| 0 <= k < tags.len() && name_text(b, #[trigger] tags[k]) == key;
        }
    }
    assert(got =~= want);
}

/// A link ends at white space, at a quote of either kind, at an angle bracket, and at a closing
/// bracket, and at nothing else.
pub proof fn links_end_at_quotes_and_brackets(c: char)
    ensures
        c == '"' || c == '\'' || c == '<' || c == '>' || c == ')' || c == ']' ==> ends_link(c),
        c == ' ' || c == '\n' || c == '\t' || c == '\r' ==> ends_link(c),
        'a' <= c <= 'z' || 'A' <= c <= 'Z' || '0' <= c <= '9' ==> !ends_link(c),
        c == '/' || c == '.' || c == ':' || c == '?' || c == '&' || c == '=' || c == '%' || c == '-'
            || c == '_' || c == '~' || c == '#' || c == '+' || c == ',' || c == '(' || c == '['
            ==> !ends_link(c),
{
}

} // verus!
