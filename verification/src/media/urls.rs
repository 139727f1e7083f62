//! The links to images and videos in an answer.

use crate::media::kind::MediaKind;
use crate::text::{
    before_first, char_vec, contains_text, ends_in, ends_with_text, lower, lower_text, occurs,
    same_text, slice_text, text_before_first, text_between, texts,
};
use crate::toolcall::blocks::lemma_next_start;
use crate::toolcall::markers::{find_marks, spans, Marker, Span, SpanView};
use vstd::prelude::*;
use vstd::utf8::*;

verus! {

/// A character that belongs to the sentence around a link, not to the link.
pub open spec fn is_sentence_end(c: char) -> bool {
    c == '.' || c == ',' || c == ')' || c == ']'
}

/// A link without the end of the sentence that it stands in.
pub open spec fn bare_link(u: Seq<char>) -> Seq<char>
    decreases u.len(),
{
    if u.len() > 0 && is_sentence_end(u.last()) {
        bare_link(u.drop_last())
    } else {
        u
    }
}

/// A link, in lower case, that leads to an image or a video.
pub open spec fn leads_to(low: Seq<char>, kind: MediaKind) -> bool {
    match kind {
        MediaKind::Image => {
            ||| occurs(low, "cdn.qwenlm.ai"@)
            ||| occurs(low, "alicdn.com"@)
            ||| occurs(low, "/t2i/"@)
            ||| occurs(low, ".png"@)
            ||| occurs(low, ".jpg"@)
            ||| occurs(low, ".jpeg"@)
            ||| occurs(low, ".webp"@)
            ||| occurs(low, ".gif"@)
        },
        MediaKind::Video => {
            ||| occurs(low, "/t2v/"@)
            ||| occurs(low, "cdn.qwenlm.ai"@)
            ||| occurs(low, ".mp4"@)
            ||| occurs(low, ".webm"@)
            ||| occurs(low, ".mov"@)
        },
    }
}

/// The text of a mark.
pub open spec fn mark_text(b: Seq<u8>, s: SpanView) -> Seq<char> {
    decode_utf8(b.subrange(s.start, s.end))
}

/// The links of a kind among the marks, each once, in the order in which they first stand.
pub open spec fn links_among(b: Seq<u8>, marks: Seq<SpanView>, kind: MediaKind) -> Seq<Seq<char>>
    decreases marks.len(),
{
    if marks.len() == 0 {
        Seq::empty()
    } else {
        let seen = links_among(b, marks.drop_last(), kind);
        let u = bare_link(mark_text(b, marks.last()));
        if leads_to(lower(u), kind) && !seen.contains(u) {
            seen.push(u)
        } else {
            seen
        }
    }
}

/// The links of a kind in a text.
pub open spec fn links(text: Seq<char>, kind: MediaKind) -> Seq<Seq<char>> {
    links_among(encode_utf8(text), spans(Marker::Link, encode_utf8(text)), kind)
}

fn cut_sentence_end(u: &str) -> (r: String)
    ensures
        r@ == bare_link(u@),
{
    let chars = char_vec(u);
    let mut n: usize = chars.len();
    proof {
        assert(u@.take(n as int) =~= u@);
    }
    while n > 0 && (chars[n - 1] == '.' || chars[n - 1] == ',' || chars[n - 1] == ')' || chars[n
        - 1] == ']')
        invariant
            n <= chars@.len(),
            chars@ == u@,
            bare_link(u@) == bare_link(u@.take(n as int)),
        decreases n,
    {
        proof {
            assert(u@.take(n as int).drop_last() =~= u@.take(n as int - 1));
        }
        n -= 1;
    }
    let r = text_between(&chars, 0, n);
    proof {
        assert(r@ =~= u@.take(n as int));
    }
    r
}

fn is_link_to(low: &str, kind: MediaKind) -> (r: bool)
    ensures
        r == leads_to(low@, kind),
{
    match kind {
        MediaKind::Image => contains_text(low, "cdn.qwenlm.ai") || contains_text(low, "alicdn.com")
            || contains_text(low, "/t2i/") || contains_text(low, ".png") || contains_text(
            low,
            ".jpg",
        ) || contains_text(low, ".jpeg") || contains_text(low, ".webp") || contains_text(
            low,
            ".gif",
        ),
        MediaKind::Video => contains_text(low, "/t2v/") || contains_text(low, "cdn.qwenlm.ai")
            || contains_text(low, ".mp4") || contains_text(low, ".webm") || contains_text(
            low,
            ".mov",
        ),
    }
}

fn holds_text(seen: &Vec<String>, u: &str) -> (r: bool)
    ensures
        r == texts(seen@).contains(u@),
{
    let n: usize = seen.len();
    let ghost all_texts = texts(seen@);
    let mut i: usize = 0;
    while i < n
        invariant
            n == seen@.len(),
            all_texts == texts(seen@),
            i <= n,
            forall|k: int| 0 <= k < i ==> #[trigger] all_texts[k] != u@,
        decreases n - i,
    {
        proof {
            assert(all_texts[i as int] == seen@[i as int]@);
        }
        if same_text(seen[i].as_str(), u) {
            return true;
        }
        i += 1;
    }
    false
}

/// The links to images or to videos in an answer, each once, in the order in which they first
/// stand.
pub fn scrape_urls(text: &str, kind: MediaKind) -> (r: Vec<String>)
    ensures
        texts(r@) == links(text@, kind),
{
    let ghost b = encode_utf8(text@);
    let ghost all = spans(Marker::Link, b);
    let marks = find_marks(Marker::Link, text);
    let n: usize = marks.len();
    let mut seen: Vec<String> = Vec::new();
    proof {
        encode_utf8_valid_utf8(text@);
        assert(n == all.len());
        assert(texts(seen@) =~= links_among(b, all.take(0), kind));
    }
    let mut i: usize = 0;
    while i < n
        invariant
            valid_utf8(b),
            b == encode_utf8(text@),
            all == spans(Marker::Link, b),
            n == marks@.len(),
            n == all.len(),
            marks@.map_values(|s: Span| s@) == all,
            i <= n,
            texts(seen@) == links_among(b, all.take(i as int), kind),
        decreases n - i,
    {
        proof {
            lemma_next_start(Marker::Link, b, i as int);
            assert(all[i as int] == marks@[i as int]@);
            assert(all.take(i as int + 1).drop_last() =~= all.take(i as int));
            assert(all.take(i as int + 1).last() == all[i as int]);
        }
        let u = cut_sentence_end(slice_text(text, marks[i].start, marks[i].end));
        let low = lower_text(u.as_str());
        if is_link_to(low.as_str(), kind) && !holds_text(&seen, u.as_str()) {
            let ghost before = texts(seen@);
            seen.push(u);
            proof {
                assert(texts(seen@) =~= before.push(u@));
            }
        }
        i += 1;
    }
    proof {
        assert(all.take(n as int) =~= all);
    }
    seen
}

/// No link is found twice.
pub proof fn links_are_distinct(b: Seq<u8>, marks: Seq<SpanView>, kind: MediaKind)
    ensures
        links_among(b, marks, kind).no_duplicates(),
        forall|i: int|
            0 <= i < links_among(b, marks, kind).len() ==> leads_to(
                lower(#[trigger] links_among(b, marks, kind)[i]),
                kind,
            ),
    decreases marks.len(),
{
    if marks.len() > 0 {
        links_are_distinct(b, marks.drop_last(), kind);
        let seen = links_among(b, marks.drop_last(), kind);
        let all = links_among(b, marks, kind);
        assert forall|i: int, j: int|
            0 <= i < all.len() && 0 <= j < all.len() && i != j implies all[i] != all[j] by {
            if i == seen.len() {
                assert(seen.contains(seen[j]));
            } else if j == seen.len() {
                assert(seen.contains(seen[i]));
            }
        }
        assert forall|i: int| 0 <= i < all.len() implies leads_to(
            lower(#[trigger] all[i]),
            kind,
        ) by {
            if i < seen.len() {
                assert(all[i] == seen[i]);
            }
        }
    }
}

/// The ending of the file that a link leads to: the one that the link has before its query,
/// where it is a known one, else the usual one of the kind.
pub open spec fn ending(url: Seq<char>, kind: MediaKind) -> Seq<char> {
    let low = lower(before_first(url, '?'));
    if ends_in(low, ".png"@) {
        "png"@
    } else if ends_in(low, ".jpg"@) {
        "jpg"@
    } else if ends_in(low, ".jpeg"@) {
        "jpeg"@
    } else if ends_in(low, ".webp"@) {
        "webp"@
    } else if ends_in(low, ".gif"@) {
        "gif"@
    } else if ends_in(low, ".mp4"@) {
        "mp4"@
    } else if ends_in(low, ".webm"@) {
        "webm"@
    } else if ends_in(low, ".mov"@) {
        "mov"@
    } else {
        kind.spec_default_ext()
    }
}

/// The ending of the file that a link leads to.
pub fn guess_ext(url: &str, kind: MediaKind) -> (r: &'static str)
    ensures
        r@ == ending(url@, kind),
{
    let low = lower_text(text_before_first(url, '?').as_str());
    let low = low.as_str();
    if ends_with_text(low, ".png") {
        "png"
    } else if ends_with_text(low, ".jpg") {
        "jpg"
    } else if ends_with_text(low, ".jpeg") {
        "jpeg"
    } else if ends_with_text(low, ".webp") {
        "webp"
    } else if ends_with_text(low, ".gif") {
        "gif"
    } else if ends_with_text(low, ".mp4") {
        "mp4"
    } else if ends_with_text(low, ".webm") {
        "webm"
    } else if ends_with_text(low, ".mov") {
        "mov"
    } else {
        kind.default_ext()
    }
}

} // verus!
