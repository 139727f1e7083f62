//! Scanning bytes for JSON objects.

use crate::text::{find, find_from, stands_at};
use vstd::prelude::*;

verus! {

/// Where the object ends whose text is read from `i` on, `depth` braces deep; `in_str` inside
/// a string literal, `escape` right after a backslash in it. A brace inside a string literal
/// does not count.
pub open spec fn scan_from(
    b: Seq<u8>,
    i: int,
    depth: int,
    in_str: bool,
    escape: bool,
) -> Option<int>
    decreases b.len() - i,
{
    if i < 0 || i >= b.len() {
        None
    } else if in_str {
        if escape {
            scan_from(b, i + 1, depth, true, false)
        } else if b[i] == 0x5c {
            scan_from(b, i + 1, depth, true, true)
        } else if b[i] == 0x22 {
            scan_from(b, i + 1, depth, false, false)
        } else {
            scan_from(b, i + 1, depth, true, false)
        }
    } else if b[i] == 0x22 {
        scan_from(b, i + 1, depth, true, false)
    } else if b[i] == 0x7b {
        scan_from(b, i + 1, depth + 1, false, false)
    } else if b[i] == 0x7d {
        if depth == 1 {
            Some(i)
        } else {
            scan_from(b, i + 1, depth - 1, false, false)
        }
    } else {
        scan_from(b, i + 1, depth, false, false)
    }
}

/// Where the object that begins at `start` ends, with its closing brace.
pub open spec fn object_end(b: Seq<u8>, start: int) -> Option<int> {
    if 0 <= start < b.len() && b[start] == 0x7b {
        scan_from(b, start, 0, false, false)
    } else {
        None
    }
}

/// The objects that stand one after the other between `i` and `end`, each with its first and
/// its last byte, up to the first one that is not closed.
pub open spec fn objects_between(b: Seq<u8>, i: int, end: int) -> Seq<(int, int)>
    decreases end - i,
{
    if i >= end {
        Seq::empty()
    } else if b[i] == 0x7b {
        match object_end(b.take(end), i) {
            Some(e) => if i <= e < end {
                seq![(i, e)] + objects_between(b, e + 1, end)
            } else {
                Seq::empty()
            },
            None => Seq::empty(),
        }
    } else {
        objects_between(b, i + 1, end)
    }
}

/// A pair of byte offsets as integers.
pub open spec fn pair_view(p: (usize, usize)) -> (int, int) {
    (p.0 as int, p.1 as int)
}

/// An object that ends does so at a closing brace, not before it began.
pub proof fn lemma_scan_end(b: Seq<u8>, i: int, depth: int, in_str: bool, escape: bool)
    requires
        0 <= i,
    ensures
        scan_from(b, i, depth, in_str, escape) matches Some(e) ==> i <= e < b.len() && b[e]
            == 0x7d,
    decreases b.len() - i,
{
    if i < b.len() {
        let c = b[i];
        if in_str {
            if escape {
                lemma_scan_end(b, i + 1, depth, true, false);
            } else if c == 0x5c {
                lemma_scan_end(b, i + 1, depth, true, true);
            } else if c == 0x22 {
                lemma_scan_end(b, i + 1, depth, false, false);
            } else {
                lemma_scan_end(b, i + 1, depth, true, false);
            }
        } else if c == 0x22 {
            lemma_scan_end(b, i + 1, depth, true, false);
        } else if c == 0x7b {
            lemma_scan_end(b, i + 1, depth + 1, false, false);
        } else if c == 0x7d {
            if depth != 1 {
                lemma_scan_end(b, i + 1, depth - 1, false, false);
            }
        } else {
            lemma_scan_end(b, i + 1, depth, false, false);
        }
    }
}

/// Whether a string literal is open before `i`, and whether a backslash in it has just been
/// read, when the text is read from `start` on.
pub open spec fn literal_at(b: Seq<u8>, start: int, i: int) -> (bool, bool)
    decreases i - start,
{
    if i <= start {
        (false, false)
    } else {
        let (open, escaped) = literal_at(b, start, i - 1);
        let c = b[i - 1];
        if open {
            (escaped || c != 0x22, !escaped && c == 0x5c)
        } else {
            (c == 0x22, false)
        }
    }
}

/// The byte at `i` is the brace `c` and stands outside string literals.
pub open spec fn brace_at(b: Seq<u8>, start: int, i: int, c: u8) -> bool {
    b[i] == c && !literal_at(b, start, i).0
}

/// How many more braces open than close between `start` and `i`, outside string literals.
pub open spec fn braces_open(b: Seq<u8>, start: int, i: int) -> int
    decreases i - start,
{
    if i <= start {
        0
    } else {
        braces_open(b, start, i - 1) + (if brace_at(b, start, i - 1, 0x7b) {
            1int
        } else if brace_at(b, start, i - 1, 0x7d) {
            -1
        } else {
            0
        })
    }
}

/// An object can end at `e`: a brace closes there outside string literals, and with it as many
/// have closed as have opened.
pub open spec fn balanced_at(b: Seq<u8>, start: int, e: int) -> bool {
    brace_at(b, start, e, 0x7d) && braces_open(b, start, e + 1) == 0
}

proof fn lemma_scan_balance(b: Seq<u8>, start: int, i: int)
    requires
        0 <= start <= i <= b.len(),
    ensures
        match scan_from(
            b,
            i,
            braces_open(b, start, i),
            literal_at(b, start, i).0,
            literal_at(b, start, i).1,
        ) {
            Some(e) => i <= e < b.len() && balanced_at(b, start, e) && forall|k: int|
                i <= k < e ==> !#[trigger] balanced_at(b, start, k),
            None => forall|k: int|
                i <= k < b.len() ==> !#[trigger] balanced_at(b, start, k),
        },
    decreases b.len() - i,
{
    if i < b.len() {
        lemma_escapes_in_literals(b, start, i);
        lemma_scan_balance(b, start, i + 1);
    }
}

/// A backslash counts only in a literal.
proof fn lemma_escapes_in_literals(b: Seq<u8>, start: int, i: int)
    ensures
        literal_at(b, start, i).1 ==> literal_at(b, start, i).0,
    decreases i - start,
{
    if i > start {
        lemma_escapes_in_literals(b, start, i - 1);
    }
}

/// An object ends at the first closing brace outside string literals at which as many braces
/// have closed as have opened; where there is none, it is not closed.
pub proof fn objects_end_where_braces_balance(b: Seq<u8>, start: int)
    requires
        0 <= start < b.len(),
        b[start] == 0x7b,
    ensures
        match object_end(b, start) {
            Some(e) => start <= e < b.len() && balanced_at(b, start, e) && forall|k: int|
                start <= k < e ==> !#[trigger] balanced_at(b, start, k),
            None => forall|k: int|
                start <= k < b.len() ==> !#[trigger] balanced_at(b, start, k),
        },
{
    lemma_scan_balance(b, start, start);
}

/// What follows an object does not change where it ends: an end that is found in the
/// beginning of a text is the end in the whole of it.
pub proof fn object_end_ignores_what_follows(
    b: Seq<u8>,
    more: Seq<u8>,
    i: int,
    depth: int,
    in_str: bool,
    escape: bool,
)
    requires
        0 <= i,
        scan_from(b, i, depth, in_str, escape) is Some,
    ensures
        scan_from(b + more, i, depth, in_str, escape) == scan_from(b, i, depth, in_str, escape),
    decreases b.len() - i,
{
    let t = b + more;
    let c = b[i];
    assert(t[i] == c);
    if in_str {
        if escape {
            object_end_ignores_what_follows(b, more, i + 1, depth, true, false);
        } else if c == 0x5c {
            object_end_ignores_what_follows(b, more, i + 1, depth, true, true);
        } else if c == 0x22 {
            object_end_ignores_what_follows(b, more, i + 1, depth, false, false);
        } else {
            object_end_ignores_what_follows(b, more, i + 1, depth, true, false);
        }
    } else if c == 0x22 {
        object_end_ignores_what_follows(b, more, i + 1, depth, true, false);
    } else if c == 0x7b {
        object_end_ignores_what_follows(b, more, i + 1, depth + 1, false, false);
    } else if c == 0x7d {
        if depth != 1 {
            object_end_ignores_what_follows(b, more, i + 1, depth - 1, false, false);
        }
    } else {
        object_end_ignores_what_follows(b, more, i + 1, depth, false, false);
    }
}

/// The place behind the closing quote of the string literal that is read from `i` on.
pub open spec fn literal_end(b: Seq<u8>, i: int, escape: bool) -> Option<int>
    decreases b.len() - i,
{
    if i < 0 || i >= b.len() {
        None
    } else if escape {
        literal_end(b, i + 1, false)
    } else if b[i] == 0x5c {
        literal_end(b, i + 1, true)
    } else if b[i] == 0x22 {
        Some(i + 1)
    } else {
        literal_end(b, i + 1, false)
    }
}

/// Braces in a string literal do not count: scanning on from within a literal is scanning on
/// behind it at the same depth, whatever stands in it.
pub proof fn braces_in_literals_do_not_count(b: Seq<u8>, i: int, depth: int, escape: bool)
    requires
        0 <= i,
    ensures
        scan_from(b, i, depth, true, escape) == match literal_end(b, i, escape) {
            Some(k) => scan_from(b, k, depth, false, false),
            None => None,
        },
    decreases b.len() - i,
{
    if i < b.len() {
        if escape {
            braces_in_literals_do_not_count(b, i + 1, depth, false);
        } else if b[i] == 0x5c {
            braces_in_literals_do_not_count(b, i + 1, depth, true);
        } else if b[i] != 0x22 {
            braces_in_literals_do_not_count(b, i + 1, depth, false);
        }
    }
}

/// The objects of a region lie in it, begin with a brace, end with a brace, and follow one
/// another.
pub proof fn lemma_objects_between(b: Seq<u8>, i: int, end: int)
    requires
        0 <= i,
        end <= b.len(),
    ensures
        forall|k: int|
            #![trigger objects_between(b, i, end)[k]]
            0 <= k < objects_between(b, i, end).len() ==> {
                let o = objects_between(b, i, end)[k];
                i <= o.0 <= o.1 < end && b[o.0] == 0x7b && b[o.1] == 0x7d
            },
        forall|k: int, l: int|
            #![trigger objects_between(b, i, end)[k], objects_between(b, i, end)[l]]
            0 <= k < l < objects_between(b, i, end).len() ==> objects_between(b, i, end)[k].1
                < objects_between(b, i, end)[l].0,
    decreases end - i,
{
    if i < end {
        if b[i] == 0x7b {
            lemma_scan_end(b.take(end), i, 0, false, false);
            match object_end(b.take(end), i) {
                Some(e) => {
                    lemma_objects_between(b, e + 1, end);
                    let rest = objects_between(b, e + 1, end);
                    let all = objects_between(b, i, end);
                    assert(all =~= seq![(i, e)] + rest);
                    assert forall|k: int| #![trigger all[k]] 0 <= k < all.len() implies {
                        let o = all[k];
                        i <= o.0 <= o.1 < end && b[o.0] == 0x7b && b[o.1] == 0x7d
                    } by {
                        if k > 0 {
                            assert(all[k] == rest[k - 1]);
                        }
                    }
                    assert forall|k: int, l: int|
                        #![trigger all[k], all[l]]
                        0 <= k < l < all.len() implies all[k].1 < all[l].0 by {
                        assert(all[l] == rest[l - 1]);
                        if k > 0 {
                            assert(all[k] == rest[k - 1]);
                        }
                    }
                },
                None => {
                    assert(objects_between(b, i, end) =~= Seq::empty());
                },
            }
        } else {
            lemma_objects_between(b, i + 1, end);
            assert(objects_between(b, i, end) == objects_between(b, i + 1, end));
        }
    } else {
        assert(objects_between(b, i, end) =~= Seq::empty());
    }
}

/// Where the object that begins at `start` ends, with its closing brace; `None` where there
/// is no object or it is not closed.
pub fn scan_json_object_end(bytes: &[u8], start: usize) -> (r: Option<usize>)
    ensures
        match r {
            Some(e) => object_end(bytes@, start as int) == Some(e as int) && start <= e
                < bytes@.len() && bytes@[e as int] == 0x7d,
            None => object_end(bytes@, start as int) is None,
        },
{
    let n: usize = bytes.len();
    if start >= n || bytes[start] != 0x7b {
        return None;
    }
    let mut depth: usize = 0;
    let mut in_str = false;
    let mut escape = false;
    let mut i: usize = start;
    while i < n
        invariant
            n == bytes@.len(),
            start <= i <= n,
            bytes@[start as int] == 0x7b,
            depth <= i - start,
            i > start && !in_str ==> depth >= 1,
            i > start && in_str ==> depth >= 1,
            i == start ==> depth == 0 && !in_str,
            object_end(bytes@, start as int) == scan_from(
                bytes@,
                i as int,
                depth as int,
                in_str,
                escape,
            ),
            escape ==> in_str,
        decreases n - i,
    {
        let c = bytes[i];
        if in_str {
            if escape {
                escape = false;
            } else if c == 0x5c {
                escape = true;
            } else if c == 0x22 {
                in_str = false;
            }
        } else if c == 0x22 {
            in_str = true;
        } else if c == 0x7b {
            depth += 1;
        } else if c == 0x7d {
            if depth == 1 {
                return Some(i);
            }
            depth -= 1;
        }
        i += 1;
    }
    None
}

/// The objects that stand one after the other in a region, each with its first and its last
/// byte; an object that is not closed ends the search.
pub fn split_json_objects(bytes: &[u8], region_start: usize, region_end: usize) -> (r: Vec<
    (usize, usize),
>)
    requires
        region_end <= bytes@.len(),
    ensures
        r@.map_values(|p: (usize, usize)| pair_view(p)) == objects_between(
            bytes@,
            region_start as int,
            region_end as int,
        ),
{
    let mut out: Vec<(usize, usize)> = Vec::new();
    let ghost all = objects_between(bytes@, region_start as int, region_end as int);
    let region: &[u8] = &bytes[0..region_end];
    proof {
        assert(region@ =~= bytes@.take(region_end as int));
        assert(out@.map_values(|p: (usize, usize)| pair_view(p)) + all =~= all);
    }
    let mut i: usize = region_start;
    while i < region_end
        invariant
            region_end <= bytes@.len(),
            region@ == bytes@.take(region_end as int),
            all == objects_between(bytes@, region_start as int, region_end as int),
            out@.map_values(|p: (usize, usize)| pair_view(p)) + objects_between(
                bytes@,
                i as int,
                region_end as int,
            ) == all,
        decreases region_end - i,
    {
        let ghost done = out@.map_values(|p: (usize, usize)| pair_view(p));
        if bytes[i] == 0x7b {
            match scan_json_object_end(region, i) {
                Some(e) => {
                    out.push((i, e));
                    proof {
                        let now = out@.map_values(|p: (usize, usize)| pair_view(p));
                        let rest = objects_between(bytes@, e + 1, region_end as int);
                        assert(now =~= done.push((i as int, e as int)));
                        assert(now + rest =~= done + (seq![(i as int, e as int)] + rest));
                    }
                    i = e + 1;
                },
                None => {
                    proof {
                        assert(objects_between(bytes@, i as int, region_end as int)
                            =~= Seq::empty());
                        assert(done + Seq::<(int, int)>::empty() =~= done);
                    }
                    return out;
                },
            }
        } else {
            i += 1;
        }
    }
    proof {
        let done = out@.map_values(|p: (usize, usize)| pair_view(p));
        assert(done + Seq::<(int, int)>::empty() =~= done);
    }
    out
}

/// The first index at which `needle` stands in `haystack`; an empty needle stands nowhere.
pub fn find_subslice(haystack: &[u8], needle: &[u8]) -> (r: Option<usize>)
    ensures
        match r {
            Some(i) => needle@.len() > 0 && find(haystack@, needle@) == Some(i as int)
                && stands_at(haystack@, needle@, i as int),
            None => needle@.len() == 0 || find(haystack@, needle@) is None,
        },
{
    let n: usize = needle.len();
    let m: usize = haystack.len();
    if n == 0 || m < n {
        return None;
    }
    let mut i: usize = 0;
    while i <= m - n
        invariant
            n == needle@.len(),
            m == haystack@.len(),
            0 < n <= m,
            i <= m - n + 1,
            find(haystack@, needle@) == find_from(haystack@, needle@, i as int),
        decreases m - n + 1 - i,
    {
        let mut k: usize = 0;
        while k < n && haystack[i + k] == needle[k]
            invariant
                n == needle@.len(),
                m == haystack@.len(),
                k <= n,
                i + n <= m,
                forall|j: int| 0 <= j < k ==> haystack@[i + j] == needle@[j],
            decreases n - k,
        {
            k += 1;
        }
        let ghost window = haystack@.subrange(i as int, i + n);
        if k == n {
            proof {
                assert(window =~= needle@);
            }
            return Some(i);
        }
        proof {
            assert(window[k as int] != needle@[k as int]);
        }
        i += 1;
    }
    None
}

} // verus!
