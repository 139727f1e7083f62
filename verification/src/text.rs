//! Text as sequences of characters and as UTF-8 bytes.
//!
//! Specifications speak of a string as its `Seq<char>`; offsets into a string are byte
//! offsets into its UTF-8 encoding, and every offset at which a string is cut is shown to
//! lie on a character boundary.

use vstd::prelude::*;
use vstd::string::StringExecFns;
use vstd::utf8::*;

verus! {

/// `String::push` appends one character.
pub assume_specification[ String::push ](s: &mut String, c: char)
    ensures
        final(s)@ == old(s)@.push(c),
;

/// What `str::to_lowercase` makes of a text.
pub uninterp spec fn unicode_lowercase(s: Seq<char>) -> Seq<char>;

/// `str::to_lowercase`. The result depends on the text alone; an ASCII text is lowered
/// letter by letter.
#[verifier::external_body]
fn std_to_lowercase(s: &str) -> (r: String)
    ensures
        is_ascii_chars(s@) ==> r@ == s@.map_values(|c: char| ascii_lower(c)),
        !is_ascii_chars(s@) ==> r@ == unicode_lowercase(s@),
{
    s.to_lowercase()
}

/// A text in lower case.
pub open spec fn lower(s: Seq<char>) -> Seq<char> {
    if is_ascii_chars(s) {
        s.map_values(|c: char| ascii_lower(c))
    } else {
        unicode_lowercase(s)
    }
}

/// A text in lower case.
pub fn lower_text(s: &str) -> (r: String)
    ensures
        r@ == lower(s@),
{
    std_to_lowercase(s)
}

/// The lower-case form of an ASCII letter; every other character is itself.
pub open spec fn ascii_lower(c: char) -> char {
    if 'A' <= c <= 'Z' {
        ((c as u8 + 32) as u8) as char
    } else {
        c
    }
}

/// The characters with the Unicode property `White_Space`.
pub open spec fn is_white(c: char) -> bool {
    let u = c as u32;
    ||| 0x09 <= u <= 0x0d
    ||| u == 0x20
    ||| u == 0x85
    ||| u == 0xa0
    ||| u == 0x1680
    ||| 0x2000 <= u <= 0x200a
    ||| u == 0x2028
    ||| u == 0x2029
    ||| u == 0x202f
    ||| u == 0x205f
    ||| u == 0x3000
}

/// `needle` stands in `hay` at index `i`.
pub open spec fn stands_at<T>(hay: Seq<T>, needle: Seq<T>, i: int) -> bool {
    0 <= i && i + needle.len() <= hay.len() && hay.subrange(i, i + needle.len()) == needle
}

/// `needle` stands somewhere in `hay`.
pub open spec fn occurs<T>(hay: Seq<T>, needle: Seq<T>) -> bool {
    exists|i: int| stands_at(hay, needle, i)
}

/// The first index at or after `from` at which `needle` stands in `hay`.
pub open spec fn find_from<T>(hay: Seq<T>, needle: Seq<T>, from: int) -> Option<int>
    decreases hay.len() + 1 - from,
{
    if from < 0 || from + needle.len() > hay.len() {
        None
    } else if stands_at(hay, needle, from) {
        Some(from)
    } else {
        find_from(hay, needle, from + 1)
    }
}

/// The first index at which `needle` stands in `hay`.
pub open spec fn find<T>(hay: Seq<T>, needle: Seq<T>) -> Option<int> {
    find_from(hay, needle, 0)
}

/// `s` begins with `prefix`.
pub open spec fn begins_with<T>(s: Seq<T>, prefix: Seq<T>) -> bool {
    stands_at(s, prefix, 0)
}

/// `s` ends with `suffix`.
pub open spec fn ends_in<T>(s: Seq<T>, suffix: Seq<T>) -> bool {
    stands_at(s, suffix, s.len() - suffix.len())
}

/// `s` without its leading white space.
pub open spec fn trim_front(s: Seq<char>) -> Seq<char>
    decreases s.len(),
{
    if s.len() > 0 && is_white(s[0]) {
        trim_front(s.subrange(1, s.len() as int))
    } else {
        s
    }
}

/// `s` without its trailing white space.
pub open spec fn trim_back(s: Seq<char>) -> Seq<char>
    decreases s.len(),
{
    if s.len() > 0 && is_white(s.last()) {
        trim_back(s.drop_last())
    } else {
        s
    }
}

/// `s` without the white space at its two ends.
pub open spec fn trimmed(s: Seq<char>) -> Seq<char> {
    trim_back(trim_front(s))
}

/// The index of the last occurrence of `c` in `s`.
pub open spec fn last_index(s: Seq<char>, c: char) -> Option<int>
    decreases s.len(),
{
    if s.len() == 0 {
        None
    } else if s.last() == c {
        Some(s.len() - 1)
    } else {
        last_index(s.drop_last(), c)
    }
}

/// What stands in `s` before the first `c`; all of `s` where there is none.
pub open spec fn before_first(s: Seq<char>, c: char) -> Seq<char> {
    match find(s, seq![c]) {
        Some(i) => s.take(i),
        None => s,
    }
}

/// What stands in `s` after the last `c`; all of `s` where there is none.
pub open spec fn after_last(s: Seq<char>, c: char) -> Seq<char> {
    match last_index(s, c) {
        Some(i) => s.skip(i + 1),
        None => s,
    }
}

/// The view of an optional string.
pub open spec fn opt_text(s: Option<&str>) -> Option<Seq<char>> {
    match s {
        Some(t) => Some(t@),
        None => None,
    }
}

/// The view of an optional owned string.
pub open spec fn opt_string(s: Option<String>) -> Option<Seq<char>> {
    match s {
        Some(t) => Some(t@),
        None => None,
    }
}

/// The views of a sequence of strings.
pub open spec fn texts(s: Seq<String>) -> Seq<Seq<char>> {
    s.map_values(|t: String| t@)
}

// ---------------------------------------------------------------------------
// Lemmas
// ---------------------------------------------------------------------------

/// What `find_from` returns is the first place at or after `from`.
pub proof fn lemma_find_from<T>(hay: Seq<T>, needle: Seq<T>, from: int)
    requires
        0 <= from,
    ensures
        match find_from(hay, needle, from) {
            Some(i) => from <= i && stands_at(hay, needle, i) && forall|j: int|
                from <= j < i ==> !stands_at(hay, needle, j),
            None => forall|j: int| from <= j ==> !stands_at(hay, needle, j),
        },
    decreases hay.len() + 1 - from,
{
    if from + needle.len() > hay.len() {
    } else if stands_at(hay, needle, from) {
    } else {
        lemma_find_from(hay, needle, from + 1);
    }
}

/// A needle occurs exactly where the search for it succeeds.
pub proof fn lemma_find_occurs<T>(hay: Seq<T>, needle: Seq<T>)
    ensures
        find(hay, needle) is Some <==> occurs(hay, needle),
{
    lemma_find_from(hay, needle, 0);
}

/// Equal encodings come from equal texts.
pub proof fn lemma_encode_injective(a: Seq<char>, b: Seq<char>)
    requires
        encode_utf8(a) == encode_utf8(b),
    ensures
        a == b,
{
    encode_utf8_decode_utf8(a);
    encode_utf8_decode_utf8(b);
}

/// Past an ASCII byte of a valid text there is a character boundary.
pub proof fn lemma_boundary_after_ascii(b: Seq<u8>, i: int)
    requires
        valid_utf8(b),
        0 <= i < b.len(),
        b[i] < 0x80,
    ensures
        is_char_boundary(b, i),
        is_char_boundary(b, i + 1),
    decreases b.len(),
{
    is_char_boundary_iff_not_is_continuation_byte(b, i);
    let n = length_of_first_scalar(b);
    if i == 0 {
        is_char_boundary_start_end_of_seq(pop_first_scalar(b));
    } else {
        assert(i >= n) by {
            if i < n {
                assert(is_continuation_byte(b[i]));
            }
        }
        lemma_boundary_after_ascii(pop_first_scalar(b), i - n);
    }
}

/// A byte that continues no character begins one.
pub proof fn lemma_boundary_at(b: Seq<u8>, i: int)
    requires
        valid_utf8(b),
        0 <= i <= b.len(),
        i < b.len() ==> !is_continuation_byte(b[i]),
    ensures
        is_char_boundary(b, i),
{
    if i < b.len() {
        is_char_boundary_iff_not_is_continuation_byte(b, i);
    } else {
        is_char_boundary_start_end_of_seq(b);
    }
}

/// A boundary of the whole text is a boundary of the part before a later boundary.
pub proof fn lemma_boundary_in_prefix(b: Seq<u8>, i: int, k: int)
    requires
        valid_utf8(b),
        0 <= i <= k <= b.len(),
        is_char_boundary(b, i),
        is_char_boundary(b, k),
    ensures
        valid_utf8(b.subrange(0, k)),
        is_char_boundary(b.subrange(0, k), i),
{
    valid_utf8_split(b, k);
    let p = b.subrange(0, k);
    if i == k {
        is_char_boundary_start_end_of_seq(p);
    } else {
        is_char_boundary_iff_not_is_continuation_byte(b, i);
        is_char_boundary_iff_not_is_continuation_byte(p, i);
    }
}

// ---------------------------------------------------------------------------
// Executable functions
// ---------------------------------------------------------------------------

/// Whether two texts are equal.
pub fn same_text(a: &str, b: &str) -> (r: bool)
    ensures
        r == (a@ == b@),
{
    let x = a.as_bytes();
    let y = b.as_bytes();
    if x.len() != y.len() {
        return false;
    }
    let n: usize = x.len();
    let mut i: usize = 0;
    while i < n
        invariant
            n == x@.len() == y@.len(),
            i <= n,
            x@ == encode_utf8(a@),
            y@ == encode_utf8(b@),
            forall|j: int| 0 <= j < i ==> x@[j] == y@[j],
        decreases n - i,
    {
        if x[i] != y[i] {
            return false;
        }
        i += 1;
    }
    proof {
        assert(x@ =~= y@);
        lemma_encode_injective(a@, b@);
    }
    true
}

/// The characters of a text.
pub fn char_vec(s: &str) -> (r: Vec<char>)
    ensures
        r@ == s@,
{
    let mut out: Vec<char> = Vec::new();
    for c in it: s.chars()
        invariant
            it.seq() == s@,
            out@ == s@.take(it.index() as int),
    {
        proof {
            assert(s@.take(it.index() as int + 1) =~= s@.take(it.index() as int).push(c));
        }
        out.push(c);
    }
    proof {
        assert(s@.take(s@.len() as int) =~= s@);
    }
    out
}

/// The lower-case form of an ASCII letter; every other character is itself.
pub fn ascii_lower_char(c: char) -> (r: char)
    ensures
        r == ascii_lower(c),
{
    if 'A' <= c && c <= 'Z' {
        (c as u8 + 32) as char
    } else {
        c
    }
}

/// Whether two texts are equal up to the case of ASCII letters.
pub open spec fn same_ignoring_case(a: Seq<char>, b: Seq<char>) -> bool {
    a.map_values(|c: char| ascii_lower(c)) == b.map_values(|c: char| ascii_lower(c))
}

/// Whether two texts are equal up to the case of ASCII letters.
pub fn eq_ignore_case(a: &str, b: &str) -> (r: bool)
    ensures
        r == same_ignoring_case(a@, b@),
{
    let x = char_vec(a);
    let y = char_vec(b);
    let ghost lx = a@.map_values(|c: char| ascii_lower(c));
    let ghost ly = b@.map_values(|c: char| ascii_lower(c));
    if x.len() != y.len() {
        proof {
            assert(lx.len() != ly.len());
        }
        return false;
    }
    let n: usize = x.len();
    let mut i: usize = 0;
    while i < n
        invariant
            x@ == a@,
            y@ == b@,
            n == x@.len() == y@.len(),
            i <= n,
            lx == a@.map_values(|c: char| ascii_lower(c)),
            ly == b@.map_values(|c: char| ascii_lower(c)),
            forall|j: int| 0 <= j < i ==> lx[j] == ly[j],
        decreases n - i,
    {
        if ascii_lower_char(x[i]) != ascii_lower_char(y[i]) {
            proof {
                assert(lx[i as int] != ly[i as int]);
            }
            return false;
        }
        proof {
            assert(lx[i as int] == ly[i as int]);
        }
        i += 1;
    }
    proof {
        assert(lx =~= ly);
    }
    true
}

/// The text made of the characters from `from` up to `to`.
pub fn text_between(chars: &[char], from: usize, to: usize) -> (r: String)
    requires
        from <= to <= chars@.len(),
    ensures
        r@ == chars@.subrange(from as int, to as int),
{
    let mut out = String::new();
    let mut i: usize = from;
    while i < to
        invariant
            from <= i <= to <= chars@.len(),
            out@ == chars@.subrange(from as int, i as int),
        decreases to - i,
    {
        out.push(chars[i]);
        proof {
            assert(chars@.subrange(from as int, i as int + 1) =~= chars@.subrange(
                from as int,
                i as int,
            ).push(chars@[i as int]));
        }
        i += 1;
    }
    out
}

/// Whether `needle` stands in `hay` at index `i`.
fn chars_stand_at(hay: &[char], needle: &[char], i: usize) -> (r: bool)
    requires
        i + needle@.len() <= hay@.len(),
    ensures
        r == stands_at(hay@, needle@, i as int),
{
    let n: usize = needle.len();
    let m: usize = hay.len();
    let mut k: usize = 0;
    while k < n
        invariant
            n == needle@.len(),
            m == hay@.len(),
            k <= n,
            i + n <= m,
            forall|j: int| 0 <= j < k ==> hay@[i + j] == needle@[j],
        decreases n - k,
    {
        if hay[i + k] != needle[k] {
            proof {
                assert(hay@.subrange(i as int, i + n)[k as int] != needle@[k as int]);
            }
            return false;
        }
        k += 1;
    }
    proof {
        assert(hay@.subrange(i as int, i + n) =~= needle@);
    }
    true
}

/// The first index at which `needle` stands in `hay`.
pub fn find_chars(hay: &[char], needle: &[char]) -> (r: Option<usize>)
    ensures
        match r {
            Some(i) => find(hay@, needle@) == Some(i as int),
            None => find(hay@, needle@) is None,
        },
{
    let n: usize = needle.len();
    let m: usize = hay.len();
    if n > m {
        return None;
    }
    let mut i: usize = 0;
    while i <= m - n
        invariant
            n == needle@.len(),
            m == hay@.len(),
            n <= m,
            i <= m - n + 1,
            find(hay@, needle@) == find_from(hay@, needle@, i as int),
        decreases m - n + 1 - i,
    {
        if chars_stand_at(hay, needle, i) {
            return Some(i);
        }
        if i == m - n {
            proof {
                assert(find_from(hay@, needle@, i as int + 1) is None);
            }
            return None;
        }
        i += 1;
    }
    None
}

/// Whether `needle` stands somewhere in `hay`.
pub fn contains_text(hay: &str, needle: &str) -> (r: bool)
    ensures
        r == occurs(hay@, needle@),
{
    let h = char_vec(hay);
    let n = char_vec(needle);
    let found = find_chars(&h, &n);
    proof {
        lemma_find_occurs(hay@, needle@);
    }
    found.is_some()
}

/// Whether `s` begins with `prefix`.
pub fn starts_with_text(s: &str, prefix: &str) -> (r: bool)
    ensures
        r == begins_with(s@, prefix@),
{
    let h = char_vec(s);
    let n = char_vec(prefix);
    if n.len() > h.len() {
        return false;
    }
    chars_stand_at(&h, &n, 0)
}

/// Whether `s` ends with `suffix`.
pub fn ends_with_text(s: &str, suffix: &str) -> (r: bool)
    ensures
        r == ends_in(s@, suffix@),
{
    let h = char_vec(s);
    let n = char_vec(suffix);
    if n.len() > h.len() {
        return false;
    }
    chars_stand_at(&h, &n, h.len() - n.len())
}

/// `s` without `prefix` at its front, if it begins with it.
pub fn strip_prefix_text(s: &str, prefix: &str) -> (r: Option<String>)
    ensures
        match r {
            Some(t) => begins_with(s@, prefix@) && t@ == s@.skip(prefix@.len() as int),
            None => !begins_with(s@, prefix@),
        },
{
    let h = char_vec(s);
    let n = char_vec(prefix);
    if n.len() > h.len() {
        return None;
    }
    if chars_stand_at(&h, &n, 0) {
        let t = text_between(&h, n.len(), h.len());
        proof {
            assert(s@.skip(prefix@.len() as int) =~= s@.subrange(
                prefix@.len() as int,
                s@.len() as int,
            ));
        }
        Some(t)
    } else {
        None
    }
}

/// Whether a character is white space.
pub fn is_white_char(c: char) -> (r: bool)
    ensures
        r == is_white(c),
{
    let u: u32 = c as u32;
    (0x09 <= u && u <= 0x0d) || u == 0x20 || u == 0x85 || u == 0xa0 || u == 0x1680 || (0x2000 <= u
        && u <= 0x200a) || u == 0x2028 || u == 0x2029 || u == 0x202f || u == 0x205f || u == 0x3000
}

/// `s` without the white space at its two ends.
pub fn trim_text(s: &str) -> (r: String)
    ensures
        r@ == trimmed(s@),
{
    let v = char_vec(s);
    let n: usize = v.len();
    let mut a: usize = 0;
    proof {
        assert(v@.subrange(0, n as int) =~= s@);
    }
    while a < n && is_white_char(v[a])
        invariant
            n == v@.len(),
            a <= n,
            trim_front(s@) == trim_front(v@.subrange(a as int, n as int)),
        decreases n - a,
    {
        proof {
            let t = v@.subrange(a as int, n as int);
            assert(t.subrange(1, t.len() as int) =~= v@.subrange(a as int + 1, n as int));
        }
        a += 1;
    }
    let mut z: usize = n;
    while a < z && is_white_char(v[z - 1])
        invariant
            n == v@.len(),
            a <= z <= n,
            trim_back(trim_front(s@)) == trim_back(v@.subrange(a as int, z as int)),
        decreases z,
    {
        proof {
            let t = v@.subrange(a as int, z as int);
            assert(t.drop_last() =~= v@.subrange(a as int, z as int - 1));
        }
        z -= 1;
    }
    text_between(&v, a, z)
}

/// Whether a text is empty once trimmed.
pub fn is_blank(s: &str) -> (r: bool)
    ensures
        r == (trimmed(s@).len() == 0),
{
    let t = trim_text(s);
    t.as_str().is_empty()
}

/// The index of the last `c`.
pub fn last_index_of(chars: &[char], c: char) -> (r: Option<usize>)
    ensures
        match r {
            Some(i) => i < chars@.len() && last_index(chars@, c) == Some(i as int),
            None => last_index(chars@, c) is None,
        },
{
    let mut z: usize = chars.len();
    proof {
        assert(chars@.take(z as int) =~= chars@);
    }
    while z > 0
        invariant
            z <= chars@.len(),
            last_index(chars@, c) == last_index(chars@.take(z as int), c),
        decreases z,
    {
        proof {
            assert(chars@.take(z as int).drop_last() =~= chars@.take(z as int - 1));
        }
        if chars[z - 1] == c {
            return Some(z - 1);
        }
        z -= 1;
    }
    None
}

/// What stands before the first `c`; the whole text where there is none.
pub fn text_before_first(s: &str, c: char) -> (r: String)
    ensures
        r@ == before_first(s@, c),
{
    let v = char_vec(s);
    let mut one: Vec<char> = Vec::new();
    one.push(c);
    proof {
        assert(one@ =~= seq![c]);
        lemma_find_from(v@, seq![c], 0);
    }
    match find_chars(&v, &one) {
        Some(i) => text_between(&v, 0, i),
        None => s.to_string(),
    }
}

/// What stands after the last `c`; the whole text where there is none.
pub fn text_after_last(s: &str, c: char) -> (r: String)
    ensures
        r@ == after_last(s@, c),
{
    let v = char_vec(s);
    let n: usize = v.len();
    match last_index_of(&v, c) {
        Some(i) => {
            let t = text_between(&v, i + 1, n);
            proof {
                assert(s@.skip(i as int + 1) =~= s@.subrange(i as int + 1, s@.len() as int));
            }
            t
        },
        None => s.to_string(),
    }
}

/// The part of a text between two byte offsets on character boundaries.
pub fn slice_text(s: &str, from: usize, to: usize) -> (r: &str)
    requires
        from <= to <= encode_utf8(s@).len(),
        is_char_boundary(encode_utf8(s@), from as int),
        is_char_boundary(encode_utf8(s@), to as int),
    ensures
        encode_utf8(r@) == encode_utf8(s@).subrange(from as int, to as int),
        r@ == decode_utf8(encode_utf8(s@).subrange(from as int, to as int)),
{
    let ghost b = encode_utf8(s@);
    proof {
        encode_utf8_valid_utf8(s@);
        lemma_boundary_in_prefix(b, from as int, to as int);
    }
    let head = s.split_at(to).0;
    let part = head.split_at(from).1;
    proof {
        assert(b.subrange(0, to as int).subrange(from as int, to as int) =~= b.subrange(
            from as int,
            to as int,
        ));
        encode_utf8_decode_utf8(part@);
    }
    part
}

/// The decimal digits of a number.
pub open spec fn decimal_digits(n: int) -> Seq<char>
    decreases n,
{
    if n < 10 {
        seq![(0x30 + n) as char]
    } else {
        decimal_digits(n / 10).push((0x30 + n % 10) as char)
    }
}

/// The decimal digits of a number.
pub fn decimal_text(n: u64) -> (r: String)
    ensures
        r@ == decimal_digits(n as int),
    decreases n,
{
    if n < 10 {
        let mut r = String::new();
        r.push((0x30 + n as u8) as char);
        proof {
            assert(r@ =~= decimal_digits(n as int));
        }
        r
    } else {
        let mut r = decimal_text(n / 10);
        r.push((0x30 + (n % 10) as u8) as char);
        r
    }
}

/// The pieces of a text between the places at which `c` stands.
pub open spec fn split_on(s: Seq<char>, c: char) -> Seq<Seq<char>>
    decreases s.len(),
{
    if s.len() == 0 {
        seq![Seq::empty()]
    } else {
        let head = split_on(s.drop_last(), c);
        if s.last() == c {
            head.push(Seq::empty())
        } else {
            head.drop_last().push(head.last().push(s.last()))
        }
    }
}

/// There is always a piece.
pub proof fn lemma_split_on(s: Seq<char>, c: char)
    ensures
        split_on(s, c).len() > 0,
    decreases s.len(),
{
    if s.len() > 0 {
        lemma_split_on(s.drop_last(), c);
    }
}

/// The pieces of a text between the places at which `c` stands.
pub fn split_text(s: &str, c: char) -> (r: Vec<String>)
    ensures
        texts(r@) == split_on(s@, c),
{
    let chars = char_vec(s);
    let n: usize = chars.len();
    let mut done: Vec<String> = Vec::new();
    let mut piece = String::new();
    let mut i: usize = 0;
    proof {
        assert(texts(done@).push(piece@) =~= split_on(s@.take(0), c));
    }
    while i < n
        invariant
            n == chars@.len(),
            chars@ == s@,
            i <= n,
            texts(done@).push(piece@) == split_on(s@.take(i as int), c),
        decreases n - i,
    {
        let ghost head = split_on(s@.take(i as int), c);
        let ghost before = texts(done@);
        proof {
            assert(s@.take(i as int + 1).drop_last() =~= s@.take(i as int));
            assert(head.drop_last() =~= before);
        }
        if chars[i] == c {
            done.push(piece);
            piece = String::new();
            proof {
                assert(texts(done@) =~= head);
                assert(piece@ =~= Seq::empty());
            }
        } else {
            piece.push(chars[i]);
        }
        i += 1;
    }
    let ghost before = texts(done@);
    done.push(piece);
    proof {
        assert(s@.take(n as int) =~= s@);
        assert(texts(done@) =~= before.push(piece@));
    }
    done
}

} // verus!
