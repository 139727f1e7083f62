//! What holds of looking into texts.

use crate::text::{
    after_last, before_first, decimal_digits, ends_in, is_white, last_index, lemma_find_from,
    lemma_split_on, lower, split_on, stands_at, trim_back, trim_front, trimmed,
};
use vstd::prelude::*;
use vstd::utf8::is_ascii_chars;

verus! {

/// Every character of a text is white space.
pub open spec fn all_white(s: Seq<char>) -> bool {
    forall|i: int| 0 <= i < s.len() ==> is_white(#[trigger] s[i])
}

/// A text neither begins nor ends with white space.
pub open spec fn is_bare(s: Seq<char>) -> bool {
    s.len() > 0 ==> !is_white(s[0]) && !is_white(s.last())
}

pub proof fn lemma_trim_front(front: Seq<char>, s: Seq<char>)
    requires
        all_white(front),
    ensures
        trim_front(front + s) == trim_front(s),
    decreases front.len(),
{
    if front.len() > 0 {
        let t = front + s;
        let rest = front.skip(1);
        assert(t.subrange(1, t.len() as int) =~= rest + s);
        assert(t[0] == front[0]);
        assert forall|i: int| 0 <= i < rest.len() implies is_white(#[trigger] rest[i]) by {
            assert(rest[i] == front[i + 1]);
        }
        lemma_trim_front(rest, s);
    } else {
        assert(front + s =~= s);
    }
}

pub proof fn lemma_trim_back(s: Seq<char>, back: Seq<char>)
    requires
        all_white(back),
    ensures
        trim_back(s + back) == trim_back(s),
    decreases back.len(),
{
    if back.len() > 0 {
        let t = s + back;
        let rest = back.drop_last();
        assert(t.drop_last() =~= s + rest);
        assert(t.last() == back.last());
        assert forall|i: int| 0 <= i < rest.len() implies is_white(#[trigger] rest[i]) by {
            assert(rest[i] == back[i]);
        }
        lemma_trim_back(s, rest);
    } else {
        assert(s + back =~= s);
    }
}

/// Trimming takes away exactly the white space around a text, however much of it there is.
pub proof fn trimming_takes_the_white_space_around(
    front: Seq<char>,
    s: Seq<char>,
    back: Seq<char>,
)
    requires
        all_white(front),
        all_white(back),
        is_bare(s),
    ensures
        trimmed(front + s + back) == s,
{
    assert(front + s + back =~= front + (s + back));
    lemma_trim_front(front, s + back);
    if s.len() > 0 {
        assert((s + back)[0] == s[0]);
        assert(trim_front(s + back) == s + back);
    } else {
        assert(s + back =~= back + Seq::empty());
        lemma_trim_front(back, Seq::empty());
        assert(trim_front(Seq::<char>::empty()) =~= Seq::empty());
        assert(trim_front(s + back) =~= s);
        assert(s + Seq::empty() =~= s);
    }
    lemma_trim_back(s, back);
}

/// What stands before the first of a character: all up to it, or everything where there is
/// none.
pub proof fn first_character_divides(head: Seq<char>, c: char, tail: Seq<char>)
    requires
        !head.contains(c),
    ensures
        before_first(head + seq![c] + tail, c) == head,
        before_first(head, c) == head,
{
    let s = head + seq![c] + tail;
    let needle = seq![c];
    lemma_find_from(s, needle, 0);
    lemma_find_from(head, needle, 0);
    assert(s.subrange(head.len() as int, head.len() as int + 1) =~= needle);
    assert(stands_at(s, needle, head.len() as int));
    assert forall|i: int| 0 <= i < head.len() implies !stands_at(s, needle, i) by {
        if stands_at(s, needle, i) {
            assert(s.subrange(i, i + 1)[0] == s[i]);
            assert(head[i] == c);
        }
    }
    assert forall|i: int| !stands_at(head, needle, i) by {
        if stands_at(head, needle, i) {
            assert(head.subrange(i, i + 1)[0] == head[i]);
            assert(head[i] == c);
        }
    }
    assert(s.take(head.len() as int) =~= head);
}

pub proof fn lemma_last_index(head: Seq<char>, c: char, tail: Seq<char>)
    requires
        !tail.contains(c),
    ensures
        last_index(head + seq![c] + tail, c) == Some(head.len() as int),
    decreases tail.len(),
{
    let s = head + seq![c] + tail;
    if tail.len() > 0 {
        let rest = tail.drop_last();
        assert(s.drop_last() =~= head + seq![c] + rest);
        assert(s.last() == tail.last());
        assert(tail.contains(tail.last()));
        assert forall|x: char| rest.contains(x) implies tail.contains(x) by {
            let i = choose|i: int| 0 <= i < rest.len() && rest[i] == x;
            assert(tail[i] == x);
        }
        lemma_last_index(head, c, rest);
    }
}

pub proof fn lemma_no_last_index(s: Seq<char>, c: char)
    requires
        !s.contains(c),
    ensures
        last_index(s, c) is None,
    decreases s.len(),
{
    if s.len() > 0 {
        let rest = s.drop_last();
        assert(s.contains(s.last()));
        assert forall|x: char| rest.contains(x) implies s.contains(x) by {
            let i = choose|i: int| 0 <= i < rest.len() && rest[i] == x;
            assert(s[i] == x);
        }
        lemma_no_last_index(rest, c);
    }
}

/// What stands behind the last of a character: all from it on, or everything where there is
/// none.
pub proof fn last_character_divides(head: Seq<char>, c: char, tail: Seq<char>)
    requires
        !tail.contains(c),
    ensures
        after_last(head + seq![c] + tail, c) == tail,
        after_last(tail, c) == tail,
{
    lemma_last_index(head, c, tail);
    lemma_no_last_index(tail, c);
    assert((head + seq![c] + tail).skip(head.len() as int + 1) =~= tail);
}

/// What the items of a list give, one behind the other.
pub open spec fn gathered<A, B>(items: Seq<A>, of: spec_fn(A) -> Seq<B>) -> Seq<B>
    decreases items.len(),
{
    if items.len() == 0 {
        Seq::empty()
    } else {
        gathered(items.drop_last(), of) + of(items.last())
    }
}

pub proof fn lemma_gathered_concat<A, B>(a: Seq<A>, b: Seq<A>, of: spec_fn(A) -> Seq<B>)
    ensures
        gathered(a + b, of) == gathered(a, of) + gathered(b, of),
    decreases b.len(),
{
    if b.len() > 0 {
        assert((a + b).drop_last() =~= a + b.drop_last());
        assert((a + b).last() == b.last());
        lemma_gathered_concat(a, b.drop_last(), of);
        assert(gathered(a + b, of) =~= gathered(a, of) + gathered(b, of));
    } else {
        assert(a + b =~= a);
        assert(gathered(a, of) + gathered(b, of) =~= gathered(a, of));
    }
}

pub proof fn lemma_gathered_one<A, B>(a: A, of: spec_fn(A) -> Seq<B>)
    ensures
        gathered(seq![a], of) == of(a),
        gathered(Seq::<A>::empty(), of) == Seq::<B>::empty(),
{
    assert(seq![a].drop_last() =~= Seq::empty());
    assert(gathered(seq![a].drop_last(), of) =~= Seq::empty());
    assert(gathered(seq![a], of) =~= of(a));
}

pub proof fn lemma_gathered_push<A, B>(a: Seq<A>, x: A, of: spec_fn(A) -> Seq<B>)
    ensures
        gathered(a.push(x), of) == gathered(a, of) + of(x),
{
    assert(a.push(x).drop_last() =~= a);
}

/// A blank text has nothing left when it is trimmed.
pub proof fn blank_texts_trim_to_nothing(s: Seq<char>)
    requires
        all_white(s),
    ensures
        trimmed(s) == Seq::<char>::empty(),
{
    trimming_takes_the_white_space_around(s, Seq::empty(), Seq::empty());
    assert(s + Seq::empty() + Seq::empty() =~= s);
}

/// Splitting parts a text at a character: what stands before it and what stands behind it are
/// split on their own, and a text without it is one piece.
pub proof fn splitting_parts_at_the_character(a: Seq<char>, c: char, b: Seq<char>)
    ensures
        split_on(a + seq![c] + b, c) == split_on(a, c) + split_on(b, c),
        !a.contains(c) ==> split_on(a, c) == seq![a],
    decreases b.len(),
{
    if !a.contains(c) {
        lemma_one_piece(a, c);
    }
    let s = a + seq![c] + b;
    lemma_split_on(b, c);
    if b.len() > 0 {
        let rest = b.drop_last();
        assert(s.drop_last() =~= a + seq![c] + rest);
        assert(s.last() == b.last());
        splitting_parts_at_the_character(a, c, rest);
        lemma_split_on(rest, c);
        let head = split_on(rest, c);
        assert((split_on(a, c) + head).drop_last() =~= split_on(a, c) + head.drop_last());
        assert((split_on(a, c) + head).last() == head.last());
        assert(split_on(s, c) =~= split_on(a, c) + split_on(b, c));
    } else {
        assert(s.drop_last() =~= a);
        assert(split_on(s, c) =~= split_on(a, c) + split_on(b, c));
    }
}

proof fn lemma_one_piece(a: Seq<char>, c: char)
    requires
        !a.contains(c),
    ensures
        split_on(a, c) == seq![a],
    decreases a.len(),
{
    if a.len() > 0 {
        let rest = a.drop_last();
        assert(a.contains(a.last()));
        assert forall|x: char| rest.contains(x) implies a.contains(x) by {
            let i = choose|i: int| 0 <= i < rest.len() && rest[i] == x;
            assert(a[i] == x);
        }
        lemma_one_piece(rest, c);
        assert(rest.push(a.last()) =~= a);
        assert(split_on(a, c) =~= seq![a]);
    } else {
        assert(a =~= Seq::empty());
        assert(split_on(a, c) =~= seq![a]);
    }
}

/// The number that a text of decimal digits writes.
pub open spec fn written_number(s: Seq<char>) -> int
    decreases s.len(),
{
    if s.len() == 0 {
        0
    } else {
        10 * written_number(s.drop_last()) + (s.last() as u32 - 0x30)
    }
}

/// The digits of a number write that number, without a zero in front.
pub proof fn digits_write_the_number(n: int)
    requires
        0 <= n,
    ensures
        written_number(decimal_digits(n)) == n,
        decimal_digits(n).len() > 0,
        forall|i: int|
            0 <= i < decimal_digits(n).len() ==> '0' <= #[trigger] decimal_digits(n)[i] <= '9',
        n > 0 ==> decimal_digits(n)[0] != '0',
    decreases n,
{
    let d = decimal_digits(n);
    if n < 10 {
        assert(d.drop_last() =~= Seq::empty());
        assert(written_number(d.drop_last()) == 0);
    } else {
        digits_write_the_number(n / 10);
        assert(d.drop_last() =~= decimal_digits(n / 10));
        assert(d[0] == decimal_digits(n / 10)[0]);
        assert forall|i: int| 0 <= i < d.len() implies '0' <= #[trigger] d[i] <= '9' by {
            if i < d.len() - 1 {
                assert(d[i] == decimal_digits(n / 10)[i]);
            }
        }
    }
}

/// In ASCII, lower case changes the capitals and nothing else, each into its small letter.
pub proof fn lower_case_changes_capitals(s: Seq<char>, i: int)
    requires
        is_ascii_chars(s),
        0 <= i < s.len(),
    ensures
        lower(s).len() == s.len(),
        'A' <= s[i] <= 'Z' ==> lower(s)[i] as u32 == s[i] as u32 + 32,
        !('A' <= s[i] <= 'Z') ==> lower(s)[i] == s[i],
{
}

/// Pieces put together with a character between them.
pub open spec fn joined(pieces: Seq<Seq<char>>, c: char) -> Seq<char>
    decreases pieces.len(),
{
    if pieces.len() == 0 {
        Seq::empty()
    } else if pieces.len() == 1 {
        pieces[0]
    } else {
        joined(pieces.drop_last(), c) + seq![c] + pieces.last()
    }
}

/// Splitting undoes joining: pieces in which the character does not stand are found again.
pub proof fn splitting_undoes_joining(pieces: Seq<Seq<char>>, c: char)
    requires
        pieces.len() > 0,
        forall|i: int| 0 <= i < pieces.len() ==> !(#[trigger] pieces[i]).contains(c),
    ensures
        split_on(joined(pieces, c), c) == pieces,
    decreases pieces.len(),
{
    if pieces.len() == 1 {
        splitting_parts_at_the_character(pieces[0], c, Seq::empty());
        assert(split_on(joined(pieces, c), c) =~= pieces);
    } else {
        let rest = pieces.drop_last();
        assert forall|i: int| 0 <= i < rest.len() implies !(#[trigger] rest[i]).contains(c) by {
            assert(rest[i] == pieces[i]);
        }
        splitting_undoes_joining(rest, c);
        assert(pieces.last() == pieces[pieces.len() - 1]);
        splitting_parts_at_the_character(joined(rest, c), c, pieces.last());
        splitting_parts_at_the_character(pieces.last(), c, Seq::empty());
        assert(split_on(joined(pieces, c), c) =~= pieces);
    }
}

/// A name ends in a dot and an extension exactly where that is what stands behind its last dot.
pub proof fn lemma_ending(name: Seq<char>, dotted: Seq<char>, ext: Seq<char>)
    requires
        dotted == seq!['.'] + ext,
        forall|i: int| 0 <= i < ext.len() ==> ext[i] != '.',
    ensures
        ends_in(name, dotted) <==> name.contains('.') && after_last(name, '.') == ext,
{
    assert(!ext.contains('.'));
    if ends_in(name, dotted) {
        let at = name.len() - dotted.len();
        let head = name.take(at);
        assert(name =~= head + dotted);
        assert(name =~= head + seq!['.'] + ext);
        last_character_divides(head, '.', ext);
        assert(name[at] == '.');
    }
    if name.contains('.') && after_last(name, '.') == ext {
        lemma_dotted(name);
        let i = last_index(name, '.')->0;
        assert(name.subrange(i, name.len() as int) =~= dotted);
        assert(i == name.len() - dotted.len());
    }
}

proof fn lemma_dotted(name: Seq<char>)
    requires
        name.contains('.'),
    ensures
        last_index(name, '.') matches Some(i) && 0 <= i < name.len() && name[i] == '.',
    decreases name.len(),
{
    if name.last() != '.' {
        let k = choose|k: int| 0 <= k < name.len() && name[k] == '.';
        assert(name.drop_last()[k] == '.');
        lemma_dotted(name.drop_last());
    }
}

/// The pieces up to one of them are those before it, the character, and that piece.
pub proof fn lemma_joined_step(l: Seq<Seq<char>>, c: char, n: int)
    requires
        2 <= n <= l.len(),
    ensures
        joined(l.take(n), c) == joined(l.take(n - 1), c) + seq![c] + l[n - 1],
{
    assert(l.take(n).drop_last() =~= l.take(n - 1));
}

pub proof fn lemma_joined_ten(l: Seq<Seq<char>>, c: char)
    requires
        l.len() == 10,
    ensures
        joined(l, c) == l[0] + seq![c] + l[1] + seq![c] + l[2] + seq![c] + l[3] + seq![c] + l[4]
            + seq![c] + l[5] + seq![c] + l[6] + seq![c] + l[7] + seq![c] + l[8] + seq![c] + l[9],
{
    lemma_joined_step(l, c, 10);
    lemma_joined_step(l, c, 9);
    lemma_joined_step(l, c, 8);
    lemma_joined_step(l, c, 7);
    lemma_joined_step(l, c, 6);
    lemma_joined_step(l, c, 5);
    lemma_joined_step(l, c, 4);
    lemma_joined_step(l, c, 3);
    lemma_joined_step(l, c, 2);
    assert(joined(l.take(1), c) == l[0]);
    assert(l.take(10) =~= l);
}

/// In ASCII, white space is the space, the tab and the characters that break a line.
pub proof fn spaces_are_white(c: char)
    ensures
        c == ' ' || c == '\t' || c == '\n' || c == '\r' ==> is_white(c),
        c == '\x0b' || c == '\x0c' ==> is_white(c),
        '!' <= c <= '~' ==> !is_white(c),
        c == '\u{a0}' || c == '\u{3000}' || c == '\u{2028}' ==> is_white(c),
{
}

} // verus!
