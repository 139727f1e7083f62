//! Identifiers made of random digits.

use vstd::prelude::*;

verus! {

/// The hexadecimal digit of a number below sixteen.
pub open spec fn hex_char(d: int) -> char {
    if d < 10 {
        (0x30 + d) as char
    } else {
        (0x57 + d) as char
    }
}

/// A lower-case hexadecimal digit.
pub open spec fn is_hex(c: char) -> bool {
    '0' <= c <= '9' || 'a' <= c <= 'f'
}

/// The last `n` hexadecimal digits of a number, with zeros in front where it has fewer.
pub open spec fn hex_of(word: int, n: int) -> Seq<char>
    decreases n,
{
    if n <= 0 {
        Seq::empty()
    } else {
        hex_of(word / 16, n - 1).push(hex_char(word % 16))
    }
}

/// The text consists of `n` hexadecimal digits.
pub open spec fn is_hex_text(s: Seq<char>, n: int) -> bool {
    s.len() == n && forall|i: int| 0 <= i < n ==> is_hex(#[trigger] s[i])
}

/// The digits of a number are digits.
pub proof fn lemma_hex_of(word: int, n: int)
    requires
        0 <= word,
        0 <= n,
    ensures
        is_hex_text(hex_of(word, n), n),
    decreases n,
{
    if n > 0 {
        lemma_hex_of(word / 16, n - 1);
        assert(0 <= word % 16 < 16);
    }
}

fn hex_digit(d: u8) -> (r: char)
    requires
        d < 16,
    ensures
        r == hex_char(d as int),
{
    if d < 10 {
        (0x30 + d) as char
    } else {
        (0x57 + d) as char
    }
}

/// The last `n` hexadecimal digits of a number, with zeros in front where it has fewer.
pub fn hex_text(word: u64, n: usize) -> (r: String)
    ensures
        r@ == hex_of(word as int, n as int),
        is_hex_text(r@, n as int),
    decreases n,
{
    proof {
        lemma_hex_of(word as int, n as int);
    }
    if n == 0 {
        let r = String::new();
        proof {
            assert(r@ =~= Seq::empty());
        }
        return r;
    }
    let mut r = hex_text(word / 16, n - 1);
    r.push(hex_digit((word % 16) as u8));
    r
}

/// `rand::random`: a random number. Nothing is known of it.
#[verifier::external_body]
pub(crate) fn random_word() -> u64 {
    rand::random::<u64>()
}

/// The digits of numbers one behind the other, sixteen of each, up to `n` in all.
pub open spec fn digits_of(words: Seq<u64>, n: int) -> Seq<char>
    decreases words.len(),
{
    if words.len() == 0 || n <= 0 {
        Seq::empty()
    } else {
        let k = if n < 16 {
            n
        } else {
            16
        };
        hex_of(words[0] as int, k) + digits_of(words.skip(1), n - k)
    }
}

/// The identifier of `n` digits that random numbers give.
pub fn id_text(words: &Vec<u64>, n: usize) -> (r: String)
    requires
        n <= 16 * words@.len(),
    ensures
        r@ == digits_of(words@, n as int),
        is_hex_text(r@, n as int),
{
    let mut out = String::new();
    let mut left: usize = n;
    let mut i: usize = 0;
    let len: usize = words.len();
    proof {
        assert(words@.skip(0) =~= words@);
        assert(out@ + digits_of(words@.skip(0), n as int) =~= digits_of(words@, n as int));
    }
    while left > 0
        invariant
            left <= n,
            i <= len,
            len == words@.len(),
            left <= 16 * (len - i),
            is_hex_text(out@, n - left),
            out@ + digits_of(words@.skip(i as int), left as int) == digits_of(words@, n as int),
        decreases left,
    {
        let k: usize = if left < 16 {
            left
        } else {
            16
        };
        let ghost before = out@;
        let part = hex_text(words[i], k);
        out.append(part.as_str());
        proof {
            let here = words@.skip(i as int);
            assert(here[0] == words@[i as int]);
            assert(here.skip(1) =~= words@.skip(i as int + 1));
            assert(out@ + digits_of(words@.skip(i as int + 1), left - k) =~= before + digits_of(
                here,
                left as int,
            ));
        }
        left -= k;
        i += 1;
    }
    proof {
        assert(out@ + Seq::<char>::empty() =~= out@);
    }
    out
}

/// An identifier of `n` random hexadecimal digits.
pub fn short_id(n: usize) -> (r: String)
    ensures
        exists|words: Seq<u64>| r@ == #[trigger] digits_of(words, n as int),
        is_hex_text(r@, n as int),
{
    let mut words: Vec<u64> = Vec::new();
    let mut left: usize = n;
    while left > 0
        invariant
            left <= n,
            n - left <= 16 * words@.len(),
        decreases left,
    {
        words.push(random_word());
        left =
        if left < 16 {
            0
        } else {
            left - 16
        };
    }
    id_text(&words, n)
}

/// The identifier that two random numbers give: five groups of digits, with the marks of the
/// random kind of identifiers in the third and the fourth.
pub open spec fn uuid_of(a: int, b: int) -> Seq<char> {
    hex_of(a / 0x1_0000_0000, 8) + "-"@ + hex_of(a / 0x1_0000, 4) + "-4"@ + hex_of(a, 3) + "-"@
        + hex_of(8 + b / 0x1000_0000_0000_0000 % 4, 1) + hex_of(b / 0x1_0000_0000_0000, 3) + "-"@
        + hex_of(b, 12)
}

/// The identifier that two random numbers give.
pub fn uuid_text(a: u64, b: u64) -> (r: String)
    ensures
        r@ == uuid_of(a as int, b as int),
{
    let mut r = hex_text(a / 0x1_0000_0000, 8);
    r.append("-");
    r.append(hex_text(a / 0x1_0000, 4).as_str());
    r.append("-4");
    r.append(hex_text(a, 3).as_str());
    r.append("-");
    r.append(hex_text(8 + b / 0x1000_0000_0000_0000 % 4, 1).as_str());
    r.append(hex_text(b / 0x1_0000_0000_0000, 3).as_str());
    r.append("-");
    r.append(hex_text(b, 12).as_str());
    r
}

/// A random identifier.
pub fn uuid4() -> (r: String)
    ensures
        exists|a: u64, b: u64| r@ == #[trigger] uuid_of(a as int, b as int),
{
    let a: u64 = random_word();
    let b: u64 = random_word();
    uuid_text(a, b)
}

} // verus!
