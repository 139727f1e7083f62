//! The names under which the upstream hears of the tools. It would take some of the clients'
//! own names for its built-in tools, so each tool gets another name, and a name that comes
//! back is looked up without regard to case and punctuation.

use crate::text::{ascii_lower, ascii_lower_char, char_vec, same_text};
use vstd::prelude::*;

verus! {

/// A character that counts when names are compared: not one of the ASCII characters that are
/// neither a letter nor a digit.
pub open spec fn counts(c: char) -> bool {
    ||| 'a' <= c <= 'z'
    ||| 'A' <= c <= 'Z'
    ||| '0' <= c <= '9'
    ||| c as u32 >= 0x80
}

/// The form in which names are compared: the characters that count, in lower case.
pub open spec fn norm(name: Seq<char>) -> Seq<char>
    decreases name.len(),
{
    if name.len() == 0 {
        Seq::empty()
    } else if counts(name.last()) {
        norm(name.drop_last()).push(ascii_lower(name.last()))
    } else {
        norm(name.drop_last())
    }
}

/// The name of a tool for the upstream.
pub open spec fn qwen_name(name: Seq<char>) -> Seq<char> {
    if name == "Bash"@ {
        "shell_run"@
    } else if name == "Read"@ {
        "fs_open_file"@
    } else {
        "u_"@ + name
    }
}

/// The form in which names are compared: lower case, without punctuation.
pub fn norm_key(name: &str) -> (r: String)
    ensures
        r@ == norm(name@),
{
    let chars = char_vec(name);
    let n: usize = chars.len();
    let mut out = String::new();
    let mut i: usize = 0;
    while i < n
        invariant
            n == chars@.len(),
            chars@ == name@,
            i <= n,
            out@ == norm(name@.take(i as int)),
        decreases n - i,
    {
        let c = chars[i];
        proof {
            assert(name@.take(i as int + 1).drop_last() =~= name@.take(i as int));
        }
        if ('a' <= c && c <= 'z') || ('A' <= c && c <= 'Z') || ('0' <= c && c <= '9') || c as u32
            >= 0x80 {
            out.push(ascii_lower_char(c));
        }
        i += 1;
    }
    proof {
        assert(name@.take(n as int) =~= name@);
    }
    out
}

/// The name of a tool for the upstream.
pub fn to_qwen_name(name: &str) -> (r: String)
    ensures
        r@ == qwen_name(name@),
{
    if same_text(name, "Bash") {
        "shell_run".to_string()
    } else if same_text(name, "Read") {
        "fs_open_file".to_string()
    } else {
        let mut r = "u_".to_string();
        r.append(name);
        r
    }
}

/// Comparing is a matter of the compared form alone: it is its own compared form.
pub proof fn norm_is_idempotent(name: Seq<char>)
    ensures
        norm(norm(name)) == norm(name),
    decreases name.len(),
{
    if name.len() > 0 {
        let rest = name.drop_last();
        norm_is_idempotent(rest);
        if counts(name.last()) {
            let c = ascii_lower(name.last());
            assert(norm(rest).push(c).drop_last() =~= norm(rest));
            assert(counts(c));
            assert(ascii_lower(c) == c);
        }
    }
}

/// Different tools have different names for the upstream.
pub proof fn qwen_names_are_distinct(a: Seq<char>, b: Seq<char>)
    requires
        qwen_name(a) == qwen_name(b),
    ensures
        a == b,
{
    reveal_strlit("Bash");
    reveal_strlit("Read");
    reveal_strlit("shell_run");
    reveal_strlit("fs_open_file");
    reveal_strlit("u_");
    let x = qwen_name(a);
    if a != "Bash"@ && a != "Read"@ {
        assert(x[0] == 'u');
        assert(x.skip(2) =~= a);
    }
    if b != "Bash"@ && b != "Read"@ {
        assert(x[0] == 'u');
        assert(x.skip(2) =~= b);
    }
    assert("shell_run"@[0] == 's' && "fs_open_file"@[0] == 'f');
}

/// No tool goes by the client's own name for it.
pub proof fn qwen_name_differs(name: Seq<char>)
    ensures
        qwen_name(name) != name,
{
    reveal_strlit("Bash");
    reveal_strlit("Read");
    reveal_strlit("shell_run");
    reveal_strlit("fs_open_file");
    reveal_strlit("u_");
    assert("shell_run"@.len() == 9);
    assert("fs_open_file"@.len() == 12);
    assert(("u_"@ + name).len() == name.len() + 2);
}

} // verus!
