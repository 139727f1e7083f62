//! Counting the tokens of messages.

use crate::json::{items_view, lemma_items_view, object, Json, JsonView};
use crate::json_text::{json_parse, parse_json_bytes};
use crate::text::{opt_text, texts};
use vstd::prelude::*;

verus! {

/// The model of messages that name none: one of the family of models that the protocol comes
/// with.
pub fn default_message_model(family: &str) -> (r: String)
    ensures
        r@ == family@ + "-3-5-sonnet"@,
{
    let mut r = family.to_string();
    r.append("-3-5-sonnet");
    r
}

/// The body of a request to count, an empty object where it is no JSON.
pub fn counted_body(body: &[u8]) -> (r: Json)
    ensures
        r@ == (match json_parse(body@) {
            Ok(v) => v,
            Err(_) => object(),
        }),
{
    match parse_json_bytes(body) {
        Ok(j) => j,
        Err(_) => Json::object(),
    }
}

/// The places of the messages that have a content.
pub open spec fn with_content(messages: Seq<JsonView>) -> Seq<int>
    decreases messages.len(),
{
    if messages.len() == 0 {
        Seq::empty()
    } else {
        let head = with_content(messages.drop_last());
        if messages.last().get("content"@) is Some {
            head.push(messages.len() - 1)
        } else {
            head
        }
    }
}

/// The messages of a request whose content counts, by their places.
pub fn counted_messages(body: &Json) -> (r: Vec<usize>)
    ensures
        r@.map_values(|i: usize| i as int) == (match body@.get_array("messages"@) {
            Some(m) => with_content(m),
            None => Seq::<int>::empty(),
        }),
{
    let mut out: Vec<usize> = Vec::new();
    match body.get_array("messages") {
        Some(messages) => {
            let n: usize = messages.len();
            let ghost views = items_view(messages@);
            proof {
                lemma_items_view(messages@);
                assert(out@.map_values(|i: usize| i as int) =~= with_content(views.take(0)));
            }
            let mut i: usize = 0;
            while i < n
                invariant
                    n == messages@.len(),
                    n == views.len(),
                    forall|k: int| 0 <= k < n ==> #[trigger] views[k] == messages@[k]@,
                    i <= n,
                    out@.map_values(|i: usize| i as int) == with_content(views.take(i as int)),
                decreases n - i,
            {
                let ghost before = out@;
                proof {
                    assert(views.take(i as int + 1).drop_last() =~= views.take(i as int));
                    assert(views.take(i as int + 1).last() == views[i as int]);
                }
                if messages[i].get("content").is_some() {
                    out.push(i);
                    proof {
                        assert(out@.map_values(|i: usize| i as int) =~= before.map_values(
                            |i: usize| i as int,
                        ).push(i as int));
                    }
                }
                i += 1;
            }
            proof {
                assert(views.take(n as int) =~= views);
            }
        },
        None => {
            proof {
                assert(out@.map_values(|i: usize| i as int) =~= Seq::<int>::empty());
            }
        },
    }
    out
}

/// The texts, each with the end of its line.
pub open spec fn lines(contents: Seq<Seq<char>>) -> Seq<char>
    decreases contents.len(),
{
    if contents.len() == 0 {
        Seq::empty()
    } else {
        lines(contents.drop_last()) + contents.last() + "\n"@
    }
}

/// The text whose tokens are counted: what the model is told about its role, and the texts of
/// the messages, each with the end of its line.
pub fn counted_text(system: Option<&str>, contents: &Vec<String>) -> (r: String)
    ensures
        r@ == (match opt_text(system) {
            Some(s) => s,
            None => Seq::empty(),
        }) + lines(texts(contents@)),
{
    let mut text = match system {
        Some(s) => s.to_string(),
        None => String::new(),
    };
    let ghost head = match opt_text(system) {
        Some(s) => s,
        None => Seq::empty(),
    };
    let n: usize = contents.len();
    let ghost views = texts(contents@);
    proof {
        assert(text@ =~= head + lines(views.take(0)));
    }
    let mut i: usize = 0;
    while i < n
        invariant
            n == contents@.len(),
            views == texts(contents@),
            i <= n,
            text@ == head + lines(views.take(i as int)),
        decreases n - i,
    {
        text.append(contents[i].as_str());
        text.append("\n");
        proof {
            assert(views.take(i as int + 1).drop_last() =~= views.take(i as int));
            assert(views.take(i as int + 1).last() == views[i as int]);
            assert(text@ =~= head + lines(views.take(i as int + 1)));
        }
        i += 1;
    }
    proof {
        assert(views.take(n as int) =~= views);
    }
    text
}

/// A count, enlarged by thirty-five in a hundred and rounded down, so that clients shorten
/// their conversations early. It does not go beyond what a number of sixty-four bits with a
/// sign holds.
pub open spec fn inflated(base: int) -> int {
    if base * 27 / 20 > i64::MAX {
        i64::MAX as int
    } else {
        base * 27 / 20
    }
}

/// The answer to the question how many tokens there are.
pub fn count_tokens(base: u64) -> (r: Json)
    ensures
        r@ == object().with("input_tokens"@, JsonView::Int(inflated(base as int))),
{
    let exact: u128 = base as u128 * 27 / 20;
    let n: i64 = if exact > i64::MAX as u128 {
        i64::MAX
    } else {
        exact as i64
    };
    Json::object().with("input_tokens", Json::integer(n))
}

/// A count is never made smaller, and a larger text never counts for less.
pub proof fn inflation_is_monotonic(a: int, b: int)
    requires
        0 <= a <= b <= i64::MAX,
    ensures
        a <= inflated(a) <= inflated(b),
{
    assert(a <= a * 27 / 20 <= b * 27 / 20) by (nonlinear_arith)
        requires
            0 <= a <= b,
    ;
}

} // verus!
