//! The endpoint of embeddings. The vectors are not learned: each is drawn from the digests of
//! its text, so that the same text always has the same vector.

use crate::codec::{sha256, sha256_digest};
use crate::json::{items_view, lemma_items_push, lemma_items_view, object, Json, JsonView};
use crate::text::{char_vec, texts};
use vstd::prelude::*;
use vstd::utf8::*;

verus! {

/// How many numbers a vector has.
pub const DIM: usize = 1536;

/// How many numbers a digest gives.
pub const WORDS_PER_DIGEST: usize = 8;

/// The four bytes of a number, the lowest first.
pub open spec fn le_bytes(n: int) -> Seq<u8> {
    seq![
        (n % 256) as u8,
        (n / 256 % 256) as u8,
        (n / 65536 % 256) as u8,
        (n / 16777216 % 256) as u8,
    ]
}

/// The number that four bytes from `i` on make, the lowest first.
pub open spec fn le_word(b: Seq<u8>, i: int) -> int {
    b[i] + 256 * b[i + 1] + 65536 * b[i + 2] + 16777216 * b[i + 3]
}

/// The digest of a text and a count.
pub open spec fn counted_digest(text: Seq<char>, counter: int) -> Seq<u8> {
    sha256_digest(encode_utf8(text) + le_bytes(counter))
}

/// The `i`th number of a text: a digest gives eight.
pub open spec fn word_of(text: Seq<char>, i: int) -> int {
    le_word(counted_digest(text, i / 8), 4 * (i % 8))
}

/// The bytes of a text and a count behind it.
fn counted_bytes(text: &str, counter: u32) -> (r: Vec<u8>)
    ensures
        r@ == encode_utf8(text@) + le_bytes(counter as int),
{
    let b = text.as_bytes();
    let n: usize = b.len();
    let mut out: Vec<u8> = Vec::new();
    let mut i: usize = 0;
    while i < n
        invariant
            n == b@.len(),
            i <= n,
            out@ == b@.take(i as int),
        decreases n - i,
    {
        out.push(b[i]);
        proof {
            assert(b@.take(i as int + 1) =~= b@.take(i as int).push(b@[i as int]));
        }
        i += 1;
    }
    proof {
        assert(b@.take(n as int) =~= b@);
    }
    out.push((counter % 256) as u8);
    out.push((counter / 256 % 256) as u8);
    out.push((counter / 65536 % 256) as u8);
    out.push((counter / 16777216 % 256) as u8);
    proof {
        assert(out@ =~= encode_utf8(text@) + le_bytes(counter as int));
    }
    out
}

/// The `k`th number of a digest.
pub fn digest_word(digest: &Vec<u8>, k: usize) -> (r: u32)
    requires
        digest@.len() == 32,
        k < 8,
    ensures
        r == le_word(digest@, 4 * k),
{
    let at: usize = 4 * k;
    digest[at] as u32 + 256 * digest[at + 1] as u32 + 65536 * digest[at + 2] as u32 + 16777216
        * digest[at + 3] as u32
}

/// The numbers from which the vector of a text is made, each between zero and the largest
/// number of thirty-two bits.
pub fn embedding_words(text: &str) -> (r: Vec<u32>)
    ensures
        r@.len() == DIM,
        forall|i: int| 0 <= i < DIM ==> #[trigger] r@[i] == word_of(text@, i),
{
    let mut out: Vec<u32> = Vec::new();
    let mut counter: u32 = 0;
    while counter < 192
        invariant
            counter <= 192,
            out@.len() == 8 * counter,
            forall|i: int| 0 <= i < out@.len() ==> #[trigger] out@[i] == word_of(text@, i),
        decreases 192 - counter,
    {
        let digest = sha256(&counted_bytes(text, counter));
        let mut k: usize = 0;
        while k < WORDS_PER_DIGEST
            invariant
                counter < 192,
                k <= WORDS_PER_DIGEST,
                WORDS_PER_DIGEST == 8,
                digest@ == counted_digest(text@, counter as int),
                digest@.len() == 32,
                out@.len() == 8 * counter + k,
                forall|i: int| 0 <= i < out@.len() ==> #[trigger] out@[i] == word_of(text@, i),
            decreases WORDS_PER_DIGEST - k,
        {
            let word: u32 = digest_word(&digest, k);
            proof {
                let i = 8 * counter + k;
                assert(i / 8 == counter && i % 8 == k);
            }
            out.push(word);
            k += 1;
        }
        counter += 1;
    }
    out
}

/// The texts of the strings among values.
pub open spec fn strings_among(items: Seq<JsonView>) -> Seq<Seq<char>>
    decreases items.len(),
{
    if items.len() == 0 {
        Seq::empty()
    } else {
        let head = strings_among(items.drop_last());
        match items.last() {
            JsonView::Str(s) => head.push(s),
            _ => head,
        }
    }
}

/// The texts that a request is about: one, or those of a list.
pub open spec fn input_texts(body: JsonView) -> Seq<Seq<char>> {
    match body.get("input"@) {
        Some(JsonView::Str(s)) => seq![s],
        Some(JsonView::Array(items)) => strings_among(items),
        _ => Seq::empty(),
    }
}

/// The texts that a request is about.
pub fn embedding_inputs(body: &Json) -> (r: Vec<String>)
    ensures
        texts(r@) == input_texts(body@),
{
    let mut out: Vec<String> = Vec::new();
    match body.get("input") {
        Some(input) => match input {
            Json::Str(s) => {
                out.push(s.as_str().to_string());
                proof {
                    assert(texts(out@) =~= input_texts(body@));
                }
            },
            Json::Array(items) => {
                let n: usize = items.len();
                let ghost views = items_view(items@);
                proof {
                    lemma_items_view(items@);
                    assert(texts(out@) =~= strings_among(views.take(0)));
                }
                let mut i: usize = 0;
                while i < n
                    invariant
                        n == items@.len(),
                        n == views.len(),
                        forall|k: int| 0 <= k < n ==> #[trigger] views[k] == items@[k]@,
                        i <= n,
                        texts(out@) == strings_among(views.take(i as int)),
                    decreases n - i,
                {
                    let ghost before = texts(out@);
                    proof {
                        assert(views.take(i as int + 1).drop_last() =~= views.take(i as int));
                        assert(views.take(i as int + 1).last() == views[i as int]);
                    }
                    match items[i].as_str() {
                        Some(s) => {
                            out.push(s.to_string());
                            proof {
                                assert(texts(out@) =~= before.push(s@));
                            }
                        },
                        None => {},
                    }
                    i += 1;
                }
                proof {
                    assert(views.take(n as int) =~= views);
                }
            },
            _ => {
                proof {
                    assert(texts(out@) =~= Seq::empty());
                }
            },
        },
        None => {
            proof {
                assert(texts(out@) =~= Seq::empty());
            }
        },
    }
    out
}

/// How many characters texts have, but no more than a number of sixty-four bits holds.
pub open spec fn char_count(s: Seq<Seq<char>>) -> int
    decreases s.len(),
{
    if s.len() == 0 {
        0
    } else {
        let n = char_count(s.drop_last()) + s.last().len();
        if n > u64::MAX {
            u64::MAX as int
        } else {
            n
        }
    }
}

fn count_chars(inputs: &Vec<String>) -> (r: u64)
    ensures
        r == char_count(texts(inputs@)),
{
    let n: usize = inputs.len();
    let ghost views = texts(inputs@);
    let mut total: u64 = 0;
    let mut i: usize = 0;
    while i < n
        invariant
            n == inputs@.len(),
            views == texts(inputs@),
            i <= n,
            total == char_count(views.take(i as int)),
        decreases n - i,
    {
        proof {
            assert(views.take(i as int + 1).drop_last() =~= views.take(i as int));
            assert(views.take(i as int + 1).last() == views[i as int]);
        }
        let len: u64 = char_vec(inputs[i].as_str()).len() as u64;
        total =
        if total > u64::MAX - len {
            u64::MAX
        } else {
            total + len
        };
        i += 1;
    }
    proof {
        assert(views.take(n as int) =~= views);
    }
    total
}

/// The entry of a vector.
pub open spec fn vector_entry(index: int, vector: JsonView) -> JsonView {
    object().with("object"@, JsonView::Str("embedding"@)).with(
        "index"@,
        JsonView::Int(index),
    ).with("embedding"@, vector)
}

/// The entries of vectors.
pub open spec fn vector_entries(vectors: Seq<JsonView>) -> Seq<JsonView> {
    Seq::new(vectors.len(), |i: int| vector_entry(i, vectors[i]))
}

/// The model that a request names, or the usual one.
pub open spec fn embedding_model(body: JsonView) -> Seq<char> {
    match body.get_str("model"@) {
        Some(m) => m,
        None => "text-embedding-3-small"@,
    }
}

/// The answer to a request, given its texts and their vectors. Four characters count as one
/// token.
pub fn embedding_list(body: &Json, inputs: &Vec<String>, vectors: &Vec<Json>) -> (r: Json)
    requires
        vectors@.len() == inputs@.len(),
    ensures
        r@ == object().with("object"@, JsonView::Str("list"@)).with(
            "data"@,
            JsonView::Array(vector_entries(items_view(vectors@))),
        ).with("model"@, JsonView::Str(embedding_model(body@))).with(
            "usage"@,
            object().with(
                "prompt_tokens"@,
                JsonView::Int(char_count(texts(inputs@)) / 4),
            ).with("total_tokens"@, JsonView::Int(char_count(texts(inputs@)) / 4)),
        ),
{
    let n: usize = vectors.len();
    let ghost all = vector_entries(items_view(vectors@));
    let mut data: Vec<Json> = Vec::new();
    proof {
        lemma_items_view(vectors@);
        assert(items_view(data@) =~= all.take(0));
    }
    let mut i: usize = 0;
    while i < n
        invariant
            n == vectors@.len(),
            all == vector_entries(items_view(vectors@)),
            all.len() == n,
            forall|k: int| 0 <= k < n ==> #[trigger] items_view(vectors@)[k] == vectors@[k]@,
            i <= n,
            items_view(data@) == all.take(i as int),
        decreases n - i,
    {
        let entry = Json::object().with("object", Json::str("embedding")).with(
            "index",
            Json::uint(i as u64),
        ).with("embedding", vectors[i].copy());
        proof {
            lemma_items_push(data@, entry);
            assert(items_view(vectors@)[i as int] == vectors@[i as int]@);
            assert(all[i as int] == entry@);
        }
        data.push(entry);
        proof {
            assert(items_view(data@) =~= all.take(i as int + 1));
        }
        i += 1;
    }
    proof {
        assert(all.take(n as int) =~= all);
        lemma_items_view(vectors@);
    }
    let model = match body.get_str("model") {
        Some(m) => m,
        None => "text-embedding-3-small",
    };
    let tokens: u64 = count_chars(inputs) / 4;
    Json::object().with("object", Json::str("list")).with("data", Json::Array(data)).with(
        "model",
        Json::str(model),
    ).with(
        "usage",
        Json::object().with("prompt_tokens", Json::uint(tokens)).with(
            "total_tokens",
            Json::uint(tokens),
        ),
    )
}

} // verus!
