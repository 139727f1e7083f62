//! What holds of the endpoints, told by what goes in and what comes out.

use crate::api::admission::{collected, let_in, with_caller};
use crate::api::embeddings::{
    char_count, embedding_inputs, embedding_list, embedding_words, le_bytes, le_word, strings_among,
    word_of,
};
use crate::api::files::{
    check_upload, deleted, extension, field_kind, is_listed, uploaded, FieldKind, FileMeta,
    UploadForm,
};
use crate::api::gemini::{is_stream_action, model_action, stream_chunk};
use crate::api::messages::{
    count_tokens, counted_body, counted_text, default_message_model, lines, with_content,
};
use crate::api::probes::{healthz, readyz};
use crate::api::responses::{
    after_all, answer_text, build_response_object, completed_text_is_all_pieces, input_messages,
    response_object, responses_to_chat_body, ResponseStream, ResponseView,
};
use crate::auth::{api_token, resolve_auth, AuthContext};
use crate::codec::sha256_digest;
use crate::error::{parse_body, AppError, AppResult};
use crate::execution::presenter::{data_text, event_text, gemini_final, gemini_text};
use crate::execution::stream_laws::{chunk_text, chunks_hold_their_pieces, given_answer};
use crate::execution::{OutEvent, Usage};
use crate::json::{lemma_items_view, Json, JsonView};
use crate::json_text::json_parse;
use crate::request::StandardRequest;
use crate::text::{ends_in, is_white, lower, split_on, stands_at, texts, trimmed};
use crate::text_laws::{
    all_white, blank_texts_trim_to_nothing, gathered, is_bare, last_character_divides,
    lemma_last_index, lemma_no_last_index, splitting_parts_at_the_character,
    trimming_takes_the_white_space_around,
};
use crate::text_map::TextMap;
use crate::toolcall::tool_laws::lemma_between;
use vstd::prelude::*;
use vstd::utf8::*;

verus! {

// ---------------------------------------------------------------------------
// Keys
// ---------------------------------------------------------------------------

proof fn lemma_key_names()
    ensures
        "authorization"@ != "x-api-key"@,
        "authorization"@ != "x-goog-api-key"@,
        "x-api-key"@ != "x-goog-api-key"@,
        "key"@ != "api_key"@,
        "Bearer "@.len() == 7,
{
    reveal_strlit("authorization");
    reveal_strlit("x-api-key");
    reveal_strlit("x-goog-api-key");
    reveal_strlit("key");
    reveal_strlit("api_key");
    assert("authorization"@.len() == 13);
    assert("x-api-key"@.len() == 9);
    assert("x-goog-api-key"@.len() == 14);
    assert("key"@.len() == 3);
    assert("api_key"@.len() == 7);
    reveal_strlit("Bearer ");
}

/// Nothing but white space stands under a name.
pub open spec fn says_nothing(m: Map<Seq<char>, Seq<char>>, name: Seq<char>) -> bool {
    m.contains_key(name) ==> all_white(m[name])
}

/// A key stands under a name, with or without white space around it.
pub open spec fn shows(
    m: Map<Seq<char>, Seq<char>>,
    name: Seq<char>,
    front: Seq<char>,
    key: Seq<char>,
    back: Seq<char>,
) -> bool {
    &&& m.contains_key(name)
    &&& m[name] == front + key + back
    &&& all_white(front)
    &&& all_white(back)
    &&& is_bare(key)
    &&& key.len() > 0
}

/// A key that a client shows behind `Bearer ` is the client's key.
pub proof fn bearers_are_heard(
    headers: Map<Seq<char>, Seq<char>>,
    query: Map<Seq<char>, Seq<char>>,
    front: Seq<char>,
    key: Seq<char>,
    back: Seq<char>,
)
    requires
        headers.contains_key("authorization"@),
        headers["authorization"@] == "Bearer "@ + (front + key + back),
        all_white(front),
        all_white(back),
        is_bare(key),
        key.len() > 0,
    ensures
        api_token(headers, query) == Some(key),
{
    lemma_key_names();
    let h = headers["authorization"@];
    assert(h.subrange(0, 7) =~= "Bearer "@);
    assert(h.skip(7) =~= front + key + back);
    trimming_takes_the_white_space_around(front, key, back);
}

/// A key is found wherever a client shows it: in the header of authorization as it is, in one
/// of the two headers for keys, or in the query under one of its two names; the first of these
/// that says anything counts. Where none does, there is no key.
pub proof fn keys_are_found_where_they_are_shown(
    headers: Map<Seq<char>, Seq<char>>,
    query: Map<Seq<char>, Seq<char>>,
    front: Seq<char>,
    key: Seq<char>,
    back: Seq<char>,
)
    ensures
        ({
            let quiet = says_nothing(headers, "authorization"@);
            let quieter = quiet && says_nothing(headers, "x-api-key"@);
            let quietest = quieter && says_nothing(headers, "x-goog-api-key"@);
            &&& shows(headers, "authorization"@, front, key, back) && !stands_at(
                headers["authorization"@],
                "Bearer "@,
                0,
            ) ==> api_token(headers, query) == Some(key)
            &&& quiet && shows(headers, "x-api-key"@, front, key, back) ==> api_token(
                headers,
                query,
            ) == Some(key)
            &&& quieter && shows(headers, "x-goog-api-key"@, front, key, back) ==> api_token(
                headers,
                query,
            ) == Some(key)
            &&& quietest && shows(query, "key"@, front, key, back) ==> api_token(headers, query)
                == Some(key)
            &&& quietest && !query.contains_key("key"@) && shows(
                query,
                "api_key"@,
                front,
                key,
                back,
            ) ==> api_token(headers, query) == Some(key)
            &&& quietest && query.contains_key("key"@) && all_white(query["key"@]) ==> api_token(
                headers,
                query,
            ) is None
            &&& quietest && !query.contains_key("key"@) && says_nothing(query, "api_key"@)
                ==> api_token(headers, query) is None
        }),
{
    lemma_key_names();
    if all_white(front) && all_white(back) && is_bare(key) {
        trimming_takes_the_white_space_around(front, key, back);
    }
    let auth = headers["authorization"@];
    if says_nothing(headers, "authorization"@) && headers.contains_key("authorization"@) {
        blank_texts_trim_to_nothing(auth);
        if stands_at(auth, "Bearer "@, 0) {
            reveal_strlit("Bearer ");
            assert(auth.subrange(0, 7)[0] == auth[0]);
            assert("Bearer "@[0] == 'B');
        }
    }
    if says_nothing(headers, "x-api-key"@) && headers.contains_key("x-api-key"@) {
        blank_texts_trim_to_nothing(headers["x-api-key"@]);
    }
    if says_nothing(headers, "x-goog-api-key"@) && headers.contains_key("x-goog-api-key"@) {
        blank_texts_trim_to_nothing(headers["x-goog-api-key"@]);
    }
    if query.contains_key("key"@) && all_white(query["key"@]) {
        blank_texts_trim_to_nothing(query["key"@]);
    }
    if query.contains_key("api_key"@) && all_white(query["api_key"@]) {
        blank_texts_trim_to_nothing(query["api_key"@]);
    }
}

/// One who shows the key of the gateway is let in under it, and nobody else is; a client is told
/// whether it showed no key or a wrong one.
pub proof fn the_key_decides(
    api_key: &str,
    headers: &TextMap,
    query: &TextMap,
    r: AppResult<AuthContext>,
)
    requires
        call_ensures(resolve_auth, (api_key, headers, query), r),
    ensures
        r is Ok <==> api_token(headers@, query@) == Some(api_key@),
        r matches Ok(who) ==> who.token@ == api_key@,
        r matches Err(e) ==> e is Unauthorized,
        api_token(headers@, query@) is None ==> r->Err_0->Unauthorized_0@ == "Missing API key"@,
        api_token(headers@, query@) is Some && r is Err ==> r->Err_0->Unauthorized_0@
            == "Invalid API key"@,
{
}

/// A body that is no JSON is the client's fault whatever key it shows; one that is JSON comes
/// through as it is exactly where the key of the gateway is shown.
pub proof fn bodies_come_through_with_the_key(
    body: &[u8],
    api_key: &str,
    headers: &TextMap,
    query: &TextMap,
    r: AppResult<(Json, AuthContext)>,
)
    requires
        call_ensures(let_in, (body, api_key, headers, query), r),
    ensures
        r is Ok <==> json_parse(body@) is Ok && api_token(headers@, query@) == Some(api_key@),
        r matches Ok((j, who)) ==> json_parse(body@) == Ok::<JsonView, Seq<char>>(j@)
            && who.token@ == api_key@,
        json_parse(body@) is Err ==> r->Err_0.spec_status() == 400,
        json_parse(body@) is Ok && r is Err ==> r->Err_0.spec_status() == 401,
        json_parse(body@) matches Err(why) ==> ends_in(r->Err_0.spec_message(), why),
{
    if let Err(why) = json_parse(body@) {
        let m = "JSON parse error: "@ + why;
        assert(m.subrange(m.len() - why.len(), m.len() as int) =~= why);
    }
}

/// A request is handed on in the name of the one who was let in, and otherwise as it was.
pub proof fn callers_are_noted(request: StandardRequest, who: &AuthContext, r: StandardRequest)
    requires
        call_ensures(with_caller, (request, who), r),
    ensures
        r.caller matches Some(c) && c@ == who.token@,
        r.prompt == request.prompt && r.resolved_model == request.resolved_model && r.stream
            == request.stream && r.files == request.files && r.tools == request.tools
            && r.enable_search == request.enable_search && r.thinking_enabled
            == request.thinking_enabled && r.bound_account == request.bound_account,
{
}

// ---------------------------------------------------------------------------
// Errors
// ---------------------------------------------------------------------------

/// An error is answered with the status of its kind and with its own message, twice in the
/// body; the status stands in the body too.
pub proof fn errors_tell_their_message(e: &AppError, status: u16, message: String, body: Json)
    requires
        call_ensures(AppError::status, (e,), status),
        call_ensures(AppError::message, (e,), message),
        call_ensures(AppError::body, (e,), body),
    ensures
        match *e {
            AppError::BadRequest(m) => status == 400 && message@ == m@,
            AppError::Unauthorized(m) => status == 401 && message@ == m@,
            AppError::QuotaExceeded(m) => status == 402 && message@ == m@,
            AppError::Forbidden(m) => status == 403 && message@ == m@,
            AppError::NotFound(m) => status == 404 && message@ == m@,
            AppError::Internal(m) => status == 500 && message@ == m@,
            AppError::NotImplemented(m) => status == 501 && message@ == m@,
            AppError::Upstream(m) => status == 502 && message@ == m@,
        },
        body@.get("detail"@) == Some(JsonView::Str(message@)),
        body@.get("error"@)->0.get("message"@) == Some(JsonView::Str(message@)),
        body@.get("error"@)->0.get("code"@) == Some(JsonView::Int(status as int)),
        body@.get("error"@)->0.get("type"@) == Some(JsonView::Str("qwen2api_error"@)),
{
    reveal_strlit("error");
    reveal_strlit("message");
    reveal_strlit("type");
    reveal_strlit("code");
    reveal_strlit("detail");
    assert("error"@.len() == 5);
    assert("message"@.len() == 7);
    assert("type"@.len() == 4 && "type"@[0] == 't');
    assert("code"@.len() == 4 && "code"@[0] == 'c');
    assert("detail"@.len() == 6);
}

/// A displayed error ends in its message; an internal one is nothing but its message.
pub proof fn displayed_errors_end_in_their_message(e: &AppError, message: String, r: String)
    requires
        call_ensures(AppError::message, (e,), message),
        call_ensures(AppError::display, (e,), r),
    ensures
        ends_in(r@, message@),
        *e is Internal ==> r@ == message@,
        !(*e is Internal) ==> r@.len() > message@.len(),
{
    reveal_strlit("");
    reveal_strlit("unauthorized: ");
    reveal_strlit("forbidden: ");
    reveal_strlit("payment required: ");
    reveal_strlit("bad request: ");
    reveal_strlit("not found: ");
    reveal_strlit("not implemented: ");
    reveal_strlit("upstream error: ");
    assert(r@.subrange(r@.len() - message@.len(), r@.len() as int) =~= message@);
    if *e is Internal {
        assert(r@ =~= message@);
    }
}

// ---------------------------------------------------------------------------
// Counting
// ---------------------------------------------------------------------------

/// A count is the count of the text times 1.35, rounded down, as long as that is a number of
/// sixty-four bits with a sign.
pub proof fn counts_are_enlarged(base: u64, r: Json, n: int)
    requires
        call_ensures(count_tokens, (base,), r),
        r@.get("input_tokens"@) == Some(JsonView::Int(n)),
    ensures
        base as int * 135 < 100 * (i64::MAX as int + 1) ==> 100 * n <= base as int * 135 < 100 * (n
            + 1),
        base as int * 135 >= 100 * (i64::MAX as int + 1) ==> n == i64::MAX,
{
}

/// The answer to a question for a count has one.
pub proof fn counts_are_given(base: u64, r: Json)
    requires
        call_ensures(count_tokens, (base,), r),
    ensures
        r@.get("input_tokens"@) matches Some(JsonView::Int(n)) && n >= base as int || r@.get(
            "input_tokens"@,
        ) == Some(JsonView::Int(i64::MAX as int)),
{
}

/// The messages that count are those with a content, each once and in order.
pub proof fn messages_with_content_count(messages: Seq<JsonView>, i: int)
    ensures
        with_content(messages).contains(i) <==> 0 <= i < messages.len() && messages[i].get(
            "content"@,
        ) is Some,
        forall|a: int, b: int|
            0 <= a < b < with_content(messages).len() ==> #[trigger] with_content(messages)[a]
                < #[trigger] with_content(messages)[b],
    decreases messages.len(),
{
    if messages.len() > 0 {
        let rest = messages.drop_last();
        let n = rest.len() as int;
        messages_with_content_count(rest, i);
        messages_with_content_count(rest, n);
        let head = with_content(rest);
        let all = with_content(messages);
        assert(messages.last() == messages[n]);
        lemma_places(rest);
        if messages.last().get("content"@) is Some {
            assert(all[head.len() as int] == n);
            assert(all.contains(n));
            if head.contains(i) {
                let k = choose|k: int| 0 <= k < head.len() && head[k] == i;
                assert(all[k] == i);
            }
            if all.contains(i) {
                let k = choose|k: int| 0 <= k < all.len() && all[k] == i;
                if k < head.len() {
                    assert(head[k] == i);
                }
            }
        }
        if 0 <= i < n {
            assert(rest[i] == messages[i]);
        }
        assert forall|a: int, b: int| 0 <= a < b < all.len() implies #[trigger] all[a]
            < #[trigger] all[b] by {
            assert(all[a] == head[a]);
            if b < head.len() {
                assert(all[b] == head[b]);
            }
        }
    }
}

proof fn lemma_places(messages: Seq<JsonView>)
    ensures
        forall|k: int|
            0 <= k < with_content(messages).len() ==> 0 <= #[trigger] with_content(messages)[k]
                < messages.len(),
    decreases messages.len(),
{
    if messages.len() > 0 {
        let head = with_content(messages.drop_last());
        let all = with_content(messages);
        lemma_places(messages.drop_last());
        assert forall|k: int| 0 <= k < all.len() implies 0 <= #[trigger] all[k]
            < messages.len() by {
            if k < head.len() {
                assert(all[k] == head[k]);
            }
        }
    }
}

/// A counted text is what the model is told about its role and then each text with the end of
/// its line.
pub proof fn counted_texts_hold_all(system: Option<&str>, contents: &Vec<String>, r: String)
    requires
        call_ensures(counted_text, (system, contents), r),
    ensures
        ({
            let all = gathered(texts(contents@), |t: Seq<char>| t.push('\n'));
            &&& system matches Some(s) ==> r@ == s@ + all
            &&& system is None ==> r@ == all
        }),
{
    lemma_lines(texts(contents@));
    assert(Seq::<char>::empty() + lines(texts(contents@)) =~= lines(texts(contents@)));
}

proof fn lemma_lines(contents: Seq<Seq<char>>)
    ensures
        lines(contents) == gathered(contents, |t: Seq<char>| t.push('\n')),
    decreases contents.len(),
{
    if contents.len() > 0 {
        lemma_lines(contents.drop_last());
        reveal_strlit("\n");
        assert(lines(contents) =~= gathered(contents, |t: Seq<char>| t.push('\n')));
    }
}

// ---------------------------------------------------------------------------
// Embeddings
// ---------------------------------------------------------------------------

/// Four bytes, the lowest first, write a number of thirty-two bits, and are read as it again.
pub proof fn numbers_are_read_from_their_bytes(n: int, b: Seq<u8>)
    ensures
        0 <= n < 0x1_0000_0000 ==> le_bytes(n).len() == 4 && le_word(le_bytes(n), 0) == n,
        b.len() == 4 ==> le_bytes(le_word(b, 0)) == b,
{
    if b.len() == 4 {
        let w = le_word(b, 0);
        assert(w % 256 == b[0]);
        assert(w / 256 == b[1] + 256 * b[2] + 65536 * b[3]);
        assert(w / 65536 == b[2] + 256 * b[3]);
        assert(w / 16777216 == b[3]);
        assert(le_bytes(w) =~= b);
    }
}

/// The numbers of a text are the digests of its bytes with a running count behind them, one
/// behind the other: each number's bytes are the next four of them.
pub proof fn numbers_are_cut_from_digests(text: &str, words: Vec<u32>, counter: int, k: int)
    requires
        call_ensures(embedding_words, (text,), words),
        0 <= counter < 192,
        0 <= k < 8,
    ensures
        words@.len() == 1536,
        sha256_digest(encode_utf8(text@) + le_bytes(counter)).len() == 32 ==> le_bytes(
            words@[8 * counter + k] as int,
        ) == sha256_digest(encode_utf8(text@) + le_bytes(counter)).subrange(4 * k, 4 * k + 4),
{
    let i = 8 * counter + k;
    assert(i / 8 == counter && i % 8 == k);
    assert(words@[i] == word_of(text@, i));
    let d = sha256_digest(encode_utf8(text@) + le_bytes(counter));
    if d.len() == 32 {
        let b = d.subrange(4 * k, 4 * k + 4);
        assert(b[0] == d[4 * k] && b[1] == d[4 * k + 1] && b[2] == d[4 * k + 2] && b[3] == d[4 * k
            + 3]);
        assert(le_word(d, 4 * k) == le_word(b, 0));
        numbers_are_read_from_their_bytes(0, b);
    }
}

/// A text is the one text of its request; of a list the texts are taken, in order.
pub proof fn inputs_are_the_texts(body: &Json, r: Vec<String>)
    requires
        call_ensures(embedding_inputs, (body,), r),
    ensures
        body@.get("input"@) matches Some(JsonView::Str(s)) ==> texts(r@) == seq![s],
        body@.get("input"@) matches Some(JsonView::Array(items)) ==> texts(r@) == gathered(
            items,
            |j: JsonView| text_item(j),
        ),
        body@.get("input"@) is None ==> r@.len() == 0,
{
    if let Some(JsonView::Array(items)) = body@.get("input"@) {
        lemma_strings(items);
    }
    if body@.get("input"@) is None {
        assert(texts(r@).len() == 0);
    }
}

/// The text that an item is, where it is one.
pub open spec fn text_item(j: JsonView) -> Seq<Seq<char>> {
    match j {
        JsonView::Str(s) => seq![s],
        _ => Seq::empty(),
    }
}

proof fn lemma_strings(items: Seq<JsonView>)
    ensures
        strings_among(items) == gathered(items, |j: JsonView| text_item(j)),
    decreases items.len(),
{
    if items.len() > 0 {
        lemma_strings(items.drop_last());
        assert(strings_among(items) =~= gathered(items, |j: JsonView| text_item(j)));
    } else {
        assert(strings_among(items) =~= gathered(items, |j: JsonView| text_item(j)));
    }
}

/// Every vector has an entry under its place, and four characters of all the texts together
/// count as one token.
pub proof fn vectors_are_listed(
    body: &Json,
    inputs: &Vec<String>,
    vectors: &Vec<Json>,
    r: Json,
    i: int,
)
    requires
        call_ensures(embedding_list, (body, inputs, vectors), r),
        vectors@.len() == inputs@.len(),
        gathered(texts(inputs@), |t: Seq<char>| t).len() <= u64::MAX,
    ensures
        r@.get("data"@) matches Some(JsonView::Array(data)) && data.len() == vectors@.len() && (0
            <= i < data.len() ==> data[i].get("embedding"@) == Some(vectors@[i]@) && data[i].get(
            "index"@,
        ) == Some(JsonView::Int(i)) && data[i].get("object"@) == Some(JsonView::Str("embedding"@))),
        r@.get("object"@) == Some(JsonView::Str("list"@)),
        body@.get("model"@) matches Some(JsonView::Str(m)) ==> r@.get("model"@) == Some(
            JsonView::Str(m),
        ),
        r@.get("usage"@)->0.get("prompt_tokens"@) matches Some(JsonView::Int(n)) && 4 * n
            <= gathered(texts(inputs@), |t: Seq<char>| t).len() < 4 * n + 4,
        r@.get("usage"@)->0.get("total_tokens"@) == r@.get("usage"@)->0.get("prompt_tokens"@),
{
    reveal_strlit("object");
    reveal_strlit("data");
    reveal_strlit("model");
    reveal_strlit("usage");
    reveal_strlit("prompt_tokens");
    reveal_strlit("total_tokens");
    reveal_strlit("embedding");
    reveal_strlit("index");
    assert("object"@.len() == 6);
    assert("data"@.len() == 4);
    assert("model"@.len() == 5 && "model"@[0] == 'm');
    assert("usage"@.len() == 5 && "usage"@[0] == 'u');
    assert("prompt_tokens"@.len() == 13);
    assert("total_tokens"@.len() == 12);
    assert("embedding"@.len() == 9);
    assert("index"@.len() == 5 && "index"@[0] == 'i');
    lemma_char_count(texts(inputs@));
    lemma_items_view(vectors@);
}

proof fn lemma_char_count(s: Seq<Seq<char>>)
    requires
        gathered(s, |t: Seq<char>| t).len() <= u64::MAX,
    ensures
        char_count(s) == gathered(s, |t: Seq<char>| t).len(),
    decreases s.len(),
{
    if s.len() > 0 {
        lemma_char_count(s.drop_last());
    }
}

// ---------------------------------------------------------------------------
// Files
// ---------------------------------------------------------------------------

/// An entry is listed wherever in the list it stands, with or without white space around it.
pub proof fn entries_are_listed(
    before: Seq<char>,
    front: Seq<char>,
    entry: Seq<char>,
    back: Seq<char>,
    after: Seq<char>,
)
    requires
        all_white(front),
        all_white(back),
        is_bare(entry),
        !entry.contains(','),
    ensures
        is_listed(front + entry + back, entry),
        is_listed(before + seq![','] + (front + entry + back), entry),
        is_listed(front + entry + back + seq![','] + after, entry),
        is_listed(before + seq![','] + (front + entry + back) + seq![','] + after, entry),
{
    let e = front + entry + back;
    trimming_takes_the_white_space_around(front, entry, back);
    assert(!e.contains(',')) by {
        if e.contains(',') {
            let i = choose|i: int| 0 <= i < e.len() && e[i] == ',';
            if i < front.len() {
                assert(is_white(front[i]));
            } else if i < front.len() + entry.len() {
                assert(entry[i - front.len()] == ',');
            } else {
                assert(is_white(back[i - front.len() - entry.len()]));
            }
        }
    }
    splitting_parts_at_the_character(e, ',', after);
    splitting_parts_at_the_character(before, ',', e);
    splitting_parts_at_the_character(before + seq![','] + e, ',', after);
    let n = split_on(before, ',').len() as int;
    assert(trimmed(split_on(e, ',')[0]) == entry);
    assert(trimmed(split_on(before + seq![','] + e, ',')[n]) == entry);
    assert(trimmed(split_on(e + seq![','] + after, ',')[0]) == entry);
    assert(trimmed(split_on(before + seq![','] + e + seq![','] + after, ',')[n]) == entry);
}

/// An entry that is listed is one of the pieces between the commas.
pub proof fn only_entries_are_listed(a: Seq<char>, b: Seq<char>, entry: Seq<char>)
    ensures
        is_listed(a + seq![','] + b, entry) ==> is_listed(a, entry) || is_listed(b, entry),
        !a.contains(',') && is_listed(a, entry) ==> trimmed(a) == entry,
{
    splitting_parts_at_the_character(a, ',', b);
    let s = split_on(a + seq![','] + b, ',');
    if is_listed(a + seq![','] + b, entry) {
        let i = choose|i: int| 0 <= i < s.len() && trimmed(#[trigger] s[i]) == entry;
        if i < split_on(a, ',').len() {
            assert(trimmed(split_on(a, ',')[i]) == entry);
        } else {
            assert(trimmed(split_on(b, ',')[i - split_on(a, ',').len()]) == entry);
        }
    }
}

/// The extension of a file's name is what stands behind the last dot, in lower case.
pub proof fn extensions_stand_behind_the_last_dot(stem: Seq<char>, ext: Seq<char>)
    requires
        !ext.contains('.'),
    ensures
        extension(stem + seq!['.'] + ext) == lower(ext),
        extension(ext) == lower(ext),
{
    last_character_divides(stem, '.', ext);
}

/// A file is accepted exactly where it holds anything and its extension is listed or empty.
pub proof fn listed_files_are_accepted(form: &UploadForm, allowed: &str, r: AppResult<()>)
    requires
        call_ensures(check_upload, (form, allowed), r),
    ensures
        r is Ok <==> form.bytes@.len() > 0 && (extension(form.filename@).len() == 0 || is_listed(
            allowed@,
            extension(form.filename@),
        )),
        r matches Err(e) ==> e is BadRequest,
        r is Err && form.bytes@.len() > 0 ==> ends_in(
            r->Err_0->BadRequest_0@,
            extension(form.filename@),
        ),
        r is Err && form.bytes@.len() == 0 ==> r->Err_0->BadRequest_0@
            == "No file content provided"@,
{
    let ext = extension(form.filename@);
    let m = "Unsupported file extension: ."@ + ext;
    assert(m.subrange(m.len() - ext.len(), m.len() as int) =~= ext);
}

/// The answer to an upload tells all of the file, and its block names the file.
pub proof fn uploads_are_told(meta: &FileMeta, r: Json)
    requires
        call_ensures(uploaded, (meta,), r),
    ensures
        r@.get("id"@) == Some(JsonView::Str(meta.id@)),
        r@.get("object"@) == Some(JsonView::Str("file"@)),
        r@.get("bytes"@) == Some(JsonView::Int(meta.size as int)),
        r@.get("created_at"@) == Some(JsonView::Int(meta.created_at as int)),
        r@.get("filename"@) == Some(JsonView::Str(meta.filename@)),
        r@.get("purpose"@) == Some(JsonView::Str(meta.purpose@)),
        r@.get("content_type"@) == Some(JsonView::Str(meta.content_type@)),
        ({
            let block = r@.get("content_block"@)->0;
            &&& block.get("type"@) == Some(JsonView::Str("input_file"@))
            &&& block.get("file_id"@) == Some(JsonView::Str(meta.id@))
            &&& block.get("filename"@) == Some(JsonView::Str(meta.filename@))
            &&& block.get("mime_type"@) == Some(JsonView::Str(meta.content_type@))
        }),
{
    reveal_strlit("id");
    reveal_strlit("object");
    reveal_strlit("bytes");
    reveal_strlit("created_at");
    reveal_strlit("filename");
    reveal_strlit("purpose");
    reveal_strlit("content_type");
    reveal_strlit("content_block");
    reveal_strlit("type");
    reveal_strlit("file_id");
    reveal_strlit("mime_type");
    assert("id"@.len() == 2);
    assert("object"@.len() == 6);
    assert("bytes"@.len() == 5);
    assert("created_at"@.len() == 10);
    assert("filename"@.len() == 8);
    assert("purpose"@.len() == 7 && "purpose"@[0] == 'p');
    assert("content_type"@.len() == 12);
    assert("content_block"@.len() == 13);
    assert("type"@.len() == 4);
    assert("file_id"@.len() == 7 && "file_id"@[0] == 'f');
    assert("mime_type"@.len() == 9);
}

/// The answer to a deletion names the file and says whether it was deleted; and the gateway
/// says with how many accounts it is ready.
pub proof fn deletions_are_told(file_id: &str, ok: bool, r: Json, accounts: usize, ready: Json)
    requires
        call_ensures(deleted, (file_id, ok), r),
        call_ensures(readyz, (accounts,), ready),
    ensures
        r@.get("id"@) == Some(JsonView::Str(file_id@)),
        r@.get("deleted"@) == Some(JsonView::Bool(ok)),
        r@.get("object"@) == Some(JsonView::Str("file"@)),
        ready@.get("accounts"@) == Some(JsonView::Int(accounts as int)),
        ready@.get("status"@) == Some(JsonView::Str("ready"@)),
{
    reveal_strlit("id");
    reveal_strlit("object");
    reveal_strlit("deleted");
    reveal_strlit("accounts");
    reveal_strlit("status");
    assert("id"@.len() == 2);
    assert("object"@.len() == 6 && "object"@[0] == 'o');
    assert("deleted"@.len() == 7);
    assert("accounts"@.len() == 8);
    assert("status"@.len() == 6 && "status"@[0] == 's');
}

// ---------------------------------------------------------------------------
// Addresses and chunks
// ---------------------------------------------------------------------------

/// An address is parted at its last colon; one without a colon names a model alone.
pub proof fn addresses_part_at_the_last_colon(model: Seq<char>, action: Seq<char>)
    requires
        !action.contains(':'),
    ensures
        model_action(model + seq![':'] + action) == (model, action),
        model_action(action) == (action, "generateContent"@),
{
    lemma_last_index(model, ':', action);
    lemma_no_last_index(action, ':');
    let raw = model + seq![':'] + action;
    assert(raw.take(model.len() as int) =~= model);
    assert(raw.skip(model.len() as int + 1) =~= action);
}

/// A piece of the answer comes as one chunk that holds it, word for word; the end comes with
/// the counts, a failure with its message; reasoning and calls bring no chunk.
pub proof fn chunks_follow_events(ev: &OutEvent, r: Option<String>) -> (data: JsonView)
    requires
        call_ensures(stream_chunk, (ev,), r),
    ensures
        r matches Some(chunk) ==> chunk@ == data_text(data),
        r is Some <==> *ev is ContentDelta || *ev is Done || *ev is Error,
        *ev matches OutEvent::ContentDelta(t) ==> chunk_text(data) == Some(JsonView::Str(t@)),
        *ev matches OutEvent::Done { usage, .. } ==> {
            let count = data.get("usageMetadata"@)->0;
            &&& count.get("promptTokenCount"@) == Some(JsonView::Int(usage.prompt_tokens as int))
            &&& count.get("candidatesTokenCount"@) == Some(
                JsonView::Int(usage.completion_tokens as int),
            )
            &&& count.get("totalTokenCount"@) == Some(JsonView::Int(usage.total_tokens as int))
        },
        *ev matches OutEvent::Error(e) ==> data.get("error"@)->0.get("message"@) == Some(
            JsonView::Str(e@),
        ),
{
    match *ev {
        OutEvent::ContentDelta(t) => {
            chunks_hold_their_pieces(
                t@,
                Usage { prompt_tokens: 0, completion_tokens: 0, total_tokens: 0 },
            );
            gemini_text(t@)
        },
        OutEvent::Done { usage, .. } => {
            chunks_hold_their_pieces(Seq::empty(), usage);
            gemini_final(usage)
        },
        OutEvent::Error(e) => crate::json::object().with(
            "error"@,
            crate::json::object().with("message"@, JsonView::Str(e@)),
        ),
        _ => JsonView::Null,
    }
}

// ---------------------------------------------------------------------------
// Responses
// ---------------------------------------------------------------------------

/// A request for a response is the chat with its model, its instructions, its tools and its
/// input; it thinks exactly where it speaks of reasoning, and streams as it says.
pub proof fn responses_are_chats(body: &Json, r: Json, v: JsonView)
    requires
        call_ensures(responses_to_chat_body, (body,), r),
    ensures
        body@.get("model"@) == Some(v) ==> r@.get("model"@) == Some(v),
        body@.get("model"@) is None ==> r@.get("model"@) == Some(JsonView::Str("gpt-5"@)),
        body@.get("instructions"@) == Some(v) ==> r@.get("system"@) == Some(v),
        body@.get("instructions"@) is None ==> r@.get("system"@) == Some(JsonView::Null),
        body@.get("tools"@) == Some(v) ==> r@.get("tools"@) == Some(v),
        body@.get("tools"@) is None ==> r@.get("tools"@) == Some(JsonView::Array(Seq::empty())),
        body@.get("stream"@) == Some(v) ==> r@.get("stream"@) == Some(v),
        body@.get("stream"@) is None ==> r@.get("stream"@) == Some(JsonView::Bool(false)),
        r@.get("enable_thinking"@) == Some(JsonView::Bool(body@.get("reasoning"@) is Some)),
        r@.get("messages"@) == Some(JsonView::Array(input_messages(body@.get("input"@)))),
{
    reveal_strlit("model");
    reveal_strlit("system");
    reveal_strlit("messages");
    reveal_strlit("tools");
    reveal_strlit("stream");
    reveal_strlit("enable_thinking");
    assert("model"@.len() == 5 && "model"@[0] == 'm');
    assert("system"@.len() == 6 && "system"@[1] == 'y');
    assert("messages"@.len() == 8);
    assert("tools"@.len() == 5 && "tools"@[0] == 't');
    assert("stream"@.len() == 6 && "stream"@[1] == 't');
    assert("enable_thinking"@.len() == 15);
}

/// A text is one message of the user. Of a list each item is a message, in its place: with its
/// own role, or else the user's, and with its own content.
pub proof fn inputs_are_messages(input: Option<JsonView>, i: int)
    ensures
        input matches Some(JsonView::Str(s)) ==> {
            let m = input_messages(input);
            &&& m.len() == 1
            &&& m[0].get("role"@) == Some(JsonView::Str("user"@))
            &&& m[0].get("content"@) == Some(JsonView::Str(s))
        },
        input matches Some(JsonView::Array(items)) ==> {
            let m = input_messages(input);
            &&& m.len() == items.len()
            &&& 0 <= i < items.len() ==> {
                &&& items[i].get("role"@) matches Some(JsonView::Str(role)) ==> m[i].get("role"@)
                    == Some(JsonView::Str(role))
                &&& !(items[i].get("role"@) matches Some(JsonView::Str(_))) ==> m[i].get("role"@)
                    == Some(JsonView::Str("user"@))
                &&& items[i].get("content"@) matches Some(c) ==> m[i].get("content"@) == Some(c)
                &&& items[i].get("content"@) is None ==> m[i].get("content"@) == Some(
                    JsonView::Null,
                )
            }
        },
        input is None ==> input_messages(input).len() == 0,
{
    reveal_strlit("role");
    reveal_strlit("content");
    assert("role"@.len() == 4);
    assert("content"@.len() == 7);
}

/// The text of a whole answer, where its client looks for it: in the first content of the first
/// output.
pub open spec fn whole_text(response: JsonView) -> Option<JsonView> {
    match response.get("output"@) {
        Some(JsonView::Array(output)) => match output[0].get("content"@) {
            Some(JsonView::Array(content)) => content[0].get("text"@),
            _ => None,
        },
        _ => None,
    }
}

/// A whole answer holds its text, word for word, its identifiers, its model, the time and the
/// count of its tokens.
pub proof fn answers_hold_their_text(
    id: &str,
    model: &str,
    text: &str,
    usage: &Usage,
    created_at: i64,
    message_id: &str,
    r: Json,
)
    requires
        call_ensures(build_response_object, (id, model, text, usage, created_at, message_id), r),
    ensures
        whole_text(r@) == Some(JsonView::Str(text@)),
        r@.get("id"@) == Some(JsonView::Str(id@)),
        r@.get("model"@) == Some(JsonView::Str(model@)),
        r@.get("object"@) == Some(JsonView::Str("response"@)),
        r@.get("status"@) == Some(JsonView::Str("completed"@)),
        r@.get("created_at"@) == Some(JsonView::Int(created_at as int)),
        ({
            let message = r@.get("output"@)->0->Array_0[0];
            &&& r@.get("output"@)->0->Array_0.len() == 1
            &&& message.get("id"@) == Some(JsonView::Str(message_id@))
            &&& message.get("type"@) == Some(JsonView::Str("message"@))
            &&& message.get("role"@) == Some(JsonView::Str("assistant"@))
            &&& message.get("status"@) == Some(JsonView::Str("completed"@))
            &&& message.get("content"@)->0->Array_0.len() == 1
            &&& message.get("content"@)->0->Array_0[0].get("type"@) == Some(
                JsonView::Str("output_text"@),
            )
        }),
        ({
            let count = r@.get("usage"@)->0;
            &&& count.get("input_tokens"@) == Some(JsonView::Int(usage.prompt_tokens as int))
            &&& count.get("output_tokens"@) == Some(JsonView::Int(usage.completion_tokens as int))
            &&& count.get("total_tokens"@) == Some(JsonView::Int(usage.total_tokens as int))
        }),
{
    lemma_response_fields(id@, model@, text@, *usage, created_at as int, message_id@);
}

proof fn lemma_response_fields(
    id: Seq<char>,
    model: Seq<char>,
    text: Seq<char>,
    usage: Usage,
    created_at: int,
    message_id: Seq<char>,
)
    ensures
        ({
            let r = response_object(id, model, text, usage, created_at, message_id);
            let message = r.get("output"@)->0->Array_0[0];
            let count = r.get("usage"@)->0;
            &&& whole_text(r) == Some(JsonView::Str(text))
            &&& r.get("id"@) == Some(JsonView::Str(id))
            &&& r.get("model"@) == Some(JsonView::Str(model))
            &&& r.get("object"@) == Some(JsonView::Str("response"@))
            &&& r.get("status"@) == Some(JsonView::Str("completed"@))
            &&& r.get("created_at"@) == Some(JsonView::Int(created_at))
            &&& r.get("output"@)->0->Array_0.len() == 1
            &&& message.get("id"@) == Some(JsonView::Str(message_id))
            &&& message.get("type"@) == Some(JsonView::Str("message"@))
            &&& message.get("role"@) == Some(JsonView::Str("assistant"@))
            &&& message.get("status"@) == Some(JsonView::Str("completed"@))
            &&& message.get("content"@)->0->Array_0.len() == 1
            &&& message.get("content"@)->0->Array_0[0].get("type"@) == Some(
                JsonView::Str("output_text"@),
            )
            &&& count.get("input_tokens"@) == Some(JsonView::Int(usage.prompt_tokens as int))
            &&& count.get("output_tokens"@) == Some(JsonView::Int(usage.completion_tokens as int))
            &&& count.get("total_tokens"@) == Some(JsonView::Int(usage.total_tokens as int))
        }),
{
    reveal_strlit("id");
    reveal_strlit("object");
    reveal_strlit("created_at");
    reveal_strlit("model");
    reveal_strlit("status");
    reveal_strlit("output");
    reveal_strlit("usage");
    reveal_strlit("type");
    reveal_strlit("role");
    reveal_strlit("content");
    reveal_strlit("text");
    reveal_strlit("annotations");
    reveal_strlit("input_tokens");
    reveal_strlit("output_tokens");
    reveal_strlit("total_tokens");
    assert("id"@.len() == 2);
    assert("object"@.len() == 6 && "object"@[0] == 'o' && "object"@[1] == 'b');
    assert("created_at"@.len() == 10);
    assert("model"@.len() == 5 && "model"@[0] == 'm');
    assert("status"@.len() == 6 && "status"@[0] == 's');
    assert("output"@.len() == 6 && "output"@[0] == 'o' && "output"@[1] == 'u');
    assert("usage"@.len() == 5 && "usage"@[0] == 'u');
    assert("type"@.len() == 4 && "type"@[0] == 't' && "type"@[1] == 'y');
    assert("role"@.len() == 4 && "role"@[0] == 'r');
    assert("content"@.len() == 7);
    assert("text"@.len() == 4 && "text"@[0] == 't' && "text"@[1] == 'e');
    assert("annotations"@.len() == 11);
    assert("input_tokens"@.len() == 12 && "input_tokens"@[0] == 'i');
    assert("output_tokens"@.len() == 13);
    assert("total_tokens"@.len() == 12 && "total_tokens"@[0] == 't');
}

/// Behind any events, a piece of the answer comes as an event with that piece, a piece of
/// reasoning with that piece, and a failure with its message; the end comes with the whole
/// answer, whose text is all the pieces of it put together, and with the mark of the end.
pub proof fn responses_are_shown_whole(
    st: ResponseView,
    evs: Seq<OutEvent>,
    ev: OutEvent,
    created_at: int,
    message_id: Seq<char>,
) -> (data: JsonView)
    requires
        st.text.len() == 0,
    ensures
        ({
            let shown = after_all(st, evs).events(ev, created_at, message_id);
            &&& ev matches OutEvent::ContentDelta(t) ==> {
                &&& shown == seq![event_text("response.output_text.delta"@, data)]
                &&& data.get("type"@) == Some(JsonView::Str("response.output_text.delta"@))
                &&& data.get("delta"@) == Some(JsonView::Str(t@))
            }
            &&& ev matches OutEvent::ReasoningDelta(t) ==> {
                &&& shown == seq![event_text("response.reasoning_text.delta"@, data)]
                &&& data.get("type"@) == Some(JsonView::Str("response.reasoning_text.delta"@))
                &&& data.get("delta"@) == Some(JsonView::Str(t@))
            }
            &&& ev matches OutEvent::Error(e) ==> {
                &&& shown == seq![event_text("error"@, data)]
                &&& data.get("type"@) == Some(JsonView::Str("error"@))
                &&& data.get("error"@)->0.get("message"@) == Some(JsonView::Str(e@))
            }
            &&& ev matches OutEvent::Done { usage, .. } ==> {
                let whole = data.get("response"@)->0;
                let count = whole.get("usage"@)->0;
                &&& shown == seq![
                    event_text("response.completed"@, data),
                    "data: [DONE]\n\n"@,
                ]
                &&& data.get("type"@) == Some(JsonView::Str("response.completed"@))
                &&& whole_text(whole) == Some(
                    JsonView::Str(gathered(evs, |ev: OutEvent| given_answer(ev))),
                )
                &&& whole.get("id"@) == Some(JsonView::Str(st.id))
                &&& whole.get("model"@) == Some(JsonView::Str(st.model))
                &&& whole.get("created_at"@) == Some(JsonView::Int(created_at))
                &&& count.get("input_tokens"@) == Some(JsonView::Int(usage.prompt_tokens as int))
                &&& count.get("output_tokens"@) == Some(
                    JsonView::Int(usage.completion_tokens as int),
                )
                &&& count.get("total_tokens"@) == Some(JsonView::Int(usage.total_tokens as int))
            }
            &&& ev is ToolCalls ==> shown.len() == 0
        }),
{
    reveal_strlit("type");
    reveal_strlit("delta");
    reveal_strlit("error");
    reveal_strlit("response");
    assert("type"@.len() == 4);
    assert("delta"@.len() == 5 && "delta"@[0] == 'd');
    assert("error"@.len() == 5 && "error"@[0] == 'e');
    assert("response"@.len() == 8);
    let object = crate::json::object();
    completed_text_is_all_pieces(st, evs);
    lemma_answer_text(evs);
    let now = after_all(st, evs);
    let typed = |t: Seq<char>| object.with("type"@, JsonView::Str(t));
    match ev {
        OutEvent::ContentDelta(t) => typed("response.output_text.delta"@).with(
            "delta"@,
            JsonView::Str(t@),
        ),
        OutEvent::ReasoningDelta(t) => typed("response.reasoning_text.delta"@).with(
            "delta"@,
            JsonView::Str(t@),
        ),
        OutEvent::Error(e) => typed("error"@).with(
            "error"@,
            object.with("message"@, JsonView::Str(e@)),
        ),
        OutEvent::Done { usage, .. } => {
            lemma_response_fields(now.id, now.model, now.text, usage, created_at, message_id);
            typed("response.completed"@).with(
                "response"@,
                response_object(now.id, now.model, now.text, usage, created_at, message_id),
            )
        },
        OutEvent::ToolCalls(_) => JsonView::Null,
    }
}

proof fn lemma_answer_text(evs: Seq<OutEvent>)
    ensures
        answer_text(evs) == gathered(evs, |ev: OutEvent| given_answer(ev)),
    decreases evs.len(),
{
    if evs.len() > 0 {
        lemma_answer_text(evs.drop_last());
    }
}

/// A stream of a response opens with its identifier and its model.
pub proof fn responses_open_with_their_identifier(st: ResponseView) -> (data: JsonView)
    ensures
        st.created() == event_text("response.created"@, data),
        data.get("type"@) == Some(JsonView::Str("response.created"@)),
        data.get("response"@)->0.get("id"@) == Some(JsonView::Str(st.id)),
        data.get("response"@)->0.get("model"@) == Some(JsonView::Str(st.model)),
        data.get("response"@)->0.get("status"@) == Some(JsonView::Str("in_progress"@)),
        data.get("response"@)->0.get("object"@) == Some(JsonView::Str("response"@)),
{
    reveal_strlit("type");
    reveal_strlit("response");
    reveal_strlit("id");
    reveal_strlit("object");
    reveal_strlit("model");
    reveal_strlit("status");
    assert("type"@.len() == 4);
    assert("response"@.len() == 8);
    assert("id"@.len() == 2);
    assert("object"@.len() == 6 && "object"@[0] == 'o');
    assert("model"@.len() == 5);
    assert("status"@.len() == 6 && "status"@[0] == 's');
    let object = crate::json::object();
    object.with("type"@, JsonView::Str("response.created"@)).with(
        "response"@,
        object.with("id"@, JsonView::Str(st.id)).with("object"@, JsonView::Str("response"@)).with(
            "model"@,
            JsonView::Str(st.model),
        ).with("status"@, JsonView::Str("in_progress"@)),
    )
}

/// A body is read as the JSON that it is, and is the client's fault where it is none; where
/// tokens are counted, a body that is no JSON says nothing.
pub proof fn bodies_are_read_as_json(body: &[u8], r: AppResult<Json>, counted: Json)
    requires
        call_ensures(parse_body, (body,), r),
        call_ensures(counted_body, (body,), counted),
    ensures
        json_parse(body@) matches Ok(v) ==> (r matches Ok(j) && j@ == v) && counted@ == v,
        json_parse(body@) is Err ==> (r matches Err(e) && e is BadRequest) && counted@
            == JsonView::Object(Map::empty()),
{
}

/// A completion that failed is the upstream's fault, with what it said; one that did not is none.
pub proof fn failures_are_the_upstreams(error: Option<&str>, r: AppResult<()>)
    requires
        call_ensures(collected, (error,), r),
    ensures
        r is Ok <==> error is None,
        error matches Some(e) ==> r->Err_0 is Upstream && r->Err_0->Upstream_0@ == e@,
{
}

/// An action asks for a stream exactly where the word stands in it.
pub proof fn streams_are_asked_for_by_name(action: &str, r: bool, a: Seq<char>, b: Seq<char>)
    requires
        call_ensures(is_stream_action, (action,), r),
    ensures
        action@ == a + "stream"@ + b ==> r,
        action@.len() < 6 ==> !r,
        !action@.contains('s') ==> !r,
{
    lemma_between(a, "stream"@, b);
    reveal_strlit("stream");
    if r && !action@.contains('s') {
        let i = choose|i: int| stands_at(action@, "stream"@, i);
        assert(action@.subrange(i, i + 6)[0] == action@[i]);
        assert("stream"@[0] == 's');
    }
}

/// A field is what its name says: the purpose, the file, which may go without a name, or
/// anything else. The gateway says that it is alive. Messages that name no model are for one of
/// the family.
pub proof fn names_say_what_they_are_for(
    name: &str,
    r: FieldKind,
    alive: Json,
    family: &str,
    model: String,
)
    requires
        call_ensures(field_kind, (name,), r),
        call_ensures(healthz, (), alive),
        call_ensures(default_message_model, (family,), model),
    ensures
        r == FieldKind::Purpose <==> name@ == "purpose"@,
        r == FieldKind::File <==> name@ == "file"@ || name@.len() == 0,
        alive@.get("status"@) == Some(JsonView::Str("ok"@)),
        stands_at(model@, family@, 0),
        ends_in(model@, "-3-5-sonnet"@),
        model@.len() == family@.len() + 11,
{
    reveal_strlit("purpose");
    reveal_strlit("file");
    assert("purpose"@.len() == 7);
    assert("file"@.len() == 4);
    reveal_strlit("-3-5-sonnet");
    assert(model@.subrange(0, family@.len() as int) =~= family@);
    assert(model@.subrange(family@.len() as int, model@.len() as int) =~= "-3-5-sonnet"@);
}

/// A form takes over what it is told: the purpose, or the file with its bytes, and with its name
/// and its type where it has them. What it is not told it keeps.
pub proof fn forms_take_what_they_are_told(
    form: &mut UploadForm,
    filename: Option<&str>,
    content_type: Option<&str>,
    bytes: Vec<u8>,
)
    requires
        call_ensures(UploadForm::set_file, (form, filename, content_type, bytes), ()),
    ensures
        final(form).bytes@ == bytes@,
        filename matches Some(n) ==> final(form).filename@ == n@,
        filename is None ==> final(form).filename@ == old(form).filename@,
        content_type matches Some(t) ==> final(form).content_type@ == t@,
        content_type is None ==> final(form).content_type@ == old(form).content_type@,
        final(form).purpose == old(form).purpose,
{
}

/// A form that is told its purpose keeps its file.
pub proof fn purposes_are_taken(form: &mut UploadForm, purpose: &str)
    requires
        call_ensures(UploadForm::set_purpose, (form, purpose), ()),
    ensures
        final(form).purpose@ == purpose@,
        final(form).filename == old(form).filename,
        final(form).content_type == old(form).content_type,
        final(form).bytes == old(form).bytes,
{
}

/// A stream of a response, event by event: a piece of the answer is shown and kept, a piece of
/// reasoning is shown and not kept, and the end shows all that was kept.
pub proof fn response_streams_keep_the_answer(
    stream: &mut ResponseStream,
    ev: &OutEvent,
    created_at: i64,
    message_id: &str,
    shown: Vec<String>,
) -> (data: JsonView)
    requires
        call_ensures(ResponseStream::on_event, (stream, ev, created_at, message_id), shown),
    ensures
        final(stream).id@ == old(stream).id@ && final(stream).model@ == old(stream).model@,
        *ev matches OutEvent::ContentDelta(t) ==> {
            &&& final(stream).text@ == old(stream).text@ + t@
            &&& shown@.len() == 1
            &&& shown@[0]@ == event_text("response.output_text.delta"@, data)
            &&& data.get("delta"@) == Some(JsonView::Str(t@))
        },
        !(*ev is ContentDelta) ==> final(stream).text@ == old(stream).text@,
        *ev matches OutEvent::ReasoningDelta(t) ==> {
            &&& shown@.len() == 1
            &&& shown@[0]@ == event_text("response.reasoning_text.delta"@, data)
            &&& data.get("delta"@) == Some(JsonView::Str(t@))
        },
        *ev is Done ==> {
            &&& shown@.len() == 2
            &&& shown@[0]@ == event_text("response.completed"@, data)
            &&& whole_text(data.get("response"@)->0) == Some(JsonView::Str(old(stream).text@))
        },
        *ev matches OutEvent::Error(e) ==> {
            &&& shown@.len() == 1
            &&& shown@[0]@ == event_text("error"@, data)
            &&& data.get("error"@)->0.get("message"@) == Some(JsonView::Str(e@))
        },
        *ev is ToolCalls ==> shown@.len() == 0,
{
    reveal_strlit("type");
    reveal_strlit("delta");
    reveal_strlit("error");
    reveal_strlit("response");
    assert("type"@.len() == 4);
    assert("delta"@.len() == 5 && "delta"@[0] == 'd');
    assert("error"@.len() == 5 && "error"@[0] == 'e');
    assert("response"@.len() == 8);
    let object = crate::json::object();
    let now = old(stream)@;
    let views = texts(shown@);
    assert(views.len() == shown@.len());
    if shown@.len() > 0 {
        assert(views[0] == shown@[0]@);
    }
    let typed = |t: Seq<char>| object.with("type"@, JsonView::Str(t));
    match *ev {
        OutEvent::ContentDelta(t) => typed("response.output_text.delta"@).with(
            "delta"@,
            JsonView::Str(t@),
        ),
        OutEvent::ReasoningDelta(t) => typed("response.reasoning_text.delta"@).with(
            "delta"@,
            JsonView::Str(t@),
        ),
        OutEvent::Error(e) => typed("error"@).with(
            "error"@,
            object.with("message"@, JsonView::Str(e@)),
        ),
        OutEvent::Done { usage, .. } => {
            let (at, id) = (created_at as int, message_id@);
            lemma_response_fields(now.id, now.model, now.text, usage, at, id);
            typed("response.completed"@).with(
                "response"@,
                response_object(now.id, now.model, now.text, usage, at, id),
            )
        },
        OutEvent::ToolCalls(_) => JsonView::Null,
    }
}

} // verus!
