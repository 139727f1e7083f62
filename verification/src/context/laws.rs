//! What becomes of the files that come with a request, told by the parts that bring them.

use crate::codec::{base64_bytes, percent_decoded};
use crate::context::{
    all_settled, data_uri, file_reference, in_store, inlined, is_textual, message_files,
    needs_account, part_file, part_files, raws, request_files, stored_for, text_name,
    text_to_inline, textual, wanted_file, RawAttachment, RawView, ResultView, StoredFile, Upload,
};
use crate::json::{Json, JsonView};
use crate::text::{after_last, begins_with, find, lemma_find_from, lower, occurs, stands_at};
use crate::text_laws::{
    first_character_divides, gathered, lemma_ending, lemma_gathered_concat,
};
use vstd::prelude::*;
use vstd::utf8::*;

verus! {

// ---------------------------------------------------------------------------
// Which files are texts
// ---------------------------------------------------------------------------

/// An extension of texts.
pub open spec fn text_extension(ext: Seq<char>) -> bool {
    ||| ext == "txt"@
    ||| ext == "md"@
    ||| ext == "json"@
    ||| ext == "log"@
    ||| ext == "xml"@
    ||| ext == "yaml"@
    ||| ext == "yml"@
    ||| ext == "csv"@
    ||| ext == "html"@
    ||| ext == "css"@
    ||| ext == "py"@
    ||| ext == "js"@
    ||| ext == "ts"@
    ||| ext == "java"@
    ||| ext == "c"@
    ||| ext == "cpp"@
    ||| ext == "cs"@
    ||| ext == "php"@
    ||| ext == "go"@
    ||| ext == "rb"@
    ||| ext == "sh"@
    ||| ext == "rs"@
    ||| ext == "toml"@
    ||| ext == "ini"@
}

/// A name is that of a text exactly where its extension is one of texts.
pub proof fn names_of_texts_have_their_extension(name: Seq<char>)
    ensures
        text_name(name) <==> name.contains('.') && text_extension(after_last(name, '.')),
{
    reveal_strlit(".txt");
    reveal_strlit("txt");
    assert(".txt"@ =~= seq!['.'] + "txt"@);
    lemma_ending(name, ".txt"@, "txt"@);
    reveal_strlit(".md");
    reveal_strlit("md");
    assert(".md"@ =~= seq!['.'] + "md"@);
    lemma_ending(name, ".md"@, "md"@);
    reveal_strlit(".json");
    reveal_strlit("json");
    assert(".json"@ =~= seq!['.'] + "json"@);
    lemma_ending(name, ".json"@, "json"@);
    reveal_strlit(".log");
    reveal_strlit("log");
    assert(".log"@ =~= seq!['.'] + "log"@);
    lemma_ending(name, ".log"@, "log"@);
    reveal_strlit(".xml");
    reveal_strlit("xml");
    assert(".xml"@ =~= seq!['.'] + "xml"@);
    lemma_ending(name, ".xml"@, "xml"@);
    reveal_strlit(".yaml");
    reveal_strlit("yaml");
    assert(".yaml"@ =~= seq!['.'] + "yaml"@);
    lemma_ending(name, ".yaml"@, "yaml"@);
    reveal_strlit(".yml");
    reveal_strlit("yml");
    assert(".yml"@ =~= seq!['.'] + "yml"@);
    lemma_ending(name, ".yml"@, "yml"@);
    reveal_strlit(".csv");
    reveal_strlit("csv");
    assert(".csv"@ =~= seq!['.'] + "csv"@);
    lemma_ending(name, ".csv"@, "csv"@);
    reveal_strlit(".html");
    reveal_strlit("html");
    assert(".html"@ =~= seq!['.'] + "html"@);
    lemma_ending(name, ".html"@, "html"@);
    reveal_strlit(".css");
    reveal_strlit("css");
    assert(".css"@ =~= seq!['.'] + "css"@);
    lemma_ending(name, ".css"@, "css"@);
    reveal_strlit(".py");
    reveal_strlit("py");
    assert(".py"@ =~= seq!['.'] + "py"@);
    lemma_ending(name, ".py"@, "py"@);
    reveal_strlit(".js");
    reveal_strlit("js");
    assert(".js"@ =~= seq!['.'] + "js"@);
    lemma_ending(name, ".js"@, "js"@);
    reveal_strlit(".ts");
    reveal_strlit("ts");
    assert(".ts"@ =~= seq!['.'] + "ts"@);
    lemma_ending(name, ".ts"@, "ts"@);
    reveal_strlit(".java");
    reveal_strlit("java");
    assert(".java"@ =~= seq!['.'] + "java"@);
    lemma_ending(name, ".java"@, "java"@);
    reveal_strlit(".c");
    reveal_strlit("c");
    assert(".c"@ =~= seq!['.'] + "c"@);
    lemma_ending(name, ".c"@, "c"@);
    reveal_strlit(".cpp");
    reveal_strlit("cpp");
    assert(".cpp"@ =~= seq!['.'] + "cpp"@);
    lemma_ending(name, ".cpp"@, "cpp"@);
    reveal_strlit(".cs");
    reveal_strlit("cs");
    assert(".cs"@ =~= seq!['.'] + "cs"@);
    lemma_ending(name, ".cs"@, "cs"@);
    reveal_strlit(".php");
    reveal_strlit("php");
    assert(".php"@ =~= seq!['.'] + "php"@);
    lemma_ending(name, ".php"@, "php"@);
    reveal_strlit(".go");
    reveal_strlit("go");
    assert(".go"@ =~= seq!['.'] + "go"@);
    lemma_ending(name, ".go"@, "go"@);
    reveal_strlit(".rb");
    reveal_strlit("rb");
    assert(".rb"@ =~= seq!['.'] + "rb"@);
    lemma_ending(name, ".rb"@, "rb"@);
    reveal_strlit(".sh");
    reveal_strlit("sh");
    assert(".sh"@ =~= seq!['.'] + "sh"@);
    lemma_ending(name, ".sh"@, "sh"@);
    reveal_strlit(".rs");
    reveal_strlit("rs");
    assert(".rs"@ =~= seq!['.'] + "rs"@);
    lemma_ending(name, ".rs"@, "rs"@);
    reveal_strlit(".toml");
    reveal_strlit("toml");
    assert(".toml"@ =~= seq!['.'] + "toml"@);
    lemma_ending(name, ".toml"@, "toml"@);
    reveal_strlit(".ini");
    reveal_strlit("ini");
    assert(".ini"@ =~= seq!['.'] + "ini"@);
    lemma_ending(name, ".ini"@, "ini"@);
}

/// A file is a text by its type whatever its name, and by its extension whatever its type;
/// capitals in the name make no difference. Any other file is none.
pub proof fn texts_are_told_by_type_or_name(
    content_type: &str,
    filename: &str,
    r: bool,
    kind: Seq<char>,
)
    requires
        call_ensures(is_textual, (content_type, filename), r),
    ensures
        content_type@ == "text/"@ + kind ==> r,
        content_type@ == "application/json"@ || content_type@ == "application/xml"@
            || content_type@ == "application/x-yaml"@ || content_type@
            == "application/javascript"@ ==> r,
        lower(filename@).contains('.') && text_extension(after_last(lower(filename@), '.')) ==> r,
        r ==> {
            ||| stands_at(content_type@, "text/"@, 0)
            ||| content_type@ == "application/json"@
            ||| content_type@ == "application/xml"@
            ||| content_type@ == "application/x-yaml"@
            ||| content_type@ == "application/javascript"@
            ||| lower(filename@).contains('.') && text_extension(after_last(lower(filename@), '.'))
        },
{
    names_of_texts_have_their_extension(lower(filename@));
    let t = "text/"@ + kind;
    assert(t.subrange(0, "text/"@.len() as int) =~= "text/"@);
}

// ---------------------------------------------------------------------------
// Addresses that hold data
// ---------------------------------------------------------------------------

/// A `data:` address gives the type that it begins with, up to a semicolon or a comma, and the
/// data behind the first comma: decoded from base64 where it says so before the comma, and from
/// percent signs where it does not.
pub proof fn addresses_hold_type_and_data(kind: Seq<char>, options: Seq<char>, data: Seq<char>)
    requires
        !kind.contains(','),
        !kind.contains(';'),
        !options.contains(','),
        options.len() > 0 ==> options[0] == ';',
    ensures
        ({
            let url = "data:"@ + (kind + options + seq![','] + data);
            let plain = percent_decoded(encode_utf8(data));
            &&& occurs(kind + options, ";base64"@) ==> match base64_bytes(data) {
                Some(bytes) => data_uri(url) == Some((kind, bytes)),
                None => data_uri(url) is None,
            }
            &&& !occurs(kind + options, ";base64"@) && valid_utf8(plain) ==> data_uri(url) == Some(
                (kind, plain),
            )
            &&& !occurs(kind + options, ";base64"@) && !valid_utf8(plain) ==> data_uri(url) is None
        }),
{
    reveal_strlit("data:");
    let meta = kind + options;
    let rest = meta + seq![','] + data;
    let url = "data:"@ + rest;
    assert(url.skip(5) =~= rest);
    assert(url.subrange(0, 5) =~= "data:"@);
    assert(!meta.contains(',')) by {
        if meta.contains(',') {
            let i = choose|i: int| 0 <= i < meta.len() && meta[i] == ',';
            if i < kind.len() {
                assert(kind[i] == ',');
            } else {
                assert(options[i - kind.len()] == ',');
            }
        }
    }
    lemma_first_comma(meta, data);
    assert(rest.take(meta.len() as int) =~= meta);
    assert(rest.skip(meta.len() as int + 1) =~= data);
    if options.len() > 0 {
        first_character_divides(kind, ';', options.skip(1));
        assert(meta =~= kind + seq![';'] + options.skip(1));
    } else {
        first_character_divides(kind, ';', Seq::empty());
        assert(meta =~= kind);
    }
}

proof fn lemma_first_comma(meta: Seq<char>, data: Seq<char>)
    requires
        !meta.contains(','),
    ensures
        find(meta + seq![','] + data, seq![',']) == Some(meta.len() as int),
{
    let s = meta + seq![','] + data;
    let needle = seq![','];
    lemma_find_from(s, needle, 0);
    assert(s.subrange(meta.len() as int, meta.len() as int + 1) =~= needle);
    assert(stands_at(s, needle, meta.len() as int));
    assert forall|i: int| 0 <= i < meta.len() implies !stands_at(s, needle, i) by {
        if stands_at(s, needle, i) {
            assert(s.subrange(i, i + 1)[0] == s[i]);
            assert(meta[i] == ',');
        }
    }
}

/// Any other address holds nothing: one that does not begin with `data:`, and one without a
/// comma.
pub proof fn other_addresses_hold_nothing(url: Seq<char>)
    ensures
        !stands_at(url, "data:"@, 0) ==> data_uri(url) is None,
        !url.contains(',') ==> data_uri(url) is None,
{
    if !url.contains(',') && data_uri(url) is Some {
        let rest = url.skip(5);
        lemma_find_from(rest, seq![','], 0);
        let i = find(rest, seq![','])->0;
        reveal_strlit("data:");
        assert(rest.subrange(i, i + 1)[0] == rest[i]);
        assert(url[i + 5] == ',');
    }
}

// ---------------------------------------------------------------------------
// Parts
// ---------------------------------------------------------------------------

/// A part that refers to a file of the store brings that file, as it is stored; one that refers
/// to none that is there brings the data that it holds itself, under the name that it gives.
pub proof fn parts_bring_files(
    part: JsonView,
    stored: Option<RawView>,
    src: Seq<char>,
    kind: Seq<char>,
    bytes: Seq<u8>,
)
    requires
        part.get("type"@) == Some(JsonView::Str("input_file"@)) || part.get("type"@) == Some(
            JsonView::Str("file"@),
        ),
    ensures
        part.get("file_id"@) matches Some(JsonView::Str(_)) && stored is Some ==> part_file(
            part,
            stored,
        ) == stored,
        (stored is None || !(part.get("file_id"@) matches Some(JsonView::Str(_)))) && (part.get(
            "file_data"@,
        ) == Some(JsonView::Str(src)) || (part.get("file_data"@) is None && part.get("data"@)
            == Some(JsonView::Str(src)))) ==> {
            &&& data_uri(src) == Some((kind, bytes)) ==> (part_file(part, stored) matches Some(
                f,
            ) && f.content_type == kind && f.bytes == bytes && match part.get("filename"@) {
                Some(JsonView::Str(name)) => f.filename == name,
                _ => f.filename == "file"@,
            })
            &&& data_uri(src) is None ==> part_file(part, stored) is None
        },
        file_reference(part) is Some <==> part.get("file_id"@) matches Some(JsonView::Str(_)),
        part.get("file_id"@) matches Some(JsonView::Str(id)) ==> file_reference(part) == Some(id),
{
}

/// A part with the address of an image brings the image that the address holds; a part with an
/// image in base64 brings that, under the type that it gives or else as a PNG. Both are named
/// after their type. A part of another type brings nothing.
pub proof fn parts_bring_images(
    part: JsonView,
    stored: Option<RawView>,
    text: Seq<char>,
    kind: Seq<char>,
    bytes: Seq<u8>,
)
    ensures
        part.get("type"@) == Some(JsonView::Str("image_url"@)) && (part.get("image_url"@) matches
            Some(u) && u.get("url"@) == Some(JsonView::Str(text))) && data_uri(text) == Some(
            (kind, bytes),
        ) ==> part_file(part, stored) == Some(
            RawView {
                filename: "image."@ + after_last(kind, '/'),
                content_type: kind,
                bytes,
            },
        ),
        part.get("type"@) == Some(JsonView::Str("image_url"@)) && (part.get("image_url"@) matches
            Some(u) && u.get("url"@) == Some(JsonView::Str(text))) && data_uri(text) is None
            ==> part_file(part, stored) is None,
        part.get("type"@) == Some(JsonView::Str("image"@)) && (part.get("source"@) matches Some(s)
            && s.get("type"@) == Some(JsonView::Str("base64"@)) && s.get("data"@) == Some(
            JsonView::Str(text),
        ) && (s.get("media_type"@) == Some(JsonView::Str(kind)) || (s.get("media_type"@) is None
            && kind == "image/png"@))) && base64_bytes(text) == Some(bytes) ==> part_file(
            part,
            stored,
        ) == Some(
            RawView {
                filename: "image."@ + after_last(kind, '/'),
                content_type: kind,
                bytes,
            },
        ),
        part.get("type"@) == Some(JsonView::Str("image"@)) && (part.get("source"@) matches Some(s)
            && s.get("data"@) == Some(JsonView::Str(text))) && base64_bytes(text) is None
            ==> part_file(part, stored) is None,
        part.get("type"@) != Some(JsonView::Str("input_file"@)) && part.get("type"@) != Some(
            JsonView::Str("file"@),
        ) && part.get("type"@) != Some(JsonView::Str("image_url"@)) && part.get("type"@) != Some(
            JsonView::Str("image"@),
        ) ==> part_file(part, stored) is None,
{
    reveal_strlit("input_file");
    reveal_strlit("file");
    reveal_strlit("image_url");
    reveal_strlit("image");
    assert("input_file"@.len() == 10);
    assert("file"@.len() == 4);
    assert("image_url"@.len() == 9);
    assert("image"@.len() == 5);
}

/// The store gives the file that was last stored under an identifier, and nothing under an
/// identifier that nothing was stored under.
pub proof fn stored_files_are_found(store: Seq<StoredFile>, id: Seq<char>, i: int)
    requires
        -1 <= i,
        forall|k: int| i < k < store.len() ==> (#[trigger] store[k]).id@ != id,
    ensures
        0 <= i < store.len() && store[i].id@ == id ==> in_store(store, id) == Some(store[i].file@),
        i < 0 ==> in_store(store, id) is None,
    decreases store.len(),
{
    if store.len() > 0 && i < store.len() - 1 {
        let rest = store.drop_last();
        assert(store.last() == store[store.len() - 1]);
        assert forall|k: int| i < k < rest.len() implies (#[trigger] rest[k]).id@ != id by {
            assert(rest[k] == store[k]);
        }
        stored_files_are_found(rest, id, i);
    }
}

/// What a part of a request brings, with the help of the store.
pub open spec fn brought(store: Seq<StoredFile>, part: JsonView) -> Seq<RawView> {
    let stored = match part.get("file_id"@) {
        Some(JsonView::Str(id)) => in_store(store, id),
        _ => None,
    };
    match part_file(part, stored) {
        Some(f) => seq![f],
        None => Seq::empty(),
    }
}

/// The parts of a message.
pub open spec fn parts_of(m: JsonView) -> Seq<JsonView> {
    match m.get("content"@) {
        Some(JsonView::Array(parts)) => parts,
        _ => Seq::empty(),
    }
}

/// The files of a request are those that the parts of its messages bring, part by part and
/// message by message.
pub proof fn all_parts_bring_their_files(
    body: JsonView,
    messages: Seq<JsonView>,
    store: Seq<StoredFile>,
)
    requires
        body.get("messages"@) == Some(JsonView::Array(messages)),
    ensures
        request_files(body, store) == gathered(
            gathered(messages, |m: JsonView| parts_of(m)),
            |p: JsonView| brought(store, p),
        ),
{
    lemma_message_files(messages, store);
}

proof fn lemma_message_files(messages: Seq<JsonView>, store: Seq<StoredFile>)
    ensures
        message_files(messages, store) == gathered(
            gathered(messages, |m: JsonView| parts_of(m)),
            |p: JsonView| brought(store, p),
        ),
    decreases messages.len(),
{
    if messages.len() > 0 {
        let rest = messages.drop_last();
        lemma_message_files(rest, store);
        lemma_part_files(parts_of(messages.last()), store);
        lemma_gathered_concat(
            gathered(rest, |m: JsonView| parts_of(m)),
            parts_of(messages.last()),
            |p: JsonView| brought(store, p),
        );
    }
}

proof fn lemma_part_files(parts: Seq<JsonView>, store: Seq<StoredFile>)
    ensures
        part_files(parts, store) == gathered(parts, |p: JsonView| brought(store, p)),
    decreases parts.len(),
{
    if parts.len() > 0 {
        lemma_part_files(parts.drop_last(), store);
        lemma_brought(parts.last(), store);
    }
}

proof fn lemma_brought(part: JsonView, store: Seq<StoredFile>)
    ensures
        brought(store, part) == (match part_file(part, stored_for(store, part)) {
            Some(f) => seq![f],
            None => Seq::empty(),
        }),
{
    reveal_strlit("input_file");
    reveal_strlit("file");
    reveal_strlit("image_url");
    reveal_strlit("image");
    assert("input_file"@.len() == 10);
    assert("file"@.len() == 4);
    assert("image_url"@.len() == 9);
    assert("image"@.len() == 5);
}

// ---------------------------------------------------------------------------
// What becomes of files
// ---------------------------------------------------------------------------

/// A file goes into the prompt exactly where it is a text by type or name, its bytes are
/// a text, and that text is not too long; what goes in is that text, character for character.
pub proof fn short_texts_go_into_the_prompt(
    a: &RawAttachment,
    inline_max: usize,
    r: Option<String>,
    text: Seq<char>,
)
    requires
        call_ensures(text_to_inline, (a, inline_max), r),
        a.bytes@ == encode_utf8(text),
    ensures
        r is Some <==> text.len() <= inline_max && textual(a.content_type@, a.filename@),
        r matches Some(t) ==> t@ == text,
{
    encode_utf8_decode_utf8(text);
    encode_utf8_valid_utf8(text);
}

/// A file whose bytes are no text never goes into the prompt.
pub proof fn other_bytes_stay_out_of_the_prompt(
    a: &RawAttachment,
    inline_max: usize,
    r: Option<String>,
)
    requires
        call_ensures(text_to_inline, (a, inline_max), r),
        !valid_utf8(a.bytes@),
    ensures
        r is None,
{
}

/// Files are settled one by one. A text in the prompt adds its name and itself to the note and
/// nothing else. Another file for which there is an account adds the reference that its upload
/// gave, and binds the account, or, where the upload failed, adds its name to the note; nothing
/// that came before is changed. Without an account or an upload nothing is added.
pub proof fn files_are_settled_one_by_one(
    files: Seq<RawView>,
    inline_max: int,
    account: Option<Seq<char>>,
    uploads: Seq<Upload>,
)
    requires
        files.len() > 0,
        uploads.len() == files.len(),
    ensures
        ({
            let before = all_settled(files.drop_last(), inline_max, account, uploads);
            let now = all_settled(files, inline_max, account, uploads);
            let a = files.last();
            let n = before.inline_note.len() as int;
            &&& inlined(a, inline_max) matches Some(text) ==> {
                &&& now.files == before.files
                &&& now.bound_account == before.bound_account
                &&& begins_with(now.inline_note, before.inline_note)
                &&& stands_at(now.inline_note, a.filename, n + 18)
                &&& stands_at(now.inline_note, text, n + 18 + a.filename.len() + 6)
                &&& now.inline_note.len() == n + 18 + a.filename.len() + 6 + text.len() + 4
            }
            &&& inlined(a, inline_max) is None ==> match (account, uploads.last()) {
                (Some(email), Upload::Uploaded(file)) => {
                    &&& now.files == before.files.push(file@)
                    &&& now.bound_account == Some(email)
                    &&& now.inline_note == before.inline_note
                },
                (Some(_), Upload::Failed) => {
                    &&& now.files == before.files
                    &&& now.bound_account == before.bound_account
                    &&& begins_with(now.inline_note, before.inline_note)
                    &&& stands_at(now.inline_note, a.filename, n + 14)
                    &&& now.inline_note.len() > n + 14 + a.filename.len()
                },
                _ => now == before,
            }
        }),
        all_settled(Seq::empty(), inline_max, account, uploads) == (ResultView {
            files: Seq::empty(),
            inline_note: Seq::empty(),
            bound_account: None,
        }),
{
    reveal_strlit("\n\n[Attached file: ");
    reveal_strlit("]\n```\n");
    reveal_strlit("\n```");
    reveal_strlit("\n\n[Attachment ");
    reveal_strlit(" upload failed and was skipped]");
    let before = all_settled(files.drop_last(), inline_max, account, uploads);
    let now = all_settled(files, inline_max, account, uploads);
    let a = files.last();
    let n = before.inline_note.len() as int;
    let m = a.filename.len() as int;
    let note = now.inline_note;
    assert(uploads.last() == uploads[files.len() - 1]);
    if now.inline_note.len() >= n {
        assert(begins_with(note, before.inline_note)) by {
            assert(note.subrange(0, n) =~= before.inline_note);
        }
    }
    match inlined(a, inline_max) {
        Some(text) => {
            assert(note.subrange(n + 18, n + 18 + m) =~= a.filename);
            assert(note.subrange(n + 18 + m + 6, n + 18 + m + 6 + text.len()) =~= text);
        },
        None => {
            if account is Some && uploads.last() is Failed {
                assert(note.subrange(n + 14, n + 14 + m) =~= a.filename);
            }
        },
    }
}

/// A part refers to a file of the store exactly where it is of a type of files and gives an
/// identifier.
pub proof fn references_are_of_files(part: &Json, r: Option<&str>)
    requires
        call_ensures(wanted_file, (part,), r),
    ensures
        r is Some <==> (part@.get("type"@) == Some(JsonView::Str("input_file"@)) || part@.get(
            "type"@,
        ) == Some(JsonView::Str("file"@))) && (part@.get("file_id"@) matches Some(
            JsonView::Str(_),
        )),
        r matches Some(id) ==> part@.get("file_id"@) == Some(JsonView::Str(id@)),
{
}

/// An account is needed exactly where some file does not go into the prompt.
pub proof fn accounts_are_needed_for_uploads(
    files: &Vec<RawAttachment>,
    inline_max: usize,
    r: bool,
    i: int,
    text: Option<String>,
)
    requires
        call_ensures(needs_account, (files, inline_max), r),
        0 <= i < files@.len(),
        call_ensures(text_to_inline, (&files@[i], inline_max), text),
    ensures
        text is None ==> r,
        files@.len() == 1 && text is Some ==> !r,
{
    assert(raws(files@)[i] == files@[i]@);
    if r && files@.len() == 1 {
        let k = choose|k: int|
            0 <= k < raws(files@).len() && inlined(
                #[trigger] raws(files@)[k],
                inline_max as int,
            ) is None;
        assert(k == i);
    }
}

} // verus!
