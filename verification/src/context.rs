//! The files that come with a request: small texts go into the prompt, all else is uploaded.

pub mod laws;
pub mod oss;
pub mod upload;
pub mod upload_laws;

use crate::codec::{base64_bytes, base64_decode, percent_decode, percent_decoded};
use crate::json::{items_view, lemma_items_push, lemma_items_view, Json, JsonView};
use crate::text::{
    after_last, before_first, begins_with, char_vec, contains_text, ends_in, ends_with_text, find,
    find_chars, lemma_find_from, lower, lower_text, occurs, opt_string, opt_text, same_text,
    starts_with_text, text_after_last, text_before_first, text_between,
};
use crate::toolcall::parse::{first_of, opt_seq};
use vstd::prelude::*;
use vstd::utf8::*;

verus! {

/// What became of the files of a request.
#[derive(Debug)]
pub struct AttachmentResult {
    /// The uploaded files, as the upstream refers to them.
    pub files: Vec<Json>,
    /// The files that go into the prompt.
    pub inline_note: String,
    /// The account that holds the uploaded files; the conversation has to stay with it.
    pub bound_account: Option<String>,
}

/// A file that came with a request.
#[derive(Debug)]
pub struct RawAttachment {
    pub filename: String,
    pub content_type: String,
    pub bytes: Vec<u8>,
}

/// A file that came with a request, as values.
pub struct RawView {
    pub filename: Seq<char>,
    pub content_type: Seq<char>,
    pub bytes: Seq<u8>,
}

impl View for RawAttachment {
    type V = RawView;

    open spec fn view(&self) -> RawView {
        RawView {
            filename: self.filename@,
            content_type: self.content_type@,
            bytes: self.bytes@,
        }
    }
}

/// A file as a value, where there is one.
pub open spec fn opt_raw(a: Option<RawAttachment>) -> Option<RawView> {
    match a {
        Some(x) => Some(x@),
        None => None,
    }
}

/// A file of the store, with its identifier.
#[derive(Debug)]
pub struct StoredFile {
    pub id: String,
    pub file: RawAttachment,
}

/// What became of an upload.
#[derive(Debug)]
pub enum Upload {
    /// There was nothing to upload, or nobody to upload it for.
    Skipped,
    /// The upstream refers to the file by this.
    Uploaded(Json),
    /// It failed.
    Failed,
}

// ---------------------------------------------------------------------------
// Which files are texts
// ---------------------------------------------------------------------------

/// A name that ends like that of a text.
pub open spec fn text_name(name: Seq<char>) -> bool {
    ||| ends_in(name, ".txt"@)
    ||| ends_in(name, ".md"@)
    ||| ends_in(name, ".json"@)
    ||| ends_in(name, ".log"@)
    ||| ends_in(name, ".xml"@)
    ||| ends_in(name, ".yaml"@)
    ||| ends_in(name, ".yml"@)
    ||| ends_in(name, ".csv"@)
    ||| ends_in(name, ".html"@)
    ||| ends_in(name, ".css"@)
    ||| ends_in(name, ".py"@)
    ||| ends_in(name, ".js"@)
    ||| ends_in(name, ".ts"@)
    ||| ends_in(name, ".java"@)
    ||| ends_in(name, ".c"@)
    ||| ends_in(name, ".cpp"@)
    ||| ends_in(name, ".cs"@)
    ||| ends_in(name, ".php"@)
    ||| ends_in(name, ".go"@)
    ||| ends_in(name, ".rb"@)
    ||| ends_in(name, ".sh"@)
    ||| ends_in(name, ".rs"@)
    ||| ends_in(name, ".toml"@)
    ||| ends_in(name, ".ini"@)
}

/// A file that is a text, by its type or by its name.
pub open spec fn textual(content_type: Seq<char>, filename: Seq<char>) -> bool {
    ||| begins_with(content_type, "text/"@)
    ||| content_type == "application/json"@
    ||| content_type == "application/xml"@
    ||| content_type == "application/x-yaml"@
    ||| content_type == "application/javascript"@
    ||| text_name(lower(filename))
}

fn has_text_name(name: &str) -> (r: bool)
    ensures
        r == text_name(name@),
{
    ends_with_text(name, ".txt")
        || ends_with_text(name, ".md")
        || ends_with_text(name, ".json")
        || ends_with_text(name, ".log")
        || ends_with_text(name, ".xml")
        || ends_with_text(name, ".yaml")
        || ends_with_text(name, ".yml")
        || ends_with_text(name, ".csv")
        || ends_with_text(name, ".html")
        || ends_with_text(name, ".css")
        || ends_with_text(name, ".py")
        || ends_with_text(name, ".js")
        || ends_with_text(name, ".ts")
        || ends_with_text(name, ".java")
        || ends_with_text(name, ".c")
        || ends_with_text(name, ".cpp")
        || ends_with_text(name, ".cs")
        || ends_with_text(name, ".php")
        || ends_with_text(name, ".go")
        || ends_with_text(name, ".rb")
        || ends_with_text(name, ".sh")
        || ends_with_text(name, ".rs")
        || ends_with_text(name, ".toml")
        || ends_with_text(name, ".ini")
}

/// Whether a file is a text, by its type or by its name.
pub fn is_textual(content_type: &str, filename: &str) -> (r: bool)
    ensures
        r == textual(content_type@, filename@),
{
    if starts_with_text(content_type, "text/") {
        return true;
    }
    if same_text(content_type, "application/json") || same_text(content_type, "application/xml")
        || same_text(content_type, "application/x-yaml") || same_text(
        content_type,
        "application/javascript",
    ) {
        return true;
    }
    has_text_name(lower_text(filename).as_str())
}

// ---------------------------------------------------------------------------
// Finding files in a request
// ---------------------------------------------------------------------------

/// The type and the bytes that a `data:` address holds: behind the first comma, in base64
/// where the part before it says so, percent-encoded otherwise. The type is what stands before
/// the first semicolon.
pub open spec fn data_uri(url: Seq<char>) -> Option<(Seq<char>, Seq<u8>)> {
    let rest = url.skip(5);
    match find(rest, seq![',']) {
        Some(i) => {
            let meta = rest.take(i);
            let data = rest.skip(i + 1);
            let plain = percent_decoded(encode_utf8(data));
            if !begins_with(url, "data:"@) {
                None
            } else if occurs(meta, ";base64"@) {
                match base64_bytes(data) {
                    Some(bytes) => Some((before_first(meta, ';'), bytes)),
                    None => None,
                }
            } else if valid_utf8(plain) {
                Some((before_first(meta, ';'), plain))
            } else {
                None
            }
        },
        None => None,
    }
}

/// The type and the bytes of a pair.
pub open spec fn opt_data(v: Option<(String, Vec<u8>)>) -> Option<(Seq<char>, Seq<u8>)> {
    match v {
        Some(x) => Some((x.0@, x.1@)),
        None => None,
    }
}

/// The type and the bytes that a `data:` address holds.
pub fn parse_data_uri(url: &str) -> (r: Option<(String, Vec<u8>)>)
    ensures
        opt_data(r) == data_uri(url@),
{
    if !starts_with_text(url, "data:") {
        return None;
    }
    proof {
        reveal_strlit("data:");
    }
    let chars = char_vec(url);
    let n: usize = chars.len();
    let rest = text_between(&chars, 5, n);
    proof {
        assert(rest@ =~= url@.skip(5));
    }
    let rest_chars = char_vec(rest.as_str());
    let comma: Vec<char> = vec![','];
    proof {
        assert(comma@ =~= seq![',']);
        lemma_find_from(rest@, seq![','], 0);
    }
    match find_chars(&rest_chars, &comma) {
        Some(i) => {
            let meta = text_between(&rest_chars, 0, i);
            let data = text_between(&rest_chars, i + 1, rest_chars.len());
            proof {
                assert(meta@ =~= rest@.take(i as int));
                assert(data@ =~= rest@.skip(i + 1));
                encode_utf8_valid_utf8(data@);
            }
            let ct = text_before_first(meta.as_str(), ';');
            if contains_text(meta.as_str(), ";base64") {
                match base64_decode(data.as_str()) {
                    Some(bytes) => Some((ct, bytes)),
                    None => None,
                }
            } else {
                match percent_decode(data.as_str()) {
                    Some(text) => {
                        proof {
                            encode_utf8_valid_utf8(text@);
                        }
                        Some((ct, bytes_of(text.as_str())))
                    },
                    None => None,
                }
            }
        },
        None => None,
    }
}

/// The bytes of a text.
fn bytes_of(s: &str) -> (r: Vec<u8>)
    ensures
        r@ == encode_utf8(s@),
{
    let b = s.as_bytes();
    let n: usize = b.len();
    let mut out: Vec<u8> = Vec::new();
    let mut i: usize = 0;
    while i < n
        invariant
            n == b@.len(),
            i <= n,
            out@ == b@.take(i as int),
        decreases n - i,
    {
        out.push(b[i]);
        proof {
            assert(b@.take(i as int + 1) =~= b@.take(i as int).push(b@[i as int]));
        }
        i += 1;
    }
    proof {
        assert(b@.take(n as int) =~= b@);
    }
    out
}

/// The identifier of the file in the store that a part of a message refers to.
pub open spec fn file_reference(part: JsonView) -> Option<Seq<char>> {
    match part.get_str("type"@) {
        Some(t) => if t == "input_file"@ || t == "file"@ {
            part.get_str("file_id"@)
        } else {
            None
        },
        None => None,
    }
}

/// A text, or another where there is none.
pub open spec fn text_or(s: Option<Seq<char>>, other: Seq<char>) -> Seq<char> {
    match s {
        Some(x) => x,
        None => other,
    }
}

/// The name of an image of a type.
pub open spec fn image_name(content_type: Seq<char>) -> Seq<char> {
    "image."@ + after_last(content_type, '/')
}

/// The file that a part of a message holds itself.
pub open spec fn embedded_file(part: JsonView) -> Option<RawView> {
    match first_of(part.get("file_data"@), part.get("data"@)) {
        Some(JsonView::Str(src)) => match data_uri(src) {
            Some((content_type, bytes)) => Some(
                RawView {
                    filename: text_or(part.get_str("filename"@), "file"@),
                    content_type,
                    bytes,
                },
            ),
            None => None,
        },
        _ => None,
    }
}

/// The image that a part of a message holds in an address.
pub open spec fn addressed_image(part: JsonView) -> Option<RawView> {
    match part.get("image_url"@) {
        Some(u) => match u.get_str("url"@) {
            Some(url) => match data_uri(url) {
                Some((content_type, bytes)) => Some(
                    RawView { filename: image_name(content_type), content_type, bytes },
                ),
                None => None,
            },
            None => None,
        },
        None => None,
    }
}

/// The image that a part of a message holds in base64.
pub open spec fn sourced_image(part: JsonView) -> Option<RawView> {
    match part.get("source"@) {
        Some(src) => if src.get_str("type"@) == Some("base64"@) {
            match src.get_str("data"@) {
                Some(data) => match base64_bytes(data) {
                    Some(bytes) => {
                        let content_type = text_or(src.get_str("media_type"@), "image/png"@);
                        Some(RawView { filename: image_name(content_type), content_type, bytes })
                    },
                    None => None,
                },
                None => None,
            }
        } else {
            None
        },
        None => None,
    }
}

/// The file that a part of a message brings: the one of the store that it refers to, where
/// the store has it, or the one that it holds itself.
pub open spec fn part_file(part: JsonView, stored: Option<RawView>) -> Option<RawView> {
    match part.get_str("type"@) {
        Some(t) => if t == "input_file"@ || t == "file"@ {
            if file_reference(part) is Some && stored is Some {
                stored
            } else {
                embedded_file(part)
            }
        } else if t == "image_url"@ {
            addressed_image(part)
        } else if t == "image"@ {
            sourced_image(part)
        } else {
            None
        },
        None => None,
    }
}

fn text_or_else(s: Option<&str>, other: &str) -> (r: String)
    ensures
        r@ == text_or(opt_text(s), other@),
{
    match s {
        Some(x) => x.to_string(),
        None => other.to_string(),
    }
}

fn name_of_image(content_type: &str) -> (r: String)
    ensures
        r@ == image_name(content_type@),
{
    let mut r = "image.".to_string();
    r.append(text_after_last(content_type, '/').as_str());
    r
}

/// Another file with the same contents.
fn copy_raw(a: &RawAttachment) -> (r: RawAttachment)
    ensures
        r@ == a@,
{
    RawAttachment {
        filename: a.filename.as_str().to_string(),
        content_type: a.content_type.as_str().to_string(),
        bytes: a.bytes.clone(),
    }
}

fn read_embedded_file(part: &Json) -> (r: Option<RawAttachment>)
    ensures
        opt_raw(r) == embedded_file(part@),
{
    let src = match part.get("file_data") {
        Some(x) => Some(x),
        None => part.get("data"),
    };
    match src {
        Some(v) => match v.as_str() {
            Some(s) => match parse_data_uri(s) {
                Some((content_type, bytes)) => Some(
                    RawAttachment {
                        filename: text_or_else(part.get_str("filename"), "file"),
                        content_type,
                        bytes,
                    },
                ),
                None => None,
            },
            None => None,
        },
        None => None,
    }
}

fn read_addressed_image(part: &Json) -> (r: Option<RawAttachment>)
    ensures
        opt_raw(r) == addressed_image(part@),
{
    match part.get("image_url") {
        Some(u) => match u.get_str("url") {
            Some(url) => match parse_data_uri(url) {
                Some((content_type, bytes)) => Some(
                    RawAttachment {
                        filename: name_of_image(content_type.as_str()),
                        content_type,
                        bytes,
                    },
                ),
                None => None,
            },
            None => None,
        },
        None => None,
    }
}

fn read_sourced_image(part: &Json) -> (r: Option<RawAttachment>)
    ensures
        opt_raw(r) == sourced_image(part@),
{
    match part.get("source") {
        Some(src) => {
            let is_base64 = match src.get_str("type") {
                Some(t) => same_text(t, "base64"),
                None => false,
            };
            if !is_base64 {
                return None;
            }
            match src.get_str("data") {
                Some(data) => match base64_decode(data) {
                    Some(bytes) => {
                        let content_type = text_or_else(src.get_str("media_type"), "image/png");
                        Some(
                            RawAttachment {
                                filename: name_of_image(content_type.as_str()),
                                content_type,
                                bytes,
                            },
                        )
                    },
                    None => None,
                },
                None => None,
            }
        },
        None => None,
    }
}

/// The identifier of the file in the store that a part of a message refers to.
pub fn wanted_file(part: &Json) -> (r: Option<&str>)
    ensures
        opt_text(r) == file_reference(part@),
{
    match part.get_str("type") {
        Some(t) => if same_text(t, "input_file") || same_text(t, "file") {
            part.get_str("file_id")
        } else {
            None
        },
        None => None,
    }
}

/// The file that a part of a message brings. `stored` is what the store holds under the
/// identifier that the part refers to.
pub fn extract_from_part(part: &Json, stored: Option<&RawAttachment>) -> (r: Option<
    RawAttachment,
>)
    ensures
        opt_raw(r) == part_file(
            part@,
            match stored {
                Some(a) => Some(a@),
                None => None,
            },
        ),
{
    match part.get_str("type") {
        Some(t) => if same_text(t, "input_file") || same_text(t, "file") {
            match (wanted_file(part), stored) {
                (Some(_), Some(a)) => Some(copy_raw(a)),
                _ => read_embedded_file(part),
            }
        } else if same_text(t, "image_url") {
            read_addressed_image(part)
        } else if same_text(t, "image") {
            read_sourced_image(part)
        } else {
            None
        },
        None => None,
    }
}

/// The file of an identifier in what the store holds.
pub open spec fn in_store(store: Seq<StoredFile>, id: Seq<char>) -> Option<RawView>
    decreases store.len(),
{
    if store.len() == 0 {
        None
    } else if store.last().id@ == id {
        Some(store.last().file@)
    } else {
        in_store(store.drop_last(), id)
    }
}

/// What the store holds for a part.
pub open spec fn stored_for(store: Seq<StoredFile>, part: JsonView) -> Option<RawView> {
    match file_reference(part) {
        Some(id) => in_store(store, id),
        None => None,
    }
}

/// The files that the parts of a message bring.
pub open spec fn part_files(parts: Seq<JsonView>, store: Seq<StoredFile>) -> Seq<RawView>
    decreases parts.len(),
{
    if parts.len() == 0 {
        Seq::empty()
    } else {
        part_files(parts.drop_last(), store) + opt_seq(
            part_file(parts.last(), stored_for(store, parts.last())),
        )
    }
}

/// The parts of a message.
pub open spec fn message_parts(m: JsonView) -> Seq<JsonView> {
    match m.get_array("content"@) {
        Some(parts) => parts,
        None => Seq::empty(),
    }
}

/// The files that messages bring.
pub open spec fn message_files(messages: Seq<JsonView>, store: Seq<StoredFile>) -> Seq<RawView>
    decreases messages.len(),
{
    if messages.len() == 0 {
        Seq::empty()
    } else {
        message_files(messages.drop_last(), store) + part_files(
            message_parts(messages.last()),
            store,
        )
    }
}

/// The files that a request brings.
pub open spec fn request_files(body: JsonView, store: Seq<StoredFile>) -> Seq<RawView> {
    match body.get_array("messages"@) {
        Some(messages) => message_files(messages, store),
        None => Seq::empty(),
    }
}

/// The files, as values.
pub open spec fn raws(files: Seq<RawAttachment>) -> Seq<RawView> {
    files.map_values(|a: RawAttachment| a@)
}

/// A file as a value, where there is one.
pub open spec fn opt_raw_ref(a: Option<&RawAttachment>) -> Option<RawView> {
    match a {
        Some(x) => Some(x@),
        None => None,
    }
}

fn find_stored<'a>(store: &'a Vec<StoredFile>, id: &str) -> (r: Option<&'a RawAttachment>)
    ensures
        opt_raw_ref(r) == in_store(store@, id@),
{
    let mut n: usize = store.len();
    proof {
        assert(store@.take(n as int) =~= store@);
    }
    while n > 0
        invariant
            n <= store@.len(),
            in_store(store@, id@) == in_store(store@.take(n as int), id@),
        decreases n,
    {
        proof {
            assert(store@.take(n as int).drop_last() =~= store@.take(n as int - 1));
            assert(store@.take(n as int).last() == store@[n - 1]);
        }
        if same_text(store[n - 1].id.as_str(), id) {
            return Some(&store[n - 1].file);
        }
        n -= 1;
    }
    None
}

/// Adds the files that the parts of a message bring.
fn add_part_files(parts: &Vec<Json>, store: &Vec<StoredFile>, out: &mut Vec<RawAttachment>)
    ensures
        raws(final(out)@) == raws(old(out)@) + part_files(items_view(parts@), store@),
{
    let ghost before = raws(out@);
    let ghost views = items_view(parts@);
    let n: usize = parts.len();
    proof {
        lemma_items_view(parts@);
        assert(before =~= before + part_files(views.take(0), store@));
    }
    let mut i: usize = 0;
    while i < n
        invariant
            n == parts@.len(),
            n == views.len(),
            forall|k: int| 0 <= k < n ==> #[trigger] views[k] == parts@[k]@,
            i <= n,
            raws(out@) == before + part_files(views.take(i as int), store@),
        decreases n - i,
    {
        let stored = match wanted_file(&parts[i]) {
            Some(id) => find_stored(store, id),
            None => None,
        };
        let ghost now = raws(out@);
        proof {
            assert(views.take(i as int + 1).drop_last() =~= views.take(i as int));
            assert(views.take(i as int + 1).last() == views[i as int]);
        }
        match extract_from_part(&parts[i], stored) {
            Some(a) => {
                out.push(a);
                proof {
                    assert(raws(out@) =~= now + seq![a@]);
                    assert(raws(out@) =~= before + part_files(views.take(i as int + 1), store@));
                }
            },
            None => {
                proof {
                    assert(raws(out@) =~= before + part_files(views.take(i as int + 1), store@));
                }
            },
        }
        i += 1;
    }
    proof {
        assert(views.take(n as int) =~= views);
    }
}

/// The files that a request brings, in the order of its messages and their parts. `store`
/// holds what the store has of the files that the request refers to.
pub fn collect_attachments(body: &Json, store: &Vec<StoredFile>) -> (r: Vec<RawAttachment>)
    ensures
        raws(r@) == request_files(body@, store@),
{
    let mut out: Vec<RawAttachment> = Vec::new();
    proof {
        assert(raws(out@) =~= Seq::empty());
    }
    match body.get_array("messages") {
        Some(messages) => {
            let n: usize = messages.len();
            let ghost views = items_view(messages@);
            proof {
                lemma_items_view(messages@);
                assert(raws(out@) =~= message_files(views.take(0), store@));
            }
            let mut i: usize = 0;
            while i < n
                invariant
                    n == messages@.len(),
                    n == views.len(),
                    forall|k: int| 0 <= k < n ==> #[trigger] views[k] == messages@[k]@,
                    i <= n,
                    raws(out@) == message_files(views.take(i as int), store@),
                decreases n - i,
            {
                proof {
                    assert(views.take(i as int + 1).drop_last() =~= views.take(i as int));
                    assert(views.take(i as int + 1).last() == views[i as int]);
                }
                match messages[i].get_array("content") {
                    Some(parts) => {
                        add_part_files(parts, store, &mut out);
                    },
                    None => {
                        proof {
                            assert(raws(out@) =~= raws(out@) + part_files(Seq::empty(), store@));
                        }
                    },
                }
                i += 1;
            }
            proof {
                assert(views.take(n as int) =~= views);
            }
        },
        None => {},
    }
    out
}

// ---------------------------------------------------------------------------
// What becomes of the files
// ---------------------------------------------------------------------------

/// The text that goes into the prompt for a file: a text of at most `inline_max` characters.
pub open spec fn inlined(a: RawView, inline_max: int) -> Option<Seq<char>> {
    if textual(a.content_type, a.filename) && valid_utf8(a.bytes) && decode_utf8(a.bytes).len()
        <= inline_max {
        Some(decode_utf8(a.bytes))
    } else {
        None
    }
}

/// Some file has to be uploaded.
pub open spec fn some_upload(files: Seq<RawView>, inline_max: int) -> bool {
    exists|i: int| 0 <= i < files.len() && inlined(#[trigger] files[i], inline_max) is None
}

/// What became of the files, as values.
pub struct ResultView {
    pub files: Seq<JsonView>,
    pub inline_note: Seq<char>,
    pub bound_account: Option<Seq<char>>,
}

impl View for AttachmentResult {
    type V = ResultView;

    open spec fn view(&self) -> ResultView {
        ResultView {
            files: items_view(self.files@),
            inline_note: self.inline_note@,
            bound_account: opt_string(self.bound_account),
        }
    }
}

/// Nothing has become of anything.
pub open spec fn no_result() -> ResultView {
    ResultView { files: Seq::empty(), inline_note: Seq::empty(), bound_account: None }
}

/// What a text adds to the prompt.
pub open spec fn inline_note(filename: Seq<char>, text: Seq<char>) -> Seq<char> {
    "\n\n[Attached file: "@ + filename + "]\n```\n"@ + text + "\n```"@
}

/// What a failed upload adds to the prompt.
pub open spec fn failure_note(filename: Seq<char>) -> Seq<char> {
    "\n\n[Attachment "@ + filename + " upload failed and was skipped]"@
}

/// What has become of the files once one more of them is settled: a text that is small enough
/// goes into the prompt. Another file is uploaded for the account, where there is one, and
/// binds the conversation to it; a failure is told in the prompt.
pub open spec fn settled(
    so_far: ResultView,
    a: RawView,
    inline_max: int,
    account: Option<Seq<char>>,
    upload: Upload,
) -> ResultView {
    match inlined(a, inline_max) {
        Some(text) => ResultView {
            inline_note: so_far.inline_note + inline_note(a.filename, text),
            ..so_far
        },
        None => match (account, upload) {
            (Some(email), Upload::Uploaded(file)) => ResultView {
                files: so_far.files.push(file@),
                bound_account: Some(email),
                ..so_far
            },
            (Some(_), Upload::Failed) => ResultView {
                inline_note: so_far.inline_note + failure_note(a.filename),
                ..so_far
            },
            _ => so_far,
        },
    }
}

/// What has become of all the files.
pub open spec fn all_settled(
    files: Seq<RawView>,
    inline_max: int,
    account: Option<Seq<char>>,
    uploads: Seq<Upload>,
) -> ResultView
    decreases files.len(),
{
    if files.len() == 0 {
        no_result()
    } else {
        settled(
            all_settled(files.drop_last(), inline_max, account, uploads),
            files.last(),
            inline_max,
            account,
            uploads[files.len() - 1],
        )
    }
}

impl Default for AttachmentResult {
    fn default() -> (r: AttachmentResult)
        ensures
            r@ == no_result(),
    {
        let r = AttachmentResult {
            files: Vec::new(),
            inline_note: String::new(),
            bound_account: None,
        };
        proof {
            assert(r.inline_note@ =~= Seq::empty());
        }
        r
    }
}

/// `std::string::String::from_utf8`: the text that the bytes encode, where they are valid
/// UTF-8.
#[verifier::external_body]
fn string_from_utf8(bytes: Vec<u8>) -> (r: Option<String>)
    ensures
        match r {
            Some(s) => valid_utf8(bytes@) && s@ == decode_utf8(bytes@),
            None => !valid_utf8(bytes@),
        },
{
    String::from_utf8(bytes).ok()
}

/// The text that goes into the prompt for a file.
pub fn text_to_inline(a: &RawAttachment, inline_max: usize) -> (r: Option<String>)
    ensures
        opt_string(r) == inlined(a@, inline_max as int),
{
    if !is_textual(a.content_type.as_str(), a.filename.as_str()) {
        return None;
    }
    match string_from_utf8(a.bytes.clone()) {
        Some(text) => if char_vec(text.as_str()).len() <= inline_max {
            Some(text)
        } else {
            None
        },
        None => None,
    }
}

/// Whether some file has to be uploaded, so that an account is needed.
pub fn needs_account(files: &Vec<RawAttachment>, inline_max: usize) -> (r: bool)
    ensures
        r == some_upload(raws(files@), inline_max as int),
{
    let n: usize = files.len();
    let ghost views = raws(files@);
    let mut i: usize = 0;
    while i < n
        invariant
            n == files@.len(),
            views == raws(files@),
            i <= n,
            forall|k: int|
                0 <= k < i ==> inlined(#[trigger] views[k], inline_max as int) is Some,
        decreases n - i,
    {
        let text = text_to_inline(&files[i], inline_max);
        proof {
            assert(views[i as int] == files@[i as int]@);
        }
        if text.is_none() {
            return true;
        }
        i += 1;
    }
    false
}

/// Settles one more file.
pub fn settle(
    so_far: AttachmentResult,
    a: &RawAttachment,
    inline_max: usize,
    account: Option<&str>,
    upload: &Upload,
) -> (r: AttachmentResult)
    ensures
        r@ == settled(so_far@, a@, inline_max as int, opt_text(account), *upload),
{
    let mut result = so_far;
    let ghost note = result.inline_note@;
    match text_to_inline(a, inline_max) {
        Some(text) => {
            result.inline_note.append("\n\n[Attached file: ");
            result.inline_note.append(a.filename.as_str());
            result.inline_note.append("]\n```\n");
            result.inline_note.append(text.as_str());
            result.inline_note.append("\n```");
            proof {
                assert(result.inline_note@ =~= note + inline_note(a.filename@, text@));
            }
        },
        None => {
            match (account, upload) {
                (Some(email), Upload::Uploaded(file)) => {
                    let copy = file.copy();
                    proof {
                        lemma_items_push(result.files@, copy);
                    }
                    result.files.push(copy);
                    result.bound_account = Some(email.to_string());
                },
                (Some(_), Upload::Failed) => {
                    result.inline_note.append("\n\n[Attachment ");
                    result.inline_note.append(a.filename.as_str());
                    result.inline_note.append(" upload failed and was skipped]");
                    proof {
                        assert(result.inline_note@ =~= note + failure_note(a.filename@));
                    }
                },
                _ => {},
            }
        },
    }
    result
}

/// Settles all the files of a request, given the account that they are uploaded for and what
/// became of each upload.
pub fn prepare_attachments(
    files: &Vec<RawAttachment>,
    inline_max: usize,
    account: Option<&str>,
    uploads: &Vec<Upload>,
) -> (r: AttachmentResult)
    requires
        uploads@.len() == files@.len(),
    ensures
        r@ == all_settled(raws(files@), inline_max as int, opt_text(account), uploads@),
{
    let mut result = AttachmentResult::default();
    let n: usize = files.len();
    let ghost views = raws(files@);
    let mut i: usize = 0;
    while i < n
        invariant
            n == files@.len(),
            n == uploads@.len(),
            views == raws(files@),
            i <= n,
            result@ == all_settled(
                views.take(i as int),
                inline_max as int,
                opt_text(account),
                uploads@,
            ),
        decreases n - i,
    {
        result = settle(result, &files[i], inline_max, account, &uploads[i]);
        proof {
            assert(views.take(i as int + 1).drop_last() =~= views.take(i as int));
            assert(views.take(i as int + 1).last() == views[i as int]);
        }
        i += 1;
    }
    proof {
        assert(views.take(n as int) =~= views);
    }
    result
}

// ---------------------------------------------------------------------------
// What holds of all files
// ---------------------------------------------------------------------------

/// Where no file has to be uploaded, none is, and the conversation is bound to no account.
pub proof fn small_texts_bind_nobody(
    files: Seq<RawView>,
    inline_max: int,
    account: Option<Seq<char>>,
    uploads: Seq<Upload>,
)
    requires
        !some_upload(files, inline_max),
    ensures
        all_settled(files, inline_max, account, uploads).files == Seq::<JsonView>::empty(),
        all_settled(files, inline_max, account, uploads).bound_account is None,
    decreases files.len(),
{
    if files.len() > 0 {
        let rest = files.drop_last();
        assert(!some_upload(rest, inline_max)) by {
            if some_upload(rest, inline_max) {
                let i = choose|i: int|
                    0 <= i < rest.len() && inlined(#[trigger] rest[i], inline_max) is None;
                assert(files[i] == rest[i]);
            }
        }
        small_texts_bind_nobody(rest, inline_max, account, uploads);
        assert(files.last() == files[files.len() - 1]);
    }
}

/// A conversation is bound to an account exactly when a file was uploaded, and then to the
/// account that the files were uploaded for.
pub proof fn uploads_bind_the_account(
    files: Seq<RawView>,
    inline_max: int,
    account: Option<Seq<char>>,
    uploads: Seq<Upload>,
)
    ensures
        all_settled(files, inline_max, account, uploads).bound_account == (if all_settled(
            files,
            inline_max,
            account,
            uploads,
        ).files.len() > 0 {
            account
        } else {
            None
        }),
    decreases files.len(),
{
    if files.len() > 0 {
        uploads_bind_the_account(files.drop_last(), inline_max, account, uploads);
    }
}

} // verus!
