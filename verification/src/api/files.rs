//! The endpoint of files.

use crate::error::{AppError, AppResult};
use crate::json::{object, Json, JsonView};
use crate::text::{
    after_last, lower, lower_text, opt_text, same_text, split_on, split_text, text_after_last,
    texts, trim_text, trimmed,
};
use vstd::prelude::*;

verus! {

/// What a form for an upload has said so far.
#[derive(Debug)]
pub struct UploadForm {
    pub filename: String,
    pub content_type: String,
    pub bytes: Vec<u8>,
    pub purpose: String,
}

/// What a field of a form is for.
#[derive(Debug, Clone, Copy, PartialEq, Eq, Structural)]
pub enum FieldKind {
    Purpose,
    File,
    Other,
}

impl Default for UploadForm {
    fn default() -> (r: UploadForm)
        ensures
            r.filename@ == "file"@,
            r.content_type@ == "application/octet-stream"@,
            r.bytes@.len() == 0,
            r.purpose@ == "user"@,
    {
        UploadForm {
            filename: "file".to_string(),
            content_type: "application/octet-stream".to_string(),
            bytes: Vec::new(),
            purpose: "user".to_string(),
        }
    }
}

/// What the field of a name is for. One without a name is a file.
pub fn field_kind(name: &str) -> (r: FieldKind)
    ensures
        r == (if name@ == "purpose"@ {
            FieldKind::Purpose
        } else if name@ == "file"@ || name@.len() == 0 {
            FieldKind::File
        } else {
            FieldKind::Other
        }),
{
    if same_text(name, "purpose") {
        FieldKind::Purpose
    } else if same_text(name, "file") || name.is_empty() {
        FieldKind::File
    } else {
        FieldKind::Other
    }
}

impl UploadForm {
    /// Takes what the file is for.
    pub fn set_purpose(&mut self, purpose: &str)
        ensures
            final(self).purpose@ == purpose@,
            final(self).filename == old(self).filename,
            final(self).content_type == old(self).content_type,
            final(self).bytes == old(self).bytes,
    {
        self.purpose = purpose.to_string();
    }

    /// Takes the file, with its name and its type where it has them.
    pub fn set_file(&mut self, filename: Option<&str>, content_type: Option<&str>, bytes: Vec<u8>)
        ensures
            final(self).filename@ == (match opt_text(filename) {
                Some(n) => n,
                None => old(self).filename@,
            }),
            final(self).content_type@ == (match opt_text(content_type) {
                Some(t) => t,
                None => old(self).content_type@,
            }),
            final(self).bytes == bytes,
            final(self).purpose == old(self).purpose,
    {
        match filename {
            Some(n) => {
                self.filename = n.to_string();
            },
            None => {},
        }
        match content_type {
            Some(t) => {
                self.content_type = t.to_string();
            },
            None => {},
        }
        self.bytes = bytes;
    }
}

/// The extension of a file's name: what stands behind the last dot, in lower case.
pub open spec fn extension(filename: Seq<char>) -> Seq<char> {
    lower(after_last(filename, '.'))
}

/// One of the entries of a list, parted by commas, is this.
pub open spec fn is_listed(list: Seq<char>, entry: Seq<char>) -> bool {
    exists|i: int|
        0 <= i < split_on(list, ',').len() && trimmed(#[trigger] split_on(list, ',')[i]) == entry
}

fn listed(list: &str, entry: &str) -> (r: bool)
    ensures
        r == is_listed(list@, entry@),
{
    let entries = split_text(list, ',');
    let n: usize = entries.len();
    let ghost all = split_on(list@, ',');
    let mut i: usize = 0;
    while i < n
        invariant
            n == entries@.len(),
            all == split_on(list@, ','),
            texts(entries@) == all,
            i <= n,
            forall|k: int| 0 <= k < i ==> trimmed(#[trigger] all[k]) != entry@,
        decreases n - i,
    {
        proof {
            assert(all[i as int] == entries@[i as int]@);
        }
        if same_text(trim_text(entries[i].as_str()).as_str(), entry) {
            return true;
        }
        i += 1;
    }
    proof {
        assert(n == all.len());
    }
    false
}

/// The fault of a client.
pub open spec fn bad_request(e: AppError, message: Seq<char>) -> bool {
    e matches AppError::BadRequest(m) && m@ == message
}

/// Whether a form can be accepted: it has a file, and the extension of the file's name is
/// allowed or there is none.
pub fn check_upload(form: &UploadForm, allowed: &str) -> (r: AppResult<()>)
    ensures
        ({
            let ext = extension(form.filename@);
            if form.bytes@.len() == 0 {
                r matches Err(e) && bad_request(e, "No file content provided"@)
            } else if ext.len() > 0 && !is_listed(allowed@, ext) {
                r matches Err(e) && bad_request(e, "Unsupported file extension: ."@ + ext)
            } else {
                r is Ok
            }
        }),
{
    if form.bytes.len() == 0 {
        return Err(AppError::BadRequest("No file content provided".to_string()));
    }
    let ext = lower_text(text_after_last(form.filename.as_str(), '.').as_str());
    if !ext.as_str().is_empty() && !listed(allowed, ext.as_str()) {
        let mut m = "Unsupported file extension: .".to_string();
        m.append(ext.as_str());
        return Err(AppError::BadRequest(m));
    }
    Ok(())
}

/// A stored file.
#[derive(Debug)]
pub struct FileMeta {
    pub id: String,
    pub size: u64,
    pub created_at: i64,
    pub filename: String,
    pub purpose: String,
    pub content_type: String,
}

/// The answer to an upload, with a block that messages can refer to the file by.
pub fn uploaded(meta: &FileMeta) -> (r: Json)
    ensures
        r@ == object().with("id"@, JsonView::Str(meta.id@)).with(
            "object"@,
            JsonView::Str("file"@),
        ).with("bytes"@, JsonView::Int(meta.size as int)).with(
            "created_at"@,
            JsonView::Int(meta.created_at as int),
        ).with("filename"@, JsonView::Str(meta.filename@)).with(
            "purpose"@,
            JsonView::Str(meta.purpose@),
        ).with("content_type"@, JsonView::Str(meta.content_type@)).with(
            "content_block"@,
            content_block(*meta),
        ),
{
    let block = Json::object().with("type", Json::str("input_file")).with(
        "file_id",
        Json::str(meta.id.as_str()),
    ).with("filename", Json::str(meta.filename.as_str())).with(
        "mime_type",
        Json::str(meta.content_type.as_str()),
    );
    Json::object().with("id", Json::str(meta.id.as_str())).with("object", Json::str("file")).with(
        "bytes",
        Json::uint(meta.size),
    ).with("created_at", Json::integer(meta.created_at)).with(
        "filename",
        Json::str(meta.filename.as_str()),
    ).with("purpose", Json::str(meta.purpose.as_str())).with(
        "content_type",
        Json::str(meta.content_type.as_str()),
    ).with("content_block", block)
}

/// The block that messages refer to a file by.
pub open spec fn content_block(meta: FileMeta) -> JsonView {
    object().with("type"@, JsonView::Str("input_file"@)).with(
        "file_id"@,
        JsonView::Str(meta.id@),
    ).with("filename"@, JsonView::Str(meta.filename@)).with(
        "mime_type"@,
        JsonView::Str(meta.content_type@),
    )
}

/// The answer to a deletion.
pub fn deleted(file_id: &str, ok: bool) -> (r: Json)
    ensures
        r@ == object().with("id"@, JsonView::Str(file_id@)).with(
            "object"@,
            JsonView::Str("file"@),
        ).with("deleted"@, JsonView::Bool(ok)),
{
    Json::object().with("id", Json::str(file_id)).with("object", Json::str("file")).with(
        "deleted",
        Json::Bool(ok),
    )
}

/// The block that an upload answers with is one that a message refers to the file by.
pub proof fn content_blocks_refer_to_the_file(meta: FileMeta)
    ensures
        crate::context::file_reference(content_block(meta)) == Some(meta.id@),
{
    reveal_strlit("type");
    reveal_strlit("file_id");
    reveal_strlit("filename");
    reveal_strlit("mime_type");
    assert("type"@.len() == 4 && "file_id"@.len() == 7 && "filename"@.len() == 8
        && "mime_type"@.len() == 9);
}

} // verus!
