//! What an upload asks for and what it comes to, told by what the outside answers.

use crate::codec::{hex_digits, hmac_digest, percent_decoded, sha256_digest};
use crate::context::oss::{
    build_authorization, build_canonical_request, build_file_ref, build_string_to_sign,
    encoded_addresses_are_clean, encoded_addresses_are_decoded, file_class, file_ref,
    grant_failure, grant_request, grant_retry_delay, parse_request, parse_step, put_failure,
    put_request, read_grant, sign_put, status_request, uri_encoded, Grant, ParseStep, PutRequest,
    StsCreds, UploadedFile,
};
use crate::context::upload::{GrantStep, Phase, PutOutcome, StatusStep, UploadRun};
use crate::error::{AppError, AppResult};
use crate::json::{Json, JsonView};
use crate::text::{before_first, begins_with, ends_in, split_on, stands_at};
use crate::text_laws::{
    joined, lemma_joined_step, lemma_joined_ten, splitting_undoes_joining,
};
use vstd::prelude::*;
use vstd::utf8::*;

verus! {

// ---------------------------------------------------------------------------
// Grants
// ---------------------------------------------------------------------------

/// A text that is there and not empty stands under a name.
pub open spec fn given(d: JsonView, key: Seq<char>) -> bool {
    d.get(key) matches Some(JsonView::Str(s)) && s.len() > 0
}

/// The text under a name is the one that was taken, which is empty where there is none.
pub open spec fn taken(d: JsonView, key: Seq<char>, text: Seq<char>) -> bool {
    match d.get(key) {
        Some(JsonView::Str(s)) => text == s,
        _ => text.len() == 0,
    }
}

/// An answer is a grant exactly where its data have a key, a bucket and a path; the grant is
/// what the data say, field by field.
pub proof fn grants_are_read_field_by_field(answer: &Json, r: AppResult<Grant>)
    requires
        call_ensures(read_grant, (answer,), r),
    ensures
        r is Ok <==> (answer@.get("data"@) matches Some(d) && given(d, "access_key_id"@) && given(
            d,
            "bucketname"@,
        ) && given(d, "file_path"@)),
        r matches Err(e) ==> e is Upstream,
        r matches Ok(g) ==> {
            let d = answer@.get("data"@)->0;
            &&& taken(d, "access_key_id"@, g.ak@)
            &&& taken(d, "access_key_secret"@, g.sk@)
            &&& taken(d, "security_token"@, g.token@)
            &&& taken(d, "bucketname"@, g.bucket@)
            &&& taken(d, "endpoint"@, g.endpoint@)
            &&& taken(d, "file_path"@, g.file_path@)
            &&& taken(d, "file_id"@, g.file_id@)
        },
{
    reveal_strlit("");
}

/// The region of a grant is the one of the data, without the prefix that names the service.
pub proof fn regions_lose_their_prefix(answer: &Json, d: JsonView, g: Grant, region: Seq<char>)
    requires
        call_ensures(read_grant, (answer,), Ok::<Grant, AppError>(g)),
        answer@.get("data"@) == Some(d),
    ensures
        d.get("region"@) == Some(JsonView::Str("oss-"@ + region)) ==> g.region@ == region,
        d.get("region"@) == Some(JsonView::Str(region)) && !stands_at(region, "oss-"@, 0)
            ==> g.region@ == region,
{
    let s = "oss-"@ + region;
    assert(s.subrange(0, "oss-"@.len() as int) =~= "oss-"@);
    assert(s.skip("oss-"@.len() as int) =~= region);
}

/// A grant is asked for with the name and the size of the file; a failure is followed by another
/// try twice, after longer and longer, and then told.
pub proof fn grants_are_asked_for_three_times(
    filename: &str,
    size: usize,
    asked: Json,
    attempt: u32,
    delay: Option<u64>,
    why: &str,
    e: AppError,
)
    requires
        call_ensures(grant_request, (filename, size), asked),
        call_ensures(grant_retry_delay, (attempt,), delay),
        call_ensures(grant_failure, (why,), e),
    ensures
        asked@.get("filename"@) == Some(JsonView::Str(filename@)),
        asked@.get("filesize"@) == Some(JsonView::Int(size as int)),
        asked@.get("filetype"@) == Some(JsonView::Str("file"@)),
        delay is Some <==> attempt < 2,
        attempt == 0 ==> delay == Some(300u64),
        attempt == 1 ==> delay == Some(600u64),
        e matches AppError::Upstream(m) && ends_in(m@, why@),
{
    reveal_strlit("filename");
    reveal_strlit("filesize");
    reveal_strlit("filetype");
    assert("filename"@.len() == 8 && "filename"@[4] == 'n');
    assert("filesize"@.len() == 8 && "filesize"@[4] == 's');
    assert("filetype"@.len() == 8 && "filetype"@[4] == 't');
    let m = "getstsToken "@ + why@;
    assert(m.subrange(m.len() - why@.len(), m.len() as int) =~= why@);
}

// ---------------------------------------------------------------------------
// Signing
// ---------------------------------------------------------------------------

/// The canonical form of a request, read line by line: the method, the address, no query, one
/// line for each header, no further headers, and how the content is signed.
pub proof fn canonical_requests_have_their_lines(
    bucket: &str,
    key: &str,
    content_type: &str,
    xdate: &str,
    token: &str,
    r: String,
)
    requires
        call_ensures(build_canonical_request, (bucket, key, content_type, xdate, token), r),
        !content_type@.contains('\n'),
        !xdate@.contains('\n'),
        !token@.contains('\n'),
    ensures
        ({
            let lines = split_on(r@, '\n');
            &&& lines.len() == 10
            &&& lines[0] == "PUT"@
            &&& percent_decoded(encode_utf8(lines[1])) == encode_utf8(
                "/"@ + bucket@ + "/"@ + key@,
            )
            &&& lines[1] == uri_encoded("/"@ + bucket@ + "/"@ + key@, true)
            &&& lines[2].len() == 0
            &&& lines[3] == "content-type:"@ + content_type@
            &&& lines[4] == "x-oss-content-sha256:"@ + "UNSIGNED-PAYLOAD"@
            &&& lines[5] == "x-oss-date:"@ + xdate@
            &&& lines[6] == "x-oss-security-token:"@ + token@
            &&& lines[7].len() == 0
            &&& lines[8].len() == 0
            &&& lines[9] == "UNSIGNED-PAYLOAD"@
        }),
{
    let path = "/"@ + bucket@ + "/"@ + key@;
    let uri = uri_encoded(path, true);
    encoded_addresses_are_clean(encode_utf8(path), true);
    encoded_addresses_are_decoded(encode_utf8(path), true);
    reveal_strlit("PUT");
    reveal_strlit("PUT\n");
    reveal_strlit("content-type:");
    reveal_strlit("\n\ncontent-type:");
    reveal_strlit("x-oss-content-sha256:");
    reveal_strlit("UNSIGNED-PAYLOAD");
    reveal_strlit("x-oss-date:");
    reveal_strlit("\nx-oss-content-sha256:UNSIGNED-PAYLOAD\nx-oss-date:");
    reveal_strlit("x-oss-security-token:");
    reveal_strlit("\nx-oss-security-token:");
    reveal_strlit("\n\n\nUNSIGNED-PAYLOAD");
    let none = Seq::<char>::empty();
    let lines = seq![
        "PUT"@,
        uri,
        none,
        "content-type:"@ + content_type@,
        "x-oss-content-sha256:"@ + "UNSIGNED-PAYLOAD"@,
        "x-oss-date:"@ + xdate@,
        "x-oss-security-token:"@ + token@,
        none,
        none,
        "UNSIGNED-PAYLOAD"@,
    ];
    lemma_plain_words();
    lemma_no_break("content-type:"@, content_type@);
    lemma_no_break("x-oss-content-sha256:"@, "UNSIGNED-PAYLOAD"@);
    lemma_no_break("x-oss-date:"@, xdate@);
    lemma_no_break("x-oss-security-token:"@, token@);
    assert(!uri.contains('\n'));
    splitting_undoes_joining(lines, '\n');
    lemma_joined_ten(lines, '\n');
    let nl = seq!['\n'];
    assert("PUT\n"@ =~= "PUT"@ + nl);
    assert("\n\ncontent-type:"@ =~= nl + none + nl + "content-type:"@);
    assert("\nx-oss-content-sha256:UNSIGNED-PAYLOAD\nx-oss-date:"@ =~= nl + (
    "x-oss-content-sha256:"@ + "UNSIGNED-PAYLOAD"@) + nl + "x-oss-date:"@);
    assert("\nx-oss-security-token:"@ =~= nl + "x-oss-security-token:"@);
    assert("\n\n\nUNSIGNED-PAYLOAD"@ =~= nl + none + nl + none + nl + "UNSIGNED-PAYLOAD"@);
    assert(r@ =~= joined(lines, '\n'));
}

proof fn lemma_no_break(a: Seq<char>, b: Seq<char>)
    requires
        !a.contains('\n'),
        !b.contains('\n'),
    ensures
        !(a + b).contains('\n'),
{
    if (a + b).contains('\n') {
        let i = choose|i: int| 0 <= i < (a + b).len() && (a + b)[i] == '\n';
        if i < a.len() {
            assert(a[i] == '\n');
        } else {
            assert(b[i - a.len()] == '\n');
        }
    }
}

proof fn lemma_plain_words()
    ensures
        !"PUT"@.contains('\n'),
        !"content-type:"@.contains('\n'),
        !"x-oss-content-sha256:"@.contains('\n'),
        !"UNSIGNED-PAYLOAD"@.contains('\n'),
        !"x-oss-date:"@.contains('\n'),
        !"x-oss-security-token:"@.contains('\n'),
        !"OSS4-HMAC-SHA256"@.contains('\n'),
{
    reveal_strlit("PUT");
    reveal_strlit("content-type:");
    reveal_strlit("x-oss-content-sha256:");
    reveal_strlit("UNSIGNED-PAYLOAD");
    reveal_strlit("x-oss-date:");
    reveal_strlit("x-oss-security-token:");
    reveal_strlit("OSS4-HMAC-SHA256");
}

/// What is signed is, line by line, the method of signing, the time, the scope and the digest of
/// the request.
pub proof fn signed_texts_have_their_lines(xdate: &str, scope: &str, hash: &str, r: String)
    requires
        call_ensures(build_string_to_sign, (xdate, scope, hash), r),
        !xdate@.contains('\n'),
        !scope@.contains('\n'),
        !hash@.contains('\n'),
    ensures
        split_on(r@, '\n') == seq!["OSS4-HMAC-SHA256"@, xdate@, scope@, hash@],
{
    reveal_strlit("OSS4-HMAC-SHA256");
    reveal_strlit("OSS4-HMAC-SHA256\n");
    reveal_strlit("\n");
    lemma_plain_words();
    let nl = seq!['\n'];
    let l = seq!["OSS4-HMAC-SHA256"@, xdate@, scope@, hash@];
    splitting_undoes_joining(l, '\n');
    lemma_joined_step(l, '\n', 4);
    lemma_joined_step(l, '\n', 3);
    lemma_joined_step(l, '\n', 2);
    assert(l.take(4) =~= l);
    assert("OSS4-HMAC-SHA256\n"@ =~= "OSS4-HMAC-SHA256"@ + nl);
    assert("\n"@ =~= nl);
    assert(r@ =~= joined(l, '\n'));
}

/// A signature is made with the secret, bound to the day, the region, the service and the kind
/// of request in turn, over the text that is signed; the header of authorization ends in it and
/// names the key and the scope before it.
pub proof fn signatures_bind_secret_day_and_region(
    creds: &StsCreds,
    bucket: &str,
    key: &str,
    content_type: &str,
    xdate: &str,
    ymd: &str,
    canonical: String,
    scope: &str,
    hash: &str,
    signed: String,
    header: String,
    signature: &str,
    r: (String, String, String),
)
    requires
        call_ensures(sign_put, (creds, bucket, key, content_type, xdate, ymd), r),
        call_ensures(
            build_canonical_request,
            (bucket, key, content_type, xdate, creds.token),
            canonical,
        ),
        scope@ == ymd@ + "/"@ + creds.region@ + "/oss/aliyun_v4_request"@,
        hash@ == hex_digits(sha256_digest(encode_utf8(canonical@))),
        call_ensures(build_string_to_sign, (xdate, scope, hash), signed),
        ({
            let day = hmac_digest(encode_utf8("aliyun_v4"@ + creds.sk@), encode_utf8(ymd@));
            let region = hmac_digest(day, encode_utf8(creds.region@));
            let service = hmac_digest(region, encode_utf8("oss"@));
            let kind = hmac_digest(service, encode_utf8("aliyun_v4_request"@));
            signature@ == hex_digits(hmac_digest(kind, encode_utf8(signed@)))
        }),
        call_ensures(build_authorization, (creds.ak, scope, signature), header),
    ensures
        r.0@ == header@,
        r.1@ == xdate@,
        r.2@ == "UNSIGNED-PAYLOAD"@,
        ends_in(header@, ", Signature="@ + signature@),
        begins_with(header@, "OSS4-HMAC-SHA256 Credential="@ + creds.ak@ + "/"@ + scope@),
{
    let tail = ", Signature="@ + signature@;
    let head = "OSS4-HMAC-SHA256 Credential="@ + creds.ak@ + "/"@ + scope@;
    assert(header@ =~= head + tail);
    assert(header@.subrange(header@.len() - tail.len(), header@.len() as int) =~= tail);
    assert(header@.subrange(0, head.len() as int) =~= head);
}

// ---------------------------------------------------------------------------
// Storing and reading
// ---------------------------------------------------------------------------

/// A file is stored in the bucket of its grant, at the address that its path is when the address
/// is decoded, with the token of the grant.
pub proof fn files_are_stored_where_granted(
    g: &Grant,
    content_type: &str,
    xdate: &str,
    ymd: &str,
    r: PutRequest,
) -> (encoded: Seq<char>)
    requires
        call_ensures(put_request, (g, content_type, xdate, ymd), r),
    ensures
        r.url@ == "https://"@ + g.bucket@ + "."@ + g.endpoint@ + "/"@ + encoded,
        percent_decoded(encode_utf8(encoded)) == encode_utf8(g.file_path@),
        !encoded.contains('/'),
        r.date@ == xdate@,
        r.security_token@ == g.token@,
        r.content_sha256@ == "UNSIGNED-PAYLOAD"@,
{
    let b = encode_utf8(g.file_path@);
    encoded_addresses_are_decoded(b, false);
    encoded_addresses_are_clean(b, false);
    uri_encoded(g.file_path@, false)
}

/// A refusal to store a file is told with its status and the first two hundred characters of the
/// answer.
pub proof fn refusals_are_told(status: &str, body: &str, e: AppError)
    requires
        call_ensures(put_failure, (status, body), e),
    ensures
        e matches AppError::Upstream(m) && {
            &&& stands_at(m@, status@, 15)
            &&& body@.len() <= 200 ==> ends_in(m@, body@)
            &&& body@.len() > 200 ==> ends_in(m@, body@.take(200))
        },
{
    reveal_strlit("OSS PUT failed ");
    reveal_strlit(": ");
    let head = if body@.len() > 200 {
        body@.take(200)
    } else {
        body@
    };
    let m = "OSS PUT failed "@ + status@ + ": "@ + head;
    assert(m.subrange(15, 15 + status@.len() as int) =~= status@);
    assert(m.subrange(m.len() - head.len(), m.len() as int) =~= head);
}

/// It is asked for the file by its identifier; a success ends the waiting, a failure or an error
/// ends the upload, and anything else is waited for.
pub proof fn readings_are_waited_for(
    file_id: &str,
    asked: Json,
    answer: &Json,
    list: Seq<JsonView>,
    status: Seq<char>,
    r: ParseStep,
)
    requires
        call_ensures(status_request, (file_id,), asked),
        call_ensures(parse_step, (answer,), r),
    ensures
        asked@.get("file_id_list"@) == Some(JsonView::Array(seq![JsonView::Str(file_id@)])),
        answer@.get("data"@) == Some(JsonView::Array(list)) && list.len() > 0 && list[0].get(
            "status"@,
        ) == Some(JsonView::Str(status)) ==> {
            &&& r is Finished <==> status == "success"@
            &&& r is Failed <==> status == "failed"@ || status == "error"@
            &&& r is Again ==> (r->Again_0 matches Some(s) && s@ == status)
        },
        answer@.get("data"@) is None ==> r matches ParseStep::Again(None),
        answer@.get("data"@) == Some(JsonView::Array(list)) && list.len() == 0 ==> r matches
            ParseStep::Again(None),
        r is Failed ==> r->Failed_0 is Upstream,
{
    reveal_strlit("success");
    reveal_strlit("failed");
    reveal_strlit("error");
    assert("success"@.len() == 7);
    assert("failed"@.len() == 6);
    assert("error"@.len() == 5);
    assert(asked@.get("file_id_list"@)->0->Array_0 =~= seq![JsonView::Str(file_id@)]);
}

/// The class of a file goes by what stands before the slash of its type.
pub proof fn classes_go_by_the_type(content_type: &str, r: &'static str, sub: Seq<char>)
    requires
        call_ensures(file_class, (content_type,), r),
    ensures
        content_type@ == "image/"@ + sub ==> r@ == "image"@,
        content_type@ == "audio/"@ + sub ==> r@ == "audio"@,
        content_type@ == "video/"@ + sub ==> r@ == "video"@,
        !stands_at(content_type@, "image/"@, 0) && !stands_at(content_type@, "audio/"@, 0)
            && !stands_at(content_type@, "video/"@, 0) ==> r@ == "document"@,
{
    reveal_strlit("image/");
    reveal_strlit("audio/");
    reveal_strlit("video/");
    assert(("image/"@ + sub).subrange(0, 6) =~= "image/"@);
    assert(("audio/"@ + sub).subrange(0, 6) =~= "audio/"@);
    assert(("video/"@ + sub).subrange(0, 6) =~= "video/"@);
    assert("image/"@[0] == 'i' && "audio/"@[0] == 'a' && "video/"@[0] == 'v');
}

/// The reference to a file names the file that was stored, under the identifier and at the
/// address of its grant, with its name, its type, its size, and how far it was read.
pub proof fn references_name_the_stored_file(
    g: &Grant,
    f: &UploadedFile,
    item: &str,
    task: &str,
    r: Json,
    class: &'static str,
    kind: &str,
)
    requires
        call_ensures(build_file_ref, (g, f, item, task), r),
        kind@ == f.content_type@,
        call_ensures(file_class, (kind,), class),
    ensures
        r@.get("id"@) == Some(JsonView::Str(g.file_id@)),
        r@.get("url"@) == Some(
            JsonView::Str("https://"@ + g.bucket@ + "."@ + g.endpoint@ + "/"@ + g.file_path@),
        ),
        r@.get("name"@) == Some(JsonView::Str(f.filename@)),
        r@.get("size"@) == Some(JsonView::Int(f.size as int)),
        r@.get("file_type"@) == Some(JsonView::Str(f.content_type@)),
        r@.get("file_class"@) == Some(JsonView::Str(class@)),
        r@.get("itemId"@) == Some(JsonView::Str(item@)),
        r@.get("uploadTaskId"@) == Some(JsonView::Str(task@)),
        r@.get("type"@) == Some(JsonView::Str("file"@)),
        r@.get("status"@) == Some(JsonView::Str("uploaded"@)),
        r@.get("showType"@) == Some(JsonView::Str("file"@)),
        r@.get("greenNet"@) == Some(JsonView::Str("success"@)),
        r@.get("progress"@) == Some(JsonView::Int(0)),
        ({
            let file = r@.get("file"@)->0;
            let meta = file.get("meta"@)->0;
            &&& file.get("id"@) == Some(JsonView::Str(g.file_id@))
            &&& file.get("filename"@) == Some(JsonView::Str(f.filename@))
            &&& file.get("user_id"@) == Some(JsonView::Str(before_first(g.file_path@, '/')))
            &&& file.get("created_at"@) == Some(JsonView::Int(f.uploaded_at as int))
            &&& file.get("update_at"@) == Some(JsonView::Int(f.uploaded_at as int))
            &&& meta.get("name"@) == Some(JsonView::Str(f.filename@))
            &&& meta.get("size"@) == Some(JsonView::Int(f.size as int))
            &&& meta.get("content_type"@) == Some(JsonView::Str(f.content_type@))
            &&& meta.get("parse_meta"@)->0.get("parse_status"@) == Some(
                JsonView::Str(f.parse_status@),
            )
        }),
{
    reveal_strlit("type");
    reveal_strlit("file");
    reveal_strlit("id");
    reveal_strlit("url");
    reveal_strlit("name");
    reveal_strlit("collection_name");
    reveal_strlit("progress");
    reveal_strlit("status");
    reveal_strlit("greenNet");
    reveal_strlit("size");
    reveal_strlit("error");
    reveal_strlit("itemId");
    reveal_strlit("file_type");
    reveal_strlit("showType");
    reveal_strlit("file_class");
    reveal_strlit("uploadTaskId");
    reveal_strlit("created_at");
    reveal_strlit("data");
    reveal_strlit("filename");
    reveal_strlit("hash");
    reveal_strlit("user_id");
    reveal_strlit("meta");
    reveal_strlit("update_at");
    reveal_strlit("content_type");
    reveal_strlit("parse_meta");
    assert("type"@.len() == 4 && "type"@[0] == 't');
    assert("file"@.len() == 4 && "file"@[0] == 'f');
    assert("id"@.len() == 2);
    assert("url"@.len() == 3);
    assert("name"@.len() == 4 && "name"@[0] == 'n');
    assert("collection_name"@.len() == 15);
    assert("progress"@.len() == 8 && "progress"@[0] == 'p');
    assert("status"@.len() == 6 && "status"@[0] == 's');
    assert("greenNet"@.len() == 8 && "greenNet"@[0] == 'g');
    assert("size"@.len() == 4 && "size"@[0] == 's');
    assert("error"@.len() == 5);
    assert("itemId"@.len() == 6 && "itemId"@[0] == 'i');
    assert("file_type"@.len() == 9 && "file_type"@[0] == 'f');
    assert("showType"@.len() == 8 && "showType"@[0] == 's');
    assert("file_class"@.len() == 10 && "file_class"@[0] == 'f');
    assert("uploadTaskId"@.len() == 12 && "uploadTaskId"@[0] == 'u');
    assert("created_at"@.len() == 10 && "created_at"@[0] == 'c');
    assert("data"@.len() == 4 && "data"@[0] == 'd');
    assert("filename"@.len() == 8 && "filename"@[0] == 'f');
    assert("hash"@.len() == 4 && "hash"@[0] == 'h');
    assert("user_id"@.len() == 7);
    assert("meta"@.len() == 4 && "meta"@[0] == 'm');
    assert("update_at"@.len() == 9 && "update_at"@[0] == 'u');
    assert("content_type"@.len() == 12 && "content_type"@[0] == 'c');
    assert("parse_meta"@.len() == 10 && "parse_meta"@[0] == 'p');
}

/// An upload asks for a grant for its own file.
pub proof fn uploads_ask_for_their_file(
    filename: &str,
    content_type: &str,
    size: usize,
    run: UploadRun,
    asked: Json,
)
    requires
        call_ensures(UploadRun::new, (filename, content_type, size), run),
        call_ensures(UploadRun::grant_body, (&run,), asked),
    ensures
        asked@.get("filename"@) == Some(JsonView::Str(filename@)),
        asked@.get("filesize"@) == Some(JsonView::Int(size as int)),
{
    reveal_strlit("filename");
    reveal_strlit("filesize");
    reveal_strlit("filetype");
    assert("filename"@.len() == 8 && "filename"@[4] == 'n');
    assert("filesize"@.len() == 8 && "filesize"@[4] == 's');
    assert("filetype"@.len() == 8 && "filetype"@[4] == 't');
}

/// The reference to a finished upload names its file, under the identifier of its grant.
pub proof fn finished_uploads_are_referred_to(
    run: UploadRun,
    v: JsonView,
    now_ms: int,
    item: Seq<char>,
    task: Seq<char>,
    g: Grant,
    status: String,
)
    requires
        run.is_reference(v, now_ms, item, task),
        run.spec_phase() == Phase::Finished(g, status) || run.spec_phase() == Phase::Reading(
            g,
            status,
        ),
    ensures
        v.get("id"@) == Some(JsonView::Str(g.file_id@)),
        v.get("url"@) == Some(
            JsonView::Str("https://"@ + g.bucket@ + "."@ + g.endpoint@ + "/"@ + g.file_path@),
        ),
        v.get("name"@) == Some(JsonView::Str(run.spec_file().0)),
        v.get("file_type"@) == Some(JsonView::Str(run.spec_file().1)),
        v.get("size"@) == Some(JsonView::Int(run.spec_file().2)),
        v.get("file"@)->0.get("created_at"@) == Some(JsonView::Int(now_ms)),
        v.get("file"@)->0.get("meta"@)->0.get("parse_meta"@)->0.get("parse_status"@) == Some(
            JsonView::Str(status@),
        ),
{
    reveal_strlit("type");
    reveal_strlit("file");
    reveal_strlit("id");
    reveal_strlit("url");
    reveal_strlit("name");
    reveal_strlit("collection_name");
    reveal_strlit("progress");
    reveal_strlit("status");
    reveal_strlit("greenNet");
    reveal_strlit("size");
    reveal_strlit("error");
    reveal_strlit("itemId");
    reveal_strlit("file_type");
    reveal_strlit("showType");
    reveal_strlit("file_class");
    reveal_strlit("uploadTaskId");
    reveal_strlit("created_at");
    reveal_strlit("data");
    reveal_strlit("filename");
    reveal_strlit("hash");
    reveal_strlit("user_id");
    reveal_strlit("meta");
    reveal_strlit("update_at");
    reveal_strlit("content_type");
    reveal_strlit("parse_meta");
    assert("type"@.len() == 4 && "type"@[0] == 't');
    assert("file"@.len() == 4 && "file"@[0] == 'f');
    assert("id"@.len() == 2);
    assert("url"@.len() == 3);
    assert("name"@.len() == 4 && "name"@[0] == 'n');
    assert("collection_name"@.len() == 15);
    assert("progress"@.len() == 8 && "progress"@[0] == 'p');
    assert("status"@.len() == 6 && "status"@[0] == 's');
    assert("greenNet"@.len() == 8 && "greenNet"@[0] == 'g');
    assert("size"@.len() == 4 && "size"@[0] == 's');
    assert("error"@.len() == 5);
    assert("itemId"@.len() == 6 && "itemId"@[0] == 'i');
    assert("file_type"@.len() == 9 && "file_type"@[0] == 'f');
    assert("showType"@.len() == 8 && "showType"@[0] == 's');
    assert("file_class"@.len() == 10 && "file_class"@[0] == 'f');
    assert("uploadTaskId"@.len() == 12 && "uploadTaskId"@[0] == 'u');
    assert("created_at"@.len() == 10 && "created_at"@[0] == 'c');
    assert("data"@.len() == 4 && "data"@[0] == 'd');
    assert("filename"@.len() == 8 && "filename"@[0] == 'f');
    assert("hash"@.len() == 4 && "hash"@[0] == 'h');
    assert("user_id"@.len() == 7);
    assert("meta"@.len() == 4 && "meta"@[0] == 'm');
    assert("update_at"@.len() == 9 && "update_at"@[0] == 'u');
    assert("content_type"@.len() == 12 && "content_type"@[0] == 'c');
    assert("parse_meta"@.len() == 10 && "parse_meta"@[0] == 'p');
    let f = choose|f: UploadedFile|
        {
            &&& f.filename@ == run.spec_file().0
            &&& f.content_type@ == run.spec_file().1
            &&& f.size == run.spec_file().2
            &&& f.parse_status@ == run.spec_status()
            &&& f.uploaded_at == now_ms
            &&& v == #[trigger] file_ref(run.spec_grant(), f, item, task)
        };
}

/// It is asked to read a file by its identifier.
pub proof fn files_are_read_by_their_identifier(file_id: &str, r: Json)
    requires
        call_ensures(parse_request, (file_id,), r),
    ensures
        r@.get("file_id"@) == Some(JsonView::Str(file_id@)),
{
}

/// Asking for a grant: an answer with data that have what an upload needs leads to storing the
/// file under just that grant; any other answer ends the upload. A failure leads to another try,
/// later and later, until the third, which ends the upload with what went wrong.
pub proof fn grants_lead_to_storing(
    run: &mut UploadRun,
    answer: &Result<Json, String>,
    r: GrantStep,
    n: u32,
)
    requires
        call_ensures(UploadRun::on_grant, (run, answer), r),
        old(run).spec_phase() == Phase::Asking(n),
        n < 3,
    ensures
        final(run).spec_file() == old(run).spec_file(),
        *answer matches Ok(v) ==> {
            let fit = v@.get("data"@) matches Some(d) && given(d, "access_key_id"@) && given(
                d,
                "bucketname"@,
            ) && given(d, "file_path"@);
            &&& fit ==> r is Store && (final(run).spec_phase() matches Phase::Storing(g) && {
                let d = v@.get("data"@)->0;
                &&& taken(d, "access_key_id"@, g.ak@)
                &&& taken(d, "access_key_secret"@, g.sk@)
                &&& taken(d, "security_token"@, g.token@)
                &&& taken(d, "bucketname"@, g.bucket@)
                &&& taken(d, "endpoint"@, g.endpoint@)
                &&& taken(d, "file_path"@, g.file_path@)
                &&& taken(d, "file_id"@, g.file_id@)
            })
            &&& !fit ==> r is Fail && final(run).spec_phase() is Failed
        },
        *answer matches Err(why) ==> {
            &&& n == 0 ==> r == GrantStep::Retry(300) && final(run).spec_phase() == Phase::Asking(1)
            &&& n == 1 ==> r == GrantStep::Retry(600) && final(run).spec_phase() == Phase::Asking(2)
            &&& n == 2 ==> final(run).spec_phase() is Failed && (r matches GrantStep::Fail(
                AppError::Upstream(m),
            ) && ends_in(m@, why@))
        },
{
    reveal_strlit("");
    if let Err(why) = *answer {
        let m = "getstsToken "@ + why@;
        assert(m.subrange(m.len() - why@.len(), m.len() as int) =~= why@);
    }
}

/// Storing a file: once it is stored it is read under the same grant, and any failure ends the
/// upload with what went wrong.
pub proof fn stored_files_are_read(
    run: &mut UploadRun,
    outcome: &PutOutcome,
    r: AppResult<()>,
    g: Grant,
)
    requires
        call_ensures(UploadRun::on_put, (run, outcome), r),
        old(run).spec_phase() == Phase::Storing(g),
    ensures
        final(run).spec_file() == old(run).spec_file(),
        r is Ok <==> *outcome is Stored,
        *outcome is Stored ==> (final(run).spec_phase() matches Phase::Reading(h, s) && h == g && s@
            == "pending"@),
        !(*outcome is Stored) ==> final(run).spec_phase() is Failed && r->Err_0 is Upstream,
        *outcome matches PutOutcome::Unreachable(why) ==> ends_in(r->Err_0->Upstream_0@, why@),
        *outcome matches PutOutcome::Refused(status, _) ==> stands_at(
            r->Err_0->Upstream_0@,
            status@,
            15,
        ),
{
    reveal_strlit("OSS PUT failed ");
    match *outcome {
        PutOutcome::Unreachable(why) => {
            let m = "OSS PUT connection failed: "@ + why@;
            assert(m.subrange(m.len() - why@.len(), m.len() as int) =~= why@);
        },
        PutOutcome::Refused(status, body) => {
            let m = r->Err_0->Upstream_0@;
            assert(m.subrange(15, 15 + status@.len() as int) =~= status@);
        },
        PutOutcome::Stored => {},
    }
}

/// Reading a file: a success finishes the upload, a failure or an error ends it, any other state
/// is kept and waited for, and an answer without a state changes nothing. The grant stays.
pub proof fn readings_move_on(
    run: &mut UploadRun,
    answer: &Json,
    r: StatusStep,
    g: Grant,
    before: String,
    list: Seq<JsonView>,
    status: Seq<char>,
)
    requires
        call_ensures(UploadRun::on_status, (run, answer), r),
        old(run).spec_phase() == Phase::Reading(g, before),
    ensures
        final(run).spec_file() == old(run).spec_file(),
        answer@.get("data"@) == Some(JsonView::Array(list)) && list.len() > 0 && list[0].get(
            "status"@,
        ) == Some(JsonView::Str(status)) ==> {
            &&& status == "success"@ ==> r is Finish && (final(run).spec_phase() matches
                Phase::Finished(h, s) && h == g && s@ == status)
            &&& status == "failed"@ || status == "error"@ ==> r is Fail
                && final(run).spec_phase() is Failed
            &&& status != "success"@ && status != "failed"@ && status != "error"@ ==> r is Wait && (
            final(run).spec_phase() matches Phase::Reading(h, s) && h == g && s@ == status)
        },
        answer@.get("data"@) is None ==> r is Wait && final(run).spec_phase()
            == old(run).spec_phase(),
{
    reveal_strlit("success");
    reveal_strlit("failed");
    reveal_strlit("error");
    assert("success"@.len() == 7);
    assert("failed"@.len() == 6);
    assert("error"@.len() == 5);
}

} // verus!
