use qwen2api_rs::api::files::{
    check_upload, deleted, field_kind, uploaded, FieldKind, FileMeta, UploadForm,
};
use qwen2api_rs::context::oss::{
    build_authorization, build_canonical_request, build_scope, build_string_to_sign, file_class, grant_retry_delay, put_failure, read_grant, sign_put, v4_uri_encode, StsCreds,
};
use qwen2api_rs::context::upload::{GrantStep, PutOutcome, StatusStep, UploadRun};
use qwen2api_rs::context::{
    collect_attachments, extract_from_part, is_textual, needs_account, parse_data_uri,
    prepare_attachments, text_to_inline, wanted_file, RawAttachment, StoredFile, Upload,
};
use qwen2api_rs::json::Json;
use qwen2api_rs::json_text::{json_to_string, parse_json};

fn json(text: &str) -> Json {
    parse_json(text).unwrap()
}

fn raw(filename: &str, content_type: &str, bytes: &[u8]) -> RawAttachment {
    RawAttachment {
        filename: filename.into(),
        content_type: content_type.into(),
        bytes: bytes.to_vec(),
    }
}

fn copy(a: &RawAttachment) -> RawAttachment {
    raw(&a.filename, &a.content_type, &a.bytes)
}

#[test]
fn texts_are_known_by_type_or_name() {
    assert!(is_textual("text/html", "x"));
    assert!(is_textual("application/x-yaml", "x"));
    assert!(is_textual("application/octet-stream", "A.RS"));
    assert!(!is_textual("application/octet-stream", "a.png"));
    assert!(!is_textual("image/png", "txt"));
}

#[test]
fn data_addresses_are_decoded() {
    assert_eq!(
        parse_data_uri("data:image/png;base64,aGk="),
        Some(("image/png".into(), b"hi".to_vec()))
    );
    assert_eq!(
        parse_data_uri("data:text/plain;charset=utf-8,a%20b+%e4%B8%ad%zz%"),
        Some(("text/plain".into(), "a b+中%zz%".as_bytes().to_vec()))
    );
    assert_eq!(parse_data_uri("data:,x,y"), Some(("".into(), b"x,y".to_vec())));
    assert_eq!(parse_data_uri("data:image/png;base64,aGk"), None);
    assert_eq!(parse_data_uri("data:text/plain,%ff"), None);
    assert_eq!(parse_data_uri("data:text/plain"), None);
    assert_eq!(parse_data_uri("http://a,b"), None);
}

#[test]
fn parts_bring_files() {
    let stored = raw("s.txt", "text/plain", b"s");
    let p = json(r#"{"type":"file","file_id":"f1","file_data":"data:a/b,x","filename":"n"}"#);
    assert_eq!(wanted_file(&p), Some("f1"));
    assert_eq!(extract_from_part(&p, Some(&stored)).unwrap().filename, "s.txt");
    let a = extract_from_part(&p, None).unwrap();
    assert_eq!((a.filename.as_str(), a.content_type.as_str(), a.bytes), ("n", "a/b", b"x".to_vec()));
    let p = json(r#"{"type":"input_file","data":"data:a/b,x"}"#);
    assert_eq!(extract_from_part(&p, Some(&stored)).unwrap().filename, "file");
    let p = json(r#"{"type":"image_url","image_url":{"url":"data:image/webp;base64,aGk="}}"#);
    assert_eq!(extract_from_part(&p, None).unwrap().filename, "image.webp");
    let p = json(r#"{"type":"image_url","image_url":{"url":"http://x"}}"#);
    assert!(extract_from_part(&p, None).is_none());
    let p = json(r#"{"type":"image","source":{"type":"base64","data":"aGk="}}"#);
    let a = extract_from_part(&p, None).unwrap();
    assert_eq!((a.filename.as_str(), a.content_type.as_str()), ("image.png", "image/png"));
    let p = json(r#"{"type":"image","source":{"type":"url","data":"aGk="}}"#);
    assert!(extract_from_part(&p, None).is_none());
    assert!(extract_from_part(&json(r#"{"type":"text","text":"x"}"#), None).is_none());
}

#[test]
fn files_of_a_request_are_collected_in_order() {
    let body = json(
        r#"{"messages":[{"content":"plain"},{"content":[{"type":"file","file_id":"b"},{"type":"text"}]},
            {"content":[{"type":"file","data":"data:a/b,x"},{"type":"file","file_id":"a"}]}]}"#,
    );
    let store = vec![
        StoredFile { id: "a".into(), file: raw("a.txt", "t", b"1") },
        StoredFile { id: "b".into(), file: raw("b.txt", "t", b"2") },
    ];
    let names: Vec<String> =
        collect_attachments(&body, &store).into_iter().map(|a| a.filename).collect();
    assert_eq!(names, ["b.txt", "file", "a.txt"]);
    assert!(collect_attachments(&json("{}"), &store).is_empty());
}

#[test]
fn small_texts_go_into_the_prompt() {
    let small = raw("a.txt", "x", "中文".as_bytes());
    assert_eq!(text_to_inline(&small, 2).as_deref(), Some("中文"));
    assert_eq!(text_to_inline(&small, 1), None);
    assert_eq!(text_to_inline(&raw("a.txt", "x", &[0xff]), 9), None);
    assert_eq!(text_to_inline(&raw("a.png", "image/png", b"x"), 9), None);
    assert!(!needs_account(&vec![raw("a.txt", "x", b"hi")], 4));
    assert!(needs_account(&vec![raw("a.txt", "x", b"hi"), raw("b", "y", b"")], 4));
    assert!(needs_account(&vec![raw("a.txt", "x", b"hello")], 4));
}

#[test]
fn files_are_settled() {
    let files = vec![
        raw("a.txt", "x", b"hi"),
        raw("b.png", "image/png", b"1"),
        raw("c.png", "image/png", b"2"),
    ];
    let uploads = vec![Upload::Failed, Upload::Uploaded(json("{\"id\":1}")), Upload::Failed];
    let r = prepare_attachments(&files, 10, Some("me"), &uploads);
    assert_eq!(r.bound_account.as_deref(), Some("me"));
    assert_eq!(json_to_string(&r.files[0]), "{\"id\":1}");
    assert_eq!(
        r.inline_note,
        "\n\n[Attached file: a.txt]\n```\nhi\n```\n\n[Attachment c.png upload failed and was skipped]"
    );
    let r = prepare_attachments(&files[..1].iter().map(copy).collect(), 10, Some("me"), &vec![
        Upload::Uploaded(json("1")),
    ]);
    assert!(r.files.is_empty() && r.bound_account.is_none());
    let r = prepare_attachments(&files, 10, None, &uploads);
    assert!(r.files.is_empty() && r.bound_account.is_none());
    assert_eq!(r.inline_note, "\n\n[Attached file: a.txt]\n```\nhi\n```");
}

#[test]
fn addresses_are_encoded() {
    assert_eq!(v4_uri_encode("a/b c~_-.é", true), "a/b%20c~_-.%C3%A9");
    assert_eq!(v4_uri_encode("a/b", false), "a%2Fb");
    assert_ne!(v4_uri_encode("%2F", false), v4_uri_encode("/", false));
    let address = format!("data:,{}", v4_uri_encode("50% 中/+", false));
    assert_eq!(parse_data_uri(&address).unwrap().1, "50% 中/+".as_bytes());
}

#[test]
fn requests_are_signed() {
    let creds = StsCreds { ak: "AK", sk: "SK", token: "TOKEN", region: "ap-southeast-1" };
    let (auth, date, sha) =
        sign_put(&creds, "bkt", "u1/a b.txt", "text/plain", "20260102T030405Z", "20260102");
    assert_eq!(
        auth,
        "OSS4-HMAC-SHA256 Credential=AK/20260102/ap-southeast-1/oss/aliyun_v4_request, Signature=c7f03c41e6c86a5337d4d4a3f63e1ebc9a82f36dbc0a9f1ff32f95c78e7f3826"
    );
    assert_eq!((date.as_str(), sha.as_str()), ("20260102T030405Z", "UNSIGNED-PAYLOAD"));
}

#[test]
fn signed_texts_have_their_form() {
    assert_eq!(
        build_canonical_request("b", "k/é", "t", "D", "T"),
        "PUT\n/b/k/%C3%A9\n\ncontent-type:t\nx-oss-content-sha256:UNSIGNED-PAYLOAD\nx-oss-date:D\nx-oss-security-token:T\n\n\nUNSIGNED-PAYLOAD"
    );
    assert_eq!(build_scope("Y", "r"), "Y/r/oss/aliyun_v4_request");
    assert_eq!(build_string_to_sign("D", "S", "h"), "OSS4-HMAC-SHA256\nD\nS\nh");
    assert_eq!(
        build_authorization("A", "S", "g"),
        "OSS4-HMAC-SHA256 Credential=A/S, Signature=g"
    );
}

#[test]
fn files_are_classed() {
    assert_eq!(file_class("image/png"), "image");
    assert_eq!(file_class("audio/x"), "audio");
    assert_eq!(file_class("video/x"), "video");
    assert_eq!(file_class("text/plain"), "document");
}

const GRANT: &str = r#"{"data":{"access_key_id":"AK","access_key_secret":"SK","security_token":"T",
    "bucketname":"bkt","endpoint":"oss.x","file_path":"u1/a b.txt","file_id":"F","region":"oss-r1"}}"#;

#[test]
fn grants_are_read() {
    let g = read_grant(&json(GRANT)).unwrap();
    assert_eq!((g.region.as_str(), g.file_id.as_str()), ("r1", "F"));
    assert_eq!(
        read_grant(&json("{}")).unwrap_err().message(),
        "getstsToken response missing data"
    );
    assert_eq!(
        read_grant(&json(r#"{"data":{"access_key_id":"AK"}}"#)).unwrap_err().message(),
        "getstsToken response missing required fields"
    );
    let delays: Vec<Option<u64>> = (0..3).map(grant_retry_delay).collect();
    assert_eq!(delays, [Some(300), Some(600), None]);
}

#[test]
fn uploads_run_to_a_reference() {
    let mut run = UploadRun::new("a b.txt", "text/plain", 2);
    assert_eq!(
        json_to_string(&run.grant_body()),
        r#"{"filename":"a b.txt","filesize":2,"filetype":"file"}"#
    );
    assert!(matches!(run.on_grant(&Err("connection failed: x".into())), GrantStep::Retry(300)));
    assert!(matches!(run.on_grant(&Ok(json(GRANT))), GrantStep::Store));
    let put = run.put("20260102T030405Z", "20260102");
    assert_eq!(put.url, "https://bkt.oss.x/u1%2Fa%20b.txt");
    assert_eq!((put.security_token.as_str(), put.date.as_str()), ("T", "20260102T030405Z"));
    assert!(put.authorization.starts_with("OSS4-HMAC-SHA256 Credential=AK/20260102/r1/oss/"));
    assert!(run.on_put(&PutOutcome::Stored).is_ok());
    assert_eq!(run.file_id(), "F");
    assert!(matches!(run.on_status(&Json::Null), StatusStep::Wait));
    let answer = json(r#"{"data":[{"status":"running"}]}"#);
    assert!(matches!(run.on_status(&answer), StatusStep::Wait));
    let early = run.reference(5);
    let meta = early.get("file").unwrap().get("meta").unwrap();
    assert_eq!(meta.get("parse_meta").unwrap().get_str("parse_status"), Some("running"));
    let answer = json(r#"{"data":[{"status":"success"}]}"#);
    assert!(matches!(run.on_status(&answer), StatusStep::Finish));
    let r = run.reference(7);
    assert_eq!(r.get_str("url"), Some("https://bkt.oss.x/u1/a b.txt"));
    assert_eq!(r.get_str("file_class"), Some("document"));
    let file = r.get("file").unwrap();
    assert_eq!(file.get_str("user_id"), Some("u1"));
    assert_eq!(file.get("created_at").unwrap().as_i64(), Some(7));
    assert_eq!(
        json_to_string(file.get("meta").unwrap()),
        r#"{"content_type":"text/plain","name":"a b.txt","parse_meta":{"parse_status":"success"},"size":2}"#
    );
    assert_ne!(r.get_str("itemId"), r.get_str("uploadTaskId"));
}

#[test]
fn uploads_fail_at_every_step() {
    let mut run = UploadRun::new("a", "b", 1);
    run.on_grant(&Err("x".into()));
    assert!(matches!(run.on_grant(&Err("y".into())), GrantStep::Retry(600)));
    match run.on_grant(&Err("z".into())) {
        GrantStep::Fail(e) => assert_eq!((e.status(), e.message().as_str()), (502, "getstsToken z")),
        _ => panic!("three attempts"),
    }
    let mut run = UploadRun::new("a", "b", 1);
    assert!(matches!(run.on_grant(&Ok(json("{}"))), GrantStep::Fail(_)));
    let mut run = UploadRun::new("a", "b", 1);
    run.on_grant(&Ok(json(GRANT)));
    let e = run.on_put(&PutOutcome::Refused("403 Forbidden".into(), "é".repeat(201))).unwrap_err();
    assert_eq!(e.message(), format!("OSS PUT failed 403 Forbidden: {}", "é".repeat(200)));
    assert_eq!(put_failure("500", "no").message(), "OSS PUT failed 500: no");
    let mut run = UploadRun::new("a", "b", 1);
    run.on_grant(&Ok(json(GRANT)));
    let e = run.on_put(&PutOutcome::Unreachable("gone".into())).unwrap_err();
    assert_eq!(e.message(), "OSS PUT connection failed: gone");
    let mut run = UploadRun::new("a", "b", 1);
    run.on_grant(&Ok(json(GRANT)));
    run.on_put(&PutOutcome::Stored).unwrap();
    match run.on_status(&json(r#"{"data":[{"status":"error"}]}"#)) {
        StatusStep::Fail(e) => assert_eq!(e.message(), "File parse failed status=error"),
        _ => panic!("the file cannot be read"),
    }
}

#[test]
fn uploads_of_clients_are_checked() {
    let mut form = UploadForm::default();
    assert_eq!(
        check_upload(&form, "txt, md").unwrap_err().message(),
        "No file content provided"
    );
    form.set_file(Some("a.MD"), None, b"x".to_vec());
    assert!(check_upload(&form, "txt, md").is_ok());
    assert_eq!(form.content_type, "application/octet-stream");
    form.set_file(Some("a.exe"), Some("t"), b"x".to_vec());
    let e = check_upload(&form, "txt,md").unwrap_err();
    assert_eq!((e.status(), e.message().as_str()), (400, "Unsupported file extension: .exe"));
    form.set_file(Some("a."), Some("t"), b"x".to_vec());
    assert!(check_upload(&form, "txt").is_ok());
    form.set_purpose("p");
    assert_eq!(form.purpose, "p");
    assert_eq!(field_kind("purpose"), FieldKind::Purpose);
    assert_eq!(field_kind("file"), FieldKind::File);
    assert_eq!(field_kind(""), FieldKind::File);
    assert_eq!(field_kind("x"), FieldKind::Other);
}

#[test]
fn uploaded_files_can_be_referred_to() {
    let meta = FileMeta {
        id: "f".into(),
        size: 3,
        created_at: 4,
        filename: "n".into(),
        purpose: "p".into(),
        content_type: "t".into(),
    };
    let r = uploaded(&meta);
    assert_eq!(wanted_file(r.get("content_block").unwrap()), Some("f"));
    assert_eq!(
        json_to_string(&r),
        r#"{"bytes":3,"content_block":{"file_id":"f","filename":"n","mime_type":"t","type":"input_file"},"content_type":"t","created_at":4,"filename":"n","id":"f","object":"file","purpose":"p"}"#
    );
    assert_eq!(
        json_to_string(&deleted("f", false)),
        r#"{"deleted":false,"id":"f","object":"file"}"#
    );
}
