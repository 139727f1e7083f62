use qwen2api_rs::account::Account;
use qwen2api_rs::api::admission::{collected, let_in, with_caller};
use qwen2api_rs::api::embeddings::{
    digest_word, embedding_inputs, embedding_list, embedding_words, DIM,
};
use qwen2api_rs::api::messages::{
    count_tokens, counted_body, counted_messages, counted_text, default_message_model,
};
use qwen2api_rs::api::probes;
use qwen2api_rs::auth::{extract_api_token, resolve_auth, AuthContext};
use qwen2api_rs::config::{
    default_model_map, parse_port, resolve_model, resolve_upstream_model, Settings,
};
use qwen2api_rs::error::AppError;
use qwen2api_rs::ident::{hex_text, id_text, short_id, uuid4, uuid_text};
use qwen2api_rs::json::Json;
use qwen2api_rs::json_text::{json_to_string, parse_json, parse_json_bytes};
use qwen2api_rs::media::generate::media_request;
use qwen2api_rs::media::MediaKind;
use qwen2api_rs::refresh::{random_refresh_pause, refresh_pause, select_due, TokenHolder};
use qwen2api_rs::state::{
    normalize_proxy, seed_accounts, AccountSeed, AppStateInner, RuntimeConfig,
};
use qwen2api_rs::text::{decimal_text, lower_text, slice_text, split_text, trim_text};
use qwen2api_rs::text_map::TextMap;
use qwen2api_rs::text_set::TextSet;
use qwen2api_rs::upstream::payload::ImageOptions;

fn json(text: &str) -> Json {
    parse_json(text).unwrap()
}

fn map(pairs: &[(&str, &str)]) -> TextMap {
    let mut m = TextMap::new();
    for (k, v) in pairs {
        m.insert(k.to_string(), v.to_string());
    }
    m
}

#[test]
fn values_are_written_and_read_back() {
    let text = r#"{"a":[null,true,-3,18446744073709551615],"b":{"c":"é\"\n"},"d":1.5}"#;
    let j = json(text);
    assert_eq!(json_to_string(&j), text);
    assert_eq!(json_to_string(&j.copy()), text);
    assert_eq!(json_to_string(&json(&json_to_string(&j))), text);
    assert_eq!(json_to_string(&json(r#"{"b":1,"a":2,"b":3}"#)), r#"{"a":2,"b":3}"#);
    let raw = Json::object().with("$serde_json::private::RawValue", Json::integer(1));
    assert!(parse_json(&json_to_string(&raw)).is_none());
    assert!(parse_json("{").is_none());
    assert_eq!(parse_json_bytes(b"[1] x").unwrap_err(), "trailing characters at line 1 column 5");
}

#[test]
fn texts_are_handled() {
    assert_eq!(trim_text("\u{3000} a b\n"), "a b");
    assert_eq!(lower_text("ÀB"), "àb");
    assert_eq!(slice_text("中文x", 3, 6), "文");
    assert_eq!(split_text("a,,b", ','), ["a", "", "b"]);
    assert_eq!(split_text("", ','), [""]);
    assert_eq!((decimal_text(0), decimal_text(1307)), ("0".to_string(), "1307".to_string()));
}

#[test]
fn identifiers_have_their_form() {
    assert_eq!(hex_text(0xabc, 5), "00abc");
    assert_eq!(hex_text(0xabcdef, 2), "ef");
    assert_eq!(id_text(&vec![0x1234, 0xab], 18), "0000000000001234ab");
    let a = short_id(28);
    assert_eq!(a.len(), 28);
    assert!(a.bytes().all(|b| b.is_ascii_digit() || (b'a'..=b'f').contains(&b)));
    assert_ne!(a, short_id(28));
    assert_eq!(
        uuid_text(0x0123_4567_89ab_cdef, 0xfedc_ba98_7654_3210),
        "01234567-89ab-4def-bedc-ba9876543210"
    );
    assert_ne!(uuid4(), uuid4());
}

#[test]
fn errors_are_answered() {
    let table = [
        (AppError::Unauthorized("m".into()), 401, "unauthorized: m"),
        (AppError::Forbidden("m".into()), 403, "forbidden: m"),
        (AppError::QuotaExceeded("m".into()), 402, "payment required: m"),
        (AppError::BadRequest("m".into()), 400, "bad request: m"),
        (AppError::NotFound("m".into()), 404, "not found: m"),
        (AppError::NotImplemented("m".into()), 501, "not implemented: m"),
        (AppError::Upstream("m".into()), 502, "upstream error: m"),
        (AppError::Internal("m".into()), 500, "m"),
    ];
    for (e, status, text) in table {
        assert_eq!((e.status(), e.message(), e.display()), (status, "m".into(), text.into()));
        assert_eq!(
            json_to_string(&e.body()),
            format!(r#"{{"detail":"m","error":{{"code":{status},"message":"m","type":"qwen2api_error"}}}}"#)
        );
    }
}

#[test]
fn keys_are_found_in_their_order() {
    let none = map(&[]);
    let key = |h: &[(&str, &str)], q: &[(&str, &str)]| extract_api_token(&map(h), &map(q));
    assert_eq!(key(&[("authorization", "Bearer  k ")], &[("key", "q")]).as_deref(), Some("k"));
    assert_eq!(key(&[("authorization", " raw ")], &[]).as_deref(), Some("raw"));
    assert_eq!(key(&[("authorization", "Bearer  "), ("x-api-key", "x")], &[]).as_deref(), Some("x"));
    assert_eq!(key(&[("x-api-key", " "), ("x-goog-api-key", "g")], &[]).as_deref(), Some("g"));
    assert_eq!(key(&[], &[("api_key", "q")]).as_deref(), Some("q"));
    assert_eq!(key(&[], &[("key", " "), ("api_key", "q")]), None);
    assert_eq!(extract_api_token(&none, &none), None);
}

#[test]
fn only_the_key_is_let_in() {
    let h = map(&[("x-api-key", "k")]);
    let none = map(&[]);
    assert_eq!(resolve_auth("k", &h, &none).unwrap().token, "k");
    let e = resolve_auth("other", &h, &none).unwrap_err();
    assert_eq!((e.status(), e.message().as_str()), (401, "Invalid API key"));
    let e = resolve_auth("k", &none, &none).unwrap_err();
    assert_eq!((e.status(), e.message().as_str()), (401, "Missing API key"));
    let (body, who) = let_in(b"{\"a\":1}", "k", &h, &none).unwrap();
    assert_eq!((json_to_string(&body), who.token), ("{\"a\":1}".into(), "k".into()));
    let e = let_in(b"{", "k", &none, &none).unwrap_err();
    assert_eq!(e.status(), 400);
    assert!(e.message().starts_with("JSON parse error: EOF"));
    assert_eq!(let_in(b"{}", "k", &none, &none).unwrap_err().status(), 401);
    assert!(collected(None).is_ok());
    assert_eq!(collected(Some("x")).unwrap_err().display(), "upstream error: x");
    let r = media_request("p", MediaKind::Image, "m", ImageOptions::default(), None, TextSet::new());
    let r = with_caller(r, &AuthContext { token: "k".into() });
    assert_eq!((r.caller.as_deref(), r.prompt.as_str()), (Some("k"), "p"));
}

#[test]
fn settings_follow_the_environment() {
    let s = Settings::from_env(&map(&[]));
    assert_eq!((s.port, s.api_key.as_str(), s.data_dir.as_str()), (7860, "change-me-now", "./data"));
    assert_eq!((s.log_level.as_str(), s.default_model.as_str()), ("info", "qwen3.7-plus"));
    assert_eq!(s.accounts_file, "./data/accounts.json");
    assert_eq!(s.media_dir, "./data/generated_media");
    assert!(s.upstream_proxy.is_none() && s.accounts_json.is_none());
    assert_eq!((s.max_retries, s.media_max_attempts, s.context_inline_max_chars), (3, 10, 4000));
    let s = Settings::from_env(&map(&[
        ("PORT", "8080"),
        ("DATA_DIR", "/d/"),
        ("ACCOUNTS_FILE", "/a.json"),
        ("HTTPS_PROXY", "http://p"),
        ("QWEN_ACCOUNTS_JSON", "[]"),
    ]));
    assert_eq!((s.port, s.accounts_file.as_str()), (8080, "/a.json"));
    assert_eq!(s.config_file, "/d/config.json");
    assert_eq!(s.upstream_proxy.as_deref(), Some("http://p"));
    assert_eq!(s.accounts_json.as_deref(), Some("[]"));
    assert_eq!(Settings::from_env(&map(&[("PORT", "99999")])).port, 7860);
    assert_eq!((parse_port("+80"), parse_port("65536"), parse_port("")), (Some(80), None, None));
}

#[test]
fn models_are_resolved() {
    let m = default_model_map("family");
    let plus = [
        "gpt-4o", "gpt-4-turbo", "gpt-4", "gpt-4.1", "gpt-5", "o1", "o3", "family-opus-4-6",
        "family-opus-4-8", "family-sonnet-4-5", "family-sonnet-4-6", "family-3-opus",
        "family-3.5-sonnet", "family-3-sonnet", "gemini-2.5-pro", "qwen", "qwen-max", "qwen-plus",
        "qwen3.6-plus", "deepseek-chat", "deepseek-reasoner",
    ];
    let flash = [
        "gpt-4o-mini", "gpt-4.1-mini", "gpt-3.5-turbo", "o1-mini", "o3-mini", "family-3-haiku",
        "gemini-2.5-flash", "qwen-turbo",
    ];
    assert_eq!(plus.len() + flash.len(), 29);
    for name in plus {
        assert_eq!(m.get(name), Some("qwen3.7-plus"));
    }
    for name in flash {
        assert_eq!(m.get(name), Some("qwen3.5-flash"));
    }
    assert_eq!((m.get("qwen3.7-plus"), m.get("qwen3.5-flash")), (None, None));
    assert_eq!(m.get("other-3-haiku"), None);
    assert_eq!(resolve_model(&m, "gpt-4o"), "qwen3.7-plus");
    assert_eq!(default_message_model("family"), "family-3-5-sonnet");
    assert_eq!(resolve_model(&m, "unknown"), "unknown");
    assert_eq!(resolve_upstream_model(&m, "d", "unknown"), "d");
    assert_eq!(resolve_upstream_model(&m, "d", "Qwen9"), "Qwen9");
    assert_eq!(resolve_upstream_model(&m, "d", "gpt-5"), "qwen3.7-plus");
}

#[test]
fn state_keeps_the_proxy() {
    let settings = Settings::from_env(&map(&[("UPSTREAM_PROXY", "http://env")]));
    let mut st =
        AppStateInner::new(settings, "family", RuntimeConfig::default(), TextSet::new());
    assert_eq!(st.initial_proxy(), Some("http://env"));
    assert_eq!(st.set_upstream_proxy(Some(" http://set ")).as_deref(), Some("http://set"));
    assert_eq!(st.initial_proxy(), Some("http://set"));
    assert_eq!(st.set_upstream_proxy(Some("  ")), None);
    assert_eq!(st.initial_proxy(), Some("http://env"));
    assert_eq!(normalize_proxy(None), None);
    assert_eq!(st.resolve_model("nobody"), "qwen3.7-plus");
    assert_eq!((st.upstream_models.data.len(), st.upstream_models.fetched_at), (0, 0));
    assert!(matches!(seed_accounts("[{}]"), AccountSeed::Write(_)));
    assert!(matches!(seed_accounts("{}"), AccountSeed::NotAList));
    assert!(matches!(seed_accounts("["), AccountSeed::Unreadable(_)));
}

fn account() -> Account {
    Account::new("e".into(), "p".into(), "t".into(), "c".into(), "u".into())
}

#[test]
fn accounts_rest_behind_requests() {
    let mut a = account();
    a.last_request_started = 1000;
    a.last_request_finished = 31000;
    assert_eq!(a.next_available_at(3000), 34000);
    assert!(!a.is_available(3000, 33999));
    assert!(a.is_available(3000, 34000));
    a.rate_limited_until = 50000;
    assert_eq!(a.next_available_at(3000), 50000);
    assert!(a.is_rate_limited(49999) && !a.is_rate_limited(50000));
    a.valid = false;
    assert!(!a.is_available(0, 99999));
}

#[test]
fn accounts_have_states() {
    let mut a = account();
    assert_eq!((a.get_status_code(1), a.get_status_text(1)), ("valid".into(), "Healthy".into()));
    a.valid = false;
    assert_eq!(a.get_status_text(1), "Authentication failed");
    a.status_code = "invalid".into();
    assert_eq!(a.get_status_text(1), "Invalid");
    a.status_code = "odd".into();
    assert_eq!((a.get_status_code(1), a.get_status_text(1)), ("odd".into(), "Unknown".into()));
    a.activation_pending = true;
    assert_eq!(a.get_status_text(1), "Pending activation");
    a.rate_limited_until = 2;
    assert_eq!(a.get_status_text(1), "Rate limited");
    a.status_code = "banned".into();
    assert_eq!(a.get_status_text(1), "Banned");
    a.init_runtime();
    assert!(!a.valid && a.rate_limited_until == 0);
    a.status_code = "valid".into();
    a.init_runtime();
    assert!(a.valid);
    a.status_code = "auth_error".into();
    a.activation_pending = false;
    a.init_runtime();
    assert!(!a.valid);
    let listed = account().to_admin_json(1, json("0.5"));
    assert_eq!(
        json_to_string(&listed),
        r#"{"activation_pending":false,"consecutive_failures":0,"email":"e","inflight":0,"last_error":"","rate_limit_strikes":0,"rate_limited_until":0.5,"status_code":"valid","status_text":"Healthy","username":"u","valid":true}"#
    );
}

#[test]
fn tokens_are_refreshed_in_time() {
    let holder = |password: &str, token: &str, exp: Option<i64>| TokenHolder {
        email: "e".into(),
        password: password.into(),
        token: token.into(),
        expires_at: exp,
    };
    let list = vec![
        holder("p", "t", Some(100 + 86400)),
        holder("", "t", Some(0)),
        holder("p", "", Some(0)),
        holder("p", "t", Some(101 + 86400)),
        holder("p", "t", None),
        holder("p", "t", Some(-5)),
        holder("p", "t", Some(5)),
    ];
    assert_eq!(select_due(&list, 100, 1, 10), [0, 5, 6]);
    assert_eq!(select_due(&list, 100, 1, 2), [0, 5]);
    assert_eq!(refresh_pause(2000, 5000, 7001), 3001);
    assert_eq!(refresh_pause(9, 3, 77), 9);
    let p = random_refresh_pause(2000, 5000);
    assert!((2000..5000).contains(&p));
}

#[test]
fn embeddings_are_drawn_from_digests() {
    let words = embedding_words("hello");
    assert_eq!(words.len(), DIM);
    assert_eq!(words[0], 2118415834);
    assert_eq!(words[7], 1925416158);
    assert_eq!(words[1535], 1273665998);
    assert_eq!(words, embedding_words("hello"));
    assert_ne!(words, embedding_words("hello "));
    let digest: Vec<u8> = (0..32).collect();
    assert_eq!((digest_word(&digest, 0), digest_word(&digest, 7)), (0x03020100, 0x1f1e1d1c));
}

#[test]
fn embeddings_are_listed() {
    let body = json(r#"{"input":["abcd",1,"efghij"]}"#);
    let inputs = embedding_inputs(&body);
    assert_eq!(inputs, ["abcd", "efghij"]);
    assert_eq!(embedding_inputs(&json(r#"{"input":"x"}"#)), ["x"]);
    assert!(embedding_inputs(&json("{}")).is_empty());
    let r = embedding_list(&body, &inputs, &vec![json("[1]"), json("[2]")]);
    assert_eq!(
        json_to_string(&r),
        r#"{"data":[{"embedding":[1],"index":0,"object":"embedding"},{"embedding":[2],"index":1,"object":"embedding"}],"model":"text-embedding-3-small","object":"list","usage":{"prompt_tokens":2,"total_tokens":2}}"#
    );
}

#[test]
fn tokens_are_counted() {
    let body = counted_body(br#"{"messages":[{"content":"a"},{"role":"x"},{"content":[]}]}"#);
    assert_eq!(counted_messages(&body), [0, 2]);
    assert_eq!(json_to_string(&counted_body(b"broken")), "{}");
    assert_eq!(counted_text(Some("s"), &vec!["a".into(), "b".into()]), "sa\nb\n");
    assert_eq!(counted_text(None, &vec![]), "");
    assert_eq!(json_to_string(&count_tokens(100)), r#"{"input_tokens":135}"#);
    assert_eq!(json_to_string(&count_tokens(3)), r#"{"input_tokens":4}"#);
    for base in [0u64, 1, 19, 20, 21, 999, 123_456_789] {
        let n = count_tokens(base).get("input_tokens").unwrap().as_i64().unwrap();
        assert_eq!(n, (base as f64 * 1.35) as i64);
    }
}

#[test]
fn probes_answer() {
    assert_eq!(json_to_string(&probes::healthz()), r#"{"status":"ok"}"#);
    assert_eq!(json_to_string(&probes::readyz(2)), r#"{"accounts":2,"status":"ready"}"#);
    assert_eq!(probes::root().get_str("version"), Some("2.0.0"));
}
