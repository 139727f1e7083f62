//! Settings from the environment, and the aliases of models.
//!
//! The public configuration is small on purpose. Most tuning values have fixed defaults, so
//! that a deployment passes only the credentials and paths that differ.

use crate::text::{
    begins_with, ends_with_text, lower, lower_text, opt_string, starts_with_text, texts, trim_text,
    trimmed,
};
use crate::text_map::{lookup, TextMap};
use vstd::prelude::*;
use vstd::string::StringExecFns;

verus! {

/// The settings of a running gateway.
#[derive(Debug)]
pub struct Settings {
    pub port: u16,
    pub api_key: String,
    pub max_inflight_per_account: i64,
    pub max_retries: u32,
    /// How many authentication failures in a row make an account invalid for good.
    pub auth_error_fail_threshold: u32,
    pub account_min_interval_ms: u64,
    pub request_jitter_min_ms: u64,
    pub request_jitter_max_ms: u64,
    pub rate_limit_base_cooldown: u64,
    pub rate_limit_max_cooldown: u64,
    pub chat_delete_retry_attempts: u32,
    pub chat_delete_retry_delay_ms: u64,
    pub chat_id_prewarm_target_per_account: usize,
    pub chat_id_prewarm_ttl_seconds: u64,
    /// How many accounts at most have chats opened ahead of use.
    pub chat_id_prewarm_max_accounts: usize,
    pub log_level: String,
    pub data_dir: String,
    pub accounts_file: String,
    /// The accounts themselves, as a JSON array, where the environment gives them.
    pub accounts_json: Option<String>,
    pub config_file: String,
    pub stats_file: String,
    pub media_db_file: String,
    pub media_dir: String,
    pub media_concurrency: usize,
    pub media_max_attempts: u32,
    /// The accounts that are known to have no access to video generation.
    pub no_t2v_file: String,
    pub context_inline_max_chars: usize,
    pub context_force_file_max_chars: usize,
    pub context_attachment_ttl_seconds: u64,
    pub context_upload_parse_timeout_seconds: u64,
    pub context_generated_dir: String,
    pub context_cache_file: String,
    pub uploaded_files_file: String,
    pub context_affinity_file: String,
    pub context_allowed_user_exts: String,
    pub default_model: String,
    /// The outbound proxy at start.
    pub upstream_proxy: Option<String>,
    pub pool_ready_index: bool,
    /// Every how many seconds the upstream is pinged; 0 for never.
    pub conn_keepalive_seconds: u64,
    /// Every how many hours tokens are refreshed; 0 for never.
    pub token_refresh_interval_hours: u64,
    pub token_refresh_ahead_days: i64,
    pub token_refresh_batch_per_cycle: usize,
    pub token_refresh_jitter_min_ms: u64,
    pub token_refresh_jitter_max_ms: u64,
}

// ---------------------------------------------------------------------------
// Reading single variables
// ---------------------------------------------------------------------------

/// The value of a decimal digit.
pub open spec fn digit_value(c: char) -> Option<int> {
    if '0' <= c <= '9' {
        Some(c as int - '0' as int)
    } else {
        None
    }
}

/// The number that a text of decimal digits stands for.
pub open spec fn decimal(s: Seq<char>) -> Option<int>
    decreases s.len(),
{
    if s.len() == 0 {
        Some(0)
    } else {
        match (decimal(s.drop_last()), digit_value(s.last())) {
            (Some(n), Some(d)) => Some(n * 10 + d),
            _ => None,
        }
    }
}

/// The number from 0 to 65535 that a text stands for: digits, at least one, with a plus
/// sign before them or not.
pub open spec fn port_number(s: Seq<char>) -> Option<u16> {
    let digits = if s.len() > 0 && s[0] == '+' {
        s.skip(1)
    } else {
        s
    };
    if digits.len() == 0 {
        None
    } else {
        match decimal(digits) {
            Some(n) => if n <= u16::MAX {
                Some(n as u16)
            } else {
                None
            },
            None => None,
        }
    }
}

/// More digits make no smaller number.
proof fn lemma_decimal_grows(s: Seq<char>, i: int)
    requires
        0 <= i <= s.len(),
        decimal(s) is Some,
    ensures
        decimal(s.take(i)) is Some,
        0 <= decimal(s.take(i))->0 <= decimal(s)->0,
    decreases s.len(),
{
    if i == s.len() {
        assert(s.take(i) =~= s);
        if s.len() > 0 {
            lemma_decimal_grows(s.drop_last(), s.len() - 1);
            assert(s.drop_last().take(s.len() - 1) =~= s.drop_last());
        }
    } else {
        lemma_decimal_grows(s.drop_last(), i);
        assert(s.drop_last().take(i) =~= s.take(i));
    }
}

/// Reads a port number.
pub fn parse_port(s: &str) -> (r: Option<u16>)
    ensures
        r == port_number(s@),
{
    let chars = crate::text::char_vec(s);
    let n: usize = chars.len();
    let start: usize = if n > 0 && chars[0] == '+' {
        1
    } else {
        0
    };
    let ghost digits = s@.skip(start as int);
    proof {
        assert(s@.skip(0) =~= s@);
        assert(digits.take(0) =~= Seq::<char>::empty());
    }
    if start == n {
        return None;
    }
    let mut value: u32 = 0;
    let mut i: usize = start;
    while i < n
        invariant
            chars@ == s@,
            n == s@.len(),
            start <= i <= n,
            start < n,
            digits == s@.skip(start as int),
            port_number(s@) == match decimal(digits) {
                Some(v) => if v <= u16::MAX {
                    Some(v as u16)
                } else {
                    None
                },
                None => None,
            },
            value <= u16::MAX,
            decimal(digits.take(i - start)) == Some(value as int),
        decreases n - i,
    {
        let c = chars[i];
        proof {
            assert(digits.take(i + 1 - start).drop_last() =~= digits.take(i - start));
            assert(digits.take(i + 1 - start).last() == c);
        }
        if c < '0' || c > '9' {
            proof {
                if decimal(digits) is Some {
                    lemma_decimal_grows(digits, i + 1 - start);
                }
            }
            return None;
        }
        value = value * 10 + (c as u32 - '0' as u32);
        if value > 65535 {
            proof {
                if decimal(digits) is Some {
                    lemma_decimal_grows(digits, i + 1 - start);
                }
            }
            return None;
        }
        i += 1;
    }
    proof {
        assert(digits.take(n - start) =~= digits);
    }
    Some(value as u16)
}

/// A variable, or the default where it is not set.
pub open spec fn or_default(v: Option<Seq<char>>, default: Seq<char>) -> Seq<char> {
    match v {
        Some(t) => t,
        None => default,
    }
}

/// A variable without the white space around it, where anything is left.
pub open spec fn optional_value(v: Option<Seq<char>>) -> Option<Seq<char>> {
    match v {
        Some(t) => if trimmed(t).len() > 0 {
            Some(trimmed(t))
        } else {
            None
        },
        None => None,
    }
}

/// The variable `key`, or `default` where it is not set.
fn env_str(env: &TextMap, key: &str, default: &str) -> (r: String)
    ensures
        r@ == or_default(lookup(env@, key@), default@),
{
    match env.get(key) {
        Some(v) => v.to_string(),
        None => default.to_string(),
    }
}

/// The variable `key` as a port number, or `default` where it is not set or is none.
fn env_port(env: &TextMap, key: &str, default: u16) -> (r: u16)
    ensures
        r == port_or(lookup(env@, key@), default),
{
    match env.get(key) {
        Some(v) => match parse_port(v) {
            Some(p) => p,
            None => default,
        },
        None => default,
    }
}

/// A port number, or the default where the text is none.
pub open spec fn port_or(v: Option<Seq<char>>, default: u16) -> u16 {
    match v {
        Some(t) => match port_number(t) {
            Some(p) => p,
            None => default,
        },
        None => default,
    }
}

/// The variable `key` without the white space around it, where anything is left.
fn env_optional(env: &TextMap, key: &str) -> (r: Option<String>)
    ensures
        opt_string(r) == optional_value(lookup(env@, key@)),
{
    match env.get(key) {
        Some(v) => {
            let t = trim_text(v);
            if t.as_str().is_empty() {
                None
            } else {
                Some(t)
            }
        },
        None => None,
    }
}

/// The first of the variables that is set to more than white space, without the white
/// space around it.
pub open spec fn first_set(env: Map<Seq<char>, Seq<char>>, keys: Seq<Seq<char>>) -> Option<
    Seq<char>,
>
    decreases keys.len(),
{
    if keys.len() == 0 {
        None
    } else {
        match optional_value(lookup(env, keys[0])) {
            Some(t) => Some(t),
            None => first_set(env, keys.skip(1)),
        }
    }
}

/// The variables that may name the outbound proxy, the one that counts most first.
pub open spec fn proxy_keys() -> Seq<Seq<char>> {
    seq![
        "UPSTREAM_PROXY"@,
        "HTTPS_PROXY"@,
        "https_proxy"@,
        "HTTP_PROXY"@,
        "http_proxy"@,
        "ALL_PROXY"@,
        "all_proxy"@,
    ]
}

/// The outbound proxy that the environment names.
fn read_proxy_env(env: &TextMap) -> (r: Option<String>)
    ensures
        opt_string(r) == first_set(env@, proxy_keys()),
{
    let keys: Vec<&str> = vec![
        "UPSTREAM_PROXY",
        "HTTPS_PROXY",
        "https_proxy",
        "HTTP_PROXY",
        "http_proxy",
        "ALL_PROXY",
        "all_proxy",
    ];
    let ghost views = keys@.map_values(|k: &str| k@);
    proof {
        assert(views =~= proxy_keys());
        assert(views.skip(0) =~= views);
    }
    let n: usize = keys.len();
    let mut i: usize = 0;
    while i < n
        invariant
            n == keys@.len(),
            i <= n,
            views == keys@.map_values(|k: &str| k@),
            first_set(env@, proxy_keys()) == first_set(env@, views.skip(i as int)),
        decreases n - i,
    {
        proof {
            assert(views.skip(i as int).skip(1) =~= views.skip(i as int + 1));
            assert(views.skip(i as int)[0] == keys@[i as int]@);
        }
        let found = env_optional(env, keys[i]);
        if found.is_some() {
            return found;
        }
        i += 1;
    }
    None
}

/// The path of `name` in the directory `dir`.
pub open spec fn path_in(dir: Seq<char>, name: Seq<char>) -> Seq<char> {
    if dir.len() == 0 || dir.last() == '/' {
        dir + name
    } else {
        dir + "/"@ + name
    }
}

/// The path of `name` in the directory `dir`.
pub fn join_path(dir: &str, name: &str) -> (r: String)
    ensures
        r@ == path_in(dir@, name@),
{
    let mut out = dir.to_string();
    proof {
        reveal_strlit("/");
        if dir@.len() > 0 {
            assert(dir@.subrange(dir@.len() - 1, dir@.len() as int) =~= seq![dir@.last()]);
            assert("/"@ =~= seq!['/']);
            assert(seq![dir@.last()][0] == dir@.last());
            assert("/"@[0] == '/');
        }
    }
    if !(dir.is_empty() || ends_with_text(dir, "/")) {
        out.append("/");
    }
    out.append(name);
    out
}

// ---------------------------------------------------------------------------
// The settings
// ---------------------------------------------------------------------------

/// The file extensions that a user may upload.
pub open spec fn allowed_extensions() -> Seq<char> {
    "txt,md,json,log,xml,yaml,yml,csv,html,css,py,js,ts,java,c,cpp,cs,php,go,rb,sh,zsh,ps1,bat,cmd,pdf,doc,docx,ppt,pptx,xls,xlsx,png,jpg,jpeg,webp,gif,tiff,bmp,svg"@
}

impl Settings {
    /// What the environment decides: the port, the key, the log level, the default model,
    /// the accounts and the proxy.
    pub open spec fn follows(self, env: Map<Seq<char>, Seq<char>>) -> bool {
        &&& self.port == port_or(lookup(env, "PORT"@), 7860)
        &&& self.api_key@ == or_default(lookup(env, "API_KEY"@), "change-me-now"@)
        &&& self.log_level@ == or_default(lookup(env, "LOG_LEVEL"@), "info"@)
        &&& self.data_dir@ == or_default(lookup(env, "DATA_DIR"@), "./data"@)
        &&& self.default_model@ == or_default(lookup(env, "DEFAULT_MODEL"@), "qwen3.7-plus"@)
        &&& self.accounts_file@ == or_default(
            optional_value(lookup(env, "ACCOUNTS_FILE"@)),
            path_in(self.data_dir@, "accounts.json"@),
        )
        &&& opt_string(self.accounts_json) == optional_value(lookup(env, "QWEN_ACCOUNTS_JSON"@))
        &&& opt_string(self.upstream_proxy) == first_set(env, proxy_keys())
    }

    /// Where the state is kept: under the data directory.
    pub open spec fn keeps_state_in_data_dir(self) -> bool {
        let dir = self.data_dir@;
        &&& self.config_file@ == path_in(dir, "config.json"@)
        &&& self.stats_file@ == path_in(dir, "stats.db"@)
        &&& self.media_db_file@ == path_in(dir, "media.db"@)
        &&& self.media_dir@ == path_in(dir, "generated_media"@)
        &&& self.no_t2v_file@ == path_in(dir, "no_t2v_accounts.json"@)
        &&& self.context_generated_dir@ == path_in(dir, "context_files"@)
        &&& self.context_cache_file@ == path_in(dir, "context_cache.json"@)
        &&& self.uploaded_files_file@ == path_in(dir, "uploaded_files.json"@)
        &&& self.context_affinity_file@ == path_in(dir, "session_affinity.json"@)
    }

    /// What no environment changes.
    pub open spec fn has_fixed_tuning(self) -> bool {
        &&& self.max_inflight_per_account == 2
        &&& self.max_retries == 3
        &&& self.auth_error_fail_threshold == 3
        &&& self.account_min_interval_ms == 3000
        &&& self.request_jitter_min_ms == 0
        &&& self.request_jitter_max_ms == 0
        &&& self.rate_limit_base_cooldown == 600
        &&& self.rate_limit_max_cooldown == 3600
        &&& self.chat_delete_retry_attempts == 3
        &&& self.chat_delete_retry_delay_ms == 500
        &&& self.chat_id_prewarm_target_per_account == 5
        &&& self.chat_id_prewarm_ttl_seconds == 120
        &&& self.chat_id_prewarm_max_accounts == 8
        &&& self.media_concurrency == 3
        &&& self.media_max_attempts == 10
        &&& self.context_inline_max_chars == 4000
        &&& self.context_force_file_max_chars == 10000
        &&& self.context_attachment_ttl_seconds == 1800
        &&& self.context_upload_parse_timeout_seconds == 60
        &&& self.context_allowed_user_exts@ == allowed_extensions()
        &&& self.pool_ready_index
        &&& self.conn_keepalive_seconds == 0
        &&& self.token_refresh_interval_hours == 6
        &&& self.token_refresh_ahead_days == 7
        &&& self.token_refresh_batch_per_cycle == 500
        &&& self.token_refresh_jitter_min_ms == 2000
        &&& self.token_refresh_jitter_max_ms == 5000
    }

    /// The settings for an environment, given as the variables that are set in it.
    pub fn from_env(env: &TextMap) -> (r: Settings)
        ensures
            r.follows(env@),
            r.keeps_state_in_data_dir(),
            r.has_fixed_tuning(),
    {
        let data_dir = env_str(env, "DATA_DIR", "./data");
        let dir = data_dir.as_str();
        let accounts_file = match env_optional(env, "ACCOUNTS_FILE") {
            Some(path) => path,
            None => join_path(dir, "accounts.json"),
        };
        Settings {
            port: env_port(env, "PORT", 7860),
            api_key: env_str(env, "API_KEY", "change-me-now"),
            max_inflight_per_account: 2,
            max_retries: 3,
            auth_error_fail_threshold: 3,
            account_min_interval_ms: 3000,
            request_jitter_min_ms: 0,
            request_jitter_max_ms: 0,
            rate_limit_base_cooldown: 600,
            rate_limit_max_cooldown: 3600,
            chat_delete_retry_attempts: 3,
            chat_delete_retry_delay_ms: 500,
            chat_id_prewarm_target_per_account: 5,
            chat_id_prewarm_ttl_seconds: 120,
            chat_id_prewarm_max_accounts: 8,
            log_level: env_str(env, "LOG_LEVEL", "info"),
            accounts_file,
            accounts_json: env_optional(env, "QWEN_ACCOUNTS_JSON"),
            config_file: join_path(dir, "config.json"),
            stats_file: join_path(dir, "stats.db"),
            media_db_file: join_path(dir, "media.db"),
            media_dir: join_path(dir, "generated_media"),
            media_concurrency: 3,
            media_max_attempts: 10,
            no_t2v_file: join_path(dir, "no_t2v_accounts.json"),
            context_inline_max_chars: 4000,
            context_force_file_max_chars: 10000,
            context_attachment_ttl_seconds: 1800,
            context_upload_parse_timeout_seconds: 60,
            context_generated_dir: join_path(dir, "context_files"),
            context_cache_file: join_path(dir, "context_cache.json"),
            uploaded_files_file: join_path(dir, "uploaded_files.json"),
            context_affinity_file: join_path(dir, "session_affinity.json"),
            context_allowed_user_exts: "txt,md,json,log,xml,yaml,yml,csv,html,css,py,js,ts,java,c,cpp,cs,php,go,rb,sh,zsh,ps1,bat,cmd,pdf,doc,docx,ppt,pptx,xls,xlsx,png,jpg,jpeg,webp,gif,tiff,bmp,svg".to_string(),
            default_model: env_str(env, "DEFAULT_MODEL", "qwen3.7-plus"),
            upstream_proxy: read_proxy_env(env),
            pool_ready_index: true,
            conn_keepalive_seconds: 0,
            token_refresh_interval_hours: 6,
            token_refresh_ahead_days: 7,
            token_refresh_batch_per_cycle: 500,
            token_refresh_jitter_min_ms: 2000,
            token_refresh_jitter_max_ms: 5000,
            data_dir,
        }
    }
}

// ---------------------------------------------------------------------------
// Models
// ---------------------------------------------------------------------------

/// The names under which clients know the large model. `family` is the name of the family of
/// models that the messages protocol comes with; seven of the names are of that family.
pub open spec fn plus_aliases(family: Seq<char>) -> Seq<Seq<char>> {
    seq![
        "gpt-4o"@,
        "gpt-4-turbo"@,
        "gpt-4"@,
        "gpt-4.1"@,
        "gpt-5"@,
        "o1"@,
        "o3"@,
        family + "-opus-4-6"@,
        family + "-opus-4-8"@,
        family + "-sonnet-4-5"@,
        family + "-sonnet-4-6"@,
        family + "-3-opus"@,
        family + "-3.5-sonnet"@,
        family + "-3-sonnet"@,
        "gemini-2.5-pro"@,
        "qwen"@,
        "qwen-max"@,
        "qwen-plus"@,
        "qwen3.6-plus"@,
        "deepseek-chat"@,
        "deepseek-reasoner"@,
    ]
}

/// The names under which clients know the small model; one of them is of the family.
pub open spec fn flash_aliases(family: Seq<char>) -> Seq<Seq<char>> {
    seq![
        "gpt-4o-mini"@,
        "gpt-4.1-mini"@,
        "gpt-3.5-turbo"@,
        "o1-mini"@,
        "o3-mini"@,
        family + "-3-haiku"@,
        "gemini-2.5-flash"@,
        "qwen-turbo"@,
    ]
}

/// The model behind an alias.
pub open spec fn alias_target(family: Seq<char>, name: Seq<char>) -> Option<Seq<char>> {
    if flash_aliases(family).contains(name) {
        Some("qwen3.5-flash"@)
    } else if plus_aliases(family).contains(name) {
        Some("qwen3.7-plus"@)
    } else {
        None
    }
}

/// Sets the value of every name of a list.
fn insert_all(map: &mut TextMap, names: &Vec<String>, value: &str)
    ensures
        forall|k: Seq<char>|
            #![trigger lookup(final(map)@, k)]
            lookup(final(map)@, k) == (if texts(names@).contains(k) {
                Some(value@)
            } else {
                lookup(old(map)@, k)
            }),
{
    let ghost views = texts(names@);
    let ghost before = map@;
    let n: usize = names.len();
    let mut i: usize = 0;
    while i < n
        invariant
            n == names@.len(),
            i <= n,
            views == texts(names@),
            forall|k: Seq<char>|
                #![trigger lookup(map@, k)]
                lookup(map@, k) == (if views.take(i as int).contains(k) {
                    Some(value@)
                } else {
                    lookup(before, k)
                }),
        decreases n - i,
    {
        let ghost prior = map@;
        map.insert(names[i].clone(), value.to_string());
        proof {
            let now = views.take(i as int + 1);
            let was = views.take(i as int);
            assert(now =~= was.push(views[i as int]));
            assert forall|k: Seq<char>|
                #![trigger lookup(map@, k)]
                lookup(map@, k) == (if now.contains(k) {
                    Some(value@)
                } else {
                    lookup(before, k)
                }) by {
                assert(lookup(prior, k) == (if was.contains(k) {
                    Some(value@)
                } else {
                    lookup(before, k)
                }));
                if was.contains(k) {
                    let j = choose|j: int| 0 <= j < was.len() && was[j] == k;
                    assert(now[j] == k);
                }
                if k == views[i as int] {
                    assert(now[i as int] == k);
                }
                if now.contains(k) && k != views[i as int] {
                    let j = choose|j: int| 0 <= j < now.len() && now[j] == k;
                    assert(was[j] == k);
                }
            }
        }
        i += 1;
    }
    proof {
        assert(views.take(n as int) =~= views);
    }
}

/// A name of the family.
fn member(family: &str, suffix: &str) -> (r: String)
    ensures
        r@ == family@ + suffix@,
{
    let mut r = family.to_string();
    r.append(suffix);
    r
}

/// The aliases that are known from the start. `family` is the name of the family of models that
/// the messages protocol comes with.
pub fn default_model_map(family: &str) -> (r: TextMap)
    ensures
        forall|name: Seq<char>| #[trigger] lookup(r@, name) == alias_target(family@, name),
{
    let plus: Vec<String> = vec![
        "gpt-4o".to_string(),
        "gpt-4-turbo".to_string(),
        "gpt-4".to_string(),
        "gpt-4.1".to_string(),
        "gpt-5".to_string(),
        "o1".to_string(),
        "o3".to_string(),
        member(family, "-opus-4-6"),
        member(family, "-opus-4-8"),
        member(family, "-sonnet-4-5"),
        member(family, "-sonnet-4-6"),
        member(family, "-3-opus"),
        member(family, "-3.5-sonnet"),
        member(family, "-3-sonnet"),
        "gemini-2.5-pro".to_string(),
        "qwen".to_string(),
        "qwen-max".to_string(),
        "qwen-plus".to_string(),
        "qwen3.6-plus".to_string(),
        "deepseek-chat".to_string(),
        "deepseek-reasoner".to_string(),
    ];
    let flash: Vec<String> = vec![
        "gpt-4o-mini".to_string(),
        "gpt-4.1-mini".to_string(),
        "gpt-3.5-turbo".to_string(),
        "o1-mini".to_string(),
        "o3-mini".to_string(),
        member(family, "-3-haiku"),
        "gemini-2.5-flash".to_string(),
        "qwen-turbo".to_string(),
    ];
    proof {
        assert(texts(plus@) =~= plus_aliases(family@));
        assert(texts(flash@) =~= flash_aliases(family@));
    }
    let mut map = TextMap::new();
    insert_all(&mut map, &plus, "qwen3.7-plus");
    insert_all(&mut map, &flash, "qwen3.5-flash");
    map
}

/// No model behind an alias is an alias itself: resolving a name once more changes nothing.
pub proof fn targets_are_no_aliases(family: Seq<char>)
    ensures
        alias_target(family, "qwen3.7-plus"@) is None,
        alias_target(family, "qwen3.5-flash"@) is None,
{
    lemma_no_alias(family, "qwen3.7-plus"@);
    lemma_no_alias(family, "qwen3.5-flash"@);
}

/// The names differ from the models in one of a few letters near their ends.
proof fn lemma_no_alias(family: Seq<char>, name: Seq<char>)
    requires
        name == "qwen3.7-plus"@ || name == "qwen3.5-flash"@,
    ensures
        alias_target(family, name) is None,
{
    reveal_strlit("gpt-4o");
    reveal_strlit("gpt-4-turbo");
    reveal_strlit("gpt-4");
    reveal_strlit("gpt-4.1");
    reveal_strlit("gpt-5");
    reveal_strlit("o1");
    reveal_strlit("o3");
    reveal_strlit("-opus-4-6");
    reveal_strlit("-opus-4-8");
    reveal_strlit("-sonnet-4-5");
    reveal_strlit("-sonnet-4-6");
    reveal_strlit("-3-opus");
    reveal_strlit("-3.5-sonnet");
    reveal_strlit("-3-sonnet");
    reveal_strlit("gemini-2.5-pro");
    reveal_strlit("qwen");
    reveal_strlit("qwen-max");
    reveal_strlit("qwen-plus");
    reveal_strlit("qwen3.6-plus");
    reveal_strlit("deepseek-chat");
    reveal_strlit("deepseek-reasoner");
    reveal_strlit("gpt-4o-mini");
    reveal_strlit("gpt-4.1-mini");
    reveal_strlit("gpt-3.5-turbo");
    reveal_strlit("o1-mini");
    reveal_strlit("o3-mini");
    reveal_strlit("-3-haiku");
    reveal_strlit("gemini-2.5-flash");
    reveal_strlit("qwen-turbo");
    reveal_strlit("qwen3.7-plus");
    reveal_strlit("qwen3.5-flash");
    let n = name.len() as int;
    let plus = plus_aliases(family);
    let flash = flash_aliases(family);
    assert forall|i: int| 0 <= i < plus.len() implies #[trigger] plus[i] != name by {
        let x = plus[i];
        assert(x.len() == n ==> x[n - 3] != name[n - 3] || x[n - 1] != name[n - 1] || x[n - 4]
            != name[n - 4] || x[n - 6] != name[n - 6]);
    }
    assert forall|i: int| 0 <= i < flash.len() implies #[trigger] flash[i] != name by {
        let x = flash[i];
        assert(x.len() == n ==> x[n - 3] != name[n - 3] || x[n - 1] != name[n - 1] || x[n - 6]
            != name[n - 6]);
    }
}

/// The model behind a name: the target of an alias, or the name itself.
pub open spec fn resolved(map: Map<Seq<char>, Seq<char>>, name: Seq<char>) -> Seq<char> {
    or_default(lookup(map, name), name)
}

/// The model behind a name: the target of an alias, or the name itself.
pub fn resolve_model(map: &TextMap, name: &str) -> (r: String)
    ensures
        r@ == resolved(map@, name@),
{
    match map.get(name) {
        Some(target) => target.to_string(),
        None => name.to_string(),
    }
}

/// Whether a name is that of a model of the upstream.
pub open spec fn is_qwen_name(name: Seq<char>) -> bool {
    begins_with(lower(name), "qwen"@)
}

/// The model that is sent upstream for a name: the one behind it where that is one of the
/// upstream, the default model otherwise.
pub open spec fn upstream_model(
    map: Map<Seq<char>, Seq<char>>,
    default_model: Seq<char>,
    name: Seq<char>,
) -> Seq<char> {
    if is_qwen_name(resolved(map, name)) {
        resolved(map, name)
    } else {
        default_model
    }
}

/// The model that is sent upstream for a name. A name that is neither known nor one of the
/// upstream falls back to the default model.
pub fn resolve_upstream_model(map: &TextMap, default_model: &str, name: &str) -> (r: String)
    ensures
        r@ == upstream_model(map@, default_model@, name@),
{
    let found = resolve_model(map, name);
    let low = lower_text(found.as_str());
    if starts_with_text(low.as_str(), "qwen") {
        found
    } else {
        default_model.to_string()
    }
}

/// A name that the upstream knows already goes upstream as it is, in whichever case it is
/// written, unless it is an alias.
pub proof fn upstream_names_pass(
    map: Map<Seq<char>, Seq<char>>,
    default_model: Seq<char>,
    name: Seq<char>,
)
    requires
        is_qwen_name(name),
        !map.contains_key(name),
    ensures
        upstream_model(map, default_model, name) == name,
{
}

/// A name that is neither an alias nor one of the upstream's never goes upstream: the default
/// model goes in its place.
pub proof fn unknown_names_fall_back(
    map: Map<Seq<char>, Seq<char>>,
    default_model: Seq<char>,
    name: Seq<char>,
)
    requires
        !is_qwen_name(name),
        !map.contains_key(name),
    ensures
        upstream_model(map, default_model, name) == default_model,
{
}

/// Whatever is asked for, a name of the upstream's goes upstream, as long as the default
/// model is one.
pub proof fn only_upstream_names_are_sent(
    map: Map<Seq<char>, Seq<char>>,
    default_model: Seq<char>,
    name: Seq<char>,
)
    requires
        is_qwen_name(default_model),
    ensures
        is_qwen_name(upstream_model(map, default_model, name)),
{
}

} // verus!
