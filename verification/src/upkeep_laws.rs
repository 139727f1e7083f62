//! What holds of the settings, the accounts and their tokens, told by what they are made from.

use crate::account::Account;
use crate::config::{
    decimal, first_set, is_qwen_name, optional_value, path_in, port_number, proxy_keys,
    resolve_upstream_model, Settings,
};
use crate::ident::{digits_of, hex_of, id_text, lemma_hex_of, uuid_text};
use crate::json::{Json, JsonView};
use crate::json_text::json_parse;
use crate::refresh::{
    cutoff_at, due_by, due_places, first_of_batch, is_due, pause_of, refresh_pause,
    refreshed_accounts_are_due, select_due, TokenHolder,
};
use crate::state::{normalize_proxy, seed_accounts, AccountSeed, AppStateInner};
use crate::text::{begins_with, decimal_digits, ends_in, lower, split_on};
use crate::text_laws::{
    all_white, blank_texts_trim_to_nothing, digits_write_the_number, is_bare, lemma_joined_ten,
    lower_case_changes_capitals, splitting_parts_at_the_character, splitting_undoes_joining,
    trimming_takes_the_white_space_around,
};
use crate::text_map::{lookup, TextMap};
use crate::text_set::TextSet;
use vstd::prelude::*;
use vstd::utf8::*;

verus! {

// ---------------------------------------------------------------------------
// Settings
// ---------------------------------------------------------------------------

/// A variable that is set is taken as it is, and one that is not gives way to the default.
pub proof fn settings_follow_the_variables(env: &TextMap, r: Settings)
    requires
        call_ensures(Settings::from_env, (env,), r),
    ensures
        env@.contains_key("API_KEY"@) ==> r.api_key@ == env@["API_KEY"@],
        !env@.contains_key("API_KEY"@) ==> r.api_key@ == "change-me-now"@,
        env@.contains_key("LOG_LEVEL"@) ==> r.log_level@ == env@["LOG_LEVEL"@],
        !env@.contains_key("LOG_LEVEL"@) ==> r.log_level@ == "info"@,
        env@.contains_key("DATA_DIR"@) ==> r.data_dir@ == env@["DATA_DIR"@],
        !env@.contains_key("DATA_DIR"@) ==> r.data_dir@ == "./data"@,
        env@.contains_key("DEFAULT_MODEL"@) ==> r.default_model@ == env@["DEFAULT_MODEL"@],
        !env@.contains_key("DEFAULT_MODEL"@) ==> r.default_model@ == "qwen3.7-plus"@,
        !env@.contains_key("PORT"@) ==> r.port == 7860,
        !env@.contains_key("QWEN_ACCOUNTS_JSON"@) ==> r.accounts_json is None,
{
}

/// A variable is set to a text, with or without white space around it.
pub open spec fn set_to(
    env: Map<Seq<char>, Seq<char>>,
    key: Seq<char>,
    front: Seq<char>,
    text: Seq<char>,
    back: Seq<char>,
) -> bool {
    &&& env.contains_key(key)
    &&& env[key] == front + text + back
    &&& all_white(front)
    &&& all_white(back)
    &&& is_bare(text)
    &&& text.len() > 0
}

/// A variable is not set, or to nothing but white space.
pub open spec fn is_unset(env: Map<Seq<char>, Seq<char>>, key: Seq<char>) -> bool {
    env.contains_key(key) ==> all_white(env[key])
}

/// The accounts and where they are kept are taken from their variables without the white space
/// around; a blank variable is as good as none.
pub proof fn accounts_follow_their_variables(
    env: &TextMap,
    r: Settings,
    front: Seq<char>,
    text: Seq<char>,
    back: Seq<char>,
)
    requires
        call_ensures(Settings::from_env, (env,), r),
    ensures
        set_to(env@, "ACCOUNTS_FILE"@, front, text, back) ==> r.accounts_file@ == text,
        is_unset(env@, "ACCOUNTS_FILE"@) ==> ends_in(r.accounts_file@, "accounts.json"@)
            && begins_with(r.accounts_file@, r.data_dir@),
        set_to(env@, "QWEN_ACCOUNTS_JSON"@, front, text, back) ==> (r.accounts_json matches Some(a)
            && a@ == text),
        is_unset(env@, "QWEN_ACCOUNTS_JSON"@) ==> r.accounts_json is None,
{
    lemma_optional(env@, "ACCOUNTS_FILE"@, front, text, back);
    lemma_optional(env@, "QWEN_ACCOUNTS_JSON"@, front, text, back);
    paths_lead_into_the_directory(r.data_dir@, "accounts.json"@);
}

proof fn lemma_optional(
    env: Map<Seq<char>, Seq<char>>,
    key: Seq<char>,
    front: Seq<char>,
    text: Seq<char>,
    back: Seq<char>,
)
    ensures
        set_to(env, key, front, text, back) ==> optional_value(lookup(env, key)) == Some(text),
        is_unset(env, key) ==> optional_value(lookup(env, key)) is None,
{
    if set_to(env, key, front, text, back) {
        trimming_takes_the_white_space_around(front, text, back);
    }
    if is_unset(env, key) && env.contains_key(key) {
        blank_texts_trim_to_nothing(env[key]);
    }
}

/// The proxy is that of the first of its variables that is set: the gateway's own before those
/// that all programs heed.
pub proof fn proxies_are_taken_in_order(
    env: &TextMap,
    r: Settings,
    i: int,
    front: Seq<char>,
    text: Seq<char>,
    back: Seq<char>,
)
    requires
        call_ensures(Settings::from_env, (env,), r),
    ensures
        ({
            let keys = seq![
                "UPSTREAM_PROXY"@,
                "HTTPS_PROXY"@,
                "https_proxy"@,
                "HTTP_PROXY"@,
                "http_proxy"@,
                "ALL_PROXY"@,
                "all_proxy"@,
            ];
            &&& 0 <= i < 7 && set_to(env@, keys[i], front, text, back) && (forall|j: int|
                0 <= j < i ==> is_unset(env@, #[trigger] keys[j])) ==> (r.upstream_proxy matches
                Some(p) && p@ == text)
            &&& (forall|j: int| 0 <= j < 7 ==> is_unset(env@, #[trigger] keys[j]))
                ==> r.upstream_proxy is None
        }),
{
    let keys = proxy_keys();
    if 0 <= i < 7 && set_to(env@, keys[i], front, text, back) && (forall|j: int|
        0 <= j < i ==> is_unset(env@, #[trigger] keys[j])) {
        lemma_first_set(env@, keys, i, front, text, back);
    }
    if forall|j: int| 0 <= j < 7 ==> is_unset(env@, #[trigger] keys[j]) {
        lemma_first_set(env@, keys, 7, front, text, back);
    }
}

proof fn lemma_first_set(
    env: Map<Seq<char>, Seq<char>>,
    keys: Seq<Seq<char>>,
    i: int,
    front: Seq<char>,
    text: Seq<char>,
    back: Seq<char>,
)
    requires
        0 <= i <= keys.len(),
        forall|j: int| 0 <= j < i ==> is_unset(env, #[trigger] keys[j]),
        i < keys.len() ==> set_to(env, keys[i], front, text, back),
    ensures
        i < keys.len() ==> first_set(env, keys) == Some(text),
        i == keys.len() ==> first_set(env, keys) is None,
    decreases i,
{
    if keys.len() > 0 {
        lemma_optional(env, keys[0], front, text, back);
        if i > 0 {
            let rest = keys.skip(1);
            assert(is_unset(env, keys[0]));
            assert forall|j: int| 0 <= j < i - 1 implies is_unset(env, #[trigger] rest[j]) by {
                assert(rest[j] == keys[j + 1]);
            }
            if i < keys.len() {
                assert(rest[i - 1] == keys[i]);
            }
            lemma_first_set(env, rest, i - 1, front, text, back);
        }
    }
}

/// A number of a port is read as the number that its digits write, with a plus sign or without;
/// one that is too large is none, and neither is a text with anything but digits.
pub proof fn ports_are_read_as_they_are_written(n: int, s: Seq<char>, i: int)
    requires
        0 <= n,
    ensures
        n <= 65535 ==> port_number(decimal_digits(n)) == Some(n as u16),
        n <= 65535 ==> port_number(seq!['+'] + decimal_digits(n)) == Some(n as u16),
        n > 65535 ==> port_number(decimal_digits(n)) is None,
        s.len() == 0 ==> port_number(s) is None,
        1 <= i < s.len() && !('0' <= s[i] <= '9') ==> port_number(s) is None,
        s.len() > 0 && s[0] != '+' && !('0' <= s[0] <= '9') ==> port_number(s) is None,
{
    let d = decimal_digits(n);
    digits_write_the_number(n);
    lemma_decimal_digits(n);
    assert(d[0] != '+');
    assert((seq!['+'] + d).skip(1) =~= d);
    if 1 <= i < s.len() && !('0' <= s[i] <= '9') {
        if s[0] == '+' {
            assert(s.skip(1)[i - 1] == s[i]);
            lemma_no_decimal(s.skip(1), i - 1);
        } else {
            lemma_no_decimal(s, i);
        }
    }
    if s.len() > 0 && s[0] != '+' && !('0' <= s[0] <= '9') {
        lemma_no_decimal(s, 0);
    }
}

proof fn lemma_decimal_digits(n: int)
    requires
        0 <= n,
    ensures
        decimal(decimal_digits(n)) == Some(n),
    decreases n,
{
    let d = decimal_digits(n);
    if n < 10 {
        assert(d.drop_last() =~= Seq::empty());
        assert(decimal(d.drop_last()) == Some(0int));
    } else {
        lemma_decimal_digits(n / 10);
        assert(d.drop_last() =~= decimal_digits(n / 10));
    }
}

proof fn lemma_no_decimal(s: Seq<char>, i: int)
    requires
        0 <= i < s.len(),
        !('0' <= s[i] <= '9'),
    ensures
        decimal(s) is None,
    decreases s.len(),
{
    if i < s.len() - 1 {
        lemma_no_decimal(s.drop_last(), i);
    }
}

/// The port is the one that its variable writes.
pub proof fn the_port_is_the_one_that_is_written(env: &TextMap, r: Settings, n: int)
    requires
        call_ensures(Settings::from_env, (env,), r),
        env@.contains_key("PORT"@),
        env@["PORT"@] == decimal_digits(n),
        0 <= n,
    ensures
        n <= 65535 ==> r.port == n,
        n > 65535 ==> r.port == 7860,
{
    ports_are_read_as_they_are_written(n, Seq::empty(), 0);
}

/// A path begins with its directory and ends in its name, with one slash between them however
/// the directory is written.
pub proof fn paths_lead_into_the_directory(dir: Seq<char>, name: Seq<char>)
    ensures
        begins_with(path_in(dir, name), dir),
        ends_in(path_in(dir, name), name),
        dir.len() > 0 && dir.last() != '/' ==> path_in(dir, name) == dir + seq!['/'] + name,
        dir.len() > 0 && dir.last() != '/' ==> path_in(dir + seq!['/'], name) == path_in(dir, name),
        dir.len() == 0 ==> path_in(dir, name) == name,
{
    reveal_strlit("/");
    assert("/"@ =~= seq!['/']);
    let p = path_in(dir, name);
    assert(p.subrange(0, dir.len() as int) =~= dir);
    assert(p.subrange(p.len() - name.len(), p.len() as int) =~= name);
    assert((dir + seq!['/']).last() == '/');
    if dir.len() == 0 {
        assert(p =~= name);
    }
}

/// All that the gateway keeps is kept in its data directory, under different names.
pub proof fn state_is_kept_in_the_data_directory(env: &TextMap, r: Settings)
    requires
        call_ensures(Settings::from_env, (env,), r),
    ensures
        r.config_file@ == path_in(r.data_dir@, "config.json"@),
        r.stats_file@ == path_in(r.data_dir@, "stats.db"@),
        r.media_db_file@ == path_in(r.data_dir@, "media.db"@),
        r.media_dir@ == path_in(r.data_dir@, "generated_media"@),
        r.no_t2v_file@ == path_in(r.data_dir@, "no_t2v_accounts.json"@),
        r.context_generated_dir@ == path_in(r.data_dir@, "context_files"@),
        r.context_cache_file@ == path_in(r.data_dir@, "context_cache.json"@),
        r.uploaded_files_file@ == path_in(r.data_dir@, "uploaded_files.json"@),
        r.context_affinity_file@ == path_in(r.data_dir@, "session_affinity.json"@),
{
}

/// The limits that no variable changes: two requests at a time and three seconds between them
/// for each account, three retries, a rest of ten minutes up to an hour for one that is limited,
/// three media at a time with ten attempts each, texts of up to four thousand characters in the
/// prompt, and tokens refreshed every six hours a week ahead.
pub proof fn limits_are_fixed(env: &TextMap, r: Settings)
    requires
        call_ensures(Settings::from_env, (env,), r),
    ensures
        r.max_inflight_per_account == 2,
        r.max_retries == 3,
        r.auth_error_fail_threshold == 3,
        r.account_min_interval_ms == 3 * 1000,
        r.request_jitter_min_ms == 0 && r.request_jitter_max_ms == 0,
        r.rate_limit_base_cooldown == 10 * 60,
        r.rate_limit_max_cooldown == 60 * 60,
        r.chat_delete_retry_attempts == 3 && r.chat_delete_retry_delay_ms == 500,
        r.chat_id_prewarm_target_per_account == 5,
        r.chat_id_prewarm_ttl_seconds == 2 * 60,
        r.chat_id_prewarm_max_accounts == 8,
        r.media_concurrency == 3,
        r.media_max_attempts == 10,
        r.context_inline_max_chars == 4000,
        r.context_force_file_max_chars == 10000,
        r.context_attachment_ttl_seconds == 30 * 60,
        r.context_upload_parse_timeout_seconds == 60,
        r.pool_ready_index,
        r.conn_keepalive_seconds == 0,
        r.token_refresh_interval_hours == 6,
        r.token_refresh_ahead_days == 7,
        r.token_refresh_batch_per_cycle == 500,
        r.token_refresh_jitter_min_ms == 2 * 1000,
        r.token_refresh_jitter_max_ms == 5 * 1000,
{
}

// ---------------------------------------------------------------------------
// Models
// ---------------------------------------------------------------------------

/// A name that begins with the upstream's word, in capitals or not, is one of the upstream's; a
/// name in ASCII that begins otherwise is none.
pub proof fn upstream_names_begin_with_its_word(name: Seq<char>)
    requires
        is_ascii_chars(name),
    ensures
        is_qwen_name(name) <==> name.len() >= 4 && (name[0] == 'q' || name[0] == 'Q') && (name[1]
            == 'w' || name[1] == 'W') && (name[2] == 'e' || name[2] == 'E') && (name[3] == 'n'
            || name[3] == 'N'),
{
    reveal_strlit("qwen");
    let low = lower(name);
    assert("qwen"@[0] == 'q' && "qwen"@[1] == 'w' && "qwen"@[2] == 'e' && "qwen"@[3] == 'n');
    if name.len() > 0 {
        lower_case_changes_capitals(name, 0);
    }
    if name.len() >= 4 {
        lower_case_changes_capitals(name, 1);
        lower_case_changes_capitals(name, 2);
        lower_case_changes_capitals(name, 3);
        let w = low.subrange(0, 4);
        assert(w[0] == low[0] && w[1] == low[1] && w[2] == low[2] && w[3] == low[3]);
        if low[0] == 'q' && low[1] == 'w' && low[2] == 'e' && low[3] == 'n' {
            assert(w =~= "qwen"@);
        }
    }
}

/// An alias goes upstream as the model behind it where that is one of the upstream's; a name of
/// the upstream's that is no alias goes as it is; the default model goes for all others.
pub proof fn models_are_resolved(map: &TextMap, default_model: &str, name: &str, r: String)
    requires
        call_ensures(resolve_upstream_model, (map, default_model, name), r),
    ensures
        map@.contains_key(name@) && is_qwen_name(map@[name@]) ==> r@ == map@[name@],
        map@.contains_key(name@) && !is_qwen_name(map@[name@]) ==> r@ == default_model@,
        !map@.contains_key(name@) && is_qwen_name(name@) ==> r@ == name@,
        !map@.contains_key(name@) && !is_qwen_name(name@) ==> r@ == default_model@,
{
}

// ---------------------------------------------------------------------------
// Accounts
// ---------------------------------------------------------------------------

/// An account may be used exactly where it is valid, the upstream does not hold it back, and a
/// whole interval lies behind the beginning and behind the end of its last request.
pub proof fn accounts_are_available_when_rested(
    a: &Account,
    interval: u64,
    now: i64,
    r: bool,
    at: i128,
)
    requires
        call_ensures(Account::is_available, (a, interval, now), r),
        call_ensures(Account::next_available_at, (a, interval), at),
    ensures
        r <==> a.valid && a.rate_limited_until <= now && a.last_request_started + interval <= now
            && a.last_request_finished + interval <= now,
        at >= a.rate_limited_until,
        at >= a.last_request_started + interval,
        at >= a.last_request_finished + interval,
        at == a.rate_limited_until || at == a.last_request_started + interval || at
            == a.last_request_finished + interval,
{
}

/// The state of an account: banned whatever else, then limited while the upstream holds it
/// back, then waiting to be activated, then good where it is valid; an invalid one is in the
/// state that is stored, or has failed to sign in where none or a good one is stored.
pub proof fn states_come_in_order(
    a: &Account,
    now: i64,
    limited: bool,
    state: String,
    words: String,
)
    requires
        call_ensures(Account::is_rate_limited, (a, now), limited),
        call_ensures(Account::get_status_code, (a, now), state),
        call_ensures(Account::get_status_text, (a, now), words),
    ensures
        limited <==> now < a.rate_limited_until,
        a.status_code@ == "banned"@ ==> state@ == "banned"@ && words@ == "Banned"@,
        a.status_code@ != "banned"@ ==> {
            &&& now < a.rate_limited_until ==> state@ == "rate_limited"@ && words@
                == "Rate limited"@
            &&& now >= a.rate_limited_until && a.activation_pending ==> state@
                == "pending_activation"@ && words@ == "Pending activation"@
            &&& now >= a.rate_limited_until && !a.activation_pending && a.valid ==> state@
                == "valid"@ && words@ == "Healthy"@
            &&& now >= a.rate_limited_until && !a.activation_pending && !a.valid && (
            a.status_code@.len() == 0 || a.status_code@ == "valid"@) ==> state@ == "auth_error"@
                && words@ == "Authentication failed"@
            &&& now >= a.rate_limited_until && !a.activation_pending && !a.valid
                && a.status_code@.len() > 0 && a.status_code@ != "valid"@ ==> state@
                == a.status_code@
        },
{
    reveal_strlit("valid");
    reveal_strlit("pending_activation");
    reveal_strlit("rate_limited");
    reveal_strlit("banned");
    reveal_strlit("auth_error");
    reveal_strlit("invalid");
    assert("valid"@.len() == 5);
    assert("pending_activation"@.len() == 18);
    assert("rate_limited"@.len() == 12);
    assert("banned"@.len() == 6);
    assert("auth_error"@.len() == 10);
    assert("invalid"@.len() == 7);
}

/// The list tells of an account what it is, and nothing that signs it in.
pub proof fn lists_tell_of_accounts(
    a: &Account,
    now: i64,
    until: Json,
    r: Json,
    state: String,
    words: String,
)
    requires
        call_ensures(Account::to_admin_json, (a, now, until), r),
        call_ensures(Account::get_status_code, (a, now), state),
        call_ensures(Account::get_status_text, (a, now), words),
    ensures
        r@.get("email"@) == Some(JsonView::Str(a.email@)),
        r@.get("username"@) == Some(JsonView::Str(a.username@)),
        r@.get("valid"@) == Some(JsonView::Bool(a.valid)),
        r@.get("inflight"@) == Some(JsonView::Int(a.inflight as int)),
        r@.get("rate_limited_until"@) == Some(until@),
        r@.get("activation_pending"@) == Some(JsonView::Bool(a.activation_pending)),
        r@.get("status_code"@) == Some(JsonView::Str(state@)),
        r@.get("status_text"@) == Some(JsonView::Str(words@)),
        r@.get("last_error"@) == Some(JsonView::Str(a.last_error@)),
        r@.get("consecutive_failures"@) == Some(JsonView::Int(a.consecutive_failures as int)),
        r@.get("rate_limit_strikes"@) == Some(JsonView::Int(a.rate_limit_strikes as int)),
        r@.get("password"@) is None,
        r@.get("token"@) is None,
        r@.get("cookies"@) is None,
{
    reveal_strlit("email");
    reveal_strlit("username");
    reveal_strlit("valid");
    reveal_strlit("inflight");
    reveal_strlit("rate_limited_until");
    reveal_strlit("activation_pending");
    reveal_strlit("status_code");
    reveal_strlit("status_text");
    reveal_strlit("last_error");
    reveal_strlit("consecutive_failures");
    reveal_strlit("rate_limit_strikes");
    reveal_strlit("password");
    reveal_strlit("token");
    reveal_strlit("cookies");
    assert("email"@.len() == 5 && "email"@[0] == 'e');
    assert("username"@.len() == 8 && "username"@[0] == 'u');
    assert("valid"@.len() == 5 && "valid"@[0] == 'v');
    assert("inflight"@.len() == 8 && "inflight"@[0] == 'i');
    assert("rate_limited_until"@.len() == 18 && "rate_limited_until"@[0] == 'r');
    assert("rate_limited_until"@[10] == 'e');
    assert("activation_pending"@.len() == 18 && "activation_pending"@[0] == 'a');
    assert("status_code"@.len() == 11 && "status_code"@[7] == 'c');
    assert("status_text"@.len() == 11 && "status_text"@[7] == 't');
    assert("last_error"@.len() == 10);
    assert("consecutive_failures"@.len() == 20);
    assert("rate_limit_strikes"@.len() == 18 && "rate_limit_strikes"@[0] == 'r');
    assert("rate_limit_strikes"@[10] == '_');
    assert("password"@.len() == 8 && "password"@[0] == 'p');
    assert("token"@.len() == 5 && "token"@[0] == 't');
    assert("cookies"@.len() == 7);
}

/// A stored account is usable where its state is good, and otherwise where it need not be
/// activated and is neither banned nor unable to sign in.
pub proof fn stored_accounts_are_usable(a: Account)
    ensures
        a.status_code@ == "valid"@ ==> a.is_usable(),
        a.status_code@ == "banned"@ || a.status_code@ == "auth_error"@ ==> !a.is_usable(),
        a.status_code@ != "valid"@ && a.activation_pending ==> !a.is_usable(),
        a.status_code@ != "valid"@ && a.status_code@ != "banned"@ && a.status_code@
            != "auth_error"@ && !a.activation_pending ==> a.is_usable(),
{
    reveal_strlit("valid");
    reveal_strlit("banned");
    reveal_strlit("auth_error");
    assert("valid"@.len() == 5);
    assert("banned"@.len() == 6);
    assert("auth_error"@.len() == 10);
}

/// A new account is what it is made from, in the good state, and may be used once the interval
/// behind the beginning of all time is over.
pub proof fn new_accounts_are_ready(
    email: String,
    password: String,
    token: String,
    cookies: String,
    username: String,
    r: Account,
    interval: u64,
    now: i64,
    available: bool,
)
    requires
        call_ensures(Account::new, (email, password, token, cookies, username), r),
        call_ensures(Account::is_available, (&r, interval, now), available),
    ensures
        r.email == email && r.password == password && r.token == token && r.cookies == cookies
            && r.username == username,
        r.status_code@ == "valid"@ && r.valid && !r.activation_pending && r.inflight == 0,
        available <==> interval <= now,
{
}

// ---------------------------------------------------------------------------
// Tokens
// ---------------------------------------------------------------------------

/// An account is due exactly where it can be signed in again, has a token, and the token is
/// known to expire by the time.
pub proof fn expiring_tokens_are_due(a: &TokenHolder, cutoff: i128, r: bool)
    requires
        call_ensures(due_by, (a, cutoff), r),
    ensures
        a.password@.len() == 0 || a.token@.len() == 0 || a.expires_at is None ==> !r,
        a.password@.len() > 0 && a.token@.len() > 0 && a.expires_at is Some ==> (r
            <==> a.expires_at->0 <= cutoff),
{
}

/// In a round, everybody who is due is refreshed, or as many as the batch allows: the first in
/// the list, each once; nobody else is.
pub proof fn rounds_refresh_who_is_due(
    accounts: &Vec<TokenHolder>,
    now: i64,
    ahead_days: i64,
    batch: usize,
    r: Vec<usize>,
    i: int,
)
    requires
        call_ensures(select_due, (accounts, now, ahead_days, batch), r),
    ensures
        r@.len() <= batch,
        0 <= i < r@.len() ==> r@[i] < accounts@.len() && is_due(
            accounts@[r@[i] as int],
            now + ahead_days * 24 * 60 * 60,
        ),
        0 <= i < accounts@.len() && is_due(accounts@[i], now + ahead_days * 24 * 60 * 60)
            && r@.len() < batch ==> exists|k: int| 0 <= k < r@.len() && #[trigger] r@[k] == i,
        forall|k: int, l: int| 0 <= k < l < r@.len() ==> #[trigger] r@[k] < #[trigger] r@[l],
{
    let cutoff = cutoff_at(now as int, ahead_days as int);
    assert(cutoff == now + ahead_days * 24 * 60 * 60) by (nonlinear_arith)
        requires
            cutoff == now + ahead_days * 86400,
    ;
    let places = due_places(accounts@, cutoff);
    refreshed_accounts_are_due(accounts@, cutoff);
    let shown = r@.map_values(|i: usize| i as int);
    assert(shown == first_of_batch(places, batch as int));
    assert(shown.len() == r@.len());
    assert forall|k: int| 0 <= k < r@.len() implies #[trigger] r@[k] == places[k] by {
        assert(shown[k] == places[k]);
    }
    assert forall|k: int, l: int| 0 <= k < l < r@.len() implies #[trigger] r@[k]
        < #[trigger] r@[l] by {
        assert(places[k] < places[l]);
    }
    if 0 <= i < accounts@.len() && is_due(accounts@[i], cutoff) && r@.len() < batch {
        lemma_due_found(accounts@, cutoff, i);
        let k = choose|k: int| 0 <= k < places.len() && places[k] == i;
        assert(r@[k] == i);
    }
}

proof fn lemma_due_found(accounts: Seq<TokenHolder>, cutoff: int, i: int)
    requires
        0 <= i < accounts.len(),
        is_due(accounts[i], cutoff),
    ensures
        due_places(accounts, cutoff).contains(i),
    decreases accounts.len(),
{
    let rest = accounts.drop_last();
    let head = due_places(rest, cutoff);
    let all = due_places(accounts, cutoff);
    if i < rest.len() {
        assert(rest[i] == accounts[i]);
        lemma_due_found(rest, cutoff, i);
        let k = choose|k: int| 0 <= k < head.len() && head[k] == i;
        assert(all[k] == i);
    } else {
        assert(all[head.len() as int] == i);
    }
}

/// Every pause from the shortest up to the longest comes of some random number, and none other
/// does; the same pause comes again after a whole round of numbers.
pub proof fn pauses_cover_their_range(jmin: u64, jmax: u64, word: u64, r: u64, pause: int)
    requires
        call_ensures(refresh_pause, (jmin, jmax, word), r),
    ensures
        jmin < jmax ==> jmin <= r < jmax,
        jmin >= jmax ==> r == jmin,
        jmin < jmax && jmin <= pause < jmax && word == pause - jmin ==> r == pause,
        jmin < jmax ==> pause_of(jmin as int, jmax as int, word + (jmax - jmin)) == r,
{
    if jmin < jmax {
        let span = jmax - jmin;
        assert((word + span) % span == word as int % span) by (nonlinear_arith)
            requires
                span > 0,
        ;
        if jmin <= pause < jmax && word == pause - jmin {
            assert(word as int % span == word as int) by (nonlinear_arith)
                requires
                    0 <= word < span,
            ;
        }
        assert(0 <= word as int % span < span) by (nonlinear_arith)
            requires
                span > 0,
        ;
    }
}

// ---------------------------------------------------------------------------
// State
// ---------------------------------------------------------------------------

/// A proxy is taken without the white space around it, and a blank one is none; at the start
/// the one that was kept comes before the one of the environment.
pub proof fn proxies_are_trimmed(
    proxy: Option<&str>,
    r: Option<String>,
    front: Seq<char>,
    text: Seq<char>,
    back: Seq<char>,
    state: &AppStateInner,
    first: Option<&str>,
)
    requires
        call_ensures(normalize_proxy, (proxy,), r),
        call_ensures(AppStateInner::initial_proxy, (state,), first),
        all_white(front),
        all_white(back),
        is_bare(text),
    ensures
        proxy matches Some(p) && p@ == front + text + back && text.len() > 0 ==> r is Some && r->0@
            == text,
        proxy matches Some(p) && p@ == front + text + back && text.len() == 0 ==> r is None,
        proxy is None ==> r is None,
        state.runtime_cfg.upstream_proxy matches Some(p) ==> first is Some && first->0@ == p@,
        state.runtime_cfg.upstream_proxy is None ==> match state.settings.upstream_proxy {
            Some(p) => first is Some && first->0@ == p@,
            None => first is None,
        },
{
    trimming_takes_the_white_space_around(front, text, back);
}

/// Accounts are taken over exactly where they are a list in JSON, as they are.
pub proof fn lists_of_accounts_are_taken_over(raw: &str, r: AccountSeed)
    requires
        call_ensures(seed_accounts, (raw,), r),
    ensures
        r matches AccountSeed::Write(j) ==> json_parse(encode_utf8(raw@)) == Ok::<
            JsonView,
            Seq<char>,
        >(j@) && j@ is Array,
        (json_parse(encode_utf8(raw@)) matches Ok(v) && v is Array) ==> r is Write,
        r is Unreadable <==> json_parse(encode_utf8(raw@)) is Err,
{
}

// ---------------------------------------------------------------------------
// Identifiers
// ---------------------------------------------------------------------------

/// The number that a hexadecimal digit stands for.
pub open spec fn hex_worth(c: char) -> int {
    if '0' <= c <= '9' {
        c as u32 - 0x30
    } else {
        c as u32 - 0x61 + 10
    }
}

/// The number that hexadecimal digits write.
pub open spec fn hex_number(s: Seq<char>) -> int
    decreases s.len(),
{
    if s.len() == 0 {
        0
    } else {
        16 * hex_number(s.drop_last()) + hex_worth(s.last())
    }
}

/// So many digits of a number write the number where it has no more.
pub proof fn hex_digits_write_the_number(word: int, n: int)
    requires
        0 <= n,
        0 <= word < pow16(n),
    ensures
        hex_number(hex_of(word, n)) == word,
        hex_of(word, n).len() == n,
    decreases n,
{
    if n > 0 {
        assert(word / 16 < pow16(n - 1));
        hex_digits_write_the_number(word / 16, n - 1);
        assert(hex_of(word, n).drop_last() =~= hex_of(word / 16, n - 1));
        assert(0 <= word % 16 < 16);
    }
}

/// A power of sixteen.
pub open spec fn pow16(n: int) -> int
    decreases n,
{
    if n <= 0 {
        1
    } else {
        16 * pow16(n - 1)
    }
}

/// A random identifier has five groups of digits, of which the third begins with a four and the
/// fourth with one of the digits from eight on to b.
pub proof fn identifiers_have_their_form(a: u64, b: u64, r: String)
    requires
        call_ensures(uuid_text, (a, b), r),
    ensures
        r@.len() == 36,
        r@[8] == '-' && r@[13] == '-' && r@[18] == '-' && r@[23] == '-',
        r@[14] == '4',
        r@[19] == '8' || r@[19] == '9' || r@[19] == 'a' || r@[19] == 'b',
        forall|i: int|
            0 <= i < 36 && i != 8 && i != 13 && i != 18 && i != 23 ==> crate::ident::is_hex(
                #[trigger] r@[i],
            ),
{
    reveal_strlit("-");
    reveal_strlit("-4");
    let (x, y) = (a as int, b as int);
    lemma_hex_of(x / 0x1_0000_0000, 8);
    lemma_hex_of(x / 0x1_0000, 4);
    lemma_hex_of(x, 3);
    lemma_hex_of(8 + y / 0x1000_0000_0000_0000 % 4, 1);
    lemma_hex_of(y / 0x1_0000_0000_0000, 3);
    lemma_hex_of(y, 12);
    let v = 8 + y / 0x1000_0000_0000_0000 % 4;
    assert(8 <= v < 12);
    assert(hex_of(v, 1)[0] == crate::ident::hex_char(v % 16)) by {
        assert(hex_of(v / 16, 0) =~= Seq::empty());
    }
    let g1 = hex_of(x / 0x1_0000_0000, 8);
    let g2 = hex_of(x / 0x1_0000, 4);
    let g3 = hex_of(x, 3);
    let g4 = hex_of(v, 1);
    let g5 = hex_of(y / 0x1_0000_0000_0000, 3);
    let g6 = hex_of(y, 12);
    assert forall|i: int|
        0 <= i < 36 && i != 8 && i != 13 && i != 18 && i != 23 implies crate::ident::is_hex(
        #[trigger] r@[i],
    ) by {
        if i < 8 {
            assert(r@[i] == g1[i]);
        } else if i < 13 {
            assert(r@[i] == g2[i - 9]);
        } else if i == 14 {
            assert(r@[i] == '4');
        } else if i < 18 {
            assert(r@[i] == g3[i - 15]);
        } else if i == 19 {
            assert(r@[i] == g4[0]);
        } else if i < 23 {
            assert(r@[i] == g5[i - 20]);
        } else {
            assert(r@[i] == g6[i - 24]);
        }
    }
    assert(r@[19] == g4[0]);
}

/// An identifier is cut from its random numbers one behind the other: each sixteen digits write
/// the next of them.
pub proof fn identifiers_write_their_numbers(words: &Vec<u64>, n: usize, r: String, i: int)
    requires
        call_ensures(id_text, (words, n), r),
        n <= 16 * words@.len(),
        0 <= i,
        16 * (i + 1) <= n,
    ensures
        r@.len() == n,
        hex_number(r@.subrange(16 * i, 16 * (i + 1))) == words@[i],
{
    lemma_digits(words@, n as int, i);
}

proof fn lemma_digits(words: Seq<u64>, n: int, i: int)
    requires
        0 <= i,
        16 * (i + 1) <= n <= 16 * words.len(),
    ensures
        digits_of(words, n).len() >= 16 * (i + 1),
        hex_number(digits_of(words, n).subrange(16 * i, 16 * (i + 1))) == words[i],
    decreases i,
{
    let first = hex_of(words[0] as int, 16);
    let rest = digits_of(words.skip(1), n - 16);
    lemma_pow16();
    hex_digits_write_the_number(words[0] as int, 16);
    assert(digits_of(words, n) == first + rest);
    if i == 0 {
        assert((first + rest).subrange(0, 16) =~= first);
    } else {
        lemma_digits(words.skip(1), n - 16, i - 1);
        assert((first + rest).subrange(16 * i, 16 * (i + 1)) =~= rest.subrange(
            16 * (i - 1),
            16 * i,
        ));
    }
}

proof fn lemma_pow16()
    ensures
        pow16(16) == 0x1_0000_0000_0000_0000,
{
    reveal_with_fuel(pow16, 17);
}

/// An account that is put to use keeps its record.
pub proof fn records_are_kept(a: Account, b: Account)
    requires
        a.same_record(b),
    ensures
        a.email == b.email && a.password == b.password && a.token == b.token && a.cookies
            == b.cookies && a.username == b.username,
        a.activation_pending == b.activation_pending && a.status_code == b.status_code
            && a.last_error == b.last_error,
        a.last_request_started == b.last_request_started && a.last_request_finished
            == b.last_request_finished,
        a.consecutive_failures == b.consecutive_failures && a.rate_limit_strikes
            == b.rate_limit_strikes,
{
}

/// A stored account that is put to use keeps its record, is used by nobody, and is valid exactly
/// where its state is good, or where it need not be activated and is neither banned nor unable
/// to sign in.
pub proof fn stored_accounts_are_put_to_use(a: &mut Account)
    requires
        call_ensures(Account::init_runtime, (a,), ()),
    ensures
        old(a).status_code@ == "valid"@ ==> final(a).valid,
        old(a).status_code@ != "valid"@ ==> (final(a).valid <==> !old(a).activation_pending
            && old(a).status_code@ != "banned"@ && old(a).status_code@ != "auth_error"@),
        final(a).inflight == 0 && final(a).rate_limited_until == 0 && final(a).last_used == 0
            && !final(a).healing,
        final(a).email == old(a).email && final(a).username == old(a).username,
        final(a).password == old(a).password && final(a).token == old(a).token,
        final(a).cookies == old(a).cookies && final(a).status_code == old(a).status_code,
        final(a).activation_pending == old(a).activation_pending,
{
}

/// A proxy that is set is the one that is in use from the next start on, whatever the
/// environment names; a blank one leaves it to the environment. Nothing else of the state
/// changes.
pub proof fn set_proxies_are_kept(
    state: &mut AppStateInner,
    proxy: Option<&str>,
    r: Option<String>,
    front: Seq<char>,
    text: Seq<char>,
    back: Seq<char>,
)
    requires
        call_ensures(AppStateInner::set_upstream_proxy, (state, proxy), r),
        proxy matches Some(p) && p@ == front + text + back,
        all_white(front),
        all_white(back),
        is_bare(text),
    ensures
        text.len() > 0 ==> (final(state).runtime_cfg.upstream_proxy matches Some(p) && p@ == text)
            && (r matches Some(q) && q@ == text),
        text.len() == 0 ==> final(state).runtime_cfg.upstream_proxy is None && r is None,
        final(state).settings == old(state).settings,
        final(state).model_map == old(state).model_map,
        final(state).no_t2v == old(state).no_t2v,
        final(state).upstream_models == old(state).upstream_models,
{
    trimming_takes_the_white_space_around(front, text, back);
}

/// A set holds a text that is put into it and all that it held; a map gives back the value that
/// a name was last given, and leaves the other names alone.
pub proof fn collections_hold_what_is_put_in(
    set: &mut TextSet,
    text: &str,
    map: &mut TextMap,
    key: String,
    value: String,
    other: Seq<char>,
)
    requires
        call_ensures(TextSet::insert, (set, text), ()),
        call_ensures(TextMap::insert, (map, key, value), ()),
    ensures
        final(set)@.contains(text@),
        other != text@ ==> (final(set)@.contains(other) <==> old(set)@.contains(other)),
        lookup(final(map)@, key@) == Some(value@),
        other != key@ ==> lookup(final(map)@, other) == lookup(old(map)@, other),
{
}

/// Some ten entries, parted by commas, are those entries.
proof fn lemma_ten_entries(text: Seq<char>, l: Seq<Seq<char>>)
    requires
        l.len() == 10,
        forall|i: int| 0 <= i < 10 ==> !(#[trigger] l[i]).contains(','),
        text == l[0] + seq![','] + l[1] + seq![','] + l[2] + seq![','] + l[3] + seq![','] + l[4]
            + seq![','] + l[5] + seq![','] + l[6] + seq![','] + l[7] + seq![','] + l[8] + seq![',']
            + l[9],
    ensures
        split_on(text, ',') == l,
{
    lemma_joined_ten(l, ',');
    splitting_undoes_joining(l, ',');
}

proof fn lemma_first_extensions()
    ensures
        split_on("txt,md,json,log,xml,yaml,yml,csv,html,css"@, ',') == seq![
            "txt"@,
            "md"@,
            "json"@,
            "log"@,
            "xml"@,
            "yaml"@,
            "yml"@,
            "csv"@,
            "html"@,
            "css"@,
        ],
{
    reveal_strlit("txt,md,json,log,xml,yaml,yml,csv,html,css");
    reveal_strlit("txt");
    reveal_strlit("md");
    reveal_strlit("json");
    reveal_strlit("log");
    reveal_strlit("xml");
    reveal_strlit("yaml");
    reveal_strlit("yml");
    reveal_strlit("csv");
    reveal_strlit("html");
    reveal_strlit("css");
    let l = seq![
        "txt"@,
        "md"@,
        "json"@,
        "log"@,
        "xml"@,
        "yaml"@,
        "yml"@,
        "csv"@,
        "html"@,
        "css"@,
    ];
    let text = "txt,md,json,log,xml,yaml,yml,csv,html,css"@;
    assert(text =~= l[0] + seq![','] + l[1] + seq![','] + l[2] + seq![','] + l[3] + seq![','] + l[4]
        + seq![','] + l[5] + seq![','] + l[6] + seq![','] + l[7] + seq![','] + l[8] + seq![',']
        + l[9]);
    assert forall|i: int| 0 <= i < 10 implies !(#[trigger] l[i]).contains(',') by {
        if l[i].contains(',') {
            let k = choose|k: int| 0 <= k < l[i].len() && l[i][k] == ',';
        }
    }
    lemma_ten_entries(text, l);
}

proof fn lemma_second_extensions()
    ensures
        split_on("py,js,ts,java,c,cpp,cs,php,go,rb"@, ',') == seq![
            "py"@,
            "js"@,
            "ts"@,
            "java"@,
            "c"@,
            "cpp"@,
            "cs"@,
            "php"@,
            "go"@,
            "rb"@,
        ],
{
    reveal_strlit("py,js,ts,java,c,cpp,cs,php,go,rb");
    reveal_strlit("py");
    reveal_strlit("js");
    reveal_strlit("ts");
    reveal_strlit("java");
    reveal_strlit("c");
    reveal_strlit("cpp");
    reveal_strlit("cs");
    reveal_strlit("php");
    reveal_strlit("go");
    reveal_strlit("rb");
    let l = seq![
        "py"@,
        "js"@,
        "ts"@,
        "java"@,
        "c"@,
        "cpp"@,
        "cs"@,
        "php"@,
        "go"@,
        "rb"@,
    ];
    let text = "py,js,ts,java,c,cpp,cs,php,go,rb"@;
    assert(text =~= l[0] + seq![','] + l[1] + seq![','] + l[2] + seq![','] + l[3] + seq![','] + l[4]
        + seq![','] + l[5] + seq![','] + l[6] + seq![','] + l[7] + seq![','] + l[8] + seq![',']
        + l[9]);
    assert forall|i: int| 0 <= i < 10 implies !(#[trigger] l[i]).contains(',') by {
        if l[i].contains(',') {
            let k = choose|k: int| 0 <= k < l[i].len() && l[i][k] == ',';
        }
    }
    lemma_ten_entries(text, l);
}

proof fn lemma_third_extensions()
    ensures
        split_on("sh,zsh,ps1,bat,cmd,pdf,doc,docx,ppt,pptx"@, ',') == seq![
            "sh"@,
            "zsh"@,
            "ps1"@,
            "bat"@,
            "cmd"@,
            "pdf"@,
            "doc"@,
            "docx"@,
            "ppt"@,
            "pptx"@,
        ],
{
    reveal_strlit("sh,zsh,ps1,bat,cmd,pdf,doc,docx,ppt,pptx");
    reveal_strlit("sh");
    reveal_strlit("zsh");
    reveal_strlit("ps1");
    reveal_strlit("bat");
    reveal_strlit("cmd");
    reveal_strlit("pdf");
    reveal_strlit("doc");
    reveal_strlit("docx");
    reveal_strlit("ppt");
    reveal_strlit("pptx");
    let l = seq![
        "sh"@,
        "zsh"@,
        "ps1"@,
        "bat"@,
        "cmd"@,
        "pdf"@,
        "doc"@,
        "docx"@,
        "ppt"@,
        "pptx"@,
    ];
    let text = "sh,zsh,ps1,bat,cmd,pdf,doc,docx,ppt,pptx"@;
    assert(text =~= l[0] + seq![','] + l[1] + seq![','] + l[2] + seq![','] + l[3] + seq![','] + l[4]
        + seq![','] + l[5] + seq![','] + l[6] + seq![','] + l[7] + seq![','] + l[8] + seq![',']
        + l[9]);
    assert forall|i: int| 0 <= i < 10 implies !(#[trigger] l[i]).contains(',') by {
        if l[i].contains(',') {
            let k = choose|k: int| 0 <= k < l[i].len() && l[i][k] == ',';
        }
    }
    lemma_ten_entries(text, l);
}

proof fn lemma_fourth_extensions()
    ensures
        split_on("xls,xlsx,png,jpg,jpeg,webp,gif,tiff,bmp,svg"@, ',') == seq![
            "xls"@,
            "xlsx"@,
            "png"@,
            "jpg"@,
            "jpeg"@,
            "webp"@,
            "gif"@,
            "tiff"@,
            "bmp"@,
            "svg"@,
        ],
{
    reveal_strlit("xls,xlsx,png,jpg,jpeg,webp,gif,tiff,bmp,svg");
    reveal_strlit("xls");
    reveal_strlit("xlsx");
    reveal_strlit("png");
    reveal_strlit("jpg");
    reveal_strlit("jpeg");
    reveal_strlit("webp");
    reveal_strlit("gif");
    reveal_strlit("tiff");
    reveal_strlit("bmp");
    reveal_strlit("svg");
    let l = seq![
        "xls"@,
        "xlsx"@,
        "png"@,
        "jpg"@,
        "jpeg"@,
        "webp"@,
        "gif"@,
        "tiff"@,
        "bmp"@,
        "svg"@,
    ];
    let text = "xls,xlsx,png,jpg,jpeg,webp,gif,tiff,bmp,svg"@;
    assert(text =~= l[0] + seq![','] + l[1] + seq![','] + l[2] + seq![','] + l[3] + seq![','] + l[4]
        + seq![','] + l[5] + seq![','] + l[6] + seq![','] + l[7] + seq![','] + l[8] + seq![',']
        + l[9]);
    assert forall|i: int| 0 <= i < 10 implies !(#[trigger] l[i]).contains(',') by {
        if l[i].contains(',') {
            let k = choose|k: int| 0 <= k < l[i].len() && l[i][k] == ',';
        }
    }
    lemma_ten_entries(text, l);
}

/// A user may upload texts, code and scripts, documents and pictures: the extensions that are
/// allowed, one by one.
pub proof fn allowed_extensions_are_listed(env: &TextMap, r: Settings)
    requires
        call_ensures(Settings::from_env, (env,), r),
    ensures
        split_on(r.context_allowed_user_exts@, ',') == seq![
            "txt"@,
            "md"@,
            "json"@,
            "log"@,
            "xml"@,
            "yaml"@,
            "yml"@,
            "csv"@,
            "html"@,
            "css"@,
            "py"@,
            "js"@,
            "ts"@,
            "java"@,
            "c"@,
            "cpp"@,
            "cs"@,
            "php"@,
            "go"@,
            "rb"@,
            "sh"@,
            "zsh"@,
            "ps1"@,
            "bat"@,
            "cmd"@,
            "pdf"@,
            "doc"@,
            "docx"@,
            "ppt"@,
            "pptx"@,
            "xls"@,
            "xlsx"@,
            "png"@,
            "jpg"@,
            "jpeg"@,
            "webp"@,
            "gif"@,
            "tiff"@,
            "bmp"@,
            "svg"@,
        ],
{
    lemma_first_extensions();
    lemma_second_extensions();
    lemma_third_extensions();
    lemma_fourth_extensions();
    let g0 = "txt,md,json,log,xml,yaml,yml,csv,html,css"@;
    let g1 = "py,js,ts,java,c,cpp,cs,php,go,rb"@;
    let g2 = "sh,zsh,ps1,bat,cmd,pdf,doc,docx,ppt,pptx"@;
    let g3 = "xls,xlsx,png,jpg,jpeg,webp,gif,tiff,bmp,svg"@;
    let all = r.context_allowed_user_exts@;
    assert(all =~= g0 + seq![','] + (g1 + seq![','] + (g2 + seq![','] + g3))) by {
        reveal_strlit(
            "txt,md,json,log,xml,yaml,yml,csv,html,css,py,js,ts,java,c,cpp,cs,php,go,rb,sh,zsh,ps1,bat,cmd,pdf,doc,docx,ppt,pptx,xls,xlsx,png,jpg,jpeg,webp,gif,tiff,bmp,svg",
        );
        reveal_strlit("txt,md,json,log,xml,yaml,yml,csv,html,css");
        reveal_strlit("py,js,ts,java,c,cpp,cs,php,go,rb");
        reveal_strlit("sh,zsh,ps1,bat,cmd,pdf,doc,docx,ppt,pptx");
        reveal_strlit("xls,xlsx,png,jpg,jpeg,webp,gif,tiff,bmp,svg");
    }
    splitting_parts_at_the_character(g2, ',', g3);
    splitting_parts_at_the_character(g1, ',', g2 + seq![','] + g3);
    splitting_parts_at_the_character(g0, ',', g1 + seq![','] + (g2 + seq![','] + g3));
    assert(split_on(all, ',') =~= seq![
        "txt"@,
        "md"@,
        "json"@,
        "log"@,
        "xml"@,
        "yaml"@,
        "yml"@,
        "csv"@,
        "html"@,
        "css"@,
        "py"@,
        "js"@,
        "ts"@,
        "java"@,
        "c"@,
        "cpp"@,
        "cs"@,
        "php"@,
        "go"@,
        "rb"@,
        "sh"@,
        "zsh"@,
        "ps1"@,
        "bat"@,
        "cmd"@,
        "pdf"@,
        "doc"@,
        "docx"@,
        "ppt"@,
        "pptx"@,
        "xls"@,
        "xlsx"@,
        "png"@,
        "jpg"@,
        "jpeg"@,
        "webp"@,
        "gif"@,
        "tiff"@,
        "bmp"@,
        "svg"@,
    ]);
}

} // verus!
