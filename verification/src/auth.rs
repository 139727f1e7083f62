//! The key that a client has to show.

use crate::error::{AppError, AppResult};
use crate::text::{
    begins_with, is_white, opt_string, same_text, strip_prefix_text, trim_back, trim_front,
    trim_text, trimmed,
};
use crate::text_map::{lookup, TextMap};
use vstd::prelude::*;

verus! {

/// Who makes a request.
#[derive(Debug)]
pub struct AuthContext {
    pub token: String,
}

/// A text without the white space around it, where anything is left.
pub open spec fn non_blank(s: Seq<char>) -> Option<Seq<char>> {
    if trimmed(s).len() > 0 {
        Some(trimmed(s))
    } else {
        None
    }
}

/// The key in the header of authorization: what stands behind `Bearer `, or all of it.
pub open spec fn bearer_key(auth: Seq<char>) -> Option<Seq<char>> {
    if begins_with(auth, "Bearer "@) {
        non_blank(auth.skip(7))
    } else {
        non_blank(auth)
    }
}

/// The first key that is there.
pub open spec fn or_key(a: Option<Seq<char>>, b: Option<Seq<char>>) -> Option<Seq<char>> {
    match a {
        Some(_) => a,
        None => b,
    }
}

/// The key under a name, where it is not blank.
pub open spec fn named_key(m: Map<Seq<char>, Seq<char>>, name: Seq<char>) -> Option<Seq<char>> {
    match lookup(m, name) {
        Some(k) => non_blank(k),
        None => None,
    }
}

/// The key in a query: under `key`, or under `api_key` where there is no `key`.
pub open spec fn query_key(query: Map<Seq<char>, Seq<char>>) -> Option<Seq<char>> {
    match or_key(lookup(query, "key"@), lookup(query, "api_key"@)) {
        Some(k) => non_blank(k),
        None => None,
    }
}

/// The key of a request: the first one that is not blank, in the header of authorization, in
/// one of the two headers for keys, or in the query.
pub open spec fn api_token(
    headers: Map<Seq<char>, Seq<char>>,
    query: Map<Seq<char>, Seq<char>>,
) -> Option<Seq<char>> {
    let auth = match lookup(headers, "authorization"@) {
        Some(a) => bearer_key(a),
        None => None,
    };
    or_key(
        auth,
        or_key(
            named_key(headers, "x-api-key"@),
            or_key(named_key(headers, "x-goog-api-key"@), query_key(query)),
        ),
    )
}

fn read_non_blank(s: &str) -> (r: Option<String>)
    ensures
        opt_string(r) == non_blank(s@),
{
    let t = trim_text(s);
    if t.as_str().is_empty() {
        None
    } else {
        Some(t)
    }
}

fn read_named_key(m: &TextMap, name: &str) -> (r: Option<String>)
    ensures
        opt_string(r) == named_key(m@, name@),
{
    match m.get(name) {
        Some(k) => read_non_blank(k),
        None => None,
    }
}

/// The key of a request, out of its headers, whose names are in lower case, and its query.
pub fn extract_api_token(headers: &TextMap, query: &TextMap) -> (r: Option<String>)
    ensures
        opt_string(r) == api_token(headers@, query@),
{
    match headers.get("authorization") {
        Some(auth) => {
            let found = match strip_prefix_text(auth, "Bearer ") {
                Some(rest) => {
                    proof {
                        reveal_strlit("Bearer ");
                    }
                    read_non_blank(rest.as_str())
                },
                None => read_non_blank(auth),
            };
            if found.is_some() {
                return found;
            }
        },
        None => {},
    }
    let found = read_named_key(headers, "x-api-key");
    if found.is_some() {
        return found;
    }
    let found = read_named_key(headers, "x-goog-api-key");
    if found.is_some() {
        return found;
    }
    let key = match query.get("key") {
        Some(k) => Some(k),
        None => query.get("api_key"),
    };
    match key {
        Some(k) => read_non_blank(k),
        None => None,
    }
}

/// The failure of a client that has shown no key, or the wrong one.
pub open spec fn unauthorized(e: AppError, message: Seq<char>) -> bool {
    e matches AppError::Unauthorized(m) && m@ == message
}

/// Who makes a request: one who shows the key, and nobody else.
pub fn resolve_auth(api_key: &str, headers: &TextMap, query: &TextMap) -> (r: AppResult<
    AuthContext,
>)
    ensures
        match api_token(headers@, query@) {
            None => r matches Err(e) && unauthorized(e, "Missing API key"@),
            Some(token) => if token == api_key@ {
                r matches Ok(ctx) && ctx.token@ == token
            } else {
                r matches Err(e) && unauthorized(e, "Invalid API key"@)
            },
        },
{
    match extract_api_token(headers, query) {
        Some(token) => if same_text(token.as_str(), api_key) {
            Ok(AuthContext { token })
        } else {
            Err(AppError::Unauthorized("Invalid API key".to_string()))
        },
        None => Err(AppError::Unauthorized("Missing API key".to_string())),
    }
}

proof fn lemma_trim_back(s: Seq<char>)
    ensures
        trim_back(s).len() > 0 ==> !is_white(trim_back(s).last()),
        trim_back(s).len() <= s.len(),
        trim_back(s) == s.take(trim_back(s).len() as int),
    decreases s.len(),
{
    if s.len() > 0 && is_white(s.last()) {
        lemma_trim_back(s.drop_last());
        assert(trim_back(s) =~= s.take(trim_back(s).len() as int));
    } else {
        assert(trim_back(s) =~= s.take(trim_back(s).len() as int));
    }
}

proof fn lemma_trim_front(s: Seq<char>)
    ensures
        trim_front(s).len() > 0 ==> !is_white(trim_front(s)[0]),
    decreases s.len(),
{
    if s.len() > 0 && is_white(s[0]) {
        lemma_trim_front(s.drop_first());
    }
}

/// A key is never empty and has no white space around it.
pub proof fn keys_are_trimmed(
    headers: Map<Seq<char>, Seq<char>>,
    query: Map<Seq<char>, Seq<char>>,
)
    ensures
        api_token(headers, query) matches Some(t) ==> t.len() > 0 && !is_white(t[0])
            && !is_white(t.last()),
{
    if let Some(t) = api_token(headers, query) {
        assert forall|s: Seq<char>| #[trigger] trimmed(s).len() > 0 implies !is_white(
            trimmed(s)[0],
        ) && !is_white(trimmed(s).last()) by {
            lemma_trim_front(s);
            lemma_trim_back(trim_front(s));
        }
    }
}

/// The header of authorization comes before all else: a key in it is the one that counts.
pub proof fn authorization_comes_first(
    headers: Map<Seq<char>, Seq<char>>,
    query: Map<Seq<char>, Seq<char>>,
)
    requires
        headers.contains_key("authorization"@),
        bearer_key(headers["authorization"@]) is Some,
    ensures
        api_token(headers, query) == bearer_key(headers["authorization"@]),
{
}

} // verus!
