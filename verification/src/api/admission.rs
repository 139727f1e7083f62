//! Whether a request is let in.

use crate::auth::{api_token, resolve_auth, AuthContext};
use crate::error::{parse_body, AppError, AppResult};
use crate::json::{Json, JsonView};
use crate::json_text::json_parse;
use crate::request::StandardRequest;
use crate::text::opt_string;
use crate::text_map::TextMap;
use vstd::prelude::*;

verus! {

/// How a request is refused: a body that is no JSON comes before a key that is missing, and
/// that before one that is wrong.
pub open spec fn refusal(
    body: Seq<u8>,
    api_key: Seq<char>,
    headers: Map<Seq<char>, Seq<char>>,
    query: Map<Seq<char>, Seq<char>>,
) -> Option<(u16, Seq<char>)> {
    match json_parse(body) {
        Err(why) => Some((400, "JSON parse error: "@ + why)),
        Ok(_) => match api_token(headers, query) {
            None => Some((401, "Missing API key"@)),
            Some(token) => if token == api_key {
                None
            } else {
                Some((401, "Invalid API key"@))
            },
        },
    }
}

/// Lets a request in: its body and who makes it, or how it is refused.
pub fn let_in(body: &[u8], api_key: &str, headers: &TextMap, query: &TextMap) -> (r: AppResult<
    (Json, AuthContext),
>)
    ensures
        match refusal(body@, api_key@, headers@, query@) {
            None => r matches Ok((j, who)) && json_parse(body@) == Ok::<JsonView, Seq<char>>(j@)
                && who.token@ == api_key@,
            Some((status, message)) => r matches Err(e) && e.spec_status() == status
                && e.spec_message() == message,
        },
{
    let parsed = match parse_body(body) {
        Ok(j) => j,
        Err(e) => {
            return Err(e);
        },
    };
    match resolve_auth(api_key, headers, query) {
        Ok(who) => Ok((parsed, who)),
        Err(e) => Err(e),
    }
}

/// Only one who shows the key is let in, and a request is let in or refused by its body, its
/// headers and its query alone.
pub proof fn only_the_key_lets_in(
    body: Seq<u8>,
    api_key: Seq<char>,
    headers: Map<Seq<char>, Seq<char>>,
    query: Map<Seq<char>, Seq<char>>,
)
    ensures
        refusal(body, api_key, headers, query) is None <==> (json_parse(body) is Ok && api_token(
            headers,
            query,
        ) == Some(api_key)),
        refusal(body, api_key, headers, query) matches Some((status, _)) ==> status == 400
            || status == 401,
{
}

/// What a completion that was collected came to: an error is the upstream's.
pub fn collected(error: Option<&str>) -> (r: AppResult<()>)
    ensures
        match error {
            Some(e) => r matches Err(AppError::Upstream(m)) && m@ == e@,
            None => r is Ok,
        },
{
    match error {
        Some(e) => Err(AppError::Upstream(e.to_string())),
        None => Ok(()),
    }
}

/// A request of the one who was let in.
pub fn with_caller(request: StandardRequest, who: &AuthContext) -> (r: StandardRequest)
    ensures
        opt_string(r.caller) == Some(who.token@),
        r == (StandardRequest { caller: r.caller, ..request }),
{
    let mut r = request;
    r.caller = Some(who.token.as_str().to_string());
    r
}

} // verus!
