//! Whether the gateway is alive.

use crate::json::{object, Json, JsonView};
use vstd::prelude::*;

verus! {

/// The gateway is alive.
pub fn healthz() -> (r: Json)
    ensures
        r@ == object().with("status"@, JsonView::Str("ok"@)),
{
    Json::object().with("status", Json::str("ok"))
}

/// The gateway can be used, with so many accounts.
pub fn readyz(accounts: usize) -> (r: Json)
    ensures
        r@ == object().with("status"@, JsonView::Str("ready"@)).with(
            "accounts"@,
            JsonView::Int(accounts as int),
        ),
{
    Json::object().with("status", Json::str("ready")).with(
        "accounts",
        Json::uint(accounts as u64),
    )
}

/// What the gateway is.
pub fn root() -> (r: Json)
    ensures
        r@ == object().with(
            "status"@,
            JsonView::Str("qwen2API Enterprise Gateway (Rust) is running"@),
        ).with("version"@, JsonView::Str("2.0.0"@)),
{
    Json::object().with(
        "status",
        Json::str("qwen2API Enterprise Gateway (Rust) is running"),
    ).with("version", Json::str("2.0.0"))
}

} // verus!
