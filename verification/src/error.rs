//! The errors with which a request is answered.

use crate::json::{object, Json, JsonView};
use crate::json_text::{json_parse, parse_json_bytes};
use vstd::prelude::*;
use vstd::string::StringExecFns;

verus! {

/// Why a request is refused, with what the client is told.
#[derive(Debug)]
pub enum AppError {
    Unauthorized(String),
    Forbidden(String),
    QuotaExceeded(String),
    BadRequest(String),
    NotFound(String),
    NotImplemented(String),
    Upstream(String),
    Internal(String),
}

pub type AppResult<T> = Result<T, AppError>;

impl AppError {
    /// The HTTP status of the answer.
    pub open spec fn spec_status(self) -> u16 {
        match self {
            AppError::Unauthorized(_) => 401,
            AppError::Forbidden(_) => 403,
            AppError::QuotaExceeded(_) => 402,
            AppError::BadRequest(_) => 400,
            AppError::NotFound(_) => 404,
            AppError::NotImplemented(_) => 501,
            AppError::Upstream(_) => 502,
            AppError::Internal(_) => 500,
        }
    }

    /// What the client is told.
    pub open spec fn spec_message(self) -> Seq<char> {
        match self {
            AppError::Unauthorized(m) => m@,
            AppError::Forbidden(m) => m@,
            AppError::QuotaExceeded(m) => m@,
            AppError::BadRequest(m) => m@,
            AppError::NotFound(m) => m@,
            AppError::NotImplemented(m) => m@,
            AppError::Upstream(m) => m@,
            AppError::Internal(m) => m@,
        }
    }

    /// What the error is called before its message when it is displayed.
    pub open spec fn spec_label(self) -> Seq<char> {
        match self {
            AppError::Unauthorized(_) => "unauthorized: "@,
            AppError::Forbidden(_) => "forbidden: "@,
            AppError::QuotaExceeded(_) => "payment required: "@,
            AppError::BadRequest(_) => "bad request: "@,
            AppError::NotFound(_) => "not found: "@,
            AppError::NotImplemented(_) => "not implemented: "@,
            AppError::Upstream(_) => "upstream error: "@,
            AppError::Internal(_) => ""@,
        }
    }

    /// The HTTP status of the answer.
    pub fn status(&self) -> (r: u16)
        ensures
            r == self.spec_status(),
    {
        match self {
            AppError::Unauthorized(_) => 401,
            AppError::Forbidden(_) => 403,
            AppError::QuotaExceeded(_) => 402,
            AppError::BadRequest(_) => 400,
            AppError::NotFound(_) => 404,
            AppError::NotImplemented(_) => 501,
            AppError::Upstream(_) => 502,
            AppError::Internal(_) => 500,
        }
    }

    /// What the client is told.
    pub fn message(&self) -> (r: String)
        ensures
            r@ == self.spec_message(),
    {
        match self {
            AppError::Unauthorized(m) => m.clone(),
            AppError::Forbidden(m) => m.clone(),
            AppError::QuotaExceeded(m) => m.clone(),
            AppError::BadRequest(m) => m.clone(),
            AppError::NotFound(m) => m.clone(),
            AppError::NotImplemented(m) => m.clone(),
            AppError::Upstream(m) => m.clone(),
            AppError::Internal(m) => m.clone(),
        }
    }

    /// The text under which the error is logged and passed on.
    pub fn display(&self) -> (r: String)
        ensures
            r@ == self.spec_label() + self.spec_message(),
    {
        let label = match self {
            AppError::Unauthorized(_) => "unauthorized: ",
            AppError::Forbidden(_) => "forbidden: ",
            AppError::QuotaExceeded(_) => "payment required: ",
            AppError::BadRequest(_) => "bad request: ",
            AppError::NotFound(_) => "not found: ",
            AppError::NotImplemented(_) => "not implemented: ",
            AppError::Upstream(_) => "upstream error: ",
            AppError::Internal(_) => "",
        };
        let mut out = label.to_string();
        out.append(self.message().as_str());
        out
    }

    /// The body of the answer.
    pub fn body(&self) -> (r: Json)
        ensures
            r@ == error_body(self.spec_message(), self.spec_status()),
    {
        let message = self.message();
        Json::object().with(
            "error",
            Json::object().with("message", Json::str(message.as_str())).with(
                "type",
                Json::str("qwen2api_error"),
            ).with("code", Json::uint(self.status() as u64)),
        ).with("detail", Json::str(message.as_str()))
    }
}

/// The body of the answer to a refused request: the message twice, once inside `error` and
/// once beside it.
pub open spec fn error_body(message: Seq<char>, status: u16) -> JsonView {
    object().with(
        "error"@,
        object().with("message"@, JsonView::Str(message)).with(
            "type"@,
            JsonView::Str("qwen2api_error"@),
        ).with("code"@, JsonView::Int(status as int)),
    ).with("detail"@, JsonView::Str(message))
}

/// Reads the body of a request; one that is no JSON value is a bad request.
pub fn parse_body(body: &[u8]) -> (r: AppResult<Json>)
    ensures
        match json_parse(body@) {
            Ok(v) => r matches Ok(j) && j@ == v,
            Err(why) => r matches Err(AppError::BadRequest(m)) && m@ == "JSON parse error: "@
                + why,
        },
{
    match parse_json_bytes(body) {
        Ok(j) => Ok(j),
        Err(why) => {
            let mut message = "JSON parse error: ".to_string();
            message.append(why.as_str());
            Err(AppError::BadRequest(message))
        },
    }
}

} // verus!
