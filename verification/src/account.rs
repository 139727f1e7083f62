//! The accounts that requests are made with. Times are in milliseconds.

use crate::json::{Json, JsonView, object};
use crate::text::same_text;
use vstd::prelude::*;

verus! {

/// An account.
#[derive(Debug)]
pub struct Account {
    pub email: String,
    pub password: String,
    pub token: String,
    pub cookies: String,
    pub username: String,
    pub activation_pending: bool,
    pub status_code: String,
    pub last_error: String,
    pub last_request_started: i64,
    pub last_request_finished: i64,
    pub consecutive_failures: i64,
    pub rate_limit_strikes: i64,
    pub valid: bool,
    pub inflight: i64,
    pub rate_limited_until: i64,
    pub last_used: i64,
    pub healing: bool,
}

/// The larger of two times.
pub open spec fn later(a: int, b: int) -> int {
    if a >= b {
        a
    } else {
        b
    }
}

impl Account {
    /// The fields of this account that are not about its present use are those of `other`.
    pub open spec fn same_record(self, other: Account) -> bool {
        &&& self.email == other.email
        &&& self.password == other.password
        &&& self.token == other.token
        &&& self.cookies == other.cookies
        &&& self.username == other.username
        &&& self.activation_pending == other.activation_pending
        &&& self.status_code == other.status_code
        &&& self.last_error == other.last_error
        &&& self.last_request_started == other.last_request_started
        &&& self.last_request_finished == other.last_request_finished
        &&& self.consecutive_failures == other.consecutive_failures
        &&& self.rate_limit_strikes == other.rate_limit_strikes
    }

    /// Nobody uses the account.
    pub open spec fn is_idle(self) -> bool {
        &&& self.inflight == 0
        &&& self.rate_limited_until == 0
        &&& self.last_used == 0
        &&& !self.healing
    }

    /// A stored account can be used: its state is the good one, or none of the bad ones and it
    /// need not be activated.
    pub open spec fn is_usable(self) -> bool {
        ||| self.status_code@ == "valid"@
        ||| !self.activation_pending && self.status_code@ != "banned"@ && self.status_code@
            != "auth_error"@
    }

    /// The account has to wait for the upstream at the time `now`.
    pub open spec fn limited(self, now: int) -> bool {
        self.rate_limited_until > now
    }

    /// When the account may be used again: when the upstream allows it, and a whole interval
    /// behind both the beginning and the end of the last request.
    pub open spec fn free_at(self, min_interval_ms: int) -> int {
        later(
            self.rate_limited_until as int,
            later(
                self.last_request_started + min_interval_ms,
                self.last_request_finished + min_interval_ms,
            ),
        )
    }

    /// The state of the account at the time `now`.
    pub open spec fn state_at(self, now: int) -> Seq<char> {
        if self.status_code@ == "banned"@ {
            "banned"@
        } else if self.limited(now) {
            "rate_limited"@
        } else if self.activation_pending {
            "pending_activation"@
        } else if self.valid {
            "valid"@
        } else if self.status_code@ == "valid"@ || self.status_code@.len() == 0 {
            "auth_error"@
        } else {
            self.status_code@
        }
    }

    /// A new account, ready for use.
    pub fn new(
        email: String,
        password: String,
        token: String,
        cookies: String,
        username: String,
    ) -> (r: Account)
        ensures
            r.email == email,
            r.password == password,
            r.token == token,
            r.cookies == cookies,
            r.username == username,
            !r.activation_pending,
            r.status_code@ == "valid"@,
            r.last_error@ == ""@,
            r.last_request_started == 0,
            r.last_request_finished == 0,
            r.consecutive_failures == 0,
            r.rate_limit_strikes == 0,
            r.valid,
            r.is_idle(),
    {
        Account {
            email,
            password,
            token,
            cookies,
            username,
            activation_pending: false,
            status_code: "valid".to_string(),
            last_error: "".to_string(),
            last_request_started: 0,
            last_request_finished: 0,
            consecutive_failures: 0,
            rate_limit_strikes: 0,
            valid: true,
            inflight: 0,
            rate_limited_until: 0,
            last_used: 0,
            healing: false,
        }
    }

    /// Puts a stored account to use.
    pub fn init_runtime(&mut self)
        ensures
            final(self).same_record(*old(self)),
            final(self).is_idle(),
            final(self).valid == old(self).is_usable(),
    {
        self.valid = (!self.activation_pending && !same_text(
            self.status_code.as_str(),
            "banned",
        ) && !same_text(self.status_code.as_str(), "auth_error")) || same_text(
            self.status_code.as_str(),
            "valid",
        );
        self.inflight = 0;
        self.rate_limited_until = 0;
        self.last_used = 0;
        self.healing = false;
    }

    /// Whether the account has to wait for the upstream.
    pub fn is_rate_limited(&self, now: i64) -> (r: bool)
        ensures
            r == self.limited(now as int),
    {
        self.rate_limited_until > now
    }

    /// Whether the account may be used now.
    pub fn is_available(&self, min_interval_ms: u64, now: i64) -> (r: bool)
        ensures
            r == available(*self, min_interval_ms as int, now as int),
    {
        self.valid && !self.is_rate_limited(now) && self.next_available_at(min_interval_ms)
            <= now as i128
    }

    /// When the account may be used again. The interval is counted from the end of the last
    /// request too, so that there is a whole rest behind a long one.
    pub fn next_available_at(&self, min_interval_ms: u64) -> (r: i128)
        ensures
            r == self.free_at(min_interval_ms as int),
    {
        let after_started: i128 = self.last_request_started as i128 + min_interval_ms as i128;
        let after_finished: i128 = self.last_request_finished as i128 + min_interval_ms as i128;
        let rest: i128 = if after_started >= after_finished {
            after_started
        } else {
            after_finished
        };
        if self.rate_limited_until as i128 >= rest {
            self.rate_limited_until as i128
        } else {
            rest
        }
    }

    /// The state of the account.
    pub fn get_status_code(&self, now: i64) -> (r: String)
        ensures
            r@ == self.state_at(now as int),
    {
        if same_text(self.status_code.as_str(), "banned") {
            return "banned".to_string();
        }
        if self.is_rate_limited(now) {
            return "rate_limited".to_string();
        }
        if self.activation_pending {
            return "pending_activation".to_string();
        }
        if !self.valid {
            if same_text(self.status_code.as_str(), "valid") || self.status_code.as_str().is_empty() {
                return "auth_error".to_string();
            }
            return self.status_code.as_str().to_string();
        }
        "valid".to_string()
    }

    /// The state of the account in words.
    pub fn get_status_text(&self, now: i64) -> (r: String)
        ensures
            r@ == state_text(self.state_at(now as int)),
    {
        let code = self.get_status_code(now);
        let code = code.as_str();
        let text = if same_text(code, "valid") {
            "Healthy"
        } else if same_text(code, "pending_activation") {
            "Pending activation"
        } else if same_text(code, "rate_limited") {
            "Rate limited"
        } else if same_text(code, "banned") {
            "Banned"
        } else if same_text(code, "auth_error") {
            "Authentication failed"
        } else if same_text(code, "invalid") {
            "Invalid"
        } else {
            "Unknown"
        };
        text.to_string()
    }

    /// The account in the list of accounts. `until` is the time up to which it has to wait, in
    /// the unit of the list.
    pub fn to_admin_json(&self, now: i64, until: Json) -> (r: Json)
        ensures
            r@ == object().with("email"@, JsonView::Str(self.email@)).with(
                "username"@,
                JsonView::Str(self.username@),
            ).with("valid"@, JsonView::Bool(self.valid)).with(
                "inflight"@,
                JsonView::Int(self.inflight as int),
            ).with("rate_limited_until"@, until@).with(
                "activation_pending"@,
                JsonView::Bool(self.activation_pending),
            ).with("status_code"@, JsonView::Str(self.state_at(now as int))).with(
                "status_text"@,
                JsonView::Str(state_text(self.state_at(now as int))),
            ).with("last_error"@, JsonView::Str(self.last_error@)).with(
                "consecutive_failures"@,
                JsonView::Int(self.consecutive_failures as int),
            ).with("rate_limit_strikes"@, JsonView::Int(self.rate_limit_strikes as int)),
    {
        Json::object().with("email", Json::str(self.email.as_str())).with(
            "username",
            Json::str(self.username.as_str()),
        ).with("valid", Json::Bool(self.valid)).with("inflight", Json::integer(self.inflight)).with(
            "rate_limited_until",
            until,
        ).with("activation_pending", Json::Bool(self.activation_pending)).with(
            "status_code",
            Json::Str(self.get_status_code(now)),
        ).with("status_text", Json::Str(self.get_status_text(now))).with(
            "last_error",
            Json::str(self.last_error.as_str()),
        ).with("consecutive_failures", Json::integer(self.consecutive_failures)).with(
            "rate_limit_strikes",
            Json::integer(self.rate_limit_strikes),
        )
    }
}

/// A state in words.
pub open spec fn state_text(code: Seq<char>) -> Seq<char> {
    if code == "valid"@ {
        "Healthy"@
    } else if code == "pending_activation"@ {
        "Pending activation"@
    } else if code == "rate_limited"@ {
        "Rate limited"@
    } else if code == "banned"@ {
        "Banned"@
    } else if code == "auth_error"@ {
        "Authentication failed"@
    } else if code == "invalid"@ {
        "Invalid"@
    } else {
        "Unknown"@
    }
}

/// The account may be used at the time `now`.
pub open spec fn available(a: Account, min_interval_ms: int, now: int) -> bool {
    a.valid && !a.limited(now) && a.free_at(min_interval_ms) <= now
}

/// An account that may be used has had its whole rest: behind the beginning of its last
/// request, behind its end, and behind the time that the upstream set.
pub proof fn available_accounts_are_rested(a: Account, min_interval_ms: int, now: int)
    requires
        available(a, min_interval_ms, now),
    ensures
        a.last_request_started + min_interval_ms <= now,
        a.last_request_finished + min_interval_ms <= now,
        a.rate_limited_until <= now,
        a.valid,
{
}

/// An account that nobody uses stays available, and with a shorter interval it is available
/// no later.
pub proof fn availability_lasts(a: Account, interval: int, shorter: int, now: int, then_: int)
    requires
        available(a, interval, now),
        now <= then_,
        shorter <= interval,
    ensures
        available(a, shorter, then_),
{
}

/// An account that may be used is in the good state, unless it is banned or has to be
/// activated.
pub proof fn available_accounts_are_healthy(a: Account, min_interval_ms: int, now: int)
    requires
        available(a, min_interval_ms, now),
        a.status_code@ != "banned"@,
        !a.activation_pending,
    ensures
        a.state_at(now) == "valid"@,
{
}

} // verus!
