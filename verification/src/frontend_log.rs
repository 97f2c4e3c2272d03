use vstd::prelude::*;

use crate::license_policy::{AppError, ErrorCode};
use crate::text::text_eq;

verus! {

/// The events the user interface may log, each with its one level. Nothing else reaches the
/// log from the user interface, so no secret can.
pub open spec fn allowed_frontend_event(level: Seq<char>, message: Seq<char>) -> bool {
    ||| level == "warn"@ && message == "license.state-reconcile-failed"@
    ||| level == "info"@ && message == "license.runtime-sync"@
    ||| level == "warn"@ && message == "license.timeout"@
    ||| level == "warn"@ && message == "license.callback-failed"@
    ||| level == "info"@ && message == "license.callback-polled"@
    ||| level == "info"@ && message == "license.begin"@
    ||| level == "info"@ && message == "license.request-ready"@
    ||| level == "warn"@ && message == "license.begin-failed"@
    ||| level == "info"@ && message == "license.callback-received-by-ui"@
    ||| level == "debug"@ && message == "license.callback-waiting-for-idle"@
    ||| level == "info"@ && message == "license.cancel"@
    ||| level == "debug"@ && message == "license.complete-duplicate-ignored"@
    ||| level == "info"@ && message == "license.complete-start"@
    ||| level == "debug"@ && message == "license.complete-invoke"@
    ||| level == "info"@ && message == "license.complete-success"@
    ||| level == "warn"@ && message == "license.complete-failed"@
}

/// Whether the user interface may log `message` at `level`.
pub fn valid_frontend_log_event(level: &str, message: &str) -> (valid: bool)
    ensures
        valid == allowed_frontend_event(level@, message@),
{
    let warn = text_eq(level, "warn");
    let info = text_eq(level, "info");
    let debug = text_eq(level, "debug");
    (warn && text_eq(message, "license.state-reconcile-failed"))
        || (info && text_eq(message, "license.runtime-sync"))
        || (warn && text_eq(message, "license.timeout"))
        || (warn && text_eq(message, "license.callback-failed"))
        || (info && text_eq(message, "license.callback-polled"))
        || (info && text_eq(message, "license.begin"))
        || (info && text_eq(message, "license.request-ready"))
        || (warn && text_eq(message, "license.begin-failed"))
        || (info && text_eq(message, "license.callback-received-by-ui"))
        || (debug && text_eq(message, "license.callback-waiting-for-idle"))
        || (info && text_eq(message, "license.cancel"))
        || (debug && text_eq(message, "license.complete-duplicate-ignored"))
        || (info && text_eq(message, "license.complete-start"))
        || (debug && text_eq(message, "license.complete-invoke"))
        || (info && text_eq(message, "license.complete-success"))
        || (warn && text_eq(message, "license.complete-failed"))
}

/// The length of a rate-limiting window, in milliseconds, and the events allowed in one.
pub const FRONTEND_LOG_WINDOW_MS: u64 = 60_000;
pub const FRONTEND_LOG_EVENTS_PER_WINDOW: u32 = 120;

/// The level at which a frontend event is logged.
#[derive(Clone, Copy, Debug, PartialEq, Eq, Structural)]
pub enum FrontendLogLevel {
    Warn,
    Info,
    Debug,
}

/// Limits how many frontend events are logged per window.
pub struct FrontendLogLimiter {
    pub window_started_ms: u64,
    pub count: u32,
}

/// The limiter once an event arrived at `now_ms`, and whether the event is logged: a window
/// that has run its length starts anew, and a window logs at most its allowance.
pub open spec fn window_step(window_started_ms: u64, count: u32, now_ms: u64) -> (u64, u32, bool) {
    let (start, seen) = if now_ms >= window_started_ms && now_ms - window_started_ms
        >= FRONTEND_LOG_WINDOW_MS {
        (now_ms, 0u32)
    } else {
        (window_started_ms, count)
    };
    if seen >= FRONTEND_LOG_EVENTS_PER_WINDOW {
        (start, seen, false)
    } else {
        (start, (seen + 1) as u32, true)
    }
}

/// The error for an event that is not one of the allowed ones.
pub const INVALID_FRONTEND_EVENT: &'static str = "Frontend log event is invalid";

/// The error for an event over the window's allowance.
pub const FRONTEND_LOG_RATE_LIMITED: &'static str = "Frontend logging is temporarily rate limited";

impl FrontendLogLimiter {
    /// A limiter whose first window starts at `now_ms`.
    pub fn new(now_ms: u64) -> (limiter: Self)
        ensures
            limiter.window_started_ms == now_ms,
            limiter.count == 0,
    {
        FrontendLogLimiter { window_started_ms: now_ms, count: 0 }
    }

    /// Counts an event that arrived at `now_ms` and says whether it is logged.
    pub fn accept_event(&mut self, now_ms: u64) -> (logged: bool)
        ensures
            (final(self).window_started_ms, final(self).count, logged) == window_step(
                old(self).window_started_ms,
                old(self).count,
                now_ms,
            ),
    {
        if now_ms >= self.window_started_ms && now_ms - self.window_started_ms
            >= FRONTEND_LOG_WINDOW_MS {
            self.window_started_ms = now_ms;
            self.count = 0;
        }
        if self.count >= FRONTEND_LOG_EVENTS_PER_WINDOW {
            false
        } else {
            self.count = self.count + 1;
            true
        }
    }
}

/// What happens to an event the user interface logs: refused when it is not allowed, refused
/// when its window's allowance is spent, otherwise logged at its level.
pub open spec fn frontend_log_outcome(
    allowed: bool,
    accepted: bool,
    level: Seq<char>,
) -> Result<FrontendLogLevel, ErrorCode> {
    if !allowed {
        Err(ErrorCode::InvalidSpec)
    } else if !accepted {
        Err(ErrorCode::ProgramBusy)
    } else if level == "warn"@ {
        Ok(FrontendLogLevel::Warn)
    } else if level == "debug"@ {
        Ok(FrontendLogLevel::Debug)
    } else {
        Ok(FrontendLogLevel::Info)
    }
}

/// Decides how an event from the user interface is logged, counting it against the limiter
/// when it is allowed.
pub fn log_frontend_event(
    limiter: &mut FrontendLogLimiter,
    level: &str,
    message: &str,
    now_ms: u64,
) -> (outcome: Result<FrontendLogLevel, AppError>)
    ensures
        !allowed_frontend_event(level@, message@) ==> *final(limiter) == *old(limiter),
        allowed_frontend_event(level@, message@) ==> (
        final(limiter).window_started_ms,
        final(limiter).count,
        window_step(old(limiter).window_started_ms, old(limiter).count, now_ms).2,
        ) == window_step(old(limiter).window_started_ms, old(limiter).count, now_ms),
        match outcome {
            Ok(l) => frontend_log_outcome(
                allowed_frontend_event(level@, message@),
                window_step(old(limiter).window_started_ms, old(limiter).count, now_ms).2,
                level@,
            ) == Ok::<FrontendLogLevel, ErrorCode>(l),
            Err(e) => frontend_log_outcome(
                allowed_frontend_event(level@, message@),
                window_step(old(limiter).window_started_ms, old(limiter).count, now_ms).2,
                level@,
            ) == Err::<FrontendLogLevel, ErrorCode>(e.code),
        },
{
    if !valid_frontend_log_event(level, message) {
        return Err(AppError { code: ErrorCode::InvalidSpec, message: INVALID_FRONTEND_EVENT.to_owned(), details: None });
    }
    if !limiter.accept_event(now_ms) {
        return Err(
            AppError { code: ErrorCode::ProgramBusy, message: FRONTEND_LOG_RATE_LIMITED.to_owned(), details: None },
        );
    }
    if text_eq(level, "warn") {
        Ok(FrontendLogLevel::Warn)
    } else if text_eq(level, "debug") {
        Ok(FrontendLogLevel::Debug)
    } else {
        Ok(FrontendLogLevel::Info)
    }
}

} // verus!
