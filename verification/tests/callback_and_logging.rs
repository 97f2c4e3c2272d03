use std::io::{Cursor, Read};

use camellia_nexus_desktop::frontend_log::{
    log_frontend_event, valid_frontend_log_event, FrontendLogLevel, FrontendLogLimiter,
};
use camellia_nexus_desktop::license_policy::{
    startup_plan, update_auto_start_arming, ErrorCode, LicenseRuntimeImpact,
};
use camellia_nexus_desktop::callback_book::{keep_callback, CallbackBook};
use camellia_nexus_desktop::license_session::PendingAuthorizationStore;
use camellia_nexus_desktop::loopback::{
    absorb_read, callback_check, callback_reply, classify_callback_target, loopback_request_target, loopback_response,
    read_loopback_request_line, request_line_progress, CallbackCheck, CallbackThreadLimiter,
    LineProgress, RequestLineError, ResponseStatus, TargetKind,
};

struct FragmentedReader {
    inner: Cursor<Vec<u8>>,
    maximum_chunk: usize,
}

impl Read for FragmentedReader {
    fn read(&mut self, buffer: &mut [u8]) -> std::io::Result<usize> {
        let length = buffer.len().min(self.maximum_chunk);
        self.inner.read(&mut buffer[..length])
    }
}

#[test]
fn frontend_logging_accepts_only_fixed_safe_events_and_levels() {
    for (level, event) in [
        ("warn", "license.state-reconcile-failed"),
        ("info", "license.runtime-sync"),
        ("warn", "license.timeout"),
        ("warn", "license.callback-failed"),
        ("info", "license.callback-polled"),
        ("info", "license.begin"),
        ("info", "license.request-ready"),
        ("warn", "license.begin-failed"),
        ("info", "license.callback-received-by-ui"),
        ("debug", "license.callback-waiting-for-idle"),
        ("info", "license.cancel"),
        ("debug", "license.complete-duplicate-ignored"),
        ("info", "license.complete-start"),
        ("debug", "license.complete-invoke"),
        ("info", "license.complete-success"),
        ("warn", "license.complete-failed"),
    ] {
        assert!(valid_frontend_log_event(level, event), "{level} {event}");
    }
    for (level, event) in [
        ("info", "license.timeout"),
        ("error", "license.begin"),
        ("info", "oauth-state-secret"),
        ("info", "license.callback.received.secret"),
    ] {
        assert!(!valid_frontend_log_event(level, event), "{level} {event}");
    }
}

#[test]
fn frontend_events_are_rate_limited_per_window() {
    let mut limiter = FrontendLogLimiter::new(1_000);
    for _ in 0..120 {
        assert_eq!(
            log_frontend_event(&mut limiter, "warn", "license.timeout", 2_000).ok(),
            Some(FrontendLogLevel::Warn)
        );
    }
    let refused = log_frontend_event(&mut limiter, "info", "license.begin", 30_000)
        .expect_err("the window's allowance is spent");
    assert_eq!(refused.code, ErrorCode::ProgramBusy);
    assert_eq!(
        log_frontend_event(&mut limiter, "debug", "license.complete-invoke", 61_000).ok(),
        Some(FrontendLogLevel::Debug)
    );
    assert_eq!(limiter.count, 1);
    let invalid = log_frontend_event(&mut limiter, "error", "license.begin", 61_000)
        .expect_err("not an allowed event");
    assert_eq!(invalid.code, ErrorCode::InvalidSpec);
    assert_eq!(limiter.count, 1);
}

#[test]
fn fragmented_loopback_request_line_is_read_to_crlf() {
    let mut reader = FragmentedReader {
        inner: Cursor::new(
            b"GET /auth/callback?code=abc&state=expected HTTP/1.1\r\nHost: 127.0.0.1\r\n".to_vec(),
        ),
        maximum_chunk: 3,
    };
    let line = read_loopback_request_line(&mut reader).expect("request line");
    assert_eq!(
        loopback_request_target(&line),
        Some("/auth/callback?code=abc&state=expected")
    );
}

#[test]
fn loopback_request_line_parser_is_strict() {
    for invalid in [
        "POST /auth/callback HTTP/1.1",
        "GET http://example.test/ HTTP/1.1",
        "GET /auth/callback HTTP/2",
        "GET  /auth/callback HTTP/1.1",
        "GET /auth/callback HTTP/1.1 extra",
    ] {
        assert_eq!(loopback_request_target(invalid), None, "{invalid}");
    }
    assert_eq!(loopback_request_target("GET / HTTP/1.0"), Some("/"));
}

#[test]
fn request_line_reading_reports_each_failure() {
    let mut truncated = Cursor::new(b"GET / HTTP/1.1".to_vec());
    assert!(matches!(
        read_loopback_request_line(&mut truncated),
        Err(RequestLineError::UnexpectedEof)
    ));
    let mut endless = Cursor::new(vec![b'a'; 5000]);
    assert!(matches!(
        read_loopback_request_line(&mut endless),
        Err(RequestLineError::TooLong)
    ));
    let mut binary = Cursor::new(vec![0xff, 0xfe, b'\r', b'\n']);
    assert!(matches!(
        read_loopback_request_line(&mut binary),
        Err(RequestLineError::NotUtf8)
    ));
    assert!(matches!(
        request_line_progress(&b"GET / HTTP/1.1\r".to_vec()),
        LineProgress::Incomplete
    ));
    match request_line_progress(&b"GET / HTTP/1.1\r\n\r\n".to_vec()) {
        LineProgress::Complete(line) => assert_eq!(line, "GET / HTTP/1.1"),
        other => panic!("unexpected {other:?}"),
    }
}

#[test]
fn callback_thread_limiter_releases_capacity() {
    let mut limiter = CallbackThreadLimiter::new(2);
    let first = limiter.try_acquire().expect("first callback");
    let second = limiter.try_acquire().expect("second callback");
    assert!(limiter.try_acquire().is_none());
    limiter.release(first);
    let replacement = limiter.try_acquire().expect("released callback capacity");
    assert!(limiter.try_acquire().is_none());
    limiter.release(second);
    limiter.release(replacement);
    assert!(limiter.try_acquire().is_some());
}

#[test]
fn auto_start_is_armed_only_for_initial_or_hard_inactive_recovery() {
    let mut armed = true;
    assert!(!update_auto_start_arming(
        &mut armed,
        LicenseRuntimeImpact::RestrictedOffline,
    ));
    assert!(update_auto_start_arming(&mut armed, LicenseRuntimeImpact::Active));
    assert!(!update_auto_start_arming(
        &mut armed,
        LicenseRuntimeImpact::RestrictedOffline,
    ));
    assert!(!update_auto_start_arming(&mut armed, LicenseRuntimeImpact::Active));
    assert!(!update_auto_start_arming(
        &mut armed,
        LicenseRuntimeImpact::HardInactive,
    ));
    assert!(update_auto_start_arming(&mut armed, LicenseRuntimeImpact::Active));
    assert!(!update_auto_start_arming(&mut armed, LicenseRuntimeImpact::Active));
}

fn expected_response(line: &str, title: &str, message: &str) -> String {
    let body = format!(
        "<!doctype html><html><head><meta charset=\"utf-8\"><meta name=\"viewport\" content=\"width=device-width,initial-scale=1\"><title>{title}</title><style>body{{margin:0;min-height:100vh;display:grid;place-items:center;background:#f5f5f7;color:#16181d;font-family:\"Segoe UI\",system-ui,sans-serif}}main{{max-width:460px;padding:32px;border:1px solid rgba(0,0,0,.12);border-radius:18px;background:white;box-shadow:0 18px 60px rgba(0,0,0,.16)}}h1{{margin:0 0 10px;font-size:22px}}p{{margin:0;color:#596170;line-height:1.5}}@media (prefers-color-scheme:dark){{body{{background:#121418;color:#f4f6f8}}main{{background:#1c2027;border-color:rgba(255,255,255,.14)}}p{{color:#aab2bf}}}}</style></head><body><main><h1>{title}</h1><p>{message}</p></main></body></html>"
    );
    let response = format!(
        "{line}\r\nContent-Type: text/html; charset=utf-8\r\nContent-Length: {}\r\nCache-Control: no-store\r\nPragma: no-cache\r\nReferrer-Policy: no-referrer\r\nX-Content-Type-Options: nosniff\r\nContent-Security-Policy: default-src 'none'; style-src 'unsafe-inline'; base-uri 'none'; form-action 'none'\r\nConnection: close\r\n\r\n{body}",
        body.len()
    );
    response
}

#[test]
fn loopback_answers_carry_the_page_and_its_length() {
    assert_eq!(
        loopback_response(ResponseStatus::Success),
        expected_response(
            "HTTP/1.1 200 OK",
            "Activation complete",
            "Camellia Nexus is completing device activation. You can return to the desktop app.",
        )
    );
    assert_eq!(
        loopback_response(ResponseStatus::NotFound),
        expected_response(
            "HTTP/1.1 404 Not Found",
            "Not found",
            "This local endpoint only handles Camellia Nexus device activation.",
        )
    );
    let bad = loopback_response(ResponseStatus::BadRequest);
    assert!(bad.starts_with("HTTP/1.1 400 Bad Request\r\n"));
    let server = loopback_response(ResponseStatus::ServerError);
    assert!(server.starts_with("HTTP/1.1 500 Internal Server Error\r\n"));
}

#[test]
fn callback_targets_are_told_apart_by_their_path() {
    assert_eq!(classify_callback_target("/auth/callback?code=abc&state=s1"), TargetKind::Callback);
    assert_eq!(classify_callback_target("/favicon.ico"), TargetKind::OtherPath);
    assert_eq!(classify_callback_target("/auth/callback/extra"), TargetKind::OtherPath);
}

#[test]
fn callback_replies_follow_how_far_the_request_got() {
    let stored = callback_reply(CallbackCheck::Stored);
    assert_eq!(stored.status, ResponseStatus::Success);
    assert!(stored.handled && stored.announce_callback && !stored.cancel_authorization);
    let other = callback_reply(CallbackCheck::OtherPath);
    assert_eq!(other.status, ResponseStatus::NotFound);
    assert!(!other.handled);
    let redirect = callback_reply(CallbackCheck::InvalidRedirect);
    assert_eq!(redirect.status, ResponseStatus::ServerError);
    assert!(redirect.handled && redirect.cancel_authorization && redirect.report_failure);
    let inactive = callback_reply(CallbackCheck::InactiveSession);
    assert_eq!(inactive.status, ResponseStatus::BadRequest);
    assert!(inactive.handled && !inactive.announce_callback);
    let invalid = callback_reply(CallbackCheck::InvalidCallback);
    assert_eq!(invalid.status, ResponseStatus::BadRequest);
    assert!(!invalid.handled);
}


#[test]
fn startup_starts_programs_only_under_an_active_entitlement() {
    let active = startup_plan(LicenseRuntimeImpact::Active);
    assert!(active.automatic_restarts && active.start_programs && !active.arm_auto_start);
    let offline = startup_plan(LicenseRuntimeImpact::RestrictedOffline);
    assert!(!offline.automatic_restarts && !offline.start_programs && offline.arm_auto_start);
    let mut armed = offline.arm_auto_start;
    assert!(update_auto_start_arming(&mut armed, LicenseRuntimeImpact::Active));
    assert!(!update_auto_start_arming(&mut armed, LicenseRuntimeImpact::Active));
}


#[test]
fn each_read_result_is_absorbed_as_stated() {
    let mut received = b"GET / HT".to_vec();
    assert!(matches!(
        absorb_read(&mut received, Err("reset".to_string()), b"TP/1.1\r\n"),
        Some(Err(RequestLineError::Read(message))) if message == "reset"
    ));
    assert_eq!(received, b"GET / HT".to_vec());
    assert!(matches!(absorb_read(&mut received, Ok(0), b"TP/1.1\r\n"), Some(Err(RequestLineError::UnexpectedEof))));
    assert!(absorb_read(&mut received, Ok(3), b"TP/1.1\r\n").is_none());
    assert_eq!(received, b"GET / HTTP/".to_vec());
    assert!(matches!(
        absorb_read(&mut received, Ok(5), b"1.1\r\nHost"),
        Some(Ok(line)) if line == "GET / HTTP/1.1"
    ));
    let mut long = vec![b'a'; 4096];
    assert!(matches!(absorb_read(&mut long, Ok(1), b"b"), Some(Err(RequestLineError::TooLong))));
}

#[test]
fn callback_checks_follow_the_connection_in_order() {
    let redirect = "http://127.0.0.1:45123/auth/callback";
    let ok = |line: &str| -> Result<String, RequestLineError> { Ok(line.to_string()) };
    assert_eq!(
        callback_check(&Err(RequestLineError::UnexpectedEof), redirect, true, true),
        CallbackCheck::Unreadable
    );
    assert_eq!(callback_check(&ok("POST / HTTP/1.1"), redirect, true, true), CallbackCheck::NoTarget);
    assert_eq!(callback_check(&ok("GET /favicon.ico HTTP/1.1"), redirect, true, true), CallbackCheck::OtherPath);
    let callback = ok("GET /auth/callback?code=c&state=s HTTP/1.1");
    assert_eq!(callback_check(&callback, "not a url", true, true), CallbackCheck::InvalidRedirect);
    assert_eq!(callback_check(&callback, redirect, false, true), CallbackCheck::InvalidCallback);
    assert_eq!(callback_check(&callback, redirect, true, false), CallbackCheck::InactiveSession);
    assert_eq!(callback_check(&callback, redirect, true, true), CallbackCheck::Stored);
}

#[test]
fn a_callback_is_kept_only_for_a_pending_authorization() {
    let mut pending = PendingAuthorizationStore::new(4, 1_000);
    let mut book = CallbackBook::new();
    pending.insert("s1".to_string(), "verifier".to_string(), "uri".to_string(), 100);
    assert!(keep_callback(&mut book, &mut pending, "s1", "url-1".to_string(), 500));
    assert_eq!(book.get("s1").as_deref(), Some("url-1"));
    assert!(!keep_callback(&mut book, &mut pending, "s2", "url-2".to_string(), 500));
    assert!(!book.contains("s2"));
    assert!(!keep_callback(&mut book, &mut pending, "s1", "url-3".to_string(), 2_000));
    assert_eq!(book.get("s1").as_deref(), Some("url-1"));
}
