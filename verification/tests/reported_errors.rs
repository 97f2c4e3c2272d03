use camellia_nexus_desktop::broker_identity::digest_hex;
use camellia_nexus_desktop::callback_book::{store_validated_callback, CallbackBook};
use camellia_nexus_desktop::config_sources::source_error_details;
use camellia_nexus_desktop::credential_reconcile::{
    credential_binding_digest, plan_journal_recovery, reconcile_credentials, JournalRecovery,
};
use camellia_nexus_desktop::credentials::CredentialSet;
use camellia_nexus_desktop::license_policy::{license_error, ErrorCode, LicensingError};
use camellia_nexus_desktop::license_session::PendingAuthorizationStore;
use camellia_nexus_desktop::log_rotation::{AppLogState, LOG_MAX_BYTES, RETAINED_APP_ARCHIVES};
use camellia_nexus_desktop::loopback::{callback_url_for, CallbackCheck, RequestLineError};
use camellia_nexus_desktop::managed::{ConfigSource, SourceAuthentication};
use camellia_nexus_desktop::program_transactions::{ProgramFailure, ProgramStep};
use camellia_nexus_desktop::xray_balancers::{
    assemble_xray_dashboard_snapshot, BalancerTargetError, XrayDashboardError,
};

#[test]
fn refused_program_updates_are_invalid_specifications() {
    assert_eq!(ProgramFailure::ManagedConfigurationRequired.code(), Some(ErrorCode::InvalidSpec));
    assert_eq!(ProgramFailure::ConflictingCommitModes.code(), Some(ErrorCode::InvalidSpec));
    assert_eq!(ProgramFailure::Step(ProgramStep::ValidateSpec).code(), None);
    assert_eq!(ProgramFailure::CredentialRollback.code(), None);
    assert_eq!(
        ProgramFailure::ManagedConfigurationRequired.message(),
        Some("Managed configuration is required for an atomic source refresh")
    );
    assert_eq!(
        ProgramFailure::ConflictingCommitModes.message(),
        Some("A settings restart and managed configuration refresh must use one commit mode")
    );
    assert_eq!(ProgramFailure::Step(ProgramStep::CommitUpdate).message(), None);
}

#[test]
fn dashboard_and_balancer_refusals_have_their_codes() {
    assert_eq!(XrayDashboardError::NotXray.code(), ErrorCode::InvalidSpec);
    assert_eq!(XrayDashboardError::NotRunning.code(), ErrorCode::InvalidState);
    assert_eq!(XrayDashboardError::NotEnabled.code(), ErrorCode::InvalidState);
    assert_eq!(XrayDashboardError::NotRunning.snapshot_message(), "Start Xray before refreshing its Dashboard");
    assert_eq!(BalancerTargetError::NotFound.code(), Some(ErrorCode::NotFound));
    assert_eq!(BalancerTargetError::NotACandidate.code(), Some(ErrorCode::InvalidSpec));
    assert_eq!(BalancerTargetError::Unhealthy.code(), Some(ErrorCode::InvalidState));
    assert_eq!(BalancerTargetError::HealthUnknown.code(), None);
}

#[test]
fn a_snapshot_shows_routing_and_topology_only_when_asked() {
    let snapshot = assemble_xray_dashboard_snapshot::<u8, u8, u8, u8, u8>(
        10085,
        10086,
        false,
        false,
        Ok(1),
        Err("stats down".to_string()),
        Ok(3),
        Ok(4),
        Ok(vec![5]),
        77,
    );
    assert_eq!(snapshot.api_url, "127.0.0.1:10085");
    assert_eq!(snapshot.metrics_url, "http://127.0.0.1:10086/debug/vars");
    assert_eq!(snapshot.metrics, Some(1));
    assert_eq!(snapshot.metrics_error, None);
    assert_eq!(snapshot.system_stats, None);
    assert_eq!(snapshot.system_stats_error.as_deref(), Some("stats down"));
    assert_eq!(snapshot.online_users, Some(4));
    assert_eq!(snapshot.topology, None);
    assert_eq!(snapshot.topology_error, None);
    assert_eq!(snapshot.balancers, None);
    assert_eq!(snapshot.routing_error, None);
    assert_eq!(snapshot.fetched_unix_ms, 77);

    let asked = assemble_xray_dashboard_snapshot::<u8, u8, u8, u8, u8>(
        1,
        2,
        true,
        true,
        Err("no metrics".to_string()),
        Ok(2),
        Err("no topology".to_string()),
        Err("no users".to_string()),
        Err("no routing".to_string()),
        0,
    );
    assert_eq!(asked.metrics, None);
    assert_eq!(asked.metrics_error.as_deref(), Some("no metrics"));
    assert_eq!(asked.topology, None);
    assert_eq!(asked.topology_error.as_deref(), Some("no topology"));
    assert_eq!(asked.online_users_error.as_deref(), Some("no users"));
    assert_eq!(asked.balancers, Some(Vec::new()));
    assert_eq!(asked.routing_error.as_deref(), Some("no routing"));

    let routed = assemble_xray_dashboard_snapshot::<u8, u8, u8, u8, u8>(
        1, 2, true, true, Ok(1), Ok(2), Ok(3), Ok(4), Ok(vec![5, 6]), 0,
    );
    assert_eq!(routed.topology, Some(3));
    assert_eq!(routed.balancers, Some(vec![5, 6]));
    assert_eq!(routed.routing_error, None);
}

#[test]
fn the_callback_url_is_the_redirect_uri_with_the_request_query() {
    let line: Result<String, RequestLineError> =
        Ok("GET /auth/callback?code=abc&state=xyz HTTP/1.1".to_string());
    assert_eq!(
        callback_url_for(&line, "http://127.0.0.1:45678/auth/callback?old=1#fragment").ok().as_deref(),
        Some("http://127.0.0.1:45678/auth/callback?code=abc&state=xyz")
    );
    let no_query: Result<String, RequestLineError> = Ok("GET /auth/callback HTTP/1.1".to_string());
    assert_eq!(
        callback_url_for(&no_query, "http://localhost:1/auth/callback?old=1").ok().as_deref(),
        Some("http://localhost:1/auth/callback")
    );
    let other: Result<String, RequestLineError> = Ok("GET /favicon.ico HTTP/1.1".to_string());
    assert_eq!(callback_url_for(&other, "http://127.0.0.1:1/auth/callback"), Err(CallbackCheck::OtherPath));
    assert_eq!(callback_url_for(&line, "not a url"), Err(CallbackCheck::InvalidRedirect));
    let post: Result<String, RequestLineError> = Ok("POST /auth/callback HTTP/1.1".to_string());
    assert_eq!(callback_url_for(&post, "http://127.0.0.1:1/auth/callback"), Err(CallbackCheck::NoTarget));
    assert_eq!(
        callback_url_for(&Err(RequestLineError::TooLong), "http://127.0.0.1:1/auth/callback"),
        Err(CallbackCheck::Unreadable)
    );
}

#[test]
fn a_callback_is_stored_only_when_every_check_passes() {
    let redirect = "http://127.0.0.1:45678/auth/callback";
    let line: Result<String, RequestLineError> = Ok("GET /auth/callback?code=c1&state=s1 HTTP/1.1".to_string());
    let mut pending = PendingAuthorizationStore::new(4, 1_000);
    let mut book = CallbackBook::new();
    pending.insert("s1".to_string(), "verifier".to_string(), redirect.to_string(), 100);

    assert_eq!(
        store_validated_callback(&mut book, &mut pending, &line, redirect, "s1", false, 500),
        CallbackCheck::InvalidCallback
    );
    assert!(!book.contains("s1"));
    let other: Result<String, RequestLineError> = Ok("GET /other HTTP/1.1".to_string());
    assert_eq!(
        store_validated_callback(&mut book, &mut pending, &other, redirect, "s1", true, 500),
        CallbackCheck::OtherPath
    );
    assert!(!book.contains("s1"));
    assert_eq!(
        store_validated_callback(&mut book, &mut pending, &line, redirect, "s1", true, 500),
        CallbackCheck::Stored
    );
    assert_eq!(
        book.get("s1").as_deref(),
        Some("http://127.0.0.1:45678/auth/callback?code=c1&state=s1")
    );
    assert_eq!(
        store_validated_callback(&mut book, &mut pending, &line, redirect, "s2", true, 500),
        CallbackCheck::InactiveSession
    );
    assert!(!book.contains("s2"));
    assert_eq!(
        store_validated_callback(&mut book, &mut pending, &line, redirect, "s1", true, 5_000),
        CallbackCheck::InactiveSession
    );
    assert_eq!(book.len(), 1);
}

#[test]
fn a_failing_source_is_named_in_the_error_details() {
    assert_eq!(source_error_details("Primary", Some("timed out".to_string())), "Primary: timed out");
    assert_eq!(source_error_details("Primary", None), "Primary");
}

#[test]
fn an_identity_is_sixty_four_lower_case_hex_digits() {
    let identity = digest_hex(b"not an executable");
    assert_eq!(identity.len(), 64);
    assert!(identity.chars().all(|c| c.is_ascii_digit() || ('a'..='f').contains(&c)));
    assert_eq!(digest_hex(b""), "e3b0c44298fc1c149afbf4c8996fb92427ae41e4649b934ca495991b7852b855");
}

fn basic_source(username: &str, password: &str) -> ConfigSource {
    ConfigSource::Remote {
        id: "primary".into(),
        name: "Primary".into(),
        enabled: true,
        url: "https://example.test/config.json".into(),
        authentication: Some(SourceAuthentication::Basic {
            username: username.into(),
            credential_id: None,
            password: Some(password.into()),
        }),
    }
}

#[test]
fn recovery_restores_the_previous_credentials_of_an_uncommitted_change() {
    let mut credentials = CredentialSet::new();
    let mut before = vec![basic_source("subscriber", "first")];
    reconcile_credentials(&mut credentials, "p", &mut before).expect("initial");
    let mut after = vec![basic_source("replacement", "second")];
    reconcile_credentials(&mut credentials, "p", &mut after).expect("change");
    let target = credential_binding_digest("p", &after).ok();
    assert!(target.is_some());
    assert_ne!(credential_binding_digest("p", &before).ok(), target);
    assert_eq!(
        plan_journal_recovery(1, &target, Some(("p", &before))),
        Ok(JournalRecovery::RestorePrevious)
    );
    assert_eq!(
        plan_journal_recovery(1, &target, Some(("p", &after))),
        Ok(JournalRecovery::KeepCommitted { verify_program: true })
    );
    assert_eq!(plan_journal_recovery(1, &target, None), Ok(JournalRecovery::RestorePrevious));
}

#[test]
fn the_application_log_keeps_at_most_five_earlier_logs() {
    let (mut state, rotated) = AppLogState::open(0, 0);
    assert!(!rotated);
    for _ in 0..=RETAINED_APP_ARCHIVES + 1 {
        state.record_write(LOG_MAX_BYTES);
        state.record_write(1);
    }
    assert_eq!(state.archives(), RETAINED_APP_ARCHIVES);
    assert_eq!(state.bytes(), 1);
    let (full, rotated) = AppLogState::open(LOG_MAX_BYTES, 2);
    assert!(rotated);
    assert_eq!((full.bytes(), full.archives()), (0, 3));
    let mut fresh = AppLogState::open(0, 0).0;
    assert!(!fresh.record_write(LOG_MAX_BYTES + 5));
    assert!(fresh.record_write(1));
    assert_eq!((fresh.bytes(), fresh.archives()), (1, 1));
}

#[test]
fn a_license_failure_keeps_its_description_as_details() {
    let failure = license_error(LicensingError::Network, "connection refused".to_string());
    assert_eq!(failure.code, ErrorCode::Network);
    assert_eq!(failure.message, "License service operation failed");
    assert_eq!(failure.details.as_deref(), Some("connection refused"));
}
