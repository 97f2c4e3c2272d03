use camellia_nexus_desktop::license_policy::{
    entitlement_status_name, identity_registration_conflict_error, license_enforcement_delay_ms,
    license_error, license_runtime_impact, refresh_failure_action, should_emit_license_state_changed,
    transient_license_error, DeviceState, EntitlementStatus, ErrorCode, LicenseInactiveReason,
    LicenseRuntimeImpact, LicenseStateChangedEvent, LicensingError, RefreshFailureAction,
    RevalidationReason,
};
use camellia_nexus_desktop::maintenance::{
    conclude_maintenance, maintenance_plan, should_retry_with_recovery, spread_delay_seconds,
    LicenseMaintenanceOutcome, MaintenanceBackoff, MaintenancePlan, MaintenanceReason,
};

fn event(entitlement_state: EntitlementStatus, reason: &str) -> LicenseStateChangedEvent {
    LicenseStateChangedEvent {
        generation: 1,
        entitlement_state,
        reason: reason.to_owned(),
        runtime_impact: LicenseRuntimeImpact::HardInactive,
        stopped_programs: 0,
        failed_programs: 0,
        failed_program_ids: Vec::new(),
    }
}

#[test]
fn emits_state_changing_unauthenticated_and_session_only_events() {
    assert!(should_emit_license_state_changed(&event(
        EntitlementStatus::Unauthenticated,
        "license_background_denied",
    )));
    assert!(should_emit_license_state_changed(&event(
        EntitlementStatus::SessionOnly,
        "license_session_recovered",
    )));
}

#[test]
fn suppresses_routine_initial_unauthenticated_reads_and_monitoring() {
    assert!(!should_emit_license_state_changed(&event(
        EntitlementStatus::Unauthenticated,
        "license_monitor",
    )));
    assert!(!should_emit_license_state_changed(&event(
        EntitlementStatus::SessionOnly,
        "entitlement_state_read",
    )));
}

#[test]
fn stopped_programs_and_attention_states_are_always_reported() {
    let mut stopped = event(EntitlementStatus::Unauthenticated, "license_monitor");
    stopped.stopped_programs = 1;
    assert!(should_emit_license_state_changed(&stopped));
    assert!(should_emit_license_state_changed(&event(
        EntitlementStatus::Expired,
        "license_monitor",
    )));
}

#[test]
fn activation_code_failures_keep_actionable_ipc_codes() {
    for (error, expected) in [
        (LicensingError::ActivationCodeInvalid, ErrorCode::LicenseActivationCodeInvalid),
        (LicensingError::ActivationCodeExpired, ErrorCode::LicenseActivationCodeExpired),
        (LicensingError::ActivationCodeConsumed, ErrorCode::LicenseActivationCodeConsumed),
        (LicensingError::ActivationCodeRevoked, ErrorCode::LicenseActivationCodeRevoked),
        (LicensingError::ActivationPendingExpired, ErrorCode::LicenseActivationPendingExpired),
    ] {
        assert_eq!(license_error(error, String::new()).code, expected);
    }
}

#[test]
fn only_a_registration_denial_for_an_existing_identity_is_a_license_conflict() {
    assert_eq!(
        identity_registration_conflict_error(true, LicensingError::DeviceDenied)
            .expect("existing identity conflict")
            .code,
        ErrorCode::LicenseIdentityAlreadyRegistered
    );
    assert!(identity_registration_conflict_error(false, LicensingError::DeviceDenied).is_none());
    assert!(identity_registration_conflict_error(true, LicensingError::DeviceRemoved).is_none());
}

#[test]
fn team_credential_failures_are_recoverable_input_errors() {
    for (error, expected) in [
        (LicensingError::TeamInvitationInvalid, ErrorCode::LicenseTeamInvitationInvalid),
        (
            LicensingError::TeamDeviceEnrollmentInvalid,
            ErrorCode::LicenseTeamDeviceEnrollmentInvalid,
        ),
    ] {
        assert_eq!(license_error(error, String::new()).code, expected);
    }
}

#[test]
fn workspace_failures_keep_actionable_ipc_codes() {
    for (error, expected) in [
        (LicensingError::WorkspaceQuotaExceeded, ErrorCode::LicenseWorkspaceQuotaExceeded),
        (
            LicensingError::WorkspaceDocumentLimitReached,
            ErrorCode::LicenseWorkspaceDocumentLimitReached,
        ),
        (
            LicensingError::WorkspaceAlertRuleLimitReached,
            ErrorCode::LicenseWorkspaceAlertRuleLimitReached,
        ),
        (LicensingError::WorkspaceRetentionActive, ErrorCode::LicenseWorkspaceRetentionActive),
        (LicensingError::WorkspaceIntegrity, ErrorCode::LicenseWorkspaceIntegrityFailed),
        (LicensingError::WebhookInvalidUrl, ErrorCode::LicenseWebhookInvalidUrl),
        (
            LicensingError::WebhookEndpointLimitReached,
            ErrorCode::LicenseWebhookEndpointLimitReached,
        ),
        (LicensingError::WebhookKeyUnavailable, ErrorCode::LicenseWebhookKeyUnavailable),
    ] {
        assert_eq!(license_error(error, String::new()).code, expected);
    }
}

#[test]
fn license_errors_map_to_service_codes() {
    assert_eq!(license_error(LicensingError::Network, String::new()).code, ErrorCode::Network);
    assert_eq!(
        license_error(LicensingError::TooManyRequests { retry_after_seconds: Some(3) }, String::new()).code,
        ErrorCode::RateLimited
    );
    assert_eq!(license_error(LicensingError::DeviceRevoked, String::new()).code, ErrorCode::LicenseDeviceDenied);
    assert_eq!(license_error(LicensingError::Other, String::new()).code, ErrorCode::Internal);
    assert_eq!(license_error(LicensingError::Network, String::new()).message, "License service operation failed");
    assert!(transient_license_error(LicensingError::Timeout));
    assert!(!transient_license_error(LicensingError::DeviceDenied));
}

#[test]
fn refused_refreshes_are_recorded_fail_closed() {
    assert_eq!(
        refresh_failure_action(LicensingError::DeviceSuspicious),
        RefreshFailureAction::ApplyDeviceState(DeviceState::Suspicious)
    );
    assert_eq!(
        refresh_failure_action(LicensingError::LicensePastDue),
        RefreshFailureAction::ApplyLicenseInactive(LicenseInactiveReason::LicensePastDue)
    );
    assert_eq!(
        refresh_failure_action(LicensingError::SecureStoreCorrupt),
        RefreshFailureAction::ApplyRevalidationRequired(RevalidationReason::CorruptSecureStore)
    );
    assert_eq!(
        refresh_failure_action(LicensingError::ActivationCodeExpired),
        RefreshFailureAction::DeauthorizeLocally
    );
    assert_eq!(refresh_failure_action(LicensingError::Network), RefreshFailureAction::Keep);
}

#[test]
fn runtime_impact_and_names_follow_the_entitlement() {
    let active = EntitlementStatus::Active { refresh_after: 100, expires_at: 200 };
    assert_eq!(license_runtime_impact(&active), LicenseRuntimeImpact::Active);
    assert_eq!(
        license_runtime_impact(&EntitlementStatus::RestrictedOffline { safety_window_ends_at: 5 }),
        LicenseRuntimeImpact::RestrictedOffline
    );
    assert_eq!(
        license_runtime_impact(&EntitlementStatus::SessionOnly),
        LicenseRuntimeImpact::HardInactive
    );
    assert!(LicenseRuntimeImpact::HardInactive.requires_runtime_stop());
    assert!(!LicenseRuntimeImpact::Active.requires_runtime_stop());
    assert_eq!(LicenseRuntimeImpact::RestrictedOffline.as_str(), "restrictedOffline");
    assert_eq!(
        entitlement_status_name(&EntitlementStatus::ClientUpgradeRequired),
        "client_upgrade_required"
    );
}

#[test]
fn enforcement_monitor_waits_for_the_nearest_deadline() {
    let active = EntitlementStatus::Active { refresh_after: 0, expires_at: 1_010 };
    assert_eq!(license_enforcement_delay_ms(&active, 1_000), 10_000);
    assert_eq!(license_enforcement_delay_ms(&active, 2_000), 100);
    assert_eq!(license_enforcement_delay_ms(&active, 0), 30_000);
    assert_eq!(license_enforcement_delay_ms(&EntitlementStatus::Unauthenticated, 0), 30_000);
}

#[test]
fn maintenance_plans_follow_the_entitlement() {
    let fresh = EntitlementStatus::Active { refresh_after: 10_000, expires_at: 100_000 };
    assert_eq!(maintenance_plan(&fresh, 5_000), MaintenancePlan::CheckStatus);
    assert_eq!(maintenance_plan(&fresh, 10_000), MaintenancePlan::Refresh);
    assert_eq!(maintenance_plan(&fresh, 97_000), MaintenancePlan::Refresh);
    assert_eq!(
        maintenance_plan(&EntitlementStatus::DeviceDenied { state: DeviceState::Removed }, 0),
        MaintenancePlan::Idle
    );
    assert_eq!(
        maintenance_plan(&EntitlementStatus::DeviceDenied { state: DeviceState::Revoked }, 0),
        MaintenancePlan::RecoverDeniedDevice
    );
    assert_eq!(
        maintenance_plan(&EntitlementStatus::ActivationPending, 0),
        MaintenancePlan::ResumePendingActivation
    );
    assert!(should_retry_with_recovery(MaintenancePlan::Refresh, LicensingError::AuthorizationRequired));
    assert!(!should_retry_with_recovery(
        MaintenancePlan::ResumePendingActivation,
        LicensingError::AuthorizationRequired
    ));
}

#[test]
fn maintenance_conclusions_report_what_happened() {
    let ok = conclude_maintenance(MaintenancePlan::CheckStatus, true, false, Ok(()));
    assert_eq!(ok.outcome, LicenseMaintenanceOutcome::Succeeded);
    assert_eq!(ok.reason, MaintenanceReason::StatusRefresh);
    assert_eq!(ok.reason.as_str(), "license_background_status_refresh");
    let throttled = conclude_maintenance(
        MaintenancePlan::Refresh,
        false,
        false,
        Err(LicensingError::TooManyRequests { retry_after_seconds: Some(90) }),
    );
    assert_eq!(
        throttled.outcome,
        LicenseMaintenanceOutcome::TransientFailure { retry_after_seconds: Some(90) }
    );
    let denied = conclude_maintenance(MaintenancePlan::Refresh, false, false, Err(LicensingError::LicenseCanceled));
    assert_eq!(denied.reason, MaintenanceReason::Denied);
    assert_eq!(
        denied.action,
        RefreshFailureAction::ApplyLicenseInactive(LicenseInactiveReason::LicenseCanceled)
    );
}

#[test]
fn maintenance_backs_off_after_transient_failures() {
    assert_eq!(spread_delay_seconds(300, 30, 0), 270);
    assert_eq!(spread_delay_seconds(300, 30, 60), 330);
    assert_eq!(spread_delay_seconds(10, 30, 5), 5);
    let mut backoff = MaintenanceBackoff::new();
    let failure = LicenseMaintenanceOutcome::TransientFailure { retry_after_seconds: None };
    assert_eq!(backoff.record_with(failure, 0), 15);
    assert_eq!(backoff.record_with(failure, 0), 30);
    for _ in 0..5 {
        backoff.record_with(failure, 0);
    }
    assert_eq!(backoff.consecutive_failures, 5);
    assert_eq!(backoff.record_with(failure, 0), 240);
    let throttled = LicenseMaintenanceOutcome::TransientFailure { retry_after_seconds: Some(1_000) };
    assert_eq!(backoff.record_with(throttled, 0), 1_000);
    assert_eq!(backoff.record_with(LicenseMaintenanceOutcome::Succeeded, 0), 270);
    assert_eq!(backoff.consecutive_failures, 0);
    let randomized = backoff.record(LicenseMaintenanceOutcome::Idle);
    assert!((270..=330).contains(&randomized));
}


#[test]
fn randomized_delays_stay_within_their_spread() {
    for _ in 0..32 {
        let seconds = camellia_nexus_desktop::maintenance::randomized_delay(300, 60);
        assert!((240..=360).contains(&seconds));
    }
    assert_eq!(camellia_nexus_desktop::maintenance::randomized_delay(10, 0), 10);
}
