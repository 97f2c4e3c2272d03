use vstd::prelude::*;

use crate::text::text_eq;

verus! {

/// The application's error codes, as the user interface receives them.
#[derive(Clone, Copy, Debug, PartialEq, Eq, Structural)]
pub enum ErrorCode {
    ConfigConflict,
    ConfigInvalid,
    Internal,
    InvalidPath,
    InvalidSpec,
    InvalidState,
    LicenseAccountDenylisted,
    LicenseAccountSuspended,
    LicenseActivationCodeConsumed,
    LicenseActivationCodeExpired,
    LicenseActivationCodeInvalid,
    LicenseActivationCodeRevoked,
    LicenseActivationPending,
    LicenseActivationPendingExpired,
    LicenseCanceled,
    LicenseClientUpgradeRequired,
    LicenseDeviceDenied,
    LicenseDeviceRemovalIncomplete,
    LicenseExpired,
    LicenseIdentityAlreadyRegistered,
    LicenseLimitExceeded,
    LicenseOperationConflict,
    LicensePaymentPastDue,
    LicensePermissionDenied,
    LicensePlanRequired,
    LicenseRemoteSignoutIncomplete,
    LicenseRequired,
    LicenseRevalidationRequired,
    LicenseTeamDeviceEnrollmentInvalid,
    LicenseTeamInvitationInvalid,
    LicenseWebhookEndpointLimitReached,
    LicenseWebhookInvalidUrl,
    LicenseWebhookKeyUnavailable,
    LicenseWebhookNotFound,
    LicenseWorkspaceAlertRuleLimitReached,
    LicenseWorkspaceConflict,
    LicenseWorkspaceDocumentLimitReached,
    LicenseWorkspaceIntegrityFailed,
    LicenseWorkspaceKeyUnavailable,
    LicenseWorkspaceNotFound,
    LicenseWorkspaceQuotaExceeded,
    LicenseWorkspaceRetentionActive,
    Network,
    NotFound,
    OutputLimitExceeded,
    PrivilegeAuthorizationCanceled,
    PrivilegeBrokerConnectionLost,
    PrivilegeBrokerFailed,
    PrivilegeBrokerUnavailable,
    PrivilegeConfigUnsafe,
    PrivilegeRequired,
    ProgramBusy,
    RateLimited,
    RequestTooLarge,
    SpawnFailed,
    StopFailed,
    Storage,
    SystemIntegration,
    Timeout,
    UnsupportedBinary,
}

/// An error as the user interface receives it: a code, a fixed message, and details where
/// there are any.
#[derive(Debug)]
pub struct AppError {
    pub code: ErrorCode,
    pub message: String,
    pub details: Option<String>,
}

/// The failures the license service client reports.
#[derive(Clone, Copy, Debug, PartialEq, Eq, Structural)]
pub enum LicensingError {
    Network,
    Timeout,
    SecureStoreTimeout,
    TooManyRequests { retry_after_seconds: Option<u64> },
    SecureStoreUnavailable,
    SecureStoreBackend,
    SecureStoreCorrupt,
    ServiceUnconfigured,
    InvalidRequest,
    InvalidOAuthCallback,
    InvalidServerResponse,
    MalformedEntitlement,
    InvalidSignature,
    UnsupportedAlgorithm,
    UnknownSigningKey,
    WrongIssuer,
    WrongAudience,
    DeviceMismatch,
    DeviceKeyMismatch,
    InvalidClaims,
    InvalidClientBuild,
    AuthorizationRequired,
    DeviceActivationPending,
    ActivationPendingExpired,
    ActivationCodeInvalid,
    ActivationCodeExpired,
    ActivationCodeConsumed,
    ActivationCodeRevoked,
    CapabilityDenied,
    PermissionDenied,
    TeamInvitationInvalid,
    TeamDeviceEnrollmentInvalid,
    WorkspaceVersionConflict,
    IdempotencyConflict,
    WorkspaceQuotaExceeded,
    WorkspaceDocumentLimitReached,
    WorkspaceAlertRuleLimitReached,
    WorkspaceRetentionActive,
    WorkspaceNotFound,
    WorkspaceIntegrity,
    WorkspaceKeyUnavailable,
    WebhookInvalidUrl,
    WebhookEndpointLimitReached,
    WebhookNotFound,
    WebhookKeyUnavailable,
    RequestTooLarge,
    LimitExceeded,
    ActivationLimitReached,
    DeviceDenied,
    DeviceRemoved,
    DeviceRevoked,
    DeviceSuspicious,
    RefreshSessionReused,
    AccountSuspended,
    AccountDenylisted,
    LicensePastDue,
    LicenseCanceled,
    LicenseExpired,
    LicenseUnavailable,
    ClientUpgradeRequired,
    ClockRollback,
    ObsoleteLicenseEpoch,
    EntitlementExpired,
    InvalidChallenge,
    ChallengeReplay,
    DeviceIdentityUnavailable,
    /// Any other failure of the client (storage plumbing, serialization, ...).
    Other,
}

/// The code the user interface receives for a license service failure.
pub open spec fn license_error_code_of(error: LicensingError) -> ErrorCode {
    match error {
        LicensingError::Network => ErrorCode::Network,
        LicensingError::Timeout | LicensingError::SecureStoreTimeout => ErrorCode::Timeout,
        LicensingError::TooManyRequests { .. } => ErrorCode::RateLimited,
        LicensingError::SecureStoreUnavailable
        | LicensingError::SecureStoreBackend
        | LicensingError::SecureStoreCorrupt => ErrorCode::Storage,
        LicensingError::ServiceUnconfigured
        | LicensingError::InvalidRequest
        | LicensingError::InvalidOAuthCallback
        | LicensingError::InvalidServerResponse
        | LicensingError::MalformedEntitlement
        | LicensingError::InvalidSignature
        | LicensingError::UnsupportedAlgorithm
        | LicensingError::UnknownSigningKey
        | LicensingError::WrongIssuer
        | LicensingError::WrongAudience
        | LicensingError::DeviceMismatch
        | LicensingError::DeviceKeyMismatch
        | LicensingError::InvalidClaims
        | LicensingError::InvalidClientBuild => ErrorCode::InvalidSpec,
        LicensingError::AuthorizationRequired => ErrorCode::LicenseRequired,
        LicensingError::DeviceActivationPending => ErrorCode::LicenseActivationPending,
        LicensingError::ActivationPendingExpired => ErrorCode::LicenseActivationPendingExpired,
        LicensingError::ActivationCodeInvalid => ErrorCode::LicenseActivationCodeInvalid,
        LicensingError::ActivationCodeExpired => ErrorCode::LicenseActivationCodeExpired,
        LicensingError::ActivationCodeConsumed => ErrorCode::LicenseActivationCodeConsumed,
        LicensingError::ActivationCodeRevoked => ErrorCode::LicenseActivationCodeRevoked,
        LicensingError::CapabilityDenied => ErrorCode::LicensePlanRequired,
        LicensingError::PermissionDenied => ErrorCode::LicensePermissionDenied,
        LicensingError::TeamInvitationInvalid => ErrorCode::LicenseTeamInvitationInvalid,
        LicensingError::TeamDeviceEnrollmentInvalid => ErrorCode::LicenseTeamDeviceEnrollmentInvalid,
        LicensingError::WorkspaceVersionConflict => ErrorCode::LicenseWorkspaceConflict,
        LicensingError::IdempotencyConflict => ErrorCode::LicenseOperationConflict,
        LicensingError::WorkspaceQuotaExceeded => ErrorCode::LicenseWorkspaceQuotaExceeded,
        LicensingError::WorkspaceDocumentLimitReached => ErrorCode::LicenseWorkspaceDocumentLimitReached,
        LicensingError::WorkspaceAlertRuleLimitReached => ErrorCode::LicenseWorkspaceAlertRuleLimitReached,
        LicensingError::WorkspaceRetentionActive => ErrorCode::LicenseWorkspaceRetentionActive,
        LicensingError::WorkspaceNotFound => ErrorCode::LicenseWorkspaceNotFound,
        LicensingError::WorkspaceIntegrity => ErrorCode::LicenseWorkspaceIntegrityFailed,
        LicensingError::WorkspaceKeyUnavailable => ErrorCode::LicenseWorkspaceKeyUnavailable,
        LicensingError::WebhookInvalidUrl => ErrorCode::LicenseWebhookInvalidUrl,
        LicensingError::WebhookEndpointLimitReached => ErrorCode::LicenseWebhookEndpointLimitReached,
        LicensingError::WebhookNotFound => ErrorCode::LicenseWebhookNotFound,
        LicensingError::WebhookKeyUnavailable => ErrorCode::LicenseWebhookKeyUnavailable,
        LicensingError::RequestTooLarge => ErrorCode::RequestTooLarge,
        LicensingError::LimitExceeded | LicensingError::ActivationLimitReached => ErrorCode::LicenseLimitExceeded,
        LicensingError::DeviceDenied
        | LicensingError::DeviceRemoved
        | LicensingError::DeviceRevoked
        | LicensingError::DeviceSuspicious
        | LicensingError::RefreshSessionReused => ErrorCode::LicenseDeviceDenied,
        LicensingError::AccountSuspended => ErrorCode::LicenseAccountSuspended,
        LicensingError::AccountDenylisted => ErrorCode::LicenseAccountDenylisted,
        LicensingError::LicensePastDue => ErrorCode::LicensePaymentPastDue,
        LicensingError::LicenseCanceled => ErrorCode::LicenseCanceled,
        LicensingError::LicenseExpired => ErrorCode::LicenseExpired,
        LicensingError::LicenseUnavailable => ErrorCode::LicenseRequired,
        LicensingError::ClientUpgradeRequired => ErrorCode::LicenseClientUpgradeRequired,
        LicensingError::ClockRollback
        | LicensingError::ObsoleteLicenseEpoch
        | LicensingError::EntitlementExpired
        | LicensingError::InvalidChallenge
        | LicensingError::ChallengeReplay => ErrorCode::LicenseRevalidationRequired,
        LicensingError::DeviceIdentityUnavailable | LicensingError::Other => ErrorCode::Internal,
    }
}

/// The message every license service failure carries.
pub const LICENSE_FAILURE_MESSAGE: &'static str = "License service operation failed";

/// The error the user interface receives for a license service failure, with the failure's
/// own description (`details`) as its details.
pub fn license_error(error: LicensingError, details: String) -> (failure: AppError)
    ensures
        failure.code == license_error_code_of(error),
        failure.message@ == LICENSE_FAILURE_MESSAGE@,
        failure.details == Some(details),
{
    let code = match error {
        LicensingError::Network => ErrorCode::Network,
        LicensingError::Timeout | LicensingError::SecureStoreTimeout => ErrorCode::Timeout,
        LicensingError::TooManyRequests { .. } => ErrorCode::RateLimited,
        LicensingError::SecureStoreUnavailable
        | LicensingError::SecureStoreBackend
        | LicensingError::SecureStoreCorrupt => ErrorCode::Storage,
        LicensingError::ServiceUnconfigured
        | LicensingError::InvalidRequest
        | LicensingError::InvalidOAuthCallback
        | LicensingError::InvalidServerResponse
        | LicensingError::MalformedEntitlement
        | LicensingError::InvalidSignature
        | LicensingError::UnsupportedAlgorithm
        | LicensingError::UnknownSigningKey
        | LicensingError::WrongIssuer
        | LicensingError::WrongAudience
        | LicensingError::DeviceMismatch
        | LicensingError::DeviceKeyMismatch
        | LicensingError::InvalidClaims
        | LicensingError::InvalidClientBuild => ErrorCode::InvalidSpec,
        LicensingError::AuthorizationRequired => ErrorCode::LicenseRequired,
        LicensingError::DeviceActivationPending => ErrorCode::LicenseActivationPending,
        LicensingError::ActivationPendingExpired => ErrorCode::LicenseActivationPendingExpired,
        LicensingError::ActivationCodeInvalid => ErrorCode::LicenseActivationCodeInvalid,
        LicensingError::ActivationCodeExpired => ErrorCode::LicenseActivationCodeExpired,
        LicensingError::ActivationCodeConsumed => ErrorCode::LicenseActivationCodeConsumed,
        LicensingError::ActivationCodeRevoked => ErrorCode::LicenseActivationCodeRevoked,
        LicensingError::CapabilityDenied => ErrorCode::LicensePlanRequired,
        LicensingError::PermissionDenied => ErrorCode::LicensePermissionDenied,
        LicensingError::TeamInvitationInvalid => ErrorCode::LicenseTeamInvitationInvalid,
        LicensingError::TeamDeviceEnrollmentInvalid => ErrorCode::LicenseTeamDeviceEnrollmentInvalid,
        LicensingError::WorkspaceVersionConflict => ErrorCode::LicenseWorkspaceConflict,
        LicensingError::IdempotencyConflict => ErrorCode::LicenseOperationConflict,
        LicensingError::WorkspaceQuotaExceeded => ErrorCode::LicenseWorkspaceQuotaExceeded,
        LicensingError::WorkspaceDocumentLimitReached => ErrorCode::LicenseWorkspaceDocumentLimitReached,
        LicensingError::WorkspaceAlertRuleLimitReached => ErrorCode::LicenseWorkspaceAlertRuleLimitReached,
        LicensingError::WorkspaceRetentionActive => ErrorCode::LicenseWorkspaceRetentionActive,
        LicensingError::WorkspaceNotFound => ErrorCode::LicenseWorkspaceNotFound,
        LicensingError::WorkspaceIntegrity => ErrorCode::LicenseWorkspaceIntegrityFailed,
        LicensingError::WorkspaceKeyUnavailable => ErrorCode::LicenseWorkspaceKeyUnavailable,
        LicensingError::WebhookInvalidUrl => ErrorCode::LicenseWebhookInvalidUrl,
        LicensingError::WebhookEndpointLimitReached => ErrorCode::LicenseWebhookEndpointLimitReached,
        LicensingError::WebhookNotFound => ErrorCode::LicenseWebhookNotFound,
        LicensingError::WebhookKeyUnavailable => ErrorCode::LicenseWebhookKeyUnavailable,
        LicensingError::RequestTooLarge => ErrorCode::RequestTooLarge,
        LicensingError::LimitExceeded | LicensingError::ActivationLimitReached => ErrorCode::LicenseLimitExceeded,
        LicensingError::DeviceDenied
        | LicensingError::DeviceRemoved
        | LicensingError::DeviceRevoked
        | LicensingError::DeviceSuspicious
        | LicensingError::RefreshSessionReused => ErrorCode::LicenseDeviceDenied,
        LicensingError::AccountSuspended => ErrorCode::LicenseAccountSuspended,
        LicensingError::AccountDenylisted => ErrorCode::LicenseAccountDenylisted,
        LicensingError::LicensePastDue => ErrorCode::LicensePaymentPastDue,
        LicensingError::LicenseCanceled => ErrorCode::LicenseCanceled,
        LicensingError::LicenseExpired => ErrorCode::LicenseExpired,
        LicensingError::LicenseUnavailable => ErrorCode::LicenseRequired,
        LicensingError::ClientUpgradeRequired => ErrorCode::LicenseClientUpgradeRequired,
        LicensingError::ClockRollback
        | LicensingError::ObsoleteLicenseEpoch
        | LicensingError::EntitlementExpired
        | LicensingError::InvalidChallenge
        | LicensingError::ChallengeReplay => ErrorCode::LicenseRevalidationRequired,
        LicensingError::DeviceIdentityUnavailable | LicensingError::Other => ErrorCode::Internal,
    };
    AppError { code, message: LICENSE_FAILURE_MESSAGE.to_owned(), details: Some(details) }
}

/// A registration that the service denies for a device that already had an identity is a
/// conflict with that identity; any other failure is not.
pub fn identity_registration_conflict_error(
    had_registered_identity: bool,
    error: LicensingError,
) -> (conflict: Option<AppError>)
    ensures
        conflict is Some <==> (had_registered_identity && error == LicensingError::DeviceDenied),
        match conflict {
            Some(c) => c.code == ErrorCode::LicenseIdentityAlreadyRegistered && c.message@
                == LICENSE_FAILURE_MESSAGE@ && c.details is None,
            None => true,
        },
{
    if had_registered_identity && error == LicensingError::DeviceDenied {
        Some(
            AppError {
                code: ErrorCode::LicenseIdentityAlreadyRegistered,
                message: LICENSE_FAILURE_MESSAGE.to_owned(),
                details: None,
            },
        )
    } else {
        None
    }
}

/// Failures that a later attempt can overcome: the network, the clock of a busy service,
/// and a service that is not reachable as configured.
pub open spec fn is_transient(error: LicensingError) -> bool {
    match error {
        LicensingError::Network
        | LicensingError::Timeout
        | LicensingError::SecureStoreTimeout
        | LicensingError::TooManyRequests { .. }
        | LicensingError::ServiceUnconfigured
        | LicensingError::InvalidServerResponse => true,
        _ => false,
    }
}

/// Whether a license service failure is worth retrying later.
pub fn transient_license_error(error: LicensingError) -> (transient: bool)
    ensures
        transient == is_transient(error),
{
    match error {
        LicensingError::Network
        | LicensingError::Timeout
        | LicensingError::SecureStoreTimeout
        | LicensingError::TooManyRequests { .. }
        | LicensingError::ServiceUnconfigured
        | LicensingError::InvalidServerResponse => true,
        _ => false,
    }
}


/// The state of this device's registration, as the license service reports it.
#[derive(Clone, Copy, Debug, PartialEq, Eq, Structural)]
pub enum DeviceState {
    PendingActivation,
    Revoked,
    Removed,
    Suspicious,
}

/// Why an entitlement must be confirmed with the service again.
#[derive(Clone, Copy, Debug, PartialEq, Eq, Structural)]
pub enum RevalidationReason {
    ClockRollback,
    CorruptSecureStore,
    InvalidServerProof,
    ObsoleteEpoch,
}

/// Why a license is inactive.
#[derive(Clone, Copy, Debug, PartialEq, Eq, Structural)]
pub enum LicenseInactiveReason {
    AccountDenylisted,
    AccountSuspended,
    LicenseCanceled,
    LicenseExpired,
    LicensePastDue,
    LicenseUnavailable,
}

/// The entitlement of this device, with the instants (seconds since the Unix epoch)
/// that the application acts upon.
#[derive(Clone, Copy, Debug, PartialEq, Eq, Structural)]
pub enum EntitlementStatus {
    Unauthenticated,
    SessionOnly,
    ActivationPending,
    Active { refresh_after: i64, expires_at: i64 },
    RestrictedOffline { safety_window_ends_at: i64 },
    Expired,
    RevalidationRequired { reason: RevalidationReason },
    ClientUpgradeRequired,
    DeviceDenied { state: DeviceState },
    LicenseInactive { reason: LicenseInactiveReason },
}

/// What an entitlement allows the managed programs to do.
#[derive(Clone, Copy, Debug, PartialEq, Eq, Structural)]
pub enum LicenseRuntimeImpact {
    Active,
    RestrictedOffline,
    HardInactive,
}

impl LicenseRuntimeImpact {
    /// The name the user interface receives.
    pub fn as_str(self) -> (name: &'static str)
        ensures
            name@ == match self {
                LicenseRuntimeImpact::Active => "active"@,
                LicenseRuntimeImpact::RestrictedOffline => "restrictedOffline"@,
                LicenseRuntimeImpact::HardInactive => "hardInactive"@,
            },
    {
        match self {
            LicenseRuntimeImpact::Active => "active",
            LicenseRuntimeImpact::RestrictedOffline => "restrictedOffline",
            LicenseRuntimeImpact::HardInactive => "hardInactive",
        }
    }

    /// Whether the managed programs must be stopped.
    pub fn requires_runtime_stop(self) -> (stop: bool)
        ensures
            stop <==> self == LicenseRuntimeImpact::HardInactive,
    {
        match self {
            LicenseRuntimeImpact::HardInactive => true,
            _ => false,
        }
    }
}

/// Only an active entitlement, or one inside its offline safety window, lets programs run.
pub open spec fn runtime_impact_of(status: EntitlementStatus) -> LicenseRuntimeImpact {
    match status {
        EntitlementStatus::Active { .. } => LicenseRuntimeImpact::Active,
        EntitlementStatus::RestrictedOffline { .. } => LicenseRuntimeImpact::RestrictedOffline,
        _ => LicenseRuntimeImpact::HardInactive,
    }
}

/// What an entitlement allows the managed programs to do.
pub fn license_runtime_impact(status: &EntitlementStatus) -> (impact: LicenseRuntimeImpact)
    ensures
        impact == runtime_impact_of(*status),
{
    match status {
        EntitlementStatus::Active { .. } => LicenseRuntimeImpact::Active,
        EntitlementStatus::RestrictedOffline { .. } => LicenseRuntimeImpact::RestrictedOffline,
        _ => LicenseRuntimeImpact::HardInactive,
    }
}

/// The name under which an entitlement is logged.
pub open spec fn status_name(status: EntitlementStatus) -> Seq<char> {
    match status {
        EntitlementStatus::Unauthenticated => "unauthenticated"@,
        EntitlementStatus::SessionOnly => "session_only"@,
        EntitlementStatus::ActivationPending => "activation_pending"@,
        EntitlementStatus::Active { .. } => "active"@,
        EntitlementStatus::RestrictedOffline { .. } => "restricted_offline"@,
        EntitlementStatus::Expired => "expired"@,
        EntitlementStatus::RevalidationRequired { .. } => "revalidation_required"@,
        EntitlementStatus::ClientUpgradeRequired => "client_upgrade_required"@,
        EntitlementStatus::DeviceDenied { .. } => "device_denied"@,
        EntitlementStatus::LicenseInactive { .. } => "license_inactive"@,
    }
}

/// The name under which an entitlement is logged.
pub fn entitlement_status_name(status: &EntitlementStatus) -> (name: &'static str)
    ensures
        name@ == status_name(*status),
{
    match status {
        EntitlementStatus::Unauthenticated => "unauthenticated",
        EntitlementStatus::SessionOnly => "session_only",
        EntitlementStatus::ActivationPending => "activation_pending",
        EntitlementStatus::Active { .. } => "active",
        EntitlementStatus::RestrictedOffline { .. } => "restricted_offline",
        EntitlementStatus::Expired => "expired",
        EntitlementStatus::RevalidationRequired { .. } => "revalidation_required",
        EntitlementStatus::ClientUpgradeRequired => "client_upgrade_required",
        EntitlementStatus::DeviceDenied { .. } => "device_denied",
        EntitlementStatus::LicenseInactive { .. } => "license_inactive",
    }
}

/// A change of the entitlement as it is reported to the user interface.
pub struct LicenseStateChangedEvent {
    pub generation: u64,
    pub entitlement_state: EntitlementStatus,
    pub reason: String,
    pub runtime_impact: LicenseRuntimeImpact,
    pub stopped_programs: usize,
    pub failed_programs: usize,
    pub failed_program_ids: Vec<String>,
}

/// Entitlements that always need the user's attention.
pub open spec fn needs_attention(status: EntitlementStatus) -> bool {
    match status {
        EntitlementStatus::ActivationPending
        | EntitlementStatus::RestrictedOffline { .. }
        | EntitlementStatus::Expired
        | EntitlementStatus::RevalidationRequired { .. }
        | EntitlementStatus::ClientUpgradeRequired
        | EntitlementStatus::DeviceDenied { .. }
        | EntitlementStatus::LicenseInactive { .. } => true,
        _ => false,
    }
}

/// The reasons of routine reads, which report nothing new on their own.
pub open spec fn routine_reason(reason: Seq<char>) -> bool {
    reason == "license_monitor"@ || reason == "entitlement_state_read"@
}

/// An event reaches the user interface when programs were stopped or failed to stop, when
/// the entitlement needs attention, or when it comes from anything but a routine read.
pub open spec fn emits_state_change(event: LicenseStateChangedEvent) -> bool {
    event.stopped_programs > 0 || event.failed_programs > 0 || needs_attention(
        event.entitlement_state,
    ) || !routine_reason(event.reason@)
}

/// Whether a change of the entitlement is reported to the user interface.
pub fn should_emit_license_state_changed(event: &LicenseStateChangedEvent) -> (emit: bool)
    ensures
        emit == emits_state_change(*event),
{
    if event.stopped_programs > 0 || event.failed_programs > 0 {
        return true;
    }
    let attention = match event.entitlement_state {
        EntitlementStatus::ActivationPending
        | EntitlementStatus::RestrictedOffline { .. }
        | EntitlementStatus::Expired
        | EntitlementStatus::RevalidationRequired { .. }
        | EntitlementStatus::ClientUpgradeRequired
        | EntitlementStatus::DeviceDenied { .. }
        | EntitlementStatus::LicenseInactive { .. } => true,
        _ => false,
    };
    if attention {
        return true;
    }
    !(text_eq(event.reason.as_str(), "license_monitor") || text_eq(
        event.reason.as_str(),
        "entitlement_state_read",
    ))
}

/// The arming of the automatic start after the entitlement's runtime impact is seen: whether it
/// is armed afterwards, and whether programs are to be started now. An entitlement that stops
/// the programs arms it; an active one fires it once; a restricted offline one leaves it.
pub open spec fn arming_step(armed: bool, runtime_impact: LicenseRuntimeImpact) -> (bool, bool) {
    match runtime_impact {
        LicenseRuntimeImpact::HardInactive => (true, false),
        LicenseRuntimeImpact::Active => (false, armed),
        LicenseRuntimeImpact::RestrictedOffline => (armed, false),
    }
}

/// Arms the automatic start of programs when the entitlement stops them, and fires it once
/// when the entitlement becomes active again: the result says whether programs are to be
/// started now.
pub fn update_auto_start_arming(armed: &mut bool, runtime_impact: LicenseRuntimeImpact) -> (start:
    bool)
    ensures
        (*final(armed), start) == arming_step(*old(armed), runtime_impact),
{
    match runtime_impact {
        LicenseRuntimeImpact::HardInactive => {
            *armed = true;
            false
        },
        LicenseRuntimeImpact::Active => {
            let was_armed = *armed;
            *armed = false;
            was_armed
        },
        LicenseRuntimeImpact::RestrictedOffline => false,
    }
}

/// What starting the application does with the managed programs, by the runtime impact of the
/// entitlement it finds.
#[derive(Clone, Copy, Debug, PartialEq, Eq, Structural)]
pub struct StartupPlan {
    /// Whether failed programs are restarted automatically.
    pub automatic_restarts: bool,
    /// Whether the programs marked to start with the application are started now.
    pub start_programs: bool,
    /// Whether that start is armed for when the entitlement becomes active.
    pub arm_auto_start: bool,
}

/// Only an active entitlement enables automatic restarts and starts the programs at once;
/// under any other the start is armed for later.
pub fn startup_plan(runtime_impact: LicenseRuntimeImpact) -> (plan: StartupPlan)
    ensures
        plan.automatic_restarts == (runtime_impact == LicenseRuntimeImpact::Active),
        plan.start_programs == (runtime_impact == LicenseRuntimeImpact::Active),
        plan.arm_auto_start == (runtime_impact != LicenseRuntimeImpact::Active),
{
    let active = matches!(runtime_impact, LicenseRuntimeImpact::Active);
    StartupPlan { automatic_restarts: active, start_programs: active, arm_auto_start: !active }
}

/// The programs marked to start with the application are started once per activation: with
/// the arming the startup plan sets for the entitlement found at startup (`impact`), the first
/// active entitlement starts them exactly when startup did not; seeing an active entitlement
/// again does not start them again, also across a restricted offline spell, until an
/// entitlement that stops them was seen in between.
pub proof fn lemma_auto_start_once_per_activation(armed: bool, impact: LicenseRuntimeImpact)
    ensures
        arming_step(impact != LicenseRuntimeImpact::Active, LicenseRuntimeImpact::Active).1 == (impact
            != LicenseRuntimeImpact::Active),
        !arming_step(arming_step(armed, LicenseRuntimeImpact::Active).0, LicenseRuntimeImpact::Active).1,
        arming_step(arming_step(armed, LicenseRuntimeImpact::HardInactive).0, LicenseRuntimeImpact::Active).1,
        impact == LicenseRuntimeImpact::RestrictedOffline ==> arming_step(
            arming_step(arming_step(armed, LicenseRuntimeImpact::Active).0, impact).0,
            LicenseRuntimeImpact::Active,
        ).1 == false,
{
}

/// The longest and shortest pause of the license enforcement monitor, in milliseconds.
pub const MAX_MONITOR_DELAY_MS: u64 = 30_000;
pub const MIN_MONITOR_DELAY_MS: u64 = 100;

/// The pause before the monitor looks at the entitlement again: until the entitlement's
/// deadline (the lease's end when active, the safety window's end when offline), at most
/// the longest pause and at least the shortest one; the longest pause when there is no deadline.
pub open spec fn enforcement_delay(status: EntitlementStatus, trusted_now: i64) -> u64 {
    let deadline = match status {
        EntitlementStatus::Active { expires_at, .. } => Some(expires_at),
        EntitlementStatus::RestrictedOffline { safety_window_ends_at } => Some(safety_window_ends_at),
        _ => None,
    };
    match deadline {
        None => MAX_MONITOR_DELAY_MS,
        Some(d) => if d - trusted_now <= 0 {
            MIN_MONITOR_DELAY_MS
        } else if d - trusted_now >= 30 {
            MAX_MONITOR_DELAY_MS
        } else {
            ((d - trusted_now) * 1000) as u64
        },
    }
}

/// The pause, in milliseconds, before the license enforcement monitor runs again.
pub fn license_enforcement_delay_ms(status: &EntitlementStatus, trusted_now: i64) -> (delay: u64)
    ensures
        delay == enforcement_delay(*status, trusted_now),
        MIN_MONITOR_DELAY_MS <= delay <= MAX_MONITOR_DELAY_MS,
{
    let deadline = match status {
        EntitlementStatus::Active { expires_at, .. } => *expires_at,
        EntitlementStatus::RestrictedOffline { safety_window_ends_at } => *safety_window_ends_at,
        _ => {
            return MAX_MONITOR_DELAY_MS;
        },
    };
    let remaining: i128 = deadline as i128 - trusted_now as i128;
    if remaining <= 0 {
        MIN_MONITOR_DELAY_MS
    } else if remaining >= 30 {
        MAX_MONITOR_DELAY_MS
    } else {
        (remaining as u64) * 1000
    }
}

/// What the local entitlement becomes after the license service refused a refresh.
#[derive(Clone, Copy, Debug, PartialEq, Eq, Structural)]
pub enum RefreshFailureAction {
    /// Forget the signed-in session.
    ClearSession,
    /// Record the device state the service reported.
    ApplyDeviceState(DeviceState),
    /// Drop the pending activation, keeping the device identity for a new code.
    DeauthorizeLocally,
    /// Record that the license is inactive.
    ApplyLicenseInactive(LicenseInactiveReason),
    /// Record that this build is too old.
    ApplyClientUpgradeRequired,
    /// Require the entitlement to be confirmed again.
    ApplyRevalidationRequired(RevalidationReason),
    /// Leave the local state as it is.
    Keep,
}

/// The local consequence of each refusal of the license service.
pub open spec fn refresh_failure_action_of(error: LicensingError) -> RefreshFailureAction {
    match error {
        LicensingError::RefreshSessionReused | LicensingError::AuthorizationRequired => RefreshFailureAction::ClearSession,
        LicensingError::DeviceActivationPending => RefreshFailureAction::ApplyDeviceState(DeviceState::PendingActivation),
        LicensingError::DeviceDenied | LicensingError::DeviceRevoked => RefreshFailureAction::ApplyDeviceState(DeviceState::Revoked),
        LicensingError::DeviceRemoved => RefreshFailureAction::ApplyDeviceState(DeviceState::Removed),
        LicensingError::DeviceSuspicious => RefreshFailureAction::ApplyDeviceState(DeviceState::Suspicious),
        LicensingError::ActivationCodeInvalid
        | LicensingError::ActivationCodeExpired
        | LicensingError::ActivationCodeConsumed
        | LicensingError::ActivationCodeRevoked
        | LicensingError::ActivationPendingExpired => RefreshFailureAction::DeauthorizeLocally,
        LicensingError::AccountSuspended => RefreshFailureAction::ApplyLicenseInactive(LicenseInactiveReason::AccountSuspended),
        LicensingError::AccountDenylisted => RefreshFailureAction::ApplyLicenseInactive(LicenseInactiveReason::AccountDenylisted),
        LicensingError::LicensePastDue => RefreshFailureAction::ApplyLicenseInactive(LicenseInactiveReason::LicensePastDue),
        LicensingError::LicenseCanceled => RefreshFailureAction::ApplyLicenseInactive(LicenseInactiveReason::LicenseCanceled),
        LicensingError::LicenseExpired => RefreshFailureAction::ApplyLicenseInactive(LicenseInactiveReason::LicenseExpired),
        LicensingError::LicenseUnavailable => RefreshFailureAction::ApplyLicenseInactive(LicenseInactiveReason::LicenseUnavailable),
        LicensingError::ClientUpgradeRequired => RefreshFailureAction::ApplyClientUpgradeRequired,
        LicensingError::EntitlementExpired => RefreshFailureAction::ApplyRevalidationRequired(RevalidationReason::InvalidServerProof),
        LicensingError::ClockRollback => RefreshFailureAction::ApplyRevalidationRequired(RevalidationReason::ClockRollback),
        LicensingError::ObsoleteLicenseEpoch => RefreshFailureAction::ApplyRevalidationRequired(RevalidationReason::ObsoleteEpoch),
        LicensingError::DeviceIdentityUnavailable
        | LicensingError::SecureStoreUnavailable
        | LicensingError::SecureStoreBackend
        | LicensingError::SecureStoreCorrupt => RefreshFailureAction::ApplyRevalidationRequired(RevalidationReason::CorruptSecureStore),
        LicensingError::MalformedEntitlement
        | LicensingError::InvalidSignature
        | LicensingError::UnsupportedAlgorithm
        | LicensingError::UnknownSigningKey
        | LicensingError::WrongIssuer
        | LicensingError::WrongAudience
        | LicensingError::DeviceMismatch
        | LicensingError::DeviceKeyMismatch
        | LicensingError::InvalidClaims => RefreshFailureAction::ApplyRevalidationRequired(RevalidationReason::InvalidServerProof),
        _ => RefreshFailureAction::Keep,
    }
}

/// What the local entitlement becomes after the license service refused a refresh.
pub fn refresh_failure_action(error: LicensingError) -> (action: RefreshFailureAction)
    ensures
        action == refresh_failure_action_of(error),
{
    match error {
        LicensingError::RefreshSessionReused | LicensingError::AuthorizationRequired => RefreshFailureAction::ClearSession,
        LicensingError::DeviceActivationPending => RefreshFailureAction::ApplyDeviceState(DeviceState::PendingActivation),
        LicensingError::DeviceDenied | LicensingError::DeviceRevoked => RefreshFailureAction::ApplyDeviceState(DeviceState::Revoked),
        LicensingError::DeviceRemoved => RefreshFailureAction::ApplyDeviceState(DeviceState::Removed),
        LicensingError::DeviceSuspicious => RefreshFailureAction::ApplyDeviceState(DeviceState::Suspicious),
        LicensingError::ActivationCodeInvalid
        | LicensingError::ActivationCodeExpired
        | LicensingError::ActivationCodeConsumed
        | LicensingError::ActivationCodeRevoked
        | LicensingError::ActivationPendingExpired => RefreshFailureAction::DeauthorizeLocally,
        LicensingError::AccountSuspended => RefreshFailureAction::ApplyLicenseInactive(LicenseInactiveReason::AccountSuspended),
        LicensingError::AccountDenylisted => RefreshFailureAction::ApplyLicenseInactive(LicenseInactiveReason::AccountDenylisted),
        LicensingError::LicensePastDue => RefreshFailureAction::ApplyLicenseInactive(LicenseInactiveReason::LicensePastDue),
        LicensingError::LicenseCanceled => RefreshFailureAction::ApplyLicenseInactive(LicenseInactiveReason::LicenseCanceled),
        LicensingError::LicenseExpired => RefreshFailureAction::ApplyLicenseInactive(LicenseInactiveReason::LicenseExpired),
        LicensingError::LicenseUnavailable => RefreshFailureAction::ApplyLicenseInactive(LicenseInactiveReason::LicenseUnavailable),
        LicensingError::ClientUpgradeRequired => RefreshFailureAction::ApplyClientUpgradeRequired,
        LicensingError::EntitlementExpired => RefreshFailureAction::ApplyRevalidationRequired(RevalidationReason::InvalidServerProof),
        LicensingError::ClockRollback => RefreshFailureAction::ApplyRevalidationRequired(RevalidationReason::ClockRollback),
        LicensingError::ObsoleteLicenseEpoch => RefreshFailureAction::ApplyRevalidationRequired(RevalidationReason::ObsoleteEpoch),
        LicensingError::DeviceIdentityUnavailable
        | LicensingError::SecureStoreUnavailable
        | LicensingError::SecureStoreBackend
        | LicensingError::SecureStoreCorrupt => RefreshFailureAction::ApplyRevalidationRequired(RevalidationReason::CorruptSecureStore),
        LicensingError::MalformedEntitlement
        | LicensingError::InvalidSignature
        | LicensingError::UnsupportedAlgorithm
        | LicensingError::UnknownSigningKey
        | LicensingError::WrongIssuer
        | LicensingError::WrongAudience
        | LicensingError::DeviceMismatch
        | LicensingError::DeviceKeyMismatch
        | LicensingError::InvalidClaims => RefreshFailureAction::ApplyRevalidationRequired(RevalidationReason::InvalidServerProof),
        _ => RefreshFailureAction::Keep,
    }
}

/// A failure that a later attempt can overcome leaves the local entitlement as it is.
pub proof fn lemma_transient_failures_keep_state(error: LicensingError)
    requires
        is_transient(error),
    ensures
        refresh_failure_action_of(error) == RefreshFailureAction::Keep,
{
}

/// Every refusal that records a denied device is reported to the user as a device denial.
pub proof fn lemma_device_refusals_report_denial(error: LicensingError)
    requires
        refresh_failure_action_of(error) matches RefreshFailureAction::ApplyDeviceState(state)
            && state != DeviceState::PendingActivation,
    ensures
        license_error_code_of(error) == ErrorCode::LicenseDeviceDenied,
{
}


/// An operation that needs an active entitlement.
#[derive(Clone, Copy, Debug, PartialEq, Eq, Structural)]
pub enum ProtectedOperation {
    Activate,
    CreatePremiumProgram,
    EditPremiumConfiguration,
    RemoteControl,
    RunAdvancedDiagnostics,
    UseManagedConfigSources,
    UseManagedProgramPackages,
}

/// The operations that running or changing a program needs: the primary one, then the use of
/// managed configuration sources when the program has a managed configuration, then the use of
/// managed program packages when its executable is a managed package.
pub fn program_requirements(primary: ProtectedOperation, has_managed_config: bool, managed_executable: bool) -> (operations:
    Vec<ProtectedOperation>)
    ensures
        operations@ == seq![primary] + (if has_managed_config {
            seq![ProtectedOperation::UseManagedConfigSources]
        } else {
            Seq::empty()
        }) + (if managed_executable {
            seq![ProtectedOperation::UseManagedProgramPackages]
        } else {
            Seq::empty()
        }),
{
    let mut operations: Vec<ProtectedOperation> = Vec::new();
    operations.push(primary);
    if has_managed_config {
        operations.push(ProtectedOperation::UseManagedConfigSources);
    }
    if managed_executable {
        operations.push(ProtectedOperation::UseManagedProgramPackages);
    }
    assert(operations@ =~= seq![primary] + (if has_managed_config {
        seq![ProtectedOperation::UseManagedConfigSources]
    } else {
        Seq::empty()
    }) + (if managed_executable {
        seq![ProtectedOperation::UseManagedProgramPackages]
    } else {
        Seq::empty()
    }));
    operations
}

/// The operations that changing a program's configuration needs: the primary one, then the use
/// of managed configuration sources when the program has a managed configuration.
pub fn configuration_requirements(primary: ProtectedOperation, has_managed_config: bool) -> (operations: Vec<
    ProtectedOperation,
>)
    ensures
        operations@ == seq![primary] + (if has_managed_config {
            seq![ProtectedOperation::UseManagedConfigSources]
        } else {
            Seq::empty()
        }),
{
    program_requirements(primary, has_managed_config, false)
}

/// What the programs must do when the entitlement changes.
#[derive(Clone, Copy, Debug, PartialEq, Eq, Structural)]
pub enum RuntimeEnforcement {
    /// Stop the running programs, with automatic restarts off.
    StopActive,
    /// Leave the programs running, with automatic restarts on or off.
    SetAutomaticRestarts(bool),
}

/// How the programs follow the entitlement: a hard-inactive license stops them; otherwise they
/// keep running, and restart automatically only under an active license.
pub fn runtime_enforcement(impact: LicenseRuntimeImpact) -> (enforcement: RuntimeEnforcement)
    ensures
        enforcement == if impact == LicenseRuntimeImpact::HardInactive {
            RuntimeEnforcement::StopActive
        } else {
            RuntimeEnforcement::SetAutomaticRestarts(impact == LicenseRuntimeImpact::Active)
        },
{
    if impact.requires_runtime_stop() {
        RuntimeEnforcement::StopActive
    } else {
        RuntimeEnforcement::SetAutomaticRestarts(impact == LicenseRuntimeImpact::Active)
    }
}
} // verus!
