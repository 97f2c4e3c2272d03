use vstd::prelude::*;

use crate::license_policy::{
    is_transient, refresh_failure_action, refresh_failure_action_of, DeviceState,
    EntitlementStatus, LicensingError, RefreshFailureAction,
};

verus! {

/// What one pass of the background license maintenance does.
#[derive(Clone, Copy, Debug, PartialEq, Eq, Structural)]
pub enum MaintenancePlan {
    /// Nothing: there is no session to maintain, or retrying cannot help.
    Idle,
    /// Ask whether a pending activation was approved.
    ResumePendingActivation,
    /// Recover the session of a revoked or suspicious device and refresh.
    RecoverDeniedDevice,
    /// Refresh the entitlement.
    Refresh,
    /// Only ask the service for the entitlement's status.
    CheckStatus,
}

/// An active entitlement is refreshed once its refresh time came, or within the last hour
/// of its lease.
pub open spec fn active_refresh_due(refresh_after: i64, expires_at: i64, now: i64) -> bool {
    now >= refresh_after || expires_at - now <= 60 * 60
}

/// The plan of a maintenance pass for an entitlement at the service's time `now`.
pub open spec fn maintenance_plan_of(status: EntitlementStatus, now: i64) -> MaintenancePlan {
    match status {
        EntitlementStatus::ActivationPending => MaintenancePlan::ResumePendingActivation,
        EntitlementStatus::DeviceDenied { state } => if state == DeviceState::Revoked || state
            == DeviceState::Suspicious {
            MaintenancePlan::RecoverDeniedDevice
        } else {
            MaintenancePlan::Idle
        },
        EntitlementStatus::Active { refresh_after, expires_at } => if active_refresh_due(
            refresh_after,
            expires_at,
            now,
        ) {
            MaintenancePlan::Refresh
        } else {
            MaintenancePlan::CheckStatus
        },
        EntitlementStatus::RestrictedOffline { .. }
        | EntitlementStatus::Expired
        | EntitlementStatus::RevalidationRequired { .. }
        | EntitlementStatus::LicenseInactive { .. } => MaintenancePlan::Refresh,
        EntitlementStatus::ClientUpgradeRequired
        | EntitlementStatus::Unauthenticated
        | EntitlementStatus::SessionOnly => MaintenancePlan::Idle,
    }
}

/// The plan of a maintenance pass for an entitlement at the service's time `now`.
pub fn maintenance_plan(status: &EntitlementStatus, now: i64) -> (plan: MaintenancePlan)
    ensures
        plan == maintenance_plan_of(*status, now),
{
    match status {
        EntitlementStatus::ActivationPending => MaintenancePlan::ResumePendingActivation,
        EntitlementStatus::DeviceDenied { state } => match state {
            DeviceState::Revoked | DeviceState::Suspicious => MaintenancePlan::RecoverDeniedDevice,
            _ => MaintenancePlan::Idle,
        },
        EntitlementStatus::Active { refresh_after, expires_at } => {
            let remaining: i128 = *expires_at as i128 - now as i128;
            if now >= *refresh_after || remaining <= 3600 {
                MaintenancePlan::Refresh
            } else {
                MaintenancePlan::CheckStatus
            }
        },
        EntitlementStatus::RestrictedOffline { .. }
        | EntitlementStatus::Expired
        | EntitlementStatus::RevalidationRequired { .. }
        | EntitlementStatus::LicenseInactive { .. } => MaintenancePlan::Refresh,
        _ => MaintenancePlan::Idle,
    }
}

/// Whether the plan refreshes the entitlement on its own.
pub open spec fn plan_refreshes(plan: MaintenancePlan) -> bool {
    plan == MaintenancePlan::ResumePendingActivation || plan == MaintenancePlan::RecoverDeniedDevice
        || plan == MaintenancePlan::Refresh
}

/// Whether a pass whose service call failed with `error` is retried by recovering the
/// session: the session was lost, and no activation is pending.
pub open spec fn retries_with_recovery(plan: MaintenancePlan, error: LicensingError) -> bool {
    (error == LicensingError::AuthorizationRequired || error == LicensingError::RefreshSessionReused)
        && plan != MaintenancePlan::ResumePendingActivation
}

/// Whether a pass whose service call failed with `error` is retried by recovering the session.
pub fn should_retry_with_recovery(plan: MaintenancePlan, error: LicensingError) -> (retry: bool)
    ensures
        retry == retries_with_recovery(plan, error),
{
    (error == LicensingError::AuthorizationRequired || error == LicensingError::RefreshSessionReused)
        && plan != MaintenancePlan::ResumePendingActivation
}

/// What a pass of the background license maintenance came to.
#[derive(Clone, Copy, Debug, PartialEq, Eq, Structural)]
pub enum LicenseMaintenanceOutcome {
    Idle,
    Succeeded,
    TransientFailure { retry_after_seconds: Option<u64> },
}

/// The conclusion of a maintenance pass: its outcome, the reason under which the new
/// entitlement is reported, and what to record locally.
#[derive(Clone, Copy, Debug, PartialEq, Eq, Structural)]
pub struct MaintenanceConclusion {
    pub outcome: LicenseMaintenanceOutcome,
    pub reason: MaintenanceReason,
    pub action: RefreshFailureAction,
}

/// The reasons under which a maintenance pass reports the entitlement.
#[derive(Clone, Copy, Debug, PartialEq, Eq, Structural)]
pub enum MaintenanceReason {
    SessionRecovered,
    Refresh,
    StatusRefresh,
    Status,
    NetworkUnavailable,
    Denied,
}

impl MaintenanceReason {
    pub open spec fn name(self) -> Seq<char> {
        match self {
            MaintenanceReason::SessionRecovered => "license_background_session_recovered"@,
            MaintenanceReason::Refresh => "license_background_refresh"@,
            MaintenanceReason::StatusRefresh => "license_background_status_refresh"@,
            MaintenanceReason::Status => "license_background_status"@,
            MaintenanceReason::NetworkUnavailable => "license_network_unavailable"@,
            MaintenanceReason::Denied => "license_background_denied"@,
        }
    }

    /// The reason as the entitlement report carries it.
    pub fn as_str(self) -> (name: &'static str)
        ensures
            name@ == self.name(),
    {
        match self {
            MaintenanceReason::SessionRecovered => "license_background_session_recovered",
            MaintenanceReason::Refresh => "license_background_refresh",
            MaintenanceReason::StatusRefresh => "license_background_status_refresh",
            MaintenanceReason::Status => "license_background_status",
            MaintenanceReason::NetworkUnavailable => "license_network_unavailable",
            MaintenanceReason::Denied => "license_background_denied",
        }
    }
}

/// The conclusion of a pass with `plan`, where the status check triggered a refresh or not,
/// the session was recovered after a failure or not, and the last service call gave `result`.
/// A success is reported under what the pass did; a transient failure is retried, after the
/// service's own delay when it gave one; any other failure is recorded locally.
pub open spec fn conclusion_of(
    plan: MaintenancePlan,
    status_triggered_refresh: bool,
    retried_recovery: bool,
    result: Result<(), LicensingError>,
) -> MaintenanceConclusion {
    match result {
        Ok(()) => MaintenanceConclusion {
            outcome: LicenseMaintenanceOutcome::Succeeded,
            reason: if retried_recovery || plan == MaintenancePlan::RecoverDeniedDevice {
                MaintenanceReason::SessionRecovered
            } else if plan_refreshes(plan) {
                MaintenanceReason::Refresh
            } else if status_triggered_refresh {
                MaintenanceReason::StatusRefresh
            } else {
                MaintenanceReason::Status
            },
            action: RefreshFailureAction::Keep,
        },
        Err(error) => if is_transient(error) {
            MaintenanceConclusion {
                outcome: LicenseMaintenanceOutcome::TransientFailure {
                    retry_after_seconds: match error {
                        LicensingError::TooManyRequests { retry_after_seconds } => retry_after_seconds,
                        _ => None,
                    },
                },
                reason: MaintenanceReason::NetworkUnavailable,
                action: RefreshFailureAction::Keep,
            }
        } else {
            MaintenanceConclusion {
                outcome: LicenseMaintenanceOutcome::Succeeded,
                reason: MaintenanceReason::Denied,
                action: refresh_failure_action_of(error),
            }
        },
    }
}

/// The conclusion of a maintenance pass.
pub fn conclude_maintenance(
    plan: MaintenancePlan,
    status_triggered_refresh: bool,
    retried_recovery: bool,
    result: Result<(), LicensingError>,
) -> (conclusion: MaintenanceConclusion)
    ensures
        conclusion == conclusion_of(plan, status_triggered_refresh, retried_recovery, result),
{
    match result {
        Ok(()) => {
            let refreshes = plan == MaintenancePlan::ResumePendingActivation || plan
                == MaintenancePlan::RecoverDeniedDevice || plan == MaintenancePlan::Refresh;
            let reason = if retried_recovery || plan == MaintenancePlan::RecoverDeniedDevice {
                MaintenanceReason::SessionRecovered
            } else if refreshes {
                MaintenanceReason::Refresh
            } else if status_triggered_refresh {
                MaintenanceReason::StatusRefresh
            } else {
                MaintenanceReason::Status
            };
            MaintenanceConclusion {
                outcome: LicenseMaintenanceOutcome::Succeeded,
                reason,
                action: RefreshFailureAction::Keep,
            }
        },
        Err(error) => {
            if crate::license_policy::transient_license_error(error) {
                let retry_after_seconds = match error {
                    LicensingError::TooManyRequests { retry_after_seconds } => retry_after_seconds,
                    _ => None,
                };
                MaintenanceConclusion {
                    outcome: LicenseMaintenanceOutcome::TransientFailure { retry_after_seconds },
                    reason: MaintenanceReason::NetworkUnavailable,
                    action: RefreshFailureAction::Keep,
                }
            } else {
                MaintenanceConclusion {
                    outcome: LicenseMaintenanceOutcome::Succeeded,
                    reason: MaintenanceReason::Denied,
                    action: refresh_failure_action(error),
                }
            }
        },
    }
}

/// The regular pause between maintenance passes, and its spread, in seconds.
pub const MAINTENANCE_INTERVAL_SECONDS: u64 = 300;
pub const MAINTENANCE_SPREAD_SECONDS: u64 = 30;

/// The pause after a first transient failure, and the most that pauses grow to, in seconds.
pub const RETRY_BASE_SECONDS: u64 = 30;
pub const RETRY_CAP_SECONDS: u64 = 900;

/// The most consecutive failures that lengthen the pause.
pub const MAX_COUNTED_FAILURES: u32 = 5;

pub open spec fn saturated(n: int) -> u64 {
    if n > u64::MAX {
        u64::MAX
    } else {
        n as u64
    }
}

/// A pause of `base` seconds moved by a random amount within `spread` seconds either way
/// (never below zero), drawn from `random`.
pub open spec fn spread_delay(base: u64, spread: u64, random: u64) -> u64 {
    let width = saturated(saturated(2 * spread) + 1);
    let low = if base < spread {
        0
    } else {
        base - spread
    };
    saturated(low + random % width)
}

/// A pause of `base` seconds moved by the random amount `random` picks within `spread`.
pub fn spread_delay_seconds(base: u64, spread: u64, random: u64) -> (seconds: u64)
    ensures
        seconds == spread_delay(base, spread, random),
{
    let doubled: u64 = if spread > u64::MAX / 2 {
        u64::MAX
    } else {
        spread * 2
    };
    let width = doubled.saturating_add(1);
    base.saturating_sub(spread).saturating_add(random % width)
}

/// A random 64-bit number, taken from a fresh version 4 UUID (`uuid::Uuid::new_v4`).
/// Nothing is promised of its value.
#[verifier::external_body]
fn random_u64() -> u64 {
    let bytes = uuid::Uuid::new_v4().into_bytes();
    u64::from_le_bytes([bytes[0], bytes[1], bytes[2], bytes[3], bytes[4], bytes[5], bytes[6], bytes[7]])
}

/// A pause of `base` seconds moved at random within `spread` seconds either way.
pub fn randomized_delay(base: u64, spread: u64) -> (seconds: u64)
    ensures
        exists|random: u64| seconds == spread_delay(base, spread, random),
{
    let random = random_u64();
    spread_delay_seconds(base, spread, random)
}

/// The pause before the next pass after `failures` consecutive transient failures.
pub open spec fn retry_delay(failures: u32) -> u64 {
    let grown = RETRY_BASE_SECONDS * vstd::arithmetic::power2::pow2((failures - 1) as nat);
    if grown > RETRY_CAP_SECONDS {
        RETRY_CAP_SECONDS
    } else {
        grown as u64
    }
}

/// How the background maintenance paces itself: the number of consecutive transient failures,
/// counted up to a limit.
pub struct MaintenanceBackoff {
    pub consecutive_failures: u32,
}

/// The counted failures and the pause in seconds after a pass with `outcome`, where `random`
/// moves the pause within its spread.
pub open spec fn next_attempt(failures: u32, outcome: LicenseMaintenanceOutcome, random: u64) -> (
    u32,
    u64,
) {
    match outcome {
        LicenseMaintenanceOutcome::TransientFailure { retry_after_seconds } => {
            let counted: u32 = if failures >= MAX_COUNTED_FAILURES {
                MAX_COUNTED_FAILURES
            } else {
                (failures + 1) as u32
            };
            let delay = retry_delay(counted);
            let local = spread_delay(delay, delay / 2, random);
            let server = match retry_after_seconds {
                Some(s) => s,
                None => 0,
            };
            (counted, if local >= server { local } else { server })
        },
        _ => (0, spread_delay(MAINTENANCE_INTERVAL_SECONDS, MAINTENANCE_SPREAD_SECONDS, random)),
    }
}

impl MaintenanceBackoff {
    /// No failure so far.
    pub fn new() -> (backoff: Self)
        ensures
            backoff.consecutive_failures == 0,
    {
        MaintenanceBackoff { consecutive_failures: 0 }
    }

    /// Records the outcome of a pass and gives the pause in seconds before the next one,
    /// with `random` as the draw that moves it within its spread.
    pub fn record_with(&mut self, outcome: LicenseMaintenanceOutcome, random: u64) -> (seconds: u64)
        requires
            old(self).consecutive_failures <= MAX_COUNTED_FAILURES,
        ensures
            (final(self).consecutive_failures, seconds) == next_attempt(
                old(self).consecutive_failures,
                outcome,
                random,
            ),
            final(self).consecutive_failures <= MAX_COUNTED_FAILURES,
    {
        match outcome {
            LicenseMaintenanceOutcome::TransientFailure { retry_after_seconds } => {
                let counted: u32 = if self.consecutive_failures >= MAX_COUNTED_FAILURES {
                    MAX_COUNTED_FAILURES
                } else {
                    self.consecutive_failures + 1
                };
                self.consecutive_failures = counted;
                let delay = retry_delay_seconds(counted);
                let local = spread_delay_seconds(delay, delay / 2, random);
                let server = match retry_after_seconds {
                    Some(s) => s,
                    None => 0,
                };
                if local >= server {
                    local
                } else {
                    server
                }
            },
            _ => {
                self.consecutive_failures = 0;
                spread_delay_seconds(MAINTENANCE_INTERVAL_SECONDS, MAINTENANCE_SPREAD_SECONDS, random)
            },
        }
    }

    /// Records the outcome of a pass and gives the pause in seconds before the next one,
    /// moved at random within its spread.
    pub fn record(&mut self, outcome: LicenseMaintenanceOutcome) -> (seconds: u64)
        requires
            old(self).consecutive_failures <= MAX_COUNTED_FAILURES,
        ensures
            exists|random: u64|
                (final(self).consecutive_failures, seconds) == next_attempt(
                    old(self).consecutive_failures,
                    outcome,
                    random,
                ),
            final(self).consecutive_failures <= MAX_COUNTED_FAILURES,
    {
        let random = random_u64();
        self.record_with(outcome, random)
    }
}

/// The pause after `failures` consecutive transient failures, for a count from one to the limit.
fn retry_delay_seconds(failures: u32) -> (seconds: u64)
    requires
        1 <= failures <= MAX_COUNTED_FAILURES,
    ensures
        seconds == retry_delay(failures),
{
    proof {
        vstd::arithmetic::power2::lemma2_to64();
    }
    if failures == 1 {
        30
    } else if failures == 2 {
        60
    } else if failures == 3 {
        120
    } else if failures == 4 {
        240
    } else {
        480
    }
}

/// Every entitlement that the service can bring back is worked on by a maintenance pass: one
/// restricted while offline, expired, awaiting revalidation or inactive is refreshed, whatever
/// the time; a pending activation is asked after; an active one is refreshed or its status
/// checked. Only where retrying cannot help (a client too old, no session, a denial the device
/// cannot recover from) does the pass do nothing.
pub proof fn lemma_recoverable_entitlements_are_refreshed(status: EntitlementStatus, now: i64)
    ensures
        (status is RestrictedOffline || status is Expired || status is RevalidationRequired
            || status is LicenseInactive) ==> maintenance_plan_of(status, now) == MaintenancePlan::Refresh,
        status is ActivationPending ==> maintenance_plan_of(status, now) == MaintenancePlan::ResumePendingActivation,
        status is Active ==> plan_refreshes(maintenance_plan_of(status, now)) || maintenance_plan_of(status, now)
            == MaintenancePlan::CheckStatus,
        !plan_refreshes(maintenance_plan_of(status, now)) && maintenance_plan_of(status, now)
            != MaintenancePlan::CheckStatus ==> status is ClientUpgradeRequired || status is Unauthenticated
            || status is SessionOnly || status is DeviceDenied,
{
}

} // verus!
