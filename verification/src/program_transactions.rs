use vstd::prelude::*;

use crate::license_policy::ErrorCode;

verus! {

/// A piece of outside work in creating or updating a program. The application performs it and
/// reports whether it succeeded.
#[derive(Clone, Copy, Debug, PartialEq, Eq, Structural)]
pub enum ProgramStep {
    /// Check the submitted program specification.
    ValidateSpec,
    /// Check that the entitlement allows what the specification asks for.
    AuthorizeRequest,
    /// Load the stored program that an update replaces.
    LoadCurrent,
    /// Finish any interrupted credential update.
    RecoverCredentials,
    /// Store the credentials of the specification's sources; this opens a credential transaction.
    ReconcileCredentials,
    /// Resolve the managed configuration's sources into the initial configuration.
    MaterializeSources,
    /// Check the number of configuration sources against the entitlement.
    CheckSourceLimit,
    /// Prepare the new program without registering it.
    PrepareCreate,
    /// Prepare the replacement of the stored program.
    PrepareUpdate,
    /// Take the program's configuration refresh lease.
    AcquireRefreshLease,
    /// Fetch and check the refreshed configuration.
    PrepareRefresh,
    /// Authorize against the live entitlement and hold that authorization.
    AuthorizeRuntime,
    /// Reserve a program against the entitlement's program limit.
    ReserveProgramLimit,
    /// Check the number of configuration sources again, at the final boundary.
    RecheckSourceLimit,
    /// Register the prepared program.
    CommitCreate,
    /// Commit the prepared update.
    CommitUpdate,
    /// Commit the prepared update together with the refreshed configuration.
    CommitUpdateRefresh,
    /// Commit the credential transaction.
    CommitCredentials,
    /// Recover the credential store after its commit failed.
    RecoverCredentialJournal,
}

/// The error a failed program transaction reports.
#[derive(Clone, Copy, Debug, PartialEq, Eq, Structural)]
pub enum ProgramFailure {
    /// The error of the step that failed.
    Step(ProgramStep),
    /// The error of rolling back the credential transaction.
    CredentialRollback,
    /// A configuration refresh was asked for a program without a managed configuration.
    ManagedConfigurationRequired,
    /// A restart and a configuration refresh were asked for at once.
    ConflictingCommitModes,
}

impl ProgramFailure {
    /// The error code under which the failure is reported: a refusal of the request itself is an
    /// invalid specification; a failed step or rollback reports that step's own error, so there
    /// is no code of the transaction's own.
    pub fn code(&self) -> (code: Option<ErrorCode>)
        ensures
            code == match *self {
                ProgramFailure::ManagedConfigurationRequired => Some(ErrorCode::InvalidSpec),
                ProgramFailure::ConflictingCommitModes => Some(ErrorCode::InvalidSpec),
                ProgramFailure::Step(_) => None,
                ProgramFailure::CredentialRollback => None,
            },
    {
        match self {
            ProgramFailure::ManagedConfigurationRequired => Some(ErrorCode::InvalidSpec),
            ProgramFailure::ConflictingCommitModes => Some(ErrorCode::InvalidSpec),
            ProgramFailure::Step(_) => None,
            ProgramFailure::CredentialRollback => None,
        }
    }

    /// The message of a refusal of the request itself; a failed step or rollback reports that
    /// step's own message.
    pub fn message(&self) -> (text: Option<&'static str>)
        ensures
            match *self {
                ProgramFailure::ManagedConfigurationRequired => text is Some && text->0@
                    == "Managed configuration is required for an atomic source refresh"@,
                ProgramFailure::ConflictingCommitModes => text is Some && text->0@
                    == "A settings restart and managed configuration refresh must use one commit mode"@,
                _ => text is None,
            },
    {
        match self {
            ProgramFailure::ManagedConfigurationRequired => Some(
                "Managed configuration is required for an atomic source refresh",
            ),
            ProgramFailure::ConflictingCommitModes => Some(
                "A settings restart and managed configuration refresh must use one commit mode",
            ),
            _ => None,
        }
    }
}

/// What the application does next for a program transaction.
#[derive(Clone, Copy, Debug, PartialEq, Eq, Structural)]
pub enum ProgramAction {
    /// Perform a step and report its result.
    Perform(ProgramStep),
    /// Give back the reserved program.
    ReleaseProgramLimit,
    /// Give up the held runtime authorization.
    ReleaseLicenseOperation,
    /// Discard the prepared program; a failure is only logged.
    DiscardPreparedCreate,
    /// Discard the prepared configuration refresh.
    DiscardPreparedRefresh,
    /// Roll back the credential transaction and report whether that succeeded.
    RollBackCredentials,
    /// Let the credential transaction roll itself back; a failure is only logged.
    AbandonCredentials,
    /// Give back the configuration refresh lease.
    ReleaseRefreshLease,
    /// The transaction succeeded.
    Succeed,
    /// The transaction failed with this error.
    Fail(ProgramFailure),
}

/// What the application reports after performing an action.
#[derive(Clone, Copy, Debug, PartialEq, Eq, Structural)]
pub enum StepReport {
    /// The action succeeded.
    Succeeded,
    /// The action failed.
    Failed,
    /// The stored program was loaded; whether it has credentials.
    LoadedCurrent { has_credentials: bool },
}

/// What a program transaction holds that must be given back or settled before it ends.
#[derive(Clone, Copy, Debug, PartialEq, Eq, Structural)]
pub struct HeldResources {
    pub credentials: bool,
    pub prepared_create: bool,
    pub prepared_refresh: bool,
    pub license_operation: bool,
    pub program_limit: bool,
    pub refresh_lease: bool,
}

/// Where a program transaction stands.
#[derive(Clone, Copy, Debug, PartialEq, Eq, Structural)]
pub enum TransactionStage {
    /// A step was handed out and its report is awaited.
    Awaiting(ProgramStep),
    /// No step is left: what is held is given back, then the transaction ends.
    Settling,
}

/// The decisions of creating a program, or of updating one, with or without a configuration
/// refresh or a restart.
#[derive(Clone, Copy, Debug, PartialEq, Eq, Structural)]
pub struct ProgramTransaction {
    pub is_update: bool,
    pub refresh_config: bool,
    pub restart: bool,
    pub manages_config: bool,
    pub limits_sources: bool,
    /// Whether a credential transaction is (or, before the stored program is loaded, may be) used.
    pub uses_credentials: bool,
    pub stage: TransactionStage,
    pub held: HeldResources,
    pub failure: Option<ProgramFailure>,
    /// Whether a failure leaves the credential transaction to roll itself back.
    pub quiet_rollback: bool,
    /// Whether a failure settles the credentials before anything else is given back.
    pub credentials_first: bool,
    /// Whether the program change was committed.
    pub committed: bool,
}

pub open spec fn nothing_held() -> HeldResources {
    HeldResources {
        credentials: false,
        prepared_create: false,
        prepared_refresh: false,
        license_operation: false,
        program_limit: false,
        refresh_lease: false,
    }
}

pub open spec fn is_commit(step: ProgramStep) -> bool {
    step is CommitCreate || step is CommitUpdate || step is CommitUpdateRefresh
}

/// What a step gives back whatever its outcome: a commit uses up what was prepared, and a
/// program registration gives back its reservation and authorization at once.
pub open spec fn held_after_step(step: ProgramStep, held: HeldResources) -> HeldResources {
    match step {
        ProgramStep::CommitCreate => HeldResources {
            prepared_create: false,
            program_limit: false,
            license_operation: false,
            ..held
        },
        ProgramStep::CommitUpdateRefresh => HeldResources { prepared_refresh: false, ..held },
        ProgramStep::CommitCredentials => HeldResources { credentials: false, ..held },
        _ => held,
    }
}

/// What a step that succeeded acquires, on top of what it gives back.
pub open spec fn held_after_success(step: ProgramStep, held: HeldResources) -> HeldResources {
    let h = held_after_step(step, held);
    match step {
        ProgramStep::ReconcileCredentials => HeldResources { credentials: true, ..h },
        ProgramStep::PrepareCreate => HeldResources { prepared_create: true, ..h },
        ProgramStep::AcquireRefreshLease => HeldResources { refresh_lease: true, ..h },
        ProgramStep::PrepareRefresh => HeldResources { prepared_refresh: true, ..h },
        ProgramStep::AuthorizeRuntime => HeldResources { license_operation: true, ..h },
        ProgramStep::ReserveProgramLimit => HeldResources { program_limit: true, ..h },
        _ => h,
    }
}

impl ProgramTransaction {
    /// The commit step of this transaction.
    pub open spec fn commit_step(self) -> ProgramStep {
        if !self.is_update {
            ProgramStep::CommitCreate
        } else if self.refresh_config {
            ProgramStep::CommitUpdateRefresh
        } else {
            ProgramStep::CommitUpdate
        }
    }

    /// The step after the credentials were reconciled, or found not to be needed.
    pub open spec fn step_after_credentials(self) -> ProgramStep {
        if !self.is_update {
            if self.manages_config {
                ProgramStep::MaterializeSources
            } else {
                ProgramStep::PrepareCreate
            }
        } else if self.limits_sources {
            ProgramStep::CheckSourceLimit
        } else {
            ProgramStep::PrepareUpdate
        }
    }

    /// The step after the runtime authorization or the program reservation.
    pub open spec fn step_before_commit(self) -> ProgramStep {
        if self.limits_sources {
            ProgramStep::RecheckSourceLimit
        } else {
            self.commit_step()
        }
    }

    /// The step that follows `step` when it succeeded, or none when the change is done.
    pub open spec fn step_after(self, step: ProgramStep) -> Option<ProgramStep> {
        match step {
            ProgramStep::ValidateSpec => Some(ProgramStep::AuthorizeRequest),
            ProgramStep::AuthorizeRequest => if self.is_update {
                Some(ProgramStep::LoadCurrent)
            } else if self.uses_credentials {
                Some(ProgramStep::RecoverCredentials)
            } else {
                Some(self.step_after_credentials())
            },
            ProgramStep::LoadCurrent => if self.uses_credentials {
                Some(ProgramStep::RecoverCredentials)
            } else {
                Some(self.step_after_credentials())
            },
            ProgramStep::RecoverCredentials => Some(ProgramStep::ReconcileCredentials),
            ProgramStep::ReconcileCredentials => Some(self.step_after_credentials()),
            ProgramStep::MaterializeSources => Some(ProgramStep::PrepareCreate),
            ProgramStep::CheckSourceLimit => Some(ProgramStep::PrepareUpdate),
            ProgramStep::PrepareCreate => Some(ProgramStep::AuthorizeRuntime),
            ProgramStep::PrepareUpdate => if self.refresh_config {
                Some(ProgramStep::AcquireRefreshLease)
            } else {
                Some(ProgramStep::AuthorizeRuntime)
            },
            ProgramStep::AcquireRefreshLease => Some(ProgramStep::PrepareRefresh),
            ProgramStep::PrepareRefresh => Some(ProgramStep::AuthorizeRuntime),
            ProgramStep::AuthorizeRuntime => if self.is_update {
                Some(self.step_before_commit())
            } else {
                Some(ProgramStep::ReserveProgramLimit)
            },
            ProgramStep::ReserveProgramLimit => Some(self.step_before_commit()),
            ProgramStep::RecheckSourceLimit => Some(self.commit_step()),
            ProgramStep::CommitCreate | ProgramStep::CommitUpdate | ProgramStep::CommitUpdateRefresh =>
                if self.uses_credentials {
                Some(ProgramStep::CommitCredentials)
            } else {
                None
            },
            ProgramStep::CommitCredentials => None,
            ProgramStep::RecoverCredentialJournal => None,
        }
    }

    /// How the credential transaction is settled when the transaction failed.
    pub open spec fn settle_credentials(self) -> ProgramAction {
        if self.quiet_rollback {
            ProgramAction::AbandonCredentials
        } else {
            ProgramAction::RollBackCredentials
        }
    }

    /// What the application does next.
    pub open spec fn planned_action(self) -> ProgramAction {
        match self.stage {
            TransactionStage::Awaiting(step) => ProgramAction::Perform(step),
            TransactionStage::Settling => {
                let h = self.held;
                if self.credentials_first && h.credentials {
                    self.settle_credentials()
                } else if h.program_limit {
                    ProgramAction::ReleaseProgramLimit
                } else if h.license_operation {
                    ProgramAction::ReleaseLicenseOperation
                } else if h.prepared_create {
                    ProgramAction::DiscardPreparedCreate
                } else if h.prepared_refresh {
                    ProgramAction::DiscardPreparedRefresh
                } else if h.credentials {
                    self.settle_credentials()
                } else if h.refresh_lease {
                    ProgramAction::ReleaseRefreshLease
                } else {
                    match self.failure {
                        None => ProgramAction::Succeed,
                        Some(f) => ProgramAction::Fail(f),
                    }
                }
            },
        }
    }

    /// The transaction after `step` failed.
    pub open spec fn after_failure(self, step: ProgramStep) -> Self {
        if step is CommitCredentials {
            ProgramTransaction {
                stage: TransactionStage::Awaiting(ProgramStep::RecoverCredentialJournal),
                held: held_after_step(step, self.held),
                ..self
            }
        } else {
            ProgramTransaction {
                stage: TransactionStage::Settling,
                held: held_after_step(step, self.held),
                failure: Some(ProgramFailure::Step(step)),
                quiet_rollback: step is MaterializeSources || step is CheckSourceLimit,
                credentials_first: is_commit(step),
                ..self
            }
        }
    }

    /// The error, if any, with which an update is refused after its specification was checked.
    pub open spec fn mode_error(self) -> Option<ProgramFailure> {
        if self.is_update && self.refresh_config && !self.manages_config {
            Some(ProgramFailure::ManagedConfigurationRequired)
        } else if self.is_update && self.refresh_config && self.restart {
            Some(ProgramFailure::ConflictingCommitModes)
        } else {
            None
        }
    }

    /// The transaction after `step` succeeded, with `report` as its report.
    pub open spec fn after_success(self, step: ProgramStep, report: StepReport) -> Self {
        let uses = match report {
            StepReport::LoadedCurrent { has_credentials } => if step is LoadCurrent {
                self.uses_credentials || has_credentials
            } else {
                self.uses_credentials
            },
            _ => self.uses_credentials,
        };
        let t = ProgramTransaction {
            uses_credentials: uses,
            held: held_after_success(step, self.held),
            committed: self.committed || is_commit(step),
            ..self
        };
        if step is ValidateSpec && self.mode_error() is Some {
            ProgramTransaction { stage: TransactionStage::Settling, failure: self.mode_error(), ..t }
        } else {
            match t.step_after(step) {
                Some(next) => ProgramTransaction { stage: TransactionStage::Awaiting(next), ..t },
                None => ProgramTransaction { stage: TransactionStage::Settling, ..t },
            }
        }
    }

    /// The transaction after the application performed the planned action and reported `report`.
    pub open spec fn after(self, report: StepReport) -> Self {
        match self.stage {
            TransactionStage::Awaiting(step) => if report is Failed {
                self.after_failure(step)
            } else {
                self.after_success(step, report)
            },
            TransactionStage::Settling => match self.planned_action() {
                ProgramAction::ReleaseProgramLimit => ProgramTransaction {
                    held: HeldResources { program_limit: false, ..self.held },
                    ..self
                },
                ProgramAction::ReleaseLicenseOperation => ProgramTransaction {
                    held: HeldResources { license_operation: false, ..self.held },
                    ..self
                },
                ProgramAction::DiscardPreparedCreate => ProgramTransaction {
                    held: HeldResources { prepared_create: false, ..self.held },
                    ..self
                },
                ProgramAction::DiscardPreparedRefresh => ProgramTransaction {
                    held: HeldResources { prepared_refresh: false, ..self.held },
                    ..self
                },
                ProgramAction::RollBackCredentials => ProgramTransaction {
                    held: HeldResources { credentials: false, ..self.held },
                    failure: if report is Failed {
                        Some(ProgramFailure::CredentialRollback)
                    } else {
                        self.failure
                    },
                    ..self
                },
                ProgramAction::AbandonCredentials => ProgramTransaction {
                    held: HeldResources { credentials: false, ..self.held },
                    ..self
                },
                ProgramAction::ReleaseRefreshLease => ProgramTransaction {
                    held: HeldResources { refresh_lease: false, ..self.held },
                    ..self
                },
                _ => self,
            },
        }
    }

    /// Whether `step` is a step of this transaction at the point its flags allow.
    pub open spec fn step_fits(self, step: ProgramStep) -> bool {
        match step {
            ProgramStep::ValidateSpec | ProgramStep::AuthorizeRequest | ProgramStep::AuthorizeRuntime => true,
            ProgramStep::LoadCurrent | ProgramStep::PrepareUpdate => self.is_update,
            ProgramStep::RecoverCredentials | ProgramStep::ReconcileCredentials
            | ProgramStep::CommitCredentials => self.uses_credentials,
            ProgramStep::RecoverCredentialJournal => self.uses_credentials,
            ProgramStep::MaterializeSources => !self.is_update && self.manages_config,
            ProgramStep::CheckSourceLimit => self.is_update && self.limits_sources,
            ProgramStep::PrepareCreate | ProgramStep::ReserveProgramLimit | ProgramStep::CommitCreate =>
                !self.is_update,
            ProgramStep::AcquireRefreshLease | ProgramStep::PrepareRefresh
            | ProgramStep::CommitUpdateRefresh => self.is_update && self.refresh_config,
            ProgramStep::CommitUpdate => self.is_update && !self.refresh_config,
            ProgramStep::RecheckSourceLimit => self.limits_sources,
        }
    }

    /// What the transaction holds when `step` is handed out.
    pub open spec fn held_before(self, step: ProgramStep) -> HeldResources {
        let u = self.uses_credentials;
        let r = self.refresh_config;
        if !self.is_update {
            match step {
                ProgramStep::MaterializeSources | ProgramStep::PrepareCreate => HeldResources {
                    credentials: u,
                    ..nothing_held()
                },
                ProgramStep::AuthorizeRuntime => HeldResources {
                    credentials: u,
                    prepared_create: true,
                    ..nothing_held()
                },
                ProgramStep::ReserveProgramLimit => HeldResources {
                    credentials: u,
                    prepared_create: true,
                    license_operation: true,
                    ..nothing_held()
                },
                ProgramStep::RecheckSourceLimit | ProgramStep::CommitCreate => HeldResources {
                    credentials: u,
                    prepared_create: true,
                    license_operation: true,
                    program_limit: true,
                    ..nothing_held()
                },
                ProgramStep::CommitCredentials => HeldResources { credentials: true, ..nothing_held() },
                _ => nothing_held(),
            }
        } else {
            match step {
                ProgramStep::CheckSourceLimit | ProgramStep::PrepareUpdate
                | ProgramStep::AcquireRefreshLease => HeldResources { credentials: u, ..nothing_held() },
                ProgramStep::PrepareRefresh => HeldResources {
                    credentials: u,
                    refresh_lease: true,
                    ..nothing_held()
                },
                ProgramStep::AuthorizeRuntime => HeldResources {
                    credentials: u,
                    refresh_lease: r,
                    prepared_refresh: r,
                    ..nothing_held()
                },
                ProgramStep::RecheckSourceLimit | ProgramStep::CommitUpdate
                | ProgramStep::CommitUpdateRefresh => HeldResources {
                    credentials: u,
                    refresh_lease: r,
                    prepared_refresh: r,
                    license_operation: true,
                    ..nothing_held()
                },
                ProgramStep::CommitCredentials => HeldResources {
                    credentials: true,
                    refresh_lease: r,
                    license_operation: true,
                    ..nothing_held()
                },
                ProgramStep::RecoverCredentialJournal => HeldResources {
                    refresh_lease: r,
                    license_operation: true,
                    ..nothing_held()
                },
                _ => nothing_held(),
            }
        }
    }

    /// The transaction's invariant: a handed-out step fits the transaction and finds exactly
    /// what comes before it held; a failure ends the steps; a transaction that settles without
    /// a failure has committed and holds nothing but its authorization and lease.
    pub open spec fn wf(self) -> bool {
        &&& !self.is_update ==> !self.refresh_config && !self.restart
        &&& match self.stage {
            TransactionStage::Awaiting(step) => {
                &&& self.step_fits(step)
                &&& self.held == self.held_before(step)
                &&& self.committed == (step is CommitCredentials || step is RecoverCredentialJournal)
                &&& self.failure is None
            },
            TransactionStage::Settling => self.failure is None ==> {
                &&& self.committed
                &&& !self.held.credentials
                &&& !self.held.prepared_create
                &&& !self.held.prepared_refresh
                &&& !self.held.program_limit
            },
        }
    }

    /// The transaction of creating a program from a specification that has credentials or
    /// not, manages its configuration or not, and counts `source_count` configuration sources.
    pub open spec fn creation(has_credentials: bool, manages_config: bool, source_count: u64) -> Self {
        ProgramTransaction {
            is_update: false,
            refresh_config: false,
            restart: false,
            manages_config,
            limits_sources: source_count > 0,
            uses_credentials: has_credentials,
            stage: TransactionStage::Awaiting(ProgramStep::ValidateSpec),
            held: nothing_held(),
            failure: None,
            quiet_rollback: false,
            credentials_first: false,
            committed: false,
        }
    }

    /// The transaction of updating a program, refreshing its managed configuration or not,
    /// and restarting it or not.
    pub open spec fn update(
        has_credentials: bool,
        manages_config: bool,
        source_count: u64,
        refresh_config: bool,
        restart: bool,
    ) -> Self {
        ProgramTransaction {
            is_update: true,
            refresh_config,
            restart,
            manages_config,
            limits_sources: source_count > 0,
            uses_credentials: has_credentials,
            stage: TransactionStage::Awaiting(ProgramStep::ValidateSpec),
            held: nothing_held(),
            failure: None,
            quiet_rollback: false,
            credentials_first: false,
            committed: false,
        }
    }
}

proof fn lemma_success_keeps_wf(t: ProgramTransaction, step: ProgramStep, report: StepReport)
    requires
        t.wf(),
        t.stage == TransactionStage::Awaiting(step),
        !(report is Failed),
    ensures
        t.after_success(step, report).wf(),
{
    let n = t.after_success(step, report);
    match step {
        ProgramStep::ValidateSpec => {},
        ProgramStep::AuthorizeRequest => {},
        ProgramStep::LoadCurrent => {},
        ProgramStep::RecoverCredentials => {},
        ProgramStep::ReconcileCredentials => {},
        ProgramStep::MaterializeSources => {},
        ProgramStep::CheckSourceLimit => {},
        ProgramStep::PrepareCreate => {},
        ProgramStep::PrepareUpdate => {},
        ProgramStep::AcquireRefreshLease => {},
        ProgramStep::PrepareRefresh => {},
        ProgramStep::AuthorizeRuntime => {},
        ProgramStep::ReserveProgramLimit => {},
        ProgramStep::RecheckSourceLimit => {},
        ProgramStep::CommitCreate => {},
        ProgramStep::CommitUpdate => {},
        ProgramStep::CommitUpdateRefresh => {},
        ProgramStep::CommitCredentials => {},
        ProgramStep::RecoverCredentialJournal => {},
    }
}

proof fn lemma_failure_keeps_wf(t: ProgramTransaction, step: ProgramStep)
    requires
        t.wf(),
        t.stage == TransactionStage::Awaiting(step),
    ensures
        t.after_failure(step).wf(),
{
}

proof fn lemma_settling_keeps_wf(t: ProgramTransaction, report: StepReport)
    requires
        t.wf(),
        t.stage == TransactionStage::Settling,
    ensures
        t.after(report).wf(),
{
}

/// Every report keeps the transaction's invariant.
pub proof fn lemma_after_keeps_wf(t: ProgramTransaction, report: StepReport)
    requires
        t.wf(),
    ensures
        t.after(report).wf(),
{
    match t.stage {
        TransactionStage::Awaiting(step) => {
            if report is Failed {
                lemma_failure_keeps_wf(t, step);
            } else {
                lemma_success_keeps_wf(t, step, report);
            }
        },
        TransactionStage::Settling => lemma_settling_keeps_wf(t, report),
    }
}

/// A program change is committed only at the final boundary: registering a program happens
/// only while its preparation, a live runtime authorization and a reserved program are held,
/// and an update is committed only under a live runtime authorization (with its prepared
/// refresh and refresh lease when it refreshes the configuration).
pub proof fn lemma_commit_needs_authorization(t: ProgramTransaction)
    requires
        t.wf(),
    ensures
        t.planned_action() == ProgramAction::Perform(ProgramStep::CommitCreate) ==> {
            &&& t.held.prepared_create
            &&& t.held.license_operation
            &&& t.held.program_limit
        },
        t.planned_action() == ProgramAction::Perform(ProgramStep::CommitUpdate)
            ==> t.held.license_operation,
        t.planned_action() == ProgramAction::Perform(ProgramStep::CommitUpdateRefresh) ==> {
            &&& t.held.license_operation
            &&& t.held.prepared_refresh
            &&& t.held.refresh_lease
        },
{
}

/// A transaction ends only when it holds nothing: every credential transaction it opened was
/// committed or rolled back, every preparation was used or discarded, and every reservation,
/// authorization and lease was given back.
pub proof fn lemma_end_holds_nothing(t: ProgramTransaction)
    ensures
        (t.planned_action() is Succeed || t.planned_action() is Fail) ==> t.held == nothing_held(),
{
}

/// A transaction succeeds only when its program change was committed.
pub proof fn lemma_success_is_committed(t: ProgramTransaction)
    requires
        t.wf(),
    ensures
        t.planned_action() is Succeed ==> t.committed,
{
}

/// Once a transaction failed, no further step is handed out, and whatever is reported it
/// stays failed.
pub proof fn lemma_failure_is_final(t: ProgramTransaction, report: StepReport)
    requires
        t.wf(),
        t.failure is Some,
    ensures
        !(t.planned_action() is Perform),
        t.after(report).failure is Some,
{
}

/// A transaction that ended stays as it is, whatever is reported.
pub proof fn lemma_end_is_final(t: ProgramTransaction, report: StepReport)
    ensures
        (t.planned_action() is Succeed || t.planned_action() is Fail) ==> t.after(report) == t,
{
}

/// The number of things a transaction holds.
pub open spec fn held_count(h: HeldResources) -> nat {
    (if h.credentials { 1nat } else { 0nat }) + (if h.prepared_create { 1nat } else { 0nat }) + (
    if h.prepared_refresh { 1nat } else { 0nat }) + (if h.license_operation { 1nat } else { 0nat })
        + (if h.program_limit { 1nat } else { 0nat }) + (if h.refresh_lease { 1nat } else { 0nat })
}

/// Settling always makes progress: each settling action gives one held thing back, so a
/// failed or finished transaction ends after at most as many actions as it holds things.
pub proof fn lemma_settling_gives_back(t: ProgramTransaction, report: StepReport)
    requires
        t.stage == TransactionStage::Settling,
        !(t.planned_action() is Succeed || t.planned_action() is Fail),
    ensures
        held_count(t.after(report).held) + 1 == held_count(t.held),
        t.after(report).stage == TransactionStage::Settling,
{
}

fn step_is_commit(step: ProgramStep) -> (commit: bool)
    ensures
        commit == is_commit(step),
{
    match step {
        ProgramStep::CommitCreate | ProgramStep::CommitUpdate | ProgramStep::CommitUpdateRefresh => true,
        _ => false,
    }
}

fn give_back_after(step: ProgramStep, held: HeldResources) -> (after: HeldResources)
    ensures
        after == held_after_step(step, held),
{
    match step {
        ProgramStep::CommitCreate => HeldResources {
            prepared_create: false,
            program_limit: false,
            license_operation: false,
            ..held
        },
        ProgramStep::CommitUpdateRefresh => HeldResources { prepared_refresh: false, ..held },
        ProgramStep::CommitCredentials => HeldResources { credentials: false, ..held },
        _ => held,
    }
}

fn acquire_after(step: ProgramStep, held: HeldResources) -> (after: HeldResources)
    ensures
        after == held_after_success(step, held),
{
    let h = give_back_after(step, held);
    match step {
        ProgramStep::ReconcileCredentials => HeldResources { credentials: true, ..h },
        ProgramStep::PrepareCreate => HeldResources { prepared_create: true, ..h },
        ProgramStep::AcquireRefreshLease => HeldResources { refresh_lease: true, ..h },
        ProgramStep::PrepareRefresh => HeldResources { prepared_refresh: true, ..h },
        ProgramStep::AuthorizeRuntime => HeldResources { license_operation: true, ..h },
        ProgramStep::ReserveProgramLimit => HeldResources { program_limit: true, ..h },
        _ => h,
    }
}

impl ProgramTransaction {
    /// The transaction of creating a program whose specification has credentials or not,
    /// manages its configuration or not, and counts `source_count` configuration sources.
    pub fn for_create(has_credentials: bool, manages_config: bool, source_count: u64) -> (t: Self)
        ensures
            t == Self::creation(has_credentials, manages_config, source_count),
            t.wf(),
    {
        ProgramTransaction {
            is_update: false,
            refresh_config: false,
            restart: false,
            manages_config,
            limits_sources: source_count > 0,
            uses_credentials: has_credentials,
            stage: TransactionStage::Awaiting(ProgramStep::ValidateSpec),
            held: HeldResources {
                credentials: false,
                prepared_create: false,
                prepared_refresh: false,
                license_operation: false,
                program_limit: false,
                refresh_lease: false,
            },
            failure: None,
            quiet_rollback: false,
            credentials_first: false,
            committed: false,
        }
    }

    /// The transaction of updating a program to a specification that has credentials or not,
    /// manages its configuration or not and counts `source_count` configuration sources,
    /// refreshing the managed configuration in the same commit or not, and restarting the
    /// program after the update or not.
    pub fn for_update(
        has_credentials: bool,
        manages_config: bool,
        source_count: u64,
        refresh_config: bool,
        restart: bool,
    ) -> (t: Self)
        ensures
            t == Self::update(has_credentials, manages_config, source_count, refresh_config, restart),
            t.wf(),
    {
        ProgramTransaction {
            is_update: true,
            refresh_config,
            restart,
            manages_config,
            limits_sources: source_count > 0,
            uses_credentials: has_credentials,
            stage: TransactionStage::Awaiting(ProgramStep::ValidateSpec),
            held: HeldResources {
                credentials: false,
                prepared_create: false,
                prepared_refresh: false,
                license_operation: false,
                program_limit: false,
                refresh_lease: false,
            },
            failure: None,
            quiet_rollback: false,
            credentials_first: false,
            committed: false,
        }
    }

    fn settling_action(&self) -> (action: ProgramAction)
        ensures
            action == self.settle_credentials(),
    {
        if self.quiet_rollback {
            ProgramAction::AbandonCredentials
        } else {
            ProgramAction::RollBackCredentials
        }
    }

    /// What the application does next.
    pub fn next_action(&self) -> (action: ProgramAction)
        ensures
            action == self.planned_action(),
    {
        match self.stage {
            TransactionStage::Awaiting(step) => ProgramAction::Perform(step),
            TransactionStage::Settling => {
                let h = self.held;
                if self.credentials_first && h.credentials {
                    self.settling_action()
                } else if h.program_limit {
                    ProgramAction::ReleaseProgramLimit
                } else if h.license_operation {
                    ProgramAction::ReleaseLicenseOperation
                } else if h.prepared_create {
                    ProgramAction::DiscardPreparedCreate
                } else if h.prepared_refresh {
                    ProgramAction::DiscardPreparedRefresh
                } else if h.credentials {
                    self.settling_action()
                } else if h.refresh_lease {
                    ProgramAction::ReleaseRefreshLease
                } else {
                    match self.failure {
                        None => ProgramAction::Succeed,
                        Some(f) => ProgramAction::Fail(f),
                    }
                }
            },
        }
    }

    fn commit_step_exec(&self) -> (step: ProgramStep)
        ensures
            step == self.commit_step(),
    {
        if !self.is_update {
            ProgramStep::CommitCreate
        } else if self.refresh_config {
            ProgramStep::CommitUpdateRefresh
        } else {
            ProgramStep::CommitUpdate
        }
    }

    fn step_after_credentials_exec(&self) -> (step: ProgramStep)
        ensures
            step == self.step_after_credentials(),
    {
        if !self.is_update {
            if self.manages_config {
                ProgramStep::MaterializeSources
            } else {
                ProgramStep::PrepareCreate
            }
        } else if self.limits_sources {
            ProgramStep::CheckSourceLimit
        } else {
            ProgramStep::PrepareUpdate
        }
    }

    fn step_before_commit_exec(&self) -> (step: ProgramStep)
        ensures
            step == self.step_before_commit(),
    {
        if self.limits_sources {
            ProgramStep::RecheckSourceLimit
        } else {
            self.commit_step_exec()
        }
    }

    fn next_step(&self, step: ProgramStep) -> (next: Option<ProgramStep>)
        ensures
            next == self.step_after(step),
    {
        match step {
            ProgramStep::ValidateSpec => Some(ProgramStep::AuthorizeRequest),
            ProgramStep::AuthorizeRequest => if self.is_update {
                Some(ProgramStep::LoadCurrent)
            } else if self.uses_credentials {
                Some(ProgramStep::RecoverCredentials)
            } else {
                Some(self.step_after_credentials_exec())
            },
            ProgramStep::LoadCurrent => if self.uses_credentials {
                Some(ProgramStep::RecoverCredentials)
            } else {
                Some(self.step_after_credentials_exec())
            },
            ProgramStep::RecoverCredentials => Some(ProgramStep::ReconcileCredentials),
            ProgramStep::ReconcileCredentials => Some(self.step_after_credentials_exec()),
            ProgramStep::MaterializeSources => Some(ProgramStep::PrepareCreate),
            ProgramStep::CheckSourceLimit => Some(ProgramStep::PrepareUpdate),
            ProgramStep::PrepareCreate => Some(ProgramStep::AuthorizeRuntime),
            ProgramStep::PrepareUpdate => if self.refresh_config {
                Some(ProgramStep::AcquireRefreshLease)
            } else {
                Some(ProgramStep::AuthorizeRuntime)
            },
            ProgramStep::AcquireRefreshLease => Some(ProgramStep::PrepareRefresh),
            ProgramStep::PrepareRefresh => Some(ProgramStep::AuthorizeRuntime),
            ProgramStep::AuthorizeRuntime => if self.is_update {
                Some(self.step_before_commit_exec())
            } else {
                Some(ProgramStep::ReserveProgramLimit)
            },
            ProgramStep::ReserveProgramLimit => Some(self.step_before_commit_exec()),
            ProgramStep::RecheckSourceLimit => Some(self.commit_step_exec()),
            ProgramStep::CommitCreate | ProgramStep::CommitUpdate | ProgramStep::CommitUpdateRefresh =>
                if self.uses_credentials {
                Some(ProgramStep::CommitCredentials)
            } else {
                None
            },
            ProgramStep::CommitCredentials => None,
            ProgramStep::RecoverCredentialJournal => None,
        }
    }

    fn mode_error_exec(&self) -> (error: Option<ProgramFailure>)
        ensures
            error == self.mode_error(),
    {
        if self.is_update && self.refresh_config && !self.manages_config {
            Some(ProgramFailure::ManagedConfigurationRequired)
        } else if self.is_update && self.refresh_config && self.restart {
            Some(ProgramFailure::ConflictingCommitModes)
        } else {
            None
        }
    }

    fn failed(self, step: ProgramStep) -> (t: Self)
        ensures
            t == self.after_failure(step),
    {
        let held = give_back_after(step, self.held);
        if matches!(step, ProgramStep::CommitCredentials) {
            ProgramTransaction {
                stage: TransactionStage::Awaiting(ProgramStep::RecoverCredentialJournal),
                held,
                ..self
            }
        } else {
            ProgramTransaction {
                stage: TransactionStage::Settling,
                held,
                failure: Some(ProgramFailure::Step(step)),
                quiet_rollback: matches!(step, ProgramStep::MaterializeSources)
                    || matches!(step, ProgramStep::CheckSourceLimit),
                credentials_first: step_is_commit(step),
                ..self
            }
        }
    }

    fn succeeded(self, step: ProgramStep, report: StepReport) -> (t: Self)
        ensures
            t == self.after_success(step, report),
    {
        let uses = match report {
            StepReport::LoadedCurrent { has_credentials } => if matches!(step, ProgramStep::LoadCurrent) {
                self.uses_credentials || has_credentials
            } else {
                self.uses_credentials
            },
            _ => self.uses_credentials,
        };
        let t = ProgramTransaction {
            uses_credentials: uses,
            held: acquire_after(step, self.held),
            committed: self.committed || step_is_commit(step),
            ..self
        };
        let mode_error = self.mode_error_exec();
        if matches!(step, ProgramStep::ValidateSpec) && mode_error.is_some() {
            ProgramTransaction { stage: TransactionStage::Settling, failure: mode_error, ..t }
        } else {
            match t.next_step(step) {
                Some(next) => ProgramTransaction { stage: TransactionStage::Awaiting(next), ..t },
                None => ProgramTransaction { stage: TransactionStage::Settling, ..t },
            }
        }
    }

    fn settled(self, report: StepReport) -> (t: Self)
        requires
            self.stage == TransactionStage::Settling,
        ensures
            t == self.after(report),
    {
        let mut h = self.held;
        let mut failure = self.failure;
        match self.next_action() {
            ProgramAction::ReleaseProgramLimit => {
                h.program_limit = false;
            },
            ProgramAction::ReleaseLicenseOperation => {
                h.license_operation = false;
            },
            ProgramAction::DiscardPreparedCreate => {
                h.prepared_create = false;
            },
            ProgramAction::DiscardPreparedRefresh => {
                h.prepared_refresh = false;
            },
            ProgramAction::RollBackCredentials => {
                h.credentials = false;
                if matches!(report, StepReport::Failed) {
                    failure = Some(ProgramFailure::CredentialRollback);
                }
            },
            ProgramAction::AbandonCredentials => {
                h.credentials = false;
            },
            ProgramAction::ReleaseRefreshLease => {
                h.refresh_lease = false;
            },
            _ => {},
        }
        ProgramTransaction { held: h, failure, ..self }
    }

    /// Records the report of the action that `next_action` handed out: a step moves the
    /// transaction on, or into settling when it failed; a settling action gives back what it
    /// settled. Once the transaction ended, reports change nothing.
    pub fn record(&mut self, report: StepReport)
        requires
            old(self).wf(),
        ensures
            *final(self) == old(self).after(report),
            final(self).wf(),
    {
        proof {
            lemma_after_keeps_wf(*old(self), report);
        }
        let current = *self;
        *self = match current.stage {
            TransactionStage::Awaiting(step) => if matches!(report, StepReport::Failed) {
                current.failed(step)
            } else {
                current.succeeded(step, report)
            },
            TransactionStage::Settling => current.settled(report),
        };
    }
}

} // verus!
