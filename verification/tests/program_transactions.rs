use camellia_nexus_desktop::program_transactions::{
    ProgramAction, ProgramFailure, ProgramStep, ProgramTransaction, StepReport,
};

fn drive(mut transaction: ProgramTransaction, reports: &[StepReport]) -> Vec<ProgramAction> {
    let mut actions = Vec::new();
    let mut index = 0;
    loop {
        let action = transaction.next_action();
        actions.push(action);
        if matches!(action, ProgramAction::Succeed | ProgramAction::Fail(_)) {
            return actions;
        }
        let report = if index < reports.len() { reports[index] } else { StepReport::Succeeded };
        index += 1;
        transaction.record(report);
    }
}

use ProgramAction::{Perform, ReleaseLicenseOperation, ReleaseProgramLimit, Succeed};
use ProgramStep::{
    AcquireRefreshLease, AuthorizeRequest, AuthorizeRuntime, CheckSourceLimit, CommitCreate,
    CommitCredentials, CommitUpdate, CommitUpdateRefresh, LoadCurrent, MaterializeSources,
    PrepareCreate, PrepareRefresh, PrepareUpdate, RecheckSourceLimit, RecoverCredentialJournal,
    RecoverCredentials, ReconcileCredentials, ReserveProgramLimit, ValidateSpec,
};
use StepReport::{Failed, LoadedCurrent, Succeeded};

#[test]
fn creating_a_program_with_credentials_and_sources_runs_every_step() {
    let t = ProgramTransaction::for_create(true, true, 2);
    assert_eq!(
        drive(t, &[]),
        vec![
            Perform(ValidateSpec),
            Perform(AuthorizeRequest),
            Perform(RecoverCredentials),
            Perform(ReconcileCredentials),
            Perform(MaterializeSources),
            Perform(PrepareCreate),
            Perform(AuthorizeRuntime),
            Perform(ReserveProgramLimit),
            Perform(RecheckSourceLimit),
            Perform(CommitCreate),
            Perform(CommitCredentials),
            Succeed,
        ]
    );
}

#[test]
fn creating_a_plain_program_skips_credentials_and_sources() {
    let t = ProgramTransaction::for_create(false, false, 0);
    assert_eq!(
        drive(t, &[]),
        vec![
            Perform(ValidateSpec),
            Perform(AuthorizeRequest),
            Perform(PrepareCreate),
            Perform(AuthorizeRuntime),
            Perform(ReserveProgramLimit),
            Perform(CommitCreate),
            Succeed,
        ]
    );
}

#[test]
fn a_failed_source_recheck_gives_everything_back_in_order() {
    let t = ProgramTransaction::for_create(true, true, 3);
    let reports = [Succeeded, Succeeded, Succeeded, Succeeded, Succeeded, Succeeded, Succeeded, Succeeded, Failed];
    let actions = drive(t, &reports);
    assert_eq!(
        actions[9..].to_vec(),
        vec![
            ReleaseProgramLimit,
            ReleaseLicenseOperation,
            ProgramAction::DiscardPreparedCreate,
            ProgramAction::RollBackCredentials,
            ProgramAction::Fail(ProgramFailure::Step(RecheckSourceLimit)),
        ]
    );
}

#[test]
fn a_failed_materialization_lets_the_credentials_roll_themselves_back() {
    let t = ProgramTransaction::for_create(true, true, 0);
    let reports = [Succeeded, Succeeded, Succeeded, Succeeded, Failed];
    let actions = drive(t, &reports);
    assert_eq!(
        actions[5..].to_vec(),
        vec![ProgramAction::AbandonCredentials, ProgramAction::Fail(ProgramFailure::Step(MaterializeSources))]
    );
}

#[test]
fn a_failed_rollback_reports_its_own_error() {
    let t = ProgramTransaction::for_create(true, false, 0);
    // validate, authorize, recover, reconcile, prepare (fails), rollback (fails)
    let reports = [Succeeded, Succeeded, Succeeded, Succeeded, Failed, Failed];
    let actions = drive(t, &reports);
    assert_eq!(
        actions[5..].to_vec(),
        vec![ProgramAction::RollBackCredentials, ProgramAction::Fail(ProgramFailure::CredentialRollback)]
    );
}

#[test]
fn a_failed_credential_commit_recovers_the_journal_and_still_succeeds() {
    let t = ProgramTransaction::for_create(true, false, 0);
    let reports = [Succeeded, Succeeded, Succeeded, Succeeded, Succeeded, Succeeded, Succeeded, Succeeded, Failed];
    let actions = drive(t, &reports);
    assert_eq!(actions[8..].to_vec(), vec![Perform(CommitCredentials), Perform(RecoverCredentialJournal), Succeed]);
}

#[test]
fn an_update_that_refreshes_its_configuration_holds_a_lease() {
    let t = ProgramTransaction::for_update(false, true, 1, true, false);
    let reports = [Succeeded, Succeeded, LoadedCurrent { has_credentials: true }];
    assert_eq!(
        drive(t, &reports),
        vec![
            Perform(ValidateSpec),
            Perform(AuthorizeRequest),
            Perform(LoadCurrent),
            Perform(RecoverCredentials),
            Perform(ReconcileCredentials),
            Perform(CheckSourceLimit),
            Perform(PrepareUpdate),
            Perform(AcquireRefreshLease),
            Perform(PrepareRefresh),
            Perform(AuthorizeRuntime),
            Perform(RecheckSourceLimit),
            Perform(CommitUpdateRefresh),
            Perform(CommitCredentials),
            ReleaseLicenseOperation,
            ProgramAction::ReleaseRefreshLease,
            Succeed,
        ]
    );
}

#[test]
fn a_failed_update_commit_rolls_back_credentials_before_giving_back_its_authorization() {
    let t = ProgramTransaction::for_update(true, false, 0, false, true);
    // validate, authorize, load, recover, reconcile, prepare update, authorize runtime, commit (fails)
    let reports = [Succeeded, Succeeded, Succeeded, Succeeded, Succeeded, Succeeded, Succeeded, Failed];
    let actions = drive(t, &reports);
    assert_eq!(
        actions[7..].to_vec(),
        vec![
            Perform(CommitUpdate),
            ProgramAction::RollBackCredentials,
            ReleaseLicenseOperation,
            ProgramAction::Fail(ProgramFailure::Step(CommitUpdate)),
        ]
    );
}

#[test]
fn a_refresh_without_managed_configuration_is_refused() {
    let t = ProgramTransaction::for_update(false, false, 0, true, false);
    assert_eq!(
        drive(t, &[]),
        vec![Perform(ValidateSpec), ProgramAction::Fail(ProgramFailure::ManagedConfigurationRequired)]
    );
}

#[test]
fn a_refresh_and_a_restart_together_are_refused() {
    let t = ProgramTransaction::for_update(false, true, 0, true, true);
    assert_eq!(
        drive(t, &[]),
        vec![Perform(ValidateSpec), ProgramAction::Fail(ProgramFailure::ConflictingCommitModes)]
    );
}

#[test]
fn an_invalid_specification_fails_at_once() {
    let t = ProgramTransaction::for_update(true, true, 1, false, false);
    assert_eq!(drive(t, &[Failed]), vec![Perform(ValidateSpec), ProgramAction::Fail(ProgramFailure::Step(ValidateSpec))]);
}
