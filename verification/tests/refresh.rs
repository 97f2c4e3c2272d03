use camellia_nexus_desktop::license_policy::ErrorCode;
use camellia_nexus_desktop::managed::ConfigSource;
use camellia_nexus_desktop::privileges::{PrivilegePolicy, PrivilegeRequirement};
use camellia_nexus_desktop::refresh::{
    enabled_source_count, program_is_active, refresh_assesses_privileges, refresh_deferred,
    refresh_deferred_message, refresh_needs_privilege_broker, ProgramRunState, RefreshCoordinator,
    RefreshRefusal,
};

#[test]
fn shutdown_prevents_new_configuration_refresh_leases() {
    let mut coordinator = RefreshCoordinator::new();
    let active_id = "active-refresh";
    let next_id = "next-refresh";
    coordinator.try_acquire(active_id).expect("active refresh");

    coordinator.begin_shutdown();
    assert!(coordinator.is_shutting_down());
    let error = coordinator.try_acquire(next_id).err().expect("shutdown must reject a new refresh");
    assert_eq!(error.code(), ErrorCode::InvalidState);

    coordinator.release(active_id);
    let error = coordinator
        .try_acquire(active_id)
        .err()
        .expect("dropping an in-flight lease must not reopen scheduling");
    assert_eq!(error.code(), ErrorCode::InvalidState);
}

#[test]
fn one_refresh_per_program_at_a_time() {
    let mut coordinator = RefreshCoordinator::new();
    assert_eq!(coordinator.try_acquire("alpha"), Ok(()));
    assert_eq!(coordinator.try_acquire("beta"), Ok(()));
    assert_eq!(coordinator.try_acquire("alpha"), Err(RefreshRefusal::Busy));
    assert_eq!(RefreshRefusal::Busy.code(), ErrorCode::ProgramBusy);
    coordinator.release("alpha");
    assert_eq!(coordinator.try_acquire("alpha"), Ok(()));
}

#[test]
fn completions_are_remembered_for_active_programs_only() {
    let mut coordinator = RefreshCoordinator::new();
    coordinator.mark_completed("alpha", 10);
    coordinator.mark_completed("beta", 20);
    coordinator.mark_completed("alpha", 30);
    assert_eq!(coordinator.last_completed("alpha"), Some(30));
    coordinator.retain_completed(&vec!["beta".to_owned()]);
    assert_eq!(coordinator.last_completed("alpha"), None);
    assert_eq!(coordinator.last_completed("beta"), Some(20));
}


fn local(id: &str, enabled: bool) -> ConfigSource {
    ConfigSource::Local { id: id.to_string(), name: id.to_string(), enabled, path: format!("{id}.json") }
}

#[test]
fn a_refresh_reads_only_enabled_sources() {
    let sources = vec![local("a", true), local("b", false), local("c", true)];
    assert_eq!(enabled_source_count(&sources), 2);
    assert_eq!(enabled_source_count(&Vec::new()), 0);
}

#[test]
fn live_program_states_count_as_active() {
    assert!(program_is_active(ProgramRunState::Running));
    assert!(program_is_active(ProgramRunState::Starting));
    assert!(program_is_active(ProgramRunState::Stopping));
    assert!(program_is_active(ProgramRunState::Backoff));
    assert!(program_is_active(ProgramRunState::StopFailed));
    assert!(!program_is_active(ProgramRunState::Stopped));
    assert!(!program_is_active(ProgramRunState::Exited));
}

#[test]
fn a_refresh_of_an_elevated_live_program_waits_for_an_administrator_session() {
    assert!(!refresh_assesses_privileges(false, PrivilegePolicy::Automatic));
    assert!(!refresh_assesses_privileges(true, PrivilegePolicy::Standard));
    assert!(refresh_assesses_privileges(true, PrivilegePolicy::Automatic));
    assert!(refresh_needs_privilege_broker(PrivilegePolicy::Automatic, PrivilegeRequirement::Elevated));
    assert!(refresh_needs_privilege_broker(PrivilegePolicy::Elevated, PrivilegeRequirement::Standard));
    assert!(!refresh_needs_privilege_broker(PrivilegePolicy::Automatic, PrivilegeRequirement::Standard));
    assert!(refresh_deferred(true, true, false));
    assert!(!refresh_deferred(true, true, true));
    assert!(!refresh_deferred(false, true, false));
    assert_eq!(
        refresh_deferred_message(),
        "Automatic configuration refresh was deferred until an administrator session is opened by an explicit start"
    );
}
