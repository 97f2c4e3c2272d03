use camellia_nexus_desktop::credential_reconcile::{
    credential_binding_digest, credential_bindings, credentials_match_sources, has_credentials,
    plan_journal_recovery, reconcile_credentials, CredentialError, JournalRecovery,
};
use camellia_nexus_desktop::credentials::{
    credential_id_for, valid_credential_id, CredentialRecord, CredentialSet, CredentialSnapshot,
};
use camellia_nexus_desktop::managed::{ConfigSource, SourceAuthentication};

fn remote(id: &str, username: &str, credential_id: Option<&str>, password: Option<&str>) -> ConfigSource {
    ConfigSource::Remote {
        id: id.into(),
        name: "Primary".into(),
        enabled: true,
        url: "https://example.test/config.json".into(),
        authentication: Some(SourceAuthentication::Basic {
            username: username.into(),
            credential_id: credential_id.map(str::to_owned),
            password: password.map(str::to_owned),
        }),
    }
}

fn bound_credential(source: &ConfigSource) -> (Option<String>, Option<String>, String) {
    match source {
        ConfigSource::Remote {
            authentication: Some(SourceAuthentication::Basic { username, credential_id, password }),
            ..
        } => (credential_id.clone(), password.clone(), username.clone()),
        _ => panic!("authentication expected"),
    }
}

#[test]
fn passwords_are_replaced_by_bound_credential_references() {
    let mut credentials = CredentialSet::new();
    let mut sources = vec![remote("primary", "subscriber", None, Some("secret"))];
    reconcile_credentials(&mut credentials, "credential-test", &mut sources).expect("reconcile");
    let (credential_id, password, username) = bound_credential(&sources[0]);
    assert!(credential_id.as_deref().is_some_and(|id| id.starts_with("cfg-")));
    assert!(valid_credential_id(credential_id.as_deref().unwrap()));
    assert_eq!(credential_id.as_deref(), Some(credential_id_for("credential-test", "primary").as_str()));
    assert!(password.is_none());
    let snapshot = CredentialSnapshot::of(credentials);
    assert_eq!(snapshot.basic_password(credential_id.as_deref(), &username).ok().as_deref(), Some("secret"));
}

#[test]
fn a_saved_password_is_kept_for_the_same_user_only() {
    let mut credentials = CredentialSet::new();
    let mut first = vec![remote("primary", "subscriber", None, Some("first"))];
    reconcile_credentials(&mut credentials, "p", &mut first).expect("first save");

    let mut kept = vec![remote("primary", "subscriber", None, None)];
    reconcile_credentials(&mut credentials, "p", &mut kept).expect("password kept");
    let (credential_id, _, _) = bound_credential(&kept[0]);
    assert_eq!(credentials.password_for(credential_id.as_deref().unwrap(), "subscriber").as_deref(), Some("first"));

    let mut other_user = vec![remote("primary", "someone-else", None, Some(""))];
    assert_eq!(
        reconcile_credentials(&mut credentials, "p", &mut other_user),
        Err(CredentialError::Missing)
    );
    assert_eq!(bound_credential(&other_user[0]).1.as_deref(), Some(""));
    assert_eq!(credentials.password_for(credential_id.as_deref().unwrap(), "subscriber").as_deref(), Some("first"));
    assert_eq!(CredentialError::Missing.message(), "The remote configuration credential is unavailable");
}

#[test]
fn removing_a_source_drops_its_credential_but_keeps_other_programs() {
    let mut credentials = CredentialSet::new();
    let mut a = vec![remote("primary", "u", None, Some("pa"))];
    let mut b = vec![remote("primary", "u", None, Some("pb"))];
    reconcile_credentials(&mut credentials, "a", &mut a).expect("a");
    reconcile_credentials(&mut credentials, "b", &mut b).expect("b");
    let a_id = bound_credential(&a[0]).0.unwrap();
    let b_id = bound_credential(&b[0]).0.unwrap();
    assert_ne!(a_id, b_id);
    let mut none: Vec<ConfigSource> = Vec::new();
    reconcile_credentials(&mut credentials, "a", &mut none).expect("a without sources");
    assert_eq!(credentials.password_for(&a_id, "u"), None);
    assert_eq!(credentials.password_for(&b_id, "u").as_deref(), Some("pb"));
    credentials.remove_program_records("b");
    assert_eq!(credentials.password_for(&b_id, "u"), None);
    credentials.insert(
        "x".into(),
        CredentialRecord { program_id: "c".into(), source_id: "s".into(), username: "u".into(), password: "p".into() },
    );
    assert_eq!(credentials.password_for("x", "u").as_deref(), Some("p"));
}

#[test]
fn bindings_are_sorted_and_must_be_consistent() {
    let sources = vec![
        remote("zeta", "u1", Some("cfg-z"), None),
        ConfigSource::Local { id: "local".into(), name: "L".into(), enabled: true, path: "a.json".into() },
        remote("alpha", "u2", Some("cfg-a"), None),
    ];
    assert!(has_credentials(&sources));
    assert!(!has_credentials(&vec![sources[1].clone_local()]));
    let bindings = credential_bindings(&sources).ok().expect("bindings");
    assert_eq!(
        bindings,
        vec![
            ("alpha".to_owned(), "u2".to_owned(), "cfg-a".to_owned()),
            ("zeta".to_owned(), "u1".to_owned(), "cfg-z".to_owned())
        ]
    );
    let unbound = vec![remote("alpha", "u", None, None)];
    assert_eq!(credential_bindings(&unbound).err(), Some(CredentialError::Corrupt));
    let twice = vec![remote("alpha", "u", Some("c1"), None), remote("alpha", "v", Some("c2"), None)];
    assert_eq!(credential_bindings(&twice).err(), Some(CredentialError::Corrupt));
}

trait CloneLocal {
    fn clone_local(&self) -> ConfigSource;
}

impl CloneLocal for ConfigSource {
    fn clone_local(&self) -> ConfigSource {
        match self {
            ConfigSource::Local { id, name, enabled, path } => {
                ConfigSource::Local { id: id.clone(), name: name.clone(), enabled: *enabled, path: path.clone() }
            }
            _ => panic!("local source expected"),
        }
    }
}

#[test]
fn stored_credentials_match_the_bound_sources() {
    let mut credentials = CredentialSet::new();
    let mut sources = vec![remote("primary", "subscriber", None, Some("secret"))];
    reconcile_credentials(&mut credentials, "p", &mut sources).expect("reconcile");
    assert!(credentials_match_sources(&credentials, "p", &sources));
    let renamed = vec![remote("primary", "other", bound_credential(&sources[0]).0.as_deref(), None)];
    assert!(!credentials_match_sources(&credentials, "p", &renamed));
    assert!(!credentials_match_sources(&credentials, "p", &Vec::new()));
}

#[test]
fn interrupted_updates_keep_committed_credentials_and_restore_the_rest() {
    let mut credentials = CredentialSet::new();
    let mut sources = vec![remote("primary", "subscriber", None, Some("secret"))];
    reconcile_credentials(&mut credentials, "p", &mut sources).expect("reconcile");
    let digest = credential_binding_digest("p", &sources).ok().expect("digest");
    assert!(digest.starts_with("sha256:"));
    assert_eq!(digest.len(), "sha256:".len() + 64);
    assert_eq!(credential_binding_digest("p", &sources).ok(), Some(digest.clone()));
    assert_ne!(credential_binding_digest("q", &sources).ok(), Some(digest.clone()));

    assert_eq!(
        plan_journal_recovery(1, &Some(digest.clone()), Some(("p", &sources))),
        Ok(JournalRecovery::KeepCommitted { verify_program: true })
    );
    assert_eq!(
        plan_journal_recovery(1, &Some("sha256:other".into()), Some(("p", &sources))),
        Ok(JournalRecovery::RestorePrevious)
    );
    assert_eq!(plan_journal_recovery(1, &None, None), Ok(JournalRecovery::KeepCommitted { verify_program: false }));
    assert_eq!(plan_journal_recovery(1, &Some(digest.clone()), None), Ok(JournalRecovery::RestorePrevious));
    assert_eq!(plan_journal_recovery(1, &None, Some(("p", &sources))), Ok(JournalRecovery::RestorePrevious));
    assert_eq!(plan_journal_recovery(2, &None, None), Err(CredentialError::CorruptJournal));
    let unbound = vec![remote("primary", "u", None, None)];
    assert_eq!(
        plan_journal_recovery(1, &Some(digest), Some(("p", &unbound))),
        Err(CredentialError::Corrupt)
    );
}
