use camellia_nexus_desktop::log_rotation::{
    app_log_rotates_before_write, app_log_rotates_on_open, numbered, output_rotates_before_write,
    remember_first_error, rotation_steps, session_header, session_logs, RotationStep, SessionLogs,
    LOG_MAX_BYTES, RETAINED_APP_ARCHIVES, RETAINED_OUTPUT_FILES,
};
use camellia_nexus_desktop::settings::{
    quarantine_file_name, settings_size_allowed, AppLanguage, AppLogLevel, AppSettings, LogRetention,
    SettingsError, DEFAULT_STARTUP_DELAY_MS,
};

#[test]
fn default_settings_log_warnings_and_keep_logs() {
    let settings = AppSettings::default();
    assert_eq!(settings.version, 1);
    assert_eq!(settings.log_level, AppLogLevel::Warn);
    assert_eq!(AppLogLevel::default().as_filter(), "warn");
    assert_eq!(settings.log_retention, LogRetention::Preserve);
    assert_eq!(settings.program_startup_delay_ms, DEFAULT_STARTUP_DELAY_MS);
    assert_eq!(settings.language, None);
    assert_eq!(settings.validate(), Ok(()));
    assert!(!settings.clears_logs_on_start());
}

#[test]
fn settings_accept_only_this_version_and_the_offered_spacings() {
    let chosen = AppSettings {
        version: 1,
        log_retention: LogRetention::ClearOnStart,
        log_level: AppLogLevel::Debug,
        program_startup_delay_ms: 2_000,
        language: Some(AppLanguage::Chinese),
    };
    assert_eq!(chosen.validate(), Ok(()));
    assert!(chosen.clears_logs_on_start());
    assert_eq!(AppSettings { version: 99, ..chosen }.validate(), Err(SettingsError::UnsupportedVersion));
    assert_eq!(
        AppSettings { program_startup_delay_ms: 1, ..chosen }.validate(),
        Err(SettingsError::UnsupportedStartupDelay)
    );
    assert_eq!(AppSettings { program_startup_delay_ms: 0, ..chosen }.validate(), Ok(()));
    assert_eq!(AppLogLevel::Trace.as_filter(), "trace");
}

#[test]
fn invalid_settings_are_set_aside_under_numbered_names() {
    assert_eq!(quarantine_file_name(0), "settings.invalid.json");
    assert_eq!(quarantine_file_name(1), "settings.invalid.1.json");
    assert_eq!(quarantine_file_name(1000), "settings.invalid.1000.json");
    assert!(settings_size_allowed(64 * 1024));
    assert!(!settings_size_allowed(64 * 1024 + 1));
}

#[test]
fn app_log_rotation_keeps_five_archives() {
    let steps = rotation_steps("app.log", RETAINED_APP_ARCHIVES);
    let described: Vec<String> = steps
        .iter()
        .map(|step| match step {
            RotationStep::Remove(name) => format!("remove {name}"),
            RotationStep::Move(from, to) => format!("{from} -> {to}"),
        })
        .collect();
    assert_eq!(
        described,
        [
            "remove app.log.5",
            "app.log.4 -> app.log.5",
            "app.log.3 -> app.log.4",
            "app.log.2 -> app.log.3",
            "app.log.1 -> app.log.2",
            "app.log -> app.log.1"
        ]
    );
    assert_eq!(rotation_steps("stdout.log", RETAINED_OUTPUT_FILES).len(), 4);
    assert_eq!(numbered("stdout.log", 12), "stdout.log.12");
}

#[test]
fn logs_rotate_only_past_the_limit() {
    assert!(!app_log_rotates_before_write(0, LOG_MAX_BYTES + 1));
    assert!(!app_log_rotates_before_write(LOG_MAX_BYTES - 1, 1));
    assert!(app_log_rotates_before_write(LOG_MAX_BYTES, 1));
    assert!(app_log_rotates_before_write(u64::MAX, u64::MAX));
    assert!(app_log_rotates_on_open(LOG_MAX_BYTES));
    assert!(!app_log_rotates_on_open(LOG_MAX_BYTES - 1));
    assert!(output_rotates_before_write(0, LOG_MAX_BYTES + 1));
    assert!(!output_rotates_before_write(0, LOG_MAX_BYTES));
}

#[test]
fn sessions_clear_rotate_or_append_to_output_logs() {
    assert_eq!(session_logs(true, Some(5)), SessionLogs::Clear);
    assert_eq!(session_logs(false, Some(LOG_MAX_BYTES - 256)), SessionLogs::Rotate);
    assert_eq!(session_logs(false, Some(LOG_MAX_BYTES - 257)), SessionLogs::Keep);
    assert_eq!(session_logs(false, None), SessionLogs::Keep);
    assert_eq!(session_header(0), "--- Camellia Nexus session started ---\n");
    assert_eq!(session_header(3), "\n--- Camellia Nexus session started ---\n");
}

#[test]
fn only_the_first_capture_error_is_kept() {
    let mut first = None;
    remember_first_error(&mut first, "failed to open log".into());
    remember_first_error(&mut first, "failed to write log".into());
    assert_eq!(first.as_deref(), Some("failed to open log"));
}

#[test]
fn missing_log_level_uses_warn() {
    // The stored settings `{"version":1,"logRetention":"preserve","programStartupDelayMs":750}`
    // name no log level, so the default one stands.
    let settings = AppSettings {
        version: 1,
        log_retention: LogRetention::Preserve,
        log_level: AppLogLevel::default(),
        program_startup_delay_ms: 750,
        language: None,
    };
    assert_eq!(settings.log_level, AppLogLevel::Warn);
    assert_eq!(settings.log_level.as_filter(), "warn");
    assert_eq!(settings.validate(), Ok(()));
}
