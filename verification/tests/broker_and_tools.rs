use camellia_nexus_desktop::broker_protocol::{
    check_event_frame, ensure_authorization_mode, event_exit, frame_request, queue_send_outcome,
    route_event, BrokerError, BrokerEventKind, BrokerRegistry, EventRoute, ExitOutcome, QueueSend,
    BROKER_EVENT_QUEUE_CAPACITY, FRAME_LIMIT,
};
use camellia_nexus_desktop::license_policy::{
    configuration_requirements, program_requirements, runtime_enforcement, ErrorCode,
    LicenseRuntimeImpact, ProtectedOperation, RuntimeEnforcement,
};
use camellia_nexus_desktop::platform::{
    build_command_line, environment_block, inherited_environment_keys, push_utf16, quote_windows,
    tool_outcome, OutputCollector, WINDOWS_PROCESS_STRING_LIMIT,
    ToolCompletion, ToolFailure,
};
use camellia_nexus_desktop::privileges::PrivilegePolicy;

#[test]
fn unattended_elevated_launch_fails_before_opening_an_authorization_prompt() {
    let error = ensure_authorization_mode(PrivilegePolicy::Elevated, false, false)
        .expect_err("unattended elevation must fail closed");
    assert_eq!(error.code(), ErrorCode::PrivilegeRequired);
    assert_eq!(
        ensure_authorization_mode(PrivilegePolicy::Automatic, false, false),
        Err(BrokerError::PrivilegeRequired)
    );
    assert_eq!(ensure_authorization_mode(PrivilegePolicy::Elevated, false, true), Ok(()));
}

#[test]
fn explicit_user_launch_can_request_elevation() {
    ensure_authorization_mode(PrivilegePolicy::Elevated, true, false).expect("interactive launch");
}

#[test]
fn unattended_standard_launch_does_not_require_authorization() {
    ensure_authorization_mode(PrivilegePolicy::Standard, false, false).expect("standard launch");
}

#[test]
fn broker_lifecycle_event_queue_is_bounded() {
    assert_eq!(BROKER_EVENT_QUEUE_CAPACITY, 2);
    assert_eq!(queue_send_outcome(QueueSend::Sent), Ok(()));
    assert_eq!(queue_send_outcome(QueueSend::Closed), Ok(()));
    let error = queue_send_outcome(QueueSend::Full).expect_err("an extra lifecycle event must fail the broker session");
    assert_eq!(error.code(), ErrorCode::PrivilegeBrokerFailed);
}

#[test]
fn broker_frames_are_whole_lines_within_the_limit() {
    assert_eq!(check_event_frame("", 0), Err(BrokerError::ConnectionLost));
    assert_eq!(BrokerError::ConnectionLost.code(), ErrorCode::PrivilegeBrokerConnectionLost);
    assert_eq!(check_event_frame("{}", 2), Err(BrokerError::InvalidEvent));
    assert_eq!(check_event_frame("{}\n", 3), Ok(()));
    assert_eq!(check_event_frame("{}\n", FRAME_LIMIT as usize + 1), Err(BrokerError::InvalidEvent));
    assert_eq!(frame_request(b"{}".to_vec()), Ok(b"{}\n".to_vec()));
    assert_eq!(frame_request(vec![b' '; FRAME_LIMIT as usize]).map(|f| f.len()), Ok(FRAME_LIMIT as usize + 1));
    let error = frame_request(vec![b' '; FRAME_LIMIT as usize + 1]).expect_err("oversized");
    assert_eq!(error.code(), ErrorCode::PrivilegeConfigUnsafe);
}

#[test]
fn broker_events_reach_their_program_or_end_the_session() {
    let started = BrokerEventKind::Started { program_id: "a".into() };
    assert!(matches!(route_event(&started), EventRoute::Program(p) if p == "a"));
    assert!(matches!(route_event(&BrokerEventKind::Failed { program_id: None }), EventRoute::FailSession));
    assert!(matches!(
        route_event(&BrokerEventKind::Hello),
        EventRoute::ProtocolViolation(BrokerError::RepeatedHandshake)
    ));
    assert_eq!(event_exit(&BrokerEventKind::Exited { program_id: "a".into() }, "a"), ExitOutcome::Exited);
    assert_eq!(event_exit(&BrokerEventKind::Exited { program_id: "b".into() }, "a"), ExitOutcome::Unexpected);
    assert_eq!(event_exit(&BrokerEventKind::Failed { program_id: None }, "a"), ExitOutcome::BrokerFailed);
    assert_eq!(event_exit(&started, "a"), ExitOutcome::Unexpected);
}

#[test]
fn tool_output_limit_applies_to_both_streams_combined() {
    let mut stdout = OutputCollector::new();
    let mut stderr = OutputCollector::new();
    let limit = 10;
    assert!(!stdout.accept(b"123456", 0, limit));
    assert!(stderr.accept(b"abcdef", 6, limit));
    assert!(!stderr.accept(b"more", 12, limit));
    assert_eq!(stdout.into_output(), b"123456");
    assert_eq!(stderr.into_output(), b"abcd");
    assert_eq!(tool_outcome(ToolCompletion::OutputLimit, 12, limit), Err(ToolFailure::OutputLimitExceeded));
    assert_eq!(tool_outcome(ToolCompletion::Exited, 12, limit), Err(ToolFailure::OutputLimitExceeded));
    assert_eq!(tool_outcome(ToolCompletion::Exited, 10, limit), Ok(()));
    assert_eq!(tool_outcome(ToolCompletion::Timeout, 0, limit), Err(ToolFailure::TimedOut));
}

#[test]
fn protected_operations_follow_what_the_program_uses() {
    assert_eq!(
        program_requirements(ProtectedOperation::RemoteControl, true, true),
        vec![
            ProtectedOperation::RemoteControl,
            ProtectedOperation::UseManagedConfigSources,
            ProtectedOperation::UseManagedProgramPackages
        ]
    );
    assert_eq!(
        program_requirements(ProtectedOperation::CreatePremiumProgram, false, true),
        vec![ProtectedOperation::CreatePremiumProgram, ProtectedOperation::UseManagedProgramPackages]
    );
    assert_eq!(
        configuration_requirements(ProtectedOperation::EditPremiumConfiguration, false),
        vec![ProtectedOperation::EditPremiumConfiguration]
    );
    assert_eq!(runtime_enforcement(LicenseRuntimeImpact::HardInactive), RuntimeEnforcement::StopActive);
    assert_eq!(
        runtime_enforcement(LicenseRuntimeImpact::RestrictedOffline),
        RuntimeEnforcement::SetAutomaticRestarts(false)
    );
    assert_eq!(runtime_enforcement(LicenseRuntimeImpact::Active), RuntimeEnforcement::SetAutomaticRestarts(true));
}


fn expected_block(variables: &[(&str, &str)]) -> Vec<u16> {
    let mut block = Vec::new();
    for (name, value) in variables {
        block.extend(name.encode_utf16());
        block.push('=' as u16);
        block.extend(value.encode_utf16());
        block.push(0);
    }
    block.push(0);
    block
}

#[test]
fn environment_overrides_are_upper_cased_and_sorted() {
    let inherited = vec![
        ("TEMP".to_string(), "C:\\Temp".to_string()),
        ("PATH".to_string(), "C:\\Windows".to_string()),
    ];
    let overrides = vec![("path".to_string(), "D:\\bin".to_string()), ("Émoji".to_string(), "😀".to_string())];
    let block = environment_block(&inherited, &overrides).expect("fits");
    assert_eq!(
        block,
        expected_block(&[("PATH", "D:\\bin"), ("TEMP", "C:\\Temp"), ("ÉMOJI", "😀")])
    );
}

#[test]
fn an_empty_environment_is_a_single_terminator_pair() {
    let block = environment_block(&Vec::new(), &Vec::new()).expect("fits");
    assert_eq!(block, vec![0u16]);
}

#[test]
fn an_oversized_environment_is_refused() {
    let overrides = vec![("BIG".to_string(), "x".repeat(40_000))];
    let error = environment_block(&Vec::new(), &overrides).expect_err("too long");
    assert_eq!(error.code, camellia_nexus_desktop::license_policy::ErrorCode::InvalidSpec);
}

#[test]
fn utf16_encoding_uses_surrogate_pairs() {
    let mut units = Vec::new();
    push_utf16(&mut units, "a😀é");
    assert_eq!(units, "a😀é".encode_utf16().collect::<Vec<u16>>());
}

#[test]
fn the_inherited_environment_names_are_fixed() {
    assert_eq!(
        inherited_environment_keys(),
        vec!["APPDATA", "COMSPEC", "LOCALAPPDATA", "PATH", "PATHEXT", "SYSTEMROOT", "TEMP", "TMP", "USERPROFILE", "WINDIR"]
    );
}


#[test]
fn command_lines_quote_what_needs_quoting() {
    let line = build_command_line("C:\\Program Files\\app.exe", &vec!["-c".to_string(), "a b".to_string(), "x\"y".to_string()])
        .expect("fits");
    assert_eq!(line, "\"C:\\Program Files\\app.exe\" -c \"a b\" \"x\\\"y\"");
    let long = vec!["x".repeat(40_000)];
    assert!(build_command_line("app.exe", &long).is_err());
}


#[test]
fn windows_quoting_handles_spaces_quotes_and_slashes() {
    assert_eq!(quote_windows("plain"), "plain");
    assert_eq!(quote_windows("two words"), "\"two words\"");
    assert_eq!(quote_windows("a\\\"b"), "\"a\\\\\\\"b\"");
}

#[test]
fn windows_process_strings_are_bounded() {
    let oversized = "x".repeat(WINDOWS_PROCESS_STRING_LIMIT);
    assert!(build_command_line("program.exe", &vec![oversized]).is_err());

    let environment = vec![("OVERSIZED".to_owned(), "x".repeat(32_768))];
    assert!(environment_block(&Vec::new(), &environment).is_err());
}


#[test]
fn a_program_is_registered_with_the_broker_once_at_a_time() {
    let mut registry = BrokerRegistry::new();
    assert_eq!(registry.register("tun"), Ok(()));
    assert_eq!(registry.register("tun"), Err(BrokerError::AlreadyRegistered));
    assert!(registry.is_registered("tun"));
    assert!(!registry.is_registered("other"));
    registry.unregister("tun");
    assert_eq!(registry.register("tun"), Ok(()));
    assert_eq!(registry.register("proxy"), Ok(()));
    let mut failed = registry.fail_all();
    failed.sort();
    assert_eq!(failed, vec!["proxy".to_string(), "tun".to_string()]);
    assert_eq!(registry.register("tun"), Err(BrokerError::SessionUnavailable));
    assert_eq!(BrokerError::SessionUnavailable.message(), "The privilege broker session is no longer available");
    assert_eq!(
        BrokerError::AlreadyRegistered.message(),
        "The privileged program already has an active broker registration"
    );
}
