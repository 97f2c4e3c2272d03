use camellia_nexus_desktop::desktop::{
    application_info, configured_value, current_platform_name, development_runtime_value,
    has_autostart_argument, loopback_development, oauth_client_id, oauth_redirect_uri,
    platform_display_name, suggested_device_name, AUTOSTART_ARGUMENT,
};
use camellia_nexus_desktop::privileges::{
    assess_detection, charge_assessment_bytes, check_assessment_file, is_json_file_name,
    ASSESSMENT_INPUT_LIMIT, manifest_bytes_request_elevation, requirement_for_reasons,
    PrivilegeDetection, PrivilegePolicy, PrivilegeReason, PrivilegeRequirement,
};

#[test]
fn production_configuration_ignores_runtime_license_overrides() {
    assert!(development_runtime_value("CAMELLIA_NEXUS_LICENSE_URL").is_none());
    assert!(development_runtime_value("CAMELLIA_NEXUS_ENTITLEMENT_KEYS_PATH").is_none());
}

#[test]
fn recognizes_ascii_and_utf16_elevation_manifests() {
    assert!(manifest_bytes_request_elevation(
        br#"<requestedExecutionLevel level="requireAdministrator"/>"#,
    ));
    let utf16 = "<requestedExecutionLevel level=\"highestAvailable\"/>"
        .encode_utf16()
        .flat_map(u16::to_le_bytes)
        .collect::<Vec<_>>();
    assert!(manifest_bytes_request_elevation(&utf16));
    assert!(!manifest_bytes_request_elevation(
        br#"<requestedExecutionLevel level="asInvoker"/>"#,
    ));
}

#[test]
fn manifests_are_matched_in_any_case_and_only_whole_words() {
    assert!(manifest_bytes_request_elevation(b"level=\"HIGHESTAVAILABLE\""));
    assert!(manifest_bytes_request_elevation(b"\xff\xfe requireadministrator"));
    assert!(!manifest_bytes_request_elevation(b"requireadmin istrator"));
    assert!(!manifest_bytes_request_elevation(b""));
    let odd: Vec<u8> = "highestAvailable"
        .encode_utf16()
        .flat_map(u16::to_le_bytes)
        .chain(Some(0x41))
        .collect();
    assert!(manifest_bytes_request_elevation(&odd));
}

fn detection(requirement: PrivilegeRequirement, reasons: Vec<PrivilegeReason>) -> PrivilegeDetection {
    PrivilegeDetection { requirement, reasons, authoritative: true }
}

#[test]
fn forced_standard_policy_never_silently_elevates() {
    let assessment = assess_detection::<()>(
        PrivilegePolicy::Standard,
        Ok(detection(PrivilegeRequirement::Elevated, vec![PrivilegeReason::TunInterface])),
    )
    .ok()
    .expect("assess");
    assert_eq!(assessment.detected, PrivilegeRequirement::Elevated);
    assert_eq!(assessment.effective, PrivilegeRequirement::Standard);
}

#[test]
fn forced_policy_is_not_blocked_by_an_unassessable_external_config() {
    for policy in [PrivilegePolicy::Standard, PrivilegePolicy::Elevated] {
        let assessment = assess_detection(policy, Err("not json")).ok().expect("explicit policy");
        assert_eq!(assessment.detected, PrivilegeRequirement::Unknown);
        assert_eq!(
            assessment.effective,
            if policy == PrivilegePolicy::Standard {
                PrivilegeRequirement::Standard
            } else {
                PrivilegeRequirement::Elevated
            }
        );
        assert!(!assessment.authoritative);
    }
    assert_eq!(assess_detection(PrivilegePolicy::Automatic, Err("not json")).err(), Some("not json"));
}

#[test]
fn automatic_policy_follows_detection_and_elevated_policy_is_reported_once() {
    let automatic = assess_detection::<()>(
        PrivilegePolicy::Automatic,
        Ok(detection(PrivilegeRequirement::Elevated, vec![PrivilegeReason::TunInterface])),
    )
    .ok()
    .unwrap();
    assert_eq!(automatic.effective, PrivilegeRequirement::Elevated);
    let unknown = assess_detection::<()>(
        PrivilegePolicy::Automatic,
        Ok(detection(PrivilegeRequirement::Unknown, Vec::new())),
    )
    .ok()
    .unwrap();
    assert_eq!(unknown.effective, PrivilegeRequirement::Standard);
    let forced = assess_detection::<()>(
        PrivilegePolicy::Elevated,
        Ok(detection(PrivilegeRequirement::Standard, vec![PrivilegeReason::ExplicitPolicy])),
    )
    .ok()
    .unwrap();
    assert_eq!(forced.reasons, vec![PrivilegeReason::ExplicitPolicy]);
    let added = assess_detection::<()>(
        PrivilegePolicy::Elevated,
        Ok(detection(PrivilegeRequirement::Standard, Vec::new())),
    )
    .ok()
    .unwrap();
    assert_eq!(added.reasons, vec![PrivilegeReason::ExplicitPolicy]);
}

#[test]
fn configuration_reasons_decide_the_requirement() {
    assert_eq!(requirement_for_reasons(None), (PrivilegeRequirement::Unknown, Vec::new()));
    assert_eq!(requirement_for_reasons(Some(Vec::new())), (PrivilegeRequirement::Standard, Vec::new()));
    assert_eq!(
        requirement_for_reasons(Some(vec![PrivilegeReason::TransparentProxy])),
        (PrivilegeRequirement::Elevated, vec![PrivilegeReason::TransparentProxy])
    );
}

#[test]
fn runtime_values_fall_back_to_built_in_configuration() {
    assert_eq!(configured_value(Some("runtime".into()), Some("built-in")).as_deref(), Some("runtime"));
    assert_eq!(configured_value(None, Some("built-in")).as_deref(), Some("built-in"));
}

#[test]
fn recognizes_only_the_canonical_autostart_argument() {
    assert_eq!(AUTOSTART_ARGUMENT, "--autostart");
    assert!(has_autostart_argument(&vec!["--quiet".into(), AUTOSTART_ARGUMENT.into()]));
    assert!(!has_autostart_argument(&vec!["--quiet".into(), "--startup-bridge".into()]));
}


#[test]
fn the_about_view_names_the_build() {
    let info = application_info("1.2.3", "Desktop manager", Some(false));
    assert_eq!(info.name, "Camellia Nexus");
    assert_eq!(info.version, "1.2.3");
    assert_eq!(info.author, "Camellia Computing");
    assert_eq!(info.license, "Proprietary");
    assert_eq!(info.description, "Desktop manager");
    assert_eq!(info.signature_status, "notVerified");
    assert_eq!(application_info("1", "d", Some(true)).signature_status, "verified");
    assert_eq!(application_info("1", "d", None).signature_status, "notChecked");
}

#[test]
fn platforms_are_named_for_people() {
    assert_eq!(platform_display_name("windows"), "Windows");
    assert_eq!(platform_display_name("macos"), "macOS");
    assert_eq!(platform_display_name("linux"), "Linux");
    assert_eq!(platform_display_name("freebsd"), "FreeBSD");
    assert_eq!(platform_display_name("haiku"), "Desktop");
    assert_eq!(current_platform_name("linux"), "Linux");
    assert_eq!(current_platform_name("openbsd"), "openbsd");
}

#[test]
fn only_plain_http_loopback_services_are_development_services() {
    assert!(loopback_development(Some("http://127.0.0.1:8080")));
    assert!(loopback_development(Some("http://localhost:3000/api")));
    assert!(!loopback_development(Some("https://license.example.com")));
    assert!(!loopback_development(None));
}

#[test]
fn oauth_settings_fall_back_to_the_application_defaults() {
    assert_eq!(oauth_client_id(None), "camellia-nexus-desktop");
    assert_eq!(oauth_client_id(Some("  ")), "camellia-nexus-desktop");
    assert_eq!(oauth_client_id(Some("custom-client")), "custom-client");
    assert_eq!(oauth_redirect_uri(None), "camellia-nexus://auth/callback");
    assert_eq!(oauth_redirect_uri(Some("http://127.0.0.1:9000/auth/callback")), "http://127.0.0.1:9000/auth/callback");
}

#[test]
fn suggested_device_names_mention_the_platform_once() {
    assert_eq!(suggested_device_name(Some("work-laptop"), "Windows"), "work-laptop · Windows");
    assert_eq!(suggested_device_name(Some("My-Windows-PC"), "Windows"), "My-Windows-PC");
    assert_eq!(suggested_device_name(Some("--.__"), "Linux"), "Linux device");
    assert_eq!(suggested_device_name(None, "macOS"), "macOS device");
}


#[test]
fn configuration_directories_contribute_their_json_files() {
    assert!(is_json_file_name("config.json"));
    assert!(is_json_file_name("10-tun.JSON"));
    assert!(is_json_file_name("..json"));
    assert!(!is_json_file_name(".json"));
    assert!(!is_json_file_name("config.jsonc"));
    assert!(!is_json_file_name("config.yaml"));
    assert!(!is_json_file_name("json"));
}

#[test]
fn privilege_assessment_reads_a_bounded_total() {
    assert_eq!(ASSESSMENT_INPUT_LIMIT, 4 * 1024 * 1024);
    assert!(check_assessment_file(true, 100, 100).is_ok());
    assert!(check_assessment_file(true, 101, 100).is_err());
    assert!(check_assessment_file(false, 1, 100).is_err());
    assert_eq!(charge_assessment_bytes(40, 100).map_err(|e| e.code), Ok(60));
    assert!(charge_assessment_bytes(101, 100).is_err());
}
