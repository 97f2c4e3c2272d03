use camellia_nexus_desktop::config_sources::{
    apply_json_managed_features, apply_mihomo_managed_features, check_redirect_url,
    check_remote_url, contains_tail_marker, managed_features_format, materialize_plan,
    merge_json_sources, merge_yaml_sources, remote_source_is_tail, source_format, FeatureFormat,
    JsonSource, MaterializePlan, RemoteBody, ResolvedSource, SourceCollector, SourceFormat,
};
use camellia_nexus_desktop::json::{Member, Number, Value};
use camellia_nexus_desktop::managed::{
    ConfigError, ConfigSource, ManagedConfig, MihomoDashboard, ProgramKind,
    SingBoxClashDashboard, SingBoxDashboard, XrayDashboard,
};
use camellia_nexus_desktop::mihomo::{apply_features, merge_mapping, MANAGED_UI_DIRECTORY};
use camellia_nexus_desktop::sing_box::MANAGED_CLASH_UI;
use camellia_nexus_desktop::xray::{MANAGED_API_TAG, MANAGED_METRICS_TAG};
use camellia_nexus_desktop::yaml::{YamlEntry, YamlValue};

fn to_value(v: &serde_json::Value) -> Value {
    match v {
        serde_json::Value::Null => Value::Null,
        serde_json::Value::Bool(b) => Value::Bool(*b),
        serde_json::Value::Number(n) => Value::Number(match (n.as_u64(), n.as_i64()) {
            (Some(u), _) => Number::Unsigned(u),
            (None, Some(i)) => Number::Signed(i),
            _ => Number::Decimal(n.to_string()),
        }),
        serde_json::Value::String(s) => Value::Text(s.clone()),
        serde_json::Value::Array(items) => Value::Array(items.iter().map(to_value).collect()),
        serde_json::Value::Object(map) => Value::Object(
            map.iter()
                .map(|(key, value)| Member { key: key.clone(), value: to_value(value) })
                .collect(),
        ),
    }
}

fn from_number(n: &Number) -> serde_json::Value {
    match n {
        Number::Unsigned(u) => serde_json::Value::from(*u),
        Number::Signed(i) => serde_json::Value::from(*i),
        Number::Decimal(text) => serde_json::from_str(text).expect("number"),
    }
}

fn from_value(v: &Value) -> serde_json::Value {
    match v {
        Value::Null => serde_json::Value::Null,
        Value::Bool(b) => serde_json::Value::Bool(*b),
        Value::Number(n) => from_number(n),
        Value::Text(s) => serde_json::Value::String(s.clone()),
        Value::Array(items) => serde_json::Value::Array(items.iter().map(from_value).collect()),
        Value::Object(members) => serde_json::Value::Object(
            members.iter().map(|m| (m.key.clone(), from_value(&m.value))).collect(),
        ),
    }
}

fn to_yaml(v: &serde_yaml_ng::Value) -> YamlValue {
    match v {
        serde_yaml_ng::Value::Null => YamlValue::Null,
        serde_yaml_ng::Value::Bool(b) => YamlValue::Bool(*b),
        serde_yaml_ng::Value::Number(n) => YamlValue::Number(match (n.as_u64(), n.as_i64()) {
            (Some(u), _) => Number::Unsigned(u),
            (None, Some(i)) => Number::Signed(i),
            _ => Number::Decimal(n.to_string()),
        }),
        serde_yaml_ng::Value::String(s) => YamlValue::Text(s.clone()),
        serde_yaml_ng::Value::Sequence(items) => YamlValue::Sequence(items.iter().map(to_yaml).collect()),
        serde_yaml_ng::Value::Mapping(map) => YamlValue::Mapping(
            map.iter().map(|(k, v)| YamlEntry { key: to_yaml(k), value: to_yaml(v) }).collect(),
        ),
        serde_yaml_ng::Value::Tagged(tagged) => {
            YamlValue::Tagged(tagged.tag.to_string(), Box::new(to_yaml(&tagged.value)))
        }
    }
}

fn from_yaml(v: &YamlValue) -> serde_yaml_ng::Value {
    match v {
        YamlValue::Null => serde_yaml_ng::Value::Null,
        YamlValue::Bool(b) => serde_yaml_ng::Value::Bool(*b),
        YamlValue::Number(Number::Unsigned(u)) => serde_yaml_ng::Value::from(*u),
        YamlValue::Number(Number::Signed(i)) => serde_yaml_ng::Value::from(*i),
        YamlValue::Number(Number::Decimal(text)) => serde_yaml_ng::from_str(text).expect("number"),
        YamlValue::Text(s) => serde_yaml_ng::Value::String(s.clone()),
        YamlValue::Sequence(items) => serde_yaml_ng::Value::Sequence(items.iter().map(from_yaml).collect()),
        YamlValue::Mapping(entries) => serde_yaml_ng::Value::Mapping(
            entries.iter().map(|e| (from_yaml(&e.key), from_yaml(&e.value))).collect(),
        ),
        YamlValue::Tagged(tag, inner) => serde_yaml_ng::Value::Tagged(Box::new(
            serde_yaml_ng::value::TaggedValue {
                tag: serde_yaml_ng::value::Tag::new(tag.clone()),
                value: from_yaml(inner),
            },
        )),
    }
}

fn mapping_value(entries: Vec<YamlEntry>) -> serde_yaml_ng::Value {
    from_yaml(&YamlValue::Mapping(entries))
}

fn mapping(text: &str) -> Vec<YamlEntry> {
    match to_yaml(&serde_yaml_ng::from_str(text).expect("YAML")) {
        YamlValue::Mapping(entries) => entries,
        _ => panic!("not a mapping"),
    }
}

fn managed() -> ManagedConfig {
    ManagedConfig {
        sources: Vec::new(),
        sing_box_dashboard: None,
        sing_box_clash_dashboard: None,
        xray_dashboard: None,
        mihomo_dashboard: None,
    }
}

/// What the application does with a program's configuration text: read it in the program's
/// format, apply the managed features, and write it out again only when they changed it.
fn apply_managed_features(
    kind: ProgramKind,
    managed: Option<ManagedConfig>,
    content: &str,
) -> Result<String, ConfigError> {
    match managed_features_format(kind, &managed)? {
        FeatureFormat::Unmanaged => Ok(content.to_owned()),
        FeatureFormat::Json => {
            let document: serde_json::Value = serde_json::from_str(content).expect("JSON");
            match apply_json_managed_features(kind, managed.as_ref().unwrap(), to_value(&document))? {
                Some(root) => Ok(serde_json::to_string_pretty(&from_value(&Value::Object(root))).unwrap()),
                None => Ok(content.to_owned()),
            }
        }
        FeatureFormat::Yaml => {
            let document: serde_yaml_ng::Value = serde_yaml_ng::from_str(content).expect("YAML");
            match apply_mihomo_managed_features(managed.as_ref().unwrap(), to_yaml(&document))? {
                Some(root) => Ok(serde_yaml_ng::to_string(&mapping_value(root)).unwrap()),
                None => Ok(content.to_owned()),
            }
        }
    }
}

struct Source {
    content: &'static [u8],
    append_xray_outbounds: bool,
}

fn merge_sources(kind: ProgramKind, sources: Vec<Source>) -> Result<String, ConfigError> {
    match source_format(kind)? {
        SourceFormat::Json => {
            let documents = sources
                .iter()
                .map(|s| JsonSource {
                    document: to_value(&serde_json::from_slice(s.content).expect("JSON")),
                    append_xray_outbounds: s.append_xray_outbounds,
                })
                .collect();
            let merged = merge_json_sources(kind, documents)?;
            Ok(serde_json::to_string_pretty(&from_value(&Value::Object(merged))).unwrap())
        }
        SourceFormat::Yaml => {
            let documents = sources
                .iter()
                .map(|s| to_yaml(&serde_yaml_ng::from_slice(s.content).expect("YAML")))
                .collect();
            let merged = merge_yaml_sources(documents)?;
            Ok(serde_yaml_ng::to_string(&mapping_value(merged)).unwrap())
        }
    }
}

fn sing_box_managed(dashboard: Option<SingBoxDashboard>) -> ManagedConfig {
    ManagedConfig { sing_box_dashboard: dashboard, ..managed() }
}

fn xray_managed(dashboard: Option<XrayDashboard>) -> ManagedConfig {
    ManagedConfig { xray_dashboard: dashboard, ..managed() }
}

fn mihomo_managed(dashboard: Option<MihomoDashboard>) -> ManagedConfig {
    ManagedConfig { mihomo_dashboard: dashboard, ..managed() }
}

#[test]
fn xray_merge_obeys_tag_and_tail_rules() {
    let sources = vec![
        Source {
            content: br#"{"outbounds":[{"tag":"direct"}],"log":{"loglevel":"warning"}}"#,
            append_xray_outbounds: false,
        },
        Source {
            content: br#"{"outbounds":[{"tag":"block"},{"tag":"proxy"}],"log":{"loglevel":"debug"}}"#,
            append_xray_outbounds: false,
        },
        Source { content: br#"{"outbounds":[{"tag":"last"}]}"#, append_xray_outbounds: true },
    ];
    let merged: serde_json::Value =
        serde_json::from_str(&merge_sources(ProgramKind::Xray, sources).expect("merge")).expect("json");
    assert_eq!(merged["log"]["loglevel"], "debug");
    assert_eq!(merged["outbounds"][0]["tag"], "block");
    assert_eq!(merged["outbounds"][1]["tag"], "proxy");
    assert_eq!(merged["outbounds"][3]["tag"], "last");
}

#[test]
fn mihomo_merge_uses_named_sections_and_preserves_rule_priority() {
    let sources = vec![
        Source {
            content: b"mode: rule\nproxies:\n  - name: edge\n    type: direct\nrules:\n  - DOMAIN,first.test,DIRECT\nsub-rules:\n  regional:\n    - DOMAIN-SUFFIX,first.test,DIRECT\n",
            append_xray_outbounds: false,
        },
        Source {
            content: b"mode: global\nproxies:\n  - name: edge\n    type: socks5\n  - name: backup\n    type: direct\nrules:\n  - MATCH,edge\nsub-rules:\n  regional:\n    - MATCH,edge\n",
            append_xray_outbounds: false,
        },
    ];
    let merged: serde_yaml_ng::Value =
        serde_yaml_ng::from_str(&merge_sources(ProgramKind::Mihomo, sources).expect("merge")).expect("yaml");
    assert_eq!(merged["mode"].as_str(), Some("global"));
    assert_eq!(merged["proxies"][0]["type"].as_str(), Some("socks5"));
    assert_eq!(merged["proxies"][1]["name"].as_str(), Some("backup"));
    assert_eq!(merged["rules"][0].as_str(), Some("DOMAIN,first.test,DIRECT"));
    assert_eq!(merged["rules"][1].as_str(), Some("MATCH,edge"));
    assert_eq!(merged["sub-rules"]["regional"][0].as_str(), Some("DOMAIN-SUFFIX,first.test,DIRECT"));
    assert_eq!(merged["sub-rules"]["regional"][1].as_str(), Some("MATCH,edge"));
}

#[test]
fn mihomo_dashboard_materializes_as_yaml_and_keeps_user_secret() {
    let enabled = mihomo_managed(Some(MihomoDashboard { listen_port: 9092, download_url: None }));
    let configured: serde_yaml_ng::Value = serde_yaml_ng::from_str(
        &apply_managed_features(ProgramKind::Mihomo, Some(enabled), "secret: keep-me\n")
            .expect("inject dashboard"),
    )
    .expect("yaml");
    assert_eq!(configured["external-controller"].as_str(), Some("127.0.0.1:9092"));
    assert_eq!(configured["external-ui"].as_str(), Some(MANAGED_UI_DIRECTORY));
    assert_eq!(configured["secret"].as_str(), Some("keep-me"));
    assert!(configured["external-ui-url"].is_null());
}

#[test]
fn mihomo_sources_require_a_yaml_mapping_root() {
    let source = Source { content: b"- one\n- two\n", append_xray_outbounds: false };
    let error = merge_sources(ProgramKind::Mihomo, vec![source]).expect_err("invalid root");
    assert_eq!(error.code(), camellia_nexus_desktop::license_policy::ErrorCode::ConfigInvalid);
    assert!(error.message().contains("mapping"));
}

#[test]
fn dashboard_uses_services_api_and_can_be_removed() {
    let enabled = sing_box_managed(Some(SingBoxDashboard {
        listen_port: 9090,
        update_interval: "1d".into(),
    }));
    let configured: serde_json::Value = serde_json::from_str(
        &apply_managed_features(ProgramKind::SingBox, Some(enabled), "{}").expect("inject API service"),
    )
    .expect("JSON");
    assert_eq!(configured["services"][0]["type"], "api");
    assert_eq!(configured["services"][0]["listen"], "127.0.0.1");
    assert!(configured.get("experimental").is_none());

    let disabled = sing_box_managed(None);
    let removed: serde_json::Value = serde_json::from_str(
        &apply_managed_features(ProgramKind::SingBox, Some(disabled), &configured.to_string())
            .expect("remove API service"),
    )
    .expect("JSON");
    assert_eq!(removed["services"].as_array().map(Vec::len), Some(0));
}

#[test]
fn clash_dashboard_uses_experimental_clash_api() {
    let enabled = ManagedConfig {
        sing_box_clash_dashboard: Some(SingBoxClashDashboard {
            listen_port: 9091,
            download_url: Some("https://example.com/dashboard.zip".into()),
        }),
        ..managed()
    };
    let configured: serde_json::Value = serde_json::from_str(
        &apply_managed_features(ProgramKind::SingBox, Some(enabled), "{}").expect("inject Clash API"),
    )
    .expect("JSON");
    assert_eq!(configured["experimental"]["clash_api"]["external_controller"], "127.0.0.1:9091");
    assert_eq!(configured["experimental"]["clash_api"]["external_ui"], MANAGED_CLASH_UI);
    let external_ui =
        configured["experimental"]["clash_api"]["external_ui"].as_str().expect("external UI path");
    assert_eq!(external_ui, "clash-dashboard");
    assert!(!external_ui.starts_with("dashboard/"));
}

#[test]
fn sing_box_dashboards_are_injected_independently() {
    let enabled = ManagedConfig {
        sing_box_dashboard: Some(SingBoxDashboard { listen_port: 9090, update_interval: "12h".into() }),
        sing_box_clash_dashboard: Some(SingBoxClashDashboard { listen_port: 9091, download_url: None }),
        ..managed()
    };
    let configured: serde_json::Value = serde_json::from_str(
        &apply_managed_features(ProgramKind::SingBox, Some(enabled), "{}").expect("inject dashboards"),
    )
    .expect("JSON");
    let service = configured["services"][0].as_object().expect("sing-box API service");
    assert_eq!(service["listen_port"], 9090);
    let service_dashboard = service["dashboard"].as_object().expect("API dashboard");
    assert_eq!(service_dashboard["update_interval"], "12h");
    assert!(!service_dashboard.contains_key("external_ui"));

    let clash = configured["experimental"]["clash_api"].as_object().expect("Clash API");
    assert_eq!(clash["external_controller"], "127.0.0.1:9091");
    assert_eq!(clash["external_ui"], MANAGED_CLASH_UI);
    assert!(!clash.contains_key("dashboard"));
}

#[test]
fn xray_dashboard_enables_api_metrics_and_traffic_stats() {
    let enabled = xray_managed(Some(XrayDashboard { api_port: 10085, metrics_port: 11111 }));
    let configured: serde_json::Value = serde_json::from_str(
        &apply_managed_features(ProgramKind::Xray, Some(enabled), "{}").expect("inject Xray dashboard"),
    )
    .expect("JSON");
    assert_eq!(configured["api"]["tag"], MANAGED_API_TAG);
    assert_eq!(configured["api"]["listen"], "127.0.0.1:10085");
    let services: serde_json::Value = serde_json::from_str(
        r#"["HandlerService","LoggerService","StatsService","RoutingService","ReflectionService"]"#,
    )
    .unwrap();
    assert_eq!(configured["api"]["services"], services);
    assert_eq!(configured["metrics"]["tag"], MANAGED_METRICS_TAG);
    assert_eq!(configured["metrics"]["listen"], "127.0.0.1:11111");
    assert_eq!(configured["stats"], serde_json::Value::Object(serde_json::Map::new()));
    assert_eq!(configured["policy"]["system"]["statsInboundUplink"], true);
    assert_eq!(configured["policy"]["system"]["statsOutboundDownlink"], true);
}

#[test]
fn xray_dashboard_restores_the_complete_managed_api_service_set() {
    let enabled = xray_managed(Some(XrayDashboard { api_port: 10085, metrics_port: 11111 }));
    let previous = format!(
        r#"{{"api":{{"tag":"{}","listen":"127.0.0.1:10085","services":["StatsService","RoutingService"]}}}}"#,
        MANAGED_API_TAG
    );
    let configured: serde_json::Value = serde_json::from_str(
        &apply_managed_features(ProgramKind::Xray, Some(enabled), &previous).expect("migrate Xray API"),
    )
    .expect("JSON");
    let services: serde_json::Value = serde_json::from_str(
        r#"["StatsService","RoutingService","HandlerService","LoggerService","ReflectionService"]"#,
    )
    .unwrap();
    assert_eq!(configured["api"]["services"], services);
}

#[test]
fn named_sections_replace_in_place_and_rules_append() {
    let mut target = mapping("proxies:\n  - name: edge\n    type: direct\nrules:\n  - DOMAIN,first.test,DIRECT\n");
    merge_mapping(
        &mut target,
        mapping("proxies:\n  - name: edge\n    type: socks5\n  - name: backup\n    type: direct\nrules:\n  - MATCH,edge\n"),
    );
    let value = mapping_value(target);
    assert_eq!(value["proxies"][0]["type"].as_str(), Some("socks5"));
    assert_eq!(value["proxies"][1]["name"].as_str(), Some("backup"));
    assert_eq!(value["rules"][0].as_str(), Some("DOMAIN,first.test,DIRECT"));
    assert_eq!(value["rules"][1].as_str(), Some("MATCH,edge"));
}

fn string_value(root: &[YamlEntry], key: &str) -> Option<String> {
    mapping_value(root.iter().map(|e| YamlEntry { key: copy(&e.key), value: copy(&e.value) }).collect())
        [key]
        .as_str()
        .map(str::to_owned)
}

fn copy(v: &YamlValue) -> YamlValue {
    to_yaml(&from_yaml(v))
}

#[test]
fn managed_dashboard_is_idempotent_and_preserves_secret() {
    let mut root = mapping("secret: keep-me\nexternal-ui-name: custom\n");
    let managed = mihomo_managed(Some(MihomoDashboard {
        listen_port: 9092,
        download_url: Some("https://example.test/ui.zip".into()),
    }));
    assert!(apply_features(&mut root, &managed));
    assert!(!apply_features(&mut root, &managed));
    assert_eq!(string_value(&root, "secret").as_deref(), Some("keep-me"));
    assert_eq!(string_value(&root, "external-ui-name").as_deref(), Some("custom"));
    assert_eq!(string_value(&root, "external-controller").as_deref(), Some("127.0.0.1:9092"));
}

#[test]
fn disabling_only_removes_a_managed_dashboard() {
    let mut root = mapping(
        "external-controller: 127.0.0.1:9092\nexternal-ui: camellia-nexus-mihomo-dashboard\nsecret: keep-me\n",
    );
    assert!(apply_features(&mut root, &managed()));
    assert_eq!(string_value(&root, "secret").as_deref(), Some("keep-me"));
    assert!(string_value(&root, "external-controller").is_none());

    let mut user = mapping("external-controller: 0.0.0.0:9090\nexternal-ui: user-ui\n");
    assert!(!apply_features(&mut user, &managed()));
    assert_eq!(string_value(&user, "external-ui").as_deref(), Some("user-ui"));
}

#[test]
fn dashboards_of_other_programs_are_refused() {
    let xray_on_sing_box = xray_managed(Some(XrayDashboard { api_port: 1, metrics_port: 2 }));
    assert_eq!(
        apply_managed_features(ProgramKind::SingBox, Some(xray_on_sing_box), "{}"),
        Err(ConfigError::SingBoxDashboardsOnly)
    );
    let sing_box_on_xray =
        sing_box_managed(Some(SingBoxDashboard { listen_port: 1, update_interval: "1d".into() }));
    assert_eq!(
        apply_managed_features(ProgramKind::Xray, Some(sing_box_on_xray), "{}"),
        Err(ConfigError::XrayDashboardOnly)
    );
    let xray_on_mihomo = xray_managed(Some(XrayDashboard { api_port: 1, metrics_port: 2 }));
    assert_eq!(
        apply_managed_features(ProgramKind::Mihomo, Some(xray_on_mihomo), "not: parsed"),
        Err(ConfigError::MihomoDashboardOnly)
    );
    let mihomo_on_generic = mihomo_managed(Some(MihomoDashboard { listen_port: 1, download_url: None }));
    assert_eq!(
        apply_managed_features(ProgramKind::Generic, Some(mihomo_on_generic), "{}"),
        Err(ConfigError::DashboardsUnsupported)
    );
    assert_eq!(
        apply_managed_features(ProgramKind::Generic, Some(managed()), "{\"kept\": 1}").as_deref(),
        Ok("{\"kept\": 1}")
    );
    assert_eq!(
        apply_managed_features(ProgramKind::SingBox, Some(managed()), "[1]"),
        Err(ConfigError::RootNotObject)
    );
    assert_eq!(apply_managed_features(ProgramKind::Xray, None, "kept").as_deref(), Ok("kept"));
    assert_eq!(
        apply_json_managed_features(ProgramKind::Mihomo, &managed(), Value::Object(Vec::new())).err(),
        Some(ConfigError::MihomoRequiresYaml)
    );
}

#[test]
fn unchanged_configuration_keeps_its_text() {
    let disabled = sing_box_managed(None);
    assert_eq!(
        apply_managed_features(ProgramKind::SingBox, Some(disabled), "{ \"log\": {} }").as_deref(),
        Ok("{ \"log\": {} }")
    );
}

#[test]
fn generic_programs_take_no_sources() {
    assert_eq!(source_format(ProgramKind::Generic), Err(ConfigError::GenericSourcesUnsupported));
    assert_eq!(source_format(ProgramKind::Mihomo), Ok(SourceFormat::Yaml));
    assert_eq!(source_format(ProgramKind::SingBox), Ok(SourceFormat::Json));
    let error = merge_json_sources(
        ProgramKind::Generic,
        vec![JsonSource { document: Value::Object(Vec::new()), append_xray_outbounds: false }],
    );
    assert_eq!(error.err(), Some(ConfigError::SourceFormatMismatch));
    let not_object = merge_json_sources(
        ProgramKind::SingBox,
        vec![JsonSource { document: Value::Array(Vec::new()), append_xray_outbounds: false }],
    );
    assert_eq!(not_object.err(), Some(ConfigError::RootNotObject));
}

#[test]
fn tail_markers_ignore_letter_case() {
    assert!(contains_tail_marker("03_TAIL.json"));
    assert!(contains_tail_marker("cocktail"));
    assert!(!contains_tail_marker("01.json"));
    assert!(remote_source_is_tail("https://example.com/sub/Tail.json?x=1"));
    assert!(!remote_source_is_tail("https://tail.example.com/config.json"));
    assert!(!remote_source_is_tail("not a url"));
}

#[test]
fn remote_urls_must_be_https_without_credentials() {
    assert_eq!(check_remote_url("https://example.com/config.json"), Ok(()));
    assert_eq!(check_remote_url("http://example.com/config.json"), Err(ConfigError::InsecureRemoteUrl));
    assert_eq!(check_remote_url("https://user@example.com/"), Err(ConfigError::InsecureRemoteUrl));
    assert_eq!(check_remote_url("https://:secret@example.com/"), Err(ConfigError::InsecureRemoteUrl));
    assert_eq!(check_remote_url("config.json"), Err(ConfigError::InvalidRemoteUrl));
    assert_eq!(check_redirect_url("https://cdn.example.com/x"), Ok(()));
    assert_eq!(check_redirect_url("http://cdn.example.com/x"), Err(ConfigError::InsecureRedirect));
}

#[test]
fn materialize_plan_follows_the_enabled_sources() {
    let source = |enabled: bool| ConfigSource::Local {
        id: "a".into(),
        name: "a".into(),
        enabled,
        path: "a.json".into(),
    };
    assert!(matches!(
        materialize_plan(&None, None, false),
        Err(ConfigError::ManagedConfigDisabled)
    ));
    let none_enabled = ManagedConfig { sources: vec![source(false)], ..managed() };
    assert!(matches!(
        materialize_plan(&Some(none_enabled), None, true),
        Err(ConfigError::NoEnabledSources)
    ));
    let none_enabled = ManagedConfig { sources: vec![source(false)], ..managed() };
    match materialize_plan(&Some(none_enabled), None, false) {
        Ok(MaterializePlan::Fallback(text)) => assert_eq!(text, "{}"),
        _ => panic!("fallback expected"),
    }
    match materialize_plan(&Some(managed()), Some("kept".into()), false) {
        Ok(MaterializePlan::Fallback(text)) => assert_eq!(text, "kept"),
        _ => panic!("fallback expected"),
    }
    let some_enabled =
        ManagedConfig { sources: vec![source(false), source(true), source(true)], ..managed() };
    match materialize_plan(&Some(some_enabled), None, true) {
        Ok(MaterializePlan::Merge(positions)) => assert_eq!(positions, vec![1, 2]),
        _ => panic!("merge expected"),
    }
}

#[test]
fn sources_are_collected_in_order_within_the_aggregate_limit() {
    let resolved = |name: &str, len: usize| ResolvedSource {
        name: name.into(),
        content: vec![b'x'; len],
        append_xray_outbounds: false,
    };
    let mut collector = SourceCollector::new(2);
    assert_eq!(collector.record(1, resolved("second", 3)), Ok(()));
    assert_eq!(collector.record(0, resolved("first", 2)), Ok(()));
    let names: Vec<String> = collector.finish().ok().expect("complete").into_iter().map(|s| s.name).collect();
    assert_eq!(names, vec!["first".to_owned(), "second".to_owned()]);

    let mut missing = SourceCollector::new(2);
    assert_eq!(missing.record(0, resolved("only", 1)), Ok(()));
    assert_eq!(missing.finish().err(), Some(ConfigError::SourceTaskLost));

    let mut large = SourceCollector::new(2);
    assert_eq!(large.record(0, resolved("a", 16 * 1024 * 1024)), Ok(()));
    assert_eq!(large.record(1, resolved("b", 1)), Err(ConfigError::SourcesTooLarge));
}

#[test]
fn remote_bodies_stop_at_the_source_limit() {
    let mut body = RemoteBody::new();
    assert_eq!(body.append(b"abc"), Ok(()));
    assert_eq!(body.append(&vec![0u8; 4 * 1024 * 1024 - 3]), Ok(()));
    assert_eq!(body.append(b"d"), Err(ConfigError::RemoteSourceTooLarge));
    assert_eq!(body.into_content().len(), 4 * 1024 * 1024);
}


#[test]
fn announced_remote_lengths_are_checked_against_the_source_limit() {
    use_check_remote_length();
}

fn use_check_remote_length() {
    assert_eq!(camellia_nexus_desktop::config_sources::check_remote_length(None), Ok(()));
    assert_eq!(camellia_nexus_desktop::config_sources::check_remote_length(Some(4 * 1024 * 1024)), Ok(()));
    assert_eq!(
        camellia_nexus_desktop::config_sources::check_remote_length(Some(4 * 1024 * 1024 + 1)),
        Err(camellia_nexus_desktop::managed::ConfigError::RemoteSourceTooLarge)
    );
}
