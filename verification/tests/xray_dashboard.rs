use camellia_nexus_desktop::json::{Member, Number, Value};
use camellia_nexus_desktop::xray_stats::{
    xray_online_map_email, xray_online_policy_enabled, xray_system_stats, xray_user_metrics,
};

fn parse(text: &str) -> Value {
    to_value(&serde_json::from_str::<serde_json::Value>(text).expect("JSON"))
}

fn to_value(v: &serde_json::Value) -> Value {
    match v {
        serde_json::Value::Null => Value::Null,
        serde_json::Value::Bool(b) => Value::Bool(*b),
        serde_json::Value::Number(n) => Value::Number(match (n.as_u64(), n.as_i64()) {
            (Some(u), _) => Number::Unsigned(u),
            (None, Some(i)) => Number::Signed(i),
            _ => Number::Decimal(n.to_string()),
        }),
        serde_json::Value::String(s) => Value::Text(s.clone()),
        serde_json::Value::Array(items) => Value::Array(items.iter().map(to_value).collect()),
        serde_json::Value::Object(map) => Value::Object(
            map.iter()
                .map(|(key, value)| Member { key: key.clone(), value: to_value(value) })
                .collect(),
        ),
    }
}

#[test]
fn fallback_online_map_names_are_parsed() {
    assert_eq!(
        xray_online_map_email("user>>>user@example.com>>>online").as_deref(),
        Some("user@example.com")
    );
}

#[test]
fn online_map_names_without_a_user_are_refused() {
    assert_eq!(xray_online_map_email("plain@example.com").as_deref(), Some("plain@example.com"));
    assert_eq!(xray_online_map_email("user>>>>>>online"), None);
    assert_eq!(xray_online_map_email("inbound>>>api>>>traffic"), None);
    assert_eq!(xray_online_map_email(""), None);
}

#[test]
fn online_stats_are_used_only_when_a_level_enables_them() {
    let disabled = parse(r#"{ "policy": { "levels": { "0": {} } } }"#);
    let enabled = parse(r#"{ "policy": { "levels": { "0": { "statsUserOnline": true } } } }"#);
    assert!(!xray_online_policy_enabled(&disabled));
    assert!(xray_online_policy_enabled(&enabled));
}

#[test]
fn user_metrics_are_read_independently_from_online_sessions() {
    let metrics = parse(
        r#"{ "stats": { "user": { "user@example.com": { "uplink": 42, "downlink": 84 } } } }"#,
    );
    assert_eq!(xray_user_metrics(Some(&metrics), "user@example.com"), Some((42, 84)));
    assert_eq!(xray_user_metrics(Some(&metrics), "other@example.com"), None);
    assert_eq!(xray_user_metrics(None, "user@example.com"), None);
}

#[test]
fn system_statistics_accept_both_spellings_and_texts() {
    let reply = parse(r#"{ "Uptime": 7, "alloc": "4096", "sys": -1, "NumGoroutine": "many" }"#);
    let stats = xray_system_stats(&reply).expect("an object");
    assert_eq!(stats.uptime_seconds, 7);
    assert_eq!(stats.allocated_bytes, 4096);
    assert_eq!(stats.system_bytes, 0);
    assert_eq!(stats.goroutines, 0);
    assert_eq!(stats.live_objects, 0);
    assert!(xray_system_stats(&parse("[1, 2]")).is_none());
}

use camellia_nexus_desktop::xray_stats::XrayOnlineUser;
use camellia_nexus_desktop::xray_users::{
    fallback_online_users, online_query_needed, parse_xray_online_users, summarize_online_users,
    xray_alive_outbounds, xray_configured_users, xray_handler_tags,
};

#[test]
fn available_outbounds_require_a_healthy_observation() {
    let metrics = parse(
        r#"{ "observatory": {
            "healthy": { "alive": true, "outbound_tag": "proxy-a" },
            "failed": { "alive": false, "outbound_tag": "proxy-b" }
        } }"#,
    );
    assert_eq!(xray_alive_outbounds(Some(&metrics)), vec!["proxy-a".to_owned()]);
}

#[test]
fn alive_outbounds_fall_back_to_the_observation_name() {
    let metrics = parse(
        r#"{ "observatory": {
            "b": { "alive": true, "outboundTag": "" },
            "a": { "alive": true, "outboundTag": "proxy-c" },
            "c": { "alive": true, "outbound_tag": 7, "outboundTag": "ignored" }
        } }"#,
    );
    assert_eq!(
        xray_alive_outbounds(Some(&metrics)),
        vec!["b".to_owned(), "c".to_owned(), "proxy-c".to_owned()]
    );
    assert!(xray_alive_outbounds(None).is_empty());
}

#[test]
fn handler_topology_returns_sorted_unique_tags() {
    let response = br#"{"outbounds":[{"tag":"z"},{"tag":"a"},{"tag":"a"}]}"#;
    let response = to_value(&serde_json::from_slice::<serde_json::Value>(response).expect("handler response"));
    assert_eq!(xray_handler_tags(&response, "outbounds"), ["a", "z"]);
    assert!(xray_handler_tags(&response, "inbounds").is_empty());
}

#[test]
fn online_user_details_preserve_identity_addresses_and_traffic() {
    let response = parse(
        r#"{ "users": [{
            "email": "user@example.com",
            "ips": [{ "ip": "203.0.113.9", "lastSeen": "1710000000" }],
            "traffic": { "uplink": "1024", "downlink": "2048" }
        }] }"#,
    );
    let users = parse_xray_online_users(&response);
    assert_eq!(users.len(), 1);
    assert_eq!(users[0].email, "user@example.com");
    assert_eq!(users[0].online, Some(true));
    assert_eq!(users[0].addresses[0].ip, "203.0.113.9");
    assert_eq!(users[0].addresses[0].last_seen_unix, 1_710_000_000);
    assert_eq!(users[0].uplink, 1024);
    assert_eq!(users[0].downlink, 2048);
}

#[test]
fn online_users_are_sorted_stably_by_email() {
    let response = parse(
        r#"{ "users": [
            { "email": "b", "traffic": { "uplink": 1 } },
            { "ips": [] },
            { "email": "a", "ips": [{ "ip": "x", "last_seen": -5 }, { "port": 1 }] },
            { "email": "b", "traffic": { "uplink": 2 } }
        ] }"#,
    );
    let users = parse_xray_online_users(&response);
    let summary: Vec<(String, u64)> = users.iter().map(|u| (u.email.clone(), u.uplink)).collect();
    assert_eq!(summary, vec![("a".to_owned(), 0), ("b".to_owned(), 1), ("b".to_owned(), 2)]);
    assert_eq!(users[0].addresses.len(), 1);
    assert_eq!(users[0].addresses[0].last_seen_unix, -5);
}

#[test]
fn configured_shadowsocks_users_and_loopback_scope_are_detected() {
    let config = parse(
        r#"{ "inbounds": [{
            "listen": "127.0.0.1",
            "protocol": "shadowsocks",
            "settings": { "clients": [ { "email": "b@example.com" }, { "email": "a@example.com" } ] }
        }] }"#,
    );
    let (users, loopback_only) = xray_configured_users(&config);
    assert_eq!(users, ["a@example.com", "b@example.com"]);
    assert!(loopback_only);
}

#[test]
fn a_user_on_a_public_inbound_clears_the_loopback_scope() {
    let config = parse(
        r#"{ "inbounds": [
            { "listen": "::1", "settings": { "email": "a@example.com" } },
            { "listen": "0.0.0.0", "settings": { "users": [ { "email": "a@example.com" }, { "email": "" } ] } },
            { "listen": "0.0.0.0", "settings": { "clients": [] } }
        ] }"#,
    );
    let (users, loopback_only) = xray_configured_users(&config);
    assert_eq!(users, ["a@example.com"]);
    assert!(!loopback_only);
    let (none, loopback_only) = xray_configured_users(&parse(r#"{ "inbounds": [ { "listen": "127.0.0.1" } ] }"#));
    assert!(none.is_empty());
    assert!(!loopback_only);
}

#[test]
fn fallback_online_users_are_read_from_the_name_list() {
    let response = parse(r#"{ "users": ["user>>>a@example.com>>>online", "inbound>>>api>>>traffic", 3, "b"] }"#);
    let users = fallback_online_users(&response);
    let emails: Vec<&str> = users.iter().map(|u| u.email.as_str()).collect();
    assert_eq!(emails, ["a@example.com", "b"]);
    assert!(users.iter().all(|u| u.online == Some(true)));
}

#[test]
fn online_summary_lays_reports_and_metrics_over_the_configured_users() {
    let config = parse(
        r#"{ "policy": { "levels": { "0": { "statsUserOnline": true } } },
             "inbounds": [ { "listen": "0.0.0.0", "settings": { "clients": [
                 { "email": "b@example.com" }, { "email": "a@example.com" } ] } } ] }"#,
    );
    assert!(online_query_needed(&config));
    let reported = parse_xray_online_users(&parse(
        r#"{ "users": [ { "email": "c@example.com", "ips": [ { "ip": "1.2.3.4" }, { "ip": "5.6.7.8" } ] },
                        { "email": "a@example.com" } ] }"#,
    ));
    let metrics = parse(r#"{ "stats": { "user": { "b@example.com": { "uplink": 5, "downlink": 6 } } } }"#);
    let summary = summarize_online_users(&config, reported, true, Some(&metrics));
    assert!(summary.policy_enabled && summary.status_available && !summary.loopback_only);
    let users: Vec<(&str, Option<bool>, u64)> =
        summary.users.iter().map(|u| (u.email.as_str(), u.online, u.uplink)).collect();
    assert_eq!(
        users,
        [("a@example.com", Some(true), 0), ("b@example.com", Some(false), 5), ("c@example.com", Some(true), 0)]
    );
    assert_eq!(summary.user_count, 2);
    assert_eq!(summary.address_count, 2);
}

#[test]
fn online_summary_ignores_reports_that_were_not_asked_for() {
    let config = parse(
        r#"{ "inbounds": [ { "listen": "127.0.0.1", "settings": { "email": "a@example.com" } } ] }"#,
    );
    assert!(!online_query_needed(&config));
    let stray = vec![XrayOnlineUser {
        email: "z".into(),
        online: Some(true),
        addresses: Vec::new(),
        uplink: 0,
        downlink: 0,
    }];
    let summary = summarize_online_users(&config, stray, true, None);
    assert!(!summary.policy_enabled && !summary.status_available && summary.loopback_only);
    assert_eq!(summary.users.len(), 1);
    assert_eq!(summary.users[0].email, "a@example.com");
    assert_eq!(summary.users[0].online, None);
    assert_eq!(summary.user_count, 0);
}

use camellia_nexus_desktop::managed::{ManagedConfig, ProgramKind, XrayDashboard};
use camellia_nexus_desktop::xray_balancers::{
    balancer_override_arguments, check_target_health, parse_configured_xray_balancers,
    require_running_xray_dashboard, select_balancer_target, sort_balancers, xray_balancer_info,
    xray_balancer_with_error, xray_dashboard_endpoints, BalancerTargetError, XrayDashboardError,
};

fn routing_config() -> Value {
    parse(
        r#"{
            "outbounds": [ { "tag": "proxy-b" }, { "tag": "proxy-a" }, { "tag": "direct" }, { "tag": "proxy-a" } ],
            "routing": { "balancers": [
                { "tag": "zeta", "selector": ["direct"] },
                { "tag": "auto", "selector": ["proxy-", 7], "strategy": { "type": "leastPing" }, "fallbackTag": "direct" },
                { "tag": "auto", "selector": ["direct"] },
                { "selector": ["proxy-"] },
                "not an object"
            ] }
        }"#,
    )
}

#[test]
fn configured_balancers_are_sorted_and_select_their_candidates() {
    let balancers = parse_configured_xray_balancers(&routing_config());
    let tags: Vec<&str> = balancers.iter().map(|b| b.tag.as_str()).collect();
    assert_eq!(tags, ["auto", "zeta"]);
    assert_eq!(balancers[0].selectors, ["proxy-"]);
    assert_eq!(balancers[0].candidates, ["proxy-a", "proxy-b"]);
    assert_eq!(balancers[0].strategy.as_deref(), Some("leastPing"));
    assert_eq!(balancers[0].fallback_target.as_deref(), Some("direct"));
    assert_eq!(balancers[1].candidates, ["direct"]);
    assert_eq!(balancers[1].fallback_target, None);
}

#[test]
fn balancer_state_reports_overrides_preferences_and_healthy_candidates() {
    let mut balancers = parse_configured_xray_balancers(&routing_config());
    let auto = balancers.remove(0);
    let response = parse(
        r#"{ "balancer": { "override": { "target": "proxy-b" },
                           "principle_target": { "tag": ["proxy-a", "", "proxy-b"] } } }"#,
    );
    let alive = vec!["proxy-b".to_owned()];
    let info = xray_balancer_info(auto, &response, &alive);
    assert_eq!(info.current_target.as_deref(), Some("proxy-b"));
    assert_eq!(info.principle_targets, ["proxy-a", "proxy-b"]);
    assert_eq!(info.available_candidates, ["proxy-b"]);
    assert!(info.error.is_none());

    let zeta = balancers.remove(0);
    let failed = xray_balancer_with_error(zeta, &alive, "timeout".into());
    assert_eq!(failed.error.as_deref(), Some("timeout"));
    assert!(failed.available_candidates.is_empty());
    assert!(failed.current_target.is_none());

    let sorted = sort_balancers(vec![failed, info]);
    let tags: Vec<&str> = sorted.iter().map(|b| b.tag.as_str()).collect();
    assert_eq!(tags, ["auto", "zeta"]);
}

#[test]
fn balancer_targets_must_be_healthy_candidates() {
    let configured = || parse_configured_xray_balancers(&routing_config());
    assert_eq!(
        select_balancer_target(configured(), "missing", None).err(),
        Some(BalancerTargetError::NotFound)
    );
    assert_eq!(
        select_balancer_target(configured(), "auto", Some("direct".into())).err(),
        Some(BalancerTargetError::NotACandidate)
    );
    let (balancer, target) =
        select_balancer_target(configured(), "auto", Some("proxy-a".into())).ok().expect("candidate");
    assert_eq!(balancer.tag, "auto");
    assert_eq!(target.as_deref(), Some("proxy-a"));
    let (_, cleared) = select_balancer_target(configured(), "auto", Some(String::new())).ok().expect("clear");
    assert_eq!(cleared, None);

    let alive = vec!["proxy-b".to_owned()];
    assert_eq!(check_target_health(&None, None), Ok(()));
    assert_eq!(check_target_health(&target, None), Err(BalancerTargetError::HealthUnknown));
    assert_eq!(check_target_health(&target, Some(&alive)), Err(BalancerTargetError::Unhealthy));
    assert_eq!(check_target_health(&Some("proxy-b".into()), Some(&alive)), Ok(()));

    assert_eq!(
        balancer_override_arguments(10085, "auto", target),
        ["api", "bo", "--server=127.0.0.1:10085", "--timeout=3", "--balancer", "auto", "proxy-a"]
    );
    assert_eq!(
        balancer_override_arguments(1, "auto", None),
        ["api", "bo", "--server=127.0.0.1:1", "--timeout=3", "--balancer", "auto", "--remove"]
    );
}

#[test]
fn routing_changes_need_a_running_xray_with_its_dashboard() {
    let enabled = Some(ManagedConfig {
        sources: Vec::new(),
        sing_box_dashboard: None,
        sing_box_clash_dashboard: None,
        xray_dashboard: Some(XrayDashboard { api_port: 10085, metrics_port: 11111 }),
        mihomo_dashboard: None,
    });
    assert_eq!(require_running_xray_dashboard(ProgramKind::SingBox, true, &enabled), Err(XrayDashboardError::NotXray));
    assert_eq!(require_running_xray_dashboard(ProgramKind::Xray, false, &enabled), Err(XrayDashboardError::NotRunning));
    assert_eq!(require_running_xray_dashboard(ProgramKind::Xray, true, &None), Err(XrayDashboardError::NotEnabled));
    assert_eq!(require_running_xray_dashboard(ProgramKind::Xray, true, &enabled), Ok((10085, 11111)));
}


#[test]
fn the_dashboard_reads_the_loopback_api_and_metrics() {
    assert_eq!(
        xray_dashboard_endpoints(10085, 11111),
        ("127.0.0.1:10085".to_string(), "http://127.0.0.1:11111/debug/vars".to_string())
    );
}
