use vstd::prelude::*;

use crate::json::{get, get_member, lemma_view_members, view_members, JsonView, Member, Number, NumberView, Value};
use crate::numbers::{parse_i64, parse_u64, parsed_i64, parsed_u64};
use crate::text::{contains_text, has_prefix, has_suffix, text_contains, text_ends_with, text_starts_with};

verus! {

/// Runtime statistics of an Xray process.
pub struct XraySystemStats {
    pub uptime_seconds: u64,
    pub allocated_bytes: u64,
    pub system_bytes: u64,
    pub goroutines: u64,
    pub live_objects: u64,
    pub garbage_collections: u64,
}

/// The tags of the handlers an Xray process runs.
pub struct XrayRuntimeTopology {
    pub inbound_tags: Vec<String>,
    pub outbound_tags: Vec<String>,
}

/// An address from which a user is connected, and when it was last seen.
pub struct XrayOnlineAddress {
    pub ip: String,
    pub last_seen_unix: i64,
}

/// A user of an Xray inbound: whether it is online (when that is known), from where, and
/// its traffic in bytes.
pub struct XrayOnlineUser {
    pub email: String,
    pub online: Option<bool>,
    pub addresses: Vec<XrayOnlineAddress>,
    pub uplink: u64,
    pub downlink: u64,
}

/// The users of an Xray process and what is known of their presence.
pub struct XrayOnlineUsersSummary {
    pub policy_enabled: bool,
    pub status_available: bool,
    pub loopback_only: bool,
    pub user_count: usize,
    pub address_count: usize,
    pub users: Vec<XrayOnlineUser>,
}

/// A balancer of an Xray process: its configuration and what it currently routes to.
pub struct XrayBalancerInfo {
    pub tag: String,
    pub selectors: Vec<String>,
    pub candidates: Vec<String>,
    pub available_candidates: Vec<String>,
    pub current_target: Option<String>,
    pub principle_targets: Vec<String>,
    pub strategy: Option<String>,
    pub fallback_target: Option<String>,
    pub error: Option<String>,
}

/// An unsigned statistic: a non-negative integer, or a text that parses as one; zero otherwise.
pub open spec fn unsigned_stat(v: Option<JsonView>) -> u64 {
    match v {
        Some(JsonView::Number(NumberView::Unsigned(n))) => n,
        Some(JsonView::Text(t)) => match parsed_u64(t) {
            Some(n) => n,
            None => 0,
        },
        _ => 0,
    }
}

/// A signed statistic: an integer in range, or a text that parses as one; zero otherwise.
pub open spec fn signed_stat(v: Option<JsonView>) -> i64 {
    match v {
        Some(JsonView::Number(NumberView::Unsigned(n))) => if n <= i64::MAX {
            n as i64
        } else {
            0
        },
        Some(JsonView::Number(NumberView::Signed(n))) => n,
        Some(JsonView::Text(t)) => match parsed_i64(t) {
            Some(n) => n,
            None => 0,
        },
        _ => 0,
    }
}

pub fn unsigned_stat_value(v: Option<&Value>) -> (stat: u64)
    ensures
        stat == unsigned_stat(
            match v {
                Some(x) => Some(x.view()),
                None => None,
            },
        ),
{
    match v {
        Some(Value::Number(Number::Unsigned(n))) => *n,
        Some(Value::Text(t)) => match parse_u64(t.as_str()) {
            Some(n) => n,
            None => 0,
        },
        _ => 0,
    }
}

pub fn signed_stat_value(v: Option<&Value>) -> (stat: i64)
    ensures
        stat == signed_stat(
            match v {
                Some(x) => Some(x.view()),
                None => None,
            },
        ),
{
    match v {
        Some(Value::Number(Number::Unsigned(n))) => if *n <= i64::MAX as u64 {
            *n as i64
        } else {
            0
        },
        Some(Value::Number(Number::Signed(n))) => *n,
        Some(Value::Text(t)) => match parse_i64(t.as_str()) {
            Some(n) => n,
            None => 0,
        },
        _ => 0,
    }
}

/// The value under the first of two names that `v` binds.
pub open spec fn either_member(v: JsonView, first: Seq<char>, second: Seq<char>) -> Option<JsonView> {
    match get(v, first) {
        Some(x) => Some(x),
        None => get(v, second),
    }
}

pub fn either_member_of<'a>(v: &'a Value, first: &str, second: &str) -> (found: Option<&'a Value>)
    ensures
        match found {
            Some(x) => either_member(v.view(), first@, second@) == Some(x.view()),
            None => either_member(v.view(), first@, second@) is None,
        },
{
    match get_member(v, first) {
        Some(x) => Some(x),
        None => get_member(v, second),
    }
}

/// The statistics in a reply of `xray api statssys`, read under their lower-case or
/// capitalised names; `None` when the reply is not an object.
pub open spec fn system_stats_of(reply: JsonView) -> Option<(u64, u64, u64, u64, u64, u64)> {
    match reply {
        JsonView::Object(_) => Some(
            (
                unsigned_stat(either_member(reply, "uptime"@, "Uptime"@)),
                unsigned_stat(either_member(reply, "alloc"@, "Alloc"@)),
                unsigned_stat(either_member(reply, "sys"@, "Sys"@)),
                unsigned_stat(either_member(reply, "numGoroutine"@, "NumGoroutine"@)),
                unsigned_stat(either_member(reply, "liveObjects"@, "LiveObjects"@)),
                unsigned_stat(either_member(reply, "numGC"@, "NumGC"@)),
            ),
        ),
        _ => None,
    }
}

/// The statistics in a reply of `xray api statssys`.
pub fn xray_system_stats(reply: &Value) -> (stats: Option<XraySystemStats>)
    ensures
        match stats {
            Some(s) => system_stats_of(reply.view()) == Some(
                (
                    s.uptime_seconds,
                    s.allocated_bytes,
                    s.system_bytes,
                    s.goroutines,
                    s.live_objects,
                    s.garbage_collections,
                ),
            ),
            None => system_stats_of(reply.view()) is None,
        },
{
    match reply {
        Value::Object(_) => Some(
            XraySystemStats {
                uptime_seconds: unsigned_stat_value(either_member_of(reply, "uptime", "Uptime")),
                allocated_bytes: unsigned_stat_value(either_member_of(reply, "alloc", "Alloc")),
                system_bytes: unsigned_stat_value(either_member_of(reply, "sys", "Sys")),
                goroutines: unsigned_stat_value(
                    either_member_of(reply, "numGoroutine", "NumGoroutine"),
                ),
                live_objects: unsigned_stat_value(
                    either_member_of(reply, "liveObjects", "LiveObjects"),
                ),
                garbage_collections: unsigned_stat_value(either_member_of(reply, "numGC", "NumGC")),
            },
        ),
        _ => None,
    }
}

/// The traffic of a user in the Metrics reply: its uplink and downlink bytes, when the
/// reply has an entry for the user under `stats.user`.
pub open spec fn user_metrics_of(metrics: Option<JsonView>, email: Seq<char>) -> Option<(u64, u64)> {
    match metrics {
        None => None,
        Some(m) => match get(m, "stats"@) {
            None => None,
            Some(stats) => match get(stats, "user"@) {
                None => None,
                Some(users) => match get(users, email) {
                    None => None,
                    Some(traffic) => Some(
                        (
                            unsigned_stat(get(traffic, "uplink"@)),
                            unsigned_stat(get(traffic, "downlink"@)),
                        ),
                    ),
                },
            },
        },
    }
}

/// The traffic of a user in the Metrics reply.
pub fn xray_user_metrics(metrics: Option<&Value>, email: &str) -> (traffic: Option<(u64, u64)>)
    ensures
        traffic == user_metrics_of(
            match metrics {
                Some(m) => Some(m.view()),
                None => None,
            },
            email@,
        ),
{
    let m = match metrics {
        Some(m) => m,
        None => {
            return None;
        },
    };
    let stats = match get_member(m, "stats") {
        Some(s) => s,
        None => {
            return None;
        },
    };
    let users = match get_member(stats, "user") {
        Some(u) => u,
        None => {
            return None;
        },
    };
    let traffic = match get_member(users, email) {
        Some(t) => t,
        None => {
            return None;
        },
    };
    Some(
        (
            unsigned_stat_value(get_member(traffic, "uplink")),
            unsigned_stat_value(get_member(traffic, "downlink")),
        ),
    )
}

/// Whether a policy level reports which users are online.
pub open spec fn level_reports_online(level: JsonView) -> bool {
    get(level, "statsUserOnline"@) == Some(JsonView::Bool(true))
}

/// Whether some level of the configuration's policy reports which users are online.
pub open spec fn online_policy_enabled(root: JsonView) -> bool {
    match get(root, "policy"@) {
        Some(policy) => match get(policy, "levels"@) {
            Some(JsonView::Object(levels)) => exists|i: int|
                0 <= i < levels.len() && level_reports_online(#[trigger] levels[i].1),
            _ => false,
        },
        None => false,
    }
}

/// Whether some level of the configuration's policy reports which users are online.
#[verifier::loop_isolation(false)]
pub fn xray_online_policy_enabled(root: &Value) -> (enabled: bool)
    ensures
        enabled == online_policy_enabled(root.view()),
{
    let policy = match get_member(root, "policy") {
        Some(p) => p,
        None => {
            return false;
        },
    };
    let levels = match get_member(policy, "levels") {
        Some(Value::Object(levels)) => levels,
        _ => {
            return false;
        },
    };
    let ghost lv = view_members(levels@);
    proof {
        lemma_view_members(levels@);
    }
    let mut i: usize = 0;
    while i < levels.len()
        invariant
            i <= levels@.len(),
            lv == view_members(levels@),
            lv.len() == levels@.len(),
            forall|j: int| 0 <= j < levels@.len() ==> #[trigger] lv[j] == (levels@[j].key@, levels@[j].value.view()),
            forall|j: int| 0 <= j < i ==> !level_reports_online(#[trigger] lv[j].1),
        decreases levels.len() - i,
    {
        let reports = match get_member(&levels[i].value, "statsUserOnline") {
            Some(Value::Bool(b)) => *b,
            _ => false,
        };
        assert(lv[i as int].1 == levels@[i as int].value.view());
        if reports {
            assert(level_reports_online(lv[i as int].1));
            assert(exists|j: int| 0 <= j < lv.len() && level_reports_online(#[trigger] lv[j].1));
            return true;
        }
        i = i + 1;
    }
    false
}

/// The user that a name in the fallback list of online users stands for: the address in
/// `user>>>ADDRESS>>>online`, or a plain name without `>>>`; never an empty one.
pub open spec fn online_map_email(value: Seq<char>) -> Option<Seq<char>> {
    let wrapped = if has_prefix(value, "user>>>"@) && has_suffix(value.skip(7), ">>>online"@) {
        Some(value.subrange(7, value.len() - 9))
    } else if value.len() > 0 && !contains_text(value, ">>>"@) {
        Some(value)
    } else {
        None
    };
    match wrapped {
        Some(email) => if email.len() > 0 {
            Some(email)
        } else {
            None
        },
        None => None,
    }
}

/// The user that a name in the fallback list of online users stands for.
pub fn xray_online_map_email(value: &str) -> (email: Option<String>)
    ensures
        match email {
            Some(e) => online_map_email(value@) == Some(e@),
            None => online_map_email(value@) is None,
        },
{
    proof {
        reveal_strlit("user>>>");
        reveal_strlit(">>>online");
    }
    let n = value.unicode_len();
    if text_starts_with(value, "user>>>") {
        let rest = value.substring_char(7, n);
        assert(rest@ =~= value@.skip(7));
        if text_ends_with(rest, ">>>online") {
            let inner = value.substring_char(7, n - 9);
            if inner.unicode_len() == 0 {
                return None;
            }
            return Some(inner.to_owned());
        }
    }
    if n > 0 && !text_contains(value, ">>>") {
        Some(value.to_owned())
    } else {
        None
    }
}

} // verus!
