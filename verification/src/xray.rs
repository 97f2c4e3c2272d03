use vstd::prelude::*;

use crate::json::{
    clone_value, entries_well_formed, find_member, get_member, insert_entry, insert_member,
    items_well_formed, keys_sorted, lemma_entries_well_formed, lemma_insert_entry,
    lemma_insert_entry_well_formed, lemma_items_well_formed, lemma_lookup, lemma_reinsert,
    lemma_remove_entry, lemma_remove_entry_well_formed, lemma_view_items, lemma_view_members,
    lookup, member_value, lemma_view_items_concat, remove_entry, remove_member, text_member, text_member_of, values_equal,
    view_items, view_members, well_formed, Entries, JsonView, Member, Value,
};
use crate::json::lemma_lookup_last;
use crate::managed::{ConfigError, ManagedConfig, XrayDashboard};
use crate::sing_box::{find_tagged, first_tagged, item_tag, lemma_first_tagged, LOOPBACK_HOST_PREFIX};
use crate::text::{decimal, text_eq, text_with_decimal};

verus! {

/// The tag of the API that the application manages.
pub const MANAGED_API_TAG: &'static str = "camellia-nexus-api";

/// The tag of the metrics listener that the application manages.
pub const MANAGED_METRICS_TAG: &'static str = "camellia-nexus-metrics";

/// A source section merged into a target section: a source item whose tag the target already
/// holds replaces that item; the others are collected, in order, to be added.
pub open spec fn split_tagged(target: Seq<JsonView>, source: Seq<JsonView>) -> (Seq<JsonView>, Seq<JsonView>)
    decreases source.len(),
{
    if source.len() == 0 {
        (target, Seq::empty())
    } else {
        let (t, added) = split_tagged(target, source.drop_last());
        let v = source.last();
        match item_tag(v) {
            Some(tag) => match first_tagged(t, tag) {
                Some(i) => (t.update(i, v), added),
                None => (t, added.push(v)),
            },
            None => (t, added.push(v)),
        }
    }
}

/// A section merged by tag, the new items put first or last.
pub open spec fn merge_section(target: Seq<JsonView>, source: Seq<JsonView>, prepend: bool) -> Seq<JsonView> {
    let (t, added) = split_tagged(target, source);
    if prepend {
        added + t
    } else {
        t + added
    }
}

/// Whether a top-level key holds handlers that merge by tag.
pub open spec fn is_tagged_section(k: Seq<char>) -> bool {
    k == "inbounds"@ || k == "outbounds"@
}

/// One source member merged into an Xray configuration: inbounds and outbounds merge by tag,
/// new outbounds going first unless the source is a tail source; anything else replaces.
pub open spec fn merge_xray_member(root: Entries, k: Seq<char>, v: JsonView, append_outbounds: bool) -> Entries {
    if is_tagged_section(k) {
        match v {
            JsonView::Array(items) => {
                let prepend = k == "outbounds"@ && !append_outbounds;
                match lookup(root, k) {
                    None => insert_entry(root, k, JsonView::Array(merge_section(Seq::empty(), items, prepend))),
                    Some(JsonView::Array(current)) => insert_entry(
                        root,
                        k,
                        JsonView::Array(merge_section(current, items, prepend)),
                    ),
                    Some(_) => insert_entry(root, k, v),
                }
            },
            _ => insert_entry(root, k, v),
        }
    } else {
        insert_entry(root, k, v)
    }
}

/// Sources merge in order and the later one takes precedence: merging a source into an Xray
/// configuration sets each member other than `inbounds` and `outbounds` that the source names
/// to the source's value, and leaves every member the source does not name as it was.
pub proof fn lemma_xray_later_source_wins(target: Entries, source: Entries, append_outbounds: bool, k: Seq<char>)
    requires
        keys_sorted(target),
        keys_sorted(source),
    ensures
        keys_sorted(merge_xray_entries(target, source, append_outbounds)),
        match lookup(source, k) {
            None => lookup(merge_xray_entries(target, source, append_outbounds), k) == lookup(target, k),
            Some(v) => !is_tagged_section(k) ==> lookup(merge_xray_entries(target, source, append_outbounds), k)
                == Some(v),
        },
    decreases source.len(),
{
    if source.len() > 0 {
        let n = source.len() - 1;
        let prefix = source.subrange(0, n);
        assert(source.drop_last() == prefix);
        lemma_lookup_last(source, k);
        lemma_xray_later_source_wins(target, prefix, append_outbounds, k);
        let merged = merge_xray_entries(target, prefix, append_outbounds);
        let key = source[n].0;
        let v = source[n].1;
        if is_tagged_section(key) {
            match v {
                JsonView::Array(items) => {
                    let prepend = key == "outbounds"@ && !append_outbounds;
                    match lookup(merged, key) {
                        None => lemma_insert_entry(merged, key, JsonView::Array(merge_section(Seq::empty(), items, prepend))),
                        Some(JsonView::Array(current)) => lemma_insert_entry(
                            merged,
                            key,
                            JsonView::Array(merge_section(current, items, prepend)),
                        ),
                        Some(_) => lemma_insert_entry(merged, key, v),
                    }
                },
                _ => lemma_insert_entry(merged, key, v),
            }
        } else {
            lemma_insert_entry(merged, key, v);
        }
    }
}

/// An Xray configuration merged with a source, member by member in the source's order.
pub open spec fn merge_xray_entries(target: Entries, source: Entries, append_outbounds: bool) -> Entries
    decreases source.len(),
{
    if source.len() == 0 {
        target
    } else {
        merge_xray_member(
            merge_xray_entries(target, source.drop_last(), append_outbounds),
            source.last().0,
            source.last().1,
            append_outbounds,
        )
    }
}

proof fn lemma_split_tagged_well_formed(target: Seq<JsonView>, source: Seq<JsonView>)
    requires
        items_well_formed(target),
        items_well_formed(source),
    ensures
        items_well_formed(split_tagged(target, source).0),
        items_well_formed(split_tagged(target, source).1),
    decreases source.len(),
{
    lemma_items_well_formed(source);
    if source.len() > 0 {
        let rest = source.drop_last();
        lemma_items_well_formed(rest);
        assert forall|i: int| 0 <= i < rest.len() implies well_formed(#[trigger] rest[i]) by {
            assert(rest[i] == source[i]);
        }
        lemma_split_tagged_well_formed(target, rest);
        let (t, added) = split_tagged(target, rest);
        let v = source.last();
        assert(well_formed(v));
        lemma_items_well_formed(t);
        lemma_items_well_formed(added);
        lemma_items_well_formed(added.push(v));
        assert forall|i: int| 0 <= i < added.push(v).len() implies well_formed(#[trigger] added.push(v)[i]) by {
            if i < added.len() {
                assert(added.push(v)[i] == added[i]);
            }
        }
        match item_tag(v) {
            Some(tag) => match first_tagged(t, tag) {
                Some(p) => {
                    lemma_first_tagged(t, tag);
                    lemma_items_well_formed(t.update(p, v));
                    assert forall|i: int| 0 <= i < t.update(p, v).len() implies well_formed(#[trigger] t.update(p, v)[i]) by {
                        if i != p {
                            assert(t.update(p, v)[i] == t[i]);
                        }
                    }
                },
                None => {},
            },
            None => {},
        }
    }
}

proof fn lemma_concat_well_formed(a: Seq<JsonView>, b: Seq<JsonView>)
    requires
        items_well_formed(a),
        items_well_formed(b),
    ensures
        items_well_formed(a + b),
{
    lemma_items_well_formed(a);
    lemma_items_well_formed(b);
    lemma_items_well_formed(a + b);
    assert forall|i: int| 0 <= i < (a + b).len() implies well_formed(#[trigger] (a + b)[i]) by {
        if i < a.len() {
            assert((a + b)[i] == a[i]);
        } else {
            assert((a + b)[i] == b[i - a.len()]);
        }
    }
}

/// Merges a source section into a target section by tag.
fn merge_section_items(target: &mut Vec<Value>, source: &Vec<Value>, prepend: bool)
    requires
        items_well_formed(view_items(old(target)@)),
        items_well_formed(view_items(source@)),
    ensures
        view_items(final(target)@) == merge_section(view_items(old(target)@), view_items(source@), prepend),
        items_well_formed(view_items(final(target)@)),
{
    let ghost t0 = view_items(target@);
    let ghost s = view_items(source@);
    proof {
        lemma_view_items(source@);
        lemma_items_well_formed(s);
    }
    let mut added: Vec<Value> = Vec::new();
    let mut i: usize = 0;
    while i < source.len()
        invariant
            i <= source.len(),
            s == view_items(source@),
            s.len() == source@.len(),
            forall|j: int| 0 <= j < source@.len() ==> #[trigger] s[j] == source@[j].view(),
            forall|j: int| 0 <= j < s.len() ==> well_formed(#[trigger] s[j]),
            items_well_formed(s),
            items_well_formed(t0),
            (view_items(target@), view_items(added@)) == split_tagged(t0, s.subrange(0, i as int)),
            items_well_formed(view_items(target@)),
            items_well_formed(view_items(added@)),
        decreases source.len() - i,
    {
        let ghost before = view_items(target@);
        let ghost before_added = view_items(added@);
        proof {
            lemma_view_items(target@);
            lemma_view_items(added@);
            assert(s.subrange(0, i + 1).drop_last() =~= s.subrange(0, i as int));
            assert(s.subrange(0, i + 1).last() == s[i as int]);
            let sub = s.subrange(0, i + 1);
            assert forall|j: int| 0 <= j < sub.len() implies well_formed(#[trigger] sub[j]) by {
                assert(sub[j] == s[j]);
            }
            lemma_items_well_formed(sub);
            lemma_split_tagged_well_formed(t0, sub);
        }
        let item = &source[i];
        assert(item.view() == s[i as int]);
        let tag = text_member_of(item, "tag");
        let position = match tag {
            Some(t) => find_tagged(target, t.as_str()),
            None => None,
        };
        proof {
            lemma_view_items(target@);
            if let Some(t) = tag {
                lemma_first_tagged(before, t@);
            }
        }
        let copy = clone_value(item);
        let ghost cv = copy.view();
        match position {
            Some(p) => {
                target.set(p, copy);
                proof {
                    lemma_view_items(target@);
                    assert(view_items(target@) =~= before.update(p as int, cv));
                }
            },
            None => {
                added.push(copy);
                proof {
                    lemma_view_items(added@);
                    assert(view_items(added@) =~= before_added.push(cv));
                }
            },
        }
        i = i + 1;
    }
    proof {
        assert(s.subrange(0, source@.len() as int) =~= s);
        lemma_concat_well_formed(view_items(target@), view_items(added@));
        lemma_concat_well_formed(view_items(added@), view_items(target@));
    }
    let ghost tv = view_items(target@);
    let ghost av = view_items(added@);
    if prepend {
        let mut rest: Vec<Value> = Vec::new();
        std::mem::swap(&mut rest, target);
        let ghost first = added@;
        let ghost second = rest@;
        added.append(&mut rest);
        std::mem::swap(&mut added, target);
        proof {
            assert(target@ == first + second);
            lemma_view_items_concat(first, second);
        }
    } else {
        let ghost first = target@;
        let ghost second = added@;
        target.append(&mut added);
        proof {
            assert(target@ == first + second);
            lemma_view_items_concat(first, second);
        }
    }
}


/// A value bound in well-formed entries is well formed.
proof fn lemma_lookup_well_formed(m: Entries, k: Seq<char>)
    requires
        keys_sorted(m),
        entries_well_formed(m),
    ensures
        match lookup(m, k) {
            Some(v) => well_formed(v),
            None => true,
        },
{
    lemma_lookup(m, k);
    lemma_entries_well_formed(m);
    if lookup(m, k) is Some {
        let j = choose|j: int| 0 <= j < m.len() && #[trigger] m[j].0 == k;
        assert(well_formed(m[j].1));
    }
}

/// Merges one Xray configuration source into the configuration merged so far: inbounds and
/// outbounds merge by tag, with new outbounds put first unless the source is a tail source;
/// every other member replaces what was there.
pub fn merge_object(target: &mut Vec<Member>, source: Vec<Member>, append_outbounds: bool)
    requires
        keys_sorted(view_members(old(target)@)),
        entries_well_formed(view_members(old(target)@)),
        keys_sorted(view_members(source@)),
        entries_well_formed(view_members(source@)),
    ensures
        view_members(final(target)@) == merge_xray_entries(
            view_members(old(target)@),
            view_members(source@),
            append_outbounds,
        ),
        keys_sorted(view_members(final(target)@)),
        entries_well_formed(view_members(final(target)@)),
{
    let ghost t0 = view_members(target@);
    let ghost s = view_members(source@);
    proof {
        lemma_view_members(source@);
        lemma_entries_well_formed(s);
    }
    let mut i: usize = 0;
    while i < source.len()
        invariant
            i <= source.len(),
            s == view_members(source@),
            s.len() == source@.len(),
            forall|j: int| 0 <= j < source@.len() ==> #[trigger] s[j] == (source@[j].key@, source@[j].value.view()),
            forall|j: int| 0 <= j < s.len() ==> well_formed(#[trigger] s[j].1),
            view_members(target@) == merge_xray_entries(t0, s.subrange(0, i as int), append_outbounds),
            keys_sorted(view_members(target@)),
            entries_well_formed(view_members(target@)),
        decreases source.len() - i,
    {
        let ghost m = view_members(target@);
        let ghost k = s[i as int].0;
        let ghost v = s[i as int].1;
        proof {
            let next = s.subrange(0, i + 1);
            assert(next.drop_last() =~= s.subrange(0, i as int));
            assert(next.last() == s[i as int]);
            lemma_lookup_well_formed(m, k);
            lemma_remove_entry(m, k);
            lemma_remove_entry_well_formed(m, k);
            assert(well_formed(v));
        }
        let member = &source[i];
        assert(member.key@ == k && member.value.view() == v);
        let key = member.key.as_str();
        let inbounds = text_eq(key, "inbounds");
        let outbounds = text_eq(key, "outbounds");
        let merged: Value = if inbounds || outbounds {
            match &member.value {
                Value::Array(items) => {
                    let prepend = outbounds && !append_outbounds;
                    proof {
                        lemma_items_well_formed(view_items(items@));
                    }
                    match remove_member(target, key) {
                        Some(Value::Array(current)) => {
                            let mut current = current;
                            merge_section_items(&mut current, items, prepend);
                            Value::Array(current)
                        },
                        Some(_) => clone_value(&member.value),
                        None => {
                            let mut current: Vec<Value> = Vec::new();
                            proof {
                                lemma_view_items(current@);
                                lemma_items_well_formed(view_items(current@));
                                assert(view_items(current@) =~= Seq::<JsonView>::empty());
                            }
                            merge_section_items(&mut current, items, prepend);
                            Value::Array(current)
                        },
                    }
                },
                _ => {
                    let _ = remove_member(target, key);
                    clone_value(&member.value)
                },
            }
        } else {
            let _ = remove_member(target, key);
            clone_value(&member.value)
        };
        let ghost mv = merged.view();
        proof {
            lemma_insert_entry_well_formed(view_members(target@), k, mv);
            lemma_reinsert(m, k, mv);
            lemma_insert_entry(view_members(target@), k, mv);
        }
        insert_member(target, member.key.clone(), merged);
        proof {
            assert(view_members(target@) == insert_entry(m, k, mv));
        }
        i = i + 1;
    }
    proof {
        assert(s.subrange(0, source@.len() as int) =~= s);
    }
}


/// The API services the dashboard needs, in the order they are added.
pub open spec fn api_service_names() -> Seq<Seq<char>> {
    seq!["HandlerService"@, "LoggerService"@, "StatsService"@, "RoutingService"@, "ReflectionService"@]
}

/// The services with `name` added when no service of that name is there.
pub open spec fn with_service(services: Seq<JsonView>, name: Seq<char>) -> Seq<JsonView> {
    if services.contains(JsonView::Text(name)) {
        services
    } else {
        services.push(JsonView::Text(name))
    }
}

/// The services with the first `n` dashboard services added.
pub open spec fn with_api_services(services: Seq<JsonView>, n: nat) -> Seq<JsonView>
    decreases n,
{
    if n == 0 {
        services
    } else {
        with_service(with_api_services(services, (n - 1) as nat), api_service_names()[n - 1])
    }
}

/// The members of the object under `key`: none when there is no such member, nothing when
/// the member is not an object.
pub open spec fn object_or_new(root: Entries, key: Seq<char>) -> Option<Entries> {
    match lookup(root, key) {
        None => Some(Seq::empty()),
        Some(JsonView::Object(e)) => Some(e),
        Some(_) => None,
    }
}

/// The loopback address with a port.
pub open spec fn loopback_listen(port: u16) -> JsonView {
    JsonView::Text(LOOPBACK_HOST_PREFIX@ + decimal(port as nat))
}

/// The API step: tag and listen address set, and every dashboard service present.
pub open spec fn api_step(root: Entries, port: u16) -> (Entries, Result<(), ConfigError>) {
    match object_or_new(root, "api"@) {
        None => (root, Err(ConfigError::XrayApiNotObject)),
        Some(a0) => {
            let a1 = insert_entry(
                insert_entry(a0, "tag"@, JsonView::Text(MANAGED_API_TAG@)),
                "listen"@,
                loopback_listen(port),
            );
            match lookup(a1, "services"@) {
                None => (
                    insert_entry(
                        root,
                        "api"@,
                        JsonView::Object(
                            insert_entry(a1, "services"@, JsonView::Array(with_api_services(Seq::empty(), 5))),
                        ),
                    ),
                    Ok(()),
                ),
                Some(JsonView::Array(services)) => (
                    insert_entry(
                        root,
                        "api"@,
                        JsonView::Object(
                            insert_entry(a1, "services"@, JsonView::Array(with_api_services(services, 5))),
                        ),
                    ),
                    Ok(()),
                ),
                Some(_) => (insert_entry(root, "api"@, JsonView::Object(a1)), Err(ConfigError::XrayApiServicesNotArray)),
            }
        },
    }
}

/// The metrics step: tag and listen address set.
pub open spec fn metrics_step(root: Entries, port: u16) -> (Entries, Result<(), ConfigError>) {
    match object_or_new(root, "metrics"@) {
        None => (root, Err(ConfigError::XrayMetricsNotObject)),
        Some(m0) => (
            insert_entry(
                root,
                "metrics"@,
                JsonView::Object(
                    insert_entry(
                        insert_entry(m0, "tag"@, JsonView::Text(MANAGED_METRICS_TAG@)),
                        "listen"@,
                        loopback_listen(port),
                    ),
                ),
            ),
            Ok(()),
        ),
    }
}

/// The statistics step: an empty statistics object where there is none.
pub open spec fn stats_step(root: Entries) -> (Entries, Result<(), ConfigError>) {
    match lookup(root, "stats"@) {
        Some(JsonView::Object(_)) => (root, Ok(())),
        Some(_) => (root, Err(ConfigError::XrayStatsNotObject)),
        None => (insert_entry(root, "stats"@, JsonView::Object(Seq::empty())), Ok(())),
    }
}

/// The system policy with traffic statistics switched on for inbounds and outbounds.
pub open spec fn with_traffic_stats(system: Entries) -> Entries {
    insert_entry(
        insert_entry(
            insert_entry(
                insert_entry(system, "statsInboundUplink"@, JsonView::Bool(true)),
                "statsInboundDownlink"@,
                JsonView::Bool(true),
            ),
            "statsOutboundUplink"@,
            JsonView::Bool(true),
        ),
        "statsOutboundDownlink"@,
        JsonView::Bool(true),
    )
}

/// The policy step: traffic statistics switched on in the system policy.
pub open spec fn policy_step(root: Entries) -> (Entries, Result<(), ConfigError>) {
    match object_or_new(root, "policy"@) {
        None => (root, Err(ConfigError::XrayPolicyNotObject)),
        Some(p0) => match object_or_new(p0, "system"@) {
            None => (root, Err(ConfigError::XrayPolicySystemNotObject)),
            Some(s0) => (
                insert_entry(
                    root,
                    "policy"@,
                    JsonView::Object(insert_entry(p0, "system"@, JsonView::Object(with_traffic_stats(s0)))),
                ),
                Ok(()),
            ),
        },
    }
}

/// The dashboard put in place, step after step; a step that fails leaves what the earlier
/// ones did.
pub open spec fn dashboard_inserted(root: Entries, dashboard: XrayDashboard) -> (Entries, Result<(), ConfigError>) {
    let (r1, e1) = api_step(root, dashboard.api_port);
    if e1 is Err {
        (r1, e1)
    } else {
        let (r2, e2) = metrics_step(r1, dashboard.metrics_port);
        if e2 is Err {
            (r2, e2)
        } else {
            let (r3, e3) = stats_step(r2);
            if e3 is Err {
                (r3, e3)
            } else {
                policy_step(r3)
            }
        }
    }
}

/// The configuration without the API and metrics that the application put there.
pub open spec fn dashboard_removed(root: Entries) -> Entries {
    let r1 = match lookup(root, "api"@) {
        Some(api) => if text_member(api, "tag"@) == Some(MANAGED_API_TAG@) {
            remove_entry(root, "api"@)
        } else {
            root
        },
        None => root,
    };
    match lookup(r1, "metrics"@) {
        Some(metrics) => if text_member(metrics, "tag"@) == Some(MANAGED_METRICS_TAG@) {
            remove_entry(r1, "metrics"@)
        } else {
            r1
        },
        None => r1,
    }
}

/// The configuration with the dashboard of `managed` applied, and whether it changed.
pub open spec fn xray_features_applied(root: Entries, managed: ManagedConfig) -> (Entries, Result<bool, ConfigError>) {
    match managed.xray_dashboard {
        Some(d) => {
            let (r, e) = dashboard_inserted(root, d);
            match e {
                Err(error) => (r, Err(error)),
                Ok(()) => (r, Ok(r != root)),
            }
        },
        None => {
            let r = dashboard_removed(root);
            (r, Ok(r != root))
        },
    }
}


/// Takes the object under `key` out of the root, an empty one when there is none; refused,
/// with the root unchanged, when that member is not an object.
fn take_object(root: &mut Vec<Member>, key: &str) -> (taken: Option<Vec<Member>>)
    requires
        keys_sorted(view_members(old(root)@)),
        entries_well_formed(view_members(old(root)@)),
    ensures
        keys_sorted(view_members(final(root)@)),
        entries_well_formed(view_members(final(root)@)),
        match object_or_new(view_members(old(root)@), key@) {
            None => taken is None && final(root)@ == old(root)@,
            Some(e) => taken matches Some(t) && view_members(t@) == e && keys_sorted(e)
                && entries_well_formed(e) && view_members(final(root)@) == remove_entry(
                view_members(old(root)@),
                key@,
            ),
        },
{
    let ghost m = view_members(root@);
    proof {
        lemma_lookup_well_formed(m, key@);
        lemma_remove_entry(m, key@);
        lemma_remove_entry_well_formed(m, key@);
    }
    match member_value(root, key) {
        Some(Value::Object(_)) => {},
        None => {},
        Some(_) => {
            return None;
        },
    }
    match remove_member(root, key) {
        Some(Value::Object(e)) => Some(e),
        _ => {
            let empty: Vec<Member> = Vec::new();
            assert(view_members(empty@) =~= Seq::<(Seq<char>, JsonView)>::empty());
            Some(empty)
        },
    }
}

/// Puts an object back under `key`.
fn put_object(root: &mut Vec<Member>, key: &str, members: Vec<Member>, Ghost(original): Ghost<Entries>)
    requires
        keys_sorted(original),
        entries_well_formed(original),
        view_members(old(root)@) == remove_entry(original, key@),
        keys_sorted(view_members(members@)),
        entries_well_formed(view_members(members@)),
    ensures
        view_members(final(root)@) == insert_entry(original, key@, JsonView::Object(view_members(members@))),
        keys_sorted(view_members(final(root)@)),
        entries_well_formed(view_members(final(root)@)),
{
    let ghost v = JsonView::Object(view_members(members@));
    proof {
        lemma_remove_entry(original, key@);
        lemma_remove_entry_well_formed(original, key@);
        lemma_insert_entry_well_formed(remove_entry(original, key@), key@, v);
        lemma_reinsert(original, key@, v);
    }
    insert_member(root, key.to_owned(), Value::Object(members));
}

/// Sets a text member of an object.
fn set_text(object: &mut Vec<Member>, key: &str, text: String)
    requires
        keys_sorted(view_members(old(object)@)),
        entries_well_formed(view_members(old(object)@)),
    ensures
        view_members(final(object)@) == insert_entry(view_members(old(object)@), key@, JsonView::Text(text@)),
        keys_sorted(view_members(final(object)@)),
        entries_well_formed(view_members(final(object)@)),
{
    proof {
        lemma_insert_entry_well_formed(view_members(object@), key@, JsonView::Text(text@));
    }
    insert_member(object, key.to_owned(), Value::Text(text));
}

/// Adds a service of the name unless one is there.
fn add_service(services: &mut Vec<Value>, name: &str)
    requires
        items_well_formed(view_items(old(services)@)),
    ensures
        view_items(final(services)@) == with_service(view_items(old(services)@), name@),
        items_well_formed(view_items(final(services)@)),
{
    let ghost v = view_items(services@);
    proof {
        lemma_view_items(services@);
        lemma_items_well_formed(v);
    }
    let mut i: usize = 0;
    while i < services.len()
        invariant
            i <= services@.len(),
            v == view_items(services@),
            v.len() == services@.len(),
            forall|j: int| 0 <= j < services@.len() ==> #[trigger] v[j] == services@[j].view(),
            forall|j: int| 0 <= j < i ==> #[trigger] v[j] != JsonView::Text(name@),
            items_well_formed(v),
        decreases services@.len() - i,
    {
        let same = match &services[i] {
            Value::Text(t) => text_eq(t.as_str(), name),
            _ => false,
        };
        assert(v[i as int] == services@[i as int].view());
        if same {
            assert(v.contains(JsonView::Text(name@)));
            return;
        }
        i = i + 1;
    }
    assert(!v.contains(JsonView::Text(name@)));
    services.push(Value::Text(name.to_owned()));
    proof {
        lemma_view_items(services@);
        assert(view_items(services@) =~= v.push(JsonView::Text(name@)));
        lemma_items_well_formed(view_items(services@));
        assert forall|j: int| 0 <= j < view_items(services@).len() implies well_formed(#[trigger] view_items(services@)[j]) by {
            if j < v.len() {
                assert(view_items(services@)[j] == v[j]);
            }
        }
    }
}

fn insert_api(root: &mut Vec<Member>, port: u16) -> (result: Result<(), ConfigError>)
    requires
        keys_sorted(view_members(old(root)@)),
        entries_well_formed(view_members(old(root)@)),
    ensures
        (view_members(final(root)@), result) == api_step(view_members(old(root)@), port),
        keys_sorted(view_members(final(root)@)),
        entries_well_formed(view_members(final(root)@)),
{
    let ghost r0 = view_members(root@);
    let mut api = match take_object(root, "api") {
        Some(a) => a,
        None => {
            return Err(ConfigError::XrayApiNotObject);
        },
    };
    set_text(&mut api, "tag", MANAGED_API_TAG.to_owned());
    set_text(&mut api, "listen", text_with_decimal(LOOPBACK_HOST_PREFIX, port as u64));
    let ghost a1 = view_members(api@);
    proof {
        lemma_lookup_well_formed(a1, "services"@);
        lemma_remove_entry(a1, "services"@);
        lemma_remove_entry_well_formed(a1, "services"@);
    }
    let services_ok = match member_value(&api, "services") {
        Some(Value::Array(_)) => true,
        None => true,
        Some(_) => false,
    };
    if !services_ok {
        put_object(root, "api", api, Ghost(r0));
        return Err(ConfigError::XrayApiServicesNotArray);
    }
    let mut services: Vec<Value> = match remove_member(&mut api, "services") {
        Some(Value::Array(items)) => items,
        _ => Vec::new(),
    };
    proof {
        lemma_view_items(services@);
        lemma_items_well_formed(view_items(services@));
        if lookup(a1, "services"@) is None {
            assert(view_items(services@) =~= Seq::<JsonView>::empty());
        }
    }
    let ghost s0 = view_items(services@);
    add_service(&mut services, "HandlerService");
    add_service(&mut services, "LoggerService");
    add_service(&mut services, "StatsService");
    add_service(&mut services, "RoutingService");
    add_service(&mut services, "ReflectionService");
    proof {
        let names = api_service_names();
        assert(names[0] == "HandlerService"@);
        assert(names[1] == "LoggerService"@);
        assert(names[2] == "StatsService"@);
        assert(names[3] == "RoutingService"@);
        assert(names[4] == "ReflectionService"@);
        assert(with_api_services(s0, 0) == s0);
        assert(with_api_services(s0, 1) == with_service(s0, names[0]));
        assert(with_api_services(s0, 2) == with_service(with_api_services(s0, 1), names[1]));
        assert(with_api_services(s0, 3) == with_service(with_api_services(s0, 2), names[2]));
        assert(with_api_services(s0, 4) == with_service(with_api_services(s0, 3), names[3]));
        assert(with_api_services(s0, 5) == with_service(with_api_services(s0, 4), names[4]));
        let sv = JsonView::Array(view_items(services@));
        assert(well_formed(sv));
        lemma_insert_entry_well_formed(remove_entry(a1, "services"@), "services"@, sv);
        lemma_reinsert(a1, "services"@, sv);
    }
    insert_member(&mut api, "services".to_owned(), Value::Array(services));
    put_object(root, "api", api, Ghost(r0));
    Ok(())
}

fn insert_metrics(root: &mut Vec<Member>, port: u16) -> (result: Result<(), ConfigError>)
    requires
        keys_sorted(view_members(old(root)@)),
        entries_well_formed(view_members(old(root)@)),
    ensures
        (view_members(final(root)@), result) == metrics_step(view_members(old(root)@), port),
        keys_sorted(view_members(final(root)@)),
        entries_well_formed(view_members(final(root)@)),
{
    let ghost r0 = view_members(root@);
    let mut metrics = match take_object(root, "metrics") {
        Some(m) => m,
        None => {
            return Err(ConfigError::XrayMetricsNotObject);
        },
    };
    set_text(&mut metrics, "tag", MANAGED_METRICS_TAG.to_owned());
    set_text(&mut metrics, "listen", text_with_decimal(LOOPBACK_HOST_PREFIX, port as u64));
    put_object(root, "metrics", metrics, Ghost(r0));
    Ok(())
}

fn insert_stats(root: &mut Vec<Member>) -> (result: Result<(), ConfigError>)
    requires
        keys_sorted(view_members(old(root)@)),
        entries_well_formed(view_members(old(root)@)),
    ensures
        (view_members(final(root)@), result) == stats_step(view_members(old(root)@)),
        keys_sorted(view_members(final(root)@)),
        entries_well_formed(view_members(final(root)@)),
{
    match member_value(root, "stats") {
        Some(Value::Object(_)) => Ok(()),
        Some(_) => Err(ConfigError::XrayStatsNotObject),
        None => {
            let empty: Vec<Member> = Vec::new();
            let ghost ev = view_members(empty@);
            proof {
                assert(ev =~= Seq::<(Seq<char>, JsonView)>::empty());
                lemma_insert_entry_well_formed(view_members(root@), "stats"@, JsonView::Object(ev));
            }
            insert_member(root, "stats".to_owned(), Value::Object(empty));
            Ok(())
        },
    }
}

fn set_true(object: &mut Vec<Member>, key: &str)
    requires
        keys_sorted(view_members(old(object)@)),
        entries_well_formed(view_members(old(object)@)),
    ensures
        view_members(final(object)@) == insert_entry(view_members(old(object)@), key@, JsonView::Bool(true)),
        keys_sorted(view_members(final(object)@)),
        entries_well_formed(view_members(final(object)@)),
{
    proof {
        lemma_insert_entry_well_formed(view_members(object@), key@, JsonView::Bool(true));
    }
    insert_member(object, key.to_owned(), Value::Bool(true));
}

fn insert_policy_stats(root: &mut Vec<Member>) -> (result: Result<(), ConfigError>)
    requires
        keys_sorted(view_members(old(root)@)),
        entries_well_formed(view_members(old(root)@)),
    ensures
        (view_members(final(root)@), result) == policy_step(view_members(old(root)@)),
        keys_sorted(view_members(final(root)@)),
        entries_well_formed(view_members(final(root)@)),
{
    let ghost r0 = view_members(root@);
    proof {
        lemma_lookup_well_formed(r0, "policy"@);
    }
    match member_value(root, "policy") {
        Some(Value::Object(policy)) => {
            proof {
                lemma_lookup_well_formed(view_members(policy@), "system"@);
            }
            match member_value(policy, "system") {
                Some(Value::Object(_)) => {},
                None => {},
                Some(_) => {
                    return Err(ConfigError::XrayPolicySystemNotObject);
                },
            }
        },
        None => {},
        Some(_) => {
            return Err(ConfigError::XrayPolicyNotObject);
        },
    }
    let mut policy = match take_object(root, "policy") {
        Some(p) => p,
        None => Vec::new(),
    };
    let ghost p0 = view_members(policy@);
    let mut system = match take_object(&mut policy, "system") {
        Some(s) => s,
        None => Vec::new(),
    };
    set_true(&mut system, "statsInboundUplink");
    set_true(&mut system, "statsInboundDownlink");
    set_true(&mut system, "statsOutboundUplink");
    set_true(&mut system, "statsOutboundDownlink");
    put_object(&mut policy, "system", system, Ghost(p0));
    put_object(root, "policy", policy, Ghost(r0));
    Ok(())
}

/// Whether the object under `key` carries `tag` as its tag.
fn tagged_with(root: &Vec<Member>, key: &str, tag: &str) -> (tagged: bool)
    requires
        keys_sorted(view_members(root@)),
        entries_well_formed(view_members(root@)),
    ensures
        tagged == match lookup(view_members(root@), key@) {
            Some(v) => text_member(v, "tag"@) == Some(tag@),
            None => false,
        },
{
    proof {
        lemma_lookup_well_formed(view_members(root@), key@);
    }
    match member_value(root, key) {
        Some(v) => match text_member_of(v, "tag") {
            Some(t) => text_eq(t.as_str(), tag),
            None => false,
        },
        None => false,
    }
}

fn remove_dashboard(root: &mut Vec<Member>)
    requires
        keys_sorted(view_members(old(root)@)),
        entries_well_formed(view_members(old(root)@)),
    ensures
        view_members(final(root)@) == dashboard_removed(view_members(old(root)@)),
        keys_sorted(view_members(final(root)@)),
        entries_well_formed(view_members(final(root)@)),
{
    proof {
        lemma_remove_entry(view_members(root@), "api"@);
        lemma_remove_entry_well_formed(view_members(root@), "api"@);
    }
    if tagged_with(root, "api", MANAGED_API_TAG) {
        let _ = remove_member(root, "api");
    }
    proof {
        lemma_remove_entry(view_members(root@), "metrics"@);
        lemma_remove_entry_well_formed(view_members(root@), "metrics"@);
    }
    if tagged_with(root, "metrics", MANAGED_METRICS_TAG) {
        let _ = remove_member(root, "metrics");
    }
}

/// Applies the Xray dashboard of `managed`: the API with its services, the metrics listener,
/// statistics and traffic statistics put in place when configured, the managed API and metrics
/// taken out when not; whether the configuration changed.
pub fn apply_features(root: &mut Vec<Member>, managed: &ManagedConfig) -> (changed: Result<
    bool,
    ConfigError,
>)
    requires
        keys_sorted(view_members(old(root)@)),
        entries_well_formed(view_members(old(root)@)),
    ensures
        (view_members(final(root)@), changed) == xray_features_applied(view_members(old(root)@), *managed),
        keys_sorted(view_members(final(root)@)),
        entries_well_formed(view_members(final(root)@)),
{
    let ghost r0 = view_members(root@);
    let mut taken: Vec<Member> = Vec::new();
    std::mem::swap(&mut taken, root);
    let original = Value::Object(taken);
    let copy = clone_value(&original);
    let mut working: Vec<Member> = match copy {
        Value::Object(m) => m,
        _ => Vec::new(),
    };
    assert(view_members(working@) == r0);
    let outcome: Result<(), ConfigError> = match &managed.xray_dashboard {
        Some(d) => {
            let mut step = insert_api(&mut working, d.api_port);
            if step.is_ok() {
                step = insert_metrics(&mut working, d.metrics_port);
            }
            if step.is_ok() {
                step = insert_stats(&mut working);
            }
            if step.is_ok() {
                step = insert_policy_stats(&mut working);
            }
            step
        },
        None => {
            remove_dashboard(&mut working);
            Ok(())
        },
    };
    let result = match outcome {
        Err(e) => Err(e),
        Ok(()) => {
            let updated = Value::Object(working);
            let same = values_equal(&original, &updated);
            working = match updated {
                Value::Object(m) => m,
                _ => Vec::new(),
            };
            Ok(!same)
        },
    };
    std::mem::swap(&mut working, root);
    result
}

} // verus!
