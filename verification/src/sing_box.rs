use vstd::prelude::*;

use crate::json::{
    clone_value, entries_well_formed, find_member, insert_entry, insert_member, items_well_formed,
    keys_sorted, lemma_entries_well_formed, lemma_insert_entry, lemma_insert_entry_well_formed,
    lemma_insertion_index_of_key, lemma_items_well_formed, lemma_lookup, lemma_view_items,
    lemma_view_members, lookup, replace_member_value, text_member, text_member_of, view_items,
    view_members, well_formed, Entries, JsonView, Member, Value,
};
use crate::json::{lemma_lookup_last, values_equal, lemma_reinsert, lemma_update_is_insert, lemma_remove_entry, lemma_remove_entry_well_formed, member_value, remove_entry, remove_member};
use crate::managed::{ConfigError, ManagedConfig, SingBoxClashDashboard, SingBoxDashboard};
use crate::text::{decimal, has_prefix, text_eq, text_starts_with, text_with_decimal};

verus! {

/// The tag of a configuration item: the text under its `"tag"` key.
pub open spec fn item_tag(v: JsonView) -> Option<Seq<char>> {
    text_member(v, "tag"@)
}

/// The first position whose item carries `tag`.
pub open spec fn first_tagged(items: Seq<JsonView>, tag: Seq<char>) -> Option<int>
    decreases items.len(),
{
    if items.len() == 0 {
        None
    } else if item_tag(items[0]) == Some(tag) {
        Some(0)
    } else {
        match first_tagged(items.drop_first(), tag) {
            Some(i) => Some(i + 1),
            None => None,
        }
    }
}

pub proof fn lemma_first_tagged(items: Seq<JsonView>, tag: Seq<char>)
    ensures
        match first_tagged(items, tag) {
            Some(i) => 0 <= i < items.len() && item_tag(items[i]) == Some(tag) && forall|j: int|
                0 <= j < i ==> item_tag(#[trigger] items[j]) != Some(tag),
            None => forall|j: int| 0 <= j < items.len() ==> item_tag(#[trigger] items[j]) != Some(tag),
        },
    decreases items.len(),
{
    if items.len() > 0 {
        let rest = items.drop_first();
        lemma_first_tagged(rest, tag);
        if item_tag(items[0]) != Some(tag) {
            match first_tagged(rest, tag) {
                Some(i) => {
                    assert(items[i + 1] == rest[i]);
                    assert forall|j: int| 0 <= j < i + 1 implies item_tag(#[trigger] items[j]) != Some(
                        tag,
                    ) by {
                        if j > 0 {
                            assert(items[j] == rest[j - 1]);
                        }
                    }
                },
                None => {
                    assert forall|j: int| 0 <= j < items.len() implies item_tag(#[trigger] items[j])
                        != Some(tag) by {
                        if j > 0 {
                            assert(items[j] == rest[j - 1]);
                        }
                    }
                },
            }
        }
    }
}

/// Sources merge in order and the later one takes precedence: merging a source into a
/// configuration sets each member that the source gives a plain value (neither an object nor
/// a list) to that value, and leaves every member the source does not name as it was.
pub proof fn lemma_sing_box_later_source_wins(target: Entries, source: Entries, k: Seq<char>)
    requires
        keys_sorted(target),
        keys_sorted(source),
    ensures
        keys_sorted(merge_entries(target, source)),
        match lookup(source, k) {
            None => lookup(merge_entries(target, source), k) == lookup(target, k),
            Some(v) => !(v is Object) && !(v is Array) ==> lookup(merge_entries(target, source), k) == Some(v),
        },
    decreases source.len(),
{
    if source.len() > 0 {
        let n = source.len() - 1;
        let prefix = source.subrange(0, n);
        lemma_lookup_last(source, k);
        lemma_sing_box_later_source_wins(target, prefix, k);
        let merged = merge_entries(target, prefix);
        let key = source[n].0;
        let v = source[n].1;
        let value = match lookup(merged, key) {
            Some(current) => merge_values(current, v),
            None => v,
        };
        lemma_insert_entry(merged, key, value);
        assert(merge_entries(target, source) == insert_entry(merged, key, value));
    }
}

/// One source item merged into a list: an item whose tag is already present
/// replaces the first item with that tag; any other item is appended.
pub open spec fn merge_tagged_item(target: Seq<JsonView>, item: JsonView) -> Seq<JsonView> {
    match item_tag(item) {
        Some(tag) => match first_tagged(target, tag) {
            Some(i) => target.update(i, item),
            None => target.push(item),
        },
        None => target.push(item),
    }
}

/// A sing-box list merged with a source list, item by item in source order.
pub open spec fn merge_tagged_items(target: Seq<JsonView>, source: Seq<JsonView>) -> Seq<JsonView>
    decreases source.len(),
{
    if source.len() == 0 {
        target
    } else {
        merge_tagged_item(merge_tagged_items(target, source.drop_last()), source.last())
    }
}

/// A sing-box value merged with a source value: objects merge key by key,
/// lists merge by tag, and anything else is replaced by the source.
pub open spec fn merge_values(target: JsonView, source: JsonView) -> JsonView
    decreases source,
{
    match (target, source) {
        (JsonView::Object(t), JsonView::Object(s)) => JsonView::Object(merge_entries(t, s)),
        (JsonView::Array(t), JsonView::Array(s)) => JsonView::Array(merge_tagged_items(t, s)),
        _ => source,
    }
}

/// A sing-box object merged with a source object, key by key in source order:
/// a key already present is merged recursively, a new key is added.
pub open spec fn merge_entries(target: Entries, source: Entries) -> Entries
    decreases source,
{
    if source.len() == 0 {
        target
    } else {
        let merged = merge_entries(target, source.subrange(0, source.len() - 1));
        let k = source[source.len() - 1].0;
        let v = source[source.len() - 1].1;
        insert_entry(
            merged,
            k,
            match lookup(merged, k) {
                Some(current) => merge_values(current, v),
                None => v,
            },
        )
    }
}

pub proof fn lemma_merge_tagged_item_well_formed(target: Seq<JsonView>, item: JsonView)
    requires
        items_well_formed(target),
        well_formed(item),
    ensures
        items_well_formed(merge_tagged_item(target, item)),
{
    lemma_items_well_formed(target);
    let r = merge_tagged_item(target, item);
    let replaced = match item_tag(item) {
        Some(tag) => first_tagged(target, tag),
        None => None,
    };
    match replaced {
        Some(p) => {
            lemma_first_tagged(target, item_tag(item)->0);
            assert(r == target.update(p, item));
            assert forall|i: int| 0 <= i < r.len() implies well_formed(#[trigger] r[i]) by {
                if i != p {
                    assert(r[i] == target[i]);
                }
            }
        },
        None => {
            assert(r == target.push(item));
            assert forall|i: int| 0 <= i < r.len() implies well_formed(#[trigger] r[i]) by {
                if i < target.len() {
                    assert(r[i] == target[i]);
                }
            }
        },
    }
    lemma_items_well_formed(r);
}

/// The position of the first item that carries `tag`.
pub fn find_tagged(items: &Vec<Value>, tag: &str) -> (found: Option<usize>)
    requires
        items_well_formed(view_items(items@)),
    ensures
        match found {
            Some(p) => first_tagged(view_items(items@), tag@) == Some(p as int),
            None => first_tagged(view_items(items@), tag@) is None,
        },
{
    let ghost v = view_items(items@);
    proof {
        lemma_view_items(items@);
        lemma_items_well_formed(v);
        lemma_first_tagged(v, tag@);
    }
    let mut j: usize = 0;
    while j < items.len()
        invariant
            j <= items.len(),
            v == view_items(items@),
            v.len() == items@.len(),
            forall|x: int| 0 <= x < items@.len() ==> #[trigger] v[x] == items@[x].view(),
            forall|x: int| 0 <= x < v.len() ==> well_formed(#[trigger] v[x]),
            forall|x: int| 0 <= x < j ==> item_tag(#[trigger] v[x]) != Some(tag@),
        decreases items.len() - j,
    {
        assert(v[j as int] == items@[j as int].view());
        match text_member_of(&items[j], "tag") {
            Some(u) => {
                if text_eq(u.as_str(), tag) {
                    proof {
                        lemma_first_tagged(v, tag@);
                        match first_tagged(v, tag@) {
                            Some(q) => {
                                if q < j {
                                    assert(item_tag(v[q]) != Some(tag@));
                                } else if q > j {
                                    assert(item_tag(v[j as int]) == Some(tag@));
                                }
                            },
                            None => {
                                assert(item_tag(v[j as int]) == Some(tag@));
                            },
                        }
                    }
                    return Some(j);
                }
            },
            None => {},
        }
        j = j + 1;
    }
    proof {
        lemma_first_tagged(v, tag@);
        if let Some(q) = first_tagged(v, tag@) {
            assert(item_tag(v[q]) != Some(tag@));
        }
    }
    None
}

/// Merges a source list into a target list by tag.
pub fn merge_tagged_array(target: &mut Vec<Value>, source: &Vec<Value>)
    requires
        items_well_formed(view_items(old(target)@)),
        items_well_formed(view_items(source@)),
    ensures
        view_items(final(target)@) == merge_tagged_items(view_items(old(target)@), view_items(source@)),
        items_well_formed(view_items(final(target)@)),
{
    let ghost t0 = view_items(target@);
    let ghost s = view_items(source@);
    proof {
        lemma_view_items(source@);
        lemma_items_well_formed(s);
    }
    let mut i: usize = 0;
    while i < source.len()
        invariant
            i <= source.len(),
            s == view_items(source@),
            s.len() == source@.len(),
            forall|j: int| 0 <= j < source@.len() ==> #[trigger] s[j] == source@[j].view(),
            forall|j: int| 0 <= j < s.len() ==> well_formed(#[trigger] s[j]),
            view_items(target@) == merge_tagged_items(t0, s.subrange(0, i as int)),
            items_well_formed(view_items(target@)),
        decreases source.len() - i,
    {
        let ghost before = view_items(target@);
        proof {
            lemma_view_items(target@);
            lemma_items_well_formed(before);
            assert(s.subrange(0, i + 1).drop_last() =~= s.subrange(0, i as int));
            assert(s.subrange(0, i + 1).last() == s[i as int]);
        }
        let item = &source[i];
        let tag = text_member_of(item, "tag");
        let mut position: Option<usize> = None;
        match tag {
            Some(t) => {
                let mut j: usize = 0;
                while j < target.len() && position.is_none()
                    invariant
                        j <= target.len(),
                        before == view_items(target@),
                        before.len() == target@.len(),
                        forall|x: int| 0 <= x < target@.len() ==> #[trigger] before[x] == target@[x].view(),
                        forall|x: int| 0 <= x < before.len() ==> well_formed(#[trigger] before[x]),
                        forall|x: int|
                            0 <= x < j && !(position == Some(x as usize)) ==> item_tag(
                                #[trigger] before[x],
                            ) != Some(t@),
                        match position {
                            Some(p) => p < before.len() && item_tag(before[p as int]) == Some(t@)
                                && j == p + 1,
                            None => true,
                        },
                    decreases target.len() - j,
                {
                    assert(before[j as int] == target@[j as int].view());
                    match text_member_of(&target[j], "tag") {
                        Some(u) => {
                            if text_eq(u.as_str(), t.as_str()) {
                                position = Some(j);
                            }
                        },
                        None => {},
                    }
                    j = j + 1;
                }
                proof {
                    lemma_first_tagged(before, t@);
                    match position {
                        Some(p) => {
                            assert(item_tag(before[p as int]) == Some(t@));
                            match first_tagged(before, t@) {
                                Some(q) => {
                                    if q < p {
                                        assert(item_tag(before[q]) != Some(t@));
                                    }
                                    if q > p {
                                        assert(item_tag(before[p as int]) != Some(t@));
                                    }
                                },
                                None => {
                                    assert(item_tag(before[p as int]) != Some(t@));
                                },
                            }
                            assert(first_tagged(before, t@) == Some(p as int));
                        },
                        None => {
                            if let Some(q) = first_tagged(before, t@) {
                                assert(item_tag(before[q]) != Some(t@));
                            }
                            assert(first_tagged(before, t@) is None);
                        },
                    }
                }
            },
            None => {},
        }
        let copy = clone_value(item);
        match position {
            Some(p) => {
                let ghost cv = copy.view();
                target.set(p, copy);
                proof {
                    lemma_view_items(target@);
                    assert(view_items(target@) =~= before.update(p as int, cv));
                }
            },
            None => {
                let ghost cv = copy.view();
                target.push(copy);
                proof {
                    lemma_view_items(target@);
                    assert(view_items(target@) =~= before.push(cv));
                }
            },
        }
        proof {
            lemma_merge_tagged_item_well_formed(before, s[i as int]);
        }
        i = i + 1;
    }
    proof {
        assert(s.subrange(0, source@.len() as int) =~= s);
    }
}


/// Merges a source value into a target value.
#[verifier::loop_isolation(false)]
pub fn merge_value(target: Value, source: &Value) -> (merged: Value)
    requires
        well_formed(target.view()),
        well_formed(source.view()),
    ensures
        merged.view() == merge_values(target.view(), source.view()),
        well_formed(merged.view()),
    decreases source,
{
    match (target, source) {
        (Value::Object(mut t), Value::Object(s)) => {
            merge_object_entries(&mut t, s);
            Value::Object(t)
        },
        (Value::Array(mut t), Value::Array(s)) => {
            merge_tagged_array(&mut t, s);
            Value::Array(t)
        },
        (_, s) => clone_value(s),
    }
}

/// Merges the members of a source object into a target object.
#[verifier::loop_isolation(false)]
#[verifier::spinoff_prover]
#[verifier::rlimit(40)]
pub fn merge_object_entries(target: &mut Vec<Member>, source: &Vec<Member>)
    requires
        keys_sorted(view_members(old(target)@)),
        entries_well_formed(view_members(old(target)@)),
        keys_sorted(view_members(source@)),
        entries_well_formed(view_members(source@)),
    ensures
        view_members(final(target)@) == merge_entries(
            view_members(old(target)@),
            view_members(source@),
        ),
        keys_sorted(view_members(final(target)@)),
        entries_well_formed(view_members(final(target)@)),
    decreases source,
{
    let ghost t0 = view_members(target@);
    let ghost s = view_members(source@);
    proof {
        lemma_view_members(source@);
        lemma_entries_well_formed(s);
    }
    let mut i: usize = 0;
    while i < source.len()
        invariant
            i <= source.len(),
            view_members(target@) == merge_entries(t0, s.subrange(0, i as int)),
            keys_sorted(view_members(target@)),
            entries_well_formed(view_members(target@)),
        decreases source.len() - i,
    {
        let ghost m = view_members(target@);
        let ghost k = s[i as int].0;
        let ghost v = s[i as int].1;
        proof {
            let next = s.subrange(0, i + 1);
            assert(next.subrange(0, i as int) =~= s.subrange(0, i as int));
            assert(next[i as int] == s[i as int]);
            lemma_view_members(target@);
            lemma_lookup(m, k);
            lemma_entries_well_formed(m);
        }
        let member = &source[i];
        assert(member.key@ == k && member.value.view() == v);
        let found = find_member(target, member.key.as_str());
        match found {
            Some(j) => {
                proof {
                    lemma_insertion_index_of_key(m, j as int);
                    assert(m[j as int].0 == k);
                }
                let current = replace_member_value(target, j, Value::Null);
                let merged = merge_value(current, &member.value);
                let ghost mv = merged.view();
                replace_member_value(target, j, merged);
                proof {
                    assert(view_members(target@) =~= m.update(j as int, (k, mv)));
                    assert(insert_entry(m, k, mv) == m.update(j as int, (k, mv)));
                    lemma_insert_entry(m, k, mv);
                    lemma_insert_entry_well_formed(m, k, mv);
                }
            },
            None => {
                let copy = clone_value(&member.value);
                proof {
                    lemma_lookup(m, k);
                    lemma_insert_entry(m, k, v);
                    lemma_insert_entry_well_formed(m, k, v);
                }
                insert_member(target, member.key.clone(), copy);
            },
        }
        i = i + 1;
    }
    proof {
        assert(s.subrange(0, source@.len() as int) =~= s);
    }
}

/// Merges the members of one sing-box configuration object into another:
/// a key both objects hold is merged recursively, lists merge by tag, and
/// anything else from the source replaces what the target held.
pub fn merge_object(target: &mut Vec<Member>, source: Vec<Member>)
    requires
        keys_sorted(view_members(old(target)@)),
        entries_well_formed(view_members(old(target)@)),
        keys_sorted(view_members(source@)),
        entries_well_formed(view_members(source@)),
    ensures
        view_members(final(target)@) == merge_entries(
            view_members(old(target)@),
            view_members(source@),
        ),
        keys_sorted(view_members(final(target)@)),
        entries_well_formed(view_members(final(target)@)),
{
    merge_object_entries(target, &source);
}


/// The tag of the API service that the application manages.
pub const MANAGED_API_TAG: &'static str = "camellia-nexus-api";

/// The directory of the Clash dashboard that the application manages.
pub const MANAGED_CLASH_UI: &'static str = "clash-dashboard";

/// The loopback address every managed listener binds.
pub const LOOPBACK_HOST_PREFIX: &'static str = "127.0.0.1:";

/// Whether a service is the API service that the application manages.
pub open spec fn is_managed_api(v: JsonView) -> bool {
    text_member(v, "type"@) == Some("api"@) && text_member(v, "tag"@) == Some(MANAGED_API_TAG@)
}

pub open spec fn count_managed_api(items: Seq<JsonView>) -> nat
    decreases items.len(),
{
    if items.len() == 0 {
        0
    } else {
        count_managed_api(items.drop_last()) + if is_managed_api(items.last()) {
            1nat
        } else {
            0nat
        }
    }
}

/// The services without the managed API service, in their order.
pub open spec fn without_managed_api(items: Seq<JsonView>) -> Seq<JsonView>
    decreases items.len(),
{
    if items.len() == 0 {
        items
    } else if is_managed_api(items.last()) {
        without_managed_api(items.drop_last())
    } else {
        without_managed_api(items.drop_last()).push(items.last())
    }
}

/// The managed API service for a dashboard.
pub open spec fn api_service(port: u16, update_interval: Seq<char>) -> JsonView {
    JsonView::Object(
        insert_entry(
            insert_entry(
                insert_entry(
                    insert_entry(
                        insert_entry(Seq::empty(), "type"@, JsonView::Text("api"@)),
                        "tag"@,
                        JsonView::Text(MANAGED_API_TAG@),
                    ),
                    "listen"@,
                    JsonView::Text("127.0.0.1"@),
                ),
                "listen_port"@,
                JsonView::Number(crate::json::NumberView::Unsigned(port as u64)),
            ),
            "dashboard"@,
            JsonView::Object(
                insert_entry(
                    insert_entry(Seq::empty(), "enabled"@, JsonView::Bool(true)),
                    "update_interval"@,
                    JsonView::Text(update_interval),
                ),
            ),
        ),
    )
}

/// Whether the services already end with exactly this one managed API service.
pub open spec fn api_current(items: Seq<JsonView>, service: JsonView) -> bool {
    &&& count_managed_api(items) == 1
    &&& items.len() > 0
    &&& is_managed_api(items.last())
    &&& items.last() == service
}

/// The root after the managed API service was put in place, and whether anything changed.
pub open spec fn with_api(root: Entries, service: JsonView) -> Result<(Entries, bool), ConfigError> {
    match lookup(root, "services"@) {
        None => Ok((insert_entry(root, "services"@, JsonView::Array(seq![service])), true)),
        Some(JsonView::Array(items)) => if api_current(items, service) {
            Ok((root, false))
        } else {
            Ok(
                (
                    insert_entry(
                        root,
                        "services"@,
                        JsonView::Array(without_managed_api(items).push(service)),
                    ),
                    true,
                ),
            )
        },
        Some(_) => Err(ConfigError::SingBoxServicesNotArray),
    }
}

/// The root without the managed API service, and whether anything changed.
pub open spec fn without_api(root: Entries) -> Result<(Entries, bool), ConfigError> {
    match lookup(root, "services"@) {
        None => Ok((root, false)),
        Some(JsonView::Array(items)) => if count_managed_api(items) > 0 {
            Ok(
                (
                    insert_entry(root, "services"@, JsonView::Array(without_managed_api(items))),
                    true,
                ),
            )
        } else {
            Ok((root, false))
        },
        Some(_) => Err(ConfigError::SingBoxServicesNotArray),
    }
}

pub proof fn lemma_without_managed_api(items: Seq<JsonView>)
    ensures
        without_managed_api(items).len() + count_managed_api(items) == items.len(),
        items_well_formed(items) ==> items_well_formed(without_managed_api(items)),
    decreases items.len(),
{
    if items.len() > 0 {
        let rest = items.drop_last();
        lemma_without_managed_api(rest);
        lemma_items_well_formed(items);
        lemma_items_well_formed(rest);
        lemma_items_well_formed(without_managed_api(rest));
        lemma_items_well_formed(without_managed_api(items));
        if items_well_formed(items) {
            assert forall|i: int| 0 <= i < rest.len() implies well_formed(#[trigger] rest[i]) by {
                assert(rest[i] == items[i]);
            }
            assert(well_formed(items[items.len() - 1]));
            let w = without_managed_api(items);
            let wr = without_managed_api(rest);
            assert forall|i: int| 0 <= i < w.len() implies well_formed(#[trigger] w[i]) by {
                if i < wr.len() {
                    assert(w[i] == wr[i]);
                }
            }
        }
    }
}

/// Whether a service is the API service that the application manages.
pub fn managed_api(service: &Value) -> (managed: bool)
    requires
        well_formed(service.view()),
    ensures
        managed == is_managed_api(service.view()),
{
    let kind = text_member_of(service, "type");
    let tag = text_member_of(service, "tag");
    match (kind, tag) {
        (Some(k), Some(t)) => text_eq(k.as_str(), "api") && text_eq(t.as_str(), MANAGED_API_TAG),
        _ => false,
    }
}

fn count_managed(items: &Vec<Value>) -> (count: usize)
    requires
        items_well_formed(view_items(items@)),
    ensures
        count == count_managed_api(view_items(items@)),
{
    let ghost v = view_items(items@);
    proof {
        lemma_view_items(items@);
        lemma_items_well_formed(v);
    }
    let mut count: usize = 0;
    let mut i: usize = 0;
    while i < items.len()
        invariant
            i <= items.len(),
            v == view_items(items@),
            v.len() == items@.len(),
            forall|j: int| 0 <= j < items@.len() ==> #[trigger] v[j] == items@[j].view(),
            forall|j: int| 0 <= j < v.len() ==> well_formed(#[trigger] v[j]),
            count == count_managed_api(v.subrange(0, i as int)),
            count <= i,
        decreases items.len() - i,
    {
        assert(v.subrange(0, i + 1).drop_last() =~= v.subrange(0, i as int));
        assert(v[i as int] == items@[i as int].view());
        if managed_api(&items[i]) {
            count = count + 1;
        }
        i = i + 1;
    }
    assert(v.subrange(0, items@.len() as int) =~= v);
    count
}

fn drop_managed(items: &Vec<Value>) -> (kept: Vec<Value>)
    requires
        items_well_formed(view_items(items@)),
    ensures
        view_items(kept@) == without_managed_api(view_items(items@)),
{
    let ghost v = view_items(items@);
    proof {
        lemma_view_items(items@);
        lemma_items_well_formed(v);
    }
    let mut kept: Vec<Value> = Vec::new();
    let mut i: usize = 0;
    while i < items.len()
        invariant
            i <= items.len(),
            v == view_items(items@),
            v.len() == items@.len(),
            forall|j: int| 0 <= j < items@.len() ==> #[trigger] v[j] == items@[j].view(),
            forall|j: int| 0 <= j < v.len() ==> well_formed(#[trigger] v[j]),
            view_items(kept@) == without_managed_api(v.subrange(0, i as int)),
        decreases items.len() - i,
    {
        assert(v.subrange(0, i + 1).drop_last() =~= v.subrange(0, i as int));
        assert(v[i as int] == items@[i as int].view());
        if !managed_api(&items[i]) {
            let ghost before = kept@;
            let copy = clone_value(&items[i]);
            kept.push(copy);
            proof {
                lemma_view_items(before);
                lemma_view_items(kept@);
                assert(view_items(kept@) =~= view_items(before).push(v[i as int]));
            }
        }
        i = i + 1;
    }
    assert(v.subrange(0, items@.len() as int) =~= v);
    kept
}

fn new_text(s: &str) -> (value: Value)
    ensures
        value.view() == JsonView::Text(s@),
{
    Value::Text(s.to_owned())
}

fn api_service_value(dashboard: &SingBoxDashboard) -> (service: Value)
    ensures
        service.view() == api_service(dashboard.listen_port, dashboard.update_interval@),
        well_formed(service.view()),
{
    let mut inner: Vec<Member> = Vec::new();
    insert_member(&mut inner, "enabled".to_owned(), Value::Bool(true));
    insert_member(&mut inner, "update_interval".to_owned(), Value::Text(dashboard.update_interval.clone()));
    let mut outer: Vec<Member> = Vec::new();
    insert_member(&mut outer, "type".to_owned(), new_text("api"));
    insert_member(&mut outer, "tag".to_owned(), new_text(MANAGED_API_TAG));
    insert_member(&mut outer, "listen".to_owned(), new_text("127.0.0.1"));
    insert_member(
        &mut outer,
        "listen_port".to_owned(),
        Value::Number(crate::json::Number::Unsigned(dashboard.listen_port as u64)),
    );
    let ghost inner_view = view_members(inner@);
    let ghost before = view_members(outer@);
    proof {
        assert(entries_well_formed(Seq::<(Seq<char>, JsonView)>::empty()));
        lemma_insert_entry_well_formed(Seq::empty(), "enabled"@, JsonView::Bool(true));
        lemma_insert_entry(Seq::empty(), "enabled"@, JsonView::Bool(true));
        let e1 = insert_entry(Seq::empty(), "enabled"@, JsonView::Bool(true));
        lemma_insert_entry_well_formed(e1, "update_interval"@, JsonView::Text(dashboard.update_interval@));
        let o1 = insert_entry(Seq::empty(), "type"@, JsonView::Text("api"@));
        lemma_insert_entry_well_formed(Seq::empty(), "type"@, JsonView::Text("api"@));
        lemma_insert_entry(Seq::empty(), "type"@, JsonView::Text("api"@));
        let o2 = insert_entry(o1, "tag"@, JsonView::Text(MANAGED_API_TAG@));
        lemma_insert_entry_well_formed(o1, "tag"@, JsonView::Text(MANAGED_API_TAG@));
        lemma_insert_entry(o1, "tag"@, JsonView::Text(MANAGED_API_TAG@));
        let o3 = insert_entry(o2, "listen"@, JsonView::Text("127.0.0.1"@));
        lemma_insert_entry_well_formed(o2, "listen"@, JsonView::Text("127.0.0.1"@));
        lemma_insert_entry(o2, "listen"@, JsonView::Text("127.0.0.1"@));
        let port = JsonView::Number(crate::json::NumberView::Unsigned(dashboard.listen_port as u64));
        lemma_insert_entry_well_formed(o3, "listen_port"@, port);
        lemma_insert_entry(o3, "listen_port"@, port);
        lemma_insert_entry_well_formed(before, "dashboard"@, JsonView::Object(inner_view));
    }
    insert_member(&mut outer, "dashboard".to_owned(), Value::Object(inner));
    Value::Object(outer)
}

/// Puts the managed API service last in the services, unless it already is.
pub fn insert_api(root: &mut Vec<Member>, dashboard: &SingBoxDashboard) -> (changed: Result<bool, ConfigError>)
    requires
        keys_sorted(view_members(old(root)@)),
        entries_well_formed(view_members(old(root)@)),
    ensures
        match with_api(view_members(old(root)@), api_service(dashboard.listen_port, dashboard.update_interval@)) {
            Ok((r, c)) => changed == Ok::<bool, ConfigError>(c) && view_members(final(root)@) == r,
            Err(e) => changed == Err::<bool, ConfigError>(e) && final(root)@ == old(root)@,
        },
        keys_sorted(view_members(final(root)@)),
        entries_well_formed(view_members(final(root)@)),
{
    let ghost r0 = view_members(root@);
    let service = api_service_value(dashboard);
    let ghost sv = service.view();
    proof {
        lemma_view_members(root@);
        lemma_lookup(r0, "services"@);
        lemma_entries_well_formed(r0);
    }
    let found = find_member(root, "services");
    match found {
        None => {
            let mut items: Vec<Value> = Vec::new();
            items.push(service);
            proof {
                lemma_view_items(items@);
                assert(view_items(items@) =~= seq![sv]);
                lemma_items_well_formed(seq![sv]);
                assert(well_formed(JsonView::Array(seq![sv])));
                lemma_insert_entry(r0, "services"@, JsonView::Array(seq![sv]));
                lemma_insert_entry_well_formed(r0, "services"@, JsonView::Array(seq![sv]));
            }
            insert_member(root, "services".to_owned(), Value::Array(items));
            Ok(true)
        },
        Some(j) => {
            assert(r0[j as int].0 == "services"@);
            let current = match &root[j].value {
                Value::Array(items) => items,
                _ => {
                    return Err(ConfigError::SingBoxServicesNotArray);
                },
            };
            let ghost items_view = view_items(current@);
            assert(well_formed(r0[j as int].1));
            let count = count_managed(current);
            let n = current.len();
            proof {
                lemma_view_items(current@);
            }
            proof {
                lemma_items_well_formed(items_view);
                assert(items_well_formed(items_view));
            }
            let mut is_current = false;
            if count == 1 && n > 0 {
                assert(items_view[n - 1] == current@[n - 1].view());
                if managed_api(&current[n - 1]) && values_equal(&current[n - 1], &service) {
                    is_current = true;
                }
            }
            if is_current {
                proof {
                    assert(items_view.last() == current@[n - 1].view());
                }
                return Ok(false);
            }
            let mut kept = drop_managed(current);
            let ghost kept_view = view_items(kept@);
            let ghost kept_before = kept@;
            kept.push(service);
            proof {
                lemma_view_items(kept@);
                lemma_view_items(kept_before);
                assert(kept@ =~= kept_before.push(kept@[kept_before.len() as int]));
                assert(view_items(kept@) =~= kept_view.push(sv));
                lemma_without_managed_api(items_view);
                lemma_items_well_formed(kept_view);
                lemma_items_well_formed(kept_view.push(sv));
                assert(kept_view.push(sv).len() == kept_view.len() + 1);
                assert forall|x: int| 0 <= x < kept_view.push(sv).len() implies well_formed(#[trigger] kept_view.push(sv)[x]) by {
                    if x < kept_view.len() {
                        assert(kept_view.push(sv)[x] == kept_view[x]);
                    }
                }
                lemma_items_well_formed(kept_view.push(sv));
                let nv = JsonView::Array(kept_view.push(sv));
                assert(well_formed(nv));
                lemma_insertion_index_of_key(r0, j as int);
                lemma_insert_entry(r0, "services"@, nv);
                lemma_insert_entry_well_formed(r0, "services"@, nv);
            }
            replace_member_value(root, j, Value::Array(kept));
            proof {
                let nv = JsonView::Array(kept_view.push(sv));
                assert(insert_entry(r0, "services"@, nv) == r0.update(j as int, ("services"@, nv)));
            }
            Ok(true)
        },
    }
}



/// Takes the managed API service out of the services.
fn remove_api(root: &mut Vec<Member>) -> (changed: Result<bool, ConfigError>)
    requires
        keys_sorted(view_members(old(root)@)),
        entries_well_formed(view_members(old(root)@)),
    ensures
        match without_api(view_members(old(root)@)) {
            Ok((r, c)) => changed == Ok::<bool, ConfigError>(c) && view_members(final(root)@) == r,
            Err(e) => changed == Err::<bool, ConfigError>(e) && final(root)@ == old(root)@,
        },
        keys_sorted(view_members(final(root)@)),
        entries_well_formed(view_members(final(root)@)),
{
    let ghost r0 = view_members(root@);
    proof {
        lemma_view_members(root@);
        lemma_lookup(r0, "services"@);
        lemma_entries_well_formed(r0);
    }
    match find_member(root, "services") {
        None => Ok(false),
        Some(j) => {
            assert(r0[j as int].0 == "services"@);
            assert(well_formed(r0[j as int].1));
            let count = match &root[j].value {
                Value::Array(items) => {
                    proof {
                        lemma_items_well_formed(view_items(items@));
                    }
                    count_managed(items)
                },
                _ => {
                    return Err(ConfigError::SingBoxServicesNotArray);
                },
            };
            if count == 0 {
                return Ok(false);
            }
            let kept = match &root[j].value {
                Value::Array(items) => {
                    proof {
                        lemma_without_managed_api(view_items(items@));
                    }
                    drop_managed(items)
                },
                _ => Vec::new(),
            };
            let ghost nv = JsonView::Array(view_items(kept@));
            proof {
                lemma_update_is_insert(r0, j as int, nv);
                lemma_insert_entry(r0, "services"@, nv);
                lemma_insert_entry_well_formed(r0, "services"@, nv);
            }
            replace_member_value(root, j, Value::Array(kept));
            Ok(true)
        },
    }
}

/// The view of an optional text.
pub open spec fn option_text(o: Option<String>) -> Option<Seq<char>> {
    match o {
        Some(s) => Some(s@),
        None => None,
    }
}

/// The Clash API settings once the managed dashboard was written into them.
pub open spec fn clash_settings(clash: Entries, port: u16, download_url: Option<Seq<char>>) -> Entries {
    let c = insert_entry(
        insert_entry(
            clash,
            "external_controller"@,
            JsonView::Text(LOOPBACK_HOST_PREFIX@ + decimal(port as nat)),
        ),
        "external_ui"@,
        JsonView::Text(MANAGED_CLASH_UI@),
    );
    match download_url {
        Some(url) => insert_entry(c, "external_ui_download_url"@, JsonView::Text(url)),
        None => remove_entry(c, "external_ui_download_url"@),
    }
}

/// The root once the managed Clash API was put in place, and whether its settings changed.
pub open spec fn with_clash_api(root: Entries, port: u16, download_url: Option<Seq<char>>) -> Result<
    (Entries, bool),
    ConfigError,
> {
    let experimental = match lookup(root, "experimental"@) {
        None => Some(Seq::<(Seq<char>, JsonView)>::empty()),
        Some(JsonView::Object(e)) => Some(e),
        Some(_) => None,
    };
    match experimental {
        None => Err(ConfigError::SingBoxExperimentalNotObject),
        Some(e) => {
            let current = lookup(e, "clash_api"@);
            let clash = match current {
                None => Some(Seq::<(Seq<char>, JsonView)>::empty()),
                Some(JsonView::Object(c)) => Some(c),
                Some(_) => None,
            };
            match clash {
                None => Err(ConfigError::SingBoxClashApiNotObject),
                Some(c) => {
                    let updated = JsonView::Object(clash_settings(c, port, download_url));
                    Ok(
                        (
                            insert_entry(
                                root,
                                "experimental"@,
                                JsonView::Object(insert_entry(e, "clash_api"@, updated)),
                            ),
                            current != Some(updated),
                        ),
                    )
                },
            }
        },
    }
}

/// Whether Clash API settings are the ones the application wrote: its dashboard,
/// served on the loopback address.
pub open spec fn is_managed_clash(clash: Entries) -> bool {
    &&& lookup(clash, "external_ui"@) == Some(JsonView::Text(MANAGED_CLASH_UI@))
    &&& match lookup(clash, "external_controller"@) {
        Some(JsonView::Text(t)) => has_prefix(t, LOOPBACK_HOST_PREFIX@),
        _ => false,
    }
}

/// The Clash API settings without the keys the application writes.
pub open spec fn clash_unmanaged(clash: Entries) -> Entries {
    remove_entry(
        remove_entry(remove_entry(clash, "external_controller"@), "external_ui"@),
        "external_ui_download_url"@,
    )
}

/// The root once the managed Clash API was taken out, and whether anything changed.
/// Settings the application did not write stay; what becomes empty goes.
pub open spec fn without_clash_api(root: Entries) -> Result<(Entries, bool), ConfigError> {
    match lookup(root, "experimental"@) {
        None => Ok((root, false)),
        Some(JsonView::Object(e)) => match lookup(e, "clash_api"@) {
            Some(JsonView::Object(c)) => if is_managed_clash(c) {
                let rest = clash_unmanaged(c);
                let e2 = if rest.len() == 0 {
                    remove_entry(e, "clash_api"@)
                } else {
                    insert_entry(e, "clash_api"@, JsonView::Object(rest))
                };
                let r2 = if e2.len() == 0 {
                    remove_entry(root, "experimental"@)
                } else {
                    insert_entry(root, "experimental"@, JsonView::Object(e2))
                };
                Ok((r2, true))
            } else {
                Ok((root, false))
            },
            _ => Ok((root, false)),
        },
        Some(_) => Err(ConfigError::SingBoxExperimentalNotObject),
    }
}

fn write_clash_settings(clash: &mut Vec<Member>, dashboard: &SingBoxClashDashboard)
    requires
        keys_sorted(view_members(old(clash)@)),
        entries_well_formed(view_members(old(clash)@)),
    ensures
        view_members(final(clash)@) == clash_settings(
            view_members(old(clash)@),
            dashboard.listen_port,
            option_text(dashboard.download_url),
        ),
        keys_sorted(view_members(final(clash)@)),
        entries_well_formed(view_members(final(clash)@)),
{
    let ghost c0 = view_members(clash@);
    let controller = text_with_decimal(LOOPBACK_HOST_PREFIX, dashboard.listen_port as u64);
    let ghost cv = JsonView::Text(controller@);
    proof {
        lemma_insert_entry_well_formed(c0, "external_controller"@, cv);
    }
    insert_member(clash, "external_controller".to_owned(), Value::Text(controller));
    let ghost c1 = view_members(clash@);
    proof {
        lemma_insert_entry_well_formed(c1, "external_ui"@, JsonView::Text(MANAGED_CLASH_UI@));
    }
    insert_member(clash, "external_ui".to_owned(), new_text(MANAGED_CLASH_UI));
    let ghost c2 = view_members(clash@);
    match &dashboard.download_url {
        Some(url) => {
            proof {
                lemma_insert_entry_well_formed(c2, "external_ui_download_url"@, JsonView::Text(url@));
            }
            insert_member(clash, "external_ui_download_url".to_owned(), Value::Text(url.clone()));
        },
        None => {
            proof {
                lemma_remove_entry_well_formed(c2, "external_ui_download_url"@);
            }
            let _ = remove_member(clash, "external_ui_download_url");
        },
    }
}

/// Writes the managed Clash API settings under `experimental.clash_api`.
fn insert_clash_api(root: &mut Vec<Member>, dashboard: &SingBoxClashDashboard) -> (changed: Result<
    bool,
    ConfigError,
>)
    requires
        keys_sorted(view_members(old(root)@)),
        entries_well_formed(view_members(old(root)@)),
    ensures
        match with_clash_api(
            view_members(old(root)@),
            dashboard.listen_port,
            option_text(dashboard.download_url),
        ) {
            Ok((r, c)) => changed == Ok::<bool, ConfigError>(c) && view_members(final(root)@) == r,
            Err(e) => changed == Err::<bool, ConfigError>(e) && final(root)@ == old(root)@,
        },
        keys_sorted(view_members(final(root)@)),
        entries_well_formed(view_members(final(root)@)),
{
    let ghost r0 = view_members(root@);
    let ghost url = option_text(dashboard.download_url);
    let ghost port = dashboard.listen_port;
    proof {
        lemma_view_members(root@);
        lemma_lookup(r0, "experimental"@);
        lemma_entries_well_formed(r0);
    }
    let has_clash = match member_value(root, "experimental") {
        None => false,
        Some(Value::Object(e)) => {
            proof {
                lemma_lookup(view_members(e@), "clash_api"@);
            }
            match member_value(e, "clash_api") {
                None => false,
                Some(Value::Object(_)) => true,
                Some(_) => {
                    return Err(ConfigError::SingBoxClashApiNotObject);
                },
            }
        },
        Some(_) => {
            return Err(ConfigError::SingBoxExperimentalNotObject);
        },
    };
    let mut experimental: Vec<Member> = match remove_member(root, "experimental") {
        Some(Value::Object(e)) => e,
        _ => Vec::new(),
    };
    let ghost r1 = view_members(root@);
    let ghost e0 = view_members(experimental@);
    proof {
        lemma_remove_entry(r0, "experimental"@);
        lemma_remove_entry_well_formed(r0, "experimental"@);
        if lookup(r0, "experimental"@) is Some {
            let i = choose|i: int| 0 <= i < r0.len() && #[trigger] r0[i].0 == "experimental"@;
            assert(well_formed(r0[i].1));
        }
        lemma_remove_entry(e0, "clash_api"@);
        lemma_remove_entry_well_formed(e0, "clash_api"@);
    }
    let changed = if has_clash {
        let previous = remove_member(&mut experimental, "clash_api");
        let ghost cur = lookup(e0, "clash_api"@);
        let original = match &previous {
            Some(v) => clone_value(v),
            None => Value::Null,
        };
        let mut clash: Vec<Member> = match previous {
            Some(Value::Object(c)) => c,
            _ => Vec::new(),
        };
        proof {
            let i = choose|i: int| 0 <= i < e0.len() && #[trigger] e0[i].0 == "clash_api"@;
            lemma_entries_well_formed(e0);
            assert(well_formed(e0[i].1));
        }
        write_clash_settings(&mut clash, dashboard);
        let updated = Value::Object(clash);
        let same = values_equal(&original, &updated);
        let ghost uv = updated.view();
        proof {
            lemma_insert_entry_well_formed(view_members(experimental@), "clash_api"@, uv);
            lemma_reinsert(e0, "clash_api"@, uv);
        }
        insert_member(&mut experimental, "clash_api".to_owned(), updated);
        !same
    } else {
        let mut clash: Vec<Member> = Vec::new();
        write_clash_settings(&mut clash, dashboard);
        let ghost uv = JsonView::Object(view_members(clash@));
        proof {
            lemma_insert_entry_well_formed(view_members(experimental@), "clash_api"@, uv);
            lemma_reinsert(e0, "clash_api"@, uv);
        }
        insert_member(&mut experimental, "clash_api".to_owned(), Value::Object(clash));
        true
    };
    let ghost ev = JsonView::Object(view_members(experimental@));
    proof {
        lemma_insert_entry_well_formed(r1, "experimental"@, ev);
        lemma_reinsert(r0, "experimental"@, ev);
    }
    insert_member(root, "experimental".to_owned(), Value::Object(experimental));
    Ok(changed)
}

/// Whether Clash API settings are the ones the application wrote.
fn managed_clash(clash: &Vec<Member>) -> (managed: bool)
    requires
        keys_sorted(view_members(clash@)),
    ensures
        managed == is_managed_clash(view_members(clash@)),
{
    let ui = match member_value(clash, "external_ui") {
        Some(Value::Text(t)) => text_eq(t.as_str(), MANAGED_CLASH_UI),
        _ => false,
    };
    let controller = match member_value(clash, "external_controller") {
        Some(Value::Text(t)) => text_starts_with(t.as_str(), LOOPBACK_HOST_PREFIX),
        _ => false,
    };
    ui && controller
}

/// Takes the managed Clash API settings out of `experimental.clash_api`.
fn remove_clash_api(root: &mut Vec<Member>) -> (changed: Result<bool, ConfigError>)
    requires
        keys_sorted(view_members(old(root)@)),
        entries_well_formed(view_members(old(root)@)),
    ensures
        match without_clash_api(view_members(old(root)@)) {
            Ok((r, c)) => changed == Ok::<bool, ConfigError>(c) && view_members(final(root)@) == r,
            Err(e) => changed == Err::<bool, ConfigError>(e) && final(root)@ == old(root)@,
        },
        keys_sorted(view_members(final(root)@)),
        entries_well_formed(view_members(final(root)@)),
{
    let ghost r0 = view_members(root@);
    proof {
        lemma_view_members(root@);
        lemma_lookup(r0, "experimental"@);
        lemma_entries_well_formed(r0);
    }
    let managed = match member_value(root, "experimental") {
        None => false,
        Some(Value::Object(e)) => {
            proof {
                let i = choose|i: int| 0 <= i < r0.len() && #[trigger] r0[i].0 == "experimental"@;
                assert(well_formed(r0[i].1));
                lemma_entries_well_formed(view_members(e@));
                lemma_lookup(view_members(e@), "clash_api"@);
            }
            match member_value(e, "clash_api") {
                Some(Value::Object(c)) => {
                    proof {
                        let e0 = view_members(e@);
                        let i = choose|i: int| 0 <= i < e0.len() && #[trigger] e0[i].0 == "clash_api"@;
                        assert(well_formed(e0[i].1));
                    }
                    managed_clash(c)
                },
                _ => false,
            }
        },
        Some(_) => {
            return Err(ConfigError::SingBoxExperimentalNotObject);
        },
    };
    if !managed {
        return Ok(false);
    }
    let mut experimental: Vec<Member> = match remove_member(root, "experimental") {
        Some(Value::Object(e)) => e,
        _ => Vec::new(),
    };
    let ghost r1 = view_members(root@);
    let ghost e0 = view_members(experimental@);
    proof {
        lemma_remove_entry(r0, "experimental"@);
        lemma_remove_entry_well_formed(r0, "experimental"@);
        let i = choose|i: int| 0 <= i < r0.len() && #[trigger] r0[i].0 == "experimental"@;
        assert(well_formed(r0[i].1));
        lemma_lookup(e0, "clash_api"@);
        lemma_remove_entry(e0, "clash_api"@);
        lemma_remove_entry_well_formed(e0, "clash_api"@);
        lemma_entries_well_formed(e0);
    }
    let mut clash: Vec<Member> = match remove_member(&mut experimental, "clash_api") {
        Some(Value::Object(c)) => c,
        _ => Vec::new(),
    };
    let ghost c0 = view_members(clash@);
    proof {
        let i = choose|i: int| 0 <= i < e0.len() && #[trigger] e0[i].0 == "clash_api"@;
        assert(well_formed(e0[i].1));
        lemma_remove_entry(c0, "external_controller"@);
        lemma_remove_entry_well_formed(c0, "external_controller"@);
        let c1 = remove_entry(c0, "external_controller"@);
        lemma_remove_entry(c1, "external_ui"@);
        lemma_remove_entry_well_formed(c1, "external_ui"@);
        let c2 = remove_entry(c1, "external_ui"@);
        lemma_remove_entry(c2, "external_ui_download_url"@);
        lemma_remove_entry_well_formed(c2, "external_ui_download_url"@);
    }
    let _ = remove_member(&mut clash, "external_controller");
    let _ = remove_member(&mut clash, "external_ui");
    let _ = remove_member(&mut clash, "external_ui_download_url");
    proof {
        lemma_view_members(clash@);
    }
    if clash.len() > 0 {
        let ghost cv = JsonView::Object(view_members(clash@));
        proof {
            lemma_insert_entry_well_formed(view_members(experimental@), "clash_api"@, cv);
            lemma_reinsert(e0, "clash_api"@, cv);
        }
        insert_member(&mut experimental, "clash_api".to_owned(), Value::Object(clash));
    }
    proof {
        lemma_view_members(experimental@);
    }
    if experimental.len() > 0 {
        let ghost ev = JsonView::Object(view_members(experimental@));
        proof {
            lemma_insert_entry_well_formed(r1, "experimental"@, ev);
            lemma_reinsert(r0, "experimental"@, ev);
        }
        insert_member(root, "experimental".to_owned(), Value::Object(experimental));
    }
    Ok(true)
}


/// The API step of the managed features: put the service in place, or take it out.
pub open spec fn api_step(root: Entries, dashboard: Option<SingBoxDashboard>) -> Result<
    (Entries, bool),
    ConfigError,
> {
    match dashboard {
        Some(d) => with_api(root, api_service(d.listen_port, d.update_interval@)),
        None => without_api(root),
    }
}

/// The Clash API step of the managed features: write the settings, or take them out.
pub open spec fn clash_step(root: Entries, dashboard: Option<SingBoxClashDashboard>) -> Result<
    (Entries, bool),
    ConfigError,
> {
    match dashboard {
        Some(d) => with_clash_api(root, d.listen_port, option_text(d.download_url)),
        None => without_clash_api(root),
    }
}

/// The root after both steps, and the outcome: whether either step changed it,
/// or the error of the first step that failed (the root then stays as that step found it).
pub open spec fn features_applied(root: Entries, managed: ManagedConfig) -> (
    Entries,
    Result<bool, ConfigError>,
) {
    match api_step(root, managed.sing_box_dashboard) {
        Err(e) => (root, Err(e)),
        Ok((r1, c1)) => match clash_step(r1, managed.sing_box_clash_dashboard) {
            Err(e) => (r1, Err(e)),
            Ok((r2, c2)) => (r2, Ok(c1 || c2)),
        },
    }
}

/// Applies the dashboards of `managed` to a sing-box configuration: the API service
/// and the Clash API, each put in place when configured and taken out when not.
pub fn apply_features(root: &mut Vec<Member>, managed: &ManagedConfig) -> (changed: Result<
    bool,
    ConfigError,
>)
    requires
        keys_sorted(view_members(old(root)@)),
        entries_well_formed(view_members(old(root)@)),
    ensures
        (view_members(final(root)@), changed) == features_applied(view_members(old(root)@), *managed),
        keys_sorted(view_members(final(root)@)),
        entries_well_formed(view_members(final(root)@)),
{
    let api_changed = match &managed.sing_box_dashboard {
        Some(d) => insert_api(root, d),
        None => remove_api(root),
    };
    let api_changed = match api_changed {
        Ok(c) => c,
        Err(e) => {
            return Err(e);
        },
    };
    let clash_changed = match &managed.sing_box_clash_dashboard {
        Some(d) => insert_clash_api(root, d),
        None => remove_clash_api(root),
    };
    match clash_changed {
        Ok(c) => Ok(api_changed || c),
        Err(e) => Err(e),
    }
}


proof fn lemma_api_step_frame(root: Entries, dashboard: Option<SingBoxDashboard>)
    requires
        keys_sorted(root),
    ensures
        api_step(root, dashboard) matches Ok((r, _)) ==> {
            &&& keys_sorted(r)
            &&& forall|k: Seq<char>| k != "services"@ ==> #[trigger] lookup(r, k) == lookup(root, k)
        },
{
    match dashboard {
        Some(d) => {
            let service = api_service(d.listen_port, d.update_interval@);
            match lookup(root, "services"@) {
                None => lemma_insert_entry(root, "services"@, JsonView::Array(seq![service])),
                Some(JsonView::Array(items)) => {
                    lemma_insert_entry(root, "services"@, JsonView::Array(without_managed_api(items).push(service)));
                },
                Some(_) => {},
            }
        },
        None => {
            match lookup(root, "services"@) {
                Some(JsonView::Array(items)) => {
                    lemma_insert_entry(root, "services"@, JsonView::Array(without_managed_api(items)));
                },
                _ => {},
            }
        },
    }
}

proof fn lemma_clash_step_frame(root: Entries, other: Entries, dashboard: Option<SingBoxClashDashboard>)
    requires
        keys_sorted(root),
        keys_sorted(other),
        lookup(root, "experimental"@) == lookup(other, "experimental"@),
    ensures
        (clash_step(root, dashboard) is Ok) == (clash_step(other, dashboard) is Ok),
        clash_step(root, dashboard) matches Ok((r, _)) ==> {
            &&& keys_sorted(r)
            &&& forall|k: Seq<char>| k != "experimental"@ ==> #[trigger] lookup(r, k) == lookup(root, k)
            &&& clash_step(other, dashboard) matches Ok((o, _))
            &&& lookup(r, "experimental"@) == lookup(o, "experimental"@)
        },
{
    let exp = "experimental"@;
    match dashboard {
        Some(d) => {
            match lookup(root, exp) {
                None => {
                    let e = Seq::<(Seq<char>, JsonView)>::empty();
                    let updated = JsonView::Object(clash_settings(Seq::empty(), d.listen_port, option_text(d.download_url)));
                    let v = JsonView::Object(insert_entry(e, "clash_api"@, updated));
                    lemma_insert_entry(root, exp, v);
                    lemma_insert_entry(other, exp, v);
                },
                Some(JsonView::Object(e)) => {
                    match lookup(e, "clash_api"@) {
                        None => {
                            let updated = JsonView::Object(clash_settings(Seq::empty(), d.listen_port, option_text(d.download_url)));
                            let v = JsonView::Object(insert_entry(e, "clash_api"@, updated));
                            lemma_insert_entry(root, exp, v);
                            lemma_insert_entry(other, exp, v);
                        },
                        Some(JsonView::Object(c)) => {
                            let updated = JsonView::Object(clash_settings(c, d.listen_port, option_text(d.download_url)));
                            let v = JsonView::Object(insert_entry(e, "clash_api"@, updated));
                            lemma_insert_entry(root, exp, v);
                            lemma_insert_entry(other, exp, v);
                        },
                        Some(_) => {},
                    }
                },
                Some(_) => {},
            }
        },
        None => {
            match lookup(root, exp) {
                Some(JsonView::Object(e)) => match lookup(e, "clash_api"@) {
                    Some(JsonView::Object(c)) => if is_managed_clash(c) {
                        let rest = clash_unmanaged(c);
                        let e2 = if rest.len() == 0 {
                            remove_entry(e, "clash_api"@)
                        } else {
                            insert_entry(e, "clash_api"@, JsonView::Object(rest))
                        };
                        if e2.len() == 0 {
                            lemma_remove_entry(root, exp);
                            lemma_remove_entry(other, exp);
                        } else {
                            lemma_insert_entry(root, exp, JsonView::Object(e2));
                            lemma_insert_entry(other, exp, JsonView::Object(e2));
                        }
                    },
                    _ => {},
                },
                _ => {},
            }
        },
    }
}

/// The two sing-box dashboards are applied independently. When applying them succeeds, the
/// `services` of the result are those that the API service step alone makes of the configuration,
/// its `experimental` settings those that the Clash API step alone makes of it, whatever the
/// other dashboard is, and every other member is left as it was.
pub proof fn lemma_sing_box_dashboards_independent(root: Entries, managed: ManagedConfig)
    requires
        keys_sorted(root),
    ensures
        features_applied(root, managed).1 is Ok ==> {
            let r = features_applied(root, managed).0;
            &&& api_step(root, managed.sing_box_dashboard) matches Ok((a, _)) && lookup(r, "services"@) == lookup(
                a,
                "services"@,
            )
            &&& clash_step(root, managed.sing_box_clash_dashboard) matches Ok((c, _)) && lookup(r, "experimental"@)
                == lookup(c, "experimental"@)
            &&& forall|k: Seq<char>|
                k != "services"@ && k != "experimental"@ ==> #[trigger] lookup(r, k) == lookup(root, k)
        },
{
    reveal_strlit("services");
    reveal_strlit("experimental");
    assert("services"@ != "experimental"@) by {
        assert("services"@.len() != "experimental"@.len());
    }
    lemma_api_step_frame(root, managed.sing_box_dashboard);
    match api_step(root, managed.sing_box_dashboard) {
        Ok((r1, _)) => {
            assert(lookup(r1, "experimental"@) == lookup(root, "experimental"@));
            lemma_clash_step_frame(r1, root, managed.sing_box_clash_dashboard);
        },
        Err(_) => {},
    }
}

/// Every item of a list carries a tag, and no tag occurs twice.
pub open spec fn tags_unique(items: Seq<JsonView>) -> bool {
    &&& forall|i: int| 0 <= i < items.len() ==> (#[trigger] item_tag(items[i])) is Some
    &&& forall|i: int, j: int|
        0 <= i < items.len() && 0 <= j < items.len() && i != j ==> item_tag(#[trigger] items[i])
            != item_tag(#[trigger] items[j])
}

proof fn lemma_merge_tagged_items_by_tag(t: Seq<JsonView>, s: Seq<JsonView>)
    requires
        tags_unique(t),
        tags_unique(s),
    ensures
        ({
            let r = merge_tagged_items(t, s);
            &&& r.len() >= t.len()
            &&& forall|i: int| 0 <= i < t.len() ==> item_tag(#[trigger] r[i]) == item_tag(t[i])
            &&& forall|i: int, j: int|
                0 <= i < t.len() && 0 <= j < s.len() && item_tag(#[trigger] s[j]) == item_tag(#[trigger] t[i])
                    ==> r[i] == s[j]
            &&& forall|i: int|
                #![trigger r[i]]
                0 <= i < t.len() && (forall|j: int| 0 <= j < s.len() ==> item_tag(#[trigger] s[j]) != item_tag(t[i]))
                    ==> r[i] == t[i]
            &&& forall|i: int|
                #![trigger r[i]]
                t.len() <= i < r.len() ==> (exists|j: int| 0 <= j < s.len() && r[i] == #[trigger] s[j])
                    && forall|m: int| 0 <= m < t.len() ==> item_tag(r[i]) != item_tag(#[trigger] t[m])
            &&& forall|j: int| #![trigger s[j]] 0 <= j < s.len() ==> exists|p: int| 0 <= p < r.len() && #[trigger] r[p] == s[j]
            &&& tags_unique(r)
        }),
    decreases s.len(),
{
    if s.len() > 0 {
        let k = s.len() - 1;
        let sp = s.drop_last();
        let x = s.last();
        assert forall|j: int| 0 <= j < sp.len() implies sp[j] == s[j] by {}
        assert(tags_unique(sp)) by {
            assert forall|i: int| 0 <= i < sp.len() implies (#[trigger] item_tag(sp[i])) is Some by {
                assert(sp[i] == s[i]);
            }
            assert forall|i: int, j: int|
                0 <= i < sp.len() && 0 <= j < sp.len() && i != j implies item_tag(#[trigger] sp[i])
                != item_tag(#[trigger] sp[j]) by {
                assert(sp[i] == s[i] && sp[j] == s[j]);
            }
        }
        lemma_merge_tagged_items_by_tag(t, sp);
        let rp = merge_tagged_items(t, sp);
        let r = merge_tagged_items(t, s);
        assert(r == merge_tagged_item(rp, x));
        assert(item_tag(s[k]) is Some);
        assert(x == s[k]);
        let n = item_tag(x)->0;
        // No earlier source item carries the tag of the last one.
        assert forall|j: int| 0 <= j < sp.len() implies item_tag(#[trigger] sp[j]) != Some(n) by {
            assert(sp[j] == s[j]);
        }
        lemma_first_tagged(rp, n);
        match first_tagged(rp, n) {
            Some(i0) => {
                assert(r == rp.update(i0, x));
                if i0 >= t.len() {
                    let j = choose|j: int| 0 <= j < sp.len() && rp[i0] == #[trigger] sp[j];
                    assert(item_tag(sp[j]) == Some(n));
                }
                assert(i0 < t.len());
                assert(item_tag(t[i0]) == Some(n));
                assert forall|i: int| 0 <= i < t.len() implies item_tag(#[trigger] r[i]) == item_tag(t[i]) by {
                    assert(item_tag(rp[i]) == item_tag(t[i]));
                }
                assert forall|i: int, j: int|
                    0 <= i < t.len() && 0 <= j < s.len() && item_tag(#[trigger] s[j]) == item_tag(#[trigger] t[i])
                    implies r[i] == s[j] by {
                    if j == k {
                        if i != i0 {
                            assert(item_tag(t[i]) != item_tag(t[i0]));
                        }
                    } else {
                        assert(s[j] == sp[j]);
                        assert(item_tag(sp[j]) != Some(n));
                        assert(item_tag(t[i]) != Some(n));
                        assert(rp[i] == sp[j]);
                    }
                }
                assert forall|i: int|
                    #![trigger r[i]]
                    0 <= i < t.len() && (forall|j: int| 0 <= j < s.len() ==> item_tag(#[trigger] s[j]) != item_tag(t[i]))
                    implies r[i] == t[i] by {
                    assert(item_tag(s[k]) != item_tag(t[i]));
                    assert forall|j: int| 0 <= j < sp.len() implies item_tag(#[trigger] sp[j]) != item_tag(t[i]) by {
                        assert(sp[j] == s[j]);
                        assert(item_tag(s[j]) != item_tag(t[i]));
                    }
                    assert(rp[i] == t[i]);
                }
                assert forall|i: int|
                    #![trigger r[i]]
                    t.len() <= i < r.len() implies (exists|j: int| 0 <= j < s.len() && r[i] == #[trigger] s[j])
                    && forall|m: int| 0 <= m < t.len() ==> item_tag(r[i]) != item_tag(#[trigger] t[m]) by {
                    assert(r[i] == rp[i]);
                    let j = choose|j: int| 0 <= j < sp.len() && rp[i] == #[trigger] sp[j];
                    assert(r[i] == s[j]);
                }
                assert forall|j: int| #![trigger s[j]] 0 <= j < s.len() implies exists|p: int| 0 <= p < r.len() && #[trigger] r[p] == s[j] by {
                    if j == k {
                        assert(r[i0] == s[j]);
                    } else {
                        assert(sp[j] == s[j]);
                        let p = choose|p: int| 0 <= p < rp.len() && #[trigger] rp[p] == sp[j];
                        if p == i0 {
                            assert(item_tag(rp[i0]) == Some(n));
                            assert(item_tag(sp[j]) != Some(n));
                        }
                        assert(r[p] == s[j]);
                    }
                }
                assert forall|a: int| 0 <= a < r.len() implies (#[trigger] item_tag(r[a])) is Some by {
                    assert(item_tag(rp[a]) is Some);
                }
                assert forall|a: int, b: int|
                    0 <= a < r.len() && 0 <= b < r.len() && a != b implies item_tag(#[trigger] r[a])
                    != item_tag(#[trigger] r[b]) by {
                    assert(item_tag(rp[a]) != item_tag(rp[b]));
                }
            },
            None => {
                assert(r == rp.push(x));
                assert forall|i: int| 0 <= i < t.len() implies item_tag(#[trigger] r[i]) == item_tag(t[i]) by {
                    assert(r[i] == rp[i]);
                }
                assert forall|m: int| 0 <= m < t.len() implies item_tag(#[trigger] t[m]) != Some(n) by {
                    assert(item_tag(rp[m]) == item_tag(t[m]));
                }
                assert forall|i: int, j: int|
                    0 <= i < t.len() && 0 <= j < s.len() && item_tag(#[trigger] s[j]) == item_tag(#[trigger] t[i])
                    implies r[i] == s[j] by {
                    assert(j != k);
                    assert(s[j] == sp[j]);
                    assert(r[i] == rp[i]);
                }
                assert forall|i: int|
                    #![trigger r[i]]
                    0 <= i < t.len() && (forall|j: int| 0 <= j < s.len() ==> item_tag(#[trigger] s[j]) != item_tag(t[i]))
                    implies r[i] == t[i] by {
                    assert forall|j: int| 0 <= j < sp.len() implies item_tag(#[trigger] sp[j]) != item_tag(t[i]) by {
                        assert(sp[j] == s[j]);
                        assert(item_tag(s[j]) != item_tag(t[i]));
                    }
                    assert(r[i] == rp[i]);
                }
                assert forall|i: int|
                    #![trigger r[i]]
                    t.len() <= i < r.len() implies (exists|j: int| 0 <= j < s.len() && r[i] == #[trigger] s[j])
                    && forall|m: int| 0 <= m < t.len() ==> item_tag(r[i]) != item_tag(#[trigger] t[m]) by {
                    if i == rp.len() {
                        assert(r[i] == s[k]);
                    } else {
                        assert(r[i] == rp[i]);
                        let j = choose|j: int| 0 <= j < sp.len() && rp[i] == #[trigger] sp[j];
                        assert(r[i] == s[j]);
                    }
                }
                assert forall|j: int| #![trigger s[j]] 0 <= j < s.len() implies exists|p: int| 0 <= p < r.len() && #[trigger] r[p] == s[j] by {
                    if j == k {
                        assert(r[rp.len() as int] == s[j]);
                    } else {
                        assert(sp[j] == s[j]);
                        let p = choose|p: int| 0 <= p < rp.len() && #[trigger] rp[p] == sp[j];
                        assert(r[p] == s[j]);
                    }
                }
                assert forall|a: int| 0 <= a < r.len() implies (#[trigger] item_tag(r[a])) is Some by {
                    if a < rp.len() {
                        assert(r[a] == rp[a]);
                    }
                }
                assert forall|a: int, b: int|
                    0 <= a < r.len() && 0 <= b < r.len() && a != b implies item_tag(#[trigger] r[a])
                    != item_tag(#[trigger] r[b]) by {
                    if a < rp.len() && b < rp.len() {
                        assert(r[a] == rp[a] && r[b] == rp[b]);
                    } else if a < rp.len() {
                        assert(r[a] == rp[a]);
                        assert(item_tag(rp[a]) != Some(n));
                    } else {
                        assert(r[b] == rp[b]);
                        assert(item_tag(rp[b]) != Some(n));
                    }
                }
            },
        }
    }
}

/// Lists merge by tag, the later source taking precedence: where every item of both lists has a
/// tag and no tag repeats within a list, the merged list keeps each item of the configuration in
/// its place, replaced by the source's item of the same tag where there is one, holds every item
/// of the source, and still has each tag once. So an item whose tag the source does not name is
/// never lost.
pub proof fn lemma_lists_merge_by_tag(t: Seq<JsonView>, s: Seq<JsonView>)
    requires
        tags_unique(t),
        tags_unique(s),
    ensures
        match merge_values(JsonView::Array(t), JsonView::Array(s)) {
            JsonView::Array(r) => {
                &&& r.len() >= t.len()
                &&& forall|i: int, j: int|
                    0 <= i < t.len() && 0 <= j < s.len() && item_tag(#[trigger] s[j]) == item_tag(#[trigger] t[i])
                        ==> r[i] == s[j]
                &&& forall|i: int|
                    #![trigger r[i]]
                    0 <= i < t.len() && (forall|j: int| 0 <= j < s.len() ==> item_tag(#[trigger] s[j]) != item_tag(t[i]))
                        ==> r[i] == t[i]
                &&& forall|j: int| #![trigger s[j]] 0 <= j < s.len() ==> exists|p: int| 0 <= p < r.len() && #[trigger] r[p] == s[j]
                &&& tags_unique(r)
            },
            _ => false,
        },
{
    lemma_merge_tagged_items_by_tag(t, s);
}

} // verus!
