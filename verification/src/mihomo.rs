use vstd::prelude::*;

use crate::managed::{ManagedConfig, MihomoDashboard};
use crate::sing_box::{option_text, LOOPBACK_HOST_PREFIX};
use crate::text::{decimal, has_prefix, text_eq, text_starts_with, text_with_decimal};
use crate::yaml::{
    as_text, clone_yaml, find_key, key_index, lemma_key_index, lemma_view_yaml_entries,
    lemma_view_yaml_items, lemma_view_yaml_items_concat, text_key, untag, untagged, view_yaml_entries,
    view_yaml_items, yaml_as_text, yaml_equal, yaml_insert, yaml_insert_entry, yaml_lookup,
    yaml_remove, yaml_remove_entry, YamlEntries, YamlEntry, YamlValue, YamlView, unique_keys,
    lemma_insert_lookup, lemma_insert_unique, lemma_remove_lookup, lemma_same_mapping_refl,
    lemma_insert_present, lemma_remove_absent,
};

verus! {

/// The folder of the dashboard that the application manages.
pub const MANAGED_UI_DIRECTORY: &'static str = "camellia-nexus-mihomo-dashboard";

/// The sections whose items Mihomo finds by name.
pub open spec fn is_named_section(section: Option<Seq<char>>) -> bool {
    section == Some("proxies"@) || section == Some("proxy-groups"@) || section == Some("listeners"@)
}

/// The name of an item: the text under `name` of a mapping.
pub open spec fn item_name(v: YamlView) -> Option<Seq<char>> {
    match untagged(v) {
        YamlView::Mapping(m) => match yaml_lookup(m, YamlView::Text("name"@)) {
            Some(n) => as_text(n),
            None => None,
        },
        _ => None,
    }
}

/// The first position whose item has `name`.
pub open spec fn first_named(items: Seq<YamlView>, name: Seq<char>) -> Option<int>
    decreases items.len(),
{
    if items.len() == 0 {
        None
    } else if item_name(items[0]) == Some(name) {
        Some(0)
    } else {
        match first_named(items.drop_first(), name) {
            Some(i) => Some(i + 1),
            None => None,
        }
    }
}

pub proof fn lemma_first_named(items: Seq<YamlView>, name: Seq<char>)
    ensures
        match first_named(items, name) {
            Some(i) => 0 <= i < items.len() && item_name(items[i]) == Some(name) && forall|j: int|
                0 <= j < i ==> item_name(#[trigger] items[j]) != Some(name),
            None => forall|j: int| 0 <= j < items.len() ==> item_name(#[trigger] items[j]) != Some(name),
        },
    decreases items.len(),
{
    if items.len() > 0 {
        let rest = items.drop_first();
        lemma_first_named(rest, name);
        if item_name(items[0]) != Some(name) {
            match first_named(rest, name) {
                Some(i) => {
                    assert(items[i + 1] == rest[i]);
                    assert forall|j: int| 0 <= j < i + 1 implies item_name(#[trigger] items[j]) != Some(name) by {
                        if j > 0 {
                            assert(items[j] == rest[j - 1]);
                        }
                    }
                },
                None => {
                    assert forall|j: int| 0 <= j < items.len() implies item_name(#[trigger] items[j]) != Some(name) by {
                        if j > 0 {
                            assert(items[j] == rest[j - 1]);
                        }
                    }
                },
            }
        }
    }
}

/// A named section merged with a source section, item by item: an item whose name is
/// present replaces that item in place; any other is appended.
pub open spec fn merge_named(target: Seq<YamlView>, source: Seq<YamlView>) -> Seq<YamlView>
    decreases source.len(),
{
    if source.len() == 0 {
        target
    } else {
        let t = merge_named(target, source.drop_last());
        let item = source.last();
        match item_name(item) {
            Some(n) => match first_named(t, n) {
                Some(i) => t.update(i, item),
                None => t.push(item),
            },
            None => t.push(item),
        }
    }
}

/// A Mihomo value merged with a source value under `section`: mappings merge key by key,
/// named sections by name, other lists are joined, anything else is replaced.
pub open spec fn merge_yaml_values(target: YamlView, source: YamlView, section: Option<Seq<char>>) -> YamlView
    decreases source,
{
    match (target, source) {
        (YamlView::Mapping(t), YamlView::Mapping(s)) => YamlView::Mapping(merge_yaml_entries(t, s)),
        (YamlView::Sequence(t), YamlView::Sequence(s)) => if is_named_section(section) {
            YamlView::Sequence(merge_named(t, s))
        } else {
            YamlView::Sequence(t + s)
        },
        _ => source,
    }
}

/// A Mihomo mapping merged with a source mapping, key by key in the source's order: a key
/// already present is merged in place, a new key is added at the end.
pub open spec fn merge_yaml_entries(target: YamlEntries, source: YamlEntries) -> YamlEntries
    decreases source,
{
    if source.len() == 0 {
        target
    } else {
        let m = merge_yaml_entries(target, source.subrange(0, source.len() - 1));
        let k = source[source.len() - 1].0;
        let v = source[source.len() - 1].1;
        match key_index(m, k) {
            Some(i) => m.update(i, (k, merge_yaml_values(m[i].1, v, as_text(k)))),
            None => m.push((k, v)),
        }
    }
}

proof fn lemma_yaml_lookup_last(m: YamlEntries, k: YamlView)
    requires
        unique_keys(m),
        m.len() > 0,
    ensures
        unique_keys(m.subrange(0, m.len() - 1)),
        k == m[m.len() - 1].0 ==> yaml_lookup(m, k) == Some(m[m.len() - 1].1),
        k != m[m.len() - 1].0 ==> yaml_lookup(m, k) == yaml_lookup(m.subrange(0, m.len() - 1), k),
{
    let n = m.len() - 1;
    let p = m.subrange(0, n);
    assert forall|i: int, j: int| 0 <= i < j < p.len() implies #[trigger] p[i].0 != #[trigger] p[j].0 by {
        assert(p[i] == m[i] && p[j] == m[j]);
    }
    lemma_key_index(m, k);
    lemma_key_index(p, k);
    if k == m[n].0 {
        match key_index(m, k) {
            Some(i) => {
                if i < n {
                    assert(m[i].0 != m[n].0);
                }
            },
            None => {},
        }
    } else {
        match key_index(p, k) {
            Some(i) => {
                assert(m[i] == p[i]);
                assert forall|j: int| 0 <= j < i implies #[trigger] m[j].0 != k by {
                    assert(m[j] == p[j]);
                }
                lemma_key_index(m, k);
            },
            None => {
                assert forall|j: int| 0 <= j < m.len() implies #[trigger] m[j].0 != k by {
                    if j < n {
                        assert(m[j] == p[j]);
                    }
                }
            },
        }
    }
}

/// Sources merge in order and the later one takes precedence: merging a source into a Mihomo
/// configuration merges each key the source names with the configuration's value for it (a key
/// new to the configuration takes the source's value), and leaves every other key as it was.
/// In particular ordered lists such as `rules` are joined in source order, while a plain value
/// of the source replaces the configuration's.
pub proof fn lemma_mihomo_later_source_wins(target: YamlEntries, source: YamlEntries, k: YamlView)
    requires
        unique_keys(source),
    ensures
        match yaml_lookup(source, k) {
            None => yaml_lookup(merge_yaml_entries(target, source), k) == yaml_lookup(target, k),
            Some(v) => yaml_lookup(merge_yaml_entries(target, source), k) == match yaml_lookup(target, k) {
                None => Some(v),
                Some(t) => Some(merge_yaml_values(t, v, as_text(k))),
            },
        },
        match (yaml_lookup(target, k), yaml_lookup(source, k)) {
            (Some(YamlView::Sequence(t)), Some(YamlView::Sequence(s))) => !is_named_section(as_text(k))
                ==> yaml_lookup(merge_yaml_entries(target, source), k) == Some(YamlView::Sequence(t + s)),
            (_, Some(v)) => !(v is Mapping) && !(v is Sequence) ==> yaml_lookup(
                merge_yaml_entries(target, source),
                k,
            ) == Some(v),
            _ => true,
        },
    decreases source.len(),
{
    if source.len() > 0 {
        let n = source.len() - 1;
        let prefix = source.subrange(0, n);
        lemma_yaml_lookup_last(source, k);
        lemma_mihomo_later_source_wins(target, prefix, k);
        let m = merge_yaml_entries(target, prefix);
        let key = source[n].0;
        let v = source[n].1;
        lemma_key_index(m, key);
        let value = match key_index(m, key) {
            Some(i) => merge_yaml_values(m[i].1, v, as_text(key)),
            None => v,
        };
        assert(merge_yaml_entries(target, source) == yaml_insert(m, key, value));
        lemma_insert_lookup(m, key, value, k);
        if k == key {
            assert(yaml_lookup(prefix, k) is None) by {
                lemma_key_index(prefix, k);
                lemma_key_index(source, k);
                match key_index(prefix, k) {
                    Some(i) => {
                        assert(prefix[i] == source[i]);
                        assert(source[i].0 != source[n].0);
                    },
                    None => {},
                }
            }
        }
    }
}

/// The name of an item.
fn named(v: &YamlValue) -> (name: Option<&String>)
    ensures
        match name {
            Some(n) => item_name(v.view()) == Some(n@),
            None => item_name(v.view()) is None,
        },
{
    match untag(v) {
        YamlValue::Mapping(entries) => {
            let key = text_key("name");
            let found = find_key(entries, &key);
            proof {
                lemma_view_yaml_entries(entries@);
                lemma_key_index(view_yaml_entries(entries@), key.view());
            }
            match found {
                Some(i) => {
                    yaml_as_text(&entries[i].value)
                },
                None => None,
            }
        },
        _ => None,
    }
}

/// Merges a named source section into a target section.
fn merge_named_sequence(target: &mut Vec<YamlValue>, source: &Vec<YamlValue>)
    ensures
        view_yaml_items(final(target)@) == merge_named(view_yaml_items(old(target)@), view_yaml_items(source@)),
{
    let ghost t0 = view_yaml_items(target@);
    let ghost s = view_yaml_items(source@);
    proof {
        lemma_view_yaml_items(source@);
    }
    let mut i: usize = 0;
    while i < source.len()
        invariant
            i <= source.len(),
            s == view_yaml_items(source@),
            s.len() == source@.len(),
            forall|j: int| 0 <= j < source@.len() ==> #[trigger] s[j] == source@[j].view(),
            view_yaml_items(target@) == merge_named(t0, s.subrange(0, i as int)),
        decreases source.len() - i,
    {
        let ghost before = view_yaml_items(target@);
        proof {
            lemma_view_yaml_items(target@);
            assert(s.subrange(0, i + 1).drop_last() =~= s.subrange(0, i as int));
            assert(s.subrange(0, i + 1).last() == s[i as int]);
        }
        let item = &source[i];
        assert(item.view() == s[i as int]);
        let mut position: Option<usize> = None;
        match named(item) {
            Some(n) => {
                let mut j: usize = 0;
                while j < target.len() && position.is_none()
                    invariant
                        j <= target.len(),
                        before == view_yaml_items(target@),
                        before.len() == target@.len(),
                        forall|x: int| 0 <= x < target@.len() ==> #[trigger] before[x] == target@[x].view(),
                        forall|x: int|
                            0 <= x < j && !(position == Some(x as usize)) ==> item_name(#[trigger] before[x])
                                != Some(n@),
                        match position {
                            Some(p) => p < before.len() && item_name(before[p as int]) == Some(n@) && j == p + 1,
                            None => true,
                        },
                    decreases target.len() - j,
                {
                    assert(before[j as int] == target@[j as int].view());
                    let same = match named(&target[j]) {
                        Some(m) => text_eq(m.as_str(), n.as_str()),
                        None => false,
                    };
                    if same {
                        position = Some(j);
                    }
                    j = j + 1;
                }
                proof {
                    lemma_first_named(before, n@);
                    match position {
                        Some(p) => {
                            match first_named(before, n@) {
                                Some(q) => {
                                    if q < p {
                                        assert(item_name(before[q]) != Some(n@));
                                    } else if q > p {
                                        assert(item_name(before[p as int]) == Some(n@));
                                    }
                                },
                                None => {
                                    assert(item_name(before[p as int]) == Some(n@));
                                },
                            }
                        },
                        None => {
                            if let Some(q) = first_named(before, n@) {
                                assert(item_name(before[q]) != Some(n@));
                            }
                        },
                    }
                }
            },
            None => {},
        }
        let copy = clone_yaml(item);
        let ghost cv = copy.view();
        match position {
            Some(p) => {
                target.set(p, copy);
                proof {
                    lemma_view_yaml_items(target@);
                    assert(view_yaml_items(target@) =~= before.update(p as int, cv));
                }
            },
            None => {
                target.push(copy);
                proof {
                    lemma_view_yaml_items(target@);
                    assert(view_yaml_items(target@) =~= before.push(cv));
                }
            },
        }
        i = i + 1;
    }
    proof {
        assert(s.subrange(0, source@.len() as int) =~= s);
    }
}

/// Merges a source value into a target value under `section`.
#[verifier::loop_isolation(false)]
pub fn merge_yaml_value(target: YamlValue, source: &YamlValue, section: Option<&String>) -> (merged: YamlValue)
    ensures
        merged.view() == merge_yaml_values(
            target.view(),
            source.view(),
            match section {
                Some(s) => Some(s@),
                None => None,
            },
        ),
    decreases source,
{
    match (target, source) {
        (YamlValue::Mapping(mut t), YamlValue::Mapping(s)) => {
            merge_mapping_entries(&mut t, s);
            YamlValue::Mapping(t)
        },
        (YamlValue::Sequence(mut t), YamlValue::Sequence(s)) => {
            let named_section = match section {
                Some(name) => text_eq(name.as_str(), "proxies") || text_eq(name.as_str(), "proxy-groups")
                    || text_eq(name.as_str(), "listeners"),
                None => false,
            };
            if named_section {
                merge_named_sequence(&mut t, s);
            } else {
                let ghost first = t@;
                let mut i: usize = 0;
                while i < s.len()
                    invariant
                        i <= s.len(),
                        t@.len() == first.len() + i,
                        forall|j: int| 0 <= j < first.len() ==> #[trigger] t@[j] == first[j],
                        forall|j: int| 0 <= j < i ==> #[trigger] t@[first.len() + j].view() == s@[j].view(),
                    decreases s.len() - i,
                {
                    t.push(clone_yaml(&s[i]));
                    i = i + 1;
                }
                proof {
                    lemma_view_yaml_items(t@);
                    lemma_view_yaml_items(first);
                    lemma_view_yaml_items(s@);
                    assert(view_yaml_items(t@) =~= view_yaml_items(first) + view_yaml_items(s@)) by {
                        assert forall|j: int| 0 <= j < t@.len() implies #[trigger] view_yaml_items(t@)[j]
                            == (view_yaml_items(first) + view_yaml_items(s@))[j] by {
                            if j >= first.len() {
                                assert(t@[first.len() + (j - first.len())].view() == s@[j - first.len()].view());
                            }
                        }
                    }
                }
            }
            YamlValue::Sequence(t)
        },
        (_, s) => clone_yaml(s),
    }
}


/// Merges the entries of a source mapping into a target mapping.
#[verifier::loop_isolation(false)]
pub fn merge_mapping_entries(target: &mut Vec<YamlEntry>, source: &Vec<YamlEntry>)
    ensures
        view_yaml_entries(final(target)@) == merge_yaml_entries(
            view_yaml_entries(old(target)@),
            view_yaml_entries(source@),
        ),
    decreases source,
{
    let ghost t0 = view_yaml_entries(target@);
    let ghost s = view_yaml_entries(source@);
    proof {
        lemma_view_yaml_entries(source@);
    }
    let mut i: usize = 0;
    while i < source.len()
        invariant
            i <= source.len(),
            view_yaml_entries(target@) == merge_yaml_entries(t0, s.subrange(0, i as int)),
        decreases source.len() - i,
    {
        let ghost m = view_yaml_entries(target@);
        let ghost k = s[i as int].0;
        let ghost v = s[i as int].1;
        proof {
            let next = s.subrange(0, i + 1);
            assert(next.subrange(0, i as int) =~= s.subrange(0, i as int));
            assert(next[i as int] == s[i as int]);
            lemma_view_yaml_entries(target@);
            lemma_key_index(m, k);
        }
        let entry = &source[i];
        assert(entry.key.view() == k && entry.value.view() == v);
        match find_key(target, &entry.key) {
            Some(j) => {
                let section = yaml_as_text(&entry.key);
                let ghost current = target@[j as int].value.view();
                let taken = target.remove(j);
                let merged = merge_yaml_value(taken.value, &entry.value, section);
                let ghost mv = merged.view();
                target.insert(j, YamlEntry { key: taken.key, value: merged });
                proof {
                    lemma_view_yaml_entries(target@);
                    assert(view_yaml_entries(target@) =~= m.update(j as int, (k, mv)));
                }
            },
            None => {
                let k2 = clone_yaml(&entry.key);
                let v2 = clone_yaml(&entry.value);
                target.push(YamlEntry { key: k2, value: v2 });
                proof {
                    lemma_view_yaml_entries(target@);
                    assert(view_yaml_entries(target@) =~= m.push((k, v)));
                }
            },
        }
        i = i + 1;
    }
    proof {
        assert(s.subrange(0, source@.len() as int) =~= s);
    }
}

/// Merges one Mihomo configuration source into the configuration merged so far: mappings
/// merge key by key, proxies, proxy groups and listeners by name, other lists (rules among them)
/// are joined so that earlier entries keep their priority, and anything else is replaced.
pub fn merge_mapping(target: &mut Vec<YamlEntry>, source: Vec<YamlEntry>)
    ensures
        view_yaml_entries(final(target)@) == merge_yaml_entries(
            view_yaml_entries(old(target)@),
            view_yaml_entries(source@),
        ),
{
    merge_mapping_entries(target, &source);
}


/// The root with the managed dashboard written into it.
pub open spec fn dashboard_inserted(root: YamlEntries, port: u16, download_url: Option<Seq<char>>) -> YamlEntries {
    let r1 = yaml_insert(
        root,
        YamlView::Text("external-controller"@),
        YamlView::Text(LOOPBACK_HOST_PREFIX@ + decimal(port as nat)),
    );
    let r2 = yaml_insert(r1, YamlView::Text("external-ui"@), YamlView::Text(MANAGED_UI_DIRECTORY@));
    match download_url {
        Some(url) => yaml_insert(r2, YamlView::Text("external-ui-url"@), YamlView::Text(url)),
        None => yaml_remove(r2, YamlView::Text("external-ui-url"@)),
    }
}

/// The text under a text key.
pub open spec fn string_value(root: YamlEntries, key: Seq<char>) -> Option<Seq<char>> {
    match yaml_lookup(root, YamlView::Text(key)) {
        Some(v) => as_text(v),
        None => None,
    }
}

/// Whether the dashboard settings are the ones the application wrote: its folder, served on
/// the loopback address.
pub open spec fn is_managed_dashboard(root: YamlEntries) -> bool {
    string_value(root, "external-ui"@) == Some(MANAGED_UI_DIRECTORY@) && match string_value(
        root,
        "external-controller"@,
    ) {
        Some(c) => has_prefix(c, LOOPBACK_HOST_PREFIX@),
        None => false,
    }
}

/// The root without the managed dashboard; settings that the user wrote stay.
pub open spec fn dashboard_removed(root: YamlEntries) -> YamlEntries {
    if is_managed_dashboard(root) {
        yaml_remove(
            yaml_remove(
                yaml_remove(root, YamlView::Text("external-controller"@)),
                YamlView::Text("external-ui"@),
            ),
            YamlView::Text("external-ui-url"@),
        )
    } else {
        root
    }
}

/// Whether two mappings bind the same keys to the same values, in any order.
pub open spec fn same_mapping(a: YamlEntries, b: YamlEntries) -> bool {
    a.len() == b.len() && forall|i: int| 0 <= i < a.len() ==> yaml_lookup(b, #[trigger] a[i].0) == Some(a[i].1)
}

/// The root with the Mihomo dashboard of `managed` applied, and whether it changed.
pub open spec fn mihomo_features_applied(root: YamlEntries, managed: ManagedConfig) -> (YamlEntries, bool) {
    let r = match managed.mihomo_dashboard {
        Some(d) => dashboard_inserted(root, d.listen_port, option_text(d.download_url)),
        None => dashboard_removed(root),
    };
    (r, !same_mapping(root, r))
}

fn text_value(text: String) -> (v: YamlValue)
    ensures
        v.view() == YamlView::Text(text@),
{
    YamlValue::Text(text)
}

fn insert_dashboard(root: &mut Vec<YamlEntry>, dashboard: &MihomoDashboard)
    ensures
        view_yaml_entries(final(root)@) == dashboard_inserted(
            view_yaml_entries(old(root)@),
            dashboard.listen_port,
            option_text(dashboard.download_url),
        ),
{
    let controller = text_with_decimal(LOOPBACK_HOST_PREFIX, dashboard.listen_port as u64);
    yaml_insert_entry(root, text_key("external-controller"), text_value(controller));
    yaml_insert_entry(root, text_key("external-ui"), text_key(MANAGED_UI_DIRECTORY));
    match &dashboard.download_url {
        Some(url) => yaml_insert_entry(root, text_key("external-ui-url"), text_value(url.clone())),
        None => yaml_remove_entry(root, &text_key("external-ui-url")),
    }
}

fn string_value_of<'a>(root: &'a Vec<YamlEntry>, key: &str) -> (text: Option<&'a String>)
    ensures
        match text {
            Some(t) => string_value(view_yaml_entries(root@), key@) == Some(t@),
            None => string_value(view_yaml_entries(root@), key@) is None,
        },
{
    let k = text_key(key);
    let found = find_key(root, &k);
    proof {
        lemma_view_yaml_entries(root@);
        lemma_key_index(view_yaml_entries(root@), k.view());
    }
    match found {
        Some(i) => yaml_as_text(&root[i].value),
        None => None,
    }
}

fn remove_dashboard(root: &mut Vec<YamlEntry>)
    ensures
        view_yaml_entries(final(root)@) == dashboard_removed(view_yaml_entries(old(root)@)),
{
    let ui = match string_value_of(root, "external-ui") {
        Some(t) => text_eq(t.as_str(), MANAGED_UI_DIRECTORY),
        None => false,
    };
    let controller = match string_value_of(root, "external-controller") {
        Some(t) => text_starts_with(t.as_str(), LOOPBACK_HOST_PREFIX),
        None => false,
    };
    if !(ui && controller) {
        return;
    }
    yaml_remove_entry(root, &text_key("external-controller"));
    yaml_remove_entry(root, &text_key("external-ui"));
    yaml_remove_entry(root, &text_key("external-ui-url"));
}

/// Whether two mappings bind the same keys to the same values, in any order.
fn mappings_equal(a: &Vec<YamlEntry>, b: &Vec<YamlEntry>) -> (equal: bool)
    ensures
        equal == same_mapping(view_yaml_entries(a@), view_yaml_entries(b@)),
{
    let ghost av = view_yaml_entries(a@);
    let ghost bv = view_yaml_entries(b@);
    proof {
        lemma_view_yaml_entries(a@);
        lemma_view_yaml_entries(b@);
    }
    if a.len() != b.len() {
        return false;
    }
    let mut i: usize = 0;
    while i < a.len()
        invariant
            i <= a@.len(),
            av == view_yaml_entries(a@),
            bv == view_yaml_entries(b@),
            av.len() == a@.len(),
            bv.len() == b@.len(),
            a@.len() == b@.len(),
            forall|j: int| 0 <= j < a@.len() ==> #[trigger] av[j] == (a@[j].key.view(), a@[j].value.view()),
            forall|j: int| 0 <= j < b@.len() ==> #[trigger] bv[j] == (b@[j].key.view(), b@[j].value.view()),
            forall|j: int| 0 <= j < i ==> yaml_lookup(bv, #[trigger] av[j].0) == Some(av[j].1),
        decreases a@.len() - i,
    {
        let found = find_key(b, &a[i].key);
        assert(av[i as int].0 == a@[i as int].key.view());
        proof {
            lemma_key_index(bv, a@[i as int].key.view());
        }
        match found {
            Some(j) => {
                if !yaml_equal(&b[j].value, &a[i].value) {
                    assert(yaml_lookup(bv, av[i as int].0) != Some(av[i as int].1));
                    return false;
                }
            },
            None => {
                assert(yaml_lookup(bv, av[i as int].0) is None);
                return false;
            },
        }
        i = i + 1;
    }
    true
}

/// Applies the Mihomo dashboard of `managed`: written in when configured, and the managed one
/// taken out when not; whether the mapping changed.
pub fn apply_features(root: &mut Vec<YamlEntry>, managed: &ManagedConfig) -> (changed: bool)
    ensures
        (view_yaml_entries(final(root)@), changed) == mihomo_features_applied(view_yaml_entries(old(root)@), *managed),
{
    let mut before: Vec<YamlEntry> = Vec::new();
    let ghost r0 = view_yaml_entries(root@);
    let mut i: usize = 0;
    while i < root.len()
        invariant
            i <= root@.len(),
            view_yaml_entries(root@) == r0,
            before@.len() == i,
            forall|j: int|
                0 <= j < i ==> #[trigger] before@[j].key.view() == root@[j].key.view()
                    && before@[j].value.view() == root@[j].value.view(),
        decreases root@.len() - i,
    {
        let k = clone_yaml(&root[i].key);
        let v = clone_yaml(&root[i].value);
        before.push(YamlEntry { key: k, value: v });
        i = i + 1;
    }
    proof {
        crate::yaml::lemma_yaml_entries_ext(before@, root@);
    }
    match &managed.mihomo_dashboard {
        Some(d) => insert_dashboard(root, d),
        None => remove_dashboard(root),
    }
    !mappings_equal(&before, root)
}


proof fn lemma_dashboard_keys_differ()
    ensures
        YamlView::Text("external-controller"@) != YamlView::Text("external-ui"@),
        YamlView::Text("external-controller"@) != YamlView::Text("external-ui-url"@),
        YamlView::Text("external-ui"@) != YamlView::Text("external-ui-url"@),
{
    reveal_strlit("external-controller");
    reveal_strlit("external-ui");
    reveal_strlit("external-ui-url");
    assert("external-controller"@.len() != "external-ui"@.len());
    assert("external-controller"@.len() != "external-ui-url"@.len());
    assert("external-ui"@.len() != "external-ui-url"@.len());
}

/// Applying the Mihomo dashboard settings a second time changes nothing: the settings written
/// (or taken out) the first time are found as they should be the second time.
pub proof fn lemma_mihomo_features_idempotent(root: YamlEntries, managed: ManagedConfig)
    requires
        unique_keys(root),
    ensures
        ({
            let once = mihomo_features_applied(root, managed).0;
            &&& mihomo_features_applied(once, managed).0 == once
            &&& !mihomo_features_applied(once, managed).1
        }),
{
    let ec = YamlView::Text("external-controller"@);
    let ui = YamlView::Text("external-ui"@);
    let url = YamlView::Text("external-ui-url"@);
    lemma_dashboard_keys_differ();
    let once = mihomo_features_applied(root, managed).0;
    match managed.mihomo_dashboard {
        Some(d) => {
            let port = d.listen_port;
            let download = option_text(d.download_url);
            let v1 = YamlView::Text(LOOPBACK_HOST_PREFIX@ + decimal(port as nat));
            let v2 = YamlView::Text(MANAGED_UI_DIRECTORY@);
            let r1 = yaml_insert(root, ec, v1);
            let r2 = yaml_insert(r1, ui, v2);
            lemma_insert_unique(root, ec, v1);
            lemma_insert_unique(r1, ui, v2);
            lemma_insert_lookup(root, ec, v1, ec);
            lemma_insert_lookup(r1, ui, v2, ec);
            lemma_insert_lookup(r1, ui, v2, ui);
            match download {
                Some(u) => {
                    lemma_insert_lookup(r2, url, YamlView::Text(u), ec);
                    lemma_insert_lookup(r2, url, YamlView::Text(u), ui);
                    lemma_insert_lookup(r2, url, YamlView::Text(u), url);
                    lemma_insert_unique(r2, url, YamlView::Text(u));
                    assert(once == yaml_insert(r2, url, YamlView::Text(u)));
                    lemma_insert_present(once, ec, v1);
                    lemma_insert_present(once, ui, v2);
                    lemma_insert_present(once, url, YamlView::Text(u));
                },
                None => {
                    lemma_remove_lookup(r2, url, ec);
                    lemma_remove_lookup(r2, url, ui);
                    lemma_remove_lookup(r2, url, url);
                    assert(once == yaml_remove(r2, url));
                    lemma_insert_present(once, ec, v1);
                    lemma_insert_present(once, ui, v2);
                    lemma_remove_absent(once, url);
                },
            }
            assert(mihomo_features_applied(once, managed).0 == once);
            lemma_same_mapping_refl(once);
        },
        None => {
            if is_managed_dashboard(root) {
                let r1 = yaml_remove(root, ec);
                let r2 = yaml_remove(r1, ui);
                lemma_remove_lookup(root, ec, ui);
                lemma_remove_lookup(r1, ui, ui);
                lemma_remove_lookup(r2, url, ui);
                assert(once == yaml_remove(r2, url));
                assert(string_value(once, "external-ui"@) is None);
            }
            assert(mihomo_features_applied(once, managed).0 == once);
            lemma_same_mapping_refl(once);
        },
    }
}

/// Taking out the dashboard leaves a configuration alone unless its dashboard settings are the
/// ones the application writes: a dashboard that the user set up stays.
pub proof fn lemma_user_dashboard_is_kept(root: YamlEntries, managed: ManagedConfig)
    requires
        managed.mihomo_dashboard is None,
        !is_managed_dashboard(root),
    ensures
        mihomo_features_applied(root, managed).0 == root,
{
}

/// Every item of a list carries a name, and no name occurs twice.
pub open spec fn names_unique(items: Seq<YamlView>) -> bool {
    &&& forall|i: int| 0 <= i < items.len() ==> (#[trigger] item_name(items[i])) is Some
    &&& forall|i: int, j: int|
        0 <= i < items.len() && 0 <= j < items.len() && i != j ==> item_name(#[trigger] items[i])
            != item_name(#[trigger] items[j])
}

proof fn lemma_merge_named_by_name(t: Seq<YamlView>, s: Seq<YamlView>)
    requires
        names_unique(t),
        names_unique(s),
    ensures
        ({
            let r = merge_named(t, s);
            &&& r.len() >= t.len()
            &&& forall|i: int| 0 <= i < t.len() ==> item_name(#[trigger] r[i]) == item_name(t[i])
            &&& forall|i: int, j: int|
                0 <= i < t.len() && 0 <= j < s.len() && item_name(#[trigger] s[j]) == item_name(#[trigger] t[i])
                    ==> r[i] == s[j]
            &&& forall|i: int|
                #![trigger r[i]]
                0 <= i < t.len() && (forall|j: int| 0 <= j < s.len() ==> item_name(#[trigger] s[j]) != item_name(t[i]))
                    ==> r[i] == t[i]
            &&& forall|i: int|
                #![trigger r[i]]
                t.len() <= i < r.len() ==> (exists|j: int| 0 <= j < s.len() && r[i] == #[trigger] s[j])
                    && forall|m: int| 0 <= m < t.len() ==> item_name(r[i]) != item_name(#[trigger] t[m])
            &&& forall|j: int| #![trigger s[j]] 0 <= j < s.len() ==> exists|p: int| 0 <= p < r.len() && #[trigger] r[p] == s[j]
            &&& names_unique(r)
        }),
    decreases s.len(),
{
    if s.len() > 0 {
        let k = s.len() - 1;
        let sp = s.drop_last();
        let x = s.last();
        assert forall|j: int| 0 <= j < sp.len() implies sp[j] == s[j] by {}
        assert(names_unique(sp)) by {
            assert forall|i: int| 0 <= i < sp.len() implies (#[trigger] item_name(sp[i])) is Some by {
                assert(sp[i] == s[i]);
            }
            assert forall|i: int, j: int|
                0 <= i < sp.len() && 0 <= j < sp.len() && i != j implies item_name(#[trigger] sp[i])
                != item_name(#[trigger] sp[j]) by {
                assert(sp[i] == s[i] && sp[j] == s[j]);
            }
        }
        lemma_merge_named_by_name(t, sp);
        let rp = merge_named(t, sp);
        let r = merge_named(t, s);
        assert(item_name(s[k]) is Some);
        assert(x == s[k]);
        let n = item_name(x)->0;
        // No earlier source item carries the name of the last one.
        assert forall|j: int| 0 <= j < sp.len() implies item_name(#[trigger] sp[j]) != Some(n) by {
            assert(sp[j] == s[j]);
        }
        lemma_first_named(rp, n);
        match first_named(rp, n) {
            Some(i0) => {
                assert(r == rp.update(i0, x));
                if i0 >= t.len() {
                    let j = choose|j: int| 0 <= j < sp.len() && rp[i0] == #[trigger] sp[j];
                    assert(item_name(sp[j]) == Some(n));
                }
                assert(i0 < t.len());
                assert(item_name(t[i0]) == Some(n));
                assert forall|i: int| 0 <= i < t.len() implies item_name(#[trigger] r[i]) == item_name(t[i]) by {
                    assert(item_name(rp[i]) == item_name(t[i]));
                }
                assert forall|i: int, j: int|
                    0 <= i < t.len() && 0 <= j < s.len() && item_name(#[trigger] s[j]) == item_name(#[trigger] t[i])
                    implies r[i] == s[j] by {
                    if j == k {
                        if i != i0 {
                            assert(item_name(t[i]) != item_name(t[i0]));
                        }
                    } else {
                        assert(s[j] == sp[j]);
                        assert(item_name(sp[j]) != Some(n));
                        assert(item_name(t[i]) != Some(n));
                        assert(rp[i] == sp[j]);
                    }
                }
                assert forall|i: int|
                    #![trigger r[i]]
                    0 <= i < t.len() && (forall|j: int| 0 <= j < s.len() ==> item_name(#[trigger] s[j]) != item_name(t[i]))
                    implies r[i] == t[i] by {
                    assert(item_name(s[k]) != item_name(t[i]));
                    assert forall|j: int| 0 <= j < sp.len() implies item_name(#[trigger] sp[j]) != item_name(t[i]) by {
                        assert(sp[j] == s[j]);
                        assert(item_name(s[j]) != item_name(t[i]));
                    }
                    assert(rp[i] == t[i]);
                }
                assert forall|i: int|
                    #![trigger r[i]]
                    t.len() <= i < r.len() implies (exists|j: int| 0 <= j < s.len() && r[i] == #[trigger] s[j])
                    && forall|m: int| 0 <= m < t.len() ==> item_name(r[i]) != item_name(#[trigger] t[m]) by {
                    assert(r[i] == rp[i]);
                    let j = choose|j: int| 0 <= j < sp.len() && rp[i] == #[trigger] sp[j];
                    assert(r[i] == s[j]);
                }
                assert forall|j: int| #![trigger s[j]] 0 <= j < s.len() implies exists|p: int| 0 <= p < r.len() && #[trigger] r[p] == s[j] by {
                    if j == k {
                        assert(r[i0] == s[j]);
                    } else {
                        assert(sp[j] == s[j]);
                        let p = choose|p: int| 0 <= p < rp.len() && #[trigger] rp[p] == sp[j];
                        if p == i0 {
                            assert(item_name(rp[i0]) == Some(n));
                            assert(item_name(sp[j]) != Some(n));
                        }
                        assert(r[p] == s[j]);
                    }
                }
                assert forall|a: int| 0 <= a < r.len() implies (#[trigger] item_name(r[a])) is Some by {
                    assert(item_name(rp[a]) is Some);
                }
                assert forall|a: int, b: int|
                    0 <= a < r.len() && 0 <= b < r.len() && a != b implies item_name(#[trigger] r[a])
                    != item_name(#[trigger] r[b]) by {
                    assert(item_name(rp[a]) != item_name(rp[b]));
                }
            },
            None => {
                assert(r == rp.push(x));
                assert forall|i: int| 0 <= i < t.len() implies item_name(#[trigger] r[i]) == item_name(t[i]) by {
                    assert(r[i] == rp[i]);
                }
                assert forall|m: int| 0 <= m < t.len() implies item_name(#[trigger] t[m]) != Some(n) by {
                    assert(item_name(rp[m]) == item_name(t[m]));
                }
                assert forall|i: int, j: int|
                    0 <= i < t.len() && 0 <= j < s.len() && item_name(#[trigger] s[j]) == item_name(#[trigger] t[i])
                    implies r[i] == s[j] by {
                    assert(j != k);
                    assert(s[j] == sp[j]);
                    assert(r[i] == rp[i]);
                }
                assert forall|i: int|
                    #![trigger r[i]]
                    0 <= i < t.len() && (forall|j: int| 0 <= j < s.len() ==> item_name(#[trigger] s[j]) != item_name(t[i]))
                    implies r[i] == t[i] by {
                    assert forall|j: int| 0 <= j < sp.len() implies item_name(#[trigger] sp[j]) != item_name(t[i]) by {
                        assert(sp[j] == s[j]);
                        assert(item_name(s[j]) != item_name(t[i]));
                    }
                    assert(r[i] == rp[i]);
                }
                assert forall|i: int|
                    #![trigger r[i]]
                    t.len() <= i < r.len() implies (exists|j: int| 0 <= j < s.len() && r[i] == #[trigger] s[j])
                    && forall|m: int| 0 <= m < t.len() ==> item_name(r[i]) != item_name(#[trigger] t[m]) by {
                    if i == rp.len() {
                        assert(r[i] == s[k]);
                    } else {
                        assert(r[i] == rp[i]);
                        let j = choose|j: int| 0 <= j < sp.len() && rp[i] == #[trigger] sp[j];
                        assert(r[i] == s[j]);
                    }
                }
                assert forall|j: int| #![trigger s[j]] 0 <= j < s.len() implies exists|p: int| 0 <= p < r.len() && #[trigger] r[p] == s[j] by {
                    if j == k {
                        assert(r[rp.len() as int] == s[j]);
                    } else {
                        assert(sp[j] == s[j]);
                        let p = choose|p: int| 0 <= p < rp.len() && #[trigger] rp[p] == sp[j];
                        assert(r[p] == s[j]);
                    }
                }
                assert forall|a: int| 0 <= a < r.len() implies (#[trigger] item_name(r[a])) is Some by {
                    if a < rp.len() {
                        assert(r[a] == rp[a]);
                    }
                }
                assert forall|a: int, b: int|
                    0 <= a < r.len() && 0 <= b < r.len() && a != b implies item_name(#[trigger] r[a])
                    != item_name(#[trigger] r[b]) by {
                    if a < rp.len() && b < rp.len() {
                        assert(r[a] == rp[a] && r[b] == rp[b]);
                    } else if a < rp.len() {
                        assert(r[a] == rp[a]);
                        assert(item_name(rp[a]) != Some(n));
                    } else {
                        assert(r[b] == rp[b]);
                        assert(item_name(rp[b]) != Some(n));
                    }
                }
            },
        }
    }
}

/// Mihomo's named sections (`proxies`, `proxy-groups` and `listeners`) merge by name, the later
/// source taking precedence: where every item of both sections has a name and no name repeats
/// within a section, the merged section keeps each item of the configuration in its place,
/// replaced by the source's item of the same name where there is one, holds every item of the
/// source, and still has each name once. So two groups of one name are never both kept, and an
/// item whose name the source does not use is never lost.
pub proof fn lemma_named_sections_merge_by_name(t: Seq<YamlView>, s: Seq<YamlView>, section: Seq<char>)
    requires
        section == "proxies"@ || section == "proxy-groups"@ || section == "listeners"@,
        names_unique(t),
        names_unique(s),
    ensures
        match merge_yaml_values(YamlView::Sequence(t), YamlView::Sequence(s), Some(section)) {
            YamlView::Sequence(r) => {
                &&& r.len() >= t.len()
                &&& forall|i: int, j: int|
                    0 <= i < t.len() && 0 <= j < s.len() && item_name(#[trigger] s[j]) == item_name(#[trigger] t[i])
                        ==> r[i] == s[j]
                &&& forall|i: int|
                    #![trigger r[i]]
                    0 <= i < t.len() && (forall|j: int| 0 <= j < s.len() ==> item_name(#[trigger] s[j]) != item_name(t[i]))
                        ==> r[i] == t[i]
                &&& forall|j: int| #![trigger s[j]] 0 <= j < s.len() ==> exists|p: int| 0 <= p < r.len() && #[trigger] r[p] == s[j]
                &&& names_unique(r)
            },
            _ => false,
        },
{
    lemma_merge_named_by_name(t, s);
}

} // verus!
