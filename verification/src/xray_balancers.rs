use vstd::prelude::*;

use crate::json::{get, get_member, lemma_view_items, text_member, view_items, JsonView, Value};
use crate::sorted_texts::{insert_sorted_unique, strictly_sorted, texts};
use crate::text::{
    has_prefix, lemma_text_less_irreflexive, lemma_text_less_total, lemma_text_less_transitive,
    text_eq, text_less, text_starts_with,
};
use crate::license_policy::ErrorCode;
use crate::managed::{ManagedConfig, ProgramKind};
use crate::text::{decimal, push_text, text_with_decimal};
use crate::xray_stats::{either_member, either_member_of, XrayBalancerInfo};
use crate::xray_users::array_under;

verus! {

/// A routing balancer as the Xray configuration declares it: its tag, outbound selectors, the
/// outbounds those select (sorted, each once), its strategy and its fallback outbound.
pub struct ConfiguredXrayBalancer {
    pub tag: String,
    pub selectors: Vec<String>,
    pub candidates: Vec<String>,
    pub strategy: Option<String>,
    pub fallback_target: Option<String>,
}

pub open spec fn option_view(o: Option<String>) -> Option<Seq<char>> {
    match o {
        Some(s) => Some(s@),
        None => None,
    }
}

/// A configured balancer with its candidates as a set.
pub type BalancerView = (Seq<char>, Seq<Seq<char>>, Set<Seq<char>>, Option<Seq<char>>, Option<Seq<char>>);

pub open spec fn balancer_view(b: ConfiguredXrayBalancer) -> BalancerView {
    (b.tag@, texts(b.selectors@), texts(b.candidates@).to_set(), option_view(b.strategy), option_view(b.fallback_target))
}

/// The texts among a list of values, in order.
pub open spec fn text_items(items: Seq<JsonView>) -> Seq<Seq<char>>
    decreases items.len(),
{
    if items.len() == 0 {
        Seq::empty()
    } else {
        text_items(items.drop_last()) + match items.last() {
            JsonView::Text(t) => seq![t],
            _ => Seq::empty(),
        }
    }
}

/// The tags of the outbounds that have one, in order.
pub open spec fn outbound_tags(items: Seq<JsonView>) -> Seq<Seq<char>>
    decreases items.len(),
{
    if items.len() == 0 {
        Seq::empty()
    } else {
        outbound_tags(items.drop_last()) + match text_member(items.last(), "tag"@) {
            Some(t) => seq![t],
            None => Seq::empty(),
        }
    }
}

/// The outbounds whose tag starts with one of the selectors.
pub open spec fn selected(outbounds: Seq<Seq<char>>, selectors: Seq<Seq<char>>) -> Set<Seq<char>> {
    Set::new(
        |t: Seq<char>|
            outbounds.contains(t) && exists|j: int| 0 <= j < selectors.len() && has_prefix(t, #[trigger] selectors[j]),
    )
}

/// A balancer entry of the routing configuration: an object with a text `tag`.
pub open spec fn configured_balancer(outbounds: Seq<Seq<char>>, entry: JsonView) -> Option<BalancerView> {
    match entry {
        JsonView::Object(_) => match text_member(entry, "tag"@) {
            Some(tag) => {
                let selectors = text_items(array_under(entry, "selector"@));
                let strategy = match get(entry, "strategy"@) {
                    Some(JsonView::Object(m)) => text_member(JsonView::Object(m), "type"@),
                    _ => None,
                };
                let fallback = match text_member(entry, "fallbackTag"@) {
                    Some(t) => if t.len() > 0 {
                        Some(t)
                    } else {
                        None
                    },
                    None => None,
                };
                Some((tag, selectors, selected(outbounds, selectors), strategy, fallback))
            },
            None => None,
        },
        _ => None,
    }
}

/// The balancer entries of the configuration by tag: for each tag, its first entry.
pub open spec fn first_by_tag(outbounds: Seq<Seq<char>>, entries: Seq<JsonView>) -> Map<Seq<char>, BalancerView>
    decreases entries.len(),
{
    if entries.len() == 0 {
        Map::empty()
    } else {
        let m = first_by_tag(outbounds, entries.drop_last());
        match configured_balancer(outbounds, entries.last()) {
            Some(b) => if m.contains_key(b.0) {
                m
            } else {
                m.insert(b.0, b)
            },
            None => m,
        }
    }
}

pub open spec fn routing_balancers(root: JsonView) -> Seq<JsonView> {
    match get(root, "routing"@) {
        Some(JsonView::Object(m)) => array_under(JsonView::Object(m), "balancers"@),
        _ => Seq::empty(),
    }
}

/// The balancers an Xray configuration declares, by tag.
pub open spec fn configured_balancers(root: JsonView) -> Map<Seq<char>, BalancerView> {
    first_by_tag(outbound_tags(array_under(root, "outbounds"@)), routing_balancers(root))
}

pub open spec fn balancer_tags(bs: Seq<ConfiguredXrayBalancer>) -> Seq<Seq<char>> {
    Seq::new(bs.len(), |i: int| bs[i].tag@)
}

/// The balancers are sorted by tag, each tag once, and each is what the map holds for its tag;
/// the candidates of each are sorted, each once.
pub open spec fn lists_balancers(bs: Seq<ConfiguredXrayBalancer>, m: Map<Seq<char>, BalancerView>) -> bool {
    &&& strictly_sorted(balancer_tags(bs))
    &&& balancer_tags(bs).to_set() == m.dom()
    &&& forall|i: int| 0 <= i < bs.len() ==> m[#[trigger] bs[i].tag@] == balancer_view(bs[i])
    &&& forall|i: int| 0 <= i < bs.len() ==> strictly_sorted(texts(#[trigger] bs[i].candidates@))
}

fn text_list(items: &Vec<Value>) -> (list: Vec<String>)
    ensures
        texts(list@) == text_items(view_items(items@)),
{
    let ghost all = view_items(items@);
    proof {
        lemma_view_items(items@);
    }
    let mut list: Vec<String> = Vec::new();
    let mut i: usize = 0;
    assert(texts(list@) =~= Seq::<Seq<char>>::empty());
    while i < items.len()
        invariant
            i <= items@.len(),
            all == view_items(items@),
            all.len() == items@.len(),
            forall|j: int| 0 <= j < items@.len() ==> #[trigger] all[j] == items@[j].view(),
            texts(list@) == text_items(all.subrange(0, i as int)),
        decreases items@.len() - i,
    {
        assert(all[i as int] == items@[i as int].view());
        proof {
            let next = all.subrange(0, i + 1);
            assert(next.drop_last() =~= all.subrange(0, i as int));
        }
        let ghost before = texts(list@);
        if let Value::Text(t) = &items[i] {
            list.push(t.clone());
            assert(texts(list@) =~= before.push(t@));
        } else {
            assert(texts(list@) =~= before);
        }
        i = i + 1;
    }
    assert(all.subrange(0, i as int) =~= all);
    list
}

fn outbound_tag_list(root: &Value) -> (tags: Vec<String>)
    ensures
        texts(tags@) == outbound_tags(array_under(root.view(), "outbounds"@)),
{
    let mut tags: Vec<String> = Vec::new();
    let items = match get_member(root, "outbounds") {
        Some(Value::Array(items)) => items,
        _ => {
            assert(texts(tags@) =~= Seq::<Seq<char>>::empty());
            return tags;
        },
    };
    let ghost all = view_items(items@);
    proof {
        lemma_view_items(items@);
    }
    let mut i: usize = 0;
    assert(texts(tags@) =~= Seq::<Seq<char>>::empty());
    while i < items.len()
        invariant
            i <= items@.len(),
            all == view_items(items@),
            all.len() == items@.len(),
            forall|j: int| 0 <= j < items@.len() ==> #[trigger] all[j] == items@[j].view(),
            texts(tags@) == outbound_tags(all.subrange(0, i as int)),
        decreases items@.len() - i,
    {
        assert(all[i as int] == items@[i as int].view());
        proof {
            let next = all.subrange(0, i + 1);
            assert(next.drop_last() =~= all.subrange(0, i as int));
        }
        let ghost before = texts(tags@);
        if let Some(Value::Text(t)) = get_member(&items[i], "tag") {
            tags.push(t.clone());
            assert(texts(tags@) =~= before.push(t@));
        } else {
            assert(texts(tags@) =~= before);
        }
        i = i + 1;
    }
    assert(all.subrange(0, i as int) =~= all);
    tags
}

fn matches_selector(outbound: &String, selectors: &Vec<String>) -> (matched: bool)
    ensures
        matched == exists|j: int| 0 <= j < selectors@.len() && has_prefix(outbound@, #[trigger] texts(selectors@)[j]),
{
    let mut j: usize = 0;
    while j < selectors.len()
        invariant
            j <= selectors@.len(),
            forall|k: int| 0 <= k < j ==> !has_prefix(outbound@, #[trigger] texts(selectors@)[k]),
        decreases selectors@.len() - j,
    {
        assert(texts(selectors@)[j as int] == selectors@[j as int]@);
        if text_starts_with(outbound.as_str(), selectors[j].as_str()) {
            return true;
        }
        j = j + 1;
    }
    false
}

fn candidates_of(outbounds: &Vec<String>, selectors: &Vec<String>) -> (candidates: Vec<String>)
    ensures
        strictly_sorted(texts(candidates@)),
        texts(candidates@).to_set() == selected(texts(outbounds@), texts(selectors@)),
{
    let ghost os = texts(outbounds@);
    let ghost ss = texts(selectors@);
    let mut candidates: Vec<String> = Vec::new();
    let mut i: usize = 0;
    assert(texts(candidates@).to_set() =~= Set::<Seq<char>>::empty());
    while i < outbounds.len()
        invariant
            i <= outbounds@.len(),
            os == texts(outbounds@),
            ss == texts(selectors@),
            strictly_sorted(texts(candidates@)),
            texts(candidates@).to_set() == Set::new(
                |t: Seq<char>|
                    (exists|k: int| 0 <= k < i && #[trigger] os[k] == t) && exists|j: int|
                        0 <= j < ss.len() && has_prefix(t, #[trigger] ss[j]),
            ),
        decreases outbounds@.len() - i,
    {
        let ghost before = texts(candidates@).to_set();
        let ghost t = os[i as int];
        assert(t == outbounds@[i as int]@);
        let matched = matches_selector(&outbounds[i], selectors);
        if matched {
            insert_sorted_unique(&mut candidates, outbounds[i].clone());
        }
        assert(texts(candidates@).to_set() =~= Set::new(
            |x: Seq<char>|
                (exists|k: int| 0 <= k < i + 1 && #[trigger] os[k] == x) && exists|j: int|
                    0 <= j < ss.len() && has_prefix(x, #[trigger] ss[j]),
        )) by {
            assert forall|x: Seq<char>| #[trigger] texts(candidates@).to_set().contains(x) == ((exists|k: int|
                0 <= k < i + 1 && #[trigger] os[k] == x) && exists|j: int|
                0 <= j < ss.len() && has_prefix(x, #[trigger] ss[j])) by {
                if exists|k: int| 0 <= k < i + 1 && #[trigger] os[k] == x {
                    let k = choose|k: int| 0 <= k < i + 1 && #[trigger] os[k] == x;
                    if k < i {
                        assert(exists|k2: int| 0 <= k2 < i && #[trigger] os[k2] == x);
                    }
                }
            }
        }
        i = i + 1;
    }
    assert(Set::new(
        |t: Seq<char>|
            (exists|k: int| 0 <= k < i && #[trigger] os[k] == t) && exists|j: int|
                0 <= j < ss.len() && has_prefix(t, #[trigger] ss[j]),
    ) =~= selected(os, ss)) by {
        assert forall|t: Seq<char>| #[trigger] selected(os, ss).contains(t) implies (exists|k: int|
            0 <= k < i && #[trigger] os[k] == t) by {
            assert(os.contains(t));
        }
    }
    candidates
}

fn balancer_of(outbounds: &Vec<String>, entry: &Value) -> (balancer: Option<ConfiguredXrayBalancer>)
    ensures
        match balancer {
            Some(b) => configured_balancer(texts(outbounds@), entry.view()) == Some(balancer_view(b))
                && strictly_sorted(texts(b.candidates@)),
            None => configured_balancer(texts(outbounds@), entry.view()) is None,
        },
{
    match entry {
        Value::Object(_) => {},
        _ => {
            return None;
        },
    }
    let tag = match get_member(entry, "tag") {
        Some(Value::Text(tag)) => tag.clone(),
        _ => {
            return None;
        },
    };
    let selectors = match get_member(entry, "selector") {
        Some(Value::Array(items)) => text_list(items),
        _ => {
            let none: Vec<String> = Vec::new();
            assert(texts(none@) =~= Seq::<Seq<char>>::empty());
            none
        },
    };
    let candidates = candidates_of(outbounds, &selectors);
    let strategy = match get_member(entry, "strategy") {
        Some(strategy) => match strategy {
            Value::Object(_) => match get_member(strategy, "type") {
                Some(Value::Text(t)) => Some(t.clone()),
                _ => None,
            },
            _ => None,
        },
        None => None,
    };
    let fallback_target = match get_member(entry, "fallbackTag") {
        Some(Value::Text(t)) => if t.as_str().unicode_len() > 0 {
            Some(t.clone())
        } else {
            None
        },
        _ => None,
    };
    Some(ConfiguredXrayBalancer { tag, selectors, candidates, strategy, fallback_target })
}

/// The routing balancers an Xray configuration declares, sorted by tag, each tag once (its first
/// declaration); the candidates of each are the outbounds whose tag starts with one of its
/// selectors, sorted, each once.
pub fn parse_configured_xray_balancers(root: &Value) -> (balancers: Vec<ConfiguredXrayBalancer>)
    ensures
        lists_balancers(balancers@, configured_balancers(root.view())),
{
    let outbounds = outbound_tag_list(root);
    let ghost os = texts(outbounds@);
    let mut balancers: Vec<ConfiguredXrayBalancer> = Vec::new();
    assert(balancer_tags(balancers@).to_set() =~= Set::<Seq<char>>::empty());
    let routing = match get_member(root, "routing") {
        Some(routing) => routing,
        None => {
            assert(configured_balancers(root.view()) =~= Map::<Seq<char>, BalancerView>::empty());
            return balancers;
        },
    };
    match routing {
        Value::Object(_) => {},
        _ => {
            assert(configured_balancers(root.view()) =~= Map::<Seq<char>, BalancerView>::empty());
            return balancers;
        },
    }
    let entries = match get_member(routing, "balancers") {
        Some(Value::Array(items)) => items,
        _ => {
            assert(configured_balancers(root.view()) =~= Map::<Seq<char>, BalancerView>::empty());
            return balancers;
        },
    };
    let ghost all = view_items(entries@);
    proof {
        lemma_view_items(entries@);
        assert(all == routing_balancers(root.view()));
        assert(first_by_tag(os, all.subrange(0, 0)) =~= Map::<Seq<char>, BalancerView>::empty());
    }
    let mut i: usize = 0;
    while i < entries.len()
        invariant
            i <= entries@.len(),
            all == view_items(entries@),
            all.len() == entries@.len(),
            os == texts(outbounds@),
            forall|j: int| 0 <= j < entries@.len() ==> #[trigger] all[j] == entries@[j].view(),
            lists_balancers(balancers@, first_by_tag(os, all.subrange(0, i as int))),
        decreases entries@.len() - i,
    {
        assert(all[i as int] == entries@[i as int].view());
        let ghost m = first_by_tag(os, all.subrange(0, i as int));
        proof {
            let next = all.subrange(0, i + 1);
            assert(next.drop_last() =~= all.subrange(0, i as int));
            assert(next.last() == all[i as int]);
        }
        match balancer_of(&outbounds, &entries[i]) {
            Some(b) => {
                insert_new_balancer(&mut balancers, b, Ghost(m));
            },
            None => {},
        }
        i = i + 1;
    }
    assert(all.subrange(0, i as int) =~= all);
    balancers
}

/// Adds a balancer unless one with its tag is listed already.
fn insert_new_balancer(
    balancers: &mut Vec<ConfiguredXrayBalancer>,
    balancer: ConfiguredXrayBalancer,
    Ghost(m): Ghost<Map<Seq<char>, BalancerView>>,
)
    requires
        lists_balancers(old(balancers)@, m),
        strictly_sorted(texts(balancer.candidates@)),
    ensures
        lists_balancers(
            final(balancers)@,
            if m.contains_key(balancer.tag@) {
                m
            } else {
                m.insert(balancer.tag@, balancer_view(balancer))
            },
        ),
{
    let ghost e = balancer.tag@;
    let ghost bt = balancer_tags(balancers@);
    let mut p: usize = 0;
    while p < balancers.len() && crate::xray_users::is_less(balancers[p].tag.as_str(), balancer.tag.as_str())
        invariant
            p <= balancers@.len(),
            bt == balancer_tags(balancers@),
            e == balancer.tag@,
            forall|k: int| 0 <= k < p ==> text_less(#[trigger] bt[k], e),
        decreases balancers@.len() - p,
    {
        assert(bt[p as int] == balancers@[p as int].tag@);
        p = p + 1;
    }
    if p < balancers.len() && text_eq(balancers[p].tag.as_str(), balancer.tag.as_str()) {
        assert(bt[p as int] == e);
        assert(bt.to_set().contains(e));
        return;
    }
    proof {
        if p < balancers@.len() {
            assert(bt[p as int] == balancers@[p as int].tag@);
            lemma_text_less_total(bt[p as int], e);
            assert(text_less(e, bt[p as int]));
        }
        assert(!bt.contains(e)) by {
            if bt.contains(e) {
                let k = choose|k: int| 0 <= k < bt.len() && bt[k] == e;
                if k < p {
                    lemma_text_less_irreflexive(e);
                } else if k > p {
                    lemma_text_less_transitive(e, bt[p as int], bt[k]);
                    lemma_text_less_irreflexive(e);
                } else {
                    lemma_text_less_irreflexive(e);
                }
            }
        }
        assert(!m.contains_key(e));
    }
    let ghost old_list = balancers@;
    let ghost m2 = m.insert(e, balancer_view(balancer));
    balancers.insert(p, balancer);
    proof {
        let r = balancer_tags(balancers@);
        assert(r =~= bt.insert(p as int, e));
        assert forall|a: int, b: int| 0 <= a < b < r.len() implies text_less(#[trigger] r[a], #[trigger] r[b]) by {
            if b < p {
                assert(r[a] == bt[a] && r[b] == bt[b]);
            } else if a < p && b == p {
            } else if a < p && b > p {
                assert(r[a] == bt[a] && r[b] == bt[b - 1]);
            } else if a == p {
                assert(r[b] == bt[b - 1]);
                if b - 1 > p {
                    lemma_text_less_transitive(e, bt[p as int], bt[b - 1]);
                }
            } else {
                assert(r[a] == bt[a - 1] && r[b] == bt[b - 1]);
            }
        }
        assert(r.to_set() =~= m2.dom()) by {
            assert forall|x: Seq<char>| r.to_set().contains(x) == m2.dom().contains(x) by {
                if r.contains(x) {
                    let k = choose|k: int| 0 <= k < r.len() && r[k] == x;
                    if k < p {
                        assert(bt[k] == x);
                        assert(bt.to_set().contains(x));
                    } else if k > p {
                        assert(bt[k - 1] == x);
                        assert(bt.to_set().contains(x));
                    }
                }
                if m.dom().contains(x) {
                    assert(bt.to_set().contains(x));
                    let k = choose|k: int| 0 <= k < bt.len() && bt[k] == x;
                    if k < p {
                        assert(r[k] == x);
                    } else {
                        assert(r[k + 1] == x);
                    }
                }
                if x == e {
                    assert(r[p as int] == x);
                }
            }
        }
        assert forall|i: int| 0 <= i < balancers@.len() implies m2[#[trigger] balancers@[i].tag@] == balancer_view(
            balancers@[i],
        ) by {
            if i < p {
                assert(balancers@[i] == old_list[i]);
                assert(bt[i] != e) by {
                    lemma_text_less_irreflexive(e);
                }
            } else if i > p {
                assert(balancers@[i] == old_list[i - 1]);
                assert(r[i] == bt[i - 1]);
                assert(bt[i - 1] != e);
            }
        }
        assert forall|i: int| 0 <= i < balancers@.len() implies strictly_sorted(texts(#[trigger] balancers@[i].candidates@)) by {
            if i < p {
                assert(balancers@[i] == old_list[i]);
            } else if i > p {
                assert(balancers@[i] == old_list[i - 1]);
            }
        }
    }
}

/// The non-empty texts among a list of values, in order.
pub open spec fn nonempty_texts(items: Seq<JsonView>) -> Seq<Seq<char>>
    decreases items.len(),
{
    if items.len() == 0 {
        Seq::empty()
    } else {
        nonempty_texts(items.drop_last()) + match items.last() {
            JsonView::Text(t) => if t.len() > 0 {
                seq![t]
            } else {
                Seq::empty()
            },
            _ => Seq::empty(),
        }
    }
}

/// The balancer object of a reply of `xray api bi`.
pub open spec fn balancer_object(response: JsonView) -> Option<JsonView> {
    match get(response, "balancer"@) {
        Some(JsonView::Object(m)) => Some(JsonView::Object(m)),
        _ => None,
    }
}

/// The outbound a balancer is overridden to, when it is.
pub open spec fn override_target(response: JsonView) -> Option<Seq<char>> {
    match balancer_object(response) {
        Some(b) => match get(b, "override"@) {
            Some(JsonView::Object(o)) => match text_member(JsonView::Object(o), "target"@) {
                Some(t) => if t.len() > 0 {
                    Some(t)
                } else {
                    None
                },
                None => None,
            },
            _ => None,
        },
        None => None,
    }
}

/// The outbounds the balancer's strategy currently prefers.
pub open spec fn principle_targets(response: JsonView) -> Seq<Seq<char>> {
    match balancer_object(response) {
        Some(b) => match either_member(b, "principleTarget"@, "principle_target"@) {
            Some(JsonView::Object(t)) => nonempty_texts(array_under(JsonView::Object(t), "tag"@)),
            _ => Seq::empty(),
        },
        None => Seq::empty(),
    }
}

/// The candidates that are alive, in candidate order.
pub open spec fn alive_candidates(candidates: Seq<Seq<char>>, alive: Set<Seq<char>>) -> Seq<Seq<char>>
    decreases candidates.len(),
{
    if candidates.len() == 0 {
        Seq::empty()
    } else {
        alive_candidates(candidates.drop_last(), alive) + if alive.contains(candidates.last()) {
            seq![candidates.last()]
        } else {
            Seq::<Seq<char>>::empty()
        }
    }
}

fn contains_text_item(list: &Vec<String>, item: &String) -> (found: bool)
    ensures
        found == texts(list@).contains(item@),
{
    let mut i: usize = 0;
    while i < list.len()
        invariant
            i <= list@.len(),
            forall|j: int| 0 <= j < i ==> #[trigger] list@[j]@ != item@,
        decreases list@.len() - i,
    {
        if text_eq(list[i].as_str(), item.as_str()) {
            assert(texts(list@)[i as int] == item@);
            return true;
        }
        i = i + 1;
    }
    proof {
        if texts(list@).contains(item@) {
            let k = choose|k: int| 0 <= k < texts(list@).len() && texts(list@)[k] == item@;
            assert(list@[k]@ == item@);
        }
    }
    false
}

fn alive_candidate_list(candidates: &Vec<String>, alive: &Vec<String>) -> (available: Vec<String>)
    ensures
        texts(available@) == alive_candidates(texts(candidates@), texts(alive@).to_set()),
{
    let ghost cs = texts(candidates@);
    let ghost live = texts(alive@).to_set();
    let mut available: Vec<String> = Vec::new();
    let mut i: usize = 0;
    assert(texts(available@) =~= Seq::<Seq<char>>::empty());
    while i < candidates.len()
        invariant
            i <= candidates@.len(),
            cs == texts(candidates@),
            live == texts(alive@).to_set(),
            texts(available@) == alive_candidates(cs.subrange(0, i as int), live),
        decreases candidates@.len() - i,
    {
        proof {
            let next = cs.subrange(0, i + 1);
            assert(next.drop_last() =~= cs.subrange(0, i as int));
            assert(next.last() == candidates@[i as int]@);
        }
        let ghost before = texts(available@);
        if contains_text_item(alive, &candidates[i]) {
            available.push(candidates[i].clone());
            assert(texts(available@) =~= before.push(candidates@[i as int]@));
        } else {
            assert(texts(available@) =~= before);
        }
        i = i + 1;
    }
    assert(cs.subrange(0, i as int) =~= cs);
    available
}

fn nonempty_text_list(items: &Vec<Value>) -> (list: Vec<String>)
    ensures
        texts(list@) == nonempty_texts(view_items(items@)),
{
    let ghost all = view_items(items@);
    proof {
        lemma_view_items(items@);
    }
    let mut list: Vec<String> = Vec::new();
    let mut i: usize = 0;
    assert(texts(list@) =~= Seq::<Seq<char>>::empty());
    while i < items.len()
        invariant
            i <= items@.len(),
            all == view_items(items@),
            all.len() == items@.len(),
            forall|j: int| 0 <= j < items@.len() ==> #[trigger] all[j] == items@[j].view(),
            texts(list@) == nonempty_texts(all.subrange(0, i as int)),
        decreases items@.len() - i,
    {
        assert(all[i as int] == items@[i as int].view());
        proof {
            let next = all.subrange(0, i + 1);
            assert(next.drop_last() =~= all.subrange(0, i as int));
        }
        let ghost before = texts(list@);
        let mut pushed = false;
        if let Value::Text(t) = &items[i] {
            if t.as_str().unicode_len() > 0 {
                list.push(t.clone());
                pushed = true;
                assert(texts(list@) =~= before.push(t@));
            }
        }
        if !pushed {
            assert(texts(list@) =~= before);
        }
        i = i + 1;
    }
    assert(all.subrange(0, i as int) =~= all);
    list
}

/// What a balancer looks like on the dashboard: its configuration, which of its candidates are
/// alive, the override and preferred outbounds from a reply of `xray api bi`, and no error.
pub fn xray_balancer_info(configured: ConfiguredXrayBalancer, response: &Value, alive: &Vec<String>) -> (info:
    XrayBalancerInfo)
    ensures
        info.tag == configured.tag,
        info.selectors == configured.selectors,
        info.candidates == configured.candidates,
        texts(info.available_candidates@) == alive_candidates(texts(configured.candidates@), texts(alive@).to_set()),
        option_view(info.current_target) == override_target(response.view()),
        texts(info.principle_targets@) == principle_targets(response.view()),
        info.strategy == configured.strategy,
        info.fallback_target == configured.fallback_target,
        info.error is None,
{
    let available_candidates = alive_candidate_list(&configured.candidates, alive);
    let balancer = match get_member(response, "balancer") {
        Some(b) => match b {
            Value::Object(_) => Some(b),
            _ => None,
        },
        None => None,
    };
    let current_target = match balancer {
        Some(b) => match get_member(b, "override") {
            Some(o) => match o {
                Value::Object(_) => match get_member(o, "target") {
                    Some(Value::Text(t)) => if t.as_str().unicode_len() > 0 {
                        Some(t.clone())
                    } else {
                        None
                    },
                    _ => None,
                },
                _ => None,
            },
            None => None,
        },
        None => None,
    };
    let principle = match balancer {
        Some(b) => match either_member_of(b, "principleTarget", "principle_target") {
            Some(t) => match t {
                Value::Object(_) => match get_member(t, "tag") {
                    Some(Value::Array(items)) => nonempty_text_list(items),
                    _ => {
                        let none: Vec<String> = Vec::new();
                        assert(texts(none@) =~= Seq::<Seq<char>>::empty());
                        none
                    },
                },
                _ => {
                    let none: Vec<String> = Vec::new();
                    assert(texts(none@) =~= Seq::<Seq<char>>::empty());
                    none
                },
            },
            None => {
                let none: Vec<String> = Vec::new();
                assert(texts(none@) =~= Seq::<Seq<char>>::empty());
                none
            },
        },
        None => {
            let none: Vec<String> = Vec::new();
            assert(texts(none@) =~= Seq::<Seq<char>>::empty());
            none
        },
    };
    XrayBalancerInfo {
        tag: configured.tag,
        selectors: configured.selectors,
        candidates: configured.candidates,
        available_candidates,
        current_target,
        principle_targets: principle,
        strategy: configured.strategy,
        fallback_target: configured.fallback_target,
        error: None,
    }
}

/// A balancer whose state could not be read: its configuration, which of its candidates are
/// alive, and the error.
pub fn xray_balancer_with_error(configured: ConfiguredXrayBalancer, alive: &Vec<String>, error: String) -> (info:
    XrayBalancerInfo)
    ensures
        info.tag == configured.tag,
        info.selectors == configured.selectors,
        info.candidates == configured.candidates,
        texts(info.available_candidates@) == alive_candidates(texts(configured.candidates@), texts(alive@).to_set()),
        info.current_target is None,
        info.principle_targets@.len() == 0,
        info.strategy == configured.strategy,
        info.fallback_target == configured.fallback_target,
        info.error == Some(error),
{
    let available_candidates = alive_candidate_list(&configured.candidates, alive);
    XrayBalancerInfo {
        tag: configured.tag,
        selectors: configured.selectors,
        candidates: configured.candidates,
        available_candidates,
        current_target: None,
        principle_targets: Vec::new(),
        strategy: configured.strategy,
        fallback_target: configured.fallback_target,
        error: Some(error),
    }
}

/// `info` put into a list sorted by tag, after every balancer whose tag does not come after its own.
pub open spec fn insert_by_tag(sorted: Seq<XrayBalancerInfo>, info: XrayBalancerInfo) -> Seq<XrayBalancerInfo>
    decreases sorted.len(),
{
    if sorted.len() == 0 {
        seq![info]
    } else if text_less(info.tag@, sorted.last().tag@) {
        insert_by_tag(sorted.drop_last(), info).push(sorted.last())
    } else {
        sorted.push(info)
    }
}

/// The balancers sorted by tag, those with the same tag kept in their order (a stable sort).
pub open spec fn sorted_by_tag(infos: Seq<XrayBalancerInfo>) -> Seq<XrayBalancerInfo>
    decreases infos.len(),
{
    if infos.len() == 0 {
        Seq::empty()
    } else {
        insert_by_tag(sorted_by_tag(infos.drop_last()), infos.last())
    }
}

proof fn lemma_insert_by_tag_at(sorted: Seq<XrayBalancerInfo>, info: XrayBalancerInfo, p: int)
    requires
        0 <= p <= sorted.len(),
        forall|k: int| p <= k < sorted.len() ==> text_less(info.tag@, #[trigger] sorted[k].tag@),
        p > 0 ==> !text_less(info.tag@, sorted[p - 1].tag@),
    ensures
        insert_by_tag(sorted, info) == sorted.insert(p, info),
    decreases sorted.len(),
{
    if sorted.len() == 0 {
        assert(sorted.insert(p, info) =~= seq![info]);
    } else if p == sorted.len() {
        assert(sorted.insert(p, info) =~= sorted.push(info));
    } else {
        let rest = sorted.drop_last();
        assert(text_less(info.tag@, sorted.last().tag@));
        assert forall|k: int| p <= k < rest.len() implies text_less(info.tag@, #[trigger] rest[k].tag@) by {
            assert(rest[k] == sorted[k]);
        }
        if p > 0 {
            assert(rest[p - 1] == sorted[p - 1]);
        }
        lemma_insert_by_tag_at(rest, info, p);
        assert(rest.insert(p, info).push(sorted.last()) =~= sorted.insert(p, info));
    }
}

/// The balancers in the order the dashboard lists them: sorted by tag, stably.
pub fn sort_balancers(infos: Vec<XrayBalancerInfo>) -> (sorted: Vec<XrayBalancerInfo>)
    ensures
        sorted@ == sorted_by_tag(infos@),
{
    let ghost all = infos@;
    let count = infos.len();
    let mut rest = infos;
    let mut sorted: Vec<XrayBalancerInfo> = Vec::new();
    let mut done: usize = 0;
    assert(all.subrange(0, 0) =~= Seq::<XrayBalancerInfo>::empty());
    while rest.len() > 0
        invariant
            done + rest@.len() == all.len(),
            all.len() == count,
            forall|k: int| 0 <= k < rest@.len() ==> #[trigger] rest@[k] == all[done + k],
            sorted@ == sorted_by_tag(all.subrange(0, done as int)),
        decreases rest.len(),
    {
        let info = rest.remove(0);
        assert(info == all[done as int]);
        let ghost before = sorted@;
        let mut p: usize = sorted.len();
        while p > 0 && crate::xray_users::is_less(info.tag.as_str(), sorted[p - 1].tag.as_str())
            invariant
                p <= sorted@.len(),
                before == sorted@,
                forall|k: int| p <= k < sorted@.len() ==> text_less(info.tag@, #[trigger] before[k].tag@),
            decreases p,
        {
            p = p - 1;
        }
        proof {
            lemma_insert_by_tag_at(before, info, p as int);
            let next = all.subrange(0, done + 1);
            assert(next.drop_last() =~= all.subrange(0, done as int));
            assert(next.last() == info);
        }
        sorted.insert(p, info);
        done = done + 1;
    }
    assert(all.subrange(0, done as int) =~= all);
    sorted
}

/// Why a balancer's target cannot be changed.
#[derive(PartialEq, Eq, Structural, Clone, Copy, Debug)]
pub enum BalancerTargetError {
    /// The configuration declares no balancer with the tag.
    NotFound,
    /// The target is not one of the balancer's candidates.
    NotACandidate,
    /// Whether the target is healthy could not be read.
    HealthUnknown,
    /// The target is not currently healthy.
    Unhealthy,
}

impl BalancerTargetError {
    /// The error code under which the refusal is reported. When the target's health could not
    /// be read, the error of reading the metrics is reported as it is, so there is no code of
    /// the refusal's own.
    pub fn code(&self) -> (code: Option<ErrorCode>)
        ensures
            code == match *self {
                BalancerTargetError::NotFound => Some(ErrorCode::NotFound),
                BalancerTargetError::NotACandidate => Some(ErrorCode::InvalidSpec),
                BalancerTargetError::HealthUnknown => None,
                BalancerTargetError::Unhealthy => Some(ErrorCode::InvalidState),
            },
    {
        match self {
            BalancerTargetError::NotFound => Some(ErrorCode::NotFound),
            BalancerTargetError::NotACandidate => Some(ErrorCode::InvalidSpec),
            BalancerTargetError::HealthUnknown => None,
            BalancerTargetError::Unhealthy => Some(ErrorCode::InvalidState),
        }
    }

    /// The message shown for the error.
    pub fn message(&self) -> (text: &'static str)
        ensures
            text@ == match *self {
                BalancerTargetError::NotFound => "Routing balancer not found"@,
                BalancerTargetError::NotACandidate => "The selected outbound does not belong to this balancer"@,
                BalancerTargetError::HealthUnknown => "The health of the selected outbound could not be read"@,
                BalancerTargetError::Unhealthy => "The selected outbound is not currently healthy"@,
            },
    {
        match self {
            BalancerTargetError::NotFound => "Routing balancer not found",
            BalancerTargetError::NotACandidate => "The selected outbound does not belong to this balancer",
            BalancerTargetError::HealthUnknown => "The health of the selected outbound could not be read",
            BalancerTargetError::Unhealthy => "The selected outbound is not currently healthy",
        }
    }
}

/// The balancer with the tag among the configured ones, and the requested target (an empty one
/// asks to remove the override): refused when there is no such balancer, or when the target is
/// not one of its candidates.
pub fn select_balancer_target(configured: Vec<ConfiguredXrayBalancer>, tag: &str, target: Option<String>) -> (selected:
    Result<(ConfiguredXrayBalancer, Option<String>), BalancerTargetError>)
    ensures
        match selected {
            Ok((b, t)) => (exists|i: int| 0 <= i < configured@.len() && #[trigger] configured@[i] == b
                && forall|j: int| 0 <= j < i ==> #[trigger] configured@[j].tag@ != tag@) && b.tag@ == tag@
                && option_view(t) == match target {
                Some(x) => if x@.len() > 0 {
                    Some(x@)
                } else {
                    None
                },
                None => None,
            } && match t {
                Some(x) => texts(b.candidates@).contains(x@),
                None => true,
            },
            Err(e) => (e == BalancerTargetError::NotFound && forall|i: int|
                0 <= i < configured@.len() ==> #[trigger] configured@[i].tag@ != tag@) || (e
                == BalancerTargetError::NotACandidate && (exists|i: int|
                0 <= i < configured@.len() && #[trigger] configured@[i].tag@ == tag@) && match target {
                Some(x) => x@.len() > 0 && forall|i: int|
                    0 <= i < configured@.len() && #[trigger] configured@[i].tag@ == tag@ && (forall|j: int|
                        0 <= j < i ==> configured@[j].tag@ != tag@) ==> !texts(configured@[i].candidates@).contains(x@),
                None => false,
            }),
        },
{
    let ghost all = configured@;
    let mut rest = configured;
    let mut seen: usize = 0;
    let count = rest.len();
    let mut found: Option<ConfiguredXrayBalancer> = None;
    while rest.len() > 0 && found.is_none()
        invariant
            seen + rest@.len() + (if found is Some { 1int } else { 0int }) == all.len(),
            all.len() == count,
            found is None ==> forall|k: int| 0 <= k < rest@.len() ==> #[trigger] rest@[k] == all[seen + k],
            forall|j: int| 0 <= j < seen ==> #[trigger] all[j].tag@ != tag@,
            match found {
                Some(b) => seen < all.len() && all[seen as int] == b && b.tag@ == tag@,
                None => true,
            },
        decreases rest.len(),
    {
        let b = rest.remove(0);
        assert(b == all[seen as int]);
        if text_eq(b.tag.as_str(), tag) {
            found = Some(b);
        } else {
            seen = seen + 1;
        }
    }
    let balancer = match found {
        Some(b) => b,
        None => {
            return Err(BalancerTargetError::NotFound);
        },
    };
    let target = match target {
        Some(t) => if t.as_str().unicode_len() > 0 {
            Some(t)
        } else {
            None
        },
        None => None,
    };
    if let Some(t) = &target {
        if !contains_text_item(&balancer.candidates, t) {
            proof {
                assert forall|i: int|
                    0 <= i < all.len() && #[trigger] all[i].tag@ == tag@ && (forall|j: int|
                        0 <= j < i ==> all[j].tag@ != tag@) implies !texts(all[i].candidates@).contains(t@) by {
                    if i != seen {
                        if i < seen {
                        } else {
                            assert(all[seen as int].tag@ == tag@);
                        }
                    }
                }
            }
            return Err(BalancerTargetError::NotACandidate);
        }
    }
    Ok((balancer, target))
}

/// Whether the target may be set given what the metrics say is alive (`None` when the metrics
/// could not be read): removing an override always may; a target must be seen alive.
pub fn check_target_health(target: &Option<String>, alive: Option<&Vec<String>>) -> (checked: Result<
    (),
    BalancerTargetError,
>)
    ensures
        match target {
            None => checked is Ok,
            Some(t) => match alive {
                None => checked == Err::<(), BalancerTargetError>(BalancerTargetError::HealthUnknown),
                Some(a) => if texts(a@).contains(t@) {
                    checked is Ok
                } else {
                    checked == Err::<(), BalancerTargetError>(BalancerTargetError::Unhealthy)
                },
            },
        },
{
    match target {
        None => Ok(()),
        Some(t) => match alive {
            None => Err(BalancerTargetError::HealthUnknown),
            Some(a) => if contains_text_item(a, t) {
                Ok(())
            } else {
                Err(BalancerTargetError::Unhealthy)
            },
        },
    }
}

/// The arguments of `xray api bo` that set a balancer's override to the target, or remove it.
pub fn balancer_override_arguments(api_port: u16, tag: &str, target: Option<String>) -> (arguments: Vec<String>)
    ensures
        texts(arguments@) == seq![
            "api"@,
            "bo"@,
            "--server=127.0.0.1:"@ + decimal(api_port as nat),
            "--timeout=3"@,
            "--balancer"@,
            tag@,
            match target {
                Some(t) => t@,
                None => "--remove"@,
            },
        ],
{
    let mut arguments: Vec<String> = Vec::new();
    arguments.push("api".to_string());
    arguments.push("bo".to_string());
    arguments.push(text_with_decimal("--server=127.0.0.1:", api_port as u64));
    arguments.push("--timeout=3".to_string());
    arguments.push("--balancer".to_string());
    arguments.push(tag.to_string());
    match target {
        Some(t) => arguments.push(t),
        None => arguments.push("--remove".to_string()),
    }
    assert(texts(arguments@) =~= seq![
        "api"@,
        "bo"@,
        "--server=127.0.0.1:"@ + decimal(api_port as nat),
        "--timeout=3"@,
        "--balancer"@,
        tag@,
        match target {
            Some(t) => t@,
            None => "--remove"@,
        },
    ]);
    arguments
}

/// Why the Xray dashboard of a program cannot be used.
#[derive(PartialEq, Eq, Structural, Clone, Copy, Debug)]
pub enum XrayDashboardError {
    NotXray,
    NotRunning,
    NotEnabled,
}

impl XrayDashboardError {
    /// The error code under which the refusal is reported: a program of another kind is an
    /// invalid specification, a stopped program or a disabled dashboard an invalid state.
    pub fn code(&self) -> (code: ErrorCode)
        ensures
            code == match *self {
                XrayDashboardError::NotXray => ErrorCode::InvalidSpec,
                XrayDashboardError::NotRunning => ErrorCode::InvalidState,
                XrayDashboardError::NotEnabled => ErrorCode::InvalidState,
            },
    {
        match self {
            XrayDashboardError::NotXray => ErrorCode::InvalidSpec,
            XrayDashboardError::NotRunning => ErrorCode::InvalidState,
            XrayDashboardError::NotEnabled => ErrorCode::InvalidState,
        }
    }

    /// The message shown when a dashboard snapshot is refused.
    pub fn snapshot_message(&self) -> (text: &'static str)
        ensures
            text@ == match *self {
                XrayDashboardError::NotXray => "Xray Dashboard is only available for Xray programs"@,
                XrayDashboardError::NotRunning => "Start Xray before refreshing its Dashboard"@,
                XrayDashboardError::NotEnabled => "Xray Dashboard is not enabled"@,
            },
    {
        match self {
            XrayDashboardError::NotXray => "Xray Dashboard is only available for Xray programs",
            XrayDashboardError::NotRunning => "Start Xray before refreshing its Dashboard",
            XrayDashboardError::NotEnabled => "Xray Dashboard is not enabled",
        }
    }

    /// The message shown when a routing change is refused.
    pub fn message(&self) -> (text: &'static str)
        ensures
            text@ == match *self {
                XrayDashboardError::NotXray => "Xray Dashboard is only available for Xray programs"@,
                XrayDashboardError::NotRunning => "Start Xray before changing routing"@,
                XrayDashboardError::NotEnabled => "Xray Dashboard is not enabled"@,
            },
    {
        match self {
            XrayDashboardError::NotXray => "Xray Dashboard is only available for Xray programs",
            XrayDashboardError::NotRunning => "Start Xray before changing routing",
            XrayDashboardError::NotEnabled => "Xray Dashboard is not enabled",
        }
    }
}

/// The API and metrics ports of a program's Xray dashboard: refused unless the program is an
/// Xray program, is running, and has the dashboard enabled, in that order.
pub fn require_running_xray_dashboard(kind: ProgramKind, running: bool, managed: &Option<ManagedConfig>) -> (ports:
    Result<(u16, u16), XrayDashboardError>)
    ensures
        kind != ProgramKind::Xray ==> ports == Err::<(u16, u16), XrayDashboardError>(XrayDashboardError::NotXray),
        kind == ProgramKind::Xray && !running ==> ports == Err::<(u16, u16), XrayDashboardError>(
            XrayDashboardError::NotRunning,
        ),
        kind == ProgramKind::Xray && running ==> match managed {
            Some(m) => match m.xray_dashboard {
                Some(d) => ports == Ok::<(u16, u16), XrayDashboardError>((d.api_port, d.metrics_port)),
                None => ports == Err::<(u16, u16), XrayDashboardError>(XrayDashboardError::NotEnabled),
            },
            None => ports == Err::<(u16, u16), XrayDashboardError>(XrayDashboardError::NotEnabled),
        },
{
    if kind != ProgramKind::Xray {
        return Err(XrayDashboardError::NotXray);
    }
    if !running {
        return Err(XrayDashboardError::NotRunning);
    }
    match managed {
        Some(m) => match &m.xray_dashboard {
            Some(d) => Ok((d.api_port, d.metrics_port)),
            None => Err(XrayDashboardError::NotEnabled),
        },
        None => Err(XrayDashboardError::NotEnabled),
    }
}


/// Where the Xray dashboard reads a running Xray: the API address on the loopback host, and the
/// URL of its metrics.
pub fn xray_dashboard_endpoints(api_port: u16, metrics_port: u16) -> (endpoints: (String, String))
    ensures
        endpoints.0@ == "127.0.0.1:"@ + decimal(api_port as nat),
        endpoints.1@ == "http://127.0.0.1:"@ + decimal(metrics_port as nat) + "/debug/vars"@,
{
    let api = text_with_decimal("127.0.0.1:", api_port as u64);
    let mut metrics = text_with_decimal("http://127.0.0.1:", metrics_port as u64);
    push_text(&mut metrics, "/debug/vars");
    (api, metrics)
}

/// What one dashboard snapshot shows of a running Xray: where it was read, and each part that
/// was loaded, or the error that loading it gave.
pub struct XrayDashboardSnapshot<M, S, T, U, B> {
    pub api_url: String,
    pub metrics_url: String,
    pub metrics: Option<M>,
    pub metrics_error: Option<String>,
    pub system_stats: Option<S>,
    pub system_stats_error: Option<String>,
    pub topology: Option<T>,
    pub topology_error: Option<String>,
    pub online_users: Option<U>,
    pub online_users_error: Option<String>,
    pub balancers: Option<Vec<B>>,
    pub routing_error: Option<String>,
    pub fetched_unix_ms: u64,
}

/// The value that a load gave, if it succeeded.
pub open spec fn loaded<A>(r: Result<A, String>) -> Option<A> {
    match r {
        Ok(a) => Some(a),
        Err(_) => None,
    }
}

/// The error that a load gave, if it failed.
pub open spec fn load_error<A>(r: Result<A, String>) -> Option<String> {
    match r {
        Ok(_) => None,
        Err(e) => Some(e),
    }
}

fn split_load<A>(r: Result<A, String>) -> (parts: (Option<A>, Option<String>))
    ensures
        parts.0 == loaded(r),
        parts.1 == load_error(r),
{
    match r {
        Ok(a) => (Some(a), None),
        Err(e) => (None, Some(e)),
    }
}

/// A dashboard snapshot from the dashboard's ports, what was asked for and what the loads gave.
/// The metrics, system statistics and online users are always loaded; the topology and the
/// routing balancers only when asked for, and a load that was not asked for is ignored. A
/// failed routing load still shows an empty list of balancers beside its error.
pub fn assemble_xray_dashboard_snapshot<M, S, T, U, B>(
    api_port: u16,
    metrics_port: u16,
    include_routing: bool,
    include_topology: bool,
    metrics: Result<M, String>,
    system_stats: Result<S, String>,
    topology: Result<T, String>,
    online_users: Result<U, String>,
    routing: Result<Vec<B>, String>,
    fetched_unix_ms: u64,
) -> (snapshot: XrayDashboardSnapshot<M, S, T, U, B>)
    ensures
        snapshot.api_url@ == "127.0.0.1:"@ + decimal(api_port as nat),
        snapshot.metrics_url@ == "http://127.0.0.1:"@ + decimal(metrics_port as nat) + "/debug/vars"@,
        snapshot.metrics == loaded(metrics),
        snapshot.metrics_error == load_error(metrics),
        snapshot.system_stats == loaded(system_stats),
        snapshot.system_stats_error == load_error(system_stats),
        snapshot.online_users == loaded(online_users),
        snapshot.online_users_error == load_error(online_users),
        include_topology ==> snapshot.topology == loaded(topology) && snapshot.topology_error
            == load_error(topology),
        !include_topology ==> snapshot.topology is None && snapshot.topology_error is None,
        include_routing ==> match routing {
            Ok(b) => snapshot.balancers == Some(b) && snapshot.routing_error is None,
            Err(e) => snapshot.balancers is Some && snapshot.balancers->0@.len() == 0
                && snapshot.routing_error == Some(e),
        },
        !include_routing ==> snapshot.balancers is None && snapshot.routing_error is None,
        snapshot.fetched_unix_ms == fetched_unix_ms,
{
    let (api_url, metrics_url) = xray_dashboard_endpoints(api_port, metrics_port);
    let (metrics, metrics_error) = split_load(metrics);
    let (system_stats, system_stats_error) = split_load(system_stats);
    let (online_users, online_users_error) = split_load(online_users);
    let (topology, topology_error) = if include_topology {
        split_load(topology)
    } else {
        (None, None)
    };
    let (balancers, routing_error) = if include_routing {
        match routing {
            Ok(b) => (Some(b), None),
            Err(e) => (Some(Vec::new()), Some(e)),
        }
    } else {
        (None, None)
    };
    XrayDashboardSnapshot {
        api_url,
        metrics_url,
        metrics,
        metrics_error,
        system_stats,
        system_stats_error,
        topology,
        topology_error,
        online_users,
        online_users_error,
        balancers,
        routing_error,
        fetched_unix_ms,
    }
}

} // verus!
