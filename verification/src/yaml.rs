use vstd::prelude::*;

use crate::json::{clone_number, numbers_equal, Number, NumberView};
use crate::text::text_eq;

verus! {

/// A YAML document. A mapping keeps its entries in the order they were added, no key twice.
pub enum YamlValue {
    Null,
    Bool(bool),
    Number(Number),
    Text(String),
    Sequence(Vec<YamlValue>),
    Mapping(Vec<YamlEntry>),
    Tagged(String, Box<YamlValue>),
}

/// One entry of a YAML mapping.
pub struct YamlEntry {
    pub key: YamlValue,
    pub value: YamlValue,
}

/// The mathematical value of a YAML document.
pub enum YamlView {
    Null,
    Bool(bool),
    Number(NumberView),
    Text(Seq<char>),
    Sequence(Seq<YamlView>),
    Mapping(Seq<(YamlView, YamlView)>),
    Tagged(Seq<char>, Box<YamlView>),
}

pub type YamlEntries = Seq<(YamlView, YamlView)>;

pub open spec fn view_yaml_items(items: Seq<YamlValue>) -> Seq<YamlView>
    decreases items,
{
    if items.len() == 0 {
        Seq::empty()
    } else {
        seq![items[0].view()] + view_yaml_items(items.subrange(1, items.len() as int))
    }
}

pub open spec fn view_yaml_entries(entries: Seq<YamlEntry>) -> YamlEntries
    decreases entries,
{
    if entries.len() == 0 {
        Seq::empty()
    } else {
        seq![(entries[0].key.view(), entries[0].value.view())] + view_yaml_entries(
            entries.subrange(1, entries.len() as int),
        )
    }
}

impl YamlValue {
    pub open spec fn view(&self) -> YamlView
        decreases self,
    {
        match self {
            YamlValue::Null => YamlView::Null,
            YamlValue::Bool(b) => YamlView::Bool(*b),
            YamlValue::Number(n) => YamlView::Number(n.view()),
            YamlValue::Text(s) => YamlView::Text(s@),
            YamlValue::Sequence(items) => YamlView::Sequence(view_yaml_items(items@)),
            YamlValue::Mapping(entries) => YamlView::Mapping(view_yaml_entries(entries@)),
            YamlValue::Tagged(tag, inner) => YamlView::Tagged(tag@, Box::new((**inner).view())),
        }
    }
}

pub proof fn lemma_view_yaml_items(items: Seq<YamlValue>)
    ensures
        view_yaml_items(items).len() == items.len(),
        forall|i: int| 0 <= i < items.len() ==> #[trigger] view_yaml_items(items)[i] == items[i].view(),
    decreases items.len(),
{
    if items.len() > 0 {
        let rest = items.subrange(1, items.len() as int);
        lemma_view_yaml_items(rest);
        assert forall|i: int| 0 <= i < items.len() implies #[trigger] view_yaml_items(items)[i]
            == items[i].view() by {
            if i > 0 {
                assert(rest[i - 1] == items[i]);
            }
        }
    }
}

pub proof fn lemma_view_yaml_entries(entries: Seq<YamlEntry>)
    ensures
        view_yaml_entries(entries).len() == entries.len(),
        forall|i: int|
            0 <= i < entries.len() ==> #[trigger] view_yaml_entries(entries)[i] == (
                entries[i].key.view(),
                entries[i].value.view(),
            ),
    decreases entries.len(),
{
    if entries.len() > 0 {
        let rest = entries.subrange(1, entries.len() as int);
        lemma_view_yaml_entries(rest);
        assert forall|i: int| 0 <= i < entries.len() implies #[trigger] view_yaml_entries(entries)[i]
            == (entries[i].key.view(), entries[i].value.view()) by {
            if i > 0 {
                assert(rest[i - 1] == entries[i]);
            }
        }
    }
}

pub proof fn lemma_yaml_items_ext(a: Seq<YamlValue>, b: Seq<YamlValue>)
    requires
        a.len() == b.len(),
        forall|i: int| 0 <= i < a.len() ==> #[trigger] a[i].view() == b[i].view(),
    ensures
        view_yaml_items(a) == view_yaml_items(b),
{
    lemma_view_yaml_items(a);
    lemma_view_yaml_items(b);
    assert(view_yaml_items(a) =~= view_yaml_items(b));
}

pub proof fn lemma_yaml_entries_ext(a: Seq<YamlEntry>, b: Seq<YamlEntry>)
    requires
        a.len() == b.len(),
        forall|i: int|
            0 <= i < a.len() ==> #[trigger] a[i].key.view() == b[i].key.view() && a[i].value.view()
                == b[i].value.view(),
    ensures
        view_yaml_entries(a) == view_yaml_entries(b),
{
    lemma_view_yaml_entries(a);
    lemma_view_yaml_entries(b);
    assert(view_yaml_entries(a) =~= view_yaml_entries(b));
}

pub proof fn lemma_view_yaml_items_concat(a: Seq<YamlValue>, b: Seq<YamlValue>)
    ensures
        view_yaml_items(a + b) == view_yaml_items(a) + view_yaml_items(b),
{
    lemma_view_yaml_items(a);
    lemma_view_yaml_items(b);
    lemma_view_yaml_items(a + b);
    assert forall|i: int| 0 <= i < (a + b).len() implies #[trigger] view_yaml_items(a + b)[i] == (
    view_yaml_items(a) + view_yaml_items(b))[i] by {
        if i < a.len() {
            assert((a + b)[i] == a[i]);
        } else {
            assert((a + b)[i] == b[i - a.len()]);
        }
    }
    assert(view_yaml_items(a + b) =~= view_yaml_items(a) + view_yaml_items(b));
}

/// A copy of a document.
#[verifier::loop_isolation(false)]
pub fn clone_yaml(v: &YamlValue) -> (r: YamlValue)
    ensures
        r.view() == v.view(),
    decreases v,
{
    match v {
        YamlValue::Null => YamlValue::Null,
        YamlValue::Bool(b) => YamlValue::Bool(*b),
        YamlValue::Number(n) => YamlValue::Number(clone_number(n)),
        YamlValue::Text(s) => YamlValue::Text(s.clone()),
        YamlValue::Sequence(items) => {
            let mut out: Vec<YamlValue> = Vec::new();
            let mut i: usize = 0;
            while i < items.len()
                invariant
                    i <= items.len(),
                    out@.len() == i,
                    forall|j: int| 0 <= j < i ==> #[trigger] out@[j].view() == items@[j].view(),
                decreases items.len() - i,
            {
                let c = clone_yaml(&items[i]);
                out.push(c);
                i = i + 1;
            }
            proof {
                lemma_yaml_items_ext(out@, items@);
            }
            YamlValue::Sequence(out)
        },
        YamlValue::Mapping(entries) => {
            let mut out: Vec<YamlEntry> = Vec::new();
            let mut i: usize = 0;
            while i < entries.len()
                invariant
                    i <= entries.len(),
                    out@.len() == i,
                    forall|j: int|
                        0 <= j < i ==> #[trigger] out@[j].key.view() == entries@[j].key.view()
                            && out@[j].value.view() == entries@[j].value.view(),
                decreases entries.len() - i,
            {
                let k = clone_yaml(&entries[i].key);
                let c = clone_yaml(&entries[i].value);
                out.push(YamlEntry { key: k, value: c });
                i = i + 1;
            }
            proof {
                lemma_yaml_entries_ext(out@, entries@);
            }
            YamlValue::Mapping(out)
        },
        YamlValue::Tagged(tag, inner) => {
            let c = clone_yaml(&**inner);
            YamlValue::Tagged(tag.clone(), Box::new(c))
        },
    }
}

/// Whether two documents are the same, entry order included.
#[verifier::loop_isolation(false)]
pub fn yaml_equal(a: &YamlValue, b: &YamlValue) -> (equal: bool)
    ensures
        equal == (a.view() == b.view()),
    decreases a,
{
    match (a, b) {
        (YamlValue::Null, YamlValue::Null) => true,
        (YamlValue::Bool(x), YamlValue::Bool(y)) => *x == *y,
        (YamlValue::Number(x), YamlValue::Number(y)) => numbers_equal(x, y),
        (YamlValue::Text(x), YamlValue::Text(y)) => text_eq(x.as_str(), y.as_str()),
        (YamlValue::Sequence(x), YamlValue::Sequence(y)) => {
            proof {
                lemma_view_yaml_items(x@);
                lemma_view_yaml_items(y@);
            }
            if x.len() != y.len() {
                return false;
            }
            let mut i: usize = 0;
            while i < x.len()
                invariant
                    i <= x.len(),
                    x.len() == y.len(),
                    forall|j: int| 0 <= j < i ==> #[trigger] x@[j].view() == y@[j].view(),
                decreases x.len() - i,
            {
                if !yaml_equal(&x[i], &y[i]) {
                    assert(view_yaml_items(x@)[i as int] != view_yaml_items(y@)[i as int]);
                    return false;
                }
                i = i + 1;
            }
            proof {
                lemma_yaml_items_ext(x@, y@);
            }
            true
        },
        (YamlValue::Mapping(x), YamlValue::Mapping(y)) => {
            proof {
                lemma_view_yaml_entries(x@);
                lemma_view_yaml_entries(y@);
            }
            if x.len() != y.len() {
                return false;
            }
            let mut i: usize = 0;
            while i < x.len()
                invariant
                    i <= x.len(),
                    x.len() == y.len(),
                    forall|j: int|
                        0 <= j < i ==> #[trigger] x@[j].key.view() == y@[j].key.view()
                            && x@[j].value.view() == y@[j].value.view(),
                decreases x.len() - i,
            {
                if !yaml_equal(&x[i].key, &y[i].key) || !yaml_equal(&x[i].value, &y[i].value) {
                    assert(view_yaml_entries(x@)[i as int] != view_yaml_entries(y@)[i as int]);
                    return false;
                }
                i = i + 1;
            }
            proof {
                lemma_yaml_entries_ext(x@, y@);
            }
            true
        },
        (YamlValue::Tagged(t1, v1), YamlValue::Tagged(t2, v2)) => {
            text_eq(t1.as_str(), t2.as_str()) && yaml_equal(&**v1, &**v2)
        },
        _ => false,
    }
}

/// The first position of `k` among the keys.
pub open spec fn key_index(m: YamlEntries, k: YamlView) -> Option<int>
    decreases m.len(),
{
    if m.len() == 0 {
        None
    } else if m[0].0 == k {
        Some(0)
    } else {
        match key_index(m.drop_first(), k) {
            Some(i) => Some(i + 1),
            None => None,
        }
    }
}

pub proof fn lemma_key_index(m: YamlEntries, k: YamlView)
    ensures
        match key_index(m, k) {
            Some(i) => 0 <= i < m.len() && m[i].0 == k && forall|j: int| 0 <= j < i ==> #[trigger] m[j].0 != k,
            None => forall|j: int| 0 <= j < m.len() ==> #[trigger] m[j].0 != k,
        },
    decreases m.len(),
{
    if m.len() > 0 {
        let rest = m.drop_first();
        lemma_key_index(rest, k);
        if m[0].0 != k {
            match key_index(rest, k) {
                Some(i) => {
                    assert(m[i + 1] == rest[i]);
                    assert forall|j: int| 0 <= j < i + 1 implies #[trigger] m[j].0 != k by {
                        if j > 0 {
                            assert(m[j] == rest[j - 1]);
                        }
                    }
                },
                None => {
                    assert forall|j: int| 0 <= j < m.len() implies #[trigger] m[j].0 != k by {
                        if j > 0 {
                            assert(m[j] == rest[j - 1]);
                        }
                    }
                },
            }
        }
    }
}

/// The value under `k`.
pub open spec fn yaml_lookup(m: YamlEntries, k: YamlView) -> Option<YamlView> {
    match key_index(m, k) {
        Some(i) => Some(m[i].1),
        None => None,
    }
}

/// The entries with `k` bound to `v`: in place when `k` is there, at the end otherwise.
pub open spec fn yaml_insert(m: YamlEntries, k: YamlView, v: YamlView) -> YamlEntries {
    match key_index(m, k) {
        Some(i) => m.update(i, (k, v)),
        None => m.push((k, v)),
    }
}

/// The entries without `k`: the last entry takes its place.
pub open spec fn yaml_remove(m: YamlEntries, k: YamlView) -> YamlEntries {
    match key_index(m, k) {
        Some(i) => if i == m.len() - 1 {
            m.drop_last()
        } else {
            m.update(i, m.last()).drop_last()
        },
        None => m,
    }
}

/// The position of the entry with key `key`.
pub fn find_key(entries: &Vec<YamlEntry>, key: &YamlValue) -> (found: Option<usize>)
    ensures
        match found {
            Some(i) => key_index(view_yaml_entries(entries@), key.view()) == Some(i as int),
            None => key_index(view_yaml_entries(entries@), key.view()) is None,
        },
{
    let ghost m = view_yaml_entries(entries@);
    proof {
        lemma_view_yaml_entries(entries@);
        lemma_key_index(m, key.view());
    }
    let mut i: usize = 0;
    while i < entries.len()
        invariant
            i <= entries.len(),
            m == view_yaml_entries(entries@),
            m.len() == entries@.len(),
            forall|j: int|
                0 <= j < entries@.len() ==> #[trigger] m[j] == (entries@[j].key.view(), entries@[j].value.view()),
            forall|j: int| 0 <= j < i ==> #[trigger] m[j].0 != key.view(),
            match key_index(m, key.view()) {
                Some(p) => 0 <= p < m.len() && m[p].0 == key.view() && forall|j: int| 0 <= j < p ==> #[trigger] m[j].0 != key.view(),
                None => forall|j: int| 0 <= j < m.len() ==> #[trigger] m[j].0 != key.view(),
            },
        decreases entries.len() - i,
    {
        assert(m[i as int].0 == entries@[i as int].key.view());
        if yaml_equal(&entries[i].key, key) {
            proof {
                match key_index(m, key.view()) {
                    Some(p) => {
                        if p < i {
                        } else if p > i {
                            assert(m[i as int].0 == key.view());
                        }
                    },
                    None => {
                        assert(m[i as int].0 == key.view());
                    },
                }
            }
            return Some(i);
        }
        i = i + 1;
    }
    proof {
        if let Some(p) = key_index(m, key.view()) {
            assert(m[p].0 != key.view());
        }
    }
    None
}

/// Binds `key` to `value`: in place when the key is there, at the end otherwise.
pub fn yaml_insert_entry(entries: &mut Vec<YamlEntry>, key: YamlValue, value: YamlValue)
    ensures
        view_yaml_entries(final(entries)@) == yaml_insert(view_yaml_entries(old(entries)@), key.view(), value.view()),
{
    let ghost m = view_yaml_entries(entries@);
    let ghost kv = key.view();
    let ghost vv = value.view();
    let found = find_key(entries, &key);
    proof {
        lemma_view_yaml_entries(entries@);
    }
    match found {
        Some(i) => {
            proof {
                lemma_key_index(m, kv);
            }
            entries.set(i, YamlEntry { key, value });
            proof {
                lemma_view_yaml_entries(entries@);
                assert(view_yaml_entries(entries@) =~= m.update(i as int, (kv, vv)));
            }
        },
        None => {
            entries.push(YamlEntry { key, value });
            proof {
                lemma_view_yaml_entries(entries@);
                assert(view_yaml_entries(entries@) =~= m.push((kv, vv)));
            }
        },
    }
}

/// Removes the entry with `key`, the last entry taking its place.
pub fn yaml_remove_entry(entries: &mut Vec<YamlEntry>, key: &YamlValue)
    ensures
        view_yaml_entries(final(entries)@) == yaml_remove(view_yaml_entries(old(entries)@), key.view()),
{
    let ghost m = view_yaml_entries(entries@);
    let found = find_key(entries, key);
    proof {
        lemma_view_yaml_entries(entries@);
    }
    match found {
        Some(i) => {
            proof {
                lemma_key_index(m, key.view());
            }
            let _ = entries.swap_remove(i);
            proof {
                lemma_view_yaml_entries(entries@);
                if i == m.len() - 1 {
                    assert(view_yaml_entries(entries@) =~= m.drop_last());
                } else {
                    assert(view_yaml_entries(entries@) =~= m.update(i as int, m.last()).drop_last());
                }
            }
        },
        None => {},
    }
}

/// A text key.
pub fn text_key(text: &str) -> (key: YamlValue)
    ensures
        key.view() == YamlView::Text(text@),
{
    YamlValue::Text(text.to_owned())
}

/// The value without its tags.
pub open spec fn untagged(v: YamlView) -> YamlView
    decreases v,
{
    match v {
        YamlView::Tagged(_, inner) => untagged(*inner),
        _ => v,
    }
}

/// The text a value holds, tags aside (`serde_yaml_ng::Value::as_str`).
pub open spec fn as_text(v: YamlView) -> Option<Seq<char>> {
    match untagged(v) {
        YamlView::Text(t) => Some(t),
        _ => None,
    }
}

/// The value without its tags.
pub fn untag(v: &YamlValue) -> (inner: &YamlValue)
    ensures
        inner.view() == untagged(v.view()),
    decreases v,
{
    match v {
        YamlValue::Tagged(_, inner) => untag(&**inner),
        _ => v,
    }
}

/// The text a value holds, tags aside.
pub fn yaml_as_text(v: &YamlValue) -> (text: Option<&String>)
    ensures
        match text {
            Some(t) => as_text(v.view()) == Some(t@),
            None => as_text(v.view()) is None,
        },
{
    match untag(v) {
        YamlValue::Text(t) => Some(t),
        _ => None,
    }
}


/// No key occurs twice, as in any mapping that was read.
pub open spec fn unique_keys(m: YamlEntries) -> bool {
    forall|i: int, j: int| 0 <= i < j < m.len() ==> #[trigger] m[i].0 != #[trigger] m[j].0
}

pub proof fn lemma_lookup_at(m: YamlEntries, i: int)
    requires
        unique_keys(m),
        0 <= i < m.len(),
    ensures
        key_index(m, m[i].0) == Some(i),
        yaml_lookup(m, m[i].0) == Some(m[i].1),
{
    lemma_key_index(m, m[i].0);
    match key_index(m, m[i].0) {
        Some(p) => {
            if p < i {
                assert(m[p].0 != m[i].0);
            } else if p > i {
            }
        },
        None => {},
    }
}

pub proof fn lemma_insert_lookup(m: YamlEntries, k: YamlView, v: YamlView, k2: YamlView)
    ensures
        yaml_lookup(yaml_insert(m, k, v), k2) == if k2 == k {
            Some(v)
        } else {
            yaml_lookup(m, k2)
        },
{
    lemma_key_index(m, k);
    lemma_key_index(m, k2);
    let r = yaml_insert(m, k, v);
    lemma_key_index(r, k2);
    match key_index(m, k) {
        Some(i) => {
            assert(r.len() == m.len());
            match key_index(r, k2) {
                Some(p) => {
                    if k2 == k {
                        if p < i {
                            assert(r[p] == m[p]);
                        } else if p > i {
                            assert(r[i].0 == k);
                        }
                    } else {
                        assert(r[p] == m[p]);
                        match key_index(m, k2) {
                            Some(q) => {
                                if q < p {
                                    assert(r[q] == m[q] || q == i);
                                } else if q > p {
                                }
                            },
                            None => {},
                        }
                    }
                },
                None => {
                    if k2 == k {
                        assert(r[i].0 == k);
                    } else {
                        match key_index(m, k2) {
                            Some(q) => {
                                assert(q != i);
                                assert(r[q] == m[q]);
                            },
                            None => {},
                        }
                    }
                },
            }
        },
        None => {
            assert(r.len() == m.len() + 1);
            match key_index(r, k2) {
                Some(p) => {
                    if p < m.len() {
                        assert(r[p] == m[p]);
                        if k2 == k {
                        }
                        match key_index(m, k2) {
                            Some(q) => {
                                if q < p {
                                    assert(r[q] == m[q]);
                                }
                            },
                            None => {},
                        }
                    } else {
                        match key_index(m, k2) {
                            Some(q) => {
                                assert(r[q] == m[q]);
                            },
                            None => {},
                        }
                    }
                },
                None => {
                    if k2 == k {
                        assert(r[m.len() as int].0 == k);
                    } else {
                        match key_index(m, k2) {
                            Some(q) => {
                                assert(r[q] == m[q]);
                            },
                            None => {},
                        }
                    }
                },
            }
        },
    }
}

pub proof fn lemma_insert_unique(m: YamlEntries, k: YamlView, v: YamlView)
    requires
        unique_keys(m),
    ensures
        unique_keys(yaml_insert(m, k, v)),
{
    lemma_key_index(m, k);
    let r = yaml_insert(m, k, v);
    match key_index(m, k) {
        Some(i) => {
            assert forall|a: int, b: int| 0 <= a < b < r.len() implies #[trigger] r[a].0 != #[trigger] r[b].0 by {
                assert(r[a].0 == m[a].0 && r[b].0 == m[b].0);
            }
        },
        None => {
            assert forall|a: int, b: int| 0 <= a < b < r.len() implies #[trigger] r[a].0 != #[trigger] r[b].0 by {
                if b < m.len() {
                    assert(r[a] == m[a] && r[b] == m[b]);
                } else {
                    assert(r[a] == m[a]);
                }
            }
        },
    }
}

pub proof fn lemma_remove_lookup(m: YamlEntries, k: YamlView, k2: YamlView)
    requires
        unique_keys(m),
    ensures
        unique_keys(yaml_remove(m, k)),
        yaml_lookup(yaml_remove(m, k), k2) == if k2 == k {
            None
        } else {
            yaml_lookup(m, k2)
        },
{
    lemma_key_index(m, k);
    let r = yaml_remove(m, k);
    match key_index(m, k) {
        Some(i) => {
            let n = m.len() - 1;
            assert(r.len() == n);
            assert forall|a: int| 0 <= a < n implies (#[trigger] r[a]) == if a == i { m[n] } else { m[a] } by {}
            assert forall|a: int, b: int| 0 <= a < b < r.len() implies #[trigger] r[a].0 != #[trigger] r[b].0 by {
                if a == i {
                    assert(m[b].0 != m[n].0);
                } else if b == i {
                    assert(m[a].0 != m[n].0);
                } else {
                    assert(m[a].0 != m[b].0);
                }
            }
            lemma_key_index(r, k2);
            lemma_key_index(m, k2);
            if k2 == k {
                match key_index(r, k2) {
                    Some(p) => {
                        if p == i {
                            assert(m[n].0 != m[i].0);
                        } else {
                            assert(m[p].0 != m[i].0);
                        }
                    },
                    None => {},
                }
            } else {
                match key_index(m, k2) {
                    Some(q) => {
                        assert(q != i);
                        if q == n {
                            assert(r[i] == m[n]);
                            lemma_lookup_at(r, i);
                        } else {
                            assert(r[q] == m[q]);
                            lemma_lookup_at(r, q);
                        }
                        lemma_lookup_at(m, q);
                    },
                    None => {
                        match key_index(r, k2) {
                            Some(p) => {
                                if p == i {
                                    assert(r[p] == m[n]);
                                } else {
                                    assert(r[p] == m[p]);
                                }
                            },
                            None => {},
                        }
                    },
                }
            }
        },
        None => {},
    }
}

/// A mapping agrees with itself when no key occurs twice.
pub proof fn lemma_same_mapping_refl(m: YamlEntries)
    requires
        unique_keys(m),
    ensures
        forall|i: int| 0 <= i < m.len() ==> yaml_lookup(m, #[trigger] m[i].0) == Some(m[i].1),
{
    assert forall|i: int| 0 <= i < m.len() implies yaml_lookup(m, #[trigger] m[i].0) == Some(m[i].1) by {
        lemma_lookup_at(m, i);
    }
}

pub proof fn lemma_insert_present(m: YamlEntries, k: YamlView, v: YamlView)
    requires
        yaml_lookup(m, k) == Some(v),
    ensures
        yaml_insert(m, k, v) == m,
{
    lemma_key_index(m, k);
    let i = key_index(m, k)->Some_0;
    assert(m.update(i, (k, v)) =~= m);
}

pub proof fn lemma_remove_absent(m: YamlEntries, k: YamlView)
    requires
        yaml_lookup(m, k) is None,
    ensures
        yaml_remove(m, k) == m,
{
}
} // verus!
