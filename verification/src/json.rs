use vstd::prelude::*;

use crate::text::{
    text_eq, text_order, TextOrder,
    lemma_text_less_asymmetric, lemma_text_less_irreflexive, lemma_text_less_total,
    lemma_text_less_transitive, text_less,
};

verus! {

/// A JSON number as it was read: a non-negative integer, a negative integer,
/// or any other number, kept as its decimal text.
pub enum Number {
    Unsigned(u64),
    Signed(i64),
    Decimal(String),
}

/// A JSON document. An object holds its members in key order with no key twice
/// (see [`well_formed`]), exactly as an ordered map of keys to values does.
pub enum Value {
    Null,
    Bool(bool),
    Number(Number),
    Text(String),
    Array(Vec<Value>),
    Object(Vec<Member>),
}

/// One member of a JSON object.
pub struct Member {
    pub key: String,
    pub value: Value,
}

pub enum NumberView {
    Unsigned(u64),
    Signed(i64),
    Decimal(Seq<char>),
}

/// The mathematical value of a JSON document.
pub enum JsonView {
    Null,
    Bool(bool),
    Number(NumberView),
    Text(Seq<char>),
    Array(Seq<JsonView>),
    Object(Seq<(Seq<char>, JsonView)>),
}

pub type Entries = Seq<(Seq<char>, JsonView)>;

impl Number {
    pub open spec fn view(&self) -> NumberView {
        match self {
            Number::Unsigned(n) => NumberView::Unsigned(*n),
            Number::Signed(n) => NumberView::Signed(*n),
            Number::Decimal(s) => NumberView::Decimal(s@),
        }
    }
}

pub open spec fn view_items(items: Seq<Value>) -> Seq<JsonView>
    decreases items,
{
    if items.len() == 0 {
        Seq::empty()
    } else {
        seq![items[0].view()] + view_items(items.subrange(1, items.len() as int))
    }
}

pub open spec fn view_members(members: Seq<Member>) -> Entries
    decreases members,
{
    if members.len() == 0 {
        Seq::empty()
    } else {
        seq![(members[0].key@, members[0].value.view())] + view_members(
            members.subrange(1, members.len() as int),
        )
    }
}

impl Value {
    pub open spec fn view(&self) -> JsonView
        decreases self,
    {
        match self {
            Value::Null => JsonView::Null,
            Value::Bool(b) => JsonView::Bool(*b),
            Value::Number(n) => JsonView::Number(n.view()),
            Value::Text(s) => JsonView::Text(s@),
            Value::Array(items) => JsonView::Array(view_items(items@)),
            Value::Object(members) => JsonView::Object(view_members(members@)),
        }
    }
}

pub proof fn lemma_view_items(items: Seq<Value>)
    ensures
        view_items(items).len() == items.len(),
        forall|i: int| 0 <= i < items.len() ==> #[trigger] view_items(items)[i] == items[i].view(),
    decreases items.len(),
{
    if items.len() > 0 {
        let rest = items.subrange(1, items.len() as int);
        lemma_view_items(rest);
        assert forall|i: int| 0 <= i < items.len() implies #[trigger] view_items(items)[i]
            == items[i].view() by {
            if i > 0 {
                assert(rest[i - 1] == items[i]);
            }
        }
    }
}

pub proof fn lemma_view_members(members: Seq<Member>)
    ensures
        view_members(members).len() == members.len(),
        forall|i: int|
            0 <= i < members.len() ==> #[trigger] view_members(members)[i] == (
                members[i].key@,
                members[i].value.view(),
            ),
    decreases members.len(),
{
    if members.len() > 0 {
        let rest = members.subrange(1, members.len() as int);
        lemma_view_members(rest);
        assert forall|i: int| 0 <= i < members.len() implies #[trigger] view_members(members)[i]
            == (members[i].key@, members[i].value.view()) by {
            if i > 0 {
                assert(rest[i - 1] == members[i]);
            }
        }
    }
}

/// Two item lists with pointwise equal views have equal views.
pub proof fn lemma_view_items_ext(a: Seq<Value>, b: Seq<Value>)
    requires
        a.len() == b.len(),
        forall|i: int| 0 <= i < a.len() ==> #[trigger] a[i].view() == b[i].view(),
    ensures
        view_items(a) == view_items(b),
{
    lemma_view_items(a);
    lemma_view_items(b);
    assert(view_items(a) =~= view_items(b));
}

pub proof fn lemma_view_members_ext(a: Seq<Member>, b: Seq<Member>)
    requires
        a.len() == b.len(),
        forall|i: int|
            0 <= i < a.len() ==> #[trigger] a[i].key@ == b[i].key@ && a[i].value.view()
                == b[i].value.view(),
    ensures
        view_members(a) == view_members(b),
{
    lemma_view_members(a);
    lemma_view_members(b);
    assert(view_members(a) =~= view_members(b));
}

/// Keys strictly increase along the entries, so no key occurs twice.
pub open spec fn keys_sorted(m: Entries) -> bool {
    forall|i: int, j: int| 0 <= i < j < m.len() ==> text_less(#[trigger] m[i].0, #[trigger] m[j].0)
}

/// Every object inside the document, at any depth, keeps its keys sorted.
pub open spec fn well_formed(v: JsonView) -> bool
    decreases v,
{
    match v {
        JsonView::Array(items) => items_well_formed(items),
        JsonView::Object(m) => keys_sorted(m) && entries_well_formed(m),
        _ => true,
    }
}

pub open spec fn items_well_formed(items: Seq<JsonView>) -> bool
    decreases items,
{
    if items.len() == 0 {
        true
    } else {
        well_formed(items[0]) && items_well_formed(items.subrange(1, items.len() as int))
    }
}

pub open spec fn entries_well_formed(m: Entries) -> bool
    decreases m,
{
    if m.len() == 0 {
        true
    } else {
        well_formed(m[0].1) && entries_well_formed(m.subrange(1, m.len() as int))
    }
}

pub proof fn lemma_items_well_formed(items: Seq<JsonView>)
    ensures
        items_well_formed(items) <==> forall|i: int|
            0 <= i < items.len() ==> well_formed(#[trigger] items[i]),
    decreases items.len(),
{
    if items.len() > 0 {
        let rest = items.subrange(1, items.len() as int);
        lemma_items_well_formed(rest);
        if forall|i: int| 0 <= i < items.len() ==> well_formed(#[trigger] items[i]) {
            assert forall|i: int| 0 <= i < rest.len() implies well_formed(#[trigger] rest[i]) by {
                assert(rest[i] == items[i + 1]);
            }
        }
        if items_well_formed(items) {
            assert forall|i: int| 0 <= i < items.len() implies well_formed(#[trigger] items[i]) by {
                if i > 0 {
                    assert(rest[i - 1] == items[i]);
                }
            }
        }
    }
}

pub proof fn lemma_entries_well_formed(m: Entries)
    ensures
        entries_well_formed(m) <==> forall|i: int|
            0 <= i < m.len() ==> well_formed(#[trigger] m[i].1),
    decreases m.len(),
{
    if m.len() > 0 {
        let rest = m.subrange(1, m.len() as int);
        lemma_entries_well_formed(rest);
        if forall|i: int| 0 <= i < m.len() ==> well_formed(#[trigger] m[i].1) {
            assert forall|i: int| 0 <= i < rest.len() implies well_formed(#[trigger] rest[i].1) by {
                assert(rest[i] == m[i + 1]);
            }
        }
        if entries_well_formed(m) {
            assert forall|i: int| 0 <= i < m.len() implies well_formed(#[trigger] m[i].1) by {
                if i > 0 {
                    assert(rest[i - 1] == m[i]);
                }
            }
        }
    }
}

/// The value stored under `k`, if any.
pub open spec fn lookup(m: Entries, k: Seq<char>) -> Option<JsonView>
    decreases m.len(),
{
    if m.len() == 0 {
        None
    } else if m[0].0 == k {
        Some(m[0].1)
    } else {
        lookup(m.drop_first(), k)
    }
}

pub open spec fn has_key(m: Entries, k: Seq<char>) -> bool {
    exists|i: int| 0 <= i < m.len() && #[trigger] m[i].0 == k
}

pub proof fn lemma_lookup(m: Entries, k: Seq<char>)
    requires
        keys_sorted(m),
    ensures
        lookup(m, k) is Some <==> has_key(m, k),
        forall|i: int| 0 <= i < m.len() && #[trigger] m[i].0 == k ==> lookup(m, k) == Some(m[i].1),
    decreases m.len(),
{
    if m.len() > 0 {
        let rest = m.drop_first();
        assert(keys_sorted(rest)) by {
            assert forall|i: int, j: int| 0 <= i < j < rest.len() implies text_less(
                #[trigger] rest[i].0,
                #[trigger] rest[j].0,
            ) by {
                assert(rest[i] == m[i + 1] && rest[j] == m[j + 1]);
            }
        }
        lemma_lookup(rest, k);
        if m[0].0 == k {
            assert(has_key(m, k)) by {
                assert(m[0].0 == k);
            }
            assert forall|i: int| 0 <= i < m.len() && #[trigger] m[i].0 == k implies lookup(m, k)
                == Some(m[i].1) by {
                if i > 0 {
                    lemma_text_less_irreflexive(k);
                    assert(text_less(m[0].0, m[i].0));
                }
            }
        } else {
            if has_key(m, k) {
                let i = choose|i: int| 0 <= i < m.len() && #[trigger] m[i].0 == k;
                assert(rest[i - 1].0 == k);
            }
            if has_key(rest, k) {
                let i = choose|i: int| 0 <= i < rest.len() && #[trigger] rest[i].0 == k;
                assert(m[i + 1].0 == k);
            }
            assert forall|i: int| 0 <= i < m.len() && #[trigger] m[i].0 == k implies lookup(m, k)
                == Some(m[i].1) by {
                assert(rest[i - 1] == m[i]);
            }
        }
    }
}

/// Number of leading entries whose keys come before `k`.
pub open spec fn insertion_index(m: Entries, k: Seq<char>) -> int
    decreases m.len(),
{
    if m.len() == 0 {
        0
    } else if text_less(m[0].0, k) {
        1 + insertion_index(m.drop_first(), k)
    } else {
        0
    }
}

/// The entries with `k` bound to `v`: an existing binding is replaced in place,
/// a new one is put where the order of keys places it.
pub open spec fn insert_entry(m: Entries, k: Seq<char>, v: JsonView) -> Entries {
    let p = insertion_index(m, k);
    if p < m.len() && m[p].0 == k {
        m.update(p, (k, v))
    } else {
        m.insert(p, (k, v))
    }
}

/// The entries without a binding for `k`.
pub open spec fn remove_entry(m: Entries, k: Seq<char>) -> Entries {
    let p = insertion_index(m, k);
    if p < m.len() && m[p].0 == k {
        m.remove(p)
    } else {
        m
    }
}

pub proof fn lemma_insertion_index(m: Entries, k: Seq<char>)
    requires
        keys_sorted(m),
    ensures
        0 <= insertion_index(m, k) <= m.len(),
        forall|i: int| 0 <= i < insertion_index(m, k) ==> text_less(#[trigger] m[i].0, k),
        forall|i: int| insertion_index(m, k) <= i < m.len() ==> !text_less(#[trigger] m[i].0, k),
        forall|i: int| insertion_index(m, k) < i < m.len() ==> text_less(k, #[trigger] m[i].0),
    decreases m.len(),
{
    if m.len() > 0 {
        let rest = m.drop_first();
        assert(keys_sorted(rest)) by {
            assert forall|i: int, j: int| 0 <= i < j < rest.len() implies text_less(
                #[trigger] rest[i].0,
                #[trigger] rest[j].0,
            ) by {
                assert(rest[i] == m[i + 1] && rest[j] == m[j + 1]);
            }
        }
        lemma_insertion_index(rest, k);
        let p = insertion_index(m, k);
        if text_less(m[0].0, k) {
            assert forall|i: int| 0 <= i < p implies text_less(#[trigger] m[i].0, k) by {
                if i > 0 {
                    assert(rest[i - 1] == m[i]);
                }
            }
            assert forall|i: int| p <= i < m.len() implies !text_less(#[trigger] m[i].0, k) by {
                assert(rest[i - 1] == m[i]);
            }
            assert forall|i: int| p < i < m.len() implies text_less(k, #[trigger] m[i].0) by {
                assert(rest[i - 1] == m[i]);
            }
        } else {
            assert forall|i: int| 0 <= i < m.len() implies !text_less(#[trigger] m[i].0, k) by {
                if i > 0 {
                    assert(text_less(m[0].0, m[i].0));
                    if text_less(m[i].0, k) {
                        lemma_text_less_transitive(m[0].0, m[i].0, k);
                    }
                }
            }
            assert forall|i: int| 0 < i < m.len() implies text_less(k, #[trigger] m[i].0) by {
                assert(text_less(m[0].0, m[i].0));
                lemma_text_less_total(k, m[0].0);
                if text_less(k, m[0].0) {
                    lemma_text_less_transitive(k, m[0].0, m[i].0);
                }
            }
        }
    }
}

/// Binding a key keeps the keys sorted, binds that key, and leaves every other binding.
#[verifier::spinoff_prover]
#[verifier::rlimit(40)]
pub proof fn lemma_insert_entry(m: Entries, k: Seq<char>, v: JsonView)
    requires
        keys_sorted(m),
    ensures
        keys_sorted(insert_entry(m, k, v)),
        lookup(insert_entry(m, k, v), k) == Some(v),
        forall|k2: Seq<char>| k2 != k ==> #[trigger] lookup(insert_entry(m, k, v), k2) == lookup(m, k2),
        has_key(m, k) ==> insert_entry(m, k, v).len() == m.len(),
        !has_key(m, k) ==> insert_entry(m, k, v).len() == m.len() + 1,
{
    lemma_insertion_index(m, k);
    let p = insertion_index(m, k);
    let r = insert_entry(m, k, v);
    if p < m.len() && m[p].0 == k {
        assert(keys_sorted(r)) by {
            assert forall|i: int, j: int| 0 <= i < j < r.len() implies text_less(
                #[trigger] r[i].0,
                #[trigger] r[j].0,
            ) by {
                assert(r[i].0 == m[i].0 && r[j].0 == m[j].0);
            }
        }
        assert(has_key(m, k));
    } else {
        assert(!has_key(m, k)) by {
            if has_key(m, k) {
                let i = choose|i: int| 0 <= i < m.len() && #[trigger] m[i].0 == k;
                lemma_text_less_irreflexive(k);
                if i < p {
                } else if i == p {
                } else {
                }
            }
        }
        assert(keys_sorted(r)) by {
            assert forall|i: int, j: int| 0 <= i < j < r.len() implies text_less(
                #[trigger] r[i].0,
                #[trigger] r[j].0,
            ) by {
                if j < p {
                    assert(r[i] == m[i] && r[j] == m[j]);
                } else if j == p {
                    assert(r[i] == m[i]);
                } else if i < p {
                    assert(r[i] == m[i] && r[j] == m[j - 1]);
                    lemma_text_less_total(k, m[j - 1].0);
                    lemma_text_less_transitive(m[i].0, k, m[j - 1].0);
                } else if i == p {
                    assert(r[j] == m[j - 1]);
                    lemma_text_less_total(k, m[j - 1].0);
                } else {
                    assert(r[i] == m[i - 1] && r[j] == m[j - 1]);
                }
            }
        }
    }
    lemma_lookup(r, k);
    assert(r[p] == (k, v));
    assert(r[p].0 == k);
    assert forall|k2: Seq<char>| k2 != k implies #[trigger] lookup(r, k2) == lookup(m, k2) by {
        lemma_lookup(r, k2);
        lemma_lookup(m, k2);
        if has_key(m, k2) {
            let i = choose|i: int| 0 <= i < m.len() && #[trigger] m[i].0 == k2;
            if p < m.len() && m[p].0 == k {
                assert(r[i] == m[i]);
            } else if i < p {
                assert(r[i] == m[i]);
            } else {
                assert(r[i + 1] == m[i]);
            }
        }
        if has_key(r, k2) {
            let i = choose|i: int| 0 <= i < r.len() && #[trigger] r[i].0 == k2;
            if p < m.len() && m[p].0 == k {
                assert(r[i] == m[i]);
            } else if i < p {
                assert(r[i] == m[i]);
            } else {
                assert(r[i] == m[i - 1]);
            }
        }
    }
}

/// Removing a key keeps the keys sorted, unbinds that key, and leaves every other binding.
pub proof fn lemma_remove_entry(m: Entries, k: Seq<char>)
    requires
        keys_sorted(m),
    ensures
        keys_sorted(remove_entry(m, k)),
        lookup(remove_entry(m, k), k) is None,
        forall|k2: Seq<char>| k2 != k ==> #[trigger] lookup(remove_entry(m, k), k2) == lookup(m, k2),
        has_key(m, k) ==> remove_entry(m, k).len() + 1 == m.len(),
        !has_key(m, k) ==> remove_entry(m, k) == m,
{
    lemma_insertion_index(m, k);
    let p = insertion_index(m, k);
    let r = remove_entry(m, k);
    lemma_lookup(m, k);
    if p < m.len() && m[p].0 == k {
        assert(keys_sorted(r)) by {
            assert forall|i: int, j: int| 0 <= i < j < r.len() implies text_less(
                #[trigger] r[i].0,
                #[trigger] r[j].0,
            ) by {
                if j < p {
                    assert(r[i] == m[i] && r[j] == m[j]);
                } else if i < p {
                    assert(r[i] == m[i] && r[j] == m[j + 1]);
                } else {
                    assert(r[i] == m[i + 1] && r[j] == m[j + 1]);
                }
            }
        }
        lemma_lookup(r, k);
        assert(!has_key(r, k)) by {
            if has_key(r, k) {
                let i = choose|i: int| 0 <= i < r.len() && #[trigger] r[i].0 == k;
                lemma_text_less_irreflexive(k);
                if i < p {
                    assert(r[i] == m[i]);
                } else {
                    assert(r[i] == m[i + 1]);
                }
            }
        }
        assert(has_key(m, k));
        assert forall|k2: Seq<char>| k2 != k implies #[trigger] lookup(r, k2) == lookup(m, k2) by {
            lemma_lookup(r, k2);
            lemma_lookup(m, k2);
            if has_key(m, k2) {
                let i = choose|i: int| 0 <= i < m.len() && #[trigger] m[i].0 == k2;
                if i < p {
                    assert(r[i] == m[i]);
                } else {
                    assert(r[i - 1] == m[i]);
                }
            }
            if has_key(r, k2) {
                let i = choose|i: int| 0 <= i < r.len() && #[trigger] r[i].0 == k2;
                if i < p {
                    assert(r[i] == m[i]);
                } else {
                    assert(r[i] == m[i + 1]);
                }
            }
        }
    } else {
        assert(!has_key(m, k)) by {
            if has_key(m, k) {
                let i = choose|i: int| 0 <= i < m.len() && #[trigger] m[i].0 == k;
                lemma_text_less_irreflexive(k);
            }
        }
    }
}

/// Two objects with sorted keys that bind every key alike are the same entries.
pub proof fn lemma_entries_canonical(a: Entries, b: Entries)
    requires
        keys_sorted(a),
        keys_sorted(b),
        forall|k: Seq<char>| #[trigger] lookup(a, k) == lookup(b, k),
    ensures
        a == b,
    decreases a.len() + b.len(),
{
    if a.len() == 0 {
        if b.len() > 0 {
            assert(lookup(b, b[0].0) is Some);
        }
        assert(a =~= b);
    } else if b.len() == 0 {
        assert(lookup(a, a[0].0) is Some);
    } else {
        lemma_lookup(a, a[0].0);
        lemma_lookup(b, a[0].0);
        lemma_lookup(a, b[0].0);
        lemma_lookup(b, b[0].0);
        assert(has_key(a, a[0].0));
        assert(has_key(b, b[0].0));
        let i = choose|i: int| 0 <= i < b.len() && #[trigger] b[i].0 == a[0].0;
        let j = choose|j: int| 0 <= j < a.len() && #[trigger] a[j].0 == b[0].0;
        if i > 0 {
            assert(text_less(b[0].0, b[i].0));
            if j > 0 {
                assert(text_less(a[0].0, a[j].0));
                lemma_text_less_asymmetric(a[0].0, b[0].0);
            } else {
                lemma_text_less_irreflexive(a[0].0);
            }
        }
        assert(i == 0);
        assert(a[0] == b[0]);
        let ra = a.drop_first();
        let rb = b.drop_first();
        assert(keys_sorted(ra)) by {
            assert forall|x: int, y: int| 0 <= x < y < ra.len() implies text_less(
                #[trigger] ra[x].0,
                #[trigger] ra[y].0,
            ) by {
                assert(ra[x] == a[x + 1] && ra[y] == a[y + 1]);
            }
        }
        assert(keys_sorted(rb)) by {
            assert forall|x: int, y: int| 0 <= x < y < rb.len() implies text_less(
                #[trigger] rb[x].0,
                #[trigger] rb[y].0,
            ) by {
                assert(rb[x] == b[x + 1] && rb[y] == b[y + 1]);
            }
        }
        assert forall|k: Seq<char>| #[trigger] lookup(ra, k) == lookup(rb, k) by {
            assert(lookup(a, k) == lookup(b, k));
            if k == a[0].0 {
                lemma_lookup(ra, k);
                lemma_lookup(rb, k);
                lemma_text_less_irreflexive(k);
                if has_key(ra, k) {
                    let x = choose|x: int| 0 <= x < ra.len() && #[trigger] ra[x].0 == k;
                    assert(a[x + 1].0 == k);
                    assert(text_less(a[0].0, a[x + 1].0));
                }
                if has_key(rb, k) {
                    let x = choose|x: int| 0 <= x < rb.len() && #[trigger] rb[x].0 == k;
                    assert(b[x + 1].0 == k);
                    assert(text_less(b[0].0, b[x + 1].0));
                }
            }
        }
        lemma_entries_canonical(ra, rb);
        assert(a =~= seq![a[0]] + ra);
        assert(b =~= seq![b[0]] + rb);
    }
}


/// A copy of a number.
pub fn clone_number(n: &Number) -> (r: Number)
    ensures
        r.view() == n.view(),
{
    match n {
        Number::Unsigned(x) => Number::Unsigned(*x),
        Number::Signed(x) => Number::Signed(*x),
        Number::Decimal(s) => Number::Decimal(s.clone()),
    }
}

/// A copy of a document.
#[verifier::loop_isolation(false)]
pub fn clone_value(v: &Value) -> (r: Value)
    ensures
        r.view() == v.view(),
    decreases v,
{
    match v {
        Value::Null => Value::Null,
        Value::Bool(b) => Value::Bool(*b),
        Value::Number(n) => Value::Number(clone_number(n)),
        Value::Text(s) => Value::Text(s.clone()),
        Value::Array(items) => {
            let mut out: Vec<Value> = Vec::new();
            let mut i: usize = 0;
            while i < items.len()
                invariant
                    i <= items.len(),
                    out@.len() == i,
                    forall|j: int| 0 <= j < i ==> #[trigger] out@[j].view() == items@[j].view(),
                decreases items.len() - i,
            {
                let c = clone_value(&items[i]);
                out.push(c);
                i = i + 1;
            }
            proof {
                lemma_view_items_ext(out@, items@);
            }
            Value::Array(out)
        },
        Value::Object(members) => {
            let mut out: Vec<Member> = Vec::new();
            let mut i: usize = 0;
            while i < members.len()
                invariant
                    i <= members.len(),
                    out@.len() == i,
                    forall|j: int|
                        0 <= j < i ==> #[trigger] out@[j].key@ == members@[j].key@
                            && out@[j].value.view() == members@[j].value.view(),
                decreases members.len() - i,
            {
                let c = clone_value(&members[i].value);
                out.push(Member { key: members[i].key.clone(), value: c });
                i = i + 1;
            }
            proof {
                lemma_view_members_ext(out@, members@);
            }
            Value::Object(out)
        },
    }
}

/// Whether two numbers are the same.
pub fn numbers_equal(a: &Number, b: &Number) -> (equal: bool)
    ensures
        equal == (a.view() == b.view()),
{
    match (a, b) {
        (Number::Unsigned(x), Number::Unsigned(y)) => *x == *y,
        (Number::Signed(x), Number::Signed(y)) => *x == *y,
        (Number::Decimal(x), Number::Decimal(y)) => text_eq(x.as_str(), y.as_str()),
        _ => false,
    }
}

/// Whether two documents are the same.
#[verifier::loop_isolation(false)]
pub fn values_equal(a: &Value, b: &Value) -> (equal: bool)
    ensures
        equal == (a.view() == b.view()),
    decreases a,
{
    match (a, b) {
        (Value::Null, Value::Null) => true,
        (Value::Bool(x), Value::Bool(y)) => *x == *y,
        (Value::Number(x), Value::Number(y)) => numbers_equal(x, y),
        (Value::Text(x), Value::Text(y)) => text_eq(x.as_str(), y.as_str()),
        (Value::Array(x), Value::Array(y)) => {
            proof {
                lemma_view_items(x@);
                lemma_view_items(y@);
            }
            if x.len() != y.len() {
                return false;
            }
            let mut i: usize = 0;
            while i < x.len()
                invariant
                    i <= x.len(),
                    x.len() == y.len(),
                    view_items(x@).len() == x@.len(),
                    view_items(y@).len() == y@.len(),
                    forall|j: int| 0 <= j < x@.len() ==> #[trigger] view_items(x@)[j] == x@[j].view(),
                    forall|j: int| 0 <= j < y@.len() ==> #[trigger] view_items(y@)[j] == y@[j].view(),
                    forall|j: int| 0 <= j < i ==> #[trigger] x@[j].view() == y@[j].view(),
                decreases x.len() - i,
            {
                if !values_equal(&x[i], &y[i]) {
                    assert(view_items(x@)[i as int] != view_items(y@)[i as int]);
                    assert(a.view() == JsonView::Array(view_items(x@)));
                    assert(b.view() == JsonView::Array(view_items(y@)));
                    return false;
                }
                i = i + 1;
            }
            proof {
                lemma_view_items_ext(x@, y@);
            }
            true
        },
        (Value::Object(x), Value::Object(y)) => {
            proof {
                lemma_view_members(x@);
                lemma_view_members(y@);
            }
            if x.len() != y.len() {
                return false;
            }
            let mut i: usize = 0;
            while i < x.len()
                invariant
                    i <= x.len(),
                    x.len() == y.len(),
                    view_members(x@).len() == x@.len(),
                    view_members(y@).len() == y@.len(),
                    forall|j: int|
                        0 <= j < x@.len() ==> #[trigger] view_members(x@)[j] == (
                            x@[j].key@,
                            x@[j].value.view(),
                        ),
                    forall|j: int|
                        0 <= j < y@.len() ==> #[trigger] view_members(y@)[j] == (
                            y@[j].key@,
                            y@[j].value.view(),
                        ),
                    forall|j: int| 0 <= j < i ==> #[trigger] x@[j].key@ == y@[j].key@,
                    forall|j: int| 0 <= j < i ==> #[trigger] x@[j].value.view() == y@[j].value.view(),
                decreases x.len() - i,
            {
                if !text_eq(x[i].key.as_str(), y[i].key.as_str()) {
                    assert(view_members(x@)[i as int] != view_members(y@)[i as int]);
                    assert(a.view() == JsonView::Object(view_members(x@)));
                    assert(b.view() == JsonView::Object(view_members(y@)));
                    return false;
                }
                if !values_equal(&x[i].value, &y[i].value) {
                    assert(view_members(x@)[i as int] != view_members(y@)[i as int]);
                    assert(a.view() == JsonView::Object(view_members(x@)));
                    assert(b.view() == JsonView::Object(view_members(y@)));
                    return false;
                }
                i = i + 1;
            }
            proof {
                lemma_view_members_ext(x@, y@);
            }
            true
        },
        _ => false,
    }
}

/// The position of the member named `key`, if there is one.
pub fn find_member(members: &Vec<Member>, key: &str) -> (found: Option<usize>)
    ensures
        view_members(members@).len() == members@.len(),
        match found {
            Some(i) => i < members@.len() && members@[i as int].key@ == key@ && forall|j: int|
                0 <= j < i ==> #[trigger] members@[j].key@ != key@,
            None => !has_key(view_members(members@), key@),
        },
{
    proof {
        lemma_view_members(members@);
    }
    let mut i: usize = 0;
    while i < members.len()
        invariant
            i <= members.len(),
            view_members(members@).len() == members@.len(),
            forall|j: int|
                0 <= j < members@.len() ==> #[trigger] view_members(members@)[j] == (
                    members@[j].key@,
                    members@[j].value.view(),
                ),
            forall|j: int| 0 <= j < i ==> #[trigger] members@[j].key@ != key@,
        decreases members.len() - i,
    {
        if text_eq(members[i].key.as_str(), key) {
            return Some(i);
        }
        i = i + 1;
    }
    proof {
        let m = view_members(members@);
        if has_key(m, key@) {
            let j = choose|j: int| 0 <= j < m.len() && #[trigger] m[j].0 == key@;
            assert(members@[j].key@ == key@);
        }
    }
    None
}

/// The value bound to `key` in an object.
pub fn member_value<'a>(members: &'a Vec<Member>, key: &str) -> (value: Option<&'a Value>)
    requires
        keys_sorted(view_members(members@)),
    ensures
        match value {
            Some(v) => lookup(view_members(members@), key@) == Some(v.view()),
            None => lookup(view_members(members@), key@) is None,
        },
{
    let found = find_member(members, key);
    proof {
        lemma_lookup(view_members(members@), key@);
        lemma_view_members(members@);
    }
    match found {
        Some(i) => {
            assert(view_members(members@)[i as int].0 == key@);
            Some(&members[i].value)
        },
        None => None,
    }
}

/// Binds `key` to `value` in an object, keeping its keys in order.
pub fn insert_member(members: &mut Vec<Member>, key: String, value: Value)
    requires
        keys_sorted(view_members(old(members)@)),
    ensures
        view_members(final(members)@) == insert_entry(view_members(old(members)@), key@, value.view()),
        keys_sorted(view_members(final(members)@)),
{
    let ghost m = view_members(members@);
    let ghost kv = key@;
    let ghost vv = value.view();
    proof {
        lemma_view_members(members@);
        lemma_insertion_index(m, key@);
    }
    let mut i: usize = 0;
    while i < members.len()
        invariant
            i <= members.len(),
            kv == key@,
            vv == value.view(),
            m == view_members(old(members)@),
            m == view_members(members@),
            m.len() == members@.len(),
            keys_sorted(m),
            forall|j: int|
                0 <= j < members@.len() ==> #[trigger] m[j] == (
                    members@[j].key@,
                    members@[j].value.view(),
                ),
            forall|j: int| 0 <= j < i ==> text_less(#[trigger] m[j].0, key@),
            0 <= insertion_index(m, key@) <= m.len(),
            forall|j: int| 0 <= j < insertion_index(m, key@) ==> text_less(#[trigger] m[j].0, key@),
            forall|j: int| insertion_index(m, key@) <= j < m.len() ==> !text_less(#[trigger] m[j].0, key@),
        decreases members.len() - i,
    {
        match text_order(members[i].key.as_str(), key.as_str()) {
            TextOrder::Less => {},
            TextOrder::Equal => {
                assert(insertion_index(m, key@) == i) by {
                    lemma_text_less_irreflexive(key@);
                    assert(!text_less(m[i as int].0, key@));
                    let p = insertion_index(m, key@);
                    if p < i {
                        assert(text_less(m[p].0, key@));
                    } else if p > i {
                        assert(text_less(m[i as int].0, key@));
                    }
                }
                assert(m[i as int].0 == kv);
                let old_member = members.remove(i);
                members.insert(i, Member { key, value });
                proof {
                    let r = insert_entry(m, kv, vv);
                    assert(r == m.update(i as int, (kv, vv)));
                    lemma_view_members(members@);
                    assert(view_members(members@) =~= r);
                    lemma_insert_entry(m, kv, vv);
                }
                return;
            },
            TextOrder::Greater => {
                assert(insertion_index(m, key@) == i) by {
                    lemma_text_less_asymmetric(key@, m[i as int].0);
                    let p = insertion_index(m, key@);
                    if p < i {
                        assert(text_less(m[p].0, key@));
                    } else if p > i {
                        assert(text_less(m[i as int].0, key@));
                    }
                }
                assert(text_less(kv, m[i as int].0));
                assert(m[i as int].0 != kv) by {
                    lemma_text_less_irreflexive(kv);
                }
                members.insert(i, Member { key, value });
                proof {
                    let r = insert_entry(m, kv, vv);
                    assert(r == m.insert(i as int, (kv, vv)));
                    lemma_view_members(members@);
                    assert(view_members(members@) =~= r);
                    lemma_insert_entry(m, kv, vv);
                }
                return;
            },
        }
        i = i + 1;
    }
    assert(insertion_index(m, key@) == members.len()) by {
        let p = insertion_index(m, key@);
        if p < members.len() {
            assert(text_less(m[p].0, key@));
        }
    }
    members.push(Member { key, value });
    proof {
        let r = insert_entry(m, kv, vv);
        assert(r == m.insert(m.len() as int, (kv, vv)));
        lemma_view_members(members@);
        assert(view_members(members@) =~= r);
        lemma_insert_entry(m, kv, vv);
    }
}

/// Removes the member named `key` from an object and hands back its value.
pub fn remove_member(members: &mut Vec<Member>, key: &str) -> (removed: Option<Value>)
    requires
        keys_sorted(view_members(old(members)@)),
    ensures
        view_members(final(members)@) == remove_entry(view_members(old(members)@), key@),
        keys_sorted(view_members(final(members)@)),
        match removed {
            Some(v) => lookup(view_members(old(members)@), key@) == Some(v.view()),
            None => lookup(view_members(old(members)@), key@) is None,
        },
{
    let ghost m = view_members(members@);
    proof {
        lemma_view_members(members@);
        lemma_insertion_index(m, key@);
        lemma_remove_entry(m, key@);
        lemma_lookup(m, key@);
    }
    let found = find_member(members, key);
    match found {
        Some(i) => {
            assert(m[i as int].0 == key@);
            assert(insertion_index(m, key@) == i) by {
                lemma_text_less_irreflexive(key@);
                let p = insertion_index(m, key@);
                if p < i {
                    assert(text_less(m[p].0, m[i as int].0));
                } else if p > i {
                    assert(text_less(m[i as int].0, key@));
                }
            }
            let member = members.remove(i);
            proof {
                lemma_view_members(members@);
                assert(view_members(members@) =~= m.remove(i as int));
            }
            Some(member.value)
        },
        None => None,
    }
}


/// In sorted entries, an existing key sits exactly where the order places it.
pub proof fn lemma_insertion_index_of_key(m: Entries, j: int)
    requires
        keys_sorted(m),
        0 <= j < m.len(),
    ensures
        insertion_index(m, m[j].0) == j,
{
    lemma_insertion_index(m, m[j].0);
    let p = insertion_index(m, m[j].0);
    lemma_text_less_irreflexive(m[j].0);
    if p < j {
        assert(text_less(m[p].0, m[j].0));
    } else if p > j {
        assert(text_less(m[j].0, m[j].0));
    }
}

/// Binding a well-formed value keeps every bound value well formed.
pub proof fn lemma_insert_entry_well_formed(m: Entries, k: Seq<char>, v: JsonView)
    requires
        keys_sorted(m),
        entries_well_formed(m),
        well_formed(v),
    ensures
        entries_well_formed(insert_entry(m, k, v)),
{
    lemma_insertion_index(m, k);
    lemma_entries_well_formed(m);
    let r = insert_entry(m, k, v);
    let p = insertion_index(m, k);
    assert forall|i: int| 0 <= i < r.len() implies well_formed(#[trigger] r[i].1) by {
        if p < m.len() && m[p].0 == k {
            if i != p {
                assert(r[i] == m[i]);
            }
        } else if i < p {
            assert(r[i] == m[i]);
        } else if i > p {
            assert(r[i] == m[i - 1]);
        }
    }
    lemma_entries_well_formed(r);
}

/// Removing a binding keeps every remaining value well formed.
pub proof fn lemma_remove_entry_well_formed(m: Entries, k: Seq<char>)
    requires
        keys_sorted(m),
        entries_well_formed(m),
    ensures
        entries_well_formed(remove_entry(m, k)),
{
    lemma_insertion_index(m, k);
    lemma_entries_well_formed(m);
    let r = remove_entry(m, k);
    let p = insertion_index(m, k);
    assert forall|i: int| 0 <= i < r.len() implies well_formed(#[trigger] r[i].1) by {
        if p < m.len() && m[p].0 == k {
            if i < p {
                assert(r[i] == m[i]);
            } else {
                assert(r[i] == m[i + 1]);
            }
        }
    }
    lemma_entries_well_formed(r);
}

/// Replaces the value of the member at position `index`, keeping its key.
pub fn replace_member_value(members: &mut Vec<Member>, index: usize, value: Value) -> (previous:
    Value)
    requires
        index < old(members)@.len(),
    ensures
        view_members(final(members)@) == view_members(old(members)@).update(
            index as int,
            (view_members(old(members)@)[index as int].0, value.view()),
        ),
        previous.view() == view_members(old(members)@)[index as int].1,
        final(members)@.len() == old(members)@.len(),
{
    proof {
        lemma_view_members(members@);
    }
    let ghost before = members@;
    let member = members.remove(index);
    let ghost vv = value.view();
    members.insert(index, Member { key: member.key, value });
    proof {
        lemma_view_members(members@);
        assert(view_members(members@) =~= view_members(before).update(
            index as int,
            (view_members(before)[index as int].0, vv),
        ));
    }
    member.value
}

/// The text stored under `k` when `v` is an object that binds `k` to a text.
pub open spec fn text_member(v: JsonView, k: Seq<char>) -> Option<Seq<char>> {
    match v {
        JsonView::Object(m) => match lookup(m, k) {
            Some(JsonView::Text(t)) => Some(t),
            _ => None,
        },
        _ => None,
    }
}

/// The text stored under `key` when `v` is an object that binds it to a text.
pub fn text_member_of<'a>(v: &'a Value, key: &str) -> (text: Option<&'a String>)
    requires
        well_formed(v.view()),
    ensures
        match text {
            Some(t) => text_member(v.view(), key@) == Some(t@),
            None => text_member(v.view(), key@) is None,
        },
{
    match v {
        Value::Object(members) => match member_value(members, key) {
            Some(Value::Text(t)) => Some(t),
            _ => None,
        },
        _ => None,
    }
}


/// Taking a binding out and putting one back under the same key binds it in place.
pub proof fn lemma_reinsert(m: Entries, k: Seq<char>, v: JsonView)
    requires
        keys_sorted(m),
    ensures
        insert_entry(remove_entry(m, k), k, v) == insert_entry(m, k, v),
{
    let r = remove_entry(m, k);
    lemma_remove_entry(m, k);
    lemma_insert_entry(r, k, v);
    lemma_insert_entry(m, k, v);
    assert forall|k2: Seq<char>| #[trigger] lookup(insert_entry(r, k, v), k2) == lookup(
        insert_entry(m, k, v),
        k2,
    ) by {
        if k2 != k {
            assert(lookup(insert_entry(r, k, v), k2) == lookup(r, k2));
            assert(lookup(insert_entry(m, k, v), k2) == lookup(m, k2));
        }
    }
    lemma_entries_canonical(insert_entry(r, k, v), insert_entry(m, k, v));
}

/// Replacing the value at a key's position is binding that key anew.
pub proof fn lemma_update_is_insert(m: Entries, i: int, v: JsonView)
    requires
        keys_sorted(m),
        0 <= i < m.len(),
    ensures
        m.update(i, (m[i].0, v)) == insert_entry(m, m[i].0, v),
{
    lemma_insertion_index_of_key(m, i);
}


/// In sorted entries, the last binding decides the lookup of its key, and every other key is
/// looked up as in the entries before it.
pub proof fn lemma_lookup_last(m: Entries, k: Seq<char>)
    requires
        keys_sorted(m),
        m.len() > 0,
    ensures
        keys_sorted(m.subrange(0, m.len() - 1)),
        k == m[m.len() - 1].0 ==> lookup(m, k) == Some(m[m.len() - 1].1),
        k != m[m.len() - 1].0 ==> lookup(m, k) == lookup(m.subrange(0, m.len() - 1), k),
{
    let n = m.len() - 1;
    let p = m.subrange(0, n);
    assert forall|i: int, j: int| 0 <= i < j < p.len() implies text_less(#[trigger] p[i].0, #[trigger] p[j].0) by {
        assert(p[i] == m[i] && p[j] == m[j]);
    }
    lemma_lookup(m, k);
    lemma_lookup(p, k);
    if k == m[n].0 {
    } else {
        if has_key(p, k) {
            let i = choose|i: int| 0 <= i < p.len() && #[trigger] p[i].0 == k;
            assert(m[i] == p[i]);
        } else {
            if has_key(m, k) {
                let i = choose|i: int| 0 <= i < m.len() && #[trigger] m[i].0 == k;
                assert(i != n);
                assert(p[i] == m[i]);
            }
        }
    }
}

/// The first binding of `k` decides the lookup.
pub proof fn lemma_lookup_first(m: Entries, k: Seq<char>)
    ensures
        forall|i: int|
            0 <= i < m.len() && #[trigger] m[i].0 == k && (forall|j: int| 0 <= j < i ==> m[j].0 != k)
                ==> lookup(m, k) == Some(m[i].1),
        (forall|j: int| 0 <= j < m.len() ==> m[j].0 != k) ==> lookup(m, k) is None,
    decreases m.len(),
{
    if m.len() > 0 {
        let rest = m.drop_first();
        lemma_lookup_first(rest, k);
        assert forall|i: int|
            0 <= i < m.len() && #[trigger] m[i].0 == k && (forall|j: int| 0 <= j < i ==> m[j].0 != k)
                implies lookup(m, k) == Some(m[i].1) by {
            if i > 0 {
                assert(m[0].0 != k);
                assert(rest[i - 1] == m[i]);
                assert forall|j: int| 0 <= j < i - 1 implies rest[j].0 != k by {
                    assert(rest[j] == m[j + 1]);
                }
            }
        }
        if forall|j: int| 0 <= j < m.len() ==> m[j].0 != k {
            assert forall|j: int| 0 <= j < rest.len() implies rest[j].0 != k by {
                assert(rest[j] == m[j + 1]);
            }
            assert(m[0].0 != k);
        }
    }
}

/// The value bound to `k` when `v` is an object, as `serde_json::Value::get` gives it.
pub open spec fn get(v: JsonView, k: Seq<char>) -> Option<JsonView> {
    match v {
        JsonView::Object(m) => lookup(m, k),
        _ => None,
    }
}

/// The value bound to `key` when `v` is an object.
pub fn get_member<'a>(v: &'a Value, key: &str) -> (value: Option<&'a Value>)
    ensures
        match value {
            Some(x) => get(v.view(), key@) == Some(x.view()),
            None => get(v.view(), key@) is None,
        },
{
    match v {
        Value::Object(members) => {
            let found = find_member(members, key);
            proof {
                lemma_view_members(members@);
                lemma_lookup_first(view_members(members@), key@);
            }
            match found {
                Some(i) => {
                    let ghost m = view_members(members@);
                    assert(m[i as int].0 == key@);
                    assert(forall|j: int| 0 <= j < i ==> m[j].0 != key@) by {
                        assert forall|j: int| 0 <= j < i implies m[j].0 != key@ by {
                            assert(members@[j].key@ != key@);
                        }
                    }
                    Some(&members[i].value)
                },
                None => {
                    proof {
                        let m = view_members(members@);
                        assert forall|j: int| 0 <= j < m.len() implies m[j].0 != key@ by {
                            if m[j].0 == key@ {
                                assert(has_key(m, key@));
                            }
                        }
                    }
                    None
                },
            }
        },
        _ => None,
    }
}


/// The view of two joined lists is the joined views.
pub proof fn lemma_view_items_concat(a: Seq<Value>, b: Seq<Value>)
    ensures
        view_items(a + b) == view_items(a) + view_items(b),
{
    lemma_view_items(a);
    lemma_view_items(b);
    lemma_view_items(a + b);
    assert forall|i: int| 0 <= i < (a + b).len() implies #[trigger] view_items(a + b)[i] == (view_items(a)
        + view_items(b))[i] by {
        if i < a.len() {
            assert((a + b)[i] == a[i]);
        } else {
            assert((a + b)[i] == b[i - a.len()]);
        }
    }
    assert(view_items(a + b) =~= view_items(a) + view_items(b));
}


/// Whether every object in the document, at any depth, holds its keys in order with none twice.
#[verifier::loop_isolation(false)]
pub fn is_well_formed(v: &Value) -> (ok: bool)
    ensures
        ok == well_formed(v.view()),
    decreases v,
{
    match v {
        Value::Array(items) => {
            proof {
                lemma_view_items(items@);
                lemma_items_well_formed(view_items(items@));
            }
            let mut i: usize = 0;
            while i < items.len()
                invariant
                    i <= items.len(),
                    forall|j: int| 0 <= j < i ==> well_formed(#[trigger] items@[j].view()),
                decreases items.len() - i,
            {
                if !is_well_formed(&items[i]) {
                    assert(!well_formed(view_items(items@)[i as int]));
                    return false;
                }
                i = i + 1;
            }
            assert forall|j: int| 0 <= j < view_items(items@).len() implies well_formed(
                #[trigger] view_items(items@)[j],
            ) by {
                assert(view_items(items@)[j] == items@[j].view());
            }
            true
        },
        Value::Object(members) => {
            let ghost m = view_members(members@);
            proof {
                lemma_view_members(members@);
                lemma_entries_well_formed(m);
            }
            let mut i: usize = 0;
            while i < members.len()
                invariant
                    i <= members.len(),
                    m == view_members(members@),
                    m.len() == members@.len(),
                    forall|j: int| 0 <= j < i ==> well_formed(#[trigger] m[j].1),
                    forall|j: int, k: int| 0 <= j < k < i ==> text_less(#[trigger] m[j].0, #[trigger] m[k].0),
                decreases members.len() - i,
            {
                if i > 0 {
                    match text_order(members[i - 1].key.as_str(), members[i].key.as_str()) {
                        TextOrder::Less => {
                            assert forall|j: int, k: int| 0 <= j < k < i + 1 implies text_less(
                                #[trigger] m[j].0,
                                #[trigger] m[k].0,
                            ) by {
                                if k == i && j < i - 1 {
                                    lemma_text_less_transitive(m[j].0, m[i - 1].0, m[k].0);
                                }
                            }
                        },
                        TextOrder::Equal => {
                            proof {
                                lemma_text_less_irreflexive(m[i as int].0);
                            }
                            assert(m[i - 1].0 == m[i as int].0);
                            assert(!text_less(m[i - 1].0, m[i as int].0));
                            assert(!keys_sorted(m));
                            return false;
                        },
                        TextOrder::Greater => {
                            proof {
                                lemma_text_less_asymmetric(m[i as int].0, m[i - 1].0);
                            }
                            assert(!keys_sorted(m));
                            return false;
                        },
                    }
                }
                if !is_well_formed(&members[i].value) {
                    assert(!well_formed(m[i as int].1));
                    return false;
                }
                i = i + 1;
            }
            true
        },
        _ => true,
    }
}

} // verus!
