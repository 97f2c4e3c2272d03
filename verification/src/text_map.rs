use vstd::prelude::*;

use crate::text::{
    lemma_text_less_asymmetric, lemma_text_less_irreflexive, lemma_text_less_transitive, text_less, text_order,
    TextOrder,
};

verus! {

/// Each key comes before the next in the order of `String`.
pub open spec fn keys_ascending(s: Seq<(String, String)>) -> bool {
    forall|i: int, j: int| 0 <= i < j < s.len() ==> text_less(#[trigger] s[i].0@, #[trigger] s[j].0@)
}

pub open spec fn position_of(s: Seq<(String, String)>, key: Seq<char>) -> int {
    choose|i: int| 0 <= i < s.len() && s[i].0@ == key
}

/// The entries as a map from key to value.
pub open spec fn entries_map(s: Seq<(String, String)>) -> Map<Seq<char>, Seq<char>> {
    Map::new(
        |key: Seq<char>| exists|i: int| 0 <= i < s.len() && s[i].0@ == key,
        |key: Seq<char>| s[position_of(s, key)].1@,
    )
}

/// The key that `String`'s order puts first in a map.
pub open spec fn least_key(m: Map<Seq<char>, Seq<char>>) -> Seq<char> {
    choose|k: Seq<char>|
        m.contains_key(k) && forall|o: Seq<char>| #[trigger] m.contains_key(o) ==> o == k || text_less(k, o)
}

proof fn lemma_entry(s: Seq<(String, String)>, i: int)
    requires
        keys_ascending(s),
        0 <= i < s.len(),
    ensures
        entries_map(s).contains_key(s[i].0@),
        entries_map(s)[s[i].0@] == s[i].1@,
{
    let key = s[i].0@;
    assert(exists|x: int| 0 <= x < s.len() && s[x].0@ == key);
    let k = position_of(s, key);
    if k < i {
        lemma_text_less_irreflexive(key);
    } else if k > i {
        lemma_text_less_irreflexive(key);
    }
}

proof fn lemma_least_first(s: Seq<(String, String)>)
    requires
        keys_ascending(s),
        s.len() > 0,
    ensures
        least_key(entries_map(s)) == s[0].0@,
{
    let m = entries_map(s);
    let first = s[0].0@;
    lemma_entry(s, 0);
    assert forall|o: Seq<char>| #[trigger] m.contains_key(o) implies o == first || text_less(first, o) by {
        let j = choose|j: int| 0 <= j < s.len() && s[j].0@ == o;
        if j > 0 {
            assert(text_less(s[0].0@, s[j].0@));
        }
    }
    let k = least_key(m);
    assert(m.contains_key(k) && forall|o: Seq<char>| #[trigger] m.contains_key(o) ==> o == k || text_less(k, o));
    if k != first {
        assert(text_less(k, first));
        assert(text_less(first, k));
        lemma_text_less_asymmetric(k, first);
    }
}

proof fn lemma_insert_at(s: Seq<(String, String)>, i: int, e: (String, String))
    requires
        0 <= i <= s.len(),
        keys_ascending(s.insert(i, e)),
    ensures
        keys_ascending(s),
        entries_map(s.insert(i, e)) == entries_map(s).insert(e.0@, e.1@),
{
    let t = s.insert(i, e);
    assert forall|a: int, b: int| 0 <= a < b < s.len() implies text_less(#[trigger] s[a].0@, #[trigger] s[b].0@) by {
        let ta = if a < i { a } else { a + 1 };
        let tb = if b < i { b } else { b + 1 };
        assert(t[ta] == s[a] && t[tb] == s[b]);
    }
    let tm = entries_map(t);
    let expected = entries_map(s).insert(e.0@, e.1@);
    assert forall|q: Seq<char>| #[trigger] tm.contains_key(q) == expected.contains_key(q) by {
        if tm.contains_key(q) {
            let j = choose|j: int| 0 <= j < t.len() && t[j].0@ == q;
            if j < i {
                assert(s[j] == t[j]);
                lemma_entry(s, j);
            } else if j > i {
                assert(s[j - 1] == t[j]);
                lemma_entry(s, j - 1);
            }
        }
        if expected.contains_key(q) {
            if q == e.0@ {
                lemma_entry(t, i);
            } else {
                let j = choose|j: int| 0 <= j < s.len() && s[j].0@ == q;
                let tj = if j < i { j } else { j + 1 };
                assert(t[tj] == s[j]);
                lemma_entry(t, tj);
            }
        }
    }
    assert forall|q: Seq<char>| #[trigger] tm.contains_key(q) implies tm[q] == expected[q] by {
        if q == e.0@ {
            lemma_entry(t, i);
        } else {
            let j = choose|j: int| 0 <= j < s.len() && s[j].0@ == q;
            let tj = if j < i { j } else { j + 1 };
            assert(t[tj] == s[j]);
            lemma_entry(t, tj);
            lemma_entry(s, j);
        }
    }
    assert(tm =~= expected);
}

proof fn lemma_remove_at(s: Seq<(String, String)>, i: int)
    requires
        0 <= i < s.len(),
        keys_ascending(s),
    ensures
        keys_ascending(s.remove(i)),
        entries_map(s.remove(i)) == entries_map(s).remove(s[i].0@),
{
    let t = s.remove(i);
    let gone = s[i].0@;
    assert forall|a: int, b: int| 0 <= a < b < t.len() implies text_less(#[trigger] t[a].0@, #[trigger] t[b].0@) by {
        let sa = if a < i { a } else { a + 1 };
        let sb = if b < i { b } else { b + 1 };
        assert(t[a] == s[sa] && t[b] == s[sb]);
    }
    let tm = entries_map(t);
    let expected = entries_map(s).remove(gone);
    assert forall|q: Seq<char>| #[trigger] tm.contains_key(q) == expected.contains_key(q) by {
        if tm.contains_key(q) {
            let j = choose|j: int| 0 <= j < t.len() && t[j].0@ == q;
            let sj = if j < i { j } else { j + 1 };
            assert(s[sj] == t[j]);
            lemma_entry(s, sj);
            if sj < i {
                assert(text_less(s[sj].0@, s[i].0@));
            } else {
                assert(text_less(s[i].0@, s[sj].0@));
            }
            lemma_text_less_irreflexive(q);
        }
        if expected.contains_key(q) {
            let j = choose|j: int| 0 <= j < s.len() && s[j].0@ == q;
            assert(j != i);
            let tj = if j < i { j } else { j - 1 };
            assert(t[tj] == s[j]);
            lemma_entry(t, tj);
        }
    }
    assert forall|q: Seq<char>| #[trigger] tm.contains_key(q) implies tm[q] == expected[q] by {
        let j = choose|j: int| 0 <= j < t.len() && t[j].0@ == q;
        let sj = if j < i { j } else { j + 1 };
        assert(s[sj] == t[j]);
        lemma_entry(t, j);
        lemma_entry(s, sj);
    }
    assert(tm =~= expected);
}

proof fn lemma_replace_at(s: Seq<(String, String)>, i: int, e: (String, String))
    requires
        0 <= i < s.len(),
        keys_ascending(s),
        s[i].0@ == e.0@,
    ensures
        keys_ascending(s.update(i, e)),
        entries_map(s.update(i, e)) == entries_map(s).insert(e.0@, e.1@),
{
    let t = s.update(i, e);
    assert forall|a: int, b: int| 0 <= a < b < t.len() implies text_less(#[trigger] t[a].0@, #[trigger] t[b].0@) by {
        assert(t[a].0@ == s[a].0@ && t[b].0@ == s[b].0@);
    }
    let tm = entries_map(t);
    let expected = entries_map(s).insert(e.0@, e.1@);
    assert forall|q: Seq<char>| #[trigger] tm.contains_key(q) == expected.contains_key(q) by {
        if tm.contains_key(q) {
            let j = choose|j: int| 0 <= j < t.len() && t[j].0@ == q;
            assert(s[j].0@ == q);
            lemma_entry(s, j);
        }
        if expected.contains_key(q) {
            if q == e.0@ {
                lemma_entry(t, i);
            } else {
                let j = choose|j: int| 0 <= j < s.len() && s[j].0@ == q;
                assert(t[j].0@ == q);
                lemma_entry(t, j);
            }
        }
    }
    assert forall|q: Seq<char>| #[trigger] tm.contains_key(q) implies tm[q] == expected[q] by {
        if q == e.0@ {
            lemma_entry(t, i);
        } else {
            let j = choose|j: int| 0 <= j < s.len() && s[j].0@ == q;
            assert(j != i);
            assert(t[j] == s[j]);
            lemma_entry(t, j);
            lemma_entry(s, j);
        }
    }
    assert(tm =~= expected);
}

/// A map from texts to texts that keeps its entries in the order of its keys, as a
/// `BTreeMap<String, String>` does.
pub struct TextMap {
    entries: Vec<(String, String)>,
}

impl TextMap {
    /// The value bound to each key.
    pub closed spec fn view(&self) -> Map<Seq<char>, Seq<char>> {
        entries_map(self.entries@)
    }

    /// How many keys are bound.
    pub closed spec fn count(&self) -> nat {
        self.entries@.len()
    }

    /// The map's invariant: its keys are ascending, so none occurs twice.
    pub closed spec fn well_formed(&self) -> bool {
        keys_ascending(self.entries@)
    }

    /// An empty map.
    pub fn new() -> (map: Self)
        ensures
            map.well_formed(),
            map@ == Map::<Seq<char>, Seq<char>>::empty(),
            map.count() == 0,
    {
        let map = TextMap { entries: Vec::new() };
        assert(entries_map(map.entries@) =~= Map::<Seq<char>, Seq<char>>::empty());
        map
    }

    /// Where `key` is, or where it would go.
    fn position(&self, key: &str) -> (found: Result<usize, usize>)
        requires
            self.well_formed(),
        ensures
            match found {
                Ok(i) => i < self.entries@.len() && self.entries@[i as int].0@ == key@,
                Err(i) => {
                    &&& i <= self.entries@.len()
                    &&& forall|j: int| 0 <= j < i ==> text_less(#[trigger] self.entries@[j].0@, key@)
                    &&& forall|j: int| i <= j < self.entries@.len() ==> text_less(key@, #[trigger] self.entries@[j].0@)
                },
            },
    {
        let mut i: usize = 0;
        while i < self.entries.len()
            invariant
                i <= self.entries@.len(),
                keys_ascending(self.entries@),
                forall|j: int| 0 <= j < i ==> text_less(#[trigger] self.entries@[j].0@, key@),
            decreases self.entries@.len() - i,
        {
            match text_order(self.entries[i].0.as_str(), key) {
                TextOrder::Less => {},
                TextOrder::Equal => {
                    return Ok(i);
                },
                TextOrder::Greater => {
                    proof {
                        assert forall|j: int| i <= j < self.entries@.len() implies text_less(
                            key@,
                            #[trigger] self.entries@[j].0@,
                        ) by {
                            if j > i {
                                lemma_text_less_transitive(key@, self.entries@[i as int].0@, self.entries@[j].0@);
                            }
                        }
                    }
                    return Err(i);
                },
            }
            i = i + 1;
        }
        Err(i)
    }

    /// Whether `key` is bound.
    pub fn contains(&self, key: &str) -> (found: bool)
        requires
            self.well_formed(),
        ensures
            found == self@.contains_key(key@),
    {
        match self.position(key) {
            Ok(i) => {
                proof {
                    lemma_entry(self.entries@, i as int);
                }
                true
            },
            Err(i) => {
                proof {
                    if self@.contains_key(key@) {
                        let j = choose|j: int| 0 <= j < self.entries@.len() && self.entries@[j].0@ == key@;
                        lemma_text_less_irreflexive(key@);
                    }
                }
                false
            },
        }
    }

    /// The value bound to `key`.
    pub fn get(&self, key: &str) -> (value: Option<String>)
        requires
            self.well_formed(),
        ensures
            match value {
                Some(u) => self@.contains_key(key@) && self@[key@] == u@,
                None => !self@.contains_key(key@),
            },
    {
        match self.position(key) {
            Ok(i) => {
                proof {
                    lemma_entry(self.entries@, i as int);
                }
                Some(self.entries[i].1.clone())
            },
            Err(i) => {
                proof {
                    if self@.contains_key(key@) {
                        let j = choose|j: int| 0 <= j < self.entries@.len() && self.entries@[j].0@ == key@;
                        lemma_text_less_irreflexive(key@);
                    }
                }
                None
            },
        }
    }

    /// Binds `key` to `value`, replacing an earlier value.
    pub fn insert(&mut self, key: String, value: String)
        requires
            old(self).well_formed(),
        ensures
            final(self).well_formed(),
            final(self)@ == old(self)@.insert(key@, value@),
            final(self).count() == if old(self)@.contains_key(key@) {
                old(self).count()
            } else {
                old(self).count() + 1
            },
    {
        let ghost before = self.entries@;
        let ghost k = key@;
        match self.position(key.as_str()) {
            Ok(i) => {
                proof {
                    lemma_entry(before, i as int);
                }
                self.entries.set(i, (key, value));
                proof {
                    lemma_replace_at(before, i as int, self.entries@[i as int]);
                    assert(self.entries@ == before.update(i as int, self.entries@[i as int]));
                }
            },
            Err(i) => {
                proof {
                    if entries_map(before).contains_key(k) {
                        let j = choose|j: int| 0 <= j < before.len() && before[j].0@ == k;
                        lemma_text_less_irreflexive(k);
                    }
                }
                self.entries.insert(i, (key, value));
                proof {
                    let inserted = self.entries@;
                    let e = inserted[i as int];
                    assert(inserted == before.insert(i as int, e));
                    assert forall|a: int, b: int| 0 <= a < b < inserted.len() implies text_less(
                        #[trigger] inserted[a].0@,
                        #[trigger] inserted[b].0@,
                    ) by {
                        if b < i {
                            assert(inserted[a] == before[a] && inserted[b] == before[b]);
                        } else if b == i {
                            assert(inserted[a] == before[a]);
                        } else if a < i {
                            assert(inserted[a] == before[a] && inserted[b] == before[b - 1]);
                            lemma_text_less_transitive(before[a].0@, k, before[b - 1].0@);
                        } else if a == i {
                            assert(inserted[b] == before[b - 1]);
                        } else {
                            assert(inserted[a] == before[a - 1] && inserted[b] == before[b - 1]);
                        }
                    }
                    lemma_insert_at(before, i as int, e);
                }
            },
        }
    }

    /// Unbinds the key that comes first.
    pub fn remove_first(&mut self)
        requires
            old(self).well_formed(),
            old(self).count() > 0,
        ensures
            final(self).well_formed(),
            final(self)@ == old(self)@.remove(least_key(old(self)@)),
            final(self).count() == old(self).count() - 1,
    {
        proof {
            lemma_least_first(self.entries@);
            lemma_remove_at(self.entries@, 0);
        }
        self.entries.remove(0);
    }

    /// The entries, in the order of their keys.
    pub fn entries(&self) -> (entries: &Vec<(String, String)>)
        requires
            self.well_formed(),
        ensures
            keys_ascending(entries@),
            entries_map(entries@) == self@,
            entries@.len() == self.count(),
    {
        &self.entries
    }

    /// Unbinds `key`; whether it was bound.
    pub fn remove(&mut self, key: &str) -> (removed: bool)
        requires
            old(self).well_formed(),
        ensures
            final(self).well_formed(),
            removed == old(self)@.contains_key(key@),
            final(self)@ == old(self)@.remove(key@),
            removed ==> old(self).count() > 0 && final(self).count() == old(self).count() - 1,
            !removed ==> final(self).count() == old(self).count(),
    {
        let ghost before = self.entries@;
        match self.position(key) {
            Ok(i) => {
                proof {
                    lemma_entry(before, i as int);
                    lemma_remove_at(before, i as int);
                }
                self.entries.remove(i);
                true
            },
            Err(i) => {
                proof {
                    if entries_map(before).contains_key(key@) {
                        let j = choose|j: int| 0 <= j < before.len() && before[j].0@ == key@;
                        lemma_text_less_irreflexive(key@);
                    }
                    assert(entries_map(before).remove(key@) =~= entries_map(before));
                }
                false
            },
        }
    }

    /// Unbinds every key.
    pub fn clear(&mut self)
        ensures
            final(self).well_formed(),
            final(self)@ == Map::<Seq<char>, Seq<char>>::empty(),
            final(self).count() == 0,
    {
        self.entries.clear();
        assert(entries_map(self.entries@) =~= Map::<Seq<char>, Seq<char>>::empty());
    }

    /// How many keys are bound.
    pub fn len(&self) -> (count: usize)
        ensures
            count == self.count(),
    {
        self.entries.len()
    }
}

} // verus!
