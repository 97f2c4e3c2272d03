use vstd::prelude::*;

use crate::text::{
    lemma_text_less_asymmetric, lemma_text_less_irreflexive, lemma_text_less_total,
    lemma_text_less_transitive, text_less, text_order, TextOrder,
};

verus! {

/// The texts of a list of strings.
pub open spec fn texts(v: Seq<String>) -> Seq<Seq<char>> {
    v.map_values(|s: String| s@)
}

/// Each text comes before the next, in the order of `String`, so none occurs twice.
pub open spec fn strictly_sorted(s: Seq<Seq<char>>) -> bool {
    forall|i: int, j: int| 0 <= i < j < s.len() ==> text_less(#[trigger] s[i], #[trigger] s[j])
}

/// Puts `x` into a sorted list of distinct texts, unless it is there already.
pub fn insert_sorted_unique(v: &mut Vec<String>, x: String)
    requires
        strictly_sorted(texts(old(v)@)),
    ensures
        strictly_sorted(texts(final(v)@)),
        texts(final(v)@).to_set() == texts(old(v)@).to_set().insert(x@),
        texts(old(v)@).contains(x@) ==> final(v)@ == old(v)@,
        !texts(old(v)@).contains(x@) ==> final(v)@.len() == old(v)@.len() + 1,
{
    let ghost t = texts(v@);
    let mut i: usize = 0;
    while i < v.len()
        invariant
            t == texts(v@),
            v@ == old(v)@,
            strictly_sorted(t),
            i <= v@.len(),
            forall|j: int| 0 <= j < i ==> text_less(#[trigger] t[j], x@),
        decreases v@.len() - i,
    {
        match text_order(v[i].as_str(), x.as_str()) {
            TextOrder::Less => {},
            TextOrder::Equal => {
                assert(t[i as int] == x@);
                assert(t.to_set().insert(x@) =~= t.to_set());
                return;
            },
            TextOrder::Greater => {
                let ghost xv = x@;
                v.insert(i, x);
                proof {
                    let r = texts(v@);
                    assert(r =~= t.insert(i as int, xv));
                    assert forall|a: int, b: int| 0 <= a < b < r.len() implies text_less(
                        #[trigger] r[a],
                        #[trigger] r[b],
                    ) by {
                        if b < i {
                        } else if a < i && b == i {
                        } else if a < i && b > i {
                            assert(r[b] == t[b - 1]);
                        } else if a == i {
                            assert(r[b] == t[b - 1]);
                            if b - 1 > i {
                                lemma_text_less_transitive(xv, t[i as int], t[b - 1]);
                            }
                        } else {
                            assert(r[a] == t[a - 1] && r[b] == t[b - 1]);
                        }
                    }
                    assert(!t.contains(xv)) by {
                        if t.contains(xv) {
                            let k = choose|k: int| 0 <= k < t.len() && t[k] == xv;
                            if k < i {
                                lemma_text_less_irreflexive(xv);
                            } else if k > i {
                                lemma_text_less_transitive(xv, t[i as int], t[k]);
                                lemma_text_less_irreflexive(xv);
                            } else {
                                lemma_text_less_irreflexive(xv);
                            }
                        }
                    }
                    assert(r.to_set() =~= t.to_set().insert(xv)) by {
                        assert forall|e: Seq<char>| r.to_set().contains(e) == t.to_set().insert(xv).contains(e) by {
                            if r.contains(e) {
                                let k = choose|k: int| 0 <= k < r.len() && r[k] == e;
                                if k < i {
                                    assert(t[k] == e);
                                } else if k > i {
                                    assert(t[k - 1] == e);
                                }
                            }
                            if t.contains(e) {
                                let k = choose|k: int| 0 <= k < t.len() && t[k] == e;
                                if k < i {
                                    assert(r[k] == e);
                                } else {
                                    assert(r[k + 1] == e);
                                }
                            }
                            if e == xv {
                                assert(r[i as int] == e);
                            }
                        }
                    }
                }
                return;
            },
        }
        i = i + 1;
    }
    let ghost xv = x@;
    v.push(x);
    proof {
        let r = texts(v@);
        assert(r =~= t.push(xv));
        assert forall|a: int, b: int| 0 <= a < b < r.len() implies text_less(
            #[trigger] r[a],
            #[trigger] r[b],
        ) by {
            if b == t.len() {
                assert(r[a] == t[a]);
            } else {
                assert(r[a] == t[a] && r[b] == t[b]);
            }
        }
        assert(!t.contains(xv)) by {
            if t.contains(xv) {
                let k = choose|k: int| 0 <= k < t.len() && t[k] == xv;
                lemma_text_less_irreflexive(xv);
            }
        }
        assert(r.to_set() =~= t.to_set().insert(xv)) by {
            assert forall|e: Seq<char>| r.to_set().contains(e) == t.to_set().insert(xv).contains(e) by {
                if r.contains(e) {
                    let k = choose|k: int| 0 <= k < r.len() && r[k] == e;
                    if k < t.len() {
                        assert(t[k] == e);
                    }
                }
                if t.contains(e) {
                    let k = choose|k: int| 0 <= k < t.len() && t[k] == e;
                    assert(r[k] == e);
                }
                if e == xv {
                    assert(r[t.len() as int] == e);
                }
            }
        }
    }
}

} // verus!
