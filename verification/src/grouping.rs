//! Grouping of (key, value) text pairs into an ordered map of ordered sets,
//! as findings group their evidence by file.
use crate::order::{lemma_lex_irreflexive, lemma_lex_transitive, lex_lt, lemma_sorted_no_duplicates, sorted_unique, strictly_sorted};
use crate::text::{text_eq, Text};
use vstd::prelude::*;

verus! {

/// The elements of a set of texts in increasing order.
pub open spec fn sorted_set(s: Set<Text>) -> Seq<Text> {
    choose|l: Seq<Text>| strictly_sorted(l) && l.to_set() == s
}

/// Two strictly increasing sequences with the same elements are equal.
pub proof fn lemma_sorted_sequences_equal(a: Seq<Text>, b: Seq<Text>)
    requires
        strictly_sorted(a),
        strictly_sorted(b),
        a.to_set() == b.to_set(),
    ensures
        a == b,
    decreases a.len(),
{
    if a.len() == 0 {
        if b.len() > 0 {
            assert(b.to_set().contains(b[0]));
        }
        assert(a =~= b);
    } else {
        assert(a.to_set().contains(a[0]));
        assert(b.len() > 0);
        assert(b.to_set().contains(b[0]));
        let j = choose|j: int| 0 <= j < b.len() && b[j] == a[0];
        let i = choose|i: int| 0 <= i < a.len() && a[i] == b[0];
        if j > 0 {
            assert(lex_lt(b[0], b[j]));
            if i > 0 {
                assert(lex_lt(a[0], a[i]));
                lemma_lex_transitive(a[0], b[0], a[0]);
            }
            lemma_lex_irreflexive(a[0]);
        }
        assert(a[0] == b[0]);
        lemma_sorted_no_duplicates(a);
        lemma_sorted_no_duplicates(b);
        let a1 = a.drop_first();
        let b1 = b.drop_first();
        assert(a1.to_set() =~= a.to_set().remove(a[0])) by {
            assert forall|x: Text| a1.to_set().contains(x) implies a.to_set().remove(a[0]).contains(x) by {
                let k = choose|k: int| 0 <= k < a1.len() && a1[k] == x;
                assert(a[k + 1] == x);
            }
            assert forall|x: Text| a.to_set().remove(a[0]).contains(x) implies a1.to_set().contains(x) by {
                let k = choose|k: int| 0 <= k < a.len() && a[k] == x;
                assert(a1[k - 1] == x);
            }
        }
        assert(b1.to_set() =~= b.to_set().remove(b[0])) by {
            assert forall|x: Text| b1.to_set().contains(x) implies b.to_set().remove(b[0]).contains(x) by {
                let k = choose|k: int| 0 <= k < b1.len() && b1[k] == x;
                assert(b[k + 1] == x);
            }
            assert forall|x: Text| b.to_set().remove(b[0]).contains(x) implies b1.to_set().contains(x) by {
                let k = choose|k: int| 0 <= k < b.len() && b[k] == x;
                assert(b1[k - 1] == x);
            }
        }
        assert(strictly_sorted(a1)) by {
            assert forall|x: int, y: int| 0 <= x < y < a1.len() implies lex_lt(#[trigger] a1[x], #[trigger] a1[y]) by {
                assert(a1[x] == a[x + 1] && a1[y] == a[y + 1]);
            }
        }
        assert(strictly_sorted(b1)) by {
            assert forall|x: int, y: int| 0 <= x < y < b1.len() implies lex_lt(#[trigger] b1[x], #[trigger] b1[y]) by {
                assert(b1[x] == b[x + 1] && b1[y] == b[y + 1]);
            }
        }
        lemma_sorted_sequences_equal(a1, b1);
        assert(a =~= b) by {
            assert forall|k: int| 0 <= k < a.len() implies a[k] == b[k] by {
                if k > 0 {
                    assert(a[k] == a1[k - 1]);
                    assert(b[k] == b1[k - 1]);
                }
            }
        }
    }
}

/// A strictly increasing sequence is the sorted form of its elements.
pub proof fn lemma_sorted_set_of(l: Seq<Text>)
    requires
        strictly_sorted(l),
    ensures
        sorted_set(l.to_set()) == l,
{
    let c = sorted_set(l.to_set());
    assert(strictly_sorted(c) && c.to_set() == l.to_set());
    lemma_sorted_sequences_equal(c, l);
}

/// Texts ordered by `lex_lt`, or equal.
pub open spec fn lex_le() -> spec_fn(Text, Text) -> bool {
    |a: Text, b: Text| a == b || crate::order::lex_lt(a, b)
}

proof fn lemma_lex_le_total()
    ensures
        vstd::relations::total_ordering(lex_le()),
{
    assert forall|x: Text| #[trigger] lex_le()(x, x) by {}
    assert forall|x: Text, y: Text| #[trigger] lex_le()(x, y) && #[trigger] lex_le()(y, x) implies x == y by {
        if x != y {
            crate::order::lemma_lex_asymmetric(x, y);
        }
    }
    assert forall|x: Text, y: Text, z: Text| #[trigger] lex_le()(x, y) && #[trigger] lex_le()(y, z) implies lex_le()(x, z) by {
        if x != y && y != z {
            crate::order::lemma_lex_transitive(x, y, z);
        }
    }
    assert forall|x: Text, y: Text| #[trigger] lex_le()(x, y) || #[trigger] lex_le()(y, x) by {
        crate::order::lemma_lex_total(x, y);
    }
}

proof fn lemma_to_seq_no_duplicates(s: Set<Text>)
    requires
        s.finite(),
    ensures
        s.to_seq().no_duplicates(),
    decreases s.len(),
{
    if s.len() > 0 {
        let x = s.choose();
        lemma_to_seq_no_duplicates(s.remove(x));
        s.remove(x).lemma_to_seq_to_set_id();
        let rest = s.remove(x).to_seq();
        assert(!rest.contains(x)) by {
            if rest.contains(x) {
                assert(rest.to_set().contains(x));
            }
        }
        assert(s.to_seq() == Seq::<Text>::empty().push(x) + rest);
        let t = s.to_seq();
        assert forall|i: int, j: int| 0 <= i < t.len() && 0 <= j < t.len() && i != j implies t[i] != t[j] by {
            if i == 0 {
                assert(t[j] == rest[j - 1]);
            } else if j == 0 {
                assert(t[i] == rest[i - 1]);
            } else {
                assert(t[i] == rest[i - 1] && t[j] == rest[j - 1]);
            }
        }
    }
}

/// Every finite set of texts has a sorted form.
pub proof fn lemma_sorted_set_finite(s: Set<Text>)
    requires
        s.finite(),
    ensures
        strictly_sorted(sorted_set(s)),
        sorted_set(s).to_set() == s,
{
    broadcast use vstd::seq_lib::to_multiset_contains;

    lemma_lex_le_total();
    let q = s.to_seq();
    s.lemma_to_seq_to_set_id();
    lemma_to_seq_no_duplicates(s);
    let l = q.sort_by(lex_le());
    q.lemma_sort_by_ensures(lex_le());
    q.lemma_multiset_has_no_duplicates();
    l.lemma_multiset_has_no_duplicates_conv();
    assert forall|i: int, j: int| 0 <= i < j < l.len() implies crate::order::lex_lt(#[trigger] l[i], #[trigger] l[j]) by {
        assert(lex_le()(l[i], l[j]));
    }
    assert forall|x: Text| l.to_set().contains(x) == s.contains(x) by {
        assert(l.to_multiset().count(x) == q.to_multiset().count(x));
        if l.to_set().contains(x) {
            assert(l.contains(x));
            assert(q.contains(x));
            assert(q.to_set().contains(x));
        }
        if s.contains(x) {
            assert(q.to_set().contains(x));
            assert(q.contains(x));
            assert(l.contains(x));
        }
    }
    assert(l.to_set() =~= s);
    assert(strictly_sorted(l) && l.to_set() == s);
}

/// The distinct strings of `v` in increasing order.
pub fn sorted_set_of(v: &Vec<String>) -> (r: Vec<String>)
    ensures
        r.deep_view() == sorted_set(v.deep_view().to_set()),
        strictly_sorted(r.deep_view()),
        r.deep_view().to_set() == v.deep_view().to_set(),
{
    let r = sorted_unique(v);
    proof {
        lemma_sorted_set_of(r.deep_view());
    }
    r
}

/// The keys of the pairs, in order.
pub open spec fn pair_keys(pairs: Seq<(Text, Text)>) -> Seq<Text> {
    pairs.map_values(|p: (Text, Text)| p.0)
}

/// The values paired with `key`, in order.
pub open spec fn values_for(pairs: Seq<(Text, Text)>, key: Text) -> Seq<Text>
    decreases pairs.len(),
{
    if pairs.len() == 0 {
        Seq::empty()
    } else {
        let prev = values_for(pairs.drop_last(), key);
        if pairs.last().0 == key {
            prev.push(pairs.last().1)
        } else {
            prev
        }
    }
}

/// The keys of a grouping.
pub open spec fn group_keys(g: Seq<(Text, Seq<Text>)>) -> Seq<Text> {
    g.map_values(|e: (Text, Seq<Text>)| e.0)
}

/// The pairs grouped by key: the distinct keys in increasing order, each
/// with the distinct values paired with it in increasing order.
pub open spec fn grouping_of(pairs: Seq<(Text, Text)>) -> Seq<(Text, Seq<Text>)> {
    sorted_set(pair_keys(pairs).to_set()).map_values(|k: Text| (k, sorted_set(values_for(pairs, k).to_set())))
}

/// The values paired with `key`, in order.
fn collect_values(pairs: &Vec<(String, String)>, key: &str) -> (r: Vec<String>)
    ensures
        r.deep_view() == values_for(pairs.deep_view(), key@),
{
    let mut r: Vec<String> = Vec::new();
    let ghost pv = pairs.deep_view();
    assert(r.deep_view() =~= Seq::<Text>::empty());
    assert(pv.take(0) =~= Seq::<(Text, Text)>::empty());
    let mut i: usize = 0;
    while i < pairs.len()
        invariant
            pv == pairs.deep_view(),
            i <= pairs@.len(),
            r.deep_view() == values_for(pv.take(i as int), key@),
        decreases pairs@.len() - i,
    {
        assert(pv.take(i + 1).drop_last() =~= pv.take(i as int));
        assert(pv.take(i + 1).last() == pv[i as int]);
        if text_eq(pairs[i].0.as_str(), key) {
            crate::text::push_line(&mut r, pairs[i].1.clone());
        }
        i = i + 1;
    }
    assert(pv.take(pairs@.len() as int) =~= pv);
    r
}

/// The pairs grouped by key (see `is_grouping`).
pub fn group_pairs(pairs: &Vec<(String, String)>) -> (r: Vec<(String, Vec<String>)>)
    ensures
        r.deep_view() == grouping_of(pairs.deep_view()),
{
    let ghost pv = pairs.deep_view();
    let mut keys: Vec<String> = Vec::new();
    let mut i: usize = 0;
    while i < pairs.len()
        invariant
            pv == pairs.deep_view(),
            i <= pairs@.len(),
            keys.deep_view() == pair_keys(pv.take(i as int)),
        decreases pairs@.len() - i,
    {
        crate::text::push_line(&mut keys, pairs[i].0.clone());
        assert(pair_keys(pv.take(i + 1)) =~= pair_keys(pv.take(i as int)).push(pv[i as int].0));
        i = i + 1;
    }
    assert(pv.take(pairs@.len() as int) =~= pv);
    let sorted = sorted_unique(&keys);
    let mut r: Vec<(String, Vec<String>)> = Vec::new();
    let mut j: usize = 0;
    while j < sorted.len()
        invariant
            pv == pairs.deep_view(),
            j <= sorted@.len(),
            r@.len() == j,
            group_keys(r.deep_view()) == sorted.deep_view().take(j as int),
            forall|k: int|
                0 <= k < j ==> (#[trigger] r.deep_view()[k]).1 == sorted_set(values_for(pv, r.deep_view()[k].0).to_set()),
        decreases sorted@.len() - j,
    {
        let values = collect_values(pairs, sorted[j].as_str());
        let unique = sorted_unique(&values);
        let ghost before = r.deep_view();
        proof {
            lemma_sorted_set_of(unique.deep_view());
        }
        r.push((sorted[j].clone(), unique));
        assert(r.deep_view() =~= before.push((sorted.deep_view()[j as int], unique.deep_view())));
        assert(group_keys(r.deep_view()) =~= sorted.deep_view().take(j + 1));
        j = j + 1;
    }
    assert(sorted.deep_view().take(sorted@.len() as int) =~= sorted.deep_view());
    proof {
        lemma_sorted_set_of(sorted.deep_view());
        assert(r.deep_view() =~= grouping_of(pv)) by {
            assert forall|k: int| 0 <= k < r.deep_view().len() implies r.deep_view()[k] == grouping_of(pv)[k] by {
                assert(group_keys(r.deep_view())[k] == r.deep_view()[k].0);
            }
        }
    }
    r
}

} // verus!
