//! Lexicographic order on text (the order of `String`'s `Ord`: by character
//! code, a proper prefix first) and ordered sets of strings kept as strictly
//! increasing vectors.
use crate::text::{chars_of, copy_text, Text};
use vstd::prelude::*;

verus! {

/// `a` and `b` agree on every position below `k`.
pub open spec fn agree_below(a: Text, b: Text, k: int) -> bool {
    forall|j: int| 0 <= j < k ==> #[trigger] a[j] == b[j]
}

/// `a` precedes `b`, and `k` is the first position where they part.
pub open spec fn lex_lt_at(a: Text, b: Text, k: int) -> bool {
    &&& 0 <= k <= a.len()
    &&& k <= b.len()
    &&& agree_below(a, b, k)
    &&& ((k == a.len() && k < b.len()) || (k < a.len() && k < b.len() && a[k] < b[k]))
}

/// `a` comes strictly before `b` in lexicographic character order.
pub open spec fn lex_lt(a: Text, b: Text) -> bool {
    exists|k: int| lex_lt_at(a, b, k)
}

/// The elements of `s` are strictly increasing.
pub open spec fn strictly_sorted(s: Seq<Text>) -> bool {
    forall|i: int, j: int| 0 <= i < j < s.len() ==> lex_lt(#[trigger] s[i], #[trigger] s[j])
}

proof fn lemma_lt_at_unique(a: Text, b: Text, k1: int, k2: int)
    requires
        lex_lt_at(a, b, k1),
        0 <= k2 <= a.len(),
        k2 <= b.len(),
        agree_below(a, b, k2),
        k2 == a.len() || k2 == b.len() || a[k2] != b[k2],
    ensures
        k1 == k2,
{
    if k1 < k2 {
        assert(a[k1] == b[k1]);
    } else if k2 < k1 {
        assert(a[k2] == b[k2]);
    }
}

/// No text precedes itself.
pub proof fn lemma_lex_irreflexive(a: Text)
    ensures
        !lex_lt(a, a),
{
}

/// The order is a strict total order: transitive.
pub proof fn lemma_lex_transitive(a: Text, b: Text, c: Text)
    requires
        lex_lt(a, b),
        lex_lt(b, c),
    ensures
        lex_lt(a, c),
{
    let k1 = choose|k: int| lex_lt_at(a, b, k);
    let k2 = choose|k: int| lex_lt_at(b, c, k);
    if k1 < k2 {
        assert(lex_lt_at(a, c, k1));
    } else if k2 < k1 {
        assert(lex_lt_at(a, c, k2));
    } else {
        assert(lex_lt_at(a, c, k1));
    }
}

/// The order is a strict total order: any two different texts are ordered.
pub proof fn lemma_lex_total(a: Text, b: Text)
    ensures
        a == b || lex_lt(a, b) || lex_lt(b, a),
{
    if a != b {
        let m = if a.len() < b.len() {
            a.len() as int
        } else {
            b.len() as int
        };
        if agree_below(a, b, m) {
            if a.len() == b.len() {
                assert(a =~= b);
            } else if a.len() < b.len() {
                assert(lex_lt_at(a, b, m));
            } else {
                assert(lex_lt_at(b, a, m));
            }
        } else {
            let d = choose|j: int| 0 <= j < m && a[j] != b[j];
            lemma_first_difference(a, b, d);
        }
    }
}

proof fn lemma_first_difference(a: Text, b: Text, d: int)
    requires
        0 <= d < a.len(),
        d < b.len(),
        a[d] != b[d],
    ensures
        lex_lt(a, b) || lex_lt(b, a),
    decreases d,
{
    if agree_below(a, b, d) {
        if a[d] < b[d] {
            assert(lex_lt_at(a, b, d));
        } else {
            assert(b[d] < a[d]);
            assert(lex_lt_at(b, a, d));
        }
    } else {
        let e = choose|j: int| 0 <= j < d && a[j] != b[j];
        lemma_first_difference(a, b, e);
    }
}

/// The order is asymmetric.
pub proof fn lemma_lex_asymmetric(a: Text, b: Text)
    requires
        lex_lt(a, b),
    ensures
        !lex_lt(b, a),
{
    if lex_lt(b, a) {
        lemma_lex_transitive(a, b, a);
    }
}

fn chars_less(a: &Vec<char>, b: &Vec<char>) -> (r: bool)
    ensures
        r == lex_lt(a@, b@),
{
    let mut k: usize = 0;
    while k < a.len() && k < b.len() && a[k] == b[k]
        invariant
            k <= a@.len(),
            k <= b@.len(),
            agree_below(a@, b@, k as int),
        decreases a@.len() - k,
    {
        k = k + 1;
    }
    let r = if k < a.len() && k < b.len() {
        a[k] < b[k]
    } else {
        k == a.len() && k < b.len()
    };
    proof {
        if r {
            assert(lex_lt_at(a@, b@, k as int));
        } else if lex_lt(a@, b@) {
            let k1 = choose|j: int| lex_lt_at(a@, b@, j);
            lemma_lt_at_unique(a@, b@, k1, k as int);
        }
    }
    r
}

/// Whether `a` comes strictly before `b`.
pub fn text_less(a: &str, b: &str) -> (r: bool)
    ensures
        r == lex_lt(a@, b@),
{
    let ac = chars_of(a);
    let bc = chars_of(b);
    chars_less(&ac, &bc)
}

/// Whether the vector of strings holds `s`.
pub fn texts_contain(v: &Vec<String>, s: &str) -> (r: bool)
    ensures
        r == v.deep_view().contains(s@),
{
    let mut i: usize = 0;
    while i < v.len()
        invariant
            i <= v@.len(),
            forall|k: int| 0 <= k < i ==> v.deep_view()[k] != s@,
        decreases v@.len() - i,
    {
        if crate::text::text_eq(v[i].as_str(), s) {
            assert(v.deep_view()[i as int] == s@);
            return true;
        }
        i = i + 1;
    }
    false
}

/// Adds `s` to the ordered set `v`, keeping it strictly increasing.
pub fn sorted_insert(v: &mut Vec<String>, s: &str)
    requires
        strictly_sorted(old(v).deep_view()),
    ensures
        strictly_sorted(final(v).deep_view()),
        final(v).deep_view().to_set() == old(v).deep_view().to_set().insert(s@),
{
    let ghost old_view = v.deep_view();
    let mut i: usize = 0;
    while i < v.len() && text_less(v[i].as_str(), s)
        invariant
            v.deep_view() == old_view,
            strictly_sorted(old_view),
            i <= v@.len(),
            forall|k: int| 0 <= k < i ==> lex_lt(old_view[k], s@),
        decreases v@.len() - i,
    {
        i = i + 1;
    }
    if i < v.len() && crate::text::text_eq(v[i].as_str(), s) {
        assert(old_view.to_set().insert(s@) =~= old_view.to_set()) by {
            assert(old_view[i as int] == s@);
        }
        return;
    }
    proof {
        if i < v@.len() {
            lemma_lex_total(old_view[i as int], s@);
        }
    }
    v.insert(i, copy_text(s));
    let ghost new_view = v.deep_view();
    assert(new_view =~= old_view.insert(i as int, s@));
    assert forall|a: int, b: int| 0 <= a < b < new_view.len() implies lex_lt(
        #[trigger] new_view[a],
        #[trigger] new_view[b],
    ) by {
        if b < i {
        } else if a < i && b == i {
        } else if a < i {
            assert(lex_lt(old_view[a], s@));
            assert(lex_lt(s@, old_view[i as int]));
            if b - 1 > i {
                lemma_lex_transitive(s@, old_view[i as int], old_view[b - 1]);
            }
            lemma_lex_transitive(old_view[a], s@, old_view[b - 1]);
        } else if a == i {
            if b - 1 > i {
                lemma_lex_transitive(s@, old_view[i as int], old_view[b - 1]);
            }
        } else {
        }
    }
    assert(new_view.to_set() =~= old_view.to_set().insert(s@)) by {
        assert forall|x: Text| new_view.to_set().contains(x) implies old_view.to_set().insert(
            s@,
        ).contains(x) by {
            let k = choose|k: int| 0 <= k < new_view.len() && new_view[k] == x;
            if k < i {
                assert(old_view[k] == x);
            } else if k > i {
                assert(old_view[k - 1] == x);
            }
        }
        assert forall|x: Text| old_view.to_set().insert(s@).contains(x) implies new_view.to_set().contains(
            x,
        ) by {
            if x == s@ {
                assert(new_view[i as int] == x);
            } else {
                let k = choose|k: int| 0 <= k < old_view.len() && old_view[k] == x;
                if k < i {
                    assert(new_view[k] == x);
                } else {
                    assert(new_view[k + 1] == x);
                }
            }
        }
    }
}

/// The distinct strings of `v` in increasing order.
pub fn sorted_unique(v: &Vec<String>) -> (r: Vec<String>)
    ensures
        strictly_sorted(r.deep_view()),
        r.deep_view().to_set() == v.deep_view().to_set(),
{
    let mut r: Vec<String> = Vec::new();
    let mut i: usize = 0;
    while i < v.len()
        invariant
            i <= v@.len(),
            strictly_sorted(r.deep_view()),
            r.deep_view().to_set() == v.deep_view().take(i as int).to_set(),
        decreases v@.len() - i,
    {
        sorted_insert(&mut r, v[i].as_str());
        assert(v.deep_view().take(i + 1) =~= v.deep_view().take(i as int).push(v.deep_view()[i as int]));
        proof {
            v.deep_view().take(i as int).lemma_push_to_set_commute(v.deep_view()[i as int]);
        }
        i = i + 1;
    }
    assert(v.deep_view().take(v@.len() as int) =~= v.deep_view());
    assert(r.deep_view().to_set() == v.deep_view().to_set());
    r
}

/// A strictly increasing sequence holds no element twice.
pub proof fn lemma_sorted_no_duplicates(s: Seq<Text>)
    requires
        strictly_sorted(s),
    ensures
        s.no_duplicates(),
{
    assert forall|i: int, j: int| 0 <= i < s.len() && 0 <= j < s.len() && i != j implies s[i]
        != s[j] by {
        if i < j {
            assert(lex_lt(s[i], s[j]));
        } else {
            assert(lex_lt(s[j], s[i]));
        }
    }
}

} // verus!
