//! Ordered sets of obligation sites, in the order of their fields: path,
//! kind, line (a missing line first), detail.
use crate::obligations::{copy_site, ObligationSite, SiteView};
use crate::order::{lemma_lex_asymmetric, lemma_lex_irreflexive, lemma_lex_total, lemma_lex_transitive, lex_lt, text_less};
use crate::text::text_eq;
use vstd::prelude::*;

verus! {

/// The elements of `s` are strictly increasing under `lt`.
pub open spec fn sorted_by<T>(s: Seq<T>, lt: spec_fn(T, T) -> bool) -> bool {
    forall|i: int, j: int| 0 <= i < j < s.len() ==> #[trigger] lt(s[i], s[j])
}

/// `lt` is irreflexive and transitive.
pub open spec fn is_strict_order<T>(lt: spec_fn(T, T) -> bool) -> bool {
    &&& forall|a: T| !#[trigger] lt(a, a)
    &&& forall|a: T, b: T, c: T| #[trigger] lt(a, b) && #[trigger] lt(b, c) ==> lt(a, c)
}

/// The elements of a set in increasing order under `lt`.
pub open spec fn sorted_set_by<T>(s: Set<T>, lt: spec_fn(T, T) -> bool) -> Seq<T> {
    choose|l: Seq<T>| sorted_by(l, lt) && l.to_set() == s
}

/// Two sequences that are strictly increasing under the same strict order
/// and hold the same elements are equal.
pub proof fn lemma_sorted_by_equal<T>(a: Seq<T>, b: Seq<T>, lt: spec_fn(T, T) -> bool)
    requires
        is_strict_order(lt),
        sorted_by(a, lt),
        sorted_by(b, lt),
        a.to_set() == b.to_set(),
    ensures
        a == b,
    decreases a.len(),
{
    if a.len() == 0 {
        if b.len() > 0 {
            assert(b.to_set().contains(b[0]));
        }
        assert(a =~= b);
    } else {
        assert(a.to_set().contains(a[0]));
        assert(b.to_set().contains(b[0]));
        let j = choose|j: int| 0 <= j < b.len() && b[j] == a[0];
        let i = choose|i: int| 0 <= i < a.len() && a[i] == b[0];
        if j > 0 {
            assert(lt(b[0], b[j]));
            if i > 0 {
                assert(lt(a[0], a[i]));
                assert(lt(a[0], a[0]));
            }
            assert(!lt(a[0], a[0]));
        }
        assert(a[0] == b[0]);
        let a1 = a.drop_first();
        let b1 = b.drop_first();
        assert forall|k: int| 0 <= k < a1.len() implies a1[k] != a[0] by {
            assert(lt(a[0], a[k + 1]));
        }
        assert forall|k: int| 0 <= k < b1.len() implies b1[k] != b[0] by {
            assert(lt(b[0], b[k + 1]));
        }
        assert(a1.to_set() =~= a.to_set().remove(a[0])) by {
            assert forall|x: T| a1.to_set().contains(x) implies a.to_set().remove(a[0]).contains(x) by {
                let k = choose|k: int| 0 <= k < a1.len() && a1[k] == x;
                assert(a[k + 1] == x);
            }
            assert forall|x: T| a.to_set().remove(a[0]).contains(x) implies a1.to_set().contains(x) by {
                let k = choose|k: int| 0 <= k < a.len() && a[k] == x;
                assert(a1[k - 1] == x);
            }
        }
        assert(b1.to_set() =~= b.to_set().remove(b[0])) by {
            assert forall|x: T| b1.to_set().contains(x) implies b.to_set().remove(b[0]).contains(x) by {
                let k = choose|k: int| 0 <= k < b1.len() && b1[k] == x;
                assert(b[k + 1] == x);
            }
            assert forall|x: T| b.to_set().remove(b[0]).contains(x) implies b1.to_set().contains(x) by {
                let k = choose|k: int| 0 <= k < b.len() && b[k] == x;
                assert(b1[k - 1] == x);
            }
        }
        assert(sorted_by(a1, lt)) by {
            assert forall|x: int, y: int| 0 <= x < y < a1.len() implies #[trigger] lt(a1[x], a1[y]) by {
                assert(lt(a[x + 1], a[y + 1]));
            }
        }
        assert(sorted_by(b1, lt)) by {
            assert forall|x: int, y: int| 0 <= x < y < b1.len() implies #[trigger] lt(b1[x], b1[y]) by {
                assert(lt(b[x + 1], b[y + 1]));
            }
        }
        lemma_sorted_by_equal(a1, b1, lt);
        assert(a =~= b) by {
            assert forall|k: int| 0 <= k < a.len() implies a[k] == b[k] by {
                if k > 0 {
                    assert(a[k] == a1[k - 1]);
                    assert(b[k] == b1[k - 1]);
                }
            }
        }
    }
}

/// A strictly increasing sequence is the sorted form of its elements.
pub proof fn lemma_sorted_set_by_of<T>(l: Seq<T>, lt: spec_fn(T, T) -> bool)
    requires
        is_strict_order(lt),
        sorted_by(l, lt),
    ensures
        sorted_set_by(l.to_set(), lt) == l,
{
    let c = sorted_set_by(l.to_set(), lt);
    assert(sorted_by(c, lt) && c.to_set() == l.to_set());
    lemma_sorted_by_equal(c, l, lt);
}

/// A missing line comes before any line; lines compare by number.
pub open spec fn line_lt(a: Option<u32>, b: Option<u32>) -> bool {
    match (a, b) {
        (None, Some(_)) => true,
        (Some(x), Some(y)) => x < y,
        _ => false,
    }
}

/// Sites compare by path, then kind, then line, then detail.
pub open spec fn site_lt(a: SiteView, b: SiteView) -> bool {
    ||| lex_lt(a.0, b.0)
    ||| (a.0 == b.0 && lex_lt(a.1, b.1))
    ||| (a.0 == b.0 && a.1 == b.1 && line_lt(a.2, b.2))
    ||| (a.0 == b.0 && a.1 == b.1 && a.2 == b.2 && lex_lt(a.3, b.3))
}

/// The site order as a value.
pub open spec fn site_order() -> spec_fn(SiteView, SiteView) -> bool {
    |a: SiteView, b: SiteView| site_lt(a, b)
}

pub proof fn lemma_site_lt_irreflexive(a: SiteView)
    ensures
        !site_lt(a, a),
{
    lemma_lex_irreflexive(a.0);
    lemma_lex_irreflexive(a.1);
    lemma_lex_irreflexive(a.3);
}

pub proof fn lemma_site_lt_transitive(a: SiteView, b: SiteView, c: SiteView)
    requires
        site_lt(a, b),
        site_lt(b, c),
    ensures
        site_lt(a, c),
{
    if lex_lt(a.0, b.0) && lex_lt(b.0, c.0) {
        lemma_lex_transitive(a.0, b.0, c.0);
    }
    if a.0 == b.0 && b.0 == c.0 && lex_lt(a.1, b.1) && lex_lt(b.1, c.1) {
        lemma_lex_transitive(a.1, b.1, c.1);
    }
    if a.0 == b.0 && b.0 == c.0 && a.1 == b.1 && b.1 == c.1 && a.2 == b.2 && b.2 == c.2 && lex_lt(a.3, b.3)
        && lex_lt(b.3, c.3) {
        lemma_lex_transitive(a.3, b.3, c.3);
    }
}

/// The site order is a strict order.
pub proof fn lemma_site_order_strict()
    ensures
        is_strict_order(site_order()),
{
    assert forall|a: SiteView| !#[trigger] site_order()(a, a) by {
        lemma_site_lt_irreflexive(a);
    }
    assert forall|a: SiteView, b: SiteView, c: SiteView|
        #[trigger] site_order()(a, b) && #[trigger] site_order()(b, c) implies site_order()(a, c) by {
        lemma_site_lt_transitive(a, b, c);
    }
}

pub proof fn lemma_site_lt_total(a: SiteView, b: SiteView)
    ensures
        a == b || site_lt(a, b) || site_lt(b, a),
{
    lemma_lex_total(a.0, b.0);
    lemma_lex_total(a.1, b.1);
    lemma_lex_total(a.3, b.3);
}

/// Whether `a` comes before `b` in the site order.
pub fn site_less(a: &ObligationSite, b: &ObligationSite) -> (r: bool)
    ensures
        r == site_lt(a@, b@),
{
    if !text_eq(a.path.as_str(), b.path.as_str()) {
        let r = text_less(a.path.as_str(), b.path.as_str());
        proof {
            if !r {
                lemma_lex_total(a.path@, b.path@);
                lemma_lex_asymmetric(b.path@, a.path@);
            }
        }
        return r;
    }
    if !text_eq(a.kind.as_str(), b.kind.as_str()) {
        return text_less(a.kind.as_str(), b.kind.as_str());
    }
    let line_before = match (a.line, b.line) {
        (None, Some(_)) => true,
        (Some(x), Some(y)) => x < y,
        _ => false,
    };
    if line_before {
        return true;
    }
    if a.line != b.line {
        return false;
    }
    text_less(a.detail.as_str(), b.detail.as_str())
}

/// Whether two sites are equal.
pub fn site_equal(a: &ObligationSite, b: &ObligationSite) -> (r: bool)
    ensures
        r == (a@ == b@),
{
    text_eq(a.path.as_str(), b.path.as_str()) && text_eq(a.kind.as_str(), b.kind.as_str()) && a.line == b.line
        && text_eq(a.detail.as_str(), b.detail.as_str())
}

/// The sites as plain values.
pub open spec fn site_views(v: Seq<ObligationSite>) -> Seq<SiteView> {
    v.map_values(|s: ObligationSite| s@)
}

/// Adds a site to an ordered set of sites.
pub fn site_set_insert(v: &mut Vec<ObligationSite>, s: &ObligationSite)
    requires
        sorted_by(site_views(old(v)@), site_order()),
    ensures
        sorted_by(site_views(final(v)@), site_order()),
        site_views(final(v)@).to_set() == site_views(old(v)@).to_set().insert(s@),
{
    let ghost old_view = site_views(v@);
    let mut i: usize = 0;
    while i < v.len() && site_less(&v[i], s)
        invariant
            site_views(v@) == old_view,
            sorted_by(old_view, site_order()),
            i <= v@.len(),
            forall|k: int| 0 <= k < i ==> site_lt(old_view[k], s@),
        decreases v@.len() - i,
    {
        assert(old_view[i as int] == v@[i as int]@);
        i = i + 1;
    }
    if i < v.len() && site_equal(&v[i], s) {
        assert(old_view.to_set().insert(s@) =~= old_view.to_set()) by {
            assert(old_view[i as int] == s@);
        }
        return;
    }
    proof {
        if i < v@.len() {
            assert(old_view[i as int] == v@[i as int]@);
            lemma_site_lt_total(old_view[i as int], s@);
        }
    }
    v.insert(i, copy_site(s));
    let ghost new_view = site_views(v@);
    assert(new_view =~= old_view.insert(i as int, s@));
    assert forall|a: int, b: int| 0 <= a < b < new_view.len() implies #[trigger] site_order()(new_view[a], new_view[b]) by {
        if b < i {
            assert(site_order()(old_view[a], old_view[b]));
        } else if a < i && b == i {
        } else if a < i {
            assert(site_lt(s@, old_view[i as int]));
            if b - 1 > i {
                assert(site_order()(old_view[i as int], old_view[b - 1]));
                lemma_site_lt_transitive(s@, old_view[i as int], old_view[b - 1]);
            }
            lemma_site_lt_transitive(old_view[a], s@, old_view[b - 1]);
        } else if a == i {
            if b - 1 > i {
                assert(site_order()(old_view[i as int], old_view[b - 1]));
                lemma_site_lt_transitive(s@, old_view[i as int], old_view[b - 1]);
            }
        } else {
            assert(site_order()(old_view[a - 1], old_view[b - 1]));
        }
    }
    assert(new_view.to_set() =~= old_view.to_set().insert(s@)) by {
        assert forall|x: SiteView| new_view.to_set().contains(x) implies old_view.to_set().insert(s@).contains(x) by {
            let k = choose|k: int| 0 <= k < new_view.len() && new_view[k] == x;
            if k < i {
                assert(old_view[k] == x);
            } else if k > i {
                assert(old_view[k - 1] == x);
            }
        }
        assert forall|x: SiteView| old_view.to_set().insert(s@).contains(x) implies new_view.to_set().contains(x) by {
            if x == s@ {
                assert(new_view[i as int] == x);
            } else {
                let k = choose|k: int| 0 <= k < old_view.len() && old_view[k] == x;
                if k < i {
                    assert(new_view[k] == x);
                } else {
                    assert(new_view[k + 1] == x);
                }
            }
        }
    }
}

/// Adds every site of `sites` to an ordered set of sites.
pub fn site_set_extend(v: &mut Vec<ObligationSite>, sites: &Vec<ObligationSite>)
    requires
        sorted_by(site_views(old(v)@), site_order()),
    ensures
        sorted_by(site_views(final(v)@), site_order()),
        site_views(final(v)@).to_set() == site_views(old(v)@).to_set() + site_views(sites@).to_set(),
{
    let ghost start = site_views(v@).to_set();
    let mut i: usize = 0;
    while i < sites.len()
        invariant
            i <= sites@.len(),
            sorted_by(site_views(v@), site_order()),
            site_views(v@).to_set() == start + site_views(sites@.take(i as int)).to_set(),
        decreases sites@.len() - i,
    {
        site_set_insert(v, &sites[i]);
        assert(site_views(sites@.take(i + 1)) =~= site_views(sites@.take(i as int)).push(sites@[i as int]@));
        proof {
            site_views(sites@.take(i as int)).lemma_push_to_set_commute(sites@[i as int]@);
        }
        assert(site_views(v@).to_set() =~= start + site_views(sites@.take(i + 1)).to_set());
        i = i + 1;
    }
    assert(sites@.take(sites@.len() as int) =~= sites@);
}

} // verus!
