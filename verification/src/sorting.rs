//! Stable insertion sort for values that carry their own strict ranking.
use vstd::prelude::*;
use vstd::seq_lib::to_multiset_insert;

verus! {

/// A strict ranking of values: `ranks_before(a, b)` holds when `a` must be
/// listed before `b`.
pub trait Ranked: Sized {
    spec fn ranks_before(self, other: Self) -> bool;

    fn is_ranked_before(&self, other: &Self) -> (r: bool)
        ensures
            r == self.ranks_before(*other),
    ;

    proof fn lemma_ranking_irreflexive(a: Self)
        ensures
            !a.ranks_before(a),
    ;

    proof fn lemma_ranking_transitive(a: Self, b: Self, c: Self)
        requires
            a.ranks_before(b),
            b.ranks_before(c),
        ensures
            a.ranks_before(c),
    ;

    proof fn lemma_ranking_connected(a: Self, b: Self, c: Self)
        requires
            a.ranks_before(c),
        ensures
            a.ranks_before(b) || b.ranks_before(c),
    ;
}

/// Neither value is ranked before the other.
pub open spec fn ranked_alike<T: Ranked>(a: T, b: T) -> bool {
    !a.ranks_before(b) && !b.ranks_before(a)
}

/// The values of `s` ranked alike with `e`, in their order in `s`.
pub open spec fn alike_run<T: Ranked>(s: Seq<T>, e: T) -> Seq<T>
    decreases s.len(),
{
    if s.len() == 0 {
        Seq::empty()
    } else {
        alike_run(s.drop_last(), e) + if ranked_alike(s.last(), e) {
            seq![s.last()]
        } else {
            Seq::empty()
        }
    }
}

/// `r` keeps, for every rank, the values of `s` of that rank in their order
/// in `s`.
pub open spec fn keeps_ties_in_order<T: Ranked>(r: Seq<T>, s: Seq<T>) -> bool {
    forall|e: T| #[trigger] alike_run(r, e) == alike_run(s, e)
}

pub proof fn lemma_alike_run_append<T: Ranked>(a: Seq<T>, b: Seq<T>, e: T)
    ensures
        alike_run(a + b, e) == alike_run(a, e) + alike_run(b, e),
    decreases b.len(),
{
    if b.len() == 0 {
        assert(a + b =~= a);
        assert(alike_run(a, e) + alike_run(b, e) =~= alike_run(a, e));
    } else {
        lemma_alike_run_append(a, b.drop_last(), e);
        assert((a + b).drop_last() =~= a + b.drop_last());
        assert((a + b).last() == b.last());
        assert(alike_run(a + b, e) =~= alike_run(a, e) + alike_run(b, e));
    }
}

proof fn lemma_alike_run_none<T: Ranked>(b: Seq<T>, e: T)
    requires
        forall|k: int| 0 <= k < b.len() ==> !ranked_alike(#[trigger] b[k], e),
    ensures
        alike_run(b, e) == Seq::<T>::empty(),
    decreases b.len(),
{
    if b.len() > 0 {
        lemma_alike_run_none(b.drop_last(), e);
        assert(!ranked_alike(b[b.len() - 1], e));
    }
}

/// No element is ranked before an element that precedes it.
pub open spec fn ranked_order<T: Ranked>(s: Seq<T>) -> bool {
    forall|i: int, j: int| 0 <= i < j < s.len() ==> !(#[trigger] s[j]).ranks_before(#[trigger] s[i])
}

/// The values of `v` reordered by their ranking; values ranked alike keep
/// their relative order.
pub fn sort_ranked<T: Ranked>(v: Vec<T>) -> (r: Vec<T>)
    ensures
        ranked_order(r@),
        r@.to_multiset() == v@.to_multiset(),
        r@.len() == v@.len(),
        keeps_ties_in_order(r@, v@),
{
    let mut r: Vec<T> = Vec::new();
    let mut remaining = v;
    let ghost original = remaining@;
    let n = remaining.len();
    let mut taken: usize = 0;
    assert(original.skip(0) =~= original);
    assert(original.take(0) =~= Seq::<T>::empty());
    assert(r@ =~= Seq::<T>::empty());
    proof {
        vstd::seq_lib::to_multiset_len(r@);
        vstd::seq_lib::to_multiset_len(original.take(0));
        assert(r@.to_multiset() =~= original.take(0).to_multiset());
    }
    while remaining.len() > 0
        invariant
            original.len() == n,
            remaining@.len() + taken == n,
            remaining@ == original.skip(taken as int),
            ranked_order(r@),
            r@.to_multiset() == original.take(taken as int).to_multiset(),
            r@.len() == taken,
            keeps_ties_in_order(r@, original.take(taken as int)),
        decreases remaining@.len(),
    {
        let x = remaining.remove(0);
        assert(remaining@ =~= original.skip(taken + 1));
        assert(x == original[taken as int]);
        let mut pos: usize = r.len();
        while pos > 0 && x.is_ranked_before(&r[pos - 1])
            invariant
                pos <= r@.len(),
                ranked_order(r@),
                forall|k: int| pos <= k < r@.len() ==> x.ranks_before(#[trigger] r@[k]),
            decreases pos,
        {
            pos = pos - 1;
        }
        let ghost before = r@;
        proof {
            to_multiset_insert(before, pos as int, x);
        }
        r.insert(pos, x);
        assert(r@ =~= before.insert(pos as int, x));
        assert forall|e: T| #[trigger] alike_run(r@, e) == alike_run(original.take(taken + 1), e) by {
            let front = before.take(pos as int);
            let back = before.skip(pos as int);
            assert(before =~= front + back);
            assert(r@ =~= front + seq![x] + back);
            lemma_alike_run_append(front, back, e);
            lemma_alike_run_append(front + seq![x], back, e);
            lemma_alike_run_append(front, seq![x], e);
            assert(original.take(taken + 1) =~= original.take(taken as int).push(x));
            assert(original.take(taken + 1).drop_last() =~= original.take(taken as int));
            if ranked_alike(x, e) {
                assert forall|k: int| 0 <= k < back.len() implies !ranked_alike(#[trigger] back[k], e) by {
                    assert(back[k] == before[pos + k]);
                    assert(x.ranks_before(before[pos + k]));
                    T::lemma_ranking_connected(x, e, back[k]);
                }
                lemma_alike_run_none(back, e);
                assert(alike_run(seq![x], e) =~= seq![x]) by {
                    assert(seq![x].drop_last() =~= Seq::<T>::empty());
                    assert(seq![x].last() == x);
                    assert(alike_run(Seq::<T>::empty(), e) == Seq::<T>::empty());
                    assert(alike_run(seq![x], e) == alike_run(Seq::<T>::empty(), e) + seq![x]);
                }
            } else {
                assert(alike_run(seq![x], e) =~= Seq::<T>::empty()) by {
                    assert(seq![x].drop_last() =~= Seq::<T>::empty());
                    assert(seq![x].last() == x);
                    assert(alike_run(Seq::<T>::empty(), e) == Seq::<T>::empty());
                    assert(alike_run(seq![x], e) == alike_run(Seq::<T>::empty(), e) + Seq::<T>::empty());
                }
            }
        }
        assert forall|i: int, j: int| 0 <= i < j < r@.len() implies !(#[trigger] r@[j]).ranks_before(
            #[trigger] r@[i],
        ) by {
            if j < pos {
                assert(r@[i] == before[i] && r@[j] == before[j]);
            } else if j == pos {
                assert(r@[i] == before[i]);
                if x.ranks_before(before[i]) && i < pos - 1 {
                    T::lemma_ranking_connected(x, before[pos - 1], before[i]);
                    assert(!before[pos - 1].ranks_before(before[i]));
                }
            } else if i == pos {
                assert(r@[j] == before[j - 1]);
                assert(x.ranks_before(before[j - 1]));
                if before[j - 1].ranks_before(x) {
                    T::lemma_ranking_transitive(x, before[j - 1], x);
                    T::lemma_ranking_irreflexive(x);
                }
            } else if i < pos {
                assert(r@[i] == before[i] && r@[j] == before[j - 1]);
            } else {
                assert(r@[i] == before[i - 1] && r@[j] == before[j - 1]);
            }
        }
        assert(original.take(taken + 1) =~= original.take(taken as int).push(x));
        proof {
            vstd::seq_lib::to_multiset_build(original.take(taken as int), x);
        }
        taken = taken + 1;
    }
    assert(original.take(n as int) =~= original);
    assert(keeps_ties_in_order(r@, v@));
    r
}

} // verus!
