//! Grouping clone findings into families: findings that share at least two
//! files are linked, and families are the connected groups of two or more.
use crate::clone_groups::CloneDriftFinding;
use crate::order::{lemma_sorted_no_duplicates, strictly_sorted, texts_contain};
use crate::text::Text;
use vstd::prelude::*;

verus! {

/// Findings that share at least this many files belong to one family.
pub const MIN_FAMILY_FILE_OVERLAP: usize = 2;

/// How many entries of `left` also occur in `right`.
pub open spec fn count_shared(left: Seq<Text>, right: Seq<Text>) -> nat
    decreases left.len(),
{
    if left.len() == 0 {
        0
    } else {
        count_shared(left.drop_last(), right) + if right.contains(left.last()) {
            1nat
        } else {
            0
        }
    }
}

/// Two findings share at least two files.
pub open spec fn shares_family(a: CloneDriftFinding, b: CloneDriftFinding) -> bool {
    count_shared(a.files.deep_view(), b.files.deep_view()) >= MIN_FAMILY_FILE_OVERLAP
}

/// Findings `i` and `j` of `f` are linked.
pub open spec fn linked(f: Seq<CloneDriftFinding>, i: int, j: int) -> bool {
    shares_family(f[i], f[j])
}

proof fn lemma_count_bounded(left: Seq<Text>, right: Seq<Text>)
    ensures
        count_shared(left, right) <= left.len(),
    decreases left.len(),
{
    if left.len() > 0 {
        lemma_count_bounded(left.drop_last(), right);
    }
}

proof fn lemma_count_is_intersection(left: Seq<Text>, right: Seq<Text>)
    requires
        left.no_duplicates(),
    ensures
        count_shared(left, right) == left.to_set().intersect(right.to_set()).len(),
    decreases left.len(),
{
    if left.len() == 0 {
        assert(left.to_set().intersect(right.to_set()) =~= Set::empty());
    } else {
        let init = left.drop_last();
        let x = left.last();
        assert(init.no_duplicates());
        lemma_count_is_intersection(init, right);
        assert(left =~= init.push(x));
        init.lemma_push_to_set_commute(x);
        assert(!init.to_set().contains(x)) by {
            if init.to_set().contains(x) {
                let k = choose|k: int| 0 <= k < init.len() && init[k] == x;
                assert(left[k] == left[left.len() - 1]);
            }
        }
        let base = init.to_set().intersect(right.to_set());
        if right.contains(x) {
            assert(right.to_set().contains(x));
            assert(left.to_set().intersect(right.to_set()) =~= base.insert(x));
            assert(!base.contains(x));
        } else {
            assert(!right.to_set().contains(x));
            assert(left.to_set().intersect(right.to_set()) =~= base);
        }
    }
}

/// Sharing files is symmetric when file lists hold no duplicates.
pub proof fn lemma_shares_family_symmetric(a: CloneDriftFinding, b: CloneDriftFinding)
    requires
        strictly_sorted(a.files.deep_view()),
        strictly_sorted(b.files.deep_view()),
    ensures
        shares_family(a, b) == shares_family(b, a),
{
    lemma_sorted_no_duplicates(a.files.deep_view());
    lemma_sorted_no_duplicates(b.files.deep_view());
    lemma_count_is_intersection(a.files.deep_view(), b.files.deep_view());
    lemma_count_is_intersection(b.files.deep_view(), a.files.deep_view());
    assert(a.files.deep_view().to_set().intersect(b.files.deep_view().to_set())
        =~= b.files.deep_view().to_set().intersect(a.files.deep_view().to_set()));
}

/// Number of files of `left` that `right` also holds.
pub fn overlapping_file_count(left: &Vec<String>, right: &Vec<String>) -> (n: usize)
    ensures
        n == count_shared(left.deep_view(), right.deep_view()),
{
    let mut n: usize = 0;
    let mut i: usize = 0;
    while i < left.len()
        invariant
            i <= left@.len(),
            n == count_shared(left.deep_view().take(i as int), right.deep_view()),
        decreases left@.len() - i,
    {
        assert(left.deep_view().take(i + 1).drop_last() =~= left.deep_view().take(i as int));
        proof {
            lemma_count_bounded(left.deep_view().take(i as int), right.deep_view());
        }
        if texts_contain(right, left[i].as_str()) {
            n = n + 1;
        }
        i = i + 1;
    }
    assert(left.deep_view().take(left@.len() as int) =~= left.deep_view());
    n
}

/// Whether two findings share enough files to belong to one family.
pub fn clone_findings_share_family(a: &CloneDriftFinding, b: &CloneDriftFinding) -> (r: bool)
    ensures
        r == shares_family(*a, *b),
{
    overlapping_file_count(&a.files, &b.files) >= MIN_FAMILY_FILE_OVERLAP
}

/// Member `m` of `s` is linked from an earlier member.
pub open spec fn has_earlier_link(f: Seq<CloneDriftFinding>, s: Seq<usize>, m: int) -> bool {
    exists|p: int| 0 <= p < m && linked(f, s[p] as int, s[m] as int)
}

/// `clusters` are the families of `f`: disjoint groups of two or more linked
/// findings, each closed under links and connected in its listed order, with
/// every finding linked to another inside one of them.
pub open spec fn are_families(f: Seq<CloneDriftFinding>, clusters: Seq<Seq<usize>>) -> bool {
    &&& forall|c: int| 0 <= c < clusters.len() ==> (#[trigger] clusters[c]).len() >= 2
    &&& forall|c: int| 0 <= c < clusters.len() ==> (#[trigger] clusters[c]).no_duplicates()
    &&& forall|c: int, m: int|
        0 <= c < clusters.len() && 0 <= m < clusters[c].len() ==> #[trigger] clusters[c][m] < f.len()
    &&& forall|c: int, d: int, x: usize|
        0 <= c < d < clusters.len() && #[trigger] clusters[c].contains(x) ==> !#[trigger] clusters[d].contains(x)
    &&& forall|c: int, m: int, j: int|
        0 <= c < clusters.len() && 0 <= m < clusters[c].len() && 0 <= j < f.len() && #[trigger] linked(f, clusters[c][m] as int, j)
            ==> clusters[c].contains(j as usize)
    &&& forall|c: int, m: int|
        0 <= c < clusters.len() && 1 <= m < clusters[c].len() ==> #[trigger] has_earlier_link(f, clusters[c], m)
    &&& forall|i: int, j: int|
        0 <= i < f.len() && 0 <= j < f.len() && i != j && #[trigger] linked(f, i, j) ==> exists|c: int|
            0 <= c < clusters.len() && #[trigger] clusters[c].contains(i as usize)
}


proof fn lemma_two_members(s: Seq<usize>, a: usize, b: usize)
    requires
        s.contains(a),
        s.contains(b),
        a != b,
    ensures
        s.len() >= 2,
{
}

/// No finding outside the marked ones is linked from a marked one.
pub open spec fn closed_marks(f: Seq<CloneDriftFinding>, marks: Seq<bool>) -> bool {
    forall|a: int, j: int|
        0 <= a < f.len() && 0 <= j < f.len() && marks[a] && #[trigger] linked(f, a, j) ==> marks[j]
}

/// Every finding has file lists without duplicates.
pub open spec fn sorted_files(f: Seq<CloneDriftFinding>) -> bool {
    forall|i: int| 0 <= i < f.len() ==> strictly_sorted(#[trigger] f[i].files.deep_view())
}

fn linked_from_any(findings: &Vec<CloneDriftFinding>, members: &Vec<usize>, j: usize) -> (r: bool)
    requires
        j < findings@.len(),
        forall|m: int| 0 <= m < members@.len() ==> #[trigger] members@[m] < findings@.len(),
    ensures
        r == exists|m: int| 0 <= m < members@.len() && linked(findings@, #[trigger] members@[m] as int, j as int),
{
    let mut m: usize = 0;
    while m < members.len()
        invariant
            j < findings@.len(),
            forall|m: int| 0 <= m < members@.len() ==> #[trigger] members@[m] < findings@.len(),
            m <= members@.len(),
            forall|k: int| 0 <= k < m ==> !linked(findings@, #[trigger] members@[k] as int, j as int),
        decreases members@.len() - m,
    {
        if clone_findings_share_family(&findings[members[m]], &findings[j]) {
            assert(linked(findings@, members@[m as int] as int, j as int));
            return true;
        }
        m = m + 1;
    }
    false
}

/// The component invariant while a component grows from `start`.
pub open spec fn growing(
    f: Seq<CloneDriftFinding>,
    assigned: Seq<bool>,
    start: usize,
    members: Seq<usize>,
    mark: Seq<bool>,
) -> bool {
    &&& mark.len() == f.len()
    &&& members.len() >= 1
    &&& members[0] == start
    &&& members.no_duplicates()
    &&& forall|m: int| 0 <= m < members.len() ==> #[trigger] members[m] < f.len()
    &&& forall|m: int| 0 <= m < members.len() ==> !assigned[#[trigger] members[m] as int]
    &&& forall|x: int| 0 <= x < f.len() ==> (mark[x] <==> members.contains(x as usize))
    &&& forall|m: int| 1 <= m < members.len() ==> #[trigger] has_earlier_link(f, members, m)
}

fn extend_pass(
    findings: &Vec<CloneDriftFinding>,
    assigned: &Vec<bool>,
    start: usize,
    members: &mut Vec<usize>,
    mark: &mut Vec<bool>,
)
    requires
        assigned@.len() == findings@.len(),
        growing(findings@, assigned@, start, old(members)@, old(mark)@),
    ensures
        growing(findings@, assigned@, start, final(members)@, final(mark)@),
        final(members)@.len() >= old(members)@.len(),
        final(members)@.len() == old(members)@.len() ==> forall|m: int, j: int|
            0 <= m < final(members)@.len() && 0 <= j < findings@.len() && !assigned@[j]
                && #[trigger] linked(findings@, final(members)@[m] as int, j) ==> final(mark)@[j],
{
    let n = findings.len();
    let ghost len0 = members@.len();
    let mut j: usize = 0;
    while j < n
        invariant
            n == findings@.len(),
            assigned@.len() == n,
            j <= n,
            growing(findings@, assigned@, start, members@, mark@),
            members@.len() >= len0,
            members@.len() == len0 ==> forall|m: int, k: int|
                0 <= m < members@.len() && 0 <= k < j && !assigned@[k]
                    && #[trigger] linked(findings@, members@[m] as int, k) ==> mark@[k],
        decreases n - j,
    {
        if !assigned[j] && !mark[j] && linked_from_any(findings, members, j) {
            let ghost old_members = members@;
            let ghost old_mark = mark@;
            let ghost p = choose|p: int| 0 <= p < old_members.len() && linked(findings@, #[trigger] old_members[p] as int, j as int);
            members.push(j);
            mark.set(j, true);
            assert(members@ == old_members.push(j));
            assert(!old_members.contains(j));
            assert(members@[0] == start);
            assert(members@.no_duplicates()) by {
                assert forall|a: int, b: int| 0 <= a < members@.len() && 0 <= b < members@.len() && a != b implies members@[a] != members@[b] by {
                    if a < old_members.len() && b < old_members.len() {
                        assert(members@[a] == old_members[a] && members@[b] == old_members[b]);
                    } else if a < old_members.len() {
                        assert(members@[a] == old_members[a]);
                    } else if b < old_members.len() {
                        assert(members@[b] == old_members[b]);
                    }
                }
            }
            assert forall|x: int| 0 <= x < findings@.len() implies (mark@[x] <==> members@.contains(x as usize)) by {
                if x != j {
                    assert(mark@[x] == old_mark[x]);
                    if members@.contains(x as usize) {
                        let k = choose|k: int| 0 <= k < members@.len() && members@[k] == x as usize;
                        assert(k < old_members.len());
                        assert(old_members[k] == x as usize);
                    }
                    if old_members.contains(x as usize) {
                        let k = choose|k: int| 0 <= k < old_members.len() && old_members[k] == x as usize;
                        assert(members@[k] == x as usize);
                    }
                } else {
                    assert(members@[members@.len() - 1] == j);
                }
            }
            assert forall|m: int| 1 <= m < members@.len() implies #[trigger] has_earlier_link(findings@, members@, m) by {
                if m < old_members.len() {
                    assert(has_earlier_link(findings@, old_members, m));
                    let q = choose|q: int| 0 <= q < m && linked(findings@, old_members[q] as int, old_members[m] as int);
                    assert(members@[q] == old_members[q]);
                    assert(members@[m] == old_members[m]);
                } else {
                    assert(members@[p] == old_members[p]);
                    assert(linked(findings@, members@[p] as int, members@[m] as int));
                }
            }
            assert forall|m: int| 0 <= m < members@.len() implies !assigned@[#[trigger] members@[m] as int] by {
                if m < old_members.len() {
                    assert(members@[m] == old_members[m]);
                }
            }
            assert forall|m: int| 0 <= m < members@.len() implies #[trigger] members@[m] < findings@.len() by {
                if m < old_members.len() {
                    assert(members@[m] == old_members[m]);
                }
            }
        }
        j = j + 1;
    }
}

fn component_from(findings: &Vec<CloneDriftFinding>, assigned: &Vec<bool>, start: usize) -> (members: Vec<usize>)
    requires
        assigned@.len() == findings@.len(),
        start < findings@.len(),
        !assigned@[start as int],
        sorted_files(findings@),
        closed_marks(findings@, assigned@),
    ensures
        members@.len() >= 1,
        members@[0] == start,
        members@.no_duplicates(),
        forall|m: int| 0 <= m < members@.len() ==> #[trigger] members@[m] < findings@.len(),
        forall|m: int| 0 <= m < members@.len() ==> !assigned@[#[trigger] members@[m] as int],
        forall|m: int| 1 <= m < members@.len() ==> #[trigger] has_earlier_link(findings@, members@, m),
        forall|m: int, j: int| 0 <= m < members@.len() && 0 <= j < findings@.len() && #[trigger] linked(findings@, members@[m] as int, j)
            ==> members@.contains(j as usize),
{
    let n = findings.len();
    let mut mark: Vec<bool> = Vec::new();
    let mut k: usize = 0;
    while k < n
        invariant
            k <= n,
            mark@ == Seq::new(k as nat, |i: int| i == start),
        decreases n - k,
    {
        mark.push(k == start);
        k = k + 1;
        assert(mark@ =~= Seq::new(k as nat, |i: int| i == start));
    }
    let mut members: Vec<usize> = Vec::new();
    members.push(start);
    assert(growing(findings@, assigned@, start, members@, mark@)) by {
        assert forall|x: int| 0 <= x < findings@.len() implies (mark@[x] <==> members@.contains(x as usize)) by {
            if x == start {
                assert(members@[0] == start);
            }
        }
    }
    let mut done = false;
    while !done
        invariant
            n == findings@.len(),
            assigned@.len() == n,
            growing(findings@, assigned@, start, members@, mark@),
            done ==> forall|m: int, j: int|
                0 <= m < members@.len() && 0 <= j < n && !assigned@[j]
                    && #[trigger] linked(findings@, members@[m] as int, j) ==> mark@[j],
            members@.len() <= n,
        decreases n - members@.len(), if done { 0int } else { 1int },
    {
        let before = members.len();
        extend_pass(findings, assigned, start, &mut members, &mut mark);
        proof {
            lemma_members_bounded(members@, n);
        }
        if members.len() == before {
            done = true;
        }
    }
    assert forall|m: int, j: int| 0 <= m < members@.len() && 0 <= j < findings@.len() && #[trigger] linked(findings@, members@[m] as int, j)
        implies members@.contains(j as usize) by {
        let mm = members@[m];
        if assigned@[j] {
            lemma_shares_family_symmetric(findings@[mm as int], findings@[j]);
            assert(linked(findings@, j, mm as int));
        }
    }
    members
}

proof fn lemma_members_bounded(members: Seq<usize>, n: usize)
    requires
        members.no_duplicates(),
        forall|m: int| 0 <= m < members.len() ==> #[trigger] members[m] < n,
    ensures
        members.len() <= n,
{
    let ints = members.map_values(|x: usize| x as int);
    assert(ints.no_duplicates()) by {
        assert forall|a: int, b: int| 0 <= a < ints.len() && 0 <= b < ints.len() && a != b implies ints[a] != ints[b] by {
            assert(members[a] != members[b]);
        }
    }
    ints.unique_seq_to_set();
    let range = vstd::set_lib::set_int_range(0, n as int);
    vstd::set_lib::lemma_int_range(0, n as int);
    assert(ints.to_set().subset_of(range)) by {
        assert forall|x: int| ints.to_set().contains(x) implies range.contains(x) by {
            let k = choose|k: int| 0 <= k < ints.len() && ints[k] == x;
            assert(members[k] < n);
        }
    }
    vstd::set_lib::lemma_len_subset(ints.to_set(), range);
}

/// The invariant of family building: the families found so far are correct
/// for the findings marked as assigned.
pub open spec fn families_so_far(f: Seq<CloneDriftFinding>, assigned: Seq<bool>, clusters: Seq<Seq<usize>>) -> bool {
    &&& forall|c: int| 0 <= c < clusters.len() ==> (#[trigger] clusters[c]).len() >= 2
    &&& forall|c: int| 0 <= c < clusters.len() ==> (#[trigger] clusters[c]).no_duplicates()
    &&& forall|c: int, m: int|
        0 <= c < clusters.len() && 0 <= m < clusters[c].len() ==> #[trigger] clusters[c][m] < f.len()
    &&& forall|c: int, m: int|
        0 <= c < clusters.len() && 0 <= m < clusters[c].len() ==> assigned[#[trigger] clusters[c][m] as int]
    &&& forall|c: int, d: int, x: usize|
        0 <= c < d < clusters.len() && #[trigger] clusters[c].contains(x) ==> !#[trigger] clusters[d].contains(x)
    &&& forall|c: int, m: int, j: int|
        0 <= c < clusters.len() && 0 <= m < clusters[c].len() && 0 <= j < f.len() && #[trigger] linked(f, clusters[c][m] as int, j)
            ==> clusters[c].contains(j as usize)
    &&& forall|c: int, m: int|
        0 <= c < clusters.len() && 1 <= m < clusters[c].len() ==> #[trigger] has_earlier_link(f, clusters[c], m)
    &&& forall|i: int, j: int|
        0 <= i < f.len() && 0 <= j < f.len() && i != j && assigned[i] && #[trigger] linked(f, i, j) ==> exists|c: int|
            0 <= c < clusters.len() && #[trigger] clusters[c].contains(i as usize)
}

proof fn lemma_add_component(
    f: Seq<CloneDriftFinding>,
    old_assigned: Seq<bool>,
    new_assigned: Seq<bool>,
    old_clusters: Seq<Seq<usize>>,
    members: Seq<usize>,
    nc: Seq<Seq<usize>>,
)
    requires
        nc == (if members.len() >= 2 { old_clusters.push(members) } else { old_clusters }),
        f.len() <= usize::MAX,
        old_assigned.len() == f.len(),
        new_assigned.len() == f.len(),
        families_so_far(f, old_assigned, old_clusters),
        closed_marks(f, old_assigned),
        members.len() >= 1,
        members.no_duplicates(),
        forall|m: int| 0 <= m < members.len() ==> #[trigger] members[m] < f.len(),
        forall|m: int| 0 <= m < members.len() ==> !old_assigned[#[trigger] members[m] as int],
        forall|m: int| 1 <= m < members.len() ==> #[trigger] has_earlier_link(f, members, m),
        forall|m: int, j: int| 0 <= m < members.len() && 0 <= j < f.len() && #[trigger] linked(f, members[m] as int, j)
            ==> members.contains(j as usize),
        forall|x: int| 0 <= x < f.len() ==> (new_assigned[x] <==> (old_assigned[x] || members.contains(x as usize))),
    ensures
        closed_marks(f, new_assigned),
        families_so_far(f, new_assigned, nc),
{
    assert forall|a: int, j: int| 0 <= a < f.len() && 0 <= j < f.len() && new_assigned[a] && #[trigger] linked(f, a, j) implies new_assigned[j] by {
        if !old_assigned[a] {
            let m = choose|m: int| 0 <= m < members.len() && members[m] == a as usize;
            assert(members[m] as int == a);
            assert(linked(f, members[m] as int, j));
        }
    }
    assert forall|c: int, m: int| 0 <= c < nc.len() && 0 <= m < nc[c].len() implies new_assigned[#[trigger] nc[c][m] as int] by {
        if c < old_clusters.len() {
            assert(nc[c] == old_clusters[c]);
        } else {
            assert(members.contains(nc[c][m]));
        }
    }
    assert forall|c: int, d: int, x: usize| 0 <= c < d < nc.len() && #[trigger] nc[c].contains(x) implies !#[trigger] nc[d].contains(x) by {
        if d == old_clusters.len() {
            assert(nc[c] == old_clusters[c]);
            let m = choose|m: int| 0 <= m < old_clusters[c].len() && old_clusters[c][m] == x;
            assert(old_assigned[x as int]);
            if members.contains(x) {
                let q = choose|q: int| 0 <= q < members.len() && members[q] == x;
            }
        } else {
            assert(nc[c] == old_clusters[c] && nc[d] == old_clusters[d]);
        }
    }
    assert forall|c: int, m: int, j: int|
        0 <= c < nc.len() && 0 <= m < nc[c].len() && 0 <= j < f.len() && #[trigger] linked(f, nc[c][m] as int, j)
            implies nc[c].contains(j as usize) by {
        if c < old_clusters.len() {
            assert(nc[c] == old_clusters[c]);
        }
    }
    assert forall|c: int, m: int|
        0 <= c < nc.len() && 1 <= m < nc[c].len() implies #[trigger] has_earlier_link(f, nc[c], m) by {
        if c < old_clusters.len() {
            assert(nc[c] == old_clusters[c]);
            assert(has_earlier_link(f, old_clusters[c], m));
        } else {
            assert(nc[c] == members);
            assert(has_earlier_link(f, members, m));
        }
    }
    assert forall|i: int, j: int|
        0 <= i < f.len() && 0 <= j < f.len() && i != j && new_assigned[i] && #[trigger] linked(f, i, j) implies exists|c: int|
            0 <= c < nc.len() && #[trigger] nc[c].contains(i as usize) by {
        if old_assigned[i] {
            let c = choose|c: int| 0 <= c < old_clusters.len() && #[trigger] old_clusters[c].contains(i as usize);
            assert(nc[c] == old_clusters[c]);
        } else {
            let m = choose|m: int| 0 <= m < members.len() && members[m] == i as usize;
            assert(members[m] as int == i);
            assert(linked(f, members[m] as int, j));
            assert(members.contains(j as usize));
            lemma_two_members(members, i as usize, j as usize);
            assert(nc[old_clusters.len() as int] == members);
        }
    }
    assert forall|c: int| 0 <= c < nc.len() implies (#[trigger] nc[c]).len() >= 2 && nc[c].no_duplicates() by {
        if c < old_clusters.len() {
            assert(nc[c] == old_clusters[c]);
        }
    }
    assert forall|c: int, m: int| 0 <= c < nc.len() && 0 <= m < nc[c].len() implies #[trigger] nc[c][m] < f.len() by {
        if c < old_clusters.len() {
            assert(nc[c] == old_clusters[c]);
        }
    }
}

proof fn lemma_families_complete(f: Seq<CloneDriftFinding>, assigned: Seq<bool>, clusters: Seq<Seq<usize>>)
    requires
        f.len() <= usize::MAX,
        assigned.len() == f.len(),
        forall|x: int| 0 <= x < f.len() ==> assigned[x],
        families_so_far(f, assigned, clusters),
    ensures
        are_families(f, clusters),
{
    assert forall|i: int, j: int|
        0 <= i < f.len() && 0 <= j < f.len() && i != j && #[trigger] linked(f, i, j) implies exists|c: int|
            0 <= c < clusters.len() && #[trigger] clusters[c].contains(i as usize) by {
        assert(assigned[i]);
    }
    assert(forall|c: int| 0 <= c < clusters.len() ==> (#[trigger] clusters[c]).len() >= 2);
    assert(forall|c: int| 0 <= c < clusters.len() ==> (#[trigger] clusters[c]).no_duplicates());
    assert(forall|c: int, d: int, x: usize|
        0 <= c < d < clusters.len() && #[trigger] clusters[c].contains(x) ==> !#[trigger] clusters[d].contains(x));
    assert(forall|c: int, m: int, j: int|
        0 <= c < clusters.len() && 0 <= m < clusters[c].len() && 0 <= j < f.len() && #[trigger] linked(f, clusters[c][m] as int, j)
            ==> clusters[c].contains(j as usize));
    assert(forall|c: int, m: int|
        0 <= c < clusters.len() && 1 <= m < clusters[c].len() ==> #[trigger] has_earlier_link(f, clusters[c], m));
}

/// The families of `findings` (see `are_families`), as lists of finding
/// positions, each starting from its first finding in input order.
pub fn clone_family_clusters(findings: &Vec<CloneDriftFinding>) -> (clusters: Vec<Vec<usize>>)
    requires
        sorted_files(findings@),
    ensures
        are_families(findings@, clusters.deep_view()),
{
    let ghost f = findings@;
    let n = findings.len();
    let mut assigned: Vec<bool> = Vec::new();
    let mut k: usize = 0;
    while k < n
        invariant
            k <= n,
            assigned@ == Seq::new(k as nat, |i: int| false),
        decreases n - k,
    {
        assigned.push(false);
        k = k + 1;
        assert(assigned@ =~= Seq::new(k as nat, |i: int| false));
    }
    let mut clusters: Vec<Vec<usize>> = Vec::new();
    let mut start: usize = 0;
    assert(closed_marks(f, assigned@));
    assert(clusters.deep_view() =~= Seq::<Seq<usize>>::empty());
    while start < n
        invariant
            f == findings@,
            n == f.len(),
            sorted_files(f),
            start <= n,
            assigned@.len() == n,
            closed_marks(f, assigned@),
            forall|x: int| 0 <= x < start ==> assigned@[x],
            families_so_far(f, assigned@, clusters.deep_view()),
        decreases n - start,
    {
        if !assigned[start] {
            let members = component_from(findings, &assigned, start);
            let ghost old_assigned = assigned@;
            let ghost old_clusters = clusters.deep_view();
            let mut m: usize = 0;
            while m < members.len()
                invariant
                    assigned@.len() == n,
                    m <= members@.len(),
                    forall|x: int| 0 <= x < n ==> (assigned@[x] <==> (old_assigned[x] || exists|q: int| 0 <= q < m && #[trigger] members@[q] == x as usize)),
                    forall|q: int| 0 <= q < members@.len() ==> #[trigger] members@[q] < n,
                decreases members@.len() - m,
            {
                let ghost prev = assigned@;
                let idx = members[m];
                assigned.set(idx, true);
                assert(assigned@ == prev.update(idx as int, true));
                m = m + 1;
                assert forall|x: int| 0 <= x < n implies (assigned@[x] <==> (old_assigned[x] || exists|q: int| 0 <= q < m && #[trigger] members@[q] == x as usize)) by {
                    if x as usize == idx {
                        assert(members@[m - 1] == x as usize);
                    } else {
                        assert(assigned@[x] == prev[x]);
                        if exists|q: int| 0 <= q < m && #[trigger] members@[q] == x as usize {
                            let q = choose|q: int| 0 <= q < m && #[trigger] members@[q] == x as usize;
                            assert(q < m - 1);
                        }
                    }
                }
            }
            assert forall|x: int| 0 <= x < n implies (assigned@[x] <==> (old_assigned[x] || members@.contains(x as usize))) by {
                if members@.contains(x as usize) {
                    let q = choose|q: int| 0 <= q < members@.len() && members@[q] == x as usize;
                    assert(members@[q] == x as usize);
                }
            }
            let ghost nc = if members@.len() >= 2 { old_clusters.push(members@) } else { old_clusters };
            proof {
                lemma_add_component(f, old_assigned, assigned@, old_clusters, members@, nc);
            }
            assert(assigned@[start as int]) by {
                assert(members@.contains(start));
            }
            assert forall|x: int| 0 <= x < start + 1 implies assigned@[x] by {
                if x < start {
                    assert(old_assigned[x]);
                }
            }
            assert(members.deep_view() =~= members@);
            if members.len() >= 2 {
                let ghost mv = members@;
                clusters.push(members);
                proof {
                    assert(clusters.deep_view() =~= old_clusters.push(mv));
                }
            }
            assert(clusters.deep_view() == nc);
        }
        start = start + 1;
    }
    proof {
        lemma_families_complete(f, assigned@, clusters.deep_view());
    }
    clusters
}

} // verus!
