//! The clone-drift report: qualifying findings in rank order, their families,
//! the findings re-ordered family by family, and the hints of all families
//! taken in turns.
use crate::clone_clusters::{are_families, clone_family_clusters, sorted_files};
use crate::clone_family_summary::{clone_family_summary, describes_family, member_clone_ids, summary_metrics, CloneFamilySummary};
use crate::clone_groups::{
    clone_drift_finding, group_qualifies, group_total_lines, is_drift_finding_of, report_of, same_finding,
    CloneDriftFinding, DuplicateGroup,
};
use crate::clone_hints::{hints_decided, lemma_hints_decided, same_hint, CloneRemediationHint};
use crate::evolution::EvolutionReport;
use crate::order::{lemma_lex_asymmetric, lemma_lex_total, lemma_lex_transitive, lex_lt, strictly_sorted, text_less};
use crate::sorting::{keeps_ties_in_order, ranked_order, sort_ranked, Ranked};
use vstd::prelude::*;

verus! {

impl Ranked for CloneFamilySummary {
    /// Higher severity first, then more divergence, then higher score, then
    /// family identifier.
    open spec fn ranks_before(self, other: Self) -> bool {
        let (a, b) = (self.severity.spec_priority(), other.severity.spec_priority());
        ||| a > b
        ||| (a == b && self.divergence_score > other.divergence_score)
        ||| (a == b && self.divergence_score == other.divergence_score && self.family_score > other.family_score)
        ||| (a == b && self.divergence_score == other.divergence_score && self.family_score == other.family_score
            && lex_lt(self.family_id@, other.family_id@))
    }

    fn is_ranked_before(&self, other: &Self) -> (r: bool) {
        let a = self.severity.priority();
        let b = other.severity.priority();
        if a != b {
            return a > b;
        }
        if self.divergence_score != other.divergence_score {
            return self.divergence_score > other.divergence_score;
        }
        if self.family_score != other.family_score {
            return self.family_score > other.family_score;
        }
        text_less(self.family_id.as_str(), other.family_id.as_str())
    }

    proof fn lemma_ranking_irreflexive(a: Self) {
        crate::order::lemma_lex_irreflexive(a.family_id@);
    }

    proof fn lemma_ranking_transitive(a: Self, b: Self, c: Self) {
        if lex_lt(a.family_id@, b.family_id@) && lex_lt(b.family_id@, c.family_id@) {
            lemma_lex_transitive(a.family_id@, b.family_id@, c.family_id@);
        }
    }

    proof fn lemma_ranking_connected(a: Self, b: Self, c: Self) {
        lemma_lex_total(a.family_id@, b.family_id@);
        lemma_lex_total(b.family_id@, c.family_id@);
        if lex_lt(b.family_id@, a.family_id@) && lex_lt(c.family_id@, b.family_id@) {
            lemma_lex_transitive(c.family_id@, b.family_id@, a.family_id@);
            lemma_lex_asymmetric(c.family_id@, a.family_id@);
        }
        if lex_lt(b.family_id@, a.family_id@) && b.family_id@ == c.family_id@ {
            lemma_lex_asymmetric(b.family_id@, a.family_id@);
        }
        if a.family_id@ == b.family_id@ && lex_lt(c.family_id@, b.family_id@) {
            lemma_lex_asymmetric(c.family_id@, b.family_id@);
        }
    }
}

/// `s` summarizes copies of the findings at the positions of `cluster`.
pub open spec fn family_for_cluster(s: CloneFamilySummary, findings: Seq<CloneDriftFinding>, cluster: Seq<usize>) -> bool {
    exists|members: Seq<CloneDriftFinding>, sorted: Seq<CloneDriftFinding>|
        #![trigger members.to_multiset(), sorted.to_multiset()]
        members.len() == cluster.len() && (forall|j: int|
            0 <= j < members.len() ==> same_finding(#[trigger] members[j], findings[cluster[j] as int]))
            && ranked_order(sorted) && sorted.to_multiset() == members.to_multiset() && describes_family(s, sorted)
}

/// `families` are, in rank order, the summaries of the families of `findings`.
pub open spec fn families_of(families: Seq<CloneFamilySummary>, findings: Seq<CloneDriftFinding>) -> bool {
    exists|clusters: Seq<Seq<usize>>, unsorted: Seq<CloneFamilySummary>|
        #![trigger are_families(findings, clusters), unsorted.to_multiset()]
        are_families(findings, clusters) && unsorted.len() == clusters.len() && (forall|i: int|
            0 <= i < unsorted.len() ==> family_for_cluster(#[trigger] unsorted[i], findings, clusters[i]))
            && ranked_order(families) && families.to_multiset() == unsorted.to_multiset()
}

/// The families of a report come in rank order, each groups at least two
/// findings, and each is represented by one of its own members.
pub proof fn lemma_families_group_several(families: Seq<CloneFamilySummary>, findings: Seq<CloneDriftFinding>)
    requires
        families_of(families, findings),
    ensures
        ranked_order(families),
        forall|i: int| 0 <= i < families.len() ==> (#[trigger] families[i]).member_count >= 2,
        forall|i: int|
            0 <= i < families.len() ==> (#[trigger] families[i]).clone_ids.deep_view().contains(
                families[i].representative_clone_id@,
            ),
        forall|i: int|
            0 <= i < families.len() ==> hints_decided(
                (#[trigger] families[i]).remediation_hints@,
                families[i].severity,
                summary_metrics(families[i]),
                families[i].member_count,
                families[i].file_count,
            ),
{
    let (clusters, unsorted) = choose|clusters: Seq<Seq<usize>>, unsorted: Seq<CloneFamilySummary>|
        are_families(findings, clusters) && unsorted.len() == clusters.len() && (forall|i: int|
            0 <= i < unsorted.len() ==> family_for_cluster(#[trigger] unsorted[i], findings, clusters[i]))
            && ranked_order(families) && families.to_multiset() == unsorted.to_multiset();
    assert forall|i: int| 0 <= i < families.len() implies (#[trigger] families[i]).member_count >= 2
        && families[i].clone_ids.deep_view().contains(families[i].representative_clone_id@) && hints_decided(
        families[i].remediation_hints@,
        families[i].severity,
        summary_metrics(families[i]),
        families[i].member_count,
        families[i].file_count,
    ) by {
        vstd::seq_lib::to_multiset_contains(families, families[i]);
        assert(families.contains(families[i]));
        vstd::seq_lib::to_multiset_contains(unsorted, families[i]);
        let k = choose|k: int| 0 <= k < unsorted.len() && unsorted[k] == families[i];
        assert(family_for_cluster(unsorted[k], findings, clusters[k]));
        let (members, sorted) = choose|members: Seq<CloneDriftFinding>, sorted: Seq<CloneDriftFinding>|
            members.len() == clusters[k].len() && (forall|j: int|
                0 <= j < members.len() ==> same_finding(#[trigger] members[j], findings[clusters[k][j] as int]))
                && ranked_order(sorted) && sorted.to_multiset() == members.to_multiset() && describes_family(
                unsorted[k],
                sorted,
            );
        assert(member_clone_ids(sorted)[0] == sorted[0].clone_id@);
        let s = unsorted[k];
        lemma_hints_decided(
            s.remediation_hints@,
            sorted[0].severity,
            summary_metrics(s),
            s.member_count,
            s.file_count,
            s.files@,
            s.clone_ids@,
        );
    }
}

fn copy_members(findings: &Vec<CloneDriftFinding>, cluster: &Vec<usize>) -> (r: Vec<CloneDriftFinding>)
    requires
        forall|j: int| 0 <= j < cluster@.len() ==> #[trigger] cluster@[j] < findings@.len(),
    ensures
        r@.len() == cluster@.len(),
        forall|j: int| 0 <= j < r@.len() ==> same_finding(#[trigger] r@[j], findings@[cluster@[j] as int]),
{
    let mut r: Vec<CloneDriftFinding> = Vec::new();
    let mut j: usize = 0;
    while j < cluster.len()
        invariant
            forall|j: int| 0 <= j < cluster@.len() ==> #[trigger] cluster@[j] < findings@.len(),
            j <= cluster@.len(),
            r@.len() == j,
            forall|k: int| 0 <= k < j ==> same_finding(#[trigger] r@[k], findings@[cluster@[k] as int]),
        decreases cluster@.len() - j,
    {
        r.push(findings[cluster[j]].clone());
        j = j + 1;
    }
    r
}

/// The summaries of the families of `findings`, in rank order.
pub fn build_clone_family_summaries(findings: &Vec<CloneDriftFinding>) -> (r: Vec<CloneFamilySummary>)
    requires
        sorted_files(findings@),
    ensures
        families_of(r@, findings@),
{
    let clusters = clone_family_clusters(findings);
    let ghost cl = clusters.deep_view();
    let mut unsorted: Vec<CloneFamilySummary> = Vec::new();
    let mut i: usize = 0;
    while i < clusters.len()
        invariant
            cl == clusters.deep_view(),
            are_families(findings@, cl),
            i <= clusters@.len(),
            unsorted@.len() == i,
            forall|k: int| 0 <= k < i ==> family_for_cluster(#[trigger] unsorted@[k], findings@, cl[k]),
        decreases clusters@.len() - i,
    {
        assert(cl[i as int] == clusters@[i as int]@);
        assert(forall|j: int| 0 <= j < clusters@[i as int]@.len() ==> #[trigger] clusters@[i as int]@[j] < findings@.len()) by {
            assert forall|j: int| 0 <= j < cl[i as int].len() implies #[trigger] cl[i as int][j] < findings@.len() by {}
        }
        let members = copy_members(findings, &clusters[i]);
        let ghost member_view = members@;
        assert(cl[i as int].len() >= 2);
        let s = clone_family_summary(members);
        match s {
            Some(s) => {
                proof {
                    let sorted = choose|sorted: Seq<CloneDriftFinding>|
                        ranked_order(sorted) && sorted.to_multiset() == member_view.to_multiset() && describes_family(
                            s,
                            sorted,
                        );
                    assert(family_for_cluster(s, findings@, cl[i as int])) by {
                        assert(member_view.to_multiset() == member_view.to_multiset());
                        assert(sorted.to_multiset() == sorted.to_multiset());
                    }
                }
                unsorted.push(s);
            },
            None => {
                assert(false);
            },
        }
        i = i + 1;
    }
    let ghost before = unsorted@;
    let r = sort_ranked(unsorted);
    assert(are_families(findings@, cl) && before.to_multiset() == before.to_multiset());
    r
}

/// The position of the last finding with the given clone identifier.
pub open spec fn last_with_id(findings: Seq<CloneDriftFinding>, id: Seq<char>) -> Option<int>
    decreases findings.len(),
{
    if findings.len() == 0 {
        None
    } else if findings.last().clone_id@ == id {
        Some(findings.len() - 1)
    } else {
        last_with_id(findings.drop_last(), id)
    }
}

/// Positions of the representative findings, one per family whose
/// representative is among the findings, in family order.
pub open spec fn representative_picks(findings: Seq<CloneDriftFinding>, families: Seq<CloneFamilySummary>) -> Seq<int>
    decreases families.len(),
{
    if families.len() == 0 {
        Seq::empty()
    } else {
        let prev = representative_picks(findings, families.drop_last());
        match last_with_id(findings, families.last().representative_clone_id@) {
            Some(p) => prev.push(p),
            None => prev,
        }
    }
}

/// The representative identifiers of the families.
pub open spec fn representative_ids(families: Seq<CloneFamilySummary>) -> Seq<Seq<char>> {
    families.map_values(|f: CloneFamilySummary| f.representative_clone_id@)
}

/// Positions of the findings that represent no family, in order.
pub open spec fn other_picks(findings: Seq<CloneDriftFinding>, ids: Seq<Seq<char>>) -> Seq<int>
    decreases findings.len(),
{
    if findings.len() == 0 {
        Seq::empty()
    } else {
        let prev = other_picks(findings.drop_last(), ids);
        if ids.contains(findings.last().clone_id@) {
            prev
        } else {
            prev.push(findings.len() - 1)
        }
    }
}

/// The order of the prioritized findings: family representatives, then the rest.
pub open spec fn priority_picks(findings: Seq<CloneDriftFinding>, families: Seq<CloneFamilySummary>) -> Seq<int> {
    representative_picks(findings, families) + other_picks(findings, representative_ids(families))
}

proof fn lemma_last_with_id_bounds(findings: Seq<CloneDriftFinding>, id: Seq<char>)
    ensures
        last_with_id(findings, id) matches Some(p) ==> 0 <= p < findings.len() && findings[p].clone_id@ == id,
        last_with_id(findings, id) is None ==> forall|k: int| 0 <= k < findings.len() ==> (#[trigger] findings[k]).clone_id@ != id,
    decreases findings.len(),
{
    if findings.len() > 0 {
        lemma_last_with_id_bounds(findings.drop_last(), id);
        if findings.last().clone_id@ != id {
            assert forall|k: int| 0 <= k < findings.len() - 1 implies findings[k] == findings.drop_last()[k] by {}
        }
    }
}

fn find_last_with_id(findings: &Vec<CloneDriftFinding>, id: &str) -> (r: Option<usize>)
    ensures
        r matches Some(p) ==> last_with_id(findings@, id@) == Some(p as int),
        r is None ==> last_with_id(findings@, id@) is None,
{
    let mut k: usize = findings.len();
    assert(findings@.take(k as int) =~= findings@);
    while k > 0
        invariant
            k <= findings@.len(),
            last_with_id(findings@, id@) == last_with_id(findings@.take(k as int), id@),
        decreases k,
    {
        let ghost prefix = findings@.take(k as int);
        assert(prefix.drop_last() =~= findings@.take(k - 1));
        if crate::text::text_eq(findings[k - 1].clone_id.as_str(), id) {
            return Some(k - 1);
        }
        k = k - 1;
    }
    assert(findings@.take(0) =~= Seq::<CloneDriftFinding>::empty());
    None
}

fn representative_list(families: &Vec<CloneFamilySummary>) -> (r: Vec<String>)
    ensures
        r.deep_view() == representative_ids(families@),
{
    let mut r: Vec<String> = Vec::new();
    let mut i: usize = 0;
    while i < families.len()
        invariant
            i <= families@.len(),
            r.deep_view() == representative_ids(families@).take(i as int),
        decreases families@.len() - i,
    {
        crate::text::push_line(&mut r, families[i].representative_clone_id.clone());
        i = i + 1;
        assert(r.deep_view() =~= representative_ids(families@).take(i as int));
    }
    assert(representative_ids(families@).take(families@.len() as int) =~= representative_ids(families@));
    r
}

/// No two findings share a clone identifier.
pub open spec fn distinct_clone_ids(findings: Seq<CloneDriftFinding>) -> bool {
    forall|i: int, j: int|
        #![trigger findings[i], findings[j]]
        0 <= i < findings.len() && 0 <= j < findings.len() && i != j ==> findings[i].clone_id@
            != findings[j].clone_id@
}

/// Some finding carries the clone identifier `id`.
pub open spec fn has_clone_id(findings: Seq<CloneDriftFinding>, id: Seq<char>) -> bool {
    exists|p: int| 0 <= p < findings.len() && findings[p].clone_id@ == id
}

proof fn lemma_representative_in_cluster(s: CloneFamilySummary, findings: Seq<CloneDriftFinding>, cluster: Seq<usize>) -> (j: int)
    requires
        family_for_cluster(s, findings, cluster),
    ensures
        0 <= j < cluster.len(),
        findings[cluster[j] as int].clone_id@ == s.representative_clone_id@,
{
    let (members, sorted) = choose|members: Seq<CloneDriftFinding>, sorted: Seq<CloneDriftFinding>|
        members.len() == cluster.len() && (forall|j: int|
            0 <= j < members.len() ==> same_finding(#[trigger] members[j], findings[cluster[j] as int]))
            && ranked_order(sorted) && sorted.to_multiset() == members.to_multiset() && describes_family(s, sorted);
    assert(sorted.contains(sorted[0]));
    vstd::seq_lib::to_multiset_contains(sorted, sorted[0]);
    vstd::seq_lib::to_multiset_contains(members, sorted[0]);
    let j = choose|j: int| 0 <= j < members.len() && members[j] == sorted[0];
    assert(same_finding(members[j], findings[cluster[j] as int]));
    j
}

proof fn lemma_one_cluster_per_representative(
    findings: Seq<CloneDriftFinding>,
    clusters: Seq<Seq<usize>>,
    unsorted: Seq<CloneFamilySummary>,
    k1: int,
    k2: int,
)
    requires
        are_families(findings, clusters),
        unsorted.len() == clusters.len(),
        forall|i: int| 0 <= i < unsorted.len() ==> family_for_cluster(#[trigger] unsorted[i], findings, clusters[i]),
        distinct_clone_ids(findings),
        0 <= k1 < unsorted.len(),
        0 <= k2 < unsorted.len(),
        unsorted[k1].representative_clone_id@ == unsorted[k2].representative_clone_id@,
    ensures
        k1 == k2,
{
    let j1 = lemma_representative_in_cluster(unsorted[k1], findings, clusters[k1]);
    let j2 = lemma_representative_in_cluster(unsorted[k2], findings, clusters[k2]);
    let p1 = clusters[k1][j1];
    let p2 = clusters[k2][j2];
    assert(p1 < findings.len() && p2 < findings.len());
    assert(findings[p1 as int] == findings[p1 as int] && findings[p2 as int] == findings[p2 as int]);
    assert(p1 == p2);
    assert(clusters[k1].contains(p1));
    assert(clusters[k2].contains(p1));
}

/// Where the findings' clone identifiers are distinct, each family's
/// representative is among the findings and no two families share one.
proof fn lemma_representatives_distinct(families: Seq<CloneFamilySummary>, findings: Seq<CloneDriftFinding>)
    requires
        families_of(families, findings),
        distinct_clone_ids(findings),
    ensures
        forall|i: int|
            0 <= i < families.len() ==> has_clone_id(findings, (#[trigger] families[i]).representative_clone_id@),
        forall|i: int, k: int|
            #![trigger families[i], families[k]]
            0 <= i < families.len() && 0 <= k < families.len() && i != k ==> families[i].representative_clone_id@
                != families[k].representative_clone_id@,
{
    let (clusters, unsorted) = choose|clusters: Seq<Seq<usize>>, unsorted: Seq<CloneFamilySummary>|
        are_families(findings, clusters) && unsorted.len() == clusters.len() && (forall|i: int|
            0 <= i < unsorted.len() ==> family_for_cluster(#[trigger] unsorted[i], findings, clusters[i]))
            && ranked_order(families) && families.to_multiset() == unsorted.to_multiset();
    assert forall|a: int, b: int| 0 <= a < unsorted.len() && 0 <= b < unsorted.len() && a != b implies unsorted[a]
        != unsorted[b] by {
        if unsorted[a] == unsorted[b] {
            lemma_one_cluster_per_representative(findings, clusters, unsorted, a, b);
        }
    }
    assert(unsorted.no_duplicates());
    unsorted.lemma_multiset_has_no_duplicates();
    families.lemma_multiset_has_no_duplicates_conv();
    assert forall|i: int| 0 <= i < families.len() implies exists|k: int|
        0 <= k < unsorted.len() && unsorted[k] == #[trigger] families[i] by {
        vstd::seq_lib::to_multiset_contains(families, families[i]);
        assert(families.contains(families[i]));
        vstd::seq_lib::to_multiset_contains(unsorted, families[i]);
    }
    assert forall|i: int| 0 <= i < families.len() implies has_clone_id(
        findings,
        (#[trigger] families[i]).representative_clone_id@,
    ) by {
        let k = choose|k: int| 0 <= k < unsorted.len() && unsorted[k] == families[i];
        let j = lemma_representative_in_cluster(unsorted[k], findings, clusters[k]);
        let p = clusters[k][j] as int;
        assert(0 <= p < findings.len());
        assert(findings[p].clone_id@ == families[i].representative_clone_id@);
    }
    assert forall|i: int, k: int|
        #![trigger families[i], families[k]]
        0 <= i < families.len() && 0 <= k < families.len() && i != k implies families[i].representative_clone_id@
            != families[k].representative_clone_id@ by {
        let a = choose|a: int| 0 <= a < unsorted.len() && unsorted[a] == families[i];
        let b = choose|b: int| 0 <= b < unsorted.len() && unsorted[b] == families[k];
        if families[i].representative_clone_id@ == families[k].representative_clone_id@ {
            lemma_one_cluster_per_representative(findings, clusters, unsorted, a, b);
        }
    }
}

proof fn lemma_representative_picks(findings: Seq<CloneDriftFinding>, families: Seq<CloneFamilySummary>)
    requires
        forall|i: int|
            0 <= i < families.len() ==> has_clone_id(findings, (#[trigger] families[i]).representative_clone_id@),
    ensures
        representative_picks(findings, families).len() == families.len(),
        forall|i: int|
            0 <= i < families.len() ==> 0 <= #[trigger] representative_picks(findings, families)[i] < findings.len()
                && findings[representative_picks(findings, families)[i]].clone_id@
                == families[i].representative_clone_id@,
    decreases families.len(),
{
    if families.len() > 0 {
        let rest = families.drop_last();
        assert forall|i: int| 0 <= i < rest.len() implies has_clone_id(
            findings,
            (#[trigger] rest[i]).representative_clone_id@,
        ) by {
            assert(rest[i] == families[i]);
        }
        lemma_representative_picks(findings, rest);
        let last = families.last();
        lemma_last_with_id_bounds(findings, last.representative_clone_id@);
        assert(families[families.len() - 1] == last);
        assert(has_clone_id(findings, last.representative_clone_id@));
        let p = choose|p: int| 0 <= p < findings.len() && findings[p].clone_id@ == last.representative_clone_id@;
        assert(findings[p].clone_id@ == last.representative_clone_id@);
        assert forall|i: int| 0 <= i < families.len() - 1 implies families[i] == rest[i] by {}
    }
}

proof fn lemma_other_picks(findings: Seq<CloneDriftFinding>, ids: Seq<Seq<char>>)
    ensures
        forall|k: int|
            0 <= k < other_picks(findings, ids).len() ==> 0 <= #[trigger] other_picks(findings, ids)[k] < findings.len()
                && !ids.contains(findings[other_picks(findings, ids)[k]].clone_id@),
        forall|k: int, l: int|
            #![trigger other_picks(findings, ids)[k], other_picks(findings, ids)[l]]
            0 <= k < l < other_picks(findings, ids).len() ==> other_picks(findings, ids)[k] < other_picks(
                findings,
                ids,
            )[l],
        forall|p: int|
            0 <= p < findings.len() && !ids.contains(#[trigger] findings[p].clone_id@) ==> other_picks(
                findings,
                ids,
            ).contains(p),
    decreases findings.len(),
{
    if findings.len() > 0 {
        let rest = findings.drop_last();
        lemma_other_picks(rest, ids);
        let prev = other_picks(rest, ids);
        assert forall|p: int| 0 <= p < rest.len() implies rest[p] == findings[p] by {}
        assert forall|p: int| 0 <= p < findings.len() && !ids.contains(#[trigger] findings[p].clone_id@) implies other_picks(
            findings,
            ids,
        ).contains(p) by {
            if p < rest.len() {
                assert(rest[p] == findings[p]);
                let k = choose|k: int| 0 <= k < prev.len() && prev[k] == p;
                if !ids.contains(findings.last().clone_id@) {
                    assert(prev.push(findings.len() - 1)[k] == p);
                }
            } else {
                assert(other_picks(findings, ids) == prev.push(findings.len() - 1));
                assert(prev.push(findings.len() - 1)[prev.len() as int] == p);
            }
        }
    }
}

/// The prioritized findings of a report are a re-ordering of its findings:
/// where no two findings share a clone identifier, every finding is picked
/// exactly once, and the first picks are the families' representatives in
/// family order.
pub proof fn lemma_prioritized_permutes_findings(findings: Seq<CloneDriftFinding>, families: Seq<CloneFamilySummary>)
    requires
        families_of(families, findings),
        distinct_clone_ids(findings),
    ensures
        priority_picks(findings, families).no_duplicates(),
        forall|k: int|
            0 <= k < priority_picks(findings, families).len() ==> 0 <= #[trigger] priority_picks(findings, families)[k]
                < findings.len(),
        forall|p: int| 0 <= p < findings.len() ==> #[trigger] priority_picks(findings, families).contains(p),
        forall|i: int|
            0 <= i < families.len() ==> findings[#[trigger] priority_picks(findings, families)[i]].clone_id@
                == families[i].representative_clone_id@,
{
    lemma_representatives_distinct(families, findings);
    lemma_representative_picks(findings, families);
    let ids = representative_ids(families);
    lemma_other_picks(findings, ids);
    let reps = representative_picks(findings, families);
    let others = other_picks(findings, ids);
    let picks = priority_picks(findings, families);
    assert(picks == reps + others);
    assert forall|i: int| 0 <= i < families.len() implies ids.contains(
        findings[#[trigger] reps[i]].clone_id@,
    ) by {
        assert(ids[i] == families[i].representative_clone_id@);
    }
    assert forall|a: int, b: int| 0 <= a < picks.len() && 0 <= b < picks.len() && a != b implies picks[a]
        != picks[b] by {
        if a < reps.len() && b < reps.len() {
            if picks[a] == picks[b] {
                assert(families[a].representative_clone_id@ == families[b].representative_clone_id@);
            }
        } else if a >= reps.len() && b >= reps.len() {
            let (ka, kb) = (a - reps.len(), b - reps.len());
            assert(picks[a] == others[ka] && picks[b] == others[kb]);
            if ka < kb {
                assert(others[ka] < others[kb]);
            } else {
                assert(others[kb] < others[ka]);
            }
        } else if a < reps.len() {
            assert(picks[b] == others[b - reps.len()]);
            assert(ids.contains(findings[reps[a]].clone_id@));
        } else {
            assert(picks[a] == others[a - reps.len()]);
            assert(ids.contains(findings[reps[b]].clone_id@));
        }
    }
    assert forall|p: int| 0 <= p < findings.len() implies #[trigger] picks.contains(p) by {
        if ids.contains(findings[p].clone_id@) {
            let i = choose|i: int| 0 <= i < ids.len() && ids[i] == findings[p].clone_id@;
            assert(families[i].representative_clone_id@ == findings[p].clone_id@);
            assert(findings[reps[i]] == findings[reps[i]] && findings[p] == findings[p]);
            assert(reps[i] == p);
            assert(picks[i] == p);
        } else {
            let k = choose|k: int| 0 <= k < others.len() && others[k] == p;
            assert(picks[reps.len() + k] == p);
        }
    }
    assert forall|k: int| 0 <= k < picks.len() implies 0 <= #[trigger] picks[k] < findings.len() by {
        if k >= reps.len() {
            assert(picks[k] == others[k - reps.len()]);
        }
    }
}

proof fn lemma_member_in_cluster(s: CloneFamilySummary, findings: Seq<CloneDriftFinding>, cluster: Seq<usize>, id: Seq<char>) -> (j: int)
    requires
        family_for_cluster(s, findings, cluster),
        s.clone_ids.deep_view().contains(id),
    ensures
        0 <= j < cluster.len(),
        findings[cluster[j] as int].clone_id@ == id,
{
    let (members, sorted) = choose|members: Seq<CloneDriftFinding>, sorted: Seq<CloneDriftFinding>|
        members.len() == cluster.len() && (forall|j: int|
            0 <= j < members.len() ==> same_finding(#[trigger] members[j], findings[cluster[j] as int]))
            && ranked_order(sorted) && sorted.to_multiset() == members.to_multiset() && describes_family(s, sorted);
    let t = choose|t: int| 0 <= t < member_clone_ids(sorted).len() && member_clone_ids(sorted)[t] == id;
    assert(sorted.contains(sorted[t]));
    vstd::seq_lib::to_multiset_contains(sorted, sorted[t]);
    vstd::seq_lib::to_multiset_contains(members, sorted[t]);
    let j = choose|j: int| 0 <= j < members.len() && members[j] == sorted[t];
    assert(same_finding(members[j], findings[cluster[j] as int]));
    j
}

/// Where the findings' clone identifiers are distinct, no clone identifier
/// belongs to two families.
pub proof fn lemma_families_disjoint(families: Seq<CloneFamilySummary>, findings: Seq<CloneDriftFinding>)
    requires
        families_of(families, findings),
        distinct_clone_ids(findings),
    ensures
        forall|i: int, k: int, id: Seq<char>|
            0 <= i < families.len() && 0 <= k < families.len() && i != k && #[trigger] families[i].clone_ids.deep_view().contains(id)
                ==> !#[trigger] families[k].clone_ids.deep_view().contains(id),
{
    lemma_representatives_distinct(families, findings);
    let (clusters, unsorted) = choose|clusters: Seq<Seq<usize>>, unsorted: Seq<CloneFamilySummary>|
        are_families(findings, clusters) && unsorted.len() == clusters.len() && (forall|i: int|
            0 <= i < unsorted.len() ==> family_for_cluster(#[trigger] unsorted[i], findings, clusters[i]))
            && ranked_order(families) && families.to_multiset() == unsorted.to_multiset();
    assert forall|i: int, k: int, id: Seq<char>|
        0 <= i < families.len() && 0 <= k < families.len() && i != k && #[trigger] families[i].clone_ids.deep_view().contains(id)
            implies !#[trigger] families[k].clone_ids.deep_view().contains(id) by {
        if families[k].clone_ids.deep_view().contains(id) {
            vstd::seq_lib::to_multiset_contains(families, families[i]);
            vstd::seq_lib::to_multiset_contains(families, families[k]);
            assert(families.contains(families[i]));
            assert(families.contains(families[k]));
            vstd::seq_lib::to_multiset_contains(unsorted, families[i]);
            vstd::seq_lib::to_multiset_contains(unsorted, families[k]);
            let a = choose|a: int| 0 <= a < unsorted.len() && unsorted[a] == families[i];
            let b = choose|b: int| 0 <= b < unsorted.len() && unsorted[b] == families[k];
            let ja = lemma_member_in_cluster(unsorted[a], findings, clusters[a], id);
            let jb = lemma_member_in_cluster(unsorted[b], findings, clusters[b], id);
            let p = clusters[a][ja];
            let q = clusters[b][jb];
            assert(p < findings.len() && q < findings.len());
            assert(findings[p as int] == findings[p as int] && findings[q as int] == findings[q as int]);
            assert(p == q);
            assert(clusters[a].contains(p) && clusters[b].contains(p));
            assert(a == b);
            assert(families[i].representative_clone_id@ != families[k].representative_clone_id@);
        }
    }
}

/// The findings re-ordered: each family's representative first, in family
/// order, then every finding that represents no family, in its own order.
pub fn prioritize_clone_findings(findings: &Vec<CloneDriftFinding>, families: &Vec<CloneFamilySummary>) -> (r: Vec<
    CloneDriftFinding,
>)
    ensures
        r@.len() == priority_picks(findings@, families@).len(),
        forall|i: int|
            0 <= i < r@.len() ==> same_finding(#[trigger] r@[i], findings@[priority_picks(findings@, families@)[i]]),
{
    let mut r: Vec<CloneDriftFinding> = Vec::new();
    let mut i: usize = 0;
    while i < families.len()
        invariant
            i <= families@.len(),
            r@.len() == representative_picks(findings@, families@.take(i as int)).len(),
            forall|k: int| 0 <= k < representative_picks(findings@, families@.take(i as int)).len() ==> 0
                <= #[trigger] representative_picks(findings@, families@.take(i as int))[k] < findings@.len(),
            forall|k: int|
                0 <= k < r@.len() ==> same_finding(
                    #[trigger] r@[k],
                    findings@[representative_picks(findings@, families@.take(i as int))[k]],
                ),
        decreases families@.len() - i,
    {
        let ghost prev = representative_picks(findings@, families@.take(i as int));
        assert(families@.take(i + 1).drop_last() =~= families@.take(i as int));
        let found = find_last_with_id(findings, families[i].representative_clone_id.as_str());
        proof {
            lemma_last_with_id_bounds(findings@, families@[i as int].representative_clone_id@);
        }
        if let Some(p) = found {
            r.push(findings[p].clone());
            assert(representative_picks(findings@, families@.take(i + 1)) == prev.push(p as int));
        } else {
            assert(representative_picks(findings@, families@.take(i + 1)) == prev);
        }
        i = i + 1;
    }
    assert(families@.take(families@.len() as int) =~= families@);
    let ghost reps = representative_picks(findings@, families@);
    let ids = representative_list(families);
    let ghost id_view = representative_ids(families@);
    let mut j: usize = 0;
    while j < findings.len()
        invariant
            j <= findings@.len(),
            ids.deep_view() == id_view,
            id_view == representative_ids(families@),
            reps == representative_picks(findings@, families@),
            forall|k: int| 0 <= k < reps.len() ==> 0 <= #[trigger] reps[k] < findings@.len(),
            r@.len() == reps.len() + other_picks(findings@.take(j as int), id_view).len(),
            forall|k: int| 0 <= k < other_picks(findings@.take(j as int), id_view).len() ==> 0
                <= #[trigger] other_picks(findings@.take(j as int), id_view)[k] < j,
            forall|k: int|
                0 <= k < r@.len() ==> same_finding(
                    #[trigger] r@[k],
                    findings@[(reps + other_picks(findings@.take(j as int), id_view))[k]],
                ),
        decreases findings@.len() - j,
    {
        let ghost prev = other_picks(findings@.take(j as int), id_view);
        assert(findings@.take(j + 1).drop_last() =~= findings@.take(j as int));
        if !crate::order::texts_contain(&ids, findings[j].clone_id.as_str()) {
            r.push(findings[j].clone());
            assert(other_picks(findings@.take(j + 1), id_view) == prev.push(j as int));
            assert(reps + prev.push(j as int) =~= (reps + prev).push(j as int));
        } else {
            assert(other_picks(findings@.take(j + 1), id_view) == prev);
        }
        j = j + 1;
    }
    assert(findings@.take(findings@.len() as int) =~= findings@);
    r
}

/// Everything the clone-drift analysis reports.
pub struct CloneDriftReport {
    pub findings: Vec<CloneDriftFinding>,
    pub prioritized_findings: Vec<CloneDriftFinding>,
    pub families: Vec<CloneFamilySummary>,
}

impl Default for CloneDriftReport {
    fn default() -> (r: Self)
        ensures
            r.findings@.len() == 0,
            r.prioritized_findings@.len() == 0,
            r.families@.len() == 0,
    {
        CloneDriftReport { findings: Vec::new(), prioritized_findings: Vec::new(), families: Vec::new() }
    }
}

/// Positions of the groups that qualify as clone drift, in order.
pub open spec fn qualifying_positions(groups: Seq<DuplicateGroup>) -> Seq<int>
    decreases groups.len(),
{
    if groups.len() == 0 {
        Seq::empty()
    } else {
        let prev = qualifying_positions(groups.drop_last());
        if group_qualifies(groups.last()) {
            prev.push(groups.len() - 1)
        } else {
            prev
        }
    }
}

/// Every group's line total fits in a `u32`.
pub open spec fn line_totals_fit(groups: Seq<DuplicateGroup>) -> bool {
    forall|i: int| 0 <= i < groups.len() ==> group_total_lines((#[trigger] groups[i]).instances@) <= u32::MAX
}

/// `findings` are, in rank order, the findings of the qualifying groups.
pub open spec fn drift_findings_of(
    findings: Seq<CloneDriftFinding>,
    groups: Seq<DuplicateGroup>,
    evolution: Option<EvolutionReport>,
) -> bool {
    let q = qualifying_positions(groups);
    exists|unsorted: Seq<CloneDriftFinding>|
        #![trigger unsorted.to_multiset()]
        unsorted.len() == q.len() && (forall|k: int|
            0 <= k < unsorted.len() ==> is_drift_finding_of(#[trigger] unsorted[k], groups[q[k]], evolution))
            && ranked_order(findings) && findings.to_multiset() == unsorted.to_multiset() && keeps_ties_in_order(
            findings,
            unsorted,
        )
}

proof fn lemma_drift_files_sorted(findings: Seq<CloneDriftFinding>, groups: Seq<DuplicateGroup>, evolution: Option<EvolutionReport>)
    requires
        drift_findings_of(findings, groups, evolution),
    ensures
        sorted_files(findings),
{
    let q = qualifying_positions(groups);
    let unsorted = choose|unsorted: Seq<CloneDriftFinding>|
        unsorted.len() == q.len() && (forall|k: int|
            0 <= k < unsorted.len() ==> is_drift_finding_of(#[trigger] unsorted[k], groups[q[k]], evolution))
            && ranked_order(findings) && findings.to_multiset() == unsorted.to_multiset();
    assert forall|i: int| 0 <= i < findings.len() implies strictly_sorted(#[trigger] findings[i].files.deep_view()) by {
        vstd::seq_lib::to_multiset_contains(findings, findings[i]);
        assert(findings.contains(findings[i]));
        vstd::seq_lib::to_multiset_contains(unsorted, findings[i]);
        let k = choose|k: int| 0 <= k < unsorted.len() && unsorted[k] == findings[i];
        assert(is_drift_finding_of(unsorted[k], groups[q[k]], evolution));
    }
}

fn qualifying_findings(groups: &Vec<DuplicateGroup>, evolution: Option<&EvolutionReport>) -> (r: Vec<CloneDriftFinding>)
    requires
        line_totals_fit(groups@),
    ensures
        r@.len() == qualifying_positions(groups@).len(),
        forall|k: int|
            0 <= k < r@.len() ==> is_drift_finding_of(
                #[trigger] r@[k],
                groups@[qualifying_positions(groups@)[k]],
                report_of(evolution),
            ),
{
    let mut r: Vec<CloneDriftFinding> = Vec::new();
    let mut i: usize = 0;
    while i < groups.len()
        invariant
            line_totals_fit(groups@),
            i <= groups@.len(),
            r@.len() == qualifying_positions(groups@.take(i as int)).len(),
            forall|k: int| 0 <= k < r@.len() ==> 0 <= #[trigger] qualifying_positions(groups@.take(i as int))[k] < i,
            forall|k: int|
                0 <= k < r@.len() ==> is_drift_finding_of(
                    #[trigger] r@[k],
                    groups@[qualifying_positions(groups@.take(i as int))[k]],
                    report_of(evolution),
                ),
        decreases groups@.len() - i,
    {
        let ghost prev = qualifying_positions(groups@.take(i as int));
        assert(groups@.take(i + 1).drop_last() =~= groups@.take(i as int));
        assert(groups@.take(i + 1).last() == groups@[i as int]);
        let f = clone_drift_finding(&groups[i], evolution);
        if let Some(f) = f {
            r.push(f);
            assert(qualifying_positions(groups@.take(i + 1)) == prev.push(i as int));
        } else {
            assert(qualifying_positions(groups@.take(i + 1)) == prev);
        }
        i = i + 1;
    }
    assert(groups@.take(groups@.len() as int) =~= groups@);
    r
}

/// The full clone-drift report of the groups.
pub fn build_clone_drift_report(groups: &Vec<DuplicateGroup>, evolution: Option<&EvolutionReport>) -> (r:
    CloneDriftReport)
    requires
        line_totals_fit(groups@),
    ensures
        drift_findings_of(r.findings@, groups@, report_of(evolution)),
        families_of(r.families@, r.findings@),
        r.prioritized_findings@.len() == priority_picks(r.findings@, r.families@).len(),
        forall|i: int|
            0 <= i < r.prioritized_findings@.len() ==> same_finding(
                #[trigger] r.prioritized_findings@[i],
                r.findings@[priority_picks(r.findings@, r.families@)[i]],
            ),
        forall|i: int| 0 <= i < r.families@.len() ==> (#[trigger] r.families@[i]).member_count >= 2,
        forall|i: int|
            0 <= i < r.families@.len() ==> hints_decided(
                (#[trigger] r.families@[i]).remediation_hints@,
                r.families@[i].severity,
                summary_metrics(r.families@[i]),
                r.families@[i].member_count,
                r.families@[i].file_count,
            ),
        distinct_clone_ids(r.findings@) ==> {
            let picks = priority_picks(r.findings@, r.families@);
            &&& picks.no_duplicates()
            &&& forall|k: int| 0 <= k < picks.len() ==> 0 <= #[trigger] picks[k] < r.findings@.len()
            &&& forall|p: int| 0 <= p < r.findings@.len() ==> #[trigger] picks.contains(p)
            &&& forall|i: int|
                0 <= i < r.families@.len() ==> r.findings@[#[trigger] picks[i]].clone_id@
                    == r.families@[i].representative_clone_id@
            &&& forall|i: int, k: int, id: Seq<char>|
                0 <= i < r.families@.len() && 0 <= k < r.families@.len() && i != k
                    && #[trigger] r.families@[i].clone_ids.deep_view().contains(id)
                    ==> !#[trigger] r.families@[k].clone_ids.deep_view().contains(id)
        },
{
    let unsorted = qualifying_findings(groups, evolution);
    let ghost unsorted_view = unsorted@;
    let findings = sort_ranked(unsorted);
    assert(drift_findings_of(findings@, groups@, report_of(evolution))) by {
        assert(unsorted_view.to_multiset() == unsorted_view.to_multiset());
    }
    proof {
        lemma_drift_files_sorted(findings@, groups@, report_of(evolution));
    }
    let families = build_clone_family_summaries(&findings);
    let prioritized_findings = prioritize_clone_findings(&findings, &families);
    proof {
        lemma_families_group_several(families@, findings@);
        if distinct_clone_ids(findings@) {
            lemma_prioritized_permutes_findings(findings@, families@);
            lemma_families_disjoint(families@, findings@);
        }
    }
    CloneDriftReport { findings, prioritized_findings, families }
}

/// The first `limit` findings of the report (see `build_clone_drift_report`).
pub fn build_clone_drift_findings(groups: &Vec<DuplicateGroup>, evolution: Option<&EvolutionReport>, limit: usize) -> (r:
    Vec<CloneDriftFinding>)
    requires
        line_totals_fit(groups@),
    ensures
        exists|all: Seq<CloneDriftFinding>|
            #![trigger all.len()]
            drift_findings_of(all, groups@, report_of(evolution)) && r@ == all.take(
                if limit < all.len() { limit as int } else { all.len() as int },
            ),
{
    let mut report = build_clone_drift_report(groups, evolution);
    let ghost all = report.findings@;
    report.findings.truncate(limit);
    assert(report.findings@ =~= all.take(if limit < all.len() { limit as int } else { all.len() as int }));
    report.findings
}

/// The hints of round `round`: each family's hint at that position, in family
/// order, for the families that have one.
pub open spec fn hint_round(families: Seq<CloneFamilySummary>, round: int) -> Seq<CloneRemediationHint>
    decreases families.len(),
{
    if families.len() == 0 {
        Seq::empty()
    } else {
        let prev = hint_round(families.drop_last(), round);
        let hints = families.last().remediation_hints@;
        if 0 <= round < hints.len() {
            prev.push(hints[round])
        } else {
            prev
        }
    }
}

/// The hints of rounds `0..rounds`, round after round.
pub open spec fn hint_rounds(families: Seq<CloneFamilySummary>, rounds: nat) -> Seq<CloneRemediationHint>
    decreases rounds,
{
    if rounds == 0 {
        Seq::empty()
    } else {
        hint_rounds(families, (rounds - 1) as nat) + hint_round(families, rounds - 1)
    }
}

/// The largest number of hints of any family.
pub open spec fn max_hint_count(families: Seq<CloneFamilySummary>) -> nat
    decreases families.len(),
{
    if families.len() == 0 {
        0
    } else {
        let prev = max_hint_count(families.drop_last());
        let n = families.last().remediation_hints@.len();
        if n > prev { n } else { prev }
    }
}

/// Every round after the last holds no hint.
proof fn lemma_late_round_empty(families: Seq<CloneFamilySummary>, round: int)
    requires
        round >= max_hint_count(families),
    ensures
        hint_round(families, round).len() == 0,
    decreases families.len(),
{
    if families.len() > 0 {
        lemma_late_round_empty(families.drop_last(), round);
    }
}

/// Every round holds one hint per family at most.
proof fn lemma_round_len(families: Seq<CloneFamilySummary>, round: int)
    ensures
        hint_round(families, round).len() <= families.len(),
    decreases families.len(),
{
    if families.len() > 0 {
        lemma_round_len(families.drop_last(), round);
    }
}

/// The number of hints of all families together.
pub open spec fn total_hint_count(families: Seq<CloneFamilySummary>) -> nat
    decreases families.len(),
{
    if families.len() == 0 {
        0
    } else {
        total_hint_count(families.drop_last()) + families.last().remediation_hints@.len()
    }
}

/// The number of hints of all families, each family's count capped at `rounds`.
spec fn capped_hint_count(families: Seq<CloneFamilySummary>, rounds: nat) -> nat
    decreases families.len(),
{
    if families.len() == 0 {
        0
    } else {
        let n = families.last().remediation_hints@.len();
        capped_hint_count(families.drop_last(), rounds) + if n < rounds { n } else { rounds }
    }
}

proof fn lemma_capped_step(families: Seq<CloneFamilySummary>, rounds: nat)
    requires
        rounds > 0,
    ensures
        capped_hint_count(families, rounds) == capped_hint_count(families, (rounds - 1) as nat) + hint_round(
            families,
            rounds - 1,
        ).len(),
    decreases families.len(),
{
    if families.len() > 0 {
        lemma_capped_step(families.drop_last(), rounds);
    }
}

proof fn lemma_rounds_capped(families: Seq<CloneFamilySummary>, rounds: nat)
    ensures
        hint_rounds(families, rounds).len() == capped_hint_count(families, rounds),
    decreases rounds,
{
    if rounds == 0 {
        lemma_capped_zero(families);
    } else {
        lemma_rounds_capped(families, (rounds - 1) as nat);
        lemma_capped_step(families, rounds);
    }
}

proof fn lemma_capped_zero(families: Seq<CloneFamilySummary>)
    ensures
        capped_hint_count(families, 0) == 0,
    decreases families.len(),
{
    if families.len() > 0 {
        lemma_capped_zero(families.drop_last());
    }
}

proof fn lemma_capped_total(families: Seq<CloneFamilySummary>, rounds: nat)
    requires
        rounds >= max_hint_count(families),
    ensures
        capped_hint_count(families, rounds) == total_hint_count(families),
    decreases families.len(),
{
    if families.len() > 0 {
        lemma_capped_total(families.drop_last(), rounds);
    }
}

/// Taking the families' hints in turns, round after round until the
/// longest list is spent, gives every hint exactly once in count.
pub proof fn lemma_hint_rounds_total(families: Seq<CloneFamilySummary>)
    ensures
        hint_rounds(families, max_hint_count(families)).len() == total_hint_count(families),
{
    lemma_rounds_capped(families, max_hint_count(families));
    lemma_capped_total(families, max_hint_count(families));
}

/// The hints of all families taken in turns: every family's first hint in
/// family order, then every family's second hint, and so on, up to `limit`.
pub fn build_clone_remediation_hints(families: &Vec<CloneFamilySummary>, limit: usize) -> (r: Vec<CloneRemediationHint>)
    ensures
        ({
            let all = hint_rounds(families@, max_hint_count(families@));
            let n = if limit < all.len() { limit as int } else { all.len() as int };
            &&& r@.len() == n
            &&& forall|i: int| 0 <= i < n ==> same_hint(#[trigger] r@[i], all[i])
        }),
        r@.len() == if limit < total_hint_count(families@) { limit as nat } else { total_hint_count(families@) },
{
    proof {
        lemma_hint_rounds_total(families@);
    }
    let ghost fam = families@;
    let mut hints: Vec<CloneRemediationHint> = Vec::new();
    if limit == 0 || families.len() == 0 {
        proof {
            if fam.len() == 0 {
                lemma_rounds_empty_when_no_families(fam, max_hint_count(fam));
            }
        }
        return hints;
    }
    let mut max_hints: usize = 0;
    let mut f: usize = 0;
    while f < families.len()
        invariant
            f <= fam.len(),
            fam == families@,
            max_hints == max_hint_count(fam.take(f as int)),
        decreases fam.len() - f,
    {
        assert(fam.take(f + 1).drop_last() =~= fam.take(f as int));
        if families[f].remediation_hints.len() > max_hints {
            max_hints = families[f].remediation_hints.len();
        }
        f = f + 1;
    }
    assert(fam.take(fam.len() as int) =~= fam);
    let mut h: usize = 0;
    while h < max_hints
        invariant
            fam == families@,
            max_hints == max_hint_count(fam),
            h <= max_hints,
            0 < limit,
            hints@.len() < limit,
            hints@.len() == hint_rounds(fam, h as nat).len(),
            forall|i: int| 0 <= i < hints@.len() ==> same_hint(#[trigger] hints@[i], hint_rounds(fam, h as nat)[i]),
        decreases max_hints - h,
    {
        let ghost start = hints@;
        let ghost done = hint_rounds(fam, h as nat);
        let mut g: usize = 0;
        while g < families.len()
            invariant
                fam == families@,
                max_hints == max_hint_count(fam),
                h < max_hints,
                0 < limit,
                g <= fam.len(),
                hints@.len() < limit,
                done == hint_rounds(fam, h as nat),
                hints@.len() == done.len() + hint_round(fam.take(g as int), h as int).len(),
                forall|i: int|
                    0 <= i < hints@.len() ==> same_hint(
                        #[trigger] hints@[i],
                        (done + hint_round(fam.take(g as int), h as int))[i],
                    ),
            decreases fam.len() - g,
        {
            let ghost prev_round = hint_round(fam.take(g as int), h as int);
            assert(fam.take(g + 1).drop_last() =~= fam.take(g as int));
            if h < families[g].remediation_hints.len() {
                let copy = families[g].remediation_hints[h].clone();
                hints.push(copy);
                assert(hint_round(fam.take(g + 1), h as int) == prev_round.push(fam[g as int].remediation_hints@[h as int]));
                assert(done + prev_round.push(fam[g as int].remediation_hints@[h as int]) =~= (done + prev_round).push(
                    fam[g as int].remediation_hints@[h as int],
                ));
                if hints.len() >= limit {
                    proof {
                        lemma_rounds_prefix(fam, (h + 1) as nat, max_hint_count(fam));
                        assert(fam.take(g + 1) + fam.skip(g + 1) =~= fam);
                        lemma_round_prefix(fam, g + 1, h as int);
                        assert(hint_rounds(fam, (h + 1) as nat) == done + hint_round(fam, h as int));
                        lemma_prefix_of_concat(done, hint_round(fam.take(g + 1), h as int), hint_round(fam, h as int));
                        let all = hint_rounds(fam, max_hint_count(fam));
                        let upto = done + hint_round(fam.take(g + 1), h as int);
                        assert forall|i: int| 0 <= i < hints@.len() implies same_hint(#[trigger] hints@[i], all[i]) by {
                            assert(same_hint(hints@[i], upto[i]));
                            assert(upto[i] == (done + hint_round(fam, h as int))[i]);
                            assert(hint_rounds(fam, (h + 1) as nat)[i] == all[i]);
                        }
                        lemma_hint_rounds_total(fam);
                    }
                    return hints;
                }
            } else {
                assert(hint_round(fam.take(g + 1), h as int) == prev_round);
            }
            g = g + 1;
        }
        assert(fam.take(fam.len() as int) =~= fam);
        h = h + 1;
    }
    proof {
        lemma_rounds_stable(fam, max_hints as nat);
    }
    hints
}

proof fn lemma_rounds_empty_when_no_families(families: Seq<CloneFamilySummary>, rounds: nat)
    requires
        families.len() == 0,
    ensures
        hint_rounds(families, rounds).len() == 0,
    decreases rounds,
{
    if rounds > 0 {
        lemma_rounds_empty_when_no_families(families, (rounds - 1) as nat);
    }
}

/// The hints of `rounds` rounds start the hints of more rounds.
proof fn lemma_rounds_prefix(families: Seq<CloneFamilySummary>, rounds: nat, more: nat)
    requires
        rounds <= more,
    ensures
        hint_rounds(families, rounds).len() <= hint_rounds(families, more).len(),
        forall|i: int| 0 <= i < hint_rounds(families, rounds).len() ==> #[trigger] hint_rounds(families, rounds)[i]
            == hint_rounds(families, more)[i],
    decreases more,
{
    if rounds < more {
        lemma_rounds_prefix(families, rounds, (more - 1) as nat);
    }
}

/// A round over the first families starts the round over all families.
proof fn lemma_round_prefix(families: Seq<CloneFamilySummary>, g: int, round: int)
    requires
        0 <= g <= families.len(),
    ensures
        hint_round(families.take(g), round).len() <= hint_round(families, round).len(),
        forall|i: int| 0 <= i < hint_round(families.take(g), round).len() ==> #[trigger] hint_round(families.take(g), round)[i]
            == hint_round(families, round)[i],
    decreases families.len() - g,
{
    if g < families.len() {
        lemma_round_prefix(families.drop_last(), g, round);
        assert(families.drop_last().take(g) =~= families.take(g));
    } else {
        assert(families.take(g) =~= families);
    }
}

proof fn lemma_prefix_of_concat(a: Seq<CloneRemediationHint>, b: Seq<CloneRemediationHint>, c: Seq<CloneRemediationHint>)
    requires
        b.len() <= c.len(),
        forall|i: int| 0 <= i < b.len() ==> #[trigger] b[i] == c[i],
    ensures
        forall|i: int| 0 <= i < (a + b).len() ==> #[trigger] (a + b)[i] == (a + c)[i],
{
}

/// Rounds past the largest hint count add nothing.
proof fn lemma_rounds_stable(families: Seq<CloneFamilySummary>, rounds: nat)
    requires
        rounds == max_hint_count(families),
    ensures
        hint_rounds(families, rounds) == hint_rounds(families, max_hint_count(families)),
{
}

} // verus!
