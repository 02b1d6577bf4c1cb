//! The summary of one clone family: its files, identity, divergence measures,
//! score, texts and remediation hints.
use crate::clone_activity::{file_summaries, summarizes, CloneDriftInstance, CloneFileSummary};
use crate::clone_families::{
    clone_family_metrics, clone_family_reasons, clone_family_summary_text, family_metrics_of,
    family_reasons_text, family_summary_text, CloneFamilyMetrics,
};
use crate::clone_groups::{copy_strings, sat32, CloneDriftFinding};
use crate::clone_hints::{clone_family_remediation_hints, family_hint_shapes, hints_match, CloneRemediationHint};
use crate::order::{sorted_unique, strictly_sorted};
use crate::sorting::{ranked_order, sort_ranked};
use crate::text::{hex, push_line, zero_pad, Text};
use crate::FindingSeverity;
use std::hash::Hash;
use std::hash::Hasher;
use vstd::prelude::*;

verus! {

/// A group of exact clone findings whose files overlap, summarized as one
/// unit of duplication.
pub struct CloneFamilySummary {
    pub kind: String,
    pub family_id: String,
    pub severity: FindingSeverity,
    pub family_score: u32,
    pub divergence_score: u32,
    pub member_count: usize,
    pub file_count: usize,
    pub distinct_file_set_count: usize,
    pub mixed_file_sets: bool,
    pub commit_count_gap: Option<u32>,
    pub age_days_gap: Option<u32>,
    pub representative_clone_id: String,
    pub clone_ids: Vec<String>,
    pub recently_touched_file_count: usize,
    pub asymmetric_recent_change: bool,
    pub files: Vec<String>,
    pub reasons: Vec<String>,
    pub summary: String,
    pub remediation_hints: Vec<CloneRemediationHint>,
}

impl Default for CloneFamilySummary {
    fn default() -> (r: Self)
        ensures
            r.kind@ == Seq::<char>::empty(),
            r.family_id@ == Seq::<char>::empty(),
            r.severity == FindingSeverity::Low,
            r.family_score == 0,
            r.divergence_score == 0,
            r.member_count == 0,
            r.file_count == 0,
            r.distinct_file_set_count == 0,
            !r.mixed_file_sets,
            r.commit_count_gap is None,
            r.age_days_gap is None,
            r.representative_clone_id@ == Seq::<char>::empty(),
            r.clone_ids@.len() == 0,
            r.recently_touched_file_count == 0,
            !r.asymmetric_recent_change,
            r.files@.len() == 0,
            r.reasons@.len() == 0,
            r.summary@ == Seq::<char>::empty(),
            r.remediation_hints@.len() == 0,
    {
        CloneFamilySummary {
            kind: String::new(),
            family_id: String::new(),
            severity: FindingSeverity::Low,
            family_score: 0,
            divergence_score: 0,
            member_count: 0,
            file_count: 0,
            distinct_file_set_count: 0,
            mixed_file_sets: false,
            commit_count_gap: None,
            age_days_gap: None,
            representative_clone_id: String::new(),
            clone_ids: Vec::new(),
            recently_touched_file_count: 0,
            asymmetric_recent_change: false,
            files: Vec::new(),
            reasons: Vec::new(),
            summary: String::new(),
            remediation_hints: Vec::new(),
        }
    }
}

/// The value that `DefaultHasher::new()` finishes with after hashing a list
/// of strings.
pub uninterp spec fn default_hash_of_texts(texts: Seq<Seq<char>>) -> u64;

/// Hashes a list of strings with `std::collections::hash_map::DefaultHasher`,
/// created by `new`, and returns `finish()`. The result is named, not
/// described: std documents that every `DefaultHasher::new()` starts alike, so
/// the result depends on the strings alone.
#[verifier::external_body]
fn hash_texts(texts: &Vec<String>) -> (h: u64)
    ensures
        h == default_hash_of_texts(texts.deep_view()),
{
    let mut hasher = std::collections::hash_map::DefaultHasher::new();
    texts.hash(&mut hasher);
    hasher.finish()
}

/// The identifier of a family with the given file-list hash.
pub open spec fn family_id_text(hash: u64) -> Text {
    "clone-family-"@ + seq!['0', 'x'] + zero_pad(hex(hash as nat), 14)
}

fn clone_family_id(files: &Vec<String>) -> (r: String)
    ensures
        r@ == family_id_text(default_hash_of_texts(files.deep_view())),
{
    let h = hash_texts(files);
    let mut r = "clone-family-".to_string();
    let t = crate::text::hex_with_prefix(h, 16);
    r.append(t.as_str());
    r
}

/// All files of the members, member by member.
pub open spec fn member_files(members: Seq<CloneDriftFinding>) -> Seq<Text>
    decreases members.len(),
{
    if members.len() == 0 {
        Seq::empty()
    } else {
        member_files(members.drop_last()) + members.last().files.deep_view()
    }
}

/// All clone instances of the members, member by member.
pub open spec fn member_instances(members: Seq<CloneDriftFinding>) -> Seq<CloneDriftInstance>
    decreases members.len(),
{
    if members.len() == 0 {
        Seq::empty()
    } else {
        member_instances(members.drop_last()) + members.last().instances@
    }
}

/// The file lists of the members.
pub open spec fn member_file_lists(members: Seq<CloneDriftFinding>) -> Seq<Seq<Text>> {
    members.map_values(|f: CloneDriftFinding| f.files.deep_view())
}

/// The clone identifiers of the members.
pub open spec fn member_clone_ids(members: Seq<CloneDriftFinding>) -> Seq<Text> {
    members.map_values(|f: CloneDriftFinding| f.clone_id@)
}

fn family_file_list(members: &Vec<CloneDriftFinding>) -> (r: Vec<String>)
    ensures
        strictly_sorted(r.deep_view()),
        r.deep_view().to_set() == member_files(members@).to_set(),
{
    let mut all: Vec<String> = Vec::new();
    let mut i: usize = 0;
    while i < members.len()
        invariant
            i <= members@.len(),
            all.deep_view() == member_files(members@.take(i as int)),
        decreases members@.len() - i,
    {
        assert(members@.take(i + 1).drop_last() =~= members@.take(i as int));
        let files = &members[i].files;
        let ghost before = all.deep_view();
        let mut k: usize = 0;
        while k < files.len()
            invariant
                k <= files@.len(),
                all.deep_view() == before + files.deep_view().take(k as int),
            decreases files@.len() - k,
        {
            push_line(&mut all, files[k].clone());
            k = k + 1;
            assert(all.deep_view() =~= before + files.deep_view().take(k as int));
        }
        assert(files.deep_view().take(files@.len() as int) =~= files.deep_view());
        i = i + 1;
    }
    assert(members@.take(members@.len() as int) =~= members@);
    sorted_unique(&all)
}

fn family_instance_list(members: &Vec<CloneDriftFinding>) -> (r: Vec<CloneDriftInstance>)
    ensures
        r@ == member_instances(members@),
{
    let mut all: Vec<CloneDriftInstance> = Vec::new();
    let mut i: usize = 0;
    while i < members.len()
        invariant
            i <= members@.len(),
            all@ == member_instances(members@.take(i as int)),
        decreases members@.len() - i,
    {
        assert(members@.take(i + 1).drop_last() =~= members@.take(i as int));
        let instances = &members[i].instances;
        let ghost before = all@;
        let mut k: usize = 0;
        while k < instances.len()
            invariant
                k <= instances@.len(),
                all@ == before + instances@.take(k as int),
            decreases instances@.len() - k,
        {
            all.push(instances[k].clone());
            k = k + 1;
            assert(all@ =~= before + instances@.take(k as int));
        }
        assert(instances@.take(instances@.len() as int) =~= instances@);
        i = i + 1;
    }
    assert(members@.take(members@.len() as int) =~= members@);
    all
}

fn same_texts(a: &Vec<String>, b: &Vec<String>) -> (r: bool)
    ensures
        r == (a.deep_view() == b.deep_view()),
{
    if a.len() != b.len() {
        assert(a.deep_view().len() != b.deep_view().len());
        return false;
    }
    let mut i: usize = 0;
    while i < a.len()
        invariant
            a@.len() == b@.len(),
            i <= a@.len(),
            forall|k: int| 0 <= k < i ==> a.deep_view()[k] == b.deep_view()[k],
        decreases a@.len() - i,
    {
        if !crate::text::text_eq(a[i].as_str(), b[i].as_str()) {
            assert(a.deep_view()[i as int] != b.deep_view()[i as int]);
            return false;
        }
        i = i + 1;
    }
    assert(a.deep_view() =~= b.deep_view());
    true
}

fn distinct_file_set_count(members: &Vec<CloneDriftFinding>) -> (n: usize)
    ensures
        n == member_file_lists(members@).to_set().len(),
{
    let ghost lists = member_file_lists(members@);
    let mut seen: Vec<usize> = Vec::new();
    let mut i: usize = 0;
    while i < members.len()
        invariant
            lists == member_file_lists(members@),
            i <= members@.len(),
            seen@.len() <= i,
            forall|k: int| 0 <= k < seen@.len() ==> #[trigger] seen@[k] < i,
            seen@.map_values(|k: usize| lists[k as int]).no_duplicates(),
            seen@.map_values(|k: usize| lists[k as int]).to_set() == lists.take(i as int).to_set(),
        decreases members@.len() - i,
    {
        let ghost seen_lists = seen@.map_values(|k: usize| lists[k as int]);
        let mut found = false;
        let mut j: usize = 0;
        while j < seen.len()
            invariant
                lists == member_file_lists(members@),
                i < members@.len(),
                j <= seen@.len(),
                forall|k: int| 0 <= k < seen@.len() ==> #[trigger] seen@[k] < i,
                seen_lists == seen@.map_values(|k: usize| lists[k as int]),
                found == exists|k: int| 0 <= k < j && seen_lists[k] == lists[i as int],
            decreases seen@.len() - j,
        {
            if same_texts(&members[seen[j]].files, &members[i].files) {
                found = true;
                assert(seen_lists[j as int] == lists[i as int]);
            }
            j = j + 1;
        }
        assert(lists.take(i + 1) =~= lists.take(i as int).push(lists[i as int]));
        proof {
            lists.take(i as int).lemma_push_to_set_commute(lists[i as int]);
        }
        if !found {
            seen.push(i);
            let ghost next = seen@.map_values(|k: usize| lists[k as int]);
            assert(next =~= seen_lists.push(lists[i as int]));
            proof {
                seen_lists.lemma_push_to_set_commute(lists[i as int]);
                assert forall|a: int, b: int| 0 <= a < next.len() && 0 <= b < next.len() && a != b implies next[a]
                    != next[b] by {
                    if a == next.len() - 1 {
                        assert(next[b] == seen_lists[b]);
                    } else if b == next.len() - 1 {
                        assert(next[a] == seen_lists[a]);
                    }
                }
            }
        } else {
            assert(seen_lists.to_set().contains(lists[i as int]));
            assert(seen_lists.to_set().insert(lists[i as int]) =~= seen_lists.to_set());
        }
        i = i + 1;
    }
    assert(lists.take(members@.len() as int) =~= lists);
    proof {
        seen@.map_values(|k: usize| lists[k as int]).unique_seq_to_set();
    }
    seen.len()
}

/// The divergence measures stored in a family summary.
pub open spec fn summary_metrics(s: CloneFamilySummary) -> CloneFamilyMetrics {
    CloneFamilyMetrics {
        distinct_file_set_count: s.distinct_file_set_count,
        recently_touched_file_count: s.recently_touched_file_count,
        commit_count_gap: s.commit_count_gap,
        age_days_gap: s.age_days_gap,
        asymmetric_recent_change: s.asymmetric_recent_change,
        mixed_file_sets: s.mixed_file_sets,
        divergence_score: s.divergence_score,
    }
}

/// A family's score: its representative's risk, 4 points per extra member up
/// to three, and its divergence, saturating at `u32::MAX`.
pub open spec fn family_score_of(representative_risk: u32, member_count: usize, divergence: u32) -> u32 {
    let extra = if member_count - 1 < 3 { member_count - 1 } else { 3 };
    sat32(representative_risk + 4 * extra + divergence)
}

/// `s` summarizes the members listed in `sorted` order (representative first).
pub open spec fn describes_family(s: CloneFamilySummary, sorted: Seq<CloneDriftFinding>) -> bool {
    let m = summary_metrics(s);
    let rep = sorted[0];
    &&& sorted.len() >= 2
    &&& s.kind@ == "clone_family"@
    &&& strictly_sorted(s.files.deep_view())
    &&& s.files.deep_view().to_set() == member_files(sorted).to_set()
    &&& s.family_id@ == family_id_text(default_hash_of_texts(s.files.deep_view()))
    &&& s.severity == rep.severity
    &&& s.member_count == sorted.len()
    &&& s.file_count == s.files@.len()
    &&& s.representative_clone_id@ == rep.clone_id@
    &&& s.clone_ids.deep_view() == member_clone_ids(sorted)
    &&& (exists|e: Seq<(String, CloneFileSummary)>| summarizes(e, member_instances(sorted)) && m
        == family_metrics_of(e, member_file_lists(sorted).to_set().len() as usize))
    &&& s.family_score == family_score_of(rep.risk_score, s.member_count, s.divergence_score)
    &&& s.reasons.deep_view() == family_reasons_text(s.member_count, s.file_count, rep.risk_score, m)
    &&& s.summary@ == family_summary_text(s.member_count, s.file_count, m)
    &&& hints_match(
        s.remediation_hints@,
        family_hint_shapes(rep.severity, m, s.member_count, s.file_count),
        s.files@,
        s.clone_ids@,
    )
}

fn clone_ids_of(members: &Vec<CloneDriftFinding>) -> (r: Vec<String>)
    ensures
        r.deep_view() == member_clone_ids(members@),
{
    let mut r: Vec<String> = Vec::new();
    let mut i: usize = 0;
    while i < members.len()
        invariant
            i <= members@.len(),
            r.deep_view() == member_clone_ids(members@).take(i as int),
        decreases members@.len() - i,
    {
        push_line(&mut r, members[i].clone_id.clone());
        i = i + 1;
        assert(r.deep_view() =~= member_clone_ids(members@).take(i as int));
    }
    assert(member_clone_ids(members@).take(members@.len() as int) =~= member_clone_ids(members@));
    r
}

/// The summary of a family of two or more findings; `None` for fewer.
pub fn clone_family_summary(members: Vec<CloneDriftFinding>) -> (r: Option<CloneFamilySummary>)
    ensures
        r is Some <==> members@.len() >= 2,
        r matches Some(s) ==> exists|sorted: Seq<CloneDriftFinding>|
            ranked_order(sorted) && sorted.to_multiset() == members@.to_multiset() && describes_family(s, sorted),
{
    if members.len() < 2 {
        return None;
    }
    let members = sort_ranked(members);
    let files = family_file_list(&members);
    let family_id = clone_family_id(&files);
    let clone_ids = clone_ids_of(&members);
    let instances = family_instance_list(&members);
    let summaries = file_summaries(&instances);
    let distinct = distinct_file_set_count(&members);
    let m = clone_family_metrics(&summaries, distinct);
    let rep_risk = members[0].risk_score;
    let severity = members[0].severity;
    let member_count = members.len();
    let extra: u64 = if member_count - 1 < 3 {
        (member_count - 1) as u64
    } else {
        3
    };
    let total: u64 = rep_risk as u64 + 4 * extra + m.divergence_score as u64;
    let family_score: u32 = if total > u32::MAX as u64 {
        u32::MAX
    } else {
        total as u32
    };
    let file_count = files.len();
    let reasons = clone_family_reasons(member_count, file_count, rep_risk, &m);
    let summary = clone_family_summary_text(member_count, file_count, &m);
    let hints = clone_family_remediation_hints(severity, &m, member_count, file_count, &files, &clone_ids);
    let s = CloneFamilySummary {
        kind: "clone_family".to_string(),
        family_id,
        severity,
        family_score,
        divergence_score: m.divergence_score,
        member_count,
        file_count,
        distinct_file_set_count: m.distinct_file_set_count,
        mixed_file_sets: m.mixed_file_sets,
        commit_count_gap: m.commit_count_gap,
        age_days_gap: m.age_days_gap,
        representative_clone_id: members[0].clone_id.clone(),
        clone_ids,
        recently_touched_file_count: m.recently_touched_file_count,
        asymmetric_recent_change: m.asymmetric_recent_change,
        files,
        reasons,
        summary,
        remediation_hints: hints,
    };
    assert(summary_metrics(s) == m);
    assert(describes_family(s, members@));
    Some(s)
}

} // verus!
