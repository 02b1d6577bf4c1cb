//! Per-file history summaries of clone instances and the family-level
//! divergence measures built from them.
use crate::order::{sorted_unique, strictly_sorted};
use crate::text::{text_eq, Text};
use vstd::prelude::*;

verus! {

/// Edits within this many days count as recent.
pub const RECENT_AGE_DAYS: u32 = 30;

/// Seconds in one day.
pub const SECONDS_PER_DAY: i64 = 86_400;

/// One function of an exact clone group, with the history of its file.
pub struct CloneDriftInstance {
    pub file: String,
    pub func: String,
    pub lines: u32,
    pub commit_count: Option<u32>,
    pub age_days: Option<u32>,
    pub last_modified_epoch: Option<i64>,
}

impl Default for CloneDriftInstance {
    fn default() -> (r: Self)
        ensures
            r.file@.len() == 0,
            r.func@.len() == 0,
            r.lines == 0,
            r.commit_count is None,
            r.age_days is None,
            r.last_modified_epoch is None,
    {
        CloneDriftInstance {
            file: String::new(),
            func: String::new(),
            lines: 0,
            commit_count: None,
            age_days: None,
            last_modified_epoch: None,
        }
    }
}

impl Clone for CloneDriftInstance {
    fn clone(&self) -> (r: Self)
        ensures
            r == *self,
    {
        CloneDriftInstance {
            file: self.file.clone(),
            func: self.func.clone(),
            lines: self.lines,
            commit_count: self.commit_count,
            age_days: self.age_days,
            last_modified_epoch: self.last_modified_epoch,
        }
    }
}

/// The history of one clone file, merged over its instances.
#[derive(Clone, Copy)]
pub struct CloneFileSummary {
    pub commit_count: Option<u32>,
    pub age_days: Option<u32>,
    pub last_modified_epoch: Option<i64>,
}

/// A file was touched within the recent window.
pub open spec fn is_recent(age_days: Option<u32>) -> bool {
    age_days matches Some(a) && a <= RECENT_AGE_DAYS
}

/// The larger of the values present.
pub open spec fn max_present_u32(a: Option<u32>, b: Option<u32>) -> Option<u32> {
    match (a, b) {
        (Some(x), Some(y)) => Some(if x >= y { x } else { y }),
        (Some(x), None) => Some(x),
        (None, _) => b,
    }
}

/// The smaller of the values present.
pub open spec fn min_present_u32(a: Option<u32>, b: Option<u32>) -> Option<u32> {
    match (a, b) {
        (Some(x), Some(y)) => Some(if x <= y { x } else { y }),
        (Some(x), None) => Some(x),
        (None, _) => b,
    }
}

/// The larger of the values present.
pub open spec fn max_present_i64(a: Option<i64>, b: Option<i64>) -> Option<i64> {
    match (a, b) {
        (Some(x), Some(y)) => Some(if x >= y { x } else { y }),
        (Some(x), None) => Some(x),
        (None, _) => b,
    }
}

/// The smaller of the values present.
pub open spec fn min_present_i64(a: Option<i64>, b: Option<i64>) -> Option<i64> {
    match (a, b) {
        (Some(x), Some(y)) => Some(if x <= y { x } else { y }),
        (Some(x), None) => Some(x),
        (None, _) => b,
    }
}

fn max_u32(a: Option<u32>, b: Option<u32>) -> (r: Option<u32>)
    ensures
        r == max_present_u32(a, b),
{
    match (a, b) {
        (Some(x), Some(y)) => Some(if x >= y { x } else { y }),
        (Some(x), None) => Some(x),
        (None, _) => b,
    }
}

fn min_u32(a: Option<u32>, b: Option<u32>) -> (r: Option<u32>)
    ensures
        r == min_present_u32(a, b),
{
    match (a, b) {
        (Some(x), Some(y)) => Some(if x <= y { x } else { y }),
        (Some(x), None) => Some(x),
        (None, _) => b,
    }
}

fn max_i64(a: Option<i64>, b: Option<i64>) -> (r: Option<i64>)
    ensures
        r == max_present_i64(a, b),
{
    match (a, b) {
        (Some(x), Some(y)) => Some(if x >= y { x } else { y }),
        (Some(x), None) => Some(x),
        (None, _) => b,
    }
}

fn min_i64(a: Option<i64>, b: Option<i64>) -> (r: Option<i64>)
    ensures
        r == min_present_i64(a, b),
{
    match (a, b) {
        (Some(x), Some(y)) => Some(if x <= y { x } else { y }),
        (Some(x), None) => Some(x),
        (None, _) => b,
    }
}

/// The history of a single instance.
pub open spec fn instance_summary(i: CloneDriftInstance) -> CloneFileSummary {
    CloneFileSummary {
        commit_count: i.commit_count,
        age_days: i.age_days,
        last_modified_epoch: i.last_modified_epoch,
    }
}

/// Folds one more instance of the same file into a summary: most commits,
/// youngest age, latest modification.
pub open spec fn merge_summary(s: CloneFileSummary, i: CloneDriftInstance) -> CloneFileSummary {
    CloneFileSummary {
        commit_count: max_present_u32(s.commit_count, i.commit_count),
        age_days: min_present_u32(s.age_days, i.age_days),
        last_modified_epoch: max_present_i64(s.last_modified_epoch, i.last_modified_epoch),
    }
}

/// The merged history of the instances of `instances` whose file is `f`.
pub open spec fn summary_for(instances: Seq<CloneDriftInstance>, f: Text) -> Option<
    CloneFileSummary,
>
    decreases instances.len(),
{
    if instances.len() == 0 {
        None
    } else {
        let prev = summary_for(instances.drop_last(), f);
        let last = instances.last();
        if last.file@ == f {
            Some(
                match prev {
                    Some(s) => merge_summary(s, last),
                    None => instance_summary(last),
                },
            )
        } else {
            prev
        }
    }
}

/// The files of the instances.
pub open spec fn instance_files(instances: Seq<CloneDriftInstance>) -> Seq<Text> {
    instances.map_values(|i: CloneDriftInstance| i.file@)
}

/// The keys of file-keyed entries.
pub open spec fn entry_files(entries: Seq<(String, CloneFileSummary)>) -> Seq<Text> {
    entries.map_values(|e: (String, CloneFileSummary)| e.0@)
}

/// `entries` holds one summary per distinct instance file, in file order.
pub open spec fn summarizes(
    entries: Seq<(String, CloneFileSummary)>,
    instances: Seq<CloneDriftInstance>,
) -> bool {
    &&& strictly_sorted(entry_files(entries))
    &&& entry_files(entries).to_set() == instance_files(instances).to_set()
    &&& forall|k: int| 0 <= k < entries.len() ==> summary_for(instances, #[trigger] entries[k].0@) == Some(entries[k].1)
}

fn summary_of(instances: &Vec<CloneDriftInstance>, f: &str) -> (r: Option<CloneFileSummary>)
    ensures
        r == summary_for(instances@, f@),
{
    let mut acc: Option<CloneFileSummary> = None;
    let mut i: usize = 0;
    while i < instances.len()
        invariant
            i <= instances@.len(),
            acc == summary_for(instances@.take(i as int), f@),
        decreases instances@.len() - i,
    {
        assert(instances@.take(i + 1).drop_last() =~= instances@.take(i as int));
        let inst = &instances[i];
        if text_eq(inst.file.as_str(), f) {
            acc = Some(
                match acc {
                    Some(s) => CloneFileSummary {
                        commit_count: max_u32(s.commit_count, inst.commit_count),
                        age_days: min_u32(s.age_days, inst.age_days),
                        last_modified_epoch: max_i64(
                            s.last_modified_epoch,
                            inst.last_modified_epoch,
                        ),
                    },
                    None => CloneFileSummary {
                        commit_count: inst.commit_count,
                        age_days: inst.age_days,
                        last_modified_epoch: inst.last_modified_epoch,
                    },
                },
            );
        }
        i = i + 1;
    }
    assert(instances@.take(instances@.len() as int) =~= instances@);
    acc
}

proof fn lemma_summary_exists(instances: Seq<CloneDriftInstance>, f: Text)
    requires
        instance_files(instances).contains(f),
    ensures
        summary_for(instances, f) is Some,
    decreases instances.len(),
{
    let k = choose|k: int| 0 <= k < instance_files(instances).len() && instance_files(instances)[k] == f;
    if instances.last().file@ != f {
        assert(instance_files(instances.drop_last())[k] == f);
        lemma_summary_exists(instances.drop_last(), f);
    }
}

/// One merged history per distinct file of the instances, in file order.
pub fn file_summaries(instances: &Vec<CloneDriftInstance>) -> (r: Vec<(String, CloneFileSummary)>)
    ensures
        summarizes(r@, instances@),
{
    let mut files: Vec<String> = Vec::new();
    let mut i: usize = 0;
    while i < instances.len()
        invariant
            i <= instances@.len(),
            files.deep_view() == instance_files(instances@).take(i as int),
            files@.len() == i,
        decreases instances@.len() - i,
    {
        let ghost prev = files@;
        files.push(instances[i].file.clone());
        assert(files@ == prev.push(instances@[i as int].file));
        i = i + 1;
        assert forall|k: int| 0 <= k < i implies files.deep_view()[k] == instance_files(instances@).take(i as int)[k] by {
            if k < i - 1 {
                assert(files@[k] == prev[k]);
            }
        }
        assert(files.deep_view() =~= instance_files(instances@).take(i as int));
    }
    assert(instance_files(instances@).take(instances@.len() as int) =~= instance_files(instances@));
    let keys = sorted_unique(&files);
    let mut r: Vec<(String, CloneFileSummary)> = Vec::new();
    let mut j: usize = 0;
    while j < keys.len()
        invariant
            j <= keys@.len(),
            strictly_sorted(keys.deep_view()),
            keys.deep_view().to_set() == instance_files(instances@).to_set(),
            entry_files(r@) == keys.deep_view().take(j as int),
            r@.len() == j,
            forall|k: int| 0 <= k < r@.len() ==> summary_for(instances@, #[trigger] r@[k].0@) == Some(r@[k].1),
        decreases keys@.len() - j,
    {
        let key = keys[j].clone();
        proof {
            assert(keys.deep_view().to_set().contains(key@)) by {
                assert(keys.deep_view()[j as int] == key@);
            }
            lemma_summary_exists(instances@, key@);
        }
        let s = summary_of(instances, key.as_str());
        let ghost prev = r@;
        let ghost kv = key@;
        assert(kv == keys.deep_view()[j as int]);
        match s {
            Some(summary) => {
                r.push((key, summary));
            },
            None => {},
        }
        assert(r@.len() == prev.len() + 1);
        assert(r@[prev.len() as int].0@ == kv);
        assert forall|k: int| 0 <= k < prev.len() implies r@[k] == prev[k] by {}
        j = j + 1;
        assert(entry_files(r@) =~= keys.deep_view().take(j as int));
    }
    assert(keys.deep_view().take(keys@.len() as int) =~= keys.deep_view());
    r
}

/// A summarised file changed recently: it has commits or a recent edit.
pub open spec fn has_recent_activity(s: CloneFileSummary) -> bool {
    (s.commit_count matches Some(c) && c > 0) || is_recent(s.age_days)
}

/// How many summaries record a recent edit.
pub open spec fn count_recent(entries: Seq<(String, CloneFileSummary)>) -> nat
    decreases entries.len(),
{
    if entries.len() == 0 {
        0
    } else {
        count_recent(entries.drop_last()) + if is_recent(entries.last().1.age_days) {
            1nat
        } else {
            0
        }
    }
}

/// How many summaries show recent activity.
pub open spec fn count_active(entries: Seq<(String, CloneFileSummary)>) -> nat
    decreases entries.len(),
{
    if entries.len() == 0 {
        0
    } else {
        count_active(entries.drop_last()) + if has_recent_activity(entries.last().1) {
            1nat
        } else {
            0
        }
    }
}

proof fn lemma_counts_bounded(entries: Seq<(String, CloneFileSummary)>)
    ensures
        count_recent(entries) <= entries.len(),
        count_active(entries) <= entries.len(),
    decreases entries.len(),
{
    if entries.len() > 0 {
        lemma_counts_bounded(entries.drop_last());
    }
}

/// Both counts are at most the number of summaries.
pub proof fn lemma_counts_bounded_pub(entries: Seq<(String, CloneFileSummary)>)
    ensures
        count_recent(entries) <= entries.len(),
        count_active(entries) <= entries.len(),
{
    lemma_counts_bounded(entries);
}

/// Number of summaries with a recent edit.
pub fn recent_file_count(entries: &Vec<(String, CloneFileSummary)>) -> (n: usize)
    ensures
        n == count_recent(entries@),
{
    let mut n: usize = 0;
    let mut i: usize = 0;
    while i < entries.len()
        invariant
            i <= entries@.len(),
            n == count_recent(entries@.take(i as int)),
        decreases entries@.len() - i,
    {
        assert(entries@.take(i + 1).drop_last() =~= entries@.take(i as int));
        proof {
            lemma_counts_bounded(entries@.take(i as int));
        }
        if let Some(a) = entries[i].1.age_days {
            if a <= RECENT_AGE_DAYS {
                n = n + 1;
            }
        }
        i = i + 1;
    }
    assert(entries@.take(entries@.len() as int) =~= entries@);
    n
}

/// Number of summaries with recent activity.
pub fn active_file_count(entries: &Vec<(String, CloneFileSummary)>) -> (n: usize)
    ensures
        n == count_active(entries@),
{
    let mut n: usize = 0;
    let mut i: usize = 0;
    while i < entries.len()
        invariant
            i <= entries@.len(),
            n == count_active(entries@.take(i as int)),
        decreases entries@.len() - i,
    {
        assert(entries@.take(i + 1).drop_last() =~= entries@.take(i as int));
        proof {
            lemma_counts_bounded(entries@.take(i as int));
        }
        let s = entries[i].1;
        let commits = match s.commit_count {
            Some(c) => c,
            None => 0,
        };
        let recent = match s.age_days {
            Some(a) => a <= RECENT_AGE_DAYS,
            None => false,
        };
        if commits > 0 || recent {
            n = n + 1;
        }
        i = i + 1;
    }
    assert(entries@.take(entries@.len() as int) =~= entries@);
    n
}

/// Most commits over the summaries that record some.
pub open spec fn entries_max_commit(e: Seq<(String, CloneFileSummary)>) -> Option<u32>
    decreases e.len(),
{
    if e.len() == 0 {
        None
    } else {
        max_present_u32(entries_max_commit(e.drop_last()), e.last().1.commit_count)
    }
}

/// Fewest commits over the summaries that record some.
pub open spec fn entries_min_commit(e: Seq<(String, CloneFileSummary)>) -> Option<u32>
    decreases e.len(),
{
    if e.len() == 0 {
        None
    } else {
        min_present_u32(entries_min_commit(e.drop_last()), e.last().1.commit_count)
    }
}

/// Oldest age over the summaries that record one.
pub open spec fn entries_max_age(e: Seq<(String, CloneFileSummary)>) -> Option<u32>
    decreases e.len(),
{
    if e.len() == 0 {
        None
    } else {
        max_present_u32(entries_max_age(e.drop_last()), e.last().1.age_days)
    }
}

/// Youngest age over the summaries that record one.
pub open spec fn entries_min_age(e: Seq<(String, CloneFileSummary)>) -> Option<u32>
    decreases e.len(),
{
    if e.len() == 0 {
        None
    } else {
        min_present_u32(entries_min_age(e.drop_last()), e.last().1.age_days)
    }
}

/// Latest modification time over the summaries that record one.
pub open spec fn entries_max_epoch(e: Seq<(String, CloneFileSummary)>) -> Option<i64>
    decreases e.len(),
{
    if e.len() == 0 {
        None
    } else {
        max_present_i64(entries_max_epoch(e.drop_last()), e.last().1.last_modified_epoch)
    }
}

/// Earliest modification time over the summaries that record one.
pub open spec fn entries_min_epoch(e: Seq<(String, CloneFileSummary)>) -> Option<i64>
    decreases e.len(),
{
    if e.len() == 0 {
        None
    } else {
        min_present_i64(entries_min_epoch(e.drop_last()), e.last().1.last_modified_epoch)
    }
}

proof fn lemma_epoch_order(e: Seq<(String, CloneFileSummary)>)
    ensures
        entries_min_epoch(e) is Some <==> entries_max_epoch(e) is Some,
        entries_min_epoch(e) matches Some(lo) ==> entries_max_epoch(e) matches Some(hi) && lo
            <= hi,
    decreases e.len(),
{
    if e.len() > 0 {
        lemma_epoch_order(e.drop_last());
    }
}

/// Spread between the most and the fewest commits of the files.
pub open spec fn commit_gap(e: Seq<(String, CloneFileSummary)>) -> Option<u32> {
    match (entries_max_commit(e), entries_min_commit(e)) {
        (Some(hi), Some(lo)) => Some(if hi >= lo { (hi - lo) as u32 } else { 0 }),
        _ => None,
    }
}

/// Spread in days between the files' modification times, from timestamps when
/// they are known, else from their ages.
pub open spec fn age_gap_days(e: Seq<(String, CloneFileSummary)>) -> Option<u32> {
    match (entries_min_epoch(e), entries_max_epoch(e)) {
        (Some(lo), Some(hi)) => Some(
            (if hi - lo > i64::MAX {
                i64::MAX as int
            } else {
                hi - lo
            } / SECONDS_PER_DAY as int) as u32,
        ),
        _ => match (entries_max_age(e), entries_min_age(e)) {
            (Some(oldest), Some(youngest)) => Some(
                if oldest >= youngest {
                    (oldest - youngest) as u32
                } else {
                    0
                },
            ),
            _ => None,
        },
    }
}

/// Spread between the most and fewest commits over the file summaries.
pub fn file_commit_gap(entries: &Vec<(String, CloneFileSummary)>) -> (r: Option<u32>)
    ensures
        r == commit_gap(entries@),
{
    let mut hi: Option<u32> = None;
    let mut lo: Option<u32> = None;
    let mut i: usize = 0;
    while i < entries.len()
        invariant
            i <= entries@.len(),
            hi == entries_max_commit(entries@.take(i as int)),
            lo == entries_min_commit(entries@.take(i as int)),
        decreases entries@.len() - i,
    {
        assert(entries@.take(i + 1).drop_last() =~= entries@.take(i as int));
        hi = max_u32(hi, entries[i].1.commit_count);
        lo = min_u32(lo, entries[i].1.commit_count);
        i = i + 1;
    }
    assert(entries@.take(entries@.len() as int) =~= entries@);
    match (hi, lo) {
        (Some(h), Some(l)) => Some(h.saturating_sub(l)),
        _ => None,
    }
}

/// Spread in days of the files' modification history (see `age_gap_days`).
pub fn file_age_gap_days(entries: &Vec<(String, CloneFileSummary)>) -> (r: Option<u32>)
    ensures
        r == age_gap_days(entries@),
{
    let mut youngest: Option<u32> = None;
    let mut oldest: Option<u32> = None;
    let mut oldest_epoch: Option<i64> = None;
    let mut newest_epoch: Option<i64> = None;
    let mut i: usize = 0;
    while i < entries.len()
        invariant
            i <= entries@.len(),
            youngest == entries_min_age(entries@.take(i as int)),
            oldest == entries_max_age(entries@.take(i as int)),
            oldest_epoch == entries_min_epoch(entries@.take(i as int)),
            newest_epoch == entries_max_epoch(entries@.take(i as int)),
        decreases entries@.len() - i,
    {
        assert(entries@.take(i + 1).drop_last() =~= entries@.take(i as int));
        let s = entries[i].1;
        youngest = min_u32(youngest, s.age_days);
        oldest = max_u32(oldest, s.age_days);
        oldest_epoch = min_i64(oldest_epoch, s.last_modified_epoch);
        newest_epoch = max_i64(newest_epoch, s.last_modified_epoch);
        i = i + 1;
    }
    assert(entries@.take(entries@.len() as int) =~= entries@);
    proof {
        lemma_epoch_order(entries@);
    }
    if let (Some(lo), Some(hi)) = (oldest_epoch, newest_epoch) {
        let wide: i128 = (hi as i128) - (lo as i128);
        let diff: i64 = if wide > (i64::MAX as i128) {
            i64::MAX
        } else {
            wide as i64
        };
        let days = diff / SECONDS_PER_DAY;
        return Some(days as u32);
    }
    match (oldest, youngest) {
        (Some(o), Some(y)) => Some(o.saturating_sub(y)),
        _ => None,
    }
}

} // verus!
