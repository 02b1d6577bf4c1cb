//! Exact clone groups turned into drift findings: which groups qualify, how
//! their instances are ordered, and how their risk is scored.
use crate::clone_activity::{
    active_file_count, count_active, count_recent, file_summaries, lemma_counts_bounded_pub, min_present_u32,
    recent_file_count, summarizes, CloneDriftInstance, CloneFileSummary, RECENT_AGE_DAYS,
};
use crate::evolution::{lookup, lookup_entry, EvolutionReport};
use crate::order::{lemma_lex_asymmetric, lemma_lex_total, lemma_lex_transitive, lex_lt, sorted_unique, strictly_sorted, text_less};
use crate::paths::{is_test_file, is_test_path};
use crate::sorting::{sort_ranked, ranked_order, Ranked};
use crate::text::{dec, decimal, hex, hex_with_prefix, text_eq, zero_pad, Text};
use crate::FindingSeverity;
use vstd::prelude::*;

verus! {

/// Clone groups whose largest instance is shorter than this are ignored.
pub const MIN_CLONE_LINES: u32 = 3;

/// A set of functions with identical normalized bodies: `(file, function, lines)`.
#[derive(Debug, Clone)]
pub struct DuplicateGroup {
    pub hash: u64,
    pub instances: Vec<(String, String, u32)>,
}

/// An exact clone group that spans files, with its history and risk.
pub struct CloneDriftFinding {
    pub kind: String,
    pub clone_id: String,
    pub severity: FindingSeverity,
    pub instance_count: usize,
    pub production_instance_count: usize,
    pub total_lines: u32,
    pub max_lines: u32,
    pub risk_score: u32,
    pub max_commit_count: u32,
    pub recently_touched_file_count: usize,
    pub youngest_age_days: Option<u32>,
    pub asymmetric_recent_change: bool,
    pub files: Vec<String>,
    pub reasons: Vec<String>,
    pub summary: String,
    pub instances: Vec<CloneDriftInstance>,
}

impl Default for CloneDriftFinding {
    fn default() -> (r: Self)
        ensures
            r.kind@.len() == 0,
            r.clone_id@.len() == 0,
            r.severity == FindingSeverity::Low,
            r.instance_count == 0,
            r.production_instance_count == 0,
            r.total_lines == 0,
            r.max_lines == 0,
            r.risk_score == 0,
            r.max_commit_count == 0,
            r.recently_touched_file_count == 0,
            r.youngest_age_days is None,
            !r.asymmetric_recent_change,
            r.files@.len() == 0,
            r.reasons@.len() == 0,
            r.summary@.len() == 0,
            r.instances@.len() == 0,
    {
        CloneDriftFinding {
            kind: String::new(),
            clone_id: String::new(),
            severity: FindingSeverity::Low,
            instance_count: 0,
            production_instance_count: 0,
            total_lines: 0,
            max_lines: 0,
            risk_score: 0,
            max_commit_count: 0,
            recently_touched_file_count: 0,
            youngest_age_days: None,
            asymmetric_recent_change: false,
            files: Vec::new(),
            reasons: Vec::new(),
            summary: String::new(),
            instances: Vec::new(),
        }
    }
}

/// Copies of each element, equal to the originals.
pub fn copy_instances(v: &Vec<CloneDriftInstance>) -> (r: Vec<CloneDriftInstance>)
    ensures
        r@ == v@,
{
    let mut r: Vec<CloneDriftInstance> = Vec::new();
    let mut i: usize = 0;
    while i < v.len()
        invariant
            i <= v@.len(),
            r@ == v@.take(i as int),
        decreases v@.len() - i,
    {
        r.push(v[i].clone());
        i = i + 1;
        assert(r@ =~= v@.take(i as int));
    }
    assert(v@.take(v@.len() as int) =~= v@);
    r
}

/// Copies of each string, equal to the originals.
pub fn copy_strings(v: &Vec<String>) -> (r: Vec<String>)
    ensures
        r@ == v@,
{
    let mut r: Vec<String> = Vec::new();
    let mut i: usize = 0;
    while i < v.len()
        invariant
            i <= v@.len(),
            r@ == v@.take(i as int),
        decreases v@.len() - i,
    {
        r.push(v[i].clone());
        i = i + 1;
        assert(r@ =~= v@.take(i as int));
    }
    assert(v@.take(v@.len() as int) =~= v@);
    r
}

/// Two findings carry the same values.
pub open spec fn same_finding(a: CloneDriftFinding, b: CloneDriftFinding) -> bool {
    &&& a.kind == b.kind
    &&& a.clone_id == b.clone_id
    &&& a.severity == b.severity
    &&& a.instance_count == b.instance_count
    &&& a.production_instance_count == b.production_instance_count
    &&& a.total_lines == b.total_lines
    &&& a.max_lines == b.max_lines
    &&& a.risk_score == b.risk_score
    &&& a.max_commit_count == b.max_commit_count
    &&& a.recently_touched_file_count == b.recently_touched_file_count
    &&& a.youngest_age_days == b.youngest_age_days
    &&& a.asymmetric_recent_change == b.asymmetric_recent_change
    &&& a.files@ == b.files@
    &&& a.reasons@ == b.reasons@
    &&& a.summary == b.summary
    &&& a.instances@ == b.instances@
}

impl Clone for CloneDriftFinding {
    fn clone(&self) -> (r: Self)
        ensures
            same_finding(r, *self),
    {
        CloneDriftFinding {
            kind: self.kind.clone(),
            clone_id: self.clone_id.clone(),
            severity: self.severity,
            instance_count: self.instance_count,
            production_instance_count: self.production_instance_count,
            total_lines: self.total_lines,
            max_lines: self.max_lines,
            risk_score: self.risk_score,
            max_commit_count: self.max_commit_count,
            recently_touched_file_count: self.recently_touched_file_count,
            youngest_age_days: self.youngest_age_days,
            asymmetric_recent_change: self.asymmetric_recent_change,
            files: copy_strings(&self.files),
            reasons: copy_strings(&self.reasons),
            summary: self.summary.clone(),
            instances: copy_instances(&self.instances),
        }
    }
}

/// The files of a group's instances.
pub open spec fn group_files(s: Seq<(String, String, u32)>) -> Seq<Text> {
    s.map_values(|t: (String, String, u32)| t.0@)
}

/// Largest instance, in lines (0 for no instance).
pub open spec fn group_max_lines(s: Seq<(String, String, u32)>) -> u32
    decreases s.len(),
{
    if s.len() == 0 {
        0
    } else {
        let m = group_max_lines(s.drop_last());
        if s.last().2 > m {
            s.last().2
        } else {
            m
        }
    }
}

/// Total lines of a group's instances.
pub open spec fn group_total_lines(s: Seq<(String, String, u32)>) -> nat
    decreases s.len(),
{
    if s.len() == 0 {
        0
    } else {
        group_total_lines(s.drop_last()) + s.last().2 as nat
    }
}

/// How many instances live outside test files.
pub open spec fn production_count(s: Seq<(String, String, u32)>) -> nat
    decreases s.len(),
{
    if s.len() == 0 {
        0
    } else {
        production_count(s.drop_last()) + if is_test_path(s.last().0@) {
            0nat
        } else {
            1
        }
    }
}

/// A group qualifies for a finding: it spans two or more files, one instance is
/// production code, and its largest instance reaches the minimum size.
pub open spec fn group_qualifies(g: DuplicateGroup) -> bool {
    &&& group_files(g.instances@).to_set().len() > 1
    &&& production_count(g.instances@) > 0
    &&& group_max_lines(g.instances@) >= MIN_CLONE_LINES
}

/// The instance record of `(file, function, lines)` with the file's history.
pub open spec fn drift_instance(t: (String, String, u32), evolution: Option<EvolutionReport>) -> CloneDriftInstance {
    CloneDriftInstance {
        file: t.0,
        func: t.1,
        lines: t.2,
        commit_count: match evolution {
            Some(e) => match lookup(e.churn@, t.0@) {
                Some(c) => Some(c.commit_count),
                None => None,
            },
            None => None,
        },
        age_days: match evolution {
            Some(e) => lookup(e.code_age@, t.0@),
            None => None,
        },
        last_modified_epoch: match evolution {
            Some(e) => lookup(e.last_modified_epoch@, t.0@),
            None => None,
        },
    }
}

impl Ranked for CloneDriftInstance {
    /// By file, then function, then size.
    open spec fn ranks_before(self, other: Self) -> bool {
        ||| lex_lt(self.file@, other.file@)
        ||| (self.file@ == other.file@ && lex_lt(self.func@, other.func@))
        ||| (self.file@ == other.file@ && self.func@ == other.func@ && self.lines < other.lines)
    }

    fn is_ranked_before(&self, other: &Self) -> (r: bool) {
        if text_less(self.file.as_str(), other.file.as_str()) {
            return true;
        }
        if !text_eq(self.file.as_str(), other.file.as_str()) {
            return false;
        }
        if text_less(self.func.as_str(), other.func.as_str()) {
            return true;
        }
        text_eq(self.func.as_str(), other.func.as_str()) && self.lines < other.lines
    }

    proof fn lemma_ranking_irreflexive(a: Self) {
    }

    proof fn lemma_ranking_transitive(a: Self, b: Self, c: Self) {
        if lex_lt(a.file@, b.file@) && lex_lt(b.file@, c.file@) {
            lemma_lex_transitive(a.file@, b.file@, c.file@);
        }
        if lex_lt(a.func@, b.func@) && lex_lt(b.func@, c.func@) {
            lemma_lex_transitive(a.func@, b.func@, c.func@);
        }
    }

    proof fn lemma_ranking_connected(a: Self, b: Self, c: Self) {
        lemma_lex_total(a.file@, b.file@);
        lemma_lex_total(b.file@, c.file@);
        lemma_lex_total(a.func@, b.func@);
        lemma_lex_total(b.func@, c.func@);
        if lex_lt(b.file@, a.file@) && lex_lt(c.file@, b.file@) {
            lemma_lex_transitive(c.file@, b.file@, a.file@);
            lemma_lex_asymmetric(c.file@, a.file@);
        }
        if lex_lt(b.file@, a.file@) && b.file@ == c.file@ {
            lemma_lex_asymmetric(b.file@, a.file@);
        }
        if a.file@ == b.file@ && lex_lt(c.file@, b.file@) {
            lemma_lex_asymmetric(c.file@, b.file@);
        }
        if lex_lt(b.func@, a.func@) && lex_lt(c.func@, b.func@) {
            lemma_lex_transitive(c.func@, b.func@, a.func@);
            lemma_lex_asymmetric(c.func@, a.func@);
        }
        if lex_lt(b.func@, a.func@) && b.func@ == c.func@ {
            lemma_lex_asymmetric(b.func@, a.func@);
        }
        if a.func@ == b.func@ && lex_lt(c.func@, b.func@) {
            lemma_lex_asymmetric(c.func@, b.func@);
        }
    }
}

/// Most commits recorded over the instances (0 when none is recorded).
pub open spec fn instances_max_commit(s: Seq<CloneDriftInstance>) -> u32
    decreases s.len(),
{
    if s.len() == 0 {
        0
    } else {
        let m = instances_max_commit(s.drop_last());
        match s.last().commit_count {
            Some(c) => if c > m { c } else { m },
            None => m,
        }
    }
}

/// Youngest age recorded over the instances.
pub open spec fn instances_min_age(s: Seq<CloneDriftInstance>) -> Option<u32>
    decreases s.len(),
{
    if s.len() == 0 {
        None
    } else {
        min_present_u32(instances_min_age(s.drop_last()), s.last().age_days)
    }
}

/// Risk of a clone group: size times copies, plus churn, recency and asymmetry
/// bonuses, each step saturating at `u32::MAX`.
pub open spec fn clone_risk(
    instance_count: usize,
    max_lines: u32,
    max_commit_count: u32,
    recently_touched: usize,
    asymmetric: bool,
) -> u32 {
    let base = sat32((instance_count as u32) * max_lines);
    let churn = sat32(max_commit_count * 4);
    let recent = sat32((recently_touched as u32) * 3);
    let asym: u32 = if asymmetric { 12 } else { 0 };
    sat32(sat32(sat32(base + churn) + recent) + asym)
}

/// `x` clamped to `u32::MAX`.
pub open spec fn sat32(x: int) -> u32 {
    if x > u32::MAX { u32::MAX } else { x as u32 }
}

/// Severity of a clone group.
pub open spec fn clone_severity(
    instance_count: usize,
    production_count: usize,
    max_lines: u32,
    max_commit_count: u32,
    asymmetric: bool,
) -> FindingSeverity {
    if max_lines >= 20 || (production_count >= 2 && max_lines >= 10 && (asymmetric
        || max_commit_count >= 3)) || (instance_count >= 3 && max_lines >= 8) {
        FindingSeverity::High
    } else if max_lines >= 8 || (asymmetric && max_commit_count >= 1) || (instance_count >= 3
        && max_lines >= 5) {
        FindingSeverity::Medium
    } else {
        FindingSeverity::Low
    }
}

/// The identifier of a clone group: `clone-` and the hash as `{:#016x}` writes it.
pub open spec fn clone_id_text(hash: u64) -> Text {
    "clone-"@ + seq!['0', 'x'] + zero_pad(hex(hash as nat), 14)
}

/// The one-line summary of a clone group.
pub open spec fn clone_summary_text(instance_count: usize, asymmetric: bool, max_commit_count: u32) -> Text {
    if asymmetric {
        dec(instance_count as nat)
            + " functions share an identical normalized body and recent edits are asymmetric across clone files"@
    } else if max_commit_count > 0 {
        dec(instance_count as nat)
            + " functions share an identical normalized body across recently changed files"@
    } else {
        dec(instance_count as nat) + " functions share an identical normalized body"@
    }
}

/// The reasons listed for a clone group.
pub open spec fn clone_reasons_text(
    file_count: usize,
    max_lines: u32,
    max_commit_count: u32,
    recently_touched: usize,
    youngest: Option<u32>,
    asymmetric: bool,
) -> Seq<Text> {
    let base = seq![
        "identical logic spans "@ + dec(file_count as nat) + " files"@,
        "largest clone instance is "@ + dec(max_lines as nat) + " lines"@,
    ];
    let a = if max_commit_count > 0 {
        base.push(
            "at least one clone file changed in "@ + dec(max_commit_count as nat)
                + " recent commit(s)"@,
        )
    } else {
        base
    };
    let b = if recently_touched > 0 {
        a.push(
            dec(recently_touched as nat) + " clone file(s) changed within the last "@ + dec(
                RECENT_AGE_DAYS as nat,
            ) + " day(s)"@,
        )
    } else {
        a
    };
    let c = match youngest {
        Some(age) => b.push("youngest clone file was touched "@ + dec(age as nat) + " day(s) ago"@),
        None => b,
    };
    if asymmetric {
        c.push("recent activity is uneven across clone instances"@)
    } else {
        c
    }
}

/// `f` is the finding that `g` yields with history `evolution`.
pub open spec fn is_drift_finding_of(
    f: CloneDriftFinding,
    g: DuplicateGroup,
    evolution: Option<EvolutionReport>,
) -> bool {
    let s = g.instances@;
    let summaries_exist = exists|e: Seq<(String, CloneFileSummary)>| summarizes(e, f.instances@)
        && f.recently_touched_file_count == count_recent(e) && f.asymmetric_recent_change == (
        count_active(e) > 0 && e.len() - count_active(e) > 0);
    &&& f.kind@ == "exact_clone_group"@
    &&& f.clone_id@ == clone_id_text(g.hash)
    &&& f.instance_count == s.len()
    &&& f.production_instance_count == production_count(s)
    &&& f.total_lines == group_total_lines(s)
    &&& f.max_lines == group_max_lines(s)
    &&& strictly_sorted(f.files.deep_view())
    &&& f.files.deep_view().to_set() == group_files(s).to_set()
    &&& ranked_order(f.instances@)
    &&& f.instances@.to_multiset() == s.map_values(
        |t: (String, String, u32)| drift_instance(t, evolution),
    ).to_multiset()
    &&& f.max_commit_count == instances_max_commit(f.instances@)
    &&& f.youngest_age_days == instances_min_age(f.instances@)
    &&& summaries_exist
    &&& f.risk_score == clone_risk(
        f.instance_count,
        f.max_lines,
        f.max_commit_count,
        f.recently_touched_file_count,
        f.asymmetric_recent_change,
    )
    &&& f.severity == clone_severity(
        f.instance_count,
        f.production_instance_count,
        f.max_lines,
        f.max_commit_count,
        f.asymmetric_recent_change,
    )
    &&& f.reasons.deep_view() == clone_reasons_text(
        f.files@.len() as usize,
        f.max_lines,
        f.max_commit_count,
        f.recently_touched_file_count,
        f.youngest_age_days,
        f.asymmetric_recent_change,
    )
    &&& f.summary@ == clone_summary_text(
        f.instance_count,
        f.asymmetric_recent_change,
        f.max_commit_count,
    )
}


/// The report behind an optional reference.
pub open spec fn report_of(e: Option<&EvolutionReport>) -> Option<EvolutionReport> {
    match e {
        Some(r) => Some(*r),
        None => None,
    }
}

fn group_file_list(g: &DuplicateGroup) -> (r: Vec<String>)
    ensures
        strictly_sorted(r.deep_view()),
        r.deep_view().to_set() == group_files(g.instances@).to_set(),
{
    let mut files: Vec<String> = Vec::new();
    let mut i: usize = 0;
    while i < g.instances.len()
        invariant
            i <= g.instances@.len(),
            files@.len() == i,
            files.deep_view() == group_files(g.instances@).take(i as int),
        decreases g.instances@.len() - i,
    {
        let ghost prev = files@;
        files.push(g.instances[i].0.clone());
        i = i + 1;
        assert forall|k: int| 0 <= k < i implies files.deep_view()[k] == group_files(g.instances@).take(i as int)[k] by {
            if k < i - 1 {
                assert(files@[k] == prev[k]);
            }
        }
        assert(files.deep_view() =~= group_files(g.instances@).take(i as int));
    }
    assert(group_files(g.instances@).take(g.instances@.len() as int) =~= group_files(g.instances@));
    sorted_unique(&files)
}

fn max_lines_of(s: &Vec<(String, String, u32)>) -> (m: u32)
    ensures
        m == group_max_lines(s@),
{
    let mut m: u32 = 0;
    let mut i: usize = 0;
    while i < s.len()
        invariant
            i <= s@.len(),
            m == group_max_lines(s@.take(i as int)),
        decreases s@.len() - i,
    {
        assert(s@.take(i + 1).drop_last() =~= s@.take(i as int));
        if s[i].2 > m {
            m = s[i].2;
        }
        i = i + 1;
    }
    assert(s@.take(s@.len() as int) =~= s@);
    m
}

proof fn lemma_total_lines_monotone(s: Seq<(String, String, u32)>, i: int)
    requires
        0 <= i <= s.len(),
    ensures
        group_total_lines(s.take(i)) <= group_total_lines(s),
    decreases s.len() - i,
{
    if i < s.len() {
        lemma_total_lines_monotone(s, i + 1);
        assert(s.take(i + 1).drop_last() =~= s.take(i));
    } else {
        assert(s.take(i) =~= s);
    }
}

fn total_lines_of(s: &Vec<(String, String, u32)>) -> (t: u32)
    requires
        group_total_lines(s@) <= u32::MAX,
    ensures
        t == group_total_lines(s@),
{
    let mut t: u32 = 0;
    let mut i: usize = 0;
    while i < s.len()
        invariant
            i <= s@.len(),
            t == group_total_lines(s@.take(i as int)),
            group_total_lines(s@) <= u32::MAX,
        decreases s@.len() - i,
    {
        assert(s@.take(i + 1).drop_last() =~= s@.take(i as int));
        proof {
            lemma_total_lines_monotone(s@, i + 1);
        }
        t = t + s[i].2;
        i = i + 1;
    }
    assert(s@.take(s@.len() as int) =~= s@);
    t
}

proof fn lemma_production_bounded(s: Seq<(String, String, u32)>)
    ensures
        production_count(s) <= s.len(),
    decreases s.len(),
{
    if s.len() > 0 {
        lemma_production_bounded(s.drop_last());
    }
}

fn production_count_of(s: &Vec<(String, String, u32)>) -> (n: usize)
    ensures
        n == production_count(s@),
{
    let mut n: usize = 0;
    let mut i: usize = 0;
    while i < s.len()
        invariant
            i <= s@.len(),
            n == production_count(s@.take(i as int)),
        decreases s@.len() - i,
    {
        assert(s@.take(i + 1).drop_last() =~= s@.take(i as int));
        proof {
            lemma_production_bounded(s@.take(i as int));
        }
        if !is_test_file(s[i].0.as_str()) {
            n = n + 1;
        }
        i = i + 1;
    }
    assert(s@.take(s@.len() as int) =~= s@);
    n
}

fn build_instance(t: &(String, String, u32), evolution: Option<&EvolutionReport>) -> (r: CloneDriftInstance)
    ensures
        r == drift_instance(*t, report_of(evolution)),
{
    let (commit_count, age_days, last_modified_epoch) = match evolution {
        Some(e) => (
            match lookup_entry(&e.churn, t.0.as_str()) {
                Some(c) => Some(c.commit_count),
                None => None,
            },
            lookup_entry(&e.code_age, t.0.as_str()),
            lookup_entry(&e.last_modified_epoch, t.0.as_str()),
        ),
        None => (None, None, None),
    };
    CloneDriftInstance {
        file: t.0.clone(),
        func: t.1.clone(),
        lines: t.2,
        commit_count,
        age_days,
        last_modified_epoch,
    }
}

fn build_instances(g: &DuplicateGroup, evolution: Option<&EvolutionReport>) -> (r: Vec<CloneDriftInstance>)
    ensures
        ranked_order(r@),
        r@.to_multiset() == g.instances@.map_values(
            |t: (String, String, u32)| drift_instance(t, report_of(evolution)),
        ).to_multiset(),
{
    let ghost mapped = g.instances@.map_values(
        |t: (String, String, u32)| drift_instance(t, report_of(evolution)),
    );
    let mut v: Vec<CloneDriftInstance> = Vec::new();
    let mut i: usize = 0;
    while i < g.instances.len()
        invariant
            i <= g.instances@.len(),
            mapped == g.instances@.map_values(
                |t: (String, String, u32)| drift_instance(t, report_of(evolution)),
            ),
            v@ == mapped.take(i as int),
        decreases g.instances@.len() - i,
    {
        v.push(build_instance(&g.instances[i], evolution));
        i = i + 1;
        assert(v@ =~= mapped.take(i as int));
    }
    assert(mapped.take(g.instances@.len() as int) =~= mapped);
    sort_ranked(v)
}

fn max_commit_of(s: &Vec<CloneDriftInstance>) -> (m: u32)
    ensures
        m == instances_max_commit(s@),
{
    let mut m: u32 = 0;
    let mut i: usize = 0;
    while i < s.len()
        invariant
            i <= s@.len(),
            m == instances_max_commit(s@.take(i as int)),
        decreases s@.len() - i,
    {
        assert(s@.take(i + 1).drop_last() =~= s@.take(i as int));
        if let Some(c) = s[i].commit_count {
            if c > m {
                m = c;
            }
        }
        i = i + 1;
    }
    assert(s@.take(s@.len() as int) =~= s@);
    m
}

fn min_age_of(s: &Vec<CloneDriftInstance>) -> (m: Option<u32>)
    ensures
        m == instances_min_age(s@),
{
    let mut m: Option<u32> = None;
    let mut i: usize = 0;
    while i < s.len()
        invariant
            i <= s@.len(),
            m == instances_min_age(s@.take(i as int)),
        decreases s@.len() - i,
    {
        assert(s@.take(i + 1).drop_last() =~= s@.take(i as int));
        m = match (m, s[i].age_days) {
            (Some(x), Some(y)) => Some(if x <= y { x } else { y }),
            (Some(x), None) => Some(x),
            (None, b) => b,
        };
        i = i + 1;
    }
    assert(s@.take(s@.len() as int) =~= s@);
    m
}

/// `a * b`, clamped to `u32::MAX`.
pub fn saturating_product(a: u32, b: u32) -> (r: u32)
    ensures
        r == sat32(a * b),
{
    assert((a as u64) * (b as u64) <= u64::MAX) by (nonlinear_arith)
        requires
            a <= u32::MAX,
            b <= u32::MAX,
    ;
    let wide: u64 = (a as u64) * (b as u64);
    if wide > (u32::MAX as u64) {
        u32::MAX
    } else {
        wide as u32
    }
}

/// Risk score of a clone group (see `clone_risk`).
pub fn clone_risk_score(
    instance_count: usize,
    max_lines: u32,
    max_commit_count: u32,
    recently_touched: usize,
    asymmetric: bool,
) -> (r: u32)
    ensures
        r == clone_risk(instance_count, max_lines, max_commit_count, recently_touched, asymmetric),
{
    let base = saturating_product(instance_count as u32, max_lines);
    let churn_bonus = saturating_product(max_commit_count, 4);
    let recent_bonus = saturating_product(recently_touched as u32, 3);
    let asymmetry_bonus: u32 = if asymmetric { 12 } else { 0 };
    base.saturating_add(churn_bonus).saturating_add(recent_bonus).saturating_add(asymmetry_bonus)
}

/// Severity of a clone group (see `clone_severity`).
pub fn clone_group_severity(
    instance_count: usize,
    production_count: usize,
    max_lines: u32,
    max_commit_count: u32,
    asymmetric: bool,
) -> (r: FindingSeverity)
    ensures
        r == clone_severity(instance_count, production_count, max_lines, max_commit_count, asymmetric),
{
    if max_lines >= 20 || (production_count >= 2 && max_lines >= 10 && (asymmetric
        || max_commit_count >= 3)) || (instance_count >= 3 && max_lines >= 8) {
        FindingSeverity::High
    } else if max_lines >= 8 || (asymmetric && max_commit_count >= 1) || (instance_count >= 3
        && max_lines >= 5) {
        FindingSeverity::Medium
    } else {
        FindingSeverity::Low
    }
}

/// The identifier of a clone group (see `clone_id_text`).
pub fn clone_id(hash: u64) -> (r: String)
    ensures
        r@ == clone_id_text(hash),
{
    let mut r = String::new();
    r.append("clone-");
    let h = hex_with_prefix(hash, 16);
    r.append(h.as_str());
    r
}

fn clone_summary(instance_count: usize, asymmetric: bool, max_commit_count: u32) -> (r: String)
    ensures
        r@ == clone_summary_text(instance_count, asymmetric, max_commit_count),
{
    let mut r = decimal(instance_count as u64);
    if asymmetric {
        r.append(" functions share an identical normalized body and recent edits are asymmetric across clone files");
    } else if max_commit_count > 0 {
        r.append(" functions share an identical normalized body across recently changed files");
    } else {
        r.append(" functions share an identical normalized body");
    }
    r
}

fn phrase(a: &str, n: u64, b: &str) -> (r: String)
    ensures
        r@ == a@ + dec(n as nat) + b@,
{
    let mut r = a.to_string();
    let d = decimal(n);
    r.append(d.as_str());
    r.append(b);
    r
}

fn clone_reasons(
    file_count: usize,
    max_lines: u32,
    max_commit_count: u32,
    recently_touched: usize,
    youngest: Option<u32>,
    asymmetric: bool,
) -> (r: Vec<String>)
    ensures
        r.deep_view() == clone_reasons_text(
            file_count,
            max_lines,
            max_commit_count,
            recently_touched,
            youngest,
            asymmetric,
        ),
{
    let mut r: Vec<String> = Vec::new();
    r.push(phrase("identical logic spans ", file_count as u64, " files"));
    r.push(phrase("largest clone instance is ", max_lines as u64, " lines"));
    if max_commit_count > 0 {
        r.push(phrase("at least one clone file changed in ", max_commit_count as u64, " recent commit(s)"));
    }
    if recently_touched > 0 {
        let mut t = decimal(recently_touched as u64);
        t.append(" clone file(s) changed within the last ");
        let d = decimal(RECENT_AGE_DAYS as u64);
        t.append(d.as_str());
        t.append(" day(s)");
        r.push(t);
    }
    if let Some(age) = youngest {
        r.push(phrase("youngest clone file was touched ", age as u64, " day(s) ago"));
    }
    if asymmetric {
        r.push("recent activity is uneven across clone instances".to_string());
    }
    assert(r.deep_view() =~= clone_reasons_text(
        file_count,
        max_lines,
        max_commit_count,
        recently_touched,
        youngest,
        asymmetric,
    ));
    r
}

proof fn lemma_distinct_count(s: Seq<Text>, sorted: Seq<Text>)
    requires
        strictly_sorted(sorted),
        sorted.to_set() == s.to_set(),
    ensures
        sorted.len() == s.to_set().len(),
{
    crate::order::lemma_sorted_no_duplicates(sorted);
    sorted.unique_seq_to_set();
}

proof fn lemma_production_exists(s: Seq<(String, String, u32)>)
    ensures
        production_count(s) > 0 <==> exists|i: int| 0 <= i < s.len() && !is_test_path(#[trigger] s[i].0@),
    decreases s.len(),
{
    if s.len() > 0 {
        lemma_production_exists(s.drop_last());
        if exists|i: int| 0 <= i < s.len() && !is_test_path(#[trigger] s[i].0@) {
            let i = choose|i: int| 0 <= i < s.len() && !is_test_path(#[trigger] s[i].0@);
            if i < s.len() - 1 {
                assert(s.drop_last()[i] == s[i]);
            }
        }
        if exists|i: int| 0 <= i < s.drop_last().len() && !is_test_path(#[trigger] s.drop_last()[i].0@) {
            let i = choose|i: int| 0 <= i < s.drop_last().len() && !is_test_path(#[trigger] s.drop_last()[i].0@);
            assert(s[i] == s.drop_last()[i]);
        }
    }
}

/// The drift finding of one duplicate group, if the group qualifies.
pub fn clone_drift_finding(g: &DuplicateGroup, evolution: Option<&EvolutionReport>) -> (r: Option<
    CloneDriftFinding,
>)
    requires
        group_total_lines(g.instances@) <= u32::MAX,
    ensures
        r is Some <==> group_qualifies(*g),
        r matches Some(f) ==> is_drift_finding_of(f, *g, report_of(evolution)),
{
    let files = group_file_list(g);
    proof {
        lemma_distinct_count(group_files(g.instances@), files.deep_view());
    }
    if files.len() <= 1 {
        return None;
    }
    let production_instance_count = production_count_of(&g.instances);
    if production_instance_count == 0 {
        return None;
    }
    let max_lines = max_lines_of(&g.instances);
    if max_lines < MIN_CLONE_LINES {
        return None;
    }
    let instance_count = g.instances.len();
    let total_lines = total_lines_of(&g.instances);
    let instances = build_instances(g, evolution);
    let summaries = file_summaries(&instances);
    let max_commit_count = max_commit_of(&instances);
    let youngest_age_days = min_age_of(&instances);
    let recently_touched_file_count = recent_file_count(&summaries);
    let active = active_file_count(&summaries);
    proof {
        lemma_counts_bounded_pub(summaries@);
    }
    let inactive = summaries.len() - active;
    let asymmetric_recent_change = active > 0 && inactive > 0;
    let risk_score = clone_risk_score(
        instance_count,
        max_lines,
        max_commit_count,
        recently_touched_file_count,
        asymmetric_recent_change,
    );
    let severity = clone_group_severity(
        instance_count,
        production_instance_count,
        max_lines,
        max_commit_count,
        asymmetric_recent_change,
    );
    let reasons = clone_reasons(
        files.len(),
        max_lines,
        max_commit_count,
        recently_touched_file_count,
        youngest_age_days,
        asymmetric_recent_change,
    );
    let summary = clone_summary(instance_count, asymmetric_recent_change, max_commit_count);
    let f = CloneDriftFinding {
        kind: "exact_clone_group".to_string(),
        clone_id: clone_id(g.hash),
        severity,
        instance_count,
        production_instance_count,
        total_lines,
        max_lines,
        risk_score,
        max_commit_count,
        recently_touched_file_count,
        youngest_age_days,
        asymmetric_recent_change,
        files,
        reasons,
        summary,
        instances,
    };
    assert(summarizes(summaries@, f.instances@));
    Some(f)
}

} // verus!
