//! Clone families: measures of how the sibling copies of a family diverge,
//! the texts that describe a family, and the remediation hints it yields.
use crate::clone_activity::{
    age_gap_days, commit_gap, count_recent, file_age_gap_days, file_commit_gap, recent_file_count,
    CloneFileSummary, RECENT_AGE_DAYS,
};
use crate::clone_groups::CloneDriftFinding;
use crate::order::{lemma_lex_asymmetric, lemma_lex_total, lemma_lex_transitive, lex_lt, text_less};
use crate::sorting::Ranked;
use crate::text::{dec, decimal, join, number_phrase, phrase, push_line, Text};
use crate::FindingSeverity;
use vstd::prelude::*;

verus! {

impl Ranked for CloneDriftFinding {
    /// Higher severity first, then higher risk, then clone identifier.
    open spec fn ranks_before(self, other: Self) -> bool {
        ||| self.severity.spec_priority() > other.severity.spec_priority()
        ||| (self.severity.spec_priority() == other.severity.spec_priority() && self.risk_score
            > other.risk_score)
        ||| (self.severity.spec_priority() == other.severity.spec_priority() && self.risk_score
            == other.risk_score && lex_lt(self.clone_id@, other.clone_id@))
    }

    fn is_ranked_before(&self, other: &Self) -> (r: bool) {
        let a = self.severity.priority();
        let b = other.severity.priority();
        if a != b {
            return a > b;
        }
        if self.risk_score != other.risk_score {
            return self.risk_score > other.risk_score;
        }
        text_less(self.clone_id.as_str(), other.clone_id.as_str())
    }

    proof fn lemma_ranking_irreflexive(a: Self) {
    }

    proof fn lemma_ranking_transitive(a: Self, b: Self, c: Self) {
        if lex_lt(a.clone_id@, b.clone_id@) && lex_lt(b.clone_id@, c.clone_id@) {
            lemma_lex_transitive(a.clone_id@, b.clone_id@, c.clone_id@);
        }
    }

    proof fn lemma_ranking_connected(a: Self, b: Self, c: Self) {
        lemma_lex_total(a.clone_id@, b.clone_id@);
        lemma_lex_total(b.clone_id@, c.clone_id@);
        if lex_lt(b.clone_id@, a.clone_id@) && lex_lt(c.clone_id@, b.clone_id@) {
            lemma_lex_transitive(c.clone_id@, b.clone_id@, a.clone_id@);
            lemma_lex_asymmetric(c.clone_id@, a.clone_id@);
        }
        if lex_lt(b.clone_id@, a.clone_id@) && b.clone_id@ == c.clone_id@ {
            lemma_lex_asymmetric(b.clone_id@, a.clone_id@);
        }
        if a.clone_id@ == b.clone_id@ && lex_lt(c.clone_id@, b.clone_id@) {
            lemma_lex_asymmetric(c.clone_id@, b.clone_id@);
        }
    }
}

/// How a clone family's sibling files differ in recent history.
#[derive(Clone, Copy)]
pub struct CloneFamilyMetrics {
    pub distinct_file_set_count: usize,
    pub recently_touched_file_count: usize,
    pub commit_count_gap: Option<u32>,
    pub age_days_gap: Option<u32>,
    pub asymmetric_recent_change: bool,
    pub mixed_file_sets: bool,
    pub divergence_score: u32,
}

/// Points for a spread of recent commits between siblings.
pub open spec fn commit_gap_points(gap: u32) -> u32 {
    if gap <= 1 {
        0
    } else if gap <= 3 {
        6
    } else if gap <= 7 {
        10
    } else {
        14
    }
}

/// Points for a spread of file ages between siblings.
pub open spec fn age_gap_points(gap: u32) -> u32 {
    if gap <= 7 {
        0
    } else if gap <= 29 {
        4
    } else if gap <= 59 {
        8
    } else {
        12
    }
}

/// How far a family's copies have drifted apart, from 0 to 44.
pub open spec fn divergence_score_of(m: CloneFamilyMetrics) -> u32 {
    let total = (if m.asymmetric_recent_change { 18int } else { 0 }) + (if m.mixed_file_sets {
        8int
    } else {
        0
    }) + (match m.commit_count_gap {
        Some(g) => commit_gap_points(g) as int,
        None => 0,
    }) + (match m.age_days_gap {
        Some(g) => age_gap_points(g) as int,
        None => 0,
    }) + (if m.recently_touched_file_count > 0 {
        (if m.recently_touched_file_count >= 3 { 3int } else { m.recently_touched_file_count as int }) * 2
    } else {
        0
    });
    if total > 44 { 44 } else { total as u32 }
}

/// The divergence score of a family (see `divergence_score_of`).
pub fn clone_family_divergence_score(m: &CloneFamilyMetrics) -> (r: u32)
    ensures
        r == divergence_score_of(*m),
{
    let mut score: u32 = 0;
    if m.asymmetric_recent_change {
        score = score + 18;
    }
    if m.mixed_file_sets {
        score = score + 8;
    }
    if let Some(gap) = m.commit_count_gap {
        score = score + if gap <= 1 {
            0
        } else if gap <= 3 {
            6
        } else if gap <= 7 {
            10
        } else {
            14
        };
    }
    if let Some(gap) = m.age_days_gap {
        score = score + if gap <= 7 {
            0
        } else if gap <= 29 {
            4
        } else if gap <= 59 {
            8
        } else {
            12
        };
    }
    if m.recently_touched_file_count > 0 {
        let capped: u32 = if m.recently_touched_file_count >= 3 {
            3
        } else {
            m.recently_touched_file_count as u32
        };
        score = score + capped * 2;
    }
    if score > 44 {
        44
    } else {
        score
    }
}

/// The divergence measures of a family from its per-file summaries.
pub open spec fn family_metrics_of(
    entries: Seq<(String, CloneFileSummary)>,
    distinct_file_set_count: usize,
) -> CloneFamilyMetrics {
    let active = crate::clone_activity::count_active(entries);
    let m = CloneFamilyMetrics {
        distinct_file_set_count,
        recently_touched_file_count: count_recent(entries) as usize,
        commit_count_gap: commit_gap(entries),
        age_days_gap: age_gap_days(entries),
        asymmetric_recent_change: active > 0 && entries.len() - active > 0,
        mixed_file_sets: distinct_file_set_count > 1,
        divergence_score: 0,
    };
    CloneFamilyMetrics { divergence_score: divergence_score_of(m), ..m }
}

/// The divergence measures of a family (see `family_metrics_of`).
pub fn clone_family_metrics(
    entries: &Vec<(String, CloneFileSummary)>,
    distinct_file_set_count: usize,
) -> (r: CloneFamilyMetrics)
    ensures
        r == family_metrics_of(entries@, distinct_file_set_count),
{
    let recently_touched_file_count = recent_file_count(entries);
    let active = crate::clone_activity::active_file_count(entries);
    proof {
        crate::clone_activity::lemma_counts_bounded_pub(entries@);
    }
    let inactive = entries.len() - active;
    let mut m = CloneFamilyMetrics {
        distinct_file_set_count,
        recently_touched_file_count,
        commit_count_gap: file_commit_gap(entries),
        age_days_gap: file_age_gap_days(entries),
        asymmetric_recent_change: active > 0 && inactive > 0,
        mixed_file_sets: distinct_file_set_count > 1,
        divergence_score: 0,
    };
    m.divergence_score = clone_family_divergence_score(&m);
    m
}

/// The reasons listed for a family.
pub open spec fn family_reasons_text(
    member_count: usize,
    file_count: usize,
    representative_risk: u32,
    m: CloneFamilyMetrics,
) -> Seq<Text> {
    let r0 = seq![
        dec(member_count as nat) + " exact clone groups repeat across "@ + dec(file_count as nat) + " files"@,
        "highest-risk representative exact clone scores "@ + dec(representative_risk as nat),
    ];
    let r1 = if m.recently_touched_file_count > 0 {
        r0.push(
            dec(m.recently_touched_file_count as nat) + " family file(s) changed within the last "@
                + dec(RECENT_AGE_DAYS as nat) + " day(s)"@,
        )
    } else {
        r0
    };
    let r2 = if m.mixed_file_sets {
        r1.push(
            "family clone coverage spans "@ + dec(m.distinct_file_set_count as nat)
                + " overlapping file set(s)"@,
        )
    } else {
        r1
    };
    let r3 = match m.commit_count_gap {
        Some(g) => r2.push("family churn spans a gap of "@ + dec(g as nat) + " recent commit(s)"@),
        None => r2,
    };
    let r4 = match m.age_days_gap {
        Some(g) => r3.push("family file age spans a gap of "@ + dec(g as nat) + " day(s)"@),
        None => r3,
    };
    let r5 = if m.asymmetric_recent_change {
        r4.push("recent activity is uneven across the clone family"@)
    } else {
        r4
    };
    if m.divergence_score > 0 {
        r5.push(
            "family-level divergence contributes "@ + dec(m.divergence_score as nat) + " risk point(s)"@,
        )
    } else {
        r5
    }
}

/// The reasons listed for a family (see `family_reasons_text`).
pub fn clone_family_reasons(
    member_count: usize,
    file_count: usize,
    representative_risk: u32,
    m: &CloneFamilyMetrics,
) -> (r: Vec<String>)
    ensures
        r.deep_view() == family_reasons_text(member_count, file_count, representative_risk, *m),
{
    let mut r: Vec<String> = Vec::new();
    let mut first = number_phrase(member_count as u64, " exact clone groups repeat across ");
    let files = number_phrase(file_count as u64, " files");
    first.append(files.as_str());
    push_line(&mut r, first);
    let mut second = "highest-risk representative exact clone scores ".to_string();
    let risk_text = decimal(representative_risk as u64);
    second.append(risk_text.as_str());
    push_line(&mut r, second);
    let ghost r0 = seq![
        dec(member_count as nat) + " exact clone groups repeat across "@ + dec(file_count as nat) + " files"@,
        "highest-risk representative exact clone scores "@ + dec(representative_risk as nat),
    ];
    assert(r.deep_view() =~~= r0);
    if m.recently_touched_file_count > 0 {
        let mut t = number_phrase(m.recently_touched_file_count as u64, " family file(s) changed within the last ");
        let d = number_phrase(RECENT_AGE_DAYS as u64, " day(s)");
        t.append(d.as_str());
        assert(t@ =~= dec(m.recently_touched_file_count as nat) + " family file(s) changed within the last "@
            + dec(RECENT_AGE_DAYS as nat) + " day(s)"@);
        push_line(&mut r, t);
    }
    if m.mixed_file_sets {
        push_line(&mut r, phrase("family clone coverage spans ", m.distinct_file_set_count as u64, " overlapping file set(s)"));
    }
    if let Some(g) = m.commit_count_gap {
        push_line(&mut r, phrase("family churn spans a gap of ", g as u64, " recent commit(s)"));
    }
    if let Some(g) = m.age_days_gap {
        push_line(&mut r, phrase("family file age spans a gap of ", g as u64, " day(s)"));
    }
    if m.asymmetric_recent_change {
        push_line(&mut r, "recent activity is uneven across the clone family".to_string());
    }
    if m.divergence_score > 0 {
        push_line(&mut r, phrase("family-level divergence contributes ", m.divergence_score as u64, " risk point(s)"));
    }
    r
}

/// The details that the family summary lists after its headline.
pub open spec fn family_summary_details(m: CloneFamilyMetrics) -> Seq<Text> {
    let d0: Seq<Text> = if m.asymmetric_recent_change {
        seq!["recent edits are uneven across the family"@]
    } else {
        Seq::empty()
    };
    let d1 = if m.mixed_file_sets {
        d0.push("clone coverage spans "@ + dec(m.distinct_file_set_count as nat) + " overlapping sibling sets"@)
    } else {
        d0
    };
    let d2 = match m.commit_count_gap {
        Some(g) => d1.push("churn differs by "@ + dec(g as nat) + " recent commit(s) across siblings"@),
        None => d1,
    };
    match m.age_days_gap {
        Some(g) => d2.push("sibling file age spans "@ + dec(g as nat) + " day(s)"@),
        None => d2,
    }
}

/// The one-line summary of a family.
pub open spec fn family_summary_text(member_count: usize, file_count: usize, m: CloneFamilyMetrics) -> Text {
    let head = dec(member_count as nat) + " exact clone groups repeat across "@ + dec(file_count as nat) + " files"@;
    let details = family_summary_details(m);
    if details.len() == 0 {
        head
    } else {
        head + " and "@ + join(details, "; "@)
    }
}

/// The one-line summary of a family (see `family_summary_text`).
pub fn clone_family_summary_text(member_count: usize, file_count: usize, m: &CloneFamilyMetrics) -> (r: String)
    ensures
        r@ == family_summary_text(member_count, file_count, *m),
{
    let mut details: Vec<String> = Vec::new();
    if m.asymmetric_recent_change {
        details.push("recent edits are uneven across the family".to_string());
    }
    if m.mixed_file_sets {
        details.push(phrase("clone coverage spans ", m.distinct_file_set_count as u64, " overlapping sibling sets"));
    }
    if let Some(g) = m.commit_count_gap {
        details.push(phrase("churn differs by ", g as u64, " recent commit(s) across siblings"));
    }
    if let Some(g) = m.age_days_gap {
        details.push(phrase("sibling file age spans ", g as u64, " day(s)"));
    }
    assert(details.deep_view() =~= family_summary_details(*m));
    let mut head = number_phrase(member_count as u64, " exact clone groups repeat across ");
    let files = number_phrase(file_count as u64, " files");
    head.append(files.as_str());
    if details.len() == 0 {
        return head;
    }
    head.append(" and ");
    let joined = crate::text::join_texts(&details, "; ");
    head.append(joined.as_str());
    head
}

} // verus!
