//! Remediation hints proposed for a clone family.
use crate::clone_families::CloneFamilyMetrics;
use crate::clone_groups::copy_strings;
use crate::text::{dec, join, number_phrase, phrase, push_line, Text};
use crate::FindingSeverity;
use vstd::prelude::*;

verus! {

/// How soon a remediation hint should be acted on.
#[derive(Debug, Clone, Copy, PartialEq, Eq, Structural)]
pub enum RemediationPriority {
    Low,
    Medium,
    High,
}

impl RemediationPriority {
    /// The lowercase name of the priority.
    pub open spec fn spec_name(self) -> Text {
        match self {
            RemediationPriority::Low => "low"@,
            RemediationPriority::Medium => "medium"@,
            RemediationPriority::High => "high"@,
        }
    }

    pub fn as_str(self) -> (r: &'static str)
        ensures
            r@ == self.spec_name(),
    {
        match self {
            RemediationPriority::Low => "low",
            RemediationPriority::Medium => "medium",
            RemediationPriority::High => "high",
        }
    }
}

impl Default for RemediationPriority {
    fn default() -> (r: Self)
        ensures
            r == RemediationPriority::Medium,
    {
        RemediationPriority::Medium
    }
}

/// One concrete step proposed to reduce a clone family.
pub struct CloneRemediationHint {
    pub kind: String,
    pub priority: RemediationPriority,
    pub summary: String,
    pub files: Vec<String>,
    pub clone_ids: Vec<String>,
}

impl Default for CloneRemediationHint {
    fn default() -> (r: Self)
        ensures
            r.kind@.len() == 0,
            r.priority == RemediationPriority::Medium,
            r.summary@.len() == 0,
            r.files@.len() == 0,
            r.clone_ids@.len() == 0,
    {
        CloneRemediationHint {
            kind: String::new(),
            priority: RemediationPriority::Medium,
            summary: String::new(),
            files: Vec::new(),
            clone_ids: Vec::new(),
        }
    }
}

/// Two hints carry the same values.
pub open spec fn same_hint(a: CloneRemediationHint, b: CloneRemediationHint) -> bool {
    &&& a.kind@ == b.kind@
    &&& a.priority == b.priority
    &&& a.summary@ == b.summary@
    &&& a.files@ == b.files@
    &&& a.clone_ids@ == b.clone_ids@
}

impl Clone for CloneRemediationHint {
    fn clone(&self) -> (r: Self)
        ensures
            same_hint(r, *self),
    {
        CloneRemediationHint {
            kind: self.kind.clone(),
            priority: self.priority,
            summary: self.summary.clone(),
            files: copy_strings(&self.files),
            clone_ids: copy_strings(&self.clone_ids),
        }
    }
}

/// The kind, priority and summary of a hint, as plain values.
pub type HintShape = (Text, RemediationPriority, Text);

/// The shape of a hint.
pub open spec fn shape_of(h: CloneRemediationHint) -> HintShape {
    (h.kind@, h.priority, h.summary@)
}

/// The boundary-review hint.
pub open spec fn boundary_review_shape(m: CloneFamilyMetrics) -> HintShape {
    (
        "review_family_boundaries"@,
        if m.divergence_score >= 12 { RemediationPriority::High } else { RemediationPriority::Medium },
        "Review the overlapping clone family boundaries across "@ + dec(m.distinct_file_set_count as nat)
            + " sibling file set(s) and decide whether these copies should stay synchronized or be split into separate abstractions."@,
    )
}

/// The details listed in the divergence hint.
pub open spec fn divergence_details(m: CloneFamilyMetrics) -> Seq<Text> {
    let d0: Seq<Text> = if m.mixed_file_sets {
        seq!["clone coverage spans "@ + dec(m.distinct_file_set_count as nat) + " overlapping sibling sets"@]
    } else {
        Seq::empty()
    };
    let d1 = match m.commit_count_gap {
        Some(g) => d0.push("commit churn spans a gap of "@ + dec(g as nat) + " recent commit(s)"@),
        None => d0,
    };
    let d2 = match m.age_days_gap {
        Some(g) => d1.push("file age spans a gap of "@ + dec(g as nat) + " day(s)"@),
        None => d1,
    };
    if m.asymmetric_recent_change {
        d2.push("recent edits are uneven across the family"@)
    } else {
        d2
    }
}

/// The divergence hint.
pub open spec fn divergence_shape(m: CloneFamilyMetrics) -> HintShape {
    let details = divergence_details(m);
    (
        "sync_recent_divergence"@,
        RemediationPriority::High,
        if details.len() == 0 {
            "Review recent edits across clone siblings and either synchronize the shared behavior or intentionally split the implementations."@
        } else {
            "Review recent edits across clone siblings: "@ + join(details, "; "@)
                + ". Synchronize the shared behavior or intentionally split the implementations."@
        },
    )
}

/// The shared-helper hint.
pub open spec fn shared_helper_shape(severity: FindingSeverity, member_count: usize) -> HintShape {
    (
        "extract_shared_helper"@,
        if severity == FindingSeverity::High { RemediationPriority::High } else { RemediationPriority::Medium },
        "Extract the repeated logic into a shared helper or module used by the "@ + dec(member_count as nat)
            + " clone groups across these files."@,
    )
}

/// The collapse hint.
pub open spec fn collapse_shape(member_count: usize, file_count: usize) -> HintShape {
    (
        "collapse_clone_family"@,
        RemediationPriority::Medium,
        "Collapse the "@ + dec(member_count as nat) + " repeated clone groups behind one named abstraction instead of maintaining copies in "@
            + dec(file_count as nat) + " files."@,
    )
}

/// The shared-behavior test hint.
pub open spec fn behavior_test_shape() -> HintShape {
    (
        "add_shared_behavior_tests"@,
        RemediationPriority::Medium,
        "Add focused tests around the shared behavior before deduplicating the clone family so the extraction does not hide drift."@,
    )
}

/// The hints proposed for a family, in order.
pub open spec fn family_hint_shapes(
    severity: FindingSeverity,
    m: CloneFamilyMetrics,
    member_count: usize,
    file_count: usize,
) -> Seq<HintShape> {
    let h0: Seq<HintShape> = if m.mixed_file_sets { seq![boundary_review_shape(m)] } else { Seq::empty() };
    let h1 = if m.divergence_score > 0 { h0.push(divergence_shape(m)) } else { h0 };
    let h2 = if member_count >= 2 && file_count >= 2 {
        h1.push(shared_helper_shape(severity, member_count))
    } else {
        h1
    };
    let h3 = if member_count >= 3 || file_count >= 3 { h2.push(collapse_shape(member_count, file_count)) } else { h2 };
    if severity == FindingSeverity::High && m.recently_touched_file_count > 0 {
        h3.push(behavior_test_shape())
    } else {
        h3
    }
}

/// `hints` have the given shapes, each naming `files` and `clone_ids`.
pub open spec fn hints_match(
    hints: Seq<CloneRemediationHint>,
    shapes: Seq<HintShape>,
    files: Seq<String>,
    clone_ids: Seq<String>,
) -> bool {
    &&& hints.len() == shapes.len()
    &&& forall|i: int| 0 <= i < hints.len() ==> shape_of(#[trigger] hints[i]) == shapes[i]
    &&& forall|i: int| 0 <= i < hints.len() ==> (#[trigger] hints[i]).files@ == files
    &&& forall|i: int| 0 <= i < hints.len() ==> (#[trigger] hints[i]).clone_ids@ == clone_ids
}

/// Some hint is of the given kind.
pub open spec fn has_hint_kind(hints: Seq<CloneRemediationHint>, kind: Text) -> bool {
    exists|i: int| 0 <= i < hints.len() && (#[trigger] hints[i]).kind@ == kind
}

/// What decides each hint of a family: a boundary review exactly when the
/// family spans mixed file sets, a divergence sync exactly when it has
/// diverged, a shared helper exactly when it has two or more members over
/// two or more files, a collapse exactly when it has three or more members
/// or files, and shared-behavior tests exactly when its representative is
/// of high severity and some of its files were touched recently. No kind is
/// proposed twice.
pub open spec fn hints_decided(
    hints: Seq<CloneRemediationHint>,
    severity: FindingSeverity,
    m: CloneFamilyMetrics,
    member_count: usize,
    file_count: usize,
) -> bool {
    &&& has_hint_kind(hints, "review_family_boundaries"@) <==> m.mixed_file_sets
    &&& has_hint_kind(hints, "sync_recent_divergence"@) <==> m.divergence_score > 0
    &&& has_hint_kind(hints, "extract_shared_helper"@) <==> member_count >= 2 && file_count >= 2
    &&& has_hint_kind(hints, "collapse_clone_family"@) <==> member_count >= 3 || file_count >= 3
    &&& has_hint_kind(hints, "add_shared_behavior_tests"@) <==> severity == FindingSeverity::High
        && m.recently_touched_file_count > 0
    &&& forall|i: int, j: int| 0 <= i < j < hints.len() ==> (#[trigger] hints[i]).kind@ != (#[trigger] hints[j]).kind@
}

/// Hints of the shapes `family_hint_shapes` proposes are decided as
/// `hints_decided` says.
pub proof fn lemma_hints_decided(
    hints: Seq<CloneRemediationHint>,
    severity: FindingSeverity,
    m: CloneFamilyMetrics,
    member_count: usize,
    file_count: usize,
    files: Seq<String>,
    clone_ids: Seq<String>,
)
    requires
        hints_match(hints, family_hint_shapes(severity, m, member_count, file_count), files, clone_ids),
    ensures
        hints_decided(hints, severity, m, member_count, file_count),
{
    reveal_strlit("review_family_boundaries");
    reveal_strlit("sync_recent_divergence");
    reveal_strlit("extract_shared_helper");
    reveal_strlit("collapse_clone_family");
    reveal_strlit("add_shared_behavior_tests");
    let k0 = "review_family_boundaries"@;
    let k1 = "sync_recent_divergence"@;
    let k2 = "extract_shared_helper"@;
    let k3 = "collapse_clone_family"@;
    let k4 = "add_shared_behavior_tests"@;
    assert(k0.len() == 24 && k1.len() == 22 && k2.len() == 21 && k3.len() == 21 && k4.len() == 25);
    assert(k2[0] != k3[0]);
    let c0 = m.mixed_file_sets;
    let c1 = m.divergence_score > 0;
    let c2 = member_count >= 2 && file_count >= 2;
    let c3 = member_count >= 3 || file_count >= 3;
    let c4 = severity == FindingSeverity::High && m.recently_touched_file_count > 0;
    let kinds = (if c0 { seq![k0] } else { Seq::<Text>::empty() }) + (if c1 { seq![k1] } else { Seq::<Text>::empty() })
        + (if c2 { seq![k2] } else { Seq::<Text>::empty() }) + (if c3 { seq![k3] } else { Seq::<Text>::empty() }) + (if c4 {
        seq![k4]
    } else {
        Seq::<Text>::empty()
    });
    let shapes = family_hint_shapes(severity, m, member_count, file_count);
    assert(shapes.map_values(|s: HintShape| s.0) =~= kinds);
    assert forall|i: int| 0 <= i < hints.len() implies (#[trigger] hints[i]).kind@ == kinds[i] by {
        assert(shape_of(hints[i]) == shapes[i]);
        assert(shapes.map_values(|s: HintShape| s.0)[i] == shapes[i].0);
    }
    assert(hints.len() == kinds.len());
    let n0: int = if c0 { 1 } else { 0 };
    let n1: int = n0 + if c1 { 1int } else { 0 };
    let n2: int = n1 + if c2 { 1int } else { 0 };
    let n3: int = n2 + if c3 { 1int } else { 0 };
    assert forall|i: int| 0 <= i < kinds.len() implies {
        &&& (#[trigger] kinds[i] == k0 ==> c0 && i == 0)
        &&& (kinds[i] == k1 ==> c1 && i == n0)
        &&& (kinds[i] == k2 ==> c2 && i == n1)
        &&& (kinds[i] == k3 ==> c3 && i == n2)
        &&& (kinds[i] == k4 ==> c4 && i == n3)
    } by {
        if i < n0 {
            assert(kinds[i] == k0);
        } else if i < n1 {
            assert(kinds[i] == k1);
        } else if i < n2 {
            assert(kinds[i] == k2);
        } else if i < n3 {
            assert(kinds[i] == k3);
        } else {
            assert(kinds[i] == k4);
        }
    }
    if c0 {
        assert(kinds[0] == k0);
        assert(hints[0].kind@ == k0);
    }
    if c1 {
        assert(kinds[n0] == k1);
        assert(hints[n0].kind@ == k1);
    }
    if c2 {
        assert(kinds[n1] == k2);
        assert(hints[n1].kind@ == k2);
    }
    if c3 {
        assert(kinds[n2] == k3);
        assert(hints[n2].kind@ == k3);
    }
    if c4 {
        assert(kinds[n3] == k4);
        assert(hints[n3].kind@ == k4);
    }
    assert forall|i: int, j: int| 0 <= i < j < hints.len() implies (#[trigger] hints[i]).kind@ != (#[trigger] hints[j]).kind@ by {
        assert(hints[i].kind@ == kinds[i] && hints[j].kind@ == kinds[j]);
        if i < n0 {
            assert(kinds[i] == k0);
        } else if i < n1 {
            assert(kinds[i] == k1);
        } else if i < n2 {
            assert(kinds[i] == k2);
        } else if i < n3 {
            assert(kinds[i] == k3);
        } else {
            assert(kinds[i] == k4);
        }
    }
}

fn hint(kind: &str, priority: RemediationPriority, summary: String, files: &Vec<String>, clone_ids: &Vec<String>) -> (r:
    CloneRemediationHint)
    ensures
        shape_of(r) == (kind@, priority, summary@),
        r.files@ == files@,
        r.clone_ids@ == clone_ids@,
{
    CloneRemediationHint {
        kind: kind.to_string(),
        priority,
        summary,
        files: copy_strings(files),
        clone_ids: copy_strings(clone_ids),
    }
}

fn boundary_review_hint(m: &CloneFamilyMetrics, files: &Vec<String>, clone_ids: &Vec<String>) -> (r:
    CloneRemediationHint)
    ensures
        shape_of(r) == boundary_review_shape(*m),
        r.files@ == files@,
        r.clone_ids@ == clone_ids@,
{
    let priority = if m.divergence_score >= 12 {
        RemediationPriority::High
    } else {
        RemediationPriority::Medium
    };
    let summary = phrase(
        "Review the overlapping clone family boundaries across ",
        m.distinct_file_set_count as u64,
        " sibling file set(s) and decide whether these copies should stay synchronized or be split into separate abstractions.",
    );
    hint("review_family_boundaries", priority, summary, files, clone_ids)
}

fn divergence_hint(m: &CloneFamilyMetrics, files: &Vec<String>, clone_ids: &Vec<String>) -> (r: CloneRemediationHint)
    ensures
        shape_of(r) == divergence_shape(*m),
        r.files@ == files@,
        r.clone_ids@ == clone_ids@,
{
    let mut detail: Vec<String> = Vec::new();
    if m.mixed_file_sets {
        push_line(&mut detail, phrase("clone coverage spans ", m.distinct_file_set_count as u64, " overlapping sibling sets"));
    }
    if let Some(g) = m.commit_count_gap {
        push_line(&mut detail, phrase("commit churn spans a gap of ", g as u64, " recent commit(s)"));
    }
    if let Some(g) = m.age_days_gap {
        push_line(&mut detail, phrase("file age spans a gap of ", g as u64, " day(s)"));
    }
    if m.asymmetric_recent_change {
        push_line(&mut detail, "recent edits are uneven across the family".to_string());
    }
    assert(detail.deep_view() =~= divergence_details(*m));
    let summary = if detail.len() == 0 {
        "Review recent edits across clone siblings and either synchronize the shared behavior or intentionally split the implementations.".to_string()
    } else {
        let mut s = "Review recent edits across clone siblings: ".to_string();
        let joined = crate::text::join_texts(&detail, "; ");
        s.append(joined.as_str());
        s.append(". Synchronize the shared behavior or intentionally split the implementations.");
        s
    };
    hint("sync_recent_divergence", RemediationPriority::High, summary, files, clone_ids)
}

fn shared_helper_hint(
    severity: FindingSeverity,
    member_count: usize,
    files: &Vec<String>,
    clone_ids: &Vec<String>,
) -> (r: CloneRemediationHint)
    ensures
        shape_of(r) == shared_helper_shape(severity, member_count),
        r.files@ == files@,
        r.clone_ids@ == clone_ids@,
{
    let priority = if severity == FindingSeverity::High {
        RemediationPriority::High
    } else {
        RemediationPriority::Medium
    };
    let summary = phrase(
        "Extract the repeated logic into a shared helper or module used by the ",
        member_count as u64,
        " clone groups across these files.",
    );
    hint("extract_shared_helper", priority, summary, files, clone_ids)
}

fn collapse_hint(member_count: usize, file_count: usize, files: &Vec<String>, clone_ids: &Vec<String>) -> (r:
    CloneRemediationHint)
    ensures
        shape_of(r) == collapse_shape(member_count, file_count),
        r.files@ == files@,
        r.clone_ids@ == clone_ids@,
{
    let mut summary = phrase(
        "Collapse the ",
        member_count as u64,
        " repeated clone groups behind one named abstraction instead of maintaining copies in ",
    );
    let tail = number_phrase(file_count as u64, " files.");
    summary.append(tail.as_str());
    assert(summary@ =~= collapse_shape(member_count, file_count).2);
    hint("collapse_clone_family", RemediationPriority::Medium, summary, files, clone_ids)
}

fn behavior_test_hint(files: &Vec<String>, clone_ids: &Vec<String>) -> (r: CloneRemediationHint)
    ensures
        shape_of(r) == behavior_test_shape(),
        r.files@ == files@,
        r.clone_ids@ == clone_ids@,
{
    let summary = "Add focused tests around the shared behavior before deduplicating the clone family so the extraction does not hide drift.".to_string();
    hint("add_shared_behavior_tests", RemediationPriority::Medium, summary, files, clone_ids)
}

fn push_hint(hints: &mut Vec<CloneRemediationHint>, h: CloneRemediationHint)
    ensures
        final(hints)@ == old(hints)@.push(h),
{
    hints.push(h);
}

/// The remediation hints of a family (see `family_hint_shapes`), each naming
/// the family's files and clone identifiers.
pub fn clone_family_remediation_hints(
    severity: FindingSeverity,
    m: &CloneFamilyMetrics,
    member_count: usize,
    file_count: usize,
    files: &Vec<String>,
    clone_ids: &Vec<String>,
) -> (r: Vec<CloneRemediationHint>)
    ensures
        hints_match(r@, family_hint_shapes(severity, *m, member_count, file_count), files@, clone_ids@),
        hints_decided(r@, severity, *m, member_count, file_count),
{
    let mut hints: Vec<CloneRemediationHint> = Vec::new();
    let ghost mut shapes: Seq<HintShape> = Seq::empty();
    if m.mixed_file_sets {
        push_hint(&mut hints, boundary_review_hint(m, files, clone_ids));
        proof {
            shapes = shapes.push(boundary_review_shape(*m));
        }
    }
    if m.divergence_score > 0 {
        push_hint(&mut hints, divergence_hint(m, files, clone_ids));
        proof {
            shapes = shapes.push(divergence_shape(*m));
        }
    }
    if member_count >= 2 && file_count >= 2 {
        push_hint(&mut hints, shared_helper_hint(severity, member_count, files, clone_ids));
        proof {
            shapes = shapes.push(shared_helper_shape(severity, member_count));
        }
    }
    if member_count >= 3 || file_count >= 3 {
        push_hint(&mut hints, collapse_hint(member_count, file_count, files, clone_ids));
        proof {
            shapes = shapes.push(collapse_shape(member_count, file_count));
        }
    }
    if severity == FindingSeverity::High && m.recently_touched_file_count > 0 {
        push_hint(&mut hints, behavior_test_hint(files, clone_ids));
        proof {
            shapes = shapes.push(behavior_test_shape());
        }
    }
    assert(shapes =~= family_hint_shapes(severity, *m, member_count, file_count));
    proof {
        lemma_hints_decided(hints@, severity, *m, member_count, file_count, files@, clone_ids@);
    }
    hints
}

} // verus!
