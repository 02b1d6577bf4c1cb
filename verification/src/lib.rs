use vstd::prelude::*;
pub mod authority;
pub mod boundary;
pub mod clone_activity;
pub mod clone_clusters;
pub mod clone_families;
pub mod clone_family_summary;
pub mod clone_groups;
pub mod clone_hints;
pub mod clone_report;
pub mod concentration;
pub mod concept_match;
pub mod evolution;
pub mod grouping;
pub mod obligations;
pub mod obligations_contract;
pub mod obligations_domain;
pub mod order;
pub mod parity;
pub mod parity_build;
pub mod paths;
pub mod semantic;
pub mod site_set;
pub mod snapshot;
pub mod state;
pub mod sorting;
pub mod structural;
pub mod test_coverage;
pub mod text;

verus! {

/// How urgent a finding is.
#[derive(Debug, Clone, Copy, PartialEq, Eq, Structural)]
pub enum FindingSeverity {
    Low,
    Medium,
    High,
}

impl FindingSeverity {
    /// Numeric ordering weight of a severity: higher is more urgent.
    pub open spec fn spec_priority(self) -> u8 {
        match self {
            FindingSeverity::High => 3,
            FindingSeverity::Medium => 2,
            FindingSeverity::Low => 1,
        }
    }

    /// The lowercase name of a severity.
    pub open spec fn spec_name(self) -> Seq<char> {
        match self {
            FindingSeverity::Low => "low"@,
            FindingSeverity::Medium => "medium"@,
            FindingSeverity::High => "high"@,
        }
    }

    pub fn as_str(self) -> (r: &'static str)
        ensures
            r@ == self.spec_name(),
    {
        match self {
            FindingSeverity::Low => "low",
            FindingSeverity::Medium => "medium",
            FindingSeverity::High => "high",
        }
    }

    pub fn priority(self) -> (p: u8)
        ensures
            p == self.spec_priority(),
    {
        match self {
            FindingSeverity::High => 3,
            FindingSeverity::Medium => 2,
            FindingSeverity::Low => 1,
        }
    }
}

/// A finding of the semantic analyses: what kind, how urgent, which concept,
/// a summary, the files involved and the evidence lines.
pub struct SemanticFinding {
    pub kind: String,
    pub severity: FindingSeverity,
    pub concept_id: String,
    pub summary: String,
    pub files: Vec<String>,
    pub evidence: Vec<String>,
}

/// A finding as plain values: kind, severity, concept, summary, files and
/// evidence.
pub type FindingView = (Seq<char>, FindingSeverity, Seq<char>, Seq<char>, Seq<Seq<char>>, Seq<Seq<char>>);

impl View for SemanticFinding {
    type V = FindingView;

    open spec fn view(&self) -> FindingView {
        (self.kind@, self.severity, self.concept_id@, self.summary@, self.files.deep_view(), self.evidence.deep_view())
    }
}

/// The findings as plain values.
pub open spec fn findings_view(findings: Seq<SemanticFinding>) -> Seq<FindingView> {
    findings.map_values(|f: SemanticFinding| f@)
}

impl Default for FindingSeverity {
    fn default() -> (r: Self)
        ensures
            r == FindingSeverity::Low,
    {
        FindingSeverity::Low
    }
}

} // verus!
