//! Structural debt reports built from health metrics and snapshot facts:
//! oversized files, dependency sprawl, unstable hotspots, dependency cycles,
//! dead private code and disconnected components.
pub mod common;
pub mod cycles;
pub mod facts;
pub mod file_reports;
pub mod graph;
pub mod guardrails;
pub mod islands;
pub mod reports;
pub mod roles;
pub mod scoring;
pub mod utils;

use crate::text::Text;
use crate::FindingSeverity;
use vstd::prelude::*;

verus! {

/// How far a structural report can be trusted.
#[derive(Debug, Clone, Copy, PartialEq, Eq, Structural)]
pub enum StructuralTrustTier {
    Trusted,
    Watchpoint,
    Experimental,
}

impl StructuralTrustTier {
    /// The snake-case name of the tier.
    pub open spec fn spec_name(self) -> Text {
        match self {
            StructuralTrustTier::Trusted => "trusted"@,
            StructuralTrustTier::Watchpoint => "watchpoint"@,
            StructuralTrustTier::Experimental => "experimental"@,
        }
    }

    pub fn as_str(self) -> (r: &'static str)
        ensures
            r@ == self.spec_name(),
    {
        match self {
            StructuralTrustTier::Trusted => "trusted",
            StructuralTrustTier::Watchpoint => "watchpoint",
            StructuralTrustTier::Experimental => "experimental",
        }
    }

    /// Whether the name of the value is the given text (the comparison of
    /// a value with its name).
    pub fn eq_str(self, other: &str) -> (r: bool)
        ensures
            r == (self.spec_name() == other@),
    {
        crate::text::text_eq(self.as_str(), other)
    }
}

impl Default for StructuralTrustTier {
    fn default() -> (r: Self)
        ensures
            r == StructuralTrustTier::Trusted,
    {
        StructuralTrustTier::Trusted
    }
}

/// How a structural report should be presented.
#[derive(Debug, Clone, Copy, PartialEq, Eq, Structural)]
pub enum StructuralPresentationClass {
    StructuralDebt,
    GuardedFacade,
    ToolingDebt,
    HardeningNote,
    Watchpoint,
    Experimental,
}

impl StructuralPresentationClass {
    /// The snake-case name of the class.
    pub open spec fn spec_name(self) -> Text {
        match self {
            StructuralPresentationClass::StructuralDebt => "structural_debt"@,
            StructuralPresentationClass::GuardedFacade => "guarded_facade"@,
            StructuralPresentationClass::ToolingDebt => "tooling_debt"@,
            StructuralPresentationClass::HardeningNote => "hardening_note"@,
            StructuralPresentationClass::Watchpoint => "watchpoint"@,
            StructuralPresentationClass::Experimental => "experimental"@,
        }
    }

    pub fn as_str(self) -> (r: &'static str)
        ensures
            r@ == self.spec_name(),
    {
        match self {
            StructuralPresentationClass::StructuralDebt => "structural_debt",
            StructuralPresentationClass::GuardedFacade => "guarded_facade",
            StructuralPresentationClass::ToolingDebt => "tooling_debt",
            StructuralPresentationClass::HardeningNote => "hardening_note",
            StructuralPresentationClass::Watchpoint => "watchpoint",
            StructuralPresentationClass::Experimental => "experimental",
        }
    }

    /// Whether the name of the value is the given text (the comparison of
    /// a value with its name).
    pub fn eq_str(self, other: &str) -> (r: bool)
        ensures
            r == (self.spec_name() == other@),
    {
        crate::text::text_eq(self.as_str(), other)
    }
}

impl Default for StructuralPresentationClass {
    fn default() -> (r: Self)
        ensures
            r == StructuralPresentationClass::StructuralDebt,
    {
        StructuralPresentationClass::StructuralDebt
    }
}

/// What acting on a structural report is likely to buy.
#[derive(Debug, Clone, Copy, PartialEq, Eq, Structural)]
pub enum StructuralLeverageClass {
    SecondaryCleanup,
    LocalRefactorTarget,
    ArchitectureSignal,
    RegrowthWatchpoint,
    ToolingDebt,
    BoundaryDiscipline,
    HardeningNote,
    Experimental,
}

impl StructuralLeverageClass {
    /// The snake-case name of the class.
    pub open spec fn spec_name(self) -> Text {
        match self {
            StructuralLeverageClass::SecondaryCleanup => "secondary_cleanup"@,
            StructuralLeverageClass::LocalRefactorTarget => "local_refactor_target"@,
            StructuralLeverageClass::ArchitectureSignal => "architecture_signal"@,
            StructuralLeverageClass::RegrowthWatchpoint => "regrowth_watchpoint"@,
            StructuralLeverageClass::ToolingDebt => "tooling_debt"@,
            StructuralLeverageClass::BoundaryDiscipline => "boundary_discipline"@,
            StructuralLeverageClass::HardeningNote => "hardening_note"@,
            StructuralLeverageClass::Experimental => "experimental"@,
        }
    }

    pub fn as_str(self) -> (r: &'static str)
        ensures
            r@ == self.spec_name(),
    {
        match self {
            StructuralLeverageClass::SecondaryCleanup => "secondary_cleanup",
            StructuralLeverageClass::LocalRefactorTarget => "local_refactor_target",
            StructuralLeverageClass::ArchitectureSignal => "architecture_signal",
            StructuralLeverageClass::RegrowthWatchpoint => "regrowth_watchpoint",
            StructuralLeverageClass::ToolingDebt => "tooling_debt",
            StructuralLeverageClass::BoundaryDiscipline => "boundary_discipline",
            StructuralLeverageClass::HardeningNote => "hardening_note",
            StructuralLeverageClass::Experimental => "experimental",
        }
    }

    /// Whether the name of the value is the given text (the comparison of
    /// a value with its name).
    pub fn eq_str(self, other: &str) -> (r: bool)
        ensures
            r == (self.spec_name() == other@),
    {
        crate::text::text_eq(self.as_str(), other)
    }
}

impl Default for StructuralLeverageClass {
    fn default() -> (r: Self)
        ensures
            r == StructuralLeverageClass::SecondaryCleanup,
    {
        StructuralLeverageClass::SecondaryCleanup
    }
}

/// Whether a structural report is debt or a watchpoint.
#[derive(Debug, Clone, Copy, PartialEq, Eq, Structural)]
pub enum StructuralSignalClass {
    Debt,
    Watchpoint,
}

impl StructuralSignalClass {
    /// The snake-case name of the class.
    pub open spec fn spec_name(self) -> Text {
        match self {
            StructuralSignalClass::Debt => "debt"@,
            StructuralSignalClass::Watchpoint => "watchpoint"@,
        }
    }

    pub fn as_str(self) -> (r: &'static str)
        ensures
            r@ == self.spec_name(),
    {
        match self {
            StructuralSignalClass::Debt => "debt",
            StructuralSignalClass::Watchpoint => "watchpoint",
        }
    }

    /// Whether the name of the value is the given text (the comparison of
    /// a value with its name).
    pub fn eq_str(self, other: &str) -> (r: bool)
        ensures
            r == (self.spec_name() == other@),
    {
        crate::text::text_eq(self.as_str(), other)
    }
}

impl Default for StructuralSignalClass {
    fn default() -> (r: Self)
        ensures
            r == StructuralSignalClass::Debt,
    {
        StructuralSignalClass::Debt
    }
}

/// The measures behind a structural report; each is present only for the
/// kinds of report that use it.
#[derive(Debug, Clone, Copy)]
pub struct StructuralDebtMetrics {
    pub file_count: Option<usize>,
    pub line_count: Option<usize>,
    pub function_count: Option<u32>,
    pub fan_in: Option<usize>,
    pub fan_out: Option<usize>,
    pub instability_0_10000: Option<u32>,
    pub dead_symbol_count: Option<usize>,
    pub dead_line_count: Option<usize>,
    pub cycle_size: Option<usize>,
    pub max_complexity: Option<u32>,
    pub inbound_reference_count: Option<usize>,
    pub public_surface_count: Option<usize>,
    pub reachable_from_tests: Option<bool>,
    pub cut_candidate_count: Option<usize>,
    pub largest_cycle_after_best_cut: Option<usize>,
    pub guardrail_test_count: Option<usize>,
    pub role_count: Option<usize>,
}

/// Metrics with no measure present.
pub open spec fn no_metrics() -> StructuralDebtMetrics {
    StructuralDebtMetrics {
        file_count: None,
        line_count: None,
        function_count: None,
        fan_in: None,
        fan_out: None,
        instability_0_10000: None,
        dead_symbol_count: None,
        dead_line_count: None,
        cycle_size: None,
        max_complexity: None,
        inbound_reference_count: None,
        public_surface_count: None,
        reachable_from_tests: None,
        cut_candidate_count: None,
        largest_cycle_after_best_cut: None,
        guardrail_test_count: None,
        role_count: None,
    }
}

impl Default for StructuralDebtMetrics {
    fn default() -> (r: Self)
        ensures
            r == no_metrics(),
    {
        StructuralDebtMetrics {
            file_count: None,
            line_count: None,
            function_count: None,
            fan_in: None,
            fan_out: None,
            instability_0_10000: None,
            dead_symbol_count: None,
            dead_line_count: None,
            cycle_size: None,
            max_complexity: None,
            inbound_reference_count: None,
            public_surface_count: None,
            reachable_from_tests: None,
            cut_candidate_count: None,
            largest_cycle_after_best_cut: None,
            guardrail_test_count: None,
            role_count: None,
        }
    }
}

/// An import edge whose removal would shrink a dependency cycle.
pub struct CycleCutCandidate {
    pub source: String,
    pub target: String,
    pub seam_kind: String,
    pub score_0_10000: u32,
    pub summary: String,
    pub evidence: Vec<String>,
    pub reduction_file_count: usize,
    pub remaining_cycle_size: usize,
}

impl Default for CycleCutCandidate {
    fn default() -> (r: Self)
        ensures
            r.source@.len() == 0,
            r.target@.len() == 0,
            r.seam_kind@.len() == 0,
            r.score_0_10000 == 0,
            r.summary@.len() == 0,
            r.evidence@.len() == 0,
            r.reduction_file_count == 0,
            r.remaining_cycle_size == 0,
    {
        CycleCutCandidate {
            source: String::new(),
            target: String::new(),
            seam_kind: String::new(),
            score_0_10000: 0,
            summary: String::new(),
            evidence: Vec::new(),
            reduction_file_count: 0,
            remaining_cycle_size: 0,
        }
    }
}

/// One structural finding with its classification, texts and measures.
pub struct StructuralDebtReport {
    pub kind: String,
    pub trust_tier: StructuralTrustTier,
    pub presentation_class: StructuralPresentationClass,
    pub leverage_class: StructuralLeverageClass,
    pub scope: String,
    pub signal_class: StructuralSignalClass,
    pub signal_families: Vec<String>,
    pub severity: FindingSeverity,
    pub score_0_10000: u32,
    pub summary: String,
    pub impact: String,
    pub files: Vec<String>,
    pub role_tags: Vec<String>,
    pub leverage_reasons: Vec<String>,
    pub evidence: Vec<String>,
    pub inspection_focus: Vec<String>,
    pub candidate_split_axes: Vec<String>,
    pub related_surfaces: Vec<String>,
    pub cut_candidates: Vec<CycleCutCandidate>,
    pub metrics: StructuralDebtMetrics,
}

impl Default for StructuralDebtReport {
    fn default() -> (r: Self)
        ensures
            r.kind@.len() == 0,
            r.trust_tier == StructuralTrustTier::Trusted,
            r.presentation_class == StructuralPresentationClass::StructuralDebt,
            r.leverage_class == StructuralLeverageClass::SecondaryCleanup,
            r.scope@.len() == 0,
            r.signal_class == StructuralSignalClass::Debt,
            r.signal_families@.len() == 0,
            r.severity == FindingSeverity::Low,
            r.score_0_10000 == 0,
            r.summary@.len() == 0,
            r.impact@.len() == 0,
            r.files@.len() == 0,
            r.role_tags@.len() == 0,
            r.leverage_reasons@.len() == 0,
            r.evidence@.len() == 0,
            r.inspection_focus@.len() == 0,
            r.candidate_split_axes@.len() == 0,
            r.related_surfaces@.len() == 0,
            r.cut_candidates@.len() == 0,
            r.metrics == no_metrics(),
    {
        StructuralDebtReport {
            kind: String::new(),
            trust_tier: StructuralTrustTier::Trusted,
            presentation_class: StructuralPresentationClass::StructuralDebt,
            leverage_class: StructuralLeverageClass::SecondaryCleanup,
            scope: String::new(),
            signal_class: StructuralSignalClass::Debt,
            signal_families: Vec::new(),
            severity: FindingSeverity::Low,
            score_0_10000: 0,
            summary: String::new(),
            impact: String::new(),
            files: Vec::new(),
            role_tags: Vec::new(),
            leverage_reasons: Vec::new(),
            evidence: Vec::new(),
            inspection_focus: Vec::new(),
            candidate_split_axes: Vec::new(),
            related_surfaces: Vec::new(),
            cut_candidates: Vec::new(),
            metrics: StructuralDebtMetrics::default(),
        }
    }
}

/// A per-file measure of the health report.
pub struct FileMetric {
    pub path: String,
    pub value: usize,
}

/// A per-function measure of the health report.
pub struct FuncMetric {
    pub file: String,
    pub func: String,
    pub value: usize,
}

/// The parts of the health report that the structural reports read.
pub struct HealthReport {
    pub circular_dep_files: Vec<Vec<String>>,
    pub god_files: Vec<FileMetric>,
    pub hotspot_files: Vec<FileMetric>,
    pub long_files: Vec<FileMetric>,
    pub dead_functions: Vec<FuncMetric>,
}

/// The size thresholds of a language.
#[derive(Debug, Clone, Copy)]
pub struct LanguageThresholds {
    pub large_file_lines: u32,
    pub fan_out: usize,
    pub fan_in: usize,
}

/// The thresholds that apply to files of a language. This library holds no
/// per-language registry: every language gets the same fixed thresholds,
/// 500 lines, 15 dependencies and 20 dependents, whatever `lang` is.
pub open spec fn thresholds_of(lang: Text) -> LanguageThresholds {
    LanguageThresholds { large_file_lines: 500, fan_out: 15, fan_in: 20 }
}

/// The thresholds that apply to files of a language (see `thresholds_of`).
pub fn language_thresholds(lang: &str) -> (r: LanguageThresholds)
    ensures
        r == thresholds_of(lang@),
{
    LanguageThresholds { large_file_lines: 500, fan_out: 15, fan_in: 20 }
}

/// What the structural reports know about one analysed file.
pub struct FileFacts {
    pub path: String,
    pub lang: String,
    pub lines: usize,
    pub function_count: u32,
    pub max_complexity: u32,
    pub is_test: bool,
    pub is_package_index: bool,
    pub has_entry_tag: bool,
    pub public_function_count: usize,
    pub role_tags: Vec<String>,
    pub guardrail_tests: Vec<String>,
    pub facade_owner_factories: Vec<String>,
    pub boundary_guard_literals: Vec<String>,
}

} // verus!
