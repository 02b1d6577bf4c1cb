use sentrux_metrics::obligations::{
    build_obligations, ObligationConfidence, ObligationScope, ObligationOrigin, ObligationReport, ObligationSite, ObligationTrustTier,
};
use sentrux_metrics::semantic::{
    ClosedDomain, ConceptRule, ExhaustivenessProofKind, ExhaustivenessSite, ExhaustivenessSiteKind, RulesConfig, SemanticCapability,
    SemanticSnapshot, StateModelRule, TransitionKind, TransitionSite,
};
use sentrux_metrics::state::{
    build_state_integrity_findings, build_state_integrity_reports, changed_state_model_ids_from_files,
    explicitness_score_0_10000, state_integrity_score_0_10000, StateIntegrityReport, StateScope,
};
use sentrux_metrics::FindingSeverity;

const CONTROLLER: &str = "src/runtime/browser-state-sync-controller.ts";
const DOMAIN_FILE: &str = "src/domain/browser-sync-state.ts";

fn strings(v: &[&str]) -> Vec<String> {
    v.iter().map(|s| s.to_string()).collect()
}

fn model(id: &str, roots: &[&str], switch: bool, assert_never: bool) -> StateModelRule {
    StateModelRule {
        id: id.to_string(),
        kind: String::new(),
        roots: strings(roots),
        require_exhaustive_switch: switch,
        require_assert_never: assert_never,
    }
}

fn config(models: Vec<StateModelRule>) -> RulesConfig {
    RulesConfig { concept: Vec::new(), contract: Vec::new(), module_contract: Vec::new(), state_model: models }
}

fn domain(variants: &[&str]) -> ClosedDomain {
    ClosedDomain {
        path: DOMAIN_FILE.to_string(),
        symbol_name: "BrowserSyncState".to_string(),
        variants: strings(variants),
        line: 1,
        defining_file: Some(DOMAIN_FILE.to_string()),
    }
}

fn switch_site(proof_kind: ExhaustivenessProofKind, covered: &[&str], line: u32) -> ExhaustivenessSite {
    ExhaustivenessSite {
        path: CONTROLLER.to_string(),
        domain_symbol_name: "BrowserSyncState".to_string(),
        defining_file: Some(DOMAIN_FILE.to_string()),
        site_kind: ExhaustivenessSiteKind::Switch,
        proof_kind,
        covered_variants: strings(covered),
        line,
    }
}

fn transition(group_line: usize, source: &str, targets: &[&str], line: usize) -> TransitionSite {
    TransitionSite {
        path: CONTROLLER.to_string(),
        domain_symbol_name: "BrowserSyncState".to_string(),
        group_id: format!("{CONTROLLER}:{group_line}:BrowserSyncState"),
        transition_kind: TransitionKind::SwitchCase,
        source_variant: Some(source.to_string()),
        target_variants: strings(targets),
        line,
    }
}

fn snapshot(
    capabilities: Vec<SemanticCapability>,
    domains: Vec<ClosedDomain>,
    sites: Vec<ExhaustivenessSite>,
    transitions: Vec<TransitionSite>,
) -> SemanticSnapshot {
    SemanticSnapshot {
        capabilities,
        files: Vec::new(),
        symbols: Vec::new(),
        reads: Vec::new(),
        writes: Vec::new(),
        closed_domains: domains,
        closed_domain_sites: sites,
        transition_sites: transitions,
    }
}

fn all_capabilities() -> Vec<SemanticCapability> {
    vec![
        SemanticCapability::ClosedDomains,
        SemanticCapability::ClosedDomainSites,
        SemanticCapability::TransitionSites,
    ]
}

#[test]
fn state_reports_flag_unmapped_roots_and_changed_models() {
    let config = config(vec![model("orphan_state_model", &["src/runtime/orphan-controller.ts"], true, false)]);
    let semantic = snapshot(Vec::new(), Vec::new(), Vec::new(), Vec::new());

    let changed_files = strings(&["src/runtime/orphan-controller.ts"]);
    let reports = build_state_integrity_reports(&config, &semantic, &Vec::new(), StateScope::Changed, &changed_files);
    let findings = build_state_integrity_findings(&reports);

    assert_eq!(reports.len(), 1);
    assert_eq!(reports[0].domain_symbol_names.len(), 0);
    assert!(findings.iter().any(|finding| finding.kind == "state_model_unmapped"));
    assert_eq!(
        changed_state_model_ids_from_files(&config, &changed_files),
        vec!["orphan_state_model".to_string()]
    );
}

#[test]
fn state_reports_capture_transition_gaps() {
    let config = config(vec![model("browser_state_sync", &[CONTROLLER], true, true)]);
    let semantic = snapshot(
        all_capabilities(),
        vec![domain(&["idle", "running", "error"])],
        vec![switch_site(ExhaustivenessProofKind::AssertNever, &["idle", "running", "error"], 12)],
        vec![
            transition(12, "idle", &["running"], 13),
            transition(12, "running", &["error"], 17),
            transition(12, "error", &[], 21),
        ],
    );

    let reports = build_state_integrity_reports(&config, &semantic, &Vec::new(), StateScope::All, &Vec::new());
    let findings = build_state_integrity_findings(&reports);

    assert_eq!(reports.len(), 1);
    assert_eq!(reports[0].missing_transition_variants, vec!["error".to_string()]);
    assert_eq!(reports[0].transition_gap_sites.len(), 1);
    assert!(findings.iter().any(|finding| finding.kind == "state_model_transition_coverage_gap"));
}

#[test]
fn state_reports_flag_missing_transition_source_variants() {
    let config = config(vec![model("browser_state_sync", &[CONTROLLER], false, false)]);
    let semantic = snapshot(
        all_capabilities(),
        vec![domain(&["idle", "running", "error"])],
        vec![switch_site(ExhaustivenessProofKind::Switch, &["idle", "running"], 8)],
        vec![transition(8, "idle", &["running"], 9), transition(8, "running", &["error"], 13)],
    );

    let reports = build_state_integrity_reports(&config, &semantic, &Vec::new(), StateScope::All, &Vec::new());
    let findings = build_state_integrity_findings(&reports);

    assert_eq!(reports.len(), 1);
    assert!(reports[0].transition_gap_sites.is_empty());
    assert_eq!(reports[0].missing_transition_variants, vec!["error".to_string()]);
    assert!(findings.iter().any(|finding| finding.kind == "state_model_transition_coverage_gap"));
}

#[test]
fn state_reports_treat_all_empty_transition_groups_as_gaps() {
    let config = config(vec![model("browser_state_sync", &[CONTROLLER], false, false)]);
    let semantic = snapshot(
        all_capabilities(),
        vec![domain(&["idle", "running", "error"])],
        vec![switch_site(ExhaustivenessProofKind::Switch, &["idle", "running", "error"], 8)],
        vec![transition(8, "idle", &[], 9), transition(8, "running", &[], 13)],
    );

    let reports = build_state_integrity_reports(&config, &semantic, &Vec::new(), StateScope::All, &Vec::new());

    assert_eq!(reports.len(), 1);
    assert_eq!(reports[0].transition_gap_sites.len(), 2);
    assert!(reports[0].explicitness_score_0_10000 < 10000);
}

#[test]
fn state_reports_flag_missing_transition_sites() {
    let config = config(vec![model("browser_state_sync", &[CONTROLLER], true, false)]);
    let semantic = snapshot(
        all_capabilities(),
        vec![domain(&["idle", "running"])],
        vec![switch_site(ExhaustivenessProofKind::Switch, &["idle", "running"], 8)],
        Vec::new(),
    );

    let reports = build_state_integrity_reports(&config, &semantic, &Vec::new(), StateScope::All, &Vec::new());
    let findings = build_state_integrity_findings(&reports);

    assert!(findings.iter().any(|finding| finding.kind == "state_model_missing_transition_sites"));
}

#[test]
fn state_reports_do_not_require_transition_sites_without_support() {
    let config = config(vec![model("browser_state_sync", &[CONTROLLER], false, false)]);
    let semantic = snapshot(
        vec![SemanticCapability::ClosedDomains, SemanticCapability::ClosedDomainSites],
        vec![domain(&["idle", "running"])],
        vec![switch_site(ExhaustivenessProofKind::Switch, &["idle", "running"], 8)],
        Vec::new(),
    );

    let reports = build_state_integrity_reports(&config, &semantic, &Vec::new(), StateScope::All, &Vec::new());
    let findings = build_state_integrity_findings(&reports);

    assert_eq!(reports.len(), 1);
    assert!(!findings.iter().any(|finding| finding.kind == "state_model_missing_transition_sites"));
}

fn site(path: &str, detail: &str) -> ObligationSite {
    ObligationSite {
        path: path.to_string(),
        kind: "switch".to_string(),
        line: Some(3),
        detail: detail.to_string(),
    }
}

fn domain_obligation(required: Vec<ObligationSite>, satisfied: Vec<ObligationSite>, missing_variants: &[&str]) -> ObligationReport {
    let missing: Vec<ObligationSite> = Vec::new();
    ObligationReport {
        id: "closed_domain:BrowserSyncState".to_string(),
        kind: "closed_domain_exhaustiveness".to_string(),
        concept_id: None,
        domain_symbol_name: Some("BrowserSyncState".to_string()),
        origin: ObligationOrigin::Explicit,
        trust_tier: ObligationTrustTier::Trusted,
        confidence: ObligationConfidence::High,
        severity: FindingSeverity::High,
        score_0_10000: 5000,
        summary: "summary".to_string(),
        files: strings(&[CONTROLLER]),
        required_sites: required,
        satisfied_sites: satisfied,
        missing_sites: missing,
        missing_variants: strings(missing_variants),
        context_burden: 3,
    }
}

#[test]
fn state_reports_merge_related_obligations_and_score_explicitness() {
    let config = config(vec![model("browser_state_sync", &[CONTROLLER], true, true)]);
    let semantic = snapshot(
        all_capabilities(),
        vec![domain(&["idle", "running", "error"])],
        vec![switch_site(ExhaustivenessProofKind::Switch, &["idle", "running"], 12)],
        Vec::new(),
    );
    let obligations = vec![domain_obligation(
        vec![site(CONTROLLER, "b"), site(CONTROLLER, "a"), site(CONTROLLER, "a")],
        vec![site(CONTROLLER, "a")],
        &["error"],
    )];

    let reports = build_state_integrity_reports(&config, &semantic, &obligations, StateScope::All, &Vec::new());
    let report = &reports[0];

    assert_eq!(report.required_sites.len(), 2);
    assert_eq!(report.required_sites[0].detail, "a");
    assert_eq!(report.missing_variants, vec!["error".to_string()]);
    assert_eq!(report.missing_assert_never_domains, vec!["BrowserSyncState".to_string()]);
    assert!(report.missing_exhaustive_switch_domains.is_empty());
    assert_eq!(report.files, vec![DOMAIN_FILE.to_string(), CONTROLLER.to_string()]);
    assert_eq!(report.context_burden, 3);
    // components: 1, 1/2 satisfied, 1 switch, 0 assertNever, 0 transitions -> 2.5 / 5
    assert_eq!(report.explicitness_score_0_10000, 5000);

    let findings = build_state_integrity_findings(&reports);
    let kinds: Vec<&str> = findings.iter().map(|f| f.kind.as_str()).collect();
    assert_eq!(
        kinds,
        vec![
            "state_model_missing_assert_never",
            "state_model_missing_variant_coverage",
            "state_model_missing_transition_sites"
        ]
    );
    assert_eq!(
        findings[1].summary,
        "State model 'browser_state_sync' is missing coverage for 1 variant(s)"
    );
    assert_eq!(findings[1].severity, FindingSeverity::High);
}

#[test]
fn explicitness_score_rounds_half_up_and_is_zero_without_domains() {
    let m = model("m", &[], false, false);
    assert_eq!(explicitness_score_0_10000(&m, 0, 5, 1, 1, 0, 0, true, 1, 0), 0);
    // 1 + 1/3 over two components: 6666.67 -> 6667
    assert_eq!(explicitness_score_0_10000(&m, 1, 0, 3, 1, 0, 0, false, 0, 0), 6667);
    // no required sites and no sites: (1 + 0) / 2
    assert_eq!(explicitness_score_0_10000(&m, 1, 0, 0, 0, 0, 0, false, 0, 0), 5000);
    // everything explicit
    let strict = model("m", &[], true, true);
    assert_eq!(explicitness_score_0_10000(&strict, 2, 2, 4, 9, 0, 0, true, 3, 0), 10000);
}

#[test]
fn state_score_averages_and_defaults_to_full() {
    assert_eq!(state_integrity_score_0_10000(&Vec::new()), 10000);
    let config = config(vec![
        model("a", &["src/a.ts"], false, false),
        model("b", &["src/b.ts"], false, false),
    ]);
    let semantic = snapshot(Vec::new(), Vec::new(), Vec::new(), Vec::new());
    let reports: Vec<StateIntegrityReport> =
        build_state_integrity_reports(&config, &semantic, &Vec::new(), StateScope::All, &Vec::new());
    assert_eq!(reports.len(), 2);
    assert_eq!(reports[0].id, "a");
    assert_eq!(state_integrity_score_0_10000(&reports), 0);
    let changed = build_state_integrity_reports(&config, &semantic, &Vec::new(), StateScope::Changed, &Vec::new());
    assert!(changed.is_empty());
}

#[test]
fn state_reports_capture_missing_assert_never_and_variants() {
    let mut config = config(vec![model("browser_state_sync", &[CONTROLLER], true, true)]);
    config.concept = vec![ConceptRule {
        id: "browser_sync_state".to_string(),
        kind: String::new(),
        priority: None,
        anchors: strings(&["src/domain/browser-sync-state.ts::BrowserSyncState"]),
        authoritative_inputs: Vec::new(),
        allowed_writers: Vec::new(),
        forbid_writers: Vec::new(),
        forbid_raw_reads: Vec::new(),
        canonical_accessors: Vec::new(),
        related_tests: Vec::new(),
    }];
    let semantic = snapshot(
        all_capabilities(),
        vec![domain(&["idle", "running", "error"])],
        vec![switch_site(ExhaustivenessProofKind::Switch, &["idle", "running"], 12)],
        Vec::new(),
    );
    let obligations = build_obligations(&config, &semantic, ObligationScope::All, &Vec::new());

    let reports = build_state_integrity_reports(&config, &semantic, &obligations, StateScope::All, &Vec::new());
    let findings = build_state_integrity_findings(&reports);

    assert_eq!(reports.len(), 1);
    assert_eq!(reports[0].missing_variants, vec!["error".to_string()]);
    assert_eq!(reports[0].missing_assert_never_domains, vec!["BrowserSyncState".to_string()]);
    assert!(reports[0].explicitness_score_0_10000 < 10000);
    assert!(findings.iter().any(|finding| finding.kind == "state_model_missing_assert_never"));
    assert!(findings.iter().any(|finding| finding.kind == "state_model_missing_variant_coverage"));
    assert!(state_integrity_score_0_10000(&reports) < 10000);
}
