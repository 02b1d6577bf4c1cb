use sentrux_metrics::obligations::{
    build_obligation_findings, build_obligations, changed_concepts_from_obligations, ObligationScope, obligation_report_score,
    obligation_report_severity, obligation_score_0_10000, rounded_ratio_score, ObligationConfidence,
    ObligationOrigin, ObligationReport, ObligationSite, ObligationTrustTier,
};
use sentrux_metrics::obligations_contract::summarize_contract_missing_sites;
use sentrux_metrics::obligations_domain::changed_concept_ids_from_files;
use sentrux_metrics::semantic::{
    ClosedDomain, ConceptRule, ContractRule, ExhaustivenessProofKind, ExhaustivenessSite, ExhaustivenessSiteKind,
    ReadFact, RulesConfig, SemanticCapability, SemanticFileFact, SemanticSnapshot, SymbolFact,
};
use sentrux_metrics::FindingSeverity;

fn site(path: &str, detail: &str) -> ObligationSite {
    ObligationSite {
        path: path.to_string(),
        kind: "site".to_string(),
        line: None,
        detail: detail.to_string(),
    }
}

fn report(concept: Option<&str>, domain: Option<&str>, required: usize, satisfied: usize, missing: &[ObligationSite]) -> ObligationReport {
    ObligationReport {
        id: "o".to_string(),
        kind: "closed_domain_exhaustiveness".to_string(),
        concept_id: concept.map(|c| c.to_string()),
        domain_symbol_name: domain.map(|d| d.to_string()),
        origin: ObligationOrigin::Explicit,
        trust_tier: ObligationTrustTier::Trusted,
        confidence: ObligationConfidence::High,
        severity: FindingSeverity::High,
        score_0_10000: 9000,
        summary: "summary".to_string(),
        files: vec!["src/a.ts".to_string()],
        required_sites: (0..required).map(|i| site("src/a.ts", &format!("r{i}"))).collect(),
        satisfied_sites: (0..satisfied).map(|i| site("src/a.ts", &format!("s{i}"))).collect(),
        missing_sites: missing.iter().map(|s| site(&s.path, &s.detail)).collect(),
        missing_variants: Vec::new(),
        context_burden: 0,
    }
}

#[test]
fn obligation_findings_only_for_reports_with_missing_sites() {
    let reports = vec![
        report(Some("task_status"), None, 2, 1, &[site("src/x.ts", "switch")]),
        report(Some("other"), None, 1, 1, &[]),
    ];
    let findings = build_obligation_findings(&reports);
    assert_eq!(findings.len(), 1);
    assert_eq!(findings[0].concept_id, "task_status");
    assert_eq!(findings[0].evidence, vec!["src/x.ts [switch]".to_string()]);
}

#[test]
fn changed_concepts_are_sorted_unique_and_fall_back_to_domain() {
    let reports = vec![
        report(Some("zeta"), None, 0, 0, &[]),
        report(None, Some("Alpha"), 0, 0, &[]),
        report(Some("zeta"), None, 0, 0, &[]),
        report(None, None, 0, 0, &[]),
    ];
    assert_eq!(changed_concepts_from_obligations(&reports), vec!["Alpha".to_string(), "zeta".to_string()]);
}

#[test]
fn obligation_score_rounds_the_satisfied_share() {
    assert_eq!(obligation_score_0_10000(&Vec::new()), 10000);
    let reports = vec![report(None, None, 3, 1, &[]), report(None, None, 0, 0, &[])];
    assert_eq!(obligation_score_0_10000(&reports), 3333);
    assert_eq!(rounded_ratio_score(2, 3), 6667);
    assert_eq!(rounded_ratio_score(1, 8), 1250);
}

#[test]
fn obligation_severity_and_score_rules() {
    assert_eq!(
        obligation_report_severity("closed_domain_exhaustiveness", ObligationOrigin::ZeroConfig, 0),
        FindingSeverity::High
    );
    assert_eq!(obligation_report_severity("contract", ObligationOrigin::ZeroConfig, 0), FindingSeverity::Medium);
    assert_eq!(obligation_report_severity("contract", ObligationOrigin::Explicit, 0), FindingSeverity::High);
    assert_eq!(obligation_report_score(FindingSeverity::High, ObligationOrigin::Explicit, 1), 9900);
    assert_eq!(obligation_report_score(FindingSeverity::Medium, ObligationOrigin::ZeroConfig, 0), 7600);
    assert_eq!(obligation_report_score(FindingSeverity::High, ObligationOrigin::Explicit, 5), 10000);
}

fn strings(v: &[&str]) -> Vec<String> {
    v.iter().map(|s| s.to_string()).collect()
}

fn concept(id: &str) -> ConceptRule {
    ConceptRule {
        id: id.to_string(),
        kind: String::new(),
        priority: None,
        anchors: Vec::new(),
        authoritative_inputs: Vec::new(),
        allowed_writers: Vec::new(),
        forbid_writers: Vec::new(),
        forbid_raw_reads: Vec::new(),
        canonical_accessors: Vec::new(),
        related_tests: Vec::new(),
    }
}

fn contract(id: &str) -> ContractRule {
    ContractRule {
        id: id.to_string(),
        kind: String::new(),
        priority: None,
        categories_symbol: None,
        payload_map_symbol: None,
        registry_symbol: None,
        browser_entry: None,
        electron_entry: None,
        required_capabilities: Vec::new(),
        required_symbols: Vec::new(),
        required_files: Vec::new(),
        trigger_symbols: Vec::new(),
        trigger_files: Vec::new(),
    }
}

fn rules(concepts: Vec<ConceptRule>, contracts: Vec<ContractRule>) -> RulesConfig {
    RulesConfig { concept: concepts, contract: contracts, module_contract: Vec::new(), state_model: Vec::new() }
}

fn domain(path: &str, symbol: &str, variants: Vec<String>, line: u32) -> ClosedDomain {
    ClosedDomain {
        path: path.to_string(),
        symbol_name: symbol.to_string(),
        variants,
        line,
        defining_file: Some(path.to_string()),
    }
}

fn switch_site(path: &str, symbol: &str, defining: &str, proof: ExhaustivenessProofKind, covered: &[&str], line: u32) -> ExhaustivenessSite {
    ExhaustivenessSite {
        path: path.to_string(),
        domain_symbol_name: symbol.to_string(),
        defining_file: Some(defining.to_string()),
        site_kind: ExhaustivenessSiteKind::Switch,
        proof_kind: proof,
        covered_variants: strings(covered),
        line,
    }
}

fn domain_snapshot(domains: Vec<ClosedDomain>, sites: Vec<ExhaustivenessSite>) -> SemanticSnapshot {
    SemanticSnapshot {
        capabilities: vec![SemanticCapability::ClosedDomains, SemanticCapability::ClosedDomainSites],
        files: vec![SemanticFileFact { path: String::new() }],
        symbols: Vec::new(),
        reads: Vec::new(),
        writes: Vec::new(),
        closed_domains: domains,
        closed_domain_sites: sites,
        transition_sites: Vec::new(),
    }
}

fn file_fact(path: &str) -> SemanticFileFact {
    SemanticFileFact { path: path.to_string() }
}

fn symbol(id: &str, path: &str, name: &str, kind: &str, line: u32) -> SymbolFact {
    SymbolFact {
        id: id.to_string(),
        path: path.to_string(),
        name: name.to_string(),
        kind: kind.to_string(),
        line,
    }
}

fn contract_snapshot(files: Vec<SemanticFileFact>, symbols: Vec<SymbolFact>, reads: Vec<ReadFact>) -> SemanticSnapshot {
    SemanticSnapshot {
        capabilities: vec![SemanticCapability::Symbols, SemanticCapability::Reads],
        files,
        symbols,
        reads,
        writes: Vec::new(),
        closed_domains: Vec::new(),
        closed_domain_sites: Vec::new(),
        transition_sites: Vec::new(),
    }
}

const BOOT_DOMAIN: &str = "src/domain/server-state-bootstrap.ts";
const BOOT_REGISTRY: &str = "src/app/server-state-bootstrap-registry.ts";

fn bootstrap_contract() -> ContractRule {
    let mut c = contract("server_state_bootstrap");
    c.categories_symbol = Some(format!("{BOOT_DOMAIN}::SERVER_STATE_BOOTSTRAP_CATEGORIES"));
    c.payload_map_symbol = Some(format!("{BOOT_DOMAIN}::ServerStateBootstrapPayloadMap"));
    c.registry_symbol = Some(format!("{BOOT_REGISTRY}::SERVER_STATE_BOOTSTRAP_REGISTRY"));
    c.browser_entry = Some("src/runtime/browser-session.ts".to_string());
    c
}

fn bootstrap_symbols() -> Vec<SymbolFact> {
    vec![
        symbol("cats", BOOT_DOMAIN, "SERVER_STATE_BOOTSTRAP_CATEGORIES", "const", 3),
        symbol("payload", BOOT_DOMAIN, "ServerStateBootstrapPayloadMap", "type_alias", 8),
        symbol("registry", BOOT_REGISTRY, "SERVER_STATE_BOOTSTRAP_REGISTRY", "const", 5),
    ]
}

fn find_contract(obligations: &[ObligationReport]) -> &ObligationReport {
    obligations
        .iter()
        .find(|obligation| obligation.kind == "contract_surface_completeness")
        .expect("contract obligation")
}

#[test]
fn computes_missing_variants_and_related_test_obligations() {
    let mut c = concept("task_presentation_status");
    c.anchors = strings(&["src/app/task-presentation-status.ts::TaskDotStatus"]);
    c.related_tests = strings(&["src/app/task-presentation-status.test.ts"]);
    let config = rules(vec![c], Vec::new());
    let semantic = domain_snapshot(
        vec![domain("src/app/task-presentation-status.ts", "TaskDotStatus", strings(&["idle", "busy", "error"]), 4)],
        vec![switch_site(
            "src/components/Sidebar.tsx",
            "TaskDotStatus",
            "src/app/task-presentation-status.ts",
            ExhaustivenessProofKind::AssertNever,
            &["idle", "busy"],
            20,
        )],
    );
    let changed_files = strings(&["src/app/task-presentation-status.ts", "src/components/Sidebar.tsx"]);

    let obligations = build_obligations(&config, &semantic, ObligationScope::Changed, &changed_files);

    assert_eq!(obligations.len(), 1);
    assert_eq!(obligations[0].missing_variants, vec!["error".to_string()]);
    assert_eq!(obligations[0].missing_sites.len(), 2);
    assert!(obligations[0].missing_sites.iter().any(|site| site.kind == "related_test"));
    assert!(obligation_score_0_10000(&obligations) < 10000);
}

#[test]
fn closed_domain_exhaustiveness_findings_are_high_severity_without_site_coverage() {
    let missing = ObligationSite {
        path: "src/task-status.ts".to_string(),
        kind: "closed_domain".to_string(),
        line: Some(10),
        detail: "no exhaustive mapping or switch site found".to_string(),
    };
    let findings = build_obligation_findings(&vec![ObligationReport {
        id: "task_status".to_string(),
        kind: "closed_domain_exhaustiveness".to_string(),
        concept_id: None,
        domain_symbol_name: Some("TaskStatus".to_string()),
        origin: ObligationOrigin::ZeroConfig,
        trust_tier: ObligationTrustTier::Watchpoint,
        confidence: ObligationConfidence::Medium,
        severity: FindingSeverity::High,
        score_0_10000: 8900,
        summary: "missing exhaustive coverage".to_string(),
        files: vec!["src/task-status.ts".to_string()],
        required_sites: vec![site_copy(&missing)],
        satisfied_sites: Vec::new(),
        missing_sites: vec![site_copy(&missing)],
        missing_variants: Vec::new(),
        context_burden: 1,
    }]);

    assert_eq!(findings.len(), 1);
    assert_eq!(findings[0].severity, FindingSeverity::High);
}

fn site_copy(s: &ObligationSite) -> ObligationSite {
    ObligationSite {
        path: s.path.clone(),
        kind: s.kind.clone(),
        line: s.line,
        detail: s.detail.clone(),
    }
}

#[test]
fn changed_scope_includes_allowed_writer_paths() {
    let mut c = concept("task_state");
    c.anchors = strings(&["src/domain/task-state.ts::TaskState"]);
    c.allowed_writers = strings(&["src/app/task-state-writer.ts::*"]);
    let config = rules(vec![c], Vec::new());
    let semantic = domain_snapshot(
        vec![domain("src/domain/task-state.ts", "TaskState", strings(&["idle", "running"]), 1)],
        vec![switch_site(
            "src/app/presenter.ts",
            "TaskState",
            "src/domain/task-state.ts",
            ExhaustivenessProofKind::AssertNever,
            &["idle"],
            10,
        )],
    );
    let changed_files = strings(&["src/app/task-state-writer.ts"]);

    let obligations = build_obligations(&config, &semantic, ObligationScope::Changed, &changed_files);

    assert_eq!(obligations.len(), 1);
    assert_eq!(obligations[0].concept_id.as_deref(), Some("task_state"));
}

fn task_state_snapshot(site_path: &str) -> SemanticSnapshot {
    domain_snapshot(
        vec![domain("src/domain/task-state.ts", "TaskState", strings(&["idle", "running"]), 1)],
        vec![switch_site(
            site_path,
            "TaskState",
            "src/domain/task-state.ts",
            ExhaustivenessProofKind::AssertNever,
            &["idle"],
            10,
        )],
    )
}

#[test]
fn zero_config_domains_ignore_test_only_sites() {
    let config = rules(Vec::new(), Vec::new());
    let semantic = task_state_snapshot("src/domain/task-state.test.ts");

    let obligations = build_obligations(&config, &semantic, ObligationScope::All, &Vec::new());

    assert!(obligations.is_empty());
}

#[test]
fn zero_config_domains_ignore_large_variant_sets() {
    let config = rules(Vec::new(), Vec::new());
    let semantic = domain_snapshot(
        vec![domain("src/domain/ipc.ts", "IPC", (0..20).map(|index| format!("Variant{index}")).collect(), 1)],
        vec![switch_site(
            "src/app/ipc-switch.ts",
            "IPC",
            "src/domain/ipc.ts",
            ExhaustivenessProofKind::Switch,
            &["Variant0"],
            10,
        )],
    );

    let obligations = build_obligations(&config, &semantic, ObligationScope::All, &Vec::new());

    assert!(obligations.is_empty());
}

#[test]
fn zero_config_domains_are_not_in_changed_scope_when_unrelated_files_change() {
    let config = rules(Vec::new(), Vec::new());
    let semantic = task_state_snapshot("src/app/presenter.ts");
    let changed_files = strings(&["src/app/unrelated.ts"]);

    let obligations = build_obligations(&config, &semantic, ObligationScope::Changed, &changed_files);

    assert!(obligations.is_empty());
}

#[test]
fn zero_config_domain_reports_missing_variants_in_full_scope() {
    let config = rules(Vec::new(), Vec::new());
    let semantic = task_state_snapshot("src/app/presenter.ts");

    let obligations = build_obligations(&config, &semantic, ObligationScope::All, &Vec::new());

    assert_eq!(obligations.len(), 1);
    let o = &obligations[0];
    assert_eq!(o.id, "closed_domain::TaskState");
    assert_eq!(o.concept_id, None);
    assert_eq!(o.domain_symbol_name.as_deref(), Some("TaskState"));
    assert_eq!(o.origin, ObligationOrigin::ZeroConfig);
    assert_eq!(o.trust_tier, ObligationTrustTier::Watchpoint);
    assert_eq!(o.confidence, ObligationConfidence::Medium);
    assert_eq!(o.severity, FindingSeverity::High);
    assert_eq!(o.score_0_10000, 6000 + 1800 + 600 + 500);
    assert_eq!(o.summary, "Closed domain 'TaskState' is missing coverage for variants: running");
    assert_eq!(o.files, strings(&["src/app/presenter.ts", "src/domain/task-state.ts"]));
    assert_eq!(o.missing_sites.len(), 1);
    assert_eq!(o.missing_sites[0].kind, "switch");
    assert_eq!(o.missing_sites[0].line, Some(10));
    assert_eq!(o.missing_sites[0].detail, "missing variants: running");
    assert_eq!(o.context_burden, 1);

    let changed = build_obligations(&config, &semantic, ObligationScope::Changed, &strings(&["src/app/presenter.ts"]));
    assert_eq!(changed.len(), 1);
}

#[test]
fn concept_domain_without_sites_requires_declared_site() {
    let mut c = concept("task_state");
    c.anchors = strings(&["src/domain/task-state.ts::TaskState"]);
    let config = rules(vec![c], Vec::new());
    let semantic = domain_snapshot(vec![domain("src/domain/task-state.ts", "TaskState", strings(&["idle"]), 7)], Vec::new());

    let obligations = build_obligations(&config, &semantic, ObligationScope::All, &Vec::new());

    assert_eq!(obligations.len(), 1);
    let o = &obligations[0];
    assert_eq!(o.id, "task_state::TaskState");
    assert_eq!(o.origin, ObligationOrigin::Explicit);
    assert_eq!(o.missing_sites.len(), 1);
    assert_eq!(o.missing_sites[0].kind, "closed_domain");
    assert_eq!(o.missing_sites[0].line, Some(7));
    assert_eq!(o.missing_sites[0].detail, "no exhaustive mapping or switch site found for 'TaskState'");
    assert_eq!(o.summary, "Closed domain 'task_state' is missing required update sites");
}

#[test]
fn fully_covered_concept_domain_is_reported_as_covered() {
    let mut c = concept("task_state");
    c.anchors = strings(&["src/domain/task-state.ts::TaskState"]);
    let config = rules(vec![c], Vec::new());
    let semantic = domain_snapshot(
        vec![domain("src/domain/task-state.ts", "TaskState", strings(&["idle", "running"]), 1)],
        vec![switch_site(
            "src/app/presenter.ts",
            "TaskState",
            "src/domain/task-state.ts",
            ExhaustivenessProofKind::Switch,
            &["running", "idle"],
            3,
        )],
    );

    let obligations = build_obligations(&config, &semantic, ObligationScope::All, &Vec::new());

    assert_eq!(obligations.len(), 1);
    assert!(obligations[0].missing_sites.is_empty());
    assert_eq!(obligations[0].satisfied_sites[0].detail, "covers 2 variants via switch");
    assert_eq!(obligations[0].summary, "Closed domain 'task_state' is fully covered across 2 required sites");
}

#[test]
fn obligations_are_listed_by_concept_then_domain_then_id() {
    let mut a = concept("zeta");
    a.anchors = strings(&["src/a.ts::Alpha"]);
    let mut b = concept("alpha");
    b.anchors = strings(&["src/b.ts::Beta"]);
    let config = rules(vec![a, b], Vec::new());
    let semantic = domain_snapshot(
        vec![
            domain("src/a.ts", "Alpha", strings(&["x"]), 1),
            domain("src/b.ts", "Beta", strings(&["y"]), 1),
            domain("src/c.ts", "Gamma", strings(&["z", "w"]), 1),
        ],
        vec![switch_site("src/use.ts", "Gamma", "src/c.ts", ExhaustivenessProofKind::Switch, &["z"], 2)],
    );

    let obligations = build_obligations(&config, &semantic, ObligationScope::All, &Vec::new());
    let ids: Vec<&str> = obligations.iter().map(|o| o.id.as_str()).collect();

    assert_eq!(ids, vec!["closed_domain::Gamma", "alpha::Beta", "zeta::Alpha"]);
}

#[test]
fn changed_concept_ids_follow_governed_paths() {
    let mut a = concept("writer_concept");
    a.allowed_writers = strings(&["src/app/writer.ts::*"]);
    let mut b = concept("test_concept");
    b.related_tests = strings(&["src/**/*.test.ts"]);
    let mut c = concept("quiet");
    c.anchors = strings(&["src/quiet.ts::Quiet"]);
    let config = rules(vec![a, b, c], Vec::new());

    let ids = changed_concept_ids_from_files(&config, &strings(&["src/app/writer.ts", "src/app/x.test.ts"]));

    assert_eq!(ids, strings(&["test_concept", "writer_concept"]));
    assert!(changed_concept_ids_from_files(&config, &Vec::new()).is_empty());
}

#[test]
fn changed_scope_requires_related_contract_surfaces() {
    let mut c = bootstrap_contract();
    c.electron_entry = Some("src/app/desktop-session.ts".to_string());
    let config = rules(Vec::new(), vec![c]);
    let semantic = contract_snapshot(
        vec![
            file_fact(BOOT_DOMAIN),
            file_fact(BOOT_REGISTRY),
            file_fact("src/runtime/browser-session.ts"),
            file_fact("src/app/desktop-session.ts"),
        ],
        bootstrap_symbols(),
        Vec::new(),
    );
    let changed_files = strings(&[BOOT_DOMAIN]);

    let obligations = build_obligations(&config, &semantic, ObligationScope::Changed, &changed_files);

    let contract = find_contract(&obligations);
    assert_eq!(contract.concept_id.as_deref(), Some("server_state_bootstrap"));
    assert!(contract.missing_sites.iter().any(|site| site.kind == "registry_symbol"));
    assert!(contract.missing_sites.iter().any(|site| site.kind == "browser_entry"));
    assert!(contract.missing_sites.iter().any(|site| site.kind == "electron_entry"));
}

#[test]
fn changed_scope_triggers_contract_when_registry_surface_changes() {
    let mut c = bootstrap_contract();
    c.electron_entry = Some("src/app/desktop-session.ts".to_string());
    let config = rules(Vec::new(), vec![c]);
    let semantic = contract_snapshot(
        vec![
            file_fact(BOOT_DOMAIN),
            file_fact(BOOT_REGISTRY),
            file_fact("src/runtime/browser-session.ts"),
            file_fact("src/app/desktop-session.ts"),
        ],
        bootstrap_symbols(),
        Vec::new(),
    );
    let changed_files = strings(&[BOOT_REGISTRY]);

    let obligations = build_obligations(&config, &semantic, ObligationScope::Changed, &changed_files);

    let contract = find_contract(&obligations);
    assert!(contract.satisfied_sites.iter().any(|site| site.kind == "registry_symbol"));
    assert!(contract.missing_sites.iter().any(|site| site.kind == "categories_symbol"));
    assert!(contract.missing_sites.iter().any(|site| site.kind == "browser_entry"));
}

#[test]
fn changed_scope_triggers_from_semantically_related_contract_reader() {
    let mut c = bootstrap_contract();
    c.required_symbols = strings(&["src/app/bootstrap-persist.ts::serializeBootstrapPayload"]);
    let config = rules(Vec::new(), vec![c]);
    let mut symbols = bootstrap_symbols();
    symbols.push(symbol("persist", "src/app/bootstrap-persist.ts", "serializeBootstrapPayload", "function", 12));
    let semantic = contract_snapshot(
        vec![
            file_fact(BOOT_DOMAIN),
            file_fact(BOOT_REGISTRY),
            file_fact("src/runtime/browser-session.ts"),
            file_fact("src/app/bootstrap-persist.ts"),
            file_fact("src/app/bootstrap-adapter.ts"),
        ],
        symbols,
        vec![ReadFact {
            path: "src/app/bootstrap-adapter.ts".to_string(),
            symbol_name: "ServerStateBootstrapPayloadMap".to_string(),
            read_kind: "type_reference".to_string(),
            line: 21,
        }],
    );
    let changed_files = strings(&["src/app/bootstrap-adapter.ts"]);

    let obligations = build_obligations(&config, &semantic, ObligationScope::Changed, &changed_files);

    let contract = find_contract(&obligations);
    assert!(contract.files.contains(&"src/app/bootstrap-adapter.ts".to_string()));
    assert!(contract.summary.contains("bootstrap-adapter.ts"));
    assert!(contract.missing_sites.iter().any(|site| site.kind == "required_symbol"));
}

#[test]
fn changed_scope_triggers_from_semantically_related_contract_symbol_declaration() {
    let mut c = contract("server_state_bootstrap");
    c.payload_map_symbol = Some(format!("{BOOT_DOMAIN}::ServerStateBootstrapPayloadMap"));
    c.required_symbols = strings(&["src/app/bootstrap-persist.ts::serializeBootstrapPayload"]);
    let config = rules(Vec::new(), vec![c]);
    let semantic = contract_snapshot(
        vec![
            file_fact(BOOT_DOMAIN),
            file_fact("src/app/bootstrap-persist.ts"),
            file_fact("src/app/bootstrap-field-adapter.ts"),
        ],
        vec![
            symbol("payload", BOOT_DOMAIN, "ServerStateBootstrapPayloadMap", "type_alias", 8),
            symbol("persist", "src/app/bootstrap-persist.ts", "serializeBootstrapPayload", "function", 12),
            symbol(
                "field",
                "src/app/bootstrap-field-adapter.ts",
                "ServerStateBootstrapPayloadMap.snapshot",
                "property_signature",
                4,
            ),
        ],
        Vec::new(),
    );
    let changed_files = strings(&["src/app/bootstrap-field-adapter.ts"]);

    let obligations = build_obligations(&config, &semantic, ObligationScope::Changed, &changed_files);

    let contract = find_contract(&obligations);
    assert!(contract.files.contains(&"src/app/bootstrap-field-adapter.ts".to_string()));
    assert!(contract.summary.contains("bootstrap-field-adapter.ts"));
}

#[test]
fn changed_scope_ignores_test_only_contract_readers() {
    let mut c = contract("server_state_bootstrap");
    c.categories_symbol = Some(format!("{BOOT_DOMAIN}::SERVER_STATE_BOOTSTRAP_CATEGORIES"));
    c.registry_symbol = Some(format!("{BOOT_REGISTRY}::SERVER_STATE_BOOTSTRAP_REGISTRY"));
    c.browser_entry = Some("src/runtime/browser-session.ts".to_string());
    let config = rules(Vec::new(), vec![c]);
    let semantic = contract_snapshot(
        vec![
            file_fact(BOOT_DOMAIN),
            file_fact(BOOT_REGISTRY),
            file_fact("src/runtime/browser-session.ts"),
            file_fact("src/app/server-state-bootstrap.test.ts"),
        ],
        vec![
            symbol("cats", BOOT_DOMAIN, "SERVER_STATE_BOOTSTRAP_CATEGORIES", "const", 3),
            symbol("registry", BOOT_REGISTRY, "SERVER_STATE_BOOTSTRAP_REGISTRY", "const", 5),
        ],
        vec![ReadFact {
            path: "src/app/server-state-bootstrap.test.ts".to_string(),
            symbol_name: "SERVER_STATE_BOOTSTRAP_CATEGORIES".to_string(),
            read_kind: "property_access".to_string(),
            line: 12,
        }],
    );
    let changed_files = strings(&["src/app/server-state-bootstrap.test.ts"]);

    let obligations = build_obligations(&config, &semantic, ObligationScope::Changed, &changed_files);

    assert!(obligations.is_empty());
}

fn empty_symbols_snapshot() -> SemanticSnapshot {
    contract_snapshot(Vec::new(), Vec::new(), Vec::new())
}

#[test]
fn all_scope_reports_missing_declared_contract_sites() {
    let mut c = contract("server_state_bootstrap");
    c.categories_symbol = Some(format!("{BOOT_DOMAIN}::SERVER_STATE_BOOTSTRAP_CATEGORIES"));
    c.browser_entry = Some("src/runtime/browser-session.ts".to_string());
    let config = rules(Vec::new(), vec![c]);

    let obligations = build_obligations(&config, &empty_symbols_snapshot(), ObligationScope::All, &Vec::new());

    let contract = find_contract(&obligations);
    assert_eq!(contract.missing_sites.len(), 2);
    assert!(contract
        .missing_sites
        .iter()
        .all(|site| site.detail.contains("declared contract site is missing")));
}

#[test]
fn all_scope_reports_required_contract_extensions() {
    let mut c = contract("server_state_bootstrap");
    c.categories_symbol = Some(format!("{BOOT_DOMAIN}::SERVER_STATE_BOOTSTRAP_CATEGORIES"));
    c.registry_symbol = Some(format!("{BOOT_REGISTRY}::SERVER_STATE_BOOTSTRAP_REGISTRY"));
    c.required_symbols = strings(&["src/app/bootstrap-persist.ts::serializeBootstrapPayload"]);
    c.required_files = strings(&["src/runtime/server-state-bootstrap.ts"]);
    let config = rules(Vec::new(), vec![c]);

    let obligations = build_obligations(&config, &empty_symbols_snapshot(), ObligationScope::All, &Vec::new());

    let contract = find_contract(&obligations);
    assert!(contract.missing_sites.iter().any(|site| site.kind == "required_symbol"));
    assert!(contract.missing_sites.iter().any(|site| site.kind == "required_file"));
}

#[test]
fn contract_missing_sites_prioritize_runtime_and_registry_surfaces() {
    let mut c = contract("server_state_bootstrap");
    c.registry_symbol = Some(format!("{BOOT_REGISTRY}::SERVER_STATE_BOOTSTRAP_REGISTRY"));
    c.browser_entry = Some("src/runtime/browser-session.ts".to_string());
    c.required_files = strings(&["src/app/bootstrap-persist.ts"]);
    let config = rules(Vec::new(), vec![c]);

    let obligations = build_obligations(&config, &empty_symbols_snapshot(), ObligationScope::All, &Vec::new());

    let contract = find_contract(&obligations);
    assert_eq!(contract.missing_sites.first().map(|site| site.kind.as_str()), Some("browser_entry"));
    assert_eq!(contract.missing_sites.get(1).map(|site| site.kind.as_str()), Some("registry_symbol"));
    assert_eq!(contract.missing_sites.get(2).map(|site| site.kind.as_str()), Some("required_file"));
}

#[test]
fn contract_missing_site_summary_dedupes_non_adjacent_labels() {
    let summary = summarize_contract_missing_sites(&vec![
        ObligationSite {
            path: "src/app/bootstrap-adapter.ts".to_string(),
            kind: "required_symbol".to_string(),
            line: None,
            detail: "update adapter".to_string(),
        },
        ObligationSite {
            path: "src/runtime/browser-session.ts".to_string(),
            kind: "browser_entry".to_string(),
            line: None,
            detail: "update browser runtime entry".to_string(),
        },
        ObligationSite {
            path: "src/app/bootstrap-persist.ts".to_string(),
            kind: "required_symbol".to_string(),
            line: None,
            detail: "update required contract symbol".to_string(),
        },
    ]);

    assert_eq!(summary, "the required symbol and browser runtime entry surfaces");
}

#[test]
fn contract_summary_counts_other_surfaces_and_names_identity() {
    let mut c = contract("boot");
    c.categories_symbol = Some("src/a.ts::A".to_string());
    c.registry_symbol = Some("src/b.ts::B".to_string());
    c.browser_entry = Some("src/c.ts".to_string());
    c.required_files = strings(&["src/d.ts"]);
    let config = rules(Vec::new(), vec![c]);

    let obligations = build_obligations(&config, &empty_symbols_snapshot(), ObligationScope::All, &Vec::new());

    let contract = find_contract(&obligations);
    assert_eq!(contract.id, "contract::boot");
    assert_eq!(contract.summary, "Contract 'boot' is missing the browser runtime entry, registry and 2 other required surfaces");
    assert_eq!(contract.missing_sites[0].detail, "declared contract site is missing from semantic snapshot: src/c.ts");
    assert_eq!(contract.missing_sites[1].detail, "declared contract site is missing from semantic snapshot: B");
    assert_eq!(contract.origin, ObligationOrigin::Explicit);
    assert_eq!(contract.severity, FindingSeverity::High);
    assert_eq!(contract.score_0_10000, 10000);
    assert_eq!(contract.context_burden, 4);
}

#[test]
fn zero_config_domain_matching_prefers_defining_file() {
    let config = rules(Vec::new(), Vec::new());
    let semantic = domain_snapshot(
        vec![
            domain("src/domain/task-state.ts", "TaskState", strings(&["idle", "running"]), 1),
            domain("src/legacy/task-state.ts", "TaskState", strings(&["ready", "done"]), 1),
        ],
        vec![switch_site(
            "src/app/presenter.ts",
            "TaskState",
            "src/legacy/task-state.ts",
            ExhaustivenessProofKind::AssertNever,
            &["ready"],
            14,
        )],
    );

    let obligations = build_obligations(&config, &semantic, ObligationScope::All, &Vec::new());

    assert_eq!(obligations.len(), 1);
    assert!(obligations[0].summary.contains("src/legacy/task-state.ts"));
    assert_eq!(obligations[0].missing_variants, vec!["done".to_string()]);

    let findings = build_obligation_findings(&obligations);
    assert_eq!(findings.len(), 1);
    assert!(findings[0].evidence.iter().any(|entry| entry.contains("src/legacy/task-state.ts")));
    assert!(findings[0].evidence.iter().any(|entry| entry.contains("ready, done")));
}
