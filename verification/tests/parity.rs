use sentrux_metrics::parity::{build_parity_findings, parity_score_0_10000, ContractParityReport, ParityCell, ParityScope};
use sentrux_metrics::parity_build::{build_parity_reports, contains_token, ParitySource};
use sentrux_metrics::semantic::{
    ConceptRule, ContractRule, RulesConfig, SemanticCapability, SemanticFileFact, SemanticSnapshot, SymbolFact,
};
use sentrux_metrics::FindingSeverity;

fn cell(kind: &str, path: Option<&str>) -> ParityCell {
    ParityCell {
        kind: kind.to_string(),
        status: "missing".to_string(),
        detail: format!("{kind} detail"),
        path: path.map(|p| p.to_string()),
    }
}

fn report(id: &str, satisfied: Vec<ParityCell>, missing: Vec<ParityCell>) -> ContractParityReport {
    ContractParityReport {
        id: id.to_string(),
        kind: "contract".to_string(),
        priority: None,
        files: Vec::new(),
        satisfied_cells: satisfied,
        missing_cells: missing,
        score_0_10000: 0,
        summary: String::new(),
    }
}

#[test]
fn parity_findings_follow_missing_cells() {
    let reports = vec![report(
        "bootstrap",
        vec![cell("registry_symbol", None)],
        vec![cell("browser_entry", Some("src/browser.ts")), cell("versioning", None), cell("payload_map_symbol", None)],
    )];
    let findings = build_parity_findings(&reports);
    assert_eq!(findings.len(), 3);
    assert_eq!(findings[0].kind, "missing_browser_path");
    assert_eq!(findings[0].files, vec!["src/browser.ts".to_string()]);
    assert_eq!(findings[0].summary, "Contract 'bootstrap' is missing browser_entry");
    assert_eq!(findings[1].kind, "parity_version_gap");
    assert_eq!(findings[1].severity, FindingSeverity::Medium);
    assert!(findings[1].files.is_empty());
    assert_eq!(findings[2].kind, "missing_contract_symbol");
}

#[test]
fn parity_score_is_satisfied_share() {
    assert_eq!(parity_score_0_10000(&Vec::new()), 10000);
    let reports = vec![report("a", vec![cell("x", None)], vec![cell("y", None), cell("z", None)])];
    assert_eq!(parity_score_0_10000(&reports), 3333);
}

fn strings(v: &[&str]) -> Vec<String> {
    v.iter().map(|s| s.to_string()).collect()
}

fn contract(id: &str) -> ContractRule {
    ContractRule {
        id: id.to_string(),
        kind: String::new(),
        priority: None,
        categories_symbol: None,
        payload_map_symbol: None,
        registry_symbol: None,
        browser_entry: None,
        electron_entry: None,
        required_capabilities: Vec::new(),
        required_symbols: Vec::new(),
        required_files: Vec::new(),
        trigger_symbols: Vec::new(),
        trigger_files: Vec::new(),
    }
}

fn bootstrap_contract(id: &str) -> ContractRule {
    let mut c = contract(id);
    c.categories_symbol = Some("src/domain/bootstrap.ts::SERVER_STATE_BOOTSTRAP_CATEGORIES".to_string());
    c.registry_symbol = Some("src/app/registry.ts::SERVER_STATE_BOOTSTRAP_REGISTRY".to_string());
    c.browser_entry = Some("src/runtime/browser.ts".to_string());
    c
}

fn rules(concepts: Vec<ConceptRule>, contracts: Vec<ContractRule>) -> RulesConfig {
    RulesConfig { concept: concepts, contract: contracts, module_contract: Vec::new(), state_model: Vec::new() }
}

fn symbol(id: &str, path: &str, name: &str, kind: &str, line: u32) -> SymbolFact {
    SymbolFact {
        id: id.to_string(),
        path: path.to_string(),
        name: name.to_string(),
        kind: kind.to_string(),
        line,
    }
}

fn semantic(symbols: Vec<SymbolFact>) -> SemanticSnapshot {
    SemanticSnapshot {
        capabilities: vec![SemanticCapability::Symbols],
        files: vec![SemanticFileFact { path: String::new() }],
        symbols,
        reads: Vec::new(),
        writes: Vec::new(),
        closed_domains: Vec::new(),
        closed_domain_sites: Vec::new(),
        transition_sites: Vec::new(),
    }
}

fn empty_semantic() -> SemanticSnapshot {
    SemanticSnapshot {
        capabilities: Vec::new(),
        files: Vec::new(),
        symbols: Vec::new(),
        reads: Vec::new(),
        writes: Vec::new(),
        closed_domains: Vec::new(),
        closed_domain_sites: Vec::new(),
        transition_sites: Vec::new(),
    }
}

fn present(path: &str, content: &str) -> ParitySource {
    ParitySource { path: path.to_string(), exists: true, content: Ok(content.to_string()) }
}

fn absent(path: &str) -> ParitySource {
    ParitySource { path: path.to_string(), exists: false, content: Err("No such file or directory (os error 2)".to_string()) }
}

fn bootstrap_symbols() -> Vec<SymbolFact> {
    vec![
        symbol("categories", "src/domain/bootstrap.ts", "SERVER_STATE_BOOTSTRAP_CATEGORIES", "const", 1),
        symbol("registry", "src/app/registry.ts", "SERVER_STATE_BOOTSTRAP_REGISTRY", "const", 1),
    ]
}

fn report_by_id<'a>(reports: &'a [ContractParityReport], id: &str) -> &'a ContractParityReport {
    reports.iter().find(|report| report.id == id).expect("report")
}

#[test]
fn reports_missing_runtime_and_versioning_cells() {
    let mut c = bootstrap_contract("server_state_bootstrap");
    c.required_capabilities = strings(&["snapshot", "live_updates", "versioning"]);
    let config = rules(Vec::new(), vec![c]);
    let sources = vec![
        present("src/domain/bootstrap.ts", "export const SERVER_STATE_BOOTSTRAP_CATEGORIES = ['task'];\n"),
        present("src/app/registry.ts", "export const SERVER_STATE_BOOTSTRAP_REGISTRY = {};\n"),
        absent("src/runtime/browser.ts"),
    ];

    let result = build_parity_reports(&config, &semantic(bootstrap_symbols()), &sources, ParityScope::All, &Vec::new());
    let reports = result.reports;
    let report = report_by_id(&reports, "server_state_bootstrap");

    assert!(report.missing_cells.iter().any(|cell| cell.kind == "browser_entry"));
    assert!(!report.missing_cells.iter().any(|cell| cell.kind == "browser_live_update_binding"));
    assert!(report.missing_cells.iter().any(|cell| cell.kind == "versioning"));
    assert!(parity_score_0_10000(&reports) < 10000);
    assert!(result.read_warnings.is_empty());
}

#[test]
fn changed_scope_filters_untouched_contracts() {
    let config = rules(Vec::new(), vec![bootstrap_contract("bootstrap")]);
    let changed_files = strings(&["src/runtime/browser.ts"]);

    let reports = build_parity_reports(&config, &empty_semantic(), &Vec::new(), ParityScope::Changed, &changed_files).reports;

    assert_eq!(reports.len(), 1);

    let untouched = strings(&["src/other.ts"]);
    assert!(build_parity_reports(&config, &empty_semantic(), &Vec::new(), ParityScope::Changed, &untouched)
        .reports
        .is_empty());
}

#[test]
fn runtime_binding_requires_exact_identifier_match() {
    let mut c = bootstrap_contract("bootstrap");
    c.required_capabilities = strings(&["live_updates"]);
    let config = rules(Vec::new(), vec![c]);
    let sources = vec![
        present("src/domain/bootstrap.ts", "export const SERVER_STATE_BOOTSTRAP_CATEGORIES = ['task'];\n"),
        present("src/app/registry.ts", "export const SERVER_STATE_BOOTSTRAP_REGISTRY = {};\n"),
        present("src/runtime/browser.ts", "const SERVER_STATE_BOOTSTRAP_CATEGORIES_WRAPPER = true;\n"),
    ];

    let reports = build_parity_reports(&config, &semantic(bootstrap_symbols()), &sources, ParityScope::All, &Vec::new()).reports;
    let report = report_by_id(&reports, "bootstrap");

    assert!(report.missing_cells.iter().any(|cell| cell.kind == "browser_live_update_binding"));
}

#[test]
fn runtime_binding_accepts_related_contract_family_symbols() {
    let mut concept = ConceptRule {
        id: "bootstrap".to_string(),
        kind: String::new(),
        priority: None,
        anchors: Vec::new(),
        authoritative_inputs: Vec::new(),
        allowed_writers: Vec::new(),
        forbid_writers: Vec::new(),
        forbid_raw_reads: Vec::new(),
        canonical_accessors: Vec::new(),
        related_tests: Vec::new(),
    };
    concept.anchors = strings(&["src/app/bootstrap.ts::replaceServerStateBootstrap"]);
    let mut c = bootstrap_contract("bootstrap");
    c.electron_entry = Some("src/runtime/electron.ts".to_string());
    c.required_capabilities = strings(&["snapshot", "live_updates"]);
    let config = rules(vec![concept], vec![c]);
    let symbols = vec![
        symbol("categories", "src/domain/bootstrap.ts", "SERVER_STATE_BOOTSTRAP_CATEGORIES", "const", 2),
        symbol("bootstrap-type", "src/domain/bootstrap.ts", "AnyServerStateBootstrapSnapshot", "type", 3),
        symbol("registry", "src/app/registry.ts", "SERVER_STATE_BOOTSTRAP_REGISTRY", "const", 1),
        symbol("replace", "src/app/bootstrap.ts", "replaceServerStateBootstrap", "function", 1),
    ];
    let sources = vec![
        present(
            "src/domain/bootstrap.ts",
            "\n export const SERVER_STATE_BOOTSTRAP_CATEGORIES = ['task'];\n export type AnyServerStateBootstrapSnapshot = { category: 'task' };\n",
        ),
        present("src/app/registry.ts", "export const SERVER_STATE_BOOTSTRAP_REGISTRY = {};\n"),
        present("src/app/bootstrap.ts", "export function replaceServerStateBootstrap(): void {}\n"),
        present(
            "src/runtime/browser.ts",
            "import type { AnyServerStateBootstrapSnapshot } from '../domain/bootstrap';\nconst apply = (_snapshots: AnyServerStateBootstrapSnapshot[]) => {};\n",
        ),
        present(
            "src/runtime/electron.ts",
            "import { replaceServerStateBootstrap } from '../app/bootstrap';\nreplaceServerStateBootstrap();\n",
        ),
    ];

    let reports = build_parity_reports(&config, &semantic(symbols), &sources, ParityScope::All, &Vec::new()).reports;
    let report = report_by_id(&reports, "bootstrap");

    assert!(report.satisfied_cells.iter().any(|cell| cell.kind == "browser_live_update_binding"));
    assert!(report.satisfied_cells.iter().any(|cell| cell.kind == "electron_live_update_binding"));
    assert!(!report.missing_cells.iter().any(|cell| cell.kind == "snapshot_without_live_update"));
}

#[test]
fn report_without_assessable_cells_scores_zero() {
    let config = rules(Vec::new(), vec![contract("empty_contract")]);

    let reports = build_parity_reports(&config, &empty_semantic(), &Vec::new(), ParityScope::All, &Vec::new()).reports;
    let report = report_by_id(&reports, "empty_contract");

    assert_eq!(report.score_0_10000, 0);
    assert!(report.summary.contains("no assessable parity cells"));
}

#[test]
fn unreadable_runtime_entry_is_a_warning_and_snapshot_gap() {
    let mut c = bootstrap_contract("boot");
    c.required_capabilities = strings(&["snapshot", "versioning"]);
    let config = rules(Vec::new(), vec![c]);
    let sources = vec![
        present("src/domain/bootstrap.ts", "export const schemaVersion = 2;"),
        ParitySource { path: "src/runtime/browser.ts".to_string(), exists: true, content: Err("denied".to_string()) },
    ];

    let result = build_parity_reports(&config, &semantic(bootstrap_symbols()), &sources, ParityScope::All, &Vec::new());
    let report = report_by_id(&result.reports, "boot");

    assert_eq!(result.read_warnings, strings(&["Failed to read parity source 'src/runtime/browser.ts': denied"]));
    let missing: Vec<&str> = report.missing_cells.iter().map(|cell| cell.kind.as_str()).collect();
    assert_eq!(missing, vec!["snapshot_without_live_update"]);
    let satisfied: Vec<&str> = report.satisfied_cells.iter().map(|cell| cell.kind.as_str()).collect();
    assert_eq!(satisfied, vec!["browser_entry", "categories_symbol", "registry_symbol", "versioning"]);
    assert_eq!(report.satisfied_cells[1].detail, "categories symbol declared: src/domain/bootstrap.ts::SERVER_STATE_BOOTSTRAP_CATEGORIES");
    assert_eq!(report.score_0_10000, 8000);
    assert_eq!(report.summary, "Contract 'boot' is missing parity cells: snapshot_without_live_update");
    assert_eq!(report.files, strings(&["src/app/registry.ts", "src/domain/bootstrap.ts", "src/runtime/browser.ts"]));
}

#[test]
fn identifier_tokens_match_whole_identifiers_only() {
    assert!(contains_token("a.FooBar(1)", "FooBar"));
    assert!(!contains_token("FooBarBaz", "FooBar"));
    assert!(!contains_token("x_FooBar", "FooBar"));
    assert!(contains_token("FooBar", "FooBar"));
    assert!(!contains_token("Foo.Bar", "Foo.Bar"));
    assert!(!contains_token("anything", ""));
}
