use sentrux_metrics::boundary::{
    build_zero_config_boundary_findings, check_module_contract, ModuleContractRule, ModuleContractSuggestion,
    ProjectShapeReport,
};
use sentrux_metrics::semantic::RulesConfig;
use sentrux_metrics::snapshot::{FileNode, ImportEdge, Snapshot};
use sentrux_metrics::FindingSeverity;

fn empty_rules() -> RulesConfig {
    RulesConfig { concept: Vec::new(), contract: Vec::new(), module_contract: Vec::new(), state_model: Vec::new() }
}

fn module_rule() -> ModuleContractRule {
    ModuleContractRule {
        id: "module_api".to_string(),
        root: "src/module".to_string(),
        public_api: vec!["src/module/index.ts".to_string()],
        forbid_cross_module_deep_imports: true,
    }
}

fn suggestion(confidence: &str) -> ModuleContractSuggestion {
    ModuleContractSuggestion {
        id: "module_api".to_string(),
        root: "src/module".to_string(),
        public_api: vec!["src/module/index.ts".to_string()],
        nested_public_api: Vec::new(),
        confidence: confidence.to_string(),
        evidence: vec!["detected boundary root".to_string()],
    }
}

fn test_snapshot(imports: &[(&str, &str)]) -> Snapshot {
    let mut paths: Vec<String> = Vec::new();
    let mut import_graph = Vec::new();
    for (from_file, to_file) in imports {
        for p in [from_file, to_file] {
            if !paths.contains(&p.to_string()) {
                paths.push(p.to_string());
            }
        }
        import_graph.push(ImportEdge { from_file: from_file.to_string(), to_file: to_file.to_string() });
    }
    paths.sort();
    let mut files = vec![FileNode {
        path: ".".to_string(),
        is_dir: true,
        lines: 0,
        funcs: 0,
        lang: String::new(),
        functions: None,
        tags: None,
    }];
    for path in paths {
        files.push(FileNode { path, is_dir: false, lines: 10, funcs: 0, lang: "ts".to_string(), functions: None, tags: None });
    }
    Snapshot { files, import_graph, call_graph: Vec::new(), entry_points: Vec::new() }
}

#[test]
fn emits_changed_scope_findings_from_high_confidence_shape_suggestions() {
    let config = empty_rules();
    let snapshot = test_snapshot(&[
        ("src/app/feature.ts", "src/module/internal.ts"),
        ("src/module/index.ts", "src/module/internal.ts"),
    ]);
    let shape = ProjectShapeReport { module_contracts: vec![suggestion("high")] };
    let changed_files = vec!["src/app/feature.ts".to_string()];

    let findings = build_zero_config_boundary_findings(&config, &snapshot, &shape, &changed_files);

    assert_eq!(findings.len(), 1);
    assert_eq!(findings[0].kind, "zero_config_boundary_violation");
    assert!(findings[0].summary.contains("inferred from project structure"));
}

#[test]
fn skips_inferred_findings_when_explicit_module_contract_rules_exist() {
    let mut config = empty_rules();
    config.module_contract.push(module_rule());
    let snapshot = test_snapshot(&[("src/app/feature.ts", "src/module/internal.ts")]);
    let shape = ProjectShapeReport { module_contracts: vec![suggestion("high")] };
    let changed_files = vec!["src/app/feature.ts".to_string()];

    let findings = build_zero_config_boundary_findings(&config, &snapshot, &shape, &changed_files);

    assert!(findings.is_empty());
}

#[test]
fn skips_inferred_findings_when_changed_scope_does_not_touch_the_violation() {
    let config = empty_rules();
    let snapshot = test_snapshot(&[("src/app/feature.ts", "src/module/internal.ts")]);
    let shape = ProjectShapeReport { module_contracts: vec![suggestion("high")] };
    let changed_files = vec!["src/app/unrelated.ts".to_string()];

    let findings = build_zero_config_boundary_findings(&config, &snapshot, &shape, &changed_files);

    assert!(findings.is_empty());
}

#[test]
fn boundary_finding_carries_summary_files_and_evidence() {
    let config = empty_rules();
    let snapshot = test_snapshot(&[("src/app/feature.ts", "src/module/internal.ts")]);
    let shape = ProjectShapeReport { module_contracts: vec![suggestion("high")] };
    let changed_files = vec!["src/module/internal.ts".to_string()];

    let findings = build_zero_config_boundary_findings(&config, &snapshot, &shape, &changed_files);

    assert_eq!(findings.len(), 1);
    let f = &findings[0];
    assert_eq!(f.severity, FindingSeverity::Low);
    assert_eq!(f.concept_id, "module_api");
    assert_eq!(
        f.summary,
        "src/app/feature.ts imports src/module/internal.ts, past the public API of module 'module_api' (inferred from project structure, not user-authored rules)"
    );
    assert_eq!(f.files, vec!["src/app/feature.ts".to_string(), "src/module/internal.ts".to_string()]);
    assert_eq!(
        f.evidence,
        vec![
            "detected boundary root".to_string(),
            "inferred module root: src/module".to_string(),
            "public API files: src/module/index.ts".to_string(),
        ]
    );
}

#[test]
fn boundary_skips_suggestions_below_high_confidence() {
    let config = empty_rules();
    let snapshot = test_snapshot(&[("src/app/feature.ts", "src/module/internal.ts")]);
    let shape = ProjectShapeReport { module_contracts: vec![suggestion("medium")] };
    let changed_files = vec!["src/app/feature.ts".to_string()];

    assert!(build_zero_config_boundary_findings(&config, &snapshot, &shape, &changed_files).is_empty());
}

#[test]
fn boundary_skips_everything_without_changed_files() {
    let config = empty_rules();
    let snapshot = test_snapshot(&[("src/app/feature.ts", "src/module/internal.ts")]);
    let shape = ProjectShapeReport { module_contracts: vec![suggestion("high")] };

    assert!(build_zero_config_boundary_findings(&config, &snapshot, &shape, &Vec::new()).is_empty());
}

#[test]
fn boundary_findings_are_sorted_and_listed_once() {
    let config = empty_rules();
    let snapshot = test_snapshot(&[
        ("src/z/late.ts", "src/module/internal.ts"),
        ("src/a/early.ts", "src/module/internal.ts"),
    ]);
    let shape = ProjectShapeReport { module_contracts: vec![suggestion("high"), suggestion("high")] };
    let changed_files = vec!["src/module/internal.ts".to_string()];

    let findings = build_zero_config_boundary_findings(&config, &snapshot, &shape, &changed_files);

    assert_eq!(findings.len(), 2);
    assert!(findings[0].summary.starts_with("src/a/early.ts imports"));
    assert!(findings[1].summary.starts_with("src/z/late.ts imports"));
}

#[test]
fn module_contract_flags_only_deep_imports_from_outside() {
    let rule = module_rule();
    let imports = vec![
        ImportEdge { from_file: "src/app/a.ts".to_string(), to_file: "src/module/internal.ts".to_string() },
        ImportEdge { from_file: "src/app/b.ts".to_string(), to_file: "src/module/index.ts".to_string() },
        ImportEdge { from_file: "src/module/index.ts".to_string(), to_file: "src/module/internal.ts".to_string() },
        ImportEdge { from_file: "src/app/c.ts".to_string(), to_file: "src/other/x.ts".to_string() },
    ];

    let violations = check_module_contract(&rule, &imports);

    assert_eq!(violations.len(), 1);
    assert_eq!(violations[0].files, vec!["src/app/a.ts".to_string(), "src/module/internal.ts".to_string()]);

    let mut open_rule = module_rule();
    open_rule.forbid_cross_module_deep_imports = false;
    assert!(check_module_contract(&open_rule, &imports).is_empty());
}
