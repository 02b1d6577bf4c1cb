use sentrux_metrics::authority::{
    build_authority_and_access_findings, build_authority_and_access_findings_with_snapshot,
};
use sentrux_metrics::concept_match::{scoped_pattern_match, symbol_matches_targets, symbol_pattern_match};
use sentrux_metrics::semantic::{
    glob_match, path_from_scoped_value, symbol_from_scoped_path, ConceptRule, ReadFact, RulesConfig,
    SemanticCapability, SemanticSnapshot, WriteFact,
};
use sentrux_metrics::snapshot::{FileNode, ImportEdge, Snapshot};
use sentrux_metrics::FindingSeverity;

fn strings(v: &[&str]) -> Vec<String> {
    v.iter().map(|s| s.to_string()).collect()
}

fn concept(id: &str, kind: &str) -> ConceptRule {
    ConceptRule {
        id: id.to_string(),
        kind: kind.to_string(),
        priority: None,
        anchors: Vec::new(),
        authoritative_inputs: Vec::new(),
        allowed_writers: Vec::new(),
        forbid_writers: Vec::new(),
        forbid_raw_reads: Vec::new(),
        canonical_accessors: Vec::new(),
        related_tests: Vec::new(),
    }
}

fn read(path: &str, symbol: &str, kind: &str, line: usize) -> ReadFact {
    ReadFact {
        path: path.to_string(),
        symbol_name: symbol.to_string(),
        read_kind: kind.to_string(),
        line,
    }
}

fn write(path: &str, symbol: &str, kind: &str, line: usize) -> WriteFact {
    WriteFact {
        path: path.to_string(),
        symbol_name: symbol.to_string(),
        write_kind: kind.to_string(),
        line,
    }
}

fn facts(reads: Vec<ReadFact>, writes: Vec<WriteFact>) -> SemanticSnapshot {
    SemanticSnapshot {
        capabilities: vec![SemanticCapability::Reads, SemanticCapability::Writes],
        files: Vec::new(),
        symbols: Vec::new(),
        reads,
        writes,
        closed_domains: Vec::new(),
        closed_domain_sites: Vec::new(),
        transition_sites: Vec::new(),
    }
}

fn concepts(c: Vec<ConceptRule>) -> RulesConfig {
    RulesConfig { concept: c, contract: Vec::new(), module_contract: Vec::new(), state_model: Vec::new() }
}

fn edge(from: &str, to: &str) -> ImportEdge {
    ImportEdge {
        from_file: from.to_string(),
        to_file: to.to_string(),
    }
}

fn file(path: &str) -> FileNode {
    FileNode {
        path: path.to_string(),
        is_dir: false,
        lang: "typescript".to_string(),
        lines: 10,
        funcs: 1,
        functions: None,
        tags: None,
    }
}

fn snap_with_edges(edges: Vec<ImportEdge>, files: Vec<FileNode>) -> Snapshot {
    Snapshot {
        files,
        import_graph: edges,
        call_graph: Vec::new(),
        entry_points: Vec::new(),
    }
}

fn task_git_status_with_allowlist() -> ConceptRule {
    let mut c = concept("task_git_status", "");
    c.anchors = strings(&["src/store/core.ts::store.taskGitStatus"]);
    c.allowed_writers = strings(&["src/app/git-status-sync.ts::*"]);
    c.forbid_raw_reads = strings(&["src/components/**::store.taskGitStatus"]);
    c
}

#[test]
fn reports_multi_writer_and_forbidden_raw_read_findings() {
    let config = concepts(vec![task_git_status_with_allowlist()]);
    let semantic = facts(vec![read("src/components/Sidebar.tsx", "store.taskGitStatus", "property_access", 10)], vec![
            write("src/app/git-status-sync.ts", "store.taskGitStatus", "store_call", 5),
            write("src/store/git-status-polling.ts", "store.taskGitStatus", "store_call", 8),
        ]);

    let findings = build_authority_and_access_findings(&config, &semantic);

    assert!(findings.iter().any(|finding| finding.kind == "multi_writer_concept"));
    assert!(findings.iter().any(|finding| finding.kind == "writer_outside_allowlist"));
    assert!(findings.iter().any(|finding| finding.kind == "forbidden_raw_read"));
}

#[test]
fn ignores_test_writes_and_reads_for_authority_findings() {
    let config = concepts(vec![task_git_status_with_allowlist()]);
    let semantic = facts(vec![
            read("src/components/Sidebar.tsx", "store.taskGitStatus", "property_access", 10),
            read("src/components/Sidebar.test.tsx", "store.taskGitStatus", "property_access", 20),
        ], vec![
            write("src/app/git-status-sync.ts", "store.taskGitStatus", "store_call", 5),
            write("src/app/task-presentation-status.test.ts", "store.taskGitStatus", "store_call", 18),
        ]);

    let findings = build_authority_and_access_findings(&config, &semantic);

    assert_eq!(findings.iter().filter(|finding| finding.kind == "multi_writer_concept").count(), 0);
    assert_eq!(findings.iter().filter(|finding| finding.kind == "writer_outside_allowlist").count(), 0);
    assert_eq!(findings.iter().filter(|finding| finding.kind == "forbidden_raw_read").count(), 1);
    assert!(findings.iter().all(|finding| !finding
        .files
        .iter()
        .any(|path| path.ends_with(".test.ts") || path.ends_with(".test.tsx"))));
}

#[test]
fn projection_concepts_use_authoritative_inputs_for_reads_not_writes() {
    let mut c = concept("task_presentation_status", "projection");
    c.anchors = strings(&["src/app/task-presentation-status.ts::getTaskDotStatus"]);
    c.authoritative_inputs = strings(&[
        "src/store/core.ts::store.agentSupervision",
        "src/store/core.ts::store.taskGitStatus",
    ]);
    c.forbid_raw_reads = strings(&["src/components/**::store.taskGitStatus"]);
    let config = concepts(vec![c]);
    let semantic = facts(vec![read("src/components/SidebarTaskRow.tsx", "store.taskGitStatus", "property_access", 42)], vec![
            write("src/app/git-status-sync.ts", "store.taskGitStatus", "store_call", 5),
            write("src/store/git-status-polling.ts", "store.taskGitStatus", "store_call", 8),
        ]);

    let findings = build_authority_and_access_findings(&config, &semantic);

    assert!(findings.iter().any(|finding| finding.kind == "forbidden_raw_read"));
    assert!(findings.iter().all(|finding| finding.kind != "multi_writer_concept"));
    assert!(findings.iter().all(|finding| finding.kind != "writer_outside_allowlist"));
}

#[test]
fn forbidden_raw_reads_carry_preferred_accessor_evidence() {
    let mut c = concept("task_presentation_status", "projection");
    c.anchors = strings(&["src/app/task-presentation-status.ts::getTaskDotStatus"]);
    c.authoritative_inputs = strings(&["src/store/core.ts::store.taskGitStatus"]);
    c.canonical_accessors = strings(&[
        "src/app/task-presentation-status.ts::getTaskDotStatus",
        "src/app/task-presentation-status.ts::getTaskDotStatusLabel",
    ]);
    c.forbid_raw_reads = strings(&["src/components/**::store.taskGitStatus"]);
    let config = concepts(vec![c]);
    let semantic = facts(vec![read("src/components/SidebarTaskRow.tsx", "store.taskGitStatus", "property_access", 42)], Vec::new());

    let findings = build_authority_and_access_findings(&config, &semantic);
    let raw_read = findings
        .iter()
        .find(|finding| finding.kind == "forbidden_raw_read")
        .expect("forbidden raw read finding");

    assert!(raw_read
        .evidence
        .iter()
        .any(|entry| { entry == "preferred accessor: src/app/task-presentation-status.ts::getTaskDotStatus" }));
    assert_eq!(raw_read.evidence[1], "preferred accessor: src/app/task-presentation-status.ts::getTaskDotStatus");
    assert_eq!(
        raw_read.evidence[2],
        "preferred accessor: src/app/task-presentation-status.ts::getTaskDotStatusLabel"
    );
}

#[test]
fn writer_policy_findings_are_deduped_per_file() {
    let mut c = concept("task_git_status", "");
    c.anchors = strings(&["src/store/core.ts::store.taskGitStatus"]);
    c.forbid_writers = strings(&["src/store/git-status-polling.ts::store.taskGitStatus.*"]);
    let config = concepts(vec![c]);
    let semantic = facts(Vec::new(), vec![
            write("src/store/git-status-polling.ts", "store.taskGitStatus.*", "store_call", 61),
            write("src/store/git-status-polling.ts", "store.taskGitStatus.*", "store_call", 113),
        ]);

    let findings = build_authority_and_access_findings(&config, &semantic);
    let forbidden = findings
        .iter()
        .filter(|finding| finding.kind == "forbidden_writer")
        .collect::<Vec<_>>();

    assert_eq!(forbidden.len(), 1);
    assert_eq!(forbidden[0].files, vec!["src/store/git-status-polling.ts"]);
    assert_eq!(forbidden[0].evidence, vec!["src/store/git-status-polling.ts::store.taskGitStatus.*"]);
}

#[test]
fn reports_direct_imports_of_authoritative_modules() {
    let mut c = concept("task_git_status", "authoritative_state");
    c.priority = Some("critical".to_string());
    c.anchors = strings(&["src/store/core.ts::store.taskGitStatus"]);
    c.authoritative_inputs = strings(&["src/store/internal-status.ts::taskGitStatusSource"]);
    c.canonical_accessors = strings(&["src/store/store.ts::getTaskGitStatus"]);
    c.allowed_writers = strings(&["src/app/git-status-sync.ts::*"]);
    let config = concepts(vec![c]);
    let semantic = facts(vec![read("src/app/task-workflows.ts", "store.taskGitStatus", "property_access", 21)], Vec::new());
    let snapshot = snap_with_edges(
        vec![
            edge("src/app/task-workflows.ts", "src/store/core.ts"),
            edge("src/store/internal-status.ts", "src/store/core.ts"),
            edge("src/store/store.ts", "src/store/core.ts"),
            edge("src/app/git-status-sync.ts", "src/store/core.ts"),
        ],
        vec![
            file("src/app/task-workflows.ts"),
            file("src/store/core.ts"),
            file("src/store/internal-status.ts"),
            file("src/store/store.ts"),
            file("src/app/git-status-sync.ts"),
        ],
    );

    let findings = build_authority_and_access_findings_with_snapshot(&config, &semantic, Some(&snapshot));

    let bypasses = findings
        .iter()
        .filter(|finding| finding.kind == "authoritative_import_bypass")
        .collect::<Vec<_>>();
    assert_eq!(bypasses.len(), 1);
    assert_eq!(bypasses[0].severity, FindingSeverity::High);
    assert_eq!(bypasses[0].files, vec!["src/app/task-workflows.ts"]);
    assert_eq!(
        bypasses[0].summary,
        "Concept 'task_git_status' bypasses canonical entrypoint src/store/store.ts at src/app/task-workflows.ts"
    );
    assert_eq!(
        bypasses[0].evidence,
        vec!["src/app/task-workflows.ts -> src/store/core.ts (prefer src/store/store.ts)"]
    );
}

#[test]
fn ignores_internal_imports_without_matching_concept_usage() {
    let mut c = concept("task_git_status", "authoritative_state");
    c.priority = Some("critical".to_string());
    c.anchors = strings(&["src/store/core.ts::store.taskGitStatus"]);
    c.canonical_accessors = strings(&["src/store/store.ts::getTaskGitStatus"]);
    let config = concepts(vec![c]);
    let semantic = facts(vec![read("src/app/sidebar.ts", "store.otherValue", "property_access", 14)], Vec::new());
    let snapshot = snap_with_edges(
        vec![edge("src/app/sidebar.ts", "src/store/core.ts"), edge("src/store/store.ts", "src/store/core.ts")],
        vec![file("src/app/sidebar.ts"), file("src/store/core.ts"), file("src/store/store.ts")],
    );

    let findings = build_authority_and_access_findings_with_snapshot(&config, &semantic, Some(&snapshot));

    assert!(findings.iter().all(|finding| finding.kind != "authoritative_import_bypass"));
}

#[test]
fn reports_projection_import_bypass_through_authoritative_inputs() {
    let mut c = concept("task_presentation_status", "projection");
    c.anchors = strings(&["src/app/task-presentation-status.ts::getTaskDotStatus"]);
    c.authoritative_inputs = strings(&[
        "src/store/core.ts::store.agentSupervision",
        "src/store/core.ts::store.taskGitStatus",
    ]);
    c.canonical_accessors = strings(&["src/app/task-presentation-status.ts::getTaskDotStatus"]);
    let config = concepts(vec![c]);
    let semantic = facts(vec![read("src/components/SidebarTaskRow.tsx", "store.taskGitStatus", "property_access", 42)], Vec::new());
    let snapshot = snap_with_edges(
        vec![
            edge("src/components/SidebarTaskRow.tsx", "src/store/core.ts"),
            edge("src/app/task-presentation-status.ts", "src/store/core.ts"),
        ],
        vec![
            file("src/components/SidebarTaskRow.tsx"),
            file("src/app/task-presentation-status.ts"),
            file("src/store/core.ts"),
        ],
    );

    let findings = build_authority_and_access_findings_with_snapshot(&config, &semantic, Some(&snapshot));

    let bypass = findings
        .iter()
        .find(|finding| finding.kind == "authoritative_import_bypass")
        .expect("projection bypass finding");
    assert_eq!(bypass.files, vec!["src/components/SidebarTaskRow.tsx"]);
    assert!(bypass.summary.contains("canonical entrypoint src/app/task-presentation-status.ts"));
}

#[test]
fn runtime_contract_concepts_do_not_treat_domain_anchors_as_boundary_bypasses() {
    let mut c = concept("server_state_bootstrap", "runtime_contract");
    c.priority = Some("critical".to_string());
    c.anchors = strings(&[
        "src/domain/server-state-bootstrap.ts::SERVER_STATE_BOOTSTRAP_CATEGORIES",
        "src/domain/server-state-bootstrap.ts::ServerStateBootstrapCategory",
    ]);
    c.canonical_accessors = strings(&[
        "src/app/server-state-bootstrap.ts::replaceServerStateBootstrap",
        "src/app/server-state-bootstrap-registry.ts::createServerStateBootstrapCategoryDescriptors",
    ]);
    let config = concepts(vec![c]);
    let semantic = facts(vec![read(
            "src/app/runtime-diagnostics.ts",
            "src/domain/server-state-bootstrap.ts::SERVER_STATE_BOOTSTRAP_CATEGORIES",
            "identifier",
            3,
        )], Vec::new());
    let snapshot = snap_with_edges(
        vec![
            edge("src/app/runtime-diagnostics.ts", "src/domain/server-state-bootstrap.ts"),
            edge("src/app/server-state-bootstrap.ts", "src/domain/server-state-bootstrap.ts"),
            edge("src/app/server-state-bootstrap-registry.ts", "src/domain/server-state-bootstrap.ts"),
        ],
        vec![
            file("src/app/runtime-diagnostics.ts"),
            file("src/app/server-state-bootstrap.ts"),
            file("src/app/server-state-bootstrap-registry.ts"),
            file("src/domain/server-state-bootstrap.ts"),
        ],
    );

    let findings = build_authority_and_access_findings_with_snapshot(&config, &semantic, Some(&snapshot));

    assert!(findings.iter().all(|finding| finding.kind != "authoritative_import_bypass"));
}

#[test]
fn reports_concept_boundary_pressure_when_multiple_files_bypass_same_boundary() {
    let mut c = concept("task_git_status", "authoritative_state");
    c.anchors = strings(&["src/store/core.ts::store.taskGitStatus"]);
    c.authoritative_inputs = strings(&["src/store/internal-status.ts::taskGitStatusSource"]);
    c.canonical_accessors = strings(&["src/store/store.ts::getTaskGitStatus"]);
    let config = concepts(vec![c]);
    let semantic = facts(vec![
            read("src/app/task-workflows.ts", "store.taskGitStatus", "property_access", 21),
            read("src/app/sidebar.ts", "store.taskGitStatus", "property_access", 33),
        ], Vec::new());
    let snapshot = snap_with_edges(
        vec![
            edge("src/app/task-workflows.ts", "src/store/core.ts"),
            edge("src/app/sidebar.ts", "src/store/core.ts"),
            edge("src/store/internal-status.ts", "src/store/core.ts"),
            edge("src/store/store.ts", "src/store/core.ts"),
        ],
        vec![
            file("src/app/task-workflows.ts"),
            file("src/app/sidebar.ts"),
            file("src/store/core.ts"),
            file("src/store/internal-status.ts"),
            file("src/store/store.ts"),
        ],
    );

    let findings = build_authority_and_access_findings_with_snapshot(&config, &semantic, Some(&snapshot));

    let pressure = findings
        .iter()
        .find(|finding| finding.kind == "concept_boundary_pressure")
        .expect("concept boundary pressure finding");
    assert_eq!(pressure.severity, FindingSeverity::Medium);
    assert_eq!(pressure.files, vec!["src/app/sidebar.ts", "src/app/task-workflows.ts"]);
    assert!(pressure.summary.contains("2 files"));
}

#[test]
fn multi_writer_finding_lists_sorted_files_and_evidence() {
    let config = concepts(vec![task_git_status_with_allowlist()]);
    let semantic = facts(Vec::new(), vec![
            write("src/b.ts", "store.taskGitStatus.x", "assign", 1),
            write("src/a.ts", "store.taskGitStatus", "store_call", 2),
            write("src/a.ts", "store.taskGitStatus", "store_call", 3),
        ]);
    let findings = build_authority_and_access_findings(&config, &semantic);
    let multi = findings.iter().find(|f| f.kind == "multi_writer_concept").expect("multi writer");
    assert_eq!(multi.summary, "Concept 'task_git_status' is mutated from 2 files");
    assert_eq!(multi.files, vec!["src/a.ts", "src/b.ts"]);
    assert_eq!(
        multi.evidence,
        vec!["src/a.ts::store.taskGitStatus (store_call)", "src/b.ts::store.taskGitStatus.x (assign)"]
    );
    assert_eq!(multi.severity, FindingSeverity::High);
}

#[test]
fn raw_read_evidence_ends_with_canonical_owner() {
    let config = concepts(vec![task_git_status_with_allowlist()]);
    let semantic = facts(vec![read("src/components/Sidebar.tsx", "store.taskGitStatus", "property_access", 10)], Vec::new());
    let findings = build_authority_and_access_findings(&config, &semantic);
    assert_eq!(findings.len(), 1);
    assert_eq!(findings[0].severity, FindingSeverity::Medium);
    assert_eq!(
        findings[0].evidence,
        vec![
            "src/components/Sidebar.tsx::store.taskGitStatus",
            "canonical owner: src/store/core.ts::store.taskGitStatus"
        ]
    );
    assert_eq!(
        findings[0].summary,
        "Concept 'task_git_status' is read from a forbidden raw access path at src/components/Sidebar.tsx"
    );
}

#[test]
fn scoped_values_split_at_the_first_double_colon() {
    assert_eq!(symbol_from_scoped_path("src/a.ts::store.x"), Some("store.x".to_string()));
    assert_eq!(symbol_from_scoped_path("src/a.ts::a::b"), Some("a::b".to_string()));
    assert_eq!(symbol_from_scoped_path("src/a.ts"), None);
    assert_eq!(path_from_scoped_value("src/a.ts::a::b"), "src/a.ts");
    assert_eq!(path_from_scoped_value("src/a.ts"), "src/a.ts");
}

#[test]
fn globs_and_symbol_patterns_select_facts() {
    assert!(glob_match("src/components/**", "src/components/deep/Sidebar.tsx"));
    assert!(glob_match("src/*.ts", "src/a.ts"));
    assert!(!glob_match("src/*.ts", "src/deep/a.ts"));
    assert!(glob_match("src/**/a.ts", "src/a.ts"));
    assert!(glob_match("src/?.ts", "src/a.ts"));
    assert!(!glob_match("src/a.ts", "src/b.ts"));
    assert!(symbol_pattern_match("store.x.*", "store.x"));
    assert!(symbol_pattern_match("store.x.*", "store.x.y"));
    assert!(symbol_pattern_match("store.x.**", "store.x.y.z"));
    assert!(!symbol_pattern_match("store.x.*", "store.xy"));
    assert!(scoped_pattern_match("src/app/*.ts::*", "src/app/a.ts", "anything"));
    assert!(!scoped_pattern_match("src/app/*.ts::store.y", "src/app/a.ts", "store.x"));
    assert!(symbol_matches_targets("store.x[*].y", &strings(&["store.x"])));
    assert!(symbol_matches_targets("store.x.*.y", &strings(&["store.x"])));
    assert!(!symbol_matches_targets("store.xy", &strings(&["store.x"])));
}
