use sentrux_metrics::snapshot::{CallEdge, EntryPoint, FileNode, FunctionFacts, ImportEdge, Snapshot};
use sentrux_metrics::structural::guardrails::{
    detect_architecture_guardrails, is_guardrail_test_path, test_contains_literals, GuardrailSource,
};
use sentrux_metrics::structural::reports::{build_structural_debt_reports, build_structural_debt_reports_with_root};
use sentrux_metrics::structural::scoring::cycle_cluster_score;
use sentrux_metrics::structural::{
    CycleCutCandidate, FileMetric, FuncMetric, HealthReport, StructuralDebtReport, StructuralLeverageClass,
    StructuralPresentationClass, StructuralSignalClass, StructuralTrustTier,
};

fn test_file(path: &str, lines: u32, funcs: u32, max_complexity: u32) -> FileNode {
    FileNode {
        path: path.to_string(),
        is_dir: false,
        lines,
        funcs,
        lang: "typescript".to_string(),
        functions: Some(vec![FunctionFacts {
            cc: Some(max_complexity),
            cog: Some(max_complexity),
            is_public: false,
        }]),
        tags: None,
    }
}

fn root_dir() -> FileNode {
    FileNode {
        path: ".".to_string(),
        is_dir: true,
        lines: 0,
        funcs: 0,
        lang: String::new(),
        functions: None,
        tags: None,
    }
}

fn imp(from: &str, to: &str) -> ImportEdge {
    ImportEdge {
        from_file: from.to_string(),
        to_file: to.to_string(),
    }
}

fn call(from: &str, from_func: &str, to: &str, to_func: &str) -> CallEdge {
    CallEdge {
        from_file: from.to_string(),
        from_func: from_func.to_string(),
        to_file: to.to_string(),
        to_func: to_func.to_string(),
    }
}

fn entry(file: &str, func: &str, lang: &str) -> EntryPoint {
    EntryPoint {
        file: file.to_string(),
        func: func.to_string(),
        lang: lang.to_string(),
        confidence: "high".to_string(),
    }
}

fn snapshot(files: Vec<FileNode>, imports: Vec<ImportEdge>, calls: Vec<CallEdge>, entries: Vec<EntryPoint>) -> Snapshot {
    let mut all = vec![root_dir()];
    all.extend(files);
    Snapshot {
        files: all,
        import_graph: imports,
        call_graph: calls,
        entry_points: entries,
    }
}

fn metric(path: &str, value: usize) -> FileMetric {
    FileMetric {
        path: path.to_string(),
        value,
    }
}

fn dead(file: &str, func: &str, value: usize) -> FuncMetric {
    FuncMetric {
        file: file.to_string(),
        func: func.to_string(),
        value,
    }
}

fn empty_health_report() -> HealthReport {
    HealthReport {
        circular_dep_files: Vec::new(),
        god_files: Vec::new(),
        hotspot_files: Vec::new(),
        long_files: Vec::new(),
        dead_functions: Vec::new(),
    }
}

fn strings(v: &[&str]) -> Vec<String> {
    v.iter().map(|s| s.to_string()).collect()
}

fn sample_structural_snapshot() -> Snapshot {
    snapshot(
        vec![
            test_file("src/app.ts", 720, 6, 28),
            test_file("src/a.ts", 120, 3, 12),
            test_file("src/b.ts", 120, 3, 16),
            test_file("src/unused.ts", 110, 5, 8),
        ],
        vec![imp("src/app.ts", "src/a.ts"), imp("src/a.ts", "src/b.ts"), imp("src/b.ts", "src/a.ts")],
        vec![
            call("src/app.ts", "main", "src/a.ts", "helper"),
            call("src/app.ts", "main", "src/b.ts", "helper"),
        ],
        vec![entry("src/app.ts", "main", "typescript")],
    )
}

fn sample_structural_health() -> HealthReport {
    HealthReport {
        circular_dep_files: vec![strings(&["src/a.ts", "src/b.ts"])],
        god_files: vec![metric("src/app.ts", 8)],
        hotspot_files: vec![metric("src/a.ts", 4)],
        long_files: vec![metric("src/app.ts", 720)],
        dead_functions: vec![dead("src/unused.ts", "orphanAlpha", 24), dead("src/unused.ts", "orphanBeta", 20)],
    }
}

fn dead_island_snapshot() -> Snapshot {
    snapshot(
        vec![
            test_file("src/app.ts", 120, 2, 10),
            test_file("src/live.ts", 80, 2, 8),
            test_file("src/orphan-a.ts", 90, 2, 6),
            test_file("src/orphan-b.ts", 95, 2, 7),
        ],
        vec![
            imp("src/app.ts", "src/live.ts"),
            imp("src/orphan-a.ts", "src/orphan-b.ts"),
            imp("src/orphan-b.ts", "src/orphan-a.ts"),
        ],
        Vec::new(),
        vec![entry("src/app.ts", "main", "typescript")],
    )
}

fn dead_island_health() -> HealthReport {
    HealthReport {
        circular_dep_files: vec![strings(&["src/orphan-a.ts", "src/orphan-b.ts"])],
        ..empty_health_report()
    }
}

fn has_dead_island_report(reports: &[StructuralDebtReport], expected_files: &[&str]) -> bool {
    let expected = strings(expected_files);
    reports
        .iter()
        .any(|report| report.kind == "dead_island" && report.files == expected)
}

fn find_kind<'a>(reports: &'a [StructuralDebtReport], kind: &str) -> &'a StructuralDebtReport {
    reports.iter().find(|report| report.kind == kind).expect("report of kind")
}

fn find_scope<'a>(reports: &'a [StructuralDebtReport], scope: &str) -> &'a StructuralDebtReport {
    reports.iter().find(|report| report.scope == scope).expect("report of scope")
}

fn cut(seam_kind: &str, reduction: usize, remaining: usize) -> CycleCutCandidate {
    CycleCutCandidate {
        seam_kind: seam_kind.to_string(),
        reduction_file_count: reduction,
        remaining_cycle_size: remaining,
        ..CycleCutCandidate::default()
    }
}

#[test]
fn structural_reports_large_files_sprawl_hotspots_cycles_and_dead_private_clusters() {
    let reports = build_structural_debt_reports(&sample_structural_snapshot(), &sample_structural_health());
    let kinds = reports.iter().map(|report| report.kind.as_str()).collect::<Vec<_>>();
    assert!(kinds.contains(&"large_file"));
    assert!(kinds.contains(&"dependency_sprawl"));
    assert!(kinds.contains(&"unstable_hotspot"));
    assert!(kinds.contains(&"cycle_cluster"));
    assert!(kinds.contains(&"dead_private_code_cluster"));
}

#[test]
fn structural_reports_dead_island_for_disconnected_internal_cycle() {
    let reports = build_structural_debt_reports(&dead_island_snapshot(), &dead_island_health());
    assert!(has_dead_island_report(&reports, &["src/orphan-a.ts", "src/orphan-b.ts"]));
}

#[test]
fn structural_reports_dead_island_for_disconnected_non_cycle_component_when_entry_points_exist() {
    let snapshot = snapshot(
        vec![
            test_file("src/app.ts", 120, 2, 10),
            test_file("src/live.ts", 80, 2, 8),
            test_file("src/orphan-root.ts", 90, 2, 6),
            test_file("src/orphan-leaf.ts", 95, 2, 7),
        ],
        vec![imp("src/app.ts", "src/live.ts"), imp("src/orphan-root.ts", "src/orphan-leaf.ts")],
        Vec::new(),
        vec![entry("src/app.ts", "main", "typescript")],
    );
    let reports = build_structural_debt_reports(&snapshot, &empty_health_report());
    assert!(has_dead_island_report(&reports, &["src/orphan-leaf.ts", "src/orphan-root.ts"]));
}

#[test]
fn structural_does_not_report_dead_island_for_zero_inbound_root_when_no_entry_points_exist() {
    let snapshot = snapshot(
        vec![test_file("src/root.ts", 120, 2, 10), test_file("src/helper.ts", 80, 2, 8)],
        vec![imp("src/root.ts", "src/helper.ts")],
        Vec::new(),
        Vec::new(),
    );
    let reports = build_structural_debt_reports(&snapshot, &empty_health_report());
    assert!(!reports.iter().any(|report| report.kind == "dead_island"));
}

#[test]
fn structural_dependency_sprawl_softens_direct_entry_composition_root() {
    let snapshot = snapshot(
        vec![
            test_file("src/main.tsx", 40, 1, 1),
            test_file("src/App.tsx", 260, 8, 24),
            test_file("src/components/app-shell/Chrome.tsx", 80, 2, 5),
            test_file("src/app/desktop-session.ts", 80, 2, 5),
        ],
        vec![
            imp("src/main.tsx", "src/App.tsx"),
            imp("src/App.tsx", "src/components/app-shell/Chrome.tsx"),
            imp("src/App.tsx", "src/app/desktop-session.ts"),
        ],
        Vec::new(),
        vec![entry("src/main.tsx", "bootstrap", "typescript")],
    );
    let mut health = empty_health_report();
    health.god_files = vec![metric("src/App.tsx", 22)];
    let reports = build_structural_debt_reports(&snapshot, &health);
    let report = find_kind(&reports, "dependency_sprawl");
    assert!(report.role_tags.iter().any(|tag| tag == "composition_root"));
    assert_eq!(report.leverage_class, StructuralLeverageClass::RegrowthWatchpoint);
    assert_eq!(report.leverage_class.as_str(), "regrowth_watchpoint");
    assert!(report.leverage_reasons.iter().any(|reason| reason == "intentionally_central_surface"));
    assert!(report.summary.contains("Composition root"));
    assert!(report.impact.contains("composition root"));
}

#[test]
fn structural_dependency_sprawl_softens_direct_index_import_when_entry_points_are_missing() {
    let snapshot = snapshot(
        vec![
            test_file("src/index.tsx", 40, 1, 1),
            test_file("src/App.tsx", 260, 8, 24),
            test_file("src/components/app-shell/Chrome.tsx", 80, 2, 5),
        ],
        vec![imp("src/index.tsx", "src/App.tsx"), imp("src/App.tsx", "src/components/app-shell/Chrome.tsx")],
        Vec::new(),
        Vec::new(),
    );
    let mut health = empty_health_report();
    health.god_files = vec![metric("src/App.tsx", 18)];
    let reports = build_structural_debt_reports(&snapshot, &health);
    let report = find_kind(&reports, "dependency_sprawl");
    assert!(report.role_tags.iter().any(|tag| tag == "composition_root"));
    assert!(report.summary.contains("Composition root"));
}

#[test]
fn structural_large_file_keeps_script_entry_surfaces_generic() {
    let snapshot = snapshot(
        vec![FileNode {
            lang: "javascript".to_string(),
            ..test_file("scripts/session-stress.mjs", 2048, 12, 14)
        }],
        Vec::new(),
        Vec::new(),
        vec![entry("scripts/session-stress.mjs", "main", "javascript")],
    );
    let mut health = empty_health_report();
    health.long_files = vec![metric("scripts/session-stress.mjs", 2048)];
    let reports = build_structural_debt_reports(&snapshot, &health);
    let report = find_kind(&reports, "large_file");
    assert_eq!(report.leverage_class, StructuralLeverageClass::ToolingDebt);
    assert_eq!(report.leverage_class.as_str(), "tooling_debt");
    assert!(report.leverage_reasons.iter().any(|reason| reason == "tooling_surface_maintenance_burden"));
    assert!(report.summary.starts_with("File 'scripts/session-stress.mjs'"));
    assert!(!report.impact.contains("composition root"));
}

#[test]
fn structural_unstable_hotspot_marks_transport_facades_as_boundary_discipline() {
    let snapshot = snapshot(
        vec![
            test_file("src/lib/ipc.ts", 180, 5, 12),
            test_file("src/app/browser-session.ts", 90, 2, 5),
            test_file("src/app/electron-session.ts", 90, 2, 5),
        ],
        vec![imp("src/app/browser-session.ts", "src/lib/ipc.ts"), imp("src/app/electron-session.ts", "src/lib/ipc.ts")],
        Vec::new(),
        Vec::new(),
    );
    let mut health = empty_health_report();
    health.hotspot_files = vec![metric("src/lib/ipc.ts", 24)];
    let reports = build_structural_debt_reports(&snapshot, &health);
    let report = find_kind(&reports, "unstable_hotspot");
    assert!(report.role_tags.iter().any(|tag| tag == "transport_facade"));
    assert_eq!(report.leverage_class, StructuralLeverageClass::BoundaryDiscipline);
    assert_eq!(report.leverage_class.as_str(), "boundary_discipline");
    assert!(report.leverage_reasons.iter().any(|reason| reason == "guarded_or_transport_facade"));
}

#[test]
fn structural_cycle_cluster_score_boosts_boundary_hubs_and_cut_leverage() {
    let base_score = cycle_cluster_score(6, 900, &Vec::new(), &Vec::new());
    let boosted_score = cycle_cluster_score(
        6,
        900,
        &strings(&["component_barrel", "guarded_boundary"]),
        &vec![cut("guarded_boundary_cut", 3, 2)],
    );
    assert!(boosted_score > base_score);
}

#[test]
fn structural_cycle_cluster_score_prefers_stronger_cut_reduction_over_weaker_remainder() {
    let stronger_cut = cycle_cluster_score(10, 1_400, &strings(&["guarded_boundary"]), &vec![cut("guarded_boundary_cut", 6, 3)]);
    let weaker_cut = cycle_cluster_score(10, 1_400, &strings(&["guarded_boundary"]), &vec![cut("guarded_boundary_cut", 2, 8)]);
    assert!(stronger_cut > weaker_cut);
}

#[test]
fn structural_dependency_sprawl_marks_nextjs_route_surfaces_as_regrowth_watchpoints() {
    let snapshot = snapshot(vec![test_file("src/app/[locale]/layout.tsx", 220, 6, 12)], Vec::new(), Vec::new(), Vec::new());
    let mut health = empty_health_report();
    health.god_files = vec![metric("src/app/[locale]/layout.tsx", 18)];
    let reports = build_structural_debt_reports(&snapshot, &health);
    let report = find_scope(&reports, "src/app/[locale]/layout.tsx");
    assert!(report.role_tags.iter().any(|tag| tag == "route_surface"));
    assert_eq!(report.leverage_class, StructuralLeverageClass::RegrowthWatchpoint);
}

#[test]
fn structural_unstable_hotspot_marks_state_containers_as_architecture_signals() {
    let snapshot = snapshot(vec![test_file("src/store/chat-input.store.ts", 204, 5, 9)], Vec::new(), Vec::new(), Vec::new());
    let mut health = empty_health_report();
    health.hotspot_files = vec![metric("src/store/chat-input.store.ts", 17)];
    let reports = build_structural_debt_reports(&snapshot, &health);
    let report = find_scope(&reports, "src/store/chat-input.store.ts");
    assert!(report.role_tags.iter().any(|tag| tag == "state_container"));
    assert_eq!(report.leverage_class, StructuralLeverageClass::ArchitectureSignal);
}

#[test]
fn structural_dependency_sprawl_marks_service_http_surfaces_as_entry_surfaces() {
    let snapshot = snapshot(vec![test_file("src/routes/users.ts", 180, 4, 11)], Vec::new(), Vec::new(), Vec::new());
    let mut health = empty_health_report();
    health.god_files = vec![metric("src/routes/users.ts", 15)];
    let reports = build_structural_debt_reports(&snapshot, &health);
    let report = find_scope(&reports, "src/routes/users.ts");
    assert!(report.role_tags.iter().any(|tag| tag == "http_handler_surface"));
    assert!(report.role_tags.iter().any(|tag| tag == "entry_surface"));
}

#[test]
fn tests_cycle_hotspot_unstable_hotspot_marks_transport_facades_as_boundary_discipline() {
    let snapshot = snapshot(
        vec![
            test_file("src/lib/ipc.ts", 180, 5, 12),
            test_file("src/app/browser-session.ts", 90, 2, 5),
            test_file("src/app/electron-session.ts", 90, 2, 5),
        ],
        vec![imp("src/app/browser-session.ts", "src/lib/ipc.ts"), imp("src/app/electron-session.ts", "src/lib/ipc.ts")],
        Vec::new(),
        Vec::new(),
    );
    let mut health = empty_health_report();
    health.hotspot_files = vec![metric("src/lib/ipc.ts", 24)];
    let reports = build_structural_debt_reports(&snapshot, &health);
    let report = find_kind(&reports, "unstable_hotspot");
    assert!(report.role_tags.iter().any(|tag| tag == "transport_facade"));
    assert_eq!(report.leverage_class, StructuralLeverageClass::BoundaryDiscipline);
    assert_eq!(report.leverage_class.as_str(), "boundary_discipline");
    assert!(report.leverage_reasons.iter().any(|reason| reason == "guarded_or_transport_facade"));
}

#[test]
fn tests_cycle_hotspot_cycle_cluster_score_boosts_boundary_hubs_and_cut_leverage() {
    let base_score = cycle_cluster_score(6, 900, &Vec::new(), &Vec::new());
    let boosted_score = cycle_cluster_score(
        6,
        900,
        &strings(&["component_barrel", "guarded_boundary"]),
        &vec![cut("guarded_boundary_cut", 3, 2)],
    );
    assert!(boosted_score > base_score);
}

#[test]
fn tests_cycle_hotspot_cycle_cluster_score_prefers_stronger_cut_reduction_over_weaker_remainder() {
    let stronger_cut = cycle_cluster_score(10, 1_400, &strings(&["guarded_boundary"]), &vec![cut("guarded_boundary_cut", 6, 3)]);
    let weaker_cut = cycle_cluster_score(10, 1_400, &strings(&["guarded_boundary"]), &vec![cut("guarded_boundary_cut", 2, 8)]);
    assert!(stronger_cut > weaker_cut);
}

#[test]
fn tests_cycle_hotspot_unstable_hotspot_marks_state_containers_as_architecture_signals() {
    let snapshot = snapshot(vec![test_file("src/store/chat-input.store.ts", 204, 5, 9)], Vec::new(), Vec::new(), Vec::new());
    let mut health = empty_health_report();
    health.hotspot_files = vec![metric("src/store/chat-input.store.ts", 17)];
    let reports = build_structural_debt_reports(&snapshot, &health);
    let report = find_scope(&reports, "src/store/chat-input.store.ts");
    assert!(report.role_tags.iter().any(|tag| tag == "state_container"));
    assert_eq!(report.leverage_class, StructuralLeverageClass::ArchitectureSignal);
}

#[test]
fn tests_dependency_dependency_sprawl_softens_direct_entry_composition_root() {
    let snapshot = snapshot(
        vec![
            test_file("src/main.tsx", 40, 1, 1),
            test_file("src/App.tsx", 260, 8, 24),
            test_file("src/components/app-shell/Chrome.tsx", 80, 2, 5),
            test_file("src/app/desktop-session.ts", 80, 2, 5),
        ],
        vec![
            imp("src/main.tsx", "src/App.tsx"),
            imp("src/App.tsx", "src/components/app-shell/Chrome.tsx"),
            imp("src/App.tsx", "src/app/desktop-session.ts"),
        ],
        Vec::new(),
        vec![entry("src/main.tsx", "bootstrap", "typescript")],
    );
    let mut health = empty_health_report();
    health.god_files = vec![metric("src/App.tsx", 22)];
    let reports = build_structural_debt_reports(&snapshot, &health);
    let report = find_kind(&reports, "dependency_sprawl");
    assert!(report.role_tags.iter().any(|tag| tag == "composition_root"));
    assert_eq!(report.leverage_class, StructuralLeverageClass::RegrowthWatchpoint);
    assert_eq!(report.leverage_class.as_str(), "regrowth_watchpoint");
    assert!(report.leverage_reasons.iter().any(|reason| reason == "intentionally_central_surface"));
    assert!(report.summary.contains("Composition root"));
    assert!(report.impact.contains("composition root"));
}

#[test]
fn tests_dependency_dependency_sprawl_softens_direct_index_import_when_entry_points_are_missing() {
    let snapshot = snapshot(
        vec![
            test_file("src/index.tsx", 40, 1, 1),
            test_file("src/App.tsx", 260, 8, 24),
            test_file("src/components/app-shell/Chrome.tsx", 80, 2, 5),
        ],
        vec![imp("src/index.tsx", "src/App.tsx"), imp("src/App.tsx", "src/components/app-shell/Chrome.tsx")],
        Vec::new(),
        Vec::new(),
    );
    let mut health = empty_health_report();
    health.god_files = vec![metric("src/App.tsx", 18)];
    let reports = build_structural_debt_reports(&snapshot, &health);
    let report = find_kind(&reports, "dependency_sprawl");
    assert!(report.role_tags.iter().any(|tag| tag == "composition_root"));
    assert!(report.summary.contains("Composition root"));
}

#[test]
fn tests_dependency_dependency_sprawl_marks_nextjs_route_surfaces_as_regrowth_watchpoints() {
    let snapshot = snapshot(vec![test_file("src/app/[locale]/layout.tsx", 220, 6, 12)], Vec::new(), Vec::new(), Vec::new());
    let mut health = empty_health_report();
    health.god_files = vec![metric("src/app/[locale]/layout.tsx", 18)];
    let reports = build_structural_debt_reports(&snapshot, &health);
    let report = find_scope(&reports, "src/app/[locale]/layout.tsx");
    assert!(report.role_tags.iter().any(|tag| tag == "route_surface"));
    assert_eq!(report.leverage_class, StructuralLeverageClass::RegrowthWatchpoint);
}

#[test]
fn tests_dependency_dependency_sprawl_marks_service_http_surfaces_as_entry_surfaces() {
    let snapshot = snapshot(vec![test_file("src/routes/users.ts", 180, 4, 11)], Vec::new(), Vec::new(), Vec::new());
    let mut health = empty_health_report();
    health.god_files = vec![metric("src/routes/users.ts", 15)];
    let reports = build_structural_debt_reports(&snapshot, &health);
    let report = find_scope(&reports, "src/routes/users.ts");
    assert!(report.role_tags.iter().any(|tag| tag == "http_handler_surface"));
    assert!(report.role_tags.iter().any(|tag| tag == "entry_surface"));
}

#[test]
fn large_file_surfaces_actionable_split_evidence_for_dependency_boundaries() {
    let snapshot = snapshot(
        vec![
            test_file("src/index.tsx", 40, 1, 1),
            test_file("src/App.tsx", 620, 18, 31),
            test_file("src/components/app-shell/Chrome.tsx", 80, 2, 5),
            test_file("src/providers/runtime.ts", 70, 3, 4),
        ],
        vec![
            imp("src/index.tsx", "src/App.tsx"),
            imp("src/App.tsx", "src/components/app-shell/Chrome.tsx"),
            imp("src/App.tsx", "src/providers/runtime.ts"),
        ],
        Vec::new(),
        Vec::new(),
    );
    let mut health = empty_health_report();
    health.long_files = vec![metric("src/App.tsx", 620)];
    let reports = build_structural_debt_reports(&snapshot, &health);
    let report = find_kind(&reports, "large_file");
    assert!(report.role_tags.iter().any(|tag| tag == "composition_root"));
    assert!(report.candidate_split_axes.iter().any(|axis| axis == "components dependency boundary"));
    assert!(report.candidate_split_axes.iter().any(|axis| axis == "providers dependency boundary"));
    assert_eq!(
        report.related_surfaces,
        vec!["src/components/app-shell/Chrome.tsx".to_string(), "src/providers/runtime.ts".to_string()]
    );
    assert!(report.evidence.iter().any(|entry| {
        entry == "related surfaces to peel out first: src/components/app-shell/Chrome.tsx, src/providers/runtime.ts"
    }));
    assert!(report.evidence.iter().any(|entry| {
        entry == "recommended first cut: move the behavior that couples to src/components/app-shell/Chrome.tsx behind the components dependency boundary"
    }));
    assert!(report.inspection_focus.iter().any(|entry| {
        entry.contains("components dependency boundary") && entry.contains("src/components/app-shell/Chrome.tsx")
    }));
}

#[test]
fn tests_large_file_large_file_keeps_script_entry_surfaces_generic() {
    let snapshot = snapshot(
        vec![FileNode {
            lang: "javascript".to_string(),
            ..test_file("scripts/session-stress.mjs", 2048, 12, 14)
        }],
        Vec::new(),
        Vec::new(),
        vec![entry("scripts/session-stress.mjs", "main", "javascript")],
    );
    let mut health = empty_health_report();
    health.long_files = vec![metric("scripts/session-stress.mjs", 2048)];
    let reports = build_structural_debt_reports(&snapshot, &health);
    let report = find_kind(&reports, "large_file");
    assert_eq!(report.leverage_class, StructuralLeverageClass::ToolingDebt);
    assert_eq!(report.leverage_class.as_str(), "tooling_debt");
    assert!(report.leverage_reasons.iter().any(|reason| reason == "tooling_surface_maintenance_burden"));
    assert!(report.summary.starts_with("File 'scripts/session-stress.mjs'"));
    assert!(!report.impact.contains("composition root"));
}

#[test]
fn tests_overview_reports_large_files_sprawl_hotspots_cycles_and_dead_private_clusters() {
    let reports = build_structural_debt_reports(&sample_structural_snapshot(), &sample_structural_health());
    let kinds = reports.iter().map(|report| report.kind.as_str()).collect::<Vec<_>>();
    assert!(kinds.contains(&"large_file"));
    assert!(kinds.contains(&"dependency_sprawl"));
    assert!(kinds.contains(&"unstable_hotspot"));
    assert!(kinds.contains(&"cycle_cluster"));
    assert!(kinds.contains(&"dead_private_code_cluster"));
}

#[test]
fn tests_overview_reports_dead_island_for_disconnected_internal_cycle() {
    let reports = build_structural_debt_reports(&dead_island_snapshot(), &dead_island_health());
    assert!(has_dead_island_report(&reports, &["src/orphan-a.ts", "src/orphan-b.ts"]));
}

#[test]
fn dead_private_cluster_reports_dedupe_same_symbol_entries() {
    let snapshot = snapshot(vec![test_file("src/view.tsx", 120, 3, 8)], Vec::new(), Vec::new(), Vec::new());
    let health = HealthReport {
        dead_functions: vec![dead("src/view.tsx", "formatLastAccessed", 10), dead("src/view.tsx", "formatLastAccessed", 3)],
        ..empty_health_report()
    };
    let reports = build_structural_debt_reports(&snapshot, &health);
    assert!(
        reports.iter().all(|report| report.kind != "dead_private_code_cluster"),
        "duplicate symbol entries should not fabricate a dead-private cluster"
    );
}

#[test]
fn tests_overview_reports_dead_island_for_disconnected_non_cycle_component_when_entry_points_exist() {
    let snapshot = snapshot(
        vec![
            test_file("src/app.ts", 120, 2, 10),
            test_file("src/live.ts", 80, 2, 8),
            test_file("src/orphan-root.ts", 90, 2, 6),
            test_file("src/orphan-leaf.ts", 95, 2, 7),
        ],
        vec![imp("src/app.ts", "src/live.ts"), imp("src/orphan-root.ts", "src/orphan-leaf.ts")],
        Vec::new(),
        vec![entry("src/app.ts", "main", "typescript")],
    );
    let reports = build_structural_debt_reports(&snapshot, &empty_health_report());
    assert!(has_dead_island_report(&reports, &["src/orphan-leaf.ts", "src/orphan-root.ts"]));
}

#[test]
fn tests_overview_does_not_report_dead_island_for_zero_inbound_root_when_no_entry_points_exist() {
    let snapshot = snapshot(
        vec![test_file("src/root.ts", 120, 2, 10), test_file("src/helper.ts", 80, 2, 8)],
        vec![imp("src/root.ts", "src/helper.ts")],
        Vec::new(),
        Vec::new(),
    );
    let reports = build_structural_debt_reports(&snapshot, &empty_health_report());
    assert!(!reports.iter().any(|report| report.kind == "dead_island"));
}

#[test]
fn does_not_report_dead_island_for_support_only_components() {
    let snapshot = snapshot(
        vec![
            test_file("src/app.ts", 120, 2, 10),
            test_file(".github/ISSUE_TEMPLATE/config.yml", 20, 1, 1),
            test_file("plugins/gdscript/tests/sample.gd", 25, 1, 1),
        ],
        vec![
            imp("src/app.ts", "src/app.ts"),
            imp(".github/ISSUE_TEMPLATE/config.yml", "plugins/gdscript/tests/sample.gd"),
        ],
        Vec::new(),
        vec![entry("src/app.ts", "main", "typescript")],
    );
    let reports = build_structural_debt_reports(&snapshot, &empty_health_report());
    assert!(
        !reports.iter().any(|report| report.kind == "dead_island"),
        "support-only components should not surface as dead-island debt"
    );
}

#[test]
fn cycle_reports_interaction_only_basis_as_watchpoint_evidence() {
    let snapshot = snapshot(
        vec![
            test_file("src/runtime-a.ts", 140, 4, 12),
            test_file("src/runtime-b.ts", 120, 3, 9),
        ],
        Vec::new(),
        vec![
            call("src/runtime-a.ts", "runA", "src/runtime-b.ts", "runB"),
            call("src/runtime-b.ts", "runB", "src/runtime-a.ts", "runA"),
        ],
        Vec::new(),
    );
    let mut health = empty_health_report();
    health.circular_dep_files = vec![strings(&["src/runtime-a.ts", "src/runtime-b.ts"])];

    let reports = build_structural_debt_reports(&snapshot, &health);
    let report = find_kind(&reports, "cycle_cluster");

    assert!(report.summary.contains("interaction/call-only"));
    assert!(report.signal_families.iter().any(|family| family == "interaction_cycle"));
    assert_eq!(report.signal_class, StructuralSignalClass::Watchpoint);
    assert!(report.score_0_10000 <= 4_900);
    assert!(report.evidence.iter().any(|entry| entry == "edge basis: interaction/call-only"));
    assert!(report
        .evidence
        .iter()
        .any(|entry| entry.contains("representative interaction/call edges:")));
    assert!(report
        .cut_candidates
        .iter()
        .all(|candidate| candidate.evidence.iter().any(|entry| entry == "edge basis: interaction/call")));
}

#[test]
fn cycle_reports_mixed_basis_and_uses_import_cut_candidates() {
    let snapshot = snapshot(
        vec![
            test_file("src/adapter.ts", 160, 4, 14),
            test_file("src/service.ts", 180, 5, 16),
        ],
        vec![imp("src/adapter.ts", "src/service.ts")],
        vec![call("src/service.ts", "serve", "src/adapter.ts", "adapt")],
        Vec::new(),
    );
    let mut health = empty_health_report();
    health.circular_dep_files = vec![strings(&["src/adapter.ts", "src/service.ts"])];

    let reports = build_structural_debt_reports(&snapshot, &health);
    let report = find_kind(&reports, "cycle_cluster");

    assert!(report.summary.contains("mixed import/interaction"));
    assert!(report.signal_families.iter().any(|family| family == "mixed_cycle"));
    assert!(report.evidence.iter().any(|entry| entry == "edge basis: mixed"));
    assert!(report.evidence.iter().any(|entry| entry.contains("representative import edges:")));
    assert!(report
        .evidence
        .iter()
        .any(|entry| entry.contains("representative interaction/call edges:")));
    let best_cut = report.cut_candidates.first().expect("import cut candidate");
    assert_eq!(best_cut.source, "src/adapter.ts");
    assert_eq!(best_cut.target, "src/service.ts");
    assert!(best_cut.evidence.iter().any(|entry| entry == "edge basis: import"));
}

fn guard_source(path: &str, contents: &str) -> GuardrailSource {
    GuardrailSource { path: path.to_string(), contents: contents.to_string() }
}

#[test]
fn structural_large_file_guarded_facade_reports_role_tags_and_guardrail_evidence() {
    let sources = vec![guard_source(
        "src/components/terminal-session.architecture.test.ts",
        "expect(source).toContain('createTerminalInputPipeline');\nexpect(source).toContain('createTerminalOutputPipeline');\n",
    )];
    let snapshot = snapshot(vec![test_file("src/components/terminal-session.ts", 720, 24, 51)], Vec::new(), Vec::new(), Vec::new());
    let mut health = empty_health_report();
    health.long_files = vec![metric("src/components/terminal-session.ts", 720)];

    let reports = build_structural_debt_reports_with_root(sources, &snapshot, &health);
    let report = find_kind(&reports, "large_file");

    assert!(report.role_tags.iter().any(|tag| tag == "guarded_seam"));
    assert!(report.role_tags.iter().any(|tag| tag == "facade_with_extracted_owners"));
    assert_eq!(report.leverage_class, StructuralLeverageClass::SecondaryCleanup);
    assert!(report.leverage_reasons.iter().any(|reason| reason == "secondary_facade_cleanup"));
    assert!(report.summary.contains("Guarded facade file"));
    assert!(report.evidence.iter().any(|entry| entry.contains("guardrail tests:")));
    assert!(report.related_surfaces.is_empty());
    assert!(report.evidence.iter().any(|entry| entry.contains("suggested split axes:")));
    assert!(report.inspection_focus.iter().any(|entry| entry.contains("facade owner boundary")));
    assert!(report.candidate_split_axes.iter().any(|axis| axis == "facade owner boundary"));
}

#[test]
fn structural_dependency_sprawl_reports_guarded_boundary_role_from_architecture_test_literal() {
    let sources = vec![guard_source(
        "src/app/store-boundary.architecture.test.ts",
        "expect(source).not.toContain('store/store');\n",
    )];
    let snapshot = snapshot(
        vec![
            test_file("src/store/store.ts", 220, 6, 18),
            test_file("src/components/App.tsx", 120, 3, 8),
            test_file("src/components/TaskPanel.tsx", 120, 3, 8),
        ],
        vec![imp("src/store/store.ts", "src/components/App.tsx"), imp("src/store/store.ts", "src/components/TaskPanel.tsx")],
        Vec::new(),
        Vec::new(),
    );
    let mut health = empty_health_report();
    health.god_files = vec![metric("src/store/store.ts", 17)];

    let reports = build_structural_debt_reports_with_root(sources, &snapshot, &health);
    let report = find_kind(&reports, "dependency_sprawl");

    assert!(report.role_tags.iter().any(|tag| tag == "component_barrel"));
    assert!(report.role_tags.iter().any(|tag| tag == "guarded_boundary"));
    assert_eq!(report.leverage_class, StructuralLeverageClass::ArchitectureSignal);
    assert!(report.leverage_reasons.iter().any(|reason| reason == "shared_barrel_boundary_hub"));
    assert!(report.leverage_reasons.iter().any(|reason| reason == "guardrail_backed_boundary_pressure"));
    assert!(report.summary.contains("Component-facing barrel"));
    assert!(report.evidence.iter().any(|entry| entry.contains("guarded boundary literals:")));
}

#[test]
fn guardrail_literals_are_read_from_expectations() {
    let contents = "expect(source).toContain('createA');\nexpect(source).not.toContain(\"store/store\");\nexpect(x).toContain(`a\\`b`);\nexpect(y).toContain(bare);\n";
    assert_eq!(test_contains_literals(contents, false), strings(&["createA", "store/store", "a`b"]));
    assert_eq!(test_contains_literals(contents, true), strings(&["store/store"]));
    assert!(test_contains_literals("expect(s).toContain('unclosed", false).is_empty());
}

#[test]
fn guardrail_test_paths_follow_the_architecture_convention() {
    assert!(is_guardrail_test_path("src/a/b.architecture.test.ts"));
    assert!(is_guardrail_test_path("b.architecture.spec.tsx"));
    assert!(!is_guardrail_test_path("src/a/b.test.ts"));
}

#[test]
fn guardrails_name_files_by_stem_literal_and_forbidden_module() {
    let sources = vec![
        guard_source(
            "src/components/panel.architecture.test.ts",
            "expect(source).toContain('createPanelOwner');\nconst other = './src/lib/util.ts';\n",
        ),
        guard_source("src/app/boundary.architecture.spec.ts", "expect(source).not.toContain('store/store');\n"),
    ];
    let files = strings(&["src/store/store.ts", "src/components/panel.tsx", "src/lib/util.ts", "src/other.ts"]);

    let evidence = detect_architecture_guardrails(sources, &files);

    let paths: Vec<&str> = evidence.iter().map(|e| e.path.as_str()).collect();
    assert_eq!(paths, vec!["src/components/panel.tsx", "src/lib/util.ts", "src/store/store.ts"]);
    assert_eq!(evidence[0].tests, strings(&["src/components/panel.architecture.test.ts"]));
    assert_eq!(evidence[0].facade_owner_factories, strings(&["createPanelOwner"]));
    assert_eq!(evidence[0].required_literals, strings(&["createPanelOwner"]));
    assert_eq!(evidence[1].tests, strings(&["src/components/panel.architecture.test.ts"]));
    assert_eq!(evidence[2].tests, strings(&["src/app/boundary.architecture.spec.ts"]));
    assert_eq!(evidence[2].boundary_guard_literals, strings(&["store/store"]));
    assert!(evidence[2].required_literals.is_empty());
}

#[test]
fn structural_classes_compare_with_their_names() {
    assert!(StructuralTrustTier::Trusted.eq_str("trusted"));
    assert!(!StructuralTrustTier::Watchpoint.eq_str("trusted"));
    assert!(StructuralTrustTier::Experimental.eq_str("experimental"));
    assert!(StructuralSignalClass::Debt.eq_str("debt"));
    assert!(StructuralSignalClass::Watchpoint.eq_str("watchpoint"));
    assert!(StructuralLeverageClass::BoundaryDiscipline.eq_str("boundary_discipline"));
    assert!(StructuralPresentationClass::GuardedFacade.eq_str("guarded_facade"));
    assert!(!StructuralPresentationClass::GuardedFacade.eq_str("guarded facade"));
}

#[test]
fn structural_report_default_is_empty() {
    let report = StructuralDebtReport::default();
    assert!(report.kind.is_empty());
    assert_eq!(report.trust_tier, StructuralTrustTier::Trusted);
    assert_eq!(report.score_0_10000, 0);
    assert!(report.evidence.is_empty());
}
