use sentrux_metrics::clone_family_summary::CloneFamilySummary;
use sentrux_metrics::clone_groups::DuplicateGroup;
use sentrux_metrics::clone_hints::{CloneRemediationHint, RemediationPriority};
use sentrux_metrics::clone_report::{
    build_clone_drift_findings, build_clone_drift_report, build_clone_remediation_hints,
};
use sentrux_metrics::evolution::{set_entry, EvolutionReport, FileChurn};
use sentrux_metrics::FindingSeverity;

fn churn(commit_count: u32, lines_added: u32, lines_removed: u32, total_churn: u32) -> FileChurn {
    FileChurn {
        commit_count,
        lines_added,
        lines_removed,
        total_churn,
    }
}

fn test_evolution() -> EvolutionReport {
    EvolutionReport {
        churn: vec![
            ("src/a.ts".to_string(), churn(4, 10, 2, 12)),
            ("src/b.ts".to_string(), churn(0, 0, 0, 0)),
        ],
        code_age: vec![("src/a.ts".to_string(), 3), ("src/b.ts".to_string(), 90)],
        last_modified_epoch: vec![
            ("src/a.ts".to_string(), 1_000_000),
            ("src/b.ts".to_string(), 1_000_000 - (87 * 86_400)),
        ],
        hotspots: Vec::new(),
    }
}

fn group(hash: u64, instances: &[(&str, &str, u32)]) -> DuplicateGroup {
    DuplicateGroup {
        hash,
        instances: instances
            .iter()
            .map(|(file, func, lines)| (file.to_string(), func.to_string(), *lines))
            .collect(),
    }
}

#[test]
fn clone_drift_findings_include_stable_ids_and_git_context() {
    let groups = vec![group(42, &[("src/a.ts", "dup_a", 12), ("src/b.ts", "dup_b", 12)])];

    let findings = build_clone_drift_findings(&groups, Some(&test_evolution()), 10);

    assert_eq!(findings.len(), 1);
    assert_eq!(findings[0].clone_id, "clone-0x0000000000002a");
    assert_eq!(findings[0].max_commit_count, 4);
    assert_eq!(findings[0].youngest_age_days, Some(3));
    assert!(findings[0].asymmetric_recent_change);
    assert_eq!(findings[0].severity, FindingSeverity::High);
}

#[test]
fn clone_drift_filters_test_only_and_tiny_groups() {
    let groups = vec![
        group(1, &[("src/a.test.ts", "dup_a", 10), ("src/b.test.ts", "dup_b", 10)]),
        group(2, &[("src/a.ts", "dup_a", 1), ("src/b.ts", "dup_b", 1)]),
    ];

    let findings = build_clone_drift_findings(&groups, None, 10);

    assert!(findings.is_empty());
}

#[test]
fn clone_drift_counts_recent_activity_per_file() {
    let groups = vec![group(
        99,
        &[("src/a.ts", "dup_a", 12), ("src/a.ts", "dup_b", 12), ("src/b.ts", "dup_c", 12)],
    )];

    let findings = build_clone_drift_findings(&groups, Some(&test_evolution()), 10);

    assert_eq!(findings.len(), 1);
    assert_eq!(findings[0].recently_touched_file_count, 1);
    assert!(findings[0].asymmetric_recent_change);
    assert_eq!(findings[0].reasons[0], "identical logic spans 2 files");
    assert_eq!(findings[0].instances[0].file, "src/a.ts");
    assert_eq!(findings[0].instances[1].file, "src/a.ts");
    assert_eq!(findings[0].instances[2].file, "src/b.ts");
}

#[test]
fn clone_drift_report_groups_same_file_set_into_families() {
    let groups = vec![
        group(7, &[("src/a.ts", "dup_a", 12), ("src/b.ts", "dup_b", 12)]),
        group(8, &[("src/a.ts", "dup_c", 9), ("src/b.ts", "dup_d", 9)]),
    ];

    let report = build_clone_drift_report(&groups, Some(&test_evolution()));

    assert_eq!(report.findings.len(), 2);
    assert_eq!(report.families.len(), 1);
    assert_eq!(report.families[0].member_count, 2);
    assert_eq!(report.families[0].file_count, 2);
    assert_eq!(report.families[0].distinct_file_set_count, 1);
    assert!(!report.families[0].mixed_file_sets);
    assert_eq!(report.families[0].clone_ids.len(), 2);
    assert_eq!(report.families[0].commit_count_gap, Some(4));
    assert_eq!(report.families[0].age_days_gap, Some(87));
    assert!(report.families[0].divergence_score > 0);
    assert!(report.families[0]
        .summary
        .contains("churn differs by 4 recent commit(s)"));
    assert!(report.families[0]
        .reasons
        .iter()
        .any(|reason| reason.contains("family churn spans a gap of 4 recent commit(s)")));
    assert!(report.families[0]
        .reasons
        .iter()
        .any(|reason| reason.contains("family file age spans a gap of 87 day(s)")));
    assert!(report.families[0]
        .remediation_hints
        .iter()
        .any(|hint| hint.kind == "sync_recent_divergence"));
    assert!(report.families[0]
        .remediation_hints
        .iter()
        .any(|hint| hint.kind == "extract_shared_helper"));
    assert_eq!(
        report.prioritized_findings[0].clone_id,
        report.families[0].representative_clone_id
    );
}

#[test]
fn clone_drift_report_prioritizes_more_divergent_families_first() {
    let groups = vec![
        group(10, &[("src/a.ts", "dup_a", 12), ("src/b.ts", "dup_b", 12)]),
        group(11, &[("src/a.ts", "dup_c", 10), ("src/b.ts", "dup_d", 10)]),
        group(12, &[("src/c.ts", "dup_e", 10), ("src/d.ts", "dup_f", 10)]),
        group(13, &[("src/c.ts", "dup_g", 10), ("src/d.ts", "dup_h", 10)]),
    ];

    let mut evolution = test_evolution();
    set_entry(&mut evolution.churn, "src/a.ts", churn(10, 14, 2, 16));
    set_entry(&mut evolution.churn, "src/b.ts", churn(9, 12, 1, 13));
    set_entry(&mut evolution.churn, "src/c.ts", churn(10, 14, 2, 16));
    set_entry(&mut evolution.churn, "src/d.ts", churn(1, 1, 0, 1));
    set_entry(&mut evolution.code_age, "src/a.ts", 4);
    set_entry(&mut evolution.code_age, "src/b.ts", 5);
    set_entry(&mut evolution.code_age, "src/c.ts", 4);
    set_entry(&mut evolution.code_age, "src/d.ts", 5);

    let report = build_clone_drift_report(&groups, Some(&evolution));

    assert_eq!(report.families.len(), 2);
    assert_eq!(report.prioritized_findings.len(), 4);
    assert!(report.families[0].divergence_score > report.families[1].divergence_score);
    assert_eq!(
        report.prioritized_findings[0].clone_id,
        report.families[0].representative_clone_id
    );
    assert!(report.families[0]
        .remediation_hints
        .iter()
        .any(|hint| hint.kind == "extract_shared_helper"));
    assert!(report.families[0]
        .remediation_hints
        .iter()
        .any(|hint| hint.kind == "sync_recent_divergence"));
    assert!(report.families[0]
        .summary
        .contains("churn differs by 9 recent commit(s)"));
    assert_eq!(report.families[0].commit_count_gap, Some(9));
}

#[test]
fn clone_drift_report_groups_overlapping_file_sets_into_one_family() {
    let groups = vec![
        group(21, &[("src/a.ts", "dup_a", 12), ("src/b.ts", "dup_b", 12)]),
        group(
            22,
            &[("src/a.ts", "dup_c", 10), ("src/b.ts", "dup_d", 10), ("src/c.ts", "dup_e", 10)],
        ),
    ];

    let report = build_clone_drift_report(&groups, Some(&test_evolution()));

    assert_eq!(report.families.len(), 1);
    assert_eq!(report.families[0].member_count, 2);
    assert_eq!(report.families[0].file_count, 3);
    assert_eq!(report.families[0].distinct_file_set_count, 2);
    assert!(report.families[0].mixed_file_sets);
    assert!(report.families[0]
        .summary
        .contains("overlapping sibling sets"));
    assert!(report.families[0]
        .reasons
        .iter()
        .any(|reason| reason.contains("overlapping file set(s)")));
    assert!(report.families[0]
        .remediation_hints
        .iter()
        .any(|hint| hint.kind == "review_family_boundaries"));
}

#[test]
fn clone_family_age_gap_uses_stable_epoch_difference() {
    let groups = vec![
        group(30, &[("src/a.ts", "dup_a", 12), ("src/b.ts", "dup_b", 12)]),
        group(31, &[("src/a.ts", "dup_c", 10), ("src/b.ts", "dup_d", 10)]),
    ];

    let evolution = EvolutionReport {
        churn: vec![
            ("src/a.ts".to_string(), churn(1, 1, 0, 1)),
            ("src/b.ts".to_string(), churn(1, 1, 0, 1)),
        ],
        code_age: vec![("src/a.ts".to_string(), 1), ("src/b.ts".to_string(), 0)],
        last_modified_epoch: vec![
            ("src/a.ts".to_string(), 1_000_000),
            ("src/b.ts".to_string(), 1_000_000 + (12 * 60 * 60)),
        ],
        hotspots: Vec::new(),
    };

    let report = build_clone_drift_report(&groups, Some(&evolution));
    assert_eq!(report.families.len(), 1);
    assert_eq!(report.families[0].age_days_gap, Some(0));
}

fn hint(kind: &str, priority: RemediationPriority, summary: &str, files: &[&str], ids: &[&str]) -> CloneRemediationHint {
    CloneRemediationHint {
        kind: kind.to_string(),
        priority,
        summary: summary.to_string(),
        files: files.iter().map(|f| f.to_string()).collect(),
        clone_ids: ids.iter().map(|f| f.to_string()).collect(),
    }
}

#[test]
fn clone_remediation_hints_round_robin_across_families() {
    let families = vec![
        CloneFamilySummary {
            family_id: "family-a".to_string(),
            remediation_hints: vec![
                hint(
                    "sync_recent_divergence",
                    RemediationPriority::High,
                    "sync",
                    &["src/a.ts", "src/b.ts"],
                    &["clone-a"],
                ),
                hint(
                    "extract_shared_helper",
                    RemediationPriority::Medium,
                    "extract",
                    &["src/a.ts", "src/b.ts"],
                    &["clone-a"],
                ),
            ],
            ..CloneFamilySummary::default()
        },
        CloneFamilySummary {
            family_id: "family-b".to_string(),
            remediation_hints: vec![hint(
                "collapse_clone_family",
                RemediationPriority::Medium,
                "collapse",
                &["src/c.ts", "src/d.ts"],
                &["clone-b"],
            )],
            ..CloneFamilySummary::default()
        },
    ];

    let hints = build_clone_remediation_hints(&families, 3);

    assert_eq!(hints.len(), 3);
    assert_eq!(hints[0].kind, "sync_recent_divergence");
    assert_eq!(hints[1].kind, "collapse_clone_family");
    assert_eq!(hints[2].kind, "extract_shared_helper");
}

#[test]
fn remediation_priority_names_are_lowercase() {
    assert_eq!(RemediationPriority::High.as_str(), "high");
    assert_eq!(RemediationPriority::Medium.as_str(), "medium");
    assert_eq!(RemediationPriority::Low.as_str(), "low");
    assert_eq!(RemediationPriority::default(), RemediationPriority::Medium);
}

#[test]
fn clone_remediation_hints_respect_limit_and_empty_input() {
    let families: Vec<CloneFamilySummary> = Vec::new();
    assert!(build_clone_remediation_hints(&families, 5).is_empty());
    let families = vec![CloneFamilySummary {
        remediation_hints: vec![hint("a", RemediationPriority::Low, "x", &[], &[])],
        ..CloneFamilySummary::default()
    }];
    assert!(build_clone_remediation_hints(&families, 0).is_empty());
    assert_eq!(build_clone_remediation_hints(&families, 5).len(), 1);
}

#[test]
fn clone_drift_findings_truncate_to_limit() {
    let groups = vec![
        group(7, &[("src/a.ts", "dup_a", 12), ("src/b.ts", "dup_b", 12)]),
        group(8, &[("src/a.ts", "dup_c", 9), ("src/b.ts", "dup_d", 9)]),
    ];
    let findings = build_clone_drift_findings(&groups, None, 1);
    assert_eq!(findings.len(), 1);
    assert_eq!(findings[0].clone_id, "clone-0x00000000000007");
}

#[test]
fn clone_drift_findings_are_the_report_prefix() {
    let groups = vec![
        group(7, &[("src/x.ts", "dup_x", 12), ("src/y.ts", "dup_y", 12)]),
        group(3, &[("src/p.ts", "dup_p", 12), ("src/q.ts", "dup_q", 12)]),
        group(9, &[("src/m.ts", "dup_m", 20), ("src/n.ts", "dup_n", 20)]),
    ];
    let report = build_clone_drift_report(&groups, None);
    let limited = build_clone_drift_findings(&groups, None, 2);
    assert_eq!(limited.len(), 2);
    for (a, b) in limited.iter().zip(report.findings.iter()) {
        assert_eq!(a.clone_id, b.clone_id);
    }
    assert!(build_clone_drift_findings(&groups, None, 0).is_empty());
}

#[test]
fn clone_drift_prioritized_findings_reorder_every_finding_once() {
    let groups = vec![
        group(7, &[("src/a.ts", "dup_a", 12), ("src/b.ts", "dup_b", 12)]),
        group(8, &[("src/a.ts", "dup_c", 9), ("src/b.ts", "dup_d", 9)]),
        group(9, &[("src/c.ts", "dup_e", 11), ("src/d.ts", "dup_f", 11)]),
    ];

    let report = build_clone_drift_report(&groups, Some(&test_evolution()));

    assert_eq!(report.prioritized_findings.len(), report.findings.len());
    let mut prioritized: Vec<String> =
        report.prioritized_findings.iter().map(|finding| finding.clone_id.clone()).collect();
    let mut findings: Vec<String> = report.findings.iter().map(|finding| finding.clone_id.clone()).collect();
    for family in &report.families {
        assert!(family.member_count >= 2);
        assert!(family.clone_ids.contains(&family.representative_clone_id));
    }
    assert_eq!(prioritized[0], report.families[0].representative_clone_id);
    prioritized.sort();
    findings.sort();
    assert_eq!(prioritized, findings);
}

#[test]
fn clone_drift_families_share_no_clone_id() {
    let groups = vec![
        group(7, &[("src/a.ts", "dup_a", 12), ("src/b.ts", "dup_b", 12)]),
        group(8, &[("src/a.ts", "dup_c", 9), ("src/b.ts", "dup_d", 9)]),
        group(9, &[("src/c.ts", "dup_e", 11), ("src/d.ts", "dup_f", 11)]),
        group(10, &[("src/c.ts", "dup_g", 10), ("src/d.ts", "dup_h", 10)]),
    ];

    let report = build_clone_drift_report(&groups, None);

    assert_eq!(report.families.len(), 2);
    for id in &report.families[0].clone_ids {
        assert!(!report.families[1].clone_ids.contains(id));
    }
}

#[test]
fn clone_remediation_hints_stop_at_the_total_hint_count() {
    let families = vec![
        CloneFamilySummary {
            remediation_hints: vec![
                hint("a1", RemediationPriority::Low, "x", &[], &[]),
                hint("a2", RemediationPriority::Low, "x", &[], &[]),
                hint("a3", RemediationPriority::Low, "x", &[], &[]),
            ],
            ..CloneFamilySummary::default()
        },
        CloneFamilySummary {
            remediation_hints: vec![hint("b1", RemediationPriority::Low, "x", &[], &[])],
            ..CloneFamilySummary::default()
        },
    ];
    let hints = build_clone_remediation_hints(&families, 10);
    assert_eq!(hints.len(), 4);
    let kinds: Vec<&str> = hints.iter().map(|h| h.kind.as_str()).collect();
    assert_eq!(kinds, vec!["a1", "b1", "a2", "a3"]);
}
