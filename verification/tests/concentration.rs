use sentrux_metrics::concentration::{
    build_concentration_findings, build_concentration_report, build_concentration_reports, capped_pattern_hits,
    concentration_reasons, concentration_score_0_10000, scrub_non_code_regions, timer_retry_pattern_list,
    ConcentrationHistory, ConcentrationInputs, ConcentrationReport, ConcentrationSource,
};
use sentrux_metrics::FindingSeverity;

const LEASE_RANKING: &str = "export async function lease(): Promise<void> {\n  setTimeout(() => {}, 10);\n  await Promise.resolve();\n  if (true) {\n    retry();\n  }\n  dispatch('x');\n}\n";

fn source(path: &str, contents: &str) -> ConcentrationSource {
    ConcentrationSource {
        path: path.to_string(),
        contents: Ok(contents.to_string()),
    }
}

fn lease_inputs(complexity: Vec<(String, u32)>) -> ConcentrationInputs {
    ConcentrationInputs {
        complexity,
        authority_breadth: vec![("src/lease.ts".to_string(), 1)],
        semantic_side_effects: vec![("src/lease.ts".to_string(), 1)],
    }
}

#[test]
fn concentration_reports_rank_coordination_file_above_simple_file() {
    let sources = vec![
        source("src/lease.ts", LEASE_RANKING),
        source("src/simple.ts", "export function simple(): number { return 1; }\n"),
    ];
    let inputs = lease_inputs(vec![("src/lease.ts".to_string(), 18), ("src/simple.ts".to_string(), 1)]);
    let history = ConcentrationHistory {
        churn_commits: vec![("src/lease.ts".to_string(), 9), ("src/simple.ts".to_string(), 1)],
        hotspot_risk: vec![("src/lease.ts".to_string(), 120), ("src/simple.ts".to_string(), 0)],
    };

    let build_result = build_concentration_reports(&sources, &inputs, Some(&history));
    let reports = build_result.reports;

    assert_eq!(reports[0].path, "src/lease.ts");
    assert!(reports[0].score_0_10000 > reports[1].score_0_10000);
    assert!(reports[0].reasons.iter().any(|reason| reason.contains("timer/retry")));
    assert_eq!(reports[0].score_0_10000, 3263);
    assert!(build_result.read_warnings.is_empty());
}

#[test]
fn concentration_findings_only_emit_for_hot_files() {
    let reports = vec![
        ConcentrationReport {
            path: "src/lease.ts".to_string(),
            score_0_10000: 8200,
            reasons: vec!["writes 1 configured concept(s)".to_string()],
            ..Default::default()
        },
        ConcentrationReport {
            path: "src/simple.ts".to_string(),
            score_0_10000: 2100,
            reasons: vec!["max cyclomatic complexity 1".to_string()],
            ..Default::default()
        },
    ];

    let findings = build_concentration_findings(&reports, 10);

    assert_eq!(findings.len(), 1);
    assert_eq!(findings[0].kind, "coordination_hotspot");
    assert_eq!(findings[0].severity, FindingSeverity::High);
    assert_eq!(findings[0].path, "src/lease.ts");
}

#[test]
fn concentration_ignores_comment_and_string_noise() {
    let scrubbed = scrub_non_code_regions(
        r#"
                // dispatch('commented');
                const sample = "setTimeout(() => {})";
                /*
                  retry();
                  Promise.all([]);
                */
                export function real(): void {
                    dispatch("live");
                    awaitLater();
                }
            "#,
    );

    assert!(!scrubbed.contains("commented"));
    assert!(!scrubbed.contains("setTimeout"));
    assert!(!scrubbed.contains("retry()"));
    assert!(scrubbed.contains("dispatch("));
    assert!(scrubbed.contains("awaitLater("));
}

#[test]
fn concentration_timer_patterns_ignore_identifier_substrings() {
    let scrubbed = scrub_non_code_regions(
        r#"
                export function config(): void {
                    const retryCount = 1;
                    const throttleMs = 10;
                    const backoffDelay = 25;
                }
            "#,
    );

    assert_eq!(capped_pattern_hits(&scrubbed, &timer_retry_pattern_list(), 10), 0);
}

#[test]
fn concentration_findings_do_not_require_git_history() {
    let sources = vec![source(
        "src/lease.ts",
        "export async function lease(): Promise<void> {\n  setTimeout(() => {}, 10);\n  await refresh();\n  retry();\n  dispatch('x');\n}\n",
    )];
    let inputs = lease_inputs(vec![("src/lease.ts".to_string(), 18)]);

    let build_result = build_concentration_reports(&sources, &inputs, None);
    let reports = build_result.reports;
    let findings = build_concentration_findings(&reports, 10);

    assert_eq!(reports.len(), 1);
    assert!(reports[0].score_0_10000 >= 3000);
    assert_eq!(findings.len(), 1);
}

#[test]
fn scrubbing_keeps_length_and_line_breaks() {
    let text = "a // b\n'c\\'d' \"e\" `f\ng` /* h\n*/ i";
    let scrubbed = scrub_non_code_regions(text);
    assert_eq!(scrubbed.chars().count(), text.chars().count());
    let newlines_in = text.chars().filter(|c| *c == '\n').count();
    let newlines_out = scrubbed.chars().filter(|c| *c == '\n').count();
    assert_eq!(newlines_in, newlines_out);
    assert_eq!(scrubbed, "a     \n             \n       \n   i");
}

#[test]
fn capped_hits_stop_at_the_cap_per_pattern() {
    let text = "retry(); retry(); retry(); setTimeout(); setTimeout();";
    let patterns = timer_retry_pattern_list();
    assert_eq!(capped_pattern_hits(text, &patterns, 2), 4);
    assert_eq!(capped_pattern_hits(text, &patterns, 10), 5);
    assert_eq!(capped_pattern_hits(text, &patterns, 0), 0);
}

#[test]
fn score_without_history_uses_static_weight() {
    // Every signal saturated: the full weight of the static signals.
    assert_eq!(concentration_score_0_10000(3, 12, 8, 12, 25, 0, 0, false), 10000);
    assert_eq!(concentration_score_0_10000(3, 12, 8, 12, 25, 20, 250, true), 10000);
    assert_eq!(concentration_score_0_10000(0, 0, 0, 0, 0, 0, 0, false), 0);
    // One authority write only: 22% of 86% rounds to 2558.
    assert_eq!(concentration_score_0_10000(3, 0, 0, 0, 0, 0, 0, false), 2558);
    assert_eq!(concentration_score_0_10000(3, 0, 0, 0, 0, 0, 0, true), 2200);
}

#[test]
fn reasons_list_every_active_signal() {
    let reasons = concentration_reasons(1, 2, 3, 4, 12, 5, 6);
    assert_eq!(
        reasons,
        vec![
            "writes 1 configured concept(s)".to_string(),
            "touches 2 side-effect target(s)".to_string(),
            "contains 3 timer/retry coordination signal(s)".to_string(),
            "contains 4 async/branching control signal(s)".to_string(),
            "max cyclomatic complexity 12".to_string(),
            "changed in 5 recent commit(s)".to_string(),
            "git hotspot risk 6".to_string(),
        ]
    );
    assert!(concentration_reasons(0, 0, 0, 0, 9, 0, 0).is_empty());
}

#[test]
fn unreadable_source_yields_warning_and_empty_signals() {
    let failing = ConcentrationSource {
        path: "src/gone.ts".to_string(),
        contents: Err("not found".to_string()),
    };
    let inputs = ConcentrationInputs {
        complexity: vec![],
        authority_breadth: vec![],
        semantic_side_effects: vec![],
    };
    let (report, warning) = build_concentration_report(&failing, &inputs, None);
    assert_eq!(warning, Some("Failed to read concentration source 'src/gone.ts': not found".to_string()));
    assert_eq!(report.score_0_10000, 0);
    let result = build_concentration_reports(&vec![failing], &inputs, None);
    assert!(result.reports.is_empty());
    assert_eq!(result.read_warnings.len(), 1);
}

#[test]
fn medium_severity_below_high_threshold_and_limit_applies() {
    let reports = vec![
        ConcentrationReport { path: "a".to_string(), score_0_10000: 6499, ..Default::default() },
        ConcentrationReport { path: "b".to_string(), score_0_10000: 3000, ..Default::default() },
        ConcentrationReport { path: "c".to_string(), score_0_10000: 2999, ..Default::default() },
    ];
    let findings = build_concentration_findings(&reports, 10);
    assert_eq!(findings.len(), 2);
    assert_eq!(findings[0].severity, FindingSeverity::Medium);
    assert_eq!(findings[0].summary, "File 'a' is a concentrated coordination hotspot");
    assert_eq!(build_concentration_findings(&reports, 1).len(), 1);
}

#[test]
fn scrubbing_keeps_or_blanks_each_character_in_place() {
    let source = "let a = 1; // note\nconst s = 'x\\'y'; /* block\n */ call(\"q\");\n";
    let scrubbed = sentrux_metrics::concentration::scrub_non_code_regions(source);
    let original: Vec<char> = source.chars().collect();
    let result: Vec<char> = scrubbed.chars().collect();
    assert_eq!(original.len(), result.len());
    for (o, r) in original.iter().zip(result.iter()) {
        assert!(r == o || *r == ' ');
        assert_eq!(*o == '\n', *r == '\n');
    }
}

#[test]
fn read_warnings_follow_failed_sources_in_order() {
    let failing = |path: &str, why: &str| ConcentrationSource {
        path: path.to_string(),
        contents: Err(why.to_string()),
    };
    let sources = vec![
        failing("src/b.ts", "denied"),
        source("src/lease.ts", LEASE_RANKING),
        failing("src/a.ts", "not found"),
    ];
    let result = build_concentration_reports(&sources, &lease_inputs(vec![("src/lease.ts".to_string(), 12)]), None);
    assert_eq!(
        result.read_warnings,
        vec![
            "Failed to read concentration source 'src/b.ts': denied".to_string(),
            "Failed to read concentration source 'src/a.ts': not found".to_string(),
        ]
    );
    assert!(result.reports.iter().all(|r| r.score_0_10000 > 0));
}
