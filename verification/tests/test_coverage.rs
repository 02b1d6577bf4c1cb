use sentrux_metrics::snapshot::FileNode;
use sentrux_metrics::test_coverage::build_missing_test_findings;

fn test_snapshot(files: &[&str]) -> Vec<FileNode> {
    let mut nodes = vec![FileNode {
        path: ".".to_string(),
        is_dir: true,
        lang: String::new(),
        lines: 0,
        funcs: 0,
        functions: None,
        tags: None,
    }];
    for path in files {
        nodes.push(FileNode {
            path: path.to_string(),
            is_dir: false,
            lang: "ts".to_string(),
            lines: 10,
            funcs: 0,
            functions: None,
            tags: None,
        });
    }
    nodes
}

fn set(paths: &[&str]) -> Vec<String> {
    let mut v: Vec<String> = paths.iter().map(|p| p.to_string()).collect();
    v.sort();
    v.dedup();
    v
}

#[test]
fn reports_new_production_file_without_sibling_test() {
    let snapshot = test_snapshot(&["src/app/task-health-monitor.ts"]);
    let changed_files = set(&["src/app/task-health-monitor.ts"]);
    let baseline_files = set(&["src/app/existing.ts"]);

    let findings = build_missing_test_findings(&snapshot, &changed_files, &baseline_files);

    assert_eq!(findings.len(), 1);
    assert_eq!(findings[0].kind, "missing_test_coverage");
    assert!(findings[0].summary.contains("task-health-monitor.ts"));
}

#[test]
fn groups_multiple_new_files_in_the_same_directory() {
    let snapshot = test_snapshot(&["src/app/a.ts", "src/app/b.ts", "src/app/c.ts", "src/app/d.ts"]);
    let changed_files = set(&["src/app/a.ts", "src/app/b.ts", "src/app/c.ts", "src/app/d.ts"]);
    let baseline_files = set(&["src/app/existing.ts"]);

    let findings = build_missing_test_findings(&snapshot, &changed_files, &baseline_files);

    assert_eq!(findings.len(), 1);
    assert!(findings[0].summary.contains("4 new production files"));
    assert_eq!(findings[0].files.len(), 4);
}

#[test]
fn ignores_files_when_a_sibling_test_exists() {
    let snapshot = test_snapshot(&[
        "src/app/task-health-monitor.ts",
        "src/app/task-health-monitor.test.ts",
    ]);
    let changed_files = set(&["src/app/task-health-monitor.ts"]);
    let baseline_files = set(&["src/app/existing.ts"]);

    let findings = build_missing_test_findings(&snapshot, &changed_files, &baseline_files);

    assert!(findings.is_empty());
}

#[test]
fn reports_nothing_without_a_baseline() {
    let snapshot = test_snapshot(&["src/app/a.ts"]);
    let findings = build_missing_test_findings(&snapshot, &set(&["src/app/a.ts"]), &Vec::new());
    assert!(findings.is_empty());
}

#[test]
fn exact_finding_texts_for_single_and_grouped_files() {
    let snapshot = test_snapshot(&["src/x/a.ts", "lib/b.py", "docs/c.ts"]);
    let findings = build_missing_test_findings(
        &snapshot,
        &set(&["docs/c.ts", "lib/b.py", "src/x/a.ts"]),
        &set(&["src/old.ts"]),
    );
    assert_eq!(findings.len(), 2);
    assert_eq!(findings[0].concept_id, "lib/b.py");
    assert_eq!(findings[0].summary, "New production file lib/b.py does not have a sibling test");
    assert_eq!(findings[1].concept_id, "src/x/a.ts");
    assert_eq!(findings[1].evidence, vec!["src/x/a.ts".to_string()]);
}

#[test]
fn spec_sibling_in_tests_directory_counts() {
    let snapshot = test_snapshot(&["src/app/a.ts", "src/app/__tests__/a.spec.ts"]);
    let findings = build_missing_test_findings(&snapshot, &set(&["src/app/a.ts"]), &set(&["src/z.ts"]));
    assert!(findings.is_empty());
}

#[test]
fn missing_test_findings_split_files_by_directory() {
    let paths = [
        "src/app/a.ts",
        "src/app/b.ts",
        "src/app/c.ts",
        "src/app/d.ts",
        "src/lib/e.ts",
        "src/lib/f.ts",
    ];
    let snapshot = test_snapshot(&paths);
    let changed_files = set(&paths);
    let baseline_files = set(&["src/app/existing.ts"]);

    let findings = build_missing_test_findings(&snapshot, &changed_files, &baseline_files);

    assert_eq!(findings.len(), 3);
    let mut seen: Vec<String> = Vec::new();
    for finding in &findings {
        let dir = finding.files[0].rsplit_once('/').unwrap().0.to_string();
        for file in &finding.files {
            assert_eq!(file.rsplit_once('/').unwrap().0, dir);
            assert!(!seen.contains(file));
            seen.push(file.clone());
        }
    }
    seen.sort();
    assert_eq!(seen, changed_files);
}
