use std::collections::BTreeMap;

use stryker::clear_text::{can_render, render, table_rows, total_metrics};
use stryker::model::{Location, Mutant, MutantId, MutantResult, MutantStatus, Position};
use stryker::report::{build_report, Metrics, ReportInput};
use stryker::schema::{language_for, MutationTestResult, Performance, SchemaThresholds};
use stryker::text_map::TextMap;

fn sample_mutant(id: u32, file: &str) -> Mutant {
    Mutant {
        id: MutantId(id),
        file: file.to_string(),
        span: (10, 15),
        location: Location {
            start: Position { line: 1, column: 11 },
            end: Position { line: 1, column: 16 },
        },
        mutator_name: "EqualityOperator",
        replacement: "a !== b".into(),
        original: "a === b".into(),
        ignored: None,
    }
}

fn sample_result(status: MutantStatus) -> MutantResult {
    MutantResult {
        status,
        killed_by: vec![],
        covered_by: vec![],
        tests_ran: 0,
        status_reason: None,
        duration: None,
        is_static: None,
    }
}

fn thresholds() -> SchemaThresholds {
    SchemaThresholds { high_bits: 80.0f64.to_bits(), low_bits: 60.0f64.to_bits() }
}

fn report_of(mutants: &Vec<Mutant>, results: &BTreeMap<u32, MutantResult>, sources: &[(&str, &str)]) -> MutationTestResult {
    let mut file_sources = TextMap::new();
    for (path, text) in sources {
        file_sources.insert(path.to_string(), text.to_string());
    }
    build_report(ReportInput {
        file_sources: &file_sources,
        mutants,
        results,
        thresholds: thresholds(),
        project_root: Some("/repo".into()),
        config: Some(serde_json::from_str("{\"strykerRs\": {\"testCommandFingerprint\": \"abc\"}}").unwrap()),
        test_files: None,
        performance: Some(Performance { setup: 1, initial_run: 2, mutation: 3 }),
    })
}

#[test]
fn report_matches_upstream_schema() {
    let mutants = vec![sample_mutant(0, "src/a.ts")];
    let mut results = BTreeMap::new();
    results.insert(
        0,
        MutantResult {
            status: MutantStatus::Killed,
            killed_by: vec!["src/a.test.ts > works".into()],
            covered_by: vec!["src/a.test.ts > works".into()],
            tests_ran: 1,
            status_reason: None,
            duration: Some(12),
            is_static: Some(false),
        },
    );
    // A zero-mutant file must be representable too (parsers require it).
    let report = report_of(
        &mutants,
        &results,
        &[("src/a.ts", "const x = a === b;"), ("src/empty.ts", "export {};")],
    );
    // What the schema asks of a report.
    assert_eq!(report.schema_version, "2");
    assert_eq!(f64::from_bits(report.thresholds.high_bits), 80.0);
    assert_eq!(f64::from_bits(report.thresholds.low_bits), 60.0);
    assert_eq!(report.files.len(), 2);
    let file = report.files.get("src/a.ts").unwrap();
    assert_eq!(file.language, "typescript");
    assert_eq!(file.source, "const x = a === b;");
    let m = &file.mutants[0];
    assert_eq!(m.id, "0");
    assert_eq!(m.mutator_name, "EqualityOperator");
    assert_eq!(m.status, MutantStatus::Killed);
    assert_eq!(m.replacement.as_deref(), Some("a !== b"));
    assert_eq!(m.killed_by.as_ref().unwrap(), &vec!["src/a.test.ts > works"]);
    assert_eq!(m.covered_by.as_ref().unwrap(), &vec!["src/a.test.ts > works"]);
    assert_eq!(m.duration, Some(12));
    assert_eq!(m.is_static, Some(false));
    assert_eq!(m.tests_completed, Some(1));
    assert_eq!(m.location.start.line, 1);
    assert_eq!(m.location.end.column, 16);
    let empty = report.files.get("src/empty.ts").unwrap();
    assert!(empty.mutants.is_empty());
    assert_eq!(empty.source, "export {};");
    let framework = report.framework.unwrap();
    assert_eq!(framework.name, "stryker-rs");
    assert_eq!(report.performance.unwrap().initial_run, 2);
    let fingerprint = report.config.unwrap();
    assert_eq!(fingerprint.pointer("/strykerRs/testCommandFingerprint").unwrap().as_str(), Some("abc"));
}

#[test]
fn mutants_without_a_result_are_pending() {
    let report = report_of(&vec![sample_mutant(3, "src/lost.js")], &BTreeMap::new(), &[]);
    let file = report.files.get("src/lost.js").unwrap();
    assert_eq!(file.language, "javascript");
    assert_eq!(file.source, "");
    assert_eq!(file.mutants[0].status, MutantStatus::Pending);
    assert_eq!(file.mutants[0].tests_completed, None);
    assert_eq!(file.mutants[0].covered_by, None);
}

#[test]
fn languages() {
    assert_eq!(language_for("a.tsx"), "typescript");
    assert_eq!(language_for("a.jsx"), "typescript");
    assert_eq!(language_for("a.mts"), "typescript");
    assert_eq!(language_for("a.mjs"), "javascript");
}

#[test]
fn metrics_count_statuses() {
    let m = Metrics::count(&vec![
        MutantStatus::Killed,
        MutantStatus::Timeout,
        MutantStatus::Survived,
        MutantStatus::NoCoverage,
        MutantStatus::Killed,
        MutantStatus::Ignored,
        MutantStatus::Pending,
        MutantStatus::RuntimeError,
        MutantStatus::CompileError,
    ]);
    assert_eq!((m.detected(), m.undetected(), m.valid()), (3, 2, 5));
    assert_eq!((m.ignored, m.pending, m.runtime_errors, m.compile_errors), (1, 1, 1, 1));
    assert_eq!(Metrics::default().valid(), 0);
    assert_eq!(m.score_parts(), Some((3, 5)));
    assert_eq!(Metrics::count(&vec![MutantStatus::Ignored, MutantStatus::Pending]).score_parts(), None);
    assert_eq!(Metrics::count(&vec![MutantStatus::Survived]).score_parts(), Some((0, 1)));
}

#[test]
fn escapes_script_breakout() {
    let json = "{\"source\":\"const x = \\\"</script><script>alert(1)</script>\\\";\"}";
    let html = stryker::html::render(json, "/* elements */");
    // The only literal `</script>` closers must be ours (bundle + binding).
    assert!(!html.contains("</script><script>alert"));
    assert!(html.contains("\\u003c/script>"));
    assert!(html.starts_with("<!DOCTYPE html>\n<html lang=\"en\">"));
    assert!(html.contains("<script>/* elements */</script>"));
    assert!(html.ends_with("</script>\n</body>\n</html>\n"));
}

#[test]
fn the_report_adds_no_tags_and_reads_the_same() {
    let json = "{\"a<b\":\"\\\\<\\n<\"}";
    let tags = |html: &str| html.matches('<').count();
    assert_eq!(tags(&stryker::html::render(json, "x")), tags(&stryker::html::render("{}", "x")));
    let page = stryker::html::render(json, "x");
    let from = page.find("app.report = ").unwrap() + "app.report = ".len();
    let shown = &page[from..page.find(";\n    function").unwrap()];
    let read: serde_json::Value = serde_json::from_str(shown).unwrap();
    assert_eq!(read, serde_json::from_str::<serde_json::Value>(json).unwrap());
}

#[test]
fn only_shown_mutants_need_a_line() {
    let mut nowhere = sample_mutant(0, "a.ts");
    nowhere.location.start.line = 0;
    let mutants = vec![nowhere];
    let mut results = BTreeMap::new();
    results.insert(0, sample_result(MutantStatus::Killed));
    assert!(can_render(&report_of(&mutants, &results, &[("a.ts", "x")])));
    results.insert(0, sample_result(MutantStatus::Survived));
    assert!(can_render(&report_of(&mutants, &results, &[("a.ts", "")])));
    assert!(!can_render(&report_of(&mutants, &results, &[("a.ts", "x")])));
}

#[test]
fn survivors_and_scores_in_words() {
    let mutants = vec![sample_mutant(0, "src/a.ts"), sample_mutant(1, "src/a.ts"), sample_mutant(2, "b.ts")];
    let mut results = BTreeMap::new();
    results.insert(0, sample_result(MutantStatus::Survived));
    results.insert(1, sample_result(MutantStatus::Killed));
    results.insert(2, sample_result(MutantStatus::Timeout));
    let report = report_of(&mutants, &results, &[("src/a.ts", "  const x = a === b;\nlast"), ("b.ts", "")]);
    assert!(can_render(&report));
    let rows = table_rows(&report);
    let names: Vec<&str> = rows.iter().map(|r| r.directory.as_str()).collect();
    assert_eq!(names, vec!["", "src"]);
    let total = total_metrics(&report);
    assert_eq!((total.detected(), total.valid()), (2, 3));
    let scores = vec!["100.00%".to_string(), "50.00%".to_string()];
    let text = render(&report, &rows, &scores, &total, "66.67%");
    let lines: Vec<&str> = text.lines().collect();
    assert_eq!(lines[0], "[Survived] EqualityOperator src/a.ts:1:11");
    assert_eq!(lines[1], "-   const x = a === b;");
    assert_eq!(lines[2], "+   a !== b");
    assert_eq!(lines[3], "");
    assert_eq!(
        lines[4],
        format!(
            "{:<50} {:>8} {:>8} {:>8} {:>8} {:>8} {:>8}",
            "File / directory", "score", "killed", "timeout", "survived", "no-cov", "errors"
        )
    );
    assert_eq!(lines[5], "-".repeat(104));
    assert_eq!(lines[6], format!("{:<50} {:>7} {:>8} {:>8} {:>8} {:>8} {:>8}", "", "100.00%", 0, 1, 0, 0, 0));
    assert_eq!(lines[7], format!("{:<50} {:>7} {:>8} {:>8} {:>8} {:>8} {:>8}", "src", "50.00%", 1, 0, 1, 0, 0));
    assert_eq!(lines[8], "-".repeat(104));
    assert_eq!(lines[9], format!("{:<50} {:>7} {:>8} {:>8} {:>8} {:>8} {:>8}", "All files", "66.67%", 1, 1, 1, 0, 0));
    assert_eq!(lines.len(), 10);
}

#[test]
fn long_directories_keep_their_end() {
    let dir = "d".repeat(60);
    let path = format!("{dir}/a.ts");
    let mut results = BTreeMap::new();
    results.insert(0, sample_result(MutantStatus::Killed));
    let report = report_of(&vec![sample_mutant(0, &path)], &results, &[]);
    let rows = table_rows(&report);
    let text = render(&report, &rows, &vec!["n/a".to_string()], &total_metrics(&report), "n/a");
    assert!(text.contains(&format!("…{} ", "d".repeat(49))));
    let wide = format!("{}/a.ts", "é".repeat(30));
    let report = report_of(&vec![sample_mutant(0, &wide)], &results, &[]);
    assert!(!can_render(&report)); // 49 bytes from the end cut a character
}

#[test]
fn statuses_are_detected_or_valid() {
    assert!(MutantStatus::Killed.is_detected() && MutantStatus::Timeout.is_detected());
    assert!(!MutantStatus::Survived.is_detected() && MutantStatus::Survived.is_valid());
    assert!(MutantStatus::NoCoverage.is_valid());
    assert!(!MutantStatus::Ignored.is_valid() && !MutantStatus::RuntimeError.is_valid());
}
