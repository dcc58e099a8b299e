use std::collections::{BTreeMap, HashMap};

use stryker::config::{
    config_format, discover_config, parse_config_text, unknown_keys, CleanTempDir, ConfigFormat,
    CoverageAnalysis, StrykerConfig, TestRunnerKind,
};
use stryker::execution::{
    accept_dry_run, command_runner, list_test_files, mutant_result, note_staticness, settled_statuses,
    sort_plans, test_file_section, unhashed_files, worker_count,
};
use stryker::model::{
    Location, Mutant, MutantCoverage, MutantId, MutantResult, MutantStatus, MutantTestPlan, Position,
};
use stryker::paths::{extension, file_name, join_path, parts_of, rebuild, settle, sort_paths};
use stryker::planner::{need, plan_mutants, plan_one, time_basis, DryRunTiming, Need, PlanInput, TimeBasis};
use stryker::project::{describe_target, is_corpus_file, is_declaration_file, is_test_file, read_project, walk_overrides, ProjectError};
use stryker::run::{refusal, reporter_action, ReporterAction, Session};
use stryker::runners::{DryRunResult, MutantRunOutcome, TestResult};
use stryker::text_map::TextMap;

fn texts(list: &[&str]) -> Vec<String> {
    list.iter().map(|s| s.to_string()).collect()
}

#[test]
fn defaults() {
    let c = StrykerConfig::default();
    assert_eq!(c.timeout_ms, 5000);
    assert_eq!(c.effective_coverage(), CoverageAnalysis::Off); // command runner
    assert_eq!(c.clean_temp_dir, CleanTempDir::OnSuccess);
}

#[test]
fn clean_temp_dir_always() {
    let value = parse_config_text("{ \"cleanTempDir\": \"always\" }").unwrap();
    let text = value.get("cleanTempDir").unwrap().as_str().unwrap();
    assert_eq!(CleanTempDir::from_text(text), Ok(CleanTempDir::Always));
    assert_eq!(
        CleanTempDir::from_text("often"),
        Err("cleanTempDir must be true, false or \"always\", got \"often\"".to_string())
    );
    assert_eq!(CleanTempDir::from_flag(true), CleanTempDir::OnSuccess);
    assert_eq!(CleanTempDir::from_flag(false), CleanTempDir::Never);
    assert!(!CleanTempDir::Never.removes());
}

#[test]
fn configuration_text_may_have_comments() {
    let value = parse_config_text("// why\n{ \"mutate\": [\"a.ts\",], \"typo\": 1, \"$schema\": \"x\" }").unwrap();
    assert_eq!(unknown_keys(&value), vec!["typo"]);
    let value = parse_config_text("{ \"zeta\": 1, \"mutate\": [], \"alpha\": 2 }").unwrap();
    assert_eq!(unknown_keys(&value), vec!["alpha", "zeta"]);
    assert!(parse_config_text("{ \"mutate\": ").is_err());
    assert_eq!(unknown_keys(&parse_config_text("[1]").unwrap()), Vec::<String>::new());
}

#[test]
fn configuration_files_are_looked_for_in_order() {
    let names = discover_config("/repo");
    assert_eq!(names[0], "/repo/stryker.config.json");
    assert_eq!(names[6], "/repo/stryker.conf.js");
    assert_eq!(config_format("a/b.jsonc"), ConfigFormat::Json);
    assert_eq!(config_format("a/b.cjs"), ConfigFormat::Script);
    assert_eq!(config_format("a.json/b"), ConfigFormat::Unsupported);
}

#[test]
fn effective_values() {
    let mut c = StrykerConfig::default();
    assert_eq!(c.effective_concurrency(Some(8)), 7);
    assert_eq!(c.effective_concurrency(Some(4)), 4);
    assert_eq!(c.effective_concurrency(None), 4);
    c.concurrency = Some(2);
    assert_eq!(c.effective_concurrency(Some(8)), 2);
    assert_eq!(c.effective_incremental_file("/r"), "/r/reports/stryker-incremental.json");
    c.incremental_file = Some("/abs.json".to_string());
    assert_eq!(c.effective_incremental_file("/r"), "/abs.json");
    assert!(!c.stops_after_dry_run(false));
    assert!(c.stops_after_dry_run(true));
    c.dry_run_only = true;
    assert!(c.stops_after_dry_run(false));
    c.incremental = true;
    assert!(c.reads_old_report(true) && !c.reads_old_report(false));
    c.force = true;
    assert!(!c.reads_old_report(true));
    c.test_runner = TestRunnerKind::Bun;
    assert_eq!(c.effective_coverage(), CoverageAnalysis::PerTest);
    c.coverage_analysis = Some(CoverageAnalysis::All);
    assert_eq!(c.effective_coverage(), CoverageAnalysis::All);
    c.mutate = texts(&["a.ts", "b.ts:4-2", "c.ts:1-x"]);
    let bad = c.parsed_mutate().unwrap_err();
    assert_eq!(bad.entry, "b.ts:4-2");
    assert_eq!(bad.cause.message("b.ts:4-2"), "mutate range in \"b.ts:4-2\" ends before it starts");
}

// ---- project ----

#[test]
fn inverted_allowlist_ignore_patterns() {
    let config = StrykerConfig {
        ignore_patterns: texts(&["**", "!package.json", "!pkg/**"]),
        mutate: texts(&["pkg/**/*.ts"]),
        ..StrykerConfig::default()
    };
    let walked = texts(&["pkg/src/a.ts", "package.json", "secret/data.ts", "pkg/src/a.test.ts", "node_modules/dep/i.ts"]);
    let project = read_project("/root", &config, &walked).unwrap();
    let files: Vec<&str> = project.files.iter().map(|f| f.as_str()).collect();
    assert_eq!(files, vec!["package.json", "pkg/src/a.test.ts", "pkg/src/a.ts"]);
    let targets: Vec<&str> = project.targets.iter().map(|t| t.path.as_str()).collect();
    assert_eq!(targets, vec!["pkg/src/a.ts"]); // test file excluded
}

#[test]
fn route_group_literal_and_ranges() {
    let config = StrykerConfig {
        mutate: texts(&["app/[(]user[)]/page.tsx", "lib/util.ts:10-20"]),
        ..StrykerConfig::default()
    };
    let walked = texts(&["app/(user)/page.tsx", "lib/util.ts"]);
    let project = read_project("/root", &config, &walked).unwrap();
    let by_path: HashMap<_, _> = project.targets.iter().map(|t| (t.path.as_str(), t)).collect();
    let page = by_path["app/(user)/page.tsx"];
    assert!(page.requested_literally);
    assert!(page.ranges.is_empty());
    let util = by_path["lib/util.ts"];
    assert!(util.requested_literally);
    assert_eq!(util.ranges.len(), 1);
    assert!(util.ranges[0].contains_line(15));
    assert_eq!(describe_target(util), "lib/util.ts:10-20");
    assert_eq!(describe_target(page), "app/(user)/page.tsx");
}

#[test]
fn lines_without_a_pattern_say_nothing() {
    let walked = texts(&["a.ts", "b.ts", "c ", "#d"]);
    let kept = |root: &str, lines: &[&str]| {
        let config = StrykerConfig { ignore_patterns: texts(lines), ..StrykerConfig::default() };
        read_project(root, &config, &walked).unwrap().files
    };
    assert_eq!(kept("/p", &["# a.ts", "", " \t ", "#d"]), texts(&["#d", "a.ts", "b.ts", "c "]));
    assert_eq!(kept("/p", &["a.ts  \t", "\\#d"]), texts(&["b.ts", "c "]));
    assert_eq!(kept("/p", &["c\\ "]), texts(&["#d", "a.ts", "b.ts"]));
    assert_eq!(kept("./p", &["/a.ts"]), kept("p", &["/a.ts"]));
    assert_eq!(kept("./p", &[]), walked.iter().cloned().collect::<std::collections::BTreeSet<_>>().into_iter().collect::<Vec<_>>());
}

#[test]
fn escapes_in_globs_stand_for_the_character() {
    for glob in ["src/a.ts", "src/\\a.ts", "src/[a].ts"] {
        let config = StrykerConfig { mutate: texts(&[glob]), ..StrykerConfig::default() };
        let project = read_project("/p", &config, &texts(&["src/a.ts", "src/b.ts"])).unwrap();
        let targets: Vec<&str> = project.targets.iter().map(|t| t.path.as_str()).collect();
        assert_eq!(targets, vec!["src/a.ts"], "{glob}");
    }
}

#[test]
fn the_last_pattern_wins() {
    let config = StrykerConfig {
        ignore_patterns: texts(&["src/*.ts", "!src/a.ts", "# a comment", "src/a.ts", "!src/b.ts"]),
        mutate: texts(&["src/*.ts", "src/b.ts:3-4", "!src/c*.ts"]),
        ..StrykerConfig::default()
    };
    let walked = texts(&["src/a.ts", "src/b.ts", "src/c.ts", "src/c1.mts"]);
    let project = read_project("/root", &config, &walked).unwrap();
    assert_eq!(project.files, vec!["src/b.ts", "src/c1.mts"]);
    assert_eq!(project.targets.len(), 1);
    assert!(project.targets[0].ranges.is_empty()); // a whole-file pattern beats a range
}

#[test]
fn bad_patterns_are_named() {
    let config = StrykerConfig { mutate: texts(&["!a.ts:1-2"]), ..StrykerConfig::default() };
    assert!(matches!(read_project("/r", &config, &vec![]), Err(ProjectError::Pattern(_))));
    let config = StrykerConfig { mutate: texts(&["{a"]), ..StrykerConfig::default() };
    assert!(matches!(read_project("/r", &config, &vec![]), Err(ProjectError::Glob(_))));
    let config = StrykerConfig { ignore_patterns: texts(&["{a"]), ..StrykerConfig::default() };
    assert!(matches!(read_project("/r", &config, &vec![]), Err(ProjectError::Ignore(_))));
}

#[test]
fn tests_and_declarations_are_told_by_their_paths() {
    assert!(is_test_file("src/a.test.ts"));
    assert!(is_test_file("src/a.spec.tsx"));
    assert!(is_test_file("src/a.stories.tsx"));
    assert!(is_test_file("e2e/a.ts"));
    assert!(is_test_file("src/__mocks__/a.ts"));
    assert!(!is_test_file("src/contest.ts"));
    assert!(!is_test_file("a.test.d/b.ts"));
    assert!(is_declaration_file("src/a.d.mts"));
    assert!(!is_declaration_file("src/d.ts"));
    assert!(is_corpus_file("a/b.cts"));
    assert!(!is_corpus_file("a/b.d.mts"));
    assert!(is_corpus_file("a/b.d.cts"));
    assert!(!is_corpus_file("a/b.json"));
    assert_eq!(walk_overrides(".tmp").last().unwrap(), "!.tmp");
}

#[test]
fn directories_come_before_longer_names() {
    // Part by part: "a" is before "a.ts", though '.' is before '/'.
    let sorted = sort_paths(&texts(&["a.ts", "b", "a/b.ts", "a-b/c"]));
    assert_eq!(sorted, vec!["a/b.ts", "a-b/c", "a.ts", "b"]);
}

#[test]
fn paths_are_taken_apart() {
    assert_eq!(parts_of("./a//b/./c"), vec![".", "a", "b", "c"]);
    assert_eq!(parts_of("/a"), vec!["/", "a"]);
    assert_eq!(parts_of(""), Vec::<String>::new());
    assert_eq!(rebuild(&texts(&["/", "a", "b"])), "/a/b");
    assert_eq!(settle(&texts(&["a", ".", "b", "..", "..", "..", "c"])), vec!["c"]);
    assert_eq!(join_path("a/", "b"), "a/b");
    assert_eq!(join_path("", "b"), "b");
    assert_eq!(join_path("a", "/b"), "/b");
    assert_eq!(file_name("a/b.ts").unwrap(), "b.ts");
    assert_eq!(file_name("a/.."), None);
    assert_eq!(extension("a.b/.hidden"), None);
    assert_eq!(extension("a/b.tar.gz").unwrap(), "gz");
}

// ---- plans ----

fn mutant(id: u32, ignored: Option<&str>) -> Mutant {
    Mutant {
        id: MutantId(id),
        file: "src/a.ts".to_string(),
        span: (0, 5),
        location: Location { start: Position { line: 1, column: 1 }, end: Position { line: 1, column: 6 } },
        mutator_name: "EqualityOperator",
        replacement: "a !== b".to_string(),
        original: "a === b".to_string(),
        ignored: ignored.map(|s| s.to_string()),
    }
}

fn covered() -> MutantCoverage {
    let mut c = MutantCoverage::new();
    c.static_hits.insert(1, 2);
    c.per_test.insert("t1".to_string(), [(2, 3)].into_iter().collect());
    c.per_test.insert("t2".to_string(), [(2, 4), (1, 1)].into_iter().collect());
    c
}

fn input(coverage: Option<&MutantCoverage>, mode: CoverageAnalysis) -> PlanInput<'_> {
    PlanInput { coverage, coverage_mode: mode, test_runner: TestRunnerKind::Vitest }
}

#[test]
fn plans_follow_coverage() {
    let coverage = covered();
    let input = input(Some(&coverage), CoverageAnalysis::PerTest);
    let mutants = vec![mutant(0, Some("why")), mutant(1, None), mutant(2, None), mutant(3, None)];
    let plans = plan_mutants(&mutants, &input, &vec![0, 10, 7000, 0]).unwrap();
    assert!(matches!(&plans[0], MutantTestPlan::EarlyResult { status: MutantStatus::Ignored, reason, .. } if reason == "why"));
    assert!(matches!(
        &plans[1],
        MutantTestPlan::Run { test_filter: None, timeout: 1000, hit_limit: Some(300), reload_environment: true, .. }
    ));
    match &plans[2] {
        MutantTestPlan::Run { test_filter: Some(tests), timeout, hit_limit, reload_environment, .. } => {
            assert_eq!(tests, &vec!["t1", "t2"]);
            assert_eq!(*timeout, 7000);
            assert_eq!(*hit_limit, Some(700));
            assert!(!reload_environment);
        }
        other => panic!("{other:?}"),
    }
    assert!(matches!(
        &plans[3],
        MutantTestPlan::EarlyResult { status: MutantStatus::NoCoverage, reason, .. } if reason == "No tests cover this mutant"
    ));
}

#[test]
fn without_coverage_everything_runs() {
    let coverage = covered();
    let off = input(Some(&coverage), CoverageAnalysis::Off);
    assert!(matches!(
        plan_one(&mutant(2, None), &off, 1500),
        Some(MutantTestPlan::Run { test_filter: None, timeout: 1500, hit_limit: None, reload_environment: true, .. })
    ));
    let none = input(None, CoverageAnalysis::PerTest);
    assert!(matches!(need(&mutant(2, None), &none), Need::Everything));
}

#[test]
fn one_shot_runners_always_reload() {
    let coverage = covered();
    let mut input = input(Some(&coverage), CoverageAnalysis::PerTest);
    input.test_runner = TestRunnerKind::Bun;
    assert!(matches!(
        plan_one(&mutant(2, None), &input, 0),
        Some(MutantTestPlan::Run { test_filter: Some(_), reload_environment: true, .. })
    ));
}

#[test]
fn a_limit_must_fit() {
    let mut coverage = MutantCoverage::new();
    coverage.static_hits.insert(1, u64::MAX / 100 + 1);
    let input = input(Some(&coverage), CoverageAnalysis::PerTest);
    assert!(plan_one(&mutant(1, None), &input, 0).is_none());
    assert!(plan_mutants(&vec![mutant(1, None)], &input, &vec![0]).is_none());
}

#[test]
fn times_of_covering_tests_count() {
    let coverage = covered();
    let input = input(Some(&coverage), CoverageAnalysis::PerTest);
    let tests = texts(&["t0", "t2", "t1"]);
    match time_basis(&need(&mutant(2, None), &input), &tests) {
        TimeBasis::Tests(at) => assert_eq!(at, vec![1, 2]),
        other => panic!("{other:?}"),
    }
    assert!(matches!(time_basis(&need(&mutant(1, None), &input), &tests), TimeBasis::Suite));
    assert!(matches!(time_basis(&need(&mutant(3, None), &input), &tests), TimeBasis::Nothing));
    assert_eq!(DryRunTiming::new(10, 4).overhead_ms, 6);
    assert_eq!(DryRunTiming::new(4, 10).overhead_ms, 0);
}

fn run_plan(id: u32, tests: Option<&[&str]>) -> MutantTestPlan {
    MutantTestPlan::Run {
        mutant: MutantId(id),
        test_filter: tests.map(texts),
        timeout: 1000,
        hit_limit: None,
        reload_environment: true,
    }
}

fn result(status: MutantStatus) -> MutantResult {
    MutantResult {
        status,
        killed_by: vec![],
        covered_by: vec![],
        tests_ran: 0,
        status_reason: None,
        duration: None,
        is_static: None,
    }
}

#[test]
fn cheap_plans_come_first() {
    let mut known = BTreeMap::new();
    known.insert(4, result(MutantStatus::Killed));
    let plans = vec![
        run_plan(0, None),
        run_plan(1, Some(&["a", "b"])),
        run_plan(2, Some(&["a"])),
        MutantTestPlan::EarlyResult { mutant: MutantId(3), status: MutantStatus::NoCoverage, reason: "r".to_string() },
        run_plan(4, Some(&["a"])),
        run_plan(5, Some(&["b"])),
    ];
    let queue = sort_plans(known, plans);
    let order: Vec<u32> = queue.plans.iter().map(|p| p.mutant_id().0).collect();
    assert_eq!(order, vec![2, 5, 1, 0]);
    assert_eq!(queue.results[&3].status, MutantStatus::NoCoverage);
    assert_eq!(queue.results[&3].status_reason.as_deref(), Some("r"));
    assert_eq!(queue.results[&4].status, MutantStatus::Killed);
    assert_eq!(worker_count(8, 3), 3);
    assert_eq!(worker_count(8, 0), 1);
    assert_eq!(worker_count(2, 9), 2);
}

#[test]
fn outcomes_become_results() {
    let killed = MutantRunOutcome::Killed { killed_by: texts(&["t"]), tests_ran: 2, failure: Some("f".to_string()) };
    let r = mutant_result(Ok(killed), texts(&["t", "u"]), 12);
    assert_eq!(r.status, MutantStatus::Killed);
    assert_eq!(r.killed_by, vec!["t"]);
    assert_eq!(r.covered_by, vec!["t", "u"]);
    assert_eq!((r.tests_ran, r.duration), (2, Some(12)));
    assert_eq!(mutant_result(Ok(MutantRunOutcome::Survived { tests_ran: 1 }), vec![], 0).status, MutantStatus::Survived);
    assert_eq!(mutant_result(Ok(MutantRunOutcome::Timeout { reason: None }), vec![], 0).status, MutantStatus::Timeout);
    let failed = mutant_result(Err("spawn".to_string()), vec![], 0);
    assert_eq!(failed.status, MutantStatus::RuntimeError);
    assert_eq!(failed.status_reason.as_deref(), Some("spawn"));
    let failed = mutant_result(Ok(MutantRunOutcome::Error("e".to_string())), vec![], 0);
    assert_eq!(failed.status, MutantStatus::RuntimeError);
}

#[test]
fn staticness_is_noted() {
    let mutants = vec![mutant(1, None), mutant(2, None), mutant(9, None)];
    let mut results = BTreeMap::new();
    results.insert(1, result(MutantStatus::Killed));
    results.insert(2, result(MutantStatus::Survived));
    let noted = note_staticness(results, &mutants, &covered());
    assert_eq!(noted[&1].is_static, Some(true));
    assert_eq!(noted[&2].is_static, Some(false));
    assert_eq!(settled_statuses(&mutants, &noted), vec![MutantStatus::Killed, MutantStatus::Survived]);
}

fn test_in(id: &str, file: Option<&str>, failed: bool) -> TestResult {
    TestResult {
        id: id.to_string(),
        name: format!("name of {id}"),
        file: file.map(|s| s.to_string()),
        time_bits: 0,
        failed,
        failure: if failed { Some("boom".to_string()) } else { None },
    }
}

#[test]
fn a_dry_run_must_pass() {
    let tests = vec![test_in("a", None, false), test_in("b", None, true)];
    let message = match accept_dry_run(DryRunResult::Complete { tests, coverage: None, gross_ms: 1 }) {
        Ok(_) => panic!("a failed test was accepted"),
        Err(m) => m,
    };
    assert_eq!(message, "there were failed tests in the initial test run: name of b boom");
    assert!(accept_dry_run(DryRunResult::Complete { tests: vec![], coverage: None, gross_ms: 1 }).is_ok());
    assert_eq!(accept_dry_run(DryRunResult::Timeout).err().unwrap(), "dry run timed out");
    assert_eq!(accept_dry_run(DryRunResult::Error("x".to_string())).err().unwrap(), "dry run failed: x");
}

#[test]
fn the_inventory_groups_tests_by_file() {
    let tests = vec![
        test_in("a > 1", Some("a"), false),
        test_in("b > 1", Some("b"), false),
        test_in("a > 2", Some("a"), false),
        test_in("none", None, false),
    ];
    let files = list_test_files(&tests);
    assert_eq!(files.len(), 2);
    assert_eq!(test_file_section(&tests).unwrap().len(), 2);
    assert!(test_file_section(&vec![]).is_none());
    let ids: Vec<&str> = files.get("a").unwrap().tests.iter().map(|t| t.id.as_str()).collect();
    assert_eq!(ids, vec!["a > 1", "a > 2"]);
    let mut known = TextMap::new();
    known.insert("b".to_string(), "h".to_string());
    assert_eq!(unhashed_files(&tests, &known), vec!["a"]);
}

#[test]
fn the_command_runner_needs_a_command() {
    let mut config = StrykerConfig::default();
    assert_eq!(
        command_runner(&config, "/r").err().unwrap(),
        "commandRunner.command is required for testRunner: command"
    );
    config.command_runner.command = Some("bun test".to_string());
    let runner = command_runner(&config, "/r").ok().unwrap();
    assert_eq!(runner.cwd, "/r");
    assert_eq!(runner.invocation.program(), vec!["bun", "test"]);
}

// ---- run ----

#[test]
fn ids_run_over_all_files() {
    let config = StrykerConfig { mutate: texts(&["*.ts"]), ..StrykerConfig::default() };
    let walked = texts(&["a.ts", "b.ts", "c.ts"]);
    let project = read_project("/r", &config, &walked).unwrap();
    let mut session = Session::new();
    assert!(session.take_file(&project.targets[0], "export const a = 1 + 2;".to_string(), &config).is_none());
    let broken = session.take_file(&project.targets[1], "export const = ;".to_string(), &config);
    assert!(broken.unwrap().message().starts_with("parse error in b.ts: "));
    assert!(session.take_file(&project.targets[2], "export const c = 3 - 4;".to_string(), &config).is_none());
    let ids: Vec<u32> = session.mutants.iter().map(|m| m.id.0).collect();
    assert_eq!(ids, vec![0, 1]);
    assert_eq!(session.next_id, 2);
    let touched: Vec<&str> = session.instrumented.iter().map(|t| t.path.as_str()).collect();
    assert_eq!(touched, vec!["a.ts", "c.ts"]);
    assert_eq!(session.sources.len(), 3);
}

#[test]
fn dirty_files_are_refused() {
    assert!(refusal(&vec![]).is_none());
    let message = refusal(&texts(&["a", "b", "c", "d", "e", "f"])).unwrap();
    assert_eq!(
        message,
        "refusing to mutate files with uncommitted changes (a failed restore would lose your work): a, b, c, d, e\nCommit/stash them or pass --force-dirty."
    );
}

#[test]
fn reporters_have_their_places() {
    let mut config = StrykerConfig::default();
    config.html_reporter.file_name = Some("out.html".to_string());
    assert!(matches!(reporter_action("clear-text", &config, "/r"), ReporterAction::ClearText));
    assert!(matches!(reporter_action("json", &config, "/r"), ReporterAction::Json(ref p) if p == "/r/reports/mutation/mutation.json"));
    assert!(matches!(reporter_action("html", &config, "/r"), ReporterAction::Html(ref p) if p == "/r/out.html"));
    assert!(matches!(reporter_action("dots", &config, "/r"), ReporterAction::Silent));
    assert!(matches!(reporter_action("mail", &config, "/r"), ReporterAction::Unknown));
}
