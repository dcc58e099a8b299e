use std::collections::HashMap;

use stryker::bun::{case_outcome, covering_files, dry_run_start, name_pattern, rekey, selection, BunError, BunRunner, DryRunStart, Handoff};
use stryker::command::{CommandError, CommandRunner, Invocation};
use stryker::composite::{shared_ownership, CompositeDryRun, CompositeRun, DryRunStep, RunStep};
use stryker::coverage::merge_coverage;
use stryker::junit::{parse_junit, JunitCase};
use stryker::model::{MutantCoverage, MutantId};
use stryker::process::{RunOutput, Waited};
use stryker::runners::{mutant_env, DryRunResult, MutantRunOptions, MutantRunOutcome, TestResult};
use stryker::text_map::TextMap;
use stryker::vitest::{after_event, CallEvent, CallStep, ShimCoverage, ShimReply, ShimTest, VitestRunner};

fn direct(runner: &CommandRunner) -> (&[(String, String)], &[String]) {
    match &runner.invocation {
        Invocation::Direct(env, argv) => (env, argv),
        Invocation::Shell(_) => panic!("expected direct invocation"),
    }
}

fn output(code: Option<i32>, stdout: &str, stderr: &str) -> RunOutput {
    RunOutput::after(Waited::Exited(code), stdout.to_string(), stderr.to_string(), 7)
}

fn timed_out() -> RunOutput {
    RunOutput::after(Waited::TimedOut, String::new(), String::new(), 9)
}

#[test]
fn shell_syntax_switches_to_bash() {
    let runner = CommandRunner::new("bun test && echo done", ".".to_string()).unwrap();
    assert!(matches!(runner.invocation, Invocation::Shell(_)));
    let runner = CommandRunner::new("echo `date`", ".".to_string()).unwrap();
    assert!(matches!(runner.invocation, Invocation::Shell(_)));
}

#[test]
fn unquoted_operators_need_a_shell() {
    for command in ["cd pkg; bun test", "a|b", "a&", "a <in", "a >out", "echo $(date)", "a 'x';b"] {
        let runner = CommandRunner::new(command, ".".to_string()).unwrap();
        assert!(matches!(runner.invocation, Invocation::Shell(_)), "{command}");
    }
    for command in ["echo 'a;b'", "echo \"a|b\"", "echo a\\;b", "bun test -t 'a && b'"] {
        let runner = CommandRunner::new(command, ".".to_string()).unwrap();
        assert!(matches!(runner.invocation, Invocation::Direct(_, _)), "{command}");
    }
}

#[test]
fn parses_quoted_args_with_parens() {
    let runner = CommandRunner::new("bun test 'app/(user)/page.test.tsx'", ".".to_string()).unwrap();
    let (_, argv) = direct(&runner);
    assert_eq!(argv[2], "app/(user)/page.test.tsx");
}

#[test]
fn env_prefix_assignments() {
    let runner = CommandRunner::new(
        "COVERAGE_ENABLED=false TEST_SEQUENTIAL=1 bash ../../scripts/run-tests.sh --preload ./setup.ts",
        ".".to_string(),
    )
    .unwrap();
    let (env, argv) = direct(&runner);
    assert_eq!(env.len(), 2);
    assert_eq!(env[0], ("COVERAGE_ENABLED".to_string(), "false".to_string()));
    assert_eq!(argv[0], "bash");
    assert_eq!(argv[2], "--preload");
}

#[test]
fn env_only_command_is_an_error() {
    assert!(CommandRunner::new("FOO=1 BAR=2", ".".to_string()).is_err());
}

#[test]
fn refused_commands_say_why() {
    let cases = [
        ("FOO=1 BAR=2", "commandRunner.command \"FOO=1 BAR=2\" has no command word"),
        ("", "commandRunner.command is empty"),
        ("echo 'x", "cannot parse commandRunner.command \"echo 'x\": missing closing quote"),
    ];
    for (command, words) in cases {
        let error: CommandError = match CommandRunner::new(command, ".".to_string()) {
            Ok(_) => panic!("accepted {command}"),
            Err(e) => e,
        };
        assert_eq!(error.message(command), words);
    }
}

#[test]
fn bash_runs_what_needs_a_shell() {
    let runner = CommandRunner::with_shell("bun test", ".".to_string(), true).unwrap();
    assert_eq!(runner.invocation.program(), vec!["bash", "-c", "bun test"]);
    assert!(!runner.capabilities().per_test_coverage);
}

#[test]
fn exit_codes_decide_the_mutant() {
    let survived = stryker::command::mutant_outcome(&output(Some(0), "", ""));
    assert!(matches!(survived, MutantRunOutcome::Survived { tests_ran: 1 }));
    let killed = stryker::command::mutant_outcome(&output(Some(1), "", "boom"));
    assert!(matches!(killed, MutantRunOutcome::Killed { failure: Some(ref f), .. } if f == "boom"));
    let stuck = stryker::command::mutant_outcome(&output(Some(1), "Stryker: Hit limit reached", ""));
    assert!(matches!(stuck, MutantRunOutcome::Timeout { reason: Some(_) }));
    assert!(matches!(stryker::command::mutant_outcome(&timed_out()), MutantRunOutcome::Timeout { reason: None }));
    let failed = stryker::command::dry_run_result(&output(Some(2), "", "no tests"), 0);
    match failed {
        DryRunResult::Error(text) => {
            assert_eq!(text, "test command failed in the dry run (exit Some(2)):\nno tests")
        }
        _ => panic!("expected an error"),
    }
}

#[test]
fn diagnostics_prefer_stderr_and_keep_the_end() {
    let lines: Vec<String> = (0..50).map(|n| format!("line {n}")).collect();
    let tail = output(Some(1), "out", &lines.join("\n")).diagnostic_tail();
    assert!(tail.starts_with("line 10\n"));
    assert!(tail.ends_with("line 49"));
    assert_eq!(output(Some(1), "out", "  \n").diagnostic_tail(), "out");
    assert!(!timed_out().success());
}

#[test]
fn activation_names_mutant_and_limit() {
    let env = mutant_env(&MutantRunOptions {
        active_mutant: MutantId(12),
        test_filter: None,
        timeout: 5000,
        hit_limit: Some(300),
    });
    assert_eq!(
        env,
        vec![
            ("__STRYKER_ACTIVE_MUTANT__".to_string(), "12".to_string()),
            ("__STRYKER_HIT_LIMIT__".to_string(), "300".to_string()),
        ]
    );
}

const SAMPLE: &str = r#"<?xml version="1.0" encoding="UTF-8"?>
<testsuites name="bun test" tests="7" failures="2" skipped="2" time="0.013">
  <testsuite name="fail.test.ts" file="fail.test.ts" tests="2">
    <testcase name="boom" classname="" time="0.000165" file="fail.test.ts" line="2" assertions="0">
      <failure type="AssertionError" />
    </testcase>
    <testcase name="ok" classname="" time="0.0001" file="fail.test.ts" line="3" assertions="1" />
  </testsuite>
  <testsuite name="mixed.test.ts" file="mixed.test.ts" tests="5">
    <testsuite name="suite" file="mixed.test.ts" line="3" tests="4">
      <testcase name="alpha" classname="suite" time="0.000012" file="mixed.test.ts" line="4" assertions="1" />
      <testcase name="beta" classname="suite" time="0" file="mixed.test.ts" line="5" assertions="0">
        <skipped />
      </testcase>
    </testsuite>
    <testcase name="epsilon" classname="" time="0.000004" file="mixed.test.ts" line="9" assertions="1" />
  </testsuite>
</testsuites>"#;

fn time_ms(case: &JunitCase) -> f64 {
    case.time.parse::<f64>().unwrap_or(0.0) * 1000.0
}

#[test]
fn parses_nested_structure() {
    let cases = parse_junit(SAMPLE).unwrap();
    assert_eq!(cases.len(), 5);
    assert_eq!(cases[0].test_id(), "fail.test.ts > boom");
    assert!(cases[0].failed);
    assert!(!cases[1].failed);
    assert_eq!(cases[2].test_id(), "mixed.test.ts > suite > alpha");
    assert!(cases[3].skipped);
    assert_eq!(cases[4].test_id(), "mixed.test.ts > epsilon");
    assert!((time_ms(&cases[2]) - 0.012).abs() < 1e-9);
    // Executed cases in document order (the ordinal contract).
    let executed: Vec<String> = cases.iter().filter(|c| !c.skipped).map(|c| c.test_id()).collect();
    assert_eq!(
        executed,
        vec![
            "fail.test.ts > boom",
            "fail.test.ts > ok",
            "mixed.test.ts > suite > alpha",
            "mixed.test.ts > epsilon"
        ]
    );
}

#[test]
fn junit_values_are_unescaped() {
    let xml = r#"<testsuites><testsuite name="a.test.ts" file="a.test.ts"><testcase name="a &gt; b &quot;c&quot;" file="a.test.ts" time="1"/></testsuite></testsuites>"#;
    let cases = parse_junit(xml).unwrap();
    assert_eq!(cases[0].test_id(), "a.test.ts > a > b \"c\"");
    assert!(parse_junit("<testsuites><testcase name=\"x\"></testsuites>").is_err());
}

#[test]
fn unreadable_reports_say_what_is_wrong() {
    let fault = parse_junit("<testsuites><testcase name=\"x\"></testsuites>").unwrap_err();
    assert!(fault.contains("testcase") && fault.contains("testsuites"), "{fault}");
    match dry_run_start(&output(Some(0), "", ""), &Some("<a></b>".to_string()), "") {
        Err(e @ BunError::UnreadableJunit(_)) => {
            assert_eq!(e.message(), parse_junit("<a></b>").unwrap_err())
        }
        _ => panic!("expected an unreadable report"),
    }
    // An attribute that is never looked at may hold anything.
    assert_eq!(parse_junit("<testcase name=\"x\" line=\"&nope;\"/>").unwrap().len(), 1);
    // One that is not well-formed is passed over.
    assert_eq!(parse_junit("<testcase name=\"x\" broken file=\"f\"/>").unwrap()[0].file.as_deref(), Some("f"));
    let early = parse_junit("<testcase name=\"&nope;\"/><a></b>").unwrap_err();
    assert!(early.contains("nope"), "{early}");
}

#[test]
fn covering_files_dedupes() {
    let filter = vec![
        "src/a.test.ts > x".to_string(),
        "src/a.test.ts > suite > y".to_string(),
        "src/b.test.ts > z".to_string(),
    ];
    assert_eq!(covering_files(&filter), vec!["src/a.test.ts", "src/b.test.ts"]);
}

#[test]
fn name_pattern_escapes() {
    let filter = vec!["a.test.ts > handles (edge) case".to_string()];
    assert_eq!(name_pattern(&filter).unwrap(), "handles \\(edge\\) case");
}

#[test]
fn bun_selects_files_and_names() {
    let filter = Some(vec!["a.test.ts > x".to_string(), "b.test.ts > s > y".to_string()]);
    let args = selection(&filter, &vec!["all.test.ts".to_string()]);
    assert_eq!(&args[0..2], ["a.test.ts", "b.test.ts"]);
    assert_eq!(args[2], "-t");
    assert_eq!(selection(&None, &vec!["all.test.ts".to_string()]), vec!["all.test.ts"]);
}

fn bun_runner(worker: u64) -> BunRunner {
    BunRunner::new(
        "/repo/pkg".to_string(),
        "pkg".to_string(),
        "/repo/.tmp".to_string(),
        vec!["--bail".to_string()],
        vec!["all.test.ts".to_string()],
        vec![("A".to_string(), "1".to_string())],
        worker,
    )
}

#[test]
fn bun_commands_are_complete() {
    let runner = bun_runner(0);
    assert!(runner.capabilities().per_test_coverage);
    let dry = runner.dry_run_command("j.xml", "c.json");
    assert_eq!(
        dry.args,
        vec![
            "test",
            "--preload",
            "/repo/.tmp/stryker-preload.ts",
            "--reporter=junit",
            "--reporter-outfile=j.xml",
            "--bail",
            "all.test.ts"
        ]
    );
    assert_eq!(dry.env[0], ("STRYKER_COVERAGE_FILE".to_string(), "c.json".to_string()));
    let options = MutantRunOptions {
        active_mutant: MutantId(4),
        test_filter: Some(vec!["pkg/a.test.ts > s > x".to_string()]),
        timeout: 1000,
        hit_limit: None,
    };
    let run = runner.mutant_command("j.xml", "c.json", &options);
    assert_eq!(&run.args[6..], ["a.test.ts", "-t", "x"]);
    assert_eq!(run.env.len(), 4);
    assert_eq!(run.env[3], ("__STRYKER_ACTIVE_MUTANT__".to_string(), "4".to_string()));
}

#[test]
fn bun_artifacts_do_not_collide() {
    let mut first = bun_runner(1);
    let mut second = bun_runner(11);
    assert_eq!(first.artifact("junit"), "/repo/.tmp/junit-w1-1.tmp");
    assert_eq!(first.artifact("coverage"), "/repo/.tmp/coverage-w1-2.tmp");
    assert_eq!(second.artifact("junit"), "/repo/.tmp/junit-w11-1.tmp");
}

#[test]
fn bun_tests_are_seen_from_the_root() {
    let runner = bun_runner(0);
    let junit = Some(SAMPLE.to_string());
    match dry_run_start(&output(Some(1), "", ""), &junit, &runner.path_prefix) {
        Ok(DryRunStart::Cases(cases)) => {
            assert_eq!(cases.len(), 4);
            assert_eq!(cases[2].test_id(), "pkg/mixed.test.ts > suite > alpha");
        }
        _ => panic!("expected cases"),
    }
    match stryker::bun::mutant_outcome(&output(Some(1), "", ""), &junit, None, None, &runner.path_prefix) {
        Ok(MutantRunOutcome::Killed { killed_by, tests_ran, .. }) => {
            assert_eq!(killed_by, vec!["pkg/fail.test.ts > boom"]);
            assert_eq!(tests_ran, 4);
        }
        other => panic!("{other:?}"),
    }
}

fn counters(pairs: &[(&str, u64)]) -> TextMap<u64> {
    let mut map = TextMap::new();
    for (key, hits) in pairs {
        map.insert(key.to_string(), *hits);
    }
    map
}

#[test]
fn ordinals_become_test_ids() {
    let cases: Vec<JunitCase> =
        parse_junit(SAMPLE).unwrap().into_iter().filter(|c| !c.skipped).collect();
    let mut per_test = TextMap::new();
    per_test.insert("2".to_string(), counters(&[("5", 3)]));
    let handoff = Handoff { ordinals: 4, per_test, static_hits: counters(&[("9", 1)]), hit_count: None };
    let coverage = rekey(&handoff, &cases);
    assert!(coverage.is_static(MutantId(9)));
    assert_eq!(coverage.total_hits(MutantId(5)), 3);
    let times = vec![0u64; cases.len()];
    let mismatched = Handoff { ordinals: 3, ..handoff };
    let result = stryker::bun::dry_run_result(&output(Some(0), "", ""), &cases, &times, &Some(mismatched), true);
    assert!(matches!(result, Err(BunError::OrdinalMismatch { counted: 3, shown: 4 })));
    let missing = stryker::bun::dry_run_result(&output(Some(0), "", ""), &cases, &times, &None, true);
    assert!(matches!(missing, Err(BunError::MissingHandoff)));
}

#[test]
fn bun_runs_are_judged_by_their_cases() {
    let failing: Vec<JunitCase> = parse_junit(SAMPLE).unwrap();
    match case_outcome(&output(Some(1), "", "trace"), &failing) {
        MutantRunOutcome::Killed { killed_by, .. } => {
            assert_eq!(killed_by, vec!["fail.test.ts > boom"])
        }
        other => panic!("{other:?}"),
    }
    assert!(matches!(
        stryker::bun::mutant_outcome(&output(Some(0), "", ""), &None, Some(11), Some(10), ""),
        Ok(MutantRunOutcome::Timeout { reason: Some(ref r) }) if r == "Hit limit reached (11/10)"
    ));
    assert!(matches!(
        stryker::bun::mutant_outcome(&output(Some(0), "", ""), &Some("<a".to_string()), None, None, ""),
        Err(BunError::UnreadableJunit(_))
    ));
    assert!(matches!(dry_run_start(&timed_out(), &None, ""), Ok(DryRunStart::Done(DryRunResult::Timeout))));
}

fn coverage(static_hits: &[(u32, u64)], tests: &[(&str, &[(u32, u64)])]) -> MutantCoverage {
    let mut c = MutantCoverage::new();
    for (id, hits) in static_hits {
        c.static_hits.insert(*id, *hits);
    }
    for (test, bucket) in tests {
        let map: HashMap<u32, u64> = bucket.iter().copied().collect();
        c.per_test.insert(test.to_string(), map);
    }
    c
}

#[test]
fn merging_adds_hits() {
    let a = coverage(&[(1, 2)], &[("t", &[(3, 4)])]);
    let b = coverage(&[(1, 5)], &[("t", &[(3, 1)]), ("u", &[(3, 7)])]);
    let merged = merge_coverage(a, &b).unwrap();
    assert_eq!(merged.total_hits(MutantId(1)), 7);
    assert_eq!(merged.total_hits(MutantId(3)), 12);
    assert_eq!(merged.covering_tests(MutantId(3)), vec!["t", "u"]);
    assert!(merged.is_static(MutantId(1)) && !merged.is_static(MutantId(3)));
    let full = coverage(&[(1, u64::MAX)], &[]);
    assert!(merge_coverage(full, &coverage(&[(1, 1)], &[])).is_none());
}

fn test_result(id: &str) -> TestResult {
    TestResult {
        id: id.to_string(),
        name: id.to_string(),
        file: None,
        time_bits: 0,
        failed: false,
        failure: None,
    }
}

#[test]
fn composite_routes_tests_to_their_owners() {
    let mut owner = shared_ownership();
    let run = CompositeDryRun::new();
    let first = DryRunResult::Complete { tests: vec![test_result("a > 1")], coverage: None, gross_ms: 5 };
    let run = match run.absorb(0, first, &mut owner) {
        DryRunStep::Going(run) => run,
        _ => panic!("expected to go on"),
    };
    let second = DryRunResult::Complete { tests: vec![test_result("b > 1")], coverage: None, gross_ms: 6 };
    let run = match run.absorb(1, second, &mut owner) {
        DryRunStep::Going(run) => run,
        _ => panic!("expected to go on"),
    };
    assert!(matches!(run.finish(), DryRunResult::Complete { gross_ms: 11, .. }));
    let filter = Some(vec!["a > 1".to_string(), "b > 1".to_string(), "c > 1".to_string()]);
    assert_eq!(stryker::composite::share(&filter, &owner, 0).unwrap(), vec!["a > 1"]);
    assert_eq!(stryker::composite::share(&filter, &owner, 1).unwrap(), vec!["b > 1"]);
    let none = stryker::composite::share(&Some(vec!["a > 1".to_string()]), &owner, 1);
    assert!(stryker::composite::is_idle(&none));
    assert!(!stryker::composite::is_idle(&None));
}

#[test]
fn composite_refuses_shared_tests() {
    let mut owner = shared_ownership();
    owner.claim(&vec![test_result("a > 1")], 0).unwrap();
    let overlap = owner.claim(&vec![test_result("a > 1")], 1).unwrap_err();
    assert_eq!(owner.owner_of("a > 1"), Some(1));
    assert_eq!(
        overlap.message(),
        "test id \"a > 1\" produced by two runners (0 and 1); scope each runner's test files so they don't overlap"
    );
    let failed = CompositeDryRun::new().absorb(1, DryRunResult::Error("x".to_string()), &mut owner);
    assert!(matches!(failed, DryRunStep::Done(DryRunResult::Error(ref m)) if m == "runner 1: x"));
}

#[test]
fn composite_survives_only_everywhere() {
    let run = match CompositeRun::new().absorb(MutantRunOutcome::Survived { tests_ran: 2 }) {
        RunStep::Going(run) => run,
        RunStep::Decided(_) => panic!("nothing decided yet"),
    };
    let run = match run.absorb(MutantRunOutcome::Timeout { reason: None }) {
        RunStep::Going(run) => run,
        RunStep::Decided(_) => panic!("nothing decided yet"),
    };
    let killed = MutantRunOutcome::Killed { killed_by: vec!["t".to_string()], tests_ran: 3, failure: None };
    match run.absorb(killed) {
        RunStep::Decided(MutantRunOutcome::Killed { tests_ran, .. }) => assert_eq!(tests_ran, 5),
        other => panic!("{other:?}"),
    }
    let run = match CompositeRun::new().absorb(MutantRunOutcome::Error("e".to_string())) {
        RunStep::Going(run) => run,
        RunStep::Decided(_) => panic!("nothing decided yet"),
    };
    assert!(matches!(run.finish(), MutantRunOutcome::Error(ref m) if m == "e"));
}

#[test]
fn vitest_prefixes_what_it_hands_out() {
    let runner = VitestRunner::new("packages/web".to_string());
    let tests = vec![ShimTest {
        id: "a.test.ts > x".to_string(),
        file: "a.test.ts".to_string(),
        time_bits: 0,
        state: "fail".to_string(),
        error: Some("boom".to_string()),
    }];
    let mut per_test = TextMap::new();
    per_test.insert("a.test.ts > x".to_string(), counters(&[("4", 2)]));
    let cover = ShimCoverage { static_hits: counters(&[("1", 1)]), per_test };
    let reply = Ok(ShimReply::DryRunResult { tests, coverage: Some(cover) });
    match runner.dry_run_result(reply, "", 8) {
        DryRunResult::Complete { tests, coverage, gross_ms } => {
            assert_eq!(tests[0].id, "packages/web/a.test.ts > x");
            assert_eq!(tests[0].file.as_deref(), Some("packages/web/a.test.ts"));
            assert!(tests[0].failed);
            assert_eq!(gross_ms, 8);
            let coverage = coverage.unwrap();
            assert_eq!(coverage.covering_tests(MutantId(4)), vec!["packages/web/a.test.ts > x"]);
            assert!(coverage.is_static(MutantId(1)));
        }
        _ => panic!("expected a complete run"),
    }
    let filter = runner.filter(&Some(vec!["packages/web/a.test.ts > x".to_string()])).unwrap();
    assert_eq!(filter, vec!["a.test.ts > x"]);
}

fn shim_outcome(status: &str) -> MutantRunOutcome {
    let runner = VitestRunner::new(String::new());
    runner.mutant_outcome(
        Ok(ShimReply::MutantRunResult {
            status: status.to_string(),
            killed_by: vec!["t".to_string()],
            tests_ran: 1,
            failure_message: None,
            reason: Some("slow".to_string()),
        }),
        "",
    )
}

#[test]
fn vitest_replies_are_judged() {
    assert!(matches!(shim_outcome("killed"), MutantRunOutcome::Killed { tests_ran: 1, .. }));
    assert!(matches!(shim_outcome("survived"), MutantRunOutcome::Survived { tests_ran: 1 }));
    assert!(matches!(shim_outcome("timeout"), MutantRunOutcome::Timeout { reason: Some(ref r) } if r == "slow"));
    assert!(matches!(shim_outcome("odd"), MutantRunOutcome::Error(ref m) if m == "unknown shim status \"odd\""));
    let runner = VitestRunner::new(String::new());
    assert!(matches!(
        runner.mutant_outcome(Err("vitest shim timed out".to_string()), ""),
        MutantRunOutcome::Timeout { reason: Some(ref r) } if r == "wall-clock timeout"
    ));
    assert!(matches!(runner.dry_run_result(Ok(ShimReply::Ready), "Ready", 0), DryRunResult::Error(ref m) if m == "unexpected shim reply: Ready"));
}

#[test]
fn shim_lines_are_awaited() {
    assert!(matches!(after_event(CallEvent::Line { text: "  ".to_string(), reply: None }), CallStep::Wait));
    assert!(matches!(after_event(CallEvent::Line { text: "log".to_string(), reply: None }), CallStep::Wait));
    let crash = ShimReply::Crash { error: "oops".to_string() };
    assert!(matches!(
        after_event(CallEvent::Line { text: "{}".to_string(), reply: Some(crash) }),
        CallStep::Fail(ref m) if m == "vitest shim crashed: oops"
    ));
    assert!(matches!(after_event(CallEvent::Closed), CallStep::Fail(ref m) if m == "vitest shim closed its stdout"));
    assert!(matches!(after_event(CallEvent::TimedOut), CallStep::Fail(ref m) if m == "vitest shim timed out"));
}

#[test]
fn the_shim_has_no_config_of_its_own() {
    assert!(stryker::vitest::shim_config_file(".stryker-tmp").is_none());
}
