use std::collections::BTreeMap;

use stryker::config::{StrykerConfig, TestRunnerKind};
use stryker::imports::{direct_relative_imports, resolve_relative_import};
use stryker::incremental::{
    hash_content, old_to_new_line_map, remap_span, reusable_results, IncrementalInput,
};
use stryker::model::{Location, Mutant, MutantId, MutantResult, MutantStatus, Position};
use stryker::reuse::{
    command_fingerprint, config_input_hashes, config_inputs, dependency_aware_test_hash,
    files_to_rehash, fingerprint_matches, order_dependencies, recorded_hashes, recorded_test_ids,
    try_full_reuse,
};
use stryker::sandbox::{
    dirty_files, find_instrumented_leftovers, restore_from_manifest, staging_path, InPlaceSandbox, Step,
};
use stryker::schema::{
    FileResult, MutantResultJson, MutationTestResult, SchemaThresholds, TestDefinition, TestFile,
    SCHEMA_VERSION,
};
use stryker::text_map::TextMap;

fn texts(list: &[&str]) -> Vec<String> {
    list.iter().map(|s| s.to_string()).collect()
}

fn text_map(pairs: &[(&str, &str)]) -> TextMap<String> {
    let mut map = TextMap::new();
    for (key, value) in pairs {
        map.insert(key.to_string(), value.to_string());
    }
    map
}

fn old_report(source: &str, mutants: Vec<MutantResultJson>) -> MutationTestResult {
    let mut files = TextMap::new();
    files.insert(
        "src/a.ts".to_string(),
        FileResult { language: "typescript".into(), source: source.into(), mutants },
    );
    MutationTestResult {
        schema_version: SCHEMA_VERSION.into(),
        thresholds: SchemaThresholds { high_bits: 80.0f64.to_bits(), low_bits: 60.0f64.to_bits() },
        project_root: None,
        files,
        test_files: None,
        framework: None,
        config: None,
        performance: None,
    }
}

fn old_mutant(line: u32, column: u32, status: MutantStatus, killed_by: Option<Vec<String>>) -> MutantResultJson {
    MutantResultJson {
        id: "old".into(),
        mutator_name: "EqualityOperator".into(),
        location: Location {
            start: Position { line, column },
            end: Position { line, column: column + 5 },
        },
        status,
        replacement: Some("a !== b".into()),
        covered_by: None,
        killed_by,
        description: None,
        duration: None,
        is_static: None,
        status_reason: None,
        tests_completed: Some(1),
    }
}

fn new_mutant(line: u32, column: u32) -> Mutant {
    Mutant {
        id: MutantId(7),
        file: "src/a.ts".to_string(),
        span: (0, 0),
        location: Location {
            start: Position { line, column },
            end: Position { line, column: column + 5 },
        },
        mutator_name: "EqualityOperator",
        replacement: "a !== b".into(),
        original: "a === b".into(),
        ignored: None,
    }
}

#[test]
fn reuses_killed_after_lines_inserted_above() {
    let old_source = "const x = a === b;\n";
    let new_source = "// new comment\nconst y = 1;\nconst x = a === b;\n";
    let killer = "src/a.test.ts > works".to_string();
    let report = old_report(
        old_source,
        vec![old_mutant(1, 11, MutantStatus::Killed, Some(vec![killer.clone()]))],
    );
    let sources = text_map(&[("src/a.ts", new_source)]);
    let hashes = text_map(&[("src/a.test.ts", "h1")]);

    let reused = reusable_results(&IncrementalInput {
        old_report: &report,
        mutants: &vec![new_mutant(3, 11)], // shifted down two lines
        sources: &sources,
        new_test_ids: &vec![killer],
        old_test_hashes: &hashes,
        new_test_hashes: &hashes,
        command_fingerprint_matches: None,
    });
    assert_eq!(reused.len(), 1);
    assert_eq!(reused[&7].status, MutantStatus::Killed);
}

#[test]
fn does_not_reuse_killed_when_killer_changed() {
    let source = "const x = a === b;\n";
    let killer = "src/a.test.ts > works".to_string();
    let report =
        old_report(source, vec![old_mutant(1, 11, MutantStatus::Killed, Some(vec![killer.clone()]))]);
    let sources = text_map(&[("src/a.ts", source)]);
    let old_hashes = text_map(&[("src/a.test.ts", "h1")]);
    let new_hashes = text_map(&[("src/a.test.ts", "h2")]);

    let reused = reusable_results(&IncrementalInput {
        old_report: &report,
        mutants: &vec![new_mutant(1, 11)],
        sources: &sources,
        new_test_ids: &vec![killer],
        old_test_hashes: &old_hashes,
        new_test_hashes: &new_hashes,
        command_fingerprint_matches: None,
    });
    assert!(reused.is_empty());
}

#[test]
fn survived_needs_fully_unchanged_tests() {
    let source = "const x = a === b;\n";
    let report = old_report(source, vec![old_mutant(1, 11, MutantStatus::Survived, None)]);
    let sources = text_map(&[("src/a.ts", source)]);
    let old_hashes = text_map(&[("src/a.test.ts", "h1")]);
    let mut new_hashes = text_map(&[("src/a.test.ts", "h1")]);

    let reused = reusable_results(&IncrementalInput {
        old_report: &report,
        mutants: &vec![new_mutant(1, 11)],
        sources: &sources,
        new_test_ids: &vec![],
        old_test_hashes: &old_hashes,
        new_test_hashes: &new_hashes,
        command_fingerprint_matches: None,
    });
    assert_eq!(reused[&7].status, MutantStatus::Survived);

    // A new test file anywhere invalidates survivors.
    new_hashes.insert("src/b.test.ts".to_string(), "h9".to_string());
    let reused = reusable_results(&IncrementalInput {
        old_report: &report,
        mutants: &vec![new_mutant(1, 11)],
        sources: &sources,
        new_test_ids: &vec![],
        old_test_hashes: &old_hashes,
        new_test_hashes: &new_hashes,
        command_fingerprint_matches: None,
    });
    assert!(reused.is_empty());
}

#[test]
fn a_new_test_file_keeps_only_what_has_a_killer() {
    let source = "const x = a === b;\nconst y = a === b;\n";
    let killed = old_mutant(1, 11, MutantStatus::Killed, Some(texts(&["src/a.test.ts > t"])));
    let report = old_report(source, vec![killed, old_mutant(2, 11, MutantStatus::Survived, None)]);
    let mut second = new_mutant(2, 11);
    second.id = MutantId(8);
    let mutants = vec![new_mutant(1, 11), second];
    let sources = text_map(&[("src/a.ts", source)]);
    let ids = texts(&["src/a.test.ts > t"]);
    let hashes = text_map(&[("src/a.test.ts", "h1")]);
    let more = text_map(&[("src/a.test.ts", "h1"), ("src/b.test.ts", "h2")]);
    let mut input = IncrementalInput {
        old_report: &report,
        mutants: &mutants,
        sources: &sources,
        new_test_ids: &ids,
        old_test_hashes: &hashes,
        new_test_hashes: &hashes,
        command_fingerprint_matches: None,
    };
    assert_eq!(reusable_results(&input).into_keys().collect::<Vec<_>>(), vec![7, 8]);
    input.new_test_hashes = &more;
    assert_eq!(reusable_results(&input).into_keys().collect::<Vec<_>>(), vec![7]);
}

#[test]
fn edited_mutated_line_is_not_reused() {
    let old_source = "const x = a === b;\n";
    let new_source = "const x = a === c;\n"; // the line itself changed
    let report = old_report(
        old_source,
        vec![old_mutant(1, 11, MutantStatus::Killed, Some(vec!["t > k".into()]))],
    );
    let sources = text_map(&[("src/a.ts", new_source)]);
    let hashes = text_map(&[("t", "h")]);

    let reused = reusable_results(&IncrementalInput {
        old_report: &report,
        mutants: &vec![new_mutant(1, 11)],
        sources: &sources,
        new_test_ids: &texts(&["t > k"]),
        old_test_hashes: &hashes,
        new_test_hashes: &hashes,
        command_fingerprint_matches: None,
    });
    assert!(reused.is_empty());
}

#[test]
fn columns_break_ties_and_nothing_is_claimed_twice() {
    let source = "x(a === b, a === b);\n";
    let mut first = old_mutant(1, 3, MutantStatus::Survived, None);
    first.status_reason = Some("first".to_string());
    let mut second = old_mutant(1, 12, MutantStatus::Timeout, None);
    second.status_reason = Some("second".to_string());
    let report = old_report(source, vec![first, second]);
    let sources = text_map(&[("src/a.ts", source)]);
    let hashes = text_map(&[("t", "h")]);
    let mut mutants = vec![new_mutant(1, 12), new_mutant(1, 40), new_mutant(1, 50)];
    for (i, m) in mutants.iter_mut().enumerate() {
        m.id = MutantId(i as u32);
    }
    let reused = reusable_results(&IncrementalInput {
        old_report: &report,
        mutants: &mutants,
        sources: &sources,
        new_test_ids: &vec![],
        old_test_hashes: &hashes,
        new_test_hashes: &hashes,
        command_fingerprint_matches: None,
    });
    assert_eq!(reused.len(), 2);
    assert_eq!(reused[&0].status_reason.as_deref(), Some("second"));
    assert_eq!(reused[&1].status_reason.as_deref(), Some("first"));
}

#[test]
fn interior_edits_make_a_span_stale() {
    let map = old_to_new_line_map("a\nb\nc\nd\n", "z\na\nb\nX\nd\n");
    let pairs: Vec<(u32, u32)> = map.iter().map(|(k, v)| (*k, *v)).collect();
    assert_eq!(pairs, vec![(1, 2), (2, 3), (4, 5)]);
    assert_eq!(remap_span(&map, 1, 2), Some(2));
    assert_eq!(remap_span(&map, 1, 3), None);
    assert_eq!(remap_span(&map, 4, 1), Some(5));
    let gap: BTreeMap<u32, u32> = [(1, 1), (2, 4)].into_iter().collect();
    assert_eq!(remap_span(&gap, 1, 2), None);
}

#[test]
fn hashes_are_sha256() {
    assert_eq!(
        hash_content("abc"),
        "ba7816bf8f01cfea414140de5dae2223b00361a396177a9cb410ff61f20015ad"
    );
}

// ---- imports ----

#[test]
fn extracts_relative_specifiers_only() {
    let source = r#"
import { a } from "./helper.ts";
import { b } from "../shared/util";
import { c } from "vitest";
export { d } from "./re-export";
export * from "../all";
const e = await import("./dynamic");
const f = require("./cjs");
"#;
    let specs = direct_relative_imports("src/a.test.ts", source);
    assert_eq!(
        specs,
        vec!["./helper.ts", "../shared/util", "./re-export", "../all", "./dynamic", "./cjs"]
    );
}

#[test]
fn imports_are_found_anywhere() {
    let source = "class A { @dec(require('./d')) m(x = require('./p')) { return () => import('./deep'); } }\nnot.require('./no'); require(`./no`); import('pkg');";
    assert_eq!(direct_relative_imports("a.ts", source), vec!["./d", "./p", "./deep"]);
    assert_eq!(direct_relative_imports("a.css", "import './x'"), Vec::<String>::new());
    let source = "class A { constructor(@D(require(\"./x\")) p, @E(require('./y')) private q) {} }";
    assert_eq!(direct_relative_imports("a.ts", source), vec!["./x", "./y"]);
}

#[test]
fn lone_surrogates_keep_their_digits() {
    let source = "import './a\\ud800b'; import './c';";
    assert_eq!(direct_relative_imports("a.ts", source), vec!["./a\u{fffd}d800b", "./c"]);
    let source = "import './\u{fffd}\\udc00'; import './\u{fffd}';";
    assert_eq!(
        direct_relative_imports("a.ts", source),
        vec!["./\u{fffd}fffd\u{fffd}dc00", "./\u{fffd}"]
    );
}

#[test]
fn resolves_with_extension_conventions() {
    let files = ["src/helper.ts", "src/shared/index.ts"];
    let resolve = |specifier: &str| {
        resolve_relative_import("src/a.test.ts", specifier).into_iter().find(|c| files.contains(&c.as_str()))
    };
    assert_eq!(resolve("./helper").unwrap(), "src/helper.ts");
    assert_eq!(resolve("./shared").unwrap(), "src/shared/index.ts");
    assert!(resolve("./missing").is_none());
    assert_eq!(resolve_relative_import("src/a.test.ts", "../x")[1], "x.ts");
    assert_eq!(resolve_relative_import("", "./x"), Vec::<String>::new());
}

// ---- reuse ----

fn bun_config() -> StrykerConfig {
    let mut config = StrykerConfig { test_runner: TestRunnerKind::Bun, ..StrykerConfig::default() };
    config.bun_runner.cwd = Some("pkg".to_string());
    config.bun_runner.args = texts(&["--preload", "././setup.ts", "--bail", "--preload"]);
    config
}

#[test]
fn inputs_of_a_run_are_hashed() {
    let paths = config_inputs(&bun_config());
    assert_eq!(
        paths,
        vec!["bunfig.toml", "bun.lock", "bun.lockb", "package.json", "pkg/bunfig.toml", "pkg/package.json", "pkg/setup.ts"]
    );
    assert_eq!(config_inputs(&StrykerConfig::default()).len(), 4);
    let hashes = config_input_hashes(&texts(&["a", "b"]), &vec![None, Some("abc".to_string())]);
    assert_eq!(hashes.len(), 1);
    assert_eq!(hashes.get("config:b").unwrap(), &hash_content("abc"));
}

#[test]
fn test_hashes_use_pristine_sources() {
    let imports = order_dependencies(&texts(&["src/b.ts", "src/a.ts", "src/b.ts"]));
    assert_eq!(imports, vec!["src/a.ts", "src/b.ts"]);
    let pristine = text_map(&[("src/a.ts", "clean")]);
    let disk = vec![Some("instrumented".to_string()), Some("helper".to_string())];
    let hash = dependency_aware_test_hash("test", &imports, &disk, &pristine);
    assert_eq!(hash, hash_content("test\0src/a.ts\0clean\0src/b.ts\0helper"));
    let other = vec![None, Some("helper".to_string())];
    assert_eq!(hash, dependency_aware_test_hash("test", &imports, &other, &pristine));
    let changed = vec![None, Some("changed".to_string())];
    assert_ne!(hash, dependency_aware_test_hash("test", &imports, &changed, &pristine));
    let gone = vec![None, None];
    assert_eq!(hash_content("test\0src/a.ts\0clean"), dependency_aware_test_hash("test", &imports, &gone, &pristine));
}

fn recording(config: &str) -> MutationTestResult {
    let mut report = old_report("", vec![]);
    report.config = Some(serde_json::from_str(config).unwrap());
    report
}

#[test]
fn reports_record_their_evidence() {
    let report = recording(r#"{"strykerRs":{"testCommandFingerprint":"f","testFileHashes":{"a.test.ts":"h"}}}"#);
    let hashes = recorded_hashes(&report).unwrap();
    assert_eq!(hashes.get("a.test.ts").unwrap(), "h");
    assert_eq!(fingerprint_matches(&report, &Some("f".to_string())), Some(true));
    assert_eq!(fingerprint_matches(&report, &Some("g".to_string())), Some(false));
    assert_eq!(fingerprint_matches(&report, &None), None);
    assert!(recorded_hashes(&recording(r#"{"strykerRs":{"testFileHashes":{"a":1}}}"#)).is_none());
    assert!(recorded_hashes(&recording("{}")).is_none());
    assert!(recorded_hashes(&old_report("", vec![])).is_none());
    let mut config = StrykerConfig::default();
    assert!(command_fingerprint(&config).is_none());
    config.command_runner.command = Some("abc".to_string());
    assert_eq!(command_fingerprint(&config).unwrap(), hash_content("abc"));
    config.test_runner = TestRunnerKind::Vitest;
    assert!(command_fingerprint(&config).is_none());
}

#[test]
fn rehashing_needs_evidence() {
    let hashes = text_map(&[("config:package.json", "h"), ("a.test.ts", "h")]);
    assert_eq!(files_to_rehash(&hashes, None).unwrap(), vec!["a.test.ts"]);
    assert!(files_to_rehash(&hashes, Some(false)).is_none());
    let inputs_only = text_map(&[("config:package.json", "h")]);
    assert!(files_to_rehash(&inputs_only, None).is_none());
    assert_eq!(files_to_rehash(&inputs_only, Some(true)).unwrap(), Vec::<String>::new());
}

#[test]
fn whole_runs_are_saved_only_completely() {
    let source = "const x = a === b;\n";
    let mut report = old_report(source, vec![old_mutant(1, 11, MutantStatus::Survived, None)]);
    let mut test_files = TextMap::new();
    let test = TestDefinition { id: "a.test.ts > x".to_string(), name: "x".to_string(), location: None };
    test_files.insert("a.test.ts".to_string(), TestFile { source: None, tests: vec![test] });
    report.test_files = Some(test_files);
    assert_eq!(recorded_test_ids(&report), vec!["a.test.ts > x"]);
    let sources = text_map(&[("src/a.ts", source)]);
    let hashes = text_map(&[("a.test.ts", "h")]);
    let mut ignored = new_mutant(1, 40);
    ignored.id = MutantId(8);
    ignored.mutator_name = "StringLiteral";
    ignored.ignored = Some("because".to_string());
    let mutants = vec![new_mutant(1, 11), ignored];
    let mut input = IncrementalInput {
        old_report: &report,
        mutants: &mutants,
        sources: &sources,
        new_test_ids: &vec![],
        old_test_hashes: &hashes,
        new_test_hashes: &hashes,
        command_fingerprint_matches: None,
    };
    let results: BTreeMap<u32, MutantResult> = try_full_reuse(&input).unwrap();
    assert_eq!(results[&7].status, MutantStatus::Survived);
    assert_eq!(results[&8].status, MutantStatus::Ignored);
    assert_eq!(results[&8].status_reason.as_deref(), Some("because"));
    let changed = text_map(&[("a.test.ts", "other")]);
    input.new_test_hashes = &changed;
    assert!(try_full_reuse(&input).is_none());
    let unknown = vec![new_mutant(1, 11), new_mutant(9, 1)];
    let mut again = unknown;
    again[1].id = MutantId(9);
    input.new_test_hashes = &hashes;
    input.mutants = &again;
    assert!(try_full_reuse(&input).is_none());
}

// ---- sandbox ----

type Disk = BTreeMap<String, String>;

fn carry_out(steps: &[Step], contents: &[String], disk: &mut Disk, limit: usize) {
    for step in steps.iter().take(limit) {
        match step {
            Step::CreateDir(_) => {}
            Step::Backup { from, to } => {
                let text = disk[from].clone();
                disk.insert(to.clone(), text);
            }
            Step::WriteManifest(path) => {
                disk.insert(path.clone(), "manifest".to_string());
            }
            Step::Replace { path, file } => {
                disk.insert(path.clone(), contents[*file].clone());
            }
        }
    }
}

#[test]
fn activate_and_restore_roundtrip() {
    let mut disk: Disk = [("/p/src/a.ts".to_string(), "original".to_string())].into_iter().collect();
    let (mut sandbox, steps) = InPlaceSandbox::activate("/p", "/p/.stryker-tmp", &texts(&["src/a.ts"]));
    carry_out(&steps, &texts(&["instrumented"]), &mut disk, steps.len());
    assert_eq!(disk["/p/src/a.ts"], "instrumented");
    let copies = sandbox.restore();
    for copy in &copies {
        let text = disk[&copy.from].clone();
        disk.insert(copy.to.clone(), text);
    }
    assert_eq!(disk["/p/src/a.ts"], "original");
    assert_eq!(
        sandbox.after_restore(&vec![Some("disk full".to_string())]),
        Err("failed to restore src/a.ts: disk full".to_string())
    );
    assert!(!sandbox.restored);
    assert_eq!(sandbox.after_restore(&vec![None]), Ok("/p/.stryker-tmp/backup-manifest".to_string()));
    assert!(sandbox.restored);
    assert!(sandbox.restore().is_empty());
}

/// Puts back what a manifest on the disk lists and removes it.
fn recover(disk: &mut Disk, listed: &TextMap<String>) -> usize {
    let path = "/p/.stryker-tmp/backup-manifest";
    let manifest = disk.remove(path).map(|_| {
        let mut copy = TextMap::new();
        for i in 0..listed.len() {
            copy.insert(listed.key_at(i).clone(), listed.value_at(i).clone());
        }
        copy
    });
    let copies = restore_from_manifest("/p", "/p/.stryker-tmp", &manifest);
    for copy in &copies {
        let text = disk[&copy.from].clone();
        disk.insert(copy.to.clone(), text);
    }
    copies.len()
}

#[test]
fn crash_recovery_via_manifest() {
    let mut disk: Disk = [("/p/src/a.ts".to_string(), "original".to_string())].into_iter().collect();
    let (sandbox, steps) = InPlaceSandbox::activate("/p", "/p/.stryker-tmp", &texts(&["src/a.ts"]));
    carry_out(&steps, &texts(&["instrumented"]), &mut disk, steps.len());
    assert_eq!(disk["/p/src/a.ts"], "instrumented");
    let restored = recover(&mut disk, &sandbox.manifest);
    assert_eq!(restored, 1);
    assert_eq!(disk["/p/src/a.ts"], "original");
    assert_eq!(recover(&mut disk, &sandbox.manifest), 0); // idempotent
    assert_eq!(disk["/p/src/a.ts"], "original");
}

#[test]
fn a_crash_between_replacements_is_recovered() {
    let mut disk: Disk = [("/p/src/a.ts".to_string(), "original".to_string()), ("/p/b.ts".to_string(), "other".to_string())]
        .into_iter()
        .collect();
    let (sandbox, steps) = InPlaceSandbox::activate("/p", "/p/.stryker-tmp", &texts(&["src/a.ts", "b.ts"]));
    assert!(matches!(&steps[3], Step::WriteManifest(path) if path == "/p/.stryker-tmp/backup-manifest"));
    carry_out(&steps, &texts(&["x", "y"]), &mut disk, 5);
    assert_eq!(disk["/p/src/a.ts"], "x");
    disk.insert("/p/b.ts".to_string(), "edited since".to_string());
    assert_eq!(recover(&mut disk, &sandbox.manifest), 2);
    assert_eq!(disk["/p/src/a.ts"], "original");
    assert_eq!(disk["/p/b.ts"], "other");
}

#[test]
fn failures_are_named_in_path_order() {
    let (mut sandbox, _) = InPlaceSandbox::activate("/p", "/t", &texts(&["a-b/x.ts", "a/y.ts"]));
    let files: Vec<String> = sandbox.restore().into_iter().map(|c| c.file).collect();
    assert_eq!(files, vec!["a/y.ts", "a-b/x.ts"]);
    let failed = vec![Some("one".to_string()), Some("two".to_string())];
    assert_eq!(sandbox.after_restore(&failed), Err("failed to restore a/y.ts: one".to_string()));
}

#[test]
fn new_contents_are_staged_beside_their_file() {
    assert_eq!(staging_path("/p/src/a.ts").unwrap(), "/p/src/.a.ts.stryker-tmp");
    assert_eq!(staging_path("a.ts").unwrap(), ".a.ts.stryker-tmp");
    assert!(staging_path("/").is_none());
}

#[test]
fn status_lines_name_dirty_files() {
    let status = " M src/a.ts\n?? new.ts\nA  b.ts\nxy\n";
    assert_eq!(dirty_files(status), vec!["src/a.ts", "b.ts"]);
}

#[test]
fn leftovers_carry_the_header() {
    let marked = format!("{} x", stryker::header::HEADER_MARKER);
    let left = find_instrumented_leftovers(
        &texts(&["a.ts", "b.ts", "c.ts"]),
        &vec![Some("clean".to_string()), Some(marked), None],
        stryker::header::HEADER_MARKER,
    );
    assert_eq!(left, vec!["b.ts"]);
    let other = find_instrumented_leftovers(&texts(&["a.ts"]), &vec![Some("clean".to_string())], "lea");
    assert_eq!(other, vec!["a.ts"]);
}
