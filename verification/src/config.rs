//! The configuration of a run, its defaults and what follows from it.
use vstd::prelude::*;

use crate::estree::json_keys;
use crate::mutate_pattern::MutatePattern;
use crate::mutate_pattern::MutatePatternError;
use crate::paths::extension;
use crate::paths::join_path;
use crate::text::concat2;
use crate::text::copy_text;
use crate::text::same;
use crate::text_order::sort_texts;
use crate::text_map::TextMap;

verus! {

/// What runs the tests.
#[derive(Debug, Clone, Copy, PartialEq, Eq, Structural)]
pub enum TestRunnerKind {
    Command,
    Bun,
    Vitest,
    /// bun + vitest for the same target (mixed-runtime repos); scope each
    /// runner's test files so they don't overlap.
    Composite,
}

/// How closely coverage is observed.
#[derive(Debug, Clone, Copy, PartialEq, Eq, Structural)]
pub enum CoverageAnalysis {
    Off,
    All,
    PerTest,
}

/// When the temporary directory is removed.
#[derive(Debug, Clone, Copy, PartialEq, Eq, Structural)]
pub enum CleanTempDir {
    Never,
    OnSuccess,
    Always,
}

impl CleanTempDir {
    /// A configured boolean: on success, or never.
    pub fn from_flag(flag: bool) -> (r: CleanTempDir)
        ensures
            r == (if flag {
                CleanTempDir::OnSuccess
            } else {
                CleanTempDir::Never
            }),
    {
        if flag {
            CleanTempDir::OnSuccess
        } else {
            CleanTempDir::Never
        }
    }

    /// A configured text: only `always` stands for anything.
    pub fn from_text(text: &str) -> (r: Result<CleanTempDir, String>)
        ensures
            match r {
                Ok(c) => text@ == "always"@ && c == CleanTempDir::Always,
                Err(message) => text@ != "always"@ && message@
                    == "cleanTempDir must be true, false or \"always\", got "@
                    + crate::text::quoted(text@),
            },
    {
        if same(text, "always") {
            Ok(CleanTempDir::Always)
        } else {
            Err(
                concat2(
                    "cleanTempDir must be true, false or \"always\", got ",
                    crate::text::quote(text).as_str(),
                ),
            )
        }
    }

    /// Whether the directory goes at the end of a run that came to its reports.
    pub fn removes(self) -> (r: bool)
        ensures
            r == !(self is Never),
    {
        !matches!(self, CleanTempDir::Never)
    }
}

/// The test command.
#[derive(Debug)]
pub struct CommandRunnerConfig {
    pub command: Option<String>,
    /// Force execution through `bash -c` (auto-detected for commands with
    /// shell syntax like `&&`).
    pub shell: bool,
}

/// How bun is run.
pub struct BunRunnerConfig {
    /// Extra args appended to `bun test` (e.g. more `--preload` entries).
    pub args: Vec<String>,
    /// Test file globs; defaults to bun's own discovery when empty.
    pub test_files: Vec<String>,
    /// Extra environment for every `bun test` invocation
    /// (e.g. RTL_SKIP_AUTO_CLEANUP for dom tests).
    pub env: TextMap<String>,
    /// Directory (relative to the project root) to run `bun test` from.
    /// Monorepo packages need their own bunfig.toml preloads; report paths
    /// and test ids stay project-root-relative.
    pub cwd: Option<String>,
}

/// How vitest is run.
#[derive(Debug)]
pub struct VitestRunnerConfig {
    pub config_file: Option<String>,
}

/// Which mutators are left out.
#[derive(Debug)]
pub struct MutatorConfig {
    pub excluded_mutations: Vec<String>,
}

/// Where a reporter writes.
#[derive(Debug)]
pub struct FileNameOpt {
    pub file_name: Option<String>,
}

impl Default for CommandRunnerConfig {
    fn default() -> (r: CommandRunnerConfig)
        ensures
            r.command is None,
            !r.shell,
    {
        CommandRunnerConfig { command: None, shell: false }
    }
}

impl Default for BunRunnerConfig {
    fn default() -> (r: BunRunnerConfig)
        ensures
            r.args@.len() == 0,
            r.test_files@.len() == 0,
            r.env@ == Map::<Seq<char>, String>::empty(),
            r.cwd is None,
    {
        BunRunnerConfig {
            args: Vec::new(),
            test_files: Vec::new(),
            env: TextMap::new(),
            cwd: None,
        }
    }
}

impl Default for VitestRunnerConfig {
    fn default() -> (r: VitestRunnerConfig)
        ensures
            r.config_file is None,
    {
        VitestRunnerConfig { config_file: None }
    }
}

impl Default for MutatorConfig {
    fn default() -> (r: MutatorConfig)
        ensures
            r.excluded_mutations@.len() == 0,
    {
        MutatorConfig { excluded_mutations: Vec::new() }
    }
}

impl Default for FileNameOpt {
    fn default() -> (r: FileNameOpt)
        ensures
            r.file_name is None,
    {
        FileNameOpt { file_name: None }
    }
}

/// The configuration of a run. The factor of the timeouts and the thresholds of
/// the score are fractions and stand beside it.
pub struct StrykerConfig {
    pub mutate: Vec<String>,
    pub test_runner: TestRunnerKind,
    pub command_runner: CommandRunnerConfig,
    pub bun_runner: BunRunnerConfig,
    pub vitest_runner: VitestRunnerConfig,
    /// None = pick a default per runner (perTest for bun/vitest, off for command).
    pub coverage_analysis: Option<CoverageAnalysis>,
    pub concurrency: Option<usize>,
    pub timeout_ms: u64,
    pub dry_run_timeout_minutes: u64,
    pub ignore_patterns: Vec<String>,
    pub in_place: bool,
    pub temp_dir_name: String,
    pub clean_temp_dir: CleanTempDir,
    pub reporters: Vec<String>,
    pub json_reporter: FileNameOpt,
    pub html_reporter: FileNameOpt,
    pub incremental: bool,
    pub incremental_file: Option<String>,
    pub force: bool,
    pub mutator: MutatorConfig,
    pub disable_type_checks: bool,
    pub dry_run_only: bool,
    pub allow_empty: bool,
    pub log_level: Option<String>,
}

/// The patterns that are mutated where the configuration names none.
pub open spec fn default_mutate() -> Seq<Seq<char>> {
    seq![
        "{src,lib}/**/*.{js,jsx,ts,tsx,mjs,mts,cjs,cts}"@,
        "!{src,lib}/**/*.d.{ts,mts,cts}"@,
    ]
}

/// The reporters that run where the configuration names none.
pub open spec fn default_reporters() -> Seq<Seq<char>> {
    seq!["clear-text"@, "progress"@, "html"@]
}

impl Default for StrykerConfig {
    fn default() -> (r: StrykerConfig)
        ensures
            crate::text::texts(r.mutate@) == default_mutate(),
            r.test_runner == TestRunnerKind::Command,
            r.command_runner.command is None && !r.command_runner.shell,
            r.bun_runner.args@.len() == 0 && r.bun_runner.test_files@.len() == 0
                && r.bun_runner.env@ == Map::<Seq<char>, String>::empty() && r.bun_runner.cwd is None,
            r.vitest_runner.config_file is None,
            r.coverage_analysis is None,
            r.concurrency is None,
            r.timeout_ms == 5000,
            r.dry_run_timeout_minutes == 5,
            r.ignore_patterns@.len() == 0,
            !r.in_place,
            r.temp_dir_name@ == ".stryker-tmp"@,
            r.clean_temp_dir == CleanTempDir::OnSuccess,
            crate::text::texts(r.reporters@) == default_reporters(),
            r.json_reporter.file_name is None,
            r.html_reporter.file_name is None,
            !r.incremental,
            r.incremental_file is None,
            !r.force,
            r.mutator.excluded_mutations@.len() == 0,
            r.disable_type_checks,
            !r.dry_run_only,
            !r.allow_empty,
            r.log_level is None,
    {
        let mut mutate: Vec<String> = Vec::new();
        mutate.push(copy_text("{src,lib}/**/*.{js,jsx,ts,tsx,mjs,mts,cjs,cts}"));
        mutate.push(copy_text("!{src,lib}/**/*.d.{ts,mts,cts}"));
        let mut reporters: Vec<String> = Vec::new();
        reporters.push(copy_text("clear-text"));
        reporters.push(copy_text("progress"));
        reporters.push(copy_text("html"));
        proof {
            assert(crate::text::texts(mutate@) =~= default_mutate());
            assert(crate::text::texts(reporters@) =~= default_reporters());
        }
        StrykerConfig {
            mutate,
            test_runner: TestRunnerKind::Command,
            command_runner: CommandRunnerConfig::default(),
            bun_runner: BunRunnerConfig::default(),
            vitest_runner: VitestRunnerConfig::default(),
            coverage_analysis: None,
            concurrency: None,
            timeout_ms: 5000,
            dry_run_timeout_minutes: 5,
            ignore_patterns: Vec::new(),
            in_place: false,
            temp_dir_name: copy_text(".stryker-tmp"),
            clean_temp_dir: CleanTempDir::OnSuccess,
            reporters,
            json_reporter: FileNameOpt::default(),
            html_reporter: FileNameOpt::default(),
            incremental: false,
            incremental_file: None,
            force: false,
            mutator: MutatorConfig::default(),
            disable_type_checks: true,
            dry_run_only: false,
            allow_empty: false,
            log_level: None,
        }
    }
}

/// An entry of `mutate` that is no pattern.
#[derive(Debug)]
pub struct BadPattern {
    pub entry: String,
    pub cause: MutatePatternError,
}

/// The first entry of a list that is no pattern.
pub open spec fn first_bad(entries: Seq<Seq<char>>) -> Option<int>
    decreases entries.len(),
{
    if entries.len() == 0 {
        None
    } else {
        match first_bad(entries.drop_last()) {
            Some(i) => Some(i),
            None => if crate::mutate_pattern::parsed_pattern(entries.last()) is Err {
                Some(entries.len() - 1)
            } else {
                None
            },
        }
    }
}

/// The values of a list of patterns.
pub open spec fn pattern_views(v: Seq<MutatePattern>) -> Seq<
    crate::mutate_pattern::MutatePatternView,
> {
    v.map_values(|p: MutatePattern| p@)
}

/// The patterns of a list of entries.
pub open spec fn patterns_of(entries: Seq<Seq<char>>) -> Seq<
    crate::mutate_pattern::MutatePatternView,
> {
    entries.map_values(
        |e: Seq<char>| crate::mutate_pattern::parsed_pattern(e)->Ok_0,
    )
}

proof fn lemma_first_bad(entries: Seq<Seq<char>>, i: int)
    requires
        0 <= i < entries.len(),
        first_bad(entries.take(i)) is None,
        crate::mutate_pattern::parsed_pattern(entries[i]) is Err,
    ensures
        first_bad(entries) == Some(i),
{
    let upto = entries.take(i + 1);
    assert(upto.drop_last() =~= entries.take(i));
    assert(upto.last() == entries[i]);
    lemma_bad_stays(entries, i, i + 1);
}

proof fn lemma_bad_stays(entries: Seq<Seq<char>>, i: int, n: int)
    requires
        0 <= n <= entries.len(),
        first_bad(entries.take(n)) == Some(i),
    ensures
        first_bad(entries) == Some(i),
    decreases entries.len() - n,
{
    if n == entries.len() {
        assert(entries.take(n) =~= entries);
    } else {
        assert(entries.take(n + 1).drop_last() =~= entries.take(n));
        lemma_bad_stays(entries, i, n + 1);
    }
}

/// Where the incremental report stands if the configuration does not say.
pub const INCREMENTAL_FILE: &'static str = "reports/stryker-incremental.json";

impl StrykerConfig {
    /// How closely coverage is observed.
    pub open spec fn coverage(self) -> CoverageAnalysis {
        match self.test_runner {
            TestRunnerKind::Command => CoverageAnalysis::Off,
            _ => match self.coverage_analysis {
                Some(mode) => mode,
                None => CoverageAnalysis::PerTest,
            },
        }
    }

    /// Effective coverage analysis: the command runner cannot observe per-test
    /// coverage, so it is always `off` there.
    pub fn effective_coverage(&self) -> (r: CoverageAnalysis)
        ensures
            r == self.coverage(),
    {
        match self.test_runner {
            TestRunnerKind::Command => CoverageAnalysis::Off,
            TestRunnerKind::Bun | TestRunnerKind::Vitest | TestRunnerKind::Composite => {
                match self.coverage_analysis {
                    Some(mode) => mode,
                    None => CoverageAnalysis::PerTest,
                }
            },
        }
    }

    /// How many workers run: what is configured, else `n` of the machine's
    /// processors on small machines, `n - 1` above 4; 4 where their number is
    /// unknown.
    pub fn effective_concurrency(&self, processors: Option<usize>) -> (r: usize)
        ensures
            match (self.concurrency, processors) {
                (Some(n), _) => r == n,
                (None, Some(n)) => r == (if n > 4 {
                    n - 1
                } else {
                    n as int
                }),
                (None, None) => r == 4,
            },
    {
        match self.concurrency {
            Some(n) => n,
            None => match processors {
                Some(n) => if n > 4 {
                    n - 1
                } else {
                    n
                },
                None => 4,
            },
        }
    }

    /// Where the incremental report stands.
    pub fn effective_incremental_file(&self, project_root: &str) -> (r: String)
        ensures
            r@ == crate::paths::under(
                project_root@,
                match self.incremental_file {
                    Some(file) => file@,
                    None => INCREMENTAL_FILE@,
                },
            ),
    {
        match &self.incremental_file {
            Some(file) => join_path(project_root, file.as_str()),
            None => join_path(project_root, INCREMENTAL_FILE),
        }
    }

    /// The patterns of the files to mutate, or the first entry that is none.
    pub fn parsed_mutate(&self) -> (r: Result<Vec<MutatePattern>, BadPattern>)
        ensures
            match (r, first_bad(crate::text::texts(self.mutate@))) {
                (Ok(patterns), None) => pattern_views(patterns@) == patterns_of(
                    crate::text::texts(self.mutate@),
                ),
                (Err(bad), Some(i)) => 0 <= i < self.mutate@.len() && bad.entry@
                    == self.mutate@[i]@ && crate::mutate_pattern::parsed_pattern(bad.entry@) == Err::<
                    crate::mutate_pattern::MutatePatternView,
                    MutatePatternError,
                >(bad.cause),
                _ => false,
            },
    {
        let ghost all = crate::text::texts(self.mutate@);
        let mut out: Vec<MutatePattern> = Vec::new();
        let mut i: usize = 0;
        proof {
            assert(all.take(0) =~= Seq::<Seq<char>>::empty());
            assert(pattern_views(out@) =~= patterns_of(all).take(0));
        }
        while i < self.mutate.len()
            invariant
                i <= self.mutate@.len(),
                all == crate::text::texts(self.mutate@),
                first_bad(all.take(i as int)) is None,
                pattern_views(out@) == patterns_of(all).take(i as int),
            decreases self.mutate@.len() - i,
        {
            let entry = self.mutate[i].as_str();
            proof {
                assert(all[i as int] == entry@);
                assert(all.take(i + 1).drop_last() =~= all.take(i as int));
                assert(all.take(i + 1).last() == entry@);
            }
            match MutatePattern::parse(entry) {
                Ok(pattern) => {
                    let ghost before = out@;
                    out.push(pattern);
                    proof {
                        assert(pattern_views(out@) =~= pattern_views(before).push(pattern@));
                        assert(patterns_of(all).take(i + 1) =~= patterns_of(all).take(
                            i as int,
                        ).push(pattern@));
                    }
                },
                Err(cause) => {
                    proof {
                        lemma_first_bad(all, i as int);
                    }
                    return Err(BadPattern { entry: copy_text(entry), cause });
                },
            }
            i = i + 1;
        }
        proof {
            assert(all.take(self.mutate@.len() as int) =~= all);
            assert(patterns_of(all).take(self.mutate@.len() as int) =~= patterns_of(all));
        }
        Ok(out)
    }

    /// Whether a run ends after a successful dry run: asked for on the command
    /// line or in the configuration.
    pub fn stops_after_dry_run(&self, asked: bool) -> (r: bool)
        ensures
            r == (asked || self.dry_run_only),
    {
        asked || self.dry_run_only
    }

    /// Whether the previous report is read.
    pub fn reads_old_report(&self, exists: bool) -> (r: bool)
        ensures
            r == (self.incremental && !self.force && exists),
    {
        self.incremental && !self.force && exists
    }
}

// ---- files ----

/// The names of configuration files, in the order in which they are looked for.
pub open spec fn config_names() -> Seq<Seq<char>> {
    seq![
        "stryker.config.json"@,
        "stryker.config.jsonc"@,
        "stryker.conf.json"@,
        "stryker.config.mjs"@,
        "stryker.config.js"@,
        "stryker.conf.mjs"@,
        "stryker.conf.js"@,
    ]
}

/// The configuration files of a directory, in the order in which they are
/// looked for: the first that exists is taken.
pub fn discover_config(dir: &str) -> (r: Vec<String>)
    ensures
        crate::text::texts(r@) == config_names().map_values(
            |name: Seq<char>| crate::paths::under(dir@, name),
        ),
{
    let mut out: Vec<String> = Vec::new();
    out.push(join_path(dir, "stryker.config.json"));
    out.push(join_path(dir, "stryker.config.jsonc"));
    out.push(join_path(dir, "stryker.conf.json"));
    out.push(join_path(dir, "stryker.config.mjs"));
    out.push(join_path(dir, "stryker.config.js"));
    out.push(join_path(dir, "stryker.conf.mjs"));
    out.push(join_path(dir, "stryker.conf.js"));
    proof {
        assert(crate::text::texts(out@) =~= config_names().map_values(
            |name: Seq<char>| crate::paths::under(dir@, name),
        ));
    }
    out
}

/// How a configuration file is read.
#[derive(Debug, Clone, Copy, PartialEq, Eq, Structural)]
pub enum ConfigFormat {
    /// JSON with comments.
    Json,
    /// A module that `bun` or `node` evaluates.
    Script,
    /// Nothing known.
    Unsupported,
}

/// How a file with an extension is read.
pub open spec fn format_of(extension: Option<Seq<char>>) -> ConfigFormat {
    match extension {
        Some(e) => if e == "json"@ || e == "jsonc"@ {
            ConfigFormat::Json
        } else if e == "mjs"@ || e == "js"@ || e == "cjs"@ {
            ConfigFormat::Script
        } else {
            ConfigFormat::Unsupported
        },
        None => ConfigFormat::Unsupported,
    }
}

/// How a configuration file is read.
pub fn config_format(path: &str) -> (r: ConfigFormat)
    ensures
        r == format_of(crate::paths::suffix_of(path@)),
{
    match extension(path) {
        Some(e) => if same(e.as_str(), "json") || same(e.as_str(), "jsonc") {
            ConfigFormat::Json
        } else if same(e.as_str(), "mjs") || same(e.as_str(), "js") || same(e.as_str(), "cjs") {
            ConfigFormat::Script
        } else {
            ConfigFormat::Unsupported
        },
        None => ConfigFormat::Unsupported,
    }
}

/// The value of a text in JSON with comments, or why it has none.
pub uninterp spec fn jsonc_of(text: Seq<char>) -> Result<crate::estree::Tree, Seq<char>>;

/// `parse_to_serde_value` of `jsonc_parser` with its default options: value and
/// error depend on the text alone.
#[verifier::external_body]
fn jsonc_read(text: &str) -> (r: Result<serde_json::Value, String>)
    ensures
        match r {
            Ok(value) => jsonc_of(text@) == Ok::<crate::estree::Tree, Seq<char>>(
                crate::estree::json_tree(value),
            ),
            Err(message) => jsonc_of(text@) == Err::<crate::estree::Tree, Seq<char>>(message@),
        },
{
    let options = jsonc_parser::ParseOptions::default();
    jsonc_parser::parse_to_serde_value::<serde_json::Value>(text, &options).map_err(
        |e| e.to_string(),
    )
}

/// The value of a configuration file in JSON with comments.
pub fn parse_config_text(text: &str) -> (r: Result<serde_json::Value, String>)
    ensures
        match r {
            Ok(value) => jsonc_of(text@) == Ok::<crate::estree::Tree, Seq<char>>(
                crate::estree::json_tree(value),
            ),
            Err(message) => jsonc_of(text@) == Err::<crate::estree::Tree, Seq<char>>(message@),
        },
{
    jsonc_read(text)
}

// ---- keys ----

/// The keys of a configuration that mean something.
pub open spec fn used_keys() -> Seq<Seq<char>> {
    seq![
        "mutate"@,
        "testRunner"@,
        "commandRunner"@,
        "bunRunner"@,
        "vitestRunner"@,
        "coverageAnalysis"@,
        "concurrency"@,
        "timeoutMS"@,
        "timeoutFactor"@,
        "dryRunTimeoutMinutes"@,
        "ignorePatterns"@,
        "inPlace"@,
        "tempDirName"@,
        "cleanTempDir"@,
        "reporters"@,
        "jsonReporter"@,
        "htmlReporter"@,
        "thresholds"@,
        "incremental"@,
        "incrementalFile"@,
        "force"@,
        "mutator"@,
        "disableTypeChecks"@,
        "dryRunOnly"@,
        "allowEmpty"@,
        "logLevel"@,
    ]
}

/// The keys that are accepted and mean nothing here.
pub open spec fn spare_keys() -> Seq<Seq<char>> {
    seq![
        "$schema"@,
        "packageManager"@,
        "plugins"@,
        "appendPlugins"@,
        "checkers"@,
        "warnings"@,
        "allowConsoleColors"@,
        "symlinkNodeModules"@,
        "buildCommand"@,
        "maxTestRunnerReuse"@,
        "disableBail"@,
        "testRunnerNodeArgs"@,
        "checkerNodeArgs"@,
        "tsconfigFile"@,
        "ignoreStatic"@,
        "ignorers"@,
        "testFiles"@,
        "dashboard"@,
        "clearTextReporter"@,
        "eventReporter"@,
        "fileLogLevel"@,
        "inspect"@,
    ]
}

/// Whether a key is accepted.
pub open spec fn known_key(key: Seq<char>) -> bool {
    used_keys().contains(key) || spare_keys().contains(key)
}

fn is_used(key: &str) -> (r: bool)
    ensures
        r == used_keys().contains(key@),
{
    let mut list: Vec<&'static str> = Vec::new();
    list.push("mutate");
    list.push("testRunner");
    list.push("commandRunner");
    list.push("bunRunner");
    list.push("vitestRunner");
    list.push("coverageAnalysis");
    list.push("concurrency");
    list.push("timeoutMS");
    list.push("timeoutFactor");
    list.push("dryRunTimeoutMinutes");
    list.push("ignorePatterns");
    list.push("inPlace");
    list.push("tempDirName");
    list.push("cleanTempDir");
    list.push("reporters");
    list.push("jsonReporter");
    list.push("htmlReporter");
    list.push("thresholds");
    list.push("incremental");
    list.push("incrementalFile");
    list.push("force");
    list.push("mutator");
    list.push("disableTypeChecks");
    list.push("dryRunOnly");
    list.push("allowEmpty");
    list.push("logLevel");
    proof {
        assert(crate::walk::names(list@) =~= used_keys());
    }
    name_listed(&list, key)
}

fn is_spare(key: &str) -> (r: bool)
    ensures
        r == spare_keys().contains(key@),
{
    let mut list: Vec<&'static str> = Vec::new();
    list.push("$schema");
    list.push("packageManager");
    list.push("plugins");
    list.push("appendPlugins");
    list.push("checkers");
    list.push("warnings");
    list.push("allowConsoleColors");
    list.push("symlinkNodeModules");
    list.push("buildCommand");
    list.push("maxTestRunnerReuse");
    list.push("disableBail");
    list.push("testRunnerNodeArgs");
    list.push("checkerNodeArgs");
    list.push("tsconfigFile");
    list.push("ignoreStatic");
    list.push("ignorers");
    list.push("testFiles");
    list.push("dashboard");
    list.push("clearTextReporter");
    list.push("eventReporter");
    list.push("fileLogLevel");
    list.push("inspect");
    proof {
        assert(crate::walk::names(list@) =~= spare_keys());
    }
    name_listed(&list, key)
}

/// Whether a name stands in a list of names.
pub fn name_listed(list: &Vec<&'static str>, name: &str) -> (r: bool)
    ensures
        r == crate::walk::names(list@).contains(name@),
{
    let ghost all = crate::walk::names(list@);
    let mut i: usize = 0;
    while i < list.len()
        invariant
            i <= list@.len(),
            all == crate::walk::names(list@),
            forall|k: int| 0 <= k < i ==> #[trigger] all[k] != name@,
        decreases list@.len() - i,
    {
        proof {
            assert(all[i as int] == list@[i as int]@);
        }
        if same(list[i], name) {
            return true;
        }
        i = i + 1;
    }
    false
}

/// The keys of a list that are not accepted, in order.
pub open spec fn unknown_in(keys: Seq<Seq<char>>) -> Seq<Seq<char>>
    decreases keys.len(),
{
    if keys.len() == 0 {
        Seq::empty()
    } else if known_key(keys.last()) {
        unknown_in(keys.drop_last())
    } else {
        unknown_in(keys.drop_last()).push(keys.last())
    }
}

proof fn lemma_unknown_in(keys: Seq<Seq<char>>)
    requires
        keys.no_duplicates(),
    ensures
        unknown_in(keys).no_duplicates(),
        forall|k: Seq<char>| #[trigger]
            unknown_in(keys).contains(k) <==> keys.contains(k) && !known_key(k),
    decreases keys.len(),
{
    if keys.len() > 0 {
        let f = keys.drop_last();
        assert forall|i: int, j: int| 0 <= i < f.len() && 0 <= j < f.len() && i != j implies f[i]
            != f[j] by {
            assert(keys[i] != keys[j]);
        }
        lemma_unknown_in(f);
        let front = unknown_in(f);
        let all = unknown_in(keys);
        assert forall|k: Seq<char>| #[trigger] all.contains(k) <==> keys.contains(k) && !known_key(
            k,
        ) by {
            if keys.contains(k) {
                let n = keys.index_of(k);
                if n < f.len() {
                    assert(f[n] == k);
                }
            }
            if f.contains(k) {
                let n = f.index_of(k);
                assert(keys[n] == k);
            }
            assert(keys[keys.len() - 1] == keys.last());
            if front.contains(k) {
                let n = front.index_of(k);
                assert(all[n] == k);
            }
            if all.contains(k) && !front.contains(k) {
                let n = all.index_of(k);
                if n < front.len() {
                    assert(front[n] == k);
                }
            }
            if all.len() > front.len() {
                assert(all[front.len() as int] == keys.last());
            }
        }
        if !known_key(keys.last()) && front.contains(keys.last()) {
            let n = f.index_of(keys.last());
            assert(keys[n] == keys[keys.len() - 1]);
        }
    }
}

/// The keys of a configuration that are not accepted, in ascending order, each
/// once; none where it is no object.
pub fn unknown_keys(value: &serde_json::Value) -> (r: Vec<String>)
    ensures
        crate::text_order::ascending(crate::text::texts(r@)),
        match crate::estree::json_tree(*value) {
            crate::estree::Tree::Object(m) => forall|k: Seq<char>| #[trigger]
                crate::text::texts(r@).contains(k) <==> m.dom().contains(k) && !known_key(k),
            _ => r@.len() == 0,
        },
{
    let keys = match json_keys(value) {
        Some(keys) => keys,
        None => {
            return Vec::new();
        },
    };
    let ghost all = crate::text::texts(keys@);
    let mut out: Vec<String> = Vec::new();
    let mut i: usize = 0;
    proof {
        assert(crate::text::texts(out@) =~= unknown_in(all.take(0)));
    }
    while i < keys.len()
        invariant
            i <= keys@.len(),
            all == crate::text::texts(keys@),
            crate::text::texts(out@) == unknown_in(all.take(i as int)),
        decreases keys@.len() - i,
    {
        let key = keys[i].as_str();
        proof {
            assert(all.take(i + 1).drop_last() =~= all.take(i as int));
            assert(all.take(i + 1).last() == key@);
        }
        if !is_used(key) && !is_spare(key) {
            let copy = copy_text(key);
            proof {
                crate::text::lemma_texts_push(out@, copy);
            }
            out.push(copy);
        }
        i = i + 1;
    }
    proof {
        assert(all.take(keys@.len() as int) =~= all);
        lemma_unknown_in(all);
        assert forall|k: Seq<char>| #[trigger] unknown_in(all).contains(k) implies all.to_set().contains(
            k,
        ) by {
            assert(all.contains(k));
        }
        assert forall|k: Seq<char>| #[trigger] all.to_set().contains(k) implies all.contains(k) by {}
        crate::text_order::law_sorted_set(crate::text::texts(out@));
    }
    sort_texts(&out)
}

// ---- what a configuration means ----

/// Just these keys are known.
pub proof fn law_known_keys(key: Seq<char>)
    ensures
        known_key(key) <==> {
            ||| key == "mutate"@
            ||| key == "testRunner"@
            ||| key == "commandRunner"@
            ||| key == "bunRunner"@
            ||| key == "vitestRunner"@
            ||| key == "coverageAnalysis"@
            ||| key == "concurrency"@
            ||| key == "timeoutMS"@
            ||| key == "timeoutFactor"@
            ||| key == "dryRunTimeoutMinutes"@
            ||| key == "ignorePatterns"@
            ||| key == "inPlace"@
            ||| key == "tempDirName"@
            ||| key == "cleanTempDir"@
            ||| key == "reporters"@
            ||| key == "jsonReporter"@
            ||| key == "htmlReporter"@
            ||| key == "thresholds"@
            ||| key == "incremental"@
            ||| key == "incrementalFile"@
            ||| key == "force"@
            ||| key == "mutator"@
            ||| key == "disableTypeChecks"@
            ||| key == "dryRunOnly"@
            ||| key == "allowEmpty"@
            ||| key == "logLevel"@
            ||| key == "$schema"@
            ||| key == "packageManager"@
            ||| key == "plugins"@
            ||| key == "appendPlugins"@
            ||| key == "checkers"@
            ||| key == "warnings"@
            ||| key == "allowConsoleColors"@
            ||| key == "symlinkNodeModules"@
            ||| key == "buildCommand"@
            ||| key == "maxTestRunnerReuse"@
            ||| key == "disableBail"@
            ||| key == "testRunnerNodeArgs"@
            ||| key == "checkerNodeArgs"@
            ||| key == "tsconfigFile"@
            ||| key == "ignoreStatic"@
            ||| key == "ignorers"@
            ||| key == "testFiles"@
            ||| key == "dashboard"@
            ||| key == "clearTextReporter"@
            ||| key == "eventReporter"@
            ||| key == "fileLogLevel"@
            ||| key == "inspect"@
        },
{
    assert(used_keys()[0] == "mutate"@);
    assert(used_keys()[1] == "testRunner"@);
    assert(used_keys()[2] == "commandRunner"@);
    assert(used_keys()[3] == "bunRunner"@);
    assert(used_keys()[4] == "vitestRunner"@);
    assert(used_keys()[5] == "coverageAnalysis"@);
    assert(used_keys()[6] == "concurrency"@);
    assert(used_keys()[7] == "timeoutMS"@);
    assert(used_keys()[8] == "timeoutFactor"@);
    assert(used_keys()[9] == "dryRunTimeoutMinutes"@);
    assert(used_keys()[10] == "ignorePatterns"@);
    assert(used_keys()[11] == "inPlace"@);
    assert(used_keys()[12] == "tempDirName"@);
    assert(used_keys()[13] == "cleanTempDir"@);
    assert(used_keys()[14] == "reporters"@);
    assert(used_keys()[15] == "jsonReporter"@);
    assert(used_keys()[16] == "htmlReporter"@);
    assert(used_keys()[17] == "thresholds"@);
    assert(used_keys()[18] == "incremental"@);
    assert(used_keys()[19] == "incrementalFile"@);
    assert(used_keys()[20] == "force"@);
    assert(used_keys()[21] == "mutator"@);
    assert(used_keys()[22] == "disableTypeChecks"@);
    assert(used_keys()[23] == "dryRunOnly"@);
    assert(used_keys()[24] == "allowEmpty"@);
    assert(used_keys()[25] == "logLevel"@);
    assert(spare_keys()[0] == "$schema"@);
    assert(spare_keys()[1] == "packageManager"@);
    assert(spare_keys()[2] == "plugins"@);
    assert(spare_keys()[3] == "appendPlugins"@);
    assert(spare_keys()[4] == "checkers"@);
    assert(spare_keys()[5] == "warnings"@);
    assert(spare_keys()[6] == "allowConsoleColors"@);
    assert(spare_keys()[7] == "symlinkNodeModules"@);
    assert(spare_keys()[8] == "buildCommand"@);
    assert(spare_keys()[9] == "maxTestRunnerReuse"@);
    assert(spare_keys()[10] == "disableBail"@);
    assert(spare_keys()[11] == "testRunnerNodeArgs"@);
    assert(spare_keys()[12] == "checkerNodeArgs"@);
    assert(spare_keys()[13] == "tsconfigFile"@);
    assert(spare_keys()[14] == "ignoreStatic"@);
    assert(spare_keys()[15] == "ignorers"@);
    assert(spare_keys()[16] == "testFiles"@);
    assert(spare_keys()[17] == "dashboard"@);
    assert(spare_keys()[18] == "clearTextReporter"@);
    assert(spare_keys()[19] == "eventReporter"@);
    assert(spare_keys()[20] == "fileLogLevel"@);
    assert(spare_keys()[21] == "inspect"@);
    assert(used_keys().len() == 26);
    assert(spare_keys().len() == 22);
    if used_keys().contains(key) {
        let i = used_keys().index_of(key);
        assert(used_keys()[i] == key);
    }
    if spare_keys().contains(key) {
        let i = spare_keys().index_of(key);
        assert(spare_keys()[i] == key);
    }
}

/// The keys that are complained of are those that are not known, in order.
pub proof fn law_unknown_keys_are_listed(keys: Seq<Seq<char>>)
    ensures
        unknown_in(keys) == keys.filter(|k: Seq<char>| !known_key(k)),
    decreases keys.len(),
{
    reveal(Seq::filter);
    if keys.len() > 0 {
        law_unknown_keys_are_listed(keys.drop_last());
    }
}

/// The first entry of `mutate` that is no pattern is named, and without one all of
/// them are patterns.
pub proof fn law_first_bad_entry_is_named(entries: Seq<Seq<char>>)
    ensures
        match first_bad(entries) {
            Some(i) => 0 <= i < entries.len() && crate::mutate_pattern::parsed_pattern(
                entries[i],
            ) is Err && forall|j: int|
                0 <= j < i ==> crate::mutate_pattern::parsed_pattern(#[trigger] entries[j]) is Ok,
            None => forall|j: int|
                0 <= j < entries.len() ==> crate::mutate_pattern::parsed_pattern(
                    #[trigger] entries[j],
                ) is Ok,
        },
    decreases entries.len(),
{
    if entries.len() > 0 {
        let front = entries.drop_last();
        law_first_bad_entry_is_named(front);
        assert forall|j: int| 0 <= j < front.len() implies #[trigger] entries[j] == front[j] by {}
        assert(entries[entries.len() - 1] == entries.last());
    }
}

/// A run with the command runner observes no coverage, whatever is configured, and
/// any other one observes each test where nothing is.
pub proof fn law_coverage_by_runner(config: StrykerConfig)
    ensures
        config.test_runner == TestRunnerKind::Command ==> config.coverage() == CoverageAnalysis::Off,
        config.test_runner != TestRunnerKind::Command && config.coverage_analysis is None
            ==> config.coverage() == CoverageAnalysis::PerTest,
        config.test_runner != TestRunnerKind::Command ==> (config.coverage_analysis matches Some(
            mode,
        ) ==> config.coverage() == mode),
{
}

/// A configuration file is read by its extension.
pub proof fn law_formats(e: Seq<char>)
    ensures
        format_of(Some(e)) == ConfigFormat::Json <==> e == "json"@ || e == "jsonc"@,
        format_of(Some(e)) == ConfigFormat::Script <==> e == "mjs"@ || e == "js"@ || e == "cjs"@,
        format_of(None) == ConfigFormat::Unsupported,
{
    reveal_strlit("json");
    reveal_strlit("jsonc");
    reveal_strlit("mjs");
    reveal_strlit("js");
    reveal_strlit("cjs");
    assert("json"@.len() == 4);
    assert("jsonc"@.len() == 5);
    assert("mjs"@.len() == 3 && "mjs"@[0] == 'm');
    assert("js"@.len() == 2);
    assert("cjs"@.len() == 3 && "cjs"@[0] == 'c');
}

/// Where nothing is configured, the sources are mutated but for declarations, and
/// a file of JSON is looked for before a script.
pub proof fn law_defaults()
    ensures
        default_mutate() == seq![
            "{src,lib}/**/*.{js,jsx,ts,tsx,mjs,mts,cjs,cts}"@,
            "!{src,lib}/**/*.d.{ts,mts,cts}"@,
        ],
        default_reporters() == seq!["clear-text"@, "progress"@, "html"@],
        config_names() == seq![
            "stryker.config.json"@,
            "stryker.config.jsonc"@,
            "stryker.conf.json"@,
            "stryker.config.mjs"@,
            "stryker.config.js"@,
            "stryker.conf.mjs"@,
            "stryker.conf.js"@,
        ],
{
}

} // verus!
