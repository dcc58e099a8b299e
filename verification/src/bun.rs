//! Native bun:test runner: its command lines and what it makes of a run.
//!
//! bun has no programmatic API, so every dry run / mutant run is a fresh
//! `bun test` process.
//!
//! Per-test identity uses ordinal correlation: the preload counts executed
//! tests; the junit XML lists all testcases in document order with `<skipped>`
//! marking non-executed ones. The n-th executed testcase is ordinal n.
//! Coverage buckets keyed by ordinal are re-keyed to stable test ids.
use vstd::prelude::*;

use crate::coverage::add_counters;
use crate::coverage::static_coverage;
use crate::junit::keep_executed;
use crate::junit::list_failed;
use crate::junit::parse_junit;
use crate::junit::JunitCase;
use crate::model::MutantCoverage;
use crate::model::TestId;
use crate::paths::join_path;
use crate::process::show_exit;
use crate::process::RunOutput;
use crate::runners::close_prefix;
use crate::runners::mutant_env;
use crate::runners::relative_filter;
use crate::runners::Capabilities;
use crate::runners::DryRunResult;
use crate::runners::MutantRunOptions;
use crate::runners::MutantRunOutcome;
use crate::runners::TestResult;
use crate::source::Source;
use crate::text::chars_of;
use crate::text::concat2;
use crate::text::concat3;
use crate::text::copy_opt;
use crate::text::copy_text;
use crate::text::has_text;
use crate::text::join;
use crate::text::list_has;
use crate::text::number;
use crate::text::parse_number;
use crate::text::split_last;
use crate::text::split_once;
use crate::text_map::TextMap;
use crate::text_order::sort_texts;

verus! {

/// Keep `-t` regex alternations under this size; beyond it, filter by file
/// only (over-running tests is safe, under-running is not).
pub const MAX_NAME_PATTERN_BYTES: u32 = 6000;

/// What the preload hands over when all tests are done.
pub struct Handoff {
    pub ordinals: u32,
    /// ordinal -> mutantId -> hits.
    pub per_test: TextMap<TextMap<u64>>,
    /// mutantId -> hits.
    pub static_hits: TextMap<u64>,
    pub hit_count: Option<u64>,
}

/// Why a run could not be read.
#[derive(Debug)]
pub enum BunError {
    /// The junit report is no readable XML, and why.
    UnreadableJunit(String),
    /// The preload handed nothing over.
    MissingHandoff,
    /// The preload and the junit report count different executed tests.
    OrdinalMismatch { counted: u32, shown: usize },
}

/// The mathematical value of `BunError`.
pub enum BunErrorView {
    UnreadableJunit(Seq<char>),
    MissingHandoff,
    OrdinalMismatch { counted: u32, shown: usize },
}

impl BunError {
    pub open spec fn view(&self) -> BunErrorView {
        match *self {
            BunError::UnreadableJunit(fault) => BunErrorView::UnreadableJunit(fault@),
            BunError::MissingHandoff => BunErrorView::MissingHandoff,
            BunError::OrdinalMismatch { counted, shown } => BunErrorView::OrdinalMismatch {
                counted,
                shown,
            },
        }
    }

    /// The error in words.
    pub open spec fn words(self) -> Seq<char> {
        match self {
            BunError::UnreadableJunit(fault) => fault@,
            BunError::MissingHandoff => "coverage handoff file missing \u{2014} did another preload override afterAll?"@,
            BunError::OrdinalMismatch { counted, shown } => "ordinal mismatch: preload counted "@
                + crate::text::decimal(counted as nat) + " executed tests, junit shows "@
                + crate::text::decimal(shown as nat)
                + " \u{2014} is something running tests concurrently?"@,
        }
    }

    /// The error in words.
    pub fn message(&self) -> (r: String)
        ensures
            r@ == self.words(),
    {
        match self {
            BunError::UnreadableJunit(fault) => copy_text(fault.as_str()),
            BunError::MissingHandoff => copy_text(
                "coverage handoff file missing \u{2014} did another preload override afterAll?",
            ),
            BunError::OrdinalMismatch { counted, shown } => {
                let mut out = copy_text("ordinal mismatch: preload counted ");
                out.append(number(*counted as u64).as_str());
                out.append(" executed tests, junit shows ");
                out.append(number(*shown as u64).as_str());
                out.append(" \u{2014} is something running tests concurrently?");
                out
            },
        }
    }
}

// ---- command lines ----

/// The arguments of every `bun test`.
pub open spec fn base_args_of(
    preload: Seq<char>,
    junit_path: Seq<char>,
    extra_args: Seq<Seq<char>>,
) -> Seq<Seq<char>> {
    seq![
        "test"@,
        "--preload"@,
        preload,
        "--reporter=junit"@,
        "--reporter-outfile="@ + junit_path,
    ] + extra_args
}

/// The arguments of every `bun test`.
pub fn base_args(preload: &str, junit_path: &str, extra_args: &Vec<String>) -> (r: Vec<String>)
    ensures
        crate::text::texts(r@) == base_args_of(
            preload@,
            junit_path@,
            crate::text::texts(extra_args@),
        ),
{
    let mut out: Vec<String> = Vec::new();
    out.push(copy_text("test"));
    out.push(copy_text("--preload"));
    out.push(copy_text(preload));
    out.push(copy_text("--reporter=junit"));
    out.push(concat2("--reporter-outfile=", junit_path));
    let ghost before = out@;
    let mut more = crate::text::copy_texts(extra_args);
    let ghost extra = more@;
    out.append(&mut more);
    proof {
        assert(crate::text::texts(out@) =~= crate::text::texts(before) + crate::text::texts(extra));
        assert(crate::text::texts(out@) =~= base_args_of(
            preload@,
            junit_path@,
            crate::text::texts(extra_args@),
        ));
    }
    out
}

/// The environment of every `bun test`: where coverage goes, sequential
/// execution for the ordinals, and what the config adds.
pub open spec fn base_env_of(coverage_path: Seq<char>, extra: Seq<(Seq<char>, Seq<char>)>) -> Seq<
    (Seq<char>, Seq<char>),
> {
    seq![
        ("STRYKER_COVERAGE_FILE"@, coverage_path),
        ("BUN_TEST_NO_CONCURRENT"@, "1"@),
    ] + extra
}

/// The environment of every `bun test`.
pub fn base_env(coverage_path: &str, extra: &Vec<(String, String)>) -> (r: Vec<(String, String)>)
    ensures
        crate::runners::env_views(r@) == base_env_of(
            coverage_path@,
            crate::runners::env_views(extra@),
        ),
{
    let mut out: Vec<(String, String)> = Vec::new();
    out.push((copy_text("STRYKER_COVERAGE_FILE"), copy_text(coverage_path)));
    out.push((copy_text("BUN_TEST_NO_CONCURRENT"), copy_text("1")));
    let ghost all = base_env_of(coverage_path@, crate::runners::env_views(extra@));
    let mut i: usize = 0;
    proof {
        assert(crate::runners::env_views(out@) =~= all.take(2));
    }
    while i < extra.len()
        invariant
            i <= extra@.len(),
            all == base_env_of(coverage_path@, crate::runners::env_views(extra@)),
            crate::runners::env_views(out@) == all.take(i + 2),
        decreases extra@.len() - i,
    {
        let ghost before = out@;
        let pair = (copy_text(extra[i].0.as_str()), copy_text(extra[i].1.as_str()));
        out.push(pair);
        i = i + 1;
        proof {
            assert(crate::runners::env_views(out@) =~= crate::runners::env_views(before).push(
                (pair.0@, pair.1@),
            ));
            assert(crate::runners::env_views(out@) =~= all.take(i + 2));
        }
    }
    proof {
        assert(all.take(all.len() as int) =~= all);
    }
    out
}

/// The name of an artifact of one run of one worker.
pub open spec fn artifact_of(kind: Seq<char>, worker: nat, run: nat) -> Seq<char> {
    kind + "-w"@ + crate::text::decimal(worker) + "-"@ + crate::text::decimal(run) + ".tmp"@
}

/// The name of an artifact of one run of one worker.
pub fn artifact_name(kind: &str, worker: u64, run: u64) -> (r: String)
    ensures
        r@ == artifact_of(kind@, worker as nat, run as nat),
{
    let mut out = concat3(kind, "-w", number(worker).as_str());
    out.append("-");
    out.append(number(run).as_str());
    out.append(".tmp");
    out
}

/// The distinct file parts of `<file> > ... > <name>` test ids, in order of
/// their first occurrence.
pub open spec fn files_of(filter: Seq<Seq<char>>) -> Seq<Seq<char>>
    decreases filter.len(),
{
    if filter.len() == 0 {
        Seq::empty()
    } else {
        let front = files_of(filter.drop_last());
        match crate::text::cut_once(filter.last(), " > "@) {
            Some((file, _)) => if front.contains(file) {
                front
            } else {
                front.push(file)
            },
            None => front,
        }
    }
}

/// Distinct file parts of `<file> > ... > <name>` test ids, order-preserving.
pub fn covering_files(filter: &Vec<TestId>) -> (r: Vec<String>)
    ensures
        crate::text::texts(r@) == files_of(crate::text::texts(filter@)),
{
    let ghost all = crate::text::texts(filter@);
    let mut files: Vec<String> = Vec::new();
    let mut i: usize = 0;
    proof {
        assert(crate::text::texts(files@) =~= files_of(all.take(0)));
    }
    while i < filter.len()
        invariant
            i <= filter@.len(),
            all == crate::text::texts(filter@),
            crate::text::texts(files@) == files_of(all.take(i as int)),
        decreases filter@.len() - i,
    {
        proof {
            assert(all.take(i + 1).drop_last() =~= all.take(i as int));
            assert(all.take(i + 1).last() == filter@[i as int]@);
        }
        if let Some((file, _)) = split_once(filter[i].as_str(), " > ") {
            if !list_has(&files, file.as_str()) {
                proof {
                    crate::text::lemma_texts_push(files@, file);
                }
                files.push(file);
            }
        }
        i = i + 1;
    }
    proof {
        assert(all.take(filter@.len() as int) =~= all);
    }
    files
}

/// No file is listed twice, and every test id with a file part has its file
/// listed.
pub proof fn law_covering_files_cover(filter: Seq<Seq<char>>)
    ensures
        files_of(filter).no_duplicates(),
        forall|i: int|
            0 <= i < filter.len() ==> (crate::text::cut_once(#[trigger] filter[i], " > "@) matches Some(
                (file, rest),
            ) ==> files_of(filter).contains(file)),
    decreases filter.len(),
{
    if filter.len() > 0 {
        let f = filter.drop_last();
        law_covering_files_cover(f);
        let all = files_of(filter);
        let front = files_of(f);
        assert forall|i: int| 0 <= i < filter.len() implies (crate::text::cut_once(
            #[trigger] filter[i],
            " > "@,
        ) matches Some((file, rest)) ==> all.contains(file)) by {
            match crate::text::cut_once(filter[i], " > "@) {
                Some((file, rest)) => {
                    if i < f.len() {
                        assert(f[i] == filter[i]);
                        let k = front.index_of(file);
                        assert(front.contains(file));
                        assert(all[k] == file);
                    } else if front.contains(file) {
                    } else {
                        assert(all[all.len() - 1] == file);
                    }
                },
                None => {},
            }
        }
    }
}

/// What stands for a character in a regular expression.
pub open spec fn escaped_char(c: char) -> Seq<char> {
    if crate::text::is_word(c) || c == ' ' || c == '_' || c == '-' {
        seq![c]
    } else {
        seq!['\\', c]
    }
}

/// A text as a regular expression that matches it.
pub open spec fn escaped(name: Seq<char>) -> Seq<char>
    decreases name.len(),
{
    if name.len() == 0 {
        name
    } else {
        escaped(name.drop_last()) + escaped_char(name.last())
    }
}

/// A text as a regular expression that matches it.
pub fn escape_regex(name: &str) -> (r: String)
    ensures
        r@ == escaped(name@),
{
    let chars = chars_of(name);
    let mut out = String::new();
    let mut i: usize = 0;
    proof {
        assert(out@ =~= escaped(chars@.take(0)));
    }
    while i < chars.len()
        invariant
            i <= chars@.len(),
            out@ == escaped(chars@.take(i as int)),
        decreases chars@.len() - i,
    {
        let c = chars[i];
        proof {
            assert(chars@.take(i + 1).drop_last() =~= chars@.take(i as int));
            assert(chars@.take(i + 1).last() == c);
        }
        if !(c.is_alphanumeric() || c == ' ' || c == '_' || c == '-') {
            out.push('\\');
        }
        out.push(c);
        i = i + 1;
        proof {
            assert(out@ =~= escaped(chars@.take(i as int)));
        }
    }
    proof {
        assert(chars@.take(chars@.len() as int) =~= chars@);
    }
    out
}

/// The innermost name of a test id.
pub open spec fn leaf_of(id: Seq<char>) -> Seq<char> {
    match crate::text::cut_last(id, " > "@) {
        Some((_, name)) => name,
        None => id,
    }
}

/// The names that a name pattern is made of: the escaped leaf names.
pub open spec fn leaf_patterns(filter: Seq<Seq<char>>) -> Seq<Seq<char>> {
    filter.map_values(|id: Seq<char>| escaped(leaf_of(id)))
}

/// The pattern that matches the leaf names of the tests; nothing where it is
/// empty or too long.
pub open spec fn pattern_of(filter: Seq<Seq<char>>) -> Option<Seq<char>> {
    let pattern = crate::text::joined(
        crate::text_order::sorted_set(leaf_patterns(filter)),
        "|"@,
    );
    if pattern.len() == 0 || crate::source::byte_len(pattern) > MAX_NAME_PATTERN_BYTES {
        None
    } else {
        Some(pattern)
    }
}

/// `-t` regex matching any of the covering tests' leaf names. Leaf names can
/// over-match same-named tests in other describes: safe (extra tests run),
/// never under-matches. None = filter by file only.
pub fn name_pattern(filter: &Vec<TestId>) -> (r: Option<String>)
    ensures
        crate::text::opt_text(r) == pattern_of(crate::text::texts(filter@)),
{
    let ghost all = crate::text::texts(filter@);
    let ghost wanted = leaf_patterns(all);
    let mut names: Vec<String> = Vec::new();
    let mut i: usize = 0;
    proof {
        assert(crate::text::texts(names@) =~= wanted.take(0));
    }
    while i < filter.len()
        invariant
            i <= filter@.len(),
            all == crate::text::texts(filter@),
            wanted == leaf_patterns(all),
            crate::text::texts(names@) == wanted.take(i as int),
        decreases filter@.len() - i,
    {
        let name = match split_last(filter[i].as_str(), " > ") {
            Some((_, name)) => escape_regex(name.as_str()),
            None => escape_regex(filter[i].as_str()),
        };
        proof {
            crate::text::lemma_texts_push(names@, name);
            assert(all[i as int] == filter@[i as int]@);
            assert(wanted.take(i + 1) =~= wanted.take(i as int).push(name@));
        }
        names.push(name);
        i = i + 1;
    }
    proof {
        assert(wanted.take(filter@.len() as int) =~= wanted);
    }
    let pattern = join(&sort_texts(&names), "|");
    if pattern.as_str().is_empty() {
        return None;
    }
    match Source::new(pattern.as_str()) {
        Some(text) => if text.len() > MAX_NAME_PATTERN_BYTES {
            None
        } else {
            Some(pattern)
        },
        None => None,
    }
}

/// The arguments that select the tests of a mutant run.
pub open spec fn selection_of(
    filter: Option<Seq<Seq<char>>>,
    test_files: Seq<Seq<char>>,
) -> Seq<Seq<char>> {
    match filter {
        None => test_files,
        Some(filter) => (if files_of(filter).len() == 0 {
            test_files
        } else {
            files_of(filter)
        }) + (match pattern_of(filter) {
            Some(pattern) => seq!["-t"@, pattern],
            None => Seq::empty(),
        }),
    }
}

/// The arguments that select the tests of a mutant run.
pub fn selection(filter: &Option<Vec<TestId>>, test_files: &Vec<String>) -> (r: Vec<String>)
    ensures
        crate::text::texts(r@) == selection_of(
            crate::text::opt_texts(*filter),
            crate::text::texts(test_files@),
        ),
{
    match filter {
        None => crate::text::copy_texts(test_files),
        Some(filter) => {
            let files = covering_files(filter);
            proof {
                assert(crate::text::texts(files@).len() == files@.len());
            }
            let mut out = if files.len() == 0 {
                crate::text::copy_texts(test_files)
            } else {
                files
            };
            let ghost before = crate::text::texts(out@);
            if let Some(pattern) = name_pattern(filter) {
                let flag = copy_text("-t");
                proof {
                    crate::text::lemma_texts_push(out@, flag);
                }
                out.push(flag);
                proof {
                    crate::text::lemma_texts_push(out@, pattern);
                }
                out.push(pattern);
                proof {
                    assert(crate::text::texts(out@) =~= before + seq!["-t"@, pattern@]);
                }
            } else {
                proof {
                    assert(before + Seq::<Seq<char>>::empty() =~= before);
                }
            }
            out
        },
    }
}

// ---- paths seen from the root of the project ----

/// A case with its path seen from the root of the project.
pub open spec fn placed_case(c: crate::junit::CaseView, prefix: Seq<char>) -> crate::junit::CaseView {
    crate::junit::CaseView {
        file: match c.file {
            Some(file) => Some(prefix + file),
            None => None,
        },
        ..c
    }
}

/// Cases with their paths seen from the root of the project.
pub open spec fn placed_cases(cases: Seq<crate::junit::CaseView>, prefix: Seq<char>) -> Seq<
    crate::junit::CaseView,
> {
    cases.map_values(|c: crate::junit::CaseView| placed_case(c, prefix))
}

fn place_case(c: &JunitCase, prefix: &str) -> (r: JunitCase)
    ensures
        r@ == placed_case(c@, prefix@),
{
    JunitCase {
        file: match &c.file {
            Some(file) => Some(concat2(prefix, file.as_str())),
            None => None,
        },
        describes: crate::text::copy_texts(&c.describes),
        name: copy_text(c.name.as_str()),
        time: copy_text(c.time.as_str()),
        failed: c.failed,
        skipped: c.skipped,
    }
}

/// Cases with their paths seen from the root of the project.
pub fn place_cases(cases: &Vec<JunitCase>, prefix: &str) -> (r: Vec<JunitCase>)
    ensures
        crate::junit::case_views(r@) == placed_cases(crate::junit::case_views(cases@), prefix@),
{
    let ghost wanted = placed_cases(crate::junit::case_views(cases@), prefix@);
    let mut out: Vec<JunitCase> = Vec::new();
    let mut i: usize = 0;
    proof {
        assert(crate::junit::case_views(out@) =~= wanted.take(0));
    }
    while i < cases.len()
        invariant
            i <= cases@.len(),
            wanted == placed_cases(crate::junit::case_views(cases@), prefix@),
            crate::junit::case_views(out@) == wanted.take(i as int),
        decreases cases@.len() - i,
    {
        let ghost before = out@;
        let placed = place_case(&cases[i], prefix);
        out.push(placed);
        i = i + 1;
        proof {
            assert(crate::junit::case_views(out@) =~= crate::junit::case_views(before).push(
                placed@,
            ));
            assert(crate::junit::case_views(out@) =~= wanted.take(i as int));
        }
    }
    proof {
        assert(wanted.take(cases@.len() as int) =~= wanted);
    }
    out
}

/// The id of a test seen from the root, without the prefix, is the id of the
/// test as bun knows it: filters name the tests that the dry run saw.
pub proof fn law_ids_go_back_to_bun(c: crate::junit::CaseView, prefix: Seq<char>)
    requires
        c.file is Some,
    ensures
        crate::runners::unprefixed(crate::junit::id_of(placed_case(c, prefix)), prefix)
            == crate::junit::id_of(c),
{
    let tail = c.describes.push(c.name);
    lemma_joined_prefix(prefix, c.file->0, tail, " > "@);
    crate::runners::law_prefix_round_trip(crate::junit::id_of(c), prefix);
}

proof fn lemma_joined_prefix(prefix: Seq<char>, file: Seq<char>, tail: Seq<Seq<char>>, sep: Seq<char>)
    ensures
        crate::text::joined(seq![prefix + file] + tail, sep) == prefix + crate::text::joined(
            seq![file] + tail,
            sep,
        ),
    decreases tail.len(),
{
    let long = seq![prefix + file] + tail;
    let short = seq![file] + tail;
    if tail.len() > 0 {
        lemma_joined_prefix(prefix, file, tail.drop_last(), sep);
        assert(long.drop_last() =~= seq![prefix + file] + tail.drop_last());
        assert(short.drop_last() =~= seq![file] + tail.drop_last());
        assert(crate::text::joined(long, sep) =~= prefix + crate::text::joined(short, sep));
    }
}

// ---- dry run ----

/// What a dry run gave so far.
pub enum DryRunStart {
    /// All is said.
    Done(DryRunResult),
    /// The executed test cases, in order.
    Cases(Vec<JunitCase>),
}

/// The mathematical value of `DryRunStart`.
pub enum DryRunStartView {
    Done(crate::runners::DryRunView),
    Cases(Seq<crate::junit::CaseView>),
}

impl DryRunStart {
    pub open spec fn view(&self) -> DryRunStartView {
        match self {
            DryRunStart::Done(result) => DryRunStartView::Done(result@),
            DryRunStart::Cases(cases) => DryRunStartView::Cases(crate::junit::case_views(cases@)),
        }
    }
}

/// What a dry run gave so far, given the junit report.
pub open spec fn dry_run_start_of(
    output: RunOutput,
    junit: Option<Seq<char>>,
    prefix: Seq<char>,
) -> Result<DryRunStartView, BunErrorView> {
    if output.timed_out {
        Ok(DryRunStartView::Done(crate::runners::DryRunView::Timeout))
    } else {
        match junit {
            None => Ok(
                DryRunStartView::Done(
                    crate::runners::DryRunView::Error(
                        "bun test produced no junit output (exit "@ + crate::process::exit_text(
                            output.exit_code,
                        ) + "):\n"@ + output.tail(),
                    ),
                ),
            ),
            Some(xml) => match crate::junit::junit_cases(xml) {
                Ok(cases) => Ok(
                    DryRunStartView::Cases(placed_cases(crate::junit::executed(cases), prefix)),
                ),
                Err(fault) => Err(BunErrorView::UnreadableJunit(fault)),
            },
        }
    }
}

/// What a dry run gave so far, given the junit report, with paths seen from the
/// root of the project.
pub fn dry_run_start(output: &RunOutput, junit: &Option<String>, prefix: &str) -> (r: Result<
    DryRunStart,
    BunError,
>)
    ensures
        match r {
            Ok(start) => dry_run_start_of(*output, crate::text::opt_text(*junit), prefix@) == Ok::<
                DryRunStartView,
                BunErrorView,
            >(start@),
            Err(e) => dry_run_start_of(*output, crate::text::opt_text(*junit), prefix@) == Err::<
                DryRunStartView,
                BunErrorView,
            >(e@),
        },
{
    if output.timed_out {
        return Ok(DryRunStart::Done(DryRunResult::Timeout));
    }
    match junit {
        None => {
            let mut message = copy_text("bun test produced no junit output (exit ");
            message.append(show_exit(output.exit_code).as_str());
            message.append("):\n");
            message.append(output.diagnostic_tail().as_str());
            Ok(DryRunStart::Done(DryRunResult::Error(message)))
        },
        Some(xml) => match parse_junit(xml.as_str()) {
            Ok(cases) => {
                let kept = keep_executed(cases);
                Ok(DryRunStart::Cases(place_cases(&kept, prefix)))
            },
            Err(fault) => Err(BunError::UnreadableJunit(fault)),
        },
    }
}

/// The result of an executed test case.
pub open spec fn result_of(
    c: crate::junit::CaseView,
    time_bits: u64,
    tail: Seq<char>,
) -> crate::runners::TestResultView {
    crate::runners::TestResultView {
        id: crate::junit::id_of(c),
        name: crate::junit::id_of(c),
        file: c.file,
        time_bits,
        failed: c.failed,
        failure: if c.failed {
            Some(tail)
        } else {
            None
        },
    }
}

/// The results of executed test cases with their times.
pub open spec fn results_of(
    cases: Seq<crate::junit::CaseView>,
    times: Seq<u64>,
    tail: Seq<char>,
) -> Seq<crate::runners::TestResultView> {
    Seq::new(cases.len(), |i: int| result_of(cases[i], times[i], tail))
}

/// Coverage keyed by ordinals, re-keyed to the ids of the executed cases;
/// ordinals without a case are left out.
pub open spec fn rekeyed(
    ordinals: Seq<Seq<char>>,
    buckets: Seq<TextMap<u64>>,
    cases: Seq<crate::junit::CaseView>,
) -> Map<Seq<char>, Map<u32, u64>>
    decreases ordinals.len(),
{
    if ordinals.len() == 0 {
        Map::empty()
    } else {
        let front = rekeyed(ordinals.drop_last(), buckets.drop_last(), cases);
        match crate::text::parsed(ordinals.last(), u64::MAX as nat) {
            Some(n) => if n < cases.len() {
                crate::coverage::with_counters(
                    front,
                    crate::junit::id_of(cases[n as int]),
                    buckets.last(),
                )
            } else {
                front
            },
            None => front,
        }
    }
}

/// The coverage that a handoff gives for the executed cases.
pub open spec fn coverage_of(
    handoff: Handoff,
    cases: Seq<crate::junit::CaseView>,
) -> crate::model::CoverageView {
    crate::model::CoverageView {
        static_hits: crate::coverage::overwritten(
            Map::empty(),
            handoff.static_hits.keys(),
            handoff.static_hits.values(),
        ),
        per_test: rekeyed(handoff.per_test.keys(), handoff.per_test.values(), cases),
    }
}

/// Re-keys the coverage of a handoff to the ids of the executed cases.
pub fn rekey(handoff: &Handoff, cases: &Vec<JunitCase>) -> (r: MutantCoverage)
    ensures
        r@ == coverage_of(*handoff, crate::junit::case_views(cases@)),
{
    let ghost views = crate::junit::case_views(cases@);
    let ghost ordinals = handoff.per_test.keys();
    let ghost buckets = handoff.per_test.values();
    let mut coverage = static_coverage(&handoff.static_hits);
    let ghost hits = coverage@.static_hits;
    let total = handoff.per_test.len();
    let mut i: usize = 0;
    while i < total
        invariant
            i <= total == ordinals.len(),
            ordinals.len() == buckets.len(),
            ordinals == handoff.per_test.keys(),
            buckets == handoff.per_test.values(),
            views == crate::junit::case_views(cases@),
            coverage@.static_hits == hits,
            coverage@.per_test == rekeyed(
                ordinals.take(i as int),
                buckets.take(i as int),
                views,
            ),
        decreases total - i,
    {
        proof {
            assert(ordinals.take(i + 1).drop_last() =~= ordinals.take(i as int));
            assert(buckets.take(i + 1).drop_last() =~= buckets.take(i as int));
        }
        if let Some(n) = parse_number(handoff.per_test.key_at(i).as_str(), u64::MAX) {
            if n < cases.len() as u64 {
                let case = &cases[n as usize];
                proof {
                    assert(views[n as int] == case@);
                }
                add_counters(&mut coverage, case.test_id(), handoff.per_test.value_at(i));
            }
        }
        i = i + 1;
    }
    proof {
        assert(ordinals.take(total as int) =~= ordinals);
        assert(buckets.take(total as int) =~= buckets);
    }
    coverage
}

/// What a dry run gave, given the executed cases and what the preload handed over.
pub open spec fn dry_run_of(
    output: RunOutput,
    cases: Seq<crate::junit::CaseView>,
    times: Seq<u64>,
    handoff: Option<Handoff>,
    collect_coverage: bool,
) -> Result<crate::runners::DryRunView, BunErrorView> {
    let tests = results_of(cases, times, output.tail());
    if !collect_coverage {
        Ok(
            crate::runners::DryRunView::Complete {
                tests,
                coverage: None,
                gross_ms: output.elapsed,
            },
        )
    } else {
        match handoff {
            None => Err(BunErrorView::MissingHandoff),
            Some(h) => if h.ordinals != cases.len() {
                Err(
                    BunErrorView::OrdinalMismatch { counted: h.ordinals, shown: cases.len() as usize },
                )
            } else {
                Ok(
                    crate::runners::DryRunView::Complete {
                        tests,
                        coverage: Some(coverage_of(h, cases)),
                        gross_ms: output.elapsed,
                    },
                )
            },
        }
    }
}

/// What a dry run gave, given the executed cases with their times, as the bits
/// of doubles, and what the preload handed over.
pub fn dry_run_result(
    output: &RunOutput,
    cases: &Vec<JunitCase>,
    times: &Vec<u64>,
    handoff: &Option<Handoff>,
    collect_coverage: bool,
) -> (r: Result<DryRunResult, BunError>)
    requires
        times@.len() == cases@.len(),
    ensures
        match r {
            Ok(result) => dry_run_of(
                *output,
                crate::junit::case_views(cases@),
                times@,
                *handoff,
                collect_coverage,
            ) == Ok::<crate::runners::DryRunView, BunErrorView>(result@),
            Err(e) => dry_run_of(
                *output,
                crate::junit::case_views(cases@),
                times@,
                *handoff,
                collect_coverage,
            ) == Err::<crate::runners::DryRunView, BunErrorView>(e@),
        },
{
    let ghost views = crate::junit::case_views(cases@);
    let tail = output.diagnostic_tail();
    let ghost all = results_of(views, times@, tail@);
    let mut tests: Vec<TestResult> = Vec::new();
    let mut i: usize = 0;
    proof {
        assert(crate::runners::test_views(tests@) =~= all.take(0));
    }
    while i < cases.len()
        invariant
            i <= cases@.len() == times@.len(),
            views == crate::junit::case_views(cases@),
            all == results_of(views, times@, tail@),
            crate::runners::test_views(tests@) == all.take(i as int),
        decreases cases@.len() - i,
    {
        let c = &cases[i];
        let failure = if c.failed {
            Some(copy_text(tail.as_str()))
        } else {
            None
        };
        let test = TestResult {
            id: c.test_id(),
            name: c.test_id(),
            file: copy_opt(&c.file),
            time_bits: times[i],
            failed: c.failed,
            failure,
        };
        let ghost before = tests@;
        tests.push(test);
        proof {
            assert(views[i as int] == c@);
            assert(test@ == all[i as int]);
            assert(crate::runners::test_views(tests@) =~= crate::runners::test_views(before).push(
                test@,
            ));
            assert(all.take(i + 1) =~= all.take(i as int).push(all[i as int]));
        }
        i = i + 1;
    }
    proof {
        assert(all.take(cases@.len() as int) =~= all);
        assert(views.len() == cases@.len());
    }
    if !collect_coverage {
        return Ok(DryRunResult::Complete { tests, coverage: None, gross_ms: output.elapsed });
    }
    match handoff {
        None => Err(BunError::MissingHandoff),
        Some(h) => {
            if h.ordinals as u64 != cases.len() as u64 {
                Err(BunError::OrdinalMismatch { counted: h.ordinals, shown: cases.len() })
            } else {
                Ok(
                    DryRunResult::Complete {
                        tests,
                        coverage: Some(rekey(h, cases)),
                        gross_ms: output.elapsed,
                    },
                )
            }
        },
    }
}

// ---- mutant runs ----

/// What a run with an active mutant gave, given the executed cases.
pub open spec fn outcome_of_cases(output: RunOutput, cases: Seq<crate::junit::CaseView>) -> crate::runners::OutcomeView {
    let killed_by = crate::junit::failed_ids(cases);
    if killed_by.len() == 0 && output.succeeded() {
        crate::runners::OutcomeView::Survived { tests_ran: cases.len() as u32 }
    } else {
        // Without a failing test the process failed while loading modules,
        // which detects the mutant in the broadest sense.
        crate::runners::OutcomeView::Killed {
            killed_by,
            tests_ran: cases.len() as u32,
            failure: Some(output.tail()),
        }
    }
}

/// What a run with an active mutant gave. The preferred signal of too many
/// hits is the count that was handed over; the error text stands in where the
/// process died before.
pub open spec fn outcome_of(
    output: RunOutput,
    junit: Option<Seq<char>>,
    hit_count: Option<u64>,
    hit_limit: Option<u64>,
    prefix: Seq<char>,
) -> Result<crate::runners::OutcomeView, BunErrorView> {
    if output.timed_out {
        Ok(crate::runners::OutcomeView::Timeout { reason: Some("wall-clock timeout"@) })
    } else if hit_limit matches Some(limit) && hit_count matches Some(hits) && hits > limit {
        Ok(
            crate::runners::OutcomeView::Timeout {
                reason: Some(
                    "Hit limit reached ("@ + crate::text::decimal(hit_count->0 as nat) + "/"@
                        + crate::text::decimal(hit_limit->0 as nat) + ")"@,
                ),
            },
        )
    } else if crate::command::hit_limit_reached(output.stderr@) {
        Ok(crate::runners::OutcomeView::Timeout { reason: Some("Hit limit reached"@) })
    } else {
        match junit {
            None => if output.succeeded() {
                Ok(crate::runners::OutcomeView::Survived { tests_ran: 0 })
            } else {
                Ok(
                    crate::runners::OutcomeView::Error(
                        "bun test crashed without junit output (exit "@
                            + crate::process::exit_text(output.exit_code) + "):\n"@
                            + output.tail(),
                    ),
                )
            },
            Some(xml) => match crate::junit::junit_cases(xml) {
                Ok(cases) => Ok(
                    outcome_of_cases(output, placed_cases(crate::junit::executed(cases), prefix)),
                ),
                Err(fault) => Err(BunErrorView::UnreadableJunit(fault)),
            },
        }
    }
}

/// What a run with an active mutant gave, given the executed cases.
pub fn case_outcome(output: &RunOutput, cases: &Vec<JunitCase>) -> (r: MutantRunOutcome)
    ensures
        r@ == outcome_of_cases(*output, crate::junit::case_views(cases@)),
{
    let killed_by = list_failed(cases);
    proof {
        assert(crate::text::texts(killed_by@).len() == killed_by@.len());
        assert(crate::junit::case_views(cases@).len() == cases@.len());
    }
    let tests_ran: u32 = cases.len() as u32;
    if killed_by.len() == 0 && output.success() {
        MutantRunOutcome::Survived { tests_ran }
    } else {
        MutantRunOutcome::Killed {
            killed_by,
            tests_ran,
            failure: Some(output.diagnostic_tail()),
        }
    }
}

/// What a run with an active mutant gave.
pub fn mutant_outcome(
    output: &RunOutput,
    junit: &Option<String>,
    hit_count: Option<u64>,
    hit_limit: Option<u64>,
    prefix: &str,
) -> (r: Result<MutantRunOutcome, BunError>)
    ensures
        match r {
            Ok(outcome) => outcome_of(
                *output,
                crate::text::opt_text(*junit),
                hit_count,
                hit_limit,
                prefix@,
            ) == Ok::<crate::runners::OutcomeView, BunErrorView>(outcome@),
            Err(e) => outcome_of(
                *output,
                crate::text::opt_text(*junit),
                hit_count,
                hit_limit,
                prefix@,
            ) == Err::<crate::runners::OutcomeView, BunErrorView>(e@),
        },
{
    if output.timed_out {
        return Ok(MutantRunOutcome::Timeout { reason: Some(copy_text("wall-clock timeout")) });
    }
    if let (Some(limit), Some(hits)) = (hit_limit, hit_count) {
        if hits > limit {
            let mut reason = copy_text("Hit limit reached (");
            reason.append(number(hits).as_str());
            reason.append("/");
            reason.append(number(limit).as_str());
            reason.append(")");
            return Ok(MutantRunOutcome::Timeout { reason: Some(reason) });
        }
    }
    if has_text(output.stderr.as_str(), crate::runners::HIT_LIMIT_TEXT) {
        return Ok(MutantRunOutcome::Timeout { reason: Some(copy_text("Hit limit reached")) });
    }
    match junit {
        None => {
            if output.success() {
                Ok(MutantRunOutcome::Survived { tests_ran: 0 })
            } else {
                let mut message = copy_text("bun test crashed without junit output (exit ");
                message.append(show_exit(output.exit_code).as_str());
                message.append("):\n");
                message.append(output.diagnostic_tail().as_str());
                Ok(MutantRunOutcome::Error(message))
            }
        },
        Some(xml) => match parse_junit(xml.as_str()) {
            Ok(cases) => {
                let kept = keep_executed(cases);
                let placed = place_cases(&kept, prefix);
                Ok(case_outcome(output, &placed))
            },
            Err(fault) => Err(BunError::UnreadableJunit(fault)),
        },
    }
}

/// A mutant survives only a run that succeeded without a failed test.
pub proof fn law_survivors_pass_every_test(output: RunOutput, cases: Seq<crate::junit::CaseView>)
    ensures
        outcome_of_cases(output, cases) is Survived <==> output.succeeded() && crate::junit::failed_ids(
            cases,
        ).len() == 0,
{
}

// ---- a worker ----

/// The name of the preload in the temporary directory.
pub const PRELOAD_NAME: &'static str = "stryker-preload.ts";

/// What one worker knows of its runs.
#[derive(Debug)]
pub struct BunRunner {
    /// The directory that `bun test` runs in.
    pub cwd: String,
    /// That directory seen from the root of the project: paths and test ids
    /// stay relative to the root.
    pub path_prefix: String,
    pub temp_dir: String,
    /// Extra `bun test` args from the config.
    pub extra_args: Vec<String>,
    /// Explicit test files (empty = bun's own discovery).
    pub test_files: Vec<String>,
    /// Extra environment for every invocation.
    pub extra_env: Vec<(String, String)>,
    /// Unique per worker so that concurrent workers don't collide on artifacts.
    pub worker_id: u64,
    pub run_counter: u64,
    pub preload_path: String,
}

/// The arguments and the environment of one `bun`.
#[derive(Debug)]
pub struct BunCommand {
    pub args: Vec<String>,
    pub env: Vec<(String, String)>,
}

impl BunRunner {
    /// A worker that has run nothing yet.
    pub fn new(
        cwd: String,
        path_prefix: String,
        temp_dir: String,
        extra_args: Vec<String>,
        test_files: Vec<String>,
        extra_env: Vec<(String, String)>,
        worker_id: u64,
    ) -> (r: BunRunner)
        ensures
            r.cwd == cwd,
            r.path_prefix@ == crate::runners::with_slash(path_prefix@),
            r.temp_dir == temp_dir,
            r.extra_args == extra_args,
            r.test_files == test_files,
            r.extra_env == extra_env,
            r.worker_id == worker_id,
            r.run_counter == 0,
            r.preload_path@ == crate::paths::under(temp_dir@, PRELOAD_NAME@),
    {
        let preload_path = join_path(temp_dir.as_str(), PRELOAD_NAME);
        BunRunner {
            cwd,
            path_prefix: close_prefix(path_prefix),
            temp_dir,
            extra_args,
            test_files,
            extra_env,
            worker_id,
            run_counter: 0,
            preload_path,
        }
    }

    /// bun observes single tests.
    pub fn capabilities(&self) -> (r: Capabilities)
        ensures
            r.per_test_coverage,
    {
        Capabilities { per_test_coverage: true }
    }

    /// The path of the next artifact.
    pub fn artifact(&mut self, kind: &str) -> (r: String)
        requires
            old(self).run_counter < u64::MAX,
        ensures
            r@ == crate::paths::under(
                old(self).temp_dir@,
                artifact_of(kind@, old(self).worker_id as nat, old(self).run_counter as nat + 1),
            ),
            *final(self) == (BunRunner {
                run_counter: (old(self).run_counter + 1) as u64,
                ..*old(self)
            }),
    {
        self.run_counter = self.run_counter + 1;
        let name = artifact_name(kind, self.worker_id, self.run_counter);
        join_path(self.temp_dir.as_str(), name.as_str())
    }

    /// The command of a dry run.
    pub fn dry_run_command(&self, junit_path: &str, coverage_path: &str) -> (r: BunCommand)
        ensures
            crate::text::texts(r.args@) == base_args_of(
                self.preload_path@,
                junit_path@,
                crate::text::texts(self.extra_args@),
            ) + crate::text::texts(self.test_files@),
            crate::runners::env_views(r.env@) == base_env_of(
                coverage_path@,
                crate::runners::env_views(self.extra_env@),
            ),
    {
        let args = base_args(self.preload_path.as_str(), junit_path, &self.extra_args);
        let files = crate::text::copy_texts(&self.test_files);
        BunCommand { args: chain(args, files), env: base_env(coverage_path, &self.extra_env) }
    }

    /// The command of a run with an active mutant: the covering tests only,
    /// where they are known.
    pub fn mutant_command(
        &self,
        junit_path: &str,
        coverage_path: &str,
        options: &MutantRunOptions,
    ) -> (r: BunCommand)
        ensures
            crate::text::texts(r.args@) == base_args_of(
                self.preload_path@,
                junit_path@,
                crate::text::texts(self.extra_args@),
            ) + selection_of(
                crate::runners::relative_filter_of(
                    crate::text::opt_texts(options.test_filter),
                    self.path_prefix@,
                ),
                crate::text::texts(self.test_files@),
            ),
            crate::runners::env_views(r.env@) == base_env_of(
                coverage_path@,
                crate::runners::env_views(self.extra_env@),
            ) + crate::runners::activation(options.active_mutant, options.hit_limit),
    {
        let args = base_args(self.preload_path.as_str(), junit_path, &self.extra_args);
        let filter = relative_filter(&options.test_filter, self.path_prefix.as_str());
        let chosen = selection(&filter, &self.test_files);
        let mut env = base_env(coverage_path, &self.extra_env);
        let mut more = mutant_env(options);
        let ghost first = env@;
        let ghost second = more@;
        env.append(&mut more);
        proof {
            assert(crate::runners::env_views(env@) =~= crate::runners::env_views(first)
                + crate::runners::env_views(second));
        }
        BunCommand { args: chain(args, chosen), env }
    }
}

fn chain(first: Vec<String>, second: Vec<String>) -> (r: Vec<String>)
    ensures
        crate::text::texts(r@) == crate::text::texts(first@) + crate::text::texts(second@),
{
    let mut out = first;
    let mut more = second;
    out.append(&mut more);
    proof {
        assert(crate::text::texts(out@) =~= crate::text::texts(first@) + crate::text::texts(
            second@,
        ));
    }
    out
}

/// Two artifacts have the same name only where they are of one kind, one worker
/// and one run: concurrent workers don't collide.
pub proof fn law_artifacts_never_collide(
    kind: Seq<char>,
    worker: nat,
    run: nat,
    other_kind: Seq<char>,
    other_worker: nat,
    other_run: nat,
)
    requires
        !kind.contains('-'),
        !other_kind.contains('-'),
        artifact_of(kind, worker, run) == artifact_of(other_kind, other_worker, other_run),
    ensures
        kind == other_kind,
        worker == other_worker,
        run == other_run,
{
    reveal_strlit("-w");
    reveal_strlit("-");
    reveal_strlit(".tmp");
    let (w, v) = (crate::text::decimal(worker), crate::text::decimal(other_worker));
    let (n, m) = (crate::text::decimal(run), crate::text::decimal(other_run));
    crate::text::lemma_decimal_digits(worker);
    crate::text::lemma_decimal_digits(other_worker);
    crate::text::lemma_decimal_digits(run);
    crate::text::lemma_decimal_digits(other_run);
    let name = artifact_of(kind, worker, run);
    let after_kind = seq!['w'] + w + seq!['-'] + n + ".tmp"@;
    let after_other = seq!['w'] + v + seq!['-'] + m + ".tmp"@;
    assert(name =~= kind + seq!['-'] + after_kind);
    assert(name =~= other_kind + seq!['-'] + after_other);
    lemma_first_mark(kind, after_kind, other_kind, after_other, '-');
    assert(after_kind =~= (seq!['w'] + w) + seq!['-'] + (n + ".tmp"@));
    assert(after_other =~= (seq!['w'] + v) + seq!['-'] + (m + ".tmp"@));
    lemma_unmarked(w);
    lemma_unmarked(v);
    lemma_unmarked(n);
    lemma_unmarked(m);
    lemma_first_mark(seq!['w'] + w, n + ".tmp"@, seq!['w'] + v, m + ".tmp"@, '-');
    assert(w =~= (seq!['w'] + w).skip(1));
    assert(v =~= (seq!['w'] + v).skip(1));
    assert(n + ".tmp"@ =~= n + seq!['.'] + "tmp"@) by {
        reveal_strlit("tmp");
    }
    assert(m + ".tmp"@ =~= m + seq!['.'] + "tmp"@) by {
        reveal_strlit("tmp");
    }
    lemma_first_mark(n, "tmp"@, m, "tmp"@, '.');
}

/// Digits hold no separator.
proof fn lemma_unmarked(digits: Seq<char>)
    requires
        crate::text::all_digits(digits),
    ensures
        !digits.contains('-'),
        !digits.contains('.'),
        !(seq!['w'] + digits).contains('-'),
{
    let longer = seq!['w'] + digits;
    assert forall|i: int| 0 <= i < longer.len() implies #[trigger] longer[i] != '-' by {
        if i > 0 {
            assert(longer[i] == digits[i - 1]);
        }
    }
}

/// Of two equal texts the parts before the first mark are equal, and so are the
/// parts behind it.
proof fn lemma_first_mark(a: Seq<char>, x: Seq<char>, b: Seq<char>, y: Seq<char>, mark: char)
    requires
        !a.contains(mark),
        !b.contains(mark),
        a + seq![mark] + x == b + seq![mark] + y,
    ensures
        a == b,
        x == y,
{
    let whole = a + seq![mark] + x;
    let same = b + seq![mark] + y;
    if a.len() < b.len() {
        assert(whole[a.len() as int] == mark);
        assert(same[a.len() as int] == b[a.len() as int]);
    } else if b.len() < a.len() {
        assert(same[b.len() as int] == mark);
        assert(whole[b.len() as int] == a[b.len() as int]);
    }
    assert(a =~= whole.take(a.len() as int));
    assert(b =~= same.take(a.len() as int));
    assert(x =~= whole.skip(a.len() as int + 1));
    assert(y =~= same.skip(a.len() as int + 1));
}

// ---- what a run of bun says ----

/// What bun's run says of a mutant. A timeout and the limit of hits end it; a
/// report decides by its failed tests and the exit; without one, success lets the
/// mutant survive and anything else is an error.
pub proof fn law_outcomes_of_bun(
    output: RunOutput,
    junit: Option<Seq<char>>,
    hit_count: Option<u64>,
    hit_limit: Option<u64>,
    prefix: Seq<char>,
)
    ensures
        ({
            let o = outcome_of(output, junit, hit_count, hit_limit, prefix);
            let over = hit_limit is Some && hit_count is Some && hit_count->0 > hit_limit->0;
            let told = crate::text::has(output.stderr@, "Stryker: Hit limit reached"@);
            let passed = !output.timed_out && output.exit_code == Some(0i32);
            let goes_on = !output.timed_out && !over && !told;
            &&& output.timed_out || over || told ==> o is Ok && o->Ok_0 is Timeout
            &&& output.timed_out ==> o == Ok::<crate::runners::OutcomeView, BunErrorView>(
                crate::runners::OutcomeView::Timeout { reason: Some("wall-clock timeout"@) },
            )
            &&& !output.timed_out && over ==> o == Ok::<crate::runners::OutcomeView, BunErrorView>(
                crate::runners::OutcomeView::Timeout {
                    reason: Some(
                        "Hit limit reached ("@ + crate::text::decimal(hit_count->0 as nat) + "/"@
                            + crate::text::decimal(hit_limit->0 as nat) + ")"@,
                    ),
                },
            )
            &&& goes_on && junit is None && passed ==> o == Ok::<
                crate::runners::OutcomeView,
                BunErrorView,
            >(crate::runners::OutcomeView::Survived { tests_ran: 0 })
            &&& goes_on && junit is None && !passed ==> o is Ok && o->Ok_0 is Error
            &&& goes_on && junit is Some ==> (o is Err <==> crate::junit::junit_cases(
                junit->0,
            ) is Err)
        }),
{
}

/// A mutant is killed by just the tests that failed, and also where none failed
/// but the run did; a survivor passed all tests. Every test that ran is counted.
pub proof fn law_outcomes_by_cases(output: RunOutput, cases: Seq<crate::junit::CaseView>)
    requires
        cases.len() <= u32::MAX,
    ensures
        ({
            let o = outcome_of_cases(output, cases);
            let passed = !output.timed_out && output.exit_code == Some(0i32);
            let failures = cases.filter_map(
                |c: crate::junit::CaseView|
                    if c.failed {
                        Some(crate::junit::id_of(c))
                    } else {
                        None
                    },
            );
            &&& passed && failures.len() == 0 ==> o == (crate::runners::OutcomeView::Survived {
                tests_ran: cases.len() as u32,
            })
            &&& !passed || failures.len() > 0 ==> o == (crate::runners::OutcomeView::Killed {
                killed_by: failures,
                tests_ran: cases.len() as u32,
                failure: Some(output.tail()),
            })
        }),
{
    crate::junit::law_executed_and_failed(cases);
}

/// A dry run lists each case that ran, by its id, with its file and time, and what
/// was said where it failed. Coverage is taken where it is asked for, and refused
/// where the preload handed none over or counted other tests.
pub proof fn law_dry_runs_of_bun(
    output: RunOutput,
    cases: Seq<crate::junit::CaseView>,
    times: Seq<u64>,
    handoff: Option<Handoff>,
    collect_coverage: bool,
    i: int,
)
    requires
        cases.len() <= usize::MAX,
        0 <= i < cases.len() == times.len(),
    ensures
        ({
            let d = dry_run_of(output, cases, times, handoff, collect_coverage);
            &&& d is Err <==> collect_coverage && (handoff is None || handoff->0.ordinals
                != cases.len())
            &&& collect_coverage && handoff is None ==> d == Err::<
                crate::runners::DryRunView,
                BunErrorView,
            >(BunErrorView::MissingHandoff)
            &&& d is Ok ==> {
                &&& d->Ok_0 is Complete
                &&& d->Ok_0->tests.len() == cases.len()
                &&& d->Ok_0->tests[i].id == crate::junit::id_of(cases[i])
                &&& d->Ok_0->tests[i].file == cases[i].file
                &&& d->Ok_0->tests[i].time_bits == times[i]
                &&& d->Ok_0->tests[i].failed == cases[i].failed
                &&& d->Ok_0->tests[i].failure == (if cases[i].failed {
                    Some(output.tail())
                } else {
                    None
                })
                &&& d->Ok_0->gross_ms == output.elapsed
                &&& d->Ok_0->coverage is Some <==> collect_coverage
            }
        }),
{
}

/// The start of a dry run is a timeout, an error without a report, or the cases of
/// the report that were not skipped, seen from the root.
pub proof fn law_dry_runs_start(output: RunOutput, junit: Option<Seq<char>>, prefix: Seq<char>)
    ensures
        ({
            let d = dry_run_start_of(output, junit, prefix);
            &&& output.timed_out ==> d == Ok::<DryRunStartView, BunErrorView>(
                DryRunStartView::Done(crate::runners::DryRunView::Timeout),
            )
            &&& !output.timed_out && junit is None ==> d is Ok && (d->Ok_0 matches DryRunStartView::Done(
                crate::runners::DryRunView::Error(_),
            ))
            &&& !output.timed_out && junit is Some ==> (match crate::junit::junit_cases(junit->0) {
                Ok(cases) => d == Ok::<DryRunStartView, BunErrorView>(
                    DryRunStartView::Cases(
                        cases.filter(|c: crate::junit::CaseView| !c.skipped).map_values(
                            |c: crate::junit::CaseView|
                                crate::junit::CaseView {
                                    file: match c.file {
                                        Some(file) => Some(prefix + file),
                                        None => None,
                                    },
                                    ..c
                                },
                        ),
                    ),
                ),
                Err(fault) => d == Err::<DryRunStartView, BunErrorView>(
                    BunErrorView::UnreadableJunit(fault),
                ),
            })
        }),
{
    if let Some(xml) = junit {
        if let Ok(cases) = crate::junit::junit_cases(xml) {
            crate::junit::law_executed_and_failed(cases);
            assert(placed_cases(crate::junit::executed(cases), prefix) =~= cases.filter(
                |c: crate::junit::CaseView| !c.skipped,
            ).map_values(
                |c: crate::junit::CaseView|
                    crate::junit::CaseView {
                        file: match c.file {
                            Some(file) => Some(prefix + file),
                            None => None,
                        },
                        ..c
                    },
            ));
        }
    }
}

proof fn lemma_rekeyed(
    ordinals: Seq<Seq<char>>,
    buckets: Seq<TextMap<u64>>,
    cases: Seq<crate::junit::CaseView>,
    test: Seq<char>,
)
    requires
        ordinals.len() == buckets.len(),
    ensures
        rekeyed(ordinals, buckets, cases).contains_key(test) <==> exists|k: int, n: int|
            0 <= k < ordinals.len() && 0 <= n < cases.len() && crate::text::parsed(
                #[trigger] ordinals[k],
                u64::MAX as nat,
            ) == Some(n as nat) && crate::junit::id_of(#[trigger] cases[n]) == test,
    decreases ordinals.len(),
{
    if ordinals.len() > 0 {
        let front = ordinals.drop_last();
        let last = ordinals.last();
        lemma_rekeyed(front, buckets.drop_last(), cases, test);
        assert(ordinals[ordinals.len() - 1] == last);
        if rekeyed(front, buckets.drop_last(), cases).contains_key(test) {
            let (k, n) = choose|k: int, n: int|
                0 <= k < front.len() && 0 <= n < cases.len() && crate::text::parsed(
                    #[trigger] front[k],
                    u64::MAX as nat,
                ) == Some(n as nat) && crate::junit::id_of(#[trigger] cases[n]) == test;
            assert(ordinals[k] == front[k]);
        }
        if let Some(n) = crate::text::parsed(last, u64::MAX as nat) {
            if n < cases.len() && crate::junit::id_of(cases[n as int]) == test {
                assert(crate::text::parsed(ordinals[ordinals.len() - 1], u64::MAX as nat) == Some(n));
            }
        }
        if exists|k: int, n: int|
            0 <= k < ordinals.len() && 0 <= n < cases.len() && crate::text::parsed(
                #[trigger] ordinals[k],
                u64::MAX as nat,
            ) == Some(n as nat) && crate::junit::id_of(#[trigger] cases[n]) == test {
            let (k, n) = choose|k: int, n: int|
                0 <= k < ordinals.len() && 0 <= n < cases.len() && crate::text::parsed(
                    #[trigger] ordinals[k],
                    u64::MAX as nat,
                ) == Some(n as nat) && crate::junit::id_of(#[trigger] cases[n]) == test;
            if k < front.len() {
                assert(front[k] == ordinals[k]);
            }
        }
    }
}

/// The hits that were counted under the ordinal of a test go to the case that ran
/// at that place, and nothing else gets any.
pub proof fn law_ordinals_become_tests(
    handoff: Handoff,
    cases: Seq<crate::junit::CaseView>,
    test: Seq<char>,
)
    requires
        handoff.per_test.keys().len() == handoff.per_test.values().len(),
    ensures
        coverage_of(handoff, cases).per_test.contains_key(test) <==> exists|k: int, n: int|
            0 <= k < handoff.per_test.keys().len() && 0 <= n < cases.len() && crate::text::parsed(
                #[trigger] handoff.per_test.keys()[k],
                u64::MAX as nat,
            ) == Some(n as nat) && crate::junit::id_of(#[trigger] cases[n]) == test,
{
    lemma_rekeyed(handoff.per_test.keys(), handoff.per_test.values(), cases, test);
}

/// What bun is started with: the preload, a report in JUnit's form, and what is
/// configured; its tests one at a time, handing coverage over.
pub proof fn law_arguments_of_bun(
    preload: Seq<char>,
    junit_path: Seq<char>,
    coverage_path: Seq<char>,
    args: Seq<Seq<char>>,
    extra: Seq<(Seq<char>, Seq<char>)>,
)
    ensures
        base_args_of(preload, junit_path, args) == seq![
            "test"@,
            "--preload"@,
            preload,
            "--reporter=junit"@,
            "--reporter-outfile="@ + junit_path,
        ] + args,
        base_env_of(coverage_path, extra) == seq![
            ("STRYKER_COVERAGE_FILE"@, coverage_path),
            ("BUN_TEST_NO_CONCURRENT"@, "1"@),
        ] + extra,
{
}

/// The test files of a filter are just those of its tests.
pub proof fn law_files_of_a_filter(filter: Seq<Seq<char>>, file: Seq<char>)
    ensures
        files_of(filter).contains(file) <==> exists|i: int|
            0 <= i < filter.len() && (crate::text::cut_once(#[trigger] filter[i], " > "@) matches Some(
                cut,
            ) && cut.0 == file),
    decreases filter.len(),
{
    if filter.len() > 0 {
        let before = filter.drop_last();
        let front = files_of(before);
        let all = files_of(filter);
        law_files_of_a_filter(before, file);
        assert(filter[filter.len() - 1] == filter.last());
        if front.contains(file) {
            let k = front.index_of(file);
            assert(all[k] == file);
            let i = choose|i: int|
                0 <= i < before.len() && (crate::text::cut_once(
                    #[trigger] before[i],
                    " > "@,
                ) matches Some(cut) && cut.0 == file);
            assert(filter[i] == before[i]);
        }
        if all.contains(file) && !front.contains(file) {
            let k = all.index_of(file);
            if k < front.len() {
                assert(front[k] == file);
            }
        }
        if exists|i: int|
            0 <= i < filter.len() && (crate::text::cut_once(#[trigger] filter[i], " > "@) matches Some(
                cut,
            ) && cut.0 == file) {
            let i = choose|i: int|
                0 <= i < filter.len() && (crate::text::cut_once(
                    #[trigger] filter[i],
                    " > "@,
                ) matches Some(cut) && cut.0 == file);
            if i < before.len() {
                assert(before[i] == filter[i]);
            } else if !front.contains(file) {
                assert(all[all.len() - 1] == file);
            }
        }
    }
}

/// What bun is asked to run: without a filter the configured files; with one the
/// files of its tests, or the configured ones where it names none, and the names
/// of the tests as a pattern where that is not too long.
pub proof fn law_selections(filter: Seq<Seq<char>>, test_files: Seq<Seq<char>>)
    ensures
        selection_of(None, test_files) == test_files,
        ({
            let files = if files_of(filter).len() > 0 {
                files_of(filter)
            } else {
                test_files
            };
            let names = crate::text::joined(
                crate::text_order::sorted_set(
                    filter.map_values(|id: Seq<char>| escaped(leaf_of(id))),
                ),
                "|"@,
            );
            &&& names.len() > 0 && crate::source::byte_len(names) <= 6000 ==> selection_of(
                Some(filter),
                test_files,
            ) == files + seq!["-t"@, names]
            &&& names.len() == 0 || crate::source::byte_len(names) > 6000 ==> selection_of(
                Some(filter),
                test_files,
            ) == files
        }),
{
    let names = filter.map_values(|id: Seq<char>| escaped(leaf_of(id)));
    assert(leaf_patterns(filter) =~= names);
    let files = if files_of(filter).len() > 0 {
        files_of(filter)
    } else {
        test_files
    };
    assert(files + Seq::<Seq<char>>::empty() =~= files);
}

/// A name is made a pattern for itself: every character but letters, digits,
/// blanks, underscores and hyphens gets a backslash.
pub proof fn law_names_are_escaped(name: Seq<char>, c: char)
    ensures
        escaped(name.push(c)) == escaped(name) + (if crate::text::is_word(c) || c == ' ' || c == '_'
            || c == '-' {
            seq![c]
        } else {
            seq!['\\', c]
        }),
        escaped(Seq::<char>::empty()).len() == 0,
{
    assert(name.push(c).drop_last() =~= name);
}

/// A test is asked for by its own name, without its file and the names around it.
pub proof fn law_leaves_of_ids(around: Seq<char>, name: Seq<char>)
    requires
        forall|i: int|
            around.len() < i ==> !crate::text::occurs_at(around + " > "@ + name, " > "@, i),
    ensures
        leaf_of(around + " > "@ + name) == name,
{
    let id = around + " > "@ + name;
    let sep = " > "@;
    let n = around.len() as int;
    reveal_strlit(" > ");
    assert(sep.len() == 3);
    assert(id.subrange(n, n + 3) =~= sep);
    assert(crate::text::occurs_at(id, sep, n));
    crate::text::lemma_rfind_to(id, sep, id.len() - 3);
    let p = crate::text::rfind(id, sep)->0;
    assert(p == n);
    assert(id.skip(n + 3) =~= name);
}

} // verus!
