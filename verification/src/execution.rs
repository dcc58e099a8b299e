//! What the run makes of the dry run, of plans and of outcomes.
use std::collections::BTreeMap;
use vstd::prelude::*;

use crate::command::CommandRunner;
use crate::config::StrykerConfig;
use crate::model::Mutant;
use crate::model::MutantCoverage;
use crate::model::MutantResult;
use crate::model::MutantStatus;
use crate::model::MutantTestPlan;
use crate::model::TestId;
use crate::paths::join_path;
use crate::runners::DryRunResult;
use crate::runners::MutantRunOutcome;
use crate::runners::TestResult;
use crate::schema::TestDefinition;
use crate::schema::TestFile;
use crate::sort::sort_by_rank;
use crate::sort::Ranked;
use crate::text::concat2;
use crate::text::concat3;
use crate::text::copy_text;
use crate::text::list_has;
use crate::text_map::TextMap;

verus! {

broadcast use vstd::std_specs::btree::group_btree_axioms;

// ---- runners ----

/// The directory that bun runs in.
pub fn bun_directory(config: &StrykerConfig, root: &str) -> (r: String)
    ensures
        r@ == (match config.bun_runner.cwd {
            Some(cwd) => crate::paths::under(root@, cwd@),
            None => root@,
        }),
{
    match &config.bun_runner.cwd {
        Some(cwd) => join_path(root, cwd.as_str()),
        None => copy_text(root),
    }
}

/// What is missing where the command runner has no command.
pub const NO_COMMAND: &'static str = "commandRunner.command is required for testRunner: command";

/// The runner of the configured command, or why there is none.
pub fn command_runner(config: &StrykerConfig, root: &str) -> (r: Result<CommandRunner, String>)
    ensures
        match config.command_runner.command {
            None => r matches Err(message) && message@ == NO_COMMAND@,
            Some(command) => match crate::command::shell_words_of(command@) {
                None => r matches Err(message) && message@
                    == crate::command::CommandError::Unparsable.words(command@),
                Some(words) => match crate::command::invocation_of(
                    command@,
                    words,
                    config.command_runner.shell,
                ) {
                    Ok(invocation) => r matches Ok(runner) && runner.invocation@ == invocation
                        && runner.cwd@ == root@,
                    Err(cause) => r matches Err(message) && message@ == cause.words(command@),
                },
            },
        },
{
    match &config.command_runner.command {
        None => Err(copy_text(NO_COMMAND)),
        Some(command) => match CommandRunner::with_shell(
            command.as_str(),
            copy_text(root),
            config.command_runner.shell,
        ) {
            Ok(runner) => Ok(runner),
            Err(cause) => Err(cause.message(command.as_str())),
        },
    }
}

// ---- dry run ----

/// A dry run that mutants can be held against.
pub struct Baseline {
    pub tests: Vec<TestResult>,
    pub coverage: Option<MutantCoverage>,
    pub gross_ms: u64,
}

/// The first failed test of a list.
pub open spec fn first_failed(tests: Seq<crate::runners::TestResultView>) -> Option<
    crate::runners::TestResultView,
>
    decreases tests.len(),
{
    if tests.len() == 0 {
        None
    } else {
        match first_failed(tests.drop_last()) {
            Some(t) => Some(t),
            None => if tests.last().failed {
                Some(tests.last())
            } else {
                None
            },
        }
    }
}

/// What is said about a test that failed before any mutant was active.
pub open spec fn failed_words(t: crate::runners::TestResultView) -> Seq<char> {
    "there were failed tests in the initial test run: "@ + t.name + " "@ + (match t.failure {
        Some(text) => text,
        None => Seq::empty(),
    })
}

proof fn lemma_failed_stays(tests: Seq<crate::runners::TestResultView>, n: int)
    requires
        0 <= n <= tests.len(),
        first_failed(tests.take(n)) is Some,
    ensures
        first_failed(tests) == first_failed(tests.take(n)),
    decreases tests.len() - n,
{
    if n == tests.len() {
        assert(tests.take(n) =~= tests);
    } else {
        assert(tests.take(n + 1).drop_last() =~= tests.take(n));
        lemma_failed_stays(tests, n + 1);
    }
}

/// The dry run, where it succeeded; else why nothing can be held against it.
pub fn accept_dry_run(result: DryRunResult) -> (r: Result<Baseline, String>)
    ensures
        match result {
            DryRunResult::Complete { tests, coverage, gross_ms } => match first_failed(
                crate::runners::test_views(tests@),
            ) {
                Some(t) => r matches Err(message) && message@ == failed_words(t),
                None => r matches Ok(b) && b.tests == tests && b.coverage == coverage && b.gross_ms
                    == gross_ms,
            },
            DryRunResult::Error(cause) => r matches Err(message) && message@ == "dry run failed: "@
                + cause@,
            DryRunResult::Timeout => r matches Err(message) && message@ == "dry run timed out"@,
        },
{
    match result {
        DryRunResult::Error(cause) => Err(concat2("dry run failed: ", cause.as_str())),
        DryRunResult::Timeout => Err(copy_text("dry run timed out")),
        DryRunResult::Complete { tests, coverage, gross_ms } => match failed_message(&tests) {
            Some(message) => Err(message),
            None => Ok(Baseline { tests, coverage, gross_ms }),
        },
    }
}

fn failed_message(tests: &Vec<TestResult>) -> (r: Option<String>)
    ensures
        match first_failed(crate::runners::test_views(tests@)) {
            Some(t) => crate::text::opt_text(r) == Some(failed_words(t)),
            None => r is None,
        },
{
    let ghost all = crate::runners::test_views(tests@);
    let mut i: usize = 0;
    proof {
        assert(all.take(0) =~= Seq::<crate::runners::TestResultView>::empty());
    }
    while i < tests.len()
        invariant
            i <= tests@.len(),
            all == crate::runners::test_views(tests@),
            first_failed(all.take(i as int)) is None,
        decreases tests@.len() - i,
    {
        let t = &tests[i];
        proof {
            assert(all.take(i + 1).drop_last() =~= all.take(i as int));
            assert(all.take(i + 1).last() == t@);
        }
        if t.failed {
            let mut message = concat3(
                "there were failed tests in the initial test run: ",
                t.name.as_str(),
                " ",
            );
            let ghost head = message@;
            match &t.failure {
                Some(text) => {
                    message.append(text.as_str());
                },
                None => {
                    proof {
                        assert(head + Seq::<char>::empty() =~= head);
                    }
                },
            }
            proof {
                lemma_failed_stays(all, i + 1);
            }
            return Some(message);
        }
        i = i + 1;
    }
    proof {
        assert(all.take(tests@.len() as int) =~= all);
    }
    None
}

// ---- inventory ----

/// Whether a test file has tests.
pub open spec fn has_tests(file: Seq<char>, tests: Seq<crate::runners::TestResultView>) -> bool {
    exists|i: int| 0 <= i < tests.len() && (#[trigger] tests[i]).file == Some(file)
}

/// The tests of a file as the report lists them, in order.
pub open spec fn tests_in(file: Seq<char>, tests: Seq<crate::runners::TestResultView>) -> Seq<
    crate::schema::TestView,
>
    decreases tests.len(),
{
    if tests.len() == 0 {
        Seq::empty()
    } else {
        let front = tests_in(file, tests.drop_last());
        let t = tests.last();
        if t.file == Some(file) {
            front.push(crate::schema::TestView { id: t.id, name: t.name, location: None })
        } else {
            front
        }
    }
}

/// The test files of the report.
pub open spec fn test_files_of(tests: Seq<crate::runners::TestResultView>) -> Map<
    Seq<char>,
    crate::schema::TestFileView,
> {
    Map::new(
        |file: Seq<char>| has_tests(file, tests),
        |file: Seq<char>|
            crate::schema::TestFileView { source: None, tests: tests_in(file, tests) },
    )
}

proof fn lemma_no_tests(file: Seq<char>, tests: Seq<crate::runners::TestResultView>)
    requires
        !has_tests(file, tests),
    ensures
        tests_in(file, tests).len() == 0,
    decreases tests.len(),
{
    if tests.len() > 0 {
        let front = tests.drop_last();
        assert forall|i: int| 0 <= i < front.len() implies (#[trigger] front[i]).file != Some(
            file,
        ) by {
            assert(tests[i].file != Some(file));
        }
        assert(tests[tests.len() - 1].file != Some(file));
        lemma_no_tests(file, front);
    }
}

proof fn lemma_one_more_test(tests: Seq<crate::runners::TestResultView>, n: int)
    requires
        0 <= n < tests.len(),
    ensures
        forall|file: Seq<char>| #[trigger]
            has_tests(file, tests.take(n + 1)) <==> has_tests(file, tests.take(n))
                || tests[n].file == Some(file),
{
    let upto = tests.take(n + 1);
    let front = tests.take(n);
    assert(upto[n] == tests[n]);
    assert forall|file: Seq<char>| #[trigger] has_tests(file, upto) <==> has_tests(file, front)
        || tests[n].file == Some(file) by {
        if has_tests(file, upto) {
            let k = choose|k: int| 0 <= k < upto.len() && (#[trigger] upto[k]).file == Some(file);
            if k < n {
                assert(front[k].file == Some(file));
            }
        }
        if has_tests(file, front) {
            let k = choose|k: int| 0 <= k < front.len() && (#[trigger] front[k]).file == Some(file);
            assert(upto[k].file == Some(file));
        }
    }
}

/// The test files of the report.
pub fn list_test_files(tests: &Vec<TestResult>) -> (r: TextMap<TestFile>)
    ensures
        crate::schema::test_file_views(r@) == test_files_of(crate::runners::test_views(tests@)),
{
    let ghost all = crate::runners::test_views(tests@);
    let mut files: TextMap<TestFile> = TextMap::new();
    let mut i: usize = 0;
    proof {
        assert(crate::schema::test_file_views(files@) =~= test_files_of(all.take(0)));
    }
    while i < tests.len()
        invariant
            i <= tests@.len(),
            all == crate::runners::test_views(tests@),
            crate::schema::test_file_views(files@) == test_files_of(all.take(i as int)),
        decreases tests@.len() - i,
    {
        let t = &tests[i];
        let ghost front = all.take(i as int);
        let ghost upto = all.take(i + 1);
        let ghost before = files@;
        proof {
            assert(upto.drop_last() =~= front);
            assert(upto.last() == t@);
            assert(all[i as int] == t@);
            lemma_one_more_test(all, i as int);
        }
        if let Some(path) = &t.file {
            let mut file = match files.take(path.as_str()) {
                Some(file) => {
                    proof {
                        assert(crate::schema::test_file_views(before).dom().contains(path@));
                        assert(crate::schema::test_file_views(before)[path@] == file@);
                    }
                    file
                },
                None => {
                    let fresh = TestFile { source: None, tests: Vec::new() };
                    proof {
                        assert(!crate::schema::test_file_views(before).dom().contains(path@));
                        lemma_no_tests(path@, front);
                        assert(fresh@.tests =~= tests_in(path@, front));
                    }
                    fresh
                },
            };
            let test = TestDefinition {
                id: copy_text(t.id.as_str()),
                name: copy_text(t.name.as_str()),
                location: None,
            };
            let ghost listed = file.tests@;
            file.tests.push(test);
            proof {
                assert(crate::schema::definition_views(file.tests@)
                    =~= crate::schema::definition_views(listed).push(test@));
                assert(file@.tests == tests_in(path@, upto));
            }
            files.insert(copy_text(path.as_str()), file);
        }
        proof {
            let want = test_files_of(upto);
            let have = crate::schema::test_file_views(files@);
            let prior = crate::schema::test_file_views(before);
            assert forall|p: Seq<char>| #[trigger] have.dom().contains(p) <==> want.dom().contains(
                p,
            ) by {
                assert(have.dom().contains(p) <==> files@.dom().contains(p));
                assert(prior.dom().contains(p) <==> before.dom().contains(p));
                assert(has_tests(p, upto) <==> has_tests(p, front) || t@.file == Some(p));
            }
            assert forall|p: Seq<char>| #[trigger] have.dom().contains(p) implies have[p]
                == want[p] by {
                if t@.file != Some(p) {
                    assert(before.dom().contains(p));
                    assert(prior.dom().contains(p));
                    assert(prior[p].tests == tests_in(p, front));
                    assert(tests_in(p, upto) == tests_in(p, front));
                }
            }
            assert(have =~= want);
        }
        i = i + 1;
    }
    proof {
        assert(all.take(tests@.len() as int) =~= all);
    }
    files
}

/// Whether a test of a list belongs to a file.
pub open spec fn names_files(tests: Seq<crate::runners::TestResultView>) -> bool {
    exists|i: int| 0 <= i < tests.len() && (#[trigger] tests[i]).file is Some
}

/// The section of test files of the report; there is none where no test belongs
/// to a file.
pub fn test_file_section(tests: &Vec<TestResult>) -> (r: Option<TextMap<TestFile>>)
    ensures
        match r {
            Some(files) => names_files(crate::runners::test_views(tests@))
                && crate::schema::test_file_views(files@) == test_files_of(
                crate::runners::test_views(tests@),
            ),
            None => !names_files(crate::runners::test_views(tests@)),
        },
{
    let ghost all = crate::runners::test_views(tests@);
    let files = list_test_files(tests);
    files.facts();
    let ghost views = crate::schema::test_file_views(files@);
    proof {
        if names_files(all) {
            let i = choose|i: int| 0 <= i < all.len() && (#[trigger] all[i]).file is Some;
            let file = all[i].file->0;
            assert(has_tests(file, all));
            assert(views.dom().contains(file));
            assert(files.keys().contains(file));
        }
        if files.keys().len() > 0 {
            let file = files.keys()[0];
            assert(files@.dom().contains(file));
            assert(views.dom().contains(file));
            assert(has_tests(file, all));
        }
    }
    if files.len() == 0 {
        None
    } else {
        Some(files)
    }
}

/// The test files that are not among the hashes yet, each once, in the order of
/// their first tests.
pub open spec fn unhashed(
    tests: Seq<crate::runners::TestResultView>,
    known: Map<Seq<char>, String>,
) -> Seq<Seq<char>>
    decreases tests.len(),
{
    if tests.len() == 0 {
        Seq::empty()
    } else {
        let front = unhashed(tests.drop_last(), known);
        match tests.last().file {
            Some(file) => if known.dom().contains(file) || front.contains(file) {
                front
            } else {
                front.push(file)
            },
            None => front,
        }
    }
}

/// The test files that are not among the hashes yet, each once, in the order of
/// their first tests.
pub fn unhashed_files(tests: &Vec<TestResult>, known: &TextMap<String>) -> (r: Vec<String>)
    ensures
        crate::text::texts(r@) == unhashed(crate::runners::test_views(tests@), known@),
{
    let ghost all = crate::runners::test_views(tests@);
    let mut out: Vec<String> = Vec::new();
    let mut i: usize = 0;
    proof {
        assert(crate::text::texts(out@) =~= unhashed(all.take(0), known@));
    }
    while i < tests.len()
        invariant
            i <= tests@.len(),
            all == crate::runners::test_views(tests@),
            crate::text::texts(out@) == unhashed(all.take(i as int), known@),
        decreases tests@.len() - i,
    {
        proof {
            assert(all.take(i + 1).drop_last() =~= all.take(i as int));
            assert(all.take(i + 1).last() == tests@[i as int]@);
        }
        if let Some(file) = &tests[i].file {
            if !known.contains_key(file.as_str()) && !list_has(&out, file.as_str()) {
                let copy = copy_text(file.as_str());
                proof {
                    crate::text::lemma_texts_push(out@, copy);
                }
                out.push(copy);
            }
        }
        i = i + 1;
    }
    proof {
        assert(all.take(tests@.len() as int) =~= all);
    }
    out
}

// ---- queue ----

impl Ranked for MutantTestPlan {
    open spec fn rank(self) -> int {
        plan_rank(self@)
    }

    fn rank_value(&self) -> (r: u64) {
        match self {
            MutantTestPlan::Run { test_filter: Some(filter), .. } => {
                proof {
                    assert(crate::text::texts(filter@).len() == filter@.len());
                }
                filter.len() as u64
            },
            _ => 0,
        }
    }
}

/// The number of tests that a plan names.
pub open spec fn plan_rank(plan: crate::model::PlanView) -> int {
    match plan {
        crate::model::PlanView::Run { test_filter: Some(filter), .. } => filter.len() as int,
        _ => 0,
    }
}

/// The result of a plan that needs no run.
pub open spec fn early_result(status: MutantStatus, reason: Seq<char>) -> crate::model::ResultView {
    crate::model::ResultView {
        status,
        killed_by: Seq::empty(),
        covered_by: Seq::empty(),
        tests_ran: 0,
        status_reason: Some(reason),
        duration: None,
        is_static: None,
    }
}

/// The results after the plans that need no run.
pub open spec fn early_results(
    base: Map<u32, crate::model::ResultView>,
    plans: Seq<crate::model::PlanView>,
) -> Map<u32, crate::model::ResultView>
    decreases plans.len(),
{
    if plans.len() == 0 {
        base
    } else {
        let front = early_results(base, plans.drop_last());
        match plans.last() {
            crate::model::PlanView::EarlyResult { mutant, status, reason } => if front.dom().contains(
                mutant.0,
            ) {
                front
            } else {
                front.insert(mutant.0, early_result(status, reason))
            },
            crate::model::PlanView::Run { .. } => front,
        }
    }
}

/// The plans that must be run, in order: those that name tests, or those that do
/// not. A mutant that has a result by then is left out.
pub open spec fn to_run(
    base: Map<u32, crate::model::ResultView>,
    plans: Seq<crate::model::PlanView>,
    covered: bool,
) -> Seq<crate::model::PlanView>
    decreases plans.len(),
{
    if plans.len() == 0 {
        Seq::empty()
    } else {
        let front = to_run(base, plans.drop_last(), covered);
        match plans.last() {
            crate::model::PlanView::EarlyResult { .. } => front,
            crate::model::PlanView::Run { mutant, test_filter, .. } => if early_results(
                base,
                plans.drop_last(),
            ).dom().contains(mutant.0) || (test_filter is Some) != covered {
                front
            } else {
                front.push(plans.last())
            },
        }
    }
}

/// The plans in the order in which they are run: mutants with few covering tests
/// first, those that need the full suite last.
pub open spec fn queue_of(
    base: Map<u32, crate::model::ResultView>,
    plans: Seq<crate::model::PlanView>,
) -> Seq<crate::model::PlanView> {
    crate::sort::stable(
        to_run(base, plans, true),
        |p: crate::model::PlanView| plan_rank(p),
    ) + to_run(base, plans, false)
}

fn reversed(plans: Vec<MutantTestPlan>) -> (r: Vec<MutantTestPlan>)
    ensures
        r@.len() == plans@.len(),
        forall|k: int| 0 <= k < r@.len() ==> #[trigger] r@[k] == plans@[plans@.len() - 1 - k],
{
    let ghost all = plans@;
    let mut rest = plans;
    let mut out: Vec<MutantTestPlan> = Vec::new();
    while rest.len() > 0
        invariant
            rest@.len() + out@.len() == all.len(),
            forall|k: int| 0 <= k < rest@.len() ==> #[trigger] rest@[k] == all[k],
            forall|k: int| 0 <= k < out@.len() ==> #[trigger] out@[k] == all[all.len() - 1 - k],
        decreases rest@.len(),
    {
        let ghost before = rest@;
        let next = rest.pop();
        if let Some(plan) = next {
            proof {
                assert(before[before.len() - 1] == plan);
                assert forall|k: int| 0 <= k < rest@.len() implies #[trigger] rest@[k] == all[k] by {
                    assert(rest@[k] == before[k]);
                }
            }
            out.push(plan);
        }
    }
    out
}

/// What is left to run after the results that are known.
pub struct Queue {
    pub results: BTreeMap<u32, MutantResult>,
    pub plans: Vec<MutantTestPlan>,
}

/// Takes in the results that need no run and puts the other plans in the order in
/// which they are run. Mutants that have a result are not run.
pub fn sort_plans(known: BTreeMap<u32, MutantResult>, plans: Vec<MutantTestPlan>) -> (r: Queue)
    ensures
        crate::incremental::result_views(r.results@) == early_results(
            crate::incremental::result_views(known@),
            crate::model::plan_views(plans@),
        ),
        crate::model::plan_views(r.plans@) == queue_of(
            crate::incremental::result_views(known@),
            crate::model::plan_views(plans@),
        ),
{
    let ghost base = crate::incremental::result_views(known@);
    let ghost all = crate::model::plan_views(plans@);
    let mut results = known;
    let mut rest = reversed(plans);
    let mut covered: Vec<MutantTestPlan> = Vec::new();
    let mut full: Vec<MutantTestPlan> = Vec::new();
    let ghost mut done: int = 0;
    proof {
        assert(all.take(0) =~= Seq::<crate::model::PlanView>::empty());
        assert(crate::model::plan_views(covered@) =~= Seq::<crate::model::PlanView>::empty());
        assert(crate::model::plan_views(full@) =~= Seq::<crate::model::PlanView>::empty());
        assert forall|k: int| 0 <= k < rest@.len() implies (#[trigger] rest@[k])@ == all[all.len()
            - 1 - k] by {
            assert(all[all.len() - 1 - k] == plans@[plans@.len() - 1 - k]@);
        }
    }
    while rest.len() > 0
        invariant
            0 <= done,
            done + rest@.len() == all.len(),
            forall|k: int| 0 <= k < rest@.len() ==> (#[trigger] rest@[k])@ == all[all.len() - 1 - k],
            crate::incremental::result_views(results@) == early_results(base, all.take(done)),
            crate::model::plan_views(covered@) == to_run(base, all.take(done), true),
            crate::model::plan_views(full@) == to_run(base, all.take(done), false),
        decreases rest@.len(),
    {
        let ghost before = rest@;
        let next = rest.pop();
        if let Some(plan) = next {
            let ghost front = all.take(done);
            let ghost had = results@;
            proof {
                assert(before[before.len() - 1]@ == all[done]);
                assert(all.take(done + 1).drop_last() =~= front);
                assert(all.take(done + 1).last() == plan@);
                assert forall|k: int| 0 <= k < rest@.len() implies (#[trigger] rest@[k])@
                    == all[all.len() - 1 - k] by {
                    assert(rest@[k] == before[k]);
                }
            }
            let known_already = results.contains_key(&plan.mutant_id().0);
            match plan {
                MutantTestPlan::EarlyResult { mutant, status, reason } => {
                    if !known_already {
                        let result = MutantResult {
                            status,
                            killed_by: Vec::new(),
                            covered_by: Vec::new(),
                            tests_ran: 0,
                            status_reason: Some(reason),
                            duration: None,
                            is_static: None,
                        };
                        proof {
                            assert(result@.killed_by =~= Seq::<Seq<char>>::empty());
                            assert(result@.covered_by =~= Seq::<Seq<char>>::empty());
                            assert(result@ == early_result(status, reason@));
                        }
                        results.insert(mutant.0, result);
                        proof {
                            assert(crate::incremental::result_views(results@)
                                =~= crate::incremental::result_views(had).insert(
                                mutant.0,
                                result@,
                            ));
                        }
                    }
                },
                MutantTestPlan::Run {
                    mutant,
                    test_filter,
                    timeout,
                    hit_limit,
                    reload_environment,
                } => {
                    if !known_already {
                        let named = test_filter.is_some();
                        let again = MutantTestPlan::Run {
                            mutant,
                            test_filter,
                            timeout,
                            hit_limit,
                            reload_environment,
                        };
                        if named {
                            let ghost listed = covered@;
                            covered.push(again);
                            proof {
                                assert(crate::model::plan_views(covered@)
                                    =~= crate::model::plan_views(listed).push(again@));
                            }
                        } else {
                            let ghost listed = full@;
                            full.push(again);
                            proof {
                                assert(crate::model::plan_views(full@)
                                    =~= crate::model::plan_views(listed).push(again@));
                            }
                        }
                    }
                },
            }
            proof {
                done = done + 1;
            }
        }
    }
    proof {
        assert(all.take(done) =~= all);
    }
    let ghost cheap = covered@;
    let mut queue = sort_by_rank(covered);
    let ghost sorted = queue@;
    let ghost last = full@;
    queue.append(&mut full);
    proof {
        let view = |p: MutantTestPlan| p@;
        let rank = |p: crate::model::PlanView| plan_rank(p);
        assert forall|p: MutantTestPlan| #[trigger] crate::sort::by_rank::<MutantTestPlan>()(p)
            == rank(view(p)) by {}
        crate::sort::lemma_stable_map(cheap, view, crate::sort::by_rank::<MutantTestPlan>(), rank);
        assert(crate::model::plan_views(sorted) =~= sorted.map_values(view));
        assert(crate::model::plan_views(cheap) =~= cheap.map_values(view));
        assert(crate::model::plan_views(queue@) =~= crate::model::plan_views(sorted)
            + crate::model::plan_views(last));
    }
    Queue { results, plans: queue }
}

proof fn lemma_to_run(
    base: Map<u32, crate::model::ResultView>,
    plans: Seq<crate::model::PlanView>,
    covered: bool,
)
    ensures
        forall|k: int|
            0 <= k < to_run(base, plans, covered).len() ==> {
                let p = #[trigger] to_run(base, plans, covered)[k];
                &&& plans.contains(p)
                &&& p is Run
                &&& !base.dom().contains(p.id().0)
                &&& p matches crate::model::PlanView::Run { test_filter, .. } ==> (test_filter
                    is Some) == covered
            },
        forall|id: u32| #[trigger]
            base.dom().contains(id) ==> early_results(base, plans).dom().contains(id),
    decreases plans.len(),
{
    if plans.len() > 0 {
        let front = plans.drop_last();
        lemma_to_run(base, front, covered);
        let list = to_run(base, front, covered);
        let all = to_run(base, plans, covered);
        assert forall|k: int| 0 <= k < all.len() implies {
            let p = #[trigger] all[k];
            &&& plans.contains(p)
            &&& p is Run
            &&& !base.dom().contains(p.id().0)
            &&& p matches crate::model::PlanView::Run { test_filter, .. } ==> (test_filter is Some)
                == covered
        } by {
            if k < list.len() {
                assert(all[k] == list[k]);
                assert(front.contains(list[k]));
                let n = front.index_of(list[k]);
                assert(plans[n] == list[k]);
            } else {
                assert(plans[plans.len() - 1] == plans.last());
            }
        }
    }
}

/// Reused mutants are not run again, the cheapest mutants run first, and those
/// that need the full suite run last.
pub proof fn law_cheap_mutants_run_first(
    base: Map<u32, crate::model::ResultView>,
    plans: Seq<crate::model::PlanView>,
    i: int,
    j: int,
)
    requires
        0 <= i < j < queue_of(base, plans).len(),
    ensures
        ({
            let a = queue_of(base, plans)[i];
            let b = queue_of(base, plans)[j];
            &&& !base.dom().contains(a.id().0)
            &&& !base.dom().contains(b.id().0)
            &&& a is Run && b is Run
            &&& b->test_filter is Some ==> a->test_filter is Some && plan_rank(a) <= plan_rank(b)
        }),
{
    broadcast use vstd::seq_lib::group_to_multiset_ensures;

    let rank = |p: crate::model::PlanView| plan_rank(p);
    let cheap = to_run(base, plans, true);
    let full = to_run(base, plans, false);
    let sorted = crate::sort::stable(cheap, rank);
    lemma_to_run(base, plans, true);
    lemma_to_run(base, plans, false);
    crate::sort::law_stable_sorts(cheap, rank);
    assert(crate::sort::ascending_by(sorted, rank));
    assert forall|k: int| 0 <= k < sorted.len() implies cheap.contains(#[trigger] sorted[k]) by {
        assert(sorted.to_multiset().count(sorted[k]) > 0);
        assert(cheap.to_multiset().count(sorted[k]) > 0);
    }
    let all = queue_of(base, plans);
    assert forall|k: int| 0 <= k < all.len() implies {
        let p = #[trigger] all[k];
        &&& p is Run
        &&& !base.dom().contains(p.id().0)
        &&& (p->test_filter is Some) == (k < sorted.len())
    } by {
        if k < sorted.len() {
            assert(all[k] == sorted[k]);
            let n = cheap.index_of(sorted[k]);
            assert(cheap[n] == sorted[k]);
        } else {
            assert(all[k] == full[k - sorted.len()]);
        }
    }
    if j < sorted.len() {
        assert(rank(sorted[i]) <= rank(sorted[j]));
    }
}

/// How many workers are started: as many as may run at once, but no more than
/// there are plans, where there are any, and else no more than one.
pub fn worker_count(concurrency: usize, plans: usize) -> (r: usize)
    ensures
        r <= concurrency,
        plans >= 1 ==> r <= plans,
        concurrency >= 1 ==> r >= 1,
        r == concurrency || r == plans || r == 1,
        r == (if plans <= 1 {
            if concurrency <= 1 {
                concurrency as int
            } else {
                1
            }
        } else if concurrency <= plans {
            concurrency as int
        } else {
            plans as int
        }),
{
    let most: usize = if plans > 1 {
        plans
    } else {
        1
    };
    if concurrency < most {
        concurrency
    } else {
        most
    }
}

// ---- outcomes ----

/// The result of a mutant run; an error of the runner itself counts as one of the
/// run.
pub open spec fn result_of(
    outcome: Result<crate::runners::OutcomeView, Seq<char>>,
    covered_by: Seq<Seq<char>>,
    duration: u64,
) -> crate::model::ResultView {
    let blank = crate::model::ResultView {
        status: MutantStatus::RuntimeError,
        killed_by: Seq::empty(),
        covered_by,
        tests_ran: 0,
        status_reason: None,
        duration: Some(duration),
        is_static: None,
    };
    match outcome {
        Ok(crate::runners::OutcomeView::Killed { killed_by, tests_ran, failure }) => {
            crate::model::ResultView {
                status: MutantStatus::Killed,
                killed_by,
                tests_ran,
                status_reason: failure,
                ..blank
            }
        },
        Ok(crate::runners::OutcomeView::Survived { tests_ran }) => crate::model::ResultView {
            status: MutantStatus::Survived,
            tests_ran,
            ..blank
        },
        Ok(crate::runners::OutcomeView::Timeout { reason }) => crate::model::ResultView {
            status: MutantStatus::Timeout,
            status_reason: reason,
            ..blank
        },
        Ok(crate::runners::OutcomeView::Error(message)) => crate::model::ResultView {
            status_reason: Some(message),
            ..blank
        },
        Err(message) => crate::model::ResultView { status_reason: Some(message), ..blank },
    }
}

/// The value of the outcome of a runner.
pub open spec fn outcome_view(outcome: Result<MutantRunOutcome, String>) -> Result<
    crate::runners::OutcomeView,
    Seq<char>,
> {
    match outcome {
        Ok(o) => Ok(o@),
        Err(message) => Err(message@),
    }
}

/// The result of a mutant run that took `duration` milliseconds.
pub fn mutant_result(
    outcome: Result<MutantRunOutcome, String>,
    covered_by: Vec<TestId>,
    duration: u64,
) -> (r: MutantResult)
    ensures
        r@ == result_of(outcome_view(outcome), crate::text::texts(covered_by@), duration),
{
    let mut result = MutantResult {
        status: MutantStatus::RuntimeError,
        killed_by: Vec::new(),
        covered_by,
        tests_ran: 0,
        status_reason: None,
        duration: Some(duration),
        is_static: None,
    };
    proof {
        assert(result@.killed_by =~= Seq::<Seq<char>>::empty());
    }
    match outcome {
        Ok(MutantRunOutcome::Killed { killed_by, tests_ran, failure }) => {
            result.status = MutantStatus::Killed;
            result.killed_by = killed_by;
            result.tests_ran = tests_ran;
            result.status_reason = failure;
        },
        Ok(MutantRunOutcome::Survived { tests_ran }) => {
            result.status = MutantStatus::Survived;
            result.tests_ran = tests_ran;
        },
        Ok(MutantRunOutcome::Timeout { reason }) => {
            result.status = MutantStatus::Timeout;
            result.status_reason = reason;
        },
        Ok(MutantRunOutcome::Error(message)) => {
            result.status_reason = Some(message);
        },
        Err(message) => {
            result.status_reason = Some(message);
        },
    }
    result
}

/// Results with the staticness of the given mutants noted.
pub open spec fn annotated(
    results: Map<u32, crate::model::ResultView>,
    mutants: Seq<crate::instrument::MutantView>,
    static_hits: Map<u32, u64>,
) -> Map<u32, crate::model::ResultView>
    decreases mutants.len(),
{
    if mutants.len() == 0 {
        results
    } else {
        let front = annotated(results, mutants.drop_last(), static_hits);
        let id = mutants.last().id;
        if front.dom().contains(id) {
            front.insert(
                id,
                crate::model::ResultView {
                    is_static: Some(static_hits.dom().contains(id)),
                    ..front[id]
                },
            )
        } else {
            front
        }
    }
}

/// Notes of every result whether its mutant was hit outside any test.
pub fn note_staticness(
    results: BTreeMap<u32, MutantResult>,
    mutants: &Vec<Mutant>,
    coverage: &MutantCoverage,
) -> (r: BTreeMap<u32, MutantResult>)
    ensures
        crate::incremental::result_views(r@) == annotated(
            crate::incremental::result_views(results@),
            crate::instrument::mutant_views(mutants@),
            coverage.static_hits@,
        ),
{
    let ghost base = crate::incremental::result_views(results@);
    let ghost all = crate::instrument::mutant_views(mutants@);
    let mut out = results;
    let mut i: usize = 0;
    proof {
        assert(all.take(0) =~= Seq::<crate::instrument::MutantView>::empty());
    }
    while i < mutants.len()
        invariant
            i <= mutants@.len(),
            all == crate::instrument::mutant_views(mutants@),
            crate::incremental::result_views(out@) == annotated(
                base,
                all.take(i as int),
                coverage.static_hits@,
            ),
        decreases mutants@.len() - i,
    {
        let id = mutants[i].id;
        let ghost before = out@;
        proof {
            assert(all.take(i + 1).drop_last() =~= all.take(i as int));
            assert(all.take(i + 1).last() == mutants@[i as int]@);
        }
        let taken = out.remove(&id.0);
        match taken {
            Some(result) => {
                let mut noted = result;
                noted.is_static = Some(coverage.is_static(id));
                out.insert(id.0, noted);
                proof {
                    assert(crate::incremental::result_views(before).dom().contains(id.0));
                    assert(crate::incremental::result_views(out@)
                        =~= crate::incremental::result_views(before).insert(id.0, noted@));
                }
            },
            None => {
                proof {
                    assert(!crate::incremental::result_views(before).dom().contains(id.0));
                    assert(out@ =~= before);
                }
            },
        }
        i = i + 1;
    }
    proof {
        assert(all.take(mutants@.len() as int) =~= all);
    }
    out
}

/// The statuses of the mutants that have a result, in order.
pub open spec fn settled(
    mutants: Seq<crate::instrument::MutantView>,
    results: Map<u32, MutantResult>,
) -> Seq<MutantStatus>
    decreases mutants.len(),
{
    if mutants.len() == 0 {
        Seq::empty()
    } else {
        let front = settled(mutants.drop_last(), results);
        match crate::report::result_at(results, mutants.last().id) {
            Some(r) => front.push(r.status),
            None => front,
        }
    }
}

/// The statuses of the mutants that have a result, in order.
pub fn settled_statuses(mutants: &Vec<Mutant>, results: &BTreeMap<u32, MutantResult>) -> (r: Vec<
    MutantStatus,
>)
    ensures
        r@ == settled(crate::instrument::mutant_views(mutants@), results@),
        r@.len() <= mutants@.len(),
{
    let ghost all = crate::instrument::mutant_views(mutants@);
    let mut out: Vec<MutantStatus> = Vec::new();
    let mut i: usize = 0;
    proof {
        assert(all.take(0) =~= Seq::<crate::instrument::MutantView>::empty());
    }
    while i < mutants.len()
        invariant
            i <= mutants@.len(),
            all == crate::instrument::mutant_views(mutants@),
            out@ == settled(all.take(i as int), results@),
            out@.len() <= i,
        decreases mutants@.len() - i,
    {
        let id = mutants[i].id;
        proof {
            assert(all.take(i + 1).drop_last() =~= all.take(i as int));
            assert(all.take(i + 1).last() == mutants@[i as int]@);
        }
        if let Some(result) = results.get(&id.0) {
            out.push(result.status);
        }
        i = i + 1;
    }
    proof {
        assert(all.take(mutants@.len() as int) =~= all);
    }
    out
}

// ---- what holds of a run ----

/// A dry run is refused for the first test that failed, and for no other.
pub proof fn law_first_failure_is_named(tests: Seq<crate::runners::TestResultView>)
    ensures
        match first_failed(tests) {
            Some(t) => exists|i: int|
                0 <= i < tests.len() && #[trigger] tests[i] == t && t.failed && forall|j: int|
                    0 <= j < i ==> !(#[trigger] tests[j]).failed,
            None => forall|i: int| 0 <= i < tests.len() ==> !(#[trigger] tests[i]).failed,
        },
    decreases tests.len(),
{
    if tests.len() > 0 {
        let front = tests.drop_last();
        law_first_failure_is_named(front);
        match first_failed(front) {
            Some(t) => {
                let i = choose|i: int|
                    0 <= i < front.len() && #[trigger] front[i] == t && t.failed && forall|j: int|
                        0 <= j < i ==> !(#[trigger] front[j]).failed;
                assert(tests[i] == t);
                assert forall|j: int| 0 <= j < i implies !(#[trigger] tests[j]).failed by {
                    assert(front[j] == tests[j]);
                }
            },
            None => {
                assert forall|j: int| 0 <= j < front.len() implies !(#[trigger] tests[j]).failed by {
                    assert(front[j] == tests[j]);
                }
                assert(tests[tests.len() - 1] == tests.last());
            },
        }
    }
}

/// The words for a failed test hold its name and what it said.
pub proof fn law_failures_are_put_in_words(t: crate::runners::TestResultView, said: Seq<char>)
    ensures
        t.failure == Some(said) ==> failed_words(t)
            == "there were failed tests in the initial test run: "@ + t.name + " "@ + said,
        t.failure is None ==> failed_words(t)
            == "there were failed tests in the initial test run: "@ + t.name + " "@,
{
    assert(failed_words(t) =~= "there were failed tests in the initial test run: "@ + t.name + " "@
        + (match t.failure {
        Some(text) => text,
        None => Seq::empty(),
    }));
}

/// A test file is listed where a test of the run stands in it, with its tests by
/// their ids and names, in order.
pub proof fn law_tests_are_listed_by_file(
    tests: Seq<crate::runners::TestResultView>,
    file: Seq<char>,
)
    ensures
        test_files_of(tests).contains_key(file) <==> exists|i: int|
            0 <= i < tests.len() && (#[trigger] tests[i]).file == Some(file),
        test_files_of(tests).contains_key(file) ==> test_files_of(tests)[file].tests
            == tests.filter_map(
            |t: crate::runners::TestResultView|
                if t.file == Some(file) {
                    Some(crate::schema::TestView { id: t.id, name: t.name, location: None })
                } else {
                    None
                },
        ),
        test_files_of(tests).contains_key(file) ==> test_files_of(tests)[file].source is None,
{
    lemma_tests_in(file, tests);
}

proof fn lemma_tests_in(file: Seq<char>, tests: Seq<crate::runners::TestResultView>)
    ensures
        tests_in(file, tests) == tests.filter_map(
            |t: crate::runners::TestResultView|
                if t.file == Some(file) {
                    Some(crate::schema::TestView { id: t.id, name: t.name, location: None })
                } else {
                    None
                },
        ),
    decreases tests.len(),
{
    let pick = |t: crate::runners::TestResultView|
        if t.file == Some(file) {
            Some(crate::schema::TestView { id: t.id, name: t.name, location: None })
        } else {
            None
        };
    if tests.len() > 0 {
        lemma_tests_in(file, tests.drop_last());
        assert(tests_in(file, tests) =~= tests.filter_map(pick));
    } else {
        assert(tests_in(file, tests) =~= tests.filter_map(pick));
    }
}

/// The files that are still to be hashed are just those of tests without a known
/// hash, each once.
pub proof fn law_unhashed_files_have_tests(
    tests: Seq<crate::runners::TestResultView>,
    known: Map<Seq<char>, String>,
)
    ensures
        forall|file: Seq<char>| #[trigger]
            unhashed(tests, known).contains(file) <==> !known.contains_key(file) && has_tests(
                file,
                tests,
            ),
        unhashed(tests, known).no_duplicates(),
    decreases tests.len(),
{
    if tests.len() > 0 {
        let before = tests.drop_last();
        let front = unhashed(before, known);
        let all = unhashed(tests, known);
        law_unhashed_files_have_tests(before, known);
        assert forall|file: Seq<char>| #[trigger] all.contains(file) <==> !known.contains_key(file)
            && has_tests(file, tests) by {
            if front.contains(file) {
                let k = front.index_of(file);
                assert(all[k] == file);
            }
            if all.contains(file) && !front.contains(file) {
                let k = all.index_of(file);
                if k < front.len() {
                    assert(front[k] == file);
                }
                assert(tests[tests.len() - 1].file == Some(file));
            }
            if has_tests(file, before) {
                let i = choose|i: int|
                    0 <= i < before.len() && (#[trigger] before[i]).file == Some(file);
                assert(tests[i].file == Some(file));
            }
            if has_tests(file, tests) && !has_tests(file, before) {
                let i = choose|i: int|
                    0 <= i < tests.len() && (#[trigger] tests[i]).file == Some(file);
                if i < before.len() {
                    assert(before[i].file == Some(file));
                }
                if !known.contains_key(file) {
                    assert(!front.contains(file));
                    assert(all[all.len() - 1] == file);
                }
            }
        }
        assert forall|i: int, j: int| 0 <= i < all.len() && 0 <= j < all.len() && i != j implies all[i]
            != all[j] by {
            if i < front.len() && j < front.len() {
                assert(front[i] != front[j]);
            } else if i < front.len() {
                assert(front.contains(front[i]));
            } else {
                assert(front.contains(front[j]));
            }
        }
    }
}

/// Whether no two plans are for the same mutant.
pub open spec fn one_plan_each(plans: Seq<crate::model::PlanView>) -> bool {
    forall|i: int, j: int|
        0 <= i < j < plans.len() ==> (#[trigger] plans[i]).id() != (#[trigger] plans[j]).id()
}

proof fn lemma_one_plan_each(plans: Seq<crate::model::PlanView>)
    requires
        plans.len() > 0,
        one_plan_each(plans),
    ensures
        one_plan_each(plans.drop_last()),
        forall|i: int|
            0 <= i < plans.len() - 1 ==> (#[trigger] plans.drop_last()[i]).id()
                != plans.last().id(),
{
    let front = plans.drop_last();
    assert forall|i: int, j: int| 0 <= i < j < front.len() implies (#[trigger] front[i]).id() != (
    #[trigger] front[j]).id() by {
        assert(front[i] == plans[i] && front[j] == plans[j]);
    }
    assert forall|i: int| 0 <= i < front.len() implies (#[trigger] front[i]).id()
        != plans.last().id() by {
        assert(front[i] == plans[i]);
        assert(plans[plans.len() - 1] == plans.last());
    }
}

/// A mutant has a result before any test runs where one is known, which then
/// stands, or where its plan gives one, with the status and the reason of the plan.
pub proof fn law_early_results_are_kept(
    base: Map<u32, crate::model::ResultView>,
    plans: Seq<crate::model::PlanView>,
    id: u32,
)
    requires
        one_plan_each(plans),
    ensures
        early_results(base, plans).contains_key(id) <==> base.contains_key(id) || exists|i: int|
            0 <= i < plans.len() && (#[trigger] plans[i]) is EarlyResult && plans[i].id().0 == id,
        base.contains_key(id) ==> early_results(base, plans)[id] == base[id],
        !base.contains_key(id) ==> forall|i: int|
            0 <= i < plans.len() && (#[trigger] plans[i]) is EarlyResult && plans[i].id().0 == id
                ==> early_results(base, plans)[id].status == plans[i]->status && early_results(
                base,
                plans,
            )[id].status_reason == Some(plans[i]->reason) && early_results(
                base,
                plans,
            )[id].killed_by.len() == 0 && early_results(base, plans)[id].covered_by.len() == 0
                && early_results(base, plans)[id].tests_ran == 0,
    decreases plans.len(),
{
    if plans.len() > 0 {
        let front = plans.drop_last();
        let last = plans.last();
        lemma_one_plan_each(plans);
        law_early_results_are_kept(base, front, id);
        let before = early_results(base, front);
        let all = early_results(base, plans);
        assert(plans[plans.len() - 1] == last);
        if exists|i: int|
            0 <= i < front.len() && (#[trigger] front[i]) is EarlyResult && front[i].id().0 == id {
            let i = choose|i: int|
                0 <= i < front.len() && (#[trigger] front[i]) is EarlyResult && front[i].id().0
                    == id;
            assert(plans[i] == front[i]);
        }
        if exists|i: int|
            0 <= i < plans.len() && (#[trigger] plans[i]) is EarlyResult && plans[i].id().0 == id {
            let i = choose|i: int|
                0 <= i < plans.len() && (#[trigger] plans[i]) is EarlyResult && plans[i].id().0
                    == id;
            if i < front.len() {
                assert(front[i] == plans[i]);
            }
        }
        assert forall|i: int|
            !base.contains_key(id) && 0 <= i < plans.len() && (#[trigger] plans[i]) is EarlyResult
                && plans[i].id().0 == id implies all[id].status == plans[i]->status
            && all[id].status_reason == Some(plans[i]->reason) && all[id].killed_by.len() == 0
            && all[id].covered_by.len() == 0 && all[id].tests_ran == 0 by {
            if i < front.len() {
                assert(front[i] == plans[i]);
            } else {
                assert(!before.contains_key(id)) by {
                    if before.contains_key(id) {
                        let j = choose|j: int|
                            0 <= j < front.len() && (#[trigger] front[j]) is EarlyResult
                                && front[j].id().0 == id;
                        assert(front[j].id() != last.id());
                    }
                }
            }
        }
    }
}

proof fn lemma_is_to_run(
    base: Map<u32, crate::model::ResultView>,
    plans: Seq<crate::model::PlanView>,
    covered: bool,
    p: crate::model::PlanView,
)
    requires
        one_plan_each(plans),
    ensures
        to_run(base, plans, covered).contains(p) <==> plans.contains(p) && p is Run && (
        p->test_filter is Some) == covered && !base.contains_key(p.id().0),
    decreases plans.len(),
{
    if plans.len() > 0 {
        let before = plans.drop_last();
        let last = plans.last();
        let front = to_run(base, before, covered);
        let all = to_run(base, plans, covered);
        lemma_one_plan_each(plans);
        lemma_is_to_run(base, before, covered, p);
        law_early_results_are_kept(base, before, last.id().0);
        assert(early_results(base, before).contains_key(last.id().0) <==> base.contains_key(
            last.id().0,
        )) by {
            if exists|i: int|
                0 <= i < before.len() && (#[trigger] before[i]) is EarlyResult && before[i].id().0
                    == last.id().0 {
                let i = choose|i: int|
                    0 <= i < before.len() && (#[trigger] before[i]) is EarlyResult
                        && before[i].id().0 == last.id().0;
                assert(before[i].id() != last.id());
            }
        }
        if front.contains(p) {
            let k = front.index_of(p);
            assert(all[k] == p);
            let n = before.index_of(p);
            assert(plans[n] == p);
        }
        if all.contains(p) && !front.contains(p) {
            let k = all.index_of(p);
            if k < front.len() {
                assert(front[k] == p);
            }
            assert(plans[plans.len() - 1] == p);
        }
        if plans.contains(p) && !before.contains(p) {
            let k = plans.index_of(p);
            if k < before.len() {
                assert(before[k] == p);
            }
            assert(p == last);
            if p is Run && (p->test_filter is Some) == covered && !base.contains_key(p.id().0) {
                assert(all[all.len() - 1] == p);
            }
        }
        if before.contains(p) {
            let n = before.index_of(p);
            assert(plans[n] == p);
        }
    }
}

/// What is queued is just what is planned to run and has no known result.
pub proof fn law_every_run_is_queued(
    base: Map<u32, crate::model::ResultView>,
    plans: Seq<crate::model::PlanView>,
    p: crate::model::PlanView,
)
    requires
        one_plan_each(plans),
    ensures
        queue_of(base, plans).contains(p) <==> plans.contains(p) && p is Run && !base.contains_key(
            p.id().0,
        ),
{
    broadcast use vstd::seq_lib::group_to_multiset_ensures;

    let rank = |p: crate::model::PlanView| plan_rank(p);
    let cheap = to_run(base, plans, true);
    let full = to_run(base, plans, false);
    let sorted = crate::sort::stable(cheap, rank);
    let all = queue_of(base, plans);
    lemma_is_to_run(base, plans, true, p);
    lemma_is_to_run(base, plans, false, p);
    crate::sort::law_stable_sorts(cheap, rank);
    assert(sorted.contains(p) <==> cheap.contains(p)) by {
        assert(sorted.contains(p) <==> sorted.to_multiset().count(p) > 0);
        assert(cheap.contains(p) <==> cheap.to_multiset().count(p) > 0);
    }
    assert(all == sorted + full);
    if sorted.contains(p) {
        let k = sorted.index_of(p);
        assert(all[k] == p);
    }
    if full.contains(p) {
        let k = full.index_of(p);
        assert(all[sorted.len() + k] == p);
    }
    if all.contains(p) {
        let k = all.index_of(p);
        if k < sorted.len() {
            assert(sorted[k] == p);
        } else {
            assert(full[k - sorted.len()] == p);
        }
    }
}

/// What an outcome says of its mutant: a kill names its killers, a survivor has
/// none, and what errs or cannot be run is no verdict on the tests. The covering
/// tests and the time are kept as they are.
pub proof fn law_outcomes_become_results(
    outcome: Result<crate::runners::OutcomeView, Seq<char>>,
    covered_by: Seq<Seq<char>>,
    duration: u64,
)
    ensures
        ({
            let r = result_of(outcome, covered_by, duration);
            &&& r.covered_by == covered_by
            &&& r.duration == Some(duration)
            &&& r.is_static is None
            &&& (outcome matches Ok(crate::runners::OutcomeView::Killed {
                killed_by,
                tests_ran,
                failure,
            }) ==> r.status == MutantStatus::Killed && r.killed_by == killed_by && r.tests_ran
                == tests_ran && r.status_reason == failure)
            &&& (outcome matches Ok(crate::runners::OutcomeView::Survived { tests_ran })
                ==> r.status == MutantStatus::Survived && r.killed_by.len() == 0 && r.tests_ran
                == tests_ran && r.status_reason is None)
            &&& (outcome matches Ok(crate::runners::OutcomeView::Timeout { reason }) ==> r.status
                == MutantStatus::Timeout && r.killed_by.len() == 0 && r.status_reason == reason)
            &&& (outcome matches Ok(crate::runners::OutcomeView::Error(message)) ==> r.status
                == MutantStatus::RuntimeError && r.killed_by.len() == 0 && r.status_reason == Some(
                message,
            ))
            &&& (outcome matches Err(message) ==> r.status == MutantStatus::RuntimeError
                && r.killed_by.len() == 0 && r.status_reason == Some(message))
        }),
{
}

/// Noting which mutants were hit outside the tests changes nothing else: no result
/// comes or goes, and a mutant is static exactly where it was hit there.
pub proof fn law_staticness_is_noted(
    results: Map<u32, crate::model::ResultView>,
    mutants: Seq<crate::instrument::MutantView>,
    static_hits: Map<u32, u64>,
    id: u32,
)
    ensures
        annotated(results, mutants, static_hits).contains_key(id) <==> results.contains_key(id),
        results.contains_key(id) ==> ({
            let r = annotated(results, mutants, static_hits)[id];
            &&& r.status == results[id].status
            &&& r.killed_by == results[id].killed_by
            &&& r.covered_by == results[id].covered_by
            &&& r.tests_ran == results[id].tests_ran
            &&& r.status_reason == results[id].status_reason
            &&& r.duration == results[id].duration
            &&& (exists|i: int| 0 <= i < mutants.len() && (#[trigger] mutants[i]).id == id)
                ==> r.is_static == Some(static_hits.contains_key(id))
            &&& !(exists|i: int| 0 <= i < mutants.len() && (#[trigger] mutants[i]).id == id)
                ==> r.is_static == results[id].is_static
        }),
    decreases mutants.len(),
{
    if mutants.len() > 0 {
        let front = mutants.drop_last();
        law_staticness_is_noted(results, front, static_hits, id);
        if exists|i: int| 0 <= i < mutants.len() && (#[trigger] mutants[i]).id == id {
            let i = choose|i: int| 0 <= i < mutants.len() && (#[trigger] mutants[i]).id == id;
            if i < front.len() {
                assert(front[i].id == id);
            }
        }
        if exists|i: int| 0 <= i < front.len() && (#[trigger] front[i]).id == id {
            let i = choose|i: int| 0 <= i < front.len() && (#[trigger] front[i]).id == id;
            assert(mutants[i].id == id);
        }
        assert(mutants[mutants.len() - 1] == mutants.last());
    }
}

/// The statuses of a run are those of the mutants that have a result, in order.
pub proof fn law_settled_mutants_have_results(
    mutants: Seq<crate::instrument::MutantView>,
    results: Map<u32, MutantResult>,
)
    ensures
        settled(mutants, results) == mutants.filter_map(
            |m: crate::instrument::MutantView|
                if results.contains_key(m.id) {
                    Some(results[m.id].status)
                } else {
                    None
                },
        ),
    decreases mutants.len(),
{
    let pick = |m: crate::instrument::MutantView|
        if results.contains_key(m.id) {
            Some(results[m.id].status)
        } else {
            None
        };
    if mutants.len() > 0 {
        law_settled_mutants_have_results(mutants.drop_last(), results);
        assert(settled(mutants, results) =~= mutants.filter_map(pick));
    } else {
        assert(settled(mutants, results) =~= mutants.filter_map(pick));
    }
}

/// Of the mutants that are tested by some of the tests, those with fewer tests run
/// first, and those that need the whole suite run last.
pub proof fn law_fewer_tests_run_first(
    base: Map<u32, crate::model::ResultView>,
    plans: Seq<crate::model::PlanView>,
    i: int,
    j: int,
)
    requires
        0 <= i < j < queue_of(base, plans).len(),
    ensures
        ({
            let a = queue_of(base, plans)[i]->test_filter;
            let b = queue_of(base, plans)[j]->test_filter;
            &&& a is None ==> b is None
            &&& a is Some && b is Some ==> a->0.len() <= b->0.len()
        }),
{
    law_cheap_mutants_run_first(base, plans, i, j);
}

} // verus!
