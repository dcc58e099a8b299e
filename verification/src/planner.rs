//! Turns mutants and dry-run results into test plans.
use vstd::prelude::*;

use crate::config::CoverageAnalysis;
use crate::config::TestRunnerKind;
use crate::model::Mutant;
use crate::model::MutantCoverage;
use crate::model::MutantStatus;
use crate::model::MutantTestPlan;
use crate::model::TestId;
use crate::text::copy_text;
use crate::text::list_has;

verus! {

/// Generous, so that slow-but-terminating mutants don't get misreported as
/// Timeout.
pub const HIT_LIMIT_FACTOR: u64 = 100;

/// No test gets less time, in milliseconds.
pub const SHORTEST_TIMEOUT: u64 = 1000;

/// How long the dry run took.
#[derive(Debug, Clone, Copy, PartialEq, Eq, Structural)]
pub struct DryRunTiming {
    /// Sum of individual test times.
    pub net_ms: u64,
    /// Gross dry-run time minus net (process boot, transpile, ...).
    pub overhead_ms: u64,
}

impl DryRunTiming {
    /// What a dry run took beside its tests; nothing where their clocks claim
    /// more than the whole.
    pub fn new(gross_ms: u64, net_ms: u64) -> (r: DryRunTiming)
        ensures
            r.net_ms == net_ms,
            r.overhead_ms == (if gross_ms >= net_ms {
                gross_ms - net_ms
            } else {
                0
            }),
    {
        let overhead_ms: u64 = if gross_ms >= net_ms {
            gross_ms - net_ms
        } else {
            0
        };
        DryRunTiming { net_ms, overhead_ms }
    }
}

/// What plans rest on.
pub struct PlanInput<'a> {
    pub coverage: Option<&'a MutantCoverage>,
    pub coverage_mode: CoverageAnalysis,
    pub test_runner: TestRunnerKind,
}

/// Whether a runner starts a fresh process for every mutant.
pub open spec fn one_shot(runner: TestRunnerKind) -> bool {
    runner is Command || runner is Bun
}

/// What a mutant needs to have run.
pub enum NeedView {
    /// Nothing: the result is known.
    Nothing(MutantStatus, Seq<char>),
    /// The full suite, where coverage does not tell.
    Everything,
    /// The full suite: the mutant runs at module load, so only a full fresh
    /// run can exercise it.
    Static,
    /// The tests that cover it.
    Tests(Seq<Seq<char>>),
}

/// What a mutant needs to have run.
pub open spec fn need_of(m: crate::instrument::MutantView, input: PlanInput<'_>) -> NeedView {
    match m.ignored {
        Some(reason) => NeedView::Nothing(MutantStatus::Ignored, reason),
        None => match input.coverage {
            None => NeedView::Everything,
            Some(coverage) => if input.coverage_mode is Off {
                NeedView::Everything
            } else if coverage.static_hits@.dom().contains(m.id) {
                NeedView::Static
            } else if coverage.covered(crate::model::MutantId(m.id)).len() == 0 {
                NeedView::Nothing(MutantStatus::NoCoverage, "No tests cover this mutant"@)
            } else {
                NeedView::Tests(coverage.covered(crate::model::MutantId(m.id)))
            },
        },
    }
}

/// The hits after which a mutant is stuck.
pub open spec fn limit_of(m: crate::instrument::MutantView, input: PlanInput<'_>) -> nat {
    match input.coverage {
        None => 0,
        Some(coverage) => {
            let hits = coverage.hits(crate::model::MutantId(m.id));
            HIT_LIMIT_FACTOR as nat * (if hits > 1 {
                hits
            } else {
                1
            })
        },
    }
}

/// Whether the plan of a mutant has a hit limit that does not fit 64 bits.
pub open spec fn oversized(m: crate::instrument::MutantView, input: PlanInput<'_>) -> bool {
    (need_of(m, input) is Static || need_of(m, input) is Tests) && limit_of(m, input) > u64::MAX
}

/// The timeout in effect.
pub open spec fn floored(timeout_ms: u64) -> u64 {
    if timeout_ms < SHORTEST_TIMEOUT {
        SHORTEST_TIMEOUT
    } else {
        timeout_ms
    }
}

/// The plan of a mutant, given what the time of the tests it needs allows.
pub open spec fn plan_of(
    m: crate::instrument::MutantView,
    input: PlanInput<'_>,
    timeout_ms: u64,
) -> crate::model::PlanView {
    let mutant = crate::model::MutantId(m.id);
    match need_of(m, input) {
        NeedView::Nothing(status, reason) => crate::model::PlanView::EarlyResult {
            mutant,
            status,
            reason,
        },
        NeedView::Everything => crate::model::PlanView::Run {
            mutant,
            test_filter: None,
            timeout: floored(timeout_ms),
            hit_limit: None,
            reload_environment: true,
        },
        NeedView::Static => crate::model::PlanView::Run {
            mutant,
            test_filter: None,
            timeout: floored(timeout_ms),
            hit_limit: Some(limit_of(m, input) as u64),
            reload_environment: true,
        },
        NeedView::Tests(tests) => crate::model::PlanView::Run {
            mutant,
            test_filter: Some(tests),
            timeout: floored(timeout_ms),
            hit_limit: Some(limit_of(m, input) as u64),
            reload_environment: one_shot(input.test_runner),
        },
    }
}

/// What a mutant needs to have run.
#[derive(Debug)]
pub enum Need {
    Nothing(MutantStatus, String),
    Everything,
    Static,
    Tests(Vec<TestId>),
}

impl Need {
    pub open spec fn view(&self) -> NeedView {
        match self {
            Need::Nothing(status, reason) => NeedView::Nothing(*status, reason@),
            Need::Everything => NeedView::Everything,
            Need::Static => NeedView::Static,
            Need::Tests(tests) => NeedView::Tests(crate::text::texts(tests@)),
        }
    }
}

fn own_texts(list: &Vec<&TestId>) -> (r: Vec<TestId>)
    ensures
        crate::text::texts(r@) == crate::model::ref_texts(list@),
{
    let ghost all = crate::model::ref_texts(list@);
    let mut out: Vec<TestId> = Vec::new();
    let mut i: usize = 0;
    proof {
        assert(crate::text::texts(out@) =~= all.take(0));
    }
    while i < list.len()
        invariant
            i <= list@.len(),
            all == crate::model::ref_texts(list@),
            crate::text::texts(out@) == all.take(i as int),
        decreases list@.len() - i,
    {
        let copy = copy_text(list[i].as_str());
        proof {
            crate::text::lemma_texts_push(out@, copy);
            assert(all[i as int] == list@[i as int]@);
            assert(all.take(i + 1) =~= all.take(i as int).push(copy@));
        }
        out.push(copy);
        i = i + 1;
    }
    proof {
        assert(all.take(list@.len() as int) =~= all);
    }
    out
}

/// What a mutant needs to have run.
pub fn need(mutant: &Mutant, input: &PlanInput<'_>) -> (r: Need)
    ensures
        r@ == need_of(mutant@, *input),
{
    if let Some(reason) = &mutant.ignored {
        return Need::Nothing(MutantStatus::Ignored, copy_text(reason.as_str()));
    }
    match input.coverage {
        None => Need::Everything,
        Some(coverage) => {
            if matches!(input.coverage_mode, CoverageAnalysis::Off) {
                return Need::Everything;
            }
            if coverage.is_static(mutant.id) {
                return Need::Static;
            }
            let covering = coverage.covering_tests(mutant.id);
            proof {
                assert(crate::model::ref_texts(covering@).len() == covering@.len());
                assert(mutant.id == crate::model::MutantId(mutant@.id));
            }
            if covering.len() == 0 {
                return Need::Nothing(
                    MutantStatus::NoCoverage,
                    copy_text("No tests cover this mutant"),
                );
            }
            Need::Tests(own_texts(&covering))
        },
    }
}

/// Whose times make up the net time of what a mutant needs.
#[derive(Debug)]
pub enum TimeBasis {
    /// No time is needed.
    Nothing,
    /// The whole suite.
    Suite,
    /// The tests at these indexes of the dry run.
    Tests(Vec<usize>),
}

/// The indexes of the listed tests among all tests, in order.
pub open spec fn places(tests: Seq<Seq<char>>, all: Seq<Seq<char>>) -> Seq<usize>
    decreases all.len(),
{
    if all.len() == 0 {
        Seq::empty()
    } else if tests.contains(all.last()) {
        places(tests, all.drop_last()).push((all.len() - 1) as usize)
    } else {
        places(tests, all.drop_last())
    }
}

/// Whose times make up the net time of what a mutant needs.
pub fn time_basis(need: &Need, tests: &Vec<TestId>) -> (r: TimeBasis)
    ensures
        match need@ {
            NeedView::Nothing(_, _) => r is Nothing,
            NeedView::Everything => r is Suite,
            NeedView::Static => r is Suite,
            NeedView::Tests(list) => r matches TimeBasis::Tests(at) && at@ == places(
                list,
                crate::text::texts(tests@),
            ),
        },
{
    match need {
        Need::Nothing(_, _) => TimeBasis::Nothing,
        Need::Everything => TimeBasis::Suite,
        Need::Static => TimeBasis::Suite,
        Need::Tests(list) => {
            let ghost wanted = crate::text::texts(list@);
            let ghost all = crate::text::texts(tests@);
            let mut out: Vec<usize> = Vec::new();
            let mut i: usize = 0;
            proof {
                assert(out@ =~= places(wanted, all.take(0)));
            }
            while i < tests.len()
                invariant
                    i <= tests@.len(),
                    wanted == crate::text::texts(list@),
                    all == crate::text::texts(tests@),
                    out@ == places(wanted, all.take(i as int)),
                decreases tests@.len() - i,
            {
                proof {
                    assert(all.take(i + 1).drop_last() =~= all.take(i as int));
                    assert(all.take(i + 1).last() == tests@[i as int]@);
                }
                if list_has(list, tests[i].as_str()) {
                    out.push(i);
                }
                i = i + 1;
            }
            proof {
                assert(all.take(tests@.len() as int) =~= all);
            }
            TimeBasis::Tests(out)
        },
    }
}

/// The plan of a mutant, given what the time of the tests it needs allows;
/// nothing where its hit limit does not fit 64 bits.
pub fn plan_one(mutant: &Mutant, input: &PlanInput<'_>, timeout_ms: u64) -> (r: Option<
    MutantTestPlan,
>)
    ensures
        match r {
            Some(plan) => !oversized(mutant@, *input) && plan@ == plan_of(
                mutant@,
                *input,
                timeout_ms,
            ),
            None => oversized(mutant@, *input),
        },
{
    let timeout: u64 = if timeout_ms < SHORTEST_TIMEOUT {
        SHORTEST_TIMEOUT
    } else {
        timeout_ms
    };
    let hit_limit = match input.coverage {
        None => None,
        Some(coverage) => match coverage.checked_hits(mutant.id) {
            None => None,
            Some(hits) => {
                let counted: u64 = if hits > 1 {
                    hits
                } else {
                    1
                };
                if counted > u64::MAX / HIT_LIMIT_FACTOR {
                    None
                } else {
                    Some(counted * HIT_LIMIT_FACTOR)
                }
            },
        },
    };
    match need(mutant, input) {
        Need::Nothing(status, reason) => Some(
            MutantTestPlan::EarlyResult { mutant: mutant.id, status, reason },
        ),
        Need::Everything => Some(
            MutantTestPlan::Run {
                mutant: mutant.id,
                test_filter: None,
                timeout,
                hit_limit: None,
                reload_environment: true,
            },
        ),
        Need::Static => match hit_limit {
            None => None,
            Some(limit) => Some(
                MutantTestPlan::Run {
                    mutant: mutant.id,
                    test_filter: None,
                    timeout,
                    hit_limit: Some(limit),
                    reload_environment: true,
                },
            ),
        },
        Need::Tests(tests) => match hit_limit {
            None => None,
            Some(limit) => Some(
                MutantTestPlan::Run {
                    mutant: mutant.id,
                    test_filter: Some(tests),
                    timeout,
                    hit_limit: Some(limit),
                    reload_environment: matches!(
                        input.test_runner,
                        TestRunnerKind::Command | TestRunnerKind::Bun
                    ),
                },
            ),
        },
    }
}

/// The plans of a list of mutants.
pub open spec fn plans_of(
    mutants: Seq<crate::instrument::MutantView>,
    input: PlanInput<'_>,
    timeouts: Seq<u64>,
) -> Seq<crate::model::PlanView> {
    mutants.map(|i: int, m: crate::instrument::MutantView| plan_of(m, input, timeouts[i]))
}

/// The plans of a list of mutants, given for each what the time of the tests it
/// needs allows; nothing where a hit limit does not fit 64 bits.
pub fn plan_mutants(mutants: &Vec<Mutant>, input: &PlanInput<'_>, timeouts: &Vec<u64>) -> (r: Option<
    Vec<MutantTestPlan>,
>)
    requires
        mutants@.len() == timeouts@.len(),
    ensures
        match r {
            Some(plans) => crate::model::plan_views(plans@) == plans_of(
                crate::instrument::mutant_views(mutants@),
                *input,
                timeouts@,
            ) && forall|i: int| 0 <= i < mutants@.len() ==> !oversized((#[trigger] mutants@[i])@, *input),
            None => exists|i: int|
                0 <= i < mutants@.len() && oversized((#[trigger] mutants@[i])@, *input),
        },
{
    let ghost all = plans_of(crate::instrument::mutant_views(mutants@), *input, timeouts@);
    let mut out: Vec<MutantTestPlan> = Vec::new();
    let mut i: usize = 0;
    proof {
        assert(crate::model::plan_views(out@) =~= all.take(0));
    }
    while i < mutants.len()
        invariant
            i <= mutants@.len() == timeouts@.len(),
            all == plans_of(crate::instrument::mutant_views(mutants@), *input, timeouts@),
            crate::model::plan_views(out@) == all.take(i as int),
            forall|k: int| 0 <= k < i ==> !oversized((#[trigger] mutants@[k])@, *input),
        decreases mutants@.len() - i,
    {
        match plan_one(&mutants[i], input, timeouts[i]) {
            Some(plan) => {
                let ghost before = out@;
                out.push(plan);
                proof {
                    assert(crate::model::plan_views(out@) =~= crate::model::plan_views(
                        before,
                    ).push(plan@));
                    assert(all[i as int] == plan@);
                    assert(all.take(i + 1) =~= all.take(i as int).push(plan@));
                }
            },
            None => {
                proof {
                    assert(oversized(mutants@[i as int]@, *input));
                }
                return None;
            },
        }
        i = i + 1;
    }
    proof {
        assert(all.take(mutants@.len() as int) =~= all);
    }
    Some(out)
}

/// Ignored mutants are never run.
pub proof fn law_ignored_mutants_never_run(
    m: crate::instrument::MutantView,
    input: PlanInput<'_>,
    timeout_ms: u64,
)
    requires
        m.ignored is Some,
    ensures
        plan_of(m, input, timeout_ms) == (crate::model::PlanView::EarlyResult {
            mutant: crate::model::MutantId(m.id),
            status: MutantStatus::Ignored,
            reason: m.ignored->0,
        }),
{
}

/// A plan tests its own mutant, with at least the shortest timeout, and runs
/// only tests that cover it.
pub proof fn law_plans_cover_their_mutant(
    m: crate::instrument::MutantView,
    input: PlanInput<'_>,
    timeout_ms: u64,
)
    ensures
        plan_of(m, input, timeout_ms).id().0 == m.id,
        plan_of(m, input, timeout_ms) matches crate::model::PlanView::Run {
            test_filter,
            timeout,
            ..
        } ==> {
            &&& timeout >= SHORTEST_TIMEOUT
            &&& test_filter matches Some(tests) ==> tests.len() > 0 && input.coverage is Some
                && tests == input.coverage->0.covered(crate::model::MutantId(m.id))
        },
{
}

/// Whether some test covers a mutant.
pub open spec fn is_tested(coverage: MutantCoverage, id: u32) -> bool {
    exists|t: Seq<char>| #[trigger]
        coverage.per_test@.contains_key(t) && coverage.per_test@[t]@.contains_key(id)
}

/// A mutant that is not ignored is planned by its coverage alone. Without it, and
/// where it was hit outside the tests, the whole suite runs; where tests cover
/// it, those do; where none does, nothing. The limit of hits is a hundred times
/// what was seen, and the timeout at least a second.
pub proof fn law_coverage_decides_the_plan(
    m: crate::instrument::MutantView,
    input: PlanInput<'_>,
    timeout_ms: u64,
    test: Seq<char>,
)
    requires
        m.ignored is None,
        !oversized(m, input),
        input.coverage matches Some(c) ==> crate::text_order::ascending(c.per_test.keys()),
    ensures
        ({
            let plan = plan_of(m, input, timeout_ms);
            let wait = if timeout_ms >= 1000 {
                timeout_ms
            } else {
                1000
            };
            let mutant = crate::model::MutantId(m.id);
            if input.coverage is None || input.coverage_mode == CoverageAnalysis::Off {
                plan == (crate::model::PlanView::Run {
                    mutant,
                    test_filter: None,
                    timeout: wait,
                    hit_limit: None,
                    reload_environment: true,
                })
            } else {
                let coverage = *input.coverage->0;
                let hits = coverage.hits(mutant);
                let limit = 100 * (if hits == 0 {
                    1
                } else {
                    hits as int
                });
                if coverage.static_hits@.contains_key(m.id) {
                    plan == (crate::model::PlanView::Run {
                        mutant,
                        test_filter: None,
                        timeout: wait,
                        hit_limit: Some(limit as u64),
                        reload_environment: true,
                    }) && limit <= u64::MAX
                } else if is_tested(coverage, m.id) {
                    &&& plan is Run
                    &&& plan->test_filter is Some
                    &&& plan->test_filter->0.contains(test) <==> coverage.per_test@.contains_key(
                        test,
                    ) && coverage.per_test@[test]@.contains_key(m.id)
                    &&& plan->timeout == wait
                    &&& plan->hit_limit == Some(limit as u64)
                    &&& limit <= u64::MAX
                    &&& plan->reload_environment <==> input.test_runner == TestRunnerKind::Command
                        || input.test_runner == TestRunnerKind::Bun
                } else {
                    plan == (crate::model::PlanView::EarlyResult {
                        mutant,
                        status: MutantStatus::NoCoverage,
                        reason: "No tests cover this mutant"@,
                    })
                }
            }
        }),
{
    if input.coverage is Some {
        let coverage = *input.coverage->0;
        let id = crate::model::MutantId(m.id);
        crate::model::law_covering_tests_hit_the_mutant(coverage, id, test);
        if is_tested(coverage, m.id) {
            let t = choose|t: Seq<char>| #[trigger]
                coverage.per_test@.contains_key(t) && coverage.per_test@[t]@.contains_key(m.id);
            crate::model::law_covering_tests_hit_the_mutant(coverage, id, t);
        } else if coverage.covered(id).len() > 0 {
            let t = coverage.covered(id)[0];
            assert(coverage.covered(id).contains(t));
            crate::model::law_covering_tests_hit_the_mutant(coverage, id, t);
            assert(coverage.per_test@.contains_key(t));
        }
    }
}

/// The time of a mutant is that of the tests that are chosen for it: an index is
/// given exactly where the test there is one of them, and indexes ascend.
pub proof fn law_places_are_those_of_the_tests(tests: Seq<Seq<char>>, all: Seq<Seq<char>>)
    requires
        all.len() <= usize::MAX,
    ensures
        forall|i: int|
            0 <= i < all.len() ==> (places(tests, all).contains(i as usize) <==> tests.contains(
                #[trigger] all[i],
            )),
        forall|k: int|
            0 <= k < places(tests, all).len() ==> (#[trigger] places(tests, all)[k]) < all.len(),
        forall|j: int, k: int|
            0 <= j < k < places(tests, all).len() ==> (#[trigger] places(tests, all)[j]) < (
            #[trigger] places(tests, all)[k]),
    decreases all.len(),
{
    if all.len() > 0 {
        let before = all.drop_last();
        let front = places(tests, before);
        let now = places(tests, all);
        law_places_are_those_of_the_tests(tests, before);
        assert forall|i: int| 0 <= i < all.len() implies (now.contains(i as usize)
            <==> tests.contains(#[trigger] all[i])) by {
            if i < before.len() {
                assert(before[i] == all[i]);
                if front.contains(i as usize) {
                    let k = front.index_of(i as usize);
                    assert(now[k] == i as usize);
                }
                if now.contains(i as usize) {
                    let k = now.index_of(i as usize);
                    assert(k < front.len());
                    assert(front[k] == i as usize);
                }
            } else {
                if tests.contains(all.last()) {
                    assert(now[now.len() - 1] == i as usize);
                } else if now.contains(i as usize) {
                    let k = now.index_of(i as usize);
                    assert(front[k] < before.len());
                }
            }
        }
    }
}

/// Every mutant has one plan, in the order of the mutants, from its own timeout.
pub proof fn law_every_mutant_is_planned(
    mutants: Seq<crate::instrument::MutantView>,
    input: PlanInput<'_>,
    timeouts: Seq<u64>,
    i: int,
)
    requires
        0 <= i < mutants.len() == timeouts.len(),
    ensures
        plans_of(mutants, input, timeouts).len() == mutants.len(),
        plans_of(mutants, input, timeouts)[i].id().0 == mutants[i].id,
        plans_of(mutants, input, timeouts)[i] matches crate::model::PlanView::Run { timeout, .. }
            ==> timeout == timeouts[i] || (timeout == 1000 && timeouts[i] < 1000),
{
}

} // verus!
