//! Composite runner: one mutant, several test runtimes.
//!
//! Some repos have source files covered by both bun:test suites and vitest
//! (workers) suites. The composite runner performs a dry run on every
//! sub-runner, remembers which runner owns which test id, and routes each
//! mutant's covering tests to their owners. A mutant survives only if it
//! survives every runtime.
use vstd::prelude::*;

use crate::coverage::merge_coverage;
use crate::model::MutantCoverage;
use crate::model::TestId;
use crate::runners::Capabilities;
use crate::runners::DryRunResult;
use crate::runners::MutantRunOutcome;
use crate::runners::TestResult;
use crate::text::concat3;
use crate::text::copy_text;
use crate::text::number;
use crate::text_map::TextMap;

verus! {

/// Which runner owns which test id, learned during the dry run. One per run:
/// the dry run happens on one runner instance while mutants execute on fresh
/// per-worker instances.
pub struct SharedOwnership {
    owner: TextMap<usize>,
}

/// Nobody owns a test yet.
pub fn shared_ownership() -> (r: SharedOwnership)
    ensures
        r@ == Map::<Seq<char>, usize>::empty(),
{
    SharedOwnership { owner: TextMap::new() }
}

/// A test id that two runners produced.
#[derive(Debug)]
pub struct Overlap {
    pub test: String,
    pub first: usize,
    pub second: usize,
}

/// The owners after a runner claims the first tests of a list, and the first
/// test that another runner has claimed already.
pub open spec fn claimed(owner: Map<Seq<char>, usize>, ids: Seq<Seq<char>>, index: usize) -> Result<
    Map<Seq<char>, usize>,
    (Seq<char>, usize),
>
    decreases ids.len(),
{
    if ids.len() == 0 {
        Ok(owner)
    } else {
        match claimed(owner, ids.drop_last(), index) {
            Ok(m) => if m.contains_key(ids.last()) && m[ids.last()] != index {
                Err((ids.last(), m[ids.last()]))
            } else {
                Ok(m.insert(ids.last(), index))
            },
            Err(e) => Err(e),
        }
    }
}

/// The ids of a list of tests.
pub open spec fn ids_of(tests: Seq<crate::runners::TestResultView>) -> Seq<Seq<char>> {
    tests.map_values(|t: crate::runners::TestResultView| t.id)
}

proof fn lemma_claim_fails(owner: Map<Seq<char>, usize>, ids: Seq<Seq<char>>, index: usize, i: int)
    requires
        0 <= i <= ids.len(),
        claimed(owner, ids.take(i), index) is Err,
    ensures
        claimed(owner, ids, index) == claimed(owner, ids.take(i), index),
    decreases ids.len() - i,
{
    if i == ids.len() {
        assert(ids.take(i) =~= ids);
    } else {
        assert(ids.take(i + 1).drop_last() =~= ids.take(i));
        lemma_claim_fails(owner, ids, index, i + 1);
    }
}

/// Who owns a test after a claim: the runner gets the tests one after the other,
/// up to the first that another runner owns, and that one too.
pub open spec fn owners_after(
    owner: Map<Seq<char>, usize>,
    ids: Seq<Seq<char>>,
    index: usize,
) -> Map<Seq<char>, usize>
    decreases ids.len(),
{
    if ids.len() == 0 {
        owner
    } else {
        match claimed(owner, ids.drop_last(), index) {
            Ok(m) => m.insert(ids.last(), index),
            Err(_) => owners_after(owner, ids.drop_last(), index),
        }
    }
}

proof fn lemma_owners_stay(
    owner: Map<Seq<char>, usize>,
    ids: Seq<Seq<char>>,
    index: usize,
    i: int,
)
    requires
        0 <= i <= ids.len(),
        claimed(owner, ids.take(i), index) is Err,
    ensures
        owners_after(owner, ids, index) == owners_after(owner, ids.take(i), index),
    decreases ids.len() - i,
{
    if i == ids.len() {
        assert(ids.take(i) =~= ids);
    } else {
        assert(ids.take(i + 1).drop_last() =~= ids.take(i));
        lemma_owners_stay(owner, ids, index, i + 1);
    }
}

impl SharedOwnership {
    /// The owner of every test.
    pub closed spec fn view(&self) -> Map<Seq<char>, usize> {
        self.owner@
    }

    /// Notes that the tests belong to the runner `index`.
    pub fn claim(&mut self, tests: &Vec<TestResult>, index: usize) -> (r: Result<(), Overlap>)
        ensures
            match r {
                Ok(_) => claimed(
                    old(self)@,
                    ids_of(crate::runners::test_views(tests@)),
                    index,
                ) == Ok::<Map<Seq<char>, usize>, (Seq<char>, usize)>(final(self)@),
                Err(e) => e.second == index && claimed(
                    old(self)@,
                    ids_of(crate::runners::test_views(tests@)),
                    index,
                ) == Err::<Map<Seq<char>, usize>, (Seq<char>, usize)>((e.test@, e.first)),
            },
            final(self)@ == owners_after(
                old(self)@,
                ids_of(crate::runners::test_views(tests@)),
                index,
            ),
    {
        let ghost begun = self@;
        let ghost ids = ids_of(crate::runners::test_views(tests@));
        let mut i: usize = 0;
        proof {
            assert(ids.take(0) =~= Seq::<Seq<char>>::empty());
        }
        while i < tests.len()
            invariant
                i <= tests@.len(),
                begun == old(self)@,
                ids == ids_of(crate::runners::test_views(tests@)),
                claimed(begun, ids.take(i as int), index) == Ok::<
                    Map<Seq<char>, usize>,
                    (Seq<char>, usize),
                >(self.owner@),
            decreases tests@.len() - i,
        {
            let id = tests[i].id.as_str();
            proof {
                assert(ids.take(i + 1).drop_last() =~= ids.take(i as int));
                assert(ids.take(i + 1).last() == id@);
            }
            let previous: Option<usize> = match self.owner.get(id) {
                Some(first) => Some(*first),
                None => None,
            };
            self.owner.insert(copy_text(id), index);
            if let Some(first) = previous {
                if first != index {
                    proof {
                        lemma_claim_fails(begun, ids, index, i + 1);
                        lemma_owners_stay(begun, ids, index, i + 1);
                    }
                    return Err(Overlap { test: copy_text(id), first, second: index });
                }
            }
            i = i + 1;
        }
        proof {
            assert(ids.take(tests@.len() as int) =~= ids);
        }
        Ok(())
    }

    /// The owner of a test.
    pub fn owner_of(&self, test: &str) -> (r: Option<usize>)
        ensures
            match r {
                Some(index) => self@.contains_key(test@) && self@[test@] == index,
                None => !self@.contains_key(test@),
            },
    {
        match self.owner.get(test) {
            Some(index) => Some(*index),
            None => None,
        }
    }
}

/// After a claim every test of the list belongs to the runner, and no other
/// test changed hands.
pub proof fn law_claims_hold(owner: Map<Seq<char>, usize>, ids: Seq<Seq<char>>, index: usize)
    ensures
        claimed(owner, ids, index) matches Ok(m) ==> {
            &&& owners_after(owner, ids, index) == m
            &&& forall|i: int|
                0 <= i < ids.len() ==> m.contains_key(#[trigger] ids[i]) && m[ids[i]] == index
            &&& forall|t: Seq<char>| #[trigger]
                owner.contains_key(t) ==> m.contains_key(t) && m[t] == owner[t]
        },
    decreases ids.len(),
{
    if ids.len() > 0 {
        law_claims_hold(owner, ids.drop_last(), index);
        match claimed(owner, ids.drop_last(), index) {
            Ok(m) => {
                let all = m.insert(ids.last(), index);
                if claimed(owner, ids, index) is Ok {
                    assert forall|i: int| 0 <= i < ids.len() implies all.contains_key(
                        #[trigger] ids[i],
                    ) && all[ids[i]] == index by {
                        if i < ids.len() - 1 {
                            assert(ids.drop_last()[i] == ids[i]);
                        }
                    }
                }
            },
            Err(_) => {},
        }
    }
}

impl Overlap {
    /// The error in words.
    pub open spec fn words(self) -> Seq<char> {
        "test id "@ + crate::text::quoted(self.test@) + " produced by two runners ("@
            + crate::text::decimal(self.first as nat) + " and "@ + crate::text::decimal(
            self.second as nat,
        ) + "); scope each runner's test files so they don't overlap"@
    }

    /// The error in words.
    pub fn message(&self) -> (r: String)
        ensures
            r@ == self.words(),
    {
        let mut out = concat3(
            "test id ",
            crate::text::quote(self.test.as_str()).as_str(),
            " produced by two runners (",
        );
        out.append(number(self.first as u64).as_str());
        out.append(" and ");
        out.append(number(self.second as u64).as_str());
        out.append("); scope each runner's test files so they don't overlap");
        out
    }
}

/// Whether all runners observe single tests.
pub open spec fn all_per_test(runners: Seq<Capabilities>) -> bool {
    forall|i: int| 0 <= i < runners.len() ==> (#[trigger] runners[i]).per_test_coverage
}

/// The composite runner observes single tests where all its runners do.
pub fn capabilities(runners: &Vec<Capabilities>) -> (r: Capabilities)
    ensures
        r.per_test_coverage == all_per_test(runners@),
{
    let mut i: usize = 0;
    while i < runners.len()
        invariant
            i <= runners@.len(),
            forall|k: int| 0 <= k < i ==> (#[trigger] runners@[k]).per_test_coverage,
        decreases runners@.len() - i,
    {
        if !runners[i].per_test_coverage {
            return Capabilities { per_test_coverage: false };
        }
        i = i + 1;
    }
    Capabilities { per_test_coverage: true }
}

// ---- dry run ----

/// What the runners that have run gave together.
pub struct CompositeDryRun {
    pub tests: Vec<TestResult>,
    pub coverage: Option<MutantCoverage>,
    pub gross_ms: u64,
}

/// The mathematical value of `CompositeDryRun`.
pub struct CompositeDryRunView {
    pub tests: Seq<crate::runners::TestResultView>,
    pub coverage: Option<crate::model::CoverageView>,
    pub gross_ms: u64,
}

/// The value of optional coverage.
pub open spec fn opt_coverage(c: Option<MutantCoverage>) -> Option<crate::model::CoverageView> {
    match c {
        Some(c) => Some(c@),
        None => None,
    }
}

impl CompositeDryRun {
    pub open spec fn view(&self) -> CompositeDryRunView {
        CompositeDryRunView {
            tests: crate::runners::test_views(self.tests@),
            coverage: opt_coverage(self.coverage),
            gross_ms: self.gross_ms,
        }
    }
}

/// Where a composite dry run stands after the result of one runner.
pub enum DryRunStep {
    /// The next runner has its turn.
    Going(CompositeDryRun),
    /// All is said.
    Done(DryRunResult),
    /// Two runners produced one test.
    Overlapping(Overlap),
    /// A counter does not fit its 64 bits.
    Overflow,
}

/// The coverage of two runs together, where one of them may have none.
pub open spec fn joint_coverage(
    a: Option<crate::model::CoverageView>,
    b: Option<crate::model::CoverageView>,
) -> Option<crate::model::CoverageView> {
    match b {
        None => a,
        Some(more) => Some(
            crate::coverage::merged(
                match a {
                    Some(have) => have,
                    None => crate::coverage::no_coverage(),
                },
                more,
            ),
        ),
    }
}

/// Whether the counters of two runs together fit.
pub open spec fn joint_fits(
    a: Option<crate::model::CoverageView>,
    b: Option<crate::model::CoverageView>,
) -> bool {
    match b {
        None => true,
        Some(more) => crate::coverage::merge_fits(
            match a {
                Some(have) => have,
                None => crate::coverage::no_coverage(),
            },
            more,
        ),
    }
}

impl CompositeDryRun {
    /// No runner has run yet.
    pub fn new() -> (r: CompositeDryRun)
        ensures
            r@ == (CompositeDryRunView { tests: Seq::empty(), coverage: None, gross_ms: 0 }),
    {
        let r = CompositeDryRun { tests: Vec::new(), coverage: None, gross_ms: 0 };
        proof {
            assert(r@.tests =~= Seq::<crate::runners::TestResultView>::empty());
        }
        r
    }

    /// Takes in the result of the runner `index`.
    pub fn absorb(self, index: usize, result: DryRunResult, owner: &mut SharedOwnership) -> (r:
        DryRunStep)
        ensures
            match result {
                DryRunResult::Timeout => r == DryRunStep::Done(DryRunResult::Timeout),
                DryRunResult::Error(message) => {
                    r matches DryRunStep::Done(DryRunResult::Error(text)) && text@ == "runner "@
                        + crate::text::decimal(index as nat) + ": "@ + message@
                },
                DryRunResult::Complete { tests, coverage, gross_ms } => {
                    let ids = ids_of(crate::runners::test_views(tests@));
                    match claimed(old(owner)@, ids, index) {
                        Err((test, first)) => r matches DryRunStep::Overlapping(e) && e.test@ == test
                            && e.first == first && e.second == index,
                        Ok(_) => {
                            if self.gross_ms + gross_ms > u64::MAX || !joint_fits(
                                self@.coverage,
                                opt_coverage(coverage),
                            ) {
                                r is Overflow
                            } else {
                                r matches DryRunStep::Going(next) && next@ == (CompositeDryRunView {
                                    tests: self@.tests + crate::runners::test_views(tests@),
                                    coverage: joint_coverage(
                                        self@.coverage,
                                        opt_coverage(coverage),
                                    ),
                                    gross_ms: (self.gross_ms + gross_ms) as u64,
                                })
                            }
                        },
                    }
                },
            },
            final(owner)@ == (match result {
                DryRunResult::Complete { tests, .. } => owners_after(
                    old(owner)@,
                    ids_of(crate::runners::test_views(tests@)),
                    index,
                ),
                _ => old(owner)@,
            }),
    {
        match result {
            DryRunResult::Timeout => DryRunStep::Done(DryRunResult::Timeout),
            DryRunResult::Error(message) => {
                let mut text = concat3("runner ", number(index as u64).as_str(), ": ");
                text.append(message.as_str());
                DryRunStep::Done(DryRunResult::Error(text))
            },
            DryRunResult::Complete { tests, coverage, gross_ms } => {
                match owner.claim(&tests, index) {
                    Err(e) => {
                        return DryRunStep::Overlapping(e);
                    },
                    Ok(_) => {},
                }
                let gross: u64 = match self.gross_ms.checked_add(gross_ms) {
                    Some(gross) => gross,
                    None => {
                        return DryRunStep::Overflow;
                    },
                };
                let joint = match coverage {
                    None => self.coverage,
                    Some(more) => {
                        let have = match self.coverage {
                            Some(have) => have,
                            None => {
                                let empty = MutantCoverage::new();
                                proof {
                                    assert(empty@.per_test =~= crate::coverage::no_coverage().per_test);
                                    assert(empty@ == crate::coverage::no_coverage());
                                }
                                empty
                            },
                        };
                        match merge_coverage(have, &more) {
                            Some(all) => Some(all),
                            None => {
                                return DryRunStep::Overflow;
                            },
                        }
                    },
                };
                let ghost before = self.tests@;
                let ghost added = tests@;
                let mut all = self.tests;
                let mut tests = tests;
                all.append(&mut tests);
                proof {
                    assert(crate::runners::test_views(all@) =~= crate::runners::test_views(before)
                        + crate::runners::test_views(added));
                }
                DryRunStep::Going(CompositeDryRun { tests: all, coverage: joint, gross_ms: gross })
            },
        }
    }

    /// What all runners gave together.
    pub fn finish(self) -> (r: DryRunResult)
        ensures
            r@ == (crate::runners::DryRunView::Complete {
                tests: self@.tests,
                coverage: self@.coverage,
                gross_ms: self.gross_ms,
            }),
    {
        DryRunResult::Complete {
            tests: self.tests,
            coverage: self.coverage,
            gross_ms: self.gross_ms,
        }
    }
}

// ---- mutant runs ----

/// The tests of a filter that a runner owns, in order.
pub open spec fn owned_by(
    filter: Seq<Seq<char>>,
    owner: Map<Seq<char>, usize>,
    index: int,
) -> Seq<Seq<char>>
    decreases filter.len(),
{
    if filter.len() == 0 {
        Seq::empty()
    } else {
        let front = owned_by(filter.drop_last(), owner, index);
        let test = filter.last();
        if owner.contains_key(test) && owner[test] == index {
            front.push(test)
        } else {
            front
        }
    }
}

/// What the runner `index` is asked to run: its own tests of a filter, or all
/// its tests where there is no filter.
pub open spec fn share_of(
    filter: Option<Seq<Seq<char>>>,
    owner: Map<Seq<char>, usize>,
    index: int,
) -> Option<Seq<Seq<char>>> {
    match filter {
        None => None,
        Some(filter) => Some(owned_by(filter, owner, index)),
    }
}

/// What the runner `index` is asked to run. Tests that nobody owns are left out.
pub fn share(filter: &Option<Vec<TestId>>, owner: &SharedOwnership, index: usize) -> (r: Option<
    Vec<TestId>,
>)
    ensures
        crate::text::opt_texts(r) == share_of(
            crate::text::opt_texts(*filter),
            owner@,
            index as int,
        ),
{
    match filter {
        None => None,
        Some(filter) => {
            let ghost all = crate::text::texts(filter@);
            let mut out: Vec<TestId> = Vec::new();
            let mut i: usize = 0;
            proof {
                assert(crate::text::texts(out@) =~= owned_by(all.take(0), owner@, index as int));
            }
            while i < filter.len()
                invariant
                    i <= filter@.len(),
                    all == crate::text::texts(filter@),
                    crate::text::texts(out@) == owned_by(
                        all.take(i as int),
                        owner@,
                        index as int,
                    ),
                decreases filter@.len() - i,
            {
                let test = filter[i].as_str();
                proof {
                    assert(all.take(i + 1).drop_last() =~= all.take(i as int));
                    assert(all.take(i + 1).last() == test@);
                }
                let mine = match owner.owner_of(test) {
                    Some(who) => who == index,
                    None => false,
                };
                if mine {
                    let copy = copy_text(test);
                    proof {
                        crate::text::lemma_texts_push(out@, copy);
                    }
                    out.push(copy);
                }
                i = i + 1;
            }
            proof {
                assert(all.take(filter@.len() as int) =~= all);
            }
            Some(out)
        },
    }
}

/// Whether a runner has nothing to run: there is a filter, and it owns none of
/// its tests.
pub fn is_idle(share: &Option<Vec<TestId>>) -> (r: bool)
    ensures
        r == (share matches Some(tests) && tests@.len() == 0),
{
    match share {
        Some(tests) => tests.len() == 0,
        None => false,
    }
}

/// What the runtimes that have run said about a mutant they did not kill.
#[derive(Debug)]
pub struct CompositeRun {
    pub tests_ran: u32,
    pub timeout: Option<Option<String>>,
    pub error: Option<String>,
}

/// The mathematical value of `CompositeRun`.
pub struct CompositeRunView {
    pub tests_ran: u32,
    pub timeout: Option<Option<Seq<char>>>,
    pub error: Option<Seq<char>>,
}

impl CompositeRun {
    pub open spec fn view(&self) -> CompositeRunView {
        CompositeRunView {
            tests_ran: self.tests_ran,
            timeout: match self.timeout {
                Some(reason) => Some(crate::text::opt_text(reason)),
                None => None,
            },
            error: crate::text::opt_text(self.error),
        }
    }
}

/// The tests that an outcome counts.
pub open spec fn tests_in(o: crate::runners::OutcomeView) -> nat {
    match o {
        crate::runners::OutcomeView::Killed { tests_ran, .. } => tests_ran as nat,
        crate::runners::OutcomeView::Survived { tests_ran } => tests_ran as nat,
        _ => 0,
    }
}

/// Where a mutant stands after one more runtime.
pub enum RunStepView {
    Going(CompositeRunView),
    Decided(crate::runners::OutcomeView),
}

/// One more runtime: a kill decides the mutant.
pub open spec fn after_outcome(run: CompositeRunView, o: crate::runners::OutcomeView) -> RunStepView {
    match o {
        crate::runners::OutcomeView::Killed { killed_by, tests_ran, failure } => RunStepView::Decided(
            crate::runners::OutcomeView::Killed {
                killed_by,
                tests_ran: (run.tests_ran + tests_ran) as u32,
                failure,
            },
        ),
        crate::runners::OutcomeView::Survived { tests_ran } => RunStepView::Going(
            CompositeRunView { tests_ran: (run.tests_ran + tests_ran) as u32, ..run },
        ),
        crate::runners::OutcomeView::Timeout { reason } => RunStepView::Going(
            CompositeRunView { timeout: Some(reason), ..run },
        ),
        crate::runners::OutcomeView::Error(message) => RunStepView::Going(
            CompositeRunView { error: Some(message), ..run },
        ),
    }
}

/// What all runtimes together say about a mutant that none of them killed.
pub open spec fn conclusion(run: CompositeRunView) -> crate::runners::OutcomeView {
    match run.timeout {
        Some(reason) => crate::runners::OutcomeView::Timeout { reason },
        None => match run.error {
            Some(message) => crate::runners::OutcomeView::Error(message),
            None => crate::runners::OutcomeView::Survived { tests_ran: run.tests_ran },
        },
    }
}

/// Where a mutant stands after one more runtime.
#[derive(Debug)]
pub enum RunStep {
    Going(CompositeRun),
    Decided(MutantRunOutcome),
}

impl RunStep {
    pub open spec fn view(&self) -> RunStepView {
        match self {
            RunStep::Going(run) => RunStepView::Going(run@),
            RunStep::Decided(o) => RunStepView::Decided(o@),
        }
    }
}

impl CompositeRun {
    /// No runtime has run yet.
    pub fn new() -> (r: CompositeRun)
        ensures
            r@ == (CompositeRunView { tests_ran: 0, timeout: None, error: None }),
    {
        CompositeRun { tests_ran: 0, timeout: None, error: None }
    }

    /// Whether one more outcome leaves the count of tests within its 32 bits.
    pub fn has_room(&self, outcome: &MutantRunOutcome) -> (r: bool)
        ensures
            r == (self.tests_ran + tests_in(outcome@) <= u32::MAX),
    {
        match outcome {
            MutantRunOutcome::Killed { tests_ran, .. } => *tests_ran <= u32::MAX - self.tests_ran,
            MutantRunOutcome::Survived { tests_ran } => *tests_ran <= u32::MAX - self.tests_ran,
            _ => true,
        }
    }

    /// Takes in the outcome of one more runtime.
    pub fn absorb(self, outcome: MutantRunOutcome) -> (r: RunStep)
        requires
            self.tests_ran + tests_in(outcome@) <= u32::MAX,
        ensures
            r@ == after_outcome(self@, outcome@),
    {
        match outcome {
            MutantRunOutcome::Killed { killed_by, tests_ran, failure } => RunStep::Decided(
                MutantRunOutcome::Killed {
                    killed_by,
                    tests_ran: self.tests_ran + tests_ran,
                    failure,
                },
            ),
            MutantRunOutcome::Survived { tests_ran } => RunStep::Going(
                CompositeRun {
                    tests_ran: self.tests_ran + tests_ran,
                    timeout: self.timeout,
                    error: self.error,
                },
            ),
            MutantRunOutcome::Timeout { reason } => RunStep::Going(
                CompositeRun {
                    tests_ran: self.tests_ran,
                    timeout: Some(reason),
                    error: self.error,
                },
            ),
            MutantRunOutcome::Error(message) => RunStep::Going(
                CompositeRun {
                    tests_ran: self.tests_ran,
                    timeout: self.timeout,
                    error: Some(message),
                },
            ),
        }
    }

    /// What all runtimes together say about a mutant that none of them killed.
    pub fn finish(self) -> (r: MutantRunOutcome)
        ensures
            r@ == conclusion(self@),
    {
        match self.timeout {
            Some(reason) => MutantRunOutcome::Timeout { reason },
            None => match self.error {
                Some(message) => MutantRunOutcome::Error(message),
                None => MutantRunOutcome::Survived { tests_ran: self.tests_ran },
            },
        }
    }
}

/// What a list of runtimes, in order, says about a mutant.
pub open spec fn verdict_from(run: CompositeRunView, outcomes: Seq<crate::runners::OutcomeView>) -> crate::runners::OutcomeView
    decreases outcomes.len(),
{
    if outcomes.len() == 0 {
        conclusion(run)
    } else {
        match after_outcome(run, outcomes[0]) {
            RunStepView::Decided(o) => o,
            RunStepView::Going(next) => verdict_from(next, outcomes.skip(1)),
        }
    }
}

/// Nothing has been heard of a mutant yet.
pub open spec fn fresh_run() -> CompositeRunView {
    CompositeRunView { tests_ran: 0, timeout: None, error: None }
}

proof fn lemma_verdict(run: CompositeRunView, outcomes: Seq<crate::runners::OutcomeView>)
    ensures
        verdict_from(run, outcomes) is Survived <==> run.timeout is None && run.error is None
            && forall|i: int| 0 <= i < outcomes.len() ==> (#[trigger] outcomes[i]) is Survived,
        verdict_from(run, outcomes) is Killed <==> exists|i: int|
            0 <= i < outcomes.len() && (#[trigger] outcomes[i]) is Killed,
    decreases outcomes.len(),
{
    if outcomes.len() > 0 {
        let rest = outcomes.skip(1);
        assert forall|i: int| 0 <= i < rest.len() implies rest[i] == #[trigger] outcomes[i + 1] by {}
        match after_outcome(run, outcomes[0]) {
            RunStepView::Decided(_) => {
                assert(outcomes[0] is Killed);
            },
            RunStepView::Going(next) => {
                lemma_verdict(next, rest);
                if forall|i: int| 0 <= i < rest.len() ==> (#[trigger] rest[i]) is Survived {
                    assert forall|i: int| 1 <= i < outcomes.len() implies (
                    #[trigger] outcomes[i]) is Survived by {
                        assert(rest[i - 1] == outcomes[i]);
                    }
                }
                if exists|i: int| 0 <= i < outcomes.len() && (#[trigger] outcomes[i]) is Killed {
                    let i = choose|i: int|
                        0 <= i < outcomes.len() && (#[trigger] outcomes[i]) is Killed;
                    assert(rest[i - 1] == outcomes[i]);
                }
                if exists|i: int| 0 <= i < rest.len() && (#[trigger] rest[i]) is Killed {
                    let i = choose|i: int| 0 <= i < rest.len() && (#[trigger] rest[i]) is Killed;
                    assert(outcomes[i + 1] is Killed);
                }
                if forall|i: int|
                    0 <= i < outcomes.len() ==> (#[trigger] outcomes[i]) is Survived {
                    assert(outcomes[0] is Survived);
                    assert forall|i: int| 0 <= i < rest.len() implies (#[trigger] rest[i]) is Survived by {
                        assert(rest[i] == outcomes[i + 1]);
                    }
                }
            },
        }
    }
}

/// A mutant survives only if it survives every runtime, and it is killed as
/// soon as one runtime kills it.
pub proof fn law_survivors_survive_every_runtime(outcomes: Seq<crate::runners::OutcomeView>)
    ensures
        verdict_from(fresh_run(), outcomes) is Survived <==> forall|i: int|
            0 <= i < outcomes.len() ==> (#[trigger] outcomes[i]) is Survived,
        verdict_from(fresh_run(), outcomes) is Killed <==> exists|i: int|
            0 <= i < outcomes.len() && (#[trigger] outcomes[i]) is Killed,
{
    lemma_verdict(fresh_run(), outcomes);
}

proof fn lemma_owned(filter: Seq<Seq<char>>, owner: Map<Seq<char>, usize>, index: int)
    ensures
        forall|t: Seq<char>| #[trigger]
            owned_by(filter, owner, index).contains(t) <==> filter.contains(t)
                && owner.contains_key(t) && owner[t] == index,
    decreases filter.len(),
{
    if filter.len() > 0 {
        let f = filter.drop_last();
        lemma_owned(f, owner, index);
        let front = owned_by(f, owner, index);
        let all = owned_by(filter, owner, index);
        assert forall|t: Seq<char>| #[trigger] all.contains(t) <==> filter.contains(t)
            && owner.contains_key(t) && owner[t] == index by {
            if f.contains(t) {
                let k = f.index_of(t);
                assert(filter[k] == t);
            }
            if filter.contains(t) {
                let k = filter.index_of(t);
                if k < f.len() {
                    assert(f[k] == t);
                }
            }
            assert(filter[filter.len() - 1] == filter.last());
            if front.contains(t) {
                let k = front.index_of(t);
                assert(all[k] == t);
            }
            if all.contains(t) && !front.contains(t) {
                let k = all.index_of(t);
                if k < front.len() {
                    assert(front[k] == t);
                }
            }
            if all.len() > front.len() {
                assert(all[front.len() as int] == filter.last());
            }
        }
    }
}

/// Every test of a filter goes to its owner and to no other runner.
pub proof fn law_tests_go_to_their_owner(
    filter: Seq<Seq<char>>,
    owner: Map<Seq<char>, usize>,
    test: Seq<char>,
    index: int,
)
    requires
        filter.contains(test),
    ensures
        owned_by(filter, owner, index).contains(test) <==> owner.contains_key(test) && owner[test]
            == index,
{
    lemma_owned(filter, owner, index);
}

/// Whether coverage names a mutant in the bucket of a test.
pub open spec fn covers(
    coverage: Option<crate::model::CoverageView>,
    test: Seq<char>,
    id: u32,
) -> bool {
    coverage matches Some(c) && c.per_test.contains_key(test) && c.per_test[test].contains_key(id)
}

/// Whether coverage names a mutant outside the tests.
pub open spec fn covers_outside(coverage: Option<crate::model::CoverageView>, id: u32) -> bool {
    coverage matches Some(c) && c.static_hits.contains_key(id)
}

/// How often a test hits a mutant, as coverage records it.
pub open spec fn hits_of(
    coverage: Option<crate::model::CoverageView>,
    test: Seq<char>,
    id: u32,
) -> nat {
    if covers(coverage, test, id) {
        coverage->0.per_test[test][id] as nat
    } else {
        0
    }
}

/// How often a mutant is hit outside the tests, as coverage records it.
pub open spec fn hits_outside(coverage: Option<crate::model::CoverageView>, id: u32) -> nat {
    if covers_outside(coverage, id) {
        coverage->0.static_hits[id] as nat
    } else {
        0
    }
}

/// The coverage of runners together loses nothing and invents nothing: a test
/// covers a mutant exactly where it did so for one of them, the hits are the
/// sums, and there is coverage exactly where one of them reported some.
pub proof fn law_joint_coverage_is_the_union(
    a: Option<crate::model::CoverageView>,
    b: Option<crate::model::CoverageView>,
    test: Seq<char>,
    id: u32,
)
    requires
        forall|t: Seq<char>, i: u32| #[trigger]
            hits_of(a, t, i) + hits_of(b, t, i) <= u64::MAX,
        forall|i: u32| #[trigger] hits_outside(a, i) + hits_outside(b, i) <= u64::MAX,
    ensures
        joint_fits(a, b),
        joint_coverage(a, b) is Some <==> a is Some || b is Some,
        covers(joint_coverage(a, b), test, id) <==> covers(a, test, id) || covers(b, test, id),
        covers_outside(joint_coverage(a, b), id) <==> covers_outside(a, id) || covers_outside(
            b,
            id,
        ),
        hits_of(joint_coverage(a, b), test, id) == hits_of(a, test, id) + hits_of(b, test, id),
        hits_outside(joint_coverage(a, b), id) == hits_outside(a, id) + hits_outside(b, id),
{
    if let Some(more) = b {
        let have = match a {
            Some(have) => have,
            None => crate::coverage::no_coverage(),
        };
        assert(crate::coverage::sums_fit(have.static_hits, more.static_hits)) by {
            assert forall|k: u32| #[trigger]
                crate::model::hits_in(have.static_hits, k) + crate::model::hits_in(
                    more.static_hits,
                    k,
                ) <= u64::MAX by {
                assert(hits_outside(a, k) + hits_outside(b, k) <= u64::MAX);
            }
        }
        assert forall|t: Seq<char>| #[trigger]
            more.per_test.contains_key(t) implies crate::coverage::sums_fit(
            crate::coverage::bucket_at(have.per_test, t),
            more.per_test[t],
        ) by {
            assert forall|k: u32| #[trigger]
                crate::model::hits_in(crate::coverage::bucket_at(have.per_test, t), k)
                    + crate::model::hits_in(more.per_test[t], k) <= u64::MAX by {
                assert(hits_of(a, t, k) + hits_of(b, t, k) <= u64::MAX);
            }
        }
        assert(hits_of(a, test, id) + hits_of(b, test, id) <= u64::MAX);
        assert(hits_outside(a, id) + hits_outside(b, id) <= u64::MAX);
    }
}

/// The coverage of a list of runners, each taken in behind the ones before it.
pub open spec fn coverage_of_all(list: Seq<Option<crate::model::CoverageView>>) -> Option<
    crate::model::CoverageView,
>
    decreases list.len(),
{
    if list.len() == 0 {
        None
    } else {
        joint_coverage(coverage_of_all(list.drop_last()), list.last())
    }
}

/// How often a test hits a mutant in the coverage of a list of runners.
pub open spec fn hits_of_all(
    list: Seq<Option<crate::model::CoverageView>>,
    test: Seq<char>,
    id: u32,
) -> nat
    decreases list.len(),
{
    if list.len() == 0 {
        0
    } else {
        hits_of_all(list.drop_last(), test, id) + hits_of(list.last(), test, id)
    }
}

/// How often a mutant is hit outside the tests in the coverage of a list of
/// runners.
pub open spec fn hits_outside_all(list: Seq<Option<crate::model::CoverageView>>, id: u32) -> nat
    decreases list.len(),
{
    if list.len() == 0 {
        0
    } else {
        hits_outside_all(list.drop_last(), id) + hits_outside(list.last(), id)
    }
}

/// Whether all sums of the hits of a list of runners fit.
pub open spec fn totals_fit(list: Seq<Option<crate::model::CoverageView>>) -> bool {
    &&& forall|t: Seq<char>, i: u32| #[trigger] hits_of_all(list, t, i) <= u64::MAX
    &&& forall|i: u32| #[trigger] hits_outside_all(list, i) <= u64::MAX
}

/// After a dry run of several runners a test covers a mutant exactly where it did
/// so for one of them, the hits are the sums over all of them, and there is
/// coverage exactly where one of them reported some.
pub proof fn law_coverage_of_all_runners(
    list: Seq<Option<crate::model::CoverageView>>,
    test: Seq<char>,
    id: u32,
)
    requires
        totals_fit(list),
    ensures
        coverage_of_all(list) is Some <==> exists|k: int|
            0 <= k < list.len() && (#[trigger] list[k]) is Some,
        covers(coverage_of_all(list), test, id) <==> exists|k: int|
            0 <= k < list.len() && covers(#[trigger] list[k], test, id),
        covers_outside(coverage_of_all(list), id) <==> exists|k: int|
            0 <= k < list.len() && covers_outside(#[trigger] list[k], id),
        hits_of(coverage_of_all(list), test, id) == hits_of_all(list, test, id),
        hits_outside(coverage_of_all(list), id) == hits_outside_all(list, id),
    decreases list.len(),
{
    if list.len() > 0 {
        let front = list.drop_last();
        let last = list.last();
        let before = coverage_of_all(front);
        assert(totals_fit(front)) by {
            assert forall|t: Seq<char>, i: u32| #[trigger] hits_of_all(front, t, i) <= u64::MAX by {
                assert(hits_of_all(list, t, i) <= u64::MAX);
            }
            assert forall|i: u32| #[trigger] hits_outside_all(front, i) <= u64::MAX by {
                assert(hits_outside_all(list, i) <= u64::MAX);
            }
        }
        assert forall|t: Seq<char>, i: u32| #[trigger]
            hits_of(before, t, i) + hits_of(last, t, i) <= u64::MAX by {
            law_coverage_of_all_runners(front, t, i);
            assert(hits_of_all(list, t, i) <= u64::MAX);
        }
        assert forall|i: u32| #[trigger]
            hits_outside(before, i) + hits_outside(last, i) <= u64::MAX by {
            law_coverage_of_all_runners(front, test, i);
            assert(hits_outside_all(list, i) <= u64::MAX);
        }
        law_coverage_of_all_runners(front, test, id);
        law_joint_coverage_is_the_union(before, last, test, id);
        assert(list[list.len() - 1] == last);
        assert forall|k: int| 0 <= k < front.len() implies #[trigger] list[k] == front[k] by {}
        if before is Some {
            let k = choose|k: int| 0 <= k < front.len() && (#[trigger] front[k]) is Some;
            assert(list[k] is Some);
        }
        if covers(before, test, id) {
            let k = choose|k: int| 0 <= k < front.len() && covers(#[trigger] front[k], test, id);
            assert(covers(list[k], test, id));
        }
        if covers_outside(before, id) {
            let k = choose|k: int| 0 <= k < front.len() && covers_outside(#[trigger] front[k], id);
            assert(covers_outside(list[k], id));
        }
        if exists|k: int| 0 <= k < list.len() && (#[trigger] list[k]) is Some {
            let k = choose|k: int| 0 <= k < list.len() && (#[trigger] list[k]) is Some;
            if k < front.len() {
                assert(front[k] is Some);
            }
        }
        if exists|k: int| 0 <= k < list.len() && covers(#[trigger] list[k], test, id) {
            let k = choose|k: int| 0 <= k < list.len() && covers(#[trigger] list[k], test, id);
            if k < front.len() {
                assert(covers(front[k], test, id));
            }
        }
        if exists|k: int| 0 <= k < list.len() && covers_outside(#[trigger] list[k], id) {
            let k = choose|k: int| 0 <= k < list.len() && covers_outside(#[trigger] list[k], id);
            if k < front.len() {
                assert(covers_outside(front[k], id));
            }
        }
    }
}

/// The tests that a list of outcomes ran, added up.
pub open spec fn tests_in_all(outcomes: Seq<crate::runners::OutcomeView>) -> nat
    decreases outcomes.len(),
{
    if outcomes.len() == 0 {
        0
    } else {
        tests_in(outcomes[0]) + tests_in_all(outcomes.skip(1))
    }
}

proof fn lemma_first_kill(
    run: CompositeRunView,
    outcomes: Seq<crate::runners::OutcomeView>,
    i: int,
)
    requires
        0 <= i < outcomes.len(),
        outcomes[i] is Killed,
        forall|k: int| 0 <= k < i ==> !((#[trigger] outcomes[k]) is Killed),
        run.tests_ran + tests_in_all(outcomes.take(i + 1)) <= u32::MAX,
    ensures
        verdict_from(run, outcomes) is Killed,
        verdict_from(run, outcomes)->killed_by == outcomes[i]->killed_by,
        verdict_from(run, outcomes)->failure == outcomes[i]->failure,
        verdict_from(run, outcomes)->Killed_tests_ran == run.tests_ran + tests_in_all(
            outcomes.take(i + 1),
        ),
    decreases i,
{
    let rest = outcomes.skip(1);
    let taken = outcomes.take(i + 1);
    assert(taken[0] == outcomes[0]);
    assert(taken.skip(1) =~= rest.take(i));
    assert(tests_in_all(taken) == tests_in(outcomes[0]) + tests_in_all(rest.take(i)));
    if i > 0 {
        let next = after_outcome(run, outcomes[0])->Going_0;
        assert(rest[i - 1] == outcomes[i]);
        assert forall|k: int| 0 <= k < i - 1 implies !((#[trigger] rest[k]) is Killed) by {
            assert(rest[k] == outcomes[k + 1]);
        }
        assert(rest.take(i - 1 + 1) =~= rest.take(i));
        lemma_first_kill(next, rest, i - 1);
    } else {
        assert(tests_in_all(rest.take(0)) == 0);
    }
}

/// The first runtime that kills a mutant decides: its killers and what it said
/// stand, and the tests of the runtimes before it are counted in.
pub proof fn law_first_kill_decides(outcomes: Seq<crate::runners::OutcomeView>, i: int)
    requires
        0 <= i < outcomes.len(),
        outcomes[i] is Killed,
        forall|k: int| 0 <= k < i ==> !((#[trigger] outcomes[k]) is Killed),
        tests_in_all(outcomes.take(i + 1)) <= u32::MAX,
    ensures
        verdict_from(fresh_run(), outcomes) is Killed,
        verdict_from(fresh_run(), outcomes)->killed_by == outcomes[i]->killed_by,
        verdict_from(fresh_run(), outcomes)->failure == outcomes[i]->failure,
        verdict_from(fresh_run(), outcomes)->Killed_tests_ran == tests_in_all(outcomes.take(i + 1)),
{
    lemma_first_kill(fresh_run(), outcomes, i);
}

proof fn lemma_no_kill(run: CompositeRunView, outcomes: Seq<crate::runners::OutcomeView>)
    requires
        forall|k: int| 0 <= k < outcomes.len() ==> !((#[trigger] outcomes[k]) is Killed),
        run.tests_ran + tests_in_all(outcomes) <= u32::MAX,
    ensures
        verdict_from(run, outcomes) is Timeout <==> run.timeout is Some || exists|k: int|
            0 <= k < outcomes.len() && (#[trigger] outcomes[k]) is Timeout,
        verdict_from(run, outcomes) is Error <==> !(verdict_from(run, outcomes) is Timeout) && (
        run.error is Some || exists|k: int|
            0 <= k < outcomes.len() && (#[trigger] outcomes[k]) is Error),
        verdict_from(run, outcomes) matches crate::runners::OutcomeView::Survived { tests_ran }
            ==> tests_ran == run.tests_ran + tests_in_all(outcomes),
        verdict_from(run, outcomes) matches crate::runners::OutcomeView::Error(message)
            ==> run.error == Some(message) || exists|k: int|
            0 <= k < outcomes.len() && #[trigger] outcomes[k]
                == crate::runners::OutcomeView::Error(message),
        verdict_from(run, outcomes) matches crate::runners::OutcomeView::Timeout { reason }
            ==> run.timeout == Some(reason) || exists|k: int|
            0 <= k < outcomes.len() && #[trigger] outcomes[k]
                == (crate::runners::OutcomeView::Timeout { reason }),
    decreases outcomes.len(),
{
    if outcomes.len() > 0 {
        let rest = outcomes.skip(1);
        assert(!(outcomes[0] is Killed));
        let next = after_outcome(run, outcomes[0])->Going_0;
        assert forall|k: int| 0 <= k < rest.len() implies !((#[trigger] rest[k]) is Killed) by {
            assert(rest[k] == outcomes[k + 1]);
        }
        lemma_no_kill(next, rest);
        assert forall|k: int| 0 <= k < rest.len() implies #[trigger] rest[k] == outcomes[k + 1] by {}
        if exists|k: int| 0 <= k < rest.len() && (#[trigger] rest[k]) is Timeout {
            let k = choose|k: int| 0 <= k < rest.len() && (#[trigger] rest[k]) is Timeout;
            assert(outcomes[k + 1] is Timeout);
        }
        if exists|k: int| 0 <= k < rest.len() && (#[trigger] rest[k]) is Error {
            let k = choose|k: int| 0 <= k < rest.len() && (#[trigger] rest[k]) is Error;
            assert(outcomes[k + 1] is Error);
        }
        if exists|k: int| 0 <= k < outcomes.len() && (#[trigger] outcomes[k]) is Timeout {
            let k = choose|k: int| 0 <= k < outcomes.len() && (#[trigger] outcomes[k]) is Timeout;
            if k > 0 {
                assert(rest[k - 1] is Timeout);
            }
        }
        if exists|k: int| 0 <= k < outcomes.len() && (#[trigger] outcomes[k]) is Error {
            let k = choose|k: int| 0 <= k < outcomes.len() && (#[trigger] outcomes[k]) is Error;
            if k > 0 {
                assert(rest[k - 1] is Error);
            }
        }
        match verdict_from(run, outcomes) {
            crate::runners::OutcomeView::Error(message) => {
                if next.error != Some(message) {
                    let k = choose|k: int|
                        0 <= k < rest.len() && #[trigger] rest[k]
                            == crate::runners::OutcomeView::Error(message);
                    assert(outcomes[k + 1] == crate::runners::OutcomeView::Error(message));
                } else if run.error != Some(message) {
                    assert(outcomes[0] == crate::runners::OutcomeView::Error(message));
                }
            },
            crate::runners::OutcomeView::Timeout { reason } => {
                if next.timeout != Some(reason) {
                    let k = choose|k: int|
                        0 <= k < rest.len() && #[trigger] rest[k]
                            == (crate::runners::OutcomeView::Timeout { reason });
                    assert(outcomes[k + 1] == (crate::runners::OutcomeView::Timeout { reason }));
                } else if run.timeout != Some(reason) {
                    assert(outcomes[0] == (crate::runners::OutcomeView::Timeout { reason }));
                }
            },
            _ => {},
        }
    }
}

/// Where no runtime kills a mutant, one that times out has the word, then one that
/// errs; a survivor ran the tests of all runtimes.
pub proof fn law_without_a_kill(outcomes: Seq<crate::runners::OutcomeView>)
    requires
        forall|k: int| 0 <= k < outcomes.len() ==> !((#[trigger] outcomes[k]) is Killed),
        tests_in_all(outcomes) <= u32::MAX,
    ensures
        ({
            let verdict = verdict_from(fresh_run(), outcomes);
            let timed_out = exists|k: int|
                0 <= k < outcomes.len() && (#[trigger] outcomes[k]) is Timeout;
            let erred = exists|k: int|
                0 <= k < outcomes.len() && (#[trigger] outcomes[k]) is Error;
            &&& verdict is Timeout <==> timed_out
            &&& verdict is Error <==> erred && !timed_out
            &&& verdict is Timeout || verdict is Error ==> outcomes.contains(verdict)
            &&& !timed_out && !erred ==> verdict == (crate::runners::OutcomeView::Survived {
                tests_ran: tests_in_all(outcomes) as u32,
            })
        }),
{
    lemma_no_kill(fresh_run(), outcomes);
    lemma_verdict(fresh_run(), outcomes);
    let verdict = verdict_from(fresh_run(), outcomes);
    match verdict {
        crate::runners::OutcomeView::Error(message) => {
            let k = choose|k: int|
                0 <= k < outcomes.len() && #[trigger] outcomes[k]
                    == crate::runners::OutcomeView::Error(message);
            assert(outcomes[k] == verdict);
        },
        crate::runners::OutcomeView::Timeout { reason } => {
            let k = choose|k: int|
                0 <= k < outcomes.len() && #[trigger] outcomes[k]
                    == (crate::runners::OutcomeView::Timeout { reason });
            assert(outcomes[k] == verdict);
        },
        _ => {},
    }
}

/// A claim is refused exactly where another runner owns one of the tests, and the
/// refusal names such a test and its owner.
pub proof fn law_claims_are_refused(
    owner: Map<Seq<char>, usize>,
    ids: Seq<Seq<char>>,
    index: usize,
)
    ensures
        claimed(owner, ids, index) is Err <==> exists|k: int|
            0 <= k < ids.len() && owner.contains_key(#[trigger] ids[k]) && owner[ids[k]] != index,
        claimed(owner, ids, index) matches Err((test, first)) ==> ids.contains(test)
            && owner.contains_key(test) && owner[test] == first && first != index,
        claimed(owner, ids, index) matches Ok(m) ==> forall|t: Seq<char>| #[trigger]
            m.contains_key(t) <==> owner.contains_key(t) || ids.contains(t),
    decreases ids.len(),
{
    if ids.len() > 0 {
        let front = ids.drop_last();
        let last = ids.last();
        law_claims_are_refused(owner, front, index);
        law_claims_hold(owner, front, index);
        assert(ids[ids.len() - 1] == last);
        if exists|k: int|
            0 <= k < front.len() && owner.contains_key(#[trigger] front[k]) && owner[front[k]]
                != index {
            let k = choose|k: int|
                0 <= k < front.len() && owner.contains_key(#[trigger] front[k]) && owner[front[k]]
                    != index;
            assert(ids[k] == front[k]);
        }
        if exists|k: int|
            0 <= k < ids.len() && owner.contains_key(#[trigger] ids[k]) && owner[ids[k]] != index {
            let k = choose|k: int|
                0 <= k < ids.len() && owner.contains_key(#[trigger] ids[k]) && owner[ids[k]]
                    != index;
            if k < front.len() {
                assert(front[k] == ids[k]);
            }
        }
        assert forall|t: Seq<char>| #[trigger] ids.contains(t) <==> front.contains(t) || t == last by {
            if front.contains(t) {
                let k = front.index_of(t);
                assert(ids[k] == t);
            }
            if ids.contains(t) && t != last {
                let k = ids.index_of(t);
                assert(front[k] == t);
            }
        }
        if let Ok(m) = claimed(owner, front, index) {
            if m.contains_key(last) && !owner.contains_key(last) {
                let k = front.index_of(last);
                assert(front[k] == last);
            }
        }
    }
}

/// A runner gets just the tests of a filter that it owns, in their order; without
/// a filter it gets them all.
pub proof fn law_shares_are_what_is_owned(
    filter: Seq<Seq<char>>,
    owner: Map<Seq<char>, usize>,
    index: int,
)
    ensures
        share_of(Some(filter), owner, index) == Some(
            filter.filter(|t: Seq<char>| owner.contains_key(t) && owner[t] == index),
        ),
        share_of(None, owner, index) is None,
    decreases filter.len(),
{
    reveal(Seq::filter);
    if filter.len() > 0 {
        law_shares_are_what_is_owned(filter.drop_last(), owner, index);
    }
}

/// A claim takes no test away from its owner, whether it holds or not.
pub proof fn law_owners_are_kept(
    owner: Map<Seq<char>, usize>,
    ids: Seq<Seq<char>>,
    index: usize,
    test: Seq<char>,
)
    requires
        owner.contains_key(test),
    ensures
        owners_after(owner, ids, index).contains_key(test),
        owner[test] == index || claimed(owner, ids, index) is Ok ==> owners_after(
            owner,
            ids,
            index,
        )[test] == owner[test],
    decreases ids.len(),
{
    law_claims_hold(owner, ids, index);
    if ids.len() > 0 {
        law_owners_are_kept(owner, ids.drop_last(), index, test);
        law_claims_hold(owner, ids.drop_last(), index);
    }
}

} // verus!
