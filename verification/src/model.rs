//! The central types: mutants, their results, coverage and test plans.
use std::collections::HashMap;
use vstd::prelude::*;

use crate::text::number;
use crate::text_map::TextMap;

verus! {

broadcast use vstd::std_specs::hash::group_hash_axioms;

/// Ordinal id assigned across all files in deterministic walk order.
#[derive(Debug, Clone, Copy, PartialEq, Eq, Structural, Hash, PartialOrd, Ord)]
pub struct MutantId(pub u32);

impl MutantId {
    /// The id in decimal.
    pub fn to_text(self) -> (r: String)
        ensures
            r@ == crate::text::decimal(self.0 as nat),
    {
        number(self.0 as u64)
    }
}

/// Runner-defined test identity: `<rel test file> > <describe path> > <name>`.
pub type TestId = String;

/// 1-based position in a source file; columns count UTF-16 code units.
#[derive(Debug, Clone, Copy, PartialEq, Eq, Structural)]
pub struct Position {
    pub line: u32,
    pub column: u32,
}

/// Start inclusive, end exclusive.
#[derive(Debug, Clone, Copy, PartialEq, Eq, Structural)]
pub struct Location {
    pub start: Position,
    pub end: Position,
}

/// One change to one source file.
#[derive(Debug)]
pub struct Mutant {
    pub id: MutantId,
    /// Relative to the project root.
    pub file: String,
    /// Byte offsets in the original source.
    pub span: (u32, u32),
    /// Where the span lies in the original source.
    pub location: Location,
    /// The mutator's name in reports, e.g. "EqualityOperator".
    pub mutator_name: &'static str,
    /// Code of the mutated subtree.
    pub replacement: String,
    /// The slice of the original source.
    pub original: String,
    /// Why the mutant is ignored; ignored mutants are never placed or run.
    pub ignored: Option<String>,
}

/// What became of a mutant.
#[derive(Debug, Clone, Copy, PartialEq, Eq, Structural)]
pub enum MutantStatus {
    Killed,
    Survived,
    NoCoverage,
    CompileError,
    RuntimeError,
    Timeout,
    Ignored,
    Pending,
}

impl MutantStatus {
    /// Some test noticed the mutant.
    pub fn is_detected(self) -> (r: bool)
        ensures
            r == self.detected(),
    {
        matches!(self, MutantStatus::Killed | MutantStatus::Timeout)
    }

    /// Some test noticed the mutant.
    pub open spec fn detected(self) -> bool {
        self is Killed || self is Timeout
    }

    /// Counts toward the mutation score denominator.
    pub fn is_valid(self) -> (r: bool)
        ensures
            r == self.valid(),
    {
        !matches!(
            self,
            MutantStatus::CompileError
            | MutantStatus::RuntimeError
            | MutantStatus::Ignored
            | MutantStatus::Pending
        )
    }

    /// Counts toward the mutation score denominator.
    pub open spec fn valid(self) -> bool {
        self is Killed || self is Survived || self is NoCoverage || self is Timeout
    }
}

/// What is detected is valid, so a score never exceeds its denominator.
pub proof fn law_detected_is_valid(status: MutantStatus)
    ensures
        status.detected() ==> status.valid(),
{
}

/// The outcome of testing one mutant.
#[derive(Debug)]
pub struct MutantResult {
    pub status: MutantStatus,
    pub killed_by: Vec<TestId>,
    pub covered_by: Vec<TestId>,
    pub tests_ran: u32,
    pub status_reason: Option<String>,
    /// In milliseconds.
    pub duration: Option<u64>,
    /// True when the mutant was covered outside any test (module scope).
    pub is_static: Option<bool>,
}

/// The mathematical value of a result.
pub struct ResultView {
    pub status: MutantStatus,
    pub killed_by: Seq<Seq<char>>,
    pub covered_by: Seq<Seq<char>>,
    pub tests_ran: u32,
    pub status_reason: Option<Seq<char>>,
    pub duration: Option<u64>,
    pub is_static: Option<bool>,
}

impl MutantResult {
    pub open spec fn view(&self) -> ResultView {
        ResultView {
            status: self.status,
            killed_by: crate::text::texts(self.killed_by@),
            covered_by: crate::text::texts(self.covered_by@),
            tests_ran: self.tests_ran,
            status_reason: crate::text::opt_text(self.status_reason),
            duration: self.duration,
            is_static: self.is_static,
        }
    }
}

/// One test of the dry run.
#[derive(Debug)]
pub struct TestInfo {
    pub id: TestId,
    pub name: String,
    pub file: Option<String>,
    /// The duration in milliseconds, as the bits of a double.
    pub time_bits: u64,
}

/// Coverage collected during the dry run.
pub struct MutantCoverage {
    /// mutantId -> hits recorded while no test was running (module scope).
    pub static_hits: HashMap<u32, u64>,
    /// testId -> mutantId -> hits.
    pub per_test: TextMap<HashMap<u32, u64>>,
}

/// The mathematical value of coverage.
pub struct CoverageView {
    pub static_hits: Map<u32, u64>,
    pub per_test: Map<Seq<char>, Map<u32, u64>>,
}

/// The values of the buckets of a map.
pub open spec fn bucket_views(m: Map<Seq<char>, HashMap<u32, u64>>) -> Map<
    Seq<char>,
    Map<u32, u64>,
> {
    m.map_values(|b: HashMap<u32, u64>| b@)
}

impl MutantCoverage {
    pub open spec fn view(&self) -> CoverageView {
        CoverageView {
            static_hits: self.static_hits@,
            per_test: bucket_views(self.per_test@),
        }
    }
}

/// The hits that one bucket records for a mutant.
pub open spec fn hits_in(bucket: Map<u32, u64>, id: u32) -> nat {
    if bucket.dom().contains(id) {
        bucket[id] as nat
    } else {
        0
    }
}

/// The hits that a list of buckets records for a mutant.
pub open spec fn hits_in_all(buckets: Seq<HashMap<u32, u64>>, id: u32) -> nat
    decreases buckets.len(),
{
    if buckets.len() == 0 {
        0
    } else {
        hits_in_all(buckets.drop_last(), id) + hits_in(buckets.last()@, id)
    }
}

/// The tests whose bucket names the mutant, in order.
pub open spec fn covering(tests: Seq<Seq<char>>, buckets: Seq<HashMap<u32, u64>>, id: u32) -> Seq<
    Seq<char>,
>
    decreases tests.len(),
{
    if tests.len() == 0 {
        Seq::empty()
    } else {
        let front = covering(tests.drop_last(), buckets.drop_last(), id);
        if buckets.last()@.dom().contains(id) {
            front.push(tests.last())
        } else {
            front
        }
    }
}

/// The characters of a list of borrowed texts.
pub open spec fn ref_texts(v: Seq<&String>) -> Seq<Seq<char>> {
    v.map_values(|s: &String| s@)
}

fn bucket_hits(bucket: &HashMap<u32, u64>, id: u32) -> (r: u64)
    ensures
        r == hits_in(bucket@, id),
{
    match bucket.get(&id) {
        Some(n) => *n,
        None => 0,
    }
}

proof fn lemma_hits_grow(buckets: Seq<HashMap<u32, u64>>, id: u32, i: int)
    requires
        0 <= i <= buckets.len(),
    ensures
        hits_in_all(buckets.take(i), id) <= hits_in_all(buckets, id),
    decreases buckets.len() - i,
{
    if i == buckets.len() {
        assert(buckets.take(i) =~= buckets);
    } else {
        lemma_hits_grow(buckets, id, i + 1);
        assert(buckets.take(i + 1).drop_last() =~= buckets.take(i));
    }
}

impl MutantCoverage {
    /// No coverage at all.
    pub fn new() -> (r: Self)
        ensures
            r.static_hits@ == Map::<u32, u64>::empty(),
            r.per_test@ == Map::<Seq<char>, HashMap<u32, u64>>::empty(),
            r.per_test.keys() == Seq::<Seq<char>>::empty(),
    {
        MutantCoverage { static_hits: HashMap::new(), per_test: TextMap::new() }
    }

    /// Hits for a mutant across the static and all per-test buckets.
    pub open spec fn hits(self, id: MutantId) -> nat {
        hits_in(self.static_hits@, id.0) + hits_in_all(self.per_test.values(), id.0)
    }

    /// Total hits for a mutant across static + all per-test buckets.
    pub fn total_hits(&self, id: MutantId) -> (r: u64)
        requires
            self.hits(id) <= u64::MAX,
        ensures
            r == self.hits(id),
    {
        let mut sum: u64 = bucket_hits(&self.static_hits, id.0);
        let total = self.per_test.len();
        let mut i: usize = 0;
        let ghost buckets = self.per_test.values();
        proof {
            assert(buckets.take(0) =~= Seq::empty());
        }
        while i < total
            invariant
                i <= total == buckets.len(),
                buckets == self.per_test.values(),
                self.hits(id) <= u64::MAX,
                sum == hits_in(self.static_hits@, id.0) + hits_in_all(buckets.take(i as int), id.0),
            decreases total - i,
        {
            proof {
                lemma_hits_grow(buckets, id.0, i + 1);
                assert(buckets.take(i + 1).drop_last() =~= buckets.take(i as int));
            }
            sum = sum + bucket_hits(self.per_test.value_at(i), id.0);
            i = i + 1;
        }
        proof {
            assert(buckets.take(total as int) =~= buckets);
        }
        sum
    }

    /// Total hits for a mutant, where they fit 64 bits.
    pub fn checked_hits(&self, id: MutantId) -> (r: Option<u64>)
        ensures
            match r {
                Some(n) => n == self.hits(id),
                None => self.hits(id) > u64::MAX,
            },
    {
        let mut sum: u64 = bucket_hits(&self.static_hits, id.0);
        let total = self.per_test.len();
        let mut i: usize = 0;
        let ghost buckets = self.per_test.values();
        proof {
            assert(buckets.take(0) =~= Seq::empty());
        }
        while i < total
            invariant
                i <= total == buckets.len(),
                buckets == self.per_test.values(),
                sum == hits_in(self.static_hits@, id.0) + hits_in_all(buckets.take(i as int), id.0),
            decreases total - i,
        {
            proof {
                lemma_hits_grow(buckets, id.0, i + 1);
                assert(buckets.take(i + 1).drop_last() =~= buckets.take(i as int));
            }
            match sum.checked_add(bucket_hits(self.per_test.value_at(i), id.0)) {
                Some(more) => {
                    sum = more;
                },
                None => {
                    return None;
                },
            }
            i = i + 1;
        }
        proof {
            assert(buckets.take(total as int) =~= buckets);
        }
        Some(sum)
    }

    /// Whether the mutant was hit outside any test.
    pub fn is_static(&self, id: MutantId) -> (r: bool)
        ensures
            r == self.static_hits@.dom().contains(id.0),
    {
        self.static_hits.contains_key(&id.0)
    }

    /// The tests that hit a mutant, in the order of their ids.
    pub open spec fn covered(self, id: MutantId) -> Seq<Seq<char>> {
        covering(self.per_test.keys(), self.per_test.values(), id.0)
    }

    /// The tests that hit a mutant, in the order of their ids.
    pub fn covering_tests(&self, id: MutantId) -> (r: Vec<&TestId>)
        ensures
            ref_texts(r@) == self.covered(id),
    {
        let mut out: Vec<&TestId> = Vec::new();
        let total = self.per_test.len();
        let mut i: usize = 0;
        let ghost tests = self.per_test.keys();
        let ghost buckets = self.per_test.values();
        while i < total
            invariant
                i <= total == buckets.len() == tests.len(),
                buckets == self.per_test.values(),
                tests == self.per_test.keys(),
                ref_texts(out@) == covering(tests.take(i as int), buckets.take(i as int), id.0),
            decreases total - i,
        {
            proof {
                assert(tests.take(i + 1).drop_last() =~= tests.take(i as int));
                assert(buckets.take(i + 1).drop_last() =~= buckets.take(i as int));
            }
            if self.per_test.value_at(i).contains_key(&id.0) {
                let ghost before = out@;
                let test = self.per_test.key_at(i);
                out.push(test);
                proof {
                    assert(ref_texts(out@) =~= ref_texts(before).push(test@));
                }
            }
            i = i + 1;
        }
        proof {
            assert(tests.take(total as int) =~= tests);
            assert(buckets.take(total as int) =~= buckets);
        }
        out
    }
}

proof fn lemma_uncovered(tests: Seq<Seq<char>>, buckets: Seq<HashMap<u32, u64>>, id: u32)
    requires
        tests.len() == buckets.len(),
        covering(tests, buckets, id).len() == 0,
    ensures
        hits_in_all(buckets, id) == 0,
    decreases tests.len(),
{
    if tests.len() > 0 {
        lemma_uncovered(tests.drop_last(), buckets.drop_last(), id);
    }
}

/// A mutant that was hit neither outside nor inside a test has no hits.
pub proof fn law_uncovered_has_no_hits(coverage: MutantCoverage, id: MutantId)
    requires
        coverage.per_test.keys().len() == coverage.per_test.values().len(),
        !coverage.static_hits@.dom().contains(id.0),
        coverage.covered(id).len() == 0,
    ensures
        coverage.hits(id) == 0,
{
    lemma_uncovered(coverage.per_test.keys(), coverage.per_test.values(), id.0);
}

/// How one mutant is tested.
#[derive(Debug)]
pub enum MutantTestPlan {
    /// Result known without running tests (NoCoverage, Ignored).
    EarlyResult { mutant: MutantId, status: MutantStatus, reason: String },
    Run {
        mutant: MutantId,
        /// None = run the full suite (static mutants, coverage off).
        test_filter: Option<Vec<TestId>>,
        /// In milliseconds.
        timeout: u64,
        /// 100 x dry-run hits for this mutant.
        hit_limit: Option<u64>,
        /// Always true for one-shot runners (bun, command).
        reload_environment: bool,
    },
}

/// The mathematical value of a plan.
pub enum PlanView {
    EarlyResult { mutant: MutantId, status: MutantStatus, reason: Seq<char> },
    Run {
        mutant: MutantId,
        test_filter: Option<Seq<Seq<char>>>,
        timeout: u64,
        hit_limit: Option<u64>,
        reload_environment: bool,
    },
}

impl PlanView {
    /// The mutant that is tested.
    pub open spec fn id(self) -> MutantId {
        match self {
            PlanView::EarlyResult { mutant, .. } => mutant,
            PlanView::Run { mutant, .. } => mutant,
        }
    }
}

/// The values of a list of plans.
pub open spec fn plan_views(v: Seq<MutantTestPlan>) -> Seq<PlanView> {
    v.map_values(|p: MutantTestPlan| p@)
}

impl MutantTestPlan {
    pub open spec fn view(&self) -> PlanView {
        match self {
            MutantTestPlan::EarlyResult { mutant, status, reason } => PlanView::EarlyResult {
                mutant: *mutant,
                status: *status,
                reason: reason@,
            },
            MutantTestPlan::Run {
                mutant,
                test_filter,
                timeout,
                hit_limit,
                reload_environment,
            } => PlanView::Run {
                mutant: *mutant,
                test_filter: crate::text::opt_texts(*test_filter),
                timeout: *timeout,
                hit_limit: *hit_limit,
                reload_environment: *reload_environment,
            },
        }
    }

    /// The mutant that is tested.
    pub open spec fn id(self) -> MutantId {
        match self {
            MutantTestPlan::EarlyResult { mutant, .. } => mutant,
            MutantTestPlan::Run { mutant, .. } => mutant,
        }
    }

    /// The mutant that is tested.
    pub fn mutant_id(&self) -> (r: MutantId)
        ensures
            r == self.id(),
    {
        match self {
            MutantTestPlan::EarlyResult { mutant, .. } => *mutant,
            MutantTestPlan::Run { mutant, .. } => *mutant,
        }
    }
}

/// The tests notice a mutant where one of them fails or the run does not end. A
/// mutant counts where it could be noticed: errors, ignored and pending mutants
/// do not.
pub proof fn law_statuses_that_count(status: MutantStatus)
    ensures
        status.detected() <==> status == MutantStatus::Killed || status == MutantStatus::Timeout,
        status.valid() <==> status == MutantStatus::Killed || status == MutantStatus::Timeout
            || status == MutantStatus::Survived || status == MutantStatus::NoCoverage,
{
}

proof fn lemma_covering(
    tests: Seq<Seq<char>>,
    buckets: Seq<HashMap<u32, u64>>,
    id: u32,
    test: Seq<char>,
)
    requires
        tests.len() == buckets.len(),
    ensures
        covering(tests, buckets, id).contains(test) <==> exists|i: int|
            0 <= i < tests.len() && #[trigger] tests[i] == test && buckets[i]@.dom().contains(id),
    decreases tests.len(),
{
    if tests.len() > 0 {
        let before = tests.drop_last();
        let front = covering(before, buckets.drop_last(), id);
        let all = covering(tests, buckets, id);
        lemma_covering(before, buckets.drop_last(), id, test);
        if all.contains(test) {
            let k = all.index_of(test);
            if k < front.len() {
                assert(front[k] == test);
                let i = choose|i: int|
                    0 <= i < before.len() && #[trigger] before[i] == test
                        && buckets.drop_last()[i]@.dom().contains(id);
                assert(tests[i] == test);
            } else {
                assert(tests[tests.len() - 1] == test);
            }
        }
        if exists|i: int|
            0 <= i < tests.len() && #[trigger] tests[i] == test && buckets[i]@.dom().contains(id) {
            let i = choose|i: int|
                0 <= i < tests.len() && #[trigger] tests[i] == test && buckets[i]@.dom().contains(id);
            if i < before.len() {
                assert(before[i] == test && buckets.drop_last()[i] == buckets[i]);
                let k = front.index_of(test);
                assert(all[k] == test);
            } else {
                assert(all[all.len() - 1] == test);
            }
        }
    }
}

/// The tests that cover a mutant are just those in whose bucket it is.
pub proof fn law_covering_tests_hit_the_mutant(
    coverage: MutantCoverage,
    id: MutantId,
    test: Seq<char>,
)
    requires
        crate::text_order::ascending(coverage.per_test.keys()),
    ensures
        coverage.covered(id).contains(test) <==> coverage.per_test@.contains_key(test)
            && coverage.per_test@[test]@.contains_key(id.0),
{
    let tests = coverage.per_test.keys();
    let buckets = coverage.per_test.values();
    crate::text_map::law_entries_in_order(coverage.per_test);
    lemma_covering(tests, buckets, id.0, test);
    if coverage.per_test@.contains_key(test) {
        assert(tests.contains(test));
        let i = tests.index_of(test);
        assert(tests[i] == test);
        assert(coverage.per_test@[tests[i]] == buckets[i]);
    }
    if coverage.covered(id).contains(test) {
        let i = choose|i: int|
            0 <= i < tests.len() && #[trigger] tests[i] == test && buckets[i]@.dom().contains(id.0);
        assert(coverage.per_test@[tests[i]] == buckets[i]);
    }
}

/// The hits of buckets are those of each, added up.
pub proof fn law_hits_add_up(a: Seq<HashMap<u32, u64>>, b: Seq<HashMap<u32, u64>>, id: u32)
    ensures
        hits_in_all(a + b, id) == hits_in_all(a, id) + hits_in_all(b, id),
        forall|i: int|
            0 <= i < a.len() && (#[trigger] a[i])@.contains_key(id) ==> hits_in_all(a, id)
                >= a[i]@[id],
        (forall|i: int| 0 <= i < a.len() ==> !(#[trigger] a[i])@.contains_key(id)) ==> hits_in_all(
            a,
            id,
        ) == 0,
        a.len() == 1 && a[0]@.contains_key(id) ==> hits_in_all(a, id) == a[0]@[id],
    decreases a.len() + b.len(),
{
    if b.len() > 0 {
        law_hits_add_up(a, b.drop_last(), id);
        assert((a + b).drop_last() =~= a + b.drop_last());
    } else {
        assert(a + b =~= a);
        if a.len() > 0 {
            let front = a.drop_last();
            law_hits_add_up(front, b, id);
            assert forall|i: int| 0 <= i < a.len() && (#[trigger] a[i])@.contains_key(id) implies hits_in_all(
                a,
                id,
            ) >= a[i]@[id] by {
                if i < front.len() {
                    assert(front[i] == a[i]);
                }
            }
            if forall|i: int| 0 <= i < a.len() ==> !(#[trigger] a[i])@.contains_key(id) {
                assert forall|i: int| 0 <= i < front.len() implies !(#[trigger] front[i])@.contains_key(
                    id,
                ) by {
                    assert(front[i] == a[i]);
                }
                assert(!a[a.len() - 1]@.contains_key(id));
            }
            if a.len() == 1 {
                assert(hits_in_all(front, id) == 0);
            }
        }
    }
}

} // verus!
