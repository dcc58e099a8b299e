//! What all test runners have in common: what they are asked and what they answer.
use vstd::prelude::*;

use crate::model::MutantCoverage;
use crate::model::MutantId;
use crate::model::TestId;
use crate::text::concat2;
use crate::text::copy_text;
use crate::text::ends_in;
use crate::text::number;
use crate::text::strip;

verus! {

/// What a runner can do.
#[derive(Debug, Clone, Copy, PartialEq, Eq, Structural)]
pub struct Capabilities {
    pub per_test_coverage: bool,
}

/// What a dry run is asked for.
#[derive(Debug, Clone, Copy)]
pub struct DryRunOptions {
    /// In milliseconds.
    pub timeout: u64,
    pub collect_coverage: bool,
}

/// One test of a dry run.
#[derive(Debug)]
pub struct TestResult {
    pub id: TestId,
    pub name: String,
    pub file: Option<String>,
    /// The duration in milliseconds, as the bits of a double.
    pub time_bits: u64,
    pub failed: bool,
    pub failure: Option<String>,
}

/// The mathematical value of a test result.
pub struct TestResultView {
    pub id: Seq<char>,
    pub name: Seq<char>,
    pub file: Option<Seq<char>>,
    pub time_bits: u64,
    pub failed: bool,
    pub failure: Option<Seq<char>>,
}

impl TestResult {
    pub open spec fn view(&self) -> TestResultView {
        TestResultView {
            id: self.id@,
            name: self.name@,
            file: crate::text::opt_text(self.file),
            time_bits: self.time_bits,
            failed: self.failed,
            failure: crate::text::opt_text(self.failure),
        }
    }
}

/// The values of a list of test results.
pub open spec fn test_views(v: Seq<TestResult>) -> Seq<TestResultView> {
    v.map_values(|t: TestResult| t@)
}

/// What a dry run gave.
pub enum DryRunResult {
    Complete { tests: Vec<TestResult>, coverage: Option<MutantCoverage>, gross_ms: u64 },
    Error(String),
    Timeout,
}

/// The mathematical value of the result of a dry run.
pub enum DryRunView {
    Complete {
        tests: Seq<TestResultView>,
        coverage: Option<crate::model::CoverageView>,
        gross_ms: u64,
    },
    Error(Seq<char>),
    Timeout,
}

impl DryRunResult {
    pub open spec fn view(&self) -> DryRunView {
        match self {
            DryRunResult::Complete { tests, coverage, gross_ms } => DryRunView::Complete {
                tests: test_views(tests@),
                coverage: match coverage {
                    Some(c) => Some(c@),
                    None => None,
                },
                gross_ms: *gross_ms,
            },
            DryRunResult::Error(message) => DryRunView::Error(message@),
            DryRunResult::Timeout => DryRunView::Timeout,
        }
    }
}

/// What a mutant run is asked for.
#[derive(Debug)]
pub struct MutantRunOptions {
    pub active_mutant: MutantId,
    /// None = run everything (static mutants, coverage off).
    pub test_filter: Option<Vec<TestId>>,
    /// In milliseconds.
    pub timeout: u64,
    pub hit_limit: Option<u64>,
}

/// What a mutant run gave.
#[derive(Debug)]
pub enum MutantRunOutcome {
    Killed { killed_by: Vec<TestId>, tests_ran: u32, failure: Option<String> },
    Survived { tests_ran: u32 },
    Timeout { reason: Option<String> },
    Error(String),
}

/// The mathematical value of the outcome of a mutant run.
pub enum OutcomeView {
    Killed { killed_by: Seq<Seq<char>>, tests_ran: u32, failure: Option<Seq<char>> },
    Survived { tests_ran: u32 },
    Timeout { reason: Option<Seq<char>> },
    Error(Seq<char>),
}

impl MutantRunOutcome {
    pub open spec fn view(&self) -> OutcomeView {
        match self {
            MutantRunOutcome::Killed { killed_by, tests_ran, failure } => OutcomeView::Killed {
                killed_by: crate::text::texts(killed_by@),
                tests_ran: *tests_ran,
                failure: crate::text::opt_text(*failure),
            },
            MutantRunOutcome::Survived { tests_ran } => OutcomeView::Survived {
                tests_ran: *tests_ran,
            },
            MutantRunOutcome::Timeout { reason } => OutcomeView::Timeout {
                reason: crate::text::opt_text(*reason),
            },
            MutantRunOutcome::Error(message) => OutcomeView::Error(message@),
        }
    }
}

/// Names the active mutant to the instrumented code.
pub const ACTIVE_MUTANT_ENV: &'static str = "__STRYKER_ACTIVE_MUTANT__";

/// Names the hit limit to the instrumented code.
pub const HIT_LIMIT_ENV: &'static str = "__STRYKER_HIT_LIMIT__";

/// What the instrumented code throws past the hit limit.
pub const HIT_LIMIT_TEXT: &'static str = "Stryker: Hit limit reached";

/// The characters of a list of name/value pairs.
pub open spec fn env_views(v: Seq<(String, String)>) -> Seq<(Seq<char>, Seq<char>)> {
    v.map_values(|p: (String, String)| (p.0@, p.1@))
}

/// The environment that activates a mutant.
pub open spec fn activation(id: MutantId, hit_limit: Option<u64>) -> Seq<(Seq<char>, Seq<char>)> {
    seq![(ACTIVE_MUTANT_ENV@, crate::text::decimal(id.0 as nat))] + (match hit_limit {
        Some(limit) => seq![(HIT_LIMIT_ENV@, crate::text::decimal(limit as nat))],
        None => Seq::empty(),
    })
}

/// The environment that activates a mutant.
pub fn mutant_env(options: &MutantRunOptions) -> (r: Vec<(String, String)>)
    ensures
        env_views(r@) == activation(options.active_mutant, options.hit_limit),
{
    let mut out: Vec<(String, String)> = Vec::new();
    out.push((copy_text(ACTIVE_MUTANT_ENV), options.active_mutant.to_text()));
    if let Some(limit) = options.hit_limit {
        out.push((copy_text(HIT_LIMIT_ENV), number(limit)));
    }
    proof {
        assert(env_views(out@) =~= activation(options.active_mutant, options.hit_limit));
    }
    out
}

// ---- paths of a project inside a larger one ----

/// A prefix with a slash at its end, unless it is empty.
pub open spec fn with_slash(prefix: Seq<char>) -> Seq<char> {
    if prefix.len() == 0 || crate::text::ends(prefix, "/"@) {
        prefix
    } else {
        prefix + "/"@
    }
}

/// An id without a prefix, where it has it.
pub open spec fn unprefixed(id: Seq<char>, prefix: Seq<char>) -> Seq<char> {
    match crate::text::stripped(id, prefix) {
        Some(rest) => rest,
        None => id,
    }
}

/// A filter seen from the directory of a prefix.
pub open spec fn relative_filter_of(filter: Option<Seq<Seq<char>>>, prefix: Seq<char>) -> Option<
    Seq<Seq<char>>,
> {
    match filter {
        Some(ids) => Some(ids.map_values(|id: Seq<char>| unprefixed(id, prefix))),
        None => None,
    }
}

/// A prefix with a slash at its end, unless it is empty.
pub fn close_prefix(prefix: String) -> (r: String)
    ensures
        r@ == with_slash(prefix@),
{
    if prefix.as_str().is_empty() || ends_in(prefix.as_str(), "/") {
        prefix
    } else {
        concat2(prefix.as_str(), "/")
    }
}

/// A filter seen from the directory of a prefix.
pub fn relative_filter(filter: &Option<Vec<TestId>>, prefix: &str) -> (r: Option<Vec<String>>)
    ensures
        crate::text::opt_texts(r) == relative_filter_of(crate::text::opt_texts(*filter), prefix@),
{
    match filter {
        None => None,
        Some(ids) => {
            let ghost all = crate::text::texts(ids@);
            let ghost wanted = all.map_values(|id: Seq<char>| unprefixed(id, prefix@));
            let mut out: Vec<String> = Vec::new();
            let mut i: usize = 0;
            proof {
                assert(crate::text::texts(out@) =~= wanted.take(0));
            }
            while i < ids.len()
                invariant
                    i <= ids@.len(),
                    all == crate::text::texts(ids@),
                    wanted == all.map_values(|id: Seq<char>| unprefixed(id, prefix@)),
                    crate::text::texts(out@) == wanted.take(i as int),
                decreases ids@.len() - i,
            {
                let id = match strip(ids[i].as_str(), prefix) {
                    Some(rest) => rest,
                    None => copy_text(ids[i].as_str()),
                };
                proof {
                    crate::text::lemma_texts_push(out@, id);
                    assert(all[i as int] == ids@[i as int]@);
                    assert(wanted.take(i + 1) =~= wanted.take(i as int).push(id@));
                }
                out.push(id);
                i = i + 1;
            }
            proof {
                assert(wanted.take(ids@.len() as int) =~= wanted);
            }
            Some(out)
        },
    }
}

/// What goes out with a prefix comes back in without it.
pub proof fn law_prefix_round_trip(id: Seq<char>, prefix: Seq<char>)
    ensures
        unprefixed(prefix + id, prefix) == id,
{
    assert((prefix + id).subrange(0, prefix.len() as int) =~= prefix);
    assert((prefix + id).skip(prefix.len() as int) =~= id);
}

/// A mutant is switched on by its id in the environment, together with the limit
/// of its hits where it has one.
pub proof fn law_mutants_are_switched_on(id: MutantId, limit: u64)
    ensures
        activation(id, None) == seq![
            ("__STRYKER_ACTIVE_MUTANT__"@, crate::text::decimal(id.0 as nat)),
        ],
        activation(id, Some(limit)) == seq![
            ("__STRYKER_ACTIVE_MUTANT__"@, crate::text::decimal(id.0 as nat)),
            ("__STRYKER_HIT_LIMIT__"@, crate::text::decimal(limit as nat)),
        ],
{
    assert(activation(id, None) =~= seq![
        ("__STRYKER_ACTIVE_MUTANT__"@, crate::text::decimal(id.0 as nat)),
    ]);
    assert(activation(id, Some(limit)) =~= seq![
        ("__STRYKER_ACTIVE_MUTANT__"@, crate::text::decimal(id.0 as nat)),
        ("__STRYKER_HIT_LIMIT__"@, crate::text::decimal(limit as nat)),
    ]);
}

/// A prefix is closed with one slash, unless it is empty or has one.
pub proof fn law_prefixes_end_in_a_slash(prefix: Seq<char>)
    ensures
        with_slash(prefix).len() > 0 ==> with_slash(prefix).last() == '/',
        with_slash(prefix).len() == 0 <==> prefix.len() == 0,
        prefix.len() > 0 && prefix.last() == '/' ==> with_slash(prefix) == prefix,
        prefix.len() > 0 && prefix.last() != '/' ==> with_slash(prefix) == prefix.push('/'),
        with_slash(with_slash(prefix)) == with_slash(prefix),
{
    reveal_strlit("/");
    let slash = "/"@;
    assert(slash.len() == 1 && slash[0] == '/');
    assert forall|text: Seq<char>| text.len() > 0 implies (#[trigger] crate::text::ends(text, slash)
        <==> text.last() == '/') by {
        let n = text.len() - 1;
        if text.last() == '/' {
            assert(text.subrange(n, n + 1) =~= slash);
        }
        if crate::text::ends(text, slash) {
            assert(text.subrange(n, n + 1)[0] == '/');
        }
    }
    assert(prefix + slash =~= prefix.push('/'));
    assert(crate::text::ends(with_slash(prefix), slash) || prefix.len() == 0);
}

/// A filter is seen from inside a project by taking the prefix off each id that
/// has it; the others stay, and so does their order.
pub proof fn law_filters_lose_their_prefix(ids: Seq<Seq<char>>, prefix: Seq<char>, i: int)
    requires
        0 <= i < ids.len(),
    ensures
        relative_filter_of(None, prefix) is None,
        relative_filter_of(Some(ids), prefix) matches Some(list) && list.len() == ids.len() && (
        crate::text::begins(ids[i], prefix) ==> prefix + list[i] == ids[i]) && (
        !crate::text::begins(ids[i], prefix) ==> list[i] == ids[i]),
{
    if crate::text::begins(ids[i], prefix) {
        assert(prefix + ids[i].skip(prefix.len() as int) =~= ids[i]) by {
            assert(ids[i].subrange(0, prefix.len() as int) == prefix);
            assert(ids[i] =~= ids[i].subrange(0, prefix.len() as int) + ids[i].skip(
                prefix.len() as int,
            ));
        }
    }
}

} // verus!
