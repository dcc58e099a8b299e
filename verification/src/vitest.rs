//! Vitest runner: what it asks of a long-lived shim process, one JSON line per
//! message, and what it makes of the replies.
use vstd::prelude::*;

use crate::coverage::add_counters;
use crate::coverage::static_coverage;
use crate::model::MutantCoverage;
use crate::model::TestId;
use crate::runners::close_prefix;
use crate::runners::relative_filter;
use crate::runners::Capabilities;
use crate::runners::DryRunResult;
use crate::runners::MutantRunOutcome;
use crate::runners::TestResult;
use crate::text::concat2;
use crate::text::copy_opt;
use crate::text::copy_text;
use crate::text::has_text;
use crate::text::same;
use crate::text::trim;
use crate::text_map::TextMap;

verus! {

/// A test as the shim reports it.
#[derive(Debug)]
pub struct ShimTest {
    pub id: String,
    pub file: String,
    /// The duration in milliseconds, as the bits of a double.
    pub time_bits: u64,
    pub state: String,
    pub error: Option<String>,
}

/// Coverage as the shim reports it.
pub struct ShimCoverage {
    pub static_hits: TextMap<u64>,
    pub per_test: TextMap<TextMap<u64>>,
}

/// What the shim answers.
pub enum ShimReply {
    Ready,
    DryRunResult { tests: Vec<ShimTest>, coverage: Option<ShimCoverage> },
    MutantRunResult {
        status: String,
        killed_by: Vec<String>,
        tests_ran: u32,
        failure_message: Option<String>,
        reason: Option<String>,
    },
    Disposed,
    Crash { error: String },
}

/// The paths of a vitest project inside a larger one.
#[derive(Debug)]
pub struct VitestRunner {
    /// Project-root-relative prefix of the working directory ("" when they
    /// coincide); test ids from the shim are relative to that directory and
    /// get prefixed on the way out, filters get de-prefixed on the way in.
    path_prefix: String,
}

// ---- one call ----

/// What can happen while a reply is awaited.
pub enum CallEvent {
    /// The deadline passed.
    TimedOut,
    /// The shim closed its output.
    Closed,
    /// A line came, and what it says, where it is a reply.
    Line { text: String, reply: Option<ShimReply> },
}

/// What is to be done then.
pub enum CallStep {
    /// Wait for the next line.
    Wait,
    /// Kill the shim and fail.
    Fail(String),
    /// This is the reply.
    Reply(ShimReply),
}

/// What is to be done after an event: blank lines and stray output are skipped,
/// a crash fails the call.
pub fn after_event(event: CallEvent) -> (r: CallStep)
    ensures
        match event {
            CallEvent::TimedOut => r matches CallStep::Fail(m) && m@ == "vitest shim timed out"@,
            CallEvent::Closed => r matches CallStep::Fail(m) && m@
                == "vitest shim closed its stdout"@,
            CallEvent::Line { text, reply } => if crate::text::trimmed(text@).len() == 0 {
                r is Wait
            } else {
                match reply {
                    None => r is Wait,
                    Some(ShimReply::Crash { error }) => r matches CallStep::Fail(m) && m@
                        == "vitest shim crashed: "@ + error@,
                    Some(other) => r == CallStep::Reply(other),
                }
            },
        },
{
    match event {
        CallEvent::TimedOut => CallStep::Fail(copy_text("vitest shim timed out")),
        CallEvent::Closed => CallStep::Fail(copy_text("vitest shim closed its stdout")),
        CallEvent::Line { text, reply } => {
            if trim(text.as_str()).as_str().is_empty() {
                return CallStep::Wait;
            }
            match reply {
                None => CallStep::Wait,
                Some(ShimReply::Crash { error }) => CallStep::Fail(
                    concat2("vitest shim crashed: ", error.as_str()),
                ),
                Some(other) => CallStep::Reply(other),
            }
        },
    }
}

/// Whether the message of a failed call tells of a timeout.
pub open spec fn tells_timeout(message: Seq<char>) -> bool {
    crate::text::has(message, "timed out"@)
}

// ---- coverage ----

/// The buckets of a shim under prefixed test ids.
pub open spec fn prefixed_buckets(
    tests: Seq<Seq<char>>,
    buckets: Seq<TextMap<u64>>,
    prefix: Seq<char>,
) -> Map<Seq<char>, Map<u32, u64>>
    decreases tests.len(),
{
    if tests.len() == 0 {
        Map::empty()
    } else {
        crate::coverage::with_counters(
            prefixed_buckets(tests.drop_last(), buckets.drop_last(), prefix),
            prefix + tests.last(),
            buckets.last(),
        )
    }
}

/// The coverage that a shim reports, under prefixed test ids.
pub open spec fn coverage_of(shim: ShimCoverage, prefix: Seq<char>) -> crate::model::CoverageView {
    crate::model::CoverageView {
        static_hits: crate::coverage::overwritten(
            Map::empty(),
            shim.static_hits.keys(),
            shim.static_hits.values(),
        ),
        per_test: prefixed_buckets(shim.per_test.keys(), shim.per_test.values(), prefix),
    }
}

/// Turns the coverage of a shim into that of mutants and tests.
pub fn convert_coverage(shim: &ShimCoverage, path_prefix: &str) -> (r: MutantCoverage)
    ensures
        r@ == coverage_of(*shim, path_prefix@),
{
    let ghost tests = shim.per_test.keys();
    let ghost buckets = shim.per_test.values();
    let mut coverage = static_coverage(&shim.static_hits);
    let ghost hits = coverage@.static_hits;
    let total = shim.per_test.len();
    let mut i: usize = 0;
    while i < total
        invariant
            i <= total == tests.len(),
            tests.len() == buckets.len(),
            tests == shim.per_test.keys(),
            buckets == shim.per_test.values(),
            coverage@.static_hits == hits,
            coverage@.per_test == prefixed_buckets(
                tests.take(i as int),
                buckets.take(i as int),
                path_prefix@,
            ),
        decreases total - i,
    {
        proof {
            assert(tests.take(i + 1).drop_last() =~= tests.take(i as int));
            assert(buckets.take(i + 1).drop_last() =~= buckets.take(i as int));
        }
        let test = concat2(path_prefix, shim.per_test.key_at(i).as_str());
        add_counters(&mut coverage, test, shim.per_test.value_at(i));
        i = i + 1;
    }
    proof {
        assert(tests.take(total as int) =~= tests);
        assert(buckets.take(total as int) =~= buckets);
    }
    coverage
}

// ---- results ----

/// The result of a test under a prefix.
pub open spec fn result_of(t: ShimTest, prefix: Seq<char>) -> crate::runners::TestResultView {
    crate::runners::TestResultView {
        id: prefix + t.id@,
        name: prefix + t.id@,
        file: Some(prefix + t.file@),
        time_bits: t.time_bits,
        failed: t.state@ == "fail"@,
        failure: crate::text::opt_text(t.error),
    }
}

/// What a dry run gave; `shown` is how an unexpected reply is displayed.
pub open spec fn dry_run_of(
    reply: Result<ShimReply, Seq<char>>,
    prefix: Seq<char>,
    shown: Seq<char>,
    gross_ms: u64,
) -> crate::runners::DryRunView {
    match reply {
        Err(message) => if tells_timeout(message) {
            crate::runners::DryRunView::Timeout
        } else {
            crate::runners::DryRunView::Error(message)
        },
        Ok(ShimReply::DryRunResult { tests, coverage }) => crate::runners::DryRunView::Complete {
            tests: tests@.map_values(|t: ShimTest| result_of(t, prefix)),
            coverage: match coverage {
                Some(c) => Some(coverage_of(c, prefix)),
                None => None,
            },
            gross_ms,
        },
        Ok(_) => crate::runners::DryRunView::Error("unexpected shim reply: "@ + shown),
    }
}

/// Every text with a prefix.
pub open spec fn all_prefixed(ids: Seq<Seq<char>>, prefix: Seq<char>) -> Seq<Seq<char>> {
    ids.map_values(|id: Seq<char>| prefix + id)
}

/// What a mutant run gave; `shown` is how an unexpected reply is displayed.
pub open spec fn outcome_of(
    reply: Result<ShimReply, Seq<char>>,
    prefix: Seq<char>,
    shown: Seq<char>,
) -> crate::runners::OutcomeView {
    match reply {
        Err(message) => if tells_timeout(message) {
            crate::runners::OutcomeView::Timeout { reason: Some("wall-clock timeout"@) }
        } else {
            crate::runners::OutcomeView::Error(message)
        },
        Ok(ShimReply::MutantRunResult { status, killed_by, tests_ran, failure_message, reason }) => {
            if status@ == "killed"@ {
                crate::runners::OutcomeView::Killed {
                    killed_by: all_prefixed(crate::text::texts(killed_by@), prefix),
                    tests_ran,
                    failure: crate::text::opt_text(failure_message),
                }
            } else if status@ == "survived"@ {
                crate::runners::OutcomeView::Survived { tests_ran }
            } else if status@ == "timeout"@ {
                crate::runners::OutcomeView::Timeout { reason: crate::text::opt_text(reason) }
            } else {
                crate::runners::OutcomeView::Error(
                    "unknown shim status "@ + crate::text::quoted(status@),
                )
            }
        },
        Ok(_) => crate::runners::OutcomeView::Error("unexpected shim reply: "@ + shown),
    }
}

/// A reply, or the characters of a message.
pub open spec fn reply_view(reply: Result<ShimReply, String>) -> Result<ShimReply, Seq<char>> {
    match reply {
        Ok(reply) => Ok(reply),
        Err(message) => Err(message@),
    }
}

impl VitestRunner {
    /// The prefix of all test ids.
    pub closed spec fn view(&self) -> Seq<char> {
        self.path_prefix@
    }

    /// A runner whose working directory is `path_prefix`, relative to the
    /// project root.
    pub fn new(path_prefix: String) -> (r: VitestRunner)
        ensures
            r@ == crate::runners::with_slash(path_prefix@),
    {
        VitestRunner { path_prefix: close_prefix(path_prefix) }
    }

    /// vitest observes single tests.
    pub fn capabilities(&self) -> (r: Capabilities)
        ensures
            r.per_test_coverage,
    {
        Capabilities { per_test_coverage: true }
    }

    /// A test id or path of the shim, seen from the project root.
    pub fn prefix(&self, id: &str) -> (r: String)
        ensures
            r@ == self@ + id@,
    {
        concat2(self.path_prefix.as_str(), id)
    }

    /// A filter as the shim understands it.
    pub fn filter(&self, filter: &Option<Vec<TestId>>) -> (r: Option<Vec<String>>)
        ensures
            crate::text::opt_texts(r) == crate::runners::relative_filter_of(
                crate::text::opt_texts(*filter),
                self@,
            ),
    {
        relative_filter(filter, self.path_prefix.as_str())
    }

    /// What a dry run gave: `shown` is how an unexpected reply is displayed,
    /// `gross_ms` how long it took.
    pub fn dry_run_result(
        &self,
        reply: Result<ShimReply, String>,
        shown: &str,
        gross_ms: u64,
    ) -> (r: DryRunResult)
        ensures
            r@ == dry_run_of(reply_view(reply), self@, shown@, gross_ms),
    {
        match reply {
            Err(message) => {
                if has_text(message.as_str(), "timed out") {
                    DryRunResult::Timeout
                } else {
                    DryRunResult::Error(message)
                }
            },
            Ok(ShimReply::DryRunResult { tests, coverage }) => {
                let ghost all = tests@.map_values(|t: ShimTest| result_of(t, self@));
                let mut results: Vec<TestResult> = Vec::new();
                let mut i: usize = 0;
                proof {
                    assert(crate::runners::test_views(results@) =~= all.take(0));
                }
                while i < tests.len()
                    invariant
                        i <= tests@.len(),
                        all == tests@.map_values(|t: ShimTest| result_of(t, self@)),
                        crate::runners::test_views(results@) == all.take(i as int),
                    decreases tests@.len() - i,
                {
                    let t = &tests[i];
                    let result = TestResult {
                        id: self.prefix(t.id.as_str()),
                        name: self.prefix(t.id.as_str()),
                        file: Some(self.prefix(t.file.as_str())),
                        time_bits: t.time_bits,
                        failed: same(t.state.as_str(), "fail"),
                        failure: copy_opt(&t.error),
                    };
                    let ghost before = results@;
                    results.push(result);
                    proof {
                        assert(result@ == all[i as int]);
                        assert(crate::runners::test_views(results@) =~= crate::runners::test_views(
                            before,
                        ).push(result@));
                        assert(all.take(i + 1) =~= all.take(i as int).push(all[i as int]));
                    }
                    i = i + 1;
                }
                proof {
                    assert(all.take(tests@.len() as int) =~= all);
                }
                let converted = match &coverage {
                    Some(c) => Some(convert_coverage(c, self.path_prefix.as_str())),
                    None => None,
                };
                DryRunResult::Complete { tests: results, coverage: converted, gross_ms }
            },
            Ok(_) => DryRunResult::Error(concat2("unexpected shim reply: ", shown)),
        }
    }

    /// What a mutant run gave; `shown` is how an unexpected reply is displayed.
    pub fn mutant_outcome(&self, reply: Result<ShimReply, String>, shown: &str) -> (r: MutantRunOutcome)
        ensures
            r@ == outcome_of(reply_view(reply), self@, shown@),
    {
        match reply {
            Err(message) => {
                if has_text(message.as_str(), "timed out") {
                    MutantRunOutcome::Timeout { reason: Some(copy_text("wall-clock timeout")) }
                } else {
                    MutantRunOutcome::Error(message)
                }
            },
            Ok(
                ShimReply::MutantRunResult { status, killed_by, tests_ran, failure_message, reason },
            ) => {
                if same(status.as_str(), "killed") {
                    MutantRunOutcome::Killed {
                        killed_by: self.prefix_all(&killed_by),
                        tests_ran,
                        failure: failure_message,
                    }
                } else if same(status.as_str(), "survived") {
                    MutantRunOutcome::Survived { tests_ran }
                } else if same(status.as_str(), "timeout") {
                    MutantRunOutcome::Timeout { reason }
                } else {
                    MutantRunOutcome::Error(
                        concat2(
                            "unknown shim status ",
                            crate::text::quote(status.as_str()).as_str(),
                        ),
                    )
                }
            },
            Ok(_) => MutantRunOutcome::Error(concat2("unexpected shim reply: ", shown)),
        }
    }

    fn prefix_all(&self, ids: &Vec<String>) -> (r: Vec<String>)
        ensures
            crate::text::texts(r@) == all_prefixed(crate::text::texts(ids@), self@),
    {
        let ghost all = crate::text::texts(ids@);
        let ghost wanted = all_prefixed(all, self@);
        let mut out: Vec<String> = Vec::new();
        let mut i: usize = 0;
        proof {
            assert(crate::text::texts(out@) =~= wanted.take(0));
        }
        while i < ids.len()
            invariant
                i <= ids@.len(),
                all == crate::text::texts(ids@),
                wanted == all_prefixed(all, self@),
                crate::text::texts(out@) == wanted.take(i as int),
            decreases ids@.len() - i,
        {
            let id = self.prefix(ids[i].as_str());
            proof {
                crate::text::lemma_texts_push(out@, id);
                assert(all[i as int] == ids@[i as int]@);
                assert(wanted.take(i + 1) =~= wanted.take(i as int).push(id@));
            }
            out.push(id);
            i = i + 1;
        }
        proof {
            assert(wanted.take(ids@.len() as int) =~= wanted);
        }
        out
    }
}

/// The shim is handed the config file of the project, never one of its own.
pub fn shim_config_file(_temp: &str) -> (r: Option<String>)
    ensures
        r is None,
{
    None
}

/// The outcome of a mutant is the one that the reply names: killed with its
/// killers, seen from the root, survived, or timed out. A call that failed is an
/// error, and one that took too long a timeout.
pub proof fn law_replies_become_outcomes(
    reply: ShimReply,
    message: Seq<char>,
    prefix: Seq<char>,
    shown: Seq<char>,
)
    ensures
        crate::text::has(message, "timed out"@) ==> outcome_of(Err(message), prefix, shown)
            == (crate::runners::OutcomeView::Timeout { reason: Some("wall-clock timeout"@) }),
        !crate::text::has(message, "timed out"@) ==> outcome_of(Err(message), prefix, shown)
            == crate::runners::OutcomeView::Error(message),
        reply matches ShimReply::MutantRunResult {
            status,
            killed_by,
            tests_ran,
            failure_message,
            reason,
        } ==> {
            let o = outcome_of(Ok(reply), prefix, shown);
            &&& status@ == "killed"@ ==> o == (crate::runners::OutcomeView::Killed {
                killed_by: killed_by@.map_values(|id: String| prefix + id@),
                tests_ran,
                failure: crate::text::opt_text(failure_message),
            })
            &&& status@ == "survived"@ ==> o == (crate::runners::OutcomeView::Survived {
                tests_ran,
            })
            &&& status@ == "timeout"@ ==> o == (crate::runners::OutcomeView::Timeout {
                reason: crate::text::opt_text(reason),
            })
            &&& status@ != "killed"@ && status@ != "survived"@ && status@ != "timeout"@ ==> o is Error
        },
        !(reply is MutantRunResult) ==> outcome_of(Ok(reply), prefix, shown)
            == crate::runners::OutcomeView::Error("unexpected shim reply: "@ + shown),
{
    reveal_strlit("killed");
    reveal_strlit("survived");
    reveal_strlit("timeout");
    assert("killed"@.len() == 6);
    assert("survived"@.len() == 8);
    assert("timeout"@.len() == 7);
    if let ShimReply::MutantRunResult { status, killed_by, tests_ran, failure_message, reason } =
        reply {
        assert(all_prefixed(crate::text::texts(killed_by@), prefix) =~= killed_by@.map_values(
            |id: String| prefix + id@,
        ));
    }
}

/// A dry run lists the tests of the reply in order, seen from the root, each with
/// its time, and failed where its state says so.
pub proof fn law_replies_become_dry_runs(
    tests: Vec<ShimTest>,
    coverage: Option<ShimCoverage>,
    message: Seq<char>,
    prefix: Seq<char>,
    shown: Seq<char>,
    gross_ms: u64,
    i: int,
)
    requires
        0 <= i < tests@.len(),
    ensures
        crate::text::has(message, "timed out"@) <==> dry_run_of(
            Err(message),
            prefix,
            shown,
            gross_ms,
        ) is Timeout,
        !crate::text::has(message, "timed out"@) ==> dry_run_of(
            Err(message),
            prefix,
            shown,
            gross_ms,
        ) == crate::runners::DryRunView::Error(message),
        ({
            let d = dry_run_of(
                Ok(ShimReply::DryRunResult { tests, coverage }),
                prefix,
                shown,
                gross_ms,
            );
            let t = tests@[i];
            &&& d is Complete
            &&& d->tests.len() == tests@.len()
            &&& d->tests[i].id == prefix + t.id@
            &&& d->tests[i].name == prefix + t.id@
            &&& d->tests[i].file == Some(prefix + t.file@)
            &&& d->tests[i].time_bits == t.time_bits
            &&& d->tests[i].failed <==> t.state@ == "fail"@
            &&& d->tests[i].failure == crate::text::opt_text(t.error)
            &&& d->gross_ms == gross_ms
            &&& d->coverage is Some <==> coverage is Some
        }),
{
}

proof fn lemma_prefixed_buckets(
    tests: Seq<Seq<char>>,
    buckets: Seq<TextMap<u64>>,
    prefix: Seq<char>,
    test: Seq<char>,
)
    requires
        tests.len() == buckets.len(),
    ensures
        prefixed_buckets(tests, buckets, prefix).contains_key(prefix + test) <==> tests.contains(
            test,
        ),
        prefixed_buckets(tests, buckets, prefix).contains_key(test) ==> crate::text::begins(
            test,
            prefix,
        ),
    decreases tests.len(),
{
    if tests.len() > 0 {
        let front = tests.drop_last();
        let last = tests.last();
        lemma_prefixed_buckets(front, buckets.drop_last(), prefix, test);
        assert(tests[tests.len() - 1] == last);
        if front.contains(test) {
            let k = front.index_of(test);
            assert(tests[k] == test);
        }
        if tests.contains(test) && test != last {
            let k = tests.index_of(test);
            assert(front[k] == test);
        }
        if prefix + test == prefix + last {
            assert(test =~= (prefix + test).skip(prefix.len() as int));
            assert(last =~= (prefix + last).skip(prefix.len() as int));
        }
        assert((prefix + last).subrange(0, prefix.len() as int) =~= prefix);
    }
}

/// The coverage of a reply has a bucket for each of its tests, seen from the root,
/// and no other.
pub proof fn law_coverage_of_a_reply(shim: ShimCoverage, prefix: Seq<char>, test: Seq<char>)
    requires
        shim.per_test.keys().len() == shim.per_test.values().len(),
    ensures
        coverage_of(shim, prefix).per_test.contains_key(prefix + test)
            <==> shim.per_test.keys().contains(test),
        coverage_of(shim, prefix).per_test.contains_key(test) ==> crate::text::begins(test, prefix),
{
    lemma_prefixed_buckets(shim.per_test.keys(), shim.per_test.values(), prefix, test);
}

} // verus!
