//! Builds the report from run results, and counts what a score is made of.
use std::collections::BTreeMap;
use vstd::prelude::*;

use crate::model::Mutant;
use crate::model::MutantResult;
use crate::model::MutantStatus;
use crate::schema::language_for;
use crate::schema::Branding;
use crate::schema::FileResult;
use crate::schema::FrameworkInformation;
use crate::schema::MutantResultJson;
use crate::schema::MutationTestResult;
use crate::schema::Performance;
use crate::schema::SchemaThresholds;
use crate::schema::TestFile;
use crate::schema::SCHEMA_VERSION;
use crate::text::copy_opt;
use crate::text::copy_text;
use crate::text::copy_texts;
use crate::text_map::TextMap;

verus! {

broadcast use vstd::std_specs::btree::group_btree_axioms;

/// The version of this program.
pub const VERSION: &'static str = "0.1.0";

/// What a report is built from.
pub struct ReportInput<'a> {
    /// Every mutate target (even zero-mutant ones) with its original source.
    pub file_sources: &'a TextMap<String>,
    pub mutants: &'a Vec<Mutant>,
    /// Indexed by mutant id.
    pub results: &'a BTreeMap<u32, MutantResult>,
    pub thresholds: SchemaThresholds,
    pub project_root: Option<String>,
    pub config: Option<serde_json::Value>,
    pub test_files: Option<TextMap<TestFile>>,
    pub performance: Option<Performance>,
}

/// The result of a mutant, where it has one.
pub open spec fn result_at(results: Map<u32, MutantResult>, id: u32) -> Option<
    crate::model::ResultView,
> {
    if results.dom().contains(id) {
        Some(results[id]@)
    } else {
        None
    }
}

/// A list, where it has anything.
pub open spec fn filled(list: Seq<Seq<char>>) -> Option<Seq<Seq<char>>> {
    if list.len() > 0 {
        Some(list)
    } else {
        None
    }
}

/// A mutant and its result as the report shows them. A mutant without a result
/// is pending.
pub open spec fn entry_of(
    m: crate::instrument::MutantView,
    result: Option<crate::model::ResultView>,
) -> crate::schema::JsonView {
    crate::schema::JsonView {
        id: crate::text::decimal(m.id as nat),
        mutator_name: m.mutator_name,
        location: m.location,
        status: match result {
            Some(r) => r.status,
            None => MutantStatus::Pending,
        },
        replacement: Some(m.replacement),
        covered_by: match result {
            Some(r) => filled(r.covered_by),
            None => None,
        },
        killed_by: match result {
            Some(r) => filled(r.killed_by),
            None => None,
        },
        description: None,
        duration: match result {
            Some(r) => r.duration,
            None => None,
        },
        is_static: match result {
            Some(r) => r.is_static,
            None => None,
        },
        status_reason: match result {
            Some(r) => r.status_reason,
            None => None,
        },
        tests_completed: match result {
            Some(r) => if r.tests_ran > 0 {
                Some(r.tests_ran)
            } else {
                None
            },
            None => None,
        },
    }
}

/// The entries of the mutants of a file, in order.
pub open spec fn entries_of(
    path: Seq<char>,
    mutants: Seq<crate::instrument::MutantView>,
    results: Map<u32, MutantResult>,
) -> Seq<crate::schema::JsonView>
    decreases mutants.len(),
{
    if mutants.len() == 0 {
        Seq::empty()
    } else {
        let front = entries_of(path, mutants.drop_last(), results);
        let m = mutants.last();
        if m.file == path {
            front.push(entry_of(m, result_at(results, m.id)))
        } else {
            front
        }
    }
}

/// Whether a file has a mutant.
pub open spec fn is_mutated(path: Seq<char>, mutants: Seq<crate::instrument::MutantView>) -> bool {
    exists|i: int| 0 <= i < mutants.len() && (#[trigger] mutants[i]).file == path
}

/// A file of the report.
pub open spec fn file_of(
    path: Seq<char>,
    sources: Map<Seq<char>, String>,
    mutants: Seq<crate::instrument::MutantView>,
    results: Map<u32, MutantResult>,
) -> crate::schema::FileView {
    crate::schema::FileView {
        language: crate::schema::language_of(path),
        source: if sources.dom().contains(path) {
            sources[path]@
        } else {
            Seq::empty()
        },
        mutants: entries_of(path, mutants, results),
    }
}

/// The files of the report: every file with a source, mutated or not, and every
/// mutated file.
pub open spec fn files_of(
    sources: Map<Seq<char>, String>,
    mutants: Seq<crate::instrument::MutantView>,
    results: Map<u32, MutantResult>,
) -> Map<Seq<char>, crate::schema::FileView> {
    Map::new(
        |path: Seq<char>| sources.dom().contains(path) || is_mutated(path, mutants),
        |path: Seq<char>| file_of(path, sources, mutants, results),
    )
}

fn filled_copy(list: &Vec<String>) -> (r: Option<Vec<String>>)
    ensures
        crate::text::opt_texts(r) == filled(crate::text::texts(list@)),
{
    if list.len() > 0 {
        Some(copy_texts(list))
    } else {
        None
    }
}

/// A mutant and its result as the report shows them.
pub fn report_entry(mutant: &Mutant, result: Option<&MutantResult>) -> (r: MutantResultJson)
    ensures
        r@ == entry_of(
            mutant@,
            match result {
                Some(result) => Some(result@),
                None => None,
            },
        ),
{
    let id = mutant.id.to_text();
    let mutator_name = copy_text(mutant.mutator_name);
    let replacement = Some(copy_text(mutant.replacement.as_str()));
    match result {
        Some(result) => MutantResultJson {
            id,
            mutator_name,
            location: mutant.location,
            status: result.status,
            replacement,
            covered_by: filled_copy(&result.covered_by),
            killed_by: filled_copy(&result.killed_by),
            description: None,
            duration: result.duration,
            is_static: result.is_static,
            status_reason: copy_opt(&result.status_reason),
            tests_completed: if result.tests_ran > 0 {
                Some(result.tests_ran)
            } else {
                None
            },
        },
        None => MutantResultJson {
            id,
            mutator_name,
            location: mutant.location,
            status: MutantStatus::Pending,
            replacement,
            covered_by: None,
            killed_by: None,
            description: None,
            duration: None,
            is_static: None,
            status_reason: None,
            tests_completed: None,
        },
    }
}

fn empty_files(sources: &TextMap<String>) -> (r: TextMap<FileResult>)
    ensures
        crate::schema::file_views(r@) == files_of(
            sources@,
            Seq::empty(),
            Map::<u32, MutantResult>::empty(),
        ),
{
    let ghost none = Seq::<crate::instrument::MutantView>::empty();
    let ghost no_results = Map::<u32, MutantResult>::empty();
    let mut files: TextMap<FileResult> = TextMap::new();
    let total = sources.len();
    sources.facts();
    let ghost keys = sources.keys();
    let mut i: usize = 0;
    while i < total
        invariant
            i <= total == keys.len(),
            keys == sources.keys(),
            keys.len() == sources.values().len(),
            keys.no_duplicates(),
            forall|k: int|
                0 <= k < keys.len() ==> sources@.dom().contains(#[trigger] keys[k])
                    && sources@[keys[k]] == sources.values()[k],
            forall|path: Seq<char>| #[trigger]
                files@.dom().contains(path) <==> keys.take(i as int).contains(path),
            forall|path: Seq<char>| #[trigger]
                files@.dom().contains(path) ==> files@[path]@ == file_of(
                    path,
                    sources@,
                    none,
                    no_results,
                ),
            none == Seq::<crate::instrument::MutantView>::empty(),
        decreases total - i,
    {
        let path = sources.key_at(i);
        let file = FileResult {
            language: copy_text(language_for(path.as_str())),
            source: copy_text(sources.value_at(i).as_str()),
            mutants: Vec::new(),
        };
        let ghost before = files@;
        proof {
            assert(file@.mutants =~= entries_of(path@, none, no_results));
            assert(file@ == file_of(path@, sources@, none, no_results));
            let upto = keys.take(i + 1);
            assert(upto =~= keys.take(i as int).push(path@));
            assert forall|p: Seq<char>| #[trigger] upto.contains(p) <==> keys.take(i as int).contains(
                p,
            ) || p == path@ by {
                assert(upto[i as int] == path@);
                if keys.take(i as int).contains(p) {
                    let k = keys.take(i as int).index_of(p);
                    assert(upto[k] == p);
                }
                if upto.contains(p) {
                    let k = upto.index_of(p);
                    if k < i {
                        assert(keys.take(i as int)[k] == p);
                    }
                }
            }
        }
        files.insert(copy_text(path.as_str()), file);
        i = i + 1;
    }
    proof {
        assert(keys.take(total as int) =~= keys);
        let want = files_of(sources@, none, no_results);
        let have = crate::schema::file_views(files@);
        assert forall|path: Seq<char>| #[trigger] have.dom().contains(path) <==> want.dom().contains(
            path,
        ) by {
            assert(files@.dom().contains(path) <==> keys.contains(path));
            assert(sources@.dom().contains(path) <==> keys.contains(path));
        }
        assert forall|path: Seq<char>| #[trigger] have.dom().contains(path) implies have[path]
            == want[path] by {
            assert(files@.dom().contains(path));
        }
        assert(have =~= want);
    }
    files
}

/// Whether a report names this program as its author.
pub open spec fn names_this_program(framework: Option<FrameworkInformation>) -> bool {
    match framework {
        Some(f) => f.name@ == "stryker-rs"@ && crate::text::opt_text(f.version) == Some(VERSION@)
            && (match f.branding {
            Some(b) => b.homepage_url@ == "https://github.com/abhinavpola/stryker-rs"@
                && b.image_url is None,
            None => false,
        }),
        None => false,
    }
}

/// The report of a run.
pub fn build_report(input: ReportInput<'_>) -> (r: MutationTestResult)
    ensures
        r.schema_version@ == SCHEMA_VERSION@,
        r.thresholds == input.thresholds,
        r.project_root == input.project_root,
        crate::schema::file_views(r.files@) == files_of(
            input.file_sources@,
            crate::instrument::mutant_views(input.mutants@),
            input.results@,
        ),
        r.test_files == input.test_files,
        names_this_program(r.framework),
        r.config == input.config,
        r.performance == input.performance,
{
    let ghost all = crate::instrument::mutant_views(input.mutants@);
    let ghost sources = input.file_sources@;
    let ghost results = input.results@;
    let mutants = input.mutants;
    let mut files = empty_files(input.file_sources);
    proof {
        let none = Seq::<crate::instrument::MutantView>::empty();
        assert(all.take(0) =~= none);
        let a = files_of(sources, none, Map::<u32, MutantResult>::empty());
        let b = files_of(sources, none, results);
        assert(a =~= b);
    }
    let mut i: usize = 0;
    while i < mutants.len()
        invariant
            i <= mutants@.len(),
            mutants == input.mutants,
            all == crate::instrument::mutant_views(mutants@),
            sources == input.file_sources@,
            results == input.results@,
            crate::schema::file_views(files@) == files_of(sources, all.take(i as int), results),
        decreases mutants@.len() - i,
    {
        let mutant = &mutants[i];
        let path = mutant.file.as_str();
        let ghost upto = all.take(i + 1);
        let ghost front = all.take(i as int);
        proof {
            assert(upto.drop_last() =~= front);
            assert(upto.last() == mutant@);
            assert(all[i as int] == mutant@);
        }
        let found = input.results.get(&mutant.id.0);
        let entry = report_entry(mutant, found);
        proof {
            assert(entry@ == entry_of(mutant@, result_at(results, mutant@.id)));
        }
        let ghost before = files@;
        let mut file = match files.take(path) {
            Some(file) => {
                proof {
                    assert(crate::schema::file_views(before).dom().contains(path@));
                    assert(crate::schema::file_views(before)[path@] == file@);
                }
                file
            },
            None => {
                let fresh = FileResult {
                    language: copy_text(language_for(path)),
                    source: String::new(),
                    mutants: Vec::new(),
                };
                proof {
                    assert(!crate::schema::file_views(before).dom().contains(path@));
                    lemma_unmutated(path@, front, results);
                    assert(fresh@.mutants =~= entries_of(path@, front, results));
                    assert(fresh@.source =~= Seq::<char>::empty());
                }
                fresh
            },
        };
        proof {
            assert(file@ == file_of(path@, sources, front, results));
        }
        let ghost listed = file.mutants@;
        file.mutants.push(entry);
        proof {
            assert(crate::schema::json_views(file.mutants@) =~= crate::schema::json_views(
                listed,
            ).push(entry@));
            assert(file@ == file_of(path@, sources, upto, results));
        }
        files.insert(copy_text(path), file);
        proof {
            let want = files_of(sources, upto, results);
            let have = crate::schema::file_views(files@);
            assert forall|p: Seq<char>| is_mutated(p, upto) <==> is_mutated(p, front) || p
                == path@ by {
                if is_mutated(p, upto) {
                    let k = choose|k: int| 0 <= k < upto.len() && (#[trigger] upto[k]).file == p;
                    if k < i {
                        assert(front[k].file == p);
                    }
                }
                if is_mutated(p, front) {
                    let k = choose|k: int| 0 <= k < front.len() && (#[trigger] front[k]).file == p;
                    assert(upto[k].file == p);
                }
                assert(upto[i as int].file == path@);
            }
            assert forall|p: Seq<char>| #[trigger] have.dom().contains(p) <==> want.dom().contains(
                p,
            ) by {
                assert(have.dom().contains(p) <==> files@.dom().contains(p));
                assert(crate::schema::file_views(before).dom().contains(p)
                    <==> before.dom().contains(p));
            }
            assert forall|p: Seq<char>| #[trigger] have.dom().contains(p) implies have[p]
                == want[p] by {
                if p != path@ {
                    assert(before.dom().contains(p));
                    assert(crate::schema::file_views(before).dom().contains(p));
                    assert(crate::schema::file_views(before)[p] == file_of(
                        p,
                        sources,
                        front,
                        results,
                    ));
                    assert(entries_of(p, upto, results) == entries_of(p, front, results));
                }
            }
            assert(have =~= want);
        }
        i = i + 1;
    }
    proof {
        assert(all.take(mutants@.len() as int) =~= all);
    }
    MutationTestResult {
        schema_version: copy_text(SCHEMA_VERSION),
        thresholds: input.thresholds,
        project_root: input.project_root,
        files,
        test_files: input.test_files,
        framework: Some(
            FrameworkInformation {
                name: copy_text("stryker-rs"),
                version: Some(copy_text(VERSION)),
                branding: Some(
                    Branding {
                        homepage_url: copy_text("https://github.com/abhinavpola/stryker-rs"),
                        image_url: None,
                    },
                ),
            },
        ),
        config: input.config,
        performance: input.performance,
    }
}

proof fn lemma_unmutated(
    path: Seq<char>,
    mutants: Seq<crate::instrument::MutantView>,
    results: Map<u32, MutantResult>,
)
    requires
        !is_mutated(path, mutants),
    ensures
        entries_of(path, mutants, results).len() == 0,
    decreases mutants.len(),
{
    if mutants.len() > 0 {
        let front = mutants.drop_last();
        assert forall|i: int| 0 <= i < front.len() implies (#[trigger] front[i]).file != path by {
            assert(mutants[i].file != path);
        }
        assert(mutants[mutants.len() - 1].file != path);
        lemma_unmutated(path, front, results);
    }
}

/// Every mutate target is in the report, even one without mutants.
pub proof fn law_every_target_is_reported(
    sources: Map<Seq<char>, String>,
    mutants: Seq<crate::instrument::MutantView>,
    results: Map<u32, MutantResult>,
    path: Seq<char>,
)
    requires
        sources.dom().contains(path),
    ensures
        files_of(sources, mutants, results).dom().contains(path),
        files_of(sources, mutants, results)[path].source == sources[path]@,
        !is_mutated(path, mutants) ==> files_of(sources, mutants, results)[path].mutants.len() == 0,
{
    if !is_mutated(path, mutants) {
        lemma_unmutated(path, mutants, results);
    }
}

/// Reading the entry of a reported mutant gives its result back. A list that is
/// missing stands for the empty one and a missing count for zero; of a result
/// that is carried over only the duration is lost.
pub proof fn law_entries_read_back(
    m: crate::instrument::MutantView,
    r: crate::model::ResultView,
)
    ensures
        ({
            let e = entry_of(m, Some(r));
            &&& e.status == r.status
            &&& (e.killed_by matches Some(tests) ==> tests == r.killed_by)
            &&& (e.killed_by is None ==> r.killed_by.len() == 0)
            &&& (e.covered_by matches Some(tests) ==> tests == r.covered_by)
            &&& (e.covered_by is None ==> r.covered_by.len() == 0)
            &&& (e.tests_completed matches Some(n) ==> n == r.tests_ran)
            &&& (e.tests_completed is None ==> r.tests_ran == 0)
            &&& e.duration == r.duration
            &&& e.is_static == r.is_static
            &&& e.status_reason == r.status_reason
        }),
        crate::incremental::carried_over(entry_of(m, Some(r))) == (crate::model::ResultView {
            duration: None,
            ..r
        }),
{
    let back = crate::incremental::carried_over(entry_of(m, Some(r)));
    assert(back.killed_by =~= r.killed_by);
    assert(back.covered_by =~= r.covered_by);
}

/// The entry of a mutant names it as it is: its id in decimal, its mutator, its
/// place and its replacement, whatever its result. Without a result it is
/// pending, and nothing is said of tests.
pub proof fn law_entries_name_their_mutant(
    m: crate::instrument::MutantView,
    result: Option<crate::model::ResultView>,
)
    ensures
        crate::text::decimal_value(entry_of(m, result).id) == m.id,
        crate::text::all_digits(entry_of(m, result).id),
        entry_of(m, result).mutator_name == m.mutator_name,
        entry_of(m, result).location == m.location,
        entry_of(m, result).replacement == Some(m.replacement),
        result is None ==> entry_of(m, result).status == MutantStatus::Pending && entry_of(
            m,
            result,
        ).killed_by is None && entry_of(m, result).covered_by is None && entry_of(
            m,
            result,
        ).tests_completed is None,
{
    crate::text::lemma_decimal_digits(m.id as nat);
}

/// Every mutant is reported once, in the file it belongs to, in the order of the
/// mutants: the entry of a mutant stands behind those of the earlier mutants of
/// its file, and reads back as the mutant's own result.
pub proof fn law_every_mutant_is_reported(
    sources: Map<Seq<char>, String>,
    mutants: Seq<crate::instrument::MutantView>,
    results: Map<u32, MutantResult>,
    i: int,
)
    requires
        0 <= i < mutants.len(),
    ensures
        ({
            let path = mutants[i].file;
            let files = files_of(sources, mutants, results);
            let own = |m: crate::instrument::MutantView| m.file == path;
            let k = mutants.take(i).filter(own).len();
            &&& files.dom().contains(path)
            &&& files[path].mutants.len() == mutants.filter(own).len()
            &&& k < files[path].mutants.len()
            &&& crate::text::decimal_value(files[path].mutants[k as int].id) == mutants[i].id
            &&& files[path].mutants[k as int].location == mutants[i].location
            &&& files[path].mutants[k as int].status == (if results.dom().contains(mutants[i].id) {
                results[mutants[i].id].status
            } else {
                MutantStatus::Pending
            })
        }),
{
    let path = mutants[i].file;
    lemma_entry_at(path, mutants, results, i);
    law_entries_name_their_mutant(mutants[i], result_at(results, mutants[i].id));
    assert(is_mutated(path, mutants));
}

proof fn lemma_entry_at(
    path: Seq<char>,
    mutants: Seq<crate::instrument::MutantView>,
    results: Map<u32, MutantResult>,
    i: int,
)
    requires
        0 <= i < mutants.len() ==> mutants[i].file == path,
    ensures
        entries_of(path, mutants, results).len() == mutants.filter(
            |m: crate::instrument::MutantView| m.file == path,
        ).len(),
        0 <= i < mutants.len() ==> mutants.take(i).filter(
            |m: crate::instrument::MutantView| m.file == path,
        ).len() < entries_of(path, mutants, results).len(),
        0 <= i < mutants.len() ==> entries_of(path, mutants, results)[mutants.take(i).filter(
            |m: crate::instrument::MutantView| m.file == path,
        ).len() as int] == entry_of(mutants[i], result_at(results, mutants[i].id)),
    decreases mutants.len(),
{
    reveal(Seq::filter);
    let own = |m: crate::instrument::MutantView| m.file == path;
    if mutants.len() > 0 {
        let front = mutants.drop_last();
        if 0 <= i < front.len() {
            assert(front[i] == mutants[i]);
            assert(front.take(i) =~= mutants.take(i));
        }
        lemma_entry_at(path, front, results, i);
        assert(mutants.take(mutants.len() - 1) =~= front);
    }
}

// ---- metrics ----

/// How many mutants came to which end.
#[derive(Debug, Clone, Copy, PartialEq, Eq, Structural)]
pub struct Metrics {
    pub killed: u32,
    pub survived: u32,
    pub timeout: u32,
    pub no_coverage: u32,
    pub runtime_errors: u32,
    pub compile_errors: u32,
    pub ignored: u32,
    pub pending: u32,
}

impl Default for Metrics {
    fn default() -> (r: Metrics)
        ensures
            r == no_mutants(),
    {
        Metrics {
            killed: 0,
            survived: 0,
            timeout: 0,
            no_coverage: 0,
            runtime_errors: 0,
            compile_errors: 0,
            ignored: 0,
            pending: 0,
        }
    }
}

/// Nothing counted yet.
pub open spec fn no_mutants() -> Metrics {
    Metrics {
        killed: 0,
        survived: 0,
        timeout: 0,
        no_coverage: 0,
        runtime_errors: 0,
        compile_errors: 0,
        ignored: 0,
        pending: 0,
    }
}

/// How often a status occurs.
pub open spec fn tally(statuses: Seq<MutantStatus>, status: MutantStatus) -> nat
    decreases statuses.len(),
{
    if statuses.len() == 0 {
        0
    } else {
        tally(statuses.drop_last(), status) + (if statuses.last() == status {
            1nat
        } else {
            0nat
        })
    }
}

/// How many statuses pass a test.
pub open spec fn tally_of(statuses: Seq<MutantStatus>, test: spec_fn(MutantStatus) -> bool) -> nat
    decreases statuses.len(),
{
    if statuses.len() == 0 {
        0
    } else {
        tally_of(statuses.drop_last(), test) + (if test(statuses.last()) {
            1nat
        } else {
            0nat
        })
    }
}

impl Metrics {
    /// Whether these are the counts of a list.
    pub open spec fn counts(self, statuses: Seq<MutantStatus>) -> bool {
        &&& self.killed == tally(statuses, MutantStatus::Killed)
        &&& self.survived == tally(statuses, MutantStatus::Survived)
        &&& self.timeout == tally(statuses, MutantStatus::Timeout)
        &&& self.no_coverage == tally(statuses, MutantStatus::NoCoverage)
        &&& self.runtime_errors == tally(statuses, MutantStatus::RuntimeError)
        &&& self.compile_errors == tally(statuses, MutantStatus::CompileError)
        &&& self.ignored == tally(statuses, MutantStatus::Ignored)
        &&& self.pending == tally(statuses, MutantStatus::Pending)
    }

    /// How many mutants there are.
    pub open spec fn total(self) -> nat {
        (self.killed + self.survived + self.timeout + self.no_coverage + self.runtime_errors
            + self.compile_errors + self.ignored + self.pending) as nat
    }

    /// Counts a list of statuses.
    pub fn count(statuses: &Vec<MutantStatus>) -> (r: Metrics)
        requires
            statuses@.len() <= u32::MAX,
        ensures
            r.counts(statuses@),
            r.total() == statuses@.len(),
    {
        let mut m = Metrics::default();
        let mut i: usize = 0;
        proof {
            assert(statuses@.take(0) =~= Seq::<MutantStatus>::empty());
        }
        while i < statuses.len()
            invariant
                i <= statuses@.len() <= u32::MAX,
                m.counts(statuses@.take(i as int)),
                m.total() == i,
            decreases statuses@.len() - i,
        {
            proof {
                assert(statuses@.take(i + 1).drop_last() =~= statuses@.take(i as int));
            }
            match statuses[i] {
                MutantStatus::Killed => {
                    m.killed = m.killed + 1;
                },
                MutantStatus::Survived => {
                    m.survived = m.survived + 1;
                },
                MutantStatus::Timeout => {
                    m.timeout = m.timeout + 1;
                },
                MutantStatus::NoCoverage => {
                    m.no_coverage = m.no_coverage + 1;
                },
                MutantStatus::RuntimeError => {
                    m.runtime_errors = m.runtime_errors + 1;
                },
                MutantStatus::CompileError => {
                    m.compile_errors = m.compile_errors + 1;
                },
                MutantStatus::Ignored => {
                    m.ignored = m.ignored + 1;
                },
                MutantStatus::Pending => {
                    m.pending = m.pending + 1;
                },
            }
            i = i + 1;
        }
        proof {
            assert(statuses@.take(statuses@.len() as int) =~= statuses@);
        }
        m
    }

    /// How many mutants the tests noticed.
    pub fn detected(&self) -> (r: u32)
        requires
            self.total() <= u32::MAX,
        ensures
            r == self.killed + self.timeout,
    {
        self.killed + self.timeout
    }

    /// How many mutants the tests did not notice.
    pub fn undetected(&self) -> (r: u32)
        requires
            self.total() <= u32::MAX,
        ensures
            r == self.survived + self.no_coverage,
    {
        self.survived + self.no_coverage
    }

    /// How many mutants count toward the score.
    pub fn valid(&self) -> (r: u32)
        requires
            self.total() <= u32::MAX,
        ensures
            r == self.killed + self.timeout + self.survived + self.no_coverage,
    {
        self.detected() + self.undetected()
    }

    /// The parts of the score: how many of how many mutants the tests noticed.
    /// There is none where no mutant counts.
    pub open spec fn score(self) -> Option<(nat, nat)> {
        let detected = (self.killed + self.timeout) as nat;
        let valid = (self.killed + self.timeout + self.survived + self.no_coverage) as nat;
        if valid == 0 {
            None
        } else {
            Some((detected, valid))
        }
    }

    /// The parts of the score, where there is one.
    pub fn score_parts(&self) -> (r: Option<(u32, u32)>)
        requires
            self.total() <= u32::MAX,
        ensures
            match r {
                Some((detected, valid)) => self.score() == Some((detected as nat, valid as nat)),
                None => self.score() is None,
            },
    {
        let valid = self.valid();
        if valid == 0 {
            None
        } else {
            Some((self.detected(), valid))
        }
    }
}

/// The parts of the score are the numbers of detected and of valid mutants: those
/// that the tests noticed, and these with those that they did not. There is no
/// score exactly where no mutant is valid.
pub proof fn law_score_counts_statuses(m: Metrics, statuses: Seq<MutantStatus>)
    requires
        m.counts(statuses),
    ensures
        m.killed + m.timeout == tally_of(statuses, |s: MutantStatus| s.detected()),
        m.killed + m.timeout + m.survived + m.no_coverage == tally_of(
            statuses,
            |s: MutantStatus| s.valid(),
        ),
        tally_of(statuses, |s: MutantStatus| s.valid()) == tally_of(
            statuses,
            |s: MutantStatus| s.detected(),
        ) + (m.survived + m.no_coverage),
        m.score() is None <==> tally_of(statuses, |s: MutantStatus| s.valid()) == 0,
        m.score() matches Some((detected, valid)) ==> detected == tally_of(
            statuses,
            |s: MutantStatus| s.detected(),
        ) && valid == tally_of(statuses, |s: MutantStatus| s.valid()),
{
    lemma_detected(statuses);
    lemma_valid(statuses);
}

proof fn lemma_detected(statuses: Seq<MutantStatus>)
    ensures
        tally(statuses, MutantStatus::Killed) + tally(statuses, MutantStatus::Timeout) == tally_of(
            statuses,
            |s: MutantStatus| s.detected(),
        ),
    decreases statuses.len(),
{
    if statuses.len() > 0 {
        lemma_detected(statuses.drop_last());
    }
}

proof fn lemma_valid(statuses: Seq<MutantStatus>)
    ensures
        tally(statuses, MutantStatus::Killed) + tally(statuses, MutantStatus::Timeout) + tally(
            statuses,
            MutantStatus::Survived,
        ) + tally(statuses, MutantStatus::NoCoverage) == tally_of(
            statuses,
            |s: MutantStatus| s.valid(),
        ),
    decreases statuses.len(),
{
    if statuses.len() > 0 {
        lemma_valid(statuses.drop_last());
    }
}

proof fn lemma_tally(statuses: Seq<MutantStatus>, status: MutantStatus)
    ensures
        tally(statuses, status) == statuses.filter(|s: MutantStatus| s == status).len(),
    decreases statuses.len(),
{
    reveal(Seq::filter);
    if statuses.len() > 0 {
        lemma_tally(statuses.drop_last(), status);
    }
}

/// Every count of the metrics is the number of mutants of its own status.
pub proof fn law_every_status_is_counted(m: Metrics, statuses: Seq<MutantStatus>)
    requires
        m.counts(statuses),
    ensures
        m.killed == statuses.filter(|s: MutantStatus| s == MutantStatus::Killed).len(),
        m.survived == statuses.filter(|s: MutantStatus| s == MutantStatus::Survived).len(),
        m.timeout == statuses.filter(|s: MutantStatus| s == MutantStatus::Timeout).len(),
        m.no_coverage == statuses.filter(|s: MutantStatus| s == MutantStatus::NoCoverage).len(),
        m.runtime_errors == statuses.filter(
            |s: MutantStatus| s == MutantStatus::RuntimeError,
        ).len(),
        m.compile_errors == statuses.filter(
            |s: MutantStatus| s == MutantStatus::CompileError,
        ).len(),
        m.ignored == statuses.filter(|s: MutantStatus| s == MutantStatus::Ignored).len(),
        m.pending == statuses.filter(|s: MutantStatus| s == MutantStatus::Pending).len(),
        m.total() == m.killed + m.survived + m.timeout + m.no_coverage + m.runtime_errors
            + m.compile_errors + m.ignored + m.pending,
{
    lemma_tally(statuses, MutantStatus::Killed);
    lemma_tally(statuses, MutantStatus::Survived);
    lemma_tally(statuses, MutantStatus::Timeout);
    lemma_tally(statuses, MutantStatus::NoCoverage);
    lemma_tally(statuses, MutantStatus::RuntimeError);
    lemma_tally(statuses, MutantStatus::CompileError);
    lemma_tally(statuses, MutantStatus::Ignored);
    lemma_tally(statuses, MutantStatus::Pending);
}

/// A file of the report has the source that was given for it, and none where no
/// source was; nothing is reported but targets and mutated files.
pub proof fn law_reported_files(
    sources: Map<Seq<char>, String>,
    mutants: Seq<crate::instrument::MutantView>,
    results: Map<u32, MutantResult>,
    path: Seq<char>,
)
    ensures
        files_of(sources, mutants, results).contains_key(path) <==> sources.contains_key(path)
            || exists|i: int| 0 <= i < mutants.len() && (#[trigger] mutants[i]).file == path,
        sources.contains_key(path) ==> files_of(sources, mutants, results)[path].source
            == sources[path]@,
        !sources.contains_key(path) && is_mutated(path, mutants) ==> files_of(
            sources,
            mutants,
            results,
        )[path].source.len() == 0,
{
}

/// The score is what was detected, of all that counts: killed and timed out, of
/// these and what survived or was not covered.
pub proof fn law_score_is_detected_of_valid(m: Metrics)
    ensures
        m.killed + m.timeout + m.survived + m.no_coverage == 0 <==> m.score() is None,
        m.score() matches Some(parts) ==> parts.0 == m.killed + m.timeout && parts.1 == m.killed
            + m.timeout + m.survived + m.no_coverage,
{
}

/// A report names the program that wrote it, with its version and its page.
pub proof fn law_reports_name_this_program(framework: Option<FrameworkInformation>)
    requires
        names_this_program(framework),
    ensures
        framework is Some,
        framework->0.name@ == "stryker-rs"@,
        framework->0.version is Some,
        framework->0.version->0@ == "0.1.0"@,
        framework->0.branding is Some,
        framework->0.branding->0.homepage_url@ == "https://github.com/abhinavpola/stryker-rs"@,
        framework->0.branding->0.image_url is None,
{
}

} // verus!
