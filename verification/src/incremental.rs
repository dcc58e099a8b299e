//! Incremental mode: reuses results from a previous run's report.
//!
//! The incremental file is a full mutation-testing report. Identity is
//! content-based: relative path, mutator, replacement, and location remapped
//! through a line diff of old against new source.
//!
//! Reuse rules (per-test tier):
//! - Killed: every killer test still exists and the content hash of its test
//!   file is unchanged.
//! - Survived / NoCoverage / Timeout: reused only when the whole test-file
//!   hash map is unchanged (a new or edited test anywhere could now cover or
//!   kill the mutant; conservative by design).
//!
//! The command tier has no per-test knowledge: the caller compares a command
//! fingerprint and passes that on.
use std::collections::BTreeMap;
use vstd::prelude::*;

use crate::model::Mutant;
use crate::model::MutantResult;
use crate::model::MutantStatus;
use crate::paths::drop_repeats;
use crate::paths::sort_paths;
use crate::schema::MutantResultJson;
use crate::schema::MutationTestResult;
use crate::text::copy_opt;
use crate::text::copy_text;
use crate::text::copy_texts;
use crate::text::list_has;
use crate::text::same;
use crate::text::split_once;
use crate::text_map::TextMap;

verus! {

broadcast use vstd::std_specs::btree::group_btree_axioms;

// ---- hashes ----

/// The SHA-256 digest of a text in hexadecimal digits.
pub uninterp spec fn sha256_hex(content: Seq<char>) -> Seq<char>;

/// `Sha256` of `sha2` over the bytes of a text, written in lower-case
/// hexadecimal digits: a function of the text alone.
#[verifier::external_body]
fn digest(content: &str) -> (r: String)
    ensures
        r@ == sha256_hex(content@),
{
    format!("{:x}", <sha2::Sha256 as sha2::Digest>::digest(content.as_bytes()))
}

/// The hash of a content.
pub fn hash_content(content: &str) -> (r: String)
    ensures
        r@ == sha256_hex(content@),
{
    digest(content)
}

// ---- lines ----

/// What a diff says of a line.
#[derive(Debug, Clone, Copy, PartialEq, Eq, Structural)]
pub enum ChangeKind {
    Equal,
    Delete,
    Insert,
}

/// One line of a diff and its places in the old and the new text, from zero.
#[derive(Debug, Clone, Copy, PartialEq, Eq)]
pub struct LineChange {
    pub kind: ChangeKind,
    pub old_index: Option<usize>,
    pub new_index: Option<usize>,
}

/// The diff of two texts, line by line.
pub uninterp spec fn line_changes(old: Seq<char>, new: Seq<char>) -> Seq<LineChange>;

/// Whether a change that is marked as equal pairs two equal lines.
pub open spec fn pairs_equal_lines(change: LineChange, old: Seq<char>, new: Seq<char>) -> bool {
    change.kind is Equal ==> (match (change.old_index, change.new_index) {
        (Some(a), Some(b)) => a < crate::text::lines_of(old).len() && b < crate::text::lines_of(
            new,
        ).len() && crate::text::lines_of(old)[a as int] == crate::text::lines_of(new)[b as int],
        _ => false,
    })
}

/// Whether a text ends its lines with line feeds alone.
pub open spec fn plain_lines(text: Seq<char>) -> bool {
    !text.contains('\r')
}

/// `TextDiff::from_lines` of `similar` and `iter_all_changes` of its result:
/// the changes depend on the two texts alone. A change with the tag `Equal` has
/// both places, and the lines there are equal; this is claimed of texts without
/// carriage returns, since the crate also ends lines at those.
#[verifier::external_body]
fn diff_lines(old: &str, new: &str) -> (r: Vec<LineChange>)
    ensures
        r@ == line_changes(old@, new@),
        plain_lines(old@) && plain_lines(new@) ==> forall|i: int|
            0 <= i < r@.len() ==> pairs_equal_lines(#[trigger] r@[i], old@, new@),
{
    let kind = |tag| match tag {
        similar::ChangeTag::Equal => ChangeKind::Equal,
        similar::ChangeTag::Delete => ChangeKind::Delete,
        similar::ChangeTag::Insert => ChangeKind::Insert,
    };
    let diff = similar::TextDiff::from_lines(old, new);
    diff.iter_all_changes().map(|c| {
        LineChange { kind: kind(c.tag()), old_index: c.old_index(), new_index: c.new_index() }
    }).collect()
}

/// Old line numbers, from one, of unchanged lines, and their new numbers.
pub open spec fn kept_lines(changes: Seq<LineChange>) -> Map<u32, u32>
    decreases changes.len(),
{
    if changes.len() == 0 {
        Map::empty()
    } else {
        let front = kept_lines(changes.drop_last());
        let c = changes.last();
        match (c.kind, c.old_index, c.new_index) {
            (ChangeKind::Equal, Some(a), Some(b)) => if a < u32::MAX && b < u32::MAX {
                front.insert((a + 1) as u32, (b + 1) as u32)
            } else {
                front
            },
            _ => front,
        }
    }
}

/// Whether a map pairs equal lines of two texts.
pub open spec fn maps_equal_lines(map: Map<u32, u32>, old: Seq<char>, new: Seq<char>) -> bool {
    forall|line: u32| #[trigger]
        map.dom().contains(line) ==> 1 <= line <= crate::text::lines_of(old).len() && 1 <= map[line]
            <= crate::text::lines_of(new).len() && crate::text::lines_of(old)[line - 1]
            == crate::text::lines_of(new)[map[line] - 1]
}

/// Maps 1-based old line numbers to new line numbers for unchanged lines.
pub fn old_to_new_line_map(old: &str, new: &str) -> (r: BTreeMap<u32, u32>)
    ensures
        r@ == kept_lines(line_changes(old@, new@)),
        plain_lines(old@) && plain_lines(new@) ==> maps_equal_lines(r@, old@, new@),
{
    let changes = diff_lines(old, new);
    let ghost plain = plain_lines(old@) && plain_lines(new@);
    let mut map: BTreeMap<u32, u32> = BTreeMap::new();
    let mut i: usize = 0;
    proof {
        assert(changes@.take(0) =~= Seq::<LineChange>::empty());
    }
    while i < changes.len()
        invariant
            i <= changes@.len(),
            plain == (plain_lines(old@) && plain_lines(new@)),
            plain ==> forall|k: int|
                0 <= k < changes@.len() ==> pairs_equal_lines(#[trigger] changes@[k], old@, new@),
            map@ == kept_lines(changes@.take(i as int)),
            plain ==> maps_equal_lines(map@, old@, new@),
        decreases changes@.len() - i,
    {
        let c = changes[i];
        proof {
            assert(changes@.take(i + 1).drop_last() =~= changes@.take(i as int));
            assert(changes@.take(i + 1).last() == c);
            if plain {
                assert(pairs_equal_lines(changes@[i as int], old@, new@));
            }
        }
        match (c.kind, c.old_index, c.new_index) {
            (ChangeKind::Equal, Some(a), Some(b)) => {
                if a < u32::MAX as usize && b < u32::MAX as usize {
                    map.insert(a as u32 + 1, b as u32 + 1);
                }
            },
            _ => {},
        }
        i = i + 1;
    }
    proof {
        assert(changes@.take(changes@.len() as int) =~= changes@);
    }
    map
}

/// The last line of a span.
pub open spec fn last_of(start: u32, end: u32) -> u32 {
    if end > start {
        end
    } else {
        start
    }
}

/// Whether a line is unchanged and shifted like the line `start`.
pub open spec fn shifted_alike(map: Map<u32, u32>, start: u32, line: u32) -> bool {
    map.dom().contains(line) && map[line] - line == map[start] - start
}

/// The new start line, if and only if every line of a span is unchanged and
/// shifted by the same offset.
pub open spec fn remapped(map: Map<u32, u32>, start: u32, end: u32) -> Option<u32> {
    if map.dom().contains(start) && forall|line: u32|
        start <= line <= last_of(start, end) ==> #[trigger] shifted_alike(map, start, line) {
        Some(map[start])
    } else {
        None
    }
}

/// The new start line, if and only if every line in `[start, end]` is unchanged
/// and shifted by the same offset.
pub fn remap_span(line_map: &BTreeMap<u32, u32>, start: u32, end: u32) -> (r: Option<u32>)
    ensures
        r == remapped(line_map@, start, end),
{
    let new_start: u32 = match line_map.get(&start) {
        Some(line) => *line,
        None => {
            return None;
        },
    };
    let last: u32 = if end > start {
        end
    } else {
        start
    };
    let mut line: u64 = start as u64;
    while line <= last as u64
        invariant
            start <= line <= last + 1,
            last == last_of(start, end),
            line_map@.dom().contains(start),
            new_start == line_map@[start],
            forall|k: u32| start <= k < line ==> #[trigger] shifted_alike(line_map@, start, k),
        decreases last + 1 - line,
    {
        let at: u32 = line as u32;
        let alike = match line_map.get(&at) {
            Some(mapped) => *mapped as i64 - at as i64 == new_start as i64 - start as i64,
            None => false,
        };
        if !alike {
            proof {
                assert(!shifted_alike(line_map@, start, at));
            }
            return None;
        }
        line = line + 1;
    }
    Some(new_start)
}

/// Where a span could be remapped, its lines stand unchanged in the new text,
/// one below the other.
pub proof fn law_remapped_spans_are_unchanged(
    map: Map<u32, u32>,
    old: Seq<char>,
    new: Seq<char>,
    start: u32,
    end: u32,
    line: u32,
)
    requires
        maps_equal_lines(map, old, new),
        remapped(map, start, end) is Some,
        start <= line <= last_of(start, end),
    ensures
        1 <= line <= crate::text::lines_of(old).len(),
        1 <= line - start + remapped(map, start, end)->0 <= crate::text::lines_of(new).len(),
        crate::text::lines_of(old)[line - 1] == crate::text::lines_of(new)[line - start + remapped(
            map,
            start,
            end,
        )->0 - 1],
{
    assert(shifted_alike(map, start, line));
    assert(shifted_alike(map, start, start));
}

// ---- what is reused ----

/// What reuse rests on.
pub struct IncrementalInput<'a> {
    pub old_report: &'a MutationTestResult,
    pub mutants: &'a Vec<Mutant>,
    /// New sources of every mutate target.
    pub sources: &'a TextMap<String>,
    /// Test ids present in the new dry run.
    pub new_test_ids: &'a Vec<String>,
    /// file -> content hash, old run (from report config) and new run.
    pub old_test_hashes: &'a TextMap<String>,
    pub new_test_hashes: &'a TextMap<String>,
    /// Command-tier signal: true when the test command fingerprint matches.
    pub command_fingerprint_matches: Option<bool>,
}

/// The characters of the values of a map.
pub open spec fn text_values(m: Map<Seq<char>, String>) -> Map<Seq<char>, Seq<char>> {
    m.map_values(|s: String| s@)
}

/// Whether nothing about the tests has changed.
pub open spec fn unchanged(input: IncrementalInput<'_>) -> bool {
    match input.command_fingerprint_matches {
        Some(matches) => matches,
        None => text_values(input.old_test_hashes@) == text_values(input.new_test_hashes@)
            && input.new_test_hashes.keys().len() > 0,
    }
}

/// Whether the file of a test is known to be unchanged.
pub open spec fn killer_file_kept(killer: Seq<char>, input: IncrementalInput<'_>) -> bool {
    match crate::text::cut_once(killer, " > "@) {
        Some((file, _)) => input.old_test_hashes@.dom().contains(file)
            && input.new_test_hashes@.dom().contains(file) && input.old_test_hashes@[file]@
            == input.new_test_hashes@[file]@,
        None => false,
    }
}

/// Whether a killer test still exists, in an unchanged file.
pub open spec fn killer_kept(killer: Seq<char>, input: IncrementalInput<'_>) -> bool {
    crate::text::texts(input.new_test_ids@).contains(killer) && killer_file_kept(killer, input)
}

/// Whether an old result still holds.
pub open spec fn still_holds(old: crate::schema::JsonView, input: IncrementalInput<'_>) -> bool {
    match old.status {
        MutantStatus::Killed => match old.killed_by {
            Some(killers) => if killers.len() > 0 && input.command_fingerprint_matches is None {
                forall|i: int| 0 <= i < killers.len() ==> killer_kept(#[trigger] killers[i], input)
            } else {
                unchanged(input)
            },
            None => unchanged(input),
        },
        MutantStatus::Survived => unchanged(input),
        MutantStatus::NoCoverage => unchanged(input),
        MutantStatus::Timeout => unchanged(input),
        // Ignored/Pending/errors are cheap or config-dependent: recompute.
        _ => false,
    }
}

/// A list, empty where there is none.
pub open spec fn or_empty(list: Option<Seq<Seq<char>>>) -> Seq<Seq<char>> {
    match list {
        Some(list) => list,
        None => Seq::empty(),
    }
}

/// An old result as a new one.
pub open spec fn carried_over(old: crate::schema::JsonView) -> crate::model::ResultView {
    crate::model::ResultView {
        status: old.status,
        killed_by: or_empty(old.killed_by),
        covered_by: or_empty(old.covered_by),
        tests_ran: match old.tests_completed {
            Some(n) => n,
            None => 0,
        },
        status_reason: old.status_reason,
        duration: None,
        is_static: old.is_static,
    }
}

/// Whether an old mutant is a new one: same mutator and replacement, and every
/// line of its span unchanged and shifted to the new one's line.
pub open spec fn same_mutant(
    old: crate::schema::JsonView,
    map: Map<u32, u32>,
    m: crate::instrument::MutantView,
) -> bool {
    &&& remapped(map, old.location.start.line, old.location.end.line) == Some(m.location.start.line)
    &&& old.mutator_name == m.mutator_name
    &&& old.replacement == Some(m.replacement)
}

/// The first of a list of old mutants, from `i` on, that is a new one; in its
/// column, where that is asked.
pub open spec fn first_match(
    free: Seq<crate::schema::JsonView>,
    map: Map<u32, u32>,
    m: crate::instrument::MutantView,
    in_column: bool,
    i: int,
) -> Option<int>
    decreases free.len() - i,
{
    if i < 0 || i >= free.len() {
        None
    } else if same_mutant(free[i], map, m) && (in_column ==> free[i].location.start.column
        == m.location.start.column) {
        Some(i)
    } else {
        first_match(free, map, m, in_column, i + 1)
    }
}

/// The old mutant that a new one claims: one in its column, else the first.
pub open spec fn claim(
    free: Seq<crate::schema::JsonView>,
    map: Map<u32, u32>,
    m: crate::instrument::MutantView,
) -> Option<int> {
    match first_match(free, map, m, true, 0) {
        Some(i) => Some(i),
        None => first_match(free, map, m, false, 0),
    }
}

/// What is left of the old mutants of a file after the first new ones have
/// claimed theirs.
pub open spec fn unclaimed(
    old: Seq<crate::schema::JsonView>,
    map: Map<u32, u32>,
    mutants: Seq<crate::instrument::MutantView>,
) -> Seq<crate::schema::JsonView>
    decreases mutants.len(),
{
    if mutants.len() == 0 {
        old
    } else {
        let free = unclaimed(old, map, mutants.drop_last());
        match claim(free, map, mutants.last()) {
            Some(i) => free.remove(i),
            None => free,
        }
    }
}

/// The results of the new mutants of a file that are reused, put into a map.
pub open spec fn reused_in(
    base: Map<u32, crate::model::ResultView>,
    old: Seq<crate::schema::JsonView>,
    map: Map<u32, u32>,
    mutants: Seq<crate::instrument::MutantView>,
    input: IncrementalInput<'_>,
) -> Map<u32, crate::model::ResultView>
    decreases mutants.len(),
{
    if mutants.len() == 0 {
        base
    } else {
        let front = reused_in(base, old, map, mutants.drop_last(), input);
        let free = unclaimed(old, map, mutants.drop_last());
        let m = mutants.last();
        match claim(free, map, m) {
            Some(i) => if still_holds(free[i], input) {
                front.insert(m.id, carried_over(free[i]))
            } else {
                front
            },
            None => front,
        }
    }
}

/// The mutants of a file, in order.
pub open spec fn mutants_of(
    file: Seq<char>,
    mutants: Seq<crate::instrument::MutantView>,
) -> Seq<crate::instrument::MutantView>
    decreases mutants.len(),
{
    if mutants.len() == 0 {
        Seq::empty()
    } else if mutants.last().file == file {
        mutants_of(file, mutants.drop_last()).push(mutants.last())
    } else {
        mutants_of(file, mutants.drop_last())
    }
}

/// The unchanged lines of a file.
pub open spec fn kept_lines_of(file: Seq<char>, input: IncrementalInput<'_>) -> Map<u32, u32> {
    kept_lines(line_changes(input.old_report.files@[file].source@, input.sources@[file]@))
}

/// The reused results of one file, put into a map.
pub open spec fn with_file(
    base: Map<u32, crate::model::ResultView>,
    file: Seq<char>,
    input: IncrementalInput<'_>,
) -> Map<u32, crate::model::ResultView> {
    if input.old_report.files@.dom().contains(file) && input.sources@.dom().contains(file) {
        reused_in(
            base,
            crate::schema::json_views(input.old_report.files@[file].mutants@),
            kept_lines_of(file, input),
            mutants_of(file, crate::instrument::mutant_views(input.mutants@)),
            input,
        )
    } else {
        base
    }
}

/// The reused results of a list of files.
pub open spec fn reused_over(files: Seq<Seq<char>>, input: IncrementalInput<'_>) -> Map<
    u32,
    crate::model::ResultView,
>
    decreases files.len(),
{
    if files.len() == 0 {
        Map::empty()
    } else {
        with_file(reused_over(files.drop_last(), input), files.last(), input)
    }
}

/// The files of a list of mutants.
pub open spec fn files_in(mutants: Seq<crate::instrument::MutantView>) -> Seq<Seq<char>> {
    mutants.map_values(|m: crate::instrument::MutantView| m.file)
}

/// The results that can be carried over without running tests.
pub open spec fn reused(input: IncrementalInput<'_>) -> Map<u32, crate::model::ResultView> {
    reused_over(
        crate::paths::without_repeats(
            crate::paths::sorted_paths(files_in(crate::instrument::mutant_views(input.mutants@))),
        ),
        input,
    )
}

/// The values of a map of results.
pub open spec fn result_views(m: Map<u32, MutantResult>) -> Map<u32, crate::model::ResultView> {
    m.map_values(|r: MutantResult| r@)
}

// ---- execution ----

fn holds_all(a: &TextMap<String>, b: &TextMap<String>) -> (r: bool)
    ensures
        r == forall|k: Seq<char>| #[trigger]
            a@.dom().contains(k) ==> b@.dom().contains(k) && a@[k]@ == b@[k]@,
{
    a.facts();
    let ghost keys = a.keys();
    let total = a.len();
    let mut i: usize = 0;
    while i < total
        invariant
            i <= total == keys.len() == a.values().len(),
            keys == a.keys(),
            forall|k: int|
                0 <= k < keys.len() ==> a@.dom().contains(#[trigger] keys[k]) && a@[keys[k]]
                    == a.values()[k],
            forall|k: int|
                0 <= k < i ==> b@.dom().contains(#[trigger] keys[k]) && a@[keys[k]]@ == b@[keys[k]]@,
        decreases total - i,
    {
        let key = a.key_at(i);
        proof {
            assert(key@ == keys[i as int]);
            assert(a@.dom().contains(key@));
        }
        match b.get(key.as_str()) {
            Some(value) => {
                if !same(a.value_at(i).as_str(), value.as_str()) {
                    return false;
                }
            },
            None => {
                return false;
            },
        }
        i = i + 1;
    }
    proof {
        assert forall|k: Seq<char>| #[trigger] a@.dom().contains(k) implies b@.dom().contains(k)
            && a@[k]@ == b@[k]@ by {
            assert(keys.contains(k));
            let n = keys.index_of(k);
            assert(keys[n] == k);
        }
    }
    true
}

/// Whether two maps give the same texts the same texts.
pub fn same_texts(a: &TextMap<String>, b: &TextMap<String>) -> (r: bool)
    ensures
        r == (text_values(a@) == text_values(b@)),
{
    let forth = holds_all(a, b);
    let back = holds_all(b, a);
    proof {
        let x = text_values(a@);
        let y = text_values(b@);
        if forth && back {
            assert forall|k: Seq<char>| #[trigger] x.dom().contains(k) <==> y.dom().contains(k) by {
                assert(x.dom().contains(k) <==> a@.dom().contains(k));
                assert(y.dom().contains(k) <==> b@.dom().contains(k));
            }
            assert forall|k: Seq<char>| #[trigger] x.dom().contains(k) implies x[k] == y[k] by {
                assert(a@.dom().contains(k));
            }
            assert(x =~= y);
        }
        if x == y {
            assert forall|k: Seq<char>| #[trigger] a@.dom().contains(k) implies b@.dom().contains(k)
                && a@[k]@ == b@[k]@ by {
                assert(x.dom().contains(k));
                assert(y.dom().contains(k));
                assert(x[k] == y[k]);
            }
            assert forall|k: Seq<char>| #[trigger] b@.dom().contains(k) implies a@.dom().contains(k)
                && b@[k]@ == a@[k]@ by {
                assert(y.dom().contains(k));
                assert(x.dom().contains(k));
                assert(x[k] == y[k]);
            }
        }
    }
    forth && back
}

fn tests_unchanged(input: &IncrementalInput<'_>) -> (r: bool)
    ensures
        r == unchanged(*input),
{
    match input.command_fingerprint_matches {
        Some(matches) => matches,
        None => same_texts(input.old_test_hashes, input.new_test_hashes)
            && input.new_test_hashes.len() > 0,
    }
}

fn killer_file_unchanged(killer: &str, input: &IncrementalInput<'_>) -> (r: bool)
    ensures
        r == killer_file_kept(killer@, *input),
{
    match split_once(killer, " > ") {
        Some((file, _)) => match (
            input.old_test_hashes.get(file.as_str()),
            input.new_test_hashes.get(file.as_str()),
        ) {
            (Some(old), Some(new)) => same(old.as_str(), new.as_str()),
            _ => false,
        },
        None => false,
    }
}

fn killers_unchanged(killers: &Vec<String>, input: &IncrementalInput<'_>) -> (r: bool)
    ensures
        r == forall|i: int|
            0 <= i < crate::text::texts(killers@).len() ==> killer_kept(
                #[trigger] crate::text::texts(killers@)[i],
                *input,
            ),
{
    let ghost all = crate::text::texts(killers@);
    let mut i: usize = 0;
    while i < killers.len()
        invariant
            i <= killers@.len(),
            all == crate::text::texts(killers@),
            forall|k: int| 0 <= k < i ==> killer_kept(#[trigger] all[k], *input),
        decreases killers@.len() - i,
    {
        let killer = killers[i].as_str();
        proof {
            assert(all[i as int] == killer@);
        }
        if !list_has(input.new_test_ids, killer) || !killer_file_unchanged(killer, input) {
            return false;
        }
        i = i + 1;
    }
    true
}

fn or_none(list: &Option<Vec<String>>) -> (r: Vec<String>)
    ensures
        crate::text::texts(r@) == or_empty(crate::text::opt_texts(*list)),
{
    match list {
        Some(list) => copy_texts(list),
        None => {
            let r: Vec<String> = Vec::new();
            proof {
                assert(crate::text::texts(r@) =~= Seq::<Seq<char>>::empty());
            }
            r
        },
    }
}

/// The result of an old mutant as a new one, where it still holds.
pub fn reuse_decision(old: &MutantResultJson, input: &IncrementalInput<'_>) -> (r: Option<
    MutantResult,
>)
    ensures
        match r {
            Some(result) => still_holds(old@, *input) && result@ == carried_over(old@),
            None => !still_holds(old@, *input),
        },
{
    let reusable = match old.status {
        MutantStatus::Killed => match &old.killed_by {
            Some(killers) => if killers.len() > 0 && input.command_fingerprint_matches.is_none() {
                proof {
                    assert(crate::text::texts(killers@).len() == killers@.len());
                }
                killers_unchanged(killers, input)
            } else {
                proof {
                    assert(crate::text::texts(killers@).len() == killers@.len());
                }
                tests_unchanged(input)
            },
            None => tests_unchanged(input),
        },
        MutantStatus::Survived | MutantStatus::NoCoverage | MutantStatus::Timeout => {
            tests_unchanged(input)
        },
        _ => false,
    };
    if !reusable {
        return None;
    }
    Some(
        MutantResult {
            status: old.status,
            killed_by: or_none(&old.killed_by),
            covered_by: or_none(&old.covered_by),
            tests_ran: match old.tests_completed {
                Some(n) => n,
                None => 0,
            },
            status_reason: copy_opt(&old.status_reason),
            duration: None,
            is_static: old.is_static,
        },
    )
}

/// The new start lines of a list of old mutants.
spec fn new_lines(old: Seq<crate::schema::JsonView>, map: Map<u32, u32>) -> Seq<Option<u32>> {
    old.map_values(
        |j: crate::schema::JsonView| remapped(map, j.location.start.line, j.location.end.line),
    )
}

/// The old mutants at a list of indexes.
spec fn at_places(old: Seq<MutantResultJson>, places: Seq<usize>) -> Seq<crate::schema::JsonView> {
    places.map_values(|i: usize| old[i as int]@)
}

fn find_match(
    old: &Vec<MutantResultJson>,
    lines: &Vec<Option<u32>>,
    places: &Vec<usize>,
    mutant: &Mutant,
    in_column: bool,
    Ghost(map): Ghost<Map<u32, u32>>,
) -> (r: Option<usize>)
    requires
        lines@ == new_lines(crate::schema::json_views(old@), map),
        forall|k: int| 0 <= k < places@.len() ==> #[trigger] places@[k] < old@.len(),
    ensures
        match r {
            Some(k) => k < places@.len() && first_match(
                at_places(old@, places@),
                map,
                mutant@,
                in_column,
                0,
            ) == Some(k as int),
            None => first_match(at_places(old@, places@), map, mutant@, in_column, 0) is None,
        },
{
    let ghost free = at_places(old@, places@);
    proof {
        assert(lines@.len() == old@.len());
    }
    let mut k: usize = 0;
    while k < places.len()
        invariant
            k <= places@.len(),
            lines@ == new_lines(crate::schema::json_views(old@), map),
            lines@.len() == old@.len(),
            forall|n: int| 0 <= n < places@.len() ==> #[trigger] places@[n] < old@.len(),
            free == at_places(old@, places@),
            first_match(free, map, mutant@, in_column, 0) == first_match(
                free,
                map,
                mutant@,
                in_column,
                k as int,
            ),
        decreases places@.len() - k,
    {
        let at: usize = places[k];
        let j = &old[at];
        proof {
            assert(free[k as int] == j@);
            assert(crate::schema::json_views(old@)[at as int] == j@);
            assert(lines@[at as int] == remapped(
                map,
                j@.location.start.line,
                j@.location.end.line,
            ));
        }
        let in_line = match lines[at] {
            Some(line) => line == mutant.location.start.line,
            None => false,
        };
        let in_place = in_line && (!in_column || j.location.start.column
            == mutant.location.start.column);
        if in_place && same(j.mutator_name.as_str(), mutant.mutator_name) {
            let replaced = match &j.replacement {
                Some(text) => same(text.as_str(), mutant.replacement.as_str()),
                None => false,
            };
            if replaced {
                return Some(k);
            }
        }
        k = k + 1;
    }
    None
}

fn remap_all(old: &Vec<MutantResultJson>, map: &BTreeMap<u32, u32>) -> (r: Vec<Option<u32>>)
    ensures
        r@ == new_lines(crate::schema::json_views(old@), map@),
{
    let ghost all = new_lines(crate::schema::json_views(old@), map@);
    let mut out: Vec<Option<u32>> = Vec::new();
    let mut i: usize = 0;
    while i < old.len()
        invariant
            i <= old@.len(),
            all == new_lines(crate::schema::json_views(old@), map@),
            out@ =~= all.take(i as int),
        decreases old@.len() - i,
    {
        let j = &old[i];
        proof {
            assert(crate::schema::json_views(old@)[i as int] == j@);
        }
        out.push(remap_span(map, j.location.start.line, j.location.end.line));
        i = i + 1;
    }
    proof {
        assert(all.take(old@.len() as int) =~= all);
    }
    out
}

fn all_places(n: usize) -> (r: Vec<usize>)
    ensures
        r@.len() == n,
        forall|k: int| 0 <= k < n ==> #[trigger] r@[k] == k,
{
    let mut out: Vec<usize> = Vec::new();
    let mut i: usize = 0;
    while i < n
        invariant
            i <= n,
            out@.len() == i,
            forall|k: int| 0 <= k < i ==> #[trigger] out@[k] == k,
        decreases n - i,
    {
        out.push(i);
        i = i + 1;
    }
    out
}

/// Puts the reused results of one file into a map.
fn reuse_file(
    results: &mut BTreeMap<u32, MutantResult>,
    recorded: &Vec<MutantResultJson>,
    map: &BTreeMap<u32, u32>,
    file: &str,
    input: &IncrementalInput<'_>,
)
    ensures
        result_views(final(results)@) == reused_in(
            result_views(old(results)@),
            crate::schema::json_views(recorded@),
            map@,
            mutants_of(file@, crate::instrument::mutant_views(input.mutants@)),
            *input,
        ),
{
    let ghost base = result_views(results@);
    let ghost jsons = crate::schema::json_views(recorded@);
    let ghost all = crate::instrument::mutant_views(input.mutants@);
    let lines = remap_all(recorded, map);
    let mut places = all_places(recorded.len());
    let mutants = input.mutants;
    let mut i: usize = 0;
    proof {
        assert(at_places(recorded@, places@) =~= jsons);
        assert(all.take(0) =~= Seq::<crate::instrument::MutantView>::empty());
    }
    while i < mutants.len()
        invariant
            i <= mutants@.len(),
            mutants == input.mutants,
            all == crate::instrument::mutant_views(mutants@),
            jsons == crate::schema::json_views(recorded@),
            lines@ == new_lines(jsons, map@),
            forall|k: int| 0 <= k < places@.len() ==> #[trigger] places@[k] < recorded@.len(),
            at_places(recorded@, places@) == unclaimed(
                jsons,
                map@,
                mutants_of(file@, all.take(i as int)),
            ),
            result_views(results@) == reused_in(
                base,
                jsons,
                map@,
                mutants_of(file@, all.take(i as int)),
                *input,
            ),
        decreases mutants@.len() - i,
    {
        let mutant = &mutants[i];
        let ghost front = mutants_of(file@, all.take(i as int));
        let ghost upto = mutants_of(file@, all.take(i + 1));
        proof {
            assert(all.take(i + 1).drop_last() =~= all.take(i as int));
            assert(all.take(i + 1).last() == mutant@);
        }
        if same(mutant.file.as_str(), file) {
            let ghost free = at_places(recorded@, places@);
            proof {
                assert(upto =~= front.push(mutant@));
                assert(upto.drop_last() =~= front);
            }
            let first = find_match(recorded, &lines, &places, mutant, true, Ghost(map@));
            let found = match first {
                Some(k) => Some(k),
                None => find_match(recorded, &lines, &places, mutant, false, Ghost(map@)),
            };
            if let Some(k) = found {
                let at: usize = places[k];
                let ghost before = places@;
                places.remove(k);
                proof {
                    assert(at_places(recorded@, places@) =~= free.remove(k as int));
                    assert(free[k as int] == recorded@[at as int]@);
                    assert forall|n: int| 0 <= n < places@.len() implies #[trigger] places@[n]
                        < recorded@.len() by {
                        if n < k {
                            assert(places@[n] == before[n]);
                        } else {
                            assert(places@[n] == before[n + 1]);
                        }
                    }
                }
                if let Some(result) = reuse_decision(&recorded[at], input) {
                    let ghost have = results@;
                    results.insert(mutant.id.0, result);
                    proof {
                        assert(result_views(results@) =~= result_views(have).insert(
                            mutant.id.0,
                            result@,
                        ));
                    }
                }
            }
        }
        i = i + 1;
    }
    proof {
        assert(all.take(mutants@.len() as int) =~= all);
    }
}

/// The results that can be carried over without running tests.
pub fn reusable_results(input: &IncrementalInput<'_>) -> (r: BTreeMap<u32, MutantResult>)
    ensures
        result_views(r@) == reused(*input),
{
    let ghost all = crate::instrument::mutant_views(input.mutants@);
    let mut names: Vec<String> = Vec::new();
    let mut i: usize = 0;
    proof {
        assert(crate::text::texts(names@) =~= files_in(all).take(0));
    }
    while i < input.mutants.len()
        invariant
            i <= input.mutants@.len(),
            all == crate::instrument::mutant_views(input.mutants@),
            crate::text::texts(names@) == files_in(all).take(i as int),
        decreases input.mutants@.len() - i,
    {
        let copy = copy_text(input.mutants[i].file.as_str());
        proof {
            crate::text::lemma_texts_push(names@, copy);
            assert(all[i as int] == input.mutants@[i as int]@);
            assert(files_in(all).take(i + 1) =~= files_in(all).take(i as int).push(copy@));
        }
        names.push(copy);
        i = i + 1;
    }
    proof {
        assert(files_in(all).take(input.mutants@.len() as int) =~= files_in(all));
    }
    let files = drop_repeats(&sort_paths(&names));
    let ghost paths = crate::text::texts(files@);
    let mut results: BTreeMap<u32, MutantResult> = BTreeMap::new();
    let mut n: usize = 0;
    proof {
        assert(paths.take(0) =~= Seq::<Seq<char>>::empty());
        assert(result_views(results@) =~= Map::<u32, crate::model::ResultView>::empty());
    }
    while n < files.len()
        invariant
            n <= files@.len(),
            paths == crate::text::texts(files@),
            result_views(results@) == reused_over(paths.take(n as int), *input),
        decreases files@.len() - n,
    {
        let file = files[n].as_str();
        proof {
            assert(paths.take(n + 1).drop_last() =~= paths.take(n as int));
            assert(paths.take(n + 1).last() == file@);
        }
        match (input.old_report.files.get(file), input.sources.get(file)) {
            (Some(old_file), Some(source)) => {
                let map = old_to_new_line_map(old_file.source.as_str(), source.as_str());
                reuse_file(&mut results, &old_file.mutants, &map, file, input);
            },
            _ => {},
        }
        n = n + 1;
    }
    proof {
        assert(paths.take(files@.len() as int) =~= paths);
    }
    results
}

// ---- laws ----

/// A killed mutant of the per-test tier is reused only while every killer test
/// still exists and its file is unchanged.
pub proof fn law_killed_needs_its_killers(
    old: crate::schema::JsonView,
    input: IncrementalInput<'_>,
    killer: Seq<char>,
)
    requires
        old.status is Killed,
        old.killed_by matches Some(killers) && killers.contains(killer),
        input.command_fingerprint_matches is None,
        still_holds(old, input),
    ensures
        killer_kept(killer, input),
{
    let killers = old.killed_by->0;
    let i = killers.index_of(killer);
    assert(killers[i] == killer);
}

/// What no test noticed, and what ran out of time, is reused only while nothing
/// about the tests has changed; errors, pending and ignored mutants never are.
pub proof fn law_survivors_need_unchanged_tests(
    old: crate::schema::JsonView,
    input: IncrementalInput<'_>,
)
    requires
        still_holds(old, input),
    ensures
        old.status.valid(),
        !(old.status is Killed) ==> unchanged(input),
{
}

/// Whether a result comes from an old mutant of the same file that is the same
/// and whose result still holds.
pub open spec fn comes_from(
    id: u32,
    result: crate::model::ResultView,
    m: crate::instrument::MutantView,
    old: crate::schema::JsonView,
    map: Map<u32, u32>,
    input: IncrementalInput<'_>,
) -> bool {
    m.id == id && same_mutant(old, map, m) && still_holds(old, input) && result == carried_over(old)
}

/// Whether a result has an origin in the old report.
pub open spec fn has_origin(
    id: u32,
    result: crate::model::ResultView,
    input: IncrementalInput<'_>,
) -> bool {
    exists|i: int, j: int|
        0 <= i < input.mutants@.len() && input.old_report.files@.dom().contains(
            (#[trigger] input.mutants@[i]).file@,
        ) && 0 <= j < input.old_report.files@[input.mutants@[i].file@].mutants@.len() && comes_from(
            id,
            result,
            input.mutants@[i]@,
            (#[trigger] input.old_report.files@[input.mutants@[i].file@].mutants@[j])@,
            kept_lines_of(input.mutants@[i].file@, input),
            input,
        )
}

proof fn lemma_first_match(
    free: Seq<crate::schema::JsonView>,
    map: Map<u32, u32>,
    m: crate::instrument::MutantView,
    in_column: bool,
    i: int,
)
    requires
        0 <= i,
    ensures
        first_match(free, map, m, in_column, i) matches Some(k) ==> i <= k < free.len()
            && same_mutant(free[k], map, m),
    decreases free.len() - i,
{
    if i < free.len() {
        lemma_first_match(free, map, m, in_column, i + 1);
    }
}

proof fn lemma_unclaimed(
    old: Seq<crate::schema::JsonView>,
    map: Map<u32, u32>,
    mutants: Seq<crate::instrument::MutantView>,
)
    ensures
        forall|k: int|
            0 <= k < unclaimed(old, map, mutants).len() ==> old.contains(
                #[trigger] unclaimed(old, map, mutants)[k],
            ),
    decreases mutants.len(),
{
    if mutants.len() > 0 {
        let front = mutants.drop_last();
        let free = unclaimed(old, map, front);
        lemma_unclaimed(old, map, front);
        lemma_first_match(free, map, mutants.last(), true, 0);
        lemma_first_match(free, map, mutants.last(), false, 0);
        let rest = unclaimed(old, map, mutants);
        assert forall|k: int| 0 <= k < rest.len() implies old.contains(#[trigger] rest[k]) by {
            match claim(free, map, mutants.last()) {
                Some(i) => {
                    if k < i {
                        assert(rest[k] == free[k]);
                    } else {
                        assert(rest[k] == free[k + 1]);
                    }
                },
                None => {},
            }
        }
    }
}

proof fn lemma_mutants_of(file: Seq<char>, mutants: Seq<crate::instrument::MutantView>, k: int)
    requires
        0 <= k < mutants_of(file, mutants).len(),
    ensures
        mutants.contains(mutants_of(file, mutants)[k]),
        mutants_of(file, mutants)[k].file == file,
    decreases mutants.len(),
{
    let front = mutants_of(file, mutants.drop_last());
    if k < front.len() {
        lemma_mutants_of(file, mutants.drop_last(), k);
        let m = front[k];
        let n = mutants.drop_last().index_of(m);
        assert(mutants[n] == m);
    } else {
        assert(mutants[mutants.len() - 1] == mutants.last());
    }
}

proof fn lemma_reused_in(
    base: Map<u32, crate::model::ResultView>,
    file: Seq<char>,
    mutants: Seq<crate::instrument::MutantView>,
    input: IncrementalInput<'_>,
    id: u32,
)
    requires
        input.old_report.files@.dom().contains(file),
        forall|k: int|
            0 <= k < mutants.len() ==> (#[trigger] mutants[k]).file == file
                && crate::instrument::mutant_views(input.mutants@).contains(mutants[k]),
        reused_in(
            base,
            crate::schema::json_views(input.old_report.files@[file].mutants@),
            kept_lines_of(file, input),
            mutants,
            input,
        ).dom().contains(id),
    ensures
        ({
            let all = reused_in(
                base,
                crate::schema::json_views(input.old_report.files@[file].mutants@),
                kept_lines_of(file, input),
                mutants,
                input,
            );
            (base.dom().contains(id) && all[id] == base[id]) || has_origin(id, all[id], input)
        }),
    decreases mutants.len(),
{
    let old = crate::schema::json_views(input.old_report.files@[file].mutants@);
    let map = kept_lines_of(file, input);
    if mutants.len() > 0 {
        let front = mutants.drop_last();
        let m = mutants.last();
        let free = unclaimed(old, map, front);
        lemma_unclaimed(old, map, front);
        lemma_first_match(free, map, m, true, 0);
        lemma_first_match(free, map, m, false, 0);
        assert forall|k: int| 0 <= k < front.len() implies (#[trigger] front[k]).file == file
            && crate::instrument::mutant_views(input.mutants@).contains(front[k]) by {
            assert(mutants[k] == front[k]);
        }
        let own = match claim(free, map, m) {
            Some(i) => still_holds(free[i], input) && m.id == id,
            None => false,
        };
        if own {
            let i = claim(free, map, m)->0;
            assert(old.contains(free[i]));
            let j = old.index_of(free[i]);
            assert(mutants[mutants.len() - 1] == m);
            let views = crate::instrument::mutant_views(input.mutants@);
            let n = views.index_of(m);
            assert(views[n] == m);
            assert(input.mutants@[n]@ == m);
            assert(input.mutants@[n].file@ == file);
            assert(input.old_report.files@[file].mutants@[j]@ == free[i]);
            assert(comes_from(id, carried_over(free[i]), m, free[i], map, input));
        } else {
            lemma_reused_in(base, file, front, input, id);
        }
    }
}

proof fn lemma_reused_over(files: Seq<Seq<char>>, input: IncrementalInput<'_>, id: u32)
    requires
        reused_over(files, input).dom().contains(id),
    ensures
        has_origin(id, reused_over(files, input)[id], input),
    decreases files.len(),
{
    if files.len() > 0 {
        let base = reused_over(files.drop_last(), input);
        let file = files.last();
        if base.dom().contains(id) {
            lemma_reused_over(files.drop_last(), input, id);
        }
        if input.old_report.files@.dom().contains(file) && input.sources@.dom().contains(file) {
            let views = crate::instrument::mutant_views(input.mutants@);
            let mutants = mutants_of(file, views);
            assert forall|k: int| 0 <= k < mutants.len() implies (#[trigger] mutants[k]).file == file
                && views.contains(mutants[k]) by {
                lemma_mutants_of(file, views, k);
            }
            lemma_reused_in(base, file, mutants, input, id);
        }
    }
}

/// Every reused result comes from an old mutant of the same file with the same
/// mutator and replacement, on unchanged lines, whose result still holds.
pub proof fn law_reused_results_have_an_origin(input: IncrementalInput<'_>, id: u32)
    requires
        reused(input).dom().contains(id),
    ensures
        has_origin(id, reused(input)[id], input),
{
    lemma_reused_over(
        crate::paths::without_repeats(
            crate::paths::sorted_paths(files_in(crate::instrument::mutant_views(input.mutants@))),
        ),
        input,
        id,
    );
}

/// Whether a result is that of a mutant with a known killer.
pub open spec fn has_killer(result: crate::model::ResultView) -> bool {
    result.status is Killed && result.killed_by.len() > 0
}

/// The results of mutants with a known killer.
pub open spec fn with_killer(m: Map<u32, crate::model::ResultView>) -> Map<
    u32,
    crate::model::ResultView,
> {
    m.restrict(Set::new(|id: u32| m.dom().contains(id) && has_killer(m[id])))
}

/// Whether `b` rests on the same as `a`, but for one more test file, `file`.
pub open spec fn one_more_file(
    a: IncrementalInput<'_>,
    b: IncrementalInput<'_>,
    file: Seq<char>,
    hash: Seq<char>,
) -> bool {
    &&& b.old_report == a.old_report
    &&& b.mutants == a.mutants
    &&& b.sources == a.sources
    &&& b.new_test_ids == a.new_test_ids
    &&& b.old_test_hashes == a.old_test_hashes
    &&& b.command_fingerprint_matches == a.command_fingerprint_matches
    &&& !a.new_test_hashes@.dom().contains(file)
    &&& text_values(b.new_test_hashes@) == text_values(a.new_test_hashes@).insert(file, hash)
}

/// Whether no two mutants share an id.
pub open spec fn distinct_ids(mutants: Seq<crate::instrument::MutantView>) -> bool {
    forall|i: int, j: int|
        0 <= i < j < mutants.len() ==> (#[trigger] mutants[i]).id != (#[trigger] mutants[j]).id
}

proof fn lemma_killers_kept(
    a: IncrementalInput<'_>,
    b: IncrementalInput<'_>,
    file: Seq<char>,
    hash: Seq<char>,
    killer: Seq<char>,
)
    requires
        one_more_file(a, b, file, hash),
        text_values(a.old_test_hashes@) == text_values(a.new_test_hashes@),
    ensures
        killer_kept(killer, b) == killer_kept(killer, a),
{
    let old = text_values(a.old_test_hashes@);
    let new_a = text_values(a.new_test_hashes@);
    let new_b = text_values(b.new_test_hashes@);
    if let Some((f, _)) = crate::text::cut_once(killer, " > "@) {
        assert(old.dom().contains(f) == a.old_test_hashes@.dom().contains(f));
        assert(new_a.dom().contains(f) == a.new_test_hashes@.dom().contains(f));
        assert(new_b.dom().contains(f) == b.new_test_hashes@.dom().contains(f));
        if old.dom().contains(f) {
            assert(new_b[f] == new_a[f]);
            assert(new_b[f] == b.new_test_hashes@[f]@);
            assert(new_a[f] == a.new_test_hashes@[f]@);
        }
    }
}

proof fn lemma_holds_with_killer(
    a: IncrementalInput<'_>,
    b: IncrementalInput<'_>,
    file: Seq<char>,
    hash: Seq<char>,
    old: crate::schema::JsonView,
)
    requires
        one_more_file(a, b, file, hash),
        a.command_fingerprint_matches is None,
        unchanged(a),
    ensures
        still_holds(old, b) == (still_holds(old, a) && has_killer(carried_over(old))),
{
    assert(!text_values(a.old_test_hashes@).dom().contains(file)) by {
        assert(!text_values(a.new_test_hashes@).dom().contains(file));
    }
    assert(text_values(b.new_test_hashes@).dom().contains(file));
    assert(!unchanged(b));
    if let Some(killers) = old.killed_by {
        assert forall|i: int| 0 <= i < killers.len() implies killer_kept(#[trigger] killers[i], b)
            == killer_kept(killers[i], a) by {
            lemma_killers_kept(a, b, file, hash, killers[i]);
        }
    }
}

proof fn lemma_ids_in(
    base: Map<u32, crate::model::ResultView>,
    old: Seq<crate::schema::JsonView>,
    map: Map<u32, u32>,
    mutants: Seq<crate::instrument::MutantView>,
    input: IncrementalInput<'_>,
    id: u32,
)
    requires
        reused_in(base, old, map, mutants, input).dom().contains(id),
    ensures
        base.dom().contains(id) || exists|k: int|
            0 <= k < mutants.len() && (#[trigger] mutants[k]).id == id,
    decreases mutants.len(),
{
    if mutants.len() > 0 {
        if mutants.last().id == id {
            assert(mutants[mutants.len() - 1].id == id);
        } else {
            let front = mutants.drop_last();
            lemma_ids_in(base, old, map, front, input, id);
            if !base.dom().contains(id) {
                let k = choose|k: int| 0 <= k < front.len() && (#[trigger] front[k]).id == id;
                assert(mutants[k].id == id);
            }
        }
    }
}

/// The reused results of one file.
spec fn reused_of(file: Seq<char>, input: IncrementalInput<'_>) -> Map<
    u32,
    crate::model::ResultView,
> {
    with_file(Map::empty(), file, input)
}

proof fn lemma_overlay(
    base: Map<u32, crate::model::ResultView>,
    old: Seq<crate::schema::JsonView>,
    map: Map<u32, u32>,
    mutants: Seq<crate::instrument::MutantView>,
    input: IncrementalInput<'_>,
)
    ensures
        reused_in(base, old, map, mutants, input) == base.union_prefer_right(
            reused_in(Map::empty(), old, map, mutants, input),
        ),
    decreases mutants.len(),
{
    if mutants.len() > 0 {
        lemma_overlay(base, old, map, mutants.drop_last(), input);
    }
    assert(reused_in(base, old, map, mutants, input) =~= base.union_prefer_right(
        reused_in(Map::empty(), old, map, mutants, input),
    ));
}

proof fn lemma_file_overlay(
    base: Map<u32, crate::model::ResultView>,
    file: Seq<char>,
    input: IncrementalInput<'_>,
)
    ensures
        with_file(base, file, input) == base.union_prefer_right(reused_of(file, input)),
{
    lemma_overlay(
        base,
        crate::schema::json_views(input.old_report.files@[file].mutants@),
        kept_lines_of(file, input),
        mutants_of(file, crate::instrument::mutant_views(input.mutants@)),
        input,
    );
    assert(base.union_prefer_right(Map::empty()) =~= base);
}

/// A reused result is that of the mutant's own file.
proof fn lemma_own_file(files: Seq<Seq<char>>, input: IncrementalInput<'_>, id: u32) -> (n: int)
    requires
        reused_over(files, input).dom().contains(id),
    ensures
        0 <= n < input.mutants@.len(),
        input.mutants@[n]@.id == id,
        reused_of(input.mutants@[n]@.file, input).dom().contains(id),
        reused_of(input.mutants@[n]@.file, input)[id] == reused_over(files, input)[id],
    decreases files.len(),
{
    let base = reused_over(files.drop_last(), input);
    let file = files.last();
    lemma_file_overlay(base, file, input);
    if reused_of(file, input).dom().contains(id) {
        lemma_id_of_file(file, input, id)
    } else {
        lemma_own_file(files.drop_last(), input, id)
    }
}

proof fn lemma_id_of_file(file: Seq<char>, input: IncrementalInput<'_>, id: u32) -> (n: int)
    requires
        reused_of(file, input).dom().contains(id),
    ensures
        0 <= n < input.mutants@.len(),
        input.mutants@[n]@.id == id,
        input.mutants@[n]@.file == file,
{
    let views = crate::instrument::mutant_views(input.mutants@);
    let mutants = mutants_of(file, views);
    lemma_ids_in(
        Map::empty(),
        crate::schema::json_views(input.old_report.files@[file].mutants@),
        kept_lines_of(file, input),
        mutants,
        input,
        id,
    );
    let k = choose|k: int| 0 <= k < mutants.len() && (#[trigger] mutants[k]).id == id;
    lemma_mutants_of(file, views, k);
    let n = views.index_of(mutants[k]);
    assert(views[n] == input.mutants@[n]@);
    n
}

proof fn lemma_distinct_in(file: Seq<char>, mutants: Seq<crate::instrument::MutantView>)
    requires
        distinct_ids(mutants),
    ensures
        distinct_ids(mutants_of(file, mutants)),
    decreases mutants.len(),
{
    if mutants.len() > 0 {
        let front = mutants.drop_last();
        assert(distinct_ids(front)) by {
            assert forall|i: int, j: int| 0 <= i < j < front.len() implies (#[trigger] front[i]).id
                != (#[trigger] front[j]).id by {
                assert(front[i] == mutants[i] && front[j] == mutants[j]);
            }
        }
        lemma_distinct_in(file, front);
        let own = mutants_of(file, front);
        let all = mutants_of(file, mutants);
        assert forall|i: int, j: int| 0 <= i < j < all.len() implies (#[trigger] all[i]).id != (
        #[trigger] all[j]).id by {
            assert(all[i] == own[i]);
            if j < own.len() {
                assert(all[j] == own[j]);
            } else {
                lemma_mutants_of(file, front, i);
                let n = front.index_of(own[i]);
                assert(mutants[n] == own[i]);
                assert(mutants[mutants.len() - 1] == all[j]);
            }
        }
    }
}

proof fn lemma_more_tests_in(
    a: IncrementalInput<'_>,
    b: IncrementalInput<'_>,
    file: Seq<char>,
    hash: Seq<char>,
    base: Map<u32, crate::model::ResultView>,
    old: Seq<crate::schema::JsonView>,
    map: Map<u32, u32>,
    mutants: Seq<crate::instrument::MutantView>,
)
    requires
        one_more_file(a, b, file, hash),
        a.command_fingerprint_matches is None,
        unchanged(a),
        distinct_ids(mutants),
        forall|k: int| 0 <= k < mutants.len() ==> !base.dom().contains((#[trigger] mutants[k]).id),
    ensures
        reused_in(with_killer(base), old, map, mutants, b) == with_killer(
            reused_in(base, old, map, mutants, a),
        ),
    decreases mutants.len(),
{
    if mutants.len() > 0 {
        let before = mutants.drop_last();
        let m = mutants.last();
        assert forall|i: int, j: int| 0 <= i < j < before.len() implies (#[trigger] before[i]).id
            != (#[trigger] before[j]).id by {
            assert(before[i] == mutants[i] && before[j] == mutants[j]);
        }
        assert forall|k: int| 0 <= k < before.len() implies !base.dom().contains(
            (#[trigger] before[k]).id,
        ) by {
            assert(before[k] == mutants[k]);
        }
        lemma_more_tests_in(a, b, file, hash, base, old, map, before);
        let front = reused_in(base, old, map, before, a);
        let free = unclaimed(old, map, before);
        assert(!front.dom().contains(m.id)) by {
            if front.dom().contains(m.id) {
                lemma_ids_in(base, old, map, before, a, m.id);
                assert(mutants[mutants.len() - 1] == m);
                let k = choose|k: int| 0 <= k < before.len() && (#[trigger] before[k]).id == m.id;
                assert(mutants[k] == before[k]);
            }
        }
        if let Some(i) = claim(free, map, m) {
            lemma_holds_with_killer(a, b, file, hash, free[i]);
            let result = carried_over(free[i]);
            if has_killer(result) {
                assert(with_killer(front.insert(m.id, result)) =~= with_killer(front).insert(
                    m.id,
                    result,
                ));
            } else {
                assert(with_killer(front.insert(m.id, result)) =~= with_killer(front));
            }
        }
    }
}

proof fn lemma_more_tests_over(
    a: IncrementalInput<'_>,
    b: IncrementalInput<'_>,
    file: Seq<char>,
    hash: Seq<char>,
    files: Seq<Seq<char>>,
)
    requires
        one_more_file(a, b, file, hash),
        a.command_fingerprint_matches is None,
        unchanged(a),
        distinct_ids(crate::instrument::mutant_views(a.mutants@)),
    ensures
        reused_over(files, b) == with_killer(reused_over(files, a)),
    decreases files.len(),
{
    if files.len() == 0 {
        assert(with_killer(reused_over(files, a)) =~= Map::empty());
    } else {
        let front = files.drop_last();
        let last = files.last();
        lemma_more_tests_over(a, b, file, hash, front);
        let base = reused_over(front, a);
        let own = reused_of(last, a);
        let views = crate::instrument::mutant_views(a.mutants@);
        lemma_distinct_in(last, views);
        lemma_file_overlay(base, last, a);
        lemma_file_overlay(with_killer(base), last, b);
        let none = Map::<u32, crate::model::ResultView>::empty();
        assert(with_killer(none) =~= none);
        lemma_more_tests_in(
            a,
            b,
            file,
            hash,
            none,
            crate::schema::json_views(a.old_report.files@[last].mutants@),
            kept_lines_of(last, a),
            mutants_of(last, views),
        );
        assert(reused_of(last, b) == with_killer(own));
        assert forall|id: u32| base.dom().contains(id) && own.dom().contains(id) implies base[id]
            == #[trigger] own[id] by {
            let n = lemma_own_file(front, a, id);
            let i = lemma_id_of_file(last, a, id);
            assert(views[n] == a.mutants@[n]@ && views[i] == a.mutants@[i]@);
            if i < n {
                assert(views[i].id != views[n].id);
            } else if n < i {
                assert(views[n].id != views[i].id);
            }
        }
        assert(with_killer(base.union_prefer_right(own)) =~= with_killer(base).union_prefer_right(
            with_killer(own),
        ));
    }
}

/// With one test file more, of all that was reused without it only the mutants
/// with a known killer still are.
pub proof fn law_new_test_file_keeps_the_killed(
    a: IncrementalInput<'_>,
    b: IncrementalInput<'_>,
    file: Seq<char>,
    hash: Seq<char>,
)
    requires
        one_more_file(a, b, file, hash),
        a.command_fingerprint_matches is None,
        text_values(a.old_test_hashes@) == text_values(a.new_test_hashes@),
        a.new_test_hashes.keys().len() > 0,
        distinct_ids(crate::instrument::mutant_views(a.mutants@)),
    ensures
        reused(b) == with_killer(reused(a)),
{
    lemma_more_tests_over(
        a,
        b,
        file,
        hash,
        crate::paths::without_repeats(
            crate::paths::sorted_paths(files_in(crate::instrument::mutant_views(a.mutants@))),
        ),
    );
}

// ---- what must be reused, and what must not ----

/// With another test command nothing is reused.
pub proof fn law_another_command_reuses_nothing(input: IncrementalInput<'_>)
    requires
        input.command_fingerprint_matches == Some(false),
    ensures
        reused(input) == Map::<u32, crate::model::ResultView>::empty(),
{
    assert forall|id: u32| !#[trigger] reused(input).dom().contains(id) by {
        if reused(input).dom().contains(id) {
            law_reused_results_have_an_origin(input, id);
        }
    }
    assert(reused(input) =~= Map::<u32, crate::model::ResultView>::empty());
}

/// Whether an old mutant stands on lines that are unchanged and moved together to
/// where a new one stands, with the same mutator and replacement.
pub open spec fn stands_for(
    old: crate::schema::JsonView,
    map: Map<u32, u32>,
    m: crate::instrument::MutantView,
) -> bool {
    &&& old.mutator_name == m.mutator_name
    &&& old.replacement == Some(m.replacement)
    &&& map.contains_key(old.location.start.line)
    &&& map[old.location.start.line] == m.location.start.line
    &&& forall|line: u32|
        old.location.start.line <= line <= old.location.end.line ==> #[trigger] map.contains_key(
            line,
        ) && map[line] - m.location.start.line == line - old.location.start.line
}

proof fn lemma_stands_for(
    old: crate::schema::JsonView,
    map: Map<u32, u32>,
    m: crate::instrument::MutantView,
)
    ensures
        same_mutant(old, map, m) == stands_for(old, map, m),
{
    let start = old.location.start.line;
    let end = old.location.end.line;
    if stands_for(old, map, m) {
        assert forall|line: u32| start <= line <= last_of(start, end) implies #[trigger] shifted_alike(
            map,
            start,
            line,
        ) by {
            assert(map.contains_key(line));
        }
    }
    if same_mutant(old, map, m) {
        assert forall|line: u32| start <= line <= end implies #[trigger] map.contains_key(line)
            && map[line] - m.location.start.line == line - start by {
            assert(shifted_alike(map, start, line));
        }
    }
}

proof fn lemma_finds_match(
    free: Seq<crate::schema::JsonView>,
    map: Map<u32, u32>,
    m: crate::instrument::MutantView,
    in_column: bool,
    i: int,
    at: int,
)
    requires
        0 <= i <= at < free.len(),
        stands_for(free[at], map, m),
        in_column ==> free[at].location.start.column == m.location.start.column,
    ensures
        first_match(free, map, m, in_column, i) is Some,
        in_column ==> free[first_match(free, map, m, in_column, i)->0].location.start.column
            == m.location.start.column,
    decreases free.len() - i,
{
    lemma_stands_for(free[at], map, m);
    if i < at {
        lemma_finds_match(free, map, m, in_column, i + 1, at);
    }
}

/// What a claim takes, where an old mutant stands for the new one in its column.
proof fn lemma_claims_in_column(
    free: Seq<crate::schema::JsonView>,
    map: Map<u32, u32>,
    m: crate::instrument::MutantView,
    o: crate::schema::JsonView,
)
    requires
        free.contains(o),
        stands_for(o, map, m),
        o.location.start.column == m.location.start.column,
    ensures
        claim(free, map, m) is Some,
        0 <= claim(free, map, m)->0 < free.len(),
        stands_for(free[claim(free, map, m)->0], map, m),
        free[claim(free, map, m)->0].location.start.column == m.location.start.column,
{
    let at = free.index_of(o);
    lemma_finds_match(free, map, m, true, 0, at);
    lemma_first_match(free, map, m, true, 0);
    let i = first_match(free, map, m, true, 0)->0;
    lemma_stands_for(free[i], map, m);
}

/// Whether no two of a list of new mutants that an old one stands for start in
/// the same column, and each has an old one in its own.
pub open spec fn each_has_its_own(
    o: crate::schema::JsonView,
    old: Seq<crate::schema::JsonView>,
    map: Map<u32, u32>,
    mutants: Seq<crate::instrument::MutantView>,
) -> bool {
    &&& forall|a: int, b: int|
        0 <= a < b < mutants.len() && stands_for(o, map, #[trigger] mutants[a]) && stands_for(
            o,
            map,
            #[trigger] mutants[b],
        ) ==> mutants[a].location.start.column != mutants[b].location.start.column
    &&& forall|a: int|
        0 <= a < mutants.len() && stands_for(o, map, #[trigger] mutants[a]) ==> has_own(
            old,
            map,
            mutants[a],
        )
}

/// Whether one of a list of old mutants stands for a new one in its column.
pub open spec fn has_own(
    old: Seq<crate::schema::JsonView>,
    map: Map<u32, u32>,
    m: crate::instrument::MutantView,
) -> bool {
    exists|k: int|
        0 <= k < old.len() && stands_for(#[trigger] old[k], map, m)
            && old[k].location.start.column == m.location.start.column
}

proof fn lemma_stays_free(
    o: crate::schema::JsonView,
    old: Seq<crate::schema::JsonView>,
    map: Map<u32, u32>,
    mutants: Seq<crate::instrument::MutantView>,
)
    requires
        old.contains(o),
        each_has_its_own(o, old, map, mutants),
        forall|a: int|
            0 <= a < mutants.len() && stands_for(o, map, #[trigger] mutants[a])
                ==> mutants[a].location.start.column != o.location.start.column,
    ensures
        unclaimed(old, map, mutants).contains(o),
    decreases mutants.len(),
{
    if mutants.len() > 0 {
        let front = mutants.drop_last();
        let m = mutants.last();
        let free = unclaimed(old, map, front);
        assert(mutants[mutants.len() - 1] == m);
        assert(each_has_its_own(o, old, map, front)) by {
            assert forall|a: int, b: int|
                0 <= a < b < front.len() && stands_for(o, map, #[trigger] front[a]) && stands_for(
                    o,
                    map,
                    #[trigger] front[b],
                ) implies front[a].location.start.column != front[b].location.start.column by {
                assert(front[a] == mutants[a] && front[b] == mutants[b]);
            }
            assert forall|a: int|
                0 <= a < front.len() && stands_for(o, map, #[trigger] front[a]) implies has_own(
                old,
                map,
                front[a],
            ) by {
                assert(front[a] == mutants[a]);
            }
        }
        assert forall|a: int|
            0 <= a < front.len() && stands_for(
                o,
                map,
                #[trigger] front[a],
            ) implies front[a].location.start.column != o.location.start.column by {
            assert(front[a] == mutants[a]);
        }
        lemma_stays_free(o, old, map, front);
        let at = free.index_of(o);
        let rest = unclaimed(old, map, mutants);
        if stands_for(o, map, m) {
            assert(has_own(old, map, m));
            let k = choose|k: int|
                0 <= k < old.len() && stands_for(#[trigger] old[k], map, m)
                    && old[k].location.start.column == m.location.start.column;
            let own = old[k];
            assert(each_has_its_own(own, old, map, front)) by {
                assert forall|a: int, b: int|
                    0 <= a < b < front.len() && stands_for(own, map, #[trigger] front[a])
                        && stands_for(
                        own,
                        map,
                        #[trigger] front[b],
                    ) implies front[a].location.start.column != front[b].location.start.column by {
                    lemma_same_group(o, own, map, m, front[a]);
                    lemma_same_group(o, own, map, m, front[b]);
                }
                assert forall|a: int|
                    0 <= a < front.len() && stands_for(own, map, #[trigger] front[a]) implies has_own(
                    old,
                    map,
                    front[a],
                ) by {
                    lemma_same_group(o, own, map, m, front[a]);
                }
            }
            assert forall|a: int|
                0 <= a < front.len() && stands_for(
                    own,
                    map,
                    #[trigger] front[a],
                ) implies front[a].location.start.column != own.location.start.column by {
                lemma_same_group(o, own, map, m, front[a]);
                assert(front[a] == mutants[a]);
            }
            lemma_stays_free(own, old, map, front);
            lemma_claims_in_column(free, map, m, own);
        } else if let Some(i) = claim(free, map, m) {
            lemma_first_match(free, map, m, true, 0);
            lemma_first_match(free, map, m, false, 0);
            lemma_stands_for(free[i], map, m);
        }
        if let Some(i) = claim(free, map, m) {
            lemma_first_match(free, map, m, true, 0);
            lemma_first_match(free, map, m, false, 0);
            assert(free[i] != o);
            if at < i {
                assert(rest[at] == o);
            } else {
                assert(rest[at - 1] == o);
            }
        }
    }
}

proof fn lemma_same_group(
    o: crate::schema::JsonView,
    own: crate::schema::JsonView,
    map: Map<u32, u32>,
    m: crate::instrument::MutantView,
    n: crate::instrument::MutantView,
)
    requires
        stands_for(o, map, m),
        stands_for(own, map, m),
        stands_for(own, map, n),
    ensures
        stands_for(o, map, n),
{
}

proof fn lemma_mutant_is_of_file(
    file: Seq<char>,
    mutants: Seq<crate::instrument::MutantView>,
    i: int,
)
    requires
        0 <= i < mutants.len(),
        mutants[i].file == file,
    ensures
        mutants_of(file, mutants).contains(mutants[i]),
    decreases mutants.len(),
{
    let front = mutants.drop_last();
    let all = mutants_of(file, mutants);
    if i < front.len() {
        assert(front[i] == mutants[i]);
        lemma_mutant_is_of_file(file, front, i);
        let own = mutants_of(file, front);
        let k = own.index_of(mutants[i]);
        assert(all[k] == mutants[i]);
    } else {
        assert(all[all.len() - 1] == mutants[i]);
    }
}

/// The result of a new mutant that claims an old one whose result holds.
proof fn lemma_claimed_is_reused(
    old: Seq<crate::schema::JsonView>,
    map: Map<u32, u32>,
    mutants: Seq<crate::instrument::MutantView>,
    input: IncrementalInput<'_>,
    at: int,
    o: crate::schema::JsonView,
)
    requires
        distinct_ids(mutants),
        0 <= at < mutants.len(),
        claim(unclaimed(old, map, mutants.take(at)), map, mutants[at]) matches Some(i)
            && unclaimed(old, map, mutants.take(at))[i] == o,
        still_holds(o, input),
    ensures
        reused_in(Map::empty(), old, map, mutants, input).dom().contains(mutants[at].id),
        reused_in(Map::empty(), old, map, mutants, input)[mutants[at].id] == carried_over(o),
    decreases mutants.len(),
{
    let front = mutants.drop_last();
    if at == mutants.len() - 1 {
        assert(mutants.take(at) =~= front);
    } else {
        assert(front.take(at) =~= mutants.take(at));
        assert(front[at] == mutants[at]);
        assert(distinct_ids(front)) by {
            assert forall|i: int, j: int| 0 <= i < j < front.len() implies (#[trigger] front[i]).id
                != (#[trigger] front[j]).id by {
                assert(front[i] == mutants[i] && front[j] == mutants[j]);
            }
        }
        lemma_claimed_is_reused(old, map, front, input, at, o);
        assert(mutants[at].id != mutants[mutants.len() - 1].id);
    }
}

/// A result of a mutant's own file is that of all files.
proof fn lemma_kept_over_files(
    files: Seq<Seq<char>>,
    input: IncrementalInput<'_>,
    file: Seq<char>,
    id: u32,
)
    requires
        distinct_ids(crate::instrument::mutant_views(input.mutants@)),
        files.contains(file),
        reused_of(file, input).dom().contains(id),
    ensures
        reused_over(files, input).dom().contains(id),
        reused_over(files, input)[id] == reused_of(file, input)[id],
    decreases files.len(),
{
    let front = files.drop_last();
    let last = files.last();
    let views = crate::instrument::mutant_views(input.mutants@);
    lemma_file_overlay(reused_over(front, input), last, input);
    if last != file {
        let k = files.index_of(file);
        assert(front[k] == file);
        lemma_kept_over_files(front, input, file, id);
        if reused_of(last, input).dom().contains(id) {
            let a = lemma_id_of_file(last, input, id);
            let b = lemma_id_of_file(file, input, id);
            assert(views[a] == input.mutants@[a]@ && views[b] == input.mutants@[b]@);
            if a < b {
                assert(views[a].id != views[b].id);
            } else if b < a {
                assert(views[b].id != views[a].id);
            }
        }
    }
}

/// Whether the old mutant `j` of the file of the new mutant `i` is that mutant:
/// it stands for it in the same column, and neither is mixed up with another one.
pub open spec fn is_the_same(input: IncrementalInput<'_>, i: int, j: int) -> bool {
    let m = input.mutants@[i]@;
    let old = crate::schema::json_views(input.old_report.files@[m.file].mutants@);
    let map = kept_lines(
        line_changes(input.old_report.files@[m.file].source@, input.sources@[m.file]@),
    );
    &&& 0 <= i < input.mutants@.len()
    &&& input.old_report.files@.contains_key(m.file)
    &&& input.sources@.contains_key(m.file)
    &&& 0 <= j < old.len()
    &&& stands_for(old[j], map, m)
    &&& old[j].location.start.column == m.location.start.column
    &&& forall|k: int|
        0 <= k < old.len() && k != j && stands_for(#[trigger] old[k], map, m)
            ==> old[k].location.start.column != m.location.start.column
    &&& each_has_its_own(
        old[j],
        old,
        map,
        mutants_of(m.file, crate::instrument::mutant_views(input.mutants@)),
    )
}

proof fn lemma_same_is_reused(input: IncrementalInput<'_>, i: int, j: int)
    requires
        distinct_ids(crate::instrument::mutant_views(input.mutants@)),
        is_the_same(input, i, j),
        still_holds(input.old_report.files@[input.mutants@[i]@.file].mutants@[j]@, input),
    ensures
        reused(input).dom().contains(input.mutants@[i]@.id),
        reused(input)[input.mutants@[i]@.id] == carried_over(
            input.old_report.files@[input.mutants@[i]@.file].mutants@[j]@,
        ),
{
    let m = input.mutants@[i]@;
    let file = m.file;
    let old = crate::schema::json_views(input.old_report.files@[file].mutants@);
    let map = kept_lines_of(file, input);
    let views = crate::instrument::mutant_views(input.mutants@);
    let mutants = mutants_of(file, views);
    let o = old[j];
    assert(views[i] == m);
    lemma_mutant_is_of_file(file, views, i);
    lemma_distinct_in(file, views);
    let at = mutants.index_of(m);
    let before = mutants.take(at);
    assert(old.contains(o));
    assert(each_has_its_own(o, old, map, before)) by {
        assert forall|a: int, b: int|
            0 <= a < b < before.len() && stands_for(o, map, #[trigger] before[a]) && stands_for(
                o,
                map,
                #[trigger] before[b],
            ) implies before[a].location.start.column != before[b].location.start.column by {
            assert(before[a] == mutants[a] && before[b] == mutants[b]);
        }
        assert forall|a: int|
            0 <= a < before.len() && stands_for(o, map, #[trigger] before[a]) implies has_own(
            old,
            map,
            before[a],
        ) by {
            assert(before[a] == mutants[a]);
        }
    }
    assert forall|a: int|
        0 <= a < before.len() && stands_for(
            o,
            map,
            #[trigger] before[a],
        ) implies before[a].location.start.column != o.location.start.column by {
        assert(before[a] == mutants[a]);
        assert(mutants[at] == m);
    }
    lemma_stays_free(o, old, map, before);
    let free = unclaimed(old, map, before);
    lemma_claims_in_column(free, map, m, o);
    let c = claim(free, map, m)->0;
    lemma_unclaimed(old, map, before);
    assert(old.contains(free[c]));
    let k = old.index_of(free[c]);
    assert(old[k] == free[c]);
    assert(free[c] == o);
    assert(old[j] == input.old_report.files@[file].mutants@[j]@);
    lemma_claimed_is_reused(old, map, mutants, input, at, o);
    let files = crate::paths::sorted_paths(files_in(views));
    assert(files_in(views)[i] == file);
    assert(files_in(views).contains(file));
    crate::paths::law_paths_are_sorted(files_in(views));
    crate::paths::law_repeats_are_dropped(files);
    assert(crate::paths::without_repeats(files).contains(file));
    lemma_kept_over_files(crate::paths::without_repeats(files), input, file, m.id);
}

/// With the same test command, the result of an old mutant that was killed,
/// survived, was not covered or timed out is reused for the same new mutant, and
/// the one of any other old mutant is not.
pub proof fn law_the_same_command_reuses_results(input: IncrementalInput<'_>, i: int, j: int)
    requires
        distinct_ids(crate::instrument::mutant_views(input.mutants@)),
        input.command_fingerprint_matches == Some(true),
        is_the_same(input, i, j),
    ensures
        ({
            let m = input.mutants@[i];
            let old = input.old_report.files@[m.file@].mutants@[j];
            let tested = old.status is Killed || old.status is Survived || old.status is NoCoverage
                || old.status is Timeout;
            &&& tested ==> reused(input).contains_key(m.id.0)
            &&& tested ==> reused(input)[m.id.0].status == old.status
            &&& tested ==> reused(input)[m.id.0].killed_by == or_empty(old@.killed_by)
            &&& tested ==> reused(input)[m.id.0].covered_by == or_empty(old@.covered_by)
            &&& tested ==> reused(input)[m.id.0].status_reason == old@.status_reason
            &&& tested ==> reused(input)[m.id.0].is_static == old.is_static
            &&& tested ==> reused(input)[m.id.0].tests_ran == (match old.tests_completed {
                Some(n) => n,
                None => 0,
            })
        }),
{
    let m = input.mutants@[i];
    let old = input.old_report.files@[m.file@].mutants@[j];
    if old.status is Killed || old.status is Survived || old.status is NoCoverage
        || old.status is Timeout {
        lemma_same_is_reused(input, i, j);
    }
}

/// Whether a test still exists, in a file whose hash is known and the same.
pub open spec fn test_stands(test: Seq<char>, input: IncrementalInput<'_>) -> bool {
    &&& exists|k: int|
        0 <= k < input.new_test_ids@.len() && (#[trigger] input.new_test_ids@[k])@ == test
    &&& crate::text::cut_once(test, " > "@) matches Some(cut) && input.old_test_hashes@.contains_key(
        cut.0,
    ) && input.new_test_hashes@.contains_key(cut.0) && input.old_test_hashes@[cut.0]@
        == input.new_test_hashes@[cut.0]@
}

/// Whether the hashes of the test files are known and the same.
pub open spec fn hashes_stand(input: IncrementalInput<'_>) -> bool {
    &&& exists|file: Seq<char>| #[trigger] input.new_test_hashes@.contains_key(file)
    &&& forall|file: Seq<char>| #[trigger]
        input.new_test_hashes@.contains_key(file) <==> input.old_test_hashes@.contains_key(file)
    &&& forall|file: Seq<char>| #[trigger]
        input.new_test_hashes@.contains_key(file) ==> input.new_test_hashes@[file]@
            == input.old_test_hashes@[file]@
}

proof fn lemma_hashes_stand(input: IncrementalInput<'_>)
    requires
        input.command_fingerprint_matches is None,
    ensures
        unchanged(input) == hashes_stand(input),
{
    let old = text_values(input.old_test_hashes@);
    let new = text_values(input.new_test_hashes@);
    let keys = input.new_test_hashes.keys();
    if keys.len() > 0 {
        assert(keys.contains(keys[0]));
        assert(input.new_test_hashes@.contains_key(keys[0]));
    }
    assert(forall|f: Seq<char>| old.contains_key(f) <==> input.old_test_hashes@.contains_key(f));
    assert(forall|f: Seq<char>| new.contains_key(f) <==> input.new_test_hashes@.contains_key(f));
    if hashes_stand(input) {
        let file = choose|file: Seq<char>| #[trigger] input.new_test_hashes@.contains_key(file);
        assert(keys.contains(file));
        assert forall|f: Seq<char>| #[trigger] new.contains_key(f) <==> old.contains_key(f) by {
            assert(input.new_test_hashes@.contains_key(f) <==> input.old_test_hashes@.contains_key(f));
        }
        assert forall|f: Seq<char>| #[trigger] new.contains_key(f) implies new[f] == old[f] by {
            assert(input.new_test_hashes@.contains_key(f));
        }
        assert(old =~= new);
    }
    if unchanged(input) {
        assert forall|f: Seq<char>| #[trigger]
            input.new_test_hashes@.contains_key(f) <==> input.old_test_hashes@.contains_key(f) by {
            assert(new.contains_key(f) == old.contains_key(f));
        }
        assert forall|f: Seq<char>| #[trigger]
            input.new_test_hashes@.contains_key(f) implies input.new_test_hashes@[f]@
            == input.old_test_hashes@[f]@ by {
            assert(new.contains_key(f));
            assert(new[f] == old[f]);
        }
    }
}

proof fn lemma_test_stands(test: Seq<char>, input: IncrementalInput<'_>)
    ensures
        killer_kept(test, input) == test_stands(test, input),
{
    let ids = crate::text::texts(input.new_test_ids@);
    if ids.contains(test) {
        let k = ids.index_of(test);
        assert(input.new_test_ids@[k]@ == test);
    }
    if exists|k: int| 0 <= k < input.new_test_ids@.len() && (#[trigger] input.new_test_ids@[k])@
        == test {
        let k = choose|k: int|
            0 <= k < input.new_test_ids@.len() && (#[trigger] input.new_test_ids@[k])@ == test;
        assert(ids[k] == test);
    }
}

/// Whether an old result may be reused by the hashes of the test files: one with
/// killers where each of them stands, another one where all hashes do.
pub open spec fn hashes_allow(old: crate::schema::JsonView, input: IncrementalInput<'_>) -> bool {
    if old.status is Killed && old.killed_by is Some && old.killed_by->0.len() > 0 {
        forall|k: int|
            0 <= k < old.killed_by->0.len() ==> test_stands(#[trigger] old.killed_by->0[k], input)
    } else {
        (old.status is Killed || old.status is Survived || old.status is NoCoverage
            || old.status is Timeout) && hashes_stand(input)
    }
}

proof fn lemma_hashes_allow(old: crate::schema::JsonView, input: IncrementalInput<'_>)
    requires
        input.command_fingerprint_matches is None,
    ensures
        still_holds(old, input) == hashes_allow(old, input),
{
    lemma_hashes_stand(input);
    if let Some(killers) = old.killed_by {
        assert forall|k: int| 0 <= k < killers.len() implies killer_kept(#[trigger] killers[k], input)
            == test_stands(killers[k], input) by {
            lemma_test_stands(killers[k], input);
        }
    }
}

/// Without a test command to go by, a result is reused for the same mutant where
/// the tests that killed it stand unchanged, or, without known killers, where no
/// test file has changed.
pub proof fn law_unchanged_tests_reuse_results(input: IncrementalInput<'_>, i: int, j: int)
    requires
        distinct_ids(crate::instrument::mutant_views(input.mutants@)),
        input.command_fingerprint_matches is None,
        is_the_same(input, i, j),
        hashes_allow(input.old_report.files@[input.mutants@[i]@.file].mutants@[j]@, input),
    ensures
        reused(input).contains_key(input.mutants@[i].id.0),
        reused(input)[input.mutants@[i].id.0].status
            == input.old_report.files@[input.mutants@[i]@.file].mutants@[j].status,
{
    lemma_hashes_allow(input.old_report.files@[input.mutants@[i]@.file].mutants@[j]@, input);
    lemma_same_is_reused(input, i, j);
}

/// Whether a result is the one of an old mutant that stands for the new mutant of
/// an id, and that the tests let stand.
pub open spec fn is_carried_over(
    id: u32,
    result: crate::model::ResultView,
    input: IncrementalInput<'_>,
    i: int,
    j: int,
) -> bool {
    let m = input.mutants@[i]@;
    let old = input.old_report.files@[m.file].mutants@[j]@;
    let map = kept_lines(
        line_changes(input.old_report.files@[m.file].source@, input.sources@[m.file]@),
    );
    &&& 0 <= i < input.mutants@.len()
    &&& m.id == id
    &&& input.old_report.files@.contains_key(m.file)
    &&& 0 <= j < input.old_report.files@[m.file].mutants@.len()
    &&& stands_for(old, map, m)
    &&& result.status == old.status
    &&& result.killed_by == or_empty(old.killed_by)
    &&& result.covered_by == or_empty(old.covered_by)
    &&& match input.command_fingerprint_matches {
        Some(same) => same && (old.status is Killed || old.status is Survived
            || old.status is NoCoverage || old.status is Timeout),
        None => hashes_allow(old, input),
    }
}

/// Every reused result is the one of an old mutant that stands for the new one,
/// and that the test command, or without one the test files, let stand.
pub proof fn law_reused_results_stand(input: IncrementalInput<'_>, id: u32)
    requires
        reused(input).contains_key(id),
    ensures
        exists|i: int, j: int| #[trigger] is_carried_over(id, reused(input)[id], input, i, j),
{
    let result = reused(input)[id];
    law_reused_results_have_an_origin(input, id);
    let (i, j) = choose|i: int, j: int|
        0 <= i < input.mutants@.len() && input.old_report.files@.dom().contains(
            (#[trigger] input.mutants@[i]).file@,
        ) && 0 <= j < input.old_report.files@[input.mutants@[i].file@].mutants@.len() && comes_from(
            id,
            result,
            input.mutants@[i]@,
            (#[trigger] input.old_report.files@[input.mutants@[i].file@].mutants@[j])@,
            kept_lines_of(input.mutants@[i].file@, input),
            input,
        );
    let old = input.old_report.files@[input.mutants@[i].file@].mutants@[j]@;
    lemma_stands_for(old, kept_lines_of(input.mutants@[i].file@, input), input.mutants@[i]@);
    if input.command_fingerprint_matches is None {
        lemma_hashes_allow(old, input);
    }
    assert(is_carried_over(id, result, input, i, j));
}

/// A line is kept where the diff has it as equal on both sides, and it then leads
/// to a line that the diff pairs it with.
pub proof fn law_kept_lines_are_equal_ones(changes: Seq<LineChange>, line: u32)
    ensures
        kept_lines(changes).contains_key(line) <==> exists|i: int|
            0 <= i < changes.len() && (#[trigger] changes[i]).kind == ChangeKind::Equal && (
            changes[i].old_index matches Some(a) && a + 1 == line) && (
            changes[i].new_index matches Some(b) && b < u32::MAX),
        kept_lines(changes).contains_key(line) ==> exists|i: int|
            0 <= i < changes.len() && (#[trigger] changes[i]).kind == ChangeKind::Equal && (
            changes[i].old_index matches Some(a) && a + 1 == line) && (
            changes[i].new_index matches Some(b) && b + 1 == kept_lines(changes)[line]),
    decreases changes.len(),
{
    if changes.len() > 0 {
        let front = changes.drop_last();
        let last = changes.last();
        law_kept_lines_are_equal_ones(front, line);
        assert(changes[changes.len() - 1] == last);
        assert forall|i: int| 0 <= i < front.len() implies #[trigger] changes[i] == front[i] by {}
        if kept_lines(front).contains_key(line) {
            let i = choose|i: int|
                0 <= i < front.len() && (#[trigger] front[i]).kind == ChangeKind::Equal && (
                front[i].old_index matches Some(a) && a + 1 == line) && (
                front[i].new_index matches Some(b) && b < u32::MAX);
            assert(changes[i] == front[i]);
            let k = choose|k: int|
                0 <= k < front.len() && (#[trigger] front[k]).kind == ChangeKind::Equal && (
                front[k].old_index matches Some(a) && a + 1 == line) && (
                front[k].new_index matches Some(b) && b + 1 == kept_lines(front)[line]);
            assert(changes[k] == front[k]);
        }
        if exists|i: int|
            0 <= i < changes.len() && (#[trigger] changes[i]).kind == ChangeKind::Equal && (
            changes[i].old_index matches Some(a) && a + 1 == line) && (
            changes[i].new_index matches Some(b) && b < u32::MAX) {
            let i = choose|i: int|
                0 <= i < changes.len() && (#[trigger] changes[i]).kind == ChangeKind::Equal && (
                changes[i].old_index matches Some(a) && a + 1 == line) && (
                changes[i].new_index matches Some(b) && b < u32::MAX);
            if i < front.len() {
                assert(front[i] == changes[i]);
            }
        }
    }
}

/// A new mutant claims an old one exactly where one that is still free stands for
/// it, one in its own column where there is any; and what it claims is not claimed
/// again.
pub proof fn law_claims_of_old_mutants(
    old: Seq<crate::schema::JsonView>,
    map: Map<u32, u32>,
    mutants: Seq<crate::instrument::MutantView>,
    m: crate::instrument::MutantView,
)
    ensures
        ({
            let free = unclaimed(old, map, mutants);
            let left = unclaimed(old, map, mutants.push(m));
            let c = claim(free, map, m);
            &&& c is Some <==> exists|k: int|
                0 <= k < free.len() && stands_for(#[trigger] free[k], map, m)
            &&& (c matches Some(i) ==> {
                &&& 0 <= i < free.len()
                &&& stands_for(free[i], map, m)
                &&& left == free.remove(i)
                &&& has_own(free, map, m) ==> free[i].location.start.column
                    == m.location.start.column
            })
            &&& c is None ==> left == free
            &&& unclaimed(old, map, Seq::empty()) == old
        }),
{
    let free = unclaimed(old, map, mutants);
    assert(mutants.push(m).drop_last() =~= mutants);
    lemma_first_match(free, map, m, true, 0);
    lemma_first_match(free, map, m, false, 0);
    if let Some(i) = claim(free, map, m) {
        lemma_stands_for(free[i], map, m);
    }
    if exists|k: int| 0 <= k < free.len() && stands_for(#[trigger] free[k], map, m) {
        let k = choose|k: int| 0 <= k < free.len() && stands_for(#[trigger] free[k], map, m);
        lemma_finds_match(free, map, m, false, 0, k);
    }
    if has_own(free, map, m) {
        let k = choose|k: int|
            0 <= k < free.len() && stands_for(#[trigger] free[k], map, m)
                && free[k].location.start.column == m.location.start.column;
        assert(free.contains(free[k]));
        lemma_claims_in_column(free, map, m, free[k]);
    }
}

} // verus!
