//! Clear-text report: per-mutant survivors and a per-directory score table.
use vstd::prelude::*;

use crate::model::MutantStatus;
use crate::report::Metrics;
use crate::schema::FileResult;
use crate::schema::MutantResultJson;
use crate::schema::MutationTestResult;
use crate::source::Source;
use crate::text::concat2;
use crate::text::concat3;
use crate::text::copy_text;
use crate::text::lines;
use crate::text::number;
use crate::text::replace_char;
use crate::text::same;
use crate::text::split_last;
use crate::text::trim;
use crate::text_order::sort_texts;

verus! {

// ---- survivors ----

/// The name of a status.
pub open spec fn status_name(status: MutantStatus) -> Seq<char> {
    match status {
        MutantStatus::Killed => "Killed"@,
        MutantStatus::Survived => "Survived"@,
        MutantStatus::NoCoverage => "NoCoverage"@,
        MutantStatus::CompileError => "CompileError"@,
        MutantStatus::RuntimeError => "RuntimeError"@,
        MutantStatus::Timeout => "Timeout"@,
        MutantStatus::Ignored => "Ignored"@,
        MutantStatus::Pending => "Pending"@,
    }
}

/// The name of a status.
pub fn name_of_status(status: MutantStatus) -> (r: &'static str)
    ensures
        r@ == status_name(status),
{
    match status {
        MutantStatus::Killed => "Killed",
        MutantStatus::Survived => "Survived",
        MutantStatus::NoCoverage => "NoCoverage",
        MutantStatus::CompileError => "CompileError",
        MutantStatus::RuntimeError => "RuntimeError",
        MutantStatus::Timeout => "Timeout",
        MutantStatus::Ignored => "Ignored",
        MutantStatus::Pending => "Pending",
    }
}

/// Whether a mutant is shown on its own.
pub open spec fn is_shown(status: MutantStatus) -> bool {
    status is Survived || status is NoCoverage || status is RuntimeError
}

fn shows(status: MutantStatus) -> (r: bool)
    ensures
        r == is_shown(status),
{
    matches!(
        status,
        MutantStatus::Survived | MutantStatus::NoCoverage | MutantStatus::RuntimeError
    )
}

/// The line of the source that a mutant starts on, without the space around it.
pub open spec fn snippet(source: Seq<char>, line: u32) -> Option<Seq<char>> {
    if source.len() == 0 || line > crate::text::lines_of(source).len() {
        None
    } else {
        Some(crate::text::trimmed(crate::text::lines_of(source)[line - 1]))
    }
}

/// What is shown of a mutant: where it is, the original line, the replacement.
pub open spec fn details(path: Seq<char>, source: Seq<char>, m: crate::schema::JsonView) -> Seq<
    char,
> {
    "["@ + status_name(m.status) + "] "@ + m.mutator_name + " "@ + path + ":"@
        + crate::text::decimal(m.location.start.line as nat) + ":"@ + crate::text::decimal(
        m.location.start.column as nat,
    ) + "\n"@ + (match snippet(source, m.location.start.line) {
        Some(line) => "-   "@ + line + "\n"@,
        None => Seq::empty(),
    }) + (match m.replacement {
        Some(text) => "+   "@ + crate::text::replaced(text, '\n', "\\n"@) + "\n"@,
        None => Seq::empty(),
    })
}

/// What is shown of a list of mutants of a file.
pub open spec fn details_of(
    path: Seq<char>,
    source: Seq<char>,
    mutants: Seq<crate::schema::JsonView>,
) -> Seq<char>
    decreases mutants.len(),
{
    if mutants.len() == 0 {
        Seq::empty()
    } else {
        let front = details_of(path, source, mutants.drop_last());
        if is_shown(mutants.last().status) {
            front + details(path, source, mutants.last())
        } else {
            front
        }
    }
}

/// What is shown of a list of files.
pub open spec fn all_details(paths: Seq<Seq<char>>, files: Seq<FileResult>) -> Seq<char>
    decreases paths.len(),
{
    if paths.len() == 0 {
        Seq::empty()
    } else {
        all_details(paths.drop_last(), files.drop_last()) + details_of(
            paths.last(),
            files.last().source@,
            files.last()@.mutants,
        )
    }
}

/// Whether every mutant of a file that is shown with a line of its source stands
/// on one.
pub open spec fn has_lines(file: FileResult) -> bool {
    forall|i: int|
        0 <= i < file.mutants@.len() && file.source@.len() > 0 && is_shown(
            (#[trigger] file.mutants@[i]).status,
        ) ==> file.mutants@[i].location.start.line >= 1
}

fn original_snippet(source: &str, line: u32) -> (r: Option<String>)
    requires
        source@.len() > 0 ==> line >= 1,
    ensures
        crate::text::opt_text(r) == snippet(source@, line),
{
    if source.is_empty() {
        return None;
    }
    let list = lines(source);
    proof {
        assert(crate::text::texts(list@).len() == list@.len());
    }
    if line as usize > list.len() {
        return None;
    }
    Some(trim(list[line as usize - 1].as_str()))
}

fn show(path: &str, source: &str, m: &MutantResultJson) -> (r: String)
    requires
        source@.len() > 0 ==> m.location.start.line >= 1,
    ensures
        r@ == details(path@, source@, m@),
{
    let mut out = concat3("[", name_of_status(m.status), "] ");
    out.append(m.mutator_name.as_str());
    out.append(" ");
    out.append(path);
    out.append(":");
    out.append(number(m.location.start.line as u64).as_str());
    out.append(":");
    out.append(number(m.location.start.column as u64).as_str());
    out.append("\n");
    let ghost head = out@;
    match original_snippet(source, m.location.start.line) {
        Some(line) => {
            let shown = concat3("-   ", line.as_str(), "\n");
            out.append(shown.as_str());
        },
        None => {
            proof {
                assert(head + Seq::<char>::empty() =~= head);
            }
        },
    }
    let ghost middle = out@;
    match &m.replacement {
        Some(text) => {
            let shown = concat3("+   ", replace_char(text.as_str(), '\n', "\\n").as_str(), "\n");
            out.append(shown.as_str());
        },
        None => {
            proof {
                assert(middle + Seq::<char>::empty() =~= middle);
            }
        },
    }
    out
}

fn show_file(path: &str, file: &FileResult) -> (r: String)
    requires
        has_lines(*file),
    ensures
        r@ == details_of(path@, file.source@, file@.mutants),
{
    let ghost all = file@.mutants;
    let mut out = String::new();
    let mut i: usize = 0;
    proof {
        assert(all.take(0) =~= Seq::<crate::schema::JsonView>::empty());
        assert(out@ =~= Seq::<char>::empty());
    }
    while i < file.mutants.len()
        invariant
            i <= file.mutants@.len(),
            all == file@.mutants,
            has_lines(*file),
            out@ == details_of(path@, file.source@, all.take(i as int)),
        decreases file.mutants@.len() - i,
    {
        let m = &file.mutants[i];
        proof {
            assert(all.take(i + 1).drop_last() =~= all.take(i as int));
            assert(all.take(i + 1).last() == m@);
        }
        if shows(m.status) {
            out.append(show(path, file.source.as_str(), m).as_str());
        }
        i = i + 1;
    }
    proof {
        assert(all.take(file.mutants@.len() as int) =~= all);
    }
    out
}

// ---- directories ----

/// The directory of a path: what stands before its last slash.
pub open spec fn directory_of(path: Seq<char>) -> Seq<char> {
    match crate::text::cut_last(path, "/"@) {
        Some((dir, _)) => dir,
        None => Seq::empty(),
    }
}

fn directory(path: &str) -> (r: String)
    ensures
        r@ == directory_of(path@),
{
    match split_last(path, "/") {
        Some((dir, _)) => dir,
        None => {
            let none = String::new();
            proof {
                assert(none@ =~= Seq::<char>::empty());
            }
            none
        },
    }
}

/// The statuses of the mutants of a file.
pub open spec fn statuses_of(file: FileResult) -> Seq<MutantStatus> {
    file.mutants@.map_values(|m: MutantResultJson| m.status)
}

/// The statuses of the mutants of the files in a directory; of all files where
/// no directory is given.
pub open spec fn statuses_in(
    paths: Seq<Seq<char>>,
    files: Seq<FileResult>,
    dir: Option<Seq<char>>,
) -> Seq<MutantStatus>
    decreases paths.len(),
{
    if paths.len() == 0 {
        Seq::empty()
    } else {
        let front = statuses_in(paths.drop_last(), files.drop_last(), dir);
        if dir is None || dir == Some(directory_of(paths.last())) {
            front + statuses_of(files.last())
        } else {
            front
        }
    }
}

/// The directories of the files that have mutants, in order of the files.
pub open spec fn mutated_directories(paths: Seq<Seq<char>>, files: Seq<FileResult>) -> Seq<
    Seq<char>,
>
    decreases paths.len(),
{
    if paths.len() == 0 {
        Seq::empty()
    } else {
        let front = mutated_directories(paths.drop_last(), files.drop_last());
        if files.last().mutants@.len() > 0 {
            front.push(directory_of(paths.last()))
        } else {
            front
        }
    }
}

/// The directories of the table, sorted.
pub open spec fn directories(report: MutationTestResult) -> Seq<Seq<char>> {
    crate::text_order::sorted_set(
        mutated_directories(report.files.keys(), report.files.values()),
    )
}

/// The number of mutants of a list of files.
pub open spec fn mutant_count(files: Seq<FileResult>) -> nat
    decreases files.len(),
{
    if files.len() == 0 {
        0
    } else {
        mutant_count(files.drop_last()) + files.last().mutants@.len()
    }
}

/// The name of a directory in at most 50 bytes: the end of a longer one.
pub open spec fn shortened(dir: Seq<char>) -> Seq<char> {
    let n = crate::source::byte_len(dir);
    if n <= 50 {
        dir
    } else {
        "…"@ + crate::source::slice(dir, n - 49, n as int)
    }
}

/// Whether the name of a directory can be cut to 50 bytes.
pub open spec fn can_shorten(dir: Seq<char>) -> bool {
    let n = crate::source::byte_len(dir);
    n <= 50 || (n <= u32::MAX && crate::source::is_span(dir, n - 49, n as int))
}

/// Whether a report can be shown: the mutants that are shown with a line stand on
/// one, all can be counted in 32 bits, and no long name of a directory is cut
/// inside a character.
pub open spec fn showable(report: MutationTestResult) -> bool {
    &&& forall|i: int|
        0 <= i < report.files.values().len() ==> has_lines(#[trigger] report.files.values()[i])
    &&& mutant_count(report.files.values()) <= u32::MAX
    &&& forall|i: int|
        0 <= i < directories(report).len() ==> can_shorten(#[trigger] directories(report)[i])
}

fn check_lines(file: &FileResult) -> (r: bool)
    ensures
        r == has_lines(*file),
{
    if file.source.as_str().is_empty() {
        return true;
    }
    let mut i: usize = 0;
    while i < file.mutants.len()
        invariant
            i <= file.mutants@.len(),
            file.source@.len() > 0,
            forall|k: int|
                0 <= k < i && is_shown((#[trigger] file.mutants@[k]).status)
                    ==> file.mutants@[k].location.start.line >= 1,
        decreases file.mutants@.len() - i,
    {
        if shows(file.mutants[i].status) && file.mutants[i].location.start.line < 1 {
            return false;
        }
        i = i + 1;
    }
    true
}

/// A directory in at most 50 bytes, where it can be cut.
fn shorten(dir: &str) -> (r: Option<String>)
    ensures
        match r {
            Some(text) => can_shorten(dir@) && text@ == shortened(dir@),
            None => !can_shorten(dir@),
        },
{
    match Source::new(dir) {
        None => None,
        Some(source) => {
            let n: u32 = source.len();
            if n <= 50 {
                Some(copy_text(dir))
            } else if source.has_span(n - 49, n) {
                Some(concat2("…", source.cut(n - 49, n).as_str()))
            } else {
                None
            }
        },
    }
}

proof fn lemma_count_grows(files: Seq<FileResult>, n: int)
    requires
        0 <= n <= files.len(),
    ensures
        mutant_count(files.take(n)) <= mutant_count(files),
    decreases files.len() - n,
{
    if n == files.len() {
        assert(files.take(n) =~= files);
    } else {
        lemma_count_grows(files, n + 1);
        assert(files.take(n + 1).drop_last() =~= files.take(n));
    }
}

fn list_directories(report: &MutationTestResult) -> (r: Vec<String>)
    ensures
        crate::text::texts(r@) == directories(*report),
{
    let ghost paths = report.files.keys();
    let ghost files = report.files.values();
    let total = report.files.len();
    let mut out: Vec<String> = Vec::new();
    let mut i: usize = 0;
    proof {
        assert(crate::text::texts(out@) =~= mutated_directories(paths.take(0), files.take(0)));
    }
    while i < total
        invariant
            i <= total == paths.len() == files.len(),
            paths == report.files.keys(),
            files == report.files.values(),
            crate::text::texts(out@) == mutated_directories(
                paths.take(i as int),
                files.take(i as int),
            ),
        decreases total - i,
    {
        proof {
            assert(paths.take(i + 1).drop_last() =~= paths.take(i as int));
            assert(files.take(i + 1).drop_last() =~= files.take(i as int));
        }
        if report.files.value_at(i).mutants.len() > 0 {
            let dir = directory(report.files.key_at(i).as_str());
            proof {
                crate::text::lemma_texts_push(out@, dir);
            }
            out.push(dir);
        }
        i = i + 1;
    }
    proof {
        assert(paths.take(total as int) =~= paths);
        assert(files.take(total as int) =~= files);
    }
    sort_texts(&out)
}

/// Whether a report can be shown.
pub fn can_render(report: &MutationTestResult) -> (r: bool)
    ensures
        r == showable(*report),
{
    let ghost files = report.files.values();
    let total = report.files.len();
    let mut count: u32 = 0;
    let mut i: usize = 0;
    proof {
        assert(files.take(0) =~= Seq::<FileResult>::empty());
    }
    while i < total
        invariant
            i <= total == files.len(),
            files == report.files.values(),
            count == mutant_count(files.take(i as int)),
            forall|k: int| 0 <= k < i ==> has_lines(#[trigger] files[k]),
        decreases total - i,
    {
        let file = report.files.value_at(i);
        proof {
            assert(files.take(i + 1).drop_last() =~= files.take(i as int));
            lemma_count_grows(files, i + 1);
        }
        if !check_lines(file) {
            proof {
                assert(!has_lines(files[i as int]));
            }
            return false;
        }
        let more = file.mutants.len();
        if more > (u32::MAX - count) as usize {
            return false;
        }
        count = count + more as u32;
        i = i + 1;
    }
    proof {
        assert(files.take(total as int) =~= files);
    }
    let dirs = list_directories(report);
    let ghost all = directories(*report);
    let mut n: usize = 0;
    while n < dirs.len()
        invariant
            n <= dirs@.len(),
            all == directories(*report),
            all == crate::text::texts(dirs@),
            forall|k: int| 0 <= k < n ==> can_shorten(#[trigger] all[k]),
        decreases dirs@.len() - n,
    {
        proof {
            assert(all[n as int] == dirs@[n as int]@);
        }
        if shorten(dirs[n].as_str()).is_none() {
            proof {
                assert(!can_shorten(all[n as int]));
            }
            return false;
        }
        n = n + 1;
    }
    true
}

proof fn lemma_statuses_bounded(
    paths: Seq<Seq<char>>,
    files: Seq<FileResult>,
    dir: Option<Seq<char>>,
)
    requires
        paths.len() == files.len(),
    ensures
        statuses_in(paths, files, dir).len() <= mutant_count(files),
    decreases paths.len(),
{
    if paths.len() > 0 {
        lemma_statuses_bounded(paths.drop_last(), files.drop_last(), dir);
    }
}

fn collect_statuses(report: &MutationTestResult, dir: Option<&str>) -> (r: Vec<MutantStatus>)
    ensures
        r@ == statuses_in(
            report.files.keys(),
            report.files.values(),
            match dir {
                Some(d) => Some(d@),
                None => None,
            },
        ),
{
    let ghost paths = report.files.keys();
    let ghost files = report.files.values();
    let ghost wanted = match dir {
        Some(d) => Some(d@),
        None => None,
    };
    let total = report.files.len();
    let mut out: Vec<MutantStatus> = Vec::new();
    let mut i: usize = 0;
    while i < total
        invariant
            i <= total == paths.len() == files.len(),
            paths == report.files.keys(),
            files == report.files.values(),
            wanted == (match dir {
                Some(d) => Some(d@),
                None => None,
            }),
            out@ == statuses_in(paths.take(i as int), files.take(i as int), wanted),
        decreases total - i,
    {
        proof {
            assert(paths.take(i + 1).drop_last() =~= paths.take(i as int));
            assert(files.take(i + 1).drop_last() =~= files.take(i as int));
        }
        let counted = match dir {
            Some(d) => same(d, directory(report.files.key_at(i).as_str()).as_str()),
            None => true,
        };
        if counted {
            let file = report.files.value_at(i);
            let ghost begun = out@;
            let ghost own = statuses_of(*file);
            let mut k: usize = 0;
            proof {
                assert(out@ =~= begun + own.take(0));
            }
            while k < file.mutants.len()
                invariant
                    k <= file.mutants@.len(),
                    own == statuses_of(*file),
                    out@ == begun + own.take(k as int),
                decreases file.mutants@.len() - k,
            {
                out.push(file.mutants[k].status);
                proof {
                    assert(own.take(k + 1) =~= own.take(k as int).push(own[k as int]));
                    assert(out@ =~= begun + own.take(k + 1));
                }
                k = k + 1;
            }
            proof {
                assert(own.take(file.mutants@.len() as int) =~= own);
            }
        }
        i = i + 1;
    }
    proof {
        assert(paths.take(total as int) =~= paths);
        assert(files.take(total as int) =~= files);
    }
    out
}

/// The counts of one line of the table.
#[derive(Debug)]
pub struct Row {
    pub directory: String,
    pub metrics: Metrics,
}

/// Whether a row counts the mutants of a directory.
pub open spec fn is_row(row: Row, dir: Seq<char>, report: MutationTestResult) -> bool {
    row.directory@ == dir && row.metrics.counts(
        statuses_in(report.files.keys(), report.files.values(), Some(dir)),
    ) && row.metrics.total() <= u32::MAX
}

/// Whether a list holds a row for every directory of the table, in order.
pub open spec fn are_rows(rows: Seq<Row>, report: MutationTestResult) -> bool {
    &&& rows.len() == directories(report).len()
    &&& forall|i: int|
        0 <= i < rows.len() ==> is_row(#[trigger] rows[i], directories(report)[i], report)
}

/// The rows of the table, from which the scores are worked out.
pub fn table_rows(report: &MutationTestResult) -> (r: Vec<Row>)
    requires
        showable(*report),
    ensures
        are_rows(r@, *report),
{
    let dirs = list_directories(report);
    let ghost all = directories(*report);
    let mut out: Vec<Row> = Vec::new();
    let mut i: usize = 0;
    report.files.facts();
    while i < dirs.len()
        invariant
            i <= dirs@.len(),
            all == directories(*report),
            all == crate::text::texts(dirs@),
            showable(*report),
            report.files.keys().len() == report.files.values().len(),
            out@.len() == i,
            forall|k: int| 0 <= k < i ==> is_row(#[trigger] out@[k], all[k], *report),
        decreases dirs@.len() - i,
    {
        let dir = dirs[i].as_str();
        let statuses = collect_statuses(report, Some(dir));
        proof {
            assert(all[i as int] == dir@);
            lemma_statuses_bounded(
                report.files.keys(),
                report.files.values(),
                Some(dir@),
            );
        }
        let metrics = Metrics::count(&statuses);
        let row = Row { directory: copy_text(dir), metrics };
        proof {
            assert(is_row(row, all[i as int], *report));
        }
        out.push(row);
        i = i + 1;
    }
    out
}

/// The counts of all mutants.
pub fn total_metrics(report: &MutationTestResult) -> (r: Metrics)
    requires
        showable(*report),
    ensures
        r.counts(statuses_in(report.files.keys(), report.files.values(), None)),
        r.total() <= u32::MAX,
{
    report.files.facts();
    let statuses = collect_statuses(report, None);
    proof {
        lemma_statuses_bounded(report.files.keys(), report.files.values(), None);
    }
    Metrics::count(&statuses)
}

// ---- table ----

/// A text repeated.
pub open spec fn repeated(c: char, n: nat) -> Seq<char> {
    Seq::new(n, |i: int| c)
}

/// A text with spaces behind it up to a width.
pub open spec fn left_aligned(s: Seq<char>, width: nat) -> Seq<char> {
    if s.len() >= width {
        s
    } else {
        s + repeated(' ', (width - s.len()) as nat)
    }
}

/// A text with spaces before it up to a width.
pub open spec fn right_aligned(s: Seq<char>, width: nat) -> Seq<char> {
    if s.len() >= width {
        s
    } else {
        repeated(' ', (width - s.len()) as nat) + s
    }
}

fn repeat_char(c: char, n: usize) -> (r: String)
    ensures
        r@ == repeated(c, n as nat),
{
    let mut out = String::new();
    let mut i: usize = 0;
    proof {
        assert(out@ =~= repeated(c, 0));
    }
    while i < n
        invariant
            i <= n,
            out@ == repeated(c, i as nat),
        decreases n - i,
    {
        out.push(c);
        proof {
            assert(out@ =~= repeated(c, (i + 1) as nat));
        }
        i = i + 1;
    }
    out
}

fn pad_right(text: &str, width: usize) -> (r: String)
    ensures
        r@ == left_aligned(text@, width as nat),
{
    let n = crate::text::chars_of(text).len();
    if n >= width {
        copy_text(text)
    } else {
        concat2(text, repeat_char(' ', width - n).as_str())
    }
}

fn pad_left(text: &str, width: usize) -> (r: String)
    ensures
        r@ == right_aligned(text@, width as nat),
{
    let n = crate::text::chars_of(text).len();
    if n >= width {
        copy_text(text)
    } else {
        concat2(repeat_char(' ', width - n).as_str(), text)
    }
}

/// A cell with a number.
pub open spec fn cell(n: nat) -> Seq<char> {
    " "@ + right_aligned(crate::text::decimal(n), 8)
}

fn number_cell(n: u32) -> (r: String)
    ensures
        r@ == cell(n as nat),
{
    concat2(" ", pad_left(number(n as u64).as_str(), 8).as_str())
}

/// A line of the table.
pub open spec fn row_words(name: Seq<char>, score: Seq<char>, m: Metrics) -> Seq<char> {
    left_aligned(name, 50) + " "@ + right_aligned(score, 7) + cell(m.killed as nat) + cell(
        m.timeout as nat,
    ) + cell(m.survived as nat) + cell(m.no_coverage as nat) + cell(
        (m.runtime_errors + m.compile_errors) as nat,
    ) + "\n"@
}

fn show_row(name: &str, score: &str, m: &Metrics) -> (r: String)
    requires
        m.total() <= u32::MAX,
    ensures
        r@ == row_words(name@, score@, *m),
{
    let mut out = concat3(pad_right(name, 50).as_str(), " ", pad_left(score, 7).as_str());
    out.append(number_cell(m.killed).as_str());
    out.append(number_cell(m.timeout).as_str());
    out.append(number_cell(m.survived).as_str());
    out.append(number_cell(m.no_coverage).as_str());
    out.append(number_cell(m.runtime_errors + m.compile_errors).as_str());
    out.append("\n");
    out
}

/// The headings of the table.
pub open spec fn headings() -> Seq<char> {
    left_aligned("File / directory"@, 50) + " "@ + right_aligned("score"@, 8) + " "@
        + right_aligned("killed"@, 8) + " "@ + right_aligned("timeout"@, 8) + " "@ + right_aligned(
        "survived"@,
        8,
    ) + " "@ + right_aligned("no-cov"@, 8) + " "@ + right_aligned("errors"@, 8) + "\n"@
}

fn show_headings() -> (r: String)
    ensures
        r@ == headings(),
{
    let mut out = concat3(
        pad_right("File / directory", 50).as_str(),
        " ",
        pad_left("score", 8).as_str(),
    );
    out.append(" ");
    out.append(pad_left("killed", 8).as_str());
    out.append(" ");
    out.append(pad_left("timeout", 8).as_str());
    out.append(" ");
    out.append(pad_left("survived", 8).as_str());
    out.append(" ");
    out.append(pad_left("no-cov", 8).as_str());
    out.append(" ");
    out.append(pad_left("errors", 8).as_str());
    out.append("\n");
    out
}

/// A line across the table.
pub open spec fn rule() -> Seq<char> {
    repeated('-', 104) + "\n"@
}

/// The lines of the directories of the table.
pub open spec fn row_lines(rows: Seq<Row>, scores: Seq<Seq<char>>) -> Seq<char>
    decreases rows.len(),
{
    if rows.len() == 0 {
        Seq::empty()
    } else {
        row_lines(rows.drop_last(), scores) + row_words(
            shortened(rows.last().directory@),
            scores[rows.len() - 1],
            rows.last().metrics,
        )
    }
}

/// A report in words, given the rows of its table, their scores and the score of
/// all files.
pub open spec fn report_words(
    report: MutationTestResult,
    rows: Seq<Row>,
    scores: Seq<Seq<char>>,
    total: Metrics,
    total_score: Seq<char>,
) -> Seq<char> {
    all_details(report.files.keys(), report.files.values()) + "\n"@ + headings() + rule()
        + row_lines(rows, scores) + rule() + row_words("All files"@, total_score, total)
}

/// A report in words, given the rows of its table, their scores and the score of
/// all files.
pub fn render(
    report: &MutationTestResult,
    rows: &Vec<Row>,
    scores: &Vec<String>,
    total: &Metrics,
    total_score: &str,
) -> (r: String)
    requires
        showable(*report),
        are_rows(rows@, *report),
        scores@.len() == rows@.len(),
        total.counts(statuses_in(report.files.keys(), report.files.values(), None)),
        total.total() <= u32::MAX,
    ensures
        r@ == report_words(*report, rows@, crate::text::texts(scores@), *total, total_score@),
{
    let ghost paths = report.files.keys();
    let ghost files = report.files.values();
    let count = report.files.len();
    let mut out = String::new();
    let mut i: usize = 0;
    proof {
        assert(out@ =~= all_details(paths.take(0), files.take(0)));
    }
    while i < count
        invariant
            i <= count == paths.len() == files.len(),
            paths == report.files.keys(),
            files == report.files.values(),
            showable(*report),
            out@ == all_details(paths.take(i as int), files.take(i as int)),
        decreases count - i,
    {
        proof {
            assert(paths.take(i + 1).drop_last() =~= paths.take(i as int));
            assert(files.take(i + 1).drop_last() =~= files.take(i as int));
            assert(has_lines(files[i as int]));
        }
        out.append(
            show_file(report.files.key_at(i).as_str(), report.files.value_at(i)).as_str(),
        );
        i = i + 1;
    }
    proof {
        assert(paths.take(count as int) =~= paths);
        assert(files.take(count as int) =~= files);
    }
    let line = concat2(repeat_char('-', 104).as_str(), "\n");
    out.append("\n");
    out.append(show_headings().as_str());
    out.append(line.as_str());
    let table = show_rows(report, rows, scores);
    out.append(table.as_str());
    out.append(line.as_str());
    out.append(show_row("All files", total_score, total).as_str());
    out
}

fn show_rows(report: &MutationTestResult, rows: &Vec<Row>, scores: &Vec<String>) -> (r: String)
    requires
        showable(*report),
        are_rows(rows@, *report),
        scores@.len() == rows@.len(),
    ensures
        r@ == row_lines(rows@, crate::text::texts(scores@)),
{
    let ghost words = crate::text::texts(scores@);
    let mut out = String::new();
    let mut i: usize = 0;
    proof {
        assert(rows@.take(0) =~= Seq::<Row>::empty());
        assert(out@ =~= Seq::<char>::empty());
    }
    while i < rows.len()
        invariant
            i <= rows@.len() == scores@.len(),
            words == crate::text::texts(scores@),
            showable(*report),
            are_rows(rows@, *report),
            out@ == row_lines(rows@.take(i as int), words),
        decreases rows@.len() - i,
    {
        let row = &rows[i];
        proof {
            assert(rows@.take(i + 1).drop_last() =~= rows@.take(i as int));
            assert(rows@.take(i + 1).last() == *row);
            assert(is_row(rows@[i as int], directories(*report)[i as int], *report));
            assert(can_shorten(directories(*report)[i as int]));
            assert(words[i as int] == scores@[i as int]@);
        }
        let name = match shorten(row.directory.as_str()) {
            Some(name) => name,
            None => String::new(),
        };
        out.append(show_row(name.as_str(), scores[i].as_str(), &row.metrics).as_str());
        i = i + 1;
    }
    proof {
        assert(rows@.take(rows@.len() as int) =~= rows@);
    }
    out
}

proof fn lemma_shown_in_file(
    path: Seq<char>,
    source: Seq<char>,
    mutants: Seq<crate::schema::JsonView>,
)
    ensures
        details_of(path, source, mutants).len() == 0 <==> forall|i: int|
            0 <= i < mutants.len() ==> !is_shown((#[trigger] mutants[i]).status),
    decreases mutants.len(),
{
    if mutants.len() > 0 {
        let front = mutants.drop_last();
        lemma_shown_in_file(path, source, front);
        reveal_strlit("[");
        assert(details(path, source, mutants.last()).len() > 0);
        assert(mutants[mutants.len() - 1] == mutants.last());
        assert forall|i: int| 0 <= i < front.len() implies front[i] == #[trigger] mutants[i] by {}
        if forall|i: int| 0 <= i < mutants.len() ==> !is_shown((#[trigger] mutants[i]).status) {
            assert forall|i: int| 0 <= i < front.len() implies !is_shown(
                (#[trigger] front[i]).status,
            ) by {
                assert(front[i] == mutants[i]);
            }
        }
        if details_of(path, source, mutants).len() == 0 {
            assert forall|i: int| 0 <= i < mutants.len() implies !is_shown(
                (#[trigger] mutants[i]).status,
            ) by {
                if i < front.len() {
                    assert(front[i] == mutants[i]);
                }
            }
        }
    }
}

/// A file is mentioned above the table exactly where it has a mutant that
/// survived, that no test covers, or that could not be run.
pub proof fn law_survivors_are_shown(
    path: Seq<char>,
    source: Seq<char>,
    mutants: Seq<crate::schema::JsonView>,
)
    ensures
        details_of(path, source, mutants).len() == 0 <==> forall|i: int|
            0 <= i < mutants.len() ==> !is_shown((#[trigger] mutants[i]).status),
{
    lemma_shown_in_file(path, source, mutants);
}

// ---- what the words say ----

/// A mutant is shown where it survived, was not covered or erred at run time, by
/// its status, its mutator and its place.
pub proof fn law_who_is_shown(status: MutantStatus)
    ensures
        is_shown(status) <==> status == MutantStatus::Survived || status
            == MutantStatus::NoCoverage || status == MutantStatus::RuntimeError,
        status == MutantStatus::Survived ==> status_name(status) == "Survived"@,
        status == MutantStatus::NoCoverage ==> status_name(status) == "NoCoverage"@,
        status == MutantStatus::RuntimeError ==> status_name(status) == "RuntimeError"@,
        status == MutantStatus::Killed ==> status_name(status) == "Killed"@,
        status == MutantStatus::Timeout ==> status_name(status) == "Timeout"@,
        status == MutantStatus::CompileError ==> status_name(status) == "CompileError"@,
        status == MutantStatus::Ignored ==> status_name(status) == "Ignored"@,
        status == MutantStatus::Pending ==> status_name(status) == "Pending"@,
{
}

/// The words for a mutant: status, mutator and place, the line it stands on, and
/// what it is replaced by, on one line.
pub proof fn law_words_for_a_mutant(
    path: Seq<char>,
    source: Seq<char>,
    m: crate::schema::JsonView,
    text: Seq<char>,
)
    requires
        m.replacement == Some(text),
        1 <= m.location.start.line <= crate::text::lines_of(source).len(),
        source.len() > 0,
    ensures
        details(path, source, m) == ("["@ + status_name(m.status) + "] "@ + m.mutator_name + " "@
            + path + ":"@ + crate::text::decimal(m.location.start.line as nat) + ":"@
            + crate::text::decimal(m.location.start.column as nat) + "\n"@) + ("-   "@
            + crate::text::trimmed(crate::text::lines_of(source)[m.location.start.line - 1])
            + "\n"@) + ("+   "@ + crate::text::replaced(text, '\n', "\\n"@) + "\n"@),
{
}

proof fn lemma_details_join(
    path: Seq<char>,
    source: Seq<char>,
    a: Seq<crate::schema::JsonView>,
    b: Seq<crate::schema::JsonView>,
)
    ensures
        details_of(path, source, a + b) == details_of(path, source, a) + details_of(
            path,
            source,
            b,
        ),
    decreases b.len(),
{
    if b.len() == 0 {
        assert(a + b =~= a);
        assert(details_of(path, source, a) + details_of(path, source, b) =~= details_of(
            path,
            source,
            a,
        ));
    } else {
        lemma_details_join(path, source, a, b.drop_last());
        assert((a + b).drop_last() =~= a + b.drop_last());
        assert((a + b).last() == b.last());
        assert(details_of(path, source, a + b) =~= details_of(path, source, a) + details_of(
            path,
            source,
            b,
        ));
    }
}

/// The mutants of a file are shown one behind the other, each for itself.
pub proof fn law_mutants_are_shown_in_order(
    path: Seq<char>,
    source: Seq<char>,
    a: Seq<crate::schema::JsonView>,
    m: crate::schema::JsonView,
    b: Seq<crate::schema::JsonView>,
)
    ensures
        details_of(path, source, a + seq![m] + b) == details_of(path, source, a) + (if m.status
            == MutantStatus::Survived || m.status == MutantStatus::NoCoverage || m.status
            == MutantStatus::RuntimeError {
            details(path, source, m)
        } else {
            Seq::empty()
        }) + details_of(path, source, b),
{
    lemma_details_join(path, source, a + seq![m], b);
    lemma_details_join(path, source, a, seq![m]);
    let one = seq![m];
    assert(one.drop_last() =~= Seq::<crate::schema::JsonView>::empty());
    assert(one.last() == m);
    assert(details_of(path, source, one.drop_last()) =~= Seq::<char>::empty());
    assert(details_of(path, source, one) =~= (if is_shown(m.status) {
        details(path, source, m)
    } else {
        Seq::empty()
    }));
}

/// A column is as wide as it is asked to be, with the text on its side of it.
pub proof fn law_columns(s: Seq<char>, width: nat)
    requires
        s.len() <= width,
    ensures
        left_aligned(s, width).len() == width,
        left_aligned(s, width).take(s.len() as int) == s,
        forall|i: int| s.len() <= i < width ==> #[trigger] left_aligned(s, width)[i] == ' ',
        right_aligned(s, width).len() == width,
        right_aligned(s, width).skip(width - s.len()) == s,
        forall|i: int| 0 <= i < width - s.len() ==> #[trigger] right_aligned(s, width)[i] == ' ',
{
    assert(left_aligned(s, width).take(s.len() as int) =~= s);
    assert(right_aligned(s, width).skip(width - s.len()) =~= s);
}

/// A row has a name, a score, and then how many mutants were killed, timed out,
/// survived, were not covered, and erred.
pub proof fn law_rows(name: Seq<char>, score: Seq<char>, m: Metrics)
    ensures
        row_words(name, score, m) == left_aligned(name, 50) + " "@ + right_aligned(score, 7) + (" "@
            + right_aligned(crate::text::decimal(m.killed as nat), 8)) + (" "@ + right_aligned(
            crate::text::decimal(m.timeout as nat),
            8,
        )) + (" "@ + right_aligned(crate::text::decimal(m.survived as nat), 8)) + (" "@
            + right_aligned(crate::text::decimal(m.no_coverage as nat), 8)) + (" "@
            + right_aligned(
            crate::text::decimal((m.runtime_errors + m.compile_errors) as nat),
            8,
        )) + "\n"@,
{
}

/// A directory has a row where a file in it has mutants.
pub proof fn law_directories_with_rows(
    paths: Seq<Seq<char>>,
    files: Seq<FileResult>,
    dir: Seq<char>,
)
    requires
        paths.len() == files.len(),
    ensures
        mutated_directories(paths, files).contains(dir) <==> exists|i: int|
            0 <= i < paths.len() && directory_of(#[trigger] paths[i]) == dir
                && files[i].mutants@.len() > 0,
    decreases paths.len(),
{
    if paths.len() > 0 {
        let before = paths.drop_last();
        let front = mutated_directories(before, files.drop_last());
        let all = mutated_directories(paths, files);
        law_directories_with_rows(before, files.drop_last(), dir);
        assert(paths[paths.len() - 1] == paths.last());
        if front.contains(dir) {
            let k = front.index_of(dir);
            assert(all[k] == dir);
            let i = choose|i: int|
                0 <= i < before.len() && directory_of(#[trigger] before[i]) == dir
                    && files.drop_last()[i].mutants@.len() > 0;
            assert(paths[i] == before[i]);
        }
        if all.contains(dir) && !front.contains(dir) {
            let k = all.index_of(dir);
            if k < front.len() {
                assert(front[k] == dir);
            }
        }
        if exists|i: int|
            0 <= i < paths.len() && directory_of(#[trigger] paths[i]) == dir
                && files[i].mutants@.len() > 0 {
            let i = choose|i: int|
                0 <= i < paths.len() && directory_of(#[trigger] paths[i]) == dir
                    && files[i].mutants@.len() > 0;
            if i < before.len() {
                assert(before[i] == paths[i]);
                assert(files.drop_last()[i] == files[i]);
            } else {
                assert(all[all.len() - 1] == dir);
            }
        }
    }
}

/// The directory of a path is what stands before its last slash.
pub proof fn law_directory_of_a_path(dir: Seq<char>, name: Seq<char>)
    requires
        !name.contains('/'),
    ensures
        directory_of(dir + "/"@ + name) == dir,
        directory_of(name).len() == 0,
{
    reveal_strlit("/");
    let slash = "/"@;
    assert(slash.len() == 1 && slash[0] == '/');
    let path = dir + slash + name;
    let at = dir.len() as int;
    assert(path.subrange(at, at + 1) =~= slash);
    assert(crate::text::occurs_at(path, slash, at));
    crate::text::lemma_rfind_to(path, slash, path.len() - 1);
    let p = crate::text::rfind(path, slash)->0;
    assert(path.subrange(p, p + 1)[0] == '/');
    if p > at {
        assert(name[p - at - 1] == '/');
        assert(name.contains('/'));
    }
    assert(path.take(at) =~= dir);
    crate::text::lemma_rfind_to(name, slash, name.len() - 1);
    if let Some(q) = crate::text::rfind(name, slash) {
        assert(name.subrange(q, q + 1)[0] == '/');
        assert(name[q] == '/');
    }
}

/// The statuses of a directory are those of its own files, one file behind the
/// other, and those of all files where no directory is named.
pub proof fn law_statuses_by_directory(
    paths: Seq<Seq<char>>,
    files: Seq<FileResult>,
    path: Seq<char>,
    file: FileResult,
    dir: Seq<char>,
)
    requires
        paths.len() == files.len(),
    ensures
        directory_of(path) == dir ==> statuses_in(paths.push(path), files.push(file), Some(dir))
            == statuses_in(paths, files, Some(dir)) + file.mutants@.map_values(
            |m: MutantResultJson| m.status,
        ),
        directory_of(path) != dir ==> statuses_in(paths.push(path), files.push(file), Some(dir))
            == statuses_in(paths, files, Some(dir)),
        statuses_in(paths.push(path), files.push(file), None) == statuses_in(paths, files, None)
            + file.mutants@.map_values(|m: MutantResultJson| m.status),
        statuses_in(Seq::empty(), Seq::empty(), None).len() == 0,
{
    assert(paths.push(path).drop_last() =~= paths);
    assert(files.push(file).drop_last() =~= files);
}

/// A long directory is shown by its end, behind dots.
pub proof fn law_long_directories_are_shortened(dir: Seq<char>)
    ensures
        ({
            let n = crate::source::byte_len(dir);
            &&& n <= 50 ==> shortened(dir) == dir
            &&& n > 50 ==> shortened(dir) == "…"@ + crate::source::slice(dir, n - 49, n as int)
        }),
{
}

/// The words of a report are the mutants that are shown, then a table: headings, a
/// row for each directory, and one for all files.
pub proof fn law_words_of_a_report(
    report: MutationTestResult,
    rows: Seq<Row>,
    scores: Seq<Seq<char>>,
    total: Metrics,
    total_score: Seq<char>,
)
    ensures
        report_words(report, rows, scores, total, total_score) == all_details(
            report.files.keys(),
            report.files.values(),
        ) + "\n"@ + headings() + rule() + row_lines(rows, scores) + rule() + row_words(
            "All files"@,
            total_score,
            total,
        ),
        rows.len() > 0 ==> row_lines(rows, scores) == row_lines(rows.drop_last(), scores)
            + row_words(
            shortened(rows[rows.len() - 1].directory@),
            scores[rows.len() - 1],
            rows[rows.len() - 1].metrics,
        ),
        rows.len() == 0 ==> row_lines(rows, scores).len() == 0,
        rule().len() == 105,
        forall|i: int| 0 <= i < 104 ==> #[trigger] rule()[i] == '-',
{
    reveal_strlit("\n");
    assert("\n"@.len() == 1);
}

} // verus!
