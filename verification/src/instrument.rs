//! Instruments one file: parse, collect sites, number mutants, assemble text.
use vstd::prelude::*;

use crate::assemble::build_instrumented;
use crate::assemble::ordered;
use crate::assemble::Arm;
use crate::assemble::PlacedSite;
use crate::collect::Candidate;
use crate::collect::Collector;
use crate::collect::Site;
use crate::directives::CommentLine;
use crate::directives::DirectiveIndex;
use crate::estree::parse_file;
use crate::estree::read_program;
use crate::estree::Span;
use crate::header::header;
use crate::line_index::LineIndex;
use crate::model::Location;
use crate::model::Mutant;
use crate::model::MutantId;
use crate::mutate_pattern::MutationRange;
use crate::sort::sort_by_rank;
use crate::sort::Ranked;
use crate::source::Source;
use crate::text::chars_of;
use crate::text::copy_text;

verus! {

/// How a file is instrumented.
#[derive(Debug)]
pub struct InstrumentOptions {
    pub excluded_mutators: Vec<String>,
    /// Restrict mutants to these line ranges (empty = whole file).
    pub ranges: Vec<MutationRange>,
    pub disable_type_checks: bool,
    /// Global namespace property, default `__stryker__`.
    pub namespace: Option<String>,
}

impl Default for InstrumentOptions {
    fn default() -> (r: InstrumentOptions)
        ensures
            r.excluded_mutators@.len() == 0,
            r.ranges@.len() == 0,
            !r.disable_type_checks,
            r.namespace is None,
    {
        InstrumentOptions {
            excluded_mutators: Vec::new(),
            ranges: Vec::new(),
            disable_type_checks: false,
            namespace: None,
        }
    }
}

/// The mathematical value of the options.
pub struct OptionsView {
    pub excluded_mutators: Seq<Seq<char>>,
    pub ranges: Seq<MutationRange>,
    pub disable_type_checks: bool,
    pub namespace: Option<Seq<char>>,
}

impl InstrumentOptions {
    pub open spec fn view(&self) -> OptionsView {
        OptionsView {
            excluded_mutators: crate::text::texts(self.excluded_mutators@),
            ranges: self.ranges@,
            disable_type_checks: self.disable_type_checks,
            namespace: crate::text::opt_text(self.namespace),
        }
    }
}

/// An instrumented file.
#[derive(Debug)]
pub struct InstrumentedFile {
    pub mutants: Vec<Mutant>,
    /// None when the file has no placed mutants (leave it untouched).
    pub instrumented: Option<String>,
}

/// Why a file was not instrumented.
#[derive(Debug)]
pub enum InstrumentError {
    UnsupportedFileType(String),
    Parse { path: String, message: String },
    /// Offsets or mutant ids do not fit their 32 bits.
    Oversized { path: String },
    /// The syntax tree has spans that do not nest in the source.
    InconsistentSpans { path: String },
}

/// The mathematical value of a mutant.
pub struct MutantView {
    pub id: u32,
    pub file: Seq<char>,
    pub span: (u32, u32),
    pub location: Location,
    pub mutator_name: Seq<char>,
    pub replacement: Seq<char>,
    pub original: Seq<char>,
    pub ignored: Option<Seq<char>>,
}

impl Mutant {
    pub open spec fn view(&self) -> MutantView {
        MutantView {
            id: self.id.0,
            file: self.file@,
            span: self.span,
            location: self.location,
            mutator_name: self.mutator_name@,
            replacement: self.replacement@,
            original: self.original@,
            ignored: crate::text::opt_text(self.ignored),
        }
    }
}

/// The values of a list of mutants.
pub open spec fn mutant_views(v: Seq<Mutant>) -> Seq<MutantView> {
    v.map_values(|m: Mutant| m@)
}

/// The mathematical value of an instrumented file.
pub struct InstrumentedView {
    pub mutants: Seq<MutantView>,
    pub instrumented: Option<Seq<char>>,
}

impl InstrumentedFile {
    pub open spec fn view(&self) -> InstrumentedView {
        InstrumentedView {
            mutants: mutant_views(self.mutants@),
            instrumented: crate::text::opt_text(self.instrumented),
        }
    }
}

/// The mathematical value of an error.
pub enum ErrorView {
    UnsupportedFileType(Seq<char>),
    Parse { path: Seq<char>, message: Seq<char> },
    Oversized { path: Seq<char> },
    InconsistentSpans { path: Seq<char> },
}

impl InstrumentError {
    pub open spec fn view(&self) -> ErrorView {
        match self {
            InstrumentError::UnsupportedFileType(path) => ErrorView::UnsupportedFileType(path@),
            InstrumentError::Parse { path, message } => ErrorView::Parse {
                path: path@,
                message: message@,
            },
            InstrumentError::Oversized { path } => ErrorView::Oversized { path: path@ },
            InstrumentError::InconsistentSpans { path } => ErrorView::InconsistentSpans {
                path: path@,
            },
        }
    }

    /// The error in words.
    pub open spec fn words(self) -> Seq<char> {
        match self {
            InstrumentError::UnsupportedFileType(path) => "unsupported file type: "@ + path@,
            InstrumentError::Parse { path, message } => "parse error in "@ + path@ + ": "@
                + message@,
            InstrumentError::Oversized { path } => "too large to instrument: "@ + path@,
            InstrumentError::InconsistentSpans { path } => "inconsistent spans in "@ + path@,
        }
    }

    /// The error in words.
    pub fn message(&self) -> (r: String)
        ensures
            r@ == self.words(),
    {
        match self {
            InstrumentError::UnsupportedFileType(path) => crate::text::concat2(
                "unsupported file type: ",
                path.as_str(),
            ),
            InstrumentError::Parse { path, message } => {
                let mut out = crate::text::concat3("parse error in ", path.as_str(), ": ");
                out.append(message.as_str());
                out
            },
            InstrumentError::Oversized { path } => crate::text::concat2(
                "too large to instrument: ",
                path.as_str(),
            ),
            InstrumentError::InconsistentSpans { path } => crate::text::concat2(
                "inconsistent spans in ",
                path.as_str(),
            ),
        }
    }
}

// ---- display of replacements ----

/// `text` with every line feed and the white space behind it made one blank;
/// `run` tells that such a run has just begun.
pub open spec fn runs_collapsed(text: Seq<char>, run: bool) -> Seq<char>
    decreases text.len(),
{
    if text.len() == 0 {
        text
    } else if text[0] == '\n' || (run && crate::text::is_white_space(text[0])) {
        runs_collapsed(text.skip(1), true)
    } else if run {
        seq![' ', text[0]] + runs_collapsed(text.skip(1), false)
    } else {
        seq![text[0]] + runs_collapsed(text.skip(1), false)
    }
}

/// `text` on one line: newline+indent runs become a single blank.
pub open spec fn collapsed(text: Seq<char>) -> Seq<char> {
    runs_collapsed(text, false)
}

/// Collapses newline+indent runs to a single blank (display normalization for
/// multi-line replacement text).
pub fn collapse_whitespace(text: &str) -> (r: String)
    ensures
        r@ == collapsed(text@),
{
    let chars = chars_of(text);
    let total = chars.len();
    let mut out = String::new();
    let mut run = false;
    let mut i: usize = 0;
    proof {
        assert(chars@.skip(0) =~= chars@);
        assert(out@ + collapsed(chars@) =~= collapsed(chars@));
    }
    while i < total
        invariant
            i <= total == chars@.len(),
            out@ + runs_collapsed(chars@.skip(i as int), run) == collapsed(chars@),
        decreases total - i,
    {
        let c = chars[i];
        let ghost rest = chars@.skip(i as int);
        let ghost before = out@;
        proof {
            assert(rest.skip(1) =~= chars@.skip(i + 1));
        }
        if c == '\n' || (run && c.is_whitespace()) {
            run = true;
        } else if run {
            out.push(' ');
            out.push(c);
            proof {
                assert(out@ + runs_collapsed(rest.skip(1), false) =~= before + runs_collapsed(
                    rest,
                    true,
                ));
            }
            run = false;
        } else {
            out.push(c);
            proof {
                assert(out@ + runs_collapsed(rest.skip(1), false) =~= before + runs_collapsed(
                    rest,
                    false,
                ));
            }
        }
        i = i + 1;
    }
    proof {
        assert(out@ + runs_collapsed(chars@.skip(total as int), run) =~= out@);
    }
    out
}

/// A displayed replacement is one line, and one that was one line is unchanged.
pub proof fn law_collapsed_is_one_line(text: Seq<char>)
    ensures
        !collapsed(text).contains('\n'),
        !text.contains('\n') ==> collapsed(text) == text,
{
    lemma_runs(text, false);
    if !text.contains('\n') {
        lemma_no_runs(text);
    }
}

proof fn lemma_runs(text: Seq<char>, run: bool)
    ensures
        !runs_collapsed(text, run).contains('\n'),
    decreases text.len(),
{
    if text.len() > 0 {
        lemma_runs(text.skip(1), true);
        lemma_runs(text.skip(1), false);
        let r = runs_collapsed(text, run);
        let rest = runs_collapsed(text.skip(1), false);
        assert forall|i: int| 0 <= i < r.len() implies r[i] != '\n' by {
            if text[0] == '\n' || (run && crate::text::is_white_space(text[0])) {
            } else if run {
                if i >= 2 {
                    assert(r[i] == rest[i - 2]);
                }
            } else {
                if i >= 1 {
                    assert(r[i] == rest[i - 1]);
                }
            }
        }
    }
}

proof fn lemma_no_runs(text: Seq<char>)
    requires
        !text.contains('\n'),
    ensures
        runs_collapsed(text, false) == text,
    decreases text.len(),
{
    if text.len() > 0 {
        assert(text[0] != '\n');
        assert forall|i: int| 0 <= i < text.skip(1).len() implies text.skip(1)[i] != '\n' by {
            assert(text.skip(1)[i] == text[i + 1]);
        }
        lemma_no_runs(text.skip(1));
        assert(seq![text[0]] + text.skip(1) =~= text);
    }
}

// ---- numbering ----

/// The rank of a site: by where it begins, then by where it ends.
pub open spec fn left_to_right(span: Span) -> int {
    span.start * 0x1_0000_0000 + span.end
}

/// The rank of a site.
pub open spec fn by_place() -> spec_fn(crate::collect::SiteView) -> int {
    |s: crate::collect::SiteView| left_to_right(s.placement.at())
}

impl Ranked for Site {
    open spec fn rank(self) -> int {
        left_to_right(self.placement.at())
    }

    fn rank_value(&self) -> u64 {
        let span = self.placement.span();
        span.start as u64 * 0x1_0000_0000 + span.end as u64
    }
}

/// Whether a mutant lies in the requested ranges: it starts on a line of one of
/// them, or there are none.
pub open spec fn requested(s: Seq<char>, ranges: Seq<MutationRange>, offset: u32) -> bool {
    ranges.len() == 0 || exists|i: int|
        0 <= i < ranges.len() && (#[trigger] ranges[i]).has_line(
            crate::line_index::position_of(s, offset as int).line,
        )
}

/// The mutant of a candidate under an id.
pub open spec fn mutant_of(
    s: Seq<char>,
    file: Seq<char>,
    c: crate::collect::CandidateView,
    id: int,
) -> MutantView {
    MutantView {
        id: id as u32,
        file,
        span: (c.sub_span.start, c.sub_span.end),
        location: Location {
            start: crate::line_index::position_of(s, c.sub_span.start as int),
            end: crate::line_index::position_of(s, c.sub_span.end as int),
        },
        mutator_name: c.mutator,
        replacement: collapsed(c.replacement),
        original: crate::collect::text_at(s, c.sub_span),
        ignored: c.ignored,
    }
}

/// The mutants of a list of candidates, numbered from `next` on; those outside
/// the ranges are not generated at all.
pub open spec fn mutants_in(
    s: Seq<char>,
    file: Seq<char>,
    ranges: Seq<MutationRange>,
    candidates: Seq<crate::collect::CandidateView>,
    next: int,
) -> Seq<MutantView>
    decreases candidates.len(),
{
    if candidates.len() == 0 {
        Seq::empty()
    } else {
        let front = mutants_in(s, file, ranges, candidates.drop_last(), next);
        let c = candidates.last();
        if requested(s, ranges, c.sub_span.start) {
            front.push(mutant_of(s, file, c, next + front.len()))
        } else {
            front
        }
    }
}

/// The arms of a list of candidates: those that are generated and not ignored.
pub open spec fn arms_in(
    s: Seq<char>,
    file: Seq<char>,
    ranges: Seq<MutationRange>,
    candidates: Seq<crate::collect::CandidateView>,
    next: int,
) -> Seq<crate::assemble::ArmView>
    decreases candidates.len(),
{
    if candidates.len() == 0 {
        Seq::empty()
    } else {
        let front = arms_in(s, file, ranges, candidates.drop_last(), next);
        let c = candidates.last();
        let id = next + mutants_in(s, file, ranges, candidates.drop_last(), next).len();
        if requested(s, ranges, c.sub_span.start) && c.ignored is None {
            front.push(
                crate::assemble::ArmView {
                    id: id as u32,
                    sub_span: c.sub_span,
                    replacement: c.replacement,
                },
            )
        } else {
            front
        }
    }
}

/// The mutants of a list of sites, numbered in order from `next` on, and the
/// sites of those that are placed.
pub open spec fn numbered(
    s: Seq<char>,
    file: Seq<char>,
    ranges: Seq<MutationRange>,
    sites: Seq<crate::collect::SiteView>,
    next: int,
) -> (Seq<MutantView>, Seq<crate::assemble::PlacedView>)
    decreases sites.len(),
{
    if sites.len() == 0 {
        (Seq::empty(), Seq::empty())
    } else {
        let (mutants, placed) = numbered(s, file, ranges, sites.drop_last(), next);
        let site = sites.last();
        let from = next + mutants.len();
        let arms = arms_in(s, file, ranges, site.candidates, from);
        (
            mutants + mutants_in(s, file, ranges, site.candidates, from),
            if arms.len() == 0 {
                placed
            } else {
                placed.push(crate::assemble::PlacedView { placement: site.placement, arms })
            },
        )
    }
}

/// Whether the spans of all candidates are spans of the source.
pub open spec fn spans_fit(s: Seq<char>, sites: Seq<crate::collect::SiteView>) -> bool {
    forall|i: int, k: int|
        0 <= i < sites.len() && 0 <= k < sites[i].candidates.len() ==> crate::source::is_span(
            s,
            (#[trigger] sites[i].candidates[k]).sub_span.start as int,
            sites[i].candidates[k].sub_span.end as int,
        )
}

fn check_spans(source: &Source, sites: &Vec<Site>) -> (r: bool)
    ensures
        r == spans_fit(source.text(), crate::collect::site_views(sites@)),
{
    let ghost s = source.text();
    let ghost views = crate::collect::site_views(sites@);
    let mut i: usize = 0;
    while i < sites.len()
        invariant
            i <= sites@.len(),
            s == source.text(),
            views == crate::collect::site_views(sites@),
            forall|a: int, k: int|
                0 <= a < i && 0 <= k < views[a].candidates.len() ==> crate::source::is_span(
                    s,
                    (#[trigger] views[a].candidates[k]).sub_span.start as int,
                    views[a].candidates[k].sub_span.end as int,
                ),
        decreases sites@.len() - i,
    {
        let list = &sites[i].candidates;
        let ghost cs = views[i as int].candidates;
        proof {
            assert(cs == crate::collect::candidate_views(list@));
        }
        let mut k: usize = 0;
        while k < list.len()
            invariant
                i < sites@.len(),
                k <= list@.len(),
                s == source.text(),
                cs == views[i as int].candidates,
                views.len() == sites@.len(),
                cs == crate::collect::candidate_views(list@),
                views == crate::collect::site_views(sites@),
                forall|j: int|
                    0 <= j < k ==> crate::source::is_span(
                        s,
                        (#[trigger] cs[j]).sub_span.start as int,
                        cs[j].sub_span.end as int,
                    ),
            decreases list@.len() - k,
        {
            let span = list[k].sub_span;
            proof {
                assert(cs[k as int] == list@[k as int]@);
            }
            if !source.has_span(span.start, span.end) {
                proof {
                    assert(!crate::source::is_span(
                        s,
                        views[i as int].candidates[k as int].sub_span.start as int,
                        views[i as int].candidates[k as int].sub_span.end as int,
                    ));
                }
                return false;
            }
            k = k + 1;
        }
        i = i + 1;
    }
    true
}

fn in_ranges(ranges: &Vec<MutationRange>, line: u32) -> (r: bool)
    ensures
        r == (ranges@.len() == 0 || exists|i: int|
            0 <= i < ranges@.len() && (#[trigger] ranges@[i]).has_line(line)),
{
    let mut i: usize = 0;
    while i < ranges.len()
        invariant
            i <= ranges@.len(),
            forall|k: int| 0 <= k < i ==> !(#[trigger] ranges@[k]).has_line(line),
        decreases ranges@.len() - i,
    {
        if ranges[i].contains_line(line) {
            return true;
        }
        i = i + 1;
    }
    ranges.len() == 0
}

/// Numbers the candidates of one site; nothing where the ids run out.
fn number_candidates(
    source: &Source,
    lines: &LineIndex,
    file: &str,
    ranges: &Vec<MutationRange>,
    candidates: &Vec<Candidate>,
    next: u32,
    mutants: &mut Vec<Mutant>,
) -> (r: Option<Vec<Arm>>)
    requires
        lines.of(source.text()),
        crate::source::byte_len(source.text()) < u32::MAX,
        forall|k: int|
            0 <= k < candidates@.len() ==> crate::source::is_span(
                source.text(),
                (#[trigger] candidates@[k])@.sub_span.start as int,
                candidates@[k]@.sub_span.end as int,
            ),
    ensures
        ({
            let new = mutants_in(
                source.text(),
                file@,
                ranges@,
                crate::collect::candidate_views(candidates@),
                next as int,
            );
            match r {
                Some(arms) => {
                    &&& next + new.len() <= u32::MAX
                    &&& mutant_views(final(mutants)@) == mutant_views(old(mutants)@) + new
                    &&& crate::assemble::arm_views(arms@) == arms_in(
                        source.text(),
                        file@,
                        ranges@,
                        crate::collect::candidate_views(candidates@),
                        next as int,
                    )
                },
                None => next + new.len() > u32::MAX,
            }
        }),
{
    let ghost s = source.text();
    let ghost cs = crate::collect::candidate_views(candidates@);
    let ghost begun = mutant_views(mutants@);
    let mut arms: Vec<Arm> = Vec::new();
    let mut id: u32 = next;
    let mut i: usize = 0;
    proof {
        assert(mutant_views(mutants@) =~= begun + mutants_in(
            s,
            file@,
            ranges@,
            cs.take(0),
            next as int,
        ));
        assert(crate::assemble::arm_views(arms@) =~= arms_in(
            s,
            file@,
            ranges@,
            cs.take(0),
            next as int,
        ));
    }
    while i < candidates.len()
        invariant
            i <= candidates@.len(),
            s == source.text(),
            lines.of(s),
            crate::source::byte_len(s) < u32::MAX,
            cs == crate::collect::candidate_views(candidates@),
            forall|k: int|
                0 <= k < candidates@.len() ==> crate::source::is_span(
                    s,
                    (#[trigger] candidates@[k])@.sub_span.start as int,
                    candidates@[k]@.sub_span.end as int,
                ),
            id == next + mutants_in(s, file@, ranges@, cs.take(i as int), next as int).len(),
            mutant_views(mutants@) == begun + mutants_in(
                s,
                file@,
                ranges@,
                cs.take(i as int),
                next as int,
            ),
            crate::assemble::arm_views(arms@) == arms_in(
                s,
                file@,
                ranges@,
                cs.take(i as int),
                next as int,
            ),
        decreases candidates@.len() - i,
    {
        let c = &candidates[i];
        proof {
            assert(cs.take(i + 1).drop_last() =~= cs.take(i as int));
            assert(cs.take(i + 1).last() == c@);
            lemma_clamped(s, c.sub_span.start as int);
            lemma_clamped(s, c.sub_span.end as int);
        }
        let start = lines.locate(source, c.sub_span.start);
        if in_ranges(ranges, start.line) {
            let end = lines.locate(source, c.sub_span.end);
            if id == u32::MAX {
                proof {
                    lemma_mutants_grow(s, file@, ranges@, cs, next as int, i + 1);
                }
                return None;
            }
            if c.ignored.is_none() {
                let ghost before = arms@;
                let arm = Arm {
                    id,
                    sub_span: c.sub_span,
                    replacement: copy_text(c.replacement.as_str()),
                };
                arms.push(arm);
                proof {
                    assert(crate::assemble::arm_views(arms@) =~= crate::assemble::arm_views(
                        before,
                    ).push(arm@));
                }
            }
            let mutant = Mutant {
                id: MutantId(id),
                file: copy_text(file),
                span: (c.sub_span.start, c.sub_span.end),
                location: Location { start, end },
                mutator_name: c.mutator,
                replacement: collapse_whitespace(c.replacement.as_str()),
                original: crate::collect::read_at(source, c.sub_span),
                ignored: crate::text::copy_opt(&c.ignored),
            };
            let ghost before = mutants@;
            mutants.push(mutant);
            proof {
                assert(mutant_views(mutants@) =~= mutant_views(before).push(mutant@));
                assert(mutant_views(mutants@) =~= begun + mutants_in(
                    s,
                    file@,
                    ranges@,
                    cs.take(i + 1),
                    next as int,
                ));
            }
            id = id + 1;
        }
        i = i + 1;
    }
    proof {
        assert(cs.take(candidates@.len() as int) =~= cs);
    }
    Some(arms)
}

proof fn lemma_clamped(s: Seq<char>, offset: int)
    requires
        crate::source::is_boundary(s, offset),
    ensures
        crate::line_index::clamped(s, offset) == offset,
{
    crate::source::lemma_boundary_order(s, offset, offset);
}

proof fn lemma_mutants_grow(
    s: Seq<char>,
    file: Seq<char>,
    ranges: Seq<MutationRange>,
    cs: Seq<crate::collect::CandidateView>,
    next: int,
    i: int,
)
    requires
        0 <= i <= cs.len(),
    ensures
        mutants_in(s, file, ranges, cs.take(i), next).len() <= mutants_in(
            s,
            file,
            ranges,
            cs,
            next,
        ).len(),
    decreases cs.len() - i,
{
    if i == cs.len() {
        assert(cs.take(i) =~= cs);
    } else {
        lemma_mutants_grow(s, file, ranges, cs, next, i + 1);
        assert(cs.take(i + 1).drop_last() =~= cs.take(i));
    }
}

proof fn lemma_numbered_grows(
    s: Seq<char>,
    file: Seq<char>,
    ranges: Seq<MutationRange>,
    sites: Seq<crate::collect::SiteView>,
    next: int,
    i: int,
)
    requires
        0 <= i <= sites.len(),
    ensures
        numbered(s, file, ranges, sites.take(i), next).0.len() <= numbered(
            s,
            file,
            ranges,
            sites,
            next,
        ).0.len(),
    decreases sites.len() - i,
{
    if i == sites.len() {
        assert(sites.take(i) =~= sites);
    } else {
        lemma_numbered_grows(s, file, ranges, sites, next, i + 1);
        assert(sites.take(i + 1).drop_last() =~= sites.take(i));
    }
}

/// Numbers the candidates of sites in order; nothing where the ids run out.
fn number_sites(
    source: &Source,
    lines: &LineIndex,
    file: &str,
    ranges: &Vec<MutationRange>,
    sites: &Vec<Site>,
    id_start: u32,
) -> (r: Option<(Vec<Mutant>, Vec<PlacedSite>)>)
    requires
        lines.of(source.text()),
        crate::source::byte_len(source.text()) < u32::MAX,
        spans_fit(source.text(), crate::collect::site_views(sites@)),
    ensures
        ({
            let all = numbered(
                source.text(),
                file@,
                ranges@,
                crate::collect::site_views(sites@),
                id_start as int,
            );
            match r {
                Some((mutants, placed)) => {
                    &&& id_start + all.0.len() <= u32::MAX
                    &&& mutant_views(mutants@) == all.0
                    &&& crate::assemble::placed_views(placed@) == all.1
                },
                None => id_start + all.0.len() > u32::MAX,
            }
        }),
{
    let ghost s = source.text();
    let ghost views = crate::collect::site_views(sites@);
    let mut mutants: Vec<Mutant> = Vec::new();
    let mut placed: Vec<PlacedSite> = Vec::new();
    let mut i: usize = 0;
    proof {
        assert(mutant_views(mutants@) =~= Seq::<MutantView>::empty());
        assert(crate::assemble::placed_views(placed@)
            =~= Seq::<crate::assemble::PlacedView>::empty());
    }
    while i < sites.len()
        invariant
            i <= sites@.len(),
            s == source.text(),
            lines.of(s),
            crate::source::byte_len(s) < u32::MAX,
            views == crate::collect::site_views(sites@),
            spans_fit(s, views),
            id_start + mutants@.len() <= u32::MAX,
            mutant_views(mutants@) == numbered(
                s,
                file@,
                ranges@,
                views.take(i as int),
                id_start as int,
            ).0,
            crate::assemble::placed_views(placed@) == numbered(
                s,
                file@,
                ranges@,
                views.take(i as int),
                id_start as int,
            ).1,
        decreases sites@.len() - i,
    {
        let site = &sites[i];
        let ghost cs = crate::collect::candidate_views(site.candidates@);
        proof {
            assert(views.take(i + 1).drop_last() =~= views.take(i as int));
            assert(views.take(i + 1).last() == site@);
            assert(mutant_views(mutants@).len() == mutants@.len());
            assert forall|k: int| 0 <= k < site.candidates@.len() implies crate::source::is_span(
                s,
                (#[trigger] site.candidates@[k])@.sub_span.start as int,
                site.candidates@[k]@.sub_span.end as int,
            ) by {
                assert(views[i as int].candidates[k] == site.candidates@[k]@);
            }
        }
        let ghost done = mutant_views(mutants@);
        let next: u32 = id_start + mutants.len() as u32;
        match number_candidates(source, lines, file, ranges, &site.candidates, next, &mut mutants) {
            Some(arms) => {
                proof {
                    assert(mutant_views(mutants@).len() == mutants@.len());
                }
                if arms.len() > 0 {
                    let ghost before = placed@;
                    let one = PlacedSite { placement: site.placement, arms };
                    placed.push(one);
                    proof {
                        assert(crate::assemble::placed_views(placed@)
                            =~= crate::assemble::placed_views(before).push(one@));
                    }
                } else {
                    proof {
                        assert(crate::assemble::arm_views(arms@).len() == 0);
                    }
                }
            },
            None => {
                proof {
                    lemma_numbered_grows(s, file@, ranges@, views, id_start as int, i + 1);
                }
                return None;
            },
        }
        i = i + 1;
    }
    proof {
        assert(views.take(sites@.len() as int) =~= views);
        assert(mutant_views(mutants@).len() == mutants@.len());
    }
    Some((mutants, placed))
}

// ---- whole files ----

/// The comments of a file with the lines on which they start.
pub open spec fn comment_lines(s: Seq<char>, comments: Seq<(u32, u32, u32)>) -> Seq<
    crate::directives::CommentView,
> {
    comments.map_values(
        |c: (u32, u32, u32)| crate::directives::CommentView {
            line: crate::collect::line_at(s, c.0),
            text: crate::collect::text_at(s, Span { start: c.1, end: c.2 }),
        },
    )
}

fn read_comments(source: &Source, lines: &LineIndex, comments: &Vec<(u32, u32, u32)>) -> (r: Vec<
    CommentLine,
>)
    requires
        lines.of(source.text()),
        crate::source::byte_len(source.text()) < u32::MAX,
    ensures
        crate::directives::comment_views(r@) == comment_lines(source.text(), comments@),
{
    let ghost s = source.text();
    let ghost all = comment_lines(s, comments@);
    let mut out: Vec<CommentLine> = Vec::new();
    let end = source.len();
    let mut i: usize = 0;
    proof {
        assert(crate::directives::comment_views(out@) =~= all.take(0));
    }
    while i < comments.len()
        invariant
            i <= comments@.len(),
            s == source.text(),
            lines.of(s),
            crate::source::byte_len(s) < u32::MAX,
            end == crate::source::byte_len(s),
            all == comment_lines(s, comments@),
            crate::directives::comment_views(out@) == all.take(i as int),
        decreases comments@.len() - i,
    {
        let (start, from, to) = comments[i];
        let at: u32 = if start <= end {
            start
        } else {
            end
        };
        let line: u32 = match source.find(at) {
            Some(_) => lines.locate(source, start).line,
            None => 0,
        };
        let text = crate::collect::read_at(source, Span { start: from, end: to });
        let ghost before = out@;
        let comment = CommentLine { line, text };
        out.push(comment);
        i = i + 1;
        proof {
            assert(crate::directives::comment_views(out@) =~= crate::directives::comment_views(
                before,
            ).push(comment@));
            assert(crate::directives::comment_views(out@) =~= all.take(i as int));
        }
    }
    proof {
        assert(all.take(comments@.len() as int) =~= all);
    }
    out
}

/// The directives of a file.
pub open spec fn directives_of(s: Seq<char>, comments: Seq<(u32, u32, u32)>) -> Seq<
    crate::directives::DirectiveView,
> {
    crate::sort::stable(
        crate::directives::directives_in(comment_lines(s, comments)),
        crate::directives::by_line(),
    )
}

/// The sites of a file, left to right.
pub open spec fn sites_in(
    s: Seq<char>,
    program: crate::estree::Tree,
    comments: Seq<(u32, u32, u32)>,
    excluded: Seq<Seq<char>>,
) -> Seq<crate::collect::SiteView> {
    crate::sort::stable(
        crate::collect::sites_of(
            s,
            directives_of(s, comments),
            excluded,
            crate::collect::proposals(
                s,
                program,
                crate::collect::Context { chain: None, role: crate::collect::Role::Plain },
            ),
        ),
        by_place(),
    )
}

/// The header that the options ask for.
pub open spec fn header_for(options: OptionsView) -> Seq<char> {
    crate::header::header_text(
        match options.namespace {
            Some(namespace) => namespace,
            None => "__stryker__"@,
        },
        options.disable_type_checks,
    )
}

/// What instrumenting a parsed file gives.
pub open spec fn instrumented(
    path: Seq<char>,
    s: Seq<char>,
    program: crate::estree::Tree,
    comments: Seq<(u32, u32, u32)>,
    id_start: u32,
    options: OptionsView,
) -> Result<InstrumentedView, ErrorView> {
    let sites = sites_in(s, program, comments, options.excluded_mutators);
    let (mutants, placed) = numbered(s, path, options.ranges, sites, id_start as int);
    if crate::source::byte_len(s) >= u32::MAX {
        Err(ErrorView::Oversized { path })
    } else if !spans_fit(s, sites) {
        Err(ErrorView::InconsistentSpans { path })
    } else if id_start + mutants.len() > u32::MAX {
        Err(ErrorView::Oversized { path })
    } else if placed.len() == 0 {
        Ok(InstrumentedView { mutants, instrumented: None })
    } else if !crate::assemble::well_placed(s, crate::assemble::in_order(placed)) {
        Err(ErrorView::InconsistentSpans { path })
    } else {
        Ok(
            InstrumentedView {
                mutants,
                instrumented: Some(
                    crate::assemble::pieces_text(
                        s,
                        crate::assemble::instrumented_pieces(
                            s,
                            header_for(options),
                            crate::assemble::in_order(placed),
                        ),
                    ),
                ),
            },
        )
    }
}

/// A result of instrumenting by its value.
pub open spec fn result_view(r: Result<InstrumentedFile, InstrumentError>) -> Result<
    InstrumentedView,
    ErrorView,
> {
    match r {
        Ok(file) => Ok(file@),
        Err(e) => Err(e@),
    }
}

/// Instruments a file whose syntax tree and comments are given.
pub fn instrument_tree(
    rel_path: &str,
    source: &str,
    program: &serde_json::Value,
    comments: &Vec<(u32, u32, u32)>,
    id_start: u32,
    options: &InstrumentOptions,
) -> (r: Result<InstrumentedFile, InstrumentError>)
    ensures
        result_view(r) == instrumented(
            rel_path@,
            source@,
            crate::estree::json_tree(*program),
            comments@,
            id_start,
            options@,
        ),
{
    let text = match Source::new(source) {
        Some(text) => text,
        None => {
            return Err(InstrumentError::Oversized { path: copy_text(rel_path) });
        },
    };
    if text.len() == u32::MAX {
        return Err(InstrumentError::Oversized { path: copy_text(rel_path) });
    }
    let lines = LineIndex::of_chars(text.chars());
    let directives = DirectiveIndex::from_comments(&read_comments(&text, &lines, comments));
    let collector = Collector::new(&text, &directives, &options.excluded_mutators, &lines);
    let found = collector.visit_program(program);
    proof {
        crate::sort::lemma_stable_map(
            found@,
            |s: Site| s@,
            crate::sort::by_rank::<Site>(),
            by_place(),
        );
    }
    let sites = sort_by_rank(found);
    if !check_spans(&text, &sites) {
        return Err(InstrumentError::InconsistentSpans { path: copy_text(rel_path) });
    }
    let (mutants, placed) = match number_sites(
        &text,
        &lines,
        rel_path,
        &options.ranges,
        &sites,
        id_start,
    ) {
        Some(all) => all,
        None => {
            return Err(InstrumentError::Oversized { path: copy_text(rel_path) });
        },
    };
    if placed.len() == 0 {
        proof {
            assert(crate::assemble::placed_views(placed@).len() == 0);
        }
        return Ok(InstrumentedFile { mutants, instrumented: None });
    }
    proof {
        assert(crate::assemble::placed_views(placed@).len() > 0);
    }
    let all = match ordered(&text, placed) {
        Some(all) => all,
        None => {
            return Err(InstrumentError::InconsistentSpans { path: copy_text(rel_path) });
        },
    };
    let head = match &options.namespace {
        Some(namespace) => header(namespace.as_str(), options.disable_type_checks),
        None => header("__stryker__", options.disable_type_checks),
    };
    let out = build_instrumented(&text, head.as_str(), &all);
    Ok(InstrumentedFile { mutants, instrumented: Some(out) })
}

/// The message of a failed parse.
pub open spec fn parse_message(messages: Seq<Seq<char>>) -> Seq<char> {
    if messages.len() > 0 {
        messages[0]
    } else {
        "parser panicked"@
    }
}

/// What instrumenting a file gives, after what the parser makes of it.
pub open spec fn instrumented_file(
    path: Seq<char>,
    s: Seq<char>,
    parsed: crate::estree::ParsedView,
    id_start: u32,
    options: OptionsView,
) -> Result<InstrumentedView, ErrorView> {
    if !parsed.supported {
        Err(ErrorView::UnsupportedFileType(path))
    } else if parsed.panicked || parsed.messages.len() > 0 {
        Err(ErrorView::Parse { path, message: parse_message(parsed.messages) })
    } else {
        match crate::estree::program_tree(parsed.json) {
            Some(program) => instrumented(path, s, program, parsed.comments, id_start, options),
            None => Err(ErrorView::Parse { path, message: "unreadable syntax tree"@ }),
        }
    }
}

/// Instruments one file. `rel_path` is project-root-relative and is what ends
/// up in the report; mutant ids are assigned sequentially from `id_start`.
pub fn instrument_file(
    rel_path: &str,
    source: &str,
    id_start: u32,
    options: &InstrumentOptions,
) -> (r: Result<InstrumentedFile, InstrumentError>)
    ensures
        result_view(r) == instrumented_file(
            rel_path@,
            source@,
            crate::estree::parsed_file(rel_path@, source@, true, false),
            id_start,
            options@,
        ),
{
    let parsed = parse_file(rel_path, source, true, false);
    if !parsed.supported {
        return Err(InstrumentError::UnsupportedFileType(copy_text(rel_path)));
    }
    if parsed.panicked || parsed.messages.len() > 0 {
        let message = if parsed.messages.len() > 0 {
            copy_text(parsed.messages[0].as_str())
        } else {
            copy_text("parser panicked")
        };
        return Err(InstrumentError::Parse { path: copy_text(rel_path), message });
    }
    match read_program(parsed.json.as_str()) {
        Some(program) => instrument_tree(
            rel_path,
            source,
            &program,
            &parsed.comments,
            id_start,
            options,
        ),
        None => Err(
            InstrumentError::Parse {
                path: copy_text(rel_path),
                message: copy_text("unreadable syntax tree"),
            },
        ),
    }
}

// ---- what holds of an instrumented file ----

proof fn lemma_list_ids(
    s: Seq<char>,
    file: Seq<char>,
    ranges: Seq<MutationRange>,
    cs: Seq<crate::collect::CandidateView>,
    next: int,
)
    ensures
        forall|i: int|
            0 <= i < mutants_in(s, file, ranges, cs, next).len() ==> (#[trigger] mutants_in(
                s,
                file,
                ranges,
                cs,
                next,
            )[i]).id == (next + i) as u32 && requested(
                s,
                ranges,
                mutants_in(s, file, ranges, cs, next)[i].span.0,
            ),
    decreases cs.len(),
{
    if cs.len() > 0 {
        lemma_list_ids(s, file, ranges, cs.drop_last(), next);
    }
}

/// Mutants are numbered in sequence from the first id on, and all of them lie
/// in the requested ranges.
pub proof fn law_ids_are_sequential(
    s: Seq<char>,
    file: Seq<char>,
    ranges: Seq<MutationRange>,
    sites: Seq<crate::collect::SiteView>,
    next: int,
)
    ensures
        forall|i: int|
            0 <= i < numbered(s, file, ranges, sites, next).0.len() ==> (#[trigger] numbered(
                s,
                file,
                ranges,
                sites,
                next,
            ).0[i]).id == (next + i) as u32 && requested(
                s,
                ranges,
                numbered(s, file, ranges, sites, next).0[i].span.0,
            ),
    decreases sites.len(),
{
    if sites.len() > 0 {
        law_ids_are_sequential(s, file, ranges, sites.drop_last(), next);
        let front = numbered(s, file, ranges, sites.drop_last(), next).0;
        let from = next + front.len();
        lemma_list_ids(s, file, ranges, sites.last().candidates, from);
        let new = mutants_in(s, file, ranges, sites.last().candidates, from);
        let all = numbered(s, file, ranges, sites, next).0;
        assert(all == front + new);
        assert forall|i: int| 0 <= i < all.len() implies (#[trigger] all[i]).id == (next + i) as u32
            && requested(s, ranges, all[i].span.0) by {
            if i < front.len() {
                assert(all[i] == front[i]);
            } else {
                assert(all[i] == new[i - front.len()]);
            }
        }
    }
}

/// Whether an arm is that of a mutant of the list that is not ignored.
pub open spec fn is_live(mutants: Seq<MutantView>, next: int, arm: crate::assemble::ArmView) -> bool {
    exists|i: int|
        0 <= i < mutants.len() && arm.id == (next + i) as u32 && (
        #[trigger] mutants[i]).ignored is None && mutants[i].span == (
            arm.sub_span.start,
            arm.sub_span.end,
        )
}

proof fn lemma_live_arms(
    s: Seq<char>,
    file: Seq<char>,
    ranges: Seq<MutationRange>,
    cs: Seq<crate::collect::CandidateView>,
    next: int,
)
    ensures
        forall|k: int|
            0 <= k < arms_in(s, file, ranges, cs, next).len() ==> is_live(
                mutants_in(s, file, ranges, cs, next),
                next,
                #[trigger] arms_in(s, file, ranges, cs, next)[k],
            ),
    decreases cs.len(),
{
    if cs.len() > 0 {
        lemma_live_arms(s, file, ranges, cs.drop_last(), next);
        let front = mutants_in(s, file, ranges, cs.drop_last(), next);
        let all = mutants_in(s, file, ranges, cs, next);
        let arms = arms_in(s, file, ranges, cs, next);
        let before = arms_in(s, file, ranges, cs.drop_last(), next);
        assert forall|k: int| 0 <= k < arms.len() implies is_live(all, next, #[trigger] arms[k]) by {
            if k < before.len() {
                assert(is_live(front, next, before[k]));
                let i = choose|i: int|
                    0 <= i < front.len() && before[k].id == (next + i) as u32 && (
                    #[trigger] front[i]).ignored is None && front[i].span == (
                        before[k].sub_span.start,
                        before[k].sub_span.end,
                    );
                assert(all[i] == front[i]);
            } else {
                assert(all[all.len() - 1] == mutant_of(s, file, cs.last(), next + front.len()));
            }
        }
    }
}

/// Ignored mutants are never placed: every arm of every switch is that of a
/// mutant that is not ignored.
pub proof fn law_ignored_are_not_placed(
    s: Seq<char>,
    file: Seq<char>,
    ranges: Seq<MutationRange>,
    sites: Seq<crate::collect::SiteView>,
    next: int,
)
    ensures
        forall|p: int, k: int|
            0 <= p < numbered(s, file, ranges, sites, next).1.len() && 0 <= k < numbered(
                s,
                file,
                ranges,
                sites,
                next,
            ).1[p].arms.len() ==> is_live(
                numbered(s, file, ranges, sites, next).0,
                next,
                #[trigger] numbered(s, file, ranges, sites, next).1[p].arms[k],
            ),
    decreases sites.len(),
{
    if sites.len() > 0 {
        law_ignored_are_not_placed(s, file, ranges, sites.drop_last(), next);
        let (front, placed) = numbered(s, file, ranges, sites.drop_last(), next);
        let from = next + front.len();
        let cs = sites.last().candidates;
        lemma_live_arms(s, file, ranges, cs, from);
        let new = mutants_in(s, file, ranges, cs, from);
        let arms = arms_in(s, file, ranges, cs, from);
        let (all, all_placed) = numbered(s, file, ranges, sites, next);
        assert(all == front + new);
        assert forall|p: int, k: int|
            0 <= p < all_placed.len() && 0 <= k < all_placed[p].arms.len() implies is_live(
            all,
            next,
            #[trigger] all_placed[p].arms[k],
        ) by {
            let arm = all_placed[p].arms[k];
            if p < placed.len() {
                assert(is_live(front, next, placed[p].arms[k]));
                let i = choose|i: int|
                    0 <= i < front.len() && arm.id == (next + i) as u32 && (
                    #[trigger] front[i]).ignored is None && front[i].span == (
                        arm.sub_span.start,
                        arm.sub_span.end,
                    );
                assert(all[i] == front[i]);
            } else {
                assert(is_live(new, from, arms[k]));
                let i = choose|i: int|
                    0 <= i < new.len() && arm.id == (from + i) as u32 && (
                    #[trigger] new[i]).ignored is None && new[i].span == (
                        arm.sub_span.start,
                        arm.sub_span.end,
                    );
                assert(all[front.len() + i] == new[i]);
                assert(from + i == next + (front.len() + i));
            }
        }
    }
}

/// Whether an arm is that of the mutant of an index.
pub open spec fn arm_for(
    mutants: Seq<MutantView>,
    next: int,
    i: int,
    arm: crate::assemble::ArmView,
) -> bool {
    &&& arm.id == (next + i) as u32
    &&& mutants[i].span == (arm.sub_span.start, arm.sub_span.end)
}

proof fn lemma_armed(
    s: Seq<char>,
    file: Seq<char>,
    ranges: Seq<MutationRange>,
    cs: Seq<crate::collect::CandidateView>,
    next: int,
    i: int,
) -> (k: int)
    requires
        0 <= i < mutants_in(s, file, ranges, cs, next).len(),
        mutants_in(s, file, ranges, cs, next)[i].ignored is None,
    ensures
        0 <= k < arms_in(s, file, ranges, cs, next).len(),
        arm_for(
            mutants_in(s, file, ranges, cs, next),
            next,
            i,
            arms_in(s, file, ranges, cs, next)[k],
        ),
    decreases cs.len(),
{
    let front = mutants_in(s, file, ranges, cs.drop_last(), next);
    let before = arms_in(s, file, ranges, cs.drop_last(), next);
    if i < front.len() {
        assert(mutants_in(s, file, ranges, cs, next)[i] == front[i]);
        let k = lemma_armed(s, file, ranges, cs.drop_last(), next, i);
        assert(arms_in(s, file, ranges, cs, next)[k] == before[k]);
        k
    } else {
        before.len() as int
    }
}

/// Every mutant that is not ignored is placed: some switch has an arm with its
/// id that replaces its span.
pub proof fn law_live_mutants_are_placed(
    s: Seq<char>,
    file: Seq<char>,
    ranges: Seq<MutationRange>,
    sites: Seq<crate::collect::SiteView>,
    next: int,
    i: int,
) -> (at: (int, int))
    requires
        0 <= i < numbered(s, file, ranges, sites, next).0.len(),
        numbered(s, file, ranges, sites, next).0[i].ignored is None,
    ensures
        0 <= at.0 < numbered(s, file, ranges, sites, next).1.len(),
        0 <= at.1 < numbered(s, file, ranges, sites, next).1[at.0].arms.len(),
        arm_for(
            numbered(s, file, ranges, sites, next).0,
            next,
            i,
            numbered(s, file, ranges, sites, next).1[at.0].arms[at.1],
        ),
    decreases sites.len(),
{
    let (front, placed) = numbered(s, file, ranges, sites.drop_last(), next);
    let (all, all_placed) = numbered(s, file, ranges, sites, next);
    let from = next + front.len();
    let cs = sites.last().candidates;
    let new = mutants_in(s, file, ranges, cs, from);
    assert(all == front + new);
    if i < front.len() {
        assert(all[i] == front[i]);
        let at = law_live_mutants_are_placed(s, file, ranges, sites.drop_last(), next, i);
        assert(all_placed[at.0] == placed[at.0]);
        at
    } else {
        assert(all[i] == new[i - front.len()]);
        let k = lemma_armed(s, file, ranges, cs, from, i - front.len());
        assert(from + (i - front.len()) == next + i);
        (placed.len() as int, k)
    }
}

proof fn lemma_placed_have_arms(
    s: Seq<char>,
    file: Seq<char>,
    ranges: Seq<MutationRange>,
    sites: Seq<crate::collect::SiteView>,
    next: int,
)
    ensures
        forall|p: int|
            0 <= p < numbered(s, file, ranges, sites, next).1.len() ==> (#[trigger] numbered(
                s,
                file,
                ranges,
                sites,
                next,
            ).1[p]).arms.len() > 0,
    decreases sites.len(),
{
    if sites.len() > 0 {
        lemma_placed_have_arms(s, file, ranges, sites.drop_last(), next);
    }
}

/// Only files that contain mutants are rewritten: a file gets a new text exactly
/// where one of its mutants is not ignored.
pub proof fn law_only_mutated_files_are_rewritten(
    path: Seq<char>,
    s: Seq<char>,
    program: crate::estree::Tree,
    comments: Seq<(u32, u32, u32)>,
    id_start: u32,
    options: OptionsView,
)
    ensures
        instrumented(path, s, program, comments, id_start, options) matches Ok(file) ==> (
        file.instrumented is Some <==> exists|i: int|
            0 <= i < file.mutants.len() && (#[trigger] file.mutants[i]).ignored is None),
{
    let sites = sites_in(s, program, comments, options.excluded_mutators);
    let (mutants, placed) = numbered(s, path, options.ranges, sites, id_start as int);
    if instrumented(path, s, program, comments, id_start, options) is Ok {
        if placed.len() > 0 {
            lemma_placed_have_arms(s, path, options.ranges, sites, id_start as int);
            law_ignored_are_not_placed(s, path, options.ranges, sites, id_start as int);
            assert(placed[0].arms.len() > 0);
            assert(is_live(mutants, id_start as int, placed[0].arms[0]));
        }
        if exists|i: int|
            0 <= i < mutants.len() && (#[trigger] mutants[i]).ignored is None {
            let i = choose|i: int|
                0 <= i < mutants.len() && (#[trigger] mutants[i]).ignored is None;
            let at = law_live_mutants_are_placed(
                s,
                path,
                options.ranges,
                sites,
                id_start as int,
                i,
            );
            assert(placed.len() > 0);
        }
    }
}

/// Instrumenting keeps the source: where it gives a text, leaving out what was
/// added gives the source back, byte for byte.
pub proof fn law_instrumenting_keeps_the_source(
    path: Seq<char>,
    s: Seq<char>,
    program: crate::estree::Tree,
    comments: Seq<(u32, u32, u32)>,
    id_start: u32,
    options: OptionsView,
)
    ensures
        instrumented(path, s, program, comments, id_start, options) matches Ok(file) ==> (
        file.instrumented matches Some(text) ==> exists|pieces: Seq<crate::assemble::Piece>|
            text == #[trigger] crate::assemble::pieces_text(s, pieces) && crate::assemble::kept_text(
                s,
                pieces,
            ) == s),
{
    let sites = sites_in(s, program, comments, options.excluded_mutators);
    let (mutants, placed) = numbered(s, path, options.ranges, sites, id_start as int);
    let result = instrumented(path, s, program, comments, id_start, options);
    if result matches Ok(file) && file.instrumented is Some {
        crate::assemble::law_source_is_kept(s, header_for(options), placed);
        let pieces = crate::assemble::instrumented_pieces(
            s,
            header_for(options),
            crate::assemble::in_order(placed),
        );
        assert(crate::assemble::kept_text(s, pieces) == s);
    }
}

proof fn lemma_list_shifts(
    s: Seq<char>,
    file: Seq<char>,
    ranges: Seq<MutationRange>,
    cs: Seq<crate::collect::CandidateView>,
    next: int,
    other: int,
)
    ensures
        mutants_in(s, file, ranges, cs, next).len() == mutants_in(s, file, ranges, cs, other).len(),
        forall|i: int|
            0 <= i < mutants_in(s, file, ranges, cs, next).len() ==> same_but_for_id(
                #[trigger] mutants_in(s, file, ranges, cs, next)[i],
                mutants_in(s, file, ranges, cs, other)[i],
            ),
    decreases cs.len(),
{
    if cs.len() > 0 {
        lemma_list_shifts(s, file, ranges, cs.drop_last(), next, other);
    }
}

/// Whether two mutants differ in nothing but their ids.
pub open spec fn same_but_for_id(a: MutantView, b: MutantView) -> bool {
    a == (MutantView { id: a.id, ..b })
}

/// From which id on mutants are numbered changes nothing but their ids.
pub proof fn law_numbering_changes_ids_only(
    s: Seq<char>,
    file: Seq<char>,
    ranges: Seq<MutationRange>,
    sites: Seq<crate::collect::SiteView>,
    next: int,
    other: int,
)
    ensures
        numbered(s, file, ranges, sites, next).0.len() == numbered(
            s,
            file,
            ranges,
            sites,
            other,
        ).0.len(),
        forall|i: int|
            0 <= i < numbered(s, file, ranges, sites, next).0.len() ==> same_but_for_id(
                #[trigger] numbered(s, file, ranges, sites, next).0[i],
                numbered(s, file, ranges, sites, other).0[i],
            ),
    decreases sites.len(),
{
    if sites.len() > 0 {
        law_numbering_changes_ids_only(s, file, ranges, sites.drop_last(), next, other);
        let a = numbered(s, file, ranges, sites.drop_last(), next).0;
        let b = numbered(s, file, ranges, sites.drop_last(), other).0;
        let cs = sites.last().candidates;
        lemma_list_shifts(s, file, ranges, cs, next + a.len(), other + b.len());
        let new_a = mutants_in(s, file, ranges, cs, next + a.len());
        let new_b = mutants_in(s, file, ranges, cs, other + b.len());
        let all_a = numbered(s, file, ranges, sites, next).0;
        let all_b = numbered(s, file, ranges, sites, other).0;
        assert(all_a == a + new_a && all_b == b + new_b);
        assert forall|i: int| 0 <= i < all_a.len() implies same_but_for_id(
            #[trigger] all_a[i],
            all_b[i],
        ) by {
            if i < a.len() {
                assert(same_but_for_id(a[i], b[i]));
            } else {
                assert(same_but_for_id(new_a[i - a.len()], new_b[i - a.len()]));
            }
        }
    }
}

/// The mutants of a list that lie in the requested ranges, in order.
pub open spec fn in_requested(
    s: Seq<char>,
    ranges: Seq<MutationRange>,
    mutants: Seq<MutantView>,
) -> Seq<MutantView>
    decreases mutants.len(),
{
    if mutants.len() == 0 {
        Seq::empty()
    } else if requested(s, ranges, mutants.last().span.0) {
        in_requested(s, ranges, mutants.drop_last()).push(mutants.last())
    } else {
        in_requested(s, ranges, mutants.drop_last())
    }
}

proof fn lemma_requested_join(
    s: Seq<char>,
    ranges: Seq<MutationRange>,
    a: Seq<MutantView>,
    b: Seq<MutantView>,
)
    ensures
        in_requested(s, ranges, a + b) == in_requested(s, ranges, a) + in_requested(s, ranges, b),
    decreases b.len(),
{
    if b.len() == 0 {
        assert(a + b =~= a);
        assert(in_requested(s, ranges, a) + in_requested(s, ranges, b) =~= in_requested(
            s,
            ranges,
            a,
        ));
    } else {
        lemma_requested_join(s, ranges, a, b.drop_last());
        assert((a + b).drop_last() =~= a + b.drop_last());
        assert((a + b).last() == b.last());
        assert(in_requested(s, ranges, a + b) =~= in_requested(s, ranges, a) + in_requested(
            s,
            ranges,
            b,
        ));
    }
}

/// Whether two lists have the same mutants but for their ids.
pub open spec fn same_but_for_ids(a: Seq<MutantView>, b: Seq<MutantView>) -> bool {
    a.len() == b.len() && forall|i: int|
        0 <= i < a.len() ==> same_but_for_id(#[trigger] a[i], b[i])
}

proof fn lemma_list_filtered(
    s: Seq<char>,
    file: Seq<char>,
    ranges: Seq<MutationRange>,
    cs: Seq<crate::collect::CandidateView>,
    next: int,
    other: int,
)
    ensures
        same_but_for_ids(
            mutants_in(s, file, ranges, cs, next),
            in_requested(s, ranges, mutants_in(s, file, Seq::empty(), cs, other)),
        ),
    decreases cs.len(),
{
    if cs.len() > 0 {
        lemma_list_filtered(s, file, ranges, cs.drop_last(), next, other);
        let c = cs.last();
        let whole = mutants_in(s, file, Seq::empty(), cs.drop_last(), other);
        let all = mutants_in(s, file, Seq::empty(), cs, other);
        assert(requested(s, Seq::<MutationRange>::empty(), c.sub_span.start));
        assert(all.drop_last() =~= whole);
        assert(all.last().span.0 == c.sub_span.start);
    }
}

/// Ranges only filter: the mutants of some ranges are those of the whole file
/// that start on a line of one of them, in the same order, and differ in nothing
/// but their ids.
pub proof fn law_ranges_only_filter(
    s: Seq<char>,
    file: Seq<char>,
    ranges: Seq<MutationRange>,
    sites: Seq<crate::collect::SiteView>,
    next: int,
)
    ensures
        same_but_for_ids(
            numbered(s, file, ranges, sites, next).0,
            in_requested(s, ranges, numbered(s, file, Seq::empty(), sites, next).0),
        ),
    decreases sites.len(),
{
    if sites.len() > 0 {
        law_ranges_only_filter(s, file, ranges, sites.drop_last(), next);
        let cs = sites.last().candidates;
        let some = numbered(s, file, ranges, sites.drop_last(), next).0;
        let whole = numbered(s, file, Seq::empty(), sites.drop_last(), next).0;
        lemma_list_filtered(s, file, ranges, cs, next + some.len(), next + whole.len());
        let more = mutants_in(s, file, ranges, cs, next + some.len());
        let rest = mutants_in(s, file, Seq::empty(), cs, next + whole.len());
        assert(numbered(s, file, ranges, sites, next).0 == some + more);
        assert(numbered(s, file, Seq::empty(), sites, next).0 == whole + rest);
        lemma_requested_join(s, ranges, whole, rest);
        let a = some + more;
        let b = in_requested(s, ranges, whole) + in_requested(s, ranges, rest);
        assert forall|i: int| 0 <= i < a.len() implies same_but_for_id(#[trigger] a[i], b[i]) by {
            if i < some.len() {
                assert(same_but_for_id(some[i], in_requested(s, ranges, whole)[i]));
            } else {
                assert(same_but_for_id(
                    more[i - some.len()],
                    in_requested(s, ranges, rest)[i - some.len()],
                ));
            }
        }
    }
}

/// Whether a mutant holds the text that it replaces, and is ignored where its
/// mutator is excluded.
pub open spec fn is_sound(s: Seq<char>, excluded: Seq<Seq<char>>, m: MutantView) -> bool {
    &&& m.original == crate::collect::text_at(s, Span { start: m.span.0, end: m.span.1 })
    &&& excluded.contains(m.mutator_name) ==> m.ignored is Some
}

proof fn lemma_list_sound(
    s: Seq<char>,
    file: Seq<char>,
    ranges: Seq<MutationRange>,
    cs: Seq<crate::collect::CandidateView>,
    next: int,
    excluded: Seq<Seq<char>>,
)
    requires
        forall|i: int|
            0 <= i < cs.len() && excluded.contains((#[trigger] cs[i]).mutator) ==> cs[i].ignored
                is Some,
    ensures
        forall|i: int|
            0 <= i < mutants_in(s, file, ranges, cs, next).len() ==> is_sound(
                s,
                excluded,
                #[trigger] mutants_in(s, file, ranges, cs, next)[i],
            ),
    decreases cs.len(),
{
    if cs.len() > 0 {
        let front = cs.drop_last();
        assert forall|i: int|
            0 <= i < front.len() && excluded.contains((#[trigger] front[i]).mutator) implies front[i].ignored
            is Some by {
            assert(front[i] == cs[i]);
        }
        lemma_list_sound(s, file, ranges, front, next, excluded);
        let c = cs.last();
        assert(cs[cs.len() - 1] == c);
        let before = mutants_in(s, file, ranges, front, next);
        let all = mutants_in(s, file, ranges, cs, next);
        assert(c.sub_span == Span { start: c.sub_span.start, end: c.sub_span.end });
        assert forall|i: int| 0 <= i < all.len() implies is_sound(s, excluded, #[trigger] all[i]) by {
            if i < before.len() {
                assert(all[i] == before[i]);
            } else {
                assert(all[i] == mutant_of(s, file, c, next + before.len()));
            }
        }
    }
}

proof fn lemma_numbered_sound(
    s: Seq<char>,
    file: Seq<char>,
    ranges: Seq<MutationRange>,
    sites: Seq<crate::collect::SiteView>,
    next: int,
    directives: Seq<crate::directives::DirectiveView>,
    excluded: Seq<Seq<char>>,
)
    requires
        forall|i: int|
            0 <= i < sites.len() ==> crate::collect::sound_site(
                s,
                directives,
                excluded,
                #[trigger] sites[i],
            ),
    ensures
        forall|i: int|
            0 <= i < numbered(s, file, ranges, sites, next).0.len() ==> is_sound(
                s,
                excluded,
                #[trigger] numbered(s, file, ranges, sites, next).0[i],
            ),
    decreases sites.len(),
{
    if sites.len() > 0 {
        let before = sites.drop_last();
        assert forall|i: int| 0 <= i < before.len() implies crate::collect::sound_site(
            s,
            directives,
            excluded,
            #[trigger] before[i],
        ) by {
            assert(before[i] == sites[i]);
        }
        lemma_numbered_sound(s, file, ranges, before, next, directives, excluded);
        let front = numbered(s, file, ranges, before, next).0;
        let cs = sites.last().candidates;
        assert(crate::collect::sound_site(s, directives, excluded, sites[sites.len() - 1]));
        assert forall|i: int|
            0 <= i < cs.len() && excluded.contains((#[trigger] cs[i]).mutator) implies cs[i].ignored
            is Some by {
            assert(crate::collect::sound_candidate(s, directives, excluded, cs[i]));
        }
        lemma_list_sound(s, file, ranges, cs, next + front.len(), excluded);
        let new = mutants_in(s, file, ranges, cs, next + front.len());
        let all = numbered(s, file, ranges, sites, next).0;
        assert(all == front + new);
        assert forall|i: int| 0 <= i < all.len() implies is_sound(s, excluded, #[trigger] all[i]) by {
            if i < front.len() {
                assert(all[i] == front[i]);
            } else {
                assert(all[i] == new[i - front.len()]);
            }
        }
    }
}

/// Every mutant of a file holds the text of the source that it replaces, and
/// those of excluded mutators are ignored.
pub proof fn law_mutants_are_sound(
    path: Seq<char>,
    s: Seq<char>,
    program: crate::estree::Tree,
    comments: Seq<(u32, u32, u32)>,
    id_start: u32,
    options: OptionsView,
)
    ensures
        instrumented(path, s, program, comments, id_start, options) matches Ok(file) ==> forall|
            i: int,
        |
            0 <= i < file.mutants.len() ==> is_sound(
                s,
                options.excluded_mutators,
                #[trigger] file.mutants[i],
            ),
{
    broadcast use vstd::seq_lib::group_to_multiset_ensures;

    let directives = directives_of(s, comments);
    let excluded = options.excluded_mutators;
    let proposals = crate::collect::proposals(
        s,
        program,
        crate::collect::Context { chain: None, role: crate::collect::Role::Plain },
    );
    let found = crate::collect::sites_of(s, directives, excluded, proposals);
    let sites = sites_in(s, program, comments, excluded);
    crate::collect::law_sites_are_sound(s, directives, excluded, proposals);
    crate::sort::law_stable_sorts(found, by_place());
    assert forall|i: int| 0 <= i < sites.len() implies crate::collect::sound_site(
        s,
        directives,
        excluded,
        #[trigger] sites[i],
    ) by {
        assert(sites.to_multiset().count(sites[i]) > 0);
        assert(found.contains(sites[i]));
        let k = found.index_of(sites[i]);
        assert(found[k] == sites[i]);
    }
    lemma_numbered_sound(s, path, options.ranges, sites, id_start as int, directives, excluded);
}

/// Every instrumented text carries the marker of the header.
pub proof fn law_marker_in_every_text(
    path: Seq<char>,
    s: Seq<char>,
    program: crate::estree::Tree,
    comments: Seq<(u32, u32, u32)>,
    id_start: u32,
    options: OptionsView,
)
    ensures
        instrumented(path, s, program, comments, id_start, options) matches Ok(file) ==> (
        file.instrumented matches Some(text) ==> crate::text::has(
            text,
            crate::header::HEADER_MARKER@,
        )),
{
    let sites = sites_in(s, program, comments, options.excluded_mutators);
    let placed = numbered(s, path, options.ranges, sites, id_start as int).1;
    let all = crate::assemble::in_order(placed);
    let header = header_for(options);
    let mark = crate::header::HEADER_MARKER@;
    let namespace = match options.namespace {
        Some(namespace) => namespace,
        None => "__stryker__"@,
    };
    crate::header::law_marker_in_every_header(namespace, options.disable_type_checks);
    crate::text::lemma_find_from(header, mark, 0);
    let at = crate::text::find(header, mark)->0;
    let start = crate::assemble::body_start(s) as u32;
    let first = crate::assemble::Piece::Kept(Span { start: 0, end: start });
    let second = crate::assemble::Piece::Added(header);
    let rest = crate::assemble::rendered(
        s,
        all,
        0,
        start,
        crate::source::byte_len(s) as u32,
    ).0;
    crate::assemble::lemma_one_piece(s, first);
    crate::assemble::lemma_one_piece(s, second);
    crate::assemble::lemma_pieces_join(s, seq![first], seq![second]);
    assert(seq![first, second] =~= seq![first] + seq![second]);
    crate::assemble::lemma_pieces_join(s, seq![first, second], rest);
    let a = crate::assemble::pieces_text(s, seq![first]);
    let text = crate::assemble::pieces_text(
        s,
        crate::assemble::instrumented_pieces(s, header, all),
    );
    assert(text.subrange(a.len() + at, a.len() + at + mark.len()) =~= header.subrange(
        at,
        at + mark.len(),
    ));
    crate::text::lemma_occurs_is_found(text, mark, 0, a.len() + at);
}

/// Ignored mutants are named nowhere in the instrumented text, so nothing can
/// activate them; unless the source, the header or the text of another mutant
/// already names them.
pub proof fn law_ignored_are_not_named(
    path: Seq<char>,
    s: Seq<char>,
    program: crate::estree::Tree,
    comments: Seq<(u32, u32, u32)>,
    id_start: u32,
    options: OptionsView,
    i: int,
)
    requires
        instrumented(path, s, program, comments, id_start, options) matches Ok(file)
            && file.instrumented is Some && 0 <= i < file.mutants.len()
            && file.mutants[i].ignored is Some,
        !crate::text::has(s, crate::marks::mark_of((id_start + i) as u32)),
        !crate::text::has(
            header_for(options),
            crate::marks::mark_of((id_start + i) as u32),
        ),
        ({
            let sites = sites_in(s, program, comments, options.excluded_mutators);
            let placed = numbered(s, path, options.ranges, sites, id_start as int).1;
            forall|p: int|
                0 <= p < placed.len() ==> crate::marks::quiet_arms(
                    s,
                    #[trigger] placed[p],
                    (id_start + i) as u32,
                )
        }),
    ensures
        instrumented(path, s, program, comments, id_start, options) matches Ok(file) ==> (
        file.mutants[i].id == (id_start + i) as u32 && (file.instrumented matches Some(text)
            ==> !crate::text::has(text, crate::marks::mark_of(file.mutants[i].id)))),
{
    broadcast use vstd::seq_lib::group_to_multiset_ensures;

    let next = id_start as int;
    let id = (id_start + i) as u32;
    let sites = sites_in(s, program, comments, options.excluded_mutators);
    let (mutants, placed) = numbered(s, path, options.ranges, sites, next);
    let all = crate::assemble::in_order(placed);
    law_ids_are_sequential(s, path, options.ranges, sites, next);
    assert(mutants[i].id == id);
    law_ignored_are_not_placed(s, path, options.ranges, sites, next);
    crate::sort::law_stable_sorts(placed, crate::assemble::by_span());
    assert forall|q: int| 0 <= q < all.len() implies crate::marks::names_others(
        s,
        #[trigger] all[q],
        id,
    ) by {
        assert(all.to_multiset().count(all[q]) > 0);
        assert(placed.contains(all[q]));
        let p = placed.index_of(all[q]);
        assert(placed[p] == all[q]);
        assert(crate::marks::quiet_arms(s, placed[p], id));
        assert forall|k: int| 0 <= k < all[q].arms.len() implies (#[trigger] all[q].arms[k]).id
            != id by {
            let arm = placed[p].arms[k];
            assert(is_live(mutants, next, arm));
            let j = choose|j: int|
                0 <= j < mutants.len() && arm.id == (next + j) as u32 && (
                #[trigger] mutants[j]).ignored is None && mutants[j].span == (
                    arm.sub_span.start,
                    arm.sub_span.end,
                );
            assert(j != i);
        }
    }
    let namespace = match options.namespace {
        Some(namespace) => namespace,
        None => "__stryker__"@,
    };
    crate::marks::law_only_arms_are_named(s, namespace, options.disable_type_checks, all, id);
}

// ---- what becomes of a candidate ----

/// Whether a mutant is a change of a source, with all that is said of it.
pub open spec fn is_change(
    m: MutantView,
    s: Seq<char>,
    file: Seq<char>,
    mutator: Seq<char>,
    span: Span,
    replacement: Seq<char>,
) -> bool {
    &&& m.file == file
    &&& m.mutator_name == mutator
    &&& m.span.0 == span.start
    &&& m.span.1 == span.end
    &&& m.location.start == crate::line_index::position_of(s, span.start as int)
    &&& m.location.end == crate::line_index::position_of(s, span.end as int)
    &&& m.original == crate::collect::text_at(s, span)
    &&& m.replacement == collapsed(replacement)
}

/// Whether a line is asked for: by one of the ranges, or by there being none.
pub open spec fn asks_for_line(ranges: Seq<MutationRange>, line: u32) -> bool {
    ranges.len() == 0 || exists|i: int|
        0 <= i < ranges.len() && (#[trigger] ranges[i]).start_line <= line && line
            <= ranges[i].end_line
}

/// Whether a list has the mutant of a candidate.
pub open spec fn has_mutant(
    mutants: Seq<MutantView>,
    s: Seq<char>,
    file: Seq<char>,
    c: crate::collect::CandidateView,
) -> bool {
    exists|n: int|
        0 <= n < mutants.len() && is_change(
            #[trigger] mutants[n],
            s,
            file,
            c.mutator,
            c.sub_span,
            c.replacement,
        ) && mutants[n].ignored == c.ignored
}

/// Whether a mutant is that of a candidate on a line that is asked for.
pub open spec fn is_asked_for(
    m: MutantView,
    s: Seq<char>,
    file: Seq<char>,
    ranges: Seq<MutationRange>,
    c: crate::collect::CandidateView,
) -> bool {
    &&& is_change(m, s, file, c.mutator, c.sub_span, c.replacement)
    &&& m.ignored == c.ignored
    &&& asks_for_line(ranges, m.location.start.line)
}

proof fn lemma_asks_for_line(s: Seq<char>, ranges: Seq<MutationRange>, offset: u32)
    ensures
        requested(s, ranges, offset) == asks_for_line(
            ranges,
            crate::line_index::position_of(s, offset as int).line,
        ),
{
    let line = crate::line_index::position_of(s, offset as int).line;
    if ranges.len() > 0 {
        if requested(s, ranges, offset) {
            let i = choose|i: int| 0 <= i < ranges.len() && (#[trigger] ranges[i]).has_line(line);
            assert(ranges[i].start_line <= line);
        }
        if asks_for_line(ranges, line) {
            let i = choose|i: int|
                0 <= i < ranges.len() && (#[trigger] ranges[i]).start_line <= line && line
                    <= ranges[i].end_line;
            assert(ranges[i].has_line(line));
        }
    }
}

proof fn lemma_mutants_of_list(
    s: Seq<char>,
    file: Seq<char>,
    ranges: Seq<MutationRange>,
    cs: Seq<crate::collect::CandidateView>,
    next: int,
)
    ensures
        forall|k: int|
            0 <= k < cs.len() && asks_for_line(
                ranges,
                crate::line_index::position_of(s, (#[trigger] cs[k]).sub_span.start as int).line,
            ) ==> has_mutant(mutants_in(s, file, ranges, cs, next), s, file, cs[k]),
        forall|n: int|
            0 <= n < mutants_in(s, file, ranges, cs, next).len() ==> exists|k: int|
                0 <= k < cs.len() && is_asked_for(
                    #[trigger] mutants_in(s, file, ranges, cs, next)[n],
                    s,
                    file,
                    ranges,
                    #[trigger] cs[k],
                ),
    decreases cs.len(),
{
    if cs.len() > 0 {
        let before = cs.drop_last();
        let front = mutants_in(s, file, ranges, before, next);
        let all = mutants_in(s, file, ranges, cs, next);
        let last = cs.last();
        lemma_mutants_of_list(s, file, ranges, before, next);
        lemma_asks_for_line(s, ranges, last.sub_span.start);
        assert forall|k: int|
            0 <= k < cs.len() && asks_for_line(
                ranges,
                crate::line_index::position_of(s, (#[trigger] cs[k]).sub_span.start as int).line,
            ) implies has_mutant(all, s, file, cs[k]) by {
            if k < before.len() {
                assert(before[k] == cs[k]);
                assert(has_mutant(front, s, file, before[k]));
                let c = cs[k];
                let n = choose|n: int|
                    0 <= n < front.len() && is_change(
                        #[trigger] front[n],
                        s,
                        file,
                        c.mutator,
                        c.sub_span,
                        c.replacement,
                    ) && front[n].ignored == c.ignored;
                assert(all[n] == front[n]);
            } else {
                assert(is_change(
                    all[all.len() - 1],
                    s,
                    file,
                    last.mutator,
                    last.sub_span,
                    last.replacement,
                ));
            }
        }
        assert forall|n: int| 0 <= n < all.len() implies exists|k: int|
            0 <= k < cs.len() && is_asked_for(#[trigger] all[n], s, file, ranges, #[trigger] cs[k]) by {
            if n < front.len() {
                assert(all[n] == front[n]);
                let k = choose|k: int|
                    0 <= k < before.len() && is_asked_for(
                        front[n],
                        s,
                        file,
                        ranges,
                        #[trigger] before[k],
                    );
                assert(cs[k] == before[k]);
            } else {
                assert(is_asked_for(all[n], s, file, ranges, cs[cs.len() - 1]));
            }
        }
    }
}

proof fn lemma_has_mutant_in(
    a: Seq<MutantView>,
    b: Seq<MutantView>,
    s: Seq<char>,
    file: Seq<char>,
    c: crate::collect::CandidateView,
)
    requires
        has_mutant(a, s, file, c) || has_mutant(b, s, file, c),
    ensures
        has_mutant(a + b, s, file, c),
{
    if has_mutant(a, s, file, c) {
        let n = choose|n: int|
            0 <= n < a.len() && is_change(
                #[trigger] a[n],
                s,
                file,
                c.mutator,
                c.sub_span,
                c.replacement,
            ) && a[n].ignored == c.ignored;
        assert((a + b)[n] == a[n]);
    } else {
        let n = choose|n: int|
            0 <= n < b.len() && is_change(
                #[trigger] b[n],
                s,
                file,
                c.mutator,
                c.sub_span,
                c.replacement,
            ) && b[n].ignored == c.ignored;
        assert((a + b)[a.len() + n] == b[n]);
    }
}

/// Every candidate on a line that is asked for becomes a mutant of the same
/// mutator, place, original and replacement, ignored for the same reason.
pub proof fn law_candidates_become_mutants(
    s: Seq<char>,
    file: Seq<char>,
    ranges: Seq<MutationRange>,
    sites: Seq<crate::collect::SiteView>,
    next: int,
    i: int,
    k: int,
)
    requires
        0 <= i < sites.len(),
        0 <= k < sites[i].candidates.len(),
        asks_for_line(
            ranges,
            crate::line_index::position_of(s, sites[i].candidates[k].sub_span.start as int).line,
        ),
    ensures
        has_mutant(
            numbered(s, file, ranges, sites, next).0,
            s,
            file,
            sites[i].candidates[k],
        ),
    decreases sites.len(),
{
    let before = sites.drop_last();
    let front = numbered(s, file, ranges, before, next).0;
    let from = next + front.len();
    let new = mutants_in(s, file, ranges, sites.last().candidates, from);
    assert(numbered(s, file, ranges, sites, next).0 == front + new);
    if i < before.len() {
        assert(before[i] == sites[i]);
        law_candidates_become_mutants(s, file, ranges, before, next, i, k);
    } else {
        lemma_mutants_of_list(s, file, ranges, sites.last().candidates, from);
        assert(sites.last().candidates[k] == sites[i].candidates[k]);
    }
    lemma_has_mutant_in(front, new, s, file, sites[i].candidates[k]);
}

/// Every mutant is that of a candidate on a line that is asked for.
pub proof fn law_mutants_come_from_candidates(
    s: Seq<char>,
    file: Seq<char>,
    ranges: Seq<MutationRange>,
    sites: Seq<crate::collect::SiteView>,
    next: int,
    n: int,
) -> (at: (int, int))
    requires
        0 <= n < numbered(s, file, ranges, sites, next).0.len(),
    ensures
        0 <= at.0 < sites.len(),
        0 <= at.1 < sites[at.0].candidates.len(),
        is_asked_for(
            numbered(s, file, ranges, sites, next).0[n],
            s,
            file,
            ranges,
            sites[at.0].candidates[at.1],
        ),
    decreases sites.len(),
{
    let before = sites.drop_last();
    let front = numbered(s, file, ranges, before, next).0;
    let from = next + front.len();
    let cs = sites.last().candidates;
    let new = mutants_in(s, file, ranges, cs, from);
    assert(numbered(s, file, ranges, sites, next).0 == front + new);
    if n < front.len() {
        let at = law_mutants_come_from_candidates(s, file, ranges, before, next, n);
        assert(before[at.0] == sites[at.0]);
        at
    } else {
        lemma_mutants_of_list(s, file, ranges, cs, from);
        let m = new[n - front.len()];
        let k = choose|k: int| 0 <= k < cs.len() && is_asked_for(m, s, file, ranges, #[trigger] cs[k]);
        (sites.len() - 1, k)
    }
}

/// Whether a list has a change of a source as a mutant.
pub open spec fn has_mutated(
    mutants: Seq<MutantView>,
    s: Seq<char>,
    file: Seq<char>,
    mutator: Seq<char>,
    span: Span,
    replacement: Seq<char>,
) -> bool {
    exists|n: int|
        0 <= n < mutants.len() && is_change(
            #[trigger] mutants[n],
            s,
            file,
            mutator,
            span,
            replacement,
        )
}

/// What the mutators propose for a program.
pub open spec fn proposed(s: Seq<char>, program: crate::estree::Tree) -> Seq<
    crate::collect::ProposalView,
> {
    crate::collect::proposals(
        s,
        program,
        crate::collect::Context { chain: None, role: crate::collect::Role::Plain },
    )
}

/// Every change that the mutators propose for a program, on a line that is asked
/// for, is a mutant of the file, unless it leaves the text as it is.
pub proof fn law_proposals_become_mutants(
    path: Seq<char>,
    s: Seq<char>,
    program: crate::estree::Tree,
    comments: Seq<(u32, u32, u32)>,
    id_start: u32,
    options: OptionsView,
    k: int,
)
    requires
        0 <= k < proposed(s, program).len(),
        crate::collect::text_at(s, proposed(s, program)[k].sub_span) != proposed(
            s,
            program,
        )[k].replacement,
        asks_for_line(
            options.ranges,
            crate::line_index::position_of(s, proposed(s, program)[k].sub_span.start as int).line,
        ),
    ensures
        instrumented(path, s, program, comments, id_start, options) matches Ok(file) ==> has_mutated(
            file.mutants,
            s,
            path,
            proposed(s, program)[k].mutator,
            proposed(s, program)[k].sub_span,
            proposed(s, program)[k].replacement,
        ),
{
    broadcast use vstd::seq_lib::group_to_multiset_ensures;

    let ps = proposed(s, program);
    let p = ps[k];
    let directives = directives_of(s, comments);
    let excluded = options.excluded_mutators;
    let found = crate::collect::sites_of(s, directives, excluded, ps);
    let sites = sites_in(s, program, comments, excluded);
    crate::collect::law_every_proposal_has_its_site(
        s,
        directives,
        excluded,
        ps,
        p.placement,
        p.mutator,
        p.sub_span,
        p.replacement,
    );
    assert(crate::collect::is_proposed(ps, p.placement, p.mutator, p.sub_span, p.replacement)) by {
        assert(ps[k] == (crate::collect::ProposalView {
            mutator: p.mutator,
            placement: p.placement,
            sub_span: p.sub_span,
            replacement: p.replacement,
        }));
    }
    let (i, j) = choose|i: int, j: int|
        0 <= i < found.len() && found[i].placement == p.placement && 0 <= j
            < found[i].candidates.len() && (#[trigger] found[i].candidates[j]).mutator == p.mutator
            && found[i].candidates[j].sub_span == p.sub_span && found[i].candidates[j].replacement
            == p.replacement;
    crate::sort::law_stable_sorts(found, by_place());
    assert(found.contains(found[i]));
    assert(found.to_multiset().count(found[i]) > 0);
    assert(sites.to_multiset().count(found[i]) > 0);
    assert(sites.contains(found[i]));
    let at = sites.index_of(found[i]);
    law_candidates_become_mutants(s, path, options.ranges, sites, id_start as int, at, j);
    let mutants = numbered(s, path, options.ranges, sites, id_start as int).0;
    let c = sites[at].candidates[j];
    let n = choose|n: int|
        0 <= n < mutants.len() && is_change(
            #[trigger] mutants[n],
            s,
            path,
            c.mutator,
            c.sub_span,
            c.replacement,
        ) && mutants[n].ignored == c.ignored;
    assert(is_change(mutants[n], s, path, p.mutator, p.sub_span, p.replacement));
}

/// Every mutant of a file is a change that the mutators propose for its program,
/// and that leaves the text not as it is.
pub proof fn law_mutants_come_from_proposals(
    path: Seq<char>,
    s: Seq<char>,
    program: crate::estree::Tree,
    comments: Seq<(u32, u32, u32)>,
    id_start: u32,
    options: OptionsView,
    n: int,
)
    requires
        instrumented(path, s, program, comments, id_start, options) matches Ok(file) && 0 <= n
            < file.mutants.len(),
    ensures
        ({
            let m = instrumented(path, s, program, comments, id_start, options)->Ok_0.mutants[n];
            exists|k: int|
                0 <= k < proposed(s, program).len() && is_change(
                    m,
                    s,
                    path,
                    (#[trigger] proposed(s, program)[k]).mutator,
                    proposed(s, program)[k].sub_span,
                    proposed(s, program)[k].replacement,
                ) && m.original != proposed(s, program)[k].replacement
        }),
{
    broadcast use vstd::seq_lib::group_to_multiset_ensures;

    let ps = proposed(s, program);
    let directives = directives_of(s, comments);
    let excluded = options.excluded_mutators;
    let found = crate::collect::sites_of(s, directives, excluded, ps);
    let sites = sites_in(s, program, comments, excluded);
    let at = law_mutants_come_from_candidates(
        s,
        path,
        options.ranges,
        sites,
        id_start as int,
        n,
    );
    let site = sites[at.0];
    crate::sort::law_stable_sorts(found, by_place());
    assert(sites.contains(site));
    assert(sites.to_multiset().count(site) > 0);
    assert(found.to_multiset().count(site) > 0);
    assert(found.contains(site));
    let i = found.index_of(site);
    let c = site.candidates[at.1];
    assert(found[i].candidates[at.1] == c);
    assert(crate::collect::has_site(found, site.placement, c.mutator, c.sub_span, c.replacement));
    crate::collect::law_every_proposal_has_its_site(
        s,
        directives,
        excluded,
        ps,
        site.placement,
        c.mutator,
        c.sub_span,
        c.replacement,
    );
    let p = crate::collect::ProposalView {
        mutator: c.mutator,
        placement: site.placement,
        sub_span: c.sub_span,
        replacement: c.replacement,
    };
    let k = ps.index_of(p);
    assert(proposed(s, program)[k] == p);
}

/// The sites of a program go from left to right, by where they start, and those
/// that start together by where they end.
pub proof fn law_sites_go_left_to_right(
    s: Seq<char>,
    program: crate::estree::Tree,
    comments: Seq<(u32, u32, u32)>,
    excluded: Seq<Seq<char>>,
    i: int,
    j: int,
)
    requires
        0 <= i < j < sites_in(s, program, comments, excluded).len(),
    ensures
        ({
            let a = sites_in(s, program, comments, excluded)[i].placement.at();
            let b = sites_in(s, program, comments, excluded)[j].placement.at();
            a.start < b.start || (a.start == b.start && a.end <= b.end)
        }),
{
    let found = crate::collect::sites_of(
        s,
        directives_of(s, comments),
        excluded,
        proposed(s, program),
    );
    let sites = sites_in(s, program, comments, excluded);
    crate::sort::law_stable_sorts(found, by_place());
    let rank = by_place();
    assert(rank(sites[i]) <= rank(sites[j]));
    assert(rank(sites[i]) == left_to_right(sites[i].placement.at()));
    assert(rank(sites[j]) == left_to_right(sites[j].placement.at()));
}

/// Whether an arm switches a mutant on: by its id, in its place, with what it is
/// replaced by.
pub open spec fn switches_on(arm: crate::assemble::ArmView, m: MutantView) -> bool {
    &&& arm.id == m.id
    &&& arm.sub_span.start == m.span.0
    &&& arm.sub_span.end == m.span.1
    &&& collapsed(arm.replacement) == m.replacement
}

proof fn lemma_arms_switch_on(
    s: Seq<char>,
    file: Seq<char>,
    ranges: Seq<MutationRange>,
    cs: Seq<crate::collect::CandidateView>,
    next: int,
)
    ensures
        forall|k: int|
            0 <= k < arms_in(s, file, ranges, cs, next).len() ==> exists|n: int|
                0 <= n < mutants_in(s, file, ranges, cs, next).len() && switches_on(
                    #[trigger] arms_in(s, file, ranges, cs, next)[k],
                    #[trigger] mutants_in(s, file, ranges, cs, next)[n],
                ) && mutants_in(s, file, ranges, cs, next)[n].ignored is None,
        forall|n: int|
            0 <= n < mutants_in(s, file, ranges, cs, next).len() && (#[trigger] mutants_in(
                s,
                file,
                ranges,
                cs,
                next,
            )[n]).ignored is None ==> exists|k: int|
                0 <= k < arms_in(s, file, ranges, cs, next).len() && switches_on(
                    #[trigger] arms_in(s, file, ranges, cs, next)[k],
                    mutants_in(s, file, ranges, cs, next)[n],
                ),
    decreases cs.len(),
{
    if cs.len() > 0 {
        let before = cs.drop_last();
        let mf = mutants_in(s, file, ranges, before, next);
        let ma = mutants_in(s, file, ranges, cs, next);
        let af = arms_in(s, file, ranges, before, next);
        let aa = arms_in(s, file, ranges, cs, next);
        lemma_arms_switch_on(s, file, ranges, before, next);
        assert forall|k: int| 0 <= k < aa.len() implies exists|n: int|
            0 <= n < ma.len() && switches_on(#[trigger] aa[k], #[trigger] ma[n])
                && ma[n].ignored is None by {
            if k < af.len() {
                assert(aa[k] == af[k]);
                let n = choose|n: int|
                    0 <= n < mf.len() && switches_on(af[k], #[trigger] mf[n])
                        && mf[n].ignored is None;
                assert(ma[n] == mf[n]);
            } else {
                assert(switches_on(aa[k], ma[ma.len() - 1]));
            }
        }
        assert forall|n: int|
            0 <= n < ma.len() && (#[trigger] ma[n]).ignored is None implies exists|k: int|
            0 <= k < aa.len() && switches_on(#[trigger] aa[k], ma[n]) by {
            if n < mf.len() {
                assert(ma[n] == mf[n]);
                let k = choose|k: int| 0 <= k < af.len() && switches_on(#[trigger] af[k], mf[n]);
                assert(aa[k] == af[k]);
            } else {
                assert(switches_on(aa[aa.len() - 1], ma[n]));
            }
        }
    }
}

/// Every arm of every switch is at the site of its candidate and switches on a
/// mutant that is not ignored, with its own id and replacement.
pub proof fn law_arms_switch_mutants_on(
    s: Seq<char>,
    file: Seq<char>,
    ranges: Seq<MutationRange>,
    sites: Seq<crate::collect::SiteView>,
    next: int,
    p: int,
    k: int,
)
    requires
        0 <= p < numbered(s, file, ranges, sites, next).1.len(),
        0 <= k < numbered(s, file, ranges, sites, next).1[p].arms.len(),
    ensures
        ({
            let (mutants, placed) = numbered(s, file, ranges, sites, next);
            &&& exists|n: int|
                0 <= n < mutants.len() && switches_on(placed[p].arms[k], #[trigger] mutants[n])
                    && mutants[n].ignored is None
            &&& exists|i: int|
                0 <= i < sites.len() && (#[trigger] sites[i]).placement == placed[p].placement
        }),
    decreases sites.len(),
{
    let before = sites.drop_last();
    let (front, placed) = numbered(s, file, ranges, before, next);
    let from = next + front.len();
    let cs = sites.last().candidates;
    let new = mutants_in(s, file, ranges, cs, from);
    let arms = arms_in(s, file, ranges, cs, from);
    let all = numbered(s, file, ranges, sites, next).0;
    let now = numbered(s, file, ranges, sites, next).1;
    assert(all == front + new);
    if p < placed.len() {
        assert(now[p] == placed[p]);
        law_arms_switch_mutants_on(s, file, ranges, before, next, p, k);
        let n = choose|n: int|
            0 <= n < front.len() && switches_on(placed[p].arms[k], #[trigger] front[n])
                && front[n].ignored is None;
        assert(all[n] == front[n]);
        let i = choose|i: int|
            0 <= i < before.len() && (#[trigger] before[i]).placement == placed[p].placement;
        assert(sites[i] == before[i]);
    } else {
        lemma_arms_switch_on(s, file, ranges, cs, from);
        assert(now[p].arms == arms);
        let n = choose|n: int|
            0 <= n < new.len() && switches_on(arms[k], #[trigger] new[n])
                && new[n].ignored is None;
        assert(all[front.len() + n] == new[n]);
        assert(sites[sites.len() - 1].placement == now[p].placement);
    }
}

proof fn lemma_runs_after_plain(a: Seq<char>, x: Seq<char>)
    requires
        !a.contains('\n'),
    ensures
        runs_collapsed(a + x, false) == a + runs_collapsed(x, false),
    decreases a.len(),
{
    let text = a + x;
    if a.len() == 0 {
        assert(text =~= x);
        assert(a + runs_collapsed(x, false) =~= runs_collapsed(x, false));
    } else {
        let rest = a.skip(1);
        assert(text[0] == a[0]);
        assert(a.contains(a[0]));
        assert(text.skip(1) =~= rest + x);
        assert(!rest.contains('\n')) by {
            if rest.contains('\n') {
                let i = rest.index_of('\n');
                assert(a[i + 1] == '\n');
            }
        }
        lemma_runs_after_plain(rest, x);
        assert(seq![a[0]] + (rest + runs_collapsed(x, false)) =~= a + runs_collapsed(x, false));
    }
}

proof fn lemma_runs_of_blanks(w: Seq<char>, x: Seq<char>)
    requires
        forall|i: int| 0 <= i < w.len() ==> crate::text::is_white_space(#[trigger] w[i]),
    ensures
        runs_collapsed(w + x, true) == runs_collapsed(x, true),
    decreases w.len(),
{
    let text = w + x;
    if w.len() == 0 {
        assert(text =~= x);
    } else {
        let rest = w.skip(1);
        assert(text[0] == w[0]);
        assert(text.skip(1) =~= rest + x);
        assert forall|i: int| 0 <= i < rest.len() implies crate::text::is_white_space(
            #[trigger] rest[i],
        ) by {
            assert(rest[i] == w[i + 1]);
        }
        lemma_runs_of_blanks(rest, x);
    }
}

/// A line break with the white space behind it becomes one blank, and at the end
/// of the text nothing.
pub proof fn law_line_breaks_collapse(a: Seq<char>, w: Seq<char>, b: Seq<char>)
    requires
        !a.contains('\n'),
        forall|i: int| 0 <= i < w.len() ==> crate::text::is_white_space(#[trigger] w[i]),
        b.len() > 0 ==> !crate::text::is_white_space(b[0]),
    ensures
        b.len() > 0 ==> collapsed(a + (seq!['\n'] + (w + b))) == a + seq![' '] + collapsed(b),
        b.len() == 0 ==> collapsed(a + (seq!['\n'] + (w + b))) == a,
{
    let tail = seq!['\n'] + (w + b);
    lemma_runs_after_plain(a, tail);
    assert(tail[0] == '\n');
    assert(tail.skip(1) =~= w + b);
    lemma_runs_of_blanks(w, b);
    assert(runs_collapsed(tail, false) == runs_collapsed(b, true));
    if b.len() > 0 {
        assert(b[0] != '\n');
        assert(seq![' ', b[0]] + runs_collapsed(b.skip(1), false) =~= seq![' '] + collapsed(b));
        assert(a + (seq![' '] + collapsed(b)) =~= a + seq![' '] + collapsed(b));
    } else {
        assert(a + runs_collapsed(b, true) =~= a);
    }
}

/// A file of an unknown kind is refused, and so is one that the parser complains
/// of, with its first complaint.
pub proof fn law_refused_files(
    path: Seq<char>,
    s: Seq<char>,
    parsed: crate::estree::ParsedView,
    id_start: u32,
    options: OptionsView,
)
    ensures
        ({
            let r = instrumented_file(path, s, parsed, id_start, options);
            &&& !parsed.supported <==> r == Err::<InstrumentedView, ErrorView>(
                ErrorView::UnsupportedFileType(path),
            )
            &&& parsed.supported && parsed.messages.len() > 0 ==> r == Err::<
                InstrumentedView,
                ErrorView,
            >(ErrorView::Parse { path, message: parsed.messages[0] })
            &&& parsed.supported && parsed.messages.len() == 0 && parsed.panicked ==> r == Err::<
                InstrumentedView,
                ErrorView,
            >(ErrorView::Parse { path, message: "parser panicked"@ })
            &&& r is Ok ==> parsed.supported && !parsed.panicked && parsed.messages.len() == 0
                && crate::estree::program_tree(parsed.json) is Some
        }),
{
}

/// The numbers and the mutants of a file fit their bits where it is instrumented.
pub proof fn law_instrumented_files_fit(
    path: Seq<char>,
    s: Seq<char>,
    program: crate::estree::Tree,
    comments: Seq<(u32, u32, u32)>,
    id_start: u32,
    options: OptionsView,
)
    ensures
        instrumented(path, s, program, comments, id_start, options) matches Ok(file)
            ==> crate::source::byte_len(s) < u32::MAX && id_start + file.mutants.len() <= u32::MAX,
        crate::source::byte_len(s) >= u32::MAX ==> instrumented(
            path,
            s,
            program,
            comments,
            id_start,
            options,
        ) == Err::<InstrumentedView, ErrorView>(ErrorView::Oversized { path }),
{
}

/// Every comment counts on its line, with the text inside it.
pub proof fn law_comments_on_their_lines(s: Seq<char>, comments: Seq<(u32, u32, u32)>, i: int)
    requires
        0 <= i < comments.len(),
    ensures
        comment_lines(s, comments).len() == comments.len(),
        comment_lines(s, comments)[i].line == crate::collect::line_at(s, comments[i].0),
        comment_lines(s, comments)[i].text == crate::collect::text_at(
            s,
            Span { start: comments[i].1, end: comments[i].2 },
        ),
{
}

/// The directives of a file are those of its comments, by their lines.
pub proof fn law_directives_go_by_line(s: Seq<char>, comments: Seq<(u32, u32, u32)>)
    ensures
        directives_of(s, comments).to_multiset() == crate::directives::directives_in(
            comment_lines(s, comments),
        ).to_multiset(),
        forall|i: int, j: int|
            0 <= i < j < directives_of(s, comments).len() ==> (#[trigger] directives_of(
                s,
                comments,
            )[i]).line <= (#[trigger] directives_of(s, comments)[j]).line,
{
    let all = crate::directives::directives_in(comment_lines(s, comments));
    let rank = crate::directives::by_line();
    let sorted = directives_of(s, comments);
    crate::sort::law_stable_sorts(all, rank);
    assert forall|i: int, j: int| 0 <= i < j < sorted.len() implies (#[trigger] sorted[i]).line <= (
    #[trigger] sorted[j]).line by {
        assert(rank(sorted[i]) <= rank(sorted[j]));
    }
}

/// The header of a file names the configured namespace, and otherwise the general
/// one.
pub proof fn law_headers_of_files(options: OptionsView, namespace: Seq<char>)
    ensures
        options.namespace == Some(namespace) ==> header_for(options)
            == crate::header::header_text(namespace, options.disable_type_checks),
        options.namespace is None ==> header_for(options) == crate::header::header_text(
            "__stryker__"@,
            options.disable_type_checks,
        ),
{
}

} // verus!
