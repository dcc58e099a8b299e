//! Read-only pass over the syntax tree that collects mutation sites.
//!
//! Each site pairs a *placement* (where the runtime switch goes) with one or
//! more candidate mutants (sub-span + replacement text). All replacement text
//! is derived from slices of the original source, so the instrumented output
//! preserves the file byte for byte outside mutated regions.
//!
//! `proposals` says which mutants a node and everything below it give rise to;
//! `sites_of` says how they are gathered into sites.
use vstd::prelude::*;

use crate::directives::DirectiveIndex;
use crate::estree::Span;
use crate::line_index::LineIndex;
use crate::mutators::own_proposals;
use crate::source::Source;
use crate::text::copy_text;
use crate::text::list_has;
use crate::text::same;
use crate::walk::children;

verus! {

/// Where a runtime switch goes.
#[derive(Debug, Clone, Copy, PartialEq, Eq, Structural)]
pub enum Placement {
    /// Wrap the expression at this span in a switch ternary.
    Expression(Span),
    /// Replace the *contents* of the block at this span (braces excluded) with
    /// an if/else switch.
    BlockBody { block: Span },
    /// A brace-less statement list (switch-case consequent): wrap in
    /// `if (...) {} else { ... }` without outer braces.
    Statements { span: Span },
}

impl Placement {
    /// The part of the source that the switch takes the place of.
    pub open spec fn at(self) -> Span {
        match self {
            Placement::Expression(s) => s,
            Placement::BlockBody { block } => block,
            Placement::Statements { span } => span,
        }
    }

    /// The part of the source that the switch takes the place of.
    pub fn span(&self) -> (r: Span)
        ensures
            r == self.at(),
    {
        match self {
            Placement::Expression(s) => *s,
            Placement::BlockBody { block } => *block,
            Placement::Statements { span } => *span,
        }
    }
}

/// A mutant that a node gives rise to.
#[derive(Debug)]
pub struct Proposal {
    pub mutator: &'static str,
    pub placement: Placement,
    /// Span being textually replaced.
    pub sub_span: Span,
    pub replacement: String,
}

/// The mathematical value of a proposal.
pub struct ProposalView {
    pub mutator: Seq<char>,
    pub placement: Placement,
    pub sub_span: Span,
    pub replacement: Seq<char>,
}

impl Proposal {
    pub open spec fn view(&self) -> ProposalView {
        ProposalView {
            mutator: self.mutator@,
            placement: self.placement,
            sub_span: self.sub_span,
            replacement: self.replacement@,
        }
    }
}

/// The values of a list of proposals.
pub open spec fn proposal_views(v: Seq<Proposal>) -> Seq<ProposalView> {
    v.map_values(|p: Proposal| p@)
}

/// A mutant at its site.
#[derive(Debug)]
pub struct Candidate {
    pub mutator: &'static str,
    /// Span being textually replaced.
    pub sub_span: Span,
    pub replacement: String,
    /// Reason when suppressed by an exclusion or a `// Stryker disable`.
    pub ignored: Option<String>,
}

/// The mathematical value of a candidate.
pub struct CandidateView {
    pub mutator: Seq<char>,
    pub sub_span: Span,
    pub replacement: Seq<char>,
    pub ignored: Option<Seq<char>>,
}

impl Candidate {
    pub open spec fn view(&self) -> CandidateView {
        CandidateView {
            mutator: self.mutator@,
            sub_span: self.sub_span,
            replacement: self.replacement@,
            ignored: crate::text::opt_text(self.ignored),
        }
    }
}

/// The values of a list of candidates.
pub open spec fn candidate_views(v: Seq<Candidate>) -> Seq<CandidateView> {
    v.map_values(|c: Candidate| c@)
}

/// The mutants that share one runtime switch.
#[derive(Debug)]
pub struct Site {
    pub placement: Placement,
    pub candidates: Vec<Candidate>,
}

/// The mathematical value of a site.
pub struct SiteView {
    pub placement: Placement,
    pub candidates: Seq<CandidateView>,
}

impl Site {
    pub open spec fn view(&self) -> SiteView {
        SiteView { placement: self.placement, candidates: candidate_views(self.candidates@) }
    }
}

/// The values of a list of sites.
pub open spec fn site_views(v: Seq<Site>) -> Seq<SiteView> {
    v.map_values(|s: Site| s@)
}

/// How a node stands in its parent, as far as its mutants depend on it.
#[derive(Debug, Clone, Copy, PartialEq, Eq, Structural)]
pub enum Role {
    Plain,
    /// Operand of `&&` or `||`, whose true/false mutants the parent has decided:
    /// `&&` operands get only `true`, `||` operands only `false`, the other
    /// variant being equivalent to the parent's own mutants.
    Operand,
    /// Test of a loop: `true` would make the loop infinite.
    LoopTest,
    /// Target of an assignment.
    Target,
    /// Function of a constructor that calls `super`.
    Constructor,
    /// Body of a function.
    Body,
    /// Body of a constructor that calls `super`: without the call every run errs.
    ConstructorBody,
    /// Template of a tagged template.
    Tagged,
}

/// What a node has to know of what stands round it.
#[derive(Debug, Clone, Copy, PartialEq, Eq, Structural)]
pub struct Context {
    /// Span of the outermost member/call chain that the node is on the spine of.
    /// Expression mutants on the spine are placed there instead of at their own
    /// node: wrapping a mid-chain node in `(...)` would terminate an optional
    /// chain's short-circuit. The mutated arm carries the whole chain.
    pub chain: Option<Span>,
    pub role: Role,
}

/// The text at a span, empty where it is no span of `s`.
pub open spec fn text_at(s: Seq<char>, span: Span) -> Seq<char> {
    if crate::source::is_span(s, span.start as int, span.end as int) {
        crate::source::slice(s, span.start as int, span.end as int)
    } else {
        Seq::empty()
    }
}

/// The text at a span, empty where it is no span of the source.
pub fn read_at(source: &Source, span: Span) -> (r: String)
    ensures
        r@ == text_at(source.text(), span),
{
    if source.has_span(span.start, span.end) {
        source.cut(span.start, span.end)
    } else {
        String::new()
    }
}

// ---- the mutants of a tree ----

/// The mutants that a node and all below it give rise to: its own, then those
/// of its children in order.
pub open spec fn proposals(s: Seq<char>, t: crate::estree::Tree, ctx: Context) -> Seq<ProposalView>
    decreases t, crate::walk::children_of(s, t, ctx).len() + 1,
{
    let cs = crate::walk::children_of(s, t, ctx);
    crate::mutators::own(s, t, ctx) + proposals_below(s, t, cs, cs.len())
}

/// The mutants of the first `n` children `cs` of the node `t`.
pub open spec fn proposals_below(
    s: Seq<char>,
    t: crate::estree::Tree,
    cs: Seq<(crate::estree::Tree, Context)>,
    n: nat,
) -> Seq<ProposalView>
    decreases t, n,
{
    if n == 0 || n > cs.len() {
        Seq::empty()
    } else {
        let (child, ctx) = cs[n - 1];
        let front = proposals_below(s, t, cs, (n - 1) as nat);
        if decreases_to!(t => child) {
            front + proposals(s, child, ctx)
        } else {
            front
        }
    }
}

fn append(out: &mut Vec<Proposal>, more: Vec<Proposal>)
    ensures
        proposal_views(final(out)@) == proposal_views(old(out)@) + proposal_views(more@),
{
    let ghost before = out@;
    let mut more = more;
    out.append(&mut more);
    proof {
        assert(proposal_views(out@) =~= proposal_views(before) + proposal_views(
            out@.skip(before.len() as int),
        ));
    }
}

/// Collects the mutants of a node and all below it.
pub fn propose(source: &Source, node: &serde_json::Value, ctx: Context, out: &mut Vec<Proposal>)
    ensures
        proposal_views(final(out)@) == proposal_views(old(out)@) + proposals(
            source.text(),
            crate::estree::json_tree(*node),
            ctx,
        ),
    decreases crate::estree::json_tree(*node),
{
    let ghost s = source.text();
    let ghost t = crate::estree::json_tree(*node);
    let ghost begun = proposal_views(out@);
    append(out, own_proposals(source, node, ctx));
    let kids = children(source, node, ctx);
    let ghost cs = crate::walk::children_of(s, t, ctx);
    let ghost head = begun + crate::mutators::own(s, t, ctx);
    let total = kids.len();
    let mut i: usize = 0;
    proof {
        assert(proposal_views(out@) =~= head + proposals_below(s, t, cs, 0));
    }
    while i < total
        invariant
            i <= total == kids@.len(),
            s == source.text(),
            t == crate::estree::json_tree(*node),
            crate::walk::child_views(kids@) == cs,
            forall|k: int|
                0 <= k < kids@.len() ==> decreases_to!(t => crate::estree::json_tree(
                    *(#[trigger] kids@[k]).0,
                )),
            proposal_views(out@) == head + proposals_below(s, t, cs, i as nat),
        decreases total - i,
    {
        proof {
            assert(cs[i as int] == (crate::estree::json_tree(*kids@[i as int].0), kids@[i as int].1));
        }
        let ghost before = proposal_views(out@);
        propose(source, kids[i].0, kids[i].1, out);
        i = i + 1;
        proof {
            assert(proposal_views(out@) =~= head + proposals_below(s, t, cs, i as nat));
        }
    }
    proof {
        assert(proposal_views(out@) =~= begun + proposals(s, t, ctx));
    }
}

// ---- sites ----

/// The line of a byte offset, zero where no character begins there.
pub open spec fn line_at(s: Seq<char>, offset: u32) -> u32 {
    if crate::source::is_boundary(s, crate::line_index::clamped(s, offset as int)) {
        crate::line_index::position_of(s, offset as int).line
    } else {
        0
    }
}

/// Why a mutant of a mutator is ignored at a byte offset: the mutator is
/// excluded, or a directive disables it there.
pub open spec fn ignored_at(
    s: Seq<char>,
    directives: Seq<crate::directives::DirectiveView>,
    excluded: Seq<Seq<char>>,
    mutator: Seq<char>,
    offset: u32,
) -> Option<Seq<char>> {
    if excluded.contains(mutator) {
        Some("Ignored because "@ + mutator + " is excluded (mutator.excludedMutations)"@)
    } else {
        crate::directives::reason_on(directives, line_at(s, offset), mutator)
    }
}

/// The first site from index `i` on with a placement.
pub open spec fn site_from(sites: Seq<SiteView>, placement: Placement, i: int) -> Option<int>
    decreases sites.len() - i,
{
    if i < 0 || i >= sites.len() {
        None
    } else if sites[i].placement == placement {
        Some(i)
    } else {
        site_from(sites, placement, i + 1)
    }
}

/// Whether two candidates make the same change under the same name.
pub open spec fn same_change(a: CandidateView, b: CandidateView) -> bool {
    a.mutator == b.mutator && a.sub_span == b.sub_span && a.replacement == b.replacement
}

/// Whether a list has the change of a candidate.
pub open spec fn has_change(list: Seq<CandidateView>, c: CandidateView) -> bool {
    exists|i: int| 0 <= i < list.len() && same_change(#[trigger] list[i], c)
}

/// The sites with a candidate added at a placement: to the site that is there,
/// unless that has the change already, or to a new one.
pub open spec fn with_candidate(
    sites: Seq<SiteView>,
    placement: Placement,
    c: CandidateView,
) -> Seq<SiteView> {
    match site_from(sites, placement, 0) {
        Some(i) => if has_change(sites[i].candidates, c) {
            sites
        } else {
            sites.update(i, SiteView { placement, candidates: sites[i].candidates.push(c) })
        },
        None => sites.push(SiteView { placement, candidates: seq![c] }),
    }
}

/// The candidate of a proposal.
pub open spec fn candidate_of(
    s: Seq<char>,
    directives: Seq<crate::directives::DirectiveView>,
    excluded: Seq<Seq<char>>,
    p: ProposalView,
) -> CandidateView {
    CandidateView {
        mutator: p.mutator,
        sub_span: p.sub_span,
        replacement: p.replacement,
        ignored: ignored_at(s, directives, excluded, p.mutator, p.sub_span.start),
    }
}

/// The sites of a list of proposals; what would change nothing is left out.
pub open spec fn sites_of(
    s: Seq<char>,
    directives: Seq<crate::directives::DirectiveView>,
    excluded: Seq<Seq<char>>,
    ps: Seq<ProposalView>,
) -> Seq<SiteView>
    decreases ps.len(),
{
    if ps.len() == 0 {
        Seq::empty()
    } else {
        let front = sites_of(s, directives, excluded, ps.drop_last());
        let p = ps.last();
        if text_at(s, p.sub_span) == p.replacement {
            front
        } else {
            with_candidate(front, p.placement, candidate_of(s, directives, excluded, p))
        }
    }
}

/// Collects the mutation sites of one file.
pub struct Collector<'s> {
    source: &'s Source,
    directives: &'s DirectiveIndex,
    excluded: &'s Vec<String>,
    lines: &'s LineIndex,
}

impl<'s> Collector<'s> {
    /// The text whose sites are collected.
    pub closed spec fn text(self) -> Seq<char> {
        self.source.text()
    }

    /// The directives that are obeyed.
    pub closed spec fn rules(self) -> Seq<crate::directives::DirectiveView> {
        self.directives@
    }

    /// The mutators that are excluded.
    pub closed spec fn barred(self) -> Seq<Seq<char>> {
        crate::text::texts(self.excluded@)
    }

    #[verifier::type_invariant]
    spec fn inv(self) -> bool {
        self.lines.of(self.source.text()) && crate::source::byte_len(self.source.text()) < u32::MAX
    }

    /// A collector; `lines` must be the index of `source`.
    pub fn new(
        source: &'s Source,
        directives: &'s DirectiveIndex,
        excluded: &'s Vec<String>,
        lines: &'s LineIndex,
    ) -> (r: Collector<'s>)
        requires
            lines.of(source.text()),
            crate::source::byte_len(source.text()) < u32::MAX,
        ensures
            r.text() == source.text(),
            r.rules() == directives@,
            r.barred() == crate::text::texts(excluded@),
    {
        Collector { source, directives, excluded, lines }
    }

    fn line_of(&self, offset: u32) -> (r: u32)
        ensures
            r == line_at(self.text(), offset),
    {
        proof {
            use_type_invariant(self);
        }
        let end = self.source.len();
        let at: u32 = if offset <= end {
            offset
        } else {
            end
        };
        match self.source.find(at) {
            Some(_) => self.lines.locate(self.source, offset).line,
            None => 0,
        }
    }

    fn reason(&self, mutator: &str, offset: u32) -> (r: Option<String>)
        ensures
            crate::text::opt_text(r) == ignored_at(
                self.text(),
                self.rules(),
                self.barred(),
                mutator@,
                offset,
            ),
    {
        if list_has(self.excluded, mutator) {
            Some(
                crate::text::concat3(
                    "Ignored because ",
                    mutator,
                    " is excluded (mutator.excludedMutations)",
                ),
            )
        } else {
            let line = self.line_of(offset);
            match self.directives.disabled_reason(line, mutator) {
                Some(reason) => Some(copy_text(reason)),
                None => None,
            }
        }
    }

    fn candidate(&self, p: Proposal) -> (r: Candidate)
        ensures
            r@ == candidate_of(self.text(), self.rules(), self.barred(), p@),
    {
        let ignored = self.reason(p.mutator, p.sub_span.start);
        Candidate {
            mutator: p.mutator,
            sub_span: p.sub_span,
            replacement: p.replacement,
            ignored,
        }
    }

    /// The sites of a program. The root of the tree is given as a JSON value.
    pub fn visit_program(self, program: &serde_json::Value) -> (r: Vec<Site>)
        ensures
            site_views(r@) == sites_of(
                self.text(),
                self.rules(),
                self.barred(),
                proposals(
                    self.text(),
                    crate::estree::json_tree(*program),
                    Context { chain: None, role: Role::Plain },
                ),
            ),
    {
        let mut found: Vec<Proposal> = Vec::new();
        propose(self.source, program, Context { chain: None, role: Role::Plain }, &mut found);
        let ghost all = proposal_views(found@);
        proof {
            assert(all =~= proposals(
                self.text(),
                crate::estree::json_tree(*program),
                Context { chain: None, role: Role::Plain },
            ));
        }
        self.gather(found)
    }

    /// The sites of a list of proposals.
    pub fn gather(self, found: Vec<Proposal>) -> (r: Vec<Site>)
        ensures
            site_views(r@) == sites_of(
                self.text(),
                self.rules(),
                self.barred(),
                proposal_views(found@),
            ),
    {
        let ghost all = proposal_views(found@);
        let mut sites: Vec<Site> = Vec::new();
        let mut rest = reversed(found);
        let ghost mut done: int = 0;
        proof {
            assert(all.take(0) =~= Seq::<ProposalView>::empty());
            assert(site_views(sites@) =~= Seq::<SiteView>::empty());
        }
        while rest.len() > 0
            invariant
                0 <= done,
                done + rest@.len() == all.len(),
                forall|k: int|
                    0 <= k < rest@.len() ==> (#[trigger] rest@[k])@ == all[all.len() - 1 - k],
                site_views(sites@) == sites_of(
                    self.text(),
                    self.rules(),
                    self.barred(),
                    all.take(done),
                ),
            decreases rest@.len(),
        {
            let ghost before = rest@;
            let next = rest.pop();
            if let Some(p) = next {
                proof {
                    assert(before[before.len() - 1]@ == all[done]);
                    assert(all.take(done + 1).drop_last() =~= all.take(done));
                    assert(all.take(done + 1).last() == p@);
                    assert forall|k: int| 0 <= k < rest@.len() implies (#[trigger] rest@[k])@
                        == all[all.len() - 1 - k] by {
                        assert(rest@[k] == before[k]);
                    }
                }
                let text = read_at(self.source, p.sub_span);
                if !same(text.as_str(), p.replacement.as_str()) {
                    let placement = p.placement;
                    let c = self.candidate(p);
                    add_candidate(&mut sites, placement, c);
                }
                proof {
                    done = done + 1;
                }
            }
        }
        proof {
            assert(all.take(done) =~= all);
        }
        sites
    }
}

fn reversed(v: Vec<Proposal>) -> (r: Vec<Proposal>)
    ensures
        r@.len() == v@.len(),
        forall|k: int| 0 <= k < r@.len() ==> #[trigger] r@[k] == v@[v@.len() - 1 - k],
{
    let ghost all = v@;
    let mut rest = v;
    let mut out: Vec<Proposal> = Vec::new();
    while rest.len() > 0
        invariant
            rest@.len() + out@.len() == all.len(),
            forall|k: int| 0 <= k < rest@.len() ==> #[trigger] rest@[k] == all[k],
            forall|k: int| 0 <= k < out@.len() ==> #[trigger] out@[k] == all[all.len() - 1 - k],
        decreases rest@.len(),
    {
        let next = rest.pop();
        if let Some(p) = next {
            out.push(p);
        }
    }
    out
}

fn find_site(sites: &Vec<Site>, placement: Placement) -> (r: Option<usize>)
    ensures
        match r {
            Some(i) => i < sites@.len() && site_from(site_views(sites@), placement, 0) == Some(
                i as int,
            ),
            None => site_from(site_views(sites@), placement, 0) is None,
        },
{
    let mut i: usize = 0;
    while i < sites.len()
        invariant
            i <= sites@.len(),
            site_from(site_views(sites@), placement, 0) == site_from(
                site_views(sites@),
                placement,
                i as int,
            ),
        decreases sites@.len() - i,
    {
        if sites[i].placement == placement {
            return Some(i);
        }
        i = i + 1;
    }
    None
}

fn holds_change(list: &Vec<Candidate>, c: &Candidate) -> (r: bool)
    ensures
        r == has_change(candidate_views(list@), c@),
{
    let ghost views = candidate_views(list@);
    let mut i: usize = 0;
    while i < list.len()
        invariant
            i <= list@.len(),
            views == candidate_views(list@),
            forall|k: int| 0 <= k < i ==> !same_change(#[trigger] views[k], c@),
        decreases list@.len() - i,
    {
        if same(list[i].mutator, c.mutator) && list[i].sub_span == c.sub_span && same(
            list[i].replacement.as_str(),
            c.replacement.as_str(),
        ) {
            proof {
                assert(same_change(views[i as int], c@));
            }
            return true;
        }
        i = i + 1;
    }
    false
}

fn add_candidate(sites: &mut Vec<Site>, placement: Placement, c: Candidate)
    ensures
        site_views(final(sites)@) == with_candidate(site_views(old(sites)@), placement, c@),
{
    let ghost before = site_views(sites@);
    match find_site(sites, placement) {
        Some(i) => {
            if !holds_change(&sites[i].candidates, &c) {
                let ghost list = candidate_views(sites@[i as int].candidates@);
                proof {
                    lemma_site_from(before, placement, 0);
                }
                sites[i].candidates.push(c);
                proof {
                    assert(candidate_views(sites@[i as int].candidates@) =~= list.push(c@));
                    assert(site_views(sites@) =~= before.update(
                        i as int,
                        SiteView { placement, candidates: list.push(c@) },
                    ));
                }
            }
        },
        None => {
            let mut candidates: Vec<Candidate> = Vec::new();
            candidates.push(c);
            proof {
                assert(candidate_views(candidates@) =~= seq![c@]);
            }
            sites.push(Site { placement, candidates });
            proof {
                assert(site_views(sites@) =~= before.push(
                    SiteView { placement, candidates: seq![c@] },
                ));
            }
        },
    }
}

/// What `site_from` gives has the placement.
pub proof fn lemma_site_from(sites: Seq<SiteView>, placement: Placement, i: int)
    requires
        0 <= i,
    ensures
        match site_from(sites, placement, i) {
            Some(k) => i <= k < sites.len() && sites[k].placement == placement,
            None => forall|k: int| i <= k < sites.len() ==> (#[trigger] sites[k]).placement != placement,
        },
    decreases sites.len() - i,
{
    if i < sites.len() && sites[i].placement != placement {
        lemma_site_from(sites, placement, i + 1);
    }
}

// ---- what holds of the sites ----

/// Every site has a placement of its own.
pub open spec fn distinct_placements(sites: Seq<SiteView>) -> bool {
    forall|i: int, j: int|
        0 <= i < j < sites.len() ==> (#[trigger] sites[i]).placement != (#[trigger] sites[j]).placement
}

/// No change stands twice in a list.
pub open spec fn distinct_changes(list: Seq<CandidateView>) -> bool {
    forall|i: int, j: int|
        0 <= i < j < list.len() ==> !same_change(#[trigger] list[i], #[trigger] list[j])
}

/// A candidate that changes the text, and is ignored as the rules say.
pub open spec fn sound_candidate(
    s: Seq<char>,
    directives: Seq<crate::directives::DirectiveView>,
    excluded: Seq<Seq<char>>,
    c: CandidateView,
) -> bool {
    &&& text_at(s, c.sub_span) != c.replacement
    &&& c.ignored == ignored_at(s, directives, excluded, c.mutator, c.sub_span.start)
}

/// A site with at least one candidate, all of them sound and different.
pub open spec fn sound_site(
    s: Seq<char>,
    directives: Seq<crate::directives::DirectiveView>,
    excluded: Seq<Seq<char>>,
    site: SiteView,
) -> bool {
    &&& site.candidates.len() > 0
    &&& distinct_changes(site.candidates)
    &&& forall|i: int|
        0 <= i < site.candidates.len() ==> sound_candidate(
            s,
            directives,
            excluded,
            #[trigger] site.candidates[i],
        )
}

/// Co-located mutants share one switch, no mutant stands there twice, none
/// leaves the text as it is, and those of excluded mutators are kept, but
/// ignored.
pub proof fn law_sites_are_sound(
    s: Seq<char>,
    directives: Seq<crate::directives::DirectiveView>,
    excluded: Seq<Seq<char>>,
    ps: Seq<ProposalView>,
)
    ensures
        distinct_placements(sites_of(s, directives, excluded, ps)),
        forall|i: int|
            0 <= i < sites_of(s, directives, excluded, ps).len() ==> sound_site(
                s,
                directives,
                excluded,
                #[trigger] sites_of(s, directives, excluded, ps)[i],
            ),
    decreases ps.len(),
{
    if ps.len() > 0 {
        law_sites_are_sound(s, directives, excluded, ps.drop_last());
        let front = sites_of(s, directives, excluded, ps.drop_last());
        let p = ps.last();
        if text_at(s, p.sub_span) != p.replacement {
            let c = candidate_of(s, directives, excluded, p);
            lemma_site_from(front, p.placement, 0);
            let all = with_candidate(front, p.placement, c);
            match site_from(front, p.placement, 0) {
                Some(k) => {
                    if !has_change(front[k].candidates, c) {
                        let list = front[k].candidates;
                        assert(distinct_changes(list.push(c))) by {
                            assert forall|i: int, j: int| 0 <= i < j < list.push(c).len() implies !same_change(
                                #[trigger] list.push(c)[i],
                                #[trigger] list.push(c)[j],
                            ) by {
                                if j < list.len() {
                                    assert(!same_change(list[i], list[j]));
                                } else {
                                    assert(!same_change(list[i], c));
                                }
                            }
                        }
                        assert(sound_site(s, directives, excluded, all[k])) by {
                            assert forall|i: int| 0 <= i < list.push(c).len() implies sound_candidate(
                                s,
                                directives,
                                excluded,
                                #[trigger] list.push(c)[i],
                            ) by {
                                if i < list.len() {
                                    assert(sound_candidate(s, directives, excluded, list[i]));
                                }
                            }
                        }
                    }
                },
                None => {
                    assert(sound_site(s, directives, excluded, all[all.len() - 1]));
                },
            }
            assert forall|i: int| 0 <= i < all.len() implies sound_site(
                s,
                directives,
                excluded,
                #[trigger] all[i],
            ) by {
                if i < front.len() {
                    assert(sound_site(s, directives, excluded, front[i]));
                }
            }
        }
    }
}

// ---- what becomes of a proposal ----

proof fn lemma_proposed_below(
    s: Seq<char>,
    t: crate::estree::Tree,
    cs: Seq<(crate::estree::Tree, Context)>,
    n: nat,
    p: ProposalView,
)
    requires
        n <= cs.len(),
        forall|k: int| 0 <= k < cs.len() ==> decreases_to!(t => (#[trigger] cs[k]).0),
    ensures
        proposals_below(s, t, cs, n).contains(p) <==> exists|k: int|
            0 <= k < n && #[trigger] proposals(s, cs[k].0, cs[k].1).contains(p),
    decreases n,
{
    if n > 0 {
        let m = (n - 1) as nat;
        let front = proposals_below(s, t, cs, m);
        let all = proposals_below(s, t, cs, n);
        let (child, ctx) = cs[n - 1];
        let own = proposals(s, child, ctx);
        assert(decreases_to!(t => cs[n - 1].0));
        assert(all == front + own);
        lemma_proposed_below(s, t, cs, m, p);
        if all.contains(p) {
            let k = all.index_of(p);
            if k < front.len() {
                assert(front[k] == p);
                let j = choose|j: int|
                    0 <= j < m && #[trigger] proposals(s, cs[j].0, cs[j].1).contains(p);
                assert(proposals(s, cs[j].0, cs[j].1).contains(p));
            } else {
                assert(own[k - front.len()] == p);
                assert(proposals(s, cs[n - 1].0, cs[n - 1].1).contains(p));
            }
        }
        if exists|k: int| 0 <= k < n && #[trigger] proposals(s, cs[k].0, cs[k].1).contains(p) {
            let k = choose|k: int|
                0 <= k < n && #[trigger] proposals(s, cs[k].0, cs[k].1).contains(p);
            if k < m {
                assert(front.contains(p));
                let j = front.index_of(p);
                assert(all[j] == p);
            } else {
                let j = own.index_of(p);
                assert(all[front.len() + j] == p);
            }
        }
    }
}

proof fn lemma_children_below(
    s: Seq<char>,
    t: crate::estree::Tree,
    fields: Seq<Seq<char>>,
    ctx: Context,
    k: int,
)
    requires
        0 <= k < crate::walk::children_in(s, t, fields, ctx).len(),
    ensures
        decreases_to!(t => crate::walk::children_in(s, t, fields, ctx)[k].0),
    decreases fields.len(),
{
    let front = crate::walk::children_in(s, t, fields.drop_last(), ctx);
    let field = fields.last();
    if k < front.len() {
        lemma_children_below(s, t, fields.drop_last(), ctx, k);
    } else {
        let inner = crate::walk::context_of(s, t, field, ctx)->0;
        let member = crate::estree::member(t, field);
        let nodes = crate::walk::nodes_of(member);
        let i = k - front.len();
        assert(crate::walk::children_in(s, t, fields, ctx)[k] == crate::walk::in_context(
            nodes,
            inner,
        )[i]);
        match member {
            Some(crate::estree::Tree::List(items)) => {
                crate::walk::lemma_element_below(t, field, i);
            },
            Some(node) => {
                crate::walk::lemma_member_below(t, field);
            },
            None => {},
        }
    }
}

/// A change is proposed for a node exactly where its own mutators propose it, or
/// it is proposed for one of the nodes that are visited below it.
pub proof fn law_proposals_of_a_tree(
    s: Seq<char>,
    t: crate::estree::Tree,
    ctx: Context,
    p: ProposalView,
)
    ensures
        proposals(s, t, ctx).contains(p) <==> crate::mutators::own(s, t, ctx).contains(p) || exists|
            k: int,
        |
            0 <= k < crate::walk::children_of(s, t, ctx).len() && #[trigger] proposals(
                s,
                crate::walk::children_of(s, t, ctx)[k].0,
                crate::walk::children_of(s, t, ctx)[k].1,
            ).contains(p),
{
    let cs = crate::walk::children_of(s, t, ctx);
    let own = crate::mutators::own(s, t, ctx);
    let below = proposals_below(s, t, cs, cs.len());
    let all = proposals(s, t, ctx);
    assert forall|k: int| 0 <= k < cs.len() implies decreases_to!(t => (#[trigger] cs[k]).0) by {
        lemma_children_below(s, t, crate::walk::fields_of(crate::estree::type_of(t)), ctx, k);
    }
    lemma_proposed_below(s, t, cs, cs.len(), p);
    assert(all == own + below);
    if own.contains(p) {
        let k = own.index_of(p);
        assert(all[k] == p);
    }
    if below.contains(p) {
        let k = below.index_of(p);
        assert(all[own.len() + k] == p);
    }
    if all.contains(p) {
        let k = all.index_of(p);
        if k < own.len() {
            assert(own[k] == p);
        } else {
            assert(below[k - own.len()] == p);
        }
    }
}

/// Whether a list of sites has a change at a placement.
pub open spec fn has_site(
    sites: Seq<SiteView>,
    placement: Placement,
    mutator: Seq<char>,
    span: Span,
    replacement: Seq<char>,
) -> bool {
    exists|i: int, k: int|
        0 <= i < sites.len() && sites[i].placement == placement && 0 <= k
            < sites[i].candidates.len() && (#[trigger] sites[i].candidates[k]).mutator == mutator
            && sites[i].candidates[k].sub_span == span && sites[i].candidates[k].replacement
            == replacement
}

/// Whether a list of proposals has a change at a placement.
pub open spec fn is_proposed(
    ps: Seq<ProposalView>,
    placement: Placement,
    mutator: Seq<char>,
    span: Span,
    replacement: Seq<char>,
) -> bool {
    ps.contains(ProposalView { mutator, placement, sub_span: span, replacement })
}

proof fn lemma_with_candidate(
    sites: Seq<SiteView>,
    at: Placement,
    c: CandidateView,
    placement: Placement,
    mutator: Seq<char>,
    span: Span,
    replacement: Seq<char>,
)
    ensures
        has_site(with_candidate(sites, at, c), placement, mutator, span, replacement) <==> has_site(
            sites,
            placement,
            mutator,
            span,
            replacement,
        ) || (placement == at && mutator == c.mutator && span == c.sub_span && replacement
            == c.replacement),
{
    let all = with_candidate(sites, at, c);
    lemma_site_from(sites, at, 0);
    if has_site(sites, placement, mutator, span, replacement) {
        let (i, k) = choose|i: int, k: int|
            0 <= i < sites.len() && sites[i].placement == placement && 0 <= k
                < sites[i].candidates.len() && (#[trigger] sites[i].candidates[k]).mutator
                == mutator && sites[i].candidates[k].sub_span == span
                && sites[i].candidates[k].replacement == replacement;
        assert(all[i].candidates[k] == sites[i].candidates[k]);
        assert(all[i].placement == placement);
    }
    if placement == at && mutator == c.mutator && span == c.sub_span && replacement
        == c.replacement {
        match site_from(sites, at, 0) {
            Some(i) => {
                if has_change(sites[i].candidates, c) {
                    let k = choose|k: int|
                        0 <= k < sites[i].candidates.len() && same_change(
                            #[trigger] sites[i].candidates[k],
                            c,
                        );
                    assert(all[i].candidates[k].mutator == mutator);
                } else {
                    let k = sites[i].candidates.len() as int;
                    assert(all[i].candidates[k] == c);
                    assert(all[i].placement == placement);
                }
            },
            None => {
                let i = sites.len() as int;
                assert(all[i].candidates[0] == c);
                assert(all[i].placement == placement);
            },
        }
    }
    if has_site(all, placement, mutator, span, replacement) {
        let (i, k) = choose|i: int, k: int|
            0 <= i < all.len() && all[i].placement == placement && 0 <= k
                < all[i].candidates.len() && (#[trigger] all[i].candidates[k]).mutator == mutator
                && all[i].candidates[k].sub_span == span && all[i].candidates[k].replacement
                == replacement;
        if i < sites.len() && k < sites[i].candidates.len() {
            assert(all[i].candidates[k] == sites[i].candidates[k]);
            assert(sites[i].candidates[k].mutator == mutator);
        }
    }
}

/// Every proposal that changes the text, and nothing else, stands at a site, with
/// its mutator, its span and its replacement.
pub proof fn law_every_proposal_has_its_site(
    s: Seq<char>,
    directives: Seq<crate::directives::DirectiveView>,
    excluded: Seq<Seq<char>>,
    ps: Seq<ProposalView>,
    placement: Placement,
    mutator: Seq<char>,
    span: Span,
    replacement: Seq<char>,
)
    ensures
        has_site(
            sites_of(s, directives, excluded, ps),
            placement,
            mutator,
            span,
            replacement,
        ) <==> is_proposed(ps, placement, mutator, span, replacement) && text_at(s, span)
            != replacement,
    decreases ps.len(),
{
    if ps.len() > 0 {
        let before = ps.drop_last();
        let p = ps.last();
        let wanted = ProposalView { mutator, placement, sub_span: span, replacement };
        law_every_proposal_has_its_site(
            s,
            directives,
            excluded,
            before,
            placement,
            mutator,
            span,
            replacement,
        );
        let c = candidate_of(s, directives, excluded, p);
        lemma_with_candidate(
            sites_of(s, directives, excluded, before),
            p.placement,
            c,
            placement,
            mutator,
            span,
            replacement,
        );
        if before.contains(wanted) {
            let k = before.index_of(wanted);
            assert(ps[k] == wanted);
        }
        if ps.contains(wanted) {
            let k = ps.index_of(wanted);
            if k < before.len() {
                assert(before[k] == wanted);
            }
        }
        if p == wanted {
            assert(ps[ps.len() - 1] == wanted);
        }
    }
}

/// A mutant is ignored where its mutator is excluded, with a reason that says so,
/// and otherwise as the directives say of its line.
pub proof fn law_who_is_ignored(
    s: Seq<char>,
    directives: Seq<crate::directives::DirectiveView>,
    excluded: Seq<Seq<char>>,
    ps: Seq<ProposalView>,
    i: int,
    k: int,
)
    requires
        0 <= i < sites_of(s, directives, excluded, ps).len(),
        0 <= k < sites_of(s, directives, excluded, ps)[i].candidates.len(),
    ensures
        ({
            let c = sites_of(s, directives, excluded, ps)[i].candidates[k];
            let offset = crate::line_index::clamped(s, c.sub_span.start as int);
            &&& excluded.contains(c.mutator) ==> c.ignored == Some(
                "Ignored because "@ + c.mutator
                    + " is excluded (mutator.excludedMutations)"@,
            )
            &&& !excluded.contains(c.mutator) && crate::source::is_boundary(s, offset) ==> c.ignored
                == crate::directives::reason_on(
                directives,
                crate::line_index::position_of(s, c.sub_span.start as int).line,
                c.mutator,
            )
            &&& !excluded.contains(c.mutator) && directives.len() == 0 ==> c.ignored is None
        }),
{
    law_sites_are_sound(s, directives, excluded, ps);
    let site = sites_of(s, directives, excluded, ps)[i];
    assert(sound_site(s, directives, excluded, site));
    assert(sound_candidate(s, directives, excluded, site.candidates[k]));
}

/// What a node gives rise to itself comes before what is found below it.
pub proof fn law_own_proposals_come_first(s: Seq<char>, t: crate::estree::Tree, ctx: Context)
    ensures
        proposals(s, t, ctx).len() >= crate::mutators::own(s, t, ctx).len(),
        proposals(s, t, ctx).take(crate::mutators::own(s, t, ctx).len() as int)
            == crate::mutators::own(s, t, ctx),
{
    let own = crate::mutators::own(s, t, ctx);
    assert(proposals(s, t, ctx).take(own.len() as int) =~= own);
}

/// Below a node, what is found in the first child comes before what is found in
/// the others.
pub proof fn law_children_come_in_order(
    s: Seq<char>,
    t: crate::estree::Tree,
    a: crate::estree::Tree,
    x: Context,
    b: crate::estree::Tree,
    y: Context,
)
    requires
        decreases_to!(t => a),
        decreases_to!(t => b),
    ensures
        proposals_below(s, t, seq![(a, x), (b, y)], 2) == proposals(s, a, x) + proposals(s, b, y),
{
    let cs = seq![(a, x), (b, y)];
    reveal_with_fuel(proposals_below, 3);
    assert(cs[0] == (a, x) && cs[1] == (b, y));
    assert(proposals_below(s, t, cs, 0) =~= Seq::<ProposalView>::empty());
    assert(proposals_below(s, t, cs, 1) =~= proposals(s, a, x));
    assert(proposals_below(s, t, cs, 2) =~= proposals(s, a, x) + proposals(s, b, y));
}

} // verus!
