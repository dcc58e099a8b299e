//! Assembles the instrumented file text from collected sites.
//!
//! Purely textual: the output is the original source with each placement
//! span rewritten to a mutant switch, recursively. Mutated arms contain raw
//! original text with exactly one mutation applied; inner mutants stay
//! un-instrumented there, since they are inactive when an outer one is active.
use vstd::prelude::*;

use crate::collect::read_at;
use crate::collect::Placement;
use crate::estree::Span;
use crate::sort::sort_by_rank;
use crate::sort::Ranked;
use crate::source::Source;
use crate::text::number;

verus! {

/// One mutant of a switch.
#[derive(Debug)]
pub struct Arm {
    pub id: u32,
    /// What is replaced within the placement.
    pub sub_span: Span,
    pub replacement: String,
}

/// A site whose candidates have been assigned global mutant ids and filtered
/// down to the ones that should actually be placed.
#[derive(Debug)]
pub struct PlacedSite {
    pub placement: Placement,
    pub arms: Vec<Arm>,
}

/// The mathematical value of an arm.
pub struct ArmView {
    pub id: u32,
    pub sub_span: Span,
    pub replacement: Seq<char>,
}

/// The mathematical value of a placed site.
pub struct PlacedView {
    pub placement: Placement,
    pub arms: Seq<ArmView>,
}

impl Arm {
    pub open spec fn view(&self) -> ArmView {
        ArmView { id: self.id, sub_span: self.sub_span, replacement: self.replacement@ }
    }
}

impl PlacedSite {
    pub open spec fn view(&self) -> PlacedView {
        PlacedView { placement: self.placement, arms: arm_views(self.arms@) }
    }
}

/// The values of a list of arms.
pub open spec fn arm_views(v: Seq<Arm>) -> Seq<ArmView> {
    v.map_values(|a: Arm| a@)
}

/// The values of a list of placed sites.
pub open spec fn placed_views(v: Seq<PlacedSite>) -> Seq<PlacedView> {
    v.map_values(|p: PlacedSite| p@)
}

/// The rank of a span: outer spans first, then left to right.
pub open spec fn outer_first(span: Span) -> int {
    span.start * 0x1_0000_0000 + (0xffff_ffff - span.end)
}

/// The rank of a placed site.
pub open spec fn by_span() -> spec_fn(PlacedView) -> int {
    |p: PlacedView| outer_first(p.placement.at())
}

impl Ranked for PlacedSite {
    open spec fn rank(self) -> int {
        outer_first(self.placement.at())
    }

    fn rank_value(&self) -> u64 {
        let span = self.placement.span();
        span.start as u64 * 0x1_0000_0000 + (0xffff_ffff - span.end as u64)
    }
}

// ---- pieces ----

/// A piece of the output: a span of the source, or text of its own.
pub enum Piece {
    Kept(Span),
    Added(Seq<char>),
}

/// The text of a piece.
pub open spec fn piece_text(s: Seq<char>, piece: Piece) -> Seq<char> {
    match piece {
        Piece::Kept(span) => crate::collect::text_at(s, span),
        Piece::Added(text) => text,
    }
}

/// The text of a list of pieces.
pub open spec fn pieces_text(s: Seq<char>, pieces: Seq<Piece>) -> Seq<char>
    decreases pieces.len(),
{
    if pieces.len() == 0 {
        Seq::empty()
    } else {
        pieces_text(s, pieces.drop_last()) + piece_text(s, pieces.last())
    }
}

/// What a list of pieces has from the source.
pub open spec fn kept_text(s: Seq<char>, pieces: Seq<Piece>) -> Seq<char>
    decreases pieces.len(),
{
    if pieces.len() == 0 {
        Seq::empty()
    } else {
        kept_text(s, pieces.drop_last()) + (match pieces.last() {
            Piece::Kept(span) => crate::collect::text_at(s, span),
            Piece::Added(_) => Seq::empty(),
        })
    }
}

/// The texts of two lists of pieces join.
pub proof fn lemma_pieces_join(s: Seq<char>, a: Seq<Piece>, b: Seq<Piece>)
    ensures
        pieces_text(s, a + b) == pieces_text(s, a) + pieces_text(s, b),
        kept_text(s, a + b) == kept_text(s, a) + kept_text(s, b),
    decreases b.len(),
{
    if b.len() == 0 {
        assert(a + b =~= a);
        assert(pieces_text(s, a) + pieces_text(s, b) =~= pieces_text(s, a));
        assert(kept_text(s, a) + kept_text(s, b) =~= kept_text(s, a));
    } else {
        lemma_pieces_join(s, a, b.drop_last());
        assert((a + b).drop_last() =~= a + b.drop_last());
        assert((a + b).last() == b.last());
        assert(pieces_text(s, a + b) =~= pieces_text(s, a) + pieces_text(s, b));
        assert(kept_text(s, a + b) =~= kept_text(s, a) + kept_text(s, b));
    }
}

/// The text of a list of one piece.
pub proof fn lemma_one_piece(s: Seq<char>, piece: Piece)
    ensures
        pieces_text(s, seq![piece]) == piece_text(s, piece),
        kept_text(s, seq![piece]) == (match piece {
            Piece::Kept(span) => crate::collect::text_at(s, span),
            Piece::Added(_) => Seq::<char>::empty(),
        }),
{
    let one = seq![piece];
    assert(one.drop_last() =~= Seq::<Piece>::empty());
    assert(one.last() == piece);
    assert(pieces_text(s, one.drop_last()) =~= Seq::<char>::empty());
    assert(kept_text(s, one.drop_last()) =~= Seq::<char>::empty());
    assert(pieces_text(s, one) =~= piece_text(s, piece));
    assert(kept_text(s, one) =~= (match piece {
        Piece::Kept(span) => crate::collect::text_at(s, span),
        Piece::Added(_) => Seq::<char>::empty(),
    }));
}

// ---- switches ----

/// The ids of the arms, quoted, with commas between them.
pub open spec fn id_list(arms: Seq<ArmView>) -> Seq<char>
    decreases arms.len(),
{
    if arms.len() == 0 {
        Seq::empty()
    } else {
        let one = "\""@ + crate::text::decimal(arms.last().id as nat) + "\""@;
        if arms.len() == 1 {
            one
        } else {
            id_list(arms.drop_last()) + ", "@ + one
        }
    }
}

/// The arms of an expression switch, one after the other.
pub open spec fn ternary_arms(s: Seq<char>, span: Span, arms: Seq<ArmView>) -> Seq<char>
    decreases arms.len(),
{
    if arms.len() == 0 {
        Seq::empty()
    } else {
        ternary_arms(s, span, arms.drop_last()) + ternary_arm(s, span, arms.last())
    }
}

/// One arm of an expression switch: the mutant's test, and the text of the
/// placement with the mutation applied.
pub open spec fn ternary_arm(s: Seq<char>, span: Span, arm: ArmView) -> Seq<char> {
    "stryMutAct_9fa48(\""@ + crate::text::decimal(arm.id as nat) + "\") ? "@
        + crate::collect::text_at(s, Span { start: span.start, end: arm.sub_span.start })
        + arm.replacement + crate::collect::text_at(
        s,
        Span { start: arm.sub_span.end, end: span.end },
    ) + " : "@
}

/// The arms of a statement switch, each of which does nothing.
pub open spec fn if_arms(arms: Seq<ArmView>) -> Seq<char>
    decreases arms.len(),
{
    if arms.len() == 0 {
        Seq::empty()
    } else {
        if_arms(arms.drop_last()) + "if (stryMutAct_9fa48(\""@ + crate::text::decimal(
            arms.last().id as nat,
        ) + "\")) {} else "@
    }
}

/// What a switch puts before the instrumented original.
pub open spec fn opening(s: Seq<char>, site: PlacedView) -> Seq<Piece> {
    let span = site.placement.at();
    match site.placement {
        Placement::Expression(_) => seq![
            Piece::Added(
                "("@ + ternary_arms(s, span, site.arms) + "(stryCov_9fa48("@ + id_list(site.arms)
                    + "), "@,
            ),
        ],
        Placement::BlockBody { .. } => seq![
            Piece::Kept(Span { start: span.start, end: (span.start + 1) as u32 }),
            Piece::Added(
                " "@ + if_arms(site.arms) + "{ stryCov_9fa48("@ + id_list(site.arms) + "); "@,
            ),
        ],
        Placement::Statements { .. } => seq![
            Piece::Added(if_arms(site.arms) + "{ stryCov_9fa48("@ + id_list(site.arms) + "); "@),
        ],
    }
}

/// What a switch puts behind the instrumented original.
pub open spec fn closing(site: PlacedView) -> Seq<Piece> {
    let span = site.placement.at();
    match site.placement {
        Placement::Expression(_) => seq![Piece::Added("))"@)],
        Placement::BlockBody { .. } => seq![
            Piece::Added(" } "@),
            Piece::Kept(Span { start: (span.end - 1) as u32, end: span.end }),
        ],
        Placement::Statements { .. } => seq![Piece::Added(" }"@)],
    }
}

/// The part of the source inside a switch: all of its placement but the braces
/// of a block.
pub open spec fn inside(site: PlacedView) -> Span {
    let span = site.placement.at();
    match site.placement {
        Placement::BlockBody { .. } => Span {
            start: (span.start + 1) as u32,
            end: (span.end - 1) as u32,
        },
        _ => span,
    }
}

/// The source from `cursor` to `end` with the switches of the sites from index
/// `k` on that begin before `end`, and the index of the first that does not.
/// The sites stand outer-first, left to right.
pub open spec fn rendered(
    s: Seq<char>,
    all: Seq<PlacedView>,
    k: int,
    cursor: u32,
    end: u32,
) -> (Seq<Piece>, int)
    decreases all.len() - k,
{
    if k < 0 || k >= all.len() || all[k].placement.at().start >= end {
        (seq![Piece::Kept(Span { start: cursor, end })], k)
    } else {
        let site = all[k];
        let span = site.placement.at();
        let (body, next) = rendered(s, all, k + 1, inside(site).start, inside(site).end);
        if k < next <= all.len() {
            let (rest, last) = rendered(s, all, next, span.end, end);
            (
                seq![Piece::Kept(Span { start: cursor, end: span.start })] + opening(s, site) + body
                    + closing(site) + rest,
                last,
            )
        } else {
            (Seq::empty(), k)
        }
    }
}

/// Where the part of a file begins that follows a `#!` line.
pub open spec fn body_start(s: Seq<char>) -> int {
    if crate::text::begins(s, "#!"@) {
        match crate::text::find(s, seq!['\n']) {
            Some(i) => crate::source::byte_len(s.take(i + 1)) as int,
            None => crate::source::byte_len(s) as int,
        }
    } else {
        0
    }
}

/// The pieces of the instrumented file; a `#!` line stays first, before the header.
pub open spec fn instrumented_pieces(
    s: Seq<char>,
    header: Seq<char>,
    all: Seq<PlacedView>,
) -> Seq<Piece> {
    let start = body_start(s) as u32;
    seq![Piece::Kept(Span { start: 0, end: start }), Piece::Added(header)] + rendered(
        s,
        all,
        0,
        start,
        crate::source::byte_len(s) as u32,
    ).0
}

// ---- which sites can be placed ----

/// A site whose spans are spans of the source: of an expression every arm
/// replaces a part of it, a block stands in braces.
pub open spec fn fits(s: Seq<char>, site: PlacedView) -> bool {
    let span = site.placement.at();
    &&& crate::source::is_span(s, span.start as int, span.end as int)
    &&& span.start < span.end
    &&& body_start(s) <= span.start
    &&& match site.placement {
        Placement::Expression(_) => forall|i: int|
            0 <= i < site.arms.len() ==> fits_arm(s, span, #[trigger] site.arms[i]),
        Placement::BlockBody { .. } => {
            &&& span.start + 2 <= span.end
            &&& crate::collect::text_at(
                s,
                Span { start: span.start, end: (span.start + 1) as u32 },
            ) == "{"@
            &&& crate::collect::text_at(s, Span { start: (span.end - 1) as u32, end: span.end })
                == "}"@
        },
        Placement::Statements { .. } => true,
    }
}

/// An arm that replaces a part of the placement.
pub open spec fn fits_arm(s: Seq<char>, span: Span, arm: ArmView) -> bool {
    &&& crate::source::is_span(s, arm.sub_span.start as int, arm.sub_span.end as int)
    &&& span.start <= arm.sub_span.start
    &&& arm.sub_span.end <= span.end
}

/// Of two sites in order, the second lies inside the first or behind it.
pub open spec fn nests(a: PlacedView, b: PlacedView) -> bool {
    ||| a.placement.at().end <= b.placement.at().start
    ||| inside(a).start <= b.placement.at().start && b.placement.at().end <= inside(a).end
}

/// Sites that can be placed together.
pub open spec fn well_placed(s: Seq<char>, all: Seq<PlacedView>) -> bool {
    &&& forall|i: int| 0 <= i < all.len() ==> fits(s, #[trigger] all[i])
    &&& forall|i: int, j: int|
        0 <= i < j < all.len() ==> nests(#[trigger] all[i], #[trigger] all[j])
}

/// The sites outer-first, left to right.
pub open spec fn in_order(sites: Seq<PlacedView>) -> Seq<PlacedView> {
    crate::sort::stable(sites, by_span())
}

fn arm_fits(source: &Source, span: Span, arm: &Arm) -> (r: bool)
    ensures
        r == fits_arm(source.text(), span, arm@),
{
    source.has_span(arm.sub_span.start, arm.sub_span.end) && span.start <= arm.sub_span.start
        && arm.sub_span.end <= span.end
}

fn start_of_body(source: &Source) -> (r: u32)
    ensures
        r == body_start(source.text()),
        crate::source::is_boundary(source.text(), r as int),
{
    let ghost s = source.text();
    proof {
        crate::source::lemma_ends(s);
        reveal_strlit("#!");
        assert("#!"@ =~= seq!['#', '!']);
    }
    let chars = source.chars();
    let total = chars.len();
    let mut mark: Vec<char> = Vec::new();
    mark.push('#');
    mark.push('!');
    proof {
        assert(mark@ =~= "#!"@);
    }
    if !crate::text::stands_at(chars, &mark, 0) {
        return 0;
    }
    let mut feed: Vec<char> = Vec::new();
    feed.push('\n');
    proof {
        assert(feed@ =~= seq!['\n']);
        crate::text::lemma_find_from(s, seq!['\n'], 0);
    }
    match crate::text::find_chars(chars, &feed, 0) {
        Some(i) => {
            let r = source.offset_of(i + 1);
            proof {
                crate::source::lemma_index_at(s, i + 1, r as int);
            }
            r
        },
        None => source.len(),
    }
}

fn site_fits(source: &Source, body: u32, site: &PlacedSite) -> (r: bool)
    requires
        body == body_start(source.text()),
    ensures
        r == fits(source.text(), site@),
{
    let ghost s = source.text();
    let span = site.placement.span();
    if !source.has_span(span.start, span.end) || span.start >= span.end || span.start < body {
        return false;
    }
    match site.placement {
        Placement::Expression(_) => {
            let ghost arms = arm_views(site.arms@);
            let mut i: usize = 0;
            while i < site.arms.len()
                invariant
                    i <= site.arms@.len(),
                    s == source.text(),
                    arms == arm_views(site.arms@),
                    arms == site@.arms,
                    span == site@.placement.at(),
                    site@.placement is Expression,
                    forall|k: int| 0 <= k < i ==> fits_arm(s, span, #[trigger] arms[k]),
                decreases site.arms@.len() - i,
            {
                if !arm_fits(source, span, &site.arms[i]) {
                    proof {
                        assert(!fits_arm(s, span, site@.arms[i as int]));
                    }
                    return false;
                }
                i = i + 1;
            }
            true
        },
        Placement::BlockBody { block: _ } => {
            if span.end - span.start < 2 {
                return false;
            }
            let open = read_at(source, Span { start: span.start, end: span.start + 1 });
            let close = read_at(source, Span { start: span.end - 1, end: span.end });
            crate::text::same(open.as_str(), "{") && crate::text::same(close.as_str(), "}")
        },
        Placement::Statements { span: _ } => true,
    }
}

fn site_inside(site: &PlacedSite) -> (r: Span)
    requires
        site.placement is BlockBody ==> site.placement.at().start < u32::MAX
            && site.placement.at().end > 0,
    ensures
        r == inside(site@),
{
    let span = site.placement.span();
    match site.placement {
        Placement::BlockBody { block: _ } => Span { start: span.start + 1, end: span.end - 1 },
        _ => span,
    }
}

/// Whether sites in order can be placed together.
fn check_placed(source: &Source, all: &Vec<PlacedSite>) -> (r: bool)
    ensures
        r == well_placed(source.text(), placed_views(all@)),
{
    let ghost s = source.text();
    let ghost views = placed_views(all@);
    let body = start_of_body(source);
    let total = all.len();
    let mut i: usize = 0;
    while i < total
        invariant
            i <= total == all@.len(),
            s == source.text(),
            body == body_start(s),
            views == placed_views(all@),
            forall|k: int| 0 <= k < i ==> fits(s, #[trigger] views[k]),
        decreases total - i,
    {
        proof {
            assert(views[i as int] == all@[i as int]@);
        }
        if !site_fits(source, body, &all[i]) {
            return false;
        }
        i = i + 1;
    }
    let mut a: usize = 0;
    while a < total
        invariant
            a <= total == all@.len(),
            views == placed_views(all@),
            forall|k: int| 0 <= k < total ==> fits(s, #[trigger] views[k]),
            forall|x: int, y: int|
                0 <= x < a && x < y < total ==> nests(#[trigger] views[x], #[trigger] views[y]),
        decreases total - a,
    {
        proof {
            assert(fits(s, views[a as int]));
            assert(views[a as int] == all@[a as int]@);
        }
        let outer = all[a].placement.span();
        let inner = site_inside(&all[a]);
        let mut b: usize = a + 1;
        while b < total
            invariant
                a < b <= total == all@.len(),
                views == placed_views(all@),
                outer == views[a as int].placement.at(),
                inner == inside(views[a as int]),
                forall|y: int| a < y < b ==> nests(views[a as int], #[trigger] views[y]),
            decreases total - b,
        {
            let other = all[b].placement.span();
            proof {
                assert(views[b as int] == all@[b as int]@);
            }
            if !(outer.end <= other.start || (inner.start <= other.start && other.end
                <= inner.end)) {
                proof {
                    assert(!nests(views[a as int], views[b as int]));
                }
                return false;
            }
            b = b + 1;
        }
        a = a + 1;
    }
    true
}

/// Puts sites in order, outer-first and left to right, where they can be placed
/// together.
pub fn ordered(source: &Source, sites: Vec<PlacedSite>) -> (r: Option<Vec<PlacedSite>>)
    ensures
        match r {
            Some(all) => placed_views(all@) == in_order(placed_views(sites@)) && well_placed(
                source.text(),
                placed_views(all@),
            ),
            None => !well_placed(source.text(), in_order(placed_views(sites@))),
        },
{
    proof {
        crate::sort::lemma_stable_map(
            sites@,
            |p: PlacedSite| p@,
            crate::sort::by_rank::<PlacedSite>(),
            by_span(),
        );
    }
    let all = sort_by_rank(sites);
    if check_placed(source, &all) {
        Some(all)
    } else {
        None
    }
}

// ---- writing ----

fn write_ids(arms: &Vec<Arm>) -> (r: String)
    ensures
        r@ == id_list(arm_views(arms@)),
{
    let ghost views = arm_views(arms@);
    let mut out = String::new();
    let mut i: usize = 0;
    proof {
        assert(out@ =~= id_list(views.take(0)));
    }
    while i < arms.len()
        invariant
            i <= arms@.len(),
            views == arm_views(arms@),
            out@ == id_list(views.take(i as int)),
        decreases arms@.len() - i,
    {
        proof {
            assert(views.take(i + 1).drop_last() =~= views.take(i as int));
            assert(views.take(i + 1).last() == arms@[i as int]@);
        }
        if i > 0 {
            out.append(", ");
        }
        let id = number(arms[i].id as u64);
        let one = crate::text::concat3("\"", id.as_str(), "\"");
        out.append(one.as_str());
        i = i + 1;
        proof {
            assert(out@ =~= id_list(views.take(i as int)));
        }
    }
    proof {
        assert(views.take(arms@.len() as int) =~= views);
    }
    out
}

fn write_arm(source: &Source, span: Span, arm: &Arm, out: &mut String)
    ensures
        final(out)@ == old(out)@ + ternary_arm(source.text(), span, arm@),
{
    let ghost begun = out@;
    let id = number(arm.id as u64);
    let head = read_at(source, Span { start: span.start, end: arm.sub_span.start });
    let tail = read_at(source, Span { start: arm.sub_span.end, end: span.end });
    out.append("stryMutAct_9fa48(\"");
    out.append(id.as_str());
    out.append("\") ? ");
    out.append(head.as_str());
    out.append(arm.replacement.as_str());
    out.append(tail.as_str());
    out.append(" : ");
    proof {
        assert(out@ =~= begun + ternary_arm(source.text(), span, arm@));
    }
}

fn write_ternary(source: &Source, span: Span, arms: &Vec<Arm>, out: &mut String)
    ensures
        final(out)@ == old(out)@ + ternary_arms(source.text(), span, arm_views(arms@)),
{
    let ghost s = source.text();
    let ghost views = arm_views(arms@);
    let ghost begun = out@;
    let mut i: usize = 0;
    proof {
        assert(out@ =~= begun + ternary_arms(s, span, views.take(0)));
    }
    while i < arms.len()
        invariant
            i <= arms@.len(),
            s == source.text(),
            views == arm_views(arms@),
            out@ == begun + ternary_arms(s, span, views.take(i as int)),
        decreases arms@.len() - i,
    {
        proof {
            assert(views.take(i + 1).drop_last() =~= views.take(i as int));
            assert(views.take(i + 1).last() == arms@[i as int]@);
        }
        write_arm(source, span, &arms[i], out);
        i = i + 1;
        proof {
            assert(out@ =~= begun + ternary_arms(s, span, views.take(i as int)));
        }
    }
    proof {
        assert(views.take(arms@.len() as int) =~= views);
    }
}

fn write_ifs(arms: &Vec<Arm>, out: &mut String)
    ensures
        final(out)@ == old(out)@ + if_arms(arm_views(arms@)),
{
    let ghost views = arm_views(arms@);
    let ghost begun = out@;
    let mut i: usize = 0;
    proof {
        assert(out@ =~= begun + if_arms(views.take(0)));
    }
    while i < arms.len()
        invariant
            i <= arms@.len(),
            views == arm_views(arms@),
            out@ == begun + if_arms(views.take(i as int)),
        decreases arms@.len() - i,
    {
        proof {
            assert(views.take(i + 1).drop_last() =~= views.take(i as int));
            assert(views.take(i + 1).last() == arms@[i as int]@);
        }
        let id = number(arms[i].id as u64);
        out.append("if (stryMutAct_9fa48(\"");
        out.append(id.as_str());
        out.append("\")) {} else ");
        i = i + 1;
        proof {
            assert(out@ =~= begun + if_arms(views.take(i as int)));
        }
    }
    proof {
        assert(views.take(arms@.len() as int) =~= views);
    }
}

fn write_opening(source: &Source, site: &PlacedSite, out: &mut String)
    requires
        fits(source.text(), site@),
    ensures
        final(out)@ == old(out)@ + pieces_text(source.text(), opening(source.text(), site@)),
{
    let ghost s = source.text();
    let ghost begun = out@;
    let span = site.placement.span();
    let ids = write_ids(&site.arms);
    match site.placement {
        Placement::Expression(_) => {
            out.append("(");
            write_ternary(source, span, &site.arms, out);
            out.append("(stryCov_9fa48(");
            out.append(ids.as_str());
            out.append("), ");
            proof {
                lemma_one_piece(s, opening(s, site@)[0]);
                assert(out@ =~= begun + pieces_text(s, opening(s, site@)));
            }
        },
        Placement::BlockBody { block: _ } => {
            let brace = read_at(source, Span { start: span.start, end: span.start + 1 });
            out.append(brace.as_str());
            out.append(" ");
            write_ifs(&site.arms, out);
            out.append("{ stryCov_9fa48(");
            out.append(ids.as_str());
            out.append("); ");
            proof {
                let ps = opening(s, site@);
                lemma_one_piece(s, ps[0]);
                lemma_one_piece(s, ps[1]);
                lemma_pieces_join(s, seq![ps[0]], seq![ps[1]]);
                assert(ps =~= seq![ps[0]] + seq![ps[1]]);
                assert(out@ =~= begun + pieces_text(s, opening(s, site@)));
            }
        },
        Placement::Statements { span: _ } => {
            write_ifs(&site.arms, out);
            out.append("{ stryCov_9fa48(");
            out.append(ids.as_str());
            out.append("); ");
            proof {
                lemma_one_piece(s, opening(s, site@)[0]);
                assert(out@ =~= begun + pieces_text(s, opening(s, site@)));
            }
        },
    }
}

fn write_closing(source: &Source, site: &PlacedSite, out: &mut String)
    requires
        fits(source.text(), site@),
    ensures
        final(out)@ == old(out)@ + pieces_text(source.text(), closing(site@)),
{
    let ghost s = source.text();
    let ghost begun = out@;
    let span = site.placement.span();
    match site.placement {
        Placement::Expression(_) => {
            out.append("))");
            proof {
                lemma_one_piece(s, closing(site@)[0]);
            }
        },
        Placement::BlockBody { block: _ } => {
            let brace = read_at(source, Span { start: span.end - 1, end: span.end });
            out.append(" } ");
            out.append(brace.as_str());
            proof {
                let ps = closing(site@);
                lemma_one_piece(s, ps[0]);
                lemma_one_piece(s, ps[1]);
                lemma_pieces_join(s, seq![ps[0]], seq![ps[1]]);
                assert(ps =~= seq![ps[0]] + seq![ps[1]]);
                assert(out@ =~= begun + pieces_text(s, closing(site@)));
            }
        },
        Placement::Statements { span: _ } => {
            out.append(" }");
            proof {
                lemma_one_piece(s, closing(site@)[0]);
            }
        },
    }
}

proof fn lemma_rendered_next(s: Seq<char>, all: Seq<PlacedView>, k: int, cursor: u32, end: u32)
    requires
        0 <= k <= all.len(),
    ensures
        k <= rendered(s, all, k, cursor, end).1 <= all.len(),
    decreases all.len() - k,
{
    if k < all.len() && all[k].placement.at().start < end {
        let site = all[k];
        lemma_rendered_next(s, all, k + 1, inside(site).start, inside(site).end);
        let next = rendered(s, all, k + 1, inside(site).start, inside(site).end).1;
        lemma_rendered_next(s, all, next, site.placement.at().end, end);
    }
}

fn render(source: &Source, all: &Vec<PlacedSite>, k: usize, cursor: u32, end: u32, out: &mut String) -> (r:
    usize)
    requires
        k <= all@.len(),
        forall|i: int| 0 <= i < all@.len() ==> fits(source.text(), (#[trigger] all@[i])@),
    ensures
        r == rendered(source.text(), placed_views(all@), k as int, cursor, end).1,
        final(out)@ == old(out)@ + pieces_text(
            source.text(),
            rendered(source.text(), placed_views(all@), k as int, cursor, end).0,
        ),
        r <= all@.len(),
    decreases all@.len() - k,
{
    let ghost s = source.text();
    let ghost views = placed_views(all@);
    let ghost begun = out@;
    proof {
        lemma_rendered_next(s, views, k as int, cursor, end);
    }
    if k >= all.len() || all[k].placement.span().start >= end {
        let text = read_at(source, Span { start: cursor, end });
        out.append(text.as_str());
        proof {
            lemma_one_piece(s, Piece::Kept(Span { start: cursor, end }));
        }
        return k;
    }
    let site = &all[k];
    let span = site.placement.span();
    proof {
        assert(views[k as int] == site@);
        assert(fits(s, all@[k as int]@));
    }
    let text = read_at(source, Span { start: cursor, end: span.start });
    out.append(text.as_str());
    write_opening(source, site, out);
    let inner = site_inside(site);
    proof {
        lemma_rendered_next(s, views, k + 1, inner.start, inner.end);
    }
    let next = render(source, all, k + 1, inner.start, inner.end, out);
    write_closing(source, site, out);
    let last = render(source, all, next, span.end, end, out);
    proof {
        let head = seq![Piece::Kept(Span { start: cursor, end: span.start })];
        let body = rendered(s, views, k + 1, inner.start, inner.end).0;
        let rest = rendered(s, views, next as int, span.end, end).0;
        lemma_one_piece(s, head[0]);
        lemma_pieces_join(s, head, opening(s, site@));
        lemma_pieces_join(s, head + opening(s, site@), body);
        lemma_pieces_join(s, head + opening(s, site@) + body, closing(site@));
        lemma_pieces_join(s, head + opening(s, site@) + body + closing(site@), rest);
        assert(out@ =~= begun + pieces_text(
            s,
            rendered(s, views, k as int, cursor, end).0,
        ));
    }
    last
}

/// The instrumented text of a file, its sites given in order.
pub fn build_instrumented(source: &Source, header: &str, all: &Vec<PlacedSite>) -> (r: String)
    requires
        well_placed(source.text(), placed_views(all@)),
    ensures
        r@ == pieces_text(
            source.text(),
            instrumented_pieces(source.text(), header@, placed_views(all@)),
        ),
{
    let ghost s = source.text();
    let ghost views = placed_views(all@);
    let start = start_of_body(source);
    let mut out = read_at(source, Span { start: 0, end: start });
    out.append(header);
    proof {
        assert forall|i: int| 0 <= i < all@.len() implies fits(s, (#[trigger] all@[i])@) by {
            assert(fits(s, views[i]));
        }
        let first = Piece::Kept(Span { start: 0, end: start });
        let second = Piece::Added(header@);
        lemma_one_piece(s, first);
        lemma_one_piece(s, second);
        lemma_pieces_join(s, seq![first], seq![second]);
        assert(seq![first, second] =~= seq![first] + seq![second]);
        lemma_pieces_join(
            s,
            seq![first, second],
            rendered(s, views, 0, start, crate::source::byte_len(s) as u32).0,
        );
    }
    render(source, all, 0, start, source.len(), &mut out);
    out
}

// ---- what holds of the output ----

/// What `rendered` needs to know of the sites that are left.
spec fn left_inside(all: Seq<PlacedView>, k: int, cursor: int, end: int) -> bool {
    forall|j: int|
        k <= j < all.len() ==> cursor <= (#[trigger] all[j]).placement.at().start && (
        all[j].placement.at().start >= end || all[j].placement.at().end <= end)
}

#[verifier::rlimit(30)]
proof fn lemma_kept(s: Seq<char>, all: Seq<PlacedView>, k: int, cursor: u32, end: u32)
    requires
        well_placed(s, all),
        0 <= k <= all.len(),
        crate::source::is_span(s, cursor as int, end as int),
        left_inside(all, k, cursor as int, end as int),
        forall|i: int, j: int|
            0 <= i < j < all.len() ==> (#[trigger] all[i]).placement.at().start <= (
            #[trigger] all[j]).placement.at().start,
    ensures
        k <= rendered(s, all, k, cursor, end).1 <= all.len(),
        kept_text(s, rendered(s, all, k, cursor, end).0) == crate::source::slice(
            s,
            cursor as int,
            end as int,
        ),
        rendered(s, all, k, cursor, end).1 < all.len() ==> all[rendered(
            s,
            all,
            k,
            cursor,
            end,
        ).1].placement.at().start >= end,
    decreases all.len() - k,
{
    if k >= all.len() || all[k].placement.at().start >= end {
        lemma_one_piece(s, Piece::Kept(Span { start: cursor, end }));
    } else {
        let site = all[k];
        let span = site.placement.at();
        let inner = inside(site);
        assert(fits(s, site));
        lemma_inner_span(s, site);
        assert(left_inside(all, k + 1, inner.start as int, inner.end as int)) by {
            assert forall|j: int| k + 1 <= j < all.len() implies inner.start <= (
            #[trigger] all[j]).placement.at().start && (all[j].placement.at().start >= inner.end
                || all[j].placement.at().end <= inner.end) by {
                assert(nests(all[k], all[j]));
            }
        }
        lemma_kept(s, all, k + 1, inner.start, inner.end);
        let (body, next) = rendered(s, all, k + 1, inner.start, inner.end);
        assert(left_inside(all, next, span.end as int, end as int)) by {
            assert forall|j: int| next <= j < all.len() implies span.end <= (
            #[trigger] all[j]).placement.at().start && (all[j].placement.at().start >= end
                || all[j].placement.at().end <= end) by {
                assert(nests(all[k], all[j]));
                assert(fits(s, all[j]));
                assert(all[next].placement.at().start >= inner.end);
                if next < j {
                    assert(all[next].placement.at().start <= all[j].placement.at().start);
                }
            }
        }
        assert(all[k].placement.at().end <= end);
        lemma_kept(s, all, next, span.end, end);
        let rest = rendered(s, all, next, span.end, end).0;
        lemma_compose(s, cursor, site, body, rest, end);
    }
}

proof fn lemma_compose(
    s: Seq<char>,
    cursor: u32,
    site: PlacedView,
    body: Seq<Piece>,
    rest: Seq<Piece>,
    end: u32,
)
    requires
        fits(s, site),
        cursor <= site.placement.at().start,
        site.placement.at().end <= end,
        crate::source::is_span(s, cursor as int, end as int),
        kept_text(s, body) == crate::source::slice(
            s,
            inside(site).start as int,
            inside(site).end as int,
        ),
        kept_text(s, rest) == crate::source::slice(
            s,
            site.placement.at().end as int,
            end as int,
        ),
    ensures
        kept_text(
            s,
            seq![Piece::Kept(Span { start: cursor, end: site.placement.at().start })] + opening(
                s,
                site,
            ) + body + closing(site) + rest,
        ) == crate::source::slice(s, cursor as int, end as int),
{
    let span = site.placement.at();
    let head = seq![Piece::Kept(Span { start: cursor, end: span.start })];
    let middle = opening(s, site) + body + closing(site);
    lemma_site_kept(s, site, body);
    lemma_one_piece(s, head[0]);
    lemma_pieces_join(s, head, middle);
    lemma_pieces_join(s, head + middle, rest);
    assert(head + opening(s, site) + body + closing(site) + rest =~= head + middle + rest);
    crate::source::lemma_slices_join(s, cursor as int, span.start as int, span.end as int);
    crate::source::lemma_slices_join(s, cursor as int, span.end as int, end as int);
}

proof fn lemma_inner_span(s: Seq<char>, site: PlacedView)
    requires
        fits(s, site),
    ensures
        crate::source::is_span(s, inside(site).start as int, inside(site).end as int),
        site.placement.at().start <= inside(site).start,
        inside(site).end <= site.placement.at().end,
{
    let span = site.placement.at();
    if site.placement is BlockBody {
        reveal_strlit("{");
        reveal_strlit("}");
        let open = Span { start: span.start, end: (span.start + 1) as u32 };
        let close = Span { start: (span.end - 1) as u32, end: span.end };
        assert(crate::collect::text_at(s, open).len() == 1);
        assert(crate::collect::text_at(s, close).len() == 1);
        assert(crate::source::is_span(s, open.start as int, open.end as int));
        assert(crate::source::is_span(s, close.start as int, close.end as int));
    }
}

proof fn lemma_site_kept(s: Seq<char>, site: PlacedView, body: Seq<Piece>)
    requires
        fits(s, site),
        kept_text(s, body) == crate::source::slice(
            s,
            inside(site).start as int,
            inside(site).end as int,
        ),
    ensures
        kept_text(s, opening(s, site) + body + closing(site)) == crate::source::slice(
            s,
            site.placement.at().start as int,
            site.placement.at().end as int,
        ),
{
    let span = site.placement.at();
    let inner = inside(site);
    let before = opening(s, site);
    let after = closing(site);
    lemma_inner_span(s, site);
    lemma_pieces_join(s, before, body);
    lemma_pieces_join(s, before + body, after);
    match site.placement {
        Placement::BlockBody { .. } => {
            lemma_one_piece(s, before[0]);
            lemma_one_piece(s, before[1]);
            lemma_pieces_join(s, seq![before[0]], seq![before[1]]);
            assert(before =~= seq![before[0]] + seq![before[1]]);
            lemma_one_piece(s, after[0]);
            lemma_one_piece(s, after[1]);
            lemma_pieces_join(s, seq![after[0]], seq![after[1]]);
            assert(after =~= seq![after[0]] + seq![after[1]]);
            reveal_strlit("{");
            reveal_strlit("}");
            let open = Span { start: span.start, end: (span.start + 1) as u32 };
            let close = Span { start: (span.end - 1) as u32, end: span.end };
            assert(crate::collect::text_at(s, open).len() == 1);
            assert(crate::collect::text_at(s, close).len() == 1);
            crate::source::lemma_slices_join(
                s,
                span.start as int,
                inner.start as int,
                inner.end as int,
            );
            crate::source::lemma_slices_join(
                s,
                span.start as int,
                inner.end as int,
                span.end as int,
            );
            assert(kept_text(s, before) =~= crate::collect::text_at(s, open));
            assert(kept_text(s, after) =~= crate::collect::text_at(s, close));
        },
        _ => {
            lemma_one_piece(s, before[0]);
            lemma_one_piece(s, after[0]);
            assert(kept_text(s, before + body + after) =~= kept_text(s, body));
        },
    }
}

/// Byte-exact instrumentation: what the instrumented file has from the source,
/// in its order, is the source, whole and unchanged.
pub proof fn law_source_is_kept(s: Seq<char>, header: Seq<char>, sites: Seq<PlacedView>)
    requires
        well_placed(s, in_order(sites)),
        crate::source::byte_len(s) <= u32::MAX,
    ensures
        kept_text(s, instrumented_pieces(s, header, in_order(sites))) == s,
{
    let all = in_order(sites);
    let start = body_start(s) as u32;
    let len = crate::source::byte_len(s) as u32;
    crate::sort::law_stable_sorts(sites, by_span());
    assert forall|i: int, j: int| 0 <= i < j < all.len() implies (
    #[trigger] all[i]).placement.at().start <= (#[trigger] all[j]).placement.at().start by {
        let rank = by_span();
        assert(rank(all[i]) <= rank(all[j]));
    }
    lemma_body_start(s);
    crate::source::lemma_ends(s);
    crate::source::lemma_slice_all(s);
    assert(left_inside(all, 0, start as int, len as int)) by {
        assert forall|j: int| 0 <= j < all.len() implies start <= (
        #[trigger] all[j]).placement.at().start && (all[j].placement.at().start >= len
            || all[j].placement.at().end <= len) by {
            assert(fits(s, all[j]));
            crate::source::lemma_boundary_order(
                s,
                all[j].placement.at().start as int,
                all[j].placement.at().end as int,
            );
        }
    }
    lemma_kept(s, all, 0, start, len);
    let first = Piece::Kept(Span { start: 0, end: start });
    let second = Piece::Added(header);
    lemma_one_piece(s, first);
    lemma_one_piece(s, second);
    lemma_pieces_join(s, seq![first], seq![second]);
    assert(seq![first, second] =~= seq![first] + seq![second]);
    lemma_pieces_join(s, seq![first, second], rendered(s, all, 0, start, len).0);
    crate::source::lemma_slices_join(s, 0, start as int, len as int);
    assert(kept_text(s, instrumented_pieces(s, header, all)) =~= s);
}

proof fn lemma_body_start(s: Seq<char>)
    ensures
        0 <= body_start(s) <= crate::source::byte_len(s),
        crate::source::is_boundary(s, body_start(s)),
{
    crate::source::lemma_ends(s);
    crate::text::lemma_find_from(s, seq!['\n'], 0);
    if crate::text::begins(s, "#!"@) {
        match crate::text::find(s, seq!['\n']) {
            Some(i) => {
                crate::source::lemma_offsets_grow(s, i + 1, s.len() as int);
                assert(s.take(s.len() as int) =~= s);
                crate::source::lemma_index_at(s, i + 1, body_start(s));
            },
            None => {},
        }
    }
}

// ---- what a switch says ----

/// The text of a switch with nothing nested in it.
pub open spec fn switch_text(s: Seq<char>, site: PlacedView) -> Seq<char> {
    pieces_text(s, opening(s, site) + seq![Piece::Kept(inside(site))] + closing(site))
}

/// The text of a span with a part of it replaced.
pub open spec fn with_replaced(s: Seq<char>, span: Span, arm: ArmView) -> Seq<char> {
    crate::collect::text_at(s, Span { start: span.start, end: arm.sub_span.start })
        + arm.replacement + crate::collect::text_at(
        s,
        Span { start: arm.sub_span.end, end: span.end },
    )
}

/// The switch of an expression asks for each of its mutants in turn, gives the
/// expression with that mutant's part replaced where it is the active one, and
/// otherwise counts the hit and gives the expression as it was.
pub proof fn law_expression_switches(s: Seq<char>, span: Span, arms: Seq<ArmView>)
    ensures
        switch_text(s, PlacedView { placement: Placement::Expression(span), arms }) == "("@
            + ternary_arms(s, span, arms) + "(stryCov_9fa48("@ + id_list(arms) + "), "@
            + crate::collect::text_at(s, span) + "))"@,
        arms.len() == 1 ==> ternary_arms(s, span, arms) == "stryMutAct_9fa48(\""@
            + crate::text::decimal(arms[0].id as nat) + "\") ? "@ + with_replaced(s, span, arms[0])
            + " : "@,
        arms.len() > 1 ==> ternary_arms(s, span, arms) == ternary_arms(s, span, arms.drop_last())
            + "stryMutAct_9fa48(\""@ + crate::text::decimal(arms.last().id as nat) + "\") ? "@
            + with_replaced(s, span, arms.last()) + " : "@,
{
    let site = PlacedView { placement: Placement::Expression(span), arms };
    let open = opening(s, site);
    let kept = seq![Piece::Kept(inside(site))];
    let close = closing(site);
    lemma_pieces_join(s, open + kept, close);
    lemma_pieces_join(s, open, kept);
    lemma_one_piece(s, open[0]);
    lemma_one_piece(s, Piece::Kept(inside(site)));
    lemma_one_piece(s, close[0]);
    assert(open =~= seq![open[0]]);
    assert(close =~= seq![close[0]]);
    assert(switch_text(s, site) =~= "("@ + ternary_arms(s, span, arms) + "(stryCov_9fa48("@
        + id_list(arms) + "), "@ + crate::collect::text_at(s, span) + "))"@);
    if arms.len() > 0 {
        let a = arms.last();
        assert(ternary_arm(s, span, a) =~= "stryMutAct_9fa48(\""@ + crate::text::decimal(
            a.id as nat,
        ) + "\") ? "@ + with_replaced(s, span, a) + " : "@);
        assert(ternary_arms(s, span, arms) =~= ternary_arms(s, span, arms.drop_last())
            + "stryMutAct_9fa48(\""@ + crate::text::decimal(a.id as nat) + "\") ? "@
            + with_replaced(s, span, a) + " : "@);
        if arms.len() == 1 {
            assert(ternary_arms(s, span, arms.drop_last()) =~= Seq::<char>::empty());
            assert(ternary_arms(s, span, arms) =~= "stryMutAct_9fa48(\""@ + crate::text::decimal(
                a.id as nat,
            ) + "\") ? "@ + with_replaced(s, span, a) + " : "@);
        }
    }
}

/// The switch of a block, inside its braces, does nothing where one of its mutants
/// is the active one, and otherwise counts the hit and does what the block did. A
/// list of statements gets the same without braces of its own.
pub proof fn law_statement_switches(s: Seq<char>, span: Span, arms: Seq<ArmView>)
    requires
        span.start + 2 <= span.end,
    ensures
        switch_text(s, PlacedView { placement: Placement::Statements { span }, arms }) == if_arms(
            arms,
        ) + "{ stryCov_9fa48("@ + id_list(arms) + "); "@ + crate::collect::text_at(s, span)
            + " }"@,
        switch_text(s, PlacedView { placement: Placement::BlockBody { block: span }, arms })
            == crate::collect::text_at(
            s,
            Span { start: span.start, end: (span.start + 1) as u32 },
        ) + " "@ + if_arms(arms) + "{ stryCov_9fa48("@ + id_list(arms) + "); "@
            + crate::collect::text_at(
            s,
            Span { start: (span.start + 1) as u32, end: (span.end - 1) as u32 },
        ) + " } "@ + crate::collect::text_at(
            s,
            Span { start: (span.end - 1) as u32, end: span.end },
        ),
        arms.len() > 0 ==> if_arms(arms) == if_arms(arms.drop_last()) + "if (stryMutAct_9fa48(\""@
            + crate::text::decimal(arms.last().id as nat) + "\")) {} else "@,
        arms.len() == 0 ==> if_arms(arms).len() == 0,
{
    let plain = PlacedView { placement: Placement::Statements { span }, arms };
    let open = opening(s, plain);
    let kept = seq![Piece::Kept(inside(plain))];
    let close = closing(plain);
    lemma_pieces_join(s, open + kept, close);
    lemma_pieces_join(s, open, kept);
    lemma_one_piece(s, open[0]);
    lemma_one_piece(s, Piece::Kept(inside(plain)));
    lemma_one_piece(s, close[0]);
    assert(open =~= seq![open[0]]);
    assert(close =~= seq![close[0]]);
    assert(switch_text(s, plain) =~= if_arms(arms) + "{ stryCov_9fa48("@ + id_list(arms) + "); "@
        + crate::collect::text_at(s, span) + " }"@);
    let block = PlacedView { placement: Placement::BlockBody { block: span }, arms };
    let first = opening(s, block);
    let body = seq![Piece::Kept(inside(block))];
    let last = closing(block);
    lemma_pieces_join(s, first + body, last);
    lemma_pieces_join(s, first, body);
    lemma_pieces_join(s, seq![first[0]], seq![first[1]]);
    lemma_pieces_join(s, seq![last[0]], seq![last[1]]);
    lemma_one_piece(s, first[0]);
    lemma_one_piece(s, first[1]);
    lemma_one_piece(s, Piece::Kept(inside(block)));
    lemma_one_piece(s, last[0]);
    lemma_one_piece(s, last[1]);
    assert(first =~= seq![first[0]] + seq![first[1]]);
    assert(last =~= seq![last[0]] + seq![last[1]]);
    assert(switch_text(s, block) =~= crate::collect::text_at(
        s,
        Span { start: span.start, end: (span.start + 1) as u32 },
    ) + " "@ + if_arms(arms) + "{ stryCov_9fa48("@ + id_list(arms) + "); "@
        + crate::collect::text_at(
        s,
        Span { start: (span.start + 1) as u32, end: (span.end - 1) as u32 },
    ) + " } "@ + crate::collect::text_at(
        s,
        Span { start: (span.end - 1) as u32, end: span.end },
    ));
}

/// The hit of a switch is counted for each of its mutants: their ids stand there
/// in quotes, with commas between them.
pub proof fn law_counted_ids(arms: Seq<ArmView>)
    requires
        arms.len() > 0,
    ensures
        arms.len() == 1 ==> id_list(arms) == "\""@ + crate::text::decimal(arms[0].id as nat)
            + "\""@,
        arms.len() > 1 ==> id_list(arms) == id_list(arms.drop_last()) + ", "@ + ("\""@
            + crate::text::decimal(arms.last().id as nat) + "\""@),
{
}

/// Switches are put together from left to right, and of those that start together
/// the outer one first; none is lost.
pub proof fn law_outer_switches_come_first(sites: Seq<PlacedView>, i: int, j: int)
    requires
        0 <= i < j < in_order(sites).len(),
    ensures
        in_order(sites).to_multiset() == sites.to_multiset(),
        ({
            let a = in_order(sites)[i].placement.at();
            let b = in_order(sites)[j].placement.at();
            a.start < b.start || (a.start == b.start && a.end >= b.end)
        }),
{
    let rank = by_span();
    let all = in_order(sites);
    crate::sort::law_stable_sorts(sites, rank);
    assert(rank(all[i]) <= rank(all[j]));
    assert(rank(all[i]) == outer_first(all[i].placement.at()));
    assert(rank(all[j]) == outer_first(all[j].placement.at()));
}

/// The header stands before everything but a first line that names an
/// interpreter.
pub proof fn law_header_comes_first(s: Seq<char>, header: Seq<char>, all: Seq<PlacedView>, i: int)
    requires
        crate::source::byte_len(s) <= u32::MAX,
        s.len() >= 2 && s[0] == '#' && s[1] == '!' ==> 0 <= i < s.len() && s[i] == '\n'
            && forall|k: int| 0 <= k < i ==> #[trigger] s[k] != '\n',
    ensures
        ({
            let text = pieces_text(s, instrumented_pieces(s, header, all));
            let first = if s.len() >= 2 && s[0] == '#' && s[1] == '!' {
                s.take(i + 1)
            } else {
                Seq::empty()
            };
            first + header == text.take((first + header).len() as int) && (first + header).len()
                <= text.len()
        }),
{
    reveal_strlit("#!");
    assert("#!"@.len() == 2 && "#!"@[0] == '#' && "#!"@[1] == '!');
    let named = s.len() >= 2 && s[0] == '#' && s[1] == '!';
    let feed = seq!['\n'];
    assert(crate::text::begins(s, "#!"@) <==> named) by {
        if named {
            assert(s.subrange(0, 2) =~= "#!"@);
        }
        if crate::text::begins(s, "#!"@) {
            assert(s.subrange(0, 2)[0] == '#' && s.subrange(0, 2)[1] == '!');
        }
    }
    let first = if named {
        s.take(i + 1)
    } else {
        Seq::empty()
    };
    let start = body_start(s) as u32;
    lemma_body_start(s);
    crate::source::lemma_ends(s);
    if named {
        crate::text::lemma_find_from(s, feed, 0);
        assert(s.subrange(i, i + 1) =~= feed);
        assert(crate::text::occurs_at(s, feed, i));
        let p = crate::text::find(s, feed)->0;
        assert(s.subrange(p, p + 1)[0] == '\n');
        assert(s[p] == '\n');
        assert(p == i);
        crate::source::lemma_index_at(s, i + 1, body_start(s));
    } else {
        crate::source::lemma_index_at(s, 0, 0);
    }
    let head = seq![Piece::Kept(Span { start: 0, end: start }), Piece::Added(header)];
    let rest = rendered(s, all, 0, start, crate::source::byte_len(s) as u32).0;
    lemma_pieces_join(s, head, rest);
    lemma_pieces_join(s, seq![head[0]], seq![head[1]]);
    lemma_one_piece(s, head[0]);
    lemma_one_piece(s, head[1]);
    assert(head =~= seq![head[0]] + seq![head[1]]);
    assert(crate::collect::text_at(s, Span { start: 0, end: start }) =~= first);
    let text = pieces_text(s, instrumented_pieces(s, header, all));
    assert(text == first + header + pieces_text(s, rest));
    assert(text.take((first + header).len() as int) =~= first + header);
}

} // verus!
