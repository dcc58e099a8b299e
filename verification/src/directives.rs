//! `// Stryker disable` comment directives.
//!
//! Supported forms:
//!   // Stryker disable all
//!   // Stryker disable next-line all
//!   // Stryker disable next-line ConditionalExpression,EqualityOperator: reason
//!   // Stryker restore all
//!   // Stryker restore EqualityOperator
use vstd::prelude::*;

use crate::sort::sort_by_rank;
use crate::sort::Ranked;
use crate::text::chars_of;
use crate::text::same;
use crate::text::split_all;
use crate::text::split_once;
use crate::text::strip;
use crate::text::trim;

verus! {

/// The mutators that a directive speaks of.
#[derive(Debug)]
pub enum Scope {
    All,
    Mutators(Vec<String>),
}

/// What a directive does.
#[derive(Debug, Clone, Copy, PartialEq, Eq, Structural)]
pub enum Kind {
    Disable,
    DisableNextLine,
    Restore,
}

/// One directive, on the line where its comment starts.
#[derive(Debug)]
pub struct Directive {
    pub line: u32,
    pub kind: Kind,
    pub scope: Scope,
    pub reason: Option<String>,
}

/// A comment: the line on which it starts and what stands inside its markers.
#[derive(Debug)]
pub struct CommentLine {
    pub line: u32,
    pub text: String,
}

/// The directives of one file, sorted by line.
#[derive(Debug)]
pub struct DirectiveIndex {
    directives: Vec<Directive>,
}

/// The mathematical value of a scope.
pub enum ScopeView {
    All,
    Mutators(Seq<Seq<char>>),
}

/// The mathematical value of a directive.
pub struct DirectiveView {
    pub line: u32,
    pub kind: Kind,
    pub scope: ScopeView,
    pub reason: Option<Seq<char>>,
}

/// The mathematical value of a comment.
pub struct CommentView {
    pub line: u32,
    pub text: Seq<char>,
}

impl Scope {
    pub open spec fn view(&self) -> ScopeView {
        match self {
            Scope::All => ScopeView::All,
            Scope::Mutators(list) => ScopeView::Mutators(crate::text::texts(list@)),
        }
    }
}

impl Directive {
    pub open spec fn view(&self) -> DirectiveView {
        DirectiveView {
            line: self.line,
            kind: self.kind,
            scope: self.scope@,
            reason: crate::text::opt_text(self.reason),
        }
    }
}

impl CommentLine {
    pub open spec fn view(&self) -> CommentView {
        CommentView { line: self.line, text: self.text@ }
    }
}

impl Ranked for Directive {
    open spec fn rank(self) -> int {
        self.line as int
    }

    fn rank_value(&self) -> u64 {
        self.line as u64
    }
}

/// The values of a list of directives.
pub open spec fn directive_views(v: Seq<Directive>) -> Seq<DirectiveView> {
    v.map_values(|d: Directive| d@)
}

/// The values of a list of comments.
pub open spec fn comment_views(v: Seq<CommentLine>) -> Seq<CommentView> {
    v.map_values(|c: CommentLine| c@)
}

pub const DEFAULT_REASON: &'static str = "Ignored by a \"Stryker disable\" comment";

/// The code of a character with ASCII capitals taken as small letters.
pub open spec fn folded(c: char) -> int {
    if 'A' <= c <= 'Z' {
        c as int + 32
    } else {
        c as int
    }
}

/// Equal up to the case of ASCII letters.
pub open spec fn same_folded(a: Seq<char>, b: Seq<char>) -> bool {
    a.len() == b.len() && forall|i: int| 0 <= i < a.len() ==> folded(#[trigger] a[i]) == folded(b[i])
}

/// Whether a scope takes in a mutator.
pub open spec fn applies(scope: ScopeView, mutator: Seq<char>) -> bool {
    match scope {
        ScopeView::All => true,
        ScopeView::Mutators(list) => listed(list, mutator),
    }
}

/// Whether a list names a mutator, whatever the case of its letters.
pub open spec fn listed(list: Seq<Seq<char>>, mutator: Seq<char>) -> bool {
    exists|i: int| 0 <= i < list.len() && same_folded(#[trigger] list[i], mutator)
}

/// The reason that a directive gives.
pub open spec fn reason_of(d: DirectiveView) -> Seq<char> {
    match d.reason {
        Some(reason) => reason,
        None => DEFAULT_REASON@,
    }
}

/// The reason of the first directive that disables the mutator on exactly `line`.
pub open spec fn next_line_reason(ds: Seq<DirectiveView>, line: u32, mutator: Seq<char>) -> Option<
    Seq<char>,
>
    decreases ds.len(),
{
    if ds.len() == 0 {
        None
    } else if ds[0].kind == Kind::DisableNextLine && ds[0].line + 1 == line && applies(
        ds[0].scope,
        mutator,
    ) {
        Some(reason_of(ds[0]))
    } else {
        next_line_reason(ds.skip(1), line, mutator)
    }
}

/// The reason that is in force on `line`: that of the last `disable` above it
/// that takes in the mutator, unless a later `restore` above it does so too.
pub open spec fn standing_reason(ds: Seq<DirectiveView>, line: u32, mutator: Seq<char>) -> Option<
    Seq<char>,
>
    decreases ds.len(),
{
    if ds.len() == 0 {
        None
    } else {
        let d = ds.last();
        if d.line >= line || d.kind == Kind::DisableNextLine || !applies(d.scope, mutator) {
            standing_reason(ds.drop_last(), line, mutator)
        } else if d.kind == Kind::Disable {
            Some(reason_of(d))
        } else {
            None
        }
    }
}

/// Why a mutator is disabled on `line`: next-line directives win and are not
/// cancelled by a restore.
pub open spec fn reason_on(ds: Seq<DirectiveView>, line: u32, mutator: Seq<char>) -> Option<
    Seq<char>,
> {
    match next_line_reason(ds, line, mutator) {
        Some(reason) => Some(reason),
        None => standing_reason(ds, line, mutator),
    }
}

/// The non-empty names among the trimmed pieces of a list.
pub open spec fn names_in(pieces: Seq<Seq<char>>) -> Seq<Seq<char>>
    decreases pieces.len(),
{
    if pieces.len() == 0 {
        Seq::empty()
    } else {
        let front = names_in(pieces.drop_last());
        let name = crate::text::trimmed(pieces.last());
        if name.len() == 0 {
            front
        } else {
            front.push(name)
        }
    }
}

/// The scope that a text names.
pub open spec fn scope_of(text: Seq<char>) -> ScopeView {
    if text.len() == 0 || text == "all"@ {
        ScopeView::All
    } else {
        ScopeView::Mutators(names_in(crate::text::split_on(text, seq![','])))
    }
}

/// What follows the verb of a directive: its scope, and behind a colon its reason.
pub open spec fn directive_with(kind: Kind, rest: Seq<char>, line: u32) -> DirectiveView {
    let body = crate::text::trimmed(rest);
    match crate::text::cut_once(body, seq![':']) {
        Some((scope, reason)) => DirectiveView {
            line,
            kind,
            scope: scope_of(crate::text::trimmed(scope)),
            reason: Some(crate::text::trimmed(reason)),
        },
        None => DirectiveView { line, kind, scope: scope_of(body), reason: None },
    }
}

/// The directive that a text behind the word `Stryker` gives.
pub open spec fn directive_of(rest: Seq<char>, line: u32) -> Option<DirectiveView> {
    match crate::text::stripped(rest, "disable next-line"@) {
        Some(r) => Some(directive_with(Kind::DisableNextLine, r, line)),
        None => match crate::text::stripped(rest, "disable"@) {
            Some(r) => Some(directive_with(Kind::Disable, r, line)),
            None => match crate::text::stripped(rest, "restore"@) {
                Some(r) => Some(directive_with(Kind::Restore, r, line)),
                None => None,
            },
        },
    }
}

/// The directive that a comment gives.
pub open spec fn directive_in(comment: CommentView) -> Option<DirectiveView> {
    match crate::text::stripped(crate::text::trimmed(comment.text), "Stryker "@) {
        Some(rest) => directive_of(crate::text::trimmed(rest), comment.line),
        None => None,
    }
}

/// The directives that a list of comments gives, in their order.
pub open spec fn directives_in(comments: Seq<CommentView>) -> Seq<DirectiveView>
    decreases comments.len(),
{
    if comments.len() == 0 {
        Seq::empty()
    } else {
        let front = directives_in(comments.drop_last());
        match directive_in(comments.last()) {
            Some(d) => front.push(d),
            None => front,
        }
    }
}

/// The line of a directive, as a function.
pub open spec fn by_line() -> spec_fn(DirectiveView) -> int {
    |d: DirectiveView| d.line as int
}

fn fold(c: char) -> (r: u32)
    ensures
        r == folded(c),
{
    if 'A' <= c && c <= 'Z' {
        c as u32 + 32
    } else {
        c as u32
    }
}

fn equal_folded(a: &str, b: &str) -> (r: bool)
    ensures
        r == same_folded(a@, b@),
{
    let x = chars_of(a);
    let y = chars_of(b);
    if x.len() != y.len() {
        return false;
    }
    let mut i: usize = 0;
    while i < x.len()
        invariant
            i <= x@.len() == y@.len(),
            x@ == a@,
            y@ == b@,
            forall|k: int| 0 <= k < i ==> folded(#[trigger] x@[k]) == folded(y@[k]),
        decreases x@.len() - i,
    {
        if fold(x[i]) != fold(y[i]) {
            proof {
                assert(folded(a@[i as int]) != folded(b@[i as int]));
            }
            return false;
        }
        i = i + 1;
    }
    true
}

impl Scope {
    fn applies_to(&self, mutator: &str) -> (r: bool)
        ensures
            r == applies(self@, mutator@),
    {
        match self {
            Scope::All => true,
            Scope::Mutators(list) => {
                let ghost names = crate::text::texts(list@);
                let mut i: usize = 0;
                while i < list.len()
                    invariant
                        i <= list@.len(),
                        names == crate::text::texts(list@),
                        self@ == ScopeView::Mutators(names),
                        forall|k: int| 0 <= k < i ==> !same_folded(#[trigger] names[k], mutator@),
                    decreases list@.len() - i,
                {
                    if equal_folded(list[i].as_str(), mutator) {
                        proof {
                            assert(same_folded(names[i as int], mutator@));
                            assert(listed(names, mutator@));
                        }
                        return true;
                    }
                    i = i + 1;
                }
                false
            },
        }
    }
}

impl Directive {
    fn reason_text(&self) -> (r: &str)
        ensures
            r@ == reason_of(self@),
    {
        match &self.reason {
            Some(reason) => reason.as_str(),
            None => DEFAULT_REASON,
        }
    }
}

fn read_scope(text: &str) -> (r: Scope)
    ensures
        r@ == scope_of(text@),
{
    if text.is_empty() || same(text, "all") {
        return Scope::All;
    }
    proof {
        reveal_strlit(",");
        assert(","@ =~= seq![',']);
    }
    let pieces = split_all(text, ",");
    let ghost all = crate::text::texts(pieces@);
    let mut names: Vec<String> = Vec::new();
    let mut i: usize = 0;
    while i < pieces.len()
        invariant
            i <= pieces@.len(),
            all == crate::text::texts(pieces@),
            crate::text::texts(names@) == names_in(all.take(i as int)),
        decreases pieces@.len() - i,
    {
        let name = trim(pieces[i].as_str());
        proof {
            assert(all.take(i + 1).drop_last() =~= all.take(i as int));
            assert(all.take(i + 1).last() == pieces@[i as int]@);
        }
        if !name.as_str().is_empty() {
            proof {
                crate::text::lemma_texts_push(names@, name);
            }
            names.push(name);
        }
        i = i + 1;
    }
    proof {
        assert(all.take(pieces@.len() as int) =~= all);
    }
    Scope::Mutators(names)
}

fn read_body(kind: Kind, rest: &str, line: u32) -> (r: Directive)
    ensures
        r@ == directive_with(kind, rest@, line),
{
    let body = trim(rest);
    proof {
        reveal_strlit(":");
        assert(":"@ =~= seq![':']);
    }
    match split_once(body.as_str(), ":") {
        Some((scope, reason)) => {
            let scope_text = trim(scope.as_str());
            Directive {
                line,
                kind,
                scope: read_scope(scope_text.as_str()),
                reason: Some(trim(reason.as_str())),
            }
        },
        None => Directive { line, kind, scope: read_scope(body.as_str()), reason: None },
    }
}

/// Reads what follows the word `Stryker` in a comment on `line`.
pub fn parse_directive(rest: &str, line: u32) -> (r: Option<Directive>)
    ensures
        match r {
            Some(d) => directive_of(rest@, line) == Some(d@),
            None => directive_of(rest@, line) is None,
        },
{
    if let Some(r) = strip(rest, "disable next-line") {
        return Some(read_body(Kind::DisableNextLine, r.as_str(), line));
    }
    if let Some(r) = strip(rest, "disable") {
        return Some(read_body(Kind::Disable, r.as_str(), line));
    }
    if let Some(r) = strip(rest, "restore") {
        return Some(read_body(Kind::Restore, r.as_str(), line));
    }
    None
}

impl DirectiveIndex {
    /// The directives, sorted by line.
    pub closed spec fn view(&self) -> Seq<DirectiveView> {
        directive_views(self.directives@)
    }

    /// Collects the directives among the comments of a file.
    pub fn from_comments(comments: &Vec<CommentLine>) -> (r: DirectiveIndex)
        ensures
            r@ == crate::sort::stable(directives_in(comment_views(comments@)), by_line()),
    {
        let ghost all = comment_views(comments@);
        let mut found: Vec<Directive> = Vec::new();
        let mut i: usize = 0;
        while i < comments.len()
            invariant
                i <= comments@.len(),
                all == comment_views(comments@),
                directive_views(found@) == directives_in(all.take(i as int)),
            decreases comments@.len() - i,
        {
            proof {
                assert(all.take(i + 1).drop_last() =~= all.take(i as int));
                assert(all.take(i + 1).last() == comments@[i as int]@);
            }
            let text = trim(comments[i].text.as_str());
            if let Some(rest) = strip(text.as_str(), "Stryker ") {
                let rest = trim(rest.as_str());
                if let Some(d) = parse_directive(rest.as_str(), comments[i].line) {
                    let ghost before = found@;
                    found.push(d);
                    proof {
                        assert(directive_views(found@) =~= directive_views(before).push(d@));
                    }
                }
            }
            i = i + 1;
        }
        proof {
            assert(all.take(comments@.len() as int) =~= all);
            crate::sort::lemma_stable_map(
                found@,
                |d: Directive| d@,
                crate::sort::by_rank::<Directive>(),
                by_line(),
            );
        }
        DirectiveIndex { directives: sort_by_rank(found) }
    }

    /// Is `mutator` disabled for a mutant on `line` (1-based)? Returns the
    /// reason if so.
    pub fn disabled_reason(&self, line: u32, mutator: &str) -> (r: Option<&str>)
        ensures
            match r {
                Some(reason) => reason_on(self@, line, mutator@) == Some(reason@),
                None => reason_on(self@, line, mutator@) is None,
            },
    {
        let ghost ds = self@;
        let total = self.directives.len();
        let mut i: usize = 0;
        proof {
            assert(ds.skip(0) =~= ds);
        }
        while i < total
            invariant
                i <= total == self.directives@.len(),
                ds == directive_views(self.directives@),
                next_line_reason(ds, line, mutator@) == next_line_reason(
                    ds.skip(i as int),
                    line,
                    mutator@,
                ),
            decreases total - i,
        {
            let d = &self.directives[i];
            proof {
                assert(ds.skip(i as int)[0] == d@);
                assert(ds.skip(i as int).skip(1) =~= ds.skip(i + 1));
            }
            if d.kind == Kind::DisableNextLine && line > 0 && d.line == line - 1
                && d.scope.applies_to(mutator) {
                proof {
                    assert(self@ == ds);
                }
                return Some(d.reason_text());
            }
            i = i + 1;
        }
        let mut state: Option<&str> = None;
        let mut k: usize = 0;
        while k < total
            invariant
                k <= total == self.directives@.len(),
                ds == directive_views(self.directives@),
                match state {
                    Some(reason) => standing_reason(ds.take(k as int), line, mutator@) == Some(
                        reason@,
                    ),
                    None => standing_reason(ds.take(k as int), line, mutator@) is None,
                },
            decreases total - k,
        {
            let d = &self.directives[k];
            proof {
                assert(ds.take(k + 1).drop_last() =~= ds.take(k as int));
                assert(ds.take(k + 1).last() == d@);
            }
            if d.line < line && d.scope.applies_to(mutator) {
                match d.kind {
                    Kind::Disable => {
                        state = Some(d.reason_text());
                    },
                    Kind::Restore => {
                        state = None;
                    },
                    Kind::DisableNextLine => {},
                }
            }
            k = k + 1;
        }
        proof {
            assert(ds.take(total as int) =~= ds);
        }
        state
    }

    /// Whether there is no directive.
    pub fn is_empty(&self) -> (r: bool)
        ensures
            r == (self@.len() == 0),
    {
        self.directives.len() == 0
    }
}

proof fn lemma_no_standing(ds: Seq<DirectiveView>, line: u32, mutator: Seq<char>)
    requires
        forall|i: int| 0 <= i < ds.len() ==> (#[trigger] ds[i]).line >= line,
    ensures
        standing_reason(ds, line, mutator) is None,
    decreases ds.len(),
{
    if ds.len() > 0 {
        assert(ds[ds.len() - 1].line >= line);
        lemma_no_standing(ds.drop_last(), line, mutator);
    }
}

proof fn lemma_no_next_line(ds: Seq<DirectiveView>, line: u32, mutator: Seq<char>)
    requires
        forall|i: int| 0 <= i < ds.len() ==> (#[trigger] ds[i]).line >= line,
    ensures
        next_line_reason(ds, line, mutator) is None,
    decreases ds.len(),
{
    if ds.len() > 0 {
        assert(ds[0].line >= line);
        assert forall|i: int| 0 <= i < ds.skip(1).len() implies (#[trigger] ds.skip(1)[i]).line
            >= line by {
            assert(ds.skip(1)[i] == ds[i + 1]);
        }
        lemma_no_next_line(ds.skip(1), line, mutator);
    }
}

/// A directive says nothing about its own line or the lines above it.
pub proof fn law_directives_act_below_their_line(
    ds: Seq<DirectiveView>,
    line: u32,
    mutator: Seq<char>,
)
    requires
        forall|i: int| 0 <= i < ds.len() ==> (#[trigger] ds[i]).line >= line,
    ensures
        reason_on(ds, line, mutator) is None,
{
    lemma_no_standing(ds, line, mutator);
    lemma_no_next_line(ds, line, mutator);
}

/// A next-line directive holds on the next line whatever restores stand around it.
pub proof fn law_next_line_is_not_restored(
    ds: Seq<DirectiveView>,
    i: int,
    line: u32,
    mutator: Seq<char>,
)
    requires
        0 <= i < ds.len(),
        ds[i].kind == Kind::DisableNextLine,
        ds[i].line + 1 == line,
        applies(ds[i].scope, mutator),
    ensures
        reason_on(ds, line, mutator) is Some,
    decreases ds.len(),
{
    if i > 0 {
        assert(ds.skip(1)[i - 1] == ds[i]);
        law_next_line_is_not_restored(ds.skip(1), i - 1, line, mutator);
        lemma_next_line_found(ds.skip(1), i - 1, line, mutator);
    }
}

proof fn lemma_next_line_found(ds: Seq<DirectiveView>, i: int, line: u32, mutator: Seq<char>)
    requires
        0 <= i < ds.len(),
        ds[i].kind == Kind::DisableNextLine,
        ds[i].line + 1 == line,
        applies(ds[i].scope, mutator),
    ensures
        next_line_reason(ds, line, mutator) is Some,
    decreases ds.len(),
{
    if i > 0 {
        assert(ds.skip(1)[i - 1] == ds[i]);
        lemma_next_line_found(ds.skip(1), i - 1, line, mutator);
    }
}

/// A `disable` holds below its line until a `restore` for the mutator follows.
pub proof fn law_disable_holds_until_restore(
    ds: Seq<DirectiveView>,
    d: DirectiveView,
    later: Seq<DirectiveView>,
    line: u32,
    mutator: Seq<char>,
)
    requires
        d.kind == Kind::Disable,
        d.line < line,
        applies(d.scope, mutator),
        forall|i: int|
            0 <= i < later.len() ==> (#[trigger] later[i]).kind != Kind::Restore || !applies(
                later[i].scope,
                mutator,
            ) || later[i].line >= line,
    ensures
        reason_on(ds.push(d) + later, line, mutator) is Some,
    decreases later.len(),
{
    let all = ds.push(d) + later;
    if later.len() == 0 {
        assert(all =~= ds.push(d));
        assert(all.drop_last() =~= ds);
    } else {
        law_disable_holds_until_restore(ds, d, later.drop_last(), line, mutator);
        lemma_disable_stands(ds, d, later, line, mutator);
    }
}

proof fn lemma_disable_stands(
    ds: Seq<DirectiveView>,
    d: DirectiveView,
    later: Seq<DirectiveView>,
    line: u32,
    mutator: Seq<char>,
)
    requires
        d.kind == Kind::Disable,
        d.line < line,
        applies(d.scope, mutator),
        forall|i: int|
            0 <= i < later.len() ==> (#[trigger] later[i]).kind != Kind::Restore || !applies(
                later[i].scope,
                mutator,
            ) || later[i].line >= line,
    ensures
        standing_reason(ds.push(d) + later, line, mutator) is Some,
    decreases later.len(),
{
    let all = ds.push(d) + later;
    if later.len() == 0 {
        assert(all =~= ds.push(d));
    } else {
        lemma_disable_stands(ds, d, later.drop_last(), line, mutator);
        assert(all.drop_last() =~= ds.push(d) + later.drop_last());
        assert(all.last() == later[later.len() - 1]);
    }
}

// ---- what directives say ----

/// Whether two letters are the same but for the case of an ASCII letter.
pub open spec fn same_letter(a: char, b: char) -> bool {
    a == b || ('A' <= a <= 'Z' && b as int == a as int + 32) || ('A' <= b <= 'Z' && a as int
        == b as int + 32)
}

/// A directive without names applies to every mutator, and one with names to those
/// that it names, in whatever case.
pub proof fn law_scopes(list: Seq<Seq<char>>, mutator: Seq<char>)
    ensures
        applies(ScopeView::All, mutator),
        applies(ScopeView::Mutators(list), mutator) <==> exists|i: int|
            0 <= i < list.len() && (#[trigger] list[i]).len() == mutator.len() && forall|k: int|
                0 <= k < mutator.len() ==> same_letter(list[i][k], #[trigger] mutator[k]),
{
    assert forall|i: int| 0 <= i < list.len() implies #[trigger] same_folded(list[i], mutator) == (
    list[i].len() == mutator.len() && forall|k: int|
        0 <= k < mutator.len() ==> same_letter(list[i][k], #[trigger] mutator[k])) by {
        if same_folded(list[i], mutator) {
            assert forall|k: int| 0 <= k < mutator.len() implies same_letter(
                list[i][k],
                #[trigger] mutator[k],
            ) by {
                assert(folded(list[i][k]) == folded(mutator[k]));
            }
        }
        if list[i].len() == mutator.len() && forall|k: int|
            0 <= k < mutator.len() ==> same_letter(list[i][k], #[trigger] mutator[k]) {
            assert forall|k: int| 0 <= k < list[i].len() implies folded(#[trigger] list[i][k])
                == folded(mutator[k]) by {
                assert(same_letter(list[i][k], mutator[k]));
            }
        }
    }
    if applies(ScopeView::Mutators(list), mutator) {
        let i = choose|i: int| 0 <= i < list.len() && same_folded(#[trigger] list[i], mutator);
        assert(list[i].len() == mutator.len());
    }
    if exists|i: int|
        0 <= i < list.len() && (#[trigger] list[i]).len() == mutator.len() && forall|k: int|
            0 <= k < mutator.len() ==> same_letter(list[i][k], #[trigger] mutator[k]) {
        let i = choose|i: int|
            0 <= i < list.len() && (#[trigger] list[i]).len() == mutator.len() && forall|k: int|
                0 <= k < mutator.len() ==> same_letter(list[i][k], #[trigger] mutator[k]);
        assert(same_folded(list[i], mutator));
    }
}

/// Whether a directive is a next-line one that holds on a line for a mutator.
pub open spec fn holds_next(d: DirectiveView, line: u32, mutator: Seq<char>) -> bool {
    d.kind == Kind::DisableNextLine && d.line + 1 == line && applies(d.scope, mutator)
}

/// Whether a directive is a standing one that speaks of a line and a mutator.
pub open spec fn speaks(d: DirectiveView, line: u32, mutator: Seq<char>) -> bool {
    d.kind != Kind::DisableNextLine && d.line < line && applies(d.scope, mutator)
}

proof fn lemma_next_line(ds: Seq<DirectiveView>, line: u32, mutator: Seq<char>)
    ensures
        match next_line_reason(ds, line, mutator) {
            Some(reason) => exists|i: int|
                0 <= i < ds.len() && holds_next(#[trigger] ds[i], line, mutator) && reason
                    == reason_of(ds[i]) && forall|j: int|
                    0 <= j < i ==> !holds_next(#[trigger] ds[j], line, mutator),
            None => forall|i: int|
                0 <= i < ds.len() ==> !holds_next(#[trigger] ds[i], line, mutator),
        },
    decreases ds.len(),
{
    if ds.len() > 0 && !holds_next(ds[0], line, mutator) {
        let rest = ds.skip(1);
        lemma_next_line(rest, line, mutator);
        match next_line_reason(rest, line, mutator) {
            Some(reason) => {
                let i = choose|i: int|
                    0 <= i < rest.len() && holds_next(#[trigger] rest[i], line, mutator) && reason
                        == reason_of(rest[i]) && forall|j: int|
                        0 <= j < i ==> !holds_next(#[trigger] rest[j], line, mutator);
                assert(ds[i + 1] == rest[i]);
                assert forall|j: int| 0 <= j < i + 1 implies !holds_next(
                    #[trigger] ds[j],
                    line,
                    mutator,
                ) by {
                    if j > 0 {
                        assert(rest[j - 1] == ds[j]);
                    }
                }
            },
            None => {
                assert forall|i: int| 0 <= i < ds.len() implies !holds_next(
                    #[trigger] ds[i],
                    line,
                    mutator,
                ) by {
                    if i > 0 {
                        assert(rest[i - 1] == ds[i]);
                    }
                }
            },
        }
    }
}

proof fn lemma_standing(ds: Seq<DirectiveView>, line: u32, mutator: Seq<char>)
    ensures
        match standing_reason(ds, line, mutator) {
            Some(reason) => exists|i: int|
                0 <= i < ds.len() && speaks(#[trigger] ds[i], line, mutator) && ds[i].kind
                    == Kind::Disable && reason == reason_of(ds[i]) && forall|j: int|
                    i < j < ds.len() ==> !speaks(#[trigger] ds[j], line, mutator),
            None => forall|i: int|
                0 <= i < ds.len() && speaks(#[trigger] ds[i], line, mutator) && ds[i].kind
                    == Kind::Disable ==> exists|j: int|
                    i < j < ds.len() && speaks(#[trigger] ds[j], line, mutator),
        },
    decreases ds.len(),
{
    if ds.len() > 0 {
        let front = ds.drop_last();
        let d = ds.last();
        assert(ds[ds.len() - 1] == d);
        if !speaks(d, line, mutator) {
            lemma_standing(front, line, mutator);
            match standing_reason(front, line, mutator) {
                Some(reason) => {
                    let i = choose|i: int|
                        0 <= i < front.len() && speaks(#[trigger] front[i], line, mutator)
                            && front[i].kind == Kind::Disable && reason == reason_of(front[i])
                            && forall|j: int|
                            i < j < front.len() ==> !speaks(#[trigger] front[j], line, mutator);
                    assert(ds[i] == front[i]);
                    assert forall|j: int| i < j < ds.len() implies !speaks(
                        #[trigger] ds[j],
                        line,
                        mutator,
                    ) by {
                        if j < front.len() {
                            assert(front[j] == ds[j]);
                        }
                    }
                },
                None => {
                    assert forall|i: int|
                        0 <= i < ds.len() && speaks(#[trigger] ds[i], line, mutator) && ds[i].kind
                            == Kind::Disable implies exists|j: int|
                        i < j < ds.len() && speaks(#[trigger] ds[j], line, mutator) by {
                        assert(front[i] == ds[i]);
                        let j = choose|j: int|
                            i < j < front.len() && speaks(#[trigger] front[j], line, mutator);
                        assert(ds[j] == front[j]);
                    }
                },
            }
        }
    }
}

/// A mutant is disabled on a line exactly where a next-line directive right above
/// it applies, or where the last directive above that speaks of it disables. The
/// reason is that of the directive, or the general one.
pub proof fn law_when_mutants_are_disabled(
    ds: Seq<DirectiveView>,
    line: u32,
    mutator: Seq<char>,
)
    ensures
        reason_on(ds, line, mutator) is Some <==> {
            ||| exists|i: int| 0 <= i < ds.len() && holds_next(#[trigger] ds[i], line, mutator)
            ||| exists|i: int|
                0 <= i < ds.len() && speaks(#[trigger] ds[i], line, mutator) && ds[i].kind
                    == Kind::Disable && forall|j: int|
                    i < j < ds.len() ==> !speaks(#[trigger] ds[j], line, mutator)
        },
        reason_on(ds, line, mutator) matches Some(reason) ==> exists|i: int|
            0 <= i < ds.len() && (holds_next(#[trigger] ds[i], line, mutator) || (speaks(
                ds[i],
                line,
                mutator,
            ) && ds[i].kind == Kind::Disable)) && (match ds[i].reason {
                Some(given) => reason == given,
                None => reason == "Ignored by a \"Stryker disable\" comment"@,
            }),
{
    lemma_next_line(ds, line, mutator);
    lemma_standing(ds, line, mutator);
    match next_line_reason(ds, line, mutator) {
        Some(reason) => {
            let i = choose|i: int|
                0 <= i < ds.len() && holds_next(#[trigger] ds[i], line, mutator) && reason
                    == reason_of(ds[i]) && forall|j: int|
                    0 <= j < i ==> !holds_next(#[trigger] ds[j], line, mutator);
            assert(holds_next(ds[i], line, mutator));
        },
        None => match standing_reason(ds, line, mutator) {
            Some(reason) => {
                let i = choose|i: int|
                    0 <= i < ds.len() && speaks(#[trigger] ds[i], line, mutator) && ds[i].kind
                        == Kind::Disable && reason == reason_of(ds[i]) && forall|j: int|
                        i < j < ds.len() ==> !speaks(#[trigger] ds[j], line, mutator);
                assert(speaks(ds[i], line, mutator));
            },
            None => {
                if exists|i: int|
                    0 <= i < ds.len() && speaks(#[trigger] ds[i], line, mutator) && ds[i].kind
                        == Kind::Disable && forall|j: int|
                        i < j < ds.len() ==> !speaks(#[trigger] ds[j], line, mutator) {
                    let i = choose|i: int|
                        0 <= i < ds.len() && speaks(#[trigger] ds[i], line, mutator) && ds[i].kind
                            == Kind::Disable && forall|j: int|
                            i < j < ds.len() ==> !speaks(#[trigger] ds[j], line, mutator);
                    let j = choose|j: int|
                        i < j < ds.len() && speaks(#[trigger] ds[j], line, mutator);
                }
            },
        },
    }
}

/// A comment that begins with `Stryker` and one of the three words is a directive
/// of that kind on its line. What follows names mutators up to a colon, all of
/// them where it names none, and gives the reason behind it.
pub proof fn law_comments_that_are_directives(
    comment: CommentView,
    rest: Seq<char>,
    tail: Seq<char>,
)
    requires
        crate::text::trimmed(comment.text) == "Stryker "@ + rest,
    ensures
        ({
            let words = crate::text::trimmed(rest);
            let found = directive_in(comment);
            let body = crate::text::trimmed(tail);
            &&& words == "disable next-line"@ + tail ==> found is Some && found->0.kind
                == Kind::DisableNextLine
            &&& words == "disable"@ + tail && !crate::text::begins(words, "disable next-line"@)
                ==> found is Some && found->0.kind == Kind::Disable
            &&& words == "restore"@ + tail && !crate::text::begins(words, "disable"@) ==> found
                is Some && found->0.kind == Kind::Restore
            &&& !crate::text::begins(words, "disable"@) && !crate::text::begins(
                words,
                "disable next-line"@,
            ) && !crate::text::begins(words, "restore"@) ==> found is None
            &&& found matches Some(d) ==> d.line == comment.line
            &&& words == "disable next-line"@ + tail || (words == "disable"@ + tail
                && !crate::text::begins(words, "disable next-line"@)) || (words == "restore"@ + tail
                && !crate::text::begins(words, "disable"@) && !crate::text::begins(
                words,
                "disable next-line"@,
            )) ==> {
                &&& !crate::text::has(body, seq![':']) ==> found->0.reason is None
                    && found->0.scope == scope_of(body)
                &&& (crate::text::cut_once(body, seq![':']) matches Some(cut) ==> found->0.reason
                    == Some(crate::text::trimmed(cut.1)) && found->0.scope == scope_of(
                    crate::text::trimmed(cut.0),
                ))
            }
        }),
{
    let words = crate::text::trimmed(rest);
    crate::text::law_stripping(crate::text::trimmed(comment.text), "Stryker "@, rest);
    crate::text::law_stripping(words, "disable next-line"@, tail);
    crate::text::law_stripping(words, "disable"@, tail);
    crate::text::law_stripping(words, "restore"@, tail);
    reveal_strlit("disable next-line");
    reveal_strlit("disable");
    let long = "disable next-line"@;
    let short = "disable"@;
    assert(long.subrange(0, 7) =~= short);
    if crate::text::begins(words, long) {
        assert(words.subrange(0, 7) =~= words.subrange(0, 17).subrange(0, 7));
        assert(crate::text::begins(words, short));
    }
}

/// A comment that does not begin with `Stryker` is none.
pub proof fn law_other_comments_say_nothing(comment: CommentView)
    requires
        !crate::text::begins(crate::text::trimmed(comment.text), "Stryker "@),
    ensures
        directive_in(comment) is None,
{
}

/// The mutators that a directive names: all where there is no name or `all`, and
/// otherwise what stands between the commas, without blanks.
pub proof fn law_named_mutators(text: Seq<char>, name: Seq<char>)
    ensures
        text.len() == 0 || text == "all"@ ==> scope_of(text) == ScopeView::All,
        text.len() > 0 && text != "all"@ ==> (scope_of(text) matches ScopeView::Mutators(list) && (
        list.contains(name) <==> name.len() > 0 && exists|i: int|
            0 <= i < crate::text::split_on(text, seq![',']).len() && crate::text::trimmed(
                #[trigger] crate::text::split_on(text, seq![','])[i],
            ) == name)),
{
    lemma_names_in(crate::text::split_on(text, seq![',']), name);
}

proof fn lemma_names_in(pieces: Seq<Seq<char>>, name: Seq<char>)
    ensures
        names_in(pieces).contains(name) <==> name.len() > 0 && exists|i: int|
            0 <= i < pieces.len() && crate::text::trimmed(#[trigger] pieces[i]) == name,
    decreases pieces.len(),
{
    if pieces.len() > 0 {
        let before = pieces.drop_last();
        let front = names_in(before);
        let all = names_in(pieces);
        lemma_names_in(before, name);
        assert(pieces[pieces.len() - 1] == pieces.last());
        if front.contains(name) {
            let k = front.index_of(name);
            assert(all[k] == name);
            let i = choose|i: int|
                0 <= i < before.len() && crate::text::trimmed(#[trigger] before[i]) == name;
            assert(pieces[i] == before[i]);
        }
        if all.contains(name) && !front.contains(name) {
            let k = all.index_of(name);
            if k < front.len() {
                assert(front[k] == name);
            }
        }
        if name.len() > 0 && exists|i: int|
            0 <= i < pieces.len() && crate::text::trimmed(#[trigger] pieces[i]) == name {
            let i = choose|i: int|
                0 <= i < pieces.len() && crate::text::trimmed(#[trigger] pieces[i]) == name;
            if i < before.len() {
                assert(before[i] == pieces[i]);
            } else {
                assert(all[all.len() - 1] == name);
            }
        }
    }
}

/// The directives of a file are those of its comments, in order.
pub proof fn law_directives_of_comments(comments: Seq<CommentView>)
    ensures
        directives_in(comments) == comments.filter_map(|c: CommentView| directive_in(c)),
    decreases comments.len(),
{
    let pick = |c: CommentView| directive_in(c);
    if comments.len() > 0 {
        law_directives_of_comments(comments.drop_last());
        assert(directives_in(comments) =~= comments.filter_map(pick));
    } else {
        assert(directives_in(comments) =~= comments.filter_map(pick));
    }
}

} // verus!
