//! Which files of a project there are, and which of them are mutated.
use vstd::prelude::*;

use crate::config::BadPattern;
use crate::config::StrykerConfig;
use crate::mutate_pattern::MutatePattern;
use crate::mutate_pattern::MutationRange;
use crate::paths::extension;
use crate::paths::file_name;
use crate::paths::parts_of;
use crate::paths::sort_paths;
use crate::text::concat2;
use crate::text::concat3;
use crate::text::copy_text;
use crate::text::ends_in;
use crate::text::has_text;
use crate::text::join;
use crate::text::number;
use crate::text::same;

verus! {

// ---- globs ----

/// A glob of the `globset` crate.
#[verifier::external_type_specification]
#[verifier::external_body]
pub struct ExGlob(globset::Glob);

/// A set of globs of the `globset` crate.
#[verifier::external_type_specification]
#[verifier::external_body]
pub struct ExGlobSet(globset::GlobSet);

/// The text that a glob was read from, where it was read with literal separators,
/// backslash escapes and empty alternatives, and with nothing else asked for.
pub uninterp spec fn glob_text(glob: globset::Glob) -> Option<Seq<char>>;

/// Why a text is no glob, where it is none.
pub uninterp spec fn glob_error(text: Seq<char>) -> Option<Seq<char>>;

/// For each glob of a set, in the order in which they were added, the paths that
/// it matches.
pub uninterp spec fn globs_in(set: globset::GlobSet) -> Seq<Set<Seq<char>>>;

/// Why globs cannot be compiled together, where they cannot.
pub uninterp spec fn glob_set_error(globs: Seq<Seq<char>>) -> Option<Seq<char>>;

/// Whether a glob matches a path; its wildcards do not match slashes, its
/// backslashes escape, its alternatives may be empty.
pub uninterp spec fn glob_hits(glob: Seq<char>, path: Seq<char>) -> bool;

/// The texts of a list of globs.
pub open spec fn glob_texts(globs: Seq<globset::Glob>) -> Seq<Seq<char>> {
    globs.map_values(|g: globset::Glob| glob_text(g)->0)
}

/// The paths that each of a list of globs matches.
pub open spec fn hits(globs: Seq<Seq<char>>) -> Seq<Set<Seq<char>>> {
    globs.map_values(|g: Seq<char>| Set::new(|path: Seq<char>| glob_hits(g, path)))
}

/// `GlobBuilder::build` of `globset`, with literal separators, backslash escapes
/// and empty alternatives: it succeeds or fails by the text alone.
#[verifier::external_body]
fn parse_glob(text: &str) -> (r: Result<globset::Glob, String>)
    ensures
        match r {
            Ok(glob) => glob_error(text@) is None && glob_text(glob) == Some(text@),
            Err(message) => glob_error(text@) == Some(message@),
        },
{
    globset::GlobBuilder::new(text).literal_separator(true).backslash_escape(
        true,
    ).empty_alternates(true).build().map_err(|e| e.to_string())
}

/// `GlobSet::new` of `globset`: a set that matches what the given globs match, in
/// that order, or an error that depends on the globs alone.
#[verifier::external_body]
fn compile_globs(globs: &Vec<globset::Glob>) -> (r: Result<globset::GlobSet, String>)
    requires
        forall|i: int| 0 <= i < globs@.len() ==> glob_text(#[trigger] globs@[i]) is Some,
    ensures
        match r {
            Ok(set) => glob_set_error(glob_texts(globs@)) is None && globs_in(set).len()
                == globs@.len() && (forall|i: int, path: Seq<char>|
                0 <= i < globs@.len() ==> (#[trigger] globs_in(set)[i].contains(path) <==> glob_hits(
                    glob_text(globs@[i])->0,
                    path,
                ))),
            Err(message) => glob_set_error(glob_texts(globs@)) == Some(message@),
        },
{
    globset::GlobSet::new(globs.iter()).map_err(|e| e.to_string())
}

/// The indexes of the globs that match a path, in ascending order, given the
/// paths that each of them matches.
pub open spec fn matching(globs: Seq<Set<Seq<char>>>, path: Seq<char>) -> Seq<usize>
    decreases globs.len(),
{
    if globs.len() == 0 {
        Seq::empty()
    } else if globs.last().contains(path) {
        matching(globs.drop_last(), path).push((globs.len() - 1) as usize)
    } else {
        matching(globs.drop_last(), path)
    }
}

/// `GlobSet::matches` of `globset`: the indexes of the globs of a set that match
/// a path, in ascending order.
#[verifier::external_body]
fn set_matches(set: &globset::GlobSet, path: &str) -> (r: Vec<usize>)
    ensures
        r@ == matching(globs_in(*set), path@),
{
    set.matches(path)
}

/// `GlobSet::is_match` of `globset`: whether a glob of a set matches a path.
#[verifier::external_body]
fn set_is_match(set: &globset::GlobSet, path: &str) -> (r: bool)
    ensures
        r == (exists|i: int|
            0 <= i < globs_in(*set).len() && (#[trigger] globs_in(*set)[i]).contains(path@)),
{
    set.is_match(path)
}

/// The first complaint about a list of globs.
pub open spec fn first_complaint(globs: Seq<Seq<char>>) -> Option<Seq<char>>
    decreases globs.len(),
{
    if globs.len() == 0 {
        None
    } else {
        match first_complaint(globs.drop_last()) {
            Some(message) => Some(message),
            None => glob_error(globs.last()),
        }
    }
}

/// Why there is no set of a list of globs, where there is none.
pub open spec fn set_failure(globs: Seq<Seq<char>>) -> Option<Seq<char>> {
    match first_complaint(globs) {
        Some(message) => Some(message),
        None => glob_set_error(globs),
    }
}

proof fn lemma_complaint_stays(globs: Seq<Seq<char>>, n: int)
    requires
        0 <= n <= globs.len(),
        first_complaint(globs.take(n)) is Some,
    ensures
        first_complaint(globs) == first_complaint(globs.take(n)),
    decreases globs.len() - n,
{
    if n == globs.len() {
        assert(globs.take(n) =~= globs);
    } else {
        assert(globs.take(n + 1).drop_last() =~= globs.take(n));
        lemma_complaint_stays(globs, n + 1);
    }
}

fn build_globset(globs: &Vec<String>) -> (r: Result<globset::GlobSet, String>)
    ensures
        match r {
            Ok(set) => set_failure(crate::text::texts(globs@)) is None && globs_in(set) == hits(
                crate::text::texts(globs@),
            ),
            Err(message) => set_failure(crate::text::texts(globs@)) == Some(message@),
        },
{
    let ghost all = crate::text::texts(globs@);
    let mut parsed: Vec<globset::Glob> = Vec::new();
    let mut i: usize = 0;
    proof {
        assert(all.take(0) =~= Seq::<Seq<char>>::empty());
        assert(glob_texts(parsed@) =~= all.take(0));
    }
    while i < globs.len()
        invariant
            i <= globs@.len(),
            all == crate::text::texts(globs@),
            first_complaint(all.take(i as int)) is None,
            glob_texts(parsed@) == all.take(i as int),
            forall|k: int| 0 <= k < parsed@.len() ==> glob_text(#[trigger] parsed@[k]) is Some,
        decreases globs@.len() - i,
    {
        let text = globs[i].as_str();
        proof {
            assert(all.take(i + 1).drop_last() =~= all.take(i as int));
            assert(all.take(i + 1).last() == text@);
        }
        match parse_glob(text) {
            Ok(glob) => {
                let ghost before = parsed@;
                parsed.push(glob);
                proof {
                    assert(glob_texts(parsed@) =~= glob_texts(before).push(text@));
                    assert(all.take(i + 1) =~= all.take(i as int).push(text@));
                }
            },
            Err(message) => {
                proof {
                    lemma_complaint_stays(all, i + 1);
                }
                return Err(message);
            },
        }
        i = i + 1;
    }
    proof {
        assert(all.take(globs@.len() as int) =~= all);
    }
    let compiled = compile_globs(&parsed);
    proof {
        if compiled is Ok {
            let set = compiled->Ok_0;
            assert forall|k: int| 0 <= k < all.len() implies globs_in(set)[k] =~= hits(all)[k] by {
                assert(glob_texts(parsed@)[k] == all[k]);
            }
            assert(globs_in(set) =~= hits(all));
        }
    }
    compiled
}

// ---- ignored files ----

/// A builder of the `ignore` crate for a matcher of ignore patterns.
#[verifier::external_type_specification]
#[verifier::external_body]
pub struct ExGitignoreBuilder(ignore::gitignore::GitignoreBuilder);

/// A matcher of ignore patterns of the `ignore` crate.
#[verifier::external_type_specification]
#[verifier::external_body]
pub struct ExGitignore(ignore::gitignore::Gitignore);

/// A root and the patterns that hold below it.
pub struct IgnoreView {
    pub root: Seq<char>,
    pub patterns: Seq<Seq<char>>,
}

/// The root of a builder and its patterns, where it reads lines as a new builder
/// does.
pub uninterp spec fn builder_lines(builder: ignore::gitignore::GitignoreBuilder) -> Option<
    IgnoreView,
>;

/// The root of a matcher and its patterns, where they were read as a new builder
/// reads lines.
pub uninterp spec fn matcher_lines(matcher: ignore::gitignore::Gitignore) -> Option<
    IgnoreView,
>;

/// Why a line is no ignore pattern, where it is none.
pub uninterp spec fn line_error(line: Seq<char>) -> Option<Seq<char>>;

/// Why patterns cannot be compiled together, where they cannot.
pub uninterp spec fn matcher_error(lines: Seq<Seq<char>>) -> Option<Seq<char>>;

/// What one pattern says of a file: nothing, that it is ignored (`true`), or that
/// it is not (`false`).
pub uninterp spec fn line_verdict(root: Seq<char>, line: Seq<char>, path: Seq<char>) -> Option<
    bool,
>;

/// A root without the `./` that it may begin with.
pub open spec fn without_dot(root: Seq<char>) -> Seq<char> {
    if crate::text::begins(root, "./"@) {
        root.skip(2)
    } else {
        root
    }
}

/// The pattern in a line: without the white space at its end, unless the last of
/// it is an escaped space.
pub open spec fn pattern_in(line: Seq<char>) -> Seq<char> {
    if crate::text::ends(line, "\\ "@) {
        line
    } else {
        crate::text::trimmed_back(line)
    }
}

/// Whether a line holds no pattern: it is a comment, or blank.
pub open spec fn says_nothing(line: Seq<char>) -> bool {
    crate::text::begins(line, "#"@) || pattern_in(line).len() == 0
}

/// Patterns with that of one more line, where it holds one.
pub open spec fn with_line(patterns: Seq<Seq<char>>, line: Seq<char>) -> Seq<Seq<char>> {
    if says_nothing(line) {
        patterns
    } else {
        patterns.push(pattern_in(line))
    }
}

/// The patterns in a list of lines, in order.
pub open spec fn patterns_in(lines: Seq<Seq<char>>) -> Seq<Seq<char>>
    decreases lines.len(),
{
    if lines.len() == 0 {
        Seq::empty()
    } else {
        with_line(patterns_in(lines.drop_last()), lines.last())
    }
}

/// `GitignoreBuilder::new` of `ignore`: a builder without patterns, whose root is
/// the given one without a leading `./`.
#[verifier::external_body]
fn ignore_builder(root: &str) -> (r: ignore::gitignore::GitignoreBuilder)
    ensures
        builder_lines(r) == Some(
            (IgnoreView { root: without_dot(root@), patterns: Seq::empty() }),
        ),
{
    ignore::gitignore::GitignoreBuilder::new(root)
}

/// `GitignoreBuilder::add_line` of `ignore`: adds the pattern of a line, where it
/// holds one, or fails by the text of the line alone and leaves the builder as it
/// was.
#[verifier::external_body]
fn add_ignore_line(builder: &mut ignore::gitignore::GitignoreBuilder, line: &str) -> (r: Result<
    (),
    String,
>)
    requires
        builder_lines(*old(builder)) is Some,
    ensures
        match r {
            Ok(_) => line_error(line@) is None && builder_lines(*final(builder)) == Some(
                (IgnoreView {
                    root: builder_lines(*old(builder))->0.root,
                    patterns: with_line(builder_lines(*old(builder))->0.patterns, line@),
                }),
            ),
            Err(message) => line_error(line@) == Some(message@) && builder_lines(*final(builder))
                == builder_lines(*old(builder)),
        },
{
    builder.add_line(None, line).map(|_| ()).map_err(|e| e.to_string())
}

/// `GitignoreBuilder::build` of `ignore`: a matcher of the patterns, or an error
/// that depends on the patterns alone. Without patterns it has no root either.
#[verifier::external_body]
fn build_matcher(builder: &ignore::gitignore::GitignoreBuilder) -> (r: Result<
    ignore::gitignore::Gitignore,
    String,
>)
    requires
        builder_lines(*builder) is Some,
    ensures
        match r {
            Ok(matcher) => matcher_error(builder_lines(*builder)->0.patterns) is None && matcher_lines(
                matcher,
            ) == (if builder_lines(*builder)->0.patterns.len() == 0 {
                Some((IgnoreView { root: Seq::empty(), patterns: Seq::empty() }))
            } else {
                builder_lines(*builder)
            }),
            Err(message) => matcher_error(builder_lines(*builder)->0.patterns) == Some(message@),
        },
{
    builder.build().map_err(|e| e.to_string())
}

/// Whether the last pattern that says anything of a file says that it is ignored.
pub open spec fn is_ignored(root: Seq<char>, lines: Seq<Seq<char>>, path: Seq<char>) -> bool {
    exists|i: int|
        0 <= i < lines.len() && line_verdict(root, #[trigger] lines[i], path) == Some(true)
            && silent_after(root, lines, path, i)
}

/// Whether no pattern behind the index `i` says anything of a file.
pub open spec fn silent_after(
    root: Seq<char>,
    lines: Seq<Seq<char>>,
    path: Seq<char>,
    i: int,
) -> bool {
    forall|j: int| i < j < lines.len() ==> line_verdict(root, #[trigger] lines[j], path) is None
}

/// `Gitignore::matched` of `ignore` on a path that is no directory, and
/// `is_ignore` of the match: the last pattern that says anything decides.
#[verifier::external_body]
fn matcher_ignores(matcher: &ignore::gitignore::Gitignore, path: &str) -> (r: bool)
    requires
        matcher_lines(*matcher) is Some,
    ensures
        r == (exists|i: int|
            0 <= i < matcher_lines(*matcher)->0.patterns.len() && line_verdict(
                matcher_lines(*matcher)->0.root,
                #[trigger] matcher_lines(*matcher)->0.patterns[i],
                path@,
            ) == Some(true) && silent_after(
                matcher_lines(*matcher)->0.root,
                matcher_lines(*matcher)->0.patterns,
                path@,
                i,
            )),
{
    matcher.matched(path, false).is_ignore()
}

/// The first complaint about a list of ignore patterns.
pub open spec fn first_line_error(lines: Seq<Seq<char>>) -> Option<Seq<char>>
    decreases lines.len(),
{
    if lines.len() == 0 {
        None
    } else {
        match first_line_error(lines.drop_last()) {
            Some(message) => Some(message),
            None => line_error(lines.last()),
        }
    }
}

/// Why there is no matcher of a list of ignore patterns, where there is none.
pub open spec fn ignore_failure(lines: Seq<Seq<char>>) -> Option<Seq<char>> {
    match first_line_error(lines) {
        Some(message) => Some(message),
        None => matcher_error(patterns_in(lines)),
    }
}

proof fn lemma_line_error_stays(lines: Seq<Seq<char>>, n: int)
    requires
        0 <= n <= lines.len(),
        first_line_error(lines.take(n)) is Some,
    ensures
        first_line_error(lines) == first_line_error(lines.take(n)),
    decreases lines.len() - n,
{
    if n == lines.len() {
        assert(lines.take(n) =~= lines);
    } else {
        assert(lines.take(n + 1).drop_last() =~= lines.take(n));
        lemma_line_error_stays(lines, n + 1);
    }
}

fn ignore_matcher(root: &str, lines: &Vec<String>) -> (r: Result<ignore::gitignore::Gitignore, String>)
    ensures
        match r {
            Ok(matcher) => {
                let patterns = patterns_in(crate::text::texts(lines@));
                &&& ignore_failure(crate::text::texts(lines@)) is None
                &&& matcher_lines(matcher) is Some
                &&& matcher_lines(matcher)->0.patterns == patterns
                &&& patterns.len() > 0 ==> matcher_lines(matcher)->0.root == without_dot(root@)
            },
            Err(message) => ignore_failure(crate::text::texts(lines@)) == Some(message@),
        },
{
    let ghost all = crate::text::texts(lines@);
    let mut builder = ignore_builder(root);
    let mut i: usize = 0;
    proof {
        assert(all.take(0) =~= Seq::<Seq<char>>::empty());
    }
    while i < lines.len()
        invariant
            i <= lines@.len(),
            all == crate::text::texts(lines@),
            first_line_error(all.take(i as int)) is None,
            builder_lines(builder) == Some(
                IgnoreView {
                    root: without_dot(root@),
                    patterns: patterns_in(all.take(i as int)),
                },
            ),
        decreases lines@.len() - i,
    {
        let line = lines[i].as_str();
        proof {
            assert(all.take(i + 1).drop_last() =~= all.take(i as int));
            assert(all.take(i + 1).last() == line@);
        }
        match add_ignore_line(&mut builder, line) {
            Ok(_) => {},
            Err(message) => {
                proof {
                    lemma_line_error_stays(all, i + 1);
                }
                return Err(message);
            },
        }
        i = i + 1;
    }
    proof {
        assert(all.take(lines@.len() as int) =~= all);
    }
    build_matcher(&builder)
}

/// The files of a list that the patterns in some lines do not ignore, in order.
pub open spec fn kept(root: Seq<char>, lines: Seq<Seq<char>>, files: Seq<Seq<char>>) -> Seq<
    Seq<char>,
>
    decreases files.len(),
{
    if files.len() == 0 {
        Seq::empty()
    } else if is_ignored(without_dot(root), patterns_in(lines), files.last()) {
        kept(root, lines, files.drop_last())
    } else {
        kept(root, lines, files.drop_last()).push(files.last())
    }
}

/// The files of a walk that are not ignored, sorted: the patterns exclude, `!`
/// re-includes, and the last pattern that matches a file decides. Matching is
/// by file: a pattern that excludes a directory does not keep a later one from
/// re-including what it holds.
pub fn keep_files(root: &str, lines: &Vec<String>, walked: &Vec<String>) -> (r: Result<
    Vec<String>,
    String,
>)
    ensures
        match r {
            Ok(files) => ignore_failure(crate::text::texts(lines@)) is None && crate::text::texts(
                files@,
            ) == crate::paths::sorted_paths(
                kept(root@, crate::text::texts(lines@), crate::text::texts(walked@)),
            ),
            Err(message) => ignore_failure(crate::text::texts(lines@)) == Some(message@),
        },
{
    let matcher = match ignore_matcher(root, lines) {
        Ok(matcher) => matcher,
        Err(message) => {
            return Err(message);
        },
    };
    let ghost patterns = crate::text::texts(lines@);
    let ghost all = crate::text::texts(walked@);
    let mut out: Vec<String> = Vec::new();
    let mut i: usize = 0;
    proof {
        assert(crate::text::texts(out@) =~= kept(root@, patterns, all.take(0)));
    }
    while i < walked.len()
        invariant
            i <= walked@.len(),
            all == crate::text::texts(walked@),
            matcher_lines(matcher) is Some,
            matcher_lines(matcher)->0.patterns == patterns_in(patterns),
            patterns_in(patterns).len() > 0 ==> matcher_lines(matcher)->0.root == without_dot(root@),
            crate::text::texts(out@) == kept(root@, patterns, all.take(i as int)),
        decreases walked@.len() - i,
    {
        let path = walked[i].as_str();
        proof {
            assert(all.take(i + 1).drop_last() =~= all.take(i as int));
            assert(all.take(i + 1).last() == path@);
        }
        let ignored = matcher_ignores(&matcher, path);
        proof {
            if patterns_in(patterns).len() > 0 {
                assert(ignored == is_ignored(without_dot(root@), patterns_in(patterns), path@));
            }
        }
        if !ignored {
            let copy = copy_text(path);
            proof {
                crate::text::lemma_texts_push(out@, copy);
            }
            out.push(copy);
        }
        i = i + 1;
    }
    proof {
        assert(all.take(walked@.len() as int) =~= all);
    }
    Ok(sort_paths(&out))
}

/// A file that a pattern re-includes is kept, whatever earlier patterns say of
/// it, unless a later one ignores it again.
pub proof fn law_last_pattern_wins(
    root: Seq<char>,
    lines: Seq<Seq<char>>,
    path: Seq<char>,
    i: int,
)
    requires
        0 <= i < lines.len(),
        line_verdict(root, lines[i], path) is Some,
        silent_after(root, lines, path, i),
    ensures
        is_ignored(root, lines, path) <==> line_verdict(root, lines[i], path) == Some(true),
{
    if is_ignored(root, lines, path) {
        let k = choose|k: int|
            0 <= k < lines.len() && line_verdict(root, #[trigger] lines[k], path) == Some(true)
                && silent_after(root, lines, path, k);
        if k < i {
            assert(line_verdict(root, lines[i], path) is None);
        } else if k > i {
            assert(line_verdict(root, lines[k], path) is None);
        }
    }
}

/// What the walk itself leaves out, as patterns for its overrides: directories
/// of dependencies, of version control and of builds, and the temporary one.
pub open spec fn walk_overrides_of(temp_dir_name: Seq<char>) -> Seq<Seq<char>> {
    seq![
        "!node_modules"@,
        "!.git"@,
        "!*.tsbuildinfo"@,
        "!.next"@,
        "!.nuxt"@,
        "!.svelte-kit"@,
        "!.turbo"@,
        "!"@ + temp_dir_name,
    ]
}

/// What the walk itself leaves out, as patterns for its overrides.
pub fn walk_overrides(temp_dir_name: &str) -> (r: Vec<String>)
    ensures
        crate::text::texts(r@) == walk_overrides_of(temp_dir_name@),
{
    let mut out: Vec<String> = Vec::new();
    out.push(copy_text("!node_modules"));
    out.push(copy_text("!.git"));
    out.push(copy_text("!*.tsbuildinfo"));
    out.push(copy_text("!.next"));
    out.push(copy_text("!.nuxt"));
    out.push(copy_text("!.svelte-kit"));
    out.push(copy_text("!.turbo"));
    out.push(concat2("!", temp_dir_name));
    proof {
        assert(crate::text::texts(out@) =~= walk_overrides_of(temp_dir_name@));
    }
    out
}

// ---- targets ----

/// A file to mutate.
#[derive(Debug)]
pub struct MutateTarget {
    /// Relative to the project root.
    pub path: String,
    /// Restrict mutation to these ranges (empty = whole file).
    pub ranges: Vec<MutationRange>,
    /// Named literally in `mutate`: must appear in the report even with zero
    /// mutants (downstream parsers treat absence as failure).
    pub requested_literally: bool,
}

/// The mathematical value of a target.
pub struct TargetView {
    pub path: Seq<char>,
    pub ranges: Seq<MutationRange>,
    pub requested_literally: bool,
}

impl MutateTarget {
    pub open spec fn view(&self) -> TargetView {
        TargetView {
            path: self.path@,
            ranges: self.ranges@,
            requested_literally: self.requested_literally,
        }
    }
}

/// The values of a list of targets.
pub open spec fn target_views(v: Seq<MutateTarget>) -> Seq<TargetView> {
    v.map_values(|t: MutateTarget| t@)
}

/// The files of a project.
#[derive(Debug)]
pub struct Project {
    pub root: String,
    /// All non-ignored files, sorted (deterministic mutant ids depend on it).
    pub files: Vec<String>,
    /// Files to mutate, sorted.
    pub targets: Vec<MutateTarget>,
}

/// The patterns of a list with the given sign, in order.
pub open spec fn signed(
    patterns: Seq<crate::mutate_pattern::MutatePatternView>,
    negated: bool,
) -> Seq<crate::mutate_pattern::MutatePatternView>
    decreases patterns.len(),
{
    if patterns.len() == 0 {
        Seq::empty()
    } else if patterns.last().negated == negated {
        signed(patterns.drop_last(), negated).push(patterns.last())
    } else {
        signed(patterns.drop_last(), negated)
    }
}

/// The globs of a list of patterns.
pub open spec fn globs_of(patterns: Seq<crate::mutate_pattern::MutatePatternView>) -> Seq<
    Seq<char>,
> {
    patterns.map_values(|p: crate::mutate_pattern::MutatePatternView| p.glob)
}

/// Whether a name marks a test file.
pub open spec fn has_test_marker(name: Seq<char>) -> bool {
    crate::text::has(name, ".test."@) || crate::text::has(name, ".spec."@) || crate::text::has(
        name,
        ".stories."@,
    )
}

/// Whether a part of a path is the name of a directory of tests.
pub open spec fn is_test_part(part: Seq<char>) -> bool {
    part == "__tests__"@ || part == "__mocks__"@ || part == "test"@ || part == "tests"@ || part
        == "e2e"@
}

/// The file name of a path, empty where it has none.
pub open spec fn own_name(path: Seq<char>) -> Seq<char> {
    match crate::paths::last_name(path) {
        Some(name) => name,
        None => Seq::empty(),
    }
}

/// Whether a path is that of a test file.
pub open spec fn test_file(path: Seq<char>) -> bool {
    has_test_marker(own_name(path)) || exists|i: int|
        0 <= i < crate::paths::parts(path).len() && is_test_part(
            #[trigger] crate::paths::parts(path)[i],
        )
}

/// Whether a path is that of a file of declarations.
pub open spec fn declaration_file(path: Seq<char>) -> bool {
    crate::text::ends(own_name(path), ".d.ts"@) || crate::text::ends(own_name(path), ".d.mts"@)
        || crate::text::ends(own_name(path), ".d.cts"@)
}

/// The extensions of source files.
pub open spec fn is_source_suffix(e: Seq<char>) -> bool {
    e == "ts"@ || e == "tsx"@ || e == "mts"@ || e == "cts"@ || e == "js"@ || e == "jsx"@ || e
        == "mjs"@ || e == "cjs"@
}

/// Whether a path is that of a source file of a corpus: no declarations.
pub open spec fn corpus_file(path: Seq<char>) -> bool {
    &&& crate::paths::suffix_of(path) matches Some(e)
    &&& is_source_suffix(e)
    &&& !crate::text::ends(own_name(path), ".d.ts"@)
    &&& !crate::text::ends(own_name(path), ".d.mts"@)
}

fn name_of(path: &str) -> (r: String)
    ensures
        r@ == own_name(path@),
{
    match file_name(path) {
        Some(name) => name,
        None => {
            let none = String::new();
            proof {
                assert(none@ =~= Seq::<char>::empty());
            }
            none
        },
    }
}

/// Whether a path is that of a test file.
pub fn is_test_file(path: &str) -> (r: bool)
    ensures
        r == test_file(path@),
{
    let name = name_of(path);
    if has_text(name.as_str(), ".test.") || has_text(name.as_str(), ".spec.") || has_text(
        name.as_str(),
        ".stories.",
    ) {
        return true;
    }
    let parts = parts_of(path);
    let ghost all = crate::paths::parts(path@);
    let mut i: usize = 0;
    while i < parts.len()
        invariant
            i <= parts@.len(),
            all == crate::text::texts(parts@),
            all == crate::paths::parts(path@),
            forall|k: int| 0 <= k < i ==> !is_test_part(#[trigger] all[k]),
        decreases parts@.len() - i,
    {
        let part = parts[i].as_str();
        proof {
            assert(all[i as int] == part@);
        }
        if same(part, "__tests__") || same(part, "__mocks__") || same(part, "test") || same(
            part,
            "tests",
        ) || same(part, "e2e") {
            return true;
        }
        i = i + 1;
    }
    false
}

/// Whether a path is that of a file of declarations.
pub fn is_declaration_file(path: &str) -> (r: bool)
    ensures
        r == declaration_file(path@),
{
    let name = name_of(path);
    ends_in(name.as_str(), ".d.ts") || ends_in(name.as_str(), ".d.mts") || ends_in(
        name.as_str(),
        ".d.cts",
    )
}

/// Whether a path is that of a source file of a corpus.
pub fn is_corpus_file(path: &str) -> (r: bool)
    ensures
        r == corpus_file(path@),
{
    let name = name_of(path);
    if ends_in(name.as_str(), ".d.ts") || ends_in(name.as_str(), ".d.mts") {
        return false;
    }
    match extension(path) {
        Some(e) => {
            let e = e.as_str();
            same(e, "ts") || same(e, "tsx") || same(e, "mts") || same(e, "cts") || same(e, "js")
                || same(e, "jsx") || same(e, "mjs") || same(e, "cjs")
        },
        None => false,
    }
}

/// The ranges of the patterns at a list of indexes, in order.
pub open spec fn ranges_at(
    patterns: Seq<crate::mutate_pattern::MutatePatternView>,
    at: Seq<usize>,
) -> Seq<MutationRange>
    decreases at.len(),
{
    if at.len() == 0 {
        Seq::empty()
    } else {
        let front = ranges_at(patterns, at.drop_last());
        match patterns[at.last() as int].range {
            Some(range) => front.push(range),
            None => front,
        }
    }
}

/// Whether one of the patterns at a list of indexes has no range.
pub open spec fn names_whole_file(
    patterns: Seq<crate::mutate_pattern::MutatePatternView>,
    at: Seq<usize>,
) -> bool {
    exists|k: int| 0 <= k < at.len() && patterns[(#[trigger] at[k]) as int].range is None
}

/// Whether one of the patterns at a list of indexes is a literal path.
pub open spec fn names_literally(
    patterns: Seq<crate::mutate_pattern::MutatePatternView>,
    at: Seq<usize>,
) -> bool {
    exists|k: int|
        0 <= k < at.len() && crate::mutate_pattern::literal(patterns[(#[trigger] at[k]) as int].glob)
}

/// Whether a glob of a list matches a path.
pub open spec fn any_hits(globs: Seq<Seq<char>>, path: Seq<char>) -> bool {
    exists|i: int| 0 <= i < globs.len() && glob_hits(#[trigger] globs[i], path)
}

/// The target that a file is, where it is one.
pub open spec fn target_of(
    path: Seq<char>,
    patterns: Seq<crate::mutate_pattern::MutatePatternView>,
) -> Option<TargetView> {
    let positive = signed(patterns, false);
    let at = matching(hits(globs_of(positive)), path);
    if at.len() == 0 || any_hits(globs_of(signed(patterns, true)), path) || test_file(path)
        || declaration_file(path) {
        None
    } else {
        Some(
            TargetView {
                path,
                ranges: if names_whole_file(positive, at) {
                    Seq::empty()
                } else {
                    ranges_at(positive, at)
                },
                requested_literally: names_literally(positive, at),
            },
        )
    }
}

/// The targets among a list of files, in order.
pub open spec fn targets_of(
    files: Seq<Seq<char>>,
    patterns: Seq<crate::mutate_pattern::MutatePatternView>,
) -> Seq<TargetView>
    decreases files.len(),
{
    if files.len() == 0 {
        Seq::empty()
    } else {
        let front = targets_of(files.drop_last(), patterns);
        match target_of(files.last(), patterns) {
            Some(target) => front.push(target),
            None => front,
        }
    }
}

/// Why no targets can be found, where none can: the excluding patterns come first.
pub open spec fn targets_failure(patterns: Seq<crate::mutate_pattern::MutatePatternView>) -> Option<
    Seq<char>,
> {
    match set_failure(globs_of(signed(patterns, true))) {
        Some(message) => Some(message),
        None => set_failure(globs_of(signed(patterns, false))),
    }
}

/// The indexes of the patterns with the given sign, and their globs.
fn pick_signed(patterns: &Vec<MutatePattern>, negated: bool) -> (r: (Vec<usize>, Vec<String>))
    ensures
        r.0@.len() == r.1@.len(),
        forall|k: int| 0 <= k < r.0@.len() ==> #[trigger] r.0@[k] < patterns@.len(),
        r.0@.map_values(|i: usize| patterns@[i as int]@) == signed(
            crate::config::pattern_views(patterns@),
            negated,
        ),
        crate::text::texts(r.1@) == globs_of(
            signed(crate::config::pattern_views(patterns@), negated),
        ),
{
    let ghost all = crate::config::pattern_views(patterns@);
    let ghost at = |i: usize| patterns@[i as int]@;
    let mut places: Vec<usize> = Vec::new();
    let mut globs: Vec<String> = Vec::new();
    let mut i: usize = 0;
    proof {
        assert(places@.map_values(at) =~= signed(all.take(0), negated));
        assert(crate::text::texts(globs@) =~= globs_of(signed(all.take(0), negated)));
    }
    while i < patterns.len()
        invariant
            i <= patterns@.len(),
            all == crate::config::pattern_views(patterns@),
            at == (|i: usize| patterns@[i as int]@),
            places@.len() == globs@.len(),
            forall|k: int| 0 <= k < places@.len() ==> #[trigger] places@[k] < patterns@.len(),
            places@.map_values(at) == signed(all.take(i as int), negated),
            crate::text::texts(globs@) == globs_of(signed(all.take(i as int), negated)),
        decreases patterns@.len() - i,
    {
        let pattern = &patterns[i];
        let ghost front = signed(all.take(i as int), negated);
        proof {
            assert(all.take(i + 1).drop_last() =~= all.take(i as int));
            assert(all.take(i + 1).last() == pattern@);
        }
        if pattern.negated == negated {
            let ghost before = places@;
            let copy = copy_text(pattern.glob.as_str());
            proof {
                crate::text::lemma_texts_push(globs@, copy);
                assert(globs_of(front.push(pattern@)) =~= globs_of(front).push(copy@));
            }
            places.push(i);
            globs.push(copy);
            proof {
                assert(places@.map_values(at) =~= before.map_values(at).push(pattern@));
            }
        }
        i = i + 1;
    }
    proof {
        assert(all.take(patterns@.len() as int) =~= all);
    }
    (places, globs)
}

proof fn lemma_any_hits(globs: Seq<Seq<char>>, path: Seq<char>)
    ensures
        any_hits(globs, path) == (exists|i: int|
            0 <= i < hits(globs).len() && (#[trigger] hits(globs)[i]).contains(path)),
{
    if any_hits(globs, path) {
        let i = choose|i: int| 0 <= i < globs.len() && glob_hits(#[trigger] globs[i], path);
        assert(hits(globs)[i].contains(path));
    }
    if exists|i: int| 0 <= i < hits(globs).len() && (#[trigger] hits(globs)[i]).contains(path) {
        let i = choose|i: int|
            0 <= i < hits(globs).len() && (#[trigger] hits(globs)[i]).contains(path);
        assert(glob_hits(globs[i], path));
    }
}

proof fn lemma_matching_in_range(globs: Seq<Set<Seq<char>>>, path: Seq<char>)
    requires
        globs.len() <= usize::MAX,
    ensures
        forall|k: int|
            0 <= k < matching(globs, path).len() ==> #[trigger] matching(globs, path)[k]
                < globs.len(),
    decreases globs.len(),
{
    if globs.len() > 0 {
        let front = matching(globs.drop_last(), path);
        lemma_matching_in_range(globs.drop_last(), path);
        assert forall|k: int| 0 <= k < matching(globs, path).len() implies #[trigger] matching(
            globs,
            path,
        )[k] < globs.len() by {
            if k < front.len() {
                assert(matching(globs, path)[k] == front[k]);
            }
        }
    }
}

fn make_target(
    path: &str,
    patterns: &Vec<MutatePattern>,
    places: &Vec<usize>,
    at: &Vec<usize>,
    Ghost(positive): Ghost<Seq<crate::mutate_pattern::MutatePatternView>>,
) -> (r: MutateTarget)
    requires
        forall|k: int| 0 <= k < places@.len() ==> #[trigger] places@[k] < patterns@.len(),
        places@.map_values(|i: usize| patterns@[i as int]@) == positive,
        forall|k: int| 0 <= k < at@.len() ==> #[trigger] at@[k] < places@.len(),
    ensures
        r@ == (TargetView {
            path: path@,
            ranges: if names_whole_file(positive, at@) {
                Seq::empty()
            } else {
                ranges_at(positive, at@)
            },
            requested_literally: names_literally(positive, at@),
        }),
{
    let mut ranges: Vec<MutationRange> = Vec::new();
    let mut whole_file = false;
    let mut literally = false;
    let mut k: usize = 0;
    proof {
        assert(at@.take(0) =~= Seq::<usize>::empty());
    }
    while k < at.len()
        invariant
            k <= at@.len(),
            forall|n: int| 0 <= n < places@.len() ==> #[trigger] places@[n] < patterns@.len(),
            places@.map_values(|i: usize| patterns@[i as int]@) == positive,
            forall|n: int| 0 <= n < at@.len() ==> #[trigger] at@[n] < places@.len(),
            ranges@ == ranges_at(positive, at@.take(k as int)),
            whole_file == names_whole_file(positive, at@.take(k as int)),
            literally == names_literally(positive, at@.take(k as int)),
        decreases at@.len() - k,
    {
        let place: usize = at[k];
        let index: usize = places[place];
        let pattern = &patterns[index];
        let ghost front = at@.take(k as int);
        let ghost upto = at@.take(k + 1);
        proof {
            assert(upto.drop_last() =~= front);
            assert(upto.last() == place);
            assert(positive[place as int] == pattern@);
        }
        let named = pattern.is_literal_path();
        literally = literally || named;
        match pattern.range {
            Some(range) => {
                ranges.push(range);
            },
            None => {
                whole_file = true;
            },
        }
        proof {
            if names_whole_file(positive, front) {
                let n = choose|n: int|
                    0 <= n < front.len() && positive[(#[trigger] front[n]) as int].range is None;
                assert(upto[n] == front[n]);
            }
            if names_whole_file(positive, upto) {
                let n = choose|n: int|
                    0 <= n < upto.len() && positive[(#[trigger] upto[n]) as int].range is None;
                if n < k {
                    assert(front[n] == upto[n]);
                }
            }
            if pattern@.range is None {
                assert(positive[upto[k as int] as int].range is None);
            }
            if names_literally(positive, front) {
                let n = choose|n: int|
                    0 <= n < front.len() && crate::mutate_pattern::literal(
                        positive[(#[trigger] front[n]) as int].glob,
                    );
                assert(upto[n] == front[n]);
            }
            if names_literally(positive, upto) {
                let n = choose|n: int|
                    0 <= n < upto.len() && crate::mutate_pattern::literal(
                        positive[(#[trigger] upto[n]) as int].glob,
                    );
                if n < k {
                    assert(front[n] == upto[n]);
                }
            }
            if named {
                assert(crate::mutate_pattern::literal(positive[upto[k as int] as int].glob));
            }
        }
        k = k + 1;
    }
    proof {
        assert(at@.take(at@.len() as int) =~= at@);
    }
    if whole_file {
        ranges = Vec::new();
        proof {
            assert(ranges@ =~= Seq::<MutationRange>::empty());
        }
    }
    MutateTarget { path: copy_text(path), ranges, requested_literally: literally }
}

/// The targets among a list of files: those that a pattern names and none
/// excludes, without test files and files of declarations.
pub fn resolve_targets(files: &Vec<String>, patterns: &Vec<MutatePattern>) -> (r: Result<
    Vec<MutateTarget>,
    String,
>)
    ensures
        match r {
            Ok(targets) => targets_failure(crate::config::pattern_views(patterns@)) is None
                && target_views(targets@) == targets_of(
                crate::text::texts(files@),
                crate::config::pattern_views(patterns@),
            ),
            Err(message) => targets_failure(crate::config::pattern_views(patterns@)) == Some(
                message@,
            ),
        },
{
    let ghost all = crate::config::pattern_views(patterns@);
    let ghost positive = signed(all, false);
    let ghost negative = signed(all, true);
    let (_, excluded) = pick_signed(patterns, true);
    let (places, wanted) = pick_signed(patterns, false);
    let negative_set = match build_globset(&excluded) {
        Ok(set) => set,
        Err(message) => {
            return Err(message);
        },
    };
    let positive_set = match build_globset(&wanted) {
        Ok(set) => set,
        Err(message) => {
            return Err(message);
        },
    };
    let ghost paths = crate::text::texts(files@);
    let mut targets: Vec<MutateTarget> = Vec::new();
    let mut i: usize = 0;
    proof {
        assert(target_views(targets@) =~= targets_of(paths.take(0), all));
        assert(globs_of(positive).len() == positive.len());
        assert(positive.len() == places@.len());
    }
    while i < files.len()
        invariant
            i <= files@.len(),
            paths == crate::text::texts(files@),
            positive == signed(all, false),
            negative == signed(all, true),
            globs_in(negative_set) == hits(globs_of(negative)),
            globs_in(positive_set) == hits(globs_of(positive)),
            globs_of(positive).len() == places@.len(),
            forall|k: int| 0 <= k < places@.len() ==> #[trigger] places@[k] < patterns@.len(),
            places@.map_values(|i: usize| patterns@[i as int]@) == positive,
            target_views(targets@) == targets_of(paths.take(i as int), all),
        decreases files@.len() - i,
    {
        let path = files[i].as_str();
        proof {
            assert(paths.take(i + 1).drop_last() =~= paths.take(i as int));
            assert(paths.take(i + 1).last() == path@);
            lemma_matching_in_range(hits(globs_of(positive)), path@);
        }
        let at = set_matches(&positive_set, path);
        let excluding = set_is_match(&negative_set, path);
        proof {
            lemma_any_hits(globs_of(negative), path@);
        }
        let skipped = at.len() == 0 || excluding || is_test_file(path)
            || is_declaration_file(path);
        if !skipped {
            let target = make_target(path, patterns, &places, &at, Ghost(positive));
            let ghost before = targets@;
            targets.push(target);
            proof {
                assert(target_views(targets@) =~= target_views(before).push(target@));
            }
        }
        i = i + 1;
    }
    proof {
        assert(paths.take(files@.len() as int) =~= paths);
    }
    Ok(targets)
}

proof fn lemma_targets(
    files: Seq<Seq<char>>,
    patterns: Seq<crate::mutate_pattern::MutatePatternView>,
    k: int,
)
    requires
        0 <= k < targets_of(files, patterns).len(),
    ensures
        files.contains(targets_of(files, patterns)[k].path),
        target_of(targets_of(files, patterns)[k].path, patterns) == Some(
            targets_of(files, patterns)[k],
        ),
    decreases files.len(),
{
    let front = targets_of(files.drop_last(), patterns);
    if k < front.len() {
        lemma_targets(files.drop_last(), patterns, k);
        let path = front[k].path;
        let n = files.drop_last().index_of(path);
        assert(files[n] == path);
    } else {
        assert(files[files.len() - 1] == files.last());
    }
}

/// Test files, files of declarations and what a negated pattern matches are
/// never mutated, and a target is a file of the project.
pub proof fn law_targets_are_no_tests(
    files: Seq<Seq<char>>,
    patterns: Seq<crate::mutate_pattern::MutatePatternView>,
    k: int,
)
    requires
        0 <= k < targets_of(files, patterns).len(),
    ensures
        files.contains(targets_of(files, patterns)[k].path),
        !test_file(targets_of(files, patterns)[k].path),
        !declaration_file(targets_of(files, patterns)[k].path),
        !any_hits(globs_of(signed(patterns, true)), targets_of(files, patterns)[k].path),
{
    lemma_targets(files, patterns, k);
}

/// Why a project could not be read.
#[derive(Debug)]
pub enum ProjectError {
    /// An entry of `mutate` is no pattern.
    Pattern(BadPattern),
    /// An ignore pattern is invalid.
    Ignore(String),
    /// A glob is invalid.
    Glob(String),
}

/// Reads a project from what a walk of its root found.
pub fn read_project(root: &str, config: &StrykerConfig, walked: &Vec<String>) -> (r: Result<
    Project,
    ProjectError,
>)
    ensures
        ({
            let entries = crate::text::texts(config.mutate@);
            let lines = crate::text::texts(config.ignore_patterns@);
            let patterns = crate::config::patterns_of(entries);
            let files = crate::paths::sorted_paths(
                kept(root@, lines, crate::text::texts(walked@)),
            );
            match r {
                Ok(project) => {
                    &&& crate::config::first_bad(entries) is None
                    &&& ignore_failure(lines) is None
                    &&& targets_failure(patterns) is None
                    &&& project.root@ == root@
                    &&& crate::text::texts(project.files@) == files
                    &&& target_views(project.targets@) == targets_of(files, patterns)
                },
                Err(ProjectError::Pattern(bad)) => crate::config::first_bad(entries) matches Some(i)
                    && bad.entry@ == entries[i] && crate::mutate_pattern::parsed_pattern(bad.entry@)
                    == Err::<
                    crate::mutate_pattern::MutatePatternView,
                    crate::mutate_pattern::MutatePatternError,
                >(bad.cause),
                Err(ProjectError::Ignore(message)) => crate::config::first_bad(entries) is None
                    && ignore_failure(lines) == Some(message@),
                Err(ProjectError::Glob(message)) => crate::config::first_bad(entries) is None
                    && ignore_failure(lines) is None && targets_failure(patterns) == Some(message@),
            }
        }),
{
    let patterns = match config.parsed_mutate() {
        Ok(patterns) => patterns,
        Err(bad) => {
            return Err(ProjectError::Pattern(bad));
        },
    };
    let files = match keep_files(root, &config.ignore_patterns, walked) {
        Ok(files) => files,
        Err(message) => {
            return Err(ProjectError::Ignore(message));
        },
    };
    let targets = match resolve_targets(&files, &patterns) {
        Ok(targets) => targets,
        Err(message) => {
            return Err(ProjectError::Glob(message));
        },
    };
    Ok(Project { root: copy_text(root), files, targets })
}

// ---- listing ----

/// The lines of a range in words.
pub open spec fn range_words(range: MutationRange) -> Seq<char> {
    crate::text::decimal(range.start_line as nat) + "-"@ + crate::text::decimal(
        range.end_line as nat,
    )
}

/// A target as it is listed: its path, and its ranges, where it has any.
pub open spec fn target_words(target: TargetView) -> Seq<char> {
    if target.ranges.len() == 0 {
        target.path
    } else {
        target.path + ":"@ + crate::text::joined(
            target.ranges.map_values(|r: MutationRange| range_words(r)),
            ","@,
        )
    }
}

/// A target as it is listed.
pub fn describe_target(target: &MutateTarget) -> (r: String)
    ensures
        r@ == target_words(target@),
{
    if target.ranges.len() == 0 {
        return copy_text(target.path.as_str());
    }
    let ghost words = target.ranges@.map_values(|r: MutationRange| range_words(r));
    let mut parts: Vec<String> = Vec::new();
    let mut i: usize = 0;
    proof {
        assert(crate::text::texts(parts@) =~= words.take(0));
    }
    while i < target.ranges.len()
        invariant
            i <= target.ranges@.len(),
            words == target.ranges@.map_values(|r: MutationRange| range_words(r)),
            crate::text::texts(parts@) == words.take(i as int),
        decreases target.ranges@.len() - i,
    {
        let range = target.ranges[i];
        let part = concat3(
            number(range.start_line as u64).as_str(),
            "-",
            number(range.end_line as u64).as_str(),
        );
        proof {
            crate::text::lemma_texts_push(parts@, part);
            assert(part@ =~= range_words(range));
            assert(words.take(i + 1) =~= words.take(i as int).push(part@));
        }
        parts.push(part);
        i = i + 1;
    }
    proof {
        assert(words.take(target.ranges@.len() as int) =~= words);
    }
    concat3(target.path.as_str(), ":", join(&parts, ",").as_str())
}

/// Whether one of the patterns that name files matches a path and restricts it to
/// a range.
pub open spec fn asks_for_range(
    patterns: Seq<crate::mutate_pattern::MutatePatternView>,
    path: Seq<char>,
    range: MutationRange,
) -> bool {
    exists|i: int|
        0 <= i < patterns.len() && !(#[trigger] patterns[i]).negated && glob_hits(
            patterns[i].glob,
            path,
        ) && patterns[i].range == Some(range)
}

/// Whether one of the patterns that name files matches a path without a range.
pub open spec fn asks_for_all(
    patterns: Seq<crate::mutate_pattern::MutatePatternView>,
    path: Seq<char>,
) -> bool {
    exists|i: int|
        0 <= i < patterns.len() && !(#[trigger] patterns[i]).negated && glob_hits(
            patterns[i].glob,
            path,
        ) && patterns[i].range is None
}

/// Whether a pattern of a sign matches a path.
pub open spec fn is_named(
    patterns: Seq<crate::mutate_pattern::MutatePatternView>,
    path: Seq<char>,
    negated: bool,
) -> bool {
    exists|i: int|
        0 <= i < patterns.len() && (#[trigger] patterns[i]).negated == negated && glob_hits(
            patterns[i].glob,
            path,
        )
}

/// Whether a literal pattern that names files matches a path.
pub open spec fn is_named_literally(
    patterns: Seq<crate::mutate_pattern::MutatePatternView>,
    path: Seq<char>,
) -> bool {
    exists|i: int|
        0 <= i < patterns.len() && !(#[trigger] patterns[i]).negated && glob_hits(
            patterns[i].glob,
            path,
        ) && crate::mutate_pattern::literal(patterns[i].glob)
}

/// The patterns of a sign are those of the list, and the index of each is known.
proof fn lemma_signed(
    patterns: Seq<crate::mutate_pattern::MutatePatternView>,
    negated: bool,
)
    ensures
        forall|k: int|
            0 <= k < signed(patterns, negated).len() ==> (#[trigger] signed(patterns, negated)[k]).negated
                == negated && patterns.contains(signed(patterns, negated)[k]),
        forall|i: int|
            0 <= i < patterns.len() && (#[trigger] patterns[i]).negated == negated ==> signed(
                patterns,
                negated,
            ).contains(patterns[i]),
    decreases patterns.len(),
{
    if patterns.len() > 0 {
        let front = patterns.drop_last();
        lemma_signed(front, negated);
        let before = signed(front, negated);
        let all = signed(patterns, negated);
        assert forall|k: int| 0 <= k < all.len() implies (#[trigger] all[k]).negated == negated
            && patterns.contains(all[k]) by {
            if k < before.len() {
                assert(all[k] == before[k]);
                let n = front.index_of(before[k]);
                assert(patterns[n] == all[k]);
            } else {
                assert(patterns[patterns.len() - 1] == all[k]);
            }
        }
        assert forall|i: int|
            0 <= i < patterns.len() && (#[trigger] patterns[i]).negated == negated implies all.contains(
            patterns[i],
        ) by {
            if i < front.len() {
                assert(front[i] == patterns[i]);
                let k = before.index_of(patterns[i]);
                assert(all[k] == patterns[i]);
            } else {
                assert(all[all.len() - 1] == patterns[i]);
            }
        }
    }
}

proof fn lemma_matching(globs: Seq<Seq<char>>, path: Seq<char>)
    requires
        globs.len() <= usize::MAX,
    ensures
        forall|k: int|
            0 <= k < matching(hits(globs), path).len() ==> 0 <= #[trigger] matching(
                hits(globs),
                path,
            )[k] < globs.len() && glob_hits(globs[matching(hits(globs), path)[k] as int], path),
        forall|i: int|
            0 <= i < globs.len() && glob_hits(#[trigger] globs[i], path) ==> matching(
                hits(globs),
                path,
            ).contains(i as usize),
    decreases globs.len(),
{
    if globs.len() > 0 {
        let front = globs.drop_last();
        lemma_matching(front, path);
        assert(hits(globs).drop_last() =~= hits(front));
        let before = matching(hits(front), path);
        let all = matching(hits(globs), path);
        assert(hits(globs).last().contains(path) == glob_hits(globs.last(), path));
        assert forall|k: int| 0 <= k < all.len() implies 0 <= #[trigger] all[k] < globs.len()
            && glob_hits(globs[all[k] as int], path) by {
            if k < before.len() {
                assert(all[k] == before[k]);
                assert(front[before[k] as int] == globs[all[k] as int]);
            }
        }
        assert forall|i: int| 0 <= i < globs.len() && glob_hits(#[trigger] globs[i], path) implies all.contains(
            i as usize,
        ) by {
            if i < front.len() {
                assert(front[i] == globs[i]);
                let k = before.index_of(i as usize);
                assert(all[k] == i as usize);
            } else {
                assert(all[all.len() - 1] == i as usize);
            }
        }
    }
}

proof fn lemma_ranges_at(
    patterns: Seq<crate::mutate_pattern::MutatePatternView>,
    at: Seq<usize>,
    range: MutationRange,
)
    ensures
        ranges_at(patterns, at).contains(range) <==> exists|k: int|
            0 <= k < at.len() && patterns[(#[trigger] at[k]) as int].range == Some(range),
    decreases at.len(),
{
    if at.len() > 0 {
        let front = at.drop_last();
        lemma_ranges_at(patterns, front, range);
        let before = ranges_at(patterns, front);
        let all = ranges_at(patterns, at);
        if all.contains(range) {
            let n = all.index_of(range);
            if n < before.len() {
                assert(before[n] == range);
                let k = choose|k: int|
                    0 <= k < front.len() && patterns[(#[trigger] front[k]) as int].range == Some(
                        range,
                    );
                assert(at[k] == front[k]);
            } else {
                assert(patterns[at[at.len() - 1] as int].range == Some(range));
            }
        }
        if exists|k: int|
            0 <= k < at.len() && patterns[(#[trigger] at[k]) as int].range == Some(range) {
            let k = choose|k: int|
                0 <= k < at.len() && patterns[(#[trigger] at[k]) as int].range == Some(range);
            if k < front.len() {
                assert(front[k] == at[k]);
                let n = before.index_of(range);
                assert(all[n] == range);
            } else {
                assert(all[all.len() - 1] == range);
            }
        }
    }
}

/// Where the pattern at an index names a path, the index of the pattern among the
/// ones that match.
proof fn lemma_match_of(
    path: Seq<char>,
    patterns: Seq<crate::mutate_pattern::MutatePatternView>,
    i: int,
) -> (k: int)
    requires
        patterns.len() <= usize::MAX,
        0 <= i < patterns.len(),
        !patterns[i].negated,
        glob_hits(patterns[i].glob, path),
    ensures
        0 <= k < matching(hits(globs_of(signed(patterns, false))), path).len(),
        signed(patterns, false)[matching(hits(globs_of(signed(patterns, false))), path)[k] as int]
            == patterns[i],
{
    let positive = signed(patterns, false);
    let globs = globs_of(positive);
    let at = matching(hits(globs), path);
    lemma_signed(patterns, false);
    lemma_signed_shorter(patterns, false);
    lemma_matching(globs, path);
    let n = positive.index_of(patterns[i]);
    assert(globs[n] == patterns[i].glob);
    at.index_of(n as usize)
}

/// Where a pattern is among the ones that match, its index in the list.
proof fn lemma_pattern_of(
    path: Seq<char>,
    patterns: Seq<crate::mutate_pattern::MutatePatternView>,
    k: int,
) -> (i: int)
    requires
        patterns.len() <= usize::MAX,
        0 <= k < matching(hits(globs_of(signed(patterns, false))), path).len(),
    ensures
        0 <= i < patterns.len(),
        !patterns[i].negated,
        glob_hits(patterns[i].glob, path),
        signed(patterns, false)[matching(hits(globs_of(signed(patterns, false))), path)[k] as int]
            == patterns[i],
{
    let positive = signed(patterns, false);
    let globs = globs_of(positive);
    let at = matching(hits(globs), path);
    lemma_signed(patterns, false);
    lemma_signed_shorter(patterns, false);
    lemma_matching(globs, path);
    let p = positive[at[k] as int];
    assert(globs[at[k] as int] == p.glob);
    patterns.index_of(p)
}

proof fn lemma_excluded(
    path: Seq<char>,
    patterns: Seq<crate::mutate_pattern::MutatePatternView>,
)
    ensures
        any_hits(globs_of(signed(patterns, true)), path) <==> is_named(patterns, path, true),
{
    let negative = signed(patterns, true);
    let globs = globs_of(negative);
    lemma_signed(patterns, true);
    if any_hits(globs, path) {
        let n = choose|n: int| 0 <= n < globs.len() && glob_hits(#[trigger] globs[n], path);
        assert(globs[n] == negative[n].glob);
        let i = patterns.index_of(negative[n]);
        assert(patterns[i] == negative[n]);
    }
    if is_named(patterns, path, true) {
        let i = choose|i: int|
            0 <= i < patterns.len() && (#[trigger] patterns[i]).negated == true && glob_hits(
                patterns[i].glob,
                path,
            );
        let n = negative.index_of(patterns[i]);
        assert(globs[n] == patterns[i].glob);
    }
}

proof fn lemma_named(path: Seq<char>, patterns: Seq<crate::mutate_pattern::MutatePatternView>)
    requires
        patterns.len() <= usize::MAX,
    ensures
        matching(hits(globs_of(signed(patterns, false))), path).len() > 0 <==> is_named(
            patterns,
            path,
            false,
        ),
{
    let at = matching(hits(globs_of(signed(patterns, false))), path);
    if at.len() > 0 {
        let i = lemma_pattern_of(path, patterns, 0);
        assert(patterns[i].negated == false);
    }
    if is_named(patterns, path, false) {
        let i = choose|i: int|
            0 <= i < patterns.len() && (#[trigger] patterns[i]).negated == false && glob_hits(
                patterns[i].glob,
                path,
            );
        let k = lemma_match_of(path, patterns, i);
    }
}

proof fn lemma_asked_for(
    path: Seq<char>,
    patterns: Seq<crate::mutate_pattern::MutatePatternView>,
    range: MutationRange,
)
    requires
        patterns.len() <= usize::MAX,
    ensures
        ({
            let positive = signed(patterns, false);
            let at = matching(hits(globs_of(positive)), path);
            &&& names_whole_file(positive, at) <==> asks_for_all(patterns, path)
            &&& names_literally(positive, at) <==> is_named_literally(patterns, path)
            &&& ranges_at(positive, at).contains(range) <==> asks_for_range(patterns, path, range)
        }),
{
    let positive = signed(patterns, false);
    let at = matching(hits(globs_of(positive)), path);
    lemma_ranges_at(positive, at, range);
    if names_whole_file(positive, at) {
        let k = choose|k: int|
            0 <= k < at.len() && positive[(#[trigger] at[k]) as int].range is None;
        let i = lemma_pattern_of(path, patterns, k);
    }
    if asks_for_all(patterns, path) {
        let i = choose|i: int|
            0 <= i < patterns.len() && !(#[trigger] patterns[i]).negated && glob_hits(
                patterns[i].glob,
                path,
            ) && patterns[i].range is None;
        let k = lemma_match_of(path, patterns, i);
    }
    if names_literally(positive, at) {
        let k = choose|k: int|
            0 <= k < at.len() && crate::mutate_pattern::literal(
                positive[(#[trigger] at[k]) as int].glob,
            );
        let i = lemma_pattern_of(path, patterns, k);
    }
    if is_named_literally(patterns, path) {
        let i = choose|i: int|
            0 <= i < patterns.len() && !(#[trigger] patterns[i]).negated && glob_hits(
                patterns[i].glob,
                path,
            ) && crate::mutate_pattern::literal(patterns[i].glob);
        let k = lemma_match_of(path, patterns, i);
    }
    if ranges_at(positive, at).contains(range) {
        let k = choose|k: int|
            0 <= k < at.len() && positive[(#[trigger] at[k]) as int].range == Some(range);
        let i = lemma_pattern_of(path, patterns, k);
    }
    if asks_for_range(patterns, path, range) {
        let i = choose|i: int|
            0 <= i < patterns.len() && !(#[trigger] patterns[i]).negated && glob_hits(
                patterns[i].glob,
                path,
            ) && patterns[i].range == Some(range);
        let k = lemma_match_of(path, patterns, i);
    }
}

/// A file is a target exactly where a pattern names it, no negated one matches
/// it, and it is neither a test file nor one of declarations. It has no ranges
/// exactly where a pattern that names it has none; otherwise its ranges are just
/// those of the patterns that name it.
pub proof fn law_targets_are_what_patterns_ask_for(
    path: Seq<char>,
    patterns: Seq<crate::mutate_pattern::MutatePatternView>,
    range: MutationRange,
)
    requires
        patterns.len() <= usize::MAX,
    ensures
        target_of(path, patterns) is Some <==> is_named(patterns, path, false) && !is_named(
            patterns,
            path,
            true,
        ) && !test_file(path) && !declaration_file(path),
        target_of(path, patterns) matches Some(t) ==> t.path == path,
        target_of(path, patterns) matches Some(t) ==> (t.ranges.len() == 0 <==> asks_for_all(
            patterns,
            path,
        )),
        target_of(path, patterns) matches Some(t) ==> (t.ranges.contains(range)
            <==> asks_for_range(patterns, path, range) && !asks_for_all(patterns, path)),
        target_of(path, patterns) matches Some(t) ==> (t.requested_literally
            <==> is_named_literally(patterns, path)),
{
    let positive = signed(patterns, false);
    let at = matching(hits(globs_of(positive)), path);
    lemma_excluded(path, patterns);
    lemma_named(path, patterns);
    lemma_asked_for(path, patterns, range);
    if at.len() > 0 && !names_whole_file(positive, at) {
        assert(positive[at[0] as int].range is Some);
        lemma_ranges_at(positive, at, positive[at[0] as int].range->0);
        assert(ranges_at(positive, at).contains(positive[at[0] as int].range->0));
    }
}

proof fn lemma_signed_shorter(
    patterns: Seq<crate::mutate_pattern::MutatePatternView>,
    negated: bool,
)
    ensures
        signed(patterns, negated).len() <= patterns.len(),
    decreases patterns.len(),
{
    if patterns.len() > 0 {
        lemma_signed_shorter(patterns.drop_last(), negated);
    }
}

/// The targets of a project are those of its files that are targets, each with
/// what the patterns ask for, in the order of the files.
pub proof fn law_every_target_is_found(
    files: Seq<Seq<char>>,
    patterns: Seq<crate::mutate_pattern::MutatePatternView>,
    i: int,
)
    requires
        0 <= i < files.len(),
        target_of(files[i], patterns) is Some,
    ensures
        targets_of(files, patterns).contains(target_of(files[i], patterns)->0),
    decreases files.len(),
{
    let front = files.drop_last();
    let all = targets_of(files, patterns);
    if i < front.len() {
        assert(front[i] == files[i]);
        law_every_target_is_found(front, patterns, i);
        let before = targets_of(front, patterns);
        let k = before.index_of(target_of(files[i], patterns)->0);
        assert(all[k] == before[k]);
    } else {
        assert(all[all.len() - 1] == target_of(files[i], patterns)->0);
    }
}

/// A file of a project is kept exactly where no pattern ignores it.
pub proof fn law_kept_files_are_not_ignored(
    root: Seq<char>,
    lines: Seq<Seq<char>>,
    files: Seq<Seq<char>>,
    path: Seq<char>,
)
    ensures
        kept(root, lines, files).contains(path) <==> files.contains(path) && !is_ignored(
            without_dot(root),
            patterns_in(lines),
            path,
        ),
    decreases files.len(),
{
    if files.len() > 0 {
        let front = files.drop_last();
        law_kept_files_are_not_ignored(root, lines, front, path);
        let before = kept(root, lines, front);
        let all = kept(root, lines, files);
        if before.contains(path) {
            let k = before.index_of(path);
            assert(all[k] == path);
        }
        if all.contains(path) && !before.contains(path) {
            let k = all.index_of(path);
            if k < before.len() {
                assert(before[k] == path);
            }
            assert(files[files.len() - 1] == path);
        }
        if front.contains(path) {
            let k = front.index_of(path);
            assert(files[k] == path);
        }
        if files.contains(path) && !front.contains(path) {
            let k = files.index_of(path);
            if k < front.len() {
                assert(front[k] == path);
            }
            if !is_ignored(without_dot(root), patterns_in(lines), path) {
                assert(all[all.len() - 1] == path);
            }
        }
    }
}

/// A comment, a blank line and white space at the end of a line change nothing.
pub proof fn law_blank_lines_and_comments_change_nothing(
    lines: Seq<Seq<char>>,
    line: Seq<char>,
)
    requires
        (line.len() > 0 && line[0] == '#') || forall|i: int|
            0 <= i < line.len() ==> crate::text::is_white_space(#[trigger] line[i]) && line[i]
                != '\\',
    ensures
        patterns_in(lines.push(line)) == patterns_in(lines),
{
    reveal_strlit("#");
    reveal_strlit("\\ ");
    assert(lines.push(line).drop_last() =~= lines);
    if line.len() > 0 && line[0] == '#' {
        assert(line.take(1) =~= "#"@);
        assert(crate::text::begins(line, "#"@));
    } else {
        lemma_blank(line);
        assert(!crate::text::ends(line, "\\ "@)) by {
            if crate::text::ends(line, "\\ "@) {
                assert(line.subrange(line.len() - 2, line.len() as int)[0] == '\\');
            }
        }
    }
}

proof fn lemma_blank(line: Seq<char>)
    requires
        forall|i: int| 0 <= i < line.len() ==> crate::text::is_white_space(#[trigger] line[i]),
    ensures
        crate::text::trimmed_back(line).len() == 0,
    decreases line.len(),
{
    if line.len() > 0 {
        assert(crate::text::is_white_space(line[line.len() - 1]));
        lemma_blank(line.drop_last());
    }
}

/// A test file is one with `.test.`, `.spec.` or `.stories.` in its name, or below a
/// directory of tests, and a file of declarations one of the three endings.
pub proof fn law_files_that_are_not_mutated(path: Seq<char>, name: Seq<char>)
    requires
        crate::paths::last_name(path) == Some(name),
    ensures
        test_file(path) <==> {
            ||| crate::text::has(name, ".test."@)
            ||| crate::text::has(name, ".spec."@)
            ||| crate::text::has(name, ".stories."@)
            ||| crate::paths::parts(path).contains("__tests__"@)
            ||| crate::paths::parts(path).contains("__mocks__"@)
            ||| crate::paths::parts(path).contains("test"@)
            ||| crate::paths::parts(path).contains("tests"@)
            ||| crate::paths::parts(path).contains("e2e"@)
        },
        declaration_file(path) <==> crate::text::ends(name, ".d.ts"@) || crate::text::ends(
            name,
            ".d.mts"@,
        ) || crate::text::ends(name, ".d.cts"@),
        corpus_file(path) <==> {
            &&& crate::paths::suffix_of(path) matches Some(e) && (e == "ts"@ || e == "tsx"@ || e
                == "mts"@ || e == "cts"@ || e == "js"@ || e == "jsx"@ || e == "mjs"@ || e == "cjs"@)
            &&& !crate::text::ends(name, ".d.ts"@)
            &&& !crate::text::ends(name, ".d.mts"@)
        },
{
    let parts = crate::paths::parts(path);
    if exists|i: int| 0 <= i < parts.len() && is_test_part(#[trigger] parts[i]) {
        let i = choose|i: int| 0 <= i < parts.len() && is_test_part(#[trigger] parts[i]);
        assert(parts.contains(parts[i]));
    }
    if parts.contains("__tests__"@) {
        assert(is_test_part(parts[parts.index_of("__tests__"@)]));
    }
    if parts.contains("__mocks__"@) {
        assert(is_test_part(parts[parts.index_of("__mocks__"@)]));
    }
    if parts.contains("test"@) {
        assert(is_test_part(parts[parts.index_of("test"@)]));
    }
    if parts.contains("tests"@) {
        assert(is_test_part(parts[parts.index_of("tests"@)]));
    }
    if parts.contains("e2e"@) {
        assert(is_test_part(parts[parts.index_of("e2e"@)]));
    }
}

/// Dependencies, version control, build outputs and the temporary directory are
/// never walked.
pub proof fn law_what_is_never_walked(temp_dir_name: Seq<char>)
    ensures
        walk_overrides_of(temp_dir_name) == seq![
            "!node_modules"@,
            "!.git"@,
            "!*.tsbuildinfo"@,
            "!.next"@,
            "!.nuxt"@,
            "!.svelte-kit"@,
            "!.turbo"@,
            "!"@ + temp_dir_name,
        ],
{
}

/// The words for a target are its path, and behind a colon its ranges by their
/// lines, with commas between them.
pub proof fn law_words_for_targets(target: TargetView, range: MutationRange)
    ensures
        target.ranges.len() == 0 ==> target_words(target) == target.path,
        target.ranges == seq![range] ==> target_words(target) == target.path + ":"@ + (
        crate::text::decimal(range.start_line as nat) + "-"@ + crate::text::decimal(
            range.end_line as nat,
        )),
        target.ranges.len() > 0 ==> target_words(target) == target.path + ":"@
            + crate::text::joined(
            target.ranges.map_values(
                |r: MutationRange|
                    crate::text::decimal(r.start_line as nat) + "-"@ + crate::text::decimal(
                        r.end_line as nat,
                    ),
            ),
            ","@,
        ),
{
    let words = target.ranges.map_values(
        |r: MutationRange|
            crate::text::decimal(r.start_line as nat) + "-"@ + crate::text::decimal(
                r.end_line as nat,
            ),
    );
    assert(target.ranges.map_values(|r: MutationRange| range_words(r)) =~= words);
    if target.ranges == seq![range] {
        assert(words.len() == 1);
        assert(words[0] == range_words(range));
    }
}

/// A list of globs is refused for the first one that is no glob.
pub proof fn law_first_bad_glob_is_named(globs: Seq<Seq<char>>)
    ensures
        match first_complaint(globs) {
            Some(message) => exists|i: int|
                0 <= i < globs.len() && glob_error(#[trigger] globs[i]) == Some(message) && forall|
                    j: int,
                |
                    0 <= j < i ==> glob_error(#[trigger] globs[j]) is None,
            None => forall|i: int| 0 <= i < globs.len() ==> glob_error(#[trigger] globs[i]) is None,
        },
    decreases globs.len(),
{
    if globs.len() > 0 {
        let front = globs.drop_last();
        law_first_bad_glob_is_named(front);
        assert forall|j: int| 0 <= j < front.len() implies #[trigger] globs[j] == front[j] by {}
        match first_complaint(front) {
            Some(message) => {
                let i = choose|i: int|
                    0 <= i < front.len() && glob_error(#[trigger] front[i]) == Some(message)
                        && forall|j: int|
                        0 <= j < i ==> glob_error(#[trigger] front[j]) is None;
                assert(globs[i] == front[i]);
                assert forall|j: int| 0 <= j < i implies glob_error(#[trigger] globs[j]) is None by {
                    assert(front[j] == globs[j]);
                }
            },
            None => {
                assert forall|j: int| 0 <= j < front.len() implies glob_error(
                    #[trigger] globs[j],
                ) is None by {
                    assert(front[j] == globs[j]);
                }
                assert(globs[globs.len() - 1] == globs.last());
            },
        }
    }
}

/// A line that says something is a pattern, without the white space behind it
/// unless its last blank is escaped.
pub proof fn law_lines_are_patterns(lines: Seq<Seq<char>>, line: Seq<char>)
    requires
        line.len() > 0,
        line[0] != '#',
    ensures
        !crate::text::is_white_space(line.last()) ==> patterns_in(lines.push(line)) == patterns_in(
            lines,
        ).push(line),
        crate::text::ends(line, "\\ "@) ==> patterns_in(lines.push(line)) == patterns_in(
            lines,
        ).push(line),
        !crate::text::ends(line, "\\ "@) && crate::text::trimmed_back(line).len() > 0
            ==> patterns_in(lines.push(line)) == patterns_in(lines).push(
            crate::text::trimmed_back(line),
        ),
        patterns_in(Seq::empty()).len() == 0,
{
    reveal_strlit("#");
    assert("#"@.len() == 1 && "#"@[0] == '#');
    assert(lines.push(line).drop_last() =~= lines);
    if crate::text::begins(line, "#"@) {
        assert(line.subrange(0, 1)[0] == '#');
    }
}

/// A root is taken without a dot and a slash at its front.
pub proof fn law_roots(rest: Seq<char>, root: Seq<char>)
    ensures
        without_dot("./"@ + rest) == rest,
        root.len() > 0 && root[0] != '.' ==> without_dot(root) == root,
{
    reveal_strlit("./");
    assert("./"@.len() == 2 && "./"@[0] == '.');
    crate::text::law_stripping("./"@ + rest, "./"@, rest);
    if crate::text::begins(root, "./"@) {
        assert(root.subrange(0, 2)[0] == '.');
    }
}

/// Patterns are refused for the first thing that is wrong with them: a glob of
/// those that take files out, and then one of the others.
pub proof fn law_refused_patterns(patterns: Seq<crate::mutate_pattern::MutatePatternView>)
    ensures
        ({
            let barred = globs_of(signed(patterns, true));
            let named = globs_of(signed(patterns, false));
            &&& targets_failure(patterns) is None <==> {
                &&& first_complaint(barred) is None && glob_set_error(barred) is None
                &&& first_complaint(named) is None && glob_set_error(named) is None
            }
            &&& first_complaint(barred) is Some ==> targets_failure(patterns) == first_complaint(
                barred,
            )
            &&& first_complaint(barred) is None && glob_set_error(barred) is Some
                ==> targets_failure(patterns) == glob_set_error(barred)
        }),
{
}

} // verus!
