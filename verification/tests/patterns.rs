use stryker::directives::{parse_directive, CommentLine, DirectiveIndex};
use stryker::line_index::LineIndex;
use stryker::model::Position;
use stryker::mutate_pattern::{MutatePattern, MutatePatternError, NumberFault};

#[test]
fn plain_glob() {
    let p = MutatePattern::parse("src/**/*.ts").unwrap();
    assert!(!p.negated);
    assert_eq!(p.glob, "src/**/*.ts");
    assert!(p.range.is_none());
    assert!(!p.is_literal_path());
}

#[test]
fn negated() {
    let p = MutatePattern::parse("!src/**/*.spec.ts").unwrap();
    assert!(p.negated);
    assert_eq!(p.glob, "src/**/*.spec.ts");
}

#[test]
fn line_range() {
    let p = MutatePattern::parse("packages/core/index.ts:100-200").unwrap();
    let r = p.range.unwrap();
    assert_eq!((r.start_line, r.end_line), (100, 200));
    assert_eq!(r.start_column, None);
    assert!(r.contains_line(100));
    assert!(r.contains_line(200));
    assert!(!r.contains_line(201));
    assert!(p.is_literal_path());
}

#[test]
fn full_range() {
    let p = MutatePattern::parse("src/app.js:5:4-6:4").unwrap();
    let r = p.range.unwrap();
    assert_eq!((r.start_line, r.start_column, r.end_line, r.end_column), (5, Some(4), 6, Some(4)));
    assert_eq!(p.glob, "src/app.js");
}

#[test]
fn bracket_escaped_route_group_is_literal() {
    let p = MutatePattern::parse("apps/web/app/[(]user[)]/page.tsx").unwrap();
    assert!(p.is_literal_path());
    assert_eq!(p.literal_path().unwrap(), "apps/web/app/(user)/page.tsx");
}

#[test]
fn colon_in_range_only_at_end() {
    let p = MutatePattern::parse("src/a.ts:1-2").unwrap();
    assert!(p.range.is_some());
}

#[test]
fn the_shortest_path_takes_the_longest_range() {
    let p = MutatePattern::parse("a:1:2-3:4").unwrap();
    assert_eq!(p.glob, "a");
    let p = MutatePattern::parse("a:x:2-3").unwrap();
    assert_eq!(p.glob, "a:x");
    // A range needs a path before it.
    let p = MutatePattern::parse(":1-2").unwrap();
    assert!(p.range.is_none());
    assert_eq!(p.glob, ":1-2");
}

#[test]
fn refused_patterns() {
    assert!(matches!(MutatePattern::parse("!a.ts:1-2"), Err(MutatePatternError::NegatedRange)));
    assert!(matches!(MutatePattern::parse("a.ts:3-2"), Err(MutatePatternError::ReversedRange)));
    assert!(matches!(
        MutatePattern::parse("a.ts:1-4294967296"),
        Err(MutatePatternError::BadNumber(NumberFault::TooLarge))
    ));
    // Digits of other scripts are digits to the pattern but no numbers.
    assert!(matches!(
        MutatePattern::parse("a.ts:\u{0663}-\u{0664}"),
        Err(MutatePatternError::BadNumber(NumberFault::InvalidDigit))
    ));
    assert_eq!(NumberFault::TooLarge.message(), "number too large to fit in target type");
    assert_eq!(NumberFault::InvalidDigit.message(), "invalid digit found in string");
    assert_eq!(NumberFault::Empty.message(), "cannot parse integer from empty string");
}

#[test]
fn escaped_glob_characters_are_literal() {
    for (glob, path) in [("src/[*].ts", "src/*.ts"), ("a[?]b", "a?b"), ("[[]id].ts", "[id].ts")] {
        let p = MutatePattern::parse(glob).unwrap();
        assert!(p.is_literal_path(), "{glob}");
        assert_eq!(p.literal_path().unwrap(), path);
    }
    for glob in ["src/*.ts", "src/[*]*.ts", "a?b"] {
        assert!(!MutatePattern::parse(glob).unwrap().is_literal_path(), "{glob}");
    }
}

#[test]
fn literal_paths_outside_ascii() {
    let p = MutatePattern::parse("src/[\u{e9}]t\u{e9}.ts").unwrap();
    assert!(p.is_literal_path());
    assert_eq!(p.literal_path().unwrap(), "src/\u{e9}t\u{e9}.ts");
    assert!(MutatePattern::parse("src/[ab].ts").unwrap().literal_path().is_none());
}

fn index(entries: &[(u32, &str)]) -> DirectiveIndex {
    let comments: Vec<CommentLine> = entries
        .iter()
        .map(|(line, text)| CommentLine { line: *line, text: text.to_string() })
        .collect();
    DirectiveIndex::from_comments(&comments)
}

#[test]
fn disable_all_until_restore() {
    let idx = index(&[(5, "Stryker disable all"), (10, "Stryker restore all")]);
    assert!(idx.disabled_reason(6, "EqualityOperator").is_some());
    assert!(idx.disabled_reason(5, "EqualityOperator").is_none()); // not its own line
    assert!(idx.disabled_reason(11, "EqualityOperator").is_none());
}

#[test]
fn next_line_specific_mutator_with_reason() {
    let idx = index(&[(3, "Stryker disable next-line EqualityOperator,LogicalOperator: intended")]);
    assert_eq!(idx.disabled_reason(4, "EqualityOperator"), Some("intended"));
    assert_eq!(idx.disabled_reason(4, "LogicalOperator"), Some("intended"));
    assert!(idx.disabled_reason(4, "BooleanLiteral").is_none());
    assert!(idx.disabled_reason(5, "EqualityOperator").is_none());
}

#[test]
fn directives_are_sorted_and_folded() {
    let idx = index(&[(9, " Stryker restore stringliteral "), (2, "Stryker disable STRINGLITERAL")]);
    assert_eq!(
        idx.disabled_reason(3, "StringLiteral"),
        Some("Ignored by a \"Stryker disable\" comment")
    );
    assert!(idx.disabled_reason(10, "StringLiteral").is_none());
    assert!(!idx.is_empty());
    assert!(index(&[(1, "nothing here"), (2, "Stryker pause")]).is_empty());
}

#[test]
fn next_line_wins_over_restore() {
    let idx = index(&[(1, "Stryker disable next-line all: kept"), (1, "Stryker restore all")]);
    assert_eq!(idx.disabled_reason(2, "Regex"), Some("kept"));
}

#[test]
fn unknown_verbs_are_no_directives() {
    assert!(parse_directive("enable all", 1).is_none());
    assert!(parse_directive("restore", 1).is_some());
}

#[test]
fn first_char_is_line1_col1() {
    let src = "abc\ndef";
    let idx = LineIndex::new(src);
    assert_eq!(idx.position(src, 0), Position { line: 1, column: 1 });
    assert_eq!(idx.position(src, 4), Position { line: 2, column: 1 });
    assert_eq!(idx.position(src, 6), Position { line: 2, column: 3 });
}

#[test]
fn utf16_columns() {
    let src = "a😀b";
    let idx = LineIndex::new(src);
    assert_eq!(idx.position(src, 1), Position { line: 1, column: 2 });
    assert_eq!(idx.position(src, 5), Position { line: 1, column: 4 });
}

#[test]
fn offsets_behind_the_end_count_as_the_end() {
    let src = "a\nbc";
    let idx = LineIndex::new(src);
    assert_eq!(idx.position(src, 400), Position { line: 2, column: 3 });
}
