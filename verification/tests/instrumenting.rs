use stryker::header::header;
use stryker::mutate_pattern::MutationRange;
use stryker::instrument::{instrument_file, InstrumentOptions, InstrumentedFile};

fn mutant_lines(result: &InstrumentedFile) -> String {
    result
        .mutants
        .iter()
        .map(|m| {
            format!(
                "{:>3} {:<22} {}:{}:{}  {} -> {}{}",
                m.id.0,
                m.mutator_name,
                m.file,
                m.location.start.line,
                m.location.start.column,
                m.original.replace('\n', "\\n"),
                m.replacement.replace('\n', "\\n"),
                m.ignored.as_deref().map(|r| format!("  [ignored: {r}]")).unwrap_or_default(),
            )
        })
        .collect::<Vec<_>>()
        .join("\n")
}

#[test]
fn ts_sample() {
    let source = r#"export function classify(n: number, opts?: { strict?: boolean }): string {
  const strict = opts?.strict ?? false;
  if (n < 0 && strict) {
    return "negative";
  }
  let total = 0;
  for (let i = 0; i < n; i++) {
    total += i;
  }
  const labels = ["a", "b"].filter((l) => l !== "b");
  const isBig = total > 10 ? true : !strict;
  return labels.some((l) => l.startsWith("a")) ? `big:${isBig}` : "small";
}
"#;
    let result = instrument_file("src/classify.ts", source, 0, &InstrumentOptions::default()).unwrap();
    assert_eq!(
        mutant_lines(&result),
        r##"  0 BlockStatement         src/classify.ts:1:74  {\n  const strict = opts?.strict ?? false;\n  if (n < 0 && strict) {\n    return "negative";\n  }\n  let total = 0;\n  for (let i = 0; i < n; i++) {\n    total += i;\n  }\n  const labels = ["a", "b"].filter((l) => l !== "b");\n  const isBig = total > 10 ? true : !strict;\n  return labels.some((l) => l.startsWith("a")) ? `big:${isBig}` : "small";\n} -> {}
  1 OptionalChaining       src/classify.ts:2:18  opts?.strict -> opts.strict
  2 LogicalOperator        src/classify.ts:2:18  opts?.strict ?? false -> opts?.strict && false
  3 BooleanLiteral         src/classify.ts:2:34  false -> true
  4 ConditionalExpression  src/classify.ts:3:7  n < 0 -> true
  5 EqualityOperator       src/classify.ts:3:7  n < 0 -> n <= 0
  6 EqualityOperator       src/classify.ts:3:7  n < 0 -> n >= 0
  7 ConditionalExpression  src/classify.ts:3:7  n < 0 && strict -> true
  8 ConditionalExpression  src/classify.ts:3:7  n < 0 && strict -> false
  9 LogicalOperator        src/classify.ts:3:7  n < 0 && strict -> n < 0 || strict
 10 BlockStatement         src/classify.ts:3:24  {\n    return "negative";\n  } -> {}
 11 StringLiteral          src/classify.ts:4:12  "negative" -> ""
 12 ConditionalExpression  src/classify.ts:7:19  i < n -> false
 13 EqualityOperator       src/classify.ts:7:19  i < n -> i <= n
 14 EqualityOperator       src/classify.ts:7:19  i < n -> i >= n
 15 UpdateOperator         src/classify.ts:7:26  i++ -> i--
 16 BlockStatement         src/classify.ts:7:31  {\n    total += i;\n  } -> {}
 17 AssignmentOperator     src/classify.ts:8:5  total += i -> total -= i
 18 MethodExpression       src/classify.ts:10:18  ["a", "b"].filter((l) => l !== "b") -> ["a", "b"]
 19 ArrayDeclaration       src/classify.ts:10:18  ["a", "b"] -> []
 20 StringLiteral          src/classify.ts:10:19  "a" -> ""
 21 StringLiteral          src/classify.ts:10:24  "b" -> ""
 22 ArrowFunction          src/classify.ts:10:36  (l) => l !== "b" -> () => undefined
 23 EqualityOperator       src/classify.ts:10:43  l !== "b" -> l === "b"
 24 ConditionalExpression  src/classify.ts:10:43  l !== "b" -> true
 25 ConditionalExpression  src/classify.ts:10:43  l !== "b" -> false
 26 StringLiteral          src/classify.ts:10:49  "b" -> ""
 27 EqualityOperator       src/classify.ts:11:17  total > 10 -> total >= 10
 28 EqualityOperator       src/classify.ts:11:17  total > 10 -> total <= 10
 29 ConditionalExpression  src/classify.ts:11:17  total > 10 -> true
 30 ConditionalExpression  src/classify.ts:11:17  total > 10 -> false
 31 BooleanLiteral         src/classify.ts:11:30  true -> false
 32 BooleanLiteral         src/classify.ts:11:37  !strict -> strict
 33 MethodExpression       src/classify.ts:12:10  labels.some((l) => l.startsWith("a")) -> labels.every((l) => l.startsWith("a"))
 34 ArrowFunction          src/classify.ts:12:22  (l) => l.startsWith("a") -> () => undefined
 35 MethodExpression       src/classify.ts:12:29  l.startsWith("a") -> l.endsWith("a")
 36 StringLiteral          src/classify.ts:12:42  "a" -> ""
 37 StringLiteral          src/classify.ts:12:50  `big:${isBig}` -> ``
 38 StringLiteral          src/classify.ts:12:67  "small" -> """##
    );
    let expected = r##"export function classify(n: number, opts?: { strict?: boolean }): string { if (stryMutAct_9fa48("0")) {} else { stryCov_9fa48("0"); 
  const strict = (stryMutAct_9fa48("2") ? opts?.strict && false : (stryCov_9fa48("2"), (stryMutAct_9fa48("1") ? opts.strict : (stryCov_9fa48("1"), opts?.strict)) ?? (stryMutAct_9fa48("3") ? true : (stryCov_9fa48("3"), false))));
  if ((stryMutAct_9fa48("7") ? true : stryMutAct_9fa48("8") ? false : stryMutAct_9fa48("9") ? n < 0 || strict : (stryCov_9fa48("7", "8", "9"), (stryMutAct_9fa48("4") ? true : stryMutAct_9fa48("5") ? n <= 0 : stryMutAct_9fa48("6") ? n >= 0 : (stryCov_9fa48("4", "5", "6"), n < 0)) && strict))) { if (stryMutAct_9fa48("10")) {} else { stryCov_9fa48("10"); 
    return (stryMutAct_9fa48("11") ? "" : (stryCov_9fa48("11"), "negative"));
   } }
  let total = 0;
  for (let i = 0; (stryMutAct_9fa48("12") ? false : stryMutAct_9fa48("13") ? i <= n : stryMutAct_9fa48("14") ? i >= n : (stryCov_9fa48("12", "13", "14"), i < n)); (stryMutAct_9fa48("15") ? i-- : (stryCov_9fa48("15"), i++))) { if (stryMutAct_9fa48("16")) {} else { stryCov_9fa48("16"); 
    (stryMutAct_9fa48("17") ? total -= i : (stryCov_9fa48("17"), total += i));
   } }
  const labels = (stryMutAct_9fa48("18") ? ["a", "b"] : stryMutAct_9fa48("19") ? [].filter((l) => l !== "b") : stryMutAct_9fa48("20") ? ["", "b"].filter((l) => l !== "b") : stryMutAct_9fa48("21") ? ["a", ""].filter((l) => l !== "b") : (stryCov_9fa48("18", "19", "20", "21"), ["a", "b"].filter((stryMutAct_9fa48("22") ? () => undefined : (stryCov_9fa48("22"), (l) => (stryMutAct_9fa48("23") ? l === "b" : stryMutAct_9fa48("24") ? true : stryMutAct_9fa48("25") ? false : (stryCov_9fa48("23", "24", "25"), l !== (stryMutAct_9fa48("26") ? "" : (stryCov_9fa48("26"), "b")))))))));
  const isBig = (stryMutAct_9fa48("27") ? total >= 10 : stryMutAct_9fa48("28") ? total <= 10 : stryMutAct_9fa48("29") ? true : stryMutAct_9fa48("30") ? false : (stryCov_9fa48("27", "28", "29", "30"), total > 10)) ? (stryMutAct_9fa48("31") ? false : (stryCov_9fa48("31"), true)) : (stryMutAct_9fa48("32") ? strict : (stryCov_9fa48("32"), !strict));
  return (stryMutAct_9fa48("33") ? labels.every((l) => l.startsWith("a")) : (stryCov_9fa48("33"), labels.some((stryMutAct_9fa48("34") ? () => undefined : (stryCov_9fa48("34"), (l) => (stryMutAct_9fa48("35") ? l.endsWith("a") : (stryCov_9fa48("35"), l.startsWith((stryMutAct_9fa48("36") ? "" : (stryCov_9fa48("36"), "a")))))))))) ? (stryMutAct_9fa48("37") ? `` : (stryCov_9fa48("37"), `big:${isBig}`)) : (stryMutAct_9fa48("38") ? "" : (stryCov_9fa48("38"), "small"));
 } }
"##;
    let output = result.instrumented.unwrap();
    assert_eq!(output, format!("{}{}", header("__stryker__", false), expected));
}

#[test]
fn tsx_sample() {
    let source = r#"export function Badge({ count, label }: { count: number; label?: string }) {
  const text = label ?? "items";
  return (
    <span className={count > 0 ? "full" : "empty"}>
      {count > 0 && <strong>{count}</strong>} {text.toUpperCase()}
    </span>
  );
}
"#;
    let result = instrument_file("src/Badge.tsx", source, 100, &InstrumentOptions::default()).unwrap();
    assert_eq!(
        mutant_lines(&result),
        r##"100 BlockStatement         src/Badge.tsx:1:76  {\n  const text = label ?? "items";\n  return (\n    <span className={count > 0 ? "full" : "empty"}>\n      {count > 0 && <strong>{count}</strong>} {text.toUpperCase()}\n    </span>\n  );\n} -> {}
101 LogicalOperator        src/Badge.tsx:2:16  label ?? "items" -> label && "items"
102 StringLiteral          src/Badge.tsx:2:25  "items" -> ""
103 EqualityOperator       src/Badge.tsx:4:22  count > 0 -> count >= 0
104 EqualityOperator       src/Badge.tsx:4:22  count > 0 -> count <= 0
105 ConditionalExpression  src/Badge.tsx:4:22  count > 0 -> true
106 ConditionalExpression  src/Badge.tsx:4:22  count > 0 -> false
107 StringLiteral          src/Badge.tsx:4:34  "full" -> ""
108 StringLiteral          src/Badge.tsx:4:43  "empty" -> ""
109 ConditionalExpression  src/Badge.tsx:5:8  count > 0 -> true
110 EqualityOperator       src/Badge.tsx:5:8  count > 0 -> count >= 0
111 EqualityOperator       src/Badge.tsx:5:8  count > 0 -> count <= 0
112 LogicalOperator        src/Badge.tsx:5:8  count > 0 && <strong>{count}</strong> -> count > 0 || <strong>{count}</strong>
113 ConditionalExpression  src/Badge.tsx:5:8  count > 0 && <strong>{count}</strong> -> true
114 ConditionalExpression  src/Badge.tsx:5:8  count > 0 && <strong>{count}</strong> -> false
115 MethodExpression       src/Badge.tsx:5:48  text.toUpperCase() -> text.toLowerCase()"##
    );
    let expected = r##"export function Badge({ count, label }: { count: number; label?: string }) { if (stryMutAct_9fa48("100")) {} else { stryCov_9fa48("100"); 
  const text = (stryMutAct_9fa48("101") ? label && "items" : (stryCov_9fa48("101"), label ?? (stryMutAct_9fa48("102") ? "" : (stryCov_9fa48("102"), "items"))));
  return (
    <span className={(stryMutAct_9fa48("103") ? count >= 0 : stryMutAct_9fa48("104") ? count <= 0 : stryMutAct_9fa48("105") ? true : stryMutAct_9fa48("106") ? false : (stryCov_9fa48("103", "104", "105", "106"), count > 0)) ? (stryMutAct_9fa48("107") ? "" : (stryCov_9fa48("107"), "full")) : (stryMutAct_9fa48("108") ? "" : (stryCov_9fa48("108"), "empty"))}>
      {(stryMutAct_9fa48("112") ? count > 0 || <strong>{count}</strong> : stryMutAct_9fa48("113") ? true : stryMutAct_9fa48("114") ? false : (stryCov_9fa48("112", "113", "114"), (stryMutAct_9fa48("109") ? true : stryMutAct_9fa48("110") ? count >= 0 : stryMutAct_9fa48("111") ? count <= 0 : (stryCov_9fa48("109", "110", "111"), count > 0)) && <strong>{count}</strong>))} {(stryMutAct_9fa48("115") ? text.toLowerCase() : (stryCov_9fa48("115"), text.toUpperCase()))}
    </span>
  );
 } }
"##;
    let output = result.instrumented.unwrap();
    assert_eq!(output, format!("{}{}", header("__stryker__", false), expected));
}

#[test]
fn directives_and_exclusions() {
    let source = r#"export function f(a: number, b: number) {
  // Stryker disable next-line EqualityOperator: intentional
  const x = a === b;
  const y = a < b;
  return x || y;
}
"#;
    let result = instrument_file(
        "src/f.ts",
        source,
        0,
        &InstrumentOptions {
            excluded_mutators: vec!["BlockStatement".into()],
            ..InstrumentOptions::default()
        },
    )
    .unwrap();
    let block = &source[source.find('{').unwrap()..source.len() - 1];
    let expected = vec![
        format!(
            "  0 BlockStatement         src/f.ts:1:41  {} -> {{}}  [ignored: Ignored because BlockStatement is excluded (mutator.excludedMutations)]",
            block.replace('\n', "\\n")
        ),
        "  1 EqualityOperator       src/f.ts:3:13  a === b -> a !== b  [ignored: intentional]".to_string(),
        "  2 ConditionalExpression  src/f.ts:3:13  a === b -> true".to_string(),
        "  3 ConditionalExpression  src/f.ts:3:13  a === b -> false".to_string(),
        "  4 EqualityOperator       src/f.ts:4:13  a < b -> a <= b".to_string(),
        "  5 EqualityOperator       src/f.ts:4:13  a < b -> a >= b".to_string(),
        "  6 ConditionalExpression  src/f.ts:4:13  a < b -> true".to_string(),
        "  7 ConditionalExpression  src/f.ts:4:13  a < b -> false".to_string(),
        "  8 LogicalOperator        src/f.ts:5:10  x || y -> x && y".to_string(),
        "  9 ConditionalExpression  src/f.ts:5:10  x || y -> true".to_string(),
        " 10 ConditionalExpression  src/f.ts:5:10  x || y -> false".to_string(),
    ];
    assert_eq!(mutant_lines(&result), expected.join("\n"));
    let ignored: Vec<_> = result.mutants.iter().filter(|m| m.ignored.is_some()).collect();
    // One from the disable-next-line directive...
    let directive_ignored: Vec<_> = ignored
        .iter()
        .filter(|m| m.ignored.as_deref() == Some("intentional"))
        .collect();
    assert_eq!(directive_ignored.len(), 1);
    assert_eq!(directive_ignored[0].mutator_name, "EqualityOperator");
    // ...plus the excluded BlockStatement mutants (reported, never placed).
    assert!(ignored
        .iter()
        .filter(|m| m.mutator_name == "BlockStatement")
        .all(|m| m.ignored.as_deref().unwrap().contains("excludedMutations")));
    // Ignored mutants are not placed.
    let instrumented = result.instrumented.as_deref().unwrap();
    for m in &ignored {
        assert!(!instrumented.contains(&format!("stryMutAct_9fa48(\"{}\")", m.id.0)));
    }
}

#[test]
fn range_filter() {
    let source = "export const a = 1 + 2;\nexport const b = 3 + 4;\nexport const c = 5 + 6;\n";
    let result = instrument_file(
        "src/r.ts",
        source,
        0,
        &InstrumentOptions {
            ranges: vec![MutationRange {
                start_line: 2,
                start_column: None,
                end_line: 2,
                end_column: None,
            }],
            ..InstrumentOptions::default()
        },
    )
    .unwrap();
    assert_eq!(result.mutants.len(), 1);
    assert_eq!(result.mutants[0].location.start.line, 2);
    assert_eq!(result.mutants[0].original, "3 + 4");
    let whole = instrument_file("src/r.ts", source, 0, &InstrumentOptions::default()).unwrap();
    let on_line: Vec<_> = whole.mutants.iter().filter(|m| m.location.start.line == 2).collect();
    assert_eq!(on_line.len(), 1);
    assert_eq!(on_line[0].replacement, result.mutants[0].replacement);
    assert_eq!(on_line[0].span, result.mutants[0].span);
}

#[test]
fn no_mutants_means_untouched() {
    let source = "export type A = { x: string };\nexport interface B { y: number }\n";
    let result =
        instrument_file("src/types.ts", source, 0, &InstrumentOptions::default()).unwrap();
    assert!(result.mutants.is_empty());
    assert!(result.instrumented.is_none());
}

fn replacements(path: &str, source: &str) -> Vec<(String, String)> {
    let result = instrument_file(path, source, 0, &InstrumentOptions::default()).unwrap();
    result.mutants.iter().map(|m| (m.mutator_name.to_string(), m.replacement.clone())).collect()
}

fn of(mutator: &str, path: &str, source: &str) -> Vec<String> {
    replacements(path, source)
        .into_iter()
        .filter(|(name, _)| name == mutator)
        .map(|(_, replacement)| replacement)
        .collect()
}

#[test]
fn loops_are_never_made_endless() {
    assert_eq!(of("ConditionalExpression", "a.js", "while (a < b) { f(); }"), vec!["false"]);
    assert_eq!(of("ConditionalExpression", "a.js", "do { f(); } while (a);"), vec!["false"]);
}

#[test]
fn chains_are_mutated_whole() {
    let source = "x = a?.b.c;";
    let result = instrument_file("a.js", source, 0, &InstrumentOptions::default()).unwrap();
    assert_eq!(result.mutants.len(), 1);
    assert_eq!(result.mutants[0].original, "a?.b");
    assert_eq!(result.mutants[0].replacement, "a.b");
    assert!(result.instrumented.unwrap().ends_with(
        "x = (stryMutAct_9fa48(\"0\") ? a.b.c : (stryCov_9fa48(\"0\"), a?.b.c));"
    ));
    assert_eq!(of("OptionalChaining", "a.js", "f?.(x)"), vec!["f(x)"]);
    assert_eq!(of("OptionalChaining", "a.js", "a?.[i]"), vec!["a[i]"]);
}

#[test]
fn operators_have_their_counterparts() {
    assert_eq!(of("ArithmeticOperator", "a.js", "a % b"), vec!["a * b"]);
    assert_eq!(of("ArithmeticOperator", "a.js", "a + 'x'"), Vec::<String>::new());
    assert_eq!(of("LogicalOperator", "a.js", "a ?? b ?? c").last().unwrap(), "(a ?? b) && c");
    assert_eq!(of("AssignmentOperator", "a.js", "a ??= b"), vec!["a &&= b"]);
    assert_eq!(of("UnaryOperator", "a.js", "x = -a"), vec!["+a"]);
    assert_eq!(of("UpdateOperator", "a.js", "--a"), vec!["++a"]);
    assert_eq!(of("Regex", "a.js", "/^[a]\\d+$/g.test(x)").len(), 5);
    assert_eq!(of("ArrayDeclaration", "a.js", "x = []"), vec!["[\"Stryker was here\"]"]);
    assert_eq!(of("ObjectLiteral", "a.js", "x = { a }"), vec!["{}"]);
    assert_eq!(of("StringLiteral", "a.js", "x = ''"), vec!["\"Stryker was here!\""]);
}

#[test]
fn cases_are_made_unreachable() {
    let source = "switch (a) { case 1: f(); g(); break; default: }";
    let result = instrument_file("a.js", source, 0, &InstrumentOptions::default()).unwrap();
    assert_eq!(result.mutants.len(), 1);
    assert_eq!(result.mutants[0].replacement, "case 1:");
    assert!(result.instrumented.unwrap().ends_with(
        "switch (a) { case 1: if (stryMutAct_9fa48(\"0\")) {} else { stryCov_9fa48(\"0\"); f(); g(); break; } default: }"
    ));
}

#[test]
fn some_regions_are_left_alone() {
    let source = "'use strict';\nimport x from 'a';\nexport * from 'b';\nconst r = require('c');\nconst s = Symbol('d');\nimport('e');\nenum E { A = 1 + 2 }\nconst k = { 'key': y };\n";
    assert_eq!(replacements("a.ts", source), vec![("ObjectLiteral".to_string(), "{}".to_string())]);
    assert!(replacements("a.ts", "class A extends B { constructor() { super(); f(); } }").is_empty());
    assert_eq!(replacements("a.ts", "class A { constructor() { f(); } }").len(), 1);
}

#[test]
fn a_first_line_for_the_shell_stays_first() {
    let source = "#!/usr/bin/env bun\nx = !y;\n";
    let result = instrument_file("a.js", source, 0, &InstrumentOptions::default()).unwrap();
    let output = result.instrumented.unwrap();
    assert!(output.starts_with(&format!("#!/usr/bin/env bun\n{}", header("__stryker__", false))));
}

#[test]
fn refused_files_say_why() {
    let error = instrument_file("a.css", "", 0, &InstrumentOptions::default()).unwrap_err();
    assert_eq!(error.message(), "unsupported file type: a.css");
    let error = instrument_file("a.ts", "const = ;", 0, &InstrumentOptions::default()).unwrap_err();
    assert!(error.message().starts_with("parse error in a.ts: "));
}

#[test]
fn line_breaks_in_replacements_are_folded() {
    assert_eq!(of("LogicalOperator", "a.js", "x = a &&\n    b(\n  c)"), vec!["a || b( c)"]);
}

#[test]
fn wide_characters_keep_their_places() {
    let source = "const \u{1F600} = 1;";
    assert!(instrument_file("a.ts", source, 0, &InstrumentOptions::default()).is_err());
    let source = "x = \"\u{1F600}\u{e9}\" + (a < b);\n";
    let result = instrument_file("a.ts", source, 0, &InstrumentOptions::default()).unwrap();
    let first = &result.mutants[0];
    assert_eq!(first.original, "\"\u{1F600}\u{e9}\"");
    assert_eq!((first.location.start.column, first.location.end.column), (5, 10));
    let second = &result.mutants[1];
    assert_eq!(second.original, "a < b");
    assert_eq!(second.location.start.column, 14);
    assert!(result.instrumented.unwrap().ends_with(
        "a < b)));\n"
    ));
}

#[test]
fn deep_trees_are_read() {
    let mut source = "x".to_string();
    for _ in 0..200 {
        source.push_str(".f()");
    }
    let result = instrument_file("a.ts", &source, 0, &InstrumentOptions::default()).unwrap();
    assert!(result.mutants.is_empty());
}

#[test]
fn typescript_shapes_are_walked() {
    let class = "class A { constructor(private x: string = \"a\") {} [k: string]: unknown; y = 1 + 2; static { z(\"b\"); } }";
    assert_eq!(of("StringLiteral", "a.ts", class), vec!["\"\"", "\"\""]);
    assert_eq!(of("ArithmeticOperator", "a.ts", class), vec!["1 - 2"]);
    assert!(of("BlockStatement", "a.ts", class).is_empty());
    assert_eq!(of("StringLiteral", "a.ts", "namespace N { export const a = \"b\"; }"), vec!["\"\""]);
    assert!(replacements("a.ts", "declare module \"m\" { const a: \"b\"; }").is_empty());
    assert!(replacements("a.ts", "const a = \"b\" as const;").is_empty());
    assert_eq!(of("StringLiteral", "a.ts", "const a = \"b\" satisfies string;"), vec!["\"\""]);
    assert_eq!(of("StringLiteral", "a.ts", "type T = \"a\"; f<\"b\">(\"c\");"), vec!["\"\""]);
    assert_eq!(of("BooleanLiteral", "a.ts", "a!.b(true)!.c"), vec!["false"]);
    assert!(replacements("a.ts", "abstract class B { abstract m(): \"x\"; }").is_empty());
    assert_eq!(of("StringLiteral", "a.ts", "@dec(\"d\") class C { @dec(\"e\") f = \"g\"; }"), vec!["\"\""]);
}

#[test]
fn parts_of_chains_are_placed_at_the_chain() {
    let source = "r = xs.filter((x) => x > 1).map(f(\"a\"))[\"k\"];";
    let result = instrument_file("a.ts", source, 0, &InstrumentOptions::default()).unwrap();
    let names: Vec<&str> = result.mutants.iter().map(|m| m.mutator_name).collect();
    assert_eq!(
        names,
        vec![
            "MethodExpression",
            "ArrowFunction",
            "EqualityOperator",
            "EqualityOperator",
            "ConditionalExpression",
            "ConditionalExpression",
            "StringLiteral",
            "StringLiteral"
        ]
    );
    let output = result.instrumented.unwrap();
    assert!(output.contains(
        "r = (stryMutAct_9fa48(\"0\") ? xs.map(f(\"a\"))[\"k\"] : (stryCov_9fa48(\"0\"), xs.filter("
    ));
}

#[test]
fn operands_get_one_truth_value() {
    let found = replacements("a.js", "x = (a < b) && c || !d;");
    let truth: Vec<&str> = found
        .iter()
        .filter(|(name, _)| name == "ConditionalExpression")
        .map(|(_, replacement)| replacement.as_str())
        .collect();
    // The `&&` only false, the whole both, `a < b` only true.
    assert_eq!(truth, vec!["false", "true", "false", "true"]);
}

#[test]
fn jsx_values_are_walked_where_they_can_be() {
    let source = "const e = <a b=\"c\" d={\"e\"} {...(x && y)}>text {\"f\"}<>{`g`}</></a>;";
    assert_eq!(of("StringLiteral", "a.tsx", source), vec!["\"\"", "\"\"", "``"]);
    assert_eq!(of("LogicalOperator", "a.tsx", source), vec!["x || y"]);
}

#[test]
fn lazy_quantifiers_are_removed_whole() {
    assert_eq!(stryker::regex_mutations::regex_mutations("/a??/"), vec!["/a/"]);
}

#[test]
fn ids_are_all_that_numbering_changes() {
    let source = "export const a = 1 + 2, b = a < 3;\n";
    let options = InstrumentOptions { excluded_mutators: vec!["EqualityOperator".into()], ..InstrumentOptions::default() };
    let zero = instrument_file("a.ts", source, 0, &options).unwrap();
    let five = instrument_file("a.ts", source, 5, &options).unwrap();
    assert_eq!(zero.mutants.len(), five.mutants.len());
    for (i, (a, b)) in zero.mutants.iter().zip(&five.mutants).enumerate() {
        assert_eq!((a.id.0, b.id.0), (i as u32, i as u32 + 5));
        assert_eq!((&a.replacement, a.span, &a.ignored), (&b.replacement, b.span, &b.ignored));
        assert_eq!(b.original, source[b.span.0 as usize..b.span.1 as usize]);
        assert_eq!(b.ignored.is_some(), b.mutator_name == "EqualityOperator");
        let named = five.instrumented.as_deref().unwrap().contains(&format!("stryMutAct_9fa48(\"{}\"", b.id.0));
        assert_eq!(named, b.ignored.is_none());
    }
    assert!(five.instrumented.unwrap().contains(stryker::header::HEADER_MARKER));
}
