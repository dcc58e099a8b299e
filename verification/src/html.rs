//! Single-file HTML report around mutation-testing-elements (pinned 3.9.0).
//!
//! The report JSON is assigned via property binding (`app.report = ...`) so
//! that the file works from file://. Every `<` in the JSON is emitted as
//! `\u003c` so that embedded source code cannot close the script tag.
use vstd::prelude::*;

use crate::text::replace_char;

verus! {

/// The page up to the bundle of elements.
pub const PAGE_START: &'static str = "<!DOCTYPE html>
<html lang=\"en\">
<head>
  <meta charset=\"utf-8\">
  <meta name=\"viewport\" content=\"width=device-width, initial-scale=1\">
  <title>Mutation test report</title>
  <script>";

/// The page between the bundle and the report.
pub const PAGE_MIDDLE: &'static str = "</script>
</head>
<body>
  <mutation-test-report-app title-postfix=\"stryker-rs\">
    Your browser doesn't support custom elements.
  </mutation-test-report-app>
  <script>
    const app = document.querySelector('mutation-test-report-app');
    app.report = ";

/// The page behind the report.
pub const PAGE_END: &'static str = ";
    function updateTheme() {
      document.body.style.backgroundColor = app.themeBackgroundColor;
    }
    app.addEventListener('theme-changed', updateTheme);
    updateTheme();
  </script>
</body>
</html>
";

/// How a `<` is written in the report.
pub const LESS_THAN: &'static str = "\\u003c";

/// The report as it stands in the page.
pub open spec fn escaped(json: Seq<char>) -> Seq<char> {
    crate::text::replaced(json, '<', LESS_THAN@)
}

/// The page of a report, given the bundle of elements.
pub open spec fn page(json: Seq<char>, bundle: Seq<char>) -> Seq<char> {
    PAGE_START@ + bundle + PAGE_MIDDLE@ + escaped(json) + PAGE_END@
}

/// The page of a report in JSON, given the bundle of elements.
pub fn render(json: &str, bundle: &str) -> (r: String)
    ensures
        r@ == page(json@, bundle@),
{
    let mut out = crate::text::concat3(PAGE_START, bundle, PAGE_MIDDLE);
    out.append(replace_char(json, '<', LESS_THAN).as_str());
    out.append(PAGE_END);
    out
}

/// The report cannot open or close a tag of the page: it has no `<`.
pub proof fn law_report_opens_no_tags(json: Seq<char>)
    ensures
        !escaped(json).contains('<'),
    decreases json.len(),
{
    reveal_strlit("\\u003c");
    if json.len() > 0 {
        law_report_opens_no_tags(json.drop_last());
        let front = escaped(json.drop_last());
        let back = if json.last() == '<' {
            LESS_THAN@
        } else {
            seq![json.last()]
        };
        assert(escaped(json) == front + back);
        assert forall|i: int| 0 <= i < (front + back).len() implies (front + back)[i] != '<' by {
            if i < front.len() {
                assert(front.contains(front[i]));
            }
        }
    }
}

/// How often a character stands in a text.
pub open spec fn occurrences(text: Seq<char>, c: char) -> nat
    decreases text.len(),
{
    if text.len() == 0 {
        0
    } else {
        occurrences(text.drop_last(), c) + if text.last() == c {
            1nat
        } else {
            0nat
        }
    }
}

proof fn lemma_occurrences(a: Seq<char>, b: Seq<char>, c: char)
    ensures
        occurrences(a + b, c) == occurrences(a, c) + occurrences(b, c),
    decreases b.len(),
{
    if b.len() == 0 {
        assert(a + b =~= a);
    } else {
        lemma_occurrences(a, b.drop_last(), c);
        assert((a + b).drop_last() =~= a + b.drop_last());
    }
}

proof fn lemma_no_occurrences(text: Seq<char>, c: char)
    requires
        !text.contains(c),
    ensures
        occurrences(text, c) == 0,
    decreases text.len(),
{
    if text.len() > 0 {
        assert(text.contains(text[text.len() - 1]));
        assert forall|i: int| 0 <= i < text.len() - 1 implies text.drop_last()[i] != c by {
            assert(text.contains(text[i]));
        }
        lemma_no_occurrences(text.drop_last(), c);
    }
}

/// How many `<` a page has does not depend on its report.
pub proof fn law_report_adds_no_tags(json: Seq<char>, other: Seq<char>, bundle: Seq<char>)
    ensures
        occurrences(page(json, bundle), '<') == occurrences(page(other, bundle), '<'),
{
    let head = PAGE_START@ + bundle + PAGE_MIDDLE@;
    law_report_opens_no_tags(json);
    law_report_opens_no_tags(other);
    lemma_no_occurrences(escaped(json), '<');
    lemma_no_occurrences(escaped(other), '<');
    lemma_occurrences(head, escaped(json), '<');
    lemma_occurrences(head, escaped(other), '<');
    lemma_occurrences(head + escaped(json), PAGE_END@, '<');
    lemma_occurrences(head + escaped(other), PAGE_END@, '<');
}

/// What a reader of JSON makes of the characters of a text.
pub enum JsonUnit {
    /// A character outside the strings, their quotes among them.
    Outside(char),
    /// The code of a character in a string.
    Inside(int),
}

/// The value of a hex digit.
pub open spec fn hex_value(c: char) -> Option<int> {
    if '0' <= c <= '9' {
        Some(c as int - '0' as int)
    } else if 'a' <= c <= 'f' {
        Some(c as int - 'a' as int + 10)
    } else if 'A' <= c <= 'F' {
        Some(c as int - 'A' as int + 10)
    } else {
        None
    }
}

/// Whether the escape that a text starts with is `\u` and four hex digits.
pub open spec fn is_code(text: Seq<char>) -> bool {
    &&& text.len() >= 6
    &&& text[0] == '\\' && text[1] == 'u'
    &&& hex_value(text[2]) is Some && hex_value(text[3]) is Some
    &&& hex_value(text[4]) is Some && hex_value(text[5]) is Some
}

/// The code behind `\u`.
pub open spec fn code_of(text: Seq<char>) -> int {
    hex_value(text[2])->0 * 4096 + hex_value(text[3])->0 * 256 + hex_value(text[4])->0 * 16
        + hex_value(text[5])->0
}

/// The character that a backslash and a letter stand for, where they stand for
/// one.
pub open spec fn short_escape(c: char) -> Option<int> {
    if c == '"' || c == '\\' || c == '/' {
        Some(c as int)
    } else if c == 'b' {
        Some(8)
    } else if c == 'f' {
        Some(12)
    } else if c == 'n' {
        Some(10)
    } else if c == 'r' {
        Some(13)
    } else if c == 't' {
        Some(9)
    } else {
        None
    }
}

/// What a reader of JSON makes of a text, or of the rest of one from inside a
/// string; nothing where an escape is none of JSON's.
pub open spec fn units(text: Seq<char>, inside: bool) -> Option<Seq<JsonUnit>>
    decreases text.len(),
{
    if text.len() == 0 {
        Some(Seq::empty())
    } else if !inside {
        before_all(JsonUnit::Outside(text[0]), units(text.skip(1), text[0] == '"'))
    } else if text[0] == '"' {
        before_all(JsonUnit::Outside(text[0]), units(text.skip(1), false))
    } else if is_code(text) {
        before_all(JsonUnit::Inside(code_of(text)), units(text.skip(6), true))
    } else if text[0] == '\\' {
        if text.len() >= 2 && short_escape(text[1]) is Some {
            before_all(JsonUnit::Inside(short_escape(text[1])->0), units(text.skip(2), true))
        } else {
            None
        }
    } else {
        before_all(JsonUnit::Inside(text[0] as int), units(text.skip(1), true))
    }
}

/// A unit and those behind it.
pub open spec fn before_all(unit: JsonUnit, rest: Option<Seq<JsonUnit>>) -> Option<Seq<JsonUnit>> {
    match rest {
        Some(rest) => Some(seq![unit] + rest),
        None => None,
    }
}

/// What a reader of JSON makes of the first character or escape of a text.
spec fn first_unit(text: Seq<char>, inside: bool) -> JsonUnit {
    if !inside || text[0] == '"' {
        JsonUnit::Outside(text[0])
    } else if is_code(text) {
        JsonUnit::Inside(code_of(text))
    } else if text[0] == '\\' {
        JsonUnit::Inside(short_escape(text[1])->0)
    } else {
        JsonUnit::Inside(text[0] as int)
    }
}

proof fn lemma_escaped_front(json: Seq<char>, n: int)
    requires
        0 <= n <= json.len(),
        forall|i: int| 0 <= i < n ==> json[i] != '<',
    ensures
        escaped(json) == json.take(n) + escaped(json.skip(n)),
    decreases json.len(),
{
    if n == json.len() {
        lemma_nothing_escaped(json);
        assert(json.take(n) =~= json);
        assert(json.skip(n) =~= Seq::<char>::empty());
    } else {
        lemma_escaped_front(json.drop_last(), n);
        assert(json.drop_last().take(n) =~= json.take(n));
        assert(json.drop_last().skip(n) =~= json.skip(n).drop_last());
        assert(escaped(json) =~= json.take(n) + escaped(json.skip(n)));
    }
}

proof fn lemma_nothing_escaped(json: Seq<char>)
    requires
        forall|i: int| 0 <= i < json.len() ==> json[i] != '<',
    ensures
        escaped(json) == json,
    decreases json.len(),
{
    if json.len() > 0 {
        assert(json.drop_last() =~= json.take(json.len() - 1));
        lemma_nothing_escaped(json.drop_last());
    }
    assert(escaped(json) =~= json);
}

proof fn lemma_escaped_first(json: Seq<char>)
    requires
        json.len() > 0,
        json[0] == '<',
    ensures
        escaped(json) == LESS_THAN@ + escaped(json.skip(1)),
    decreases json.len(),
{
    if json.len() == 1 {
        assert(json.drop_last() =~= Seq::<char>::empty());
        assert(json.skip(1) =~= Seq::<char>::empty());
        assert(escaped(json) =~= LESS_THAN@ + escaped(json.skip(1)));
    } else {
        lemma_escaped_first(json.drop_last());
        assert(json.drop_last().skip(1) =~= json.skip(1).drop_last());
        assert(escaped(json) =~= LESS_THAN@ + escaped(json.skip(1)));
    }
}

/// The report in the page still reads as the same JSON: outside strings, where
/// JSON has no `<`, and in strings, where `<` stands for it, a reader makes
/// the same of it.
pub proof fn law_report_reads_the_same(json: Seq<char>, inside: bool)
    requires
        units(json, inside) matches Some(all) && !all.contains(JsonUnit::Outside('<')),
    ensures
        units(escaped(json), inside) == units(json, inside),
    decreases json.len(),
{
    reveal_strlit("\\u003c");
    if json.len() == 0 {
        assert(escaped(json) =~= json);
    } else {
        let step: int = if inside && is_code(json) {
            6
        } else if inside && json[0] == '\\' {
            2
        } else {
            1
        };
        let then = if !inside {
            json[0] == '"'
        } else {
            json[0] != '"'
        };
        let rest = json.skip(step);
        let all = units(json, inside)->0;
        let unit = first_unit(json, inside);
        assert(units(json, inside) == before_all(unit, units(rest, then)));
        let tail = units(rest, then)->0;
        assert(all =~= seq![unit] + tail);
        assert(all[0] == unit);
        assert(!tail.contains(JsonUnit::Outside('<'))) by {
            if tail.contains(JsonUnit::Outside('<')) {
                let k = tail.index_of(JsonUnit::Outside('<'));
                assert(all[k + 1] == tail[k]);
            }
        }
        law_report_reads_the_same(rest, then);
        if json[0] == '<' {
            if !inside {
                assert(all[0] == JsonUnit::Outside('<'));
            }
            lemma_escaped_first(json);
            assert(escaped(json).skip(6) =~= escaped(rest));
            assert(is_code(escaped(json)));
            assert(code_of(escaped(json)) == '<' as int);
        } else {
            lemma_escaped_front(json, step);
            assert(escaped(json).skip(step) =~= escaped(rest));
            assert forall|i: int| 0 <= i < step implies escaped(json)[i] == json[i] by {}
            assert(inside && json[0] == '\\' ==> is_code(escaped(json)) == is_code(json));
        }
    }
}

} // verus!
