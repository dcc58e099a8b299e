//! Entries of the `mutate` setting: globs with optional mutation ranges.
use vstd::prelude::*;

use crate::text::chars_of;
use crate::text::copy_text;
use crate::text::parse_number;
use crate::text::text_of;

verus! {

/// One entry of the `mutate` config array.
///
/// A glob or literal path, with an optional mutation range behind it:
/// `src/app.ts:1-11` (whole lines) or `src/app.ts:5:4-6:4` (line:column,
/// columns 0-based). Negated entries start with `!`.
#[derive(Debug)]
pub struct MutatePattern {
    pub negated: bool,
    /// Glob (or literal path) with any range suffix stripped.
    pub glob: String,
    pub range: Option<MutationRange>,
}

/// The lines, and maybe columns, that an entry is restricted to.
#[derive(Debug, Clone, Copy, PartialEq, Eq)]
pub struct MutationRange {
    pub start_line: u32,
    pub start_column: Option<u32>,
    pub end_line: u32,
    pub end_column: Option<u32>,
}

impl MutationRange {
    /// The lines of the range, both ends included.
    pub open spec fn has_line(self, line: u32) -> bool {
        self.start_line <= line <= self.end_line
    }

    /// Does a mutant starting at `line` (1-based) fall inside this range?
    /// Line-only ranges are inclusive on both ends.
    pub fn contains_line(&self, line: u32) -> (r: bool)
        ensures
            r == self.has_line(line),
    {
        line >= self.start_line && line <= self.end_line
    }
}

/// Why a text is no number of 32 bits.
#[derive(Debug, Clone, Copy, PartialEq, Eq, Structural)]
pub enum NumberFault {
    Empty,
    InvalidDigit,
    TooLarge,
}

impl NumberFault {
    /// The fault in words.
    pub open spec fn words(self) -> Seq<char> {
        match self {
            NumberFault::Empty => "cannot parse integer from empty string"@,
            NumberFault::InvalidDigit => "invalid digit found in string"@,
            NumberFault::TooLarge => "number too large to fit in target type"@,
        }
    }

    /// The fault in words.
    pub fn message(self) -> (r: String)
        ensures
            r@ == self.words(),
    {
        match self {
            NumberFault::Empty => copy_text("cannot parse integer from empty string"),
            NumberFault::InvalidDigit => copy_text("invalid digit found in string"),
            NumberFault::TooLarge => copy_text("number too large to fit in target type"),
        }
    }
}

/// Why an entry was refused.
#[derive(Debug)]
pub enum MutatePatternError {
    /// A line or column is no number of 32 bits.
    BadNumber(NumberFault),
    /// A negated entry carries a range.
    NegatedRange,
    /// A range ends before it starts.
    ReversedRange,
}

impl MutatePatternError {
    /// The error about the entry `raw` in words.
    pub open spec fn words(self, raw: Seq<char>) -> Seq<char> {
        match self {
            MutatePatternError::BadNumber(fault) => fault.words(),
            MutatePatternError::NegatedRange => "negated mutate pattern "@ + crate::text::quoted(raw)
                + " cannot carry a mutation range"@,
            MutatePatternError::ReversedRange => "mutate range in "@ + crate::text::quoted(raw)
                + " ends before it starts"@,
        }
    }

    /// The error about the entry `raw` in words.
    pub fn message(&self, raw: &str) -> (r: String)
        ensures
            r@ == self.words(raw@),
    {
        let shown = crate::text::quote(raw);
        match self {
            MutatePatternError::BadNumber(fault) => fault.message(),
            MutatePatternError::NegatedRange => crate::text::concat3(
                "negated mutate pattern ",
                shown.as_str(),
                " cannot carry a mutation range",
            ),
            MutatePatternError::ReversedRange => crate::text::concat3(
                "mutate range in ",
                shown.as_str(),
                " ends before it starts",
            ),
        }
    }
}

/// The texts of an entry with a range: path, first line, first column, last
/// line, last column.
#[derive(Debug)]
pub struct RangeTexts {
    pub path: String,
    pub start_line: String,
    pub start_column: Option<String>,
    pub end_line: String,
    pub end_column: Option<String>,
}

/// The characters of `RangeTexts`.
pub struct RangeTextsView {
    pub path: Seq<char>,
    pub start_line: Seq<char>,
    pub start_column: Option<Seq<char>>,
    pub end_line: Seq<char>,
    pub end_column: Option<Seq<char>>,
}

impl RangeTexts {
    pub open spec fn view(&self) -> RangeTextsView {
        RangeTextsView {
            path: self.path@,
            start_line: self.start_line@,
            start_column: crate::text::opt_text(self.start_column),
            end_line: self.end_line@,
            end_column: crate::text::opt_text(self.end_column),
        }
    }
}

/// Whether a character outside ASCII is a decimal digit of Unicode.
pub uninterp spec fn unicode_digit(c: char) -> bool;

/// At least one character, and all of them digits.
pub open spec fn all_digits(s: Seq<char>, digit: spec_fn(char) -> bool) -> bool {
    s.len() > 0 && forall|i: int| 0 <= i < s.len() ==> digit(#[trigger] s[i])
}

/// A line, or a line and a column with a colon between them.
pub open spec fn range_end(s: Seq<char>, digit: spec_fn(char) -> bool) -> Option<
    (Seq<char>, Option<Seq<char>>),
> {
    match crate::text::cut_once(s, seq![':']) {
        Some((line, column)) => if all_digits(line, digit) && all_digits(column, digit) {
            Some((line, Some(column)))
        } else {
            None
        },
        None => if all_digits(s, digit) {
            Some((s, None))
        } else {
            None
        },
    }
}

/// The entry whose path is followed by a colon at index `k`, or at the first
/// later index that leaves a range behind it.
pub open spec fn range_from(s: Seq<char>, k: int, digit: spec_fn(char) -> bool) -> Option<
    RangeTextsView,
>
    decreases s.len() - k,
{
    if k < 0 || k >= s.len() {
        None
    } else {
        match range_at(s, k, digit) {
            Some(parts) => Some(parts),
            None => if s[k] == '\n' {
                None
            } else {
                range_from(s, k + 1, digit)
            },
        }
    }
}

/// The entry whose path ends at the colon of index `k`.
pub open spec fn range_at(s: Seq<char>, k: int, digit: spec_fn(char) -> bool) -> Option<
    RangeTextsView,
> {
    if k == 0 || s[k] != ':' {
        None
    } else {
        match crate::text::cut_once(s.skip(k + 1), seq!['-']) {
            Some((start, end)) => match (range_end(start, digit), range_end(end, digit)) {
                (Some((start_line, start_column)), Some((end_line, end_column))) => Some(
                    RangeTextsView { path: s.take(k), start_line, start_column, end_line, end_column },
                ),
                _ => None,
            },
            None => None,
        }
    }
}

/// The pattern of a path and a mutation range, `path:5:4-6:4` or `path:5-6`.
const RANGE_PATTERN: &'static str = "^(.+?):(\\d+)(?::(\\d+))?-(\\d+)(?::(\\d+))?$";

/// `Regex::captures` of the `regex` crate with `RANGE_PATTERN`: the path is the
/// shortest that leaves a range behind its colon, it is not empty and has no
/// line feed; numbers are runs of decimal digits, of Unicode too.
#[verifier::external_body]
fn range_texts(pattern: &str, text: &str) -> (r: Option<RangeTexts>)
    requires
        pattern@ == RANGE_PATTERN@,
    ensures
        match r {
            Some(parts) => range_from(
                text@,
                0,
                |c: char| if (c as u32) < 128 { '0' <= c <= '9' } else { unicode_digit(c) },
            ) == Some(parts@),
            None => range_from(
                text@,
                0,
                |c: char| if (c as u32) < 128 { '0' <= c <= '9' } else { unicode_digit(c) },
            ) is None,
        },
{
    let caps = regex::Regex::new(pattern).unwrap().captures(text)?;
    Some(RangeTexts {
        path: caps[1].to_string(),
        start_line: caps[2].to_string(),
        start_column: caps.get(3).map(|m| m.as_str().to_string()),
        end_line: caps[4].to_string(),
        end_column: caps.get(5).map(|m| m.as_str().to_string()),
    })
}

/// A digit in the numbers of a range.
pub open spec fn digit_rule() -> spec_fn(char) -> bool {
    |c: char| if (c as u32) < 128 { '0' <= c <= '9' } else { unicode_digit(c) }
}

/// The digits that a text begins with, behind a plus sign where it has one.
pub open spec fn leading_digits(s: Seq<char>) -> Seq<char>
    decreases s.len(),
{
    if s.len() == 0 {
        s
    } else if crate::text::all_digits(s) {
        s
    } else {
        leading_digits(s.drop_last())
    }
}

/// A text without the plus sign that it may begin with.
pub open spec fn unsigned(s: Seq<char>) -> Seq<char> {
    if s.len() > 0 && s[0] == '+' {
        s.skip(1)
    } else {
        s
    }
}

/// Why a text is no number of 32 bits: read from the left, it has a character
/// that is no digit, or it grows too large before one.
pub open spec fn fault_of(s: Seq<char>) -> NumberFault {
    if s.len() == 0 {
        NumberFault::Empty
    } else if crate::text::decimal_value(leading_digits(unsigned(s))) > u32::MAX {
        NumberFault::TooLarge
    } else {
        NumberFault::InvalidDigit
    }
}

/// The number of 32 bits that a text writes, or why it writes none.
pub open spec fn number_of(s: Seq<char>) -> Result<u32, NumberFault> {
    match crate::text::parsed(s, u32::MAX as nat) {
        Some(n) => Ok(n as u32),
        None => Err(fault_of(s)),
    }
}

/// The number that an optional text writes, or why it writes none.
pub open spec fn opt_number_of(s: Option<Seq<char>>) -> Result<Option<u32>, NumberFault> {
    match s {
        Some(t) => match number_of(t) {
            Ok(n) => Ok(Some(n)),
            Err(fault) => Err(fault),
        },
        None => Ok(None),
    }
}

/// The range that the texts of an entry write, or the first fault of its numbers.
pub open spec fn range_of(parts: RangeTextsView) -> Result<MutationRange, NumberFault> {
    match number_of(parts.start_line) {
        Err(fault) => Err(fault),
        Ok(start_line) => match opt_number_of(parts.start_column) {
            Err(fault) => Err(fault),
            Ok(start_column) => match number_of(parts.end_line) {
                Err(fault) => Err(fault),
                Ok(end_line) => match opt_number_of(parts.end_column) {
                    Err(fault) => Err(fault),
                    Ok(end_column) => Ok(
                        MutationRange { start_line, start_column, end_line, end_column },
                    ),
                },
            },
        },
    }
}

/// The characters of a pattern.
pub struct MutatePatternView {
    pub negated: bool,
    pub glob: Seq<char>,
    pub range: Option<MutationRange>,
}

/// What an entry without its `!` stands for, given the texts of its range.
pub open spec fn pattern_of(
    negated: bool,
    rest: Seq<char>,
    parts: Option<RangeTextsView>,
) -> Result<MutatePatternView, MutatePatternError> {
    match parts {
        None => Ok(MutatePatternView { negated, glob: rest, range: None }),
        Some(parts) => match range_of(parts) {
            Err(fault) => Err(MutatePatternError::BadNumber(fault)),
            Ok(range) => if negated {
                Err(MutatePatternError::NegatedRange)
            } else if range.end_line < range.start_line {
                Err(MutatePatternError::ReversedRange)
            } else {
                Ok(MutatePatternView { negated, glob: parts.path, range: Some(range) })
            },
        },
    }
}

/// An entry without its `!`.
pub open spec fn without_bang(raw: Seq<char>) -> Seq<char> {
    if raw.len() > 0 && raw[0] == '!' {
        raw.skip(1)
    } else {
        raw
    }
}

/// What an entry stands for.
pub open spec fn parsed_pattern(raw: Seq<char>) -> Result<MutatePatternView, MutatePatternError> {
    pattern_of(
        raw.len() > 0 && raw[0] == '!',
        without_bang(raw),
        range_from(without_bang(raw), 0, digit_rule()),
    )
}

proof fn lemma_leading(s: Seq<char>, k: int)
    requires
        0 <= k <= s.len(),
        crate::text::all_digits(s.take(k)),
        k < s.len() ==> !crate::text::is_ascii_digit(s[k]),
    ensures
        leading_digits(s) == s.take(k),
    decreases s.len(),
{
    if k == s.len() {
        assert(s.take(k) =~= s);
    } else {
        assert(!crate::text::all_digits(s)) by {
            assert(!crate::text::is_ascii_digit(s[k]));
        }
        assert(s.drop_last().take(k) =~= s.take(k));
        lemma_leading(s.drop_last(), k);
    }
}

fn find_fault(text: &str) -> (r: NumberFault)
    requires
        crate::text::parsed(text@, u32::MAX as nat) is None,
    ensures
        r == fault_of(text@),
{
    let chars = chars_of(text);
    let total = chars.len();
    if total == 0 {
        return NumberFault::Empty;
    }
    let start: usize = if chars[0] == '+' {
        1
    } else {
        0
    };
    let ghost body = unsigned(text@);
    let mut k: usize = start;
    while k < total && '0' <= chars[k] && chars[k] <= '9'
        invariant
            start <= k <= total == chars@.len(),
            chars@ == text@,
            body == chars@.skip(start as int),
            forall|i: int| 0 <= i < k - start ==> crate::text::is_ascii_digit(#[trigger] body[i]),
        decreases total - k,
    {
        k = k + 1;
    }
    let run = text_of(&chars, start, k);
    proof {
        assert(run@ =~= body.take(k - start));
        assert forall|i: int| 0 <= i < run@.len() implies crate::text::is_ascii_digit(
            #[trigger] run@[i],
        ) by {
            assert(run@[i] == body[i]);
        }
        lemma_leading(body, k - start);
    }
    if k == start {
        return NumberFault::InvalidDigit;
    }
    proof {
        assert(crate::text::is_ascii_digit(run@[0]));
    }
    match parse_number(run.as_str(), u32::MAX as u64) {
        Some(_) => NumberFault::InvalidDigit,
        None => NumberFault::TooLarge,
    }
}

fn read_u32(text: &str) -> (r: Result<u32, NumberFault>)
    ensures
        r == number_of(text@),
{
    match parse_number(text, u32::MAX as u64) {
        Some(n) => Ok(n as u32),
        None => Err(find_fault(text)),
    }
}

fn read_opt_u32(text: &Option<String>) -> (r: Result<Option<u32>, NumberFault>)
    ensures
        r == opt_number_of(crate::text::opt_text(*text)),
{
    match text {
        Some(t) => match read_u32(t.as_str()) {
            Ok(n) => Ok(Some(n)),
            Err(fault) => Err(fault),
        },
        None => Ok(None),
    }
}

fn read_range(parts: &RangeTexts) -> (r: Result<MutationRange, NumberFault>)
    ensures
        r == range_of(parts@),
{
    let start_line: u32 = match read_u32(parts.start_line.as_str()) {
        Ok(n) => n,
        Err(fault) => {
            return Err(fault);
        },
    };
    let start_column: Option<u32> = match read_opt_u32(&parts.start_column) {
        Ok(n) => n,
        Err(fault) => {
            return Err(fault);
        },
    };
    let end_line: u32 = match read_u32(parts.end_line.as_str()) {
        Ok(n) => n,
        Err(fault) => {
            return Err(fault);
        },
    };
    match read_opt_u32(&parts.end_column) {
        Ok(end_column) => Ok(MutationRange { start_line, start_column, end_line, end_column }),
        Err(fault) => Err(fault),
    }
}

/// Whether `glob` names one file: every `[` opens a class of exactly one
/// character, and outside such classes there is none of `*`, `?` and `{`.
pub open spec fn literal(glob: Seq<char>) -> bool
    decreases glob.len(),
{
    if glob.len() == 0 {
        true
    } else if glob[0] == '[' {
        glob.len() >= 3 && glob[2] == ']' && literal(glob.skip(3))
    } else {
        glob[0] != '*' && glob[0] != '?' && glob[0] != '{' && literal(glob.skip(1))
    }
}

/// `glob` with every bracketed single character taken out of its brackets.
pub open spec fn unescaped(glob: Seq<char>) -> Seq<char>
    decreases glob.len(),
{
    if glob.len() == 0 {
        glob
    } else if glob.len() >= 3 && glob[0] == '[' && glob[2] == ']' {
        seq![glob[1]] + unescaped(glob.skip(3))
    } else {
        seq![glob[0]] + unescaped(glob.skip(1))
    }
}

proof fn lemma_plain(glob: Seq<char>)
    requires
        !glob.contains('*'),
        !glob.contains('?'),
        !glob.contains('{'),
        !glob.contains('['),
    ensures
        literal(glob),
        unescaped(glob) == glob,
    decreases glob.len(),
{
    if glob.len() > 0 {
        assert(glob.contains(glob[0]));
        let rest = glob.skip(1);
        assert forall|c: char| #[trigger] rest.contains(c) implies glob.contains(c) by {
            let i = rest.index_of(c);
            assert(glob[i + 1] == c);
        }
        lemma_plain(rest);
        assert(seq![glob[0]] + rest =~= glob);
    }
}

/// A path with every character of `marked` in brackets.
pub open spec fn escaped(path: Seq<char>, marked: spec_fn(char) -> bool) -> Seq<char>
    decreases path.len(),
{
    if path.len() == 0 {
        path
    } else if marked(path[0]) {
        seq!['[', path[0], ']'] + escaped(path.skip(1), marked)
    } else {
        seq![path[0]] + escaped(path.skip(1), marked)
    }
}

/// A path whose glob characters were escaped as classes of one character is
/// literal and names that path, whatever else was escaped.
pub proof fn law_escaped_path_names_itself(path: Seq<char>, marked: spec_fn(char) -> bool)
    requires
        marked('*'),
        marked('?'),
        marked('{'),
        marked('['),
    ensures
        literal(escaped(path, marked)),
        unescaped(escaped(path, marked)) == path,
    decreases path.len(),
{
    if path.len() > 0 {
        let rest = escaped(path.skip(1), marked);
        let whole = escaped(path, marked);
        law_escaped_path_names_itself(path.skip(1), marked);
        if marked(path[0]) {
            assert(whole.skip(3) =~= rest);
        } else {
            assert(whole.skip(1) =~= rest);
        }
        assert(seq![path[0]] + path.skip(1) =~= path);
    }
}

/// A pattern without glob characters is literal and names itself.
pub proof fn law_plain_path_names_itself(glob: Seq<char>)
    requires
        !glob.contains('*'),
        !glob.contains('?'),
        !glob.contains('{'),
        !glob.contains('['),
    ensures
        literal(glob),
        unescaped(glob) == glob,
{
    lemma_plain(glob);
}

/// A range never ends before it starts, and a negated pattern has none.
pub proof fn law_ranges_are_ordered(raw: Seq<char>)
    ensures
        parsed_pattern(raw) matches Ok(p) ==> (p.range matches Some(range) ==> !p.negated
            && range.start_line <= range.end_line),
{
}

impl MutatePattern {
    pub open spec fn view(&self) -> MutatePatternView {
        MutatePatternView { negated: self.negated, glob: self.glob@, range: self.range }
    }

    /// Reads one entry.
    pub fn parse(raw: &str) -> (r: Result<MutatePattern, MutatePatternError>)
        ensures
            match r {
                Ok(p) => parsed_pattern(raw@) == Ok::<MutatePatternView, MutatePatternError>(p@),
                Err(e) => parsed_pattern(raw@) == Err::<MutatePatternView, MutatePatternError>(e),
            },
    {
        let chars = chars_of(raw);
        let total = chars.len();
        let negated: bool = total > 0 && chars[0] == '!';
        let rest = if negated {
            text_of(&chars, 1, total)
        } else {
            copy_text(raw)
        };
        proof {
            assert(rest@ =~= without_bang(raw@));
        }
        let parts = range_texts(RANGE_PATTERN, rest.as_str());
        Self::from_parts(negated, rest, parts)
    }

    /// The pattern of an entry without its `!`, given the texts of its range.
    pub fn from_parts(negated: bool, rest: String, parts: Option<RangeTexts>) -> (r: Result<
        MutatePattern,
        MutatePatternError,
    >)
        ensures
            match r {
                Ok(p) => pattern_of(
                    negated,
                    rest@,
                    match parts {
                        Some(t) => Some(t@),
                        None => None,
                    },
                ) == Ok::<MutatePatternView, MutatePatternError>(p@),
                Err(e) => pattern_of(
                    negated,
                    rest@,
                    match parts {
                        Some(t) => Some(t@),
                        None => None,
                    },
                ) == Err::<MutatePatternView, MutatePatternError>(e),
            },
    {
        match parts {
            None => Ok(MutatePattern { negated, glob: rest, range: None }),
            Some(parts) => {
                match read_range(&parts) {
                    Ok(range) => {
                        if negated {
                            return Err(MutatePatternError::NegatedRange);
                        }
                        if range.end_line < range.start_line {
                            return Err(MutatePatternError::ReversedRange);
                        }
                        Ok(MutatePattern { negated, glob: parts.path, range: Some(range) })
                    },
                    Err(fault) => Err(MutatePatternError::BadNumber(fault)),
                }
            },
        }
    }

    /// True when the pattern names a literal file rather than a glob. Literal
    /// entries must appear in the report even with zero mutants.
    pub fn is_literal_path(&self) -> (r: bool)
        ensures
            r == literal(self.glob@),
    {
        let chars = chars_of(self.glob.as_str());
        let mut i: usize = 0;
        let total = chars.len();
        proof {
            assert(chars@.skip(0) =~= chars@);
        }
        while i < total
            invariant
                i <= total == chars@.len(),
                chars@ == self.glob@,
                literal(chars@) == literal(chars@.skip(i as int)),
            decreases total - i,
        {
            if chars[i] == '[' {
                if total - i < 3 || chars[i + 2] != ']' {
                    return false;
                }
                proof {
                    assert(chars@.skip(i as int).skip(3) =~= chars@.skip(i + 3));
                }
                i = i + 3;
            } else {
                if chars[i] == '*' || chars[i] == '?' || chars[i] == '{' {
                    return false;
                }
                proof {
                    assert(chars@.skip(i as int).skip(1) =~= chars@.skip(i + 1));
                }
                i = i + 1;
            }
        }
        true
    }

    /// The plain path of a literal pattern: bracketed single characters stand
    /// for themselves (`[(]` is `(`).
    pub fn literal_path(&self) -> (r: Option<String>)
        ensures
            match r {
                Some(path) => literal(self.glob@) && path@ == unescaped(self.glob@),
                None => !literal(self.glob@),
            },
    {
        if !self.is_literal_path() {
            return None;
        }
        let chars = chars_of(self.glob.as_str());
        let mut out = String::new();
        let mut i: usize = 0;
        let total = chars.len();
        proof {
            assert(chars@.skip(0) =~= chars@);
            assert(out@ + unescaped(chars@) =~= unescaped(chars@));
        }
        while i < total
            invariant
                i <= total == chars@.len(),
                out@ + unescaped(chars@.skip(i as int)) == unescaped(chars@),
            decreases total - i,
        {
            let ghost rest = chars@.skip(i as int);
            let ghost before = out@;
            if chars[i] == '[' && total - i >= 3 && chars[i + 2] == ']' {
                out.push(chars[i + 1]);
                proof {
                    assert(rest.skip(3) =~= chars@.skip(i + 3));
                    assert(out@ + unescaped(rest.skip(3)) =~= before + unescaped(rest));
                }
                i = i + 3;
            } else {
                out.push(chars[i]);
                proof {
                    assert(rest.skip(1) =~= chars@.skip(i + 1));
                    assert(out@ + unescaped(rest.skip(1)) =~= before + unescaped(rest));
                }
                i = i + 1;
            }
        }
        proof {
            assert(out@ + unescaped(chars@.skip(total as int)) =~= out@);
        }
        Some(out)
    }
}

// ---- what entries say ----

proof fn lemma_no_range(s: Seq<char>, k: int)
    requires
        0 <= k,
        !s.contains(':'),
    ensures
        range_from(s, k, digit_rule()) is None,
    decreases s.len() - k,
{
    if k < s.len() {
        assert(s[k] != ':');
        lemma_no_range(s, k + 1);
    }
}

/// An entry without a colon names files by a glob, whole, and takes them out again
/// where it begins with an exclamation mark.
pub proof fn law_plain_entries(glob: Seq<char>)
    requires
        !glob.contains(':'),
    ensures
        glob.len() == 0 || glob[0] != '!' ==> parsed_pattern(glob) == Ok::<
            MutatePatternView,
            MutatePatternError,
        >(MutatePatternView { negated: false, glob, range: None }),
        parsed_pattern(seq!['!'] + glob) == Ok::<MutatePatternView, MutatePatternError>(
            MutatePatternView { negated: true, glob, range: None },
        ),
{
    lemma_no_range(glob, 0);
    let barred = seq!['!'] + glob;
    assert(barred[0] == '!');
    assert(barred.skip(1) =~= glob);
}

/// Whether a text is a number in ASCII digits that fits.
pub open spec fn is_number(s: Seq<char>) -> bool {
    s.len() > 0 && crate::text::all_digits(s) && crate::text::decimal_value(s) <= u32::MAX
}

proof fn lemma_number(s: Seq<char>)
    requires
        is_number(s),
    ensures
        number_of(s) == Ok::<u32, NumberFault>(crate::text::decimal_value(s) as u32),
        all_digits(s, digit_rule()),
        !s.contains(':'),
        !s.contains('-'),
{
    assert(crate::text::is_ascii_digit(s[0]));
    assert forall|i: int| 0 <= i < s.len() implies digit_rule()(#[trigger] s[i]) by {
        assert(crate::text::is_ascii_digit(s[i]));
    }
    if s.contains(':') {
        let i = s.index_of(':');
        assert(crate::text::is_ascii_digit(s[i]));
    }
    if s.contains('-') {
        let i = s.index_of('-');
        assert(crate::text::is_ascii_digit(s[i]));
    }
}

proof fn lemma_cut_at(a: Seq<char>, c: char, b: Seq<char>)
    requires
        !a.contains(c),
    ensures
        crate::text::cut_once(a + seq![c] + b, seq![c]) == Some((a, b)),
{
    let text = a + seq![c] + b;
    let n = a.len() as int;
    assert(text.subrange(n, n + 1) =~= seq![c]);
    assert(crate::text::occurs_at(text, seq![c], n));
    crate::text::lemma_find_from(text, seq![c], 0);
    let p = crate::text::find(text, seq![c])->0;
    assert(text.subrange(p, p + 1)[0] == c);
    if p < n {
        assert(a[p] == c);
        assert(a.contains(c));
    }
    assert(text.take(n) =~= a);
    assert(text.skip(n + 1) =~= b);
}

proof fn lemma_not_cut(a: Seq<char>, c: char)
    requires
        !a.contains(c),
    ensures
        crate::text::cut_once(a, seq![c]) is None,
{
    crate::text::lemma_find_from(a, seq![c], 0);
    if let Some(p) = crate::text::find(a, seq![c]) {
        assert(a.subrange(p, p + 1)[0] == c);
        assert(a[p] == c);
    }
}

proof fn lemma_range_from(path: Seq<char>, rest: Seq<char>, k: int)
    requires
        0 <= k <= path.len(),
        path.len() > 0,
        !path.contains(':'),
        !path.contains('\n'),
        range_at(path + seq![':'] + rest, path.len() as int, digit_rule()) is Some,
    ensures
        range_from(path + seq![':'] + rest, k, digit_rule()) == range_at(
            path + seq![':'] + rest,
            path.len() as int,
            digit_rule(),
        ),
    decreases path.len() - k,
{
    let s = path + seq![':'] + rest;
    if k < path.len() {
        assert(s[k] == path[k]);
        assert(path.contains(path[k]));
        lemma_range_from(path, rest, k + 1);
    }
}

/// A path with a range behind a colon names the lines of that range in that file,
/// with the columns where they are given. A range that ends before it starts is
/// refused, and so is one behind an exclamation mark.
pub proof fn law_entries_with_ranges(
    path: Seq<char>,
    from: Seq<char>,
    to: Seq<char>,
    from_column: Seq<char>,
    to_column: Seq<char>,
)
    requires
        path.len() > 0,
        path[0] != '!',
        !path.contains(':'),
        !path.contains('\n'),
        is_number(from),
        is_number(to),
        is_number(from_column),
        is_number(to_column),
    ensures
        ({
            let lines = from + seq!['-'] + to;
            let columns = (from + seq![':'] + from_column) + seq!['-'] + (to + seq![':'] + to_column);
            let a = crate::text::decimal_value(from);
            let b = crate::text::decimal_value(to);
            &&& a <= b ==> parsed_pattern(path + seq![':'] + lines) == Ok::<
                MutatePatternView,
                MutatePatternError,
            >(
                MutatePatternView {
                    negated: false,
                    glob: path,
                    range: Some(
                        MutationRange {
                            start_line: a as u32,
                            start_column: None,
                            end_line: b as u32,
                            end_column: None,
                        },
                    ),
                },
            )
            &&& a <= b ==> parsed_pattern(path + seq![':'] + columns) == Ok::<
                MutatePatternView,
                MutatePatternError,
            >(
                MutatePatternView {
                    negated: false,
                    glob: path,
                    range: Some(
                        MutationRange {
                            start_line: a as u32,
                            start_column: Some(crate::text::decimal_value(from_column) as u32),
                            end_line: b as u32,
                            end_column: Some(crate::text::decimal_value(to_column) as u32),
                        },
                    ),
                },
            )
            &&& a > b ==> parsed_pattern(path + seq![':'] + lines) == Err::<
                MutatePatternView,
                MutatePatternError,
            >(MutatePatternError::ReversedRange)
            &&& parsed_pattern(seq!['!'] + (path + seq![':'] + lines)) == Err::<
                MutatePatternView,
                MutatePatternError,
            >(MutatePatternError::NegatedRange)
        }),
{
    lemma_number(from);
    lemma_number(to);
    lemma_number(from_column);
    lemma_number(to_column);
    let lines = from + seq!['-'] + to;
    let start = from + seq![':'] + from_column;
    let end = to + seq![':'] + to_column;
    let columns = start + seq!['-'] + end;
    let n = path.len() as int;
    lemma_cut_at(from, '-', to);
    lemma_not_cut(from, ':');
    lemma_not_cut(to, ':');
    lemma_cut_at(from, ':', from_column);
    lemma_cut_at(to, ':', to_column);
    assert(!start.contains('-')) by {
        if start.contains('-') {
            let i = start.index_of('-');
            if i < from.len() {
                assert(from[i] == '-');
            } else if i > from.len() {
                assert(from_column[i - from.len() - 1] == '-');
            }
        }
    }
    lemma_cut_at(start, '-', end);
    let plain = path + seq![':'] + lines;
    let full = path + seq![':'] + columns;
    assert(plain.skip(n + 1) =~= lines);
    assert(full.skip(n + 1) =~= columns);
    assert(plain.take(n) =~= path);
    assert(full.take(n) =~= path);
    assert(plain[n] == ':' && full[n] == ':');
    assert(plain[0] == path[0] && full[0] == path[0]);
    lemma_range_from(path, lines, 0);
    lemma_range_from(path, columns, 0);
    let barred = seq!['!'] + plain;
    assert(barred[0] == '!');
    assert(barred.skip(1) =~= plain);
}

/// A number of digits alone, with a plus sign or without, can only be too large;
/// nothing at all is no number, and other text is no digit where the digits in
/// front of it fit.
pub proof fn law_faults_of_numbers(digits: Seq<char>, c: char)
    requires
        crate::text::all_digits(digits),
        digits.len() > 0,
    ensures
        fault_of(Seq::empty()) is Empty,
        fault_of(digits) is TooLarge <==> crate::text::decimal_value(digits) > u32::MAX,
        fault_of(seq!['+'] + digits) is TooLarge <==> crate::text::decimal_value(digits) > u32::MAX,
        !crate::text::is_ascii_digit(c) && crate::text::decimal_value(digits) <= u32::MAX
            ==> fault_of(digits.push(c)) is InvalidDigit,
        !crate::text::is_ascii_digit(c) && crate::text::decimal_value(digits) > u32::MAX
            ==> fault_of(digits.push(c)) is TooLarge,
{
    assert(crate::text::is_ascii_digit(digits[0]));
    assert(digits[0] != '+');
    assert((seq!['+'] + digits).skip(1) =~= digits);
    let more = digits.push(c);
    assert(more[0] == digits[0]);
    assert(more.drop_last() =~= digits);
    assert(more[digits.len() as int] == c);
    if !crate::text::is_ascii_digit(c) {
        assert(!crate::text::all_digits(more));
        assert(leading_digits(more) == leading_digits(digits));
    }
}

} // verus!
