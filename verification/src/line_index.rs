//! Byte offset to line and column.
use vstd::prelude::*;

use crate::model::Position;
use crate::source::Source;

verus! {

/// Byte-offset to 1-based line/column lookup for one source file.
///
/// Columns count UTF-16 code units.
pub struct LineIndex {
    /// Index of the first character of each line.
    starts: Vec<usize>,
}

/// The index of the first character of each line of `s`.
pub open spec fn line_starts(s: Seq<char>) -> Seq<int>
    decreases s.len(),
{
    if s.len() == 0 {
        seq![0]
    } else if s.last() == '\n' {
        line_starts(s.drop_last()).push(s.len() as int)
    } else {
        line_starts(s.drop_last())
    }
}

/// `offset`, but never behind the end of `s`.
pub open spec fn clamped(s: Seq<char>, offset: int) -> int {
    if offset <= crate::source::byte_len(s) {
        offset
    } else {
        crate::source::byte_len(s) as int
    }
}

/// The text before byte `offset`, the whole text where it is shorter.
pub open spec fn text_before(s: Seq<char>, offset: int) -> Seq<char> {
    s.take(crate::source::index_at(s, clamped(s, offset)))
}

/// The line and the column of byte `offset`.
pub open spec fn position_of(s: Seq<char>, offset: int) -> Position {
    let before = text_before(s, offset);
    Position {
        line: crate::source::line_after(before) as u32,
        column: crate::source::column_after(before) as u32,
    }
}

proof fn lemma_starts(s: Seq<char>)
    ensures
        line_starts(s).len() == crate::source::feeds(s) + 1,
        line_starts(s).last() <= s.len(),
        0 <= line_starts(s).last(),
        s.skip(line_starts(s).last()) == crate::source::last_line(s),
        forall|k: int| 0 <= k < line_starts(s).len() ==> 0 <= #[trigger] line_starts(s)[k] <= s.len(),
    decreases s.len(),
{
    if s.len() > 0 {
        let f = s.drop_last();
        lemma_starts(f);
        if s.last() == '\n' {
            assert(s.skip(s.len() as int) =~= Seq::<char>::empty());
        } else {
            let p = line_starts(f).last();
            assert(s.skip(p) =~= f.skip(p).push(s.last()));
        }
    } else {
        assert(s.skip(0) =~= Seq::<char>::empty());
    }
}

/// The starts up to index `i` are those of the text before it.
proof fn lemma_starts_prefix(s: Seq<char>, i: int)
    requires
        0 <= i <= s.len(),
    ensures
        line_starts(s.take(i)).len() <= line_starts(s).len(),
        line_starts(s.take(i)) == line_starts(s).take(line_starts(s.take(i)).len() as int),
        forall|k: int|
            line_starts(s.take(i)).len() <= k < line_starts(s).len() ==> #[trigger] line_starts(s)[k]
                > i,
    decreases s.len() - i,
{
    if i == s.len() {
        assert(s.take(i) =~= s);
        assert(line_starts(s) =~= line_starts(s).take(line_starts(s).len() as int));
    } else {
        lemma_starts_prefix(s, i + 1);
        let shorter = s.take(i);
        let longer = s.take(i + 1);
        assert(longer.drop_last() =~= shorter);
        let all = line_starts(s);
        assert(line_starts(shorter) =~= all.take(line_starts(shorter).len() as int));
        if longer.last() == '\n' {
            assert(all[line_starts(longer).len() - 1] == line_starts(longer).last());
        }
    }
}

impl LineIndex {
    /// Whether this is the index of the text `s`.
    pub closed spec fn of(self, s: Seq<char>) -> bool {
        &&& self.starts@.len() == line_starts(s).len()
        &&& forall|k: int| 0 <= k < self.starts@.len() ==> #[trigger] self.starts@[k] == line_starts(s)[k]
    }

    /// Builds the index of `source`.
    pub fn new(source: &str) -> (r: LineIndex)
        ensures
            r.of(source@),
    {
        let chars = crate::text::chars_of(source);
        Self::of_chars(&chars)
    }

    /// Builds the index of a text given by its characters.
    pub fn of_chars(chars: &Vec<char>) -> (r: LineIndex)
        ensures
            r.of(chars@),
    {
        let mut starts: Vec<usize> = Vec::new();
        starts.push(0);
        let total = chars.len();
        let mut i: usize = 0;
        while i < total
            invariant
                i <= total == chars@.len(),
                starts@.len() == line_starts(chars@.take(i as int)).len(),
                forall|k: int|
                    0 <= k < starts@.len() ==> #[trigger] starts@[k] == line_starts(
                        chars@.take(i as int),
                    )[k],
            decreases total - i,
        {
            proof {
                assert(chars@.take(i + 1).drop_last() =~= chars@.take(i as int));
            }
            if chars[i] == '\n' {
                starts.push(i + 1);
            }
            i = i + 1;
        }
        proof {
            assert(chars@.take(total as int) =~= chars@);
        }
        LineIndex { starts }
    }

    /// 1-based line and column of a byte offset; an offset behind the end counts
    /// as the end. `source` must be the text the index was built from.
    pub fn position(&self, source: &str, offset: u32) -> (r: Position)
        requires
            self.of(source@),
            crate::source::byte_len(source@) < u32::MAX,
            crate::source::is_boundary(source@, clamped(source@, offset as int)),
        ensures
            r == position_of(source@, offset as int),
            r.line == crate::source::line_after(text_before(source@, offset as int)),
            r.column == crate::source::column_after(text_before(source@, offset as int)),
    {
        match Source::new(source) {
            Some(s) => self.locate(&s, offset),
            None => Position { line: 0, column: 0 },
        }
    }

    /// `position` for a text that is laid out already.
    pub fn locate(&self, source: &Source, offset: u32) -> (r: Position)
        requires
            self.of(source.text()),
            crate::source::byte_len(source.text()) < u32::MAX,
            crate::source::is_boundary(source.text(), clamped(source.text(), offset as int)),
        ensures
            r == position_of(source.text(), offset as int),
            r.line == crate::source::line_after(text_before(source.text(), offset as int)),
            r.column == crate::source::column_after(text_before(source.text(), offset as int)),
    {
        let ghost s = source.text();
        let end = source.len();
        let at: u32 = if offset <= end {
            offset
        } else {
            end
        };
        let found = source.find(at);
        let i: usize = match found {
            Some(i) => i,
            None => 0,
        };
        let ghost before = s.take(i as int);
        proof {
            crate::source::lemma_counts_bounded(before);
            crate::source::lemma_offsets_grow(s, i as int, s.len() as int);
            assert(s.take(s.len() as int) =~= s);
            lemma_starts(before);
            lemma_starts_prefix(s, i as int);
        }
        let mut lo: usize = 0;
        let mut hi: usize = self.starts.len();
        let ghost n = line_starts(before).len();
        while lo < hi
            invariant
                self.of(s),
                0 <= i <= s.len(),
                before == s.take(i as int),
                n == line_starts(before).len(),
                n <= line_starts(s).len(),
                line_starts(before) == line_starts(s).take(n as int),
                forall|k: int| 0 <= k < n ==> 0 <= #[trigger] line_starts(before)[k] <= i,
                forall|k: int| n <= k < line_starts(s).len() ==> #[trigger] line_starts(s)[k] > i,
                lo <= n <= hi <= self.starts@.len(),
            decreases hi - lo,
        {
            let mid: usize = lo + (hi - lo) / 2;
            let start = self.starts[mid];
            proof {
                assert(self.starts@[mid as int] == line_starts(s)[mid as int]);
                if mid < n {
                    assert(line_starts(before)[mid as int] == line_starts(s)[mid as int]);
                }
            }
            if start <= i {
                lo = mid + 1;
            } else {
                hi = mid;
            }
        }
        let start = self.starts[lo - 1];
        proof {
            assert(self.starts@[lo - 1] == line_starts(s)[lo - 1]);
            assert(line_starts(before)[lo - 1] == line_starts(s)[lo - 1]);
            assert(start == line_starts(before).last());
        }
        let chars = source.chars();
        let ghost line = crate::source::last_line(before);
        let mut units: u32 = 0;
        let mut k: usize = start;
        proof {
            assert(line.take(0) =~= Seq::<char>::empty());
        }
        while k < i
            invariant
                start <= k <= i <= chars@.len(),
                chars@ == s,
                before == s.take(i as int),
                line == before.skip(start as int),
                crate::source::utf16_len(line.take(k - start)) == units,
                units <= 2 * (k - start),
                crate::source::utf16_len(line) < u32::MAX,
            decreases i - k,
        {
            let c = chars[k];
            proof {
                let d = k - start;
                assert(line.take(d + 1).drop_last() =~= line.take(d));
                assert(line.take(d + 1).last() == c);
                lemma_utf16_grows(line, d + 1);
            }
            units = units + (if (c as u32) < 0x10000 {
                1
            } else {
                2
            });
            k = k + 1;
        }
        proof {
            assert(line.take(i - start) =~= line);
        }
        Position { line: lo as u32, column: units + 1 }
    }
}

proof fn lemma_utf16_grows(s: Seq<char>, i: int)
    requires
        0 <= i <= s.len(),
    ensures
        crate::source::utf16_len(s.take(i)) <= crate::source::utf16_len(s),
    decreases s.len() - i,
{
    if i == s.len() {
        assert(s.take(i) =~= s);
    } else {
        lemma_utf16_grows(s, i + 1);
        assert(s.take(i + 1).drop_last() =~= s.take(i));
    }
}

/// The first position of a text is line one, column one.
pub proof fn law_start_is_line_one_column_one(s: Seq<char>)
    ensures
        position_of(s, 0) == (Position { line: 1, column: 1 }),
{
    crate::source::lemma_ends(s);
    assert(text_before(s, 0) =~= Seq::<char>::empty());
}

/// Whether a position stands before another.
pub open spec fn stands_before(a: Position, b: Position) -> bool {
    a.line < b.line || (a.line == b.line && a.column < b.column)
}

proof fn lemma_counts_grow(s: Seq<char>, i: int, j: int)
    requires
        0 <= i < j <= s.len(),
    ensures
        ({
            let (a, b) = (s.take(i), s.take(j));
            ||| crate::source::line_after(a) < crate::source::line_after(b)
            ||| crate::source::line_after(a) == crate::source::line_after(b)
                && crate::source::column_after(a) < crate::source::column_after(b)
        }),
    decreases j - i,
{
    let longer = s.take(j);
    assert(longer.drop_last() =~= s.take(j - 1));
    if longer.last() != '\n' {
        let line = crate::source::last_line(longer);
        assert(line.drop_last() =~= crate::source::last_line(s.take(j - 1)));
    }
    if i < j - 1 {
        lemma_counts_grow(s, i, j - 1);
    }
}

/// Positions follow the order of offsets: of two places in a text the later one
/// has the later line, or the later column of the same line. So no two places
/// share a position.
pub proof fn law_positions_grow(s: Seq<char>, a: int, b: int)
    requires
        crate::source::byte_len(s) < u32::MAX,
        crate::source::is_span(s, a, b),
        a < b,
    ensures
        stands_before(position_of(s, a), position_of(s, b)),
{
    crate::source::lemma_boundary_order(s, a, b);
    let (i, j) = (crate::source::index_at(s, a), crate::source::index_at(s, b));
    lemma_counts_grow(s, i, j);
    assert(s.take(s.len() as int) =~= s);
    crate::source::lemma_offsets_grow(s, i, s.len() as int);
    crate::source::lemma_offsets_grow(s, j, s.len() as int);
    crate::source::lemma_counts_bounded(s.take(i));
    crate::source::lemma_counts_bounded(s.take(j));
}

proof fn lemma_feeds(s: Seq<char>)
    ensures
        crate::source::feeds(s) == s.filter(|c: char| c == '\n').len(),
    decreases s.len(),
{
    reveal(Seq::filter);
    if s.len() > 0 {
        lemma_feeds(s.drop_last());
    }
}

proof fn lemma_last_line(s: Seq<char>, at: int)
    requires
        0 <= at <= s.len(),
        at > 0 ==> s[at - 1] == '\n',
        forall|k: int| at <= k < s.len() ==> #[trigger] s[k] != '\n',
    ensures
        crate::source::last_line(s) == s.skip(at),
    decreases s.len(),
{
    if at < s.len() {
        let front = s.drop_last();
        assert(s[s.len() - 1] != '\n');
        assert forall|k: int| at <= k < front.len() implies #[trigger] front[k] != '\n' by {
            assert(front[k] == s[k]);
        }
        lemma_last_line(front, at);
        assert(front.skip(at).push(s.last()) =~= s.skip(at));
    } else {
        assert(s.skip(at) =~= Seq::<char>::empty());
    }
}

/// A position counts, from one, the line feeds before it, and then the UTF-16
/// units behind the last of these.
pub proof fn law_positions_count_lines_and_units(s: Seq<char>, index: int, at: int)
    requires
        crate::source::byte_len(s) < u32::MAX,
        0 <= at <= index <= s.len(),
        at > 0 ==> s[at - 1] == '\n',
        forall|k: int| at <= k < index ==> #[trigger] s[k] != '\n',
    ensures
        ({
            let p = position_of(s, crate::source::byte_len(s.take(index)) as int);
            &&& p.line == s.take(index).filter(|c: char| c == '\n').len() + 1
            &&& p.column == crate::source::utf16_len(s.subrange(at, index)) + 1
        }),
{
    let before = s.take(index);
    let offset = crate::source::byte_len(before) as int;
    crate::source::lemma_offsets_grow(s, index, s.len() as int);
    assert(s.take(s.len() as int) =~= s);
    crate::source::lemma_index_at(s, index, offset);
    assert(text_before(s, offset) =~= before);
    lemma_feeds(before);
    assert forall|k: int| at <= k < before.len() implies #[trigger] before[k] != '\n' by {
        assert(before[k] == s[k]);
    }
    if at > 0 {
        assert(before[at - 1] == s[at - 1]);
    }
    lemma_last_line(before, at);
    assert(before.skip(at) =~= s.subrange(at, index));
    crate::source::lemma_counts_bounded(before);
}

/// Characters outside the basic plane are two UTF-16 units, all others one.
pub proof fn law_units_of_characters(s: Seq<char>, c: char)
    ensures
        crate::source::utf16_len(s.push(c)) == crate::source::utf16_len(s) + (if (c as u32)
            >= 0x10000 {
            2nat
        } else {
            1nat
        }),
        crate::source::utf16_len(Seq::<char>::empty()) == 0,
{
    assert(s.push(c).drop_last() =~= s);
}

} // verus!
