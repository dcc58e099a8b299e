//! A source text addressed by byte offsets.
//!
//! Offsets count the bytes of the UTF-8 encoding; positions count lines from
//! one and columns in UTF-16 code units from one.
use vstd::prelude::*;

use crate::text::chars_of;
use crate::text::text_of;

verus! {

/// The bytes that UTF-8 spends on a character.
pub open spec fn width(c: char) -> nat {
    if (c as u32) < 0x80 {
        1
    } else if (c as u32) < 0x800 {
        2
    } else if (c as u32) < 0x10000 {
        3
    } else {
        4
    }
}

/// The bytes that UTF-8 spends on a text.
pub open spec fn byte_len(s: Seq<char>) -> nat
    decreases s.len(),
{
    if s.len() == 0 {
        0
    } else {
        byte_len(s.drop_last()) + width(s.last())
    }
}

/// The UTF-16 code units of a text.
pub open spec fn utf16_len(s: Seq<char>) -> nat
    decreases s.len(),
{
    if s.len() == 0 {
        0
    } else {
        utf16_len(s.drop_last()) + (if (s.last() as u32) < 0x10000 {
            1nat
        } else {
            2nat
        })
    }
}

/// Whether the character of index `i` begins at byte `offset`.
pub open spec fn begins_at(s: Seq<char>, i: int, offset: int) -> bool {
    0 <= i <= s.len() && byte_len(s.take(i)) == offset
}

/// Whether `offset` lies between two characters of `s`, or at an end of it.
pub open spec fn is_boundary(s: Seq<char>, offset: int) -> bool {
    exists|i: int| begins_at(s, i, offset)
}

/// The index of the character that begins at byte `offset`.
pub open spec fn index_at(s: Seq<char>, offset: int) -> int {
    choose|i: int| begins_at(s, i, offset)
}

/// Whether `a..b` is a span of `s`.
pub open spec fn is_span(s: Seq<char>, a: int, b: int) -> bool {
    a <= b && is_boundary(s, a) && is_boundary(s, b)
}

/// The text from byte `a` to byte `b`.
pub open spec fn slice(s: Seq<char>, a: int, b: int) -> Seq<char> {
    s.subrange(index_at(s, a), index_at(s, b))
}

/// The line feeds in a text.
pub open spec fn feeds(s: Seq<char>) -> nat
    decreases s.len(),
{
    if s.len() == 0 {
        0
    } else {
        feeds(s.drop_last()) + (if s.last() == '\n' {
            1nat
        } else {
            0nat
        })
    }
}

/// What follows the last line feed of a text.
pub open spec fn last_line(s: Seq<char>) -> Seq<char>
    decreases s.len(),
{
    if s.len() == 0 || s.last() == '\n' {
        Seq::empty()
    } else {
        last_line(s.drop_last()).push(s.last())
    }
}

/// Offsets grow with the index.
pub proof fn lemma_offsets_grow(s: Seq<char>, i: int, j: int)
    requires
        0 <= i <= j <= s.len(),
    ensures
        byte_len(s.take(i)) + (j - i) <= byte_len(s.take(j)),
        byte_len(s.take(j)) <= byte_len(s.take(i)) + 4 * (j - i),
    decreases j - i,
{
    if i < j {
        lemma_offsets_grow(s, i, j - 1);
        assert(s.take(j).drop_last() =~= s.take(j - 1));
    }
}

/// The index that begins at an offset is unique.
pub proof fn lemma_index_at(s: Seq<char>, i: int, offset: int)
    requires
        begins_at(s, i, offset),
    ensures
        index_at(s, offset) == i,
        is_boundary(s, offset),
{
    let j = index_at(s, offset);
    assert(begins_at(s, j, offset));
    if i < j {
        lemma_offsets_grow(s, i, j);
    } else if j < i {
        lemma_offsets_grow(s, j, i);
    }
}

/// The ends of a text are boundaries of it.
pub proof fn lemma_ends(s: Seq<char>)
    ensures
        begins_at(s, 0, 0),
        begins_at(s, s.len() as int, byte_len(s) as int),
        index_at(s, 0) == 0,
        index_at(s, byte_len(s) as int) == s.len(),
        is_boundary(s, 0),
        is_boundary(s, byte_len(s) as int),
{
    assert(s.take(0) =~= Seq::<char>::empty());
    assert(s.take(s.len() as int) =~= s);
    assert(begins_at(s, 0, 0));
    lemma_index_at(s, 0, 0);
    lemma_index_at(s, s.len() as int, byte_len(s) as int);
}

/// A boundary lies at or before the end, and indices follow the order of offsets.
pub proof fn lemma_boundary_order(s: Seq<char>, a: int, b: int)
    requires
        is_boundary(s, a),
        is_boundary(s, b),
        a <= b,
    ensures
        0 <= a,
        b <= byte_len(s),
        0 <= index_at(s, a) <= index_at(s, b) <= s.len(),
        a < b ==> index_at(s, a) < index_at(s, b),
{
    let i = index_at(s, a);
    let j = index_at(s, b);
    assert(begins_at(s, i, a));
    assert(begins_at(s, j, b));
    if j < i {
        lemma_offsets_grow(s, j, i);
    }
    lemma_offsets_grow(s, j, s.len() as int);
    assert(s.take(s.len() as int) =~= s);
}

/// Neighbouring spans join to the span of both.
pub proof fn lemma_slices_join(s: Seq<char>, a: int, b: int, c: int)
    requires
        is_span(s, a, b),
        is_span(s, b, c),
    ensures
        slice(s, a, b) + slice(s, b, c) == slice(s, a, c),
{
    lemma_boundary_order(s, a, b);
    lemma_boundary_order(s, b, c);
    assert(slice(s, a, b) + slice(s, b, c) =~= slice(s, a, c));
}

/// The whole text as a span.
pub proof fn lemma_slice_all(s: Seq<char>)
    ensures
        slice(s, 0, byte_len(s) as int) == s,
        is_span(s, 0, byte_len(s) as int),
{
    lemma_ends(s);
    assert(slice(s, 0, byte_len(s) as int) =~= s);
}

/// The line and the column, both from one, behind the text `s`.
pub open spec fn line_after(s: Seq<char>) -> nat {
    feeds(s) + 1
}

/// The column behind the text `s`.
pub open spec fn column_after(s: Seq<char>) -> nat {
    utf16_len(last_line(s)) + 1
}

/// A line feed spends at least a byte.
pub proof fn lemma_counts_bounded(s: Seq<char>)
    ensures
        feeds(s) <= byte_len(s),
        utf16_len(last_line(s)) <= byte_len(s),
        feeds(s) <= s.len() <= byte_len(s),
    decreases s.len(),
{
    if s.len() > 0 {
        lemma_counts_bounded(s.drop_last());
        if s.last() != '\n' {
            let l = last_line(s.drop_last()).push(s.last());
            assert(l.drop_last() =~= last_line(s.drop_last()));
        }
    }
}

proof fn lemma_width(c: char)
    ensures
        vstd::utf8::encode_scalar(c as u32).len() == width(c),
{
}

proof fn lemma_byte_len_front(s: Seq<char>)
    requires
        s.len() > 0,
    ensures
        byte_len(s) == width(s[0]) + byte_len(s.drop_first()),
    decreases s.len(),
{
    if s.len() == 1 {
        assert(s.drop_last() =~= Seq::<char>::empty());
        assert(s.drop_first() =~= Seq::<char>::empty());
    } else {
        lemma_byte_len_front(s.drop_last());
        assert(s.drop_last().drop_first() =~= s.drop_first().drop_last());
        assert(s.drop_first().last() == s.last());
    }
}

/// `byte_len` is the length of the UTF-8 encoding.
pub proof fn law_byte_len_is_utf8_len(s: Seq<char>)
    ensures
        byte_len(s) == vstd::utf8::encode_utf8(s).len(),
    decreases s.len(),
{
    if s.len() > 0 {
        lemma_byte_len_front(s);
        lemma_width(s[0]);
        law_byte_len_is_utf8_len(s.drop_first());
    }
}

/// The bytes that UTF-8 spends on a character.
pub fn char_width(c: char) -> (r: u32)
    ensures
        r == width(c),
{
    let n: u32 = c as u32;
    if n < 0x80 {
        1
    } else if n < 0x800 {
        2
    } else if n < 0x10000 {
        3
    } else {
        4
    }
}

/// A source text with the byte offset of each of its characters.
pub struct Source {
    chars: Vec<char>,
    /// The offset of each character, and the length.
    offsets: Vec<u32>,
}

impl Source {
    /// The text.
    pub closed spec fn text(self) -> Seq<char> {
        self.chars@
    }

    #[verifier::type_invariant]
    spec fn inv(self) -> bool {
        &&& self.offsets@.len() == self.chars@.len() + 1
        &&& forall|i: int|
            0 <= i <= self.chars@.len() ==> #[trigger] self.offsets@[i] == byte_len(
                self.chars@.take(i),
            )
    }

    /// Lays out `text`; nothing where it is longer than offsets can count.
    pub fn new(text: &str) -> (r: Option<Source>)
        ensures
            r is Some <==> byte_len(text@) <= u32::MAX,
            r matches Some(s) ==> s.text() == text@,
    {
        let chars = chars_of(text);
        let mut offsets: Vec<u32> = Vec::new();
        offsets.push(0);
        let mut i: usize = 0;
        let mut at: u32 = 0;
        let total = chars.len();
        proof {
            assert(chars@.take(0) =~= Seq::<char>::empty());
        }
        while i < total
            invariant
                i <= total == chars@.len(),
                chars@ == text@,
                offsets@.len() == i + 1,
                at == byte_len(chars@.take(i as int)),
                forall|k: int|
                    0 <= k <= i ==> #[trigger] offsets@[k] == byte_len(chars@.take(k)),
            decreases total - i,
        {
            let w = char_width(chars[i]);
            proof {
                assert(chars@.take(i + 1).drop_last() =~= chars@.take(i as int));
                lemma_offsets_grow(chars@, i + 1, total as int);
                assert(chars@.take(total as int) =~= chars@);
            }
            if at > u32::MAX - w {
                return None;
            }
            at = at + w;
            i = i + 1;
            offsets.push(at);
        }
        proof {
            assert(chars@.take(total as int) =~= chars@);
        }
        Some(Source { chars, offsets })
    }

    /// The length in bytes.
    pub fn len(&self) -> (r: u32)
        ensures
            r == byte_len(self.text()),
    {
        proof {
            use_type_invariant(self);
            assert(self.chars@.take(self.chars@.len() as int) =~= self.chars@);
        }
        self.offsets[self.chars.len()]
    }

    /// The index of the character that begins at byte `offset`.
    pub fn find(&self, offset: u32) -> (r: Option<usize>)
        ensures
            match r {
                Some(i) => begins_at(self.text(), i as int, offset as int) && index_at(
                    self.text(),
                    offset as int,
                ) == i && i <= self.text().len(),
                None => !is_boundary(self.text(), offset as int),
            },
    {
        proof {
            use_type_invariant(self);
        }
        let ghost s = self.text();
        let mut lo: usize = 0;
        let mut hi: usize = self.offsets.len();
        while lo < hi
            invariant
                s == self.text(),
                self.inv(),
                lo <= hi <= self.offsets@.len(),
                forall|k: int| 0 <= k < lo ==> self.offsets@[k] < offset,
                forall|k: int| hi <= k < self.offsets@.len() ==> self.offsets@[k] > offset,
            decreases hi - lo,
        {
            let mid: usize = lo + (hi - lo) / 2;
            let at = self.offsets[mid];
            proof {
                assert forall|k: int| 0 <= k < mid implies self.offsets@[k] < self.offsets@[mid as int] by {
                    lemma_offsets_grow(s, k, mid as int);
                }
                assert forall|k: int| mid < k < self.offsets@.len() implies self.offsets@[k]
                    > self.offsets@[mid as int] by {
                    lemma_offsets_grow(s, mid as int, k);
                }
            }
            if at == offset {
                proof {
                    lemma_index_at(s, mid as int, offset as int);
                }
                return Some(mid);
            }
            if at < offset {
                lo = mid + 1;
            } else {
                hi = mid;
            }
        }
        proof {
            assert forall|i: int| !begins_at(s, i, offset as int) by {
                if 0 <= i <= s.len() {
                    assert(self.offsets@[i] == byte_len(s.take(i)));
                }
            }
        }
        None
    }

    /// Whether `a..b` is a span of the text.
    pub fn has_span(&self, a: u32, b: u32) -> (r: bool)
        ensures
            r == is_span(self.text(), a as int, b as int),
    {
        a <= b && self.find(a).is_some() && self.find(b).is_some()
    }

    /// The text from byte `a` to byte `b`.
    pub fn cut(&self, a: u32, b: u32) -> (r: String)
        requires
            is_span(self.text(), a as int, b as int),
        ensures
            r@ == slice(self.text(), a as int, b as int),
    {
        proof {
            lemma_boundary_order(self.text(), a as int, b as int);
        }
        match (self.find(a), self.find(b)) {
            (Some(i), Some(j)) => text_of(&self.chars, i, j),
            _ => String::new(),
        }
    }

    /// The characters.
    pub fn chars(&self) -> (r: &Vec<char>)
        ensures
            r@ == self.text(),
    {
        &self.chars
    }

    /// The byte offset of the character of index `i`, the length for the index
    /// behind the last.
    pub fn offset_of(&self, i: usize) -> (r: u32)
        requires
            i <= self.text().len(),
        ensures
            r == byte_len(self.text().take(i as int)),
            begins_at(self.text(), i as int, r as int),
    {
        proof {
            use_type_invariant(self);
        }
        self.offsets[i]
    }
}

} // verus!
