//! Text as a sequence of characters: searching, splitting, trimming, joining
//! and decimal numbers.
//!
//! Every function works on the characters of its arguments; the spec functions
//! of the same subject say on `Seq<char>` what it returns.
use vstd::prelude::*;

verus! {

/// `String::push` appends one character.
pub assume_specification[ String::push ](s: &mut String, c: char)
    ensures
        final(s)@ == old(s)@.push(c),
;

/// `==` on `str` compares the characters of both sides.
pub assume_specification[ <str as PartialEq<str>>::eq ](a: &str, b: &str) -> (r: bool)
    ensures
        r == (a@ == b@),
;

/// Whether a character outside ASCII has the Unicode property White_Space.
pub uninterp spec fn unicode_white_space(c: char) -> bool;

/// Whether `c` counts as white space: in ASCII the blank and the control
/// characters from the tab to the carriage return.
pub open spec fn is_white_space(c: char) -> bool {
    if (c as u32) < 128 {
        c == ' ' || 9 <= c as u32 <= 13
    } else {
        unicode_white_space(c)
    }
}

/// `char::is_whitespace` decides the Unicode property White_Space; its ASCII
/// members are the blank and U+0009 to U+000D.
pub assume_specification[ char::is_whitespace ](c: char) -> (r: bool)
    ensures
        (c as u32) < 128 ==> r == (c == ' ' || 9 <= c as u32 <= 13),
        (c as u32) >= 128 ==> r == unicode_white_space(c),
;

/// Whether a character outside ASCII is alphabetic or numeric in Unicode.
pub uninterp spec fn unicode_alphanumeric(c: char) -> bool;

/// An ASCII digit.
pub open spec fn is_ascii_digit(c: char) -> bool {
    '0' <= c <= '9'
}

/// An ASCII letter or digit.
pub open spec fn is_ascii_word(c: char) -> bool {
    is_ascii_digit(c) || 'a' <= c <= 'z' || 'A' <= c <= 'Z'
}

/// Whether `c` is a letter or a number.
pub open spec fn is_word(c: char) -> bool {
    if (c as u32) < 128 {
        is_ascii_word(c)
    } else {
        unicode_alphanumeric(c)
    }
}

/// `char::is_alphanumeric` decides the Unicode properties Alphabetic and
/// Numeric; their ASCII members are the letters and the digits.
pub assume_specification[ char::is_alphanumeric ](c: char) -> (r: bool)
    ensures
        (c as u32) < 128 ==> r == ('0' <= c <= '9' || 'a' <= c <= 'z' || 'A' <= c <= 'Z'),
        (c as u32) >= 128 ==> r == unicode_alphanumeric(c),
;

/// A text in double quotes with escapes.
pub uninterp spec fn quoted(text: Seq<char>) -> Seq<char>;

/// The `Debug` form of a `str`; it depends on the text alone.
#[verifier::external_body]
pub(crate) fn quote(text: &str) -> (r: String)
    ensures
        r@ == quoted(text@),
{
    format!("{text:?}")
}

/// Whether both texts hold the same characters.
pub fn same(a: &str, b: &str) -> (r: bool)
    ensures
        r == (a@ == b@),
{
    *a == *b
}

/// The characters of every element.
pub open spec fn texts(v: Seq<String>) -> Seq<Seq<char>> {
    v.map_values(|s: String| s@)
}

/// Pushing a text pushes its characters.
pub proof fn lemma_texts_push(v: Seq<String>, s: String)
    ensures
        texts(v.push(s)) == texts(v).push(s@),
{
    assert(texts(v.push(s)) =~= texts(v).push(s@));
}

/// The characters inside an optional text.
pub open spec fn opt_text(o: Option<String>) -> Option<Seq<char>> {
    match o {
        Some(s) => Some(s@),
        None => None,
    }
}

/// The characters of every element of an optional list.
pub open spec fn opt_texts(o: Option<Vec<String>>) -> Option<Seq<Seq<char>>> {
    match o {
        Some(v) => Some(texts(v@)),
        None => None,
    }
}

/// A copy of `text`.
pub fn copy_text(text: &str) -> (r: String)
    ensures
        r@ == text@,
{
    String::from_str(text)
}

/// A copy of an optional text.
pub fn copy_opt(o: &Option<String>) -> (r: Option<String>)
    ensures
        opt_text(r) == opt_text(*o),
{
    match o {
        Some(s) => Some(copy_text(s.as_str())),
        None => None,
    }
}

/// A copy of a list of texts.
pub fn copy_texts(v: &Vec<String>) -> (r: Vec<String>)
    ensures
        texts(r@) == texts(v@),
{
    let mut out: Vec<String> = Vec::new();
    let mut i: usize = 0;
    while i < v.len()
        invariant
            i <= v@.len(),
            texts(out@) == texts(v@).take(i as int),
        decreases v@.len() - i,
    {
        let ghost before = out@;
        let one = copy_text(v[i].as_str());
        out.push(one);
        proof {
            lemma_texts_push(before, one);
            assert(texts(v@).take(i + 1) =~= texts(v@).take(i as int).push(texts(v@)[i as int]));
        }
        i = i + 1;
    }
    proof {
        assert(texts(v@).take(v@.len() as int) =~= texts(v@));
    }
    out
}

/// Whether `list` holds a text equal to `wanted`.
pub fn list_has(list: &Vec<String>, wanted: &str) -> (r: bool)
    ensures
        r == texts(list@).contains(wanted@),
{
    let mut i: usize = 0;
    while i < list.len()
        invariant
            i <= list@.len(),
            forall|j: int| 0 <= j < i ==> #[trigger] texts(list@)[j] != wanted@,
        decreases list@.len() - i,
    {
        if same(list[i].as_str(), wanted) {
            proof {
                assert(texts(list@)[i as int] == wanted@);
            }
            return true;
        }
        i = i + 1;
    }
    false
}

/// The characters of `text`, in order.
pub fn chars_of(text: &str) -> (r: Vec<char>)
    ensures
        r@ == text@,
{
    let mut out: Vec<char> = Vec::new();
    for c in it: text.chars()
        invariant
            out@ == text@.take(it.index()),
            it.seq() == text@,
    {
        out.push(c);
        proof {
            assert(text@.take(it.index() + 1) =~= text@.take(it.index()).push(c));
        }
    }
    proof {
        assert(text@.take(text@.len() as int) =~= text@);
    }
    out
}

/// The text made of `chars[from..to]`.
pub fn text_of(chars: &Vec<char>, from: usize, to: usize) -> (r: String)
    requires
        from <= to <= chars@.len(),
    ensures
        r@ == chars@.subrange(from as int, to as int),
{
    let mut out = String::new();
    let mut i: usize = from;
    while i < to
        invariant
            from <= i <= to <= chars@.len(),
            out@ == chars@.subrange(from as int, i as int),
        decreases to - i,
    {
        out.push(chars[i]);
        proof {
            assert(chars@.subrange(from as int, i + 1) =~= chars@.subrange(from as int, i as int).push(
                chars@[i as int],
            ));
        }
        i = i + 1;
    }
    out
}

/// The texts `a` and `b` one after the other.
pub fn concat2(a: &str, b: &str) -> (r: String)
    ensures
        r@ == a@ + b@,
{
    let mut out = copy_text(a);
    out.append(b);
    out
}

/// Three texts one after the other.
pub fn concat3(a: &str, b: &str, c: &str) -> (r: String)
    ensures
        r@ == a@ + b@ + c@,
{
    let mut out = concat2(a, b);
    out.append(c);
    out
}

// ---- searching ----

/// `needle` stands in `hay` at position `i`.
pub open spec fn occurs_at(hay: Seq<char>, needle: Seq<char>, i: int) -> bool {
    0 <= i && i + needle.len() <= hay.len() && hay.subrange(i, i + needle.len()) == needle
}

/// The first position from `i` on at which `needle` stands in `hay`.
pub open spec fn find_from(hay: Seq<char>, needle: Seq<char>, i: int) -> Option<int>
    decreases hay.len() - i + 1,
{
    if i < 0 || i + needle.len() > hay.len() {
        None
    } else if occurs_at(hay, needle, i) {
        Some(i)
    } else {
        find_from(hay, needle, i + 1)
    }
}

/// The first position at which `needle` stands in `hay`.
pub open spec fn find(hay: Seq<char>, needle: Seq<char>) -> Option<int> {
    find_from(hay, needle, 0)
}

/// `needle` stands somewhere in `hay`.
pub open spec fn has(hay: Seq<char>, needle: Seq<char>) -> bool {
    find(hay, needle) is Some
}

/// The last position up to `i` at which `needle` stands in `hay`.
pub open spec fn rfind_to(hay: Seq<char>, needle: Seq<char>, i: int) -> Option<int>
    decreases i + 1,
{
    if i < 0 {
        None
    } else if occurs_at(hay, needle, i) {
        Some(i)
    } else {
        rfind_to(hay, needle, i - 1)
    }
}

/// The last position at which `needle` stands in `hay`.
pub open spec fn rfind(hay: Seq<char>, needle: Seq<char>) -> Option<int> {
    rfind_to(hay, needle, hay.len() - needle.len())
}

/// What `find_from` gives is the least position at which `needle` stands, and
/// it gives none only where `needle` stands nowhere from `i` on.
pub proof fn lemma_find_from(hay: Seq<char>, needle: Seq<char>, i: int)
    requires
        0 <= i,
    ensures
        match find_from(hay, needle, i) {
            Some(p) => i <= p && occurs_at(hay, needle, p) && forall|j: int|
                i <= j < p ==> !occurs_at(hay, needle, j),
            None => forall|j: int| i <= j ==> !occurs_at(hay, needle, j),
        },
    decreases hay.len() - i + 1,
{
    if i + needle.len() <= hay.len() && !occurs_at(hay, needle, i) {
        lemma_find_from(hay, needle, i + 1);
    }
}

/// What `rfind_to` gives is the greatest such position.
pub proof fn lemma_rfind_to(hay: Seq<char>, needle: Seq<char>, i: int)
    ensures
        match rfind_to(hay, needle, i) {
            Some(p) => 0 <= p <= i && occurs_at(hay, needle, p) && forall|j: int|
                p < j <= i ==> !occurs_at(hay, needle, j),
            None => forall|j: int| j <= i ==> !occurs_at(hay, needle, j),
        },
    decreases i + 1,
{
    if i >= 0 && !occurs_at(hay, needle, i) {
        lemma_rfind_to(hay, needle, i - 1);
    }
}

/// Whether `needle` stands in `hay` at `at`.
pub fn stands_at(hay: &Vec<char>, needle: &Vec<char>, at: usize) -> (r: bool)
    ensures
        r == occurs_at(hay@, needle@, at as int),
{
    if at > hay.len() || needle.len() > hay.len() - at {
        return false;
    }
    let total = hay.len();
    let mut i: usize = 0;
    while i < needle.len()
        invariant
            i <= needle@.len(),
            at + needle@.len() <= hay@.len(),
            total == hay@.len(),
            forall|j: int| 0 <= j < i ==> hay@[at + j] == needle@[j],
        decreases needle@.len() - i,
    {
        if hay[at + i] != needle[i] {
            proof {
                assert(hay@.subrange(at as int, at + needle@.len())[i as int] != needle@[i as int]);
            }
            return false;
        }
        i = i + 1;
    }
    proof {
        assert(hay@.subrange(at as int, at + needle@.len()) =~= needle@);
    }
    true
}

/// The first position from `start` on at which `needle` stands in `hay`.
pub fn find_chars(hay: &Vec<char>, needle: &Vec<char>, start: usize) -> (r: Option<usize>)
    ensures
        match r {
            Some(p) => find_from(hay@, needle@, start as int) == Some(p as int),
            None => find_from(hay@, needle@, start as int) is None,
        },
{
    let mut i: usize = start;
    while i <= hay.len() && needle.len() <= hay.len() - i
        invariant
            start <= i <= hay@.len() + 1 || i == start,
            find_from(hay@, needle@, start as int) == find_from(hay@, needle@, i as int),
        decreases hay@.len() + 1 - i,
    {
        if stands_at(hay, needle, i) {
            return Some(i);
        }
        if i == hay.len() {
            proof {
                assert(find_from(hay@, needle@, i + 1) is None);
            }
            return None;
        }
        i = i + 1;
    }
    None
}

/// The last position at which `needle` stands in `hay`.
pub fn rfind_chars(hay: &Vec<char>, needle: &Vec<char>) -> (r: Option<usize>)
    ensures
        match r {
            Some(p) => rfind(hay@, needle@) == Some(p as int),
            None => rfind(hay@, needle@) is None,
        },
{
    if needle.len() > hay.len() {
        return None;
    }
    let mut i: usize = hay.len() - needle.len();
    loop
        invariant
            i <= hay@.len() - needle@.len(),
            rfind(hay@, needle@) == rfind_to(hay@, needle@, i as int),
        decreases i,
    {
        if stands_at(hay, needle, i) {
            return Some(i);
        }
        if i == 0 {
            proof {
                assert(rfind_to(hay@, needle@, -1) is None);
            }
            return None;
        }
        i = i - 1;
    }
}

/// Whether `needle` stands somewhere in `hay`.
pub fn has_text(hay: &str, needle: &str) -> (r: bool)
    ensures
        r == has(hay@, needle@),
{
    let h = chars_of(hay);
    let n = chars_of(needle);
    match find_chars(&h, &n, 0) {
        Some(_) => true,
        None => false,
    }
}

/// `text` begins with `prefix`.
pub open spec fn begins(text: Seq<char>, prefix: Seq<char>) -> bool {
    occurs_at(text, prefix, 0)
}

/// `text` ends with `suffix`.
pub open spec fn ends(text: Seq<char>, suffix: Seq<char>) -> bool {
    occurs_at(text, suffix, text.len() - suffix.len())
}

/// Whether `text` begins with `prefix`.
pub fn begins_with(text: &str, prefix: &str) -> (r: bool)
    ensures
        r == begins(text@, prefix@),
{
    let t = chars_of(text);
    let p = chars_of(prefix);
    stands_at(&t, &p, 0)
}

/// Whether `text` ends with `suffix`.
pub fn ends_in(text: &str, suffix: &str) -> (r: bool)
    ensures
        r == ends(text@, suffix@),
{
    let t = chars_of(text);
    let s = chars_of(suffix);
    if s.len() > t.len() {
        return false;
    }
    stands_at(&t, &s, t.len() - s.len())
}

/// What is left of `text` behind `prefix`, where it begins with it.
pub open spec fn stripped(text: Seq<char>, prefix: Seq<char>) -> Option<Seq<char>> {
    if begins(text, prefix) {
        Some(text.skip(prefix.len() as int))
    } else {
        None
    }
}

/// What is left of `text` behind `prefix`, where it begins with it.
pub fn strip(text: &str, prefix: &str) -> (r: Option<String>)
    ensures
        opt_text(r) == stripped(text@, prefix@),
{
    let t = chars_of(text);
    let p = chars_of(prefix);
    if stands_at(&t, &p, 0) {
        let rest = text_of(&t, p.len(), t.len());
        proof {
            assert(t@.subrange(p@.len() as int, t@.len() as int) =~= t@.skip(p@.len() as int));
        }
        Some(rest)
    } else {
        None
    }
}

// ---- splitting ----

/// `text` cut at the first `sep`.
pub open spec fn cut_once(text: Seq<char>, sep: Seq<char>) -> Option<(Seq<char>, Seq<char>)> {
    match find(text, sep) {
        Some(p) => Some((text.take(p), text.skip(p + sep.len()))),
        None => None,
    }
}

/// `text` cut at the last `sep`.
pub open spec fn cut_last(text: Seq<char>, sep: Seq<char>) -> Option<(Seq<char>, Seq<char>)> {
    match rfind(text, sep) {
        Some(p) => Some((text.take(p), text.skip(p + sep.len()))),
        None => None,
    }
}

/// The characters of an optional pair of texts.
pub open spec fn opt_pair(o: Option<(String, String)>) -> Option<(Seq<char>, Seq<char>)> {
    match o {
        Some((a, b)) => Some((a@, b@)),
        None => None,
    }
}

fn cut_at(t: &Vec<char>, p: usize, len: usize) -> (r: (String, String))
    requires
        p + len <= t@.len(),
    ensures
        r.0@ == t@.take(p as int),
        r.1@ == t@.skip(p + len),
{
    let total = t.len();
    let a = text_of(t, 0, p);
    let b = text_of(t, p + len, total);
    proof {
        assert(t@.subrange(0, p as int) =~= t@.take(p as int));
        assert(t@.subrange(p + len, t@.len() as int) =~= t@.skip(p + len));
    }
    (a, b)
}

/// `text` cut at the first `sep`.
pub fn split_once(text: &str, sep: &str) -> (r: Option<(String, String)>)
    ensures
        opt_pair(r) == cut_once(text@, sep@),
{
    let t = chars_of(text);
    let s = chars_of(sep);
    match find_chars(&t, &s, 0) {
        Some(p) => {
            proof {
                lemma_find_from(t@, s@, 0);
            }
            Some(cut_at(&t, p, s.len()))
        },
        None => None,
    }
}

/// `text` cut at the last `sep`.
pub fn split_last(text: &str, sep: &str) -> (r: Option<(String, String)>)
    ensures
        opt_pair(r) == cut_last(text@, sep@),
{
    let t = chars_of(text);
    let s = chars_of(sep);
    match rfind_chars(&t, &s) {
        Some(p) => {
            proof {
                lemma_rfind_to(t@, s@, t@.len() - s@.len());
            }
            Some(cut_at(&t, p, s.len()))
        },
        None => None,
    }
}

/// The pieces of `text` between the occurrences of `sep`.
pub open spec fn split_on(text: Seq<char>, sep: Seq<char>) -> Seq<Seq<char>>
    decreases text.len(),
{
    if sep.len() == 0 {
        seq![text]
    } else {
        match find(text, sep) {
            Some(p) => {
                proof {
                    lemma_find_from(text, sep, 0);
                }
                seq![text.take(p)] + split_on(text.skip(p + sep.len()), sep)
            },
            None => seq![text],
        }
    }
}

/// The pieces of `text` between the occurrences of `sep`.
pub fn split_all(text: &str, sep: &str) -> (r: Vec<String>)
    requires
        sep@.len() > 0,
    ensures
        texts(r@) == split_on(text@, sep@),
{
    let t = chars_of(text);
    let s = chars_of(sep);
    let total = t.len();
    let mut out: Vec<String> = Vec::new();
    let mut start: usize = 0;
    proof {
        assert(t@.skip(0) =~= t@);
        assert(texts(out@) + split_on(t@.skip(0), s@) =~= split_on(t@, s@));
    }
    loop
        invariant
            start <= total == t@.len(),
            s@ == sep@,
            s@.len() > 0,
            t@ == text@,
            texts(out@) + split_on(t@.skip(start as int), s@) == split_on(t@, s@),
        decreases total - start,
    {
        let ghost rest = t@.skip(start as int);
        let ghost before = out@;
        let found = find_chars(&t, &s, start);
        proof {
            lemma_find_shift(t@, s@, start as int, 0);
            lemma_find_from(t@, s@, start as int);
        }
        match found {
            Some(p) => {
                let piece = text_of(&t, start, p);
                out.push(piece);
                proof {
                    lemma_texts_push(before, piece);
                    let q = p - start;
                    assert(piece@ =~= rest.take(q));
                    assert(rest.skip(q + s@.len()) =~= t@.skip(p + s@.len()));
                    assert(texts(out@) + split_on(t@.skip(p + s@.len()), s@) =~= texts(before) + split_on(
                        rest,
                        s@,
                    ));
                }
                start = p + s.len();
            },
            None => {
                let piece = text_of(&t, start, total);
                out.push(piece);
                proof {
                    lemma_texts_push(before, piece);
                    assert(piece@ =~= rest);
                    assert(texts(out@) =~= texts(before) + split_on(rest, s@));
                }
                return out;
            },
        }
    }
}

/// What occurs is found.
pub proof fn lemma_occurs_is_found(hay: Seq<char>, needle: Seq<char>, i: int, at: int)
    requires
        0 <= i <= at,
        occurs_at(hay, needle, at),
    ensures
        find_from(hay, needle, i) is Some,
    decreases at - i,
{
    if !occurs_at(hay, needle, i) {
        lemma_occurs_is_found(hay, needle, i + 1, at);
    }
}

/// Searching from `start` on is searching what is left behind `start`.
pub proof fn lemma_find_shift(hay: Seq<char>, needle: Seq<char>, start: int, i: int)
    requires
        0 <= start <= hay.len(),
        0 <= i,
    ensures
        match find_from(hay.skip(start), needle, i) {
            Some(p) => find_from(hay, needle, start + i) == Some(start + p),
            None => find_from(hay, needle, start + i) is None,
        },
    decreases hay.len() - i + 1,
{
    let rest = hay.skip(start);
    if start + i + needle.len() <= hay.len() {
        assert(rest.subrange(i, i + needle.len()) =~= hay.subrange(
            start + i,
            start + i + needle.len(),
        ));
        if !occurs_at(rest, needle, i) {
            lemma_find_shift(hay, needle, start, i + 1);
        }
    }
}

/// The parts one after the other, with `sep` between neighbours.
pub open spec fn joined(parts: Seq<Seq<char>>, sep: Seq<char>) -> Seq<char>
    decreases parts.len(),
{
    if parts.len() == 0 {
        Seq::empty()
    } else if parts.len() == 1 {
        parts[0]
    } else {
        joined(parts.drop_last(), sep) + sep + parts.last()
    }
}

/// The parts one after the other, with `sep` between neighbours.
pub fn join(parts: &Vec<String>, sep: &str) -> (r: String)
    ensures
        r@ == joined(texts(parts@), sep@),
{
    let mut out = String::new();
    let mut i: usize = 0;
    while i < parts.len()
        invariant
            i <= parts@.len(),
            out@ == joined(texts(parts@).take(i as int), sep@),
        decreases parts@.len() - i,
    {
        let ghost upto = texts(parts@).take(i + 1);
        proof {
            assert(upto.drop_last() =~= texts(parts@).take(i as int));
            assert(upto.last() == parts@[i as int]@);
        }
        if i > 0 {
            out.append(sep);
        }
        out.append(parts[i].as_str());
        i = i + 1;
        proof {
            assert(out@ =~= joined(upto, sep@));
        }
    }
    proof {
        assert(texts(parts@).take(parts@.len() as int) =~= texts(parts@));
    }
    out
}

// ---- trimming and lines ----

/// `text` without the white space it begins with.
pub open spec fn trimmed_front(text: Seq<char>) -> Seq<char>
    decreases text.len(),
{
    if text.len() > 0 && is_white_space(text[0]) {
        trimmed_front(text.skip(1))
    } else {
        text
    }
}

/// `text` without the white space it ends with.
pub open spec fn trimmed_back(text: Seq<char>) -> Seq<char>
    decreases text.len(),
{
    if text.len() > 0 && is_white_space(text.last()) {
        trimmed_back(text.drop_last())
    } else {
        text
    }
}

/// `text` without the white space around it.
pub open spec fn trimmed(text: Seq<char>) -> Seq<char> {
    trimmed_back(trimmed_front(text))
}

/// `text` without the white space it ends with.
pub fn trim_end(text: &str) -> (r: String)
    ensures
        r@ == trimmed_back(text@),
{
    let t = chars_of(text);
    let mut n: usize = t.len();
    proof {
        assert(t@.take(n as int) =~= t@);
    }
    while n > 0 && t[n - 1].is_whitespace()
        invariant
            n <= t@.len(),
            trimmed_back(t@) == trimmed_back(t@.take(n as int)),
        decreases n,
    {
        proof {
            assert(t@.take(n as int).drop_last() =~= t@.take(n - 1));
        }
        n = n - 1;
    }
    let out = text_of(&t, 0, n);
    proof {
        assert(t@.subrange(0, n as int) =~= t@.take(n as int));
    }
    out
}

/// `text` without the white space it begins with.
pub fn trim_start(text: &str) -> (r: String)
    ensures
        r@ == trimmed_front(text@),
{
    let t = chars_of(text);
    let total = t.len();
    let mut i: usize = 0;
    proof {
        assert(t@.skip(0) =~= t@);
    }
    while i < total && t[i].is_whitespace()
        invariant
            i <= total == t@.len(),
            trimmed_front(t@) == trimmed_front(t@.skip(i as int)),
        decreases total - i,
    {
        proof {
            assert(t@.skip(i as int).skip(1) =~= t@.skip(i + 1));
        }
        i = i + 1;
    }
    let out = text_of(&t, i, total);
    proof {
        assert(t@.subrange(i as int, total as int) =~= t@.skip(i as int));
    }
    out
}

/// `text` without the white space around it.
pub fn trim(text: &str) -> (r: String)
    ensures
        r@ == trimmed(text@),
{
    trim_end(trim_start(text).as_str())
}

/// A line without the carriage return that stands before its line feed.
pub open spec fn without_return(line: Seq<char>) -> Seq<char> {
    if line.len() > 0 && line.last() == '\r' {
        line.drop_last()
    } else {
        line
    }
}

/// The lines of `text`: the pieces that end in a line feed, without their line
/// ending, and what follows the last line feed, where anything does.
pub open spec fn lines_of(text: Seq<char>) -> Seq<Seq<char>>
    decreases text.len(),
{
    if text.len() == 0 {
        Seq::empty()
    } else {
        match find(text, seq!['\n']) {
            Some(p) => {
                proof {
                    lemma_find_from(text, seq!['\n'], 0);
                }
                seq![without_return(text.take(p))] + lines_of(text.skip(p + 1))
            },
            None => seq![text],
        }
    }
}

/// The lines of `text`.
pub fn lines(text: &str) -> (r: Vec<String>)
    ensures
        texts(r@) == lines_of(text@),
{
    let t = chars_of(text);
    let total = t.len();
    let mut feed: Vec<char> = Vec::new();
    feed.push('\n');
    let mut out: Vec<String> = Vec::new();
    let mut start: usize = 0;
    proof {
        assert(feed@ =~= seq!['\n']);
        assert(t@.skip(0) =~= t@);
        assert(texts(out@) + lines_of(t@.skip(0)) =~= lines_of(t@));
    }
    while start < total
        invariant
            start <= total == t@.len(),
            feed@ == seq!['\n'],
            t@ == text@,
            texts(out@) + lines_of(t@.skip(start as int)) == lines_of(t@),
        decreases total - start,
    {
        let ghost rest = t@.skip(start as int);
        let ghost before = out@;
        proof {
            lemma_find_shift(t@, feed@, start as int, 0);
            lemma_find_from(t@, feed@, start as int);
        }
        match find_chars(&t, &feed, start) {
            Some(p) => {
                let end: usize = if p > start && t[p - 1] == '\r' {
                    p - 1
                } else {
                    p
                };
                let piece = text_of(&t, start, end);
                out.push(piece);
                proof {
                    lemma_texts_push(before, piece);
                    let q = p - start;
                    assert(rest.take(q) =~= t@.subrange(start as int, p as int));
                    assert(piece@ =~= without_return(rest.take(q)));
                    assert(rest.skip(q + 1) =~= t@.skip(p + 1));
                    assert(texts(out@) + lines_of(t@.skip(p + 1)) =~= texts(before) + lines_of(rest));
                }
                start = p + 1;
            },
            None => {
                let piece = text_of(&t, start, total);
                out.push(piece);
                proof {
                    lemma_texts_push(before, piece);
                    assert(piece@ =~= rest);
                    assert(texts(out@) =~= texts(before) + lines_of(rest));
                }
                return out;
            },
        }
    }
    proof {
        assert(t@.skip(total as int).len() == 0);
        assert(texts(out@) + Seq::<Seq<char>>::empty() =~= texts(out@));
    }
    out
}

/// `text` with every `from` replaced by `to`.
pub open spec fn replaced(text: Seq<char>, from: char, to: Seq<char>) -> Seq<char>
    decreases text.len(),
{
    if text.len() == 0 {
        text
    } else {
        replaced(text.drop_last(), from, to) + (if text.last() == from {
            to
        } else {
            seq![text.last()]
        })
    }
}

/// `text` with every `from` replaced by `to`.
pub fn replace_char(text: &str, from: char, to: &str) -> (r: String)
    ensures
        r@ == replaced(text@, from, to@),
{
    let t = chars_of(text);
    let mut out = String::new();
    let mut i: usize = 0;
    proof {
        assert(t@.take(0) =~= Seq::<char>::empty());
    }
    while i < t.len()
        invariant
            i <= t@.len(),
            out@ == replaced(t@.take(i as int), from, to@),
        decreases t@.len() - i,
    {
        proof {
            assert(t@.take(i + 1).drop_last() =~= t@.take(i as int));
            assert(t@.take(i + 1).last() == t@[i as int]);
        }
        if t[i] == from {
            out.append(to);
        } else {
            out.push(t[i]);
            proof {
                assert(out@ =~= replaced(t@.take(i as int), from, to@) + seq![t@[i as int]]);
            }
        }
        i = i + 1;
    }
    proof {
        assert(t@.take(t@.len() as int) =~= t@);
    }
    out
}

// ---- decimal numbers ----

/// The decimal digit of value `d`.
pub open spec fn digit(d: nat) -> char {
    (('0' as u32) + d) as char
}

/// `n` in decimal.
pub open spec fn decimal(n: nat) -> Seq<char>
    decreases n,
{
    if n < 10 {
        seq![digit(n)]
    } else {
        decimal(n / 10).push(digit(n % 10))
    }
}

fn digit_char(d: u64) -> (c: char)
    requires
        d < 10,
    ensures
        c == digit(d as nat),
{
    if d == 0 { '0' }
    else if d == 1 { '1' }
    else if d == 2 { '2' }
    else if d == 3 { '3' }
    else if d == 4 { '4' }
    else if d == 5 { '5' }
    else if d == 6 { '6' }
    else if d == 7 { '7' }
    else if d == 8 { '8' }
    else { '9' }
}

/// `n` in decimal.
pub fn number(n: u64) -> (r: String)
    ensures
        r@ == decimal(n as nat),
    decreases n,
{
    if n < 10 {
        let mut out = String::new();
        out.push(digit_char(n));
        proof {
            assert(out@ =~= seq![digit(n as nat)]);
        }
        out
    } else {
        let mut out = number(n / 10);
        out.push(digit_char(n % 10));
        out
    }
}

/// The number that the digits of `s` write in decimal.
pub open spec fn decimal_value(s: Seq<char>) -> nat
    decreases s.len(),
{
    if s.len() == 0 {
        0
    } else {
        (decimal_value(s.drop_last()) * 10 + (s.last() as u32 - '0' as u32)) as nat
    }
}

/// Only ASCII digits.
pub open spec fn all_digits(s: Seq<char>) -> bool {
    forall|i: int| 0 <= i < s.len() ==> is_ascii_digit(#[trigger] s[i])
}

/// What an unsigned decimal number of at most `max` reads as: an optional plus
/// sign, then digits only, at least one.
pub open spec fn parsed(s: Seq<char>, max: nat) -> Option<nat> {
    let body = if s.len() > 0 && s[0] == '+' {
        s.skip(1)
    } else {
        s
    };
    if body.len() > 0 && all_digits(body) && decimal_value(body) <= max {
        Some(decimal_value(body))
    } else {
        None
    }
}

proof fn lemma_value_grows(s: Seq<char>, i: int)
    requires
        0 <= i <= s.len(),
        all_digits(s),
    ensures
        decimal_value(s.take(i)) <= decimal_value(s),
    decreases s.len() - i,
{
    if i == s.len() {
        assert(s.take(i) =~= s);
    } else {
        lemma_value_grows(s, i + 1);
        assert(s.take(i + 1).drop_last() =~= s.take(i));
        assert(is_ascii_digit(s[i]));
    }
}

/// Reads an unsigned decimal number of at most `max`.
pub fn parse_number(text: &str, max: u64) -> (r: Option<u64>)
    ensures
        match r {
            Some(n) => parsed(text@, max as nat) == Some(n as nat),
            None => parsed(text@, max as nat) is None,
        },
{
    let t = chars_of(text);
    let total = t.len();
    let start: usize = if total > 0 && t[0] == '+' {
        1
    } else {
        0
    };
    let ghost body = if t@.len() > 0 && t@[0] == '+' {
        t@.skip(1)
    } else {
        t@
    };
    if start == total {
        return None;
    }
    let mut value: u64 = 0;
    let mut i: usize = start;
    proof {
        assert(body.take(0) =~= Seq::<char>::empty());
        assert(body =~= t@.skip(start as int));
    }
    while i < total
        invariant
            start <= i <= total == t@.len(),
            start < total,
            t@ == text@,
            body == t@.skip(start as int),
            parsed(t@, max as nat) == (if body.len() > 0 && all_digits(body) && decimal_value(body)
                <= max {
                Some(decimal_value(body))
            } else {
                None
            }),
            all_digits(body.take(i - start)),
            value == decimal_value(body.take(i - start)),
            value <= max,
        decreases total - i,
    {
        let c = t[i];
        if !('0' <= c && c <= '9') {
            proof {
                assert(!is_ascii_digit(body[i - start]));
            }
            return None;
        }
        let d: u64 = c as u64 - '0' as u64;
        proof {
            let k = i - start;
            assert(body.take(k + 1).drop_last() =~= body.take(k));
            assert(body.take(k + 1).last() == c);
            assert forall|j: int| 0 <= j < k + 1 implies is_ascii_digit(
                #[trigger] body.take(k + 1)[j],
            ) by {
                if j < k {
                    assert(is_ascii_digit(body.take(k)[j]));
                }
            }
        }
        if d > max || value > max / 10 || value * 10 > max - d {
            proof {
                if all_digits(body) {
                    lemma_value_grows(body, i - start + 1);
                }
            }
            return None;
        }
        value = value * 10 + d;
        i = i + 1;
    }
    proof {
        assert(body.take(total - start) =~= body);
    }
    Some(value)
}

/// A number printed in decimal reads back as itself.
pub proof fn law_decimal_reads_back(n: nat, max: nat)
    requires
        n <= max,
    ensures
        parsed(decimal(n), max) == Some(n),
{
    lemma_decimal_digits(n);
    assert(is_ascii_digit(decimal(n)[0]));
}

/// A decimal number is made of digits and has its value.
pub proof fn lemma_decimal_digits(n: nat)
    ensures
        decimal(n).len() > 0,
        all_digits(decimal(n)),
        decimal_value(decimal(n)) == n,
    decreases n,
{
    if n >= 10 {
        lemma_decimal_digits(n / 10);
        let d = decimal(n);
        assert(d.drop_last() =~= decimal(n / 10));
        assert(d.last() == digit(n % 10));
        assert forall|i: int| 0 <= i < d.len() implies is_ascii_digit(#[trigger] d[i]) by {
            if i < d.len() - 1 {
                assert(d[i] == decimal(n / 10)[i]);
            }
        }
    } else {
        let d = decimal(n);
        assert(d.drop_last() =~= Seq::<char>::empty());
        assert(decimal_value(d.drop_last()) == 0);
        assert(d.last() == digit(n));
    }
}

// ---- what holds of cut texts ----

/// Whether a text is white space alone.
pub open spec fn is_blank(text: Seq<char>) -> bool {
    forall|i: int| 0 <= i < text.len() ==> is_white_space(#[trigger] text[i])
}

proof fn lemma_trimmed_front(text: Seq<char>) -> (n: int)
    ensures
        0 <= n <= text.len(),
        trimmed_front(text) == text.skip(n),
        is_blank(text.take(n)),
        n < text.len() ==> !is_white_space(text[n]),
    decreases text.len(),
{
    if text.len() > 0 && is_white_space(text[0]) {
        let m = lemma_trimmed_front(text.skip(1));
        assert(text.skip(1).skip(m) =~= text.skip(m + 1));
        assert forall|i: int| 0 <= i < m + 1 implies is_white_space(
            #[trigger] text.take(m + 1)[i],
        ) by {
            if i > 0 {
                assert(text.skip(1).take(m)[i - 1] == text[i]);
            }
        }
        m + 1
    } else {
        assert(text.skip(0) =~= text);
        0
    }
}

proof fn lemma_trimmed_back(text: Seq<char>) -> (n: int)
    ensures
        0 <= n <= text.len(),
        trimmed_back(text) == text.take(n),
        is_blank(text.skip(n)),
        n > 0 ==> !is_white_space(text[n - 1]),
    decreases text.len(),
{
    if text.len() > 0 && is_white_space(text.last()) {
        let front = text.drop_last();
        let n = lemma_trimmed_back(front);
        assert(front.take(n) =~= text.take(n));
        assert forall|i: int| 0 <= i < text.skip(n).len() implies is_white_space(
            #[trigger] text.skip(n)[i],
        ) by {
            if i < front.skip(n).len() {
                assert(front.skip(n)[i] == text[n + i]);
            }
        }
        n
    } else {
        assert(text.take(text.len() as int) =~= text);
        text.len() as int
    }
}

/// Trimming takes white space off both ends, all of it, and nothing else.
pub proof fn law_trimming(text: Seq<char>)
    ensures
        exists|a: int, b: int|
            0 <= a <= b <= text.len() && trimmed(text) == #[trigger] text.subrange(a, b)
                && is_blank(text.take(a)) && is_blank(text.skip(b)),
        trimmed(text).len() > 0 ==> !is_white_space(trimmed(text)[0]) && !is_white_space(
            trimmed(text).last(),
        ),
{
    let a = lemma_trimmed_front(text);
    let rest = text.skip(a);
    let n = lemma_trimmed_back(rest);
    let b = a + n;
    assert(rest.take(n) =~= text.subrange(a, b));
    assert(rest.skip(n) =~= text.skip(b));
    if n > 0 {
        assert(trimmed(text)[0] == text[a]);
        assert(trimmed(text).last() == rest[n - 1]);
    }
}

/// A text that is cut at a separator is what is before it, the separator and what
/// is behind it; what is before it does not hold it, and a text without it is not
/// cut.
pub proof fn law_cutting(text: Seq<char>, sep: Seq<char>)
    requires
        sep.len() > 0,
    ensures
        match cut_once(text, sep) {
            Some((a, b)) => text == a + sep + b && forall|i: int|
                0 <= i < a.len() ==> !occurs_at(text, sep, i),
            None => forall|i: int| !occurs_at(text, sep, i),
        },
        match cut_last(text, sep) {
            Some((a, b)) => text == a + sep + b && forall|i: int|
                a.len() < i ==> !occurs_at(text, sep, i),
            None => forall|i: int| !occurs_at(text, sep, i),
        },
{
    lemma_find_from(text, sep, 0);
    lemma_rfind_to(text, sep, text.len() - sep.len());
    if let Some(p) = find(text, sep) {
        assert(text =~= text.take(p) + sep + text.skip(p + sep.len())) by {
            assert(text.subrange(p, p + sep.len()) == sep);
            assert(text =~= text.take(p) + text.subrange(p, p + sep.len()) + text.skip(
                p + sep.len(),
            ));
        }
    }
    if let Some(p) = rfind(text, sep) {
        assert(text =~= text.take(p) + sep + text.skip(p + sep.len())) by {
            assert(text.subrange(p, p + sep.len()) == sep);
            assert(text =~= text.take(p) + text.subrange(p, p + sep.len()) + text.skip(
                p + sep.len(),
            ));
        }
    }
}

proof fn lemma_joined_front(first: Seq<char>, rest: Seq<Seq<char>>, sep: Seq<char>)
    requires
        rest.len() > 0,
    ensures
        joined(seq![first] + rest, sep) == first + sep + joined(rest, sep),
    decreases rest.len(),
{
    let all = seq![first] + rest;
    if rest.len() == 1 {
        assert(all.drop_last() =~= seq![first]);
        assert(all.last() == rest[0]);
        assert(seq![first].len() == 1);
        assert(joined(seq![first], sep) == first);
        assert(joined(rest, sep) == rest[0]);
        assert(all.len() == 2);
        assert(joined(all, sep) == joined(all.drop_last(), sep) + sep + all.last());
    } else {
        let front = rest.drop_last();
        lemma_joined_front(first, front, sep);
        assert(all.drop_last() =~= seq![first] + front);
        assert(all.last() == rest.last());
        assert(joined(all, sep) =~= first + sep + joined(rest, sep));
    }
}

/// The pieces of a text that is split at a separator join to that text, and none
/// of them holds the separator.
pub proof fn law_splitting(text: Seq<char>, sep: Seq<char>)
    requires
        sep.len() > 0,
    ensures
        joined(split_on(text, sep), sep) == text,
        split_on(text, sep).len() > 0,
        forall|k: int|
            0 <= k < split_on(text, sep).len() ==> !crate::text::has(#[trigger] split_on(text, sep)[k], sep),
    decreases text.len(),
{
    let all = split_on(text, sep);
    lemma_find_from(text, sep, 0);
    match find(text, sep) {
        Some(p) => {
            let first = text.take(p);
            let tail = text.skip(p + sep.len());
            let rest = split_on(tail, sep);
            law_splitting(tail, sep);
            lemma_joined_front(first, rest, sep);
            law_cutting(text, sep);
            assert(!crate::text::has(first, sep)) by {
                lemma_find_from(first, sep, 0);
                if let Some(q) = find(first, sep) {
                    assert(first.subrange(q, q + sep.len()) =~= text.subrange(q, q + sep.len()));
                    assert(occurs_at(text, sep, q));
                }
            }
            assert forall|k: int| 0 <= k < all.len() implies !crate::text::has(#[trigger] all[k], sep) by {
                if k > 0 {
                    assert(all[k] == rest[k - 1]);
                }
            }
        },
        None => {
            assert(all.len() == 1);
        },
    }
}

/// A text is held where it stands, and only there.
pub proof fn law_holding(hay: Seq<char>, needle: Seq<char>)
    ensures
        has(hay, needle) <==> exists|i: int|
            0 <= i <= hay.len() - needle.len() && #[trigger] hay.subrange(i, i + needle.len())
                == needle,
{
    lemma_find_from(hay, needle, 0);
    if exists|i: int|
        0 <= i <= hay.len() - needle.len() && #[trigger] hay.subrange(i, i + needle.len())
            == needle {
        let i = choose|i: int|
            0 <= i <= hay.len() - needle.len() && #[trigger] hay.subrange(i, i + needle.len())
                == needle;
        assert(occurs_at(hay, needle, i));
    }
    if let Some(p) = find(hay, needle) {
        assert(hay.subrange(p, p + needle.len()) == needle);
    }
}

proof fn lemma_stripped(prefix: Seq<char>, rest: Seq<char>)
    ensures
        stripped(prefix + rest, prefix) == Some(rest),
{
    let text = prefix + rest;
    assert(text.subrange(0, prefix.len() as int) =~= prefix);
    assert(text.skip(prefix.len() as int) =~= rest);
}

/// Taking a prefix off gives what is behind it, and a text without it is refused.
pub proof fn law_stripping(text: Seq<char>, prefix: Seq<char>, rest: Seq<char>)
    ensures
        stripped(text, prefix) == Some(rest) <==> text == prefix + rest,
{
    lemma_stripped(prefix, rest);
    if stripped(text, prefix) == Some(rest) {
        assert(text =~= text.subrange(0, prefix.len() as int) + text.skip(prefix.len() as int));
    }
}

proof fn lemma_one_char(text: Seq<char>, c: char, i: int)
    requires
        0 <= i < text.len(),
    ensures
        occurs_at(text, seq![c], i) <==> text[i] == c,
{
    let one = text.subrange(i, i + 1);
    assert(one.len() == 1 && one[0] == text[i]);
    if text[i] == c {
        assert(one =~= seq![c]);
    }
}

proof fn lemma_first_from(text: Seq<char>, c: char, i: int, n: int)
    requires
        0 <= i <= n < text.len(),
        text[n] == c,
        forall|k: int| 0 <= k < n ==> #[trigger] text[k] != c,
    ensures
        find_from(text, seq![c], i) == Some(n),
    decreases n - i,
{
    lemma_one_char(text, c, i);
    if i < n {
        lemma_first_from(text, c, i + 1, n);
    }
}

proof fn lemma_none_from(text: Seq<char>, c: char, i: int)
    requires
        0 <= i,
        forall|k: int| 0 <= k < text.len() ==> #[trigger] text[k] != c,
    ensures
        find_from(text, seq![c], i) is None,
    decreases text.len() - i,
{
    if i < text.len() {
        lemma_one_char(text, c, i);
        lemma_none_from(text, c, i + 1);
    }
}

proof fn lemma_first_found(a: Seq<char>, c: char, b: Seq<char>)
    requires
        !a.contains(c),
    ensures
        find(a + seq![c] + b, seq![c]) == Some(a.len() as int),
        (a + seq![c] + b).take(a.len() as int) == a,
        (a + seq![c] + b).skip(a.len() + 1int) == b,
{
    let text = a + seq![c] + b;
    let n = a.len() as int;
    assert forall|k: int| 0 <= k < n implies #[trigger] text[k] != c by {
        assert(text[k] == a[k]);
        assert(a.contains(a[k]));
    }
    lemma_first_from(text, c, 0, n);
    assert(text.take(n) =~= a);
    assert(text.skip(n + 1) =~= b);
}

proof fn lemma_not_found(a: Seq<char>, c: char)
    requires
        !a.contains(c),
    ensures
        find(a, seq![c]) is None,
{
    assert forall|k: int| 0 <= k < a.len() implies #[trigger] a[k] != c by {
        assert(a.contains(a[k]));
    }
    lemma_none_from(a, c, 0);
}

/// Names that are joined by a character that none of them holds split into the
/// same names again.
pub proof fn law_splitting_undoes_joining(names: Seq<Seq<char>>, c: char)
    requires
        names.len() > 0,
        forall|i: int| 0 <= i < names.len() ==> !(#[trigger] names[i]).contains(c),
    ensures
        split_on(joined(names, seq![c]), seq![c]) == names,
    decreases names.len(),
{
    let sep = seq![c];
    let first = names[0];
    let rest = names.skip(1);
    assert(names =~= seq![first] + rest);
    assert(!first.contains(c));
    if rest.len() == 0 {
        lemma_not_found(first, c);
        assert(joined(names, sep) == first);
        assert(split_on(first, sep) == seq![first]);
    } else {
        assert forall|i: int| 0 <= i < rest.len() implies !(#[trigger] rest[i]).contains(c) by {
            assert(rest[i] == names[i + 1]);
        }
        law_splitting_undoes_joining(rest, c);
        let tail = joined(rest, sep);
        lemma_joined_front(first, rest, sep);
        lemma_first_found(first, c, tail);
        let text = first + sep + tail;
        assert(joined(names, sep) == text);
        assert(split_on(text, sep) == seq![first] + split_on(tail, sep));
    }
}

/// A text has the line before its first line feed, without a carriage return there,
/// and then the lines of what follows; what is left without a line feed is a line
/// where there is any of it.
pub proof fn law_lines_of_a_text(line: Seq<char>, rest: Seq<char>)
    requires
        !line.contains('\n'),
    ensures
        lines_of(line + seq!['\n'] + rest) == seq![
            if line.len() > 0 && line.last() == '\r' {
                line.drop_last()
            } else {
                line
            },
        ] + lines_of(rest),
        line.len() > 0 ==> lines_of(line) == seq![line],
        lines_of(Seq::empty()).len() == 0,
{
    lemma_first_found(line, '\n', rest);
    lemma_not_found(line, '\n');
    let text = line + seq!['\n'] + rest;
    assert(text.len() > 0);
}

/// Replacing goes character by character.
pub proof fn law_replacing(text: Seq<char>, c: char, from: char, to: Seq<char>)
    ensures
        replaced(text.push(c), from, to) == replaced(text, from, to) + (if c == from {
            to
        } else {
            seq![c]
        }),
        replaced(Seq::empty(), from, to).len() == 0,
{
    assert(text.push(c).drop_last() =~= text);
}

} // verus!
