//! Mutations of regular expression literals.
//!
//! - strip a leading `^` / unescaped trailing `$` anchor
//! - flip every character-class negation (`[abc]` to `[^abc]` and back)
//! - flip every predefined class (`\d` to `\D` and back, so too `\w` and `\s`)
//! - remove every `*` / `+` / `?` quantifier (with its lazy `?` if present)
use vstd::prelude::*;

use crate::text::chars_of;
use crate::text::same;
use crate::text::text_of;

verus! {

/// The letter of the complement of a predefined class.
pub open spec fn flipped(c: char) -> Option<char> {
    if c == 'd' {
        Some('D')
    } else if c == 'D' {
        Some('d')
    } else if c == 'w' {
        Some('W')
    } else if c == 'W' {
        Some('w')
    } else if c == 's' {
        Some('S')
    } else if c == 'S' {
        Some('s')
    } else {
        None
    }
}

fn flip(c: char) -> (r: Option<char>)
    ensures
        r == flipped(c),
{
    if c == 'd' {
        Some('D')
    } else if c == 'D' {
        Some('d')
    } else if c == 'w' {
        Some('W')
    } else if c == 'W' {
        Some('w')
    } else if c == 's' {
        Some('S')
    } else if c == 'S' {
        Some('s')
    } else {
        None
    }
}

/// `p` with the characters from `from` to `to` replaced by `with`.
pub open spec fn spliced(p: Seq<char>, from: int, to: int, with: Seq<char>) -> Seq<char> {
    p.take(from) + with + p.skip(to)
}

fn splice(p: &Vec<char>, from: usize, to: usize, with: &str) -> (r: String)
    requires
        from <= to <= p@.len(),
    ensures
        r@ == spliced(p@, from as int, to as int, with@),
{
    let mut out = text_of(p, 0, from);
    out.append(with);
    let tail = text_of(p, to, p.len());
    out.append(tail.as_str());
    proof {
        assert(p@.subrange(0, from as int) =~= p@.take(from as int));
        assert(p@.subrange(to as int, p@.len() as int) =~= p@.skip(to as int));
    }
    out
}

/// Where the quantifier at `i` ends: a `?` behind it makes it lazy and belongs to
/// it.
pub open spec fn quantifier_end(p: Seq<char>, i: int) -> int {
    if i + 1 < p.len() && p[i + 1] == '?' {
        i + 2
    } else {
        i + 1
    }
}

/// The patterns that changing one class or removing one quantifier of `p` gives,
/// from index `i` on.
pub open spec fn inner_changes(p: Seq<char>, i: int, in_class: bool) -> Seq<Seq<char>>
    decreases p.len() - i,
{
    if i < 0 || i >= p.len() {
        Seq::empty()
    } else if p[i] == '\\' && i + 1 < p.len() {
        (match flipped(p[i + 1]) {
            Some(c) => seq![spliced(p, i + 1, i + 2, seq![c])],
            None => Seq::empty(),
        }) + inner_changes(p, i + 2, in_class)
    } else if p[i] == '[' && !in_class {
        if i + 1 < p.len() && p[i + 1] == '^' {
            seq![spliced(p, i + 1, i + 2, Seq::empty())] + inner_changes(p, i + 2, true)
        } else {
            seq![spliced(p, i + 1, i + 1, seq!['^'])] + inner_changes(p, i + 1, true)
        }
    } else if p[i] == ']' && in_class {
        inner_changes(p, i + 1, false)
    } else if (p[i] == '*' || p[i] == '+' || p[i] == '?') && !in_class {
        if p[i] == '?' && i > 0 && p[i - 1] == '(' {
            // Group syntax such as `(?:`, no quantifier.
            inner_changes(p, i + 1, in_class)
        } else {
            seq![spliced(p, i, quantifier_end(p, i), Seq::empty())] + inner_changes(
                p,
                quantifier_end(p, i),
                in_class,
            )
        }
    } else {
        inner_changes(p, i + 1, in_class)
    }
}

/// How many backslashes a text ends in.
pub open spec fn trailing_backslashes(s: Seq<char>) -> nat
    decreases s.len(),
{
    if s.len() > 0 && s.last() == '\\' {
        trailing_backslashes(s.drop_last()) + 1
    } else {
        0
    }
}

/// The patterns that removing an anchor of `p` gives.
pub open spec fn anchor_changes(p: Seq<char>) -> Seq<Seq<char>> {
    (if p.len() > 0 && p[0] == '^' {
        seq![p.skip(1)]
    } else {
        Seq::empty()
    }) + (if p.len() > 0 && p.last() == '$' && trailing_backslashes(p.drop_last()) % 2 == 0 {
        seq![p.drop_last()]
    } else {
        Seq::empty()
    })
}

/// The literals of the new patterns: none that is empty or the old one, and
/// each only once.
pub open spec fn literals_of(patterns: Seq<Seq<char>>, old_pattern: Seq<char>, flags: Seq<char>) -> Seq<
    Seq<char>,
>
    decreases patterns.len(),
{
    if patterns.len() == 0 {
        Seq::empty()
    } else {
        let front = literals_of(patterns.drop_last(), old_pattern, flags);
        let p = patterns.last();
        let literal = seq!['/'] + p + flags;
        if p == old_pattern || p.len() == 0 || front.contains(literal) {
            front
        } else {
            front.push(literal)
        }
    }
}

/// The mutations of the literal `/pattern/flags`.
pub open spec fn mutations_of(literal: Seq<char>) -> Seq<Seq<char>> {
    match crate::text::rfind(literal, seq!['/']) {
        None => Seq::empty(),
        Some(end) => {
            let body = literal.take(end);
            let flags = literal.skip(end);
            if body.len() <= 1 || body[0] != '/' {
                Seq::empty()
            } else {
                let p = body.skip(1);
                literals_of(anchor_changes(p) + inner_changes(p, 0, false), p, flags)
            }
        },
    }
}

fn count_backslashes(p: &Vec<char>, end: usize) -> (r: usize)
    requires
        end <= p@.len(),
    ensures
        r == trailing_backslashes(p@.take(end as int)),
{
    let mut n: usize = 0;
    while n < end && p[end - 1 - n] == '\\'
        invariant
            n <= end <= p@.len(),
            trailing_backslashes(p@.take(end as int)) == n + trailing_backslashes(
                p@.take(end - n),
            ),
        decreases end - n,
    {
        proof {
            assert(p@.take(end - n).drop_last() =~= p@.take(end - n - 1));
        }
        n = n + 1;
    }
    n
}

fn push_change(out: &mut Vec<String>, change: String)
    ensures
        crate::text::texts(final(out)@) == crate::text::texts(old(out)@).push(change@),
{
    proof {
        crate::text::lemma_texts_push(out@, change);
    }
    out.push(change);
}

fn scan(p: &Vec<char>, out: &mut Vec<String>)
    ensures
        crate::text::texts(final(out)@) == crate::text::texts(old(out)@) + inner_changes(
            p@,
            0,
            false,
        ),
{
    let total = p.len();
    let mut in_class = false;
    let mut i: usize = 0;
    let ghost begun = crate::text::texts(out@);
    proof {
        reveal_strlit("");
        reveal_strlit("^");
        assert(""@ =~= Seq::<char>::empty());
        assert("^"@ =~= seq!['^']);
    }
    while i < total
        invariant
            i <= total == p@.len(),
            ""@ == Seq::<char>::empty(),
            "^"@ == seq!['^'],
            crate::text::texts(out@) + inner_changes(p@, i as int, in_class) == begun
                + inner_changes(p@, 0, false),
        decreases total - i,
    {
        let c = p[i];
        let ghost before = crate::text::texts(out@);
        let ghost rest = inner_changes(p@, i as int, in_class);
        if c == '\\' && total - i >= 2 {
            if let Some(other) = flip(p[i + 1]) {
                let mut with = String::new();
                with.push(other);
                proof {
                    assert(with@ =~= seq![other]);
                }
                push_change(out, splice(p, i + 1, i + 2, with.as_str()));
            }
            i = i + 2;
        } else if c == '[' && !in_class {
            in_class = true;
            if total - i >= 2 && p[i + 1] == '^' {
                push_change(out, splice(p, i + 1, i + 2, ""));
                i = i + 2;
            } else {
                push_change(out, splice(p, i + 1, i + 1, "^"));
                i = i + 1;
            }
        } else if c == ']' && in_class {
            in_class = false;
            i = i + 1;
        } else if (c == '*' || c == '+' || c == '?') && !in_class {
            if c == '?' && i > 0 && p[i - 1] == '(' {
                i = i + 1;
            } else {
                let cut_end: usize = if total - i >= 2 && p[i + 1] == '?' {
                    i + 2
                } else {
                    i + 1
                };
                push_change(out, splice(p, i, cut_end, ""));
                i = cut_end;
            }
        } else {
            i = i + 1;
        }
        proof {
            assert(crate::text::texts(out@) + inner_changes(p@, i as int, in_class) =~= before
                + rest);
        }
    }
    proof {
        assert(crate::text::texts(out@) + inner_changes(p@, total as int, in_class)
            =~= crate::text::texts(out@));
    }
}

fn holds(list: &Vec<String>, text: &str) -> (r: bool)
    ensures
        r == crate::text::texts(list@).contains(text@),
{
    let mut i: usize = 0;
    while i < list.len()
        invariant
            i <= list@.len(),
            forall|k: int| 0 <= k < i ==> (#[trigger] list@[k])@ != text@,
        decreases list@.len() - i,
    {
        if same(list[i].as_str(), text) {
            proof {
                assert(crate::text::texts(list@)[i as int] == text@);
            }
            return true;
        }
        i = i + 1;
    }
    proof {
        assert forall|k: int| 0 <= k < list@.len() implies crate::text::texts(list@)[k] != text@ by {
            assert(list@[k]@ != text@);
        }
    }
    false
}

/// The mutations of the literal text `/pattern/flags`.
pub fn regex_mutations(literal: &str) -> (r: Vec<String>)
    ensures
        crate::text::texts(r@) == mutations_of(literal@),
{
    let all = chars_of(literal);
    let mut slash: Vec<char> = Vec::new();
    slash.push('/');
    proof {
        assert(slash@ =~= seq!['/']);
    }
    let mut out: Vec<String> = Vec::new();
    proof {
        assert(crate::text::texts(out@) =~= Seq::<Seq<char>>::empty());
        crate::text::lemma_rfind_to(literal@, seq!['/'], literal@.len() - 1);
    }
    let end: usize = match crate::text::rfind_chars(&all, &slash) {
        Some(end) => end,
        None => {
            return out;
        },
    };
    if end <= 1 || all[0] != '/' {
        return out;
    }
    let mut p: Vec<char> = Vec::new();
    let mut k: usize = 1;
    while k < end
        invariant
            1 <= k <= end <= all@.len(),
            p@ == all@.subrange(1, k as int),
        decreases end - k,
    {
        p.push(all[k]);
        proof {
            assert(all@.subrange(1, k + 1) =~= all@.subrange(1, k as int).push(all@[k as int]));
        }
        k = k + 1;
    }
    let ghost pattern = literal@.take(end as int).skip(1);
    proof {
        assert(p@ =~= pattern);
    }
    let total = p.len();
    let mut changes: Vec<String> = Vec::new();
    if p[0] == '^' {
        let rest = text_of(&p, 1, total);
        proof {
            assert(p@.subrange(1, total as int) =~= p@.skip(1));
        }
        push_change(&mut changes, rest);
    }
    if p[total - 1] == '$' && count_backslashes(&p, total - 1) % 2 == 0 {
        let rest = text_of(&p, 0, total - 1);
        proof {
            assert(p@.subrange(0, total - 1) =~= p@.drop_last());
            assert(p@.take(total - 1) =~= p@.drop_last());
        }
        push_change(&mut changes, rest);
    }
    proof {
        assert(p@.take(total - 1) =~= p@.drop_last());
        assert(crate::text::texts(changes@) =~= anchor_changes(p@));
    }
    scan(&p, &mut changes);
    let flags = text_of(&all, end, all.len());
    proof {
        assert(flags@ =~= literal@.skip(end as int));
    }
    let old_pattern = text_of(&p, 0, total);
    proof {
        assert(old_pattern@ =~= p@);
    }
    let ghost news = crate::text::texts(changes@);
    let mut i: usize = 0;
    proof {
        assert(news.take(0) =~= Seq::<Seq<char>>::empty());
        reveal_strlit("/");
        assert("/"@ =~= seq!['/']);
    }
    while i < changes.len()
        invariant
            i <= changes@.len(),
            news == crate::text::texts(changes@),
            "/"@ == seq!['/'],
            crate::text::texts(out@) == literals_of(news.take(i as int), old_pattern@, flags@),
        decreases changes@.len() - i,
    {
        proof {
            assert(news.take(i + 1).drop_last() =~= news.take(i as int));
            assert(news.take(i + 1).last() == changes@[i as int]@);
        }
        let change = changes[i].as_str();
        if !same(change, old_pattern.as_str()) && !change.is_empty() {
            let candidate = crate::text::concat3("/", change, flags.as_str());
            if !holds(&out, candidate.as_str()) {
                push_change(&mut out, candidate);
            }
        }
        i = i + 1;
    }
    proof {
        assert(news.take(changes@.len() as int) =~= news);
    }
    out
}

proof fn lemma_literals(patterns: Seq<Seq<char>>, p: Seq<char>, flags: Seq<char>)
    ensures
        literals_of(patterns, p, flags).no_duplicates(),
        forall|i: int|
            0 <= i < literals_of(patterns, p, flags).len() ==> #[trigger] literals_of(
                patterns,
                p,
                flags,
            )[i] != seq!['/'] + p + flags,
    decreases patterns.len(),
{
    if patterns.len() > 0 {
        lemma_literals(patterns.drop_last(), p, flags);
        let q = patterns.last();
        let a = seq!['/'] + q + flags;
        let b = seq!['/'] + p + flags;
        if q != p && a == b {
            assert(a.len() == b.len());
            assert(q =~= a.subrange(1, q.len() + 1int));
            assert(p =~= b.subrange(1, p.len() + 1int));
            assert(false);
        }
    }
}

/// No mutation is the literal itself, and none occurs twice.
pub proof fn law_regex_mutations_differ(literal: Seq<char>)
    ensures
        mutations_of(literal).no_duplicates(),
        !mutations_of(literal).contains(literal),
{
    crate::text::lemma_rfind_to(literal, seq!['/'], literal.len() - 1);
    match crate::text::rfind(literal, seq!['/']) {
        Some(end) => {
            let body = literal.take(end);
            let flags = literal.skip(end);
            if body.len() > 1 && body[0] == '/' {
                let p = body.skip(1);
                lemma_literals(anchor_changes(p) + inner_changes(p, 0, false), p, flags);
                assert(literal =~= seq!['/'] + p + flags);
            }
        },
        None => {},
    }
}

proof fn lemma_literals_hold(
    patterns: Seq<Seq<char>>,
    p: Seq<char>,
    flags: Seq<char>,
    q: Seq<char>,
)
    ensures
        literals_of(patterns, p, flags).contains(seq!['/'] + q + flags) <==> patterns.contains(q)
            && q != p && q.len() > 0,
        forall|i: int|
            0 <= i < literals_of(patterns, p, flags).len() ==> exists|k: int|
                0 <= k < patterns.len() && #[trigger] literals_of(patterns, p, flags)[i]
                    == seq!['/'] + #[trigger] patterns[k] + flags,
    decreases patterns.len(),
{
    if patterns.len() > 0 {
        let before = patterns.drop_last();
        let last = patterns.last();
        let front = literals_of(before, p, flags);
        let all = literals_of(patterns, p, flags);
        let literal = seq!['/'] + q + flags;
        let own = seq!['/'] + last + flags;
        lemma_literals_hold(before, p, flags, q);
        assert(patterns[patterns.len() - 1] == last);
        if own == literal {
            assert(own.len() == literal.len());
            assert(last =~= own.subrange(1, last.len() + 1int));
            assert(q =~= literal.subrange(1, q.len() + 1int));
            assert(last == q);
        }
        if before.contains(q) {
            let k = before.index_of(q);
            assert(patterns[k] == q);
        }
        if patterns.contains(q) && !before.contains(q) {
            let k = patterns.index_of(q);
            if k < before.len() {
                assert(before[k] == q);
            }
            assert(q == last);
        }
        if front.contains(literal) {
            let k = front.index_of(literal);
            assert(all[k] == literal);
        }
        if all.contains(literal) && !front.contains(literal) {
            let k = all.index_of(literal);
            if k < front.len() {
                assert(front[k] == literal);
            }
            assert(own == literal);
        }
        if q == last && q != p && q.len() > 0 && !front.contains(literal) {
            assert(all[all.len() - 1] == literal);
        }
        assert forall|i: int| 0 <= i < all.len() implies exists|k: int|
            0 <= k < patterns.len() && #[trigger] all[i] == seq!['/'] + #[trigger] patterns[k]
                + flags by {
            if i < front.len() {
                assert(all[i] == front[i]);
                let k = choose|k: int|
                    0 <= k < before.len() && front[i] == seq!['/'] + #[trigger] before[k] + flags;
                assert(patterns[k] == before[k]);
            } else {
                assert(all[i] == seq!['/'] + patterns[patterns.len() - 1] + flags);
            }
        }
    }
}

/// The literal of a pattern with flags, and what its mutations are.
proof fn lemma_mutations(p: Seq<char>, flags: Seq<char>, q: Seq<char>)
    requires
        p.len() > 0,
        !flags.contains('/'),
    ensures
        mutations_of(seq!['/'] + p + seq!['/'] + flags).contains(
            seq!['/'] + q + (seq!['/'] + flags),
        ) <==> (anchor_changes(p) + inner_changes(p, 0, false)).contains(q) && q != p && q.len()
            > 0,
{
    let slash = seq!['/'];
    let literal = slash + p + slash + flags;
    let at = p.len() + 1int;
    assert(literal.subrange(at, at + 1) =~= slash);
    assert(crate::text::occurs_at(literal, slash, at));
    crate::text::lemma_rfind_to(literal, slash, literal.len() - 1);
    let end = crate::text::rfind(literal, slash)->0;
    assert(literal.subrange(end, end + 1)[0] == '/');
    if end > at {
        assert(flags[end - at - 1] == literal[end]);
        assert(flags.contains('/'));
    }
    assert(end == at);
    assert(literal.take(end).skip(1) =~= p);
    assert(literal.skip(end) =~= slash + flags);
    lemma_literals_hold(anchor_changes(p) + inner_changes(p, 0, false), p, slash + flags, q);
}

/// Whether a text has nothing in it that a mutation turns on.
pub open spec fn is_plain(q: Seq<char>) -> bool {
    forall|i: int|
        0 <= i < q.len() ==> #[trigger] q[i] != '\\' && q[i] != '[' && q[i] != '*' && q[i] != '+'
            && q[i] != '?'
}

proof fn lemma_plain_prefix(p: Seq<char>, i: int, n: int)
    requires
        0 <= i <= n <= p.len(),
        is_plain(p.take(n)),
    ensures
        inner_changes(p, i, false) == inner_changes(p, n, false),
    decreases n - i,
{
    if i < n {
        assert(p.take(n)[i] == p[i]);
        lemma_plain_prefix(p, i + 1, n);
    }
}

/// A change at the first place that is not plain is one of the mutations.
proof fn lemma_first_change(q: Seq<char>, rest: Seq<char>, change: Seq<char>, flags: Seq<char>)
    requires
        rest.len() > 0,
        is_plain(q),
        !flags.contains('/'),
        inner_changes(q + rest, q.len() as int, false).contains(change),
        change != q + rest,
        change.len() > 0,
    ensures
        mutations_of(seq!['/'] + (q + rest) + seq!['/'] + flags).contains(
            seq!['/'] + change + (seq!['/'] + flags),
        ),
{
    let p = q + rest;
    assert(p.take(q.len() as int) =~= q);
    lemma_plain_prefix(p, 0, q.len() as int);
    let a = anchor_changes(p);
    let b = inner_changes(p, 0, false);
    let k = b.index_of(change);
    assert((a + b)[a.len() + k] == change);
    lemma_mutations(p, flags, change);
}

/// The first class of characters of a pattern that is written with a backslash is
/// turned into the one of all other characters.
pub proof fn law_classes_are_negated(q: Seq<char>, c: char, r: Seq<char>, flags: Seq<char>)
    requires
        is_plain(q),
        !flags.contains('/'),
        c == 'd' || c == 'D' || c == 'w' || c == 'W' || c == 's' || c == 'S',
    ensures
        mutations_of(seq!['/'] + (q + (seq!['\\', c] + r)) + seq!['/'] + flags).contains(
            seq!['/'] + (q + (seq![
                '\\',
                if c == 'd' {
                    'D'
                } else if c == 'D' {
                    'd'
                } else if c == 'w' {
                    'W'
                } else if c == 'W' {
                    'w'
                } else if c == 's' {
                    'S'
                } else {
                    's'
                },
            ] + r)) + (seq!['/'] + flags),
        ),
{
    let other = if c == 'd' {
        'D'
    } else if c == 'D' {
        'd'
    } else if c == 'w' {
        'W'
    } else if c == 'W' {
        'w'
    } else if c == 's' {
        'S'
    } else {
        's'
    };
    let rest = seq!['\\', c] + r;
    let p = q + rest;
    let n = q.len() as int;
    let change = q + (seq!['\\', other] + r);
    assert(p[n] == '\\' && p[n + 1] == c);
    assert(flipped(c) == Some(other));
    assert(spliced(p, n + 1, n + 2, seq![other]) =~= change);
    assert(inner_changes(p, n, false)[0] == change);
    assert(change[n + 1] == other && p[n + 1] == c);
    lemma_first_change(q, rest, change, flags);
}

/// The first set of characters of a pattern is negated, and a negated one is not.
pub proof fn law_sets_are_negated(q: Seq<char>, r: Seq<char>, flags: Seq<char>)
    requires
        is_plain(q),
        !flags.contains('/'),
        r.len() > 0,
        r[0] != '^',
    ensures
        mutations_of(seq!['/'] + (q + (seq!['['] + r)) + seq!['/'] + flags).contains(
            seq!['/'] + (q + (seq!['[', '^'] + r)) + (seq!['/'] + flags),
        ),
        mutations_of(seq!['/'] + (q + (seq!['[', '^'] + r)) + seq!['/'] + flags).contains(
            seq!['/'] + (q + (seq!['['] + r)) + (seq!['/'] + flags),
        ),
{
    let n = q.len() as int;
    let set = q + (seq!['['] + r);
    let negated = q + (seq!['[', '^'] + r);
    assert(set[n] == '[' && set[n + 1] == r[0]);
    assert(negated[n] == '[' && negated[n + 1] == '^');
    assert(spliced(set, n + 1, n + 1, seq!['^']) =~= negated);
    assert(inner_changes(set, n, false)[0] == negated);
    assert(spliced(negated, n + 1, n + 2, Seq::empty()) =~= set);
    assert(inner_changes(negated, n, false)[0] == set);
    assert(set.len() != negated.len());
    lemma_first_change(q, seq!['['] + r, negated, flags);
    lemma_first_change(q, seq!['[', '^'] + r, set, flags);
}

/// The first quantifier of a pattern is dropped, together with a question mark
/// that makes it lazy.
pub proof fn law_quantifiers_are_dropped(q: Seq<char>, c: char, r: Seq<char>, flags: Seq<char>)
    requires
        is_plain(q),
        q.len() > 0,
        q.last() != '(',
        !flags.contains('/'),
        c == '*' || c == '+' || c == '?',
        r.len() > 0 ==> r[0] != '?',
    ensures
        mutations_of(seq!['/'] + (q + (seq![c] + r)) + seq!['/'] + flags).contains(
            seq!['/'] + (q + r) + (seq!['/'] + flags),
        ),
        mutations_of(seq!['/'] + (q + (seq![c, '?'] + r)) + seq!['/'] + flags).contains(
            seq!['/'] + (q + r) + (seq!['/'] + flags),
        ),
{
    let n = q.len() as int;
    let plain = q + r;
    let once = q + (seq![c] + r);
    let lazy = q + (seq![c, '?'] + r);
    assert(once[n] == c && once[n - 1] == q.last());
    assert(lazy[n] == c && lazy[n + 1] == '?' && lazy[n - 1] == q.last());
    if r.len() > 0 {
        assert(once[n + 1] == r[0]);
    }
    assert(quantifier_end(once, n) == n + 1);
    assert(quantifier_end(lazy, n) == n + 2);
    assert(spliced(once, n, n + 1, Seq::empty()) =~= plain);
    assert(spliced(lazy, n, n + 2, Seq::empty()) =~= plain);
    assert(inner_changes(once, n, false)[0] == plain);
    assert(inner_changes(lazy, n, false)[0] == plain);
    assert(plain.len() != once.len() && plain.len() != lazy.len());
    lemma_first_change(q, seq![c] + r, plain, flags);
    lemma_first_change(q, seq![c, '?'] + r, plain, flags);
}

/// The anchors at both ends of a pattern are dropped.
pub proof fn law_anchors_are_dropped(p: Seq<char>, flags: Seq<char>)
    requires
        p.len() > 0,
        p.last() != '\\',
        !flags.contains('/'),
    ensures
        mutations_of(seq!['/'] + (seq!['^'] + p) + seq!['/'] + flags).contains(
            seq!['/'] + p + (seq!['/'] + flags),
        ),
        mutations_of(seq!['/'] + p.push('$') + seq!['/'] + flags).contains(
            seq!['/'] + p + (seq!['/'] + flags),
        ),
{
    let front = seq!['^'] + p;
    let back = p.push('$');
    assert(front.skip(1) =~= p);
    assert(back.drop_last() =~= p);
    let a = anchor_changes(front) + inner_changes(front, 0, false);
    assert(a[0] == p);
    assert(front.len() != p.len());
    lemma_mutations(front, flags, p);
    let before = if back[0] == '^' {
        1int
    } else {
        0int
    };
    assert(trailing_backslashes(p) == 0);
    assert(anchor_changes(back)[before] == p);
    let b = anchor_changes(back) + inner_changes(back, 0, false);
    assert(b[before] == p);
    lemma_mutations(back, flags, p);
}

/// An escaped dollar sign at the end of a pattern is no anchor.
pub proof fn law_escaped_dollars_stay(q: Seq<char>)
    requires
        q.len() > 0,
        q.last() != '\\',
        q[0] != '^',
    ensures
        anchor_changes(q.push('\\').push('$')).len() == 0,
        anchor_changes(q.push('\\').push('\\').push('$')) == seq![q.push('\\').push('\\')],
{
    let one = q.push('\\');
    let two = one.push('\\');
    reveal_with_fuel(trailing_backslashes, 4);
    assert(one.drop_last() =~= q);
    assert(two.drop_last() =~= one);
    assert(one.push('$').drop_last() =~= one);
    assert(two.push('$').drop_last() =~= two);
    assert(trailing_backslashes(q) == 0);
    assert(trailing_backslashes(one) == 1);
    assert(trailing_backslashes(two) == 2);
    assert(anchor_changes(two.push('$')) =~= seq![two]);
}

/// Behind every place that is looked at, the search for changes goes on: behind an
/// escape, a set and its end, a quantifier and any other character.
pub proof fn law_the_search_goes_on(p: Seq<char>, i: int, in_class: bool, x: Seq<char>)
    requires
        0 <= i < p.len(),
    ensures
        p[i] == '\\' && i + 1 < p.len() && inner_changes(p, i + 2, in_class).contains(x)
            ==> inner_changes(p, i, in_class).contains(x),
        p[i] == '[' && !in_class && i + 1 < p.len() && p[i + 1] == '^' && inner_changes(
            p,
            i + 2,
            true,
        ).contains(x) ==> inner_changes(p, i, in_class).contains(x),
        p[i] == '[' && !in_class && !(i + 1 < p.len() && p[i + 1] == '^') && inner_changes(
            p,
            i + 1,
            true,
        ).contains(x) ==> inner_changes(p, i, in_class).contains(x),
        p[i] == ']' && in_class ==> inner_changes(p, i, in_class) == inner_changes(p, i + 1, false),
        (p[i] == '*' || p[i] == '+' || p[i] == '?') && in_class ==> inner_changes(p, i, in_class)
            == inner_changes(p, i + 1, in_class),
        (p[i] == '*' || p[i] == '+' || p[i] == '?') && !in_class && !(i + 1 < p.len() && p[i + 1]
            == '?') && inner_changes(p, i + 1, in_class).contains(x) ==> inner_changes(
            p,
            i,
            in_class,
        ).contains(x),
        p[i] != '\\' && p[i] != '[' && p[i] != ']' && p[i] != '*' && p[i] != '+' && p[i] != '?'
            ==> inner_changes(p, i, in_class) == inner_changes(p, i + 1, in_class),
        p[i] == '?' && !in_class && i > 0 && p[i - 1] == '(' ==> inner_changes(p, i, in_class)
            == inner_changes(p, i + 1, in_class),
{
    let all = inner_changes(p, i, in_class);
    assert forall|front: Seq<Seq<char>>, rest: Seq<Seq<char>>| #[trigger]
        (front + rest) == all && rest.contains(x) implies all.contains(x) by {
        let k = rest.index_of(x);
        assert((front + rest)[front.len() + k] == x);
    }
    if p[i] == '\\' && i + 1 < p.len() {
        let front = match flipped(p[i + 1]) {
            Some(c) => seq![spliced(p, i + 1, i + 2, seq![c])],
            None => Seq::empty(),
        };
        assert(front + inner_changes(p, i + 2, in_class) == all);
    }
}

} // verus!
