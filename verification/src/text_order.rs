//! The order of texts: character by character, a text before its extensions.
use vstd::prelude::*;

use crate::text::chars_of;

verus! {

/// Whether `a` comes before `b`, both read from position `i` on.
pub open spec fn before_from(a: Seq<char>, b: Seq<char>, i: int) -> bool
    decreases b.len() - i,
{
    if i < 0 || i >= b.len() {
        false
    } else if i >= a.len() {
        true
    } else if a[i] != b[i] {
        a[i] < b[i]
    } else {
        before_from(a, b, i + 1)
    }
}

/// Whether `a` comes before `b`.
pub open spec fn before(a: Seq<char>, b: Seq<char>) -> bool {
    before_from(a, b, 0)
}

/// Whether `a` comes before `b`.
pub fn comes_before(a: &str, b: &str) -> (r: bool)
    ensures
        r == before(a@, b@),
{
    let x = chars_of(a);
    let y = chars_of(b);
    let mut i: usize = 0;
    while i < y.len()
        invariant
            i <= y@.len(),
            x@ == a@,
            y@ == b@,
            before(a@, b@) == before_from(a@, b@, i as int),
        decreases y@.len() - i,
    {
        if i >= x.len() {
            return true;
        }
        if x[i] != y[i] {
            return x[i] < y[i];
        }
        i = i + 1;
    }
    false
}

proof fn lemma_asym_from(a: Seq<char>, b: Seq<char>, i: int)
    requires
        0 <= i,
        before_from(a, b, i),
    ensures
        !before_from(b, a, i),
    decreases b.len() - i,
{
    if i < a.len() && a[i] == b[i] {
        lemma_asym_from(a, b, i + 1);
    }
}

/// The order has no two-element cycle; in particular no text comes before itself.
pub proof fn lemma_before_asym(a: Seq<char>, b: Seq<char>)
    requires
        before(a, b),
    ensures
        !before(b, a),
        a != b,
{
    lemma_asym_from(a, b, 0);
}

proof fn lemma_trans_from(a: Seq<char>, b: Seq<char>, c: Seq<char>, i: int)
    requires
        0 <= i,
        before_from(a, b, i),
        before_from(b, c, i),
    ensures
        before_from(a, c, i),
    decreases b.len() - i,
{
    if i < a.len() && a[i] == b[i] && b[i] == c[i] {
        lemma_trans_from(a, b, c, i + 1);
    }
}

/// The order is transitive.
pub proof fn lemma_before_trans(a: Seq<char>, b: Seq<char>, c: Seq<char>)
    requires
        before(a, b),
        before(b, c),
    ensures
        before(a, c),
{
    lemma_trans_from(a, b, c, 0);
}

proof fn lemma_total_from(a: Seq<char>, b: Seq<char>, i: int)
    requires
        0 <= i,
        i <= a.len(),
        i <= b.len(),
        !before_from(a, b, i),
        !before_from(b, a, i),
    ensures
        a.skip(i) == b.skip(i),
    decreases b.len() - i,
{
    if i < a.len() && i < b.len() {
        lemma_total_from(a, b, i + 1);
        assert(a.skip(i + 1).len() == b.skip(i + 1).len());
        assert forall|k: int| i <= k < a.len() implies a[k] == b[k] by {
            if k > i {
                assert(a[k] == a.skip(i + 1)[k - i - 1]);
                assert(b[k] == b.skip(i + 1)[k - i - 1]);
            }
        }
        assert(a.skip(i + 1).len() == b.skip(i + 1).len());
        assert(a.skip(i) =~= b.skip(i));
    } else {
        assert(a.skip(i) =~= b.skip(i));
    }
}

/// Of two different texts one comes before the other.
pub proof fn lemma_before_total(a: Seq<char>, b: Seq<char>)
    ensures
        before(a, b) || before(b, a) || a == b,
{
    if !before(a, b) && !before(b, a) {
        lemma_total_from(a, b, 0);
        assert(a.skip(0) =~= a);
        assert(b.skip(0) =~= b);
    }
}

/// Every text comes before all that follow it.
pub open spec fn ascending(s: Seq<Seq<char>>) -> bool {
    forall|i: int, j: int| 0 <= i < j < s.len() ==> before(#[trigger] s[i], #[trigger] s[j])
}

/// The ascending list `s` with `x` in its place.
pub open spec fn with_text(s: Seq<Seq<char>>, x: Seq<char>) -> Seq<Seq<char>>
    decreases s.len(),
{
    if s.len() == 0 || before(s.last(), x) {
        s.push(x)
    } else if s.last() == x {
        s
    } else {
        with_text(s.drop_last(), x).push(s.last())
    }
}

/// The texts of a list in ascending order, each once.
pub open spec fn sorted_set(s: Seq<Seq<char>>) -> Seq<Seq<char>>
    decreases s.len(),
{
    if s.len() == 0 {
        s
    } else {
        with_text(sorted_set(s.drop_last()), s.last())
    }
}

proof fn lemma_with_text(s: Seq<Seq<char>>, x: Seq<char>)
    requires
        ascending(s),
    ensures
        ascending(with_text(s, x)),
        forall|t: Seq<char>| #[trigger] with_text(s, x).contains(t) <==> t == x || s.contains(t),
    decreases s.len(),
{
    let r = with_text(s, x);
    if s.len() == 0 || before(s.last(), x) {
        assert forall|i: int, j: int| 0 <= i < j < r.len() implies before(
            #[trigger] r[i],
            #[trigger] r[j],
        ) by {
            if j == s.len() && i < s.len() - 1 {
                assert(before(s[i], s[s.len() - 1]));
                lemma_before_trans(s[i], s.last(), x);
            }
        }
        assert forall|t: Seq<char>| #[trigger] r.contains(t) <==> t == x || s.contains(t) by {
            assert(r[s.len() as int] == x);
            if s.contains(t) {
                let k = s.index_of(t);
                assert(r[k] == t);
            }
        }
    } else if s.last() == x {
        assert(s[s.len() - 1] == x);
    } else {
        let f = s.drop_last();
        lemma_with_text(f, x);
        let q = with_text(f, x);
        lemma_before_total(s.last(), x);
        assert forall|i: int| 0 <= i < q.len() implies before(#[trigger] q[i], s.last()) by {
            assert(q.contains(q[i]));
            if q[i] != x {
                let k = f.index_of(q[i]);
                assert(f[k] == q[i]);
                assert(before(s[k], s[s.len() - 1]));
            }
        }
        assert forall|t: Seq<char>| #[trigger] r.contains(t) <==> t == x || s.contains(t) by {
            assert(r[q.len() as int] == s.last());
            if q.contains(t) {
                let k = q.index_of(t);
                assert(r[k] == t);
            }
            if s.contains(t) {
                let k = s.index_of(t);
                if k < f.len() {
                    assert(f[k] == t);
                }
            }
            if f.contains(t) {
                let k = f.index_of(t);
                assert(s[k] == t);
            }
            if r.contains(t) {
                let k = r.index_of(t);
                if k < q.len() {
                    assert(q[k] == t);
                } else {
                    assert(s[s.len() - 1] == t);
                }
            }
        }
    }
}

/// A sorted set is strictly ascending and has the texts of the list.
pub proof fn law_sorted_set(s: Seq<Seq<char>>)
    ensures
        ascending(sorted_set(s)),
        forall|t: Seq<char>| #[trigger] sorted_set(s).contains(t) <==> s.contains(t),
    decreases s.len(),
{
    if s.len() > 0 {
        let f = s.drop_last();
        law_sorted_set(f);
        lemma_with_text(sorted_set(f), s.last());
        assert forall|t: Seq<char>| #[trigger] sorted_set(s).contains(t) <==> s.contains(t) by {
            if s.contains(t) {
                let k = s.index_of(t);
                if k < f.len() {
                    assert(f[k] == t);
                }
            }
            if f.contains(t) {
                let k = f.index_of(t);
                assert(s[k] == t);
            }
            assert(s[s.len() - 1] == s.last());
        }
    }
}

proof fn lemma_with_text_at(s: Seq<Seq<char>>, x: Seq<char>, p: int)
    requires
        0 <= p <= s.len(),
        forall|i: int| p <= i < s.len() ==> !before(#[trigger] s[i], x) && s[i] != x,
        p > 0 ==> before(s[p - 1], x),
    ensures
        with_text(s, x) == s.insert(p, x),
    decreases s.len(),
{
    if p == s.len() {
        assert(s.insert(p, x) =~= s.push(x));
    } else {
        let f = s.drop_last();
        lemma_with_text_at(f, x, p);
        assert(!before(s[s.len() - 1], x));
        assert(s.insert(p, x) =~= f.insert(p, x).push(s.last()));
    }
}

proof fn lemma_with_text_in(s: Seq<Seq<char>>, x: Seq<char>, p: int)
    requires
        0 <= p < s.len(),
        forall|i: int| p < i < s.len() ==> !before(#[trigger] s[i], x) && s[i] != x,
        s[p] == x,
    ensures
        with_text(s, x) == s,
    decreases s.len(),
{
    if before(x, x) {
        lemma_before_asym(x, x);
    }
    if p < s.len() - 1 {
        let f = s.drop_last();
        lemma_with_text_in(f, x, p);
        assert(!before(s[s.len() - 1], x));
        assert(s =~= f.push(s.last()));
    }
}

/// The texts of a list in ascending order, each once.
pub fn sort_texts(list: &Vec<String>) -> (r: Vec<String>)
    ensures
        crate::text::texts(r@) == sorted_set(crate::text::texts(list@)),
{
    let ghost all = crate::text::texts(list@);
    let mut out: Vec<String> = Vec::new();
    let mut i: usize = 0;
    proof {
        assert(crate::text::texts(out@) =~= sorted_set(all.take(0)));
    }
    while i < list.len()
        invariant
            i <= list@.len(),
            all == crate::text::texts(list@),
            crate::text::texts(out@) == sorted_set(all.take(i as int)),
        decreases list@.len() - i,
    {
        let x = list[i].as_str();
        let ghost s = crate::text::texts(out@);
        let mut p: usize = out.len();
        while p > 0 && !comes_before(out[p - 1].as_str(), x) && !crate::text::same(
            out[p - 1].as_str(),
            x,
        )
            invariant
                p <= out@.len(),
                s == crate::text::texts(out@),
                forall|k: int| p <= k < s.len() ==> !before(#[trigger] s[k], x@) && s[k] != x@,
            decreases p,
        {
            p = p - 1;
        }
        proof {
            assert(all.take(i + 1).drop_last() =~= all.take(i as int));
            assert(all.take(i + 1).last() == x@);
        }
        if p > 0 && crate::text::same(out[p - 1].as_str(), x) {
            proof {
                lemma_with_text_in(s, x@, p - 1);
            }
        } else {
            proof {
                lemma_with_text_at(s, x@, p as int);
            }
            let copy = crate::text::copy_text(x);
            out.insert(p, copy);
            proof {
                assert(crate::text::texts(out@) =~= s.insert(p as int, x@));
            }
        }
        i = i + 1;
    }
    proof {
        assert(all.take(list@.len() as int) =~= all);
    }
    out
}

proof fn lemma_from_difference(a: Seq<char>, b: Seq<char>, i: int, n: int)
    requires
        0 <= i <= n <= a.len(),
        n < b.len(),
        forall|k: int| 0 <= k < n ==> #[trigger] a[k] == b[k],
        n < a.len() ==> a[n] != b[n],
    ensures
        before_from(a, b, i) == (n == a.len() || a[n] < b[n]),
    decreases n - i,
{
    if i < n {
        assert(a[i] == b[i]);
        lemma_from_difference(a, b, i + 1, n);
    }
}

/// Texts are ordered by the first character in which they differ, and a text comes
/// before what continues it.
pub proof fn law_order_of_texts(a: Seq<char>, b: Seq<char>, n: int)
    requires
        0 <= n <= a.len(),
        n < b.len(),
        forall|k: int| 0 <= k < n ==> #[trigger] a[k] == b[k],
        n < a.len() ==> a[n] != b[n],
    ensures
        n == a.len() ==> before(a, b),
        n < a.len() ==> (before(a, b) <==> a[n] < b[n]),
{
    lemma_from_difference(a, b, 0, n);
}

} // verus!
