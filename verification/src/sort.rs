//! A stable sort by an integer rank.
use vstd::prelude::*;

verus! {

/// A value with a place in an order.
pub trait Ranked: Sized {
    /// Smaller ranks come first.
    spec fn rank(self) -> int;

    /// The rank as a machine integer.
    fn rank_value(&self) -> (r: u64)
        ensures
            r == self.rank(),
    ;
}

/// `s`, ascending by rank, with `x` put behind all elements that are not above it.
pub open spec fn placed<A>(s: Seq<A>, x: A, rank: spec_fn(A) -> int) -> Seq<A>
    decreases s.len(),
{
    if s.len() == 0 || rank(s.last()) <= rank(x) {
        s.push(x)
    } else {
        placed(s.drop_last(), x, rank).push(s.last())
    }
}

/// The elements of `s` in ascending order of rank, those of one rank in the
/// order in which they stand in `s`.
pub open spec fn stable<A>(s: Seq<A>, rank: spec_fn(A) -> int) -> Seq<A>
    decreases s.len(),
{
    if s.len() == 0 {
        s
    } else {
        placed(stable(s.drop_last(), rank), s.last(), rank)
    }
}

/// The rank of a ranked type, as a function.
pub open spec fn by_rank<T: Ranked>() -> spec_fn(T) -> int {
    |x: T| x.rank()
}

/// Ascending by rank.
pub open spec fn ascending_by<A>(s: Seq<A>, rank: spec_fn(A) -> int) -> bool {
    forall|i: int, j: int| 0 <= i < j < s.len() ==> rank(#[trigger] s[i]) <= rank(#[trigger] s[j])
}

proof fn lemma_placed<A>(s: Seq<A>, x: A, rank: spec_fn(A) -> int)
    requires
        ascending_by(s, rank),
    ensures
        ascending_by(placed(s, x, rank), rank),
        placed(s, x, rank).to_multiset() == s.to_multiset().insert(x),
        placed(s, x, rank).len() == s.len() + 1,
        forall|i: int|
            0 <= i < placed(s, x, rank).len() ==> #[trigger] placed(s, x, rank)[i] == x
                || s.contains(placed(s, x, rank)[i]),
    decreases s.len(),
{
    broadcast use vstd::seq_lib::group_to_multiset_ensures;

    if s.len() == 0 || rank(s.last()) <= rank(x) {
        assert forall|i: int| 0 <= i < s.push(x).len() implies #[trigger] s.push(x)[i] == x
            || s.contains(s.push(x)[i]) by {}
    } else {
        let front = s.drop_last();
        lemma_placed(front, x, rank);
        let p = placed(front, x, rank);
        assert(s =~= front.push(s.last()));
        assert(p.push(s.last()).to_multiset() =~= s.to_multiset().insert(x));
        assert forall|i: int| 0 <= i < p.push(s.last()).len() implies #[trigger] p.push(s.last())[i]
            == x || s.contains(p.push(s.last())[i]) by {
            if i < p.len() && p[i] != x {
                let k = front.index_of(p[i]);
                assert(front[k] == p[i]);
                assert(s[k] == p[i]);
            } else if i == p.len() {
                assert(s[s.len() - 1] == s.last());
            }
        }
        assert forall|i: int| 0 <= i < p.len() implies rank(#[trigger] p[i]) <= rank(s.last()) by {
            if p[i] != x {
                let k = front.index_of(p[i]);
                assert(front[k] == p[i]);
                assert(s[k] == p[i] && s[s.len() - 1] == s.last());
            }
        }
    }
}

/// Sorting keeps the elements and puts them in ascending order of rank.
pub proof fn law_stable_sorts<A>(s: Seq<A>, rank: spec_fn(A) -> int)
    ensures
        ascending_by(stable(s, rank), rank),
        stable(s, rank).to_multiset() == s.to_multiset(),
        stable(s, rank).len() == s.len(),
    decreases s.len(),
{
    broadcast use vstd::seq_lib::group_to_multiset_ensures;

    if s.len() > 0 {
        law_stable_sorts(s.drop_last(), rank);
        lemma_placed(stable(s.drop_last(), rank), s.last(), rank);
        assert(s =~= s.drop_last().push(s.last()));
    }
}

/// What is already in order is left as it is.
pub proof fn law_stable_keeps_sorted<A>(s: Seq<A>, rank: spec_fn(A) -> int)
    requires
        ascending_by(s, rank),
    ensures
        stable(s, rank) == s,
    decreases s.len(),
{
    if s.len() > 0 {
        law_stable_keeps_sorted(s.drop_last(), rank);
        if s.len() > 1 {
            assert(s[s.len() - 2] == s.drop_last().last());
            assert(s[s.len() - 1] == s.last());
        }
        assert(s =~= s.drop_last().push(s.last()));
    }
}

proof fn lemma_placed_map<A, B>(
    s: Seq<A>,
    x: A,
    f: spec_fn(A) -> B,
    rank_a: spec_fn(A) -> int,
    rank_b: spec_fn(B) -> int,
)
    requires
        forall|a: A| #[trigger] rank_a(a) == rank_b(f(a)),
    ensures
        placed(s, x, rank_a).map_values(f) == placed(s.map_values(f), f(x), rank_b),
    decreases s.len(),
{
    let m = s.map_values(f);
    if s.len() == 0 || rank_a(s.last()) <= rank_a(x) {
        assert(placed(s, x, rank_a).map_values(f) =~= m.push(f(x)));
        if s.len() > 0 {
            assert(m.last() == f(s.last()));
        }
    } else {
        lemma_placed_map(s.drop_last(), x, f, rank_a, rank_b);
        assert(m.drop_last() =~= s.drop_last().map_values(f));
        assert(m.last() == f(s.last()));
        assert(placed(s, x, rank_a).map_values(f) =~= placed(s.drop_last(), x, rank_a).map_values(
            f,
        ).push(f(s.last())));
    }
}

/// Sorting commutes with a mapping that keeps the ranks.
pub proof fn lemma_stable_map<A, B>(
    s: Seq<A>,
    f: spec_fn(A) -> B,
    rank_a: spec_fn(A) -> int,
    rank_b: spec_fn(B) -> int,
)
    requires
        forall|a: A| #[trigger] rank_a(a) == rank_b(f(a)),
    ensures
        stable(s, rank_a).map_values(f) == stable(s.map_values(f), rank_b),
    decreases s.len(),
{
    let m = s.map_values(f);
    if s.len() == 0 {
        assert(stable(s, rank_a).map_values(f) =~= m);
    } else {
        lemma_stable_map(s.drop_last(), f, rank_a, rank_b);
        lemma_placed_map(stable(s.drop_last(), rank_a), s.last(), f, rank_a, rank_b);
        assert(m.drop_last() =~= s.drop_last().map_values(f));
        assert(m.last() == f(s.last()));
    }
}

proof fn lemma_placed_at<A>(s: Seq<A>, x: A, rank: spec_fn(A) -> int, p: int)
    requires
        0 <= p <= s.len(),
        forall|i: int| p <= i < s.len() ==> rank(#[trigger] s[i]) > rank(x),
        p > 0 ==> rank(s[p - 1]) <= rank(x),
    ensures
        placed(s, x, rank) == s.insert(p, x),
    decreases s.len(),
{
    if p == s.len() {
        assert(s.insert(p, x) =~= s.push(x));
    } else {
        let front = s.drop_last();
        lemma_placed_at(front, x, rank, p);
        assert(rank(s[s.len() - 1]) > rank(x));
        assert(s.insert(p, x) =~= front.insert(p, x).push(s.last()));
    }
}

/// Sorts by rank; elements of one rank keep their order.
pub fn sort_by_rank<T: Ranked>(items: Vec<T>) -> (r: Vec<T>)
    ensures
        r@ == stable(items@, by_rank::<T>()),
{
    let ghost all = items@;
    let mut rest = items;
    let mut reversed: Vec<T> = Vec::new();
    while rest.len() > 0
        invariant
            all == rest@ + reversed@.reverse(),
        decreases rest@.len(),
    {
        let ghost before = rest@;
        let ghost out = reversed@;
        let x = rest.pop();
        match x {
            Some(x) => {
                reversed.push(x);
                proof {
                    assert(before =~= rest@.push(x));
                    assert(rest@ + reversed@.reverse() =~= before + out.reverse());
                }
            },
            None => {},
        }
    }
    proof {
        assert(rest@ + reversed@.reverse() =~= reversed@.reverse());
        assert(all.take(0) =~= Seq::<T>::empty());
    }
    let mut out: Vec<T> = Vec::new();
    let ghost mut done: int = 0;
    while reversed.len() > 0
        invariant
            0 <= done <= all.len(),
            all.skip(done) == reversed@.reverse(),
            out@ == stable(all.take(done), by_rank::<T>()),
        decreases reversed@.len(),
    {
        let ghost before = reversed@;
        let x = reversed.pop();
        match x {
            Some(x) => {
                let rank = x.rank_value();
                let mut p: usize = out.len();
                while p > 0 && out[p - 1].rank_value() > rank
                    invariant
                        p <= out@.len(),
                        rank == x.rank(),
                        forall|i: int| p <= i < out@.len() ==> (#[trigger] out@[i]).rank() > rank,
                    decreases p,
                {
                    p = p - 1;
                }
                proof {
                    lemma_placed_at(out@, x, by_rank::<T>(), p as int);
                    assert(before.reverse().len() == before.len());
                    assert(all.skip(done).len() == all.len() - done);
                    assert(before.reverse()[0] == x);
                    assert(all[done] == all.skip(done)[0]);
                    assert(all.take(done + 1).drop_last() =~= all.take(done));
                    assert(all.take(done + 1).last() == x);
                    assert(all.skip(done + 1) =~= reversed@.reverse()) by {
                        assert(before.len() == reversed@.len() + 1);
                        assert(all.skip(done).len() == before.len());
                        assert forall|i: int| 0 <= i < reversed@.len() implies all.skip(done + 1)[i]
                            == reversed@.reverse()[i] by {
                            assert(all.skip(done)[i + 1] == before.reverse()[i + 1]);
                        }
                    }
                    done = done + 1;
                }
                out.insert(p, x);
            },
            None => {},
        }
    }
    proof {
        assert(all.skip(done).len() == 0);
        assert(all.take(done) =~= all);
    }
    out
}

/// The elements of one rank.
pub open spec fn of_rank<A>(s: Seq<A>, rank: spec_fn(A) -> int, r: int) -> Seq<A>
    decreases s.len(),
{
    if s.len() == 0 {
        s
    } else if rank(s.last()) == r {
        of_rank(s.drop_last(), rank, r).push(s.last())
    } else {
        of_rank(s.drop_last(), rank, r)
    }
}

proof fn lemma_placed_of_rank<A>(s: Seq<A>, x: A, rank: spec_fn(A) -> int, r: int)
    requires
        ascending_by(s, rank),
    ensures
        of_rank(placed(s, x, rank), rank, r) == of_rank(s.push(x), rank, r),
    decreases s.len(),
{
    if s.len() > 0 && rank(s.last()) > rank(x) {
        let front = s.drop_last();
        let p = placed(front, x, rank);
        lemma_placed_of_rank(front, x, rank, r);
        assert(p.push(s.last()).drop_last() =~= p);
        assert(s.push(x).drop_last() =~= s);
        assert(front.push(x).drop_last() =~= front);
        let all = p.push(s.last());
        assert(all.last() == s.last());
        assert(of_rank(all, rank, r) == (if rank(s.last()) == r {
            of_rank(p, rank, r).push(s.last())
        } else {
            of_rank(p, rank, r)
        }));
        assert(of_rank(front.push(x), rank, r) == (if rank(x) == r {
            of_rank(front, rank, r).push(x)
        } else {
            of_rank(front, rank, r)
        }));
        assert(of_rank(s, rank, r) == (if rank(s.last()) == r {
            of_rank(front, rank, r).push(s.last())
        } else {
            of_rank(front, rank, r)
        }));
        assert(of_rank(s.push(x), rank, r) == (if rank(x) == r {
            of_rank(s, rank, r).push(x)
        } else {
            of_rank(s, rank, r)
        }));
    }
}

/// Sorting leaves the elements of one rank in the order in which they stood.
pub proof fn law_stable_keeps_the_order_of_equals<A>(s: Seq<A>, rank: spec_fn(A) -> int, r: int)
    ensures
        of_rank(stable(s, rank), rank, r) == of_rank(s, rank, r),
    decreases s.len(),
{
    if s.len() > 0 {
        let front = s.drop_last();
        law_stable_sorts(front, rank);
        law_stable_keeps_the_order_of_equals(front, rank, r);
        lemma_placed_of_rank(stable(front, rank), s.last(), rank, r);
        assert(stable(front, rank).push(s.last()).drop_last() =~= stable(front, rank));
    }
}

} // verus!
