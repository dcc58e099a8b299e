//! Coverage as the runtimes hand it over: counters keyed by texts.
use std::collections::HashMap;
use vstd::prelude::*;

use crate::model::MutantCoverage;
use crate::text::parse_number;
use crate::text_map::TextMap;

verus! {

broadcast use vstd::std_specs::hash::group_hash_axioms;

/// A bucket with the counters of a list of texts written over it; texts that
/// are no mutant ids are left out.
pub open spec fn overwritten(base: Map<u32, u64>, keys: Seq<Seq<char>>, hits: Seq<u64>) -> Map<
    u32,
    u64,
>
    decreases keys.len(),
{
    if keys.len() == 0 {
        base
    } else {
        let front = overwritten(base, keys.drop_last(), hits.drop_last());
        match crate::text::parsed(keys.last(), u32::MAX as nat) {
            Some(id) => front.insert(id as u32, hits.last()),
            None => front,
        }
    }
}

/// Writes counters over a bucket.
pub fn overwrite(base: &mut HashMap<u32, u64>, counters: &TextMap<u64>)
    ensures
        final(base)@ == overwritten(old(base)@, counters.keys(), counters.values()),
{
    let ghost begun = base@;
    let ghost keys = counters.keys();
    let ghost hits = counters.values();
    let total = counters.len();
    let mut i: usize = 0;
    proof {
        assert(keys.take(0) =~= Seq::<Seq<char>>::empty());
    }
    while i < total
        invariant
            i <= total == keys.len(),
            keys.len() == hits.len(),
            keys == counters.keys(),
            hits == counters.values(),
            base@ == overwritten(begun, keys.take(i as int), hits.take(i as int)),
        decreases total - i,
    {
        proof {
            assert(keys.take(i + 1).drop_last() =~= keys.take(i as int));
            assert(hits.take(i + 1).drop_last() =~= hits.take(i as int));
        }
        if let Some(id) = parse_number(counters.key_at(i).as_str(), u32::MAX as u64) {
            base.insert(id as u32, *counters.value_at(i));
        }
        i = i + 1;
    }
    proof {
        assert(keys.take(total as int) =~= keys);
        assert(hits.take(total as int) =~= hits);
    }
}

/// The bucket of a test, empty where it has none.
pub open spec fn bucket_at(m: Map<Seq<char>, Map<u32, u64>>, test: Seq<char>) -> Map<u32, u64> {
    if m.dom().contains(test) {
        m[test]
    } else {
        Map::empty()
    }
}

/// The buckets with counters written over the bucket of a test.
pub open spec fn with_counters(
    m: Map<Seq<char>, Map<u32, u64>>,
    test: Seq<char>,
    counters: TextMap<u64>,
) -> Map<Seq<char>, Map<u32, u64>> {
    m.insert(test, overwritten(bucket_at(m, test), counters.keys(), counters.values()))
}

/// Writes counters over the bucket of a test.
pub fn add_counters(coverage: &mut MutantCoverage, test: String, counters: &TextMap<u64>)
    ensures
        final(coverage)@.static_hits == old(coverage)@.static_hits,
        final(coverage)@.per_test == with_counters(old(coverage)@.per_test, test@, *counters),
{
    let ghost before = coverage.per_test@;
    let mut bucket: HashMap<u32, u64> = match coverage.per_test.take(test.as_str()) {
        Some(bucket) => bucket,
        None => HashMap::new(),
    };
    proof {
        assert(bucket@ =~= bucket_at(crate::model::bucket_views(before), test@));
    }
    overwrite(&mut bucket, counters);
    coverage.per_test.insert(test, bucket);
    proof {
        assert(crate::model::bucket_views(coverage.per_test@) =~= with_counters(
            crate::model::bucket_views(before),
            test@,
            *counters,
        ));
    }
}

/// No coverage at all.
pub open spec fn no_coverage() -> crate::model::CoverageView {
    crate::model::CoverageView { static_hits: Map::empty(), per_test: Map::empty() }
}

/// Coverage with nothing but static counters.
pub fn static_coverage(counters: &TextMap<u64>) -> (r: MutantCoverage)
    ensures
        r@ == (crate::model::CoverageView {
            static_hits: overwritten(Map::empty(), counters.keys(), counters.values()),
            per_test: Map::empty(),
        }),
{
    let mut r = MutantCoverage::new();
    overwrite(&mut r.static_hits, counters);
    proof {
        assert(r@.per_test =~= Map::<Seq<char>, Map<u32, u64>>::empty());
    }
    r
}

/// The counters of a bucket as a list, each key once.
fn entries(bucket: &HashMap<u32, u64>) -> (r: Vec<(u32, u64)>)
    ensures
        forall|i: int|
            0 <= i < r@.len() ==> bucket@.contains_key((#[trigger] r@[i]).0) && bucket@[r@[i].0]
                == r@[i].1,
        forall|k: u32| #[trigger]
            bucket@.contains_key(k) ==> exists|i: int| 0 <= i < r@.len() && (#[trigger] r@[i]).0 == k,
        forall|i: int, j: int|
            0 <= i < j < r@.len() ==> (#[trigger] r@[i]).0 != (#[trigger] r@[j]).0,
{
    let mut out: Vec<(u32, u64)> = Vec::new();
    for x in it: bucket.iter()
        invariant
            out@.len() == it.index(),
            it.seq() == vstd::std_specs::iter::IteratorSpec::remaining(
                &vstd::std_specs::hash::spec_hash_map_iter(bucket),
            ),
            it.seq().no_duplicates(),
            forall|i: int|
                0 <= i < out@.len() ==> (#[trigger] out@[i]) == (*it.seq()[i].0, *it.seq()[i].1),
    {
        out.push((*x.0, *x.1));
    }
    proof {
        let v = vstd::std_specs::iter::IteratorSpec::remaining(
            &vstd::std_specs::hash::spec_hash_map_iter(bucket),
        );
        assert(out@.len() == v.len());
        assert forall|i: int| 0 <= i < out@.len() implies bucket@.contains_key(
            (#[trigger] out@[i]).0,
        ) && bucket@[out@[i].0] == out@[i].1 by {
            assert(bucket@.contains_key(*v[i].0));
        }
        assert forall|k: u32| #[trigger] bucket@.contains_key(k) implies exists|i: int|
            0 <= i < out@.len() && (#[trigger] out@[i]).0 == k by {
            assert(v.contains((&k, &bucket@[k])));
            let i = v.index_of((&k, &bucket@[k]));
            assert(out@[i].0 == k);
        }
        assert forall|i: int, j: int| 0 <= i < j < out@.len() implies (#[trigger] out@[i]).0 != (
        #[trigger] out@[j]).0 by {
            if out@[i].0 == out@[j].0 {
                assert(bucket@.contains_key(*v[i].0) && bucket@[*v[i].0] == *v[i].1);
                assert(bucket@.contains_key(*v[j].0) && bucket@[*v[j].0] == *v[j].1);
                assert(v[i] == v[j]);
            }
        }
    }
    out
}

/// The sums of two buckets.
pub open spec fn summed(a: Map<u32, u64>, b: Map<u32, u64>) -> Map<u32, u64> {
    Map::new(
        |k: u32| a.contains_key(k) || b.contains_key(k),
        |k: u32| (crate::model::hits_in(a, k) + crate::model::hits_in(b, k)) as u64,
    )
}

/// Whether the sums of two buckets fit their 64 bits.
pub open spec fn sums_fit(a: Map<u32, u64>, b: Map<u32, u64>) -> bool {
    forall|k: u32| #[trigger] crate::model::hits_in(a, k) + crate::model::hits_in(b, k) <= u64::MAX
}

/// Whether none of the first `n` entries has a key.
spec fn unlisted(list: Seq<(u32, u64)>, n: int, k: u32) -> bool {
    forall|j: int| 0 <= j < n ==> (#[trigger] list[j]).0 != k
}

/// Adds the counters of a bucket to another; nothing is said where a sum does
/// not fit.
fn add_hits(base: &mut HashMap<u32, u64>, more: &HashMap<u32, u64>) -> (r: bool)
    ensures
        r == sums_fit(old(base)@, more@),
        r ==> final(base)@ == summed(old(base)@, more@),
{
    let ghost a = base@;
    let ghost b = more@;
    let list = entries(more);
    let mut i: usize = 0;
    while i < list.len()
        invariant
            i <= list@.len(),
            a == old(base)@,
            b == more@,
            forall|j: int|
                0 <= j < list@.len() ==> b.contains_key((#[trigger] list@[j]).0) && b[list@[j].0]
                    == list@[j].1,
            forall|x: int, y: int|
                0 <= x < y < list@.len() ==> (#[trigger] list@[x]).0 != (#[trigger] list@[y]).0,
            forall|j: int|
                0 <= j < i ==> crate::model::hits_in(a, (#[trigger] list@[j]).0) + list@[j].1
                    <= u64::MAX && base@.contains_key(list@[j].0) && base@[list@[j].0]
                    == crate::model::hits_in(a, list@[j].0) + list@[j].1,
            forall|k: u32|
                #![trigger base@.contains_key(k)]
                unlisted(list@, i as int, k) ==> base@.contains_key(k) == a.contains_key(k) && (
                a.contains_key(k) ==> base@[k] == a[k]),
        decreases list@.len() - i,
    {
        let (id, hits) = list[i];
        let have: u64 = match base.get(&id) {
            Some(n) => *n,
            None => 0,
        };
        proof {
            assert(unlisted(list@, i as int, id));
            assert(base@.contains_key(id) == a.contains_key(id));
            assert(have == crate::model::hits_in(a, id));
            assert(hits == crate::model::hits_in(b, id));
        }
        let ghost before = base@;
        match have.checked_add(hits) {
            Some(sum) => {
                base.insert(id, sum);
                proof {
                    assert forall|k: u32|
                        #![trigger base@.contains_key(k)]
                        unlisted(list@, i + 1, k) implies base@.contains_key(k) == a.contains_key(
                        k,
                    ) && (a.contains_key(k) ==> base@[k] == a[k]) by {
                        assert(list@[i as int].0 != k);
                        assert(unlisted(list@, i as int, k));
                        assert(before.contains_key(k) == a.contains_key(k));
                    }
                }
            },
            None => {
                proof {
                    assert(crate::model::hits_in(a, id) + crate::model::hits_in(b, id) > u64::MAX);
                }
                return false;
            },
        }
        i = i + 1;
    }
    proof {
        assert forall|k: u32| #[trigger]
            crate::model::hits_in(a, k) + crate::model::hits_in(b, k) <= u64::MAX by {
            if b.contains_key(k) {
                let j = choose|j: int| 0 <= j < list@.len() && (#[trigger] list@[j]).0 == k;
                assert(list@[j].0 == k);
            }
        }
        assert forall|k: u32| #[trigger] base@.contains_key(k) == summed(a, b).contains_key(k) && (
        base@.contains_key(k) ==> base@[k] == summed(a, b)[k]) by {
            if b.contains_key(k) {
                let j = choose|j: int| 0 <= j < list@.len() && (#[trigger] list@[j]).0 == k;
                assert(list@[j].0 == k);
            } else {
                assert forall|j: int| 0 <= j < list@.len() implies (#[trigger] list@[j]).0 != k by {
                    assert(b.contains_key(list@[j].0));
                }
                assert(unlisted(list@, list@.len() as int, k));
            }
        }
        assert(base@ =~= summed(a, b));
    }
    true
}

/// The sums of the buckets of two runs.
pub open spec fn summed_buckets(
    a: Map<Seq<char>, Map<u32, u64>>,
    b: Map<Seq<char>, Map<u32, u64>>,
) -> Map<Seq<char>, Map<u32, u64>> {
    Map::new(
        |t: Seq<char>| a.contains_key(t) || b.contains_key(t),
        |t: Seq<char>|
            if b.contains_key(t) {
                summed(bucket_at(a, t), b[t])
            } else {
                a[t]
            },
    )
}

/// The coverage of two runs together.
pub open spec fn merged(
    a: crate::model::CoverageView,
    b: crate::model::CoverageView,
) -> crate::model::CoverageView {
    crate::model::CoverageView {
        static_hits: summed(a.static_hits, b.static_hits),
        per_test: summed_buckets(a.per_test, b.per_test),
    }
}

/// Whether the counters of two runs together fit their 64 bits.
pub open spec fn merge_fits(a: crate::model::CoverageView, b: crate::model::CoverageView) -> bool {
    &&& sums_fit(a.static_hits, b.static_hits)
    &&& forall|t: Seq<char>| #[trigger]
        b.per_test.contains_key(t) ==> sums_fit(bucket_at(a.per_test, t), b.per_test[t])
}

/// Whether a test is none of the first `n`.
spec fn unnamed(tests: Seq<Seq<char>>, n: int, t: Seq<char>) -> bool {
    forall|j: int| 0 <= j < n ==> #[trigger] tests[j] != t
}

/// Adds the coverage of another run; nothing where a counter would overflow.
pub fn merge_coverage(into: MutantCoverage, from: &MutantCoverage) -> (r: Option<MutantCoverage>)
    ensures
        match r {
            Some(all) => merge_fits(into@, from@) && all@ == merged(into@, from@),
            None => !merge_fits(into@, from@),
        },
{
    let ghost a = into@;
    let ghost b = from@;
    let mut all = into;
    if !add_hits(&mut all.static_hits, &from.static_hits) {
        return None;
    }
    from.per_test.facts();
    let ghost keys = from.per_test.keys();
    let ghost buckets = from.per_test.values();
    let ghost held = all.static_hits@;
    let total = from.per_test.len();
    let mut i: usize = 0;
    proof {
        assert(all@.per_test =~= a.per_test);
    }
    while i < total
        invariant
            i <= total == keys.len(),
            keys == from.per_test.keys(),
            buckets == from.per_test.values(),
            keys.len() == buckets.len(),
            keys.no_duplicates(),
            a == into@,
            b == from@,
            held == all.static_hits@,
            sums_fit(a.static_hits, b.static_hits),
            forall|j: int|
                0 <= j < keys.len() ==> from.per_test@.dom().contains(#[trigger] keys[j])
                    && from.per_test@[keys[j]] == buckets[j],
            forall|j: int|
                0 <= j < i ==> all@.per_test.contains_key(#[trigger] keys[j])
                    && all@.per_test[keys[j]] == summed(
                    bucket_at(a.per_test, keys[j]),
                    b.per_test[keys[j]],
                ) && sums_fit(bucket_at(a.per_test, keys[j]), b.per_test[keys[j]]),
            forall|t: Seq<char>|
                #![trigger all@.per_test.contains_key(t)]
                unnamed(keys, i as int, t) ==> all@.per_test.contains_key(t)
                    == a.per_test.contains_key(t) && (a.per_test.contains_key(t)
                    ==> all@.per_test[t] == a.per_test[t]),
        decreases total - i,
    {
        let test = crate::text::copy_text(from.per_test.key_at(i).as_str());
        let more = from.per_test.value_at(i);
        let ghost before = all@.per_test;
        let ghost before_map = all.per_test@;
        proof {
            assert(test@ == keys[i as int]);
            assert(b.per_test[test@] == more@);
            assert(unnamed(keys, i as int, test@));
            assert(before.contains_key(test@) == a.per_test.contains_key(test@));
        }
        let mut bucket: HashMap<u32, u64> = match all.per_test.take(test.as_str()) {
            Some(bucket) => bucket,
            None => HashMap::new(),
        };
        proof {
            assert(bucket@ =~= bucket_at(a.per_test, test@));
            assert(b.per_test.contains_key(test@));
        }
        if !add_hits(&mut bucket, more) {
            proof {
                assert(!sums_fit(bucket_at(a.per_test, test@), b.per_test[test@]));
            }
            return None;
        }
        all.per_test.insert(test, bucket);
        proof {
            assert(all@.per_test =~= before.insert(test@, bucket@));
            assert forall|t: Seq<char>|
                #![trigger all@.per_test.contains_key(t)]
                unnamed(keys, i + 1, t) implies all@.per_test.contains_key(t)
                == a.per_test.contains_key(t) && (a.per_test.contains_key(t) ==> all@.per_test[t]
                == a.per_test[t]) by {
                assert(keys[i as int] != t);
                assert(unnamed(keys, i as int, t));
                assert(before.contains_key(t) == a.per_test.contains_key(t));
            }
        }
        i = i + 1;
    }
    proof {
        assert forall|t: Seq<char>| #[trigger] b.per_test.contains_key(t) implies sums_fit(
            bucket_at(a.per_test, t),
            b.per_test[t],
        ) && exists|j: int| 0 <= j < keys.len() && #[trigger] keys[j] == t by {
            lemma_key_listed(from.per_test, t);
            let j = choose|j: int| 0 <= j < keys.len() && #[trigger] keys[j] == t;
            assert(keys[j] == t);
        }
        assert forall|t: Seq<char>| #[trigger]
            all@.per_test.contains_key(t) == merged(a, b).per_test.contains_key(t) && (
            all@.per_test.contains_key(t) ==> all@.per_test[t] == merged(a, b).per_test[t]) by {
            if b.per_test.contains_key(t) {
                let j = choose|j: int| 0 <= j < keys.len() && #[trigger] keys[j] == t;
                assert(keys[j] == t);
            } else {
                assert forall|j: int| 0 <= j < keys.len() implies #[trigger] keys[j] != t by {
                    assert(from.per_test@.dom().contains(keys[j]));
                }
                assert(unnamed(keys, keys.len() as int, t));
            }
        }
        assert(all@.per_test =~= merged(a, b).per_test);
    }
    Some(all)
}

proof fn lemma_key_listed(m: TextMap<HashMap<u32, u64>>, t: Seq<char>)
    requires
        m@.contains_key(t),
    ensures
        exists|j: int| 0 <= j < m.keys().len() && #[trigger] m.keys()[j] == t,
{
    assert(m.keys().contains(t));
    let j = m.keys().index_of(t);
    assert(m.keys()[j] == t);
}

/// Merging coverage loses no hit: a mutant's total is the sum of both totals
/// in the static bucket, and in the bucket of every test.
pub proof fn law_merging_adds_hits(
    a: crate::model::CoverageView,
    b: crate::model::CoverageView,
    id: u32,
    test: Seq<char>,
)
    requires
        merge_fits(a, b),
    ensures
        crate::model::hits_in(merged(a, b).static_hits, id) == crate::model::hits_in(
            a.static_hits,
            id,
        ) + crate::model::hits_in(b.static_hits, id),
        crate::model::hits_in(bucket_at(merged(a, b).per_test, test), id) == crate::model::hits_in(
            bucket_at(a.per_test, test),
            id,
        ) + crate::model::hits_in(bucket_at(b.per_test, test), id),
{
    lemma_sum(a.static_hits, b.static_hits, id);
    if b.per_test.contains_key(test) {
        lemma_sum(bucket_at(a.per_test, test), b.per_test[test], id);
    }
}

proof fn lemma_sum(a: Map<u32, u64>, b: Map<u32, u64>, id: u32)
    requires
        sums_fit(a, b),
    ensures
        crate::model::hits_in(summed(a, b), id) == crate::model::hits_in(a, id)
            + crate::model::hits_in(b, id),
{
    assert(crate::model::hits_in(a, id) + crate::model::hits_in(b, id) <= u64::MAX);
}

/// The hits that the buckets of some tests record for a mutant.
spec fn hits_at(m: Map<Seq<char>, Map<u32, u64>>, tests: Seq<Seq<char>>, id: u32) -> nat
    decreases tests.len(),
{
    if tests.len() == 0 {
        0
    } else {
        hits_at(m, tests.drop_last(), id) + crate::model::hits_in(bucket_at(m, tests.last()), id)
    }
}

proof fn lemma_hits_by_test(coverage: MutantCoverage, id: u32, n: int)
    requires
        crate::text_order::ascending(coverage.per_test.keys()),
        0 <= n <= coverage.per_test.keys().len(),
    ensures
        coverage.per_test.keys().len() == coverage.per_test.values().len(),
        crate::model::hits_in_all(coverage.per_test.values().take(n), id) == hits_at(
            coverage@.per_test,
            coverage.per_test.keys().take(n),
            id,
        ),
    decreases n,
{
    let tests = coverage.per_test.keys();
    let buckets = coverage.per_test.values();
    crate::text_map::law_entries_in_order(coverage.per_test);
    if n > 0 {
        lemma_hits_by_test(coverage, id, n - 1);
        assert(buckets.take(n).drop_last() =~= buckets.take(n - 1));
        assert(tests.take(n).drop_last() =~= tests.take(n - 1));
        assert(coverage.per_test@.dom().contains(tests[n - 1]));
    }
}

proof fn lemma_hits_summed(
    a: crate::model::CoverageView,
    b: crate::model::CoverageView,
    tests: Seq<Seq<char>>,
    id: u32,
)
    requires
        merge_fits(a, b),
    ensures
        hits_at(merged(a, b).per_test, tests, id) == hits_at(a.per_test, tests, id) + hits_at(
            b.per_test,
            tests,
            id,
        ),
    decreases tests.len(),
{
    if tests.len() > 0 {
        lemma_hits_summed(a, b, tests.drop_last(), id);
        law_merging_adds_hits(a, b, id, tests.last());
    }
}

proof fn lemma_hits_without(
    m: Map<Seq<char>, Map<u32, u64>>,
    tests: Seq<Seq<char>>,
    id: u32,
    i: int,
)
    requires
        0 <= i < tests.len(),
    ensures
        hits_at(m, tests, id) == hits_at(m, tests.remove(i), id) + crate::model::hits_in(
            bucket_at(m, tests[i]),
            id,
        ),
    decreases tests.len(),
{
    if i == tests.len() - 1 {
        assert(tests.remove(i) =~= tests.drop_last());
    } else {
        lemma_hits_without(m, tests.drop_last(), id, i);
        assert(tests.remove(i).drop_last() =~= tests.drop_last().remove(i));
    }
}

/// Tests without a bucket add no hits.
proof fn lemma_hits_of_more_tests(
    m: Map<Seq<char>, Map<u32, u64>>,
    own: Seq<Seq<char>>,
    all: Seq<Seq<char>>,
    id: u32,
)
    requires
        own.no_duplicates(),
        all.no_duplicates(),
        forall|t: Seq<char>| #[trigger] own.contains(t) ==> all.contains(t),
        forall|t: Seq<char>|
            all.contains(t) && !(#[trigger] own.contains(t)) ==> !m.contains_key(t),
    ensures
        hits_at(m, all, id) == hits_at(m, own, id),
    decreases all.len(),
{
    if all.len() == 0 {
        if own.len() > 0 {
            assert(own.contains(own[0]));
        }
    } else {
        let t = all.last();
        let rest = all.drop_last();
        assert(all.contains(t));
        assert(!rest.contains(t)) by {
            if rest.contains(t) {
                let j = rest.index_of(t);
                assert(all[j] == all[all.len() - 1]);
            }
        }
        assert forall|x: Seq<char>| x != t && all.contains(x) implies #[trigger] rest.contains(x) by {
            let j = all.index_of(x);
            assert(rest[j] == x);
        }
        assert forall|x: Seq<char>| #[trigger] rest.contains(x) implies all.contains(x) by {
            let j = rest.index_of(x);
            assert(all[j] == x);
        }
        if own.contains(t) {
            let i = own.index_of(t);
            let less = own.remove(i);
            lemma_hits_without(m, own, id, i);
            assert forall|x: Seq<char>| #[trigger] less.contains(x) <==> own.contains(x) && x
                != t by {
                if less.contains(x) {
                    let j = less.index_of(x);
                    if j < i {
                        assert(own[j] == x);
                    } else {
                        assert(own[j + 1] == x);
                    }
                }
                if own.contains(x) && x != t {
                    let j = own.index_of(x);
                    if j < i {
                        assert(less[j] == x);
                    } else {
                        assert(less[j - 1] == x);
                    }
                }
            }
            assert(less.no_duplicates());
            lemma_hits_of_more_tests(m, less, rest, id);
        } else {
            assert forall|x: Seq<char>| #[trigger] own.contains(x) implies rest.contains(x) by {
                assert(all.contains(x));
            }
            lemma_hits_of_more_tests(m, own, rest, id);
        }
    }
}

proof fn lemma_total(coverage: MutantCoverage, all: Seq<Seq<char>>, id: u32)
    requires
        crate::text_order::ascending(coverage.per_test.keys()),
        all.no_duplicates(),
        forall|t: Seq<char>| #[trigger] coverage@.per_test.contains_key(t) ==> all.contains(t),
    ensures
        crate::model::hits_in_all(coverage.per_test.values(), id) == hits_at(
            coverage@.per_test,
            all,
            id,
        ),
{
    let own = coverage.per_test.keys();
    crate::text_map::law_entries_in_order(coverage.per_test);
    lemma_hits_by_test(coverage, id, own.len() as int);
    assert(own.take(own.len() as int) =~= own);
    assert(coverage.per_test.values().take(own.len() as int) =~= coverage.per_test.values());
    assert forall|t: Seq<char>| #[trigger] own.contains(t) implies all.contains(t) by {
        assert(coverage@.per_test.contains_key(t));
    }
    lemma_hits_of_more_tests(coverage@.per_test, own, all, id);
}

proof fn lemma_covering(coverage: MutantCoverage, id: u32, n: int, test: Seq<char>)
    requires
        crate::text_order::ascending(coverage.per_test.keys()),
        0 <= n <= coverage.per_test.keys().len(),
    ensures
        coverage.per_test.keys().len() == coverage.per_test.values().len(),
        crate::model::covering(
            coverage.per_test.keys().take(n),
            coverage.per_test.values().take(n),
            id,
        ).contains(test) <==> coverage.per_test.keys().take(n).contains(test) && bucket_at(
            coverage@.per_test,
            test,
        ).contains_key(id),
    decreases n,
{
    let tests = coverage.per_test.keys();
    let buckets = coverage.per_test.values();
    crate::text_map::law_entries_in_order(coverage.per_test);
    if n > 0 {
        lemma_covering(coverage, id, n - 1, test);
        assert(buckets.take(n).drop_last() =~= buckets.take(n - 1));
        assert(tests.take(n).drop_last() =~= tests.take(n - 1));
        assert(coverage.per_test@.dom().contains(tests[n - 1]));
        assert(bucket_at(coverage@.per_test, tests[n - 1]) == buckets[n - 1]@);
        let front = crate::model::covering(tests.take(n - 1), buckets.take(n - 1), id);
        let list = crate::model::covering(tests.take(n), buckets.take(n), id);
        assert(tests.take(n).last() == tests[n - 1] && buckets.take(n).last() == buckets[n - 1]);
        if front.contains(test) {
            let j = front.index_of(test);
            assert(list[j] == test);
        }
        if list.contains(test) && !front.contains(test) {
            let j = list.index_of(test);
            if j < front.len() {
                assert(front[j] == test);
            }
            assert(test == tests[n - 1]);
        }
        if tests.take(n).contains(test) {
            let j = tests.take(n).index_of(test);
            if j < n - 1 {
                assert(tests.take(n - 1)[j] == test);
            } else if buckets[n - 1]@.contains_key(id) {
                assert(list[list.len() - 1] == test);
            }
        }
        if tests.take(n - 1).contains(test) {
            let j = tests.take(n - 1).index_of(test);
            assert(tests.take(n)[j] == test);
        }
        if list.contains(test) && test == tests[n - 1] {
            assert(tests.take(n)[n - 1] == test);
            if !buckets[n - 1]@.contains_key(id) {
                assert(list == front);
            }
        }
    } else {
        assert(tests.take(0).len() == 0);
    }
}

proof fn lemma_covered(coverage: MutantCoverage, id: crate::model::MutantId, test: Seq<char>)
    requires
        crate::text_order::ascending(coverage.per_test.keys()),
    ensures
        coverage.covered(id).contains(test) <==> bucket_at(coverage@.per_test, test).contains_key(
            id.0,
        ),
{
    let n = coverage.per_test.keys().len() as int;
    lemma_covering(coverage, id.0, n, test);
    assert(coverage.per_test.keys().take(n) =~= coverage.per_test.keys());
    assert(coverage.per_test.values().take(n) =~= coverage.per_test.values());
    if bucket_at(coverage@.per_test, test).contains_key(id.0) {
        assert(coverage@.per_test.contains_key(test));
    }
}

/// The coverage of two runs together has the tests of both. For every mutant it
/// has the hits of both, is static where one of them is, and lists the tests
/// that either lists.
pub proof fn law_merged_totals_add_up(
    a: MutantCoverage,
    b: MutantCoverage,
    all: MutantCoverage,
    id: crate::model::MutantId,
)
    requires
        crate::text_order::ascending(a.per_test.keys()),
        crate::text_order::ascending(b.per_test.keys()),
        crate::text_order::ascending(all.per_test.keys()),
        merge_fits(a@, b@),
        all@ == merged(a@, b@),
    ensures
        all.hits(id) == a.hits(id) + b.hits(id),
        all.static_hits@.dom().contains(id.0) == (a.static_hits@.dom().contains(id.0)
            || b.static_hits@.dom().contains(id.0)),
        forall|t: Seq<char>| #[trigger]
            all.covered(id).contains(t) <==> a.covered(id).contains(t) || b.covered(id).contains(t),
        all@.per_test.dom() == a@.per_test.dom().union(b@.per_test.dom()),
{
    let tests = all.per_test.keys();
    crate::text_map::law_entries_in_order(all.per_test);
    assert forall|t: Seq<char>| #[trigger] all@.per_test.contains_key(t) implies tests.contains(
        t,
    ) by {
        lemma_key_listed(all.per_test, t);
    }
    assert forall|t: Seq<char>| #[trigger] a@.per_test.contains_key(t) implies tests.contains(
        t,
    ) by {
        assert(all@.per_test.contains_key(t));
    }
    assert forall|t: Seq<char>| #[trigger] b@.per_test.contains_key(t) implies tests.contains(
        t,
    ) by {
        assert(all@.per_test.contains_key(t));
    }
    lemma_total(all, tests, id.0);
    lemma_total(a, tests, id.0);
    lemma_total(b, tests, id.0);
    lemma_hits_summed(a@, b@, tests, id.0);
    lemma_sum(a.static_hits@, b.static_hits@, id.0);
    assert forall|t: Seq<char>| #[trigger]
        all.covered(id).contains(t) <==> a.covered(id).contains(t) || b.covered(id).contains(t) by {
        lemma_covered(all, id, t);
        lemma_covered(a, id, t);
        lemma_covered(b, id, t);
    }
    assert(all@.per_test.dom() =~= a@.per_test.dom().union(b@.per_test.dom()));
}

proof fn lemma_overwritten(
    base: Map<u32, u64>,
    keys: Seq<Seq<char>>,
    hits: Seq<u64>,
    id: u32,
)
    requires
        keys.len() == hits.len(),
    ensures
        overwritten(base, keys, hits).contains_key(id) <==> base.contains_key(id) || exists|i: int|
            0 <= i < keys.len() && crate::text::parsed(#[trigger] keys[i], u32::MAX as nat) == Some(
                id as nat,
            ),
        base.contains_key(id) && !(exists|i: int|
            0 <= i < keys.len() && crate::text::parsed(#[trigger] keys[i], u32::MAX as nat) == Some(
                id as nat,
            )) ==> overwritten(base, keys, hits)[id] == base[id],
        (exists|i: int|
            0 <= i < keys.len() && crate::text::parsed(#[trigger] keys[i], u32::MAX as nat) == Some(
                id as nat,
            )) ==> exists|i: int|
            0 <= i < keys.len() && crate::text::parsed(#[trigger] keys[i], u32::MAX as nat) == Some(
                id as nat,
            ) && overwritten(base, keys, hits)[id] == hits[i],
    decreases keys.len(),
{
    if keys.len() > 0 {
        let front = keys.drop_last();
        lemma_overwritten(base, front, hits.drop_last(), id);
        lemma_parsed_fits(keys.last());
        let before = overwritten(base, front, hits.drop_last());
        let all = overwritten(base, keys, hits);
        if exists|i: int|
            0 <= i < front.len() && crate::text::parsed(#[trigger] front[i], u32::MAX as nat)
                == Some(id as nat) {
            let i = choose|i: int|
                0 <= i < front.len() && crate::text::parsed(#[trigger] front[i], u32::MAX as nat)
                    == Some(id as nat);
            assert(keys[i] == front[i]);
        }
        if exists|i: int|
            0 <= i < keys.len() && crate::text::parsed(#[trigger] keys[i], u32::MAX as nat)
                == Some(id as nat) {
            let i = choose|i: int|
                0 <= i < keys.len() && crate::text::parsed(#[trigger] keys[i], u32::MAX as nat)
                    == Some(id as nat);
            if i < front.len() {
                assert(front[i] == keys[i]);
            }
        }
        assert(keys[keys.len() - 1] == keys.last());
        if crate::text::parsed(keys.last(), u32::MAX as nat) == Some(id as nat) {
            assert(all[id] == hits[keys.len() - 1]);
        } else if exists|i: int|
            0 <= i < front.len() && crate::text::parsed(#[trigger] front[i], u32::MAX as nat)
                == Some(id as nat) {
            let i = choose|i: int|
                0 <= i < front.len() && crate::text::parsed(#[trigger] front[i], u32::MAX as nat)
                    == Some(id as nat) && before[id] == hits.drop_last()[i];
            assert(keys[i] == front[i]);
            assert(hits[i] == hits.drop_last()[i]);
        }
    }
}

proof fn lemma_parsed_fits(text: Seq<char>)
    ensures
        crate::text::parsed(text, u32::MAX as nat) matches Some(n) ==> n <= u32::MAX,
{
}

/// The counters of a test go into the bucket of that test alone: a mutant is there
/// afterwards where it was before or where a counter names it by its number, and
/// what a counter names has the hits of one that does.
pub proof fn law_counters_go_to_their_test(
    m: Map<Seq<char>, Map<u32, u64>>,
    test: Seq<char>,
    counters: TextMap<u64>,
    other: Seq<char>,
    id: u32,
)
    requires
        counters.keys().len() == counters.values().len(),
    ensures
        ({
            let all = with_counters(m, test, counters);
            let keys = counters.keys();
            let named = exists|i: int|
                0 <= i < keys.len() && crate::text::parsed(#[trigger] keys[i], u32::MAX as nat)
                    == Some(id as nat);
            &&& all.contains_key(other) <==> m.contains_key(other) || other == test
            &&& other != test && m.contains_key(other) ==> all[other] == m[other]
            &&& all[test].contains_key(id) <==> named || (m.contains_key(test)
                && m[test].contains_key(id))
            &&& named ==> exists|i: int|
                0 <= i < keys.len() && crate::text::parsed(#[trigger] keys[i], u32::MAX as nat)
                    == Some(id as nat) && all[test][id] == counters.values()[i]
            &&& !named && m.contains_key(test) && m[test].contains_key(id) ==> all[test][id]
                == m[test][id]
        }),
{
    lemma_overwritten(bucket_at(m, test), counters.keys(), counters.values(), id);
}

} // verus!
