//! A map from texts to values that keeps its entries in the order of their keys.
use vstd::prelude::*;

use crate::text::same;
use crate::text_order::comes_before;

verus! {

/// A map from texts to values, ordered by key.
pub struct TextMap<V> {
    items: Vec<(String, V)>,
}

impl<V> TextMap<V> {
    /// The keys in ascending order.
    pub closed spec fn keys(self) -> Seq<Seq<char>> {
        self.items@.map_values(|e: (String, V)| e.0@)
    }

    /// The values in the order of their keys.
    pub closed spec fn values(self) -> Seq<V> {
        self.items@.map_values(|e: (String, V)| e.1)
    }

    /// The map from keys to values.
    pub open spec fn view(&self) -> Map<Seq<char>, V> {
        pairs(self.keys(), self.values())
    }

    #[verifier::type_invariant]
    spec fn inv(self) -> bool {
        crate::text_order::ascending(self.keys())
    }
}

/// The map that gives each key the value of the same index.
pub open spec fn pairs<V>(keys: Seq<Seq<char>>, values: Seq<V>) -> Map<Seq<char>, V> {
    Map::new(|k: Seq<char>| keys.contains(k), |k: Seq<char>| values[keys.index_of(k)])
}

proof fn lemma_pairs_at<V>(keys: Seq<Seq<char>>, values: Seq<V>, i: int)
    requires
        crate::text_order::ascending(keys),
        keys.len() == values.len(),
        0 <= i < keys.len(),
    ensures
        keys.index_of(keys[i]) == i,
        pairs(keys, values).dom().contains(keys[i]),
        pairs(keys, values)[keys[i]] == values[i],
{
    assert(keys.contains(keys[i]));
    let j = keys.index_of(keys[i]);
    assert(0 <= j < keys.len() && keys[j] == keys[i]);
    if j < i {
        crate::text_order::lemma_before_asym(keys[j], keys[i]);
    } else if i < j {
        crate::text_order::lemma_before_asym(keys[i], keys[j]);
    }
}

/// With its keys in ascending order, as every map has them, a map gives each key
/// the value of the same index.
pub proof fn law_entries_in_order<V>(m: TextMap<V>)
    requires
        crate::text_order::ascending(m.keys()),
    ensures
        m.keys().len() == m.values().len(),
        m.keys().no_duplicates(),
        forall|i: int|
            0 <= i < m.keys().len() ==> m@.dom().contains(#[trigger] m.keys()[i])
                && m@[m.keys()[i]] == m.values()[i],
{
    assert forall|i: int| 0 <= i < m.keys().len() implies m@.dom().contains(#[trigger] m.keys()[i])
        && m@[m.keys()[i]] == m.values()[i] by {
        lemma_pairs_at(m.keys(), m.values(), i);
    }
    assert forall|i: int, j: int|
        0 <= i < m.keys().len() && 0 <= j < m.keys().len() && i != j implies m.keys()[i]
        != m.keys()[j] by {
        lemma_pairs_at(m.keys(), m.values(), i);
        lemma_pairs_at(m.keys(), m.values(), j);
    }
}

impl<V> TextMap<V> {
    /// The empty map.
    pub fn new() -> (r: Self)
        ensures
            r@ == Map::<Seq<char>, V>::empty(),
            r.keys() == Seq::<Seq<char>>::empty(),
            r.values() == Seq::<V>::empty(),
    {
        let r: TextMap<V> = TextMap { items: Vec::new() };
        proof {
            assert(r.keys() =~= Seq::<Seq<char>>::empty());
            assert(r.values() =~= Seq::<V>::empty());
            assert(r@ =~= Map::<Seq<char>, V>::empty());
        }
        r
    }

    /// How keys, values and the map hang together.
    pub fn facts(&self)
        ensures
            crate::text_order::ascending(self.keys()),
            self.keys().len() == self.values().len(),
            self.keys().no_duplicates(),
            forall|i: int|
                0 <= i < self.keys().len() ==> self@.dom().contains(#[trigger] self.keys()[i])
                    && self@[self.keys()[i]] == self.values()[i],
    {
        proof {
            use_type_invariant(self);
            law_entries_in_order(*self);
        }
    }

    /// The number of entries.
    pub fn len(&self) -> (r: usize)
        ensures
            r == self.keys().len(),
            r == self.values().len(),
    {
        self.items.len()
    }

    /// The key at index `i` of the order.
    pub fn key_at(&self, i: usize) -> (r: &String)
        requires
            i < self.keys().len(),
        ensures
            r@ == self.keys()[i as int],
    {
        &self.items[i].0
    }

    /// The value of the key at index `i` of the order.
    pub fn value_at(&self, i: usize) -> (r: &V)
        requires
            i < self.values().len(),
        ensures
            *r == self.values()[i as int],
    {
        &self.items[i].1
    }

    /// The first index whose key does not come before `key`.
    fn place(&self, key: &str) -> (r: usize)
        ensures
            r <= self.keys().len(),
            forall|i: int| 0 <= i < r ==> crate::text_order::before(#[trigger] self.keys()[i], key@),
            r < self.keys().len() ==> !crate::text_order::before(self.keys()[r as int], key@),
    {
        let mut i: usize = 0;
        while i < self.items.len()
            invariant
                i <= self.items@.len(),
                forall|j: int|
                    0 <= j < i ==> crate::text_order::before(#[trigger] self.keys()[j], key@),
            decreases self.items@.len() - i,
        {
            if !comes_before(self.items[i].0.as_str(), key) {
                return i;
            }
            i = i + 1;
        }
        i
    }

    proof fn lemma_place(keys: Seq<Seq<char>>, key: Seq<char>, r: int)
        requires
            crate::text_order::ascending(keys),
            0 <= r <= keys.len(),
            forall|i: int| 0 <= i < r ==> crate::text_order::before(#[trigger] keys[i], key),
            r < keys.len() ==> !crate::text_order::before(keys[r], key),
        ensures
            keys.contains(key) <==> r < keys.len() && keys[r] == key,
            !keys.contains(key) ==> forall|i: int|
                r <= i < keys.len() ==> crate::text_order::before(key, #[trigger] keys[i]),
    {
        if r < keys.len() {
            crate::text_order::lemma_before_total(keys[r], key);
        }
        assert forall|i: int| 0 <= i < keys.len() && keys[i] == key implies i == r by {
            if i < r {
                crate::text_order::lemma_before_asym(keys[i], key);
            } else if i > r {
                assert(crate::text_order::before(keys[r], keys[i]));
            }
        }
        if !keys.contains(key) {
            assert forall|i: int| r <= i < keys.len() implies crate::text_order::before(
                key,
                #[trigger] keys[i],
            ) by {
                assert(keys.contains(keys[r]));
                assert(crate::text_order::before(key, keys[r]));
                if i > r {
                    crate::text_order::lemma_before_trans(key, keys[r], keys[i]);
                }
            }
        }
    }

    /// The value of `key`.
    pub fn get(&self, key: &str) -> (r: Option<&V>)
        ensures
            match r {
                Some(v) => self@.dom().contains(key@) && *v == self@[key@],
                None => !self@.dom().contains(key@),
            },
    {
        let p = self.place(key);
        proof {
            use_type_invariant(self);
            Self::lemma_place(self.keys(), key@, p as int);
            if p < self.keys().len() {
                lemma_pairs_at(self.keys(), self.values(), p as int);
            }
        }
        if p < self.items.len() && same(self.items[p].0.as_str(), key) {
            Some(&self.items[p].1)
        } else {
            None
        }
    }

    /// Whether `key` has a value.
    pub fn contains_key(&self, key: &str) -> (r: bool)
        ensures
            r == self@.dom().contains(key@),
    {
        self.get(key).is_some()
    }

    /// Gives `key` the value `value`, in place of the one it may have.
    pub fn insert(&mut self, key: String, value: V)
        ensures
            final(self)@ == old(self)@.insert(key@, value),
    {
        let p = self.place(key.as_str());
        proof {
            use_type_invariant(&*self);
            Self::lemma_place(self.keys(), key@, p as int);
        }
        let ghost keys = self.keys();
        let ghost values = self.values();
        let mut items: Vec<(String, V)> = Vec::new();
        std::mem::swap(&mut items, &mut self.items);
        let hit: bool = p < items.len() && same(items[p].0.as_str(), key.as_str());
        proof {
            assert(items@.map_values(|e: (String, V)| e.0@) == keys);
        }
        if hit {
            items.remove(p);
            items.insert(p, (key, value));
            proof {
                let new_keys = items@.map_values(|e: (String, V)| e.0@);
                let new_values = items@.map_values(|e: (String, V)| e.1);
                assert(new_keys =~= keys);
                assert(new_values =~= values.update(p as int, value));
                assert forall|i: int| 0 <= i < keys.len() implies pairs(new_keys, new_values)[
                #[trigger] keys[i]] == (if i == p { value } else { values[i] }) by {
                    lemma_pairs_at(new_keys, new_values, i);
                }
                assert forall|i: int| 0 <= i < keys.len() implies pairs(keys, values)[#[trigger] keys[i]]
                    == values[i] by {
                    lemma_pairs_at(keys, values, i);
                }
                assert forall|k: Seq<char>| keys.contains(k) implies #[trigger] pairs(
                    new_keys,
                    new_values,
                )[k] == pairs(keys, values).insert(key@, value)[k] by {
                    let i = keys.index_of(k);
                    assert(keys[i] == k);
                    if i != p && k == key@ {
                        lemma_pairs_at(keys, values, i);
                        lemma_pairs_at(keys, values, p as int);
                    }
                }
                assert(pairs(new_keys, new_values) =~= pairs(keys, values).insert(key@, value));
            }
        } else {
            items.insert(p, (key, value));
            proof {
                let new_keys = items@.map_values(|e: (String, V)| e.0@);
                let new_values = items@.map_values(|e: (String, V)| e.1);
                assert(new_keys =~= keys.insert(p as int, key@));
                assert(new_values =~= values.insert(p as int, value));
                assert(crate::text_order::ascending(new_keys));
                assert forall|k: Seq<char>|
                    #![trigger new_keys.contains(k)]
                    new_keys.contains(k) <==> (k == key@ || keys.contains(k)) by {
                    if keys.contains(k) {
                        let i = keys.index_of(k);
                        assert(keys[i] == k);
                        if i < p {
                            assert(new_keys[i] == k);
                        } else {
                            assert(new_keys[i + 1] == k);
                        }
                    }
                    assert(new_keys[p as int] == key@);
                    if new_keys.contains(k) {
                        let i = new_keys.index_of(k);
                        assert(new_keys[i] == k);
                        if i < p {
                            assert(keys[i] == k);
                        } else if i > p {
                            assert(keys[i - 1] == k);
                        }
                    }
                }
                assert forall|k: Seq<char>| new_keys.contains(k) implies #[trigger] pairs(
                    new_keys,
                    new_values,
                )[k] == pairs(keys, values).insert(key@, value)[k] by {
                    let i = new_keys.index_of(k);
                    assert(new_keys[i] == k);
                    lemma_pairs_at(new_keys, new_values, i);
                    if i < p {
                        assert(keys[i] == k);
                        lemma_pairs_at(keys, values, i);
                    } else if i > p {
                        assert(keys[i - 1] == k);
                        lemma_pairs_at(keys, values, i - 1);
                    }
                }
                assert(pairs(new_keys, new_values) =~= pairs(keys, values).insert(key@, value));
            }
        }
        self.items = items;
    }

    /// Takes `key` and its value out of the map.
    pub fn take(&mut self, key: &str) -> (r: Option<V>)
        ensures
            final(self)@ == old(self)@.remove(key@),
            match r {
                Some(v) => old(self)@.dom().contains(key@) && v == old(self)@[key@],
                None => !old(self)@.dom().contains(key@),
            },
    {
        let p = self.place(key);
        proof {
            use_type_invariant(&*self);
            Self::lemma_place(self.keys(), key@, p as int);
        }
        let ghost keys = self.keys();
        let ghost values = self.values();
        let mut items: Vec<(String, V)> = Vec::new();
        std::mem::swap(&mut items, &mut self.items);
        let hit: bool = p < items.len() && same(items[p].0.as_str(), key);
        if !hit {
            self.items = items;
            proof {
                assert(pairs(keys, values) =~= pairs(keys, values).remove(key@));
            }
            return None;
        }
        let (_, value) = items.remove(p);
        proof {
            lemma_pairs_at(keys, values, p as int);
            let new_keys = items@.map_values(|e: (String, V)| e.0@);
            let new_values = items@.map_values(|e: (String, V)| e.1);
            assert(new_keys =~= keys.remove(p as int));
            assert(new_values =~= values.remove(p as int));
            assert forall|i: int, j: int| 0 <= i < j < new_keys.len() implies crate::text_order::before(
                #[trigger] new_keys[i],
                #[trigger] new_keys[j],
            ) by {
                let a = if i < p { i } else { i + 1 };
                let b = if j < p { j } else { j + 1 };
                assert(new_keys[i] == keys[a] && new_keys[j] == keys[b]);
            }
            assert forall|k: Seq<char>|
                #![trigger new_keys.contains(k)]
                new_keys.contains(k) <==> (k != key@ && keys.contains(k)) by {
                if keys.contains(k) && k != key@ {
                    let i = keys.index_of(k);
                    assert(keys[i] == k);
                    if i < p {
                        assert(new_keys[i] == k);
                    } else {
                        assert(new_keys[i - 1] == k);
                    }
                }
                if new_keys.contains(k) {
                    let i = new_keys.index_of(k);
                    assert(new_keys[i] == k);
                    let a = if i < p { i } else { i + 1 };
                    assert(keys[a] == k);
                    lemma_pairs_at(keys, values, a);
                }
            }
            assert forall|k: Seq<char>| new_keys.contains(k) implies #[trigger] pairs(
                new_keys,
                new_values,
            )[k] == pairs(keys, values).remove(key@)[k] by {
                let i = new_keys.index_of(k);
                assert(new_keys[i] == k);
                lemma_pairs_at(new_keys, new_values, i);
                let a = if i < p { i } else { i + 1 };
                assert(keys[a] == k);
                lemma_pairs_at(keys, values, a);
            }
            assert(pairs(new_keys, new_values) =~= pairs(keys, values).remove(key@));
        }
        self.items = items;
        Some(value)
    }
}

} // verus!
