//! An ordered map from texts to values, kept as a list of entries in ascending order of their keys.

use vstd::prelude::*;

use crate::order::ascending;
use crate::order::lemma_before_irreflexive;
use crate::order::lemma_before_total;
use crate::order::lemma_before_transitive;
use crate::order::rank;
use crate::order::text_before;
use crate::order::Rank;

verus! {

/// A map with text keys, walked in ascending order of the keys.
#[derive(Debug)]
pub struct StrMap<V> {
    entries: Vec<(String, V)>,
}

impl<V> View for StrMap<V> {
    type V = Map<Seq<char>, V>;

    closed spec fn view(&self) -> Map<Seq<char>, V> {
        Map::new(
            |k: Seq<char>| self.keys().contains(k),
            |k: Seq<char>| self.entries@[self.keys().index_of(k)].1,
        )
    }
}

impl<V> StrMap<V> {
    #[verifier::type_invariant]
    spec fn inv(self) -> bool {
        ascending(self.keys())
    }

    /// The keys in ascending order.
    pub closed spec fn keys(self) -> Seq<Seq<char>> {
        self.entries@.map_values(|e: (String, V)| e.0@)
    }

    /// Makes an empty map.
    pub fn new() -> (r: Self)
        ensures
            r@ == Map::<Seq<char>, V>::empty(),
            r.keys() == Seq::<Seq<char>>::empty(),
    {
        let r = StrMap { entries: Vec::new() };
        assert(r@ =~= Map::<Seq<char>, V>::empty());
        r
    }

    /// The number of entries.
    pub fn len(&self) -> (n: usize)
        ensures
            n == self.keys().len(),
            ascending(self.keys()),
            self@.dom() == self.keys().to_set(),
    {
        proof {
            use_type_invariant(self);
            assert(self@.dom() =~= self.keys().to_set());
        }
        self.entries.len()
    }

    /// The key of the entry at position `i`.
    pub fn key_at(&self, i: usize) -> (k: &String)
        requires
            i < self.keys().len(),
        ensures
            k@ == self.keys()[i as int],
    {
        &self.entries[i].0
    }

    /// The value of the entry at position `i`.
    pub fn value_at(&self, i: usize) -> (v: &V)
        requires
            i < self.keys().len(),
        ensures
            self@.dom().contains(self.keys()[i as int]),
            *v == self@[self.keys()[i as int]],
    {
        proof {
            use_type_invariant(self);
            lemma_index(self.keys(), i as int);
        }
        &self.entries[i].1
    }

    /// The position of the first entry whose key does not come before `key`.
    fn position(&self, key: &str) -> (i: usize)
        ensures
            i <= self.keys().len(),
            forall|j: int| 0 <= j < i ==> text_before(#[trigger] self.keys()[j], key@),
            forall|j: int|
                i <= j < self.keys().len() ==> !text_before(#[trigger] self.keys()[j], key@),
    {
        proof {
            use_type_invariant(self);
        }
        let mut lo: usize = 0;
        let mut hi: usize = self.entries.len();
        while lo < hi
            invariant
                lo <= hi <= self.keys().len(),
                self.keys().len() == self.entries@.len(),
                ascending(self.keys()),
                forall|j: int| 0 <= j < lo ==> text_before(#[trigger] self.keys()[j], key@),
                forall|j: int|
                    hi <= j < self.keys().len() ==> !text_before(#[trigger] self.keys()[j], key@),
            decreases hi - lo,
        {
            let mid: usize = lo + (hi - lo) / 2;
            let ghost m = self.keys()[mid as int];
            match rank(self.entries[mid].0.as_str(), key) {
                Rank::Before => {
                    proof {
                        assert forall|j: int| 0 <= j < mid + 1 implies text_before(
                            #[trigger] self.keys()[j],
                            key@,
                        ) by {
                            if j < mid {
                                lemma_before_transitive(self.keys()[j], m, key@);
                            }
                        }
                    }
                    lo = mid + 1;
                },
                _ => {
                    proof {
                        assert forall|j: int| mid <= j < self.keys().len() implies !text_before(
                            #[trigger] self.keys()[j],
                            key@,
                        ) by {
                            if mid < j && text_before(self.keys()[j], key@) {
                                lemma_before_transitive(m, self.keys()[j], key@);
                            }
                        }
                    }
                    hi = mid;
                },
            }
        }
        lo
    }

    /// The value stored under `key`.
    pub fn get(&self, key: &str) -> (r: Option<&V>)
        ensures
            match r {
                Some(v) => self@.dom().contains(key@) && *v == self@[key@],
                None => !self@.dom().contains(key@),
            },
    {
        let i: usize = self.position(key);
        proof {
            use_type_invariant(self);
            lemma_before_irreflexive(key@);
        }
        if i < self.entries.len() {
            if let Rank::Same = rank(self.entries[i].0.as_str(), key) {
                proof {
                    lemma_index(self.keys(), i as int);
                }
                return Some(&self.entries[i].1);
            }
        }
        proof {
            lemma_absent(self.keys(), key@, i as int);
        }
        None
    }

    /// Tells whether there is an entry under `key`.
    pub fn contains_key(&self, key: &str) -> (r: bool)
        ensures
            r == self@.dom().contains(key@),
    {
        self.get(key).is_some()
    }

    /// Stores `value` under `key`, in place of what was stored there before.
    pub fn insert(&mut self, key: String, value: V)
        ensures
            final(self)@ == old(self)@.insert(key@, value),
    {
        let i: usize = self.position(key.as_str());
        let ghost before = *self;
        let ghost ks = self.keys();
        proof {
            use_type_invariant(&*self);
            lemma_before_irreflexive(key@);
        }
        let mut entries: Vec<(String, V)> = Vec::new();
        std::mem::swap(&mut entries, &mut self.entries);
        let mut present = false;
        if i < entries.len() {
            if let Rank::Same = rank(entries[i].0.as_str(), key.as_str()) {
                present = true;
            }
        }
        let ghost k = key@;
        if present {
            entries.set(i, (key, value));
            proof {
                let after = StrMap { entries };
                assert(after.keys() =~= ks);
                assert(before.keys() =~= ks);
                lemma_index(ks, i as int);
                assert(after@ =~= before@.insert(k, value)) by {
                    assert forall|q: Seq<char>| ks.contains(q) && q != k implies after@[q]
                        == before@[q] by {
                        assert(ks.index_of(q) != i);
                    }
                }
            }
            self.entries = entries;
        } else {
            entries.insert(i, (key, value));
            proof {
                let after = StrMap { entries };
                assert(after.keys() =~= ks.insert(i as int, k));
                assert(before.keys() =~= ks);
                lemma_absent(ks, k, i as int);
                lemma_insert_ascending(ks, k, i as int);
                lemma_insert_contains(ks, k, i as int);
                lemma_index(after.keys(), i as int);
                assert(after@ =~= before@.insert(k, value)) by {
                    assert forall|q: Seq<char>| ks.contains(q) implies after@[q] == before@[q] by {
                        let j = ks.index_of(q);
                        let j2 = if j < i {
                            j
                        } else {
                            j + 1
                        };
                        assert(after.keys()[j2] == q);
                        lemma_index(after.keys(), j2);
                    }
                }
            }
            self.entries = entries;
        }
    }
}

impl<V: Clone> Clone for StrMap<V> {
    fn clone(&self) -> (r: Self)
        ensures
            r.keys() == self.keys(),
            r@.dom() == self@.dom(),
            forall|k: Seq<char>| #[trigger]
                r@.dom().contains(k) ==> cloned(self@[k], r@[k]),
    {
        proof {
            use_type_invariant(self);
        }
        let mut entries: Vec<(String, V)> = Vec::new();
        let mut i: usize = 0;
        while i < self.entries.len()
            invariant
                i <= self.entries@.len(),
                entries@.len() == i,
                forall|j: int|
                    0 <= j < i ==> (#[trigger] entries@[j]).0@ == self.entries@[j].0@ && cloned(
                        self.entries@[j].1,
                        entries@[j].1,
                    ),
            decreases self.entries@.len() - i,
        {
            entries.push((self.entries[i].0.clone(), self.entries[i].1.clone()));
            i += 1;
        }
        proof {
            let g = StrMap { entries };
            assert(g.keys() =~= self.keys());
        }
        let r = StrMap { entries };
        assert(r@.dom() =~= self@.dom());
        r
    }
}

impl<V> Default for StrMap<V> {
    fn default() -> (r: Self)
        ensures
            r@ == Map::<Seq<char>, V>::empty(),
            r.keys() == Seq::<Seq<char>>::empty(),
    {
        StrMap::new()
    }
}

proof fn lemma_index(keys: Seq<Seq<char>>, i: int)
    requires
        ascending(keys),
        0 <= i < keys.len(),
    ensures
        keys.contains(keys[i]),
        keys.index_of(keys[i]) == i,
{
    let j = keys.index_of(keys[i]);
    assert(keys.contains(keys[i]));
    lemma_before_irreflexive(keys[i]);
    if j < i {
        assert(text_before(keys[j], keys[i]));
    } else if i < j {
        assert(text_before(keys[i], keys[j]));
    }
}

proof fn lemma_absent(keys: Seq<Seq<char>>, key: Seq<char>, i: int)
    requires
        ascending(keys),
        0 <= i <= keys.len(),
        forall|j: int| 0 <= j < i ==> text_before(#[trigger] keys[j], key),
        forall|j: int| i <= j < keys.len() ==> !text_before(#[trigger] keys[j], key),
        i < keys.len() ==> keys[i] != key,
    ensures
        !keys.contains(key),
        forall|j: int| i <= j < keys.len() ==> text_before(key, #[trigger] keys[j]),
{
    lemma_before_irreflexive(key);
    assert forall|j: int| i <= j < keys.len() implies text_before(key, #[trigger] keys[j]) by {
        lemma_before_total(keys[i], key);
        if i < j {
            assert(text_before(keys[i], keys[j]));
            lemma_before_transitive(key, keys[i], keys[j]);
        }
    }
}

proof fn lemma_insert_ascending(keys: Seq<Seq<char>>, key: Seq<char>, i: int)
    requires
        ascending(keys),
        0 <= i <= keys.len(),
        forall|j: int| 0 <= j < i ==> text_before(#[trigger] keys[j], key),
        forall|j: int| i <= j < keys.len() ==> text_before(key, #[trigger] keys[j]),
    ensures
        ascending(keys.insert(i, key)),
{
    let s = keys.insert(i, key);
    assert forall|a: int, b: int| 0 <= a < b < s.len() implies text_before(s[a], s[b]) by {
        let x = if a < i {
            a
        } else {
            a - 1
        };
        let y = if b < i {
            b
        } else {
            b - 1
        };
        if a != i {
            assert(s[a] == keys[x]);
        }
        if b != i {
            assert(s[b] == keys[y]);
        }
    }
}

proof fn lemma_insert_contains(keys: Seq<Seq<char>>, key: Seq<char>, i: int)
    requires
        0 <= i <= keys.len(),
    ensures
        forall|q: Seq<char>|
            keys.insert(i, key).contains(q) <==> q == key || keys.contains(q),
{
    let s = keys.insert(i, key);
    assert(s[i] == key);
    assert forall|q: Seq<char>| keys.contains(q) implies s.contains(q) by {
        let j = keys.index_of(q);
        if j < i {
            assert(s[j] == q);
        } else {
            assert(s[j + 1] == q);
        }
    }
    assert forall|q: Seq<char>| s.contains(q) && q != key implies keys.contains(q) by {
        let j = s.index_of(q);
        if j < i {
            assert(keys[j] == q);
        } else {
            assert(keys[j - 1] == q);
        }
    }
}

/// Law: what was put under a key is what is found under it, and what stands under others stays.
pub proof fn law_put_and_found<V>(
    map: &mut StrMap<V>,
    key: String,
    value: V,
    r: (),
    after: &StrMap<V>,
    other: &str,
    found: Option<&V>,
)
    requires
        call_ensures(StrMap::<V>::insert, (map, key, value), r),
        after@ == final(map)@,
        call_ensures(StrMap::<V>::get, (after, other), found),
    ensures
        other@ == key@ ==> found == Some(&value),
        other@ != key@ ==> (found is Some <==> old(map)@.dom().contains(other@)),
        other@ != key@ ==> (found matches Some(v) ==> *v == old(map)@[other@]),
{
}

} // verus!
