//! A map keyed by strings whose entries are kept in lexicographic key order.
use vstd::prelude::*;
use crate::text::{compare_str, seq_lt, lemma_seq_lt_irreflexive, lemma_seq_lt_total, lemma_seq_lt_transitive};

verus! {

/// Whether a sequence of keys is strictly increasing.
pub open spec fn strictly_sorted(keys: Seq<Seq<char>>) -> bool {
    forall|i: int, j: int| 0 <= i < j < keys.len() ==> seq_lt(#[trigger] keys[i], #[trigger] keys[j])
}

/// The keys of a sequence of entries, in order.
pub open spec fn keys_of<T>(entries: Seq<(String, T)>) -> Seq<Seq<char>> {
    entries.map_values(|e: (String, T)| e.0@)
}

/// A finite map from strings to values. Its entries are held in strictly
/// increasing key order, so walking them lists the keys sorted.
pub struct StrMap<T> {
    entries: Vec<(String, T)>,
    contents: Ghost<Map<Seq<char>, T>>,
}

impl<T> View for StrMap<T> {
    type V = Map<Seq<char>, T>;

    closed spec fn view(&self) -> Map<Seq<char>, T> {
        self.contents@
    }
}

impl<T> StrMap<T> {
    #[verifier::type_invariant]
    spec fn inv(&self) -> bool {
        &&& strictly_sorted(self.keys())
        &&& forall|i: int| 0 <= i < self.entries@.len()
            ==> self.contents@.contains_key(#[trigger] self.entries@[i].0@)
                && self.contents@[self.entries@[i].0@] == self.entries@[i].1
        &&& forall|k: Seq<char>| #[trigger] self.contents@.contains_key(k) ==> self.keys().contains(k)
    }

    /// The keys, in the order the entries are held (increasing).
    pub closed spec fn keys(&self) -> Seq<Seq<char>> {
        keys_of(self.entries@)
    }

    pub fn new() -> (r: Self)
        ensures
            r@ == Map::<Seq<char>, T>::empty(),
            r.keys() == Seq::<Seq<char>>::empty(),
    {
        let r = StrMap { entries: Vec::new(), contents: Ghost(Map::empty()) };
        assert(r.keys() =~= Seq::<Seq<char>>::empty());
        r
    }

    /// The number of entries; also states how the key order relates to the map.
    pub fn len(&self) -> (r: usize)
        ensures
            r == self.keys().len(),
            strictly_sorted(self.keys()),
            forall|i: int| 0 <= i < self.keys().len() ==> self@.contains_key(#[trigger] self.keys()[i]),
            forall|k: Seq<char>| #[trigger] self@.contains_key(k) <==> self.keys().contains(k),
            self@.dom().len() == self.keys().len(),
    {
        proof {
            use_type_invariant(self);
            self.lemma_dom_len();
        }
        self.entries.len()
    }

    proof fn lemma_dom_len(&self)
        requires
            self.inv(),
        ensures
            self@.dom() == self.keys().to_set(),
            self@.dom().len() == self.keys().len(),
    {
        assert forall|i: int, j: int| 0 <= i < j < self.keys().len() implies self.keys()[i] != self.keys()[j] by {
            lemma_seq_lt_irreflexive(self.keys()[i]);
        }
        assert forall|i: int| 0 <= i < self.keys().len() implies self@.contains_key(#[trigger] self.keys()[i]) by {
            assert(self.keys()[i] == self.entries@[i].0@);
        }
        assert(self@.dom() =~= self.keys().to_set());
        self.keys().unique_seq_to_set();
    }

    /// The key of the entry at position `i`.
    pub fn key_at(&self, i: usize) -> (r: &String)
        requires
            i < self.keys().len(),
        ensures
            r@ == self.keys()[i as int],
    {
        &self.entries[i].0
    }

    /// The value of the entry at position `i`.
    pub fn value_at(&self, i: usize) -> (r: &T)
        requires
            i < self.keys().len(),
        ensures
            *r == self@[self.keys()[i as int]],
    {
        proof {
            use_type_invariant(self);
        }
        &self.entries[i].1
    }

    /// The first position whose key does not sort before `k`.
    fn position(&self, k: &str) -> (r: usize)
        ensures
            r <= self.keys().len(),
            forall|j: int| 0 <= j < r ==> seq_lt(#[trigger] self.keys()[j], k@),
            r < self.keys().len() ==> !seq_lt(self.keys()[r as int], k@),
    {
        let n = self.entries.len();
        let mut i: usize = 0;
        while i < n
            invariant
                n == self.keys().len(),
                i <= n,
                forall|j: int| 0 <= j < i ==> seq_lt(#[trigger] self.keys()[j], k@),
            decreases n - i,
        {
            let c = compare_str(self.entries[i].0.as_str(), k);
            if c >= 0 {
                return i;
            }
            i = i + 1;
        }
        i
    }

    /// Where `k` stands among the entries, if it is a key.
    pub fn find(&self, k: &str) -> (r: Option<usize>)
        ensures
            match r {
                Some(i) => i < self.keys().len() && self.keys()[i as int] == k@,
                None => !self@.contains_key(k@),
            },
            self@.contains_key(k@) == r.is_some(),
    {
        proof {
            use_type_invariant(self);
        }
        assert(self.keys().len() == self.entries@.len());
        let i = self.position(k);
        if i < self.entries.len() && compare_str(self.entries[i].0.as_str(), k) == 0 {
            assert(self.keys()[i as int] == self.entries@[i as int].0@);
            Some(i)
        } else {
            proof {
                if self@.contains_key(k@) {
                    assert(self.contents@.contains_key(k@));
                    assert(self.keys().contains(k@));
                    let j = choose|j: int| 0 <= j < self.keys().len() && self.keys()[j] == k@;
                    if j < i {
                        lemma_seq_lt_irreflexive(k@);
                    } else if j > i {
                        assert(seq_lt(self.keys()[i as int], self.keys()[j]));
                    }
                }
            }
            None
        }
    }

    pub fn contains_key(&self, k: &str) -> (r: bool)
        ensures
            r == self@.contains_key(k@),
    {
        self.find(k).is_some()
    }

    pub fn get(&self, k: &str) -> (r: Option<&T>)
        ensures
            match r {
                Some(v) => self@.contains_key(k@) && *v == self@[k@],
                None => !self@.contains_key(k@),
            },
    {
        match self.find(k) {
            Some(i) => Some(self.value_at(i)),
            None => None,
        }
    }

    /// Sets the value of `k`, replacing any value it had.
    pub fn insert(&mut self, k: String, v: T)
        ensures
            final(self)@ == old(self)@.insert(k@, v),
    {
        proof {
            use_type_invariant(&*self);
        }
        let i = self.position(k.as_str());
        let found = i < self.entries.len() && compare_str(self.entries[i].0.as_str(), k.as_str()) == 0;
        let mut taken = StrMap::new();
        std::mem::swap(self, &mut taken);
        let StrMap { mut entries, contents } = taken;
        let ghost old_keys = keys_of(entries@);
        let ghost kv = k@;
        let ghost new_map = contents@.insert(kv, v);
        if found {
            entries.set(i, (k, v));
        } else {
            entries.insert(i, (k, v));
        }
        let ghost new_keys = keys_of(entries@);
        proof {
            if found {
                assert(new_keys =~= old_keys.update(i as int, kv));
                assert forall|a: int, b: int| 0 <= a < b < new_keys.len() implies seq_lt(#[trigger] new_keys[a], #[trigger] new_keys[b]) by {
                    assert(old_keys[a] == new_keys[a] || a == i);
                }
                assert forall|kk: Seq<char>| new_map.contains_key(kk) implies new_keys.contains(kk) by {
                    if kk == kv {
                        assert(new_keys[i as int] == kv);
                    } else {
                        let j = choose|j: int| 0 <= j < old_keys.len() && old_keys[j] == kk;
                        assert(new_keys[j] == kk);
                    }
                }
            } else {
                assert(new_keys =~= old_keys.insert(i as int, kv));
                assert forall|a: int, b: int| 0 <= a < b < new_keys.len() implies seq_lt(#[trigger] new_keys[a], #[trigger] new_keys[b]) by {
                    if b == i {
                        assert(new_keys[a] == old_keys[a]);
                    } else if a == i {
                        assert(new_keys[b] == old_keys[b - 1]);
                        if b - 1 > i {
                            assert(seq_lt(old_keys[i as int], old_keys[b - 1]));
                            if old_keys[i as int] != kv {
                                lemma_seq_lt_total(old_keys[i as int], kv);
                                lemma_seq_lt_transitive(kv, old_keys[i as int], old_keys[b - 1]);
                            }
                        } else {
                            if old_keys[i as int] != kv {
                                lemma_seq_lt_total(old_keys[i as int], kv);
                            }
                        }
                    } else if a < i && b > i {
                        assert(new_keys[a] == old_keys[a]);
                        assert(new_keys[b] == old_keys[b - 1]);
                        assert(seq_lt(old_keys[a], kv));
                        if i < old_keys.len() {
                            assert(seq_lt(old_keys[a], old_keys[b - 1]) || a == b - 1);
                        }
                    } else if a > i {
                        assert(new_keys[a] == old_keys[a - 1]);
                        assert(new_keys[b] == old_keys[b - 1]);
                    } else {
                        assert(new_keys[a] == old_keys[a]);
                        assert(new_keys[b] == old_keys[b]);
                    }
                }
                assert forall|kk: Seq<char>| new_map.contains_key(kk) implies new_keys.contains(kk) by {
                    if kk == kv {
                        assert(new_keys[i as int] == kv);
                    } else {
                        let j = choose|j: int| 0 <= j < old_keys.len() && old_keys[j] == kk;
                        if j < i {
                            assert(new_keys[j] == kk);
                        } else {
                            assert(new_keys[j + 1] == kk);
                        }
                    }
                }
            }
            assert(new_keys[i as int] == kv);
            assert forall|a: int| 0 <= a < entries@.len() implies new_map.contains_key(#[trigger] entries@[a].0@)
                && new_map[entries@[a].0@] == entries@[a].1 by {
                if a != i {
                    assert(new_keys[a] == entries@[a].0@);
                    assert(new_keys[a] != kv) by {
                        lemma_seq_lt_irreflexive(kv);
                        if a < i {
                            assert(seq_lt(new_keys[a], new_keys[i as int]));
                        } else {
                            assert(seq_lt(new_keys[i as int], new_keys[a]));
                        }
                    }
                    if found {
                        assert(entries@[a] == old(self).entries@[a]);
                    } else if a < i {
                        assert(entries@[a] == old(self).entries@[a]);
                    } else {
                        assert(entries@[a] == old(self).entries@[a - 1]);
                    }
                }
            }
        }
        *self = StrMap { entries, contents: Ghost(new_map) };
    }

    /// Removes `k`, handing back the value it had.
    pub fn remove(&mut self, k: &str) -> (r: Option<T>)
        ensures
            final(self)@ == old(self)@.remove(k@),
            r == (if old(self)@.contains_key(k@) { Some(old(self)@[k@]) } else { None }),
    {
        proof {
            use_type_invariant(&*self);
        }
        match self.find(k) {
            None => {
                assert(self@.remove(k@) =~= self@);
                None
            },
            Some(i) => {
                let mut taken = StrMap::new();
                std::mem::swap(self, &mut taken);
                let StrMap { mut entries, contents } = taken;
                let ghost old_keys = keys_of(entries@);
                let ghost new_map = contents@.remove(k@);
                let (_, v) = entries.remove(i);
                let ghost new_keys = keys_of(entries@);
                proof {
                    assert(new_keys =~= old_keys.remove(i as int));
                    assert forall|a: int, b: int| 0 <= a < b < new_keys.len() implies seq_lt(#[trigger] new_keys[a], #[trigger] new_keys[b]) by {
                        if a < i && b >= i {
                            assert(new_keys[b] == old_keys[b + 1]);
                        }
                    }
                    assert forall|a: int| 0 <= a < entries@.len() implies new_map.contains_key(#[trigger] entries@[a].0@)
                        && new_map[entries@[a].0@] == entries@[a].1 by {
                        assert(new_keys[a] == entries@[a].0@);
                        if a < i {
                            assert(seq_lt(old_keys[a], old_keys[i as int]));
                        } else {
                            assert(seq_lt(old_keys[i as int], old_keys[a + 1]));
                        }
                        lemma_seq_lt_irreflexive(k@);
                    }
                    assert forall|kk: Seq<char>| new_map.contains_key(kk) implies new_keys.contains(kk) by {
                        let j = choose|j: int| 0 <= j < old_keys.len() && old_keys[j] == kk;
                        if j < i {
                            assert(new_keys[j] == kk);
                        } else {
                            assert(new_keys[j - 1] == kk);
                        }
                    }
                }
                assert(strictly_sorted(new_keys));
                assert(forall|kk: Seq<char>| new_map.contains_key(kk) ==> new_keys.contains(kk));
                *self = StrMap { entries, contents: Ghost(new_map) };
                Some(v)
            },
        }
    }
}

} // verus!
