use vstd::prelude::*;
use crate::text::{lex_lt, strs_view, compare_str, TextOrder, lemma_lex_lt_transitive,
    lemma_lex_lt_irreflexive};

verus! {

/// Keys are in strictly increasing order.
pub open spec fn strictly_sorted(ks: Seq<Seq<char>>) -> bool {
    forall|i: int, j: int| 0 <= i < j < ks.len() ==> lex_lt(#[trigger] ks[i], #[trigger] ks[j])
}

/// A map keyed by strings whose entries are kept in increasing key order, as a
/// `BTreeMap<String, V>` keeps them: walking the entries by index visits the
/// keys in the order of `String`.
pub struct StrMap<V> {
    pub keys: Vec<String>,
    pub vals: Vec<V>,
}

impl<V> View for StrMap<V> {
    type V = Map<Seq<char>, V>;

    /// The map that the entries denote.
    open spec fn view(&self) -> Map<Seq<char>, V> {
        Map::new(
            |k: Seq<char>| self.key_seq().contains(k),
            |k: Seq<char>| self.vals@[self.index_of(k)],
        )
    }
}

impl<V> StrMap<V> {
    /// The keys, in increasing order.
    pub open spec fn key_seq(&self) -> Seq<Seq<char>> {
        strs_view(self.keys@)
    }

    /// The values, in the order of their keys.
    pub open spec fn val_seq(&self) -> Seq<V> {
        self.vals@
    }

    pub open spec fn wf(&self) -> bool {
        &&& self.keys@.len() == self.vals@.len()
        &&& strictly_sorted(self.key_seq())
    }

    pub open spec fn spec_len(&self) -> nat {
        self.keys@.len()
    }

    /// The position of key `k`.
    pub open spec fn index_of(&self, k: Seq<char>) -> int {
        self.key_seq().index_of(k)
    }


    /// The entry at position `i` is found under its key.
    pub proof fn lemma_lookup(&self, i: int)
        requires
            self.wf(),
            0 <= i < self.spec_len(),
        ensures
            self.index_of(self.key_seq()[i]) == i,
            self@.contains_key(self.key_seq()[i]),
            self@[self.key_seq()[i]] == self.val_seq()[i],
    {
        let k = self.key_seq()[i];
        assert(self.key_seq().contains(k));
        let j = self.index_of(k);
        assert(0 <= j < self.key_seq().len() && self.key_seq()[j] == k);
        if j < i {
            lemma_lex_lt_irreflexive(k);
        } else if i < j {
            lemma_lex_lt_irreflexive(k);
        }
    }

    /// A key that is present sits at its position.
    pub proof fn lemma_index_of(&self, k: Seq<char>)
        requires
            self.wf(),
            self@.contains_key(k),
        ensures
            0 <= self.index_of(k) < self.spec_len(),
            self.key_seq()[self.index_of(k)] == k,
    {
    }

    /// Changing the value at one position changes the map only under that key.
    pub proof fn lemma_set_value(&self, new: Self, i: int)
        requires
            self.wf(),
            0 <= i < self.spec_len(),
            new.keys@ == self.keys@,
            new.vals@ == self.vals@.update(i, new.vals@[i]),
        ensures
            new.wf(),
            new@ == self@.insert(self.key_seq()[i], new.vals@[i]),
    {
        assert(new.key_seq() == self.key_seq());
        self.lemma_lookup(i);
        assert forall|k: Seq<char>| #[trigger] new@.contains_key(k) implies new@[k] == self@.insert(
            self.key_seq()[i],
            new.vals@[i],
        )[k] by {
            let j = new.index_of(k);
            new.lemma_lookup(j);
            self.lemma_lookup(j);
        }
        assert(new@ =~= self@.insert(self.key_seq()[i], new.vals@[i]));
    }

    pub fn new() -> (m: Self)
        ensures
            m.wf(),
            m@ == Map::<Seq<char>, V>::empty(),
            m.spec_len() == 0,
    {
        let m = StrMap { keys: Vec::new(), vals: Vec::new() };
        assert(m@ =~= Map::<Seq<char>, V>::empty());
        m
    }

    pub fn len(&self) -> (n: usize)
        requires
            self.wf(),
        ensures
            n == self.spec_len(),
            n == self@.len(),
    {
        proof {
            self.lemma_len();
        }
        self.keys.len()
    }

    /// The number of keys of the map is the number of entries.
    pub proof fn lemma_len(&self)
        requires
            self.wf(),
        ensures
            self@.dom().finite(),
            self@.len() == self.spec_len(),
        decreases self.spec_len(),
    {
        let ks = self.key_seq();
        assert(ks.no_duplicates()) by {
            assert forall|i: int, j: int| 0 <= i < ks.len() && 0 <= j < ks.len() && i != j implies ks[i]
                != ks[j] by {
                if i < j {
                    assert(lex_lt(ks[i], ks[j]));
                    lemma_lex_lt_irreflexive(ks[i]);
                } else {
                    assert(lex_lt(ks[j], ks[i]));
                    lemma_lex_lt_irreflexive(ks[i]);
                }
            }
        }
        assert(self@.dom() =~= ks.to_set());
        ks.unique_seq_to_set();
    }

    /// The key at position `i`.
    pub fn key_at(&self, i: usize) -> (k: &String)
        requires
            self.wf(),
            i < self.spec_len(),
        ensures
            k@ == self.key_seq()[i as int],
    {
        &self.keys[i]
    }

    /// The value at position `i`.
    pub fn value_at(&self, i: usize) -> (v: &V)
        requires
            self.wf(),
            i < self.spec_len(),
        ensures
            *v == self.val_seq()[i as int],
    {
        &self.vals[i]
    }

    /// Where key `key` is, or where it would go.
    pub fn find(&self, key: &str) -> (r: Result<usize, usize>)
        requires
            self.wf(),
        ensures
            match r {
                Ok(i) => i < self.spec_len() && self.key_seq()[i as int] == key@,
                Err(p) => p <= self.spec_len() && (forall|j: int|
                    0 <= j < p ==> lex_lt(#[trigger] self.key_seq()[j], key@)) && (forall|j: int|
                    p <= j < self.spec_len() ==> lex_lt(key@, #[trigger] self.key_seq()[j])),
            },
            r is Ok <==> self@.contains_key(key@),
    {
        let mut i: usize = 0;
        while i < self.keys.len()
            invariant
                self.wf(),
                i <= self.spec_len(),
                forall|j: int| 0 <= j < i ==> lex_lt(#[trigger] self.key_seq()[j], key@),
            decreases self.spec_len() - i,
        {
            match compare_str(self.keys[i].as_str(), key) {
                TextOrder::Less => {},
                TextOrder::Equal => {
                    proof {
                        self.lemma_lookup(i as int);
                    }
                    return Ok(i);
                },
                TextOrder::Greater => {
                    proof {
                        assert forall|j: int| i <= j < self.spec_len() implies lex_lt(
                            key@,
                            #[trigger] self.key_seq()[j],
                        ) by {
                            if i < j {
                                lemma_lex_lt_transitive(key@, self.key_seq()[i as int], self.key_seq()[j]);
                            }
                        }
                        if self@.contains_key(key@) {
                            let j = self.index_of(key@);
                            if j < i {
                                lemma_lex_lt_irreflexive(key@);
                            } else {
                                lemma_lex_lt_irreflexive(key@);
                            }
                        }
                    }
                    return Err(i);
                },
            }
            i = i + 1;
        }
        proof {
            if self@.contains_key(key@) {
                let j = self.index_of(key@);
                lemma_lex_lt_irreflexive(key@);
            }
        }
        Err(i)
    }

    pub fn contains_key(&self, key: &str) -> (r: bool)
        requires
            self.wf(),
        ensures
            r == self@.contains_key(key@),
    {
        self.find(key).is_ok()
    }

    pub fn get(&self, key: &str) -> (r: Option<&V>)
        requires
            self.wf(),
        ensures
            match r {
                Some(v) => self@.contains_key(key@) && *v == self@[key@],
                None => !self@.contains_key(key@),
            },
    {
        match self.find(key) {
            Ok(i) => {
                proof {
                    self.lemma_lookup(i as int);
                }
                Some(&self.vals[i])
            },
            Err(_) => None,
        }
    }

    /// Sets the value under `key`, adding the key when it is new.
    pub fn insert(&mut self, key: String, value: V)
        requires
            old(self).wf(),
        ensures
            final(self).wf(),
            final(self)@ == old(self)@.insert(key@, value),
    {
        let ghost old_map = self@;
        let ghost old_keys = self.key_seq();
        let ghost old_vals = self.val_seq();
        match self.find(key.as_str()) {
            Ok(i) => {
                proof {
                    self.lemma_lookup(i as int);
                }
                self.vals.set(i, value);
                proof {
                    assert(self.key_seq() == old_keys);
                    assert forall|k: Seq<char>| #[trigger] self@.contains_key(k) implies self@[k]
                        == old_map.insert(key@, value)[k] by {
                        let j = self.index_of(k);
                        self.lemma_lookup(j);
                        if j != i {
                            old(self).lemma_lookup(j);
                        }
                    }
                    assert(self@ =~= old_map.insert(key@, value));
                }
            },
            Err(p) => {
                self.keys.insert(p, key);
                self.vals.insert(p, value);
                proof {
                    assert(self.key_seq() =~= old_keys.insert(p as int, key@));
                    let ks = self.key_seq();
                    assert forall|a: int, b: int| 0 <= a < b < ks.len() implies lex_lt(
                        #[trigger] ks[a],
                        #[trigger] ks[b],
                    ) by {
                        if b < p {
                        } else if b == p {
                        } else if a < p {
                            assert(lex_lt(old_keys[a], key@));
                            assert(lex_lt(key@, old_keys[b - 1]));
                            lemma_lex_lt_transitive(old_keys[a], key@, old_keys[b - 1]);
                        } else if a == p {
                        } else {
                        }
                    }
                    assert forall|k: Seq<char>| #[trigger]
                        self@.contains_key(k) == old_map.insert(key@, value).contains_key(k) by {
                        if self@.contains_key(k) {
                            let j = self.index_of(k);
                            if j < p {
                                assert(old_keys[j] == k);
                                old(self).lemma_lookup(j);
                            } else if j > p {
                                assert(old_keys[j - 1] == k);
                                old(self).lemma_lookup(j - 1);
                            }
                        }
                        if old_map.contains_key(k) {
                            let j = old(self).index_of(k);
                            if j < p {
                                assert(ks[j] == k);
                            } else {
                                assert(ks[j + 1] == k);
                            }
                        }
                        if k == key@ {
                            assert(ks[p as int] == k);
                        }
                    }
                    assert forall|k: Seq<char>| #[trigger] self@.contains_key(k) implies self@[k]
                        == old_map.insert(key@, value)[k] by {
                        let j = self.index_of(k);
                        self.lemma_lookup(j);
                        if j < p {
                            old(self).lemma_lookup(j);
                            assert(lex_lt(old_keys[j], key@));
                            if k == key@ {
                                lemma_lex_lt_irreflexive(k);
                            }
                        } else if j > p {
                            old(self).lemma_lookup(j - 1);
                            assert(lex_lt(key@, old_keys[j - 1]));
                            if k == key@ {
                                lemma_lex_lt_irreflexive(k);
                            }
                        }
                    }
                    assert(self@ =~= old_map.insert(key@, value));
                }
            },
        }
    }

    /// Removes `key` and its value, if present.
    pub fn remove(&mut self, key: &str)
        requires
            old(self).wf(),
        ensures
            final(self).wf(),
            final(self)@ == old(self)@.remove(key@),
    {
        let ghost old_map = self@;
        let ghost old_keys = self.key_seq();
        match self.find(key) {
            Ok(i) => {
                proof {
                    old(self).lemma_lookup(i as int);
                }
                self.keys.remove(i);
                self.vals.remove(i);
                proof {
                    assert(self.key_seq() =~= old_keys.remove(i as int));
                    let ks = self.key_seq();
                    assert forall|a: int, b: int| 0 <= a < b < ks.len() implies lex_lt(
                        #[trigger] ks[a],
                        #[trigger] ks[b],
                    ) by {
                        if b < i {
                        } else if a < i {
                            assert(ks[b] == old_keys[b + 1]);
                        } else {
                            assert(ks[a] == old_keys[a + 1]);
                            assert(ks[b] == old_keys[b + 1]);
                        }
                    }
                    assert forall|k: Seq<char>| #[trigger]
                        self@.contains_key(k) == old_map.remove(key@).contains_key(k) by {
                        if self@.contains_key(k) {
                            let j = self.index_of(k);
                            if j < i {
                                old(self).lemma_lookup(j);
                            } else {
                                old(self).lemma_lookup(j + 1);
                            }
                        }
                        if old_map.remove(key@).contains_key(k) {
                            let j = old(self).index_of(k);
                            if j < i {
                                assert(ks[j] == k);
                            } else if j > i {
                                assert(ks[j - 1] == k);
                            }
                        }
                    }
                    assert forall|k: Seq<char>| #[trigger] self@.contains_key(k) implies self@[k]
                        == old_map.remove(key@)[k] by {
                        let j = self.index_of(k);
                        self.lemma_lookup(j);
                        if j < i {
                            old(self).lemma_lookup(j);
                        } else {
                            old(self).lemma_lookup(j + 1);
                        }
                    }
                    assert(self@ =~= old_map.remove(key@));
                }
            },
            Err(_) => {
                assert(self@ =~= old_map.remove(key@));
            },
        }
    }
}

/// The entries of a map of strings, as pairs of character sequences in key order.
pub open spec fn str_entries(m: StrMap<String>) -> Seq<(Seq<char>, Seq<char>)> {
    Seq::new(m.spec_len(), |i: int| (m.key_seq()[i], m.vals@[i]@))
}

impl StrMap<String> {
    /// A copy of a map of strings.
    pub fn clone_map(&self) -> (r: StrMap<String>)
        ensures
            r.wf() == self.wf(),
            r.keys@ == self.keys@,
            r.vals@ == self.vals@,
            str_entries(r) == str_entries(*self),
    {
        let r = StrMap { keys: crate::text::clone_strings(&self.keys), vals: crate::text::clone_strings(&self.vals) };
        assert(str_entries(r) =~= str_entries(*self));
        r
    }
}

} // verus!
