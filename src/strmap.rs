use vstd::prelude::*;
use crate::seqs::texts;

verus! {

/// An association list keyed by strings, with at most one entry per key.
pub struct StrMap<V> {
    keys: Vec<String>,
    vals: Vec<V>,
    contents: Ghost<Map<Seq<char>, V>>,
}

impl<V> View for StrMap<V> {
    type V = Map<Seq<char>, V>;

    closed spec fn view(&self) -> Map<Seq<char>, V> {
        self.contents@
    }
}

impl<V> StrMap<V> {
    /// The entries agree with the abstract map, and no key is stored twice.
    pub closed spec fn wf(&self) -> bool {
        &&& self.keys.len() == self.vals.len()
        &&& forall|i: int, j: int|
            0 <= i < j < self.keys.len() ==> #[trigger] self.keys@[i]@ != #[trigger] self.keys@[j]@
        &&& forall|i: int|
            #![trigger self.keys@[i]]
            0 <= i < self.keys.len() ==> self.contents@.contains_key(self.keys@[i]@)
                && self.contents@[self.keys@[i]@] == self.vals@[i]
        &&& forall|k: Seq<char>|
            #[trigger] self.contents@.contains_key(k) ==> exists|i: int|
                0 <= i < self.keys.len() && self.keys@[i]@ == k
    }

    pub fn new() -> (r: Self)
        ensures
            r.wf(),
            r@ == Map::<Seq<char>, V>::empty(),
    {
        StrMap { keys: Vec::new(), vals: Vec::new(), contents: Ghost(Map::empty()) }
    }

    pub fn len(&self) -> (r: usize)
        requires
            self.wf(),
        ensures
            r == self@.len(),
    {
        proof {
            self.lemma_dom_is_keys();
        }
        self.keys.len()
    }

    proof fn lemma_dom_is_keys(&self)
        requires
            self.wf(),
        ensures
            self@.dom() == self.keys@.map_values(|s: String| s@).to_set(),
            self.keys@.map_values(|s: String| s@).no_duplicates(),
            self@.dom().finite(),
            self@.len() == self.keys.len(),
    {
        let ks = self.keys@.map_values(|s: String| s@);
        assert(self@.dom() =~= ks.to_set()) by {
            assert forall|k: Seq<char>| self@.dom().contains(k) implies ks.to_set().contains(k) by {
                let i = choose|i: int| 0 <= i < self.keys.len() && self.keys@[i]@ == k;
                assert(ks[i] == k);
            }
            assert forall|k: Seq<char>| ks.to_set().contains(k) implies self@.dom().contains(k) by {
                let i = choose|i: int| 0 <= i < ks.len() && ks[i] == k;
                assert(self.keys@[i]@ == k);
            }
        }
        assert(ks.no_duplicates()) by {
            assert forall|i: int, j: int| 0 <= i < ks.len() && 0 <= j < ks.len() && i != j implies ks[i] != ks[j] by {
                if i < j {
                    assert(self.keys@[i]@ != self.keys@[j]@);
                } else {
                    assert(self.keys@[j]@ != self.keys@[i]@);
                }
            }
        }
        ks.unique_seq_to_set();
    }

    /// A well-formed map has finitely many keys.
    pub proof fn lemma_finite(&self)
        requires
            self.wf(),
        ensures
            self@.dom().finite(),
    {
        self.lemma_dom_is_keys();
    }

    /// Position of `k` among the stored keys.
    fn find(&self, k: &String) -> (r: Option<usize>)
        requires
            self.wf(),
        ensures
            match r {
                Some(i) => i < self.keys.len() && self.keys@[i as int]@ == k@,
                None => !self@.contains_key(k@),
            },
    {
        let mut i: usize = 0;
        while i < self.keys.len()
            invariant
                self.wf(),
                i <= self.keys.len(),
                forall|j: int| 0 <= j < i ==> self.keys@[j]@ != k@,
            decreases self.keys.len() - i,
        {
            if self.keys[i] == *k {
                return Some(i);
            }
            i = i + 1;
        }
        None
    }

    pub fn contains_key(&self, k: &String) -> (r: bool)
        requires
            self.wf(),
        ensures
            r == self@.contains_key(k@),
    {
        match self.find(k) {
            Some(_) => true,
            None => false,
        }
    }

    pub fn get(&self, k: &String) -> (r: Option<&V>)
        requires
            self.wf(),
        ensures
            match r {
                Some(v) => self@.contains_key(k@) && *v == self@[k@],
                None => !self@.contains_key(k@),
            },
    {
        match self.find(k) {
            Some(i) => Some(&self.vals[i]),
            None => None,
        }
    }

    /// Adds an entry for a key that is not yet present.
    fn push_new(&mut self, k: String, v: V)
        requires
            old(self).wf(),
            !old(self)@.contains_key(k@),
        ensures
            final(self).wf(),
            final(self)@ == old(self)@.insert(k@, v),
    {
        let ghost kv = k@;
        let ghost oldk = self.keys@;
        self.keys.push(k);
        self.vals.push(v);
        self.contents = Ghost(self.contents@.insert(kv, v));
        assert forall|j: int| 0 <= j < oldk.len() implies self.keys@[j]@ != kv by {
            assert(self.keys@[j] == oldk[j]);
            if oldk[j]@ == kv {
                assert(old(self)@.contains_key(oldk[j]@));
            }
        }
        assert forall|q: Seq<char>| #[trigger] self.contents@.contains_key(q) implies exists|i: int|
            0 <= i < self.keys.len() && self.keys@[i]@ == q by {
            if q == kv {
                assert(self.keys@[oldk.len() as int]@ == q);
            } else {
                assert(old(self)@.contains_key(q));
                let i = choose|i: int| 0 <= i < oldk.len() && oldk[i]@ == q;
                assert(self.keys@[i]@ == q);
            }
        }
    }

    /// Sets the value for `k`, adding the key if it is absent.
    pub fn insert(&mut self, k: String, v: V)
        requires
            old(self).wf(),
        ensures
            final(self).wf(),
            final(self)@ == old(self)@.insert(k@, v),
    {
        match self.find(&k) {
            Some(i) => {
                let ghost kv = k@;
                self.vals.set(i, v);
                self.contents = Ghost(self.contents@.insert(kv, v));
                assert forall|q: Seq<char>| #[trigger] self.contents@.contains_key(q) implies exists|j: int|
                    0 <= j < self.keys.len() && self.keys@[j]@ == q by {
                    if q == kv {
                        assert(self.keys@[i as int]@ == q);
                    } else {
                        assert(old(self)@.contains_key(q));
                    }
                }
                assert forall|j: int| #![trigger self.keys@[j]] 0 <= j < self.keys.len() implies self.contents@.contains_key(self.keys@[j]@)
                    && self.contents@[self.keys@[j]@] == self.vals@[j] by {
                    if j != i {
                        assert(self.keys@[j]@ != kv) by {
                            if j < i {
                                assert(self.keys@[j]@ != self.keys@[i as int]@);
                            } else {
                                assert(self.keys@[i as int]@ != self.keys@[j]@);
                            }
                        }
                    }
                }
            },
            None => {
                self.push_new(k, v);
            },
        }
    }

    /// Takes out the entry for `k`, if there is one.
    pub fn remove(&mut self, k: &String) -> (r: Option<V>)
        requires
            old(self).wf(),
        ensures
            final(self).wf(),
            final(self)@ == old(self)@.remove(k@),
            match r {
                Some(v) => old(self)@.contains_key(k@) && v == old(self)@[k@],
                None => !old(self)@.contains_key(k@),
            },
    {
        match self.find(k) {
            Some(i) => {
                let ghost kv = k@;
                let ghost oldk = self.keys@;
                let ghost oldv = self.vals@;
                let _ = self.keys.remove(i);
                let v = self.vals.remove(i);
                self.contents = Ghost(self.contents@.remove(kv));
                assert forall|j: int| #![trigger self.keys@[j]] 0 <= j < self.keys.len() implies self.contents@.contains_key(self.keys@[j]@)
                    && self.contents@[self.keys@[j]@] == self.vals@[j] by {
                    let o = if j < i { j } else { j + 1 };
                    assert(self.keys@[j] == oldk[o]);
                    assert(self.vals@[j] == oldv[o]);
                    assert(oldk[o]@ != kv) by {
                        if o < i {
                            assert(oldk[o]@ != oldk[i as int]@);
                        } else {
                            assert(oldk[i as int]@ != oldk[o]@);
                        }
                    }
                }
                assert forall|a: int, b: int|
                    0 <= a < b < self.keys.len() implies #[trigger] self.keys@[a]@ != #[trigger] self.keys@[b]@ by {
                    let oa = if a < i { a } else { a + 1 };
                    let ob = if b < i { b } else { b + 1 };
                    assert(self.keys@[a] == oldk[oa]);
                    assert(self.keys@[b] == oldk[ob]);
                    assert(oldk[oa]@ != oldk[ob]@);
                }
                assert forall|q: Seq<char>| #[trigger] self.contents@.contains_key(q) implies exists|j: int|
                    0 <= j < self.keys.len() && self.keys@[j]@ == q by {
                    assert(old(self)@.contains_key(q));
                    let o = choose|o: int| 0 <= o < oldk.len() && oldk[o]@ == q;
                    assert(o != i);
                    if o < i {
                        assert(self.keys@[o]@ == q);
                    } else {
                        assert(self.keys@[o - 1]@ == q);
                    }
                }
                Some(v)
            },
            None => {
                assert(self.contents@.remove(k@) =~= self.contents@);
                None
            },
        }
    }

    /// The stored keys, in storage order.
    pub fn keys(&self) -> (r: &Vec<String>)
        requires
            self.wf(),
        ensures
            texts(r@).no_duplicates(),
            forall|k: Seq<char>| #[trigger] self@.contains_key(k) <==> texts(r@).contains(k),
    {
        proof {
            self.lemma_dom_is_keys();
            assert forall|k: Seq<char>| #[trigger] self@.contains_key(k) <==> texts(self.keys@).contains(k) by {
                assert(self@.dom().contains(k) == texts(self.keys@).to_set().contains(k));
            }
        }
        &self.keys
    }
}

} // verus!
