//! A map keyed by strings, kept as an ordered list of distinct keys.
//!
//! Its abstract value is a `Map` from the keys' characters to the values; the
//! order in which entries are stored is the order in which they were first
//! inserted, and is visible through `key_seq` / `val_seq`.

use vstd::prelude::*;
use vstd::string::*;

verus! {

/// A finite map from strings to values, with insertion order.
#[derive(Clone, Debug)]
pub struct StringMap<V> {
    keys: Vec<String>,
    vals: Vec<V>,
}

impl<V> StringMap<V> {
    /// The stored keys, in order.
    pub closed spec fn key_seq(&self) -> Seq<Seq<char>> {
        self.keys@.map_values(|k: String| k@)
    }

    /// The stored values, in the order of their keys.
    pub closed spec fn val_seq(&self) -> Seq<V> {
        self.vals@
    }

    /// Well-formedness: one value per key, and no key stored twice.
    pub closed spec fn wf(&self) -> bool {
        &&& self.keys@.len() == self.vals@.len()
        &&& self.key_seq().no_duplicates()
    }
}

impl<V> View for StringMap<V> {
    type V = Map<Seq<char>, V>;

    closed spec fn view(&self) -> Map<Seq<char>, V> {
        Map::new(
            |k: Seq<char>| self.key_seq().contains(k),
            |k: Seq<char>| self.vals@[self.key_seq().index_of(k)],
        )
    }
}

impl<V> StringMap<V> {
    /// How the stored entries make up the map.
    pub proof fn lemma_view(&self)
        requires
            self.wf(),
        ensures
            self.key_seq().len() == self.val_seq().len(),
            self.key_seq().no_duplicates(),
            forall|i: int|
                0 <= i < self.key_seq().len() ==> #[trigger] self@.contains_key(self.key_seq()[i])
                    && self@[self.key_seq()[i]] == self.val_seq()[i],
            forall|k: Seq<char>| #[trigger] self@.contains_key(k) <==> self.key_seq().contains(k),
            self@.dom() == self.key_seq().to_set(),
            self@.dom().finite(),
            self@.len() == self.key_seq().len(),
    {
        let ks = self.key_seq();
        assert forall|i: int| 0 <= i < ks.len() implies #[trigger] self@.contains_key(ks[i])
            && self@[ks[i]] == self.val_seq()[i] by {
            assert(ks.contains(ks[i]));
            let j = ks.index_of(ks[i]);
            assert(0 <= j < ks.len() && ks[j] == ks[i]);
            assert(j == i);
        }
        assert(self@.dom() =~= ks.to_set());
        ks.unique_seq_to_set();
    }

    /// The entry at position `i` is in the map.
    pub proof fn lemma_entry(&self, i: int)
        requires
            self.wf(),
            0 <= i < self.key_seq().len(),
        ensures
            self@.contains_key(self.key_seq()[i]),
            self@[self.key_seq()[i]] == self.val_seq()[i],
    {
        self.lemma_view();
    }

    /// An empty map.
    pub fn new() -> (r: Self)
        ensures
            r.wf(),
            r@ == Map::<Seq<char>, V>::empty(),
            r.key_seq() == Seq::<Seq<char>>::empty(),
    {
        let r = StringMap { keys: Vec::new(), vals: Vec::new() };
        assert(r.key_seq() =~= Seq::<Seq<char>>::empty());
        assert(r@ =~= Map::<Seq<char>, V>::empty());
        r
    }

    /// The number of entries.
    pub fn len(&self) -> (r: usize)
        requires
            self.wf(),
        ensures
            r == self@.len(),
            r == self.key_seq().len(),
    {
        proof {
            self.lemma_view();
        }
        self.keys.len()
    }

    /// Whether the map has no entry.
    pub fn is_empty(&self) -> (r: bool)
        requires
            self.wf(),
        ensures
            r == (self@.len() == 0),
    {
        proof {
            self.lemma_view();
        }
        self.keys.len() == 0
    }

    /// The key stored at position `i`.
    pub fn key_at(&self, i: usize) -> (r: &String)
        requires
            self.wf(),
            i < self.key_seq().len(),
        ensures
            r@ == self.key_seq()[i as int],
    {
        &self.keys[i]
    }

    /// The value stored at position `i`.
    pub fn value_at(&self, i: usize) -> (r: &V)
        requires
            self.wf(),
            i < self.key_seq().len(),
        ensures
            *r == self.val_seq()[i as int],
    {
        &self.vals[i]
    }

    /// The position of key `k`, if it is stored.
    fn position(&self, k: &str) -> (r: Option<usize>)
        requires
            self.wf(),
        ensures
            match r {
                Some(i) => i < self.key_seq().len() && self.key_seq()[i as int] == k@,
                None => !self.key_seq().contains(k@),
            },
    {
        let key = String::from_str(k);
        let n = self.keys.len();
        for i in 0..n
            invariant
                n == self.keys@.len(),
                key@ == k@,
                forall|j: int| 0 <= j < i ==> self.key_seq()[j] != k@,
        {
            if self.keys[i] == key {
                return Some(i);
            }
        }
        None
    }

    /// Whether `k` has an entry.
    pub fn contains_key(&self, k: &str) -> (r: bool)
        requires
            self.wf(),
        ensures
            r == self@.contains_key(k@),
    {
        proof {
            self.lemma_view();
        }
        self.position(k).is_some()
    }

    /// The value of `k`, if it has one.
    pub fn get(&self, k: &str) -> (r: Option<&V>)
        requires
            self.wf(),
        ensures
            match r {
                Some(v) => self@.contains_key(k@) && *v == self@[k@],
                None => !self@.contains_key(k@),
            },
    {
        proof {
            self.lemma_view();
        }
        match self.position(k) {
            Some(i) => Some(&self.vals[i]),
            None => None,
        }
    }

    /// Sets the value of `k` to `v`; a new key goes after all others.
    pub fn insert(&mut self, k: String, v: V)
        requires
            old(self).wf(),
        ensures
            final(self).wf(),
            final(self)@ == old(self)@.insert(k@, v),
            old(self).key_seq().contains(k@) ==> final(self).key_seq() == old(self).key_seq(),
            !old(self).key_seq().contains(k@) ==> final(self).key_seq() == old(self).key_seq().push(
                k@,
            ),
    {
        proof {
            self.lemma_view();
        }
        let ghost old_self = *self;
        match self.position(k.as_str()) {
            Some(i) => {
                self.vals.set(i, v);
                assert(self.key_seq() =~= old_self.key_seq());
                proof {
                    self.lemma_view();
                }
                assert forall|q: Seq<char>| #[trigger]
                    self@.contains_key(q) implies self@[q] == old_self@.insert(k@, v)[q] by {
                    let j = self.key_seq().index_of(q);
                    assert(self.key_seq()[j] == q);
                    if j != i {
                        assert(old_self@[old_self.key_seq()[j]] == old_self.val_seq()[j]);
                    }
                }
                assert(self@ =~= old_self@.insert(k@, v));
            },
            None => {
                self.keys.push(k);
                self.vals.push(v);
                assert(self.key_seq() =~= old_self.key_seq().push(k@));
                assert(self.key_seq().no_duplicates()) by {
                    assert forall|a: int, b: int|
                        0 <= a < self.key_seq().len() && 0 <= b < self.key_seq().len() && a != b
                            implies self.key_seq()[a] != self.key_seq()[b] by {
                        if a == old_self.key_seq().len() as int {
                            assert(old_self.key_seq().contains(self.key_seq()[b]) || b == a);
                        } else if b == old_self.key_seq().len() as int {
                            assert(old_self.key_seq().contains(self.key_seq()[a]));
                        }
                    }
                }
                proof {
                    self.lemma_view();
                }
                assert forall|q: Seq<char>| #[trigger]
                    self@.contains_key(q) implies self@[q] == old_self@.insert(k@, v)[q] by {
                    let j = self.key_seq().index_of(q);
                    assert(self.key_seq()[j] == q);
                    if j < old_self.key_seq().len() {
                        assert(old_self@[old_self.key_seq()[j]] == old_self.val_seq()[j]);
                    }
                }
                assert forall|q: Seq<char>|
                    self@.contains_key(q) <==> #[trigger] old_self@.insert(k@, v).contains_key(q) by {
                    if old_self.key_seq().contains(q) {
                        let j = choose|j: int| 0 <= j < old_self.key_seq().len() && old_self.key_seq()[j] == q;
                        assert(self.key_seq()[j] == q);
                    }
                    if self.key_seq().contains(q) && q != k@ {
                        let j = choose|j: int| 0 <= j < self.key_seq().len() && self.key_seq()[j] == q;
                        assert(old_self.key_seq()[j] == q);
                    }
                    if q == k@ {
                        assert(self.key_seq()[old_self.key_seq().len() as int] == q);
                    }
                }
                assert(self@ =~= old_self@.insert(k@, v));
            },
        }
    }

    /// Removes the entry of `k`, returning its value; other entries keep their order.
    pub fn remove(&mut self, k: &str) -> (r: Option<V>)
        requires
            old(self).wf(),
        ensures
            final(self).wf(),
            final(self)@ == old(self)@.remove(k@),
            match r {
                Some(v) => old(self)@.contains_key(k@) && v == old(self)@[k@],
                None => !old(self)@.contains_key(k@),
            },
            forall|q: Seq<char>|
                final(self).key_seq().contains(q) <==> old(self).key_seq().contains(q) && q != k@,
    {
        proof {
            self.lemma_view();
        }
        let ghost old_self = *self;
        match self.position(k) {
            Some(i) => {
                let _ = self.keys.remove(i);
                let v = self.vals.remove(i);
                let ghost os = old_self.key_seq();
                assert(self.key_seq() =~= os.remove(i as int));
                assert(self.key_seq().no_duplicates()) by {
                    assert forall|a: int, b: int|
                        0 <= a < self.key_seq().len() && 0 <= b < self.key_seq().len() && a != b
                            implies self.key_seq()[a] != self.key_seq()[b] by {
                        let a2 = if a < i { a } else { a + 1 };
                        let b2 = if b < i { b } else { b + 1 };
                        assert(self.key_seq()[a] == os[a2]);
                        assert(self.key_seq()[b] == os[b2]);
                    }
                }
                proof {
                    self.lemma_view();
                }
                assert forall|q: Seq<char>|
                    self.key_seq().contains(q) <==> os.contains(q) && q != k@ by {
                    if self.key_seq().contains(q) {
                        let j = choose|j: int| 0 <= j < self.key_seq().len() && self.key_seq()[j] == q;
                        let j2 = if j < i { j } else { j + 1 };
                        assert(os[j2] == q);
                        assert(j2 != i);
                    }
                    if os.contains(q) && q != k@ {
                        let j = choose|j: int| 0 <= j < os.len() && os[j] == q;
                        assert(j != i);
                        let j2 = if j < i { j } else { j - 1 };
                        assert(self.key_seq()[j2] == q);
                    }
                }
                assert forall|q: Seq<char>| #[trigger]
                    self@.contains_key(q) implies self@[q] == old_self@.remove(k@)[q] by {
                    let j = self.key_seq().index_of(q);
                    assert(self.key_seq()[j] == q);
                    let j2 = if j < i { j } else { j + 1 };
                    assert(os[j2] == q);
                    assert(old_self@[os[j2]] == old_self.val_seq()[j2]);
                }
                assert(self@ =~= old_self@.remove(k@));
                Some(v)
            },
            None => {
                assert(self@ =~= old_self@.remove(k@));
                None
            },
        }
    }
}

} // verus!
