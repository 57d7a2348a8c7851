//! Account keys and the key-value tables that model contract storage.
use vstd::prelude::*;
use crate::bytes::{bytes_equal, copy_bytes};

verus! {

/// An address, held as the characters of its strkey (`G...` for accounts,
/// `C...` for contracts).
pub struct AccountKey {
    pub strkey: Vec<u8>,
}

impl View for AccountKey {
    type V = Seq<u8>;

    open spec fn view(&self) -> Seq<u8> {
        self.strkey@
    }
}

impl AccountKey {
    /// An address whose strkey consists of the given characters.
    pub fn from_strkey(strkey: &[u8]) -> (key: AccountKey)
        ensures
            key@ == strkey@,
    {
        AccountKey { strkey: copy_bytes(strkey) }
    }

    /// A second, equal copy of this address.
    pub fn duplicate(&self) -> (key: AccountKey)
        ensures
            key@ == self@,
    {
        AccountKey { strkey: copy_bytes(self.strkey.as_slice()) }
    }
}

/// A key of a storage table: it can be compared with another key of its type,
/// and two keys are the same exactly when their views are.
pub trait LedgerKey: View + Sized {
    fn same_key(&self, other: &Self) -> (r: bool)
        ensures
            r == (self@ == other@),
    ;
}

impl LedgerKey for AccountKey {
    fn same_key(&self, other: &Self) -> (r: bool) {
        bytes_equal(self.strkey.as_slice(), other.strkey.as_slice())
    }
}

/// A storage table: parallel lists of keys and values, no key twice.
pub struct Table<K, T> {
    pub keys: Vec<K>,
    pub vals: Vec<T>,
}

impl<K: LedgerKey, T> Table<K, T> {
    /// The lists have one value per key and no key occurs twice.
    pub open spec fn wf(&self) -> bool {
        &&& self.keys@.len() == self.vals@.len()
        &&& forall|i: int, j: int|
            0 <= i < self.keys@.len() && 0 <= j < self.keys@.len() && i != j
                ==> #[trigger] self.keys@[i]@ != #[trigger] self.keys@[j]@
    }

    /// Some stored key has the view `k`.
    pub open spec fn has(&self, k: K::V) -> bool {
        exists|i: int| 0 <= i < self.keys@.len() && #[trigger] self.keys@[i]@ == k
    }

    /// The position at which the key with view `k` is stored.
    pub open spec fn slot(&self, k: K::V) -> int {
        choose|i: int| 0 <= i < self.keys@.len() && #[trigger] self.keys@[i]@ == k
    }

    /// The table as a map from key views to values.
    pub open spec fn entries(&self) -> Map<K::V, T> {
        Map::new(|k: K::V| self.has(k), |k: K::V| self.vals@[self.slot(k)])
    }

    /// In a well-formed table the key stored at position `i` is found at `i`.
    pub proof fn lemma_slot(&self, i: int)
        requires
            self.wf(),
            0 <= i < self.keys@.len(),
        ensures
            self.has(self.keys@[i]@),
            self.slot(self.keys@[i]@) == i,
            self.entries().contains_key(self.keys@[i]@),
            self.entries()[self.keys@[i]@] == self.vals@[i],
    {
        let k = self.keys@[i]@;
        assert(self.has(k));
        let j = self.slot(k);
        assert(0 <= j < self.keys@.len() && self.keys@[j]@ == k);
        if j != i {
            assert(self.keys@[i]@ != self.keys@[j]@);
        }
    }

    /// An empty table.
    pub fn new() -> (t: Self)
        ensures
            t.wf(),
            t.entries() == Map::<K::V, T>::empty(),
    {
        let t = Table { keys: Vec::new(), vals: Vec::new() };
        assert(t.entries() =~= Map::<K::V, T>::empty());
        t
    }

    /// The position of `k`, if it is stored.
    pub fn find(&self, k: &K) -> (r: Option<usize>)
        requires
            self.wf(),
        ensures
            match r {
                Some(i) => i < self.keys@.len() && self.keys@[i as int]@ == k@,
                None => !self.has(k@),
            },
            r is Some <==> self.entries().contains_key(k@),
    {
        let n = self.keys.len();
        let mut i: usize = 0;
        while i < n
            invariant
                n == self.keys@.len(),
                i <= n,
                forall|j: int| 0 <= j < i ==> #[trigger] self.keys@[j]@ != k@,
            decreases n - i,
        {
            if self.keys[i].same_key(k) {
                return Some(i);
            }
            i += 1;
        }
        None
    }

    /// The value stored under `k`, if any.
    pub fn get(&self, k: &K) -> (r: Option<&T>)
        requires
            self.wf(),
        ensures
            r is Some <==> self.entries().contains_key(k@),
            r matches Some(v) ==> *v == self.entries()[k@],
    {
        match self.find(k) {
            Some(i) => {
                proof {
                    self.lemma_slot(i as int);
                }
                Some(&self.vals[i])
            },
            None => None,
        }
    }

    /// Stores `v` under `k`, replacing what was stored there.
    pub fn insert(&mut self, k: K, v: T)
        requires
            old(self).wf(),
        ensures
            final(self).wf(),
            final(self).entries() == old(self).entries().insert(k@, v),
    {
        let ghost old_t = *self;
        match self.find(&k) {
            Some(i) => {
                self.vals.set(i, v);
                proof {
                    assert(self.keys@ == old_t.keys@);
                    assert forall|kk: K::V| #[trigger] self.has(kk) == old_t.has(kk) by {
                        if self.has(kk) {
                            let j = self.slot(kk);
                            assert(old_t.keys@[j]@ == kk);
                        }
                        if old_t.has(kk) {
                            let j = old_t.slot(kk);
                            assert(self.keys@[j]@ == kk);
                        }
                    }
                    assert forall|kk: K::V| #[trigger] self.has(kk) implies self.slot(kk) == old_t.slot(kk) by {
                        let j = self.slot(kk);
                        self.lemma_slot(j);
                        old_t.lemma_slot(j);
                    }
                    assert(self.entries() =~= old_t.entries().insert(k@, v)) by {
                        self.lemma_slot(i as int);
                        assert forall|kk: K::V| #[trigger] self.has(kk) && kk != k@ implies
                            self.vals@[self.slot(kk)] == old_t.vals@[old_t.slot(kk)] by {
                            let j = self.slot(kk);
                            self.lemma_slot(j);
                            assert(j != i);
                        }
                    }
                }
            },
            None => {
                let ghost kv = k@;
                self.keys.push(k);
                self.vals.push(v);
                proof {
                    let n = old_t.keys@.len() as int;
                    assert(self.keys@[n]@ == kv);
                    assert forall|a: int, b: int|
                        0 <= a < self.keys@.len() && 0 <= b < self.keys@.len() && a != b
                            implies #[trigger] self.keys@[a]@ != #[trigger] self.keys@[b]@ by {
                        if a < n && b < n {
                            assert(old_t.keys@[a] == self.keys@[a]);
                            assert(old_t.keys@[b] == self.keys@[b]);
                        } else if a == n {
                            assert(old_t.keys@[b] == self.keys@[b]);
                        } else {
                            assert(old_t.keys@[a] == self.keys@[a]);
                        }
                    }
                    assert forall|kk: K::V| #[trigger] self.has(kk) == (old_t.has(kk) || kk == kv) by {
                        if self.has(kk) {
                            let j = self.slot(kk);
                            if j < n {
                                assert(old_t.keys@[j] == self.keys@[j]);
                            }
                        }
                        if old_t.has(kk) {
                            let j = old_t.slot(kk);
                            assert(self.keys@[j] == old_t.keys@[j]);
                        }
                        if kk == kv {
                            assert(self.keys@[n]@ == kv);
                        }
                    }
                    assert(self.entries() =~= old_t.entries().insert(kv, v)) by {
                        self.lemma_slot(n);
                        assert forall|kk: K::V| #[trigger] old_t.has(kk) && kk != kv implies
                            self.vals@[self.slot(kk)] == old_t.vals@[old_t.slot(kk)] by {
                            let j = old_t.slot(kk);
                            old_t.lemma_slot(j);
                            assert(self.keys@[j] == old_t.keys@[j]);
                            self.lemma_slot(j);
                        }
                    }
                }
            },
        }
    }

    /// Takes the value stored under `k` out of the table.
    pub fn remove(&mut self, k: &K) -> (r: Option<T>)
        requires
            old(self).wf(),
        ensures
            final(self).wf(),
            final(self).entries() == old(self).entries().remove(k@),
            r is Some <==> old(self).entries().contains_key(k@),
            r matches Some(v) ==> v == old(self).entries()[k@],
    {
        let ghost old_t = *self;
        match self.find(k) {
            Some(i) => {
                proof {
                    old_t.lemma_slot(i as int);
                }
                let _removed_key = self.keys.remove(i);
                let v = self.vals.remove(i);
                proof {
                    let ii = i as int;
                    let n = old_t.keys@.len() as int;
                    assert forall|a: int| 0 <= a < n - 1 implies
                        #[trigger] self.keys@[a] == old_t.keys@[if a < ii { a } else { a + 1 }] by {}
                    assert forall|a: int, b: int|
                        0 <= a < self.keys@.len() && 0 <= b < self.keys@.len() && a != b
                            implies #[trigger] self.keys@[a]@ != #[trigger] self.keys@[b]@ by {
                        let oa = if a < ii { a } else { a + 1 };
                        let ob = if b < ii { b } else { b + 1 };
                        assert(self.keys@[a] == old_t.keys@[oa]);
                        assert(self.keys@[b] == old_t.keys@[ob]);
                    }
                    assert forall|kk: K::V| #[trigger] self.has(kk) == (old_t.has(kk) && kk != k@) by {
                        if self.has(kk) {
                            let j = self.slot(kk);
                            let oj = if j < ii { j } else { j + 1 };
                            assert(self.keys@[j] == old_t.keys@[oj]);
                            assert(old_t.keys@[oj]@ == kk);
                            assert(oj != ii);
                        }
                        if old_t.has(kk) && kk != k@ {
                            let oj = old_t.slot(kk);
                            assert(oj != ii);
                            let j = if oj < ii { oj } else { oj - 1 };
                            assert(self.keys@[j] == old_t.keys@[oj]);
                        }
                    }
                    assert(self.entries() =~= old_t.entries().remove(k@)) by {
                        assert forall|kk: K::V| #[trigger] self.has(kk) implies
                            self.vals@[self.slot(kk)] == old_t.vals@[old_t.slot(kk)] by {
                            let j = self.slot(kk);
                            self.lemma_slot(j);
                            let oj = if j < ii { j } else { j + 1 };
                            assert(self.keys@[j] == old_t.keys@[oj]);
                            assert(self.vals@[j] == old_t.vals@[oj]);
                            old_t.lemma_slot(oj);
                        }
                    }
                }
                Some(v)
            },
            None => {
                assert(self.entries() =~= old_t.entries().remove(k@));
                None
            },
        }
    }
}

} // verus!
