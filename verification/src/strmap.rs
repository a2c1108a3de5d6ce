//! A map keyed by text that remembers the order in which its keys arrived.

use vstd::prelude::*;

use crate::text::str_eq;

verus! {

/// A map from text keys to values; no key occurs twice and the keys keep their arrival
/// order, which is the order every walk over the map follows.
#[derive(Debug)]
pub struct StrMap<V> {
    entries: Vec<(String, V)>,
}

impl<V> StrMap<V> {
    /// The keys, in arrival order.
    pub closed spec fn keys(&self) -> Seq<Seq<char>> {
        self.entries@.map_values(|e: (String, V)| e.0@)
    }

    /// The values, in the order of their keys.
    pub closed spec fn values(&self) -> Seq<V> {
        self.entries@.map_values(|e: (String, V)| e.1)
    }

    /// No key occurs twice, and there is one value per key.
    #[verifier::type_invariant]
    pub closed spec fn inv(&self) -> bool {
        self.keys().no_duplicates()
    }

    /// Unfolds the invariant.
    pub proof fn lemma_inv(&self)
        requires
            self.inv(),
        ensures
            self.keys().no_duplicates(),
            self.keys().len() == self.values().len(),
    {
    }

    /// Whether `k` is a key.
    pub open spec fn has(&self, k: Seq<char>) -> bool {
        self.keys().contains(k)
    }

    /// The value of key `k`, if it is a key.
    pub open spec fn lookup(&self, k: Seq<char>) -> Option<V> {
        if self.keys().contains(k) {
            Some(self.values()[self.keys().index_of(k)])
        } else {
            None
        }
    }

    /// The empty map.
    pub fn new() -> (m: Self)
        ensures
            m.keys().len() == 0,
            m.values().len() == 0,
    {
        let m = StrMap { entries: Vec::new() };
        proof {
            assert(m.keys() =~= Seq::<Seq<char>>::empty());
        }
        m
    }

    /// How many keys the map holds.
    pub fn len(&self) -> (r: usize)
        ensures
            r == self.keys().len(),
            r == self.values().len(),
            self.keys().no_duplicates(),
    {
        proof {
            use_type_invariant(self);
        }
        self.entries.len()
    }

    /// Whether the map holds no key.
    pub fn is_empty(&self) -> (r: bool)
        ensures
            r == (self.keys().len() == 0),
    {
        self.entries.len() == 0
    }

    /// The position of key `k`, if it is a key.
    pub fn find(&self, k: &str) -> (r: Option<usize>)
        ensures
            self.keys().no_duplicates(),
            self.keys().len() == self.values().len(),
            match r {
                Some(i) => i < self.keys().len() && self.keys()[i as int] == k@
                    && self.keys().index_of(k@) == i,
                None => !self.keys().contains(k@),
            },
    {
        proof {
            use_type_invariant(self);
        }
        let n = self.entries.len();
        let mut i: usize = 0;
        while i < n
            invariant
                i <= n,
                n == self.entries@.len(),
                n == self.keys().len(),
                self.keys().no_duplicates(),
                forall|j: int| 0 <= j < i ==> self.keys()[j] != k@,
            decreases n - i,
        {
            if str_eq(self.entries[i].0.as_str(), k) {
                proof {
                    assert(self.keys()[i as int] == k@);
                    assert(self.keys().contains(k@));
                    let j = self.keys().index_of(k@);
                    assert(self.keys()[j] == k@);
                }
                return Some(i);
            }
            i = i + 1;
        }
        proof {
            if self.keys().contains(k@) {
                let j = self.keys().index_of(k@);
                assert(self.keys()[j] == k@);
            }
        }
        None
    }

    /// Whether `k` is a key.
    pub fn contains_key(&self, k: &str) -> (r: bool)
        ensures
            r == self.keys().contains(k@),
    {
        self.find(k).is_some()
    }

    /// The value of key `k`, if it is a key.
    pub fn get(&self, k: &str) -> (r: Option<&V>)
        ensures
            match r {
                Some(v) => self.lookup(k@) == Some(*v),
                None => self.lookup(k@) is None,
            },
    {
        match self.find(k) {
            Some(i) => Some(&self.entries[i].1),
            None => None,
        }
    }

    /// The key at position `i`.
    pub fn key_at(&self, i: usize) -> (r: &String)
        requires
            i < self.keys().len(),
        ensures
            r@ == self.keys()[i as int],
    {
        &self.entries[i].0
    }

    /// The value at position `i`.
    pub fn value_at(&self, i: usize) -> (r: &V)
        requires
            i < self.keys().len(),
        ensures
            *r == self.values()[i as int],
    {
        &self.entries[i].1
    }

    /// Sets the value of key `k`: a key already present keeps its position, a new key comes
    /// last. Returns the value it replaced.
    pub fn insert(&mut self, k: String, v: V) -> (r: Option<V>)
        ensures
            final(self).keys() == old(self).keys_after_insert(k@),
            final(self).values() == old(self).values_after_insert(k@, v),
            r == old(self).lookup(k@),
    {
        let pos = self.find(k.as_str());
        let mut entries: Vec<(String, V)> = Vec::new();
        std::mem::swap(&mut entries, &mut self.entries);
        let ghost before = entries@;
        match pos {
            Some(i) => {
                let (key, old_v) = entries.remove(i);
                entries.insert(i, (key, v));
                proof {
                    assert(entries@ =~= before.update(i as int, (before[i as int].0, v)));
                    assert(entries@.map_values(|e: (String, V)| e.0@) =~= before.map_values(
                        |e: (String, V)| e.0@,
                    ));
                    assert(entries@.map_values(|e: (String, V)| e.1) =~= before.map_values(
                        |e: (String, V)| e.1,
                    ).update(i as int, v));
                }
                self.entries = entries;
                Some(old_v)
            },
            None => {
                entries.push((k, v));
                proof {
                    assert(entries@.map_values(|e: (String, V)| e.0@) =~= before.map_values(
                        |e: (String, V)| e.0@,
                    ).push(k@));
                    assert(entries@.map_values(|e: (String, V)| e.1) =~= before.map_values(
                        |e: (String, V)| e.1,
                    ).push(v));
                    let ks = entries@.map_values(|e: (String, V)| e.0@);
                    assert forall|a: int, b: int| 0 <= a < b < ks.len() implies ks[a] != ks[b] by {
                        if b == ks.len() - 1 {
                            assert(ks[a] == before.map_values(|e: (String, V)| e.0@)[a]);
                        }
                    }
                }
                self.entries = entries;
                None
            },
        }
    }

    /// The position of key `k`, if it is a key.
    pub open spec fn find_spec(&self, k: Seq<char>) -> Option<int> {
        if self.keys().contains(k) {
            Some(self.keys().index_of(k))
        } else {
            None
        }
    }

    /// The keys once `k` is set: unchanged when `k` is a key, `k` last otherwise.
    pub open spec fn keys_after_insert(&self, k: Seq<char>) -> Seq<Seq<char>> {
        match self.find_spec(k) {
            Some(_) => self.keys(),
            None => self.keys().push(k),
        }
    }

    /// The values once `k` is set to `v`.
    pub open spec fn values_after_insert(&self, k: Seq<char>, v: V) -> Seq<V> {
        match self.find_spec(k) {
            Some(i) => self.values().update(i, v),
            None => self.values().push(v),
        }
    }

    /// The keys once `k` is removed.
    pub open spec fn keys_after_remove(&self, k: Seq<char>) -> Seq<Seq<char>> {
        match self.find_spec(k) {
            Some(i) => self.keys().remove(i),
            None => self.keys(),
        }
    }

    /// The values once `k` is removed.
    pub open spec fn values_after_remove(&self, k: Seq<char>) -> Seq<V> {
        match self.find_spec(k) {
            Some(i) => self.values().remove(i),
            None => self.values(),
        }
    }

    /// Removes key `k` and returns its value; the other keys keep their order.
    pub fn remove(&mut self, k: &str) -> (r: Option<V>)
        ensures
            final(self).keys() == old(self).keys_after_remove(k@),
            final(self).values() == old(self).values_after_remove(k@),
            r == old(self).lookup(k@),
    {
        let pos = self.find(k);
        match pos {
            Some(i) => {
                let mut entries: Vec<(String, V)> = Vec::new();
                std::mem::swap(&mut entries, &mut self.entries);
                let ghost before = entries@;
                let (_key, v) = entries.remove(i);
                proof {
                    assert(entries@.map_values(|e: (String, V)| e.0@) =~= before.map_values(
                        |e: (String, V)| e.0@,
                    ).remove(i as int));
                    assert(entries@.map_values(|e: (String, V)| e.1) =~= before.map_values(
                        |e: (String, V)| e.1,
                    ).remove(i as int));
                    let ks = entries@.map_values(|e: (String, V)| e.0@);
                    let old_ks = before.map_values(|e: (String, V)| e.0@);
                    assert forall|a: int, b: int| 0 <= a < b < ks.len() implies ks[a] != ks[b] by {
                        let oa = if a < i { a } else { a + 1 };
                        let ob = if b < i { b } else { b + 1 };
                        assert(ks[a] == old_ks[oa]);
                        assert(ks[b] == old_ks[ob]);
                    }
                }
                self.entries = entries;
                Some(v)
            },
            None => None,
        }
    }

    /// The values, in key order.
    pub fn into_values(self) -> (r: Vec<V>)
        ensures
            r@ == self.values(),
    {
        let ghost vals = self.values();
        let mut out: Vec<V> = Vec::new();
        for e in it: self.entries.into_iter()
            invariant
                vals == it.seq().map_values(|e: (String, V)| e.1),
                out@ == it.seq().take(it.index() as int).map_values(|e: (String, V)| e.1),
        {
            let (_k, v) = e;
            out.push(v);
            proof {
                assert(it.seq().take(it.index() + 1) =~= it.seq().take(it.index() as int).push(e));
            }
        }
        out
    }
}

/// Setting key `k` to `v` changes the value of `k` and of no other key.
pub proof fn lemma_lookup_after_insert<V>(
    before: StrMap<V>,
    after: StrMap<V>,
    k: Seq<char>,
    v: V,
    q: Seq<char>,
)
    requires
        before.keys().no_duplicates(),
        before.keys().len() == before.values().len(),
        after.keys() == before.keys_after_insert(k),
        after.values() == before.values_after_insert(k, v),
    ensures
        after.lookup(q) == (if q == k {
            Some(v)
        } else {
            before.lookup(q)
        }),
        after.has(q) == (q == k || before.has(q)),
{
    let bk = before.keys();
    let ak = after.keys();
    if bk.contains(k) {
        let i = bk.index_of(k);
        if ak.contains(q) {
            let j = ak.index_of(q);
            assert(bk[j] == q);
            if q == k {
                assert(j == i);
            } else {
                let jb = bk.index_of(q);
                assert(jb == j);
            }
        }
    } else {
        assert(ak == bk.push(k));
        if q == k {
            let n = bk.len() as int;
            assert(ak[n] == k);
            assert(ak.contains(k));
            let j = ak.index_of(k);
            assert(j == n);
        } else if ak.contains(q) {
            let j = ak.index_of(q);
            assert(j < bk.len());
            assert(bk[j] == q);
            assert(bk.contains(q));
            let jb = bk.index_of(q);
            assert(jb == j);
        } else {
            if bk.contains(q) {
                let jb = bk.index_of(q);
                assert(ak[jb] == q);
            }
        }
    }
}

/// Removing key `k` drops `k` and changes no other key.
pub proof fn lemma_lookup_after_remove<V>(before: StrMap<V>, after: StrMap<V>, k: Seq<char>, q: Seq<char>)
    requires
        before.keys().no_duplicates(),
        before.keys().len() == before.values().len(),
        after.keys() == before.keys_after_remove(k),
        after.values() == before.values_after_remove(k),
    ensures
        after.lookup(q) == (if q == k {
            None
        } else {
            before.lookup(q)
        }),
        after.has(q) == (q != k && before.has(q)),
{
    let bk = before.keys();
    let ak = after.keys();
    if bk.contains(k) {
        let i = bk.index_of(k);
        if ak.contains(q) {
            let j = ak.index_of(q);
            let jb = if j < i { j } else { j + 1 };
            assert(ak[j] == bk[jb]);
            assert(bk[jb] == q);
            assert(jb != i);
            assert(q != k);
            assert(bk.contains(q));
            assert(bk.index_of(q) == jb);
        } else if q != k && bk.contains(q) {
            let jb = bk.index_of(q);
            assert(jb != i);
            let j = if jb < i { jb } else { jb - 1 };
            assert(ak[j] == q);
        }
    }
}

impl<V> Default for StrMap<V> {
    fn default() -> (m: Self)
        ensures
            m.keys().len() == 0,
            m.values().len() == 0,
    {
        StrMap::new()
    }
}

} // verus!
