//! 32-byte keys (addresses, hashes, state keys), and maps with small keys.
use vstd::prelude::*;

verus! {

/// A 32-byte key: an address, a transaction hash or a state key.
pub type Key = [u8; 32];

/// Whether two keys hold the same bytes.
pub fn key_eq(a: &Key, b: &Key) -> (r: bool)
    ensures
        r == (*a == *b),
{
    let mut i: usize = 0;
    while i < 32
        invariant
            i <= 32,
            forall|j: int| 0 <= j < i ==> a[j] == b[j],
        decreases 32 - i,
    {
        if a[i] != b[i] {
            return false;
        }
        i = i + 1;
    }
    assert(*a =~= *b);
    true
}

/// Whether every byte of a key is zero.
pub open spec fn all_zero(a: Key) -> bool {
    forall|i: int| 0 <= i < 32 ==> a@[i] == 0
}

/// Whether every byte of a key is zero.
pub fn key_is_zero(a: &Key) -> (r: bool)
    ensures
        r == all_zero(*a),
{
    let mut i: usize = 0;
    while i < 32
        invariant
            i <= 32,
            forall|j: int| 0 <= j < i ==> a@[j] == 0,
        decreases 32 - i,
    {
        if a[i] != 0 {
            assert(a@[i as int] != 0);
            return false;
        }
        i = i + 1;
    }
    true
}

/// The key of 32 zero bytes.
pub open spec fn zeros() -> Key {
    choose|k: Key| all_zero(k)
}

/// There is one key of zero bytes only.
pub proof fn lemma_zeros(k: Key)
    requires
        all_zero(k),
    ensures
        k == zeros(),
{
    let z = zeros();
    assert(all_zero(z));
    assert(forall|i: int| 0 <= i < 32 ==> z[i] == z@[i] && k[i] == k@[i]);
    assert(z =~= k);
}

/// The key of 32 zero bytes.
pub fn zero_key() -> (r: Key)
    ensures
        all_zero(r),
        r == zeros(),
{
    let k: Key = [0u8; 32];
    proof {
        lemma_zeros(k);
    }
    k
}

/// The 32 bytes as a vector.
pub fn key_bytes(a: &Key) -> (r: Vec<u8>)
    ensures
        r@ == a@,
{
    vstd::slice::slice_to_vec(a.as_slice())
}

/// The key that a byte string spells: the bytes themselves where there are
/// exactly 32 of them.
pub open spec fn key_of(bytes: Seq<u8>) -> Option<Key> {
    if bytes.len() == 32 {
        Some(choose|k: Key| #[trigger] k@ == bytes)
    } else {
        None
    }
}

/// `key_of` gives back every key from its bytes.
pub proof fn lemma_key_of(k: Key)
    ensures
        k@.len() == 32,
        key_of(k@) == Some(k),
{
    let c = choose|c: Key| #[trigger] c@ == k@;
    assert(c@ == k@);
    assert(forall|i: int| 0 <= i < 32 ==> c[i] == c@[i] && k[i] == k@[i]);
    assert(c =~= k);
}

/// Reads a key out of a byte string of exactly 32 bytes.
pub fn key_from_slice(bytes: &[u8]) -> (r: Option<Key>)
    ensures
        r == key_of(bytes@),
        r matches Some(k) ==> k@ == bytes@,
{
    if bytes.len() != 32 {
        return None;
    }
    let mut k: Key = [0u8; 32];
    let mut i: usize = 0;
    while i < 32
        invariant
            i <= 32,
            bytes@.len() == 32,
            forall|j: int| 0 <= j < i ==> k@[j] == bytes@[j],
        decreases 32 - i,
    {
        k[i] = bytes[i];
        i = i + 1;
    }
    assert(k@ =~= bytes@);
    proof {
        lemma_key_of(k);
    }
    Some(k)
}

/// A key that can be copied and tested for equality.
pub trait MapKey: Copy {
    /// Whether two keys are the same.
    fn same(&self, other: &Self) -> (r: bool)
        ensures
            r == (*self == *other),
    ;
}

impl MapKey for Key {
    fn same(&self, other: &Self) -> (r: bool) {
        key_eq(self, other)
    }
}

impl MapKey for u64 {
    fn same(&self, other: &Self) -> (r: bool) {
        *self == *other
    }
}

impl MapKey for usize {
    fn same(&self, other: &Self) -> (r: bool) {
        *self == *other
    }
}

/// A block by its slot and its hash.
#[derive(Clone, Copy, Debug, PartialEq, Eq)]
pub struct BlockId {
    pub slot: u64,
    pub hash: Key,
}

impl MapKey for BlockId {
    fn same(&self, other: &Self) -> (r: bool) {
        self.slot == other.slot && key_eq(&self.hash, &other.hash)
    }
}

/// A map keyed by 32-byte keys.
pub type KeyMap<V> = AssocMap<Key, V>;

/// Association list from keys to values; no key occurs twice.
///
/// Its view is the map from keys to the views of the values. `keys()` gives
/// the keys in the order in which they were first inserted.
pub struct AssocMap<K, V> {
    entries: Vec<(K, V)>,
}

impl<K: MapKey, V: View> View for AssocMap<K, V> {
    type V = Map<K, V::V>;

    closed spec fn view(&self) -> Map<K, V::V> {
        Map::new(
            |k: K| exists|i: int| 0 <= i < self.entries@.len() && (#[trigger] self.entries@[i]).0 == k,
            |k: K|
                {
                    let i = choose|i: int|
                        0 <= i < self.entries@.len() && (#[trigger] self.entries@[i]).0 == k;
                    self.entries@[i].1@
                },
        )
    }
}

impl<K: MapKey, V: View> AssocMap<K, V> {
    /// No key occurs twice.
    pub closed spec fn wf(&self) -> bool {
        forall|i: int, j: int|
            #![trigger self.entries@[i], self.entries@[j]]
            0 <= i < self.entries@.len() && 0 <= j < self.entries@.len() && self.entries@[i].0
                == self.entries@[j].0 ==> i == j
    }

    /// The keys, in the order in which they were first inserted.
    pub closed spec fn keys(&self) -> Seq<K> {
        Seq::new(self.entries@.len(), |i: int| self.entries@[i].0)
    }

    proof fn lemma_entry(&self, i: int)
        requires
            self.wf(),
            0 <= i < self.entries@.len(),
        ensures
            self@.contains_key(self.entries@[i].0),
            self@[self.entries@[i].0] == self.entries@[i].1@,
    {
        let k = self.entries@[i].0;
        let c = choose|c: int|
            0 <= c < self.entries@.len() && (#[trigger] self.entries@[c]).0 == k;
        assert(0 <= c < self.entries@.len() && self.entries@[c].0 == k);
        assert(c == i);
    }

    /// The keys are distinct and are the map's domain, which is finite.
    pub proof fn lemma_keys(&self)
        requires
            self.wf(),
        ensures
            self.keys().no_duplicates(),
            self.keys().to_set() == self@.dom(),
            self@.dom().finite(),
            self@.len() == self.keys().len(),
            forall|i: int| 0 <= i < self.keys().len() ==> self@.contains_key(#[trigger] self.keys()[i]),
            forall|k: K| self@.contains_key(k) ==> exists|i: int|
                0 <= i < self.keys().len() && #[trigger] self.keys()[i] == k,
    {
        let ks = self.keys();
        assert forall|i: int, j: int| 0 <= i < ks.len() && 0 <= j < ks.len() && i != j implies ks[i]
            != ks[j] by {
            assert(ks[i] == self.entries@[i].0);
            assert(ks[j] == self.entries@[j].0);
        }
        assert forall|k: K| self@.contains_key(k) implies exists|i: int|
            0 <= i < ks.len() && #[trigger] ks[i] == k by {
            let i = choose|i: int|
                0 <= i < self.entries@.len() && (#[trigger] self.entries@[i]).0 == k;
            assert(ks[i] == k);
        }
        assert forall|i: int| 0 <= i < ks.len() implies self@.contains_key(#[trigger] ks[i]) by {
            self.lemma_entry(i);
        }
        assert(ks.to_set() =~= self@.dom());
        ks.unique_seq_to_set();
        vstd::seq_lib::seq_to_set_is_finite(ks);
    }

    /// The empty map.
    pub fn new() -> (m: Self)
        ensures
            m.wf(),
            m@ == Map::<K, V::V>::empty(),
            m.keys() == Seq::<K>::empty(),
    {
        let m = AssocMap { entries: Vec::new() };
        assert(m@ =~= Map::<K, V::V>::empty());
        assert(m.keys() =~= Seq::<K>::empty());
        m
    }

    /// How many keys the map holds.
    pub fn len(&self) -> (n: usize)
        requires
            self.wf(),
        ensures
            n == self@.len(),
            n == self.keys().len(),
            self@.dom().finite(),
    {
        proof {
            self.lemma_keys();
        }
        self.entries.len()
    }

    fn position(&self, key: &K) -> (r: Option<usize>)
        requires
            self.wf(),
        ensures
            match r {
                Some(i) => i < self.entries@.len() && self.entries@[i as int].0 == *key
                    && self@.contains_key(*key) && self@[*key] == self.entries@[i as int].1@,
                None => !self@.contains_key(*key),
            },
    {
        let mut i: usize = 0;
        while i < self.entries.len()
            invariant
                self.wf(),
                i <= self.entries@.len(),
                forall|j: int| 0 <= j < i ==> (#[trigger] self.entries@[j]).0 != *key,
            decreases self.entries@.len() - i,
        {
            if self.entries[i].0.same(key) {
                proof {
                    self.lemma_entry(i as int);
                }
                return Some(i);
            }
            i = i + 1;
        }
        None
    }

    /// The value under `key`, if there is one.
    pub fn get(&self, key: &K) -> (r: Option<&V>)
        requires
            self.wf(),
        ensures
            match r {
                Some(v) => self@.contains_key(*key) && self@[*key] == v@,
                None => !self@.contains_key(*key),
            },
    {
        match self.position(key) {
            Some(i) => Some(&self.entries[i].1),
            None => None,
        }
    }

    /// Whether the map has a value under `key`.
    pub fn contains_key(&self, key: &K) -> (r: bool)
        requires
            self.wf(),
        ensures
            r == self@.contains_key(*key),
    {
        self.position(key).is_some()
    }

    /// The `i`-th key and its value.
    pub fn entry_at(&self, i: usize) -> (r: (&K, &V))
        requires
            self.wf(),
            i < self.keys().len(),
        ensures
            *r.0 == self.keys()[i as int],
            self@.contains_key(*r.0),
            self@[*r.0] == r.1@,
    {
        proof {
            self.lemma_entry(i as int);
        }
        let e = &self.entries[i];
        (&e.0, &e.1)
    }

    /// Puts `value` under `key`, in place of what was there.
    pub fn insert(&mut self, key: K, value: V)
        requires
            old(self).wf(),
        ensures
            final(self).wf(),
            final(self)@ == old(self)@.insert(key, value@),
            final(self).keys() == if old(self)@.contains_key(key) {
                old(self).keys()
            } else {
                old(self).keys().push(key)
            },
    {
        let ghost before = *self;
        match self.position(&key) {
            Some(i) => {
                self.entries[i] = (key, value);
                assert(self.entries@ =~= before.entries@.update(i as int, (key, value)));
                assert forall|a: int, b: int|
                    #![trigger self.entries@[a], self.entries@[b]]
                    0 <= a < self.entries@.len() && 0 <= b < self.entries@.len()
                        && self.entries@[a].0 == self.entries@[b].0 implies a == b by {
                    assert(self.entries@[a].0 == before.entries@[a].0);
                    assert(self.entries@[b].0 == before.entries@[b].0);
                }
                assert(self.keys() =~= before.keys());
                proof {
                    self.lemma_same_entries(before, key, value, i as int);
                }
            },
            None => {
                self.entries.push((key, value));
                assert forall|a: int, b: int|
                    #![trigger self.entries@[a], self.entries@[b]]
                    0 <= a < self.entries@.len() && 0 <= b < self.entries@.len()
                        && self.entries@[a].0 == self.entries@[b].0 implies a == b by {
                    let n = before.entries@.len() as int;
                    if a < n {
                        before.lemma_entry(a);
                        assert(self.entries@[a] == before.entries@[a]);
                    }
                    if b < n {
                        before.lemma_entry(b);
                        assert(self.entries@[b] == before.entries@[b]);
                    }
                }
                assert(self.keys() =~= before.keys().push(key));
                proof {
                    self.lemma_same_entries(before, key, value, before.entries@.len() as int);
                }
            },
        }
    }

    proof fn lemma_same_entries(self, before: Self, key: K, value: V, at: int)
        requires
            self.wf(),
            before.wf(),
            0 <= at < self.entries@.len(),
            self.entries@[at] == (key, value),
            before.entries@.len() == self.entries@.len() || (before.entries@.len() == at && at
                == self.entries@.len() - 1),
            forall|i: int|
                0 <= i < before.entries@.len() && i != at ==> #[trigger] self.entries@[i]
                    == before.entries@[i],
            at < before.entries@.len() ==> before.entries@[at].0 == key,
        ensures
            self@ == before@.insert(key, value@),
    {
        let m = before@.insert(key, value@);
        assert forall|k: K| self@.contains_key(k) == m.contains_key(k) by {
            if self@.contains_key(k) {
                let i = choose|i: int|
                    0 <= i < self.entries@.len() && (#[trigger] self.entries@[i]).0 == k;
                if i != at {
                    before.lemma_entry(i);
                }
            }
            if before@.contains_key(k) {
                let i = choose|i: int|
                    0 <= i < before.entries@.len() && (#[trigger] before.entries@[i]).0 == k;
                assert(self.entries@[i].0 == k);
                self.lemma_entry(i);
            }
            self.lemma_entry(at);
        }
        assert forall|k: K| self@.contains_key(k) implies self@[k] == m[k] by {
            let i = choose|i: int|
                0 <= i < self.entries@.len() && (#[trigger] self.entries@[i]).0 == k;
            self.lemma_entry(i);
            if i != at {
                before.lemma_entry(i);
                self.lemma_entry(at);
            }
        }
        assert(self@ =~= m);
    }

    /// Drops what stands under `key`, and says whether there was anything.
    pub fn remove(&mut self, key: &K) -> (r: bool)
        requires
            old(self).wf(),
        ensures
            final(self).wf(),
            final(self)@ == old(self)@.remove(*key),
            r == old(self)@.contains_key(*key),
    {
        self.take(key).is_some()
    }

    /// Takes the entry out whose key came last.
    pub fn pop(&mut self) -> (r: Option<(K, V)>)
        requires
            old(self).wf(),
        ensures
            final(self).wf(),
            match r {
                Some(e) => {
                    &&& old(self)@.contains_key(e.0)
                    &&& old(self)@[e.0] == e.1@
                    &&& final(self)@ == old(self)@.remove(e.0)
                    &&& old(self).keys().len() > 0
                    &&& final(self).keys() == old(self).keys().drop_last()
                },
                None => old(self)@ == Map::<K, V::V>::empty() && *final(self) == *old(self),
            },
    {
        let ghost before = *self;
        let n: usize = self.entries.len();
        if n == 0 {
            assert(self@ =~= Map::<K, V::V>::empty());
            return None;
        }
        proof {
            before.lemma_entry(n - 1);
        }
        let r = self.entries.pop();
        proof {
            let last = before.entries@.last();
            assert(self.entries@ =~= before.entries@.drop_last());
            assert forall|a: int, b: int|
                #![trigger self.entries@[a], self.entries@[b]]
                0 <= a < self.entries@.len() && 0 <= b < self.entries@.len() && self.entries@[a].0
                    == self.entries@[b].0 implies a == b by {
                assert(self.entries@[a] == before.entries@[a]);
                assert(self.entries@[b] == before.entries@[b]);
            }
            let m = before@.remove(last.0);
            assert forall|k: K| self@.contains_key(k) == m.contains_key(k) by {
                if self@.contains_key(k) {
                    let i = choose|i: int|
                        0 <= i < self.entries@.len() && (#[trigger] self.entries@[i]).0 == k;
                    assert(self.entries@[i] == before.entries@[i]);
                    before.lemma_entry(i);
                    if k == last.0 {
                        assert(before.entries@[i].0 == before.entries@[n - 1].0);
                    }
                }
                if m.contains_key(k) {
                    let i = choose|i: int|
                        0 <= i < before.entries@.len() && (#[trigger] before.entries@[i]).0 == k;
                    assert(self.entries@[i] == before.entries@[i]);
                    self.lemma_entry(i);
                }
            }
            assert forall|k: K| self@.contains_key(k) implies self@[k] == m[k] by {
                let i = choose|i: int|
                    0 <= i < self.entries@.len() && (#[trigger] self.entries@[i]).0 == k;
                assert(self.entries@[i] == before.entries@[i]);
                self.lemma_entry(i);
                before.lemma_entry(i);
            }
            assert(self@ =~= m);
            assert(self.keys() =~= before.keys().drop_last());
        }
        r
    }

    /// Takes out what stands under `key`.
    pub fn take(&mut self, key: &K) -> (r: Option<V>)
        requires
            old(self).wf(),
        ensures
            final(self).wf(),
            final(self)@ == old(self)@.remove(*key),
            match r {
                Some(v) => old(self)@.contains_key(*key) && old(self)@[*key] == v@,
                None => !old(self)@.contains_key(*key),
            },
    {
        let ghost before = *self;
        match self.position(key) {
            Some(at) => {
                proof {
                    before.lemma_entry(at as int);
                }
                let e = self.entries.remove(at);
                assert(self.entries@ =~= before.entries@.remove(at as int));
                proof {
                    self.lemma_removed(before, at as int);
                }
                Some(e.1)
            },
            None => {
                assert(self@ =~= before@.remove(*key));
                None
            },
        }
    }

    proof fn lemma_removed(self, before: Self, at: int)
        requires
            before.wf(),
            0 <= at < before.entries@.len(),
            self.entries@ == before.entries@.remove(at),
        ensures
            self.wf(),
            self@ == before@.remove(before.entries@[at].0),
    {
        let key = before.entries@[at].0;
        assert forall|a: int, b: int|
            #![trigger self.entries@[a], self.entries@[b]]
            0 <= a < self.entries@.len() && 0 <= b < self.entries@.len() && self.entries@[a].0
                == self.entries@[b].0 implies a == b by {
            let a2 = if a < at { a } else { a + 1 };
            let b2 = if b < at { b } else { b + 1 };
            assert(self.entries@[a] == before.entries@[a2]);
            assert(self.entries@[b] == before.entries@[b2]);
        }
        let m = before@.remove(key);
        assert forall|k: K| self@.contains_key(k) == m.contains_key(k) by {
            if self@.contains_key(k) {
                let i = choose|i: int|
                    0 <= i < self.entries@.len() && (#[trigger] self.entries@[i]).0 == k;
                let i2 = if i < at { i } else { i + 1 };
                assert(self.entries@[i] == before.entries@[i2]);
                before.lemma_entry(i2);
                if k == key {
                    assert(before.entries@[i2].0 == before.entries@[at].0);
                }
            }
            if m.contains_key(k) {
                let i2 = choose|i: int|
                    0 <= i < before.entries@.len() && (#[trigger] before.entries@[i]).0 == k;
                let i = if i2 < at { i2 } else { i2 - 1 };
                assert(self.entries@[i] == before.entries@[i2]);
                self.lemma_entry(i);
            }
        }
        assert forall|k: K| self@.contains_key(k) implies self@[k] == m[k] by {
            let i = choose|i: int|
                0 <= i < self.entries@.len() && (#[trigger] self.entries@[i]).0 == k;
            let i2 = if i < at { i } else { i + 1 };
            assert(self.entries@[i] == before.entries@[i2]);
            self.lemma_entry(i);
            before.lemma_entry(i2);
        }
        assert(self@ =~= m);
    }
}

} // verus!
