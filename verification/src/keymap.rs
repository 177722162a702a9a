//! A small map keyed by fixed-size byte strings (public keys, file ids),
//! kept as a list of entries with no key twice.
use vstd::prelude::*;

verus! {

/// The map that a list of entries denotes; a later entry wins over an
/// earlier one with the same key.
pub open spec fn map_of<V, const N: usize>(s: Seq<([u8; N], V)>) -> Map<Seq<u8>, V>
    decreases s.len(),
{
    if s.len() == 0 {
        Map::empty()
    } else {
        map_of(s.drop_last()).insert(s.last().0@, s.last().1)
    }
}

/// No key occurs twice in the entries.
pub open spec fn keys_distinct<V, const N: usize>(s: Seq<([u8; N], V)>) -> bool {
    forall|i: int, j: int| 0 <= i < s.len() && 0 <= j < s.len() && i != j ==> #[trigger] s[i].0@ != #[trigger] s[j].0@
}

/// An entry's key maps to the entry's value.
pub proof fn lemma_map_of_find<V, const N: usize>(s: Seq<([u8; N], V)>, i: int)
    requires
        keys_distinct(s),
        0 <= i < s.len(),
    ensures
        map_of(s).contains_key(s[i].0@),
        map_of(s)[s[i].0@] == s[i].1,
    decreases s.len(),
{
    if i < s.len() - 1 {
        let t = s.drop_last();
        assert(t[i] == s[i]);
        assert(s[i].0@ != s[s.len() - 1].0@);
        lemma_map_of_find(t, i);
    }
}

/// A key that no entry has is not in the map.
pub proof fn lemma_map_of_absent<V, const N: usize>(s: Seq<([u8; N], V)>, k: Seq<u8>)
    requires
        forall|i: int| 0 <= i < s.len() ==> #[trigger] s[i].0@ != k,
    ensures
        !map_of(s).contains_key(k),
    decreases s.len(),
{
    if s.len() > 0 {
        let t = s.drop_last();
        assert forall|i: int| 0 <= i < t.len() implies #[trigger] t[i].0@ != k by {
            assert(t[i] == s[i]);
        }
        lemma_map_of_absent(t, k);
    }
}

/// Dropping an entry drops its key from the map.
pub proof fn lemma_map_of_remove<V, const N: usize>(s: Seq<([u8; N], V)>, i: int)
    requires
        keys_distinct(s),
        0 <= i < s.len(),
    ensures
        keys_distinct(s.remove(i)),
        map_of(s.remove(i)) =~= map_of(s).remove(s[i].0@),
    decreases s.len(),
{
    let r = s.remove(i);
    assert forall|a: int, b: int| 0 <= a < r.len() && 0 <= b < r.len() && a != b implies #[trigger] r[a].0@ != #[trigger] r[b].0@ by {
        let a2 = if a < i { a } else { a + 1 };
        let b2 = if b < i { b } else { b + 1 };
        assert(r[a] == s[a2] && r[b] == s[b2]);
    }
    if i == s.len() - 1 {
        assert(r =~= s.drop_last());
        lemma_map_of_absent(r, s[i].0@);
    } else {
        let t = s.drop_last();
        assert(keys_distinct(t));
        lemma_map_of_remove(t, i);
        assert(r.drop_last() =~= t.remove(i));
        assert(r.last() == s.last());
    }
}

/// A map from `N`-byte keys to values.
pub struct KeyMap<V, const N: usize> {
    entries: Vec<([u8; N], V)>,
}

impl<V, const N: usize> View for KeyMap<V, N> {
    type V = Map<Seq<u8>, V>;

    closed spec fn view(&self) -> Map<Seq<u8>, V> {
        map_of(self.entries@)
    }
}

impl<V, const N: usize> KeyMap<V, N> {
    #[verifier::type_invariant]
    spec fn inv(self) -> bool {
        keys_distinct(self.entries@)
    }

    /// The empty map.
    pub fn new() -> (m: Self)
        ensures
            m@ == Map::<Seq<u8>, V>::empty(),
    {
        KeyMap { entries: Vec::new() }
    }

    /// The position of the entry with key `k`, if any.
    fn position(&self, k: &[u8; N]) -> (p: Option<usize>)
        ensures
            match p {
                Some(i) => i < self.entries@.len() && self.entries@[i as int].0@ == k@,
                None => forall|i: int| 0 <= i < self.entries@.len() ==> #[trigger] self.entries@[i].0@ != k@,
            },
    {
        let mut i: usize = 0;
        while i < self.entries.len()
            invariant
                i <= self.entries@.len(),
                forall|j: int| 0 <= j < i ==> #[trigger] self.entries@[j].0@ != k@,
            decreases self.entries@.len() - i,
        {
            let mut same = true;
            let mut b: usize = 0;
            while b < N
                invariant
                    b <= N,
                    k@.len() == N,
                    self.entries@[i as int].0@.len() == N,
                    i < self.entries@.len(),
                    same <==> (forall|c: int| 0 <= c < b ==> self.entries@[i as int].0@[c] == k@[c]),
                decreases N - b,
            {
                if self.entries[i].0[b] != k[b] {
                    same = false;
                }
                b = b + 1;
            }
            if same {
                assert(self.entries@[i as int].0@ =~= k@);
                return Some(i);
            } else {
                assert(self.entries@[i as int].0@ != k@);
            }
            i = i + 1;
        }
        None
    }

    /// Whether the key is present.
    pub fn contains_key(&self, k: &[u8; N]) -> (r: bool)
        ensures
            r == self@.contains_key(k@),
    {
        proof { use_type_invariant(self); }
        match self.position(k) {
            Some(i) => {
                proof { lemma_map_of_find(self.entries@, i as int); }
                true
            },
            None => {
                proof { lemma_map_of_absent(self.entries@, k@); }
                false
            },
        }
    }

    /// The value stored under the key, if any.
    pub fn get(&self, k: &[u8; N]) -> (r: Option<&V>)
        ensures
            match r {
                Some(v) => self@.contains_key(k@) && self@[k@] == *v,
                None => !self@.contains_key(k@),
            },
    {
        proof { use_type_invariant(self); }
        match self.position(k) {
            Some(i) => {
                proof { lemma_map_of_find(self.entries@, i as int); }
                Some(&self.entries[i].1)
            },
            None => {
                proof { lemma_map_of_absent(self.entries@, k@); }
                None
            },
        }
    }

    /// Removes the key, returning the value it had.
    pub fn remove(&mut self, k: &[u8; N]) -> (r: Option<V>)
        ensures
            final(self)@ == old(self)@.remove(k@),
            match r {
                Some(v) => old(self)@.contains_key(k@) && old(self)@[k@] == v,
                None => !old(self)@.contains_key(k@),
            },
    {
        proof { use_type_invariant(&*self); }
        match self.position(k) {
            Some(i) => {
                let ghost s = self.entries@;
                proof {
                    lemma_map_of_find(s, i as int);
                    lemma_map_of_remove(s, i as int);
                }
                let mut entries: Vec<([u8; N], V)> = Vec::new();
                std::mem::swap(&mut entries, &mut self.entries);
                let e = entries.remove(i);
                self.entries = entries;
                Some(e.1)
            },
            None => {
                proof {
                    lemma_map_of_absent(self.entries@, k@);
                    assert(self@.remove(k@) =~= self@);
                }
                None
            },
        }
    }

    /// Stores `v` under `k`, returning the value the key had before.
    pub fn insert(&mut self, k: [u8; N], v: V) -> (r: Option<V>)
        ensures
            final(self)@ == old(self)@.insert(k@, v),
            match r {
                Some(w) => old(self)@.contains_key(k@) && old(self)@[k@] == w,
                None => !old(self)@.contains_key(k@),
            },
    {
        let r = self.remove(&k);
        proof { use_type_invariant(&*self); }
        let ghost s = self.entries@;
        proof {
            assert forall|i: int| 0 <= i < s.len() implies #[trigger] s[i].0@ != k@ by {
                if s[i].0@ == k@ {
                    lemma_map_of_find(s, i);
                }
            }
        }
        let mut entries: Vec<([u8; N], V)> = Vec::new();
        std::mem::swap(&mut entries, &mut self.entries);
        entries.push((k, v));
        proof {
            let t = entries@;
            assert(t.drop_last() =~= s);
            assert forall|a: int, b: int| 0 <= a < t.len() && 0 <= b < t.len() && a != b implies #[trigger] t[a].0@ != #[trigger] t[b].0@ by {
                if a < s.len() && b < s.len() {
                    assert(t[a] == s[a] && t[b] == s[b]);
                } else if a < s.len() {
                    assert(t[a] == s[a]);
                } else {
                    assert(t[b] == s[b]);
                }
            }
        }
        self.entries = entries;
        proof {
            let t = self.entries@;
            assert(t.drop_last() =~= s);
            assert(map_of(t) =~= old(self)@.remove(k@).insert(k@, v));
            assert(old(self)@.remove(k@).insert(k@, v) =~= old(self)@.insert(k@, v));
        }
        r
    }
}

} // verus!
