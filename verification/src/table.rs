//! A keyed table: an association list from string keys to values, with
//! unique keys. It models the in-memory maps that guard pairing requests,
//! paired devices, rate-limit counters, live processes and subscribers.

use vstd::prelude::*;

verus! {

/// The index of `key` in `keys`, or `-1` when absent.
pub open spec fn find_key(keys: Seq<Seq<char>>, key: Seq<char>) -> int
    decreases keys.len(),
{
    if keys.len() == 0 {
        -1
    } else if keys[0] == key {
        0
    } else {
        let r = find_key(keys.drop_first(), key);
        if r < 0 {
            -1
        } else {
            r + 1
        }
    }
}

/// `find_key` returns either `-1` and the key is absent, or the first
/// index that holds the key.
pub proof fn lemma_find_key(keys: Seq<Seq<char>>, key: Seq<char>)
    ensures
        find_key(keys, key) >= 0 ==> {
            &&& find_key(keys, key) < keys.len()
            &&& keys[find_key(keys, key)] == key
            &&& forall|j: int| 0 <= j < find_key(keys, key) ==> keys[j] != key
        },
        find_key(keys, key) < 0 ==> find_key(keys, key) == -1 && forall|j: int|
            0 <= j < keys.len() ==> keys[j] != key,
    decreases keys.len(),
{
    if keys.len() > 0 && keys[0] != key {
        lemma_find_key(keys.drop_first(), key);
        let r = find_key(keys.drop_first(), key);
        if r >= 0 {
            assert(keys[r + 1] == keys.drop_first()[r]);
            assert forall|j: int| 0 <= j < r + 1 implies keys[j] != key by {
                if j > 0 {
                    assert(keys.drop_first()[j - 1] != key);
                }
            }
        } else {
            assert forall|j: int| 0 <= j < keys.len() implies keys[j] != key by {
                if j > 0 {
                    assert(keys.drop_first()[j - 1] != key);
                }
            }
        }
    }
}

pub proof fn lemma_find_key_push_other(keys: Seq<Seq<char>>, x: Seq<char>, k: Seq<char>)
    requires
        x != k,
    ensures
        find_key(keys.push(x), k) == find_key(keys, k),
    decreases keys.len(),
{
    if keys.len() == 0 {
        assert(keys.push(x)[0] == x);
        assert(keys.push(x).drop_first() =~= Seq::<Seq<char>>::empty());
        assert(find_key(keys.push(x).drop_first(), k) == -1);
    } else {
        lemma_find_key_push_other(keys.drop_first(), x, k);
        assert(keys.push(x).drop_first() =~= keys.drop_first().push(x));
        assert(find_key(keys.push(x).drop_first(), k) == find_key(keys.drop_first(), k));
        assert(keys.push(x)[0] == keys[0]);
    }
}

pub proof fn lemma_find_key_remove(keys: Seq<Seq<char>>, i: int, k: Seq<char>)
    requires
        0 <= i < keys.len(),
        keys[i] != k,
    ensures
        ({
            let r = find_key(keys, k);
            let r2 = find_key(keys.remove(i), k);
            if r == -1 {
                r2 == -1
            } else if r < i {
                r2 == r
            } else {
                r > i && r2 == r - 1
            }
        }),
    decreases keys.len(),
{
    lemma_find_key(keys, k);
    if i == 0 {
        assert(keys.remove(0) =~= keys.drop_first());
    } else {
        if keys[0] == k {
            assert(keys.remove(i)[0] == keys[0]);
        } else {
            lemma_find_key_remove(keys.drop_first(), i - 1, k);
            assert(keys.remove(i).drop_first() =~= keys.drop_first().remove(i - 1));
            assert(keys.remove(i)[0] == keys[0]);
        }
    }
}

/// Lookup against an explicit entry sequence: the value at the first
/// entry whose key matches.
pub open spec fn assoc_get<V>(entries: Seq<(String, V)>, key: Seq<char>) -> Option<V> {
    let keys = entries.map_values(|e: (String, V)| e.0@);
    let i = find_key(keys, key);
    if i >= 0 {
        Some(entries[i].1)
    } else {
        None
    }
}

/// A table of values keyed by unique strings.
pub struct Table<V> {
    /// The entries, in insertion order.
    pub entries: Vec<(String, V)>,
}

impl<V> Table<V> {
    /// The sequence of keys, in entry order.
    pub open spec fn keys(self) -> Seq<Seq<char>> {
        self.entries@.map_values(|e: (String, V)| e.0@)
    }

    /// Well-formed: no key occurs twice.
    pub open spec fn wf(self) -> bool {
        forall|i: int, j: int|
            0 <= i < j < self.keys().len() ==> self.keys()[i] != self.keys()[j]
    }

    /// Whether `key` is present.
    pub open spec fn has(self, key: Seq<char>) -> bool {
        find_key(self.keys(), key) >= 0
    }

    /// The value stored under `key`, when present.
    pub open spec fn spec_get(self, key: Seq<char>) -> Option<V> {
        assoc_get(self.entries@, key)
    }

    /// The number of entries.
    pub open spec fn len(self) -> nat {
        self.entries@.len()
    }

    /// Creates an empty table.
    pub fn new() -> (r: Self)
        ensures
            r.entries@ =~= Seq::<(String, V)>::empty(),
            r.wf(),
    {
        Table { entries: Vec::new() }
    }

    /// Finds the index of `key`.
    pub fn find(&self, key: &str) -> (r: Option<usize>)
        ensures
            match r {
                Some(i) => find_key(self.keys(), key@) == i as int,
                None => find_key(self.keys(), key@) == -1,
            },
    {
        proof {
            lemma_find_key(self.keys(), key@);
        }
        let n = self.entries.len();
        let mut i: usize = 0;
        while i < n
            invariant
                n == self.entries@.len(),
                i <= n,
                forall|j: int| 0 <= j < i ==> self.keys()[j] != key@,
            decreases n - i,
        {
            if crate::strutil::str_eq(self.entries[i].0.as_str(), key) {
                proof {
                    lemma_find_key(self.keys(), key@);
                    if find_key(self.keys(), key@) != i as int {
                        assert(self.keys()[i as int] == key@);
                    }
                }
                return Some(i);
            }
            i = i + 1;
        }
        proof {
            lemma_find_key(self.keys(), key@);
            if find_key(self.keys(), key@) >= 0 {
                assert(self.keys()[find_key(self.keys(), key@)] == key@);
            }
        }
        None
    }

    /// Returns a reference to the value under `key`.
    pub fn get(&self, key: &str) -> (r: Option<&V>)
        ensures
            match r {
                Some(v) => self.spec_get(key@) == Some(*v),
                None => self.spec_get(key@) == None::<V>,
            },
    {
        match self.find(key) {
            Some(i) => {
                proof {
                    lemma_find_key(self.keys(), key@);
                }
                Some(&self.entries[i].1)
            },
            None => None,
        }
    }

    /// Returns a mutable reference to the value under `key`. The entry's
    /// key does not change; only the value behind the reference may.
    /// `lemma_entry_update` turns this into facts about lookups.
    pub fn get_mut(&mut self, key: &str) -> (r: Option<&mut V>)
        requires
            old(self).wf(),
        ensures
            match r {
                Some(v) => ({
                    let i = find_key(old(self).keys(), key@);
                    &&& i >= 0
                    &&& *v == old(self).entries@[i].1
                    &&& final(self).entries@ == old(self).entries@.update(
                        i,
                        (old(self).entries@[i].0, *final(v)),
                    )
                }),
                None => !old(self).has(key@) && *final(self) == *old(self),
            },
    {
        let ghost pre = self.entries@;
        let ghost keys0 = pre.map_values(|e: (String, V)| e.0@);
        proof {
            lemma_find_key(keys0, key@);
        }
        match self.find(key) {
            Some(i) => {
                let e = &mut self.entries[i];
                let r = &mut e.1;
                Some(r)
            },
            None => None,
        }
    }

    /// Whether `key` is present.
    pub fn contains(&self, key: &str) -> (r: bool)
        ensures
            r == self.has(key@),
    {
        match self.find(key) {
            Some(_) => true,
            None => false,
        }
    }

    /// Inserts `value` under `key`, replacing the previous value when the
    /// key is already present and appending a new entry otherwise.
    pub fn upsert(&mut self, key: String, value: V)
        requires
            old(self).wf(),
        ensures
            final(self).wf(),
            ({
                let i = find_key(old(self).keys(), key@);
                if i >= 0 {
                    final(self).entries@ =~= old(self).entries@.update(i, (key, value))
                } else {
                    final(self).entries@ =~= old(self).entries@.push((key, value))
                }
            }),
            final(self).spec_get(key@) == Some(value),
            final(self).has(key@),
            forall|k: Seq<char>| k != key@ ==> final(self).spec_get(k) == old(self).spec_get(k),
    {
        proof {
            lemma_find_key(self.keys(), key@);
        }
        let ghost pre = self.entries@;
        let ghost keys0 = pre.map_values(|e: (String, V)| e.0@);
        let ghost fk = find_key(keys0, key@);
        match self.find(key.as_str()) {
            Some(i) => {
                self.entries.set(i, (key, value));
                proof {
                    assert(self.keys() =~= keys0);
                    lemma_find_key(self.keys(), key@);
                    assert forall|k: Seq<char>| k != key@ implies assoc_get(
                        self.entries@,
                        k,
                    ) == assoc_get(pre, k) by {
                        lemma_find_key(keys0, k);
                        if find_key(keys0, k) >= 0 {
                            assert(keys0[find_key(keys0, k)] == k);
                            assert(find_key(keys0, k) != fk);
                        }
                    }
                }
            },
            None => {
                self.entries.push((key, value));
                proof {
                    assert(self.keys() =~= keys0.push(key@));
                    lemma_find_key_push(keys0, key@);
                    lemma_find_key(self.keys(), key@);
                    assert forall|k: Seq<char>| k != key@ implies assoc_get(
                        self.entries@,
                        k,
                    ) == assoc_get(pre, k) by {
                        lemma_find_key_push_other(keys0, key@, k);
                        lemma_find_key(keys0, k);
                    }
                    assert forall|i: int, j: int|
                        0 <= i < j < self.keys().len() implies self.keys()[i]
                        != self.keys()[j] by {
                        if j == self.keys().len() - 1 {
                            lemma_find_key(keys0, key@);
                        }
                    }
                }
            },
        }
    }

    /// Removes the entry under `key`, if present.
    pub fn remove(&mut self, key: &str)
        requires
            old(self).wf(),
        ensures
            final(self).wf(),
            ({
                let i = find_key(old(self).keys(), key@);
                if i >= 0 {
                    final(self).entries@ =~= old(self).entries@.remove(i)
                } else {
                    final(self).entries@ =~= old(self).entries@
                }
            }),
            !final(self).has(key@),
            final(self).spec_get(key@) == None::<V>,
            forall|k: Seq<char>| k != key@ ==> final(self).spec_get(k) == old(self).spec_get(k),
    {
        proof {
            lemma_find_key(self.keys(), key@);
        }
        let ghost pre = self.entries@;
        let ghost keys0 = pre.map_values(|e: (String, V)| e.0@);
        let ghost fk = find_key(keys0, key@);
        match self.find(key) {
            Some(i) => {
                self.entries.remove(i);
                proof {
                    assert(self.keys() =~= keys0.remove(fk));
                    lemma_find_key(keys0, key@);
                    assert forall|k: Seq<char>| k != key@ implies assoc_get(
                        self.entries@,
                        k,
                    ) == assoc_get(pre, k) by {
                        lemma_find_key_remove(keys0, fk, k);
                        lemma_find_key(keys0, k);
                    }
                    if find_key(self.keys(), key@) >= 0 {
                        lemma_find_key(self.keys(), key@);
                        let j = find_key(self.keys(), key@);
                        assert(self.keys()[j] == key@);
                        if j < fk {
                            assert(keys0[j] == key@);
                        } else {
                            assert(keys0[j + 1] == key@);
                        }
                    }
                }
            },
            None => {},
        }
    }
}

/// Replacing only the value of the entry at the key's index preserves
/// the key set and every other lookup, and points the key's own lookup
/// at the new value.
pub proof fn lemma_entry_update<V>(t: Table<V>, pre: Seq<(String, V)>, key: Seq<char>, v: V)
    requires
        ({
            let keys0 = pre.map_values(|e: (String, V)| e.0@);
            let i = find_key(keys0, key);
            &&& forall|a: int, b: int| 0 <= a < b < keys0.len() ==> keys0[a] != keys0[b]
            &&& i >= 0
            &&& t.entries@ == pre.update(i, (pre[i].0, v))
        }),
    ensures
        t.wf(),
        t.keys() == pre.map_values(|e: (String, V)| e.0@),
        t.spec_get(key) == Some(v),
        forall|k: Seq<char>| k != key ==> t.spec_get(k) == assoc_get(pre, k),
{
    let keys0 = pre.map_values(|e: (String, V)| e.0@);
    let i = find_key(keys0, key);
    lemma_find_key(keys0, key);
    assert(pre[i].0@ == keys0[i]);
    assert(t.keys() =~= keys0);
    assert(t.spec_get(key) == Some(v));
    assert forall|k: Seq<char>| k != key implies t.spec_get(k) == assoc_get(pre, k) by {
        lemma_find_key(keys0, k);
        if find_key(keys0, k) >= 0 {
            assert(keys0[find_key(keys0, k)] == k);
            assert(find_key(keys0, k) != i);
        }
    }
}

proof fn lemma_find_key_push(keys: Seq<Seq<char>>, key: Seq<char>)
    requires
        find_key(keys, key) == -1,
    ensures
        find_key(keys.push(key), key) == keys.len(),
    decreases keys.len(),
{
    if keys.len() == 0 {
        assert(keys.push(key)[0] == key);
    } else {
        lemma_find_key(keys, key);
        lemma_find_key_push(keys.drop_first(), key);
        assert(keys.push(key).drop_first() =~= keys.drop_first().push(key));
        assert(keys.push(key)[0] == keys[0]);
    }
}

} // verus!
