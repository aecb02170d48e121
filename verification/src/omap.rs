//! An insertion-ordered map from `String` keys to values, backed by a vector
//! of key/value pairs with pairwise-distinct keys.
//!
//! Inserting a fresh key appends it; inserting an existing key overwrites the
//! value in place, keeping the key's position.  Removal closes the gap, so the
//! relative order of the remaining entries is preserved.  All contracts are
//! stated over the sequence of entries, so both the mapping and the insertion
//! order are pinned down.

use vstd::prelude::*;

verus! {

/// Does the entry sequence `s` contain an entry whose key reads `k`?
pub open spec fn has_key<T>(s: Seq<(String, T)>, k: Seq<char>) -> bool {
    exists|i: int| 0 <= i < s.len() && s[i].0@ == k
}

/// The index of the entry whose key reads `k` (unique under `distinct_keys`).
pub open spec fn key_index<T>(s: Seq<(String, T)>, k: Seq<char>) -> int {
    choose|i: int| 0 <= i < s.len() && s[i].0@ == k
}

/// The value stored under the key that reads `k`.
pub open spec fn value_of<T>(s: Seq<(String, T)>, k: Seq<char>) -> T {
    s[key_index(s, k)].1
}

/// No two entries of `s` have keys that read the same.
pub open spec fn distinct_keys<T>(s: Seq<(String, T)>) -> bool {
    forall|i: int, j: int| 0 <= i < j < s.len() ==> s[i].0@ != s[j].0@
}

/// The entry sequence after inserting `e`: overwrite the value in place when
/// the key is already present (the stored key is kept), append otherwise.
pub open spec fn upsert<T>(s: Seq<(String, T)>, e: (String, T)) -> Seq<(String, T)> {
    if has_key(s, e.0@) {
        s.update(key_index(s, e.0@), (s[key_index(s, e.0@)].0, e.1))
    } else {
        s.push(e)
    }
}

/// The entry sequence after removing the key that reads `k`, keeping the
/// order of the remaining entries; unchanged when the key is absent.
pub open spec fn remove_key<T>(s: Seq<(String, T)>, k: Seq<char>) -> Seq<(String, T)> {
    if has_key(s, k) {
        s.remove(key_index(s, k))
    } else {
        s
    }
}

/// Under `distinct_keys`, the witness chosen by `key_index` for the key of
/// entry `i` is `i` itself.
pub proof fn lemma_key_index_of_entry<T>(s: Seq<(String, T)>, i: int)
    requires
        distinct_keys(s),
        0 <= i < s.len(),
    ensures
        has_key(s, s[i].0@),
        key_index(s, s[i].0@) == i,
{
    assert(has_key(s, s[i].0@));
    let j = key_index(s, s[i].0@);
    if i < j {
        assert(s[i].0@ != s[j].0@);
    } else if j < i {
        assert(s[j].0@ != s[i].0@);
    }
}

#[derive(Debug, Clone)]
pub struct OrderedMap<T> {
    pub entries: Vec<(String, T)>,
}

impl<T> View for OrderedMap<T> {
    type V = Seq<(String, T)>;

    open spec fn view(&self) -> Seq<(String, T)> {
        self.entries@
    }
}

impl<T> OrderedMap<T> {
    /// Well-formedness: the keys are pairwise distinct.
    pub open spec fn wf(&self) -> bool {
        distinct_keys(self@)
    }

    pub fn new() -> (r: Self)
        ensures
            r@ == Seq::<(String, T)>::empty(),
            r.wf(),
    {
        OrderedMap { entries: Vec::new() }
    }

    pub fn len(&self) -> (n: usize)
        ensures
            n == self@.len(),
    {
        self.entries.len()
    }

    pub fn is_empty(&self) -> (r: bool)
        ensures
            r == (self@.len() == 0),
    {
        self.entries.len() == 0
    }

    /// The index of the first entry whose key reads `k@`, if any.
    fn position(&self, k: &str) -> (r: Option<usize>)
        ensures
            match r {
                Some(i) => i < self@.len() && self@[i as int].0@ == k@ && forall|j: int|
                    0 <= j < i ==> self@[j].0@ != k@,
                None => !has_key(self@, k@),
            },
    {
        let key: String = k.to_owned();
        let n = self.entries.len();
        let mut i: usize = 0;
        while i < n
            invariant
                n == self@.len(),
                i <= n,
                key@ == k@,
                forall|j: int| 0 <= j < i ==> self@[j].0@ != k@,
            decreases n - i,
        {
            if self.entries[i].0 == key {
                return Some(i);
            }
            i += 1;
        }
        None
    }

    pub fn contains_key(&self, k: &str) -> (r: bool)
        ensures
            r == has_key(self@, k@),
    {
        self.position(k).is_some()
    }

    pub fn get(&self, k: &str) -> (r: Option<&T>)
        requires
            self.wf(),
        ensures
            match r {
                Some(v) => has_key(self@, k@) && *v == value_of(self@, k@),
                None => !has_key(self@, k@),
            },
    {
        match self.position(k) {
            Some(i) => {
                proof {
                    lemma_key_index_of_entry(self@, i as int);
                }
                Some(&self.entries[i].1)
            },
            None => None,
        }
    }

    /// Insert `v` under `k`: overwrite in place when `k` is present, append
    /// otherwise.
    pub fn insert(&mut self, k: String, v: T)
        requires
            old(self).wf(),
        ensures
            final(self)@ == upsert(old(self)@, (k, v)),
            final(self).wf(),
    {
        match self.position(k.as_str()) {
            Some(i) => {
                proof {
                    lemma_key_index_of_entry(self@, i as int);
                }
                self.entries[i].1 = v;
                proof {
                    assert forall|p: int, q: int| 0 <= p < q < self@.len() implies self@[p].0@
                        != self@[q].0@ by {
                        assert(old(self)@[p].0@ != old(self)@[q].0@);
                    }
                }
            },
            None => {
                self.entries.push((k, v));
                proof {
                    assert forall|p: int, q: int| 0 <= p < q < self@.len() implies self@[p].0@
                        != self@[q].0@ by {
                        if q < self@.len() - 1 {
                            assert(old(self)@[p].0@ != old(self)@[q].0@);
                        } else {
                            assert(!has_key(old(self)@, k@));
                            assert(old(self)@[p].0@ != k@);
                        }
                    }
                }
            },
        }
    }

    /// Remove the entry under `k`, shifting later entries down.
    pub fn shift_remove(&mut self, k: &str) -> (r: Option<T>)
        requires
            old(self).wf(),
        ensures
            final(self).wf(),
            match r {
                Some(v) => has_key(old(self)@, k@) && v == value_of(old(self)@, k@)
                    && final(self)@ == remove_key(old(self)@, k@),
                None => !has_key(old(self)@, k@) && final(self)@ == old(self)@,
            },
    {
        match self.position(k) {
            Some(i) => {
                proof {
                    lemma_key_index_of_entry(self@, i as int);
                }
                let e = self.entries.remove(i);
                proof {
                    assert forall|p: int, q: int| 0 <= p < q < self@.len() implies self@[p].0@
                        != self@[q].0@ by {
                        let po: int = if p < i { p } else { p + 1 };
                        let qo: int = if q < i { q } else { q + 1 };
                        assert(old(self)@[po].0@ != old(self)@[qo].0@);
                    }
                }
                Some(e.1)
            },
            None => None,
        }
    }

    /// The keys, in entry order, as fresh strings.
    pub fn keys(&self) -> (r: Vec<String>)
        ensures
            r@.len() == self@.len(),
            forall|i: int| 0 <= i < self@.len() ==> r@[i] == self@[i].0,
    {
        let n = self.entries.len();
        let mut out: Vec<String> = Vec::new();
        let mut i: usize = 0;
        while i < n
            invariant
                n == self@.len(),
                i <= n,
                out@.len() == i,
                forall|j: int| 0 <= j < i ==> out@[j] == self@[j].0,
            decreases n - i,
        {
            out.push(self.entries[i].0.clone());
            i += 1;
        }
        out
    }

    /// The first key in entry order, if any.
    pub fn first_key(&self) -> (r: Option<String>)
        ensures
            match r {
                Some(s) => self@.len() > 0 && s == self@[0].0,
                None => self@.len() == 0,
            },
    {
        if self.entries.len() > 0 {
            Some(self.entries[0].0.clone())
        } else {
            None
        }
    }

    pub fn key_at(&self, i: usize) -> (r: &String)
        requires
            i < self@.len(),
        ensures
            *r == self@[i as int].0,
    {
        &self.entries[i].0
    }

    pub fn value_at(&self, i: usize) -> (r: &T)
        requires
            i < self@.len(),
        ensures
            *r == self@[i as int].1,
    {
        &self.entries[i].1
    }

    /// A mutable borrow of the value at entry `i`; the key keeps its place.
    pub fn value_at_mut(&mut self, i: usize) -> (r: &mut T)
        requires
            i < old(self)@.len(),
        ensures
            *r == old(self)@[i as int].1,
            final(self)@ == old(self)@.update(i as int, (old(self)@[i as int].0, *final(r))),
            old(self).wf() ==> final(self).wf(),
    {
        proof {
            assert forall|x: T| distinct_keys(old(self)@) implies distinct_keys(
                old(self)@.update(i as int, (old(self)@[i as int].0, x)),
            ) by {
                let s = old(self)@.update(i as int, (old(self)@[i as int].0, x));
                assert forall|p: int, q: int| 0 <= p < q < s.len() implies s[p].0@ != s[q].0@ by {
                    assert(old(self)@[p].0@ != old(self)@[q].0@);
                    assert(s[p].0 == old(self)@[p].0);
                    assert(s[q].0 == old(self)@[q].0);
                }
            }
        }
        &mut self.entries[i].1
    }

    /// The index of the entry whose key reads `k@`, as a checked lookup.
    pub fn index_of(&self, k: &str) -> (r: Option<usize>)
        requires
            self.wf(),
        ensures
            match r {
                Some(i) => has_key(self@, k@) && i == key_index(self@, k@),
                None => !has_key(self@, k@),
            },
    {
        match self.position(k) {
            Some(i) => {
                proof {
                    lemma_key_index_of_entry(self@, i as int);
                }
                Some(i)
            },
            None => None,
        }
    }
}

impl OrderedMap<String> {
    /// A deep copy of a map of strings; the copy reads entry-for-entry the
    /// same.
    pub fn duplicate(&self) -> (r: Self)
        ensures
            r@ == self@,
    {
        let n = self.entries.len();
        let mut out: Vec<(String, String)> = Vec::new();
        let mut i: usize = 0;
        while i < n
            invariant
                n == self@.len(),
                i <= n,
                out@.len() == i,
                forall|j: int| 0 <= j < i ==> out@[j] == self@[j],
            decreases n - i,
        {
            out.push((self.entries[i].0.clone(), self.entries[i].1.clone()));
            i += 1;
        }
        proof {
            assert(out@ =~= self@);
        }
        OrderedMap { entries: out }
    }
}

} // verus!
