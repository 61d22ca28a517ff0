//! A map keyed by strings, backed by a vector of entries.
//!
//! Per-process state (health history, log offsets, backoff) is keyed by the
//! process name.  This map stores the entries in insertion order, keeps the
//! keys unique, and is viewed in specifications as a `Map<Seq<char>, V>`.
use vstd::prelude::*;

use crate::text::str_eq;

verus! {

pub struct StrMap<V> {
    entries: Vec<(String, V)>,
}

impl<V> StrMap<V> {
    /// The mathematical map these entries denote.
    pub closed spec fn view(&self) -> Map<Seq<char>, V> {
        Self::map_of(self.entries@)
    }

    pub closed spec fn map_of(s: Seq<(String, V)>) -> Map<Seq<char>, V>
        decreases s.len(),
    {
        if s.len() == 0 {
            Map::empty()
        } else {
            Self::map_of(s.drop_last()).insert(s.last().0@, s.last().1)
        }
    }

    spec fn keys_unique(s: Seq<(String, V)>) -> bool {
        forall|i: int, j: int|
            0 <= i < j < s.len() ==> (#[trigger] s[i]).0@ != (#[trigger] s[j]).0@
    }

    /// The representation keeps one entry per key.
    pub closed spec fn wf(&self) -> bool {
        Self::keys_unique(self.entries@)
    }

    proof fn lemma_map_of_contains(s: Seq<(String, V)>, i: int)
        requires
            Self::keys_unique(s),
            0 <= i < s.len(),
        ensures
            Self::map_of(s).contains_key(s[i].0@),
            Self::map_of(s)[s[i].0@] == s[i].1,
        decreases s.len(),
    {
        if i < s.len() - 1 {
            assert(s.drop_last()[i] == s[i]);
            Self::lemma_map_of_contains(s.drop_last(), i);
            assert(s[i].0@ != s.last().0@);
        }
    }

    proof fn lemma_map_of_absent(s: Seq<(String, V)>, k: Seq<char>)
        requires
            forall|i: int| 0 <= i < s.len() ==> (#[trigger] s[i]).0@ != k,
        ensures
            !Self::map_of(s).contains_key(k),
        decreases s.len(),
    {
        if s.len() > 0 {
            assert forall|i: int| 0 <= i < s.len() - 1 implies (#[trigger] s.drop_last()[i]).0@
                != k by {
                assert(s.drop_last()[i] == s[i]);
            }
            Self::lemma_map_of_absent(s.drop_last(), k);
        }
    }

    proof fn lemma_map_of_dom(s: Seq<(String, V)>, k: Seq<char>)
        requires
            Self::map_of(s).contains_key(k),
        ensures
            exists|i: int| 0 <= i < s.len() && (#[trigger] s[i]).0@ == k,
        decreases s.len(),
    {
        if s.len() > 0 {
            if s.last().0@ == k {
                assert(s[s.len() - 1].0@ == k);
            } else {
                Self::lemma_map_of_dom(s.drop_last(), k);
                let i = choose|i: int|
                    0 <= i < s.drop_last().len() && (#[trigger] s.drop_last()[i]).0@ == k;
                assert(s[i] == s.drop_last()[i]);
            }
        }
    }

    pub fn new() -> (r: Self)
        ensures
            r.wf(),
            r@ == Map::<Seq<char>, V>::empty(),
            r.spec_len() == 0,
    {
        StrMap { entries: Vec::new() }
    }

    /// Index of the entry for `key`, if one exists.
    fn find(&self, key: &str) -> (r: Option<usize>)
        requires
            self.wf(),
        ensures
            r matches Some(i) ==> i < self.entries@.len() && self.entries@[i as int].0@ == key@,
            r is None ==> !self@.contains_key(key@),
    {
        let mut i: usize = 0;
        while i < self.entries.len()
            invariant
                self.wf(),
                0 <= i <= self.entries@.len(),
                forall|k: int| 0 <= k < i ==> (#[trigger] self.entries@[k]).0@ != key@,
            decreases self.entries@.len() - i,
        {
            if str_eq(self.entries[i].0.as_str(), key) {
                return Some(i);
            }
            i = i + 1;
        }
        proof {
            Self::lemma_map_of_absent(self.entries@, key@);
        }
        None
    }

    pub fn contains_key(&self, key: &str) -> (r: bool)
        requires
            self.wf(),
        ensures
            r == self@.contains_key(key@),
    {
        let r = self.find(key);
        proof {
            if r is Some {
                Self::lemma_map_of_contains(self.entries@, r->0 as int);
            }
        }
        r.is_some()
    }

    pub fn get(&self, key: &str) -> (r: Option<&V>)
        requires
            self.wf(),
        ensures
            r matches Some(v) ==> self@.contains_key(key@) && *v == self@[key@],
            r is None ==> !self@.contains_key(key@),
    {
        match self.find(key) {
            Some(i) => {
                proof {
                    Self::lemma_map_of_contains(self.entries@, i as int);
                }
                Some(&self.entries[i].1)
            },
            None => None,
        }
    }

    /// Insert or overwrite.
    pub fn insert(&mut self, key: String, value: V)
        requires
            old(self).wf(),
        ensures
            final(self).wf(),
            final(self)@ == old(self)@.insert(key@, value),
            old(self)@.contains_key(key@) ==> final(self).spec_len() == old(self).spec_len(),
            !old(self)@.contains_key(key@) ==> final(self).spec_len() == old(self).spec_len()
                + 1,
    {
        let found = self.find(key.as_str());
        match found {
            Some(i) => {
                let ghost before = self.entries@;
                let entry = self.entries.remove(i);
                self.entries.push((key, value));
                proof {
                    let after = self.entries@;
                    assert(after =~= before.remove(i as int).push((key, value)));
                    Self::lemma_keys_unique_remove(before, i as int);
                    assert(Self::keys_unique(after)) by {
                        let removed = before.remove(i as int);
                        assert forall|a: int, b: int| 0 <= a < b < after.len() implies (
                        #[trigger] after[a]).0@ != (#[trigger] after[b]).0@ by {
                            if b < after.len() - 1 {
                                assert(after[a] == removed[a] && after[b] == removed[b]);
                            } else {
                                assert(after[a] == removed[a]);
                                Self::lemma_remove_no_key(before, i as int, key@);
                            }
                        }
                    }
                    Self::lemma_map_of_insert_at(before, i as int, (key, value));
                    Self::lemma_map_of_contains(before, i as int);
                }
            },
            None => {
                let ghost before = self.entries@;
                self.entries.push((key, value));
                proof {
                    assert(Self::keys_unique(self.entries@)) by {
                        assert forall|a: int, b: int|
                            0 <= a < b < self.entries@.len() implies (
                        #[trigger] self.entries@[a]).0@ != (#[trigger] self.entries@[b]).0@ by {
                            if b == self.entries@.len() - 1 {
                                assert(self.entries@[a] == before[a]);
                                if before[a].0@ == key@ {
                                    Self::lemma_map_of_contains(before, a);
                                }
                            } else {
                                assert(self.entries@[a] == before[a]);
                                assert(self.entries@[b] == before[b]);
                            }
                        }
                    }
                    assert(self.entries@.drop_last() =~= before);
                }
            },
        }
    }

    proof fn lemma_keys_unique_remove(s: Seq<(String, V)>, i: int)
        requires
            Self::keys_unique(s),
            0 <= i < s.len(),
        ensures
            Self::keys_unique(s.remove(i)),
    {
        let t = s.remove(i);
        assert forall|a: int, b: int| 0 <= a < b < t.len() implies (#[trigger] t[a]).0@ != (
        #[trigger] t[b]).0@ by {
            let a0 = if a < i {
                a
            } else {
                a + 1
            };
            let b0 = if b < i {
                b
            } else {
                b + 1
            };
            assert(t[a] == s[a0] && t[b] == s[b0]);
        }
    }

    proof fn lemma_remove_no_key(s: Seq<(String, V)>, i: int, k: Seq<char>)
        requires
            Self::keys_unique(s),
            0 <= i < s.len(),
            s[i].0@ == k,
        ensures
            forall|j: int| 0 <= j < s.remove(i).len() ==> (#[trigger] s.remove(i)[j]).0@ != k,
    {
        let t = s.remove(i);
        assert forall|j: int| 0 <= j < t.len() implies (#[trigger] t[j]).0@ != k by {
            let j0 = if j < i {
                j
            } else {
                j + 1
            };
            assert(t[j] == s[j0]);
        }
    }

    /// Removing the entry that holds a key and appending a fresh entry for
    /// the same key denotes the same map as a plain insert.
    proof fn lemma_map_of_insert_at(s: Seq<(String, V)>, i: int, e: (String, V))
        requires
            Self::keys_unique(s),
            0 <= i < s.len(),
            s[i].0@ == e.0@,
        ensures
            Self::map_of(s.remove(i).push(e)) == Self::map_of(s).insert(e.0@, e.1),
    {
        let k = e.0@;
        let lhs = s.remove(i).push(e);
        assert(lhs.drop_last() =~= s.remove(i));
        assert(Self::map_of(lhs) == Self::map_of(s.remove(i)).insert(k, e.1));
        Self::lemma_map_of_remove(s, i);
        assert(Self::map_of(s.remove(i)) == Self::map_of(s).remove(k));
        assert(Self::map_of(s).remove(k).insert(k, e.1) =~= Self::map_of(s).insert(k, e.1));
    }

    proof fn lemma_map_of_remove(s: Seq<(String, V)>, i: int)
        requires
            Self::keys_unique(s),
            0 <= i < s.len(),
        ensures
            Self::map_of(s.remove(i)) == Self::map_of(s).remove(s[i].0@),
        decreases s.len(),
    {
        let k = s[i].0@;
        let t = s.remove(i);
        if i == s.len() - 1 {
            assert(t =~= s.drop_last());
            Self::lemma_map_of_absent_from_unique(s.drop_last(), s, k);
            assert(Self::map_of(s) == Self::map_of(s.drop_last()).insert(k, s[i].1));
            assert(Self::map_of(s).remove(k) =~= Self::map_of(s.drop_last()));
        } else {
            let s2 = s.drop_last();
            assert(t.last() == s.last());
            assert(t.drop_last() =~= s2.remove(i));
            Self::lemma_keys_unique_drop_last(s);
            Self::lemma_map_of_remove(s2, i);
            assert(Self::map_of(t) == Self::map_of(s2).remove(k).insert(s.last().0@, s.last().1));
            assert(Self::map_of(s).remove(k) =~= Self::map_of(s2).insert(
                s.last().0@,
                s.last().1,
            ).remove(k));
            assert(s.last().0@ != k);
            assert(Self::map_of(s2).insert(s.last().0@, s.last().1).remove(k) =~= Self::map_of(
                s2,
            ).remove(k).insert(s.last().0@, s.last().1));
        }
    }

    proof fn lemma_keys_unique_drop_last(s: Seq<(String, V)>)
        requires
            Self::keys_unique(s),
            s.len() > 0,
        ensures
            Self::keys_unique(s.drop_last()),
    {
        assert forall|a: int, b: int| 0 <= a < b < s.drop_last().len() implies (
        #[trigger] s.drop_last()[a]).0@ != (#[trigger] s.drop_last()[b]).0@ by {
            assert(s.drop_last()[a] == s[a] && s.drop_last()[b] == s[b]);
        }
    }

    proof fn lemma_map_of_absent_from_unique(t: Seq<(String, V)>, s: Seq<(String, V)>, k: Seq<char>)
        requires
            Self::keys_unique(s),
            s.len() > 0,
            t =~= s.drop_last(),
            s.last().0@ == k,
        ensures
            !Self::map_of(t).contains_key(k),
    {
        assert forall|j: int| 0 <= j < t.len() implies (#[trigger] t[j]).0@ != k by {
            assert(t[j] == s[j]);
        }
        Self::lemma_map_of_absent(t, k);
    }

    /// Remove the entry for `key`, returning its value if present.
    pub fn take(&mut self, key: &str) -> (r: Option<V>)
        requires
            old(self).wf(),
        ensures
            final(self).wf(),
            final(self)@ == old(self)@.remove(key@),
            r matches Some(v) ==> old(self)@.contains_key(key@) && v == old(self)@[key@],
            r is None ==> !old(self)@.contains_key(key@),
    {
        let found = self.find(key);
        match found {
            Some(i) => {
                proof {
                    Self::lemma_map_of_contains(self.entries@, i as int);
                    Self::lemma_map_of_remove(self.entries@, i as int);
                    Self::lemma_keys_unique_remove(self.entries@, i as int);
                }
                let (_, v) = self.entries.remove(i);
                Some(v)
            },
            None => {
                proof {
                    assert(self@.remove(key@) =~= self@);
                }
                None
            },
        }
    }

    /// Remove the entry for `key` if present.
    pub fn remove_key(&mut self, key: &str)
        requires
            old(self).wf(),
        ensures
            final(self).wf(),
            final(self)@ == old(self)@.remove(key@),
    {
        let _ = self.take(key);
    }

    pub fn len(&self) -> (r: usize)
        ensures
            r == self.spec_len(),
    {
        self.entries.len()
    }

    /// The keys held, in insertion order.
    pub fn keys(&self) -> (r: Vec<String>)
        requires
            self.wf(),
        ensures
            r@.len() == self.spec_len(),
            forall|i: int| 0 <= i < r@.len() ==> self@.contains_key((#[trigger] r@[i])@),
            forall|i: int, j: int|
                0 <= i < j < r@.len() ==> (#[trigger] r@[i])@ != (#[trigger] r@[j])@,
            forall|k: Seq<char>|
                self@.contains_key(k) ==> exists|i: int| 0 <= i < r@.len() && (#[trigger] r@[i])@
                    == k,
    {
        let mut r: Vec<String> = Vec::new();
        let mut i: usize = 0;
        while i < self.entries.len()
            invariant
                self.wf(),
                0 <= i <= self.entries@.len(),
                r@.len() == i,
                forall|k: int| 0 <= k < i ==> (#[trigger] r@[k])@ == self.entries@[k].0@,
            decreases self.entries@.len() - i,
        {
            proof {
                Self::lemma_map_of_contains(self.entries@, i as int);
            }
            r.push(self.entries[i].0.clone());
            i = i + 1;
        }
        proof {
            assert forall|a: int| 0 <= a < r@.len() implies self@.contains_key(
                (#[trigger] r@[a])@,
            ) by {
                Self::lemma_map_of_contains(self.entries@, a);
            }
            assert forall|k: Seq<char>| self@.contains_key(k) implies exists|a: int|
                0 <= a < r@.len() && (#[trigger] r@[a])@ == k by {
                Self::lemma_map_of_dom(self.entries@, k);
                let a = choose|a: int|
                    0 <= a < self.entries@.len() && (#[trigger] self.entries@[a]).0@ == k;
                assert(r@[a]@ == k);
            }
        }
        r
    }

    /// Number of entries held.
    pub closed spec fn spec_len(&self) -> nat {
        self.entries@.len()
    }
}

} // verus!
