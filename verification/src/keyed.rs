//! A small map from string keys to values, kept as a vector of entries.
use vstd::prelude::*;

use crate::text::str_eq;

verus! {

broadcast use vstd::string::group_string_axioms;

/// Entries with pairwise distinct keys; the order of entries carries no meaning.
#[derive(Debug)]
pub struct KeyedStore<V> {
    pub entries: Vec<(String, V)>,
}

impl<V> KeyedStore<V> {
    /// The key of entry `i`.
    pub open spec fn key_at(&self, i: int) -> Seq<char> {
        self.entries@[i].0@
    }

    /// `k` is the key of some entry.
    pub open spec fn has_key(&self, k: Seq<char>) -> bool {
        exists|i: int| 0 <= i < self.entries@.len() && #[trigger] self.key_at(i) == k
    }

    /// No two entries share a key.
    pub open spec fn wf(&self) -> bool {
        forall|i: int, j: int|
            0 <= i < self.entries@.len() && 0 <= j < self.entries@.len() && i != j ==> #[trigger] self.key_at(
                i,
            ) != #[trigger] self.key_at(j)
    }

    /// The entry holding `k`.
    pub open spec fn index_of(&self, k: Seq<char>) -> int {
        choose|i: int| 0 <= i < self.entries@.len() && #[trigger] self.key_at(i) == k
    }

    /// The map the entries stand for.
    pub open spec fn view(&self) -> Map<Seq<char>, V> {
        Map::new(|k: Seq<char>| self.has_key(k), |k: Seq<char>| self.entries@[self.index_of(k)].1)
    }

    proof fn lemma_index_of(&self, i: int)
        requires
            self.wf(),
            0 <= i < self.entries@.len(),
        ensures
            self.has_key(self.key_at(i)),
            self.index_of(self.key_at(i)) == i,
    {
        let k = self.key_at(i);
        assert(self.has_key(k));
        let j = self.index_of(k);
        assert(0 <= j < self.entries@.len() && self.key_at(j) == k);
    }

    /// An empty store.
    pub fn new() -> (s: Self)
        ensures
            s.wf(),
            s.view() == Map::<Seq<char>, V>::empty(),
    {
        let s = KeyedStore { entries: Vec::new() };
        assert(s.view() =~= Map::<Seq<char>, V>::empty());
        s
    }

    /// The position of the entry with key `k`, if any.
    pub fn find(&self, k: &str) -> (r: Option<usize>)
        requires
            self.wf(),
        ensures
            match r {
                Some(i) => i < self.entries@.len() && self.key_at(i as int) == k@ && self.index_of(k@)
                    == i,
                None => !self.has_key(k@),
            },
            r is Some <==> self.view().dom().contains(k@),
    {
        let mut i: usize = 0;
        while i < self.entries.len()
            invariant
                self.wf(),
                i <= self.entries@.len(),
                forall|j: int| 0 <= j < i ==> self.key_at(j) != k@,
            decreases self.entries@.len() - i,
        {
            if str_eq(self.entries[i].0.as_str(), k) {
                proof {
                    self.lemma_index_of(i as int);
                }
                return Some(i);
            }
            i = i + 1;
        }
        None
    }

    proof fn lemma_swap_remove(old_s: Self, new_s: Self, i: int)
        requires
            old_s.wf(),
            0 <= i < old_s.entries@.len(),
            new_s.entries@ == old_s.entries@.update(i, old_s.entries@.last()).drop_last(),
        ensures
            new_s.wf(),
            new_s.view() == old_s.view().remove(old_s.key_at(i)),
    {
        let n = old_s.entries@.len();
        let e = old_s.entries@;
        let ki = old_s.key_at(i);
        // Every new entry is an old entry other than entry `i`.
        assert forall|j: int| 0 <= j < new_s.entries@.len() implies {
            let m = if j == i {
                n - 1
            } else {
                j
            };
            &&& 0 <= m < n
            &&& m != i
            &&& #[trigger] new_s.entries@[j] == e[m]
        } by {}
        assert forall|a: int, b: int|
            0 <= a < new_s.entries@.len() && 0 <= b < new_s.entries@.len() && a != b implies #[trigger] new_s.key_at(
            a,
        ) != #[trigger] new_s.key_at(b) by {
            let ma = if a == i {
                n - 1
            } else {
                a
            };
            let mb = if b == i {
                n - 1
            } else {
                b
            };
            assert(old_s.key_at(ma) != old_s.key_at(mb));
        }
        assert forall|k: Seq<char>| #[trigger] new_s.has_key(k) <==> old_s.has_key(k) && k != ki by {
            if new_s.has_key(k) {
                let j = choose|j: int| 0 <= j < new_s.entries@.len() && #[trigger] new_s.key_at(j) == k;
                let m = if j == i {
                    n - 1
                } else {
                    j
                };
                assert(old_s.key_at(m) == k);
                assert(old_s.key_at(m) != ki);
            }
            if old_s.has_key(k) && k != ki {
                let m = choose|m: int| 0 <= m < n && #[trigger] old_s.key_at(m) == k;
                assert(m != i);
                if m == n - 1 {
                    assert(new_s.key_at(i) == k);
                } else {
                    assert(new_s.key_at(m) == k);
                }
            }
        }
        assert forall|k: Seq<char>| new_s.has_key(k) implies new_s.entries@[new_s.index_of(k)].1
            == old_s.entries@[old_s.index_of(k)].1 by {
            let j = new_s.index_of(k);
            let m = if j == i {
                n - 1
            } else {
                j
            };
            assert(old_s.key_at(m) == k);
            old_s.lemma_index_of(m);
        }
        assert(new_s.view() =~= old_s.view().remove(ki));
    }

    proof fn lemma_push(old_s: Self, new_s: Self, k: String, v: V)
        requires
            old_s.wf(),
            !old_s.has_key(k@),
            new_s.entries@ == old_s.entries@.push((k, v)),
        ensures
            new_s.wf(),
            new_s.view() == old_s.view().insert(k@, v),
    {
        let n = old_s.entries@.len();
        assert forall|j: int| 0 <= j < n implies new_s.key_at(j) == old_s.key_at(j) by {}
        assert(new_s.key_at(n as int) == k@);
        assert forall|a: int, b: int|
            0 <= a < new_s.entries@.len() && 0 <= b < new_s.entries@.len() && a != b implies #[trigger] new_s.key_at(
            a,
        ) != #[trigger] new_s.key_at(b) by {
            if a < n && b < n {
                assert(old_s.key_at(a) != old_s.key_at(b));
            } else if a == n {
                assert(!(0 <= b < n && old_s.key_at(b) == k@));
            } else {
                assert(!(0 <= a < n && old_s.key_at(a) == k@));
            }
        }
        assert forall|q: Seq<char>| #[trigger] new_s.has_key(q) <==> old_s.has_key(q) || q == k@ by {
            if new_s.has_key(q) {
                let j = choose|j: int| 0 <= j < new_s.entries@.len() && #[trigger] new_s.key_at(j) == q;
                if j < n {
                    assert(old_s.key_at(j) == q);
                }
            }
            if old_s.has_key(q) {
                let m = choose|m: int| 0 <= m < n && #[trigger] old_s.key_at(m) == q;
                assert(new_s.key_at(m) == q);
            }
        }
        assert forall|q: Seq<char>| new_s.has_key(q) implies new_s.entries@[new_s.index_of(q)].1
            == (if q == k@ {
            v
        } else {
            old_s.entries@[old_s.index_of(q)].1
        }) by {
            let j = new_s.index_of(q);
            if j == n {
                assert(q == k@);
            } else {
                assert(old_s.key_at(j) == q);
                old_s.lemma_index_of(j);
                assert(q != k@);
            }
        }
        assert(new_s.view() =~= old_s.view().insert(k@, v));
    }

    /// Removes the entry with key `k`, answering it.
    pub fn remove(&mut self, k: &str) -> (r: Option<(String, V)>)
        requires
            old(self).wf(),
        ensures
            final(self).wf(),
            final(self).view() == old(self).view().remove(k@),
            match r {
                Some(entry) => old(self).view().dom().contains(k@) && entry.0@ == k@ && entry.1
                    == old(self).view()[k@],
                None => !old(self).view().dom().contains(k@),
            },
    {
        match self.find(k) {
            Some(i) => {
                let ghost before = *self;
                let entry = self.entries.swap_remove(i);
                proof {
                    Self::lemma_swap_remove(before, *self, i as int);
                }
                Some(entry)
            },
            None => {
                assert(self.view().remove(k@) =~= self.view());
                None
            },
        }
    }

    /// Sets the value of `k`, replacing an earlier one.
    pub fn insert(&mut self, k: String, v: V)
        requires
            old(self).wf(),
        ensures
            final(self).wf(),
            final(self).view() == old(self).view().insert(k@, v),
    {
        let ghost original = self.view();
        let _ = self.remove(k.as_str());
        let ghost mid = *self;
        assert(!mid.view().dom().contains(k@));
        assert(!mid.has_key(k@));
        self.entries.push((k, v));
        proof {
            Self::lemma_push(mid, *self, k, v);
            assert(original.remove(k@).insert(k@, v) =~= original.insert(k@, v));
        }
    }
}

} // verus!
