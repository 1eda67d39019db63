//! An ordered component column: a map from entity identifier to one
//! component value, walked in ascending identifier order.
use vstd::prelude::*;

verus! {

/// Every key is strictly smaller than the keys after it.
pub open spec fn keys_ascending<T>(s: Seq<(usize, T)>) -> bool {
    forall|i: int, j: int| 0 <= i < j < s.len() ==> s[i].0 < s[j].0
}

/// The value stored under `k`, searching from the back.
pub open spec fn lookup<T>(s: Seq<(usize, T)>, k: usize) -> Option<T>
    decreases s.len(),
{
    if s.len() == 0 {
        None
    } else if s.last().0 == k {
        Some(s.last().1)
    } else {
        lookup(s.drop_last(), k)
    }
}

proof fn lemma_lookup_at<T>(s: Seq<(usize, T)>, k: usize, i: int)
    requires
        keys_ascending(s),
        0 <= i < s.len(),
        s[i].0 == k,
    ensures
        lookup(s, k) == Some(s[i].1),
    decreases s.len(),
{
    if i < s.len() - 1 {
        assert(s[i].0 < s[s.len() - 1].0);
        let t = s.drop_last();
        assert(keys_ascending(t)) by {
            assert forall|a: int, b: int| 0 <= a < b < t.len() implies t[a].0 < t[b].0 by {
                assert(t[a] == s[a] && t[b] == s[b]);
            }
        }
        lemma_lookup_at(t, k, i);
    }
}

proof fn lemma_lookup_absent<T>(s: Seq<(usize, T)>, k: usize)
    requires
        forall|i: int| 0 <= i < s.len() ==> s[i].0 != k,
    ensures
        lookup(s, k) == None::<T>,
    decreases s.len(),
{
    if s.len() > 0 {
        let t = s.drop_last();
        assert forall|i: int| 0 <= i < t.len() implies t[i].0 != k by {
            assert(t[i] == s[i]);
        }
        lemma_lookup_absent(t, k);
    }
}

/// The value under `k`, given by the entry that holds `k` or by its absence.
pub proof fn lemma_lookup<T>(s: Seq<(usize, T)>, k: usize)
    requires
        keys_ascending(s),
    ensures
        forall|i: int| 0 <= i < s.len() && s[i].0 == k ==> lookup(s, k) == Some(s[i].1),
        (forall|i: int| 0 <= i < s.len() ==> s[i].0 != k) ==> lookup(s, k) == None::<T>,
{
    assert forall|i: int| 0 <= i < s.len() && s[i].0 == k implies lookup(s, k) == Some(s[i].1) by {
        lemma_lookup_at(s, k, i);
    }
    if forall|i: int| 0 <= i < s.len() ==> s[i].0 != k {
        lemma_lookup_absent(s, k);
    }
}

proof fn lemma_replace_at<T>(s: Seq<(usize, T)>, i: int, k: usize, v: T)
    requires
        keys_ascending(s),
        0 <= i < s.len(),
        s[i].0 == k,
    ensures
        keys_ascending(s.update(i, (k, v))),
        lookup(s.update(i, (k, v)), k) == Some(v),
        forall|k2: usize| k2 != k ==> lookup(s.update(i, (k, v)), k2) == lookup(s, k2),
{
    let t = s.update(i, (k, v));
    assert forall|a: int, b: int| 0 <= a < b < t.len() implies t[a].0 < t[b].0 by {
        assert(t[a].0 == s[a].0 && t[b].0 == s[b].0);
    }
    lemma_lookup_at(t, k, i);
    assert forall|k2: usize| k2 != k implies lookup(t, k2) == lookup(s, k2) by {
        if exists|j: int| 0 <= j < s.len() && s[j].0 == k2 {
            let j = choose|j: int| 0 <= j < s.len() && s[j].0 == k2;
            assert(t[j] == s[j]);
            lemma_lookup_at(t, k2, j);
            lemma_lookup_at(s, k2, j);
        } else {
            assert forall|j: int| 0 <= j < t.len() implies t[j].0 != k2 by {
                if j != i {
                    assert(t[j] == s[j]);
                }
            }
            lemma_lookup_absent(t, k2);
            lemma_lookup_absent(s, k2);
        }
    }
}

proof fn lemma_insert_at<T>(s: Seq<(usize, T)>, i: int, k: usize, v: T)
    requires
        keys_ascending(s),
        0 <= i <= s.len(),
        forall|j: int| 0 <= j < i ==> s[j].0 < k,
        i < s.len() ==> s[i].0 > k,
    ensures
        keys_ascending(s.insert(i, (k, v))),
        lookup(s.insert(i, (k, v)), k) == Some(v),
        forall|k2: usize| k2 != k ==> lookup(s.insert(i, (k, v)), k2) == lookup(s, k2),
{
    let t = s.insert(i, (k, v));
    s.insert_ensures(i, (k, v));
    assert forall|j: int| i <= j < s.len() implies s[j].0 > k by {
        if j > i {
            assert(s[i].0 < s[j].0);
        }
    }
    assert forall|a: int, b: int| 0 <= a < b < t.len() implies t[a].0 < t[b].0 by {
        if b < i {
            assert(t[a] == s[a] && t[b] == s[b]);
        } else if b == i {
            assert(t[a] == s[a]);
        } else if a < i {
            assert(t[a] == s[a] && t[b] == s[b - 1]);
        } else if a == i {
            assert(t[b] == s[b - 1]);
        } else {
            assert(t[a] == s[a - 1] && t[b] == s[b - 1]);
        }
    }
    lemma_lookup_at(t, k, i);
    assert forall|k2: usize| k2 != k implies lookup(t, k2) == lookup(s, k2) by {
        if exists|j: int| 0 <= j < s.len() && s[j].0 == k2 {
            let j = choose|j: int| 0 <= j < s.len() && s[j].0 == k2;
            if j < i {
                assert(t[j] == s[j]);
                lemma_lookup_at(t, k2, j);
            } else {
                assert(t[j + 1] == s[j]);
                lemma_lookup_at(t, k2, j + 1);
            }
            lemma_lookup_at(s, k2, j);
        } else {
            assert forall|j: int| 0 <= j < t.len() implies t[j].0 != k2 by {
                if j < i {
                    assert(t[j] == s[j]);
                } else if j > i {
                    assert(t[j] == s[j - 1]);
                }
            }
            lemma_lookup_absent(t, k2);
            lemma_lookup_absent(s, k2);
        }
    }
}

/// A column of components keyed by entity, kept in ascending key order.
pub struct ComponentMap<T> {
    entries: Vec<(usize, T)>,
}

impl<T> View for ComponentMap<T> {
    type V = Seq<(usize, T)>;

    closed spec fn view(&self) -> Seq<(usize, T)> {
        self.entries@
    }
}

impl<T: Copy> ComponentMap<T> {
    /// Keys are unique and ascending.
    pub open spec fn wf(&self) -> bool {
        keys_ascending(self@)
    }

    /// The component held for entity `k`, if any.
    pub open spec fn spec_get(&self, k: usize) -> Option<T> {
        lookup(self@, k)
    }

    pub fn new() -> (r: Self)
        ensures
            r.wf(),
            r@ == Seq::<(usize, T)>::empty(),
            forall|k: usize| r.spec_get(k) == None::<T>,
    {
        ComponentMap { entries: Vec::new() }
    }

    /// Number of entities holding this component.
    pub fn len(&self) -> (r: usize)
        ensures
            r == self@.len(),
    {
        self.entries.len()
    }

    /// The `i`-th entry in ascending key order.
    pub fn entry_at(&self, i: usize) -> (r: (usize, T))
        requires
            i < self@.len(),
        ensures
            r == self@[i as int],
    {
        self.entries[i]
    }

    pub fn get(&self, k: usize) -> (r: Option<T>)
        requires
            self.wf(),
        ensures
            r == self.spec_get(k),
    {
        proof {
            lemma_lookup(self@, k);
        }
        let n = self.entries.len();
        let mut i: usize = 0;
        while i < n
            invariant
                self.wf(),
                n == self@.len(),
                i <= n,
                forall|j: int| 0 <= j < i ==> self@[j].0 != k,
            decreases n - i,
        {
            let e = self.entries[i];
            if e.0 == k {
                proof {
                    lemma_lookup_at(self@, k, i as int);
                }
                return Some(e.1);
            }
            i += 1;
        }
        None
    }

    /// Inserts `v` under `k`, replacing any earlier value.
    pub fn insert(&mut self, k: usize, v: T)
        requires
            old(self).wf(),
        ensures
            final(self).wf(),
            final(self).spec_get(k) == Some(v),
            forall|k2: usize| k2 != k ==> final(self).spec_get(k2) == old(self).spec_get(k2),
    {
        let ghost s = self@;
        let n = self.entries.len();
        let mut i: usize = 0;
        while i < n && self.entries[i].0 < k
            invariant
                s == self@,
                n == s.len(),
                i <= n,
                forall|j: int| 0 <= j < i ==> s[j].0 < k,
            decreases n - i,
        {
            i += 1;
        }
        if i < n && self.entries[i].0 == k {
            self.entries.set(i, (k, v));
            proof {
                lemma_replace_at(s, i as int, k, v);
            }
        } else {
            proof {
                if i < n {
                    assert(s[i as int].0 > k);
                }
            }
            self.entries.insert(i, (k, v));
            proof {
                lemma_insert_at(s, i as int, k, v);
            }
        }
    }

    /// Replaces the value of the `i`-th entry, keeping its key.
    pub fn set_value_at(&mut self, i: usize, v: T)
        requires
            i < old(self)@.len(),
        ensures
            final(self)@ == old(self)@.update(i as int, (old(self)@[i as int].0, v)),
    {
        let k = self.entries[i].0;
        self.entries.set(i, (k, v));
    }
}

} // verus!
