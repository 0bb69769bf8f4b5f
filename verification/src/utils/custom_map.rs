use vstd::prelude::*;

verus! {

/// Executable equality on the key types stored in [`CustomMap`] and
/// [`CustomSet`], tied to spec-level equality so that contracts can speak of
/// plain `==` on keys.
pub trait MapKey: Sized {
    fn key_eq(&self, other: &Self) -> (r: bool)
        ensures
            r <==> *self == *other,
    ;
}

/// True iff some entry of `s` carries the key `k`.
pub open spec fn seq_has_key<K, V>(s: Seq<(K, V)>, k: K) -> bool {
    exists|i: int| 0 <= i < s.len() && s[i].0 == k
}

/// True iff the entries of `s` carry pairwise distinct keys.
pub open spec fn seq_keys_distinct<K, V>(s: Seq<(K, V)>) -> bool {
    forall|i: int, j: int| 0 <= i < j < s.len() ==> s[i].0 != s[j].0
}

/// True iff `s` holds the element `x`.
pub open spec fn seq_has<T>(s: Seq<T>, x: T) -> bool {
    exists|i: int| 0 <= i < s.len() && s[i] == x
}

/// The entries of `s` whose keys do not occur in `rem`, in order.
pub open spec fn seq_remove_keys<K, V>(s: Seq<(K, V)>, rem: Seq<K>) -> Seq<(K, V)>
    decreases s.len(),
{
    if s.len() == 0 {
        Seq::empty()
    } else {
        let rest = seq_remove_keys(s.drop_last(), rem);
        if seq_has(rem, s.last().0) {
            rest
        } else {
            rest.push(s.last())
        }
    }
}

/// The elements of `s` that do not occur in `rem`, in order.
pub open spec fn seq_remove_elems<T>(s: Seq<T>, rem: Seq<T>) -> Seq<T>
    decreases s.len(),
{
    if s.len() == 0 {
        Seq::empty()
    } else {
        let rest = seq_remove_elems(s.drop_last(), rem);
        if seq_has(rem, s.last()) {
            rest
        } else {
            rest.push(s.last())
        }
    }
}

/// The value of the first entry of `s` keyed by `k`; meaningful only when
/// `seq_has_key(s, k)` holds.
pub open spec fn seq_key_val<K, V>(s: Seq<(K, V)>, k: K) -> V {
    s[choose|i: int| 0 <= i < s.len() && s[i].0 == k].1
}

/// Removing keys never invents entries and keeps distinct keys distinct.
pub proof fn lemma_seq_remove_keys_sub<K, V>(s: Seq<(K, V)>, rem: Seq<K>)
    ensures
        forall|k: K| #[trigger] seq_has_key(seq_remove_keys(s, rem), k) ==> seq_has_key(s, k),
        seq_keys_distinct(s) ==> seq_keys_distinct(seq_remove_keys(s, rem)),
    decreases s.len(),
{
    if s.len() == 0 {
    } else {
        lemma_seq_remove_keys_sub(s.drop_last(), rem);
        let rest = seq_remove_keys(s.drop_last(), rem);
        assert forall|k: K| #[trigger] seq_has_key(s.drop_last(), k) implies seq_has_key(
            s,
            k,
        ) by {
            let i = choose|i: int| 0 <= i < s.drop_last().len() && s.drop_last()[i].0 == k;
            assert(s[i].0 == k);
        }
        if seq_has(rem, s.last().0) {
        } else {
            let result = rest.push(s.last());
            assert forall|k: K| #[trigger] seq_has_key(result, k) implies seq_has_key(s, k) by {
                let i = choose|i: int| 0 <= i < result.len() && result[i].0 == k;
                if i < rest.len() {
                    assert(rest[i].0 == k);
                    assert(seq_has_key(rest, k));
                } else {
                    assert(s[s.len() - 1].0 == k);
                }
            }
            if seq_keys_distinct(s) {
                assert(seq_keys_distinct(s.drop_last()));
                assert(!seq_has_key(s.drop_last(), s.last().0)) by {
                    if seq_has_key(s.drop_last(), s.last().0) {
                        let i = choose|i: int|
                            0 <= i < s.drop_last().len() && s.drop_last()[i].0 == s.last().0;
                        assert(s[i].0 == s[s.len() - 1].0);
                    }
                }
                assert forall|i: int, j: int| 0 <= i < j < result.len() implies result[i].0
                    != result[j].0 by {
                    if j < rest.len() {
                    } else {
                        if rest[i].0 == s.last().0 {
                            assert(seq_has_key(rest, rest[i].0));
                            assert(seq_has_key(s.drop_last(), s.last().0));
                        }
                    }
                }
            }
        }
    }
}

/// Removing elements never invents elements and keeps distinct elements
/// distinct.
pub proof fn lemma_seq_remove_elems_sub<T>(s: Seq<T>, rem: Seq<T>)
    ensures
        forall|x: T| #[trigger] seq_has(seq_remove_elems(s, rem), x) ==> seq_has(s, x),
        (forall|i: int, j: int| 0 <= i < j < s.len() ==> s[i] != s[j]) ==> (forall|i: int, j: int|
            0 <= i < j < seq_remove_elems(s, rem).len() ==> seq_remove_elems(s, rem)[i]
                != seq_remove_elems(s, rem)[j]),
    decreases s.len(),
{
    if s.len() == 0 {
    } else {
        lemma_seq_remove_elems_sub(s.drop_last(), rem);
        let rest = seq_remove_elems(s.drop_last(), rem);
        assert forall|x: T| #[trigger] seq_has(s.drop_last(), x) implies seq_has(s, x) by {
            let i = choose|i: int| 0 <= i < s.drop_last().len() && s.drop_last()[i] == x;
            assert(s[i] == x);
        }
        if seq_has(rem, s.last()) {
        } else {
            let result = rest.push(s.last());
            assert forall|x: T| #[trigger] seq_has(result, x) implies seq_has(s, x) by {
                let i = choose|i: int| 0 <= i < result.len() && result[i] == x;
                if i < rest.len() {
                    assert(rest[i] == x);
                    assert(seq_has(rest, x));
                } else {
                    assert(s[s.len() - 1] == x);
                }
            }
            if forall|i: int, j: int| 0 <= i < j < s.len() ==> s[i] != s[j] {
                assert(!seq_has(s.drop_last(), s.last())) by {
                    if seq_has(s.drop_last(), s.last()) {
                        let i = choose|i: int|
                            0 <= i < s.drop_last().len() && s.drop_last()[i] == s.last();
                        assert(s[i] == s[s.len() - 1]);
                    }
                }
                assert forall|i: int, j: int| 0 <= i < j < result.len() implies result[i]
                    != result[j] by {
                    if j < rest.len() {
                    } else {
                        if rest[i] == s.last() {
                            assert(seq_has(rest, rest[i]));
                            assert(seq_has(s.drop_last(), s.last()));
                        }
                    }
                }
            }
        }
    }
}

/// Swap-removing the entry at `i` (the last entry moved into its place)
/// leaves every other key's presence and value exactly where it was: an
/// entry's key, not its position, is what resolves it.
pub proof fn lemma_swap_remove_frame<K, V>(s: Seq<(K, V)>, i: int)
    requires
        seq_keys_distinct(s),
        0 <= i < s.len(),
    ensures
        !seq_has_key(s.update(i, s.last()).drop_last(), s[i].0),
        forall|k: K|
            k != s[i].0 ==> seq_has_key(s.update(i, s.last()).drop_last(), k) == seq_has_key(s, k),
        forall|k: K|
            k != s[i].0 && seq_has_key(s, k) ==> seq_key_val(s.update(i, s.last()).drop_last(), k)
                == seq_key_val(s, k),
{
    let t = s.update(i, s.last()).drop_last();
    assert(t.len() == s.len() - 1);
    assert forall|j: int| 0 <= j < t.len() implies t[j] == (if j == i {
        s.last()
    } else {
        s[j]
    }) by {}
    assert(!seq_has_key(t, s[i].0)) by {
        if seq_has_key(t, s[i].0) {
            let j = choose|j: int| 0 <= j < t.len() && t[j].0 == s[i].0;
            if j == i {
                assert(s[s.len() - 1].0 == s[i].0);
            } else {
                assert(s[j].0 == s[i].0);
            }
        }
    }
    assert forall|k: K| k != s[i].0 && seq_has_key(s, k) implies seq_has_key(t, k) && seq_key_val(
        t,
        k,
    ) == seq_key_val(s, k) by {
        let j = choose|j: int| 0 <= j < s.len() && s[j].0 == k;
        assert(j != i);
        let tj: int = if j == s.len() - 1 {
            i
        } else {
            j
        };
        if j == s.len() - 1 {
            assert(i < s.len() - 1);
            assert(t[i] == s.last());
        } else {
            assert(t[tj] == s[j]);
        }
        assert(0 <= tj < t.len() && t[tj] == s[j]);
        assert(seq_has_key(t, k));
        let c = choose|c: int| 0 <= c < t.len() && t[c].0 == k;
        assert(c == tj) by {
            if c != tj {
                let sc: int = if c == i {
                    s.len() - 1
                } else {
                    c
                };
                assert(t[c] == s[sc]);
                assert(s[sc].0 == k);
                assert(sc == j);
            }
        }
        let cs = choose|cs: int| 0 <= cs < s.len() && s[cs].0 == k;
        assert(cs == j);
    }
    assert forall|k: K| k != s[i].0 && seq_has_key(t, k) implies seq_has_key(s, k) by {
        let j = choose|j: int| 0 <= j < t.len() && t[j].0 == k;
        if j == i {
            assert(s[s.len() - 1].0 == k);
        } else {
            assert(s[j].0 == k);
        }
    }
}

/// An insertion-order-preserving mapping from keys to values.  New keys are
/// appended at the end; the key set is kept duplicate-free.
#[derive(Clone)]
pub struct CustomMap<K, V> {
    entries: Vec<(K, V)>,
}

impl<K, V> View for CustomMap<K, V> {
    type V = Seq<(K, V)>;

    closed spec fn view(&self) -> Seq<(K, V)> {
        self.entries@
    }
}

impl<K, V> CustomMap<K, V> {
    /// Keys are pairwise distinct.
    pub open spec fn wf(&self) -> bool {
        seq_keys_distinct(self@)
    }

    /// The value stored under `k`, if any.
    pub open spec fn spec_get(&self, k: K) -> Option<V> {
        if seq_has_key(self@, k) {
            Some(seq_key_val(self@, k))
        } else {
            None
        }
    }

    /// With distinct keys, `spec_get` reads exactly the entry carrying the key.
    pub proof fn lemma_spec_get_at(&self, i: int)
        requires
            self.wf(),
            0 <= i < self@.len(),
        ensures
            self.spec_get(self@[i].0) == Some(self@[i].1),
    {
        assert(seq_has_key(self@, self@[i].0));
        let j = choose|j: int| 0 <= j < self@.len() && self@[j].0 == self@[i].0;
        assert(j == i);
    }

    /// Replacing the value of entry `i` changes `spec_get` at that key alone.
    pub proof fn lemma_spec_get_update(&self, other: &Self, i: int, v: V)
        requires
            self.wf(),
            0 <= i < self@.len(),
            other@ == self@.update(i, (self@[i].0, v)),
        ensures
            other.wf(),
            other.spec_get(self@[i].0) == Some(v),
            forall|k: K| k != self@[i].0 ==> other.spec_get(k) == self.spec_get(k),
    {
        assert(seq_has_key(other@, self@[i].0)) by {
            assert(other@[i].0 == self@[i].0);
        }
        let j = choose|j: int| 0 <= j < other@.len() && other@[j].0 == self@[i].0;
        assert(j == i);
        assert forall|k: K| k != self@[i].0 implies other.spec_get(k) == self.spec_get(k) by {
            if seq_has_key(self@, k) {
                let a = choose|a: int| 0 <= a < self@.len() && self@[a].0 == k;
                assert(other@[a].0 == k);
                assert(seq_has_key(other@, k));
                let b = choose|b: int| 0 <= b < other@.len() && other@[b].0 == k;
                assert(b == a);
                assert(other@[b].1 == self@[a].1);
            } else {
                if seq_has_key(other@, k) {
                    let b = choose|b: int| 0 <= b < other@.len() && other@[b].0 == k;
                    assert(self@[b].0 == k);
                }
            }
        }
    }

    /// Appending a fresh-keyed entry changes `spec_get` at that key alone.
    pub proof fn lemma_spec_get_push(&self, other: &Self, k: K, v: V)
        requires
            self.wf(),
            !seq_has_key(self@, k),
            other@ == self@.push((k, v)),
        ensures
            other.wf(),
            other.spec_get(k) == Some(v),
            forall|k2: K| k2 != k ==> other.spec_get(k2) == self.spec_get(k2),
    {
        assert forall|a: int, b: int| 0 <= a < b < other@.len() implies other@[a].0
            != other@[b].0 by {
            if b == other@.len() - 1 {
                if other@[a].0 == k {
                    assert(self@[a].0 == k);
                }
            }
        }
        assert(seq_has_key(other@, k)) by {
            assert(other@[other@.len() - 1].0 == k);
        }
        let j = choose|j: int| 0 <= j < other@.len() && other@[j].0 == k;
        assert(j == other@.len() - 1) by {
            if j < other@.len() - 1 {
                assert(self@[j].0 == k);
            }
        }
        assert forall|k2: K| k2 != k implies other.spec_get(k2) == self.spec_get(k2) by {
            if seq_has_key(self@, k2) {
                let a = choose|a: int| 0 <= a < self@.len() && self@[a].0 == k2;
                assert(other@[a].0 == k2);
                assert(seq_has_key(other@, k2));
                let b = choose|b: int| 0 <= b < other@.len() && other@[b].0 == k2;
                assert(b == a);
            } else {
                if seq_has_key(other@, k2) {
                    let b = choose|b: int| 0 <= b < other@.len() && other@[b].0 == k2;
                    assert(b < self@.len() ==> self@[b].0 == k2);
                }
            }
        }
    }

    pub fn new() -> (r: Self)
        ensures
            r@ == Seq::<(K, V)>::empty(),
            r.wf(),
    {
        CustomMap { entries: Vec::new() }
    }

    pub fn len(&self) -> (r: usize)
        ensures
            r == self@.len(),
    {
        self.entries.len()
    }

    pub fn entry_at(&self, i: usize) -> (r: &(K, V))
        requires
            i < self@.len(),
        ensures
            *r == self@[i as int],
    {
        &self.entries[i]
    }

    /// Removes and returns the first entry.
    pub(crate) fn take_front(&mut self) -> (r: (K, V))
        requires
            old(self)@.len() > 0,
        ensures
            r == old(self)@[0],
            final(self)@ == old(self)@.drop_first(),
    {
        let entry = self.entries.remove(0);
        proof {
            assert(self@ =~= old(self)@.drop_first());
        }
        entry
    }

    /// Builds a map directly from a list of entries; the caller is responsible
    /// for key distinctness.
    pub(crate) fn from_entries(entries: Vec<(K, V)>) -> (r: Self)
        ensures
            r@ == entries@,
    {
        CustomMap { entries }
    }

    pub fn value_at_mut(&mut self, i: usize) -> (r: &mut V)
        requires
            i < old(self)@.len(),
        ensures
            *r == old(self)@[i as int].1,
            final(self)@ == old(self)@.update(i as int, (old(self)@[i as int].0, *final(r))),
    {
        let entry = &mut self.entries[i];
        &mut entry.1
    }
}

impl<K: MapKey, V> CustomMap<K, V> {
    /// The position of the first entry keyed by `k`, if any.
    pub fn index_of(&self, k: &K) -> (r: Option<usize>)
        ensures
            match r {
                Some(i) => i < self@.len() && self@[i as int].0 == *k,
                None => !seq_has_key(self@, *k),
            },
    {
        let n = self.entries.len();
        let mut i: usize = 0;
        while i < n
            invariant
                n == self@.len(),
                i <= n,
                forall|j: int| 0 <= j < i ==> self@[j].0 != *k,
            decreases n - i,
        {
            if self.entries[i].0.key_eq(k) {
                return Some(i);
            }
            i += 1;
        }
        None
    }

    pub fn contains_key(&self, k: &K) -> (r: bool)
        ensures
            r == seq_has_key(self@, *k),
    {
        self.index_of(k).is_some()
    }

    pub fn get(&self, k: &K) -> (r: Option<&V>)
        requires
            self.wf(),
        ensures
            match r {
                Some(v) => self.spec_get(*k) == Some(*v),
                None => self.spec_get(*k) is None,
            },
    {
        match self.index_of(k) {
            Some(i) => {
                let entry = &self.entries[i];
                proof {
                    let j = choose|j: int| 0 <= j < self@.len() && self@[j].0 == *k;
                    assert(j == i);
                }
                Some(&entry.1)
            },
            None => None,
        }
    }

    /// Stores `v` under `k`: replaces the value of an existing entry in place,
    /// or appends a new entry at the end.  Returns the replaced value, if any.
    pub fn insert(&mut self, k: K, v: V) -> (r: Option<V>)
        requires
            old(self).wf(),
        ensures
            final(self).wf(),
            match r {
                Some(w) => {
                    &&& old(self).spec_get(k) == Some(w)
                    &&& exists|i: int|
                        0 <= i < old(self)@.len() && old(self)@[i] == (k, w) && final(self)@
                            == old(self)@.update(i, (k, v))
                },
                None => {
                    &&& !seq_has_key(old(self)@, k)
                    &&& final(self)@ == old(self)@.push((k, v))
                },
            },
            final(self).spec_get(k) == Some(v),
    {
        match self.index_of(&k) {
            Some(i) => {
                self.entries.push((k, v));
                let old_entry = self.entries.swap_remove(i);
                proof {
                    let ghost s0 = old(self)@;
                    assert(self@ =~= s0.update(i as int, (k, v)));
                    let j = choose|j: int| 0 <= j < s0.len() && s0[j].0 == k;
                    assert(j == i);
                    assert(seq_keys_distinct(self@));
                    assert(0 <= i < self@.len() && self@[i as int].0 == k);
                    assert(seq_has_key(self@, k));
                    let j2 = choose|j2: int| 0 <= j2 < self@.len() && self@[j2].0 == k;
                    assert(j2 == i);
                }
                Some(old_entry.1)
            },
            None => {
                self.entries.push((k, v));
                proof {
                    assert(seq_keys_distinct(self@));
                    assert(self@[self@.len() - 1].0 == k);
                    assert(seq_has_key(self@, k));
                    let j2 = choose|j2: int| 0 <= j2 < self@.len() && self@[j2].0 == k;
                    assert(j2 == self@.len() - 1);
                }
                None
            },
        }
    }

    /// Removes the entry keyed by `k`, if any, by swapping the last entry into
    /// its place (constant-time removal; insertion order is disturbed for the
    /// one moved entry).
    pub fn swap_remove(&mut self, k: &K) -> (r: Option<V>)
        requires
            old(self).wf(),
        ensures
            final(self).wf(),
            match r {
                Some(w) => {
                    &&& old(self).spec_get(*k) == Some(w)
                    &&& exists|i: int|
                        0 <= i < old(self)@.len() && old(self)@[i] == (*k, w) && final(self)@
                            == old(self)@.update(i, old(self)@.last()).drop_last()
                },
                None => {
                    &&& !seq_has_key(old(self)@, *k)
                    &&& final(self)@ == old(self)@
                },
            },
            !seq_has_key(final(self)@, *k),
            forall|k2: K| k2 != *k ==> final(self).spec_get(k2) == old(self).spec_get(k2),
    {
        match self.index_of(k) {
            Some(i) => {
                let entry = self.entries.swap_remove(i);
                proof {
                    let ghost s0 = old(self)@;
                    let j = choose|j: int| 0 <= j < s0.len() && s0[j].0 == *k;
                    assert(j == i);
                    assert(self@ =~= s0.update(i as int, s0.last()).drop_last());
                    lemma_swap_remove_frame(s0, i as int);
                    assert forall|a: int, b: int| 0 <= a < b < self@.len() implies self@[a].0
                        != self@[b].0 by {
                        assert(s0.update(i as int, s0.last()).drop_last().len() == s0.len() - 1);
                    }
                    assert forall|a: int| 0 <= a < self@.len() implies self@[a].0 != *k by {}
                }
                Some(entry.1)
            },
            None => None,
        }
    }

    /// Drops every entry whose key occurs in `rem`, keeping the order of the
    /// remaining entries.
    pub fn retain_not_in(&mut self, rem: &CustomSet<K>)
        ensures
            final(self)@ == seq_remove_keys(old(self)@, rem@),
    {
        let ghost orig = self@;
        let mut kept: Vec<(K, V)> = Vec::new();
        while self.entries.len() > 0
            invariant
                self@.len() <= orig.len(),
                self@ =~= orig.subrange(orig.len() - self@.len(), orig.len() as int),
                kept@ == seq_remove_keys(orig.subrange(0, orig.len() - self@.len()), rem@),
            decreases self@.len(),
        {
            let ghost done = orig.len() - self@.len();
            let ghost pre = orig.subrange(0, done);
            let entry = self.entries.remove(0);
            proof {
                assert(entry == orig[done]);
                assert(pre.push(entry) =~= orig.subrange(0, done + 1));
                assert(orig.subrange(0, done + 1).drop_last() =~= pre);
            }
            if rem.contains(&entry.0) {
                assert(kept@ == seq_remove_keys(orig.subrange(0, done + 1), rem@));
            } else {
                kept.push(entry);
            }
            proof {
                assert(self@ =~= orig.subrange(orig.len() - self@.len(), orig.len() as int));
            }
        }
        proof {
            assert(orig.subrange(0, orig.len() as int) =~= orig);
        }
        self.entries = kept;
    }
}

/// An insertion-order-preserving set of distinct elements.
#[derive(Clone)]
pub struct CustomSet<T> {
    items: Vec<T>,
}

impl<T> View for CustomSet<T> {
    type V = Seq<T>;

    closed spec fn view(&self) -> Seq<T> {
        self.items@
    }
}

impl<T> CustomSet<T> {
    /// Elements are pairwise distinct.
    pub open spec fn wf(&self) -> bool {
        forall|i: int, j: int| 0 <= i < j < self@.len() ==> self@[i] != self@[j]
    }

    pub fn new() -> (r: Self)
        ensures
            r@ == Seq::<T>::empty(),
            r.wf(),
    {
        CustomSet { items: Vec::new() }
    }

    pub fn len(&self) -> (r: usize)
        ensures
            r == self@.len(),
    {
        self.items.len()
    }

    pub fn at(&self, i: usize) -> (r: &T)
        requires
            i < self@.len(),
        ensures
            *r == self@[i as int],
    {
        &self.items[i]
    }
}

impl<T: MapKey> CustomSet<T> {
    pub fn contains(&self, x: &T) -> (r: bool)
        ensures
            r == seq_has(self@, *x),
    {
        let n = self.items.len();
        let mut i: usize = 0;
        while i < n
            invariant
                n == self@.len(),
                i <= n,
                forall|j: int| 0 <= j < i ==> self@[j] != *x,
            decreases n - i,
        {
            if self.items[i].key_eq(x) {
                return true;
            }
            i += 1;
        }
        false
    }

    /// Adds `x` at the end unless it is already present.  Returns true iff the
    /// set changed.
    pub fn insert(&mut self, x: T) -> (r: bool)
        requires
            old(self).wf(),
        ensures
            final(self).wf(),
            r == !seq_has(old(self)@, x),
            final(self)@ == if r {
                old(self)@.push(x)
            } else {
                old(self)@
            },
    {
        if self.contains(&x) {
            false
        } else {
            self.items.push(x);
            true
        }
    }

    /// Removes `x` if present, by swapping the last element into its place.
    /// Returns true iff the set changed.
    pub fn swap_remove(&mut self, x: &T) -> (r: bool)
        requires
            old(self).wf(),
        ensures
            final(self).wf(),
            r == seq_has(old(self)@, *x),
            !seq_has(final(self)@, *x),
            r ==> exists|i: int|
                0 <= i < old(self)@.len() && old(self)@[i] == *x && final(self)@ == old(
                    self,
                )@.update(i, old(self)@.last()).drop_last(),
            !r ==> final(self)@ == old(self)@,
    {
        let n = self.items.len();
        let mut i: usize = 0;
        while i < n
            invariant
                n == self@.len(),
                i <= n,
                self@ == old(self)@,
                old(self).wf(),
                forall|j: int| 0 <= j < i ==> self@[j] != *x,
            decreases n - i,
        {
            if self.items[i].key_eq(x) {
                let ghost s0 = self@;
                self.items.swap_remove(i);
                proof {
                    assert(self@ =~= s0.update(i as int, s0.last()).drop_last());
                    assert forall|a: int| 0 <= a < self@.len() implies self@[a] != *x by {}
                }
                return true;
            }
            i += 1;
        }
        false
    }

    /// Drops every element that occurs in `rem`, keeping the order of the
    /// remaining elements.
    pub fn retain_not_in(&mut self, rem: &CustomSet<T>)
        ensures
            final(self)@ == seq_remove_elems(old(self)@, rem@),
    {
        let ghost orig = self@;
        let mut kept: Vec<T> = Vec::new();
        while self.items.len() > 0
            invariant
                self@.len() <= orig.len(),
                self@ =~= orig.subrange(orig.len() - self@.len(), orig.len() as int),
                kept@ == seq_remove_elems(orig.subrange(0, orig.len() - self@.len()), rem@),
            decreases self@.len(),
        {
            let ghost done = orig.len() - self@.len();
            let ghost pre = orig.subrange(0, done);
            let item = self.items.remove(0);
            proof {
                assert(item == orig[done]);
                assert(pre.push(item) =~= orig.subrange(0, done + 1));
                assert(orig.subrange(0, done + 1).drop_last() =~= pre);
            }
            if rem.contains(&item) {
                assert(kept@ == seq_remove_elems(orig.subrange(0, done + 1), rem@));
            } else {
                kept.push(item);
            }
            proof {
                assert(self@ =~= orig.subrange(orig.len() - self@.len(), orig.len() as int));
            }
        }
        proof {
            assert(orig.subrange(0, orig.len() as int) =~= orig);
        }
        self.items = kept;
    }
}

} // verus!
