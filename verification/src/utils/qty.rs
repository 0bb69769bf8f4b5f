use vstd::prelude::*;

use crate::utils::custom_map::{seq_has_key, seq_key_val, seq_keys_distinct, CustomMap, MapKey};

verus! {

/// A sparse multi-resource counter: a mapping from resource kinds to 64-bit
/// amounts in which an absent kind reads as zero.
pub struct Qty<T>(CustomMap<T, u64>);

impl<T> View for Qty<T> {
    type V = Seq<(T, u64)>;

    closed spec fn view(&self) -> Seq<(T, u64)> {
        self.0@
    }
}

impl<T> Qty<T> {
    /// Resource kinds are pairwise distinct.
    pub open spec fn wf(&self) -> bool {
        seq_keys_distinct(self@)
    }

    /// The amount held of kind `k`; an absent kind holds zero.
    pub open spec fn spec_get(&self, k: T) -> u64 {
        if seq_has_key(self@, k) {
            seq_key_val(self@, k)
        } else {
            0
        }
    }
}

impl<T> Default for Qty<T> {
    fn default() -> (r: Self)
        ensures
            r.wf(),
            r@.len() == 0,
            forall|k: T| r.spec_get(k) == 0,
    {
        Qty(CustomMap::new())
    }
}

impl<T: MapKey + Copy> Qty<T> {
    /// Increments kind `resource` by `num` and returns the result; a builder
    /// form of [`Self::add`].
    pub fn with(self, resource: T, num: u64) -> (r: Self)
        requires
            self.wf(),
            self.spec_get(resource) + num <= u64::MAX,
        ensures
            r.wf(),
            r.spec_get(resource) == self.spec_get(resource) + num,
            forall|k: T| k != resource ==> r.spec_get(k) == self.spec_get(k),
    {
        let mut q = self;
        q.add(resource, num);
        q
    }

    /// Increments kind `resource` by `num`.
    pub fn add(&mut self, resource: T, num: u64)
        requires
            old(self).wf(),
            old(self).spec_get(resource) + num <= u64::MAX,
        ensures
            final(self).wf(),
            final(self).spec_get(resource) == old(self).spec_get(resource) + num,
            forall|k: T| k != resource ==> final(self).spec_get(k) == old(self).spec_get(k),
    {
        match self.0.index_of(&resource) {
            Some(i) => {
                proof {
                    self.0.lemma_spec_get_at(i as int);
                }
                let ghost m0 = self.0;
                let current: u64 = self.0.entry_at(i).1;
                *self.0.value_at_mut(i) = current + num;
                proof {
                    m0.lemma_spec_get_update(&self.0, i as int, (current + num) as u64);
                    assert forall|k: T| k != resource implies self.spec_get(k) == old(
                        self,
                    ).spec_get(k) by {
                        assert(self.0.spec_get(k) == m0.spec_get(k));
                    }
                    assert(self.0.spec_get(resource) == Some((current + num) as u64));
                }
            },
            None => {
                let ghost m0 = self.0;
                let _ = self.0.insert(resource, num);
                proof {
                    m0.lemma_spec_get_push(&self.0, resource, num);
                    assert forall|k: T| k != resource implies self.spec_get(k) == old(
                        self,
                    ).spec_get(k) by {
                        assert(self.0.spec_get(k) == m0.spec_get(k));
                    }
                    assert(self.0.spec_get(resource) == Some(num));
                }
            },
        }
    }

    /// The amount held of kind `resource`; zero when absent.
    pub fn get(&self, resource: &T) -> (r: u64)
        requires
            self.wf(),
        ensures
            r == self.spec_get(*resource),
    {
        match self.0.get(resource) {
            Some(v) => *v,
            None => 0,
        }
    }

    /// True iff this quantity affords `cost`: for every resource kind, the
    /// amount held is at least the amount asked.
    pub fn covers(&self, cost: &Self) -> (r: bool)
        requires
            self.wf(),
            cost.wf(),
        ensures
            r <==> forall|k: T| cost.spec_get(k) <= self.spec_get(k),
    {
        let n = cost.0.len();
        let mut i: usize = 0;
        while i < n
            invariant
                self.wf(),
                cost.wf(),
                n == cost@.len(),
                i <= n,
                forall|j: int| 0 <= j < i ==> cost.spec_get(#[trigger] cost@[j].0) <= self.spec_get(cost@[j].0),
            decreases n - i,
        {
            let entry = cost.0.entry_at(i);
            let have = self.get(&entry.0);
            if have < entry.1 {
                proof {
                    cost.0.lemma_spec_get_at(i as int);
                    assert(cost.spec_get(cost@[i as int].0) > self.spec_get(cost@[i as int].0));
                }
                return false;
            }
            proof {
                cost.0.lemma_spec_get_at(i as int);
            }
            i += 1;
        }
        proof {
            assert forall|k: T| cost.spec_get(k) <= self.spec_get(k) by {
                if seq_has_key(cost@, k) {
                    let j = choose|j: int| 0 <= j < cost@.len() && cost@[j].0 == k;
                    assert(cost.spec_get(cost@[j].0) <= self.spec_get(cost@[j].0));
                }
            }
        }
        true
    }

    /// Adds every amount of `rhs` onto this quantity, kind by kind.
    pub fn add_assign(&mut self, rhs: &Qty<T>)
        requires
            old(self).wf(),
            rhs.wf(),
            forall|k: T| old(self).spec_get(k) + rhs.spec_get(k) <= u64::MAX,
        ensures
            final(self).wf(),
            forall|k: T|
                final(self).spec_get(k) == old(self).spec_get(k) + rhs.spec_get(k),
    {
        let n = rhs.0.len();
        let mut i: usize = 0;
        while i < n
            invariant
                self.wf(),
                rhs.wf(),
                n == rhs@.len(),
                i <= n,
                forall|k: T| old(self).spec_get(k) + rhs.spec_get(k) <= u64::MAX,
                forall|j: int|
                    0 <= j < i ==> self.spec_get(#[trigger] rhs@[j].0) == old(self).spec_get(
                        rhs@[j].0,
                    ) + rhs.spec_get(rhs@[j].0),
                forall|k: T|
                    !seq_has_key(rhs@.subrange(0, i as int), k) ==> self.spec_get(k) == old(
                        self,
                    ).spec_get(k),
            decreases n - i,
        {
            let entry = rhs.0.entry_at(i);
            proof {
                rhs.0.lemma_spec_get_at(i as int);
                assert(!seq_has_key(rhs@.subrange(0, i as int), entry.0)) by {
                    if seq_has_key(rhs@.subrange(0, i as int), entry.0) {
                        let a = choose|a: int|
                            0 <= a < i && rhs@.subrange(0, i as int)[a].0 == entry.0;
                        assert(rhs@[a].0 == rhs@[i as int].0);
                    }
                }
            }
            let k = entry.0;
            let amount = entry.1;
            proof {
                assert(rhs.spec_get(k) == amount);
                assert(self.spec_get(k) == old(self).spec_get(k));
            }
            self.add(k, amount);
            proof {
                assert forall|k2: T|
                    !seq_has_key(rhs@.subrange(0, i + 1 as int), k2) implies self.spec_get(k2)
                    == old(self).spec_get(k2) by {
                    assert(!seq_has_key(rhs@.subrange(0, i as int), k2)) by {
                        if seq_has_key(rhs@.subrange(0, i as int), k2) {
                            let a = choose|a: int|
                                0 <= a < i && rhs@.subrange(0, i as int)[a].0 == k2;
                            assert(rhs@.subrange(0, i + 1 as int)[a].0 == k2);
                        }
                    }
                    assert(k2 != k) by {
                        assert(rhs@.subrange(0, i + 1 as int)[i as int].0 == k);
                    }
                }
                assert forall|j: int| 0 <= j < i + 1 implies self.spec_get(#[trigger] rhs@[j].0)
                    == old(self).spec_get(rhs@[j].0) + rhs.spec_get(rhs@[j].0) by {
                    if j < i {
                        if rhs@[j].0 == k {
                            assert(rhs@[j].0 == rhs@[i as int].0);
                        }
                    }
                }
            }
            i += 1;
        }
        proof {
            assert forall|k: T| self.spec_get(k) == old(self).spec_get(k) + rhs.spec_get(
                k,
            ) by {
                if seq_has_key(rhs@, k) {
                    let j = choose|j: int| 0 <= j < rhs@.len() && rhs@[j].0 == k;
                    assert(self.spec_get(rhs@[j].0) == old(self).spec_get(rhs@[j].0)
                        + rhs.spec_get(rhs@[j].0));
                } else {
                    assert(!seq_has_key(rhs@.subrange(0, n as int), k)) by {
                        if seq_has_key(rhs@.subrange(0, n as int), k) {
                            let a = choose|a: int|
                                0 <= a < n && rhs@.subrange(0, n as int)[a].0 == k;
                            assert(rhs@[a].0 == k);
                        }
                    }
                    assert(rhs.0.spec_get(k) is None) by {
                        if seq_has_key(rhs@, k) {
                        }
                    }
                }
            }
        }
    }

    /// Subtracts every amount of `rhs` from this quantity, kind by kind,
    /// saturating at zero: the counters are unsigned and never wrap.
    pub fn sub_assign(&mut self, rhs: &Qty<T>)
        requires
            old(self).wf(),
            rhs.wf(),
        ensures
            final(self).wf(),
            forall|k: T|
                final(self).spec_get(k) == if rhs.spec_get(k) <= old(self).spec_get(k) {
                    (old(self).spec_get(k) - rhs.spec_get(k)) as u64
                } else {
                    0u64
                },
    {
        let n = rhs.0.len();
        let mut i: usize = 0;
        while i < n
            invariant
                self.wf(),
                rhs.wf(),
                n == rhs@.len(),
                i <= n,
                forall|j: int|
                    0 <= j < i ==> self.spec_get(#[trigger] rhs@[j].0) == if rhs.spec_get(
                        rhs@[j].0,
                    ) <= old(self).spec_get(rhs@[j].0) {
                        (old(self).spec_get(rhs@[j].0) - rhs.spec_get(rhs@[j].0)) as u64
                    } else {
                        0u64
                    },
                forall|k: T|
                    !seq_has_key(rhs@.subrange(0, i as int), k) ==> self.spec_get(k) == old(
                        self,
                    ).spec_get(k),
            decreases n - i,
        {
            let entry = rhs.0.entry_at(i);
            proof {
                rhs.0.lemma_spec_get_at(i as int);
                assert(!seq_has_key(rhs@.subrange(0, i as int), entry.0)) by {
                    if seq_has_key(rhs@.subrange(0, i as int), entry.0) {
                        let a = choose|a: int|
                            0 <= a < i && rhs@.subrange(0, i as int)[a].0 == entry.0;
                        assert(rhs@[a].0 == rhs@[i as int].0);
                    }
                }
            }
            let k = entry.0;
            let amount = entry.1;
            proof {
                assert(rhs.spec_get(k) == amount);
                assert(self.spec_get(k) == old(self).spec_get(k));
            }
            self.sub_one(k, amount);
            proof {
                assert forall|k2: T|
                    !seq_has_key(rhs@.subrange(0, i + 1 as int), k2) implies self.spec_get(k2)
                    == old(self).spec_get(k2) by {
                    assert(!seq_has_key(rhs@.subrange(0, i as int), k2)) by {
                        if seq_has_key(rhs@.subrange(0, i as int), k2) {
                            let a = choose|a: int|
                                0 <= a < i && rhs@.subrange(0, i as int)[a].0 == k2;
                            assert(rhs@.subrange(0, i + 1 as int)[a].0 == k2);
                        }
                    }
                    assert(k2 != k) by {
                        assert(rhs@.subrange(0, i + 1 as int)[i as int].0 == k);
                    }
                }
                assert forall|j: int| 0 <= j < i + 1 implies self.spec_get(#[trigger] rhs@[j].0)
                    == if rhs.spec_get(rhs@[j].0) <= old(self).spec_get(rhs@[j].0) {
                    (old(self).spec_get(rhs@[j].0) - rhs.spec_get(rhs@[j].0)) as u64
                } else {
                    0u64
                } by {
                    if j < i {
                        if rhs@[j].0 == k {
                            assert(rhs@[j].0 == rhs@[i as int].0);
                        }
                    }
                }
            }
            i += 1;
        }
        proof {
            assert forall|k: T| self.spec_get(k) == if rhs.spec_get(k) <= old(
                self,
            ).spec_get(k) {
                (old(self).spec_get(k) - rhs.spec_get(k)) as u64
            } else {
                0u64
            } by {
                if seq_has_key(rhs@, k) {
                    let j = choose|j: int| 0 <= j < rhs@.len() && rhs@[j].0 == k;
                    assert(0 <= j < i);
                } else {
                    assert(!seq_has_key(rhs@.subrange(0, n as int), k)) by {
                        if seq_has_key(rhs@.subrange(0, n as int), k) {
                            let a = choose|a: int|
                                0 <= a < n && rhs@.subrange(0, n as int)[a].0 == k;
                            assert(rhs@[a].0 == k);
                        }
                    }
                }
            }
        }
    }

    /// Decrements kind `resource` by `num`, saturating at zero.
    fn sub_one(&mut self, resource: T, num: u64)
        requires
            old(self).wf(),
        ensures
            final(self).wf(),
            final(self).spec_get(resource) == if num <= old(self).spec_get(resource) {
                (old(self).spec_get(resource) - num) as u64
            } else {
                0u64
            },
            forall|k: T| k != resource ==> final(self).spec_get(k) == old(self).spec_get(k),
    {
        match self.0.index_of(&resource) {
            Some(i) => {
                proof {
                    self.0.lemma_spec_get_at(i as int);
                }
                let ghost m0 = self.0;
                let current: u64 = self.0.entry_at(i).1;
                let next: u64 = if num <= current {
                    current - num
                } else {
                    0
                };
                *self.0.value_at_mut(i) = next;
                proof {
                    m0.lemma_spec_get_update(&self.0, i as int, next);
                    assert forall|k: T| k != resource implies self.spec_get(k) == old(
                        self,
                    ).spec_get(k) by {
                        assert(self.0.spec_get(k) == m0.spec_get(k));
                    }
                    assert(self.0.spec_get(resource) == Some(next));
                }
            },
            None => {
                proof {
                    assert(self.0.spec_get(resource) is None);
                }
            },
        }
    }
}

} // verus!
