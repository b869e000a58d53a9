//! Values kept in order of use, least recently used first, on top of the slot
//! arena: a value keeps its handle for as long as it stays.
use vstd::prelude::*;
use crate::entries::Entries;

verus! {

/// Values in order of use. The front is the least recently used.
pub struct LruSlots<T> {
    arena: Entries<T>,
    order: Vec<usize>,
}

impl<T> LruSlots<T> {
    /// The values, least recently used first.
    pub closed spec fn view(&self) -> Seq<T> {
        Seq::new(self.order@.len(), |i: int| self.arena@[self.order@[i] as int]->Some_0)
    }

    /// Each handle in the order names an occupied slot, and none comes twice.
    pub closed spec fn wf(&self) -> bool {
        &&& self.arena.wf()
        &&& self.order@.no_duplicates()
        &&& forall|i: int|
            0 <= i < self.order@.len() ==> (#[trigger] self.order@[i]) < self.arena@.len()
                && self.arena@[self.order@[i] as int] is Some
    }

    /// An empty store.
    pub fn new() -> (s: Self)
        ensures
            s.wf(),
            s@.len() == 0,
    {
        LruSlots { arena: Entries::new(), order: Vec::new() }
    }

    /// The number of values.
    pub fn len(&self) -> (n: usize)
        ensures
            n == self@.len(),
    {
        self.order.len()
    }

    /// The value at place `i` of the order.
    pub fn get(&self, i: usize) -> (v: &T)
        requires
            self.wf(),
            i < self@.len(),
        ensures
            *v == self@[i as int],
    {
        self.arena.get(self.order[i])
    }

    /// Add a value as the most recently used.
    pub fn push_back(&mut self, value: T)
        requires
            old(self).wf(),
        ensures
            final(self).wf(),
            final(self)@ == old(self)@.push(value),
    {
        let ghost before = *self;
        proof {
            self.arena.lemma_free_list_is_vacant();
        }
        let handle = self.arena.push(value);
        proof {
            if before.arena.free_list().len() > 0 {
                assert(before.arena.free_list().contains(before.arena.free_list()[0]));
            }
            assert(!before.order@.contains(handle)) by {
                if before.order@.contains(handle) {
                    let k = choose|k: int| 0 <= k < before.order@.len() && before.order@[k] == handle;
                    assert(before.arena@[before.order@[k] as int] is Some);
                }
            }
        }
        self.order.push(handle);
        proof {
            assert forall|i: int| 0 <= i < self.order@.len() implies (#[trigger] self.order@[i])
                < self.arena@.len() && self.arena@[self.order@[i] as int] is Some by {
                if i < before.order@.len() {
                    assert(before.order@[i] == self.order@[i]);
                    assert(before.order@.contains(before.order@[i]));
                }
            }
            assert(self.order@.no_duplicates()) by {
                assert forall|a: int, b: int|
                    0 <= a < self.order@.len() && 0 <= b < self.order@.len() && a != b implies self.order@[a]
                    != self.order@[b] by {
                    if a < before.order@.len() {
                        assert(before.order@.contains(before.order@[a]));
                    }
                    if b < before.order@.len() {
                        assert(before.order@.contains(before.order@[b]));
                    }
                }
            }
            assert(self@ =~= before@.push(value)) by {
                assert forall|i: int| 0 <= i < before@.len() implies self@[i] == before@[i] by {
                    assert(before.order@.contains(before.order@[i]));
                }
            }
        }
    }

    /// Take the value at place `i` out. Those behind it move up.
    pub fn remove(&mut self, i: usize) -> (v: T)
        requires
            old(self).wf(),
            i < old(self)@.len(),
        ensures
            final(self).wf(),
            v == old(self)@[i as int],
            final(self)@ == old(self)@.remove(i as int),
    {
        let ghost before = *self;
        let handle = self.order.remove(i);
        proof {
            assert(before.order@[i as int] == handle);
        }
        let v = self.arena.remove(handle);
        proof {
            assert forall|k: int| 0 <= k < self.order@.len() implies (#[trigger] self.order@[k])
                == (if k < i {
                before.order@[k]
            } else {
                before.order@[k + 1]
            }) by {}
            assert forall|k: int| 0 <= k < self.order@.len() implies (#[trigger] self.order@[k])
                < self.arena@.len() && self.arena@[self.order@[k] as int] is Some by {
                if k < i {
                    assert(before.order@[k] != before.order@[i as int]);
                } else {
                    assert(before.order@[k + 1] != before.order@[i as int]);
                }
            }
            assert(self.order@.no_duplicates());
            assert(self@ =~= before@.remove(i as int)) by {
                assert forall|k: int| 0 <= k < self@.len() implies self@[k] == before@.remove(
                    i as int,
                )[k] by {
                    if k < i {
                        assert(before.order@[k] != before.order@[i as int]);
                    } else {
                        assert(before.order@[k + 1] != before.order@[i as int]);
                    }
                }
            }
        }
        v
    }

    /// Take the least recently used value out.
    pub fn pop_front(&mut self) -> (v: T)
        requires
            old(self).wf(),
            old(self)@.len() > 0,
        ensures
            final(self).wf(),
            v == old(self)@[0],
            final(self)@ == old(self)@.drop_first(),
    {
        proof {
            assert(self@.remove(0) =~= self@.drop_first());
        }
        self.remove(0)
    }

    /// Mark the value at place `i` as the most recently used: it goes to the
    /// back, and those behind it move up.
    pub fn move_to_back(&mut self, i: usize)
        requires
            old(self).wf(),
            i < old(self)@.len(),
        ensures
            final(self).wf(),
            final(self)@ == old(self)@.remove(i as int).push(old(self)@[i as int]),
    {
        let ghost before = *self;
        let handle = self.order.remove(i);
        self.order.push(handle);
        proof {
            let n = before.order@.len() as int;
            assert forall|k: int| 0 <= k < n implies (#[trigger] self.order@[k]) == (if k < i {
                before.order@[k]
            } else if k < n - 1 {
                before.order@[k + 1]
            } else {
                before.order@[i as int]
            }) by {}
            assert(self.order@.no_duplicates());
            assert(self@ =~= before@.remove(i as int).push(before@[i as int]));
        }
    }
}

} // verus!
