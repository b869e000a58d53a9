//! A slot arena: values are stored at stable integer handles, and the handles
//! of removed values are threaded into a free list for reuse.
use vstd::prelude::*;

verus! {

/// One slot of the arena.
pub enum Entry<T> {
    /// The slot holds a value.
    Occupied(T),
    /// The slot is free; it holds the handle of the next free slot, if any.
    Vacant(Option<usize>),
}

/// A store of values that never move: removing a value marks its slot as
/// vacant, and the most recently vacated slot is the first to be reused.
pub struct Entries<T> {
    inner: Vec<Entry<T>>,
    next: Option<usize>,
    free: Ghost<Seq<usize>>,
}

/// Slot `f[k]` is vacant and points at `f[k + 1]`, or at nothing when it is
/// the last of the chain.
pub open spec fn links<T>(slots: Seq<Entry<T>>, f: Seq<usize>, k: int) -> bool {
    &&& f[k] < slots.len()
    &&& slots[f[k] as int] == Entry::<T>::Vacant(
        if k + 1 < f.len() {
            Some(f[k + 1])
        } else {
            None
        },
    )
}

impl<T> Entries<T> {
    /// What each slot holds: `Some(v)` for an occupied slot, `None` for a
    /// vacant one.
    pub closed spec fn view(&self) -> Seq<Option<T>> {
        Seq::new(
            self.inner@.len(),
            |i: int|
                match self.inner@[i] {
                    Entry::Occupied(v) => Some(v),
                    Entry::Vacant(_) => None,
                },
        )
    }

    /// The vacant handles in the order in which `push` will reuse them.
    pub closed spec fn free_list(&self) -> Seq<usize> {
        self.free@
    }

    /// The free list is a chain through exactly the vacant slots.
    pub closed spec fn wf(&self) -> bool {
        let f = self.free@;
        &&& f.no_duplicates()
        &&& self.next == (if f.len() > 0 {
            Some(f[0])
        } else {
            None
        })
        &&& forall|k: int| 0 <= k < f.len() ==> #[trigger] links(self.inner@, f, k)
        &&& forall|i: usize|
            i < self.inner@.len() && (#[trigger] self.inner@[i as int]) is Vacant ==> f.contains(i)
    }

    /// The handle that the next `push` will return.
    pub open spec fn next_handle(&self) -> int {
        if self.free_list().len() > 0 {
            self.free_list()[0] as int
        } else {
            self@.len() as int
        }
    }

    /// The free list holds exactly the handles of the vacant slots, each once.
    pub proof fn lemma_free_list_is_vacant(&self)
        requires
            self.wf(),
        ensures
            self.free_list().no_duplicates(),
            forall|i: usize|
                i < self@.len() ==> (#[trigger] self@[i as int] is None <==> self.free_list().contains(
                    i,
                )),
            forall|k: int|
                0 <= k < self.free_list().len() ==> (#[trigger] self.free_list()[k]) < self@.len(),
    {
        assert forall|i: usize| i < self@.len() implies (#[trigger] self@[i as int] is None
            <==> self.free_list().contains(i)) by {
            if self.free_list().contains(i) {
                let k = choose|k: int| 0 <= k < self.free@.len() && self.free@[k] == i;
                assert(links(self.inner@, self.free@, k));
            }
            if self@[i as int] is None {
                assert(self.inner@[i as int] is Vacant);
            }
        }
        assert forall|k: int| 0 <= k < self.free_list().len() implies (#[trigger] self.free_list()[k])
            < self@.len() by {
            assert(links(self.inner@, self.free@, k));
        }
    }

    /// Create an empty store.
    pub fn new() -> (s: Self)
        ensures
            s.wf(),
            s@.len() == 0,
            s.free_list().len() == 0,
    {
        Entries { inner: Vec::new(), next: None, free: Ghost(Seq::empty()) }
    }

    /// Create an empty store with room for `cap` values.
    pub fn with_capacity(cap: usize) -> (s: Self)
        ensures
            s.wf(),
            s@.len() == 0,
            s.free_list().len() == 0,
    {
        Entries { inner: Vec::with_capacity(cap), next: None, free: Ghost(Seq::empty()) }
    }

    /// The number of slots, occupied or vacant.
    pub fn slot_count(&self) -> (n: usize)
        ensures
            n == self@.len(),
    {
        self.inner.len()
    }

    /// Whether `index` names an occupied slot.
    pub fn is_occupied(&self, index: usize) -> (b: bool)
        ensures
            b == (index < self@.len() && self@[index as int] is Some),
    {
        if index < self.inner.len() {
            match &self.inner[index] {
                Entry::Occupied(_) => true,
                Entry::Vacant(_) => false,
            }
        } else {
            false
        }
    }

    /// Borrow the value at `index`.
    pub fn get(&self, index: usize) -> (v: &T)
        requires
            index < self@.len(),
            self@[index as int] is Some,
        ensures
            Some(*v) == self@[index as int],
    {
        match &self.inner[index] {
            Entry::Occupied(val) => val,
            Entry::Vacant(_) => {
                proof {
                    assert(self@[index as int] is None);
                }
                vstd::pervasive::unreached()
            },
        }
    }

    /// Remove the value at `index` and return it. The slot becomes the head
    /// of the free list.
    pub fn remove(&mut self, index: usize) -> (v: T)
        requires
            old(self).wf(),
            index < old(self)@.len(),
            old(self)@[index as int] is Some,
        ensures
            final(self).wf(),
            Some(v) == old(self)@[index as int],
            final(self)@ == old(self)@.update(index as int, None),
            final(self).free_list() == seq![index] + old(self).free_list(),
    {
        let ghost before = *self;
        let mut entry = Entry::Vacant(self.next);
        self.next = Some(index);
        std::mem::swap(&mut entry, &mut self.inner[index]);
        proof {
            let f = before.free@;
            let g = seq![index] + f;
            self.free = Ghost(g);
            assert(before.inner@[index as int] is Occupied);
            assert(!f.contains(index)) by {
                if f.contains(index) {
                    let k = choose|k: int| 0 <= k < f.len() && f[k] == index;
                    assert(links(before.inner@, f, k));
                }
            }
            assert(g.no_duplicates()) by {
                assert forall|a: int, b: int| 0 <= a < g.len() && 0 <= b < g.len() && a != b implies g[a]
                    != g[b] by {
                    if a > 0 && b > 0 {
                        assert(f[a - 1] != f[b - 1]);
                    } else if a > 0 {
                        assert(f.contains(f[a - 1]));
                    } else {
                        assert(f.contains(f[b - 1]));
                    }
                }
            }
            assert forall|k: int| 0 <= k < g.len() implies #[trigger] links(self.inner@, g, k) by {
                if k > 0 {
                    assert(links(before.inner@, f, k - 1));
                    assert(g[k] == f[k - 1]);
                    assert(f.contains(f[k - 1]));
                    assert(f[k - 1] != index);
                    if k + 1 < g.len() {
                        assert(g[k + 1] == f[k]);
                    }
                } else if f.len() > 0 {
                    assert(g[1] == f[0]);
                }
            }
            assert forall|i: usize|
                i < self.inner@.len() && (#[trigger] self.inner@[i as int]) is Vacant implies g.contains(
                i,
            ) by {
                if i == index {
                    assert(g[0] == index);
                } else {
                    assert(before.inner@[i as int] is Vacant);
                    let k = choose|k: int| 0 <= k < f.len() && f[k] == i;
                    assert(g[k + 1] == i);
                }
            }
            assert(self@ =~= before@.update(index as int, None));
        }
        match entry {
            Entry::Occupied(val) => val,
            Entry::Vacant(_) => vstd::pervasive::unreached(),
        }
    }

    /// Store a value and return its handle: the head of the free list if
    /// there is one, else a new slot at the end.
    pub fn push(&mut self, value: T) -> (index: usize)
        requires
            old(self).wf(),
        ensures
            final(self).wf(),
            index == old(self).next_handle(),
            final(self)@ == (if old(self).free_list().len() > 0 {
                old(self)@.update(index as int, Some(value))
            } else {
                old(self)@.push(Some(value))
            }),
            final(self).free_list() == (if old(self).free_list().len() > 0 {
                old(self).free_list().drop_first()
            } else {
                old(self).free_list()
            }),
    {
        let ghost before = *self;
        let entry = Entry::Occupied(value);
        match self.next {
            Some(index) => {
                proof {
                    assert(before.free@[0] == index);
                    assert(links(before.inner@, before.free@, 0));
                }
                let next = match &self.inner[index] {
                    Entry::Vacant(next) => *next,
                    Entry::Occupied(_) => vstd::pervasive::unreached(),
                };
                self.next = next;
                self.inner[index] = entry;
                proof {
                    let f = before.free@;
                    let g = f.drop_first();
                    self.free = Ghost(g);
                    assert forall|k: int| 0 <= k < g.len() implies #[trigger] links(
                        self.inner@,
                        g,
                        k,
                    ) by {
                        assert(links(before.inner@, f, k + 1));
                        assert(g[k] == f[k + 1]);
                        assert(f[k + 1] != f[0]);
                        if k + 1 < g.len() {
                            assert(g[k + 1] == f[k + 2]);
                        }
                    }
                    assert forall|i: usize|
                        i < self.inner@.len() && (#[trigger] self.inner@[i as int]) is Vacant implies g.contains(
                        i,
                    ) by {
                        assert(i != index);
                        assert(before.inner@[i as int] is Vacant);
                        let k = choose|k: int| 0 <= k < f.len() && f[k] == i;
                        assert(k > 0);
                        assert(g[k - 1] == i);
                    }
                    assert(self@ =~= before@.update(index as int, Some(value)));
                }
                index
            },
            None => {
                let index = self.inner.len();
                self.inner.push(entry);
                proof {
                    assert(before.free@.len() == 0);
                    assert forall|i: usize|
                        i < self.inner@.len() && (#[trigger] self.inner@[i as int]) is Vacant implies self.free@.contains(
                        i,
                    ) by {
                        assert(before.inner@[i as int] is Vacant);
                    }
                    assert(self@ =~= before@.push(Some(value)));
                }
                index
            },
        }
    }
}

} // verus!
