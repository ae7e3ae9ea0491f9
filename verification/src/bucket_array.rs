//! A slot arena: a growable store that hands out stable integer handles and
//! reuses the smallest freed slot on insertion. Handles of removed entries
//! stay dead until the slot is reused; looking a dead handle up yields `None`.

use vstd::prelude::*;

use crate::atoms::Id;

verus! {

#[derive(Debug)]
pub struct BucketArray<T> {
    items: Vec<T>,
    /// Indices of freed slots, kept strictly ascending.
    free: Vec<usize>,
}

impl<T> BucketArray<T> {
    /// All slots ever allocated, freed ones included (a freed slot keeps its
    /// last value until it is reused).
    pub closed spec fn slots(&self) -> Seq<T> {
        self.items@
    }

    /// The freed slot indices, in ascending order.
    pub closed spec fn free_list(&self) -> Seq<usize> {
        self.free@
    }

    pub open spec fn slot_count(&self) -> nat {
        self.slots().len()
    }

    pub open spec fn free_count(&self) -> nat {
        self.free_list().len()
    }

    pub open spec fn is_free(&self, id: usize) -> bool {
        self.free_list().contains(id)
    }

    /// A handle is live when it points at an allocated slot that is not freed.
    pub open spec fn is_live(&self, id: usize) -> bool {
        id < self.slot_count() && !self.is_free(id)
    }

    pub open spec fn value_at(&self, id: usize) -> T {
        self.slots()[id as int]
    }

    /// Structural invariant: the free list is strictly ascending and only
    /// names allocated slots.
    pub open spec fn wf(&self) -> bool {
        &&& forall|i: int, j: int|
            0 <= i < j < self.free_list().len() ==> self.free_list()[i] < self.free_list()[j]
        &&& forall|i: int|
            0 <= i < self.free_list().len() ==> (self.free_list()[i] as nat) < self.slot_count()
    }

    pub fn new() -> (r: Self)
        ensures
            r.wf(),
            r.slot_count() == 0,
            r.free_count() == 0,
    {
        BucketArray { items: Vec::new(), free: Vec::new() }
    }

    /// In a strictly ascending sequence every entry is at least its index.
    proof fn lemma_ascending_ge_index(free: Seq<usize>, i: int)
        requires
            forall|a: int, b: int| 0 <= a < b < free.len() ==> free[a] < free[b],
            0 <= i < free.len(),
        ensures
            free[i] >= i,
        decreases i,
    {
        if i > 0 {
            Self::lemma_ascending_ge_index(free, i - 1);
        }
    }

    proof fn lemma_free_le_slots(&self)
        requires
            self.wf(),
        ensures
            self.free_count() <= self.slot_count(),
    {
        if self.free_count() > 0 {
            Self::lemma_ascending_ge_index(self.free_list(), self.free_list().len() - 1);
        }
    }

    /// The number of live entries.
    pub fn len(&self) -> (r: usize)
        requires
            self.wf(),
        ensures
            r == self.slot_count() - self.free_count(),
    {
        proof {
            self.lemma_free_le_slots();
        }
        self.items.len() - self.free.len()
    }

    fn free_contains(&self, id: usize) -> (r: bool)
        ensures
            r == self.is_free(id),
    {
        let mut i: usize = 0;
        while i < self.free.len()
            invariant
                i <= self.free_list().len(),
                forall|k: int| 0 <= k < i ==> self.free_list()[k] != id,
            decreases self.free_list().len() - i,
        {
            if self.free[i] == id {
                return true;
            }
            i += 1;
        }
        false
    }

    /// Stores `item`, reusing the smallest freed slot if one exists and
    /// appending a fresh slot otherwise; returns the handle of the slot used.
    pub fn insert(&mut self, item: T) -> (id: Id)
        requires
            old(self).wf(),
        ensures
            final(self).wf(),
            final(self).is_live(id),
            old(self).free_count() > 0 ==> {
                &&& id == old(self).free_list()[0]
                &&& final(self).slots() == old(self).slots().update(id as int, item)
                &&& final(self).free_list() == old(self).free_list().subrange(
                    1,
                    old(self).free_list().len() as int,
                )
            },
            old(self).free_count() == 0 ==> {
                &&& id == old(self).slot_count()
                &&& final(self).slots() == old(self).slots().push(item)
                &&& final(self).free_list() == old(self).free_list()
            },
            forall|f: usize| old(self).is_free(f) ==> id <= f,
            forall|j: usize| final(self).is_free(j) <==> (old(self).is_free(j) && j != id),
            final(self).value_at(id) == item,
    {
        if self.free.len() > 0 {
            let idx = self.free[0];
            self.free.remove(0);
            self.items[idx] = item;
            proof {
                assert forall|f: usize| old(self).is_free(f) implies idx <= f by {
                    let k = choose|k: int|
                        0 <= k < old(self).free_list().len() && old(self).free_list()[k] == f;
                    if k > 0 {
                        assert(old(self).free_list()[0] < old(self).free_list()[k]);
                    }
                }
                assert forall|j: usize|
                    final(self).is_free(j) <==> (old(self).is_free(j) && j != idx) by {
                    let ofree = old(self).free_list();
                    let nfree = final(self).free_list();
                    assert(nfree == ofree.subrange(1, ofree.len() as int));
                    if old(self).is_free(j) && j != idx {
                        let k = choose|k: int| 0 <= k < ofree.len() && ofree[k] == j;
                        assert(k != 0);
                        assert(nfree[k - 1] == j);
                        assert(nfree.contains(j));
                    }
                    if nfree.contains(j) {
                        let k = choose|k: int| 0 <= k < nfree.len() && nfree[k] == j;
                        assert(ofree[k + 1] == j);
                        assert(ofree[0] < ofree[k + 1]);
                    }
                }
            }
            idx
        } else {
            self.items.push(item);
            self.items.len() - 1
        }
    }

    /// Returns the stored value, or `None` for a freed or never-used handle.
    pub fn get(&self, id: Id) -> (r: Option<&T>)
        ensures
            self.is_live(id) ==> r is Some && *r.unwrap() == self.value_at(id),
            !self.is_live(id) ==> r is None,
    {
        if self.free_contains(id) {
            None
        } else {
            if id < self.items.len() {
                Some(&self.items[id])
            } else {
                None
            }
        }
    }

    /// Whether the handle is live.
    pub fn has(&self, id: Id) -> (r: bool)
        ensures
            r == self.is_live(id),
    {
        id < self.items.len() && !self.free_contains(id)
    }

    /// Mutable access to the stored value; `None` for a dead handle.
    pub fn get_mut(&mut self, id: Id) -> (r: Option<&mut T>)
        ensures
            !old(self).is_live(id) ==> r is None && *final(self) == *old(self),
            old(self).is_live(id) ==> r is Some && *r.unwrap() == old(self).value_at(id)
                && final(self).slots() == old(self).slots().update(
                id as int,
                *final(r.unwrap()),
            ) && final(self).free_list() == old(self).free_list(),
    {
        if self.free_contains(id) {
            None
        } else {
            if id < self.items.len() {
                Some(&mut self.items[id])
            } else {
                None
            }
        }
    }

    /// Where `id` belongs in the ascending free list.
    fn free_insert_pos(&self, id: usize) -> (i: usize)
        requires
            self.wf(),
            !self.is_free(id),
        ensures
            i <= self.free_count(),
            forall|k: int| 0 <= k < i ==> self.free_list()[k] < id,
            i < self.free_count() ==> self.free_list()[i as int] > id,
    {
        let mut i: usize = 0;
        while i < self.free.len()
            invariant
                self.wf(),
                !self.is_free(id),
                i <= self.free_list().len(),
                forall|k: int| 0 <= k < i ==> self.free_list()[k] < id,
            decreases self.free_list().len() - i,
        {
            if self.free[i] > id {
                return i;
            }
            assert(self.free_list()[i as int] != id);
            i += 1;
        }
        i
    }

    /// Marks a live slot as reusable. Removing a dead handle is a caller
    /// error, excluded by precondition.
    pub fn remove(&mut self, id: Id)
        requires
            old(self).wf(),
            old(self).is_live(id),
        ensures
            final(self).wf(),
            final(self).slots() == old(self).slots(),
            final(self).free_count() == old(self).free_count() + 1,
            forall|j: usize| final(self).is_free(j) <==> (old(self).is_free(j) || j == id),
    {
        let i = self.free_insert_pos(id);
        self.free.insert(i, id);
        proof {
            let ofree = old(self).free_list();
            let nfree = final(self).free_list();
            assert(nfree == ofree.insert(i as int, id));
            assert forall|j: usize| final(self).is_free(j) implies (old(self).is_free(j) || j
                == id) by {
                let k = choose|k: int| 0 <= k < nfree.len() && nfree[k] == j;
                if k < i {
                    assert(ofree[k] == j);
                } else if k > i {
                    assert(ofree[k - 1] == j);
                }
            }
            assert forall|j: usize| (old(self).is_free(j) || j == id) implies final(self).is_free(
                j,
            ) by {
                if j == id {
                    assert(nfree[i as int] == j);
                } else {
                    let k = choose|k: int| 0 <= k < ofree.len() && ofree[k] == j;
                    if k < i {
                        assert(nfree[k] == j);
                    } else {
                        assert(nfree[k + 1] == j);
                    }
                }
            }
            assert forall|a: int, b: int| 0 <= a < b < nfree.len() implies nfree[a] < nfree[b] by {
                assert(a < i ==> nfree[a] == ofree[a] && ofree[a] < id);
                assert(a > i ==> nfree[a] == ofree[a - 1]);
                assert(b < i ==> nfree[b] == ofree[b] && ofree[b] < id);
                assert(b > i ==> nfree[b] == ofree[b - 1]);
                assert(b > i && b - 1 > i ==> ofree[i as int] < ofree[b - 1]);
            }
        }
    }

    /// The live handles in ascending order.
    pub fn iter(&self) -> (ids: Vec<Id>)
        ensures
            forall|k: int| 0 <= k < ids@.len() ==> self.is_live(#[trigger] ids@[k]),
            forall|k: int, l: int| 0 <= k < l < ids@.len() ==> ids@[k] < ids@[l],
            forall|id: Id| self.is_live(id) ==> ids@.contains(id),
    {
        let mut ids: Vec<Id> = Vec::new();
        let mut i: usize = 0;
        while i < self.items.len()
            invariant
                i <= self.slot_count(),
                forall|k: int| 0 <= k < ids@.len() ==> self.is_live(#[trigger] ids@[k]),
                forall|k: int, l: int| 0 <= k < l < ids@.len() ==> ids@[k] < ids@[l],
                forall|k: int| 0 <= k < ids@.len() ==> ids@[k] < i,
                forall|id: Id| id < i && self.is_live(id) ==> ids@.contains(id),
            decreases self.slot_count() - i,
        {
            let ghost pre = ids@;
            if !self.free_contains(i) {
                ids.push(i);
            }
            proof {
                assert forall|id: Id| id < i + 1 && self.is_live(id) implies ids@.contains(
                    id,
                ) by {
                    if id < i {
                        let k = choose|k: int| 0 <= k < pre.len() && pre[k] == id;
                        assert(ids@[k] == id);
                    } else {
                        assert(ids@[ids@.len() - 1] == id);
                    }
                }
            }
            i += 1;
        }
        ids
    }

    /// The live handles in ascending order, for callers that will update the
    /// slots through `get_mut`.
    pub fn iter_mut(&mut self) -> (ids: Vec<Id>)
        ensures
            *final(self) == *old(self),
            forall|k: int| 0 <= k < ids@.len() ==> old(self).is_live(#[trigger] ids@[k]),
            forall|k: int, l: int| 0 <= k < l < ids@.len() ==> ids@[k] < ids@[l],
            forall|id: Id| old(self).is_live(id) ==> ids@.contains(id),
    {
        self.iter()
    }
}

} // verus!
