//! Allocation of small integer ids (process ids, thread ids) that are handed
//! back and reused.
use vstd::prelude::*;

verus! {

/// Ids below `current` that are not in `recycled` are in use; a freed id is
/// handed out again before any new one.
pub struct RecycleAllocator {
    pub current: usize,
    pub recycled: Vec<usize>,
}

impl RecycleAllocator {
    pub open spec fn wf(&self) -> bool {
        &&& self.recycled@.no_duplicates()
        &&& forall|i: int| 0 <= i < self.recycled@.len() ==> #[trigger] self.recycled@[i] < self.current
    }

    /// Whether `id` is handed out and not yet freed.
    pub open spec fn is_allocated(&self, id: int) -> bool {
        0 <= id < self.current && !self.recycled@.contains(id as usize)
    }

    /// The id `allocate` hands out next: the last one freed, else a fresh one.
    pub open spec fn next_id(&self) -> usize {
        if self.recycled@.len() > 0 {
            self.recycled@.last()
        } else {
            self.current
        }
    }

    pub fn new() -> (ret: RecycleAllocator)
        ensures
            ret.wf(),
            ret.current == 0,
            ret.recycled@ == Seq::<usize>::empty(),
    {
        RecycleAllocator { current: 0, recycled: Vec::new() }
    }

    /// The most recently freed id, or else the next fresh one.
    pub fn allocate(&mut self) -> (id: usize)
        requires
            old(self).wf(),
            old(self).recycled@.len() > 0 || old(self).current < usize::MAX,
        ensures
            final(self).wf(),
            id == old(self).next_id(),
            !old(self).is_allocated(id as int),
            final(self).is_allocated(id as int),
            forall|i: int| i != id ==> (final(self).is_allocated(i) <==> old(self).is_allocated(i)),
            old(self).recycled@.len() > 0 ==> id == old(self).recycled@.last()
                && final(self).current == old(self).current
                && final(self).recycled@ == old(self).recycled@.drop_last(),
            old(self).recycled@.len() == 0 ==> id == old(self).current
                && final(self).current == old(self).current + 1
                && final(self).recycled@ == old(self).recycled@,
    {
        if let Some(id) = self.recycled.pop() {
            proof {
                let r = old(self).recycled@;
                assert(r[r.len() - 1] == id);
                assert forall|i: int| i != id implies (self.is_allocated(i) <==> old(self).is_allocated(i)) by {
                    if 0 <= i < self.current && i != id {
                        if r.contains(i as usize) {
                            let k = choose|k: int| 0 <= k < r.len() && r[k] == i as usize;
                            assert(k != r.len() - 1);
                            assert(self.recycled@[k] == i as usize);
                        }
                    }
                }
                assert(!self.recycled@.contains(id)) by {
                    if self.recycled@.contains(id) {
                        let k = choose|k: int| 0 <= k < self.recycled@.len() && self.recycled@[k] == id;
                        assert(r[k] == r[r.len() - 1]);
                    }
                }
                assert(r.contains(id)) by { assert(r[r.len() - 1] == id); }
            }
            id
        } else {
            self.current = self.current + 1;
            self.current - 1
        }
    }

    /// Hands `id` back.
    pub fn dealloc(&mut self, id: usize)
        requires
            old(self).wf(),
            old(self).is_allocated(id as int),
        ensures
            final(self).wf(),
            final(self).current == old(self).current,
            final(self).recycled@ == old(self).recycled@.push(id),
            !final(self).is_allocated(id as int),
            forall|i: int| i != id ==> (final(self).is_allocated(i) <==> old(self).is_allocated(i)),
    {
        self.recycled.push(id);
        proof {
            let r = old(self).recycled@;
            assert(self.recycled@[r.len() as int] == id);
            assert forall|i: int| i != id implies (self.is_allocated(i) <==> old(self).is_allocated(i)) by {
                if 0 <= i < self.current {
                    if self.recycled@.contains(i as usize) {
                        let k = choose|k: int| 0 <= k < self.recycled@.len() && self.recycled@[k] == i as usize;
                        assert(k < r.len());
                        assert(r[k] == i as usize);
                    }
                    if r.contains(i as usize) {
                        let k = choose|k: int| 0 <= k < r.len() && r[k] == i as usize;
                        assert(self.recycled@[k] == i as usize);
                    }
                }
            }
        }
    }
}

} // verus!
