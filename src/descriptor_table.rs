use crate::model::TableModel;
use vstd::prelude::*;

verus! {

/// The number of handles that one resource category offers: the size of its
/// binding array in the descriptor set.
pub const MAX_DESCRIPTORS: u32 = 65536;

/// What can go wrong when the registry is used within its contracts.
#[derive(Debug, Clone, Copy, PartialEq, Eq, Structural)]
pub enum TableError {
    /// Every handle below the table's capacity is taken.
    ResourceExhausted,
    /// The resource under `index` describes itself with a descriptor of
    /// another kind than its binding holds.
    DescriptorMismatch { index: u32 },
}

/// A free-list allocator of small dense handles over an array of slots.
///
/// A handle is the index of its slot. Freed handles are recycled most recent
/// first; the array only grows when nothing is free. Every allocation queues
/// its handle as a pending write until the writes are cleared.
#[derive(Debug)]
pub struct DescriptorTable<T> {
    free_ids: Vec<u32>,
    resources: Vec<Option<T>>,
    /// Indices that need to be updated/written to
    writes: Vec<u32>,
    capacity: u32,
}

impl<T> View for DescriptorTable<T> {
    type V = TableModel<T>;

    closed spec fn view(&self) -> TableModel<T> {
        TableModel {
            slots: self.resources@,
            free: self.free_ids@,
            writes: self.writes@,
            capacity: self.capacity as nat,
        }
    }
}

impl<T> DescriptorTable<T> {
    /// An empty table with room for `MAX_DESCRIPTORS` handles.
    pub fn new() -> (r: Self)
        ensures
            r@ == TableModel::<T>::empty(MAX_DESCRIPTORS as nat),
            r@.wf(),
    {
        Self::with_capacity(MAX_DESCRIPTORS)
    }

    /// An empty table whose handles all lie below `capacity`.
    pub fn with_capacity(capacity: u32) -> (r: Self)
        ensures
            r@ == TableModel::<T>::empty(capacity as nat),
            r@.wf(),
    {
        let r = DescriptorTable {
            free_ids: Vec::new(),
            resources: Vec::new(),
            writes: Vec::new(),
            capacity,
        };
        proof {
            TableModel::<T>::lemma_empty_wf(capacity as nat);
            assert(r@ =~= TableModel::<T>::empty(capacity as nat));
        }
        r
    }

    /// The pending writes, oldest first.
    pub fn get_writes(&self) -> (r: &[u32])
        ensures
            r@ == self@.writes,
    {
        self.writes.as_slice()
    }

    /// The slot array: `Some` under each live handle, `None` under each free one.
    pub fn get_resources(&self) -> (r: &[Option<T>])
        ensures
            r@ == self@.slots,
    {
        self.resources.as_slice()
    }

    /// Drops every pending write; the slots stay as they are.
    pub fn clear_writes(&mut self)
        requires
            old(self)@.wf(),
        ensures
            final(self)@ == old(self)@.cleared(),
            final(self)@.wf(),
    {
        self.writes.clear();
        proof {
            assert(self@ =~= old(self)@.cleared());
        }
    }

    /// The content of slot `index`: `None` once freed.
    pub fn get_resource(&self, index: usize) -> (r: &Option<T>)
        requires
            index < self@.slots.len(),
        ensures
            *r == self@.slots[index as int],
    {
        &self.resources[index]
    }

    /// Whether `index` names a resource that the table currently holds.
    pub fn is_live(&self, index: u32) -> (r: bool)
        ensures
            r == self@.is_live(index),
    {
        (index as usize) < self.resources.len() && self.resources[index as usize].is_some()
    }

    /// The handle that the next allocation returns.
    pub fn get_free_id(&self) -> (r: u32)
        requires
            self@.wf(),
        ensures
            r == self@.next_handle(),
    {
        if self.free_ids.is_empty() {
            self.resources.len() as u32
        } else {
            self.free_ids[self.free_ids.len() - 1]
        }
    }

    /// Stores `resource` under a fresh handle and queues a write for it; fails
    /// when every handle below the capacity is taken.
    pub fn allocate_resource(&mut self, resource: T) -> (r: Result<u32, TableError>)
        requires
            old(self)@.wf(),
        ensures
            final(self)@.wf(),
            match r {
                Ok(id) => {
                    &&& !old(self)@.is_full()
                    &&& id == old(self)@.next_handle()
                    &&& final(self)@ == old(self)@.allocate(resource)
                },
                Err(e) => {
                    &&& old(self)@.is_full()
                    &&& e == TableError::ResourceExhausted
                    &&& final(self)@ == old(self)@
                },
            },
    {
        proof {
            self@.lemma_full_iff();
        }
        if self.free_ids.is_empty() && self.resources.len() >= self.capacity as usize {
            return Err(TableError::ResourceExhausted);
        }
        proof {
            self@.lemma_allocate(resource);
            self@.lemma_next_handle_is_free();
        }
        let ghost expected = self@.allocate(resource);
        let id: u32 = self.get_free_id();
        if self.free_ids.is_empty() {
            self.resources.push(Some(resource));
        } else {
            self.free_ids.pop();
            self.resources[id as usize] = Some(resource);
        }
        self.writes.push(id);
        proof {
            assert(self@ =~= expected);
        }
        Ok(id)
    }

    /// Drops the resource under `index` and recycles the handle. A pending
    /// write for it stays queued; the flush skips it.
    pub fn free_resource(&mut self, index: u32)
        requires
            old(self)@.wf(),
            old(self)@.is_live(index),
        ensures
            final(self)@ == old(self)@.release(index),
            final(self)@.wf(),
    {
        proof {
            self@.lemma_release(index);
        }
        self.resources[index as usize] = None;
        self.free_ids.push(index);
        proof {
            assert(self@ =~= old(self)@.release(index));
        }
    }

    /// The handles that a flush must write: each pending handle that is still
    /// live, once.
    pub fn collect_writes(&self) -> (r: Vec<u32>)
        requires
            self@.wf(),
        ensures
            r@.no_duplicates(),
            r@.to_set() == self@.flush_set(),
    {
        let n: usize = self.resources.len();
        let mut seen: Vec<bool> = Vec::new();
        let mut i: usize = 0;
        while i < n
            invariant
                n == self@.slots.len(),
                i <= n,
                seen@.len() == i,
                forall|h: int| 0 <= h < i ==> !seen@[h],
            decreases n - i,
        {
            seen.push(false);
            i = i + 1;
        }
        let mut out: Vec<u32> = Vec::new();
        let mut k: usize = 0;
        while k < self.writes.len()
            invariant
                self@.wf(),
                n == self@.slots.len(),
                seen@.len() == n,
                k <= self@.writes.len(),
                out@.no_duplicates(),
                forall|j: int|
                    0 <= j < out@.len() ==> self@.is_live(#[trigger] out@[j])
                        && self@.writes.contains(out@[j]),
                forall|h: int| 0 <= h < n ==> (#[trigger] seen@[h] <==> out@.contains(h as u32)),
                forall|j: int|
                    0 <= j < k && self@.is_live(#[trigger] self@.writes[j]) ==> out@.contains(
                        self@.writes[j],
                    ),
            decreases self@.writes.len() - k,
        {
            let w: u32 = self.writes[k];
            let idx: usize = w as usize;
            if self.resources[idx].is_some() && !seen[idx] {
                let ghost prev = out@;
                out.push(w);
                seen[idx] = true;
                proof {
                    assert(out@ == prev.push(w));
                    assert(out@[out@.len() - 1] == w);
                    assert forall|h: int| 0 <= h < n implies (#[trigger] seen@[h]
                        <==> out@.contains(h as u32)) by {
                        if h != idx as int {
                            if out@.contains(h as u32) {
                                let j: int = choose|j: int| 0 <= j < out@.len() && out@[j] == h as u32;
                                assert(prev[j] == h as u32);
                            }
                            if prev.contains(h as u32) {
                                let j: int = choose|j: int| 0 <= j < prev.len() && prev[j] == h as u32;
                                assert(out@[j] == h as u32);
                            }
                        }
                    }
                    assert forall|j: int|
                        0 <= j < k && self@.is_live(#[trigger] self@.writes[j]) implies out@.contains(
                        self@.writes[j],
                    ) by {
                        let i: int = choose|i: int| 0 <= i < prev.len() && prev[i] == self@.writes[j];
                        assert(out@[i] == self@.writes[j]);
                    }
                }
            }
            k = k + 1;
        }
        proof {
            assert forall|h: u32| #[trigger] out@.to_set().contains(h) == self@.flush_set().contains(h) by {
                if self@.writes.contains(h) && self@.is_live(h) {
                    let j: int = choose|j: int| 0 <= j < self@.writes.len() && self@.writes[j] == h;
                    assert(self@.is_live(self@.writes[j]));
                }
                if out@.contains(h) {
                    let j: int = choose|j: int| 0 <= j < out@.len() && out@[j] == h;
                    assert(self@.is_live(out@[j]));
                }
            }
            assert(out@.to_set() =~= self@.flush_set());
        }
        out
    }
}

} // verus!
