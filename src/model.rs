use vstd::prelude::*;

verus! {

/// The abstract state of a slot table: what a `DescriptorTable` means.
///
/// `slots[h]` is the content of handle `h`, `free` is the stack of recyclable
/// handles (its last element is handed out first), `writes` is the queue of
/// handles whose descriptor must be rewritten, and `capacity` bounds the
/// handle space: every handle is below it.
pub struct TableModel<T> {
    pub slots: Seq<Option<T>>,
    pub free: Seq<u32>,
    pub writes: Seq<u32>,
    pub capacity: nat,
}

impl<T> TableModel<T> {
    /// A table with no slot, nothing free and nothing pending.
    pub open spec fn empty(capacity: nat) -> TableModel<T> {
        TableModel { slots: Seq::empty(), free: Seq::empty(), writes: Seq::empty(), capacity }
    }

    /// `h` names a resource that the table currently holds.
    pub open spec fn is_live(self, h: u32) -> bool {
        h < self.slots.len() && self.slots[h as int] is Some
    }

    /// The free list holds exactly the empty slots, each once; the array stays
    /// within the capacity; every pending write names a slot of the array.
    pub open spec fn wf(self) -> bool {
        &&& self.slots.len() <= self.capacity <= u32::MAX
        &&& self.free.no_duplicates()
        &&& forall|i: int|
            0 <= i < self.free.len() ==> {
                &&& #[trigger] self.free[i] < self.slots.len()
                &&& self.slots[self.free[i] as int] is None
            }
        &&& forall|h: int|
            0 <= h < self.slots.len() && #[trigger] self.slots[h] is None ==> self.free.contains(
                h as u32,
            )
        &&& forall|i: int| 0 <= i < self.writes.len() ==> #[trigger] self.writes[i] < self.slots.len()
    }

    /// Nothing is free and the array has reached the capacity: in a well
    /// formed table, every handle below the capacity is live
    /// (`lemma_full_iff`).
    pub open spec fn is_full(self) -> bool {
        self.free.len() == 0 && self.slots.len() >= self.capacity
    }

    /// The handle that the next allocation returns: the most recently freed
    /// one, or else the end of the array.
    pub open spec fn next_handle(self) -> u32 {
        if self.free.len() == 0 {
            self.slots.len() as u32
        } else {
            self.free.last()
        }
    }

    /// The table after `value` is stored under `next_handle()`.
    pub open spec fn allocate(self, value: T) -> TableModel<T> {
        let h: u32 = self.next_handle();
        if self.free.len() == 0 {
            TableModel { slots: self.slots.push(Some(value)), writes: self.writes.push(h), ..self }
        } else {
            TableModel {
                slots: self.slots.update(h as int, Some(value)),
                free: self.free.drop_last(),
                writes: self.writes.push(h),
                ..self
            }
        }
    }

    /// The table after the resource under `h` is dropped and `h` recycled.
    pub open spec fn release(self, h: u32) -> TableModel<T> {
        TableModel { slots: self.slots.update(h as int, None), free: self.free.push(h), ..self }
    }

    /// The handles that a flush writes: those pending and still live.
    pub open spec fn flush_set(self) -> Set<u32> {
        Set::new(|h: u32| self.writes.contains(h) && self.is_live(h))
    }

    /// The table with its pending writes dropped.
    pub open spec fn cleared(self) -> TableModel<T> {
        TableModel { writes: Seq::empty(), ..self }
    }

    pub proof fn lemma_empty_wf(capacity: nat)
        requires
            capacity <= u32::MAX,
        ensures
            Self::empty(capacity).wf(),
    {
    }

    /// A well formed table is full exactly when every handle below its
    /// capacity is live.
    pub proof fn lemma_full_iff(self)
        requires
            self.wf(),
        ensures
            self.is_full() <==> forall|h: u32| h < self.capacity ==> #[trigger] self.is_live(h),
    {
        if self.free.len() == 0 && self.slots.len() >= self.capacity {
            assert forall|h: u32| h < self.capacity implies #[trigger] self.is_live(h) by {
                if self.slots[h as int] is None {
                    assert(self.free.contains(h));
                }
            }
        }
        if self.free.len() > 0 {
            let h: u32 = self.free.last();
            assert(self.free[self.free.len() - 1] == h);
            assert(!self.is_live(h));
        } else if self.slots.len() < self.capacity {
            let h: u32 = self.slots.len() as u32;
            assert(!self.is_live(h));
        }
    }

    /// The handle handed out is not live before the allocation, and lies
    /// below the capacity.
    pub proof fn lemma_next_handle_is_free(self)
        requires
            self.wf(),
            !self.is_full(),
        ensures
            !self.is_live(self.next_handle()),
            self.next_handle() < self.capacity,
            self.next_handle() <= self.slots.len(),
    {
        self.lemma_full_iff();
        if self.free.len() > 0 {
            assert(self.free[self.free.len() - 1] == self.free.last());
        }
    }

    /// Allocation keeps the table well formed, makes the new handle live, and
    /// leaves every other handle as it was.
    pub proof fn lemma_allocate(self, value: T)
        requires
            self.wf(),
            !self.is_full(),
        ensures
            self.allocate(value).wf(),
            self.allocate(value).capacity == self.capacity,
            self.allocate(value).is_live(self.next_handle()),
            self.allocate(value).slots[self.next_handle() as int] == Some(value),
            forall|g: u32|
                g != self.next_handle() ==> (#[trigger] self.allocate(value).is_live(g)
                    <==> self.is_live(g)),
            forall|g: u32|
                g != self.next_handle() && self.is_live(g) ==> self.allocate(value).slots[g as int]
                    == self.slots[g as int],
    {
        self.lemma_next_handle_is_free();
        let h: u32 = self.next_handle();
        let s = self.allocate(value);
        if self.free.len() > 0 {
            let n: int = self.free.len() - 1;
            assert(self.free[n] == h);
            assert forall|i: int| 0 <= i < s.free.len() implies {
                &&& #[trigger] s.free[i] < s.slots.len()
                &&& s.slots[s.free[i] as int] is None
            } by {
                assert(s.free[i] == self.free[i]);
                assert(self.free[i] != self.free[n]);
            }
            assert forall|g: int|
                0 <= g < s.slots.len() && #[trigger] s.slots[g] is None implies s.free.contains(
                g as u32,
            ) by {
                assert(g != h);
                assert(self.slots[g] is None);
                let i: int = choose|i: int| 0 <= i < self.free.len() && self.free[i] == g as u32;
                assert(i != n);
                assert(s.free[i] == g as u32);
            }
        } else {
            assert forall|g: int|
                0 <= g < s.slots.len() && #[trigger] s.slots[g] is None implies s.free.contains(
                g as u32,
            ) by {
                if g < self.slots.len() {
                    assert(self.slots[g] is None);
                    assert(self.free.contains(g as u32));
                }
            }
        }
        assert forall|i: int| 0 <= i < s.writes.len() implies #[trigger] s.writes[i]
            < s.slots.len() by {
            if i < self.writes.len() {
                assert(s.writes[i] == self.writes[i]);
            }
        }
    }

    /// Releasing a live handle keeps the table well formed, empties that slot,
    /// and leaves every other handle as it was.
    pub proof fn lemma_release(self, h: u32)
        requires
            self.wf(),
            self.is_live(h),
        ensures
            self.release(h).wf(),
            self.release(h).capacity == self.capacity,
            !self.release(h).is_live(h),
            self.release(h).slots[h as int] is None,
            self.release(h).next_handle() == h,
            forall|g: u32| g != h ==> (#[trigger] self.release(h).is_live(g) <==> self.is_live(g)),
            forall|g: u32|
                g != h && self.is_live(g) ==> self.release(h).slots[g as int] == self.slots[g as int],
    {
        let s = self.release(h);
        assert(!self.free.contains(h)) by {
            if self.free.contains(h) {
                let i: int = choose|i: int| 0 <= i < self.free.len() && self.free[i] == h;
                assert(self.slots[self.free[i] as int] is None);
            }
        }
        assert forall|i: int| 0 <= i < s.free.len() implies {
            &&& #[trigger] s.free[i] < s.slots.len()
            &&& s.slots[s.free[i] as int] is None
        } by {
            if i < self.free.len() {
                assert(s.free[i] == self.free[i]);
            }
        }
        assert forall|g: int|
            0 <= g < s.slots.len() && #[trigger] s.slots[g] is None implies s.free.contains(
            g as u32,
        ) by {
            if g == h {
                assert(s.free[s.free.len() - 1] == h);
            } else {
                assert(self.slots[g] is None);
                let i: int = choose|i: int| 0 <= i < self.free.len() && self.free[i] == g as u32;
                assert(s.free[i] == g as u32);
            }
        }
        assert(s.free[s.free.len() - 1] == h);
    }

    /// Freeing `a` and then `b`, the next two allocations return `b` and then
    /// `a`: the most recently freed handle is reused first.
    pub proof fn lemma_lifo_reuse(self, a: u32, b: u32, x: T)
        requires
            self.wf(),
            self.is_live(a),
            self.is_live(b),
            a != b,
        ensures
            ({
                let s = self.release(a).release(b);
                &&& !s.is_full()
                &&& s.next_handle() == b
                &&& !s.allocate(x).is_full()
                &&& s.allocate(x).next_handle() == a
            }),
    {
        self.lemma_release(a);
        let r = self.release(a);
        r.lemma_release(b);
        let s = r.release(b);
        assert(!s.is_live(b));
        assert(!s.is_full());
        s.lemma_allocate(x);
        let t = s.allocate(x);
        assert(s.free.drop_last() == r.free);
        assert(t.free.last() == a);
        assert(!t.is_live(a));
        assert(!t.is_full());
    }

    /// A handle that is allocated and then freed before the flush gets no
    /// descriptor write.
    pub proof fn lemma_freed_before_flush(self, x: T)
        requires
            self.wf(),
            !self.is_full(),
        ensures
            ({
                let h = self.next_handle();
                !self.allocate(x).release(h).flush_set().contains(h)
            }),
    {
        self.lemma_allocate(x);
        self.allocate(x).lemma_release(self.next_handle());
    }

    /// Looking up a handle right after its allocation gives back the stored
    /// value; looking it up right after its free gives nothing.
    pub proof fn lemma_round_trip(self, x: T)
        requires
            self.wf(),
            !self.is_full(),
        ensures
            ({
                let h = self.next_handle();
                &&& self.allocate(x).slots[h as int] == Some(x)
                &&& self.allocate(x).release(h).slots[h as int] is None
            }),
    {
        self.lemma_allocate(x);
        self.allocate(x).lemma_release(self.next_handle());
    }
}

} // verus!
