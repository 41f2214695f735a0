use crate::model::TableModel;
use vstd::prelude::*;

verus! {

/// One request that a client makes of a slot table.
pub enum TableOp<T> {
    Allocate(T),
    Free(u32),
}

impl<T> TableModel<T> {
    /// The table after `op`. An allocation into a full table fails and
    /// changes nothing.
    pub open spec fn step(self, op: TableOp<T>) -> TableModel<T> {
        match op {
            TableOp::Allocate(v) => if self.is_full() {
                self
            } else {
                self.allocate(v)
            },
            TableOp::Free(h) => self.release(h),
        }
    }

    /// The table after the first `k` operations of `ops`.
    pub open spec fn after(self, ops: Seq<TableOp<T>>, k: int) -> TableModel<T>
        decreases k,
    {
        if k <= 0 {
            self
        } else {
            self.after(ops, k - 1).step(ops[k - 1])
        }
    }

    /// Every free in `ops` names a handle that is live when it is issued.
    pub open spec fn frees_live(self, ops: Seq<TableOp<T>>) -> bool {
        forall|k: int|
            0 <= k < ops.len() ==> (#[trigger] ops[k] matches TableOp::Free(h) ==> self.after(
                ops,
                k,
            ).is_live(h))
    }

    /// Operation `k` of `ops` is an allocation that succeeds.
    pub open spec fn allocates(self, ops: Seq<TableOp<T>>, k: int) -> bool {
        ops[k] is Allocate && !self.after(ops, k).is_full()
    }

    /// The handle that operation `k` returns, when it is an allocation that
    /// succeeds.
    pub open spec fn returned(self, ops: Seq<TableOp<T>>, k: int) -> u32 {
        self.after(ops, k).next_handle()
    }

    /// The handles returned by the successful allocations among the first
    /// `n` operations.
    pub open spec fn handed_out(self, ops: Seq<TableOp<T>>, n: int) -> Set<u32> {
        Set::new(
            |h: u32| exists|k: int| 0 <= k < n && #[trigger] self.allocates(ops, k) && self.returned(ops, k) == h,
        )
    }

    /// A legal run keeps the table well formed at every point.
    pub proof fn lemma_after_wf(self, ops: Seq<TableOp<T>>, k: int)
        requires
            self.wf(),
            self.frees_live(ops),
            0 <= k <= ops.len(),
        ensures
            self.after(ops, k).wf(),
            self.after(ops, k).capacity == self.capacity,
        decreases k,
    {
        if k > 0 {
            self.lemma_after_wf(ops, k - 1);
            let s = self.after(ops, k - 1);
            match ops[k - 1] {
                TableOp::Allocate(v) => {
                    if !s.is_full() {
                        s.lemma_allocate(v);
                    }
                },
                TableOp::Free(h) => {
                    s.lemma_release(h);
                },
            }
        }
    }

    /// A live handle stays live as long as nobody frees it.
    pub proof fn lemma_stays_live(self, ops: Seq<TableOp<T>>, h: u32, from: int, to: int)
        requires
            self.wf(),
            self.frees_live(ops),
            0 <= from <= to <= ops.len(),
            self.after(ops, from).is_live(h),
            forall|k: int| from <= k < to ==> ops[k] != TableOp::<T>::Free(h),
        ensures
            self.after(ops, to).is_live(h),
        decreases to - from,
    {
        if to > from {
            self.lemma_stays_live(ops, h, from, to - 1);
            self.lemma_after_wf(ops, to - 1);
            let s = self.after(ops, to - 1);
            match ops[to - 1] {
                TableOp::Allocate(v) => {
                    if !s.is_full() {
                        s.lemma_next_handle_is_free();
                        s.lemma_allocate(v);
                    }
                },
                TableOp::Free(g) => {
                    assert(g != h);
                    s.lemma_release(g);
                },
            }
        }
    }

    /// Handles that are handed out and not yet freed are pairwise distinct:
    /// two successful allocations of a legal run return the same handle only
    /// if that handle was freed in between.
    pub proof fn lemma_handles_distinct(self, ops: Seq<TableOp<T>>, i: int, j: int)
        requires
            self.wf(),
            self.frees_live(ops),
            0 <= i < j < ops.len(),
            self.allocates(ops, i),
            self.allocates(ops, j),
            forall|k: int| i < k < j ==> ops[k] != TableOp::<T>::Free(self.returned(ops, i)),
        ensures
            self.returned(ops, i) != self.returned(ops, j),
    {
        let h = self.returned(ops, i);
        self.lemma_after_wf(ops, i);
        let s = self.after(ops, i);
        s.lemma_allocate(ops[i]->Allocate_0);
        assert(self.after(ops, i + 1) == s.allocate(ops[i]->Allocate_0));
        self.lemma_stays_live(ops, h, i + 1, j);
        self.lemma_after_wf(ops, j);
        self.after(ops, j).lemma_next_handle_is_free();
    }

    /// Allocations into a table with nothing free hand out consecutive
    /// handles from the end of the array: `0, 1, 2, ...` from an empty table.
    pub proof fn lemma_growth_by_one(self, ops: Seq<TableOp<T>>)
        requires
            self.wf(),
            self.free.len() == 0,
            self.slots.len() + ops.len() <= self.capacity,
            forall|k: int| 0 <= k < ops.len() ==> #[trigger] ops[k] is Allocate,
        ensures
            forall|k: int| 0 <= k < ops.len() ==> #[trigger] self.allocates(ops, k),
            forall|k: int| 0 <= k < ops.len() ==> #[trigger] self.returned(ops, k) == self.slots.len() + k,
    {
        assert forall|k: int| 0 <= k < ops.len() implies #[trigger] self.allocates(ops, k)
            by {
            self.lemma_grows(ops, k);
            self.after(ops, k).lemma_full_iff();
            assert(ops[k] is Allocate);
        }
        assert forall|k: int| 0 <= k < ops.len() implies #[trigger] self.returned(ops, k)
            == self.slots.len() + k by {
            self.lemma_grows(ops, k);
        }
    }

    proof fn lemma_grows(self, ops: Seq<TableOp<T>>, k: int)
        requires
            self.wf(),
            self.free.len() == 0,
            self.slots.len() + ops.len() <= self.capacity,
            forall|k: int| 0 <= k < ops.len() ==> #[trigger] ops[k] is Allocate,
            0 <= k <= ops.len(),
        ensures
            self.after(ops, k).wf(),
            self.after(ops, k).free.len() == 0,
            self.after(ops, k).slots.len() == self.slots.len() + k,
            self.after(ops, k).capacity == self.capacity,
        decreases k,
    {
        if k > 0 {
            self.lemma_grows(ops, k - 1);
            let s = self.after(ops, k - 1);
            s.lemma_full_iff();
            assert(ops[k - 1] is Allocate);
            s.lemma_allocate(ops[k - 1]->Allocate_0);
        }
    }

    /// Between two flushes the pending writes hold exactly the handles that
    /// the allocations returned: starting with nothing pending, after a legal
    /// run the pending set is the set of handles handed out.
    pub proof fn lemma_pending_writes_complete(self, ops: Seq<TableOp<T>>)
        requires
            self.wf(),
            self.writes.len() == 0,
        ensures
            self.after(ops, ops.len() as int).writes.to_set() == self.handed_out(
                ops,
                ops.len() as int,
            ),
    {
        self.lemma_pending_prefix(ops, ops.len() as int);
    }

    proof fn lemma_pending_prefix(self, ops: Seq<TableOp<T>>, n: int)
        requires
            self.wf(),
            self.writes.len() == 0,
            0 <= n <= ops.len(),
        ensures
            self.after(ops, n).writes.to_set() == self.handed_out(ops, n),
        decreases n,
    {
        if n == 0 {
            assert(self.after(ops, 0).writes.to_set() =~= self.handed_out(ops, 0));
        } else {
            self.lemma_pending_prefix(ops, n - 1);
            let s = self.after(ops, n - 1);
            self.lemma_handed_out_step(ops, n);
            if self.allocates(ops, n - 1) {
                let h = self.returned(ops, n - 1);
                assert(self.after(ops, n).writes == s.writes.push(h));
                lemma_push_to_set(s.writes, h);
            } else {
                assert(self.after(ops, n).writes == s.writes);
            }
        }
    }

    proof fn lemma_handed_out_step(self, ops: Seq<TableOp<T>>, n: int)
        requires
            0 < n,
        ensures
            self.allocates(ops, n - 1) ==> self.handed_out(ops, n) == self.handed_out(
                ops,
                n - 1,
            ).insert(self.returned(ops, n - 1)),
            !self.allocates(ops, n - 1) ==> self.handed_out(ops, n) == self.handed_out(ops, n - 1),
    {
        let prev = self.handed_out(ops, n - 1);
        let cur = self.handed_out(ops, n);
        let h = self.returned(ops, n - 1);
        assert forall|g: u32| #[trigger] cur.contains(g) implies prev.contains(g) || (
        self.allocates(ops, n - 1) && g == h) by {
            let k: int = choose|k: int|
                0 <= k < n && #[trigger] self.allocates(ops, k) && self.returned(ops, k) == g;
            if k < n - 1 {
                assert(prev.contains(g));
            }
        }
        assert forall|g: u32| #[trigger] prev.contains(g) implies cur.contains(g) by {
            let k: int = choose|k: int|
                0 <= k < n - 1 && #[trigger] self.allocates(ops, k) && self.returned(ops, k) == g;
            assert(0 <= k < n && self.allocates(ops, k) && self.returned(ops, k) == g);
        }
        if self.allocates(ops, n - 1) {
            assert(cur.contains(h));
            assert(cur =~= prev.insert(h));
        } else {
            assert(cur =~= prev);
        }
    }
}

proof fn lemma_push_to_set(s: Seq<u32>, h: u32)
    ensures
        s.push(h).to_set() == s.to_set().insert(h),
{
    let t = s.push(h);
    assert forall|g: u32| #[trigger] t.contains(g) <==> s.to_set().insert(h).contains(g) by {
        if t.contains(g) && g != h {
            let i: int = choose|i: int| 0 <= i < t.len() && t[i] == g;
            assert(s[i] == g);
        }
        if s.contains(g) {
            let i: int = choose|i: int| 0 <= i < s.len() && s[i] == g;
            assert(t[i] == g);
        }
        if g == h {
            assert(t[s.len() as int] == h);
        }
    }
    assert(t.to_set() =~= s.to_set().insert(h));
}

} // verus!
