use vstd::prelude::*;

use crate::value::{get_heap_index, heap_ref, lemma_push, Object, ObjectType, VmData};

verus! {

broadcast use vstd::seq::group_seq_axioms;

/// An allocated heap slot: a reference count and the object.
#[derive(Debug, Clone)]
pub struct HeapEntry {
    pub ref_count: usize,
    pub object: Object,
}

/// The heap slots.
pub type Heap = Seq<Option<HeapEntry>>;

/// Slot `i` holds a live entry.
pub open spec fn live(heap: Heap, i: int) -> bool {
    0 <= i < heap.len() && heap[i] is Some
}

/// The free list names exactly the free slots, each once.
pub open spec fn free_ok(heap: Heap, free: Seq<usize>) -> bool {
    &&& free.no_duplicates()
    &&& forall|k: int|
        0 <= k < free.len() ==> (#[trigger] free[k]) < heap.len() && heap[free[k] as int] is None
    &&& forall|i: int| 0 <= i < heap.len() && heap[i] is None ==> free.contains(i as usize)
}

/// The stack and heap of the virtual machine, with reference counting and a
/// tracing collector for cycles.
#[derive(Debug, Clone)]
pub struct MemoryManager {
    pub stack: Vec<VmData>,
    pub heap: Vec<Option<HeapEntry>>,
    /// Free slots, reused last-in first-out.
    pub free_list: Vec<usize>,
    /// Allocations allowed between two collections.
    pub base_threshold: usize,
    /// Live-entry count at which the next allocation collects first.
    pub next_gc: usize,
    pub last_gc: Option<crate::clock::Instant>,
    /// Open inhibitions: while positive, allocation never collects.
    pub gc_inhibited: usize,
    pub mark_bits: Vec<bool>,
}

/// Moves the entry out of slot `index`, leaving the slot free.
pub fn take_slot(heap: &mut Vec<Option<HeapEntry>>, index: usize) -> (res: Option<HeapEntry>)
    requires
        index < old(heap)@.len(),
    ensures
        res == old(heap)@[index as int],
        final(heap)@ == old(heap)@.update(index as int, None),
{
    let mut tmp: Option<HeapEntry> = None;
    std::mem::swap(&mut tmp, &mut heap[index]);
    tmp
}

impl MemoryManager {
    /// The free list matches the free slots.
    pub open spec fn wf(&self) -> bool {
        free_ok(self.heap@, self.free_list@)
    }

    /// Everything but the mark buffer agrees with `other`.
    pub open spec fn same_except_marks(&self, other: Self) -> bool {
        &&& self.stack == other.stack
        &&& self.heap == other.heap
        &&& self.free_list == other.free_list
        &&& self.base_threshold == other.base_threshold
        &&& self.next_gc == other.next_gc
        &&& self.last_gc == other.last_gc
        &&& self.gc_inhibited == other.gc_inhibited
    }

    /// Number of live heap entries.
    pub open spec fn live_count_spec(&self) -> int {
        self.heap@.len() - self.free_list@.len()
    }

    /// Create a memory manager that collects after `base_threshold` live entries.
    pub fn new(base_threshold: usize) -> (res: Self)
        ensures
            res.wf(),
            res.stack@.len() == 0,
            res.heap@.len() == 0,
            res.free_list@.len() == 0,
            res.base_threshold == base_threshold,
            res.next_gc == base_threshold,
            res.gc_inhibited == 0,
    {
        MemoryManager {
            stack: Vec::new(),
            heap: Vec::new(),
            free_list: Vec::new(),
            base_threshold,
            next_gc: base_threshold,
            last_gc: None,
            gc_inhibited: 0,
            mark_bits: Vec::new(),
        }
    }

    /// Return the number of live heap entries.
    pub fn live_count(&self) -> (res: usize)
        requires
            self.wf(),
        ensures
            res == self.live_count_spec(),
    {
        proof {
            lemma_free_len(self.heap@, self.free_list@);
        }
        self.heap.len() - self.free_list.len()
    }

    /// Increment the reference count of a heap entry (no effect on a free slot).
    pub fn inc(&mut self, index: usize)
        requires
            live(old(self).heap@, index as int) ==> old(self).heap@[index as int]->0.ref_count
                < usize::MAX,
        ensures
            final(self).stack == old(self).stack,
            final(self).free_list == old(self).free_list,
            final(self).base_threshold == old(self).base_threshold,
            final(self).next_gc == old(self).next_gc,
            final(self).gc_inhibited == old(self).gc_inhibited,
            final(self).heap@ == (if live(old(self).heap@, index as int) {
                old(self).heap@.update(
                    index as int,
                    Some(
                        HeapEntry {
                            ref_count: (old(self).heap@[index as int]->0.ref_count + 1) as usize,
                            object: old(self).heap@[index as int]->0.object,
                        },
                    ),
                )
            } else {
                old(self).heap@
            }),
    {
        if index < self.heap.len() {
            let slot = take_slot(&mut self.heap, index);
            match slot {
                Some(e) => {
                    let e2 = HeapEntry { ref_count: e.ref_count + 1, object: e.object };
                    self.heap.set(index, Some(e2));
                },
                None => {},
            }
            proof {
                assert(self.heap@ =~= (if live(old(self).heap@, index as int) {
                    old(self).heap@.update(
                        index as int,
                        Some(
                            HeapEntry {
                                ref_count: (old(self).heap@[index as int]->0.ref_count + 1) as usize,
                                object: old(self).heap@[index as int]->0.object,
                            },
                        ),
                    )
                } else {
                    old(self).heap@
                }));
            }
        }
    }

    /// Marks every slot reachable from the stack in `mark_bits`.
    fn mark(&mut self)
        requires
            old(self).heap@.len() <= usize::MAX,
        ensures
            final(self).stack == old(self).stack,
            final(self).heap == old(self).heap,
            final(self).free_list == old(self).free_list,
            final(self).base_threshold == old(self).base_threshold,
            final(self).next_gc == old(self).next_gc,
            final(self).gc_inhibited == old(self).gc_inhibited,
            final(self).last_gc == old(self).last_gc,
            final(self).mark_bits@.len() == old(self).heap@.len(),
            forall|i: int|
                0 <= i < old(self).heap@.len() ==> #[trigger] final(self).mark_bits@[i]
                    == reachable(old(self).stack@, old(self).heap@, i),
    {
        let len = self.heap.len();
        let ghost stack = self.stack@;
        let ghost heap = self.heap@;
        self.mark_bits.resize(len, false);
        let mut i: usize = 0;
        while i < len
            invariant
                self.mark_bits@.len() == len,
                self.same_except_marks(*old(self)),
                i <= len,
                forall|k: int| 0 <= k < i ==> !self.mark_bits@[k],
            decreases len - i,
        {
            self.mark_bits.set(i, false);
            i += 1;
        }
        // Mark phase: roots are everything referenced from the stack.
        let mut worklist: Vec<usize> = Vec::new();
        let mut s: usize = 0;
        while s < self.stack.len()
            invariant
                self.stack@ == stack,
                self.heap@ == heap,
                self.same_except_marks(*old(self)),
                len == heap.len(),
                self.mark_bits@.len() == len,
                s <= stack.len(),
                worklist@.no_duplicates(),
                forall|k: int| 0 <= k < worklist@.len() ==> (#[trigger] worklist@[k]) < len,
                forall|j: int|
                    0 <= j < len ==> (#[trigger] self.mark_bits@[j] <==> worklist@.contains(
                        j as usize,
                    )),
                forall|j: int| 0 <= j < len && #[trigger] self.mark_bits@[j] ==> reachable(stack, heap, j),
                forall|k: int|
                    0 <= k < s && (#[trigger] heap_ref(stack[k])) is Some && heap_ref(stack[k])->0
                        < len ==> self.mark_bits@[heap_ref(stack[k])->0 as int],
            decreases stack.len() - s,
        {
            if let Some(idx) = get_heap_index(&self.stack[s]) {
                if idx < len && !self.mark_bits[idx] {
                    let ghost m0 = self.mark_bits@;
                    let ghost w0 = worklist@;
                    self.mark_bits.set(idx, true);
                    worklist.push(idx);
                    proof {
                        lemma_push(w0, idx);
                        let p = seq![idx as int];
                        assert(stack_ref(stack, idx as int)) by {
                            assert(stack[s as int] == VmData::Object(idx));
                        }
                        assert(is_path(stack, heap, p));
                        assert(reachable(stack, heap, idx as int));
                        assert forall|j: int|
                            0 <= j < len implies (#[trigger] self.mark_bits@[j] <==> worklist@.contains(
                            j as usize,
                        )) by {
                            if j == idx {
                                assert(worklist@[w0.len() as int] == idx);
                            } else if m0[j] {
                                let t = choose|t: int| 0 <= t < w0.len() && w0[t] == j as usize;
                                assert(worklist@[t] == j as usize);
                            } else if worklist@.contains(j as usize) {
                                let t = choose|t: int| 0 <= t < worklist@.len() && worklist@[t] == j as usize;
                                assert(t < w0.len());
                                assert(w0.contains(j as usize));
                            }
                        }
                        assert forall|a: int, b: int|
                            0 <= a < worklist@.len() && 0 <= b < worklist@.len() && a != b implies worklist@[a]
                            != worklist@[b] by {
                            if a == w0.len() && b < w0.len() {
                                assert(!m0[w0[b] as int]  ==> false);
                            } else if b == w0.len() && a < w0.len() {
                                assert(!m0[w0[a] as int]  ==> false);
                            }
                        }
                    }
                }
            }
            s += 1;
        }
        // Trace references held by marked live entries.
        while worklist.len() > 0
            invariant
                self.stack@ == stack,
                self.heap@ == heap,
                self.same_except_marks(*old(self)),
                len == heap.len(),
                heap.len() <= usize::MAX,
                self.mark_bits@.len() == len,
                worklist@.no_duplicates(),
                forall|k: int| 0 <= k < worklist@.len() ==> (#[trigger] worklist@[k]) < len,
                forall|k: int| 0 <= k < worklist@.len() ==> self.mark_bits@[#[trigger] worklist@[k] as int],
                forall|j: int| 0 <= j < len && #[trigger] self.mark_bits@[j] ==> reachable(stack, heap, j),
                forall|k: int|
                    0 <= k < stack.len() && (#[trigger] heap_ref(stack[k])) is Some && heap_ref(stack[k])->0
                        < len ==> self.mark_bits@[heap_ref(stack[k])->0 as int],
                forall|a: int, b: int|
                    0 <= a < len && 0 <= b < len && #[trigger] self.mark_bits@[a] && !worklist@.contains(a as usize)
                        && #[trigger] holds_ref(heap, a, b) ==> self.mark_bits@[b],
            decreases count_unmarked(self.mark_bits@), worklist@.len(),
        {
            let ghost w1 = worklist@;
            let idx = worklist.pop().unwrap();
            assert(idx < len);
            proof {
                assert(w1.drop_last() == worklist@);
                assert(w1.last() == idx);
                assert(!worklist@.contains(idx)) by {
                    if worklist@.contains(idx) {
                        let t = choose|t: int| 0 <= t < worklist@.len() && worklist@[t] == idx;
                        assert(w1[t] == w1[w1.len() - 1]);
                    }
                }
            }
            let ghost m1 = self.mark_bits@;
            let ghost wp = worklist@;
            if idx < self.heap.len() {
                if let Some(entry) = &self.heap[idx] {
                    let n = entry.object.data.len();
                    let mut k: usize = 0;
                    while k < n
                        invariant
                            self.stack@ == stack,
                            self.heap@ == heap,
                            self.same_except_marks(*old(self)),
                            heap[idx as int] == Some(*entry),
                            n == entry.object.data@.len(),
                            len == heap.len(),
                            heap.len() <= usize::MAX,
                            idx < len,
                            k <= n,
                            self.mark_bits@.len() == len,
                            m1[idx as int],
                            self.mark_bits@[idx as int],
                            !worklist@.contains(idx),
                            wp.len() <= worklist@.len(),
                            forall|t: int| 0 <= t < wp.len() ==> worklist@[t] == wp[t],
                            forall|j: int| 0 <= j < len && m1[j] ==> #[trigger] self.mark_bits@[j],
                            forall|j: int| 0 <= j < len && #[trigger] self.mark_bits@[j] && !m1[j] ==> worklist@.contains(j as usize),
                            count_unmarked(self.mark_bits@) + (worklist@.len() - wp.len()) == count_unmarked(m1),
                            worklist@.no_duplicates(),
                            forall|t: int| 0 <= t < worklist@.len() ==> (#[trigger] worklist@[t]) < len,
                            forall|t: int| 0 <= t < worklist@.len() ==> self.mark_bits@[#[trigger] worklist@[t] as int],
                            forall|j: int| 0 <= j < len && #[trigger] self.mark_bits@[j] ==> reachable(stack, heap, j),
                            forall|t: int|
                                0 <= t < k && (#[trigger] heap_ref(entry.object.data@[t])) is Some && heap_ref(entry.object.data@[t])->0
                                    < len ==> self.mark_bits@[heap_ref(entry.object.data@[t])->0 as int],
                        decreases n - k,
                    {
                        if let Some(child) = get_heap_index(&entry.object.data[k]) {
                            if child < len && !self.mark_bits[child] {
                                let ghost m0 = self.mark_bits@;
                                let ghost w0 = worklist@;
                                self.mark_bits.set(child, true);
                                worklist.push(child);
                                proof {
                                    lemma_push(w0, child);
                                    lemma_count_unmarked_set(m0, child as int);
                                    let pth = choose|pth: Seq<int>| #[trigger] is_path(stack, heap, pth) && pth.last() == idx as int;
                                    assert(holds_ref(heap, idx as int, child as int)) by {
                                        assert(entry.object.data@[k as int] == VmData::Object(child));
                                    }
                                    lemma_path_extend(stack, heap, pth, child as int);
                                    assert(reachable(stack, heap, child as int));
                                    assert(!w0.contains(child)) by {
                                        if w0.contains(child) {
                                            let t = choose|t: int| 0 <= t < w0.len() && w0[t] == child;
                                            assert(m0[w0[t] as int]);
                                        }
                                    }
                                    assert forall|a: int, b: int|
                                        0 <= a < worklist@.len() && 0 <= b < worklist@.len() && a != b implies worklist@[a]
                                        != worklist@[b] by {
                                        if a == w0.len() && b < w0.len() {
                                            assert(w0[b] != child);
                                        } else if b == w0.len() && a < w0.len() {
                                            assert(w0[a] != child);
                                        }
                                    }
                                    assert forall|j: int| 0 <= j < len && #[trigger] self.mark_bits@[j] && !m1[j] implies worklist@.contains(j as usize) by {
                                        if j == child {
                                            assert(worklist@[w0.len() as int] == child);
                                        } else {
                                            assert(m0[j]);
                                            let t = choose|t: int| 0 <= t < w0.len() && w0[t] == j as usize;
                                            assert(worklist@[t] == j as usize);
                                        }
                                    }
                                    assert(!worklist@.contains(idx)) by {
                                        if worklist@.contains(idx) {
                                            let t = choose|t: int| 0 <= t < worklist@.len() && worklist@[t] == idx;
                                            if t < w0.len() {
                                                assert(w0.contains(idx));
                                            }
                                        }
                                    }
                                }
                            }
                        }
                        k += 1;
                    }
                    proof {
                        assert forall|b: int| 0 <= b < len && holds_ref(heap, idx as int, b) implies self.mark_bits@[b] by {
                            let t = choose|t: int| 0 <= t < entry.object.data@.len() && entry.object.data@[t] == VmData::Object(b as usize);
                            assert(heap_ref(entry.object.data@[t]) is Some);
                        }
                    }
                }
            }
            proof {
                assert forall|a: int, b: int|
                    0 <= a < len && 0 <= b < len && #[trigger] self.mark_bits@[a] && !worklist@.contains(a as usize)
                        && #[trigger] holds_ref(heap, a, b) implies self.mark_bits@[b] by {
                    if a == idx {
                    } else if m1[a] {
                        assert(!w1.contains(a as usize)) by {
                            if w1.contains(a as usize) {
                                let t = choose|t: int| 0 <= t < w1.len() && w1[t] == a as usize;
                                if t < wp.len() {
                                    assert(worklist@[t] == wp[t]);
                                }
                            }
                        }
                    } else {
                        assert(worklist@.contains(a as usize));
                    }
                }
            }
        }
        proof {
            assert forall|i: int| 0 <= i < len implies #[trigger] self.mark_bits@[i] == reachable(stack, heap, i) by {
                if reachable(stack, heap, i) {
                    let pth = choose|pth: Seq<int>| #[trigger] is_path(stack, heap, pth) && pth.last() == i;
                    lemma_closed_marks(stack, heap, self.mark_bits@, pth);
                }
            }
        }
    }

    /// Frees every live entry left unmarked, appending its slot to the free list.
    fn sweep(&mut self)
        requires
            old(self).wf(),
            old(self).heap@.len() <= usize::MAX,
            old(self).mark_bits@.len() == old(self).heap@.len(),
            forall|i: int|
                0 <= i < old(self).heap@.len() ==> #[trigger] old(self).mark_bits@[i]
                    == reachable(old(self).stack@, old(self).heap@, i),
        ensures
            final(self).wf(),
            final(self).heap@ == swept(old(self).stack@, old(self).heap@),
            final(self).free_list@ == old(self).free_list@ + dead_slots(
                old(self).stack@,
                old(self).heap@,
                old(self).heap@.len(),
            ),
            final(self).stack == old(self).stack,
            final(self).base_threshold == old(self).base_threshold,
            final(self).next_gc == old(self).next_gc,
            final(self).gc_inhibited == old(self).gc_inhibited,
            final(self).last_gc == old(self).last_gc,
    {
        let ghost h0 = self.heap@;
        let ghost f0 = self.free_list@;
        let ghost stack = self.stack@;
        let len = self.heap.len();
        let mut i: usize = 0;
        while i < len
            invariant
                i <= len,
                len == h0.len(),
                self.heap@.len() == len,
                self.stack == old(self).stack,
                self.stack@ == stack,
                self.base_threshold == old(self).base_threshold,
                self.next_gc == old(self).next_gc,
                self.gc_inhibited == old(self).gc_inhibited,
                self.last_gc == old(self).last_gc,
                self.mark_bits == old(self).mark_bits,
                self.mark_bits@.len() == len,
                forall|k: int| 0 <= k < len ==> #[trigger] self.mark_bits@[k] == reachable(stack, h0, k),
                forall|k: int| 0 <= k < i ==> #[trigger] self.heap@[k] == swept(stack, h0)[k],
                forall|k: int| i <= k < len ==> #[trigger] self.heap@[k] == h0[k],
                self.free_list@ == f0 + dead_slots(stack, h0, i as nat),
                free_ok(self.heap@, self.free_list@),
            decreases len - i,
        {
            let dead = self.heap[i].is_some() && !self.mark_bits[i];
            if dead {
                let ghost hc = self.heap@;
                let ghost fc = self.free_list@;
                self.heap.set(i, None);
                self.free_list.push(i);
                proof {
                    lemma_free_push(hc, fc, i);
                    assert(self.heap@ =~= hc.update(i as int, None));
                    assert(live(h0, i as int) && !reachable(stack, h0, i as int));
                    assert((f0 + dead_slots(stack, h0, i as nat)).push(i) =~= f0 + dead_slots(stack, h0, (i + 1) as nat));
                }
            } else {
                proof {
                    assert(dead_slots(stack, h0, (i + 1) as nat) == dead_slots(stack, h0, i as nat));
                }
            }
            i += 1;
        }
        proof {
            assert(self.heap@ =~= swept(stack, h0));
        }
    }

    /// Drops trailing free slots from the heap and from the free list.
    fn shrink_heap(&mut self)
        requires
            old(self).wf(),
        ensures
            final(self).wf(),
            final(self).heap@ == trim(old(self).heap@),
            final(self).free_list@ == below(old(self).free_list@, trim(old(self).heap@).len()),
            final(self).stack == old(self).stack,
            final(self).base_threshold == old(self).base_threshold,
            final(self).next_gc == old(self).next_gc,
            final(self).gc_inhibited == old(self).gc_inhibited,
            final(self).last_gc == old(self).last_gc,
    {
        let ghost h0 = self.heap@;
        let ghost f0 = self.free_list@;
        while self.heap.len() > 0 && self.heap[self.heap.len() - 1].is_none()
            invariant
                self.heap@.len() <= h0.len(),
                self.heap@ == h0.subrange(0, self.heap@.len() as int),
                trim(self.heap@) == trim(h0),
                self.free_list@ == f0,
                self.stack == old(self).stack,
                self.base_threshold == old(self).base_threshold,
                self.next_gc == old(self).next_gc,
                self.gc_inhibited == old(self).gc_inhibited,
                self.last_gc == old(self).last_gc,
            decreases self.heap@.len(),
        {
            let ghost hc = self.heap@;
            self.heap.pop();
            proof {
                assert(self.heap@ =~= hc.drop_last());
                assert(self.heap@ =~= h0.subrange(0, self.heap@.len() as int));
            }
        }
        proof {
            assert(trim(self.heap@) == self.heap@);
        }
        let heap_len = self.heap.len();
        let mut kept: Vec<usize> = Vec::new();
        let mut k: usize = 0;
        while k < self.free_list.len()
            invariant
                k <= self.free_list@.len(),
                self.free_list@ == f0,
                kept@ == below(f0.subrange(0, k as int), heap_len as nat),
            decreases self.free_list@.len() - k,
        {
            proof {
                assert(f0.subrange(0, k + 1).drop_last() =~= f0.subrange(0, k as int));
            }
            let x = self.free_list[k];
            if x < heap_len {
                kept.push(x);
            }
            k += 1;
        }
        proof {
            assert(f0.subrange(0, f0.len() as int) =~= f0);
            lemma_below(f0, heap_len as nat);
            let h1 = self.heap@;
            assert forall|i: int| 0 <= i < h1.len() && h1[i] is None implies kept@.contains(i as usize) by {
                assert(h1[i] == h0[i]);
                assert(f0.contains(i as usize));
            }
            assert forall|t: int| 0 <= t < kept@.len() implies (#[trigger] kept@[t]) < h1.len()
                && h1[kept@[t] as int] is None by {
                assert(kept@.contains(kept@[t]));
                let u = choose|u: int| 0 <= u < f0.len() && f0[u] == kept@[t];
                assert(h0[f0[u] as int] is None);
            }
        }
        self.free_list = kept;
    }

    /// Cycle collection (mark-sweep): frees every live entry that cannot be
    /// reached from the stack, then drops trailing free slots.
    fn collect_cycles(&mut self)
        requires
            old(self).wf(),
            old(self).heap@.len() <= usize::MAX,
        ensures
            final(self).wf(),
            final(self).heap@ == collected_heap(old(self).stack@, old(self).heap@),
            final(self).free_list@ == collected_free(
                old(self).stack@,
                old(self).heap@,
                old(self).free_list@,
            ),
            final(self).stack == old(self).stack,
            final(self).base_threshold == old(self).base_threshold,
            final(self).next_gc == old(self).next_gc,
            final(self).gc_inhibited == old(self).gc_inhibited,
            final(self).last_gc == old(self).last_gc,
    {
        self.mark();
        self.sweep();
        self.shrink_heap();
    }

    /// Run a cycle collection now.
    pub fn collect(&mut self)
        requires
            old(self).wf(),
            old(self).heap@.len() <= usize::MAX,
        ensures
            final(self).wf(),
            final(self).heap@ == collected_heap(old(self).stack@, old(self).heap@),
            final(self).free_list@ == collected_free(
                old(self).stack@,
                old(self).heap@,
                old(self).free_list@,
            ),
            final(self).stack == old(self).stack,
            final(self).base_threshold == old(self).base_threshold,
            final(self).next_gc == old(self).next_gc,
            final(self).gc_inhibited == old(self).gc_inhibited,
    {
        self.collect_cycles();
    }

    /// A collection falls due at the next allocation.
    pub open spec fn gc_due(&self) -> bool {
        self.gc_inhibited == 0 && self.live_count_spec() >= self.next_gc
    }

    /// The heap and free list an allocation places its object into: the
    /// state after the collection, when one falls due.
    pub open spec fn heap_before_alloc(&self) -> (Heap, Seq<usize>) {
        if self.gc_due() {
            (
                collected_heap(self.stack@, self.heap@),
                collected_free(self.stack@, self.heap@, self.free_list@),
            )
        } else {
            (self.heap@, self.free_list@)
        }
    }

    /// The slot an allocation fills: the most recently freed one, or a new one.
    pub open spec fn alloc_slot(&self) -> usize {
        let (h1, f1) = self.heap_before_alloc();
        if f1.len() > 0 {
            f1.last()
        } else {
            h1.len() as usize
        }
    }

    /// The heap length after an allocation.
    pub open spec fn alloc_len(&self) -> nat {
        let (h1, f1) = self.heap_before_alloc();
        if f1.len() > 0 {
            h1.len()
        } else {
            h1.len() + 1
        }
    }

    /// The free list after an allocation.
    pub open spec fn free_after_alloc(&self) -> Seq<usize> {
        let (h1, f1) = self.heap_before_alloc();
        if f1.len() > 0 {
            f1.drop_last()
        } else {
            f1
        }
    }

    /// `heap` is the heap after an allocation that put `entry` into the
    /// allocation slot.
    pub open spec fn allocated_into(&self, heap: Heap, entry: HeapEntry) -> bool {
        let (h1, f1) = self.heap_before_alloc();
        &&& heap.len() == self.alloc_len()
        &&& self.alloc_slot() < heap.len()
        &&& heap[self.alloc_slot() as int] == Some(entry)
        &&& forall|j: int| 0 <= j < h1.len() && j != self.alloc_slot() ==> #[trigger] heap[j] == h1[j]
    }

    /// Room for the counters an allocation updates.
    pub open spec fn alloc_room(&self) -> bool {
        &&& self.heap@.len() <= usize::MAX / 2
        &&& self.base_threshold <= usize::MAX / 4
    }

    /// Allocate a new heap object with reference count 1 and return its slot.
    ///
    /// When the live count has reached `next_gc`, a collection runs first and
    /// the threshold is retuned from the time since the previous collection.
    /// The object goes into the most recently freed slot, or a new one.
    pub fn allocate(&mut self, object: Object) -> (res: usize)
        requires
            old(self).wf(),
            old(self).alloc_room(),
        ensures
            final(self).wf(),
            final(self).stack == old(self).stack,
            res == old(self).alloc_slot(),
            old(self).allocated_into(final(self).heap@, HeapEntry { ref_count: 1, object }),
            final(self).free_list@ == old(self).free_after_alloc(),
            final(self).heap@.len() <= old(self).heap@.len() + 1,
            final(self).gc_inhibited == old(self).gc_inhibited,
            final(self).base_threshold <= usize::MAX / 4,
            !old(self).gc_due() ==> final(self).base_threshold == old(self).base_threshold
                && final(self).next_gc == old(self).next_gc,
            old(self).gc_due() ==> threshold_step(old(self).base_threshold, final(self).base_threshold)
                && final(self).next_gc == old(self).heap_before_alloc().0.len()
                - old(self).heap_before_alloc().1.len() + final(self).base_threshold,
    {
        if self.gc_inhibited == 0 && self.live_count() >= self.next_gc {
            let now = crate::clock::now();
            if let Some(last) = &self.last_gc {
                let elapsed = crate::clock::duration_since(&now, last);
                let delta = crate::clock::as_millis(&elapsed);
                self.base_threshold = tuned_threshold(self.base_threshold, delta);
                assert(tuned(old(self).base_threshold, delta) == self.base_threshold);
            } else {
                assert(tuned(old(self).base_threshold, 32) == self.base_threshold);
            }
            self.collect_cycles();
            self.last_gc = Some(now);
            proof {
                lemma_trim_len(swept(old(self).stack@, old(self).heap@));
            }
            self.next_gc = self.live_count() + self.base_threshold;
        }
        let ghost h1 = self.heap@;
        let ghost f1 = self.free_list@;
        proof {
            lemma_free_len(h1, f1);
        }
        if let Some(idx) = self.free_list.pop() {
            self.heap.set(idx, Some(HeapEntry { ref_count: 1, object }));
            proof {
                lemma_free_pop(h1, f1, Some(HeapEntry { ref_count: 1, object: self.heap@[idx as int]->0.object }));
                assert(f1.last() < h1.len());
            }
            return idx;
        }
        self.heap.push(Some(HeapEntry { ref_count: 1, object }));
        proof {
            lemma_push(h1, self.heap@.last());
            assert forall|k: int| 0 <= k < f1.len() implies (#[trigger] f1[k]) < self.heap@.len()
                && self.heap@[f1[k] as int] is None by {}
        }
        self.heap.len() - 1
    }

    /// Allocate an object whose count starts at zero: the caller is
    /// responsible for keeping it referenced.
    pub fn allocate_ghost(&mut self, object: Object) -> (res: usize)
        requires
            old(self).wf(),
            old(self).alloc_room(),
        ensures
            final(self).wf(),
            final(self).stack == old(self).stack,
            res == old(self).alloc_slot(),
            old(self).allocated_into(final(self).heap@, HeapEntry { ref_count: 0, object }),
            final(self).free_list@ == old(self).free_after_alloc(),
    {
        let idx = self.allocate(object);
        let ghost hm = self.heap@;
        let e = take_slot(&mut self.heap, idx).unwrap();
        self.heap.set(idx, Some(HeapEntry { ref_count: 0, object: e.object }));
        proof {
            assert(self.heap@ =~= hm.update(idx as int, Some(HeapEntry { ref_count: 0, object })));
            assert(free_ok(self.heap@, self.free_list@));
        }
        idx
    }

    /// Allocate a string object and push a reference to it.
    pub fn push_string(&mut self, s: String)
        requires
            old(self).wf(),
            old(self).alloc_room(),
        ensures
            final(self).base_threshold <= usize::MAX / 4,
            final(self).gc_inhibited == old(self).gc_inhibited,
            !old(self).gc_due() ==> final(self).base_threshold == old(self).base_threshold
                && final(self).next_gc == old(self).next_gc,
            old(self).gc_due() ==> threshold_step(old(self).base_threshold, final(self).base_threshold)
                && final(self).next_gc == old(self).heap_before_alloc().0.len()
                - old(self).heap_before_alloc().1.len() + final(self).base_threshold,
            final(self).wf(),
            final(self).stack@ == old(self).stack@.push(VmData::Object(old(self).alloc_slot())),
            final(self).free_list@ == old(self).free_after_alloc(),
            new_object(*old(self), final(self).heap@, crate::value::KindView::String),
            final(self).heap@[old(self).alloc_slot() as int]->0.object.data@.len() == s@.len(),
            forall|i: int| 0 <= i < s@.len() ==> #[trigger] final(self).heap@[old(self).alloc_slot() as int]->0.object.data@[i] == VmData::Char(s@[i]),
    {
        let obj = Object::string(s);
        let idx = self.allocate(obj);
        self.stack.push(VmData::Object(idx));
    }

    /// Allocate a list object holding `list` and push a reference to it.
    pub fn push_list(&mut self, list: Vec<VmData>)
        requires
            old(self).wf(),
            old(self).alloc_room(),
        ensures
            final(self).base_threshold <= usize::MAX / 4,
            final(self).gc_inhibited == old(self).gc_inhibited,
            !old(self).gc_due() ==> final(self).base_threshold == old(self).base_threshold
                && final(self).next_gc == old(self).next_gc,
            old(self).gc_due() ==> threshold_step(old(self).base_threshold, final(self).base_threshold)
                && final(self).next_gc == old(self).heap_before_alloc().0.len()
                - old(self).heap_before_alloc().1.len() + final(self).base_threshold,
            final(self).wf(),
            final(self).stack@ == old(self).stack@.push(VmData::Object(old(self).alloc_slot())),
            final(self).free_list@ == old(self).free_after_alloc(),
            new_object(*old(self), final(self).heap@, crate::value::KindView::List),
            final(self).heap@[old(self).alloc_slot() as int]->0.object.data == list,
    {
        let obj = Object::list(list);
        let idx = self.allocate(obj);
        self.stack.push(VmData::Object(idx));
    }

    /// Allocate an enum object and push a reference to it.
    pub fn push_enum(&mut self, name: String, tag: i64, data: Vec<VmData>)
        requires
            old(self).wf(),
            old(self).alloc_room(),
        ensures
            final(self).base_threshold <= usize::MAX / 4,
            final(self).gc_inhibited == old(self).gc_inhibited,
            !old(self).gc_due() ==> final(self).base_threshold == old(self).base_threshold
                && final(self).next_gc == old(self).next_gc,
            old(self).gc_due() ==> threshold_step(old(self).base_threshold, final(self).base_threshold)
                && final(self).next_gc == old(self).heap_before_alloc().0.len()
                - old(self).heap_before_alloc().1.len() + final(self).base_threshold,
            final(self).wf(),
            final(self).stack@ == old(self).stack@.push(VmData::Object(old(self).alloc_slot())),
            final(self).free_list@ == old(self).free_after_alloc(),
            new_object(*old(self), final(self).heap@, crate::value::KindView::Enum(name@, tag)),
            final(self).heap@[old(self).alloc_slot() as int]->0.object.data == data,
    {
        let obj = Object::enum_object(name, tag, data);
        let idx = self.allocate(obj);
        self.stack.push(VmData::Object(idx));
    }

    /// Release the reference a value holds, if it is an object reference.
    pub fn dec_value(&mut self, value: VmData)
        requires
            old(self).wf(),
        ensures
            final(self).wf(),
            final(self).stack == old(self).stack,
            final(self).base_threshold == old(self).base_threshold,
            final(self).next_gc == old(self).next_gc,
            final(self).gc_inhibited == old(self).gc_inhibited,
            (final(self).heap@, final(self).free_list@) == release_value(
                old(self).heap@,
                old(self).free_list@,
                value,
            ),
    {
        if let VmData::Object(idx) = value {
            self.dec(idx);
        }
    }

    /// Add a reference for a value, if it is an object reference.
    pub fn inc_value(&mut self, value: VmData)
        requires
            can_inc(old(self).heap@, value),
        ensures
            final(self).stack == old(self).stack,
            final(self).free_list == old(self).free_list,
            final(self).base_threshold == old(self).base_threshold,
            final(self).next_gc == old(self).next_gc,
            final(self).gc_inhibited == old(self).gc_inhibited,
            final(self).heap@ == retain_value(old(self).heap@, value),
    {
        if let VmData::Object(idx) = value {
            self.inc(idx);
        }
    }

    /// Push a value, adding a reference when it is an object reference.
    pub fn push(&mut self, value: VmData)
        requires
            can_inc(old(self).heap@, value),
        ensures
            final(self).stack@ == old(self).stack@.push(value),
            final(self).free_list == old(self).free_list,
            final(self).base_threshold == old(self).base_threshold,
            final(self).next_gc == old(self).next_gc,
            final(self).gc_inhibited == old(self).gc_inhibited,
            final(self).heap@ == retain_value(old(self).heap@, value),
    {
        if let VmData::Object(idx) = value {
            self.inc(idx);
        }
        self.stack.push(value);
    }

    /// Pop the top value, releasing the reference it held.
    pub fn pop(&mut self) -> (res: Option<VmData>)
        requires
            old(self).wf(),
        ensures
            final(self).wf(),
            final(self).base_threshold == old(self).base_threshold,
            final(self).next_gc == old(self).next_gc,
            final(self).gc_inhibited == old(self).gc_inhibited,
            old(self).stack@.len() == 0 ==> res is None && final(self).stack@ == old(self).stack@
                && final(self).heap == old(self).heap && final(self).free_list == old(self).free_list,
            old(self).stack@.len() > 0 ==> res == Some(old(self).stack@.last())
                && final(self).stack@ == old(self).stack@.drop_last()
                && (final(self).heap@, final(self).free_list@) == release_value(
                old(self).heap@,
                old(self).free_list@,
                old(self).stack@.last(),
            ),
    {
        if let Some(value) = self.stack.pop() {
            if let VmData::Object(idx) = value {
                self.dec(idx);
            }
            Some(value)
        } else {
            None
        }
    }

    /// The object in a live slot.
    pub fn ref_from_heap(&self, index: usize) -> (res: Option<&Object>)
        ensures
            match res {
                Some(o) => live(self.heap@, index as int) && *o == self.heap@[index as int]->0.object,
                None => !live(self.heap@, index as int),
            },
    {
        if index < self.heap.len() {
            match &self.heap[index] {
                Some(entry) => Some(&entry.object),
                None => None,
            }
        } else {
            None
        }
    }

    /// The object in a live slot, for changing in place.
    pub fn ref_from_heap_mut(&mut self, index: usize) -> (res: Option<&mut Object>)
        ensures
            match res {
                Some(o) => live(old(self).heap@, index as int) && *o == old(self).heap@[index as int]->0.object
                    && final(self).heap@ == old(self).heap@.update(
                    index as int,
                    Some(HeapEntry { ref_count: old(self).heap@[index as int]->0.ref_count, object: *final(o) }),
                ),
                None => !live(old(self).heap@, index as int) && final(self).heap@ == old(self).heap@,
            },
            final(self).stack == old(self).stack,
            final(self).free_list == old(self).free_list,
            final(self).base_threshold == old(self).base_threshold,
            final(self).next_gc == old(self).next_gc,
            final(self).gc_inhibited == old(self).gc_inhibited,
    {
        if index < self.heap.len() {
            match &mut self.heap[index] {
                Some(entry) => Some(&mut entry.object),
                None => None,
            }
        } else {
            None
        }
    }

    /// The stack value at `index`.
    pub fn ref_from_stack(&self, index: usize) -> (res: Option<&VmData>)
        ensures
            match res {
                Some(v) => index < self.stack@.len() && *v == self.stack@[index as int],
                None => index >= self.stack@.len(),
            },
    {
        if index < self.stack.len() {
            Some(&self.stack[index])
        } else {
            None
        }
    }

    /// Pop without touching reference counts.
    pub fn fast_pop(&mut self) -> (res: Option<VmData>)
        ensures
            old(self).stack@.len() == 0 ==> res is None && final(self).stack@ == old(self).stack@,
            old(self).stack@.len() > 0 ==> res == Some(old(self).stack@.last())
                && final(self).stack@ == old(self).stack@.drop_last(),
            final(self).heap == old(self).heap,
            final(self).free_list == old(self).free_list,
            final(self).base_threshold == old(self).base_threshold,
            final(self).next_gc == old(self).next_gc,
            final(self).gc_inhibited == old(self).gc_inhibited,
    {
        self.stack.pop()
    }

    /// Push without touching reference counts.
    pub fn fast_push(&mut self, value: VmData)
        ensures
            final(self).stack@ == old(self).stack@.push(value),
            final(self).heap == old(self).heap,
            final(self).free_list == old(self).free_list,
            final(self).base_threshold == old(self).base_threshold,
            final(self).next_gc == old(self).next_gc,
            final(self).gc_inhibited == old(self).gc_inhibited,
    {
        self.stack.push(value);
    }

    /// Shallow clone: add a reference to a slot and return the same slot.
    pub fn shallow_clone_heap(&mut self, index: usize) -> (res: usize)
        requires
            can_inc(old(self).heap@, VmData::Object(index)),
        ensures
            res == index,
            final(self).heap@ == retain_value(old(self).heap@, VmData::Object(index)),
            final(self).stack == old(self).stack,
            final(self).free_list == old(self).free_list,
            final(self).base_threshold == old(self).base_threshold,
            final(self).next_gc == old(self).next_gc,
            final(self).gc_inhibited == old(self).gc_inhibited,
    {
        self.inc(index);
        index
    }

    /// Copy the object in slot `value` over the object in slot `destination`
    /// (when both are live), then release one reference to `value`.
    pub fn clone_reference_from(&mut self, value: usize, destination: usize)
        requires
            old(self).wf(),
        ensures
            final(self).wf(),
            final(self).stack == old(self).stack,
            final(self).base_threshold == old(self).base_threshold,
            final(self).next_gc == old(self).next_gc,
            final(self).gc_inhibited == old(self).gc_inhibited,
            exists|h1: Heap| {
                &&& copied_over(old(self).heap@, h1, value as int, destination as int)
                &&& (final(self).heap@, final(self).free_list@) == release(h1, old(self).free_list@, seq![value])
            },
    {
        let ghost h0 = self.heap@;
        if value < self.heap.len() && destination < self.heap.len() {
            let copy = match &self.heap[value] {
                Some(src) => Some(src.object.duplicate()),
                None => None,
            };
            if let Some(object) = copy {
                if self.heap[destination].is_some() {
                    let d = take_slot(&mut self.heap, destination).unwrap();
                    self.heap.set(destination, Some(HeapEntry { ref_count: d.ref_count, object }));
                    proof {
                        assert(free_ok(self.heap@, self.free_list@));
                    }
                }
            }
        }
        let ghost h1 = self.heap@;
        assert(copied_over(h0, h1, value as int, destination as int));
        self.dec(value);
    }

    /// Overwrite stack slot `index` with `value`, releasing the reference the
    /// old value held. No effect when the slot does not exist.
    pub fn store(&mut self, index: usize, value: VmData)
        requires
            old(self).wf(),
        ensures
            final(self).wf(),
            final(self).base_threshold == old(self).base_threshold,
            final(self).next_gc == old(self).next_gc,
            final(self).gc_inhibited == old(self).gc_inhibited,
            index < old(self).stack@.len() ==> final(self).stack@ == old(self).stack@.update(index as int, value)
                && (final(self).heap@, final(self).free_list@) == release_value(
                old(self).heap@,
                old(self).free_list@,
                old(self).stack@[index as int],
            ),
            index >= old(self).stack@.len() ==> final(self).stack@ == old(self).stack@
                && final(self).heap == old(self).heap && final(self).free_list == old(self).free_list,
    {
        if index < self.stack.len() {
            if let VmData::Object(idx) = self.stack[index] {
                self.dec(idx);
            }
            self.stack.set(index, value);
        }
    }

    /// Pop the top value into stack slot `index`, releasing the reference the
    /// slot's old value held.
    pub fn pop_store_index(&mut self, index: usize)
        requires
            old(self).wf(),
            old(self).stack@.len() > 0 ==> index < old(self).stack@.len() - 1,
        ensures
            final(self).wf(),
            final(self).base_threshold == old(self).base_threshold,
            final(self).next_gc == old(self).next_gc,
            final(self).gc_inhibited == old(self).gc_inhibited,
            old(self).stack@.len() == 0 ==> final(self).stack@ == old(self).stack@
                && final(self).heap == old(self).heap && final(self).free_list == old(self).free_list,
            old(self).stack@.len() > 0 ==> final(self).stack@ == old(self).stack@.drop_last().update(
                index as int,
                old(self).stack@.last(),
            ) && (final(self).heap@, final(self).free_list@) == release_value(
                old(self).heap@,
                old(self).free_list@,
                old(self).stack@[index as int],
            ),
    {
        if let Some(value) = self.stack.pop() {
            if let VmData::Object(idx) = self.stack[index] {
                self.dec(idx);
            }
            self.stack.set(index, value);
        }
    }

    /// Push a copy of stack slot `value`, adding a reference when it is an
    /// object reference. No effect when the slot does not exist.
    pub fn stack_index_to_stack(&mut self, value: usize)
        requires
            value < old(self).stack@.len() ==> can_inc(old(self).heap@, old(self).stack@[value as int]),
        ensures
            final(self).free_list == old(self).free_list,
            final(self).base_threshold == old(self).base_threshold,
            final(self).next_gc == old(self).next_gc,
            final(self).gc_inhibited == old(self).gc_inhibited,
            value < old(self).stack@.len() ==> final(self).stack@ == old(self).stack@.push(old(self).stack@[value as int])
                && final(self).heap@ == retain_value(old(self).heap@, old(self).stack@[value as int]),
            value >= old(self).stack@.len() ==> final(self).stack@ == old(self).stack@
                && final(self).heap == old(self).heap,
    {
        if value < self.stack.len() {
            let v = self.stack[value];
            if let VmData::Object(idx) = v {
                self.inc(idx);
            }
            self.stack.push(v);
        }
    }

    /// Set element `pos` of the object in slot `index` (a live slot whose data
    /// has that position) to `value`; otherwise no effect.
    pub fn set_element(&mut self, index: usize, pos: usize, value: VmData)
        requires
            old(self).wf(),
        ensures
            final(self).wf(),
            final(self).stack == old(self).stack,
            final(self).free_list == old(self).free_list,
            final(self).base_threshold == old(self).base_threshold,
            final(self).next_gc == old(self).next_gc,
            final(self).gc_inhibited == old(self).gc_inhibited,
            final(self).heap@.len() == old(self).heap@.len(),
            forall|j: int| 0 <= j < old(self).heap@.len() && j != index ==> #[trigger] final(self).heap@[j] == old(self).heap@[j],
            live(old(self).heap@, index as int) && pos < old(self).heap@[index as int]->0.object.data@.len() ==> {
                &&& final(self).heap@[index as int] is Some
                &&& final(self).heap@[index as int]->0.ref_count == old(self).heap@[index as int]->0.ref_count
                &&& final(self).heap@[index as int]->0.object.object_type == old(self).heap@[index as int]->0.object.object_type
                &&& final(self).heap@[index as int]->0.object.table == old(self).heap@[index as int]->0.object.table
                &&& final(self).heap@[index as int]->0.object.data@ == old(self).heap@[index as int]->0.object.data@.update(pos as int, value)
            },
            !(live(old(self).heap@, index as int) && pos < old(self).heap@[index as int]->0.object.data@.len()) ==>
                final(self).heap == old(self).heap,
    {
        if index < self.heap.len() {
            let fits = match &self.heap[index] {
                Some(e) => pos < e.object.data.len(),
                None => false,
            };
            if fits {
                let ghost h0 = self.heap@;
                let mut e = take_slot(&mut self.heap, index).unwrap();
                e.object.data.set(pos, value);
                self.heap.set(index, Some(e));
                proof {
                    assert(free_ok(self.heap@, self.free_list@));
                }
            }
        }
    }

    /// Push each value in order, adding a reference for each object reference.
    pub fn push_all(&mut self, vals: &Vec<VmData>)
        requires
            counts_below(old(self).heap@, vals@.len()),
        ensures
            final(self).stack@ == old(self).stack@ + vals@,
            final(self).heap@ == retain_all(old(self).heap@, vals@),
            final(self).free_list == old(self).free_list,
            final(self).base_threshold == old(self).base_threshold,
            final(self).next_gc == old(self).next_gc,
            final(self).gc_inhibited == old(self).gc_inhibited,
    {
        let mut i: usize = 0;
        while i < vals.len()
            invariant
                i <= vals@.len(),
                self.stack@ == old(self).stack@ + vals@.subrange(0, i as int),
                self.heap@ == retain_all(old(self).heap@, vals@.subrange(0, i as int)),
                counts_below(self.heap@, (vals@.len() - i) as nat),
                self.free_list == old(self).free_list,
                self.base_threshold == old(self).base_threshold,
                self.next_gc == old(self).next_gc,
                self.gc_inhibited == old(self).gc_inhibited,
            decreases vals@.len() - i,
        {
            proof {
                lemma_retain_counts(self.heap@, vals@[i as int], (vals@.len() - i - 1) as nat);
                assert(vals@.subrange(0, i + 1).drop_last() =~= vals@.subrange(0, i as int));
            }
            self.push(vals[i]);
            i += 1;
            assert(self.stack@ =~= old(self).stack@ + vals@.subrange(0, i as int));
        }
        assert(vals@.subrange(0, vals@.len() as int) =~= vals@);
    }

    /// Open an inhibition: allocations do not collect until it is released.
    pub fn gc_inhibit(&mut self)
        ensures
            final(self).gc_inhibited == (if old(self).gc_inhibited < usize::MAX {
                old(self).gc_inhibited + 1
            } else {
                old(self).gc_inhibited as int
            }),
            final(self).stack == old(self).stack,
            final(self).heap == old(self).heap,
            final(self).free_list == old(self).free_list,
            final(self).base_threshold == old(self).base_threshold,
            final(self).next_gc == old(self).next_gc,
    {
        if self.gc_inhibited < usize::MAX {
            self.gc_inhibited = self.gc_inhibited + 1;
        }
    }

    /// Release one inhibition.
    pub fn gc_release(&mut self)
        ensures
            final(self).gc_inhibited == (if old(self).gc_inhibited > 0 {
                old(self).gc_inhibited - 1
            } else {
                0
            }),
            final(self).stack == old(self).stack,
            final(self).heap == old(self).heap,
            final(self).free_list == old(self).free_list,
            final(self).base_threshold == old(self).base_threshold,
            final(self).next_gc == old(self).next_gc,
    {
        if self.gc_inhibited > 0 {
            self.gc_inhibited = self.gc_inhibited - 1;
        }
    }

    /// Decrement the reference count of a heap entry; an entry whose count
    /// reaches zero is freed together with every entry only it kept alive.
    pub fn dec(&mut self, index: usize)
        requires
            old(self).wf(),
        ensures
            final(self).wf(),
            (final(self).heap@, final(self).free_list@) == release(
                old(self).heap@,
                old(self).free_list@,
                seq![index],
            ),
            final(self).heap@.len() == old(self).heap@.len(),
            final(self).stack == old(self).stack,
            final(self).base_threshold == old(self).base_threshold,
            final(self).next_gc == old(self).next_gc,
            final(self).gc_inhibited == old(self).gc_inhibited,
    {
        let ghost h0 = self.heap@;
        let ghost f0 = self.free_list@;
        // Fast path: just decrement and return if still alive.
        if index < self.heap.len() {
            let still_alive = match &self.heap[index] {
                Some(e) => e.ref_count > 1,
                None => false,
            };
            if still_alive {
                let e = take_slot(&mut self.heap, index).unwrap();
                self.heap.set(index, Some(HeapEntry { ref_count: e.ref_count - 1, object: e.object }));
                proof {
                    reveal_with_fuel(release, 2);
                    let le = lowered(h0[index as int]->0);
                    lemma_count_live_update(h0, index as int, Some(le));
                    assert(seq![index].drop_last() =~= Seq::<usize>::empty());
                    assert(self.heap@ =~= h0.update(index as int, Some(le)));
                    assert(free_ok(self.heap@, self.free_list@));
                }
                return;
            }
        }
        // Slow path: the count reaches zero; free iteratively.
        let mut worklist: Vec<usize> = Vec::new();
        worklist.push(index);
        assert(worklist@ =~= seq![index]);
        while worklist.len() > 0
            invariant
                free_ok(self.heap@, self.free_list@),
                self.heap@.len() == h0.len(),
                release(self.heap@, self.free_list@, worklist@) == release(h0, f0, seq![index]),
                self.stack == old(self).stack,
                self.base_threshold == old(self).base_threshold,
                self.next_gc == old(self).next_gc,
                self.gc_inhibited == old(self).gc_inhibited,
            decreases count_live(self.heap@), worklist@.len(),
        {
            let ghost h1 = self.heap@;
            let ghost f1 = self.free_list@;
            let ghost w1 = worklist@;
            let idx = worklist.pop().unwrap();
            proof {
                assert(w1.drop_last() == worklist@);
                assert(w1.last() == idx);
            }
            if idx < self.heap.len() {
                let slot = take_slot(&mut self.heap, idx);
                match slot {
                    Some(mut e) => {
                        if e.ref_count > 0 {
                            e.ref_count = e.ref_count - 1;
                        }
                        if e.ref_count == 0 {
                            let ghost w2 = worklist@;
                            let mut k: usize = 0;
                            while k < e.object.data.len()
                                invariant
                                    k <= e.object.data.len(),
                                    worklist@ == w2 + refs_of(e.object.data@.subrange(0, k as int)),
                                decreases e.object.data.len() - k,
                            {
                                let ghost wk = worklist@;
                                proof {
                                    assert(e.object.data@.subrange(0, k + 1).drop_last() =~= e.object.data@.subrange(0, k as int));
                                }
                                if let Some(child) = get_heap_index(&e.object.data[k]) {
                                    worklist.push(child);
                                    proof {
                                        assert(worklist@ =~= w2 + refs_of(e.object.data@.subrange(0, k + 1)));
                                    }
                                } else {
                                    assert(worklist@ =~= w2 + refs_of(e.object.data@.subrange(0, k + 1)));
                                }
                                k += 1;
                            }
                            assert(e.object.data@.subrange(0, e.object.data.len() as int) =~= e.object.data@);
                            self.free_list.push(idx);
                            proof {
                                lemma_count_live_update(h1, idx as int, None);
                                lemma_free_push(h1, f1, idx);
                            }
                        } else {
                            self.heap.set(idx, Some(e));
                            proof {
                                lemma_count_live_update(h1, idx as int, Some(lowered(h1[idx as int]->0)));
                                assert(self.heap@ =~= h1.update(idx as int, Some(lowered(h1[idx as int]->0))));
                                assert(free_ok(self.heap@, self.free_list@));
                            }
                        }
                    },
                    None => {
                        proof {
                            assert(self.heap@ =~= h1);
                        }
                    },
                }
            }
        }
        proof {
            lemma_release_wf(h0, f0, seq![index]);
        }
    }
}

/// The heap indices referenced by a data sequence, in order.
pub open spec fn refs_of(data: Seq<VmData>) -> Seq<usize>
    decreases data.len(),
{
    if data.len() == 0 {
        Seq::empty()
    } else {
        let r = refs_of(data.drop_last());
        match heap_ref(data.last()) {
            Some(i) => r.push(i),
            None => r,
        }
    }
}

/// Number of live slots.
pub open spec fn count_live(heap: Heap) -> nat
    decreases heap.len(),
{
    if heap.len() == 0 {
        0
    } else {
        count_live(heap.drop_last()) + if heap.last() is Some {
            1nat
        } else {
            0nat
        }
    }
}

/// An entry with its count lowered by one (not below zero).
pub open spec fn lowered(e: HeapEntry) -> HeapEntry {
    HeapEntry {
        ref_count: if e.ref_count > 0 {
            (e.ref_count - 1) as usize
        } else {
            0usize
        },
        object: e.object,
    }
}

/// Releases one reference for each index in `work`, last first: a live
/// entry's count drops by one; an entry whose count reaches zero is freed,
/// its slot joins the free list and the references it holds are released
/// in turn.
pub open spec fn release(heap: Heap, free: Seq<usize>, work: Seq<usize>) -> (Heap, Seq<usize>)
    decreases count_live(heap), work.len(),
{
    if work.len() == 0 {
        (heap, free)
    } else {
        let idx = work.last() as int;
        let rest = work.drop_last();
        if live(heap, idx) {
            let e = lowered(heap[idx]->0);
            if e.ref_count == 0 {
                proof {
                    lemma_count_live_update(heap, idx, None);
                }
                release(heap.update(idx, None), free.push(idx as usize), rest + refs_of(e.object.data@))
            } else {
                proof {
                    lemma_count_live_update(heap, idx, Some(e));
                }
                release(heap.update(idx, Some(e)), free, rest)
            }
        } else {
            release(heap, free, rest)
        }
    }
}

pub proof fn lemma_count_live_update(heap: Heap, i: int, v: Option<HeapEntry>)
    requires
        0 <= i < heap.len(),
    ensures
        count_live(heap.update(i, v)) + (if heap[i] is Some { 1int } else { 0int }) == count_live(heap)
            + (if v is Some { 1int } else { 0int }),
    decreases heap.len(),
{
    let h2 = heap.update(i, v);
    if i == heap.len() - 1 {
        assert(h2.drop_last() =~= heap.drop_last());
    } else {
        lemma_count_live_update(heap.drop_last(), i, v);
        assert(h2.drop_last() =~= heap.drop_last().update(i, v));
    }
}

/// Releasing keeps the free list matched to the free slots.
pub proof fn lemma_release_wf(heap: Heap, free: Seq<usize>, work: Seq<usize>)
    requires
        free_ok(heap, free),
    ensures
        free_ok(release(heap, free, work).0, release(heap, free, work).1),
        release(heap, free, work).0.len() == heap.len(),
    decreases count_live(heap), work.len(),
{
    if work.len() > 0 {
        let idx = work.last() as int;
        let rest = work.drop_last();
        if live(heap, idx) {
            let e = lowered(heap[idx]->0);
            if e.ref_count == 0 {
                lemma_count_live_update(heap, idx, None);
                let h2 = heap.update(idx, None);
                let f2 = free.push(idx as usize);
                lemma_free_push(heap, free, idx as usize);
                lemma_release_wf(h2, f2, rest + refs_of(e.object.data@));
            } else {
                lemma_count_live_update(heap, idx, Some(e));
                let h2 = heap.update(idx, Some(e));
                assert(free_ok(h2, free));
                lemma_release_wf(h2, free, rest);
            }
        } else {
            lemma_release_wf(heap, free, rest);
        }
    }
}

/// Freeing a live slot and appending it to the free list keeps them matched.
pub proof fn lemma_free_push(heap: Heap, free: Seq<usize>, idx: usize)
    requires
        free_ok(heap, free),
        live(heap, idx as int),
    ensures
        free_ok(heap.update(idx as int, None), free.push(idx)),
{
    let h2 = heap.update(idx as int, None);
    let f2 = free.push(idx);
    lemma_push(free, idx);
    if free.contains(idx) {
        let k = choose|k: int| 0 <= k < free.len() && free[k] == idx;
        assert(heap[free[k] as int] is None);
    }
    assert forall|a: int, b: int| 0 <= a < f2.len() && 0 <= b < f2.len() && a != b implies f2[a]
        != f2[b] by {}
    assert forall|i: int| 0 <= i < h2.len() && h2[i] is None implies f2.contains(i as usize) by {
        if i == idx {
            assert(f2[free.len() as int] == idx as usize);
        } else {
            let k = choose|k: int| 0 <= k < free.len() && free[k] == i as usize;
            assert(f2[k] == i as usize);
        }
    }
}

/// Slot `j` is referenced from the stack.
pub open spec fn stack_ref(stack: Seq<VmData>, j: int) -> bool {
    exists|k: int| 0 <= k < stack.len() && stack[k] == VmData::Object(j as usize)
}

/// The live entry in slot `i` holds a reference to slot `j`.
pub open spec fn holds_ref(heap: Heap, i: int, j: int) -> bool {
    live(heap, i) && exists|k: int|
        0 <= k < heap[i]->0.object.data@.len() && heap[i]->0.object.data@[k] == VmData::Object(
            j as usize,
        )
}

/// `p` is a chain of slots from a stack reference, each step following a
/// reference held by a live entry.
pub open spec fn is_path(stack: Seq<VmData>, heap: Heap, p: Seq<int>) -> bool {
    &&& p.len() > 0
    &&& stack_ref(stack, p[0])
    &&& forall|k: int| 0 <= k < p.len() ==> 0 <= #[trigger] p[k] < heap.len()
    &&& forall|k: int| 0 <= k < p.len() - 1 ==> holds_ref(heap, #[trigger] p[k], p[k + 1])
}

/// Slot `j` can be reached from the stack.
pub open spec fn reachable(stack: Seq<VmData>, heap: Heap, j: int) -> bool {
    exists|p: Seq<int>| #[trigger] is_path(stack, heap, p) && p.last() == j
}

/// The heap with every live entry that cannot be reached from the stack freed.
pub open spec fn swept(stack: Seq<VmData>, heap: Heap) -> Heap {
    Seq::new(
        heap.len(),
        |i: int|
            if heap[i] is Some && reachable(stack, heap, i) {
                heap[i]
            } else {
                None
            },
    )
}

/// The live slots below `n` that cannot be reached from the stack, in increasing order.
pub open spec fn dead_slots(stack: Seq<VmData>, heap: Heap, n: nat) -> Seq<usize>
    decreases n,
{
    if n == 0 {
        Seq::empty()
    } else {
        let rest = dead_slots(stack, heap, (n - 1) as nat);
        let i = n - 1;
        if live(heap, i) && !reachable(stack, heap, i) {
            rest.push(i as usize)
        } else {
            rest
        }
    }
}

/// The heap without its trailing free slots.
pub open spec fn trim(heap: Heap) -> Heap
    decreases heap.len(),
{
    if heap.len() > 0 && heap.last() is None {
        trim(heap.drop_last())
    } else {
        heap
    }
}

/// The free-list entries below `n`, in order.
pub open spec fn below(free: Seq<usize>, n: nat) -> Seq<usize>
    decreases free.len(),
{
    if free.len() == 0 {
        Seq::empty()
    } else {
        let rest = below(free.drop_last(), n);
        if free.last() < n {
            rest.push(free.last())
        } else {
            rest
        }
    }
}

/// The heap after a collection: unreachable entries freed, trailing free slots dropped.
pub open spec fn collected_heap(stack: Seq<VmData>, heap: Heap) -> Heap {
    trim(swept(stack, heap))
}

/// The free list after a collection: the freed slots appended, then every
/// slot beyond the trimmed heap dropped.
pub open spec fn collected_free(stack: Seq<VmData>, heap: Heap, free: Seq<usize>) -> Seq<usize> {
    below(free + dead_slots(stack, heap, heap.len()), collected_heap(stack, heap).len())
}

/// Number of unmarked slots.
pub open spec fn count_unmarked(marks: Seq<bool>) -> nat
    decreases marks.len(),
{
    if marks.len() == 0 {
        0
    } else {
        count_unmarked(marks.drop_last()) + if marks.last() {
            0nat
        } else {
            1nat
        }
    }
}

pub proof fn lemma_count_unmarked_set(marks: Seq<bool>, i: int)
    requires
        0 <= i < marks.len(),
        !marks[i],
    ensures
        count_unmarked(marks.update(i, true)) + 1 == count_unmarked(marks),
    decreases marks.len(),
{
    let m2 = marks.update(i, true);
    if i == marks.len() - 1 {
        assert(m2.drop_last() =~= marks.drop_last());
    } else {
        lemma_count_unmarked_set(marks.drop_last(), i);
        assert(m2.drop_last() =~= marks.drop_last().update(i, true));
    }
}

/// Extending a path by one held reference gives a path.
pub proof fn lemma_path_extend(stack: Seq<VmData>, heap: Heap, p: Seq<int>, j: int)
    requires
        is_path(stack, heap, p),
        holds_ref(heap, p.last(), j),
        0 <= j < heap.len(),
    ensures
        is_path(stack, heap, p.push(j)),
        p.push(j).last() == j,
{
    let q = p.push(j);
    lemma_push(p, j);
    assert forall|k: int| 0 <= k < q.len() - 1 implies holds_ref(heap, #[trigger] q[k], q[k + 1]) by {
        if k < p.len() - 1 {
            assert(q[k] == p[k] && q[k + 1] == p[k + 1]);
        } else {
            assert(q[k] == p.last());
        }
    }
}

/// A marking that holds every stack root, and every in-range reference held
/// by each marked live entry, holds every reachable slot.
pub proof fn lemma_closed_marks(stack: Seq<VmData>, heap: Heap, marks: Seq<bool>, p: Seq<int>)
    requires
        marks.len() == heap.len(),
        heap.len() <= usize::MAX,
        forall|k: int|
            0 <= k < stack.len() && (#[trigger] heap_ref(stack[k])) is Some && heap_ref(
                stack[k],
            )->0 < heap.len() ==> marks[heap_ref(stack[k])->0 as int],
        forall|i: int, j: int|
            0 <= i < heap.len() && 0 <= j < heap.len() && #[trigger] marks[i] && #[trigger] holds_ref(heap, i, j) ==> marks[j],
        is_path(stack, heap, p),
    ensures
        marks[p.last()],
    decreases p.len(),
{
    if p.len() == 1 {
        assert(0 <= p[0] < heap.len());
        let k = choose|k: int| 0 <= k < stack.len() && stack[k] == VmData::Object(p[0] as usize);
        assert(heap_ref(stack[k]) is Some);
        assert(heap_ref(stack[k])->0 as int == p[0]);
        assert(p.last() == p[0]);
    } else {
        let q = p.drop_last();
        assert(is_path(stack, heap, q)) by {
            assert forall|k: int| 0 <= k < q.len() - 1 implies holds_ref(heap, #[trigger] q[k], q[k + 1]) by {
                assert(q[k] == p[k] && q[k + 1] == p[k + 1]);
            }
            assert forall|k: int| 0 <= k < q.len() implies 0 <= #[trigger] q[k] < heap.len() by {
                assert(q[k] == p[k]);
            }
        }
        lemma_closed_marks(stack, heap, marks, q);
        let i = p[p.len() - 2];
        let j = p[p.len() - 1];
        assert(holds_ref(heap, i, j));
        assert(q.last() == i);
        assert(0 <= i < heap.len() && 0 <= j < heap.len());
        assert(marks[i]);
        assert(marks[j]);
    }
}

/// Membership in the entries below a bound.
pub proof fn lemma_below(free: Seq<usize>, n: nat)
    ensures
        forall|x: usize| #[trigger] below(free, n).contains(x) <==> free.contains(x) && x < n,
        free.no_duplicates() ==> below(free, n).no_duplicates(),
    decreases free.len(),
{
    if free.len() > 0 {
        let rest = free.drop_last();
        lemma_below(rest, n);
        let br = below(rest, n);
        assert forall|x: usize| free.contains(x) <==> rest.contains(x) || x == free.last() by {
            if free.contains(x) && x != free.last() {
                let t = choose|t: int| 0 <= t < free.len() && free[t] == x;
                assert(rest[t] == x);
            }
            if rest.contains(x) {
                let t = choose|t: int| 0 <= t < rest.len() && rest[t] == x;
                assert(free[t] == x);
            }
            if x == free.last() {
                assert(free[free.len() - 1] == x);
            }
        }
        if free.last() < n {
            lemma_push(br, free.last());
            assert forall|x: usize| #[trigger] br.push(free.last()).contains(x) <==> br.contains(x) || x == free.last() by {
                if br.push(free.last()).contains(x) && x != free.last() {
                    let t = choose|t: int| 0 <= t < br.len() + 1 && br.push(free.last())[t] == x;
                    assert(br[t] == x);
                }
                if br.contains(x) {
                    let t = choose|t: int| 0 <= t < br.len() && br[t] == x;
                    assert(br.push(free.last())[t] == x);
                }
                if x == free.last() {
                    assert(br.push(free.last())[br.len() as int] == x);
                }
            }
            if free.no_duplicates() {
                assert(rest.no_duplicates());
                assert(!rest.contains(free.last()));
                assert(!br.contains(free.last()));
            }
        }
    }
}

/// Threshold lower bound after retuning.
pub const MIN_THRESHOLD: usize = 5_000;
/// Threshold upper bound after retuning.
pub const MAX_THRESHOLD: usize = 1_000_000;
/// Target time between two collections, in milliseconds (one frame at 60 fps).
pub const TARGET_FRAME_MS: u128 = 16;

/// The threshold after a collection that came `delta_ms` after the previous
/// one: doubled (capped) when collections come faster than a frame, halved
/// (floored) when they come more than four frames apart.
pub open spec fn tuned(base: usize, delta_ms: u128) -> usize {
    if delta_ms < 16 {
        if base * 2 < 1_000_000 {
            (base * 2) as usize
        } else {
            1_000_000usize
        }
    } else if delta_ms > 64 {
        if base / 2 > 5_000 {
            (base / 2) as usize
        } else {
            5_000usize
        }
    } else {
        base
    }
}

/// `next` is `base` retuned for some elapsed time, or `base` itself.
pub open spec fn threshold_step(base: usize, next: usize) -> bool {
    exists|d: u128| #[trigger] tuned(base, d) == next
}

/// Retunes the collection threshold from the time since the previous collection.
pub fn tuned_threshold(base: usize, delta_ms: u128) -> (res: usize)
    requires
        base <= usize::MAX / 2,
    ensures
        res == tuned(base, delta_ms),
{
    if delta_ms < TARGET_FRAME_MS {
        let doubled = base * 2;
        if doubled < MAX_THRESHOLD {
            doubled
        } else {
            MAX_THRESHOLD
        }
    } else if delta_ms > TARGET_FRAME_MS * 4 {
        let halved = base / 2;
        if halved > MIN_THRESHOLD {
            halved
        } else {
            MIN_THRESHOLD
        }
    } else {
        base
    }
}

/// Trimming never lengthens the heap.
pub proof fn lemma_trim_len(heap: Heap)
    ensures
        trim(heap).len() <= heap.len(),
    decreases heap.len(),
{
    if heap.len() > 0 && heap.last() is None {
        lemma_trim_len(heap.drop_last());
    }
}

/// Reusing the most recently freed slot keeps the free list matched.
pub proof fn lemma_free_pop(heap: Heap, free: Seq<usize>, v: Option<HeapEntry>)
    requires
        free_ok(heap, free),
        heap.len() <= usize::MAX,
        free.len() > 0,
        v is Some,
    ensures
        free_ok(heap.update(free.last() as int, v), free.drop_last()),
{
    let idx = free.last();
    let h2 = heap.update(idx as int, v);
    let f2 = free.drop_last();
    assert forall|k: int| 0 <= k < f2.len() implies (#[trigger] f2[k]) < h2.len() && h2[f2[k] as int] is None by {
        assert(f2[k] == free[k]);
        assert(free[k] != free[free.len() - 1]);
    }
    assert forall|i: int| 0 <= i < h2.len() && h2[i] is None implies f2.contains(i as usize) by {
        assert(i != idx);
        assert(heap[i] is None);
        let t = choose|t: int| 0 <= t < free.len() && free[t] == i as usize;
        assert(t != free.len() - 1);
        assert(f2[t] == i as usize);
    }
}

/// Two objects have the same kind, table and data.
pub open spec fn obj_same(a: Object, b: Object) -> bool {
    &&& a.object_type@ == b.object_type@
    &&& a.table@.len() == b.table@.len()
    &&& forall|i: int| 0 <= i < a.table@.len() ==> (#[trigger] a.table@[i]).0@ == b.table@[i].0@ && a.table@[i].1 == b.table@[i].1
    &&& a.data@ == b.data@
}

/// `h1` is `h` with the object of slot `dest` replaced by a copy of the
/// object of slot `src`, when both are live; otherwise `h` itself.
pub open spec fn copied_over(h: Heap, h1: Heap, src: int, dest: int) -> bool {
    if live(h, src) && live(h, dest) {
        &&& h1.len() == h.len()
        &&& forall|j: int| 0 <= j < h.len() && j != dest ==> h1[j] == h[j]
        &&& h1[dest] is Some
        &&& h1[dest]->0.ref_count == h[dest]->0.ref_count
        &&& obj_same(h1[dest]->0.object, h[src]->0.object)
    } else {
        h1 == h
    }
}

/// The reference counts can take one more reference for `v`.
pub open spec fn can_inc(heap: Heap, v: VmData) -> bool {
    match v {
        VmData::Object(i) => live(heap, i as int) ==> heap[i as int]->0.ref_count < usize::MAX,
        _ => true,
    }
}

/// The heap after adding a reference for `v`.
pub open spec fn retain_value(heap: Heap, v: VmData) -> Heap {
    match v {
        VmData::Object(i) => if live(heap, i as int) {
            heap.update(
                i as int,
                Some(HeapEntry { ref_count: (heap[i as int]->0.ref_count + 1) as usize, object: heap[i as int]->0.object }),
            )
        } else {
            heap
        },
        _ => heap,
    }
}

/// The heap and free list after releasing the reference `v` holds.
pub open spec fn release_value(heap: Heap, free: Seq<usize>, v: VmData) -> (Heap, Seq<usize>) {
    match v {
        VmData::Object(i) => release(heap, free, seq![i]),
        _ => (heap, free),
    }
}

/// `heap` is the heap after `mm` allocated, with count 1, a new object of
/// kind `kind` with an empty table.
pub open spec fn new_object(mm: MemoryManager, heap: Heap, kind: crate::value::KindView) -> bool {
    let (h1, f1) = mm.heap_before_alloc();
    let slot = mm.alloc_slot() as int;
    &&& heap.len() == mm.alloc_len()
    &&& slot < heap.len()
    &&& heap[slot] is Some
    &&& heap[slot]->0.ref_count == 1
    &&& heap[slot]->0.object.object_type@ == kind
    &&& heap[slot]->0.object.table@.len() == 0
    &&& forall|j: int| 0 <= j < h1.len() && j != slot ==> #[trigger] heap[j] == h1[j]
}

/// Adding a reference keeps the free list matched.
pub proof fn lemma_retain_wf(heap: Heap, free: Seq<usize>, v: VmData)
    requires
        free_ok(heap, free),
    ensures
        free_ok(retain_value(heap, v), free),
        retain_value(heap, v).len() == heap.len(),
{
}

/// The heap after adding a reference for each value, first to last.
pub open spec fn retain_all(heap: Heap, vals: Seq<VmData>) -> Heap
    decreases vals.len(),
{
    if vals.len() == 0 {
        heap
    } else {
        retain_value(retain_all(heap, vals.drop_last()), vals.last())
    }
}

/// Adding references keeps the free list matched.
pub proof fn lemma_retain_all_wf(heap: Heap, free: Seq<usize>, vals: Seq<VmData>)
    requires
        free_ok(heap, free),
    ensures
        free_ok(retain_all(heap, vals), free),
        retain_all(heap, vals).len() == heap.len(),
    decreases vals.len(),
{
    if vals.len() > 0 {
        lemma_retain_all_wf(heap, free, vals.drop_last());
        lemma_retain_wf(retain_all(heap, vals.drop_last()), free, vals.last());
    }
}

/// Every live count can take `n` more references.
pub open spec fn counts_below(heap: Heap, n: nat) -> bool {
    forall|i: int| #[trigger] live(heap, i) ==> heap[i]->0.ref_count + n <= usize::MAX
}

pub proof fn lemma_retain_counts(heap: Heap, v: VmData, n: nat)
    requires
        counts_below(heap, n + 1),
    ensures
        counts_below(retain_value(heap, v), n),
        can_inc(heap, v),
        retain_value(heap, v).len() == heap.len(),
        forall|i: int| #[trigger] live(retain_value(heap, v), i) == live(heap, i),
{
    let h2 = retain_value(heap, v);
    assert forall|i: int| #[trigger] live(h2, i) implies h2[i]->0.ref_count + n <= usize::MAX by {
        assert(live(heap, i));
    }
}

/// Releasing never raises a count: every bound on the live counts survives.
pub proof fn lemma_release_counts(heap: Heap, free: Seq<usize>, work: Seq<usize>, n: nat)
    requires
        counts_below(heap, n),
    ensures
        counts_below(release(heap, free, work).0, n),
    decreases count_live(heap), work.len(),
{
    if work.len() > 0 {
        let idx = work.last() as int;
        let rest = work.drop_last();
        if live(heap, idx) {
            let e = lowered(heap[idx]->0);
            if e.ref_count == 0 {
                lemma_count_live_update(heap, idx, None);
                let h2 = heap.update(idx, None);
                assert forall|i: int| #[trigger] live(h2, i) implies h2[i]->0.ref_count + n <= usize::MAX by {
                    assert(live(heap, i));
                }
                lemma_release_counts(h2, free.push(idx as usize), rest + refs_of(e.object.data@), n);
            } else {
                lemma_count_live_update(heap, idx, Some(e));
                let h2 = heap.update(idx, Some(e));
                assert forall|i: int| #[trigger] live(h2, i) implies h2[i]->0.ref_count + n <= usize::MAX by {
                    assert(live(heap, i));
                }
                lemma_release_counts(h2, free, rest, n);
            }
        } else {
            lemma_release_counts(heap, free, rest, n);
        }
    }
}

/// The free list holds at most as many slots as the heap.
pub proof fn lemma_free_len(heap: Heap, free: Seq<usize>)
    requires
        free_ok(heap, free),
    ensures
        free.len() <= heap.len(),
{
    free.unique_seq_to_set();
    let s = free.to_set();
    let f = |x: usize| x as int;
    let ints = vstd::set_lib::set_int_range(0, heap.len() as int);
    vstd::set_lib::lemma_int_range(0, heap.len() as int);
    assert(s.finite()) by {
        free.lemma_cardinality_of_set();
    }
    assert(vstd::relations::injective_on(f, s));
    vstd::set_lib::lemma_map_size(s, s.map(f), f);
    assert forall|x: int| s.map(f).contains(x) implies ints.contains(x) by {
        let y = choose|y: usize| s.contains(y) && f(y) == x;
        let k = choose|k: int| 0 <= k < free.len() && free[k] == y;
        assert(free[k] < heap.len());
    }
    vstd::set_lib::lemma_len_subset(s.map(f), ints);
}

} // verus!
