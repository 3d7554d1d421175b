use vstd::prelude::*;

use crate::memory::{count_unmarked, free_ok, holds_ref, live, Heap, HeapEntry, MemoryManager};
use crate::value::{copy_table, Object, ObjectType, VmData};

verus! {

broadcast use vstd::seq::group_seq_axioms;

/// `src` lists distinct live slots of `h`, and every live slot that one of
/// them references is listed too.
pub open spec fn closed_set(h: Heap, src: Seq<usize>) -> bool {
    &&& src.no_duplicates()
    &&& forall|k: int| 0 <= k < src.len() ==> live(h, #[trigger] src[k] as int)
    &&& forall|k: int, c: int|
        0 <= k < src.len() && #[trigger] holds_ref(h, src[k] as int, c) && live(h, c) ==> src.contains(c as usize)
}

/// What an element becomes in a copy: a reference to a copied slot becomes
/// a reference to its copy, a reference to a free slot becomes `Object(0)`,
/// anything else stays.
pub open spec fn copy_value(h0: Heap, src: Seq<usize>, dst: Seq<usize>, v: VmData) -> VmData {
    match v {
        VmData::Object(c) => if live(h0, c as int) {
            VmData::Object(dst[src.index_of(c)])
        } else {
            VmData::Object(0)
        },
        _ => v,
    }
}

/// `o1` is the copy of `o0`: the same kind, each element as `copy_value`
/// makes it, and, for a struct, the same table (otherwise an empty one).
pub open spec fn copied(h0: Heap, src: Seq<usize>, dst: Seq<usize>, o0: Object, o1: Object) -> bool {
    &&& o1.object_type@ == o0.object_type@
    &&& o1.data@.len() == o0.data@.len()
    &&& forall|m: int| 0 <= m < o0.data@.len() ==> #[trigger] o1.data@[m] == copy_value(h0, src, dst, o0.data@[m])
    &&& if o0.object_type is Struct {
        &&& o1.table@.len() == o0.table@.len()
        &&& forall|m: int| 0 <= m < o0.table@.len() ==> (#[trigger] o1.table@[m]).0@ == o0.table@[m].0@
            && o1.table@[m].1 == o0.table@[m].1
    } else {
        o1.table@.len() == 0
    }
}

/// `h1` holds a copy of the closed set `src` of `h0`: slot `dst[k]`, free
/// in `h0`, holds with count 1 the copy of `src[k]`, whose references into
/// `src` go to the corresponding copies (so shared objects stay shared and
/// cycles stay cycles).
pub open spec fn deep_copy(h0: Heap, h1: Heap, src: Seq<usize>, dst: Seq<usize>) -> bool {
    &&& closed_set(h0, src)
    &&& dst.len() == src.len()
    &&& dst.no_duplicates()
    &&& forall|k: int|
        0 <= k < src.len() ==> {
            &&& !live(h0, #[trigger] dst[k] as int)
            &&& live(h1, dst[k] as int)
            &&& h1[dst[k] as int]->0.ref_count == 1
            &&& copied(h0, src, dst, h0[src[k] as int]->0.object, h1[dst[k] as int]->0.object)
        }
}

/// Every live entry of `h0` is still there, unchanged, in `h1`.
pub open spec fn keeps_live(h0: Heap, h1: Heap) -> bool {
    &&& h0.len() <= h1.len()
    &&& forall|j: int| live(h0, j) ==> #[trigger] h1[j] == h0[j]
}

/// `(h1, f1)` and `r` are what deep copying slot `index` of `(h0, f0)` gives:
/// nothing for a free slot (`r` is 0); otherwise the copy of everything
/// reachable from it, with `r` the copy of `index` itself (or `r` is 0 once
/// the heap holds more than `usize::MAX / 2` slots).
pub open spec fn clone_of(h0: Heap, f0: Seq<usize>, index: usize, h1: Heap, f1: Seq<usize>, r: usize) -> bool {
    &&& free_ok(h1, f1)
    &&& keeps_live(h0, h1)
    &&& !live(h0, index as int) ==> r == 0 && h1 == h0 && f1 == f0
    &&& live(h0, index as int) ==> {
        ||| r == 0 && h1.len() > usize::MAX / 2
        ||| exists|src: Seq<usize>, dst: Seq<usize>|
            #[trigger] deep_copy(h0, h1, src, dst) && src.len() > 0 && src[0] == index && dst[0] == r
    }
}

/// The position of `c` in a sequence without duplicates is where it stands.
proof fn lemma_index_of(s: Seq<usize>, k: int)
    requires
        s.no_duplicates(),
        0 <= k < s.len(),
    ensures
        s.index_of(s[k]) == k,
{
    assert(s.contains(s[k]));
    let i = s.index_of(s[k]);
    assert(0 <= i < s.len() && s[i] == s[k]);
}

impl MemoryManager {
    /// The slots reachable from live slot `index`, `index` first, each once,
    /// and a mark for each slot of the heap telling whether it is listed.
    fn reach_from(&self, index: usize) -> (res: (Vec<usize>, Vec<bool>))
        requires
            live(self.heap@, index as int),
        ensures
            closed_set(self.heap@, res.0@),
            res.0@.len() > 0,
            res.0@[0] == index,
            res.1@.len() == self.heap@.len(),
            forall|j: int| 0 <= j < self.heap@.len() ==> (#[trigger] res.1@[j] <==> res.0@.contains(j as usize)),
    {
        let ghost h = self.heap@;
        let len = self.heap.len();
        let mut marks: Vec<bool> = Vec::new();
        while marks.len() < len
            invariant
                marks@.len() <= len,
                len == h.len(),
                forall|j: int| 0 <= j < marks@.len() ==> !#[trigger] marks@[j],
            decreases len - marks@.len(),
        {
            marks.push(false);
        }
        marks.set(index, true);
        let mut src: Vec<usize> = Vec::new();
        src.push(index);
        proof {
            assert forall|j: int| 0 <= j < len implies (#[trigger] marks@[j] <==> src@.contains(j as usize)) by {
                if src@.contains(j as usize) {
                    let t = choose|t: int| 0 <= t < src@.len() && src@[t] == j as usize;
                    assert(t == 0);
                }
                if j == index {
                    assert(src@[0] == index);
                }
            }
        }
        let mut i: usize = 0;
        while i < src.len()
            invariant
                len == h.len(),
                self.heap@ == h,
                marks@.len() == len,
                src@.len() > 0,
                src@[0] == index,
                i <= src@.len(),
                src@.no_duplicates(),
                forall|k: int| 0 <= k < src@.len() ==> live(h, #[trigger] src@[k] as int),
                forall|j: int| 0 <= j < len ==> (#[trigger] marks@[j] <==> src@.contains(j as usize)),
                forall|k: int, c: int|
                    0 <= k < i && #[trigger] holds_ref(h, src@[k] as int, c) && live(h, c) ==> src@.contains(c as usize),
            decreases count_unmarked(marks@), src@.len() - i,
        {
            let s = src[i];
            assert(live(h, s as int));
            let data = &self.heap[s].as_ref().unwrap().object.data;
            let ghost c0 = count_unmarked(marks@);
            let ghost o0 = src@.len();
            let mut m: usize = 0;
            while m < data.len()
                invariant
                    len == h.len(),
                    self.heap@ == h,
                    data@ == h[s as int]->0.object.data@,
                    s == src@[i as int],
                    i < o0 <= src@.len(),
                    marks@.len() == len,
                    src@[0] == index,
                    src@.no_duplicates(),
                    count_unmarked(marks@) + (src@.len() - o0) == c0,
                    m <= data@.len(),
                    forall|k: int| 0 <= k < src@.len() ==> live(h, #[trigger] src@[k] as int),
                    forall|j: int| 0 <= j < len ==> (#[trigger] marks@[j] <==> src@.contains(j as usize)),
                    forall|k: int, c: int|
                        0 <= k < i && #[trigger] holds_ref(h, src@[k] as int, c) && live(h, c) ==> src@.contains(c as usize),
                    forall|m2: int|
                        0 <= m2 < m ==> match #[trigger] data@[m2] {
                            VmData::Object(c) => live(h, c as int) ==> src@.contains(c),
                            _ => true,
                        },
                decreases data@.len() - m,
            {
                if let VmData::Object(c) = data[m] {
                    if c < len && self.heap[c].is_some() && !marks[c] {
                        let ghost m0 = marks@;
                        let ghost w0 = src@;
                        marks.set(c, true);
                        src.push(c);
                        proof {
                            crate::memory::lemma_count_unmarked_set(m0, c as int);
                            crate::value::lemma_push(w0, c);
                            assert(!w0.contains(c));
                            assert forall|x: usize| w0.contains(x) implies src@.contains(x) by {
                                let t = choose|t: int| 0 <= t < w0.len() && w0[t] == x;
                                assert(src@[t] == x);
                            }
                            assert(src@.contains(c)) by {
                                assert(src@[w0.len() as int] == c);
                            }
                            assert forall|j: int| 0 <= j < len implies (#[trigger] marks@[j] <==> src@.contains(
                                j as usize,
                            )) by {
                                if j != c as int && src@.contains(j as usize) {
                                    let t = choose|t: int| 0 <= t < src@.len() && src@[t] == j as usize;
                                    assert(t < w0.len());
                                    assert(w0.contains(j as usize));
                                }
                                if j != c as int && m0[j] {
                                    assert(w0.contains(j as usize));
                                }
                            }
                            assert forall|a: int, b: int|
                                0 <= a < src@.len() && 0 <= b < src@.len() && a != b implies src@[a] != src@[b] by {
                                if a == w0.len() && b < w0.len() {
                                    assert(w0.contains(w0[b]));
                                } else if b == w0.len() && a < w0.len() {
                                    assert(w0.contains(w0[a]));
                                }
                            }
                        }
                    }
                }
                m += 1;
            }
            proof {
                assert forall|k: int, c: int|
                    0 <= k < i + 1 && #[trigger] holds_ref(h, src@[k] as int, c) && live(h, c) implies src@.contains(
                    c as usize,
                ) by {
                    if k == i {
                        let m2 = choose|m2: int|
                            0 <= m2 < h[src@[k] as int]->0.object.data@.len() && h[src@[k] as int]->0.object.data@[m2]
                                == VmData::Object(c as usize);
                        assert(data@[m2] == VmData::Object(c as usize));
                    }
                }
            }
            i += 1;
        }
        (src, marks)
    }

    /// Deep copy of the object in slot `index`: every object reachable from
    /// it is copied once, with count 1, and the copies reference each other
    /// as the originals do; the copy of `index` is returned. A free slot
    /// gives 0. Collection is held off while copying, so the copies made
    /// first are not collected before the last is made.
    pub fn deep_clone_heap(&mut self, index: usize) -> (res: usize)
        requires
            old(self).wf(),
            old(self).base_threshold <= usize::MAX / 4,
        ensures
            final(self).wf(),
            final(self).stack == old(self).stack,
            final(self).gc_inhibited == old(self).gc_inhibited,
            final(self).base_threshold == old(self).base_threshold,
            final(self).next_gc == old(self).next_gc,
            clone_of(old(self).heap@, old(self).free_list@, index, final(self).heap@, final(self).free_list@, res),
    {
        if index >= self.heap.len() || self.heap[index].is_none() {
            return 0;
        }
        let (src, marks) = self.reach_from(index);
        let ghost h0 = self.heap@;
        let ghost f0 = self.free_list@;
        let len0 = self.heap.len();
        let saved = self.gc_inhibited;
        if saved == 0 {
            self.gc_inhibited = 1;
        }
        let mut slot_of: Vec<usize> = Vec::new();
        while slot_of.len() < len0
            invariant
                slot_of@.len() <= len0,
            decreases len0 - slot_of@.len(),
        {
            slot_of.push(0);
        }
        let mut dst: Vec<usize> = Vec::new();
        let mut k: usize = 0;
        while k < src.len()
            invariant
                self.wf(),
                self.stack == old(self).stack,
                self.gc_inhibited > 0,
                saved == old(self).gc_inhibited,
                self.base_threshold == old(self).base_threshold,
                old(self).base_threshold <= usize::MAX / 4,
                self.next_gc == old(self).next_gc,
                len0 == h0.len(),
                h0 == old(self).heap@,
                f0 == old(self).free_list@,
                keeps_live(h0, self.heap@),
                closed_set(h0, src@),
                src@.len() > 0 && src@[0] == index,
                marks@.len() == len0,
                forall|j: int| 0 <= j < len0 ==> (#[trigger] marks@[j] <==> src@.contains(j as usize)),
                k <= src@.len(),
                dst@.len() == k,
                dst@.no_duplicates(),
                forall|j: int| 0 <= j < k ==> !live(h0, #[trigger] dst@[j] as int) && live(self.heap@, dst@[j] as int),
                slot_of@.len() == len0,
                forall|j: int| 0 <= j < k ==> slot_of@[#[trigger] src@[j] as int] == dst@[j],
            decreases src@.len() - k,
        {
            if self.heap.len() > usize::MAX / 2 {
                self.gc_inhibited = saved;
                return 0;
            }
            let ghost hb = self.heap@;
            let ghost fb = self.free_list@;
            let ghost d0 = dst@;
            let n = self.allocate(Object { object_type: ObjectType::List, table: Vec::new(), data: Vec::new() });
            proof {
                assert(!live(hb, n as int)) by {
                    if fb.len() > 0 {
                        assert(fb[fb.len() - 1] == fb.last());
                    }
                }
                assert(!live(h0, n as int));
            }
            dst.push(n);
            let sk = src[k];
            proof {
                crate::value::lemma_push(d0, n);
                assert(live(h0, sk as int));
                assert forall|a: int, b: int|
                    0 <= a < dst@.len() && 0 <= b < dst@.len() && a != b implies dst@[a] != dst@[b] by {
                    if a == d0.len() && b < d0.len() {
                        assert(live(hb, d0[b] as int));
                    } else if b == d0.len() && a < d0.len() {
                        assert(live(hb, d0[a] as int));
                    }
                }
                assert forall|j: int| 0 <= j < k + 1 implies !live(h0, #[trigger] dst@[j] as int) && live(
                    self.heap@,
                    dst@[j] as int,
                ) by {
                    if j < k {
                        assert(live(hb, d0[j] as int));
                        assert(self.heap@[d0[j] as int] == hb[d0[j] as int]);
                    }
                }
                assert forall|j: int| live(h0, j) implies #[trigger] self.heap@[j] == h0[j] by {
                    assert(hb[j] == h0[j]);
                }
            }
            let ghost sl0 = slot_of@;
            slot_of.set(sk, n);
            proof {
                assert forall|j: int| 0 <= j < k + 1 implies slot_of@[#[trigger] src@[j] as int] == dst@[j] by {
                    if j < k {
                        assert(src@[j] != sk);
                    }
                }
            }
            k += 1;
        }
        let mut k: usize = 0;
        while k < src.len()
            invariant
                self.wf(),
                self.stack == old(self).stack,
                self.gc_inhibited > 0,
                saved == old(self).gc_inhibited,
                self.base_threshold == old(self).base_threshold,
                self.next_gc == old(self).next_gc,
                len0 == h0.len(),
                h0 == old(self).heap@,
                f0 == old(self).free_list@,
                keeps_live(h0, self.heap@),
                closed_set(h0, src@),
                src@.len() > 0 && src@[0] == index,
                marks@.len() == len0,
                forall|j: int| 0 <= j < len0 ==> (#[trigger] marks@[j] <==> src@.contains(j as usize)),
                k <= src@.len(),
                dst@.len() == src@.len(),
                dst@.no_duplicates(),
                forall|j: int|
                    0 <= j < src@.len() ==> !live(h0, #[trigger] dst@[j] as int) && live(self.heap@, dst@[j] as int),
                slot_of@.len() == len0,
                forall|j: int| 0 <= j < src@.len() ==> slot_of@[#[trigger] src@[j] as int] == dst@[j],
                forall|j: int|
                    0 <= j < k ==> self.heap@[#[trigger] dst@[j] as int]->0.ref_count == 1 && copied(
                        h0,
                        src@,
                        dst@,
                        h0[src@[j] as int]->0.object,
                        self.heap@[dst@[j] as int]->0.object,
                    ),
            decreases src@.len() - k,
        {
            let s = src[k];
            assert(live(h0, s as int));
            let ghost o0 = h0[s as int]->0.object;
            let o = &self.heap[s].as_ref().unwrap().object;
            let object_type = o.object_type.duplicate();
            let table = if let ObjectType::Struct(_) = o.object_type {
                copy_table(&o.table)
            } else {
                Vec::new()
            };
            let mut data: Vec<VmData> = Vec::new();
            let mut m: usize = 0;
            while m < o.data.len()
                invariant
                    *o == o0,
                    o0 == h0[s as int]->0.object,
                    s == src@[k as int],
                    k < src@.len(),
                    len0 == h0.len(),
                    closed_set(h0, src@),
                    marks@.len() == len0,
                    forall|j: int| 0 <= j < len0 ==> (#[trigger] marks@[j] <==> src@.contains(j as usize)),
                    dst@.len() == src@.len(),
                    slot_of@.len() == len0,
                    forall|j: int| 0 <= j < src@.len() ==> slot_of@[#[trigger] src@[j] as int] == dst@[j],
                    m <= o0.data@.len(),
                    data@.len() == m,
                    forall|m2: int| 0 <= m2 < m ==> #[trigger] data@[m2] == copy_value(h0, src@, dst@, o0.data@[m2]),
                decreases o0.data@.len() - m,
            {
                let v = o.data[m];
                let w = match v {
                    VmData::Object(c) => {
                        if c < len0 && marks[c] {
                            proof {
                                let t = choose|t: int| 0 <= t < src@.len() && src@[t] == c;
                                lemma_index_of(src@, t);
                                assert(live(h0, c as int));
                            }
                            VmData::Object(slot_of[c])
                        } else {
                            proof {
                                if live(h0, c as int) {
                                    assert(holds_ref(h0, src@[k as int] as int, c as int)) by {
                                        assert(o0.data@[m as int] == VmData::Object(c));
                                    }
                                    assert(src@.contains(c));
                                }
                            }
                            VmData::Object(0)
                        }
                    },
                    other => other,
                };
                data.push(w);
                m += 1;
            }
            let d = dst[k];
            let ghost hb = self.heap@;
            let copy = Object { object_type, table, data };
            proof {
                assert(copied(h0, src@, dst@, o0, copy));
            }
            self.heap.set(d, Some(HeapEntry { ref_count: 1, object: copy }));
            proof {
                assert(live(hb, d as int));
                assert(free_ok(self.heap@, self.free_list@)) by {
                    assert forall|i: int|
                        0 <= i < self.heap@.len() && self.heap@[i] is None implies self.free_list@.contains(
                        i as usize,
                    ) by {
                        assert(hb[i] is None);
                    }
                }
                assert forall|j: int| live(h0, j) implies #[trigger] self.heap@[j] == h0[j] by {
                    assert(j != d as int);
                }
                assert forall|j: int|
                    0 <= j < src@.len() implies !live(h0, #[trigger] dst@[j] as int) && live(
                    self.heap@,
                    dst@[j] as int,
                ) by {}
                assert forall|j: int|
                    0 <= j < k + 1 implies self.heap@[#[trigger] dst@[j] as int]->0.ref_count == 1 && copied(
                    h0,
                    src@,
                    dst@,
                    h0[src@[j] as int]->0.object,
                    self.heap@[dst@[j] as int]->0.object,
                ) by {
                    if j < k {
                        assert(dst@[j] != d);
                    }
                }
            }
            k += 1;
        }
        self.gc_inhibited = saved;
        let r = dst[0];
        proof {
            assert(deep_copy(h0, self.heap@, src@, dst@));
        }
        r
    }

    /// Replace the top value by a deep copy: the copy is made first, then
    /// the top value is replaced by it and the original reference released.
    pub fn clone_top(&mut self)
        requires
            old(self).wf(),
            old(self).base_threshold <= usize::MAX / 4,
        ensures
            final(self).wf(),
            final(self).gc_inhibited == old(self).gc_inhibited,
            final(self).base_threshold == old(self).base_threshold,
            old(self).stack@.len() == 0 ==> final(self).stack@ == old(self).stack@ && final(self).heap == old(self).heap
                && final(self).free_list == old(self).free_list,
            old(self).stack@.len() > 0 ==> clone_result(
                old(self).stack@,
                old(self).heap@,
                old(self).free_list@,
                final(self).stack@,
                final(self).heap@,
                final(self).free_list@,
            ),
    {
        let n = self.stack.len();
        if n == 0 {
            return;
        }
        let top = self.stack[n - 1];
        if let VmData::Object(idx) = top {
            let r = self.deep_clone_heap(idx);
            let ghost h1 = self.heap@;
            let ghost f1 = self.free_list@;
            self.stack.set(n - 1, VmData::Object(r));
            self.dec(idx);
            proof {
                assert(self.stack@ =~= old(self).stack@.drop_last().push(VmData::Object(r)));
                assert(clone_of(old(self).heap@, old(self).free_list@, idx, h1, f1, r));
            }
        }
    }
}

impl MemoryManager {
    /// Store into stack slot `destination` a deep copy of stack slot `value`
    /// (the slot's old value is overwritten without being released). No
    /// effect when slot `value` does not exist.
    pub fn deep_clone_from(&mut self, value: usize, destination: usize)
        requires
            old(self).wf(),
            old(self).base_threshold <= usize::MAX / 4,
            value < old(self).stack@.len() ==> destination < old(self).stack@.len(),
        ensures
            final(self).wf(),
            final(self).gc_inhibited == old(self).gc_inhibited,
            final(self).base_threshold == old(self).base_threshold,
            value >= old(self).stack@.len() ==> final(self).stack == old(self).stack && final(self).heap == old(self).heap
                && final(self).free_list == old(self).free_list,
            value < old(self).stack@.len() ==> {
                let st = old(self).stack@;
                let h0 = old(self).heap@;
                let st1 = final(self).stack@;
                let h1 = final(self).heap@;
                &&& st1.len() == st.len()
                &&& forall|k: int| 0 <= k < st.len() && k != destination ==> #[trigger] st1[k] == st[k]
                &&& match st[value as int] {
                    VmData::Object(i) => st1[destination as int] matches VmData::Object(r) && clone_of(
                        h0,
                        old(self).free_list@,
                        i,
                        h1,
                        final(self).free_list@,
                        r,
                    ),
                    v => st1[destination as int] == v && h1 == h0 && final(self).free_list == old(self).free_list,
                }
            },
    {
        if value < self.stack.len() {
            let v = self.stack[value];
            let cloned = match v {
                VmData::Object(idx) => VmData::Object(self.deep_clone_heap(idx)),
                _ => v,
            };
            self.stack.set(destination, cloned);
        }
    }
}

/// The stack, heap and free list after `clone_top` on a non-empty stack
/// `st`: a non-object top stays as it is; an object reference `i` is
/// replaced by a reference `r` to its deep copy (`clone_of`, giving `h1` and
/// `f1`), and then the reference to `i` is released.
pub open spec fn clone_result(
    st: Seq<VmData>,
    h0: Heap,
    f0: Seq<usize>,
    st1: Seq<VmData>,
    h2: Heap,
    f2: Seq<usize>,
) -> bool {
    match st.last() {
        VmData::Object(i) => exists|h1: Heap, f1: Seq<usize>, r: usize|
            #[trigger] clone_of(h0, f0, i, h1, f1, r) && st1 == st.drop_last().push(VmData::Object(r)) && (h2, f2)
                == crate::memory::release(h1, f1, seq![i]),
        _ => st1 == st && h2 == h0 && f2 == f0,
    }
}

} // verus!
