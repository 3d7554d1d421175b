use vstd::prelude::*;

use crate::error::{err_kind, ErrorKind, VmError};
use crate::memory::{
    can_inc, lemma_release_wf, release_value, retain_value, Heap, MemoryManager,
};
use crate::value::VmData;

verus! {

broadcast use vstd::std_specs::vec::group_vec_axioms;

/// Where a call returns to.
#[derive(Debug, Clone, Copy, PartialEq, Eq, Structural)]
pub enum CallType {
    /// A plain function call returning to `.0`.
    Function(usize),
    /// A closure call returning to `target`; the closure object is released on return.
    Closure { target: usize, closure: usize },
}

/// The execution state of the virtual machine: memory, bytecode, call
/// stack, instruction pointer and local-variable frames.
#[derive(Debug, Clone)]
pub struct State {
    pub memory: MemoryManager,
    pub program: Vec<u8>,
    pub callstack: Vec<CallType>,
    pub current_instruction: usize,
    /// Stack index of the current frame's first local.
    pub offset: usize,
    /// Stack indices where each open frame starts.
    pub window: Vec<usize>,
    /// Directory of the running program.
    pub current_dir: String,
    pub audio_initialized: bool,
}

/// The value of bytes in little-endian order.
pub open spec fn le_value(b: Seq<u8>) -> nat
    decreases b.len(),
{
    if b.len() == 0 {
        0
    } else {
        b[0] as nat + 256 * le_value(b.drop_first())
    }
}

/// The two's-complement reading of a 64-bit pattern.
pub open spec fn signed64(u: nat) -> int {
    if u < 0x8000_0000_0000_0000 {
        u as int
    } else {
        u - 0x1_0000_0000_0000_0000
    }
}

impl Default for State {
    /// The same as [`State::new`].
    fn default() -> (res: State)
        ensures
            res.memory.wf(),
            res.memory.stack@.len() == 0,
            res.memory.heap@.len() == 0,
            res.memory.free_list@.len() == 0,
            res.memory.base_threshold == 10_000,
            res.memory.next_gc == 10_000,
            res.memory.gc_inhibited == 0,
            res.program@.len() == 0,
            res.callstack@.len() == 0,
            res.current_instruction == 0,
            res.offset == 0,
            res.window@.len() == 0,
            res.current_dir@.len() == 0,
            !res.audio_initialized,
    {
        State::new()
    }
}

impl State {
    /// A fresh state: empty program, stacks and frames; collection threshold 10 000.
    pub fn new() -> (res: State)
        ensures
            res.memory.wf(),
            res.memory.stack@.len() == 0,
            res.memory.heap@.len() == 0,
            res.memory.free_list@.len() == 0,
            res.memory.base_threshold == 10_000,
            res.memory.next_gc == 10_000,
            res.memory.gc_inhibited == 0,
            res.program@.len() == 0,
            res.callstack@.len() == 0,
            res.current_instruction == 0,
            res.offset == 0,
            res.window@.len() == 0,
            res.current_dir@.len() == 0,
            !res.audio_initialized,
    {
        State {
            program: Vec::new(),
            current_instruction: 0,
            callstack: Vec::new(),
            offset: 0,
            window: Vec::new(),
            memory: MemoryManager::new(10_000),
            current_dir: String::new(),
            audio_initialized: false,
        }
    }

    /// Replace the bytecode.
    pub fn program(&mut self, program: Vec<u8>)
        ensures
            final(self).program == program,
            final(self).memory == old(self).memory,
            final(self).callstack == old(self).callstack,
            final(self).current_instruction == old(self).current_instruction,
            final(self).offset == old(self).offset,
            final(self).window == old(self).window,
    {
        self.program = program
    }

    /// The byte at the instruction pointer; the pointer moves past it.
    pub fn next_instruction(&mut self) -> (res: u8)
        requires
            old(self).current_instruction < old(self).program@.len(),
        ensures
            res == old(self).program@[old(self).current_instruction as int],
            final(self).current_instruction == old(self).current_instruction + 1,
            final(self).current_dir == old(self).current_dir,
            final(self).audio_initialized == old(self).audio_initialized,
            final(self).memory == old(self).memory,
            final(self).program == old(self).program,
            final(self).callstack == old(self).callstack,
            final(self).offset == old(self).offset,
            final(self).window == old(self).window,
    {
        let _n = self.program.len();
        let result = self.program[self.current_instruction];
        self.current_instruction += 1;
        result
    }

    /// The next `len` bytes at the instruction pointer; the pointer moves past them.
    pub fn next_arr(&mut self, len: usize) -> (res: Vec<u8>)
        requires
            old(self).current_instruction + len <= old(self).program@.len(),
        ensures
            res@ == old(self).program@.subrange(
                old(self).current_instruction as int,
                old(self).current_instruction + len,
            ),
            final(self).current_instruction == old(self).current_instruction + len,
            final(self).memory == old(self).memory,
            final(self).program == old(self).program,
            final(self).callstack == old(self).callstack,
            final(self).offset == old(self).offset,
            final(self).window == old(self).window,
    {
        let start = self.current_instruction;
        let _n = self.program.len();
        let mut out: Vec<u8> = Vec::new();
        let mut i: usize = 0;
        while i < len
            invariant
                i <= len,
                start + len <= self.program@.len(),
                self.program@.len() <= usize::MAX,
                out@ == self.program@.subrange(start as int, start + i),
            decreases len - i,
        {
            out.push(self.program[start + i]);
            i += 1;
            assert(out@ =~= self.program@.subrange(start as int, start + i));
        }
        self.current_instruction = start + len;
        out
    }

    /// The 4-byte little-endian unsigned operand at the instruction pointer.
    pub fn next_u32(&mut self) -> (res: u32)
        requires
            old(self).current_instruction + 4 <= old(self).program@.len(),
        ensures
            res as nat == le_value(old(self).program@.subrange(
                old(self).current_instruction as int,
                old(self).current_instruction + 4,
            )),
            final(self).current_instruction == old(self).current_instruction + 4,
            final(self).memory == old(self).memory,
            final(self).program == old(self).program,
            final(self).callstack == old(self).callstack,
            final(self).offset == old(self).offset,
            final(self).window == old(self).window,
    {
        let b = self.next_arr(4);
        proof {
            reveal_with_fuel(le_value, 5);
        }
        b[0] as u32 + 256 * (b[1] as u32 + 256 * (b[2] as u32 + 256 * b[3] as u32))
    }

    /// The 8-byte little-endian unsigned operand at the instruction pointer.
    pub fn next_u64(&mut self) -> (res: u64)
        requires
            old(self).current_instruction + 8 <= old(self).program@.len(),
        ensures
            res as nat == le_value(old(self).program@.subrange(
                old(self).current_instruction as int,
                old(self).current_instruction + 8,
            )),
            final(self).current_instruction == old(self).current_instruction + 8,
            final(self).memory == old(self).memory,
            final(self).program == old(self).program,
            final(self).callstack == old(self).callstack,
            final(self).offset == old(self).offset,
            final(self).window == old(self).window,
    {
        let b = self.next_arr(8);
        proof {
            reveal_with_fuel(le_value, 9);
        }
        b[0] as u64 + 256 * (b[1] as u64 + 256 * (b[2] as u64 + 256 * (b[3] as u64 + 256 * (
        b[4] as u64 + 256 * (b[5] as u64 + 256 * (b[6] as u64 + 256 * b[7] as u64))))))
    }

    /// The 8-byte little-endian two's-complement operand at the instruction pointer.
    pub fn next_i64(&mut self) -> (res: i64)
        requires
            old(self).current_instruction + 8 <= old(self).program@.len(),
        ensures
            res as int == signed64(le_value(old(self).program@.subrange(
                old(self).current_instruction as int,
                old(self).current_instruction + 8,
            ))),
            final(self).current_instruction == old(self).current_instruction + 8,
            final(self).memory == old(self).memory,
            final(self).program == old(self).program,
            final(self).callstack == old(self).callstack,
            final(self).offset == old(self).offset,
            final(self).window == old(self).window,
    {
        let u = self.next_u64();
        if u < 0x8000_0000_0000_0000 {
            u as i64
        } else {
            ((u - 0x8000_0000_0000_0000) as i64) + i64::MIN
        }
    }

    /// Move the instruction pointer.
    pub fn goto(&mut self, addr: usize)
        ensures
            final(self).current_instruction == addr,
            final(self).memory == old(self).memory,
            final(self).program == old(self).program,
            final(self).callstack == old(self).callstack,
            final(self).offset == old(self).offset,
            final(self).window == old(self).window,
    {
        self.current_instruction = addr;
    }

    /// Open a frame whose first `offset` slots are already on the stack and
    /// push `locals` empty slots.
    pub fn offset_locals(&mut self, offset: usize, locals: usize)
        requires
            offset <= old(self).memory.stack@.len(),
        ensures
            final(self).offset == old(self).memory.stack@.len() - offset,
            final(self).window@ == old(self).window@.push(final(self).offset),
            final(self).memory.stack@ == old(self).memory.stack@ + Seq::new(locals as nat, |i: int| VmData::Nil),
            final(self).memory.heap == old(self).memory.heap,
            final(self).memory.free_list == old(self).memory.free_list,
            final(self).memory.base_threshold == old(self).memory.base_threshold,
            final(self).memory.next_gc == old(self).memory.next_gc,
            final(self).memory.gc_inhibited == old(self).memory.gc_inhibited,
            final(self).program == old(self).program,
            final(self).callstack == old(self).callstack,
            final(self).current_instruction == old(self).current_instruction,
    {
        self.offset = self.memory.stack.len() - offset;
        self.window.push(self.offset);
        self.push_nils(locals);
    }

    /// Open a frame at the top of the stack with `size` empty slots.
    pub fn alloc_locals(&mut self, size: usize)
        ensures
            final(self).offset == old(self).memory.stack@.len(),
            final(self).window@ == old(self).window@.push(final(self).offset),
            final(self).memory.stack@ == old(self).memory.stack@ + Seq::new(size as nat, |i: int| VmData::Nil),
            final(self).memory.heap == old(self).memory.heap,
            final(self).memory.free_list == old(self).memory.free_list,
            final(self).memory.base_threshold == old(self).memory.base_threshold,
            final(self).memory.next_gc == old(self).memory.next_gc,
            final(self).memory.gc_inhibited == old(self).memory.gc_inhibited,
            final(self).program == old(self).program,
            final(self).callstack == old(self).callstack,
            final(self).current_instruction == old(self).current_instruction,
    {
        self.offset = self.memory.stack.len();
        self.window.push(self.offset);
        self.push_nils(size);
    }

    fn push_nils(&mut self, n: usize)
        ensures
            final(self).memory.stack@ == old(self).memory.stack@ + Seq::new(n as nat, |i: int| VmData::Nil),
            final(self).memory.heap == old(self).memory.heap,
            final(self).memory.free_list == old(self).memory.free_list,
            final(self).memory.base_threshold == old(self).memory.base_threshold,
            final(self).memory.next_gc == old(self).memory.next_gc,
            final(self).memory.gc_inhibited == old(self).memory.gc_inhibited,
            final(self).program == old(self).program,
            final(self).callstack == old(self).callstack,
            final(self).current_instruction == old(self).current_instruction,
            final(self).offset == old(self).offset,
            final(self).window == old(self).window,
    {
        let ghost s0 = self.memory.stack@;
        let mut i: usize = 0;
        while i < n
            invariant
                i <= n,
                self.memory.stack@ == s0 + Seq::new(i as nat, |k: int| VmData::Nil),
                self.memory.heap == old(self).memory.heap,
                self.memory.free_list == old(self).memory.free_list,
                self.memory.base_threshold == old(self).memory.base_threshold,
                self.memory.next_gc == old(self).memory.next_gc,
                self.memory.gc_inhibited == old(self).memory.gc_inhibited,
                self.program == old(self).program,
                self.callstack == old(self).callstack,
                self.current_instruction == old(self).current_instruction,
                self.offset == old(self).offset,
                self.window == old(self).window,
            decreases n - i,
        {
            self.memory.stack.push(VmData::Nil);
            i += 1;
            assert(self.memory.stack@ =~= s0 + Seq::new(i as nat, |k: int| VmData::Nil));
        }
    }

    /// Pops `remove` values, releasing each one's reference.
    fn pop_values(&mut self, remove: usize)
        requires
            old(self).memory.wf(),
            remove <= old(self).memory.stack@.len(),
        ensures
            final(self).memory.wf(),
            final(self).memory.stack@ == old(self).memory.stack@.subrange(
                0,
                old(self).memory.stack@.len() - remove,
            ),
            (final(self).memory.heap@, final(self).memory.free_list@) == release_all_top(
                old(self).memory.heap@,
                old(self).memory.free_list@,
                old(self).memory.stack@,
                remove as nat,
            ),
            final(self).memory.base_threshold == old(self).memory.base_threshold,
            final(self).memory.next_gc == old(self).memory.next_gc,
            final(self).memory.gc_inhibited == old(self).memory.gc_inhibited,
            final(self).program == old(self).program,
            final(self).callstack == old(self).callstack,
            final(self).current_instruction == old(self).current_instruction,
            final(self).offset == old(self).offset,
            final(self).window == old(self).window,
    {
        let ghost s0 = self.memory.stack@;
        let ghost h0 = self.memory.heap@;
        let ghost f0 = self.memory.free_list@;
        let mut i: usize = 0;
        while i < remove
            invariant
                i <= remove,
                remove <= s0.len(),
                self.memory.wf(),
                self.memory.stack@ == s0.subrange(0, s0.len() - i),
                (self.memory.heap@, self.memory.free_list@) == release_all_top(h0, f0, s0, i as nat),
                self.memory.base_threshold == old(self).memory.base_threshold,
                self.memory.next_gc == old(self).memory.next_gc,
                self.memory.gc_inhibited == old(self).memory.gc_inhibited,
                self.program == old(self).program,
                self.callstack == old(self).callstack,
                self.current_instruction == old(self).current_instruction,
                self.offset == old(self).offset,
                self.window == old(self).window,
            decreases remove - i,
        {
            let ghost sc = self.memory.stack@;
            self.memory.pop();
            proof {
                assert(sc.last() == s0[s0.len() - i - 1]);
                assert(self.memory.stack@ =~= s0.subrange(0, s0.len() - (i + 1)));
            }
            i += 1;
        }
    }

    /// Close the current frame: pop its slots, releasing their references,
    /// and make the enclosing frame current.
    pub fn deallocate_registers(&mut self) -> (res: Result<(), VmError>)
        requires
            old(self).memory.wf(),
            old(self).window@.len() > 0 ==> old(self).window@.last() <= old(self).memory.stack@.len(),
        ensures
            closed_frame(*old(self), *final(self), res),
    {
        if let Some(window) = self.window.pop() {
            let remove = self.memory.stack.len() - window;
            self.pop_values(remove);
        } else {
            proof {
                assert(self.memory.stack@ =~= self.memory.stack@.subrange(0, self.memory.stack@.len() as int));
            }
        }
        let n = self.window.len();
        if n == 0 {
            return Err(VmError { kind: ErrorKind::FrameUnderflow, ip: self.current_instruction, name: None });
        }
        self.offset = self.window[n - 1];
        Ok(())
    }

    /// Close the current frame keeping the top value: the value gains a
    /// reference, the frame's slots are popped and released, and the value
    /// is pushed for the caller.
    pub fn deallocate_registers_with_return(&mut self) -> (res: Result<(), VmError>)
        requires
            old(self).memory.wf(),
            old(self).memory.stack@.len() > 0 ==> can_inc(old(self).memory.heap@, old(self).memory.stack@.last()),
            old(self).window@.len() > 0 ==> old(self).window@.last() <= old(self).memory.stack@.len(),
        ensures
            closed_frame_returning(*old(self), *final(self), res),
    {
        let n0 = self.memory.stack.len();
        if n0 == 0 {
            return Err(VmError { kind: ErrorKind::ReturnOnEmptyStack, ip: self.current_instruction, name: None });
        }
        let returnvalue = self.memory.stack[n0 - 1];
        self.memory.inc_value(returnvalue);
        proof {
            crate::memory::lemma_retain_wf(old(self).memory.heap@, old(self).memory.free_list@, returnvalue);
        }
        if let Some(window) = self.window.pop() {
            let remove = self.memory.stack.len() - window;
            self.pop_values(remove);
        } else {
            proof {
                assert(self.memory.stack@ =~= self.memory.stack@.subrange(0, self.memory.stack@.len() as int));
            }
        }
        let n = self.window.len();
        if n == 0 {
            return Err(VmError { kind: ErrorKind::ReturnFrameUnderflow, ip: self.current_instruction, name: None });
        }
        self.offset = self.window[n - 1];
        self.memory.stack.push(returnvalue);
        Ok(())
    }
}

/// `deallocate_registers`: the current frame's slots are popped and
/// released, and the enclosing frame becomes current.
pub open spec fn closed_frame(s0: State, s1: State, res: Result<(), VmError>) -> bool {
    let w = s0.window@;
    let s = s0.memory.stack@;
    let keep: int = if w.len() > 0 { w.last() as int } else { s.len() as int };
    let w1 = if w.len() > 0 { w.drop_last() } else { w };
    &&& s1.memory.wf()
    &&& (res matches Err(e) ==> e.ip == s1.current_instruction)
    &&& s1.window@ == w1
    &&& s1.memory.stack@ == s.subrange(0, keep)
    &&& (s1.memory.heap@, s1.memory.free_list@) == release_all_top(
        s0.memory.heap@,
        s0.memory.free_list@,
        s,
        (s.len() - keep) as nat,
    )
    &&& (w1.len() > 0 ==> res is Ok && s1.offset == w1.last())
    &&& (w1.len() == 0 ==> err_kind(res) == Some(ErrorKind::FrameUnderflow) && s1.offset == s0.offset)
    &&& s1.memory.base_threshold == s0.memory.base_threshold
    &&& s1.memory.next_gc == s0.memory.next_gc
    &&& s1.memory.gc_inhibited == s0.memory.gc_inhibited
    &&& s1.program == s0.program
    &&& s1.callstack == s0.callstack
    &&& s1.current_instruction == s0.current_instruction
}

/// `deallocate_registers_with_return`: like `closed_frame`, keeping the
/// top value (with an added reference) for the caller.
pub open spec fn closed_frame_returning(s0: State, s1: State, res: Result<(), VmError>) -> bool {
    let w = s0.window@;
    let s = s0.memory.stack@;
    let keep: int = if w.len() > 0 { w.last() as int } else { s.len() as int };
    let w1 = if w.len() > 0 { w.drop_last() } else { w };
    &&& s1.memory.wf()
    &&& (res matches Err(e) ==> e.ip == s1.current_instruction)
    &&& (s.len() == 0 ==> err_kind(res) == Some(ErrorKind::ReturnOnEmptyStack) && s1.memory == s0.memory
        && s1.window == s0.window && s1.offset == s0.offset)
    &&& (s.len() > 0 ==> {
        let ret = s.last();
        let h1 = retain_value(s0.memory.heap@, ret);
        &&& s1.window@ == w1
        &&& (s1.memory.heap@, s1.memory.free_list@) == release_all_top(h1, s0.memory.free_list@, s, (s.len() - keep) as nat)
        &&& (w1.len() > 0 ==> res is Ok && s1.offset == w1.last() && s1.memory.stack@ == s.subrange(0, keep).push(ret))
        &&& (w1.len() == 0 ==> err_kind(res) == Some(ErrorKind::ReturnFrameUnderflow) && s1.offset == s0.offset
            && s1.memory.stack@ == s.subrange(0, keep))
    })
    &&& s1.memory.base_threshold == s0.memory.base_threshold
    &&& s1.memory.next_gc == s0.memory.next_gc
    &&& s1.memory.gc_inhibited == s0.memory.gc_inhibited
    &&& s1.program == s0.program
    &&& s1.callstack == s0.callstack
    &&& s1.current_instruction == s0.current_instruction
}

/// Releases the top `n` values of `stack`, the topmost first.
pub open spec fn release_all_top(heap: Heap, free: Seq<usize>, stack: Seq<VmData>, n: nat) -> (Heap, Seq<usize>)
    decreases n,
{
    if n == 0 || n > stack.len() {
        (heap, free)
    } else {
        let (h1, f1) = release_all_top(heap, free, stack, (n - 1) as nat);
        release_value(h1, f1, stack[stack.len() - n])
    }
}

} // verus!
