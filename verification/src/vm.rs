use vstd::prelude::*;

use modulo::Mod;

use crate::code::Code;
use crate::error::{err_kind, ErrorKind, VmError};
use crate::floatbits::{eq_bits, float_eq, float_lt, float_neg, lt_bits, neg_bits};
use crate::memory::{can_inc, MemoryManager};
use crate::show::{add_all, add_str, add_text, nat_digits, pieces_view, printable, shown, text, data_text, Piece, PieceView};
use crate::state::{le_value, signed64, CallType, State};
use crate::value::VmData;

verus! {

broadcast use {vstd::std_specs::vec::group_vec_axioms, vstd::seq::group_seq_axioms};

/// What an instruction leaves for the caller to do.
#[derive(Debug)]
pub enum Step {
    /// Nothing: run the next instruction.
    Continue,
    /// The program returned from its outermost frame.
    Finished,
    /// Print the pieces, in order.
    Print(Vec<Piece>),
    /// Call native function `index`; `ip` is the position of its operand.
    Native { index: u64, ip: usize },
    /// Float arithmetic: push `Float` of the result of `op` applied to the
    /// second value (`lhs`) and the top value (`rhs`), both popped.
    FloatArith { op: u8, lhs: u64, rhs: u64 },
    /// Exit the process with status 0.
    Exit,
}

/// The outcome of one instruction run under the debugger.
#[derive(Debug)]
pub enum StepResult {
    /// The instruction ran: its mnemonic, what it printed, and what the
    /// caller must still do for it (a native call or float arithmetic).
    Continue { opname: String, output: Option<Vec<Piece>>, request: Step },
    /// The program has ended.
    Finished { output: Option<Vec<Piece>> },
    /// The instruction raised an error.
    Error(VmError),
}

/// The bytecode virtual machine.
pub struct Vm {
    pub state: State,
}

/// A machine together with whether its program has finished.
pub struct VmTask {
    pub vm: Vm,
    pub is_done: bool,
}

/// A machine with a fresh state.
pub fn new() -> (res: Vm)
    ensures
        res.state.memory.wf(),
        res.state.memory.stack@.len() == 0,
        res.state.memory.heap@.len() == 0,
        res.state.memory.free_list@.len() == 0,
        res.state.memory.base_threshold == 10_000,
        res.state.memory.next_gc == 10_000,
        res.state.memory.gc_inhibited == 0,
        res.state.program@.len() == 0,
        res.state.callstack@.len() == 0,
        res.state.current_instruction == 0,
        res.state.offset == 0,
        res.state.window@.len() == 0,
        res.state.current_dir@.len() == 0,
        !res.state.audio_initialized,
{
    Vm { state: State::new() }
}

/// The `k`-th value from the top of the stack (0 is the top).
pub open spec fn top_k(s: Seq<VmData>, k: nat) -> Option<VmData> {
    if k < s.len() {
        Some(s[s.len() - 1 - k])
    } else {
        None
    }
}

/// The stack after popping up to `n` values.
pub open spec fn popped(s: Seq<VmData>, n: nat) -> Seq<VmData> {
    if n <= s.len() {
        s.subrange(0, s.len() - n)
    } else {
        Seq::empty()
    }
}

/// Everything but the stack and instruction pointer agrees.
pub open spec fn same_except_stack(a: State, b: State) -> bool {
    &&& a.memory.heap == b.memory.heap
    &&& a.memory.free_list == b.memory.free_list
    &&& same_except_heap(a, b)
}

/// Everything but the stack, heap, free list and instruction pointer agrees.
pub open spec fn same_except_heap(a: State, b: State) -> bool {
    &&& a.memory.base_threshold == b.memory.base_threshold
    &&& a.memory.next_gc == b.memory.next_gc
    &&& a.memory.gc_inhibited == b.memory.gc_inhibited
    &&& a.program == b.program
    &&& a.callstack == b.callstack
    &&& a.offset == b.offset
    &&& a.window == b.window
}

/// The little-endian operand of `n` bytes at the instruction pointer.
pub open spec fn operand(s: State, n: nat) -> nat {
    le_value(s.program@.subrange(s.current_instruction as int, s.current_instruction + n))
}

/// `n` operand bytes remain at the instruction pointer.
pub open spec fn has_operand(s: State, n: nat) -> bool {
    s.current_instruction + n <= s.program@.len()
}

/// The result of integer operation `op` on the top value `v1` and the value
/// below it `v2`; `None` on overflow or division by zero.
pub open spec fn int_op(op: u8, v1: i64, v2: i64) -> Option<i64> {
    if op == Code::IADD {
        v1.checked_add(v2)
    } else if op == Code::ISUB {
        v2.checked_sub(v1)
    } else if op == Code::IMUL {
        v1.checked_mul(v2)
    } else {
        v2.checked_div(v1)
    }
}

/// The error integer operation `op` raises when its result does not exist.
pub open spec fn int_op_error(op: u8) -> ErrorKind {
    if op == Code::IDIV {
        ErrorKind::DivisionByZero
    } else {
        ErrorKind::Overflow(op)
    }
}

/// Integer arithmetic: pop two values; push the result when both are
/// integers and the result exists.
pub open spec fn int_arith_post(op: u8, s0: State, s1: State, res: Result<Step, VmError>) -> bool {
    let st = s0.memory.stack@;
    let rest = popped(st, 2);
    &&& same_except_stack(s1, s0)
    &&& s1.current_instruction == s0.current_instruction
    &&& match (top_k(st, 0), top_k(st, 1)) {
        (Some(VmData::Int(v1)), Some(VmData::Int(v2))) => match int_op(op, v1, v2) {
            Some(r) => res matches Ok(Step::Continue) && s1.memory.stack@ == rest.push(VmData::Int(r)),
            None => err_kind(res) == Some(int_op_error(op)) && s1.memory.stack@ == rest,
        },
        _ => err_kind(res) == Some(ErrorKind::ExpectedInts(op)) && s1.memory.stack@ == rest,
    }
}

/// `a.modulo(n)` from the `modulo` crate: the remainder, shifted by `n`
/// when negative.
pub open spec fn spec_modulo(a: i64, n: i64) -> int {
    let r = a.checked_rem(n)->0;
    if r < 0 {
        r + n
    } else {
        r as int
    }
}

/// `modulo` neither divides by zero nor overflows on these operands.
pub open spec fn modulo_defined(a: i64, n: i64) -> bool {
    &&& n != 0
    &&& !(a == i64::MIN && n == -1)
    &&& i64::MIN <= spec_modulo(a, n) <= i64::MAX
}

/// `Mod::modulo` from the `modulo` crate on `i64`: `a % n`, plus `n` when
/// that remainder is negative.
#[verifier::external_body]
fn modulo_i64(a: i64, n: i64) -> (res: i64)
    requires
        modulo_defined(a, n),
    ensures
        res as int == spec_modulo(a, n),
{
    a.modulo(n)
}


/// Pops two values; when both are integers pushes the comparison (`ILSS`:
/// second < top, `IGTR`: second > top).
pub open spec fn int_cmp_post(op: u8, s0: State, s1: State, res: Result<Step, VmError>) -> bool {
    let st = s0.memory.stack@;
    let rest = popped(st, 2);
    &&& same_except_stack(s1, s0)
    &&& s1.current_instruction == s0.current_instruction
    &&& match (top_k(st, 0), top_k(st, 1)) {
        (Some(VmData::Int(v1)), Some(VmData::Int(v2))) => res matches Ok(Step::Continue)
            && s1.memory.stack@ == rest.push(VmData::Bool(if op == Code::ILSS { v2 < v1 } else { v2 > v1 })),
        (a, b) => s1.memory.stack@ == rest && err_kind(res) == Some(if op == Code::ILSS {
            ErrorKind::ExpectedInts(op)
        } else {
            ErrorKind::IntCompareTypes(
                match a { Some(x) => x, None => VmData::Nil },
                match b { Some(x) => x, None => VmData::Nil },
            )
        }),
    }
}

/// Pops two values; when both are floats pushes the IEEE comparison
/// (`FLSS`: second < top, `FGTR`: second > top).
pub open spec fn float_cmp_post(op: u8, s0: State, s1: State, res: Result<Step, VmError>) -> bool {
    let st = s0.memory.stack@;
    let rest = popped(st, 2);
    &&& same_except_stack(s1, s0)
    &&& s1.current_instruction == s0.current_instruction
    &&& match (top_k(st, 0), top_k(st, 1)) {
        (Some(VmData::Float(v1)), Some(VmData::Float(v2))) => res matches Ok(Step::Continue)
            && s1.memory.stack@ == rest.push(VmData::Bool(if op == Code::FLSS { float_lt(v2, v1) } else { float_lt(v1, v2) })),
        _ => s1.memory.stack@ == rest && err_kind(res) == Some(ErrorKind::ExpectedFloats(op)),
    }
}

/// Pops two values; when both are floats asks the caller for the arithmetic.
pub open spec fn float_arith_post(op: u8, s0: State, s1: State, res: Result<Step, VmError>) -> bool {
    let st = s0.memory.stack@;
    let rest = popped(st, 2);
    &&& same_except_stack(s1, s0)
    &&& s1.current_instruction == s0.current_instruction
    &&& s1.memory.stack@ == rest
    &&& match (top_k(st, 0), top_k(st, 1)) {
        (Some(VmData::Float(v1)), Some(VmData::Float(v2))) => res matches Ok(Step::FloatArith { op: o, lhs, rhs }) && o == op && lhs == v2 && rhs == v1,
        _ => err_kind(res) == Some(ErrorKind::ExpectedFloats(op)),
    }
}

/// `IMODULO`: pops two values; when both are integers pushes the second
/// modulo the top.
pub open spec fn modulo_post(s0: State, s1: State, res: Result<Step, VmError>) -> bool {
    let st = s0.memory.stack@;
    let rest = popped(st, 2);
    &&& same_except_stack(s1, s0)
    &&& s1.current_instruction == s0.current_instruction
    &&& match (top_k(st, 0), top_k(st, 1)) {
        (Some(VmData::Int(v1)), Some(VmData::Int(v2))) => res matches Ok(Step::Continue)
            && s1.memory.stack@ == rest.push(VmData::Int(spec_modulo(v2, v1) as i64)),
        _ => s1.memory.stack@ == rest && err_kind(res) == Some(ErrorKind::ExpectedInts(Code::IMODULO)),
    }
}

/// `IMODULO` does not reach a division by zero or an overflow.
pub open spec fn modulo_safe(s0: State) -> bool {
    let st = s0.memory.stack@;
    match (top_k(st, 0), top_k(st, 1)) {
        (Some(VmData::Int(v1)), Some(VmData::Int(v2))) => modulo_defined(v2, v1),
        _ => true,
    }
}

/// `AND`/`OR`: pops two values; when both are booleans pushes the connective.
pub open spec fn logic_post(op: u8, s0: State, s1: State, res: Result<Step, VmError>) -> bool {
    let st = s0.memory.stack@;
    let rest = popped(st, 2);
    &&& same_except_stack(s1, s0)
    &&& s1.current_instruction == s0.current_instruction
    &&& match (top_k(st, 0), top_k(st, 1)) {
        (Some(VmData::Bool(v1)), Some(VmData::Bool(v2))) => res matches Ok(Step::Continue)
            && s1.memory.stack@ == rest.push(VmData::Bool(if op == Code::AND { v1 && v2 } else { v1 || v2 })),
        (Some(a), Some(b)) => s1.memory.stack@ == rest && err_kind(res) == Some(ErrorKind::LogicOperands(op, b, a)),
        _ => s1.memory.stack@ == rest && err_kind(res) == Some(ErrorKind::NotEnoughValues(op)),
    }
}

/// Instructions that change only the stack and the instruction pointer,
/// with no operand bytes: their effect on (stack, result).
pub open spec fn simple_post(op: u8, s0: State, s1: State, res: Result<Step, VmError>) -> bool {
    let st = s0.memory.stack@;
    let rest = popped(st, 1);
    &&& same_except_stack(s1, s0)
    &&& s1.current_instruction == s0.current_instruction
    &&& if op == Code::ISSOME {
        res matches Ok(Step::Continue) && s1.memory.stack@ == match top_k(st, 0) {
            Some(VmData::Nil) => rest.push(VmData::Bool(false)),
            None => rest,
            Some(_) => rest.push(VmData::Bool(true)),
        }
    } else if op == Code::UNWRAP {
        s1.memory.stack@ == st && if top_k(st, 0) == Some(VmData::Nil) {
            err_kind(res) == Some(ErrorKind::UnwrapNone)
        } else {
            res matches Ok(Step::Continue)
        }
    } else if op == Code::DUP {
        match top_k(st, 0) {
            Some(v) => res matches Ok(Step::Continue) && s1.memory.stack@ == st.push(v),
            None => err_kind(res) == Some(ErrorKind::StackEmpty(op)) && s1.memory.stack@ == st,
        }
    } else if op == Code::TRUE {
        res matches Ok(Step::Continue) && s1.memory.stack@ == st.push(VmData::Bool(true))
    } else if op == Code::FALSE {
        res matches Ok(Step::Continue) && s1.memory.stack@ == st.push(VmData::Bool(false))
    } else if op == Code::NONE {
        res matches Ok(Step::Continue) && s1.memory.stack@ == st.push(VmData::Nil)
    } else if op == Code::NOT {
        s1.memory.stack@ == (match top_k(st, 0) {
            Some(VmData::Bool(b)) => rest.push(VmData::Bool(!b)),
            _ => rest,
        }) && match top_k(st, 0) {
            Some(VmData::Bool(b)) => res matches Ok(Step::Continue),
            Some(other) => err_kind(res) == Some(ErrorKind::NotOperand(other)),
            None => err_kind(res) == Some(ErrorKind::StackEmpty(op)),
        }
    } else {
        // NEG
        s1.memory.stack@ == (match top_k(st, 0) {
            Some(VmData::Int(v)) => rest.push(VmData::Int((-v) as i64)),
            Some(VmData::Float(v)) => rest.push(VmData::Float(float_neg(v))),
            _ => rest,
        }) && match top_k(st, 0) {
            Some(VmData::Int(_)) => res matches Ok(Step::Continue),
            Some(VmData::Float(_)) => res matches Ok(Step::Continue),
            Some(other) => err_kind(res) == Some(ErrorKind::NegOperand(other)),
            None => err_kind(res) == Some(ErrorKind::StackEmpty(op)),
        }
    }
}

/// `NEG` does not negate the least integer.
pub open spec fn neg_safe(s0: State) -> bool {
    top_k(s0.memory.stack@, 0) != Some(VmData::Int(i64::MIN))
}

/// Instructions that push a constant operand or move the instruction pointer.
pub open spec fn jump_post(op: u8, s0: State, s1: State, res: Result<Step, VmError>) -> bool {
    let st = s0.memory.stack@;
    let ip = s0.current_instruction;
    &&& same_except_stack(s1, s0)
    &&& if op == Code::INTEGER {
        res matches Ok(Step::Continue) && s1.current_instruction == ip + 8
            && s1.memory.stack@ == st.push(VmData::Int(signed64(operand(s0, 8)) as i64))
    } else if op == Code::FLOAT {
        res matches Ok(Step::Continue) && s1.current_instruction == ip + 8
            && s1.memory.stack@ == st.push(VmData::Float(operand(s0, 8) as u64))
    } else if op == Code::CHAR {
        res matches Ok(Step::Continue) && s1.current_instruction == ip + 1
            && s1.memory.stack@ == st.push(VmData::Char(s0.program@[ip as int] as char))
    } else if op == Code::JMP {
        res matches Ok(Step::Continue) && s1.memory.stack@ == st
            && s1.current_instruction == ip + 4 + operand(s0, 4)
    } else if op == Code::BJMP {
        res matches Ok(Step::Continue) && s1.memory.stack@ == st
            && s1.current_instruction == ip + 4 - operand(s0, 4)
    } else if op == Code::FUNCTION {
        res matches Ok(Step::Continue) && s1.memory.stack@ == st.push(VmData::Function((ip + 4) as usize))
            && s1.current_instruction == ip + 4 + operand(s0, 4)
    } else {
        // JUMPIFFALSE
        s1.memory.stack@ == popped(st, 1) && match top_k(st, 0) {
            Some(VmData::Bool(t)) => res matches Ok(Step::Continue) && s1.current_instruction == if t {
                ip + 4
            } else {
                ip + 4 + operand(s0, 4)
            },
            Some(other) => err_kind(res) == Some(ErrorKind::ExpectedBool(other)) && s1.current_instruction == ip + 4,
            None => err_kind(res) == Some(ErrorKind::StackEmpty(op)) && s1.current_instruction == ip + 4,
        }
    }
}

/// The operands are present and the new instruction pointer fits.
pub open spec fn jump_safe(op: u8, s0: State) -> bool {
    let ip = s0.current_instruction;
    if op == Code::INTEGER || op == Code::FLOAT {
        has_operand(s0, 8)
    } else if op == Code::CHAR {
        has_operand(s0, 1)
    } else if op == Code::BJMP {
        has_operand(s0, 4) && operand(s0, 4) <= ip + 4
    } else {
        has_operand(s0, 4) && ip + 4 + operand(s0, 4) <= usize::MAX
    }
}

/// Instructions on frames and variables.
pub open spec fn var_post(op: u8, s0: State, s1: State, res: Result<Step, VmError>) -> bool {
    let st = s0.memory.stack@;
    let ip = s0.current_instruction;
    let h0 = s0.memory.heap@;
    let f0 = s0.memory.free_list@;
    &&& s1.program == s0.program
    &&& s1.callstack == s0.callstack
    &&& s1.memory.base_threshold == s0.memory.base_threshold
    &&& s1.memory.next_gc == s0.memory.next_gc
    &&& s1.memory.gc_inhibited == s0.memory.gc_inhibited
    &&& if op == Code::ALLOCATEGLOBAL || op == Code::ALLOCLOCALS || op == Code::OFFSET {
        let off = if op == Code::OFFSET { operand(s0, 4) } else { 0 };
        let n = if op == Code::OFFSET {
            le_value(s0.program@.subrange(ip + 4, ip + 8))
        } else {
            operand(s0, 4)
        };
        &&& res matches Ok(Step::Continue)
        &&& s1.current_instruction == ip + if op == Code::OFFSET { 8int } else { 4int }
        &&& s1.offset == st.len() - off
        &&& s1.window@ == s0.window@.push(s1.offset)
        &&& s1.memory.stack@ == st + Seq::new(n, |i: int| VmData::Nil)
        &&& s1.memory.heap == s0.memory.heap
        &&& s1.memory.free_list == s0.memory.free_list
    } else if op == Code::GET || op == Code::GETGLOBAL {
        let k = if op == Code::GET { s0.offset + operand(s0, 4) } else { operand(s0, 4) as int };
        &&& res matches Ok(Step::Continue)
        &&& s1.current_instruction == ip + 4
        &&& s1.offset == s0.offset
        &&& s1.window == s0.window
        &&& s1.memory.free_list == s0.memory.free_list
        &&& if k < st.len() {
            s1.memory.stack@ == st.push(st[k]) && s1.memory.heap@ == crate::memory::retain_value(h0, st[k])
        } else {
            s1.memory.stack@ == st && s1.memory.heap == s0.memory.heap
        }
    } else if op == Code::STORE {
        let k = s0.offset + operand(s0, 4);
        &&& res matches Ok(Step::Continue)
        &&& s1.current_instruction == ip + 4
        &&& s1.offset == s0.offset
        &&& s1.window == s0.window
        &&& if st.len() == 0 {
            s1.memory.stack@ == st && s1.memory.heap == s0.memory.heap && s1.memory.free_list == s0.memory.free_list
        } else {
            &&& s1.memory.stack@ == st.drop_last().update(k, st.last())
            &&& (s1.memory.heap@, s1.memory.free_list@) == crate::memory::release_value(h0, f0, st[k])
        }
    } else if op == Code::STOREGLOBAL {
        let k = operand(s0, 4) as int;
        &&& s1.current_instruction == ip + 4
        &&& same_except_stack(s1, s0)
        &&& if st.len() == 0 {
            err_kind(res) == Some(ErrorKind::StackEmpty(op)) && s1.memory.stack@ == st
        } else {
            res matches Ok(Step::Continue) && s1.memory.stack@ == st.drop_last().update(k, st.last())
        }
    } else if op == Code::POP {
        &&& res matches Ok(Step::Continue)
        &&& s1.current_instruction == ip
        &&& s1.offset == s0.offset
        &&& s1.window == s0.window
        &&& s1.memory.stack@ == popped(st, 1)
        &&& if st.len() == 0 {
            s1.memory.heap == s0.memory.heap && s1.memory.free_list == s0.memory.free_list
        } else {
            (s1.memory.heap@, s1.memory.free_list@) == crate::memory::release_value(h0, f0, st.last())
        }
    } else if op == Code::ASSIGN {
        let rest = popped(st, 2);
        &&& s1.current_instruction == ip
        &&& s1.offset == s0.offset
        &&& s1.window == s0.window
        &&& match (top_k(st, 0), top_k(st, 1)) {
            (Some(VmData::Int(i)), Some(value)) => {
                let k = s0.offset + (i as usize);
                &&& res matches Ok(Step::Continue)
                &&& if k < rest.len() {
                    &&& s1.memory.stack@ == rest.update(k, value)
                    &&& (s1.memory.heap@, s1.memory.free_list@) == crate::memory::release_value(h0, f0, rest[k])
                } else {
                    s1.memory.stack@ == rest && s1.memory.heap == s0.memory.heap && s1.memory.free_list == s0.memory.free_list
                }
            },
            (Some(dest), Some(_)) => err_kind(res) == Some(ErrorKind::AssignDestination(dest))
                && s1.memory.stack@ == rest && s1.memory.heap == s0.memory.heap && s1.memory.free_list == s0.memory.free_list,
            _ => err_kind(res) == Some(ErrorKind::NotEnoughValues(op))
                && s1.memory.stack@ == rest && s1.memory.heap == s0.memory.heap && s1.memory.free_list == s0.memory.free_list,
        }
    } else {
        // NATIVE
        &&& res matches Ok(Step::Native { index, ip: at }) && index == operand(s0, 8) && at == ip
        &&& s1.current_instruction == ip + 8
        &&& same_except_stack(s1, s0)
        &&& s1.memory.stack == s0.memory.stack
    }
}

/// The frame and variable instructions find their operands and stay within
/// the stack.
pub open spec fn var_safe(op: u8, s0: State) -> bool {
    let st = s0.memory.stack@;
    let ip = s0.current_instruction;
    &&& s0.memory.wf()
    &&& if op == Code::OFFSET {
        has_operand(s0, 8) && operand(s0, 4) <= st.len()
    } else if op == Code::NATIVE {
        has_operand(s0, 8)
    } else if op == Code::POP || op == Code::ASSIGN {
        op == Code::ASSIGN ==> match (top_k(st, 0), top_k(st, 1)) {
            (Some(VmData::Int(i)), Some(_)) => s0.offset + (i as usize) <= usize::MAX,
            _ => true,
        }
    } else if op == Code::GET || op == Code::GETGLOBAL {
        let k = if op == Code::GET { s0.offset + operand(s0, 4) } else { operand(s0, 4) as int };
        &&& has_operand(s0, 4)
        &&& k <= usize::MAX
        &&& k < st.len() ==> can_inc(s0.memory.heap@, st[k])
    } else if op == Code::STORE {
        &&& has_operand(s0, 4)
        &&& s0.offset + operand(s0, 4) <= usize::MAX
        &&& st.len() > 0 ==> s0.offset + operand(s0, 4) < st.len() - 1
    } else if op == Code::STOREGLOBAL {
        has_operand(s0, 4) && (st.len() > 0 ==> operand(s0, 4) < st.len() - 1)
    } else {
        has_operand(s0, 4)
    }
}

/// The function pointer and captured values of the closure in slot `i`.
pub open spec fn closure_at(h: crate::memory::Heap, i: int) -> Option<(usize, Seq<VmData>)> {
    if crate::memory::live(h, i) {
        match h[i]->0.object.object_type {
            crate::value::ObjectType::Closure(p) => Some((p, h[i]->0.object.data@)),
            _ => None,
        }
    } else {
        None
    }
}

/// `CALL` and `DIRECTCALL`.
pub open spec fn call_post(op: u8, s0: State, s1: State, res: Result<Step, VmError>) -> bool {
    let st = s0.memory.stack@;
    let ip = s0.current_instruction;
    let h0 = s0.memory.heap@;
    &&& s1.program == s0.program
    &&& s1.offset == s0.offset
    &&& s1.window == s0.window
    &&& s1.memory.free_list == s0.memory.free_list
    &&& s1.memory.base_threshold == s0.memory.base_threshold
    &&& s1.memory.next_gc == s0.memory.next_gc
    &&& s1.memory.gc_inhibited == s0.memory.gc_inhibited
    &&& if op == Code::DIRECTCALL {
        let callee = st[operand(s0, 4) as int];
        &&& s1.callstack@ == s0.callstack@.push(CallType::Function((ip + 4) as usize))
        &&& match callee {
            VmData::Function(t) => res matches Ok(Step::Continue) && s1.current_instruction == t
                && s1.memory.stack@ == st && s1.memory.heap == s0.memory.heap,
            VmData::Object(i) => res matches Ok(Step::Continue) && match closure_at(h0, i as int) {
                Some((p, env)) => s1.current_instruction == p && s1.memory.stack@ == st + env
                    && s1.memory.heap@ == crate::memory::retain_all(h0, env),
                None => s1.current_instruction == ip + 4 && s1.memory.stack@ == st && s1.memory.heap == s0.memory.heap,
            },
            _ => err_kind(res) == Some(ErrorKind::NotCallable(op, callee)) && s1.current_instruction == ip + 4
                && s1.memory.stack@ == st && s1.memory.heap == s0.memory.heap,
        }
    } else {
        let rest = popped(st, 1);
        match top_k(st, 0) {
            None => err_kind(res) == Some(ErrorKind::StackEmpty(op)) && s1.current_instruction == ip
                && s1.memory.stack@ == rest && s1.memory.heap == s0.memory.heap && s1.callstack == s0.callstack,
            Some(VmData::Function(t)) => res matches Ok(Step::Continue) && s1.current_instruction == t
                && s1.memory.stack@ == rest && s1.memory.heap == s0.memory.heap
                && s1.callstack@ == s0.callstack@.push(CallType::Function(ip)),
            Some(VmData::Object(i)) => res matches Ok(Step::Continue) && match closure_at(h0, i as int) {
                Some((p, env)) => s1.current_instruction == p && s1.memory.stack@ == rest + env
                    && s1.memory.heap@ == crate::memory::retain_all(h0, env)
                    && s1.callstack@ == s0.callstack@.push(CallType::Closure { target: ip, closure: i }),
                None => s1.current_instruction == ip && s1.memory.stack@ == rest && s1.memory.heap == s0.memory.heap
                    && s1.callstack == s0.callstack,
            },
            Some(other) => err_kind(res) == Some(ErrorKind::NotCallable(op, other)) && s1.current_instruction == ip
                && s1.memory.stack@ == rest && s1.memory.heap == s0.memory.heap && s1.callstack == s0.callstack,
        }
    }
}

/// The callee exists and the captured values can all take a reference.
pub open spec fn call_safe(op: u8, s0: State) -> bool {
    let st = s0.memory.stack@;
    let callee = if op == Code::DIRECTCALL { st[operand(s0, 4) as int] } else { st.last() };
    &&& op == Code::DIRECTCALL ==> has_operand(s0, 4) && operand(s0, 4) < st.len()
    &&& match callee {
        VmData::Object(i) => match closure_at(s0.memory.heap@, i as int) {
            Some((p, env)) => crate::memory::counts_below(s0.memory.heap@, env.len()),
            None => true,
        },
        _ => true,
    }
}

/// `h1`, `f1` are `h0`, `f0` after an allocation without collection that
/// put a new object of kind `kind`, empty table and data `data` with count 1
/// into `slot`.
pub open spec fn fresh_object(
    h0: crate::memory::Heap,
    f0: Seq<usize>,
    h1: crate::memory::Heap,
    f1: Seq<usize>,
    slot: usize,
    kind: crate::value::KindView,
    data: Seq<VmData>,
) -> bool {
    &&& slot == (if f0.len() > 0 { f0.last() } else { h0.len() as usize })
    &&& f1 == (if f0.len() > 0 { f0.drop_last() } else { f0 })
    &&& h1.len() == (if f0.len() > 0 { h0.len() } else { h0.len() + 1 })
    &&& slot < h1.len()
    &&& h1[slot as int] is Some
    &&& h1[slot as int]->0.ref_count == 1
    &&& h1[slot as int]->0.object.object_type@ == kind
    &&& h1[slot as int]->0.object.table@.len() == 0
    &&& h1[slot as int]->0.object.data@ == data
    &&& forall|j: int| 0 <= j < h0.len() && j != slot ==> #[trigger] h1[j] == h0[j]
}

/// The inhibition count after one inhibition and one release.
pub open spec fn inhibit_round(g: usize) -> usize {
    if g < usize::MAX { g } else { (usize::MAX - 1) as usize }
}

/// `NEWLIST` and `CLOSURE`: gather values into a new list or closure.
pub open spec fn gather_post(op: u8, s0: State, s1: State, res: Result<Step, VmError>) -> bool {
    let st0 = s0.memory.stack@;
    let ip = s0.current_instruction;
    // CLOSURE first pops its capture count
    let st = if op == Code::CLOSURE { popped(st0, 1) } else { st0 };
    let n: int = if op == Code::NEWLIST {
        operand(s0, 8) as int
    } else {
        match top_k(st0, 0) {
            Some(VmData::Int(size)) => if size > 0 { size as int } else { 0 },
            _ => 0,
        }
    };
    &&& s1.program == s0.program
    &&& s1.callstack == s0.callstack
    &&& s1.offset == s0.offset
    &&& s1.window == s0.window
    &&& s1.memory.base_threshold == s0.memory.base_threshold
    &&& s1.memory.next_gc == s0.memory.next_gc
    &&& if op == Code::CLOSURE && !(top_k(st0, 0) matches Some(VmData::Int(_))) {
        &&& err_kind(res) == Some(ErrorKind::ClosureSize)
        &&& s1.memory.stack@ == st
        &&& s1.memory.heap == s0.memory.heap && s1.memory.free_list == s0.memory.free_list
        &&& s1.memory.gc_inhibited == s0.memory.gc_inhibited
        &&& s1.current_instruction == ip
    } else if n > st.len() {
        &&& err_kind(res) == Some(ErrorKind::NotEnoughValues(op))
        &&& s1.memory.stack@.len() == 0
        &&& s1.memory.heap == s0.memory.heap && s1.memory.free_list == s0.memory.free_list
        &&& s1.memory.gc_inhibited == s0.memory.gc_inhibited
        &&& s1.current_instruction == (if op == Code::NEWLIST { ip + 8 } else { ip as int })
    } else {
        let slot = if s0.memory.free_list@.len() > 0 { s0.memory.free_list@.last() } else { s0.memory.heap@.len() as usize };
        let vals = st.subrange(st.len() - n, st.len() as int);
        &&& res matches Ok(Step::Continue)
        &&& s1.memory.stack@ == st.subrange(0, st.len() - n).push(VmData::Object(slot))
        &&& fresh_object(s0.memory.heap@, s0.memory.free_list@, s1.memory.heap@, s1.memory.free_list@, slot,
            if op == Code::NEWLIST { crate::value::KindView::List } else { crate::value::KindView::Closure((ip + 4) as usize) },
            vals)
        &&& s1.memory.gc_inhibited == inhibit_round(s0.memory.gc_inhibited)
        &&& s1.current_instruction == (if op == Code::NEWLIST { ip + 8 } else { ip + 4 + operand(s0, 4) })
    }
}

pub open spec fn gather_safe(op: u8, s0: State) -> bool {
    &&& s0.memory.wf()
    &&& s0.memory.alloc_room()
    &&& if op == Code::NEWLIST {
        has_operand(s0, 8)
    } else {
        has_operand(s0, 4) && s0.current_instruction + 4 + operand(s0, 4) <= usize::MAX
    }
}

/// The object in a live slot.
pub open spec fn obj_at(h: crate::memory::Heap, i: int) -> crate::value::Object {
    h[i]->0.object
}

/// The kind tag used in index errors: 0 list, 1 tuple, 2 string, 3 other.
pub open spec fn kind_tag(t: crate::value::ObjectType) -> u8 {
    match t {
        crate::value::ObjectType::List => 0,
        crate::value::ObjectType::Tuple => 1,
        crate::value::ObjectType::String => 2,
        _ => 3,
    }
}

/// An index counted from the end when negative.
pub open spec fn resolve_index(index: i64, len: int) -> int {
    if index < 0 { index + len } else { index as int }
}

/// `LEN`: pops an object reference, releases it and pushes its length.
pub open spec fn len_post(s0: State, s1: State, res: Result<Step, VmError>) -> bool {
    let st = s0.memory.stack@;
    let rest = popped(st, 1);
    let h0 = s0.memory.heap@;
    &&& same_except_heap(s1, s0)
    &&& s1.current_instruction == s0.current_instruction
    &&& match top_k(st, 0) {
        Some(VmData::Object(i)) => if crate::memory::live(h0, i as int) {
            &&& res matches Ok(Step::Continue)
            &&& s1.memory.stack@ == rest.push(VmData::Int(obj_at(h0, i as int).data@.len() as i64))
            &&& (s1.memory.heap@, s1.memory.free_list@) == crate::memory::release(h0, s0.memory.free_list@, seq![i])
        } else {
            err_kind(res) == Some(ErrorKind::FreedObject(Code::LEN)) && s1.memory.stack@ == rest
                && s1.memory.heap == s0.memory.heap && s1.memory.free_list == s0.memory.free_list
        },
        Some(other) => err_kind(res) == Some(ErrorKind::LenOperand(other)) && s1.memory.stack@ == rest
            && s1.memory.heap == s0.memory.heap && s1.memory.free_list == s0.memory.free_list,
        None => err_kind(res) == Some(ErrorKind::StackEmpty(Code::LEN)) && s1.memory.stack@ == rest
            && s1.memory.heap == s0.memory.heap && s1.memory.free_list == s0.memory.free_list,
    }
}

/// `LINDEX`: pops an object reference and an index; pushes the element
/// (adding a reference to it) and releases the object.
pub open spec fn lindex_post(s0: State, s1: State, res: Result<Step, VmError>) -> bool {
    let st = s0.memory.stack@;
    let rest = popped(st, 2);
    let h0 = s0.memory.heap@;
    let f0 = s0.memory.free_list@;
    &&& same_except_heap(s1, s0)
    &&& s1.current_instruction == s0.current_instruction
    &&& match (top_k(st, 0), top_k(st, 1)) {
        (Some(VmData::Object(o)), Some(VmData::Int(index))) => if crate::memory::live(h0, o as int) {
            let data = obj_at(h0, o as int).data@;
            let r = resolve_index(index, data.len() as int);
            if 0 <= r < data.len() {
                let h1 = crate::memory::retain_value(h0, data[r]);
                &&& res matches Ok(Step::Continue)
                &&& s1.memory.stack@ == rest.push(data[r])
                &&& (s1.memory.heap@, s1.memory.free_list@) == crate::memory::release(h1, f0, seq![o])
            } else {
                err_kind(res) == Some(ErrorKind::IndexOutOfBounds(Code::LINDEX, index, data.len() as i64, kind_tag(obj_at(h0, o as int).object_type)))
                    && s1.memory.stack@ == rest && s1.memory.heap == s0.memory.heap && s1.memory.free_list == s0.memory.free_list
            }
        } else {
            err_kind(res) == Some(ErrorKind::FreedObject(Code::LINDEX)) && s1.memory.stack@ == rest
                && s1.memory.heap == s0.memory.heap && s1.memory.free_list == s0.memory.free_list
        },
        (Some(a), Some(b)) => err_kind(res) == Some(ErrorKind::IndexOperands(a, b)) && s1.memory.stack@ == rest
            && s1.memory.heap == s0.memory.heap && s1.memory.free_list == s0.memory.free_list,
        _ => err_kind(res) == Some(ErrorKind::NotEnoughValues(Code::LINDEX)) && s1.memory.stack@ == rest
            && s1.memory.heap == s0.memory.heap && s1.memory.free_list == s0.memory.free_list,
    }
}

pub open spec fn lindex_safe(s0: State) -> bool {
    let st = s0.memory.stack@;
    let h0 = s0.memory.heap@;
    &&& s0.memory.wf()
    &&& match (top_k(st, 0), top_k(st, 1)) {
        (Some(VmData::Object(o)), Some(VmData::Int(index))) => crate::memory::live(h0, o as int) ==> {
            let data = obj_at(h0, o as int).data@;
            let r = resolve_index(index, data.len() as int);
            0 <= r < data.len() ==> can_inc(h0, data[r])
        },
        _ => true,
    }
}

/// The kind tag of an object type, as `kind_tag` gives it.
fn kind_code(t: &crate::value::ObjectType) -> (res: u8)
    ensures
        res == kind_tag(*t),
{
    match t {
        crate::value::ObjectType::List => 0,
        crate::value::ObjectType::Tuple => 1,
        crate::value::ObjectType::String => 2,
        _ => 3,
    }
}

/// The position `index` names in data of length `len` (counted from the
/// end when negative), if it lies inside.
fn resolve(index: i64, len: usize) -> (res: Option<usize>)
    ensures
        match res {
            Some(r) => r == resolve_index(index, len as int) && r < len,
            None => !(0 <= resolve_index(index, len as int) < len),
        },
{
    let wide = index as i128;
    let l = len as i128;
    let r = if wide < 0 { wide + l } else { wide };
    if r < 0 || r >= l {
        None
    } else {
        Some(r as usize)
    }
}

/// Popping `a` values and then `b` more is popping `a + b`; the `k`-th value
/// from the top after popping `a` was the `a + k`-th before.
pub proof fn lemma_popped(s: Seq<VmData>, a: nat, b: nat)
    ensures
        popped(popped(s, a), b) == popped(s, a + b),
        forall|k: nat| #[trigger] top_k(popped(s, a), k) == (if a <= s.len() { top_k(s, a + k) } else { None::<VmData> }),
{
    assert(popped(popped(s, a), b) =~= popped(s, a + b));
}

/// `h1` is `h` with element `r` of the object in slot `o` set to `v`, when
/// that slot is live and has such an element; otherwise `h` itself.
pub open spec fn element_set(h: crate::memory::Heap, h1: crate::memory::Heap, o: int, r: int, v: VmData) -> bool {
    if crate::memory::live(h, o) && 0 <= r < obj_at(h, o).data@.len() {
        &&& h1.len() == h.len()
        &&& forall|j: int| 0 <= j < h.len() && j != o ==> #[trigger] h1[j] == h[j]
        &&& h1[o] is Some
        &&& h1[o]->0.ref_count == h[o]->0.ref_count
        &&& obj_at(h1, o).object_type == obj_at(h, o).object_type
        &&& obj_at(h1, o).table == obj_at(h, o).table
        &&& obj_at(h1, o).data@ == obj_at(h, o).data@.update(r, v)
    } else {
        h1 == h
    }
}

/// `PINDEX`: pops an object reference, an index and a value; releases the
/// element at the index, stores the value there and releases the object.
pub open spec fn pindex_post(s0: State, s1: State, res: Result<Step, VmError>) -> bool {
    let st = s0.memory.stack@;
    let h0 = s0.memory.heap@;
    let f0 = s0.memory.free_list@;
    let unchanged = s1.memory.heap == s0.memory.heap && s1.memory.free_list == s0.memory.free_list;
    &&& same_except_heap(s1, s0)
    &&& s1.current_instruction == s0.current_instruction
    &&& s1.memory.stack@ == popped(st, 3)
    &&& match (top_k(st, 0), top_k(st, 1), top_k(st, 2)) {
        (Some(VmData::Object(o)), Some(VmData::Int(index)), Some(value)) => if crate::memory::live(h0, o as int) {
            let data = obj_at(h0, o as int).data@;
            let r = resolve_index(index, data.len() as int);
            if 0 <= r < data.len() {
                let (h1, f1) = crate::memory::release_value(h0, f0, data[r]);
                &&& res matches Ok(Step::Continue)
                &&& exists|h2: crate::memory::Heap| #[trigger] element_set(h1, h2, o as int, r, value)
                    && (s1.memory.heap@, s1.memory.free_list@) == crate::memory::release(h2, f1, seq![o])
            } else {
                err_kind(res) == Some(ErrorKind::IndexOutOfBounds(Code::PINDEX, index, data.len() as i64, kind_tag(obj_at(h0, o as int).object_type)))
                    && unchanged
            }
        } else {
            err_kind(res) == Some(ErrorKind::FreedObject(Code::PINDEX)) && unchanged
        },
        (Some(a), Some(b), Some(c)) => err_kind(res) == Some(ErrorKind::StoreIndexOperands(a, b, c)) && unchanged,
        _ => err_kind(res) == Some(ErrorKind::NotEnoughValues(Code::PINDEX)) && unchanged,
    }
}

/// The slot the next allocation without collection fills: the most
/// recently freed one, or a new one.
pub open spec fn next_slot(h: crate::memory::Heap, f: Seq<usize>) -> usize {
    if f.len() > 0 { f.last() } else { h.len() as usize }
}

/// The inhibition count after one inhibition.
pub open spec fn inhibited(g: usize) -> usize {
    if g < usize::MAX { (g + 1) as usize } else { g }
}

/// `CONCAT`: pops two object references; makes a new object of the left
/// operand's kind holding the left data followed by the right, releases both
/// operands and pushes the new object. Collection is held off throughout.
pub open spec fn concat_post(s0: State, s1: State, res: Result<Step, VmError>) -> bool {
    let st = s0.memory.stack@;
    let rest = popped(st, 2);
    let h0 = s0.memory.heap@;
    let f0 = s0.memory.free_list@;
    &&& s1.program == s0.program
    &&& s1.callstack == s0.callstack
    &&& s1.offset == s0.offset
    &&& s1.window == s0.window
    &&& s1.memory.base_threshold == s0.memory.base_threshold
    &&& s1.memory.next_gc == s0.memory.next_gc
    &&& s1.current_instruction == s0.current_instruction
    &&& match (top_k(st, 0), top_k(st, 1)) {
        (Some(VmData::Object(right)), Some(VmData::Object(left))) => {
            if !crate::memory::live(h0, left as int) || !crate::memory::live(h0, right as int) {
                &&& err_kind(res) == Some(ErrorKind::ConcatFreed(!crate::memory::live(h0, left as int)))
                &&& s1.memory.stack@ == rest
                &&& s1.memory.heap == s0.memory.heap && s1.memory.free_list == s0.memory.free_list
                &&& s1.memory.gc_inhibited == inhibited(s0.memory.gc_inhibited)
            } else {
                let slot = next_slot(h0, f0);
                &&& res matches Ok(Step::Continue)
                &&& s1.memory.stack@ == rest.push(VmData::Object(slot))
                &&& s1.memory.gc_inhibited == inhibit_round(s0.memory.gc_inhibited)
                &&& exists|ha: crate::memory::Heap, fa: Seq<usize>| {
                    &&& #[trigger] fresh_object(h0, f0, ha, fa, slot, obj_at(h0, left as int).object_type@,
                        obj_at(h0, left as int).data@ + obj_at(h0, right as int).data@)
                    &&& (s1.memory.heap@, s1.memory.free_list@) == crate::memory::release(
                        crate::memory::release(ha, fa, seq![right]).0,
                        crate::memory::release(ha, fa, seq![right]).1,
                        seq![left],
                    )
                }
            }
        },
        _ => {
            &&& err_kind(res) == Some(ErrorKind::ConcatOperands)
            &&& s1.memory.stack@ == rest
            &&& s1.memory.heap == s0.memory.heap && s1.memory.free_list == s0.memory.free_list
            &&& s1.memory.gc_inhibited == s0.memory.gc_inhibited
        },
    }
}

/// The bytes of a `STRING` instruction's text.
pub open spec fn string_bytes(s0: State) -> Seq<u8> {
    let ip = s0.current_instruction;
    s0.program@.subrange(ip + 8, ip + 8 + operand(s0, 8))
}

/// `STRING`: reads a length and that many bytes; when they are UTF-8 pushes
/// a new string object holding the characters they encode.
pub open spec fn string_post(s0: State, s1: State, res: Result<Step, VmError>) -> bool {
    let ip = s0.current_instruction;
    let bytes = string_bytes(s0);
    &&& s1.program == s0.program
    &&& s1.callstack == s0.callstack
    &&& s1.offset == s0.offset
    &&& s1.window == s0.window
    &&& s1.memory.gc_inhibited == s0.memory.gc_inhibited
    &&& s1.current_instruction == ip + 8 + operand(s0, 8)
    &&& if vstd::utf8::valid_utf8(bytes) {
        let chars = vstd::utf8::decode_utf8(bytes);
        let m0 = s0.memory;
        &&& res matches Ok(Step::Continue)
        &&& s1.memory.stack@ == m0.stack@.push(VmData::Object(m0.alloc_slot()))
        &&& s1.memory.free_list@ == m0.free_after_alloc()
        &&& crate::memory::new_object(m0, s1.memory.heap@, crate::value::KindView::String)
        &&& obj_at(s1.memory.heap@, m0.alloc_slot() as int).data@.len() == chars.len()
        &&& forall|i: int| 0 <= i < chars.len() ==> #[trigger] obj_at(s1.memory.heap@, m0.alloc_slot() as int).data@[i] == VmData::Char(chars[i])
    } else {
        err_kind(res) == Some(ErrorKind::InvalidUtf8) && s1.memory == s0.memory
    }
}

/// `STRING` finds its bytes in the program and room to allocate.
pub open spec fn string_safe(s0: State) -> bool {
    &&& s0.memory.wf()
    &&& s0.memory.alloc_room()
    &&& has_operand(s0, 8)
    &&& s0.current_instruction + 8 + operand(s0, 8) <= s0.program@.len()
}

/// The text of the string object in slot `i`; empty when the slot is free
/// or holds another kind of object.
pub open spec fn name_at(h: crate::memory::Heap, i: int) -> Seq<char> {
    if crate::memory::live(h, i) && obj_at(h, i).object_type is String {
        crate::value::Object::chars_in(obj_at(h, i).data@)
    } else {
        Seq::empty()
    }
}

/// The element a field name maps to, when the table maps it inside the data.
pub open spec fn field_value(o: crate::value::Object, name: Seq<char>) -> Option<VmData> {
    match crate::value::table_lookup(o.table@, name) {
        Some(i) => if i < o.data@.len() { Some(o.data@[i as int]) } else { None },
        None => None,
    }
}

/// The error is a missing field named `name` for instruction `op`.
pub open spec fn field_missing(res: Result<Step, VmError>, op: u8, name: Seq<char>) -> bool {
    match res {
        Err(e) => e.kind == ErrorKind::FieldNotFound(op) && (match e.name {
            Some(n) => n@ == name,
            None => false,
        }),
        Ok(_) => false,
    }
}

/// `GETF`: pops a field name and an object reference, releases the name,
/// pushes the field's element (adding a reference) and releases the object.
pub open spec fn getf_post(s0: State, s1: State, res: Result<Step, VmError>) -> bool {
    let st = s0.memory.stack@;
    let rest = popped(st, 2);
    let h0 = s0.memory.heap@;
    let f0 = s0.memory.free_list@;
    &&& same_except_heap(s1, s0)
    &&& s1.current_instruction == s0.current_instruction
    &&& match (top_k(st, 0), top_k(st, 1)) {
        (Some(VmData::Object(ni)), Some(ov)) => {
            let name = name_at(h0, ni as int);
            let (h1, f1) = crate::memory::release(h0, f0, seq![ni]);
            match ov {
                VmData::Object(oi) => if crate::memory::live(h1, oi as int) {
                    match field_value(obj_at(h1, oi as int), name) {
                        Some(v) => {
                            &&& res matches Ok(Step::Continue)
                            &&& s1.memory.stack@ == rest.push(v)
                            &&& (s1.memory.heap@, s1.memory.free_list@) == crate::memory::release(
                                crate::memory::retain_value(h1, v), f1, seq![oi])
                        },
                        None => field_missing(res, Code::GETF, name) && s1.memory.stack@ == rest
                            && (s1.memory.heap@, s1.memory.free_list@) == (h1, f1),
                    }
                } else {
                    err_kind(res) == Some(ErrorKind::FreedObject(Code::GETF)) && s1.memory.stack@ == rest
                        && (s1.memory.heap@, s1.memory.free_list@) == (h1, f1)
                },
                _ => err_kind(res) == Some(ErrorKind::ExpectedObject(Code::GETF)) && s1.memory.stack@ == rest
                    && (s1.memory.heap@, s1.memory.free_list@) == (h1, f1),
            }
        },
        (Some(_), Some(_)) => err_kind(res) == Some(ErrorKind::FieldNameNotString(Code::GETF))
            && s1.memory.stack@ == rest && s1.memory.heap == s0.memory.heap && s1.memory.free_list == s0.memory.free_list,
        _ => err_kind(res) == Some(ErrorKind::NotEnoughValues(Code::GETF))
            && s1.memory.stack@ == rest && s1.memory.heap == s0.memory.heap && s1.memory.free_list == s0.memory.free_list,
    }
}

/// `PINF`: pops an object reference, a field name and a value; releases the
/// name, stores the value in the field, releases the field's old element and
/// then the object.
pub open spec fn pinf_post(s0: State, s1: State, res: Result<Step, VmError>) -> bool {
    let st = s0.memory.stack@;
    let rest = popped(st, 3);
    let h0 = s0.memory.heap@;
    let f0 = s0.memory.free_list@;
    &&& same_except_heap(s1, s0)
    &&& s1.current_instruction == s0.current_instruction
    &&& s1.memory.stack@ == rest
    &&& match (top_k(st, 0), top_k(st, 1), top_k(st, 2)) {
        (Some(ov), Some(VmData::Object(ni)), Some(value)) => {
            let name = name_at(h0, ni as int);
            let (h1, f1) = crate::memory::release(h0, f0, seq![ni]);
            match ov {
                VmData::Object(oi) => match crate::value::table_lookup(obj_at(h1, oi as int).table@, name) {
                    Some(k) => {
                        let old_value = obj_at(h1, oi as int).data@[k as int];
                        &&& res matches Ok(Step::Continue)
                        &&& exists|h2: crate::memory::Heap| #[trigger] element_set(h1, h2, oi as int, k as int, value) && {
                            let (h3, f3) = crate::memory::release_value(h2, f1, old_value);
                            (s1.memory.heap@, s1.memory.free_list@) == crate::memory::release(h3, f3, seq![oi])
                        }
                    },
                    None => field_missing(res, Code::PINF, name) && (s1.memory.heap@, s1.memory.free_list@) == (h1, f1),
                },
                _ => err_kind(res) == Some(ErrorKind::ExpectedObject(Code::PINF))
                    && (s1.memory.heap@, s1.memory.free_list@) == (h1, f1),
            }
        },
        (Some(_), Some(_), Some(_)) => err_kind(res) == Some(ErrorKind::FieldNameNotString(Code::PINF))
            && s1.memory.heap == s0.memory.heap && s1.memory.free_list == s0.memory.free_list,
        _ => err_kind(res) == Some(ErrorKind::NotEnoughValues(Code::PINF))
            && s1.memory.heap == s0.memory.heap && s1.memory.free_list == s0.memory.free_list,
    }
}

/// `PINF` finds the object live and the field inside its data.
pub open spec fn pinf_safe(s0: State) -> bool {
    let st = s0.memory.stack@;
    let h0 = s0.memory.heap@;
    &&& s0.memory.wf()
    &&& match (top_k(st, 0), top_k(st, 1), top_k(st, 2)) {
        (Some(VmData::Object(oi)), Some(VmData::Object(ni)), Some(_)) => {
            let h1 = crate::memory::release(h0, s0.memory.free_list@, seq![ni]).0;
            &&& crate::memory::live(h1, oi as int)
            &&& match crate::value::table_lookup(obj_at(h1, oi as int).table@, name_at(h0, ni as int)) {
                Some(k) => k < obj_at(h1, oi as int).data@.len(),
                None => true,
            }
        },
        _ => true,
    }
}

/// Pops the values `vals` (top first), reading each as a name: a string
/// object's text, released afterwards; any other value gives an empty name.
/// Returns the heap, free list and names in popping order.
pub open spec fn take_names(
    h: crate::memory::Heap,
    f: Seq<usize>,
    vals: Seq<Option<VmData>>,
) -> (crate::memory::Heap, Seq<usize>, Seq<Seq<char>>)
    decreases vals.len(),
{
    if vals.len() == 0 {
        (h, f, Seq::empty())
    } else {
        let r = match vals[0] {
            Some(VmData::Object(i)) => take_names(
                crate::memory::release(h, f, seq![i]).0,
                crate::memory::release(h, f, seq![i]).1,
                vals.drop_first(),
            ),
            _ => take_names(h, f, vals.drop_first()),
        };
        let name = match vals[0] {
            Some(VmData::Object(i)) => name_at(h, i as int),
            _ => Seq::<char>::empty(),
        };
        (r.0, r.1, seq![name] + r.2)
    }
}

/// The last position of `key` in `names`.
pub open spec fn last_pos(names: Seq<Seq<char>>, key: Seq<char>) -> Option<usize>
    decreases names.len(),
{
    if names.len() == 0 {
        None
    } else if names.last() == key {
        Some((names.len() - 1) as usize)
    } else {
        last_pos(names.drop_last(), key)
    }
}

/// `h1`, `f1` are `h0`, `f0` after an allocation without collection that put
/// into `slot` a struct named `name` with count 1, data `data`, and a table
/// mapping `"type"` to `type_at` and every other name to its last position in
/// `fields`.
pub open spec fn fresh_struct(
    h0: crate::memory::Heap,
    f0: Seq<usize>,
    h1: crate::memory::Heap,
    f1: Seq<usize>,
    slot: usize,
    name: Seq<char>,
    fields: Seq<Seq<char>>,
    type_at: usize,
    data: Seq<VmData>,
) -> bool {
    &&& slot == next_slot(h0, f0)
    &&& f1 == (if f0.len() > 0 { f0.drop_last() } else { f0 })
    &&& h1.len() == (if f0.len() > 0 { h0.len() } else { h0.len() + 1 })
    &&& slot < h1.len()
    &&& h1[slot as int] is Some
    &&& h1[slot as int]->0.ref_count == 1
    &&& obj_at(h1, slot as int).object_type@ == crate::value::KindView::Struct(name)
    &&& obj_at(h1, slot as int).data@ == data
    &&& crate::value::keys_distinct(obj_at(h1, slot as int).table@)
    &&& forall|key: Seq<char>| #[trigger] crate::value::table_lookup(obj_at(h1, slot as int).table@, key)
        == if key == "type"@ { Some(type_at) } else { last_pos(fields, key) }
    &&& forall|j: int| 0 <= j < h0.len() && j != slot ==> #[trigger] h1[j] == h0[j]
}

/// `NEWSTRUCT`: pops the struct's name, then `n` field names (the last field
/// first), then up to `n` field values; builds a struct whose table maps each
/// name to its field's position (the last field of a name winning) and
/// `"type"` to an added element, a new string object holding the struct's
/// name; pushes the struct. Collection is held off throughout.
pub open spec fn newstruct_post(s0: State, s1: State, res: Result<Step, VmError>) -> bool {
    let st = s0.memory.stack@;
    let n = operand(s0, 8);
    let (h1, f1, names) = take_names(s0.memory.heap@, s0.memory.free_list@, Seq::new((n + 1) as nat, |k: int| top_k(st, k as nat)));
    let fields = names.drop_first().reverse();
    let below = popped(st, (n + 1) as nat);
    let m: nat = if n <= below.len() { n } else { below.len() };
    let values = below.subrange(below.len() - m, below.len() as int);
    let a1 = next_slot(h1, f1);
    &&& res matches Ok(Step::Continue)
    &&& s1.program == s0.program
    &&& s1.callstack == s0.callstack
    &&& s1.offset == s0.offset
    &&& s1.window == s0.window
    &&& s1.memory.base_threshold == s0.memory.base_threshold
    &&& s1.memory.next_gc == s0.memory.next_gc
    &&& s1.memory.gc_inhibited == inhibit_round(s0.memory.gc_inhibited)
    &&& s1.current_instruction == s0.current_instruction + 8
    &&& exists|ha: crate::memory::Heap, fa: Seq<usize>| {
        &&& #[trigger] fresh_object(h1, f1, ha, fa, a1, crate::value::KindView::String, obj_at(ha, a1 as int).data@)
        &&& crate::value::holds_chars(obj_at(ha, a1 as int).data@, names[0])
        &&& fresh_struct(ha, fa, s1.memory.heap@, s1.memory.free_list@, next_slot(ha, fa), names[0], fields,
            m as usize, values.push(VmData::Object(a1)))
        &&& s1.memory.stack@ == popped(st, 2 * n + 1).push(VmData::Object(next_slot(ha, fa)))
    }
}

/// `NEWSTRUCT` finds its operand and room for two allocations.
pub open spec fn newstruct_safe(s0: State) -> bool {
    &&& s0.memory.wf()
    &&& s0.memory.heap@.len() + 1 <= usize::MAX / 2
    &&& s0.memory.base_threshold <= usize::MAX / 4
    &&& has_operand(s0, 8)
}

/// One popping step of `take_names`.
pub proof fn lemma_take_names_step(h: crate::memory::Heap, f: Seq<usize>, vals: Seq<Option<VmData>>)
    requires
        vals.len() > 0,
    ensures
        take_names(h, f, vals) == ({
            let name = match vals[0] {
                Some(VmData::Object(i)) => name_at(h, i as int),
                _ => Seq::<char>::empty(),
            };
            let (h1, f1) = match vals[0] {
                Some(VmData::Object(i)) => crate::memory::release(h, f, seq![i]),
                _ => (h, f),
            };
            let r = take_names(h1, f1, vals.drop_first());
            (r.0, r.1, seq![name] + r.2)
        }),
{
}

/// Appending a name: its last position is the new one.
pub proof fn lemma_last_pos_push(names: Seq<Seq<char>>, x: Seq<char>, key: Seq<char>)
    ensures
        last_pos(names.push(x), key) == (if x == key { Some(names.len() as usize) } else { last_pos(names, key) }),
{
    assert(names.push(x).drop_last() =~= names);
}

/// How `PRINT` shows a value: objects (and stack addresses, read as heap
/// slots) through `shown`, functions as `<function: n>` (`<fn:n>` when
/// stepping under the debugger), everything else as it displays.
pub open spec fn printed(h: crate::memory::Heap, v: VmData, debug: bool) -> Seq<PieceView> {
    match v {
        VmData::Object(l) => shown(h, l as int, 0),
        VmData::StackAddress(l) => shown(h, l as int, 0),
        VmData::Function(f) => if debug {
            text("<fn:"@) + text(crate::show::nat_text(f as nat)) + text(">"@)
        } else {
            text("<function: "@) + text(crate::show::nat_text(f as nat)) + text(">"@)
        },
        _ => data_text(v),
    }
}

/// The value can be printed without reading a field outside its object.
pub open spec fn print_safe(s0: State) -> bool {
    &&& s0.memory.wf()
    &&& match top_k(s0.memory.stack@, 0) {
        Some(VmData::Object(l)) => printable(s0.memory.heap@, l as int, 0),
        Some(VmData::StackAddress(l)) => printable(s0.memory.heap@, l as int, 0),
        _ => true,
    }
}

/// `PRINT`: pops a value, asks the caller to print it and releases it.
pub open spec fn print_post(s0: State, s1: State, res: Result<Step, VmError>, debug: bool) -> bool {
    let st = s0.memory.stack@;
    &&& same_except_heap(s1, s0)
    &&& s1.current_instruction == s0.current_instruction
    &&& s1.memory.stack@ == popped(st, 1)
    &&& match top_k(st, 0) {
        Some(v) => {
            &&& res matches Ok(Step::Print(p)) && pieces_view(p@) == printed(s0.memory.heap@, v, debug)
            &&& (s1.memory.heap@, s1.memory.free_list@) == crate::memory::release_value(s0.memory.heap@, s0.memory.free_list@, v)
        },
        None => {
            &&& if debug {
                res matches Ok(Step::Print(p)) && pieces_view(p@) == text("(empty)"@)
            } else {
                err_kind(res) == Some(ErrorKind::StackEmpty(Code::PRINT))
            }
            &&& s1.memory.heap == s0.memory.heap && s1.memory.free_list == s0.memory.free_list
        },
    }
}

/// `EQUALS`: pops two values and pushes whether they are deeply equal.
pub open spec fn equals_post(s0: State, s1: State, res: Result<Step, VmError>) -> bool {
    let st = s0.memory.stack@;
    let rest = popped(st, 2);
    &&& same_except_stack(s1, s0)
    &&& s1.current_instruction == s0.current_instruction
    &&& match (top_k(st, 0), top_k(st, 1)) {
        (Some(v1), Some(v2)) => res matches Ok(Step::Continue)
            && s1.memory.stack@ == rest.push(VmData::Bool(crate::equality::values_equal(s0.memory.heap@, v1, v2))),
        _ => err_kind(res) == Some(ErrorKind::NotEnoughValues(Code::EQUALS)) && s1.memory.stack@ == rest,
    }
}

/// `CLONE`: replaces the top value by a deep copy (`clone_top`).
pub open spec fn clone_post(s0: State, s1: State, res: Result<Step, VmError>) -> bool {
    let st = s0.memory.stack@;
    &&& res matches Ok(Step::Continue)
    &&& s1.program == s0.program
    &&& s1.callstack == s0.callstack
    &&& s1.offset == s0.offset
    &&& s1.window == s0.window
    &&& s1.current_instruction == s0.current_instruction
    &&& s1.memory.gc_inhibited == s0.memory.gc_inhibited
    &&& if st.len() == 0 {
        s1.memory.stack@ == st && s1.memory.heap == s0.memory.heap && s1.memory.free_list == s0.memory.free_list
    } else {
        crate::deep_clone::clone_result(st, s0.memory.heap@, s0.memory.free_list@, s1.memory.stack@,
            s1.memory.heap@, s1.memory.free_list@)
    }
}

/// The memory is consistent and has room for the allocations one
/// instruction makes.
pub open spec fn machine_ok(s: State) -> bool {
    &&& s.memory.wf()
    &&& s.memory.base_threshold <= usize::MAX / 4
    &&& s.memory.heap@.len() + 1 <= usize::MAX / 2
}

/// What instruction `op` (other than `RET`, `ERROR` and `EXIT`) does.
pub open spec fn dispatch_post(op: u8, s0: State, s1: State, res: Result<Step, VmError>) -> bool {
    if op == Code::IADD || op == Code::ISUB || op == Code::IMUL || op == Code::IDIV {
        int_arith_post(op, s0, s1, res)
    } else if op == Code::ILSS || op == Code::IGTR {
        int_cmp_post(op, s0, s1, res)
    } else if op == Code::FLSS || op == Code::FGTR {
        float_cmp_post(op, s0, s1, res)
    } else if op == Code::FADD || op == Code::FSUB || op == Code::FMUL || op == Code::FDIV {
        float_arith_post(op, s0, s1, res)
    } else if op == Code::IMODULO {
        modulo_post(s0, s1, res)
    } else if op == Code::AND || op == Code::OR {
        logic_post(op, s0, s1, res)
    } else if op == Code::ISSOME || op == Code::UNWRAP || op == Code::DUP || op == Code::TRUE
        || op == Code::FALSE || op == Code::NONE || op == Code::NOT || op == Code::NEG {
        simple_post(op, s0, s1, res)
    } else if op == Code::INTEGER || op == Code::FLOAT || op == Code::CHAR || op == Code::JMP
        || op == Code::BJMP || op == Code::FUNCTION || op == Code::JUMPIFFALSE {
        jump_post(op, s0, s1, res)
    } else if op == Code::ALLOCATEGLOBAL || op == Code::ALLOCLOCALS || op == Code::OFFSET || op == Code::GET
        || op == Code::GETGLOBAL || op == Code::STORE || op == Code::STOREGLOBAL || op == Code::POP
        || op == Code::ASSIGN || op == Code::NATIVE {
        var_post(op, s0, s1, res)
    } else if op == Code::CALL || op == Code::DIRECTCALL {
        call_post(op, s0, s1, res)
    } else if op == Code::NEWLIST || op == Code::CLOSURE {
        gather_post(op, s0, s1, res)
    } else if op == Code::LEN {
        len_post(s0, s1, res)
    } else if op == Code::LINDEX {
        lindex_post(s0, s1, res)
    } else if op == Code::PINDEX {
        pindex_post(s0, s1, res)
    } else if op == Code::CONCAT {
        concat_post(s0, s1, res)
    } else if op == Code::STRING {
        string_post(s0, s1, res)
    } else if op == Code::GETF {
        getf_post(s0, s1, res)
    } else if op == Code::PINF {
        pinf_post(s0, s1, res)
    } else if op == Code::NEWSTRUCT {
        newstruct_post(s0, s1, res)
    } else if op == Code::PRINT {
        print_post(s0, s1, res, false)
    } else if op == Code::EQUALS {
        equals_post(s0, s1, res)
    } else if op == Code::CLONE {
        clone_post(s0, s1, res)
    } else {
        err_kind(res) == Some(ErrorKind::UnknownOpcode(op)) && s1 == s0
    }
}

/// Instruction `op` finds what it reads and stays within the machine's
/// limits (the inputs on which it neither panics nor overflows).
pub open spec fn dispatch_safe(op: u8, s0: State) -> bool {
    &&& machine_ok(s0)
    &&& (op == Code::NEG ==> neg_safe(s0))
    &&& (op == Code::IMODULO ==> modulo_safe(s0))
    &&& (op == Code::INTEGER || op == Code::FLOAT || op == Code::CHAR || op == Code::JMP
        || op == Code::BJMP || op == Code::FUNCTION || op == Code::JUMPIFFALSE ==> jump_safe(op, s0))
    &&& (op == Code::ALLOCATEGLOBAL || op == Code::ALLOCLOCALS || op == Code::OFFSET || op == Code::GET
        || op == Code::GETGLOBAL || op == Code::STORE || op == Code::STOREGLOBAL || op == Code::POP
        || op == Code::ASSIGN || op == Code::NATIVE ==> var_safe(op, s0))
    &&& (op == Code::CALL || op == Code::DIRECTCALL ==> call_safe(op, s0))
    &&& (op == Code::NEWLIST || op == Code::CLOSURE ==> gather_safe(op, s0))
    &&& (op == Code::LINDEX ==> lindex_safe(s0))
    &&& (op == Code::PINF ==> pinf_safe(s0))
    &&& (op == Code::STRING ==> string_safe(s0))
    &&& (op == Code::NEWSTRUCT ==> newstruct_safe(s0))
    &&& (op == Code::GETF ==> crate::memory::counts_below(s0.memory.heap@, 1))
    &&& (op == Code::PRINT ==> print_safe(s0))
}

/// The state with the instruction pointer moved `n` bytes on.
pub open spec fn advanced(s: State, n: nat) -> State {
    State { current_instruction: (s.current_instruction + n) as usize, ..s }
}

/// The stack, heap, free list and frame starts after closing the current
/// frame (keeping the top value for the caller when `keep_top`), and the
/// error that closing raises, if any.
pub open spec fn frame_after(s0: State, keep_top: bool) -> (
    Seq<VmData>,
    crate::memory::Heap,
    Seq<usize>,
    Seq<usize>,
    Option<ErrorKind>,
) {
    let w = s0.window@;
    let s = s0.memory.stack@;
    let h0 = s0.memory.heap@;
    let f0 = s0.memory.free_list@;
    let keep: int = if w.len() > 0 { w.last() as int } else { s.len() as int };
    let w1 = if w.len() > 0 { w.drop_last() } else { w };
    if !keep_top {
        let (h1, f1) = crate::state::release_all_top(h0, f0, s, (s.len() - keep) as nat);
        (s.subrange(0, keep), h1, f1, w1, if w1.len() == 0 { Some(ErrorKind::FrameUnderflow) } else { None })
    } else if s.len() == 0 {
        (s, h0, f0, w, Some(ErrorKind::ReturnOnEmptyStack))
    } else {
        let ret = s.last();
        let (h1, f1) = crate::state::release_all_top(crate::memory::retain_value(h0, ret), f0, s, (s.len() - keep) as nat);
        (
            if w1.len() > 0 { s.subrange(0, keep).push(ret) } else { s.subrange(0, keep) },
            h1,
            f1,
            w1,
            if w1.len() == 0 { Some(ErrorKind::ReturnFrameUnderflow) } else { None },
        )
    }
}

/// `RET`: reads whether a value is returned; with no caller the program is
/// finished; otherwise the frame is closed, control returns to the caller
/// and a called closure is released.
pub open spec fn ret_post(s0: State, s1: State, res: Result<Step, VmError>) -> bool {
    let ip = s0.current_instruction;
    let flag = s0.program@[ip + 1];
    let cs = s0.callstack@;
    if cs.len() == 0 {
        res matches Ok(Step::Finished) && s1 == advanced(s0, 2)
    } else {
        let (st1, h1, f1, w1, err) = frame_after(s0, flag == 1);
        &&& s1.program == s0.program
        &&& s1.callstack@ == cs.drop_last()
        &&& s1.window@ == w1
        &&& s1.offset == (if err is None { w1.last() } else { s0.offset })
        &&& s1.memory.stack@ == st1
        &&& s1.memory.base_threshold == s0.memory.base_threshold
        &&& s1.memory.next_gc == s0.memory.next_gc
        &&& s1.memory.gc_inhibited == s0.memory.gc_inhibited
        &&& match err {
            Some(k) => err_kind(res) == Some(k) && s1.current_instruction == ip + 2
                && s1.memory.heap@ == h1 && s1.memory.free_list@ == f1,
            None => res matches Ok(Step::Continue) && match cs.last() {
                CallType::Function(t) => s1.current_instruction == t && s1.memory.heap@ == h1 && s1.memory.free_list@ == f1,
                CallType::Closure { target, closure } => s1.current_instruction == target
                    && (s1.memory.heap@, s1.memory.free_list@) == crate::memory::release(h1, f1, seq![closure]),
            },
        }
    }
}

/// What one step does: the instruction at the instruction pointer runs.
pub open spec fn step_post(s0: State, s1: State, res: Result<Step, VmError>) -> bool {
    let ip = s0.current_instruction;
    let op = s0.program@[ip as int];
    if op == Code::RET {
        ret_post(s0, s1, res)
    } else if op == Code::ERROR {
        err_kind(res) == Some(ErrorKind::ErrorInstruction) && s1 == advanced(s0, 1)
    } else if op == Code::EXIT {
        res matches Ok(Step::Exit) && s1 == advanced(s0, 1)
    } else {
        dispatch_post(op, advanced(s0, 1), s1, res)
    }
}

/// The instruction at the instruction pointer can run: it is there, finds
/// what it reads and stays within the machine's limits.
pub open spec fn step_safe(s0: State) -> bool {
    let ip = s0.current_instruction;
    let op = s0.program@[ip as int];
    let st = s0.memory.stack@;
    &&& ip < s0.program@.len()
    &&& machine_ok(s0)
    &&& (op == Code::RET ==> {
        &&& ip + 1 < s0.program@.len()
        &&& (s0.window@.len() > 0 ==> s0.window@.last() <= st.len())
        &&& (s0.program@[ip + 1] == 1 && st.len() > 0 ==> can_inc(s0.memory.heap@, st.last()))
    })
    &&& (op != Code::RET && op != Code::ERROR && op != Code::EXIT ==> dispatch_safe(op, advanced(s0, 1)))
}

/// The result `step` gives for the debugger's result `r` on opcode `op`.
pub open spec fn step_of(r: StepResult, op: u8) -> Result<Step, VmError> {
    match r {
        StepResult::Finished { .. } => if op == Code::EXIT { Ok(Step::Exit) } else { Ok(Step::Finished) },
        StepResult::Continue { request, .. } => Ok(request),
        StepResult::Error(e) => Err(e),
    }
}

/// One step under the debugger: past the end of the program it is finished;
/// `PRINT` shows its value in the output (as `<fn:n>` for functions, and
/// `(empty)` on an empty stack); `EXIT` finishes; anything else runs as
/// `step` runs it, labelled with the opcode's mnemonic.
pub open spec fn debug_post(s0: State, s1: State, r: StepResult) -> bool {
    let ip = s0.current_instruction;
    if ip >= s0.program@.len() {
        r matches StepResult::Finished { output } && output is None && s1 == s0
    } else {
        let op = s0.program@[ip as int];
        if op == Code::PRINT {
            match r {
                StepResult::Continue { opname, output, request } => {
                    &&& opname@ == crate::code::opcode_name(op)@
                    &&& request matches Step::Continue
                    &&& match output {
                        Some(p) => print_post(advanced(s0, 1), s1, Ok(Step::Print(p)), true),
                        None => false,
                    }
                },
                _ => false,
            }
        } else {
            &&& step_post(s0, s1, step_of(r, op))
            &&& match r {
                StepResult::Finished { output } => output is None,
                StepResult::Continue { opname, output, request } => opname@ == crate::code::opcode_name(op)@
                    && output is None && !(request matches Step::Finished) && !(request matches Step::Exit),
                StepResult::Error(_) => true,
            }
        }
    }
}

impl Vm {
    /// An error of `kind` raised at the current instruction pointer.
    fn error(&self, kind: ErrorKind) -> (res: VmError)
        ensures
            res.kind == kind,
            res.ip == self.state.current_instruction,
            res.name is None,
    {
        VmError { kind, ip: self.state.current_instruction, name: None }
    }

    fn pop_raw(&mut self) -> (res: Option<VmData>)
        ensures
            res == top_k(old(self).state.memory.stack@, 0),
            final(self).state.memory.stack@ == popped(old(self).state.memory.stack@, 1),
            same_except_stack(final(self).state, old(self).state),
            final(self).state.current_instruction == old(self).state.current_instruction,
    {
        let r = self.state.memory.stack.pop();
        proof {
            if old(self).state.memory.stack@.len() == 0 {
                assert(self.state.memory.stack@ =~= popped(old(self).state.memory.stack@, 1));
            }
        }
        r
    }

    fn push_raw(&mut self, v: VmData)
        ensures
            final(self).state.memory.stack@ == old(self).state.memory.stack@.push(v),
            same_except_stack(final(self).state, old(self).state),
            final(self).state.current_instruction == old(self).state.current_instruction,
    {
        self.state.memory.stack.push(v);
    }

    /// Pops the top value, then the one below it.
    fn pop_two(&mut self) -> (res: (Option<VmData>, Option<VmData>))
        ensures
            res.0 == top_k(old(self).state.memory.stack@, 0),
            res.1 == top_k(old(self).state.memory.stack@, 1),
            final(self).state.memory.stack@ == popped(old(self).state.memory.stack@, 2),
            same_except_stack(final(self).state, old(self).state),
            final(self).state.current_instruction == old(self).state.current_instruction,
    {
        let a = self.pop_raw();
        let b = self.pop_raw();
        proof {
            let s = old(self).state.memory.stack@;
            if s.len() >= 2 {
                assert(popped(popped(s, 1), 1) =~= popped(s, 2));
            } else {
                assert(self.state.memory.stack@ =~= popped(s, 2));
            }
        }
        (a, b)
    }

    /// `IADD`, `ISUB`, `IMUL`, `IDIV`.
    fn op_int_arith(&mut self, op: u8) -> (res: Result<Step, VmError>)
        requires
            op == Code::IADD || op == Code::ISUB || op == Code::IMUL || op == Code::IDIV,
        ensures
            int_arith_post(op, old(self).state, final(self).state, res),
            res matches Err(e) ==> e.ip == final(self).state.current_instruction,
    {
        let (a, b) = self.pop_two();
        match (a, b) {
            (Some(VmData::Int(v1)), Some(VmData::Int(v2))) => {
                let r = if op == Code::IADD {
                    v1.checked_add(v2)
                } else if op == Code::ISUB {
                    v2.checked_sub(v1)
                } else if op == Code::IMUL {
                    v1.checked_mul(v2)
                } else {
                    v2.checked_div(v1)
                };
                match r {
                    Some(r) => {
                        self.push_raw(VmData::Int(r));
                        Ok(Step::Continue)
                    },
                    None => {
                        let kind = if op == Code::IDIV {
                            ErrorKind::DivisionByZero
                        } else {
                            ErrorKind::Overflow(op)
                        };
                        Err(self.error(kind))
                    },
                }
            },
            _ => Err(self.error(ErrorKind::ExpectedInts(op))),
        }
    }

    /// `ILSS`, `IGTR`.
    fn op_int_cmp(&mut self, op: u8) -> (res: Result<Step, VmError>)
        requires
            op == Code::ILSS || op == Code::IGTR,
        ensures
            int_cmp_post(op, old(self).state, final(self).state, res),
            res matches Err(e) ==> e.ip == final(self).state.current_instruction,
    {
        let (a, b) = self.pop_two();
        match (a, b) {
            (Some(VmData::Int(v1)), Some(VmData::Int(v2))) => {
                self.push_raw(VmData::Bool(if op == Code::ILSS { v2 < v1 } else { v2 > v1 }));
                Ok(Step::Continue)
            },
            (a, b) => {
                if op == Code::ILSS {
                    Err(self.error(ErrorKind::ExpectedInts(op)))
                } else {
                    let x = match a { Some(x) => x, None => VmData::Nil };
                    let y = match b { Some(y) => y, None => VmData::Nil };
                    Err(self.error(ErrorKind::IntCompareTypes(x, y)))
                }
            },
        }
    }

    /// `FLSS`, `FGTR`.
    fn op_float_cmp(&mut self, op: u8) -> (res: Result<Step, VmError>)
        requires
            op == Code::FLSS || op == Code::FGTR,
        ensures
            float_cmp_post(op, old(self).state, final(self).state, res),
            res matches Err(e) ==> e.ip == final(self).state.current_instruction,
    {
        let (a, b) = self.pop_two();
        match (a, b) {
            (Some(VmData::Float(v1)), Some(VmData::Float(v2))) => {
                let r = if op == Code::FLSS { lt_bits(v2, v1) } else { lt_bits(v1, v2) };
                self.push_raw(VmData::Bool(r));
                Ok(Step::Continue)
            },
            _ => Err(self.error(ErrorKind::ExpectedFloats(op))),
        }
    }

    /// `FADD`, `FSUB`, `FMUL`, `FDIV`.
    fn op_float_arith(&mut self, op: u8) -> (res: Result<Step, VmError>)
        ensures
            float_arith_post(op, old(self).state, final(self).state, res),
            res matches Err(e) ==> e.ip == final(self).state.current_instruction,
    {
        let (a, b) = self.pop_two();
        match (a, b) {
            (Some(VmData::Float(v1)), Some(VmData::Float(v2))) => Ok(Step::FloatArith { op, lhs: v2, rhs: v1 }),
            _ => Err(self.error(ErrorKind::ExpectedFloats(op))),
        }
    }

    /// `IMODULO`.
    fn op_modulo(&mut self) -> (res: Result<Step, VmError>)
        requires
            modulo_safe(old(self).state),
        ensures
            modulo_post(old(self).state, final(self).state, res),
            res matches Err(e) ==> e.ip == final(self).state.current_instruction,
    {
        let (a, b) = self.pop_two();
        match (a, b) {
            (Some(VmData::Int(v1)), Some(VmData::Int(v2))) => {
                let r = modulo_i64(v2, v1);
                self.push_raw(VmData::Int(r));
                Ok(Step::Continue)
            },
            _ => Err(self.error(ErrorKind::ExpectedInts(Code::IMODULO))),
        }
    }

    /// `AND`, `OR`.
    fn op_logic(&mut self, op: u8) -> (res: Result<Step, VmError>)
        requires
            op == Code::AND || op == Code::OR,
        ensures
            logic_post(op, old(self).state, final(self).state, res),
            res matches Err(e) ==> e.ip == final(self).state.current_instruction,
    {
        let (a, b) = self.pop_two();
        match (a, b) {
            (Some(VmData::Bool(v1)), Some(VmData::Bool(v2))) => {
                self.push_raw(VmData::Bool(if op == Code::AND { v1 && v2 } else { v1 || v2 }));
                Ok(Step::Continue)
            },
            (Some(a), Some(b)) => Err(self.error(ErrorKind::LogicOperands(op, b, a))),
            _ => Err(self.error(ErrorKind::NotEnoughValues(op))),
        }
    }

    /// `ISSOME`, `UNWRAP`, `DUP`, `TRUE`, `FALSE`, `NONE`, `NOT`, `NEG`.
    fn op_simple(&mut self, op: u8) -> (res: Result<Step, VmError>)
        requires
            op == Code::ISSOME || op == Code::UNWRAP || op == Code::DUP || op == Code::TRUE
                || op == Code::FALSE || op == Code::NONE || op == Code::NOT || op == Code::NEG,
            op == Code::NEG ==> neg_safe(old(self).state),
        ensures
            simple_post(op, old(self).state, final(self).state, res),
            res matches Err(e) ==> e.ip == final(self).state.current_instruction,
    {
        if op == Code::ISSOME {
            match self.pop_raw() {
                Some(VmData::Nil) => self.push_raw(VmData::Bool(false)),
                None => {},
                _ => self.push_raw(VmData::Bool(true)),
            }
            Ok(Step::Continue)
        } else if op == Code::UNWRAP {
            let n = self.state.memory.stack.len();
            if n > 0 && self.state.memory.stack[n - 1] == VmData::Nil {
                return Err(self.error(ErrorKind::UnwrapNone));
            }
            Ok(Step::Continue)
        } else if op == Code::DUP {
            let n = self.state.memory.stack.len();
            if n == 0 {
                return Err(self.error(ErrorKind::StackEmpty(op)));
            }
            let top = self.state.memory.stack[n - 1];
            self.push_raw(top);
            Ok(Step::Continue)
        } else if op == Code::TRUE {
            self.push_raw(VmData::Bool(true));
            Ok(Step::Continue)
        } else if op == Code::FALSE {
            self.push_raw(VmData::Bool(false));
            Ok(Step::Continue)
        } else if op == Code::NONE {
            self.push_raw(VmData::Nil);
            Ok(Step::Continue)
        } else if op == Code::NOT {
            match self.pop_raw() {
                Some(VmData::Bool(b)) => {
                    self.push_raw(VmData::Bool(!b));
                    Ok(Step::Continue)
                },
                Some(other) => Err(self.error(ErrorKind::NotOperand(other))),
                None => Err(self.error(ErrorKind::StackEmpty(op))),
            }
        } else {
            match self.pop_raw() {
                Some(VmData::Int(v)) => {
                    self.push_raw(VmData::Int(-v));
                    Ok(Step::Continue)
                },
                Some(VmData::Float(v)) => {
                    self.push_raw(VmData::Float(neg_bits(v)));
                    Ok(Step::Continue)
                },
                Some(other) => Err(self.error(ErrorKind::NegOperand(other))),
                None => Err(self.error(ErrorKind::StackEmpty(op))),
            }
        }
    }

    /// `INTEGER`, `FLOAT`, `CHAR`, `JMP`, `BJMP`, `FUNCTION`, `JUMPIFFALSE`.
    fn op_jump(&mut self, op: u8) -> (res: Result<Step, VmError>)
        requires
            op == Code::INTEGER || op == Code::FLOAT || op == Code::CHAR || op == Code::JMP
                || op == Code::BJMP || op == Code::FUNCTION || op == Code::JUMPIFFALSE,
            jump_safe(op, old(self).state),
        ensures
            jump_post(op, old(self).state, final(self).state, res),
            res matches Err(e) ==> e.ip == final(self).state.current_instruction,
    {
        if op == Code::INTEGER {
            let value = self.state.next_i64();
            self.push_raw(VmData::Int(value));
            Ok(Step::Continue)
        } else if op == Code::FLOAT {
            let fl = self.state.next_u64();
            self.push_raw(VmData::Float(fl));
            Ok(Step::Continue)
        } else if op == Code::CHAR {
            let c = self.state.next_instruction() as char;
            self.push_raw(VmData::Char(c));
            Ok(Step::Continue)
        } else if op == Code::JMP {
            let jump = self.state.next_u32();
            self.state.current_instruction = self.state.current_instruction + jump as usize;
            Ok(Step::Continue)
        } else if op == Code::BJMP {
            let jump = self.state.next_u32();
            self.state.current_instruction = self.state.current_instruction - jump as usize;
            Ok(Step::Continue)
        } else if op == Code::FUNCTION {
            let target = self.state.current_instruction + 4;
            self.push_raw(VmData::Function(target));
            let jump = self.state.next_u32();
            self.state.current_instruction = self.state.current_instruction + jump as usize;
            Ok(Step::Continue)
        } else {
            let jump = self.state.next_u32();
            match self.pop_raw() {
                Some(VmData::Bool(test)) => {
                    if !test {
                        self.state.current_instruction = self.state.current_instruction + jump as usize;
                    }
                    Ok(Step::Continue)
                },
                Some(other) => Err(self.error(ErrorKind::ExpectedBool(other))),
                None => Err(self.error(ErrorKind::StackEmpty(op))),
            }
        }
    }

    fn op_frame(&mut self, op: u8) -> (res: Result<Step, VmError>)
        requires
            op == Code::ALLOCATEGLOBAL || op == Code::ALLOCLOCALS || op == Code::OFFSET,
            var_safe(op, old(self).state),
        ensures
            var_post(op, old(self).state, final(self).state, res),
            final(self).state.memory.wf(),
            res matches Err(e) ==> e.ip == final(self).state.current_instruction,
    {
        if op == Code::ALLOCATEGLOBAL || op == Code::ALLOCLOCALS {
            let allocations = self.state.next_u32();
            self.state.alloc_locals(allocations as usize);
            Ok(Step::Continue)
        } else {
            let ghost s0 = self.state;
            let offset = self.state.next_u32();
            let locals = self.state.next_u32();
            proof {
                assert(self.state.program@.subrange(s0.current_instruction + 4, s0.current_instruction + 8)
                    == s0.program@.subrange(s0.current_instruction + 4, s0.current_instruction + 8));
            }
            self.state.offset_locals(offset as usize, locals as usize);
            Ok(Step::Continue)
        }
    }

    fn op_get(&mut self, op: u8) -> (res: Result<Step, VmError>)
        requires
            op == Code::GET || op == Code::GETGLOBAL,
            var_safe(op, old(self).state),
        ensures
            var_post(op, old(self).state, final(self).state, res),
            final(self).state.memory.wf(),
            res matches Err(e) ==> e.ip == final(self).state.current_instruction,
    {
        let index = self.state.next_u32();
        let k = if op == Code::GET { self.state.offset + index as usize } else { index as usize };
        self.state.memory.stack_index_to_stack(k);
        Ok(Step::Continue)
    }

    fn op_store(&mut self, op: u8) -> (res: Result<Step, VmError>)
        requires
            op == Code::STORE,
            var_safe(op, old(self).state),
        ensures
            var_post(op, old(self).state, final(self).state, res),
            final(self).state.memory.wf(),
            res matches Err(e) ==> e.ip == final(self).state.current_instruction,
    {
        let index = self.state.next_u32();
        self.state.memory.pop_store_index(self.state.offset + index as usize);
        Ok(Step::Continue)
    }

    fn op_storeglobal(&mut self, op: u8) -> (res: Result<Step, VmError>)
        requires
            op == Code::STOREGLOBAL,
            var_safe(op, old(self).state),
        ensures
            var_post(op, old(self).state, final(self).state, res),
            final(self).state.memory.wf(),
            res matches Err(e) ==> e.ip == final(self).state.current_instruction,
    {
        let index = self.state.next_u32();
        match self.pop_raw() {
            Some(item) => {
                proof {
                    let st = old(self).state.memory.stack@;
                    assert(popped(st, 1) =~= st.drop_last());
                }
                self.state.memory.stack.set(index as usize, item);
                Ok(Step::Continue)
            },
            None => {
                assert(self.state.memory.stack@ =~= old(self).state.memory.stack@);
                Err(self.error(ErrorKind::StackEmpty(op)))
            },
        }
    }

    fn op_pop(&mut self, op: u8) -> (res: Result<Step, VmError>)
        requires
            op == Code::POP,
            var_safe(op, old(self).state),
        ensures
            var_post(op, old(self).state, final(self).state, res),
            final(self).state.memory.wf(),
            res matches Err(e) ==> e.ip == final(self).state.current_instruction,
    {
        self.state.memory.pop();
        proof {
            let st = old(self).state.memory.stack@;
            assert(popped(st, 1) =~= (if st.len() == 0 { st } else { st.drop_last() }));
        }
        Ok(Step::Continue)
    }

    fn op_assign(&mut self, op: u8) -> (res: Result<Step, VmError>)
        requires
            op == Code::ASSIGN,
            var_safe(op, old(self).state),
        ensures
            var_post(op, old(self).state, final(self).state, res),
            final(self).state.memory.wf(),
            res matches Err(e) ==> e.ip == final(self).state.current_instruction,
    {
        let (destination, value) = self.pop_two();
        match (destination, value) {
            (Some(VmData::Int(index)), Some(value)) => {
                let target = self.state.offset + index as usize;
                self.state.memory.store(target, value);
                Ok(Step::Continue)
            },
            (Some(dest), Some(_)) => Err(self.error(ErrorKind::AssignDestination(dest))),
            _ => Err(self.error(ErrorKind::NotEnoughValues(op))),
        }
    }

    fn op_native(&mut self, op: u8) -> (res: Result<Step, VmError>)
        requires
            op == Code::NATIVE,
            var_safe(op, old(self).state),
        ensures
            var_post(op, old(self).state, final(self).state, res),
            final(self).state.memory.wf(),
            res matches Err(e) ==> e.ip == final(self).state.current_instruction,
    {
        let native_ip = self.state.current_instruction;
        let index = self.state.next_u64();
        Ok(Step::Native { index, ip: native_ip })
    }

    /// The pointer and captured values of a live closure.
    fn closure_parts(&self, index: usize) -> (res: Option<(usize, Vec<VmData>)>)
        ensures
            match closure_at(self.state.memory.heap@, index as int) {
                Some((p, env)) => res matches Some((q, e)) && q == p && e@ == env,
                None => res is None,
            },
    {
        match self.state.memory.ref_from_heap(index) {
            Some(object) => object.as_closure(),
            None => None,
        }
    }

    /// `CALL`, `DIRECTCALL`.
    fn op_call(&mut self, op: u8) -> (res: Result<Step, VmError>)
        requires
            op == Code::CALL || op == Code::DIRECTCALL,
            call_safe(op, old(self).state),
        ensures
            call_post(op, old(self).state, final(self).state, res),
            old(self).state.memory.wf() ==> final(self).state.memory.wf(),
            res matches Err(e) ==> e.ip == final(self).state.current_instruction,
    {
        proof {
            let h0 = old(self).state.memory.heap@;
            let f0 = old(self).state.memory.free_list@;
            if old(self).state.memory.wf() {
                let st = old(self).state.memory.stack@;
                let callee = if op == Code::DIRECTCALL { st[operand(old(self).state, 4) as int] } else { st.last() };
                match callee {
                    VmData::Object(i) => match closure_at(h0, i as int) {
                        Some((p, env)) => crate::memory::lemma_retain_all_wf(h0, f0, env),
                        None => {},
                    },
                    _ => {},
                }
            }
        }
        if op == Code::DIRECTCALL {
            let _n = self.state.program.len();
            let ret = self.state.current_instruction + 4;
            self.state.callstack.push(CallType::Function(ret));
            let index = self.state.next_u32();
            let callee = self.state.memory.stack[index as usize];
            match callee {
                VmData::Function(target) => {
                    self.state.goto(target);
                    Ok(Step::Continue)
                },
                VmData::Object(i) => {
                    if let Some((target, env)) = self.closure_parts(i) {
                        self.state.memory.push_all(&env);
                        self.state.goto(target);
                    }
                    Ok(Step::Continue)
                },
                _ => Err(self.error(ErrorKind::NotCallable(op, callee))),
            }
        } else {
            let ip = self.state.current_instruction;
            match self.pop_raw() {
                Some(VmData::Object(i)) => {
                    if let Some((target, env)) = self.closure_parts(i) {
                        self.state.memory.push_all(&env);
                        self.state.callstack.push(CallType::Closure { target: ip, closure: i });
                        self.state.goto(target);
                    }
                    Ok(Step::Continue)
                },
                Some(VmData::Function(target)) => {
                    self.state.callstack.push(CallType::Function(ip));
                    self.state.goto(target);
                    Ok(Step::Continue)
                },
                Some(a) => Err(self.error(ErrorKind::NotCallable(op, a))),
                None => Err(self.error(ErrorKind::StackEmpty(op))),
            }
        }
    }

    /// Pops `n` values; they come back in stack order (deepest first).
    /// With fewer than `n` values on the stack, pops them all and returns `None`.
    fn pop_many(&mut self, n: u64) -> (res: Option<Vec<VmData>>)
        ensures
            same_except_stack(final(self).state, old(self).state),
            final(self).state.current_instruction == old(self).state.current_instruction,
            ({
                let st = old(self).state.memory.stack@;
                if n <= st.len() {
                    &&& res matches Some(v) && v@ == st.subrange(st.len() - n, st.len() as int)
                    &&& final(self).state.memory.stack@ == st.subrange(0, st.len() - n)
                } else {
                    res is None && final(self).state.memory.stack@.len() == 0
                }
            }),
    {
        let ghost st = self.state.memory.stack@;
        let mut out: Vec<VmData> = Vec::new();
        let mut i: u64 = 0;
        while i < n
            invariant
                i <= n,
                i <= st.len(),
                st == old(self).state.memory.stack@,
                same_except_stack(self.state, old(self).state),
                self.state.current_instruction == old(self).state.current_instruction,
                self.state.memory.stack@ == st.subrange(0, st.len() - i),
                out@.len() == i,
                forall|k: int| 0 <= k < i ==> #[trigger] out@[k] == st[st.len() - 1 - k],
            decreases n - i,
        {
            match self.pop_raw() {
                Some(v) => {
                    out.push(v);
                    proof {
                        assert(self.state.memory.stack@ =~= st.subrange(0, st.len() - (i + 1)));
                    }
                },
                None => {
                    proof {
                        assert(st.len() - i == 0);
                        assert(self.state.memory.stack@.len() == 0);
                        assert(!(n <= st.len()));
                        assert(st == old(self).state.memory.stack@);
                    }
                    return None;
                },
            }
            i += 1;
        }
        // restore stack order
        let mut res: Vec<VmData> = Vec::new();
        let mut j: usize = out.len();
        while j > 0
            invariant
                j <= out@.len(),
                out@.len() == n,
                n <= st.len(),
                st == old(self).state.memory.stack@,
                same_except_stack(self.state, old(self).state),
                self.state.current_instruction == old(self).state.current_instruction,
                self.state.memory.stack@ == st.subrange(0, st.len() - n),
                forall|k: int| 0 <= k < n ==> #[trigger] out@[k] == st[st.len() - 1 - k],
                res@.len() == out@.len() - j,
                forall|k: int| 0 <= k < res@.len() ==> #[trigger] res@[k] == st[st.len() - n + k],
            decreases j,
        {
            j -= 1;
            res.push(out[j]);
        }
        proof {
            assert(res@ =~= st.subrange(st.len() - n, st.len() as int));
        }
        Some(res)
    }

    /// `NEWLIST`, `CLOSURE`.
    fn op_gather(&mut self, op: u8) -> (res: Result<Step, VmError>)
        requires
            op == Code::NEWLIST || op == Code::CLOSURE,
            gather_safe(op, old(self).state),
        ensures
            gather_post(op, old(self).state, final(self).state, res),
            final(self).state.memory.wf(),
            res matches Err(e) ==> e.ip == final(self).state.current_instruction,
    {
        let ghost s0 = self.state;
        let _n = self.state.program.len();
        let n: u64 = if op == Code::NEWLIST {
            self.state.next_u64()
        } else {
            match self.pop_raw() {
                Some(VmData::Int(size)) => if size > 0 { size as u64 } else { 0 },
                _ => {
                    return Err(self.error(ErrorKind::ClosureSize));
                },
            }
        };
        let ghost s_mid = self.state;
        let vals = match self.pop_many(n) {
            Some(v) => v,
            None => {
                return Err(self.error(ErrorKind::NotEnoughValues(op)));
            },
        };
        self.state.memory.gc_inhibit();
        let object = if op == Code::NEWLIST {
            crate::value::Object::list(vals)
        } else {
            let target = self.state.current_instruction + 4;
            crate::value::Object::closure(target, vals)
        };
        let idx = self.state.memory.allocate(object);
        self.push_raw(VmData::Object(idx));
        self.state.memory.gc_release();
        if op == Code::CLOSURE {
            let jump = self.state.next_u32();
            self.state.current_instruction = self.state.current_instruction + jump as usize;
        }
        Ok(Step::Continue)
    }

    /// `LEN`.
    fn op_len(&mut self) -> (res: Result<Step, VmError>)
        requires
            old(self).state.memory.wf(),
        ensures
            len_post(old(self).state, final(self).state, res),
            final(self).state.memory.wf(),
            res matches Err(e) ==> e.ip == final(self).state.current_instruction,
    {
        match self.pop_raw() {
            Some(VmData::Object(index)) => {
                let len = match self.state.memory.ref_from_heap(index) {
                    Some(obj) => obj.data.len() as i64,
                    None => {
                        return Err(self.error(ErrorKind::FreedObject(Code::LEN)));
                    },
                };
                self.state.memory.dec(index);
                self.push_raw(VmData::Int(len));
                Ok(Step::Continue)
            },
            Some(other) => Err(self.error(ErrorKind::LenOperand(other))),
            None => Err(self.error(ErrorKind::StackEmpty(Code::LEN))),
        }
    }

    /// `LINDEX`.
    fn op_lindex(&mut self) -> (res: Result<Step, VmError>)
        requires
            lindex_safe(old(self).state),
        ensures
            lindex_post(old(self).state, final(self).state, res),
            final(self).state.memory.wf(),
            res matches Err(e) ==> e.ip == final(self).state.current_instruction,
    {
        let (array, index) = self.pop_two();
        match (array, index) {
            (Some(VmData::Object(object)), Some(VmData::Int(index))) => {
                let item = match self.state.memory.ref_from_heap(object) {
                    Some(heap_object) => match resolve(index, heap_object.data.len()) {
                        Some(r) => heap_object.data[r],
                        None => {
                            let kind = ErrorKind::IndexOutOfBounds(Code::LINDEX, index, heap_object.data.len() as i64, kind_code(&heap_object.object_type));
                            return Err(self.error(kind));
                        },
                    },
                    None => {
                        return Err(self.error(ErrorKind::FreedObject(Code::LINDEX)));
                    },
                };
                self.state.memory.push(item);
                proof {
                    crate::memory::lemma_retain_wf(old(self).state.memory.heap@, old(self).state.memory.free_list@, item);
                }
                self.state.memory.dec(object);
                Ok(Step::Continue)
            },
            (Some(a), Some(b)) => Err(self.error(ErrorKind::IndexOperands(a, b))),
            _ => Err(self.error(ErrorKind::NotEnoughValues(Code::LINDEX))),
        }
    }

    /// `CONCAT`.
    fn op_concat(&mut self) -> (res: Result<Step, VmError>)
        requires
            old(self).state.memory.wf(),
            old(self).state.memory.alloc_room(),
        ensures
            concat_post(old(self).state, final(self).state, res),
            final(self).state.memory.wf(),
            res matches Err(e) ==> e.ip == final(self).state.current_instruction,
    {
        let (a, b) = self.pop_two();
        match (a, b) {
            (Some(VmData::Object(right)), Some(VmData::Object(left))) => {
                self.state.memory.gc_inhibit();
                let (kind, data) = {
                    let object1 = match self.state.memory.ref_from_heap(left) {
                        Some(o) => o,
                        None => {
                            return Err(self.error(ErrorKind::ConcatFreed(true)));
                        },
                    };
                    let object2 = match self.state.memory.ref_from_heap(right) {
                        Some(o) => o,
                        None => {
                            return Err(self.error(ErrorKind::ConcatFreed(false)));
                        },
                    };
                    (object1.object_type.duplicate(), crate::value::concat_data(&object1.data, &object2.data))
                };
                let ghost h0 = self.state.memory.heap@;
                let ghost f0 = self.state.memory.free_list@;
                let new_object = crate::value::Object::new(kind, data);
                let result = self.state.memory.allocate(new_object);
                let ghost ha = self.state.memory.heap@;
                let ghost fa = self.state.memory.free_list@;
                assert(fresh_object(h0, f0, ha, fa, result, old(self).state.memory.heap@[left as int]->0.object.object_type@,
                    obj_at(h0, left as int).data@ + obj_at(h0, right as int).data@));
                self.state.memory.dec(right);
                self.state.memory.dec(left);
                self.push_raw(VmData::Object(result));
                self.state.memory.gc_release();
                proof {
                    let kd = obj_at(h0, left as int).object_type@;
                    let dt = obj_at(h0, left as int).data@ + obj_at(h0, right as int).data@;
                    assert(fresh_object(h0, f0, ha, fa, next_slot(h0, f0), kd, dt));
                    assert((self.state.memory.heap@, self.state.memory.free_list@) == crate::memory::release(
                        crate::memory::release(ha, fa, seq![right]).0,
                        crate::memory::release(ha, fa, seq![right]).1,
                        seq![left],
                    ));
                }
                Ok(Step::Continue)
            },
            _ => Err(self.error(ErrorKind::ConcatOperands)),
        }
    }

    /// `STRING`.
    fn op_string(&mut self) -> (res: Result<Step, VmError>)
        requires
            string_safe(old(self).state),
        ensures
            string_post(old(self).state, final(self).state, res),
            final(self).state.memory.wf(),
            final(self).state.memory.base_threshold <= usize::MAX / 4,
            res matches Err(e) ==> e.ip == final(self).state.current_instruction,
    {
        let _n = self.state.program.len();
        let size = self.state.next_u64();
        let bytes = self.state.next_arr(size as usize);
        assert(bytes@ == string_bytes(old(self).state));
        assert(self.state.memory == old(self).state.memory);
        match crate::text::utf8_decode(bytes) {
            Some(text) => {
                let ghost chars = text@;
                let ghost m0 = self.state.memory;
                self.state.memory.push_string(text);
                proof {
                    let d = obj_at(self.state.memory.heap@, m0.alloc_slot() as int).data@;
                    assert forall|i: int| 0 <= i < chars.len() implies #[trigger] d[i] == VmData::Char(chars[i]) by {
                        assert(self.state.memory.heap@[m0.alloc_slot() as int]->0.object.data@[i] == VmData::Char(chars[i]));
                    }
                }
                Ok(Step::Continue)
            },
            None => Err(self.error(ErrorKind::InvalidUtf8)),
        }
    }

    /// Reads the name held by the string object in slot `idx` (empty when
    /// there is none) and releases that reference.
    fn take_name(&mut self, idx: usize) -> (res: String)
        requires
            old(self).state.memory.wf(),
        ensures
            res@ == name_at(old(self).state.memory.heap@, idx as int),
            final(self).state.memory.wf(),
            (final(self).state.memory.heap@, final(self).state.memory.free_list@) == crate::memory::release(
                old(self).state.memory.heap@, old(self).state.memory.free_list@, seq![idx]),
            final(self).state.memory.heap@.len() == old(self).state.memory.heap@.len(),
            final(self).state.memory.stack == old(self).state.memory.stack,
            same_except_heap(final(self).state, old(self).state),
            final(self).state.current_instruction == old(self).state.current_instruction,
    {
        let name = match self.state.memory.ref_from_heap(idx) {
            Some(o) => match o.as_string() {
                Some(text) => text,
                None => String::new(),
            },
            None => String::new(),
        };
        self.state.memory.dec(idx);
        name
    }

    /// `GETF`.
    fn op_getf(&mut self) -> (res: Result<Step, VmError>)
        requires
            old(self).state.memory.wf(),
            crate::memory::counts_below(old(self).state.memory.heap@, 1),
        ensures
            getf_post(old(self).state, final(self).state, res),
            final(self).state.memory.wf(),
            res matches Err(e) ==> e.ip == final(self).state.current_instruction,
    {
        let (field_name_val, object_val) = self.pop_two();
        match (field_name_val, object_val) {
            (Some(VmData::Object(ni)), Some(ov)) => {
                let ghost h0 = self.state.memory.heap@;
                let ghost f0 = self.state.memory.free_list@;
                let field_name = self.take_name(ni);
                proof {
                    crate::memory::lemma_release_counts(h0, f0, seq![ni], 1);
                }
                match ov {
                    VmData::Object(oi) => {
                        let found = match self.state.memory.ref_from_heap(oi) {
                            Some(heap_obj) => heap_obj.get(field_name.as_str()),
                            None => {
                                return Err(self.error(ErrorKind::FreedObject(Code::GETF)));
                            },
                        };
                        match found {
                            Some(value) => {
                                proof {
                                    crate::memory::lemma_retain_counts(self.state.memory.heap@, value, 0);
                                }
                                self.state.memory.push(value);
                                proof {
                                    crate::memory::lemma_retain_wf(self.state.memory.heap@, self.state.memory.free_list@, value);
                                }
                                self.state.memory.dec(oi);
                                Ok(Step::Continue)
                            },
                            None => Err(VmError {
                                kind: ErrorKind::FieldNotFound(Code::GETF),
                                ip: self.state.current_instruction,
                                name: Some(field_name),
                            }),
                        }
                    },
                    _ => Err(self.error(ErrorKind::ExpectedObject(Code::GETF))),
                }
            },
            (Some(_), Some(_)) => Err(self.error(ErrorKind::FieldNameNotString(Code::GETF))),
            _ => Err(self.error(ErrorKind::NotEnoughValues(Code::GETF))),
        }
    }

    /// `PINF`.
    fn op_pinf(&mut self) -> (res: Result<Step, VmError>)
        requires
            pinf_safe(old(self).state),
        ensures
            pinf_post(old(self).state, final(self).state, res),
            final(self).state.memory.wf(),
            res matches Err(e) ==> e.ip == final(self).state.current_instruction,
    {
        let ghost st = self.state.memory.stack@;
        let (object_val, field_name_val) = self.pop_two();
        let value = self.pop_raw();
        proof {
            lemma_popped(st, 2, 1);
            assert(top_k(popped(st, 2), 0) == (if 2 <= st.len() { top_k(st, 2) } else { None::<VmData> }));
        }
        match (object_val, field_name_val, value) {
            (Some(ov), Some(VmData::Object(ni)), Some(value)) => {
                let ghost h0 = self.state.memory.heap@;
                let ghost f0 = self.state.memory.free_list@;
                let field_name = self.take_name(ni);
                match ov {
                    VmData::Object(oi) => {
                        let field_idx = match self.state.memory.ref_from_heap(oi) {
                            Some(heap_obj) => match heap_obj.find_field(field_name.as_str()) {
                                Some(p) => Some(heap_obj.table[p].1),
                                None => None,
                            },
                            None => None,
                        };
                        match field_idx {
                            Some(k) => {
                                let old_value = match self.state.memory.ref_from_heap(oi) {
                                    Some(heap_obj) => heap_obj.data[k],
                                    None => VmData::Nil,
                                };
                                let ghost h1 = self.state.memory.heap@;
                                let ghost f1 = self.state.memory.free_list@;
                                self.state.memory.set_element(oi, k, value);
                                let ghost h2 = self.state.memory.heap@;
                                self.state.memory.dec_value(old_value);
                                let ghost h3 = self.state.memory.heap@;
                                let ghost f3 = self.state.memory.free_list@;
                                self.state.memory.dec(oi);
                                proof {
                                    assert(element_set(h1, h2, oi as int, k as int, value));
                                    assert((h3, f3) == crate::memory::release_value(h2, f1, old_value));
                                }
                                Ok(Step::Continue)
                            },
                            None => Err(VmError {
                                kind: ErrorKind::FieldNotFound(Code::PINF),
                                ip: self.state.current_instruction,
                                name: Some(field_name),
                            }),
                        }
                    },
                    _ => Err(self.error(ErrorKind::ExpectedObject(Code::PINF))),
                }
            },
            (Some(_), Some(_), Some(_)) => Err(self.error(ErrorKind::FieldNameNotString(Code::PINF))),
            _ => Err(self.error(ErrorKind::NotEnoughValues(Code::PINF))),
        }
    }

    /// Pops the top value and reads it as a name: a string object's text,
    /// releasing that reference; any other value (or none) gives an empty name.
    fn pop_name(&mut self) -> (res: String)
        requires
            old(self).state.memory.wf(),
        ensures
            ({
                let h0 = old(self).state.memory.heap@;
                let f0 = old(self).state.memory.free_list@;
                match top_k(old(self).state.memory.stack@, 0) {
                    Some(VmData::Object(i)) => res@ == name_at(h0, i as int)
                        && (final(self).state.memory.heap@, final(self).state.memory.free_list@) == crate::memory::release(h0, f0, seq![i]),
                    _ => res@ == Seq::<char>::empty() && final(self).state.memory.heap == old(self).state.memory.heap
                        && final(self).state.memory.free_list == old(self).state.memory.free_list,
                }
            }),
            final(self).state.memory.stack@ == popped(old(self).state.memory.stack@, 1),
            final(self).state.memory.wf(),
            final(self).state.memory.heap@.len() == old(self).state.memory.heap@.len(),
            same_except_heap(final(self).state, old(self).state),
            final(self).state.current_instruction == old(self).state.current_instruction,
    {
        match self.pop_raw() {
            Some(VmData::Object(idx)) => self.take_name(idx),
            _ => String::new(),
        }
    }

    /// Pops up to `n` values; they come back in stack order (deepest first).
    fn pop_up_to(&mut self, n: u64) -> (res: Vec<VmData>)
        ensures
            same_except_stack(final(self).state, old(self).state),
            final(self).state.current_instruction == old(self).state.current_instruction,
            ({
                let st = old(self).state.memory.stack@;
                let m: int = if n <= st.len() { n as int } else { st.len() as int };
                &&& res@ == st.subrange(st.len() - m, st.len() as int)
                &&& final(self).state.memory.stack@ == st.subrange(0, st.len() - m)
            }),
    {
        let ghost st = self.state.memory.stack@;
        let mut out: Vec<VmData> = Vec::new();
        let mut i: u64 = 0;
        while i < n && self.state.memory.stack.len() > 0
            invariant
                i <= n,
                i <= st.len(),
                st == old(self).state.memory.stack@,
                same_except_stack(self.state, old(self).state),
                self.state.current_instruction == old(self).state.current_instruction,
                self.state.memory.stack@ == st.subrange(0, st.len() - i),
                out@.len() == i,
                forall|k: int| 0 <= k < i ==> #[trigger] out@[k] == st[st.len() - 1 - k],
            decreases n - i,
        {
            let v = self.pop_raw().unwrap();
            out.push(v);
            i += 1;
            assert(self.state.memory.stack@ =~= st.subrange(0, st.len() - i));
        }
        let ghost m: int = i as int;
        assert(m == (if n <= st.len() { n as int } else { st.len() as int }));
        let mut res: Vec<VmData> = Vec::new();
        let mut j: usize = out.len();
        while j > 0
            invariant
                j <= out@.len(),
                out@.len() == m,
                0 <= m <= st.len(),
                forall|k: int| 0 <= k < m ==> #[trigger] out@[k] == st[st.len() - 1 - k],
                res@.len() == out@.len() - j,
                forall|k: int| 0 <= k < res@.len() ==> #[trigger] res@[k] == st[st.len() - m + k],
            decreases j,
        {
            j -= 1;
            res.push(out[j]);
        }
        assert(res@ =~= st.subrange(st.len() - m, st.len() as int));
        res
    }

    /// `NEWSTRUCT`.
    fn op_newstruct(&mut self) -> (res: Result<Step, VmError>)
        requires
            newstruct_safe(old(self).state),
        ensures
            newstruct_post(old(self).state, final(self).state, res),
            final(self).state.memory.wf(),
    {
        let ghost s0 = self.state;
        let ghost st = s0.memory.stack@;
        let ghost h0 = s0.memory.heap@;
        let ghost f0 = s0.memory.free_list@;
        let _len = self.state.program.len();
        let n = self.state.next_u64();
        let ghost vals = Seq::new((n + 1) as nat, |k: int| top_k(st, k as nat));
        proof {
            lemma_popped(st, 0, 0);
            assert(popped(st, 0) =~= st);
            lemma_take_names_step(h0, f0, vals);
            assert(vals.drop_first() =~= vals.subrange(1, n + 1));
        }
        let struct_name = self.pop_name();
        let mut fnames: Vec<String> = Vec::new();
        let mut k: u64 = 0;
        while k < n
            invariant
                k <= n,
                n as int == operand(s0, 8),
                vals == Seq::new((n + 1) as nat, |k: int| top_k(st, k as nat)),
                self.state.memory.wf(),
                self.state.memory.heap@.len() == h0.len(),
                self.state.memory.stack@ == popped(st, (k + 1) as nat),
                same_except_heap(self.state, s0),
                self.state.current_instruction == s0.current_instruction + 8,
                fnames@.len() == k,
                take_names(h0, f0, vals) == ({
                    let r = take_names(self.state.memory.heap@, self.state.memory.free_list@, vals.subrange(k + 1, n + 1));
                    (r.0, r.1, seq![struct_name@] + fnames@.map_values(|x: String| x@) + r.2)
                }),
            decreases n - k,
        {
            let ghost hk = self.state.memory.heap@;
            let ghost fk = self.state.memory.free_list@;
            let ghost fv = fnames@;
            proof {
                lemma_popped(st, (k + 1) as nat, 0);
                let rest = vals.subrange(k + 1, n + 1);
                lemma_take_names_step(hk, fk, rest);
                assert(rest.drop_first() =~= vals.subrange(k + 2, n + 1));
                assert(rest[0] == top_k(st, (k + 1) as nat));
            }
            let name = self.pop_name();
            fnames.push(name);
            proof {
                lemma_popped(st, (k + 1) as nat, 1);
                assert(fnames@.map_values(|x: String| x@) =~= fv.map_values(|x: String| x@).push(name@));
                let r = take_names(self.state.memory.heap@, self.state.memory.free_list@, vals.subrange(k + 2, n + 1));
                assert(seq![struct_name@] + fv.map_values(|x: String| x@) + (seq![name@] + r.2)
                    =~= seq![struct_name@] + fnames@.map_values(|x: String| x@) + r.2);
            }
            k += 1;
        }
        let ghost h1 = self.state.memory.heap@;
        let ghost f1 = self.state.memory.free_list@;
        let ghost all = take_names(h0, f0, vals).2;
        let ghost fields = all.drop_first().reverse();
        proof {
            assert(vals.subrange(n + 1, n + 1) =~= Seq::<Option<VmData>>::empty());
            assert(all =~= seq![struct_name@] + fnames@.map_values(|x: String| x@));
            assert(all.drop_first() =~= fnames@.map_values(|x: String| x@));
        }
        // the table: each field name to its position, the last of a name winning
        let mut table: Vec<(String, usize)> = Vec::new();
        let mut i: usize = 0;
        let ghost fv0 = fnames@;
        let total = fnames.len();
        while fnames.len() > 0
            invariant
                fv0.len() == n,
                total == n,
                fields == fv0.map_values(|x: String| x@).reverse(),
                i <= n,
                fnames@ == fv0.subrange(0, n - i),
                crate::value::keys_distinct(table@),
                forall|key: Seq<char>| #[trigger] crate::value::table_lookup(table@, key) == last_pos(fields.subrange(0, i as int), key),
            decreases fnames@.len(),
        {
            let ghost fsub = fields.subrange(0, i as int);
            let name = fnames.pop().unwrap();
            proof {
                assert(name@ == fields[i as int]);
                assert(fields.subrange(0, i + 1) =~= fsub.push(name@));
                assert forall|key: Seq<char>| true implies last_pos(fields.subrange(0, i + 1), key)
                    == (if name@ == key { Some(i) } else { last_pos(fsub, key) }) by {
                    lemma_last_pos_push(fsub, name@, key);
                }
            }
            crate::value::table_set(&mut table, name, i);
            i += 1;
            assert(fnames@ =~= fv0.subrange(0, n - i));
        }
        assert(fields.subrange(0, n as int) =~= fields);
        let values0 = self.pop_up_to(n);
        let m = values0.len();
        proof {
            let below = popped(st, (n + 1) as nat);
            assert(self.state.memory.stack@ =~= popped(st, (2 * n + 1) as nat));
        }
        let type_key = "type".to_owned();
        crate::value::table_set(&mut table, type_key, m);
        self.state.memory.gc_inhibit();
        let name_copy = struct_name.clone();
        assert(name_copy@ == struct_name@);
        let label = crate::value::Object::string(name_copy);
        let ghost label_data = label.data@;
        let a1 = self.state.memory.allocate(label);
        let ghost ha = self.state.memory.heap@;
        let ghost fa = self.state.memory.free_list@;
        proof {
            assert(obj_at(ha, a1 as int).data@ == label_data);
            assert(fresh_object(h1, f1, ha, fa, a1, crate::value::KindView::String, label_data));
            assert(crate::value::holds_chars(label_data, struct_name@));
        }
        let mut values = values0;
        values.push(VmData::Object(a1));
        let object = crate::value::Object {
            object_type: crate::value::ObjectType::Struct(struct_name),
            table,
            data: values,
        };
        let a2 = self.state.memory.allocate(object);
        self.push_raw(VmData::Object(a2));
        self.state.memory.gc_release();
        proof {
            assert(fresh_struct(ha, fa, self.state.memory.heap@, self.state.memory.free_list@, a2, all[0], fields,
                m, values0@.push(VmData::Object(a1))));
        }
        Ok(Step::Continue)
    }

    /// The printed form of a value (`printed`).
    fn print_value(&self, v: VmData, debug: bool) -> (res: Vec<Piece>)
        requires
            v matches VmData::Object(l) ==> printable(self.state.memory.heap@, l as int, 0),
            v matches VmData::StackAddress(l) ==> printable(self.state.memory.heap@, l as int, 0),
        ensures
            pieces_view(res@) == printed(self.state.memory.heap@, v, debug),
    {
        match v {
            VmData::Object(l) => self.state.memory.print_heap_object(l, 0),
            VmData::StackAddress(l) => self.state.memory.print_heap_object(l, 0),
            VmData::Function(f) => {
                let mut out: Vec<Piece> = Vec::new();
                proof {
                    assert(pieces_view(out@) =~= Seq::<PieceView>::empty());
                }
                add_str(&mut out, if debug { "<fn:" } else { "<function: " });
                add_text(&mut out, nat_digits(f as u64));
                add_str(&mut out, ">");
                out
            },
            _ => v.show(),
        }
    }

    /// `PRINT` (`debug`: as the debugger steps it).
    fn op_print(&mut self, debug: bool) -> (res: Result<Step, VmError>)
        requires
            print_safe(old(self).state),
        ensures
            print_post(old(self).state, final(self).state, res, debug),
            final(self).state.memory.wf(),
            res matches Err(e) ==> e.ip == final(self).state.current_instruction,
    {
        match self.pop_raw() {
            Some(item) => {
                let pieces = self.print_value(item, debug);
                self.state.memory.dec_value(item);
                Ok(Step::Print(pieces))
            },
            None => {
                if debug {
                    let mut out: Vec<Piece> = Vec::new();
                    proof {
                        assert(pieces_view(out@) =~= Seq::<PieceView>::empty());
                    }
                    add_str(&mut out, "(empty)");
                    Ok(Step::Print(out))
                } else {
                    Err(self.error(ErrorKind::StackEmpty(Code::PRINT)))
                }
            },
        }
    }

    /// `EQUALS`.
    fn op_equals(&mut self) -> (res: Result<Step, VmError>)
        requires
            old(self).state.memory.heap@.len() < usize::MAX,
        ensures
            equals_post(old(self).state, final(self).state, res),
            res matches Err(e) ==> e.ip == final(self).state.current_instruction,
    {
        let (a, b) = self.pop_two();
        match (a, b) {
            (Some(v1), Some(v2)) => {
                let fuel = self.state.memory.heap.len() + 1;
                let equal = self.state.memory.deep_equal(&v1, &v2, fuel);
                self.push_raw(VmData::Bool(equal));
                Ok(Step::Continue)
            },
            _ => Err(self.error(ErrorKind::NotEnoughValues(Code::EQUALS))),
        }
    }

    /// `CLONE`.
    fn op_clone(&mut self) -> (res: Result<Step, VmError>)
        requires
            machine_ok(old(self).state),
        ensures
            clone_post(old(self).state, final(self).state, res),
            final(self).state.memory.wf(),
            final(self).state.memory.base_threshold <= usize::MAX / 4,
    {
        self.state.memory.clone_top();
        Ok(Step::Continue)
    }

    /// Runs one instruction other than `RET`, `ERROR` and `EXIT`, whose
    /// opcode has been read.
    pub fn dispatch(&mut self, instruction: u8) -> (res: Result<Step, VmError>)
        requires
            dispatch_safe(instruction, old(self).state),
        ensures
            dispatch_post(instruction, old(self).state, final(self).state, res),
            final(self).state.memory.wf(),
            final(self).state.memory.base_threshold <= usize::MAX / 4,
            res matches Err(e) ==> e.ip == final(self).state.current_instruction,
    {
        let op = instruction;
        if op == Code::IADD || op == Code::ISUB || op == Code::IMUL || op == Code::IDIV {
            self.op_int_arith(op)
        } else if op == Code::ILSS || op == Code::IGTR {
            self.op_int_cmp(op)
        } else if op == Code::FLSS || op == Code::FGTR {
            self.op_float_cmp(op)
        } else if op == Code::FADD || op == Code::FSUB || op == Code::FMUL || op == Code::FDIV {
            self.op_float_arith(op)
        } else if op == Code::IMODULO {
            self.op_modulo()
        } else if op == Code::AND || op == Code::OR {
            self.op_logic(op)
        } else if op == Code::ISSOME || op == Code::UNWRAP || op == Code::DUP || op == Code::TRUE
            || op == Code::FALSE || op == Code::NONE || op == Code::NOT || op == Code::NEG {
            self.op_simple(op)
        } else if op == Code::INTEGER || op == Code::FLOAT || op == Code::CHAR || op == Code::JMP
            || op == Code::BJMP || op == Code::FUNCTION || op == Code::JUMPIFFALSE {
            self.op_jump(op)
        } else if op == Code::ALLOCATEGLOBAL || op == Code::ALLOCLOCALS || op == Code::OFFSET {
            self.op_frame(op)
        } else if op == Code::GET || op == Code::GETGLOBAL {
            self.op_get(op)
        } else if op == Code::STORE {
            self.op_store(op)
        } else if op == Code::STOREGLOBAL {
            self.op_storeglobal(op)
        } else if op == Code::POP {
            self.op_pop(op)
        } else if op == Code::ASSIGN {
            self.op_assign(op)
        } else if op == Code::NATIVE {
            self.op_native(op)
        } else if op == Code::CALL || op == Code::DIRECTCALL {
            self.op_call(op)
        } else if op == Code::NEWLIST || op == Code::CLOSURE {
            self.op_gather(op)
        } else if op == Code::LEN {
            self.op_len()
        } else if op == Code::LINDEX {
            self.op_lindex()
        } else if op == Code::PINDEX {
            self.op_pindex()
        } else if op == Code::CONCAT {
            self.op_concat()
        } else if op == Code::STRING {
            self.op_string()
        } else if op == Code::GETF {
            self.op_getf()
        } else if op == Code::PINF {
            self.op_pinf()
        } else if op == Code::NEWSTRUCT {
            self.op_newstruct()
        } else if op == Code::PRINT {
            self.op_print(false)
        } else if op == Code::EQUALS {
            self.op_equals()
        } else if op == Code::CLONE {
            self.op_clone()
        } else {
            Err(self.error(ErrorKind::UnknownOpcode(op)))
        }
    }

    /// Runs the instruction at the instruction pointer and returns what the
    /// caller must do next.
    pub fn step(&mut self) -> (res: Result<Step, VmError>)
        requires
            step_safe(old(self).state),
        ensures
            step_post(old(self).state, final(self).state, res),
            final(self).state.memory.wf(),
            final(self).state.memory.base_threshold <= usize::MAX / 4,
            res matches Err(e) ==> e.ip == final(self).state.current_instruction,
    {
        let ghost s0 = self.state;
        let op = self.state.next_instruction();
        assert(self.state == advanced(s0, 1));
        if op == Code::RET {
            let flag = self.state.next_instruction();
            assert(self.state == advanced(s0, 2));
            if self.state.callstack.len() == 0 {
                return Ok(Step::Finished);
            }
            let dest = self.state.callstack.pop().unwrap();
            let ghost mid = self.state;
            let r = if flag == 1 {
                self.state.deallocate_registers_with_return()
            } else {
                self.state.deallocate_registers()
            };
            if let Err(e) = r {
                return Err(e);
            }
            match dest {
                CallType::Function(target) => self.state.goto(target),
                CallType::Closure { target, closure } => {
                    self.state.goto(target);
                    self.state.memory.dec(closure);
                },
            }
            Ok(Step::Continue)
        } else if op == Code::ERROR {
            Err(self.error(ErrorKind::ErrorInstruction))
        } else if op == Code::EXIT {
            Ok(Step::Exit)
        } else {
            self.dispatch(op)
        }
    }

    /// Runs one instruction for the debugger.
    pub fn step_one_debug(&mut self) -> (r: StepResult)
        requires
            old(self).state.current_instruction < old(self).state.program@.len() ==> step_safe(old(self).state),
        ensures
            debug_post(old(self).state, final(self).state, r),
            final(self).state.memory.wf() || old(self).state.current_instruction >= old(self).state.program@.len(),
    {
        if self.state.current_instruction >= self.state.program.len() {
            return StepResult::Finished { output: None };
        }
        let opcode = self.state.program[self.state.current_instruction];
        let opname = crate::code::byte_to_string(opcode).to_owned();
        if opcode == Code::PRINT {
            let ghost s0 = self.state;
            let _ = self.state.next_instruction();
            assert(self.state == advanced(s0, 1));
            match self.op_print(true) {
                Ok(Step::Print(p)) => StepResult::Continue { opname, output: Some(p), request: Step::Continue },
                _ => StepResult::Finished { output: None },
            }
        } else {
            match self.step() {
                Ok(Step::Finished) => StepResult::Finished { output: None },
                Ok(Step::Exit) => StepResult::Finished { output: None },
                Ok(request) => StepResult::Continue { opname, output: None, request },
                Err(e) => StepResult::Error(e),
            }
        }
    }

    /// `PINDEX`.
    fn op_pindex(&mut self) -> (res: Result<Step, VmError>)
        requires
            old(self).state.memory.wf(),
        ensures
            pindex_post(old(self).state, final(self).state, res),
            final(self).state.memory.wf(),
            res matches Err(e) ==> e.ip == final(self).state.current_instruction,
    {
        let ghost st = self.state.memory.stack@;
        let (array, index) = self.pop_two();
        let value = self.pop_raw();
        proof {
            lemma_popped(st, 2, 1);
            assert(top_k(popped(st, 2), 0) == (if 2 <= st.len() { top_k(st, 2) } else { None::<VmData> }));
        }
        match (array, index, value) {
            (Some(VmData::Object(object)), Some(VmData::Int(index)), Some(value)) => {
                let (resolved, old_value) = match self.state.memory.ref_from_heap(object) {
                    Some(heap_object) => match resolve(index, heap_object.data.len()) {
                        Some(r) => (r, heap_object.data[r]),
                        None => {
                            let kind = ErrorKind::IndexOutOfBounds(Code::PINDEX, index, heap_object.data.len() as i64, kind_code(&heap_object.object_type));
                            return Err(self.error(kind));
                        },
                    },
                    None => {
                        return Err(self.error(ErrorKind::FreedObject(Code::PINDEX)));
                    },
                };
                let ghost h0 = self.state.memory.heap@;
                let ghost f0 = self.state.memory.free_list@;
                self.state.memory.dec_value(old_value);
                self.state.memory.set_element(object, resolved, value);
                let ghost h2 = self.state.memory.heap@;
                self.state.memory.dec(object);
                proof {
                    let ghost data = obj_at(h0, object as int).data@;
                    let ghost r = resolve_index(index, data.len() as int);
                    let ghost hh = crate::memory::release_value(h0, f0, data[r]).0;
                    let ghost ff = crate::memory::release_value(h0, f0, data[r]).1;
                    assert(element_set(hh, h2, object as int, r, value));
                    assert((self.state.memory.heap@, self.state.memory.free_list@) == crate::memory::release(h2, ff, seq![object]));
                }
                Ok(Step::Continue)
            },
            (Some(a), Some(b), Some(c)) => Err(self.error(ErrorKind::StoreIndexOperands(a, b, c))),
            _ => Err(self.error(ErrorKind::NotEnoughValues(Code::PINDEX))),
        }
    }
}

} // verus!
