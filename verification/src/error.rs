use vstd::prelude::*;

use crate::value::VmData;

verus! {

/// Why the virtual machine stopped with an error.
#[derive(Debug, Clone, Copy, PartialEq, Eq, Structural)]
pub enum ErrorKind {
    /// A frame was released with no enclosing frame left.
    FrameUnderflow,
    /// A value was returned from an empty stack.
    ReturnOnEmptyStack,
    /// A value was returned with no enclosing frame left.
    ReturnFrameUnderflow,
    /// An `ERROR` instruction ran.
    ErrorInstruction,
    /// `UNWRAP` found `None` on top of the stack.
    UnwrapNone,
    /// The instruction needed a value but the stack was empty.
    StackEmpty(u8),
    /// The instruction needed more values than the stack held.
    NotEnoughValues(u8),
    /// Integer arithmetic or comparison found operands that are not two integers.
    ExpectedInts(u8),
    /// Float arithmetic or comparison found operands that are not two floats.
    ExpectedFloats(u8),
    /// Integer arithmetic overflowed.
    Overflow(u8),
    /// Integer division by zero.
    DivisionByZero,
    /// `IGTR` found operands that are not two integers (the values found).
    IntCompareTypes(VmData, VmData),
    /// A value that is not callable was called.
    NotCallable(u8, VmData),
    /// `CLOSURE` found no integer capture count on the stack.
    ClosureSize,
    /// `JUMPIFFALSE` found a value that is not a boolean.
    ExpectedBool(VmData),
    /// `NOT` found a value that is not a boolean.
    NotOperand(VmData),
    /// `AND`/`OR` found values that are not two booleans (the values, left first).
    LogicOperands(u8, VmData, VmData),
    /// `NEG` found a value that is neither an integer nor a float.
    NegOperand(VmData),
    /// `ASSIGN` found a destination that is not an integer.
    AssignDestination(VmData),
    /// `STRING` held bytes that are not UTF-8.
    InvalidUtf8,
    /// `LEN` found a value that is not an object.
    LenOperand(VmData),
    /// An object reference named a free slot.
    FreedObject(u8),
    /// `CONCAT` did not find two objects.
    ConcatOperands,
    /// A `CONCAT` operand names a free slot (`true` for the left operand).
    ConcatFreed(bool),
    /// An index was outside the object: the instruction, the index, the
    /// length, and the object's kind (0 list, 1 tuple, 2 string, 3 other).
    IndexOutOfBounds(u8, i64, i64, u8),
    /// `LINDEX` did not find an object and an integer (the values found).
    IndexOperands(VmData, VmData),
    /// `PINDEX` did not find an object, an integer and a value.
    StoreIndexOperands(VmData, VmData, VmData),
    /// `GETF`/`PINF` found a field name that is not a string.
    FieldNameNotString(u8),
    /// `GETF`/`PINF` found no object to look the field up in.
    ExpectedObject(u8),
    /// The named field does not exist (`GETF` or `PINF`).
    FieldNotFound(u8),
    /// The opcode is not one the machine knows.
    UnknownOpcode(u8),
}

/// An error raised while running bytecode: its kind and the instruction
/// pointer at the time it was raised.
#[derive(Debug)]
pub struct VmError {
    pub kind: ErrorKind,
    pub ip: usize,
    /// The field name involved, for field errors.
    pub name: Option<String>,
}

/// The kind of error a result holds, if it is an error.
pub open spec fn err_kind<T>(r: Result<T, VmError>) -> Option<ErrorKind> {
    match r {
        Ok(_) => None,
        Err(e) => Some(e.kind),
    }
}

} // verus!
