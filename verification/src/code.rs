use vstd::prelude::*;

verus! {

/// The instruction set of the virtual machine: one opcode byte, then the
/// instruction's operands in little-endian order.
pub struct Code;

impl Code {
    pub const RET: u8 = 0;
    pub const ERROR: u8 = 1;
    pub const EXIT: u8 = 2;
    pub const ISSOME: u8 = 3;
    pub const UNWRAP: u8 = 4;
    pub const DUP: u8 = 5;
    pub const POP: u8 = 6;
    pub const NATIVE: u8 = 7;
    pub const ALLOCATEGLOBAL: u8 = 8;
    pub const ALLOCLOCALS: u8 = 9;
    pub const OFFSET: u8 = 10;
    pub const INTEGER: u8 = 11;
    pub const STORE: u8 = 12;
    pub const GET: u8 = 13;
    pub const PRINT: u8 = 14;
    pub const FADD: u8 = 15;
    pub const FSUB: u8 = 16;
    pub const FMUL: u8 = 17;
    pub const FDIV: u8 = 18;
    pub const IADD: u8 = 19;
    pub const ISUB: u8 = 20;
    pub const IMUL: u8 = 21;
    pub const IDIV: u8 = 22;
    pub const STOREGLOBAL: u8 = 23;
    pub const FUNCTION: u8 = 24;
    pub const CLOSURE: u8 = 25;
    pub const DIRECTCALL: u8 = 26;
    pub const CALL: u8 = 27;
    pub const ILSS: u8 = 28;
    pub const IGTR: u8 = 29;
    pub const FLSS: u8 = 30;
    pub const FGTR: u8 = 31;
    pub const JMP: u8 = 32;
    pub const BJMP: u8 = 33;
    pub const JUMPIFFALSE: u8 = 34;
    pub const TRUE: u8 = 35;
    pub const FALSE: u8 = 36;
    pub const EQUALS: u8 = 37;
    pub const NOT: u8 = 38;
    pub const AND: u8 = 39;
    pub const OR: u8 = 40;
    pub const NEG: u8 = 41;
    pub const IMODULO: u8 = 42;
    pub const ASSIGN: u8 = 43;
    pub const NEWLIST: u8 = 44;
    pub const FLOAT: u8 = 45;
    pub const GETGLOBAL: u8 = 46;
    pub const STRING: u8 = 47;
    pub const CHAR: u8 = 48;
    pub const CLONE: u8 = 49;
    pub const NONE: u8 = 50;
    pub const LEN: u8 = 51;
    pub const CONCAT: u8 = 52;
    pub const LINDEX: u8 = 53;
    pub const PINDEX: u8 = 54;
    pub const NEWSTRUCT: u8 = 55;
    pub const GETF: u8 = 56;
    pub const PINF: u8 = 57;
    pub const STOREFAST: u8 = 58;
    pub const BYTE: u8 = 59;
    pub const GETBIND: u8 = 60;
    pub const CID: u8 = 61;
    pub const STACKREF: u8 = 62;
}

/// The mnemonic of an opcode byte.
pub open spec fn opcode_name(b: u8) -> &'static str {
    if b == 0 {
        "RET"
    } else if b == 1 {
        "ERROR"
    } else if b == 2 {
        "EXIT"
    } else if b == 3 {
        "ISSOME"
    } else if b == 4 {
        "UNWRAP"
    } else if b == 5 {
        "DUP"
    } else if b == 6 {
        "POP"
    } else if b == 7 {
        "NATIVE"
    } else if b == 8 {
        "ALLOCATEGLOBAL"
    } else if b == 9 {
        "ALLOCLOCALS"
    } else if b == 10 {
        "OFFSET"
    } else if b == 11 {
        "INTEGER"
    } else if b == 12 {
        "STORE"
    } else if b == 13 {
        "GET"
    } else if b == 14 {
        "PRINT"
    } else if b == 15 {
        "FADD"
    } else if b == 16 {
        "FSUB"
    } else if b == 17 {
        "FMUL"
    } else if b == 18 {
        "FDIV"
    } else if b == 19 {
        "IADD"
    } else if b == 20 {
        "ISUB"
    } else if b == 21 {
        "IMUL"
    } else if b == 22 {
        "IDIV"
    } else if b == 23 {
        "STOREGLOBAL"
    } else if b == 24 {
        "FUNCTION"
    } else if b == 25 {
        "CLOSURE"
    } else if b == 26 {
        "DIRECTCALL"
    } else if b == 27 {
        "CALL"
    } else if b == 28 {
        "ILSS"
    } else if b == 29 {
        "IGTR"
    } else if b == 30 {
        "FLSS"
    } else if b == 31 {
        "FGTR"
    } else if b == 32 {
        "JMP"
    } else if b == 33 {
        "BJMP"
    } else if b == 34 {
        "JUMPIFFALSE"
    } else if b == 35 {
        "TRUE"
    } else if b == 36 {
        "FALSE"
    } else if b == 37 {
        "EQUALS"
    } else if b == 38 {
        "NOT"
    } else if b == 39 {
        "AND"
    } else if b == 40 {
        "OR"
    } else if b == 41 {
        "NEG"
    } else if b == 42 {
        "IMODULO"
    } else if b == 43 {
        "ASSIGN"
    } else if b == 44 {
        "NEWLIST"
    } else if b == 45 {
        "FLOAT"
    } else if b == 46 {
        "GETGLOBAL"
    } else if b == 47 {
        "STRING"
    } else if b == 48 {
        "CHAR"
    } else if b == 49 {
        "CLONE"
    } else if b == 50 {
        "NONE"
    } else if b == 51 {
        "LEN"
    } else if b == 52 {
        "CONCAT"
    } else if b == 53 {
        "LINDEX"
    } else if b == 54 {
        "PINDEX"
    } else if b == 55 {
        "NEWSTRUCT"
    } else if b == 56 {
        "GETF"
    } else if b == 57 {
        "PINF"
    } else if b == 58 {
        "STOREFAST"
    } else if b == 59 {
        "BYTE"
    } else if b == 60 {
        "GETBIND"
    } else if b == 61 {
        "CID"
    } else if b == 62 {
        "STACKREF"
    } else {
        "UNKNOWN"
    }
}

/// The mnemonic of an opcode byte.
pub fn byte_to_string(b: u8) -> (res: &'static str)
    ensures
        res == opcode_name(b),
{
    match b {
        0 => "RET",
        1 => "ERROR",
        2 => "EXIT",
        3 => "ISSOME",
        4 => "UNWRAP",
        5 => "DUP",
        6 => "POP",
        7 => "NATIVE",
        8 => "ALLOCATEGLOBAL",
        9 => "ALLOCLOCALS",
        10 => "OFFSET",
        11 => "INTEGER",
        12 => "STORE",
        13 => "GET",
        14 => "PRINT",
        15 => "FADD",
        16 => "FSUB",
        17 => "FMUL",
        18 => "FDIV",
        19 => "IADD",
        20 => "ISUB",
        21 => "IMUL",
        22 => "IDIV",
        23 => "STOREGLOBAL",
        24 => "FUNCTION",
        25 => "CLOSURE",
        26 => "DIRECTCALL",
        27 => "CALL",
        28 => "ILSS",
        29 => "IGTR",
        30 => "FLSS",
        31 => "FGTR",
        32 => "JMP",
        33 => "BJMP",
        34 => "JUMPIFFALSE",
        35 => "TRUE",
        36 => "FALSE",
        37 => "EQUALS",
        38 => "NOT",
        39 => "AND",
        40 => "OR",
        41 => "NEG",
        42 => "IMODULO",
        43 => "ASSIGN",
        44 => "NEWLIST",
        45 => "FLOAT",
        46 => "GETGLOBAL",
        47 => "STRING",
        48 => "CHAR",
        49 => "CLONE",
        50 => "NONE",
        51 => "LEN",
        52 => "CONCAT",
        53 => "LINDEX",
        54 => "PINDEX",
        55 => "NEWSTRUCT",
        56 => "GETF",
        57 => "PINF",
        58 => "STOREFAST",
        59 => "BYTE",
        60 => "GETBIND",
        61 => "CID",
        62 => "STACKREF",
        _ => "UNKNOWN",
    }
}

} // verus!
