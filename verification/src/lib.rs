//! Nova's runtime core: the value model and reference-counted heap of the
//! bytecode virtual machine, its call state, the instruction interpreter,
//! and the generic-type machinery of the type checker.

pub mod clock;
pub mod code;
pub mod deep_clone;
pub mod equality;
pub mod error;
pub mod floatbits;
pub mod laws;
pub mod memory;
pub mod optimizer;
pub mod parser;
pub mod peek;
pub mod show;
pub mod state;
pub mod text;
pub mod ttype;
pub mod typechecker;
pub mod value;
pub mod vm;
