//! A minimal stack-based bytecode virtual machine.
//!
//! The crate has two working parts: a binary decoder that turns a raw byte
//! buffer into a structured program (a constant pool and an instruction
//! sequence), and an execution engine that runs that program on an operand
//! stack with a global-variable store.
//!
//! Numeric values are IEEE-754 doubles. The engine itself never performs
//! floating-point arithmetic: every number is carried as its 64-bit pattern,
//! and whenever an instruction needs a floating-point operation (arithmetic,
//! parsing a string as a number, or rendering a number as text) the engine
//! hands the operands to its caller and resumes once the caller supplies the
//! result. The decoder, the stack, the variable store and the dispatch logic
//! are all verified.
use vstd::prelude::*;

pub mod bytecode;
pub mod gc;
pub mod stdlib;
pub mod vm;

verus! {

} // verus!
