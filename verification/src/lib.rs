//! A streaming code generator from WebAssembly to x86-64.
//!
//! A [`session::CodeGenSession`] compiles the functions of a module one after another. For each
//! function it hands out a [`context::Context`], which has a method for every operator. A context
//! keeps track of where each value of the WebAssembly stack is: in a register, on the machine's
//! stack, or known as a constant. Code is generated in one pass, as a list of instructions
//! ([`insn::Insn`]) that an assembler turns into bytes.
//!
//! `state` says what each method does to the generator, `machine` what the instructions do to the
//! machine, and `laws` what follows for the code that is generated.

pub mod arith;
pub mod assembly;
pub mod bits;
pub mod blocks;
pub mod branches;
pub mod calls;
pub mod compare;
pub mod context;
pub mod division;
pub mod float;
pub mod insn;
pub mod labels;
pub mod laws;
pub mod location;
pub mod machine;
pub mod magic;
pub mod memory;
pub mod microwasm;
pub mod module_context;
pub mod ownership;
pub mod registers;
pub mod session;
pub mod shift;
pub mod simulation;
pub mod state;
