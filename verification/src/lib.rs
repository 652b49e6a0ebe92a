//! A small stack-based virtual machine: a typed value model, a bounded
//! operand stack, a keyed constant pool, an opcode-dispatch instruction
//! table, a binary bytecode decoder, and a fetch-decode-execute engine
//! whose every step is verified against a small-step semantics.

pub mod decode;
pub mod engine;
pub mod errors;
pub mod instruction;
pub mod laws;
pub mod pool;
pub mod stack;
pub mod utf8;
pub mod value;
