//! Error and halt signals of the virtual machine.
use vstd::prelude::*;

verus! {

/// Every fault the machine can signal, at decode time, at table
/// construction, or while a program runs.
///
/// Decode-time faults: `InvalidSignature` (a section marker is absent or
/// malformed), `TruncatedBytecode` (a record runs past the end of the
/// buffer), `InvalidUtf8` (a text constant holds bytes that are not valid
/// UTF-8), `IllegalOpcode` (an opcode byte with no table entry).
/// Table construction: `DuplicateOpcode`.
/// Run-time faults: `StackOverflow`, `StackUnderflow`, `TypeMismatch`
/// (a non-number where arithmetic or a branch needs a number, or a missing
/// operand), `MissingConstant` (an unknown pool key), `DivisionByZero`
/// (the divisor of DIV or MOD is zero; numbers are integers here, so there
/// is no infinity to produce).
#[derive(Clone, Copy, Debug, PartialEq, Eq, Structural)]
pub enum VmError {
    StackOverflow,
    StackUnderflow,
    TypeMismatch,
    MissingConstant,
    IllegalOpcode,
    TruncatedBytecode,
    InvalidSignature,
    InvalidUtf8,
    DuplicateOpcode,
    DivisionByZero,
}

/// Why a run came to rest without a run-time fault.
///
/// `Halted`: the HLT instruction raised the halt flag.
/// `EndOfProgram`: the program counter ran past the end of the
/// instruction sequence (the normal end of a program).
/// `IllegalOpcode`: a fetched opcode had no table entry; the engine halts
/// and the stack and pool keep the state left by the last executed
/// instruction.
#[derive(Clone, Copy, Debug, PartialEq, Eq, Structural)]
pub enum HaltReason {
    Halted,
    EndOfProgram,
    IllegalOpcode,
}

} // verus!
