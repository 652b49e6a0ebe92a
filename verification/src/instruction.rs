//! The instruction table: an immutable registry mapping an 8-bit opcode
//! to a named instruction, its operand requirement, and its semantics.
use vstd::prelude::*;

use crate::value::OperandSize;

verus! {

/// The width of an opcode: one byte.
pub type OpcodeSize = u8;

/// The semantics an instruction dispatches to, as a closed tagged
/// variant; the engine interprets each tag.
#[derive(Clone, Copy, Debug, PartialEq, Eq, Structural)]
pub enum Op {
    Hlt,
    Push,
    Pop,
    Add,
    Mul,
    Sub,
    Div,
    Mod,
    Brz,
    Brp,
    Bra,
    Dup,
    Pushc,
    Out,
}

/// One row of the instruction table.
#[derive(Clone, Copy, Debug)]
pub struct Instruction {
    pub name: &'static str,
    pub opcode: OpcodeSize,
    pub requires_operand: bool,
    pub op: Op,
}

/// A decoded instruction: an opcode and, where the table asks for one,
/// an operand.
#[derive(Clone, Copy, Debug, PartialEq, Eq)]
pub struct RawInstruction {
    pub opcode: OpcodeSize,
    pub operand: Option<OperandSize>,
}

/// The first table row whose opcode matches, if any; dispatch is this
/// linear lookup.
pub open spec fn spec_lookup(table: Seq<Instruction>, opcode: OpcodeSize) -> Option<Instruction>
    decreases table.len(),
{
    if table.len() == 0 {
        None
    } else if table[0].opcode == opcode {
        Some(table[0])
    } else {
        spec_lookup(table.skip(1), opcode)
    }
}

/// No two table rows share an opcode.
pub open spec fn no_dup_opcodes(table: Seq<Instruction>) -> bool {
    forall|i: int, j: int|
        0 <= i < j < table.len() ==> table[i].opcode != table[j].opcode
}

/// Linear search of the table for an opcode, the executable twin of
/// `spec_lookup`.
pub fn lookup_opcode(table: &Vec<Instruction>, opcode: OpcodeSize) -> (r: Option<&Instruction>)
    ensures
        match r {
            Some(ins) => spec_lookup(table@, opcode) == Some(*ins),
            None => spec_lookup(table@, opcode) is None,
        },
{
    let n = table.len();
    proof {
        assert(table@.skip(0) =~= table@);
    }
    let mut i: usize = 0;
    while i < n
        invariant
            i <= n,
            n == table@.len(),
            spec_lookup(table@, opcode) == spec_lookup(table@.skip(i as int), opcode),
        decreases n - i,
    {
        if table[i].opcode == opcode {
            proof {
                assert(table@.skip(i as int)[0] == table@[i as int]);
            }
            return Some(&table[i]);
        }
        proof {
            assert(table@.skip(i as int).skip(1) =~= table@.skip(i + 1 as int));
        }
        i = i + 1;
    }
    proof {
        assert(table@.skip(n as int).len() == 0);
    }
    None
}

/// Whether the table is free of duplicate opcodes, the executable twin
/// of `no_dup_opcodes`; table construction must reject duplicates.
pub fn check_no_duplicates(table: &Vec<Instruction>) -> (r: bool)
    ensures
        r == no_dup_opcodes(table@),
{
    let n = table.len();
    let mut i: usize = 0;
    while i < n
        invariant
            i <= n,
            n == table@.len(),
            forall|a: int, b: int| 0 <= a < b < table@.len() && a < i ==> table@[a].opcode != table@[b].opcode,
        decreases n - i,
    {
        let mut j: usize = i + 1;
        while j < n
            invariant
                i < j || i + 1 == j,
                i < n,
                i + 1 <= j <= n,
                n == table@.len(),
                forall|b: int| i < b < j ==> table@[i as int].opcode != table@[b].opcode,
            decreases n - j,
        {
            if table[i].opcode == table[j].opcode {
                return false;
            }
            j = j + 1;
        }
        i = i + 1;
    }
    true
}


/// The rows of the default instruction table, in the order the default
/// set registers them.
pub open spec fn default_table() -> Seq<Instruction> {
    seq![
        Instruction { name: "PUSH", opcode: 1, requires_operand: true, op: Op::Push },
        Instruction { name: "POP", opcode: 2, requires_operand: false, op: Op::Pop },
        Instruction { name: "ADD", opcode: 3, requires_operand: false, op: Op::Add },
        Instruction { name: "MUL", opcode: 4, requires_operand: false, op: Op::Mul },
        Instruction { name: "SUB", opcode: 5, requires_operand: false, op: Op::Sub },
        Instruction { name: "DIV", opcode: 6, requires_operand: false, op: Op::Div },
        Instruction { name: "MOD", opcode: 7, requires_operand: false, op: Op::Mod },
        Instruction { name: "BRZ", opcode: 8, requires_operand: true, op: Op::Brz },
        Instruction { name: "BRP", opcode: 9, requires_operand: true, op: Op::Brp },
        Instruction { name: "BRA", opcode: 10, requires_operand: true, op: Op::Bra },
        Instruction { name: "HLT", opcode: 0, requires_operand: false, op: Op::Hlt },
        Instruction { name: "OUT", opcode: 100, requires_operand: false, op: Op::Out },
        Instruction { name: "DUP", opcode: 11, requires_operand: false, op: Op::Dup },
        Instruction { name: "PUSHC", opcode: 12, requires_operand: true, op: Op::Pushc },
    ]
}

/// Builds the default instruction set: the fourteen rows of
/// `default_table`, free of duplicate opcodes.
pub fn default_instruction_set() -> (r: Vec<Instruction>)
    ensures
        r@ == default_table(),
        no_dup_opcodes(r@),
{
    let mut v: Vec<Instruction> = Vec::new();
    v.push(Instruction { name: "PUSH", opcode: 1, requires_operand: true, op: Op::Push });
    v.push(Instruction { name: "POP", opcode: 2, requires_operand: false, op: Op::Pop });
    v.push(Instruction { name: "ADD", opcode: 3, requires_operand: false, op: Op::Add });
    v.push(Instruction { name: "MUL", opcode: 4, requires_operand: false, op: Op::Mul });
    v.push(Instruction { name: "SUB", opcode: 5, requires_operand: false, op: Op::Sub });
    v.push(Instruction { name: "DIV", opcode: 6, requires_operand: false, op: Op::Div });
    v.push(Instruction { name: "MOD", opcode: 7, requires_operand: false, op: Op::Mod });
    v.push(Instruction { name: "BRZ", opcode: 8, requires_operand: true, op: Op::Brz });
    v.push(Instruction { name: "BRP", opcode: 9, requires_operand: true, op: Op::Brp });
    v.push(Instruction { name: "BRA", opcode: 10, requires_operand: true, op: Op::Bra });
    v.push(Instruction { name: "HLT", opcode: 0, requires_operand: false, op: Op::Hlt });
    v.push(Instruction { name: "OUT", opcode: 100, requires_operand: false, op: Op::Out });
    v.push(Instruction { name: "DUP", opcode: 11, requires_operand: false, op: Op::Dup });
    v.push(Instruction { name: "PUSHC", opcode: 12, requires_operand: true, op: Op::Pushc });
    proof {
        assert(v@ =~= default_table());
        assert(no_dup_opcodes(v@)) by {
            assert forall|i: int, j: int| 0 <= i < j < v@.len() implies v@[i].opcode
                != v@[j].opcode by {}
        }
    }
    v
}

} // verus!
