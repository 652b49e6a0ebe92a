//! The bytecode decoder: a byte buffer holds a program signature, an
//! optional constants section, and an instruction section; little-endian
//! multi-byte fields throughout. The whole layout is pinned by spec
//! functions, and the executable decoder is proved to match them.
use vstd::prelude::*;

use crate::errors::VmError;
use crate::instruction::{spec_lookup, Instruction, RawInstruction};
use crate::utf8::{is_utf8, validate_utf8};
use crate::value::{views_of, Value, ValueView};

verus! {

/// The program signature `!LSM!` that opens every bytecode buffer.
pub open spec fn prog_sig() -> Seq<u8> {
    seq![0x21u8, 0x4Cu8, 0x53u8, 0x4Du8, 0x21u8]
}

/// The `!CONSTS` marker that opens the optional constants section.
pub open spec fn consts_sig() -> Seq<u8> {
    seq![0x21u8, 0x43u8, 0x4Fu8, 0x4Eu8, 0x53u8, 0x54u8, 0x53u8]
}

/// The `!INSTR` marker that opens the instruction section.
pub open spec fn instr_sig() -> Seq<u8> {
    seq![0x21u8, 0x49u8, 0x4Eu8, 0x53u8, 0x54u8, 0x52u8]
}

/// Whether `sig` occurs in `bytes` starting at `i`.
pub open spec fn sig_at(bytes: Seq<u8>, i: int, sig: Seq<u8>) -> bool {
    &&& 0 <= i
    &&& i + sig.len() <= bytes.len()
    &&& bytes.subrange(i, i + sig.len()) == sig
}

/// The value of four little-endian bytes.
pub open spec fn le_u32(b: Seq<u8>) -> int {
    b[0] + b[1] * 0x100 + b[2] * 0x1_0000 + b[3] * 0x100_0000
}

/// The value of eight little-endian bytes.
pub open spec fn le_u64(b: Seq<u8>) -> int {
    b[0] + b[1] * 0x100 + b[2] * 0x1_0000 + b[3] * 0x100_0000 + b[4] * 0x1_0000_0000 + b[5]
        * 0x100_0000_0000 + b[6] * 0x1_0000_0000_0000 + b[7] * 0x100_0000_0000_0000
}

/// Eight little-endian bytes reinterpreted as a signed 64-bit operand.
pub open spec fn le_i64(b: Seq<u8>) -> i64 {
    (le_u64(b) as u64) as i64
}

/// Reads eight little-endian bytes at `i`.
fn read_le_u64(bytes: &Vec<u8>, i: usize) -> (r: u64)
    requires
        i + 8 <= bytes@.len(),
    ensures
        r == le_u64(bytes@.subrange(i as int, i + 8)),
{
    proof {
        assert(bytes.len() == bytes@.len());
    }
    let r = bytes[i] as u64 + (bytes[i + 1] as u64) * 0x100 + (bytes[i + 2] as u64) * 0x1_0000 + (
    bytes[i + 3] as u64) * 0x100_0000 + (bytes[i + 4] as u64) * 0x1_0000_0000 + (bytes[i + 5]
        as u64) * 0x100_0000_0000 + (bytes[i + 6] as u64) * 0x1_0000_0000_0000 + (bytes[i + 7]
        as u64) * 0x100_0000_0000_0000;
    proof {
        let sub = bytes@.subrange(i as int, i + 8);
        assert forall|k: int| 0 <= k < 8 implies sub[k] == bytes@[i + k] by {}
    }
    r
}

/// Reads an operand: eight little-endian bytes as a signed 64-bit number.
fn read_le_i64(bytes: &Vec<u8>, i: usize) -> (r: i64)
    requires
        i + 8 <= bytes@.len(),
    ensures
        r == le_i64(bytes@.subrange(i as int, i + 8)),
{
    let raw = read_le_u64(bytes, i);
    raw as i64
}

/// Reads four little-endian bytes at `i`.
fn read_le_u32(bytes: &Vec<u8>, i: usize) -> (r: u32)
    requires
        i + 4 <= bytes@.len(),
    ensures
        r == le_u32(bytes@.subrange(i as int, i + 4)),
{
    proof {
        assert(bytes.len() == bytes@.len());
    }
    let r = bytes[i] as u32 + (bytes[i + 1] as u32) * 0x100 + (bytes[i + 2] as u32) * 0x1_0000 + (
    bytes[i + 3] as u32) * 0x100_0000;
    proof {
        let sub = bytes@.subrange(i as int, i + 4);
        assert forall|k: int| 0 <= k < 4 implies sub[k] == bytes@[i + k] by {}
    }
    r
}

/// Whether the program signature stands at `i`.
fn prog_sig_at(bytes: &Vec<u8>, i: usize) -> (r: bool)
    ensures
        r == sig_at(bytes@, i as int, prog_sig()),
{
    if bytes.len() < 5 || i > bytes.len() - 5 {
        return false;
    }
    let ok = bytes[i] == 0x21 && bytes[i + 1] == 0x4C && bytes[i + 2] == 0x53 && bytes[i + 3]
        == 0x4D && bytes[i + 4] == 0x21;
    proof {
        let sub = bytes@.subrange(i as int, i + 5);
        assert forall|k: int| 0 <= k < 5 implies sub[k] == bytes@[i + k] by {}
        if ok {
            assert(sub =~= prog_sig());
        } else {
            assert(sub != prog_sig());
        }
    }
    ok
}

/// Whether the constants-section marker stands at `i`.
fn consts_sig_at(bytes: &Vec<u8>, i: usize) -> (r: bool)
    ensures
        r == sig_at(bytes@, i as int, consts_sig()),
{
    if bytes.len() < 7 || i > bytes.len() - 7 {
        return false;
    }
    let ok = bytes[i] == 0x21 && bytes[i + 1] == 0x43 && bytes[i + 2] == 0x4F && bytes[i + 3]
        == 0x4E && bytes[i + 4] == 0x53 && bytes[i + 5] == 0x54 && bytes[i + 6] == 0x53;
    proof {
        let sub = bytes@.subrange(i as int, i + 7);
        assert forall|k: int| 0 <= k < 7 implies sub[k] == bytes@[i + k] by {}
        if ok {
            assert(sub =~= consts_sig());
        } else {
            assert(sub != consts_sig());
        }
    }
    ok
}

/// Whether the instruction-section marker stands at `i`.
fn instr_sig_at(bytes: &Vec<u8>, i: usize) -> (r: bool)
    ensures
        r == sig_at(bytes@, i as int, instr_sig()),
{
    if bytes.len() < 6 || i > bytes.len() - 6 {
        return false;
    }
    let ok = bytes[i] == 0x21 && bytes[i + 1] == 0x49 && bytes[i + 2] == 0x4E && bytes[i + 3]
        == 0x53 && bytes[i + 4] == 0x54 && bytes[i + 5] == 0x52;
    proof {
        let sub = bytes@.subrange(i as int, i + 6);
        assert forall|k: int| 0 <= k < 6 implies sub[k] == bytes@[i + k] by {}
        if ok {
            assert(sub =~= instr_sig());
        } else {
            assert(sub != instr_sig());
        }
    }
    ok
}


/// The constants section from position `i` on: tagged entries until the
/// instruction-section marker. Tag 1 is a number (eight little-endian
/// bytes), tag 2 a text (four-byte little-endian length, then that many
/// UTF-8 bytes), tag 3 a boolean (one byte, zero is false), tag 4 nil
/// (no payload). Yields the entries in order and the position just past
/// the instruction-section marker.
pub open spec fn spec_consts(bytes: Seq<u8>, i: int) -> Result<(Seq<ValueView>, int), VmError>
    decreases bytes.len() - i,
{
    if sig_at(bytes, i, instr_sig()) {
        Ok((Seq::empty(), i + 6))
    } else if i < 0 || i >= bytes.len() {
        Err(VmError::TruncatedBytecode)
    } else {
        let tag = bytes[i];
        if tag == 1 {
            if i + 9 <= bytes.len() {
                match spec_consts(bytes, i + 9) {
                    Ok(p) => Ok(
                        (seq![ValueView::Number(le_i64(bytes.subrange(i + 1, i + 9)))] + p.0, p.1),
                    ),
                    Err(e) => Err(e),
                }
            } else {
                Err(VmError::TruncatedBytecode)
            }
        } else if tag == 2 {
            if i + 5 <= bytes.len() {
                let n = le_u32(bytes.subrange(i + 1, i + 5));
                if i + 5 + n <= bytes.len() {
                    let text = bytes.subrange(i + 5, i + 5 + n);
                    if is_utf8(text) {
                        match spec_consts(bytes, i + 5 + n) {
                            Ok(p) => Ok((seq![ValueView::Text(text)] + p.0, p.1)),
                            Err(e) => Err(e),
                        }
                    } else {
                        Err(VmError::InvalidUtf8)
                    }
                } else {
                    Err(VmError::TruncatedBytecode)
                }
            } else {
                Err(VmError::TruncatedBytecode)
            }
        } else if tag == 3 {
            if i + 2 <= bytes.len() {
                match spec_consts(bytes, i + 2) {
                    Ok(p) => Ok((seq![ValueView::Boolean(bytes[i + 1] != 0)] + p.0, p.1)),
                    Err(e) => Err(e),
                }
            } else {
                Err(VmError::TruncatedBytecode)
            }
        } else if tag == 4 {
            match spec_consts(bytes, i + 1) {
                Ok(p) => Ok((seq![ValueView::Nil] + p.0, p.1)),
                Err(e) => Err(e),
            }
        } else {
            Err(VmError::InvalidSignature)
        }
    }
}

/// The instruction section from position `i` to the end of the buffer:
/// an opcode byte, then eight little-endian operand bytes exactly where
/// the table row asks for an operand. An opcode without a table row is
/// an illegal-instruction decode fault; a record cut off by the end of
/// the buffer is a truncation fault.
pub open spec fn spec_instrs(bytes: Seq<u8>, i: int, table: Seq<Instruction>) -> Result<
    Seq<RawInstruction>,
    VmError,
>
    decreases bytes.len() - i,
{
    if i < 0 || i >= bytes.len() {
        Ok(Seq::empty())
    } else {
        let opcode = bytes[i];
        match spec_lookup(table, opcode) {
            None => Err(VmError::IllegalOpcode),
            Some(ins) => if ins.requires_operand {
                if i + 9 <= bytes.len() {
                    match spec_instrs(bytes, i + 9, table) {
                        Ok(rest) => Ok(
                            seq![
                                RawInstruction {
                                    opcode,
                                    operand: Some(le_i64(bytes.subrange(i + 1, i + 9))),
                                },
                            ] + rest,
                        ),
                        Err(e) => Err(e),
                    }
                } else {
                    Err(VmError::TruncatedBytecode)
                }
            } else {
                match spec_instrs(bytes, i + 1, table) {
                    Ok(rest) => Ok(seq![RawInstruction { opcode, operand: None }] + rest),
                    Err(e) => Err(e),
                }
            },
        }
    }
}

/// The whole buffer: the program signature, then the optional constants
/// section, then the instruction section. A buffer too short for the
/// program signature is truncated; one whose opening bytes differ from
/// it, or that offers neither section marker after it, has an invalid
/// signature.
pub open spec fn spec_decode(bytes: Seq<u8>, table: Seq<Instruction>) -> Result<
    (Seq<ValueView>, Seq<RawInstruction>),
    VmError,
> {
    if bytes.len() < 5 {
        Err(VmError::TruncatedBytecode)
    } else if bytes.subrange(0, 5) != prog_sig() {
        Err(VmError::InvalidSignature)
    } else if sig_at(bytes, 5, consts_sig()) {
        match spec_consts(bytes, 12) {
            Ok(p) => match spec_instrs(bytes, p.1, table) {
                Ok(rs) => Ok((p.0, rs)),
                Err(e) => Err(e),
            },
            Err(e) => Err(e),
        }
    } else if sig_at(bytes, 5, instr_sig()) {
        match spec_instrs(bytes, 11, table) {
            Ok(rs) => Ok((Seq::empty(), rs)),
            Err(e) => Err(e),
        }
    } else {
        Err(VmError::InvalidSignature)
    }
}

/// Copies `count` bytes starting at `start` into a fresh vector.
fn copy_range(bytes: &Vec<u8>, start: usize, count: usize) -> (r: Vec<u8>)
    requires
        start + count <= bytes@.len(),
    ensures
        r@ == bytes@.subrange(start as int, start + count),
{
    let mut out: Vec<u8> = Vec::new();
    let mut k: usize = 0;
    while k < count
        invariant
            k <= count,
            start + count <= bytes@.len(),
            bytes@.len() == bytes.len(),
            out@ == bytes@.subrange(start as int, start + k),
        decreases count - k,
    {
        out.push(bytes[start + k]);
        proof {
            assert(out@ =~= bytes@.subrange(start as int, start + k + 1));
        }
        k = k + 1;
    }
    out
}

/// Decodes a byte buffer against an instruction table into the decoded
/// constants, in order, and the raw instruction sequence; any fault
/// rejects the whole buffer. The executable twin of `spec_decode`.
pub fn decode_bytecode(bytes: &Vec<u8>, table: &Vec<Instruction>) -> (r: Result<
    (Vec<Value>, Vec<RawInstruction>),
    VmError,
>)
    ensures
        match r {
            Ok(p) => spec_decode(bytes@, table@) == Ok::<(Seq<ValueView>, Seq<RawInstruction>),
                VmError,
            >((views_of(p.0@), p.1@)),
            Err(e) => spec_decode(bytes@, table@) == Err::<(Seq<ValueView>, Seq<RawInstruction>),
                VmError,
            >(e),
        },
{
    if !prog_sig_at(bytes, 0) {
        if bytes.len() < 5 {
            return Err(VmError::TruncatedBytecode);
        }
        proof {
            assert(bytes@.subrange(0, 5) != prog_sig());
        }
        return Err(VmError::InvalidSignature);
    }
    let mut consts: Vec<Value> = Vec::new();
    let mut code: Vec<RawInstruction> = Vec::new();
    let mut i: usize;
    if consts_sig_at(bytes, 5) {
        i = 12;
        proof {
            assert(views_of(consts@) =~= Seq::<ValueView>::empty());
        }
        loop
            invariant_except_break
                spec_consts(bytes@, 12) == (match spec_consts(bytes@, i as int) {
                    Ok(p) => Ok::<(Seq<ValueView>, int), VmError>(
                        (views_of(consts@) + p.0, p.1),
                    ),
                    Err(e) => Err::<(Seq<ValueView>, int), VmError>(e),
                }),
            invariant
                12 <= i <= bytes@.len() + 6,
                bytes@.len() == bytes.len(),
                sig_at(bytes@, 0, prog_sig()),
                sig_at(bytes@, 5, consts_sig()),
            ensures
                12 <= i <= bytes@.len(),
                spec_consts(bytes@, 12) == Ok::<(Seq<ValueView>, int), VmError>(
                    (views_of(consts@), i as int),
                ),
            decreases bytes@.len() - i,
        {
            if instr_sig_at(bytes, i) {
                proof {
                    assert(spec_consts(bytes@, i as int) == Ok::<(Seq<ValueView>, int), VmError>(
                        (Seq::empty(), i + 6),
                    ));
                    assert(views_of(consts@) + Seq::<ValueView>::empty() =~= views_of(consts@));
                }
                i = i + 6;
                break;
            }
            if i >= bytes.len() {
                return Err(VmError::TruncatedBytecode);
            }
            let ghost prev = consts@;
            let tag = bytes[i];
            if tag == 1 {
                if bytes.len() - i < 9 {
                    return Err(VmError::TruncatedBytecode);
                }
                let v = read_le_i64(bytes, i + 1);
                consts.push(Value::Number(v));
                proof {
                    assert(views_of(consts@) =~= views_of(prev).push(
                        ValueView::Number(le_i64(bytes@.subrange(i + 1, i + 9))),
                    ));
                    lemma_consts_extend(
                        bytes@,
                        i as int,
                        prev,
                        consts@,
                        ValueView::Number(le_i64(bytes@.subrange(i + 1, i + 9))),
                        i + 9,
                    );
                }
                i = i + 9;
            } else if tag == 2 {
                if bytes.len() - i < 5 {
                    return Err(VmError::TruncatedBytecode);
                }
                let len32 = read_le_u32(bytes, i + 1);
                let tl = len32 as usize;
                if bytes.len() - i - 5 < tl {
                    return Err(VmError::TruncatedBytecode);
                }
                let text = copy_range(bytes, i + 5, tl);
                if !validate_utf8(&text) {
                    return Err(VmError::InvalidUtf8);
                }
                consts.push(Value::Text(text));
                proof {
                    assert(views_of(consts@) =~= views_of(prev).push(
                        ValueView::Text(bytes@.subrange(i + 5, i + 5 + len32)),
                    ));
                    lemma_consts_extend(
                        bytes@,
                        i as int,
                        prev,
                        consts@,
                        ValueView::Text(bytes@.subrange(i + 5, i + 5 + len32)),
                        i + 5 + len32,
                    );
                }
                i = i + 5 + tl;
            } else if tag == 3 {
                if bytes.len() - i < 2 {
                    return Err(VmError::TruncatedBytecode);
                }
                let b = bytes[i + 1];
                consts.push(Value::Boolean(b != 0));
                proof {
                    assert(views_of(consts@) =~= views_of(prev).push(
                        ValueView::Boolean(bytes@[i + 1] != 0),
                    ));
                    lemma_consts_extend(
                        bytes@,
                        i as int,
                        prev,
                        consts@,
                        ValueView::Boolean(bytes@[i + 1] != 0),
                        i + 2,
                    );
                }
                i = i + 2;
            } else if tag == 4 {
                consts.push(Value::Nil);
                proof {
                    assert(views_of(consts@) =~= views_of(prev).push(ValueView::Nil));
                    lemma_consts_extend(bytes@, i as int, prev, consts@, ValueView::Nil, i + 1);
                }
                i = i + 1;
            } else {
                return Err(VmError::InvalidSignature);
            }
        }
    } else {
        if !instr_sig_at(bytes, 5) {
            return Err(VmError::InvalidSignature);
        }
        i = 11;
    }
    proof {
        assert(views_of(consts@) + Seq::<ValueView>::empty() =~= views_of(consts@));
    }
    let ghost cvs = views_of(consts@);
    proof {
        assert(spec_decode(bytes@, table@) == (match spec_instrs(bytes@, i as int, table@) {
            Ok(rest) => Ok::<(Seq<ValueView>, Seq<RawInstruction>), VmError>((cvs, rest)),
            Err(e) => Err::<(Seq<ValueView>, Seq<RawInstruction>), VmError>(e),
        }));
        assert(code@ + spec_instrs(bytes@, i as int, table@).unwrap() =~= spec_instrs(
            bytes@,
            i as int,
            table@,
        ).unwrap()) by {
            if spec_instrs(bytes@, i as int, table@) is Ok {
                assert(code@ =~= Seq::<RawInstruction>::empty());
            }
        }
    }
    while i < bytes.len()
        invariant
            i <= bytes@.len(),
            bytes@.len() == bytes.len(),
            cvs == views_of(consts@),
            spec_decode(bytes@, table@) == (match spec_instrs(bytes@, i as int, table@) {
                Ok(rest) => Ok::<(Seq<ValueView>, Seq<RawInstruction>), VmError>(
                    (cvs, code@ + rest),
                ),
                Err(e) => Err::<(Seq<ValueView>, Seq<RawInstruction>), VmError>(e),
            }),
        decreases bytes@.len() - i,
    {
        let opcode = bytes[i];
        let requires_operand: bool;
        match crate::instruction::lookup_opcode(table, opcode) {
            None => {
                return Err(VmError::IllegalOpcode);
            },
            Some(ins) => {
                requires_operand = ins.requires_operand;
            },
        }
        let ghost prev = code@;
        if requires_operand {
            if bytes.len() - i < 9 {
                return Err(VmError::TruncatedBytecode);
            }
            let operand = read_le_i64(bytes, i + 1);
            code.push(RawInstruction { opcode, operand: Some(operand) });
            proof {
                lemma_instrs_extend(
                    bytes@,
                    i as int,
                    table@,
                    prev,
                    code@,
                    RawInstruction {
                        opcode,
                        operand: Some(le_i64(bytes@.subrange(i + 1, i + 9))),
                    },
                    i + 9,
                );
            }
            i = i + 9;
        } else {
            code.push(RawInstruction { opcode, operand: None });
            proof {
                lemma_instrs_extend(
                    bytes@,
                    i as int,
                    table@,
                    prev,
                    code@,
                    RawInstruction { opcode, operand: None },
                    i + 1,
                );
            }
            i = i + 1;
        }
    }
    proof {
        assert(spec_instrs(bytes@, i as int, table@) == Ok::<Seq<RawInstruction>, VmError>(
            Seq::empty(),
        ));
        assert(code@ + Seq::<RawInstruction>::empty() =~= code@);
    }
    Ok((consts, code))
}

/// One constants-section step: pushing the entry the spec sees keeps the
/// accumulated prefix in step with `spec_consts`.
proof fn lemma_consts_extend(
    bytes: Seq<u8>,
    i: int,
    prev: Seq<Value>,
    cur: Seq<Value>,
    entry: ValueView,
    next: int,
)
    requires
        views_of(cur) == views_of(prev).push(entry),
        spec_consts(bytes, i) == (match spec_consts(bytes, next) {
            Ok(p) => Ok::<(Seq<ValueView>, int), VmError>((seq![entry] + p.0, p.1)),
            Err(e) => Err::<(Seq<ValueView>, int), VmError>(e),
        }),
    ensures
        (match spec_consts(bytes, i) {
            Ok(p) => Ok::<(Seq<ValueView>, int), VmError>((views_of(prev) + p.0, p.1)),
            Err(e) => Err::<(Seq<ValueView>, int), VmError>(e),
        }) == (match spec_consts(bytes, next) {
            Ok(p) => Ok::<(Seq<ValueView>, int), VmError>((views_of(cur) + p.0, p.1)),
            Err(e) => Err::<(Seq<ValueView>, int), VmError>(e),
        }),
{
    match spec_consts(bytes, next) {
        Ok(p) => {
            assert(views_of(prev) + (seq![entry] + p.0) =~= views_of(cur) + p.0);
        },
        Err(e) => {},
    }
}

/// One instruction-section step, in the same shape.
proof fn lemma_instrs_extend(
    bytes: Seq<u8>,
    i: int,
    table: Seq<Instruction>,
    prev: Seq<RawInstruction>,
    cur: Seq<RawInstruction>,
    entry: RawInstruction,
    next: int,
)
    requires
        cur == prev.push(entry),
        spec_instrs(bytes, i, table) == (match spec_instrs(bytes, next, table) {
            Ok(rest) => Ok::<Seq<RawInstruction>, VmError>(seq![entry] + rest),
            Err(e) => Err::<Seq<RawInstruction>, VmError>(e),
        }),
    ensures
        (match spec_instrs(bytes, i, table) {
            Ok(rest) => Ok::<Seq<RawInstruction>, VmError>(prev + rest),
            Err(e) => Err::<Seq<RawInstruction>, VmError>(e),
        }) == (match spec_instrs(bytes, next, table) {
            Ok(rest) => Ok::<Seq<RawInstruction>, VmError>(cur + rest),
            Err(e) => Err::<Seq<RawInstruction>, VmError>(e),
        }),
{
    match spec_instrs(bytes, next, table) {
        Ok(rest) => {
            assert(prev + (seq![entry] + rest) =~= cur + rest);
        },
        Err(e) => {},
    }
}

} // verus!
