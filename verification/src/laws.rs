//! Laws of the machine, each proved from the spec functions the
//! executable code is verified against.
use vstd::prelude::*;

use crate::decode::{
    consts_sig, instr_sig, le_i64, le_u32, le_u64, prog_sig, sig_at, spec_consts, spec_decode,
};
use crate::engine::{merge_consts, op_step, step_spec, StepOutcome, VmState};
use crate::errors::{HaltReason, VmError};
use crate::instruction::{spec_lookup, Instruction, Op, RawInstruction};
use crate::utf8::is_utf8;
use crate::value::ValueView;
use vstd::arithmetic::div_mod::{lemma_div_denominator, lemma_fundamental_div_mod};

verus! {

/// A stack after pushing the items of `vs` in order, one at a time.
pub open spec fn pushed_all(s: Seq<ValueView>, vs: Seq<ValueView>) -> Seq<ValueView>
    decreases vs.len(),
{
    if vs.len() == 0 {
        s
    } else {
        pushed_all(s.push(vs[0]), vs.skip(1))
    }
}

/// The LIFO law. Pushing the items of `vs` one at a time appends them in
/// order, so the length grows by exactly the number of pushes; and since
/// each pop takes the last item, the i-th pop returns the i-th pushed
/// item counted from the end: pops come in reverse push order. `push`
/// and `pop` of the stack are each verified against exactly these view
/// operations.
pub proof fn lemma_stack_lifo(s: Seq<ValueView>, vs: Seq<ValueView>)
    ensures
        pushed_all(s, vs) == s + vs,
        pushed_all(s, vs).len() == s.len() + vs.len(),
        forall|i: int|
            0 <= i < vs.len() ==> #[trigger] (s + vs)[s.len() + vs.len() - 1 - i] == vs[vs.len()
                - 1 - i],
    decreases vs.len(),
{
    if vs.len() == 0 {
        assert(s + vs =~= s);
    } else {
        lemma_stack_lifo(s.push(vs[0]), vs.skip(1));
        assert(s.push(vs[0]) + vs.skip(1) =~= s + vs);
    }
}

/// The absolute-branch law. The program counter is advanced past the
/// branch instruction before the opcode runs, so BRA lands exactly on
/// the operand as an absolute index, wherever the branch instruction
/// itself stood.
pub proof fn lemma_branch_absolute(s: VmState, t: i64)
    requires
        0 <= s.pc < s.code.len(),
        s.code[s.pc].operand == Some(t),
        0 <= t <= usize::MAX,
        (match spec_lookup(s.table, s.code[s.pc].opcode) {
            Some(ins) => ins.op == Op::Bra,
            None => false,
        }),
    ensures
        step_spec(s).0.pc == t,
        step_spec(s).1 == StepOutcome::Cont,
        step_spec(s).0.stack == s.stack,
        step_spec(s).0.pool == s.pool,
{
}

/// The duplicate law. DUP followed by two POPs comes back to the state
/// one POP alone reaches, and both pops find the original top on top.
pub proof fn lemma_dup_pop_pop(s: VmState)
    requires
        s.stack.len() >= 1,
        s.stack.len() < s.capacity,
    ensures
        ({
            let s1 = op_step(s, Op::Dup, None).0;
            let s2 = op_step(s1, Op::Pop, None).0;
            let s3 = op_step(s2, Op::Pop, None).0;
            &&& op_step(s, Op::Dup, None).1 == StepOutcome::Cont
            &&& s1.stack.last() == s.stack.last()
            &&& s2.stack.last() == s.stack.last()
            &&& s3.stack == op_step(s, Op::Pop, None).0.stack
            &&& s3 == op_step(s, Op::Pop, None).0
        }),
{
    let s1 = op_step(s, Op::Dup, None).0;
    let s2 = op_step(s1, Op::Pop, None).0;
    let s3 = op_step(s2, Op::Pop, None).0;
    assert(s1.stack == s.stack.push(s.stack.last()));
    assert(s1.stack.drop_last() =~= s.stack);
    assert(s2.stack == s.stack);
    assert(s3 =~= op_step(s, Op::Pop, None).0);
}

/// The illegal-opcode law. Fetching an opcode without a table row halts
/// the machine with `IllegalOpcode` and leaves stack, pool and output
/// exactly as the last executed instruction left them.
pub proof fn lemma_illegal_opcode(s: VmState)
    requires
        0 <= s.pc < s.code.len(),
        spec_lookup(s.table, s.code[s.pc].opcode) is None,
    ensures
        step_spec(s).1 == StepOutcome::Halt(HaltReason::IllegalOpcode),
        step_spec(s).0.stop == true,
        step_spec(s).0.stack == s.stack,
        step_spec(s).0.pool == s.pool,
        step_spec(s).0.output == s.output,
        step_spec(s).0.code == s.code,
{
}

/// The load-rejection law, first half: a buffer too short for the
/// program signature, or opening with other bytes, never decodes; with
/// `load_bytecode`'s contract, such a load leaves the machine untouched.
pub proof fn lemma_reject_bad_signature(bytes: Seq<u8>, table: Seq<Instruction>)
    requires
        bytes.len() < 5 || bytes.subrange(0, 5) != prog_sig(),
    ensures
        spec_decode(bytes, table) is Err,
{
}

/// The load-rejection law, second half: an instruction record whose
/// opcode asks for an operand but whose operand field is cut off by the
/// end of the buffer never decodes, so nothing of the buffer is loaded.
pub proof fn lemma_reject_truncated_operand(bytes: Seq<u8>, table: Seq<Instruction>)
    requires
        bytes.len() >= 5,
        bytes.subrange(0, 5) == prog_sig(),
        sig_at(bytes, 5, instr_sig()),
        11 < bytes.len() < 20,
        (match spec_lookup(table, bytes[11]) {
            Some(ins) => ins.requires_operand,
            None => false,
        }),
    ensures
        spec_decode(bytes, table) == Err::<
            (Seq<ValueView>, Seq<crate::instruction::RawInstruction>),
            VmError,
        >(VmError::TruncatedBytecode),
{
}


/// The eight little-endian bytes of a 64-bit value.
pub open spec fn le_bytes8(x: u64) -> Seq<u8> {
    seq![
        (x % 0x100) as u8,
        ((x / 0x100) % 0x100) as u8,
        ((x / 0x1_0000) % 0x100) as u8,
        ((x / 0x100_0000) % 0x100) as u8,
        ((x / 0x1_0000_0000) % 0x100) as u8,
        ((x / 0x100_0000_0000) % 0x100) as u8,
        ((x / 0x1_0000_0000_0000) % 0x100) as u8,
        ((x / 0x100_0000_0000_0000) % 0x100) as u8,
    ]
}

/// The four little-endian bytes of a 32-bit value.
pub open spec fn le_bytes4(x: u32) -> Seq<u8> {
    seq![
        (x % 0x100) as u8,
        ((x / 0x100) % 0x100) as u8,
        ((x / 0x1_0000) % 0x100) as u8,
        ((x / 0x100_0000) % 0x100) as u8,
    ]
}

/// Reading back the eight little-endian bytes of a value gives the
/// value.
pub proof fn lemma_le8_round(x: u64)
    ensures
        le_u64(le_bytes8(x)) == x,
{
    let xi = x as int;
    lemma_div_denominator(xi, 0x100, 0x100);
    lemma_div_denominator(xi, 0x1_0000, 0x100);
    lemma_div_denominator(xi, 0x100_0000, 0x100);
    lemma_div_denominator(xi, 0x1_0000_0000, 0x100);
    lemma_div_denominator(xi, 0x100_0000_0000, 0x100);
    lemma_div_denominator(xi, 0x1_0000_0000_0000, 0x100);
    lemma_div_denominator(xi, 0x100_0000_0000_0000, 0x100);
    lemma_fundamental_div_mod(xi, 0x100);
    lemma_fundamental_div_mod(xi / 0x100, 0x100);
    lemma_fundamental_div_mod(xi / 0x1_0000, 0x100);
    lemma_fundamental_div_mod(xi / 0x100_0000, 0x100);
    lemma_fundamental_div_mod(xi / 0x1_0000_0000, 0x100);
    lemma_fundamental_div_mod(xi / 0x100_0000_0000, 0x100);
    lemma_fundamental_div_mod(xi / 0x1_0000_0000_0000, 0x100);
    lemma_fundamental_div_mod(xi / 0x100_0000_0000_0000, 0x100);
    assert(xi / 0x1_0000_0000_0000_0000 == 0) by {
        lemma_fundamental_div_mod(xi, 0x1_0000_0000_0000_0000);
        vstd::arithmetic::div_mod::lemma_small_mod(x as nat, 0x1_0000_0000_0000_0000);
    }
}

/// Reading back the four little-endian bytes of a value gives the
/// value.
pub proof fn lemma_le4_round(x: u32)
    ensures
        le_u32(le_bytes4(x)) == x,
{
    let xi = x as int;
    lemma_div_denominator(xi, 0x100, 0x100);
    lemma_div_denominator(xi, 0x1_0000, 0x100);
    lemma_fundamental_div_mod(xi, 0x100);
    lemma_fundamental_div_mod(xi / 0x100, 0x100);
    lemma_fundamental_div_mod(xi / 0x1_0000, 0x100);
    assert(xi / 0x1_0000_0000 == 0) by {
        lemma_fundamental_div_mod(xi, 0x1_0000_0000);
        vstd::arithmetic::div_mod::lemma_small_mod(x as nat, 0x1_0000_0000);
    }
}

/// The byte encoding of one constants-section entry: a tag byte and the
/// payload the decoder expects for it.
pub open spec fn encode_const(v: ValueView) -> Seq<u8> {
    match v {
        ValueView::Number(n) => seq![1u8] + le_bytes8(n as u64),
        ValueView::Text(text) => seq![2u8] + le_bytes4(text.len() as u32) + text,
        ValueView::Boolean(b) => seq![
            3u8,
            if b {
                1u8
            } else {
                0u8
            },
        ],
        ValueView::Nil => seq![4u8],
    }
}

/// What the wire format can carry: text must be valid UTF-8 and fit the
/// four-byte length field; the other tags carry anything.
pub open spec fn encodable(v: ValueView) -> bool {
    match v {
        ValueView::Text(text) => is_utf8(text) && text.len() < 0x1_0000_0000,
        _ => true,
    }
}

/// The byte encoding of a whole constants section, entry by entry.
pub open spec fn encode_consts(vs: Seq<ValueView>) -> Seq<u8>
    decreases vs.len(),
{
    if vs.len() == 0 {
        Seq::empty()
    } else {
        encode_const(vs[0]) + encode_consts(vs.skip(1))
    }
}

/// Decoding one encoded entry yields exactly the value that was
/// encoded, and hands the cursor to the rest.
#[verifier::rlimit(50)]
proof fn lemma_entry_round_trip(bytes: Seq<u8>, i: int, v: ValueView)
    requires
        encodable(v),
        0 <= i,
        i + encode_const(v).len() <= bytes.len(),
        bytes.subrange(i, i + encode_const(v).len()) == encode_const(v),
    ensures
        spec_consts(bytes, i) == (match spec_consts(bytes, i + encode_const(v).len()) {
            Ok(p) => Ok::<(Seq<ValueView>, int), VmError>((seq![v] + p.0, p.1)),
            Err(e) => Err::<(Seq<ValueView>, int), VmError>(e),
        }),
{
    let enc = encode_const(v);
    let sub = bytes.subrange(i, i + enc.len());
    assert(forall|k: int| 0 <= k < enc.len() ==> bytes[i + k] == #[trigger] enc[k]) by {
        assert(forall|k: int| 0 <= k < enc.len() ==> #[trigger] sub[k] == bytes[i + k]);
    }
    assert(!sig_at(bytes, i, instr_sig())) by {
        if sig_at(bytes, i, instr_sig()) {
            assert(bytes.subrange(i, i + 6)[0] == bytes[i]);
            assert(instr_sig()[0] == 0x21);
            assert(enc[0] == bytes[i]);
        }
    }
    match v {
        ValueView::Number(n) => {
            assert(enc[0] == 1);
            assert(bytes[i + 0] == enc[0]);
            let field = bytes.subrange(i + 1, i + 9);
            assert(field =~= le_bytes8(n as u64)) by {
                assert forall|k: int| 0 <= k < 8 implies field[k] == le_bytes8(n as u64)[k] by {
                    assert(enc[1 + k] == le_bytes8(n as u64)[k]);
                    assert(bytes[i + 1 + k] == enc[1 + k]);
                    assert(field[k] == bytes[i + 1 + k]);
                }
            }
            lemma_le8_round(n as u64);
            assert(le_i64(field) == n) by {
                assert(le_u64(field) == n as u64);
                assert(((n as u64) as u64) as i64 == n) by (bit_vector);
            }
        },
        ValueView::Text(text) => {
            let pre = seq![2u8] + le_bytes4(text.len() as u32);
            assert(pre[0] == 2);
            assert(enc[0] == pre[0]);
            assert(bytes[i + 0] == enc[0]);
            assert(bytes[i] == 2);
            let lenfield = bytes.subrange(i + 1, i + 5);
            assert(lenfield =~= le_bytes4(text.len() as u32)) by {
                assert forall|k: int| 0 <= k < 4 implies lenfield[k] == le_bytes4(
                    text.len() as u32,
                )[k] by {
                    assert(pre[1 + k] == le_bytes4(text.len() as u32)[k]);
                    assert(enc[1 + k] == pre[1 + k]);
                    assert(bytes[i + 1 + k] == enc[1 + k]);
                    assert(lenfield[k] == bytes[i + 1 + k]);
                }
            }
            lemma_le4_round(text.len() as u32);
            assert(le_u32(lenfield) == text.len());
            let body = bytes.subrange(i + 5, i + 5 + text.len());
            assert(body =~= text) by {
                assert forall|m: int| 0 <= m < text.len() implies body[m] == text[m] by {
                    assert(enc[5 + m] == text[m]);
                    assert(bytes[i + 5 + m] == enc[5 + m]);
                    assert(body[m] == bytes[i + 5 + m]);
                }
            }
        },
        ValueView::Boolean(b) => {
            assert(enc[0] == 3);
            assert(bytes[i + 0] == enc[0]);
            assert(bytes[i + 1] == enc[1]);
            assert((bytes[i + 1] != 0) == b);
        },
        ValueView::Nil => {
            assert(enc[0] == 4);
            assert(bytes[i + 0] == enc[0]);
            assert(bytes[i] == 4);
        },
    }
}

/// Decoding an encoded constants section, closed by the instruction
/// marker, yields exactly the values that were encoded.
proof fn lemma_consts_round_trip_at(bytes: Seq<u8>, i: int, vs: Seq<ValueView>)
    requires
        forall|k: int| 0 <= k < vs.len() ==> encodable(#[trigger] vs[k]),
        0 <= i,
        i + encode_consts(vs).len() + 6 <= bytes.len(),
        bytes.subrange(i, i + encode_consts(vs).len()) == encode_consts(vs),
        sig_at(bytes, i + encode_consts(vs).len(), instr_sig()),
    ensures
        spec_consts(bytes, i) == Ok::<(Seq<ValueView>, int), VmError>(
            (vs, i + encode_consts(vs).len() + 6),
        ),
    decreases vs.len(),
{
    if vs.len() == 0 {
        assert(encode_consts(vs).len() == 0);
        assert(vs =~= Seq::<ValueView>::empty());
    } else {
        let e0 = encode_const(vs[0]);
        let rest = encode_consts(vs.skip(1));
        let total = encode_consts(vs);
        assert(total == e0 + rest);
        let sub = bytes.subrange(i, i + total.len());
        assert(forall|k: int| 0 <= k < total.len() ==> bytes[i + k] == #[trigger] total[k]) by {
            assert(forall|k: int| 0 <= k < total.len() ==> #[trigger] sub[k] == bytes[i + k]);
        }
        assert(bytes.subrange(i, i + e0.len()) =~= e0);
        assert(bytes.subrange(i + e0.len(), i + e0.len() + rest.len()) =~= rest) by {
            assert forall|m: int| 0 <= m < rest.len() implies bytes.subrange(
                i + e0.len(),
                i + e0.len() + rest.len(),
            )[m] == rest[m] by {
                assert(total[e0.len() + m] == rest[m]);
                assert(bytes[i + e0.len() + m] == total[e0.len() + m]);
            }
        }
        lemma_entry_round_trip(bytes, i, vs[0]);
        assert(forall|k: int|
            0 <= k < vs.skip(1).len() ==> encodable(#[trigger] vs.skip(1)[k]));
        lemma_consts_round_trip_at(bytes, i + e0.len(), vs.skip(1));
        assert(seq![vs[0]] + vs.skip(1) =~= vs);
    }
}

/// The constant round-trip law. A buffer holding the program signature,
/// an encoded constants section, and an empty instruction section
/// decodes to exactly the encoded values, in order; merged into an empty
/// pool they sit at their zero-based keys, where `get_copy` finds each
/// one structurally equal to what was encoded.
pub proof fn lemma_constants_round_trip(vs: Seq<ValueView>, table: Seq<Instruction>)
    requires
        forall|k: int| 0 <= k < vs.len() ==> encodable(#[trigger] vs[k]),
    ensures
        ({
            let bytes = prog_sig() + consts_sig() + encode_consts(vs) + instr_sig();
            spec_decode(bytes, table) == Ok::<(Seq<ValueView>, Seq<RawInstruction>), VmError>(
                (vs, Seq::empty()),
            )
        }),
        forall|k: usize|
            k < vs.len() ==> #[trigger] merge_consts(Map::<usize, ValueView>::empty(), vs)[k]
                == vs[k as int],
{
    let bytes = prog_sig() + consts_sig() + encode_consts(vs) + instr_sig();
    assert(bytes.len() == 12 + encode_consts(vs).len() + 6);
    assert(bytes.subrange(0, 5) =~= prog_sig());
    assert(bytes.subrange(5, 12) =~= consts_sig());
    assert(bytes.subrange(12, 12 + encode_consts(vs).len() as int) =~= encode_consts(vs));
    assert(bytes.subrange(
        12 + encode_consts(vs).len() as int,
        12 + encode_consts(vs).len() as int + 6,
    ) =~= instr_sig());
    lemma_consts_round_trip_at(bytes, 12, vs);
    assert(spec_consts(bytes, 12) == Ok::<(Seq<ValueView>, int), VmError>(
        (vs, bytes.len() as int),
    ));
}

} // verus!
