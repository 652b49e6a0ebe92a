use lsm::decode::decode_bytecode;
use lsm::engine::VM;
use lsm::errors::{HaltReason, VmError};
use lsm::instruction::default_instruction_set;
use lsm::utf8::validate_utf8;
use lsm::value::Value;

fn fresh_vm() -> VM {
    VM::new(default_instruction_set(), None, None, None).unwrap()
}

fn program(consts: &[&[u8]], instrs: &[u8]) -> Vec<u8> {
    let mut b: Vec<u8> = Vec::new();
    b.extend_from_slice(b"!LSM!");
    if !consts.is_empty() {
        b.extend_from_slice(b"!CONSTS");
        for c in consts {
            b.extend_from_slice(c);
        }
    }
    b.extend_from_slice(b"!INSTR");
    b.extend_from_slice(instrs);
    b
}

fn num_const(n: i64) -> Vec<u8> {
    let mut c = vec![1u8];
    c.extend_from_slice(&n.to_le_bytes());
    c
}

fn text_const(s: &str) -> Vec<u8> {
    let mut c = vec![2u8];
    c.extend_from_slice(&(s.len() as u32).to_le_bytes());
    c.extend_from_slice(s.as_bytes());
    c
}

fn push_instr(n: i64) -> Vec<u8> {
    let mut i = vec![1u8];
    i.extend_from_slice(&n.to_le_bytes());
    i
}

#[test]
fn constants_round_trip_all_tags() {
    let number = num_const(-123456789);
    let text = text_const("héllo");
    let boolean = vec![3u8, 7u8];
    let nil = vec![4u8];
    let bytes = program(
        &[number.as_slice(), text.as_slice(), boolean.as_slice(), nil.as_slice()],
        &[],
    );
    let mut vm = fresh_vm();
    vm.load_bytecode(&bytes).unwrap();
    assert_eq!(vm.get_const_copy(0), Some(Value::Number(-123456789)));
    assert_eq!(
        vm.get_const_copy(1),
        Some(Value::Text("héllo".as_bytes().to_vec()))
    );
    assert_eq!(vm.get_const_copy(2), Some(Value::Boolean(true)));
    assert_eq!(vm.get_const_copy(3), Some(Value::Nil));
    assert!(vm.get_const_copy(4).is_none());
}

#[test]
fn boolean_zero_byte_is_false() {
    let bytes = program(&[&[3u8, 0u8]], &[]);
    let mut vm = fresh_vm();
    vm.load_bytecode(&bytes).unwrap();
    assert_eq!(vm.get_const_copy(0), Some(Value::Boolean(false)));
}

#[test]
fn missing_signature_rejects_whole_load() {
    let mut vm = fresh_vm();
    assert_eq!(vm.load_bytecode(&b"!XSM!!INSTR".to_vec()), Err(VmError::InvalidSignature));
    assert_eq!(vm.dump().len(), 0);
}

#[test]
fn short_buffer_is_truncated() {
    let mut vm = fresh_vm();
    assert_eq!(vm.load_bytecode(&b"!LS".to_vec()), Err(VmError::TruncatedBytecode));
    assert_eq!(vm.load_bytecode(&Vec::new()), Err(VmError::TruncatedBytecode));
    assert_eq!(vm.dump().len(), 0);
}

#[test]
fn missing_section_marker_is_invalid() {
    let mut vm = fresh_vm();
    assert_eq!(vm.load_bytecode(&b"!LSM!junk......".to_vec()), Err(VmError::InvalidSignature));
}

#[test]
fn truncated_operand_rejects_whole_load() {
    // PUSH asks for eight operand bytes; only three follow.
    let mut bytes = program(&[], &[]);
    bytes.extend_from_slice(&[1u8, 0, 0, 0]);
    let mut vm = fresh_vm();
    assert_eq!(vm.load_bytecode(&bytes), Err(VmError::TruncatedBytecode));
    // Nothing was added: the machine still runs off the end at once.
    assert_eq!(vm.dump().len(), 0);
    assert_eq!(vm.run(), Ok(Some(HaltReason::EndOfProgram)));
}

#[test]
fn unknown_opcode_in_stream_is_decode_fault() {
    let bytes = program(&[], &[200u8]);
    let mut vm = fresh_vm();
    assert_eq!(vm.load_bytecode(&bytes), Err(VmError::IllegalOpcode));
}

#[test]
fn invalid_utf8_text_is_rejected() {
    let mut c = vec![2u8];
    c.extend_from_slice(&2u32.to_le_bytes());
    c.extend_from_slice(&[0xFF, 0xFE]);
    let bytes = program(&[c.as_slice()], &[]);
    let mut vm = fresh_vm();
    assert_eq!(vm.load_bytecode(&bytes), Err(VmError::InvalidUtf8));
    assert!(vm.get_const_copy(0).is_none());
}

#[test]
fn unknown_constant_tag_is_invalid_signature() {
    let bytes = program(&[&[9u8]], &[]);
    let mut vm = fresh_vm();
    assert_eq!(vm.load_bytecode(&bytes), Err(VmError::InvalidSignature));
}

#[test]
fn constants_section_missing_instr_marker_is_truncated() {
    let mut bytes = b"!LSM!!CONSTS".to_vec();
    bytes.extend_from_slice(&[4u8]);
    let mut vm = fresh_vm();
    assert_eq!(vm.load_bytecode(&bytes), Err(VmError::TruncatedBytecode));
}

#[test]
fn empty_instruction_section_loads_nothing() {
    let bytes = program(&[], &[]);
    let mut vm = fresh_vm();
    vm.load_bytecode(&bytes).unwrap();
    assert_eq!(vm.dump().len(), 0);
    assert_eq!(vm.run(), Ok(Some(HaltReason::EndOfProgram)));
}

#[test]
fn decoded_program_runs() {
    // PUSH 5, PUSH 3, SUB, OUT, HLT — all from bytes.
    let mut instrs = Vec::new();
    instrs.extend_from_slice(&push_instr(5));
    instrs.extend_from_slice(&push_instr(3));
    instrs.push(5u8);
    instrs.push(100u8);
    instrs.push(0u8);
    let bytes = program(&[], &instrs);
    let mut vm = fresh_vm();
    vm.load_bytecode(&bytes).unwrap();
    assert_eq!(vm.run(), Ok(Some(HaltReason::Halted)));
    assert_eq!(vm.take_output(), vec![Value::Number(2)]);
    assert_eq!(vm.pop(), Some(Value::Number(2)));
}

#[test]
fn pushc_reads_decoded_constant() {
    let mut instrs = Vec::new();
    instrs.extend_from_slice(&push_instr(0));
    instrs[0] = 12u8;
    instrs.push(0u8);
    let bytes = program(&[text_const("ok").as_slice()], &instrs);
    let mut vm = fresh_vm();
    vm.load_bytecode(&bytes).unwrap();
    assert_eq!(vm.run(), Ok(Some(HaltReason::Halted)));
    assert_eq!(vm.pop(), Some(Value::Text(b"ok".to_vec())));
}

#[test]
fn second_load_appends_code_and_overwrites_constants() {
    let first = program(&[num_const(1).as_slice()], &push_instr(10));
    let second = program(&[num_const(2).as_slice()], &push_instr(20));
    let mut vm = fresh_vm();
    vm.load_bytecode(&first).unwrap();
    vm.load_bytecode(&second).unwrap();
    assert_eq!(vm.dump().len(), 2);
    // Decode-time keys restart at zero, so the second load overwrites.
    assert_eq!(vm.get_const_copy(0), Some(Value::Number(2)));
    assert_eq!(vm.run(), Ok(Some(HaltReason::EndOfProgram)));
    assert_eq!(vm.pop(), Some(Value::Number(20)));
    assert_eq!(vm.pop(), Some(Value::Number(10)));
}

#[test]
fn decode_without_loading_yields_parts() {
    let bytes = program(&[num_const(7).as_slice()], &push_instr(1));
    let table = default_instruction_set();
    let (consts, code) = decode_bytecode(&bytes, &table).unwrap();
    assert_eq!(consts, vec![Value::Number(7)]);
    assert_eq!(code.len(), 1);
    assert_eq!(code[0].opcode, 1);
    assert_eq!(code[0].operand, Some(1));
}

#[test]
fn utf8_checker_agrees_with_std() {
    let samples: Vec<Vec<u8>> = vec![
        b"plain".to_vec(),
        "héllo wörld".as_bytes().to_vec(),
        "日本語".as_bytes().to_vec(),
        vec![0xFF],
        vec![0xC2],
        vec![0xC2, 0x20],
        vec![0xE0, 0x80, 0x80],
        vec![0xED, 0xA0, 0x80],
        vec![0xF4, 0x90, 0x80, 0x80],
        vec![],
    ];
    for s in samples {
        assert_eq!(validate_utf8(&s), std::str::from_utf8(&s).is_ok(), "bytes {:?}", s);
    }
}
