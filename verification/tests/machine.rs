use lsm::engine::{StepOutcome, VM};
use lsm::errors::{HaltReason, VmError};
use lsm::instruction::{default_instruction_set, Instruction, Op, RawInstruction};
use lsm::stack::Stack;
use lsm::value::{ToNumber, Value};

fn fresh_vm(code: Vec<RawInstruction>) -> VM {
    VM::new(default_instruction_set(), Some(code), None, None).unwrap()
}

fn raw(opcode: u8, operand: Option<i64>) -> RawInstruction {
    RawInstruction { opcode, operand }
}

#[test]
fn stack_lifo_order() {
    let mut s: Stack<i64> = Stack::new(16);
    assert!(s.is_empty());
    for i in 0..5i64 {
        s.push(i).unwrap();
    }
    assert_eq!(s.len(), 5);
    for i in (0..5i64).rev() {
        assert_eq!(s.pop(), Some(i));
    }
    assert!(s.is_empty());
}

#[test]
fn stack_overflow_and_underflow() {
    let mut s: Stack<u8> = Stack::new(2);
    s.push(1).unwrap();
    s.push(2).unwrap();
    assert_eq!(s.push(3), Err(VmError::StackOverflow));
    assert_eq!(s.len(), 2);
    s.pop();
    s.pop();
    assert_eq!(s.pop(), None);
}

#[test]
fn stack_peek_leaves_top() {
    let mut s: Stack<i64> = Stack::new(4);
    assert!(s.peek().is_none());
    s.push(42).unwrap();
    assert_eq!(s.peek(), Some(&42));
    assert_eq!(s.len(), 1);
}

#[test]
fn vm_push_pop_peek() {
    let mut vm = fresh_vm(vec![]);
    vm.push(Value::Number(3)).unwrap();
    vm.push(Value::Nil).unwrap();
    assert!(matches!(vm.peek(), Some(Value::Nil)));
    assert_eq!(vm.pop(), Some(Value::Nil));
    assert_eq!(vm.pop(), Some(Value::Number(3)));
    assert_eq!(vm.pop(), None);
}

#[test]
fn vm_stack_capacity_is_enforced() {
    let mut vm = VM::new(default_instruction_set(), None, None, Some(1)).unwrap();
    vm.push(Value::Number(1)).unwrap();
    assert_eq!(vm.push(Value::Number(2)), Err(VmError::StackOverflow));
}

#[test]
fn to_number_accepts_only_numbers() {
    assert_eq!(Value::Number(-7).to_number(), Ok(-7));
    assert_eq!(Value::Nil.to_number(), Err(()));
    assert_eq!(Value::Boolean(true).to_number(), Err(()));
    assert_eq!(Value::Text(vec![97]).to_number(), Err(()));
}

#[test]
fn default_table_has_unique_opcodes() {
    let table = default_instruction_set();
    assert_eq!(table.len(), 14);
    for i in 0..table.len() {
        for j in (i + 1)..table.len() {
            assert_ne!(table[i].opcode, table[j].opcode);
        }
    }
}

#[test]
fn duplicate_opcode_is_rejected() {
    let table = vec![
        Instruction { name: "HLT", opcode: 0, requires_operand: false, op: Op::Hlt },
        Instruction { name: "ALSO", opcode: 0, requires_operand: false, op: Op::Pop },
    ];
    match VM::new(table, None, None, None) {
        Err(VmError::DuplicateOpcode) => {}
        other => panic!("expected DuplicateOpcode, got {:?}", other.is_ok()),
    }
}

#[test]
fn lookup_finds_matching_instruction() {
    let vm = fresh_vm(vec![]);
    let ins = vm.get_instruction_match_for_opcode(1).unwrap();
    assert_eq!(ins.name, "PUSH");
    assert!(ins.requires_operand);
    assert!(vm.get_instruction_match_for_opcode(99).is_none());
}

#[test]
fn arithmetic_is_second_minus_top() {
    // SUB: push 5 then 3 leaves 2; DIV: 6 then 3 leaves 2; MOD: 7 then 3 leaves 1.
    for (op, x, y, want) in [(5u8, 5i64, 3i64, 2i64), (6, 6, 3, 2), (7, 7, 3, 1)] {
        let mut vm = fresh_vm(vec![
            raw(1, Some(x)),
            raw(1, Some(y)),
            raw(op, None),
            raw(0, None),
        ]);
        assert_eq!(vm.run(), Ok(Some(HaltReason::Halted)));
        assert_eq!(vm.pop(), Some(Value::Number(want)));
    }
}

#[test]
fn add_and_mul() {
    let mut vm = fresh_vm(vec![
        raw(1, Some(4)),
        raw(1, Some(5)),
        raw(3, None),
        raw(1, Some(3)),
        raw(4, None),
    ]);
    assert_eq!(vm.run(), Ok(Some(HaltReason::EndOfProgram)));
    assert_eq!(vm.pop(), Some(Value::Number(27)));
}

#[test]
fn division_by_zero_faults() {
    let mut vm = fresh_vm(vec![raw(1, Some(6)), raw(1, Some(0)), raw(6, None)]);
    assert_eq!(vm.run(), Err(VmError::DivisionByZero));
    let mut vm = fresh_vm(vec![raw(1, Some(6)), raw(1, Some(0)), raw(7, None)]);
    assert_eq!(vm.run(), Err(VmError::DivisionByZero));
}

#[test]
fn division_overflow_wraps() {
    let mut vm = fresh_vm(vec![raw(1, Some(i64::MIN)), raw(1, Some(-1)), raw(6, None)]);
    assert_eq!(vm.run(), Ok(Some(HaltReason::EndOfProgram)));
    assert_eq!(vm.pop(), Some(Value::Number(i64::MIN)));
    let mut vm = fresh_vm(vec![raw(1, Some(i64::MIN)), raw(1, Some(-1)), raw(7, None)]);
    assert_eq!(vm.run(), Ok(Some(HaltReason::EndOfProgram)));
    assert_eq!(vm.pop(), Some(Value::Number(0)));
}

#[test]
fn underflow_terminates_run() {
    let mut vm = fresh_vm(vec![raw(2, None)]);
    assert_eq!(vm.run(), Err(VmError::StackUnderflow));
    let mut vm = fresh_vm(vec![raw(1, Some(1)), raw(3, None)]);
    assert_eq!(vm.run(), Err(VmError::StackUnderflow));
}

#[test]
fn branch_target_is_absolute() {
    // Three instructions, then BRA back to index 0: the first instruction
    // runs again, untouched by the branch's own position.
    let mut vm = fresh_vm(vec![raw(1, Some(1)), raw(1, Some(2)), raw(10, Some(0))]);
    for _ in 0..3 {
        assert_eq!(vm.step(), StepOutcome::Cont);
    }
    // After BRA 0 the next fetch is instruction 0 again.
    assert_eq!(vm.step(), StepOutcome::Cont);
    assert_eq!(vm.pop(), Some(Value::Number(1)));
    assert_eq!(vm.pop(), Some(Value::Number(2)));
    assert_eq!(vm.pop(), Some(Value::Number(1)));
    assert_eq!(vm.pop(), None);
}

#[test]
fn brz_branches_only_on_zero() {
    // PUSH 0; BRZ 3; (skipped) PUSH 7; PUSH 9; HLT
    let mut vm = fresh_vm(vec![
        raw(1, Some(0)),
        raw(8, Some(3)),
        raw(1, Some(7)),
        raw(1, Some(9)),
        raw(0, None),
    ]);
    assert_eq!(vm.run(), Ok(Some(HaltReason::Halted)));
    assert_eq!(vm.pop(), Some(Value::Number(9)));
    assert_eq!(vm.pop(), None);
    // Nonzero top: fall through.
    let mut vm = fresh_vm(vec![
        raw(1, Some(5)),
        raw(8, Some(3)),
        raw(1, Some(7)),
        raw(0, None),
    ]);
    assert_eq!(vm.run(), Ok(Some(HaltReason::Halted)));
    assert_eq!(vm.pop(), Some(Value::Number(7)));
}

#[test]
fn brp_branches_on_zero_or_positive() {
    let mut vm = fresh_vm(vec![raw(1, Some(3)), raw(9, Some(3)), raw(1, Some(7)), raw(0, None)]);
    assert_eq!(vm.run(), Ok(Some(HaltReason::Halted)));
    assert_eq!(vm.pop(), None);
    let mut vm = fresh_vm(vec![raw(1, Some(-2)), raw(9, Some(3)), raw(1, Some(7)), raw(0, None)]);
    assert_eq!(vm.run(), Ok(Some(HaltReason::Halted)));
    assert_eq!(vm.pop(), Some(Value::Number(7)));
}

#[test]
fn dup_then_two_pops_yield_top_twice() {
    let mut vm = fresh_vm(vec![raw(1, Some(9)), raw(11, None)]);
    assert_eq!(vm.run(), Ok(Some(HaltReason::EndOfProgram)));
    assert_eq!(vm.pop(), Some(Value::Number(9)));
    assert_eq!(vm.pop(), Some(Value::Number(9)));
    assert_eq!(vm.pop(), None);
}

#[test]
fn illegal_opcode_halts_and_preserves_state() {
    let mut vm = fresh_vm(vec![raw(1, Some(1)), raw(200, None), raw(1, Some(2))]);
    assert_eq!(vm.run(), Ok(Some(HaltReason::IllegalOpcode)));
    // The stack holds what the last executed instruction left.
    assert_eq!(vm.pop(), Some(Value::Number(1)));
    assert_eq!(vm.pop(), None);
}

#[test]
fn out_emits_and_keeps_top() {
    let mut vm = fresh_vm(vec![raw(1, Some(5)), raw(100, None), raw(0, None)]);
    assert_eq!(vm.run(), Ok(Some(HaltReason::Halted)));
    assert_eq!(vm.take_output(), vec![Value::Number(5)]);
    assert_eq!(vm.pop(), Some(Value::Number(5)));
    assert_eq!(vm.take_output(), vec![]);
}

#[test]
fn halt_stops_before_later_instructions() {
    let mut vm = fresh_vm(vec![raw(0, None), raw(1, Some(8))]);
    assert_eq!(vm.run(), Ok(Some(HaltReason::Halted)));
    assert_eq!(vm.pop(), None);
}

#[test]
fn empty_program_ends_normally() {
    let mut vm = fresh_vm(vec![]);
    assert_eq!(vm.run(), Ok(Some(HaltReason::EndOfProgram)));
}

#[test]
fn pushc_pushes_clone_of_constant() {
    let mut vm = fresh_vm(vec![raw(12, Some(0)), raw(12, Some(0)), raw(0, None)]);
    let key = vm.store_const(Value::Text(vec![104, 105]));
    assert_eq!(key, 0);
    assert_eq!(vm.run(), Ok(Some(HaltReason::Halted)));
    assert_eq!(vm.pop(), Some(Value::Text(vec![104, 105])));
    assert_eq!(vm.pop(), Some(Value::Text(vec![104, 105])));
}

#[test]
fn pushc_missing_key_faults() {
    let mut vm = fresh_vm(vec![raw(12, Some(5))]);
    assert_eq!(vm.run(), Err(VmError::MissingConstant));
    let mut vm = fresh_vm(vec![raw(12, Some(-1))]);
    assert_eq!(vm.run(), Err(VmError::MissingConstant));
}

#[test]
fn arith_on_non_number_is_type_mismatch() {
    let mut vm = fresh_vm(vec![raw(12, Some(0)), raw(12, Some(0)), raw(3, None)]);
    vm.store_const(Value::Nil);
    assert_eq!(vm.run(), Err(VmError::TypeMismatch));
}

#[test]
fn missing_operand_is_type_mismatch() {
    // A hand-built instruction sequence may omit a required operand.
    let mut vm = fresh_vm(vec![raw(1, None)]);
    assert_eq!(vm.run(), Err(VmError::TypeMismatch));
}

#[test]
fn const_pool_keys_are_not_reused() {
    let mut vm = fresh_vm(vec![]);
    assert_eq!(vm.store_const(Value::Number(1)), 0);
    assert_eq!(vm.store_const(Value::Number(2)), 1);
    vm.remove_const(0);
    assert!(vm.get_const_copy(0).is_none());
    // The freed key is not minted again.
    assert_eq!(vm.store_const(Value::Number(3)), 2);
    assert_eq!(vm.get_const_copy(2), Some(Value::Number(3)));
}

#[test]
fn const_pool_get_ref_and_remove_missing() {
    let mut vm = fresh_vm(vec![]);
    vm.store_const(Value::Boolean(true));
    assert_eq!(vm.get_const_ref(0), Some(&Value::Boolean(true)));
    assert!(vm.get_const_ref(7).is_none());
    vm.remove_const(7);
    vm.remove_const(-3);
    assert_eq!(vm.get_const_copy(0), Some(Value::Boolean(true)));
}

#[test]
fn dump_lists_every_instruction() {
    let mut vm = fresh_vm(vec![raw(1, Some(5)), raw(0, None), raw(200, None)]);
    let lines = vm.dump();
    assert_eq!(lines.len(), 3);
    assert_eq!(lines[0].index, 0);
    assert_eq!(lines[0].name, "PUSH");
    assert_eq!(lines[0].opcode, 1);
    assert_eq!(lines[0].operand, Some(5));
    assert_eq!(lines[1].name, "HLT");
    assert_eq!(lines[1].operand, None);
    assert_eq!(lines[2].name, "???");
    assert_eq!(lines[2].opcode, 200);
    // Keep the machine usable afterwards.
    assert_eq!(vm.run(), Ok(Some(HaltReason::Halted)));
}

#[test]
fn run_after_halt_resumes_from_counter() {
    // run clears the halt flag before fetching, so a halted machine resumes.
    let mut vm = fresh_vm(vec![raw(0, None), raw(1, Some(4))]);
    assert_eq!(vm.run(), Ok(Some(HaltReason::Halted)));
    assert_eq!(vm.run(), Ok(Some(HaltReason::EndOfProgram)));
    assert_eq!(vm.pop(), Some(Value::Number(4)));
}

#[test]
fn value_duplicate_is_structural() {
    let v = Value::Text(vec![1, 2, 3]);
    assert_eq!(v.duplicate(), v);
    assert_eq!(Value::Number(-4).duplicate(), Value::Number(-4));
    assert_eq!(Value::Nil.duplicate(), Value::Nil);
    assert_eq!(Value::Boolean(false).duplicate(), Value::Boolean(false));
}
