//! The execution engine: the machine state, the small-step semantics as
//! spec functions, and the virtual machine that is proved to follow them
//! step by step.
use vstd::prelude::*;

use crate::decode::{decode_bytecode, spec_decode};
use crate::errors::{HaltReason, VmError};
use crate::instruction::{
    check_no_duplicates, lookup_opcode, no_dup_opcodes, spec_lookup, Instruction, OpcodeSize,
    RawInstruction,
};
use crate::instruction::Op;
use crate::pool::ConstPool;
use crate::stack::Stack;
use crate::value::{views_of, OperandSize, ToNumber, Value, ValueView};

verus! {

/// The stack capacity a machine gets when none is asked for.
pub const DEFAULT_STACK_SIZE: usize = 128;

/// The whole machine state, mathematically: the contracts of every
/// engine operation are phrased over this.
#[verifier::ext_equal]
pub struct VmState {
    /// The instruction table, immutable for the machine's lifetime.
    pub table: Seq<Instruction>,
    /// The decoded instruction sequence.
    pub code: Seq<RawInstruction>,
    /// The constant pool contents.
    pub pool: Map<usize, ValueView>,
    /// The key the pool mints next.
    pub pool_next: int,
    /// The operand stack, bottom first.
    pub stack: Seq<ValueView>,
    /// The fixed stack capacity.
    pub capacity: nat,
    /// The program counter: the index of the next instruction to fetch.
    pub pc: int,
    /// The halt flag: no further fetch happens once it is raised.
    pub stop: bool,
    /// Everything OUT has emitted, oldest first.
    pub output: Seq<ValueView>,
}

/// What one step of the machine came to.
#[derive(Clone, Copy, Debug, PartialEq, Eq, Structural)]
pub enum StepOutcome {
    /// The instruction ran; the machine is still running.
    Cont,
    /// The machine came to rest without a fault.
    Halt(HaltReason),
    /// A run-time fault; the machine is not resumable.
    Fault(VmError),
}

/// Where a branch lands: the operand clamped to the program-counter
/// range, as a saturating conversion.
pub open spec fn branch_target(t: OperandSize) -> int {
    if t < 0 {
        0
    } else if t > usize::MAX {
        usize::MAX as int
    } else {
        t as int
    }
}

/// The result of an arithmetic opcode on the two popped numbers, in
/// second-minus-top order: `b` was below, `a` on top. Addition,
/// subtraction and multiplication wrap; DIV and MOD truncate toward
/// zero, fault on a zero divisor, and wrap on the one overflowing pair.
pub open spec fn arith_spec(op: Op, a: OperandSize, b: OperandSize) -> Result<
    OperandSize,
    VmError,
> {
    match op {
        Op::Add => Ok(b.wrapping_add(a)),
        Op::Mul => Ok(b.wrapping_mul(a)),
        Op::Sub => Ok(b.wrapping_sub(a)),
        Op::Div => if a == 0 {
            Err(VmError::DivisionByZero)
        } else {
            match b.checked_div(a) {
                Some(c) => Ok(c),
                None => Ok(OperandSize::MIN),
            }
        },
        Op::Mod => if a == 0 {
            Err(VmError::DivisionByZero)
        } else {
            match b.checked_rem(a) {
                Some(c) => Ok(c),
                None => Ok(0),
            }
        },
        _ => Err(VmError::TypeMismatch),
    }
}

/// Pushing a value: grows the stack by one, or faults on a full stack.
pub open spec fn push_step(s: VmState, v: ValueView) -> (VmState, StepOutcome) {
    if s.stack.len() < s.capacity {
        (VmState { stack: s.stack.push(v), ..s }, StepOutcome::Cont)
    } else {
        (s, StepOutcome::Fault(VmError::StackOverflow))
    }
}

/// What one opcode does to the machine state `s` (the program counter
/// already past the instruction), given the operand the instruction
/// carried.
pub open spec fn op_step(s: VmState, op: Op, operand: Option<OperandSize>) -> (
    VmState,
    StepOutcome,
) {
    match op {
        Op::Hlt => (VmState { stop: true, ..s }, StepOutcome::Halt(HaltReason::Halted)),
        Op::Push => match operand {
            None => (s, StepOutcome::Fault(VmError::TypeMismatch)),
            Some(n) => push_step(s, ValueView::Number(n)),
        },
        Op::Pop => if s.stack.len() == 0 {
            (s, StepOutcome::Fault(VmError::StackUnderflow))
        } else {
            (VmState { stack: s.stack.drop_last(), ..s }, StepOutcome::Cont)
        },
        Op::Add | Op::Mul | Op::Sub | Op::Div | Op::Mod => {
            if s.stack.len() == 0 {
                (s, StepOutcome::Fault(VmError::StackUnderflow))
            } else if s.stack.len() == 1 {
                (
                    VmState { stack: s.stack.drop_last(), ..s },
                    StepOutcome::Fault(VmError::StackUnderflow),
                )
            } else {
                let s2 = VmState { stack: s.stack.drop_last().drop_last(), ..s };
                match (s.stack.last(), s.stack.drop_last().last()) {
                    (ValueView::Number(a), ValueView::Number(b)) => match arith_spec(op, a, b) {
                        Ok(c) => push_step(s2, ValueView::Number(c)),
                        Err(e) => (s2, StepOutcome::Fault(e)),
                    },
                    _ => (s2, StepOutcome::Fault(VmError::TypeMismatch)),
                }
            }
        },
        Op::Brz | Op::Brp => match operand {
            None => (s, StepOutcome::Fault(VmError::TypeMismatch)),
            Some(t) => if s.stack.len() == 0 {
                (s, StepOutcome::Fault(VmError::StackUnderflow))
            } else {
                let s2 = VmState { stack: s.stack.drop_last(), ..s };
                match s.stack.last() {
                    ValueView::Number(n) => {
                        let taken = if op == Op::Brz {
                            n == 0
                        } else {
                            n >= 0
                        };
                        if taken {
                            (VmState { pc: branch_target(t), ..s2 }, StepOutcome::Cont)
                        } else {
                            (s2, StepOutcome::Cont)
                        }
                    },
                    _ => (s2, StepOutcome::Fault(VmError::TypeMismatch)),
                }
            },
        },
        Op::Bra => match operand {
            None => (s, StepOutcome::Fault(VmError::TypeMismatch)),
            Some(t) => (VmState { pc: branch_target(t), ..s }, StepOutcome::Cont),
        },
        Op::Dup => if s.stack.len() == 0 {
            (s, StepOutcome::Fault(VmError::StackUnderflow))
        } else {
            push_step(s, s.stack.last())
        },
        Op::Pushc => match operand {
            None => (s, StepOutcome::Fault(VmError::TypeMismatch)),
            Some(t) => if t < 0 {
                (s, StepOutcome::Fault(VmError::MissingConstant))
            } else if t <= usize::MAX && s.pool.contains_key(t as usize) {
                push_step(s, s.pool[t as usize])
            } else {
                (s, StepOutcome::Fault(VmError::MissingConstant))
            },
        },
        Op::Out => if s.stack.len() == 0 {
            (s, StepOutcome::Fault(VmError::StackUnderflow))
        } else {
            (VmState { output: s.output.push(s.stack.last()), ..s }, StepOutcome::Cont)
        },
    }
}

/// One fetch-decode-execute step from state `s`: past the end of the
/// code is the normal end of the program; the counter moves past the
/// instruction before the opcode runs, so a branch writes an absolute
/// index; an opcode without a table row halts the machine with
/// `IllegalOpcode` and touches nothing else.
pub open spec fn step_spec(s: VmState) -> (VmState, StepOutcome) {
    if !(0 <= s.pc < s.code.len()) {
        (VmState { stop: true, ..s }, StepOutcome::Halt(HaltReason::EndOfProgram))
    } else {
        let ri = s.code[s.pc];
        let s1 = VmState { pc: s.pc + 1, ..s };
        match spec_lookup(s.table, ri.opcode) {
            None => (VmState { stop: true, ..s1 }, StepOutcome::Halt(HaltReason::IllegalOpcode)),
            Some(ins) => op_step(s1, ins.op, ri.operand),
        }
    }
}

/// Up to `n` steps from `s`: stops early at the first step whose
/// outcome is not `Cont`; a trailing `Cont` means all `n` steps ran and
/// the machine was still going.
pub open spec fn run_n(s: VmState, n: nat) -> (VmState, StepOutcome)
    decreases n,
{
    if n == 0 {
        (s, StepOutcome::Cont)
    } else {
        let r = step_spec(s);
        if r.1 == StepOutcome::Cont {
            run_n(r.0, (n - 1) as nat)
        } else {
            r
        }
    }
}

/// Taking one more step continues from where `run_n` left off, as long
/// as the machine was still going.
pub proof fn lemma_run_n_snoc(s: VmState, n: nat)
    requires
        run_n(s, n).1 == StepOutcome::Cont,
    ensures
        run_n(s, n + 1).0 == step_spec(run_n(s, n).0).0,
        run_n(s, n + 1).1 == step_spec(run_n(s, n).0).1,
    decreases n,
{
    let r = step_spec(s);
    if n == 0 {
        assert(run_n(s, n) == (s, StepOutcome::Cont));
        if r.1 == StepOutcome::Cont {
            assert(run_n(s, n + 1) == run_n(r.0, 0));
        } else {
            assert(run_n(s, n + 1) == r);
        }
    } else {
        assert(r.1 == StepOutcome::Cont) by {
            if r.1 != StepOutcome::Cont {
                assert(run_n(s, n) == r);
            }
        }
        lemma_run_n_snoc(r.0, (n - 1) as nat);
        assert(run_n(s, n) == run_n(r.0, (n - 1) as nat));
        assert(run_n(s, n + 1) == run_n(r.0, ((n - 1) as nat) + 1));
    }
}


/// The virtual machine: the instruction table, the decoded code, the
/// constant pool, the operand stack, the program counter, the halt
/// flag, and the observation channel OUT writes to.
pub struct VM {
    instruction_set: Vec<Instruction>,
    code: Vec<RawInstruction>,
    const_pool: ConstPool,
    stack: Stack<Value>,
    pc: usize,
    stop: bool,
    output: Vec<Value>,
}

impl View for VM {
    type V = VmState;

    closed spec fn view(&self) -> VmState {
        VmState {
            table: self.instruction_set@,
            code: self.code@,
            pool: self.const_pool@,
            pool_next: self.const_pool.next_key() as int,
            stack: views_of(self.stack@),
            capacity: self.stack.capacity(),
            pc: self.pc as int,
            stop: self.stop,
            output: views_of(self.output@),
        }
    }
}

impl VM {
    /// Well-formedness: the stack and the pool keep their invariants.
    pub closed spec fn wf(&self) -> bool {
        self.stack.wf() && self.const_pool.wf()
    }

    /// In a well-formed machine the stack never exceeds its capacity
    /// and the pool counter sits above every key.
    pub proof fn lemma_wf_state(&self)
        requires
            self.wf(),
        ensures
            self@.stack.len() <= self@.capacity,
            forall|k: usize| self@.pool.contains_key(k) ==> k < self@.pool_next,
    {
        self.stack.lemma_wf_len();
        self.const_pool.lemma_wf_keys();
    }

    /// Builds a machine from an instruction table, optional starting
    /// code and constants, and an optional stack capacity (128 when
    /// none is given). A table with two rows for one opcode is refused.
    pub fn new(
        instruction_set: Vec<Instruction>,
        initial_code: Option<Vec<RawInstruction>>,
        initial_consts: Option<ConstPool>,
        stack_size: Option<usize>,
    ) -> (r: Result<VM, VmError>)
        requires
            match initial_consts {
                Some(p) => p.wf(),
                None => true,
            },
        ensures
            match r {
                Ok(vm) => {
                    &&& no_dup_opcodes(instruction_set@)
                    &&& vm.wf()
                    &&& vm@.table == instruction_set@
                    &&& vm@.code == match initial_code {
                        Some(c) => c@,
                        None => Seq::<RawInstruction>::empty(),
                    }
                    &&& vm@.pool == match initial_consts {
                        Some(p) => p@,
                        None => Map::<usize, ValueView>::empty(),
                    }
                    &&& vm@.pool_next == match initial_consts {
                        Some(p) => p.next_key() as int,
                        None => 0int,
                    }
                    &&& vm@.stack == Seq::<ValueView>::empty()
                    &&& vm@.capacity == match stack_size {
                        Some(n) => n as nat,
                        None => DEFAULT_STACK_SIZE as nat,
                    }
                    &&& vm@.pc == 0
                    &&& vm@.stop == false
                    &&& vm@.output == Seq::<ValueView>::empty()
                },
                Err(e) => e == VmError::DuplicateOpcode && !no_dup_opcodes(instruction_set@),
            },
    {
        if !check_no_duplicates(&instruction_set) {
            return Err(VmError::DuplicateOpcode);
        }
        let local_initial_code: Vec<RawInstruction> = match initial_code {
            Some(raw) => raw,
            None => Vec::new(),
        };
        let local_initial_consts: ConstPool = match initial_consts {
            Some(consts) => consts,
            None => ConstPool::new(),
        };
        let local_stack_size: usize = match stack_size {
            Some(size) => size,
            None => DEFAULT_STACK_SIZE,
        };
        let vm = VM {
            instruction_set,
            code: local_initial_code,
            const_pool: local_initial_consts,
            stack: Stack::new(local_stack_size),
            pc: 0,
            stop: false,
            output: Vec::new(),
        };
        proof {
            assert(views_of(vm.stack@) =~= Seq::<ValueView>::empty());
            assert(views_of(vm.output@) =~= Seq::<ValueView>::empty());
        }
        Ok(vm)
    }

    /// The first table row matching `opcode`, the dispatch lookup.
    pub fn get_instruction_match_for_opcode(&self, opcode: OpcodeSize) -> (r: Option<
        &Instruction,
    >)
        ensures
            match r {
                Some(ins) => spec_lookup(self@.table, opcode) == Some(*ins),
                None => spec_lookup(self@.table, opcode) is None,
            },
    {
        lookup_opcode(&self.instruction_set, opcode)
    }

    /// Pops the topmost item off the operand stack; `None` on an empty
    /// stack.
    pub fn pop(&mut self) -> (r: Option<Value>)
        requires
            old(self).wf(),
        ensures
            final(self).wf(),
            match r {
                Some(v) => old(self)@.stack.len() > 0 && v@ == old(self)@.stack.last()
                    && final(self)@ == (VmState {
                    stack: old(self)@.stack.drop_last(),
                    ..old(self)@
                }),
                None => old(self)@.stack.len() == 0 && final(self)@ == old(self)@,
            },
    {
        let ghost prev = self.stack@;
        let r = self.stack.pop();
        proof {
            if prev.len() > 0 {
                crate::value::lemma_views_of_drop_last(prev);
                assert(self@ =~= (VmState { stack: old(self)@.stack.drop_last(), ..old(self)@ }));
            } else {
                assert(self@ =~= old(self)@);
            }
        }
        r
    }

    /// Pushes a value onto the operand stack; a full stack is an
    /// overflow fault.
    pub fn push(&mut self, operand: Value) -> (r: Result<(), VmError>)
        requires
            old(self).wf(),
        ensures
            final(self).wf(),
            old(self)@.stack.len() < old(self)@.capacity ==> r == Ok::<(), VmError>(())
                && final(self)@ == (VmState {
                stack: old(self)@.stack.push(operand@),
                ..old(self)@
            }),
            old(self)@.stack.len() >= old(self)@.capacity ==> r == Err::<(), VmError>(
                VmError::StackOverflow,
            ) && final(self)@ == old(self)@,
    {
        proof {
            self.stack.lemma_wf_len();
        }
        let ghost prev = self.stack@;
        let ghost vv = operand@;
        let r = self.stack.push(operand);
        proof {
            if prev.len() < old(self).stack.capacity() {
                crate::value::lemma_views_of_push(prev, self.stack@, vv);
                assert(self@ =~= (VmState { stack: old(self)@.stack.push(vv), ..old(self)@ }));
            } else {
                assert(self@ =~= old(self)@);
            }
        }
        r
    }

    /// A read-only borrow of the top of the operand stack.
    pub fn peek(&self) -> (r: Option<&Value>)
        ensures
            match r {
                Some(v) => self@.stack.len() > 0 && v@ == self@.stack.last(),
                None => self@.stack.len() == 0,
            },
    {
        self.stack.peek()
    }

    /// Redirects the program counter to the given absolute instruction
    /// index, clamped into range as a saturating conversion.
    pub fn branch(&mut self, operand: OperandSize)
        requires
            old(self).wf(),
        ensures
            final(self).wf(),
            final(self)@ == (VmState { pc: branch_target(operand), ..old(self)@ }),
    {
        if operand < 0 {
            self.pc = 0;
        } else {
            let wide = operand as u64;
            if wide > usize::MAX as u64 {
                self.pc = usize::MAX;
            } else {
                self.pc = wide as usize;
            }
        }
        proof {
            assert(self@ =~= (VmState { pc: branch_target(operand), ..old(self)@ }));
        }
    }

    /// Raises the halt flag: the next fetch will not happen.
    pub fn halt(&mut self)
        requires
            old(self).wf(),
        ensures
            final(self).wf(),
            final(self)@ == (VmState { stop: true, ..old(self)@ }),
    {
        self.stop = true;
        proof {
            assert(self@ =~= (VmState { stop: true, ..old(self)@ }));
        }
    }

    /// A read-only borrow of the pool value at `key`; a negative key
    /// holds nothing.
    pub fn get_const_ref(&self, key: OperandSize) -> (r: Option<&Value>)
        ensures
            match r {
                Some(v) => 0 <= key <= usize::MAX && self@.pool.contains_key(key as usize)
                    && v@ == self@.pool[key as usize],
                None => key < 0 || key > usize::MAX || !self@.pool.contains_key(key as usize),
            },
    {
        if key < 0 {
            return None;
        }
        let wide = key as u64;
        if wide > usize::MAX as u64 {
            return None;
        }
        self.const_pool.get_ref(wide as usize)
    }

    /// A clone of the pool value at `key`; a negative key holds
    /// nothing.
    pub fn get_const_copy(&self, key: OperandSize) -> (r: Option<Value>)
        ensures
            match r {
                Some(v) => 0 <= key <= usize::MAX && self@.pool.contains_key(key as usize)
                    && v@ == self@.pool[key as usize],
                None => key < 0 || key > usize::MAX || !self@.pool.contains_key(key as usize),
            },
    {
        if key < 0 {
            return None;
        }
        let wide = key as u64;
        if wide > usize::MAX as u64 {
            return None;
        }
        self.const_pool.get_copy(wide as usize)
    }

    /// Removes the pool value at `key`; a missing or negative key is a
    /// no-op.
    pub fn remove_const(&mut self, key: OperandSize)
        requires
            old(self).wf(),
        ensures
            final(self).wf(),
            0 <= key <= usize::MAX ==> final(self)@ == (VmState {
                pool: old(self)@.pool.remove(key as usize),
                ..old(self)@
            }),
            key < 0 || key > usize::MAX ==> final(self)@ == old(self)@,
    {
        if key < 0 {
            return ;
        }
        let wide = key as u64;
        if wide > usize::MAX as u64 {
            return ;
        }
        self.const_pool.remove(wide as usize);
        proof {
            assert(self@ =~= (VmState {
                pool: old(self)@.pool.remove(key as usize),
                ..old(self)@
            }));
        }
    }

    /// Files a value in the pool under a freshly minted key and returns
    /// that key. The counter is a machine-sized integer, so it must not
    /// yet stand at its maximum.
    pub fn store_const(&mut self, value: Value) -> (r: usize)
        requires
            old(self).wf(),
            old(self)@.pool_next < usize::MAX,
        ensures
            final(self).wf(),
            r == old(self)@.pool_next,
            final(self)@ == (VmState {
                pool: old(self)@.pool.insert(r, value@),
                pool_next: old(self)@.pool_next + 1,
                ..old(self)@
            }),
    {
        let ghost vv = value@;
        let key = self.const_pool.store(value);
        proof {
            assert(self@ =~= (VmState {
                pool: old(self)@.pool.insert(key, vv),
                pool_next: old(self)@.pool_next + 1,
                ..old(self)@
            }));
        }
        key
    }

    /// Hands over everything OUT has emitted so far and empties the
    /// channel.
    pub fn take_output(&mut self) -> (r: Vec<Value>)
        requires
            old(self).wf(),
        ensures
            final(self).wf(),
            views_of(r@) == old(self)@.output,
            final(self)@ == (VmState { output: Seq::<ValueView>::empty(), ..old(self)@ }),
    {
        let mut out: Vec<Value> = Vec::new();
        core::mem::swap(&mut out, &mut self.output);
        proof {
            assert(views_of(self.output@) =~= Seq::<ValueView>::empty());
            assert(self@ =~= (VmState { output: Seq::<ValueView>::empty(), ..old(self)@ }));
        }
        out
    }
}


/// The bound on steps one `run` call will take: past it the caller gets
/// the machine back still running. No real program reaches it.
pub const RUN_FUEL: u64 = u64::MAX;

/// A constants section merged into a pool: entry `k` of the section
/// lands at key `k`, overwriting; every other key keeps its value.
pub open spec fn merge_consts(pool: Map<usize, ValueView>, vs: Seq<ValueView>) -> Map<
    usize,
    ValueView,
> {
    Map::new(
        |k: usize| pool.contains_key(k) || k < vs.len(),
        |k: usize| if k < vs.len() {
            vs[k as int]
        } else {
            pool[k]
        },
    )
}

/// The pool counter after a merge: raised to the section length where
/// that exceeds it.
pub open spec fn merged_next(next: int, n: int) -> int {
    if n > next {
        n
    } else {
        next
    }
}

/// One line of a code listing: the instruction's index, the table name
/// of its opcode, the opcode, and the operand if it carries one.
pub struct DumpLine {
    pub index: usize,
    pub name: &'static str,
    pub opcode: OpcodeSize,
    pub operand: Option<OperandSize>,
}

impl VM {
    /// Runs one opcode against the machine (program counter already
    /// advanced), with the operand the instruction carried; the
    /// executable twin of `op_step`.
    fn exec_op(&mut self, op: Op, operand: Option<OperandSize>) -> (r: StepOutcome)
        requires
            old(self).wf(),
        ensures
            final(self).wf(),
            final(self)@ == op_step(old(self)@, op, operand).0,
            r == op_step(old(self)@, op, operand).1,
    {
        proof {
            old(self).lemma_wf_state();
        }
        match op {
            Op::Hlt => {
                self.halt();
                StepOutcome::Halt(HaltReason::Halted)
            },
            Op::Push => match operand {
                None => StepOutcome::Fault(VmError::TypeMismatch),
                Some(n) => match self.push(Value::Number(n)) {
                    Ok(()) => StepOutcome::Cont,
                    Err(e) => StepOutcome::Fault(e),
                },
            },
            Op::Pop => match self.pop() {
                Some(_) => StepOutcome::Cont,
                None => StepOutcome::Fault(VmError::StackUnderflow),
            },
            Op::Add | Op::Mul | Op::Sub | Op::Div | Op::Mod => {
                let r = self.exec_arith(op);
                proof {
                    assert(op_step(old(self)@, op, operand) == op_step(old(self)@, op, None));
                }
                r
            },
            Op::Brz | Op::Brp => match operand {
                None => StepOutcome::Fault(VmError::TypeMismatch),
                Some(t) => {
                    let a = match self.pop() {
                        Some(v) => v,
                        None => {
                            return StepOutcome::Fault(VmError::StackUnderflow);
                        },
                    };
                    match a.to_number() {
                        Err(()) => StepOutcome::Fault(VmError::TypeMismatch),
                        Ok(n) => {
                            let taken = if op == Op::Brz {
                                n == 0
                            } else {
                                n >= 0
                            };
                            if taken {
                                self.branch(t);
                            }
                            StepOutcome::Cont
                        },
                    }
                },
            },
            Op::Bra => match operand {
                None => StepOutcome::Fault(VmError::TypeMismatch),
                Some(t) => {
                    self.branch(t);
                    StepOutcome::Cont
                },
            },
            Op::Dup => {
                let copy = match self.peek() {
                    Some(v) => v.duplicate(),
                    None => {
                        return StepOutcome::Fault(VmError::StackUnderflow);
                    },
                };
                match self.push(copy) {
                    Ok(()) => StepOutcome::Cont,
                    Err(e) => StepOutcome::Fault(e),
                }
            },
            Op::Pushc => match operand {
                None => StepOutcome::Fault(VmError::TypeMismatch),
                Some(t) => match self.get_const_copy(t) {
                    None => StepOutcome::Fault(VmError::MissingConstant),
                    Some(v) => match self.push(v) {
                        Ok(()) => StepOutcome::Cont,
                        Err(e) => StepOutcome::Fault(e),
                    },
                },
            },
            Op::Out => {
                let v = match self.pop() {
                    Some(v) => v,
                    None => {
                        return StepOutcome::Fault(VmError::StackUnderflow);
                    },
                };
                let copy = v.duplicate();
                let ghost prev_out = self.output@;
                self.output.push(copy);
                proof {
                    crate::value::lemma_views_of_push(prev_out, self.output@, v@);
                }
                let pushed = self.push(v);
                proof {
                    assert(pushed is Ok);
                    assert(self@.stack =~= old(self)@.stack);
                    assert(self@ =~= (VmState {
                        output: old(self)@.output.push(old(self)@.stack.last()),
                        ..old(self)@
                    }));
                }
                StepOutcome::Cont
            },
        }
    }

    /// The five arithmetic opcodes: pop the top (`a`), pop the second
    /// (`b`), compute in second-minus-top order, push the result.
    fn exec_arith(&mut self, op: Op) -> (r: StepOutcome)
        requires
            old(self).wf(),
            op == Op::Add || op == Op::Mul || op == Op::Sub || op == Op::Div || op == Op::Mod,
        ensures
            final(self).wf(),
            final(self)@ == op_step(old(self)@, op, None).0,
            r == op_step(old(self)@, op, None).1,
    {
        proof {
            old(self).lemma_wf_state();
        }
        let a = match self.pop() {
            Some(v) => v,
            None => {
                return StepOutcome::Fault(VmError::StackUnderflow);
            },
        };
        let b = match self.pop() {
            Some(v) => v,
            None => {
                return StepOutcome::Fault(VmError::StackUnderflow);
            },
        };
        let an = match a.to_number() {
            Ok(x) => x,
            Err(()) => {
                return StepOutcome::Fault(VmError::TypeMismatch);
            },
        };
        let bn = match b.to_number() {
            Ok(x) => x,
            Err(()) => {
                return StepOutcome::Fault(VmError::TypeMismatch);
            },
        };
        let c: OperandSize;
        if op == Op::Add {
            c = bn.wrapping_add(an);
        } else if op == Op::Mul {
            c = bn.wrapping_mul(an);
        } else if op == Op::Sub {
            c = bn.wrapping_sub(an);
        } else if op == Op::Div {
            if an == 0 {
                return StepOutcome::Fault(VmError::DivisionByZero);
            }
            c = match bn.checked_div(an) {
                Some(q) => q,
                None => OperandSize::MIN,
            };
        } else {
            if an == 0 {
                return StepOutcome::Fault(VmError::DivisionByZero);
            }
            c = match bn.checked_rem(an) {
                Some(q) => q,
                None => 0,
            };
        }
        match self.push(Value::Number(c)) {
            Ok(()) => StepOutcome::Cont,
            Err(e) => StepOutcome::Fault(e),
        }
    }

    /// One fetch-decode-execute step; the executable twin of
    /// `step_spec`.
    pub fn step(&mut self) -> (r: StepOutcome)
        requires
            old(self).wf(),
        ensures
            final(self).wf(),
            final(self)@ == step_spec(old(self)@).0,
            r == step_spec(old(self)@).1,
    {
        if self.pc >= self.code.len() {
            self.stop = true;
            proof {
                assert(self@ =~= (VmState { stop: true, ..old(self)@ }));
            }
            return StepOutcome::Halt(HaltReason::EndOfProgram);
        }
        let ri = self.code[self.pc];
        self.pc = self.pc + 1;
        let op: Op;
        match lookup_opcode(&self.instruction_set, ri.opcode) {
            None => {
                self.stop = true;
                proof {
                    assert(self@ =~= (VmState {
                        pc: old(self)@.pc + 1,
                        stop: true,
                        ..old(self)@
                    }));
                }
                return StepOutcome::Halt(HaltReason::IllegalOpcode);
            },
            Some(ins) => {
                op = ins.op;
            },
        }
        proof {
            assert(self@ =~= (VmState { pc: old(self)@.pc + 1, ..old(self)@ }));
        }
        self.exec_op(op, ri.operand)
    }

    /// Runs until the machine comes to rest or faults: at most
    /// `RUN_FUEL` steps, far past what any real program takes;
    /// `Ok(None)` hands the machine back still running after that many.
    pub fn run(&mut self) -> (r: Result<Option<HaltReason>, VmError>)
        requires
            old(self).wf(),
        ensures
            final(self).wf(),
            ({
                let start = VmState { stop: false, ..old(self)@ };
                match r {
                    Ok(opt) => match opt {
                        Some(h) => exists|n: nat|
                            #![trigger run_n(start, n)]
                            n <= RUN_FUEL && run_n(start, n).1 == StepOutcome::Halt(h)
                                && final(self)@ == run_n(start, n).0,
                        None => run_n(start, RUN_FUEL as nat).1 == StepOutcome::Cont
                            && final(self)@ == run_n(start, RUN_FUEL as nat).0,
                    },
                    Err(e) => exists|n: nat|
                        #![trigger run_n(start, n)]
                        n <= RUN_FUEL && run_n(start, n).1 == StepOutcome::Fault(e)
                            && final(self)@ == run_n(start, n).0,
                }
            }),
    {
        self.stop = false;
        proof {
            assert(self@ =~= (VmState { stop: false, ..old(self)@ }));
        }
        let ghost start = self@;
        let mut fuel: u64 = RUN_FUEL;
        let ghost mut steps: nat = 0nat;
        loop
            invariant
                self.wf(),
                start == (VmState { stop: false, ..old(self)@ }),
                steps + fuel == RUN_FUEL,
                run_n(start, steps).0 == self@,
                run_n(start, steps).1 == StepOutcome::Cont,
            decreases fuel,
        {
            if fuel == 0 {
                return Ok(None);
            }
            let o = self.step();
            proof {
                lemma_run_n_snoc(start, steps);
                steps = steps + 1;
            }
            fuel = fuel - 1;
            match o {
                StepOutcome::Cont => {},
                StepOutcome::Halt(h) => {
                    proof {
                        assert(run_n(start, steps).1 == StepOutcome::Halt(h));
                        assert(run_n(start, steps).0 == self@);
                        assert(steps <= RUN_FUEL);
                    }
                    return Ok(Some(h));
                },
                StepOutcome::Fault(e) => {
                    proof {
                        assert(run_n(start, steps).1 == StepOutcome::Fault(e));
                        assert(run_n(start, steps).0 == self@);
                        assert(steps <= RUN_FUEL);
                    }
                    return Err(e);
                },
            }
        }
    }

    /// Decodes a bytecode buffer and loads it: the decoded instructions
    /// are appended to the code, the decoded constants merged into the
    /// pool at keys counted from zero. Any decode fault rejects the
    /// whole buffer and the machine keeps its state.
    pub fn load_bytecode(&mut self, bytecode: &Vec<u8>) -> (r: Result<(), VmError>)
        requires
            old(self).wf(),
        ensures
            final(self).wf(),
            match spec_decode(bytecode@, old(self)@.table) {
                Ok(p) => r == Ok::<(), VmError>(()) && final(self)@ == (VmState {
                    code: old(self)@.code + p.1,
                    pool: merge_consts(old(self)@.pool, p.0),
                    pool_next: merged_next(old(self)@.pool_next, p.0.len() as int),
                    ..old(self)@
                }),
                Err(e) => r == Err::<(), VmError>(e) && final(self)@ == old(self)@,
            },
    {
        match decode_bytecode(bytecode, &self.instruction_set) {
            Err(e) => Err(e),
            Ok((mut consts, mut new_code)) => {
                let ghost cvs = views_of(consts@);
                let ghost rs = new_code@;
                let ghost mid = old(self)@;
                let ghost orig = consts@;
                let mut i = consts.len();
                proof {
                    assert(consts@ == orig.subrange(0, i as int)) by {
                        assert(orig.subrange(0, orig.len() as int) =~= orig);
                    }
                    assert(self@.pool =~= partial_merge(mid.pool, cvs, i as int));
                }
                while i > 0
                    invariant
                        i <= orig.len(),
                        cvs == views_of(orig),
                        consts@ == orig.subrange(0, i as int),
                        self.wf(),
                        self@ == (VmState {
                            pool: partial_merge(mid.pool, cvs, i as int),
                            pool_next: if (i as int) < cvs.len() {
                                merged_next(mid.pool_next, cvs.len() as int)
                            } else {
                                mid.pool_next
                            },
                            ..mid
                        }),
                    decreases i,
                {
                    let ghost prev_pool = self@.pool;
                    let v = match consts.pop() {
                        Some(v) => v,
                        None => {
                            proof {
                                assert(false);
                            }
                            return Err(VmError::TruncatedBytecode);
                        },
                    };
                    i = i - 1;
                    proof {
                        assert(consts@ =~= orig.subrange(0, i as int));
                        assert(v == orig.subrange(0, i + 1)[i as int]);
                        assert(v@ == cvs[i as int]);
                    }
                    self.insert_const_at(i, v);
                    proof {
                        assert(self@.pool =~= partial_merge(mid.pool, cvs, i as int));
                        assert(self@ =~= (VmState {
                            pool: partial_merge(mid.pool, cvs, i as int),
                            pool_next: if (i as int) < cvs.len() {
                                merged_next(mid.pool_next, cvs.len() as int)
                            } else {
                                mid.pool_next
                            },
                            ..mid
                        }));
                    }
                }
                proof {
                    assert(partial_merge(mid.pool, cvs, 0) =~= merge_consts(mid.pool, cvs));
                    assert(merged_next(mid.pool_next, cvs.len() as int) == (if 0 < cvs.len() {
                        merged_next(mid.pool_next, cvs.len() as int)
                    } else {
                        mid.pool_next
                    }));
                }
                self.code.append(&mut new_code);
                proof {
                    assert(self@ =~= (VmState {
                        code: mid.code + rs,
                        pool: merge_consts(mid.pool, cvs),
                        pool_next: merged_next(mid.pool_next, cvs.len() as int),
                        ..mid
                    }));
                }
                Ok(())
            },
        }
    }

    /// Files one decoded constant at a fixed key, raising the pool
    /// counter past it.
    fn insert_const_at(&mut self, key: usize, value: Value)
        requires
            old(self).wf(),
            key < usize::MAX,
        ensures
            final(self).wf(),
            final(self)@ == (VmState {
                pool: old(self)@.pool.insert(key, value@),
                pool_next: merged_next(old(self)@.pool_next, key + 1),
                ..old(self)@
            }),
    {
        let ghost vv = value@;
        self.const_pool.insert_at(key, value);
        proof {
            assert(self@ =~= (VmState {
                pool: old(self)@.pool.insert(key, vv),
                pool_next: merged_next(old(self)@.pool_next, key + 1),
                ..old(self)@
            }));
        }
    }

    /// A readable listing of the loaded code: one line per instruction
    /// with its index, the table name of its opcode (`???` where the
    /// table has no row), and its operand.
    pub fn dump(&self) -> (r: Vec<DumpLine>)
        ensures
            r@.len() == self@.code.len(),
            forall|k: int|
                #![trigger r@[k]]
                0 <= k < r@.len() ==> {
                    &&& r@[k].index == k
                    &&& r@[k].opcode == self@.code[k].opcode
                    &&& r@[k].operand == self@.code[k].operand
                    &&& r@[k].name == (match spec_lookup(self@.table, self@.code[k].opcode) {
                        Some(ins) => ins.name,
                        None => "???",
                    })
                },
    {
        let mut out: Vec<DumpLine> = Vec::new();
        let n = self.code.len();
        let mut k: usize = 0;
        while k < n
            invariant
                k <= n,
                n == self.code@.len(),
                out@.len() == k,
                forall|j: int|
                    #![trigger out@[j]]
                    0 <= j < k ==> {
                        &&& out@[j].index == j
                        &&& out@[j].opcode == self.code@[j].opcode
                        &&& out@[j].operand == self.code@[j].operand
                        &&& out@[j].name == (match spec_lookup(
                            self.instruction_set@,
                            self.code@[j].opcode,
                        ) {
                            Some(ins) => ins.name,
                            None => "???",
                        })
                    },
            decreases n - k,
        {
            let ri = self.code[k];
            let name: &'static str = match lookup_opcode(&self.instruction_set, ri.opcode) {
                Some(ins) => ins.name,
                None => "???",
            };
            out.push(DumpLine { index: k, name, opcode: ri.opcode, operand: ri.operand });
            k = k + 1;
        }
        out
    }
}

/// The pool after the section entries from `i` on have been merged in.
pub open spec fn partial_merge(pool: Map<usize, ValueView>, vs: Seq<ValueView>, i: int) -> Map<
    usize,
    ValueView,
> {
    Map::new(
        |k: usize| pool.contains_key(k) || (i <= k < vs.len()),
        |k: usize| if i <= k < vs.len() {
            vs[k as int]
        } else {
            pool[k]
        },
    )
}

} // verus!
