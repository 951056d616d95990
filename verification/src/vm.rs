use vstd::prelude::*;
use std::collections::HashMap;
use crate::instruction::Instruction;

verus! {

broadcast use vstd::std_specs::hash::group_hash_axioms;

/// A runtime datum held in one stack slot.
#[derive(Debug, Clone, Copy, PartialEq, Eq, Structural)]
pub enum Value {
    Int(i64),
}

/// One entry on the program's output stream: either a printed value or a
/// string literal printed verbatim.
#[derive(Debug, Clone, PartialEq, Eq)]
pub enum OutputItem {
    Num(i64),
    Text(String),
}

/// A fatal condition during execution.  Execution aborts immediately;
/// no partial result is returned, though output emitted before the
/// failure point is kept.
#[derive(Debug, Clone, Copy, PartialEq, Eq, Structural)]
pub enum RuntimeError {
    /// An instruction needed more operands than the stack holds.
    StackUnderflow,
    /// Integer division or modulo by zero.
    DivisionByZero,
    /// A shift amount outside `0..64`.
    InvalidShift,
    /// A dereference, address-of or local access outside the stack.
    AddressOutOfRange,
    /// A jump names a label id with no `Label` marker in the program.
    UnresolvedLabel,
    /// A `Call` targets an entry index missing from the arity table.
    MissingArity,
    /// A saved frame pointer or return index was negative or too large.
    InvalidFrame,
    /// The interpreter's internal step budget ran out.
    StepLimitExceeded,
}

/// The integer held by a value.
pub open spec fn int_of(v: Value) -> i64 {
    match v {
        Value::Int(n) => n,
    }
}

/// Two's-complement wrapping negation.
pub open spec fn neg_wrap(x: i64) -> i64 {
    if x == i64::MIN {
        i64::MIN
    } else {
        (-x) as i64
    }
}

/// Truncating signed division, wrapping on `i64::MIN / -1`.
pub open spec fn div_wrap(x: i64, y: i64) -> i64
    recommends
        y != 0,
{
    if x == i64::MIN && y == -1 {
        i64::MIN
    } else {
        match x.checked_div(y) {
            Some(q) => q,
            None => 0,
        }
    }
}

/// Remainder of truncating signed division, wrapping on `i64::MIN % -1`.
pub open spec fn rem_wrap(x: i64, y: i64) -> i64
    recommends
        y != 0,
{
    if x == i64::MIN && y == -1 {
        0
    } else {
        match x.checked_rem(y) {
            Some(r) => r,
            None => 0,
        }
    }
}

/// Left shift by an amount in `0..64`.
pub open spec fn shl_val(x: i64, y: i64) -> i64
    recommends
        0 <= y < 64,
{
    vstd::wrapping::i64_specs::wrapping_shl(x, y as u32)
}

/// Arithmetic right shift by an amount in `0..64`.
pub open spec fn shr_val(x: i64, y: i64) -> i64
    recommends
        0 <= y < 64,
{
    vstd::wrapping::i64_specs::wrapping_shr(x, y as u32)
}

/// An abstract machine configuration: the value stack, the frame
/// pointer, the instruction pointer and the output emitted so far.
#[verifier::ext_equal]
pub struct MachineState {
    pub stack: Seq<Value>,
    pub fp: nat,
    pub ip: nat,
    pub out: Seq<OutputItem>,
}

/// The result of stepping the abstract machine: still running, halted
/// with the program result and the final stack, frame pointer and
/// output, or failed with the output flushed before the failure.
#[verifier::ext_equal]
pub enum Outcome {
    Running(MachineState),
    Halted(Option<i64>, Seq<Value>, nat, Seq<OutputItem>),
    Failed(RuntimeError, Seq<OutputItem>),
}

/// The label-resolution table of the first `n` instructions: each
/// `Label(id)` maps its id to its own instruction index, a later marker
/// overriding an earlier one with the same id.
pub open spec fn spec_labels_upto(code: Seq<Instruction>, n: int) -> Map<usize, usize>
    decreases n,
{
    if n <= 0 {
        Map::empty()
    } else {
        let m = spec_labels_upto(code, n - 1);
        match code[n - 1] {
            Instruction::Label(id) => m.insert(id, (n - 1) as usize),
            _ => m,
        }
    }
}

/// The label-resolution table of a whole program.
pub open spec fn spec_labels(code: Seq<Instruction>) -> Map<usize, usize> {
    spec_labels_upto(code, code.len() as int)
}

/// Whether an instruction pops two operands and pushes one result.
pub open spec fn is_binop(i: Instruction) -> bool {
    match i {
        Instruction::Add
        | Instruction::Sub
        | Instruction::Mul
        | Instruction::Div
        | Instruction::Mod
        | Instruction::Eq
        | Instruction::Ne
        | Instruction::Lt
        | Instruction::Gt
        | Instruction::Le
        | Instruction::Ge
        | Instruction::BitAnd
        | Instruction::BitOr
        | Instruction::BitXor
        | Instruction::Shl
        | Instruction::Shr => true,
        _ => false,
    }
}

/// The value a binary instruction computes from operands `x` (deeper)
/// and `y` (top of stack), or the error it raises.  Comparisons yield
/// an integer 0/1; division and modulo by zero and out-of-range shift
/// amounts are fatal.
pub open spec fn spec_binop(i: Instruction, x: i64, y: i64) -> Result<Value, RuntimeError> {
    match i {
        Instruction::Add => Ok(Value::Int(vstd::wrapping::i64_specs::wrapping_add(x, y))),
        Instruction::Sub => Ok(Value::Int(vstd::wrapping::i64_specs::wrapping_sub(x, y))),
        Instruction::Mul => Ok(Value::Int(vstd::wrapping::i64_specs::wrapping_mul(x, y))),
        Instruction::Div => if y == 0 {
            Err(RuntimeError::DivisionByZero)
        } else {
            Ok(Value::Int(div_wrap(x, y)))
        },
        Instruction::Mod => if y == 0 {
            Err(RuntimeError::DivisionByZero)
        } else {
            Ok(Value::Int(rem_wrap(x, y)))
        },
        Instruction::Eq => Ok(Value::Int(if x == y { 1 } else { 0 })),
        Instruction::Ne => Ok(Value::Int(if x != y { 1 } else { 0 })),
        Instruction::Lt => Ok(Value::Int(if x < y { 1 } else { 0 })),
        Instruction::Gt => Ok(Value::Int(if x > y { 1 } else { 0 })),
        Instruction::Le => Ok(Value::Int(if x <= y { 1 } else { 0 })),
        Instruction::Ge => Ok(Value::Int(if x >= y { 1 } else { 0 })),
        Instruction::BitAnd => Ok(Value::Int(x & y)),
        Instruction::BitOr => Ok(Value::Int(x | y)),
        Instruction::BitXor => Ok(Value::Int(x ^ y)),
        Instruction::Shl => if y < 0 || y >= 64 {
            Err(RuntimeError::InvalidShift)
        } else {
            Ok(Value::Int(shl_val(x, y)))
        },
        Instruction::Shr => if y < 0 || y >= 64 {
            Err(RuntimeError::InvalidShift)
        } else {
            Ok(Value::Int(shr_val(x, y)))
        },
        _ => Ok(Value::Int(0)),
    }
}

/// One step of the abstract machine.  Running past the end of the
/// program halts it: the top of stack, if any, is popped and returned
/// as the program result.
pub open spec fn spec_step(
    code: Seq<Instruction>,
    labels: Map<usize, usize>,
    arity: Map<usize, usize>,
    s: MachineState,
) -> Outcome {
    if s.ip >= code.len() {
        if s.stack.len() == 0 {
            Outcome::Halted(None, s.stack, s.fp, s.out)
        } else {
            Outcome::Halted(Some(int_of(s.stack.last())), s.stack.drop_last(), s.fp, s.out)
        }
    } else {
        let instr = code[s.ip as int];
        if is_binop(instr) {
            if s.stack.len() < 2 {
                Outcome::Failed(RuntimeError::StackUnderflow, s.out)
            } else {
                let y = int_of(s.stack.last());
                let x = int_of(s.stack.drop_last().last());
                match spec_binop(instr, x, y) {
                    Ok(v) => Outcome::Running(
                        MachineState {
                            stack: s.stack.drop_last().drop_last().push(v),
                            ip: (s.ip + 1) as nat, fp: s.fp, out: s.out, },
                    ),
                    Err(e) => Outcome::Failed(e, s.out),
                }
            }
        } else {
            match instr {
                Instruction::Imm(n) => Outcome::Running(
                    MachineState { stack: s.stack.push(Value::Int(n)), ip: (s.ip + 1) as nat, fp: s.fp, out: s.out, },
                ),
                Instruction::Neg => {
                    if s.stack.len() == 0 {
                        Outcome::Failed(RuntimeError::StackUnderflow, s.out)
                    } else {
                        let n = int_of(s.stack.last());
                        Outcome::Running(
                            MachineState {
                                stack: s.stack.drop_last().push(Value::Int(neg_wrap(n))),
                                ip: (s.ip + 1) as nat, fp: s.fp, out: s.out, },
                        )
                    }
                },
                Instruction::Not => {
                    if s.stack.len() == 0 {
                        Outcome::Failed(RuntimeError::StackUnderflow, s.out)
                    } else {
                        let n = int_of(s.stack.last());
                        let r: i64 = if n == 0 { 1 } else { 0 };
                        Outcome::Running(
                            MachineState {
                                stack: s.stack.drop_last().push(Value::Int(r)),
                                ip: (s.ip + 1) as nat, fp: s.fp, out: s.out, },
                        )
                    }
                },
                Instruction::Deref => {
                    if s.stack.len() == 0 {
                        Outcome::Failed(RuntimeError::StackUnderflow, s.out)
                    } else {
                        let a = int_of(s.stack.last());
                        let rest = s.stack.drop_last();
                        if a < 0 || a >= rest.len() {
                            Outcome::Failed(RuntimeError::AddressOutOfRange, s.out)
                        } else {
                            Outcome::Running(
                                MachineState {
                                    stack: rest.push(rest[a as int]),
                                    ip: (s.ip + 1) as nat, fp: s.fp, out: s.out, },
                            )
                        }
                    }
                },
                Instruction::Addr(off) => {
                    if s.fp + off > usize::MAX || s.fp + off > i64::MAX {
                        Outcome::Failed(RuntimeError::AddressOutOfRange, s.out)
                    } else {
                        Outcome::Running(
                            MachineState {
                                stack: s.stack.push(Value::Int((s.fp + off) as i64)),
                                ip: (s.ip + 1) as nat, fp: s.fp, out: s.out, },
                        )
                    }
                },
                Instruction::Cast => Outcome::Running(
                    MachineState { ip: (s.ip + 1) as nat, stack: s.stack, fp: s.fp, out: s.out, },
                ),
                Instruction::Print => {
                    if s.stack.len() == 0 {
                        Outcome::Failed(RuntimeError::StackUnderflow, s.out)
                    } else {
                        let n = int_of(s.stack.last());
                        Outcome::Running(
                            MachineState {
                                stack: s.stack.drop_last(),
                                ip: (s.ip + 1) as nat,
                                out: s.out.push(OutputItem::Num(n)), fp: s.fp, },
                        )
                    }
                },
                Instruction::PrintStr(t) => Outcome::Running(
                    MachineState {
                        ip: (s.ip + 1) as nat,
                        out: s.out.push(OutputItem::Text(t)), stack: s.stack, fp: s.fp, },
                ),
                Instruction::Jmp(l) => {
                    if labels.contains_key(l) {
                        Outcome::Running(MachineState { ip: labels[l] as nat, stack: s.stack, fp: s.fp, out: s.out, })
                    } else {
                        Outcome::Failed(RuntimeError::UnresolvedLabel, s.out)
                    }
                },
                Instruction::Jz(l) => {
                    if s.stack.len() == 0 {
                        Outcome::Failed(RuntimeError::StackUnderflow, s.out)
                    } else {
                        let n = int_of(s.stack.last());
                        let rest = s.stack.drop_last();
                        if n != 0 {
                            Outcome::Running(
                                MachineState { stack: rest, ip: (s.ip + 1) as nat, fp: s.fp, out: s.out, },
                            )
                        } else if labels.contains_key(l) {
                            Outcome::Running(
                                MachineState { stack: rest, ip: labels[l] as nat, fp: s.fp, out: s.out, },
                            )
                        } else {
                            Outcome::Failed(RuntimeError::UnresolvedLabel, s.out)
                        }
                    }
                },
                Instruction::Label(_) => Outcome::Running(
                    MachineState { ip: (s.ip + 1) as nat, stack: s.stack, fp: s.fp, out: s.out, },
                ),
                Instruction::LoadLocal(off) => {
                    if s.fp + off >= s.stack.len() {
                        Outcome::Failed(RuntimeError::AddressOutOfRange, s.out)
                    } else {
                        Outcome::Running(
                            MachineState {
                                stack: s.stack.push(s.stack[(s.fp + off) as int]),
                                ip: (s.ip + 1) as nat, fp: s.fp, out: s.out, },
                        )
                    }
                },
                Instruction::StoreLocal(off) => {
                    if s.stack.len() == 0 {
                        Outcome::Failed(RuntimeError::StackUnderflow, s.out)
                    } else {
                        let v = s.stack.last();
                        let rest = s.stack.drop_last();
                        if s.fp + off >= rest.len() {
                            Outcome::Failed(RuntimeError::AddressOutOfRange, s.out)
                        } else {
                            Outcome::Running(
                                MachineState {
                                    stack: rest.update((s.fp + off) as int, v),
                                    ip: (s.ip + 1) as nat, fp: s.fp, out: s.out, },
                            )
                        }
                    }
                },
                Instruction::Call(entry) => {
                    if !arity.contains_key(entry) {
                        Outcome::Failed(RuntimeError::MissingArity, s.out)
                    } else {
                        let n = arity[entry];
                        if s.stack.len() < n {
                            Outcome::Failed(RuntimeError::StackUnderflow, s.out)
                        } else if s.fp > i64::MAX || s.ip + 1 > i64::MAX {
                            Outcome::Failed(RuntimeError::InvalidFrame, s.out)
                        } else {
                            let base = s.stack.len() - n;
                            Outcome::Running(
                                MachineState {
                                    stack: s.stack.subrange(0, base as int) + seq![
                                        Value::Int(s.fp as i64),
                                        Value::Int((s.ip + 1) as i64),
                                    ] + Seq::new(
                                        n as nat,
                                        |k: int| s.stack[s.stack.len() - 1 - k],
                                    ),
                                    fp: (base + 2) as nat,
                                    ip: entry as nat,
                                    out: s.out,
                                },
                            )
                        }
                    }
                },
                Instruction::Enter(n) => {
                    if s.fp + n > usize::MAX {
                        Outcome::Failed(RuntimeError::InvalidFrame, s.out)
                    } else {
                        let target = s.fp + n;
                        let add: int = if target > s.stack.len() {
                            target - s.stack.len()
                        } else {
                            0
                        };
                        Outcome::Running(
                            MachineState {
                                stack: s.stack + Seq::new(add as nat, |i: int| Value::Int(0)),
                                ip: (s.ip + 1) as nat, fp: s.fp, out: s.out, },
                        )
                    }
                },
                Instruction::Leave => {
                    if s.stack.len() == 0 {
                        Outcome::Failed(RuntimeError::StackUnderflow, s.out)
                    } else {
                        let ret_val = s.stack.last();
                        let st1 = s.stack.drop_last();
                        let st2 = if s.fp <= st1.len() {
                            st1.subrange(0, s.fp as int)
                        } else {
                            st1
                        };
                        if st2.len() == 0 {
                            Outcome::Failed(RuntimeError::StackUnderflow, s.out)
                        } else {
                            let ra = int_of(st2.last());
                            let st3 = st2.drop_last();
                            if ra < 0 || ra > usize::MAX {
                                Outcome::Failed(RuntimeError::InvalidFrame, s.out)
                            } else if st3.len() == 0 {
                                Outcome::Failed(RuntimeError::StackUnderflow, s.out)
                            } else {
                                let ofp = int_of(st3.last());
                                if ofp < 0 || ofp > usize::MAX {
                                    Outcome::Failed(RuntimeError::InvalidFrame, s.out)
                                } else {
                                    Outcome::Running(
                                        MachineState {
                                            stack: st3.drop_last().push(ret_val),
                                            fp: ofp as nat,
                                            ip: ra as nat,
                                            out: s.out,
                                        },
                                    )
                                }
                            }
                        }
                    }
                },
                _ => Outcome::Failed(RuntimeError::StackUnderflow, s.out),
            }
        }
    }
}

/// Iterated stepping: the machine after at most `fuel` steps, or the
/// outcome it reached before the fuel ran out.
pub open spec fn spec_run(
    code: Seq<Instruction>,
    labels: Map<usize, usize>,
    arity: Map<usize, usize>,
    s: MachineState,
    fuel: nat,
) -> Outcome
    decreases fuel,
{
    if fuel == 0 {
        Outcome::Running(s)
    } else {
        match spec_step(code, labels, arity, s) {
            Outcome::Running(s2) => spec_run(code, labels, arity, s2, (fuel - 1) as nat),
            o => o,
        }
    }
}

/// Peeling one step off the back: running for `fuel + 1` steps is
/// running for `fuel` steps and then stepping once more.
pub proof fn lemma_run_succ(
    code: Seq<Instruction>,
    labels: Map<usize, usize>,
    arity: Map<usize, usize>,
    s: MachineState,
    fuel: nat,
)
    ensures
        spec_run(code, labels, arity, s, fuel + 1) == (match spec_run(
            code,
            labels,
            arity,
            s,
            fuel,
        ) {
            Outcome::Running(m) => spec_step(code, labels, arity, m),
            o => o,
        }),
    decreases fuel,
{
    match spec_step(code, labels, arity, s) {
        Outcome::Running(s2) => {
            assert(spec_run(code, labels, arity, s, fuel + 1) == spec_run(
                code,
                labels,
                arity,
                s2,
                fuel,
            ));
            if fuel > 0 {
                lemma_run_succ(code, labels, arity, s2, (fuel - 1) as nat);
            }
        },
        o => {
            assert(spec_run(code, labels, arity, s, fuel + 1) == o);
        },
    }
}

/// Once the machine has halted or failed, giving it more fuel does not
/// change the outcome.
pub proof fn lemma_run_extends(
    code: Seq<Instruction>,
    labels: Map<usize, usize>,
    arity: Map<usize, usize>,
    s: MachineState,
    f1: nat,
    f2: nat,
)
    requires
        f1 <= f2,
        !(spec_run(code, labels, arity, s, f1) is Running),
    ensures
        spec_run(code, labels, arity, s, f2) == spec_run(code, labels, arity, s, f1),
    decreases f1,
{
    if f1 > 0 {
        match spec_step(code, labels, arity, s) {
            Outcome::Running(s2) => {
                lemma_run_extends(code, labels, arity, s2, (f1 - 1) as nat, (f2 - 1) as nat);
            },
            _ => {},
        }
    }
}

/// The machine is deterministic: whenever two runs of the same program
/// from the same configuration both finish, they finish alike, whatever
/// step budgets they were given.
pub proof fn lemma_run_deterministic(
    code: Seq<Instruction>,
    labels: Map<usize, usize>,
    arity: Map<usize, usize>,
    s: MachineState,
    f1: nat,
    f2: nat,
)
    requires
        !(spec_run(code, labels, arity, s, f1) is Running),
        !(spec_run(code, labels, arity, s, f2) is Running),
    ensures
        spec_run(code, labels, arity, s, f1) == spec_run(code, labels, arity, s, f2),
{
    if f1 <= f2 {
        lemma_run_extends(code, labels, arity, s, f1, f2);
    } else {
        lemma_run_extends(code, labels, arity, s, f2, f1);
    }
}

/// The virtual machine: one value stack with frame-pointer-relative
/// addressing, the arity table keyed by function entry index, and the
/// output stream collected while running.
pub struct VM {
    pub stack: Vec<Value>,
    pub fp: usize,
    pub function_arity: HashMap<usize, usize>,
    pub output: Vec<OutputItem>,
}

/// The abstract configuration a machine is in when its instruction
/// pointer stands at `ip`.
pub open spec fn conf(vm: VM, ip: nat) -> MachineState {
    MachineState { stack: vm.stack@, fp: vm.fp as nat, ip: ip, out: vm.output@ }
}

/// The interpreter's internal step budget.
pub const MAX_STEPS: u64 = u64::MAX;

/// What `run_from` promises: on success the abstract machine, started
/// from the caller's configuration, halts within the step budget with
/// the returned result and leaves exactly the machine's final stack,
/// frame pointer and output; on failure it fails with the returned
/// error after emitting exactly the machine's output, unless the step
/// budget itself ran out.
pub open spec fn run_post(
    code: Seq<Instruction>,
    arity: Map<usize, usize>,
    s0: MachineState,
    r: Result<Option<i64>, RuntimeError>,
    vm: VM,
) -> bool {
    match r {
        Ok(res) => exists|fuel: nat|
            spec_run(code, spec_labels(code), arity, s0, fuel) == Outcome::Halted(
                res,
                vm.stack@,
                vm.fp as nat,
                vm.output@,
            ),
        Err(e) => (exists|fuel: nat|
            spec_run(code, spec_labels(code), arity, s0, fuel) == Outcome::Failed(e, vm.output@))
            || (e == RuntimeError::StepLimitExceeded && spec_run(
            code,
            spec_labels(code),
            arity,
            s0,
            MAX_STEPS as nat,
        ) is Running),
    }
}

impl VM {
    /// A machine with an empty stack and output, frame pointer zero,
    /// and the given arity table.
    pub fn new(function_arity: HashMap<usize, usize>) -> (vm: VM)
        ensures
            vm.stack@ == Seq::<Value>::empty(),
            vm.fp == 0,
            vm.output@ == Seq::<OutputItem>::empty(),
            vm.function_arity@ == function_arity@,
    {
        VM { stack: Vec::new(), fp: 0, function_arity, output: Vec::new() }
    }

    /// Pop the top of stack, or report underflow.
    fn pop_value(&mut self) -> (r: Result<Value, RuntimeError>)
        ensures
            final(self).fp == old(self).fp,
            final(self).function_arity@ == old(self).function_arity@,
            final(self).output@ == old(self).output@,
            match r {
                Ok(v) => old(self).stack@.len() > 0 && v == old(self).stack@.last()
                    && final(self).stack@ == old(self).stack@.drop_last(),
                Err(e) => e == RuntimeError::StackUnderflow && old(self).stack@.len() == 0
                    && final(self).stack@ == old(self).stack@,
            },
    {
        match self.stack.pop() {
            Some(v) => Ok(v),
            None => Err(RuntimeError::StackUnderflow),
        }
    }
    /// What executing one instruction must achieve: the abstract
    /// machine takes exactly the specified step, and the arity table is
    /// untouched.
    pub open spec fn step_post(
        code: Seq<Instruction>,
        labels: Map<usize, usize>,
        pre: VM,
        ip: nat,
        r: Result<usize, RuntimeError>,
        post: VM,
    ) -> bool {
        &&& post.function_arity@ == pre.function_arity@
        &&& match r {
            Ok(ip2) => spec_step(code, labels, pre.function_arity@, conf(pre, ip))
                == Outcome::Running(conf(post, ip2 as nat)),
            Err(e) => spec_step(code, labels, pre.function_arity@, conf(pre, ip))
                == Outcome::Failed(e, post.output@),
        }
    }

    /// Execute the binary instruction at `ip`: pop the two operands,
    /// compute, push the result.
    #[verifier::rlimit(100)]
    #[verifier::spinoff_prover]
    fn step_binop(&mut self, code: &[Instruction], labels: &HashMap<usize, usize>, ip: usize) -> (r:
        Result<usize, RuntimeError>)
        requires
            ip < code@.len(),
            is_binop(code@[ip as int]),
        ensures
            Self::step_post(code@, labels@, *old(self), ip as nat, r, *final(self)),
    {
        let instr = &code[ip];
        let y = match self.pop_value() {
            Ok(v) => v,
            Err(e) => return Err(e),
        };
        let x = match self.pop_value() {
            Ok(v) => v,
            Err(e) => return Err(e),
        };
        let Value::Int(a) = x;
        let Value::Int(b) = y;
        match Self::eval_binop(instr, a, b) {
            Ok(v) => {
                self.stack.push(v);
                assert(self.stack@ =~= old(self).stack@.drop_last().drop_last().push(v));
                Ok(ip + 1)
            },
            Err(e) => Err(e),
        }
    }

    /// Execute the memory instruction at `ip`: a dereference, an
    /// address-of, or a load or store of a local slot.
    #[verifier::rlimit(100)]
    #[verifier::spinoff_prover]
    fn step_mem(&mut self, code: &[Instruction], labels: &HashMap<usize, usize>, ip: usize) -> (r:
        Result<usize, RuntimeError>)
        requires
            ip < code@.len(),
            code@[ip as int] matches Instruction::Deref || code@[ip as int] matches
                Instruction::Addr(_) || code@[ip as int] matches Instruction::LoadLocal(_)
                || code@[ip as int] matches Instruction::StoreLocal(_),
        ensures
            Self::step_post(code@, labels@, *old(self), ip as nat, r, *final(self)),
    {
        match &code[ip] {
            Instruction::Deref => {
                let v = match self.pop_value() {
                    Ok(v) => v,
                    Err(e) => return Err(e),
                };
                let Value::Int(a) = v;
                if a < 0 || (a as u64) >= (self.stack.len() as u64) {
                    proof {
                        let s = conf(*old(self), ip as nat);
                        assert(spec_step(code@, labels@, old(self).function_arity@, s)
                            =~~= Outcome::Failed(RuntimeError::AddressOutOfRange, self.output@));
                        assert(Self::step_post(
                            code@,
                            labels@,
                            *old(self),
                            ip as nat,
                            Err::<usize, RuntimeError>(RuntimeError::AddressOutOfRange),
                            *self,
                        ));
                    }
                    return Err(RuntimeError::AddressOutOfRange);
                }
                let val = self.stack[a as usize];
                self.stack.push(val);
                Ok(ip + 1)
            },
            Instruction::Addr(off) => {
                let off = *off;
                if off > usize::MAX - self.fp {
                    proof {
                        let s = conf(*old(self), ip as nat);
                        assert(spec_step(code@, labels@, old(self).function_arity@, s)
                            =~~= Outcome::Failed(RuntimeError::AddressOutOfRange, self.output@));
                        assert(Self::step_post(
                            code@,
                            labels@,
                            *old(self),
                            ip as nat,
                            Err::<usize, RuntimeError>(RuntimeError::AddressOutOfRange),
                            *self,
                        ));
                    }
                    return Err(RuntimeError::AddressOutOfRange);
                }
                let a = self.fp + off;
                if (a as u64) > (i64::MAX as u64) {
                    proof {
                        let s = conf(*old(self), ip as nat);
                        assert(spec_step(code@, labels@, old(self).function_arity@, s)
                            =~~= Outcome::Failed(RuntimeError::AddressOutOfRange, self.output@));
                        assert(Self::step_post(
                            code@,
                            labels@,
                            *old(self),
                            ip as nat,
                            Err::<usize, RuntimeError>(RuntimeError::AddressOutOfRange),
                            *self,
                        ));
                    }
                    return Err(RuntimeError::AddressOutOfRange);
                }
                self.stack.push(Value::Int(a as i64));
                Ok(ip + 1)
            },
            Instruction::LoadLocal(off) => {
                let off = *off;
                let depth = self.stack.len();
                if off > usize::MAX - self.fp || self.fp + off >= depth {
                    proof {
                        let s = conf(*old(self), ip as nat);
                        assert(spec_step(code@, labels@, old(self).function_arity@, s)
                            =~~= Outcome::Failed(RuntimeError::AddressOutOfRange, self.output@));
                        assert(Self::step_post(
                            code@,
                            labels@,
                            *old(self),
                            ip as nat,
                            Err::<usize, RuntimeError>(RuntimeError::AddressOutOfRange),
                            *self,
                        ));
                    }
                    return Err(RuntimeError::AddressOutOfRange);
                }
                let val = self.stack[self.fp + off];
                self.stack.push(val);
                Ok(ip + 1)
            },
            Instruction::StoreLocal(off) => {
                let off = *off;
                let v = match self.pop_value() {
                    Ok(v) => v,
                    Err(e) => return Err(e),
                };
                let depth = self.stack.len();
                if off > usize::MAX - self.fp || self.fp + off >= depth {
                    proof {
                        let s = conf(*old(self), ip as nat);
                        assert(spec_step(code@, labels@, old(self).function_arity@, s)
                            =~~= Outcome::Failed(RuntimeError::AddressOutOfRange, self.output@));
                        assert(Self::step_post(
                            code@,
                            labels@,
                            *old(self),
                            ip as nat,
                            Err::<usize, RuntimeError>(RuntimeError::AddressOutOfRange),
                            *self,
                        ));
                    }
                    return Err(RuntimeError::AddressOutOfRange);
                }
                self.stack[self.fp + off] = v;
                Ok(ip + 1)
            },
            _ => {
                proof {
                    assert(false);
                }
                Err(RuntimeError::StackUnderflow)
            },
        }
    }

    /// Execute the `Call` at `ip`: pop the callee's arguments, which
    /// arrive right-to-left per the compiler's emission order, push the
    /// saved frame pointer and the return index, point the frame
    /// pointer at the new frame's base, and push the arguments back
    /// above it reversed into left-to-right positional order, so that
    /// the leftmost argument lands at frame offset zero.
    #[verifier::loop_isolation(false)]
    #[verifier::rlimit(100)]
    #[verifier::spinoff_prover]
    fn step_call(&mut self, code: &[Instruction], labels: &HashMap<usize, usize>, ip: usize) -> (r:
        Result<usize, RuntimeError>)
        requires
            ip < code@.len(),
            code@[ip as int] matches Instruction::Call(_),
        ensures
            Self::step_post(code@, labels@, *old(self), ip as nat, r, *final(self)),
    {
        match &code[ip] {
            Instruction::Call(entry) => {
                let entry = *entry;
                let n = match self.function_arity.get(&entry) {
                    Some(k) => *k,
                    None => return Err(RuntimeError::MissingArity),
                };
                if self.stack.len() < n {
                    return Err(RuntimeError::StackUnderflow);
                }
                if (self.fp as u64) > (i64::MAX as u64) || (ip as u64) + 1 > (i64::MAX as u64) {
                    return Err(RuntimeError::InvalidFrame);
                }
                let base = self.stack.len() - n;
                let mut saved: Vec<Value> = Vec::new();
                let mut i = base;
                while i < self.stack.len()
                    invariant
                        base <= i <= self.stack@.len(),
                        self.stack@ == old(self).stack@,
                        self.fp == old(self).fp,
                        self.output@ == old(self).output@,
                        self.function_arity@ == old(self).function_arity@,
                        saved@ == self.stack@.subrange(base as int, i as int),
                    decreases self.stack@.len() - i,
                {
                    let val = self.stack[i];
                    saved.push(val);
                    i += 1;
                    assert(saved@ =~= self.stack@.subrange(base as int, i as int));
                }
                self.stack.truncate(base);
                self.stack.push(Value::Int(self.fp as i64));
                self.stack.push(Value::Int((ip + 1) as i64));
                self.fp = self.stack.len();
                let mut j: usize = saved.len();
                while j > 0
                    invariant
                        0 <= j <= saved.len(),
                        n == saved@.len(),
                        base + n == old(self).stack@.len(),
                        self.fp == base + 2,
                        self.output@ == old(self).output@,
                        self.function_arity@ == old(self).function_arity@,
                        saved@ == old(self).stack@.subrange(base as int, old(self).stack@.len() as int),
                        self.stack@ == old(self).stack@.subrange(0, base as int) + seq![
                            Value::Int(old(self).fp as i64),
                            Value::Int((ip + 1) as i64),
                        ] + Seq::new(
                            (n - j) as nat,
                            |k: int| old(self).stack@[old(self).stack@.len() - 1 - k],
                        ),
                    decreases j,
                {
                    j -= 1;
                    let val = saved[j];
                    self.stack.push(val);
                    assert(self.stack@ =~= old(self).stack@.subrange(0, base as int) + seq![
                        Value::Int(old(self).fp as i64),
                        Value::Int((ip + 1) as i64),
                    ] + Seq::new(
                        (n - j) as nat,
                        |k: int| old(self).stack@[old(self).stack@.len() - 1 - k],
                    ));
                }
                proof {
                    let s = conf(*old(self), ip as nat);
                    assert(spec_step(code@, labels@, old(self).function_arity@, s)
                        =~~= Outcome::Running(conf(*self, entry as nat)));
                }
                Ok(entry)
            },
            _ => {
                proof {
                    assert(false);
                }
                Err(RuntimeError::StackUnderflow)
            },
        }
    }

    /// Execute the `Enter` at `ip`: push zero-valued slots until the
    /// frame holds the declared number, leaving slots already filled by
    /// the call protocol in place.
    #[verifier::loop_isolation(false)]
    #[verifier::rlimit(100)]
    #[verifier::spinoff_prover]
    fn step_enter(&mut self, code: &[Instruction], labels: &HashMap<usize, usize>, ip: usize) -> (r:
        Result<usize, RuntimeError>)
        requires
            ip < code@.len(),
            code@[ip as int] matches Instruction::Enter(_),
        ensures
            Self::step_post(code@, labels@, *old(self), ip as nat, r, *final(self)),
    {
        match &code[ip] {
            Instruction::Enter(n) => {
                let n = *n;
                if n > usize::MAX - self.fp {
                    return Err(RuntimeError::InvalidFrame);
                }
                let target = self.fp + n;
                while self.stack.len() < target
                    invariant
                        self.fp == old(self).fp,
                        self.output@ == old(self).output@,
                        self.function_arity@ == old(self).function_arity@,
                        self.stack@.len() >= old(self).stack@.len(),
                        self.stack@.len() <= target || self.stack@.len() == old(
                            self,
                        ).stack@.len(),
                        self.stack@ == old(self).stack@ + Seq::new(
                            (self.stack@.len() - old(self).stack@.len()) as nat,
                            |k: int| Value::Int(0),
                        ),
                    decreases target - self.stack@.len(),
                {
                    self.stack.push(Value::Int(0));
                    assert(self.stack@ =~= old(self).stack@ + Seq::new(
                        (self.stack@.len() - old(self).stack@.len()) as nat,
                        |k: int| Value::Int(0),
                    ));
                }
                proof {
                    let s = conf(*old(self), ip as nat);
                    let add: int = if s.fp + n > s.stack.len() {
                        s.fp + n - s.stack.len()
                    } else {
                        0
                    };
                    assert(self.stack@ =~= s.stack + Seq::new(add as nat, |k: int| Value::Int(0)));
                    let o = spec_step(code@, labels@, old(self).function_arity@, s);
                    assert(o is Running);
                    let m = o->Running_0;
                    assert(m.fp == self.fp as nat);
                    assert(m.ip == ip + 1);
                    assert(m.out == self.output@);
                    assert(m.stack =~= self.stack@);
                    assert(o =~~= Outcome::Running(conf(*self, (ip + 1) as nat)));
                }
                Ok(ip + 1)
            },
            _ => {
                proof {
                    assert(false);
                }
                Err(RuntimeError::StackUnderflow)
            },
        }
    }

    /// Execute the `Leave` at `ip`: pop the return value, discard the
    /// frame, restore the caller's frame pointer, push the return value
    /// back and jump to the return index.
    #[verifier::rlimit(100)]
    #[verifier::spinoff_prover]
    fn step_leave(&mut self, code: &[Instruction], labels: &HashMap<usize, usize>, ip: usize) -> (r:
        Result<usize, RuntimeError>)
        requires
            ip < code@.len(),
            code@[ip as int] matches Instruction::Leave,
        ensures
            Self::step_post(code@, labels@, *old(self), ip as nat, r, *final(self)),
    {
        let ret_val = match self.pop_value() {
            Ok(v) => v,
            Err(e) => return Err(e),
        };
        self.stack.truncate(self.fp);
        let ra_v = match self.pop_value() {
            Ok(v) => v,
            Err(e) => return Err(e),
        };
        let Value::Int(ra) = ra_v;
        if ra < 0 || (ra as u64) > (usize::MAX as u64) {
            return Err(RuntimeError::InvalidFrame);
        }
        let ofp_v = match self.pop_value() {
            Ok(v) => v,
            Err(e) => return Err(e),
        };
        let Value::Int(ofp) = ofp_v;
        if ofp < 0 || (ofp as u64) > (usize::MAX as u64) {
            return Err(RuntimeError::InvalidFrame);
        }
        self.fp = ofp as usize;
        self.stack.push(ret_val);
        Ok(ra as usize)
    }

    /// Execute the single instruction at `ip`, which must lie inside
    /// the program: the machine takes exactly the specified step.
    #[verifier::rlimit(50)]
    fn step_exec(&mut self, code: &[Instruction], labels: &HashMap<usize, usize>, ip: usize) -> (r:
        Result<usize, RuntimeError>)
        requires
            ip < code@.len(),
        ensures
            Self::step_post(code@, labels@, *old(self), ip as nat, r, *final(self)),
    {
        let instr = &code[ip];
        match instr {
            Instruction::Add
            | Instruction::Sub
            | Instruction::Mul
            | Instruction::Div
            | Instruction::Mod
            | Instruction::Eq
            | Instruction::Ne
            | Instruction::Lt
            | Instruction::Gt
            | Instruction::Le
            | Instruction::Ge
            | Instruction::BitAnd
            | Instruction::BitOr
            | Instruction::BitXor
            | Instruction::Shl
            | Instruction::Shr => self.step_binop(code, labels, ip),
            Instruction::Deref
            | Instruction::Addr(_)
            | Instruction::LoadLocal(_)
            | Instruction::StoreLocal(_) => self.step_mem(code, labels, ip),
            Instruction::Call(_) => self.step_call(code, labels, ip),
            Instruction::Enter(_) => self.step_enter(code, labels, ip),
            Instruction::Leave => self.step_leave(code, labels, ip),
            Instruction::Imm(n) => {
                self.stack.push(Value::Int(*n));
                Ok(ip + 1)
            },
            Instruction::Neg => {
                let v = match self.pop_value() {
                    Ok(v) => v,
                    Err(e) => return Err(e),
                };
                let Value::Int(n) = v;
                let r: i64 = if n == i64::MIN {
                    i64::MIN
                } else {
                    -n
                };
                self.stack.push(Value::Int(r));
                Ok(ip + 1)
            },
            Instruction::Not => {
                let v = match self.pop_value() {
                    Ok(v) => v,
                    Err(e) => return Err(e),
                };
                let Value::Int(n) = v;
                let r: i64 = if n == 0 {
                    1
                } else {
                    0
                };
                self.stack.push(Value::Int(r));
                Ok(ip + 1)
            },
            Instruction::Cast => Ok(ip + 1),
            Instruction::Print => {
                let v = match self.pop_value() {
                    Ok(v) => v,
                    Err(e) => return Err(e),
                };
                let Value::Int(n) = v;
                self.output.push(OutputItem::Num(n));
                Ok(ip + 1)
            },
            Instruction::PrintStr(t) => {
                let t2 = t.clone();
                self.output.push(OutputItem::Text(t2));
                Ok(ip + 1)
            },
            Instruction::Jmp(l) => {
                match labels.get(l) {
                    Some(t) => Ok(*t),
                    None => Err(RuntimeError::UnresolvedLabel),
                }
            },
            Instruction::Jz(l) => {
                let v = match self.pop_value() {
                    Ok(v) => v,
                    Err(e) => return Err(e),
                };
                let Value::Int(n) = v;
                if n != 0 {
                    Ok(ip + 1)
                } else {
                    match labels.get(l) {
                        Some(t) => Ok(*t),
                        None => Err(RuntimeError::UnresolvedLabel),
                    }
                }
            },
            Instruction::Label(_) => Ok(ip + 1),
        }
    }

    /// The value a binary instruction computes, exactly as the
    /// specification states it.
    fn eval_binop(instr: &Instruction, a: i64, b: i64) -> (r: Result<Value, RuntimeError>)
        ensures
            r == spec_binop(*instr, a, b),
    {
        match instr {
            Instruction::Add => Ok(Value::Int(a.wrapping_add(b))),
            Instruction::Sub => Ok(Value::Int(a.wrapping_sub(b))),
            Instruction::Mul => Ok(Value::Int(a.wrapping_mul(b))),
            Instruction::Div => {
                if b == 0 {
                    Err(RuntimeError::DivisionByZero)
                } else if a == i64::MIN && b == -1 {
                    Ok(Value::Int(i64::MIN))
                } else {
                    match a.checked_div(b) {
                        Some(q) => Ok(Value::Int(q)),
                        None => Ok(Value::Int(0)),
                    }
                }
            },
            Instruction::Mod => {
                if b == 0 {
                    Err(RuntimeError::DivisionByZero)
                } else if a == i64::MIN && b == -1 {
                    Ok(Value::Int(0))
                } else {
                    match a.checked_rem(b) {
                        Some(r) => Ok(Value::Int(r)),
                        None => Ok(Value::Int(0)),
                    }
                }
            },
            Instruction::Eq => Ok(Value::Int(if a == b { 1 } else { 0 })),
            Instruction::Ne => Ok(Value::Int(if a != b { 1 } else { 0 })),
            Instruction::Lt => Ok(Value::Int(if a < b { 1 } else { 0 })),
            Instruction::Gt => Ok(Value::Int(if a > b { 1 } else { 0 })),
            Instruction::Le => Ok(Value::Int(if a <= b { 1 } else { 0 })),
            Instruction::Ge => Ok(Value::Int(if a >= b { 1 } else { 0 })),
            Instruction::BitAnd => Ok(Value::Int(a & b)),
            Instruction::BitOr => Ok(Value::Int(a | b)),
            Instruction::BitXor => Ok(Value::Int(a ^ b)),
            Instruction::Shl => {
                if b < 0 || b >= 64 {
                    Err(RuntimeError::InvalidShift)
                } else {
                    Ok(Value::Int(a.wrapping_shl(b as u32)))
                }
            },
            Instruction::Shr => {
                if b < 0 || b >= 64 {
                    Err(RuntimeError::InvalidShift)
                } else {
                    Ok(Value::Int(a.wrapping_shr(b as u32)))
                }
            },
            _ => Ok(Value::Int(0)),
        }
    }

    /// Scan the program once and record the position of every `Label`,
    /// a later marker overriding an earlier one with the same id.
    #[verifier::loop_isolation(false)]
    fn resolve_labels(code: &[Instruction]) -> (m: HashMap<usize, usize>)
        ensures
            m@ == spec_labels(code@),
    {
        let mut m: HashMap<usize, usize> = HashMap::new();
        let mut i: usize = 0;
        while i < code.len()
            invariant
                i <= code@.len(),
                m@ == spec_labels_upto(code@, i as int),
            decreases code@.len() - i,
        {
            match &code[i] {
                Instruction::Label(id) => {
                    m.insert(*id, i);
                },
                _ => {},
            }
            i += 1;
        }
        m
    }

    /// Execute the program from instruction index `start_ip` against
    /// this machine's stack, frame pointer and arity table, per the
    /// specification-level small-step semantics.
    #[verifier::loop_isolation(false)]
    pub fn run_from(&mut self, code: &[Instruction], start_ip: usize) -> (r: Result<
        Option<i64>,
        RuntimeError,
    >)
        ensures
            final(self).function_arity@ == old(self).function_arity@,
            run_post(
                code@,
                old(self).function_arity@,
                conf(*old(self), start_ip as nat),
                r,
                *final(self),
            ),
    {
        let labels = Self::resolve_labels(code);
        let ghost am = self.function_arity@;
        let ghost s0 = conf(*self, start_ip as nat);
        let mut ip: usize = start_ip;
        let mut steps: u64 = 0;
        while ip < code.len()
            invariant
                steps <= MAX_STEPS,
                self.function_arity@ == am,
                spec_run(code@, labels@, am, s0, steps as nat) == Outcome::Running(
                    conf(*self, ip as nat),
                ),
            decreases MAX_STEPS - steps,
        {
            if steps == MAX_STEPS {
                return Err(RuntimeError::StepLimitExceeded);
            }
            proof {
                lemma_run_succ(code@, labels@, am, s0, steps as nat);
            }
            match self.step_exec(code, &labels, ip) {
                Ok(ip2) => {
                    ip = ip2;
                    steps = steps + 1;
                },
                Err(e) => {
                    return Err(e);
                },
            }
        }
        proof {
            lemma_run_succ(code@, labels@, am, s0, steps as nat);
        }
        match self.stack.pop() {
            Some(v) => {
                let Value::Int(n) = v;
                Ok(Some(n))
            },
            None => Ok(None),
        }
    }

    /// Execute the program from its beginning.
    pub fn run(&mut self, code: &[Instruction]) -> (r: Result<Option<i64>, RuntimeError>)
        ensures
            final(self).function_arity@ == old(self).function_arity@,
            run_post(code@, old(self).function_arity@, conf(*old(self), 0), r, *final(self)),
    {
        self.run_from(code, 0)
    }
}

} // verus!
