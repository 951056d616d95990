use vstd::prelude::*;
use crate::instruction::{Instruction, EXIT_LABEL};
use crate::parser::{spec_parse, CompilerState, Parser};
use crate::vm::{
    int_of, spec_labels, spec_run, spec_step, MachineState, Outcome, Value,
};

verus! {

/// Compilation is deterministic: two parsers over the same abstract
/// state -- the same token stream and the same fresh tables -- compile
/// to exactly the same instruction sequence and tables, since `parse`
/// is proved to return precisely what the compile function of that
/// state prescribes.  Two parsers built from one source text reach
/// states whose token streams agree at the view level, since `new` is
/// proved to produce exactly the tokenization of the text.
pub proof fn lemma_compilation_deterministic(a: Parser, b: Parser)
    requires
        a.abs() == b.abs(),
    ensures
        spec_parse(a.abs()) == spec_parse(b.abs()),
{
}

/// Taking a declared local's address and dereferencing it is the
/// identity on the local's current value: from any configuration whose
/// frame holds the local, `Addr(off)` followed by `Deref` pushes
/// exactly the value stored at the local's slot, for any value it
/// currently holds, and changes nothing else.
pub proof fn lemma_addr_deref_roundtrip(
    code: Seq<Instruction>,
    labels: Map<usize, usize>,
    arity: Map<usize, usize>,
    s: MachineState,
    off: usize,
)
    requires
        s.ip + 1 < code.len(),
        code[s.ip as int] == Instruction::Addr(off),
        code[s.ip + 1int] == Instruction::Deref,
        s.fp + off < s.stack.len(),
        s.fp + off <= i64::MAX,
        s.fp + off <= usize::MAX,
    ensures
        spec_run(code, labels, arity, s, 2) == Outcome::Running(
            MachineState {
                stack: s.stack.push(s.stack[(s.fp + off) as int]),
                fp: s.fp,
                ip: (s.ip + 2) as nat,
                out: s.out,
            },
        ),
{
    let s1 = MachineState {
        stack: s.stack.push(Value::Int((s.fp + off) as i64)),
        fp: s.fp,
        ip: (s.ip + 1) as nat,
        out: s.out,
    };
    assert(spec_step(code, labels, arity, s) == Outcome::Running(s1));
    let rest = s1.stack.drop_last();
    assert(rest =~= s.stack);
    let s2 = MachineState {
        stack: rest.push(rest[(s.fp + off) as int]),
        fp: s.fp,
        ip: (s.ip + 2) as nat,
        out: s.out,
    };
    assert(spec_step(code, labels, arity, s1) == Outcome::Running(s2));
    reveal_with_fuel(crate::vm::spec_run, 4);
    assert(spec_run(code, labels, arity, s1, 1) == Outcome::Running(s2));
    assert(spec_run(code, labels, arity, s, 2) == spec_run(code, labels, arity, s1, 1));
    assert(s2.stack == s.stack.push(s.stack[(s.fp + off) as int]));
}

/// A call preserves left-to-right positional binding, whatever the
/// emission order did to the stack: after `Call`, the argument that
/// was parsed in position `k` (and therefore sits `k` slots below the
/// top, the rightmost lying deepest) stands at frame offset `k`, so
/// the compiler's offset for the `k`-th parameter lands exactly on the
/// `k`-th argument.
pub proof fn lemma_call_binds_left_to_right(
    code: Seq<Instruction>,
    labels: Map<usize, usize>,
    arity: Map<usize, usize>,
    s: MachineState,
    entry: usize,
    k: int,
)
    requires
        s.ip < code.len(),
        code[s.ip as int] == Instruction::Call(entry),
        arity.contains_key(entry),
        arity[entry] <= s.stack.len(),
        s.fp <= i64::MAX,
        s.ip + 1 <= i64::MAX,
        0 <= k < arity[entry],
    ensures
        spec_step(code, labels, arity, s) is Running,
        ({
            let s2 = spec_step(code, labels, arity, s)->Running_0;
            &&& s2.fp + k < s2.stack.len()
            &&& s2.stack[s2.fp + k] == s.stack[s.stack.len() - 1 - k]
            &&& s2.ip == entry
        }),
{
    let n = arity[entry];
    let base = s.stack.len() - n;
    let s2 = spec_step(code, labels, arity, s)->Running_0;
    assert(s2.stack =~= s.stack.subrange(0, base as int) + seq![
        Value::Int(s.fp as i64),
        Value::Int((s.ip + 1) as i64),
    ] + Seq::new(n as nat, |j: int| s.stack[s.stack.len() - 1 - j]));
    assert(s2.stack[s2.fp + k] == s.stack[s.stack.len() - 1 - k]);
}

/// A branch on a literal selects the second arm exactly when the
/// literal is zero: the code the compiler emits for
/// `if (c) return a; return b;` at top level halts with `a` when `c`
/// is any nonzero literal and with `b` when `c` is zero, for all
/// literals `a` and `b`.
pub proof fn lemma_branch_selects(c: i64, a: i64, b: i64, l: usize)
    requires
        l < EXIT_LABEL,
    ensures
        ({
            let code = seq![
                Instruction::Imm(c),
                Instruction::Jz(l),
                Instruction::Imm(a),
                Instruction::Jmp(EXIT_LABEL),
                Instruction::Label(l),
                Instruction::Imm(b),
                Instruction::Jmp(EXIT_LABEL),
                Instruction::Label(EXIT_LABEL),
            ];
            let s0 = MachineState { stack: Seq::empty(), fp: 0, ip: 0, out: Seq::empty() };
            exists|fuel: nat|
                spec_run(code, spec_labels(code), Map::empty(), s0, fuel) == Outcome::Halted(
                    Some(if c != 0 { a } else { b }),
                    Seq::empty(),
                    0,
                    Seq::empty(),
                )
        }),
{
    let code = seq![
        Instruction::Imm(c),
        Instruction::Jz(l),
        Instruction::Imm(a),
        Instruction::Jmp(EXIT_LABEL),
        Instruction::Label(l),
        Instruction::Imm(b),
        Instruction::Jmp(EXIT_LABEL),
        Instruction::Label(EXIT_LABEL),
    ];
    let labels = spec_labels(code);
    let arity = Map::<usize, usize>::empty();
    reveal_with_fuel(crate::vm::spec_labels_upto, 10);
    assert(labels.contains_key(l) && labels[l] == 4);
    assert(labels.contains_key(EXIT_LABEL) && labels[EXIT_LABEL] == 7);
    let s0 = MachineState { stack: Seq::empty(), fp: 0, ip: 0, out: Seq::empty() };
    let e = Seq::<Value>::empty();
    let s1 = MachineState { stack: e.push(Value::Int(c)), fp: 0, ip: 1, out: s0.out };
    assert(spec_step(code, labels, arity, s0) == Outcome::Running(s1));
    reveal_with_fuel(crate::vm::spec_run, 10);
    if c != 0 {
        let s2 = MachineState { stack: s1.stack.drop_last(), fp: 0, ip: 2, out: s0.out };
        assert(spec_step(code, labels, arity, s1) == Outcome::Running(s2));
        let s3 = MachineState { stack: s2.stack.push(Value::Int(a)), fp: 0, ip: 3, out: s0.out };
        assert(spec_step(code, labels, arity, s2) == Outcome::Running(s3));
        let s4 = MachineState { stack: s3.stack, fp: 0, ip: 7, out: s0.out };
        assert(spec_step(code, labels, arity, s3) == Outcome::Running(s4));
        let s5 = MachineState { stack: s4.stack, fp: 0, ip: 8, out: s0.out };
        assert(spec_step(code, labels, arity, s4) == Outcome::Running(s5));
        assert(s5.stack.len() == 1 && int_of(s5.stack.last()) == a);
        assert(s5.stack.drop_last() =~= Seq::<Value>::empty());
        assert(spec_step(code, labels, arity, s5) == Outcome::Halted(
            Some(a),
            Seq::empty(),
            0,
            Seq::empty(),
        ));
        assert(spec_run(code, labels, arity, s0, 6) == Outcome::Halted(
            Some(a),
            Seq::empty(),
            0,
            Seq::empty(),
        ));
    } else {
        let s2 = MachineState { stack: s1.stack.drop_last(), fp: 0, ip: 4, out: s0.out };
        assert(spec_step(code, labels, arity, s1) == Outcome::Running(s2));
        let s3 = MachineState { stack: s2.stack, fp: 0, ip: 5, out: s0.out };
        assert(spec_step(code, labels, arity, s2) == Outcome::Running(s3));
        let s4 = MachineState { stack: s3.stack.push(Value::Int(b)), fp: 0, ip: 6, out: s0.out };
        assert(spec_step(code, labels, arity, s3) == Outcome::Running(s4));
        let s5 = MachineState { stack: s4.stack, fp: 0, ip: 7, out: s0.out };
        assert(spec_step(code, labels, arity, s4) == Outcome::Running(s5));
        let s6 = MachineState { stack: s5.stack, fp: 0, ip: 8, out: s0.out };
        assert(spec_step(code, labels, arity, s5) == Outcome::Running(s6));
        assert(s6.stack.len() == 1 && int_of(s6.stack.last()) == b);
        assert(s6.stack.drop_last() =~= Seq::<Value>::empty());
        assert(spec_step(code, labels, arity, s6) == Outcome::Halted(
            Some(b),
            Seq::empty(),
            0,
            Seq::empty(),
        ));
        assert(spec_run(code, labels, arity, s0, 7) == Outcome::Halted(
            Some(b),
            Seq::empty(),
            0,
            Seq::empty(),
        ));
    }
}

/// A conditional expression on a literal selects exactly one branch,
/// the untaken branch never executing: the code the compiler emits for
/// `return c ? a : b;` at top level halts with `a` when `c` is any
/// nonzero literal and with `b` when `c` is zero, for all literals `a`
/// and `b`, and the untaken branch's instruction is never stepped.
pub proof fn lemma_ternary_selects(c: i64, a: i64, b: i64, l1: usize, l2: usize)
    requires
        l1 < l2,
        l2 < EXIT_LABEL,
    ensures
        ({
            let code = seq![
                Instruction::Imm(c),
                Instruction::Jz(l1),
                Instruction::Imm(a),
                Instruction::Jmp(l2),
                Instruction::Label(l1),
                Instruction::Imm(b),
                Instruction::Label(l2),
                Instruction::Jmp(EXIT_LABEL),
                Instruction::Label(EXIT_LABEL),
            ];
            let s0 = MachineState { stack: Seq::empty(), fp: 0, ip: 0, out: Seq::empty() };
            exists|fuel: nat|
                spec_run(code, spec_labels(code), Map::empty(), s0, fuel) == Outcome::Halted(
                    Some(if c != 0 { a } else { b }),
                    Seq::empty(),
                    0,
                    Seq::empty(),
                )
        }),
{
    let code = seq![
        Instruction::Imm(c),
        Instruction::Jz(l1),
        Instruction::Imm(a),
        Instruction::Jmp(l2),
        Instruction::Label(l1),
        Instruction::Imm(b),
        Instruction::Label(l2),
        Instruction::Jmp(EXIT_LABEL),
        Instruction::Label(EXIT_LABEL),
    ];
    let labels = spec_labels(code);
    let arity = Map::<usize, usize>::empty();
    reveal_with_fuel(crate::vm::spec_labels_upto, 11);
    assert(labels.contains_key(l1) && labels[l1] == 4);
    assert(labels.contains_key(l2) && labels[l2] == 6);
    assert(labels.contains_key(EXIT_LABEL) && labels[EXIT_LABEL] == 8);
    let s0 = MachineState { stack: Seq::empty(), fp: 0, ip: 0, out: Seq::empty() };
    let e = Seq::<Value>::empty();
    let s1 = MachineState { stack: e.push(Value::Int(c)), fp: 0, ip: 1, out: s0.out };
    assert(spec_step(code, labels, arity, s0) == Outcome::Running(s1));
    reveal_with_fuel(crate::vm::spec_run, 12);
    if c != 0 {
        let s2 = MachineState { stack: s1.stack.drop_last(), fp: 0, ip: 2, out: s0.out };
        assert(spec_step(code, labels, arity, s1) == Outcome::Running(s2));
        let s3 = MachineState { stack: s2.stack.push(Value::Int(a)), fp: 0, ip: 3, out: s0.out };
        assert(spec_step(code, labels, arity, s2) == Outcome::Running(s3));
        let s4 = MachineState { stack: s3.stack, fp: 0, ip: 6, out: s0.out };
        assert(spec_step(code, labels, arity, s3) == Outcome::Running(s4));
        let s5 = MachineState { stack: s4.stack, fp: 0, ip: 7, out: s0.out };
        assert(spec_step(code, labels, arity, s4) == Outcome::Running(s5));
        let s6 = MachineState { stack: s5.stack, fp: 0, ip: 8, out: s0.out };
        assert(spec_step(code, labels, arity, s5) == Outcome::Running(s6));
        let s7 = MachineState { stack: s6.stack, fp: 0, ip: 9, out: s0.out };
        assert(spec_step(code, labels, arity, s6) == Outcome::Running(s7));
        assert(s7.stack.len() == 1 && int_of(s7.stack.last()) == a);
        assert(s7.stack.drop_last() =~= Seq::<Value>::empty());
        assert(spec_step(code, labels, arity, s7) == Outcome::Halted(
            Some(a),
            Seq::empty(),
            0,
            Seq::empty(),
        ));
        assert(spec_run(code, labels, arity, s0, 8) == Outcome::Halted(
            Some(a),
            Seq::empty(),
            0,
            Seq::empty(),
        ));
    } else {
        let s2 = MachineState { stack: s1.stack.drop_last(), fp: 0, ip: 4, out: s0.out };
        assert(spec_step(code, labels, arity, s1) == Outcome::Running(s2));
        let s3 = MachineState { stack: s2.stack, fp: 0, ip: 5, out: s0.out };
        assert(spec_step(code, labels, arity, s2) == Outcome::Running(s3));
        let s4 = MachineState { stack: s3.stack.push(Value::Int(b)), fp: 0, ip: 6, out: s0.out };
        assert(spec_step(code, labels, arity, s3) == Outcome::Running(s4));
        let s5 = MachineState { stack: s4.stack, fp: 0, ip: 7, out: s0.out };
        assert(spec_step(code, labels, arity, s4) == Outcome::Running(s5));
        let s6 = MachineState { stack: s5.stack, fp: 0, ip: 8, out: s0.out };
        assert(spec_step(code, labels, arity, s5) == Outcome::Running(s6));
        let s7 = MachineState { stack: s6.stack, fp: 0, ip: 9, out: s0.out };
        assert(spec_step(code, labels, arity, s6) == Outcome::Running(s7));
        assert(s7.stack.len() == 1 && int_of(s7.stack.last()) == b);
        assert(s7.stack.drop_last() =~= Seq::<Value>::empty());
        assert(spec_step(code, labels, arity, s7) == Outcome::Halted(
            Some(b),
            Seq::empty(),
            0,
            Seq::empty(),
        ));
        assert(spec_run(code, labels, arity, s0, 8) == Outcome::Halted(
            Some(b),
            Seq::empty(),
            0,
            Seq::empty(),
        ));
    }
}

/// A loop on a zero literal never runs its body: the code the
/// compiler emits for `while (c) return a; return b;` at top level
/// halts with `b` whenever `c` is zero, the body never executing, and
/// with `a` whenever `c` is any nonzero literal, for all literals `a`
/// and `b`.
pub proof fn lemma_loop_on_literal(c: i64, a: i64, b: i64, start: usize, endl: usize)
    requires
        start < endl,
        endl < EXIT_LABEL,
    ensures
        ({
            let code = seq![
                Instruction::Label(start),
                Instruction::Imm(c),
                Instruction::Jz(endl),
                Instruction::Imm(a),
                Instruction::Jmp(EXIT_LABEL),
                Instruction::Jmp(start),
                Instruction::Label(endl),
                Instruction::Imm(b),
                Instruction::Jmp(EXIT_LABEL),
                Instruction::Label(EXIT_LABEL),
            ];
            let s0 = MachineState { stack: Seq::empty(), fp: 0, ip: 0, out: Seq::empty() };
            exists|fuel: nat|
                spec_run(code, spec_labels(code), Map::empty(), s0, fuel) == Outcome::Halted(
                    Some(if c != 0 { a } else { b }),
                    Seq::empty(),
                    0,
                    Seq::empty(),
                )
        }),
{
    let code = seq![
        Instruction::Label(start),
        Instruction::Imm(c),
        Instruction::Jz(endl),
        Instruction::Imm(a),
        Instruction::Jmp(EXIT_LABEL),
        Instruction::Jmp(start),
        Instruction::Label(endl),
        Instruction::Imm(b),
        Instruction::Jmp(EXIT_LABEL),
        Instruction::Label(EXIT_LABEL),
    ];
    let labels = spec_labels(code);
    let arity = Map::<usize, usize>::empty();
    reveal_with_fuel(crate::vm::spec_labels_upto, 12);
    assert(labels.contains_key(start) && labels[start] == 0);
    assert(labels.contains_key(endl) && labels[endl] == 6);
    assert(labels.contains_key(EXIT_LABEL) && labels[EXIT_LABEL] == 9);
    let s0 = MachineState { stack: Seq::empty(), fp: 0, ip: 0, out: Seq::empty() };
    let e = Seq::<Value>::empty();
    let s1 = MachineState { stack: e, fp: 0, ip: 1, out: s0.out };
    assert(spec_step(code, labels, arity, s0) == Outcome::Running(s1));
    let s2 = MachineState { stack: e.push(Value::Int(c)), fp: 0, ip: 2, out: s0.out };
    assert(spec_step(code, labels, arity, s1) == Outcome::Running(s2));
    reveal_with_fuel(crate::vm::spec_run, 12);
    if c != 0 {
        let s3 = MachineState { stack: s2.stack.drop_last(), fp: 0, ip: 3, out: s0.out };
        assert(spec_step(code, labels, arity, s2) == Outcome::Running(s3));
        let s4 = MachineState { stack: s3.stack.push(Value::Int(a)), fp: 0, ip: 4, out: s0.out };
        assert(spec_step(code, labels, arity, s3) == Outcome::Running(s4));
        let s5 = MachineState { stack: s4.stack, fp: 0, ip: 9, out: s0.out };
        assert(spec_step(code, labels, arity, s4) == Outcome::Running(s5));
        let s6 = MachineState { stack: s5.stack, fp: 0, ip: 10, out: s0.out };
        assert(spec_step(code, labels, arity, s5) == Outcome::Running(s6));
        assert(s6.stack.len() == 1 && int_of(s6.stack.last()) == a);
        assert(s6.stack.drop_last() =~= Seq::<Value>::empty());
        assert(spec_step(code, labels, arity, s6) == Outcome::Halted(
            Some(a),
            Seq::empty(),
            0,
            Seq::empty(),
        ));
        assert(spec_run(code, labels, arity, s0, 7) == Outcome::Halted(
            Some(a),
            Seq::empty(),
            0,
            Seq::empty(),
        ));
    } else {
        let s3 = MachineState { stack: s2.stack.drop_last(), fp: 0, ip: 6, out: s0.out };
        assert(spec_step(code, labels, arity, s2) == Outcome::Running(s3));
        let s4 = MachineState { stack: s3.stack, fp: 0, ip: 7, out: s0.out };
        assert(spec_step(code, labels, arity, s3) == Outcome::Running(s4));
        let s5 = MachineState { stack: s4.stack.push(Value::Int(b)), fp: 0, ip: 8, out: s0.out };
        assert(spec_step(code, labels, arity, s4) == Outcome::Running(s5));
        let s6 = MachineState { stack: s5.stack, fp: 0, ip: 9, out: s0.out };
        assert(spec_step(code, labels, arity, s5) == Outcome::Running(s6));
        let s7 = MachineState { stack: s6.stack, fp: 0, ip: 10, out: s0.out };
        assert(spec_step(code, labels, arity, s6) == Outcome::Running(s7));
        assert(s7.stack.len() == 1 && int_of(s7.stack.last()) == b);
        assert(s7.stack.drop_last() =~= Seq::<Value>::empty());
        assert(spec_step(code, labels, arity, s7) == Outcome::Halted(
            Some(b),
            Seq::empty(),
            0,
            Seq::empty(),
        ));
        assert(spec_run(code, labels, arity, s0, 8) == Outcome::Halted(
            Some(b),
            Seq::empty(),
            0,
            Seq::empty(),
        ));
    }
}

/// Literal arithmetic follows conventional precedence: the code the
/// compiler emits for `return a + b * c - d;` at top level halts with
/// the value of `a + (b * c) - d` evaluated left to right under
/// two's-complement wrapping, for all literals: the multiplication
/// binds tighter than the addition and the subtraction.
pub proof fn lemma_arith_precedence(a: i64, b: i64, c: i64, d: i64)
    ensures
        ({
            let code = seq![
                Instruction::Imm(a),
                Instruction::Imm(b),
                Instruction::Imm(c),
                Instruction::Mul,
                Instruction::Add,
                Instruction::Imm(d),
                Instruction::Sub,
                Instruction::Jmp(EXIT_LABEL),
                Instruction::Label(EXIT_LABEL),
            ];
            let s0 = MachineState { stack: Seq::empty(), fp: 0, ip: 0, out: Seq::empty() };
            let v = vstd::wrapping::i64_specs::wrapping_sub(
                vstd::wrapping::i64_specs::wrapping_add(
                    a,
                    vstd::wrapping::i64_specs::wrapping_mul(b, c),
                ),
                d,
            );
            exists|fuel: nat|
                spec_run(code, spec_labels(code), Map::empty(), s0, fuel) == Outcome::Halted(
                    Some(v),
                    Seq::empty(),
                    0,
                    Seq::empty(),
                )
        }),
{
    let code = seq![
        Instruction::Imm(a),
        Instruction::Imm(b),
        Instruction::Imm(c),
        Instruction::Mul,
        Instruction::Add,
        Instruction::Imm(d),
        Instruction::Sub,
        Instruction::Jmp(EXIT_LABEL),
        Instruction::Label(EXIT_LABEL),
    ];
    let labels = spec_labels(code);
    let arity = Map::<usize, usize>::empty();
    reveal_with_fuel(crate::vm::spec_labels_upto, 11);
    assert(labels.contains_key(EXIT_LABEL) && labels[EXIT_LABEL] == 8);
    let m = vstd::wrapping::i64_specs::wrapping_mul(b, c);
    let p = vstd::wrapping::i64_specs::wrapping_add(a, m);
    let v = vstd::wrapping::i64_specs::wrapping_sub(p, d);
    let s0 = MachineState { stack: Seq::empty(), fp: 0, ip: 0, out: Seq::empty() };
    let e = Seq::<Value>::empty();
    let s1 = MachineState { stack: e.push(Value::Int(a)), fp: 0, ip: 1, out: s0.out };
    assert(spec_step(code, labels, arity, s0) == Outcome::Running(s1));
    let s2 = MachineState { stack: s1.stack.push(Value::Int(b)), fp: 0, ip: 2, out: s0.out };
    assert(spec_step(code, labels, arity, s1) == Outcome::Running(s2));
    let s3 = MachineState { stack: s2.stack.push(Value::Int(c)), fp: 0, ip: 3, out: s0.out };
    assert(spec_step(code, labels, arity, s2) == Outcome::Running(s3));
    let s4 = MachineState {
        stack: s3.stack.drop_last().drop_last().push(Value::Int(m)),
        fp: 0,
        ip: 4,
        out: s0.out,
    };
    assert(spec_step(code, labels, arity, s3) == Outcome::Running(s4));
    assert(s4.stack =~= e.push(Value::Int(a)).push(Value::Int(m)));
    let s5 = MachineState {
        stack: s4.stack.drop_last().drop_last().push(Value::Int(p)),
        fp: 0,
        ip: 5,
        out: s0.out,
    };
    assert(spec_step(code, labels, arity, s4) == Outcome::Running(s5));
    assert(s5.stack =~= e.push(Value::Int(p)));
    let s6 = MachineState { stack: s5.stack.push(Value::Int(d)), fp: 0, ip: 6, out: s0.out };
    assert(spec_step(code, labels, arity, s5) == Outcome::Running(s6));
    let s7 = MachineState {
        stack: s6.stack.drop_last().drop_last().push(Value::Int(v)),
        fp: 0,
        ip: 7,
        out: s0.out,
    };
    assert(spec_step(code, labels, arity, s6) == Outcome::Running(s7));
    assert(s7.stack =~= e.push(Value::Int(v)));
    let s8 = MachineState { stack: s7.stack, fp: 0, ip: 8, out: s0.out };
    assert(spec_step(code, labels, arity, s7) == Outcome::Running(s8));
    let s9 = MachineState { stack: s8.stack, fp: 0, ip: 9, out: s0.out };
    assert(spec_step(code, labels, arity, s8) == Outcome::Running(s9));
    assert(s9.stack.len() == 1 && int_of(s9.stack.last()) == v);
    assert(s9.stack.drop_last() =~= Seq::<Value>::empty());
    assert(spec_step(code, labels, arity, s9) == Outcome::Halted(
        Some(v),
        Seq::empty(),
        0,
        Seq::empty(),
    ));
    reveal_with_fuel(crate::vm::spec_run, 12);
    assert(spec_run(code, labels, arity, s0, 10) == Outcome::Halted(
        Some(v),
        Seq::empty(),
        0,
        Seq::empty(),
    ));
}

/// The whole call protocol preserves left-to-right positional binding
/// for every pair of literals: the code the compiler emits for
/// `int sub(int a, int b) { return a - b; } int main() { return sub(x, y); }`,
/// run from `main`'s entry, halts with `x - y` under two's-complement
/// wrapping -- the first parameter binds to the first argument even
/// though the arguments' code is emitted right-to-left.
pub proof fn lemma_call_protocol_binds(x: i64, y: i64)
    ensures
        ({
            let code = seq![
                Instruction::Enter(2),
                Instruction::LoadLocal(0),
                Instruction::LoadLocal(1),
                Instruction::Sub,
                Instruction::Leave,
                Instruction::Enter(0),
                Instruction::Imm(y),
                Instruction::Imm(x),
                Instruction::Call(0),
                Instruction::Jmp(EXIT_LABEL),
                Instruction::Label(EXIT_LABEL),
            ];
            let arity = Map::<usize, usize>::empty().insert(0, 2);
            let s0 = MachineState { stack: Seq::empty(), fp: 0, ip: 5, out: Seq::empty() };
            exists|fuel: nat|
                spec_run(code, spec_labels(code), arity, s0, fuel) == Outcome::Halted(
                    Some(vstd::wrapping::i64_specs::wrapping_sub(x, y)),
                    Seq::empty(),
                    0,
                    Seq::empty(),
                )
        }),
{
    let code = seq![
        Instruction::Enter(2),
        Instruction::LoadLocal(0),
        Instruction::LoadLocal(1),
        Instruction::Sub,
        Instruction::Leave,
        Instruction::Enter(0),
        Instruction::Imm(y),
        Instruction::Imm(x),
        Instruction::Call(0),
        Instruction::Jmp(EXIT_LABEL),
        Instruction::Label(EXIT_LABEL),
    ];
    let labels = spec_labels(code);
    let arity = Map::<usize, usize>::empty().insert(0, 2);
    reveal_with_fuel(crate::vm::spec_labels_upto, 13);
    assert(labels.contains_key(EXIT_LABEL) && labels[EXIT_LABEL] == 10);
    let s = vstd::wrapping::i64_specs::wrapping_sub(x, y);
    let e = Seq::<Value>::empty();
    let s0 = MachineState { stack: e, fp: 0, ip: 5, out: Seq::empty() };
    // main's prologue allocates nothing
    let s1 = MachineState { stack: e + Seq::new(0, |k: int| Value::Int(0)), fp: 0, ip: 6, out: s0.out };
    assert(spec_step(code, labels, arity, s0) == Outcome::Running(s1));
    assert(s1.stack =~= e);
    // the rightmost argument's code runs first
    let s2 = MachineState { stack: s1.stack.push(Value::Int(y)), fp: 0, ip: 7, out: s0.out };
    assert(spec_step(code, labels, arity, s1) == Outcome::Running(s2));
    let s3 = MachineState { stack: s2.stack.push(Value::Int(x)), fp: 0, ip: 8, out: s0.out };
    assert(spec_step(code, labels, arity, s2) == Outcome::Running(s3));
    // the call reverses the arguments back into positional order
    let frame = seq![Value::Int(0), Value::Int(9), Value::Int(x), Value::Int(y)];
    let s4 = MachineState { stack: frame, fp: 2, ip: 0, out: s0.out };
    assert(spec_step(code, labels, arity, s3) is Running);
    assert(spec_step(code, labels, arity, s3)->Running_0 =~~= s4);
    assert(spec_step(code, labels, arity, s3) == Outcome::Running(s4));
    // the callee's prologue finds both parameter slots already filled
    let s5 = MachineState { stack: frame + Seq::new(0, |k: int| Value::Int(0)), fp: 2, ip: 1, out: s0.out };
    assert(spec_step(code, labels, arity, s4) == Outcome::Running(s5));
    assert(s5.stack =~= frame);
    // parameter offset zero holds the leftmost argument
    let s6 = MachineState { stack: frame.push(Value::Int(x)), fp: 2, ip: 2, out: s0.out };
    assert(spec_step(code, labels, arity, s5) == Outcome::Running(s6));
    let s7 = MachineState { stack: s6.stack.push(Value::Int(y)), fp: 2, ip: 3, out: s0.out };
    assert(spec_step(code, labels, arity, s6) == Outcome::Running(s7));
    let s8 = MachineState {
        stack: s7.stack.drop_last().drop_last().push(Value::Int(s)),
        fp: 2,
        ip: 4,
        out: s0.out,
    };
    assert(spec_step(code, labels, arity, s7) == Outcome::Running(s8));
    assert(s8.stack =~= frame.push(Value::Int(s)));
    // the epilogue pops the frame and returns the single value
    let s9 = MachineState { stack: e.push(Value::Int(s)), fp: 0, ip: 9, out: s0.out };
    assert(spec_step(code, labels, arity, s8) is Running);
    assert(spec_step(code, labels, arity, s8)->Running_0 =~~= s9);
    assert(spec_step(code, labels, arity, s8) == Outcome::Running(s9));
    let s10 = MachineState { stack: s9.stack, fp: 0, ip: 10, out: s0.out };
    assert(spec_step(code, labels, arity, s9) == Outcome::Running(s10));
    let s11 = MachineState { stack: s10.stack, fp: 0, ip: 11, out: s0.out };
    assert(spec_step(code, labels, arity, s10) == Outcome::Running(s11));
    assert(s11.stack.len() == 1 && int_of(s11.stack.last()) == s);
    assert(s11.stack.drop_last() =~= Seq::<Value>::empty());
    assert(spec_step(code, labels, arity, s11) == Outcome::Halted(
        Some(s),
        Seq::empty(),
        0,
        Seq::empty(),
    ));
    reveal_with_fuel(crate::vm::spec_run, 15);
    assert(spec_run(code, labels, arity, s0, 12) == Outcome::Halted(
        Some(s),
        Seq::empty(),
        0,
        Seq::empty(),
    ));
}

/// A local behaves like an ordinary variable for every stored value:
/// the code the compiler emits for `{ int x; x = v; return x + w; }`,
/// run with the local's slot pre-allocated, halts with `v + w` under
/// two's-complement wrapping -- what is stored in the slot is exactly
/// what a later load yields.
pub proof fn lemma_store_load_local(v: i64, w: i64)
    ensures
        ({
            let code = seq![
                Instruction::Imm(v),
                Instruction::StoreLocal(0),
                Instruction::LoadLocal(0),
                Instruction::Imm(w),
                Instruction::Add,
                Instruction::Jmp(EXIT_LABEL),
                Instruction::Label(EXIT_LABEL),
            ];
            let s0 = MachineState {
                stack: seq![Value::Int(0)],
                fp: 0,
                ip: 0,
                out: Seq::empty(),
            };
            exists|fuel: nat|
                spec_run(code, spec_labels(code), Map::empty(), s0, fuel) == Outcome::Halted(
                    Some(vstd::wrapping::i64_specs::wrapping_add(v, w)),
                    seq![Value::Int(v)],
                    0,
                    Seq::empty(),
                )
        }),
{
    let code = seq![
        Instruction::Imm(v),
        Instruction::StoreLocal(0),
        Instruction::LoadLocal(0),
        Instruction::Imm(w),
        Instruction::Add,
        Instruction::Jmp(EXIT_LABEL),
        Instruction::Label(EXIT_LABEL),
    ];
    let labels = spec_labels(code);
    let arity = Map::<usize, usize>::empty();
    reveal_with_fuel(crate::vm::spec_labels_upto, 9);
    assert(labels.contains_key(EXIT_LABEL) && labels[EXIT_LABEL] == 6);
    let r = vstd::wrapping::i64_specs::wrapping_add(v, w);
    let s0 = MachineState { stack: seq![Value::Int(0)], fp: 0, ip: 0, out: Seq::empty() };
    let s1 = MachineState { stack: s0.stack.push(Value::Int(v)), fp: 0, ip: 1, out: s0.out };
    assert(spec_step(code, labels, arity, s0) == Outcome::Running(s1));
    let s2 = MachineState {
        stack: s1.stack.drop_last().update(0, Value::Int(v)),
        fp: 0,
        ip: 2,
        out: s0.out,
    };
    assert(spec_step(code, labels, arity, s1) == Outcome::Running(s2));
    assert(s2.stack =~= seq![Value::Int(v)]);
    let s3 = MachineState { stack: s2.stack.push(s2.stack[0]), fp: 0, ip: 3, out: s0.out };
    assert(spec_step(code, labels, arity, s2) == Outcome::Running(s3));
    assert(s3.stack =~= seq![Value::Int(v), Value::Int(v)]);
    let s4 = MachineState { stack: s3.stack.push(Value::Int(w)), fp: 0, ip: 4, out: s0.out };
    assert(spec_step(code, labels, arity, s3) == Outcome::Running(s4));
    let s5 = MachineState {
        stack: s4.stack.drop_last().drop_last().push(Value::Int(r)),
        fp: 0,
        ip: 5,
        out: s0.out,
    };
    assert(spec_step(code, labels, arity, s4) == Outcome::Running(s5));
    assert(s5.stack =~= seq![Value::Int(v), Value::Int(r)]);
    let s6 = MachineState { stack: s5.stack, fp: 0, ip: 6, out: s0.out };
    assert(spec_step(code, labels, arity, s5) == Outcome::Running(s6));
    let s7 = MachineState { stack: s6.stack, fp: 0, ip: 7, out: s0.out };
    assert(spec_step(code, labels, arity, s6) == Outcome::Running(s7));
    assert(s7.stack.len() == 2 && int_of(s7.stack.last()) == r);
    assert(s7.stack.drop_last() =~= seq![Value::Int(v)]);
    assert(spec_step(code, labels, arity, s7) == Outcome::Halted(
        Some(r),
        seq![Value::Int(v)],
        0,
        Seq::empty(),
    ));
    reveal_with_fuel(crate::vm::spec_run, 11);
    assert(spec_run(code, labels, arity, s0, 8) == Outcome::Halted(
        Some(r),
        seq![Value::Int(v)],
        0,
        Seq::empty(),
    ));
}

} // verus!
