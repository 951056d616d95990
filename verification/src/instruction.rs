use vstd::prelude::*;

verus! {

/// The closed instruction vocabulary shared by the compiler and the
/// virtual machine.  A program is one flat `Vec<Instruction>`.
///
/// Arithmetic, comparison and bitwise instructions pop two values and
/// push one; unary instructions pop one and push one.  `Label` is a
/// zero-cost marker that is never executed, only resolved: every
/// `Jmp`/`Jz` names a label id that must appear as exactly one `Label`
/// in the same program.  `Call` names the entry instruction index of a
/// function, `Enter` allocates a frame's local slots, and `Leave` tears
/// the frame down and returns.
#[derive(Debug, Clone, PartialEq, Eq)]
pub enum Instruction {
    /// Push an integer immediate.
    Imm(i64),
    Add,
    Sub,
    Mul,
    Div,
    Mod,
    /// Arithmetic negation of the top of stack.
    Neg,
    /// Logical not: 1 if the top of stack is zero, else 0.
    Not,
    /// Pop an absolute stack address and push the value stored there.
    Deref,
    /// Push the absolute stack address of the local at the given frame offset.
    Addr(usize),
    /// A C-style value cast; a no-op at runtime.
    Cast,
    Eq,
    Ne,
    Lt,
    Gt,
    Le,
    Ge,
    BitAnd,
    BitOr,
    BitXor,
    Shl,
    Shr,
    /// Pop the top of stack and emit it on the output stream.
    Print,
    /// Emit a string captured at compile time on the output stream.
    PrintStr(String),
    /// Unconditional jump to the position of `Label(id)`.
    Jmp(usize),
    /// Pop the top of stack; jump to `Label(id)` if it is zero.
    Jz(usize),
    /// Jump-target marker; a no-op when stepped over.
    Label(usize),
    /// Push a copy of the local at the given frame offset.
    LoadLocal(usize),
    /// Pop the top of stack into the local at the given frame offset.
    StoreLocal(usize),
    /// Call the function whose code begins at the given instruction index.
    Call(usize),
    /// Frame prologue: ensure the frame holds the given number of slots.
    Enter(usize),
    /// Frame epilogue: pop the frame and return one value to the caller.
    Leave,
}

/// The label id of the program's abstract exit point.  The compiler
/// appends a single `Label(EXIT_LABEL)` after the last instruction;
/// every top-level `return` jumps there.  Ordinary labels are allocated
/// counting up from zero and never reach this value.
pub const EXIT_LABEL: usize = usize::MAX;

/// A sequence of instructions is its own full subrange.
pub broadcast proof fn lemma_subrange_full(s: Seq<Instruction>)
    ensures
        #[trigger] s.subrange(0, s.len() as int) == s,
{
    assert(s.subrange(0, s.len() as int) =~= s);
}

/// Pushing an instruction keeps the old elements as a prefix.
pub broadcast proof fn lemma_push_prefix(s: Seq<Instruction>, v: Instruction)
    ensures
        #[trigger] s.push(v).subrange(0, s.len() as int) == s,
{
    assert(s.push(v).subrange(0, s.len() as int) =~= s);
}

} // verus!
