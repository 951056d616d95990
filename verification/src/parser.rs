use vstd::prelude::*;
use crate::instruction::{Instruction, EXIT_LABEL};
use crate::lexer::{lx_strict, spec_tokenize, LexError, LexState, Lexer};
use crate::token::{token_view, Token, TokenKind, TokenView};

verus! {

broadcast use crate::instruction::lemma_subrange_full, crate::instruction::lemma_push_prefix;

/// A fatal condition at compile time.  Compilation aborts immediately;
/// there is no partial or degraded compilation.
#[derive(Debug, Clone, Copy, PartialEq, Eq, Structural)]
pub enum CompileError {
    /// The lexer rejected a literal.
    Lex(LexError),
    /// A parameter list held something other than a typed name.
    ExpectedParamName,
    /// A parameter list did not close with `)`.
    ExpectedRParenAfterParams,
    /// A function header was not followed by a `{` body.
    ExpectedLBraceBody,
    /// A variable declaration did not end with `;`.
    ExpectedSemicolonAfterDeclaration,
    /// `if` was not followed by `(`.
    ExpectedLParenAfterIf,
    /// An `if` condition did not close with `)`.
    ExpectedRParenAfterIf,
    /// `while` was not followed by `(`.
    ExpectedLParenAfterWhile,
    /// A `while` condition did not close with `)`.
    ExpectedRParenAfterWhile,
    /// A `return` expression did not end with `;`.
    ExpectedSemicolonAfterReturn,
    /// An expression statement did not end with `;`.
    ExpectedSemicolonAfterExpression,
    /// A name was used that no declaration in scope assigned a slot.
    UndefinedVariable,
    /// A call named a function that was never defined.
    UnknownFunction,
    /// `&` was not followed by the name of a local.
    ExpectedIdentAfterAddressOf,
    /// `sizeof` was not followed by `(`.
    ExpectedLParenAfterSizeof,
    /// `sizeof` was applied to something other than a type.
    InvalidSizeofType,
    /// A `sizeof` argument did not close with `)`.
    ExpectedRParenAfterSizeof,
    /// `print` was not followed by `(`.
    ExpectedLParenAfterPrint,
    /// A `print` argument did not close with `)`.
    ExpectedRParenAfterPrint,
    /// A cast type did not close with `)`.
    ExpectedRParenAfterCast,
    /// A grouped expression did not close with `)`.
    ExpectedRParenAfterExpression,
    /// A conditional expression lacked its `:`.
    ExpectedColonInConditional,
    /// A token sat in infix position that no code is emitted for.
    UnsupportedInfixOperator,
    /// A string literal where a value is needed; there is no data
    /// segment to place it in.
    StringLiteralUnsupported,
    /// A float literal; this backend compiles the integer language.
    FloatLiteralUnsupported,
    /// The label counter is exhausted.
    TooManyLabels,
    /// The local-slot counter is exhausted.
    TooManyLocals,
}

/// The number of bytes `sizeof(int)` evaluates to at compile time.
pub const SIZEOF_INT: i64 = 8;

/// The number of bytes `sizeof(char)` evaluates to at compile time.
pub const SIZEOF_CHAR: i64 = 1;

/// The number of bytes `sizeof` of any pointer type evaluates to at
/// compile time.
pub const SIZEOF_PTR: i64 = 8;

/// The label a jump instruction names, if it is one.
pub open spec fn jump_target(i: Instruction) -> Option<usize> {
    match i {
        Instruction::Jmp(l) => Some(l),
        Instruction::Jz(l) => Some(l),
        _ => None,
    }
}

/// The id a label marker carries, if it is one.
pub open spec fn label_of(i: Instruction) -> Option<usize> {
    match i {
        Instruction::Label(l) => Some(l),
        _ => None,
    }
}

/// Whether `code` holds a `Label(l)` marker.
pub open spec fn has_label(code: Seq<Instruction>, l: usize) -> bool {
    exists|j: int| 0 <= j < code.len() && code[j] == Instruction::Label(l)
}

/// Every jump in `code` names a label that `code` marks.
#[verifier::opaque]
pub open spec fn jumps_resolved(code: Seq<Instruction>) -> bool {
    forall|i: int|
        0 <= i < code.len() ==> match jump_target(#[trigger] code[i]) {
            Some(l) => has_label(code, l),
            None => true,
        }
}

/// No two label markers in `code` carry the same id.
#[verifier::opaque]
pub open spec fn labels_unique(code: Seq<Instruction>) -> bool {
    forall|i: int, j: int|
        0 <= i < j < code.len() ==> !(label_of(#[trigger] code[i]) is Some && label_of(code[i])
            == label_of(#[trigger] code[j]))
}

/// A self-contained stretch of emitted code: its jumps go to the exit
/// sentinel or to labels marked within the stretch, and its label
/// markers carry pairwise distinct ids drawn from `lo..hi`.
#[verifier::opaque]
pub open spec fn seg_wf(seg: Seq<Instruction>, lo: int, hi: int) -> bool {
    &&& forall|i: int|
        0 <= i < seg.len() ==> match jump_target(#[trigger] seg[i]) {
            Some(l) => l == EXIT_LABEL || has_label(seg, l),
            None => true,
        }
    &&& forall|i: int|
        0 <= i < seg.len() ==> match label_of(#[trigger] seg[i]) {
            Some(l) => lo <= l < hi && l < EXIT_LABEL,
            None => true,
        }
    &&& forall|i: int, j: int|
        0 <= i < j < seg.len() ==> !(label_of(#[trigger] seg[i]) is Some && label_of(seg[i])
            == label_of(#[trigger] seg[j]))
}

/// A label marked in either part is marked in their concatenation.
proof fn lemma_has_label_concat(s1: Seq<Instruction>, s2: Seq<Instruction>, l: usize)
    requires
        has_label(s1, l) || has_label(s2, l),
    ensures
        has_label(s1 + s2, l),
{
    if has_label(s1, l) {
        let j = choose|j: int| 0 <= j < s1.len() && s1[j] == Instruction::Label(l);
        assert((s1 + s2)[j] == Instruction::Label(l));
    } else {
        let j = choose|j: int| 0 <= j < s2.len() && s2[j] == Instruction::Label(l);
        assert((s1 + s2)[j + s1.len()] == Instruction::Label(l));
    }
}

/// Two self-contained stretches over adjacent label ranges concatenate
/// into one.
pub proof fn lemma_seg_concat(s1: Seq<Instruction>, s2: Seq<Instruction>, lo: int, mid: int, hi: int)
    requires
        seg_wf(s1, lo, mid),
        seg_wf(s2, mid, hi),
        lo <= mid <= hi,
    ensures
        seg_wf(s1 + s2, lo, hi),
{
    reveal(seg_wf);
    let s = s1 + s2;
    assert forall|i: int| 0 <= i < s.len() implies match jump_target(#[trigger] s[i]) {
        Some(l) => l == EXIT_LABEL || has_label(s, l),
        None => true,
    } by {
        if i < s1.len() {
            assert(s[i] == s1[i]);
            match jump_target(s1[i]) {
                Some(l) => {
                    if l != EXIT_LABEL {
                        lemma_has_label_concat(s1, s2, l);
                    }
                },
                None => {},
            }
        } else {
            assert(s[i] == s2[i - s1.len()]);
            match jump_target(s2[i - s1.len()]) {
                Some(l) => {
                    if l != EXIT_LABEL {
                        lemma_has_label_concat(s1, s2, l);
                    }
                },
                None => {},
            }
        }
    }
    assert forall|i: int| 0 <= i < s.len() implies match label_of(#[trigger] s[i]) {
        Some(l) => lo <= l < hi && l < EXIT_LABEL,
        None => true,
    } by {
        if i < s1.len() {
            assert(s[i] == s1[i]);
        } else {
            assert(s[i] == s2[i - s1.len()]);
        }
    }
    assert forall|i: int, j: int| 0 <= i < j < s.len() implies !(label_of(#[trigger] s[i]) is Some
        && label_of(s[i]) == label_of(#[trigger] s[j])) by {
        if i < s1.len() {
            assert(s[i] == s1[i]);
        } else {
            assert(s[i] == s2[i - s1.len()]);
        }
        if j < s1.len() {
            assert(s[j] == s1[j]);
        } else {
            assert(s[j] == s2[j - s1.len()]);
        }
    }
}

/// An instruction that neither jumps nor marks a label may be appended
/// to a self-contained stretch.
pub proof fn lemma_seg_push_plain(seg: Seq<Instruction>, i: Instruction, lo: int, hi: int)
    requires
        seg_wf(seg, lo, hi),
        jump_target(i) is None,
        label_of(i) is None,
    ensures
        seg_wf(seg.push(i), lo, hi),
{
    reveal(seg_wf);
    let s = seg.push(i);
    assert(s.len() == seg.len() + 1);
    assert forall|k: int| 0 <= k < s.len() implies match jump_target(#[trigger] s[k]) {
        Some(l) => l == EXIT_LABEL || has_label(s, l),
        None => true,
    } by {
        if k < seg.len() {
            assert(s[k] == seg[k]);
            match jump_target(seg[k]) {
                Some(l) => {
                    if l != EXIT_LABEL {
                        let j = choose|j: int|
                            0 <= j < seg.len() && seg[j] == Instruction::Label(l);
                        assert(s[j] == Instruction::Label(l));
                    }
                },
                None => {},
            }
        }
    }
    assert forall|k: int| 0 <= k < s.len() implies match label_of(#[trigger] s[k]) {
        Some(l) => lo <= l < hi && l < EXIT_LABEL,
        None => true,
    } by {
        if k < seg.len() {
            assert(s[k] == seg[k]);
        }
    }
    assert forall|k: int, j: int| 0 <= k < j < s.len() implies !(label_of(#[trigger] s[k]) is Some
        && label_of(s[k]) == label_of(#[trigger] s[j])) by {
        if j < seg.len() {
            assert(s[k] == seg[k] && s[j] == seg[j]);
        } else {
            assert(s[j] == i);
            if k < seg.len() {
                assert(s[k] == seg[k]);
            }
        }
    }
}

/// A jump straight to the exit sentinel may be appended to a
/// self-contained stretch.
pub proof fn lemma_seg_push_exit_jump(seg: Seq<Instruction>, lo: int, hi: int)
    requires
        seg_wf(seg, lo, hi),
    ensures
        seg_wf(seg.push(Instruction::Jmp(EXIT_LABEL)), lo, hi),
{
    reveal(seg_wf);
    let i = Instruction::Jmp(EXIT_LABEL);
    let s = seg.push(i);
    assert forall|k: int| 0 <= k < s.len() implies match jump_target(#[trigger] s[k]) {
        Some(l) => l == EXIT_LABEL || has_label(s, l),
        None => true,
    } by {
        if k < seg.len() {
            assert(s[k] == seg[k]);
            match jump_target(seg[k]) {
                Some(l) => {
                    if l != EXIT_LABEL {
                        let j = choose|j: int|
                            0 <= j < seg.len() && seg[j] == Instruction::Label(l);
                        assert(s[j] == Instruction::Label(l));
                    }
                },
                None => {},
            }
        }
    }
    assert forall|k: int| 0 <= k < s.len() implies match label_of(#[trigger] s[k]) {
        Some(l) => lo <= l < hi && l < EXIT_LABEL,
        None => true,
    } by {
        if k < seg.len() {
            assert(s[k] == seg[k]);
        }
    }
    assert forall|k: int, j: int| 0 <= k < j < s.len() implies !(label_of(#[trigger] s[k]) is Some
        && label_of(s[k]) == label_of(#[trigger] s[j])) by {
        if j < seg.len() {
            assert(s[k] == seg[k] && s[j] == seg[j]);
        } else {
            if k < seg.len() {
                assert(s[k] == seg[k]);
            }
        }
    }
}

/// The empty stretch is self-contained over any label range.
pub proof fn lemma_seg_empty(lo: int, hi: int)
    ensures
        seg_wf(Seq::<Instruction>::empty(), lo, hi),
{
    reveal(seg_wf);
}

/// A single instruction that neither jumps nor marks a label is a
/// self-contained stretch over any label range.
pub proof fn lemma_seg_single_plain(i: Instruction, lo: int, hi: int)
    requires
        jump_target(i) is None,
        label_of(i) is None,
    ensures
        seg_wf(seq![i], lo, hi),
{
    reveal(seg_wf);
    let s = seq![i];
    assert(forall|k: int| 0 <= k < s.len() ==> s[k] == i);
}

/// The shape an `if` emits: the condition, a jump over the branch to a
/// fresh label, the branch, and the label's marker.
pub proof fn lemma_seg_branch(
    cond: Seq<Instruction>,
    body: Seq<Instruction>,
    l: usize,
    lo: int,
    hi: int,
)
    requires
        seg_wf(cond, lo, l as int),
        seg_wf(body, l + 1, hi),
        lo <= l < hi,
        l < EXIT_LABEL,
    ensures
        seg_wf(cond + seq![Instruction::Jz(l)] + body + seq![Instruction::Label(l)], lo, hi),
{
    reveal(seg_wf);
    let jz = seq![Instruction::Jz(l)];
    let lb = seq![Instruction::Label(l)];
    let s = cond + jz + body + lb;
    // jumps of the whole
    assert forall|k: int| 0 <= k < s.len() implies match jump_target(#[trigger] s[k]) {
        Some(t) => t == EXIT_LABEL || has_label(s, t),
        None => true,
    } by {
        assert(s[s.len() - 1] == Instruction::Label(l));
        if k < cond.len() {
            assert(s[k] == cond[k]);
            match jump_target(cond[k]) {
                Some(t) => {
                    if t != EXIT_LABEL {
                        let j = choose|j: int|
                            0 <= j < cond.len() && cond[j] == Instruction::Label(t);
                        assert(s[j] == Instruction::Label(t));
                    }
                },
                None => {},
            }
        } else if k == cond.len() {
            assert(s[k] == Instruction::Jz(l));
            assert(has_label(s, l));
        } else if k < cond.len() + 1 + body.len() {
            let b = k - cond.len() - 1;
            assert(s[k] == body[b]);
            match jump_target(body[b]) {
                Some(t) => {
                    if t != EXIT_LABEL {
                        let j = choose|j: int|
                            0 <= j < body.len() && body[j] == Instruction::Label(t);
                        assert(s[cond.len() + 1 + j] == Instruction::Label(t));
                    }
                },
                None => {},
            }
        }
    }
    // labels in range
    assert forall|k: int| 0 <= k < s.len() implies match label_of(#[trigger] s[k]) {
        Some(t) => lo <= t < hi && t < EXIT_LABEL,
        None => true,
    } by {
        if k < cond.len() {
            assert(s[k] == cond[k]);
        } else if k == cond.len() {
            assert(s[k] == Instruction::Jz(l));
        } else if k < cond.len() + 1 + body.len() {
            assert(s[k] == body[k - cond.len() - 1]);
        } else {
            assert(s[k] == Instruction::Label(l));
        }
    }
    // labels unique
    assert forall|k: int, j: int| 0 <= k < j < s.len() implies !(label_of(#[trigger] s[k]) is Some
        && label_of(s[k]) == label_of(#[trigger] s[j])) by {
        let lk = if k < cond.len() {
            assert(s[k] == cond[k]);
            label_of(cond[k])
        } else if k == cond.len() {
            label_of(Instruction::Jz(l))
        } else if k < cond.len() + 1 + body.len() {
            assert(s[k] == body[k - cond.len() - 1]);
            label_of(body[k - cond.len() - 1])
        } else {
            label_of(Instruction::Label(l))
        };
        let lj = if j < cond.len() {
            assert(s[j] == cond[j]);
            label_of(cond[j])
        } else if j == cond.len() {
            label_of(Instruction::Jz(l))
        } else if j < cond.len() + 1 + body.len() {
            assert(s[j] == body[j - cond.len() - 1]);
            label_of(body[j - cond.len() - 1])
        } else {
            label_of(Instruction::Label(l))
        };
        assert(label_of(s[k]) == lk);
        assert(label_of(s[j]) == lj);
    }
}

/// A self-contained stretch keeps its properties over any wider label
/// range.
pub proof fn lemma_seg_widen(seg: Seq<Instruction>, lo: int, hi: int, lo2: int, hi2: int)
    requires
        seg_wf(seg, lo, hi),
        lo2 <= lo,
        hi <= hi2,
    ensures
        seg_wf(seg, lo2, hi2),
{
    reveal(seg_wf);
}

/// Two self-contained stretches over disjoint label ranges concatenate
/// into one, whichever order they stand in.
pub proof fn lemma_seg_concat_disjoint(
    s1: Seq<Instruction>,
    a1: int,
    b1: int,
    s2: Seq<Instruction>,
    a2: int,
    b2: int,
    lo: int,
    hi: int,
)
    requires
        seg_wf(s1, a1, b1),
        seg_wf(s2, a2, b2),
        b1 <= a2 || b2 <= a1,
        lo <= a1 && b1 <= hi,
        lo <= a2 && b2 <= hi,
    ensures
        seg_wf(s1 + s2, lo, hi),
{
    reveal(seg_wf);
    let s = s1 + s2;
    assert forall|i: int| 0 <= i < s.len() implies match jump_target(#[trigger] s[i]) {
        Some(l) => l == EXIT_LABEL || has_label(s, l),
        None => true,
    } by {
        if i < s1.len() {
            assert(s[i] == s1[i]);
            match jump_target(s1[i]) {
                Some(l) => {
                    if l != EXIT_LABEL {
                        lemma_has_label_concat(s1, s2, l);
                    }
                },
                None => {},
            }
        } else {
            assert(s[i] == s2[i - s1.len()]);
            match jump_target(s2[i - s1.len()]) {
                Some(l) => {
                    if l != EXIT_LABEL {
                        lemma_has_label_concat(s1, s2, l);
                    }
                },
                None => {},
            }
        }
    }
    assert forall|i: int| 0 <= i < s.len() implies match label_of(#[trigger] s[i]) {
        Some(l) => lo <= l < hi && l < EXIT_LABEL,
        None => true,
    } by {
        if i < s1.len() {
            assert(s[i] == s1[i]);
        } else {
            assert(s[i] == s2[i - s1.len()]);
        }
    }
    assert forall|i: int, j: int| 0 <= i < j < s.len() implies !(label_of(#[trigger] s[i]) is Some
        && label_of(s[i]) == label_of(#[trigger] s[j])) by {
        if i < s1.len() {
            assert(s[i] == s1[i]);
        } else {
            assert(s[i] == s2[i - s1.len()]);
        }
        if j < s1.len() {
            assert(s[j] == s1[j]);
        } else {
            assert(s[j] == s2[j - s1.len()]);
        }
    }
}

/// The shape a `while` emits: a start label, the condition, a jump
/// past the loop to an end label, the body, a jump back to the start,
/// and the end label's marker.
pub proof fn lemma_seg_loop(
    cond: Seq<Instruction>,
    body: Seq<Instruction>,
    start: usize,
    b: int,
    hi: int,
)
    requires
        start + 1 < EXIT_LABEL,
        seg_wf(cond, start + 2, b),
        seg_wf(body, b, hi),
        start + 2 <= b <= hi,
    ensures
        seg_wf(
            seq![Instruction::Label(start)] + cond + seq![Instruction::Jz((start + 1) as usize)]
                + body + seq![
                Instruction::Jmp(start),
                Instruction::Label((start + 1) as usize),
            ],
            start as int,
            hi,
        ),
{
    reveal(seg_wf);
    let endl = (start + 1) as usize;
    let s = seq![Instruction::Label(start)] + cond + seq![Instruction::Jz(endl)] + body + seq![
        Instruction::Jmp(start),
        Instruction::Label(endl),
    ];
    let cl = cond.len() as int;
    let bl = body.len() as int;
    assert(s.len() == cl + bl + 4);
    assert forall|k: int| 0 <= k < s.len() implies match jump_target(#[trigger] s[k]) {
        Some(t) => t == EXIT_LABEL || has_label(s, t),
        None => true,
    } by {
        assert(s[0] == Instruction::Label(start));
        assert(s[s.len() - 1] == Instruction::Label(endl));
        if k == 0 {
        } else if k < 1 + cl {
            assert(s[k] == cond[k - 1]);
            match jump_target(cond[k - 1]) {
                Some(t) => {
                    if t != EXIT_LABEL {
                        let j = choose|j: int|
                            0 <= j < cond.len() && cond[j] == Instruction::Label(t);
                        assert(s[j + 1] == Instruction::Label(t));
                    }
                },
                None => {},
            }
        } else if k == 1 + cl {
            assert(s[k] == Instruction::Jz(endl));
            assert(has_label(s, endl));
        } else if k < 2 + cl + bl {
            assert(s[k] == body[k - cl - 2]);
            match jump_target(body[k - cl - 2]) {
                Some(t) => {
                    if t != EXIT_LABEL {
                        let j = choose|j: int|
                            0 <= j < body.len() && body[j] == Instruction::Label(t);
                        assert(s[j + cl + 2] == Instruction::Label(t));
                    }
                },
                None => {},
            }
        } else if k == 2 + cl + bl {
            assert(s[k] == Instruction::Jmp(start));
            assert(has_label(s, start));
        } else {
            assert(s[k] == Instruction::Label(endl));
        }
    }
    assert forall|k: int| 0 <= k < s.len() implies match label_of(#[trigger] s[k]) {
        Some(t) => start <= t < hi && t < EXIT_LABEL,
        None => true,
    } by {
        if k == 0 {
        } else if k < 1 + cl {
            assert(s[k] == cond[k - 1]);
        } else if k == 1 + cl {
            assert(s[k] == Instruction::Jz(endl));
        } else if k < 2 + cl + bl {
            assert(s[k] == body[k - cl - 2]);
        } else if k == 2 + cl + bl {
            assert(s[k] == Instruction::Jmp(start));
        } else {
            assert(s[k] == Instruction::Label(endl));
        }
    }
    assert forall|k: int, j: int| 0 <= k < j < s.len() implies !(label_of(#[trigger] s[k]) is Some
        && label_of(s[k]) == label_of(#[trigger] s[j])) by {
        let lk = if k == 0 {
            label_of(Instruction::Label(start))
        } else if k < 1 + cl {
            assert(s[k] == cond[k - 1]);
            label_of(cond[k - 1])
        } else if k == 1 + cl {
            label_of(Instruction::Jz(endl))
        } else if k < 2 + cl + bl {
            assert(s[k] == body[k - cl - 2]);
            label_of(body[k - cl - 2])
        } else if k == 2 + cl + bl {
            label_of(Instruction::Jmp(start))
        } else {
            label_of(Instruction::Label(endl))
        };
        let lj = if j == 0 {
            label_of(Instruction::Label(start))
        } else if j < 1 + cl {
            assert(s[j] == cond[j - 1]);
            label_of(cond[j - 1])
        } else if j == 1 + cl {
            label_of(Instruction::Jz(endl))
        } else if j < 2 + cl + bl {
            assert(s[j] == body[j - cl - 2]);
            label_of(body[j - cl - 2])
        } else if j == 2 + cl + bl {
            label_of(Instruction::Jmp(start))
        } else {
            label_of(Instruction::Label(endl))
        };
        assert(label_of(s[k]) == lk);
        assert(label_of(s[j]) == lj);
    }
}

/// The shape a conditional expression emits: a jump over the taken
/// branch to the else label, the then branch, a jump to the end label,
/// the else label's marker, the else branch, and the end label's
/// marker.
pub proof fn lemma_seg_ternary(
    then: Seq<Instruction>,
    els: Seq<Instruction>,
    e: usize,
    f: usize,
    hi: int,
)
    requires
        e < f,
        f < EXIT_LABEL,
        seg_wf(then, e + 1, f as int),
        seg_wf(els, f + 1, hi),
        f + 1 <= hi,
    ensures
        seg_wf(
            seq![Instruction::Jz(e)] + then + seq![
                Instruction::Jmp(f),
                Instruction::Label(e),
            ] + els + seq![Instruction::Label(f)],
            e as int,
            hi,
        ),
{
    reveal(seg_wf);
    let s = seq![Instruction::Jz(e)] + then + seq![Instruction::Jmp(f), Instruction::Label(e)]
        + els + seq![Instruction::Label(f)];
    let tl = then.len() as int;
    let el = els.len() as int;
    assert(s.len() == tl + el + 4);
    assert forall|k: int| 0 <= k < s.len() implies match jump_target(#[trigger] s[k]) {
        Some(t) => t == EXIT_LABEL || has_label(s, t),
        None => true,
    } by {
        assert(s[2 + tl] == Instruction::Label(e));
        assert(s[s.len() - 1] == Instruction::Label(f));
        if k == 0 {
            assert(s[k] == Instruction::Jz(e));
            assert(has_label(s, e));
        } else if k < 1 + tl {
            assert(s[k] == then[k - 1]);
            match jump_target(then[k - 1]) {
                Some(t) => {
                    if t != EXIT_LABEL {
                        let j = choose|j: int|
                            0 <= j < then.len() && then[j] == Instruction::Label(t);
                        assert(s[j + 1] == Instruction::Label(t));
                    }
                },
                None => {},
            }
        } else if k == 1 + tl {
            assert(s[k] == Instruction::Jmp(f));
            assert(has_label(s, f));
        } else if k == 2 + tl {
            assert(s[k] == Instruction::Label(e));
        } else if k < 3 + tl + el {
            assert(s[k] == els[k - tl - 3]);
            match jump_target(els[k - tl - 3]) {
                Some(t) => {
                    if t != EXIT_LABEL {
                        let j = choose|j: int| 0 <= j < els.len() && els[j] == Instruction::Label(t);
                        assert(s[j + tl + 3] == Instruction::Label(t));
                    }
                },
                None => {},
            }
        } else {
            assert(s[k] == Instruction::Label(f));
        }
    }
    assert forall|k: int| 0 <= k < s.len() implies match label_of(#[trigger] s[k]) {
        Some(t) => e <= t < hi && t < EXIT_LABEL,
        None => true,
    } by {
        if k == 0 {
        } else if k < 1 + tl {
            assert(s[k] == then[k - 1]);
        } else if k == 1 + tl {
            assert(s[k] == Instruction::Jmp(f));
        } else if k == 2 + tl {
            assert(s[k] == Instruction::Label(e));
        } else if k < 3 + tl + el {
            assert(s[k] == els[k - tl - 3]);
        } else {
            assert(s[k] == Instruction::Label(f));
        }
    }
    assert forall|k: int, j: int| 0 <= k < j < s.len() implies !(label_of(#[trigger] s[k]) is Some
        && label_of(s[k]) == label_of(#[trigger] s[j])) by {
        let lk = if k == 0 {
            label_of(Instruction::Jz(e))
        } else if k < 1 + tl {
            assert(s[k] == then[k - 1]);
            label_of(then[k - 1])
        } else if k == 1 + tl {
            label_of(Instruction::Jmp(f))
        } else if k == 2 + tl {
            label_of(Instruction::Label(e))
        } else if k < 3 + tl + el {
            assert(s[k] == els[k - tl - 3]);
            label_of(els[k - tl - 3])
        } else {
            label_of(Instruction::Label(f))
        };
        let lj = if j == 0 {
            label_of(Instruction::Jz(e))
        } else if j < 1 + tl {
            assert(s[j] == then[j - 1]);
            label_of(then[j - 1])
        } else if j == 1 + tl {
            label_of(Instruction::Jmp(f))
        } else if j == 2 + tl {
            label_of(Instruction::Label(e))
        } else if j < 3 + tl + el {
            assert(s[j] == els[j - tl - 3]);
            label_of(els[j - tl - 3])
        } else {
            label_of(Instruction::Label(f))
        };
        assert(label_of(s[k]) == lk);
        assert(label_of(s[j]) == lj);
    }
}

/// Appending the exit sentinel's marker to a self-contained stretch
/// resolves every jump and keeps the label markers pairwise distinct.
pub proof fn lemma_seg_finish(code: Seq<Instruction>, hi: int)
    requires
        seg_wf(code, 0, hi),
    ensures
        jumps_resolved(code.push(Instruction::Label(EXIT_LABEL))),
        labels_unique(code.push(Instruction::Label(EXIT_LABEL))),
{
    reveal(seg_wf);
    reveal(jumps_resolved);
    reveal(labels_unique);
    let s = code.push(Instruction::Label(EXIT_LABEL));
    assert(s[s.len() - 1] == Instruction::Label(EXIT_LABEL));
    assert forall|k: int| 0 <= k < s.len() implies match jump_target(#[trigger] s[k]) {
        Some(t) => has_label(s, t),
        None => true,
    } by {
        if k < code.len() {
            assert(s[k] == code[k]);
            match jump_target(code[k]) {
                Some(t) => {
                    if t == EXIT_LABEL {
                        assert(has_label(s, t));
                    } else {
                        let j = choose|j: int|
                            0 <= j < code.len() && code[j] == Instruction::Label(t);
                        assert(s[j] == Instruction::Label(t));
                    }
                },
                None => {},
            }
        }
    }
    assert forall|k: int, j: int| 0 <= k < j < s.len() implies !(label_of(#[trigger] s[k]) is Some
        && label_of(s[k]) == label_of(#[trigger] s[j])) by {
        if j < code.len() {
            assert(s[k] == code[k] && s[j] == code[j]);
        } else {
            if k < code.len() {
                assert(s[k] == code[k]);
            }
        }
    }
}

/// A single-pass parser and code generator: it consumes tokens one at
/// a time, parses statements by recursive descent and expressions by
/// precedence climbing, and emits a flat instruction sequence together
/// with the function tables.
pub struct Parser {
    /// The token stream under compilation.
    pub tokens: Vec<Token>,
    /// How many tokens have been consumed.
    pub pos: usize,
    /// The lex error waiting past the last good token, if any.
    pub lex_err: Option<LexError>,
    /// The emitted instruction sequence.
    pub code: Vec<Instruction>,
    /// The next label id to allocate.
    pub label_id: usize,
    /// Function name to entry instruction index.
    pub functions: Vec<(String, usize)>,
    /// The entry index of the function named `main`, if one was defined.
    pub main_label: Option<usize>,
    /// Variable name to frame-relative slot offset, for the scope
    /// compiled last.
    pub locals: Vec<(String, usize)>,
    /// The next free local slot offset.
    pub next_local_offset: usize,
    /// Whether a named function's body is being compiled.
    pub in_function: bool,
    /// The name of the function being compiled, if any.
    pub current_fn: Option<String>,
    /// Function name to parameter count.
    pub function_arity: Vec<(String, usize)>,
}

impl Parser {
    /// The token stream under compilation.
    pub open spec fn spec_tokens(self) -> Seq<Token> {
        self.tokens@
    }

    /// How many tokens have been consumed.
    pub open spec fn spec_pos(self) -> int {
        self.pos as int
    }

    /// The lex error waiting past the last good token, if any.
    pub open spec fn spec_lex_err(self) -> Option<LexError> {
        self.lex_err
    }

    /// The next label id to allocate.
    pub open spec fn spec_label_id(self) -> int {
        self.label_id as int
    }

    /// The cursor lies within the token stream, which a vector holds.
    pub open spec fn wf(self) -> bool {
        self.spec_pos() <= self.spec_tokens().len() && self.spec_tokens().len() <= usize::MAX
    }

    /// The token under the cursor, or the end marker past the stream.
    pub open spec fn cur_kind(self) -> TokenKind {
        if self.spec_pos() < self.spec_tokens().len() {
            self.spec_tokens()[self.spec_pos()].kind
        } else {
            TokenKind::Eof
        }
    }

    /// The cursor stands past the last good token and a lex error is
    /// waiting there.
    pub open spec fn at_lex_err(self) -> bool {
        self.spec_pos() >= self.spec_tokens().len() && self.spec_lex_err() is Some
    }

    /// A parser that has compiled nothing yet.
    pub open spec fn is_fresh(self) -> bool {
        &&& self.wf()
        &&& self.code@.len() == 0
        &&& self.label_id == 0
        &&& !self.in_function
    }

    /// Every recorded function entry points at an `Enter` prologue
    /// inside the emitted code.
    pub open spec fn funcs_ok(self) -> bool {
        &&& forall|i: int|
            0 <= i < self.functions@.len() ==> ((#[trigger] self.functions@[i]).1
                < self.code@.len() && (self.code@[self.functions@[i].1 as int] matches
            Instruction::Enter(_)))
        &&& (match self.main_label {
            Some(e) => e < self.code@.len() && (self.code@[e as int] matches Instruction::Enter(_)),
            None => true,
        })
    }

    /// The code emitted up to one step survives the next unchanged.
    pub open spec fn code_prefix(pre: Parser, post: Parser) -> bool {
        &&& post.code@.len() >= pre.code@.len()
        &&& forall|i: int| 0 <= i < pre.code@.len() ==> #[trigger] post.code@[i] == pre.code@[i]
    }

    /// What any parsing step leaves untouched or only grows: the token
    /// stream, the pending lex error, the cursor, the label counter,
    /// and the code emitted before it.
    pub open spec fn frame(pre: Parser, post: Parser) -> bool {
        &&& post.wf()
        &&& post.spec_tokens() == pre.spec_tokens()
        &&& post.spec_lex_err() == pre.spec_lex_err()
        &&& post.spec_pos() >= pre.spec_pos()
        &&& post.spec_label_id() >= pre.spec_label_id()
        &&& Self::code_prefix(pre, post)
    }

    /// What a statement or expression additionally leaves untouched:
    /// the function tables and the enclosing-function context.
    pub open spec fn stmt_frame(pre: Parser, post: Parser) -> bool {
        &&& Self::frame(pre, post)
        &&& post.functions@ == pre.functions@
        &&& post.function_arity@ == pre.function_arity@
        &&& post.main_label == pre.main_label
        &&& post.current_fn == pre.current_fn
        &&& post.in_function == pre.in_function
    }

    /// The code a parsing step appended.
    pub open spec fn emitted(pre: Parser, post: Parser) -> Seq<Instruction> {
        post.code@.subrange(pre.code@.len() as int, post.code@.len() as int)
    }

    /// A duplicate of a token kind, equal to the original.
    fn dup_kind(k: &TokenKind) -> (r: TokenKind)
        ensures
            r == *k,
    {
        match k {
            TokenKind::Num(n) => TokenKind::Num(*n),
            TokenKind::Id(s) => TokenKind::Id(s.clone()),
            TokenKind::If => TokenKind::If,
            TokenKind::Else => TokenKind::Else,
            TokenKind::While => TokenKind::While,
            TokenKind::Return => TokenKind::Return,
            TokenKind::Int => TokenKind::Int,
            TokenKind::Char => TokenKind::Char,
            TokenKind::Sizeof => TokenKind::Sizeof,
            TokenKind::Enum => TokenKind::Enum,
            TokenKind::Float(s) => TokenKind::Float(s.clone()),
            TokenKind::Assign => TokenKind::Assign,
            TokenKind::Add => TokenKind::Add,
            TokenKind::Sub => TokenKind::Sub,
            TokenKind::Mul => TokenKind::Mul,
            TokenKind::Div => TokenKind::Div,
            TokenKind::Mod => TokenKind::Mod,
            TokenKind::Eq => TokenKind::Eq,
            TokenKind::Ne => TokenKind::Ne,
            TokenKind::Lt => TokenKind::Lt,
            TokenKind::Gt => TokenKind::Gt,
            TokenKind::Le => TokenKind::Le,
            TokenKind::Ge => TokenKind::Ge,
            TokenKind::And => TokenKind::And,
            TokenKind::Or => TokenKind::Or,
            TokenKind::Xor => TokenKind::Xor,
            TokenKind::Not => TokenKind::Not,
            TokenKind::Inc => TokenKind::Inc,
            TokenKind::Dec => TokenKind::Dec,
            TokenKind::Cond => TokenKind::Cond,
            TokenKind::Lor => TokenKind::Lor,
            TokenKind::Lan => TokenKind::Lan,
            TokenKind::Shl => TokenKind::Shl,
            TokenKind::Shr => TokenKind::Shr,
            TokenKind::LParen => TokenKind::LParen,
            TokenKind::RParen => TokenKind::RParen,
            TokenKind::LBrace => TokenKind::LBrace,
            TokenKind::RBrace => TokenKind::RBrace,
            TokenKind::LBracket => TokenKind::LBracket,
            TokenKind::RBracket => TokenKind::RBracket,
            TokenKind::Semicolon => TokenKind::Semicolon,
            TokenKind::Comma => TokenKind::Comma,
            TokenKind::Colon => TokenKind::Colon,
            TokenKind::Str(s) => TokenKind::Str(s.clone()),
            TokenKind::CharLiteral(c) => TokenKind::CharLiteral(*c),
            TokenKind::Eof => TokenKind::Eof,
        }
    }

    /// The token under the cursor; past the stream, the pending lex
    /// error if there is one, else the end marker.
    fn cur(&self) -> (r: Result<TokenKind, CompileError>)
        requires
            self.wf(),
        ensures
            match r {
                Ok(k) => !self.at_lex_err() && k == self.cur_kind(),
                Err(e) => self.at_lex_err() && e matches CompileError::Lex(_),
            },
            r == st_read(self.abs()),
    {
        if self.pos < self.tokens.len() {
            Ok(Self::dup_kind(&self.tokens[self.pos].kind))
        } else {
            match self.lex_err {
                Some(e) => Err(CompileError::Lex(e)),
                None => Ok(TokenKind::Eof),
            }
        }
    }

    /// Everything but the cursor is unchanged.
    pub open spec fn same_but_pos(pre: Parser, post: Parser) -> bool {
        &&& post.spec_tokens() == pre.spec_tokens()
        &&& post.spec_lex_err() == pre.spec_lex_err()
        &&& post.code@ == pre.code@
        &&& post.spec_label_id() == pre.spec_label_id()
        &&& post.functions@ == pre.functions@
        &&& post.function_arity@ == pre.function_arity@
        &&& post.main_label == pre.main_label
        &&& post.locals@ == pre.locals@
        &&& post.current_fn == pre.current_fn
        &&& post.in_function == pre.in_function
        &&& post.next_local_offset == pre.next_local_offset
    }

    /// Consume the token under the cursor; past the stream, do nothing.
    fn advance(&mut self)
        requires
            old(self).wf(),
        ensures
            final(self).wf(),
            Self::same_but_pos(*old(self), *final(self)),
            final(self).spec_pos() == if old(self).spec_pos() < old(self).spec_tokens().len() {
                old(self).spec_pos() + 1
            } else {
                old(self).spec_pos()
            },
            final(self).abs() == st_advance(old(self).abs()),
    {
        if self.pos < self.tokens.len() {
            self.pos = self.pos + 1;
        }
    }

    /// Allocate a fresh label id, counting up from zero.
    fn new_label(&mut self) -> (r: Result<usize, CompileError>)
        requires
            old(self).wf(),
        ensures
            final(self).wf(),
            final(self).spec_tokens() == old(self).spec_tokens(),
            final(self).spec_lex_err() == old(self).spec_lex_err(),
            final(self).spec_pos() == old(self).spec_pos(),
            final(self).code@ == old(self).code@,
            final(self).functions@ == old(self).functions@,
            final(self).function_arity@ == old(self).function_arity@,
            final(self).main_label == old(self).main_label,
            final(self).locals@ == old(self).locals@,
            final(self).current_fn == old(self).current_fn,
            final(self).in_function == old(self).in_function,
            final(self).next_local_offset == old(self).next_local_offset,
            match r {
                Ok(id) => id == old(self).spec_label_id() && id < EXIT_LABEL
                    && final(self).spec_label_id() == id + 1,
                Err(e) => e == CompileError::TooManyLabels && *final(self) == *old(self),
            },
            r == st_new_label(old(self).abs()).0,
            final(self).abs() == st_new_label(old(self).abs()).1,
    {
        if self.label_id == usize::MAX {
            Err(CompileError::TooManyLabels)
        } else {
            let id = self.label_id;
            self.label_id = id + 1;
            Ok(id)
        }
    }

    /// Look a name up in an association table: the value stored under
    /// it, if any.
    #[verifier::loop_isolation(false)]
    fn tab_get(t: &Vec<(String, usize)>, name: &String) -> (r: Option<usize>)
        ensures
            r == spec_tab_get(t@, name@),
    {
        let mut i: usize = 0;
        while i < t.len()
            invariant
                i <= t@.len(),
                spec_tab_get(t@, name@) == spec_tab_get_at(t@, name@, i as int),
            decreases t@.len() - i,
        {
            if t[i].0 == *name {
                return Some(t[i].1);
            }
            i += 1;
        }
        None
    }

    /// Bind a name in an association table, replacing any earlier
    /// binding of the same name.  Every binding afterwards either
    /// carries the new value or stood in the table before, in place.
    fn tab_set(t: &mut Vec<(String, usize)>, name: String, val: usize)
        ensures
            final(t)@.len() >= old(t)@.len(),
            forall|i: int|
                0 <= i < final(t)@.len() ==> ((#[trigger] final(t)@[i]).1 == val || (i < old(
                    t,
                )@.len() && final(t)@[i] == old(t)@[i])),
            final(t)@ == spec_tab_set(old(t)@, name, val),
    {
        let mut i: usize = 0;
        while i < t.len()
            invariant
                i <= t@.len(),
                t@ == old(t)@,
                spec_tab_set(old(t)@, name, val) == spec_tab_set_at(old(t)@, name, val, i as int),
            decreases t@.len() - i,
        {
            if t[i].0 == name {
                t[i] = (name, val);
                return ;
            }
            i += 1;
        }
        t.push((name, val));
    }

    /// The binding power of the token in infix position, from the
    /// single precedence table; zero for anything that is no infix
    /// operator.
    pub open spec fn spec_prec(k: TokenKind) -> u8 {
        match k {
            TokenKind::Assign => 1,
            TokenKind::Cond => 2,
            TokenKind::Lor => 3,
            TokenKind::Lan => 4,
            TokenKind::Or => 5,
            TokenKind::Xor => 6,
            TokenKind::And => 7,
            TokenKind::Eq => 8,
            TokenKind::Ne => 8,
            TokenKind::Lt => 9,
            TokenKind::Gt => 9,
            TokenKind::Le => 9,
            TokenKind::Ge => 9,
            TokenKind::Shl => 10,
            TokenKind::Shr => 10,
            TokenKind::Add => 11,
            TokenKind::Sub => 11,
            TokenKind::Mul => 12,
            TokenKind::Div => 12,
            TokenKind::Mod => 12,
            _ => 0,
        }
    }

    /// The binding power of the token under the cursor.
    fn get_precedence(&self) -> (r: Result<u8, CompileError>)
        requires
            self.wf(),
        ensures
            match r {
                Ok(p) => !self.at_lex_err() && p == Self::spec_prec(self.cur_kind()),
                Err(e) => self.at_lex_err(),
            },
            r == st_precedence(self.abs()),
    {
        let k = match self.cur() {
            Ok(k) => k,
            Err(e) => return Err(e),
        };
        Ok(
            match k {
                TokenKind::Assign => 1,
                TokenKind::Cond => 2,
                TokenKind::Lor => 3,
                TokenKind::Lan => 4,
                TokenKind::Or => 5,
                TokenKind::Xor => 6,
                TokenKind::And => 7,
                TokenKind::Eq | TokenKind::Ne => 8,
                TokenKind::Lt | TokenKind::Gt | TokenKind::Le | TokenKind::Ge => 9,
                TokenKind::Shl | TokenKind::Shr => 10,
                TokenKind::Add | TokenKind::Sub => 11,
                TokenKind::Mul | TokenKind::Div | TokenKind::Mod => 12,
                _ => 0,
            },
        )
    }
}

/// Code emitted across two steps is the code emitted by each, in
/// order.
pub proof fn lemma_emitted_concat(a: Parser, b: Parser, c: Parser)
    requires
        Parser::code_prefix(a, b),
        Parser::code_prefix(b, c),
    ensures
        Parser::emitted(a, c) == Parser::emitted(a, b) + Parser::emitted(b, c),
{
    let al = a.code@.len() as int;
    let bl = b.code@.len() as int;
    let cl = c.code@.len() as int;
    assert forall|i: int| 0 <= i < cl - al implies Parser::emitted(a, c)[i] == (Parser::emitted(a, b)
        + Parser::emitted(b, c))[i] by {
    }
    assert(Parser::emitted(a, c) =~= Parser::emitted(a, b) + Parser::emitted(b, c));
}

/// The compiler's state, abstracted: the token stream and pending lex
/// error, the cursor, and everything the code generator builds.  The
/// functional contracts of the parser say that each parsing step
/// returns exactly what a specification-level compile function of this
/// state prescribes.
#[verifier::ext_equal]
pub struct CompilerState {
    pub tokens: Seq<Token>,
    pub lex_err: Option<LexError>,
    pub pos: usize,
    pub code: Seq<Instruction>,
    pub label_id: usize,
    pub functions: Seq<(String, usize)>,
    pub main_label: Option<usize>,
    pub locals: Seq<(String, usize)>,
    pub next_local_offset: usize,
    pub in_function: bool,
    pub current_fn: Option<String>,
    pub function_arity: Seq<(String, usize)>,
}

/// The state with another cursor.
pub open spec fn with_pos(s: CompilerState, pos: usize) -> CompilerState {
    CompilerState {
        tokens: s.tokens,
        lex_err: s.lex_err,
        pos: pos,
        code: s.code,
        label_id: s.label_id,
        functions: s.functions,
        main_label: s.main_label,
        locals: s.locals,
        next_local_offset: s.next_local_offset,
        in_function: s.in_function,
        current_fn: s.current_fn,
        function_arity: s.function_arity,
    }
}

/// The state with other emitted code.
pub open spec fn with_code(s: CompilerState, code: Seq<Instruction>) -> CompilerState {
    CompilerState {
        tokens: s.tokens,
        lex_err: s.lex_err,
        pos: s.pos,
        code: code,
        label_id: s.label_id,
        functions: s.functions,
        main_label: s.main_label,
        locals: s.locals,
        next_local_offset: s.next_local_offset,
        in_function: s.in_function,
        current_fn: s.current_fn,
        function_arity: s.function_arity,
    }
}

/// The state with one more instruction emitted.
pub open spec fn emit(s: CompilerState, i: Instruction) -> CompilerState {
    with_code(s, s.code.push(i))
}

/// The state with another label counter.
pub open spec fn with_label_id(s: CompilerState, label_id: usize) -> CompilerState {
    CompilerState {
        tokens: s.tokens,
        lex_err: s.lex_err,
        pos: s.pos,
        code: s.code,
        label_id: label_id,
        functions: s.functions,
        main_label: s.main_label,
        locals: s.locals,
        next_local_offset: s.next_local_offset,
        in_function: s.in_function,
        current_fn: s.current_fn,
        function_arity: s.function_arity,
    }
}

/// The state with another locals table and next free slot.
pub open spec fn with_locals(
    s: CompilerState,
    locals: Seq<(String, usize)>,
    next_local_offset: usize,
) -> CompilerState {
    CompilerState {
        tokens: s.tokens,
        lex_err: s.lex_err,
        pos: s.pos,
        code: s.code,
        label_id: s.label_id,
        functions: s.functions,
        main_label: s.main_label,
        locals: locals,
        next_local_offset: next_local_offset,
        in_function: s.in_function,
        current_fn: s.current_fn,
        function_arity: s.function_arity,
    }
}

/// The state with other function tables and entry point.
pub open spec fn with_funcs(
    s: CompilerState,
    functions: Seq<(String, usize)>,
    function_arity: Seq<(String, usize)>,
    main_label: Option<usize>,
) -> CompilerState {
    CompilerState {
        tokens: s.tokens,
        lex_err: s.lex_err,
        pos: s.pos,
        code: s.code,
        label_id: s.label_id,
        functions: functions,
        main_label: main_label,
        locals: s.locals,
        next_local_offset: s.next_local_offset,
        in_function: s.in_function,
        current_fn: s.current_fn,
        function_arity: function_arity,
    }
}

/// The state with another enclosing-function context.
pub open spec fn with_ctx(
    s: CompilerState,
    in_function: bool,
    current_fn: Option<String>,
) -> CompilerState {
    CompilerState {
        tokens: s.tokens,
        lex_err: s.lex_err,
        pos: s.pos,
        code: s.code,
        label_id: s.label_id,
        functions: s.functions,
        main_label: s.main_label,
        locals: s.locals,
        next_local_offset: s.next_local_offset,
        in_function: in_function,
        current_fn: current_fn,
        function_arity: s.function_arity,
    }
}

/// The state with another enclosing-function name.
pub open spec fn with_current_fn(s: CompilerState, current_fn: Option<String>) -> CompilerState {
    CompilerState {
        tokens: s.tokens,
        lex_err: s.lex_err,
        pos: s.pos,
        code: s.code,
        label_id: s.label_id,
        functions: s.functions,
        main_label: s.main_label,
        locals: s.locals,
        next_local_offset: s.next_local_offset,
        in_function: s.in_function,
        current_fn: current_fn,
        function_arity: s.function_arity,
    }
}

/// The token kind under the cursor, the end marker past the stream.
pub open spec fn st_cur(s: CompilerState) -> TokenKind {
    if s.pos < s.tokens.len() {
        s.tokens[s.pos as int].kind
    } else {
        TokenKind::Eof
    }
}

/// The cursor stands past the last good token with a lex error there.
pub open spec fn st_at_err(s: CompilerState) -> bool {
    s.pos >= s.tokens.len() && s.lex_err is Some
}

/// Reading the cursor: the token kind, or the pending lex error.
pub open spec fn st_read(s: CompilerState) -> Result<TokenKind, CompileError> {
    if st_at_err(s) {
        match s.lex_err {
            Some(e) => Err(CompileError::Lex(e)),
            None => Ok(TokenKind::Eof),
        }
    } else {
        Ok(st_cur(s))
    }
}

/// Consuming the token under the cursor; past the stream, no change.
pub open spec fn st_advance(s: CompilerState) -> CompilerState {
    if s.pos < s.tokens.len() && s.pos < usize::MAX {
        with_pos(s, (s.pos + 1) as usize)
    } else {
        s
    }
}

/// Allocating a fresh label id.
pub open spec fn st_new_label(s: CompilerState) -> (Result<usize, CompileError>, CompilerState) {
    if s.label_id == usize::MAX {
        (Err(CompileError::TooManyLabels), s)
    } else {
        (Ok(s.label_id), with_label_id(s, (s.label_id + 1) as usize))
    }
}

/// The value bound under a name in an association table, looking from
/// entry `i` onward: the first binding whose key spells the name.
pub open spec fn spec_tab_get_at(t: Seq<(String, usize)>, name: Seq<char>, i: int) -> Option<usize>
    decreases t.len() - i,
{
    if i < 0 || i >= t.len() {
        None
    } else if t[i].0@ == name {
        Some(t[i].1)
    } else {
        spec_tab_get_at(t, name, i + 1)
    }
}

/// The value bound under a name in an association table.
pub open spec fn spec_tab_get(t: Seq<(String, usize)>, name: Seq<char>) -> Option<usize> {
    spec_tab_get_at(t, name, 0)
}

/// An association table with a binding replaced in place or appended,
/// looking from entry `i` onward.
pub open spec fn spec_tab_set_at(
    t: Seq<(String, usize)>,
    name: String,
    val: usize,
    i: int,
) -> Seq<(String, usize)>
    decreases t.len() - i,
{
    if i < 0 || i >= t.len() {
        t.push((name, val))
    } else if t[i].0@ == name@ {
        t.update(i, (name, val))
    } else {
        spec_tab_set_at(t, name, val, i + 1)
    }
}

/// An association table with a binding replaced in place or appended.
pub open spec fn spec_tab_set(t: Seq<(String, usize)>, name: String, val: usize) -> Seq<
    (String, usize),
> {
    spec_tab_set_at(t, name, val, 0)
}

/// The later state, where a compilation step has visibly moved the
/// cursor onward over the same token stream; the earlier state
/// otherwise.  Every step of the compiler meets the guard, which keeps
/// the recursion's progress evident in the compile functions below.
pub open spec fn onward(from: CompilerState, to: CompilerState) -> CompilerState {
    if to.tokens == from.tokens && from.pos <= to.pos && to.pos <= to.tokens.len() {
        to
    } else {
        from
    }
}

/// The later state, where a compilation step has visibly consumed at
/// least one token of the same stream; a terminal state over an empty
/// stream otherwise.  Every step the guard is applied to consumes a
/// token on success, which keeps the recursion's progress evident in
/// the compile functions below.
pub open spec fn strictly_onward(from: CompilerState, to: CompilerState) -> CompilerState {
    if to.tokens == from.tokens && from.pos < to.pos && to.pos <= to.tokens.len() {
        to
    } else {
        CompilerState {
            tokens: Seq::empty(),
            lex_err: Some(LexError::IntLiteralTooLarge),
            pos: 0,
            code: from.code,
            label_id: from.label_id,
            functions: from.functions,
            main_label: from.main_label,
            locals: from.locals,
            next_local_offset: from.next_local_offset,
            in_function: from.in_function,
            current_fn: from.current_fn,
            function_arity: from.function_arity,
        }
    }
}

/// How much of the token stream a compilation step has left to work
/// through; the termination measure of the compile functions below.
/// Only the exhausted stream that `strictly_onward` falls back to
/// measures zero, and no compile step starts from it.
pub open spec fn togo(s: CompilerState) -> int {
    if s.tokens.len() == 0 && s.pos == 0 {
        0
    } else if s.pos >= s.tokens.len() {
        1
    } else {
        s.tokens.len() - s.pos + 1
    }
}

/// A step that stays on the same stream without moving the cursor
/// back is its own `onward` image.
pub proof fn lemma_onward_id(from: CompilerState, to: CompilerState)
    requires
        to.tokens == from.tokens,
        from.pos <= to.pos,
        to.pos <= to.tokens.len(),
    ensures
        onward(from, to) == to,
{
}

/// A step that consumes at least one token of the same stream is its
/// own `strictly_onward` image.
pub proof fn lemma_strict_id(from: CompilerState, to: CompilerState)
    requires
        to.tokens == from.tokens,
        from.pos < to.pos,
        to.pos <= to.tokens.len(),
    ensures
        strictly_onward(from, to) == to,
{
}

/// Reading the binding power of the token under the cursor.
pub open spec fn st_precedence(s: CompilerState) -> Result<u8, CompileError> {
    match st_read(s) {
        Err(e) => Err(e),
        Ok(k) => Ok(Parser::spec_prec(k)),
    }
}

/// Demanding the `;` that closes a declaration.
pub open spec fn spec_decl_finish(s: CompilerState) -> (Result<(), CompileError>, CompilerState) {
    match st_read(s) {
        Err(e) => (Err(e), s),
        Ok(TokenKind::Semicolon) => (Ok(()), st_advance(s)),
        Ok(_) => (Err(CompileError::ExpectedSemicolonAfterDeclaration), s),
    }
}

/// Consuming a run of `*` pointer markers.
#[verifier::opaque]
pub open spec fn spec_skip_stars(s: CompilerState) -> CompilerState
    decreases s.tokens.len() - s.pos,
{
    match st_read(s) {
        Ok(TokenKind::Mul) => spec_skip_stars(strictly_onward(s, st_advance(s))),
        _ => s,
    }
}

/// The concatenation of argument buffers in reverse order: the
/// rightmost argument's code first, so its value lands deepest on the
/// stack.
#[verifier::opaque]
pub open spec fn suffix_rev(bufs: Seq<Seq<Instruction>>, j: int) -> Seq<Instruction>
    decreases bufs.len() - j,
{
    if j < 0 || j >= bufs.len() {
        Seq::empty()
    } else {
        suffix_rev(bufs, j + 1) + bufs[j]
    }
}

/// Consuming the `*` markers of a `sizeof` argument: any marker makes
/// the size the pointer width.
#[verifier::opaque]
pub open spec fn spec_sizeof_stars(s: CompilerState, size: i64) -> (CompilerState, i64)
    decreases togo(s), 0int,
{
    match st_read(s) {
        Ok(TokenKind::Mul) => spec_sizeof_stars(strictly_onward(s, st_advance(s)), SIZEOF_PTR),
        _ => (s, size),
    }
}

/// Consuming the type keywords and `*` markers of a cast.
#[verifier::opaque]
pub open spec fn spec_cast_types(s: CompilerState) -> CompilerState
    decreases togo(s), 0int,
{
    match st_read(s) {
        Ok(TokenKind::Int) | Ok(TokenKind::Char) | Ok(TokenKind::Mul) => spec_cast_types(
            strictly_onward(s, st_advance(s)),
        ),
        _ => s,
    }
}

/// Compiling the argument and emission of the built-in `print` form,
/// after its name: a string literal is emitted verbatim, anything else
/// is compiled and printed as a value.
pub open spec fn spec_print_tail(s: CompilerState) -> (Result<(), CompileError>, CompilerState)
    decreases togo(s), 0int,
{
    match st_read(s) {
        Err(e) => (Err(e), s),
        Ok(TokenKind::LParen) => {
            let s1 = st_advance(s);
            match st_read(s1) {
                Err(e) => (Err(e), s1),
                Ok(TokenKind::Str(lit)) => {
                    let s2 = st_advance(s1);
                    match st_read(s2) {
                        Err(e) => (Err(e), s2),
                        Ok(TokenKind::RParen) => (
                            Ok(()),
                            emit(st_advance(s2), Instruction::PrintStr(lit)),
                        ),
                        Ok(_) => (Err(CompileError::ExpectedRParenAfterPrint), s2),
                    }
                },
                Ok(_) => {
                    let rr = spec_expr_bp(strictly_onward(s, s1), 0);
                    if rr.0 is Err {
                        rr
                    } else {
                        let s2 = onward(s1, rr.1);
                        match st_read(s2) {
                            Err(e) => (Err(e), s2),
                            Ok(TokenKind::RParen) => (
                                Ok(()),
                                emit(st_advance(s2), Instruction::Print),
                            ),
                            Ok(_) => (Err(CompileError::ExpectedRParenAfterPrint), s2),
                        }
                    }
                },
            }
        },
        Ok(_) => (Err(CompileError::ExpectedLParenAfterPrint), s),
    }
}

/// Compiling one argument after another, each into its own buffer over
/// the call's entry code, until the closing parenthesis; an argument
/// list that consumes nothing is malformed.
pub open spec fn spec_call_args(s: CompilerState, acc: Seq<Seq<Instruction>>) -> (
    Result<(), CompileError>,
    CompilerState,
    Seq<Seq<Instruction>>,
)
    decreases togo(s), 4int,
{
    match st_read(s) {
        Err(e) => (Err(e), s, acc),
        Ok(TokenKind::RParen) => (Ok(()), s, acc),
        Ok(_) => {
            match spec_expr_bp(s, 0) {
                (Err(e), s1) => (Err(e), s1, acc),
                (Ok(_), s1x) => {
                    let s1 = onward(s, s1x);
                    let buf = s1.code.subrange(s.code.len() as int, s1.code.len() as int);
                    let s2 = with_code(s1, s.code);
                    let acc2 = acc.push(buf);
                    match st_read(s2) {
                        Err(e) => (Err(e), s2, acc2),
                        Ok(k3) => {
                            let s3 = if k3 is Comma {
                                st_advance(s2)
                            } else {
                                s2
                            };
                            if s3.pos == s.pos {
                                (Err(CompileError::ExpectedRParenAfterExpression), s3, acc2)
                            } else {
                                spec_call_args(strictly_onward(s, s3), acc2)
                            }
                        },
                    }
                },
            }
        },
    }
}

/// Compiling a call's argument list and the call itself, after the
/// callee's name: the argument buffers are emitted in reverse order
/// before the `Call`, so the rightmost argument's value lands deepest.
pub open spec fn spec_call_tail(s: CompilerState, name: String) -> (
    Result<(), CompileError>,
    CompilerState,
)
    decreases togo(s), 0int,
{
    match st_read(s) {
        Ok(TokenKind::LParen) => {
            let s2 = st_advance(s);
            match spec_call_args(strictly_onward(s, s2), Seq::empty()) {
                (Err(e), sx, bufs) => (Err(e), sx),
                (Ok(_), sx, bufs) => {
                    let sy = st_advance(sx);
                    match spec_tab_get(sy.functions, name@) {
                        None => (Err(CompileError::UnknownFunction), sy),
                        Some(addr) => (
                            Ok(()),
                            emit(
                                with_code(sy, sy.code + suffix_rev(bufs, 0)),
                                Instruction::Call(addr),
                            ),
                        ),
                    }
                },
            }
        },
        _ => (Err(CompileError::ExpectedRParenAfterExpression), s),
    }
}

/// Compiling the form a name starts: the built-in `print`, a call with
/// its argument buffers emitted in reverse order before the `Call`, an
/// assignment to a local, or a load of a local.
pub open spec fn spec_ident_form(s: CompilerState, name: String) -> (
    Result<(), CompileError>,
    CompilerState,
)
    decreases togo(s), 1int,
{
    let s1 = st_advance(s);
    if name@ == "print"@ {
        spec_print_tail(strictly_onward(s, s1))
    } else {
        match st_read(s1) {
            Err(e) => (Err(e), s1),
            Ok(TokenKind::LParen) => spec_call_tail(s1, name),
            Ok(TokenKind::Assign) => {
                let s2 = st_advance(s1);
                match spec_expr_bp(strictly_onward(s, s2), 0) {
                    (Err(e), s3) => (Err(e), s3),
                    (Ok(_), s3x) => {
                        let s3 = onward(s2, s3x);
                        match spec_tab_get(s3.locals, name@) {
                            None => (Err(CompileError::UndefinedVariable), s3),
                            Some(off) => (Ok(()), emit(s3, Instruction::StoreLocal(off))),
                        }
                    },
                }
            },
            Ok(_) => {
                match spec_tab_get(s1.locals, name@) {
                    None => (Err(CompileError::UndefinedVariable), s1),
                    Some(off) => (Ok(()), emit(s1, Instruction::LoadLocal(off))),
                }
            },
        }
    }
}

/// Compiling a parenthesized form: a cast applied as a value no-op, or
/// a grouped sub-expression.
pub open spec fn spec_paren_form(s: CompilerState) -> (Result<(), CompileError>, CompilerState)
    decreases togo(s), 1int,
{
    let s1 = st_advance(s);
    match st_read(s1) {
        Err(e) => (Err(e), s1),
        Ok(TokenKind::Int) | Ok(TokenKind::Char) | Ok(TokenKind::Mul) => {
            let s2 = spec_cast_types(strictly_onward(s, s1));
            match st_read(s2) {
                Err(e) => (Err(e), s2),
                Ok(TokenKind::RParen) => {
                    let s3 = st_advance(s2);
                    match spec_expr_bp(strictly_onward(s, s3), 11) {
                        (Err(e), s4) => (Err(e), s4),
                        (Ok(_), s4x) => {
                            let s4 = onward(s3, s4x);
                            (Ok(()), emit(s4, Instruction::Cast))
                        },
                    }
                },
                Ok(_) => (Err(CompileError::ExpectedRParenAfterCast), s2),
            }
        },
        Ok(TokenKind::Eof) => (Err(CompileError::ExpectedRParenAfterExpression), s1),
        Ok(_) => {
            match spec_expr_bp(strictly_onward(s, s1), 0) {
                (Err(e), s2) => (Err(e), s2),
                (Ok(_), s2x) => {
                    let s2 = onward(s1, s2x);
                    match st_read(s2) {
                        Err(e) => (Err(e), s2),
                        Ok(TokenKind::RParen) => (Ok(()), st_advance(s2)),
                        Ok(_) => (Err(CompileError::ExpectedRParenAfterExpression), s2),
                    }
                },
            }
        },
    }
}

/// Compiling the two branches of a conditional expression after its
/// `?`: a jump over the taken branch to the else label, the then
/// branch, a jump to the end label, the else label's marker, the else
/// branch, and the end label's marker.
pub open spec fn spec_ternary_tail(s: CompilerState) -> (Result<(), CompileError>, CompilerState)
    decreases togo(s), 4int,
{
    match st_new_label(s).0 {
        Err(e) => (Err(e), st_new_label(s).1),
        Ok(else_lbl) => {
            let sa = emit(st_new_label(s).1, Instruction::Jz(else_lbl));
            match spec_expr_bp(sa, 1) {
                (Err(e), sb) => (Err(e), sb),
                (Ok(_), sbx) => {
                    let sb = onward(sa, sbx);
                    match st_new_label(sb).0 {
                        Err(e) => (Err(e), st_new_label(sb).1),
                        Ok(end_lbl) => {
                            let sc = emit(
                                emit(st_new_label(sb).1, Instruction::Jmp(end_lbl)),
                                Instruction::Label(else_lbl),
                            );
                            match st_read(sc) {
                                Err(e) => (Err(e), sc),
                                Ok(TokenKind::Colon) => {
                                    let sd = st_advance(sc);
                                    match spec_expr_bp(sd, 1) {
                                        (Err(e), se) => (Err(e), se),
                                        (Ok(_), sex) => {
                                            let se = onward(sd, sex);
                                            (Ok(()), emit(se, Instruction::Label(end_lbl)))
                                        },
                                    }
                                },
                                Ok(_) => (Err(CompileError::ExpectedColonInConditional), sc),
                            }
                        },
                    }
                },
            }
        },
    }
}

/// The operator instruction an infix token stands for, where one is
/// emitted for it.
pub open spec fn infix_op(k: TokenKind) -> Option<Instruction> {
    match k {
        TokenKind::Add => Some(Instruction::Add),
        TokenKind::Sub => Some(Instruction::Sub),
        TokenKind::Mul => Some(Instruction::Mul),
        TokenKind::Div => Some(Instruction::Div),
        TokenKind::Mod => Some(Instruction::Mod),
        TokenKind::Eq => Some(Instruction::Eq),
        TokenKind::Ne => Some(Instruction::Ne),
        TokenKind::Lt => Some(Instruction::Lt),
        TokenKind::Gt => Some(Instruction::Gt),
        TokenKind::Le => Some(Instruction::Le),
        TokenKind::Ge => Some(Instruction::Ge),
        TokenKind::And => Some(Instruction::BitAnd),
        TokenKind::Or => Some(Instruction::BitOr),
        TokenKind::Xor => Some(Instruction::BitXor),
        TokenKind::Shl => Some(Instruction::Shl),
        TokenKind::Shr => Some(Instruction::Shr),
        _ => None,
    }
}

/// Climbing infix operators of binding power at least `min_bp`: each
/// operator's right operand is compiled one power higher, then the
/// operator's instruction is emitted; the conditional operator emits
/// its own jumps and labels instead.
pub open spec fn spec_infix(s: CompilerState, min_bp: u8) -> (
    Result<(), CompileError>,
    CompilerState,
)
    decreases togo(s), 0int,
{
    match st_precedence(s) {
        Err(e) => (Err(e), s),
        Ok(op_bp) => {
            if op_bp < min_bp || op_bp == 0 {
                (Ok(()), s)
            } else {
                let op = st_cur(s);
                let s1 = st_advance(s);
                if op is Cond {
                    match spec_ternary_tail(strictly_onward(s, s1)) {
                        (Err(e), s2) => (Err(e), s2),
                        (Ok(_), s2) => spec_infix(strictly_onward(s, s2), min_bp),
                    }
                } else {
                    match spec_expr_bp(strictly_onward(s, s1), (op_bp + 1) as u8) {
                        (Err(e), s2) => (Err(e), s2),
                        (Ok(_), s2) => {
                            match infix_op(op) {
                                Some(i) => spec_infix(strictly_onward(s, emit(s2, i)), min_bp),
                                None => (Err(CompileError::UnsupportedInfixOperator), s2),
                            }
                        },
                    }
                }
            }
        },
    }
}

/// Compiling one prefix form, if the token under the cursor starts
/// one; anything else is left in place.
pub open spec fn spec_prefix_form(s: CompilerState) -> (Result<(), CompileError>, CompilerState)
    decreases togo(s), 2int,
{
    match st_read(s) {
        Err(e) => (Err(e), s),
        Ok(TokenKind::Float(t)) => (Err(CompileError::FloatLiteralUnsupported), s),
        Ok(TokenKind::Str(t)) => (Err(CompileError::StringLiteralUnsupported), s),
        Ok(TokenKind::Num(n)) => (Ok(()), emit(st_advance(s), Instruction::Imm(n))),
        Ok(TokenKind::CharLiteral(c)) => (
            Ok(()),
            st_advance(emit(s, Instruction::Imm((c as u32) as i64))),
        ),
        Ok(TokenKind::Sub) => {
            match spec_expr_bp(strictly_onward(s, st_advance(s)), 11) {
                (Err(e), s2) => (Err(e), s2),
                (Ok(_), s2) => (Ok(()), emit(s2, Instruction::Neg)),
            }
        },
        Ok(TokenKind::Not) => {
            match spec_expr_bp(strictly_onward(s, st_advance(s)), 11) {
                (Err(e), s2) => (Err(e), s2),
                (Ok(_), s2) => (Ok(()), emit(s2, Instruction::Not)),
            }
        },
        Ok(TokenKind::Mul) => {
            match spec_expr_bp(strictly_onward(s, st_advance(s)), 11) {
                (Err(e), s2) => (Err(e), s2),
                (Ok(_), s2) => (Ok(()), emit(s2, Instruction::Deref)),
            }
        },
        Ok(TokenKind::And) => {
            let s1 = st_advance(s);
            match st_read(s1) {
                Err(e) => (Err(e), s1),
                Ok(TokenKind::Id(name)) => {
                    match spec_tab_get(s1.locals, name@) {
                        None => (Err(CompileError::UndefinedVariable), s1),
                        Some(off) => (Ok(()), st_advance(emit(s1, Instruction::Addr(off)))),
                    }
                },
                Ok(_) => (Err(CompileError::ExpectedIdentAfterAddressOf), s1),
            }
        },
        Ok(TokenKind::Sizeof) => {
            let s1 = st_advance(s);
            match st_read(s1) {
                Err(e) => (Err(e), s1),
                Ok(TokenKind::LParen) => {
                    let s2 = st_advance(s1);
                    match st_read(s2) {
                        Err(e) => (Err(e), s2),
                        Ok(TokenKind::Int) | Ok(TokenKind::Char) => {
                            let size0: i64 = if st_cur(s2) is Int {
                                SIZEOF_INT
                            } else {
                                SIZEOF_CHAR
                            };
                            let (s3, size) = spec_sizeof_stars(
                                strictly_onward(s, st_advance(s2)),
                                size0,
                            );
                            match st_read(s3) {
                                Err(e) => (Err(e), s3),
                                Ok(TokenKind::RParen) => (
                                    Ok(()),
                                    emit(st_advance(s3), Instruction::Imm(size)),
                                ),
                                Ok(_) => (Err(CompileError::ExpectedRParenAfterSizeof), s3),
                            }
                        },
                        Ok(_) => (Err(CompileError::InvalidSizeofType), s2),
                    }
                },
                Ok(_) => (Err(CompileError::ExpectedLParenAfterSizeof), s1),
            }
        },
        Ok(TokenKind::Id(name)) => spec_ident_form(s, name),
        Ok(TokenKind::LParen) => spec_paren_form(s),
        Ok(_) => (Ok(()), s),
    }
}

/// Compiling one expression by precedence climbing: one prefix form,
/// then the infix operators that bind at least as tightly as `min_bp`.
pub open spec fn spec_expr_bp(s: CompilerState, min_bp: u8) -> (
    Result<(), CompileError>,
    CompilerState,
)
    decreases togo(s), 3int,
{
    match spec_prefix_form(s) {
        (Err(e), s1) => (Err(e), s1),
        (Ok(_), s1) => spec_infix(onward(s, s1), min_bp),
    }
}

/// Compiling one expression, starting at the lowest binding power.
pub open spec fn spec_expr(s: CompilerState) -> (Result<(), CompileError>, CompilerState)
    decreases togo(s), 4int,
{
    spec_expr_bp(s, 0)
}

/// Compiling one statement: a declaration, an `if`, a `while`, a
/// `return`, a block, or an expression statement, each emitting the
/// prescribed code shape.
pub open spec fn spec_stmt(s: CompilerState) -> (Result<(), CompileError>, CompilerState)
    decreases togo(s), 5int,
{
    match st_read(s) {
        Err(e) => (Err(e), s),
        Ok(TokenKind::Eof) => (Err(CompileError::ExpectedSemicolonAfterExpression), s),
        Ok(TokenKind::Int) | Ok(TokenKind::Char) => {
            let s1 = spec_skip_stars(strictly_onward(s, st_advance(s)));
            match spec_decl_names(s1) {
                (Err(e), s2) => (Err(e), s2),
                (Ok(_), s2) => spec_decl_finish(s2),
            }
        },
        Ok(TokenKind::If) => {
            let s1 = st_advance(s);
            match st_read(s1) {
                Err(e) => (Err(e), s1),
                Ok(TokenKind::LParen) => {
                    let s2 = st_advance(s1);
                    match spec_expr(s2) {
                        (Err(e), s3) => (Err(e), s3),
                        (Ok(_), s3x) => {
                            let s3 = onward(s2, s3x);
                            match st_read(s3) {
                                Err(e) => (Err(e), s3),
                                Ok(TokenKind::RParen) => {
                                    let s4 = st_advance(s3);
                                    match st_new_label(s4).0 {
                                        Err(e) => (Err(e), st_new_label(s4).1),
                                        Ok(l) => {
                                            let s5 = emit(
                                                st_new_label(s4).1,
                                                Instruction::Jz(l),
                                            );
                                            match spec_stmt(strictly_onward(s, s5)) {
                                                (Err(e), s6) => (Err(e), s6),
                                                (Ok(_), s6) => (
                                                    Ok(()),
                                                    emit(s6, Instruction::Label(l)),
                                                ),
                                            }
                                        },
                                    }
                                },
                                Ok(_) => (Err(CompileError::ExpectedRParenAfterIf), s3),
                            }
                        },
                    }
                },
                Ok(_) => (Err(CompileError::ExpectedLParenAfterIf), s1),
            }
        },
        Ok(TokenKind::While) => {
            let s1 = st_advance(s);
            match st_read(s1) {
                Err(e) => (Err(e), s1),
                Ok(TokenKind::LParen) => {
                    let s2 = st_advance(s1);
                    match st_new_label(s2).0 {
                        Err(e) => (Err(e), st_new_label(s2).1),
                        Ok(start_l) => {
                            let s3 = st_new_label(s2).1;
                            match st_new_label(s3).0 {
                                Err(e) => (Err(e), st_new_label(s3).1),
                                Ok(end_l) => {
                                    let s4 = emit(
                                        st_new_label(s3).1,
                                        Instruction::Label(start_l),
                                    );
                                    match spec_expr(strictly_onward(s, s4)) {
                                        (Err(e), s5) => (Err(e), s5),
                                        (Ok(_), s5x) => {
                                            let s5 = onward(s4, s5x);
                                            match st_read(s5) {
                                                Err(e) => (Err(e), s5),
                                                Ok(TokenKind::RParen) => {
                                                    let s6 = emit(
                                                        st_advance(s5),
                                                        Instruction::Jz(end_l),
                                                    );
                                                    match spec_stmt(strictly_onward(s, s6)) {
                                                        (Err(e), s7) => (Err(e), s7),
                                                        (Ok(_), s7) => (
                                                            Ok(()),
                                                            emit(
                                                                emit(
                                                                    s7,
                                                                    Instruction::Jmp(start_l),
                                                                ),
                                                                Instruction::Label(end_l),
                                                            ),
                                                        ),
                                                    }
                                                },
                                                Ok(_) => (
                                                    Err(CompileError::ExpectedRParenAfterWhile),
                                                    s5,
                                                ),
                                            }
                                        },
                                    }
                                },
                            }
                        },
                    }
                },
                Ok(_) => (Err(CompileError::ExpectedLParenAfterWhile), s1),
            }
        },
        Ok(TokenKind::Return) => {
            let s1 = st_advance(s);
            match spec_expr(s1) {
                (Err(e), s2) => (Err(e), s2),
                (Ok(_), s2x) => {
                    let s2 = onward(s1, s2x);
                    let in_named_non_main = match s2.current_fn {
                        Some(name) => name@ != "main"@,
                        None => false,
                    };
                    let s3 = if in_named_non_main {
                        emit(s2, Instruction::Leave)
                    } else {
                        emit(s2, Instruction::Jmp(EXIT_LABEL))
                    };
                    match st_read(s3) {
                        Err(e) => (Err(e), s3),
                        Ok(TokenKind::Semicolon) => (Ok(()), st_advance(s3)),
                        Ok(_) => (Err(CompileError::ExpectedSemicolonAfterReturn), s3),
                    }
                },
            }
        },
        Ok(TokenKind::LBrace) => spec_block_items(strictly_onward(s, st_advance(s))),
        Ok(_) => {
            match spec_expr(s) {
                (Err(e), s1) => (Err(e), s1),
                (Ok(_), s1x) => {
                    let s1 = onward(s, s1x);
                    match st_read(s1) {
                        Err(e) => (Err(e), s1),
                        Ok(TokenKind::Semicolon) => (Ok(()), st_advance(s1)),
                        Ok(_) => (Err(CompileError::ExpectedSemicolonAfterExpression), s1),
                    }
                },
            }
        },
    }
}

/// Compiling statements up to and through the `}` that closes a block.
pub open spec fn spec_block_items(s: CompilerState) -> (Result<(), CompileError>, CompilerState)
    decreases togo(s), 6int,
{
    match st_read(s) {
        Err(e) => (Err(e), s),
        Ok(TokenKind::RBrace) => (Ok(()), st_advance(s)),
        Ok(TokenKind::Eof) => (Err(CompileError::ExpectedSemicolonAfterExpression), s),
        Ok(_) => {
            match spec_stmt(s) {
                (Err(e), s1) => (Err(e), s1),
                (Ok(_), s1) => spec_block_items(strictly_onward(s, s1)),
            }
        },
    }
}

/// Collecting a function's declared parameter names, each typed and
/// comma-separated, left to right.
pub open spec fn spec_params(s: CompilerState, acc: Seq<String>) -> (
    Result<(), CompileError>,
    CompilerState,
    Seq<String>,
)
    decreases togo(s),
{
    match st_read(s) {
        Err(e) => (Err(e), s, acc),
        Ok(TokenKind::Int) | Ok(TokenKind::Char) => {
            let s1 = st_advance(s);
            match st_read(s1) {
                Err(e) => (Err(e), s1, acc),
                Ok(TokenKind::Id(p)) => {
                    let s2 = st_advance(s1);
                    match st_read(s2) {
                        Err(e) => (Err(e), s2, acc.push(p)),
                        Ok(TokenKind::Comma) => spec_params(
                            strictly_onward(s, st_advance(s2)),
                            acc.push(p),
                        ),
                        Ok(_) => spec_params(strictly_onward(s, s2), acc.push(p)),
                    }
                },
                Ok(_) => (Err(CompileError::ExpectedParamName), s1, acc),
            }
        },
        Ok(_) => (Ok(()), s, acc),
    }
}

/// Binding parameter names to frame offsets, the first parameter at
/// offset zero.
pub open spec fn spec_bind_params(
    locals: Seq<(String, usize)>,
    params: Seq<String>,
    i: int,
) -> Seq<(String, usize)>
    decreases params.len() - i,
{
    if i < 0 || i >= params.len() {
        locals
    } else {
        spec_bind_params(spec_tab_set(locals, params[i], i as usize), params, i + 1)
    }
}

/// Compiling a named function after its `int name` header: the
/// parameter list, a placeholder `Enter`, the body, the retroactive
/// patch of the prologue with the frame's total slot count, and the
/// closing `Leave`; the entry index and arity are recorded, a function
/// named `main` becoming the designated entry point.
pub open spec fn spec_compile_function(s: CompilerState, name: String) -> (
    Result<(), CompileError>,
    CompilerState,
) {
    let sa = st_advance(with_ctx(s, true, Some(name)));
    match spec_params(sa, Seq::empty()) {
        (Err(e), sx, ps) => (Err(e), sx),
        (Ok(_), sx, params) => {
            match st_read(sx) {
                Err(e) => (Err(e), sx),
                Ok(TokenKind::RParen) => {
                    let sy = st_advance(sx);
                    match st_read(sy) {
                        Err(e) => (Err(e), sy),
                        Ok(TokenKind::LBrace) => {
                            let sz = st_advance(sy);
                            let entry = sz.code.len() as usize;
                            let s2 = with_funcs(
                                sz,
                                spec_tab_set(sz.functions, name, entry),
                                spec_tab_set(sz.function_arity, name, params.len() as usize),
                                if name@ == "main"@ {
                                    Some(entry)
                                } else {
                                    sz.main_label
                                },
                            );
                            let s3 = with_locals(
                                s2,
                                spec_bind_params(Seq::empty(), params, 0),
                                params.len() as usize,
                            );
                            let s4 = emit(s3, Instruction::Enter(0));
                            match spec_block_items(s4) {
                                (Err(e), s5) => (Err(e), s5),
                                (Ok(_), s5) => {
                                    let total = s5.locals.len() as usize;
                                    let s6 = with_code(
                                        s5,
                                        s5.code.update(entry as int, Instruction::Enter(total)),
                                    );
                                    let s7 = emit(s6, Instruction::Leave);
                                    (Ok(()), with_ctx(s7, false, None))
                                },
                            }
                        },
                        Ok(_) => (Err(CompileError::ExpectedLBraceBody), sy),
                    }
                },
                Ok(_) => (Err(CompileError::ExpectedRParenAfterParams), sx),
            }
        },
    }
}

/// Compiling one top-level form headed by `int`: a named-function
/// definition if the `int name (` shape materialises, else an ordinary
/// declaration, the already-consumed tokens still taking their effect.
pub open spec fn spec_parse_int_item(s: CompilerState) -> (
    Result<(), CompileError>,
    CompilerState,
) {
    let s1 = st_advance(s);
    match st_read(s1) {
        Err(e) => (Err(e), s1),
        Ok(TokenKind::Id(name)) => {
            let s2 = st_advance(s1);
            match st_read(s2) {
                Err(e) => (Err(e), s2),
                Ok(TokenKind::LParen) => spec_compile_function(s2, name),
                Ok(_) => {
                    if s2.next_local_offset == usize::MAX {
                        (Err(CompileError::TooManyLocals), s2)
                    } else {
                        let s3 = with_locals(
                            s2,
                            spec_tab_set(s2.locals, name, s2.next_local_offset),
                            (s2.next_local_offset + 1) as usize,
                        );
                        let cont = (match st_read(s3) {
                            Err(e) => (Err(e), s3),
                            Ok(TokenKind::Comma) => spec_decl_names(
                                spec_skip_stars(strictly_onward(s, st_advance(s3))),
                            ),
                            Ok(_) => (Ok(()), s3),
                        });
                        match cont {
                            (Err(e), s4) => (Err(e), s4),
                            (Ok(_), s4) => spec_decl_finish(s4),
                        }
                    }
                },
            }
        },
        Ok(_) => {
            let s2 = spec_skip_stars(strictly_onward(s, s1));
            match spec_decl_names(s2) {
                (Err(e), s3) => (Err(e), s3),
                (Ok(_), s3) => spec_decl_finish(s3),
            }
        },
    }
}

/// Compiling the program's top-level forms one after another:
/// named-function definitions, bare blocks, and bare statements, a
/// declaration headed by `int` still declared when the function shape
/// does not materialise.
pub open spec fn spec_parse_items(s: CompilerState) -> (Result<(), CompileError>, CompilerState)
    decreases togo(s),
{
    match st_read(s) {
        Err(e) => (Err(e), s),
        Ok(TokenKind::Eof) => (Ok(()), s),
        Ok(TokenKind::Int) => {
            match spec_parse_int_item(s) {
                (Err(e), s1) => (Err(e), s1),
                (Ok(_), s1) => spec_parse_items(strictly_onward(s, s1)),
            }
        },
        Ok(TokenKind::LBrace) => {
            match spec_block_items(strictly_onward(s, st_advance(s))) {
                (Err(e), s1) => (Err(e), s1),
                (Ok(_), s1) => spec_parse_items(strictly_onward(s, s1)),
            }
        },
        Ok(_) => {
            match spec_stmt(s) {
                (Err(e), s1) => (Err(e), s1),
                (Ok(_), s1) => spec_parse_items(strictly_onward(s, s1)),
            }
        },
    }
}

/// Compiling a whole program: the top-level forms, then the single
/// exit-sentinel label every top-level `return` jumps to.
pub open spec fn spec_parse(s: CompilerState) -> (Result<(), CompileError>, CompilerState) {
    match spec_parse_items(s) {
        (Err(e), s1) => (Err(e), s1),
        (Ok(_), s1) => (Ok(()), emit(s1, Instruction::Label(EXIT_LABEL))),
    }
}

/// Binding a comma-separated run of declared names, each to the next
/// free local slot, pointer markers skipped after each comma.
#[verifier::opaque]
pub open spec fn spec_decl_names(s: CompilerState) -> (Result<(), CompileError>, CompilerState)
    decreases s.tokens.len() - s.pos,
{
    match st_read(s) {
        Err(e) => (Err(e), s),
        Ok(TokenKind::Id(name)) => {
            if s.next_local_offset == usize::MAX {
                (Err(CompileError::TooManyLocals), s)
            } else {
                let s1 = st_advance(
                    with_locals(
                        s,
                        spec_tab_set(s.locals, name, s.next_local_offset),
                        (s.next_local_offset + 1) as usize,
                    ),
                );
                match st_read(s1) {
                    Err(e) => (Err(e), s1),
                    Ok(TokenKind::Comma) => spec_decl_names(
                        strictly_onward(s, spec_skip_stars(st_advance(s1))),
                    ),
                    Ok(_) => (Ok(()), s1),
                }
            }
        },
        Ok(_) => (Ok(()), s),
    }
}

impl Parser {
    /// This parser's state, abstracted.
    pub open spec fn abs(self) -> CompilerState {
        CompilerState {
            tokens: self.tokens@,
            lex_err: self.lex_err,
            pos: self.pos,
            code: self.code@,
            label_id: self.label_id,
            functions: self.functions@,
            main_label: self.main_label,
            locals: self.locals@,
            next_local_offset: self.next_local_offset,
            in_function: self.in_function,
            current_fn: self.current_fn,
            function_arity: self.function_arity@,
        }
    }
}

impl Parser {
    /// Consume a run of `*` pointer markers.
    #[verifier::loop_isolation(false)]
    fn skip_stars(&mut self)
        requires
            old(self).wf(),
        ensures
            final(self).wf(),
            Self::same_but_pos(*old(self), *final(self)),
            final(self).spec_pos() >= old(self).spec_pos(),
            final(self).locals@ == old(self).locals@,
            final(self).abs() == spec_skip_stars(old(self).abs()),
        decreases old(self).spec_tokens().len() - old(self).spec_pos(),
    {
        loop
            invariant
                self.wf(),
                Self::same_but_pos(*old(self), *self),
                self.spec_pos() >= old(self).spec_pos(),
                spec_skip_stars(old(self).abs()) == spec_skip_stars(self.abs()),
            decreases self.spec_tokens().len() - self.spec_pos(),
        {
            match self.cur() {
                Ok(TokenKind::Mul) => {
                    let ghost pre = self.abs();
                    self.advance();
                    proof {
                        reveal_with_fuel(spec_skip_stars, 2);
                        assert(strictly_onward(pre, st_advance(pre)) == st_advance(pre));
                        assert(spec_skip_stars(pre) == spec_skip_stars(self.abs()));
                    }
                },
                _ => {
                    break ;
                },
            }
        }
        proof {
            reveal_with_fuel(spec_skip_stars, 2);
            assert(spec_skip_stars(self.abs()) == self.abs());
        }
    }

    /// Bind a comma-separated run of declared names, each to the next
    /// free local slot.
    #[verifier::loop_isolation(false)]
    fn decl_names(&mut self) -> (r: Result<(), CompileError>)
        requires
            old(self).wf(),
        ensures
            final(self).wf(),
            final(self).spec_tokens() == old(self).spec_tokens(),
            final(self).spec_lex_err() == old(self).spec_lex_err(),
            final(self).spec_pos() >= old(self).spec_pos(),
            final(self).code@ == old(self).code@,
            final(self).spec_label_id() == old(self).spec_label_id(),
            final(self).functions@ == old(self).functions@,
            final(self).function_arity@ == old(self).function_arity@,
            final(self).main_label == old(self).main_label,
            final(self).current_fn == old(self).current_fn,
            final(self).in_function == old(self).in_function,
            r == spec_decl_names(old(self).abs()).0,
            r is Ok ==> final(self).abs() == spec_decl_names(old(self).abs()).1,
        decreases old(self).spec_tokens().len() - old(self).spec_pos(),
    {
        loop
            invariant
                self.wf(),
                self.in_function == old(self).in_function,
                self.spec_tokens() == old(self).spec_tokens(),
                self.spec_lex_err() == old(self).spec_lex_err(),
                self.spec_pos() >= old(self).spec_pos(),
                self.code@ == old(self).code@,
                self.spec_label_id() == old(self).spec_label_id(),
                self.functions@ == old(self).functions@,
                self.function_arity@ == old(self).function_arity@,
                self.main_label == old(self).main_label,
                self.current_fn == old(self).current_fn,
                spec_decl_names(old(self).abs()) == spec_decl_names(self.abs()),
            decreases self.spec_tokens().len() - self.spec_pos(),
        {
            let ghost pre = self.abs();
            proof {
                reveal_with_fuel(spec_decl_names, 2);
            }
            let k = match self.cur() {
                Ok(k) => k,
                Err(e) => return Err(e),
            };
            match k {
                TokenKind::Id(name) => {
                    if self.next_local_offset == usize::MAX {
                        return Err(CompileError::TooManyLocals);
                    }
                    let off = self.next_local_offset;
                    Self::tab_set(&mut self.locals, name, off);
                    self.next_local_offset = off + 1;
                    self.advance();
                    proof {
                        assert(self.abs() == st_advance(
                            with_locals(
                                pre,
                                spec_tab_set(pre.locals, name, pre.next_local_offset),
                                (pre.next_local_offset + 1) as usize,
                            ),
                        ));
                    }
                    let ghost s1g = self.abs();
                    match self.cur() {
                        Ok(TokenKind::Comma) => {
                            self.advance();
                            self.skip_stars();
                            proof {
                                assert(self.abs() == spec_skip_stars(st_advance(s1g)));
                                assert(strictly_onward(pre, self.abs()) == self.abs());
                                assert(spec_decl_names(pre) == spec_decl_names(self.abs()));
                            }
                        },
                        Ok(_) => {
                            proof {
                                assert(spec_decl_names(pre) == (Ok::<(), CompileError>(()), s1g));
                            }
                            break ;
                        },
                        Err(e) => return Err(e),
                    }
                },
                _ => {
                    proof {
                        assert(spec_decl_names(pre) == (Ok::<(), CompileError>(()), pre));
                    }
                    break ;
                },
            }
        }
        proof {
            reveal_with_fuel(spec_decl_names, 2);
        }
        Ok(())
    }

    /// Demand the `;` that closes a declaration.
    fn decl_finish(&mut self) -> (r: Result<(), CompileError>)
        requires
            old(self).wf(),
        ensures
            final(self).wf(),
            Self::same_but_pos(*old(self), *final(self)),
            final(self).spec_pos() >= old(self).spec_pos(),
            final(self).locals@ == old(self).locals@,
            r is Ok ==> final(self).spec_pos() > old(self).spec_pos(),
            r == spec_decl_finish(old(self).abs()).0,
            r is Ok ==> final(self).abs() == spec_decl_finish(old(self).abs()).1,
    {
        match self.cur() {
            Ok(TokenKind::Semicolon) => {
                self.advance();
                Ok(())
            },
            Ok(_) => Err(CompileError::ExpectedSemicolonAfterDeclaration),
            Err(e) => Err(e),
        }
    }

    /// Compile statements up to and through the `}` that closes a
    /// block.
    #[verifier::loop_isolation(false)]
    fn block_tail(&mut self) -> (r: Result<(), CompileError>)
        requires
            old(self).wf(),
        ensures
            Self::stmt_frame(*old(self), *final(self)),
            r is Ok ==> final(self).spec_pos() > old(self).spec_pos() && seg_wf(
                Self::emitted(*old(self), *final(self)),
                old(self).spec_label_id(),
                final(self).spec_label_id(),
            ),
            r == spec_block_items(old(self).abs()).0,
            r is Ok ==> final(self).abs() == spec_block_items(old(self).abs()).1,
        decreases old(self).spec_tokens().len() - old(self).spec_pos(), 5int,
    {
        let ghost z0 = old(self).abs();
        proof {
            assert(Self::emitted(*old(self), *self) =~= Seq::<Instruction>::empty());
            lemma_seg_empty(old(self).spec_label_id(), self.spec_label_id());
        }
        loop
            invariant
                Self::stmt_frame(*old(self), *self),
                seg_wf(
                    Self::emitted(*old(self), *self),
                    old(self).spec_label_id(),
                    self.spec_label_id(),
                ),
                spec_block_items(z0) == spec_block_items(self.abs()),
                z0 == old(self).abs(),
            decreases self.spec_tokens().len() - self.spec_pos(), 3int,
        {
            let ghost pit = self.abs();
            let k = match self.cur() {
                Ok(k) => k,
                Err(e) => return Err(e),
            };
            if matches!(k, TokenKind::RBrace) {
                self.advance();
                proof {
                    assert(spec_block_items(pit) == (
                        Ok::<(), CompileError>(()),
                        st_advance(pit),
                    ));
                }
                return Ok(());
            }
            let ghost mid = *self;
            match self.stmt() {
                Ok(()) => {},
                Err(e) => return Err(e),
            }
            proof {
                lemma_emitted_concat(*old(self), mid, *self);
                lemma_seg_widen(
                    Self::emitted(*old(self), mid),
                    old(self).spec_label_id(),
                    mid.spec_label_id(),
                    old(self).spec_label_id(),
                    mid.spec_label_id(),
                );
                lemma_seg_concat(
                    Self::emitted(*old(self), mid),
                    Self::emitted(mid, *self),
                    old(self).spec_label_id(),
                    mid.spec_label_id(),
                    self.spec_label_id(),
                );
                lemma_strict_id(pit, self.abs());
                assert(spec_block_items(pit) == spec_block_items(self.abs()));
            }
        }
    }

    /// Compile an `if` statement after its keyword is seen: the
    /// condition, a conditional jump over the branch to a fresh label,
    /// the branch, and the label's marker.
    #[verifier::loop_isolation(false)]
    #[verifier::rlimit(100)]
    #[verifier::spinoff_prover]
    fn stmt_if(&mut self) -> (r: Result<(), CompileError>)
        requires
            old(self).wf(),
            old(self).cur_kind() matches TokenKind::If,
        ensures
            Self::stmt_frame(*old(self), *final(self)),
            r is Ok ==> final(self).spec_pos() > old(self).spec_pos() && seg_wf(
                Self::emitted(*old(self), *final(self)),
                old(self).spec_label_id(),
                final(self).spec_label_id(),
            ),
            r == spec_stmt(old(self).abs()).0,
            r is Ok ==> final(self).abs() == spec_stmt(old(self).abs()).1,
        decreases old(self).spec_tokens().len() - old(self).spec_pos(), 3int,
    {
        let ghost z0 = old(self).abs();
            self.advance();
            match self.cur() {
                Ok(TokenKind::LParen) => {},
                Ok(_) => return Err(CompileError::ExpectedLParenAfterIf),
                Err(e) => return Err(e),
            }
            self.advance();
            let ghost p1 = *self;
            proof {
                assert(p1.abs() == st_advance(st_advance(z0)));
            }
            match self.expr() {
                Ok(()) => {},
                Err(e) => return Err(e),
            }
            proof {
                lemma_onward_id(p1.abs(), self.abs());
            }
            let ghost p2 = *self;
            match self.cur() {
                Ok(TokenKind::RParen) => {},
                Ok(_) => return Err(CompileError::ExpectedRParenAfterIf),
                Err(e) => return Err(e),
            }
            self.advance();
            let false_label = match self.new_label() {
                Ok(l) => l,
                Err(e) => return Err(e),
            };
            self.code.push(Instruction::Jz(false_label));
            let ghost p3 = *self;
            proof {
                assert(p3.abs() == emit(
                    st_new_label(st_advance(p2.abs())).1,
                    Instruction::Jz(false_label),
                ));
                lemma_strict_id(z0, p3.abs());
            }
            match self.stmt() {
                Ok(()) => {},
                Err(e) => return Err(e),
            }
            let ghost p4 = *self;
            self.code.push(Instruction::Label(false_label));
            proof {
                let cond = Self::emitted(p1, p2);
                let body = Self::emitted(p3, p4);
                assert(Self::emitted(*old(self), p2) == cond);
                assert(Self::emitted(p2, p3) =~= seq![Instruction::Jz(false_label)]);
                assert(Self::emitted(p4, *self) =~= seq![Instruction::Label(false_label)]);
                lemma_emitted_concat(*old(self), p2, p3);
                lemma_emitted_concat(*old(self), p3, p4);
                lemma_emitted_concat(*old(self), p4, *self);
                assert(Self::emitted(*old(self), *self) == cond + seq![
                    Instruction::Jz(false_label),
                ] + body + seq![Instruction::Label(false_label)]);
                lemma_seg_branch(
                    cond,
                    body,
                    false_label,
                    old(self).spec_label_id(),
                    self.spec_label_id(),
                );
                assert(self.abs() == emit(p4.abs(), Instruction::Label(false_label)));
                assert(spec_stmt(z0) == (Ok::<(), CompileError>(()), self.abs()));
            }
            Ok(())
    }

    /// Compile a `while` statement after its keyword is seen: a start
    /// label, the condition, a jump past the loop to an end label, the
    /// body, a jump back to the start, and the end label's marker.
    #[verifier::loop_isolation(false)]
    #[verifier::rlimit(100)]
    #[verifier::spinoff_prover]
    fn stmt_while(&mut self) -> (r: Result<(), CompileError>)
        requires
            old(self).wf(),
            old(self).cur_kind() matches TokenKind::While,
        ensures
            Self::stmt_frame(*old(self), *final(self)),
            r is Ok ==> final(self).spec_pos() > old(self).spec_pos() && seg_wf(
                Self::emitted(*old(self), *final(self)),
                old(self).spec_label_id(),
                final(self).spec_label_id(),
            ),
            r == spec_stmt(old(self).abs()).0,
            r is Ok ==> final(self).abs() == spec_stmt(old(self).abs()).1,
        decreases old(self).spec_tokens().len() - old(self).spec_pos(), 3int,
    {
        let ghost z0 = old(self).abs();
            self.advance();
            match self.cur() {
                Ok(TokenKind::LParen) => {},
                Ok(_) => return Err(CompileError::ExpectedLParenAfterWhile),
                Err(e) => return Err(e),
            }
            self.advance();
            let start_label = match self.new_label() {
                Ok(l) => l,
                Err(e) => return Err(e),
            };
            let end_label = match self.new_label() {
                Ok(l) => l,
                Err(e) => return Err(e),
            };
            self.code.push(Instruction::Label(start_label));
            let ghost p1 = *self;
            proof {
                assert(p1.abs() == emit(
                    st_new_label(st_new_label(st_advance(st_advance(z0))).1).1,
                    Instruction::Label(start_label),
                ));
                lemma_strict_id(z0, p1.abs());
            }
            match self.expr() {
                Ok(()) => {},
                Err(e) => return Err(e),
            }
            proof {
                lemma_onward_id(p1.abs(), self.abs());
            }
            let ghost p2 = *self;
            match self.cur() {
                Ok(TokenKind::RParen) => {},
                Ok(_) => return Err(CompileError::ExpectedRParenAfterWhile),
                Err(e) => return Err(e),
            }
            self.advance();
            self.code.push(Instruction::Jz(end_label));
            let ghost p3 = *self;
            proof {
                assert(p3.abs() == emit(st_advance(p2.abs()), Instruction::Jz(end_label)));
                lemma_strict_id(z0, p3.abs());
            }
            match self.stmt() {
                Ok(()) => {},
                Err(e) => return Err(e),
            }
            let ghost p4 = *self;
            self.code.push(Instruction::Jmp(start_label));
            self.code.push(Instruction::Label(end_label));
            proof {
                let cond = Self::emitted(p1, p2);
                let body = Self::emitted(p3, p4);
                assert(Self::emitted(*old(self), p1) =~= seq![
                    Instruction::Label(start_label),
                ]);
                assert(Self::emitted(p1, p2) == cond);
                assert(Self::emitted(p2, p3) =~= seq![Instruction::Jz(end_label)]);
                assert(Self::emitted(p4, *self) =~= seq![
                    Instruction::Jmp(start_label),
                    Instruction::Label(end_label),
                ]);
                assert forall|ii: int| 0 <= ii < p4.code@.len() implies self.code@[ii]
                    == p4.code@[ii] by {}
                lemma_emitted_concat(*old(self), p1, p2);
                lemma_emitted_concat(*old(self), p2, p3);
                lemma_emitted_concat(*old(self), p3, p4);
                lemma_emitted_concat(*old(self), p4, *self);
                assert(Self::emitted(*old(self), *self) == seq![
                    Instruction::Label(start_label),
                ] + cond + seq![Instruction::Jz(end_label)] + body + seq![
                    Instruction::Jmp(start_label),
                    Instruction::Label(end_label),
                ]);
                lemma_seg_loop(
                    cond,
                    body,
                    start_label,
                    p2.spec_label_id(),
                    self.spec_label_id(),
                );
                lemma_seg_widen(
                    Self::emitted(*old(self), *self),
                    start_label as int,
                    self.spec_label_id(),
                    old(self).spec_label_id(),
                    self.spec_label_id(),
                );
                assert(self.abs() == emit(
                    emit(p4.abs(), Instruction::Jmp(start_label)),
                    Instruction::Label(end_label),
                ));
                assert(spec_stmt(z0) == (Ok::<(), CompileError>(()), self.abs()));
            }
            Ok(())
    }

    /// Compile one statement: a declaration, an `if`, a `while`, a
    /// `return`, a block, or an expression statement.
    #[verifier::loop_isolation(false)]
    #[verifier::rlimit(100)]
    #[verifier::spinoff_prover]
    pub fn stmt(&mut self) -> (r: Result<(), CompileError>)
        requires
            old(self).wf(),
        ensures
            Self::stmt_frame(*old(self), *final(self)),
            r is Ok ==> final(self).spec_pos() > old(self).spec_pos() && seg_wf(
                Self::emitted(*old(self), *final(self)),
                old(self).spec_label_id(),
                final(self).spec_label_id(),
            ),
            r == spec_stmt(old(self).abs()).0,
            r is Ok ==> final(self).abs() == spec_stmt(old(self).abs()).1,
        decreases old(self).spec_tokens().len() - old(self).spec_pos(), 4int,
    {
        let ghost z0 = old(self).abs();
        let k = match self.cur() {
            Ok(k) => k,
            Err(e) => return Err(e),
        };
        match k {
            TokenKind::Int | TokenKind::Char => {
                self.advance();
                proof {
                    lemma_strict_id(z0, self.abs());
                }
                self.skip_stars();
                proof {
                    assert(self.abs() == spec_skip_stars(strictly_onward(z0, st_advance(z0))));
                }
                match self.decl_names() {
                    Ok(()) => {},
                    Err(e) => return Err(e),
                }
                match self.decl_finish() {
                    Ok(()) => {},
                    Err(e) => return Err(e),
                }
                proof {
                    assert(Self::emitted(*old(self), *self) =~= Seq::<Instruction>::empty());
                    lemma_seg_empty(old(self).spec_label_id(), self.spec_label_id());
                    assert(spec_stmt(z0) == (Ok::<(), CompileError>(()), self.abs()));
                }
                Ok(())
            },
            TokenKind::If => self.stmt_if(),
            TokenKind::While => self.stmt_while(),
            TokenKind::Return => {
                self.advance();
                let ghost p1 = *self;
                proof {
                    assert(p1.abs() == st_advance(z0));
                }
                match self.expr() {
                    Ok(()) => {},
                    Err(e) => return Err(e),
                }
                proof {
                    lemma_onward_id(p1.abs(), self.abs());
                }
                let ghost p2 = *self;
                let in_named_non_main = match &self.current_fn {
                    Some(name) => !Self::is_main_name(name),
                    None => false,
                };
                if in_named_non_main {
                    self.code.push(Instruction::Leave);
                    proof {
                        lemma_seg_push_plain(
                            Self::emitted(p1, p2),
                            Instruction::Leave,
                            old(self).spec_label_id(),
                            self.spec_label_id(),
                        );
                        assert(Self::emitted(p1, *self) =~= Self::emitted(p1, p2).push(
                            Instruction::Leave,
                        ));
                        assert(Self::emitted(*old(self), *self) == Self::emitted(p1, *self));
                    }
                } else {
                    self.code.push(Instruction::Jmp(EXIT_LABEL));
                    proof {
                        lemma_seg_push_exit_jump(
                            Self::emitted(p1, p2),
                            old(self).spec_label_id(),
                            self.spec_label_id(),
                        );
                        assert(Self::emitted(p1, *self) =~= Self::emitted(p1, p2).push(
                            Instruction::Jmp(EXIT_LABEL),
                        ));
                        assert(Self::emitted(*old(self), *self) == Self::emitted(p1, *self));
                    }
                }
                let ghost p3 = *self;
                match self.cur() {
                    Ok(TokenKind::Semicolon) => {
                        self.advance();
                        proof {
                            assert(self.abs() == st_advance(p3.abs()));
                            assert(spec_stmt(z0) == (Ok::<(), CompileError>(()), self.abs()));
                        }
                        Ok(())
                    },
                    Ok(_) => Err(CompileError::ExpectedSemicolonAfterReturn),
                    Err(e) => Err(e),
                }
            },
            TokenKind::LBrace => {
                self.advance();
                proof {
                    lemma_strict_id(z0, self.abs());
                }
                self.block_tail()
            },
            _ => {
                let ghost p0 = *self;
                match self.expr() {
                    Ok(()) => {},
                    Err(e) => return Err(e),
                }
                proof {
                    lemma_onward_id(z0, self.abs());
                }
                let ghost p3 = *self;
                match self.cur() {
                    Ok(TokenKind::Semicolon) => {
                        self.advance();
                        proof {
                            assert(self.abs() == st_advance(p3.abs()));
                            assert(spec_stmt(z0) == (Ok::<(), CompileError>(()), self.abs()));
                        }
                        Ok(())
                    },
                    Ok(_) => Err(CompileError::ExpectedSemicolonAfterExpression),
                    Err(e) => Err(e),
                }
            },
        }
    }

    /// Whether a name is the designated entry point's.
    fn is_main_name(name: &String) -> (r: bool)
        ensures
            r == (name@ == "main"@),
    {
        let m: String = "main".to_owned();
        *name == m
    }

    /// Whether a name is the built-in output form's.
    fn is_print_name(name: &String) -> (r: bool)
        ensures
            r == (name@ == "print"@),
    {
        let p: String = "print".to_owned();
        *name == p
    }

    /// Compile one expression, starting at the lowest binding power.
    #[verifier::loop_isolation(false)]
    pub fn expr(&mut self) -> (r: Result<(), CompileError>)
        requires
            old(self).wf(),
        ensures
            Self::stmt_frame(*old(self), *final(self)),
            r is Ok ==> seg_wf(
                Self::emitted(*old(self), *final(self)),
                old(self).spec_label_id(),
                final(self).spec_label_id(),
            ),
            r == spec_expr(old(self).abs()).0,
            r is Ok ==> final(self).abs() == spec_expr(old(self).abs()).1,
        decreases old(self).spec_tokens().len() - old(self).spec_pos(), 3int,
    {
        proof {
            reveal_with_fuel(spec_expr, 1);
        }
        self.expr_bp(0)
    }

    /// Compile one expression by precedence climbing: one prefix form,
    /// then infix operators of binding power at least `min_bp`, each
    /// recursing into its right operand one power higher.
    #[verifier::loop_isolation(false)]
    #[verifier::rlimit(100)]
    #[verifier::spinoff_prover]
    fn expr_bp(&mut self, min_bp: u8) -> (r: Result<(), CompileError>)
        requires
            old(self).wf(),
        ensures
            Self::stmt_frame(*old(self), *final(self)),
            r is Ok ==> seg_wf(
                Self::emitted(*old(self), *final(self)),
                old(self).spec_label_id(),
                final(self).spec_label_id(),
            ),
            r == spec_expr_bp(old(self).abs(), min_bp).0,
            r is Ok ==> final(self).abs() == spec_expr_bp(old(self).abs(), min_bp).1,
        decreases old(self).spec_tokens().len() - old(self).spec_pos(), 2int,
    {
        let ghost orig = *self;
        let ghost z0 = old(self).abs();
        proof {
            reveal_with_fuel(spec_expr_bp, 1);
        }
        match self.prefix_form() {
            Ok(()) => {},
            Err(e) => return Err(e),
        }
        proof {
            lemma_onward_id(z0, self.abs());
            assert(spec_expr_bp(z0, min_bp) == spec_infix(self.abs(), min_bp));
        }
        let ghost si = self.abs();
        // infix loop
        loop
            invariant
                Self::stmt_frame(*old(self), *self),
                seg_wf(
                    Self::emitted(*old(self), *self),
                    old(self).spec_label_id(),
                    self.spec_label_id(),
                ),
                spec_expr_bp(z0, min_bp) == spec_infix(si, min_bp),
                spec_infix(si, min_bp) == spec_infix(self.abs(), min_bp),
                z0 == old(self).abs(),
            decreases self.spec_tokens().len() - self.spec_pos(),
        {
            let ghost pit = self.abs();
            proof {
                reveal_with_fuel(spec_infix, 1);
            }
            let op_bp = match self.get_precedence() {
                Ok(p) => p,
                Err(e) => return Err(e),
            };
            if op_bp < min_bp || op_bp == 0 {
                proof {
                    assert(spec_infix(pit, min_bp) == (Ok::<(), CompileError>(()), pit));
                }
                return Ok(());
            }
            let op = match self.cur() {
                Ok(k2) => k2,
                Err(e) => return Err(e),
            };
            self.advance();
            let is_cond = matches!(op, TokenKind::Cond);
            let ghost pa = *self;
            proof {
                lemma_strict_id(pit, pa.abs());
            }
            if !is_cond {
                match self.expr_bp(op_bp + 1) {
                    Ok(()) => {},
                    Err(e) => return Err(e),
                }
            }
            let ghost pb = *self;
            proof {
                if is_cond {
                    assert(Self::emitted(pa, pb) =~= Seq::<Instruction>::empty());
                    lemma_seg_empty(pa.spec_label_id(), pb.spec_label_id());
                }
                lemma_emitted_concat(*old(self), pa, pb);
                lemma_seg_concat(
                    Self::emitted(*old(self), pa),
                    Self::emitted(pa, pb),
                    old(self).spec_label_id(),
                    pa.spec_label_id(),
                    pb.spec_label_id(),
                );
            }
            match op {
                TokenKind::Cond => {
                    match self.ternary_tail() {
                        Ok(()) => {},
                        Err(e) => return Err(e),
                    }
                    proof {
                        lemma_emitted_concat(*old(self), pb, *self);
                        lemma_seg_concat(
                            Self::emitted(*old(self), pb),
                            Self::emitted(pb, *self),
                            old(self).spec_label_id(),
                            pb.spec_label_id(),
                            self.spec_label_id(),
                        );
                        reveal_with_fuel(spec_infix, 1);
                        lemma_strict_id(pit, self.abs());
                        assert(spec_infix(pit, min_bp) == spec_infix(self.abs(), min_bp));
                    }
                },
                TokenKind::Add => {
                    self.push_op(Instruction::Add, Ghost(orig));
                },
                TokenKind::Sub => {
                    self.push_op(Instruction::Sub, Ghost(orig));
                },
                TokenKind::Mul => {
                    self.push_op(Instruction::Mul, Ghost(orig));
                },
                TokenKind::Div => {
                    self.push_op(Instruction::Div, Ghost(orig));
                },
                TokenKind::Mod => {
                    self.push_op(Instruction::Mod, Ghost(orig));
                },
                TokenKind::Eq => {
                    self.push_op(Instruction::Eq, Ghost(orig));
                },
                TokenKind::Ne => {
                    self.push_op(Instruction::Ne, Ghost(orig));
                },
                TokenKind::Lt => {
                    self.push_op(Instruction::Lt, Ghost(orig));
                },
                TokenKind::Gt => {
                    self.push_op(Instruction::Gt, Ghost(orig));
                },
                TokenKind::Le => {
                    self.push_op(Instruction::Le, Ghost(orig));
                },
                TokenKind::Ge => {
                    self.push_op(Instruction::Ge, Ghost(orig));
                },
                TokenKind::And => {
                    self.push_op(Instruction::BitAnd, Ghost(orig));
                },
                TokenKind::Or => {
                    self.push_op(Instruction::BitOr, Ghost(orig));
                },
                TokenKind::Xor => {
                    self.push_op(Instruction::BitXor, Ghost(orig));
                },
                TokenKind::Shl => {
                    self.push_op(Instruction::Shl, Ghost(orig));
                },
                TokenKind::Shr => {
                    self.push_op(Instruction::Shr, Ghost(orig));
                },
                _ => {
                    return Err(CompileError::UnsupportedInfixOperator);
                },
            }
            proof {
                if !is_cond {
                    reveal_with_fuel(spec_infix, 1);
                    let instr = self.code@.last();
                    assert(infix_op(op) == Some(instr));
                    assert(self.abs() == emit(pb.abs(), instr));
                    lemma_strict_id(pit, self.abs());
                    assert(spec_infix(pit, min_bp) == spec_infix(self.abs(), min_bp));
                }
            }
        }
    }

    /// Compile one prefix form, if the token under the cursor starts
    /// one: a literal, a unary operator, an address-of, a `sizeof`, a
    /// name, or a parenthesized expression or cast.  Anything else is
    /// left in place for the caller.
    #[verifier::loop_isolation(false)]
    #[verifier::rlimit(100)]
    #[verifier::spinoff_prover]
    fn prefix_form(&mut self) -> (r: Result<(), CompileError>)
        requires
            old(self).wf(),
        ensures
            Self::stmt_frame(*old(self), *final(self)),
            r is Ok ==> seg_wf(
                Self::emitted(*old(self), *final(self)),
                old(self).spec_label_id(),
                final(self).spec_label_id(),
            ),
            r == spec_prefix_form(old(self).abs()).0,
            r is Ok ==> final(self).abs() == spec_prefix_form(old(self).abs()).1,
        decreases old(self).spec_tokens().len() - old(self).spec_pos(), 1int,
    {
        let ghost z0 = old(self).abs();
        let k = match self.cur() {
            Ok(k) => k,
            Err(e) => return Err(e),
        };
        let is_prefix = matches!(
            k,
            TokenKind::Sub
                | TokenKind::Not
                | TokenKind::Mul
                | TokenKind::And
                | TokenKind::Sizeof
                | TokenKind::Str(_)
                | TokenKind::CharLiteral(_)
                | TokenKind::Num(_)
                | TokenKind::Float(_)
                | TokenKind::Id(_)
                | TokenKind::LParen
        );
        if is_prefix {
            match k {
                TokenKind::Float(_) => {
                    return Err(CompileError::FloatLiteralUnsupported);
                },
                TokenKind::Str(_) => {
                    return Err(CompileError::StringLiteralUnsupported);
                },
                TokenKind::Num(n) => {
                    self.advance();
                    self.code.push(Instruction::Imm(n));
                    proof {
                        assert(Self::emitted(*old(self), *self) =~= seq![Instruction::Imm(n)]);
                        lemma_seg_single_plain(
                            Instruction::Imm(n),
                            old(self).spec_label_id(),
                            self.spec_label_id(),
                        );
                        assert(self.abs() == emit(st_advance(z0), Instruction::Imm(n)));
                    }
                },
                TokenKind::CharLiteral(c) => {
                    self.code.push(Instruction::Imm((c as u32) as i64));
                    self.advance();
                    proof {
                        assert(Self::emitted(*old(self), *self) =~= seq![
                            Instruction::Imm((c as u32) as i64),
                        ]);
                        lemma_seg_single_plain(
                            Instruction::Imm((c as u32) as i64),
                            old(self).spec_label_id(),
                            self.spec_label_id(),
                        );
                        assert(self.abs() == st_advance(
                            emit(z0, Instruction::Imm((c as u32) as i64)),
                        ));
                    }
                },
                TokenKind::Sub => {
                    self.advance();
                    let ghost p1 = *self;
                    proof {
                        lemma_strict_id(z0, p1.abs());
                    }
                    match self.expr_bp(11) {
                        Ok(()) => {},
                        Err(e) => return Err(e),
                    }
                    let ghost p2 = *self;
                    self.code.push(Instruction::Neg);
                    proof {
                        lemma_seg_push_plain(
                            Self::emitted(p1, p2),
                            Instruction::Neg,
                            old(self).spec_label_id(),
                            self.spec_label_id(),
                        );
                        assert(Self::emitted(p1, *self) =~= Self::emitted(p1, p2).push(
                            Instruction::Neg,
                        ));
                        assert(Self::emitted(*old(self), *self) == Self::emitted(p1, *self));
                        assert(self.abs() == emit(p2.abs(), Instruction::Neg));
                        assert(p2.abs() == spec_expr_bp(
                            strictly_onward(z0, st_advance(z0)),
                            11,
                        ).1);
                    }
                },
                TokenKind::Not => {
                    self.advance();
                    let ghost p1 = *self;
                    proof {
                        lemma_strict_id(z0, p1.abs());
                    }
                    match self.expr_bp(11) {
                        Ok(()) => {},
                        Err(e) => return Err(e),
                    }
                    let ghost p2 = *self;
                    self.code.push(Instruction::Not);
                    proof {
                        lemma_seg_push_plain(
                            Self::emitted(p1, p2),
                            Instruction::Not,
                            old(self).spec_label_id(),
                            self.spec_label_id(),
                        );
                        assert(Self::emitted(p1, *self) =~= Self::emitted(p1, p2).push(
                            Instruction::Not,
                        ));
                        assert(Self::emitted(*old(self), *self) == Self::emitted(p1, *self));
                        assert(self.abs() == emit(p2.abs(), Instruction::Not));
                        assert(p2.abs() == spec_expr_bp(
                            strictly_onward(z0, st_advance(z0)),
                            11,
                        ).1);
                    }
                },
                TokenKind::Mul => {
                    self.advance();
                    let ghost p1 = *self;
                    proof {
                        lemma_strict_id(z0, p1.abs());
                    }
                    match self.expr_bp(11) {
                        Ok(()) => {},
                        Err(e) => return Err(e),
                    }
                    let ghost p2 = *self;
                    self.code.push(Instruction::Deref);
                    proof {
                        lemma_seg_push_plain(
                            Self::emitted(p1, p2),
                            Instruction::Deref,
                            old(self).spec_label_id(),
                            self.spec_label_id(),
                        );
                        assert(Self::emitted(p1, *self) =~= Self::emitted(p1, p2).push(
                            Instruction::Deref,
                        ));
                        assert(Self::emitted(*old(self), *self) == Self::emitted(p1, *self));
                        assert(self.abs() == emit(p2.abs(), Instruction::Deref));
                        assert(p2.abs() == spec_expr_bp(
                            strictly_onward(z0, st_advance(z0)),
                            11,
                        ).1);
                    }
                },
                TokenKind::And => {
                    self.advance();
                    let k2 = match self.cur() {
                        Ok(k2) => k2,
                        Err(e) => return Err(e),
                    };
                    match k2 {
                        TokenKind::Id(name) => {
                            let off = match Self::tab_get(&self.locals, &name) {
                                Some(off) => off,
                                None => return Err(CompileError::UndefinedVariable),
                            };
                            self.code.push(Instruction::Addr(off));
                            self.advance();
                            proof {
                                assert(Self::emitted(*old(self), *self) =~= seq![
                                    Instruction::Addr(off),
                                ]);
                                lemma_seg_single_plain(
                                    Instruction::Addr(off),
                                    old(self).spec_label_id(),
                                    self.spec_label_id(),
                                );
                                assert(self.abs() == st_advance(
                                    emit(st_advance(z0), Instruction::Addr(off)),
                                ));
                            }
                        },
                        _ => {
                            return Err(CompileError::ExpectedIdentAfterAddressOf);
                        },
                    }
                },
                TokenKind::Sizeof => {
                    self.advance();
                    match self.cur() {
                        Ok(TokenKind::LParen) => {},
                        Ok(_) => return Err(CompileError::ExpectedLParenAfterSizeof),
                        Err(e) => return Err(e),
                    }
                    self.advance();
                    let mut size: i64 = match self.cur() {
                        Ok(TokenKind::Int) => SIZEOF_INT,
                        Ok(TokenKind::Char) => SIZEOF_CHAR,
                        Ok(_) => return Err(CompileError::InvalidSizeofType),
                        Err(e) => return Err(e),
                    };
                    self.advance();
                    let ghost zs = self.abs();
                    let ghost sz0 = size;
                    proof {
                        lemma_strict_id(z0, zs);
                    }
                    loop
                        invariant
                            self.wf(),
                            Self::same_but_pos(*old(self), *self),
                            self.spec_pos() >= old(self).spec_pos(),
                            spec_sizeof_stars(zs, sz0) == spec_sizeof_stars(self.abs(), size),
                        decreases self.spec_tokens().len() - self.spec_pos(),
                    {
                        let ghost pit = self.abs();
                        let ghost psz = size;
                        match self.cur() {
                            Ok(TokenKind::Mul) => {
                                size = SIZEOF_PTR;
                                self.advance();
                                proof {
                                    reveal_with_fuel(spec_sizeof_stars, 2);
                                    lemma_strict_id(pit, self.abs());
                                    assert(spec_sizeof_stars(pit, psz) == spec_sizeof_stars(
                                        self.abs(),
                                        size,
                                    ));
                                }
                            },
                            _ => {
                                proof {
                                    reveal_with_fuel(spec_sizeof_stars, 2);
                                    assert(spec_sizeof_stars(pit, psz) == (pit, psz));
                                }
                                break ;
                            },
                        }
                    }
                    proof {
                        assert(spec_sizeof_stars(zs, sz0) == (self.abs(), size));
                    }
                    let ghost z3 = self.abs();
                    match self.cur() {
                        Ok(TokenKind::RParen) => {},
                        Ok(_) => return Err(CompileError::ExpectedRParenAfterSizeof),
                        Err(e) => return Err(e),
                    }
                    self.advance();
                    self.code.push(Instruction::Imm(size));
                    proof {
                        assert(Self::emitted(*old(self), *self) =~= seq![Instruction::Imm(size)]);
                        lemma_seg_single_plain(
                            Instruction::Imm(size),
                            old(self).spec_label_id(),
                            self.spec_label_id(),
                        );
                        assert(self.abs() == emit(st_advance(z3), Instruction::Imm(size)));
                    }
                },
                TokenKind::Id(name) => {
                    match self.ident_form(name) {
                        Ok(()) => {},
                        Err(e) => return Err(e),
                    }
                },
                TokenKind::LParen => {
                    match self.paren_form() {
                        Ok(()) => {},
                        Err(e) => return Err(e),
                    }
                },
                _ => {
                    proof {
                        assert(false);
                    }
                    return Err(CompileError::UnsupportedInfixOperator);
                },
            }
        } else {
            proof {
                assert(Self::emitted(*old(self), *self) =~= Seq::<Instruction>::empty());
                lemma_seg_empty(old(self).spec_label_id(), self.spec_label_id());
            }
        }
        Ok(())
    }

    /// Compile the form a name starts: the built-in `print`, a call,
    /// an assignment to a local, or a load of a local.
    #[verifier::loop_isolation(false)]
    #[verifier::rlimit(100)]
    #[verifier::spinoff_prover]
    fn ident_form(&mut self, name: String) -> (r: Result<(), CompileError>)
        requires
            old(self).wf(),
            old(self).cur_kind() matches TokenKind::Id(_),
        ensures
            Self::stmt_frame(*old(self), *final(self)),
            r is Ok ==> seg_wf(
                Self::emitted(*old(self), *final(self)),
                old(self).spec_label_id(),
                final(self).spec_label_id(),
            ),
            r == spec_ident_form(old(self).abs(), name).0,
            r is Ok ==> final(self).abs() == spec_ident_form(old(self).abs(), name).1,
        decreases old(self).spec_tokens().len() - old(self).spec_pos(), 0int,
    {
        let ghost z0 = old(self).abs();
        self.advance();
        let ghost z1 = self.abs();
        proof {
            assert(z1 == st_advance(z0));
            lemma_strict_id(z0, z1);
        }
        if Self::is_print_name(&name) {
            return self.print_tail();
        }
            let k2 = match self.cur() {
                Ok(k2) => k2,
                Err(e) => return Err(e),
            };
            match k2 {
                TokenKind::LParen => {
                    match self.call_tail(&name) {
                        Ok(()) => {},
                        Err(e) => return Err(e),
                    }
                },
                TokenKind::Assign => {
                    self.advance();
                    let ghost p1 = *self;
                    proof {
                        lemma_strict_id(z0, p1.abs());
                    }
                    match self.expr_bp(0) {
                        Ok(()) => {},
                        Err(e) => return Err(e),
                    }
                    proof {
                        lemma_onward_id(st_advance(z1), self.abs());
                    }
                    let off = match Self::tab_get(&self.locals, &name) {
                        Some(off) => off,
                        None => return Err(CompileError::UndefinedVariable),
                    };
                    let ghost p2 = *self;
                    self.code.push(Instruction::StoreLocal(off));
                    proof {
                        lemma_seg_push_plain(
                            Self::emitted(p1, p2),
                            Instruction::StoreLocal(off),
                            old(self).spec_label_id(),
                            self.spec_label_id(),
                        );
                        assert(Self::emitted(p1, *self) =~= Self::emitted(p1, p2).push(
                            Instruction::StoreLocal(off),
                        ));
                        assert(Self::emitted(*old(self), *self) == Self::emitted(
                            p1,
                            *self,
                        ));
                        assert(self.abs() == emit(p2.abs(), Instruction::StoreLocal(off)));
                    }
                },
                _ => {
                    let off = match Self::tab_get(&self.locals, &name) {
                        Some(off) => off,
                        None => return Err(CompileError::UndefinedVariable),
                    };
                    self.code.push(Instruction::LoadLocal(off));
                    proof {
                        assert(Self::emitted(*old(self), *self) =~= seq![
                            Instruction::LoadLocal(off),
                        ]);
                        lemma_seg_single_plain(
                            Instruction::LoadLocal(off),
                            old(self).spec_label_id(),
                            self.spec_label_id(),
                        );
                        assert(self.abs() == emit(z1, Instruction::LoadLocal(off)));
                    }
                },
            }
        Ok(())
    }

    /// Compile a parenthesized form: a cast applied as a value no-op,
    /// or a grouped sub-expression.
    #[verifier::loop_isolation(false)]
    #[verifier::rlimit(100)]
    #[verifier::spinoff_prover]
    fn paren_form(&mut self) -> (r: Result<(), CompileError>)
        requires
            old(self).wf(),
            old(self).cur_kind() matches TokenKind::LParen,
        ensures
            Self::stmt_frame(*old(self), *final(self)),
            r is Ok ==> seg_wf(
                Self::emitted(*old(self), *final(self)),
                old(self).spec_label_id(),
                final(self).spec_label_id(),
            ),
            r == spec_paren_form(old(self).abs()).0,
            r is Ok ==> final(self).abs() == spec_paren_form(old(self).abs()).1,
        decreases old(self).spec_tokens().len() - old(self).spec_pos(), 0int,
    {
        let ghost z0 = old(self).abs();
        self.advance();
        let ghost z1 = self.abs();
        proof {
            assert(z1 == st_advance(z0));
            lemma_strict_id(z0, z1);
        }
            let k2 = match self.cur() {
                Ok(k2) => k2,
                Err(e) => return Err(e),
            };
            let is_type = matches!(k2, TokenKind::Int | TokenKind::Char | TokenKind::Mul);
            if is_type {
                loop
                    invariant
                        self.wf(),
                        Self::same_but_pos(*old(self), *self),
                        self.spec_pos() >= old(self).spec_pos(),
                        spec_cast_types(z1) == spec_cast_types(self.abs()),
                    decreases self.spec_tokens().len() - self.spec_pos(),
                {
                    let ghost pit = self.abs();
                    match self.cur() {
                        Ok(TokenKind::Int) | Ok(TokenKind::Char) | Ok(TokenKind::Mul) => {
                            self.advance();
                            proof {
                                reveal_with_fuel(spec_cast_types, 2);
                                lemma_strict_id(pit, self.abs());
                                assert(spec_cast_types(pit) == spec_cast_types(self.abs()));
                            }
                        },
                        _ => {
                            proof {
                                reveal_with_fuel(spec_cast_types, 2);
                                assert(spec_cast_types(pit) == pit);
                            }
                            break ;
                        },
                    }
                }
                proof {
                    assert(spec_cast_types(z1) == self.abs());
                }
                let ghost z2 = self.abs();
                match self.cur() {
                    Ok(TokenKind::RParen) => {},
                    Ok(_) => return Err(CompileError::ExpectedRParenAfterCast),
                    Err(e) => return Err(e),
                }
                self.advance();
                let ghost p1 = *self;
                proof {
                    lemma_strict_id(z0, p1.abs());
                }
                match self.expr_bp(11) {
                    Ok(()) => {},
                    Err(e) => return Err(e),
                }
                let ghost p2 = *self;
                self.code.push(Instruction::Cast);
                proof {
                    lemma_seg_push_plain(
                        Self::emitted(p1, p2),
                        Instruction::Cast,
                        old(self).spec_label_id(),
                        self.spec_label_id(),
                    );
                    assert(Self::emitted(p1, *self) =~= Self::emitted(p1, p2).push(
                        Instruction::Cast,
                    ));
                    assert(Self::emitted(*old(self), *self) == Self::emitted(p1, *self));
                    assert(p2.abs() == onward(st_advance(z2), spec_expr_bp(
                        strictly_onward(z0, st_advance(z2)),
                        11,
                    ).1));
                    assert(self.abs() == emit(p2.abs(), Instruction::Cast));
                }
            } else {
                let ghost p1 = *self;
                match self.expr_bp(0) {
                    Ok(()) => {},
                    Err(e) => return Err(e),
                }
                proof {
                    lemma_onward_id(z1, self.abs());
                }
                let ghost z2 = self.abs();
                match self.cur() {
                    Ok(TokenKind::RParen) => {},
                    Ok(_) => return Err(CompileError::ExpectedRParenAfterExpression),
                    Err(e) => return Err(e),
                }
                self.advance();
                proof {
                    assert(Self::emitted(*old(self), *self) =~= Self::emitted(p1, *self));
                    assert(self.abs() == st_advance(z2));
                }
            }
        Ok(())
    }

    /// Compile the two branches of a conditional expression, after its
    /// `?`: a jump over the taken branch to the else label, the then
    /// branch, a jump to the end label, the else label's marker, the
    /// else branch, and the end label's marker, so that exactly one
    /// branch executes.
    #[verifier::loop_isolation(false)]
    #[verifier::rlimit(100)]
    #[verifier::spinoff_prover]
    fn ternary_tail(&mut self) -> (r: Result<(), CompileError>)
        requires
            old(self).wf(),
        ensures
            Self::stmt_frame(*old(self), *final(self)),
            r is Ok ==> seg_wf(
                Self::emitted(*old(self), *final(self)),
                old(self).spec_label_id(),
                final(self).spec_label_id(),
            ),
            r == spec_ternary_tail(old(self).abs()).0,
            r is Ok ==> final(self).abs() == spec_ternary_tail(old(self).abs()).1,
        decreases old(self).spec_tokens().len() - old(self).spec_pos(), 3int,
    {
        let ghost z0 = old(self).abs();
        proof {
            reveal_with_fuel(spec_ternary_tail, 1);
        }
        let else_lbl = match self.new_label() {
            Ok(l) => l,
            Err(e) => return Err(e),
        };
        self.code.push(Instruction::Jz(else_lbl));
        let ghost t1 = *self;
        proof {
            assert(t1.abs() == emit(st_new_label(z0).1, Instruction::Jz(else_lbl)));
        }
        match self.expr_bp(1) {
            Ok(()) => {},
            Err(e) => return Err(e),
        }
        proof {
            lemma_onward_id(t1.abs(), self.abs());
        }
        let ghost t2 = *self;
        let end_lbl = match self.new_label() {
            Ok(l) => l,
            Err(e) => return Err(e),
        };
        self.code.push(Instruction::Jmp(end_lbl));
        self.code.push(Instruction::Label(else_lbl));
        proof {
            assert(self.abs() == emit(
                emit(st_new_label(t2.abs()).1, Instruction::Jmp(end_lbl)),
                Instruction::Label(else_lbl),
            ));
        }
        match self.cur() {
            Ok(TokenKind::Colon) => {},
            Ok(_) => return Err(CompileError::ExpectedColonInConditional),
            Err(e) => return Err(e),
        }
        self.advance();
        let ghost t3 = *self;
        match self.expr_bp(1) {
            Ok(()) => {},
            Err(e) => return Err(e),
        }
        proof {
            lemma_onward_id(t3.abs(), self.abs());
        }
        let ghost t4 = *self;
        self.code.push(Instruction::Label(end_lbl));
        proof {
            let then_seg = Self::emitted(t1, t2);
            let els_seg = Self::emitted(t3, t4);
            lemma_seg_ternary(then_seg, els_seg, else_lbl, end_lbl, self.spec_label_id());
            assert(Self::emitted(*old(self), t1) =~= seq![Instruction::Jz(else_lbl)]);
            assert(Self::emitted(t2, t3) =~= seq![
                Instruction::Jmp(end_lbl),
                Instruction::Label(else_lbl),
            ]);
            assert(Self::emitted(t4, *self) =~= seq![Instruction::Label(end_lbl)]);
            assert forall|ii: int| 0 <= ii < t2.code@.len() implies t3.code@[ii] == t2.code@[ii]
            by {}
            lemma_emitted_concat(*old(self), t1, t2);
            lemma_emitted_concat(*old(self), t2, t3);
            lemma_emitted_concat(*old(self), t3, t4);
            lemma_emitted_concat(*old(self), t4, *self);
            assert(Self::emitted(*old(self), *self) == seq![Instruction::Jz(else_lbl)] + then_seg
                + seq![Instruction::Jmp(end_lbl), Instruction::Label(else_lbl)] + els_seg + seq![
                Instruction::Label(end_lbl),
            ]);
            assert(spec_ternary_tail(old(self).abs()) == (Ok::<(), CompileError>(()), self.abs()));
        }
        Ok(())
    }

    /// Append one plain operator instruction, keeping the emitted
    /// stretch since `orig` self-contained.
    fn push_op(&mut self, i: Instruction, Ghost(orig): Ghost<Parser>)
        requires
            old(self).wf(),
            jump_target(i) is None,
            label_of(i) is None,
            Self::code_prefix(orig, *old(self)),
            orig.spec_label_id() <= old(self).spec_label_id(),
            seg_wf(
                Self::emitted(orig, *old(self)),
                orig.spec_label_id(),
                old(self).spec_label_id(),
            ),
        ensures
            final(self).wf(),
            final(self).spec_tokens() == old(self).spec_tokens(),
            final(self).spec_lex_err() == old(self).spec_lex_err(),
            final(self).spec_pos() == old(self).spec_pos(),
            final(self).spec_label_id() == old(self).spec_label_id(),
            final(self).functions@ == old(self).functions@,
            final(self).function_arity@ == old(self).function_arity@,
            final(self).main_label == old(self).main_label,
            final(self).locals@ == old(self).locals@,
            final(self).current_fn == old(self).current_fn,
            final(self).in_function == old(self).in_function,
            final(self).next_local_offset == old(self).next_local_offset,
            final(self).code@ == old(self).code@.push(i),
            seg_wf(
                Self::emitted(orig, *final(self)),
                orig.spec_label_id(),
                final(self).spec_label_id(),
            ),
    {
        self.code.push(i);
        proof {
            lemma_seg_push_plain(
                Self::emitted(orig, *old(self)),
                i,
                orig.spec_label_id(),
                old(self).spec_label_id(),
            );
            assert(Self::emitted(orig, *self) =~= Self::emitted(orig, *old(self)).push(i));
        }
    }

    /// Compile the argument and emission of the built-in `print` form,
    /// after its name: a string literal is emitted verbatim, anything
    /// else is compiled and printed as a value.
    #[verifier::loop_isolation(false)]
    fn print_tail(&mut self) -> (r: Result<(), CompileError>)
        requires
            old(self).wf(),
        ensures
            Self::stmt_frame(*old(self), *final(self)),
            r is Ok ==> seg_wf(
                Self::emitted(*old(self), *final(self)),
                old(self).spec_label_id(),
                final(self).spec_label_id(),
            ),
            r == spec_print_tail(old(self).abs()).0,
            r is Ok ==> final(self).abs() == spec_print_tail(old(self).abs()).1,
        decreases old(self).spec_tokens().len() - old(self).spec_pos(), 0int,
    {
        let ghost z0 = old(self).abs();
        proof {
            reveal_with_fuel(spec_print_tail, 1);
        }
        match self.cur() {
            Ok(TokenKind::LParen) => {},
            Ok(_) => return Err(CompileError::ExpectedLParenAfterPrint),
            Err(e) => return Err(e),
        }
        self.advance();
        let ghost z1 = self.abs();
        proof {
            assert(z1 == st_advance(z0));
        }
        let k = match self.cur() {
            Ok(k) => k,
            Err(e) => return Err(e),
        };
        match k {
            TokenKind::Str(s_lit) => {
                self.advance();
                let ghost z2 = self.abs();
                proof {
                    assert(st_read(z1) == Ok::<TokenKind, CompileError>(TokenKind::Str(s_lit)));
                    assert(z2 == st_advance(z1));
                }
                match self.cur() {
                    Ok(TokenKind::RParen) => {},
                    Ok(_) => return Err(CompileError::ExpectedRParenAfterPrint),
                    Err(e) => return Err(e),
                }
                self.advance();
                proof {
                    assert(self.abs() == st_advance(z2));
                }
                self.code.push(Instruction::PrintStr(s_lit));
                proof {
                    let ins = self.code@.last();
                    assert(Self::emitted(*old(self), *self) =~= seq![ins]);
                    lemma_seg_single_plain(
                        ins,
                        old(self).spec_label_id(),
                        self.spec_label_id(),
                    );
                    assert(self.abs() == emit(st_advance(z2), Instruction::PrintStr(s_lit)));
                    assert(spec_print_tail(z0) == (Ok::<(), CompileError>(()), self.abs()));
                }
                Ok(())
            },
            _ => {
                let ghost p1 = *self;
                proof {
                    reveal_with_fuel(spec_print_tail, 1);
                    lemma_strict_id(z0, z1);
                }
                match self.expr_bp(0) {
                    Ok(()) => {},
                    Err(e) => {
                        proof {
                            assert(spec_print_tail(z0).0 == Err::<(), CompileError>(e));
                        }
                        return Err(e);
                    },
                }
                let ghost z3 = self.abs();
                proof {
                    lemma_onward_id(z1, z3);
                    assert(z3 == onward(z1, spec_expr_bp(z1, 0).1));
                }
                match self.cur() {
                    Ok(TokenKind::RParen) => {},
                    Ok(_) => return Err(CompileError::ExpectedRParenAfterPrint),
                    Err(e) => return Err(e),
                }
                self.advance();
                let ghost p2 = *self;
                self.code.push(Instruction::Print);
                proof {
                    lemma_seg_push_plain(
                        Self::emitted(p1, p2),
                        Instruction::Print,
                        old(self).spec_label_id(),
                        self.spec_label_id(),
                    );
                    assert(Self::emitted(p1, *self) =~= Self::emitted(p1, p2).push(
                        Instruction::Print,
                    ));
                    assert(Self::emitted(*old(self), *self) == Self::emitted(p1, *self));
                    assert(p2.abs() == st_advance(z3));
                    assert(self.abs() == emit(st_advance(z3), Instruction::Print));
                    assert(spec_print_tail(z0) == (Ok::<(), CompileError>(()), self.abs()));
                }
                Ok(())
            },
        }
    }

    /// Compile a call's argument list and the call itself, after the
    /// callee's name.  Arguments are parsed left to right, each into
    /// its own buffer; the buffers are then emitted in reverse order
    /// before the `Call`, so that at run time the rightmost argument's
    /// value lands deepest and the machine's call protocol restores
    /// left-to-right positional order.
    #[verifier::loop_isolation(false)]
    #[verifier::rlimit(100)]
    #[verifier::spinoff_prover]
    fn call_tail(&mut self, name: &String) -> (r: Result<(), CompileError>)
        requires
            old(self).wf(),
            old(self).cur_kind() matches TokenKind::LParen,
        ensures
            Self::stmt_frame(*old(self), *final(self)),
            r is Ok ==> seg_wf(
                Self::emitted(*old(self), *final(self)),
                old(self).spec_label_id(),
                final(self).spec_label_id(),
            ),
            r == spec_call_tail(old(self).abs(), *name).0,
            r is Ok ==> final(self).abs() == spec_call_tail(old(self).abs(), *name).1,
        decreases old(self).spec_tokens().len() - old(self).spec_pos(), 0int,
    {
        let ghost z0 = old(self).abs();
        self.advance();  // consume '('
        let ghost za = self.abs();
        proof {
            assert(za == st_advance(z0));
            lemma_strict_id(z0, za);
        }
        let mut args: Vec<Vec<Instruction>> = Vec::new();
        let ghost mut ranges: Seq<(int, int)> = Seq::empty();
        let ghost mut accg: Seq<Seq<Instruction>> = Seq::empty();
        loop
            invariant
                Self::stmt_frame(*old(self), *self),
                self.spec_pos() > old(self).spec_pos(),
                self.code@ == old(self).code@,
                args@.len() == ranges.len(),
                args@.len() == accg.len(),
                forall|i: int| 0 <= i < accg.len() ==> (#[trigger] args@[i])@ == accg[i],
                spec_call_args(za, Seq::empty()) == spec_call_args(self.abs(), accg),
                forall|i: int|
                    0 <= i < ranges.len() ==> seg_wf(
                        #[trigger] args@[i]@,
                        ranges[i].0,
                        ranges[i].1,
                    ),
                forall|i: int|
                    0 <= i < ranges.len() ==> old(self).spec_label_id() <= (
                    #[trigger] ranges[i]).0 <= ranges[i].1 <= self.spec_label_id(),
                forall|i: int, j: int|
                    0 <= i < j < ranges.len() ==> (#[trigger] ranges[i]).1 <= (
                    #[trigger] ranges[j]).0,
            decreases self.spec_tokens().len() - self.spec_pos(),
        {
            let ghost pit = self.abs();
            let ghost acc_pre = accg;
            let k = match self.cur() {
                Ok(k) => k,
                Err(e) => return Err(e),
            };
            if matches!(k, TokenKind::RParen) {
                proof {
                    assert(spec_call_args(pit, acc_pre) == (
                        Ok::<(), CompileError>(()),
                        pit,
                        acc_pre,
                    ));
                }
                break ;
            }
            let pos0 = self.pos;
            let start = self.code.len();
            let ghost pa = *self;
            match self.expr_bp(0) {
                Ok(()) => {},
                Err(e) => return Err(e),
            }
            proof {
                lemma_onward_id(pit, self.abs());
            }
            let ghost pb = *self;
            let buf = self.code.split_off(start);
            proof {
                assert(buf@ =~= Self::emitted(pa, pb));
                assert(self.code@ =~= old(self).code@);
                assert(buf@ == pb.abs().code.subrange(
                    pit.code.len() as int,
                    pb.abs().code.len() as int,
                ));
                assert(self.abs() == with_code(pb.abs(), pit.code));
            }
            args.push(buf);
            proof {
                ranges = ranges.push((pa.spec_label_id(), pb.spec_label_id()));
                accg = accg.push(buf@);
            }
            let ghost s2g = self.abs();
            match self.cur() {
                Ok(TokenKind::Comma) => {
                    self.advance();
                },
                Ok(_) => {},
                Err(e) => return Err(e),
            }
            if self.pos == pos0 {
                return Err(CompileError::ExpectedRParenAfterExpression);
            }
            proof {
                lemma_strict_id(pit, self.abs());
                assert(spec_call_args(pit, acc_pre) == spec_call_args(self.abs(), accg));
            }
        }
        let ghost brk = self.abs();
        let ghost bufs = accg;
        self.advance();  // consume ')'
        let ghost sy = self.abs();
        proof {
            assert(sy == st_advance(brk));
        }
        let ghost lid1 = self.spec_label_id();
        let ghost nargs = ranges.len() as int;
        proof {
            assert(Self::emitted(*old(self), *self) =~= Seq::<Instruction>::empty());
            lemma_seg_empty(lid1 as int, lid1 as int);
            reveal_with_fuel(suffix_rev, 2);
            assert(self.code@ =~= old(self).code@ + suffix_rev(bufs, args@.len() as int));
        }
        loop
            invariant
                Self::stmt_frame(*old(self), *self),
                self.spec_pos() == sy.pos,
                self.locals@ == sy.locals,
                self.next_local_offset == sy.next_local_offset,
                self.spec_label_id() == lid1,
                args@.len() <= ranges.len(),
                ranges.len() == nargs,
                accg == bufs,
                bufs.len() == nargs,
                forall|i: int| 0 <= i < args@.len() ==> (#[trigger] args@[i])@ == bufs[i],
                self.code@ == old(self).code@ + suffix_rev(bufs, args@.len() as int),
                forall|i: int|
                    0 <= i < args@.len() ==> seg_wf(#[trigger] args@[i]@, ranges[i].0, ranges[i].1),
                forall|i: int|
                    0 <= i < ranges.len() ==> old(self).spec_label_id() <= (
                    #[trigger] ranges[i]).0 <= ranges[i].1 <= lid1,
                forall|i: int, j: int|
                    0 <= i < j < ranges.len() ==> (#[trigger] ranges[i]).1 <= (
                    #[trigger] ranges[j]).0,
                seg_wf(
                    Self::emitted(*old(self), *self),
                    if args@.len() < nargs {
                        ranges[args@.len() as int].0
                    } else {
                        lid1 as int
                    },
                    lid1,
                ),
                args@.len() < nargs ==> old(self).spec_label_id() <= ranges[args@.len() as int].0,
            decreases args@.len(),
        {
            let ghost pre_emit = Self::emitted(*old(self), *self);
            let ghost pre_lo: int = if args@.len() < nargs {
                ranges[args@.len() as int].0
            } else {
                lid1 as int
            };
            match args.pop() {
                Some(mut a) => {
                    let ghost j = args@.len() as int;
                    let ghost aview = a@;
                    self.code.append(&mut a);
                    proof {
                        assert forall|ii: int| 0 <= ii < old(self).code@.len() implies
                            self.code@[ii] == old(self).code@[ii] by {}
                        lemma_seg_concat_disjoint(
                            pre_emit,
                            pre_lo,
                            lid1,
                            aview,
                            ranges[j].0,
                            ranges[j].1,
                            ranges[j].0,
                            lid1,
                        );
                        assert(Self::emitted(*old(self), *self) =~= pre_emit + aview);
                        reveal_with_fuel(suffix_rev, 2);
                        assert(self.code@ =~= old(self).code@ + suffix_rev(bufs, j));
                    }
                },
                None => {
                    break ;
                },
            }
        }
        proof {
            assert(self.code@ == old(self).code@ + suffix_rev(bufs, 0));
        }
        let addr = match Self::tab_get(&self.functions, name) {
            Some(a) => a,
            None => return Err(CompileError::UnknownFunction),
        };
        let ghost pfin = *self;
        self.code.push(Instruction::Call(addr));
        proof {
            lemma_seg_push_plain(
                Self::emitted(*old(self), pfin),
                Instruction::Call(addr),
                if nargs > 0 {
                    ranges[0].0
                } else {
                    lid1 as int
                },
                lid1,
            );
            assert(Self::emitted(*old(self), *self) =~= Self::emitted(*old(self), pfin).push(
                Instruction::Call(addr),
            ));
            lemma_seg_widen(
                Self::emitted(*old(self), *self),
                if nargs > 0 {
                    ranges[0].0
                } else {
                    lid1 as int
                },
                lid1,
                old(self).spec_label_id(),
                self.spec_label_id(),
            );
            assert(self.abs().code =~= with_code(sy, sy.code + suffix_rev(bufs, 0)).code.push(
                Instruction::Call(addr),
            ));
            assert(self.abs() == emit(
                with_code(sy, sy.code + suffix_rev(bufs, 0)),
                Instruction::Call(addr),
            ));
            assert(spec_call_tail(z0, *name) == (Ok::<(), CompileError>(()), self.abs()));
        }
        Ok(())
    }
}


impl Parser {
    /// A parser over the given source text, with the first-stage
    /// tokenization already performed -- exactly the tokens the
    /// specification-level tokenization of the text prescribes, with a
    /// pending lex error exactly where tokenization failed partway --
    /// and nothing compiled yet.
    #[verifier::loop_isolation(false)]
    pub fn new(source: &str) -> (p: Parser)
        ensures
            p.is_fresh(),
            p.funcs_ok(),
            p.functions@.len() == 0,
            p.function_arity@.len() == 0,
            p.locals@.len() == 0,
            p.main_label is None,
            ({
                let toks = spec_tokenize(
                    LexState { chars: source@, pos: 0, line: 1 },
                    Seq::empty(),
                );
                &&& p.lex_err == toks.1
                &&& p.tokens@.len() == toks.0.len()
                &&& forall|i: int|
                    0 <= i < toks.0.len() ==> (
                        token_view((#[trigger] p.tokens@[i]).kind),
                        p.tokens@[i].line,
                    ) == toks.0[i]
            }),
    {
        let mut lexer = Lexer::new(source);
        let ghost s0 = LexState { chars: source@, pos: 0, line: 1 };
        proof {
            assert(lexer.labs() == s0);
        }
        let mut tokens: Vec<Token> = Vec::new();
        let ghost mut accv: Seq<(TokenView, usize)> = Seq::empty();
        loop
            invariant
                lexer.wf(),
                tokens@.len() == accv.len(),
                forall|i: int|
                    0 <= i < accv.len() ==> (
                        token_view((#[trigger] tokens@[i]).kind),
                        tokens@[i].line,
                    ) == accv[i],
                spec_tokenize(s0, Seq::empty()) == spec_tokenize(lexer.labs(), accv),
            decreases lexer.spec_chars().len() - lexer.spec_pos(),
        {
            let ghost pit = lexer.labs();
            match lexer.next_token() {
                Ok(t) => {
                    if matches!(t.kind, TokenKind::Eof) {
                        proof {
                            assert(spec_tokenize(pit, accv) == (accv, None::<LexError>));
                        }
                        let n_tokens = tokens.len();
                        proof {
                            assert(tokens@.len() == n_tokens);
                        }
                        return Parser {
                            tokens,
                            pos: 0,
                            lex_err: None,
                            code: Vec::new(),
                            label_id: 0,
                            functions: Vec::new(),
                            main_label: None,
                            locals: Vec::new(),
                            next_local_offset: 0,
                            in_function: false,
                            current_fn: None,
                            function_arity: Vec::new(),
                        };
                    }
                    tokens.push(t);
                    proof {
                        assert(!(token_view(t.kind) is Eof));
                        assert(lx_strict(pit, lexer.labs()) == lexer.labs());
                        let acc_pre = accv;
                        accv = accv.push((token_view(t.kind), t.line));
                        assert(spec_tokenize(pit, acc_pre) == spec_tokenize(
                            lexer.labs(),
                            accv,
                        ));
                    }
                },
                Err(e) => {
                    proof {
                        assert(spec_tokenize(pit, accv) == (accv, Some(e)));
                    }
                    let n_tokens = tokens.len();
                    proof {
                        assert(tokens@.len() == n_tokens);
                    }
                    return Parser {
                        tokens,
                        pos: 0,
                        lex_err: Some(e),
                        code: Vec::new(),
                        label_id: 0,
                        functions: Vec::new(),
                        main_label: None,
                        locals: Vec::new(),
                        next_local_offset: 0,
                        in_function: false,
                        current_fn: None,
                        function_arity: Vec::new(),
                    };
                },
            }
        }
    }

    /// Compile a named function after its header's `int name` part: the
    /// parameter list, a placeholder `Enter`, the body, the retroactive
    /// patch of the prologue with the frame's total slot count, and the
    /// closing `Leave`.  The entry index and arity are recorded, a
    /// function named `main` becoming the designated entry point.
    #[verifier::loop_isolation(false)]
    #[verifier::rlimit(100)]
    #[verifier::spinoff_prover]
    fn compile_function(&mut self, name: String) -> (r: Result<(), CompileError>)
        requires
            old(self).wf(),
            old(self).cur_kind() matches TokenKind::LParen,
            old(self).funcs_ok(),
        ensures
            Self::frame(*old(self), *final(self)),
            r is Ok ==> {
                &&& final(self).funcs_ok()
                &&& !final(self).in_function
                &&& final(self).spec_pos() > old(self).spec_pos()
                &&& seg_wf(
                    Self::emitted(*old(self), *final(self)),
                    old(self).spec_label_id(),
                    final(self).spec_label_id(),
                )
            },
            r == spec_compile_function(old(self).abs(), name).0,
            r is Ok ==> final(self).abs() == spec_compile_function(old(self).abs(), name).1,
    {
        let ghost z0 = old(self).abs();
        self.in_function = true;
        self.current_fn = Some(name.clone());
        self.advance();  // consume '('
        let ghost sa = self.abs();
        proof {
            assert(sa == st_advance(with_ctx(z0, true, Some(name))));
        }
        let mut params: Vec<String> = Vec::new();
        loop
            invariant
                self.wf(),
                self.spec_tokens() == old(self).spec_tokens(),
                self.spec_lex_err() == old(self).spec_lex_err(),
                self.spec_pos() >= old(self).spec_pos(),
                self.code@ == old(self).code@,
                self.spec_label_id() == old(self).spec_label_id(),
                self.functions@ == old(self).functions@,
                self.function_arity@ == old(self).function_arity@,
                self.main_label == old(self).main_label,
                self.locals@ == old(self).locals@,
                self.in_function == true,
                self.current_fn == Some(name),
                self.next_local_offset == old(self).next_local_offset,
                spec_params(sa, Seq::empty()) == spec_params(self.abs(), params@),
            decreases self.spec_tokens().len() - self.spec_pos(),
        {
            let ghost pit = self.abs();
            let ghost accp = params@;
            let k = match self.cur() {
                Ok(k) => k,
                Err(e) => return Err(e),
            };
            match k {
                TokenKind::Int | TokenKind::Char => {
                    self.advance();
                    let k2 = match self.cur() {
                        Ok(k2) => k2,
                        Err(e) => return Err(e),
                    };
                    match k2 {
                        TokenKind::Id(p) => {
                            params.push(p);
                            self.advance();
                            let k3 = match self.cur() {
                                Ok(k3) => k3,
                                Err(e) => return Err(e),
                            };
                            if matches!(k3, TokenKind::Comma) {
                                self.advance();
                            }
                            proof {
                                lemma_strict_id(pit, self.abs());
                                assert(spec_params(pit, accp) == spec_params(
                                    self.abs(),
                                    params@,
                                ));
                            }
                        },
                        _ => {
                            return Err(CompileError::ExpectedParamName);
                        },
                    }
                },
                _ => {
                    proof {
                        assert(spec_params(pit, accp) == (
                            Ok::<(), CompileError>(()),
                            pit,
                            accp,
                        ));
                    }
                    break ;
                },
            }
        }
        let ghost sx = self.abs();
        match self.cur() {
            Ok(TokenKind::RParen) => {},
            Ok(_) => return Err(CompileError::ExpectedRParenAfterParams),
            Err(e) => return Err(e),
        }
        self.advance();
        let ghost sy = self.abs();
        match self.cur() {
            Ok(TokenKind::LBrace) => {},
            Ok(_) => return Err(CompileError::ExpectedLBraceBody),
            Err(e) => return Err(e),
        }
        self.advance();
        let ghost sz = self.abs();
        proof {
            assert(sy == st_advance(sx));
            assert(sz == st_advance(sy));
        }
        let entry = self.code.len();
        Self::tab_set(&mut self.functions, name.clone(), entry);
        Self::tab_set(&mut self.function_arity, name.clone(), params.len());
        if Self::is_main_name(&name) {
            self.main_label = Some(entry);
        }
        proof {
            assert(self.abs() == with_funcs(
                sz,
                spec_tab_set(sz.functions, name, entry),
                spec_tab_set(sz.function_arity, name, (params@.len() as usize)),
                if name@ == "main"@ {
                    Some(entry)
                } else {
                    sz.main_label
                },
            ));
        }
        let ghost s2g = self.abs();
        self.locals.clear();
        let mut i: usize = 0;
        while i < params.len()
            invariant
                i <= params@.len(),
                self.wf(),
                self.spec_tokens() == old(self).spec_tokens(),
                self.spec_lex_err() == old(self).spec_lex_err(),
                self.spec_pos() >= old(self).spec_pos(),
                self.code@ == old(self).code@,
                self.spec_label_id() == old(self).spec_label_id(),
                self.functions@.len() >= old(self).functions@.len(),
                forall|j: int|
                    0 <= j < self.functions@.len() ==> ((#[trigger] self.functions@[j]).1 == entry
                        || (j < old(self).functions@.len() && self.functions@[j] == old(
                        self,
                    ).functions@[j])),
                self.main_label == old(self).main_label || self.main_label == Some(entry),
                self.functions@ == s2g.functions,
                self.function_arity@ == s2g.function_arity,
                self.main_label == s2g.main_label,
                self.spec_pos() == s2g.pos,
                self.current_fn == s2g.current_fn,
                self.in_function == s2g.in_function,
                self.next_local_offset == s2g.next_local_offset,
                spec_bind_params(Seq::empty(), params@, 0) == spec_bind_params(
                    self.locals@,
                    params@,
                    i as int,
                ),
            decreases params@.len() - i,
        {
            let p = params[i].clone();
            Self::tab_set(&mut self.locals, p, i);
            i += 1;
        }
        proof {
            assert(self.locals@ == spec_bind_params(Seq::empty(), params@, 0));
        }
        self.next_local_offset = params.len();
        self.code.push(Instruction::Enter(0));
        let ghost pb = *self;
        proof {
            assert(Self::emitted(*old(self), pb) =~= seq![Instruction::Enter(0)]);
            assert(pb.abs() == emit(
                with_locals(s2g, spec_bind_params(Seq::empty(), params@, 0), (params@.len() as usize)),
                Instruction::Enter(0),
            ));
        }
        match self.block_tail() {
            Ok(()) => {},
            Err(e) => return Err(e),
        }
        let ghost pc = *self;
        let total = self.locals.len();
        proof {
            assert(self.code@[entry as int] == Instruction::Enter(0));
        }
        self.code[entry] = Instruction::Enter(total);
        self.code.push(Instruction::Leave);
        self.in_function = false;
        self.current_fn = None;
        proof {
            assert(self.abs() == with_ctx(
                emit(
                    with_code(pc.abs(), pc.abs().code.update(entry as int, Instruction::Enter(total))),
                    Instruction::Leave,
                ),
                false,
                None,
            ));
            assert(spec_compile_function(z0, name) == (Ok::<(), CompileError>(()), self.abs()));
            let body = Self::emitted(pb, pc);
            assert(Self::emitted(*old(self), *self) =~= seq![Instruction::Enter(total)] + body
                + seq![Instruction::Leave]);
            lemma_seg_single_plain(
                Instruction::Enter(total),
                old(self).spec_label_id(),
                pb.spec_label_id(),
            );
            lemma_seg_concat(
                seq![Instruction::Enter(total)],
                body,
                old(self).spec_label_id(),
                pb.spec_label_id(),
                pc.spec_label_id(),
            );
            lemma_seg_push_plain(
                seq![Instruction::Enter(total)] + body,
                Instruction::Leave,
                old(self).spec_label_id(),
                pc.spec_label_id(),
            );
            assert((seq![Instruction::Enter(total)] + body).push(Instruction::Leave) =~= seq![
                Instruction::Enter(total),
            ] + body + seq![Instruction::Leave]);
            assert forall|j: int| 0 <= j < self.functions@.len() implies ((
            #[trigger] self.functions@[j]).1 < self.code@.len() && (
            self.code@[self.functions@[j].1 as int] matches Instruction::Enter(_))) by {
                let e = self.functions@[j].1;
                if e == entry {
                    assert(self.code@[entry as int] == Instruction::Enter(total));
                } else {
                    assert(self.functions@[j] == old(self).functions@[j]);
                    assert(e < old(self).code@.len());
                    assert(self.code@[e as int] == old(self).code@[e as int]);
                }
            }
            assert(match self.main_label {
                Some(e) => e < self.code@.len() && (self.code@[e as int] matches
                Instruction::Enter(_)),
                None => true,
            }) by {
                match self.main_label {
                    Some(e) => {
                        if e == entry {
                        } else {
                            assert(self.main_label == old(self).main_label);
                            assert(e < old(self).code@.len());
                            assert(self.code@[e as int] == old(self).code@[e as int]);
                        }
                    },
                    None => {},
                }
            }
        }
        Ok(())
    }

    /// Compile one top-level form headed by `int`: a named-function
    /// definition if the `int name (` shape materialises, else an
    /// ordinary declaration, the already-consumed tokens still taking
    /// their effect.
    #[verifier::loop_isolation(false)]
    #[verifier::rlimit(100)]
    #[verifier::spinoff_prover]
    fn parse_int_item(&mut self) -> (r: Result<(), CompileError>)
        requires
            old(self).wf(),
            old(self).cur_kind() matches TokenKind::Int,
            old(self).funcs_ok(),
            !old(self).in_function,
        ensures
            Self::frame(*old(self), *final(self)),
            r is Ok ==> {
                &&& final(self).funcs_ok()
                &&& !final(self).in_function
                &&& final(self).spec_pos() > old(self).spec_pos()
                &&& seg_wf(
                    Self::emitted(*old(self), *final(self)),
                    old(self).spec_label_id(),
                    final(self).spec_label_id(),
                )
            },
            r == spec_parse_int_item(old(self).abs()).0,
            r is Ok ==> final(self).abs() == spec_parse_int_item(old(self).abs()).1,
        decreases old(self).spec_tokens().len() - old(self).spec_pos(), 0int,
    {
        let ghost z0 = old(self).abs();
        self.advance();
            let ghost s1g = self.abs();
            let k2 = match self.cur() {
                Ok(k2) => k2,
                Err(e) => return Err(e),
            };
            match k2 {
                TokenKind::Id(name) => {
                    self.advance();
                    let ghost s2g = self.abs();
                    proof {
                        assert(s2g == st_advance(s1g));
                    }
                    let k3 = match self.cur() {
                        Ok(k3) => k3,
                        Err(e) => return Err(e),
                    };
                    if matches!(k3, TokenKind::LParen) {
                        match self.compile_function(name) {
                            Ok(()) => {},
                            Err(e) => return Err(e),
                        }
                        proof {
                        }
                    } else {
                        if self.next_local_offset == usize::MAX {
                            return Err(CompileError::TooManyLocals);
                        }
                        let off = self.next_local_offset;
                        Self::tab_set(&mut self.locals, name, off);
                        self.next_local_offset = off + 1;
                        let ghost s3g = self.abs();
                        proof {
                            assert(s3g == with_locals(
                                s2g,
                                spec_tab_set(s2g.locals, name, s2g.next_local_offset),
                                (s2g.next_local_offset + 1) as usize,
                            ));
                        }
                        let k4 = match self.cur() {
                            Ok(k4) => k4,
                            Err(e) => return Err(e),
                        };
                        if matches!(k4, TokenKind::Comma) {
                            self.advance();
                            proof {
                            }
                            self.skip_stars();
                            proof {
                                assert(self.abs() == spec_skip_stars(
                                    strictly_onward(z0, st_advance(s3g)),
                                ));
                            }
                            match self.decl_names() {
                                Ok(()) => {},
                                Err(e) => return Err(e),
                            }
                        }
                        match self.decl_finish() {
                            Ok(()) => {},
                            Err(e) => return Err(e),
                        }
                        proof {
                            assert(self.code@ == old(self).code@);
                            assert(Self::emitted(*old(self), *self)
                                =~= Seq::<Instruction>::empty());
                            lemma_seg_empty(
                                old(self).spec_label_id(),
                                self.spec_label_id(),
                            );
                        }
                    }
                },
                _ => {
                    proof {
                        lemma_strict_id(z0, s1g);
                    }
                    self.skip_stars();
                    proof {
                        assert(self.abs() == spec_skip_stars(
                            strictly_onward(z0, st_advance(z0)),
                        ));
                    }
                    match self.decl_names() {
                        Ok(()) => {},
                        Err(e) => return Err(e),
                    }
                    match self.decl_finish() {
                        Ok(()) => {},
                        Err(e) => return Err(e),
                    }
                    proof {
                        assert(self.code@ == old(self).code@);
                        assert(Self::emitted(*old(self), *self)
                            =~= Seq::<Instruction>::empty());
                        lemma_seg_empty(old(self).spec_label_id(), self.spec_label_id());
                    }
                },
            }
        Ok(())
    }

    /// Compile a whole program: named-function definitions, bare
    /// top-level blocks and bare statements, in one pass, and append
    /// the single exit-sentinel label that every top-level `return`
    /// jumps to.  The result is exactly what the specification-level
    /// compile function of the token stream prescribes -- the emitted
    /// instruction sequence, the function and arity tables, the entry
    /// point and the locals table, and which error comes on which
    /// input.  On success every jump in the emitted code names a label
    /// that the code marks exactly once, and every recorded function
    /// entry points at its `Enter` prologue.
    #[verifier::loop_isolation(false)]
    #[verifier::rlimit(100)]
    #[verifier::spinoff_prover]
    pub fn parse(&mut self) -> (r: Result<(), CompileError>)
        requires
            old(self).is_fresh(),
            old(self).funcs_ok(),
        ensures
            match r {
                Ok(()) => {
                    &&& final(self).code@.len() > 0
                    &&& final(self).code@.last() == Instruction::Label(EXIT_LABEL)
                    &&& jumps_resolved(final(self).code@)
                    &&& labels_unique(final(self).code@)
                    &&& final(self).funcs_ok()
                },
                Err(_) => true,
            },
            r == spec_parse(old(self).abs()).0,
            r is Ok ==> final(self).abs() == spec_parse(old(self).abs()).1,
    {
        let ghost z0 = old(self).abs();
        proof {
            lemma_seg_empty(0, 0);
            assert(self.code@ =~= Seq::<Instruction>::empty());
        }
        loop
            invariant
                self.wf(),
                !self.in_function,
                self.funcs_ok(),
                0 <= self.spec_label_id(),
                seg_wf(self.code@, 0, self.spec_label_id()),
                spec_parse_items(z0) == spec_parse_items(self.abs()),
                z0 == old(self).abs(),
            decreases self.spec_tokens().len() - self.spec_pos(),
        {
            let ghost zit = self.abs();
            let k = match self.cur() {
                Ok(k) => k,
                Err(e) => return Err(e),
            };
            if matches!(k, TokenKind::Eof) {
                let ghost pend = *self;
                self.code.push(Instruction::Label(EXIT_LABEL));
                proof {
                    lemma_seg_finish(pend.code@, pend.spec_label_id());
                    assert(self.code@ == pend.code@.push(Instruction::Label(EXIT_LABEL)));
                    assert forall|j: int| 0 <= j < self.functions@.len() implies ((
                    #[trigger] self.functions@[j]).1 < self.code@.len() && (
                    self.code@[self.functions@[j].1 as int] matches Instruction::Enter(_))) by {
                        let e = self.functions@[j].1;
                        assert(e < pend.code@.len());
                        assert(self.code@[e as int] == pend.code@[e as int]);
                    }
                    assert(spec_parse_items(zit) == (Ok::<(), CompileError>(()), zit));
                    assert(self.abs() == emit(zit, Instruction::Label(EXIT_LABEL)));
                    assert(spec_parse(z0) == (Ok::<(), CompileError>(()), self.abs()));
                }
                return Ok(());
            }
            let ghost pit = *self;
            match k {
                TokenKind::Int => {
                    match self.parse_int_item() {
                        Ok(()) => {},
                        Err(e) => return Err(e),
                    }
                    proof {
                        assert(self.code@ =~= pit.code@ + Self::emitted(pit, *self));
                        lemma_seg_concat(
                            pit.code@,
                            Self::emitted(pit, *self),
                            0,
                            pit.spec_label_id(),
                            self.spec_label_id(),
                        );
                        lemma_strict_id(zit, self.abs());
                        assert(spec_parse_items(zit) == spec_parse_items(self.abs()));
                    }
                },
                TokenKind::LBrace => {
                    self.advance();
                    proof {
                        lemma_strict_id(zit, self.abs());
                    }
                    match self.block_tail() {
                        Ok(()) => {},
                        Err(e) => return Err(e),
                    }
                    proof {
                        assert(self.code@ =~= pit.code@ + Self::emitted(pit, *self));
                        lemma_seg_concat(
                            pit.code@,
                            Self::emitted(pit, *self),
                            0,
                            pit.spec_label_id(),
                            self.spec_label_id(),
                        );
                        lemma_strict_id(zit, self.abs());
                        assert(spec_parse_items(zit) == spec_parse_items(self.abs()));
                    }
                },
                _ => {
                    match self.stmt() {
                        Ok(()) => {},
                        Err(e) => return Err(e),
                    }
                    proof {
                        assert(self.code@ =~= pit.code@ + Self::emitted(pit, *self));
                        lemma_seg_concat(
                            pit.code@,
                            Self::emitted(pit, *self),
                            0,
                            pit.spec_label_id(),
                            self.spec_label_id(),
                        );
                        lemma_strict_id(zit, self.abs());
                        assert(spec_parse_items(zit) == spec_parse_items(self.abs()));
                    }
                },
            }
        }
    }
}

} // verus!
