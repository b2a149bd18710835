//! The translator: consumes raw source bytes once, left to right, and
//! produces the ordered operation sequence, collapsing each maximal run of
//! identical non-bracket bytes into one operation and matching brackets
//! with a stack of open positions.  At every closing bracket it consults
//! the loop optimizer; on a match the whole loop is replaced by the single
//! fused operation, otherwise the jump pair is backpatched: the opening
//! test's target becomes the index of its closing jump, and the closing
//! jump's target the index of the opening test (the instruction pointer
//! always advances by one after a dispatch, so these land just past the
//! loop on skip and just past the opening test on repeat).

use vstd::prelude::*;

use crate::ops::{BfOp, BfOpKind};
use crate::optimize::{fusion_as_seq, optimize_loop, optimize_loop_spec};

verus! {

/// The eight operator characters, as byte values.
pub const CH_INC_PTR: u8 = 62;  // `>`
pub const CH_DEC_PTR: u8 = 60;  // `<`
pub const CH_INC_DATA: u8 = 43;  // `+`
pub const CH_DEC_DATA: u8 = 45;  // `-`
pub const CH_READ: u8 = 44;  // `,`
pub const CH_WRITE: u8 = 46;  // `.`
pub const CH_OPEN: u8 = 91;  // `[`
pub const CH_CLOSE: u8 = 93;  // `]`

/// Why a source text is rejected.  Each variant reports the byte offset of
/// the offending bracket.
#[derive(Clone, Copy, PartialEq, Eq, Structural, Debug)]
pub enum TranslateError {
    /// A `]` with no matching `[`.
    UnmatchedCloseBracket { offset: usize },
    /// A `[` still unmatched at end of input.
    UnterminatedLoop { offset: usize },
}

/// The operation kind a non-bracket byte stands for; anything but the six
/// operator characters is inert and compiles to `InvalidOp`.
pub open spec fn operator_kind(b: u8) -> BfOpKind {
    if b == CH_INC_PTR {
        BfOpKind::IncPtr
    } else if b == CH_DEC_PTR {
        BfOpKind::DecPtr
    } else if b == CH_INC_DATA {
        BfOpKind::IncData
    } else if b == CH_DEC_DATA {
        BfOpKind::DecData
    } else if b == CH_READ {
        BfOpKind::ReadStdin
    } else if b == CH_WRITE {
        BfOpKind::WriteStdout
    } else {
        BfOpKind::InvalidOp
    }
}

/// The length of the maximal run of bytes equal to `code[i]` starting at
/// `i`.
pub open spec fn run_len(code: Seq<u8>, i: int) -> int
    decreases code.len() - i,
        when 0 <= i < code.len()
{
    if i + 1 < code.len() && code[i + 1] == code[i] {
        1 + run_len(code, i + 1)
    } else {
        1
    }
}

/// A maximal run is non-empty, stays within the source, consists of copies
/// of its first byte, and ends right before a different byte or the end.
pub proof fn lemma_run_len_bounds(code: Seq<u8>, i: int)
    requires
        0 <= i < code.len(),
    ensures
        1 <= run_len(code, i),
        i + run_len(code, i) <= code.len(),
        forall|k: int| i <= k < i + run_len(code, i) ==> code[k] == code[i],
        i + run_len(code, i) < code.len() ==> code[i + run_len(code, i)] != code[i],
    decreases code.len() - i,
{
    if i + 1 < code.len() && code[i + 1] == code[i] {
        lemma_run_len_bounds(code, i + 1);
    }
}

/// Any scan that stops at the first byte different from `code[i]` (or at
/// the end) has found exactly the maximal run.
pub proof fn lemma_run_len_unique(code: Seq<u8>, i: int, j: int)
    requires
        0 <= i < j <= code.len(),
        forall|k: int| i <= k < j ==> code[k] == code[i],
        j < code.len() ==> code[j] != code[i],
    ensures
        j == i + run_len(code, i),
{
    lemma_run_len_bounds(code, i);
    let e = i + run_len(code, i);
    if j < e {
        assert(code[j] == code[i]);
    }
    if e < j {
        assert(code[e] == code[i]);
    }
}

/// One entry of the bracket stack: the operation index where the opening
/// test sits, and the byte offset of its `[` in the source.
pub type OpenEntry = (usize, usize);

/// The state of the translator after consuming `code[..i]`: the operations
/// built so far and the stack of unmatched open brackets.  The result is
/// what the whole translation returns from this state on.
pub open spec fn translate_from(
    code: Seq<u8>,
    i: int,
    ops: Seq<BfOp>,
    stack: Seq<OpenEntry>,
) -> Result<Seq<BfOp>, TranslateError>
    decreases code.len() - i,
        when 0 <= i <= code.len()
    via translate_from_decreases
{
    if i >= code.len() {
        if stack.len() == 0 {
            Ok(ops)
        } else {
            Err(TranslateError::UnterminatedLoop { offset: stack.last().1 })
        }
    } else if code[i] == CH_OPEN {
        translate_from(
            code,
            i + 1,
            ops.push(BfOp { kind: BfOpKind::JumpIfDataZero, argument: 0 }),
            stack.push((ops.len() as usize, i as usize)),
        )
    } else if code[i] == CH_CLOSE {
        if stack.len() == 0 {
            Err(TranslateError::UnmatchedCloseBracket { offset: i as usize })
        } else {
            let open = stack.last().0 as int;
            let popped = stack.drop_last();
            match optimize_loop_spec(ops, open) {
                Some(fused) => translate_from(code, i + 1, ops.take(open).push(fused), popped),
                None => translate_from(
                    code,
                    i + 1,
                    ops.update(
                        open,
                        BfOp { kind: ops[open].kind, argument: ops.len() as i64 },
                    ).push(BfOp { kind: BfOpKind::JumpIfDataNotZero, argument: open as i64 }),
                    popped,
                ),
            }
        }
    } else {
        let n = run_len(code, i);
        translate_from(
            code,
            i + n,
            ops.push(BfOp { kind: operator_kind(code[i]), argument: n as i64 }),
            stack,
        )
    }
}

#[via_fn]
proof fn translate_from_decreases(code: Seq<u8>, i: int, ops: Seq<BfOp>, stack: Seq<OpenEntry>) {
    if 0 <= i < code.len() {
        lemma_run_len_bounds(code, i);
    }
}

/// What translating a whole source yields: the finished operation sequence,
/// or the error for the first offending bracket.
pub open spec fn translate_spec(code: Seq<u8>) -> Result<Seq<BfOp>, TranslateError> {
    translate_from(code, 0, Seq::<BfOp>::empty(), Seq::<OpenEntry>::empty())
}

/// Translates raw source bytes into the optimized operation sequence, or
/// reports the first unmatched bracket.  The length bound keeps every
/// repeat count and jump target representable in an operation argument.
pub fn translate_code(code: &Vec<u8>) -> (r: Result<Vec<BfOp>, TranslateError>)
    requires
        code@.len() <= i64::MAX,
    ensures
        match r {
            Ok(ops) => translate_spec(code@) == Ok::<Seq<BfOp>, TranslateError>(ops@),
            Err(e) => translate_spec(code@) == Err::<Seq<BfOp>, TranslateError>(e),
        },
{
    let mut ptr: usize = 0;
    let code_size: usize = code.len();
    let mut ops: Vec<BfOp> = Vec::new();
    let mut open_bracket_stack: Vec<OpenEntry> = Vec::new();

    while ptr < code_size
        invariant
            code_size == code@.len(),
            code@.len() <= i64::MAX,
            ptr <= code_size,
            ops@.len() <= ptr,
            forall|i: int|
                0 <= i < ops@.len() ==> (#[trigger] ops@[i]).argument != i64::MIN,
            forall|j: int|
                0 <= j < open_bracket_stack@.len() ==> (#[trigger] open_bracket_stack@[j]).0
                    < ops@.len(),
            forall|j: int, k: int|
                0 <= j < k < open_bracket_stack@.len() ==> open_bracket_stack@[j].0
                    < open_bracket_stack@[k].0,
            translate_from(code@, ptr as int, ops@, open_bracket_stack@) == translate_spec(code@),
        decreases code_size - ptr,
    {
        let instruction = code[ptr];
        if instruction == CH_OPEN {
            open_bracket_stack.push((ops.len(), ptr));
            ops.push(BfOp { kind: BfOpKind::JumpIfDataZero, argument: 0 });
            ptr = ptr + 1;
        } else if instruction == CH_CLOSE {
            if open_bracket_stack.len() == 0 {
                return Err(TranslateError::UnmatchedCloseBracket { offset: ptr });
            }
            let ghost pre_stack = open_bracket_stack@;
            let (open_idx, _open_off) = open_bracket_stack[open_bracket_stack.len() - 1];
            open_bracket_stack.pop();
            assert(open_bracket_stack@ == pre_stack.drop_last());

            let optimized_loop = optimize_loop(&ops, open_idx as i64);

            if optimized_loop.len() == 0 {
                assert(optimize_loop_spec(ops@, open_idx as int) is None) by {
                    assert(fusion_as_seq(optimize_loop_spec(ops@, open_idx as int)).len() == 0);
                }
                let close_idx = ops.len();
                let mut backpatched = ops[open_idx];
                backpatched.argument = close_idx as i64;
                ops[open_idx] = backpatched;
                ops.push(BfOp { kind: BfOpKind::JumpIfDataNotZero, argument: open_idx as i64 });
            } else {
                let ghost fused = optimize_loop_spec(ops@, open_idx as int).unwrap();
                assert(optimized_loop@ == seq![fused]);
                let ghost pre_ops = ops@;
                ops.truncate(open_idx);
                let mut tail = optimized_loop;
                ops.append(&mut tail);
                assert(ops@ =~= pre_ops.take(open_idx as int).push(fused));
                assert(fused.argument != i64::MIN) by {
                    assert(forall|i: int|
                        open_idx < i < pre_ops.len() ==> (#[trigger] pre_ops[i]).argument
                            != i64::MIN);
                }
            }
            ptr = ptr + 1;
        } else {
            let start = ptr;
            ptr = ptr + 1;
            while ptr < code_size && code[ptr] == instruction
                invariant
                    code_size == code@.len(),
                    start < ptr <= code_size,
                    instruction == code@[start as int],
                    forall|k: int| start <= k < ptr ==> code@[k] == code@[start as int],
                decreases code_size - ptr,
            {
                ptr = ptr + 1;
            }
            let num_repeats = ptr - start;
            proof {
                lemma_run_len_unique(code@, start as int, ptr as int);
            }

            let kind = if instruction == CH_INC_PTR {
                BfOpKind::IncPtr
            } else if instruction == CH_DEC_PTR {
                BfOpKind::DecPtr
            } else if instruction == CH_INC_DATA {
                BfOpKind::IncData
            } else if instruction == CH_DEC_DATA {
                BfOpKind::DecData
            } else if instruction == CH_READ {
                BfOpKind::ReadStdin
            } else if instruction == CH_WRITE {
                BfOpKind::WriteStdout
            } else {
                BfOpKind::InvalidOp
            };

            ops.push(BfOp { kind, argument: num_repeats as i64 });
        }
    }

    if open_bracket_stack.len() > 0 {
        let top = open_bracket_stack[open_bracket_stack.len() - 1];
        return Err(TranslateError::UnterminatedLoop { offset: top.1 });
    }
    Ok(ops)
}

} // verus!
